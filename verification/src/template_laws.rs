//! What holds of every template: laws of spans, references and paths.
use crate::flow::types::StepModel;
use crate::flow::validate::span_exprs;
use crate::json::{json_member, json_text, Json};
use crate::run::types::{find_run, RunStateModel, StepRunModel};
use crate::template::{
    context_of, contexts_of, dot_get_of, find_context, path_value, resolved, resolved_entries,
    resolved_items, resolved_value, spans_resolved, whole_span_of, ContextModel, StepContextModel,
    TemplateErrorModel,
};
use crate::text::{begins, is_white, joined, pair_at, split_on, trimmed};
use crate::text_laws::{
    blank, found_pair_is_the_first, joined_pieces_split_again, lacks, pair_stands, tight,
    trimming_takes_off_the_blanks,
};
use vstd::prelude::*;

verus! {

/// A path is followed member by member: the empty path leads to the value
/// itself, and a path that begins with a key leads where the rest of it leads
/// from the member of that name.
pub proof fn path_is_followed_member_by_member(v: Json, key: Seq<char>, path: Seq<Seq<char>>)
    ensures
        dot_get_of(v, Seq::empty()) == Some(v),
        dot_get_of(v, seq![key] + path) == (match json_member(v, key) {
            Some(member) => dot_get_of(member, path),
            None => None,
        }),
{
    let all = seq![key] + path;
    assert(all.drop_first() =~= path);
}

/// A path of two parts is followed along the first and then along the second.
pub proof fn path_is_followed_part_by_part(v: Json, a: Seq<Seq<char>>, b: Seq<Seq<char>>)
    ensures
        dot_get_of(v, a + b) == (match dot_get_of(v, a) {
            Some(inner) => dot_get_of(inner, b),
            None => None,
        }),
    decreases a.len(),
{
    let all = a + b;
    if a.len() == 0 {
        assert(all =~= b);
    } else {
        assert(all.drop_first() =~= a.drop_first() + b);
        if let Some(m) = json_member(v, a[0]) {
            path_is_followed_part_by_part(m, a.drop_first(), b);
        }
    }
}

/// A path into nested objects, each with an entry of its name, leads to the
/// innermost value.
pub proof fn nested_objects_are_reached(
    outer: Seq<(Seq<char>, Json)>,
    i: int,
    inner: Seq<(Seq<char>, Json)>,
    j: int,
)
    requires
        0 <= i < outer.len(),
        0 <= j < inner.len(),
        outer[i].1 == Json::Object(inner),
        forall|k: int| 0 <= k < i ==> (#[trigger] outer[k]).0 != outer[i].0,
        forall|k: int| 0 <= k < j ==> (#[trigger] inner[k]).0 != inner[j].0,
    ensures
        dot_get_of(Json::Object(outer), seq![outer[i].0, inner[j].0]) == Some(inner[j].1),
{
    crate::json_laws::first_entry_is_the_member(outer, i);
    crate::json_laws::first_entry_is_the_member(inner, j);
    let path = seq![outer[i].0, inner[j].0];
    let last = seq![inner[j].0];
    assert(path =~= seq![outer[i].0] + last);
    assert(last =~= last + Seq::<Seq<char>>::empty());
    path_is_followed_member_by_member(Json::Object(outer), outer[i].0, last);
    path_is_followed_member_by_member(Json::Object(inner), inner[j].0, Seq::empty());
    path_is_followed_member_by_member(inner[j].1, inner[j].0, Seq::empty());
}

/// Whether `s` neither holds two `c` in a row nor ends with `c`.
pub open spec fn pair_free(s: Seq<char>, c: char) -> bool {
    forall|i: int| 0 <= i < s.len() && #[trigger] s[i] == c ==> i + 1 < s.len() && s[i + 1] != c
}

/// A template made of `before`, a span with `expr` in it, and `after`.
pub open spec fn spanned(before: Seq<char>, expr: Seq<char>, after: Seq<char>) -> Seq<char> {
    before + seq!['{', '{'] + expr + seq!['}', '}'] + after
}

proof fn lemma_first_pair(before: Seq<char>, c: char, after: Seq<char>)
    requires
        pair_free(before, c),
    ensures
        pair_at(before + seq![c, c] + after, c, c) == Some(before.len() as int),
{
    let all = before + seq![c, c] + after;
    found_pair_is_the_first(all, c, c);
    let n = before.len() as int;
    assert(all[n] == c && all[n + 1] == c);
    assert(pair_stands(all, c, c, n));
    match pair_at(all, c, c) {
        Some(i) => {
            if i < n {
                assert(all[i] == before[i]);
                assert(i + 1 < before.len());
                assert(all[i + 1] == before[i + 1]);
            }
            if i > n {
                assert(!pair_stands(all, c, c, n));
            }
        },
        None => {},
    }
}

proof fn lemma_span_parts(before: Seq<char>, expr: Seq<char>, after: Seq<char>)
    requires
        pair_free(before, '{'),
        pair_free(expr, '}'),
    ensures
        ({
            let text = spanned(before, expr, after);
            let start = before.len() as int;
            let tail = text.skip(start + 2);
            &&& pair_at(text, '{', '{') == Some(start)
            &&& pair_at(tail, '}', '}') == Some(expr.len() as int)
            &&& tail.take(expr.len() as int) == expr
            &&& tail.skip(expr.len() as int + 2) == after
            &&& text.take(start) == before
        }),
{
    let text = spanned(before, expr, after);
    let start = before.len() as int;
    let tail = text.skip(start + 2);
    assert(text =~= before + seq!['{', '{'] + (expr + seq!['}', '}'] + after));
    lemma_first_pair(before, '{', expr + seq!['}', '}'] + after);
    assert(tail =~= expr + seq!['}', '}'] + after);
    lemma_first_pair(expr, '}', after);
    assert(tail.take(expr.len() as int) =~= expr);
    assert(tail.skip(expr.len() as int + 2) =~= after);
    assert(text.take(start) =~= before);
}

/// The expressions of a template are those of its spans, one after the other
/// and each without the white space around it: the first span's, and then those
/// of what comes behind it.
pub proof fn every_span_is_listed(before: Seq<char>, expr: Seq<char>, after: Seq<char>)
    requires
        pair_free(before, '{'),
        pair_free(expr, '}'),
    ensures
        span_exprs(spanned(before, expr, after)) == seq![trimmed(expr)] + span_exprs(after),
{
    lemma_span_parts(before, expr, after);
}

/// A template has no spans exactly where nothing opens one or nothing closes
/// the first.
pub proof fn text_without_spans_lists_none(text: Seq<char>)
    ensures
        (forall|i: int| !#[trigger] pair_stands(text, '{', '{', i)) || (forall|i: int|
            !#[trigger] pair_stands(text, '}', '}', i)) ==> span_exprs(text).len() == 0,
{
    found_pair_is_the_first(text, '{', '{');
    if let Some(start) = pair_at(text, '{', '{') {
        let after = text.skip(start + 2);
        found_pair_is_the_first(after, '}', '}');
        if let Some(end) = pair_at(after, '}', '}') {
            assert(pair_stands(text, '{', '{', start));
            assert(pair_stands(text, '}', '}', start + 2 + end));
        }
    }
}

/// Every span of a template is replaced by what it refers to, a text as it is
/// and anything else as JSON; what stands around the spans stays. The first
/// reference that cannot be resolved is the error.
pub proof fn every_span_is_replaced(
    before: Seq<char>,
    expr: Seq<char>,
    after: Seq<char>,
    ctx: ContextModel,
    step: Seq<char>,
)
    requires
        pair_free(before, '{'),
        pair_free(expr, '}'),
    ensures
        spans_resolved(spanned(before, expr, after), ctx, step) == (match path_value(
            trimmed(expr),
            ctx,
            step,
        ) {
            Err(e) => Err(e),
            Ok(v) => match spans_resolved(after, ctx, step) {
                Err(e) => Err(e),
                Ok(rest) => Ok(
                    before + (match v {
                        Json::Text(s) => s,
                        _ => json_text(v),
                    }) + rest,
                ),
            },
        }),
{
    lemma_span_parts(before, expr, after);
}

/// A span that is opened and never closed is an error.
pub proof fn open_span_is_an_error(
    before: Seq<char>,
    rest: Seq<char>,
    ctx: ContextModel,
    step: Seq<char>,
)
    requires
        pair_free(before, '{'),
        forall|i: int| !#[trigger] pair_stands(rest, '}', '}', i),
    ensures
        spans_resolved(before + seq!['{', '{'] + rest, ctx, step) == Err::<
            Seq<char>,
            TemplateErrorModel,
        >(TemplateErrorModel::Unterminated { step }),
{
    lemma_first_pair(before, '{', rest);
    let all = before + seq!['{', '{'] + rest;
    assert(all.skip(before.len() as int + 2) =~= rest);
    found_pair_is_the_first(rest, '}', '}');
}

proof fn lemma_span_is_tight(expr: Seq<char>)
    ensures
        tight(seq!['{', '{'] + expr + seq!['}', '}']),
{
    let s = seq!['{', '{'] + expr + seq!['}', '}'];
    assert(s[0] == '{');
    assert(s.last() == '}');
}

/// A template that is one span, with nothing but white space around it, is
/// resolved to the value alone, without that white space.
pub proof fn single_span_is_its_value(
    lead: Seq<char>,
    expr: Seq<char>,
    tail: Seq<char>,
    ctx: ContextModel,
    step: Seq<char>,
)
    requires
        blank(lead),
        blank(tail),
        forall|i: int| !#[trigger] pair_stands(expr, '{', '{', i),
        forall|i: int| !#[trigger] pair_stands(expr, '}', '}', i),
    ensures
        resolved(spanned(lead, expr, tail), ctx, step) == (match path_value(
            trimmed(expr),
            ctx,
            step,
        ) {
            Err(e) => Err(e),
            Ok(Json::Text(s)) => Ok(s),
            Ok(v) => Ok(json_text(v)),
        }),
{
    let text = spanned(lead, expr, tail);
    let s = seq!['{', '{'] + expr + seq!['}', '}'];
    lemma_span_is_tight(expr);
    assert(text =~= lead + s + tail);
    trimming_takes_off_the_blanks(lead, s, tail);
    found_pair_is_the_first(expr, '{', '{');
    found_pair_is_the_first(expr, '}', '}');
    reveal_strlit("{{");
    assert(s.take(2) =~= "{{"@);
    assert(begins(s, "{{"@));
    assert(s.subrange(2, s.len() - 2) =~= expr);
}

/// A template with other text before its first span is resolved span by span,
/// and all of that text stays.
pub proof fn text_before_a_span_stays(
    before: Seq<char>,
    expr: Seq<char>,
    after: Seq<char>,
    ctx: ContextModel,
    step: Seq<char>,
)
    requires
        pair_free(before, '{'),
        pair_free(expr, '}'),
        !blank(before),
    ensures
        resolved(spanned(before, expr, after), ctx, step) == spans_resolved(
            spanned(before, expr, after),
            ctx,
            step,
        ),
        resolved(spanned(before, expr, after), ctx, step) matches Ok(t) ==> begins(t, before),
{
    let text = spanned(before, expr, after);
    every_span_is_replaced(before, expr, after, ctx, step);
    let (lead, rest) = lemma_leading_blanks(before);
    lemma_span_parts(before, expr, after);
    // The text without its leading white space begins inside `before`.
    let inner = rest + seq!['{', '{'] + expr + seq!['}', '}'] + after;
    assert(text =~= lead + inner);
    crate::text_laws::trimming_start_takes_off_the_lead(lead, inner);
    let t = trimmed(text);
    crate::text_laws::trimming_end_keeps_the_front(inner);
    if begins(t, "{{"@) {
        reveal_strlit("{{");
        assert(t.take(2)[0] == '{' && t.take(2)[1] == '{');
        assert(inner[0] == '{' && inner[1] == '{');
        assert(rest[0] == '{');
        assert(before[lead.len() as int] == '{');
        if rest.len() > 1 {
            assert(before[lead.len() as int + 1] == '{');
        }
        assert(false);
    }
    assert(whole_span_of(text) is None);
    if let Ok(t) = resolved(text, ctx, step) {
        assert(t.take(before.len() as int) =~= before);
    }
}

proof fn lemma_leading_blanks(s: Seq<char>) -> (r: (Seq<char>, Seq<char>))
    requires
        !blank(s),
    ensures
        s == r.0 + r.1,
        blank(r.0),
        r.1.len() > 0,
        !is_white(r.1[0]),
    decreases s.len(),
{
    if is_white(s[0]) {
        let less = s.drop_first();
        let i = choose|i: int| 0 <= i < s.len() && !is_white(#[trigger] s[i]);
        assert(less[i - 1] == s[i]);
        let (a, b) = lemma_leading_blanks(less);
        let lead = seq![s[0]] + a;
        assert(s =~= seq![s[0]] + less);
        assert(lead + b =~= seq![s[0]] + (a + b));
        assert forall|k: int| 0 <= k < lead.len() implies is_white(
            #[trigger] lead[k],
        ) by {
            if k > 0 {
                assert(is_white(a[k - 1]));
            }
        }
        (lead, b)
    } else {
        assert(s =~= Seq::<char>::empty() + s);
        (Seq::empty(), s)
    }
}

/// Whether the parts of a reference hold no dot.
pub open spec fn dotless(parts: Seq<Seq<char>>) -> bool {
    forall|i: int| 0 <= i < parts.len() ==> lacks(#[trigger] parts[i], '.')
}

/// What is found at a path, or the error that names the reference.
pub open spec fn found_at(
    v: Json,
    path: Seq<Seq<char>>,
    expr: Seq<char>,
    step: Seq<char>,
) -> Result<Json, TemplateErrorModel> {
    match dot_get_of(v, path) {
        Some(x) => Ok(x),
        None => Err(TemplateErrorModel::UnresolvableReference { reference: expr, step }),
    }
}

proof fn lemma_reference_split(root: Seq<char>, path: Seq<Seq<char>>)
    requires
        lacks(root, '.'),
        dotless(path),
    ensures
        split_on(joined(seq![root] + path, seq!['.']), '.') == seq![root] + path,
{
    let parts = seq![root] + path;
    assert forall|i: int| 0 <= i < parts.len() implies lacks(#[trigger] parts[i], '.') by {
        if i > 0 {
            assert(parts[i] == path[i - 1]);
        }
    }
    joined_pieces_split_again(parts, '.');
}

proof fn lemma_roots()
    ensures
        lacks("inputs"@, '.'),
        lacks("trigger"@, '.'),
        lacks("env"@, '.'),
        lacks("run"@, '.'),
        lacks("steps"@, '.'),
        "inputs"@ != "trigger"@,
        "inputs"@ != "env"@,
        "inputs"@ != "run"@,
        "inputs"@ != "steps"@,
        "trigger"@ != "env"@,
        "trigger"@ != "run"@,
        "trigger"@ != "steps"@,
        "env"@ != "run"@,
        "env"@ != "steps"@,
        "run"@ != "steps"@,
{
    reveal_strlit("inputs");
    reveal_strlit("trigger");
    reveal_strlit("env");
    reveal_strlit("run");
    reveal_strlit("steps");
    assert("inputs"@.len() == 6 && "trigger"@.len() == 7 && "env"@.len() == 3 && "run"@.len() == 3
        && "steps"@.len() == 5);
    assert("env"@[0] == 'e' && "run"@[0] == 'r');
}

/// A reference that begins with `inputs`, `trigger`, `env` or `run` is followed
/// by its path into that value, however long the path is.
pub proof fn reference_follows_its_path(
    path: Seq<Seq<char>>,
    ctx: ContextModel,
    step: Seq<char>,
)
    requires
        dotless(path),
    ensures
        ({
            let expr = joined(seq!["inputs"@] + path, seq!['.']);
            path_value(expr, ctx, step) == found_at(ctx.inputs, path, expr, step)
        }),
        ({
            let expr = joined(seq!["trigger"@] + path, seq!['.']);
            path_value(expr, ctx, step) == found_at(ctx.trigger, path, expr, step)
        }),
        ({
            let expr = joined(seq!["env"@] + path, seq!['.']);
            path_value(expr, ctx, step) == found_at(ctx.env, path, expr, step)
        }),
        ({
            let expr = joined(seq!["run"@] + path, seq!['.']);
            path_value(expr, ctx, step) == found_at(ctx.run, path, expr, step)
        }),
{
    lemma_roots();
    lemma_reference_split("inputs"@, path);
    lemma_reference_split("trigger"@, path);
    lemma_reference_split("env"@, path);
    lemma_reference_split("run"@, path);
    assert((seq!["inputs"@] + path).drop_first() =~= path);
    assert((seq!["trigger"@] + path).drop_first() =~= path);
    assert((seq!["env"@] + path).drop_first() =~= path);
    assert((seq!["run"@] + path).drop_first() =~= path);
}

proof fn lemma_step_fields()
    ensures
        "output"@ != "feedback"@,
        "output"@ != "approval_comment"@,
        "output"@ != "run"@,
        "feedback"@ != "approval_comment"@,
        "feedback"@ != "run"@,
        "approval_comment"@ != "run"@,
        lacks("output"@, '.'),
        lacks("feedback"@, '.'),
        lacks("approval_comment"@, '.'),
        lacks("run"@, '.'),
{
    reveal_strlit("output");
    reveal_strlit("feedback");
    reveal_strlit("approval_comment");
    reveal_strlit("run");
    assert("output"@.len() == 6 && "feedback"@.len() == 8 && "approval_comment"@.len() == 16
        && "run"@.len() == 3);
}

/// A reference to a step's output is followed by its path into that output. A
/// text has no members, and a step without an output nothing to read.
pub proof fn output_reference_follows_its_path(
    id: Seq<char>,
    path: Seq<Seq<char>>,
    ctx: ContextModel,
    step: Seq<char>,
)
    requires
        lacks(id, '.'),
        dotless(path),
    ensures
        ({
            let expr = joined(seq!["steps"@, id, "output"@] + path, seq!['.']);
            path_value(expr, ctx, step) == (match find_context(ctx.steps, id) {
                Some(context) => match context.output {
                    Some(output) => if output is Text && path.len() > 0 {
                        Err(TemplateErrorModel::UnstructuredOutput { reference: expr, step })
                    } else {
                        found_at(output, path, expr, step)
                    },
                    None => Err(TemplateErrorModel::UnresolvableReference { reference: expr, step }),
                },
                None => Err(TemplateErrorModel::UnresolvableReference { reference: expr, step }),
            })
        }),
{
    lemma_roots();
    lemma_step_fields();
    let rest = seq![id, "output"@] + path;
    assert(seq!["steps"@, id, "output"@] + path =~= seq!["steps"@] + rest);
    assert forall|i: int| 0 <= i < rest.len() implies lacks(#[trigger] rest[i], '.') by {
        if i > 1 {
            assert(rest[i] == path[i - 2]);
        }
    }
    lemma_reference_split("steps"@, rest);
    assert((seq!["steps"@] + rest).skip(3) =~= path);
}

/// A reference to what a human said about a step gives the comment or the
/// feedback, as a text.
pub proof fn remarks_of_a_step_are_read(id: Seq<char>, ctx: ContextModel, step: Seq<char>)
    requires
        lacks(id, '.'),
        find_context(ctx.steps, id) is Some,
    ensures
        ({
            let expr = joined(seq!["steps"@, id, "feedback"@], seq!['.']);
            find_context(ctx.steps, id)->Some_0.feedback matches Some(v) ==> path_value(
                expr,
                ctx,
                step,
            ) == Ok::<Json, TemplateErrorModel>(v)
        }),
        ({
            let expr = joined(seq!["steps"@, id, "approval_comment"@], seq!['.']);
            find_context(ctx.steps, id)->Some_0.approval_comment matches Some(v) ==> path_value(
                expr,
                ctx,
                step,
            ) == Ok::<Json, TemplateErrorModel>(v)
        }),
{
    lemma_roots();
    lemma_step_fields();
    let a = seq![id, "feedback"@];
    let b = seq![id, "approval_comment"@];
    assert(seq!["steps"@, id, "feedback"@] =~= seq!["steps"@] + a);
    assert(seq!["steps"@, id, "approval_comment"@] =~= seq!["steps"@] + b);
    assert(dotless(a));
    assert(dotless(b));
    lemma_reference_split("steps"@, a);
    lemma_reference_split("steps"@, b);
    assert((seq!["steps"@] + a).skip(3) =~= Seq::<Seq<char>>::empty());
    assert((seq!["steps"@] + b).skip(3) =~= Seq::<Seq<char>>::empty());
}

/// Whether some step has this id.
pub open spec fn has_step(steps: Seq<StepModel>, id: Seq<char>) -> bool {
    exists|i: int| 0 <= i < steps.len() && (#[trigger] steps[i]).id == id
}

/// Templates can read exactly the steps of the flow that ran: each one's output,
/// and what a human said about it.
pub proof fn contexts_show_the_runs(
    steps: Seq<StepModel>,
    runs: Seq<StepRunModel>,
    id: Seq<char>,
)
    ensures
        find_context(contexts_of(steps, runs), id) is Some <==> has_step(steps, id) && find_run(
            runs,
            id,
        ) is Some,
        find_context(contexts_of(steps, runs), id) matches Some(context) ==> {
            let run = find_run(runs, id)->Some_0;
            &&& context.output == run.output
            &&& context.feedback == (match run.feedback {
                Some(t) => Some(Json::Text(t)),
                None => None,
            })
            &&& context.approval_comment == (match run.approval_comment {
                Some(t) => Some(Json::Text(t)),
                None => None,
            })
        },
    decreases steps.len(),
{
    if steps.len() > 0 {
        let rest = steps.drop_last();
        let last = steps.last();
        contexts_show_the_runs(rest, runs, id);
        let before = contexts_of(rest, runs);
        if find_run(runs, last.id) is Some {
            let entry = contexts_of(steps, runs).last();
            lemma_context_of_more(before, entry, id);
        }
        assert(steps[steps.len() - 1] == last);
        if has_step(rest, id) {
            let i = choose|i: int| 0 <= i < rest.len() && (#[trigger] rest[i]).id == id;
            assert(steps[i].id == id);
        }
        if has_step(steps, id) {
            let i = choose|i: int| 0 <= i < steps.len() && (#[trigger] steps[i]).id == id;
            if i < rest.len() {
                assert(rest[i].id == id);
            }
        }
    }
}

proof fn lemma_context_of_more(
    before: Seq<(Seq<char>, StepContextModel)>,
    entry: (Seq<char>, StepContextModel),
    id: Seq<char>,
)
    ensures
        find_context(before.push(entry), id) == (match find_context(before, id) {
            Some(c) => Some(c),
            None => if entry.0 == id {
                Some(entry.1)
            } else {
                None
            },
        }),
    decreases before.len(),
{
    let all = before.push(entry);
    let rest = all.drop_first();
    assert(find_context(all, id) == (if all[0].0 == id {
        Some(all[0].1)
    } else {
        find_context(rest, id)
    }));
    if before.len() == 0 {
        assert(rest =~= Seq::<(Seq<char>, StepContextModel)>::empty());
        assert(find_context(rest, id) is None);
        assert(all[0] == entry);
    } else {
        assert(all[0] == before[0]);
        assert(rest =~= before.drop_first().push(entry));
        lemma_context_of_more(before.drop_first(), entry, id);
    }
}

/// In an array every item is resolved, at its place.
pub proof fn every_item_is_resolved(items: Seq<Json>, ctx: ContextModel, step: Seq<char>, i: int)
    requires
        0 <= i < items.len(),
    ensures
        resolved_value(Json::Array(items), ctx, step) is Ok ==> resolved_value(
            items[i],
            ctx,
            step,
        ) is Ok,
        resolved_value(Json::Array(items), ctx, step) matches Ok(v) ==> (v matches Json::Array(done)
            && done.len() == items.len() && resolved_value(items[i], ctx, step) == Ok::<
            Json,
            TemplateErrorModel,
        >(done[i])),
{
    lemma_items_resolved(items, ctx, step, i);
}

proof fn lemma_items_resolved(items: Seq<Json>, ctx: ContextModel, step: Seq<char>, i: int)
    requires
        0 <= i < items.len(),
    ensures
        resolved_items(items, ctx, step) matches Ok(done) ==> done.len() == items.len()
            && resolved_value(items[i], ctx, step) == Ok::<Json, TemplateErrorModel>(done[i]),
    decreases items.len(),
{
    let rest = items.drop_last();
    if rest.len() > 0 {
        lemma_items_resolved(rest, ctx, step, if i < rest.len() {
            i
        } else {
            0
        });
    } else {
        assert(resolved_items(rest, ctx, step) == Ok::<Seq<Json>, TemplateErrorModel>(Seq::empty()));
    }
}

/// An array is resolved where each of its items is.
pub proof fn resolvable_items_make_a_resolvable_array(
    items: Seq<Json>,
    ctx: ContextModel,
    step: Seq<char>,
)
    requires
        forall|i: int| 0 <= i < items.len() ==> resolved_value(#[trigger] items[i], ctx, step) is Ok,
    ensures
        resolved_value(Json::Array(items), ctx, step) is Ok,
{
    lemma_items_resolvable(items, ctx, step);
}

proof fn lemma_items_resolvable(items: Seq<Json>, ctx: ContextModel, step: Seq<char>)
    requires
        forall|i: int| 0 <= i < items.len() ==> resolved_value(#[trigger] items[i], ctx, step) is Ok,
    ensures
        resolved_items(items, ctx, step) is Ok,
    decreases items.len(),
{
    if items.len() > 0 {
        let rest = items.drop_last();
        assert forall|i: int| 0 <= i < rest.len() implies resolved_value(
            #[trigger] rest[i],
            ctx,
            step,
        ) is Ok by {
            assert(resolved_value(items[i], ctx, step) is Ok);
        }
        lemma_items_resolvable(rest, ctx, step);
        assert(resolved_value(items[items.len() - 1], ctx, step) is Ok);
    }
}

/// In an object the value of every entry is resolved, at its place; the keys
/// stay as they are.
pub proof fn every_entry_is_resolved(
    entries: Seq<(Seq<char>, Json)>,
    ctx: ContextModel,
    step: Seq<char>,
    i: int,
)
    requires
        0 <= i < entries.len(),
    ensures
        resolved_value(Json::Object(entries), ctx, step) matches Ok(v) ==> (
        v matches Json::Object(done) && done.len() == entries.len() && done[i].0 == entries[i].0
            && resolved_value(entries[i].1, ctx, step) == Ok::<Json, TemplateErrorModel>(done[i].1)),
{
    lemma_entries_resolved(entries, ctx, step, i);
}

proof fn lemma_entries_resolved(
    entries: Seq<(Seq<char>, Json)>,
    ctx: ContextModel,
    step: Seq<char>,
    i: int,
)
    requires
        0 <= i < entries.len(),
    ensures
        resolved_entries(entries, ctx, step) matches Ok(done) ==> done.len() == entries.len()
            && done[i].0 == entries[i].0 && resolved_value(entries[i].1, ctx, step) == Ok::<
            Json,
            TemplateErrorModel,
        >(done[i].1),
    decreases entries.len(),
{
    let rest = entries.drop_last();
    if rest.len() > 0 {
        lemma_entries_resolved(rest, ctx, step, if i < rest.len() {
            i
        } else {
            0
        });
    } else {
        assert(resolved_entries(rest, ctx, step) == Ok::<
            Seq<(Seq<char>, Json)>,
            TemplateErrorModel,
        >(Seq::empty()));
    }
}

/// A text in a value is resolved as a template; `null`, booleans and numbers
/// stay as they are.
pub proof fn texts_are_templates(
    s: Seq<char>,
    n: Seq<char>,
    b: bool,
    ctx: ContextModel,
    step: Seq<char>,
)
    ensures
        resolved_value(Json::Text(s), ctx, step) == (match resolved(s, ctx, step) {
            Ok(t) => Ok(Json::Text(t)),
            Err(e) => Err(e),
        }),
        resolved_value(Json::Null, ctx, step) == Ok::<Json, TemplateErrorModel>(Json::Null),
        resolved_value(Json::Bool(b), ctx, step) == Ok::<Json, TemplateErrorModel>(Json::Bool(b)),
        resolved_value(Json::Number(n), ctx, step) == Ok::<Json, TemplateErrorModel>(
            Json::Number(n),
        ),
{
}

/// A reference that begins with anything else, or that names a step and nothing
/// of it, cannot be resolved.
pub proof fn other_references_are_errors(
    root: Seq<char>,
    path: Seq<Seq<char>>,
    ctx: ContextModel,
    step: Seq<char>,
)
    requires
        lacks(root, '.'),
        dotless(path),
        root != "inputs"@,
        root != "trigger"@,
        root != "env"@,
        root != "run"@,
        root != "steps"@ || path.len() < 2,
    ensures
        ({
            let expr = joined(seq![root] + path, seq!['.']);
            path_value(expr, ctx, step) == Err::<Json, TemplateErrorModel>(
                TemplateErrorModel::UnresolvableReference { reference: expr, step },
            )
        }),
{
    lemma_reference_split(root, path);
}

/// Templates read the inputs and the trigger of the run and the environment that
/// they are allowed to read.
pub proof fn context_shows_the_run(
    steps: Seq<StepModel>,
    state: RunStateModel,
    env: Json,
    id: Seq<char>,
)
    ensures
        context_of(steps, state, env).inputs == state.inputs,
        context_of(steps, state, env).trigger == state.trigger,
        context_of(steps, state, env).env == env,
        find_context(context_of(steps, state, env).steps, id) is Some <==> has_step(steps, id)
            && find_run(state.steps, id) is Some,
        find_context(context_of(steps, state, env).steps, id) matches Some(context)
            ==> context.output == find_run(state.steps, id)->Some_0.output,
{
    contexts_show_the_runs(steps, state.steps, id);
}

/// Of a step that ran its output, its run and what a human said can be read, and
/// nothing else; of what a human said only the whole.
pub proof fn other_parts_of_a_step_are_errors(
    id: Seq<char>,
    field: Seq<char>,
    path: Seq<Seq<char>>,
    ctx: ContextModel,
    step: Seq<char>,
)
    requires
        lacks(id, '.'),
        lacks(field, '.'),
        dotless(path),
    ensures
        ({
            let expr = joined(seq!["steps"@, id, field] + path, seq!['.']);
            let read = path_value(expr, ctx, step);
            let nothing = Err::<Json, TemplateErrorModel>(
                TemplateErrorModel::UnresolvableReference { reference: expr, step },
            );
            let said = field == "feedback"@ || field == "approval_comment"@;
            &&& find_context(ctx.steps, id) is None ==> read == nothing
            &&& field != "output"@ && field != "run"@ && !said ==> read == nothing
            &&& said && path.len() > 0 ==> read == nothing
            &&& find_context(ctx.steps, id) matches Some(context) ==> {
                &&& field == "feedback"@ && context.feedback is None ==> read == nothing
                &&& field == "approval_comment"@ && context.approval_comment is None ==> read
                    == nothing
                &&& field == "run"@ ==> (match context.run {
                    Some(run) => read == found_at(run, path, expr, step),
                    None => read == nothing,
                })
            }
        }),
{
    lemma_roots();
    lemma_step_fields();
    let rest = seq![id, field] + path;
    assert(seq!["steps"@, id, field] + path =~= seq!["steps"@] + rest);
    assert forall|i: int| 0 <= i < rest.len() implies lacks(#[trigger] rest[i], '.') by {
        if i > 1 {
            assert(rest[i] == path[i - 2]);
        }
    }
    lemma_reference_split("steps"@, rest);
    assert((seq!["steps"@] + rest).skip(3) =~= path);
}

} // verus!
