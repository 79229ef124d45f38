//! Templates: text with `{{ .. }}` spans that refer to a run's inputs, its
//! trigger and the outputs of its steps.
use crate::copy::{lemma_push, Duplicate};
use crate::flow::validate::span_exprs;
use crate::flow::types::{FlowDefinition, StepModel};
use crate::json::{
    json_member, json_text, lemma_array_view, lemma_object_view, Json, JsonValue,
};
use crate::run::types::{find_run, RunState, RunStateModel, StepRunModel};
use crate::text::{
    begins, cat3, cat5, chars_of, find_pair, lemma_pair_at, pair_at, same_text, split, split_on,
    starts_with, string_of, trim, trimmed,
};
use vstd::prelude::*;
use vstd::slice::slice_subrange;

verus! {

broadcast use vstd::std_specs::vec::group_vec_axioms;

/// Why a template cannot be resolved.
#[derive(Debug, PartialEq)]
pub enum TemplateError {
    UnresolvableReference { reference: String, step: String },
    UnstructuredOutput { reference: String, step: String },
    Unterminated { step: String },
}

/// What a [`TemplateError`] denotes.
#[verifier::ext_equal]
pub enum TemplateErrorModel {
    UnresolvableReference { reference: Seq<char>, step: Seq<char> },
    UnstructuredOutput { reference: Seq<char>, step: Seq<char> },
    Unterminated { step: Seq<char> },
}

impl View for TemplateError {
    type V = TemplateErrorModel;

    open spec fn view(&self) -> TemplateErrorModel {
        match self {
            TemplateError::UnresolvableReference { reference, step } =>
                TemplateErrorModel::UnresolvableReference { reference: reference@, step: step@ },
            TemplateError::UnstructuredOutput { reference, step } =>
                TemplateErrorModel::UnstructuredOutput { reference: reference@, step: step@ },
            TemplateError::Unterminated { step } => TemplateErrorModel::Unterminated {
                step: step@,
            },
        }
    }
}

/// The text that describes a template error.
pub open spec fn template_error_text(e: TemplateErrorModel) -> Seq<char> {
    match e {
        TemplateErrorModel::UnresolvableReference { reference, step } =>
            "unresolvable reference '"@ + reference + "' in step '"@ + step + "'"@,
        TemplateErrorModel::UnstructuredOutput { reference, step } => "step '"@ + step
            + "' output is unstructured text; cannot resolve '"@ + reference + "' into it"@,
        TemplateErrorModel::Unterminated { step } =>
            "unterminated template expression in step '"@ + step + "': missing closing }}"@,
    }
}

impl TemplateError {
    /// The text that describes this error.
    pub fn message(&self) -> (r: String)
        ensures
            r@ == template_error_text(self@),
    {
        match self {
            TemplateError::UnresolvableReference { reference, step } => cat5(
                "unresolvable reference '",
                reference.as_str(),
                "' in step '",
                step.as_str(),
                "'",
            ),
            TemplateError::UnstructuredOutput { reference, step } => cat5(
                "step '",
                step.as_str(),
                "' output is unstructured text; cannot resolve '",
                reference.as_str(),
                "' into it",
            ),
            TemplateError::Unterminated { step } => cat3(
                "unterminated template expression in step '",
                step.as_str(),
                "': missing closing }}",
            ),
        }
    }
}

/// What templates can read of one step.
#[derive(Debug)]
pub struct StepContext {
    pub output: Option<JsonValue>,
    pub feedback: Option<JsonValue>,
    pub approval_comment: Option<JsonValue>,
    /// What is known of a subflow's run (`steps.<id>.run.*`).
    pub run: Option<JsonValue>,
}

/// What a [`StepContext`] denotes.
#[verifier::ext_equal]
pub struct StepContextModel {
    pub output: Option<Json>,
    pub feedback: Option<Json>,
    pub approval_comment: Option<Json>,
    pub run: Option<Json>,
}

impl View for StepContext {
    type V = StepContextModel;

    open spec fn view(&self) -> StepContextModel {
        StepContextModel {
            output: self.output.deep_view(),
            feedback: self.feedback.deep_view(),
            approval_comment: self.approval_comment.deep_view(),
            run: self.run.deep_view(),
        }
    }
}

impl DeepView for StepContext {
    type V = StepContextModel;

    open spec fn deep_view(&self) -> StepContextModel {
        self@
    }
}

impl Default for StepContext {
    fn default() -> (r: Self)
        ensures
            r@ == (StepContextModel {
                output: None,
                feedback: None,
                approval_comment: None,
                run: None,
            }),
    {
        StepContext { output: None, feedback: None, approval_comment: None, run: None }
    }
}

/// What templates can read.
#[derive(Debug)]
pub struct TemplateContext {
    pub inputs: JsonValue,
    pub trigger: JsonValue,
    /// The environment variables that templates are allowed to read.
    pub env: JsonValue,
    /// The steps by id; the first entry of an id counts.
    pub steps: Vec<(String, StepContext)>,
    /// What is known of the run itself (`run.id`, `run.failed_step_id`, ..).
    pub run: JsonValue,
}

/// What a [`TemplateContext`] denotes.
#[verifier::ext_equal]
pub struct ContextModel {
    pub inputs: Json,
    pub trigger: Json,
    pub env: Json,
    pub steps: Seq<(Seq<char>, StepContextModel)>,
    pub run: Json,
}

impl View for TemplateContext {
    type V = ContextModel;

    open spec fn view(&self) -> ContextModel {
        ContextModel {
            inputs: self.inputs@,
            trigger: self.trigger@,
            env: self.env@,
            steps: self.steps.deep_view(),
            run: self.run@,
        }
    }
}

impl Default for TemplateContext {
    fn default() -> (r: Self)
        ensures
            r@ == (ContextModel {
                inputs: Json::Null,
                trigger: Json::Null,
                env: Json::Null,
                steps: Seq::empty(),
                run: Json::Null,
            }),
    {
        let r = TemplateContext {
            inputs: JsonValue::Null,
            trigger: JsonValue::Null,
            env: JsonValue::Null,
            steps: Vec::new(),
            run: JsonValue::Null,
        };
        proof {
            assert(r.steps.deep_view() =~= Seq::<(Seq<char>, StepContextModel)>::empty());
        }
        r
    }
}

/// What templates can read of a step that ran.
pub open spec fn context_of_run(run: StepRunModel) -> StepContextModel {
    StepContextModel {
        output: run.output,
        feedback: match run.feedback {
            Some(t) => Some(Json::Text(t)),
            None => None,
        },
        approval_comment: match run.approval_comment {
            Some(t) => Some(Json::Text(t)),
            None => None,
        },
        run: None,
    }
}

/// The contexts of those of `steps` that ran.
pub open spec fn contexts_of(steps: Seq<StepModel>, runs: Seq<StepRunModel>) -> Seq<
    (Seq<char>, StepContextModel),
>
    decreases steps.len(),
{
    if steps.len() == 0 {
        Seq::empty()
    } else {
        match find_run(runs, steps.last().id) {
            Some(run) => contexts_of(steps.drop_last(), runs).push(
                (steps.last().id, context_of_run(run)),
            ),
            None => contexts_of(steps.drop_last(), runs),
        }
    }
}

/// What templates can read in a run.
pub open spec fn context_of(steps: Seq<StepModel>, state: RunStateModel, env: Json) -> ContextModel {
    ContextModel {
        inputs: state.inputs,
        trigger: state.trigger,
        env,
        steps: contexts_of(steps, state.steps),
        run: Json::Null,
    }
}

fn optional_text(text: &Option<String>) -> (r: Option<JsonValue>)
    ensures
        r.deep_view() == (match text.deep_view() {
            Some(t) => Some(Json::Text(t)),
            None => None,
        }),
{
    match text {
        Some(t) => Some(JsonValue::Text(t.clone())),
        None => None,
    }
}

/// Collects what templates can read from the flow and the state of the run.
/// `env` holds the environment variables that they are allowed to read.
pub fn build_context(flow: &FlowDefinition, state: &RunState, env: JsonValue) -> (r: TemplateContext)
    ensures
        r@ == context_of(flow@.steps, state@, env@),
{
    let mut steps: Vec<(String, StepContext)> = Vec::new();
    let ghost all = flow@.steps;
    let ghost runs = state@.steps;
    let mut i: usize = 0;
    proof {
        assert(steps.deep_view() =~= contexts_of(all.take(0), runs));
    }
    while i < flow.steps.len()
        invariant
            i <= flow.steps@.len(),
            all == flow@.steps,
            all == flow.steps.deep_view(),
            runs == state@.steps,
            steps.deep_view() == contexts_of(all.take(i as int), runs),
        decreases flow.steps@.len() - i,
    {
        proof {
            assert(all.take(i + 1).drop_last() =~= all.take(i as int));
            assert(all[i as int] == flow.steps@[i as int]@);
        }
        let id = flow.steps[i].id.as_str();
        match state.step(id) {
            Some(run) => {
                let ghost before = steps;
                let entry = (
                    id.to_owned(),
                    StepContext {
                        output: run.output.duplicate(),
                        feedback: optional_text(&run.feedback),
                        approval_comment: optional_text(&run.approval_comment),
                        run: None,
                    },
                );
                steps.push(entry);
                proof {
                    lemma_push(before, steps, entry);
                    assert(entry.deep_view().1 == context_of_run(run@));
                }
            },
            None => {},
        }
        i = i + 1;
    }
    proof {
        assert(all.take(i as int) =~= all);
    }
    TemplateContext {
        inputs: state.inputs.duplicate(),
        trigger: state.trigger.duplicate(),
        env,
        steps,
        run: JsonValue::Null,
    }
}

/// The first context of the step `id`.
pub open spec fn find_context(
    steps: Seq<(Seq<char>, StepContextModel)>,
    id: Seq<char>,
) -> Option<StepContextModel>
    decreases steps.len(),
{
    if steps.len() == 0 {
        None
    } else if steps[0].0 == id {
        Some(steps[0].1)
    } else {
        find_context(steps.drop_first(), id)
    }
}

fn step_context<'a>(ctx: &'a TemplateContext, id: &str) -> (r: Option<&'a StepContext>)
    ensures
        r.deep_view() == find_context(ctx@.steps, id@),
{
    let ghost all = ctx@.steps;
    let mut i: usize = 0;
    proof {
        assert(all.skip(0) =~= all);
    }
    while i < ctx.steps.len()
        invariant
            i <= ctx.steps@.len(),
            all == ctx@.steps,
            all == ctx.steps.deep_view(),
            find_context(all, id@) == find_context(all.skip(i as int), id@),
        decreases ctx.steps@.len() - i,
    {
        proof {
            assert(all.skip(i as int).drop_first() =~= all.skip(i + 1));
            assert(all[i as int] == (ctx.steps@[i as int].0@, ctx.steps@[i as int].1@));
        }
        if same_text(ctx.steps[i].0.as_str(), id) {
            return Some(&ctx.steps[i].1);
        }
        i = i + 1;
    }
    None
}

/// What stands at `path` inside `v`, member by member.
pub open spec fn dot_get_of(v: Json, path: Seq<Seq<char>>) -> Option<Json>
    decreases path.len(),
{
    if path.len() == 0 {
        Some(v)
    } else {
        match json_member(v, path[0]) {
            Some(m) => dot_get_of(m, path.drop_first()),
            None => None,
        }
    }
}

/// What a step reference that starts with `id` and `field` denotes.
pub open spec fn step_value(
    ctx: ContextModel,
    id: Seq<char>,
    field: Seq<char>,
    rest: Seq<Seq<char>>,
    expr: Seq<char>,
    step: Seq<char>,
) -> Result<Json, TemplateErrorModel> {
    let unresolvable = Err(TemplateErrorModel::UnresolvableReference { reference: expr, step });
    match find_context(ctx.steps, id) {
        None => unresolvable,
        Some(context) => if field == "output"@ {
            match context.output {
                None => unresolvable,
                Some(output) => if rest.len() > 0 && output is Text {
                    Err(TemplateErrorModel::UnstructuredOutput { reference: expr, step })
                } else {
                    found_or(dot_get_of(output, rest), expr, step)
                },
            }
        } else if field == "feedback"@ && rest.len() == 0 {
            found_or(context.feedback, expr, step)
        } else if field == "approval_comment"@ && rest.len() == 0 {
            found_or(context.approval_comment, expr, step)
        } else if field == "run"@ {
            match context.run {
                None => unresolvable,
                Some(run) => found_or(dot_get_of(run, rest), expr, step),
            }
        } else {
            unresolvable
        },
    }
}

/// What was found, or that the reference cannot be resolved.
pub open spec fn found_or(value: Option<Json>, expr: Seq<char>, step: Seq<char>) -> Result<
    Json,
    TemplateErrorModel,
> {
    match value {
        Some(v) => Ok(v),
        None => Err(TemplateErrorModel::UnresolvableReference { reference: expr, step }),
    }
}

/// What the expression of a span denotes.
pub open spec fn path_value(expr: Seq<char>, ctx: ContextModel, step: Seq<char>) -> Result<
    Json,
    TemplateErrorModel,
> {
    let parts = split_on(expr, '.');
    let rest = parts.drop_first();
    if parts[0] == "inputs"@ {
        found_or(dot_get_of(ctx.inputs, rest), expr, step)
    } else if parts[0] == "trigger"@ {
        found_or(dot_get_of(ctx.trigger, rest), expr, step)
    } else if parts[0] == "env"@ {
        found_or(dot_get_of(ctx.env, rest), expr, step)
    } else if parts[0] == "run"@ {
        found_or(dot_get_of(ctx.run, rest), expr, step)
    } else if parts[0] == "steps"@ && parts.len() >= 3 {
        step_value(ctx, parts[1], parts[2], parts.skip(3), expr, step)
    } else {
        Err(TemplateErrorModel::UnresolvableReference { reference: expr, step })
    }
}

/// How a value is written into the text: a text as it is, anything else as
/// JSON.
pub open spec fn rendered(v: Json) -> Seq<char> {
    match v {
        Json::Text(s) => s,
        other => json_text(other),
    }
}

/// The expression of a template that is a single span with nothing but white
/// space around it.
pub open spec fn whole_span_of(text: Seq<char>) -> Option<Seq<char>> {
    let t = trimmed(text);
    if begins(t, "{{"@) && t.len() >= 4 && t[t.len() - 2] == '}' && t[t.len() - 1] == '}' {
        let inner = t.subrange(2, t.len() - 2);
        if pair_at(inner, '{', '{') is Some || pair_at(inner, '}', '}') is Some {
            None
        } else {
            Some(trimmed(inner))
        }
    } else {
        None
    }
}

/// A template with each of its spans replaced, the first failure counting.
pub open spec fn spans_resolved(text: Seq<char>, ctx: ContextModel, step: Seq<char>) -> Result<
    Seq<char>,
    TemplateErrorModel,
>
    decreases text.len(),
{
    match pair_at(text, '{', '{') {
        None => Ok(text),
        Some(start) => {
            let after = text.skip(start + 2);
            match pair_at(after, '}', '}') {
                None => Err(TemplateErrorModel::Unterminated { step }),
                Some(end) => {
                    proof {
                        lemma_pair_at(text, '{', '{');
                        lemma_pair_at(after, '}', '}');
                    }
                    match path_value(trimmed(after.take(end)), ctx, step) {
                        Err(e) => Err(e),
                        Ok(v) => match spans_resolved(after.skip(end + 2), ctx, step) {
                            Err(e) => Err(e),
                            Ok(rest) => Ok(text.take(start) + rendered(v) + rest),
                        },
                    }
                },
            }
        },
    }
}

/// A resolved template. One that is a single span loses the white space
/// around the span.
pub open spec fn resolved(text: Seq<char>, ctx: ContextModel, step: Seq<char>) -> Result<
    Seq<char>,
    TemplateErrorModel,
> {
    match whole_span_of(text) {
        Some(expr) => match path_value(expr, ctx, step) {
            Ok(v) => Ok(rendered(v)),
            Err(e) => Err(e),
        },
        None => spans_resolved(text, ctx, step),
    }
}

/// A JSON value with every text in it resolved; keys stay as they are.
pub open spec fn resolved_value(v: Json, ctx: ContextModel, step: Seq<char>) -> Result<
    Json,
    TemplateErrorModel,
>
    decreases v,
{
    match v {
        Json::Text(s) => match resolved(s, ctx, step) {
            Ok(t) => Ok(Json::Text(t)),
            Err(e) => Err(e),
        },
        Json::Array(items) => match resolved_items(items, ctx, step) {
            Ok(done) => Ok(Json::Array(done)),
            Err(e) => Err(e),
        },
        Json::Object(entries) => match resolved_entries(entries, ctx, step) {
            Ok(done) => Ok(Json::Object(done)),
            Err(e) => Err(e),
        },
        other => Ok(other),
    }
}

/// The items of an array, each resolved, the first failure counting.
pub open spec fn resolved_items(items: Seq<Json>, ctx: ContextModel, step: Seq<char>) -> Result<
    Seq<Json>,
    TemplateErrorModel,
>
    decreases items,
{
    if items.len() == 0 {
        Ok(Seq::empty())
    } else {
        match resolved_items(items.drop_last(), ctx, step) {
            Err(e) => Err(e),
            Ok(done) => match resolved_value(items.last(), ctx, step) {
                Err(e) => Err(e),
                Ok(v) => Ok(done.push(v)),
            },
        }
    }
}

/// The entries of an object, each value resolved, the first failure counting.
pub open spec fn resolved_entries(
    entries: Seq<(Seq<char>, Json)>,
    ctx: ContextModel,
    step: Seq<char>,
) -> Result<Seq<(Seq<char>, Json)>, TemplateErrorModel>
    decreases entries,
{
    if entries.len() == 0 {
        Ok(Seq::empty())
    } else {
        match resolved_entries(entries.drop_last(), ctx, step) {
            Err(e) => Err(e),
            Ok(done) => match resolved_value(entries.last().1, ctx, step) {
                Err(e) => Err(e),
                Ok(v) => Ok(done.push((entries.last().0, v))),
            },
        }
    }
}

/// What a result of resolving denotes.
pub open spec fn outcome<T: DeepView>(r: Result<T, TemplateError>) -> Result<
    T::V,
    TemplateErrorModel,
> {
    match r {
        Ok(x) => Ok(x.deep_view()),
        Err(e) => Err(e@),
    }
}

fn dot_get<'a>(value: &'a JsonValue, path: &Vec<String>, from: usize) -> (r: Option<&'a JsonValue>)
    requires
        from <= path@.len(),
    ensures
        r.deep_view() == dot_get_of(value@, path.deep_view().skip(from as int)),
{
    let ghost all = path.deep_view();
    let mut current = value;
    let mut i: usize = from;
    while i < path.len()
        invariant
            from <= i <= path@.len(),
            all == path.deep_view(),
            dot_get_of(value@, all.skip(from as int)) == dot_get_of(current@, all.skip(i as int)),
        decreases path@.len() - i,
    {
        proof {
            assert(all.skip(i as int).drop_first() =~= all.skip(i + 1));
            assert(all.skip(i as int)[0] == path@[i as int]@);
        }
        match current.get(path[i].as_str()) {
            Some(next) => {
                current = next;
            },
            None => {
                return None;
            },
        }
        i = i + 1;
    }
    Some(current)
}

fn unresolvable(expr: &str, step: &str) -> (r: TemplateError)
    ensures
        r@ == (TemplateErrorModel::UnresolvableReference { reference: expr@, step: step@ }),
{
    TemplateError::UnresolvableReference { reference: expr.to_owned(), step: step.to_owned() }
}

fn copy_or(value: Option<&JsonValue>, expr: &str, step: &str) -> (r: Result<JsonValue, TemplateError>)
    ensures
        outcome(r) == found_or(value.deep_view(), expr@, step@),
{
    match value {
        Some(v) => Ok(v.duplicate()),
        None => Err(unresolvable(expr, step)),
    }
}

fn resolve_step(ctx: &TemplateContext, parts: &Vec<String>, expr: &str, step: &str) -> (r: Result<
    JsonValue,
    TemplateError,
>)
    requires
        parts@.len() >= 3,
    ensures
        outcome(r) == step_value(
            ctx@,
            parts.deep_view()[1],
            parts.deep_view()[2],
            parts.deep_view().skip(3),
            expr@,
            step@,
        ),
{
    let context = match step_context(ctx, parts[1].as_str()) {
        Some(c) => c,
        None => {
            return Err(unresolvable(expr, step));
        },
    };
    let field = parts[2].as_str();
    let more = parts.len() > 3;
    proof {
        assert(parts.deep_view()[1] == parts@[1]@);
        assert(parts.deep_view()[2] == parts@[2]@);
        reveal_strlit("output");
        reveal_strlit("feedback");
        reveal_strlit("approval_comment");
        reveal_strlit("run");
    }
    if same_text(field, "output") {
        match &context.output {
            Some(output) => match output {
                JsonValue::Text(_) => if more {
                    Err(
                        TemplateError::UnstructuredOutput {
                            reference: expr.to_owned(),
                            step: step.to_owned(),
                        },
                    )
                } else {
                    copy_or(dot_get(output, parts, 3), expr, step)
                },
                _ => copy_or(dot_get(output, parts, 3), expr, step),
            },
            None => Err(unresolvable(expr, step)),
        }
    } else if same_text(field, "feedback") && !more {
        copy_or(context.feedback.as_ref(), expr, step)
    } else if same_text(field, "approval_comment") && !more {
        copy_or(context.approval_comment.as_ref(), expr, step)
    } else if same_text(field, "run") {
        match &context.run {
            Some(run) => copy_or(dot_get(run, parts, 3), expr, step),
            None => Err(unresolvable(expr, step)),
        }
    } else {
        Err(unresolvable(expr, step))
    }
}

/// Looks up what the expression of a span refers to.
pub fn resolve_path(expr: &str, ctx: &TemplateContext, step: &str) -> (r: Result<
    JsonValue,
    TemplateError,
>)
    ensures
        outcome(r) == path_value(expr@, ctx@, step@),
{
    let chars = chars_of(expr);
    let parts = split(chars.as_slice(), '.');
    let ghost all = parts.deep_view();
    let head = parts[0].as_str();
    proof {
        assert(all[0] == head@);
        assert(all.drop_first() =~= all.skip(1));
    }
    if same_text(head, "inputs") {
        copy_or(dot_get(&ctx.inputs, &parts, 1), expr, step)
    } else if same_text(head, "trigger") {
        copy_or(dot_get(&ctx.trigger, &parts, 1), expr, step)
    } else if same_text(head, "env") {
        copy_or(dot_get(&ctx.env, &parts, 1), expr, step)
    } else if same_text(head, "run") {
        copy_or(dot_get(&ctx.run, &parts, 1), expr, step)
    } else if same_text(head, "steps") && parts.len() >= 3 {
        resolve_step(ctx, &parts, expr, step)
    } else {
        Err(unresolvable(expr, step))
    }
}

/// Writes a value as text: a text as it is, anything else as JSON.
pub fn render_value(value: &JsonValue) -> (r: String)
    ensures
        r@ == rendered(value@),
{
    match value {
        JsonValue::Text(s) => s.clone(),
        other => other.to_text(),
    }
}

/// The expression of a template that is a single span.
pub fn whole_span(text: &str) -> (r: Option<String>)
    ensures
        r.deep_view() == whole_span_of(text@),
{
    let chars = chars_of(text);
    let t = trim(chars.as_slice());
    let open = chars_of("{{");
    proof {
        reveal_strlit("{{");
    }
    if !starts_with(t, open.as_slice()) || t.len() < 4 || t[t.len() - 2] != '}' || t[t.len() - 1]
        != '}' {
        return None;
    }
    let inner = slice_subrange(t, 2, t.len() - 2);
    if find_pair(inner, '{', '{').is_some() || find_pair(inner, '}', '}').is_some() {
        return None;
    }
    Some(string_of(trim(inner)))
}

/// Resolves every span of `text`. `step` names the step in error messages.
/// Every span is resolved or the whole call fails: no span is passed through.
pub fn resolve(text: &str, ctx: &TemplateContext, step: &str) -> (r: Result<String, TemplateError>)
    ensures
        outcome(r) == resolved(text@, ctx@, step@),
{
    match whole_span(text) {
        Some(expr) => {
            return match resolve_path(expr.as_str(), ctx, step) {
                Ok(v) => Ok(render_value(&v)),
                Err(e) => Err(e),
            };
        },
        None => {},
    }
    let chars = chars_of(text);
    let all = chars.as_slice();
    let mut out = String::new();
    let mut from: usize = 0;
    proof {
        assert(all@.skip(0) =~= all@);
        match spans_resolved(all@, ctx@, step@) {
            Ok(rest) => {
                assert(out@ + rest =~= rest);
            },
            Err(_) => {},
        }
    }
    loop
        invariant
            from <= all@.len(),
            all@ == text@,
            whole_span_of(text@) is None,
            resolved(text@, ctx@, step@) == (match spans_resolved(
                all@.skip(from as int),
                ctx@,
                step@,
            ) {
                Ok(rest) => Ok(out@ + rest),
                Err(e) => Err(e),
            }),
        decreases all@.len() - from,
    {
        let rest = slice_subrange(all, from, all.len());
        proof {
            assert(rest@ =~= all@.skip(from as int));
            lemma_pair_at(rest@, '{', '{');
        }
        match find_pair(rest, '{', '{') {
            None => {
                let tail = string_of(rest);
                out.append(tail.as_str());
                return Ok(out);
            },
            Some(start) => {
                let literal = string_of(slice_subrange(rest, 0, start));
                let after = slice_subrange(rest, start + 2, rest.len());
                proof {
                    assert(literal@ =~= rest@.take(start as int));
                    assert(after@ =~= rest@.skip(start + 2));
                    lemma_pair_at(after@, '}', '}');
                }
                match find_pair(after, '}', '}') {
                    None => {
                        return Err(TemplateError::Unterminated { step: step.to_owned() });
                    },
                    Some(end) => {
                        let inner = slice_subrange(after, 0, end);
                        let expr = string_of(trim(inner));
                        proof {
                            assert(inner@ =~= after@.take(end as int));
                        }
                        match resolve_path(expr.as_str(), ctx, step) {
                            Err(e) => {
                                return Err(e);
                            },
                            Ok(v) => {
                                let ghost before = out@;
                                let shown = render_value(&v);
                                out.append(literal.as_str());
                                out.append(shown.as_str());
                                proof {
                                    assert(after@.skip(end + 2) =~= all@.skip(
                                        from + start + 2 + end + 2,
                                    ));
                                    match spans_resolved(after@.skip(end + 2), ctx@, step@) {
                                        Ok(tail) => {
                                            assert(before + (literal@ + shown@ + tail) =~= out@
                                                + tail);
                                        },
                                        Err(_) => {},
                                    }
                                }
                                from = from + start + 2 + end + 2;
                            },
                        }
                    },
                }
            },
        }
    }
}

/// Resolves every text inside a JSON value. Keys stay as they are.
pub fn resolve_value(value: &JsonValue, ctx: &TemplateContext, step: &str) -> (r: Result<
    JsonValue,
    TemplateError,
>)
    ensures
        outcome(r) == resolved_value(value@, ctx@, step@),
    decreases value,
{
    match value {
        JsonValue::Text(s) => match resolve(s.as_str(), ctx, step) {
            Ok(t) => Ok(JsonValue::Text(t)),
            Err(e) => Err(e),
        },
        JsonValue::Array(items) => {
            let mut out: Vec<JsonValue> = Vec::new();
            let ghost all = items.deep_view();
            let mut i: usize = 0;
            proof {
                lemma_array_view(*items);
                assert(out.deep_view() =~= Seq::<Json>::empty());
                assert(all.take(0) =~= Seq::<Json>::empty());
            }
            while i < items.len()
                invariant
                    i <= items@.len(),
                    value is Array && value->Array_0 == *items,
                    all == items.deep_view(),
                    value@ == Json::Array(all),
                    resolved_items(all.take(i as int), ctx@, step@) == Ok::<
                        Seq<Json>,
                        TemplateErrorModel,
                    >(out.deep_view()),
                decreases items@.len() - i,
            {
                proof {
                    assert(decreases_to!(*value => value->Array_0));
                    assert(decreases_to!(*items => items@[i as int]));
                    assert(all.take(i + 1).drop_last() =~= all.take(i as int));
                    assert(all[i as int] == items@[i as int]@);
                }
                match resolve_value(&items[i], ctx, step) {
                    Ok(v) => {
                        let ghost before = out;
                        out.push(v);
                        proof {
                            lemma_push(before, out, v);
                        }
                    },
                    Err(e) => {
                        proof {
                            lemma_items_fail(all, ctx@, step@, i + 1);
                        }
                        return Err(e);
                    },
                }
                i = i + 1;
            }
            proof {
                assert(all.take(i as int) =~= all);
                lemma_array_view(out);
            }
            Ok(JsonValue::Array(out))
        },
        JsonValue::Object(entries) => {
            let mut out: Vec<(String, JsonValue)> = Vec::new();
            let ghost all = entries.deep_view();
            let mut i: usize = 0;
            proof {
                lemma_object_view(*entries);
                assert(out.deep_view() =~= Seq::<(Seq<char>, Json)>::empty());
                assert(all.take(0) =~= Seq::<(Seq<char>, Json)>::empty());
            }
            while i < entries.len()
                invariant
                    i <= entries@.len(),
                    value is Object && value->Object_0 == *entries,
                    all == entries.deep_view(),
                    value@ == Json::Object(all),
                    resolved_entries(all.take(i as int), ctx@, step@) == Ok::<
                        Seq<(Seq<char>, Json)>,
                        TemplateErrorModel,
                    >(out.deep_view()),
                decreases entries@.len() - i,
            {
                proof {
                    assert(decreases_to!(*value => value->Object_0));
                    assert(decreases_to!(*entries => entries@[i as int]));
                    assert(all.take(i + 1).drop_last() =~= all.take(i as int));
                    assert(all[i as int] == (entries@[i as int].0@, entries@[i as int].1@));
                }
                match resolve_value(&entries[i].1, ctx, step) {
                    Ok(v) => {
                        let ghost before = out;
                        let entry = (entries[i].0.clone(), v);
                        out.push(entry);
                        proof {
                            lemma_push(before, out, entry);
                        }
                    },
                    Err(e) => {
                        proof {
                            lemma_entries_fail(all, ctx@, step@, i + 1);
                        }
                        return Err(e);
                    },
                }
                i = i + 1;
            }
            proof {
                assert(all.take(i as int) =~= all);
                lemma_object_view(out);
            }
            Ok(JsonValue::Object(out))
        },
        other => Ok(other.duplicate()),
    }
}

proof fn lemma_items_fail(items: Seq<Json>, ctx: ContextModel, step: Seq<char>, i: int)
    requires
        0 <= i <= items.len(),
        resolved_items(items.take(i), ctx, step) is Err,
    ensures
        resolved_items(items, ctx, step) == resolved_items(items.take(i), ctx, step),
    decreases items.len() - i,
{
    if i < items.len() {
        assert(items.take(i + 1).drop_last() =~= items.take(i));
        lemma_items_fail(items, ctx, step, i + 1);
    } else {
        assert(items.take(i) =~= items);
    }
}

proof fn lemma_entries_fail(
    entries: Seq<(Seq<char>, Json)>,
    ctx: ContextModel,
    step: Seq<char>,
    i: int,
)
    requires
        0 <= i <= entries.len(),
        resolved_entries(entries.take(i), ctx, step) is Err,
    ensures
        resolved_entries(entries, ctx, step) == resolved_entries(entries.take(i), ctx, step),
    decreases entries.len() - i,
{
    if i < entries.len() {
        assert(entries.take(i + 1).drop_last() =~= entries.take(i));
        lemma_entries_fail(entries, ctx, step, i + 1);
    } else {
        assert(entries.take(i) =~= entries);
    }
}

/// A text without a `{{` is passed through as it is.
pub proof fn plain_text_passes_through(text: Seq<char>, ctx: ContextModel, step: Seq<char>)
    requires
        pair_at(text, '{', '{') is None,
    ensures
        resolved(text, ctx, step) == Ok::<Seq<char>, TemplateErrorModel>(text),
{
    if whole_span_of(text) is Some {
        lemma_trim_keeps_pairs(text);
    }
}

/// Whether every span of a template is closed.
pub open spec fn spans_closed(text: Seq<char>) -> bool
    decreases text.len(),
{
    match pair_at(text, '{', '{') {
        None => true,
        Some(start) => {
            let after = text.skip(start + 2);
            match pair_at(after, '}', '}') {
                None => false,
                Some(end) => {
                    proof {
                        lemma_pair_at(text, '{', '{');
                        lemma_pair_at(after, '}', '}');
                    }
                    spans_closed(after.skip(end + 2))
                },
            }
        },
    }
}

proof fn lemma_spans(text: Seq<char>, ctx: ContextModel, step: Seq<char>)
    ensures
        spans_resolved(text, ctx, step) is Ok <==> spans_closed(text) && forall|i: int|
            0 <= i < span_exprs(text).len() ==> path_value(
                #[trigger] span_exprs(text)[i],
                ctx,
                step,
            ) is Ok,
    decreases text.len(),
{
    if let Some(start) = pair_at(text, '{', '{') {
        let after = text.skip(start + 2);
        lemma_pair_at(text, '{', '{');
        if let Some(end) = pair_at(after, '}', '}') {
            lemma_pair_at(after, '}', '}');
            let first = trimmed(after.take(end));
            let rest = after.skip(end + 2);
            lemma_spans(rest, ctx, step);
            let all = span_exprs(text);
            let later = span_exprs(rest);
            assert(all =~= seq![first] + later);
            assert(all[0] == first);
            if forall|i: int|
                0 <= i < all.len() ==> path_value(#[trigger] all[i], ctx, step) is Ok {
                assert forall|i: int| 0 <= i < later.len() implies path_value(
                    #[trigger] later[i],
                    ctx,
                    step,
                ) is Ok by {
                    assert(all[i + 1] == later[i]);
                }
            }
            if path_value(first, ctx, step) is Ok && forall|i: int|
                0 <= i < later.len() ==> path_value(#[trigger] later[i], ctx, step) is Ok {
                assert forall|i: int| 0 <= i < all.len() implies path_value(
                    #[trigger] all[i],
                    ctx,
                    step,
                ) is Ok by {
                    if i > 0 {
                        assert(all[i] == later[i - 1]);
                    }
                }
            }
        }
    }
}

/// Resolution is total: a template resolves exactly where every span in it is
/// closed and resolves; one that is a single span, where that span does.
pub proof fn resolution_is_total(text: Seq<char>, ctx: ContextModel, step: Seq<char>)
    ensures
        resolved(text, ctx, step) is Ok <==> match whole_span_of(text) {
            Some(expr) => path_value(expr, ctx, step) is Ok,
            None => spans_closed(text) && forall|i: int|
                0 <= i < span_exprs(text).len() ==> path_value(
                    #[trigger] span_exprs(text)[i],
                    ctx,
                    step,
                ) is Ok,
        },
{
    lemma_spans(text, ctx, step);
}

/// Trimming brings no pair of characters together.
proof fn lemma_trim_keeps_pairs(text: Seq<char>)
    ensures
        begins(trimmed(text), "{{"@) ==> pair_at(text, '{', '{') is Some,
{
    if begins(trimmed(text), "{{"@) {
        reveal_strlit("{{");
        let (a, b) = lemma_trimmed_range(text);
        let t = trimmed(text);
        assert(t.take(2)[0] == t[0] && t.take(2)[1] == t[1]);
        assert(text[a] == '{' && text[a + 1] == '{');
        lemma_pair_found(text, '{', '{', a);
    }
}

proof fn lemma_trimmed_range(s: Seq<char>) -> (r: (int, int))
    ensures
        0 <= r.0 <= r.1 <= s.len(),
        trimmed(s) == s.subrange(r.0, r.1),
    decreases s.len(),
{
    if s.len() > 0 && crate::text::is_white(s[0]) {
        let r = lemma_trimmed_range(s.drop_first());
        assert(s.drop_first().subrange(r.0, r.1) =~= s.subrange(r.0 + 1, r.1 + 1));
        (r.0 + 1, r.1 + 1)
    } else {
        let b = lemma_trim_end_range(s);
        (0, b)
    }
}

proof fn lemma_trim_end_range(s: Seq<char>) -> (b: int)
    ensures
        0 <= b <= s.len(),
        crate::text::trim_end(s) == s.subrange(0, b),
    decreases s.len(),
{
    if s.len() > 0 && crate::text::is_white(s.last()) {
        let b = lemma_trim_end_range(s.drop_last());
        assert(s.drop_last().subrange(0, b) =~= s.subrange(0, b));
        b
    } else {
        assert(s.subrange(0, s.len() as int) =~= s);
        s.len() as int
    }
}

proof fn lemma_pair_found(s: Seq<char>, a: char, b: char, i: int)
    requires
        0 <= i,
        i + 1 < s.len(),
        s[i] == a,
        s[i + 1] == b,
    ensures
        pair_at(s, a, b) is Some,
    decreases i,
{
    if i > 0 && !(s[0] == a && s[1] == b) {
        lemma_pair_found(s.drop_first(), a, b, i - 1);
    }
}

} // verus!
