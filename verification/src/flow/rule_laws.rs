//! What validation promises: laws of the routing graph, of references between
//! steps and of what is reported.
use crate::graph::{is_cycle, leads_to, lemma_sorted_names, successors};
use crate::text::{begins, split_on};
use crate::text_laws::{first_piece_is_split_off, lacks, text_without_separator_is_one_piece};
use super::dag::{
    edges_of, entries_of, first_occurrences, graph_of, ids_of, incoming_of, lemma_find_step_ids,
    routes_of, sources_of, targets_from, targets_of, unfed,
};
use super::laws::{
    edges_are_routes, keeps, routes_to, rule_is_kept_without_violation, sources_are_edge_sources,
    valid_flows_are_sound,
};
use super::schema::{
    duration_of, field_violations, step_field_violations, steps_field_violations, valid_id,
    ViolationModel,
};
use super::types::{find_step, step_kind, DONE, FlowModel, StepModel, StepWithModel};
use super::validate::{
    cycle_violations, duplicate_ids, entry_violations, existing, field_references, is_guaranteed,
    join_violations, paths_among, paths_in, predecessor_graph, predecessors, rule_violations,
    sibling_references, span_exprs, step_path, step_rule, templates_of, unfounded_needs,
    unknown_needs, unknown_targets, violations_of, StepRule,
};
use vstd::prelude::*;

verus! {

/// Whether a route lists a target.
pub open spec fn lists(route: Option<Seq<Seq<char>>>, target: Seq<char>) -> bool {
    route matches Some(targets) && targets.contains(target)
}

/// Whether a step leads on to `target`: one of its routes lists it, it does not
/// end the run, and it is not the step itself that starts again after a
/// rejection. Where only forward progress counts, `on_failure` is left out.
pub open spec fn leads_on(step: StepModel, forward: bool, target: Seq<char>) -> bool {
    &&& target != DONE@
    &&& lists(step.on_success, target) || lists(step.on_approve, target) || lists(
        step.on_reject,
        target,
    ) || (!forward && lists(step.on_failure, target))
    &&& !(target == step.id && step.on_reject == Some(seq![step.id]))
}

/// Whether some step of this id leads on to `target`.
pub open spec fn some_leads_on(
    steps: Seq<StepModel>,
    forward: bool,
    source: Seq<char>,
    target: Seq<char>,
) -> bool {
    exists|i: int|
        0 <= i < steps.len() && (#[trigger] steps[i]).id == source && leads_on(
            steps[i],
            forward,
            target,
        )
}

proof fn lemma_routes_of(step: StepModel, forward: bool, target: Seq<char>)
    ensures
        routes_of(step, forward).contains(target) <==> lists(step.on_success, target) || lists(
            step.on_approve,
            target,
        ) || lists(step.on_reject, target) || (!forward && lists(step.on_failure, target)),
{
    let a = targets_of(step.on_success);
    let b = targets_of(step.on_failure);
    let c = targets_of(step.on_approve);
    let d = targets_of(step.on_reject);
    if forward {
        lemma_in_sum(a, c, target);
        lemma_in_sum(a + c, d, target);
    } else {
        lemma_in_sum(a, b, target);
        lemma_in_sum(a + b, c, target);
        lemma_in_sum(a + b + c, d, target);
    }
}

proof fn lemma_in_sum<A>(a: Seq<A>, b: Seq<A>, x: A)
    ensures
        (a + b).contains(x) <==> a.contains(x) || b.contains(x),
{
    let all = a + b;
    if a.contains(x) {
        let i = choose|i: int| 0 <= i < a.len() && a[i] == x;
        assert(all[i] == x);
    }
    if b.contains(x) {
        let i = choose|i: int| 0 <= i < b.len() && b[i] == x;
        assert(all[i + a.len()] == x);
    }
    if all.contains(x) {
        let i = choose|i: int| 0 <= i < all.len() && all[i] == x;
        if i < a.len() {
            assert(a[i] == x);
        } else {
            assert(b[i - a.len()] == x);
        }
    }
}

proof fn lemma_routes_to(
    steps: Seq<StepModel>,
    forward: bool,
    source: Seq<char>,
    target: Seq<char>,
)
    ensures
        routes_to(steps, forward, source, target) <==> some_leads_on(
            steps,
            forward,
            source,
            target,
        ),
{
    assert forall|i: int| 0 <= i < steps.len() implies (routes_of(
        #[trigger] steps[i],
        forward,
    ).contains(target) <==> lists(steps[i].on_success, target) || lists(
        steps[i].on_approve,
        target,
    ) || lists(steps[i].on_reject, target) || (!forward && lists(
        steps[i].on_failure,
        target,
    ))) by {
        lemma_routes_of(steps[i], forward, target);
    }
    if routes_to(steps, forward, source, target) {
        let i = choose|i: int|
            0 <= i < steps.len() && (#[trigger] steps[i]).id == source && routes_of(
                steps[i],
                forward,
            ).contains(target) && super::dag::is_edge(steps[i], target);
        assert(leads_on(steps[i], forward, target));
    }
    if some_leads_on(steps, forward, source, target) {
        let i = choose|i: int|
            0 <= i < steps.len() && (#[trigger] steps[i]).id == source && leads_on(
                steps[i],
                forward,
                target,
            );
        assert(routes_of(steps[i], forward).contains(target));
    }
}

/// The edges of the routing graph are exactly the ways on that the steps list.
pub proof fn edges_are_the_ways_on(
    steps: Seq<StepModel>,
    forward: bool,
    source: Seq<char>,
    target: Seq<char>,
)
    ensures
        edges_of(steps, forward).contains((target, source)) <==> some_leads_on(
            steps,
            forward,
            source,
            target,
        ),
        sources_of(edges_of(steps, forward), target).contains(source) <==> some_leads_on(
            steps,
            forward,
            source,
            target,
        ),
{
    edges_are_routes(steps, forward, source, target);
    lemma_routes_to(steps, forward, source, target);
    sources_are_edge_sources(edges_of(steps, forward), target, source);
}

proof fn lemma_targets_from(
    edges: Seq<(Seq<char>, Seq<char>)>,
    source: Seq<char>,
    target: Seq<char>,
)
    ensures
        targets_from(edges, source).contains(target) <==> edges.contains((target, source)),
    decreases edges.len(),
{
    let all = targets_from(edges, source);
    if edges.len() > 0 {
        let rest = edges.drop_last();
        let last = edges.last();
        let before = targets_from(rest, source);
        lemma_targets_from(rest, source, target);
        assert(edges =~= rest.push(last));
        lemma_in_sum(rest, seq![last], (target, source));
        assert(rest + seq![last] =~= edges);
        assert(seq![last].contains((target, source)) <==> last == (target, source)) by {
            assert(seq![last][0] == last);
        }
        if last.1 == source {
            lemma_in_sum(before, seq![last.0], target);
            assert(before + seq![last.0] =~= all);
            assert(seq![last.0].contains(target) <==> last.0 == target) by {
                assert(seq![last.0][0] == last.0);
            }
        }
    }
}

proof fn lemma_once(names: Seq<Seq<char>>, x: Seq<char>)
    ensures
        first_occurrences(names).contains(x) <==> names.contains(x),
        first_occurrences(names).no_duplicates(),
    decreases names.len(),
{
    if names.len() > 0 {
        let rest = names.drop_last();
        let last = names.last();
        let before = first_occurrences(rest);
        lemma_once(rest, x);
        lemma_in_sum(rest, seq![last], x);
        assert(rest + seq![last] =~= names);
        assert(seq![last].contains(x) <==> last == x) by {
            assert(seq![last][0] == last);
        }
        if before.contains(last) {
            lemma_once(rest, last);
        } else {
            lemma_in_sum(before, seq![last], x);
            assert(before + seq![last] =~= first_occurrences(names));
        }
    }
}

proof fn lemma_first_entry(ids: Seq<Seq<char>>, g: Seq<(Seq<char>, Seq<Seq<char>>)>, x: Seq<char>, i: int)
    requires
        g.len() == ids.len(),
        ids.no_duplicates(),
        forall|k: int| 0 <= k < g.len() ==> (#[trigger] g[k]).0 == ids[k],
        0 <= i < ids.len(),
        ids[i] == x,
    ensures
        successors(g, x) == g[i].1,
    decreases g.len(),
{
    if i > 0 {
        let less = g.drop_first();
        let fewer = ids.drop_first();
        assert(g[0].0 == ids[0]);
        assert forall|k: int| 0 <= k < less.len() implies (#[trigger] less[k]).0 == fewer[k] by {
            assert(g[k + 1].0 == ids[k + 1]);
        }
        lemma_first_entry(fewer, less, x, i - 1);
    }
}

proof fn lemma_no_entry(ids: Seq<Seq<char>>, g: Seq<(Seq<char>, Seq<Seq<char>>)>, x: Seq<char>)
    requires
        g.len() == ids.len(),
        forall|k: int| 0 <= k < g.len() ==> (#[trigger] g[k]).0 == ids[k],
        !ids.contains(x),
    ensures
        successors(g, x).len() == 0,
    decreases g.len(),
{
    if g.len() > 0 {
        let less = g.drop_first();
        let fewer = ids.drop_first();
        assert(g[0].0 == ids[0]);
        assert forall|k: int| 0 <= k < less.len() implies (#[trigger] less[k]).0 == fewer[k] by {
            assert(g[k + 1].0 == ids[k + 1]);
        }
        if fewer.contains(x) {
            let k = choose|k: int| 0 <= k < fewer.len() && fewer[k] == x;
            assert(ids[k + 1] == x);
        }
        lemma_no_entry(fewer, less, x);
    }
}

/// In the routing graph a step is followed by exactly the steps that it leads
/// on to.
pub proof fn graph_shows_the_ways_on(
    steps: Seq<StepModel>,
    forward: bool,
    source: Seq<char>,
    target: Seq<char>,
)
    ensures
        successors(graph_of(steps, forward), source).contains(target) <==> some_leads_on(
            steps,
            forward,
            source,
            target,
        ),
{
    let g = graph_of(steps, forward);
    let ids = first_occurrences(ids_of(steps));
    let edges = edges_of(steps, forward);
    lemma_once(ids_of(steps), source);
    edges_are_the_ways_on(steps, forward, source, target);
    assert forall|k: int| 0 <= k < g.len() implies (#[trigger] g[k]).0 == ids[k] by {}
    if ids.contains(source) {
        let i = choose|i: int| 0 <= i < ids.len() && ids[i] == source;
        lemma_first_entry(ids, g, source, i);
        lemma_targets_from(edges, source, target);
        lemma_sorted_names(targets_from(edges, source));
    } else {
        lemma_no_entry(ids, g, source);
        if some_leads_on(steps, forward, source, target) {
            let i = choose|i: int|
                0 <= i < steps.len() && (#[trigger] steps[i]).id == source && leads_on(
                    steps[i],
                    forward,
                    target,
                );
            assert(ids_of(steps)[i] == source);
        }
    }
}

/// A way round: steps of which each leads on to the next, and the last is the
/// first.
pub open spec fn way_round(steps: Seq<StepModel>, c: Seq<Seq<char>>) -> bool {
    &&& c.len() >= 2
    &&& c[0] == c.last()
    &&& forall|i: int| 0 <= i < c.len() - 1 ==> some_leads_on(steps, true, #[trigger] c[i], c[i + 1])
}

/// A flow without violations has no way round among its forward routes, and a
/// flow that has one is reported.
pub proof fn ways_round_are_reported(flow: FlowModel, c: Seq<Seq<char>>)
    requires
        way_round(flow.steps, c),
    ensures
        exists|i: int|
            0 <= i < violations_of(flow).len() && (#[trigger] violations_of(flow)[i]).rule
                == "acyclic"@,
{
    let g = graph_of(flow.steps, true);
    assert forall|i: int| 0 <= i < c.len() - 1 implies (#[trigger] successors(g, c[i])).contains(
        c[i + 1],
    ) by {
        assert(some_leads_on(flow.steps, true, c[i], c[i + 1]));
        graph_shows_the_ways_on(flow.steps, true, c[i], c[i + 1]);
    }
    assert(is_cycle(g, c));
    super::dag::cycle_report_is_exact(flow.steps);
    let found = cycle_violations(flow.steps);
    assert(found.len() == 1);
    lemma_parts(flow);
    assert(found[0].rule == "acyclic"@);
    assert(parts_of(flow)[5] == found);
    lemma_part_in_whole(flow, 5, 0);
}

/// Where a cycle is reported there is a way round.
pub proof fn reported_cycle_is_a_way_round(flow: FlowModel)
    requires
        cycle_violations(flow.steps).len() > 0,
    ensures
        exists|c: Seq<Seq<char>>| way_round(flow.steps, c),
{
    let g = graph_of(flow.steps, true);
    super::dag::cycle_report_is_exact(flow.steps);
    let c = choose|c: Seq<Seq<char>>| is_cycle(g, c);
    assert forall|i: int| 0 <= i < c.len() - 1 implies some_leads_on(
        flow.steps,
        true,
        #[trigger] c[i],
        c[i + 1],
    ) by {
        assert(successors(g, c[i]).contains(c[i + 1]));
        graph_shows_the_ways_on(flow.steps, true, c[i], c[i + 1]);
    }
    assert(way_round(flow.steps, c));
}

/// Whether no step leads on to `id`.
pub open spec fn is_unfed(steps: Seq<StepModel>, forward: bool, id: Seq<char>) -> bool {
    forall|source: Seq<char>| !#[trigger] some_leads_on(steps, forward, source, id)
}

proof fn lemma_unfed(steps: Seq<StepModel>, all: Seq<StepModel>, forward: bool, id: Seq<char>)
    ensures
        unfed(steps, edges_of(all, forward)).contains(id) <==> ids_of(steps).contains(id)
            && is_unfed(all, forward, id),
    decreases steps.len(),
{
    let edges = edges_of(all, forward);
    let got = unfed(steps, edges);
    if steps.len() > 0 {
        let rest = steps.drop_last();
        let last = steps.last();
        lemma_unfed(rest, all, forward, id);
        let before = unfed(rest, edges);
        assert(ids_of(steps) =~= ids_of(rest) + seq![last.id]);
        lemma_in_sum(ids_of(rest), seq![last.id], id);
        assert(seq![last.id].contains(id) <==> last.id == id) by {
            assert(seq![last.id][0] == last.id);
        }
        let sources = sources_of(edges, last.id);
        if sources.len() == 0 {
            assert(got =~= before + seq![last.id]);
            lemma_in_sum(before, seq![last.id], id);
            if last.id == id {
                assert forall|source: Seq<char>| !#[trigger] some_leads_on(
                    all,
                    forward,
                    source,
                    id,
                ) by {
                    edges_are_the_ways_on(all, forward, source, id);
                }
            }
        } else {
            assert(sources.contains(sources[0]));
            edges_are_the_ways_on(all, forward, sources[0], last.id);
        }
    }
}

/// The entry steps of a flow are those that no step leads on to; where there is
/// none, those that no step leads on to with its forward routes.
pub proof fn entries_are_the_unfed_steps(steps: Seq<StepModel>, id: Seq<char>)
    ensures
        entries_of(steps).contains(id) <==> find_step(steps, id) is Some && (is_unfed(
            steps,
            false,
            id,
        ) || (is_unfed(steps, true, id) && forall|other: Seq<char>|
            !(#[trigger] find_step(steps, other) is Some && is_unfed(steps, false, other)))),
{
    lemma_find_step_ids(steps, id);
    lemma_unfed(steps, steps, false, id);
    lemma_unfed(steps, steps, true, id);
    let strict = unfed(steps, edges_of(steps, false));
    if strict.len() > 0 {
        let other = strict[0];
        assert(strict.contains(other));
        lemma_unfed(steps, steps, false, other);
        lemma_find_step_ids(steps, other);
        assert(find_step(steps, other) is Some && is_unfed(steps, false, other));
    } else {
        assert forall|other: Seq<char>| !(#[trigger] find_step(steps, other) is Some && is_unfed(
            steps,
            false,
            other,
        )) by {
            lemma_unfed(steps, steps, false, other);
            lemma_find_step_ids(steps, other);
        }
    }
}

proof fn lemma_paths_among(exprs: Seq<Seq<char>>, i: int)
    requires
        0 <= i < exprs.len(),
    ensures
        step_path(exprs[i]) matches Some(path) ==> paths_among(exprs).contains(path),
    decreases exprs.len(),
{
    let rest = exprs.drop_last();
    let before = paths_among(rest);
    let all = paths_among(exprs);
    if let Some(path) = step_path(exprs[i]) {
        if i == exprs.len() - 1 {
            assert(all[before.len() as int] == path);
        } else {
            lemma_paths_among(rest, i);
            assert(rest[i] == exprs[i]);
            let k = choose|k: int| 0 <= k < before.len() && before[k] == path;
            assert(all[k] == path);
        }
    }
}

proof fn lemma_paths_in(templates: Seq<Seq<char>>, i: int, path: Seq<Seq<char>>)
    requires
        0 <= i < templates.len(),
        paths_among(span_exprs(templates[i])).contains(path),
    ensures
        paths_in(templates).contains(path),
    decreases templates.len(),
{
    let rest = templates.drop_last();
    let a = paths_in(rest);
    let b = paths_among(span_exprs(templates.last()));
    lemma_in_sum(a, b, path);
    if i < templates.len() - 1 {
        assert(rest[i] == templates[i]);
        lemma_paths_in(rest, i, path);
    }
}

/// Whether `t` is a template of a step: the input of a cli step, or what it
/// starts again with after a rejection.
pub open spec fn is_template(step: StepModel, t: Seq<char>) -> bool {
    step.reject_input == Some(t) || (step_kind(step) matches Some(StepWithModel::Cli(with))
        && with.input == t)
}

proof fn lemma_template_listed(step: StepModel, t: Seq<char>)
    requires
        is_template(step, t),
    ensures
        templates_of(step).contains(t),
{
    let all = templates_of(step);
    if step.reject_input == Some(t) {
        assert(all[all.len() - 1] == t);
    } else {
        assert(all[0] == t);
    }
}

/// Every span of every template of a step is checked, wherever it stands: one
/// that begins with `steps.` is among the references, cut at its dots.
pub proof fn every_span_is_checked(step: StepModel, t: Seq<char>, i: int, rest: Seq<char>)
    requires
        is_template(step, t),
        0 <= i < span_exprs(t).len(),
        span_exprs(t)[i] == "steps."@ + rest,
    ensures
        paths_in(templates_of(step)).contains(split_on(rest, '.')),
{
    let expr = span_exprs(t)[i];
    let n = "steps."@.len() as int;
    assert(expr.take(n) =~= "steps."@);
    assert(expr.skip(n) =~= rest);
    assert(step_path(expr) == Some(split_on(rest, '.')));
    lemma_paths_among(span_exprs(t), i);
    lemma_template_listed(step, t);
    let templates = templates_of(step);
    let k = choose|k: int| 0 <= k < templates.len() && templates[k] == t;
    lemma_paths_in(templates, k, split_on(rest, '.'));
}

/// Whether the span at this place of a template refers to the step `id`.
pub open spec fn refers_to(t: Seq<char>, i: int, id: Seq<char>, more: Seq<char>) -> bool {
    &&& 0 <= i < span_exprs(t).len()
    &&& span_exprs(t)[i] == "steps."@ + (id + more)
    &&& lacks(id, '.')
    &&& more.len() == 0 || more[0] == '.'
}

proof fn lemma_reference_id(id: Seq<char>, more: Seq<char>)
    requires
        lacks(id, '.'),
        more.len() == 0 || more[0] == '.',
    ensures
        split_on(id + more, '.')[0] == id,
{
    if more.len() == 0 {
        assert(id + more =~= id);
        text_without_separator_is_one_piece(id, '.');
    } else {
        let tail = more.drop_first();
        assert(id + more =~= id + seq!['.'] + tail);
        first_piece_is_split_off(id, tail, '.');
    }
}

/// In a flow without violations every step that a template refers to, in any of
/// its spans, is the step itself or has completed by then.
pub proof fn valid_flow_reads_only_what_has_completed(
    flow: FlowModel,
    k: int,
    t: Seq<char>,
    i: int,
    id: Seq<char>,
    more: Seq<char>,
)
    requires
        violations_of(flow).len() == 0,
        0 <= k < flow.steps.len(),
        is_template(flow.steps[k], t),
        refers_to(t, i, id, more),
    ensures
        id == flow.steps[k].id || is_guaranteed(flow.steps, flow.steps[k].id, id),
{
    let step = flow.steps[k];
    valid_flows_are_sound(flow);
    assert(keeps(StepRule::NoSiblings, flow, flow.steps[k]));
    every_span_is_checked(step, t, i, id + more);
    lemma_reference_id(id, more);
    let paths = paths_in(templates_of(step));
    let j = choose|j: int| 0 <= j < paths.len() && paths[j] == split_on(id + more, '.');
    assert(paths[j][0] == id);
}

/// A template that refers, in any of its spans, to a step that may not have
/// completed is reported for its step.
pub proof fn race_is_reported(
    flow: FlowModel,
    k: int,
    t: Seq<char>,
    i: int,
    id: Seq<char>,
    more: Seq<char>,
)
    requires
        0 <= k < flow.steps.len(),
        is_template(flow.steps[k], t),
        refers_to(t, i, id, more),
        id != flow.steps[k].id,
        !is_guaranteed(flow.steps, flow.steps[k].id, id),
    ensures
        reports(flow, "no_cross_sibling_references"@, flow.steps[k].id),
{
    let step = flow.steps[k];
    every_span_is_checked(step, t, i, id + more);
    lemma_reference_id(id, more);
    let paths = paths_in(templates_of(step));
    let j = choose|j: int| 0 <= j < paths.len() && paths[j] == split_on(id + more, '.');
    assert(paths[j][0] == id);
    assert(!keeps(StepRule::NoSiblings, flow, step));
    broken_rule_is_reported(StepRule::NoSiblings, flow, k);
}

/// A template that reads a field of a cli step's output, in any of its spans, is
/// reported for its step: that output is one value.
pub proof fn field_of_a_cli_output_is_reported(
    flow: FlowModel,
    k: int,
    t: Seq<char>,
    i: int,
    id: Seq<char>,
    field: Seq<char>,
)
    requires
        0 <= k < flow.steps.len(),
        is_template(flow.steps[k], t),
        refers_to(t, i, id, ".output."@ + field),
        find_step(flow.steps, id) matches Some(other) && (step_kind(other) matches Some(
            StepWithModel::Cli(_),
        )),
    ensures
        reports(flow, "output_reference_valid"@, flow.steps[k].id),
{
    let step = flow.steps[k];
    let more = ".output."@ + field;
    every_span_is_checked(step, t, i, id + more);
    let path = split_on(id + more, '.');
    reveal_strlit(".output.");
    reveal_strlit("output");
    let tail = more.drop_first();
    assert(id + more =~= id + seq!['.'] + tail);
    assert(tail =~= "output"@ + seq!['.'] + field);
    first_piece_is_split_off(id, tail, '.');
    first_piece_is_split_off("output"@, field, '.');
    crate::text::lemma_split_nonempty(field, '.');
    assert(path =~= seq![id] + (seq!["output"@] + split_on(field, '.')));
    let paths = paths_in(templates_of(step));
    let j = choose|j: int| 0 <= j < paths.len() && paths[j] == path;
    assert(paths[j][0] == id && paths[j][1] == "output"@ && paths[j].len() > 2);
    assert(!keeps(StepRule::OutputReferences, flow, step));
    broken_rule_is_reported(StepRule::OutputReferences, flow, k);
}

/// Whether validation reports a rule for a step.
pub open spec fn reports(flow: FlowModel, rule: Seq<char>, id: Seq<char>) -> bool {
    exists|i: int| #[trigger] reported_at(violations_of(flow), i, rule, Some(id))
}

/// Whether the violation at this place is of this rule in this step.
pub open spec fn reported_at(
    all: Seq<ViolationModel>,
    i: int,
    rule: Seq<char>,
    step: Option<Seq<char>>,
) -> bool {
    0 <= i < all.len() && all[i].rule == rule && all[i].step == step
}

/// The name under which a rule is reported.
pub open spec fn rule_label(rule: StepRule) -> Seq<char> {
    match rule {
        StepRule::WithShape => "type_with_consistency"@,
        StepRule::TargetsExist => "routing_target_exists"@,
        StepRule::NeedsAreSources => "needs_matches_sources"@,
        StepRule::HumanLoopPairs => "human_loop_routing_pairs"@,
        StepRule::RejectInput => "reject_input_self_loop_only"@,
        StepRule::NoSiblings => "no_cross_sibling_references"@,
        StepRule::OutputReferences => "output_reference_valid"@,
        StepRule::NoRecursion => "no_subflow_recursion"@,
    }
}

/// Whether every violation is of this rule in this step.
spec fn all_of(vs: Seq<ViolationModel>, rule: Seq<char>, id: Seq<char>) -> bool {
    forall|i: int|
        0 <= i < vs.len() ==> (#[trigger] vs[i]).rule == rule && vs[i].step == Some(id)
}

proof fn lemma_all_of_sum(
    a: Seq<ViolationModel>,
    b: Seq<ViolationModel>,
    rule: Seq<char>,
    id: Seq<char>,
)
    requires
        all_of(a, rule, id),
        all_of(b, rule, id),
    ensures
        all_of(a + b, rule, id),
{
}

proof fn lemma_targets_labelled(
    steps: Seq<StepModel>,
    id: Seq<char>,
    field: Seq<char>,
    targets: Seq<Seq<char>>,
)
    ensures
        all_of(unknown_targets(steps, id, field, targets), "routing_target_exists"@, id),
    decreases targets.len(),
{
    if targets.len() > 0 {
        lemma_targets_labelled(steps, id, field, targets.drop_last());
    }
}

proof fn lemma_needs_labelled(steps: Seq<StepModel>, id: Seq<char>, needs: Seq<Seq<char>>)
    ensures
        all_of(unknown_needs(steps, id, needs), "routing_target_exists"@, id),
    decreases needs.len(),
{
    if needs.len() > 0 {
        lemma_needs_labelled(steps, id, needs.drop_last());
    }
}

proof fn lemma_unfounded_labelled(sources: Seq<Seq<char>>, id: Seq<char>, needs: Seq<Seq<char>>)
    ensures
        all_of(unfounded_needs(sources, id, needs), "needs_matches_sources"@, id),
    decreases needs.len(),
{
    if needs.len() > 0 {
        lemma_unfounded_labelled(sources, id, needs.drop_last());
    }
}

proof fn lemma_siblings_labelled(
    steps: Seq<StepModel>,
    id: Seq<char>,
    paths: Seq<Seq<Seq<char>>>,
)
    ensures
        all_of(sibling_references(steps, id, paths), "no_cross_sibling_references"@, id),
    decreases paths.len(),
{
    if paths.len() > 0 {
        lemma_siblings_labelled(steps, id, paths.drop_last());
    }
}

proof fn lemma_fields_labelled(steps: Seq<StepModel>, id: Seq<char>, paths: Seq<Seq<Seq<char>>>)
    ensures
        all_of(field_references(steps, id, paths), "output_reference_valid"@, id),
    decreases paths.len(),
{
    if paths.len() > 0 {
        lemma_fields_labelled(steps, id, paths.drop_last());
    }
}

proof fn lemma_labelled(rule: StepRule, flow: FlowModel, step: StepModel)
    ensures
        all_of(step_rule(rule, flow, step), rule_label(rule), step.id),
{
    let id = step.id;
    match rule {
        StepRule::TargetsExist => {
            let a = unknown_targets(flow.steps, id, "on_success"@, targets_of(step.on_success));
            let b = unknown_targets(flow.steps, id, "on_failure"@, targets_of(step.on_failure));
            let c = unknown_targets(flow.steps, id, "on_approve"@, targets_of(step.on_approve));
            let d = unknown_targets(flow.steps, id, "on_reject"@, targets_of(step.on_reject));
            let e = unknown_needs(flow.steps, id, step.needs);
            lemma_targets_labelled(flow.steps, id, "on_success"@, targets_of(step.on_success));
            lemma_targets_labelled(flow.steps, id, "on_failure"@, targets_of(step.on_failure));
            lemma_targets_labelled(flow.steps, id, "on_approve"@, targets_of(step.on_approve));
            lemma_targets_labelled(flow.steps, id, "on_reject"@, targets_of(step.on_reject));
            lemma_needs_labelled(flow.steps, id, step.needs);
            let label = rule_label(rule);
            lemma_all_of_sum(a, b, label, id);
            lemma_all_of_sum(a + b, c, label, id);
            lemma_all_of_sum(a + b + c, d, label, id);
            lemma_all_of_sum(a + b + c + d, e, label, id);
        },
        StepRule::NeedsAreSources => {
            lemma_unfounded_labelled(
                sources_of(edges_of(flow.steps, false), id),
                id,
                step.needs,
            );
        },
        StepRule::NoSiblings => {
            lemma_siblings_labelled(flow.steps, id, paths_in(templates_of(step)));
        },
        StepRule::OutputReferences => {
            lemma_fields_labelled(flow.steps, id, paths_in(templates_of(step)));
        },
        _ => {},
    }
}

proof fn lemma_rule_in_steps(rule: StepRule, flow: FlowModel, steps: Seq<StepModel>, k: int)
    requires
        0 <= k < steps.len(),
        step_rule(rule, flow, steps[k]).len() > 0,
    ensures
        exists|i: int|
            #[trigger] reported_at(
                rule_violations(rule, flow, steps),
                i,
                rule_label(rule),
                Some(steps[k].id),
            ),
    decreases steps.len(),
{
    let rest = steps.drop_last();
    let before = rule_violations(rule, flow, rest);
    let more = step_rule(rule, flow, steps.last());
    let all = rule_violations(rule, flow, steps);
    let label = rule_label(rule);
    let id = Some(steps[k].id);
    if k == steps.len() - 1 {
        lemma_labelled(rule, flow, steps.last());
        assert(more[0].rule == label);
        assert(all[before.len() as int] == more[0]);
        assert(reported_at(all, before.len() as int, label, id));
    } else {
        assert(rest[k] == steps[k]);
        lemma_rule_in_steps(rule, flow, rest, k);
        let i = choose|i: int| #[trigger] reported_at(before, i, label, id);
        assert(all[i] == before[i]);
        assert(reported_at(all, i, label, id));
    }
}

/// The parts that the violations of a flow are made of, in order.
spec fn parts_of(flow: FlowModel) -> Seq<Seq<ViolationModel>> {
    let steps = flow.steps;
    seq![
        field_violations(flow),
        duplicate_ids(steps),
        rule_violations(StepRule::WithShape, flow, steps),
        rule_violations(StepRule::TargetsExist, flow, steps),
        entry_violations(steps),
        cycle_violations(steps),
        join_violations(steps, incoming_of(edges_of(steps, false))),
        rule_violations(StepRule::NeedsAreSources, flow, steps),
        rule_violations(StepRule::HumanLoopPairs, flow, steps),
        rule_violations(StepRule::RejectInput, flow, steps),
        rule_violations(StepRule::NoSiblings, flow, steps),
        rule_violations(StepRule::OutputReferences, flow, steps),
        rule_violations(StepRule::NoRecursion, flow, steps),
    ]
}

/// The first `n` parts as one list.
spec fn sum_of(parts: Seq<Seq<ViolationModel>>, n: int) -> Seq<ViolationModel>
    decreases n,
{
    if n <= 0 {
        Seq::empty()
    } else {
        sum_of(parts, n - 1) + parts[n - 1]
    }
}

proof fn lemma_parts(flow: FlowModel)
    ensures
        violations_of(flow) == sum_of(parts_of(flow), 13),
        parts_of(flow).len() == 13,
{
    let parts = parts_of(flow);
    reveal_with_fuel(sum_of, 14);
    assert(sum_of(parts, 1) =~= parts[0]);
    assert(violations_of(flow) =~= sum_of(parts, 13));
}

proof fn lemma_in_sum_of(parts: Seq<Seq<ViolationModel>>, n: int, p: int, i: int)
    requires
        0 <= p < n <= parts.len(),
        0 <= i < parts[p].len(),
    ensures
        sum_of(parts, n).contains(parts[p][i]),
    decreases n,
{
    lemma_in_sum(sum_of(parts, n - 1), parts[n - 1], parts[p][i]);
    if p < n - 1 {
        lemma_in_sum_of(parts, n - 1, p, i);
    } else {
        assert(parts[p].contains(parts[p][i]));
    }
}

proof fn lemma_part_in_whole(flow: FlowModel, p: int, i: int)
    requires
        0 <= p < 13,
        0 <= i < parts_of(flow)[p].len(),
    ensures
        exists|k: int|
            0 <= k < violations_of(flow).len() && #[trigger] violations_of(flow)[k] == parts_of(
                flow,
            )[p][i],
{
    lemma_parts(flow);
    lemma_in_sum_of(parts_of(flow), 13, p, i);
}

spec fn part_index(rule: StepRule) -> int {
    match rule {
        StepRule::WithShape => 2,
        StepRule::TargetsExist => 3,
        StepRule::NeedsAreSources => 7,
        StepRule::HumanLoopPairs => 8,
        StepRule::RejectInput => 9,
        StepRule::NoSiblings => 10,
        StepRule::OutputReferences => 11,
        StepRule::NoRecursion => 12,
    }
}

/// A step that does not keep a rule is reported under the rule's name and with
/// its own id.
pub proof fn broken_rule_is_reported(rule: StepRule, flow: FlowModel, k: int)
    requires
        0 <= k < flow.steps.len(),
        !keeps(rule, flow, flow.steps[k]),
    ensures
        reports(flow, rule_label(rule), flow.steps[k].id),
{
    let id = Some(flow.steps[k].id);
    rule_is_kept_without_violation(rule, flow, flow.steps[k]);
    lemma_rule_in_steps(rule, flow, flow.steps, k);
    let part = rule_violations(rule, flow, flow.steps);
    let i = choose|i: int| #[trigger] reported_at(part, i, rule_label(rule), id);
    let p = part_index(rule);
    assert(parts_of(flow)[p] == part);
    lemma_part_in_whole(flow, p, i);
    let all = violations_of(flow);
    let j = choose|j: int| 0 <= j < all.len() && #[trigger] all[j] == part[i];
    assert(reported_at(all, j, rule_label(rule), id));
}

/// A route that names a step that is not there is reported for the step that
/// has the route, whichever of the four routes it is; so is a needed step that
/// is not there.
pub proof fn unknown_target_is_reported(flow: FlowModel, k: int, target: Seq<char>)
    requires
        0 <= k < flow.steps.len(),
        forall|i: int| 0 <= i < flow.steps.len() ==> (#[trigger] flow.steps[i]).id != target,
        ({
            let step = flow.steps[k];
            step.needs.contains(target) || (target != DONE@ && (lists(step.on_success, target)
                || lists(step.on_failure, target) || lists(step.on_approve, target) || lists(
                step.on_reject,
                target,
            )))
        }),
    ensures
        reports(flow, "routing_target_exists"@, flow.steps[k].id),
{
    let step = flow.steps[k];
    lemma_find_step_ids(flow.steps, target);
    if ids_of(flow.steps).contains(target) {
        let i = choose|i: int|
            0 <= i < ids_of(flow.steps).len() && ids_of(flow.steps)[i] == target;
        assert(flow.steps[i].id == target);
    }
    if keeps(StepRule::TargetsExist, flow, step) {
        if step.needs.contains(target) {
            let i = choose|i: int| 0 <= i < step.needs.len() && step.needs[i] == target;
            assert(find_step(flow.steps, step.needs[i]) is Some);
        } else {
            let routes = seq![
                targets_of(step.on_success),
                targets_of(step.on_failure),
                targets_of(step.on_approve),
                targets_of(step.on_reject),
            ];
            assert(routes[0].contains(target) || routes[1].contains(target) || routes[2].contains(
                target,
            ) || routes[3].contains(target));
            let r = if routes[0].contains(target) {
                routes[0]
            } else if routes[1].contains(target) {
                routes[1]
            } else if routes[2].contains(target) {
                routes[2]
            } else {
                routes[3]
            };
            let i = choose|i: int| 0 <= i < r.len() && r[i] == target;
            assert(super::laws::targets_exist(flow.steps, r));
            assert(r[i] == DONE@ || find_step(flow.steps, r[i]) is Some);
        }
    }
    broken_rule_is_reported(StepRule::TargetsExist, flow, k);
}

/// A step that needs one which does not lead on to it is reported.
pub proof fn unfounded_need_is_reported(flow: FlowModel, k: int, need: Seq<char>)
    requires
        0 <= k < flow.steps.len(),
        flow.steps[k].needs.contains(need),
        !some_leads_on(flow.steps, false, need, flow.steps[k].id),
    ensures
        reports(flow, "needs_matches_sources"@, flow.steps[k].id),
{
    let step = flow.steps[k];
    let i = choose|i: int| 0 <= i < step.needs.len() && step.needs[i] == need;
    lemma_routes_to(flow.steps, false, need, step.id);
    assert(!routes_to(flow.steps, false, step.needs[i], step.id));
    broken_rule_is_reported(StepRule::NeedsAreSources, flow, k);
}

/// A step that has the id of another is reported.
pub proof fn repeated_id_is_reported(flow: FlowModel, i: int, j: int)
    requires
        0 <= i < j < flow.steps.len(),
        flow.steps[i].id == flow.steps[j].id,
    ensures
        reports(flow, "unique_step_ids"@, flow.steps[j].id),
{
    lemma_repeated(flow.steps, i, j);
    let part = duplicate_ids(flow.steps);
    let id = Some(flow.steps[j].id);
    let k = choose|k: int| #[trigger] reported_at(part, k, "unique_step_ids"@, id);
    assert(parts_of(flow)[1] == part);
    lemma_part_in_whole(flow, 1, k);
    let all = violations_of(flow);
    let n = choose|n: int| 0 <= n < all.len() && #[trigger] all[n] == part[k];
    assert(reported_at(all, n, "unique_step_ids"@, id));
}

proof fn lemma_repeated(steps: Seq<StepModel>, i: int, j: int)
    requires
        0 <= i < j < steps.len(),
        steps[i].id == steps[j].id,
    ensures
        exists|k: int|
            #[trigger] reported_at(
                duplicate_ids(steps),
                k,
                "unique_step_ids"@,
                Some(steps[j].id),
            ),
    decreases steps.len(),
{
    let rest = steps.drop_last();
    let before = duplicate_ids(rest);
    let all = duplicate_ids(steps);
    let id = Some(steps[j].id);
    if j == steps.len() - 1 {
        lemma_find_step_ids(rest, steps[j].id);
        assert(ids_of(rest)[i] == steps[j].id);
        assert(reported_at(all, before.len() as int, "unique_step_ids"@, id));
    } else {
        assert(rest[i] == steps[i] && rest[j] == steps[j]);
        lemma_repeated(rest, i, j);
        let k = choose|k: int| #[trigger] reported_at(before, k, "unique_step_ids"@, id);
        assert(all[k] == before[k]);
        assert(reported_at(all, k, "unique_step_ids"@, id));
    }
}

/// A flow with two steps that no step leads on to has two entries and is
/// reported.
pub proof fn second_entry_is_reported(flow: FlowModel, i: int, j: int)
    requires
        0 <= i < j < flow.steps.len(),
        flow.steps[i].id != flow.steps[j].id,
        is_unfed(flow.steps, false, flow.steps[i].id),
        is_unfed(flow.steps, false, flow.steps[j].id),
    ensures
        exists|k: int|
            #[trigger] reported_at(violations_of(flow), k, "exactly_one_entry_step"@, None),
{
    let steps = flow.steps;
    let entries = entries_of(steps);
    let a = steps[i].id;
    let b = steps[j].id;
    lemma_find_step_ids(steps, a);
    lemma_find_step_ids(steps, b);
    assert(ids_of(steps)[i] == a && ids_of(steps)[j] == b);
    entries_are_the_unfed_steps(steps, a);
    entries_are_the_unfed_steps(steps, b);
    let p = choose|p: int| 0 <= p < entries.len() && entries[p] == a;
    let q = choose|q: int| 0 <= q < entries.len() && entries[q] == b;
    assert(entries.len() != 1);
    let part = entry_violations(steps);
    assert(part.len() == 1);
    assert(parts_of(flow)[4] == part);
    lemma_part_in_whole(flow, 4, 0);
    let all = violations_of(flow);
    let n = choose|n: int| 0 <= n < all.len() && #[trigger] all[n] == part[0];
    assert(reported_at(all, n, "exactly_one_entry_step"@, None));
}

/// A step that two others lead on to and that does not say what it needs is
/// reported.
pub proof fn undeclared_join_is_reported(
    flow: FlowModel,
    k: int,
    a: Seq<char>,
    b: Seq<char>,
)
    requires
        0 <= k < flow.steps.len(),
        a != b,
        some_leads_on(flow.steps, false, a, flow.steps[k].id),
        some_leads_on(flow.steps, false, b, flow.steps[k].id),
        find_step(flow.steps, flow.steps[k].id) == Some(flow.steps[k]),
        flow.steps[k].needs.len() == 0,
    ensures
        reports(flow, "multi_target_needs_join"@, flow.steps[k].id),
{
    let steps = flow.steps;
    let id = steps[k].id;
    let edges = edges_of(steps, false);
    edges_are_the_ways_on(steps, false, a, id);
    edges_are_the_ways_on(steps, false, b, id);
    let sources = sources_of(edges, id);
    let p = choose|p: int| 0 <= p < sources.len() && sources[p] == a;
    let q = choose|q: int| 0 <= q < sources.len() && sources[q] == b;
    assert(sources.len() > 1);
    let heads = super::dag::heads_of(edges);
    let e = choose|e: int| 0 <= e < edges.len() && edges[e] == (id, a);
    assert(heads[e] == id);
    assert(heads.contains(id));
    lemma_once(heads, id);
    let targets = first_occurrences(heads);
    let t = choose|t: int| 0 <= t < targets.len() && targets[t] == id;
    let incoming = incoming_of(edges);
    assert(incoming[t] == (id, sources));
    lemma_join_in(steps, incoming, t);
    let part = join_violations(steps, incoming);
    let n = choose|n: int|
        #[trigger] reported_at(part, n, "multi_target_needs_join"@, Some(id));
    assert(parts_of(flow)[6] == part);
    lemma_part_in_whole(flow, 6, n);
    let all = violations_of(flow);
    let m = choose|m: int| 0 <= m < all.len() && #[trigger] all[m] == part[n];
    assert(reported_at(all, m, "multi_target_needs_join"@, Some(id)));
}

proof fn lemma_join_in(
    steps: Seq<StepModel>,
    incoming: Seq<(Seq<char>, Seq<Seq<char>>)>,
    t: int,
)
    requires
        0 <= t < incoming.len(),
        incoming[t].1.len() > 1,
        find_step(steps, incoming[t].0) matches Some(step) && step.needs.len() == 0,
    ensures
        exists|n: int|
            #[trigger] reported_at(
                join_violations(steps, incoming),
                n,
                "multi_target_needs_join"@,
                Some(incoming[t].0),
            ),
    decreases incoming.len(),
{
    let rest = incoming.drop_last();
    let before = join_violations(steps, rest);
    let all = join_violations(steps, incoming);
    let label = "multi_target_needs_join"@;
    let id = Some(incoming[t].0);
    if t == incoming.len() - 1 {
        assert(reported_at(all, before.len() as int, label, id));
    } else {
        assert(rest[t] == incoming[t]);
        lemma_join_in(steps, rest, t);
        let n = choose|n: int| #[trigger] reported_at(before, n, label, id);
        assert(all[n] == before[n]);
        assert(reported_at(all, n, label, id));
    }
}

/// Whether `other` has completed whenever `id` starts, one step back: it is the
/// only one that leads on to `id`, by one route; or there is not exactly one,
/// and `id` needs it.
pub open spec fn completed_before(
    steps: Seq<StepModel>,
    id: Seq<char>,
    other: Seq<char>,
) -> bool {
    let sources = sources_of(edges_of(steps, false), id);
    if sources.len() == 1 {
        some_leads_on(steps, false, other, id)
    } else {
        find_step(steps, other) is Some && (find_step(steps, id) matches Some(step)
            && step.needs.contains(other))
    }
}

proof fn lemma_existing(steps: Seq<StepModel>, names: Seq<Seq<char>>, x: Seq<char>)
    ensures
        existing(steps, names).contains(x) <==> names.contains(x) && find_step(steps, x) is Some,
    decreases names.len(),
{
    if names.len() > 0 {
        let rest = names.drop_last();
        let last = names.last();
        let before = existing(steps, rest);
        lemma_existing(steps, rest, x);
        lemma_in_sum(rest, seq![last], x);
        assert(rest + seq![last] =~= names);
        assert(seq![last].contains(x) <==> last == x) by {
            assert(seq![last][0] == last);
        }
        if find_step(steps, last) is Some {
            lemma_in_sum(before, seq![last], x);
            assert(before + seq![last] =~= existing(steps, names));
        }
    }
}

proof fn lemma_predecessors(steps: Seq<StepModel>, id: Seq<char>, other: Seq<char>)
    ensures
        predecessors(steps, id).contains(other) <==> completed_before(steps, id, other),
{
    edges_are_the_ways_on(steps, false, other, id);
    if let Some(step) = find_step(steps, id) {
        lemma_existing(steps, step.needs, other);
    }
}

proof fn lemma_predecessor_graph(steps: Seq<StepModel>, id: Seq<char>)
    ensures
        find_step(steps, id) is Some ==> successors(predecessor_graph(steps), id) == predecessors(
            steps,
            id,
        ),
        find_step(steps, id) is None ==> successors(predecessor_graph(steps), id).len() == 0,
{
    let g = predecessor_graph(steps);
    let ids = first_occurrences(ids_of(steps));
    lemma_once(ids_of(steps), id);
    lemma_find_step_ids(steps, id);
    assert forall|k: int| 0 <= k < g.len() implies (#[trigger] g[k]).0 == ids[k] by {}
    if ids.contains(id) {
        let i = choose|i: int| 0 <= i < ids.len() && ids[i] == id;
        lemma_first_entry(ids, g, id, i);
    } else {
        lemma_no_entry(ids, g, id);
    }
}

/// What has completed one step back has completed; so has what had completed
/// before that. Nothing else has.
pub proof fn completion_goes_back_step_by_step(
    steps: Seq<StepModel>,
    id: Seq<char>,
    other: Seq<char>,
)
    ensures
        completed_before(steps, id, other) ==> is_guaranteed(steps, id, other),
        forall|mid: Seq<char>|
            #[trigger] is_guaranteed(steps, id, mid) && find_step(steps, mid) is Some
                && completed_before(steps, mid, other) ==> is_guaranteed(steps, id, other),
        is_guaranteed(steps, id, other) ==> completed_before(steps, id, other) || exists|
            mid: Seq<char>,
        |
            #[trigger] is_guaranteed(steps, id, mid) && find_step(steps, mid) is Some
                && completed_before(steps, mid, other),
{
    let g = predecessor_graph(steps);
    let starts = predecessors(steps, id);
    lemma_predecessors(steps, id, other);
    if completed_before(steps, id, other) {
        assert(leads_to(g, starts, seq![other], other));
    }
    assert forall|mid: Seq<char>|
        #[trigger] is_guaranteed(steps, id, mid) && find_step(steps, mid) is Some
            && completed_before(steps, mid, other) implies is_guaranteed(steps, id, other) by {
        let p = choose|p: Seq<Seq<char>>| #[trigger] leads_to(g, starts, p, mid);
        lemma_predecessors(steps, mid, other);
        lemma_predecessor_graph(steps, mid);
        let q = p.push(other);
        assert forall|i: int| 0 <= i < q.len() - 1 implies (#[trigger] successors(
            g,
            q[i],
        )).contains(q[i + 1]) by {
            assert(q[i] == p[i]);
            if i < p.len() - 1 {
                assert(successors(g, p[i]).contains(p[i + 1]));
            }
        }
        assert(leads_to(g, starts, q, other));
    }
    if is_guaranteed(steps, id, other) && !completed_before(steps, id, other) {
        let p = choose|p: Seq<Seq<char>>| #[trigger] leads_to(g, starts, p, other);
        if p.len() == 1 {
            assert(starts.contains(other));
        }
        let q = p.drop_last();
        let mid = q.last();
        assert(successors(g, p[p.len() - 2]).contains(p[p.len() - 1]));
        assert forall|i: int| 0 <= i < q.len() - 1 implies (#[trigger] successors(
            g,
            q[i],
        )).contains(q[i + 1]) by {
            assert(successors(g, p[i]).contains(p[i + 1]));
        }
        assert(leads_to(g, starts, q, mid));
        lemma_predecessor_graph(steps, mid);
        lemma_predecessors(steps, mid, other);
        assert(is_guaranteed(steps, id, mid));
    }
}

/// A step whose id is not valid, or whose timeout is no duration, is reported.
pub proof fn bad_fields_are_reported(flow: FlowModel, k: int)
    requires
        0 <= k < flow.steps.len(),
    ensures
        !valid_id(flow.steps[k].id) ==> reports(flow, "valid_step_id"@, flow.steps[k].id),
        flow.steps[k].timeout is Some && duration_of(flow.steps[k].timeout->Some_0) is None
            ==> reports(flow, "valid_duration"@, flow.steps[k].id),
{
    let step = flow.steps[k];
    let id = Some(step.id);
    let all = violations_of(flow);
    let part = field_violations(flow);
    assert(parts_of(flow)[0] == part);
    if !valid_id(step.id) {
        lemma_step_field(flow.steps, k, "valid_step_id"@);
        let i = lemma_field(flow, "valid_step_id"@, id);
        lemma_part_in_whole(flow, 0, i);
        let n = choose|n: int| 0 <= n < all.len() && #[trigger] all[n] == part[i];
        assert(reported_at(all, n, "valid_step_id"@, id));
    }
    if step.timeout is Some && duration_of(step.timeout->Some_0) is None {
        lemma_step_field(flow.steps, k, "valid_duration"@);
        let i = lemma_field(flow, "valid_duration"@, id);
        lemma_part_in_whole(flow, 0, i);
        let n = choose|n: int| 0 <= n < all.len() && #[trigger] all[n] == part[i];
        assert(reported_at(all, n, "valid_duration"@, id));
    }
}

proof fn lemma_field(flow: FlowModel, rule: Seq<char>, id: Option<Seq<char>>) -> (i: int)
    requires
        exists|j: int| #[trigger] reported_at(steps_field_violations(flow.steps), j, rule, id),
    ensures
        reported_at(field_violations(flow), i, rule, id),
{
    let steps = steps_field_violations(flow.steps);
    let j = choose|j: int| #[trigger] reported_at(steps, j, rule, id);
    let head = if flow.steps.len() == 0 {
        1int
    } else {
        0int
    };
    assert(field_violations(flow)[head + j] == steps[j]);
    head + j
}

/// The violation of a rule that a step's own fields break.
spec fn breaks_field(step: StepModel, rule: Seq<char>) -> bool {
    (rule == "valid_step_id"@ && !valid_id(step.id)) || (rule == "valid_duration"@ && (
    step.timeout matches Some(t) && duration_of(t) is None))
}

proof fn lemma_step_field(steps: Seq<StepModel>, k: int, rule: Seq<char>)
    requires
        0 <= k < steps.len(),
        breaks_field(steps[k], rule),
    ensures
        exists|j: int|
            #[trigger] reported_at(steps_field_violations(steps), j, rule, Some(steps[k].id)),
    decreases steps.len(),
{
    let rest = steps.drop_last();
    let before = steps_field_violations(rest);
    let more = step_field_violations(steps.last());
    let all = steps_field_violations(steps);
    let id = Some(steps[k].id);
    if k == steps.len() - 1 {
        let n = if rule == "valid_step_id"@ && !valid_id(steps[k].id) {
            0int
        } else {
            more.len() - 1
        };
        assert(more[n].rule == rule && more[n].step == id);
        assert(all[before.len() + n] == more[n]);
        assert(reported_at(all, before.len() + n, rule, id));
    } else {
        assert(rest[k] == steps[k]);
        lemma_step_field(rest, k, rule);
        let j = choose|j: int| #[trigger] reported_at(before, j, rule, id);
        assert(all[j] == before[j]);
        assert(reported_at(all, j, rule, id));
    }
}

/// A flow without steps, or with a timeout that is no duration, is reported.
pub proof fn bad_flow_fields_are_reported(flow: FlowModel)
    ensures
        flow.steps.len() == 0 ==> exists|n: int|
            #[trigger] reported_at(violations_of(flow), n, "non_empty_steps"@, None),
        flow.timeout is Some && duration_of(flow.timeout->Some_0) is None ==> exists|n: int|
            #[trigger] reported_at(violations_of(flow), n, "valid_duration"@, None),
{
    let all = violations_of(flow);
    let part = field_violations(flow);
    assert(parts_of(flow)[0] == part);
    if flow.steps.len() == 0 {
        assert(part[0].rule == "non_empty_steps"@ && part[0].step is None);
        lemma_part_in_whole(flow, 0, 0);
        let n = choose|n: int| 0 <= n < all.len() && #[trigger] all[n] == part[0];
        assert(reported_at(all, n, "non_empty_steps"@, None));
    }
    if flow.timeout is Some && duration_of(flow.timeout->Some_0) is None {
        let i = part.len() - 1;
        assert(part[i].rule == "valid_duration"@ && part[i].step is None);
        lemma_part_in_whole(flow, 0, i);
        let n = choose|n: int| 0 <= n < all.len() && #[trigger] all[n] == part[i];
        assert(reported_at(all, n, "valid_duration"@, None));
    }
}

} // verus!
