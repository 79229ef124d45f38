//! What holds of every flow: laws of the routing graph and of validation.
use super::dag::{
    cycle_report_is_exact, edges_of, edges_to, entries_of, first_occurrences, graph_of, heads_of,
    incoming_of, is_edge, routes_of, self_rejecting, sources_of, targets_of,
};
use super::schema::{
    duration_of, field_violations, step_field_violations, steps_field_violations, valid_id,
};
use super::types::{find_step, step_kind, FlowModel, RouteTarget, StepModel, StepWithModel, DONE};
use super::validate::{
    cycle_violations, duplicate_ids, entry_violations, field_references, is_cli_step,
    is_guaranteed, join_violations, paths_in, reads_field, rule_violations, sibling_references,
    step_rule, templates_of, unfounded_needs, unknown_needs, unknown_targets, violations_of,
    StepRule,
};
use crate::graph::is_acyclic;
use vstd::prelude::*;

verus! {

proof fn lemma_edges_to(
    step: StepModel,
    targets: Seq<Seq<char>>,
    source: Seq<char>,
    target: Seq<char>,
)
    ensures
        edges_to(step, targets).contains((target, source)) <==> source == step.id
            && targets.contains(target) && is_edge(step, target),
    decreases targets.len(),
{
    let edges = edges_to(step, targets);
    if targets.len() > 0 {
        let rest = targets.drop_last();
        let last = targets.last();
        let before = edges_to(step, rest);
        lemma_edges_to(step, rest, source, target);
        assert(targets[targets.len() - 1] == last);
        if before.contains((target, source)) {
            let k = choose|k: int| 0 <= k < before.len() && before[k] == (target, source);
            assert(edges[k] == (target, source));
            let j = choose|j: int| 0 <= j < rest.len() && rest[j] == target;
            assert(targets[j] == target);
        }
        if is_edge(step, last) {
            assert(edges[before.len() as int] == (last, step.id));
        }
        if edges.contains((target, source)) {
            let k = choose|k: int| 0 <= k < edges.len() && edges[k] == (target, source);
            if k < before.len() {
                assert(before[k] == (target, source));
            }
        }
        if targets.contains(target) {
            let j = choose|j: int| 0 <= j < targets.len() && targets[j] == target;
            if j < rest.len() {
                assert(rest[j] == target);
            }
        }
    }
}

/// Whether some step with the id `source` routes to `target`, neither to end
/// the run nor to loop back after a rejection.
pub open spec fn routes_to(
    steps: Seq<StepModel>,
    forward: bool,
    source: Seq<char>,
    target: Seq<char>,
) -> bool {
    exists|i: int|
        0 <= i < steps.len() && (#[trigger] steps[i]).id == source && routes_of(
            steps[i],
            forward,
        ).contains(target) && is_edge(steps[i], target)
}

/// The edges of the routing graph are the routes of the steps.
pub proof fn edges_are_routes(
    steps: Seq<StepModel>,
    forward: bool,
    source: Seq<char>,
    target: Seq<char>,
)
    ensures
        edges_of(steps, forward).contains((target, source)) <==> routes_to(
            steps,
            forward,
            source,
            target,
        ),
    decreases steps.len(),
{
    let edges = edges_of(steps, forward);
    if steps.len() > 0 {
        let rest = steps.drop_last();
        let last = steps.last();
        let before = edges_of(rest, forward);
        let more = edges_to(last, routes_of(last, forward));
        edges_are_routes(rest, forward, source, target);
        lemma_edges_to(last, routes_of(last, forward), source, target);
        assert(edges == before + more);
        assert(steps[steps.len() - 1] == last);
        if before.contains((target, source)) {
            let k = choose|k: int| 0 <= k < before.len() && before[k] == (target, source);
            assert(edges[k] == (target, source));
            let i = choose|i: int|
                0 <= i < rest.len() && (#[trigger] rest[i]).id == source && routes_of(
                    rest[i],
                    forward,
                ).contains(target) && is_edge(rest[i], target);
            assert(steps[i] == rest[i]);
        }
        if more.contains((target, source)) {
            let k = choose|k: int| 0 <= k < more.len() && more[k] == (target, source);
            assert(edges[before.len() + k] == (target, source));
        }
        if edges.contains((target, source)) {
            let k = choose|k: int| 0 <= k < edges.len() && edges[k] == (target, source);
            if k < before.len() {
                assert(before[k] == (target, source));
            } else {
                assert(more[k - before.len()] == (target, source));
            }
        }
        if routes_to(steps, forward, source, target) {
            let i = choose|i: int|
                0 <= i < steps.len() && (#[trigger] steps[i]).id == source && routes_of(
                    steps[i],
                    forward,
                ).contains(target) && is_edge(steps[i], target);
            if i < rest.len() {
                assert(rest[i] == steps[i]);
            }
        }
    }
}

/// The sources of a step are the sources of the edges to it.
pub proof fn sources_are_edge_sources(
    edges: Seq<(Seq<char>, Seq<char>)>,
    target: Seq<char>,
    source: Seq<char>,
)
    ensures
        sources_of(edges, target).contains(source) <==> edges.contains((target, source)),
    decreases edges.len(),
{
    let sources = sources_of(edges, target);
    if edges.len() > 0 {
        let rest = edges.drop_last();
        let last = edges.last();
        let before = sources_of(rest, target);
        sources_are_edge_sources(rest, target, source);
        assert(edges[edges.len() - 1] == last);
        if rest.contains((target, source)) {
            let k = choose|k: int| 0 <= k < rest.len() && rest[k] == (target, source);
            assert(edges[k] == (target, source));
            let j = choose|j: int| 0 <= j < before.len() && before[j] == source;
            assert(sources[j] == source);
        }
        if last.0 == target {
            assert(sources[before.len() as int] == last.1);
        }
        if sources.contains(source) {
            let j = choose|j: int| 0 <= j < sources.len() && sources[j] == source;
            if j < before.len() {
                assert(before[j] == source);
            }
        }
        if edges.contains((target, source)) {
            let k = choose|k: int| 0 <= k < edges.len() && edges[k] == (target, source);
            if k < rest.len() {
                assert(rest[k] == (target, source));
            }
        }
    }
}

/// Whether the ids of steps are distinct.
pub open spec fn ids_distinct(steps: Seq<StepModel>) -> bool {
    forall|i: int, j: int|
        0 <= i < j < steps.len() ==> (#[trigger] steps[i]).id != (#[trigger] steps[j]).id
}

/// Whether a list of targets leads to existing steps or ends the run.
pub open spec fn targets_exist(steps: Seq<StepModel>, targets: Seq<Seq<char>>) -> bool {
    forall|i: int|
        0 <= i < targets.len() ==> (#[trigger] targets[i]) == DONE@ || find_step(
            steps,
            targets[i],
        ) is Some
}

/// Whether steps of a list exist.
pub open spec fn needs_exist(steps: Seq<StepModel>, needs: Seq<Seq<char>>) -> bool {
    forall|i: int| 0 <= i < needs.len() ==> find_step(steps, #[trigger] needs[i]) is Some
}

/// Whether one step keeps a rule.
pub open spec fn keeps(rule: StepRule, flow: FlowModel, step: StepModel) -> bool {
    match rule {
        StepRule::WithShape => step_kind(step) is Some,
        StepRule::TargetsExist => targets_exist(flow.steps, targets_of(step.on_success))
            && targets_exist(flow.steps, targets_of(step.on_failure)) && targets_exist(
            flow.steps,
            targets_of(step.on_approve),
        ) && targets_exist(flow.steps, targets_of(step.on_reject)) && needs_exist(
            flow.steps,
            step.needs,
        ),
        StepRule::NeedsAreSources => forall|i: int|
            0 <= i < step.needs.len() ==> routes_to(
                flow.steps,
                false,
                #[trigger] step.needs[i],
                step.id,
            ),
        StepRule::HumanLoopPairs => (step.on_approve is Some <==> step.human_loop) && (
        step.on_reject is Some <==> step.human_loop),
        StepRule::RejectInput => step.reject_input is Some ==> self_rejecting(step),
        StepRule::NoSiblings => forall|i: int|
            0 <= i < paths_in(templates_of(step)).len() ==> {
                let other = (#[trigger] paths_in(templates_of(step))[i])[0];
                other == step.id || is_guaranteed(flow.steps, step.id, other)
            },
        StepRule::OutputReferences => forall|i: int|
            0 <= i < paths_in(templates_of(step)).len() ==> {
                let path = #[trigger] paths_in(templates_of(step))[i];
                !(reads_field(path) && is_cli_step(flow.steps, path[0]))
            },
        StepRule::NoRecursion => step_kind(step) matches Some(StepWithModel::Subflow(with))
            ==> with.flow != flow.name,
    }
}

/// Whether every step keeps a rule.
pub open spec fn all_keep(rule: StepRule, flow: FlowModel, steps: Seq<StepModel>) -> bool {
    forall|i: int| 0 <= i < steps.len() ==> keeps(rule, flow, #[trigger] steps[i])
}

/// Whether a step has a valid id and a timeout that is a duration, or none.
pub open spec fn step_fields_sound(step: StepModel) -> bool {
    valid_id(step.id) && (step.timeout matches Some(t) ==> duration_of(t) is Some)
}

/// Whether the fields of a flow are in order: it has steps, their ids are
/// valid, and every timeout is a duration.
pub open spec fn fields_sound(flow: FlowModel) -> bool {
    &&& flow.steps.len() > 0
    &&& forall|i: int| 0 <= i < flow.steps.len() ==> step_fields_sound(#[trigger] flow.steps[i])
    &&& flow.timeout matches Some(t) ==> duration_of(t) is Some
}

/// Whether a step that several routes lead to says what it needs.
pub open spec fn joins_declared(steps: Seq<StepModel>) -> bool {
    forall|id: Seq<char>|
        (#[trigger] sources_of(edges_of(steps, false), id)).len() > 1 ==> (find_step(
            steps,
            id,
        ) matches Some(step) ==> step.needs.len() > 0)
}

/// Whether a flow is sound: its fields are in order, its ids are distinct, it
/// has one entry, its forward routes do not lead round, steps where routes
/// meet say what they need, and every step keeps every rule.
pub open spec fn is_sound(flow: FlowModel) -> bool {
    &&& fields_sound(flow)
    &&& ids_distinct(flow.steps)
    &&& all_keep(StepRule::WithShape, flow, flow.steps)
    &&& all_keep(StepRule::TargetsExist, flow, flow.steps)
    &&& entries_of(flow.steps).len() == 1
    &&& is_acyclic(graph_of(flow.steps, true))
    &&& joins_declared(flow.steps)
    &&& all_keep(StepRule::NeedsAreSources, flow, flow.steps)
    &&& all_keep(StepRule::HumanLoopPairs, flow, flow.steps)
    &&& all_keep(StepRule::RejectInput, flow, flow.steps)
    &&& all_keep(StepRule::NoSiblings, flow, flow.steps)
    &&& all_keep(StepRule::OutputReferences, flow, flow.steps)
    &&& all_keep(StepRule::NoRecursion, flow, flow.steps)
}

proof fn lemma_unknown_targets(
    steps: Seq<StepModel>,
    id: Seq<char>,
    field: Seq<char>,
    targets: Seq<Seq<char>>,
)
    ensures
        unknown_targets(steps, id, field, targets).len() == 0 <==> targets_exist(steps, targets),
    decreases targets.len(),
{
    if targets.len() > 0 {
        let rest = targets.drop_last();
        lemma_unknown_targets(steps, id, field, rest);
        assert(targets[targets.len() - 1] == targets.last());
        assert forall|i: int| 0 <= i < rest.len() implies rest[i] == targets[i] by {}
        if targets_exist(steps, rest) && (targets.last() == DONE@ || find_step(
            steps,
            targets.last(),
        ) is Some) {
            assert forall|i: int| 0 <= i < targets.len() implies (#[trigger] targets[i]) == DONE@
                || find_step(steps, targets[i]) is Some by {
                if i < rest.len() {
                    assert(rest[i] == targets[i]);
                }
            }
        }
    }
}

proof fn lemma_unknown_needs(steps: Seq<StepModel>, id: Seq<char>, needs: Seq<Seq<char>>)
    ensures
        unknown_needs(steps, id, needs).len() == 0 <==> needs_exist(steps, needs),
    decreases needs.len(),
{
    if needs.len() > 0 {
        let rest = needs.drop_last();
        lemma_unknown_needs(steps, id, rest);
        assert(needs[needs.len() - 1] == needs.last());
        if needs_exist(steps, needs) {
            assert forall|i: int| 0 <= i < rest.len() implies find_step(
                steps,
                #[trigger] rest[i],
            ) is Some by {
                assert(find_step(steps, needs[i]) is Some);
            }
        }
        if needs_exist(steps, rest) && find_step(steps, needs.last()) is Some {
            assert forall|i: int| 0 <= i < needs.len() implies find_step(
                steps,
                #[trigger] needs[i],
            ) is Some by {
                if i < rest.len() {
                    assert(find_step(steps, rest[i]) is Some);
                }
            }
        }
    }
}

proof fn lemma_unfounded_needs(sources: Seq<Seq<char>>, id: Seq<char>, needs: Seq<Seq<char>>)
    ensures
        unfounded_needs(sources, id, needs).len() == 0 <==> forall|i: int|
            0 <= i < needs.len() ==> sources.contains(#[trigger] needs[i]),
    decreases needs.len(),
{
    if needs.len() > 0 {
        let rest = needs.drop_last();
        lemma_unfounded_needs(sources, id, rest);
        assert(needs[needs.len() - 1] == needs.last());
        if forall|i: int| 0 <= i < needs.len() ==> sources.contains(#[trigger] needs[i]) {
            assert forall|i: int| 0 <= i < rest.len() implies sources.contains(
                #[trigger] rest[i],
            ) by {
                assert(sources.contains(needs[i]));
            }
        }
        if (forall|i: int| 0 <= i < rest.len() ==> sources.contains(#[trigger] rest[i]))
            && sources.contains(needs.last()) {
            assert forall|i: int| 0 <= i < needs.len() implies sources.contains(
                #[trigger] needs[i],
            ) by {
                if i < rest.len() {
                    assert(sources.contains(rest[i]));
                }
            }
        }
    }
}

/// Whether a reference names the step itself or one that has completed.
spec fn reference_fine(steps: Seq<StepModel>, id: Seq<char>, path: Seq<Seq<char>>) -> bool {
    path[0] == id || is_guaranteed(steps, id, path[0])
}

proof fn lemma_sibling_references(
    steps: Seq<StepModel>,
    id: Seq<char>,
    paths: Seq<Seq<Seq<char>>>,
)
    ensures
        sibling_references(steps, id, paths).len() == 0 <==> forall|i: int|
            0 <= i < paths.len() ==> reference_fine(steps, id, #[trigger] paths[i]),
    decreases paths.len(),
{
    if paths.len() > 0 {
        let rest = paths.drop_last();
        lemma_sibling_references(steps, id, rest);
        assert(paths[paths.len() - 1] == paths.last());
        if forall|i: int| 0 <= i < paths.len() ==> reference_fine(steps, id, #[trigger] paths[i]) {
            assert forall|i: int| 0 <= i < rest.len() implies reference_fine(
                steps,
                id,
                #[trigger] rest[i],
            ) by {
                assert(reference_fine(steps, id, paths[i]));
            }
            assert(reference_fine(steps, id, paths[paths.len() - 1]));
        }
        if (forall|i: int| 0 <= i < rest.len() ==> reference_fine(steps, id, #[trigger] rest[i]))
            && reference_fine(steps, id, paths.last()) {
            assert forall|i: int| 0 <= i < paths.len() implies reference_fine(
                steps,
                id,
                #[trigger] paths[i],
            ) by {
                if i < rest.len() {
                    assert(reference_fine(steps, id, rest[i]));
                }
            }
        }
    }
}

/// Whether a reference reads no field of a cli step's output.
spec fn field_fine(steps: Seq<StepModel>, path: Seq<Seq<char>>) -> bool {
    !(reads_field(path) && is_cli_step(steps, path[0]))
}

proof fn lemma_field_references(steps: Seq<StepModel>, id: Seq<char>, paths: Seq<Seq<Seq<char>>>)
    ensures
        field_references(steps, id, paths).len() == 0 <==> forall|i: int|
            0 <= i < paths.len() ==> field_fine(steps, #[trigger] paths[i]),
    decreases paths.len(),
{
    if paths.len() > 0 {
        let rest = paths.drop_last();
        lemma_field_references(steps, id, rest);
        assert(paths[paths.len() - 1] == paths.last());
        if forall|i: int| 0 <= i < paths.len() ==> field_fine(steps, #[trigger] paths[i]) {
            assert forall|i: int| 0 <= i < rest.len() implies field_fine(
                steps,
                #[trigger] rest[i],
            ) by {
                assert(field_fine(steps, paths[i]));
            }
            assert(field_fine(steps, paths[paths.len() - 1]));
        }
        if (forall|i: int| 0 <= i < rest.len() ==> field_fine(steps, #[trigger] rest[i]))
            && field_fine(steps, paths.last()) {
            assert forall|i: int| 0 <= i < paths.len() implies field_fine(
                steps,
                #[trigger] paths[i],
            ) by {
                if i < rest.len() {
                    assert(field_fine(steps, rest[i]));
                }
            }
        }
    }
}

proof fn lemma_needs_routed(flow: FlowModel, step: StepModel)
    ensures
        (forall|i: int|
            0 <= i < step.needs.len() ==> sources_of(
                edges_of(flow.steps, false),
                step.id,
            ).contains(#[trigger] step.needs[i])) <==> keeps(
            StepRule::NeedsAreSources,
            flow,
            step,
        ),
{
    let edges = edges_of(flow.steps, false);
    assert forall|i: int| 0 <= i < step.needs.len() implies (sources_of(edges, step.id).contains(
        #[trigger] step.needs[i],
    ) <==> routes_to(flow.steps, false, step.needs[i], step.id)) by {
        edges_are_routes(flow.steps, false, step.needs[i], step.id);
        sources_are_edge_sources(edges, step.id, step.needs[i]);
    }
}

/// A step has no violation of a rule exactly where it keeps it.
pub proof fn rule_is_kept_without_violation(rule: StepRule, flow: FlowModel, step: StepModel)
    ensures
        step_rule(rule, flow, step).len() == 0 <==> keeps(rule, flow, step),
{
    let id = step.id;
    match rule {
        StepRule::TargetsExist => {
            lemma_unknown_targets(flow.steps, id, "on_success"@, targets_of(step.on_success));
            lemma_unknown_targets(flow.steps, id, "on_failure"@, targets_of(step.on_failure));
            lemma_unknown_targets(flow.steps, id, "on_approve"@, targets_of(step.on_approve));
            lemma_unknown_targets(flow.steps, id, "on_reject"@, targets_of(step.on_reject));
            lemma_unknown_needs(flow.steps, id, step.needs);
        },
        StepRule::NeedsAreSources => {
            lemma_unfounded_needs(
                sources_of(edges_of(flow.steps, false), id),
                id,
                step.needs,
            );
            lemma_needs_routed(flow, step);
        },
        StepRule::NoSiblings => {
            let paths = paths_in(templates_of(step));
            lemma_sibling_references(flow.steps, id, paths);
            assert(keeps(rule, flow, step) <==> forall|i: int|
                0 <= i < paths.len() ==> reference_fine(flow.steps, id, #[trigger] paths[i]));
        },
        StepRule::OutputReferences => {
            let paths = paths_in(templates_of(step));
            lemma_field_references(flow.steps, id, paths);
            assert(keeps(rule, flow, step) <==> forall|i: int|
                0 <= i < paths.len() ==> field_fine(flow.steps, #[trigger] paths[i]));
        },
        _ => {},
    }
}

proof fn lemma_rule(rule: StepRule, flow: FlowModel, steps: Seq<StepModel>)
    ensures
        rule_violations(rule, flow, steps).len() == 0 <==> all_keep(rule, flow, steps),
    decreases steps.len(),
{
    if steps.len() > 0 {
        let rest = steps.drop_last();
        lemma_rule(rule, flow, rest);
        rule_is_kept_without_violation(rule, flow, steps.last());
        assert(steps[steps.len() - 1] == steps.last());
        if all_keep(rule, flow, steps) {
            assert forall|i: int| 0 <= i < rest.len() implies keeps(
                rule,
                flow,
                #[trigger] rest[i],
            ) by {
                assert(keeps(rule, flow, steps[i]));
            }
            assert(keeps(rule, flow, steps[steps.len() - 1]));
        }
        if all_keep(rule, flow, rest) && keeps(rule, flow, steps.last()) {
            assert forall|i: int| 0 <= i < steps.len() implies keeps(
                rule,
                flow,
                #[trigger] steps[i],
            ) by {
                if i < rest.len() {
                    assert(keeps(rule, flow, rest[i]));
                }
            }
        }
    }
}

proof fn lemma_step_fields(steps: Seq<StepModel>)
    ensures
        steps_field_violations(steps).len() == 0 <==> forall|i: int|
            0 <= i < steps.len() ==> step_fields_sound(#[trigger] steps[i]),
    decreases steps.len(),
{
    if steps.len() > 0 {
        let rest = steps.drop_last();
        lemma_step_fields(rest);
        assert(steps[steps.len() - 1] == steps.last());
        assert(step_field_violations(steps.last()).len() == 0 <==> step_fields_sound(steps.last()));
        if forall|i: int| 0 <= i < steps.len() ==> step_fields_sound(#[trigger] steps[i]) {
            assert forall|i: int| 0 <= i < rest.len() implies step_fields_sound(
                #[trigger] rest[i],
            ) by {
                assert(step_fields_sound(steps[i]));
            }
            assert(step_fields_sound(steps[steps.len() - 1]));
        }
        if (forall|i: int| 0 <= i < rest.len() ==> step_fields_sound(#[trigger] rest[i]))
            && step_fields_sound(steps.last()) {
            assert forall|i: int| 0 <= i < steps.len() implies step_fields_sound(
                #[trigger] steps[i],
            ) by {
                if i < rest.len() {
                    assert(step_fields_sound(rest[i]));
                }
            }
        }
    }
}

proof fn lemma_fields(flow: FlowModel)
    ensures
        field_violations(flow).len() == 0 <==> fields_sound(flow),
{
    lemma_step_fields(flow.steps);
}

proof fn lemma_found_among(steps: Seq<StepModel>, id: Seq<char>)
    ensures
        find_step(steps, id) is Some <==> exists|i: int|
            0 <= i < steps.len() && (#[trigger] steps[i]).id == id,
    decreases steps.len(),
{
    if steps.len() > 0 {
        let rest = steps.drop_first();
        lemma_found_among(rest, id);
        if steps[0].id != id {
            if exists|i: int| 0 <= i < steps.len() && (#[trigger] steps[i]).id == id {
                let i = choose|i: int| 0 <= i < steps.len() && (#[trigger] steps[i]).id == id;
                assert(rest[i - 1] == steps[i]);
            }
            if exists|i: int| 0 <= i < rest.len() && (#[trigger] rest[i]).id == id {
                let i = choose|i: int| 0 <= i < rest.len() && (#[trigger] rest[i]).id == id;
                assert(steps[i + 1] == rest[i]);
            }
        }
    }
}

proof fn lemma_distinct(steps: Seq<StepModel>)
    ensures
        duplicate_ids(steps).len() == 0 <==> ids_distinct(steps),
    decreases steps.len(),
{
    if steps.len() > 0 {
        let rest = steps.drop_last();
        let last = steps.last();
        lemma_distinct(rest);
        lemma_found_among(rest, last.id);
        assert(steps[steps.len() - 1] == last);
        if ids_distinct(steps) {
            assert forall|i: int, j: int| 0 <= i < j < rest.len() implies (#[trigger] rest[i]).id
                != (#[trigger] rest[j]).id by {
                assert(steps[i].id != steps[j].id);
            }
            if exists|i: int| 0 <= i < rest.len() && (#[trigger] rest[i]).id == last.id {
                let i = choose|i: int| 0 <= i < rest.len() && (#[trigger] rest[i]).id == last.id;
                assert(steps[i].id != steps[steps.len() - 1].id);
            }
        }
        if ids_distinct(rest) && find_step(rest, last.id) is None {
            assert forall|i: int, j: int| 0 <= i < j < steps.len() implies (#[trigger] steps[i]).id
                != (#[trigger] steps[j]).id by {
                assert(rest[i] == steps[i]);
                if j < rest.len() {
                    assert(rest[j] == steps[j]);
                }
            }
        }
    }
}

/// Whether a step that the listed sources lead to says what it needs.
spec fn join_declared(steps: Seq<StepModel>, entry: (Seq<char>, Seq<Seq<char>>)) -> bool {
    entry.1.len() > 1 ==> (find_step(steps, entry.0) matches Some(step) ==> step.needs.len() > 0)
}

proof fn lemma_join_list(steps: Seq<StepModel>, incoming: Seq<(Seq<char>, Seq<Seq<char>>)>)
    ensures
        join_violations(steps, incoming).len() == 0 <==> forall|i: int|
            0 <= i < incoming.len() ==> join_declared(steps, #[trigger] incoming[i]),
    decreases incoming.len(),
{
    if incoming.len() > 0 {
        let rest = incoming.drop_last();
        lemma_join_list(steps, rest);
        assert(incoming[incoming.len() - 1] == incoming.last());
        if forall|i: int| 0 <= i < incoming.len() ==> join_declared(steps, #[trigger] incoming[i]) {
            assert forall|i: int| 0 <= i < rest.len() implies join_declared(
                steps,
                #[trigger] rest[i],
            ) by {
                assert(join_declared(steps, incoming[i]));
            }
            assert(join_declared(steps, incoming[incoming.len() - 1]));
        }
        if (forall|i: int| 0 <= i < rest.len() ==> join_declared(steps, #[trigger] rest[i]))
            && join_declared(steps, incoming.last()) {
            assert forall|i: int| 0 <= i < incoming.len() implies join_declared(
                steps,
                #[trigger] incoming[i],
            ) by {
                if i < rest.len() {
                    assert(join_declared(steps, rest[i]));
                }
            }
        }
    }
}

proof fn lemma_listed_once(names: Seq<Seq<char>>, x: Seq<char>)
    ensures
        first_occurrences(names).contains(x) <==> names.contains(x),
    decreases names.len(),
{
    if names.len() > 0 {
        let rest = names.drop_last();
        let before = first_occurrences(rest);
        lemma_listed_once(rest, x);
        lemma_listed_once(rest, names.last());
        let all = first_occurrences(names);
        assert(names[names.len() - 1] == names.last());
        if rest.contains(x) {
            let k = choose|k: int| 0 <= k < rest.len() && rest[k] == x;
            assert(names[k] == x);
            let j = choose|j: int| 0 <= j < before.len() && before[j] == x;
            assert(all[j] == x);
        }
        if !before.contains(names.last()) {
            assert(all[before.len() as int] == names.last());
        }
        if all.contains(x) {
            let j = choose|j: int| 0 <= j < all.len() && all[j] == x;
            if j < before.len() {
                assert(before[j] == x);
            }
        }
        if names.contains(x) {
            let k = choose|k: int| 0 <= k < names.len() && names[k] == x;
            if k < rest.len() {
                assert(rest[k] == x);
            }
        }
    }
}

proof fn lemma_joins(steps: Seq<StepModel>)
    ensures
        join_violations(steps, incoming_of(edges_of(steps, false))).len() == 0 <==> joins_declared(
            steps,
        ),
{
    let edges = edges_of(steps, false);
    let incoming = incoming_of(edges);
    let heads = heads_of(edges);
    let targets = first_occurrences(heads);
    lemma_join_list(steps, incoming);
    if joins_declared(steps) {
        assert forall|i: int| 0 <= i < incoming.len() implies join_declared(
            steps,
            #[trigger] incoming[i],
        ) by {
            assert(incoming[i] == (targets[i], sources_of(edges, targets[i])));
        }
    }
    if forall|i: int| 0 <= i < incoming.len() ==> join_declared(steps, #[trigger] incoming[i]) {
        assert forall|id: Seq<char>| (#[trigger] sources_of(edges, id)).len() > 1 implies (
        find_step(steps, id) matches Some(step) ==> step.needs.len() > 0) by {
            let source = sources_of(edges, id)[0];
            assert(sources_of(edges, id).contains(source));
            sources_are_edge_sources(edges, id, source);
            let k = choose|k: int| 0 <= k < edges.len() && edges[k] == (id, source);
            assert(heads[k] == id);
            assert(heads.contains(id));
            lemma_listed_once(heads, id);
            let i = choose|i: int| 0 <= i < targets.len() && targets[i] == id;
            assert(incoming[i] == (id, sources_of(edges, id)));
            assert(join_declared(steps, incoming[i]));
        }
    }
}

proof fn lemma_cycles(steps: Seq<StepModel>)
    ensures
        cycle_violations(steps).len() == 0 <==> is_acyclic(graph_of(steps, true)),
{
    cycle_report_is_exact(steps);
}

/// Validation finds nothing exactly where the flow is sound.
pub proof fn valid_flows_are_sound(flow: FlowModel)
    ensures
        violations_of(flow).len() == 0 <==> is_sound(flow),
{
    let steps = flow.steps;
    lemma_fields(flow);
    lemma_distinct(steps);
    lemma_rule(StepRule::WithShape, flow, steps);
    lemma_rule(StepRule::TargetsExist, flow, steps);
    lemma_cycles(steps);
    lemma_joins(steps);
    lemma_rule(StepRule::NeedsAreSources, flow, steps);
    lemma_rule(StepRule::HumanLoopPairs, flow, steps);
    lemma_rule(StepRule::RejectInput, flow, steps);
    lemma_rule(StepRule::NoSiblings, flow, steps);
    lemma_rule(StepRule::OutputReferences, flow, steps);
    lemma_rule(StepRule::NoRecursion, flow, steps);
    let entry = entry_violations(steps);
    let total = violations_of(flow).len();
    let sum = field_violations(flow).len() + duplicate_ids(steps).len() + rule_violations(
        StepRule::WithShape,
        flow,
        steps,
    ).len() + rule_violations(StepRule::TargetsExist, flow, steps).len() + entry.len()
        + cycle_violations(steps).len() + join_violations(
        steps,
        incoming_of(edges_of(steps, false)),
    ).len() + rule_violations(StepRule::NeedsAreSources, flow, steps).len() + rule_violations(
        StepRule::HumanLoopPairs,
        flow,
        steps,
    ).len() + rule_violations(StepRule::RejectInput, flow, steps).len() + rule_violations(
        StepRule::NoSiblings,
        flow,
        steps,
    ).len() + rule_violations(StepRule::OutputReferences, flow, steps).len() + rule_violations(
        StepRule::NoRecursion,
        flow,
        steps,
    ).len();
    assert(total == sum);
    assert(steps.len() > 0 ==> (entry.len() == 0 <==> entries_of(steps).len() == 1));
    assert(steps.len() == 0 ==> !fields_sound(flow));
}

/// A single target is short for a list of one.
pub proof fn one_target_is_a_list_of_one(target: String, list: Vec<String>)
    requires
        list.deep_view() == seq![target@],
    ensures
        RouteTarget::One(target)@ == RouteTarget::Many(list)@,
{
}

} // verus!
