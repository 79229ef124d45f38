//! The rules that a flow definition has to meet before it can run.
use super::dag::{
    self, edges_of, entries_of, first_occurrences, graph_of, ids_of, incoming_of, self_rejecting,
    sources_of, targets_of,
};
use super::schema::{field_violations, validate_fields, ViolationModel};
use super::types::{
    find_step, step_kind, type_text, FlowDefinition, FlowModel, RouteTarget, Step, StepModel,
    StepWith, StepWithModel, DONE,
};
use crate::copy::{lemma_push, Duplicate};
use crate::graph::{first_cycle_of, has_name, reached, reaches, sorted_names, successors_of};
use crate::text::{
    begins, cat2, cat3, cat5, cat7, chars_of, decimal, decimal_text, find_pair, join, joined,
    lemma_pair_at, pair_at, same_text, split, split_on, starts_with, string_of, trim, trimmed,
};
use vstd::prelude::*;
use vstd::slice::slice_subrange;

verus! {

/// A rule that a flow breaks.
#[derive(Debug, PartialEq, Eq)]
pub struct Violation {
    pub rule: &'static str,
    pub step: Option<String>,
    pub message: String,
}

impl View for Violation {
    type V = ViolationModel;

    open spec fn view(&self) -> ViolationModel {
        ViolationModel {
            rule: self.rule@,
            step: self.step.deep_view(),
            message: self.message@,
        }
    }
}

impl DeepView for Violation {
    type V = ViolationModel;

    open spec fn deep_view(&self) -> ViolationModel {
        self@
    }
}

/// A violation of `rule` with its message.
pub open spec fn violation(
    rule: Seq<char>,
    step: Option<Seq<char>>,
    message: Seq<char>,
) -> ViolationModel {
    ViolationModel { rule, step, message }
}

fn v(rule: &'static str, step: Option<&str>, message: String) -> (r: Violation)
    ensures
        r@ == violation(rule@, step.deep_view(), message@),
{
    Violation {
        rule,
        step: match step {
            Some(s) => Some(s.to_owned()),
            None => None,
        },
        message,
    }
}

fn report(out: &mut Vec<Violation>, rule: &'static str, step: Option<&str>, message: String)
    ensures
        final(out).deep_view() == old(out).deep_view().push(
            violation(rule@, step.deep_view(), message@),
        ),
{
    let ghost before = *out;
    let found = v(rule, step, message);
    out.push(found);
    proof {
        lemma_push(before, *out, found);
    }
}

/// The expressions of the `{{ .. }}` spans of a template, in order, without
/// the white space around them. A span that is never closed ends the list.
pub open spec fn span_exprs(text: Seq<char>) -> Seq<Seq<char>>
    decreases text.len(),
{
    match pair_at(text, '{', '{') {
        None => Seq::empty(),
        Some(start) => {
            let after = text.skip(start + 2);
            match pair_at(after, '}', '}') {
                None => Seq::empty(),
                Some(end) => {
                    proof {
                        lemma_pair_at(text, '{', '{');
                        lemma_pair_at(after, '}', '}');
                    }
                    seq![trimmed(after.take(end))] + span_exprs(after.skip(end + 2))
                },
            }
        },
    }
}

/// Lists the expressions of the spans of a template.
pub fn list_spans(text: &str) -> (r: Vec<String>)
    ensures
        r.deep_view() == span_exprs(text@),
{
    let chars = chars_of(text);
    let all = chars.as_slice();
    let mut from: usize = 0;
    let mut out: Vec<String> = Vec::new();
    proof {
        assert(all@.skip(0) =~= all@);
        assert(out.deep_view() + span_exprs(all@) =~= span_exprs(all@));
    }
    loop
        invariant
            from <= all@.len(),
            all@ == text@,
            out.deep_view() + span_exprs(all@.skip(from as int)) == span_exprs(text@),
        decreases all@.len() - from,
    {
        let rest = slice_subrange(all, from, all.len());
        proof {
            assert(rest@ =~= all@.skip(from as int));
            lemma_pair_at(rest@, '{', '{');
        }
        match find_pair(rest, '{', '{') {
            None => {
                proof {
                    assert(out.deep_view() + Seq::<Seq<char>>::empty() =~= out.deep_view());
                }
                return out;
            },
            Some(start) => {
                let after = slice_subrange(rest, start + 2, rest.len());
                proof {
                    assert(after@ =~= rest@.skip(start + 2));
                    lemma_pair_at(after@, '}', '}');
                }
                match find_pair(after, '}', '}') {
                    None => {
                        proof {
                            assert(out.deep_view() + Seq::<Seq<char>>::empty() =~= out.deep_view());
                        }
                        return out;
                    },
                    Some(end) => {
                        let inner = slice_subrange(after, 0, end);
                        let expr = string_of(trim(inner));
                        let ghost before = out;
                        let ghost tail = span_exprs(after@.skip(end + 2));
                        out.push(expr);
                        proof {
                            lemma_push(before, out, expr);
                            assert(inner@ =~= after@.take(end as int));
                            assert(after@.skip(end + 2) =~= all@.skip(from + start + 2 + end + 2));
                            assert(before.deep_view() + (seq![expr@] + tail) =~= out.deep_view()
                                + tail);
                        }
                        from = from + start + 2 + end + 2;
                    },
                }
            },
        }
    }
}

/// The id and the parts after it in an expression that starts with `steps.`.
pub open spec fn step_path(expr: Seq<char>) -> Option<Seq<Seq<char>>> {
    if begins(expr, "steps."@) {
        Some(split_on(expr.skip("steps."@.len() as int), '.'))
    } else {
        None
    }
}

/// Whether the parts of a step path reach into the step's output.
pub open spec fn reads_field(parts: Seq<Seq<char>>) -> bool {
    parts.len() > 2 && parts[1] == "output"@
}

fn read_step_path(expr: &str) -> (r: Option<Vec<String>>)
    ensures
        r.deep_view() == step_path(expr@),
        r matches Some(parts) ==> parts@.len() >= 1,
{
    let chars = chars_of(expr);
    let prefix = chars_of("steps.");
    if starts_with(chars.as_slice(), prefix.as_slice()) {
        let rest = slice_subrange(chars.as_slice(), prefix.len(), chars.len());
        proof {
            assert(rest@ =~= expr@.skip("steps."@.len() as int));
        }
        Some(split(rest, '.'))
    } else {
        None
    }
}

/// The templates of a step: the input of a cli step, and its `reject_input`.
pub open spec fn templates_of(step: StepModel) -> Seq<Seq<char>> {
    (match step_kind(step) {
        Some(StepWithModel::Cli(with)) => seq![with.input],
        _ => Seq::empty(),
    }) + (match step.reject_input {
        Some(t) => seq![t],
        None => Seq::empty(),
    })
}

fn list_templates(step: &Step) -> (r: Vec<String>)
    ensures
        r.deep_view() == templates_of(step@),
{
    let mut out: Vec<String> = Vec::new();
    match step.kind() {
        Some(StepWith::Cli { with }) => {
            out.push(with.input);
        },
        _ => {},
    }
    match &step.reject_input {
        Some(t) => {
            out.push(t.clone());
        },
        None => {},
    }
    proof {
        assert(out.deep_view() =~= templates_of(step@));
    }
    out
}

/// The step paths among `exprs`.
pub open spec fn paths_among(exprs: Seq<Seq<char>>) -> Seq<Seq<Seq<char>>>
    decreases exprs.len(),
{
    if exprs.len() == 0 {
        Seq::empty()
    } else {
        match step_path(exprs.last()) {
            Some(parts) => paths_among(exprs.drop_last()).push(parts),
            None => paths_among(exprs.drop_last()),
        }
    }
}

/// The step paths that the spans of `templates` hold, in order.
pub open spec fn paths_in(templates: Seq<Seq<char>>) -> Seq<Seq<Seq<char>>>
    decreases templates.len(),
{
    if templates.len() == 0 {
        Seq::empty()
    } else {
        paths_in(templates.drop_last()) + paths_among(span_exprs(templates.last()))
    }
}

/// The `steps.` references in the templates of a step, each as its id and the
/// parts after it.
fn step_template_refs(step: &Step) -> (r: Vec<Vec<String>>)
    ensures
        r.deep_view() == paths_in(templates_of(step@)),
        forall|i: int| 0 <= i < r@.len() ==> (#[trigger] r@[i])@.len() >= 1,
{
    let templates = list_templates(step);
    let ghost all = templates.deep_view();
    let mut out: Vec<Vec<String>> = Vec::new();
    let mut i: usize = 0;
    proof {
        assert(out.deep_view() =~= paths_in(all.take(0)));
    }
    while i < templates.len()
        invariant
            i <= templates@.len(),
            all == templates.deep_view(),
            out.deep_view() == paths_in(all.take(i as int)),
            forall|k: int| 0 <= k < out@.len() ==> (#[trigger] out@[k])@.len() >= 1,
        decreases templates@.len() - i,
    {
        proof {
            assert(all.take(i + 1).drop_last() =~= all.take(i as int));
            assert(all[i as int] == templates@[i as int]@);
        }
        let exprs = list_spans(templates[i].as_str());
        let ghost spans = exprs.deep_view();
        let ghost start = out.deep_view();
        let mut j: usize = 0;
        proof {
            assert(start + paths_among(spans.take(0)) =~= start);
        }
        while j < exprs.len()
            invariant
                j <= exprs@.len(),
                spans == exprs.deep_view(),
                out.deep_view() == start + paths_among(spans.take(j as int)),
                forall|k: int| 0 <= k < out@.len() ==> (#[trigger] out@[k])@.len() >= 1,
            decreases exprs@.len() - j,
        {
            proof {
                assert(spans.take(j + 1).drop_last() =~= spans.take(j as int));
                assert(spans[j as int] == exprs@[j as int]@);
            }
            match read_step_path(exprs[j].as_str()) {
                Some(parts) => {
                    let ghost before = out;
                    out.push(parts);
                    proof {
                        lemma_push(before, out, parts);
                        assert((start + paths_among(spans.take(j as int))).push(parts.deep_view())
                            =~= start + paths_among(spans.take(j as int)).push(parts.deep_view()));
                    }
                },
                None => {},
            }
            j = j + 1;
        }
        proof {
            assert(spans.take(j as int) =~= spans);
        }
        i = i + 1;
    }
    proof {
        assert(all.take(i as int) =~= all);
    }
    out
}

/// Those of `names` that are ids of `steps`.
pub open spec fn existing(steps: Seq<StepModel>, names: Seq<Seq<char>>) -> Seq<Seq<char>>
    decreases names.len(),
{
    if names.len() == 0 {
        Seq::empty()
    } else if find_step(steps, names.last()) is Some {
        existing(steps, names.drop_last()).push(names.last())
    } else {
        existing(steps, names.drop_last())
    }
}

/// The steps that have completed whenever `id` starts, one step back: the
/// source of the only edge to it; where there is no edge or more than one, the
/// steps of its `needs`.
pub open spec fn predecessors(steps: Seq<StepModel>, id: Seq<char>) -> Seq<Seq<char>> {
    let sources = sources_of(edges_of(steps, false), id);
    if sources.len() == 1 {
        sources
    } else {
        match find_step(steps, id) {
            Some(step) => existing(steps, step.needs),
            None => Seq::empty(),
        }
    }
}

/// Every step id with its predecessors.
pub open spec fn predecessor_graph(steps: Seq<StepModel>) -> Seq<(Seq<char>, Seq<Seq<char>>)> {
    let ids = first_occurrences(ids_of(steps));
    Seq::new(ids.len(), |i: int| (ids[i], predecessors(steps, ids[i])))
}

/// Whether `other` has completed whenever `id` starts.
pub open spec fn is_guaranteed(
    steps: Seq<StepModel>,
    id: Seq<char>,
    other: Seq<char>,
) -> bool {
    reaches(predecessor_graph(steps), predecessors(steps, id), other)
}

fn list_existing(flow: &FlowDefinition, names: &Vec<String>) -> (r: Vec<String>)
    ensures
        r.deep_view() == existing(flow@.steps, names.deep_view()),
{
    let mut out: Vec<String> = Vec::new();
    let ghost all = names.deep_view();
    let mut i: usize = 0;
    proof {
        assert(out.deep_view() =~= existing(flow@.steps, all.take(0)));
    }
    while i < names.len()
        invariant
            i <= names@.len(),
            all == names.deep_view(),
            out.deep_view() == existing(flow@.steps, all.take(i as int)),
        decreases names@.len() - i,
    {
        proof {
            assert(all.take(i + 1).drop_last() =~= all.take(i as int));
            assert(all[i as int] == names@[i as int]@);
        }
        if flow.step(names[i].as_str()).is_some() {
            let ghost before = out;
            let name = names[i].clone();
            out.push(name);
            proof {
                lemma_push(before, out, name);
            }
        }
        i = i + 1;
    }
    proof {
        assert(all.take(i as int) =~= all);
    }
    out
}

fn list_predecessors(flow: &FlowDefinition, incoming: &Vec<(String, Vec<String>)>, id: &str) -> (r:
    Vec<String>)
    requires
        incoming.deep_view() == incoming_of(edges_of(flow@.steps, false)),
    ensures
        r.deep_view() == predecessors(flow@.steps, id@),
{
    proof {
        dag::lemma_incoming_sources(edges_of(flow@.steps, false), id@);
    }
    match successors_of(incoming, id) {
        Some(sources) => {
            if sources.len() == 1 {
                return sources.duplicate();
            }
        },
        None => {},
    }
    match flow.step(id) {
        Some(step) => list_existing(flow, &step.needs),
        None => {
            let none: Vec<String> = Vec::new();
            proof {
                assert(none.deep_view() =~= Seq::<Seq<char>>::empty());
            }
            none
        },
    }
}

/// Every step with its predecessors.
fn list_predecessor_graph(
    flow: &FlowDefinition,
    incoming: &Vec<(String, Vec<String>)>,
) -> (r: Vec<(String, Vec<String>)>)
    requires
        incoming.deep_view() == incoming_of(edges_of(flow@.steps, false)),
    ensures
        r.deep_view() == predecessor_graph(flow@.steps),
{
    let names = dag::list_ids(flow);
    let ghost ids = names.deep_view();
    let ghost whole = predecessor_graph(flow@.steps);
    let mut out: Vec<(String, Vec<String>)> = Vec::new();
    let mut i: usize = 0;
    proof {
        assert(out.deep_view() =~= whole.take(0));
    }
    while i < names.len()
        invariant
            i <= names@.len(),
            ids == names.deep_view(),
            ids == first_occurrences(ids_of(flow@.steps)),
            whole == predecessor_graph(flow@.steps),
            incoming.deep_view() == incoming_of(edges_of(flow@.steps, false)),
            out.deep_view() == whole.take(i as int),
        decreases names@.len() - i,
    {
        let ghost before = out;
        let entry = (names[i].clone(), list_predecessors(flow, incoming, names[i].as_str()));
        out.push(entry);
        proof {
            lemma_push(before, out, entry);
            assert(ids[i as int] == names@[i as int]@);
            assert(whole.take(i + 1) =~= whole.take(i as int).push(whole[i as int]));
        }
        i = i + 1;
    }
    proof {
        assert(whole.take(i as int) =~= whole);
    }
    out
}

/// The steps that have completed whenever `step_id` starts: everything back
/// along the only edges to a step and along `needs`.
pub fn guaranteed_predecessors(flow: &FlowDefinition, step_id: &str) -> (r: Vec<String>)
    ensures
        r.deep_view().no_duplicates(),
        forall|x: Seq<char>| #[trigger]
            r.deep_view().contains(x) <==> is_guaranteed(flow@.steps, step_id@, x),
{
    let incoming = dag::steps_with_incoming_edges(flow);
    let graph = list_predecessor_graph(flow, &incoming);
    let starts = list_predecessors(flow, &incoming, step_id);
    reached(&graph, &starts)
}

/// The rules that look at one step at a time.
#[derive(Debug, Clone, Copy, PartialEq, Eq, Structural)]
pub enum StepRule {
    /// The `with` block has the shape that the step's type requires.
    WithShape,
    /// Every target and every needed step exists.
    TargetsExist,
    /// A needed step routes to the step that needs it.
    NeedsAreSources,
    /// `on_approve` and `on_reject` go with `human_loop`, both or neither.
    HumanLoopPairs,
    /// `reject_input` goes with an `on_reject` that loops back.
    RejectInput,
    /// A template refers only to steps that have completed by then.
    NoSiblings,
    /// A template reads no field of a cli step's output.
    OutputReferences,
    /// The flow does not call itself.
    NoRecursion,
}

/// The violations of a list of targets.
pub open spec fn unknown_targets(
    steps: Seq<StepModel>,
    id: Seq<char>,
    field: Seq<char>,
    targets: Seq<Seq<char>>,
) -> Seq<ViolationModel>
    decreases targets.len(),
{
    if targets.len() == 0 {
        Seq::empty()
    } else {
        let before = unknown_targets(steps, id, field, targets.drop_last());
        if targets.last() == DONE@ || find_step(steps, targets.last()) is Some {
            before
        } else {
            before.push(
                violation(
                    "routing_target_exists"@,
                    Some(id),
                    "step '"@ + id + "' "@ + field + " targets unknown step '"@ + targets.last()
                        + "'"@,
                ),
            )
        }
    }
}

/// The violations of a `needs` list that names unknown steps.
pub open spec fn unknown_needs(
    steps: Seq<StepModel>,
    id: Seq<char>,
    needs: Seq<Seq<char>>,
) -> Seq<ViolationModel>
    decreases needs.len(),
{
    if needs.len() == 0 {
        Seq::empty()
    } else {
        let before = unknown_needs(steps, id, needs.drop_last());
        if find_step(steps, needs.last()) is Some {
            before
        } else {
            before.push(
                violation(
                    "routing_target_exists"@,
                    Some(id),
                    "step '"@ + id + "' needs unknown step '"@ + needs.last() + "'"@,
                ),
            )
        }
    }
}

/// The violations of a `needs` list that names steps without an edge to it.
pub open spec fn unfounded_needs(
    sources: Seq<Seq<char>>,
    id: Seq<char>,
    needs: Seq<Seq<char>>,
) -> Seq<ViolationModel>
    decreases needs.len(),
{
    if needs.len() == 0 {
        Seq::empty()
    } else {
        let before = unfounded_needs(sources, id, needs.drop_last());
        if sources.contains(needs.last()) {
            before
        } else {
            before.push(
                violation(
                    "needs_matches_sources"@,
                    Some(id),
                    "step '"@ + id + "' declares needs '"@ + needs.last() + "' but '"@
                        + needs.last() + "' does not route to it"@,
                ),
            )
        }
    }
}

/// The violations of references to steps that may not have completed.
pub open spec fn sibling_references(
    steps: Seq<StepModel>,
    id: Seq<char>,
    paths: Seq<Seq<Seq<char>>>,
) -> Seq<ViolationModel>
    decreases paths.len(),
{
    if paths.len() == 0 {
        Seq::empty()
    } else {
        let before = sibling_references(steps, id, paths.drop_last());
        let other = paths.last()[0];
        if other == id || is_guaranteed(steps, id, other) {
            before
        } else {
            before.push(
                violation(
                    "no_cross_sibling_references"@,
                    Some(id),
                    "step '"@ + id + "' references steps."@ + other
                        + ", which is not a guaranteed predecessor (needs: or sole routing chain)"@,
                ),
            )
        }
    }
}

/// Whether `id` names a cli step whose `with` block can be read.
pub open spec fn is_cli_step(steps: Seq<StepModel>, id: Seq<char>) -> bool {
    match find_step(steps, id) {
        Some(step) => step_kind(step) matches Some(StepWithModel::Cli(_)),
        None => false,
    }
}

/// The violations of references into the output of a cli step.
pub open spec fn field_references(
    steps: Seq<StepModel>,
    id: Seq<char>,
    paths: Seq<Seq<Seq<char>>>,
) -> Seq<ViolationModel>
    decreases paths.len(),
{
    if paths.len() == 0 {
        Seq::empty()
    } else {
        let before = field_references(steps, id, paths.drop_last());
        let other = paths.last()[0];
        if reads_field(paths.last()) && is_cli_step(steps, other) {
            before.push(
                violation(
                    "output_reference_valid"@,
                    Some(id),
                    "step '"@ + id + "' references steps."@ + other + ".output.<field>, but '"@
                        + other
                        + "' is a cli step (output is a single value, not a named-field object)"@,
                ),
            )
        } else {
            before
        }
    }
}

/// The violations of one rule in one step.
pub open spec fn step_rule(rule: StepRule, flow: FlowModel, step: StepModel) -> Seq<
    ViolationModel,
> {
    let id = step.id;
    match rule {
        StepRule::WithShape => if step_kind(step) is None {
            seq![
                violation(
                    "type_with_consistency"@,
                    Some(id),
                    "step '"@ + id + "' has type '"@ + type_text(step.step_type)
                        + "' but its 'with' block doesn't match that type's required shape"@,
                ),
            ]
        } else {
            Seq::empty()
        },
        StepRule::TargetsExist => unknown_targets(
            flow.steps,
            id,
            "on_success"@,
            targets_of(step.on_success),
        ) + unknown_targets(flow.steps, id, "on_failure"@, targets_of(step.on_failure))
            + unknown_targets(flow.steps, id, "on_approve"@, targets_of(step.on_approve))
            + unknown_targets(flow.steps, id, "on_reject"@, targets_of(step.on_reject))
            + unknown_needs(flow.steps, id, step.needs),
        StepRule::NeedsAreSources => unfounded_needs(
            sources_of(edges_of(flow.steps, false), id),
            id,
            step.needs,
        ),
        StepRule::HumanLoopPairs => if step.human_loop && (step.on_approve is None
            || step.on_reject is None) {
            seq![
                violation(
                    "human_loop_routing_pairs"@,
                    Some(id),
                    "step '"@ + id
                        + "' has human_loop: true and must declare both on_approve and on_reject"@,
                ),
            ]
        } else if !step.human_loop && (step.on_approve is Some || step.on_reject is Some) {
            seq![
                violation(
                    "human_loop_routing_pairs"@,
                    Some(id),
                    "step '"@ + id + "' declares on_approve/on_reject without human_loop: true"@,
                ),
            ]
        } else {
            Seq::empty()
        },
        StepRule::RejectInput => if step.reject_input is Some && !self_rejecting(step) {
            seq![
                violation(
                    "reject_input_self_loop_only"@,
                    Some(id),
                    "step '"@ + id + "' declares reject_input but on_reject does not self-loop"@,
                ),
            ]
        } else {
            Seq::empty()
        },
        StepRule::NoSiblings => sibling_references(flow.steps, id, paths_in(templates_of(step))),
        StepRule::OutputReferences => field_references(
            flow.steps,
            id,
            paths_in(templates_of(step)),
        ),
        StepRule::NoRecursion => match step_kind(step) {
            Some(StepWithModel::Subflow(with)) => if with.flow == flow.name {
                seq![
                    violation(
                        "no_subflow_recursion"@,
                        Some(id),
                        "step '"@ + id + "' invokes '"@ + with.flow
                            + "' as a subflow, which is this same flow (direct recursion is forbidden)"@,
                    ),
                ]
            } else {
                Seq::empty()
            },
            _ => Seq::empty(),
        },
    }
}

/// The violations of one rule in several steps.
pub open spec fn rule_violations(
    rule: StepRule,
    flow: FlowModel,
    steps: Seq<StepModel>,
) -> Seq<ViolationModel>
    decreases steps.len(),
{
    if steps.len() == 0 {
        Seq::empty()
    } else {
        rule_violations(rule, flow, steps.drop_last()) + step_rule(rule, flow, steps.last())
    }
}

/// The violations of steps whose id an earlier step has.
pub open spec fn duplicate_ids(steps: Seq<StepModel>) -> Seq<ViolationModel>
    decreases steps.len(),
{
    if steps.len() == 0 {
        Seq::empty()
    } else {
        let before = duplicate_ids(steps.drop_last());
        let id = steps.last().id;
        if find_step(steps.drop_last(), id) is Some {
            before.push(
                violation("unique_step_ids"@, Some(id), "duplicate step id '"@ + id + "'"@),
            )
        } else {
            before
        }
    }
}

/// The violation of a flow with no entry step, or with several.
pub open spec fn entry_violations(steps: Seq<StepModel>) -> Seq<ViolationModel> {
    let entries = entries_of(steps);
    if steps.len() == 0 || entries.len() == 1 {
        Seq::empty()
    } else {
        seq![
            violation(
                "exactly_one_entry_step"@,
                None,
                "flow must have exactly one entry step (no incoming routing edges); found "@
                    + decimal(entries.len()) + ": ["@ + joined(entries, ", "@) + "]"@,
            ),
        ]
    }
}

/// The violation of a flow whose forward routes lead round.
pub open spec fn cycle_violations(steps: Seq<StepModel>) -> Seq<ViolationModel> {
    match first_cycle_of(
        graph_of(steps, true),
        sorted_names(first_occurrences(ids_of(steps))),
    ) {
        Some(cycle) => seq![
            violation(
                "acyclic"@,
                None,
                "routing graph contains a cycle: "@ + joined(cycle, " -> "@),
            ),
        ],
        None => Seq::empty(),
    }
}

/// The violations of steps with several incoming edges and no `needs`.
pub open spec fn join_violations(
    steps: Seq<StepModel>,
    incoming: Seq<(Seq<char>, Seq<Seq<char>>)>,
) -> Seq<ViolationModel>
    decreases incoming.len(),
{
    if incoming.len() == 0 {
        Seq::empty()
    } else {
        let before = join_violations(steps, incoming.drop_last());
        let (target, sources) = incoming.last();
        match find_step(steps, target) {
            Some(step) => if sources.len() > 1 && step.needs.len() == 0 {
                before.push(
                    violation(
                        "multi_target_needs_join"@,
                        Some(target),
                        "step '"@ + target + "' is targeted by "@ + decimal(sources.len())
                            + " routing sources but declares no needs:"@,
                    ),
                )
            } else {
                before
            },
            None => before,
        }
    }
}

/// Everything that is wrong with a flow, rule by rule.
pub open spec fn violations_of(flow: FlowModel) -> Seq<ViolationModel> {
    let steps = flow.steps;
    field_violations(flow) + duplicate_ids(steps) + rule_violations(
        StepRule::WithShape,
        flow,
        steps,
    ) + rule_violations(StepRule::TargetsExist, flow, steps) + entry_violations(steps)
        + cycle_violations(steps) + join_violations(steps, incoming_of(edges_of(steps, false)))
        + rule_violations(StepRule::NeedsAreSources, flow, steps) + rule_violations(
        StepRule::HumanLoopPairs,
        flow,
        steps,
    ) + rule_violations(StepRule::RejectInput, flow, steps) + rule_violations(
        StepRule::NoSiblings,
        flow,
        steps,
    ) + rule_violations(StepRule::OutputReferences, flow, steps) + rule_violations(
        StepRule::NoRecursion,
        flow,
        steps,
    )
}

fn check_targets(
    flow: &FlowDefinition,
    id: &str,
    field: &'static str,
    route: &Option<RouteTarget>,
    out: &mut Vec<Violation>,
)
    ensures
        final(out).deep_view() == old(out).deep_view() + unknown_targets(
            flow@.steps,
            id@,
            field@,
            targets_of(route.deep_view()),
        ),
{
    let ghost start = out.deep_view();
    match route {
        Some(r) => {
            let targets = r.as_slice();
            let ghost all = targets.deep_view();
            let mut i: usize = 0;
            proof {
                assert(start + unknown_targets(flow@.steps, id@, field@, all.take(0)) =~= start);
            }
            while i < targets.len()
                invariant
                    i <= targets@.len(),
                    all == targets.deep_view(),
                    out.deep_view() == start + unknown_targets(
                        flow@.steps,
                        id@,
                        field@,
                        all.take(i as int),
                    ),
                decreases targets@.len() - i,
            {
                let t = targets[i];
                proof {
                    assert(all.take(i + 1).drop_last() =~= all.take(i as int));
                    assert(all[i as int] == t@);
                }
                if !dag::target_is_valid(flow, t) {
                    report(
                        out,
                        "routing_target_exists",
                        Some(id),
                        cat7("step '", id, "' ", field, " targets unknown step '", t, "'"),
                    );
                }
                proof {
                    assert(out.deep_view() =~= start + unknown_targets(
                        flow@.steps,
                        id@,
                        field@,
                        all.take(i + 1),
                    ));
                }
                i = i + 1;
            }
            proof {
                assert(all.take(i as int) =~= all);
            }
        },
        None => {
            proof {
                assert(start + Seq::<ViolationModel>::empty() =~= start);
            }
        },
    }
}

fn check_needs_exist(flow: &FlowDefinition, step: &Step, out: &mut Vec<Violation>)
    ensures
        final(out).deep_view() == old(out).deep_view() + unknown_needs(
            flow@.steps,
            step.id@,
            step@.needs,
        ),
{
    let ghost start = out.deep_view();
    let ghost all = step@.needs;
    let mut i: usize = 0;
    proof {
        assert(start + unknown_needs(flow@.steps, step.id@, all.take(0)) =~= start);
    }
    while i < step.needs.len()
        invariant
            i <= step.needs@.len(),
            all == step@.needs,
            all == step.needs.deep_view(),
            out.deep_view() == start + unknown_needs(flow@.steps, step.id@, all.take(i as int)),
        decreases step.needs@.len() - i,
    {
        let needed = step.needs[i].as_str();
        proof {
            assert(all.take(i + 1).drop_last() =~= all.take(i as int));
            assert(all[i as int] == needed@);
        }
        if flow.step(needed).is_none() {
            report(
                out,
                "routing_target_exists",
                Some(step.id.as_str()),
                cat5("step '", step.id.as_str(), "' needs unknown step '", needed, "'"),
            );
        }
        proof {
            assert(out.deep_view() =~= start + unknown_needs(flow@.steps, step.id@, all.take(i + 1)));
        }
        i = i + 1;
    }
    proof {
        assert(all.take(i as int) =~= all);
    }
}

fn check_needs_sources(flow: &FlowDefinition, step: &Step, out: &mut Vec<Violation>)
    ensures
        final(out).deep_view() == old(out).deep_view() + unfounded_needs(
            sources_of(edges_of(flow@.steps, false), step.id@),
            step.id@,
            step@.needs,
        ),
{
    let incoming = dag::steps_with_incoming_edges(flow);
    let none: Vec<String> = Vec::new();
    let ghost edges = edges_of(flow@.steps, false);
    proof {
        dag::lemma_incoming_sources(edges, step.id@);
    }
    let sources = match successors_of(&incoming, step.id.as_str()) {
        Some(s) => s,
        None => &none,
    };
    proof {
        assert(sources.deep_view() =~= sources_of(edges, step.id@));
    }
    let ghost known = sources.deep_view();
    let ghost start = out.deep_view();
    let ghost all = step@.needs;
    let mut i: usize = 0;
    proof {
        assert(start + unfounded_needs(known, step.id@, all.take(0)) =~= start);
    }
    while i < step.needs.len()
        invariant
            i <= step.needs@.len(),
            all == step@.needs,
            all == step.needs.deep_view(),
            known == sources.deep_view(),
            out.deep_view() == start + unfounded_needs(known, step.id@, all.take(i as int)),
        decreases step.needs@.len() - i,
    {
        let needed = step.needs[i].as_str();
        proof {
            assert(all.take(i + 1).drop_last() =~= all.take(i as int));
            assert(all[i as int] == needed@);
        }
        if !has_name(sources, needed) {
            report(
                out,
                "needs_matches_sources",
                Some(step.id.as_str()),
                cat7(
                    "step '",
                    step.id.as_str(),
                    "' declares needs '",
                    needed,
                    "' but '",
                    needed,
                    "' does not route to it",
                ),
            );
        }
        proof {
            assert(out.deep_view() =~= start + unfounded_needs(known, step.id@, all.take(i + 1)));
        }
        i = i + 1;
    }
    proof {
        assert(all.take(i as int) =~= all);
    }
}

fn check_siblings(flow: &FlowDefinition, step: &Step, out: &mut Vec<Violation>)
    ensures
        final(out).deep_view() == old(out).deep_view() + sibling_references(
            flow@.steps,
            step.id@,
            paths_in(templates_of(step@)),
        ),
{
    let allowed = guaranteed_predecessors(flow, step.id.as_str());
    let refs = step_template_refs(step);
    let ghost start = out.deep_view();
    let ghost all = refs.deep_view();
    let mut i: usize = 0;
    proof {
        assert(start + sibling_references(flow@.steps, step.id@, all.take(0)) =~= start);
    }
    while i < refs.len()
        invariant
            i <= refs@.len(),
            all == refs.deep_view(),
            forall|k: int| 0 <= k < refs@.len() ==> (#[trigger] refs@[k])@.len() >= 1,
            forall|x: Seq<char>| #[trigger]
                allowed.deep_view().contains(x) <==> is_guaranteed(flow@.steps, step.id@, x),
            out.deep_view() == start + sibling_references(
                flow@.steps,
                step.id@,
                all.take(i as int),
            ),
        decreases refs@.len() - i,
    {
        let other = refs[i][0].as_str();
        proof {
            assert(all.take(i + 1).drop_last() =~= all.take(i as int));
            assert(all[i as int] == refs@[i as int].deep_view());
            assert(all[i as int][0] == other@);
            assert(allowed.deep_view().contains(other@) <==> is_guaranteed(
                flow@.steps,
                step.id@,
                other@,
            ));
        }
        if !same_text(other, step.id.as_str()) && !has_name(&allowed, other) {
            report(
                out,
                "no_cross_sibling_references",
                Some(step.id.as_str()),
                cat5(
                    "step '",
                    step.id.as_str(),
                    "' references steps.",
                    other,
                    ", which is not a guaranteed predecessor (needs: or sole routing chain)",
                ),
            );
        }
        proof {
            assert(out.deep_view() =~= start + sibling_references(
                flow@.steps,
                step.id@,
                all.take(i + 1),
            ));
        }
        i = i + 1;
    }
    proof {
        assert(all.take(i as int) =~= all);
    }
}

fn check_cli_step(flow: &FlowDefinition, id: &str) -> (r: bool)
    ensures
        r == is_cli_step(flow@.steps, id@),
{
    match flow.step(id) {
        Some(step) => match step.kind() {
            Some(StepWith::Cli { .. }) => true,
            _ => false,
        },
        None => false,
    }
}

fn check_output_references(flow: &FlowDefinition, step: &Step, out: &mut Vec<Violation>)
    ensures
        final(out).deep_view() == old(out).deep_view() + field_references(
            flow@.steps,
            step.id@,
            paths_in(templates_of(step@)),
        ),
{
    let refs = step_template_refs(step);
    let ghost start = out.deep_view();
    let ghost all = refs.deep_view();
    let mut i: usize = 0;
    proof {
        assert(start + field_references(flow@.steps, step.id@, all.take(0)) =~= start);
    }
    while i < refs.len()
        invariant
            i <= refs@.len(),
            all == refs.deep_view(),
            forall|k: int| 0 <= k < refs@.len() ==> (#[trigger] refs@[k])@.len() >= 1,
            out.deep_view() == start + field_references(flow@.steps, step.id@, all.take(i as int)),
        decreases refs@.len() - i,
    {
        let parts = &refs[i];
        let other = parts[0].as_str();
        proof {
            assert(all.take(i + 1).drop_last() =~= all.take(i as int));
            assert(all[i as int] == refs@[i as int].deep_view());
            assert(all[i as int][0] == other@);
            if parts@.len() > 1 {
                assert(all[i as int][1] == parts@[1]@);
            }
        }
        if parts.len() > 2 && same_text(parts[1].as_str(), "output") && check_cli_step(flow, other) {
            report(
                out,
                "output_reference_valid",
                Some(step.id.as_str()),
                cat7(
                    "step '",
                    step.id.as_str(),
                    "' references steps.",
                    other,
                    ".output.<field>, but '",
                    other,
                    "' is a cli step (output is a single value, not a named-field object)",
                ),
            );
        }
        proof {
            assert(out.deep_view() =~= start + field_references(
                flow@.steps,
                step.id@,
                all.take(i + 1),
            ));
        }
        i = i + 1;
    }
    proof {
        assert(all.take(i as int) =~= all);
    }
}

/// Checks one rule in one step.
fn check_step(rule: StepRule, flow: &FlowDefinition, step: &Step, out: &mut Vec<Violation>)
    ensures
        final(out).deep_view() == old(out).deep_view() + step_rule(rule, flow@, step@),
{
    let ghost start = out.deep_view();
    let id = step.id.as_str();
    match rule {
        StepRule::WithShape => {
            if step.kind().is_none() {
                report(
                    out,
                    "type_with_consistency",
                    Some(id),
                    cat5(
                        "step '",
                        id,
                        "' has type '",
                        step.type_label(),
                        "' but its 'with' block doesn't match that type's required shape",
                    ),
                );
            }
        },
        StepRule::TargetsExist => {
            check_targets(flow, id, "on_success", &step.on_success, out);
            check_targets(flow, id, "on_failure", &step.on_failure, out);
            check_targets(flow, id, "on_approve", &step.on_approve, out);
            check_targets(flow, id, "on_reject", &step.on_reject, out);
            check_needs_exist(flow, step, out);
        },
        StepRule::NeedsAreSources => {
            check_needs_sources(flow, step, out);
        },
        StepRule::HumanLoopPairs => {
            if step.human_loop {
                if step.on_approve.is_none() || step.on_reject.is_none() {
                    report(
                        out,
                        "human_loop_routing_pairs",
                        Some(id),
                        cat3(
                            "step '",
                            id,
                            "' has human_loop: true and must declare both on_approve and on_reject",
                        ),
                    );
                }
            } else if step.on_approve.is_some() || step.on_reject.is_some() {
                report(
                    out,
                    "human_loop_routing_pairs",
                    Some(id),
                    cat3(
                        "step '",
                        id,
                        "' declares on_approve/on_reject without human_loop: true",
                    ),
                );
            }
        },
        StepRule::RejectInput => {
            if step.reject_input.is_some() && !dag::is_self_reject_loop(step) {
                report(
                    out,
                    "reject_input_self_loop_only",
                    Some(id),
                    cat3(
                        "step '",
                        id,
                        "' declares reject_input but on_reject does not self-loop",
                    ),
                );
            }
        },
        StepRule::NoSiblings => {
            check_siblings(flow, step, out);
        },
        StepRule::OutputReferences => {
            check_output_references(flow, step, out);
        },
        StepRule::NoRecursion => {
            match step.kind() {
                Some(StepWith::Subflow { with }) => {
                    if same_text(with.flow.as_str(), flow.name.as_str()) {
                        report(
                            out,
                            "no_subflow_recursion",
                            Some(id),
                            cat5(
                                "step '",
                                id,
                                "' invokes '",
                                with.flow.as_str(),
                                "' as a subflow, which is this same flow (direct recursion is forbidden)",
                            ),
                        );
                    }
                },
                _ => {},
            }
        },
    }
    proof {
        assert(out.deep_view() =~= start + step_rule(rule, flow@, step@));
    }
}

/// Checks one rule in every step.
fn check_steps(rule: StepRule, flow: &FlowDefinition, out: &mut Vec<Violation>)
    ensures
        final(out).deep_view() == old(out).deep_view() + rule_violations(rule, flow@, flow@.steps),
{
    let ghost start = out.deep_view();
    let ghost all = flow@.steps;
    let mut i: usize = 0;
    proof {
        assert(start + rule_violations(rule, flow@, all.take(0)) =~= start);
    }
    while i < flow.steps.len()
        invariant
            i <= flow.steps@.len(),
            all == flow@.steps,
            all == flow.steps.deep_view(),
            out.deep_view() == start + rule_violations(rule, flow@, all.take(i as int)),
        decreases flow.steps@.len() - i,
    {
        proof {
            assert(all.take(i + 1).drop_last() =~= all.take(i as int));
            assert(all[i as int] == flow.steps@[i as int]@);
            assert(start + rule_violations(rule, flow@, all.take(i + 1)) =~= start
                + rule_violations(rule, flow@, all.take(i as int)) + step_rule(
                rule,
                flow@,
                all[i as int],
            ));
        }
        check_step(rule, flow, &flow.steps[i], out);
        i = i + 1;
    }
    proof {
        assert(all.take(i as int) =~= all);
    }
}

fn unique_step_ids(flow: &FlowDefinition, out: &mut Vec<Violation>)
    ensures
        final(out).deep_view() == old(out).deep_view() + duplicate_ids(flow@.steps),
{
    let ghost start = out.deep_view();
    let ghost all = flow@.steps;
    let mut seen: Vec<String> = Vec::new();
    let mut i: usize = 0;
    proof {
        assert(start + duplicate_ids(all.take(0)) =~= start);
        assert(seen.deep_view() =~= ids_of(all.take(0)));
    }
    while i < flow.steps.len()
        invariant
            i <= flow.steps@.len(),
            all == flow@.steps,
            all == flow.steps.deep_view(),
            seen.deep_view() == ids_of(all.take(i as int)),
            out.deep_view() == start + duplicate_ids(all.take(i as int)),
        decreases flow.steps@.len() - i,
    {
        let id = flow.steps[i].id.as_str();
        proof {
            assert(all.take(i + 1).drop_last() =~= all.take(i as int));
            assert(all[i as int] == flow.steps@[i as int]@);
            dag::lemma_find_step_ids(all.take(i as int), id@);
        }
        if has_name(&seen, id) {
            report(
                out,
                "unique_step_ids",
                Some(id),
                cat3("duplicate step id '", id, "'"),
            );
        }
        let ghost before = seen;
        let name = id.to_owned();
        seen.push(name);
        proof {
            lemma_push(before, seen, name);
            assert(ids_of(all.take(i + 1)) =~= ids_of(all.take(i as int)).push(id@));
            assert(out.deep_view() =~= start + duplicate_ids(all.take(i + 1)));
        }
        i = i + 1;
    }
    proof {
        assert(all.take(i as int) =~= all);
    }
}

fn own_names(names: &Vec<&str>) -> (r: Vec<String>)
    ensures
        r.deep_view() == names.deep_view(),
{
    let mut out: Vec<String> = Vec::new();
    let mut i: usize = 0;
    while i < names.len()
        invariant
            i <= names@.len(),
            out@.len() == i,
            forall|j: int| 0 <= j < i ==> (#[trigger] out@[j])@ == names@[j]@,
        decreases names@.len() - i,
    {
        out.push(names[i].to_owned());
        i = i + 1;
    }
    proof {
        assert(out.deep_view() =~= names.deep_view());
    }
    out
}

fn exactly_one_entry_step(flow: &FlowDefinition, out: &mut Vec<Violation>)
    ensures
        final(out).deep_view() == old(out).deep_view() + entry_violations(flow@.steps),
{
    let ghost start = out.deep_view();
    if flow.steps.len() > 0 {
        let entries = dag::entry_steps(flow);
        if entries.len() != 1 {
            let names = own_names(&entries);
            let list = join(&names, ", ");
            report(
                out,
                "exactly_one_entry_step",
                None,
                cat5(
                    "flow must have exactly one entry step (no incoming routing edges); found ",
                    decimal_text(entries.len() as u64).as_str(),
                    ": [",
                    list.as_str(),
                    "]",
                ),
            );
        }
    }
    proof {
        assert(out.deep_view() =~= start + entry_violations(flow@.steps));
    }
}

fn acyclic(flow: &FlowDefinition, out: &mut Vec<Violation>)
    ensures
        final(out).deep_view() == old(out).deep_view() + cycle_violations(flow@.steps),
{
    let ghost start = out.deep_view();
    match dag::find_cycle(flow) {
        Some(cycle) => {
            let path = join(&cycle, " -> ");
            report(
                out,
                "acyclic",
                None,
                cat2("routing graph contains a cycle: ", path.as_str()),
            );
        },
        None => {},
    }
    proof {
        assert(out.deep_view() =~= start + cycle_violations(flow@.steps));
    }
}

fn multi_target_needs(flow: &FlowDefinition, out: &mut Vec<Violation>)
    ensures
        final(out).deep_view() == old(out).deep_view() + join_violations(
            flow@.steps,
            incoming_of(edges_of(flow@.steps, false)),
        ),
{
    let incoming = dag::steps_with_incoming_edges(flow);
    let ghost start = out.deep_view();
    let ghost all = incoming.deep_view();
    let mut i: usize = 0;
    proof {
        assert(start + join_violations(flow@.steps, all.take(0)) =~= start);
    }
    while i < incoming.len()
        invariant
            i <= incoming@.len(),
            all == incoming.deep_view(),
            out.deep_view() == start + join_violations(flow@.steps, all.take(i as int)),
        decreases incoming@.len() - i,
    {
        let target = incoming[i].0.as_str();
        let sources = &incoming[i].1;
        proof {
            assert(all.take(i + 1).drop_last() =~= all.take(i as int));
            assert(all[i as int] == (target@, sources.deep_view()));
        }
        match flow.step(target) {
            Some(step) => {
                if sources.len() > 1 && step.needs.len() == 0 {
                    report(
                        out,
                        "multi_target_needs_join",
                        Some(target),
                        cat5(
                            "step '",
                            target,
                            "' is targeted by ",
                            decimal_text(sources.len() as u64).as_str(),
                            " routing sources but declares no needs:",
                        ),
                    );
                }
            },
            None => {},
        }
        proof {
            assert(out.deep_view() =~= start + join_violations(flow@.steps, all.take(i + 1)));
        }
        i = i + 1;
    }
    proof {
        assert(all.take(i as int) =~= all);
    }
}

/// Checks every rule on a flow. Where the result is empty the flow is
/// structurally sound and safe to run.
pub fn validate(flow: &FlowDefinition) -> (r: Vec<Violation>)
    ensures
        r.deep_view() == violations_of(flow@),
{
    let fields = validate_fields(flow);
    let mut out: Vec<Violation> = Vec::new();
    let ghost all = fields.deep_view();
    for field in it: fields
        invariant
            it.seq().len() == all.len(),
            forall|j: int| 0 <= j < all.len() ==> (#[trigger] it.seq()[j])@ == all[j],
            out.deep_view() == all.take(it.index()),
    {
        let ghost before = out;
        let found = Violation { rule: field.rule, step: field.step, message: field.message };
        out.push(found);
        proof {
            lemma_push(before, out, found);
            assert(all.take(it.index() + 1) =~= all.take(it.index()).push(found@));
        }
    }
    proof {
        assert(all.take(all.len() as int) =~= all);
    }
    unique_step_ids(flow, &mut out);
    check_steps(StepRule::WithShape, flow, &mut out);
    check_steps(StepRule::TargetsExist, flow, &mut out);
    exactly_one_entry_step(flow, &mut out);
    acyclic(flow, &mut out);
    multi_target_needs(flow, &mut out);
    check_steps(StepRule::NeedsAreSources, flow, &mut out);
    check_steps(StepRule::HumanLoopPairs, flow, &mut out);
    check_steps(StepRule::RejectInput, flow, &mut out);
    check_steps(StepRule::NoSiblings, flow, &mut out);
    check_steps(StepRule::OutputReferences, flow, &mut out);
    check_steps(StepRule::NoRecursion, flow, &mut out);
    out
}

} // verus!
