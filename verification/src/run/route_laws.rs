//! What an event leads to: laws of the routes that are taken, of the inputs
//! that steps start with, and of the state of the run.
use crate::flow::dag::{entries_of, lemma_find_step_ids, targets_of};
use crate::flow::rule_laws::lists;
use crate::flow::types::{
    find_step, step_kind, DONE, FlowModel, HookCondition, HookModel, StepModel, StepWithModel,
};
use crate::json::Json;
use crate::template::{context_of, resolved, ContextModel, TemplateErrorModel};
use super::derive::{active_ids, all_terminal, phase_of};
use super::engine::{
    approved_state, can_count, can_decide, can_follow, can_start, cancel_command, decided,
    due_hooks, end_commands, failed_state, follow, hooks_command, needs_met, phase_name,
    rejected_state, skip_commands, target_start, target_starts, with_active_cancelled, with_status,
};
use super::laws::{
    active_ids_are_the_active_steps, any_starts, ends_any, exactly_ready_targets_start, may_start,
    skipped, starts, starts_nothing, state_after, subject,
};
use super::types::{
    active, find_run, set_run, terminal, ActivationModel, ApprovalStatus, CommandModel,
    EngineErrorModel, EventModel, HookPhaseModel, RunPhase, RunStateModel, StepRunModel, StepStatus,
};
use vstd::prelude::*;

verus! {

/// The run of a step is the first one with its id.
pub proof fn first_run_is_found(runs: Seq<StepRunModel>, i: int)
    requires
        0 <= i < runs.len(),
        forall|j: int| 0 <= j < i ==> (#[trigger] runs[j]).step_id != runs[i].step_id,
    ensures
        find_run(runs, runs[i].step_id) == Some(runs[i]),
    decreases i,
{
    if i > 0 {
        let rest = runs.drop_first();
        assert(runs[0].step_id != runs[i].step_id);
        assert forall|j: int| 0 <= j < i - 1 implies (#[trigger] rest[j]).step_id != rest[i
            - 1].step_id by {
            assert(runs[j + 1].step_id != runs[i].step_id);
        }
        first_run_is_found(rest, i - 1);
    }
}

/// A run that is found is one of the runs and has the id; where none is found,
/// none has it.
pub proof fn found_run_has_the_id(runs: Seq<StepRunModel>, id: Seq<char>)
    ensures
        match find_run(runs, id) {
            Some(run) => run.step_id == id && runs.contains(run),
            None => forall|i: int| 0 <= i < runs.len() ==> (#[trigger] runs[i]).step_id != id,
        },
    decreases runs.len(),
{
    if runs.len() > 0 {
        let rest = runs.drop_first();
        if runs[0].step_id == id {
            assert(runs.contains(runs[0]));
        } else {
            found_run_has_the_id(rest, id);
            match find_run(rest, id) {
                Some(run) => {
                    let k = choose|k: int| 0 <= k < rest.len() && rest[k] == run;
                    assert(runs[k + 1] == run);
                },
                None => {
                    assert forall|i: int| 0 <= i < runs.len() implies (
                    #[trigger] runs[i]).step_id != id by {
                        if i > 0 {
                            assert(rest[i - 1].step_id != id);
                        }
                    }
                },
            }
        }
    }
}

proof fn lemma_set_found(runs: Seq<StepRunModel>, id: Seq<char>, run: StepRunModel, x: Seq<char>)
    requires
        run.step_id == id,
        find_run(runs, id) is Some,
    ensures
        find_run(set_run(runs, id, run), x) == (if x == id {
            Some(run)
        } else {
            find_run(runs, x)
        }),
    decreases runs.len(),
{
    let rest = runs.drop_first();
    let all = set_run(runs, id, run);
    assert(runs.len() > 0);
    assert(all.len() > 0);
    assert(find_run(all, x) == (if all[0].step_id == x {
        Some(all[0])
    } else {
        find_run(all.drop_first(), x)
    }));
    if runs[0].step_id == id {
        assert(all.drop_first() =~= rest);
        assert(all[0] == run);
    } else {
        lemma_set_found(rest, id, run, x);
        assert(all.drop_first() =~= set_run(rest, id, run));
        assert(all[0] == runs[0]);
    }
}

proof fn lemma_pushed_found(runs: Seq<StepRunModel>, run: StepRunModel, x: Seq<char>)
    ensures
        find_run(runs.push(run), x) == (match find_run(runs, x) {
            Some(r) => Some(r),
            None => if run.step_id == x {
                Some(run)
            } else {
                None
            },
        }),
    decreases runs.len(),
{
    let all = runs.push(run);
    let rest = all.drop_first();
    assert(find_run(all, x) == (if all[0].step_id == x {
        Some(all[0])
    } else {
        find_run(rest, x)
    }));
    if runs.len() == 0 {
        assert(rest =~= Seq::<StepRunModel>::empty());
        assert(find_run(rest, x) is None);
        assert(all[0] == run);
    } else {
        assert(rest =~= runs.drop_first().push(run));
        lemma_pushed_found(runs.drop_first(), run, x);
        assert(all[0] == runs[0]);
    }
}

/// To set the status of a step sets it, keeps the rest of what is known of the
/// step, and changes no other step. A new output replaces the old one; a step
/// that had no run is at its first attempt.
pub proof fn status_is_set_for_one_step(
    state: RunStateModel,
    id: Seq<char>,
    status: StepStatus,
    output: Option<Json>,
    x: Seq<char>,
)
    ensures
        ({
            let next = with_status(state, id, status, output);
            &&& next.inputs == state.inputs
            &&& next.trigger == state.trigger
            &&& next.cancelled == state.cancelled
            &&& x != id ==> find_run(next.steps, x) == find_run(state.steps, x)
            &&& find_run(next.steps, id) matches Some(run) && run.status == status && run.step_id
                == id && match find_run(state.steps, id) {
                Some(old) => run == (StepRunModel { status, output: run.output, ..old }) && (
                output matches Some(v) ==> run.output == Some(v)) && (output is None
                    ==> run.output == old.output),
                None => run.attempt == 1 && run.output == output && run.feedback is None
                    && run.approval_comment is None,
            }
        }),
{
    found_run_has_the_id(state.steps, id);
    let next = with_status(state, id, status, output);
    match find_run(state.steps, id) {
        Some(old) => {
            let run = StepRunModel {
                status,
                output: if output is Some {
                    output
                } else {
                    old.output
                },
                ..old
            };
            lemma_set_found(state.steps, id, run, x);
            lemma_set_found(state.steps, id, run, id);
        },
        None => {
            lemma_pushed_found(state.steps, next.steps.last(), x);
            lemma_pushed_found(state.steps, next.steps.last(), id);
        },
    }
}

proof fn lemma_stopped_found(state: RunStateModel, x: Seq<char>)
    ensures
        find_run(with_active_cancelled(state).steps, x) == (match find_run(state.steps, x) {
            Some(run) => Some(
                if active(run.status) {
                    StepRunModel { status: StepStatus::Cancelled, ..run }
                } else {
                    run
                },
            ),
            None => None,
        }),
    decreases state.steps.len(),
{
    if state.steps.len() > 0 {
        let less = RunStateModel { steps: state.steps.drop_first(), ..state };
        lemma_stopped_found(less, x);
        assert(with_active_cancelled(state).steps.drop_first() =~= with_active_cancelled(
            less,
        ).steps);
    }
}

/// After a final failure the step has failed, for the reason, every other step
/// that was under way is cancelled, and the rest stay as they were.
pub proof fn failure_stops_the_run(
    state: RunStateModel,
    id: Seq<char>,
    reason: Seq<char>,
    x: Seq<char>,
)
    ensures
        ({
            let next = failed_state(state, id, reason);
            &&& next.inputs == state.inputs
            &&& next.trigger == state.trigger
            &&& next.cancelled == state.cancelled
            &&& find_run(next.steps, id) matches Some(run) && run.status == StepStatus::Failed
                && run.failure_reason == Some(reason)
            &&& x != id ==> find_run(next.steps, x) == (match find_run(state.steps, x) {
                Some(run) => Some(
                    if run.status == StepStatus::Running || run.status
                        == StepStatus::WaitingApproval || run.status
                        == StepStatus::WaitingOnSubflow {
                        StepRunModel { status: StepStatus::Cancelled, ..run }
                    } else {
                        run
                    },
                ),
                None => None,
            })
        }),
{
    let first = with_status(state, id, StepStatus::Failed, None);
    let stopped = with_active_cancelled(first);
    status_is_set_for_one_step(state, id, StepStatus::Failed, None, x);
    lemma_stopped_found(first, x);
    lemma_stopped_found(first, id);
    let run = find_run(stopped.steps, id)->Some_0;
    let told = StepRunModel { failure_reason: Some(reason), ..run };
    lemma_set_found(stopped.steps, id, told, x);
    lemma_set_found(stopped.steps, id, told, id);
}

/// After an approval the step has completed, with its output, and the comment is
/// kept; after a rejection it counts as rejected, and the feedback is kept. No
/// other step changes.
pub proof fn answer_is_kept(
    state: RunStateModel,
    id: Seq<char>,
    comment: Option<Seq<char>>,
    feedback: Seq<char>,
    x: Seq<char>,
)
    ensures
        ({
            let yes = approved_state(state, id, comment);
            let no = rejected_state(state, id, feedback);
            &&& yes.inputs == state.inputs && no.inputs == state.inputs
            &&& yes.trigger == state.trigger && no.trigger == state.trigger
            &&& yes.cancelled == state.cancelled && no.cancelled == state.cancelled
            &&& x != id ==> find_run(yes.steps, x) == find_run(state.steps, x)
            &&& x != id ==> find_run(no.steps, x) == find_run(state.steps, x)
            &&& find_run(yes.steps, id) matches Some(run) && run.status == StepStatus::Completed
                && run.approval_status == Some(ApprovalStatus::Approved) && run.approval_comment
                == comment && (find_run(state.steps, id) matches Some(old) ==> run.output
                == old.output && run.attempt == old.attempt)
            &&& find_run(no.steps, id) matches Some(run) && run.status
                == StepStatus::FailedRejected && run.approval_status == Some(
                ApprovalStatus::Rejected,
            ) && run.feedback == Some(feedback) && (find_run(state.steps, id) matches Some(old)
                ==> run.output == old.output && run.attempt == old.attempt)
        }),
{
    let a = with_status(state, id, StepStatus::Completed, None);
    let b = with_status(state, id, StepStatus::FailedRejected, None);
    status_is_set_for_one_step(state, id, StepStatus::Completed, None, x);
    status_is_set_for_one_step(state, id, StepStatus::FailedRejected, None, x);
    let yes = StepRunModel {
        approval_status: Some(ApprovalStatus::Approved),
        approval_comment: comment,
        ..find_run(a.steps, id)->Some_0
    };
    let no = StepRunModel {
        approval_status: Some(ApprovalStatus::Rejected),
        feedback: Some(feedback),
        ..find_run(b.steps, id)->Some_0
    };
    lemma_set_found(a.steps, id, yes, x);
    lemma_set_found(a.steps, id, yes, id);
    lemma_set_found(b.steps, id, no, x);
    lemma_set_found(b.steps, id, no, id);
}

/// Whether a step has completed in a state.
pub open spec fn has_completed(state: RunStateModel, id: Seq<char>) -> bool {
    find_run(state.steps, id) matches Some(run) && run.status == StepStatus::Completed
}

/// Whether everything that `gate` needs is a step of the flow and has completed
/// in the state, or is the step `now` that completes now.
pub open spec fn ready(
    flow: FlowModel,
    state: RunStateModel,
    now: Option<Seq<char>>,
    not: Option<Seq<char>>,
    gate: Seq<char>,
) -> bool {
    find_step(flow.steps, gate) matches Some(step) && forall|i: int|
        0 <= i < step.needs.len() ==> find_step(flow.steps, #[trigger] step.needs[i]) is Some && (
        now == Some(step.needs[i]) || (has_completed(state, step.needs[i]) && not != Some(
            step.needs[i],
        )))
}

/// Whether, after a step, `gate` is to start: a route lists it, it does not end
/// the run, and all that it needs has completed.
pub open spec fn to_start(
    flow: FlowModel,
    state: RunStateModel,
    route: Option<Seq<Seq<char>>>,
    now: Option<Seq<char>>,
    not: Option<Seq<char>>,
    gate: Seq<char>,
) -> bool {
    gate != DONE@ && lists(route, gate) && ready(flow, state, now, not, gate)
}

proof fn lemma_tail_starts(head: Seq<CommandModel>, tail: Seq<CommandModel>, id: Seq<char>)
    requires
        starts_nothing(head),
    ensures
        any_starts(head + tail, id) <==> any_starts(tail, id),
{
    let all = head + tail;
    if any_starts(all, id) {
        let k = choose|k: int| 0 <= k < all.len() && #[trigger] starts(all[k], id);
        if k < head.len() {
            assert(all[k] == head[k]);
        } else {
            assert(all[k] == tail[k - head.len()]);
            assert(starts(tail[k - head.len()], id));
        }
    }
    if any_starts(tail, id) {
        let k = choose|k: int| 0 <= k < tail.len() && #[trigger] starts(tail[k], id);
        assert(all[k + head.len()] == tail[k]);
        assert(starts(all[k + head.len()], id));
    }
}

proof fn lemma_end_starts_nothing(flow: FlowModel, state: RunStateModel)
    ensures
        starts_nothing(end_commands(flow, state)),
{
    lemma_skips_start_nothing(flow.steps, state.steps);
}

proof fn lemma_skips_start_nothing(steps: Seq<StepModel>, runs: Seq<StepRunModel>)
    ensures
        starts_nothing(skip_commands(steps, runs)),
    decreases steps.len(),
{
    if steps.len() > 0 {
        lemma_skips_start_nothing(steps.drop_last(), runs);
    }
}

proof fn lemma_followed(
    flow: FlowModel,
    next: RunStateModel,
    route: Option<Seq<Seq<char>>>,
    gate: Seq<char>,
)
    requires
        follow(flow, next, route) is Ok,
    ensures
        any_starts(follow(flow, next, route)->Ok_0, gate) <==> lists(route, gate) && may_start(
            flow,
            next.steps,
            gate,
        ),
{
    let ctx = context_of(flow.steps, next, Json::Null);
    exactly_ready_targets_start(flow, next.steps, ctx, targets_of(route), gate);
    lemma_end_starts_nothing(flow, next);
    let all = target_starts(flow, next.steps, ctx, targets_of(route))->Ok_0;
    if all.len() == 0 {
        let ended = end_commands(flow, next);
        if any_starts(ended, gate) {
            let k = choose|k: int| 0 <= k < ended.len() && #[trigger] starts(ended[k], gate);
            assert(!(ended[k] is StartChildRun) && !(ended[k] is ActivateSteps));
        }
    }
}

/// When a step completes, a step is started exactly where `on_success` lists it
/// and all that it needs has completed, this one included.
pub proof fn success_takes_its_route(
    flow: FlowModel,
    state: RunStateModel,
    id: Seq<char>,
    output: Json,
    gate: Seq<char>,
)
    requires
        find_step(flow.steps, id) matches Some(step) && !step.human_loop,
        decided(flow, state, EventModel::StepCompleted { step_id: id, output }) is Ok,
    ensures
        any_starts(
            decided(flow, state, EventModel::StepCompleted { step_id: id, output })->Ok_0,
            gate,
        ) <==> to_start(
            flow,
            state,
            find_step(flow.steps, id)->Some_0.on_success,
            Some(id),
            None,
            gate,
        ),
{
    let step = find_step(flow.steps, id)->Some_0;
    let next = with_status(state, id, StepStatus::Completed, Some(output));
    let head = hooks_command(HookPhaseModel::AfterStep { step_id: id }, step.after) + seq![
        CommandModel::MarkStepStatus { step_id: id, status: StepStatus::Completed },
    ];
    lemma_followed(flow, next, step.on_success, gate);
    lemma_tail_starts(head, follow(flow, next, step.on_success)->Ok_0, gate);
    if let Some(g) = find_step(flow.steps, gate) {
        assert forall|i: int| 0 <= i < g.needs.len() implies (has_completed(
            next,
            #[trigger] g.needs[i],
        ) <==> g.needs[i] == id || has_completed(state, g.needs[i])) by {
            status_is_set_for_one_step(
                state,
                id,
                StepStatus::Completed,
                Some(output),
                g.needs[i],
            );
        }
        lemma_ready(flow, next, g);
    }
}

proof fn lemma_ready(flow: FlowModel, next: RunStateModel, g: StepModel)
    ensures
        needs_met(flow.steps, next.steps, g.needs) <==> forall|i: int|
            0 <= i < g.needs.len() ==> find_step(flow.steps, #[trigger] g.needs[i]) is Some
                && has_completed(next, g.needs[i]),
{
    if needs_met(flow.steps, next.steps, g.needs) {
        assert forall|i: int| 0 <= i < g.needs.len() implies find_step(
            flow.steps,
            #[trigger] g.needs[i],
        ) is Some && has_completed(next, g.needs[i]) by {}
    }
    if forall|i: int|
        0 <= i < g.needs.len() ==> find_step(flow.steps, #[trigger] g.needs[i]) is Some
            && has_completed(next, g.needs[i]) {
        assert forall|i: int| 0 <= i < g.needs.len() implies find_step(
            flow.steps,
            #[trigger] g.needs[i],
        ) is Some && (find_run(next.steps, g.needs[i]) matches Some(run) && run.status
            == StepStatus::Completed) by {
            assert(has_completed(next, g.needs[i]));
        }
    }
}

/// When a step is approved, a step is started exactly where `on_approve` lists
/// it and all that it needs has completed, the approved one included.
pub proof fn approval_takes_its_route(
    flow: FlowModel,
    state: RunStateModel,
    id: Seq<char>,
    comment: Option<Seq<char>>,
    gate: Seq<char>,
)
    requires
        find_step(flow.steps, id) is Some,
        decided(flow, state, EventModel::StepApproved { step_id: id, comment }) is Ok,
    ensures
        any_starts(
            decided(flow, state, EventModel::StepApproved { step_id: id, comment })->Ok_0,
            gate,
        ) <==> to_start(
            flow,
            state,
            find_step(flow.steps, id)->Some_0.on_approve,
            Some(id),
            None,
            gate,
        ),
{
    let step = find_step(flow.steps, id)->Some_0;
    let next = approved_state(state, id, comment);
    let head = seq![
        CommandModel::MarkStepStatus { step_id: id, status: StepStatus::Completed },
    ];
    lemma_followed(flow, next, step.on_approve, gate);
    lemma_tail_starts(head, follow(flow, next, step.on_approve)->Ok_0, gate);
    if let Some(g) = find_step(flow.steps, gate) {
        assert forall|i: int| 0 <= i < g.needs.len() implies (has_completed(
            next,
            #[trigger] g.needs[i],
        ) <==> g.needs[i] == id || has_completed(state, g.needs[i])) by {
            answer_is_kept(state, id, comment, Seq::empty(), g.needs[i]);
        }
        lemma_ready(flow, next, g);
    }
}

/// When a step that does not loop back to itself is rejected, a step is started
/// exactly where `on_reject` lists it and all that it needs has completed; the
/// rejected one has not.
pub proof fn rejection_takes_its_route(
    flow: FlowModel,
    state: RunStateModel,
    id: Seq<char>,
    feedback: Seq<char>,
    gate: Seq<char>,
)
    requires
        find_step(flow.steps, id) matches Some(step) && step.on_reject != Some(seq![id]),
        decided(flow, state, EventModel::StepRejected { step_id: id, feedback }) is Ok,
    ensures
        any_starts(
            decided(flow, state, EventModel::StepRejected { step_id: id, feedback })->Ok_0,
            gate,
        ) <==> to_start(
            flow,
            state,
            find_step(flow.steps, id)->Some_0.on_reject,
            None,
            Some(id),
            gate,
        ),
{
    lemma_find_step_ids(flow.steps, id);
    let step = find_step(flow.steps, id)->Some_0;
    let next = rejected_state(state, id, feedback);
    let head = seq![
        CommandModel::MarkStepStatus { step_id: id, status: StepStatus::FailedRejected },
    ];
    lemma_followed(flow, next, step.on_reject, gate);
    lemma_tail_starts(head, follow(flow, next, step.on_reject)->Ok_0, gate);
    if let Some(g) = find_step(flow.steps, gate) {
        assert forall|i: int| 0 <= i < g.needs.len() implies (has_completed(
            next,
            #[trigger] g.needs[i],
        ) <==> g.needs[i] != id && has_completed(state, g.needs[i])) by {
            answer_is_kept(state, id, None, feedback, g.needs[i]);
        }
        lemma_ready(flow, next, g);
    }
}

/// The attempt that a step is at: its first where it has no run.
pub open spec fn at_attempt(state: RunStateModel, id: Seq<char>) -> int {
    match find_run(state.steps, id) {
        Some(run) => run.attempt as int,
        None => 1,
    }
}

/// When a step has failed for good, a step is started exactly where `on_failure`
/// lists it and all that it needs has completed; the failed one has not.
pub proof fn failure_takes_its_route(
    flow: FlowModel,
    state: RunStateModel,
    id: Seq<char>,
    reason: Seq<char>,
    gate: Seq<char>,
)
    requires
        find_step(flow.steps, id) matches Some(step) && at_attempt(state, id) > step.retries,
        decided(flow, state, EventModel::StepFailed { step_id: id, reason }) is Ok,
    ensures
        any_starts(
            decided(flow, state, EventModel::StepFailed { step_id: id, reason })->Ok_0,
            gate,
        ) <==> to_start(
            flow,
            state,
            find_step(flow.steps, id)->Some_0.on_failure,
            None,
            Some(id),
            gate,
        ),
{
    let step = find_step(flow.steps, id)->Some_0;
    let next = failed_state(state, id, reason);
    let head = seq![CommandModel::MarkStepStatus { step_id: id, status: StepStatus::Failed }]
        + cancel_command(active_ids(state.steps, Some(id)));
    lemma_followed(flow, next, step.on_failure, gate);
    lemma_tail_starts(head, follow(flow, next, step.on_failure)->Ok_0, gate);
    if let Some(g) = find_step(flow.steps, gate) {
        assert forall|i: int| 0 <= i < g.needs.len() implies (has_completed(
            next,
            #[trigger] g.needs[i],
        ) <==> g.needs[i] != id && has_completed(state, g.needs[i])) by {
            failure_stops_the_run(state, id, reason, g.needs[i]);
        }
        lemma_ready(flow, next, g);
    }
}

/// A run that starts starts its entry steps, as far as they need nothing that
/// has not completed.
pub proof fn run_starts_with_its_entries(flow: FlowModel, state: RunStateModel, gate: Seq<char>)
    requires
        decided(flow, state, EventModel::RunStarted) is Ok,
    ensures
        any_starts(decided(flow, state, EventModel::RunStarted)->Ok_0, gate) <==> to_start(
            flow,
            state,
            Some(entries_of(flow.steps)),
            None,
            None,
            gate,
        ),
{
    let ctx = context_of(flow.steps, state, Json::Null);
    let head = hooks_command(HookPhaseModel::BeforeRun, flow.lifecycle.before_run);
    exactly_ready_targets_start(flow, state.steps, ctx, entries_of(flow.steps), gate);
    lemma_tail_starts(
        head,
        target_starts(flow, state.steps, ctx, entries_of(flow.steps))->Ok_0,
        gate,
    );
    if let Some(g) = find_step(flow.steps, gate) {
        lemma_ready(flow, state, g);
    }
}

/// Whether an activation is the next attempt at its step, with the step's own
/// input resolved against what the run knows in `next`. A step that is no cli
/// step starts with nothing.
pub open spec fn is_next_attempt(
    flow: FlowModel,
    next: RunStateModel,
    activation: ActivationModel,
) -> bool {
    &&& find_step(flow.steps, activation.step_id) matches Some(step) && match step_kind(step) {
        Some(StepWithModel::Cli(with)) => resolved(
            with.input,
            context_of(flow.steps, next, Json::Null),
            activation.step_id,
        ) == Ok::<Seq<char>, TemplateErrorModel>(activation.input),
        Some(StepWithModel::Subflow(_)) => false,
        None => resolved(
            Seq::empty(),
            context_of(flow.steps, next, Json::Null),
            activation.step_id,
        ) == Ok::<Seq<char>, TemplateErrorModel>(activation.input),
    }
    &&& match find_run(next.steps, activation.step_id) {
        Some(run) => activation.attempt == (run.attempt + 1) as u32,
        None => activation.attempt == 1,
    }
}

/// Whether every step that commands start is at its next attempt and has its
/// input.
pub open spec fn all_next_attempts(
    flow: FlowModel,
    next: RunStateModel,
    commands: Seq<CommandModel>,
) -> bool {
    forall|k: int|
        0 <= k < commands.len() ==> ((#[trigger] commands[k]) matches CommandModel::ActivateSteps(
            list,
        ) ==> list.len() == 1 && is_next_attempt(flow, next, list[0]))
}

proof fn lemma_targets_get_input(
    flow: FlowModel,
    next: RunStateModel,
    targets: Seq<Seq<char>>,
)
    ensures
        target_starts(
            flow,
            next.steps,
            context_of(flow.steps, next, Json::Null),
            targets,
        ) matches Ok(commands) ==> all_next_attempts(flow, next, commands),
    decreases targets.len(),
{
    let ctx = context_of(flow.steps, next, Json::Null);
    if targets.len() > 0 {
        lemma_targets_get_input(flow, next, targets.drop_last());
        lemma_find_step_ids(flow.steps, targets.last());
        if let Ok(all) = target_starts(flow, next.steps, ctx, targets) {
            let before = target_starts(flow, next.steps, ctx, targets.drop_last())->Ok_0;
            let more = target_start(flow, next.steps, ctx, targets.last())->Ok_0;
            assert forall|k: int| 0 <= k < all.len() implies ((
            #[trigger] all[k]) matches CommandModel::ActivateSteps(list) ==> list.len() == 1
                && is_next_attempt(flow, next, list[0])) by {
                if k < before.len() {
                    assert(all[k] == before[k]);
                } else {
                    assert(all[k] == more[0]);
                }
            }
        }
    }
}

proof fn lemma_follow_gets_input(
    flow: FlowModel,
    next: RunStateModel,
    route: Option<Seq<Seq<char>>>,
)
    ensures
        follow(flow, next, route) matches Ok(commands) ==> all_next_attempts(flow, next, commands),
{
    lemma_targets_get_input(flow, next, targets_of(route));
    lemma_end_starts_nothing(flow, next);
}

/// Every step that starts when its turn comes starts as its next attempt and
/// with its own input, resolved against the state of the run after the event.
/// (A step that starts again after its failure or its rejection is another
/// matter.)
pub proof fn started_steps_get_their_input(
    flow: FlowModel,
    state: RunStateModel,
    event: EventModel,
)
    requires
        decided(flow, state, event) is Ok,
        match event {
            EventModel::StepFailed { step_id, .. } => find_step(
                flow.steps,
                step_id,
            ) matches Some(step) && at_attempt(state, step_id) > step.retries,
            EventModel::StepRejected { step_id, .. } => find_step(
                flow.steps,
                step_id,
            ) matches Some(step) && step.on_reject != Some(seq![step_id]),
            EventModel::SubflowFinished { step_id, phase, .. } => phase == RunPhase::Completed || (
            find_step(flow.steps, step_id) matches Some(step) && at_attempt(state, step_id)
                > step.retries),
            _ => true,
        },
    ensures
        all_next_attempts(flow, state_after(state, event), decided(flow, state, event)->Ok_0),
{
    let next = state_after(state, event);
    match event {
        EventModel::RunStarted => {
            lemma_targets_get_input(flow, next, entries_of(flow.steps));
        },
        EventModel::StepCompleted { step_id, .. } => {
            let step = find_step(flow.steps, step_id)->Some_0;
            lemma_follow_gets_input(flow, next, step.on_success);
        },
        EventModel::StepFailed { step_id, .. } => {
            let step = find_step(flow.steps, step_id)->Some_0;
            lemma_follow_gets_input(flow, next, step.on_failure);
        },
        EventModel::StepApproved { step_id, .. } => {
            let step = find_step(flow.steps, step_id)->Some_0;
            lemma_follow_gets_input(flow, next, step.on_approve);
        },
        EventModel::StepRejected { step_id, .. } => {
            lemma_find_step_ids(flow.steps, step_id);
            let step = find_step(flow.steps, step_id)->Some_0;
            lemma_follow_gets_input(flow, next, step.on_reject);
        },
        EventModel::SubflowFinished { step_id, .. } => {
            let step = find_step(flow.steps, step_id)->Some_0;
            lemma_follow_gets_input(flow, next, step.on_success);
            lemma_follow_gets_input(flow, next, step.on_failure);
        },
        _ => {},
    }
}

/// A cli step with retries left starts again after a failure as its next
/// attempt, with its own input resolved against the run; nothing else happens.
/// Where that input cannot be resolved the event fails.
pub proof fn retry_repeats_the_input(
    flow: FlowModel,
    state: RunStateModel,
    id: Seq<char>,
    reason: Seq<char>,
    template: Seq<char>,
)
    requires
        find_step(flow.steps, id) matches Some(step) && at_attempt(state, id) <= step.retries && (
        step_kind(step) matches Some(StepWithModel::Cli(with)) && with.input == template),
        at_attempt(state, id) < u32::MAX,
    ensures
        match (
            resolved(template, context_of(flow.steps, state, Json::Null), id),
            decided(flow, state, EventModel::StepFailed { step_id: id, reason }),
        ) {
            (Ok(input), Ok(commands)) => {
                &&& commands.len() == 1
                &&& commands[0] matches CommandModel::ActivateSteps(list) && list.len() == 1
                    && list[0].step_id == id && list[0].attempt == at_attempt(state, id) + 1
                    && list[0].input == input
            },
            (Err(_), Err(e)) => e == EngineErrorModel::UnknownStep(id),
            _ => false,
        },
{
    lemma_find_step_ids(flow.steps, id);
}

/// A cli step that loops back to itself starts again after a rejection with its
/// `reject_input`, resolved when the feedback is known; without one, with its
/// own input and the feedback behind it.
pub proof fn rejected_step_gets_the_feedback(
    flow: FlowModel,
    state: RunStateModel,
    id: Seq<char>,
    feedback: Seq<char>,
    template: Seq<char>,
)
    requires
        find_step(flow.steps, id) matches Some(step) && step.on_reject == Some(seq![id]) && (
        step_kind(step) matches Some(StepWithModel::Cli(with)) && with.input == template),
        find_run(state.steps, id) matches Some(run) && run.attempt < u32::MAX,
        decided(flow, state, EventModel::StepRejected { step_id: id, feedback }) is Ok,
    ensures
        ({
            let commands = decided(
                flow,
                state,
                EventModel::StepRejected { step_id: id, feedback },
            )->Ok_0;
            let ctx = context_of(flow.steps, rejected_state(state, id, feedback), Json::Null);
            &&& commands.len() == 2
            &&& commands[1] matches CommandModel::ActivateSteps(list) && list.len() == 1
                && list[0].step_id == id && list[0].attempt == at_attempt(state, id) + 1
                && match find_step(flow.steps, id)->Some_0.reject_input {
                Some(t) => resolved(t, ctx, id) == Ok::<Seq<char>, TemplateErrorModel>(
                    list[0].input,
                ),
                None => resolved(template, ctx, id) matches Ok(input) && list[0].input == input
                    + "\n\nFeedback: "@ + feedback,
            }
        }),
{
    lemma_find_step_ids(flow.steps, id);
}

/// A step that a human looks at starts nothing when it completes: its hooks run,
/// and it waits for the answer.
pub proof fn human_loop_waits_for_the_answer(
    flow: FlowModel,
    state: RunStateModel,
    id: Seq<char>,
    output: Json,
    gate: Seq<char>,
)
    requires
        find_step(flow.steps, id) matches Some(step) && step.human_loop,
    ensures
        decided(flow, state, EventModel::StepCompleted { step_id: id, output }) matches Ok(
            commands,
        ) && {
            &&& !any_starts(commands, gate)
            &&& !ends_any(commands)
            &&& commands.len() >= 2
            &&& commands.last() == CommandModel::WaitApproval { step_id: id }
            &&& commands[commands.len() - 2] == CommandModel::MarkStepStatus {
                step_id: id,
                status: StepStatus::WaitingApproval,
            }
        },
{
}

/// The status that an event sets for its step, where it sets one.
pub open spec fn status_for(
    flow: FlowModel,
    state: RunStateModel,
    event: EventModel,
) -> Option<(Seq<char>, StepStatus)> {
    match event {
        EventModel::StepCompleted { step_id, .. } => match find_step(flow.steps, step_id) {
            Some(step) => if step.human_loop {
                Some((step_id, StepStatus::WaitingApproval))
            } else {
                Some((step_id, StepStatus::Completed))
            },
            None => None,
        },
        EventModel::StepFailed { step_id, .. } => match find_step(flow.steps, step_id) {
            Some(step) => if at_attempt(state, step_id) > step.retries {
                Some((step_id, StepStatus::Failed))
            } else {
                None
            },
            None => None,
        },
        EventModel::StepApproved { step_id, .. } => Some((step_id, StepStatus::Completed)),
        EventModel::StepRejected { step_id, .. } => Some((step_id, StepStatus::FailedRejected)),
        _ => None,
    }
}

/// An event about a step marks that step: completed, waiting for approval,
/// failed once its retries are used up, or rejected. Hooks of a step that
/// completed come before the mark, nothing else does.
pub proof fn event_marks_its_step(flow: FlowModel, state: RunStateModel, event: EventModel)
    requires
        decided(flow, state, event) is Ok,
        status_for(flow, state, event) is Some,
    ensures
        ({
            let commands = decided(flow, state, event)->Ok_0;
            let (id, status) = status_for(flow, state, event)->Some_0;
            let mark = CommandModel::MarkStepStatus { step_id: id, status };
            let hooks = match (event, find_step(flow.steps, id)) {
                (EventModel::StepCompleted { .. }, Some(step)) => step.after,
                _ => Seq::empty(),
            };
            if hooks.len() == 0 {
                commands.len() > 0 && commands[0] == mark
            } else {
                commands.len() > 1 && commands[0] == CommandModel::RunHooks {
                    phase: HookPhaseModel::AfterStep { step_id: id },
                    hooks,
                } && commands[1] == mark
            }
        }),
{
}

/// A run starts with its hooks, where it has any: all of them, and before any
/// step.
pub proof fn hooks_come_before_the_run(flow: FlowModel, state: RunStateModel)
    requires
        decided(flow, state, EventModel::RunStarted) is Ok,
        flow.lifecycle.before_run.len() > 0,
    ensures
        ({
            let commands = decided(flow, state, EventModel::RunStarted)->Ok_0;
            commands.len() > 0 && commands[0] == CommandModel::RunHooks {
                phase: HookPhaseModel::BeforeRun,
                hooks: flow.lifecycle.before_run,
            }
        }),
{
}

/// Whether a hook after a run is due in a phase: one without a condition after
/// success, the others as their condition says.
pub open spec fn is_due(hook: HookModel, phase: RunPhase) -> bool {
    match hook.when {
        None => phase == RunPhase::Completed,
        Some(HookCondition::Succeeded) => phase == RunPhase::Completed,
        Some(HookCondition::Failed) => phase == RunPhase::Failed,
        Some(HookCondition::Cancelled) => phase == RunPhase::Cancelled,
        Some(HookCondition::Always) => true,
    }
}

/// Of the hooks after a run exactly those are chosen that are due.
pub proof fn exactly_due_hooks_run(hooks: Seq<HookModel>, phase: RunPhase, hook: HookModel)
    ensures
        due_hooks(hooks, phase).contains(hook) <==> hooks.contains(hook) && is_due(hook, phase),
    decreases hooks.len(),
{
    let all = due_hooks(hooks, phase);
    if hooks.len() > 0 {
        let rest = hooks.drop_last();
        let last = hooks.last();
        let before = due_hooks(rest, phase);
        exactly_due_hooks_run(rest, phase, hook);
        assert(hooks[hooks.len() - 1] == last);
        if rest.contains(hook) {
            let k = choose|k: int| 0 <= k < rest.len() && rest[k] == hook;
            assert(hooks[k] == hook);
        }
        if before.contains(hook) {
            let k = choose|k: int| 0 <= k < before.len() && before[k] == hook;
            assert(all[k] == hook);
        }
        if is_due(last, phase) {
            assert(all[before.len() as int] == last);
        }
        if all.contains(hook) {
            let k = choose|k: int| 0 <= k < all.len() && all[k] == hook;
            if k < before.len() {
                assert(before[k] == hook);
            }
        }
        if hooks.contains(hook) {
            let k = choose|k: int| 0 <= k < hooks.len() && hooks[k] == hook;
            if k < rest.len() {
                assert(rest[k] == hook);
            }
        }
    }
}

/// Whether some command marks a step as skipped.
pub open spec fn marks_skipped(commands: Seq<CommandModel>, id: Seq<char>) -> bool {
    commands.contains(skipped(id))
}

proof fn lemma_skip_exact(steps: Seq<StepModel>, runs: Seq<StepRunModel>, id: Seq<char>)
    ensures
        skip_commands(steps, runs).contains(skipped(id)) <==> find_step(steps, id) is Some
            && find_run(runs, id) is None,
    decreases steps.len(),
{
    lemma_find_step_ids(steps, id);
    let all = skip_commands(steps, runs);
    if steps.len() > 0 {
        let rest = steps.drop_last();
        let last = steps.last();
        let before = skip_commands(rest, runs);
        lemma_skip_exact(rest, runs, id);
        lemma_find_step_ids(rest, id);
        let ids = crate::flow::dag::ids_of(steps);
        let fewer = crate::flow::dag::ids_of(rest);
        assert(ids[steps.len() - 1] == last.id);
        if fewer.contains(id) {
            let k = choose|k: int| 0 <= k < fewer.len() && fewer[k] == id;
            assert(ids[k] == id);
        }
        if ids.contains(id) {
            let k = choose|k: int| 0 <= k < ids.len() && ids[k] == id;
            if k < fewer.len() {
                assert(fewer[k] == id);
            }
        }
        if before.contains(skipped(id)) {
            let k = choose|k: int| 0 <= k < before.len() && before[k] == skipped(id);
            assert(all[k] == skipped(id));
        }
        if find_run(runs, last.id) is None {
            assert(all[before.len() as int] == skipped(last.id));
        }
        if all.contains(skipped(id)) {
            let k = choose|k: int| 0 <= k < all.len() && all[k] == skipped(id);
            if k < before.len() {
                assert(before[k] == skipped(id));
            } else {
                assert(all[k] == skipped(last.id));
                assert(skipped(last.id) == skipped(id));
            }
        }
    } else {
        assert(all.len() == 0);
    }
}

/// Where a route starts nothing and every step has ended, the run ends: the
/// steps that never ran are marked skipped, and no others, the hooks that are
/// due run, all of them at once, and the last command sets the phase.
pub proof fn run_ends_where_nothing_starts(
    flow: FlowModel,
    next: RunStateModel,
    route: Option<Seq<Seq<char>>>,
    id: Seq<char>,
)
    requires
        follow(flow, next, route) is Ok,
        forall|gate: Seq<char>| !(#[trigger] lists(route, gate) && may_start(flow, next.steps, gate)),
        forall|i: int| 0 <= i < next.steps.len() ==> terminal((#[trigger] next.steps[i]).status),
    ensures
        ({
            let commands = follow(flow, next, route)->Ok_0;
            let due = due_hooks(flow.lifecycle.after_run, phase_of(next));
            &&& commands.len() > 0
            &&& commands.last() == CommandModel::MarkRunTerminal(phase_of(next))
            &&& marks_skipped(commands, id) <==> find_step(flow.steps, id) is Some && find_run(
                next.steps,
                id,
            ) is None
            &&& due.len() > 0 ==> commands.len() > 1 && commands[commands.len() - 2]
                == CommandModel::RunHooks { phase: HookPhaseModel::AfterRun, hooks: due }
        }),
{
    let ctx = context_of(flow.steps, next, Json::Null);
    let targets = targets_of(route);
    let started = target_starts(flow, next.steps, ctx, targets)->Ok_0;
    lemma_starts_are_starts(flow, next.steps, ctx, targets);
    if started.len() > 0 {
        let gate = lemma_started(started);
        exactly_ready_targets_start(flow, next.steps, ctx, targets, gate);
        assert(lists(route, gate) && may_start(flow, next.steps, gate));
    }
    lemma_skip_exact(flow.steps, next.steps, id);
    let skips = skip_commands(flow.steps, next.steps);
    let phase = phase_of(next);
    let due = due_hooks(flow.lifecycle.after_run, phase);
    let commands = end_commands(flow, next);
    let hooks = hooks_command(HookPhaseModel::AfterRun, due);
    assert(commands == skips + hooks + seq![CommandModel::MarkRunTerminal(phase)]);
    if skips.contains(skipped(id)) {
        let k = choose|k: int| 0 <= k < skips.len() && skips[k] == skipped(id);
        assert(commands[k] == skipped(id));
    }
    if commands.contains(skipped(id)) {
        let k = choose|k: int| 0 <= k < commands.len() && commands[k] == skipped(id);
        if k < skips.len() {
            assert(skips[k] == skipped(id));
        }
    }
}

/// Whether a command starts a step.
spec fn is_start(c: CommandModel) -> bool {
    match c {
        CommandModel::StartChildRun { .. } => true,
        CommandModel::ActivateSteps(list) => list.len() == 1,
        _ => false,
    }
}

proof fn lemma_starts_are_starts(
    flow: FlowModel,
    runs: Seq<StepRunModel>,
    ctx: ContextModel,
    targets: Seq<Seq<char>>,
)
    ensures
        target_starts(flow, runs, ctx, targets) matches Ok(all) ==> forall|k: int|
            0 <= k < all.len() ==> is_start(#[trigger] all[k]),
    decreases targets.len(),
{
    if targets.len() > 0 {
        lemma_starts_are_starts(flow, runs, ctx, targets.drop_last());
    }
}

proof fn lemma_started(all: Seq<CommandModel>) -> (id: Seq<char>)
    requires
        all.len() > 0,
        is_start(all[0]),
    ensures
        any_starts(all, id),
{
    let id = match all[0] {
        CommandModel::StartChildRun { step_id } => step_id,
        CommandModel::ActivateSteps(list) => list[0].step_id,
        _ => Seq::empty(),
    };
    assert(starts(all[0], id));
    id
}

/// A final failure cancels exactly the other steps that are under way, all with
/// one command.
pub proof fn exactly_the_others_are_cancelled(
    flow: FlowModel,
    state: RunStateModel,
    id: Seq<char>,
    reason: Seq<char>,
    x: Seq<char>,
)
    requires
        find_step(flow.steps, id) matches Some(step) && at_attempt(state, id) > step.retries,
        decided(flow, state, EventModel::StepFailed { step_id: id, reason }) is Ok,
        exists|i: int|
            0 <= i < state.steps.len() && active((#[trigger] state.steps[i]).status)
                && state.steps[i].step_id != id,
    ensures
        ({
            let commands = decided(flow, state, EventModel::StepFailed { step_id: id, reason })->Ok_0;
            commands.len() > 1 && (commands[1] matches CommandModel::CancelSteps(ids) && (
            ids.contains(x) <==> x != id && exists|i: int|
                0 <= i < state.steps.len() && (#[trigger] state.steps[i]).step_id == x && active(
                    state.steps[i].status,
                )))
        }),
{
    active_ids_are_the_active_steps(state.steps, Some(id), x);
    let i = choose|i: int|
        0 <= i < state.steps.len() && active((#[trigger] state.steps[i]).status)
            && state.steps[i].step_id != id;
    active_ids_are_the_active_steps(state.steps, Some(id), state.steps[i].step_id);
    let ids = active_ids(state.steps, Some(id));
    assert(ids.len() > 0);
    let head = seq![CommandModel::MarkStepStatus { step_id: id, status: StepStatus::Failed }]
        + cancel_command(ids);
    assert(head[1] == CommandModel::CancelSteps(ids));
}

/// Every status is that of a step that has not started, of one that is under
/// way, or of one that has ended, and of one of these only.
pub proof fn statuses_are_parted(status: StepStatus)
    ensures
        terminal(status) <==> status != StepStatus::Pending && status != StepStatus::Running
            && status != StepStatus::WaitingApproval && status != StepStatus::WaitingOnSubflow,
        active(status) <==> status != StepStatus::Pending && !terminal(status),
{
}

/// A run whose steps have all ended has completed exactly where none failed, was
/// rejected or was cancelled; a run that was asked to stop counts as cancelled
/// before it counts as failed.
pub proof fn phase_follows_the_steps(state: RunStateModel)
    requires
        forall|i: int| 0 <= i < state.steps.len() ==> terminal((#[trigger] state.steps[i]).status),
    ensures
        phase_of(state) == RunPhase::Completed <==> forall|i: int|
            0 <= i < state.steps.len() ==> (#[trigger] state.steps[i]).status
                == StepStatus::Completed || state.steps[i].status == StepStatus::Skipped,
        phase_of(state) != RunPhase::Running,
        (exists|i: int|
            0 <= i < state.steps.len() && (#[trigger] state.steps[i]).status
                == StepStatus::Cancelled) && state.cancelled ==> phase_of(state)
            == RunPhase::Cancelled,
{
    assert(all_terminal(state.steps));
    if forall|i: int|
        0 <= i < state.steps.len() ==> (#[trigger] state.steps[i]).status == StepStatus::Completed
            || state.steps[i].status == StepStatus::Skipped {
    } else {
        let i = choose|i: int|
            0 <= i < state.steps.len() && !((#[trigger] state.steps[i]).status
                == StepStatus::Completed || state.steps[i].status == StepStatus::Skipped);
        assert(terminal(state.steps[i].status));
    }
}

/// As long as no step is at the last attempt that can be counted, every event
/// can be decided.
pub proof fn every_event_can_be_decided(flow: FlowModel, state: RunStateModel, event: EventModel)
    requires
        forall|id: Seq<char>|
            (#[trigger] find_run(state.steps, id)) matches Some(run) ==> run.attempt < u32::MAX,
    ensures
        can_decide(flow, state, event),
{
    let next = state_after(state, event);
    assert forall|id: Seq<char>| ((#[trigger] find_run(next.steps, id)) matches Some(run)
        ==> run.attempt < u32::MAX) by {
        assert(find_run(state.steps, id) matches Some(run) ==> run.attempt < u32::MAX);
        lemma_attempts_stay(state, event, id);
    }
    assert forall|id: Seq<char>| #[trigger] can_count(next.steps, id) by {
        assert(find_run(next.steps, id) matches Some(run) ==> run.attempt < u32::MAX);
    }
    assert forall|id: Seq<char>| #[trigger] can_count(state.steps, id) by {
        assert(find_run(state.steps, id) matches Some(run) ==> run.attempt < u32::MAX);
    }
    assert forall|target: Seq<char>| #[trigger] can_start(flow, next.steps, target) by {
        assert(can_count(next.steps, target));
    }
    assert forall|target: Seq<char>| #[trigger] can_start(flow, state.steps, target) by {
        assert(can_count(state.steps, target));
    }
    if let Some(id) = subject(event) {
        assert(can_count(state.steps, id));
        if let Some(step) = find_step(flow.steps, id) {
            assert(can_follow(flow, next, step.on_success));
            assert(can_follow(flow, next, step.on_failure));
            assert(can_follow(flow, next, step.on_approve));
            assert(can_follow(flow, next, step.on_reject));
        }
    }
}

proof fn lemma_attempts_stay(state: RunStateModel, event: EventModel, id: Seq<char>)
    ensures
        find_run(state_after(state, event).steps, id) matches Some(run) ==> match find_run(
            state.steps,
            id,
        ) {
            Some(old) => run.attempt == old.attempt,
            None => run.attempt <= 1,
        },
{
    match event {
        EventModel::StepCompleted { step_id, output } => {
            status_is_set_for_one_step(
                state,
                step_id,
                StepStatus::Completed,
                Some(output),
                id,
            );
        },
        EventModel::StepFailed { step_id, reason } => {
            lemma_failed_attempts(state, step_id, reason, id);
        },
        EventModel::StepApproved { step_id, comment } => {
            lemma_answered_attempts(state, step_id, comment, Seq::empty(), id);
        },
        EventModel::StepRejected { step_id, feedback } => {
            lemma_answered_attempts(state, step_id, None, feedback, id);
        },
        EventModel::SubflowFinished { step_id, phase, outputs } => {
            let output = match outputs {
                Some(v) => v,
                None => Json::Null,
            };
            status_is_set_for_one_step(
                state,
                step_id,
                StepStatus::Completed,
                Some(output),
                id,
            );
            lemma_failed_attempts(
                state,
                step_id,
                "subflow ended in phase "@ + phase_name(phase),
                id,
            );
        },
        _ => {},
    }
}

proof fn lemma_failed_attempts(
    state: RunStateModel,
    step_id: Seq<char>,
    reason: Seq<char>,
    id: Seq<char>,
)
    ensures
        find_run(failed_state(state, step_id, reason).steps, id) matches Some(run)
            ==> match find_run(state.steps, id) {
            Some(old) => run.attempt == old.attempt,
            None => run.attempt <= 1,
        },
{
    let first = with_status(state, step_id, StepStatus::Failed, None);
    let stopped = with_active_cancelled(first);
    status_is_set_for_one_step(state, step_id, StepStatus::Failed, None, id);
    lemma_stopped_found(first, id);
    lemma_stopped_found(first, step_id);
    found_run_has_the_id(stopped.steps, step_id);
    let told = StepRunModel {
        failure_reason: Some(reason),
        ..find_run(stopped.steps, step_id)->Some_0
    };
    lemma_set_found(stopped.steps, step_id, told, id);
}

proof fn lemma_answered_attempts(
    state: RunStateModel,
    step_id: Seq<char>,
    comment: Option<Seq<char>>,
    feedback: Seq<char>,
    id: Seq<char>,
)
    ensures
        find_run(approved_state(state, step_id, comment).steps, id) matches Some(run)
            ==> match find_run(state.steps, id) {
            Some(old) => run.attempt == old.attempt,
            None => run.attempt <= 1,
        },
        find_run(rejected_state(state, step_id, feedback).steps, id) matches Some(run)
            ==> match find_run(state.steps, id) {
            Some(old) => run.attempt == old.attempt,
            None => run.attempt <= 1,
        },
{
    let a = with_status(state, step_id, StepStatus::Completed, None);
    let b = with_status(state, step_id, StepStatus::FailedRejected, None);
    status_is_set_for_one_step(state, step_id, StepStatus::Completed, None, id);
    status_is_set_for_one_step(state, step_id, StepStatus::FailedRejected, None, id);
    let yes = StepRunModel {
        approval_status: Some(ApprovalStatus::Approved),
        approval_comment: comment,
        ..find_run(a.steps, step_id)->Some_0
    };
    let no = StepRunModel {
        approval_status: Some(ApprovalStatus::Rejected),
        feedback: Some(feedback),
        ..find_run(b.steps, step_id)->Some_0
    };
    lemma_set_found(a.steps, step_id, yes, id);
    lemma_set_found(b.steps, step_id, no, id);
}

/// Whether commands cancel nothing and mark only this step, as this, and steps
/// that are skipped.
pub open spec fn marks_only(
    commands: Seq<CommandModel>,
    id: Seq<char>,
    status: StepStatus,
) -> bool {
    forall|k: int|
        0 <= k < commands.len() ==> !((#[trigger] commands[k]) is CancelSteps) && (
        commands[k] matches CommandModel::MarkStepStatus { step_id, status: s } ==> (step_id == id
            && s == status) || s == StepStatus::Skipped)
}

proof fn lemma_marks_sum(
    a: Seq<CommandModel>,
    b: Seq<CommandModel>,
    id: Seq<char>,
    status: StepStatus,
)
    requires
        marks_only(a, id, status),
        marks_only(b, id, status),
    ensures
        marks_only(a + b, id, status),
{
    let all = a + b;
    assert forall|k: int| 0 <= k < all.len() implies !((#[trigger] all[k]) is CancelSteps) && (
    all[k] matches CommandModel::MarkStepStatus { step_id, status: s } ==> (step_id == id && s
        == status) || s == StepStatus::Skipped) by {
        if k < a.len() {
            assert(all[k] == a[k]);
        } else {
            assert(all[k] == b[k - a.len()]);
        }
    }
}

proof fn lemma_starts_mark_nothing(
    flow: FlowModel,
    runs: Seq<StepRunModel>,
    ctx: ContextModel,
    targets: Seq<Seq<char>>,
    id: Seq<char>,
    status: StepStatus,
)
    ensures
        target_starts(flow, runs, ctx, targets) matches Ok(all) ==> marks_only(all, id, status),
    decreases targets.len(),
{
    if targets.len() > 0 {
        lemma_starts_mark_nothing(flow, runs, ctx, targets.drop_last(), id, status);
        if let Ok(all) = target_starts(flow, runs, ctx, targets) {
            let before = target_starts(flow, runs, ctx, targets.drop_last())->Ok_0;
            let more = target_start(flow, runs, ctx, targets.last())->Ok_0;
            assert(marks_only(more, id, status));
            lemma_marks_sum(before, more, id, status);
        }
    }
}

proof fn lemma_skips_mark(
    steps: Seq<StepModel>,
    runs: Seq<StepRunModel>,
    id: Seq<char>,
    status: StepStatus,
)
    ensures
        marks_only(skip_commands(steps, runs), id, status),
    decreases steps.len(),
{
    if steps.len() > 0 {
        lemma_skips_mark(steps.drop_last(), runs, id, status);
    }
}

proof fn lemma_follow_marks(
    flow: FlowModel,
    next: RunStateModel,
    route: Option<Seq<Seq<char>>>,
    id: Seq<char>,
    status: StepStatus,
)
    ensures
        follow(flow, next, route) matches Ok(all) ==> marks_only(all, id, status),
{
    let ctx = context_of(flow.steps, next, Json::Null);
    lemma_starts_mark_nothing(flow, next.steps, ctx, targets_of(route), id, status);
    lemma_skips_mark(flow.steps, next.steps, id, status);
    let phase = phase_of(next);
    let hooks = hooks_command(
        HookPhaseModel::AfterRun,
        due_hooks(flow.lifecycle.after_run, phase),
    );
    let last = seq![CommandModel::MarkRunTerminal(phase)];
    lemma_marks_sum(skip_commands(flow.steps, next.steps), hooks, id, status);
    lemma_marks_sum(skip_commands(flow.steps, next.steps) + hooks, last, id, status);
}

/// A step that completes, is approved or is rejected is the only one that is
/// marked, steps that are skipped aside; no step is cancelled for it. When a run
/// starts nothing is marked or cancelled.
pub proof fn only_failures_cancel(flow: FlowModel, state: RunStateModel, event: EventModel)
    requires
        decided(flow, state, event) is Ok,
    ensures
        event is StepCompleted || event is StepApproved || event is StepRejected ==> (status_for(
            flow,
            state,
            event,
        ) matches Some((id, status)) ==> marks_only(
            decided(flow, state, event)->Ok_0,
            id,
            status,
        )),
        event is RunStarted ==> marks_only(
            decided(flow, state, event)->Ok_0,
            Seq::empty(),
            StepStatus::Skipped,
        ),
{
    match event {
        EventModel::RunStarted => {
            let ctx = context_of(flow.steps, state, Json::Null);
            let none = Seq::<char>::empty();
            lemma_starts_mark_nothing(
                flow,
                state.steps,
                ctx,
                entries_of(flow.steps),
                none,
                StepStatus::Skipped,
            );
            lemma_marks_sum(
                hooks_command(HookPhaseModel::BeforeRun, flow.lifecycle.before_run),
                target_starts(flow, state.steps, ctx, entries_of(flow.steps))->Ok_0,
                none,
                StepStatus::Skipped,
            );
        },
        EventModel::StepCompleted { step_id, output } => {
            let step = find_step(flow.steps, step_id)->Some_0;
            if !step.human_loop {
                let done = StepStatus::Completed;
                let next = with_status(state, step_id, done, Some(output));
                let head = hooks_command(HookPhaseModel::AfterStep { step_id }, step.after) + seq![
                    CommandModel::MarkStepStatus { step_id, status: done },
                ];
                lemma_follow_marks(flow, next, step.on_success, step_id, done);
                lemma_marks_sum(
                    head,
                    follow(flow, next, step.on_success)->Ok_0,
                    step_id,
                    done,
                );
            }
        },
        EventModel::StepApproved { step_id, comment } => {
            let step = find_step(flow.steps, step_id)->Some_0;
            let done = StepStatus::Completed;
            let next = approved_state(state, step_id, comment);
            let head = seq![CommandModel::MarkStepStatus { step_id, status: done }];
            lemma_follow_marks(flow, next, step.on_approve, step_id, done);
            lemma_marks_sum(head, follow(flow, next, step.on_approve)->Ok_0, step_id, done);
        },
        EventModel::StepRejected { step_id, feedback } => {
            lemma_find_step_ids(flow.steps, step_id);
            let step = find_step(flow.steps, step_id)->Some_0;
            let done = StepStatus::FailedRejected;
            let next = rejected_state(state, step_id, feedback);
            let head = seq![CommandModel::MarkStepStatus { step_id, status: done }];
            if step.on_reject != Some(seq![step.id]) {
                lemma_follow_marks(flow, next, step.on_reject, step_id, done);
                lemma_marks_sum(head, follow(flow, next, step.on_reject)->Ok_0, step_id, done);
            }
        },
        _ => {},
    }
}

} // verus!
