//! What holds of every run: laws of the phase and of the engine.
use super::derive::{active_ids, all_terminal, any_status, phase_of};
use super::engine::{
    approved_state, attempt_of, cancel_command, decided, due_hooks, end_commands, failed_state,
    follow, hooks_command, needs_met, phase_name, rejected_state, skip_commands, step_completed,
    step_failed, target_start, target_starts, with_active_cancelled, with_status, Decision,
};
use super::types::{
    active, find_run, set_run, terminal, CommandModel, EngineErrorModel, EventModel, HookPhaseModel,
    RunPhase, RunStateModel, StepRunModel, StepStatus,
};
use crate::flow::dag::{
    edges_of, entries_of, ids_of, lemma_find_step_ids, self_rejecting, targets_of, unfed,
};
use crate::flow::laws::{is_sound, keeps, targets_exist};
use crate::flow::types::{find_step, FlowModel, StepModel, DONE};
use crate::flow::validate::StepRule;
use crate::json::Json;
use crate::template::{context_of, contexts_of, ContextModel};
use vstd::prelude::*;

verus! {

/// A run is running exactly as long as some step has not come to its end.
pub proof fn running_until_every_step_has_ended(state: RunStateModel)
    ensures
        phase_of(state) == RunPhase::Running <==> exists|i: int|
            0 <= i < state.steps.len() && !terminal((#[trigger] state.steps[i]).status),
{
}

/// Once every step has ended, a step that failed or was rejected makes the run
/// failed, unless the run was asked to stop and a step was cancelled.
pub proof fn failure_wins(state: RunStateModel)
    requires
        all_terminal(state.steps),
        any_status(state.steps, StepStatus::Failed) || any_status(
            state.steps,
            StepStatus::FailedRejected,
        ),
    ensures
        phase_of(state) == (if state.cancelled && any_status(
            state.steps,
            StepStatus::Cancelled,
        ) {
            RunPhase::Cancelled
        } else {
            RunPhase::Failed
        }),
{
}

/// The active ids are those of the active steps, without the excluded one.
pub proof fn active_ids_are_the_active_steps(
    steps: Seq<StepRunModel>,
    excluding: Option<Seq<char>>,
    id: Seq<char>,
)
    ensures
        active_ids(steps, excluding).contains(id) <==> excluding != Some(id) && exists|i: int|
            0 <= i < steps.len() && (#[trigger] steps[i]).step_id == id && active(steps[i].status),
    decreases steps.len(),
{
    let ids = active_ids(steps, excluding);
    if steps.len() > 0 {
        let rest = steps.drop_last();
        let last = steps.last();
        let before = active_ids(rest, excluding);
        active_ids_are_the_active_steps(rest, excluding, id);
        if active(last.status) && excluding != Some(last.step_id) {
            assert(ids == before.push(last.step_id));
            assert(ids[before.len() as int] == last.step_id);
            if before.contains(id) {
                let k = choose|k: int| 0 <= k < before.len() && before[k] == id;
                assert(ids[k] == id);
            }
            if ids.contains(id) {
                let k = choose|k: int| 0 <= k < ids.len() && ids[k] == id;
                if k < before.len() {
                    assert(before[k] == id);
                }
            }
        }
        if exists|i: int|
            0 <= i < rest.len() && (#[trigger] rest[i]).step_id == id && active(rest[i].status) {
            let i = choose|i: int|
                0 <= i < rest.len() && (#[trigger] rest[i]).step_id == id && active(
                    rest[i].status,
                );
            assert(steps[i] == rest[i]);
        }
        if exists|i: int|
            0 <= i < steps.len() && (#[trigger] steps[i]).step_id == id && active(
                steps[i].status,
            ) {
            let i = choose|i: int|
                0 <= i < steps.len() && (#[trigger] steps[i]).step_id == id && active(
                    steps[i].status,
                );
            if i < rest.len() {
                assert(rest[i] == steps[i]);
            }
        }
    }
}

/// A run with an active step is running.
pub proof fn active_steps_keep_the_run_running(state: RunStateModel)
    requires
        active_ids(state.steps, None).len() > 0,
    ensures
        phase_of(state) == RunPhase::Running,
{
    let id = active_ids(state.steps, None)[0];
    assert(active_ids(state.steps, None).contains(id));
    active_ids_are_the_active_steps(state.steps, None, id);
}

/// Whether a command starts the step `id`.
pub open spec fn starts(c: CommandModel, id: Seq<char>) -> bool {
    match c {
        CommandModel::StartChildRun { step_id } => step_id == id,
        CommandModel::ActivateSteps(list) => list.len() == 1 && list[0].step_id == id,
        _ => false,
    }
}

/// Whether some command starts the step `id`.
pub open spec fn any_starts(commands: Seq<CommandModel>, id: Seq<char>) -> bool {
    exists|k: int| 0 <= k < commands.len() && #[trigger] starts(commands[k], id)
}

/// Whether a command ends the run.
pub open spec fn ends_run(c: CommandModel) -> bool {
    c is MarkRunTerminal
}

/// Whether no command starts a step.
pub open spec fn starts_nothing(commands: Seq<CommandModel>) -> bool {
    forall|k: int|
        0 <= k < commands.len() ==> !((#[trigger] commands[k]) is StartChildRun) && !(
        commands[k] is ActivateSteps)
}

/// Whether no command ends the run.
pub open spec fn ends_nothing(commands: Seq<CommandModel>) -> bool {
    forall|k: int| 0 <= k < commands.len() ==> !ends_run(#[trigger] commands[k])
}

proof fn lemma_found_id(steps: Seq<StepModel>, id: Seq<char>)
    ensures
        find_step(steps, id) matches Some(step) ==> step.id == id,
    decreases steps.len(),
{
    if steps.len() > 0 && steps[0].id != id {
        lemma_found_id(steps.drop_first(), id);
    }
}

proof fn lemma_skips(steps: Seq<StepModel>, runs: Seq<StepRunModel>)
    ensures
        starts_nothing(skip_commands(steps, runs)),
        ends_nothing(skip_commands(steps, runs)),
        forall|k: int|
            0 <= k < skip_commands(steps, runs).len() ==> (#[trigger] skip_commands(
                steps,
                runs,
            )[k]) is MarkStepStatus,
    decreases steps.len(),
{
    if steps.len() > 0 {
        lemma_skips(steps.drop_last(), runs);
    }
}

proof fn lemma_end(flow: FlowModel, state: RunStateModel)
    ensures
        starts_nothing(end_commands(flow, state)),
        all_terminal(state.steps) ==> end_commands(flow, state).len() > 0 && end_commands(
            flow,
            state,
        ).last() == CommandModel::MarkRunTerminal(phase_of(state)) && ends_nothing(
            end_commands(flow, state).drop_last(),
        ),
        !all_terminal(state.steps) ==> end_commands(flow, state).len() == 0,
{
    if all_terminal(state.steps) {
        lemma_skips(flow.steps, state.steps);
        let phase = phase_of(state);
        let head = skip_commands(flow.steps, state.steps) + hooks_command(
            HookPhaseModel::AfterRun,
            due_hooks(flow.lifecycle.after_run, phase),
        );
        assert(end_commands(flow, state) == head + seq![CommandModel::MarkRunTerminal(phase)]);
        assert(end_commands(flow, state).drop_last() =~= head);
        assert(starts_nothing(head));
        assert(ends_nothing(head));
    }
}

proof fn lemma_target_start(
    flow: FlowModel,
    runs: Seq<StepRunModel>,
    ctx: ContextModel,
    target: Seq<char>,
)
    requires
        target_start(flow, runs, ctx, target) is Ok,
    ensures
        ends_nothing(target_start(flow, runs, ctx, target)->Ok_0),
        target_start(flow, runs, ctx, target)->Ok_0.len() <= 1,
        target_start(flow, runs, ctx, target)->Ok_0.len() == 1 ==> starts(
            target_start(flow, runs, ctx, target)->Ok_0[0],
            target,
        ) && target != DONE@ && (find_step(flow.steps, target) matches Some(step) && needs_met(
            flow.steps,
            runs,
            step.needs,
        )),
        target != DONE@ && (find_step(flow.steps, target) matches Some(step) && needs_met(
            flow.steps,
            runs,
            step.needs,
        )) ==> target_start(flow, runs, ctx, target)->Ok_0.len() == 1,
{
    lemma_found_id(flow.steps, target);
}

/// Whether a target may start now.
pub open spec fn may_start(flow: FlowModel, runs: Seq<StepRunModel>, target: Seq<char>) -> bool {
    target != DONE@ && (find_step(flow.steps, target) matches Some(step) && needs_met(
        flow.steps,
        runs,
        step.needs,
    ))
}

/// Of a route's targets exactly those are started whose needs are met; the end
/// of the run is none of them.
pub proof fn exactly_ready_targets_start(
    flow: FlowModel,
    runs: Seq<StepRunModel>,
    ctx: ContextModel,
    targets: Seq<Seq<char>>,
    id: Seq<char>,
)
    requires
        target_starts(flow, runs, ctx, targets) is Ok,
    ensures
        any_starts(target_starts(flow, runs, ctx, targets)->Ok_0, id) <==> targets.contains(id)
            && may_start(flow, runs, id),
        ends_nothing(target_starts(flow, runs, ctx, targets)->Ok_0),
    decreases targets.len(),
{
    let commands = target_starts(flow, runs, ctx, targets)->Ok_0;
    if targets.len() > 0 {
        let rest = targets.drop_last();
        let last = targets.last();
        exactly_ready_targets_start(flow, runs, ctx, rest, id);
        let before = target_starts(flow, runs, ctx, rest)->Ok_0;
        let more = target_start(flow, runs, ctx, last)->Ok_0;
        lemma_target_start(flow, runs, ctx, last);
        assert(commands == before + more);
        assert(targets[targets.len() - 1] == last);
        if any_starts(before, id) {
            let k = choose|k: int| 0 <= k < before.len() && #[trigger] starts(before[k], id);
            assert(starts(commands[k], id));
        }
        if rest.contains(id) {
            let k = choose|k: int| 0 <= k < rest.len() && rest[k] == id;
            assert(targets[k] == id);
        }
        if last == id && may_start(flow, runs, id) {
            assert(more.len() == 1);
            assert(commands[before.len() as int] == more[0]);
            assert(starts(commands[before.len() as int], id));
        }
        if any_starts(commands, id) {
            let k = choose|k: int| 0 <= k < commands.len() && #[trigger] starts(commands[k], id);
            if k < before.len() {
                assert(commands[k] == before[k]);
                assert(starts(before[k], id));
                let j = choose|j: int| 0 <= j < rest.len() && rest[j] == id;
                assert(targets[j] == id);
            } else {
                assert(commands[k] == more[0]);
                assert(last == id);
            }
        }
        if targets.contains(id) && may_start(flow, runs, id) {
            let k = choose|k: int| 0 <= k < targets.len() && targets[k] == id;
            if k < rest.len() {
                assert(rest[k] == id);
            }
        }
        assert forall|k: int| 0 <= k < commands.len() implies !ends_run(#[trigger] commands[k]) by {
            if k < before.len() {
                assert(commands[k] == before[k]);
            } else {
                assert(commands[k] == more[k - before.len()]);
            }
        }
    }
}

proof fn lemma_starts_in_tail(head: Seq<CommandModel>, tail: Seq<CommandModel>, id: Seq<char>)
    requires
        starts_nothing(head),
    ensures
        any_starts(head + tail, id) <==> any_starts(tail, id),
{
    let all = head + tail;
    if any_starts(all, id) {
        let k = choose|k: int| 0 <= k < all.len() && #[trigger] starts(all[k], id);
        if k < head.len() {
            assert(all[k] == head[k]);
        } else {
            assert(all[k] == tail[k - head.len()]);
            assert(starts(tail[k - head.len()], id));
        }
    }
    if any_starts(tail, id) {
        let k = choose|k: int| 0 <= k < tail.len() && #[trigger] starts(tail[k], id);
        assert(all[k + head.len()] == tail[k]);
        assert(starts(all[k + head.len()], id));
    }
}

proof fn lemma_nothing_starts(commands: Seq<CommandModel>, id: Seq<char>)
    requires
        starts_nothing(commands),
    ensures
        !any_starts(commands, id),
{
}

proof fn lemma_follow(
    flow: FlowModel,
    state: RunStateModel,
    route: Option<Seq<Seq<char>>>,
    id: Seq<char>,
)
    requires
        follow(flow, state, route) is Ok,
    ensures
        any_starts(follow(flow, state, route)->Ok_0, id) <==> targets_of(route).contains(id)
            && may_start(flow, state.steps, id),
        ends_last(follow(flow, state, route)->Ok_0),
        ends_any(follow(flow, state, route)->Ok_0) ==> all_terminal(state.steps) && follow(
            flow,
            state,
            route,
        )->Ok_0 == end_commands(flow, state),
{
    let ctx = context_of(flow.steps, state, Json::Null);
    let targets = targets_of(route);
    exactly_ready_targets_start(flow, state.steps, ctx, targets, id);
    let started = target_starts(flow, state.steps, ctx, targets)->Ok_0;
    lemma_end(flow, state);
    if started.len() == 0 {
        lemma_nothing_starts(end_commands(flow, state), id);
        let all = end_commands(flow, state);
        assert forall|k: int| 0 <= k < all.len() && ends_run(#[trigger] all[k]) implies k
            == all.len() - 1 by {
            if k < all.len() - 1 {
                assert(all.drop_last()[k] == all[k]);
            }
        }
    }
}

/// Whether some command ends the run.
pub open spec fn ends_any(commands: Seq<CommandModel>) -> bool {
    exists|k: int| 0 <= k < commands.len() && ends_run(#[trigger] commands[k])
}

/// Whether a command that ends the run is the last one, and ends it in a phase
/// other than running.
pub open spec fn ends_last(commands: Seq<CommandModel>) -> bool {
    forall|k: int|
        0 <= k < commands.len() && ends_run(#[trigger] commands[k]) ==> k == commands.len() - 1 && (
        commands[k] matches CommandModel::MarkRunTerminal(phase) ==> phase != RunPhase::Running)
}

/// When a step completes, a step of its `on_success` route starts exactly where
/// all that it needs has completed.
pub proof fn gate_opens_when_needs_are_met(
    flow: FlowModel,
    state: RunStateModel,
    id: Seq<char>,
    output: Json,
    gate: Seq<char>,
)
    requires
        find_step(flow.steps, id) matches Some(step) && !step.human_loop && targets_of(
            step.on_success,
        ).contains(gate),
        gate != DONE@,
        find_step(flow.steps, gate) is Some,
        decided(flow, state, EventModel::StepCompleted { step_id: id, output }) is Ok,
    ensures
        any_starts(
            decided(flow, state, EventModel::StepCompleted { step_id: id, output })->Ok_0,
            gate,
        ) <==> needs_met(
            flow.steps,
            with_status(state, id, StepStatus::Completed, Some(output)).steps,
            find_step(flow.steps, gate)->Some_0.needs,
        ),
{
    let step = find_step(flow.steps, id)->Some_0;
    let next = with_status(state, id, StepStatus::Completed, Some(output));
    let head = hooks_command(HookPhaseModel::AfterStep { step_id: id }, step.after) + seq![
        CommandModel::MarkStepStatus { step_id: id, status: StepStatus::Completed },
    ];
    assert(starts_nothing(head));
    lemma_follow(flow, next, step.on_success, gate);
    lemma_starts_in_tail(head, follow(flow, next, step.on_success)->Ok_0, gate);
}

/// When a step has failed for good, every other step that is under way is
/// cancelled.
pub proof fn failure_cancels_the_others(
    flow: FlowModel,
    state: RunStateModel,
    id: Seq<char>,
    reason: Seq<char>,
    i: int,
)
    requires
        find_step(flow.steps, id) matches Some(step) && attempt_of(state.steps, id) > step.retries,
        0 <= i < state.steps.len(),
        active(state.steps[i].status),
        state.steps[i].step_id != id,
        decided(flow, state, EventModel::StepFailed { step_id: id, reason }) is Ok,
    ensures
        ({
            let commands = decided(flow, state, EventModel::StepFailed { step_id: id, reason })->Ok_0;
            &&& commands.len() > 1
            &&& commands[0] == CommandModel::MarkStepStatus {
                step_id: id,
                status: StepStatus::Failed,
            }
            &&& commands[1] matches CommandModel::CancelSteps(ids) && ids.contains(
                state.steps[i].step_id,
            ) && !ids.contains(id)
        }),
{
    active_ids_are_the_active_steps(state.steps, Some(id), state.steps[i].step_id);
    active_ids_are_the_active_steps(state.steps, Some(id), id);
    let ids = active_ids(state.steps, Some(id));
    assert(ids.len() > 0);
    let head = seq![CommandModel::MarkStepStatus { step_id: id, status: StepStatus::Failed }]
        + cancel_command(ids);
    assert(head[0] == CommandModel::MarkStepStatus { step_id: id, status: StepStatus::Failed });
    assert(head[1] == CommandModel::CancelSteps(ids));
}

/// As long as a step has retries left, its failure starts it again and does
/// nothing else: no other step is cancelled, and no route is taken.
pub proof fn retries_come_before_failure(
    flow: FlowModel,
    state: RunStateModel,
    id: Seq<char>,
    reason: Seq<char>,
)
    requires
        find_step(flow.steps, id) matches Some(step) && attempt_of(state.steps, id) <= step.retries,
        attempt_of(state.steps, id) < u32::MAX,
        decided(flow, state, EventModel::StepFailed { step_id: id, reason }) is Ok,
    ensures
        ({
            let commands = decided(flow, state, EventModel::StepFailed { step_id: id, reason })->Ok_0;
            &&& commands.len() == 1
            &&& starts(commands[0], id)
            &&& commands[0] matches CommandModel::ActivateSteps(list) ==> list[0].attempt
                == attempt_of(state.steps, id) + 1
        }),
{
    lemma_found_id(flow.steps, id);
}

/// A step that is rejected and loops back to itself is started again, with the
/// next attempt, and the run goes on.
pub proof fn rejected_step_loops_back(
    flow: FlowModel,
    state: RunStateModel,
    id: Seq<char>,
    feedback: Seq<char>,
)
    requires
        find_step(flow.steps, id) matches Some(step) && self_rejecting(step),
        find_run(state.steps, id) matches Some(run) && run.attempt < u32::MAX,
        decided(flow, state, EventModel::StepRejected { step_id: id, feedback }) is Ok,
    ensures
        ({
            let commands = decided(
                flow,
                state,
                EventModel::StepRejected { step_id: id, feedback },
            )->Ok_0;
            &&& commands.len() == 2
            &&& commands[0] == CommandModel::MarkStepStatus {
                step_id: id,
                status: StepStatus::FailedRejected,
            }
            &&& starts(commands[1], id)
            &&& commands[1] matches CommandModel::ActivateSteps(list) ==> list[0].attempt
                == find_run(state.steps, id)->Some_0.attempt + 1
        }),
{
    lemma_found_id(flow.steps, id);
}

/// A run that is cancelled, or that runs past its deadline, ends at once, and
/// every step that is under way is cancelled. (A step without an id is none.)
pub proof fn stopped_run_ends_at_once(flow: FlowModel, state: RunStateModel, i: int)
    requires
        0 <= i < state.steps.len(),
        active(state.steps[i].status),
        state.steps[i].step_id.len() > 0,
    ensures
        ({
            let cancelled = decided(flow, state, EventModel::CancelRequested)->Ok_0;
            let late = decided(flow, state, EventModel::RunDeadlineExceeded)->Ok_0;
            &&& cancelled.len() == 2
            &&& late.len() == 2
            &&& cancelled[1] == CommandModel::MarkRunTerminal(RunPhase::Cancelled)
            &&& late[1] == CommandModel::MarkRunTerminal(RunPhase::Failed)
            &&& cancelled[0] == late[0]
            &&& cancelled[0] matches CommandModel::CancelSteps(ids) && ids.contains(
                state.steps[i].step_id,
            )
        }),
{
    let nobody = Seq::<char>::empty();
    active_ids_are_the_active_steps(state.steps, Some(nobody), state.steps[i].step_id);
    let ids = active_ids(state.steps, Some(nobody));
    assert(ids.len() > 0);
}

/// The state that an event about a step leads to.
pub open spec fn state_after(state: RunStateModel, event: EventModel) -> RunStateModel {
    match event {
        EventModel::StepCompleted { step_id, output } => with_status(
            state,
            step_id,
            StepStatus::Completed,
            Some(output),
        ),
        EventModel::StepFailed { step_id, reason } => failed_state(state, step_id, reason),
        EventModel::StepApproved { step_id, comment } => approved_state(state, step_id, comment),
        EventModel::StepRejected { step_id, feedback } => rejected_state(state, step_id, feedback),
        EventModel::SubflowFinished { step_id, phase, outputs } => if phase
            == RunPhase::Completed {
            with_status(
                state,
                step_id,
                StepStatus::Completed,
                Some(
                    match outputs {
                        Some(v) => v,
                        None => Json::Null,
                    },
                ),
            )
        } else {
            failed_state(state, step_id, "subflow ended in phase "@ + phase_name(phase))
        },
        _ => state,
    }
}

proof fn lemma_ends_in_tail(head: Seq<CommandModel>, tail: Seq<CommandModel>)
    requires
        ends_nothing(head),
        ends_last(tail),
    ensures
        ends_last(head + tail),
        ends_any(head + tail) <==> ends_any(tail),
        ends_any(tail) ==> (head + tail).last() == tail.last(),
{
    let all = head + tail;
    assert forall|k: int| 0 <= k < all.len() && ends_run(#[trigger] all[k]) implies k == all.len()
        - 1 && (all[k] matches CommandModel::MarkRunTerminal(phase) ==> phase
        != RunPhase::Running) by {
        if k < head.len() {
            assert(all[k] == head[k]);
        } else {
            assert(all[k] == tail[k - head.len()]);
        }
    }
    if ends_any(all) {
        let k = choose|k: int| 0 <= k < all.len() && ends_run(#[trigger] all[k]);
        if k < head.len() {
            assert(all[k] == head[k]);
        } else {
            assert(all[k] == tail[k - head.len()]);
        }
    }
    if ends_any(tail) {
        let k = choose|k: int| 0 <= k < tail.len() && ends_run(#[trigger] tail[k]);
        assert(all[k + head.len()] == tail[k]);
    }
}

proof fn lemma_completed_end(flow: FlowModel, state: RunStateModel, id: Seq<char>, output: Json)
    requires
        step_completed(flow, state, id, output) is Ok,
    ensures
        ends_last(step_completed(flow, state, id, output)->Ok_0),
        ends_any(step_completed(flow, state, id, output)->Ok_0) ==> ended_in(
            step_completed(flow, state, id, output)->Ok_0,
            flow,
            with_status(state, id, StepStatus::Completed, Some(output)),
        ),
{
    let step = find_step(flow.steps, id)->Some_0;
    let next = with_status(state, id, StepStatus::Completed, Some(output));
    let hooks = hooks_command(HookPhaseModel::AfterStep { step_id: id }, step.after);
    if !step.human_loop {
        let head = hooks + seq![
            CommandModel::MarkStepStatus { step_id: id, status: StepStatus::Completed },
        ];
        lemma_follow(flow, next, step.on_success, id);
        lemma_ends_in_tail(head, follow(flow, next, step.on_success)->Ok_0);
        lemma_ended(head, flow, next, step.on_success);
    }
}

proof fn lemma_failed_end(flow: FlowModel, state: RunStateModel, id: Seq<char>, reason: Seq<char>)
    requires
        step_failed(flow, state, id, reason) is Ok,
    ensures
        ends_last(step_failed(flow, state, id, reason)->Ok_0),
        ends_any(step_failed(flow, state, id, reason)->Ok_0) ==> ended_in(
            step_failed(flow, state, id, reason)->Ok_0,
            flow,
            failed_state(state, id, reason),
        ),
{
    let step = find_step(flow.steps, id)->Some_0;
    let next = failed_state(state, id, reason);
    if attempt_of(state.steps, id) > step.retries {
        let head = seq![CommandModel::MarkStepStatus { step_id: id, status: StepStatus::Failed }]
            + cancel_command(active_ids(state.steps, Some(id)));
        lemma_follow(flow, next, step.on_failure, id);
        lemma_ends_in_tail(head, follow(flow, next, step.on_failure)->Ok_0);
        lemma_ended(head, flow, next, step.on_failure);
    }
}

/// Whether commands end a run as the state `next` asks for it: every step has
/// ended, each step of the flow that never ran is marked skipped, and the run's
/// phase is that of `next`.
pub open spec fn ended_in(
    commands: Seq<CommandModel>,
    flow: FlowModel,
    next: RunStateModel,
) -> bool {
    &&& all_terminal(next.steps)
    &&& commands.len() > 0
    &&& commands.last() == CommandModel::MarkRunTerminal(phase_of(next))
    &&& forall|i: int|
        0 <= i < flow.steps.len() && find_run(next.steps, (#[trigger] flow.steps[i]).id) is None
            ==> commands.contains(skipped(flow.steps[i].id))
}

/// The command that marks a step as skipped.
pub open spec fn skipped(id: Seq<char>) -> CommandModel {
    CommandModel::MarkStepStatus { step_id: id, status: StepStatus::Skipped }
}

proof fn lemma_skipped(steps: Seq<StepModel>, runs: Seq<StepRunModel>, i: int)
    requires
        0 <= i < steps.len(),
        find_run(runs, steps[i].id) is None,
    ensures
        skip_commands(steps, runs).contains(skipped(steps[i].id)),
    decreases steps.len(),
{
    let all = skip_commands(steps, runs);
    let before = skip_commands(steps.drop_last(), runs);
    if i == steps.len() - 1 {
        assert(all[before.len() as int] == skipped(steps[i].id));
    } else {
        assert(steps.drop_last()[i] == steps[i]);
        lemma_skipped(steps.drop_last(), runs, i);
        let k = choose|k: int| 0 <= k < before.len() && before[k] == skipped(steps[i].id);
        assert(all[k] == before[k]);
    }
}

proof fn lemma_ended(
    head: Seq<CommandModel>,
    flow: FlowModel,
    next: RunStateModel,
    route: Option<Seq<Seq<char>>>,
)
    requires
        follow(flow, next, route) is Ok,
        ends_nothing(head),
    ensures
        ends_any(follow(flow, next, route)->Ok_0) ==> ended_in(
            head + follow(flow, next, route)->Ok_0,
            flow,
            next,
        ),
{
    lemma_follow(flow, next, route, Seq::empty());
    lemma_end(flow, next);
    let tail = follow(flow, next, route)->Ok_0;
    if ends_any(tail) {
        let all = head + tail;
        let skips = skip_commands(flow.steps, next.steps);
        assert forall|i: int|
            0 <= i < flow.steps.len() && find_run(next.steps, (#[trigger] flow.steps[i]).id) is None
            implies all.contains(skipped(flow.steps[i].id)) by {
            lemma_skipped(flow.steps, next.steps, i);
            let k = choose|k: int| 0 <= k < skips.len() && skips[k] == skipped(flow.steps[i].id);
            assert(tail[k] == skips[k]);
            assert(all[k + head.len()] == tail[k]);
        }
    }
}

/// A run ends only with the last command of a decision, and never in the phase
/// running. Where an event about a step ends it, every step has ended, every
/// step of the flow that never ran is marked skipped, and the phase is the one
/// that the steps give.
pub proof fn run_ends_when_every_step_has_ended(
    flow: FlowModel,
    state: RunStateModel,
    event: EventModel,
)
    requires
        decided(flow, state, event) is Ok,
    ensures
        ends_last(decided(flow, state, event)->Ok_0),
        ends_any(decided(flow, state, event)->Ok_0) ==> event is RunDeadlineExceeded || event
            is CancelRequested || ended_in(
            decided(flow, state, event)->Ok_0,
            flow,
            state_after(state, event),
        ),
        ends_any(decided(flow, state, event)->Ok_0) ==> !(event is RunStarted),
{
    match event {
        EventModel::RunStarted => {
            let ctx = context_of(flow.steps, state, Json::Null);
            exactly_ready_targets_start(
                flow,
                state.steps,
                ctx,
                entries_of(flow.steps),
                Seq::empty(),
            );
            let head = hooks_command(HookPhaseModel::BeforeRun, flow.lifecycle.before_run);
            lemma_ends_in_tail(
                head,
                target_starts(flow, state.steps, ctx, entries_of(flow.steps))->Ok_0,
            );
        },
        EventModel::StepCompleted { step_id, output } => {
            lemma_completed_end(flow, state, step_id, output);
        },
        EventModel::StepFailed { step_id, reason } => {
            lemma_failed_end(flow, state, step_id, reason);
        },
        EventModel::SubflowFinished { step_id, phase, outputs } => {
            if phase == RunPhase::Completed {
                lemma_completed_end(
                    flow,
                    state,
                    step_id,
                    match outputs {
                        Some(v) => v,
                        None => Json::Null,
                    },
                );
            } else {
                lemma_failed_end(
                    flow,
                    state,
                    step_id,
                    "subflow ended in phase "@ + phase_name(phase),
                );
            }
        },
        EventModel::StepApproved { step_id, comment } => {
            let step = find_step(flow.steps, step_id)->Some_0;
            let next = approved_state(state, step_id, comment);
            let head = seq![CommandModel::MarkStepStatus { step_id, status: StepStatus::Completed }];
            lemma_follow(flow, next, step.on_approve, step_id);
            lemma_ends_in_tail(head, follow(flow, next, step.on_approve)->Ok_0);
            lemma_ended(head, flow, next, step.on_approve);
        },
        EventModel::StepRejected { step_id, feedback } => {
            let step = find_step(flow.steps, step_id)->Some_0;
            let next = rejected_state(state, step_id, feedback);
            let head = seq![
                CommandModel::MarkStepStatus { step_id, status: StepStatus::FailedRejected },
            ];
            if !self_rejecting(step) {
                lemma_follow(flow, next, step.on_reject, step_id);
                lemma_ends_in_tail(head, follow(flow, next, step.on_reject)->Ok_0);
                lemma_ended(head, flow, next, step.on_reject);
            }
        },
        _ => {},
    }
}

/// Whether an error names a step of the flow.
pub open spec fn blames_own_step(flow: FlowModel, decided: Decision) -> bool {
    decided matches Err(EngineErrorModel::UnknownStep(id)) ==> find_step(flow.steps, id) is Some
}

proof fn lemma_starts_known(
    flow: FlowModel,
    runs: Seq<StepRunModel>,
    ctx: ContextModel,
    targets: Seq<Seq<char>>,
)
    requires
        targets_exist(flow.steps, targets),
    ensures
        blames_own_step(flow, target_starts(flow, runs, ctx, targets)),
    decreases targets.len(),
{
    if targets.len() > 0 {
        let rest = targets.drop_last();
        assert(targets[targets.len() - 1] == targets.last());
        assert forall|i: int| 0 <= i < rest.len() implies (#[trigger] rest[i]) == DONE@ || find_step(
            flow.steps,
            rest[i],
        ) is Some by {
            assert(targets[i] == rest[i]);
        }
        lemma_starts_known(flow, runs, ctx, rest);
        lemma_found_id(flow.steps, targets.last());
    }
}

proof fn lemma_entries_known(
    steps: Seq<StepModel>,
    edges: Seq<(Seq<char>, Seq<char>)>,
    all: Seq<StepModel>,
)
    requires
        forall|i: int| 0 <= i < steps.len() ==> all.contains(#[trigger] steps[i]),
    ensures
        targets_exist(all, unfed(steps, edges)),
    decreases steps.len(),
{
    if steps.len() > 0 {
        let rest = steps.drop_last();
        assert forall|i: int| 0 <= i < rest.len() implies all.contains(#[trigger] rest[i]) by {
            assert(steps[i] == rest[i]);
        }
        lemma_entries_known(rest, edges, all);
        let last = steps.last();
        assert(all.contains(steps[steps.len() - 1]));
        let k = choose|k: int| 0 <= k < all.len() && all[k] == last;
        assert(ids_of(all)[k] == last.id);
        lemma_find_step_ids(all, last.id);
        let before = unfed(rest, edges);
        let ids = unfed(steps, edges);
        assert forall|i: int| 0 <= i < ids.len() implies (#[trigger] ids[i]) == DONE@ || find_step(
            all,
            ids[i],
        ) is Some by {
            if i < before.len() {
                assert(ids[i] == before[i]);
            }
        }
    }
}

/// The step that an event is about, if it is about one.
pub open spec fn subject(event: EventModel) -> Option<Seq<char>> {
    match event {
        EventModel::StepCompleted { step_id, .. } => Some(step_id),
        EventModel::StepFailed { step_id, .. } => Some(step_id),
        EventModel::StepApproved { step_id, .. } => Some(step_id),
        EventModel::StepRejected { step_id, .. } => Some(step_id),
        EventModel::SubflowFinished { step_id, .. } => Some(step_id),
        _ => None,
    }
}

/// In a sound flow no route leads to a step that is not there: an event about a
/// step of the flow fails only for a template of a step of the flow.
pub proof fn sound_flow_knows_its_steps(flow: FlowModel, state: RunStateModel, event: EventModel)
    requires
        is_sound(flow),
        subject(event) matches Some(id) ==> find_step(flow.steps, id) is Some,
    ensures
        blames_own_step(flow, decided(flow, state, event)),
{
    match subject(event) {
        Some(id) => {
            lemma_find_step_ids(flow.steps, id);
            let step = find_step(flow.steps, id)->Some_0;
            let k = choose|k: int| 0 <= k < flow.steps.len() && flow.steps[k] == step;
            assert(keeps(StepRule::TargetsExist, flow, flow.steps[k]));
            let next = state_after(state, event);
            let ctx = context_of(flow.steps, next, Json::Null);
            lemma_starts_known(flow, next.steps, ctx, targets_of(step.on_success));
            lemma_starts_known(flow, next.steps, ctx, targets_of(step.on_failure));
            lemma_starts_known(flow, next.steps, ctx, targets_of(step.on_approve));
            lemma_starts_known(flow, next.steps, ctx, targets_of(step.on_reject));
        },
        None => {
            let steps = flow.steps;
            assert forall|i: int| 0 <= i < steps.len() implies steps.contains(
                #[trigger] steps[i],
            ) by {}
            lemma_entries_known(steps, edges_of(steps, false), steps);
            lemma_entries_known(steps, edges_of(steps, true), steps);
            lemma_starts_known(
                flow,
                state.steps,
                context_of(steps, state, Json::Null),
                entries_of(steps),
            );
        },
    }
}

/// A run without the reason of its failure.
spec fn without_reason(run: StepRunModel) -> StepRunModel {
    StepRunModel { failure_reason: None, ..run }
}

/// Whether runs are the same but for the reasons of their failures.
spec fn same_but_reasons(a: Seq<StepRunModel>, b: Seq<StepRunModel>) -> bool {
    a.len() == b.len() && forall|i: int|
        0 <= i < a.len() ==> without_reason(#[trigger] a[i]) == without_reason(b[i])
}

proof fn lemma_same_found(a: Seq<StepRunModel>, b: Seq<StepRunModel>, id: Seq<char>)
    requires
        same_but_reasons(a, b),
    ensures
        match (find_run(a, id), find_run(b, id)) {
            (Some(x), Some(y)) => without_reason(x) == without_reason(y),
            (None, None) => true,
            _ => false,
        },
    decreases a.len(),
{
    if a.len() > 0 {
        let x = a.drop_first();
        let y = b.drop_first();
        assert(without_reason(a[0]) == without_reason(b[0]));
        assert forall|i: int| 0 <= i < x.len() implies without_reason(#[trigger] x[i])
            == without_reason(y[i]) by {
            assert(without_reason(a[i + 1]) == without_reason(b[i + 1]));
        }
        lemma_same_found(x, y, id);
    }
}

proof fn lemma_same_set(
    runs: Seq<StepRunModel>,
    id: Seq<char>,
    x: StepRunModel,
    y: StepRunModel,
)
    requires
        without_reason(x) == without_reason(y),
    ensures
        same_but_reasons(set_run(runs, id, x), set_run(runs, id, y)),
    decreases runs.len(),
{
    if runs.len() > 0 {
        let rest = runs.drop_first();
        lemma_same_set(rest, id, x, y);
        let a = set_run(runs, id, x);
        let b = set_run(runs, id, y);
        let c = set_run(rest, id, x);
        let d = set_run(rest, id, y);
        assert forall|i: int| 0 <= i < a.len() implies without_reason(#[trigger] a[i])
            == without_reason(b[i]) by {
            if i > 0 && runs[0].step_id != id {
                assert(without_reason(c[i - 1]) == without_reason(d[i - 1]));
            }
        }
    }
}

proof fn lemma_same_needs(
    steps: Seq<StepModel>,
    a: Seq<StepRunModel>,
    b: Seq<StepRunModel>,
    needs: Seq<Seq<char>>,
)
    requires
        same_but_reasons(a, b),
    ensures
        needs_met(steps, a, needs) == needs_met(steps, b, needs),
{
    assert forall|i: int| 0 <= i < needs.len() implies (match (
        find_run(a, #[trigger] needs[i]),
        find_run(b, needs[i]),
    ) {
        (Some(x), Some(y)) => without_reason(x) == without_reason(y),
        (None, None) => true,
        _ => false,
    }) by {
        lemma_same_found(a, b, needs[i]);
    }
}

proof fn lemma_same_contexts(steps: Seq<StepModel>, a: Seq<StepRunModel>, b: Seq<StepRunModel>)
    requires
        same_but_reasons(a, b),
    ensures
        contexts_of(steps, a) == contexts_of(steps, b),
    decreases steps.len(),
{
    if steps.len() > 0 {
        lemma_same_contexts(steps.drop_last(), a, b);
        lemma_same_found(a, b, steps.last().id);
    }
}

proof fn lemma_same_starts(
    flow: FlowModel,
    a: Seq<StepRunModel>,
    b: Seq<StepRunModel>,
    ctx: ContextModel,
    targets: Seq<Seq<char>>,
)
    requires
        same_but_reasons(a, b),
    ensures
        target_starts(flow, a, ctx, targets) == target_starts(flow, b, ctx, targets),
    decreases targets.len(),
{
    if targets.len() > 0 {
        let target = targets.last();
        lemma_same_starts(flow, a, b, ctx, targets.drop_last());
        lemma_same_found(a, b, target);
        if let Some(step) = find_step(flow.steps, target) {
            lemma_same_needs(flow.steps, a, b, step.needs);
        }
        assert(target_start(flow, a, ctx, target) == target_start(flow, b, ctx, target));
    }
}

proof fn lemma_same_skips(steps: Seq<StepModel>, a: Seq<StepRunModel>, b: Seq<StepRunModel>)
    requires
        same_but_reasons(a, b),
    ensures
        skip_commands(steps, a) == skip_commands(steps, b),
    decreases steps.len(),
{
    if steps.len() > 0 {
        lemma_same_skips(steps.drop_last(), a, b);
        lemma_same_found(a, b, steps.last().id);
    }
}

proof fn lemma_same_status(a: Seq<StepRunModel>, b: Seq<StepRunModel>, status: StepStatus)
    requires
        same_but_reasons(a, b),
    ensures
        all_terminal(a) ==> all_terminal(b),
        any_status(a, status) ==> any_status(b, status),
{
    assert forall|i: int| 0 <= i < b.len() implies (#[trigger] b[i]).status == a[i].status by {
        assert(without_reason(a[i]) == without_reason(b[i]));
    }
    if any_status(a, status) {
        let i = choose|i: int| 0 <= i < a.len() && (#[trigger] a[i]).status == status;
        assert(b[i].status == status);
    }
}

proof fn lemma_same_phase(a: RunStateModel, b: RunStateModel)
    requires
        same_but_reasons(a.steps, b.steps),
        a.cancelled == b.cancelled,
    ensures
        all_terminal(a.steps) == all_terminal(b.steps),
        phase_of(a) == phase_of(b),
{
    assert forall|i: int| 0 <= i < b.steps.len() implies without_reason(#[trigger] b.steps[i])
        == without_reason(a.steps[i]) by {
        assert(without_reason(a.steps[i]) == without_reason(b.steps[i]));
    }
    lemma_same_status(a.steps, b.steps, StepStatus::Cancelled);
    lemma_same_status(b.steps, a.steps, StepStatus::Cancelled);
    lemma_same_status(a.steps, b.steps, StepStatus::Failed);
    lemma_same_status(b.steps, a.steps, StepStatus::Failed);
    lemma_same_status(a.steps, b.steps, StepStatus::FailedRejected);
    lemma_same_status(b.steps, a.steps, StepStatus::FailedRejected);
}

/// The reason of a failure is for the record: what is decided does not depend
/// on it.
pub proof fn reason_decides_nothing(
    flow: FlowModel,
    state: RunStateModel,
    id: Seq<char>,
    reason: Seq<char>,
    other: Seq<char>,
)
    ensures
        decided(flow, state, EventModel::StepFailed { step_id: id, reason }) == decided(
            flow,
            state,
            EventModel::StepFailed { step_id: id, reason: other },
        ),
{
    let stopped = with_active_cancelled(with_status(state, id, StepStatus::Failed, None));
    let a = failed_state(state, id, reason);
    let b = failed_state(state, id, other);
    match find_run(stopped.steps, id) {
        Some(run) => {
            lemma_same_set(
                stopped.steps,
                id,
                StepRunModel { failure_reason: Some(reason), ..run },
                StepRunModel { failure_reason: Some(other), ..run },
            );
        },
        None => {},
    }
    assert(same_but_reasons(a.steps, b.steps));
    if let Some(step) = find_step(flow.steps, id) {
        lemma_same_contexts(flow.steps, a.steps, b.steps);
        let ctx = context_of(flow.steps, a, Json::Null);
        assert(ctx == context_of(flow.steps, b, Json::Null));
        lemma_same_starts(flow, a.steps, b.steps, ctx, targets_of(step.on_failure));
        lemma_same_phase(a, b);
        lemma_same_skips(flow.steps, a.steps, b.steps);
        assert(end_commands(flow, a) == end_commands(flow, b));
        assert(follow(flow, a, step.on_failure) == follow(flow, b, step.on_failure));
    }
}

/// A subflow that completed is decided like a step that completed with its
/// outputs; one that ended otherwise like a step that failed, whatever the
/// reason.
pub proof fn subflow_ends_like_its_step(
    flow: FlowModel,
    state: RunStateModel,
    id: Seq<char>,
    phase: RunPhase,
    outputs: Option<Json>,
    reason: Seq<char>,
)
    ensures
        decided(flow, state, EventModel::SubflowFinished { step_id: id, phase, outputs }) == (
        if phase == RunPhase::Completed {
            decided(
                flow,
                state,
                EventModel::StepCompleted {
                    step_id: id,
                    output: match outputs {
                        Some(v) => v,
                        None => Json::Null,
                    },
                },
            )
        } else {
            decided(flow, state, EventModel::StepFailed { step_id: id, reason })
        }),
{
    if phase != RunPhase::Completed {
        reason_decides_nothing(
            flow,
            state,
            id,
            "subflow ended in phase "@ + phase_name(phase),
            reason,
        );
    }
}

} // verus!
