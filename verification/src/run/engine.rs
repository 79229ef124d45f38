//! The engine: from a flow, the state of a run and an event to the commands
//! that carry the run on.
use super::derive::{active_ids, all_terminal, are_all_terminal, phase, phase_of};
use super::types::{
    active, find_run, pending_run, set_run, ActivationModel, ApprovalStatus, Command, CommandModel,
    EngineError, EngineErrorModel, Event, EventModel, HookPhase, HookPhaseModel, RunPhase, RunState,
    RunStateModel, StepActivation, StepRun, StepRunModel, StepStatus, Timestamp,
};
use crate::copy::{extend, put, Duplicate};
use crate::flow::dag::{self, entries_of, self_rejecting, targets_of};
use crate::flow::types::{
    find_step, step_kind, FlowDefinition, FlowModel, HookCall, HookCondition, HookModel,
    RouteTarget, Step, StepModel, StepWith, StepWithModel, DONE,
};
use crate::json::{Json, JsonValue};
use crate::template::{self, context_of, resolved, ContextModel, TemplateContext};
use crate::text::{cat2, cat3, same_text};
use vstd::prelude::*;

verus! {

/// The commands that an event leads to, or why there are none.
pub type Decision = Result<Seq<CommandModel>, EngineErrorModel>;

/// What a result of the engine denotes.
pub open spec fn decision(r: Result<Vec<Command>, EngineError>) -> Decision {
    match r {
        Ok(commands) => Ok(commands.deep_view()),
        Err(e) => Err(e@),
    }
}

/// The template of a step's input: empty where it is no cli step.
pub open spec fn input_template(step: StepModel) -> Seq<char> {
    match step_kind(step) {
        Some(StepWithModel::Cli(with)) => with.input,
        _ => Seq::empty(),
    }
}

/// A template of a step resolved; a failure counts against the step.
pub open spec fn step_text(step: StepModel, template: Seq<char>, ctx: ContextModel) -> Result<
    Seq<char>,
    EngineErrorModel,
> {
    match resolved(template, ctx, step.id) {
        Ok(t) => Ok(t),
        Err(_) => Err(EngineErrorModel::UnknownStep(step.id)),
    }
}

/// The input of a step that starts again after a rejection: the resolved
/// `reject_input` or, without one, the resolved input and the feedback.
pub open spec fn reject_text(step: StepModel, ctx: ContextModel, feedback: Seq<char>) -> Result<
    Seq<char>,
    EngineErrorModel,
> {
    match step.reject_input {
        Some(template) => step_text(step, template, ctx),
        None => match step_text(step, input_template(step), ctx) {
            Ok(t) => Ok(t + "\n\nFeedback: "@ + feedback),
            Err(e) => Err(e),
        },
    }
}

/// Whether every step that `needs` names exists and has completed.
pub open spec fn needs_met(
    steps: Seq<StepModel>,
    runs: Seq<StepRunModel>,
    needs: Seq<Seq<char>>,
) -> bool {
    forall|i: int|
        0 <= i < needs.len() ==> find_step(steps, #[trigger] needs[i]) is Some && (find_run(
            runs,
            needs[i],
        ) matches Some(run) && run.status == StepStatus::Completed)
}

/// The attempt that the next start of `id` is.
pub open spec fn next_attempt(runs: Seq<StepRunModel>, id: Seq<char>) -> u32 {
    match find_run(runs, id) {
        Some(run) => (run.attempt + 1) as u32,
        None => 1,
    }
}

/// The command that starts a step: a child run for a subflow, else the step
/// itself with its attempt and its input.
pub open spec fn start_command(step: StepModel, attempt: u32, input: Seq<char>) -> CommandModel {
    match step_kind(step) {
        Some(StepWithModel::Subflow(_)) => CommandModel::StartChildRun { step_id: step.id },
        _ => CommandModel::ActivateSteps(
            seq![ActivationModel { step_id: step.id, attempt, input }],
        ),
    }
}

/// The start of one routing target: nothing for the end of the run or for a
/// step whose `needs` are not met.
pub open spec fn target_start(
    flow: FlowModel,
    runs: Seq<StepRunModel>,
    ctx: ContextModel,
    target: Seq<char>,
) -> Decision {
    if target == DONE@ {
        Ok(Seq::empty())
    } else {
        match find_step(flow.steps, target) {
            None => Err(EngineErrorModel::UnknownStep(target)),
            Some(step) => if !needs_met(flow.steps, runs, step.needs) {
                Ok(Seq::empty())
            } else if step_kind(step) matches Some(StepWithModel::Subflow(_)) {
                Ok(seq![start_command(step, 0, Seq::empty())])
            } else {
                match step_text(step, input_template(step), ctx) {
                    Ok(input) => Ok(
                        seq![start_command(step, next_attempt(runs, target), input)],
                    ),
                    Err(e) => Err(e),
                }
            },
        }
    }
}

/// The starts of several routing targets, the first failure counting.
pub open spec fn target_starts(
    flow: FlowModel,
    runs: Seq<StepRunModel>,
    ctx: ContextModel,
    targets: Seq<Seq<char>>,
) -> Decision
    decreases targets.len(),
{
    if targets.len() == 0 {
        Ok(Seq::empty())
    } else {
        match target_starts(flow, runs, ctx, targets.drop_last()) {
            Err(e) => Err(e),
            Ok(before) => match target_start(flow, runs, ctx, targets.last()) {
                Err(e) => Err(e),
                Ok(more) => Ok(before + more),
            },
        }
    }
}

/// The commands that mark the steps without a run as skipped.
pub open spec fn skip_commands(steps: Seq<StepModel>, runs: Seq<StepRunModel>) -> Seq<CommandModel>
    decreases steps.len(),
{
    if steps.len() == 0 {
        Seq::empty()
    } else if find_run(runs, steps.last().id) is None {
        skip_commands(steps.drop_last(), runs).push(
            CommandModel::MarkStepStatus {
                step_id: steps.last().id,
                status: StepStatus::Skipped,
            },
        )
    } else {
        skip_commands(steps.drop_last(), runs)
    }
}

/// Whether a hook with the condition `when` is due in `phase`; without a
/// condition it is due after success.
pub open spec fn hook_due(when: Option<HookCondition>, phase: RunPhase) -> bool {
    match when {
        Some(HookCondition::Always) => true,
        Some(HookCondition::Failed) => phase == RunPhase::Failed,
        Some(HookCondition::Cancelled) => phase == RunPhase::Cancelled,
        _ => phase == RunPhase::Completed,
    }
}

/// Those of `hooks` that are due in `phase`.
pub open spec fn due_hooks(hooks: Seq<HookModel>, phase: RunPhase) -> Seq<HookModel>
    decreases hooks.len(),
{
    if hooks.len() == 0 {
        Seq::empty()
    } else if hook_due(hooks.last().when, phase) {
        due_hooks(hooks.drop_last(), phase).push(hooks.last())
    } else {
        due_hooks(hooks.drop_last(), phase)
    }
}

/// The command that runs `hooks`; none where there are no hooks.
pub open spec fn hooks_command(phase: HookPhaseModel, hooks: Seq<HookModel>) -> Seq<CommandModel> {
    if hooks.len() == 0 {
        Seq::empty()
    } else {
        seq![CommandModel::RunHooks { phase, hooks }]
    }
}

/// The commands that end a run: nothing while a step is still under way; else
/// the skipped steps, the hooks that are due and the phase.
pub open spec fn end_commands(flow: FlowModel, state: RunStateModel) -> Seq<CommandModel> {
    if !all_terminal(state.steps) {
        Seq::empty()
    } else {
        let phase = phase_of(state);
        skip_commands(flow.steps, state.steps) + hooks_command(
            HookPhaseModel::AfterRun,
            due_hooks(flow.lifecycle.after_run, phase),
        ) + seq![CommandModel::MarkRunTerminal(phase)]
    }
}

/// What follows a step: the starts of the route's targets or, where nothing
/// starts, the end of the run.
pub open spec fn follow(
    flow: FlowModel,
    state: RunStateModel,
    route: Option<Seq<Seq<char>>>,
) -> Decision {
    match target_starts(
        flow,
        state.steps,
        context_of(flow.steps, state, Json::Null),
        targets_of(route),
    ) {
        Err(e) => Err(e),
        Ok(starts) => if starts.len() == 0 {
            Ok(end_commands(flow, state))
        } else {
            Ok(starts)
        },
    }
}

/// `head` and then what was decided.
pub open spec fn after(head: Seq<CommandModel>, rest: Decision) -> Decision {
    match rest {
        Ok(commands) => Ok(head + commands),
        Err(e) => Err(e),
    }
}

/// The state with the status of a step set, and its output where there is a
/// new one. A step without a run gets its first.
pub open spec fn with_status(
    state: RunStateModel,
    id: Seq<char>,
    status: StepStatus,
    output: Option<Json>,
) -> RunStateModel {
    RunStateModel {
        steps: match find_run(state.steps, id) {
            Some(run) => set_run(
                state.steps,
                id,
                StepRunModel {
                    status,
                    output: if output is Some {
                        output
                    } else {
                        run.output
                    },
                    ..run
                },
            ),
            None => state.steps.push(
                StepRunModel { status, output, attempt: 1, ..pending_run(id) },
            ),
        },
        ..state
    }
}

/// Every active step cancelled.
pub open spec fn with_active_cancelled(state: RunStateModel) -> RunStateModel {
    RunStateModel {
        steps: Seq::new(
            state.steps.len(),
            |i: int|
                if active(state.steps[i].status) {
                    StepRunModel { status: StepStatus::Cancelled, ..state.steps[i] }
                } else {
                    state.steps[i]
                },
        ),
        ..state
    }
}

/// The state after a step has failed for good: the step failed, every other
/// active step cancelled, and the reason kept.
pub open spec fn failed_state(state: RunStateModel, id: Seq<char>, reason: Seq<char>) -> RunStateModel {
    let stopped = with_active_cancelled(with_status(state, id, StepStatus::Failed, None));
    RunStateModel {
        steps: match find_run(stopped.steps, id) {
            Some(run) => set_run(
                stopped.steps,
                id,
                StepRunModel { failure_reason: Some(reason), ..run },
            ),
            None => stopped.steps,
        },
        ..stopped
    }
}

/// The state after a step was approved.
pub open spec fn approved_state(
    state: RunStateModel,
    id: Seq<char>,
    comment: Option<Seq<char>>,
) -> RunStateModel {
    let done = with_status(state, id, StepStatus::Completed, None);
    RunStateModel {
        steps: match find_run(done.steps, id) {
            Some(run) => set_run(
                done.steps,
                id,
                StepRunModel {
                    approval_status: Some(ApprovalStatus::Approved),
                    approval_comment: comment,
                    ..run
                },
            ),
            None => done.steps,
        },
        ..done
    }
}

/// The state after a step was rejected.
pub open spec fn rejected_state(
    state: RunStateModel,
    id: Seq<char>,
    feedback: Seq<char>,
) -> RunStateModel {
    let done = with_status(state, id, StepStatus::FailedRejected, None);
    RunStateModel {
        steps: match find_run(done.steps, id) {
            Some(run) => set_run(
                done.steps,
                id,
                StepRunModel {
                    approval_status: Some(ApprovalStatus::Rejected),
                    feedback: Some(feedback),
                    ..run
                },
            ),
            None => done.steps,
        },
        ..done
    }
}

/// A run starts: the hooks before it, then its entry steps.
pub open spec fn run_started(flow: FlowModel, state: RunStateModel) -> Decision {
    after(
        hooks_command(HookPhaseModel::BeforeRun, flow.lifecycle.before_run),
        target_starts(
            flow,
            state.steps,
            context_of(flow.steps, state, Json::Null),
            entries_of(flow.steps),
        ),
    )
}

/// A step completed: its hooks run, and it waits for approval or is marked
/// completed and followed by its `on_success` route.
pub open spec fn step_completed(
    flow: FlowModel,
    state: RunStateModel,
    id: Seq<char>,
    output: Json,
) -> Decision {
    match find_step(flow.steps, id) {
        None => Err(EngineErrorModel::UnknownStep(id)),
        Some(step) => {
            let hooks = hooks_command(HookPhaseModel::AfterStep { step_id: id }, step.after);
            if step.human_loop {
                Ok(
                    hooks + seq![
                        CommandModel::MarkStepStatus {
                            step_id: id,
                            status: StepStatus::WaitingApproval,
                        },
                        CommandModel::WaitApproval { step_id: id },
                    ],
                )
            } else {
                after(
                    hooks + seq![
                        CommandModel::MarkStepStatus { step_id: id, status: StepStatus::Completed },
                    ],
                    follow(
                        flow,
                        with_status(state, id, StepStatus::Completed, Some(output)),
                        step.on_success,
                    ),
                )
            }
        },
    }
}

/// The attempt that a step is at.
pub open spec fn attempt_of(runs: Seq<StepRunModel>, id: Seq<char>) -> u32 {
    match find_run(runs, id) {
        Some(run) => run.attempt,
        None => 1,
    }
}

/// The command that cancels `ids`; none where there are none.
pub open spec fn cancel_command(ids: Seq<Seq<char>>) -> Seq<CommandModel> {
    if ids.len() == 0 {
        Seq::empty()
    } else {
        seq![CommandModel::CancelSteps(ids)]
    }
}

/// A step failed: it is started again as long as it has retries left. After
/// that it is marked failed, every other active step is cancelled, and its
/// `on_failure` route follows.
pub open spec fn step_failed(
    flow: FlowModel,
    state: RunStateModel,
    id: Seq<char>,
    reason: Seq<char>,
) -> Decision {
    match find_step(flow.steps, id) {
        None => Err(EngineErrorModel::UnknownStep(id)),
        Some(step) => {
            let attempt = attempt_of(state.steps, id);
            if attempt <= step.retries {
                match step_text(
                    step,
                    input_template(step),
                    context_of(flow.steps, state, Json::Null),
                ) {
                    Ok(input) => Ok(seq![start_command(step, (attempt + 1) as u32, input)]),
                    Err(e) => Err(e),
                }
            } else {
                after(
                    seq![CommandModel::MarkStepStatus { step_id: id, status: StepStatus::Failed }]
                        + cancel_command(active_ids(state.steps, Some(id))),
                    follow(flow, failed_state(state, id, reason), step.on_failure),
                )
            }
        },
    }
}

/// A step was approved: it is marked completed, and its `on_approve` route
/// follows.
pub open spec fn step_approved(
    flow: FlowModel,
    state: RunStateModel,
    id: Seq<char>,
    comment: Option<Seq<char>>,
) -> Decision {
    match find_step(flow.steps, id) {
        None => Err(EngineErrorModel::UnknownStep(id)),
        Some(step) => after(
            seq![CommandModel::MarkStepStatus { step_id: id, status: StepStatus::Completed }],
            follow(flow, approved_state(state, id, comment), step.on_approve),
        ),
    }
}

/// A step was rejected: it is marked so. Where its `on_reject` loops back it
/// starts again with the feedback, else its `on_reject` route follows.
pub open spec fn step_rejected(
    flow: FlowModel,
    state: RunStateModel,
    id: Seq<char>,
    feedback: Seq<char>,
) -> Decision {
    match find_step(flow.steps, id) {
        None => Err(EngineErrorModel::UnknownStep(id)),
        Some(step) => {
            let next = rejected_state(state, id, feedback);
            after(
                seq![
                    CommandModel::MarkStepStatus { step_id: id, status: StepStatus::FailedRejected },
                ],
                if self_rejecting(step) {
                    match reject_text(step, context_of(flow.steps, next, Json::Null), feedback) {
                        Ok(input) => Ok(
                            seq![start_command(step, next_attempt(state.steps, id), input)],
                        ),
                        Err(e) => Err(e),
                    }
                } else {
                    follow(flow, next, step.on_reject)
                },
            )
        },
    }
}

/// The name of a phase.
pub open spec fn phase_name(phase: RunPhase) -> Seq<char> {
    match phase {
        RunPhase::Running => "Running"@,
        RunPhase::Completed => "Completed"@,
        RunPhase::Failed => "Failed"@,
        RunPhase::Cancelled => "Cancelled"@,
    }
}

/// A subflow ended: its step completed with the subflow's outputs, or failed.
pub open spec fn subflow_finished(
    flow: FlowModel,
    state: RunStateModel,
    id: Seq<char>,
    phase: RunPhase,
    outputs: Option<Json>,
) -> Decision {
    if phase == RunPhase::Completed {
        step_completed(
            flow,
            state,
            id,
            match outputs {
                Some(v) => v,
                None => Json::Null,
            },
        )
    } else {
        step_failed(flow, state, id, "subflow ended in phase "@ + phase_name(phase))
    }
}

/// A run is stopped: every active step is cancelled, and the run ends in
/// `phase`.
pub open spec fn run_stopped(state: RunStateModel, phase: RunPhase) -> Seq<CommandModel> {
    cancel_command(active_ids(state.steps, Some(Seq::empty()))) + seq![
        CommandModel::MarkRunTerminal(phase),
    ]
}

/// Whether the attempt at a step can be counted up.
pub open spec fn can_count(runs: Seq<StepRunModel>, id: Seq<char>) -> bool {
    find_run(runs, id) matches Some(run) ==> run.attempt < u32::MAX
}

/// Whether the attempt at a routing target can be counted up, where the target
/// is a step that starts now.
pub open spec fn can_start(flow: FlowModel, runs: Seq<StepRunModel>, target: Seq<char>) -> bool {
    target == DONE@ || match find_step(flow.steps, target) {
        None => true,
        Some(step) => !needs_met(flow.steps, runs, step.needs) || (step_kind(step) matches Some(
            StepWithModel::Subflow(_),
        )) || can_count(runs, target),
    }
}

/// Whether the attempts at several routing targets can be counted up.
pub open spec fn can_start_all(
    flow: FlowModel,
    runs: Seq<StepRunModel>,
    targets: Seq<Seq<char>>,
) -> bool {
    forall|i: int| 0 <= i < targets.len() ==> can_start(flow, runs, #[trigger] targets[i])
}

/// Whether the attempts at what follows a step can be counted up.
pub open spec fn can_follow(
    flow: FlowModel,
    state: RunStateModel,
    route: Option<Seq<Seq<char>>>,
) -> bool {
    can_start_all(flow, state.steps, targets_of(route))
}

/// Whether the attempts that start when a step completes can be counted up.
pub open spec fn can_complete(
    flow: FlowModel,
    state: RunStateModel,
    id: Seq<char>,
    output: Json,
) -> bool {
    match find_step(flow.steps, id) {
        None => true,
        Some(step) => step.human_loop || can_follow(
            flow,
            with_status(state, id, StepStatus::Completed, Some(output)),
            step.on_success,
        ),
    }
}

/// Whether the attempts that start when a step fails can be counted up.
pub open spec fn can_fail(
    flow: FlowModel,
    state: RunStateModel,
    id: Seq<char>,
    reason: Seq<char>,
) -> bool {
    match find_step(flow.steps, id) {
        None => true,
        Some(step) => if attempt_of(state.steps, id) <= step.retries {
            (step_kind(step) matches Some(StepWithModel::Subflow(_))) || can_count(state.steps, id)
        } else {
            can_follow(flow, failed_state(state, id, reason), step.on_failure)
        },
    }
}

/// Whether the attempts that start when a step is approved can be counted up.
pub open spec fn can_approve(
    flow: FlowModel,
    state: RunStateModel,
    id: Seq<char>,
    comment: Option<Seq<char>>,
) -> bool {
    match find_step(flow.steps, id) {
        None => true,
        Some(step) => can_follow(flow, approved_state(state, id, comment), step.on_approve),
    }
}

/// Whether the attempts that start when a step is rejected can be counted up.
pub open spec fn can_reject(
    flow: FlowModel,
    state: RunStateModel,
    id: Seq<char>,
    feedback: Seq<char>,
) -> bool {
    match find_step(flow.steps, id) {
        None => true,
        Some(step) => if self_rejecting(step) {
            can_count(state.steps, id)
        } else {
            can_follow(flow, rejected_state(state, id, feedback), step.on_reject)
        },
    }
}

/// Whether the attempts that an event starts can be counted up.
pub open spec fn can_decide(flow: FlowModel, state: RunStateModel, event: EventModel) -> bool {
    match event {
        EventModel::RunStarted => can_start_all(flow, state.steps, entries_of(flow.steps)),
        EventModel::StepCompleted { step_id, output } => can_complete(flow, state, step_id, output),
        EventModel::StepFailed { step_id, reason } => can_fail(flow, state, step_id, reason),
        EventModel::StepApproved { step_id, comment } => can_approve(flow, state, step_id, comment),
        EventModel::StepRejected { step_id, feedback } => can_reject(flow, state, step_id, feedback),
        EventModel::SubflowFinished { step_id, phase, outputs } => if phase == RunPhase::Completed {
            can_complete(
                flow,
                state,
                step_id,
                match outputs {
                    Some(v) => v,
                    None => Json::Null,
                },
            )
        } else {
            can_fail(flow, state, step_id, "subflow ended in phase "@ + phase_name(phase))
        },
        _ => true,
    }
}

/// What the engine decides.
pub open spec fn decided(flow: FlowModel, state: RunStateModel, event: EventModel) -> Decision {
    match event {
        EventModel::RunStarted => run_started(flow, state),
        EventModel::StepCompleted { step_id, output } => step_completed(
            flow,
            state,
            step_id,
            output,
        ),
        EventModel::StepFailed { step_id, reason } => step_failed(flow, state, step_id, reason),
        EventModel::StepApproved { step_id, comment } => step_approved(
            flow,
            state,
            step_id,
            comment,
        ),
        EventModel::StepRejected { step_id, feedback } => step_rejected(
            flow,
            state,
            step_id,
            feedback,
        ),
        EventModel::SubflowFinished { step_id, phase, outputs } => subflow_finished(
            flow,
            state,
            step_id,
            phase,
            outputs,
        ),
        EventModel::RunDeadlineExceeded => Ok(run_stopped(state, RunPhase::Failed)),
        EventModel::CancelRequested => Ok(run_stopped(state, RunPhase::Cancelled)),
    }
}

/// Decides what an event leads to. Nothing but the arguments is read, and of
/// `now` not even that.
pub fn decide(flow: &FlowDefinition, state: &RunState, event: Event, now: Timestamp) -> (r: Result<
    Vec<Command>,
    EngineError,
>)
    requires
        can_decide(flow@, state@, event@),
    ensures
        decision(r) == decided(flow@, state@, event@),
{
    match event {
        Event::RunStarted => on_run_started(flow, state),
        Event::StepCompleted { step_id, output } => on_step_completed(
            flow,
            state,
            step_id.as_str(),
            output,
        ),
        Event::StepFailed { step_id, reason } => on_step_failed(
            flow,
            state,
            step_id.as_str(),
            reason,
        ),
        Event::StepApproved { step_id, comment } => on_step_approved(
            flow,
            state,
            step_id.as_str(),
            comment,
        ),
        Event::StepRejected { step_id, feedback } => on_step_rejected(
            flow,
            state,
            step_id.as_str(),
            feedback,
        ),
        Event::SubflowFinished { step_id, phase, outputs } => on_subflow_finished(
            flow,
            state,
            step_id.as_str(),
            phase,
            outputs,
        ),
        Event::RunDeadlineExceeded => Ok(stop_run(state, RunPhase::Failed)),
        Event::CancelRequested => Ok(stop_run(state, RunPhase::Cancelled)),
    }
}

fn build_context(flow: &FlowDefinition, state: &RunState) -> (r: TemplateContext)
    ensures
        r@ == context_of(flow@.steps, state@, Json::Null),
{
    template::build_context(flow, state, JsonValue::Null)
}

/// What a result of resolving a step's template denotes.
spec fn text_outcome(r: Result<String, EngineError>) -> Result<Seq<char>, EngineErrorModel> {
    match r {
        Ok(t) => Ok(t@),
        Err(e) => Err(e@),
    }
}

fn resolve_template(step: &Step, template: &str, ctx: &TemplateContext) -> (r: Result<
    String,
    EngineError,
>)
    ensures
        text_outcome(r) == step_text(step@, template@, ctx@),
{
    match template::resolve(template, ctx, step.id.as_str()) {
        Ok(t) => Ok(t),
        Err(_) => Err(EngineError::UnknownStep(step.id.clone())),
    }
}

fn resolve_input(step: &Step, ctx: &TemplateContext) -> (r: Result<String, EngineError>)
    ensures
        text_outcome(r) == step_text(step@, input_template(step@), ctx@),
{
    let template = match step.kind() {
        Some(StepWith::Cli { with }) => with.input,
        _ => String::new(),
    };
    resolve_template(step, template.as_str(), ctx)
}

fn resolve_reject_input(step: &Step, ctx: &TemplateContext, feedback: &str) -> (r: Result<
    String,
    EngineError,
>)
    ensures
        text_outcome(r) == reject_text(step@, ctx@, feedback@),
{
    match &step.reject_input {
        Some(template) => resolve_template(step, template.as_str(), ctx),
        None => match resolve_input(step, ctx) {
            Ok(original) => Ok(cat3(original.as_str(), "\n\nFeedback: ", feedback)),
            Err(e) => Err(e),
        },
    }
}

fn needs_satisfied(flow: &FlowDefinition, state: &RunState, step: &Step) -> (r: bool)
    ensures
        r == needs_met(flow@.steps, state@.steps, step@.needs),
{
    let mut i: usize = 0;
    while i < step.needs.len()
        invariant
            i <= step.needs@.len(),
            step@.needs == step.needs.deep_view(),
            forall|j: int|
                0 <= j < i ==> find_step(flow@.steps, #[trigger] step@.needs[j]) is Some && (
                find_run(state@.steps, step@.needs[j]) matches Some(run) && run.status
                    == StepStatus::Completed),
        decreases step.needs@.len() - i,
    {
        let needed = step.needs[i].as_str();
        proof {
            assert(step@.needs[i as int] == needed@);
        }
        if flow.step(needed).is_none() {
            return false;
        }
        let done = match state.step(needed) {
            Some(run) => run.status == StepStatus::Completed,
            None => false,
        };
        if !done {
            return false;
        }
        i = i + 1;
    }
    true
}

fn is_subflow(step: &Step) -> (r: bool)
    ensures
        r == (step_kind(step@) matches Some(StepWithModel::Subflow(_))),
{
    match step.kind() {
        Some(StepWith::Subflow { .. }) => true,
        _ => false,
    }
}

fn start(step: &Step, attempt: u32, input: String) -> (r: Command)
    ensures
        r@ == start_command(step@, attempt, input@),
{
    if is_subflow(step) {
        return Command::StartChildRun { step_id: step.id.clone() };
    }
    let mut list: Vec<StepActivation> = Vec::new();
    let activation = StepActivation { step_id: step.id.clone(), attempt, input };
    list.push(activation);
    proof {
        assert(list.deep_view() =~= seq![activation@]);
    }
    Command::ActivateSteps(list)
}

proof fn lemma_starts_fail(
    flow: FlowModel,
    runs: Seq<StepRunModel>,
    ctx: ContextModel,
    targets: Seq<Seq<char>>,
    i: int,
)
    requires
        0 <= i <= targets.len(),
        target_starts(flow, runs, ctx, targets.take(i)) is Err,
    ensures
        target_starts(flow, runs, ctx, targets) == target_starts(flow, runs, ctx, targets.take(i)),
    decreases targets.len() - i,
{
    if i < targets.len() {
        assert(targets.take(i + 1).drop_last() =~= targets.take(i));
        lemma_starts_fail(flow, runs, ctx, targets, i + 1);
    } else {
        assert(targets.take(i) =~= targets);
    }
}

/// Starts one routing target where its `needs` are met. A step that is not
/// ready is passed over: it starts when the last of its predecessors routes to
/// it.
fn activate_target(flow: &FlowDefinition, state: &RunState, ctx: &TemplateContext, target: &str) -> (r:
    Result<Vec<Command>, EngineError>)
    requires
        can_start(flow@, state@.steps, target@),
    ensures
        decision(r) == target_start(flow@, state@.steps, ctx@, target@),
{
    let mut out: Vec<Command> = Vec::new();
    if same_text(target, DONE) {
        proof {
            assert(out.deep_view() =~= Seq::<CommandModel>::empty());
        }
        return Ok(out);
    }
    let step = match flow.step(target) {
        Some(s) => s,
        None => {
            return Err(EngineError::UnknownStep(target.to_owned()));
        },
    };
    if needs_satisfied(flow, state, step) {
        if is_subflow(step) {
            let command = start(step, 0, String::new());
            out.push(command);
            proof {
                assert(out.deep_view() =~= seq![command@]);
            }
        } else {
            let attempt: u32 = match state.step(target) {
                Some(run) => run.attempt + 1,
                None => 1,
            };
            let input = match resolve_input(step, ctx) {
                Ok(t) => t,
                Err(e) => {
                    return Err(e);
                },
            };
            let command = start(step, attempt, input);
            out.push(command);
            proof {
                assert(out.deep_view() =~= seq![command@]);
            }
        }
    } else {
        proof {
            assert(out.deep_view() =~= Seq::<CommandModel>::empty());
        }
    }
    Ok(out)
}

/// Starts the routing targets whose `needs` are met.
fn activate_targets(
    flow: &FlowDefinition,
    state: &RunState,
    ctx: &TemplateContext,
    targets: &Vec<&str>,
) -> (r: Result<Vec<Command>, EngineError>)
    requires
        can_start_all(flow@, state@.steps, targets.deep_view()),
    ensures
        decision(r) == target_starts(flow@, state@.steps, ctx@, targets.deep_view()),
{
    let mut out: Vec<Command> = Vec::new();
    let ghost all = targets.deep_view();
    let mut i: usize = 0;
    proof {
        assert(all.take(0) =~= Seq::<Seq<char>>::empty());
        assert(out.deep_view() =~= Seq::<CommandModel>::empty());
    }
    while i < targets.len()
        invariant
            i <= targets@.len(),
            all == targets.deep_view(),
            can_start_all(flow@, state@.steps, all),
            target_starts(flow@, state@.steps, ctx@, all.take(i as int)) == Decision::Ok(
                out.deep_view(),
            ),
        decreases targets@.len() - i,
    {
        proof {
            assert(all.take(i + 1).drop_last() =~= all.take(i as int));
            assert(all[i as int] == targets@[i as int]@);
            assert(can_start(flow@, state@.steps, all[i as int]));
        }
        match activate_target(flow, state, ctx, targets[i]) {
            Ok(more) => {
                extend(&mut out, more);
            },
            Err(e) => {
                proof {
                    lemma_starts_fail(flow@, state@.steps, ctx@, all, i + 1);
                }
                return Err(e);
            },
        }
        i = i + 1;
    }
    proof {
        assert(all.take(i as int) =~= all);
    }
    Ok(out)
}

/// The targets of a route; none where there is no route.
pub fn route_targets(route: &Option<RouteTarget>) -> (r: Vec<&str>)
    ensures
        r.deep_view() == targets_of(route.deep_view()),
{
    match route {
        Some(r) => r.as_slice(),
        None => {
            let none: Vec<&str> = Vec::new();
            proof {
                assert(none.deep_view() =~= Seq::<Seq<char>>::empty());
            }
            none
        },
    }
}

fn push_hooks(out: &mut Vec<Command>, phase: HookPhase, hooks: &Vec<HookCall>)
    ensures
        final(out).deep_view() == old(out).deep_view() + hooks_command(phase@, hooks.deep_view()),
{
    let ghost before = out.deep_view();
    if hooks.len() > 0 {
        put(out, Command::RunHooks { phase, hooks: hooks.duplicate() });
    }
    proof {
        assert(out.deep_view() =~= before + hooks_command(phase@, hooks.deep_view()));
    }
}

fn on_run_started(flow: &FlowDefinition, state: &RunState) -> (r: Result<
    Vec<Command>,
    EngineError,
>)
    requires
        can_start_all(flow@, state@.steps, entries_of(flow@.steps)),
    ensures
        decision(r) == run_started(flow@, state@),
{
    let entries = dag::entry_steps(flow);
    let ctx = build_context(flow, state);
    let mut out: Vec<Command> = Vec::new();
    push_hooks(&mut out, HookPhase::BeforeRun, &flow.lifecycle.before_run);
    proof {
        assert(out.deep_view() =~= hooks_command(
            HookPhaseModel::BeforeRun,
            flow@.lifecycle.before_run,
        ));
    }
    match activate_targets(flow, state, &ctx, &entries) {
        Ok(more) => {
            extend(&mut out, more);
            Ok(out)
        },
        Err(e) => Err(e),
    }
}

fn active_step_ids_excluding(state: &RunState, excluding: &str) -> (r: Vec<String>)
    ensures
        r.deep_view() == active_ids(state@.steps, Some(excluding@)),
{
    let mut out: Vec<String> = Vec::new();
    let ghost all = state@.steps;
    let mut i: usize = 0;
    proof {
        assert(out.deep_view() =~= active_ids(all.take(0), Some(excluding@)));
    }
    while i < state.steps.len()
        invariant
            i <= state.steps@.len(),
            all == state@.steps,
            all == state.steps.deep_view(),
            out.deep_view() == active_ids(all.take(i as int), Some(excluding@)),
        decreases state.steps@.len() - i,
    {
        proof {
            assert(all.take(i + 1).drop_last() =~= all.take(i as int));
            assert(all[i as int] == state.steps@[i as int]@);
        }
        let run = &state.steps[i];
        if run.status.is_active() && !same_text(run.step_id.as_str(), excluding) {
            put(&mut out, run.step_id.clone());
        }
        i = i + 1;
    }
    proof {
        assert(all.take(i as int) =~= all);
    }
    out
}

/// Whether a hook with the condition `when` is due in `phase`.
pub fn hook_condition_met(when: HookCondition, phase: RunPhase) -> (r: bool)
    ensures
        r == hook_due(Some(when), phase),
{
    match when {
        HookCondition::Always => true,
        HookCondition::Succeeded => phase == RunPhase::Completed,
        HookCondition::Failed => phase == RunPhase::Failed,
        HookCondition::Cancelled => phase == RunPhase::Cancelled,
    }
}

fn list_due_hooks(hooks: &Vec<HookCall>, phase: RunPhase) -> (r: Vec<HookCall>)
    ensures
        r.deep_view() == due_hooks(hooks.deep_view(), phase),
{
    let mut out: Vec<HookCall> = Vec::new();
    let ghost all = hooks.deep_view();
    let mut i: usize = 0;
    proof {
        assert(out.deep_view() =~= due_hooks(all.take(0), phase));
    }
    while i < hooks.len()
        invariant
            i <= hooks@.len(),
            all == hooks.deep_view(),
            out.deep_view() == due_hooks(all.take(i as int), phase),
        decreases hooks@.len() - i,
    {
        proof {
            assert(all.take(i + 1).drop_last() =~= all.take(i as int));
            assert(all[i as int] == hooks@[i as int]@);
        }
        let when = match hooks[i].when {
            Some(w) => w,
            None => HookCondition::Succeeded,
        };
        if hook_condition_met(when, phase) {
            put(&mut out, hooks[i].duplicate());
        }
        i = i + 1;
    }
    proof {
        assert(all.take(i as int) =~= all);
    }
    out
}

fn push_skips(out: &mut Vec<Command>, flow: &FlowDefinition, state: &RunState)
    ensures
        final(out).deep_view() == old(out).deep_view() + skip_commands(flow@.steps, state@.steps),
{
    let ghost start = out.deep_view();
    let ghost all = flow@.steps;
    let mut i: usize = 0;
    proof {
        assert(start + skip_commands(all.take(0), state@.steps) =~= start);
    }
    while i < flow.steps.len()
        invariant
            i <= flow.steps@.len(),
            all == flow@.steps,
            all == flow.steps.deep_view(),
            out.deep_view() == start + skip_commands(all.take(i as int), state@.steps),
        decreases flow.steps@.len() - i,
    {
        proof {
            assert(all.take(i + 1).drop_last() =~= all.take(i as int));
            assert(all[i as int] == flow.steps@[i as int]@);
        }
        let id = flow.steps[i].id.as_str();
        if state.step(id).is_none() {
            put(
                out,
                Command::MarkStepStatus { step_id: id.to_owned(), status: StepStatus::Skipped },
            );
        }
        proof {
            assert(out.deep_view() =~= start + skip_commands(all.take(i + 1), state@.steps));
        }
        i = i + 1;
    }
    proof {
        assert(all.take(i as int) =~= all);
    }
}

fn terminal_commands_if_done(flow: &FlowDefinition, state: &RunState) -> (r: Vec<Command>)
    ensures
        r.deep_view() == end_commands(flow@, state@),
{
    let mut out: Vec<Command> = Vec::new();
    if are_all_terminal(state) {
        push_skips(&mut out, flow, state);
        let end = phase(state);
        let due = list_due_hooks(&flow.lifecycle.after_run, end);
        push_hooks(&mut out, HookPhase::AfterRun, &due);
        put(&mut out, Command::MarkRunTerminal(end));
    }
    proof {
        assert(out.deep_view() =~= end_commands(flow@, state@));
    }
    out
}

fn follow_route(flow: &FlowDefinition, state: &RunState, route: &Option<RouteTarget>) -> (r: Result<
    Vec<Command>,
    EngineError,
>)
    requires
        can_follow(flow@, state@, route.deep_view()),
    ensures
        decision(r) == follow(flow@, state@, route.deep_view()),
{
    let ctx = build_context(flow, state);
    let targets = route_targets(route);
    match activate_targets(flow, state, &ctx, &targets) {
        Err(e) => Err(e),
        Ok(starts) => if starts.len() == 0 {
            Ok(terminal_commands_if_done(flow, state))
        } else {
            Ok(starts)
        },
    }
}

fn then_follow(
    head: Vec<Command>,
    flow: &FlowDefinition,
    state: &RunState,
    route: &Option<RouteTarget>,
) -> (r: Result<Vec<Command>, EngineError>)
    requires
        can_follow(flow@, state@, route.deep_view()),
    ensures
        decision(r) == after(head.deep_view(), follow(flow@, state@, route.deep_view())),
{
    let mut out = head;
    match follow_route(flow, state, route) {
        Ok(more) => {
            extend(&mut out, more);
            Ok(out)
        },
        Err(e) => Err(e),
    }
}

/// Sets the status of a step, and its output where there is a new one. A step
/// without a run gets its first.
fn upsert_step(state: &mut RunState, step_id: &str, status: StepStatus, output: Option<JsonValue>)
    ensures
        final(state)@ == with_status(old(state)@, step_id@, status, output.deep_view()),
{
    match state.step_mut(step_id) {
        Some(existing) => {
            existing.status = status;
            if output.is_some() {
                existing.output = output;
            }
            return;
        },
        None => {},
    }
    let mut run = StepRun::pending(step_id.to_owned());
    run.status = status;
    run.output = output;
    run.attempt = 1;
    put(&mut state.steps, run);
}

/// Cancels every active step.
fn cancel_active(state: &mut RunState)
    ensures
        final(state)@ == with_active_cancelled(old(state)@),
{
    let ghost start = *state;
    let ghost goal = with_active_cancelled(start@).steps;
    let mut i: usize = 0;
    while i < state.steps.len()
        invariant
            i <= state.steps@.len(),
            start == *old(state),
            goal == with_active_cancelled(start@).steps,
            state.steps@.len() == start.steps@.len(),
            state.created_at == start.created_at,
            state.cancelled == start.cancelled,
            state.inputs == start.inputs,
            state.trigger == start.trigger,
            forall|j: int| 0 <= j < i ==> (#[trigger] state.steps@[j])@ == goal[j],
            forall|j: int| i <= j < state.steps@.len() ==> #[trigger] state.steps@[j] == start.steps@[j],
        decreases state.steps@.len() - i,
    {
        proof {
            assert(start@.steps[i as int] == start.steps@[i as int]@);
        }
        if state.steps[i].status.is_active() {
            let run = &mut state.steps[i];
            run.status = StepStatus::Cancelled;
        }
        i = i + 1;
    }
    proof {
        assert(state.steps.deep_view() =~= goal);
    }
}

fn single(command: Command) -> (r: Vec<Command>)
    ensures
        r.deep_view() == seq![command@],
{
    let mut out: Vec<Command> = Vec::new();
    out.push(command);
    proof {
        assert(out.deep_view() =~= seq![command@]);
    }
    out
}

fn complete_state(state: &RunState, step_id: &str, output: JsonValue) -> (r: RunState)
    ensures
        r@ == with_status(state@, step_id@, StepStatus::Completed, Some(output@)),
{
    let mut next = state.duplicate();
    upsert_step(&mut next, step_id, StepStatus::Completed, Some(output));
    next
}

fn fail_state(state: &RunState, step_id: &str, reason: String) -> (r: RunState)
    ensures
        r@ == failed_state(state@, step_id@, reason@),
{
    let mut next = state.duplicate();
    upsert_step(&mut next, step_id, StepStatus::Failed, None);
    cancel_active(&mut next);
    match next.step_mut(step_id) {
        Some(existing) => {
            existing.failure_reason = Some(reason);
        },
        None => {},
    }
    next
}

fn approve_state(state: &RunState, step_id: &str, comment: Option<String>) -> (r: RunState)
    ensures
        r@ == approved_state(state@, step_id@, comment.deep_view()),
{
    let mut next = state.duplicate();
    upsert_step(&mut next, step_id, StepStatus::Completed, None);
    match next.step_mut(step_id) {
        Some(existing) => {
            existing.approval_status = Some(ApprovalStatus::Approved);
            existing.approval_comment = comment;
        },
        None => {},
    }
    next
}

fn reject_state(state: &RunState, step_id: &str, feedback: &str) -> (r: RunState)
    ensures
        r@ == rejected_state(state@, step_id@, feedback@),
{
    let mut next = state.duplicate();
    upsert_step(&mut next, step_id, StepStatus::FailedRejected, None);
    match next.step_mut(step_id) {
        Some(existing) => {
            existing.approval_status = Some(ApprovalStatus::Rejected);
            existing.feedback = Some(feedback.to_owned());
        },
        None => {},
    }
    next
}

fn on_step_completed(flow: &FlowDefinition, state: &RunState, step_id: &str, output: JsonValue) -> (r:
    Result<Vec<Command>, EngineError>)
    requires
        can_complete(flow@, state@, step_id@, output@),
    ensures
        decision(r) == step_completed(flow@, state@, step_id@, output@),
{
    let step = match flow.step(step_id) {
        Some(s) => s,
        None => {
            return Err(EngineError::UnknownStep(step_id.to_owned()));
        },
    };
    let mut out: Vec<Command> = Vec::new();
    push_hooks(&mut out, HookPhase::AfterStep { step_id: step_id.to_owned() }, &step.after);
    let ghost hooks = hooks_command(HookPhaseModel::AfterStep { step_id: step_id@ }, step@.after);
    proof {
        assert(out.deep_view() =~= hooks);
    }
    if step.human_loop {
        put(
            &mut out,
            Command::MarkStepStatus {
                step_id: step_id.to_owned(),
                status: StepStatus::WaitingApproval,
            },
        );
        put(&mut out, Command::WaitApproval { step_id: step_id.to_owned() });
        proof {
            assert(out.deep_view() =~= hooks + seq![
                CommandModel::MarkStepStatus {
                    step_id: step_id@,
                    status: StepStatus::WaitingApproval,
                },
                CommandModel::WaitApproval { step_id: step_id@ },
            ]);
        }
        return Ok(out);
    }
    put(
        &mut out,
        Command::MarkStepStatus { step_id: step_id.to_owned(), status: StepStatus::Completed },
    );
    proof {
        assert(out.deep_view() =~= hooks + seq![
            CommandModel::MarkStepStatus { step_id: step_id@, status: StepStatus::Completed },
        ]);
    }
    let next = complete_state(state, step_id, output);
    then_follow(out, flow, &next, &step.on_success)
}

fn on_step_failed(flow: &FlowDefinition, state: &RunState, step_id: &str, reason: String) -> (r: Result<
    Vec<Command>,
    EngineError,
>)
    requires
        can_fail(flow@, state@, step_id@, reason@),
    ensures
        decision(r) == step_failed(flow@, state@, step_id@, reason@),
{
    let step = match flow.step(step_id) {
        Some(s) => s,
        None => {
            return Err(EngineError::UnknownStep(step_id.to_owned()));
        },
    };
    proof {
        dag::lemma_find_step_ids(flow@.steps, step_id@);
    }
    let attempt: u32 = match state.step(step_id) {
        Some(run) => run.attempt,
        None => 1,
    };
    if attempt <= step.retries {
        let ctx = build_context(flow, state);
        let next: u32 = if is_subflow(step) {
            attempt
        } else {
            attempt + 1
        };
        return match resolve_input(step, &ctx) {
            Ok(input) => Ok(single(start(step, next, input))),
            Err(e) => Err(e),
        };
    }
    let mut out: Vec<Command> = single(
        Command::MarkStepStatus { step_id: step_id.to_owned(), status: StepStatus::Failed },
    );
    let siblings = active_step_ids_excluding(state, step_id);
    let ghost others = siblings.deep_view();
    let ghost head = out.deep_view();
    if siblings.len() > 0 {
        put(&mut out, Command::CancelSteps(siblings));
    }
    proof {
        assert(out.deep_view() =~= head + cancel_command(others));
    }
    let next = fail_state(state, step_id, reason);
    then_follow(out, flow, &next, &step.on_failure)
}

fn on_step_approved(
    flow: &FlowDefinition,
    state: &RunState,
    step_id: &str,
    comment: Option<String>,
) -> (r: Result<Vec<Command>, EngineError>)
    requires
        can_approve(flow@, state@, step_id@, comment.deep_view()),
    ensures
        decision(r) == step_approved(flow@, state@, step_id@, comment.deep_view()),
{
    let step = match flow.step(step_id) {
        Some(s) => s,
        None => {
            return Err(EngineError::UnknownStep(step_id.to_owned()));
        },
    };
    let out: Vec<Command> = single(
        Command::MarkStepStatus { step_id: step_id.to_owned(), status: StepStatus::Completed },
    );
    let next = approve_state(state, step_id, comment);
    then_follow(out, flow, &next, &step.on_approve)
}

fn on_step_rejected(flow: &FlowDefinition, state: &RunState, step_id: &str, feedback: String) -> (r:
    Result<Vec<Command>, EngineError>)
    requires
        can_reject(flow@, state@, step_id@, feedback@),
    ensures
        decision(r) == step_rejected(flow@, state@, step_id@, feedback@),
{
    let step = match flow.step(step_id) {
        Some(s) => s,
        None => {
            return Err(EngineError::UnknownStep(step_id.to_owned()));
        },
    };
    proof {
        dag::lemma_find_step_ids(flow@.steps, step_id@);
    }
    let mut out: Vec<Command> = single(
        Command::MarkStepStatus { step_id: step_id.to_owned(), status: StepStatus::FailedRejected },
    );
    let next = reject_state(state, step_id, feedback.as_str());
    if dag::is_self_reject_loop(step) {
        let attempt: u32 = match state.step(step_id) {
            Some(run) => run.attempt + 1,
            None => 1,
        };
        let ctx = build_context(flow, &next);
        match resolve_reject_input(step, &ctx, feedback.as_str()) {
            Ok(input) => {
                extend(&mut out, single(start(step, attempt, input)));
                Ok(out)
            },
            Err(e) => Err(e),
        }
    } else {
        then_follow(out, flow, &next, &step.on_reject)
    }
}

fn phase_label(phase: RunPhase) -> (r: &'static str)
    ensures
        r@ == phase_name(phase),
{
    match phase {
        RunPhase::Running => "Running",
        RunPhase::Completed => "Completed",
        RunPhase::Failed => "Failed",
        RunPhase::Cancelled => "Cancelled",
    }
}

fn on_subflow_finished(
    flow: &FlowDefinition,
    state: &RunState,
    step_id: &str,
    phase: RunPhase,
    outputs: Option<JsonValue>,
) -> (r: Result<Vec<Command>, EngineError>)
    requires
        can_decide(
            flow@,
            state@,
            EventModel::SubflowFinished {
                step_id: step_id@,
                phase,
                outputs: outputs.deep_view(),
            },
        ),
    ensures
        decision(r) == subflow_finished(flow@, state@, step_id@, phase, outputs.deep_view()),
{
    match phase {
        RunPhase::Completed => on_step_completed(
            flow,
            state,
            step_id,
            match outputs {
                Some(v) => v,
                None => JsonValue::Null,
            },
        ),
        _ => on_step_failed(
            flow,
            state,
            step_id,
            cat2("subflow ended in phase ", phase_label(phase)),
        ),
    }
}

fn is_countable(state: &RunState, id: &str) -> (r: bool)
    ensures
        r == can_count(state@.steps, id@),
{
    match state.step(id) {
        Some(run) => run.attempt < u32::MAX,
        None => true,
    }
}

fn is_startable(flow: &FlowDefinition, state: &RunState, target: &str) -> (r: bool)
    ensures
        r == can_start(flow@, state@.steps, target@),
{
    if same_text(target, DONE) {
        return true;
    }
    match flow.step(target) {
        None => true,
        Some(step) => !needs_satisfied(flow, state, step) || is_subflow(step) || is_countable(
            state,
            target,
        ),
    }
}

fn are_startable(flow: &FlowDefinition, state: &RunState, targets: &Vec<&str>) -> (r: bool)
    ensures
        r == can_start_all(flow@, state@.steps, targets.deep_view()),
{
    let ghost all = targets.deep_view();
    let mut i: usize = 0;
    while i < targets.len()
        invariant
            i <= targets@.len(),
            all == targets.deep_view(),
            forall|j: int| 0 <= j < i ==> can_start(flow@, state@.steps, #[trigger] all[j]),
        decreases targets@.len() - i,
    {
        proof {
            assert(all[i as int] == targets@[i as int]@);
        }
        if !is_startable(flow, state, targets[i]) {
            return false;
        }
        i = i + 1;
    }
    true
}

fn is_followable(flow: &FlowDefinition, state: &RunState, route: &Option<RouteTarget>) -> (r: bool)
    ensures
        r == can_follow(flow@, state@, route.deep_view()),
{
    let targets = route_targets(route);
    are_startable(flow, state, &targets)
}

fn is_completable(flow: &FlowDefinition, state: &RunState, step_id: &str, output: &JsonValue) -> (r:
    bool)
    ensures
        r == can_complete(flow@, state@, step_id@, output@),
{
    match flow.step(step_id) {
        None => true,
        Some(step) => step.human_loop || is_followable(
            flow,
            &complete_state(state, step_id, output.duplicate()),
            &step.on_success,
        ),
    }
}

fn is_failable(flow: &FlowDefinition, state: &RunState, step_id: &str, reason: &str) -> (r: bool)
    ensures
        r == can_fail(flow@, state@, step_id@, reason@),
{
    match flow.step(step_id) {
        None => true,
        Some(step) => {
            let attempt: u32 = match state.step(step_id) {
                Some(run) => run.attempt,
                None => 1,
            };
            if attempt <= step.retries {
                is_subflow(step) || is_countable(state, step_id)
            } else {
                is_followable(flow, &fail_state(state, step_id, reason.to_owned()), &step.on_failure)
            }
        },
    }
}

/// Whether the attempts that an event starts can be counted up, so that the
/// event can be decided.
pub fn is_decidable(flow: &FlowDefinition, state: &RunState, event: &Event) -> (r: bool)
    ensures
        r == can_decide(flow@, state@, event@),
{
    match event {
        Event::RunStarted => {
            let entries = dag::entry_steps(flow);
            are_startable(flow, state, &entries)
        },
        Event::StepCompleted { step_id, output } => is_completable(
            flow,
            state,
            step_id.as_str(),
            output,
        ),
        Event::StepFailed { step_id, reason } => is_failable(
            flow,
            state,
            step_id.as_str(),
            reason.as_str(),
        ),
        Event::StepApproved { step_id, comment } => match flow.step(step_id.as_str()) {
            None => true,
            Some(step) => is_followable(
                flow,
                &approve_state(state, step_id.as_str(), comment.duplicate()),
                &step.on_approve,
            ),
        },
        Event::StepRejected { step_id, feedback } => match flow.step(step_id.as_str()) {
            None => true,
            Some(step) => if dag::is_self_reject_loop(step) {
                is_countable(state, step_id.as_str())
            } else {
                is_followable(
                    flow,
                    &reject_state(state, step_id.as_str(), feedback.as_str()),
                    &step.on_reject,
                )
            },
        },
        Event::SubflowFinished { step_id, phase, outputs } => match phase {
            RunPhase::Completed => match outputs {
                Some(v) => is_completable(flow, state, step_id.as_str(), v),
                None => is_completable(flow, state, step_id.as_str(), &JsonValue::Null),
            },
            _ => {
                let reason = cat2("subflow ended in phase ", phase_label(*phase));
                is_failable(flow, state, step_id.as_str(), reason.as_str())
            },
        },
        Event::RunDeadlineExceeded => true,
        Event::CancelRequested => true,
    }
}

fn stop_run(state: &RunState, phase: RunPhase) -> (r: Vec<Command>)
    ensures
        r.deep_view() == run_stopped(state@, phase),
{
    let ids = active_step_ids_excluding(state, "");
    let mut out: Vec<Command> = Vec::new();
    proof {
        reveal_strlit("");
        assert(""@ =~= Seq::<char>::empty());
    }
    let ghost stopped = ids.deep_view();
    if ids.len() > 0 {
        put(&mut out, Command::CancelSteps(ids));
    }
    put(&mut out, Command::MarkRunTerminal(phase));
    proof {
        assert(out.deep_view() =~= run_stopped(state@, phase));
    }
    out
}

} // verus!
