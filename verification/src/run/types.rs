//! What a run consists of: step runs, events and commands.
use crate::copy::Duplicate;
use crate::flow::types::{HookCall, HookModel};
use crate::json::{Json, JsonValue};
use crate::text::{cat2, cat3, cat5, same_text};
use vstd::prelude::*;

verus! {

/// A point in time: nanoseconds since the Unix epoch.
pub type Timestamp = i128;

/// Where a run as a whole stands.
#[derive(Debug, Clone, Copy, PartialEq, Eq, Structural)]
pub enum RunPhase {
    Running,
    Completed,
    Failed,
    Cancelled,
}

/// Where one step stands.
#[derive(Debug, Clone, Copy, PartialEq, Eq, Structural)]
pub enum StepStatus {
    Pending,
    Running,
    WaitingApproval,
    WaitingOnSubflow,
    Completed,
    Failed,
    FailedRejected,
    Skipped,
    Cancelled,
}

/// Whether a step in this status has come to its end.
pub open spec fn terminal(status: StepStatus) -> bool {
    status == StepStatus::Completed || status == StepStatus::Failed || status
        == StepStatus::FailedRejected || status == StepStatus::Skipped || status
        == StepStatus::Cancelled
}

/// Whether a step in this status is under way.
pub open spec fn active(status: StepStatus) -> bool {
    status == StepStatus::Running || status == StepStatus::WaitingApproval || status
        == StepStatus::WaitingOnSubflow
}

impl StepStatus {
    /// Whether a step in this status has come to its end.
    pub fn is_terminal(self) -> (r: bool)
        ensures
            r == terminal(self),
    {
        match self {
            StepStatus::Completed | StepStatus::Failed | StepStatus::FailedRejected
            | StepStatus::Skipped | StepStatus::Cancelled => true,
            _ => false,
        }
    }

    /// Whether a step in this status is under way.
    pub fn is_active(self) -> (r: bool)
        ensures
            r == active(self),
    {
        match self {
            StepStatus::Running | StepStatus::WaitingApproval | StepStatus::WaitingOnSubflow => true,
            _ => false,
        }
    }
}

/// How a human answered.
#[derive(Debug, Clone, Copy, PartialEq, Eq, Structural)]
pub enum ApprovalStatus {
    Pending,
    Approved,
    Rejected,
}

impl DeepView for RunPhase {
    type V = RunPhase;

    open spec fn deep_view(&self) -> RunPhase {
        *self
    }
}

impl DeepView for StepStatus {
    type V = StepStatus;

    open spec fn deep_view(&self) -> StepStatus {
        *self
    }
}

impl DeepView for ApprovalStatus {
    type V = ApprovalStatus;

    open spec fn deep_view(&self) -> ApprovalStatus {
        *self
    }
}

/// One attempt at a step.
#[derive(Debug)]
pub struct StepRun {
    pub step_id: String,
    pub status: StepStatus,
    pub attempt: u32,
    pub started_at: Option<Timestamp>,
    pub completed_at: Option<Timestamp>,
    pub input_resolved: Option<String>,
    pub output: Option<JsonValue>,
    pub approval_status: Option<ApprovalStatus>,
    pub feedback: Option<String>,
    pub approval_comment: Option<String>,
    pub failure_reason: Option<String>,
    /// The run that a subflow step has started.
    pub child_run_id: Option<String>,
}

/// What a [`StepRun`] denotes.
#[verifier::ext_equal]
pub struct StepRunModel {
    pub step_id: Seq<char>,
    pub status: StepStatus,
    pub attempt: u32,
    pub started_at: Option<Timestamp>,
    pub completed_at: Option<Timestamp>,
    pub input_resolved: Option<Seq<char>>,
    pub output: Option<Json>,
    pub approval_status: Option<ApprovalStatus>,
    pub feedback: Option<Seq<char>>,
    pub approval_comment: Option<Seq<char>>,
    pub failure_reason: Option<Seq<char>>,
    pub child_run_id: Option<Seq<char>>,
}

impl View for StepRun {
    type V = StepRunModel;

    open spec fn view(&self) -> StepRunModel {
        StepRunModel {
            step_id: self.step_id@,
            status: self.status,
            attempt: self.attempt,
            started_at: self.started_at,
            completed_at: self.completed_at,
            input_resolved: self.input_resolved.deep_view(),
            output: self.output.deep_view(),
            approval_status: self.approval_status,
            feedback: self.feedback.deep_view(),
            approval_comment: self.approval_comment.deep_view(),
            failure_reason: self.failure_reason.deep_view(),
            child_run_id: self.child_run_id.deep_view(),
        }
    }
}

impl DeepView for StepRun {
    type V = StepRunModel;

    open spec fn deep_view(&self) -> StepRunModel {
        self@
    }
}

impl Duplicate for StepRun {
    fn duplicate(&self) -> (r: Self) {
        StepRun {
            step_id: self.step_id.clone(),
            status: self.status,
            attempt: self.attempt,
            started_at: self.started_at,
            completed_at: self.completed_at,
            input_resolved: self.input_resolved.duplicate(),
            output: self.output.duplicate(),
            approval_status: self.approval_status,
            feedback: self.feedback.duplicate(),
            approval_comment: self.approval_comment.duplicate(),
            failure_reason: self.failure_reason.duplicate(),
            child_run_id: self.child_run_id.duplicate(),
        }
    }
}

impl Clone for StepRun {
    fn clone(&self) -> (r: Self)
        ensures
            r@ == self@,
    {
        self.duplicate()
    }
}

/// A step that has not started.
pub open spec fn pending_run(step_id: Seq<char>) -> StepRunModel {
    StepRunModel {
        step_id,
        status: StepStatus::Pending,
        attempt: 0,
        started_at: None,
        completed_at: None,
        input_resolved: None,
        output: None,
        approval_status: None,
        feedback: None,
        approval_comment: None,
        failure_reason: None,
        child_run_id: None,
    }
}

impl StepRun {
    /// A step that has not started.
    pub fn pending(step_id: String) -> (r: Self)
        ensures
            r@ == pending_run(step_id@),
    {
        StepRun {
            step_id,
            status: StepStatus::Pending,
            attempt: 0,
            started_at: None,
            completed_at: None,
            input_resolved: None,
            output: None,
            approval_status: None,
            feedback: None,
            approval_comment: None,
            failure_reason: None,
            child_run_id: None,
        }
    }
}

/// The state of one run: the current run of every step. The phase and the
/// active steps follow from it and are not stored.
#[derive(Debug)]
pub struct RunState {
    pub steps: Vec<StepRun>,
    pub created_at: Option<Timestamp>,
    pub cancelled: bool,
    /// The inputs that `{{ inputs.* }}` refers to.
    pub inputs: JsonValue,
    /// The payload that `{{ trigger.* }}` refers to.
    pub trigger: JsonValue,
}

/// What a [`RunState`] denotes.
#[verifier::ext_equal]
pub struct RunStateModel {
    pub steps: Seq<StepRunModel>,
    pub created_at: Option<Timestamp>,
    pub cancelled: bool,
    pub inputs: Json,
    pub trigger: Json,
}

impl View for RunState {
    type V = RunStateModel;

    open spec fn view(&self) -> RunStateModel {
        RunStateModel {
            steps: self.steps.deep_view(),
            created_at: self.created_at,
            cancelled: self.cancelled,
            inputs: self.inputs@,
            trigger: self.trigger@,
        }
    }
}

impl DeepView for RunState {
    type V = RunStateModel;

    open spec fn deep_view(&self) -> RunStateModel {
        self@
    }
}

impl Duplicate for RunState {
    fn duplicate(&self) -> (r: Self) {
        RunState {
            steps: self.steps.duplicate(),
            created_at: self.created_at,
            cancelled: self.cancelled,
            inputs: self.inputs.duplicate(),
            trigger: self.trigger.duplicate(),
        }
    }
}

impl Clone for RunState {
    fn clone(&self) -> (r: Self)
        ensures
            r@ == self@,
    {
        self.duplicate()
    }
}

impl Default for RunState {
    fn default() -> (r: Self)
        ensures
            r@ == (RunStateModel {
                steps: Seq::empty(),
                created_at: None,
                cancelled: false,
                inputs: Json::Null,
                trigger: Json::Null,
            }),
    {
        let r = RunState {
            steps: Vec::new(),
            created_at: None,
            cancelled: false,
            inputs: JsonValue::Null,
            trigger: JsonValue::Null,
        };
        proof {
            assert(r.steps.deep_view() =~= Seq::<StepRunModel>::empty());
        }
        r
    }
}

/// The first run of the step `id`.
pub open spec fn find_run(steps: Seq<StepRunModel>, id: Seq<char>) -> Option<StepRunModel>
    decreases steps.len(),
{
    if steps.len() == 0 {
        None
    } else if steps[0].step_id == id {
        Some(steps[0])
    } else {
        find_run(steps.drop_first(), id)
    }
}

/// `steps` with the first run of the step `id` replaced.
pub open spec fn set_run(steps: Seq<StepRunModel>, id: Seq<char>, run: StepRunModel) -> Seq<
    StepRunModel,
>
    decreases steps.len(),
{
    if steps.len() == 0 {
        steps
    } else if steps[0].step_id == id {
        seq![run] + steps.drop_first()
    } else {
        seq![steps[0]] + set_run(steps.drop_first(), id, run)
    }
}

/// Replacing the first run of a step changes one place.
pub proof fn lemma_set_run(steps: Seq<StepRunModel>, id: Seq<char>, i: int)
    requires
        0 <= i < steps.len(),
        steps[i].step_id == id,
        forall|j: int| 0 <= j < i ==> (#[trigger] steps[j]).step_id != id,
    ensures
        forall|run: StepRunModel| #[trigger] set_run(steps, id, run) == steps.update(i, run),
    decreases steps.len(),
{
    assert forall|run: StepRunModel| #[trigger] set_run(steps, id, run) == steps.update(
        i,
        run,
    ) by {
        if i > 0 {
            let rest = steps.drop_first();
            assert(steps[0].step_id != id);
            assert forall|j: int| 0 <= j < i - 1 implies (#[trigger] rest[j]).step_id != id by {
                assert(steps[j + 1].step_id != id);
            }
            lemma_set_run(rest, id, i - 1);
            assert(set_run(rest, id, run) == rest.update(i - 1, run));
        }
        assert(set_run(steps, id, run) =~= steps.update(i, run));
    }
}

impl RunState {
    /// Where the first run of the step stands in the list.
    pub(crate) fn index_of(&self, step_id: &str) -> (r: Option<usize>)
        ensures
            match r {
                Some(i) => i < self.steps@.len() && find_run(self@.steps, step_id@) == Some(
                    self@.steps[i as int],
                ) && self@.steps[i as int].step_id == step_id@ && (forall|j: int|
                    0 <= j < i ==> (#[trigger] self@.steps[j]).step_id != step_id@),
                None => find_run(self@.steps, step_id@) is None,
            },
    {
        let ghost all = self@.steps;
        let mut i: usize = 0;
        proof {
            assert(all.skip(0) =~= all);
        }
        while i < self.steps.len()
            invariant
                i <= self.steps@.len(),
                all == self@.steps,
                all == self.steps.deep_view(),
                find_run(all, step_id@) == find_run(all.skip(i as int), step_id@),
                forall|j: int| 0 <= j < i ==> (#[trigger] all[j]).step_id != step_id@,
            decreases self.steps@.len() - i,
        {
            proof {
                assert(all.skip(i as int).drop_first() =~= all.skip(i + 1));
                assert(all[i as int] == self.steps@[i as int]@);
            }
            if same_text(self.steps[i].step_id.as_str(), step_id) {
                return Some(i);
            }
            i = i + 1;
        }
        None
    }

    /// The run of the step `step_id`, to be changed.
    pub fn step_mut(&mut self, step_id: &str) -> (r: Option<&mut StepRun>)
        ensures
            match r {
                Some(run) => find_run(old(self)@.steps, step_id@) == Some((*run)@) && final(self)@
                    == (RunStateModel {
                    steps: set_run(old(self)@.steps, step_id@, (*final(run))@),
                    ..old(self)@
                }),
                None => find_run(old(self)@.steps, step_id@) is None && *final(self) == *old(self),
            },
    {
        match self.index_of(step_id) {
            Some(i) => {
                proof {
                    lemma_set_run(self@.steps, step_id@, i as int);
                }
                let ghost before = self.steps;
                let run = &mut self.steps[i];
                proof {
                    assert(before.deep_view().update(i as int, (*final(run))@) =~= Seq::new(
                        before@.len(),
                        |j: int| before@.update(i as int, *final(run))[j].deep_view(),
                    ));
                }
                Some(run)
            },
            None => None,
        }
    }

    /// The run of the step `step_id`.
    pub fn step(&self, step_id: &str) -> (r: Option<&StepRun>)
        ensures
            r.deep_view() == find_run(self@.steps, step_id@),
    {
        match self.index_of(step_id) {
            Some(i) => Some(&self.steps[i]),
            None => None,
        }
    }
}

/// What the engine reacts to.
#[derive(Debug)]
pub enum Event {
    RunStarted,
    StepCompleted { step_id: String, output: JsonValue },
    StepFailed { step_id: String, reason: String },
    StepApproved { step_id: String, comment: Option<String> },
    StepRejected { step_id: String, feedback: String },
    SubflowFinished { step_id: String, phase: RunPhase, outputs: Option<JsonValue> },
    RunDeadlineExceeded,
    CancelRequested,
}

/// What an [`Event`] denotes.
#[verifier::ext_equal]
pub enum EventModel {
    RunStarted,
    StepCompleted { step_id: Seq<char>, output: Json },
    StepFailed { step_id: Seq<char>, reason: Seq<char> },
    StepApproved { step_id: Seq<char>, comment: Option<Seq<char>> },
    StepRejected { step_id: Seq<char>, feedback: Seq<char> },
    SubflowFinished { step_id: Seq<char>, phase: RunPhase, outputs: Option<Json> },
    RunDeadlineExceeded,
    CancelRequested,
}

impl View for Event {
    type V = EventModel;

    open spec fn view(&self) -> EventModel {
        match self {
            Event::RunStarted => EventModel::RunStarted,
            Event::StepCompleted { step_id, output } => EventModel::StepCompleted {
                step_id: step_id@,
                output: output@,
            },
            Event::StepFailed { step_id, reason } => EventModel::StepFailed {
                step_id: step_id@,
                reason: reason@,
            },
            Event::StepApproved { step_id, comment } => EventModel::StepApproved {
                step_id: step_id@,
                comment: comment.deep_view(),
            },
            Event::StepRejected { step_id, feedback } => EventModel::StepRejected {
                step_id: step_id@,
                feedback: feedback@,
            },
            Event::SubflowFinished { step_id, phase, outputs } => EventModel::SubflowFinished {
                step_id: step_id@,
                phase: *phase,
                outputs: outputs.deep_view(),
            },
            Event::RunDeadlineExceeded => EventModel::RunDeadlineExceeded,
            Event::CancelRequested => EventModel::CancelRequested,
        }
    }
}

impl Duplicate for Event {
    fn duplicate(&self) -> (r: Self) {
        match self {
            Event::RunStarted => Event::RunStarted,
            Event::StepCompleted { step_id, output } => Event::StepCompleted {
                step_id: step_id.clone(),
                output: output.duplicate(),
            },
            Event::StepFailed { step_id, reason } => Event::StepFailed {
                step_id: step_id.clone(),
                reason: reason.clone(),
            },
            Event::StepApproved { step_id, comment } => Event::StepApproved {
                step_id: step_id.clone(),
                comment: comment.duplicate(),
            },
            Event::StepRejected { step_id, feedback } => Event::StepRejected {
                step_id: step_id.clone(),
                feedback: feedback.clone(),
            },
            Event::SubflowFinished { step_id, phase, outputs } => Event::SubflowFinished {
                step_id: step_id.clone(),
                phase: *phase,
                outputs: outputs.duplicate(),
            },
            Event::RunDeadlineExceeded => Event::RunDeadlineExceeded,
            Event::CancelRequested => Event::CancelRequested,
        }
    }
}

impl Clone for Event {
    fn clone(&self) -> (r: Self)
        ensures
            r@ == self@,
    {
        self.duplicate()
    }
}

impl DeepView for Event {
    type V = EventModel;

    open spec fn deep_view(&self) -> EventModel {
        self@
    }
}

/// A cli step to start.
#[derive(Debug)]
pub struct StepActivation {
    pub step_id: String,
    pub attempt: u32,
    pub input: String,
}

/// What a [`StepActivation`] denotes.
#[verifier::ext_equal]
pub struct ActivationModel {
    pub step_id: Seq<char>,
    pub attempt: u32,
    pub input: Seq<char>,
}

impl View for StepActivation {
    type V = ActivationModel;

    open spec fn view(&self) -> ActivationModel {
        ActivationModel {
            step_id: self.step_id@,
            attempt: self.attempt,
            input: self.input@,
        }
    }
}

impl DeepView for StepActivation {
    type V = ActivationModel;

    open spec fn deep_view(&self) -> ActivationModel {
        self@
    }
}

impl Duplicate for StepActivation {
    fn duplicate(&self) -> (r: Self) {
        StepActivation {
            step_id: self.step_id.clone(),
            attempt: self.attempt,
            input: self.input.clone(),
        }
    }
}

impl Clone for StepActivation {
    fn clone(&self) -> (r: Self)
        ensures
            r@ == self@,
    {
        self.duplicate()
    }
}

/// When hooks run.
#[derive(Debug)]
pub enum HookPhase {
    BeforeRun,
    AfterRun,
    BeforeStep { step_id: String },
    AfterStep { step_id: String },
}

/// What a [`HookPhase`] denotes.
#[verifier::ext_equal]
pub enum HookPhaseModel {
    BeforeRun,
    AfterRun,
    BeforeStep { step_id: Seq<char> },
    AfterStep { step_id: Seq<char> },
}

impl View for HookPhase {
    type V = HookPhaseModel;

    open spec fn view(&self) -> HookPhaseModel {
        match self {
            HookPhase::BeforeRun => HookPhaseModel::BeforeRun,
            HookPhase::AfterRun => HookPhaseModel::AfterRun,
            HookPhase::BeforeStep { step_id } => HookPhaseModel::BeforeStep { step_id: step_id@ },
            HookPhase::AfterStep { step_id } => HookPhaseModel::AfterStep { step_id: step_id@ },
        }
    }
}

impl DeepView for HookPhase {
    type V = HookPhaseModel;

    open spec fn deep_view(&self) -> HookPhaseModel {
        self@
    }
}

impl Duplicate for HookPhase {
    fn duplicate(&self) -> (r: Self) {
        match self {
            HookPhase::BeforeRun => HookPhase::BeforeRun,
            HookPhase::AfterRun => HookPhase::AfterRun,
            HookPhase::BeforeStep { step_id } => HookPhase::BeforeStep { step_id: step_id.clone() },
            HookPhase::AfterStep { step_id } => HookPhase::AfterStep { step_id: step_id.clone() },
        }
    }
}

impl Clone for HookPhase {
    fn clone(&self) -> (r: Self)
        ensures
            r@ == self@,
    {
        self.duplicate()
    }
}

/// What the engine asks for. Pure data; something else carries it out.
#[derive(Debug)]
pub enum Command {
    ActivateSteps(Vec<StepActivation>),
    WaitApproval { step_id: String },
    StartChildRun { step_id: String },
    RunHooks { phase: HookPhase, hooks: Vec<HookCall> },
    CancelSteps(Vec<String>),
    MarkStepStatus { step_id: String, status: StepStatus },
    MarkRunTerminal(RunPhase),
}

/// What a [`Command`] denotes.
#[verifier::ext_equal]
pub enum CommandModel {
    ActivateSteps(Seq<ActivationModel>),
    WaitApproval { step_id: Seq<char> },
    StartChildRun { step_id: Seq<char> },
    RunHooks { phase: HookPhaseModel, hooks: Seq<HookModel> },
    CancelSteps(Seq<Seq<char>>),
    MarkStepStatus { step_id: Seq<char>, status: StepStatus },
    MarkRunTerminal(RunPhase),
}

impl View for Command {
    type V = CommandModel;

    open spec fn view(&self) -> CommandModel {
        match self {
            Command::ActivateSteps(list) => CommandModel::ActivateSteps(list.deep_view()),
            Command::WaitApproval { step_id } => CommandModel::WaitApproval { step_id: step_id@ },
            Command::StartChildRun { step_id } => CommandModel::StartChildRun { step_id: step_id@ },
            Command::RunHooks { phase, hooks } => CommandModel::RunHooks {
                phase: phase@,
                hooks: hooks.deep_view(),
            },
            Command::CancelSteps(ids) => CommandModel::CancelSteps(ids.deep_view()),
            Command::MarkStepStatus { step_id, status } => CommandModel::MarkStepStatus {
                step_id: step_id@,
                status: *status,
            },
            Command::MarkRunTerminal(phase) => CommandModel::MarkRunTerminal(*phase),
        }
    }
}

impl DeepView for Command {
    type V = CommandModel;

    open spec fn deep_view(&self) -> CommandModel {
        self@
    }
}

impl Duplicate for Command {
    fn duplicate(&self) -> (r: Self) {
        match self {
            Command::ActivateSteps(list) => Command::ActivateSteps(list.duplicate()),
            Command::WaitApproval { step_id } => Command::WaitApproval { step_id: step_id.clone() },
            Command::StartChildRun { step_id } => Command::StartChildRun { step_id: step_id.clone() },
            Command::RunHooks { phase, hooks } => Command::RunHooks {
                phase: phase.duplicate(),
                hooks: hooks.duplicate(),
            },
            Command::CancelSteps(ids) => Command::CancelSteps(ids.duplicate()),
            Command::MarkStepStatus { step_id, status } => Command::MarkStepStatus {
                step_id: step_id.clone(),
                status: *status,
            },
            Command::MarkRunTerminal(phase) => Command::MarkRunTerminal(*phase),
        }
    }
}

impl Clone for Command {
    fn clone(&self) -> (r: Self)
        ensures
            r@ == self@,
    {
        self.duplicate()
    }
}

/// Why the engine cannot decide.
#[derive(Debug, PartialEq, Eq)]
pub enum EngineError {
    IllegalTransition { step: String, from: StepStatus, to: StepStatus },
    UnknownStep(String),
}

/// What an [`EngineError`] denotes.
#[verifier::ext_equal]
pub enum EngineErrorModel {
    IllegalTransition { step: Seq<char>, from: StepStatus, to: StepStatus },
    UnknownStep(Seq<char>),
}

impl View for EngineError {
    type V = EngineErrorModel;

    open spec fn view(&self) -> EngineErrorModel {
        match self {
            EngineError::IllegalTransition { step, from, to } => EngineErrorModel::IllegalTransition {
                step: step@,
                from: *from,
                to: *to,
            },
            EngineError::UnknownStep(id) => EngineErrorModel::UnknownStep(id@),
        }
    }
}

/// The name of a status in messages.
pub open spec fn status_label(status: StepStatus) -> Seq<char> {
    match status {
        StepStatus::Pending => "Pending"@,
        StepStatus::Running => "Running"@,
        StepStatus::WaitingApproval => "WaitingApproval"@,
        StepStatus::WaitingOnSubflow => "WaitingOnSubflow"@,
        StepStatus::Completed => "Completed"@,
        StepStatus::Failed => "Failed"@,
        StepStatus::FailedRejected => "FailedRejected"@,
        StepStatus::Skipped => "Skipped"@,
        StepStatus::Cancelled => "Cancelled"@,
    }
}

fn label_status(status: StepStatus) -> (r: &'static str)
    ensures
        r@ == status_label(status),
{
    match status {
        StepStatus::Pending => "Pending",
        StepStatus::Running => "Running",
        StepStatus::WaitingApproval => "WaitingApproval",
        StepStatus::WaitingOnSubflow => "WaitingOnSubflow",
        StepStatus::Completed => "Completed",
        StepStatus::Failed => "Failed",
        StepStatus::FailedRejected => "FailedRejected",
        StepStatus::Skipped => "Skipped",
        StepStatus::Cancelled => "Cancelled",
    }
}

/// The text that describes an engine error.
pub open spec fn engine_error_text(e: EngineErrorModel) -> Seq<char> {
    match e {
        EngineErrorModel::IllegalTransition { step, from, to } =>
            "illegal transition for step '"@ + step + "': "@ + status_label(from) + " -> "@
            + status_label(to),
        EngineErrorModel::UnknownStep(id) => "unknown step '"@ + id + "' referenced by event"@,
    }
}

impl EngineError {
    /// The text that describes this error.
    pub fn message(&self) -> (r: String)
        ensures
            r@ == engine_error_text(self@),
    {
        match self {
            EngineError::IllegalTransition { step, from, to } => {
                let head = cat5(
                    "illegal transition for step '",
                    step.as_str(),
                    "': ",
                    label_status(*from),
                    " -> ",
                );
                cat2(head.as_str(), label_status(*to))
            },
            EngineError::UnknownStep(id) => cat3(
                "unknown step '",
                id.as_str(),
                "' referenced by event",
            ),
        }
    }
}

} // verus!
