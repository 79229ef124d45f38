//! What is stored about runs, and the values that travel between the
//! scheduler, the store and the job runner.
use crate::copy::{put, Duplicate};
use crate::flow::types::{FlowDefinition, FlowModel};
use crate::graph::{insert_sorted, lemma_sorted_names, sorted_names};
use crate::json::{Json, JsonValue};
use crate::run::types::{
    pending_run, ApprovalStatus, RunPhase, RunState, RunStateModel, StepRun, StepRunModel,
    StepStatus, Timestamp,
};
use crate::text::{cat2, cat5, same_text, signed_decimal, signed_text};
use crate::wire::{JobFailure, JobFailureModel};
use vstd::prelude::*;

verus! {

/// The id of a run.
pub type RunId = String;

/// What is stored about one attempt at a step.
#[derive(Debug)]
pub struct StepRecord {
    pub run: StepRun,
    /// The handle of the job that executes the step.
    pub job_id: Option<String>,
    /// The `with` block as it was handed to the job.
    pub with_resolved: Option<JsonValue>,
    /// The details behind `run.failure_reason`, set on their own.
    pub failure_detail: Option<JobFailure>,
}

/// What a [`StepRecord`] denotes.
#[verifier::ext_equal]
pub struct StepRecordModel {
    pub run: StepRunModel,
    pub job_id: Option<Seq<char>>,
    pub with_resolved: Option<Json>,
    pub failure_detail: Option<JobFailureModel>,
}

impl View for StepRecord {
    type V = StepRecordModel;

    open spec fn view(&self) -> StepRecordModel {
        StepRecordModel {
            run: self.run@,
            job_id: self.job_id.deep_view(),
            with_resolved: self.with_resolved.deep_view(),
            failure_detail: self.failure_detail.deep_view(),
        }
    }
}

impl DeepView for StepRecord {
    type V = StepRecordModel;

    open spec fn deep_view(&self) -> StepRecordModel {
        self@
    }
}

impl Duplicate for StepRecord {
    fn duplicate(&self) -> (r: Self) {
        StepRecord {
            run: self.run.duplicate(),
            job_id: self.job_id.duplicate(),
            with_resolved: self.with_resolved.duplicate(),
            failure_detail: self.failure_detail.duplicate(),
        }
    }
}

impl Clone for StepRecord {
    fn clone(&self) -> (r: Self)
        ensures
            r@ == self@,
    {
        self.duplicate()
    }
}

/// A step that has not started.
pub open spec fn pending_record(step_id: Seq<char>) -> StepRecordModel {
    StepRecordModel {
        run: pending_run(step_id),
        job_id: None,
        with_resolved: None,
        failure_detail: None,
    }
}

impl StepRecord {
    /// A step that has not started.
    pub fn pending(step_id: String) -> (r: Self)
        ensures
            r@ == pending_record(step_id@),
    {
        StepRecord {
            run: StepRun::pending(step_id),
            job_id: None,
            with_resolved: None,
            failure_detail: None,
        }
    }
}

/// Everything stored about one run. The flow is kept as it was, so that a run
/// always executes the version it started with.
#[derive(Debug)]
pub struct RunRecord {
    pub run_id: String,
    pub flow_name: String,
    pub flow_version: String,
    /// The flow as it was when the run started.
    pub definition: FlowDefinition,
    pub inputs: JsonValue,
    pub trigger: JsonValue,
    pub phase: RunPhase,
    pub cancelled: bool,
    pub created_at: Timestamp,
    pub updated_at: Timestamp,
    pub idempotency_key: Option<String>,
    pub steps: Vec<StepRecord>,
}

/// What a [`RunRecord`] denotes.
#[verifier::ext_equal]
pub struct RunRecordModel {
    pub run_id: Seq<char>,
    pub flow_name: Seq<char>,
    pub flow_version: Seq<char>,
    pub definition: FlowModel,
    pub inputs: Json,
    pub trigger: Json,
    pub phase: RunPhase,
    pub cancelled: bool,
    pub created_at: Timestamp,
    pub updated_at: Timestamp,
    pub idempotency_key: Option<Seq<char>>,
    pub steps: Seq<StepRecordModel>,
}

impl View for RunRecord {
    type V = RunRecordModel;

    open spec fn view(&self) -> RunRecordModel {
        RunRecordModel {
            run_id: self.run_id@,
            flow_name: self.flow_name@,
            flow_version: self.flow_version@,
            definition: self.definition@,
            inputs: self.inputs@,
            trigger: self.trigger@,
            phase: self.phase,
            cancelled: self.cancelled,
            created_at: self.created_at,
            updated_at: self.updated_at,
            idempotency_key: self.idempotency_key.deep_view(),
            steps: self.steps.deep_view(),
        }
    }
}

impl DeepView for RunRecord {
    type V = RunRecordModel;

    open spec fn deep_view(&self) -> RunRecordModel {
        self@
    }
}

impl Duplicate for RunRecord {
    fn duplicate(&self) -> (r: Self) {
        RunRecord {
            run_id: self.run_id.clone(),
            flow_name: self.flow_name.clone(),
            flow_version: self.flow_version.clone(),
            definition: self.definition.duplicate(),
            inputs: self.inputs.duplicate(),
            trigger: self.trigger.duplicate(),
            phase: self.phase,
            cancelled: self.cancelled,
            created_at: self.created_at,
            updated_at: self.updated_at,
            idempotency_key: self.idempotency_key.duplicate(),
            steps: self.steps.duplicate(),
        }
    }
}

impl Clone for RunRecord {
    fn clone(&self) -> (r: Self)
        ensures
            r@ == self@,
    {
        self.duplicate()
    }
}

/// The ids of the steps that have records.
pub open spec fn record_ids(steps: Seq<StepRecordModel>) -> Seq<Seq<char>> {
    Seq::new(steps.len(), |i: int| steps[i].run.step_id)
}

/// The record of the latest attempt at `id`; of several with the same attempt
/// the first.
pub open spec fn latest_of(steps: Seq<StepRecordModel>, id: Seq<char>) -> Option<StepRecordModel>
    decreases steps.len(),
{
    if steps.len() == 0 {
        None
    } else {
        let step = steps.last();
        match latest_of(steps.drop_last(), id) {
            Some(best) => if step.run.step_id == id && step.run.attempt > best.run.attempt {
                Some(step)
            } else {
                Some(best)
            },
            None => if step.run.step_id == id {
                Some(step)
            } else {
                None
            },
        }
    }
}

/// The latest record of every step, in the order of the step ids.
pub open spec fn latest_records(steps: Seq<StepRecordModel>) -> Seq<StepRecordModel> {
    let ids = sorted_names(record_ids(steps));
    Seq::new(ids.len(), |i: int| latest_of(steps, ids[i])->0)
}

/// The runs of `records`.
pub open spec fn runs_of(records: Seq<StepRecordModel>) -> Seq<StepRunModel> {
    Seq::new(records.len(), |i: int| records[i].run)
}

/// The state that the engine sees of a stored run: the latest attempt of every
/// step.
pub open spec fn state_of(record: RunRecordModel) -> RunStateModel {
    RunStateModel {
        steps: runs_of(latest_records(record.steps)),
        created_at: Some(record.created_at),
        cancelled: record.cancelled,
        inputs: record.inputs,
        trigger: record.trigger,
    }
}

/// A step has a latest record exactly where it has a record, and that record
/// is one of its own with no lower attempt than any other.
pub proof fn latest_record_is_highest_attempt(steps: Seq<StepRecordModel>, id: Seq<char>)
    ensures
        latest_of(steps, id) is Some <==> record_ids(steps).contains(id),
        latest_of(steps, id) matches Some(best) ==> {
            &&& best.run.step_id == id
            &&& steps.contains(best)
            &&& forall|i: int|
                0 <= i < steps.len() && (#[trigger] steps[i]).run.step_id == id
                    ==> steps[i].run.attempt <= best.run.attempt
        },
    decreases steps.len(),
{
    if steps.len() > 0 {
        let rest = steps.drop_last();
        latest_record_is_highest_attempt(rest, id);
        if record_ids(steps).contains(id) {
            let i = record_ids(steps).index_of(id);
            if i < rest.len() {
                assert(record_ids(rest)[i] == id);
            }
        }
        if record_ids(rest).contains(id) {
            let i = record_ids(rest).index_of(id);
            assert(record_ids(steps)[i] == id);
        }
        if steps.last().run.step_id == id {
            assert(record_ids(steps)[steps.len() - 1] == id);
        }
        if let Some(best) = latest_of(steps, id) {
            if rest.contains(best) {
                assert(steps[rest.index_of(best)] == best);
            } else {
                assert(steps[steps.len() - 1] == best);
            }
            assert forall|i: int|
                0 <= i < steps.len() && (#[trigger] steps[i]).run.step_id == id implies
                steps[i].run.attempt <= best.run.attempt by {
                if i < rest.len() {
                    assert(rest[i].run.step_id == id);
                    assert(record_ids(rest)[i] == id);
                    assert(record_ids(rest).contains(id));
                }
            }
        }
    }
}

impl RunRecord {
    /// The state that the engine sees: the latest attempt of every step.
    pub fn run_state(&self) -> (r: RunState)
        ensures
            r@ == state_of(self@),
    {
        let latest = self.latest_steps();
        let mut steps: Vec<StepRun> = Vec::new();
        let ghost all = runs_of(latest.deep_view());
        let mut i: usize = 0;
        proof {
            assert(steps.deep_view() =~= all.take(0));
        }
        while i < latest.len()
            invariant
                i <= latest@.len(),
                all == runs_of(latest.deep_view()),
                steps.deep_view() == all.take(i as int),
            decreases latest@.len() - i,
        {
            proof {
                assert(all.take(i + 1) =~= all.take(i as int).push(latest@[i as int].run@));
            }
            put(&mut steps, latest[i].run.duplicate());
            i = i + 1;
        }
        proof {
            assert(all.take(i as int) =~= all);
        }
        RunState {
            steps,
            created_at: Some(self.created_at),
            cancelled: self.cancelled,
            inputs: self.inputs.duplicate(),
            trigger: self.trigger.duplicate(),
        }
    }

    /// The latest attempt at the step `id`.
    pub fn latest_of_step(&self, id: &str) -> (r: Option<&StepRecord>)
        ensures
            r.deep_view() == latest_of(self@.steps, id@),
    {
        let ghost all = self@.steps;
        let mut best: Option<&StepRecord> = None;
        let mut i: usize = 0;
        while i < self.steps.len()
            invariant
                i <= self.steps@.len(),
                all == self@.steps,
                all == self.steps.deep_view(),
                best.deep_view() == latest_of(all.take(i as int), id@),
            decreases self.steps@.len() - i,
        {
            let step = &self.steps[i];
            proof {
                assert(all.take(i + 1).drop_last() =~= all.take(i as int));
                assert(all[i as int] == step@);
            }
            if same_text(step.run.step_id.as_str(), id) {
                best = match best {
                    Some(b) => if step.run.attempt > b.run.attempt {
                        Some(step)
                    } else {
                        Some(b)
                    },
                    None => Some(step),
                };
            }
            i = i + 1;
        }
        proof {
            assert(all.take(i as int) =~= all);
        }
        best
    }

    /// The latest attempt of every step, in the order of the step ids.
    pub fn latest_steps(&self) -> (r: Vec<&StepRecord>)
        ensures
            r.deep_view() == latest_records(self@.steps),
    {
        let ghost names = record_ids(self@.steps);
        let mut ids: Vec<String> = Vec::new();
        let mut i: usize = 0;
        proof {
            assert(ids.deep_view() =~= sorted_names(names.take(0)));
        }
        while i < self.steps.len()
            invariant
                i <= self.steps@.len(),
                names == record_ids(self@.steps),
                self@.steps == self.steps.deep_view(),
                ids.deep_view() == sorted_names(names.take(i as int)),
            decreases self.steps@.len() - i,
        {
            proof {
                assert(names.take(i + 1).drop_last() =~= names.take(i as int));
                assert(names[i as int] == self.steps@[i as int].run.step_id@);
            }
            insert_sorted(&mut ids, self.steps[i].run.step_id.as_str());
            i = i + 1;
        }
        proof {
            assert(names.take(i as int) =~= names);
            lemma_sorted_names(names);
        }
        let mut out: Vec<&StepRecord> = Vec::new();
        let ghost all = latest_records(self@.steps);
        let mut j: usize = 0;
        proof {
            assert(out.deep_view() =~= all.take(0));
        }
        while j < ids.len()
            invariant
                j <= ids@.len(),
                names == record_ids(self@.steps),
                ids.deep_view() == sorted_names(names),
                forall|y: Seq<char>| #[trigger]
                    sorted_names(names).contains(y) <==> names.contains(y),
                all == latest_records(self@.steps),
                out.deep_view() == all.take(j as int),
            decreases ids@.len() - j,
        {
            proof {
                assert(ids.deep_view()[j as int] == ids@[j as int]@);
                assert(sorted_names(names).contains(ids@[j as int]@));
                latest_record_is_highest_attempt(self@.steps, ids@[j as int]@);
            }
            match self.latest_of_step(ids[j].as_str()) {
                Some(step) => {
                    proof {
                        assert(all.take(j + 1) =~= all.take(j as int).push(step@));
                    }
                    put(&mut out, step);
                },
                None => {},
            }
            j = j + 1;
        }
        proof {
            assert(all.take(j as int) =~= all);
        }
        out
    }
}

/// A run to be created.
#[derive(Debug)]
pub struct NewRun {
    pub flow_name: String,
    pub flow_version: String,
    pub definition: FlowDefinition,
    pub inputs: JsonValue,
    pub trigger: JsonValue,
    pub idempotency_key: Option<String>,
}

/// What a [`NewRun`] denotes.
#[verifier::ext_equal]
pub struct NewRunModel {
    pub flow_name: Seq<char>,
    pub flow_version: Seq<char>,
    pub definition: FlowModel,
    pub inputs: Json,
    pub trigger: Json,
    pub idempotency_key: Option<Seq<char>>,
}

impl View for NewRun {
    type V = NewRunModel;

    open spec fn view(&self) -> NewRunModel {
        NewRunModel {
            flow_name: self.flow_name@,
            flow_version: self.flow_version@,
            definition: self.definition@,
            inputs: self.inputs@,
            trigger: self.trigger@,
            idempotency_key: self.idempotency_key.deep_view(),
        }
    }
}

impl DeepView for NewRun {
    type V = NewRunModel;

    open spec fn deep_view(&self) -> NewRunModel {
        self@
    }
}

impl Duplicate for NewRun {
    fn duplicate(&self) -> (r: Self) {
        NewRun {
            flow_name: self.flow_name.clone(),
            flow_version: self.flow_version.clone(),
            definition: self.definition.duplicate(),
            inputs: self.inputs.duplicate(),
            trigger: self.trigger.duplicate(),
            idempotency_key: self.idempotency_key.duplicate(),
        }
    }
}

impl Clone for NewRun {
    fn clone(&self) -> (r: Self)
        ensures
            r@ == self@,
    {
        self.duplicate()
    }
}

/// A run in a list of runs.
#[derive(Debug)]
pub struct RunSummary {
    pub run_id: String,
    pub flow_name: String,
    pub flow_version: String,
    pub phase: RunPhase,
    pub created_at: crate::wire::Timestamp,
    pub updated_at: crate::wire::Timestamp,
}

/// What a [`RunSummary`] denotes.
#[verifier::ext_equal]
pub struct RunSummaryModel {
    pub run_id: Seq<char>,
    pub flow_name: Seq<char>,
    pub flow_version: Seq<char>,
    pub phase: RunPhase,
    pub created_at: crate::wire::Timestamp,
    pub updated_at: crate::wire::Timestamp,
}

impl View for RunSummary {
    type V = RunSummaryModel;

    open spec fn view(&self) -> RunSummaryModel {
        RunSummaryModel {
            run_id: self.run_id@,
            flow_name: self.flow_name@,
            flow_version: self.flow_version@,
            phase: self.phase,
            created_at: self.created_at,
            updated_at: self.updated_at,
        }
    }
}

impl DeepView for RunSummary {
    type V = RunSummaryModel;

    open spec fn deep_view(&self) -> RunSummaryModel {
        self@
    }
}

impl Duplicate for RunSummary {
    fn duplicate(&self) -> (r: Self) {
        RunSummary {
            run_id: self.run_id.clone(),
            flow_name: self.flow_name.clone(),
            flow_version: self.flow_version.clone(),
            phase: self.phase,
            created_at: self.created_at,
            updated_at: self.updated_at,
        }
    }
}

impl Clone for RunSummary {
    fn clone(&self) -> (r: Self)
        ensures
            r@ == self@,
    {
        self.duplicate()
    }
}

/// Which runs to list.
#[derive(Debug, Default)]
pub struct RunFilter {
    pub flow_name: Option<String>,
    pub phase: Option<RunPhase>,
    pub limit: Option<usize>,
}

/// A run and the runs that its subflow steps started.
#[derive(Debug)]
pub struct RunTree {
    pub root: RunRecord,
    pub children: Vec<RunTree>,
}

/// When a hook ran.
#[derive(Debug, Clone, Copy, PartialEq, Eq, Structural)]
pub enum HookPhase {
    BeforeRun,
    AfterRun,
    BeforeStep,
    AfterStep,
}

/// How a hook ended.
#[derive(Debug, Clone, Copy, PartialEq, Eq, Structural)]
pub enum HookStatus {
    Completed,
    Failed,
    Skipped,
}

/// What is stored about one execution of a hook.
#[derive(Debug)]
pub struct HookRunRecord {
    pub hook: String,
    pub phase: HookPhase,
    pub step_id: Option<String>,
    pub status: HookStatus,
    pub started_at: Timestamp,
    pub completed_at: Option<Timestamp>,
    pub args_resolved: Option<JsonValue>,
    pub output_ref: Option<String>,
    pub failure_reason: Option<String>,
    /// The details behind `failure_reason`.
    pub failure_detail: Option<JobFailure>,
    pub job_id: Option<String>,
}

/// What a [`HookRunRecord`] denotes.
#[verifier::ext_equal]
pub struct HookRunModel {
    pub hook: Seq<char>,
    pub phase: HookPhase,
    pub step_id: Option<Seq<char>>,
    pub status: HookStatus,
    pub started_at: Timestamp,
    pub completed_at: Option<Timestamp>,
    pub args_resolved: Option<Json>,
    pub output_ref: Option<Seq<char>>,
    pub failure_reason: Option<Seq<char>>,
    pub failure_detail: Option<JobFailureModel>,
    pub job_id: Option<Seq<char>>,
}

impl View for HookRunRecord {
    type V = HookRunModel;

    open spec fn view(&self) -> HookRunModel {
        HookRunModel {
            hook: self.hook@,
            phase: self.phase,
            step_id: self.step_id.deep_view(),
            status: self.status,
            started_at: self.started_at,
            completed_at: self.completed_at,
            args_resolved: self.args_resolved.deep_view(),
            output_ref: self.output_ref.deep_view(),
            failure_reason: self.failure_reason.deep_view(),
            failure_detail: self.failure_detail.deep_view(),
            job_id: self.job_id.deep_view(),
        }
    }
}

impl DeepView for HookRunRecord {
    type V = HookRunModel;

    open spec fn deep_view(&self) -> HookRunModel {
        self@
    }
}

impl Duplicate for HookRunRecord {
    fn duplicate(&self) -> (r: Self) {
        HookRunRecord {
            hook: self.hook.clone(),
            phase: self.phase,
            step_id: self.step_id.duplicate(),
            status: self.status,
            started_at: self.started_at,
            completed_at: self.completed_at,
            args_resolved: self.args_resolved.duplicate(),
            output_ref: self.output_ref.duplicate(),
            failure_reason: self.failure_reason.duplicate(),
            failure_detail: self.failure_detail.duplicate(),
            job_id: self.job_id.duplicate(),
        }
    }
}

impl Clone for HookRunRecord {
    fn clone(&self) -> (r: Self)
        ensures
            r@ == self@,
    {
        self.duplicate()
    }
}

/// The types of the events that are reported about a run.
#[derive(Debug, Clone, Copy, PartialEq, Eq, Structural)]
pub enum RunEventType {
    RunStarted,
    StepActivated,
    StepStarted,
    StepStreamDelta,
    StepCompleted,
    StepFailed,
    StepWaitingApproval,
    StepWaitingOnSubflow,
    ApprovalResolved,
    RunCompleted,
    RunFailed,
    RunCancelled,
}

/// An event to be reported about a run. The store numbers it when it is stored.
#[derive(Debug)]
pub struct RunEventRecord {
    pub event_type: RunEventType,
    pub step_id: Option<String>,
    pub timestamp: Timestamp,
    pub payload: JsonValue,
}

/// What a [`RunEventRecord`] denotes.
#[verifier::ext_equal]
pub struct RunEventModel {
    pub event_type: RunEventType,
    pub step_id: Option<Seq<char>>,
    pub timestamp: Timestamp,
    pub payload: Json,
}

impl View for RunEventRecord {
    type V = RunEventModel;

    open spec fn view(&self) -> RunEventModel {
        RunEventModel {
            event_type: self.event_type,
            step_id: self.step_id.deep_view(),
            timestamp: self.timestamp,
            payload: self.payload@,
        }
    }
}

impl DeepView for RunEventRecord {
    type V = RunEventModel;

    open spec fn deep_view(&self) -> RunEventModel {
        self@
    }
}

impl Duplicate for RunEventRecord {
    fn duplicate(&self) -> (r: Self) {
        RunEventRecord {
            event_type: self.event_type,
            step_id: self.step_id.duplicate(),
            timestamp: self.timestamp,
            payload: self.payload.duplicate(),
        }
    }
}

impl Clone for RunEventRecord {
    fn clone(&self) -> (r: Self)
        ensures
            r@ == self@,
    {
        self.duplicate()
    }
}

/// A stored event with its number.
#[derive(Debug)]
pub struct StoredRunEvent {
    pub sequence: u64,
    pub event_type: RunEventType,
    pub step_id: Option<String>,
    pub timestamp: Timestamp,
    pub payload: JsonValue,
}

/// What a [`StoredRunEvent`] denotes.
#[verifier::ext_equal]
pub struct StoredEventModel {
    pub sequence: u64,
    pub event_type: RunEventType,
    pub step_id: Option<Seq<char>>,
    pub timestamp: Timestamp,
    pub payload: Json,
}

impl View for StoredRunEvent {
    type V = StoredEventModel;

    open spec fn view(&self) -> StoredEventModel {
        StoredEventModel {
            sequence: self.sequence,
            event_type: self.event_type,
            step_id: self.step_id.deep_view(),
            timestamp: self.timestamp,
            payload: self.payload@,
        }
    }
}

impl DeepView for StoredRunEvent {
    type V = StoredEventModel;

    open spec fn deep_view(&self) -> StoredEventModel {
        self@
    }
}

impl Duplicate for StoredRunEvent {
    fn duplicate(&self) -> (r: Self) {
        StoredRunEvent {
            sequence: self.sequence,
            event_type: self.event_type,
            step_id: self.step_id.duplicate(),
            timestamp: self.timestamp,
            payload: self.payload.duplicate(),
        }
    }
}

impl Clone for StoredRunEvent {
    fn clone(&self) -> (r: Self)
        ensures
            r@ == self@,
    {
        self.duplicate()
    }
}

/// One write to a run. The store applies a batch of them as a whole.
#[derive(Debug)]
#[allow(inconsistent_fields)]
pub enum Mutation {
    InsertStepRun(StepRecord),
    SetStepStatus { step_id: String, attempt: u32, status: StepStatus },
    SetStepOutput { step_id: String, attempt: u32, output: JsonValue },
    SetJobId { step_id: String, attempt: u32, job_id: Option<String> },
    SetApproval { step_id: String, attempt: u32, approval_status: ApprovalStatus, comment: Option<String>, feedback: Option<String> },
    SetStepFailure { step_id: String, attempt: u32, reason: String },
    SetStepFailureDetail { step_id: String, attempt: u32, detail: JobFailure },
    SetStepTimestamps { step_id: String, attempt: u32, started_at: Option<Timestamp>, completed_at: Option<Timestamp> },
    SetChildRunId { step_id: String, attempt: u32, child_run_id: Option<String> },
    SetRunPhase(RunPhase),
    SetRunCancelled,
    RecordHookRun(HookRunRecord),
    AppendEvent(RunEventRecord),
}

/// What a [`Mutation`] denotes.
#[verifier::ext_equal]
#[allow(inconsistent_fields)]
pub enum MutationModel {
    InsertStepRun(StepRecordModel),
    SetStepStatus { step_id: Seq<char>, attempt: u32, status: StepStatus },
    SetStepOutput { step_id: Seq<char>, attempt: u32, output: Json },
    SetJobId { step_id: Seq<char>, attempt: u32, job_id: Option<Seq<char>> },
    SetApproval { step_id: Seq<char>, attempt: u32, approval_status: ApprovalStatus, comment: Option<Seq<char>>, feedback: Option<Seq<char>> },
    SetStepFailure { step_id: Seq<char>, attempt: u32, reason: Seq<char> },
    SetStepFailureDetail { step_id: Seq<char>, attempt: u32, detail: JobFailureModel },
    SetStepTimestamps { step_id: Seq<char>, attempt: u32, started_at: Option<Timestamp>, completed_at: Option<Timestamp> },
    SetChildRunId { step_id: Seq<char>, attempt: u32, child_run_id: Option<Seq<char>> },
    SetRunPhase(RunPhase),
    SetRunCancelled,
    RecordHookRun(HookRunModel),
    AppendEvent(RunEventModel),
}

impl View for Mutation {
    type V = MutationModel;

    open spec fn view(&self) -> MutationModel {
        match self {
            Mutation::InsertStepRun(x) => MutationModel::InsertStepRun(x@),
            Mutation::SetStepStatus { step_id, attempt, status } => MutationModel::SetStepStatus {
                step_id: step_id@,
                attempt: *attempt,
                status: *status,
            },
            Mutation::SetStepOutput { step_id, attempt, output } => MutationModel::SetStepOutput {
                step_id: step_id@,
                attempt: *attempt,
                output: output@,
            },
            Mutation::SetJobId { step_id, attempt, job_id } => MutationModel::SetJobId {
                step_id: step_id@,
                attempt: *attempt,
                job_id: job_id.deep_view(),
            },
            Mutation::SetApproval { step_id, attempt, approval_status, comment, feedback } => MutationModel::SetApproval {
                step_id: step_id@,
                attempt: *attempt,
                approval_status: *approval_status,
                comment: comment.deep_view(),
                feedback: feedback.deep_view(),
            },
            Mutation::SetStepFailure { step_id, attempt, reason } => MutationModel::SetStepFailure {
                step_id: step_id@,
                attempt: *attempt,
                reason: reason@,
            },
            Mutation::SetStepFailureDetail { step_id, attempt, detail } => MutationModel::SetStepFailureDetail {
                step_id: step_id@,
                attempt: *attempt,
                detail: detail@,
            },
            Mutation::SetStepTimestamps { step_id, attempt, started_at, completed_at } => MutationModel::SetStepTimestamps {
                step_id: step_id@,
                attempt: *attempt,
                started_at: *started_at,
                completed_at: *completed_at,
            },
            Mutation::SetChildRunId { step_id, attempt, child_run_id } => MutationModel::SetChildRunId {
                step_id: step_id@,
                attempt: *attempt,
                child_run_id: child_run_id.deep_view(),
            },
            Mutation::SetRunPhase(x) => MutationModel::SetRunPhase(*x),
            Mutation::SetRunCancelled => MutationModel::SetRunCancelled,
            Mutation::RecordHookRun(x) => MutationModel::RecordHookRun(x@),
            Mutation::AppendEvent(x) => MutationModel::AppendEvent(x@),
        }
    }
}

impl DeepView for Mutation {
    type V = MutationModel;

    open spec fn deep_view(&self) -> MutationModel {
        self@
    }
}

impl Duplicate for Mutation {
    fn duplicate(&self) -> (r: Self) {
        match self {
            Mutation::InsertStepRun(x) => Mutation::InsertStepRun(x.duplicate()),
            Mutation::SetStepStatus { step_id, attempt, status } => Mutation::SetStepStatus {
                step_id: step_id.duplicate(),
                attempt: *attempt,
                status: *status,
            },
            Mutation::SetStepOutput { step_id, attempt, output } => Mutation::SetStepOutput {
                step_id: step_id.duplicate(),
                attempt: *attempt,
                output: output.duplicate(),
            },
            Mutation::SetJobId { step_id, attempt, job_id } => Mutation::SetJobId {
                step_id: step_id.duplicate(),
                attempt: *attempt,
                job_id: job_id.duplicate(),
            },
            Mutation::SetApproval { step_id, attempt, approval_status, comment, feedback } => Mutation::SetApproval {
                step_id: step_id.duplicate(),
                attempt: *attempt,
                approval_status: *approval_status,
                comment: comment.duplicate(),
                feedback: feedback.duplicate(),
            },
            Mutation::SetStepFailure { step_id, attempt, reason } => Mutation::SetStepFailure {
                step_id: step_id.duplicate(),
                attempt: *attempt,
                reason: reason.duplicate(),
            },
            Mutation::SetStepFailureDetail { step_id, attempt, detail } => Mutation::SetStepFailureDetail {
                step_id: step_id.duplicate(),
                attempt: *attempt,
                detail: detail.duplicate(),
            },
            Mutation::SetStepTimestamps { step_id, attempt, started_at, completed_at } => Mutation::SetStepTimestamps {
                step_id: step_id.duplicate(),
                attempt: *attempt,
                started_at: *started_at,
                completed_at: *completed_at,
            },
            Mutation::SetChildRunId { step_id, attempt, child_run_id } => Mutation::SetChildRunId {
                step_id: step_id.duplicate(),
                attempt: *attempt,
                child_run_id: child_run_id.duplicate(),
            },
            Mutation::SetRunPhase(x) => Mutation::SetRunPhase(*x),
            Mutation::SetRunCancelled => Mutation::SetRunCancelled,
            Mutation::RecordHookRun(x) => Mutation::RecordHookRun(x.duplicate()),
            Mutation::AppendEvent(x) => Mutation::AppendEvent(x.duplicate()),
        }
    }
}

impl Clone for Mutation {
    fn clone(&self) -> (r: Self)
        ensures
            r@ == self@,
    {
        self.duplicate()
    }
}

/// Why the store could not do what it was asked.
#[derive(Debug)]
#[allow(inconsistent_fields)]
pub enum StoreError {
    NotFound(String),
    Duplicate(String),
    Serialization(String),
    Backend(String),
}

/// What a [`StoreError`] denotes.
#[verifier::ext_equal]
#[allow(inconsistent_fields)]
pub enum StoreErrorModel {
    NotFound(Seq<char>),
    Duplicate(Seq<char>),
    Serialization(Seq<char>),
    Backend(Seq<char>),
}

impl View for StoreError {
    type V = StoreErrorModel;

    open spec fn view(&self) -> StoreErrorModel {
        match self {
            StoreError::NotFound(x) => StoreErrorModel::NotFound(x@),
            StoreError::Duplicate(x) => StoreErrorModel::Duplicate(x@),
            StoreError::Serialization(x) => StoreErrorModel::Serialization(x@),
            StoreError::Backend(x) => StoreErrorModel::Backend(x@),
        }
    }
}

impl DeepView for StoreError {
    type V = StoreErrorModel;

    open spec fn deep_view(&self) -> StoreErrorModel {
        self@
    }
}

impl Duplicate for StoreError {
    fn duplicate(&self) -> (r: Self) {
        match self {
            StoreError::NotFound(x) => StoreError::NotFound(x.duplicate()),
            StoreError::Duplicate(x) => StoreError::Duplicate(x.duplicate()),
            StoreError::Serialization(x) => StoreError::Serialization(x.duplicate()),
            StoreError::Backend(x) => StoreError::Backend(x.duplicate()),
        }
    }
}

impl Clone for StoreError {
    fn clone(&self) -> (r: Self)
        ensures
            r@ == self@,
    {
        self.duplicate()
    }
}

/// The text that describes a store error.
pub open spec fn store_error_text(e: StoreErrorModel) -> Seq<char> {
    match e {
        StoreErrorModel::NotFound(id) => "run not found: "@ + id,
        StoreErrorModel::Duplicate(key) => "duplicate idempotency key: "@ + key,
        StoreErrorModel::Serialization(why) => "serialization error: "@ + why,
        StoreErrorModel::Backend(why) => "backend error: "@ + why,
    }
}

impl StoreError {
    /// The text that describes this error.
    pub fn message(&self) -> (r: String)
        ensures
            r@ == store_error_text(self@),
    {
        match self {
            StoreError::NotFound(id) => cat2("run not found: ", id.as_str()),
            StoreError::Duplicate(key) => cat2("duplicate idempotency key: ", key.as_str()),
            StoreError::Serialization(why) => cat2("serialization error: ", why.as_str()),
            StoreError::Backend(why) => cat2("backend error: ", why.as_str()),
        }
    }
}

/// How the scheduler runs steps.
#[derive(Debug)]
pub struct SchedulerConfig {
    /// How often a job is asked for its status, in seconds.
    pub poll_interval_secs: u64,
    /// What is added to the deadline of a step before it is cancelled, in
    /// seconds.
    pub deadline_margin_secs: u64,
    /// The timeout of a step that declares none, in seconds.
    pub default_step_timeout_secs: u64,
    /// How much of a step's output is kept, in kilobytes.
    pub max_step_output_kb: u64,
    /// The tool that executes cli steps.
    pub executor_cli_tool: String,
}

impl Default for SchedulerConfig {
    fn default() -> (r: Self)
        ensures
            r.poll_interval_secs == 5,
            r.deadline_margin_secs == 30,
            r.default_step_timeout_secs == 3600,
            r.max_step_output_kb == 256,
            r.executor_cli_tool@ == "agent-run"@,
    {
        SchedulerConfig {
            poll_interval_secs: 5,
            deadline_margin_secs: 30,
            default_step_timeout_secs: 3600,
            max_step_output_kb: 256,
            executor_cli_tool: "agent-run".to_owned(),
        }
    }
}

impl Clone for SchedulerConfig {
    fn clone(&self) -> (r: Self)
        ensures
            r == *self,
    {
        SchedulerConfig {
            poll_interval_secs: self.poll_interval_secs,
            deadline_margin_secs: self.deadline_margin_secs,
            default_step_timeout_secs: self.default_step_timeout_secs,
            max_step_output_kb: self.max_step_output_kb,
            executor_cli_tool: self.executor_cli_tool.clone(),
        }
    }
}

/// The handle of an accepted job. It can be stored, so that a job can be found
/// again after a restart.
#[derive(Debug)]
pub struct JobHandle(pub String);

/// The output of a step or a hook.
#[derive(Debug)]
pub struct StepOutput {
    pub output: JsonValue,
}

/// A job to start: the tool and its arguments.
#[derive(Debug)]
pub struct StartRequest {
    pub tool: String,
    pub args: JsonValue,
    pub timeout_seconds: Option<u64>,
}

/// What a [`StartRequest`] denotes.
#[verifier::ext_equal]
pub struct StartRequestModel {
    pub tool: Seq<char>,
    pub args: Json,
    pub timeout_seconds: Option<u64>,
}

impl View for StartRequest {
    type V = StartRequestModel;

    open spec fn view(&self) -> StartRequestModel {
        StartRequestModel {
            tool: self.tool@,
            args: self.args@,
            timeout_seconds: self.timeout_seconds,
        }
    }
}

impl DeepView for StartRequest {
    type V = StartRequestModel;

    open spec fn deep_view(&self) -> StartRequestModel {
        self@
    }
}

impl Duplicate for StartRequest {
    fn duplicate(&self) -> (r: Self) {
        StartRequest {
            tool: self.tool.clone(),
            args: self.args.duplicate(),
            timeout_seconds: self.timeout_seconds,
        }
    }
}

impl Clone for StartRequest {
    fn clone(&self) -> (r: Self)
        ensures
            r@ == self@,
    {
        self.duplicate()
    }
}

/// Why a job did not succeed.
#[derive(Debug)]
#[allow(inconsistent_fields)]
pub enum DevkitdError {
    ToolError { stdout: String, stderr: String, exit_code: i32 },
    Timeout,
    Interrupted,
    Cancelled,
    Unreachable,
}

/// What a [`DevkitdError`] denotes.
#[verifier::ext_equal]
#[allow(inconsistent_fields)]
pub enum DevkitdErrorModel {
    ToolError { stdout: Seq<char>, stderr: Seq<char>, exit_code: i32 },
    Timeout,
    Interrupted,
    Cancelled,
    Unreachable,
}

impl View for DevkitdError {
    type V = DevkitdErrorModel;

    open spec fn view(&self) -> DevkitdErrorModel {
        match self {
            DevkitdError::ToolError { stdout, stderr, exit_code } => DevkitdErrorModel::ToolError {
                stdout: stdout@,
                stderr: stderr@,
                exit_code: *exit_code,
            },
            DevkitdError::Timeout => DevkitdErrorModel::Timeout,
            DevkitdError::Interrupted => DevkitdErrorModel::Interrupted,
            DevkitdError::Cancelled => DevkitdErrorModel::Cancelled,
            DevkitdError::Unreachable => DevkitdErrorModel::Unreachable,
        }
    }
}

impl DeepView for DevkitdError {
    type V = DevkitdErrorModel;

    open spec fn deep_view(&self) -> DevkitdErrorModel {
        self@
    }
}

impl Duplicate for DevkitdError {
    fn duplicate(&self) -> (r: Self) {
        match self {
            DevkitdError::ToolError { stdout, stderr, exit_code } => DevkitdError::ToolError {
                stdout: stdout.duplicate(),
                stderr: stderr.duplicate(),
                exit_code: *exit_code,
            },
            DevkitdError::Timeout => DevkitdError::Timeout,
            DevkitdError::Interrupted => DevkitdError::Interrupted,
            DevkitdError::Cancelled => DevkitdError::Cancelled,
            DevkitdError::Unreachable => DevkitdError::Unreachable,
        }
    }
}

impl Clone for DevkitdError {
    fn clone(&self) -> (r: Self)
        ensures
            r@ == self@,
    {
        self.duplicate()
    }
}

/// The text that describes a failed job.
pub open spec fn devkitd_error_text(e: DevkitdErrorModel) -> Seq<char> {
    match e {
        DevkitdErrorModel::ToolError { stdout, stderr, exit_code } => "tool error: exit_code="@
            + signed_decimal(exit_code as int) + " stdout="@ + stdout + " stderr="@ + stderr,
        DevkitdErrorModel::Timeout => "timeout"@,
        DevkitdErrorModel::Interrupted => "interrupted"@,
        DevkitdErrorModel::Cancelled => "cancelled"@,
        DevkitdErrorModel::Unreachable => "unreachable"@,
    }
}

impl DevkitdError {
    /// The text that describes this error.
    pub fn message(&self) -> (r: String)
        ensures
            r@ == devkitd_error_text(self@),
    {
        match self {
            DevkitdError::ToolError { stdout, stderr, exit_code } => {
                let head = cat5(
                    "tool error: exit_code=",
                    signed_text(*exit_code as i64).as_str(),
                    " stdout=",
                    stdout.as_str(),
                    " stderr=",
                );
                cat2(head.as_str(), stderr.as_str())
            },
            DevkitdError::Timeout => "timeout".to_owned(),
            DevkitdError::Interrupted => "interrupted".to_owned(),
            DevkitdError::Cancelled => "cancelled".to_owned(),
            DevkitdError::Unreachable => "unreachable".to_owned(),
        }
    }
}

} // verus!
