//! Looking at runs and flows.
use crate::copy::{extend, put, Duplicate};
use crate::flow::types::{find_step, type_text, FlowDefinition, FlowInputModel, FlowModel};
use crate::flow_source::{latest_flows, list_flows_latest};
use crate::json::{Json, JsonValue};
use crate::maps::list_inputs;
use crate::names::{
    approval_name, approval_str, hook_phase_name, hook_phase_str, hook_status_name, hook_status_str,
    phase_name, phase_named, phase_str, read_phase, status_name, status_str,
};
use crate::ports::{
    latest_of, latest_records, state_of, store_error_text, HookRunModel, HookRunRecord, HookStatus,
    RunFilter, RunId, RunRecord, RunRecordModel, RunSummary, RunSummaryModel, RunTree, StepRecord,
    StepRecordModel, StoreError, StoreErrorModel,
};
use crate::run::derive::{active_ids, active_steps};
use crate::run::types::{find_run, terminal, RunPhase, RunState, StepRunModel, StepStatus};
use crate::scheduler::{ended, is_terminal};
use crate::store::find_attempt;
use crate::text::{
    begins, cat2, cat3, cat5, chars_of, decimal, decimal_text, same_text, starts_with,
};
use crate::wire::{
    summarize_output, summary_of, JobFailure, JobFailureModel, OutputSummary, SummaryModel,
    Timestamp,
};
use vstd::prelude::*;

verus! {

broadcast use vstd::std_specs::vec::group_vec_axioms;

/// How many characters of an output a status shows.
pub const OUTPUT_SUMMARY_MAX_CHARS: usize = 500;

/// Which run to look at.
#[derive(Debug)]
pub struct GetRunStatusRequest {
    /// The id of the run.
    pub run_id: RunId,
}

/// One hook that ran.
#[derive(Debug)]
pub struct HookInfo {
    pub hook: String,
    /// `before_run`, `after_run`, `before_step` or `after_step`.
    pub phase: String,
    /// `completed`, `failed` or `skipped`.
    pub status: String,
    pub job_id: Option<String>,
    pub failure_summary: Option<OutputSummary>,
    pub failure: Option<JobFailure>,
    pub started_at: Timestamp,
    pub completed_at: Option<Timestamp>,
}

/// What a [`HookInfo`] denotes.
#[verifier::ext_equal]
pub struct HookInfoModel {
    pub hook: Seq<char>,
    pub phase: Seq<char>,
    pub status: Seq<char>,
    pub job_id: Option<Seq<char>>,
    pub failure_summary: Option<SummaryModel>,
    pub failure: Option<JobFailureModel>,
    pub started_at: Timestamp,
    pub completed_at: Option<Timestamp>,
}

impl View for HookInfo {
    type V = HookInfoModel;

    open spec fn view(&self) -> HookInfoModel {
        HookInfoModel {
            hook: self.hook@,
            phase: self.phase@,
            status: self.status@,
            job_id: self.job_id.deep_view(),
            failure_summary: self.failure_summary.deep_view(),
            failure: self.failure.deep_view(),
            started_at: self.started_at,
            completed_at: self.completed_at,
        }
    }
}

impl DeepView for HookInfo {
    type V = HookInfoModel;

    open spec fn deep_view(&self) -> HookInfoModel {
        self@
    }
}

/// A step that is under way.
#[derive(Debug)]
pub struct ActiveStepInfo {
    pub step_id: String,
    pub status: String,
    /// Seconds since the step's job was last seen alive.
    pub last_poll_ago_secs: Option<u64>,
}

/// What an [`ActiveStepInfo`] denotes.
#[verifier::ext_equal]
pub struct ActiveStepModel {
    pub step_id: Seq<char>,
    pub status: Seq<char>,
    pub last_poll_ago_secs: Option<u64>,
}

impl View for ActiveStepInfo {
    type V = ActiveStepModel;

    open spec fn view(&self) -> ActiveStepModel {
        ActiveStepModel {
            step_id: self.step_id@,
            status: self.status@,
            last_poll_ago_secs: self.last_poll_ago_secs,
        }
    }
}

impl DeepView for ActiveStepInfo {
    type V = ActiveStepModel;

    open spec fn deep_view(&self) -> ActiveStepModel {
        self@
    }
}

/// The latest attempt at a step.
#[derive(Debug)]
pub struct StepInfo {
    pub step_id: String,
    pub status: String,
    pub attempt: u32,
    pub output_summary: Option<OutputSummary>,
    pub failure_reason: Option<String>,
    /// The details behind `failure_reason`.
    pub failure: Option<JobFailure>,
    /// For a failed step only: `step` where its own job failed, `after_hook`
    /// where one of its hooks did.
    pub failed_in: Option<String>,
    /// The hooks of this step.
    pub hooks: Vec<HookInfo>,
    pub feedback: Option<String>,
    pub last_poll_ago_secs: Option<u64>,
    pub started_at: Option<Timestamp>,
    pub completed_at: Option<Timestamp>,
}

/// What a [`StepInfo`] denotes.
#[verifier::ext_equal]
pub struct StepInfoModel {
    pub step_id: Seq<char>,
    pub status: Seq<char>,
    pub attempt: u32,
    pub output_summary: Option<SummaryModel>,
    pub failure_reason: Option<Seq<char>>,
    pub failure: Option<JobFailureModel>,
    pub failed_in: Option<Seq<char>>,
    pub hooks: Seq<HookInfoModel>,
    pub feedback: Option<Seq<char>>,
    pub last_poll_ago_secs: Option<u64>,
    pub started_at: Option<Timestamp>,
    pub completed_at: Option<Timestamp>,
}

impl View for StepInfo {
    type V = StepInfoModel;

    open spec fn view(&self) -> StepInfoModel {
        StepInfoModel {
            step_id: self.step_id@,
            status: self.status@,
            attempt: self.attempt,
            output_summary: self.output_summary.deep_view(),
            failure_reason: self.failure_reason.deep_view(),
            failure: self.failure.deep_view(),
            failed_in: self.failed_in.deep_view(),
            hooks: self.hooks.deep_view(),
            feedback: self.feedback.deep_view(),
            last_poll_ago_secs: self.last_poll_ago_secs,
            started_at: self.started_at,
            completed_at: self.completed_at,
        }
    }
}

impl DeepView for StepInfo {
    type V = StepInfoModel;

    open spec fn deep_view(&self) -> StepInfoModel {
        self@
    }
}

/// Where a run stands.
#[derive(Debug)]
pub struct RunStatus {
    pub run_id: String,
    pub flow_name: String,
    pub flow_version: String,
    pub phase: String,
    /// The steps that are pending, running or waiting for an approval or a
    /// subflow.
    pub active_steps: Vec<ActiveStepInfo>,
    /// Every step in its latest attempt.
    pub steps: Vec<StepInfo>,
    /// The hooks before and after the run.
    pub run_hooks: Vec<HookInfo>,
    pub created_at: Timestamp,
    pub updated_at: Timestamp,
}

/// What a [`RunStatus`] denotes.
#[verifier::ext_equal]
pub struct RunStatusModel {
    pub run_id: Seq<char>,
    pub flow_name: Seq<char>,
    pub flow_version: Seq<char>,
    pub phase: Seq<char>,
    pub active_steps: Seq<ActiveStepModel>,
    pub steps: Seq<StepInfoModel>,
    pub run_hooks: Seq<HookInfoModel>,
    pub created_at: Timestamp,
    pub updated_at: Timestamp,
}

impl View for RunStatus {
    type V = RunStatusModel;

    open spec fn view(&self) -> RunStatusModel {
        RunStatusModel {
            run_id: self.run_id@,
            flow_name: self.flow_name@,
            flow_version: self.flow_version@,
            phase: self.phase@,
            active_steps: self.active_steps.deep_view(),
            steps: self.steps.deep_view(),
            run_hooks: self.run_hooks.deep_view(),
            created_at: self.created_at,
            updated_at: self.updated_at,
        }
    }
}

/// Whose waiting steps to list.
#[derive(Debug)]
pub struct PendingApprovalsRequest {
    /// One run; without it, all runs.
    pub run_id: Option<RunId>,
}

/// A step that waits for approval.
#[derive(Debug)]
pub struct PendingApproval {
    pub run_id: String,
    pub step_id: String,
    /// The output to be reviewed.
    pub output: Option<JsonValue>,
}

/// What a [`PendingApproval`] denotes.
#[verifier::ext_equal]
pub struct PendingModel {
    pub run_id: Seq<char>,
    pub step_id: Seq<char>,
    pub output: Option<Json>,
}

impl View for PendingApproval {
    type V = PendingModel;

    open spec fn view(&self) -> PendingModel {
        PendingModel {
            run_id: self.run_id@,
            step_id: self.step_id@,
            output: self.output.deep_view(),
        }
    }
}

impl DeepView for PendingApproval {
    type V = PendingModel;

    open spec fn deep_view(&self) -> PendingModel {
        self@
    }
}

/// A declared input of a flow.
#[derive(Debug)]
pub struct FlowInputSummary {
    pub name: String,
    pub ty: String,
    pub required: bool,
    pub default: Option<JsonValue>,
    pub description: Option<String>,
}

/// What a [`FlowInputSummary`] denotes.
#[verifier::ext_equal]
pub struct FlowInputSummaryModel {
    pub name: Seq<char>,
    pub ty: Seq<char>,
    pub required: bool,
    pub default: Option<Json>,
    pub description: Option<Seq<char>>,
}

impl View for FlowInputSummary {
    type V = FlowInputSummaryModel;

    open spec fn view(&self) -> FlowInputSummaryModel {
        FlowInputSummaryModel {
            name: self.name@,
            ty: self.ty@,
            required: self.required,
            default: self.default.deep_view(),
            description: self.description.deep_view(),
        }
    }
}

impl DeepView for FlowInputSummary {
    type V = FlowInputSummaryModel;

    open spec fn deep_view(&self) -> FlowInputSummaryModel {
        self@
    }
}

/// A flow and its inputs.
#[derive(Debug)]
pub struct FlowSummary {
    pub name: String,
    pub version: String,
    pub description: Option<String>,
    pub inputs: Vec<FlowInputSummary>,
}

/// What a [`FlowSummary`] denotes.
#[verifier::ext_equal]
pub struct FlowSummaryModel {
    pub name: Seq<char>,
    pub version: Seq<char>,
    pub description: Option<Seq<char>>,
    pub inputs: Seq<FlowInputSummaryModel>,
}

impl View for FlowSummary {
    type V = FlowSummaryModel;

    open spec fn view(&self) -> FlowSummaryModel {
        FlowSummaryModel {
            name: self.name@,
            version: self.version@,
            description: self.description.deep_view(),
            inputs: self.inputs.deep_view(),
        }
    }
}

impl DeepView for FlowSummary {
    type V = FlowSummaryModel;

    open spec fn deep_view(&self) -> FlowSummaryModel {
        self@
    }
}

/// Which output to fetch.
#[derive(Debug)]
pub struct GetStepOutputRequest {
    pub run_id: RunId,
    pub step_id: String,
    /// Which attempt; without it, the latest.
    pub attempt: Option<u32>,
}

/// The output of an attempt at a step.
#[derive(Debug)]
pub struct StepOutputResponse {
    pub run_id: String,
    pub step_id: String,
    pub attempt: u32,
    pub status: String,
    /// The whole output.
    pub output: Option<JsonValue>,
    pub failure_reason: Option<String>,
    pub failure: Option<JobFailure>,
    pub feedback: Option<String>,
}

/// What a [`StepOutputResponse`] denotes.
#[verifier::ext_equal]
pub struct StepOutputModel {
    pub run_id: Seq<char>,
    pub step_id: Seq<char>,
    pub attempt: u32,
    pub status: Seq<char>,
    pub output: Option<Json>,
    pub failure_reason: Option<Seq<char>>,
    pub failure: Option<JobFailureModel>,
    pub feedback: Option<Seq<char>>,
}

impl View for StepOutputResponse {
    type V = StepOutputModel;

    open spec fn view(&self) -> StepOutputModel {
        StepOutputModel {
            run_id: self.run_id@,
            step_id: self.step_id@,
            attempt: self.attempt,
            status: self.status@,
            output: self.output.deep_view(),
            failure_reason: self.failure_reason.deep_view(),
            failure: self.failure.deep_view(),
            feedback: self.feedback.deep_view(),
        }
    }
}

/// Which runs to list.
#[derive(Debug)]
pub struct ListRunsRequest {
    pub flow_name: Option<String>,
    /// One of `running`, `completed`, `failed` and `cancelled`.
    pub phase: Option<String>,
    /// How many runs at most, newest first.
    pub limit: Option<usize>,
}

/// Why a question cannot be answered.
#[derive(Debug)]
pub enum QueryError {
    Store(StoreError),
    StepNotFound(String),
    AttemptNotFound(u32, String),
    InvalidPhase(String),
}

/// What a [`QueryError`] denotes.
#[verifier::ext_equal]
pub enum QueryErrorModel {
    Store(StoreErrorModel),
    StepNotFound(Seq<char>),
    AttemptNotFound(u32, Seq<char>),
    InvalidPhase(Seq<char>),
}

impl View for QueryError {
    type V = QueryErrorModel;

    open spec fn view(&self) -> QueryErrorModel {
        match self {
            QueryError::Store(e) => QueryErrorModel::Store(e@),
            QueryError::StepNotFound(id) => QueryErrorModel::StepNotFound(id@),
            QueryError::AttemptNotFound(n, id) => QueryErrorModel::AttemptNotFound(*n, id@),
            QueryError::InvalidPhase(raw) => QueryErrorModel::InvalidPhase(raw@),
        }
    }
}

/// The text that describes a query error.
pub open spec fn query_error_text(e: QueryErrorModel) -> Seq<char> {
    match e {
        QueryErrorModel::Store(e) => "store error: "@ + store_error_text(e),
        QueryErrorModel::StepNotFound(id) => "step '"@ + id + "' not found"@,
        QueryErrorModel::AttemptNotFound(n, id) => "attempt "@ + decimal(n as nat) + " of step '"@
            + id + "' not found"@,
        QueryErrorModel::InvalidPhase(raw) => "invalid phase '"@ + raw
            + "'; expected one of: running, completed, failed, cancelled"@,
    }
}

impl QueryError {
    /// The text that describes this error.
    pub fn message(&self) -> (r: String)
        ensures
            r@ == query_error_text(self@),
    {
        match self {
            QueryError::Store(e) => cat2("store error: ", e.message().as_str()),
            QueryError::StepNotFound(id) => cat3("step '", id.as_str(), "' not found"),
            QueryError::AttemptNotFound(n, id) => cat5(
                "attempt ",
                decimal_text(*n as u64).as_str(),
                " of step '",
                id.as_str(),
                "' not found",
            ),
            QueryError::InvalidPhase(raw) => cat3(
                "invalid phase '",
                raw.as_str(),
                "'; expected one of: running, completed, failed, cancelled",
            ),
        }
    }
}

/// Reads the name of a phase.
pub fn parse_phase(raw: &str) -> (r: Result<RunPhase, QueryError>)
    ensures
        match (r, phase_named(raw@)) {
            (Ok(p), Some(q)) => p == q,
            (Err(e), None) => e@ == QueryErrorModel::InvalidPhase(raw@),
            _ => false,
        },
{
    match read_phase(raw) {
        Some(p) => Ok(p),
        None => Err(QueryError::InvalidPhase(raw.to_owned())),
    }
}

/// Wraps a point in time for a response.
pub open spec fn shown_time(t: Option<crate::run::types::Timestamp>) -> Option<Timestamp> {
    match t {
        Some(x) => Some(Timestamp(x)),
        None => None,
    }
}

fn show_time(t: Option<crate::run::types::Timestamp>) -> (r: Option<Timestamp>)
    ensures
        r == shown_time(t),
{
    match t {
        Some(x) => Some(Timestamp(x)),
        None => None,
    }
}

/// How a hook is shown.
pub open spec fn hook_info_of(h: HookRunModel) -> HookInfoModel {
    HookInfoModel {
        hook: h.hook,
        phase: hook_phase_name(h.phase),
        status: hook_status_name(h.status),
        job_id: h.job_id,
        failure_summary: match h.failure_reason {
            Some(t) => Some(summary_of(Json::Text(t), OUTPUT_SUMMARY_MAX_CHARS as nat)),
            None => None,
        },
        failure: h.failure_detail,
        started_at: Timestamp(h.started_at),
        completed_at: shown_time(h.completed_at),
    }
}

fn hook_info(h: &HookRunRecord) -> (r: HookInfo)
    ensures
        r@ == hook_info_of(h@),
{
    HookInfo {
        hook: h.hook.clone(),
        phase: hook_phase_str(h.phase).to_owned(),
        status: hook_status_str(h.status).to_owned(),
        job_id: h.job_id.duplicate(),
        failure_summary: match &h.failure_reason {
            Some(t) => Some(
                summarize_output(&JsonValue::Text(t.clone()), OUTPUT_SUMMARY_MAX_CHARS),
            ),
            None => None,
        },
        failure: h.failure_detail.duplicate(),
        started_at: Timestamp(h.started_at),
        completed_at: show_time(h.completed_at),
    }
}

/// The hooks of one step, or those of the run where there is no step.
pub open spec fn hooks_shown(hooks: Seq<HookRunModel>, step_id: Option<Seq<char>>) -> Seq<
    HookInfoModel,
>
    decreases hooks.len(),
{
    if hooks.len() == 0 {
        Seq::empty()
    } else if hooks.last().step_id == step_id {
        hooks_shown(hooks.drop_last(), step_id).push(hook_info_of(hooks.last()))
    } else {
        hooks_shown(hooks.drop_last(), step_id)
    }
}

/// Whether a hook of the step failed.
pub open spec fn step_hook_failed(hooks: Seq<HookRunModel>, step_id: Seq<char>) -> bool {
    exists|i: int|
        0 <= i < hooks.len() && (#[trigger] hooks[i]).step_id == Some(step_id) && hooks[i].status
            == HookStatus::Failed
}

fn belongs(hook: &HookRunRecord, step_id: Option<&str>) -> (r: bool)
    ensures
        r == (hook@.step_id == step_id.deep_view()),
{
    match (&hook.step_id, step_id) {
        (Some(a), Some(b)) => same_text(a.as_str(), b),
        (None, None) => true,
        _ => false,
    }
}

fn show_hooks(hooks: &Vec<HookRunRecord>, step_id: Option<&str>) -> (r: Vec<HookInfo>)
    ensures
        r.deep_view() == hooks_shown(hooks.deep_view(), step_id.deep_view()),
{
    let ghost all = hooks.deep_view();
    let ghost id = step_id.deep_view();
    let mut out: Vec<HookInfo> = Vec::new();
    let mut i: usize = 0;
    proof {
        assert(out.deep_view() =~= hooks_shown(all.take(0), id));
    }
    while i < hooks.len()
        invariant
            i <= hooks@.len(),
            all == hooks.deep_view(),
            id == step_id.deep_view(),
            out.deep_view() == hooks_shown(all.take(i as int), id),
        decreases hooks@.len() - i,
    {
        proof {
            assert(all.take(i + 1).drop_last() =~= all.take(i as int));
            assert(all[i as int] == hooks@[i as int]@);
        }
        if belongs(&hooks[i], step_id) {
            put(&mut out, hook_info(&hooks[i]));
        }
        i = i + 1;
    }
    proof {
        assert(all.take(i as int) =~= all);
    }
    out
}

fn has_failed_hook(hooks: &Vec<HookRunRecord>, step_id: &str) -> (r: bool)
    ensures
        r == step_hook_failed(hooks.deep_view(), step_id@),
{
    let ghost all = hooks.deep_view();
    let mut i: usize = 0;
    while i < hooks.len()
        invariant
            i <= hooks@.len(),
            all == hooks.deep_view(),
            forall|j: int|
                0 <= j < i ==> !((#[trigger] all[j]).step_id == Some(step_id@) && all[j].status
                    == HookStatus::Failed),
        decreases hooks@.len() - i,
    {
        proof {
            assert(all[i as int] == hooks@[i as int]@);
        }
        if belongs(&hooks[i], Some(step_id)) && hooks[i].status == HookStatus::Failed {
            return true;
        }
        i = i + 1;
    }
    false
}

/// How long ago a step was last seen alive, among what is known of it.
pub open spec fn poll_of(polls: Seq<(Seq<char>, u64)>, step_id: Seq<char>) -> Option<u64>
    decreases polls.len(),
{
    if polls.len() == 0 {
        None
    } else if polls[0].0 == step_id {
        Some(polls[0].1)
    } else {
        poll_of(polls.drop_first(), step_id)
    }
}

fn find_poll(polls: &Vec<(String, u64)>, step_id: &str) -> (r: Option<u64>)
    ensures
        r == poll_of(polls.deep_view(), step_id@),
{
    let ghost all = polls.deep_view();
    let mut i: usize = 0;
    proof {
        assert(all.skip(0) =~= all);
    }
    while i < polls.len()
        invariant
            i <= polls@.len(),
            all == polls.deep_view(),
            poll_of(all, step_id@) == poll_of(all.skip(i as int), step_id@),
        decreases polls@.len() - i,
    {
        proof {
            assert(all.skip(i as int).drop_first() =~= all.skip(i + 1));
            assert(all[i as int] == (polls@[i as int].0@, polls@[i as int].1));
        }
        if same_text(polls[i].0.as_str(), step_id) {
            return Some(polls[i].1);
        }
        i = i + 1;
    }
    None
}

/// The ids of the steps that have not ended, in order.
pub open spec fn open_ids(runs: Seq<StepRunModel>) -> Seq<Seq<char>>
    decreases runs.len(),
{
    if runs.len() == 0 {
        Seq::empty()
    } else if terminal(runs.last().status) {
        open_ids(runs.drop_last())
    } else {
        open_ids(runs.drop_last()).push(runs.last().step_id)
    }
}

fn list_open(state: &RunState) -> (r: Vec<String>)
    ensures
        r.deep_view() == open_ids(state@.steps),
{
    let mut out: Vec<String> = Vec::new();
    let ghost all = state@.steps;
    let mut i: usize = 0;
    proof {
        assert(out.deep_view() =~= open_ids(all.take(0)));
    }
    while i < state.steps.len()
        invariant
            i <= state.steps@.len(),
            all == state@.steps,
            all == state.steps.deep_view(),
            out.deep_view() == open_ids(all.take(i as int)),
        decreases state.steps@.len() - i,
    {
        proof {
            assert(all.take(i + 1).drop_last() =~= all.take(i as int));
            assert(all[i as int] == state.steps@[i as int]@);
        }
        if !state.steps[i].status.is_terminal() {
            put(&mut out, state.steps[i].step_id.clone());
        }
        i = i + 1;
    }
    proof {
        assert(all.take(i as int) =~= all);
    }
    out
}

/// A step is shown as open exactly where it has not ended.
pub proof fn open_steps_have_not_ended(runs: Seq<StepRunModel>, id: Seq<char>)
    ensures
        open_ids(runs).contains(id) <==> exists|i: int|
            0 <= i < runs.len() && (#[trigger] runs[i]).step_id == id && !terminal(runs[i].status),
    decreases runs.len(),
{
    if runs.len() > 0 {
        let rest = runs.drop_last();
        let before = open_ids(rest);
        open_steps_have_not_ended(rest, id);
        if before.contains(id) {
            let i = choose|i: int|
                0 <= i < rest.len() && (#[trigger] rest[i]).step_id == id && !terminal(
                    rest[i].status,
                );
            assert(runs[i] == rest[i]);
            assert(open_ids(runs)[before.index_of(id)] == id);
        }
        if exists|i: int|
            0 <= i < runs.len() && (#[trigger] runs[i]).step_id == id && !terminal(runs[i].status) {
            let i = choose|i: int|
                0 <= i < runs.len() && (#[trigger] runs[i]).step_id == id && !terminal(
                    runs[i].status,
                );
            if i < rest.len() {
                assert(rest[i] == runs[i]);
            } else {
                assert(open_ids(runs)[before.len() as int] == id);
            }
        }
        if open_ids(runs).contains(id) && !before.contains(id) {
            let k = open_ids(runs).index_of(id);
            assert(k == before.len()) by {
                if k < before.len() {
                    assert(before[k] == id);
                }
            }
            assert(runs[runs.len() - 1].step_id == id);
        }
    }
}

/// How a step that has not ended is shown.
pub open spec fn active_info(
    runs: Seq<StepRunModel>,
    polls: Seq<(Seq<char>, u64)>,
    step_id: Seq<char>,
) -> ActiveStepModel {
    ActiveStepModel {
        step_id,
        status: match find_run(runs, step_id) {
            Some(run) => status_name(run.status),
            None => "unknown"@,
        },
        last_poll_ago_secs: poll_of(polls, step_id),
    }
}

/// Where a failed step failed.
pub open spec fn failed_in_of(step: StepRecordModel, hooks: Seq<HookRunModel>) -> Option<Seq<char>> {
    if step.run.status == StepStatus::Failed {
        if step_hook_failed(hooks, step.run.step_id) {
            Some("after_hook"@)
        } else {
            Some("step"@)
        }
    } else {
        None
    }
}

/// How the latest attempt at a step is shown.
pub open spec fn step_info_of(
    step: StepRecordModel,
    hooks: Seq<HookRunModel>,
    polls: Seq<(Seq<char>, u64)>,
) -> StepInfoModel {
    StepInfoModel {
        step_id: step.run.step_id,
        status: status_name(step.run.status),
        attempt: step.run.attempt,
        output_summary: match step.run.output {
            Some(v) => Some(summary_of(v, OUTPUT_SUMMARY_MAX_CHARS as nat)),
            None => None,
        },
        failure_reason: step.run.failure_reason,
        failure: step.failure_detail,
        failed_in: failed_in_of(step, hooks),
        hooks: hooks_shown(hooks, Some(step.run.step_id)),
        feedback: step.run.feedback,
        last_poll_ago_secs: poll_of(polls, step.run.step_id),
        started_at: shown_time(step.run.started_at),
        completed_at: shown_time(step.run.completed_at),
    }
}

/// Where a run stands.
pub open spec fn status_of(
    record: RunRecordModel,
    hooks: Seq<HookRunModel>,
    polls: Seq<(Seq<char>, u64)>,
) -> RunStatusModel {
    let runs = state_of(record).steps;
    let active = open_ids(runs);
    let latest = latest_records(record.steps);
    RunStatusModel {
        run_id: record.run_id,
        flow_name: record.flow_name,
        flow_version: record.flow_version,
        phase: phase_name(record.phase),
        active_steps: Seq::new(active.len(), |i: int| active_info(runs, polls, active[i])),
        steps: Seq::new(latest.len(), |i: int| step_info_of(latest[i], hooks, polls)),
        run_hooks: hooks_shown(hooks, None),
        created_at: Timestamp(record.created_at),
        updated_at: Timestamp(record.updated_at),
    }
}

fn show_step(step: &StepRecord, hooks: &Vec<HookRunRecord>, polls: &Vec<(String, u64)>) -> (r:
    StepInfo)
    ensures
        r@ == step_info_of(step@, hooks.deep_view(), polls.deep_view()),
{
    let id = step.run.step_id.as_str();
    let failed_in = if step.run.status == StepStatus::Failed {
        if has_failed_hook(hooks, id) {
            Some("after_hook".to_owned())
        } else {
            Some("step".to_owned())
        }
    } else {
        None
    };
    StepInfo {
        step_id: step.run.step_id.clone(),
        status: status_str(step.run.status).to_owned(),
        attempt: step.run.attempt,
        output_summary: match &step.run.output {
            Some(v) => Some(summarize_output(v, OUTPUT_SUMMARY_MAX_CHARS)),
            None => None,
        },
        failure_reason: step.run.failure_reason.duplicate(),
        failure: step.failure_detail.duplicate(),
        failed_in,
        hooks: show_hooks(hooks, Some(id)),
        feedback: step.run.feedback.duplicate(),
        last_poll_ago_secs: find_poll(polls, id),
        started_at: show_time(step.run.started_at),
        completed_at: show_time(step.run.completed_at),
    }
}

/// Shows where a run stands, from its record, its hooks and how long ago its
/// steps were last seen alive.
pub fn get_run_status(
    record: &RunRecord,
    hook_runs: &Vec<HookRunRecord>,
    last_polls: &Vec<(String, u64)>,
) -> (r: RunStatus)
    ensures
        r@ == status_of(record@, hook_runs.deep_view(), last_polls.deep_view()),
{
    let state = record.run_state();
    let ids = list_open(&state);
    let ghost hooks = hook_runs.deep_view();
    let ghost polls = last_polls.deep_view();
    let ghost goal = status_of(record@, hooks, polls);
    let mut active: Vec<ActiveStepInfo> = Vec::new();
    let mut i: usize = 0;
    proof {
        assert(active.deep_view() =~= goal.active_steps.take(0));
    }
    while i < ids.len()
        invariant
            i <= ids@.len(),
            ids.deep_view() == open_ids(state@.steps),
            state@ == state_of(record@),
            hooks == hook_runs.deep_view(),
            polls == last_polls.deep_view(),
            goal == status_of(record@, hooks, polls),
            active.deep_view() == goal.active_steps.take(i as int),
        decreases ids@.len() - i,
    {
        let id = ids[i].as_str();
        let status = match state.step(id) {
            Some(run) => status_str(run.status),
            None => "unknown",
        };
        let info = ActiveStepInfo {
            step_id: id.to_owned(),
            status: status.to_owned(),
            last_poll_ago_secs: find_poll(last_polls, id),
        };
        proof {
            assert(ids.deep_view()[i as int] == id@);
            assert(goal.active_steps.take(i + 1) =~= goal.active_steps.take(i as int).push(
                goal.active_steps[i as int],
            ));
        }
        put(&mut active, info);
        i = i + 1;
    }
    proof {
        assert(goal.active_steps.take(i as int) =~= goal.active_steps);
    }
    let latest = record.latest_steps();
    let mut steps: Vec<StepInfo> = Vec::new();
    let mut j: usize = 0;
    proof {
        assert(steps.deep_view() =~= goal.steps.take(0));
    }
    while j < latest.len()
        invariant
            j <= latest@.len(),
            latest.deep_view() == latest_records(record@.steps),
            hooks == hook_runs.deep_view(),
            polls == last_polls.deep_view(),
            goal == status_of(record@, hooks, polls),
            steps.deep_view() == goal.steps.take(j as int),
        decreases latest@.len() - j,
    {
        proof {
            assert(latest.deep_view()[j as int] == latest@[j as int]@);
            assert(goal.steps.take(j + 1) =~= goal.steps.take(j as int).push(goal.steps[j as int]));
        }
        put(&mut steps, show_step(latest[j], hook_runs, last_polls));
        j = j + 1;
    }
    proof {
        assert(goal.steps.take(j as int) =~= goal.steps);
    }
    RunStatus {
        run_id: record.run_id.clone(),
        flow_name: record.flow_name.clone(),
        flow_version: record.flow_version.clone(),
        phase: phase_str(record.phase).to_owned(),
        active_steps: active,
        steps,
        run_hooks: show_hooks(hook_runs, None),
        created_at: Timestamp(record.created_at),
        updated_at: Timestamp(record.updated_at),
    }
}

/// What the idempotency key of a run starts with that the platform started.
pub const PLATFORM_IDEMPOTENCY_PREFIX: &'static str = "platform:";

/// A step as the platform sees it.
#[derive(Debug)]
pub struct StepRunSnapshot {
    pub step_id: String,
    pub status: String,
    pub step_type: String,
    pub with_resolved: Option<JsonValue>,
    pub started_at: Option<Timestamp>,
    pub completed_at: Option<Timestamp>,
    /// How long the step took, in nanoseconds.
    pub duration_nanos: Option<i128>,
    pub input_resolved: Option<String>,
    pub child_run_id: Option<String>,
    pub human_loop: bool,
    pub approval_status: Option<String>,
    pub approval_comment: Option<String>,
    pub feedback: Option<String>,
    pub failure_reason: Option<String>,
    pub attempt: u32,
}

/// What a [`StepRunSnapshot`] denotes.
#[verifier::ext_equal]
pub struct StepSnapshotModel {
    pub step_id: Seq<char>,
    pub status: Seq<char>,
    pub step_type: Seq<char>,
    pub with_resolved: Option<Json>,
    pub started_at: Option<Timestamp>,
    pub completed_at: Option<Timestamp>,
    pub duration_nanos: Option<i128>,
    pub input_resolved: Option<Seq<char>>,
    pub child_run_id: Option<Seq<char>>,
    pub human_loop: bool,
    pub approval_status: Option<Seq<char>>,
    pub approval_comment: Option<Seq<char>>,
    pub feedback: Option<Seq<char>>,
    pub failure_reason: Option<Seq<char>>,
    pub attempt: u32,
}

impl View for StepRunSnapshot {
    type V = StepSnapshotModel;

    open spec fn view(&self) -> StepSnapshotModel {
        StepSnapshotModel {
            step_id: self.step_id@,
            status: self.status@,
            step_type: self.step_type@,
            with_resolved: self.with_resolved.deep_view(),
            started_at: self.started_at,
            completed_at: self.completed_at,
            duration_nanos: self.duration_nanos,
            input_resolved: self.input_resolved.deep_view(),
            child_run_id: self.child_run_id.deep_view(),
            human_loop: self.human_loop,
            approval_status: self.approval_status.deep_view(),
            approval_comment: self.approval_comment.deep_view(),
            feedback: self.feedback.deep_view(),
            failure_reason: self.failure_reason.deep_view(),
            attempt: self.attempt,
        }
    }
}

impl DeepView for StepRunSnapshot {
    type V = StepSnapshotModel;

    open spec fn deep_view(&self) -> StepSnapshotModel {
        self@
    }
}

/// A run as the platform sees it.
#[derive(Debug)]
pub struct FlowRunSnapshot {
    /// The id that the platform gave the run, where it started it.
    pub run_id: String,
    pub flow: String,
    pub flow_version: String,
    pub phase: String,
    pub active_steps: Vec<String>,
    pub started_at: Timestamp,
    pub completed_at: Option<Timestamp>,
    pub steps: Vec<StepRunSnapshot>,
}

/// What a [`FlowRunSnapshot`] denotes.
#[verifier::ext_equal]
pub struct RunSnapshotModel {
    pub run_id: Seq<char>,
    pub flow: Seq<char>,
    pub flow_version: Seq<char>,
    pub phase: Seq<char>,
    pub active_steps: Seq<Seq<char>>,
    pub started_at: Timestamp,
    pub completed_at: Option<Timestamp>,
    pub steps: Seq<StepSnapshotModel>,
}

impl View for FlowRunSnapshot {
    type V = RunSnapshotModel;

    open spec fn view(&self) -> RunSnapshotModel {
        RunSnapshotModel {
            run_id: self.run_id@,
            flow: self.flow@,
            flow_version: self.flow_version@,
            phase: self.phase@,
            active_steps: self.active_steps.deep_view(),
            started_at: self.started_at,
            completed_at: self.completed_at,
            steps: self.steps.deep_view(),
        }
    }
}

/// The platform's id of a run: the idempotency key without its prefix; none
/// where the platform did not start the run.
pub open spec fn platform_id(key: Option<Seq<char>>) -> Option<Seq<char>> {
    match key {
        Some(k) => if begins(k, PLATFORM_IDEMPOTENCY_PREFIX@) {
            Some(k.skip(PLATFORM_IDEMPOTENCY_PREFIX@.len() as int))
        } else {
            None
        },
        None => None,
    }
}

/// The platform's id of a run, from its idempotency key.
pub fn platform_run_id(idempotency_key: Option<&str>) -> (r: Option<&str>)
    ensures
        r.deep_view() == platform_id(idempotency_key.deep_view()),
{
    match idempotency_key {
        Some(k) => {
            let chars = chars_of(k);
            let prefix = chars_of(PLATFORM_IDEMPOTENCY_PREFIX);
            if starts_with(chars.as_slice(), prefix.as_slice()) {
                let rest = k.substring_char(prefix.len(), chars.len());
                proof {
                    assert(rest@ =~= k@.skip(prefix@.len() as int));
                }
                Some(rest)
            } else {
                None
            }
        },
        None => None,
    }
}

/// The idempotency key of a run that the platform started.
pub fn platform_key(platform_run_id: &str) -> (r: String)
    ensures
        r@ == PLATFORM_IDEMPOTENCY_PREFIX@ + platform_run_id@,
        platform_id(Some(r@)) == Some(platform_run_id@),
{
    let r = cat2(PLATFORM_IDEMPOTENCY_PREFIX, platform_run_id);
    proof {
        platform_id_reads_back(platform_run_id@);
    }
    r
}

/// The platform's id of a run is read back from the key made of it.
pub proof fn platform_id_reads_back(id: Seq<char>)
    ensures
        platform_id(Some(PLATFORM_IDEMPOTENCY_PREFIX@ + id)) == Some(id),
{
    let prefix = PLATFORM_IDEMPOTENCY_PREFIX@;
    assert((prefix + id).take(prefix.len() as int) =~= prefix);
    assert((prefix + id).skip(prefix.len() as int) =~= id);
}

/// How long something took that started and ended; nothing where it ended
/// before it started.
pub open spec fn duration_between(
    started: Option<crate::run::types::Timestamp>,
    completed: Option<crate::run::types::Timestamp>,
) -> Option<i128> {
    match (started, completed) {
        (Some(s), Some(c)) => if c >= s && c - s <= i128::MAX {
            Some((c - s) as i128)
        } else {
            None
        },
        _ => None,
    }
}

/// A step as the platform sees it.
pub open spec fn step_snapshot_of(flow: FlowModel, step: StepRecordModel) -> StepSnapshotModel {
    let declared = find_step(flow.steps, step.run.step_id);
    StepSnapshotModel {
        step_id: step.run.step_id,
        status: status_name(step.run.status),
        step_type: match declared {
            Some(d) => type_text(d.step_type),
            None => "cli"@,
        },
        with_resolved: step.with_resolved,
        started_at: shown_time(step.run.started_at),
        completed_at: shown_time(step.run.completed_at),
        duration_nanos: duration_between(step.run.started_at, step.run.completed_at),
        input_resolved: step.run.input_resolved,
        child_run_id: step.run.child_run_id,
        human_loop: declared matches Some(d) && d.human_loop,
        approval_status: match step.run.approval_status {
            Some(a) => Some(approval_name(a)),
            None => None,
        },
        approval_comment: step.run.approval_comment,
        feedback: step.run.feedback,
        failure_reason: step.run.failure_reason,
        attempt: step.run.attempt,
    }
}

/// The latest end of a step; none where no step has ended.
pub open spec fn last_end(steps: Seq<StepRecordModel>) -> Option<crate::run::types::Timestamp>
    decreases steps.len(),
{
    if steps.len() == 0 {
        None
    } else {
        match (last_end(steps.drop_last()), steps.last().run.completed_at) {
            (Some(a), Some(b)) => Some(if b > a {
                b
            } else {
                a
            }),
            (Some(a), None) => Some(a),
            (None, b) => b,
        }
    }
}

/// A run as the platform sees it.
pub open spec fn snapshot_of(record: RunRecordModel) -> RunSnapshotModel {
    let latest = latest_records(record.steps);
    RunSnapshotModel {
        run_id: match platform_id(record.idempotency_key) {
            Some(id) => id,
            None => record.run_id,
        },
        flow: record.flow_name,
        flow_version: record.flow_version,
        phase: phase_name(record.phase),
        active_steps: active_ids(state_of(record).steps, None),
        started_at: Timestamp(record.created_at),
        completed_at: if ended(record.phase) {
            Some(
                Timestamp(
                    match last_end(record.steps) {
                        Some(t) => t,
                        None => record.updated_at,
                    },
                ),
            )
        } else {
            None
        },
        steps: Seq::new(latest.len(), |i: int| step_snapshot_of(record.definition, latest[i])),
    }
}

fn measure(
    started: Option<crate::run::types::Timestamp>,
    completed: Option<crate::run::types::Timestamp>,
) -> (r: Option<i128>)
    ensures
        r == duration_between(started, completed),
{
    match (started, completed) {
        (Some(s), Some(c)) => {
            if c >= s {
                c.checked_sub(s)
            } else {
                None
            }
        },
        _ => None,
    }
}

fn snapshot_step(flow: &FlowDefinition, step: &StepRecord) -> (r: StepRunSnapshot)
    ensures
        r@ == step_snapshot_of(flow@, step@),
{
    let declared = flow.step(step.run.step_id.as_str());
    let step_type = match declared {
        Some(d) => d.type_label(),
        None => "cli",
    };
    let human_loop = match declared {
        Some(d) => d.human_loop,
        None => false,
    };
    StepRunSnapshot {
        step_id: step.run.step_id.clone(),
        status: status_str(step.run.status).to_owned(),
        step_type: step_type.to_owned(),
        with_resolved: step.with_resolved.duplicate(),
        started_at: show_time(step.run.started_at),
        completed_at: show_time(step.run.completed_at),
        duration_nanos: measure(step.run.started_at, step.run.completed_at),
        input_resolved: step.run.input_resolved.duplicate(),
        child_run_id: step.run.child_run_id.duplicate(),
        human_loop,
        approval_status: match step.run.approval_status {
            Some(a) => Some(approval_str(a).to_owned()),
            None => None,
        },
        approval_comment: step.run.approval_comment.duplicate(),
        feedback: step.run.feedback.duplicate(),
        failure_reason: step.run.failure_reason.duplicate(),
        attempt: step.run.attempt,
    }
}

fn latest_end(record: &RunRecord) -> (r: Option<crate::run::types::Timestamp>)
    ensures
        r == last_end(record@.steps),
{
    let ghost all = record@.steps;
    let mut best: Option<crate::run::types::Timestamp> = None;
    let mut i: usize = 0;
    while i < record.steps.len()
        invariant
            i <= record.steps@.len(),
            all == record@.steps,
            all == record.steps.deep_view(),
            best == last_end(all.take(i as int)),
        decreases record.steps@.len() - i,
    {
        proof {
            assert(all.take(i + 1).drop_last() =~= all.take(i as int));
            assert(all[i as int] == record.steps@[i as int]@);
        }
        best = match (best, record.steps[i].run.completed_at) {
            (Some(a), Some(b)) => if b > a {
                Some(b)
            } else {
                Some(a)
            },
            (Some(a), None) => Some(a),
            (None, b) => b,
        };
        i = i + 1;
    }
    proof {
        assert(all.take(i as int) =~= all);
    }
    best
}

/// Shows a run as the platform sees it.
pub fn flow_run_snapshot(record: &RunRecord) -> (r: FlowRunSnapshot)
    ensures
        r@ == snapshot_of(record@),
{
    let state = record.run_state();
    let latest = record.latest_steps();
    let ghost goal = snapshot_of(record@).steps;
    let mut steps: Vec<StepRunSnapshot> = Vec::new();
    let mut j: usize = 0;
    proof {
        assert(steps.deep_view() =~= goal.take(0));
    }
    while j < latest.len()
        invariant
            j <= latest@.len(),
            latest.deep_view() == latest_records(record@.steps),
            goal == snapshot_of(record@).steps,
            steps.deep_view() == goal.take(j as int),
        decreases latest@.len() - j,
    {
        proof {
            assert(latest.deep_view()[j as int] == latest@[j as int]@);
            assert(goal.take(j + 1) =~= goal.take(j as int).push(goal[j as int]));
        }
        put(&mut steps, snapshot_step(&record.definition, latest[j]));
        j = j + 1;
    }
    proof {
        assert(goal.take(j as int) =~= goal);
    }
    let key = match &record.idempotency_key {
        Some(k) => Some(k.as_str()),
        None => None,
    };
    let run_id = match platform_run_id(key) {
        Some(id) => id.to_owned(),
        None => record.run_id.clone(),
    };
    let completed_at = if is_terminal(record.phase) {
        match latest_end(record) {
            Some(t) => Some(Timestamp(t)),
            None => Some(Timestamp(record.updated_at)),
        }
    } else {
        None
    };
    FlowRunSnapshot {
        run_id,
        flow: record.flow_name.clone(),
        flow_version: record.flow_version.clone(),
        phase: phase_str(record.phase).to_owned(),
        active_steps: active_steps(&state),
        started_at: Timestamp(record.created_at),
        completed_at,
        steps,
    }
}

/// How the output of an attempt is shown.
pub open spec fn step_output_of(run_id: Seq<char>, step: StepRecordModel) -> StepOutputModel {
    StepOutputModel {
        run_id,
        step_id: step.run.step_id,
        attempt: step.run.attempt,
        status: status_name(step.run.status),
        output: step.run.output,
        failure_reason: step.run.failure_reason,
        failure: step.failure_detail,
        feedback: step.run.feedback,
    }
}

/// The output of the attempt that was asked for, or of the latest one.
pub open spec fn output_of(record: RunRecordModel, step_id: Seq<char>, attempt: Option<u32>) -> Result<
    StepOutputModel,
    QueryErrorModel,
> {
    match attempt {
        Some(n) => match find_attempt(record.steps, step_id, n) {
            Some(step) => Ok(step_output_of(record.run_id, step)),
            None => Err(QueryErrorModel::AttemptNotFound(n, step_id)),
        },
        None => match latest_of(record.steps, step_id) {
            Some(step) => Ok(step_output_of(record.run_id, step)),
            None => Err(QueryErrorModel::StepNotFound(step_id)),
        },
    }
}

fn show_output(run_id: &str, step: &StepRecord) -> (r: StepOutputResponse)
    ensures
        r@ == step_output_of(run_id@, step@),
{
    StepOutputResponse {
        run_id: run_id.to_owned(),
        step_id: step.run.step_id.clone(),
        attempt: step.run.attempt,
        status: status_str(step.run.status).to_owned(),
        output: step.run.output.duplicate(),
        failure_reason: step.run.failure_reason.duplicate(),
        failure: step.failure_detail.duplicate(),
        feedback: step.run.feedback.duplicate(),
    }
}

/// Shows the whole output of an attempt at a step, of the latest one where
/// none is named.
pub fn get_step_output(record: &RunRecord, step_id: &str, attempt: Option<u32>) -> (r: Result<
    StepOutputResponse,
    QueryError,
>)
    ensures
        (match r {
            Ok(shown) => Ok(shown@),
            Err(e) => Err(e@),
        }) == output_of(record@, step_id@, attempt),
{
    match attempt {
        Some(n) => match crate::store::find_step(record, step_id, n) {
            Ok(i) => {
                proof {
                    assert(record@.steps[i as int] == record.steps@[i as int]@);
                }
                Ok(show_output(record.run_id.as_str(), &record.steps[i]))
            },
            Err(_) => Err(QueryError::AttemptNotFound(n, step_id.to_owned())),
        },
        None => match record.latest_of_step(step_id) {
            Some(step) => Ok(show_output(record.run_id.as_str(), step)),
            None => Err(QueryError::StepNotFound(step_id.to_owned())),
        },
    }
}

/// Those of `steps` that wait for approval.
pub open spec fn waiting_of(run_id: Seq<char>, steps: Seq<StepRecordModel>) -> Seq<PendingModel>
    decreases steps.len(),
{
    if steps.len() == 0 {
        Seq::empty()
    } else if steps.last().run.status == StepStatus::WaitingApproval {
        waiting_of(run_id, steps.drop_last()).push(
            PendingModel {
                run_id,
                step_id: steps.last().run.step_id,
                output: steps.last().run.output,
            },
        )
    } else {
        waiting_of(run_id, steps.drop_last())
    }
}

/// The steps of several runs that wait for approval.
pub open spec fn pending_of(records: Seq<RunRecordModel>) -> Seq<PendingModel>
    decreases records.len(),
{
    if records.len() == 0 {
        Seq::empty()
    } else {
        pending_of(records.drop_last()) + waiting_of(
            records.last().run_id,
            latest_records(records.last().steps),
        )
    }
}

fn list_waiting(record: &RunRecord) -> (r: Vec<PendingApproval>)
    ensures
        r.deep_view() == waiting_of(record.run_id@, latest_records(record@.steps)),
{
    let steps = record.latest_steps();
    let ghost all = steps.deep_view();
    let mut out: Vec<PendingApproval> = Vec::new();
    let mut i: usize = 0;
    proof {
        assert(out.deep_view() =~= waiting_of(record.run_id@, all.take(0)));
    }
    while i < steps.len()
        invariant
            i <= steps@.len(),
            all == steps.deep_view(),
            out.deep_view() == waiting_of(record.run_id@, all.take(i as int)),
        decreases steps@.len() - i,
    {
        proof {
            assert(all.take(i + 1).drop_last() =~= all.take(i as int));
            assert(all[i as int] == steps@[i as int]@);
        }
        if steps[i].run.status == StepStatus::WaitingApproval {
            put(
                &mut out,
                PendingApproval {
                    run_id: record.run_id.clone(),
                    step_id: steps[i].run.step_id.clone(),
                    output: steps[i].run.output.duplicate(),
                },
            );
        }
        i = i + 1;
    }
    proof {
        assert(all.take(i as int) =~= all);
    }
    out
}

/// Lists the steps that wait for approval, run by run.
pub fn pending_approvals(records: &Vec<RunRecord>) -> (r: Vec<PendingApproval>)
    ensures
        r.deep_view() == pending_of(records.deep_view()),
{
    let ghost all = records.deep_view();
    let mut out: Vec<PendingApproval> = Vec::new();
    let mut i: usize = 0;
    proof {
        assert(out.deep_view() =~= pending_of(all.take(0)));
    }
    while i < records.len()
        invariant
            i <= records@.len(),
            all == records.deep_view(),
            out.deep_view() == pending_of(all.take(i as int)),
        decreases records@.len() - i,
    {
        proof {
            assert(all.take(i + 1).drop_last() =~= all.take(i as int));
            assert(all[i as int] == records@[i as int]@);
        }
        extend(&mut out, list_waiting(&records[i]));
        i = i + 1;
    }
    proof {
        assert(all.take(i as int) =~= all);
    }
    out
}

/// A run in a list of runs.
#[derive(Debug)]
pub struct RunSummaryView {
    pub run_id: String,
    pub flow_name: String,
    pub flow_version: String,
    pub phase: String,
    pub created_at: Timestamp,
    pub updated_at: Timestamp,
}

/// What a [`RunSummaryView`] denotes.
#[verifier::ext_equal]
pub struct SummaryViewModel {
    pub run_id: Seq<char>,
    pub flow_name: Seq<char>,
    pub flow_version: Seq<char>,
    pub phase: Seq<char>,
    pub created_at: Timestamp,
    pub updated_at: Timestamp,
}

impl View for RunSummaryView {
    type V = SummaryViewModel;

    open spec fn view(&self) -> SummaryViewModel {
        SummaryViewModel {
            run_id: self.run_id@,
            flow_name: self.flow_name@,
            flow_version: self.flow_version@,
            phase: self.phase@,
            created_at: self.created_at,
            updated_at: self.updated_at,
        }
    }
}

impl DeepView for RunSummaryView {
    type V = SummaryViewModel;

    open spec fn deep_view(&self) -> SummaryViewModel {
        self@
    }
}

/// How a run is shown in a list.
pub open spec fn summary_view(s: RunSummaryModel) -> SummaryViewModel {
    SummaryViewModel {
        run_id: s.run_id,
        flow_name: s.flow_name,
        flow_version: s.flow_version,
        phase: phase_name(s.phase),
        created_at: s.created_at,
        updated_at: s.updated_at,
    }
}

impl vstd::std_specs::convert::FromSpecImpl<RunSummary> for RunSummaryView {
    open spec fn obeys_from_spec() -> bool {
        false
    }

    open spec fn from_spec(s: RunSummary) -> Self {
        arbitrary()
    }
}

impl From<RunSummary> for RunSummaryView {
    fn from(s: RunSummary) -> (r: Self)
        ensures
            r@ == summary_view(s@),
    {
        RunSummaryView {
            run_id: s.run_id,
            flow_name: s.flow_name,
            flow_version: s.flow_version,
            phase: phase_str(s.phase).to_owned(),
            created_at: s.created_at,
            updated_at: s.updated_at,
        }
    }
}

/// Turns a request to list runs into a filter. A phase that has no such name
/// is refused.
pub fn list_runs(req: ListRunsRequest) -> (r: Result<RunFilter, QueryError>)
    ensures
        match req.phase.deep_view() {
            Some(raw) => match (r, phase_named(raw)) {
                (Ok(f), Some(p)) => f.phase == Some(p) && f.flow_name == req.flow_name && f.limit
                    == req.limit,
                (Err(e), None) => e@ == QueryErrorModel::InvalidPhase(raw),
                _ => false,
            },
            None => r matches Ok(f) && f.phase is None && f.flow_name == req.flow_name && f.limit
                == req.limit,
        },
{
    let phase = match &req.phase {
        Some(raw) => match parse_phase(raw.as_str()) {
            Ok(p) => Some(p),
            Err(e) => {
                return Err(e);
            },
        },
        None => None,
    };
    Ok(RunFilter { flow_name: req.flow_name, phase, limit: req.limit })
}

/// A run and the runs that it started.
#[derive(Debug)]
pub struct RunTreeNode {
    pub run_id: RunId,
    pub flow_name: String,
    pub flow_version: String,
    pub phase: String,
    pub children: Vec<RunTreeNode>,
}

/// What a [`RunTreeNode`] denotes.
#[verifier::ext_equal]
pub struct TreeModel {
    pub run_id: Seq<char>,
    pub flow_name: Seq<char>,
    pub flow_version: Seq<char>,
    pub phase: Seq<char>,
    pub children: Seq<TreeModel>,
}

/// What a node denotes.
pub open spec fn node_view(node: RunTreeNode) -> TreeModel
    decreases node,
{
    TreeModel {
        run_id: node.run_id@,
        flow_name: node.flow_name@,
        flow_version: node.flow_version@,
        phase: node.phase@,
        children: Seq::new(
            node.children@.len(),
            |i: int|
                if 0 <= i < node.children@.len() {
                    node_view(node.children@[i])
                } else {
                    arbitrary()
                },
        ),
    }
}

/// How a tree of runs is shown.
pub open spec fn tree_view(tree: RunTree) -> TreeModel
    decreases tree,
{
    TreeModel {
        run_id: tree.root.run_id@,
        flow_name: tree.root.flow_name@,
        flow_version: tree.root.flow_version@,
        phase: phase_name(tree.root.phase),
        children: Seq::new(
            tree.children@.len(),
            |i: int|
                if 0 <= i < tree.children@.len() {
                    tree_view(tree.children@[i])
                } else {
                    arbitrary()
                },
        ),
    }
}

/// Shows a tree of runs.
pub fn project_tree(tree: &RunTree) -> (r: RunTreeNode)
    ensures
        node_view(r) == tree_view(*tree),
    decreases tree,
{
    let mut children: Vec<RunTreeNode> = Vec::new();
    let mut i: usize = 0;
    while i < tree.children.len()
        invariant
            i == children@.len(),
            i <= tree.children@.len(),
            forall|j: int|
                0 <= j < i ==> node_view(#[trigger] children@[j]) == tree_view(tree.children@[j]),
        decreases tree.children@.len() - i,
    {
        proof {
            assert(decreases_to!(*tree => tree.children));
            assert(decreases_to!(tree.children => tree.children@[i as int]));
        }
        let child = project_tree(&tree.children[i]);
        children.push(child);
        i = i + 1;
    }
    let r = RunTreeNode {
        run_id: tree.root.run_id.clone(),
        flow_name: tree.root.flow_name.clone(),
        flow_version: tree.root.flow_version.clone(),
        phase: phase_str(tree.root.phase).to_owned(),
        children,
    };
    proof {
        assert(node_view(r).children =~= tree_view(*tree).children);
    }
    r
}

/// How the inputs of a flow are shown.
pub open spec fn inputs_shown(inputs: Seq<(Seq<char>, FlowInputModel)>) -> Seq<
    FlowInputSummaryModel,
> {
    Seq::new(
        inputs.len(),
        |i: int|
            FlowInputSummaryModel {
                name: inputs[i].0,
                ty: inputs[i].1.ty,
                required: inputs[i].1.required,
                default: inputs[i].1.default,
                description: inputs[i].1.description,
            },
    )
}

/// How a flow is shown.
pub open spec fn flow_summary_of(flow: FlowModel) -> FlowSummaryModel {
    FlowSummaryModel {
        name: flow.name,
        version: flow.version,
        description: flow.description,
        inputs: inputs_shown(flow.inputs),
    }
}

/// How several flows are shown.
pub open spec fn flows_shown(flows: Seq<FlowModel>) -> Seq<FlowSummaryModel> {
    Seq::new(flows.len(), |i: int| flow_summary_of(flows[i]))
}

fn summarize_flow(flow: &FlowDefinition) -> (r: FlowSummary)
    ensures
        r@ == flow_summary_of(flow@),
{
    let list = list_inputs(&flow.inputs);
    let ghost all = inputs_shown(flow@.inputs);
    let mut inputs: Vec<FlowInputSummary> = Vec::new();
    let mut i: usize = 0;
    proof {
        assert(inputs.deep_view() =~= all.take(0));
    }
    while i < list.len()
        invariant
            i <= list@.len(),
            list.deep_view() == flow@.inputs,
            all == inputs_shown(flow@.inputs),
            inputs.deep_view() == all.take(i as int),
        decreases list@.len() - i,
    {
        let spec_of = list[i].1;
        proof {
            assert(list.deep_view()[i as int] == (list@[i as int].0@, spec_of@));
            assert(all.take(i + 1) =~= all.take(i as int).push(all[i as int]));
        }
        put(
            &mut inputs,
            FlowInputSummary {
                name: list[i].0.clone(),
                ty: spec_of.ty.clone(),
                required: spec_of.required,
                default: spec_of.default.duplicate(),
                description: spec_of.description.duplicate(),
            },
        );
        i = i + 1;
    }
    proof {
        assert(all.take(i as int) =~= all);
    }
    FlowSummary {
        name: flow.name.clone(),
        version: flow.version.clone(),
        description: flow.description.duplicate(),
        inputs,
    }
}

/// Lists one flow of every name, the one with the highest version, with its
/// inputs.
pub fn list_flows(flows: &Vec<FlowDefinition>) -> (r: Vec<FlowSummary>)
    ensures
        r.deep_view() == flows_shown(latest_flows(flows.deep_view())),
{
    let latest = list_flows_latest(flows);
    let ghost all = flows_shown(latest.deep_view());
    let mut out: Vec<FlowSummary> = Vec::new();
    let mut i: usize = 0;
    proof {
        assert(out.deep_view() =~= all.take(0));
    }
    while i < latest.len()
        invariant
            i <= latest@.len(),
            all == flows_shown(latest.deep_view()),
            out.deep_view() == all.take(i as int),
        decreases latest@.len() - i,
    {
        proof {
            assert(all.take(i + 1) =~= all.take(i as int).push(flow_summary_of(latest@[i as int]@)));
        }
        put(&mut out, summarize_flow(&latest[i]));
        i = i + 1;
    }
    proof {
        assert(all.take(i as int) =~= all);
    }
    out
}

/// Which run to show with the runs that it has started.
#[derive(Debug)]
pub struct GetRunTreeRequest {
    pub run_id: RunId,
}

/// The flows there are.
#[derive(Debug)]
pub struct FlowsResponse {
    pub flows: Vec<FlowSummary>,
}

/// The steps that wait for approval.
#[derive(Debug)]
pub struct PendingApprovalsResponse {
    pub pending: Vec<PendingApproval>,
}

/// The runs there are.
#[derive(Debug)]
pub struct RunsResponse {
    pub runs: Vec<RunSummaryView>,
}

/// A run with the runs that it has started, as far as the store could load
/// them.
pub fn get_run_tree(loaded: Result<RunTree, StoreError>) -> (r: Result<RunTreeNode, QueryError>)
    ensures
        match loaded {
            Ok(tree) => r matches Ok(node) && node_view(node) == tree_view(tree),
            Err(e) => r matches Err(f) && f@ == QueryErrorModel::Store(e@),
        },
{
    match loaded {
        Ok(tree) => Ok(project_tree(&tree)),
        Err(e) => Err(QueryError::Store(e)),
    }
}

} // verus!
