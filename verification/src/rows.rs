//! Runs as rows of tables: what is written for each change, and how rows are
//! read back.
use crate::copy::{put, Duplicate};
use crate::flow::types::{FlowDefinition, FlowModel};
use crate::json::{
    are_plain_entries, entries_depth, entries_have_no_reserved_key, entries_in_key_order,
    has_no_reserved_key, in_key_order, is_plain, is_readable, is_reserved_key, json_depth,
    json_member, json_text, lemma_array_view, lemma_object_view, parse_json, parsed_json,
    reads_back, set_member_is_read, with_entry, Json, JsonValue,
};
use crate::names::{
    approval_name, approval_name_reads_back, approval_named, approval_str, event_type_name,
    event_type_name_reads_back, event_type_named, event_type_str, hook_phase_name,
    hook_phase_name_reads_back, hook_phase_named, hook_phase_str, hook_status_name,
    hook_status_name_reads_back, hook_status_named, hook_status_str, phase_name,
    phase_name_reads_back, phase_named, phase_str, read_approval, read_event_type,
    read_hook_phase, read_hook_status, read_phase, read_status, status_name,
    status_name_reads_back, status_named, status_str,
};
use crate::ports::{
    HookPhase, HookRunModel, HookRunRecord, HookStatus, Mutation, MutationModel, NewRun,
    NewRunModel, RunEventModel, RunEventRecord, RunEventType, RunFilter, RunRecord,
    RunRecordModel, RunSummary, RunSummaryModel, StepRecord, StepRecordModel, StoreError,
    StoreErrorModel, StoredEventModel, StoredRunEvent,
};
use crate::run::types::{ApprovalStatus, RunPhase, StepRun, StepRunModel, StepStatus, Timestamp};
use crate::text::{
    cat2, cat3, cat5, chars_of, decimal, decimal_text, join, joined, lemma_decimal, parse_unsigned,
    signed_decimal, signed_text, unsigned_value,
};
use crate::wire::{self, JobFailure, JobFailureModel};
use vstd::prelude::*;
use vstd::slice::slice_subrange;

verus! {

/// The seconds since 1970 of a time: 0 for one before, and the largest number
/// there is for one too late.
pub open spec fn epoch_of(t: Timestamp) -> i64 {
    if t < 0 {
        0
    } else if t / 1_000_000_000 > i64::MAX {
        i64::MAX
    } else {
        (t / 1_000_000_000) as i64
    }
}

/// The time that seconds since 1970 stand for; none lies before 1970.
pub open spec fn time_of(secs: i64) -> Timestamp {
    if secs < 0 {
        0
    } else {
        (secs * 1_000_000_000) as i128
    }
}

/// The seconds since 1970 of a time.
pub fn to_epoch(t: Timestamp) -> (r: i64)
    ensures
        r == epoch_of(t),
{
    if t < 0 {
        return 0;
    }
    let secs: i128 = t / 1_000_000_000;
    if secs > i64::MAX as i128 {
        i64::MAX
    } else {
        secs as i64
    }
}

/// The time that seconds since 1970 stand for.
pub fn from_epoch(secs: i64) -> (r: Timestamp)
    ensures
        r == time_of(secs),
{
    if secs < 0 {
        0
    } else {
        secs as i128 * 1_000_000_000
    }
}

/// A time is read back to the second, as long as it lies between 1970 and the
/// last second that can be counted.
pub proof fn time_is_kept_to_the_second(t: Timestamp)
    requires
        0 <= t,
        t / 1_000_000_000 <= i64::MAX,
    ensures
        time_of(epoch_of(t)) == t - t % 1_000_000_000,
{
}

fn to_epochs(t: Option<Timestamp>) -> (r: Option<i64>)
    ensures
        r == epochs_of(t),
{
    match t {
        Some(t) => Some(to_epoch(t)),
        None => None,
    }
}

fn from_epochs(secs: Option<i64>) -> (r: Option<Timestamp>)
    ensures
        r == times_of(secs),
{
    match secs {
        Some(n) => Some(from_epoch(n)),
        None => None,
    }
}

/// The seconds of a time that may be missing.
pub open spec fn epochs_of(t: Option<Timestamp>) -> Option<i64> {
    match t {
        Some(t) => Some(epoch_of(t)),
        None => None,
    }
}

/// The time of seconds that may be missing.
pub open spec fn times_of(secs: Option<i64>) -> Option<Timestamp> {
    match secs {
        Some(n) => Some(time_of(n)),
        None => None,
    }
}

/// An attempt at a step, as its row in `step_runs`.
#[derive(Debug)]
pub struct StepRow {
    pub step_id: String,
    pub status: String,
    pub attempt: i64,
    pub job_id: Option<String>,
    pub with_resolved: Option<String>,
    pub input_resolved: Option<String>,
    pub output: Option<String>,
    pub failure_reason: Option<String>,
    pub failure_detail: Option<String>,
    pub approval_status: Option<String>,
    pub approval_comment: Option<String>,
    pub feedback: Option<String>,
    pub child_run_id: Option<String>,
    pub started_at: Option<i64>,
    pub completed_at: Option<i64>,
}

/// What a [`StepRow`] denotes.
#[verifier::ext_equal]
pub struct StepRowModel {
    pub step_id: Seq<char>,
    pub status: Seq<char>,
    pub attempt: i64,
    pub job_id: Option<Seq<char>>,
    pub with_resolved: Option<Seq<char>>,
    pub input_resolved: Option<Seq<char>>,
    pub output: Option<Seq<char>>,
    pub failure_reason: Option<Seq<char>>,
    pub failure_detail: Option<Seq<char>>,
    pub approval_status: Option<Seq<char>>,
    pub approval_comment: Option<Seq<char>>,
    pub feedback: Option<Seq<char>>,
    pub child_run_id: Option<Seq<char>>,
    pub started_at: Option<i64>,
    pub completed_at: Option<i64>,
}

impl View for StepRow {
    type V = StepRowModel;

    open spec fn view(&self) -> StepRowModel {
        StepRowModel {
            step_id: self.step_id@,
            status: self.status@,
            attempt: self.attempt,
            job_id: self.job_id.deep_view(),
            with_resolved: self.with_resolved.deep_view(),
            input_resolved: self.input_resolved.deep_view(),
            output: self.output.deep_view(),
            failure_reason: self.failure_reason.deep_view(),
            failure_detail: self.failure_detail.deep_view(),
            approval_status: self.approval_status.deep_view(),
            approval_comment: self.approval_comment.deep_view(),
            feedback: self.feedback.deep_view(),
            child_run_id: self.child_run_id.deep_view(),
            started_at: self.started_at,
            completed_at: self.completed_at,
        }
    }
}

impl DeepView for StepRow {
    type V = StepRowModel;

    open spec fn deep_view(&self) -> StepRowModel {
        self@
    }
}

/// A hook that ran, as its row in `hook_runs`.
#[derive(Debug)]
pub struct HookRow {
    pub hook: String,
    pub phase: String,
    pub step_id: Option<String>,
    pub status: String,
    pub job_id: Option<String>,
    pub args_resolved: Option<String>,
    pub output_ref: Option<String>,
    pub failure_reason: Option<String>,
    pub failure_detail: Option<String>,
    pub started_at: i64,
    pub completed_at: Option<i64>,
}

/// What a [`HookRow`] denotes.
#[verifier::ext_equal]
pub struct HookRowModel {
    pub hook: Seq<char>,
    pub phase: Seq<char>,
    pub step_id: Option<Seq<char>>,
    pub status: Seq<char>,
    pub job_id: Option<Seq<char>>,
    pub args_resolved: Option<Seq<char>>,
    pub output_ref: Option<Seq<char>>,
    pub failure_reason: Option<Seq<char>>,
    pub failure_detail: Option<Seq<char>>,
    pub started_at: i64,
    pub completed_at: Option<i64>,
}

impl View for HookRow {
    type V = HookRowModel;

    open spec fn view(&self) -> HookRowModel {
        HookRowModel {
            hook: self.hook@,
            phase: self.phase@,
            step_id: self.step_id.deep_view(),
            status: self.status@,
            job_id: self.job_id.deep_view(),
            args_resolved: self.args_resolved.deep_view(),
            output_ref: self.output_ref.deep_view(),
            failure_reason: self.failure_reason.deep_view(),
            failure_detail: self.failure_detail.deep_view(),
            started_at: self.started_at,
            completed_at: self.completed_at,
        }
    }
}

impl DeepView for HookRow {
    type V = HookRowModel;

    open spec fn deep_view(&self) -> HookRowModel {
        self@
    }
}

/// An event, as its row in `run_events` but for its number.
#[derive(Debug)]
pub struct EventRow {
    pub event_type: String,
    pub step_id: Option<String>,
    pub timestamp: i64,
    pub payload: String,
}

/// What an [`EventRow`] denotes.
#[verifier::ext_equal]
pub struct EventRowModel {
    pub event_type: Seq<char>,
    pub step_id: Option<Seq<char>>,
    pub timestamp: i64,
    pub payload: Seq<char>,
}

impl View for EventRow {
    type V = EventRowModel;

    open spec fn view(&self) -> EventRowModel {
        EventRowModel {
            event_type: self.event_type@,
            step_id: self.step_id.deep_view(),
            timestamp: self.timestamp,
            payload: self.payload@,
        }
    }
}

impl DeepView for EventRow {
    type V = EventRowModel;

    open spec fn deep_view(&self) -> EventRowModel {
        self@
    }
}

/// A run, as its row in `runs`. The column with its flow has been read.
#[derive(Debug)]
pub struct RunRow {
    pub flow_name: String,
    pub flow_version: String,
    pub definition: FlowDefinition,
    pub inputs: String,
    pub trigger: String,
    pub phase: String,
    pub cancelled: i32,
    pub created_at: i64,
    pub updated_at: i64,
    pub idempotency_key: Option<String>,
}

/// What a [`RunRow`] denotes.
#[verifier::ext_equal]
pub struct RunRowModel {
    pub flow_name: Seq<char>,
    pub flow_version: Seq<char>,
    pub definition: FlowModel,
    pub inputs: Seq<char>,
    pub trigger: Seq<char>,
    pub phase: Seq<char>,
    pub cancelled: i32,
    pub created_at: i64,
    pub updated_at: i64,
    pub idempotency_key: Option<Seq<char>>,
}

impl View for RunRow {
    type V = RunRowModel;

    open spec fn view(&self) -> RunRowModel {
        RunRowModel {
            flow_name: self.flow_name@,
            flow_version: self.flow_version@,
            definition: self.definition@,
            inputs: self.inputs@,
            trigger: self.trigger@,
            phase: self.phase@,
            cancelled: self.cancelled,
            created_at: self.created_at,
            updated_at: self.updated_at,
            idempotency_key: self.idempotency_key.deep_view(),
        }
    }
}

/// What is written into one column.
#[derive(Debug)]
pub enum Cell {
    Null,
    Int(i64),
    Text(String),
}

/// What a [`Cell`] denotes.
#[verifier::ext_equal]
pub enum CellModel {
    Null,
    Int(i64),
    Text(Seq<char>),
}

impl View for Cell {
    type V = CellModel;

    open spec fn view(&self) -> CellModel {
        match self {
            Cell::Null => CellModel::Null,
            Cell::Int(n) => CellModel::Int(*n),
            Cell::Text(t) => CellModel::Text(t@),
        }
    }
}

/// A column and what is written into it.
#[derive(Debug)]
pub struct ColumnUpdate {
    pub column: &'static str,
    pub cell: Cell,
}

impl DeepView for ColumnUpdate {
    type V = (Seq<char>, CellModel);

    open spec fn deep_view(&self) -> (Seq<char>, CellModel) {
        (self.column@, self.cell@)
    }
}

/// What one change of a run does to its rows.
#[derive(Debug)]
pub enum RowChange {
    /// Insert or replace the row of an attempt at a step.
    PutStep(StepRow),
    /// Update columns of the row of an attempt at a step, which has to be
    /// there.
    UpdateStep { step_id: String, attempt: u32, updates: Vec<ColumnUpdate> },
    /// Update columns of the run's own row.
    UpdateRun(Vec<ColumnUpdate>),
    /// Insert the row of a hook.
    AddHook(HookRow),
    /// Insert the row of an event under the next number.
    AddEvent(EventRow),
}

/// What a [`RowChange`] denotes.
#[verifier::ext_equal]
pub enum RowChangeModel {
    PutStep(StepRowModel),
    UpdateStep { step_id: Seq<char>, attempt: u32, updates: Seq<(Seq<char>, CellModel)> },
    UpdateRun(Seq<(Seq<char>, CellModel)>),
    AddHook(HookRowModel),
    AddEvent(EventRowModel),
}

impl View for RowChange {
    type V = RowChangeModel;

    open spec fn view(&self) -> RowChangeModel {
        match self {
            RowChange::PutStep(row) => RowChangeModel::PutStep(row@),
            RowChange::UpdateStep { step_id, attempt, updates } => RowChangeModel::UpdateStep {
                step_id: step_id@,
                attempt: *attempt,
                updates: updates.deep_view(),
            },
            RowChange::UpdateRun(updates) => RowChangeModel::UpdateRun(updates.deep_view()),
            RowChange::AddHook(row) => RowChangeModel::AddHook(row@),
            RowChange::AddEvent(row) => RowChangeModel::AddEvent(row@),
        }
    }
}

/// A text that may be missing, in a column.
pub open spec fn text_cell(text: Option<Seq<char>>) -> CellModel {
    match text {
        Some(t) => CellModel::Text(t),
        None => CellModel::Null,
    }
}

/// A time that may be missing, in a column.
pub open spec fn time_cell(t: Option<Timestamp>) -> CellModel {
    match t {
        Some(t) => CellModel::Int(epoch_of(t)),
        None => CellModel::Null,
    }
}

/// A value that may be missing, as a text.
pub open spec fn value_text(v: Option<Json>) -> Option<Seq<char>> {
    match v {
        Some(v) => Some(json_text(v)),
        None => None,
    }
}

/// A text that may be missing, as a value.
pub open spec fn text_or_null(text: Option<Seq<char>>) -> Json {
    match text {
        Some(t) => Json::Text(t),
        None => Json::Null,
    }
}

/// A failure as a value.
pub open spec fn failure_json(f: JobFailureModel) -> Json {
    Json::Object(
        seq![
            ("kind"@, Json::Text(f.kind)),
            (
                "exit_code"@,
                match f.exit_code {
                    Some(n) => Json::Number(signed_decimal(n as int)),
                    None => Json::Null,
                },
            ),
            ("stdout"@, text_or_null(f.stdout)),
            ("stderr"@, text_or_null(f.stderr)),
        ],
    )
}

/// A failure that may be missing, as a text.
pub open spec fn failure_text(f: Option<JobFailureModel>) -> Option<Seq<char>> {
    match f {
        Some(f) => Some(json_text(failure_json(f))),
        None => None,
    }
}

/// The name of an approval that may be missing.
pub open spec fn approval_text(a: Option<ApprovalStatus>) -> Option<Seq<char>> {
    match a {
        Some(a) => Some(approval_name(a)),
        None => None,
    }
}

/// The row of an attempt at a step.
pub open spec fn step_row_of(s: StepRecordModel) -> StepRowModel {
    StepRowModel {
        step_id: s.run.step_id,
        status: status_name(s.run.status),
        attempt: s.run.attempt as i64,
        job_id: s.job_id,
        with_resolved: value_text(s.with_resolved),
        input_resolved: s.run.input_resolved,
        output: value_text(s.run.output),
        failure_reason: s.run.failure_reason,
        failure_detail: failure_text(s.failure_detail),
        approval_status: approval_text(s.run.approval_status),
        approval_comment: s.run.approval_comment,
        feedback: s.run.feedback,
        child_run_id: s.run.child_run_id,
        started_at: epochs_of(s.run.started_at),
        completed_at: epochs_of(s.run.completed_at),
    }
}

/// The rows of several attempts.
pub open spec fn step_rows_of(steps: Seq<StepRecordModel>) -> Seq<StepRowModel> {
    Seq::new(steps.len(), |i: int| step_row_of(steps[i]))
}

/// The row of a run.
pub open spec fn run_row_of(r: RunRecordModel) -> RunRowModel {
    RunRowModel {
        flow_name: r.flow_name,
        flow_version: r.flow_version,
        definition: r.definition,
        inputs: json_text(r.inputs),
        trigger: json_text(r.trigger),
        phase: phase_name(r.phase),
        cancelled: if r.cancelled {
            1i32
        } else {
            0i32
        },
        created_at: epoch_of(r.created_at),
        updated_at: epoch_of(r.updated_at),
        idempotency_key: r.idempotency_key,
    }
}

/// The row of a hook.
pub open spec fn hook_row_of(h: HookRunModel) -> HookRowModel {
    HookRowModel {
        hook: h.hook,
        phase: hook_phase_name(h.phase),
        step_id: h.step_id,
        status: hook_status_name(h.status),
        job_id: h.job_id,
        args_resolved: value_text(h.args_resolved),
        output_ref: h.output_ref,
        failure_reason: h.failure_reason,
        failure_detail: failure_text(h.failure_detail),
        started_at: epoch_of(h.started_at),
        completed_at: epochs_of(h.completed_at),
    }
}

/// The row of an event, but for its number.
pub open spec fn event_row_of(e: RunEventModel) -> EventRowModel {
    EventRowModel {
        event_type: event_type_name(e.event_type),
        step_id: e.step_id,
        timestamp: epoch_of(e.timestamp),
        payload: json_text(e.payload),
    }
}

/// Columns of one attempt that are written.
pub open spec fn step_update(
    step_id: Seq<char>,
    attempt: u32,
    updates: Seq<(Seq<char>, CellModel)>,
) -> RowChangeModel {
    RowChangeModel::UpdateStep { step_id, attempt, updates }
}

/// What one change of a run does to its rows.
pub open spec fn row_change_of(m: MutationModel) -> RowChangeModel {
    match m {
        MutationModel::InsertStepRun(s) => RowChangeModel::PutStep(step_row_of(s)),
        MutationModel::SetStepStatus { step_id, attempt, status } => step_update(
            step_id,
            attempt,
            seq![("status"@, CellModel::Text(status_name(status)))],
        ),
        MutationModel::SetStepOutput { step_id, attempt, output } => step_update(
            step_id,
            attempt,
            seq![("output"@, CellModel::Text(json_text(output)))],
        ),
        MutationModel::SetJobId { step_id, attempt, job_id } => step_update(
            step_id,
            attempt,
            seq![("job_id"@, text_cell(job_id))],
        ),
        MutationModel::SetApproval { step_id, attempt, approval_status, comment, feedback } => step_update(
            step_id,
            attempt,
            seq![
                ("approval_status"@, CellModel::Text(approval_name(approval_status))),
                ("approval_comment"@, text_cell(comment)),
                ("feedback"@, text_cell(feedback)),
            ],
        ),
        MutationModel::SetStepFailure { step_id, attempt, reason } => step_update(
            step_id,
            attempt,
            seq![("failure_reason"@, CellModel::Text(reason))],
        ),
        MutationModel::SetStepFailureDetail { step_id, attempt, detail } => step_update(
            step_id,
            attempt,
            seq![("failure_detail"@, CellModel::Text(json_text(failure_json(detail))))],
        ),
        MutationModel::SetStepTimestamps { step_id, attempt, started_at, completed_at } => step_update(
            step_id,
            attempt,
            seq![
                ("started_at"@, time_cell(started_at)),
                ("completed_at"@, time_cell(completed_at)),
            ],
        ),
        MutationModel::SetChildRunId { step_id, attempt, child_run_id } => step_update(
            step_id,
            attempt,
            seq![("child_run_id"@, text_cell(child_run_id))],
        ),
        MutationModel::SetRunPhase(phase) => RowChangeModel::UpdateRun(
            seq![("phase"@, CellModel::Text(phase_name(phase)))],
        ),
        MutationModel::SetRunCancelled => RowChangeModel::UpdateRun(
            seq![("cancelled"@, CellModel::Int(1i64))],
        ),
        MutationModel::RecordHookRun(h) => RowChangeModel::AddHook(hook_row_of(h)),
        MutationModel::AppendEvent(e) => RowChangeModel::AddEvent(event_row_of(e)),
    }
}

fn show_value(v: &Option<JsonValue>) -> (r: Option<String>)
    ensures
        r.deep_view() == value_text(v.deep_view()),
{
    match v {
        Some(v) => Some(v.to_text()),
        None => None,
    }
}

fn text_value(text: &Option<String>) -> (r: JsonValue)
    ensures
        r@ == text_or_null(text.deep_view()),
{
    match text {
        Some(t) => JsonValue::Text(t.clone()),
        None => JsonValue::Null,
    }
}

fn show_failure(f: &JobFailure) -> (r: String)
    ensures
        r@ == json_text(failure_json(f@)),
{
    let mut entries: Vec<(String, JsonValue)> = Vec::new();
    entries.push(("kind".to_owned(), JsonValue::Text(f.kind.clone())));
    entries.push(
        (
            "exit_code".to_owned(),
            match f.exit_code {
                Some(n) => JsonValue::Number(signed_text(n as i64)),
                None => JsonValue::Null,
            },
        ),
    );
    entries.push(("stdout".to_owned(), text_value(&f.stdout)));
    entries.push(("stderr".to_owned(), text_value(&f.stderr)));
    proof {
        lemma_object_view(entries);
        assert(entries.deep_view() =~= failure_json(f@)->Object_0);
    }
    JsonValue::Object(entries).to_text()
}

fn show_failures(f: &Option<JobFailure>) -> (r: Option<String>)
    ensures
        r.deep_view() == failure_text(f.deep_view()),
{
    match f {
        Some(f) => Some(show_failure(f)),
        None => None,
    }
}

fn step_row(s: &StepRecord) -> (r: StepRow)
    ensures
        r@ == step_row_of(s@),
{
    StepRow {
        step_id: s.run.step_id.clone(),
        status: status_str(s.run.status).to_owned(),
        attempt: s.run.attempt as i64,
        job_id: s.job_id.duplicate(),
        with_resolved: show_value(&s.with_resolved),
        input_resolved: s.run.input_resolved.duplicate(),
        output: show_value(&s.run.output),
        failure_reason: s.run.failure_reason.duplicate(),
        failure_detail: show_failures(&s.failure_detail),
        approval_status: match s.run.approval_status {
            Some(a) => Some(approval_str(a).to_owned()),
            None => None,
        },
        approval_comment: s.run.approval_comment.duplicate(),
        feedback: s.run.feedback.duplicate(),
        child_run_id: s.run.child_run_id.duplicate(),
        started_at: to_epochs(s.run.started_at),
        completed_at: to_epochs(s.run.completed_at),
    }
}

fn hook_row(h: &HookRunRecord) -> (r: HookRow)
    ensures
        r@ == hook_row_of(h@),
{
    HookRow {
        hook: h.hook.clone(),
        phase: hook_phase_str(h.phase).to_owned(),
        step_id: h.step_id.duplicate(),
        status: hook_status_str(h.status).to_owned(),
        job_id: h.job_id.duplicate(),
        args_resolved: show_value(&h.args_resolved),
        output_ref: h.output_ref.duplicate(),
        failure_reason: h.failure_reason.duplicate(),
        failure_detail: show_failures(&h.failure_detail),
        started_at: to_epoch(h.started_at),
        completed_at: to_epochs(h.completed_at),
    }
}

fn event_row(e: &RunEventRecord) -> (r: EventRow)
    ensures
        r@ == event_row_of(e@),
{
    EventRow {
        event_type: event_type_str(e.event_type).to_owned(),
        step_id: e.step_id.duplicate(),
        timestamp: to_epoch(e.timestamp),
        payload: e.payload.to_text(),
    }
}

fn put_text(text: Option<String>) -> (r: Cell)
    ensures
        r@ == text_cell(text.deep_view()),
{
    match text {
        Some(t) => Cell::Text(t),
        None => Cell::Null,
    }
}

fn put_time(t: Option<Timestamp>) -> (r: Cell)
    ensures
        r@ == time_cell(t),
{
    match t {
        Some(t) => Cell::Int(to_epoch(t)),
        None => Cell::Null,
    }
}

fn one_update(column: &'static str, cell: Cell) -> (r: Vec<ColumnUpdate>)
    ensures
        r.deep_view() == seq![(column@, cell@)],
{
    let mut updates: Vec<ColumnUpdate> = Vec::new();
    let ghost written = cell@;
    updates.push(ColumnUpdate { column, cell });
    proof {
        assert(updates.deep_view() =~= seq![(column@, written)]);
    }
    updates
}

/// What one change of a run does to its rows.
pub fn row_change(m: Mutation) -> (r: RowChange)
    ensures
        r@ == row_change_of(m@),
{
    match m {
        Mutation::InsertStepRun(s) => RowChange::PutStep(step_row(&s)),
        Mutation::SetStepStatus { step_id, attempt, status } => RowChange::UpdateStep {
            step_id,
            attempt,
            updates: one_update("status", Cell::Text(status_str(status).to_owned())),
        },
        Mutation::SetStepOutput { step_id, attempt, output } => RowChange::UpdateStep {
            step_id,
            attempt,
            updates: one_update("output", Cell::Text(output.to_text())),
        },
        Mutation::SetJobId { step_id, attempt, job_id } => RowChange::UpdateStep {
            step_id,
            attempt,
            updates: one_update("job_id", put_text(job_id)),
        },
        Mutation::SetApproval { step_id, attempt, approval_status, comment, feedback } => {
            let mut updates = one_update(
                "approval_status",
                Cell::Text(approval_str(approval_status).to_owned()),
            );
            let comment_cell = put_text(comment);
            let feedback_cell = put_text(feedback);
            let ghost goal = row_change_of(m@)->updates;
            put(&mut updates, ColumnUpdate { column: "approval_comment", cell: comment_cell });
            put(&mut updates, ColumnUpdate { column: "feedback", cell: feedback_cell });
            proof {
                assert(updates.deep_view() =~= goal);
            }
            RowChange::UpdateStep { step_id, attempt, updates }
        },
        Mutation::SetStepFailure { step_id, attempt, reason } => RowChange::UpdateStep {
            step_id,
            attempt,
            updates: one_update("failure_reason", Cell::Text(reason)),
        },
        Mutation::SetStepFailureDetail { step_id, attempt, detail } => RowChange::UpdateStep {
            step_id,
            attempt,
            updates: one_update("failure_detail", Cell::Text(show_failure(&detail))),
        },
        Mutation::SetStepTimestamps { step_id, attempt, started_at, completed_at } => {
            let mut updates = one_update("started_at", put_time(started_at));
            let ghost goal = row_change_of(m@)->updates;
            put(
                &mut updates,
                ColumnUpdate { column: "completed_at", cell: put_time(completed_at) },
            );
            proof {
                assert(updates.deep_view() =~= goal);
            }
            RowChange::UpdateStep { step_id, attempt, updates }
        },
        Mutation::SetChildRunId { step_id, attempt, child_run_id } => RowChange::UpdateStep {
            step_id,
            attempt,
            updates: one_update("child_run_id", put_text(child_run_id)),
        },
        Mutation::SetRunPhase(phase) => RowChange::UpdateRun(
            one_update("phase", Cell::Text(phase_str(phase).to_owned())),
        ),
        Mutation::SetRunCancelled => RowChange::UpdateRun(one_update("cancelled", Cell::Int(1))),
        Mutation::RecordHookRun(h) => RowChange::AddHook(hook_row(&h)),
        Mutation::AppendEvent(e) => RowChange::AddEvent(event_row(&e)),
    }
}

/// The error of an update of a row that is not there.
pub fn row_missing(run_id: &str, step_id: &str, attempt: u32) -> (r: StoreError)
    ensures
        r@ == StoreErrorModel::NotFound(
            "step not found: "@ + run_id@ + "/"@ + step_id@ + "/"@ + decimal(attempt as nat),
        ),
{
    let head = cat5("step not found: ", run_id, "/", step_id, "/");
    StoreError::NotFound(cat2(head.as_str(), decimal_text(attempt as u64).as_str()))
}

/// A result with the error as a text.
pub open spec fn outcome<T>(r: Result<T, String>) -> Result<T, Seq<char>> {
    match r {
        Ok(x) => Ok(x),
        Err(e) => Err(e@),
    }
}

fn unknown(name: &str, expected: &str) -> (r: String)
    ensures
        r@ == unknown_name(name@, expected@),
{
    cat2(cat3("unknown variant `", name, "`, expected one of ").as_str(), expected)
}

/// What is wrong with a name that stands for nothing.
pub open spec fn unknown_name(name: Seq<char>, expected: Seq<char>) -> Seq<char> {
    "unknown variant `"@ + name + "`, expected one of "@ + expected
}

/// Reads the phase of a run.
pub open spec fn phase_in(name: Seq<char>) -> Result<RunPhase, Seq<char>> {
    match phase_named(name) {
        Some(x) => Ok(x),
        None => Err(
            unknown_name(
                name,
                "`running`, `completed`, `failed`, `cancelled`"@,
            ),
        ),
    }
}

fn take_phase(name: &str) -> (r: Result<RunPhase, String>)
    ensures
        outcome(r) == phase_in(name@),
{
    match read_phase(name) {
        Some(x) => Ok(x),
        None => Err(
            unknown(
                name,
                "`running`, `completed`, `failed`, `cancelled`",
            ),
        ),
    }
}

/// Reads the status of a step.
pub open spec fn status_in(name: Seq<char>) -> Result<StepStatus, Seq<char>> {
    match status_named(name) {
        Some(x) => Ok(x),
        None => Err(
            unknown_name(
                name,
                "`pending`, `running`, `waiting_approval`, `waiting_on_subflow`, `completed`, `failed`, `failed_rejected`, `skipped`, `cancelled`"@,
            ),
        ),
    }
}

fn take_status(name: &str) -> (r: Result<StepStatus, String>)
    ensures
        outcome(r) == status_in(name@),
{
    match read_status(name) {
        Some(x) => Ok(x),
        None => Err(
            unknown(
                name,
                "`pending`, `running`, `waiting_approval`, `waiting_on_subflow`, `completed`, `failed`, `failed_rejected`, `skipped`, `cancelled`",
            ),
        ),
    }
}

/// Reads the state of an approval.
pub open spec fn approval_in(name: Seq<char>) -> Result<ApprovalStatus, Seq<char>> {
    match approval_named(name) {
        Some(x) => Ok(x),
        None => Err(
            unknown_name(
                name,
                "`pending`, `approved`, `rejected`"@,
            ),
        ),
    }
}

fn take_approval(name: &str) -> (r: Result<ApprovalStatus, String>)
    ensures
        outcome(r) == approval_in(name@),
{
    match read_approval(name) {
        Some(x) => Ok(x),
        None => Err(
            unknown(
                name,
                "`pending`, `approved`, `rejected`",
            ),
        ),
    }
}

/// Reads the place of a hook.
pub open spec fn hook_phase_in(name: Seq<char>) -> Result<HookPhase, Seq<char>> {
    match hook_phase_named(name) {
        Some(x) => Ok(x),
        None => Err(
            unknown_name(
                name,
                "`before_run`, `after_run`, `before_step`, `after_step`"@,
            ),
        ),
    }
}

fn take_hook_phase(name: &str) -> (r: Result<HookPhase, String>)
    ensures
        outcome(r) == hook_phase_in(name@),
{
    match read_hook_phase(name) {
        Some(x) => Ok(x),
        None => Err(
            unknown(
                name,
                "`before_run`, `after_run`, `before_step`, `after_step`",
            ),
        ),
    }
}

/// Reads the status of a hook.
pub open spec fn hook_status_in(name: Seq<char>) -> Result<HookStatus, Seq<char>> {
    match hook_status_named(name) {
        Some(x) => Ok(x),
        None => Err(
            unknown_name(
                name,
                "`completed`, `failed`, `skipped`"@,
            ),
        ),
    }
}

fn take_hook_status(name: &str) -> (r: Result<HookStatus, String>)
    ensures
        outcome(r) == hook_status_in(name@),
{
    match read_hook_status(name) {
        Some(x) => Ok(x),
        None => Err(
            unknown(
                name,
                "`completed`, `failed`, `skipped`",
            ),
        ),
    }
}

/// Reads the type of an event.
pub open spec fn event_type_in(name: Seq<char>) -> Result<RunEventType, Seq<char>> {
    match event_type_named(name) {
        Some(x) => Ok(x),
        None => Err(
            unknown_name(
                name,
                "`run_started`, `step_activated`, `step_started`, `step_stream_delta`, `step_completed`, `step_failed`, `step_waiting_approval`, `step_waiting_on_subflow`, `approval_resolved`, `run_completed`, `run_failed`, `run_cancelled`"@,
            ),
        ),
    }
}

fn take_event_type(name: &str) -> (r: Result<RunEventType, String>)
    ensures
        outcome(r) == event_type_in(name@),
{
    match read_event_type(name) {
        Some(x) => Ok(x),
        None => Err(
            unknown(
                name,
                "`run_started`, `step_activated`, `step_started`, `step_stream_delta`, `step_completed`, `step_failed`, `step_waiting_approval`, `step_waiting_on_subflow`, `approval_resolved`, `run_completed`, `run_failed`, `run_cancelled`",
            ),
        ),
    }
}

/// Reads the state of an approval that may be missing.
pub open spec fn approvals_in(name: Option<Seq<char>>) -> Result<
    Option<ApprovalStatus>,
    Seq<char>,
> {
    match name {
        None => Ok(None),
        Some(n) => match approval_in(n) {
            Ok(a) => Ok(Some(a)),
            Err(e) => Err(e),
        },
    }
}

fn take_approvals(name: &Option<String>) -> (r: Result<Option<ApprovalStatus>, String>)
    ensures
        outcome(r) == approvals_in(name.deep_view()),
{
    match name {
        None => Ok(None),
        Some(n) => match take_approval(n.as_str()) {
            Ok(a) => Ok(Some(a)),
            Err(e) => Err(e),
        },
    }
}

/// Reads a value that may be missing.
pub open spec fn values_in(text: Option<Seq<char>>) -> Result<Option<Json>, Seq<char>> {
    match text {
        None => Ok(None),
        Some(t) => match parsed_json(t) {
            Ok(v) => Ok(Some(v)),
            Err(e) => Err(e),
        },
    }
}

/// What a result with a value denotes.
pub open spec fn values_read(r: Result<Option<JsonValue>, String>) -> Result<
    Option<Json>,
    Seq<char>,
> {
    match r {
        Ok(v) => Ok(v.deep_view()),
        Err(e) => Err(e@),
    }
}

/// Whether a value is read back from its text.
pub open spec fn is_kept(text: Option<Seq<char>>) -> bool {
    text matches Some(t) ==> reads_back(t, parsed_json(t))
}

fn take_values(text: &Option<String>) -> (r: Result<Option<JsonValue>, String>)
    ensures
        values_read(r) == values_in(text.deep_view()),
        is_kept(text.deep_view()),
{
    match text {
        None => Ok(None),
        Some(t) => match parse_json(t.as_str()) {
            Ok(v) => Ok(Some(v)),
            Err(e) => Err(e),
        },
    }
}

/// The exit code that the literal of a number denotes.
pub open spec fn exit_code_in(n: Seq<char>) -> Option<i32> {
    if n.len() > 0 && n[0] == '-' {
        match unsigned_value(n.drop_first()) {
            Some(k) => if k <= 0x8000_0000 {
                Some((-(k as int)) as i32)
            } else {
                None
            },
            None => None,
        }
    } else {
        match unsigned_value(n) {
            Some(k) => if k <= 0x7fff_ffff {
                Some(k as i32)
            } else {
                None
            },
            None => None,
        }
    }
}

fn take_exit_code(n: &str) -> (r: Option<i32>)
    ensures
        r == exit_code_in(n@),
{
    let chars = chars_of(n);
    if chars.len() > 0 && chars[0] == '-' {
        let digits = slice_subrange(chars.as_slice(), 1, chars.len());
        proof {
            assert(digits@ =~= n@.drop_first());
        }
        match parse_unsigned(digits) {
            Some(k) => if k <= 0x8000_0000 {
                Some((-(k as i64)) as i32)
            } else {
                None
            },
            None => None,
        }
    } else {
        match parse_unsigned(chars.as_slice()) {
            Some(k) => if k <= 0x7fff_ffff {
                Some(k as i32)
            } else {
                None
            },
            None => None,
        }
    }
}

/// What is wrong with a failure that cannot be read.
pub open spec fn no_failure() -> Seq<char> {
    "not the detail of a failure"@
}

/// A text that may be missing.
pub open spec fn text_part(part: Option<Json>) -> Option<Option<Seq<char>>> {
    match part {
        None => Some(None),
        Some(m) => match m {
            Json::Null => Some(None),
            Json::Text(t) => Some(Some(t)),
            _ => None,
        },
    }
}

/// An exit code that may be missing.
pub open spec fn exit_code_part(part: Option<Json>) -> Option<Option<i32>> {
    match part {
        None => Some(None),
        Some(m) => match m {
            Json::Null => Some(None),
            Json::Number(n) => match exit_code_in(n) {
                Some(k) => Some(Some(k)),
                None => None,
            },
            _ => None,
        },
    }
}

/// The failure with these parts; none where one of them cannot be read or the
/// kind is missing.
pub open spec fn failure_from(
    kind: Option<Json>,
    exit_code: Option<Json>,
    stdout: Option<Json>,
    stderr: Option<Json>,
) -> Option<JobFailureModel> {
    match (text_part(kind), exit_code_part(exit_code), text_part(stdout), text_part(stderr)) {
        (Some(Some(kind)), Some(exit_code), Some(stdout), Some(stderr)) => Some(
            JobFailureModel { kind, exit_code, stdout, stderr },
        ),
        _ => None,
    }
}

/// The failure that a value denotes: an object with the parts as members, or a
/// list of the four parts.
pub open spec fn failure_in(v: Json) -> Option<JobFailureModel> {
    match v {
        Json::Array(items) => if items.len() == 4 {
            failure_from(Some(items[0]), Some(items[1]), Some(items[2]), Some(items[3]))
        } else {
            None
        },
        _ => failure_from(
            json_member(v, "kind"@),
            json_member(v, "exit_code"@),
            json_member(v, "stdout"@),
            json_member(v, "stderr"@),
        ),
    }
}

fn take_text_part(part: Option<&JsonValue>) -> (r: Option<Option<String>>)
    ensures
        r.deep_view() == text_part(part.deep_view()),
{
    match part {
        None => Some(None),
        Some(m) => match m {
            JsonValue::Null => Some(None),
            JsonValue::Text(t) => Some(Some(t.clone())),
            _ => None,
        },
    }
}

fn take_exit_code_part(part: Option<&JsonValue>) -> (r: Option<Option<i32>>)
    ensures
        r == exit_code_part(part.deep_view()),
{
    match part {
        None => Some(None),
        Some(m) => match m {
            JsonValue::Null => Some(None),
            JsonValue::Number(n) => match take_exit_code(n.as_str()) {
                Some(k) => Some(Some(k)),
                None => None,
            },
            _ => None,
        },
    }
}

fn take_failure_from(
    kind: Option<&JsonValue>,
    exit_code: Option<&JsonValue>,
    stdout: Option<&JsonValue>,
    stderr: Option<&JsonValue>,
) -> (r: Option<JobFailure>)
    ensures
        r.deep_view() == failure_from(
            kind.deep_view(),
            exit_code.deep_view(),
            stdout.deep_view(),
            stderr.deep_view(),
        ),
{
    let kind = take_text_part(kind);
    let exit_code = take_exit_code_part(exit_code);
    let stdout = take_text_part(stdout);
    let stderr = take_text_part(stderr);
    match kind {
        Some(Some(kind)) => match exit_code {
            Some(exit_code) => match stdout {
                Some(stdout) => match stderr {
                    Some(stderr) => Some(JobFailure { kind, exit_code, stdout, stderr }),
                    None => None,
                },
                None => None,
            },
            None => None,
        },
        _ => None,
    }
}

fn take_failure(v: &JsonValue) -> (r: Option<JobFailure>)
    ensures
        r.deep_view() == failure_in(v@),
{
    match v {
        JsonValue::Array(items) => {
            proof {
                lemma_array_view(*items);
            }
            if items.len() == 4 {
                take_failure_from(Some(&items[0]), Some(&items[1]), Some(&items[2]), Some(&items[3]))
            } else {
                None
            }
        },
        _ => take_failure_from(v.get("kind"), v.get("exit_code"), v.get("stdout"), v.get("stderr")),
    }
}

/// Reads a failure that may be missing.
pub open spec fn failures_in(text: Option<Seq<char>>) -> Result<Option<JobFailureModel>, Seq<char>> {
    match text {
        None => Ok(None),
        Some(t) => match parsed_json(t) {
            Ok(v) => match failure_in(v) {
                Some(f) => Ok(Some(f)),
                None => Err(no_failure()),
            },
            Err(e) => Err(e),
        },
    }
}

/// What a result with a failure denotes.
pub open spec fn failures_read(r: Result<Option<JobFailure>, String>) -> Result<
    Option<JobFailureModel>,
    Seq<char>,
> {
    match r {
        Ok(f) => Ok(f.deep_view()),
        Err(e) => Err(e@),
    }
}

fn take_failures(text: &Option<String>) -> (r: Result<Option<JobFailure>, String>)
    ensures
        failures_read(r) == failures_in(text.deep_view()),
        is_kept(text.deep_view()),
{
    match text {
        None => Ok(None),
        Some(t) => match parse_json(t.as_str()) {
            Ok(v) => match take_failure(&v) {
                Some(f) => Ok(Some(f)),
                None => Err("not the detail of a failure".to_owned()),
            },
            Err(e) => Err(e),
        },
    }
}

/// The error of a row with a column that cannot be read.
pub open spec fn row_error(why: Seq<char>) -> StoreErrorModel {
    StoreErrorModel::Backend(
        "Conversion error from type Text at index: 0, "@ + ("serialization error: "@ + why),
    )
}

fn bad_row(why: String) -> (r: StoreError)
    ensures
        r@ == row_error(why@),
{
    StoreError::Backend(
        cat2(
            "Conversion error from type Text at index: 0, ",
            cat2("serialization error: ", why.as_str()).as_str(),
        ),
    )
}

/// The record of an attempt at a step that a row stands for, given what came
/// of reading its columns.
pub open spec fn step_in(row: StepRowModel) -> Result<StepRecordModel, StoreErrorModel> {
    match status_in(row.status) {
        Err(e) => Err(row_error(e)),
        Ok(status) => match values_in(row.output) {
            Err(e) => Err(row_error(e)),
            Ok(output) => match approvals_in(row.approval_status) {
                Err(e) => Err(row_error(e)),
                Ok(approval_status) => match values_in(row.with_resolved) {
                    Err(e) => Err(row_error(e)),
                    Ok(with_resolved) => match failures_in(row.failure_detail) {
                        Err(e) => Err(row_error(e)),
                        Ok(failure_detail) => Ok(
                            StepRecordModel {
                                run: StepRunModel {
                                    step_id: row.step_id,
                                    status,
                                    attempt: row.attempt as u32,
                                    started_at: times_of(row.started_at),
                                    completed_at: times_of(row.completed_at),
                                    input_resolved: row.input_resolved,
                                    output,
                                    approval_status,
                                    feedback: row.feedback,
                                    approval_comment: row.approval_comment,
                                    failure_reason: row.failure_reason,
                                    child_run_id: row.child_run_id,
                                },
                                job_id: row.job_id,
                                with_resolved,
                                failure_detail,
                            },
                        ),
                    },
                },
            },
        },
    }
}

/// The record of a hook that a row stands for.
pub open spec fn hook_in(row: HookRowModel) -> Result<HookRunModel, StoreErrorModel> {
    match hook_phase_in(row.phase) {
        Err(e) => Err(row_error(e)),
        Ok(phase) => match hook_status_in(row.status) {
            Err(e) => Err(row_error(e)),
            Ok(status) => match values_in(row.args_resolved) {
                Err(e) => Err(row_error(e)),
                Ok(args_resolved) => match failures_in(row.failure_detail) {
                    Err(e) => Err(row_error(e)),
                    Ok(failure_detail) => Ok(
                        HookRunModel {
                            hook: row.hook,
                            phase,
                            step_id: row.step_id,
                            status,
                            started_at: time_of(row.started_at),
                            completed_at: times_of(row.completed_at),
                            args_resolved,
                            output_ref: row.output_ref,
                            failure_reason: row.failure_reason,
                            failure_detail,
                            job_id: row.job_id,
                        },
                    ),
                },
            },
        },
    }
}

/// The event that a row with its number stands for.
pub open spec fn event_in(sequence: i64, row: EventRowModel) -> Result<
    StoredEventModel,
    StoreErrorModel,
> {
    match event_type_in(row.event_type) {
        Err(e) => Err(row_error(e)),
        Ok(event_type) => match parsed_json(row.payload) {
            Err(e) => Err(row_error(e)),
            Ok(payload) => Ok(
                StoredEventModel {
                    sequence: sequence as u64,
                    event_type,
                    step_id: row.step_id,
                    timestamp: time_of(row.timestamp),
                    payload,
                },
            ),
        },
    }
}

/// Whether a value that may be missing is read back from its text.
pub open spec fn is_storable(v: Option<Json>) -> bool {
    v matches Some(v) ==> is_readable(v)
}

/// Whether the values of an attempt at a step are read back from their texts.
pub open spec fn is_storable_step(s: StepRecordModel) -> bool {
    is_storable(s.run.output) && is_storable(s.with_resolved)
}

/// Whether the values of a run and of its steps are read back from their
/// texts.
pub open spec fn is_storable_run(r: RunRecordModel) -> bool {
    &&& is_storable(Some(r.inputs))
    &&& is_storable(Some(r.trigger))
    &&& are_storable_steps(r.steps)
}

/// Whether the values of every attempt are read back from their texts.
pub open spec fn are_storable_steps(steps: Seq<StepRecordModel>) -> bool {
    forall|i: int| 0 <= i < steps.len() ==> is_storable_step(#[trigger] steps[i])
}

/// A value that may be missing, as it is read back.
pub open spec fn value_kept(v: Option<Json>) -> Option<Json> {
    match v {
        Some(v) => Some(in_key_order(v)),
        None => None,
    }
}

/// A record as it is read back: times to the second, members in key order.
pub open spec fn step_kept(s: StepRecordModel) -> StepRecordModel {
    StepRecordModel {
        run: StepRunModel {
            started_at: times_of(epochs_of(s.run.started_at)),
            completed_at: times_of(epochs_of(s.run.completed_at)),
            output: value_kept(s.run.output),
            ..s.run
        },
        with_resolved: value_kept(s.with_resolved),
        ..s
    }
}

/// Several attempts as they are read back.
pub open spec fn steps_kept(steps: Seq<StepRecordModel>) -> Seq<StepRecordModel> {
    Seq::new(steps.len(), |i: int| step_kept(steps[i]))
}

/// A run as it is read back.
pub open spec fn run_kept(r: RunRecordModel) -> RunRecordModel {
    RunRecordModel {
        inputs: in_key_order(r.inputs),
        trigger: in_key_order(r.trigger),
        created_at: time_of(epoch_of(r.created_at)),
        updated_at: time_of(epoch_of(r.updated_at)),
        steps: steps_kept(r.steps),
        ..r
    }
}

/// A hook's record as it is read back.
pub open spec fn hook_kept(h: HookRunModel) -> HookRunModel {
    HookRunModel {
        started_at: time_of(epoch_of(h.started_at)),
        completed_at: times_of(epochs_of(h.completed_at)),
        args_resolved: value_kept(h.args_resolved),
        ..h
    }
}

/// An event as it is read back under a number.
pub open spec fn event_kept(sequence: i64, e: RunEventModel) -> StoredEventModel {
    StoredEventModel {
        sequence: sequence as u64,
        event_type: e.event_type,
        step_id: e.step_id,
        timestamp: time_of(epoch_of(e.timestamp)),
        payload: in_key_order(e.payload),
    }
}

/// Whether `read` is what has to be read from the row of an attempt that was
/// written: the record that was written.
pub open spec fn gives_step_back(
    row: StepRowModel,
    read: Result<StepRecordModel, StoreErrorModel>,
) -> bool {
    forall|s: StepRecordModel|
        is_storable_step(s) && row == #[trigger] step_row_of(s) ==> read == Ok::<
            StepRecordModel,
            StoreErrorModel,
        >(step_kept(s))
}

/// Whether `read` is what has to be read from the row of a hook that was
/// written.
pub open spec fn gives_hook_back(
    row: HookRowModel,
    read: Result<HookRunModel, StoreErrorModel>,
) -> bool {
    forall|h: HookRunModel|
        is_storable(h.args_resolved) && row == #[trigger] hook_row_of(h) ==> read == Ok::<
            HookRunModel,
            StoreErrorModel,
        >(hook_kept(h))
}

/// Whether `read` is what has to be read from the row of an event that was
/// written.
pub open spec fn gives_event_back(
    sequence: i64,
    row: EventRowModel,
    read: Result<StoredEventModel, StoreErrorModel>,
) -> bool {
    forall|e: RunEventModel|
        is_storable(Some(e.payload)) && row == #[trigger] event_row_of(e) ==> read == Ok::<
            StoredEventModel,
            StoreErrorModel,
        >(event_kept(sequence, e))
}

proof fn lemma_exit_code(n: i32)
    ensures
        exit_code_in(signed_decimal(n as int)) == Some(n),
{
    let size = (if n < 0 {
        -n
    } else {
        n as int
    }) as nat;
    let digits = decimal(size);
    lemma_decimal(size);
    assert(crate::text::is_digit(digits[0]));
    let text = signed_decimal(n as int);
    reveal_strlit("-");
    if n < 0 {
        assert(text[0] == '-');
        assert(text.drop_first() =~= digits);
    } else {
        assert(text == digits);
    }
}

proof fn lemma_failure_keys()
    ensures
        "kind"@ != "exit_code"@,
        "kind"@ != "stdout"@,
        "kind"@ != "stderr"@,
        "exit_code"@ != "stdout"@,
        "exit_code"@ != "stderr"@,
        "stdout"@ != "stderr"@,
        !is_reserved_key("kind"@),
        !is_reserved_key("exit_code"@),
        !is_reserved_key("stdout"@),
        !is_reserved_key("stderr"@),
{
    reveal_strlit("$serde_json::private::RawValue");
    reveal_strlit("$serde_json::private::Number");
    reveal_strlit("kind");
    reveal_strlit("exit_code");
    reveal_strlit("stdout");
    reveal_strlit("stderr");
    assert("kind"@.len() == 4);
    assert("exit_code"@.len() == 9);
    assert("stdout"@.len() == 6);
    assert("stderr"@.len() == 6);
    assert("stdout"@[3] == 'o');
    assert("stderr"@[3] == 'e');
    assert("$serde_json::private::RawValue"@.len() == 30);
    assert("$serde_json::private::Number"@.len() == 28);
}

proof fn lemma_failure_is_readable(f: JobFailureModel)
    ensures
        is_readable(failure_json(f)),
{
    lemma_failure_keys();
    let entries = failure_json(f)->Object_0;
    let three = entries.drop_last();
    let two = three.drop_last();
    let one = two.drop_last();
    match f.exit_code {
        Some(n) => {
            assert(entries[1].1 == Json::Number(signed_decimal(n as int)));
        },
        None => {},
    }
    assert forall|i: int| 0 <= i < 4 implies is_plain((#[trigger] entries[i]).1) && json_depth(
        entries[i].1,
    ) == 0 && has_no_reserved_key(entries[i].1) && !is_reserved_key(entries[i].0) by {
        assert(i == 0 || i == 1 || i == 2 || i == 3);
    }
    assert(one.drop_last() =~= Seq::<(Seq<char>, Json)>::empty());
    assert(are_plain_entries(one.drop_last()));
    assert(entries_depth(one.drop_last()) == 0);
    assert(entries_have_no_reserved_key(one.drop_last()));
    assert(one.last() == entries[0]);
    assert(are_plain_entries(one));
    assert(entries_depth(one) == 0);
    assert(entries_have_no_reserved_key(one));
    assert(two.last() == entries[1]);
    assert(are_plain_entries(two));
    assert(entries_depth(two) == 0);
    assert(entries_have_no_reserved_key(two));
    assert(three.last() == entries[2]);
    assert(are_plain_entries(three));
    assert(entries_depth(three) == 0);
    assert(entries_have_no_reserved_key(three));
    assert(are_plain_entries(entries));
    assert(entries_depth(entries) == 0);
    assert(entries_have_no_reserved_key(entries));
}

proof fn lemma_failure_kept(f: JobFailureModel)
    ensures
        failure_in(in_key_order(failure_json(f))) == Some(f),
{
    let entries = failure_json(f)->Object_0;
    let three = entries.drop_last();
    let two = three.drop_last();
    let one = two.drop_last();
    let none = one.drop_last();
    assert(none =~= Seq::<(Seq<char>, Json)>::empty());
    let none_sorted = entries_in_key_order(none);
    assert(none_sorted == Seq::<(Seq<char>, Json)>::empty());
    let one_sorted = entries_in_key_order(one);
    let two_sorted = entries_in_key_order(two);
    let three_sorted = entries_in_key_order(three);
    let sorted = entries_in_key_order(entries);
    assert(one.last() == entries[0]);
    assert(two.last() == entries[1]);
    assert(three.last() == entries[2]);
    assert forall|i: int| 0 <= i < 4 implies in_key_order((#[trigger] entries[i]).1)
        == entries[i].1 by {
        assert(i == 0 || i == 1 || i == 2 || i == 3);
    }
    assert(one_sorted == with_entry(none_sorted, "kind"@, entries[0].1));
    assert(two_sorted == with_entry(one_sorted, "exit_code"@, entries[1].1));
    assert(three_sorted == with_entry(two_sorted, "stdout"@, entries[2].1));
    assert(sorted == with_entry(three_sorted, "stderr"@, entries[3].1));
    lemma_failure_keys();
    set_member_is_read(none_sorted, "kind"@, entries[0].1, "kind"@);
    set_member_is_read(one_sorted, "exit_code"@, entries[1].1, "kind"@);
    set_member_is_read(one_sorted, "exit_code"@, entries[1].1, "exit_code"@);
    set_member_is_read(two_sorted, "stdout"@, entries[2].1, "kind"@);
    set_member_is_read(two_sorted, "stdout"@, entries[2].1, "exit_code"@);
    set_member_is_read(two_sorted, "stdout"@, entries[2].1, "stdout"@);
    set_member_is_read(three_sorted, "stderr"@, entries[3].1, "kind"@);
    set_member_is_read(three_sorted, "stderr"@, entries[3].1, "exit_code"@);
    set_member_is_read(three_sorted, "stderr"@, entries[3].1, "stdout"@);
    set_member_is_read(three_sorted, "stderr"@, entries[3].1, "stderr"@);
    let v = in_key_order(failure_json(f));
    assert(v == Json::Object(sorted));
    match f.exit_code {
        Some(n) => {
            lemma_exit_code(n);
        },
        None => {},
    }
    assert(text_part(json_member(v, "kind"@)) == Some(Some(f.kind)));
    assert(exit_code_part(json_member(v, "exit_code"@)) == Some(f.exit_code));
    assert(text_part(json_member(v, "stdout"@)) == Some(f.stdout));
    assert(text_part(json_member(v, "stderr"@)) == Some(f.stderr));
}

proof fn lemma_values_kept(v: Option<Json>)
    requires
        is_storable(v),
        is_kept(value_text(v)),
    ensures
        values_in(value_text(v)) == Ok::<Option<Json>, Seq<char>>(value_kept(v)),
{
    match v {
        Some(v) => {
            let text = json_text(v);
            assert(reads_back(text, parsed_json(text)));
            assert(parsed_json(text) == Ok::<Json, Seq<char>>(in_key_order(v)));
        },
        None => {},
    }
}

proof fn lemma_failures_kept(f: Option<JobFailureModel>)
    requires
        is_kept(failure_text(f)),
    ensures
        failures_in(failure_text(f)) == Ok::<Option<JobFailureModel>, Seq<char>>(f),
{
    match f {
        Some(f) => {
            lemma_failure_is_readable(f);
            lemma_failure_kept(f);
            let v = failure_json(f);
            let text = json_text(v);
            assert(reads_back(text, parsed_json(text)));
            assert(parsed_json(text) == Ok::<Json, Seq<char>>(in_key_order(v)));
        },
        None => {},
    }
}

proof fn lemma_step_back(row: StepRowModel)
    requires
        is_kept(row.output),
        is_kept(row.with_resolved),
        is_kept(row.failure_detail),
    ensures
        gives_step_back(row, step_in(row)),
{
    assert forall|s: StepRecordModel|
        is_storable_step(s) && row == #[trigger] step_row_of(s) implies step_in(row) == Ok::<
        StepRecordModel,
        StoreErrorModel,
    >(step_kept(s)) by {
        status_name_reads_back(s.run.status);
        match s.run.approval_status {
            Some(a) => {
                approval_name_reads_back(a);
            },
            None => {},
        }
        lemma_values_kept(s.run.output);
        lemma_values_kept(s.with_resolved);
        lemma_failures_kept(s.failure_detail);
        assert(row.attempt as u32 == s.run.attempt);
    }
}

proof fn lemma_hook_back(row: HookRowModel)
    requires
        is_kept(row.args_resolved),
        is_kept(row.failure_detail),
    ensures
        gives_hook_back(row, hook_in(row)),
{
    assert forall|h: HookRunModel|
        is_storable(h.args_resolved) && row == #[trigger] hook_row_of(h) implies hook_in(row)
        == Ok::<HookRunModel, StoreErrorModel>(hook_kept(h)) by {
        hook_phase_name_reads_back(h.phase);
        hook_status_name_reads_back(h.status);
        lemma_values_kept(h.args_resolved);
        lemma_failures_kept(h.failure_detail);
    }
}

proof fn lemma_event_back(sequence: i64, row: EventRowModel)
    requires
        is_kept(Some(row.payload)),
    ensures
        gives_event_back(sequence, row, event_in(sequence, row)),
{
    assert forall|e: RunEventModel|
        is_storable(Some(e.payload)) && row == #[trigger] event_row_of(e) implies event_in(
        sequence,
        row,
    ) == Ok::<StoredEventModel, StoreErrorModel>(event_kept(sequence, e)) by {
        event_type_name_reads_back(e.event_type);
        lemma_values_kept(Some(e.payload));
        assert(parsed_json(json_text(e.payload)) == Ok::<Json, Seq<char>>(
            in_key_order(e.payload),
        ));
    }
}

/// What a result with a step's record denotes.
pub open spec fn step_read(r: Result<StepRecord, StoreError>) -> Result<
    StepRecordModel,
    StoreErrorModel,
> {
    match r {
        Ok(s) => Ok(s@),
        Err(e) => Err(e@),
    }
}

/// Reads the record of an attempt at a step from its row. What was written is
/// read back: times to the second, and the members of values in key order.
pub fn read_step(row: &StepRow) -> (r: Result<StepRecord, StoreError>)
    ensures
        step_read(r) == step_in(row@),
        gives_step_back(row@, step_read(r)),
{
    let status_read = take_status(row.status.as_str());
    let output_read = take_values(&row.output);
    let approval_read = take_approvals(&row.approval_status);
    let with_read = take_values(&row.with_resolved);
    let failure_read = take_failures(&row.failure_detail);
    proof {
        lemma_step_back(row@);
    }
    let status = match status_read {
        Ok(x) => x,
        Err(e) => {
            return Err(bad_row(e));
        },
    };
    let output = match output_read {
        Ok(x) => x,
        Err(e) => {
            return Err(bad_row(e));
        },
    };
    let approval_status = match approval_read {
        Ok(x) => x,
        Err(e) => {
            return Err(bad_row(e));
        },
    };
    let with_resolved = match with_read {
        Ok(x) => x,
        Err(e) => {
            return Err(bad_row(e));
        },
    };
    let failure_detail = match failure_read {
        Ok(x) => x,
        Err(e) => {
            return Err(bad_row(e));
        },
    };
    Ok(
        StepRecord {
            run: StepRun {
                step_id: row.step_id.clone(),
                status,
                attempt: #[verifier::truncate]
                (row.attempt as u32),
                started_at: from_epochs(row.started_at),
                completed_at: from_epochs(row.completed_at),
                input_resolved: row.input_resolved.duplicate(),
                output,
                approval_status,
                feedback: row.feedback.duplicate(),
                approval_comment: row.approval_comment.duplicate(),
                failure_reason: row.failure_reason.duplicate(),
                child_run_id: row.child_run_id.duplicate(),
            },
            job_id: row.job_id.duplicate(),
            with_resolved,
            failure_detail,
        },
    )
}

/// What a result with a hook's record denotes.
pub open spec fn hook_read(r: Result<HookRunRecord, StoreError>) -> Result<
    HookRunModel,
    StoreErrorModel,
> {
    match r {
        Ok(h) => Ok(h@),
        Err(e) => Err(e@),
    }
}

/// Reads the record of a hook from its row. What was written is read back.
pub fn read_hook(row: &HookRow) -> (r: Result<HookRunRecord, StoreError>)
    ensures
        hook_read(r) == hook_in(row@),
        gives_hook_back(row@, hook_read(r)),
{
    let phase_read = take_hook_phase(row.phase.as_str());
    let status_read = take_hook_status(row.status.as_str());
    let args_read = take_values(&row.args_resolved);
    let failure_read = take_failures(&row.failure_detail);
    proof {
        lemma_hook_back(row@);
    }
    let phase = match phase_read {
        Ok(x) => x,
        Err(e) => {
            return Err(bad_row(e));
        },
    };
    let status = match status_read {
        Ok(x) => x,
        Err(e) => {
            return Err(bad_row(e));
        },
    };
    let args_resolved = match args_read {
        Ok(x) => x,
        Err(e) => {
            return Err(bad_row(e));
        },
    };
    let failure_detail = match failure_read {
        Ok(x) => x,
        Err(e) => {
            return Err(bad_row(e));
        },
    };
    Ok(
        HookRunRecord {
            hook: row.hook.clone(),
            phase,
            step_id: row.step_id.duplicate(),
            status,
            started_at: from_epoch(row.started_at),
            completed_at: from_epochs(row.completed_at),
            args_resolved,
            output_ref: row.output_ref.duplicate(),
            failure_reason: row.failure_reason.duplicate(),
            failure_detail,
            job_id: row.job_id.duplicate(),
        },
    )
}

/// What a result with an event denotes.
pub open spec fn event_read(r: Result<StoredRunEvent, StoreError>) -> Result<
    StoredEventModel,
    StoreErrorModel,
> {
    match r {
        Ok(e) => Ok(e@),
        Err(e) => Err(e@),
    }
}

/// Reads an event from its row and its number. What was written is read back.
pub fn read_event(sequence: i64, row: &EventRow) -> (r: Result<StoredRunEvent, StoreError>)
    ensures
        event_read(r) == event_in(sequence, row@),
        gives_event_back(sequence, row@, event_read(r)),
{
    let type_read = take_event_type(row.event_type.as_str());
    let payload_read = parse_json(row.payload.as_str());
    proof {
        lemma_event_back(sequence, row@);
    }
    let event_type = match type_read {
        Ok(x) => x,
        Err(e) => {
            return Err(bad_row(e));
        },
    };
    let payload = match payload_read {
        Ok(x) => x,
        Err(e) => {
            return Err(bad_row(e));
        },
    };
    Ok(
        StoredRunEvent {
            sequence: #[verifier::truncate]
            (sequence as u64),
            event_type,
            step_id: row.step_id.duplicate(),
            timestamp: from_epoch(row.timestamp),
            payload,
        },
    )
}

/// The records that rows stand for, or the error of the first row that cannot
/// be read.
pub open spec fn steps_in(rows: Seq<StepRowModel>) -> Result<
    Seq<StepRecordModel>,
    StoreErrorModel,
>
    decreases rows.len(),
{
    if rows.len() == 0 {
        Ok(Seq::empty())
    } else {
        match steps_in(rows.drop_last()) {
            Err(e) => Err(e),
            Ok(before) => match step_in(rows.last()) {
                Err(e) => Err(e),
                Ok(s) => Ok(before.push(s)),
            },
        }
    }
}

proof fn lemma_steps_stop(rows: Seq<StepRowModel>, n: int)
    requires
        0 <= n <= rows.len(),
        steps_in(rows.take(n)) is Err,
    ensures
        steps_in(rows) == steps_in(rows.take(n)),
    decreases rows.len() - n,
{
    if n == rows.len() {
        assert(rows.take(n) =~= rows);
    } else {
        assert(rows.take(n + 1).drop_last() =~= rows.take(n));
        lemma_steps_stop(rows, n + 1);
    }
}

/// What a result with records denotes.
pub open spec fn steps_read(r: Result<Vec<StepRecord>, StoreError>) -> Result<
    Seq<StepRecordModel>,
    StoreErrorModel,
> {
    match r {
        Ok(s) => Ok(s.deep_view()),
        Err(e) => Err(e@),
    }
}

/// Whether `read` is what has to be read from the rows of attempts that were
/// written.
pub open spec fn gives_steps_back(
    rows: Seq<StepRowModel>,
    read: Result<Seq<StepRecordModel>, StoreErrorModel>,
) -> bool {
    forall|steps: Seq<StepRecordModel>|
        are_storable_steps(steps) && rows == #[trigger] step_rows_of(steps) ==> read == Ok::<
            Seq<StepRecordModel>,
            StoreErrorModel,
        >(steps_kept(steps))
}

proof fn lemma_steps_back(rows: Seq<StepRowModel>, steps: Seq<StepRecordModel>, n: int)
    requires
        0 <= n <= rows.len(),
        rows == step_rows_of(steps),
        are_storable_steps(steps),
        forall|i: int| 0 <= i < n ==> gives_step_back(#[trigger] rows[i], step_in(rows[i])),
    ensures
        steps_in(rows.take(n)) == Ok::<Seq<StepRecordModel>, StoreErrorModel>(
            steps_kept(steps).take(n),
        ),
    decreases n,
{
    if n > 0 {
        lemma_steps_back(rows, steps, n - 1);
        assert(rows.take(n).drop_last() =~= rows.take(n - 1));
        assert(gives_step_back(rows[n - 1], step_in(rows[n - 1])));
        assert(is_storable_step(steps[n - 1]));
        assert(rows[n - 1] == step_row_of(steps[n - 1]));
        assert(steps_kept(steps).take(n - 1).push(step_kept(steps[n - 1])) =~= steps_kept(
            steps,
        ).take(n));
    } else {
        assert(steps_kept(steps).take(n) =~= Seq::<StepRecordModel>::empty());
    }
}

fn read_steps(rows: &Vec<StepRow>) -> (r: Result<Vec<StepRecord>, StoreError>)
    ensures
        steps_read(r) == steps_in(rows.deep_view()),
        gives_steps_back(rows.deep_view(), steps_read(r)),
{
    let ghost all = rows.deep_view();
    let mut out: Vec<StepRecord> = Vec::new();
    let mut i: usize = 0;
    proof {
        assert(out.deep_view() =~= Seq::<StepRecordModel>::empty());
    }
    while i < rows.len()
        invariant
            i <= rows@.len(),
            all == rows.deep_view(),
            steps_in(all.take(i as int)) == Ok::<Seq<StepRecordModel>, StoreErrorModel>(
                out.deep_view(),
            ),
            forall|j: int| 0 <= j < i ==> gives_step_back(#[trigger] all[j], step_in(all[j])),
        decreases rows@.len() - i,
    {
        proof {
            assert(all.take(i + 1).drop_last() =~= all.take(i as int));
            assert(all[i as int] == rows@[i as int]@);
        }
        match read_step(&rows[i]) {
            Ok(s) => {
                put(&mut out, s);
            },
            Err(e) => {
                proof {
                    lemma_steps_stop(all, i + 1);
                    assert forall|steps: Seq<StepRecordModel>|
                        are_storable_steps(steps) && all == #[trigger] step_rows_of(
                            steps,
                        ) implies false by {
                        lemma_steps_back(all, steps, i + 1);
                    }
                }
                return Err(e);
            },
        }
        i = i + 1;
    }
    proof {
        assert(all.take(i as int) =~= all);
        assert forall|steps: Seq<StepRecordModel>|
            are_storable_steps(steps) && all == #[trigger] step_rows_of(steps) implies steps_in(all)
            == Ok::<Seq<StepRecordModel>, StoreErrorModel>(steps_kept(steps)) by {
            lemma_steps_back(all, steps, i as int);
            assert(steps_kept(steps).take(i as int) =~= steps_kept(steps));
        }
    }
    Ok(out)
}

/// The run that its row and the rows of its steps stand for. Where several
/// columns cannot be read, the inputs come before the trigger, the trigger
/// before the steps, and the steps before the phase.
pub open spec fn run_in(run_id: Seq<char>, row: RunRowModel, steps: Seq<StepRowModel>) -> Result<
    RunRecordModel,
    StoreErrorModel,
> {
    match parsed_json(row.inputs) {
        Err(e) => Err(StoreErrorModel::Serialization(e)),
        Ok(inputs) => match parsed_json(row.trigger) {
            Err(e) => Err(StoreErrorModel::Serialization(e)),
            Ok(trigger) => match steps_in(steps) {
                Err(e) => Err(e),
                Ok(steps) => match phase_in(row.phase) {
                    Err(e) => Err(StoreErrorModel::Serialization(e)),
                    Ok(phase) => Ok(
                        RunRecordModel {
                            run_id,
                            flow_name: row.flow_name,
                            flow_version: row.flow_version,
                            definition: row.definition,
                            inputs,
                            trigger,
                            phase,
                            cancelled: row.cancelled != 0,
                            created_at: time_of(row.created_at),
                            updated_at: time_of(row.updated_at),
                            idempotency_key: row.idempotency_key,
                            steps,
                        },
                    ),
                },
            },
        },
    }
}

/// The row of a run that is created.
pub open spec fn new_run_row_of(new: NewRunModel, now: Timestamp) -> RunRowModel {
    RunRowModel {
        flow_name: new.flow_name,
        flow_version: new.flow_version,
        definition: new.definition,
        inputs: json_text(new.inputs),
        trigger: json_text(new.trigger),
        phase: phase_name(RunPhase::Running),
        cancelled: 0i32,
        created_at: epoch_of(now),
        updated_at: epoch_of(now),
        idempotency_key: new.idempotency_key,
    }
}

/// The row of a run that is created.
pub fn new_run_row(new: &NewRun, now: Timestamp) -> (r: RunRow)
    ensures
        r@ == new_run_row_of(new@, now),
{
    RunRow {
        flow_name: new.flow_name.clone(),
        flow_version: new.flow_version.clone(),
        definition: new.definition.duplicate(),
        inputs: new.inputs.to_text(),
        trigger: new.trigger.to_text(),
        phase: phase_str(RunPhase::Running).to_owned(),
        cancelled: 0,
        created_at: to_epoch(now),
        updated_at: to_epoch(now),
        idempotency_key: new.idempotency_key.duplicate(),
    }
}

/// Whether `read` is what has to be read from the row of a run and the rows of
/// its steps that were written.
pub open spec fn gives_run_back(
    run_id: Seq<char>,
    row: RunRowModel,
    steps: Seq<StepRowModel>,
    read: Result<RunRecordModel, StoreErrorModel>,
) -> bool {
    forall|r: RunRecordModel|
        is_storable_run(r) && r.run_id == run_id && row == #[trigger] run_row_of(r) && steps
            == step_rows_of(r.steps) ==> read == Ok::<RunRecordModel, StoreErrorModel>(run_kept(r))
}

proof fn lemma_run_back(run_id: Seq<char>, row: RunRowModel, steps: Seq<StepRowModel>)
    requires
        is_kept(Some(row.inputs)),
        is_kept(Some(row.trigger)),
        gives_steps_back(steps, steps_in(steps)),
    ensures
        gives_run_back(run_id, row, steps, run_in(run_id, row, steps)),
{
    assert forall|r: RunRecordModel|
        is_storable_run(r) && r.run_id == run_id && row == #[trigger] run_row_of(r) && steps
            == step_rows_of(r.steps) implies run_in(run_id, row, steps) == Ok::<
        RunRecordModel,
        StoreErrorModel,
    >(run_kept(r)) by {
        phase_name_reads_back(r.phase);
        lemma_values_kept(Some(r.inputs));
        lemma_values_kept(Some(r.trigger));
        assert(parsed_json(json_text(r.inputs)) == Ok::<Json, Seq<char>>(in_key_order(r.inputs)));
        assert(parsed_json(json_text(r.trigger)) == Ok::<Json, Seq<char>>(
            in_key_order(r.trigger),
        ));
        assert(steps_in(steps) == Ok::<Seq<StepRecordModel>, StoreErrorModel>(
            steps_kept(r.steps),
        ));
    }
}

/// What a result with a run denotes.
pub open spec fn run_read(r: Result<RunRecord, StoreError>) -> Result<
    RunRecordModel,
    StoreErrorModel,
> {
    match r {
        Ok(run) => Ok(run@),
        Err(e) => Err(e@),
    }
}

/// Reads a run from its row and the rows of its steps. A run that was written
/// is read back.
pub fn read_run(run_id: &str, row: RunRow, steps: &Vec<StepRow>) -> (r: Result<
    RunRecord,
    StoreError,
>)
    ensures
        run_read(r) == run_in(run_id@, row@, steps.deep_view()),
        gives_run_back(run_id@, row@, steps.deep_view(), run_read(r)),
{
    let inputs_read = parse_json(row.inputs.as_str());
    let trigger_read = parse_json(row.trigger.as_str());
    let steps_read = read_steps(steps);
    proof {
        lemma_run_back(run_id@, row@, steps.deep_view());
    }
    let inputs = match inputs_read {
        Ok(v) => v,
        Err(e) => {
            return Err(StoreError::Serialization(e));
        },
    };
    let trigger = match trigger_read {
        Ok(v) => v,
        Err(e) => {
            return Err(StoreError::Serialization(e));
        },
    };
    let steps = match steps_read {
        Ok(s) => s,
        Err(e) => {
            return Err(e);
        },
    };
    let phase = match take_phase(row.phase.as_str()) {
        Ok(p) => p,
        Err(e) => {
            return Err(StoreError::Serialization(e));
        },
    };
    Ok(
        RunRecord {
            run_id: run_id.to_owned(),
            flow_name: row.flow_name,
            flow_version: row.flow_version,
            definition: row.definition,
            inputs,
            trigger,
            phase,
            cancelled: row.cancelled != 0,
            created_at: from_epoch(row.created_at),
            updated_at: from_epoch(row.updated_at),
            idempotency_key: row.idempotency_key,
            steps,
        },
    )
}

/// The row of a run, as far as a list of runs shows it.
#[derive(Debug)]
pub struct SummaryRow {
    pub run_id: String,
    pub flow_name: String,
    pub flow_version: String,
    pub phase: String,
    pub created_at: i64,
    pub updated_at: i64,
}

/// Reads what a list of runs shows of a run.
pub fn read_summary(row: SummaryRow) -> (r: Result<RunSummary, StoreError>)
    ensures
        match (r, phase_in(row.phase@)) {
            (Ok(s), Ok(phase)) => s@ == (RunSummaryModel {
                run_id: row.run_id@,
                flow_name: row.flow_name@,
                flow_version: row.flow_version@,
                phase,
                created_at: wire::Timestamp(time_of(row.created_at)),
                updated_at: wire::Timestamp(time_of(row.updated_at)),
            }),
            (Err(e), Err(why)) => e@ == row_error(why),
            _ => false,
        },
{
    match take_phase(row.phase.as_str()) {
        Ok(phase) => Ok(
            RunSummary {
                run_id: row.run_id,
                flow_name: row.flow_name,
                flow_version: row.flow_version,
                phase,
                created_at: wire::Timestamp(from_epoch(row.created_at)),
                updated_at: wire::Timestamp(from_epoch(row.updated_at)),
            },
        ),
        Err(e) => Err(bad_row(e)),
    }
}

/// A query and what stands for its question marks, in order.
#[derive(Debug)]
pub struct Query {
    pub sql: String,
    pub params: Vec<Cell>,
}

/// The cells of a list.
pub open spec fn cells_of(list: Seq<Cell>) -> Seq<CellModel> {
    Seq::new(list.len(), |i: int| list[i]@)
}

/// The query for a list of runs, the newest first.
pub open spec fn list_sql(filter: RunFilter) -> Seq<char> {
    let base =
        "SELECT id, flow_name, flow_version, phase, created_at, updated_at FROM runs WHERE 1=1"@;
    let by_name = if filter.flow_name is Some {
        base + " AND flow_name = ?"@
    } else {
        base
    };
    let by_phase = if filter.phase is Some {
        by_name + " AND phase = ?"@
    } else {
        by_name
    };
    let ordered = by_phase + " ORDER BY created_at DESC"@;
    if filter.limit is Some {
        ordered + " LIMIT ?"@
    } else {
        ordered
    }
}

/// What stands for the question marks of the query for a list of runs.
pub open spec fn list_params(filter: RunFilter) -> Seq<CellModel> {
    let by_name = match filter.flow_name {
        Some(name) => seq![CellModel::Text(name@)],
        None => Seq::empty(),
    };
    let by_phase = match filter.phase {
        Some(phase) => by_name.push(CellModel::Text(phase_name(phase))),
        None => by_name,
    };
    match filter.limit {
        Some(n) => by_phase.push(
            CellModel::Int(if n > i64::MAX {
                i64::MAX
            } else {
                n as i64
            }),
        ),
        None => by_phase,
    }
}

/// The query for a list of runs. Only what the filter asks for has a question
/// mark.
pub fn list_query(filter: &RunFilter) -> (r: Query)
    ensures
        r.sql@ == list_sql(*filter),
        cells_of(r.params@) == list_params(*filter),
{
    let mut sql =
        "SELECT id, flow_name, flow_version, phase, created_at, updated_at FROM runs WHERE 1=1".to_owned();
    let mut params: Vec<Cell> = Vec::new();
    proof {
        assert(cells_of(params@) =~= Seq::<CellModel>::empty());
    }
    match &filter.flow_name {
        Some(name) => {
            sql.append(" AND flow_name = ?");
            params.push(Cell::Text(name.clone()));
            proof {
                assert(cells_of(params@) =~= seq![CellModel::Text(name@)]);
            }
        },
        None => {},
    }
    match filter.phase {
        Some(phase) => {
            sql.append(" AND phase = ?");
            let ghost before = cells_of(params@);
            params.push(Cell::Text(phase_str(phase).to_owned()));
            proof {
                assert(cells_of(params@) =~= before.push(CellModel::Text(phase_name(phase))));
            }
        },
        None => {},
    }
    sql.append(" ORDER BY created_at DESC");
    match filter.limit {
        Some(n) => {
            sql.append(" LIMIT ?");
            let most: u64 = 0x7fff_ffff_ffff_ffff;
            let count: i64 = if n as u64 > most {
                i64::MAX
            } else {
                n as i64
            };
            let ghost before = cells_of(params@);
            params.push(Cell::Int(count));
            proof {
                assert(cells_of(params@) =~= before.push(CellModel::Int(count)));
            }
        },
        None => {},
    }
    Query { sql, params }
}

/// The assignments of an update: each column, to be given its value.
pub open spec fn assignments_of(updates: Seq<(Seq<char>, CellModel)>) -> Seq<char> {
    joined(Seq::new(updates.len(), |i: int| updates[i].0 + " = ?"@), ", "@)
}

/// The assignments of an update.
pub fn assignments(updates: &Vec<ColumnUpdate>) -> (r: String)
    ensures
        r@ == assignments_of(updates.deep_view()),
{
    let ghost all = updates.deep_view();
    let ghost goal = Seq::new(all.len(), |i: int| all[i].0 + " = ?"@);
    let mut parts: Vec<String> = Vec::new();
    let mut i: usize = 0;
    proof {
        assert(parts.deep_view() =~= goal.take(0));
    }
    while i < updates.len()
        invariant
            i <= updates@.len(),
            all == updates.deep_view(),
            goal == Seq::new(all.len(), |i: int| all[i].0 + " = ?"@),
            parts.deep_view() == goal.take(i as int),
        decreases updates@.len() - i,
    {
        proof {
            assert(all[i as int] == updates@[i as int].deep_view());
            assert(goal.take(i + 1) =~= goal.take(i as int).push(goal[i as int]));
        }
        put(&mut parts, cat2(updates[i].column, " = ?"));
        i = i + 1;
    }
    proof {
        assert(goal.take(i as int) =~= goal);
    }
    join(&parts, ", ")
}

} // verus!
