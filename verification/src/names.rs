//! The names under which enumerations are stored and shown.
use crate::ports::{HookPhase, HookStatus, RunEventType};
use crate::run::types::{ApprovalStatus, RunPhase, StepStatus};
use crate::text::same_text;
use vstd::prelude::*;

verus! {

/// The name of a run phase.
pub open spec fn phase_name(x: RunPhase) -> Seq<char> {
    match x {
        RunPhase::Running => "running"@,
        RunPhase::Completed => "completed"@,
        RunPhase::Failed => "failed"@,
        RunPhase::Cancelled => "cancelled"@,
    }
}

/// The run phase that a name stands for.
pub open spec fn phase_named(name: Seq<char>) -> Option<RunPhase> {
    if name == "running"@ {
        Some(RunPhase::Running)
    } else if name == "completed"@ {
        Some(RunPhase::Completed)
    } else if name == "failed"@ {
        Some(RunPhase::Failed)
    } else if name == "cancelled"@ {
        Some(RunPhase::Cancelled)
    } else {
        None
    }
}

/// The name of a run phase.
pub fn phase_str(x: RunPhase) -> (r: &'static str)
    ensures
        r@ == phase_name(x),
{
    match x {
        RunPhase::Running => "running",
        RunPhase::Completed => "completed",
        RunPhase::Failed => "failed",
        RunPhase::Cancelled => "cancelled",
    }
}

/// The run phase that a name stands for.
pub fn read_phase(name: &str) -> (r: Option<RunPhase>)
    ensures
        r == phase_named(name@),
{
    if same_text(name, "running") {
        Some(RunPhase::Running)
    } else if same_text(name, "completed") {
        Some(RunPhase::Completed)
    } else if same_text(name, "failed") {
        Some(RunPhase::Failed)
    } else if same_text(name, "cancelled") {
        Some(RunPhase::Cancelled)
    } else {
        None
    }
}

/// Every run phase is read back from its name.
pub proof fn phase_name_reads_back(x: RunPhase)
    ensures
        phase_named(phase_name(x)) == Some(x),
{
    reveal_strlit("running");
    reveal_strlit("completed");
    reveal_strlit("failed");
    reveal_strlit("cancelled");
    assert("running"@.len() != "completed"@.len());
    assert("running"@.len() != "failed"@.len());
    assert("completed"@.len() != "failed"@.len());
    assert("running"@.len() != "cancelled"@.len());
    assert("completed"@[1] != "cancelled"@[1]);
    assert("failed"@.len() != "cancelled"@.len());
}

/// The name of a step status.
pub open spec fn status_name(x: StepStatus) -> Seq<char> {
    match x {
        StepStatus::Pending => "pending"@,
        StepStatus::Running => "running"@,
        StepStatus::WaitingApproval => "waiting_approval"@,
        StepStatus::WaitingOnSubflow => "waiting_on_subflow"@,
        StepStatus::Completed => "completed"@,
        StepStatus::Failed => "failed"@,
        StepStatus::FailedRejected => "failed_rejected"@,
        StepStatus::Skipped => "skipped"@,
        StepStatus::Cancelled => "cancelled"@,
    }
}

/// The step status that a name stands for.
pub open spec fn status_named(name: Seq<char>) -> Option<StepStatus> {
    if name == "pending"@ {
        Some(StepStatus::Pending)
    } else if name == "running"@ {
        Some(StepStatus::Running)
    } else if name == "waiting_approval"@ {
        Some(StepStatus::WaitingApproval)
    } else if name == "waiting_on_subflow"@ {
        Some(StepStatus::WaitingOnSubflow)
    } else if name == "completed"@ {
        Some(StepStatus::Completed)
    } else if name == "failed"@ {
        Some(StepStatus::Failed)
    } else if name == "failed_rejected"@ {
        Some(StepStatus::FailedRejected)
    } else if name == "skipped"@ {
        Some(StepStatus::Skipped)
    } else if name == "cancelled"@ {
        Some(StepStatus::Cancelled)
    } else {
        None
    }
}

/// The name of a step status.
pub fn status_str(x: StepStatus) -> (r: &'static str)
    ensures
        r@ == status_name(x),
{
    match x {
        StepStatus::Pending => "pending",
        StepStatus::Running => "running",
        StepStatus::WaitingApproval => "waiting_approval",
        StepStatus::WaitingOnSubflow => "waiting_on_subflow",
        StepStatus::Completed => "completed",
        StepStatus::Failed => "failed",
        StepStatus::FailedRejected => "failed_rejected",
        StepStatus::Skipped => "skipped",
        StepStatus::Cancelled => "cancelled",
    }
}

/// The step status that a name stands for.
pub fn read_status(name: &str) -> (r: Option<StepStatus>)
    ensures
        r == status_named(name@),
{
    if same_text(name, "pending") {
        Some(StepStatus::Pending)
    } else if same_text(name, "running") {
        Some(StepStatus::Running)
    } else if same_text(name, "waiting_approval") {
        Some(StepStatus::WaitingApproval)
    } else if same_text(name, "waiting_on_subflow") {
        Some(StepStatus::WaitingOnSubflow)
    } else if same_text(name, "completed") {
        Some(StepStatus::Completed)
    } else if same_text(name, "failed") {
        Some(StepStatus::Failed)
    } else if same_text(name, "failed_rejected") {
        Some(StepStatus::FailedRejected)
    } else if same_text(name, "skipped") {
        Some(StepStatus::Skipped)
    } else if same_text(name, "cancelled") {
        Some(StepStatus::Cancelled)
    } else {
        None
    }
}

/// Every step status is read back from its name.
pub proof fn status_name_reads_back(x: StepStatus)
    ensures
        status_named(status_name(x)) == Some(x),
{
    reveal_strlit("pending");
    reveal_strlit("running");
    reveal_strlit("waiting_approval");
    reveal_strlit("waiting_on_subflow");
    reveal_strlit("completed");
    reveal_strlit("failed");
    reveal_strlit("failed_rejected");
    reveal_strlit("skipped");
    reveal_strlit("cancelled");
    assert("pending"@[0] != "running"@[0]);
    assert("pending"@.len() != "waiting_approval"@.len());
    assert("running"@.len() != "waiting_approval"@.len());
    assert("pending"@.len() != "waiting_on_subflow"@.len());
    assert("running"@.len() != "waiting_on_subflow"@.len());
    assert("waiting_approval"@.len() != "waiting_on_subflow"@.len());
    assert("pending"@.len() != "completed"@.len());
    assert("running"@.len() != "completed"@.len());
    assert("waiting_approval"@.len() != "completed"@.len());
    assert("waiting_on_subflow"@.len() != "completed"@.len());
    assert("pending"@.len() != "failed"@.len());
    assert("running"@.len() != "failed"@.len());
    assert("waiting_approval"@.len() != "failed"@.len());
    assert("waiting_on_subflow"@.len() != "failed"@.len());
    assert("completed"@.len() != "failed"@.len());
    assert("pending"@.len() != "failed_rejected"@.len());
    assert("running"@.len() != "failed_rejected"@.len());
    assert("waiting_approval"@.len() != "failed_rejected"@.len());
    assert("waiting_on_subflow"@.len() != "failed_rejected"@.len());
    assert("completed"@.len() != "failed_rejected"@.len());
    assert("failed"@.len() != "failed_rejected"@.len());
    assert("pending"@[0] != "skipped"@[0]);
    assert("running"@[0] != "skipped"@[0]);
    assert("waiting_approval"@.len() != "skipped"@.len());
    assert("waiting_on_subflow"@.len() != "skipped"@.len());
    assert("completed"@.len() != "skipped"@.len());
    assert("failed"@.len() != "skipped"@.len());
    assert("failed_rejected"@.len() != "skipped"@.len());
    assert("pending"@.len() != "cancelled"@.len());
    assert("running"@.len() != "cancelled"@.len());
    assert("waiting_approval"@.len() != "cancelled"@.len());
    assert("waiting_on_subflow"@.len() != "cancelled"@.len());
    assert("completed"@[1] != "cancelled"@[1]);
    assert("failed"@.len() != "cancelled"@.len());
    assert("failed_rejected"@.len() != "cancelled"@.len());
    assert("skipped"@.len() != "cancelled"@.len());
}

/// The name of an approval status.
pub open spec fn approval_name(x: ApprovalStatus) -> Seq<char> {
    match x {
        ApprovalStatus::Pending => "pending"@,
        ApprovalStatus::Approved => "approved"@,
        ApprovalStatus::Rejected => "rejected"@,
    }
}

/// The approval status that a name stands for.
pub open spec fn approval_named(name: Seq<char>) -> Option<ApprovalStatus> {
    if name == "pending"@ {
        Some(ApprovalStatus::Pending)
    } else if name == "approved"@ {
        Some(ApprovalStatus::Approved)
    } else if name == "rejected"@ {
        Some(ApprovalStatus::Rejected)
    } else {
        None
    }
}

/// The name of an approval status.
pub fn approval_str(x: ApprovalStatus) -> (r: &'static str)
    ensures
        r@ == approval_name(x),
{
    match x {
        ApprovalStatus::Pending => "pending",
        ApprovalStatus::Approved => "approved",
        ApprovalStatus::Rejected => "rejected",
    }
}

/// The approval status that a name stands for.
pub fn read_approval(name: &str) -> (r: Option<ApprovalStatus>)
    ensures
        r == approval_named(name@),
{
    if same_text(name, "pending") {
        Some(ApprovalStatus::Pending)
    } else if same_text(name, "approved") {
        Some(ApprovalStatus::Approved)
    } else if same_text(name, "rejected") {
        Some(ApprovalStatus::Rejected)
    } else {
        None
    }
}

/// Every approval status is read back from its name.
pub proof fn approval_name_reads_back(x: ApprovalStatus)
    ensures
        approval_named(approval_name(x)) == Some(x),
{
    reveal_strlit("pending");
    reveal_strlit("approved");
    reveal_strlit("rejected");
    assert("pending"@.len() != "approved"@.len());
    assert("pending"@.len() != "rejected"@.len());
    assert("approved"@[0] != "rejected"@[0]);
}

/// The name of a hook phase.
pub open spec fn hook_phase_name(x: HookPhase) -> Seq<char> {
    match x {
        HookPhase::BeforeRun => "before_run"@,
        HookPhase::AfterRun => "after_run"@,
        HookPhase::BeforeStep => "before_step"@,
        HookPhase::AfterStep => "after_step"@,
    }
}

/// The hook phase that a name stands for.
pub open spec fn hook_phase_named(name: Seq<char>) -> Option<HookPhase> {
    if name == "before_run"@ {
        Some(HookPhase::BeforeRun)
    } else if name == "after_run"@ {
        Some(HookPhase::AfterRun)
    } else if name == "before_step"@ {
        Some(HookPhase::BeforeStep)
    } else if name == "after_step"@ {
        Some(HookPhase::AfterStep)
    } else {
        None
    }
}

/// The name of a hook phase.
pub fn hook_phase_str(x: HookPhase) -> (r: &'static str)
    ensures
        r@ == hook_phase_name(x),
{
    match x {
        HookPhase::BeforeRun => "before_run",
        HookPhase::AfterRun => "after_run",
        HookPhase::BeforeStep => "before_step",
        HookPhase::AfterStep => "after_step",
    }
}

/// The hook phase that a name stands for.
pub fn read_hook_phase(name: &str) -> (r: Option<HookPhase>)
    ensures
        r == hook_phase_named(name@),
{
    if same_text(name, "before_run") {
        Some(HookPhase::BeforeRun)
    } else if same_text(name, "after_run") {
        Some(HookPhase::AfterRun)
    } else if same_text(name, "before_step") {
        Some(HookPhase::BeforeStep)
    } else if same_text(name, "after_step") {
        Some(HookPhase::AfterStep)
    } else {
        None
    }
}

/// Every hook phase is read back from its name.
pub proof fn hook_phase_name_reads_back(x: HookPhase)
    ensures
        hook_phase_named(hook_phase_name(x)) == Some(x),
{
    reveal_strlit("before_run");
    reveal_strlit("after_run");
    reveal_strlit("before_step");
    reveal_strlit("after_step");
    assert("before_run"@.len() != "after_run"@.len());
    assert("before_run"@.len() != "before_step"@.len());
    assert("after_run"@.len() != "before_step"@.len());
    assert("before_run"@[0] != "after_step"@[0]);
    assert("after_run"@.len() != "after_step"@.len());
    assert("before_step"@.len() != "after_step"@.len());
}

/// The name of a hook status.
pub open spec fn hook_status_name(x: HookStatus) -> Seq<char> {
    match x {
        HookStatus::Completed => "completed"@,
        HookStatus::Failed => "failed"@,
        HookStatus::Skipped => "skipped"@,
    }
}

/// The hook status that a name stands for.
pub open spec fn hook_status_named(name: Seq<char>) -> Option<HookStatus> {
    if name == "completed"@ {
        Some(HookStatus::Completed)
    } else if name == "failed"@ {
        Some(HookStatus::Failed)
    } else if name == "skipped"@ {
        Some(HookStatus::Skipped)
    } else {
        None
    }
}

/// The name of a hook status.
pub fn hook_status_str(x: HookStatus) -> (r: &'static str)
    ensures
        r@ == hook_status_name(x),
{
    match x {
        HookStatus::Completed => "completed",
        HookStatus::Failed => "failed",
        HookStatus::Skipped => "skipped",
    }
}

/// The hook status that a name stands for.
pub fn read_hook_status(name: &str) -> (r: Option<HookStatus>)
    ensures
        r == hook_status_named(name@),
{
    if same_text(name, "completed") {
        Some(HookStatus::Completed)
    } else if same_text(name, "failed") {
        Some(HookStatus::Failed)
    } else if same_text(name, "skipped") {
        Some(HookStatus::Skipped)
    } else {
        None
    }
}

/// Every hook status is read back from its name.
pub proof fn hook_status_name_reads_back(x: HookStatus)
    ensures
        hook_status_named(hook_status_name(x)) == Some(x),
{
    reveal_strlit("completed");
    reveal_strlit("failed");
    reveal_strlit("skipped");
    assert("completed"@.len() != "failed"@.len());
    assert("completed"@.len() != "skipped"@.len());
    assert("failed"@.len() != "skipped"@.len());
}

/// The name of a type of a run event.
pub open spec fn event_type_name(x: RunEventType) -> Seq<char> {
    match x {
        RunEventType::RunStarted => "run_started"@,
        RunEventType::StepActivated => "step_activated"@,
        RunEventType::StepStarted => "step_started"@,
        RunEventType::StepStreamDelta => "step_stream_delta"@,
        RunEventType::StepCompleted => "step_completed"@,
        RunEventType::StepFailed => "step_failed"@,
        RunEventType::StepWaitingApproval => "step_waiting_approval"@,
        RunEventType::StepWaitingOnSubflow => "step_waiting_on_subflow"@,
        RunEventType::ApprovalResolved => "approval_resolved"@,
        RunEventType::RunCompleted => "run_completed"@,
        RunEventType::RunFailed => "run_failed"@,
        RunEventType::RunCancelled => "run_cancelled"@,
    }
}

/// The type of a run event that a name stands for.
pub open spec fn event_type_named(name: Seq<char>) -> Option<RunEventType> {
    if name == "run_started"@ {
        Some(RunEventType::RunStarted)
    } else if name == "step_activated"@ {
        Some(RunEventType::StepActivated)
    } else if name == "step_started"@ {
        Some(RunEventType::StepStarted)
    } else if name == "step_stream_delta"@ {
        Some(RunEventType::StepStreamDelta)
    } else if name == "step_completed"@ {
        Some(RunEventType::StepCompleted)
    } else if name == "step_failed"@ {
        Some(RunEventType::StepFailed)
    } else if name == "step_waiting_approval"@ {
        Some(RunEventType::StepWaitingApproval)
    } else if name == "step_waiting_on_subflow"@ {
        Some(RunEventType::StepWaitingOnSubflow)
    } else if name == "approval_resolved"@ {
        Some(RunEventType::ApprovalResolved)
    } else if name == "run_completed"@ {
        Some(RunEventType::RunCompleted)
    } else if name == "run_failed"@ {
        Some(RunEventType::RunFailed)
    } else if name == "run_cancelled"@ {
        Some(RunEventType::RunCancelled)
    } else {
        None
    }
}

/// The name of a type of a run event.
pub fn event_type_str(x: RunEventType) -> (r: &'static str)
    ensures
        r@ == event_type_name(x),
{
    match x {
        RunEventType::RunStarted => "run_started",
        RunEventType::StepActivated => "step_activated",
        RunEventType::StepStarted => "step_started",
        RunEventType::StepStreamDelta => "step_stream_delta",
        RunEventType::StepCompleted => "step_completed",
        RunEventType::StepFailed => "step_failed",
        RunEventType::StepWaitingApproval => "step_waiting_approval",
        RunEventType::StepWaitingOnSubflow => "step_waiting_on_subflow",
        RunEventType::ApprovalResolved => "approval_resolved",
        RunEventType::RunCompleted => "run_completed",
        RunEventType::RunFailed => "run_failed",
        RunEventType::RunCancelled => "run_cancelled",
    }
}

/// The type of a run event that a name stands for.
pub fn read_event_type(name: &str) -> (r: Option<RunEventType>)
    ensures
        r == event_type_named(name@),
{
    if same_text(name, "run_started") {
        Some(RunEventType::RunStarted)
    } else if same_text(name, "step_activated") {
        Some(RunEventType::StepActivated)
    } else if same_text(name, "step_started") {
        Some(RunEventType::StepStarted)
    } else if same_text(name, "step_stream_delta") {
        Some(RunEventType::StepStreamDelta)
    } else if same_text(name, "step_completed") {
        Some(RunEventType::StepCompleted)
    } else if same_text(name, "step_failed") {
        Some(RunEventType::StepFailed)
    } else if same_text(name, "step_waiting_approval") {
        Some(RunEventType::StepWaitingApproval)
    } else if same_text(name, "step_waiting_on_subflow") {
        Some(RunEventType::StepWaitingOnSubflow)
    } else if same_text(name, "approval_resolved") {
        Some(RunEventType::ApprovalResolved)
    } else if same_text(name, "run_completed") {
        Some(RunEventType::RunCompleted)
    } else if same_text(name, "run_failed") {
        Some(RunEventType::RunFailed)
    } else if same_text(name, "run_cancelled") {
        Some(RunEventType::RunCancelled)
    } else {
        None
    }
}

/// Every type of a run event is read back from its name.
pub proof fn event_type_name_reads_back(x: RunEventType)
    ensures
        event_type_named(event_type_name(x)) == Some(x),
{
    reveal_strlit("run_started");
    reveal_strlit("step_activated");
    reveal_strlit("step_started");
    reveal_strlit("step_stream_delta");
    reveal_strlit("step_completed");
    reveal_strlit("step_failed");
    reveal_strlit("step_waiting_approval");
    reveal_strlit("step_waiting_on_subflow");
    reveal_strlit("approval_resolved");
    reveal_strlit("run_completed");
    reveal_strlit("run_failed");
    reveal_strlit("run_cancelled");
    assert("run_started"@.len() != "step_activated"@.len());
    assert("run_started"@.len() != "step_started"@.len());
    assert("step_activated"@.len() != "step_started"@.len());
    assert("run_started"@.len() != "step_stream_delta"@.len());
    assert("step_activated"@.len() != "step_stream_delta"@.len());
    assert("step_started"@.len() != "step_stream_delta"@.len());
    assert("run_started"@.len() != "step_completed"@.len());
    assert("step_activated"@[5] != "step_completed"@[5]);
    assert("step_started"@.len() != "step_completed"@.len());
    assert("step_stream_delta"@.len() != "step_completed"@.len());
    assert("run_started"@[0] != "step_failed"@[0]);
    assert("step_activated"@.len() != "step_failed"@.len());
    assert("step_started"@.len() != "step_failed"@.len());
    assert("step_stream_delta"@.len() != "step_failed"@.len());
    assert("step_completed"@.len() != "step_failed"@.len());
    assert("run_started"@.len() != "step_waiting_approval"@.len());
    assert("step_activated"@.len() != "step_waiting_approval"@.len());
    assert("step_started"@.len() != "step_waiting_approval"@.len());
    assert("step_stream_delta"@.len() != "step_waiting_approval"@.len());
    assert("step_completed"@.len() != "step_waiting_approval"@.len());
    assert("step_failed"@.len() != "step_waiting_approval"@.len());
    assert("run_started"@.len() != "step_waiting_on_subflow"@.len());
    assert("step_activated"@.len() != "step_waiting_on_subflow"@.len());
    assert("step_started"@.len() != "step_waiting_on_subflow"@.len());
    assert("step_stream_delta"@.len() != "step_waiting_on_subflow"@.len());
    assert("step_completed"@.len() != "step_waiting_on_subflow"@.len());
    assert("step_failed"@.len() != "step_waiting_on_subflow"@.len());
    assert("step_waiting_approval"@.len() != "step_waiting_on_subflow"@.len());
    assert("run_started"@.len() != "approval_resolved"@.len());
    assert("step_activated"@.len() != "approval_resolved"@.len());
    assert("step_started"@.len() != "approval_resolved"@.len());
    assert("step_stream_delta"@[0] != "approval_resolved"@[0]);
    assert("step_completed"@.len() != "approval_resolved"@.len());
    assert("step_failed"@.len() != "approval_resolved"@.len());
    assert("step_waiting_approval"@.len() != "approval_resolved"@.len());
    assert("step_waiting_on_subflow"@.len() != "approval_resolved"@.len());
    assert("run_started"@.len() != "run_completed"@.len());
    assert("step_activated"@.len() != "run_completed"@.len());
    assert("step_started"@.len() != "run_completed"@.len());
    assert("step_stream_delta"@.len() != "run_completed"@.len());
    assert("step_completed"@.len() != "run_completed"@.len());
    assert("step_failed"@.len() != "run_completed"@.len());
    assert("step_waiting_approval"@.len() != "run_completed"@.len());
    assert("step_waiting_on_subflow"@.len() != "run_completed"@.len());
    assert("approval_resolved"@.len() != "run_completed"@.len());
    assert("run_started"@.len() != "run_failed"@.len());
    assert("step_activated"@.len() != "run_failed"@.len());
    assert("step_started"@.len() != "run_failed"@.len());
    assert("step_stream_delta"@.len() != "run_failed"@.len());
    assert("step_completed"@.len() != "run_failed"@.len());
    assert("step_failed"@.len() != "run_failed"@.len());
    assert("step_waiting_approval"@.len() != "run_failed"@.len());
    assert("step_waiting_on_subflow"@.len() != "run_failed"@.len());
    assert("approval_resolved"@.len() != "run_failed"@.len());
    assert("run_completed"@.len() != "run_failed"@.len());
    assert("run_started"@.len() != "run_cancelled"@.len());
    assert("step_activated"@.len() != "run_cancelled"@.len());
    assert("step_started"@.len() != "run_cancelled"@.len());
    assert("step_stream_delta"@.len() != "run_cancelled"@.len());
    assert("step_completed"@.len() != "run_cancelled"@.len());
    assert("step_failed"@.len() != "run_cancelled"@.len());
    assert("step_waiting_approval"@.len() != "run_cancelled"@.len());
    assert("step_waiting_on_subflow"@.len() != "run_cancelled"@.len());
    assert("approval_resolved"@.len() != "run_cancelled"@.len());
    assert("run_completed"@[5] != "run_cancelled"@[5]);
    assert("run_failed"@.len() != "run_cancelled"@.len());
}

/// The names that are stored and sent are these.
pub proof fn names_are_these(
    phase: RunPhase,
    status: StepStatus,
    approval: ApprovalStatus,
    when: HookPhase,
    ended: HookStatus,
)
    ensures
        phase_name(phase) == "running"@ <==> phase == RunPhase::Running,
        phase_name(phase) == "completed"@ <==> phase == RunPhase::Completed,
        phase_name(phase) == "failed"@ <==> phase == RunPhase::Failed,
        phase_name(phase) == "cancelled"@ <==> phase == RunPhase::Cancelled,
        status_name(status) == "pending"@ <==> status == StepStatus::Pending,
        status_name(status) == "running"@ <==> status == StepStatus::Running,
        status_name(status) == "waiting_approval"@ <==> status == StepStatus::WaitingApproval,
        status_name(status) == "waiting_on_subflow"@ <==> status == StepStatus::WaitingOnSubflow,
        status_name(status) == "completed"@ <==> status == StepStatus::Completed,
        status_name(status) == "failed"@ <==> status == StepStatus::Failed,
        status_name(status) == "failed_rejected"@ <==> status == StepStatus::FailedRejected,
        status_name(status) == "skipped"@ <==> status == StepStatus::Skipped,
        status_name(status) == "cancelled"@ <==> status == StepStatus::Cancelled,
        approval_name(approval) == "pending"@ <==> approval == ApprovalStatus::Pending,
        approval_name(approval) == "approved"@ <==> approval == ApprovalStatus::Approved,
        approval_name(approval) == "rejected"@ <==> approval == ApprovalStatus::Rejected,
        hook_phase_name(when) == "before_run"@ <==> when == HookPhase::BeforeRun,
        hook_phase_name(when) == "after_run"@ <==> when == HookPhase::AfterRun,
        hook_phase_name(when) == "before_step"@ <==> when == HookPhase::BeforeStep,
        hook_phase_name(when) == "after_step"@ <==> when == HookPhase::AfterStep,
        hook_status_name(ended) == "completed"@ <==> ended == HookStatus::Completed,
        hook_status_name(ended) == "failed"@ <==> ended == HookStatus::Failed,
        hook_status_name(ended) == "skipped"@ <==> ended == HookStatus::Skipped,
{
    phase_name_reads_back(phase);
    phase_name_reads_back(RunPhase::Running);
    phase_name_reads_back(RunPhase::Completed);
    phase_name_reads_back(RunPhase::Failed);
    phase_name_reads_back(RunPhase::Cancelled);
    status_name_reads_back(status);
    status_name_reads_back(StepStatus::Pending);
    status_name_reads_back(StepStatus::Running);
    status_name_reads_back(StepStatus::WaitingApproval);
    status_name_reads_back(StepStatus::WaitingOnSubflow);
    status_name_reads_back(StepStatus::Completed);
    status_name_reads_back(StepStatus::Failed);
    status_name_reads_back(StepStatus::FailedRejected);
    status_name_reads_back(StepStatus::Skipped);
    status_name_reads_back(StepStatus::Cancelled);
    approval_name_reads_back(approval);
    approval_name_reads_back(ApprovalStatus::Pending);
    approval_name_reads_back(ApprovalStatus::Approved);
    approval_name_reads_back(ApprovalStatus::Rejected);
    hook_phase_name_reads_back(when);
    hook_phase_name_reads_back(HookPhase::BeforeRun);
    hook_phase_name_reads_back(HookPhase::AfterRun);
    hook_phase_name_reads_back(HookPhase::BeforeStep);
    hook_phase_name_reads_back(HookPhase::AfterStep);
    hook_status_name_reads_back(ended);
    hook_status_name_reads_back(HookStatus::Completed);
    hook_status_name_reads_back(HookStatus::Failed);
    hook_status_name_reads_back(HookStatus::Skipped);
}

/// The names of events that are stored and sent are these.
pub proof fn event_names_are_these()
    ensures
        event_type_named("run_started"@) == Some(RunEventType::RunStarted),
        event_type_named("step_activated"@) == Some(RunEventType::StepActivated),
        event_type_named("step_started"@) == Some(RunEventType::StepStarted),
        event_type_named("step_stream_delta"@) == Some(RunEventType::StepStreamDelta),
        event_type_named("step_completed"@) == Some(RunEventType::StepCompleted),
        event_type_named("step_failed"@) == Some(RunEventType::StepFailed),
        event_type_named("step_waiting_approval"@) == Some(RunEventType::StepWaitingApproval),
        event_type_named("step_waiting_on_subflow"@) == Some(RunEventType::StepWaitingOnSubflow),
        event_type_named("approval_resolved"@) == Some(RunEventType::ApprovalResolved),
        event_type_named("run_completed"@) == Some(RunEventType::RunCompleted),
        event_type_named("run_failed"@) == Some(RunEventType::RunFailed),
        event_type_named("run_cancelled"@) == Some(RunEventType::RunCancelled),
{
    event_type_name_reads_back(RunEventType::RunStarted);
    event_type_name_reads_back(RunEventType::StepActivated);
    event_type_name_reads_back(RunEventType::StepStarted);
    event_type_name_reads_back(RunEventType::StepStreamDelta);
    event_type_name_reads_back(RunEventType::StepCompleted);
    event_type_name_reads_back(RunEventType::StepFailed);
    event_type_name_reads_back(RunEventType::StepWaitingApproval);
    event_type_name_reads_back(RunEventType::StepWaitingOnSubflow);
    event_type_name_reads_back(RunEventType::ApprovalResolved);
    event_type_name_reads_back(RunEventType::RunCompleted);
    event_type_name_reads_back(RunEventType::RunFailed);
    event_type_name_reads_back(RunEventType::RunCancelled);
}

} // verus!
