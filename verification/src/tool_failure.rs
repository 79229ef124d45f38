//! How failures are told to callers of the tools.
use crate::json::{Json, JsonValue};
use crate::ports::{store_error_text, StoreError, StoreErrorModel};
use crate::text::{cat3, cat5, decimal, decimal_text};
use crate::use_cases::approvals::{ApprovalError, ApprovalErrorModel};
use crate::use_cases::queries::{query_error_text, QueryError, QueryErrorModel};
use crate::use_cases::start_flow::{StartFlowError, StartFlowErrorModel};
use vstd::prelude::*;

verus! {

/// The kinds of failures.
#[derive(Debug, Clone, Copy, PartialEq, Eq, Structural)]
pub enum ErrorKind {
    RunNotFound,
    StepNotFound,
    FlowNotFound,
    MissingInputs,
    NotApprovable,
    NoWaitingStep,
    AmbiguousStep,
    InvalidPhase,
    ValidationFailed,
    StoreError,
    Internal,
}

/// The name of a kind of failure.
pub open spec fn error_kind_name(kind: ErrorKind) -> Seq<char> {
    match kind {
        ErrorKind::RunNotFound => "run_not_found"@,
        ErrorKind::StepNotFound => "step_not_found"@,
        ErrorKind::FlowNotFound => "flow_not_found"@,
        ErrorKind::MissingInputs => "missing_inputs"@,
        ErrorKind::NotApprovable => "not_approvable"@,
        ErrorKind::NoWaitingStep => "no_waiting_step"@,
        ErrorKind::AmbiguousStep => "ambiguous_step"@,
        ErrorKind::InvalidPhase => "invalid_phase"@,
        ErrorKind::ValidationFailed => "validation_failed"@,
        ErrorKind::StoreError => "store_error"@,
        ErrorKind::Internal => "internal"@,
    }
}

/// The name of a kind of failure.
pub fn error_kind_str(kind: ErrorKind) -> (r: &'static str)
    ensures
        r@ == error_kind_name(kind),
{
    match kind {
        ErrorKind::RunNotFound => "run_not_found",
        ErrorKind::StepNotFound => "step_not_found",
        ErrorKind::FlowNotFound => "flow_not_found",
        ErrorKind::MissingInputs => "missing_inputs",
        ErrorKind::NotApprovable => "not_approvable",
        ErrorKind::NoWaitingStep => "no_waiting_step",
        ErrorKind::AmbiguousStep => "ambiguous_step",
        ErrorKind::InvalidPhase => "invalid_phase",
        ErrorKind::ValidationFailed => "validation_failed",
        ErrorKind::StoreError => "store_error",
        ErrorKind::Internal => "internal",
    }
}

/// A failure as it is told to a caller.
#[derive(Debug)]
pub struct ToolFailure {
    pub error_kind: ErrorKind,
    /// It has to be understood on its own.
    pub message: String,
    pub detail: JsonValue,
}

/// What a [`ToolFailure`] denotes.
#[verifier::ext_equal]
pub struct ToolFailureModel {
    pub error_kind: ErrorKind,
    pub message: Seq<char>,
    pub detail: Json,
}

impl View for ToolFailure {
    type V = ToolFailureModel;

    open spec fn view(&self) -> ToolFailureModel {
        ToolFailureModel {
            error_kind: self.error_kind,
            message: self.message@,
            detail: self.detail@,
        }
    }
}

/// A failure without details.
pub open spec fn failure(kind: ErrorKind, message: Seq<char>) -> ToolFailureModel {
    ToolFailureModel { error_kind: kind, message, detail: Json::Null }
}

impl ToolFailure {
    /// A failure without details.
    pub fn new(error_kind: ErrorKind, message: String) -> (r: Self)
        ensures
            r@ == failure(error_kind, message@),
    {
        ToolFailure { error_kind, message, detail: JsonValue::Null }
    }
}

/// How a failure of the store is told.
pub open spec fn store_failure(e: StoreErrorModel) -> ToolFailureModel {
    match e {
        StoreErrorModel::NotFound(id) => failure(
            ErrorKind::RunNotFound,
            "Run '"@ + id
                + "' was not found. Check the run_id, or call list_runs to see known runs."@,
        ),
        StoreErrorModel::Duplicate(key) => failure(
            ErrorKind::ValidationFailed,
            "idempotency_key '"@ + key + "' is already in use by another run."@,
        ),
        other => failure(ErrorKind::StoreError, store_error_text(other)),
    }
}

/// How it is told that a run cannot be started.
pub open spec fn start_failure(e: StartFlowErrorModel) -> ToolFailureModel {
    match e {
        StartFlowErrorModel::FlowNotFound(name) => failure(
            ErrorKind::FlowNotFound,
            "Flow '"@ + name
                + "' was not found. Call list_flows to see available flows and their versions."@,
        ),
        StartFlowErrorModel::MissingInputs(names) => failure(
            ErrorKind::MissingInputs,
            "Missing required input(s): "@ + names
                + ". Call list_flows to see the flow's declared inputs."@,
        ),
        StartFlowErrorModel::Store(e) => store_failure(e),
    }
}

/// How it is told that a step cannot be approved or rejected.
pub open spec fn approval_failure(e: ApprovalErrorModel) -> ToolFailureModel {
    match e {
        ApprovalErrorModel::Store(e) => store_failure(e),
        ApprovalErrorModel::NoWaitingStep => failure(
            ErrorKind::NoWaitingStep,
            "No step on this run is waiting for approval. Call pending_approvals to check current status."@,
        ),
        ApprovalErrorModel::AmbiguousStep => failure(
            ErrorKind::AmbiguousStep,
            "More than one step on this run is waiting for approval; step_id is required. Call pending_approvals to see which steps are waiting."@,
        ),
        ApprovalErrorModel::NotWaiting(id) => failure(
            ErrorKind::NotApprovable,
            "Step '"@ + id
                + "' is not waiting for approval. Call pending_approvals to see which steps are waiting."@,
        ),
    }
}

/// How it is told that a question cannot be answered.
pub open spec fn query_failure(e: QueryErrorModel) -> ToolFailureModel {
    match e {
        QueryErrorModel::Store(e) => store_failure(e),
        QueryErrorModel::StepNotFound(id) => failure(
            ErrorKind::StepNotFound,
            "Step '"@ + id
                + "' was not found on this run. Call get_run_status to see the run's steps."@,
        ),
        QueryErrorModel::AttemptNotFound(n, id) => failure(
            ErrorKind::StepNotFound,
            "Attempt "@ + decimal(n as nat) + " of step '"@ + id
                + "' was not found. Omit attempt to fetch the latest one, or call get_run_status to see valid attempts."@,
        ),
        QueryErrorModel::InvalidPhase(raw) => failure(
            ErrorKind::InvalidPhase,
            query_error_text(QueryErrorModel::InvalidPhase(raw)),
        ),
    }
}

impl vstd::std_specs::convert::FromSpecImpl<StoreError> for ToolFailure {
    open spec fn obeys_from_spec() -> bool {
        false
    }

    open spec fn from_spec(e: StoreError) -> Self {
        arbitrary()
    }
}

impl From<StoreError> for ToolFailure {
    fn from(e: StoreError) -> (r: Self)
        ensures
            r@ == store_failure(e@),
    {
        match e {
            StoreError::NotFound(id) => ToolFailure::new(
                ErrorKind::RunNotFound,
                cat3(
                    "Run '",
                    id.as_str(),
                    "' was not found. Check the run_id, or call list_runs to see known runs.",
                ),
            ),
            StoreError::Duplicate(key) => ToolFailure::new(
                ErrorKind::ValidationFailed,
                cat3(
                    "idempotency_key '",
                    key.as_str(),
                    "' is already in use by another run.",
                ),
            ),
            other => ToolFailure::new(ErrorKind::StoreError, other.message()),
        }
    }
}

impl vstd::std_specs::convert::FromSpecImpl<StartFlowError> for ToolFailure {
    open spec fn obeys_from_spec() -> bool {
        false
    }

    open spec fn from_spec(e: StartFlowError) -> Self {
        arbitrary()
    }
}

impl From<StartFlowError> for ToolFailure {
    fn from(e: StartFlowError) -> (r: Self)
        ensures
            r@ == start_failure(e@),
    {
        match e {
            StartFlowError::FlowNotFound(name) => ToolFailure::new(
                ErrorKind::FlowNotFound,
                cat3(
                    "Flow '",
                    name.as_str(),
                    "' was not found. Call list_flows to see available flows and their versions.",
                ),
            ),
            StartFlowError::MissingInputs(names) => ToolFailure::new(
                ErrorKind::MissingInputs,
                cat3(
                    "Missing required input(s): ",
                    names.as_str(),
                    ". Call list_flows to see the flow's declared inputs.",
                ),
            ),
            StartFlowError::Store(e) => ToolFailure::from(e),
        }
    }
}

impl vstd::std_specs::convert::FromSpecImpl<ApprovalError> for ToolFailure {
    open spec fn obeys_from_spec() -> bool {
        false
    }

    open spec fn from_spec(e: ApprovalError) -> Self {
        arbitrary()
    }
}

impl From<ApprovalError> for ToolFailure {
    fn from(e: ApprovalError) -> (r: Self)
        ensures
            r@ == approval_failure(e@),
    {
        match e {
            ApprovalError::Store(e) => ToolFailure::from(e),
            ApprovalError::NoWaitingStep => ToolFailure::new(
                ErrorKind::NoWaitingStep,
                "No step on this run is waiting for approval. Call pending_approvals to check current status.".to_owned(),
            ),
            ApprovalError::AmbiguousStep => ToolFailure::new(
                ErrorKind::AmbiguousStep,
                "More than one step on this run is waiting for approval; step_id is required. Call pending_approvals to see which steps are waiting.".to_owned(),
            ),
            ApprovalError::NotWaiting(id) => ToolFailure::new(
                ErrorKind::NotApprovable,
                cat3(
                    "Step '",
                    id.as_str(),
                    "' is not waiting for approval. Call pending_approvals to see which steps are waiting.",
                ),
            ),
        }
    }
}

impl vstd::std_specs::convert::FromSpecImpl<QueryError> for ToolFailure {
    open spec fn obeys_from_spec() -> bool {
        false
    }

    open spec fn from_spec(e: QueryError) -> Self {
        arbitrary()
    }
}

impl From<QueryError> for ToolFailure {
    fn from(e: QueryError) -> (r: Self)
        ensures
            r@ == query_failure(e@),
    {
        match e {
            QueryError::Store(e) => ToolFailure::from(e),
            QueryError::StepNotFound(id) => ToolFailure::new(
                ErrorKind::StepNotFound,
                cat3(
                    "Step '",
                    id.as_str(),
                    "' was not found on this run. Call get_run_status to see the run's steps.",
                ),
            ),
            QueryError::AttemptNotFound(n, id) => ToolFailure::new(
                ErrorKind::StepNotFound,
                cat5(
                    "Attempt ",
                    decimal_text(n as u64).as_str(),
                    " of step '",
                    id.as_str(),
                    "' was not found. Omit attempt to fetch the latest one, or call get_run_status to see valid attempts.",
                ),
            ),
            other => ToolFailure::new(ErrorKind::InvalidPhase, other.message()),
        }
    }
}

/// Whether a message names something.
pub open spec fn names(message: Seq<char>, name: Seq<char>) -> bool {
    exists|head: Seq<char>, tail: Seq<char>| message == #[trigger] ((head + name) + tail)
}

/// A failure is told under the kind that fits it, and the message names what was
/// asked for.
pub proof fn failures_are_told_by_their_kind(id: Seq<char>, n: u32)
    ensures
        store_failure(StoreErrorModel::NotFound(id)).error_kind == ErrorKind::RunNotFound,
        names(store_failure(StoreErrorModel::NotFound(id)).message, id),
        store_failure(StoreErrorModel::Duplicate(id)).error_kind == ErrorKind::ValidationFailed,
        names(store_failure(StoreErrorModel::Duplicate(id)).message, id),
        start_failure(StartFlowErrorModel::FlowNotFound(id)).error_kind == ErrorKind::FlowNotFound,
        names(start_failure(StartFlowErrorModel::FlowNotFound(id)).message, id),
        start_failure(StartFlowErrorModel::MissingInputs(id)).error_kind
            == ErrorKind::MissingInputs,
        names(start_failure(StartFlowErrorModel::MissingInputs(id)).message, id),
        approval_failure(ApprovalErrorModel::NotWaiting(id)).error_kind == ErrorKind::NotApprovable,
        names(approval_failure(ApprovalErrorModel::NotWaiting(id)).message, id),
        approval_failure(ApprovalErrorModel::NoWaitingStep).error_kind == ErrorKind::NoWaitingStep,
        approval_failure(ApprovalErrorModel::AmbiguousStep).error_kind == ErrorKind::AmbiguousStep,
        query_failure(QueryErrorModel::StepNotFound(id)).error_kind == ErrorKind::StepNotFound,
        names(query_failure(QueryErrorModel::StepNotFound(id)).message, id),
        query_failure(QueryErrorModel::AttemptNotFound(n, id)).error_kind
            == ErrorKind::StepNotFound,
        names(query_failure(QueryErrorModel::AttemptNotFound(n, id)).message, id),
        query_failure(QueryErrorModel::InvalidPhase(id)).error_kind == ErrorKind::InvalidPhase,
{
    let a = store_failure(StoreErrorModel::NotFound(id)).message;
    assert(a == ("Run '"@ + id)
        + "' was not found. Check the run_id, or call list_runs to see known runs."@);
    let b = store_failure(StoreErrorModel::Duplicate(id)).message;
    assert(b == ("idempotency_key '"@ + id) + "' is already in use by another run."@);
    let c = start_failure(StartFlowErrorModel::FlowNotFound(id)).message;
    assert(c == ("Flow '"@ + id)
        + "' was not found. Call list_flows to see available flows and their versions."@);
    let d = start_failure(StartFlowErrorModel::MissingInputs(id)).message;
    assert(d == ("Missing required input(s): "@ + id)
        + ". Call list_flows to see the flow's declared inputs."@);
    let e = approval_failure(ApprovalErrorModel::NotWaiting(id)).message;
    assert(e == ("Step '"@ + id)
        + "' is not waiting for approval. Call pending_approvals to see which steps are waiting."@);
    let f = query_failure(QueryErrorModel::StepNotFound(id)).message;
    assert(f == ("Step '"@ + id)
        + "' was not found on this run. Call get_run_status to see the run's steps."@);
    let g = query_failure(QueryErrorModel::AttemptNotFound(n, id)).message;
    assert(g == (("Attempt "@ + decimal(n as nat) + " of step '"@) + id)
        + "' was not found. Omit attempt to fetch the latest one, or call get_run_status to see valid attempts."@);
}

/// A failure of the store is told the same way, whatever was asked for.
pub proof fn store_failures_are_told_alike(e: StoreErrorModel)
    ensures
        start_failure(StartFlowErrorModel::Store(e)) == store_failure(e),
        approval_failure(ApprovalErrorModel::Store(e)) == store_failure(e),
        query_failure(QueryErrorModel::Store(e)) == store_failure(e),
{
}

} // verus!
