//! Approving and rejecting steps.
use crate::copy::{put, Duplicate};
use crate::json::{set_entry, with_entry, Json, JsonValue};
use crate::ports::{
    latest_records, store_error_text, Mutation, MutationModel, RunEventModel, RunEventRecord,
    RunEventType, RunId, RunRecord, RunRecordModel, StepRecordModel, StoreError, StoreErrorModel,
};
use crate::graph::has_name;
use crate::run::types::{Event, EventModel, StepStatus, Timestamp};
use crate::text::{cat2, cat3};
use vstd::prelude::*;

verus! {

/// Why a step cannot be approved or rejected.
#[derive(Debug)]
#[allow(inconsistent_fields)]
pub enum ApprovalError {
    Store(StoreError),
    NoWaitingStep,
    AmbiguousStep,
    NotWaiting(String),
}

/// What an [`ApprovalError`] denotes.
#[verifier::ext_equal]
#[allow(inconsistent_fields)]
pub enum ApprovalErrorModel {
    Store(StoreErrorModel),
    NoWaitingStep,
    AmbiguousStep,
    NotWaiting(Seq<char>),
}

impl View for ApprovalError {
    type V = ApprovalErrorModel;

    open spec fn view(&self) -> ApprovalErrorModel {
        match self {
            ApprovalError::Store(x) => ApprovalErrorModel::Store(x@),
            ApprovalError::NoWaitingStep => ApprovalErrorModel::NoWaitingStep,
            ApprovalError::AmbiguousStep => ApprovalErrorModel::AmbiguousStep,
            ApprovalError::NotWaiting(x) => ApprovalErrorModel::NotWaiting(x@),
        }
    }
}

impl DeepView for ApprovalError {
    type V = ApprovalErrorModel;

    open spec fn deep_view(&self) -> ApprovalErrorModel {
        self@
    }
}

impl Duplicate for ApprovalError {
    fn duplicate(&self) -> (r: Self) {
        match self {
            ApprovalError::Store(x) => ApprovalError::Store(x.duplicate()),
            ApprovalError::NoWaitingStep => ApprovalError::NoWaitingStep,
            ApprovalError::AmbiguousStep => ApprovalError::AmbiguousStep,
            ApprovalError::NotWaiting(x) => ApprovalError::NotWaiting(x.duplicate()),
        }
    }
}

impl Clone for ApprovalError {
    fn clone(&self) -> (r: Self)
        ensures
            r@ == self@,
    {
        self.duplicate()
    }
}

/// The text that describes an approval error.
pub open spec fn approval_error_text(e: ApprovalErrorModel) -> Seq<char> {
    match e {
        ApprovalErrorModel::Store(e) => "store error: "@ + store_error_text(e),
        ApprovalErrorModel::NoWaitingStep => "no step is waiting approval"@,
        ApprovalErrorModel::AmbiguousStep =>
            "multiple steps waiting approval; step_id is required"@,
        ApprovalErrorModel::NotWaiting(id) => "step '"@ + id + "' is not waiting approval"@,
    }
}

impl ApprovalError {
    /// The text that describes this error.
    pub fn message(&self) -> (r: String)
        ensures
            r@ == approval_error_text(self@),
    {
        match self {
            ApprovalError::Store(e) => cat2("store error: ", e.message().as_str()),
            ApprovalError::NoWaitingStep => "no step is waiting approval".to_owned(),
            ApprovalError::AmbiguousStep =>
                "multiple steps waiting approval; step_id is required".to_owned(),
            ApprovalError::NotWaiting(id) => cat3(
                "step '",
                id.as_str(),
                "' is not waiting approval",
            ),
        }
    }
}

/// A step to be approved.
#[derive(Debug)]
pub struct ApproveRequest {
    pub run_id: RunId,
    /// Not needed where exactly one step waits.
    pub step_id: Option<String>,
    /// A note that is kept with the approval.
    pub comment: Option<String>,
}

/// A step to be rejected.
#[derive(Debug)]
pub struct RejectRequest {
    pub run_id: RunId,
    /// Not needed where exactly one step waits.
    pub step_id: Option<String>,
    /// What has to change. The step gets this text as it is.
    pub feedback: String,
}

/// Which step was approved or rejected.
#[derive(Debug)]
pub struct ApprovalResponse {
    pub run_id: RunId,
    pub step_id: String,
}

/// The ids of those of `steps` that wait for approval.
pub open spec fn waiting_ids(steps: Seq<StepRecordModel>) -> Seq<Seq<char>>
    decreases steps.len(),
{
    if steps.len() == 0 {
        Seq::empty()
    } else if steps.last().run.status == StepStatus::WaitingApproval {
        waiting_ids(steps.drop_last()).push(steps.last().run.step_id)
    } else {
        waiting_ids(steps.drop_last())
    }
}

/// Which step is meant: the named one, which has to wait, or the only one that
/// waits.
pub open spec fn meant_step(record: RunRecordModel, explicit: Option<Seq<char>>) -> Result<
    Seq<char>,
    ApprovalErrorModel,
> {
    let waiting = waiting_ids(latest_records(record.steps));
    match explicit {
        Some(id) => if waiting.contains(id) {
            Ok(id)
        } else {
            Err(ApprovalErrorModel::NotWaiting(id))
        },
        None => if waiting.len() == 0 {
            Err(ApprovalErrorModel::NoWaitingStep)
        } else if waiting.len() > 1 {
            Err(ApprovalErrorModel::AmbiguousStep)
        } else {
            Ok(waiting[0])
        },
    }
}

/// Finds out which step is meant.
pub fn resolve_step_id(record: &RunRecord, explicit: Option<String>) -> (r: Result<
    String,
    ApprovalError,
>)
    ensures
        (match r {
            Ok(id) => Ok(id@),
            Err(e) => Err(e@),
        }) == meant_step(record@, explicit.deep_view()),
{
    let steps = record.latest_steps();
    let ghost all = steps.deep_view();
    let mut waiting: Vec<String> = Vec::new();
    let mut i: usize = 0;
    proof {
        assert(waiting.deep_view() =~= waiting_ids(all.take(0)));
    }
    while i < steps.len()
        invariant
            i <= steps@.len(),
            all == steps.deep_view(),
            waiting.deep_view() == waiting_ids(all.take(i as int)),
        decreases steps@.len() - i,
    {
        proof {
            assert(all.take(i + 1).drop_last() =~= all.take(i as int));
            assert(all[i as int] == steps@[i as int]@);
        }
        if steps[i].run.status == StepStatus::WaitingApproval {
            put(&mut waiting, steps[i].run.step_id.clone());
        }
        i = i + 1;
    }
    proof {
        assert(all.take(i as int) =~= all);
    }
    match explicit {
        Some(id) => if has_name(&waiting, id.as_str()) {
            Ok(id)
        } else {
            Err(ApprovalError::NotWaiting(id))
        },
        None => if waiting.len() == 0 {
            Err(ApprovalError::NoWaitingStep)
        } else if waiting.len() > 1 {
            Err(ApprovalError::AmbiguousStep)
        } else {
            Ok(waiting[0].clone())
        },
    }
}

/// The event that reports an answer: the decision, and the note or feedback
/// under `key`.
pub open spec fn resolved_event(
    step_id: Seq<char>,
    decision: Seq<char>,
    key: Seq<char>,
    note: Json,
    now: Timestamp,
) -> MutationModel {
    MutationModel::AppendEvent(
        RunEventModel {
            event_type: RunEventType::ApprovalResolved,
            step_id: Some(step_id),
            timestamp: now,
            payload: Json::Object(
                with_entry(
                    with_entry(Seq::empty(), "decision"@, Json::Text(decision)),
                    key,
                    note,
                ),
            ),
        },
    )
}

fn report_resolved(step_id: &str, decision: &str, key: &str, note: JsonValue, now: Timestamp) -> (r:
    Mutation)
    ensures
        r@ == resolved_event(step_id@, decision@, key@, note@, now),
{
    let mut entries: Vec<(String, JsonValue)> = Vec::new();
    proof {
        assert(entries.deep_view() =~= Seq::<(Seq<char>, Json)>::empty());
    }
    set_entry(&mut entries, "decision".to_owned(), JsonValue::Text(decision.to_owned()));
    set_entry(&mut entries, key.to_owned(), note);
    proof {
        crate::json::lemma_object_view(entries);
    }
    Mutation::AppendEvent(
        RunEventRecord {
            event_type: RunEventType::ApprovalResolved,
            step_id: Some(step_id.to_owned()),
            timestamp: now,
            payload: JsonValue::Object(entries),
        },
    )
}

/// What follows an answer: the event to store, the event to submit, and the
/// response.
#[derive(Debug)]
pub struct Answer {
    pub report: Mutation,
    pub event: Event,
    pub response: ApprovalResponse,
}

/// A note as it is reported.
pub open spec fn note_json(note: Option<Seq<char>>) -> Json {
    match note {
        Some(t) => Json::Text(t),
        None => Json::Null,
    }
}

/// Approves a step that waits: its approval is reported, and the run goes on.
pub fn approve_step(record: &RunRecord, req: ApproveRequest, now: Timestamp) -> (r: Result<
    Answer,
    ApprovalError,
>)
    ensures
        match (r, meant_step(record@, req.step_id.deep_view())) {
            (Ok(answer), Ok(id)) => {
                &&& answer.report@ == resolved_event(
                    id,
                    "approved"@,
                    "comment"@,
                    note_json(req.comment.deep_view()),
                    now,
                )
                &&& answer.event@ == (EventModel::StepApproved {
                    step_id: id,
                    comment: req.comment.deep_view(),
                })
                &&& answer.response.run_id@ == req.run_id@
                &&& answer.response.step_id@ == id
            },
            (Err(e), Err(why)) => e@ == why,
            _ => false,
        },
{
    let ApproveRequest { run_id, step_id, comment } = req;
    match resolve_step_id(record, step_id) {
        Ok(id) => {
            let note = match &comment {
                Some(t) => JsonValue::Text(t.clone()),
                None => JsonValue::Null,
            };
            Ok(
                Answer {
                    report: report_resolved(id.as_str(), "approved", "comment", note, now),
                    event: Event::StepApproved { step_id: id.clone(), comment },
                    response: ApprovalResponse { run_id, step_id: id },
                },
            )
        },
        Err(e) => Err(e),
    }
}

/// Rejects a step that waits: its rejection is reported, and the step gets the
/// feedback.
pub fn reject_step(record: &RunRecord, req: RejectRequest, now: Timestamp) -> (r: Result<
    Answer,
    ApprovalError,
>)
    ensures
        match (r, meant_step(record@, req.step_id.deep_view())) {
            (Ok(answer), Ok(id)) => {
                &&& answer.report@ == resolved_event(
                    id,
                    "rejected"@,
                    "feedback"@,
                    Json::Text(req.feedback@),
                    now,
                )
                &&& answer.event@ == (EventModel::StepRejected {
                    step_id: id,
                    feedback: req.feedback@,
                })
                &&& answer.response.run_id@ == req.run_id@
                &&& answer.response.step_id@ == id
            },
            (Err(e), Err(why)) => e@ == why,
            _ => false,
        },
{
    let RejectRequest { run_id, step_id, feedback } = req;
    match resolve_step_id(record, step_id) {
        Ok(id) => {
            let note = JsonValue::Text(feedback.clone());
            Ok(
                Answer {
                    report: report_resolved(id.as_str(), "rejected", "feedback", note, now),
                    event: Event::StepRejected { step_id: id.clone(), feedback },
                    response: ApprovalResponse { run_id, step_id: id },
                },
            )
        },
        Err(e) => Err(e),
    }
}

} // verus!
