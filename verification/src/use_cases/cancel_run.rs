//! Cancelling runs.
use crate::names::{phase_name, phase_str};
use crate::ports::{state_of, RunId, RunRecord, RunRecordModel};
use crate::run::derive::{active_ids, active_steps};
use crate::wire::Timestamp;
use vstd::prelude::*;

verus! {

/// A run to be cancelled.
#[derive(Debug)]
pub struct CancelRunRequest {
    pub run_id: RunId,
}

/// A run after it was asked to stop.
#[derive(Debug)]
pub struct CancelRunResponse {
    pub run_id: String,
    pub phase: String,
    pub active_steps: Vec<String>,
    pub updated_at: Timestamp,
}

/// What a [`CancelRunResponse`] denotes.
#[verifier::ext_equal]
pub struct CancelledModel {
    pub run_id: Seq<char>,
    pub phase: Seq<char>,
    pub active_steps: Seq<Seq<char>>,
    pub updated_at: Timestamp,
}

impl View for CancelRunResponse {
    type V = CancelledModel;

    open spec fn view(&self) -> CancelledModel {
        CancelledModel {
            run_id: self.run_id@,
            phase: self.phase@,
            active_steps: self.active_steps.deep_view(),
            updated_at: self.updated_at,
        }
    }
}

/// How a run is shown after it was asked to stop.
pub open spec fn cancelled_of(record: RunRecordModel) -> CancelledModel {
    CancelledModel {
        run_id: record.run_id,
        phase: phase_name(record.phase),
        active_steps: active_ids(state_of(record).steps, None),
        updated_at: Timestamp(record.updated_at),
    }
}

/// Shows a run after it was asked to stop.
pub fn cancel_run(record: &RunRecord) -> (r: CancelRunResponse)
    ensures
        r@ == cancelled_of(record@),
{
    let state = record.run_state();
    CancelRunResponse {
        run_id: record.run_id.clone(),
        phase: phase_str(record.phase).to_owned(),
        active_steps: active_steps(&state),
        updated_at: Timestamp(record.updated_at),
    }
}

} // verus!
