//! Submitting an event to a run.
use crate::ports::RunId;
use crate::run::types::Event;
use vstd::prelude::*;

verus! {

/// An event to be submitted.
#[derive(Debug)]
pub struct AdvanceRunRequest {
    pub event: Event,
}

/// The run that the event was submitted to.
#[derive(Debug)]
pub struct AdvanceRunResponse {
    pub run_id: RunId,
}

} // verus!
