//! What follows from the statuses of a run's steps.
use super::types::{
    active, terminal, RunPhase, RunState, RunStateModel, StepRunModel, StepStatus,
};
use crate::copy::put;
use vstd::prelude::*;

verus! {

/// Whether every step has come to its end.
pub open spec fn all_terminal(steps: Seq<StepRunModel>) -> bool {
    forall|i: int| 0 <= i < steps.len() ==> terminal((#[trigger] steps[i]).status)
}

/// Whether some step has the status `status`.
pub open spec fn any_status(steps: Seq<StepRunModel>, status: StepStatus) -> bool {
    exists|i: int| 0 <= i < steps.len() && (#[trigger] steps[i]).status == status
}

/// The phase of a run: running until every step has ended; after that failed
/// where a step failed or was rejected, unless the run was asked to stop and a
/// step was cancelled; cancelled where a step was cancelled; else completed.
pub open spec fn phase_of(state: RunStateModel) -> RunPhase {
    let cancelled = any_status(state.steps, StepStatus::Cancelled);
    if !all_terminal(state.steps) {
        RunPhase::Running
    } else if state.cancelled && cancelled {
        RunPhase::Cancelled
    } else if any_status(state.steps, StepStatus::Failed) || any_status(
        state.steps,
        StepStatus::FailedRejected,
    ) {
        RunPhase::Failed
    } else if cancelled {
        RunPhase::Cancelled
    } else {
        RunPhase::Completed
    }
}

/// Whether every step has come to its end.
pub fn are_all_terminal(state: &RunState) -> (r: bool)
    ensures
        r == all_terminal(state@.steps),
{
    let mut i: usize = 0;
    while i < state.steps.len()
        invariant
            i <= state.steps@.len(),
            state@.steps == state.steps.deep_view(),
            forall|j: int| 0 <= j < i ==> terminal((#[trigger] state@.steps[j]).status),
        decreases state.steps@.len() - i,
    {
        proof {
            assert(state@.steps[i as int] == state.steps@[i as int]@);
        }
        if !state.steps[i].status.is_terminal() {
            return false;
        }
        i = i + 1;
    }
    true
}

fn has_status(state: &RunState, status: StepStatus) -> (r: bool)
    ensures
        r == any_status(state@.steps, status),
{
    let mut i: usize = 0;
    while i < state.steps.len()
        invariant
            i <= state.steps@.len(),
            state@.steps == state.steps.deep_view(),
            forall|j: int| 0 <= j < i ==> (#[trigger] state@.steps[j]).status != status,
        decreases state.steps@.len() - i,
    {
        proof {
            assert(state@.steps[i as int] == state.steps@[i as int]@);
        }
        if state.steps[i].status == status {
            return true;
        }
        i = i + 1;
    }
    false
}

/// The run's phase, derived from the statuses of its steps.
pub fn phase(state: &RunState) -> (r: RunPhase)
    ensures
        r == phase_of(state@),
{
    if !are_all_terminal(state) {
        return RunPhase::Running;
    }
    let cancelled = has_status(state, StepStatus::Cancelled);
    if state.cancelled && cancelled {
        return RunPhase::Cancelled;
    }
    if has_status(state, StepStatus::Failed) || has_status(state, StepStatus::FailedRejected) {
        return RunPhase::Failed;
    }
    if cancelled {
        return RunPhase::Cancelled;
    }
    RunPhase::Completed
}

/// The ids of the active steps other than `excluding`, in order.
pub open spec fn active_ids(steps: Seq<StepRunModel>, excluding: Option<Seq<char>>) -> Seq<Seq<char>>
    decreases steps.len(),
{
    if steps.len() == 0 {
        Seq::empty()
    } else if active(steps.last().status) && excluding != Some(steps.last().step_id) {
        active_ids(steps.drop_last(), excluding).push(steps.last().step_id)
    } else {
        active_ids(steps.drop_last(), excluding)
    }
}

/// The ids of the steps that are running or waiting for something.
pub fn active_steps(state: &RunState) -> (r: Vec<String>)
    ensures
        r.deep_view() == active_ids(state@.steps, None),
{
    let mut out: Vec<String> = Vec::new();
    let ghost all = state@.steps;
    let mut i: usize = 0;
    proof {
        assert(out.deep_view() =~= active_ids(all.take(0), None));
    }
    while i < state.steps.len()
        invariant
            i <= state.steps@.len(),
            all == state@.steps,
            all == state.steps.deep_view(),
            out.deep_view() == active_ids(all.take(i as int), None),
        decreases state.steps@.len() - i,
    {
        proof {
            assert(all.take(i + 1).drop_last() =~= all.take(i as int));
            assert(all[i as int] == state.steps@[i as int]@);
        }
        if state.steps[i].status.is_active() {
            put(&mut out, state.steps[i].step_id.clone());
        }
        i = i + 1;
    }
    proof {
        assert(all.take(i as int) =~= all);
    }
    out
}

} // verus!
