//! What to do with runs that were under way when the runtime stopped.
use crate::copy::{extend, put, Duplicate};
use crate::ports::{latest_records, RunRecord, RunRecordModel, StepRecord, StepRecordModel};
use crate::run::types::{active, StepStatus};
use vstd::prelude::*;

verus! {

/// Why a step has to fail.
#[derive(Debug, Clone, Copy, PartialEq, Eq, Structural)]
pub enum RecoveryReason {
    Interrupted,
}

/// What to do with a run that was under way. `ReissueRunStarted` is for a run
/// that has no step yet: it was stopped while the hooks before it ran, and
/// nothing else would bring it forward. Those hooks may run once more.
#[derive(Debug, PartialEq, Eq)]
#[allow(inconsistent_fields)]
pub enum RecoveryAction {
    ReattachStep { run_id: String, step_id: String, attempt: u32, job_id: String },
    FailStep { run_id: String, step_id: String, attempt: u32, reason: RecoveryReason },
    LeaveWaitingApproval { run_id: String, step_id: String, attempt: u32 },
    RecheckSubflow { run_id: String, step_id: String, attempt: u32, child_run_id: String },
    ReissueRunStarted { run_id: String },
}

/// What a [`RecoveryAction`] denotes.
#[verifier::ext_equal]
#[allow(inconsistent_fields)]
pub enum RecoveryActionModel {
    ReattachStep { run_id: Seq<char>, step_id: Seq<char>, attempt: u32, job_id: Seq<char> },
    FailStep { run_id: Seq<char>, step_id: Seq<char>, attempt: u32, reason: RecoveryReason },
    LeaveWaitingApproval { run_id: Seq<char>, step_id: Seq<char>, attempt: u32 },
    RecheckSubflow { run_id: Seq<char>, step_id: Seq<char>, attempt: u32, child_run_id: Seq<char> },
    ReissueRunStarted { run_id: Seq<char> },
}

impl View for RecoveryAction {
    type V = RecoveryActionModel;

    open spec fn view(&self) -> RecoveryActionModel {
        match self {
            RecoveryAction::ReattachStep { run_id, step_id, attempt, job_id } => RecoveryActionModel::ReattachStep {
                run_id: run_id@,
                step_id: step_id@,
                attempt: *attempt,
                job_id: job_id@,
            },
            RecoveryAction::FailStep { run_id, step_id, attempt, reason } => RecoveryActionModel::FailStep {
                run_id: run_id@,
                step_id: step_id@,
                attempt: *attempt,
                reason: *reason,
            },
            RecoveryAction::LeaveWaitingApproval { run_id, step_id, attempt } => RecoveryActionModel::LeaveWaitingApproval {
                run_id: run_id@,
                step_id: step_id@,
                attempt: *attempt,
            },
            RecoveryAction::RecheckSubflow { run_id, step_id, attempt, child_run_id } => RecoveryActionModel::RecheckSubflow {
                run_id: run_id@,
                step_id: step_id@,
                attempt: *attempt,
                child_run_id: child_run_id@,
            },
            RecoveryAction::ReissueRunStarted { run_id } => RecoveryActionModel::ReissueRunStarted {
                run_id: run_id@,
            },
        }
    }
}

impl DeepView for RecoveryAction {
    type V = RecoveryActionModel;

    open spec fn deep_view(&self) -> RecoveryActionModel {
        self@
    }
}

impl Duplicate for RecoveryAction {
    fn duplicate(&self) -> (r: Self) {
        match self {
            RecoveryAction::ReattachStep { run_id, step_id, attempt, job_id } => RecoveryAction::ReattachStep {
                run_id: run_id.duplicate(),
                step_id: step_id.duplicate(),
                attempt: *attempt,
                job_id: job_id.duplicate(),
            },
            RecoveryAction::FailStep { run_id, step_id, attempt, reason } => RecoveryAction::FailStep {
                run_id: run_id.duplicate(),
                step_id: step_id.duplicate(),
                attempt: *attempt,
                reason: *reason,
            },
            RecoveryAction::LeaveWaitingApproval { run_id, step_id, attempt } => RecoveryAction::LeaveWaitingApproval {
                run_id: run_id.duplicate(),
                step_id: step_id.duplicate(),
                attempt: *attempt,
            },
            RecoveryAction::RecheckSubflow { run_id, step_id, attempt, child_run_id } => RecoveryAction::RecheckSubflow {
                run_id: run_id.duplicate(),
                step_id: step_id.duplicate(),
                attempt: *attempt,
                child_run_id: child_run_id.duplicate(),
            },
            RecoveryAction::ReissueRunStarted { run_id } => RecoveryAction::ReissueRunStarted {
                run_id: run_id.duplicate(),
            },
        }
    }
}

impl Clone for RecoveryAction {
    fn clone(&self) -> (r: Self)
        ensures
            r@ == self@,
    {
        self.duplicate()
    }
}

/// What to do with the latest attempt at a step: nothing where it is not under
/// way; a running job is attached to again, a step without one has failed.
pub open spec fn step_recovery(run_id: Seq<char>, step: StepRecordModel) -> Option<
    RecoveryActionModel,
> {
    let step_id = step.run.step_id;
    let attempt = step.run.attempt;
    let failed = RecoveryActionModel::FailStep {
        run_id,
        step_id,
        attempt,
        reason: RecoveryReason::Interrupted,
    };
    match step.run.status {
        StepStatus::Running => Some(
            match step.job_id {
                Some(job_id) => RecoveryActionModel::ReattachStep {
                    run_id,
                    step_id,
                    attempt,
                    job_id,
                },
                None => failed,
            },
        ),
        StepStatus::WaitingApproval => Some(
            RecoveryActionModel::LeaveWaitingApproval { run_id, step_id, attempt },
        ),
        StepStatus::WaitingOnSubflow => Some(
            match step.run.child_run_id {
                Some(child_run_id) => RecoveryActionModel::RecheckSubflow {
                    run_id,
                    step_id,
                    attempt,
                    child_run_id,
                },
                None => failed,
            },
        ),
        _ => None,
    }
}

/// What to do with several steps of a run.
pub open spec fn steps_recovery(run_id: Seq<char>, steps: Seq<StepRecordModel>) -> Seq<
    RecoveryActionModel,
>
    decreases steps.len(),
{
    if steps.len() == 0 {
        Seq::empty()
    } else {
        match step_recovery(run_id, steps.last()) {
            Some(action) => steps_recovery(run_id, steps.drop_last()).push(action),
            None => steps_recovery(run_id, steps.drop_last()),
        }
    }
}

/// What to do with a run.
pub open spec fn run_recovery(run: RunRecordModel) -> Seq<RecoveryActionModel> {
    steps_recovery(run.run_id, latest_records(run.steps)) + if run.steps.len() == 0 {
        seq![RecoveryActionModel::ReissueRunStarted { run_id: run.run_id }]
    } else {
        Seq::empty()
    }
}

/// What to do with several runs.
pub open spec fn runs_recovery(runs: Seq<RunRecordModel>) -> Seq<RecoveryActionModel>
    decreases runs.len(),
{
    if runs.len() == 0 {
        Seq::empty()
    } else {
        runs_recovery(runs.drop_last()) + run_recovery(runs.last())
    }
}

fn recover_step(run_id: &str, step: &StepRecord) -> (r: Option<RecoveryAction>)
    ensures
        r.deep_view() == step_recovery(run_id@, step@),
{
    let step_id = step.run.step_id.clone();
    let attempt = step.run.attempt;
    match step.run.status {
        StepStatus::Running => match &step.job_id {
            Some(job_id) => Some(
                RecoveryAction::ReattachStep {
                    run_id: run_id.to_owned(),
                    step_id,
                    attempt,
                    job_id: job_id.clone(),
                },
            ),
            None => Some(
                RecoveryAction::FailStep {
                    run_id: run_id.to_owned(),
                    step_id,
                    attempt,
                    reason: RecoveryReason::Interrupted,
                },
            ),
        },
        StepStatus::WaitingApproval => Some(
            RecoveryAction::LeaveWaitingApproval { run_id: run_id.to_owned(), step_id, attempt },
        ),
        StepStatus::WaitingOnSubflow => match &step.run.child_run_id {
            Some(child_run_id) => Some(
                RecoveryAction::RecheckSubflow {
                    run_id: run_id.to_owned(),
                    step_id,
                    attempt,
                    child_run_id: child_run_id.clone(),
                },
            ),
            None => Some(
                RecoveryAction::FailStep {
                    run_id: run_id.to_owned(),
                    step_id,
                    attempt,
                    reason: RecoveryReason::Interrupted,
                },
            ),
        },
        _ => None,
    }
}

fn recover_run(run: &RunRecord) -> (r: Vec<RecoveryAction>)
    ensures
        r.deep_view() == run_recovery(run@),
{
    let steps = run.latest_steps();
    let ghost all = steps.deep_view();
    let mut out: Vec<RecoveryAction> = Vec::new();
    let mut i: usize = 0;
    proof {
        assert(out.deep_view() =~= steps_recovery(run.run_id@, all.take(0)));
    }
    while i < steps.len()
        invariant
            i <= steps@.len(),
            all == steps.deep_view(),
            out.deep_view() == steps_recovery(run.run_id@, all.take(i as int)),
        decreases steps@.len() - i,
    {
        proof {
            assert(all.take(i + 1).drop_last() =~= all.take(i as int));
            assert(all[i as int] == steps@[i as int]@);
        }
        match recover_step(run.run_id.as_str(), steps[i]) {
            Some(action) => {
                put(&mut out, action);
            },
            None => {},
        }
        i = i + 1;
    }
    proof {
        assert(all.take(i as int) =~= all);
    }
    let ghost actions = out.deep_view();
    if run.steps.len() == 0 {
        put(&mut out, RecoveryAction::ReissueRunStarted { run_id: run.run_id.clone() });
    }
    proof {
        assert(out.deep_view() =~= run_recovery(run@));
    }
    out
}

/// Decides what every run that was under way needs. Only the latest attempt at
/// a step counts; earlier ones are history.
pub fn recovery_plan(runs: Vec<RunRecord>) -> (r: Vec<RecoveryAction>)
    ensures
        r.deep_view() == runs_recovery(runs.deep_view()),
{
    let mut out: Vec<RecoveryAction> = Vec::new();
    let ghost all = runs.deep_view();
    let mut i: usize = 0;
    proof {
        assert(out.deep_view() =~= runs_recovery(all.take(0)));
    }
    while i < runs.len()
        invariant
            i <= runs@.len(),
            all == runs.deep_view(),
            out.deep_view() == runs_recovery(all.take(i as int)),
        decreases runs@.len() - i,
    {
        proof {
            assert(all.take(i + 1).drop_last() =~= all.take(i as int));
            assert(all[i as int] == runs@[i as int]@);
        }
        extend(&mut out, recover_run(&runs[i]));
        i = i + 1;
    }
    proof {
        assert(all.take(i as int) =~= all);
    }
    out
}

/// What runs need does not depend on the other runs: two lists of runs together
/// need what the first needs, and then what the second needs.
pub proof fn runs_are_recovered_each_for_itself(a: Seq<RunRecordModel>, b: Seq<RunRecordModel>)
    ensures
        runs_recovery(a + b) == runs_recovery(a) + runs_recovery(b),
    decreases b.len(),
{
    let all = a + b;
    if b.len() == 0 {
        assert(all =~= a);
        assert(runs_recovery(a) + runs_recovery(b) =~= runs_recovery(a));
    } else {
        runs_are_recovered_each_for_itself(a, b.drop_last());
        assert(all.drop_last() =~= a + b.drop_last());
        assert(runs_recovery(all) =~= runs_recovery(a) + runs_recovery(b));
    }
}

/// A step is acted on exactly where it is under way.
pub proof fn only_active_steps_are_recovered(run_id: Seq<char>, step: StepRecordModel)
    ensures
        step_recovery(run_id, step) is Some <==> active(step.run.status),
{
}

proof fn lemma_active_step_counts(run_id: Seq<char>, steps: Seq<StepRecordModel>, i: int)
    requires
        0 <= i < steps.len(),
        active(steps[i].run.status),
    ensures
        steps_recovery(run_id, steps).len() > 0,
    decreases steps.len(),
{
    if i < steps.len() - 1 {
        assert(steps.drop_last()[i] == steps[i]);
        lemma_active_step_counts(run_id, steps.drop_last(), i);
    }
}

/// No run is left hanging: one with an active step or without any step gets an
/// action.
pub proof fn every_open_run_gets_an_action(run: RunRecordModel)
    requires
        run.steps.len() == 0 || exists|i: int|
            0 <= i < latest_records(run.steps).len() && active(
                (#[trigger] latest_records(run.steps)[i]).run.status,
            ),
    ensures
        run_recovery(run).len() > 0,
{
    if run.steps.len() > 0 {
        let steps = latest_records(run.steps);
        let i = choose|i: int| 0 <= i < steps.len() && active((#[trigger] steps[i]).run.status);
        lemma_active_step_counts(run.run_id, steps, i);
    }
}

} // verus!
