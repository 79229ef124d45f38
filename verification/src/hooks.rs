//! The course of a hook and of a batch of hooks: what comes next after each
//! thing that happened.
use crate::flow::types::{HookCall, HookModel};
use crate::json::{Json, JsonValue};
use crate::ports::{
    devkitd_error_text, DevkitdError, DevkitdErrorModel, HookStatus, JobHandle,
    Mutation, MutationModel, RunRecord, RunRecordModel, StartRequest, StartRequestModel,
};
use crate::run::types::{HookPhase, HookPhaseModel, Timestamp};
use crate::scheduler::{
    aborts, deadline_after, deadline_fits, hook_failure_aborts, hook_job, hook_request, hook_run,
    job_deadline, record_hook,
};
use vstd::prelude::*;

verus! {

/// What comes next for a hook.
#[derive(Debug)]
pub enum HookStep {
    /// Start this job.
    Start(StartRequest),
    /// Wait for the job until the deadline.
    Wait { handle: JobHandle, deadline: Option<Timestamp> },
    /// Store this write, where there is one. The hook has ended.
    Finish { write: Option<Mutation>, outcome: Result<JsonValue, DevkitdError> },
}

/// What a [`HookStep`] denotes.
#[verifier::ext_equal]
pub enum HookStepModel {
    Start(StartRequestModel),
    Wait { handle: Seq<char>, deadline: Option<Timestamp> },
    Finish { write: Option<MutationModel>, outcome: Result<Json, DevkitdErrorModel> },
}

/// What the outcome of a job denotes.
pub open spec fn outcome_view(outcome: Result<JsonValue, DevkitdError>) -> Result<
    Json,
    DevkitdErrorModel,
> {
    match outcome {
        Ok(output) => Ok(output@),
        Err(e) => Err(e@),
    }
}

impl View for HookStep {
    type V = HookStepModel;

    open spec fn view(&self) -> HookStepModel {
        match self {
            HookStep::Start(request) => HookStepModel::Start(request@),
            HookStep::Wait { handle, deadline } => HookStepModel::Wait {
                handle: handle.0@,
                deadline: *deadline,
            },
            HookStep::Finish { write, outcome } => HookStepModel::Finish {
                write: write.deep_view(),
                outcome: outcome_view(*outcome),
            },
        }
    }
}

/// Why an outcome is no success.
pub open spec fn failure_in_outcome(outcome: Result<Json, DevkitdErrorModel>) -> Option<
    DevkitdErrorModel,
> {
    match outcome {
        Ok(_) => None,
        Err(e) => Some(e),
    }
}

/// The end of a hook, with the record of it.
pub open spec fn hook_end(
    hook: HookModel,
    phase: HookPhaseModel,
    started_at: Timestamp,
    now: Timestamp,
    args: Option<Json>,
    job_id: Option<Seq<char>>,
    outcome: Result<Json, DevkitdErrorModel>,
) -> HookStepModel {
    HookStepModel::Finish {
        write: Some(
            MutationModel::RecordHookRun(
                hook_run(hook, phase, started_at, now, args, job_id, failure_in_outcome(outcome)),
            ),
        ),
        outcome,
    }
}

fn end_hook(
    hook: &HookCall,
    phase: &HookPhase,
    started_at: Timestamp,
    now: Timestamp,
    args: Option<JsonValue>,
    job_id: Option<String>,
    outcome: Result<JsonValue, DevkitdError>,
) -> (r: HookStep)
    ensures
        r@ == hook_end(
            hook@,
            phase@,
            started_at,
            now,
            args.deep_view(),
            job_id.deep_view(),
            outcome_view(outcome),
        ),
{
    let failure: Option<&DevkitdError> = match &outcome {
        Ok(_) => None,
        Err(e) => Some(e),
    };
    proof {
        assert(failure.deep_view() == failure_in_outcome(outcome_view(outcome)));
    }
    let write = record_hook(hook, phase, started_at, now, args, job_id, failure);
    HookStep::Finish { write: Some(write), outcome }
}

/// What a hook begins with. Where its run could not be loaded it counts as
/// interrupted and leaves no record; where its arguments cannot be resolved it
/// has failed and is recorded; otherwise its job starts.
pub open spec fn hook_beginning(
    loaded: Option<RunRecordModel>,
    hook: HookModel,
    phase: HookPhaseModel,
    started_at: Timestamp,
    now: Timestamp,
) -> HookStepModel {
    match loaded {
        None => HookStepModel::Finish { write: None, outcome: Err(DevkitdErrorModel::Interrupted) },
        Some(record) => match hook_job(record, hook) {
            Ok(request) => HookStepModel::Start(request),
            Err(e) => hook_end(hook, phase, started_at, now, None, None, Err(e)),
        },
    }
}

/// Decides what a hook begins with, from the record of its run.
pub fn hook_begun(
    loaded: Option<&RunRecord>,
    hook: &HookCall,
    phase: &HookPhase,
    started_at: Timestamp,
    now: Timestamp,
) -> (r: HookStep)
    ensures
        r@ == hook_beginning(
            match loaded {
                Some(record) => Some(record@),
                None => None,
            },
            hook@,
            phase@,
            started_at,
            now,
        ),
{
    match loaded {
        None => HookStep::Finish { write: None, outcome: Err(DevkitdError::Interrupted) },
        Some(record) => match hook_request(record, hook) {
            Ok(request) => HookStep::Start(request),
            Err(e) => end_hook(hook, phase, started_at, now, None, None, Err(e)),
        },
    }
}

/// What follows the start of a hook's job: one that was accepted is waited
/// for, one that was refused is recorded.
pub open spec fn hook_after_start(
    hook: HookModel,
    phase: HookPhaseModel,
    started_at: Timestamp,
    request: StartRequestModel,
    started: Result<Seq<char>, DevkitdErrorModel>,
    now: Timestamp,
) -> HookStepModel {
    match started {
        Ok(handle) => HookStepModel::Wait {
            handle,
            deadline: deadline_after(now, request.timeout_seconds, 0),
        },
        Err(e) => hook_end(hook, phase, started_at, now, Some(request.args), None, Err(e)),
    }
}

/// Decides what follows the start of a hook's job. The deadline counts from
/// now.
pub fn hook_started(
    hook: &HookCall,
    phase: &HookPhase,
    started_at: Timestamp,
    request: &StartRequest,
    started: Result<JobHandle, DevkitdError>,
    now: Timestamp,
) -> (r: HookStep)
    requires
        started is Ok ==> deadline_fits(now, request.timeout_seconds, 0),
    ensures
        r@ == hook_after_start(
            hook@,
            phase@,
            started_at,
            request@,
            match started {
                Ok(handle) => Ok(handle.0@),
                Err(e) => Err(e@),
            },
            now,
        ),
{
    match started {
        Ok(handle) => HookStep::Wait {
            handle,
            deadline: job_deadline(now, request.timeout_seconds, 0),
        },
        Err(e) => end_hook(
            hook,
            phase,
            started_at,
            now,
            Some(request.args.clone()),
            None,
            Err(e),
        ),
    }
}

/// Decides what follows the wait for a hook's job: it is recorded.
pub fn hook_waited(
    hook: &HookCall,
    phase: &HookPhase,
    started_at: Timestamp,
    request: &StartRequest,
    handle: &JobHandle,
    outcome: Result<JsonValue, DevkitdError>,
    now: Timestamp,
) -> (r: HookStep)
    ensures
        r@ == hook_end(
            hook@,
            phase@,
            started_at,
            now,
            Some(request@.args),
            Some(handle.0@),
            outcome_view(outcome),
        ),
{
    end_hook(
        hook,
        phase,
        started_at,
        now,
        Some(request.args.clone()),
        Some(handle.0.clone()),
        outcome,
    )
}

/// What happens around a hook: what its runner answers, and the clock.
pub struct HookCourse {
    pub started_at: Timestamp,
    pub begun_at: Timestamp,
    pub started: Result<Seq<char>, DevkitdErrorModel>,
    pub accepted_at: Timestamp,
    pub waited: Result<Json, DevkitdErrorModel>,
    pub ended_at: Timestamp,
}

/// What a step of a hook stores.
pub open spec fn step_writes(step: HookStepModel) -> Seq<MutationModel> {
    match step {
        HookStepModel::Finish { write: Some(write), outcome } => seq![write],
        _ => Seq::empty(),
    }
}

/// The steps of a hook from its beginning to its end.
pub open spec fn hook_steps(
    record: RunRecordModel,
    hook: HookModel,
    phase: HookPhaseModel,
    course: HookCourse,
) -> Seq<HookStepModel> {
    let first = hook_beginning(Some(record), hook, phase, course.started_at, course.begun_at);
    match first {
        HookStepModel::Start(request) => {
            let second = hook_after_start(
                hook,
                phase,
                course.started_at,
                request,
                course.started,
                course.accepted_at,
            );
            match second {
                HookStepModel::Wait { handle, deadline } => seq![
                    first,
                    second,
                    hook_end(
                        hook,
                        phase,
                        course.started_at,
                        course.ended_at,
                        Some(request.args),
                        Some(handle),
                        course.waited,
                    ),
                ],
                _ => seq![first, second],
            }
        },
        _ => seq![first],
    }
}

/// Everything that the steps of a hook store, in order.
pub open spec fn hook_writes(steps: Seq<HookStepModel>) -> Seq<MutationModel>
    decreases steps.len(),
{
    if steps.len() == 0 {
        Seq::empty()
    } else {
        hook_writes(steps.drop_last()) + step_writes(steps.last())
    }
}

proof fn lemma_one_write(steps: Seq<HookStepModel>)
    requires
        steps.len() > 0,
        forall|i: int|
            0 <= i < steps.len() - 1 ==> step_writes(#[trigger] steps[i]) =~= Seq::<
                MutationModel,
            >::empty(),
    ensures
        hook_writes(steps) == step_writes(steps.last()),
    decreases steps.len(),
{
    let rest = steps.drop_last();
    if rest.len() > 0 {
        assert forall|i: int| 0 <= i < rest.len() - 1 implies step_writes(
            #[trigger] rest[i],
        ) =~= Seq::<MutationModel>::empty() by {
            assert(rest[i] == steps[i]);
        }
        lemma_one_write(rest);
        assert(rest.last() == steps[steps.len() - 2]);
    }
    assert(hook_writes(rest) =~= Seq::<MutationModel>::empty());
    assert(hook_writes(steps) =~= step_writes(steps.last()));
}

/// Whether `write` records a hook that ended like this: as completed or as
/// failed, with the reason of the failure.
pub open spec fn records_outcome(
    write: MutationModel,
    hook: HookModel,
    outcome: Result<Json, DevkitdErrorModel>,
) -> bool {
    match write {
        MutationModel::RecordHookRun(run) => {
            &&& run.hook == hook.hook
            &&& outcome is Ok <==> run.status == HookStatus::Completed
            &&& outcome is Err <==> run.status == HookStatus::Failed
            &&& run.failure_reason == (match outcome {
                Ok(_) => None,
                Err(e) => Some(devkitd_error_text(e)),
            })
        },
        _ => false,
    }
}

/// Every hook whose run could be loaded leaves exactly one record, however
/// early it fails: its last step stores it, and it tells how the hook ended.
pub proof fn each_hook_leaves_one_record(
    record: RunRecordModel,
    hook: HookModel,
    phase: HookPhaseModel,
    course: HookCourse,
)
    ensures
        ({
            let steps = hook_steps(record, hook, phase, course);
            let writes = hook_writes(steps);
            &&& steps.last() matches HookStepModel::Finish { write, outcome }
            &&& writes.len() == 1
            &&& write == Some(writes[0])
            &&& records_outcome(writes[0], hook, outcome)
        }),
{
    let steps = hook_steps(record, hook, phase, course);
    lemma_one_write(steps);
}

/// The record of a hook has its arguments once they are resolved, and its job
/// once it was accepted.
pub proof fn hook_record_keeps_what_was_known(
    record: RunRecordModel,
    hook: HookModel,
    phase: HookPhaseModel,
    course: HookCourse,
)
    ensures
        ({
            let writes = hook_writes(hook_steps(record, hook, phase, course));
            &&& writes.len() == 1
            &&& writes[0] matches MutationModel::RecordHookRun(run)
            &&& run.args_resolved == (match hook_job(record, hook) {
                Ok(request) => Some(request.args),
                Err(_) => None,
            })
            &&& run.job_id == (match (hook_job(record, hook), course.started) {
                (Ok(_), Ok(handle)) => Some(handle),
                _ => None,
            })
        }),
{
    lemma_one_write(hook_steps(record, hook, phase, course));
}

/// What comes next in a batch of hooks.
#[derive(Debug)]
pub enum HookBatchStep {
    /// Run the hook at this position.
    Run(usize),
    /// The batch has ended, by a failure for this reason where there is one.
    Finish(Option<String>),
}

/// What a [`HookBatchStep`] denotes.
#[verifier::ext_equal]
pub enum BatchStepModel {
    Run(int),
    Finish(Option<Seq<char>>),
}

impl View for HookBatchStep {
    type V = BatchStepModel;

    open spec fn view(&self) -> BatchStepModel {
        match self {
            HookBatchStep::Run(i) => BatchStepModel::Run(*i as int),
            HookBatchStep::Finish(reason) => BatchStepModel::Finish(reason.deep_view()),
        }
    }
}

/// Whether the hook at this position keeps the rest of its batch from running
/// with this failure.
pub open spec fn ends_batch(
    phase: HookPhaseModel,
    hooks: Seq<HookModel>,
    i: int,
    failure: Option<DevkitdErrorModel>,
) -> bool {
    failure is Some && aborts(phase, hooks[i].always_continue)
}

/// What comes next after the first `done` hooks of a batch, the last of which
/// failed like this or did not.
pub open spec fn batch_step(
    phase: HookPhaseModel,
    hooks: Seq<HookModel>,
    done: int,
    failure: Option<DevkitdErrorModel>,
) -> BatchStepModel {
    if done > 0 && ends_batch(phase, hooks, done - 1, failure) {
        BatchStepModel::Finish(Some(devkitd_error_text(failure->Some_0)))
    } else if done < hooks.len() {
        BatchStepModel::Run(done)
    } else {
        BatchStepModel::Finish(None)
    }
}

/// Decides what comes next in a batch of hooks: `done` of them have run, and
/// `failure` is that of the last one.
pub fn hook_batch_step(
    phase: &HookPhase,
    hooks: &Vec<HookCall>,
    done: usize,
    failure: Option<&DevkitdError>,
) -> (r: HookBatchStep)
    requires
        done <= hooks@.len(),
    ensures
        r@ == batch_step(phase@, hooks.deep_view(), done as int, failure.deep_view()),
{
    proof {
        if done > 0 {
            assert(hooks.deep_view()[done - 1] == hooks@[done - 1]@);
        }
    }
    if done > 0 {
        if let Some(e) = failure {
            if hook_failure_aborts(phase, hooks[done - 1].always_continue) {
                return HookBatchStep::Finish(Some(e.message()));
            }
        }
    }
    if done < hooks.len() {
        HookBatchStep::Run(done)
    } else {
        HookBatchStep::Finish(None)
    }
}

/// How a batch ends that goes on after its first `done` hooks, where the hook
/// at each position fails as in `failures`: how many hooks ran, and why the
/// batch failed.
pub open spec fn batch_end(
    phase: HookPhaseModel,
    hooks: Seq<HookModel>,
    failures: Seq<Option<DevkitdErrorModel>>,
    done: int,
) -> (int, Option<Seq<char>>)
    decreases hooks.len() - done,
{
    let last = if 0 < done <= failures.len() {
        failures[done - 1]
    } else {
        None
    };
    match batch_step(phase, hooks, done, last) {
        BatchStepModel::Run(i) => if done < hooks.len() {
            batch_end(phase, hooks, failures, i + 1)
        } else {
            (done, None)
        },
        BatchStepModel::Finish(reason) => (done, reason),
    }
}

/// Whether the batch goes on after each of its first `n` hooks.
pub open spec fn goes_on(
    phase: HookPhaseModel,
    hooks: Seq<HookModel>,
    failures: Seq<Option<DevkitdErrorModel>>,
    n: int,
) -> bool {
    forall|i: int| 0 <= i < n ==> !ends_batch(phase, hooks, i, #[trigger] failures[i])
}

proof fn lemma_batch_from(
    phase: HookPhaseModel,
    hooks: Seq<HookModel>,
    failures: Seq<Option<DevkitdErrorModel>>,
    done: int,
)
    requires
        failures.len() == hooks.len(),
        0 <= done <= hooks.len(),
        done > 0 ==> goes_on(phase, hooks, failures, done - 1),
    ensures
        ({
            let (ran, reason) = batch_end(phase, hooks, failures, done);
            match reason {
                Some(text) => {
                    &&& 0 < ran <= hooks.len()
                    &&& goes_on(phase, hooks, failures, ran - 1)
                    &&& ends_batch(phase, hooks, ran - 1, failures[ran - 1])
                    &&& text == devkitd_error_text(failures[ran - 1]->Some_0)
                },
                None => ran == hooks.len() && goes_on(phase, hooks, failures, ran),
            }
        }),
    decreases hooks.len() - done,
{
    if done > 0 && ends_batch(phase, hooks, done - 1, failures[done - 1]) {
    } else {
        assert(goes_on(phase, hooks, failures, done));
        if done < hooks.len() {
            lemma_batch_from(phase, hooks, failures, done + 1);
        }
    }
}

/// The hooks of a batch run in order, up to and with the first whose failure
/// ends the batch; the batch fails for its reason. Where there is none, all of
/// them run and the batch does not fail.
pub proof fn hooks_run_until_one_ends_the_batch(
    phase: HookPhaseModel,
    hooks: Seq<HookModel>,
    failures: Seq<Option<DevkitdErrorModel>>,
)
    requires
        failures.len() == hooks.len(),
    ensures
        ({
            let (ran, reason) = batch_end(phase, hooks, failures, 0);
            match reason {
                Some(text) => {
                    &&& 0 < ran <= hooks.len()
                    &&& goes_on(phase, hooks, failures, ran - 1)
                    &&& ends_batch(phase, hooks, ran - 1, failures[ran - 1])
                    &&& text == devkitd_error_text(failures[ran - 1]->Some_0)
                },
                None => ran == hooks.len() && goes_on(phase, hooks, failures, ran),
            }
        }),
{
    lemma_batch_from(phase, hooks, failures, 0);
}

/// Every hook after a run runs, and none of them fails the batch.
pub proof fn hooks_after_a_run_all_run(
    hooks: Seq<HookModel>,
    failures: Seq<Option<DevkitdErrorModel>>,
)
    requires
        failures.len() == hooks.len(),
    ensures
        batch_end(HookPhaseModel::AfterRun, hooks, failures, 0) == (
            hooks.len() as int,
            None::<Seq<char>>,
        ),
{
    lemma_batch_from(HookPhaseModel::AfterRun, hooks, failures, 0);
}

/// The job of a hook that was accepted is waited for until the timeout that it
/// was started with, counted from then; without one it is waited for as long as
/// it takes.
pub proof fn hook_is_waited_for_until_its_timeout(
    hook: HookModel,
    phase: HookPhaseModel,
    started_at: Timestamp,
    request: StartRequestModel,
    handle: Seq<char>,
    now: Timestamp,
    seconds: u64,
)
    requires
        now >= 0,
        now + seconds * 1_000_000_000 <= i128::MAX,
    ensures
        ({
            let step = hook_after_start(hook, phase, started_at, request, Ok(handle), now);
            &&& request.timeout_seconds == Some(seconds) ==> step == (HookStepModel::Wait {
                handle,
                deadline: Some((now + seconds * 1_000_000_000) as i128),
            })
            &&& request.timeout_seconds is None ==> step == (HookStepModel::Wait {
                handle,
                deadline: None,
            })
        }),
{
}

/// The job of a hook is started exactly where its run could be loaded and its
/// arguments could be resolved, and as they were.
pub proof fn hook_starts_its_job(
    record: RunRecordModel,
    hook: HookModel,
    phase: HookPhaseModel,
    started_at: Timestamp,
    now: Timestamp,
)
    ensures
        match hook_job(record, hook) {
            Ok(request) => hook_beginning(Some(record), hook, phase, started_at, now)
                == HookStepModel::Start(request),
            Err(_) => hook_beginning(Some(record), hook, phase, started_at, now) is Finish,
        },
        hook_beginning(None, hook, phase, started_at, now) == (HookStepModel::Finish {
            write: None,
            outcome: Err(DevkitdErrorModel::Interrupted),
        }),
{
}

/// Which failures end a batch: before the run that of a hook which does not say
/// that it always continues, at a step that of any hook, after the run none.
pub proof fn failures_end_a_batch_by_its_phase(
    hooks: Seq<HookModel>,
    i: int,
    e: DevkitdErrorModel,
    step_id: Seq<char>,
    phase: HookPhaseModel,
)
    ensures
        ends_batch(HookPhaseModel::BeforeRun, hooks, i, Some(e)) <==> !hooks[i].always_continue,
        ends_batch(HookPhaseModel::BeforeStep { step_id }, hooks, i, Some(e)),
        ends_batch(HookPhaseModel::AfterStep { step_id }, hooks, i, Some(e)),
        !ends_batch(HookPhaseModel::AfterRun, hooks, i, Some(e)),
        !ends_batch(phase, hooks, i, None),
{
}

/// Before a run all hooks run where each of them that fails always continues,
/// and the batch does not fail.
pub proof fn tolerant_hooks_all_run(
    hooks: Seq<HookModel>,
    failures: Seq<Option<DevkitdErrorModel>>,
)
    requires
        failures.len() == hooks.len(),
        forall|i: int|
            0 <= i < hooks.len() && (#[trigger] failures[i]) is Some ==> hooks[i].always_continue,
    ensures
        batch_end(HookPhaseModel::BeforeRun, hooks, failures, 0) == (
            hooks.len() as int,
            None::<Seq<char>>,
        ),
{
    lemma_batch_from(HookPhaseModel::BeforeRun, hooks, failures, 0);
}

} // verus!
