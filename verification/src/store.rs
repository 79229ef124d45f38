//! A store of runs in memory. A batch of writes is applied as a whole or not
//! at all, and the events of a run are numbered without a gap.
use crate::copy::{extend, put, Duplicate};
use crate::ports::{
    HookRunModel, HookRunRecord, Mutation, MutationModel, NewRun, NewRunModel, RunFilter, RunId,
    RunRecord, RunRecordModel, RunSummary, RunSummaryModel, RunTree, StepRecord, StepRecordModel,
    StoreError, StoreErrorModel, StoredEventModel, StoredRunEvent,
};
use crate::run::types::{RunPhase, StepRunModel, Timestamp};
use crate::text::{cat2, cat5, decimal, decimal_text, same_text};
use crate::wire;
use vstd::prelude::*;

verus! {

/// Whether a record is of this attempt at this step.
pub open spec fn is_attempt(step: StepRecordModel, id: Seq<char>, attempt: u32) -> bool {
    step.run.step_id == id && step.run.attempt == attempt
}

/// The first record of an attempt at a step.
pub open spec fn find_attempt(steps: Seq<StepRecordModel>, id: Seq<char>, attempt: u32) -> Option<
    StepRecordModel,
>
    decreases steps.len(),
{
    if steps.len() == 0 {
        None
    } else if is_attempt(steps[0], id, attempt) {
        Some(steps[0])
    } else {
        find_attempt(steps.drop_first(), id, attempt)
    }
}

/// `steps` with the first record of an attempt replaced.
pub open spec fn set_attempt(
    steps: Seq<StepRecordModel>,
    id: Seq<char>,
    attempt: u32,
    step: StepRecordModel,
) -> Seq<StepRecordModel>
    decreases steps.len(),
{
    if steps.len() == 0 {
        steps
    } else if is_attempt(steps[0], id, attempt) {
        seq![step] + steps.drop_first()
    } else {
        seq![steps[0]] + set_attempt(steps.drop_first(), id, attempt, step)
    }
}

/// `steps` without the records of an attempt.
pub open spec fn without_attempt(steps: Seq<StepRecordModel>, id: Seq<char>, attempt: u32) -> Seq<
    StepRecordModel,
>
    decreases steps.len(),
{
    if steps.len() == 0 {
        Seq::empty()
    } else if is_attempt(steps.last(), id, attempt) {
        without_attempt(steps.drop_last(), id, attempt)
    } else {
        without_attempt(steps.drop_last(), id, attempt).push(steps.last())
    }
}

/// The error of a write to an attempt that has no record.
pub open spec fn missing_step(run_id: Seq<char>, id: Seq<char>, attempt: u32) -> StoreErrorModel {
    StoreErrorModel::NotFound(
        "step not found in run "@ + run_id + ": "@ + id + " attempt "@ + decimal(attempt as nat),
    )
}

/// A record with one attempt at a step changed.
pub open spec fn step_changed(
    record: RunRecordModel,
    id: Seq<char>,
    attempt: u32,
    change: spec_fn(StepRecordModel) -> StepRecordModel,
) -> Result<RunRecordModel, StoreErrorModel> {
    match find_attempt(record.steps, id, attempt) {
        Some(step) => Ok(
            RunRecordModel {
                steps: set_attempt(record.steps, id, attempt, change(step)),
                ..record
            },
        ),
        None => Err(missing_step(record.run_id, id, attempt)),
    }
}

/// A record after one write.
pub open spec fn applied(record: RunRecordModel, m: MutationModel) -> Result<
    RunRecordModel,
    StoreErrorModel,
> {
    match m {
        MutationModel::InsertStepRun(step) => Ok(
            RunRecordModel {
                steps: without_attempt(record.steps, step.run.step_id, step.run.attempt).push(step),
                ..record
            },
        ),
        MutationModel::SetStepStatus { step_id, attempt, status } => step_changed(
            record,
            step_id,
            attempt,
            |s: StepRecordModel|
                StepRecordModel { run: StepRunModel { status, ..s.run }, ..s },
        ),
        MutationModel::SetStepOutput { step_id, attempt, output } => step_changed(
            record,
            step_id,
            attempt,
            |s: StepRecordModel|
                StepRecordModel { run: StepRunModel { output: Some(output), ..s.run }, ..s },
        ),
        MutationModel::SetJobId { step_id, attempt, job_id } => step_changed(
            record,
            step_id,
            attempt,
            |s: StepRecordModel| StepRecordModel { job_id, ..s },
        ),
        MutationModel::SetApproval { step_id, attempt, approval_status, comment, feedback } =>
            step_changed(
            record,
            step_id,
            attempt,
            |s: StepRecordModel|
                StepRecordModel {
                    run: StepRunModel {
                        approval_status: Some(approval_status),
                        approval_comment: comment,
                        feedback,
                        ..s.run
                    },
                    ..s
                },
        ),
        MutationModel::SetStepFailure { step_id, attempt, reason } => step_changed(
            record,
            step_id,
            attempt,
            |s: StepRecordModel|
                StepRecordModel { run: StepRunModel { failure_reason: Some(reason), ..s.run }, ..s },
        ),
        MutationModel::SetStepFailureDetail { step_id, attempt, detail } => step_changed(
            record,
            step_id,
            attempt,
            |s: StepRecordModel| StepRecordModel { failure_detail: Some(detail), ..s },
        ),
        MutationModel::SetStepTimestamps { step_id, attempt, started_at, completed_at } =>
            step_changed(
            record,
            step_id,
            attempt,
            |s: StepRecordModel|
                StepRecordModel { run: StepRunModel { started_at, completed_at, ..s.run }, ..s },
        ),
        MutationModel::SetChildRunId { step_id, attempt, child_run_id } => step_changed(
            record,
            step_id,
            attempt,
            |s: StepRecordModel|
                StepRecordModel { run: StepRunModel { child_run_id, ..s.run }, ..s },
        ),
        MutationModel::SetRunPhase(phase) => Ok(RunRecordModel { phase, ..record }),
        MutationModel::SetRunCancelled => Ok(RunRecordModel { cancelled: true, ..record }),
        MutationModel::RecordHookRun(_) => Ok(record),
        MutationModel::AppendEvent(_) => Ok(record),
    }
}

/// A record after a batch of writes; the first that fails counts.
pub open spec fn batch_applied(record: RunRecordModel, batch: Seq<MutationModel>) -> Result<
    RunRecordModel,
    StoreErrorModel,
>
    decreases batch.len(),
{
    if batch.len() == 0 {
        Ok(record)
    } else {
        match batch_applied(record, batch.drop_last()) {
            Err(e) => Err(e),
            Ok(done) => applied(done, batch.last()),
        }
    }
}

/// What a result of a write to a record denotes.
pub open spec fn write_outcome(r: Result<(), StoreError>, record: RunRecord) -> Result<
    RunRecordModel,
    StoreErrorModel,
> {
    match r {
        Ok(_) => Ok(record@),
        Err(e) => Err(e@),
    }
}

proof fn lemma_set_attempt(steps: Seq<StepRecordModel>, id: Seq<char>, attempt: u32, i: int)
    requires
        0 <= i < steps.len(),
        is_attempt(steps[i], id, attempt),
        forall|j: int| 0 <= j < i ==> !is_attempt(#[trigger] steps[j], id, attempt),
    ensures
        forall|step: StepRecordModel| #[trigger]
            set_attempt(steps, id, attempt, step) == steps.update(i, step),
    decreases steps.len(),
{
    assert forall|step: StepRecordModel| #[trigger] set_attempt(steps, id, attempt, step)
        == steps.update(i, step) by {
        if i > 0 {
            let rest = steps.drop_first();
            assert(!is_attempt(steps[0], id, attempt));
            assert forall|j: int| 0 <= j < i - 1 implies !is_attempt(
                #[trigger] rest[j],
                id,
                attempt,
            ) by {
                assert(!is_attempt(steps[j + 1], id, attempt));
            }
            lemma_set_attempt(rest, id, attempt, i - 1);
            assert(set_attempt(rest, id, attempt, step) == rest.update(i - 1, step));
        }
        assert(set_attempt(steps, id, attempt, step) =~= steps.update(i, step));
    }
}

/// Where the record of an attempt stands, or the error of a write to it.
pub(crate) fn find_step(run: &RunRecord, step_id: &str, attempt: u32) -> (r: Result<usize, StoreError>)
    ensures
        match r {
            Ok(i) => i < run.steps@.len() && find_attempt(run@.steps, step_id@, attempt) == Some(
                run@.steps[i as int],
            ) && (forall|step: StepRecordModel| #[trigger]
                set_attempt(run@.steps, step_id@, attempt, step) == run@.steps.update(
                    i as int,
                    step,
                )),
            Err(e) => find_attempt(run@.steps, step_id@, attempt) is None && e@ == missing_step(
                run.run_id@,
                step_id@,
                attempt,
            ),
        },
{
    let ghost all = run@.steps;
    let mut i: usize = 0;
    proof {
        assert(all.skip(0) =~= all);
    }
    while i < run.steps.len()
        invariant
            i <= run.steps@.len(),
            all == run@.steps,
            all == run.steps.deep_view(),
            find_attempt(all, step_id@, attempt) == find_attempt(
                all.skip(i as int),
                step_id@,
                attempt,
            ),
            forall|j: int| 0 <= j < i ==> !is_attempt(#[trigger] all[j], step_id@, attempt),
        decreases run.steps@.len() - i,
    {
        proof {
            assert(all.skip(i as int).drop_first() =~= all.skip(i + 1));
            assert(all[i as int] == run.steps@[i as int]@);
        }
        let step = &run.steps[i];
        if same_text(step.run.step_id.as_str(), step_id) && step.run.attempt == attempt {
            proof {
                lemma_set_attempt(all, step_id@, attempt, i as int);
            }
            return Ok(i);
        }
        i = i + 1;
    }
    let head = cat5("step not found in run ", run.run_id.as_str(), ": ", step_id, " attempt ");
    Err(StoreError::NotFound(cat2(head.as_str(), decimal_text(attempt as u64).as_str())))
}

fn drop_attempt(steps: &Vec<StepRecord>, step_id: &str, attempt: u32) -> (r: Vec<StepRecord>)
    ensures
        r.deep_view() == without_attempt(steps.deep_view(), step_id@, attempt),
{
    let ghost all = steps.deep_view();
    let mut out: Vec<StepRecord> = Vec::new();
    let mut i: usize = 0;
    proof {
        assert(out.deep_view() =~= without_attempt(all.take(0), step_id@, attempt));
    }
    while i < steps.len()
        invariant
            i <= steps@.len(),
            all == steps.deep_view(),
            out.deep_view() == without_attempt(all.take(i as int), step_id@, attempt),
        decreases steps@.len() - i,
    {
        proof {
            assert(all.take(i + 1).drop_last() =~= all.take(i as int));
            assert(all[i as int] == steps@[i as int]@);
        }
        let step = &steps[i];
        if !(same_text(step.run.step_id.as_str(), step_id) && step.run.attempt == attempt) {
            put(&mut out, step.duplicate());
        }
        i = i + 1;
    }
    proof {
        assert(all.take(i as int) =~= all);
    }
    out
}

/// Applies one write to the record of a run. A write to an attempt that has no
/// record fails, and the record stays as it was.
pub fn apply_mutation(run: &mut RunRecord, m: Mutation) -> (r: Result<(), StoreError>)
    ensures
        write_outcome(r, *final(run)) == applied(old(run)@, m@),
        r is Err ==> *final(run) == *old(run),
{
    let ghost before = run@;
    match m {
        Mutation::InsertStepRun(step) => {
            let mut steps = drop_attempt(
                &run.steps,
                step.run.step_id.as_str(),
                step.run.attempt,
            );
            put(&mut steps, step);
            run.steps = steps;
        },
        Mutation::SetStepStatus { step_id, attempt, status } => {
            let i: usize = match find_step(run, step_id.as_str(), attempt) {
                Ok(i) => i,
                Err(e) => {
                    return Err(e);
                },
            };
            let step = &mut run.steps[i];
            step.run.status = status;
            proof {
                assert(run.steps.deep_view() =~= before.steps.update(
                    i as int,
                    run.steps@[i as int]@,
                ));
            }
        },
        Mutation::SetStepOutput { step_id, attempt, output } => {
            let i: usize = match find_step(run, step_id.as_str(), attempt) {
                Ok(i) => i,
                Err(e) => {
                    return Err(e);
                },
            };
            let step = &mut run.steps[i];
            step.run.output = Some(output);
            proof {
                assert(run.steps.deep_view() =~= before.steps.update(
                    i as int,
                    run.steps@[i as int]@,
                ));
            }
        },
        Mutation::SetJobId { step_id, attempt, job_id } => {
            let i: usize = match find_step(run, step_id.as_str(), attempt) {
                Ok(i) => i,
                Err(e) => {
                    return Err(e);
                },
            };
            let step = &mut run.steps[i];
            step.job_id = job_id;
            proof {
                assert(run.steps.deep_view() =~= before.steps.update(
                    i as int,
                    run.steps@[i as int]@,
                ));
            }
        },
        Mutation::SetApproval { step_id, attempt, approval_status, comment, feedback } => {
            let i: usize = match find_step(run, step_id.as_str(), attempt) {
                Ok(i) => i,
                Err(e) => {
                    return Err(e);
                },
            };
            let step = &mut run.steps[i];
            step.run.approval_status = Some(approval_status);
            step.run.approval_comment = comment;
            step.run.feedback = feedback;
            proof {
                assert(run.steps.deep_view() =~= before.steps.update(
                    i as int,
                    run.steps@[i as int]@,
                ));
            }
        },
        Mutation::SetStepFailure { step_id, attempt, reason } => {
            let i: usize = match find_step(run, step_id.as_str(), attempt) {
                Ok(i) => i,
                Err(e) => {
                    return Err(e);
                },
            };
            let step = &mut run.steps[i];
            step.run.failure_reason = Some(reason);
            proof {
                assert(run.steps.deep_view() =~= before.steps.update(
                    i as int,
                    run.steps@[i as int]@,
                ));
            }
        },
        Mutation::SetStepFailureDetail { step_id, attempt, detail } => {
            let i: usize = match find_step(run, step_id.as_str(), attempt) {
                Ok(i) => i,
                Err(e) => {
                    return Err(e);
                },
            };
            let step = &mut run.steps[i];
            step.failure_detail = Some(detail);
            proof {
                assert(run.steps.deep_view() =~= before.steps.update(
                    i as int,
                    run.steps@[i as int]@,
                ));
            }
        },
        Mutation::SetStepTimestamps { step_id, attempt, started_at, completed_at } => {
            let i: usize = match find_step(run, step_id.as_str(), attempt) {
                Ok(i) => i,
                Err(e) => {
                    return Err(e);
                },
            };
            let step = &mut run.steps[i];
            step.run.started_at = started_at;
            step.run.completed_at = completed_at;
            proof {
                assert(run.steps.deep_view() =~= before.steps.update(
                    i as int,
                    run.steps@[i as int]@,
                ));
            }
        },
        Mutation::SetChildRunId { step_id, attempt, child_run_id } => {
            let i: usize = match find_step(run, step_id.as_str(), attempt) {
                Ok(i) => i,
                Err(e) => {
                    return Err(e);
                },
            };
            let step = &mut run.steps[i];
            step.run.child_run_id = child_run_id;
            proof {
                assert(run.steps.deep_view() =~= before.steps.update(
                    i as int,
                    run.steps@[i as int]@,
                ));
            }
        },
        Mutation::SetRunPhase(phase) => {
            run.phase = phase;
        },
        Mutation::SetRunCancelled => {
            run.cancelled = true;
        },
        Mutation::RecordHookRun(_) => {},
        Mutation::AppendEvent(_) => {},
    }
    Ok(())
}

proof fn lemma_batch_stops(record: RunRecordModel, batch: Seq<MutationModel>, i: int)
    requires
        0 <= i <= batch.len(),
        batch_applied(record, batch.take(i)) is Err,
    ensures
        batch_applied(record, batch) == batch_applied(record, batch.take(i)),
    decreases batch.len() - i,
{
    if i < batch.len() {
        assert(batch.take(i + 1).drop_last() =~= batch.take(i));
        lemma_batch_stops(record, batch, i + 1);
    } else {
        assert(batch.take(i) =~= batch);
    }
}

/// Applies a batch of writes to a copy of the record of a run.
pub fn apply_batch(run: &RunRecord, batch: &Vec<Mutation>) -> (r: Result<RunRecord, StoreError>)
    ensures
        (match r {
            Ok(done) => Ok(done@),
            Err(e) => Err(e@),
        }) == batch_applied(run@, batch.deep_view()),
{
    let ghost all = batch.deep_view();
    let mut scratch = run.duplicate();
    let mut i: usize = 0;
    proof {
        assert(all.take(0) =~= Seq::<MutationModel>::empty());
    }
    while i < batch.len()
        invariant
            i <= batch@.len(),
            all == batch.deep_view(),
            batch_applied(run@, all.take(i as int)) == Ok::<RunRecordModel, StoreErrorModel>(
                scratch@,
            ),
        decreases batch@.len() - i,
    {
        proof {
            assert(all.take(i + 1).drop_last() =~= all.take(i as int));
            assert(all[i as int] == batch@[i as int]@);
        }
        match apply_mutation(&mut scratch, batch[i].duplicate()) {
            Ok(_) => {},
            Err(e) => {
                proof {
                    lemma_batch_stops(run@, all, i + 1);
                }
                return Err(e);
            },
        }
        i = i + 1;
    }
    proof {
        assert(all.take(i as int) =~= all);
    }
    Ok(scratch)
}

/// The hooks that a batch records.
pub open spec fn batch_hooks(batch: Seq<MutationModel>) -> Seq<HookRunModel>
    decreases batch.len(),
{
    if batch.len() == 0 {
        Seq::empty()
    } else {
        match batch.last() {
            MutationModel::RecordHookRun(h) => batch_hooks(batch.drop_last()).push(h),
            _ => batch_hooks(batch.drop_last()),
        }
    }
}

/// The number of the event that comes after `events`.
pub open spec fn next_sequence(events: Seq<StoredEventModel>) -> int {
    if events.len() == 0 {
        1
    } else {
        events.last().sequence + 1
    }
}

/// The events of a run after a batch: every event of the batch gets the next
/// number.
pub open spec fn with_events(events: Seq<StoredEventModel>, batch: Seq<MutationModel>) -> Seq<
    StoredEventModel,
>
    decreases batch.len(),
{
    if batch.len() == 0 {
        events
    } else {
        let before = with_events(events, batch.drop_last());
        match batch.last() {
            MutationModel::AppendEvent(e) => before.push(
                StoredEventModel {
                    sequence: next_sequence(before) as u64,
                    event_type: e.event_type,
                    step_id: e.step_id,
                    timestamp: e.timestamp,
                    payload: e.payload,
                },
            ),
            _ => before,
        }
    }
}

/// Whether the events are numbered from 1 without a gap.
pub open spec fn contiguous(events: Seq<StoredEventModel>) -> bool {
    forall|i: int| 0 <= i < events.len() ==> (#[trigger] events[i]).sequence == i + 1
}

/// A batch keeps the numbers of a run's events without a gap and leaves the
/// events that were there as they were.
pub proof fn batch_keeps_events_contiguous(
    events: Seq<StoredEventModel>,
    batch: Seq<MutationModel>,
)
    requires
        contiguous(events),
        events.len() + batch.len() <= u64::MAX,
    ensures
        contiguous(with_events(events, batch)),
        events.len() <= with_events(events, batch).len() <= events.len() + batch.len(),
        with_events(events, batch).take(events.len() as int) == events,
    decreases batch.len(),
{
    if batch.len() > 0 {
        batch_keeps_events_contiguous(events, batch.drop_last());
        let before = with_events(events, batch.drop_last());
        if before.len() > 0 {
            assert(before[before.len() - 1].sequence == before.len());
        }
        assert(with_events(events, batch).take(events.len() as int) =~= before.take(
            events.len() as int,
        ));
    } else {
        assert(events.take(events.len() as int) =~= events);
    }
}

fn collect_hooks(batch: &Vec<Mutation>) -> (r: Vec<HookRunRecord>)
    ensures
        r.deep_view() == batch_hooks(batch.deep_view()),
{
    let ghost all = batch.deep_view();
    let mut out: Vec<HookRunRecord> = Vec::new();
    let mut i: usize = 0;
    proof {
        assert(out.deep_view() =~= batch_hooks(all.take(0)));
    }
    while i < batch.len()
        invariant
            i <= batch@.len(),
            all == batch.deep_view(),
            out.deep_view() == batch_hooks(all.take(i as int)),
        decreases batch@.len() - i,
    {
        proof {
            assert(all.take(i + 1).drop_last() =~= all.take(i as int));
            assert(all[i as int] == batch@[i as int]@);
        }
        match &batch[i] {
            Mutation::RecordHookRun(h) => {
                put(&mut out, h.duplicate());
            },
            _ => {},
        }
        i = i + 1;
    }
    proof {
        assert(all.take(i as int) =~= all);
    }
    out
}

fn number_events(events: &mut Vec<StoredRunEvent>, batch: &Vec<Mutation>)
    requires
        contiguous(old(events).deep_view()),
        old(events)@.len() + batch@.len() <= u64::MAX,
    ensures
        final(events).deep_view() == with_events(old(events).deep_view(), batch.deep_view()),
{
    let ghost start = events.deep_view();
    let ghost all = batch.deep_view();
    let mut i: usize = 0;
    while i < batch.len()
        invariant
            i <= batch@.len(),
            all == batch.deep_view(),
            contiguous(start),
            start.len() + batch@.len() <= u64::MAX,
            events.deep_view() == with_events(start, all.take(i as int)),
        decreases batch@.len() - i,
    {
        proof {
            assert(all.take(i + 1).drop_last() =~= all.take(i as int));
            assert(all[i as int] == batch@[i as int]@);
            batch_keeps_events_contiguous(start, all.take(i as int));
            if events@.len() > 0 {
                assert(events.deep_view()[events@.len() - 1] == events@[events@.len() - 1]@);
            }
        }
        match &batch[i] {
            Mutation::AppendEvent(e) => {
                let sequence: u64 = if events.len() == 0 {
                    1
                } else {
                    events[events.len() - 1].sequence + 1
                };
                put(
                    events,
                    StoredRunEvent {
                        sequence,
                        event_type: e.event_type,
                        step_id: e.step_id.duplicate(),
                        timestamp: e.timestamp,
                        payload: e.payload.duplicate(),
                    },
                );
            },
            _ => {},
        }
        i = i + 1;
    }
    proof {
        assert(all.take(i as int) =~= all);
    }
}

/// A run with its hooks and its events.
#[derive(Debug)]
pub struct StoredRun {
    pub record: RunRecord,
    pub hooks: Vec<HookRunRecord>,
    pub events: Vec<StoredRunEvent>,
    /// The highest number of an event that was handed on.
    pub pushed_through: u64,
}

/// What a [`StoredRun`] denotes.
#[verifier::ext_equal]
pub struct StoredRunModel {
    pub record: RunRecordModel,
    pub hooks: Seq<HookRunModel>,
    pub events: Seq<StoredEventModel>,
    pub pushed_through: u64,
}

impl View for StoredRun {
    type V = StoredRunModel;

    open spec fn view(&self) -> StoredRunModel {
        StoredRunModel {
            record: self.record@,
            hooks: self.hooks.deep_view(),
            events: self.events.deep_view(),
            pushed_through: self.pushed_through,
        }
    }
}

impl DeepView for StoredRun {
    type V = StoredRunModel;

    open spec fn deep_view(&self) -> StoredRunModel {
        self@
    }
}

impl Duplicate for StoredRun {
    fn duplicate(&self) -> (r: Self) {
        StoredRun {
            record: self.record.duplicate(),
            hooks: self.hooks.duplicate(),
            events: self.events.duplicate(),
            pushed_through: self.pushed_through,
        }
    }
}

impl Clone for StoredRun {
    fn clone(&self) -> (r: Self)
        ensures
            r@ == self@,
    {
        self.duplicate()
    }
}

/// Where the run `id` stands.
pub open spec fn run_index(runs: Seq<StoredRunModel>, id: Seq<char>) -> Option<int>
    decreases runs.len(),
{
    if runs.len() == 0 {
        None
    } else if runs[0].record.run_id == id {
        Some(0)
    } else {
        match run_index(runs.drop_first(), id) {
            Some(i) => Some(i + 1),
            None => None,
        }
    }
}

/// Where the run with the idempotency key `key` stands.
pub open spec fn key_index(runs: Seq<StoredRunModel>, key: Seq<char>) -> Option<int>
    decreases runs.len(),
{
    if runs.len() == 0 {
        None
    } else if runs[0].record.idempotency_key == Some(key) {
        Some(0)
    } else {
        match key_index(runs.drop_first(), key) {
            Some(i) => Some(i + 1),
            None => None,
        }
    }
}

/// The run that has the idempotency key `key`.
pub open spec fn key_owner(runs: Seq<StoredRunModel>, key: Seq<char>) -> Option<Seq<char>> {
    match key_index(runs, key) {
        Some(i) => Some(runs[i].record.run_id),
        None => None,
    }
}

/// Whether `later` still has every run of `runs`, in its place, with its id and
/// its key.
pub open spec fn keeps_runs(runs: Seq<StoredRunModel>, later: Seq<StoredRunModel>) -> bool {
    &&& runs.len() <= later.len()
    &&& forall|i: int|
        0 <= i < runs.len() ==> (#[trigger] later[i]).record.run_id == runs[i].record.run_id
            && later[i].record.idempotency_key == runs[i].record.idempotency_key
}

/// Whether no two runs have an id or an idempotency key in common, and the
/// events of every run are numbered without a gap.
pub open spec fn well_formed(runs: Seq<StoredRunModel>) -> bool {
    &&& forall|i: int, j: int|
        0 <= i < j < runs.len() ==> (#[trigger] runs[i]).record.run_id != (
        #[trigger] runs[j]).record.run_id
    &&& forall|i: int, j: int|
        0 <= i < j < runs.len() && (#[trigger] runs[i]).record.idempotency_key is Some
            ==> runs[i].record.idempotency_key != (#[trigger] runs[j]).record.idempotency_key
    &&& forall|i: int| 0 <= i < runs.len() ==> contiguous((#[trigger] runs[i]).events)
}

/// A new run.
pub open spec fn created(new: NewRunModel, run_id: Seq<char>, now: Timestamp) -> StoredRunModel {
    StoredRunModel {
        record: RunRecordModel {
            run_id,
            flow_name: new.flow_name,
            flow_version: new.flow_version,
            definition: new.definition,
            inputs: new.inputs,
            trigger: new.trigger,
            phase: RunPhase::Running,
            cancelled: false,
            created_at: now,
            updated_at: now,
            idempotency_key: new.idempotency_key,
            steps: Seq::empty(),
        },
        hooks: Seq::empty(),
        events: Seq::empty(),
        pushed_through: 0,
    }
}

/// The runs with a new one under this id. A key that another run has is
/// refused.
pub open spec fn store_created(
    runs: Seq<StoredRunModel>,
    new: NewRunModel,
    run_id: Seq<char>,
    now: Timestamp,
) -> Result<Seq<StoredRunModel>, StoreErrorModel> {
    match new.idempotency_key {
        Some(key) => if key_index(runs, key) is Some {
            Err(StoreErrorModel::Duplicate(key))
        } else {
            Ok(runs.push(created(new, run_id, now)))
        },
        None => Ok(runs.push(created(new, run_id, now))),
    }
}

/// A run after a batch that could be applied.
pub open spec fn stored_after(
    run: StoredRunModel,
    done: RunRecordModel,
    batch: Seq<MutationModel>,
    now: Timestamp,
) -> StoredRunModel {
    StoredRunModel {
        record: RunRecordModel { updated_at: now, ..done },
        hooks: run.hooks + batch_hooks(batch),
        events: with_events(run.events, batch),
        pushed_through: run.pushed_through,
    }
}

/// The runs after a batch for one of them, or why it was refused.
pub open spec fn store_applied(
    runs: Seq<StoredRunModel>,
    run_id: Seq<char>,
    batch: Seq<MutationModel>,
    now: Timestamp,
) -> Result<Seq<StoredRunModel>, StoreErrorModel> {
    match run_index(runs, run_id) {
        None => Err(StoreErrorModel::NotFound(run_id)),
        Some(i) => match batch_applied(runs[i].record, batch) {
            Err(e) => Err(e),
            Ok(done) => Ok(runs.update(i, stored_after(runs[i], done, batch, now))),
        },
    }
}

/// The entry of a run in a list of runs.
pub open spec fn summary_of(record: RunRecordModel) -> RunSummaryModel {
    RunSummaryModel {
        run_id: record.run_id,
        flow_name: record.flow_name,
        flow_version: record.flow_version,
        phase: record.phase,
        created_at: wire::Timestamp(record.created_at),
        updated_at: wire::Timestamp(record.updated_at),
    }
}

/// Whether a run passes a filter.
pub open spec fn passes(
    record: RunRecordModel,
    flow_name: Option<Seq<char>>,
    phase: Option<RunPhase>,
) -> bool {
    (flow_name matches Some(n) ==> record.flow_name == n) && (phase matches Some(p)
        ==> record.phase == p)
}

/// A list of runs, newest first, with one more; it goes behind those that are
/// as new.
pub open spec fn newest_with(list: Seq<RunSummaryModel>, x: RunSummaryModel) -> Seq<RunSummaryModel>
    decreases list.len(),
{
    if list.len() == 0 {
        seq![x]
    } else if list[0].created_at.0 < x.created_at.0 {
        seq![x] + list
    } else {
        seq![list[0]] + newest_with(list.drop_first(), x)
    }
}

/// The runs that pass a filter, newest first.
pub open spec fn listed(
    runs: Seq<StoredRunModel>,
    flow_name: Option<Seq<char>>,
    phase: Option<RunPhase>,
) -> Seq<RunSummaryModel>
    decreases runs.len(),
{
    if runs.len() == 0 {
        Seq::empty()
    } else {
        let before = listed(runs.drop_last(), flow_name, phase);
        if passes(runs.last().record, flow_name, phase) {
            newest_with(before, summary_of(runs.last().record))
        } else {
            before
        }
    }
}

/// Whether a list of runs is newest first.
pub open spec fn newest_first(list: Seq<RunSummaryModel>) -> bool {
    forall|i: int, j: int|
        0 <= i < j < list.len() ==> (#[trigger] list[i]).created_at.0 >= (
        #[trigger] list[j]).created_at.0
}

proof fn lemma_newest_with(list: Seq<RunSummaryModel>, x: RunSummaryModel)
    requires
        newest_first(list),
    ensures
        newest_first(newest_with(list, x)),
        newest_with(list, x).len() == list.len() + 1,
        forall|y: RunSummaryModel| #[trigger]
            newest_with(list, x).contains(y) <==> list.contains(y) || y == x,
    decreases list.len(),
{
    let out = newest_with(list, x);
    if list.len() == 0 {
        assert forall|y: RunSummaryModel| #[trigger] out.contains(y) <==> (list.contains(y) || y
            == x) by {
            assert(out[0] == x);
        }
    } else if list[0].created_at.0 < x.created_at.0 {
        assert forall|i: int, j: int| 0 <= i < j < out.len() implies (
        #[trigger] out[i]).created_at.0 >= (#[trigger] out[j]).created_at.0 by {
            assert(out[j] == list[j - 1]);
            assert(list[0].created_at.0 >= list[j - 1].created_at.0 || j == 1);
            if i > 0 {
                assert(out[i] == list[i - 1]);
            }
        }
        assert forall|y: RunSummaryModel| #[trigger] out.contains(y) <==> (list.contains(y) || y
            == x) by {
            assert(out[0] == x);
            if list.contains(y) {
                assert(out[list.index_of(y) + 1] == y);
            }
            if out.contains(y) && y != x {
                assert(list[out.index_of(y) - 1] == y);
            }
        }
    } else {
        let rest = list.drop_first();
        assert forall|i: int, j: int| 0 <= i < j < rest.len() implies (
        #[trigger] rest[i]).created_at.0 >= (#[trigger] rest[j]).created_at.0 by {
            assert(list[i + 1].created_at.0 >= list[j + 1].created_at.0);
        }
        lemma_newest_with(rest, x);
        let tail = newest_with(rest, x);
        assert forall|y: RunSummaryModel| #[trigger] out.contains(y) <==> (list.contains(y) || y
            == x) by {
            if list.contains(y) {
                let i = list.index_of(y);
                if i > 0 {
                    assert(rest[i - 1] == y);
                    assert(tail.contains(y));
                    assert(out[tail.index_of(y) + 1] == y);
                } else {
                    assert(out[0] == y);
                }
            }
            if y == x {
                assert(tail.contains(y));
                assert(out[tail.index_of(y) + 1] == y);
            }
            if out.contains(y) {
                let i = out.index_of(y);
                if i > 0 {
                    assert(tail[i - 1] == y);
                    assert(tail.contains(y));
                    if y != x {
                        assert(rest.contains(y));
                        assert(list[rest.index_of(y) + 1] == y);
                    }
                } else {
                    assert(list[0] == y);
                }
            }
        }
        assert forall|i: int, j: int| 0 <= i < j < out.len() implies (
        #[trigger] out[i]).created_at.0 >= (#[trigger] out[j]).created_at.0 by {
            assert(out[j] == tail[j - 1]);
            if i > 0 {
                assert(out[i] == tail[i - 1]);
            } else {
                assert(tail.contains(tail[j - 1]));
                if tail[j - 1] != x {
                    let k = rest.index_of(tail[j - 1]);
                    assert(rest.contains(tail[j - 1]));
                    assert(list[k + 1] == tail[j - 1]);
                    assert(list[0].created_at.0 >= list[k + 1].created_at.0);
                }
            }
        }
    }
}

/// Runs are listed newest first, and the list holds exactly the runs that pass
/// the filter.
pub proof fn runs_are_listed_newest_first(
    runs: Seq<StoredRunModel>,
    flow_name: Option<Seq<char>>,
    phase: Option<RunPhase>,
)
    ensures
        newest_first(listed(runs, flow_name, phase)),
        forall|y: RunSummaryModel| #[trigger]
            listed(runs, flow_name, phase).contains(y) <==> exists|i: int|
                0 <= i < runs.len() && passes((#[trigger] runs[i]).record, flow_name, phase)
                    && summary_of(runs[i].record) == y,
    decreases runs.len(),
{
    if runs.len() > 0 {
        let rest = runs.drop_last();
        let before = listed(rest, flow_name, phase);
        let last = runs.last();
        runs_are_listed_newest_first(rest, flow_name, phase);
        if passes(last.record, flow_name, phase) {
            lemma_newest_with(before, summary_of(last.record));
        }
        assert forall|y: RunSummaryModel| #[trigger] listed(runs, flow_name, phase).contains(
            y,
        ) <==> (exists|i: int|
            0 <= i < runs.len() && passes((#[trigger] runs[i]).record, flow_name, phase)
                && summary_of(runs[i].record) == y) by {
            if before.contains(y) {
                let i = choose|i: int|
                    0 <= i < rest.len() && passes((#[trigger] rest[i]).record, flow_name, phase)
                        && summary_of(rest[i].record) == y;
                assert(runs[i] == rest[i]);
            }
            if passes(last.record, flow_name, phase) {
                assert(runs[runs.len() - 1] == last);
            }
            if exists|i: int|
                0 <= i < runs.len() && passes((#[trigger] runs[i]).record, flow_name, phase)
                    && summary_of(runs[i].record) == y {
                let i = choose|i: int|
                    0 <= i < runs.len() && passes((#[trigger] runs[i]).record, flow_name, phase)
                        && summary_of(runs[i].record) == y;
                if i < rest.len() {
                    assert(rest[i] == runs[i]);
                    assert(before.contains(y));
                }
            }
        }
    }
}

/// At most `limit` of a list.
pub open spec fn at_most<T>(list: Seq<T>, limit: Option<usize>) -> Seq<T> {
    match limit {
        Some(n) => if n < list.len() {
            list.take(n as int)
        } else {
            list
        },
        None => list,
    }
}

/// A list of records, oldest first, with one more; it goes behind those that
/// are as old.
pub open spec fn oldest_with(list: Seq<RunRecordModel>, x: RunRecordModel) -> Seq<RunRecordModel>
    decreases list.len(),
{
    if list.len() == 0 {
        seq![x]
    } else if x.created_at < list[0].created_at {
        seq![x] + list
    } else {
        seq![list[0]] + oldest_with(list.drop_first(), x)
    }
}

/// The records of the runs in `phase`, oldest first.
pub open spec fn in_phase(runs: Seq<StoredRunModel>, phase: RunPhase) -> Seq<RunRecordModel>
    decreases runs.len(),
{
    if runs.len() == 0 {
        Seq::empty()
    } else {
        let before = in_phase(runs.drop_last(), phase);
        if runs.last().record.phase == phase {
            oldest_with(before, runs.last().record)
        } else {
            before
        }
    }
}

/// The ids of the runs, ascending and each once.
pub open spec fn run_ids(runs: Seq<StoredRunModel>) -> Seq<Seq<char>>
    decreases runs.len(),
{
    if runs.len() == 0 {
        Seq::empty()
    } else {
        crate::graph::sorted_with(run_ids(runs.drop_last()), runs.last().record.run_id)
    }
}

/// The events of a run that were not handed on yet, with the id of the run.
pub open spec fn unpushed_of(run_id: Seq<char>, events: Seq<StoredEventModel>, through: u64) -> Seq<
    (Seq<char>, StoredEventModel),
>
    decreases events.len(),
{
    if events.len() == 0 {
        Seq::empty()
    } else if events.last().sequence > through {
        unpushed_of(run_id, events.drop_last(), through).push((run_id, events.last()))
    } else {
        unpushed_of(run_id, events.drop_last(), through)
    }
}

/// The events that were not handed on yet, of the runs `ids` in turn.
pub open spec fn unpushed_in(runs: Seq<StoredRunModel>, ids: Seq<Seq<char>>) -> Seq<
    (Seq<char>, StoredEventModel),
>
    decreases ids.len(),
{
    if ids.len() == 0 {
        Seq::empty()
    } else {
        unpushed_in(runs, ids.drop_last()) + match run_index(runs, ids.last()) {
            Some(i) => unpushed_of(ids.last(), runs[i].events, runs[i].pushed_through),
            None => Seq::empty(),
        }
    }
}

/// The runs with the events of one of them handed on up to `through`.
pub open spec fn marked(runs: Seq<StoredRunModel>, run_id: Seq<char>, through: u64) -> Seq<
    StoredRunModel,
> {
    match run_index(runs, run_id) {
        Some(i) => if through > runs[i].pushed_through {
            runs.update(i, StoredRunModel { pushed_through: through, ..runs[i] })
        } else {
            runs
        },
        None => runs,
    }
}

/// A store of runs in memory.
#[derive(Debug)]
pub struct InMemoryStateStore {
    pub runs: Vec<StoredRun>,
}

impl View for InMemoryStateStore {
    type V = Seq<StoredRunModel>;

    open spec fn view(&self) -> Seq<StoredRunModel> {
        self.runs.deep_view()
    }
}

proof fn lemma_run_index(runs: Seq<StoredRunModel>, id: Seq<char>)
    ensures
        match run_index(runs, id) {
            Some(i) => 0 <= i < runs.len() && runs[i].record.run_id == id,
            None => forall|i: int|
                0 <= i < runs.len() ==> (#[trigger] runs[i]).record.run_id != id,
        },
    decreases runs.len(),
{
    if runs.len() > 0 {
        let rest = runs.drop_first();
        lemma_run_index(rest, id);
        if run_index(runs, id) is None {
            assert forall|i: int| 0 <= i < runs.len() implies (#[trigger] runs[i]).record.run_id
                != id by {
                if i > 0 {
                    assert(rest[i - 1].record.run_id != id);
                }
            }
        }
    }
}

proof fn lemma_key_index(runs: Seq<StoredRunModel>, key: Seq<char>)
    ensures
        match key_index(runs, key) {
            Some(i) => 0 <= i < runs.len() && runs[i].record.idempotency_key == Some(key),
            None => forall|i: int|
                0 <= i < runs.len() ==> (#[trigger] runs[i]).record.idempotency_key != Some(key),
        },
    decreases runs.len(),
{
    if runs.len() > 0 {
        let rest = runs.drop_first();
        lemma_key_index(rest, key);
        if key_index(runs, key) is None {
            assert forall|i: int| 0 <= i < runs.len() implies (
            #[trigger] runs[i]).record.idempotency_key != Some(key) by {
                if i > 0 {
                    assert(rest[i - 1].record.idempotency_key != Some(key));
                }
            }
        }
    }
}

/// A batch changes neither the id of a run nor its idempotency key, its flow,
/// its inputs or when it was created.
pub proof fn batch_keeps_identity(record: RunRecordModel, batch: Seq<MutationModel>)
    ensures
        batch_applied(record, batch) matches Ok(done) ==> {
            &&& done.run_id == record.run_id
            &&& done.idempotency_key == record.idempotency_key
            &&& done.definition == record.definition
            &&& done.inputs == record.inputs
            &&& done.trigger == record.trigger
            &&& done.created_at == record.created_at
        },
    decreases batch.len(),
{
    if batch.len() > 0 {
        batch_keeps_identity(record, batch.drop_last());
    }
}

impl InMemoryStateStore {
    /// A store without runs.
    pub fn new() -> (r: Self)
        ensures
            r@ == Seq::<StoredRunModel>::empty(),
            well_formed(r@),
    {
        let r = InMemoryStateStore { runs: Vec::new() };
        proof {
            assert(r@ =~= Seq::<StoredRunModel>::empty());
        }
        r
    }

    fn index_of(&self, run_id: &str) -> (r: Option<usize>)
        ensures
            match r {
                Some(i) => run_index(self@, run_id@) == Some(i as int) && i < self.runs@.len(),
                None => run_index(self@, run_id@) is None,
            },
    {
        let ghost all = self@;
        let mut i: usize = 0;
        proof {
            assert(all.skip(0) =~= all);
        }
        while i < self.runs.len()
            invariant
                i <= self.runs@.len(),
                all == self@,
                all == self.runs.deep_view(),
                match run_index(all.skip(i as int), run_id@) {
                    Some(j) => run_index(all, run_id@) == Some(i + j),
                    None => run_index(all, run_id@) is None,
                },
            decreases self.runs@.len() - i,
        {
            proof {
                assert(all.skip(i as int).drop_first() =~= all.skip(i + 1));
                assert(all[i as int] == self.runs@[i as int]@);
            }
            if same_text(self.runs[i].record.run_id.as_str(), run_id) {
                return Some(i);
            }
            i = i + 1;
        }
        None
    }

    fn index_of_key(&self, key: &str) -> (r: Option<usize>)
        ensures
            match r {
                Some(i) => key_index(self@, key@) == Some(i as int) && i < self.runs@.len(),
                None => key_index(self@, key@) is None,
            },
    {
        let ghost all = self@;
        let mut i: usize = 0;
        proof {
            assert(all.skip(0) =~= all);
        }
        while i < self.runs.len()
            invariant
                i <= self.runs@.len(),
                all == self@,
                all == self.runs.deep_view(),
                match key_index(all.skip(i as int), key@) {
                    Some(j) => key_index(all, key@) == Some(i + j),
                    None => key_index(all, key@) is None,
                },
            decreases self.runs@.len() - i,
        {
            proof {
                assert(all.skip(i as int).drop_first() =~= all.skip(i + 1));
                assert(all[i as int] == self.runs@[i as int]@);
            }
            match &self.runs[i].record.idempotency_key {
                Some(k) => {
                    if same_text(k.as_str(), key) {
                        return Some(i);
                    }
                },
                None => {},
            }
            i = i + 1;
        }
        None
    }

    /// The run that was started with this idempotency key.
    pub fn find_by_idempotency_key(&self, key: &str) -> (r: Option<RunId>)
        ensures
            r.deep_view() == key_owner(self@, key@),
    {
        match self.index_of_key(key) {
            Some(i) => {
                proof {
                    assert(self@[i as int] == self.runs@[i as int]@);
                }
                Some(self.runs[i].record.run_id.clone())
            },
            None => None,
        }
    }

    /// Creates a run under a new id. An idempotency key that another run has
    /// is refused, and nothing is created.
    pub fn create_run(&mut self, new: NewRun, run_id: RunId, now: Timestamp) -> (r: Result<
        RunId,
        StoreError,
    >)
        requires
            well_formed(old(self)@),
            run_index(old(self)@, run_id@) is None,
        ensures
            well_formed(final(self)@),
            match (r, store_created(old(self)@, new@, run_id@, now)) {
                (Ok(id), Ok(runs)) => id@ == run_id@ && final(self)@ == runs,
                (Err(e), Err(why)) => e@ == why && final(self)@ == old(self)@,
                _ => false,
            },
    {
        match &new.idempotency_key {
            Some(key) => {
                if self.index_of_key(key.as_str()).is_some() {
                    return Err(StoreError::Duplicate(key.clone()));
                }
            },
            None => {},
        }
        let ghost before = self@;
        let ghost model = new@;
        let stored = StoredRun {
            record: RunRecord {
                run_id: run_id.clone(),
                flow_name: new.flow_name,
                flow_version: new.flow_version,
                definition: new.definition,
                inputs: new.inputs,
                trigger: new.trigger,
                phase: RunPhase::Running,
                cancelled: false,
                created_at: now,
                updated_at: now,
                idempotency_key: new.idempotency_key,
                steps: Vec::new(),
            },
            hooks: Vec::new(),
            events: Vec::new(),
            pushed_through: 0,
        };
        proof {
            assert(stored.record.steps.deep_view() =~= Seq::<StepRecordModel>::empty());
            assert(stored.hooks.deep_view() =~= Seq::<HookRunModel>::empty());
            assert(stored.events.deep_view() =~= Seq::<StoredEventModel>::empty());
            assert(stored@ == created(model, run_id@, now));
            lemma_run_index(before, run_id@);
            if let Some(key) = model.idempotency_key {
                lemma_key_index(before, key);
            }
        }
        put(&mut self.runs, stored);
        Ok(run_id)
    }

    /// Everything stored about a run.
    pub fn load_run(&self, run_id: &str) -> (r: Result<RunRecord, StoreError>)
        ensures
            match (r, run_index(self@, run_id@)) {
                (Ok(record), Some(i)) => record@ == self@[i].record,
                (Err(e), None) => e@ == StoreErrorModel::NotFound(run_id@),
                _ => false,
            },
    {
        match self.index_of(run_id) {
            Some(i) => {
                proof {
                    assert(self@[i as int] == self.runs@[i as int]@);
                }
                Ok(self.runs[i].record.duplicate())
            },
            None => Err(StoreError::NotFound(run_id.to_owned())),
        }
    }

    /// Applies a batch of writes to a run: all of them, or none where one of
    /// them fails.
    pub fn apply(&mut self, run_id: &str, batch: Vec<Mutation>, now: Timestamp) -> (r: Result<
        (),
        StoreError,
    >)
        requires
            well_formed(old(self)@),
            forall|i: int|
                0 <= i < old(self)@.len() ==> (#[trigger] old(self)@[i]).events.len()
                    + batch@.len() <= u64::MAX,
        ensures
            well_formed(final(self)@),
            match (r, store_applied(old(self)@, run_id@, batch.deep_view(), now)) {
                (Ok(_), Ok(runs)) => final(self)@ == runs,
                (Err(e), Err(why)) => e@ == why && final(self)@ == old(self)@,
                _ => false,
            },
    {
        let i: usize = match self.index_of(run_id) {
            Some(i) => i,
            None => {
                return Err(StoreError::NotFound(run_id.to_owned()));
            },
        };
        let ghost before = self@;
        let ghost run = before[i as int];
        let ghost ms = batch.deep_view();
        proof {
            assert(run == self.runs@[i as int]@);
            assert(contiguous(run.events));
            lemma_run_index(before, run_id@);
        }
        let mut record = match apply_batch(&self.runs[i].record, &batch) {
            Ok(done) => done,
            Err(e) => {
                return Err(e);
            },
        };
        proof {
            batch_keeps_identity(run.record, ms);
            batch_keeps_events_contiguous(run.events, ms);
        }
        record.updated_at = now;
        let mut hooks = self.runs[i].hooks.duplicate();
        extend(&mut hooks, collect_hooks(&batch));
        let mut events = self.runs[i].events.duplicate();
        number_events(&mut events, &batch);
        let stored = StoredRun {
            record,
            hooks,
            events,
            pushed_through: self.runs[i].pushed_through,
        };
        let ghost after = stored@;
        self.runs.set(i, stored);
        proof {
            assert(self@ =~= before.update(i as int, after));
        }
        Ok(())
    }

    /// The runs that pass a filter, newest first, and at most as many as the
    /// filter asks for.
    pub fn list_runs(&self, filter: &RunFilter) -> (r: Vec<RunSummary>)
        ensures
            r.deep_view() == at_most(
                listed(self@, filter.flow_name.deep_view(), filter.phase),
                filter.limit,
            ),
    {
        let ghost all = self@;
        let ghost name = filter.flow_name.deep_view();
        let mut out: Vec<RunSummary> = Vec::new();
        let mut i: usize = 0;
        proof {
            assert(out.deep_view() =~= listed(all.take(0), name, filter.phase));
        }
        while i < self.runs.len()
            invariant
                i <= self.runs@.len(),
                all == self@,
                all == self.runs.deep_view(),
                name == filter.flow_name.deep_view(),
                out.deep_view() == listed(all.take(i as int), name, filter.phase),
            decreases self.runs@.len() - i,
        {
            proof {
                assert(all.take(i + 1).drop_last() =~= all.take(i as int));
                assert(all[i as int] == self.runs@[i as int]@);
            }
            let record = &self.runs[i].record;
            let named = match &filter.flow_name {
                Some(n) => same_text(record.flow_name.as_str(), n.as_str()),
                None => true,
            };
            let phased = match filter.phase {
                Some(p) => record.phase == p,
                None => true,
            };
            if named && phased {
                insert_newest(
                    &mut out,
                    RunSummary {
                        run_id: record.run_id.clone(),
                        flow_name: record.flow_name.clone(),
                        flow_version: record.flow_version.clone(),
                        phase: record.phase,
                        created_at: wire::Timestamp(record.created_at),
                        updated_at: wire::Timestamp(record.updated_at),
                    },
                );
            }
            i = i + 1;
        }
        proof {
            assert(all.take(i as int) =~= all);
        }
        let ghost whole = out.deep_view();
        match filter.limit {
            Some(n) => {
                if n < out.len() {
                    out.truncate(n);
                    proof {
                        assert(out.deep_view() =~= whole.take(n as int));
                    }
                }
            },
            None => {},
        }
        out
    }

    /// The runs in a phase, oldest first.
    pub fn runs_in_phase(&self, phase: RunPhase) -> (r: Vec<RunRecord>)
        ensures
            r.deep_view() == in_phase(self@, phase),
    {
        let ghost all = self@;
        let mut out: Vec<RunRecord> = Vec::new();
        let mut i: usize = 0;
        proof {
            assert(out.deep_view() =~= in_phase(all.take(0), phase));
        }
        while i < self.runs.len()
            invariant
                i <= self.runs@.len(),
                all == self@,
                all == self.runs.deep_view(),
                out.deep_view() == in_phase(all.take(i as int), phase),
            decreases self.runs@.len() - i,
        {
            proof {
                assert(all.take(i + 1).drop_last() =~= all.take(i as int));
                assert(all[i as int] == self.runs@[i as int]@);
            }
            if self.runs[i].record.phase == phase {
                insert_oldest(&mut out, self.runs[i].record.duplicate());
            }
            i = i + 1;
        }
        proof {
            assert(all.take(i as int) =~= all);
        }
        out
    }

    /// The run without the runs it started: links between runs are not kept
    /// in memory.
    pub fn load_run_tree(&self, run_id: &str) -> (r: Result<RunTree, StoreError>)
        ensures
            match (r, run_index(self@, run_id@)) {
                (Ok(tree), Some(i)) => tree.root@ == self@[i].record && tree.children@.len() == 0,
                (Err(e), None) => e@ == StoreErrorModel::NotFound(run_id@),
                _ => false,
            },
    {
        match self.load_run(run_id) {
            Ok(root) => Ok(RunTree { root, children: Vec::new() }),
            Err(e) => Err(e),
        }
    }

    /// The hooks of a run in the order in which they were recorded; none for
    /// an unknown run.
    pub fn list_hook_runs(&self, run_id: &str) -> (r: Vec<HookRunRecord>)
        ensures
            r.deep_view() == (match run_index(self@, run_id@) {
                Some(i) => self@[i].hooks,
                None => Seq::empty(),
            }),
    {
        match self.index_of(run_id) {
            Some(i) => {
                proof {
                    assert(self@[i as int] == self.runs@[i as int]@);
                }
                self.runs[i].hooks.duplicate()
            },
            None => {
                let none: Vec<HookRunRecord> = Vec::new();
                proof {
                    assert(none.deep_view() =~= Seq::<HookRunModel>::empty());
                }
                none
            },
        }
    }

    /// At most `limit` events that were not handed on yet: run by run in the
    /// order of the run ids, oldest first within a run.
    pub fn unpushed_events(&self, limit: usize) -> (r: Vec<(RunId, StoredRunEvent)>)
        ensures
            r.deep_view() == at_most(unpushed_in(self@, run_ids(self@)), Some(limit)),
    {
        let ghost all = self@;
        let mut ids: Vec<String> = Vec::new();
        let mut i: usize = 0;
        proof {
            assert(ids.deep_view() =~= run_ids(all.take(0)));
        }
        while i < self.runs.len()
            invariant
                i <= self.runs@.len(),
                all == self@,
                all == self.runs.deep_view(),
                ids.deep_view() == run_ids(all.take(i as int)),
            decreases self.runs@.len() - i,
        {
            proof {
                assert(all.take(i + 1).drop_last() =~= all.take(i as int));
                assert(all[i as int] == self.runs@[i as int]@);
            }
            crate::graph::insert_sorted(&mut ids, self.runs[i].record.run_id.as_str());
            i = i + 1;
        }
        proof {
            assert(all.take(i as int) =~= all);
        }
        let ghost names = ids.deep_view();
        let mut out: Vec<(RunId, StoredRunEvent)> = Vec::new();
        let mut j: usize = 0;
        proof {
            assert(out.deep_view() =~= unpushed_in(all, names.take(0)));
        }
        while j < ids.len()
            invariant
                j <= ids@.len(),
                all == self@,
                names == ids.deep_view(),
                out.deep_view() == unpushed_in(all, names.take(j as int)),
            decreases ids@.len() - j,
        {
            proof {
                assert(names.take(j + 1).drop_last() =~= names.take(j as int));
                assert(names[j as int] == ids@[j as int]@);
            }
            match self.index_of(ids[j].as_str()) {
                Some(k) => {
                    proof {
                        assert(all[k as int] == self.runs@[k as int]@);
                    }
                    push_unpushed(
                        &mut out,
                        ids[j].as_str(),
                        &self.runs[k].events,
                        self.runs[k].pushed_through,
                    );
                },
                None => {
                    proof {
                        assert(out.deep_view() + Seq::<(Seq<char>, StoredEventModel)>::empty()
                            =~= out.deep_view());
                    }
                },
            }
            j = j + 1;
        }
        proof {
            assert(names.take(j as int) =~= names);
        }
        let ghost whole = out.deep_view();
        if limit < out.len() {
            out.truncate(limit);
            proof {
                assert(out.deep_view() =~= whole.take(limit as int));
            }
        }
        out
    }

    /// Marks the events of a run up to a number as handed on. To mark them
    /// again changes nothing.
    pub fn mark_events_pushed(&mut self, run_id: &str, through_sequence: u64)
        requires
            well_formed(old(self)@),
        ensures
            well_formed(final(self)@),
            final(self)@ == marked(old(self)@, run_id@, through_sequence),
    {
        let ghost before = self@;
        match self.index_of(run_id) {
            Some(i) => {
                proof {
                    assert(before[i as int] == self.runs@[i as int]@);
                }
                if through_sequence > self.runs[i].pushed_through {
                    let run = &mut self.runs[i];
                    run.pushed_through = through_sequence;
                    proof {
                        assert(self@ =~= marked(before, run_id@, through_sequence));
                    }
                }
            },
            None => {},
        }
    }
}

fn push_unpushed(
    out: &mut Vec<(RunId, StoredRunEvent)>,
    run_id: &str,
    events: &Vec<StoredRunEvent>,
    through: u64,
)
    ensures
        final(out).deep_view() == old(out).deep_view() + unpushed_of(
            run_id@,
            events.deep_view(),
            through,
        ),
{
    let ghost start = out.deep_view();
    let ghost all = events.deep_view();
    let mut i: usize = 0;
    proof {
        assert(start + unpushed_of(run_id@, all.take(0), through) =~= start);
    }
    while i < events.len()
        invariant
            i <= events@.len(),
            all == events.deep_view(),
            out.deep_view() == start + unpushed_of(run_id@, all.take(i as int), through),
        decreases events@.len() - i,
    {
        proof {
            assert(all.take(i + 1).drop_last() =~= all.take(i as int));
            assert(all[i as int] == events@[i as int]@);
        }
        if events[i].sequence > through {
            put(out, (run_id.to_owned(), events[i].duplicate()));
        }
        proof {
            assert(out.deep_view() =~= start + unpushed_of(run_id@, all.take(i + 1), through));
        }
        i = i + 1;
    }
    proof {
        assert(all.take(i as int) =~= all);
    }
}

fn insert_newest(list: &mut Vec<RunSummary>, x: RunSummary)
    ensures
        final(list).deep_view() == newest_with(old(list).deep_view(), x@),
{
    let ghost all = list.deep_view();
    let ghost start = *list;
    let ghost put_in = x@;
    let mut i: usize = 0;
    proof {
        assert(all.skip(0) =~= all);
        assert(all.take(0) + newest_with(all.skip(0), x@) =~= newest_with(all, x@));
    }
    while i < list.len()
        invariant
            i <= list@.len(),
            *list == start,
            start == *old(list),
            all == start.deep_view(),
            put_in == x@,
            newest_with(all, x@) == all.take(i as int) + newest_with(all.skip(i as int), x@),
        decreases list@.len() - i,
    {
        proof {
            assert(all.skip(i as int).drop_first() =~= all.skip(i + 1));
            assert(all[i as int] == list@[i as int]@);
        }
        if list[i].created_at.0 < x.created_at.0 {
            list.insert(i, x);
            proof {
                assert(list.deep_view() =~= all.take(i as int) + (seq![put_in] + all.skip(
                    i as int,
                )));
            }
            return;
        }
        proof {
            assert(all.take(i as int) + (seq![all[i as int]] + newest_with(all.skip(i + 1), x@))
                =~= all.take(i + 1) + newest_with(all.skip(i + 1), x@));
        }
        i = i + 1;
    }
    list.push(x);
    proof {
        assert(list.deep_view() =~= all.take(i as int) + seq![put_in]);
    }
}

fn insert_oldest(list: &mut Vec<RunRecord>, x: RunRecord)
    ensures
        final(list).deep_view() == oldest_with(old(list).deep_view(), x@),
{
    let ghost all = list.deep_view();
    let ghost start = *list;
    let ghost put_in = x@;
    let mut i: usize = 0;
    proof {
        assert(all.skip(0) =~= all);
        assert(all.take(0) + oldest_with(all.skip(0), x@) =~= oldest_with(all, x@));
    }
    while i < list.len()
        invariant
            i <= list@.len(),
            *list == start,
            start == *old(list),
            all == start.deep_view(),
            put_in == x@,
            oldest_with(all, x@) == all.take(i as int) + oldest_with(all.skip(i as int), x@),
        decreases list@.len() - i,
    {
        proof {
            assert(all.skip(i as int).drop_first() =~= all.skip(i + 1));
            assert(all[i as int] == list@[i as int]@);
        }
        if x.created_at < list[i].created_at {
            list.insert(i, x);
            proof {
                assert(list.deep_view() =~= all.take(i as int) + (seq![put_in] + all.skip(
                    i as int,
                )));
            }
            return;
        }
        proof {
            assert(all.take(i as int) + (seq![all[i as int]] + oldest_with(all.skip(i + 1), x@))
                =~= all.take(i + 1) + oldest_with(all.skip(i + 1), x@));
        }
        i = i + 1;
    }
    list.push(x);
    proof {
        assert(list.deep_view() =~= all.take(i as int) + seq![put_in]);
    }
}

/// To mark events as handed on twice is to mark them once.
pub proof fn marking_twice_is_marking_once(
    runs: Seq<StoredRunModel>,
    run_id: Seq<char>,
    through: u64,
)
    ensures
        marked(marked(runs, run_id, through), run_id, through) == marked(runs, run_id, through),
{
    let once = marked(runs, run_id, through);
    lemma_run_index(runs, run_id);
    lemma_index_after_update(runs, once, run_id);
}

proof fn lemma_index_after_update(
    runs: Seq<StoredRunModel>,
    other: Seq<StoredRunModel>,
    run_id: Seq<char>,
)
    requires
        runs.len() == other.len(),
        forall|i: int|
            0 <= i < runs.len() ==> (#[trigger] runs[i]).record.run_id == other[i].record.run_id,
    ensures
        run_index(runs, run_id) == run_index(other, run_id),
    decreases runs.len(),
{
    if runs.len() > 0 {
        let a = runs.drop_first();
        let b = other.drop_first();
        assert(runs[0].record.run_id == other[0].record.run_id);
        assert forall|i: int| 0 <= i < a.len() implies (#[trigger] a[i]).record.run_id
            == b[i].record.run_id by {
            assert(runs[i + 1].record.run_id == other[i + 1].record.run_id);
        }
        lemma_index_after_update(a, b, run_id);
    }
}

proof fn lemma_unpushed_none(run_id: Seq<char>, events: Seq<StoredEventModel>, through: u64)
    requires
        forall|i: int| 0 <= i < events.len() ==> (#[trigger] events[i]).sequence <= through,
    ensures
        unpushed_of(run_id, events, through).len() == 0,
    decreases events.len(),
{
    if events.len() > 0 {
        assert(events.last() == events[events.len() - 1]);
        assert forall|i: int| 0 <= i < events.drop_last().len() implies (
        #[trigger] events.drop_last()[i]).sequence <= through by {
            assert(events[i].sequence <= through);
        }
        lemma_unpushed_none(run_id, events.drop_last(), through);
    }
}

/// After the events of a run were marked up to the last, none of them is
/// waiting to be handed on.
pub proof fn marked_events_are_drained(
    runs: Seq<StoredRunModel>,
    run_id: Seq<char>,
    through: u64,
)
    requires
        well_formed(runs),
        run_index(runs, run_id) matches Some(i) && through >= runs[i].events.len(),
    ensures
        ({
            let after = marked(runs, run_id, through);
            run_index(after, run_id) matches Some(i) && unpushed_of(
                run_id,
                after[i].events,
                after[i].pushed_through,
            ).len() == 0
        }),
{
    lemma_run_index(runs, run_id);
    let after = marked(runs, run_id, through);
    lemma_index_after_update(runs, after, run_id);
    let i = run_index(runs, run_id)->0;
    let events = after[i].events;
    assert(contiguous(runs[i].events));
    assert forall|k: int| 0 <= k < events.len() implies (#[trigger] events[k]).sequence
        <= after[i].pushed_through by {
        assert(events[k].sequence == k + 1);
    }
    lemma_unpushed_none(run_id, events, after[i].pushed_through);
}

/// A key that a run was created with finds that run.
pub proof fn key_finds_created_run(
    runs: Seq<StoredRunModel>,
    new: NewRunModel,
    run_id: Seq<char>,
    now: Timestamp,
    key: Seq<char>,
)
    requires
        new.idempotency_key == Some(key),
        key_index(runs, key) is None,
    ensures
        ({
            let after = runs.push(created(new, run_id, now));
            key_index(after, key) == Some(runs.len() as int) && after[runs.len() as int].record.run_id
                == run_id
        }),
    decreases runs.len(),
{
    let fresh = created(new, run_id, now);
    let after = runs.push(fresh);
    if runs.len() > 0 {
        assert(after.drop_first() =~= runs.drop_first().push(fresh));
        key_finds_created_run(runs.drop_first(), new, run_id, now, key);
    }
}

/// A run that is created, a batch that is applied and events that are marked as
/// handed on keep every run that was there.
pub proof fn every_run_is_kept(
    runs: Seq<StoredRunModel>,
    new: NewRunModel,
    run_id: Seq<char>,
    batch: Seq<MutationModel>,
    through: u64,
    now: Timestamp,
)
    ensures
        store_created(runs, new, run_id, now) matches Ok(later) ==> keeps_runs(runs, later),
        store_applied(runs, run_id, batch, now) matches Ok(later) ==> keeps_runs(runs, later),
        keeps_runs(runs, marked(runs, run_id, through)),
{
    lemma_run_index(runs, run_id);
    match run_index(runs, run_id) {
        Some(i) => {
            batch_keeps_identity(runs[i].record, batch);
        },
        None => {},
    }
}

/// What is kept twice is kept.
pub proof fn kept_runs_stay_kept(
    a: Seq<StoredRunModel>,
    b: Seq<StoredRunModel>,
    c: Seq<StoredRunModel>,
)
    requires
        keeps_runs(a, b),
        keeps_runs(b, c),
    ensures
        keeps_runs(a, c),
{
    assert forall|i: int| 0 <= i < a.len() implies (#[trigger] c[i]).record.run_id
        == a[i].record.run_id && c[i].record.idempotency_key == a[i].record.idempotency_key by {
        assert(b[i].record.run_id == a[i].record.run_id);
    }
}

/// A key finds the same run as long as the runs are kept.
pub proof fn kept_key_finds_the_same_run(
    runs: Seq<StoredRunModel>,
    later: Seq<StoredRunModel>,
    key: Seq<char>,
)
    requires
        keeps_runs(runs, later),
        key_index(runs, key) is Some,
    ensures
        key_index(later, key) == key_index(runs, key),
        key_owner(later, key) == key_owner(runs, key),
    decreases runs.len(),
{
    assert(later[0].record.idempotency_key == runs[0].record.idempotency_key);
    if runs[0].record.idempotency_key != Some(key) {
        let a = runs.drop_first();
        let b = later.drop_first();
        assert forall|i: int| 0 <= i < a.len() implies (#[trigger] b[i]).record.run_id
            == a[i].record.run_id && b[i].record.idempotency_key == a[i].record.idempotency_key by {
            assert(later[i + 1].record.run_id == runs[i + 1].record.run_id);
        }
        kept_key_finds_the_same_run(a, b, key);
        lemma_key_index(a, key);
    }
    lemma_key_index(runs, key);
}

} // verus!
