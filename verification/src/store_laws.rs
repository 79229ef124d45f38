//! What the store keeps: laws of writes, of runs and of events.
use crate::graph::{ascending, lemma_sorted_ascends, sorted_names};
use crate::ports::{
    HookRunModel, MutationModel, NewRunModel, RunRecordModel, RunSummaryModel, StepRecordModel,
    StoreErrorModel, StoredEventModel,
};
use crate::run::types::{RunPhase, StepRunModel, Timestamp};
use crate::store::{
    applied, at_most, batch_applied, batch_hooks, created, find_attempt, in_phase, is_attempt,
    key_index, marked, newest_with, oldest_with, passes, run_ids, run_index, set_attempt,
    store_applied, store_created, summary_of, unpushed_in, unpushed_of, with_events,
    without_attempt, StoredRunModel,
};
use vstd::prelude::*;

verus! {

/// The record of an attempt is the first one of it.
pub proof fn first_record_is_found(steps: Seq<StepRecordModel>, i: int)
    requires
        0 <= i < steps.len(),
        forall|j: int|
            0 <= j < i ==> (#[trigger] steps[j]).run.step_id != steps[i].run.step_id
                || steps[j].run.attempt != steps[i].run.attempt,
    ensures
        find_attempt(steps, steps[i].run.step_id, steps[i].run.attempt) == Some(steps[i]),
    decreases i,
{
    if i > 0 {
        let rest = steps.drop_first();
        assert(steps[0].run.step_id != steps[i].run.step_id || steps[0].run.attempt
            != steps[i].run.attempt);
        assert forall|j: int| 0 <= j < i - 1 implies (#[trigger] rest[j]).run.step_id != rest[i
            - 1].run.step_id || rest[j].run.attempt != rest[i - 1].run.attempt by {
            assert(steps[j + 1] == rest[j]);
        }
        first_record_is_found(rest, i - 1);
    }
}

/// A record of an attempt is found exactly where there is one.
pub proof fn records_are_found(steps: Seq<StepRecordModel>, id: Seq<char>, attempt: u32)
    ensures
        match find_attempt(steps, id, attempt) {
            Some(step) => step.run.step_id == id && step.run.attempt == attempt && steps.contains(
                step,
            ),
            None => forall|i: int|
                0 <= i < steps.len() ==> (#[trigger] steps[i]).run.step_id != id
                    || steps[i].run.attempt != attempt,
        },
    decreases steps.len(),
{
    if steps.len() > 0 {
        let rest = steps.drop_first();
        if is_attempt(steps[0], id, attempt) {
            assert(steps.contains(steps[0]));
        } else {
            records_are_found(rest, id, attempt);
            match find_attempt(rest, id, attempt) {
                Some(step) => {
                    let k = choose|k: int| 0 <= k < rest.len() && rest[k] == step;
                    assert(steps[k + 1] == step);
                },
                None => {
                    assert forall|i: int| 0 <= i < steps.len() implies (
                    #[trigger] steps[i]).run.step_id != id || steps[i].run.attempt != attempt by {
                        if i > 0 {
                            assert(rest[i - 1] == steps[i]);
                        }
                    }
                },
            }
        }
    }
}

proof fn lemma_set_found(
    steps: Seq<StepRecordModel>,
    id: Seq<char>,
    attempt: u32,
    step: StepRecordModel,
    x: Seq<char>,
    n: u32,
)
    requires
        is_attempt(step, id, attempt),
        find_attempt(steps, id, attempt) is Some,
    ensures
        find_attempt(set_attempt(steps, id, attempt, step), x, n) == (if x == id && n == attempt {
            Some(step)
        } else {
            find_attempt(steps, x, n)
        }),
    decreases steps.len(),
{
    let rest = steps.drop_first();
    let all = set_attempt(steps, id, attempt, step);
    assert(steps.len() > 0);
    assert(all.len() > 0);
    assert(find_attempt(all, x, n) == (if is_attempt(all[0], x, n) {
        Some(all[0])
    } else {
        find_attempt(all.drop_first(), x, n)
    }));
    if is_attempt(steps[0], id, attempt) {
        assert(all.drop_first() =~= rest);
        assert(all[0] == step);
    } else {
        lemma_set_found(rest, id, attempt, step, x, n);
        assert(all.drop_first() =~= set_attempt(rest, id, attempt, step));
        assert(all[0] == steps[0]);
    }
}

proof fn lemma_pushed_found(
    steps: Seq<StepRecordModel>,
    step: StepRecordModel,
    x: Seq<char>,
    n: u32,
)
    ensures
        find_attempt(steps.push(step), x, n) == (match find_attempt(steps, x, n) {
            Some(s) => Some(s),
            None => if is_attempt(step, x, n) {
                Some(step)
            } else {
                None
            },
        }),
    decreases steps.len(),
{
    let all = steps.push(step);
    let rest = all.drop_first();
    assert(find_attempt(all, x, n) == (if is_attempt(all[0], x, n) {
        Some(all[0])
    } else {
        find_attempt(rest, x, n)
    }));
    if steps.len() == 0 {
        assert(rest =~= Seq::<StepRecordModel>::empty());
        assert(find_attempt(rest, x, n) is None);
        assert(all[0] == step);
    } else {
        assert(rest =~= steps.drop_first().push(step));
        lemma_pushed_found(steps.drop_first(), step, x, n);
        assert(all[0] == steps[0]);
    }
}

proof fn lemma_without(
    steps: Seq<StepRecordModel>,
    id: Seq<char>,
    attempt: u32,
    x: Seq<char>,
    n: u32,
)
    ensures
        find_attempt(without_attempt(steps, id, attempt), x, n) == (if x == id && n == attempt {
            None
        } else {
            find_attempt(steps, x, n)
        }),
    decreases steps.len(),
{
    if steps.len() > 0 {
        let rest = steps.drop_last();
        lemma_without(rest, id, attempt, x, n);
        assert(steps =~= rest.push(steps.last()));
        lemma_pushed_found(rest, steps.last(), x, n);
        lemma_pushed_found(without_attempt(rest, id, attempt), steps.last(), x, n);
    }
}

/// The attempt that a write is about, where it changes one.
pub open spec fn write_target(m: MutationModel) -> Option<(Seq<char>, u32)> {
    match m {
        MutationModel::SetStepStatus { step_id, attempt, .. } => Some((step_id, attempt)),
        MutationModel::SetStepOutput { step_id, attempt, .. } => Some((step_id, attempt)),
        MutationModel::SetJobId { step_id, attempt, .. } => Some((step_id, attempt)),
        MutationModel::SetApproval { step_id, attempt, .. } => Some((step_id, attempt)),
        MutationModel::SetStepFailure { step_id, attempt, .. } => Some((step_id, attempt)),
        MutationModel::SetStepFailureDetail { step_id, attempt, .. } => Some((step_id, attempt)),
        MutationModel::SetStepTimestamps { step_id, attempt, .. } => Some((step_id, attempt)),
        MutationModel::SetChildRunId { step_id, attempt, .. } => Some((step_id, attempt)),
        _ => None,
    }
}

/// Whether a record has what a write says, and the rest as before.
pub open spec fn has_written(m: MutationModel, old: StepRecordModel, new: StepRecordModel) -> bool {
    match m {
        MutationModel::SetStepStatus { status, .. } => new.run.status == status && new
            == (StepRecordModel { run: StepRunModel { status: new.run.status, ..old.run }, ..old }),
        MutationModel::SetStepOutput { output, .. } => new.run.output == Some(output) && new
            == (StepRecordModel { run: StepRunModel { output: new.run.output, ..old.run }, ..old }),
        MutationModel::SetJobId { job_id, .. } => new.job_id == job_id && new
            == (StepRecordModel { job_id: new.job_id, ..old }),
        MutationModel::SetApproval { approval_status, comment, feedback, .. } => {
            &&& new.run.approval_status == Some(approval_status)
            &&& new.run.approval_comment == comment
            &&& new.run.feedback == feedback
            &&& new == (StepRecordModel {
                run: StepRunModel {
                    approval_status: new.run.approval_status,
                    approval_comment: new.run.approval_comment,
                    feedback: new.run.feedback,
                    ..old.run
                },
                ..old
            })
        },
        MutationModel::SetStepFailure { reason, .. } => new.run.failure_reason == Some(reason)
            && new == (StepRecordModel {
            run: StepRunModel { failure_reason: new.run.failure_reason, ..old.run },
            ..old
        }),
        MutationModel::SetStepFailureDetail { detail, .. } => new.failure_detail == Some(detail)
            && new == (StepRecordModel { failure_detail: new.failure_detail, ..old }),
        MutationModel::SetStepTimestamps { started_at, completed_at, .. } => {
            &&& new.run.started_at == started_at
            &&& new.run.completed_at == completed_at
            &&& new == (StepRecordModel {
                run: StepRunModel {
                    started_at: new.run.started_at,
                    completed_at: new.run.completed_at,
                    ..old.run
                },
                ..old
            })
        },
        MutationModel::SetChildRunId { child_run_id, .. } => new.run.child_run_id == child_run_id
            && new == (StepRecordModel {
            run: StepRunModel { child_run_id: new.run.child_run_id, ..old.run },
            ..old
        }),
        _ => false,
    }
}

/// A write to an attempt succeeds exactly where the attempt has a record, sets
/// what it says there, and changes neither the rest of that record nor any other
/// attempt, nor the run.
pub proof fn write_changes_one_attempt(
    record: RunRecordModel,
    m: MutationModel,
    x: Seq<char>,
    n: u32,
)
    requires
        write_target(m) is Some,
    ensures
        ({
            let (id, attempt) = write_target(m)->Some_0;
            match (applied(record, m), find_attempt(record.steps, id, attempt)) {
                (Ok(after), Some(old)) => {
                    &&& find_attempt(after.steps, id, attempt) matches Some(new) && has_written(
                        m,
                        old,
                        new,
                    )
                    &&& (x != id || n != attempt) ==> find_attempt(after.steps, x, n)
                        == find_attempt(record.steps, x, n)
                    &&& after == (RunRecordModel { steps: after.steps, ..record })
                },
                (Err(e), None) => e is NotFound,
                _ => false,
            }
        }),
{
    let (id, attempt) = write_target(m)->Some_0;
    records_are_found(record.steps, id, attempt);
    if let Some(old) = find_attempt(record.steps, id, attempt) {
        let after = applied(record, m)->Ok_0;
        let new = match m {
            MutationModel::SetStepStatus { status, .. } => StepRecordModel {
                run: StepRunModel { status, ..old.run },
                ..old
            },
            MutationModel::SetStepOutput { output, .. } => StepRecordModel {
                run: StepRunModel { output: Some(output), ..old.run },
                ..old
            },
            MutationModel::SetJobId { job_id, .. } => StepRecordModel { job_id, ..old },
            MutationModel::SetApproval { approval_status, comment, feedback, .. } =>
                StepRecordModel {
                run: StepRunModel {
                    approval_status: Some(approval_status),
                    approval_comment: comment,
                    feedback,
                    ..old.run
                },
                ..old
            },
            MutationModel::SetStepFailure { reason, .. } => StepRecordModel {
                run: StepRunModel { failure_reason: Some(reason), ..old.run },
                ..old
            },
            MutationModel::SetStepFailureDetail { detail, .. } => StepRecordModel {
                failure_detail: Some(detail),
                ..old
            },
            MutationModel::SetStepTimestamps { started_at, completed_at, .. } => StepRecordModel {
                run: StepRunModel { started_at, completed_at, ..old.run },
                ..old
            },
            MutationModel::SetChildRunId { child_run_id, .. } => StepRecordModel {
                run: StepRunModel { child_run_id, ..old.run },
                ..old
            },
            _ => old,
        };
        assert(after.steps == set_attempt(record.steps, id, attempt, new));
        lemma_set_found(record.steps, id, attempt, new, id, attempt);
        lemma_set_found(record.steps, id, attempt, new, x, n);
    }
}

/// A record of an attempt that is inserted is found from then on, in place of
/// one that was there; no other attempt changes.
pub proof fn inserted_record_is_found(
    record: RunRecordModel,
    step: StepRecordModel,
    x: Seq<char>,
    n: u32,
)
    ensures
        applied(record, MutationModel::InsertStepRun(step)) matches Ok(after) && {
            &&& find_attempt(after.steps, step.run.step_id, step.run.attempt) == Some(step)
            &&& x != step.run.step_id || n != step.run.attempt ==> find_attempt(after.steps, x, n)
                == find_attempt(record.steps, x, n)
            &&& after == (RunRecordModel { steps: after.steps, ..record })
        },
{
    let id = step.run.step_id;
    let attempt = step.run.attempt;
    let rest = without_attempt(record.steps, id, attempt);
    lemma_without(record.steps, id, attempt, id, attempt);
    lemma_without(record.steps, id, attempt, x, n);
    lemma_pushed_found(rest, step, id, attempt);
    lemma_pushed_found(rest, step, x, n);
}

/// The phase of a run and that it was cancelled are set and nothing else; hooks
/// and events are no part of the record.
pub proof fn run_writes_change_the_run(
    record: RunRecordModel,
    phase: RunPhase,
    m: MutationModel,
)
    ensures
        applied(record, MutationModel::SetRunPhase(phase)) matches Ok(after) && after.phase == phase
            && after == (RunRecordModel { phase: after.phase, ..record }),
        applied(record, MutationModel::SetRunCancelled) matches Ok(after) && after.cancelled
            && after == (RunRecordModel { cancelled: after.cancelled, ..record }),
        m is RecordHookRun || m is AppendEvent ==> applied(record, m) == Ok::<
            RunRecordModel,
            StoreErrorModel,
        >(record),
{
}

/// The writes of a batch are applied one after the other, all of them: a batch
/// in two parts is the first part and then the second.
pub proof fn batch_is_applied_part_by_part(
    record: RunRecordModel,
    a: Seq<MutationModel>,
    b: Seq<MutationModel>,
)
    ensures
        batch_applied(record, a + b) == (match batch_applied(record, a) {
            Ok(mid) => batch_applied(mid, b),
            Err(e) => Err(e),
        }),
    decreases b.len(),
{
    let all = a + b;
    if b.len() == 0 {
        assert(all =~= a);
    } else {
        assert(all.drop_last() =~= a + b.drop_last());
        assert(all.last() == b.last());
        batch_is_applied_part_by_part(record, a, b.drop_last());
    }
}

/// A batch of one write is that write, and an empty one changes nothing.
pub proof fn batch_of_one_is_the_write(record: RunRecordModel, m: MutationModel)
    ensures
        batch_applied(record, seq![m]) == applied(record, m),
        batch_applied(record, Seq::empty()) == Ok::<RunRecordModel, StoreErrorModel>(record),
{
    assert(seq![m].drop_last() =~= Seq::<MutationModel>::empty());
    assert(batch_applied(record, Seq::<MutationModel>::empty()) == Ok::<
        RunRecordModel,
        StoreErrorModel,
    >(record));
}

/// Every hook that a batch records is kept, in order.
pub proof fn hooks_of_a_batch_are_kept(a: Seq<MutationModel>, h: HookRunModel, b: Seq<MutationModel>)
    ensures
        batch_hooks(a + seq![MutationModel::RecordHookRun(h)] + b) == batch_hooks(a) + seq![h]
            + batch_hooks(b),
        (forall|i: int| 0 <= i < a.len() ==> !((#[trigger] a[i]) is RecordHookRun)) ==> batch_hooks(
            a,
        ).len() == 0,
{
    let m = MutationModel::RecordHookRun(h);
    lemma_hooks_sum(a, seq![m]);
    lemma_hooks_sum(a + seq![m], b);
    assert(seq![m].drop_last() =~= Seq::<MutationModel>::empty());
    assert(batch_hooks(Seq::<MutationModel>::empty()) =~= Seq::<HookRunModel>::empty());
    assert(batch_hooks(seq![m]) =~= seq![h]);
    if forall|i: int| 0 <= i < a.len() ==> !((#[trigger] a[i]) is RecordHookRun) {
        lemma_no_hooks(a);
    }
}

proof fn lemma_no_hooks(a: Seq<MutationModel>)
    requires
        forall|i: int| 0 <= i < a.len() ==> !((#[trigger] a[i]) is RecordHookRun),
    ensures
        batch_hooks(a).len() == 0,
    decreases a.len(),
{
    if a.len() > 0 {
        assert(!(a[a.len() - 1] is RecordHookRun));
        assert forall|i: int| 0 <= i < a.drop_last().len() implies !((
        #[trigger] a.drop_last()[i]) is RecordHookRun) by {
            assert(!(a[i] is RecordHookRun));
        }
        lemma_no_hooks(a.drop_last());
    }
}

proof fn lemma_hooks_sum(a: Seq<MutationModel>, b: Seq<MutationModel>)
    ensures
        batch_hooks(a + b) == batch_hooks(a) + batch_hooks(b),
    decreases b.len(),
{
    let all = a + b;
    if b.len() == 0 {
        assert(all =~= a);
        assert(batch_hooks(b) =~= Seq::<HookRunModel>::empty());
        assert(batch_hooks(a) + batch_hooks(b) =~= batch_hooks(a));
    } else {
        assert(all.drop_last() =~= a + b.drop_last());
        lemma_hooks_sum(a, b.drop_last());
        assert(batch_hooks(all) =~= batch_hooks(a) + batch_hooks(b));
    }
}

/// Every event of a batch is appended, in order, with what it says and the next
/// number; nothing else is.
pub proof fn events_of_a_batch_are_appended(
    events: Seq<StoredEventModel>,
    a: Seq<MutationModel>,
    m: MutationModel,
)
    requires
        events.len() + a.len() < u64::MAX,
        forall|i: int| 0 <= i < events.len() ==> (#[trigger] events[i]).sequence == i + 1,
    ensures
        ({
            let before = with_events(events, a);
            let after = with_events(events, a.push(m));
            match m {
                MutationModel::AppendEvent(e) => {
                    &&& after.len() == before.len() + 1
                    &&& after.drop_last() == before
                    &&& after.last().sequence == before.len() + 1
                    &&& after.last().event_type == e.event_type
                    &&& after.last().step_id == e.step_id
                    &&& after.last().timestamp == e.timestamp
                    &&& after.last().payload == e.payload
                },
                _ => after == before,
            }
        }),
        with_events(events, Seq::empty()) == events,
{
    let all = a.push(m);
    assert(all.drop_last() =~= a);
    crate::store::batch_keeps_events_contiguous(events, a);
    let before = with_events(events, a);
    let after = with_events(events, all);
    if m is AppendEvent {
        assert(after.drop_last() =~= before);
        if before.len() > 0 {
            assert(before[before.len() - 1].sequence == before.len());
        }
    }
}

/// A run is found by its id at the first place where one has it.
pub proof fn run_is_found_by_its_id(runs: Seq<StoredRunModel>, id: Seq<char>)
    ensures
        match run_index(runs, id) {
            Some(i) => 0 <= i < runs.len() && runs[i].record.run_id == id && forall|j: int|
                0 <= j < i ==> (#[trigger] runs[j]).record.run_id != id,
            None => forall|j: int| 0 <= j < runs.len() ==> (#[trigger] runs[j]).record.run_id != id,
        },
    decreases runs.len(),
{
    if runs.len() > 0 && runs[0].record.run_id != id {
        let rest = runs.drop_first();
        run_is_found_by_its_id(rest, id);
        assert forall|j: int|
            0 < j < runs.len() && (match run_index(rest, id) {
                Some(i) => j - 1 < i,
                None => true,
            }) implies (#[trigger] runs[j]).record.run_id != id by {
            assert(rest[j - 1].record.run_id != id);
        }
    }
}

/// A run is found by its key at the first place where one has it.
pub proof fn run_is_found_by_its_key(runs: Seq<StoredRunModel>, key: Seq<char>)
    ensures
        match key_index(runs, key) {
            Some(i) => 0 <= i < runs.len() && runs[i].record.idempotency_key == Some(key)
                && forall|j: int|
                0 <= j < i ==> (#[trigger] runs[j]).record.idempotency_key != Some(key),
            None => forall|j: int|
                0 <= j < runs.len() ==> (#[trigger] runs[j]).record.idempotency_key != Some(key),
        },
    decreases runs.len(),
{
    if runs.len() > 0 && runs[0].record.idempotency_key != Some(key) {
        let rest = runs.drop_first();
        run_is_found_by_its_key(rest, key);
        assert forall|j: int|
            0 < j < runs.len() && (match key_index(rest, key) {
                Some(i) => j - 1 < i,
                None => true,
            }) implies (#[trigger] runs[j]).record.idempotency_key != Some(key) by {
            assert(rest[j - 1].record.idempotency_key != Some(key));
        }
    }
}

/// A batch for a run changes that run and no other: its record as the batch
/// says, with the time of the change; its hooks and events are appended. Where
/// the batch or the run is refused nothing changes.
pub proof fn batch_changes_one_run(
    runs: Seq<StoredRunModel>,
    run_id: Seq<char>,
    batch: Seq<MutationModel>,
    now: Timestamp,
    j: int,
)
    requires
        0 <= j < runs.len(),
    ensures
        store_applied(runs, run_id, batch, now) matches Ok(after) ==> {
            &&& after.len() == runs.len()
            &&& run_index(runs, run_id) != Some(j) ==> after[j] == runs[j]
            &&& run_index(runs, run_id) == Some(j) ==> {
                &&& batch_applied(runs[j].record, batch) matches Ok(done) && after[j].record == (
                RunRecordModel { updated_at: now, ..done })
                &&& after[j].hooks == runs[j].hooks + batch_hooks(batch)
                &&& after[j].events == with_events(runs[j].events, batch)
                &&& after[j].pushed_through == runs[j].pushed_through
            }
        },
        store_applied(runs, run_id, batch, now) is Ok <==> (run_index(runs, run_id) matches Some(i)
            && batch_applied(runs[i].record, batch) is Ok),
{
    run_is_found_by_its_id(runs, run_id);
}

proof fn lemma_oldest_with(list: Seq<RunRecordModel>, x: RunRecordModel)
    requires
        oldest_first(list),
    ensures
        oldest_first(oldest_with(list, x)),
        oldest_with(list, x).len() == list.len() + 1,
        oldest_with(list, x).len() > 0,
        oldest_with(list, x)[0] == x || (list.len() > 0 && oldest_with(list, x)[0] == list[0]),
        forall|y: RunRecordModel| #[trigger]
            oldest_with(list, x).contains(y) <==> list.contains(y) || y == x,
    decreases list.len(),
{
    let out = oldest_with(list, x);
    if list.len() == 0 {
        assert forall|y: RunRecordModel| #[trigger] out.contains(y) <==> (list.contains(y) || y
            == x) by {
            assert(out[0] == x);
        }
    } else if x.created_at < list[0].created_at {
        assert forall|i: int, j: int| 0 <= i < j < out.len() implies (#[trigger] out[i]).created_at
            <= (#[trigger] out[j]).created_at by {
            assert(out[j] == list[j - 1]);
            if j > 1 {
                assert(list[0].created_at <= list[j - 1].created_at);
            }
            if i > 0 {
                assert(out[i] == list[i - 1]);
            }
        }
        assert forall|y: RunRecordModel| #[trigger] out.contains(y) <==> (list.contains(y) || y
            == x) by {
            assert(out[0] == x);
            if list.contains(y) {
                assert(out[list.index_of(y) + 1] == y);
            }
            if out.contains(y) && y != x {
                assert(list[out.index_of(y) - 1] == y);
            }
        }
    } else {
        let rest = list.drop_first();
        assert forall|i: int, j: int| 0 <= i < j < rest.len() implies (
        #[trigger] rest[i]).created_at <= (#[trigger] rest[j]).created_at by {
            assert(list[i + 1].created_at <= list[j + 1].created_at);
        }
        lemma_oldest_with(rest, x);
        let more = oldest_with(rest, x);
        assert(out =~= seq![list[0]] + more);
        assert forall|i: int, j: int| 0 <= i < j < out.len() implies (#[trigger] out[i]).created_at
            <= (#[trigger] out[j]).created_at by {
            assert(out[j] == more[j - 1]);
            if i > 0 {
                assert(out[i] == more[i - 1]);
            } else {
                assert(more.contains(more[j - 1]));
                if more[j - 1] != x {
                    let k = rest.index_of(more[j - 1]);
                    assert(list[k + 1] == more[j - 1]);
                    assert(list[0].created_at <= list[k + 1].created_at);
                }
            }
        }
        assert forall|y: RunRecordModel| #[trigger] out.contains(y) <==> (list.contains(y) || y
            == x) by {
            assert(out[0] == list[0]);
            if list.contains(y) {
                let k = list.index_of(y);
                if k > 0 {
                    assert(rest[k - 1] == y);
                    assert(more.contains(y));
                    assert(out[more.index_of(y) + 1] == y);
                }
            }
            if y == x {
                assert(more.contains(y));
                assert(out[more.index_of(y) + 1] == y);
            }
            if out.contains(y) {
                let k = out.index_of(y);
                if k > 0 {
                    assert(more[k - 1] == y);
                    assert(more.contains(y));
                    if y != x {
                        assert(list[rest.index_of(y) + 1] == y);
                    }
                }
            }
        }
    }
}

/// Whether a list of records is oldest first.
pub open spec fn oldest_first(list: Seq<RunRecordModel>) -> bool {
    forall|i: int, j: int|
        0 <= i < j < list.len() ==> (#[trigger] list[i]).created_at <= (
        #[trigger] list[j]).created_at
}

/// The runs in a phase are found, all of them and no others, oldest first.
pub proof fn runs_in_a_phase_are_found(
    runs: Seq<StoredRunModel>,
    phase: RunPhase,
    record: RunRecordModel,
)
    ensures
        in_phase(runs, phase).contains(record) <==> record.phase == phase && exists|i: int|
            0 <= i < runs.len() && (#[trigger] runs[i]).record == record,
        oldest_first(in_phase(runs, phase)),
        in_phase(runs, phase).len() <= runs.len(),
    decreases runs.len(),
{
    if runs.len() > 0 {
        let rest = runs.drop_last();
        let last = runs.last().record;
        runs_in_a_phase_are_found(rest, phase, record);
        let before = in_phase(rest, phase);
        if last.phase == phase {
            lemma_oldest_with(before, last);
        }
        assert(runs[runs.len() - 1].record == last);
        if exists|i: int| 0 <= i < rest.len() && (#[trigger] rest[i]).record == record {
            let i = choose|i: int| 0 <= i < rest.len() && (#[trigger] rest[i]).record == record;
            assert(runs[i].record == record);
        }
        if exists|i: int| 0 <= i < runs.len() && (#[trigger] runs[i]).record == record {
            let i = choose|i: int| 0 <= i < runs.len() && (#[trigger] runs[i]).record == record;
            if i < rest.len() {
                assert(rest[i].record == record);
            }
        }
    }
}

/// A limit cuts a list off behind its first entries; without one all of it is
/// given.
pub proof fn limit_keeps_the_first<T>(list: Seq<T>, limit: usize, i: int)
    ensures
        at_most(list, None) == list,
        at_most(list, Some(limit)).len() == (if limit < list.len() {
            limit as int
        } else {
            list.len() as int
        }),
        0 <= i < at_most(list, Some(limit)).len() ==> at_most(list, Some(limit))[i] == list[i],
{
}

proof fn lemma_unpushed_of(
    run_id: Seq<char>,
    events: Seq<StoredEventModel>,
    through: u64,
    x: (Seq<char>, StoredEventModel),
)
    ensures
        unpushed_of(run_id, events, through).contains(x) <==> x.0 == run_id && x.1.sequence
            > through && events.contains(x.1),
    decreases events.len(),
{
    let all = unpushed_of(run_id, events, through);
    if events.len() > 0 {
        let rest = events.drop_last();
        let last = events.last();
        let before = unpushed_of(run_id, rest, through);
        lemma_unpushed_of(run_id, rest, through, x);
        assert(events[events.len() - 1] == last);
        if rest.contains(x.1) {
            assert(events[rest.index_of(x.1)] == x.1);
        }
        if events.contains(x.1) {
            let k = events.index_of(x.1);
            if k < rest.len() {
                assert(rest[k] == x.1);
            }
        }
        if before.contains(x) {
            assert(all[before.index_of(x)] == x);
        }
        if last.sequence > through {
            assert(all[before.len() as int] == (run_id, last));
        }
        if all.contains(x) {
            let k = all.index_of(x);
            if k < before.len() {
                assert(before[k] == x);
            }
        }
    }
}

proof fn lemma_unpushed_in(
    runs: Seq<StoredRunModel>,
    ids: Seq<Seq<char>>,
    x: (Seq<char>, StoredEventModel),
)
    ensures
        unpushed_in(runs, ids).contains(x) <==> ids.contains(x.0) && (run_index(
            runs,
            x.0,
        ) matches Some(i) && x.1.sequence > runs[i].pushed_through && runs[i].events.contains(x.1)),
    decreases ids.len(),
{
    let all = unpushed_in(runs, ids);
    if ids.len() > 0 {
        let rest = ids.drop_last();
        let last = ids.last();
        lemma_unpushed_in(runs, rest, x);
        let before = unpushed_in(runs, rest);
        let more = match run_index(runs, last) {
            Some(i) => unpushed_of(last, runs[i].events, runs[i].pushed_through),
            None => Seq::empty(),
        };
        assert(all == before + more);
        if let Some(i) = run_index(runs, last) {
            lemma_unpushed_of(last, runs[i].events, runs[i].pushed_through, x);
        }
        assert(ids[ids.len() - 1] == last);
        if rest.contains(x.0) {
            assert(ids[rest.index_of(x.0)] == x.0);
        }
        if ids.contains(x.0) {
            let k = ids.index_of(x.0);
            if k < rest.len() {
                assert(rest[k] == x.0);
            }
        }
        if before.contains(x) {
            assert(all[before.index_of(x)] == x);
        }
        if more.contains(x) {
            assert(all[before.len() + more.index_of(x)] == x);
        }
        if all.contains(x) {
            let k = all.index_of(x);
            if k < before.len() {
                assert(before[k] == x);
            } else {
                assert(more[k - before.len()] == x);
            }
        }
    }
}

proof fn lemma_run_ids(runs: Seq<StoredRunModel>, id: Seq<char>)
    ensures
        run_ids(runs).contains(id) <==> exists|i: int|
            0 <= i < runs.len() && (#[trigger] runs[i]).record.run_id == id,
        ascending(run_ids(runs)),
{
    let names = Seq::new(runs.len(), |i: int| runs[i].record.run_id);
    lemma_ids_sorted(runs);
    crate::graph::lemma_sorted_names(names);
    lemma_sorted_ascends(names);
    if names.contains(id) {
        assert(runs[names.index_of(id)].record.run_id == id);
    }
    if exists|i: int| 0 <= i < runs.len() && (#[trigger] runs[i]).record.run_id == id {
        let i = choose|i: int| 0 <= i < runs.len() && (#[trigger] runs[i]).record.run_id == id;
        assert(names[i] == id);
    }
}

proof fn lemma_ids_sorted(runs: Seq<StoredRunModel>)
    ensures
        run_ids(runs) == sorted_names(Seq::new(runs.len(), |i: int| runs[i].record.run_id)),
    decreases runs.len(),
{
    let names = Seq::new(runs.len(), |i: int| runs[i].record.run_id);
    if runs.len() > 0 {
        let rest = runs.drop_last();
        lemma_ids_sorted(rest);
        assert(names.drop_last() =~= Seq::new(rest.len(), |i: int| rest[i].record.run_id));
    }
}

/// The events that wait to be handed on are those behind the mark of their run,
/// of every run.
pub proof fn events_behind_the_mark_wait(
    runs: Seq<StoredRunModel>,
    x: (Seq<char>, StoredEventModel),
)
    ensures
        unpushed_in(runs, run_ids(runs)).contains(x) <==> (run_index(runs, x.0) matches Some(i)
            && x.1.sequence > runs[i].pushed_through && runs[i].events.contains(x.1)),
{
    lemma_unpushed_in(runs, run_ids(runs), x);
    lemma_run_ids(runs, x.0);
    run_is_found_by_its_id(runs, x.0);
}

/// To mark events moves the mark of their run forward, never back, and changes
/// nothing else.
pub proof fn mark_moves_forward(
    runs: Seq<StoredRunModel>,
    run_id: Seq<char>,
    through: u64,
    j: int,
)
    requires
        0 <= j < runs.len(),
    ensures
        ({
            let after = marked(runs, run_id, through);
            &&& after.len() == runs.len()
            &&& after[j].record == runs[j].record
            &&& after[j].hooks == runs[j].hooks
            &&& after[j].events == runs[j].events
            &&& after[j].pushed_through == (if run_index(runs, run_id) == Some(j) && through
                > runs[j].pushed_through {
                through
            } else {
                runs[j].pushed_through
            })
        }),
{
    run_is_found_by_its_id(runs, run_id);
}

/// A run that is created is running, with what was asked for and nothing else:
/// no steps, no hooks and no events.
pub proof fn new_run_is_as_asked_for(new: NewRunModel, run_id: Seq<char>, now: Timestamp)
    ensures
        ({
            let run = created(new, run_id, now);
            &&& run.record.run_id == run_id
            &&& run.record.flow_name == new.flow_name
            &&& run.record.flow_version == new.flow_version
            &&& run.record.definition == new.definition
            &&& run.record.inputs == new.inputs
            &&& run.record.trigger == new.trigger
            &&& run.record.idempotency_key == new.idempotency_key
            &&& run.record.phase == RunPhase::Running
            &&& !run.record.cancelled
            &&& run.record.created_at == now
            &&& run.record.updated_at == now
            &&& run.record.steps.len() == 0
            &&& run.hooks.len() == 0
            &&& run.events.len() == 0
            &&& run.pushed_through == 0
        }),
{
}

/// A run with a key is created exactly where no run has the key, behind the runs
/// that are there; one without a key always is.
pub proof fn taken_key_is_refused(
    runs: Seq<StoredRunModel>,
    new: NewRunModel,
    run_id: Seq<char>,
    now: Timestamp,
)
    ensures
        match store_created(runs, new, run_id, now) {
            Ok(after) => {
                &&& after == runs.push(created(new, run_id, now))
                &&& new.idempotency_key matches Some(key) ==> forall|j: int|
                    0 <= j < runs.len() ==> (#[trigger] runs[j]).record.idempotency_key != Some(
                        key,
                    )
            },
            Err(e) => new.idempotency_key matches Some(key) && e == StoreErrorModel::Duplicate(key)
                && exists|j: int|
                0 <= j < runs.len() && (#[trigger] runs[j]).record.idempotency_key == Some(key),
        },
{
    if let Some(key) = new.idempotency_key {
        run_is_found_by_its_key(runs, key);
    }
}

/// A filter by name and by phase lets exactly the runs pass that have both.
pub proof fn filters_are_kept(
    record: RunRecordModel,
    name: Option<Seq<char>>,
    phase: Option<RunPhase>,
)
    ensures
        passes(record, name, phase) <==> (name is None || name == Some(record.flow_name)) && (phase
            is None || phase == Some(record.phase)),
        ({
            let s = summary_of(record);
            &&& s.run_id == record.run_id
            &&& s.flow_name == record.flow_name
            &&& s.flow_version == record.flow_version
            &&& s.phase == record.phase
            &&& s.created_at.0 == record.created_at
            &&& s.updated_at.0 == record.updated_at
        }),
{
}

/// A run is listed behind those that were created when it was or later, and
/// before those that were created earlier.
pub proof fn run_is_listed_behind_the_newer(
    list: Seq<RunSummaryModel>,
    x: RunSummaryModel,
) -> (k: int)
    ensures
        0 <= k <= list.len(),
        newest_with(list, x) == list.take(k) + seq![x] + list.skip(k),
        forall|i: int| 0 <= i < k ==> (#[trigger] list[i]).created_at.0 >= x.created_at.0,
        k < list.len() ==> list[k].created_at.0 < x.created_at.0,
    decreases list.len(),
{
    if list.len() == 0 || list[0].created_at.0 < x.created_at.0 {
        assert(newest_with(list, x) =~= list.take(0) + seq![x] + list.skip(0));
        0
    } else {
        let rest = list.drop_first();
        let k = run_is_listed_behind_the_newer(rest, x);
        assert(newest_with(list, x) =~= list.take(k + 1) + seq![x] + list.skip(k + 1));
        assert forall|i: int| 0 <= i < k + 1 implies (#[trigger] list[i]).created_at.0
            >= x.created_at.0 by {
            if i > 0 {
                assert(rest[i - 1] == list[i]);
            }
        }
        k + 1
    }
}

/// A run is taken up behind those that were created when it was or earlier, and
/// before those that were created later.
pub proof fn run_is_taken_up_behind_the_older(
    list: Seq<RunRecordModel>,
    x: RunRecordModel,
) -> (k: int)
    ensures
        0 <= k <= list.len(),
        oldest_with(list, x) == list.take(k) + seq![x] + list.skip(k),
        forall|i: int| 0 <= i < k ==> (#[trigger] list[i]).created_at <= x.created_at,
        k < list.len() ==> x.created_at < list[k].created_at,
    decreases list.len(),
{
    if list.len() == 0 || x.created_at < list[0].created_at {
        assert(oldest_with(list, x) =~= list.take(0) + seq![x] + list.skip(0));
        0
    } else {
        let rest = list.drop_first();
        let k = run_is_taken_up_behind_the_older(rest, x);
        assert(oldest_with(list, x) =~= list.take(k + 1) + seq![x] + list.skip(k + 1));
        assert forall|i: int| 0 <= i < k + 1 implies (#[trigger] list[i]).created_at
            <= x.created_at by {
            if i > 0 {
                assert(rest[i - 1] == list[i]);
            }
        }
        k + 1
    }
}

} // verus!
