//! What is read from the record of a run: laws of its state, of recovery and of
//! answers to steps that wait.
use crate::graph::{lemma_sorted_ascends, lemma_sorted_names, sorted_names};
use crate::json::{json_member, set_member_is_read, with_entry, Json};
use crate::ports::{
    latest_of, latest_record_is_highest_attempt, latest_records, record_ids, runs_of, state_of,
    MutationModel, RunEventType, RunRecordModel, StepRecordModel,
};
use crate::recovery::{
    run_recovery, step_recovery, steps_recovery, RecoveryActionModel, RecoveryReason,
};
use crate::run::route_laws::{first_run_is_found, found_run_has_the_id};
use crate::run::types::{find_run, EventModel, StepStatus, Timestamp};
use crate::scheduler::recovery_event_of;
use crate::use_cases::approvals::{
    meant_step, note_json, resolved_event, waiting_ids, ApprovalErrorModel,
};
use vstd::prelude::*;

verus! {

proof fn lemma_latest_at(steps: Seq<StepRecordModel>, i: int)
    requires
        0 <= i < latest_records(steps).len(),
    ensures
        latest_of(steps, sorted_names(record_ids(steps))[i]) == Some(latest_records(steps)[i]),
        latest_records(steps)[i].run.step_id == sorted_names(record_ids(steps))[i],
{
    let ids = sorted_names(record_ids(steps));
    lemma_sorted_names(record_ids(steps));
    assert(ids.contains(ids[i]));
    latest_record_is_highest_attempt(steps, ids[i]);
}

/// The latest records are one of every step that has any, in the order of their
/// ids.
pub proof fn latest_records_are_one_of_each(
    steps: Seq<StepRecordModel>,
    record: StepRecordModel,
)
    ensures
        latest_records(steps).contains(record) <==> latest_of(steps, record.run.step_id) == Some(
            record,
        ),
        forall|i: int, j: int|
            0 <= i < j < latest_records(steps).len() ==> crate::text::text_le(
                (#[trigger] latest_records(steps)[i]).run.step_id,
                (#[trigger] latest_records(steps)[j]).run.step_id,
            ) && latest_records(steps)[i].run.step_id != latest_records(steps)[j].run.step_id,
{
    let ids = sorted_names(record_ids(steps));
    let all = latest_records(steps);
    lemma_sorted_names(record_ids(steps));
    lemma_sorted_ascends(record_ids(steps));
    if all.contains(record) {
        let i = all.index_of(record);
        lemma_latest_at(steps, i);
    }
    if latest_of(steps, record.run.step_id) == Some(record) {
        latest_record_is_highest_attempt(steps, record.run.step_id);
        assert(ids.contains(record.run.step_id));
        let i = ids.index_of(record.run.step_id);
        assert(all[i] == record);
    }
    assert forall|i: int, j: int| 0 <= i < j < all.len() implies crate::text::text_le(
        (#[trigger] all[i]).run.step_id,
        (#[trigger] all[j]).run.step_id,
    ) && all[i].run.step_id != all[j].run.step_id by {
        lemma_latest_at(steps, i);
        lemma_latest_at(steps, j);
        assert(crate::text::text_le(ids[i], ids[j]) && ids[i] != ids[j]);
    }
}

/// The engine sees of every step its latest attempt, and of the run its inputs,
/// its trigger and whether it was cancelled.
pub proof fn state_shows_the_latest_attempts(record: RunRecordModel, id: Seq<char>)
    ensures
        find_run(state_of(record).steps, id) == (match latest_of(record.steps, id) {
            Some(step) => Some(step.run),
            None => None,
        }),
        state_of(record).inputs == record.inputs,
        state_of(record).trigger == record.trigger,
        state_of(record).cancelled == record.cancelled,
{
    let all = latest_records(record.steps);
    let runs = runs_of(all);
    let ids = sorted_names(record_ids(record.steps));
    latest_record_is_highest_attempt(record.steps, id);
    lemma_sorted_names(record_ids(record.steps));
    match latest_of(record.steps, id) {
        Some(step) => {
            assert(ids.contains(id));
            let i = ids.index_of(id);
            assert(all[i] == step);
            assert forall|j: int| 0 <= j < i implies (#[trigger] runs[j]).step_id
                != runs[i].step_id by {
                latest_records_are_one_of_each(record.steps, step);
                assert(all[j].run.step_id != all[i].run.step_id);
            }
            first_run_is_found(runs, i);
        },
        None => {
            found_run_has_the_id(runs, id);
            if let Some(run) = find_run(runs, id) {
                let k = runs.index_of(run);
                lemma_latest_at(record.steps, k);
                assert(ids.contains(ids[k]));
            }
        },
    }
}

/// After a restart a step whose job is known is waited for again; one that ran
/// without a known job counts as interrupted; one that waits for approval goes
/// on waiting; a subflow is looked at again where its run is known. All other
/// steps are left alone.
pub proof fn restart_takes_up_each_step(run_id: Seq<char>, step: StepRecordModel)
    ensures
        ({
            let step_id = step.run.step_id;
            let attempt = step.run.attempt;
            let interrupted = Some(
                RecoveryActionModel::FailStep {
                    run_id,
                    step_id,
                    attempt,
                    reason: RecoveryReason::Interrupted,
                },
            );
            let action = step_recovery(run_id, step);
            &&& step.run.status == StepStatus::Running ==> action == (match step.job_id {
                Some(job_id) => Some(
                    RecoveryActionModel::ReattachStep { run_id, step_id, attempt, job_id },
                ),
                None => interrupted,
            })
            &&& step.run.status == StepStatus::WaitingApproval ==> action == Some(
                RecoveryActionModel::LeaveWaitingApproval { run_id, step_id, attempt },
            )
            &&& step.run.status == StepStatus::WaitingOnSubflow ==> action == (
            match step.run.child_run_id {
                Some(child_run_id) => Some(
                    RecoveryActionModel::RecheckSubflow { run_id, step_id, attempt, child_run_id },
                ),
                None => interrupted,
            })
            &&& step.run.status != StepStatus::Running && step.run.status
                != StepStatus::WaitingApproval && step.run.status != StepStatus::WaitingOnSubflow
                ==> action is None
        }),
{
}

proof fn lemma_steps_recovered(
    run_id: Seq<char>,
    steps: Seq<StepRecordModel>,
    action: RecoveryActionModel,
)
    ensures
        steps_recovery(run_id, steps).contains(action) <==> exists|i: int|
            0 <= i < steps.len() && step_recovery(run_id, #[trigger] steps[i]) == Some(action),
    decreases steps.len(),
{
    let all = steps_recovery(run_id, steps);
    if steps.len() > 0 {
        let rest = steps.drop_last();
        let before = steps_recovery(run_id, rest);
        lemma_steps_recovered(run_id, rest, action);
        assert(steps[steps.len() - 1] == steps.last());
        if before.contains(action) {
            assert(all[before.index_of(action)] == action);
            let i = choose|i: int|
                0 <= i < rest.len() && step_recovery(run_id, #[trigger] rest[i]) == Some(action);
            assert(steps[i] == rest[i]);
        }
        if let Some(a) = step_recovery(run_id, steps.last()) {
            assert(all[before.len() as int] == a);
        }
        if all.contains(action) {
            let k = all.index_of(action);
            if k < before.len() {
                assert(before[k] == action);
            }
        }
        if exists|i: int|
            0 <= i < steps.len() && step_recovery(run_id, #[trigger] steps[i]) == Some(action) {
            let i = choose|i: int|
                0 <= i < steps.len() && step_recovery(run_id, #[trigger] steps[i]) == Some(action);
            if i < rest.len() {
                assert(rest[i] == steps[i]);
            }
        }
    }
}

/// What a restart does with a run is what it does with the latest attempt at
/// each of its steps, and no more; a run without any step is started again.
pub proof fn restart_takes_up_the_latest_attempts(
    run: RunRecordModel,
    action: RecoveryActionModel,
)
    ensures
        run_recovery(run).contains(action) <==> (exists|step: StepRecordModel|
            latest_of(run.steps, step.run.step_id) == Some(step) && #[trigger] step_recovery(
                run.run_id,
                step,
            ) == Some(action)) || (run.steps.len() == 0 && action
            == RecoveryActionModel::ReissueRunStarted { run_id: run.run_id }),
{
    let steps = latest_records(run.steps);
    let a = steps_recovery(run.run_id, steps);
    let b = if run.steps.len() == 0 {
        seq![RecoveryActionModel::ReissueRunStarted { run_id: run.run_id }]
    } else {
        Seq::empty()
    };
    let all = run_recovery(run);
    assert(all == a + b);
    lemma_steps_recovered(run.run_id, steps, action);
    if a.contains(action) {
        assert(all[a.index_of(action)] == action);
        let i = choose|i: int|
            0 <= i < steps.len() && step_recovery(run.run_id, #[trigger] steps[i]) == Some(action);
        latest_records_are_one_of_each(run.steps, steps[i]);
        assert(steps.contains(steps[i]));
    }
    if b.contains(action) {
        assert(all[a.len() + b.index_of(action)] == action);
    }
    if run.steps.len() == 0 {
        assert(b[0] == RecoveryActionModel::ReissueRunStarted { run_id: run.run_id });
    }
    if all.contains(action) {
        let k = all.index_of(action);
        if k < a.len() {
            assert(a[k] == action);
        } else {
            assert(b[k - a.len()] == action);
        }
    }
    if exists|step: StepRecordModel|
        latest_of(run.steps, step.run.step_id) == Some(step) && #[trigger] step_recovery(
            run.run_id,
            step,
        ) == Some(action) {
        let step = choose|step: StepRecordModel|
            latest_of(run.steps, step.run.step_id) == Some(step) && #[trigger] step_recovery(
                run.run_id,
                step,
            ) == Some(action);
        latest_records_are_one_of_each(run.steps, step);
        let i = steps.index_of(step);
        assert(step_recovery(run.run_id, steps[i]) == Some(action));
    }
}

/// A step that was interrupted is reported as failed and a run that had not
/// begun as started, each to its own run; nothing else is reported.
pub proof fn recovery_reports_to_its_run(
    run_id: Seq<char>,
    step_id: Seq<char>,
    attempt: u32,
    other: Seq<char>,
)
    ensures
        recovery_event_of(
            RecoveryActionModel::FailStep {
                run_id,
                step_id,
                attempt,
                reason: RecoveryReason::Interrupted,
            },
        ) matches Some((id, EventModel::StepFailed { step_id: failed, .. })) && id == run_id
            && failed == step_id,
        recovery_event_of(RecoveryActionModel::ReissueRunStarted { run_id }) == Some(
            (run_id, EventModel::RunStarted),
        ),
        recovery_event_of(
            RecoveryActionModel::ReattachStep { run_id, step_id, attempt, job_id: other },
        ) is None,
        recovery_event_of(RecoveryActionModel::LeaveWaitingApproval { run_id, step_id, attempt })
            is None,
        recovery_event_of(
            RecoveryActionModel::RecheckSubflow { run_id, step_id, attempt, child_run_id: other },
        ) is None,
{
}

/// Whether a step waits for an answer: its latest attempt does.
pub open spec fn waits(record: RunRecordModel, id: Seq<char>) -> bool {
    latest_of(record.steps, id) matches Some(step) && step.run.status
        == StepStatus::WaitingApproval
}

proof fn lemma_waiting(steps: Seq<StepRecordModel>, id: Seq<char>)
    ensures
        waiting_ids(steps).contains(id) <==> exists|i: int|
            0 <= i < steps.len() && (#[trigger] steps[i]).run.step_id == id && steps[i].run.status
                == StepStatus::WaitingApproval,
        waiting_ids(steps).len() <= steps.len(),
    decreases steps.len(),
{
    let all = waiting_ids(steps);
    if steps.len() > 0 {
        let rest = steps.drop_last();
        let before = waiting_ids(rest);
        lemma_waiting(rest, id);
        assert(steps[steps.len() - 1] == steps.last());
        if before.contains(id) {
            assert(all[before.index_of(id)] == id);
            let i = choose|i: int|
                0 <= i < rest.len() && (#[trigger] rest[i]).run.step_id == id
                    && rest[i].run.status == StepStatus::WaitingApproval;
            assert(steps[i] == rest[i]);
        }
        if steps.last().run.status == StepStatus::WaitingApproval {
            assert(all[before.len() as int] == steps.last().run.step_id);
        }
        if all.contains(id) {
            let k = all.index_of(id);
            if k < before.len() {
                assert(before[k] == id);
            }
        }
        if exists|i: int|
            0 <= i < steps.len() && (#[trigger] steps[i]).run.step_id == id && steps[i].run.status
                == StepStatus::WaitingApproval {
            let i = choose|i: int|
                0 <= i < steps.len() && (#[trigger] steps[i]).run.step_id == id
                    && steps[i].run.status == StepStatus::WaitingApproval;
            if i < rest.len() {
                assert(rest[i] == steps[i]);
            }
        }
    }
}

proof fn lemma_waits(record: RunRecordModel, id: Seq<char>)
    ensures
        waiting_ids(latest_records(record.steps)).contains(id) <==> waits(record, id),
{
    let steps = latest_records(record.steps);
    lemma_waiting(steps, id);
    if waiting_ids(steps).contains(id) {
        let i = choose|i: int|
            0 <= i < steps.len() && (#[trigger] steps[i]).run.step_id == id && steps[i].run.status
                == StepStatus::WaitingApproval;
        assert(steps.contains(steps[i]));
        latest_records_are_one_of_each(record.steps, steps[i]);
    }
    if waits(record, id) {
        let step = latest_of(record.steps, id)->Some_0;
        latest_record_is_highest_attempt(record.steps, id);
        latest_records_are_one_of_each(record.steps, step);
        let i = steps.index_of(step);
        assert(steps[i].run.step_id == id);
    }
}

proof fn lemma_waiting_once(steps: Seq<StepRecordModel>)
    requires
        forall|i: int, j: int|
            0 <= i < j < steps.len() ==> (#[trigger] steps[i]).run.step_id != (
            #[trigger] steps[j]).run.step_id,
    ensures
        waiting_ids(steps).no_duplicates(),
    decreases steps.len(),
{
    if steps.len() > 0 {
        let rest = steps.drop_last();
        assert forall|i: int, j: int| 0 <= i < j < rest.len() implies (
        #[trigger] rest[i]).run.step_id != (#[trigger] rest[j]).run.step_id by {
            assert(steps[i].run.step_id != steps[j].run.step_id);
        }
        lemma_waiting_once(rest);
        let last = steps.last();
        lemma_waiting(rest, last.run.step_id);
        let before = waiting_ids(rest);
        if before.contains(last.run.step_id) {
            let i = choose|i: int|
                0 <= i < rest.len() && (#[trigger] rest[i]).run.step_id == last.run.step_id
                    && rest[i].run.status == StepStatus::WaitingApproval;
            assert(steps[i].run.step_id != steps[steps.len() - 1].run.step_id);
        }
    }
}

/// An answer is for the step that is named, which has to wait, or else for the
/// only step that waits. Where none waits, or more than one and none is named,
/// there is no answer.
pub proof fn answer_is_for_a_waiting_step(
    record: RunRecordModel,
    named: Option<Seq<char>>,
    a: Seq<char>,
    b: Seq<char>,
)
    ensures
        meant_step(record, named) matches Ok(id) ==> waits(record, id) && (named matches Some(n)
            ==> n == id),
        named == Some(a) && waits(record, a) ==> meant_step(record, named) == Ok::<
            Seq<char>,
            ApprovalErrorModel,
        >(a),
        named == Some(a) && !waits(record, a) ==> meant_step(record, named) == Err::<
            Seq<char>,
            ApprovalErrorModel,
        >(ApprovalErrorModel::NotWaiting(a)),
        named is None && waits(record, a) && waits(record, b) && a != b ==> meant_step(
            record,
            named,
        ) == Err::<Seq<char>, ApprovalErrorModel>(ApprovalErrorModel::AmbiguousStep),
        named is None && (forall|id: Seq<char>| !#[trigger] waits(record, id)) ==> meant_step(
            record,
            named,
        ) == Err::<Seq<char>, ApprovalErrorModel>(ApprovalErrorModel::NoWaitingStep),
        named is None && waits(record, a) && (forall|id: Seq<char>| #[trigger] waits(record, id)
            ==> id == a) ==> meant_step(record, named) == Ok::<Seq<char>, ApprovalErrorModel>(a),
{
    let waiting = waiting_ids(latest_records(record.steps));
    lemma_waits(record, a);
    lemma_waits(record, b);
    if let Ok(id) = meant_step(record, named) {
        lemma_waits(record, id);
        if named is None {
            assert(waiting.contains(waiting[0]));
        }
    }
    if waiting.len() > 0 {
        assert(waiting.contains(waiting[0]));
        lemma_waits(record, waiting[0]);
    }
    if waiting.len() > 1 {
        let steps = latest_records(record.steps);
        assert forall|i: int, j: int| 0 <= i < j < steps.len() implies (
        #[trigger] steps[i]).run.step_id != (#[trigger] steps[j]).run.step_id by {
            latest_records_are_one_of_each(record.steps, steps[i]);
        }
        lemma_waiting_once(steps);
        assert(waiting.contains(waiting[1]));
        lemma_waits(record, waiting[1]);
        assert(waiting[0] != waiting[1]);
    }
}

/// An answer is reported for its step, with the decision and with what was said.
pub proof fn answer_is_reported(
    step_id: Seq<char>,
    decision: Seq<char>,
    key: Seq<char>,
    note: Json,
    now: Timestamp,
)
    requires
        key != "decision"@,
    ensures
        resolved_event(step_id, decision, key, note, now) matches MutationModel::AppendEvent(e) && {
            &&& e.event_type == RunEventType::ApprovalResolved
            &&& e.step_id == Some(step_id)
            &&& e.timestamp == now
            &&& json_member(e.payload, "decision"@) == Some(Json::Text(decision))
            &&& json_member(e.payload, key) == Some(note)
        },
{
    let none = Seq::<(Seq<char>, Json)>::empty();
    let a = with_entry(none, "decision"@, Json::Text(decision));
    set_member_is_read(none, "decision"@, Json::Text(decision), "decision"@);
    set_member_is_read(a, key, note, "decision"@);
    set_member_is_read(a, key, note, key);
}

/// A comment is reported as the text that it is, and as `null` where there is
/// none.
pub proof fn comment_is_reported(text: Seq<char>)
    ensures
        note_json(Some(text)) == Json::Text(text),
        note_json(None) == Json::Null,
{
}

} // verus!
