//! What is shown of runs and flows: laws of the answers to questions.
use crate::flow::types::{find_step, FlowModel};
use crate::json::Json;
use crate::names::{
    hook_phase_name_reads_back, hook_phase_named, hook_status_name_reads_back, hook_status_named,
    phase_name_reads_back, phase_named, status_name_reads_back, status_named,
};
use crate::ports::{
    latest_of, latest_record_is_highest_attempt, latest_records, record_ids, state_of, HookRunModel,
    HookStatus, RunFilter, RunRecordModel, RunTree, StepRecordModel,
};
use crate::record_laws::{latest_records_are_one_of_each, state_shows_the_latest_attempts, waits};
use crate::rows::{list_params, list_sql, CellModel};
use crate::run::types::{active, terminal, RunPhase, StepStatus, Timestamp};
use crate::store::find_attempt;
use crate::store_laws::records_are_found;
use crate::use_cases::cancel_run::cancelled_of;
use crate::use_cases::queries::{
    duration_between, failed_in_of, flow_summary_of, flows_shown, hook_info_of, hooks_shown,
    last_end, open_ids, open_steps_have_not_ended, output_of, pending_of, poll_of, snapshot_of,
    status_of, step_info_of, step_snapshot_of, summary_view, tree_view, waiting_of, PendingModel,
    QueryErrorModel,
};
use crate::use_cases::start_flow::started_of;
use crate::wire::summary_of;
use vstd::prelude::*;

verus! {

/// The status of a run shows every step that has a record, with its latest
/// attempt, and no other: what became of it, what went wrong, what a human said,
/// and the front of its output.
pub proof fn status_shows_the_latest_attempt(
    record: RunRecordModel,
    hooks: Seq<HookRunModel>,
    polls: Seq<(Seq<char>, u64)>,
    i: int,
    id: Seq<char>,
)
    ensures
        0 <= i < status_of(record, hooks, polls).steps.len() ==> ({
            let shown = status_of(record, hooks, polls).steps[i];
            latest_of(record.steps, shown.step_id) matches Some(step) && {
                &&& shown.attempt == step.run.attempt
                &&& status_named(shown.status) == Some(step.run.status)
                &&& shown.failure_reason == step.run.failure_reason
                &&& shown.failure == step.failure_detail
                &&& shown.feedback == step.run.feedback
                &&& match (step.run.output, shown.output_summary) {
                    (Some(v), Some(s)) => s == summary_of(v, 500),
                    (None, None) => true,
                    _ => false,
                }
                &&& match (step.run.started_at, shown.started_at) {
                    (Some(t), Some(s)) => s.0 == t,
                    (None, None) => true,
                    _ => false,
                }
                &&& match (step.run.completed_at, shown.completed_at) {
                    (Some(t), Some(s)) => s.0 == t,
                    (None, None) => true,
                    _ => false,
                }
                &&& shown.hooks == hooks_shown(hooks, Some(shown.step_id))
                &&& shown.last_poll_ago_secs == poll_of(polls, shown.step_id)
            }
        }),
        latest_of(record.steps, id) is Some ==> exists|k: int|
            0 <= k < status_of(record, hooks, polls).steps.len() && (#[trigger] status_of(
                record,
                hooks,
                polls,
            ).steps[k]).step_id == id,
{
    let latest = latest_records(record.steps);
    let all = status_of(record, hooks, polls).steps;
    if 0 <= i < all.len() {
        let step = latest[i];
        assert(latest.contains(step));
        latest_records_are_one_of_each(record.steps, step);
        status_name_reads_back(step.run.status);
        assert(all[i] == step_info_of(step, hooks, polls));
    }
    if let Some(step) = latest_of(record.steps, id) {
        latest_record_is_highest_attempt(record.steps, id);
        latest_records_are_one_of_each(record.steps, step);
        let k = latest.index_of(step);
        assert(all[k].step_id == id);
    }
}

/// The status of a run names the run, its flow and its phase, and lists as
/// active exactly the steps whose latest attempt has not ended.
pub proof fn status_lists_what_has_not_ended(
    record: RunRecordModel,
    hooks: Seq<HookRunModel>,
    polls: Seq<(Seq<char>, u64)>,
    id: Seq<char>,
)
    ensures
        ({
            let shown = status_of(record, hooks, polls);
            &&& shown.run_id == record.run_id
            &&& shown.flow_name == record.flow_name
            &&& shown.flow_version == record.flow_version
            &&& phase_named(shown.phase) == Some(record.phase)
            &&& shown.created_at.0 == record.created_at
            &&& shown.updated_at.0 == record.updated_at
            &&& (exists|k: int|
                0 <= k < shown.active_steps.len() && (#[trigger] shown.active_steps[k]).step_id
                    == id) <==> (latest_of(record.steps, id) matches Some(step) && !terminal(
                step.run.status,
            ))
            &&& forall|k: int|
                0 <= k < shown.active_steps.len() ==> (latest_of(
                    record.steps,
                    (#[trigger] shown.active_steps[k]).step_id,
                ) matches Some(step) && status_named(shown.active_steps[k].status) == Some(
                    step.run.status,
                )) && shown.active_steps[k].last_poll_ago_secs == poll_of(
                    polls,
                    shown.active_steps[k].step_id,
                )
        }),
{
    phase_name_reads_back(record.phase);
    let runs = state_of(record).steps;
    let open = open_ids(runs);
    let shown = status_of(record, hooks, polls);
    open_steps_have_not_ended(runs, id);
    lemma_open(record, id);
    if open.contains(id) {
        let k = open.index_of(id);
        assert(shown.active_steps[k].step_id == id);
    }
    if exists|k: int|
        0 <= k < shown.active_steps.len() && (#[trigger] shown.active_steps[k]).step_id == id {
        let k = choose|k: int|
            0 <= k < shown.active_steps.len() && (#[trigger] shown.active_steps[k]).step_id == id;
        assert(open[k] == id);
    }
    assert forall|k: int| 0 <= k < shown.active_steps.len() implies (latest_of(
        record.steps,
        (#[trigger] shown.active_steps[k]).step_id,
    ) matches Some(step) && status_named(shown.active_steps[k].status) == Some(
        step.run.status,
    )) && shown.active_steps[k].last_poll_ago_secs == poll_of(
        polls,
        shown.active_steps[k].step_id,
    ) by {
        let x = open[k];
        assert(open.contains(x));
        lemma_open(record, x);
        state_shows_the_latest_attempts(record, x);
        status_name_reads_back(latest_of(record.steps, x)->Some_0.run.status);
    }
}

proof fn lemma_open(record: RunRecordModel, id: Seq<char>)
    ensures
        open_ids(state_of(record).steps).contains(id) <==> (latest_of(
            record.steps,
            id,
        ) matches Some(step) && !terminal(step.run.status)),
{
    let runs = state_of(record).steps;
    let latest = latest_records(record.steps);
    open_steps_have_not_ended(runs, id);
    if open_ids(runs).contains(id) {
        let i = choose|i: int|
            0 <= i < runs.len() && (#[trigger] runs[i]).step_id == id && !terminal(runs[i].status);
        assert(latest.contains(latest[i]));
        latest_records_are_one_of_each(record.steps, latest[i]);
    }
    if let Some(step) = latest_of(record.steps, id) {
        latest_record_is_highest_attempt(record.steps, id);
        latest_records_are_one_of_each(record.steps, step);
        let i = latest.index_of(step);
        assert(runs[i] == step.run);
    }
}

/// The hooks of a step, or of the run, are shown, all of them and in order.
pub proof fn hooks_are_shown_where_they_belong(
    a: Seq<HookRunModel>,
    h: HookRunModel,
    b: Seq<HookRunModel>,
    step_id: Option<Seq<char>>,
)
    ensures
        hooks_shown(a.push(h) + b, step_id) == (if h.step_id == step_id {
            hooks_shown(a, step_id).push(hook_info_of(h)) + hooks_shown(b, step_id)
        } else {
            hooks_shown(a, step_id) + hooks_shown(b, step_id)
        }),
        hooks_shown(Seq::empty(), step_id).len() == 0,
{
    lemma_hooks_sum(a.push(h), b, step_id);
    assert(a.push(h).drop_last() =~= a);
}

proof fn lemma_hooks_sum(a: Seq<HookRunModel>, b: Seq<HookRunModel>, step_id: Option<Seq<char>>)
    ensures
        hooks_shown(a + b, step_id) == hooks_shown(a, step_id) + hooks_shown(b, step_id),
    decreases b.len(),
{
    let all = a + b;
    if b.len() == 0 {
        assert(all =~= a);
        assert(hooks_shown(a, step_id) + hooks_shown(b, step_id) =~= hooks_shown(a, step_id));
    } else {
        assert(all.drop_last() =~= a + b.drop_last());
        lemma_hooks_sum(a, b.drop_last(), step_id);
        assert(hooks_shown(all, step_id) =~= hooks_shown(a, step_id) + hooks_shown(b, step_id));
    }
}

/// A hook is shown with its phase, what became of it, its job and what went
/// wrong.
pub proof fn hook_is_shown_as_recorded(h: HookRunModel)
    ensures
        ({
            let shown = hook_info_of(h);
            &&& shown.hook == h.hook
            &&& hook_phase_named(shown.phase) == Some(h.phase)
            &&& hook_status_named(shown.status) == Some(h.status)
            &&& shown.job_id == h.job_id
            &&& shown.failure == h.failure_detail
            &&& shown.started_at.0 == h.started_at
            &&& match (h.completed_at, shown.completed_at) {
                (Some(t), Some(s)) => s.0 == t,
                (None, None) => true,
                _ => false,
            }
            &&& match (h.failure_reason, shown.failure_summary) {
                (Some(t), Some(s)) => s == summary_of(Json::Text(t), 500),
                (None, None) => true,
                _ => false,
            }
        }),
{
    hook_phase_name_reads_back(h.phase);
    hook_status_name_reads_back(h.status);
}

/// A failed step failed in a hook after it exactly where one of its hooks
/// failed; a step that has not failed failed nowhere.
pub proof fn failure_is_placed(step: StepRecordModel, hooks: Seq<HookRunModel>)
    ensures
        failed_in_of(step, hooks) is Some <==> step.run.status == StepStatus::Failed,
        failed_in_of(step, hooks) == Some("after_hook"@) <==> step.run.status == StepStatus::Failed
            && exists|i: int|
            0 <= i < hooks.len() && (#[trigger] hooks[i]).step_id == Some(step.run.step_id)
                && hooks[i].status == HookStatus::Failed,
{
    reveal_strlit("after_hook");
    reveal_strlit("step");
    assert("after_hook"@.len() != "step"@.len());
}

/// When a step was last seen alive is what is known of it first.
pub proof fn last_poll_is_found(polls: Seq<(Seq<char>, u64)>, i: int, id: Seq<char>)
    ensures
        0 <= i < polls.len() && (forall|j: int| 0 <= j < i ==> (#[trigger] polls[j]).0 != polls[i].0)
            ==> poll_of(polls, polls[i].0) == Some(polls[i].1),
        poll_of(polls, id) is None <==> forall|j: int|
            0 <= j < polls.len() ==> (#[trigger] polls[j]).0 != id,
    decreases polls.len(),
{
    if polls.len() > 0 {
        let rest = polls.drop_first();
        last_poll_is_found(rest, i - 1, id);
        if 0 < i < polls.len() && (forall|j: int|
            0 <= j < i ==> (#[trigger] polls[j]).0 != polls[i].0) {
            assert(polls[0].0 != polls[i].0);
            assert forall|j: int| 0 <= j < i - 1 implies (#[trigger] rest[j]).0 != rest[i
                - 1].0 by {
                assert(polls[j + 1].0 != polls[i].0);
            }
        }
        if polls[0].0 != id {
            if forall|j: int| 0 <= j < rest.len() ==> (#[trigger] rest[j]).0 != id {
                assert forall|j: int| 0 <= j < polls.len() implies (#[trigger] polls[j]).0
                    != id by {
                    if j > 0 {
                        assert(rest[j - 1].0 != id);
                    }
                }
            }
            if forall|j: int| 0 <= j < polls.len() ==> (#[trigger] polls[j]).0 != id {
                assert forall|j: int| 0 <= j < rest.len() implies (#[trigger] rest[j]).0 != id by {
                    assert(polls[j + 1].0 != id);
                }
            }
        }
    }
}

/// The output that is shown is that of the attempt that was asked for, or of the
/// latest one where none was; what is not there is reported as missing.
pub proof fn output_is_that_of_the_attempt(
    record: RunRecordModel,
    step_id: Seq<char>,
    attempt: Option<u32>,
)
    ensures
        match output_of(record, step_id, attempt) {
            Ok(shown) => {
                &&& shown.run_id == record.run_id
                &&& shown.step_id == step_id
                &&& attempt matches Some(n) ==> shown.attempt == n
                &&& exists|i: int|
                    0 <= i < record.steps.len() && is_shown(#[trigger] record.steps[i], shown)
                &&& attempt is None ==> forall|i: int|
                    0 <= i < record.steps.len() && (#[trigger] record.steps[i]).run.step_id
                        == step_id ==> record.steps[i].run.attempt <= shown.attempt
            },
            Err(e) => match attempt {
                Some(n) => e == QueryErrorModel::AttemptNotFound(n, step_id) && forall|i: int|
                    0 <= i < record.steps.len() ==> (#[trigger] record.steps[i]).run.step_id
                        != step_id || record.steps[i].run.attempt != n,
                None => e == QueryErrorModel::StepNotFound(step_id) && forall|i: int|
                    0 <= i < record.steps.len() ==> (#[trigger] record.steps[i]).run.step_id
                        != step_id,
            },
        },
{
    match attempt {
        Some(n) => {
            records_are_found(record.steps, step_id, n);
            if let Some(step) = find_attempt(record.steps, step_id, n) {
                status_name_reads_back(step.run.status);
                let i = record.steps.index_of(step);
                assert(is_shown(record.steps[i], output_of(record, step_id, attempt)->Ok_0));
            }
        },
        None => {
            latest_record_is_highest_attempt(record.steps, step_id);
            match latest_of(record.steps, step_id) {
                Some(step) => {
                    status_name_reads_back(step.run.status);
                    let i = record.steps.index_of(step);
                    assert(is_shown(record.steps[i], output_of(record, step_id, attempt)->Ok_0));
                },
                None => {
                    assert forall|i: int| 0 <= i < record.steps.len() implies (
                    #[trigger] record.steps[i]).run.step_id != step_id by {
                        assert(record_ids(record.steps)[i] == record.steps[i].run.step_id);
                    }
                },
            }
        },
    }
}

/// Whether what is shown is what a record says.
pub open spec fn is_shown(
    step: StepRecordModel,
    shown: crate::use_cases::queries::StepOutputModel,
) -> bool {
    &&& shown.step_id == step.run.step_id
    &&& shown.attempt == step.run.attempt
    &&& status_named(shown.status) == Some(step.run.status)
    &&& shown.output == step.run.output
    &&& shown.failure_reason == step.run.failure_reason
    &&& shown.failure == step.failure_detail
    &&& shown.feedback == step.run.feedback
}

proof fn lemma_waiting_of(run_id: Seq<char>, steps: Seq<StepRecordModel>, p: PendingModel)
    ensures
        waiting_of(run_id, steps).contains(p) <==> p.run_id == run_id && exists|i: int|
            0 <= i < steps.len() && (#[trigger] steps[i]).run.step_id == p.step_id
                && steps[i].run.output == p.output && steps[i].run.status
                == StepStatus::WaitingApproval,
    decreases steps.len(),
{
    let all = waiting_of(run_id, steps);
    if steps.len() > 0 {
        let rest = steps.drop_last();
        let before = waiting_of(run_id, rest);
        lemma_waiting_of(run_id, rest, p);
        assert(steps[steps.len() - 1] == steps.last());
        if before.contains(p) {
            assert(all[before.index_of(p)] == p);
            let i = choose|i: int|
                0 <= i < rest.len() && (#[trigger] rest[i]).run.step_id == p.step_id
                    && rest[i].run.output == p.output && rest[i].run.status
                    == StepStatus::WaitingApproval;
            assert(steps[i] == rest[i]);
        }
        if steps.last().run.status == StepStatus::WaitingApproval {
            assert(all[before.len() as int] == PendingModel {
                run_id,
                step_id: steps.last().run.step_id,
                output: steps.last().run.output,
            });
        }
        if all.contains(p) {
            let k = all.index_of(p);
            if k < before.len() {
                assert(before[k] == p);
            }
        }
        if p.run_id == run_id && exists|i: int|
            0 <= i < steps.len() && (#[trigger] steps[i]).run.step_id == p.step_id
                && steps[i].run.output == p.output && steps[i].run.status
                == StepStatus::WaitingApproval {
            let i = choose|i: int|
                0 <= i < steps.len() && (#[trigger] steps[i]).run.step_id == p.step_id
                    && steps[i].run.output == p.output && steps[i].run.status
                    == StepStatus::WaitingApproval;
            if i < rest.len() {
                assert(rest[i] == steps[i]);
            } else {
                assert(all[before.len() as int] == p);
            }
        }
    }
}

/// Whether a step of a run waits for an answer, with this output.
pub open spec fn waits_with(record: RunRecordModel, p: PendingModel) -> bool {
    &&& record.run_id == p.run_id
    &&& waits(record, p.step_id)
    &&& latest_of(record.steps, p.step_id)->Some_0.run.output == p.output
}

/// The steps that wait for approval are listed, those of every run and no
/// others, each with what is to be approved.
pub proof fn waiting_steps_are_listed(records: Seq<RunRecordModel>, p: PendingModel)
    ensures
        pending_of(records).contains(p) <==> exists|i: int|
            0 <= i < records.len() && waits_with(#[trigger] records[i], p),
    decreases records.len(),
{
    let all = pending_of(records);
    if records.len() > 0 {
        let rest = records.drop_last();
        let last = records.last();
        let before = pending_of(rest);
        let steps = latest_records(last.steps);
        let more = waiting_of(last.run_id, steps);
        waiting_steps_are_listed(rest, p);
        lemma_waiting_of(last.run_id, steps, p);
        assert(all == before + more);
        assert(records[records.len() - 1] == last);
        if before.contains(p) {
            assert(all[before.index_of(p)] == p);
            let i = choose|i: int| 0 <= i < rest.len() && waits_with(#[trigger] rest[i], p);
            assert(records[i] == rest[i]);
        }
        if more.contains(p) {
            assert(all[before.len() + more.index_of(p)] == p);
            let i = choose|i: int|
                0 <= i < steps.len() && (#[trigger] steps[i]).run.step_id == p.step_id
                    && steps[i].run.output == p.output && steps[i].run.status
                    == StepStatus::WaitingApproval;
            assert(steps.contains(steps[i]));
            latest_records_are_one_of_each(last.steps, steps[i]);
            assert(waits_with(records[records.len() - 1], p));
        }
        if waits_with(last, p) {
            let step = latest_of(last.steps, p.step_id)->Some_0;
            latest_record_is_highest_attempt(last.steps, p.step_id);
            latest_records_are_one_of_each(last.steps, step);
            let i = steps.index_of(step);
            assert(steps[i].run.step_id == p.step_id);
            assert(more.contains(p));
        }
        if all.contains(p) {
            let k = all.index_of(p);
            if k < before.len() {
                assert(before[k] == p);
            } else {
                assert(more[k - before.len()] == p);
            }
        }
        if exists|i: int| 0 <= i < records.len() && waits_with(#[trigger] records[i], p) {
            let i = choose|i: int| 0 <= i < records.len() && waits_with(#[trigger] records[i], p);
            if i < rest.len() {
                assert(rest[i] == records[i]);
            }
        }
    }
}

/// The last end among steps is that of one of them, and none ended later; there
/// is none exactly where none has ended.
pub proof fn last_end_is_the_latest(steps: Seq<StepRecordModel>)
    ensures
        match last_end(steps) {
            Some(t) => (exists|i: int|
                0 <= i < steps.len() && (#[trigger] steps[i]).run.completed_at == Some(t))
                && forall|i: int|
                0 <= i < steps.len() ==> ((#[trigger] steps[i]).run.completed_at matches Some(u)
                    ==> u <= t),
            None => forall|i: int|
                0 <= i < steps.len() ==> (#[trigger] steps[i]).run.completed_at is None,
        },
    decreases steps.len(),
{
    if steps.len() > 0 {
        let rest = steps.drop_last();
        last_end_is_the_latest(rest);
        assert(steps[steps.len() - 1] == steps.last());
        match last_end(rest) {
            Some(t) => {
                let i = choose|i: int|
                    0 <= i < rest.len() && (#[trigger] rest[i]).run.completed_at == Some(t);
                assert(steps[i] == rest[i]);
                assert forall|k: int| 0 <= k < steps.len() implies ((
                #[trigger] steps[k]).run.completed_at matches Some(u) ==> u
                    <= last_end(steps)->Some_0) by {
                    if k < rest.len() {
                        assert(rest[k] == steps[k]);
                    }
                }
            },
            None => {
                assert forall|k: int| 0 <= k < rest.len() implies (
                #[trigger] steps[k]).run.completed_at is None by {
                    assert(rest[k] == steps[k]);
                }
            },
        }
    }
}

/// What took from one time to a later one took the time between.
pub proof fn duration_is_the_time_between(started: Timestamp, took: i128)
    requires
        took >= 0,
        started + took <= i128::MAX,
    ensures
        duration_between(Some(started), Some((started + took) as i128)) == Some(took),
        took > 0 ==> duration_between(Some((started + took) as i128), Some(started)) is None,
        duration_between(None, Some(started)) is None,
        duration_between(Some(started), None) is None,
{
}

/// The platform sees a run under its own id where it asked for the run, with the
/// latest attempt at every step; a run has an end exactly where it has ended.
pub proof fn snapshot_shows_the_run(record: RunRecordModel, i: int)
    ensures
        ({
            let shown = snapshot_of(record);
            let latest = latest_records(record.steps);
            &&& record.idempotency_key is None ==> shown.run_id == record.run_id
            &&& shown.flow == record.flow_name
            &&& shown.flow_version == record.flow_version
            &&& phase_named(shown.phase) == Some(record.phase)
            &&& shown.started_at.0 == record.created_at
            &&& shown.completed_at is Some <==> record.phase != RunPhase::Running
            &&& shown.completed_at matches Some(t) ==> (match last_end(record.steps) {
                Some(end) => t.0 == end,
                None => t.0 == record.updated_at,
            })
            &&& shown.steps.len() == latest.len()
            &&& 0 <= i < latest.len() ==> {
                let step = latest[i];
                let s = shown.steps[i];
                &&& s.step_id == step.run.step_id
                &&& s.attempt == step.run.attempt
                &&& status_named(s.status) == Some(step.run.status)
                &&& s.input_resolved == step.run.input_resolved
                &&& s.with_resolved == step.with_resolved
                &&& s.child_run_id == step.run.child_run_id
                &&& s.approval_comment == step.run.approval_comment
                &&& s.feedback == step.run.feedback
                &&& s.failure_reason == step.run.failure_reason
                &&& s.duration_nanos == duration_between(
                    step.run.started_at,
                    step.run.completed_at,
                )
                &&& s.human_loop <==> (find_step(
                    record.definition.steps,
                    step.run.step_id,
                ) matches Some(d) && d.human_loop)
            }
        }),
{
    phase_name_reads_back(record.phase);
    let latest = latest_records(record.steps);
    if 0 <= i < latest.len() {
        status_name_reads_back(latest[i].run.status);
        assert(snapshot_of(record).steps[i] == step_snapshot_of(record.definition, latest[i]));
    }
}

/// The platform's run is named by the key that was made of its id.
pub proof fn snapshot_names_the_platform_run(record: RunRecordModel, id: Seq<char>)
    requires
        record.idempotency_key == Some("platform:"@ + id),
    ensures
        snapshot_of(record).run_id == id,
{
    crate::use_cases::queries::platform_id_reads_back(id);
}

/// Every input of a flow is shown, in the order of its declaration and as it is
/// declared.
pub proof fn every_input_is_shown(flow: FlowModel, i: int)
    ensures
        flow_summary_of(flow).name == flow.name,
        flow_summary_of(flow).version == flow.version,
        flow_summary_of(flow).description == flow.description,
        flow_summary_of(flow).inputs.len() == flow.inputs.len(),
        0 <= i < flow.inputs.len() ==> {
            let shown = flow_summary_of(flow).inputs[i];
            let (name, declared) = flow.inputs[i];
            &&& shown.name == name
            &&& shown.ty == declared.ty
            &&& shown.required == declared.required
            &&& shown.default == declared.default
            &&& shown.description == declared.description
        },
{
}

/// A run that was started, found again or cancelled is shown under its id, with
/// its phase and with exactly the steps that are under way.
pub proof fn answers_show_the_active_steps(record: RunRecordModel, replayed: bool, id: Seq<char>)
    ensures
        started_of(record, replayed).run_id == record.run_id,
        started_of(record, replayed).replayed == replayed,
        phase_named(started_of(record, replayed).phase) == Some(record.phase),
        started_of(record, replayed).started_at.0 == record.created_at,
        started_of(record, replayed).active_steps.contains(id) <==> (latest_of(
            record.steps,
            id,
        ) matches Some(step) && active(step.run.status)),
        cancelled_of(record).run_id == record.run_id,
        phase_named(cancelled_of(record).phase) == Some(record.phase),
        cancelled_of(record).updated_at.0 == record.updated_at,
        cancelled_of(record).active_steps == started_of(record, replayed).active_steps,
{
    phase_name_reads_back(record.phase);
    let runs = state_of(record).steps;
    let latest = latest_records(record.steps);
    crate::run::laws::active_ids_are_the_active_steps(runs, None, id);
    if started_of(record, replayed).active_steps.contains(id) {
        let i = choose|i: int|
            0 <= i < runs.len() && (#[trigger] runs[i]).step_id == id && active(runs[i].status);
        assert(latest.contains(latest[i]));
        latest_records_are_one_of_each(record.steps, latest[i]);
    }
    if let Some(step) = latest_of(record.steps, id) {
        latest_record_is_highest_attempt(record.steps, id);
        latest_records_are_one_of_each(record.steps, step);
        let i = latest.index_of(step);
        assert(runs[i] == step.run);
    }
}

/// A tree of runs is shown run by run, with all the runs that each one started.
pub proof fn tree_is_shown_run_by_run(tree: RunTree, i: int)
    ensures
        tree_view(tree).run_id == tree.root.run_id@,
        tree_view(tree).flow_name == tree.root.flow_name@,
        phase_named(tree_view(tree).phase) == Some(tree.root.phase),
        tree_view(tree).children.len() == tree.children@.len(),
        0 <= i < tree.children@.len() ==> tree_view(tree).children[i] == tree_view(
            tree.children@[i],
        ),
{
    phase_name_reads_back(tree.root.phase);
}

/// Runs and flows are shown in lists as they are, all of them and in order.
pub proof fn lists_show_everything(
    s: crate::ports::RunSummaryModel,
    flows: Seq<FlowModel>,
    i: int,
)
    ensures
        summary_view(s).run_id == s.run_id,
        summary_view(s).flow_name == s.flow_name,
        summary_view(s).flow_version == s.flow_version,
        phase_named(summary_view(s).phase) == Some(s.phase),
        summary_view(s).created_at == s.created_at,
        summary_view(s).updated_at == s.updated_at,
        flows_shown(flows).len() == flows.len(),
        0 <= i < flows.len() ==> flows_shown(flows)[i] == flow_summary_of(flows[i]),
{
    phase_name_reads_back(s.phase);
}

/// The query for a list of runs asks for what the filter says: each part of it
/// has its place and its value, and the newest runs come first.
pub proof fn query_follows_the_filter(filter: RunFilter)
    ensures
        list_params(filter).len() == (if filter.flow_name is Some {
            1int
        } else {
            0int
        }) + (if filter.phase is Some {
            1int
        } else {
            0int
        }) + (if filter.limit is Some {
            1int
        } else {
            0int
        }),
        filter.flow_name matches Some(name) ==> list_params(filter)[0] == CellModel::Text(name@),
        filter.phase is Some ==> ({
            let k = if filter.flow_name is Some {
                1int
            } else {
                0int
            };
            list_params(filter)[k] matches CellModel::Text(t) && phase_named(t) == filter.phase
        }),
        filter.limit matches Some(n) ==> (n <= i64::MAX ==> list_params(filter).last()
            == CellModel::Int(n as i64)),
        list_sql(filter) == list_sql(RunFilter { flow_name: None, phase: None, limit: None }).take(
            "SELECT id, flow_name, flow_version, phase, created_at, updated_at FROM runs WHERE 1=1"@.len() as int,
        ) + (if filter.flow_name is Some {
            " AND flow_name = ?"@
        } else {
            Seq::empty()
        }) + (if filter.phase is Some {
            " AND phase = ?"@
        } else {
            Seq::empty()
        }) + " ORDER BY created_at DESC"@ + (if filter.limit is Some {
            " LIMIT ?"@
        } else {
            Seq::empty()
        }),
{
    if let Some(phase) = filter.phase {
        phase_name_reads_back(phase);
    }
    let base =
        "SELECT id, flow_name, flow_version, phase, created_at, updated_at FROM runs WHERE 1=1"@;
    let plain = list_sql(RunFilter { flow_name: None, phase: None, limit: None });
    assert(plain.take(base.len() as int) =~= base);
    let none = Seq::<char>::empty();
    let a = if filter.flow_name is Some {
        " AND flow_name = ?"@
    } else {
        none
    };
    let b = if filter.phase is Some {
        " AND phase = ?"@
    } else {
        none
    };
    let c = if filter.limit is Some {
        " LIMIT ?"@
    } else {
        none
    };
    assert(list_sql(filter) =~= base + a + b + " ORDER BY created_at DESC"@ + c);
}

} // verus!
