//! Laws about the rows of a run: they follow its record.
use crate::json::{in_key_order, json_member, json_text, parsed_json, Json};
use crate::names::{
    approval_name, approval_named, event_type_name, hook_phase_name, hook_status_name, phase_name,
    phase_named, status_name, status_named,
};
use crate::ports::{
    HookRunModel, MutationModel, NewRunModel, RunEventModel, RunRecordModel, StepRecordModel,
    StoreErrorModel,
};
use crate::rows::{
    event_in, event_kept, failure_in, failure_json, hook_in, hook_kept, new_run_row_of,
    row_change_of, run_in, run_kept, run_row_of, step_in, step_kept, step_row_of, step_rows_of,
    steps_in, text_cell, time_cell, CellModel, EventRowModel, HookRowModel, RowChangeModel,
    RunRowModel, StepRowModel,
};
use crate::run::types::{ApprovalStatus, RunPhase, StepRunModel, StepStatus, Timestamp};
use crate::store::{
    applied, batch_applied, created, find_attempt, is_attempt, set_attempt, without_attempt,
};
use crate::text::{decimal, is_digit, lemma_decimal};
use crate::text_laws::whole_numbers_are_read;
use crate::wire::JobFailureModel;
use vstd::prelude::*;

verus! {

/// The row of a run and the rows of its steps.
#[verifier::ext_equal]
pub struct Tables {
    pub run: RunRowModel,
    pub steps: Seq<StepRowModel>,
}

/// The rows that stand for a record.
pub open spec fn tables_of(r: RunRecordModel) -> Tables {
    Tables { run: run_row_of(r), steps: step_rows_of(r.steps) }
}

/// The text in a cell; none where it is empty.
pub open spec fn cell_text(cell: CellModel) -> Option<Seq<char>> {
    match cell {
        CellModel::Text(t) => Some(t),
        _ => None,
    }
}

/// The number in a cell; none where it is empty.
pub open spec fn cell_number(cell: CellModel) -> Option<i64> {
    match cell {
        CellModel::Int(n) => Some(n),
        _ => None,
    }
}

/// The row of an attempt with one column set. The columns that identify the
/// attempt, and those that are written once, stay.
pub open spec fn step_column_set(row: StepRowModel, column: Seq<char>, cell: CellModel) -> StepRowModel {
    if column == "status"@ {
        match cell {
            CellModel::Text(t) => StepRowModel { status: t, ..row },
            _ => row,
        }
    } else if column == "output"@ {
        StepRowModel { output: cell_text(cell), ..row }
    } else if column == "job_id"@ {
        StepRowModel { job_id: cell_text(cell), ..row }
    } else if column == "approval_status"@ {
        StepRowModel { approval_status: cell_text(cell), ..row }
    } else if column == "approval_comment"@ {
        StepRowModel { approval_comment: cell_text(cell), ..row }
    } else if column == "feedback"@ {
        StepRowModel { feedback: cell_text(cell), ..row }
    } else if column == "failure_reason"@ {
        StepRowModel { failure_reason: cell_text(cell), ..row }
    } else if column == "failure_detail"@ {
        StepRowModel { failure_detail: cell_text(cell), ..row }
    } else if column == "child_run_id"@ {
        StepRowModel { child_run_id: cell_text(cell), ..row }
    } else if column == "started_at"@ {
        StepRowModel { started_at: cell_number(cell), ..row }
    } else if column == "completed_at"@ {
        StepRowModel { completed_at: cell_number(cell), ..row }
    } else {
        row
    }
}

/// The row of an attempt with several columns set.
pub open spec fn step_columns_set(row: StepRowModel, updates: Seq<(Seq<char>, CellModel)>) -> StepRowModel
    decreases updates.len(),
{
    if updates.len() == 0 {
        row
    } else {
        step_column_set(
            step_columns_set(row, updates.drop_last()),
            updates.last().0,
            updates.last().1,
        )
    }
}

/// The row of a run with one column set.
pub open spec fn run_column_set(row: RunRowModel, column: Seq<char>, cell: CellModel) -> RunRowModel {
    match cell {
        CellModel::Text(t) => if column == "phase"@ {
            RunRowModel { phase: t, ..row }
        } else {
            row
        },
        CellModel::Int(n) => if column == "cancelled"@ {
            RunRowModel { cancelled: n as i32, ..row }
        } else {
            row
        },
        CellModel::Null => row,
    }
}

/// The row of a run with several columns set.
pub open spec fn run_columns_set(row: RunRowModel, updates: Seq<(Seq<char>, CellModel)>) -> RunRowModel
    decreases updates.len(),
{
    if updates.len() == 0 {
        row
    } else {
        run_column_set(
            run_columns_set(row, updates.drop_last()),
            updates.last().0,
            updates.last().1,
        )
    }
}

/// Whether a row is of this attempt at this step.
pub open spec fn is_row(row: StepRowModel, step_id: Seq<char>, attempt: u32) -> bool {
    row.step_id == step_id && row.attempt == attempt
}

/// The rows with columns of one attempt set; none where it has no row.
pub open spec fn row_updated(
    rows: Seq<StepRowModel>,
    step_id: Seq<char>,
    attempt: u32,
    updates: Seq<(Seq<char>, CellModel)>,
) -> Option<Seq<StepRowModel>>
    decreases rows.len(),
{
    if rows.len() == 0 {
        None
    } else if is_row(rows[0], step_id, attempt) {
        Some(seq![step_columns_set(rows[0], updates)] + rows.drop_first())
    } else {
        match row_updated(rows.drop_first(), step_id, attempt, updates) {
            Some(rest) => Some(seq![rows[0]] + rest),
            None => None,
        }
    }
}

/// The rows without those of an attempt.
pub open spec fn rows_without(rows: Seq<StepRowModel>, step_id: Seq<char>, attempt: i64) -> Seq<
    StepRowModel,
>
    decreases rows.len(),
{
    if rows.len() == 0 {
        Seq::empty()
    } else if rows.last().step_id == step_id && rows.last().attempt == attempt {
        rows_without(rows.drop_last(), step_id, attempt)
    } else {
        rows_without(rows.drop_last(), step_id, attempt).push(rows.last())
    }
}

/// The tables after a change; none where the row to be updated is missing.
pub open spec fn tables_changed(t: Tables, change: RowChangeModel) -> Option<Tables> {
    match change {
        RowChangeModel::PutStep(row) => Some(
            Tables { steps: rows_without(t.steps, row.step_id, row.attempt).push(row), ..t },
        ),
        RowChangeModel::UpdateStep { step_id, attempt, updates } => match row_updated(
            t.steps,
            step_id,
            attempt,
            updates,
        ) {
            Some(steps) => Some(Tables { steps, ..t }),
            None => None,
        },
        RowChangeModel::UpdateRun(updates) => Some(
            Tables { run: run_columns_set(t.run, updates), ..t },
        ),
        RowChangeModel::AddHook(_) => Some(t),
        RowChangeModel::AddEvent(_) => Some(t),
    }
}

/// The tables after the changes of a batch; none where one of them fails.
pub open spec fn tables_after(t: Tables, batch: Seq<MutationModel>) -> Option<Tables>
    decreases batch.len(),
{
    if batch.len() == 0 {
        Some(t)
    } else {
        match tables_after(t, batch.drop_last()) {
            Some(before) => tables_changed(before, row_change_of(batch.last())),
            None => None,
        }
    }
}

/// The tables of the record that a write gives; none where the write fails.
pub open spec fn tables_of_outcome(r: Result<RunRecordModel, StoreErrorModel>) -> Option<Tables> {
    match r {
        Ok(done) => Some(tables_of(done)),
        Err(_) => None,
    }
}

proof fn lemma_columns_differ()
    ensures
        "status"@ != "output"@,
        "status"@ != "job_id"@,
        "output"@ != "job_id"@,
        "failure_reason"@ != "failure_detail"@,
        "child_run_id"@ != "completed_at"@,
        "status"@.len() == 6,
        "output"@.len() == 6,
        "job_id"@.len() == 6,
        "approval_status"@.len() == 15,
        "approval_comment"@.len() == 16,
        "feedback"@.len() == 8,
        "failure_reason"@.len() == 14,
        "failure_detail"@.len() == 14,
        "child_run_id"@.len() == 12,
        "started_at"@.len() == 10,
        "completed_at"@.len() == 12,
{
    reveal_strlit("status");
    reveal_strlit("output");
    reveal_strlit("job_id");
    reveal_strlit("approval_status");
    reveal_strlit("approval_comment");
    reveal_strlit("feedback");
    reveal_strlit("failure_reason");
    reveal_strlit("failure_detail");
    reveal_strlit("child_run_id");
    reveal_strlit("started_at");
    reveal_strlit("completed_at");
    assert("status"@[0] != "output"@[0]);
    assert("status"@[0] != "job_id"@[0]);
    assert("output"@[0] != "job_id"@[0]);
    assert("failure_reason"@[8] != "failure_detail"@[8]);
    assert("child_run_id"@[1] != "completed_at"@[1]);
}

proof fn lemma_one_column(row: StepRowModel, column: Seq<char>, cell: CellModel)
    ensures
        step_columns_set(row, seq![(column, cell)]) == step_column_set(row, column, cell),
{
    let none = Seq::<(Seq<char>, CellModel)>::empty();
    lemma_one_more_column(row, none, column, cell);
    assert(none.push((column, cell)) =~= seq![(column, cell)]);
    assert(step_columns_set(row, none) == row);
}

proof fn lemma_one_more_column(
    row: StepRowModel,
    updates: Seq<(Seq<char>, CellModel)>,
    column: Seq<char>,
    cell: CellModel,
)
    ensures
        step_columns_set(row, updates.push((column, cell))) == step_column_set(
            step_columns_set(row, updates),
            column,
            cell,
        ),
{
    assert(updates.push((column, cell)).drop_last() =~= updates);
}

proof fn lemma_update_follows(
    steps: Seq<StepRecordModel>,
    step_id: Seq<char>,
    attempt: u32,
    updates: Seq<(Seq<char>, CellModel)>,
    change: spec_fn(StepRecordModel) -> StepRecordModel,
)
    requires
        forall|s: StepRecordModel| #[trigger]
            step_row_of(change(s)) == step_columns_set(step_row_of(s), updates),
    ensures
        row_updated(step_rows_of(steps), step_id, attempt, updates) == (match find_attempt(
            steps,
            step_id,
            attempt,
        ) {
            Some(s) => Some(step_rows_of(set_attempt(steps, step_id, attempt, change(s)))),
            None => None,
        }),
    decreases steps.len(),
{
    if steps.len() > 0 {
        let rest = steps.drop_first();
        assert(step_rows_of(steps).drop_first() =~= step_rows_of(rest));
        assert(step_rows_of(steps)[0] == step_row_of(steps[0]));
        lemma_update_follows(rest, step_id, attempt, updates, change);
        if is_attempt(steps[0], step_id, attempt) {
            assert(step_rows_of(seq![change(steps[0])] + rest) =~= seq![
                step_row_of(change(steps[0])),
            ] + step_rows_of(rest));
        } else if let Some(s) = find_attempt(rest, step_id, attempt) {
            let done = set_attempt(rest, step_id, attempt, change(s));
            assert(step_rows_of(seq![steps[0]] + done) =~= seq![step_row_of(steps[0])]
                + step_rows_of(done));
        }
    }
}

proof fn lemma_removal_follows(steps: Seq<StepRecordModel>, step_id: Seq<char>, attempt: u32)
    ensures
        rows_without(step_rows_of(steps), step_id, attempt as i64) == step_rows_of(
            without_attempt(steps, step_id, attempt),
        ),
    decreases steps.len(),
{
    if steps.len() > 0 {
        let rest = steps.drop_last();
        let left = without_attempt(rest, step_id, attempt);
        assert(step_rows_of(steps).drop_last() =~= step_rows_of(rest));
        assert(step_rows_of(steps).last() == step_row_of(steps.last()));
        lemma_removal_follows(rest, step_id, attempt);
        assert(step_rows_of(left.push(steps.last())) =~= step_rows_of(left).push(
            step_row_of(steps.last()),
        ));
    } else {
        assert(step_rows_of(without_attempt(steps, step_id, attempt)) =~= Seq::<
            StepRowModel,
        >::empty());
    }
}

/// What is written for a change of a run does to its rows what the change does
/// to its record. It fails in the same cases.
pub proof fn rows_follow_the_record(record: RunRecordModel, m: MutationModel)
    ensures
        tables_changed(tables_of(record), row_change_of(m)) == tables_of_outcome(
            applied(record, m),
        ),
{
    lemma_columns_differ();
    let steps = record.steps;
    match m {
        MutationModel::InsertStepRun(step) => {
            lemma_removal_follows(steps, step.run.step_id, step.run.attempt);
            let left = without_attempt(steps, step.run.step_id, step.run.attempt);
            assert(step_rows_of(left.push(step)) =~= step_rows_of(left).push(step_row_of(step)));
        },
        MutationModel::SetStepStatus { step_id, attempt, status } => {
            let cell = CellModel::Text(status_name(status));
            let change = |s: StepRecordModel|
                StepRecordModel { run: StepRunModel { status, ..s.run }, ..s };
            assert forall|s: StepRecordModel| #[trigger] step_row_of(change(s)) == step_columns_set(
                step_row_of(s),
                seq![("status"@, cell)],
            ) by {
                lemma_one_column(step_row_of(s), "status"@, cell);
            }
            lemma_update_follows(steps, step_id, attempt, seq![("status"@, cell)], change);
        },
        MutationModel::SetStepOutput { step_id, attempt, output } => {
            let cell = CellModel::Text(json_text(output));
            let change = |s: StepRecordModel|
                StepRecordModel { run: StepRunModel { output: Some(output), ..s.run }, ..s };
            assert forall|s: StepRecordModel| #[trigger] step_row_of(change(s)) == step_columns_set(
                step_row_of(s),
                seq![("output"@, cell)],
            ) by {
                lemma_one_column(step_row_of(s), "output"@, cell);
            }
            lemma_update_follows(steps, step_id, attempt, seq![("output"@, cell)], change);
        },
        MutationModel::SetJobId { step_id, attempt, job_id } => {
            let cell = text_cell(job_id);
            let change = |s: StepRecordModel| StepRecordModel { job_id, ..s };
            assert forall|s: StepRecordModel| #[trigger] step_row_of(change(s)) == step_columns_set(
                step_row_of(s),
                seq![("job_id"@, cell)],
            ) by {
                lemma_one_column(step_row_of(s), "job_id"@, cell);
            }
            lemma_update_follows(steps, step_id, attempt, seq![("job_id"@, cell)], change);
        },
        MutationModel::SetApproval { step_id, attempt, approval_status, comment, feedback } => {
            let status = ("approval_status"@, CellModel::Text(approval_name(approval_status)));
            let note = ("approval_comment"@, text_cell(comment));
            let said = ("feedback"@, text_cell(feedback));
            let change = |s: StepRecordModel|
                StepRecordModel {
                    run: StepRunModel {
                        approval_status: Some(approval_status),
                        approval_comment: comment,
                        feedback,
                        ..s.run
                    },
                    ..s
                };
            let updates = seq![status, note, said];
            assert(updates =~= seq![status].push(note).push(said));
            assert forall|s: StepRecordModel| #[trigger] step_row_of(change(s)) == step_columns_set(
                step_row_of(s),
                updates,
            ) by {
                let row = step_row_of(s);
                lemma_one_column(row, status.0, status.1);
                lemma_one_more_column(row, seq![status], note.0, note.1);
                lemma_one_more_column(row, seq![status].push(note), said.0, said.1);
            }
            lemma_update_follows(steps, step_id, attempt, updates, change);
        },
        MutationModel::SetStepFailure { step_id, attempt, reason } => {
            let cell = CellModel::Text(reason);
            let change = |s: StepRecordModel|
                StepRecordModel {
                    run: StepRunModel { failure_reason: Some(reason), ..s.run },
                    ..s
                };
            assert forall|s: StepRecordModel| #[trigger] step_row_of(change(s)) == step_columns_set(
                step_row_of(s),
                seq![("failure_reason"@, cell)],
            ) by {
                lemma_one_column(step_row_of(s), "failure_reason"@, cell);
            }
            lemma_update_follows(steps, step_id, attempt, seq![("failure_reason"@, cell)], change);
        },
        MutationModel::SetStepFailureDetail { step_id, attempt, detail } => {
            let cell = CellModel::Text(json_text(failure_json(detail)));
            let change = |s: StepRecordModel| StepRecordModel { failure_detail: Some(detail), ..s };
            assert forall|s: StepRecordModel| #[trigger] step_row_of(change(s)) == step_columns_set(
                step_row_of(s),
                seq![("failure_detail"@, cell)],
            ) by {
                lemma_one_column(step_row_of(s), "failure_detail"@, cell);
            }
            lemma_update_follows(steps, step_id, attempt, seq![("failure_detail"@, cell)], change);
        },
        MutationModel::SetStepTimestamps { step_id, attempt, started_at, completed_at } => {
            let begun = ("started_at"@, time_cell(started_at));
            let ended = ("completed_at"@, time_cell(completed_at));
            let change = |s: StepRecordModel|
                StepRecordModel { run: StepRunModel { started_at, completed_at, ..s.run }, ..s };
            let updates = seq![begun, ended];
            assert(updates =~= seq![begun].push(ended));
            assert forall|s: StepRecordModel| #[trigger] step_row_of(change(s)) == step_columns_set(
                step_row_of(s),
                updates,
            ) by {
                lemma_one_column(step_row_of(s), begun.0, begun.1);
                lemma_one_more_column(step_row_of(s), seq![begun], ended.0, ended.1);
            }
            lemma_update_follows(steps, step_id, attempt, updates, change);
        },
        MutationModel::SetChildRunId { step_id, attempt, child_run_id } => {
            let cell = text_cell(child_run_id);
            let change = |s: StepRecordModel|
                StepRecordModel { run: StepRunModel { child_run_id, ..s.run }, ..s };
            assert forall|s: StepRecordModel| #[trigger] step_row_of(change(s)) == step_columns_set(
                step_row_of(s),
                seq![("child_run_id"@, cell)],
            ) by {
                lemma_one_column(step_row_of(s), "child_run_id"@, cell);
            }
            lemma_update_follows(steps, step_id, attempt, seq![("child_run_id"@, cell)], change);
        },
        MutationModel::SetRunPhase(phase) => {
            let updates = seq![("phase"@, CellModel::Text(phase_name(phase)))];
            let row = run_row_of(record);
            assert(updates.drop_last() =~= Seq::<(Seq<char>, CellModel)>::empty());
            assert(run_columns_set(row, updates.drop_last()) == row);
        },
        MutationModel::SetRunCancelled => {
            let updates = seq![("cancelled"@, CellModel::Int(1i64))];
            let row = run_row_of(record);
            assert(updates.drop_last() =~= Seq::<(Seq<char>, CellModel)>::empty());
            assert(run_columns_set(row, updates.drop_last()) == row);
        },
        MutationModel::RecordHookRun(_) => {},
        MutationModel::AppendEvent(_) => {},
    }
}

/// A batch of changes does to the rows of a run what it does to its record.
pub proof fn rows_follow_a_batch(record: RunRecordModel, batch: Seq<MutationModel>)
    ensures
        tables_after(tables_of(record), batch) == tables_of_outcome(batch_applied(record, batch)),
    decreases batch.len(),
{
    if batch.len() > 0 {
        rows_follow_a_batch(record, batch.drop_last());
        if let Ok(done) = batch_applied(record, batch.drop_last()) {
            rows_follow_the_record(done, batch.last());
        }
    }
}

/// The row that is written for a new run stands for its record, which has no
/// steps.
pub proof fn new_row_stands_for_the_new_run(new: NewRunModel, run_id: Seq<char>, now: Timestamp)
    ensures
        tables_of(created(new, run_id, now).record) == (Tables {
            run: new_run_row_of(new, now),
            steps: Seq::empty(),
        }),
{
    assert(step_rows_of(created(new, run_id, now).record.steps) =~= Seq::<StepRowModel>::empty());
}

/// A record that is read back has lost nothing but the parts of seconds in its
/// times and the order of members: which attempt it is, what became of it, what
/// it was given, what went wrong and what a human said are as they were.
pub proof fn kept_attempt_is_the_attempt(s: StepRecordModel)
    ensures
        ({
            let k = step_kept(s);
            &&& k.run.step_id == s.run.step_id
            &&& k.run.attempt == s.run.attempt
            &&& k.run.status == s.run.status
            &&& k.run.input_resolved == s.run.input_resolved
            &&& k.run.approval_status == s.run.approval_status
            &&& k.run.approval_comment == s.run.approval_comment
            &&& k.run.feedback == s.run.feedback
            &&& k.run.failure_reason == s.run.failure_reason
            &&& k.run.child_run_id == s.run.child_run_id
            &&& k.job_id == s.job_id
            &&& k.failure_detail == s.failure_detail
            &&& match (s.run.output, k.run.output) {
                (Some(a), Some(b)) => b == in_key_order(a),
                (None, None) => true,
                _ => false,
            }
            &&& match (s.with_resolved, k.with_resolved) {
                (Some(a), Some(b)) => b == in_key_order(a),
                (None, None) => true,
                _ => false,
            }
            &&& to_the_second(s.run.started_at, k.run.started_at)
            &&& to_the_second(s.run.completed_at, k.run.completed_at)
        }),
{
}

/// Whether a time, where there is one, is kept to the second.
pub open spec fn to_the_second(t: Option<Timestamp>, kept: Option<Timestamp>) -> bool {
    match (t, kept) {
        (Some(a), Some(b)) => 0 <= a && a / 1_000_000_000 <= i64::MAX ==> b == a - a
            % 1_000_000_000,
        (None, None) => true,
        _ => false,
    }
}

/// A run that is read back is the run, with all of its attempts in order.
pub proof fn kept_run_is_the_run(r: RunRecordModel, i: int)
    ensures
        ({
            let k = run_kept(r);
            &&& k.run_id == r.run_id
            &&& k.flow_name == r.flow_name
            &&& k.flow_version == r.flow_version
            &&& k.definition == r.definition
            &&& k.phase == r.phase
            &&& k.cancelled == r.cancelled
            &&& k.idempotency_key == r.idempotency_key
            &&& k.inputs == in_key_order(r.inputs)
            &&& k.trigger == in_key_order(r.trigger)
            &&& to_the_second(Some(r.created_at), Some(k.created_at))
            &&& to_the_second(Some(r.updated_at), Some(k.updated_at))
            &&& k.steps.len() == r.steps.len()
            &&& 0 <= i < r.steps.len() ==> k.steps[i] == step_kept(r.steps[i])
        }),
{
}

/// A hook and an event that are read back are what was written.
pub proof fn kept_hook_and_event_are_the_same(h: HookRunModel, e: RunEventModel, sequence: i64)
    requires
        sequence >= 0,
    ensures
        ({
            let k = hook_kept(h);
            &&& k.hook == h.hook
            &&& k.phase == h.phase
            &&& k.step_id == h.step_id
            &&& k.status == h.status
            &&& k.job_id == h.job_id
            &&& k.failure_reason == h.failure_reason
            &&& k.failure_detail == h.failure_detail
            &&& k.output_ref == h.output_ref
            &&& to_the_second(Some(h.started_at), Some(k.started_at))
            &&& to_the_second(h.completed_at, k.completed_at)
            &&& match (h.args_resolved, k.args_resolved) {
                (Some(a), Some(b)) => b == in_key_order(a),
                (None, None) => true,
                _ => false,
            }
        }),
        ({
            let k = event_kept(sequence, e);
            &&& k.sequence == sequence
            &&& k.event_type == e.event_type
            &&& k.step_id == e.step_id
            &&& to_the_second(Some(e.timestamp), Some(k.timestamp))
            &&& k.payload == in_key_order(e.payload)
        }),
{
}

/// A column of an attempt that is set keeps the value of its cell; the attempt
/// stays the same one.
pub proof fn set_columns_keep_the_attempt(
    row: StepRowModel,
    updates: Seq<(Seq<char>, CellModel)>,
)
    ensures
        step_columns_set(row, updates).step_id == row.step_id,
        step_columns_set(row, updates).attempt == row.attempt,
        step_columns_set(row, updates).input_resolved == row.input_resolved,
        step_columns_set(row, updates).with_resolved == row.with_resolved,
    decreases updates.len(),
{
    if updates.len() > 0 {
        set_columns_keep_the_attempt(row, updates.drop_last());
    }
}

/// Whether a text that may be missing is that of a value that may be missing.
pub open spec fn text_holds(text: Option<Seq<char>>, value: Option<Json>) -> bool {
    match (text, value) {
        (Some(t), Some(v)) => parsed_json(t) == Ok::<Json, Seq<char>>(v),
        (None, None) => true,
        _ => false,
    }
}

/// Whether a time that may be missing is so many seconds after 1970.
pub open spec fn seconds_hold(secs: Option<i64>, t: Option<Timestamp>) -> bool {
    match (secs, t) {
        (Some(n), Some(t)) => n >= 0 ==> t == n * 1_000_000_000,
        (None, None) => true,
        _ => false,
    }
}

/// Whether a name that may be missing is that of an approval's state.
pub open spec fn approval_holds(name: Option<Seq<char>>, state: Option<ApprovalStatus>) -> bool {
    match (name, state) {
        (Some(n), Some(a)) => n == approval_name(a),
        (None, None) => true,
        _ => false,
    }
}

/// The record that is read from a row of an attempt has what the columns hold.
pub proof fn read_attempt_is_what_the_row_holds(row: StepRowModel)
    requires
        0 <= row.attempt <= u32::MAX,
    ensures
        step_in(row) matches Ok(s) ==> {
            &&& s.run.step_id == row.step_id
            &&& status_name(s.run.status) == row.status
            &&& s.run.attempt == row.attempt
            &&& approval_holds(row.approval_status, s.run.approval_status)
            &&& s.run.approval_comment == row.approval_comment
            &&& s.run.feedback == row.feedback
            &&& s.run.failure_reason == row.failure_reason
            &&& s.run.child_run_id == row.child_run_id
            &&& s.run.input_resolved == row.input_resolved
            &&& text_holds(row.output, s.run.output)
            &&& text_holds(row.with_resolved, s.with_resolved)
            &&& s.job_id == row.job_id
            &&& seconds_hold(row.started_at, s.run.started_at)
            &&& seconds_hold(row.completed_at, s.run.completed_at)
            &&& row.failure_detail is None <==> s.failure_detail is None
        },
{
}

/// A row of an attempt with a name that stands for nothing, or with a text that
/// is no JSON, is not read.
pub proof fn unreadable_attempts_are_refused(row: StepRowModel)
    ensures
        (forall|s: StepStatus| row.status != #[trigger] status_name(s)) ==> step_in(row) is Err,
        row.approval_status matches Some(n) ==> (forall|a: ApprovalStatus|
            n != #[trigger] approval_name(a)) ==> step_in(row) is Err,
        row.output matches Some(t) ==> parsed_json(t) is Err ==> step_in(row) is Err,
        row.with_resolved matches Some(t) ==> parsed_json(t) is Err ==> step_in(row) is Err,
        row.failure_detail matches Some(t) ==> parsed_json(t) is Err ==> step_in(row) is Err,
{
    if let Some(s) = status_named(row.status) {
        assert(row.status == status_name(s));
    }
    if let Some(n) = row.approval_status {
        if let Some(a) = approval_named(n) {
            assert(n == approval_name(a));
        }
    }
}

/// A run that is read has what its row holds, and an attempt for each of its
/// rows, in order. One whose phase stands for nothing is not read.
pub proof fn read_run_is_what_the_rows_hold(
    run_id: Seq<char>,
    row: RunRowModel,
    steps: Seq<StepRowModel>,
)
    ensures
        run_in(run_id, row, steps) matches Ok(r) ==> {
            &&& r.run_id == run_id
            &&& r.flow_name == row.flow_name
            &&& r.flow_version == row.flow_version
            &&& r.definition == row.definition
            &&& parsed_json(row.inputs) == Ok::<Json, Seq<char>>(r.inputs)
            &&& parsed_json(row.trigger) == Ok::<Json, Seq<char>>(r.trigger)
            &&& phase_name(r.phase) == row.phase
            &&& r.cancelled == (row.cancelled != 0)
            &&& r.idempotency_key == row.idempotency_key
            &&& row.created_at >= 0 ==> r.created_at == row.created_at * 1_000_000_000
            &&& row.updated_at >= 0 ==> r.updated_at == row.updated_at * 1_000_000_000
            &&& r.steps.len() == steps.len()
            &&& forall|i: int|
                0 <= i < steps.len() ==> step_in(#[trigger] steps[i]) == Ok::<
                    StepRecordModel,
                    StoreErrorModel,
                >(r.steps[i])
        },
        (forall|p: RunPhase| row.phase != #[trigger] phase_name(p)) ==> run_in(
            run_id,
            row,
            steps,
        ) is Err,
{
    lemma_steps_read(steps);
    if let Some(p) = phase_named(row.phase) {
        assert(row.phase == phase_name(p));
    }
}

proof fn lemma_steps_read(rows: Seq<StepRowModel>)
    ensures
        steps_in(rows) matches Ok(all) ==> all.len() == rows.len() && forall|i: int|
            0 <= i < rows.len() ==> step_in(#[trigger] rows[i]) == Ok::<
                StepRecordModel,
                StoreErrorModel,
            >(all[i]),
    decreases rows.len(),
{
    if rows.len() > 0 {
        lemma_steps_read(rows.drop_last());
        if let Ok(all) = steps_in(rows) {
            let before = steps_in(rows.drop_last())->Ok_0;
            assert forall|i: int| 0 <= i < rows.len() implies step_in(#[trigger] rows[i]) == Ok::<
                StepRecordModel,
                StoreErrorModel,
            >(all[i]) by {
                if i < rows.len() - 1 {
                    assert(rows.drop_last()[i] == rows[i]);
                    assert(all[i] == before[i]);
                }
            }
        }
    }
}

/// A hook and an event that are read have what their rows hold.
pub proof fn read_hook_and_event_are_what_the_rows_hold(
    hook: HookRowModel,
    sequence: i64,
    event: EventRowModel,
)
    requires
        sequence >= 0,
    ensures
        hook_in(hook) matches Ok(h) ==> {
            &&& h.hook == hook.hook
            &&& hook_phase_name(h.phase) == hook.phase
            &&& hook_status_name(h.status) == hook.status
            &&& h.step_id == hook.step_id
            &&& h.job_id == hook.job_id
            &&& h.output_ref == hook.output_ref
            &&& h.failure_reason == hook.failure_reason
            &&& text_holds(hook.args_resolved, h.args_resolved)
            &&& seconds_hold(Some(hook.started_at), Some(h.started_at))
            &&& seconds_hold(hook.completed_at, h.completed_at)
            &&& hook.failure_detail is None <==> h.failure_detail is None
        },
        event_in(sequence, event) matches Ok(e) ==> {
            &&& e.sequence == sequence
            &&& event_type_name(e.event_type) == event.event_type
            &&& e.step_id == event.step_id
            &&& seconds_hold(Some(event.timestamp), Some(e.timestamp))
            &&& parsed_json(event.payload) == Ok::<Json, Seq<char>>(e.payload)
        },
{
}

/// A failure is read from its members, or from a list of its four parts; one
/// without a kind is not read.
pub proof fn failures_are_read_by_their_parts(
    v: Json,
    kind: Seq<char>,
    code: u64,
    stdout: Seq<char>,
    stderr: Seq<char>,
)
    requires
        code <= i32::MAX,
    ensures
        ({
            let whole = JobFailureModel {
                kind,
                exit_code: Some(code as i32),
                stdout: Some(stdout),
                stderr: Some(stderr),
            };
            let below = JobFailureModel { exit_code: Some((-(code as int)) as i32), ..whole };
            let bare = JobFailureModel { kind, exit_code: None, stdout: None, stderr: None };
            let digits = decimal(code as nat);
            let listed = |n: Seq<char>|
                Json::Array(
                    seq![Json::Text(kind), Json::Number(n), Json::Text(stdout), Json::Text(stderr)],
                );
            &&& failure_in(listed(digits)) == Some(whole)
            &&& failure_in(listed(seq!['-'] + digits)) == Some(below)
            &&& v is Object && json_member(v, "kind"@) == Some(Json::Text(kind)) && json_member(
                v,
                "exit_code"@,
            ) == Some(Json::Number(digits)) && json_member(v, "stdout"@) == Some(Json::Text(stdout))
                && json_member(v, "stderr"@) == Some(Json::Text(stderr)) ==> failure_in(v) == Some(
                whole,
            )
            &&& v is Object && json_member(v, "kind"@) == Some(Json::Text(kind)) && json_member(
                v,
                "exit_code"@,
            ) is None && json_member(v, "stdout"@) is None && json_member(v, "stderr"@) is None
                ==> failure_in(v) == Some(bare)
        }),
        v is Object && json_member(v, "kind"@) is None ==> failure_in(v) is None,
        v is Array && v->Array_0.len() != 4 ==> failure_in(v) is None,
{
    whole_numbers_are_read(code, Seq::empty(), 0);
    let digits = decimal(code as nat);
    lemma_decimal(code as nat);
    assert(is_digit(digits[0]));
    let below = seq!['-'] + digits;
    assert(below[0] == '-');
    assert(below.drop_first() =~= digits);
}

} // verus!
