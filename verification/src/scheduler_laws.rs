//! What holds of every turn: laws of the writes and of the jobs that it plans.
use crate::flow::dag::{lemma_find_step_ids, self_rejecting};
use crate::flow::schema::duration_of;
use crate::flow::types::{find_step, step_kind, HookModel, StepWithModel};
use crate::json::{json_member, set_member_is_read, with_entry, Json};
use crate::ports::{
    devkitd_error_text, latest_of, state_of, DevkitdErrorModel, HookPhase as StoredHookPhase,
    HookStatus, MutationModel, RunEventType, RunRecordModel, StepRecordModel,
};
use crate::run::engine::{
    decided, input_template, next_attempt, rejected_state, step_text, Decision,
};
use crate::run::types::{
    active, engine_error_text, terminal, ActivationModel, ApprovalStatus, CommandModel,
    EngineErrorModel, EventModel, HookPhaseModel, RunPhase, StepStatus, Timestamp,
};
use crate::scheduler::{
    aborts, apply_action, before_hooks, cancel_steps, cli_arguments, continued_turn, deadline_after,
    deadline_of, driven, end_event, end_stamp, end_writes, ended, event_data, event_turn, finished,
    from_hooks, hook_run, job_after_start, job_after_store, job_outcome, no_plan, opening_writes,
    perform, perform_all, planned, run_event, split_commands_are_whole, step_cancel, step_start,
    step_starts, submitted_turn, verdict, ActionModel, ContinuationModel, JobConfig, JobReportModel,
    JobStepModel, Progress, SchedulerErrorModel, VerdictModel,
};
use crate::template::{context_of, resolved_value};
use crate::wire::failure_of;
use vstd::prelude::*;

verus! {

/// Everything that actions store, in order.
pub open spec fn written(actions: Seq<ActionModel>) -> Seq<MutationModel>
    decreases actions.len(),
{
    if actions.len() == 0 {
        Seq::empty()
    } else {
        written(actions.drop_last()) + (match actions.last() {
            ActionModel::Apply(writes) => writes,
            _ => Seq::empty(),
        })
    }
}

proof fn lemma_written(a: Seq<ActionModel>, b: Seq<ActionModel>)
    ensures
        written(a + b) == written(a) + written(b),
    decreases b.len(),
{
    let all = a + b;
    if b.len() == 0 {
        assert(all =~= a);
        assert(written(a) + written(b) =~= written(a));
    } else {
        lemma_written(a, b.drop_last());
        assert(all.drop_last() =~= a + b.drop_last());
        assert(written(all) =~= written(a) + written(b));
    }
}

/// Whether actions store nothing.
pub open spec fn stores_nothing(actions: Seq<ActionModel>) -> bool {
    forall|i: int| 0 <= i < actions.len() ==> !((#[trigger] actions[i]) is Apply)
}

proof fn lemma_nothing_written(actions: Seq<ActionModel>)
    requires
        stores_nothing(actions),
    ensures
        written(actions) == Seq::<MutationModel>::empty(),
    decreases actions.len(),
{
    if actions.len() > 0 {
        let rest = actions.drop_last();
        assert forall|i: int| 0 <= i < rest.len() implies !((#[trigger] rest[i]) is Apply) by {
            assert(actions[i] == rest[i]);
        }
        lemma_nothing_written(rest);
        assert(!(actions[actions.len() - 1] is Apply));
        assert(written(actions) =~= Seq::<MutationModel>::empty());
    }
}

proof fn lemma_applied(writes: Seq<MutationModel>)
    ensures
        written(apply_action(writes)) == writes,
{
    let one = apply_action(writes);
    if writes.len() == 0 {
        assert(writes =~= Seq::<MutationModel>::empty());
    } else {
        assert(one.drop_last() =~= Seq::<ActionModel>::empty());
        assert(written(one.drop_last()) == Seq::<MutationModel>::empty());
        assert(written(one) =~= writes);
    }
}

/// All that has been stored or is still to be stored.
spec fn total(p: Progress) -> Seq<MutationModel> {
    written(p.actions) + p.writes
}

/// Whether `s` begins with `head`.
pub open spec fn opens_with(s: Seq<MutationModel>, head: Seq<MutationModel>) -> bool {
    head.len() <= s.len() && s.take(head.len() as int) == head
}

proof fn lemma_opens(a: Seq<MutationModel>, b: Seq<MutationModel>, head: Seq<MutationModel>)
    requires
        opens_with(a, head),
    ensures
        opens_with(a + b, head),
{
    assert((a + b).take(head.len() as int) =~= a.take(head.len() as int));
}

proof fn lemma_starts_store_nothing(
    record: RunRecordModel,
    list: Seq<ActivationModel>,
    now: Timestamp,
    config: JobConfig,
)
    requires
        step_starts(record, list, now, config) is Ok,
    ensures
        stores_nothing(step_starts(record, list, now, config)->Ok_0.1),
    decreases list.len(),
{
    if list.len() > 0 {
        lemma_starts_store_nothing(record, list.drop_last(), now, config);
    }
}

proof fn lemma_cancels(
    record: RunRecordModel,
    ids: Seq<Seq<char>>,
    now: Timestamp,
    p: Progress,
    head: Seq<MutationModel>,
)
    requires
        opens_with(total(p), head),
    ensures
        opens_with(total(cancel_steps(record, ids, now, p)), head),
    decreases ids.len(),
{
    if ids.len() > 0 {
        let before = cancel_steps(record, ids.drop_last(), now, p);
        lemma_cancels(record, ids.drop_last(), now, p, head);
        let (actions, writes) = step_cancel(record, ids.last(), now);
        lemma_written(before.actions, actions);
        assert(stores_nothing(actions));
        lemma_nothing_written(actions);
        let next = cancel_steps(record, ids, now, p);
        assert(total(next) =~= total(before) + writes);
        lemma_opens(total(before), writes, head);
    }
}

proof fn lemma_perform_opens(
    record: RunRecordModel,
    event: EventModel,
    now: Timestamp,
    config: JobConfig,
    p: Progress,
    command: CommandModel,
    head: Seq<MutationModel>,
)
    requires
        opens_with(total(p), head),
    ensures
        opens_with(total(perform(record, event, now, config, p, command)), head),
{
    let next = perform(record, event, now, config, p, command);
    match command {
        CommandModel::ActivateSteps(list) => {
            if let Ok((inserts, starts)) = step_starts(record, list, now, config) {
                lemma_starts_store_nothing(record, list, now, config);
                lemma_nothing_written(starts);
                lemma_applied(p.writes + inserts);
                lemma_written(p.actions, apply_action(p.writes + inserts));
                lemma_written(p.actions + apply_action(p.writes + inserts), starts);
                assert(total(next) =~= total(p) + inserts);
                lemma_opens(total(p), inserts, head);
            }
        },
        CommandModel::CancelSteps(ids) => {
            lemma_cancels(record, ids, now, p, head);
        },
        CommandModel::MarkStepStatus { step_id, status } => {
            let more = next.actions.skip(p.actions.len() as int);
            assert(next.actions =~= p.actions + more);
            assert(stores_nothing(more));
            lemma_nothing_written(more);
            lemma_written(p.actions, more);
            let writes = next.writes.skip(p.writes.len() as int);
            assert(next.writes =~= p.writes + writes);
            assert(total(next) =~= total(p) + writes);
            lemma_opens(total(p), writes, head);
        },
        CommandModel::MarkRunTerminal(phase) => {
            let more = seq![ActionModel::StopDeadline];
            assert(next.actions =~= p.actions + more);
            assert(stores_nothing(more));
            lemma_nothing_written(more);
            lemma_written(p.actions, more);
            assert(total(next) =~= total(p) + end_writes(phase, now));
            lemma_opens(total(p), end_writes(phase, now), head);
        },
        CommandModel::RunHooks { .. } => {},
        _ => {
            let writes = next.writes.skip(p.writes.len() as int);
            assert(next.writes =~= p.writes + writes);
            assert(total(next) =~= total(p) + writes);
            lemma_opens(total(p), writes, head);
        },
    }
}

proof fn lemma_all_open(
    record: RunRecordModel,
    event: EventModel,
    now: Timestamp,
    config: JobConfig,
    p: Progress,
    commands: Seq<CommandModel>,
    head: Seq<MutationModel>,
)
    requires
        opens_with(total(p), head),
    ensures
        opens_with(total(perform_all(record, event, now, config, p, commands)), head),
    decreases commands.len(),
{
    if commands.len() > 0 {
        let before = perform_all(record, event, now, config, p, commands.drop_last());
        lemma_all_open(record, event, now, config, p, commands.drop_last(), head);
        if before.error is None {
            lemma_perform_opens(record, event, now, config, before, commands.last(), head);
        }
    }
}

proof fn lemma_finished(p: Progress)
    requires
        p.error is None,
    ensures
        written(finished(p).actions) == total(p),
{
    lemma_written(p.actions, apply_action(p.writes));
    lemma_applied(p.writes);
}

/// The first thing that is stored of a run that starts is the event that
/// reports it, unless its turn fails.
pub proof fn started_run_is_reported_first(
    record: RunRecordModel,
    now: Timestamp,
    config: JobConfig,
)
    requires
        !ended(record.phase),
        event_turn(record, EventModel::RunStarted, now, config).0.error is None,
    ensures
        ({
            let stored = written(event_turn(record, EventModel::RunStarted, now, config).0.actions);
            stored.len() > 0 && stored[0] == run_event(RunEventType::RunStarted, now)
        }),
{
    let event = EventModel::RunStarted;
    let opening = opening_writes(event, now);
    let commands = decided(record.definition, state_of(record), event)->Ok_0;
    let p = Progress {
        actions: Seq::empty(),
        writes: opening,
        follow_ons: Seq::empty(),
        error: None,
    };
    assert(total(p) =~= opening);
    assert(total(p).take(1) =~= opening);
    lemma_all_open(record, event, now, config, p, before_hooks(commands), opening);
    let done = perform_all(record, event, now, config, p, before_hooks(commands));
    lemma_finished(done);
    let stored = written(finished(done).actions);
    assert(stored.take(1)[0] == opening[0]);
}

/// Whether `s` ends with `tail`.
pub open spec fn closes_with(s: Seq<MutationModel>, tail: Seq<MutationModel>) -> bool {
    tail.len() <= s.len() && s.skip(s.len() - tail.len()) == tail
}

/// Where the last command of a turn ends the run, the last things that are
/// stored are the run's phase and the event that reports its end.
pub proof fn ended_run_is_reported_last(
    record: RunRecordModel,
    event: EventModel,
    now: Timestamp,
    config: JobConfig,
    opening: Seq<MutationModel>,
    commands: Seq<CommandModel>,
    phase: RunPhase,
)
    requires
        commands.len() > 0,
        commands.last() == CommandModel::MarkRunTerminal(phase),
        planned(record, event, now, config, opening, commands).error is None,
    ensures
        ({
            let stored = written(planned(record, event, now, config, opening, commands).actions);
            &&& closes_with(stored, end_writes(phase, now))
            &&& stored.last() == run_event(end_event(phase), now)
        }),
{
    let p = Progress {
        actions: Seq::empty(),
        writes: opening,
        follow_ons: Seq::empty(),
        error: None,
    };
    let before = perform_all(record, event, now, config, p, commands.drop_last());
    let done = perform_all(record, event, now, config, p, commands);
    lemma_finished(done);
    let tail = end_writes(phase, now);
    let more = seq![ActionModel::StopDeadline];
    assert(done.actions =~= before.actions + more);
    assert(stores_nothing(more));
    lemma_nothing_written(more);
    lemma_written(before.actions, more);
    assert(total(done) =~= total(before) + tail);
    let stored = total(done);
    assert(stored.skip(stored.len() - tail.len()) =~= tail);
    assert(stored.last() == tail.last());
}

/// Whether actions store a step's record with this attempt.
pub open spec fn stores_attempt(actions: Seq<ActionModel>, activation: ActivationModel) -> bool {
    exists|i: int| 0 <= i < actions.len() && #[trigger] holds_attempt(actions[i], activation)
}

/// Whether an action stores a step's record with this attempt.
pub open spec fn holds_attempt(action: ActionModel, activation: ActivationModel) -> bool {
    match action {
        ActionModel::Apply(writes) => batch_holds(writes, activation),
        _ => false,
    }
}

/// Whether a batch of writes inserts a step's record with this attempt.
pub open spec fn batch_holds(writes: Seq<MutationModel>, activation: ActivationModel) -> bool {
    exists|k: int| 0 <= k < writes.len() && #[trigger] inserts_attempt(writes[k], activation)
}

/// Whether a write inserts a step's record with this attempt.
pub open spec fn inserts_attempt(write: MutationModel, activation: ActivationModel) -> bool {
    write matches MutationModel::InsertStepRun(step) && step.run.step_id == activation.step_id
        && step.run.attempt == activation.attempt
}

/// Whether every job is started only after its step's record has been stored.
pub open spec fn stored_before_started(actions: Seq<ActionModel>) -> bool {
    forall|i: int|
        0 <= i < actions.len() ==> ((#[trigger] actions[i]) matches ActionModel::StartStep {
            activation,
            request,
        } ==> stores_attempt(actions.take(i), activation))
}

/// Whether actions start no job.
spec fn starts_no_job(actions: Seq<ActionModel>) -> bool {
    forall|i: int| 0 <= i < actions.len() ==> !((#[trigger] actions[i]) is StartStep)
}

proof fn lemma_more_actions(a: Seq<ActionModel>, b: Seq<ActionModel>)
    requires
        stored_before_started(a),
        starts_no_job(b),
    ensures
        stored_before_started(a + b),
{
    let all = a + b;
    assert forall|i: int| 0 <= i < all.len() implies ((
    #[trigger] all[i]) matches ActionModel::StartStep { activation, request } ==> stores_attempt(
        all.take(i),
        activation,
    )) by {
        if i < a.len() {
            assert(all[i] == a[i]);
            assert(all.take(i) =~= a.take(i));
        } else {
            assert(all[i] == b[i - a.len()]);
        }
    }
}

proof fn lemma_starts_listed(
    record: RunRecordModel,
    list: Seq<ActivationModel>,
    now: Timestamp,
    config: JobConfig,
)
    requires
        step_starts(record, list, now, config) is Ok,
    ensures
        ({
            let (inserts, starts) = step_starts(record, list, now, config)->Ok_0;
            &&& inserts.len() == list.len()
            &&& starts.len() == list.len()
            &&& forall|i: int|
                0 <= i < list.len() ==> inserts_attempt(#[trigger] inserts[i], list[i])
            &&& forall|i: int|
                0 <= i < list.len() ==> ((#[trigger] starts[i]) matches ActionModel::StartStep {
                    activation,
                    request,
                } && activation == list[i])
        }),
    decreases list.len(),
{
    if list.len() > 0 {
        let rest = list.drop_last();
        lemma_starts_listed(record, rest, now, config);
        let (before_inserts, before_starts) = step_starts(record, rest, now, config)->Ok_0;
        let (inserts, starts) = step_starts(record, list, now, config)->Ok_0;
        assert forall|i: int| 0 <= i < list.len() implies inserts_attempt(
            #[trigger] inserts[i],
            list[i],
        ) by {
            if i < rest.len() {
                assert(inserts[i] == before_inserts[i]);
                assert(rest[i] == list[i]);
            }
        }
        assert forall|i: int| 0 <= i < list.len() implies ((
        #[trigger] starts[i]) matches ActionModel::StartStep { activation, request } && activation
            == list[i]) by {
            if i < rest.len() {
                assert(starts[i] == before_starts[i]);
                assert(rest[i] == list[i]);
            }
        }
    }
}

proof fn lemma_activation_stored(
    record: RunRecordModel,
    event: EventModel,
    now: Timestamp,
    config: JobConfig,
    p: Progress,
    list: Seq<ActivationModel>,
)
    requires
        stored_before_started(p.actions),
        step_starts(record, list, now, config) is Ok,
    ensures
        stored_before_started(
            perform(record, event, now, config, p, CommandModel::ActivateSteps(list)).actions,
        ),
{
    let (inserts, starts) = step_starts(record, list, now, config)->Ok_0;
    let batch = p.writes + inserts;
    let apply = apply_action(batch);
    lemma_starts_listed(record, list, now, config);
    assert(starts_no_job(apply));
    lemma_more_actions(p.actions, apply);
    let a = p.actions + apply;
    let all = a + starts;
    assert forall|i: int| 0 <= i < all.len() implies ((
    #[trigger] all[i]) matches ActionModel::StartStep { activation, request } ==> stores_attempt(
        all.take(i),
        activation,
    )) by {
        if i < a.len() {
            assert(all[i] == a[i]);
            assert(all.take(i) =~= a.take(i));
        } else {
            let j = i - a.len();
            assert(all[i] == starts[j]);
            assert(inserts_attempt(inserts[j], list[j]));
            assert(batch[p.writes.len() + j] == inserts[j]);
            assert(inserts_attempt(batch[p.writes.len() + j], list[j]));
            assert(batch_holds(batch, list[j]));
            let k = p.actions.len() as int;
            assert(apply[0] == ActionModel::Apply(batch));
            assert(all[k] == apply[0]);
            assert(all.take(i)[k] == ActionModel::Apply(batch));
            assert(holds_attempt(all.take(i)[k], list[j]));
        }
    }
}

proof fn lemma_cancels_start_nothing(
    record: RunRecordModel,
    ids: Seq<Seq<char>>,
    now: Timestamp,
    p: Progress,
)
    requires
        stored_before_started(p.actions),
    ensures
        stored_before_started(cancel_steps(record, ids, now, p).actions),
    decreases ids.len(),
{
    if ids.len() > 0 {
        let before = cancel_steps(record, ids.drop_last(), now, p);
        lemma_cancels_start_nothing(record, ids.drop_last(), now, p);
        let (actions, writes) = step_cancel(record, ids.last(), now);
        assert(starts_no_job(actions));
        lemma_more_actions(before.actions, actions);
    }
}

proof fn lemma_jobs_stored(
    record: RunRecordModel,
    event: EventModel,
    now: Timestamp,
    config: JobConfig,
    p: Progress,
    commands: Seq<CommandModel>,
)
    requires
        stored_before_started(p.actions),
    ensures
        stored_before_started(perform_all(record, event, now, config, p, commands).actions),
    decreases commands.len(),
{
    if commands.len() > 0 {
        let before = perform_all(record, event, now, config, p, commands.drop_last());
        lemma_jobs_stored(record, event, now, config, p, commands.drop_last());
        if before.error is None {
            let next = perform(record, event, now, config, before, commands.last());
            match commands.last() {
                CommandModel::ActivateSteps(list) => {
                    if step_starts(record, list, now, config) is Ok {
                        lemma_activation_stored(record, event, now, config, before, list);
                    }
                },
                CommandModel::CancelSteps(ids) => {
                    lemma_cancels_start_nothing(record, ids, now, before);
                },
                CommandModel::MarkStepStatus { step_id, status } => {
                    let more = next.actions.skip(before.actions.len() as int);
                    assert(next.actions =~= before.actions + more);
                    assert(starts_no_job(more));
                    lemma_more_actions(before.actions, more);
                },
                CommandModel::MarkRunTerminal(phase) => {
                    let more = seq![ActionModel::StopDeadline];
                    assert(next.actions =~= before.actions + more);
                    lemma_more_actions(before.actions, more);
                },
                _ => {},
            }
        }
    }
}

/// In every turn a job is started only after the record of its step has been
/// stored, so that no job runs that the store does not know of.
pub proof fn jobs_start_after_their_records(
    record: RunRecordModel,
    event: EventModel,
    now: Timestamp,
    config: JobConfig,
)
    ensures
        stored_before_started(event_turn(record, event, now, config).0.actions),
{
    if !ended(record.phase) {
        if let Ok(commands) = decided(
            record.definition,
            state_of(record),
            event,
        ) {
            let p = Progress {
                actions: Seq::empty(),
                writes: opening_writes(event, now),
                follow_ons: Seq::empty(),
                error: None,
            };
            assert(stored_before_started(p.actions));
            lemma_jobs_stored(record, event, now, config, p, before_hooks(commands));
            let done = perform_all(record, event, now, config, p, before_hooks(commands));
            lemma_more_actions(done.actions, apply_action(done.writes));
        }
    }
}

/// A run that has ended stays as it is: no event leads to anything.
pub proof fn ended_run_stays(
    record: RunRecordModel,
    event: EventModel,
    now: Timestamp,
    config: JobConfig,
)
    requires
        ended(record.phase),
    ensures
        ({
            let (plan, hooks) = event_turn(record, event, now, config);
            plan.actions.len() == 0 && plan.follow_ons.len() == 0 && plan.error is None && hooks
                is None
        }),
{
}

/// A scheduler that was shut down takes no event, and a run that has ended is
/// never left: nothing is stored, started or cancelled.
pub proof fn nothing_is_planned_after_the_end(
    shut_down: bool,
    record: RunRecordModel,
    event: EventModel,
    now: Timestamp,
    config: JobConfig,
)
    requires
        shut_down || ended(record.phase),
    ensures
        submitted_turn(shut_down, record, event, now, config) == (no_plan(), None::<
            ContinuationModel,
        >),
{
}

/// A job is waited for only after its handle has been stored. The handle of
/// every job that was accepted is stored first; where that fails, the job is
/// not waited for.
pub proof fn handle_is_stored_before_the_wait(
    step_id: Seq<char>,
    attempt: u32,
    started: Result<Seq<char>, DevkitdErrorModel>,
    stored: bool,
    deadline: Option<Timestamp>,
)
    ensures
        !(job_after_start(step_id, attempt, started) is Wait),
        started matches Ok(handle) ==> {
            &&& job_after_start(step_id, attempt, started) == (JobStepModel::Store {
                handle,
                writes: seq![
                    MutationModel::SetJobId { step_id, attempt, job_id: Some(handle) },
                ],
            })
            &&& stored ==> job_after_store(step_id, attempt, handle, stored, deadline) == (
            JobStepModel::Wait { handle, deadline })
            &&& !stored ==> job_after_store(step_id, attempt, handle, stored, deadline) is Finish
        },
        started is Err ==> job_after_start(step_id, attempt, started) is Finish,
{
}

/// The input of a step reaches its job as it is, and so it is recorded: what
/// stands in it is not resolved once more.
pub proof fn input_reaches_the_job_unchanged(
    record: RunRecordModel,
    activation: ActivationModel,
    now: Timestamp,
    config: JobConfig,
)
    ensures
        step_start(record, activation, now, config) matches Ok((inserted, request)) ==> {
            &&& json_member(request.args, "input"@) == Some(Json::Text(activation.input))
            &&& inserted.run.input_resolved == Some(activation.input)
            &&& inserted.with_resolved matches Some(with) && json_member(with, "input"@) == Some(
                Json::Text(activation.input),
            )
        },
{
    let flow = record.definition;
    let input = activation.input;
    if let Some(step) = find_step(flow.steps, activation.step_id) {
        let ctx = context_of(flow.steps, state_of(record), Json::Null);
        if let Some(StepWithModel::Cli(with)) = step_kind(step) {
            let args = Json::Object(cli_arguments(with, flow.defaults));
            if let Ok(done) = resolved_value(args, ctx, step.id) {
                assert(done is Object);
                let entries = done->Object_0;
                let filled = with_entry(entries, "input"@, Json::Text(input));
                let stepped = with_entry(filled, "step"@, Json::Text(activation.step_id));
                set_member_is_read(entries, "input"@, Json::Text(input), "input"@);
                set_member_is_read(filled, "step"@, Json::Text(activation.step_id), "input"@);
                set_member_is_read(stepped, "flow"@, Json::Text(flow.name), "input"@);
                reveal_strlit("input");
                reveal_strlit("step");
                reveal_strlit("flow");
                assert("input"@.len() != "step"@.len());
                assert("input"@.len() != "flow"@.len());
            }
        }
    }
}

/// A cli step that is rejected and loops back to itself is run again, and the
/// feedback reaches its job verbatim, whatever it holds.
pub proof fn feedback_reaches_the_job_verbatim(
    record: RunRecordModel,
    id: Seq<char>,
    feedback: Seq<char>,
    base: Seq<char>,
    now: Timestamp,
    config: JobConfig,
)
    requires
        !ended(record.phase),
        latest_of(record.steps, id) is Some,
        find_step(record.definition.steps, id) matches Some(step) && self_rejecting(step)
            && step.reject_input is None && (step_kind(step) matches Some(StepWithModel::Cli(with))
            && resolved_value(
            Json::Object(cli_arguments(with, record.definition.defaults)),
            context_of(record.definition.steps, state_of(record), Json::Null),
            step.id,
        ) is Ok) && step_text(
            step,
            input_template(step),
            context_of(
                record.definition.steps,
                rejected_state(state_of(record), id, feedback),
                Json::Null,
            ),
        ) == Ok::<Seq<char>, EngineErrorModel>(base),
    ensures
        ({
            let (plan, hooks) = event_turn(
                record,
                EventModel::StepRejected { step_id: id, feedback },
                now,
                config,
            );
            &&& plan.error is None
            &&& hooks is None
            &&& plan.actions.len() > 0
            &&& plan.actions.last() matches ActionModel::StartStep { activation, request }
                && activation.step_id == id && json_member(request.args, "input"@) == Some(
                Json::Text(base + "\n\nFeedback: "@ + feedback),
            )
        }),
{
    let flow = record.definition;
    let state = state_of(record);
    let event = EventModel::StepRejected { step_id: id, feedback };
    lemma_find_step_ids(flow.steps, id);
    let step = find_step(flow.steps, id)->Some_0;
    let input = base + "\n\nFeedback: "@ + feedback;
    let activation = ActivationModel {
        step_id: step.id,
        attempt: next_attempt(state.steps, id),
        input,
    };
    let mark = CommandModel::MarkStepStatus { step_id: id, status: StepStatus::FailedRejected };
    let start = CommandModel::ActivateSteps(seq![activation]);
    let commands = seq![mark] + seq![start];
    assert(decided(flow, state, event) == Decision::Ok(commands));
    assert(commands.drop_first() =~= seq![start]);
    assert(seq![start].drop_first() =~= Seq::<CommandModel>::empty());
    assert(before_hooks(Seq::<CommandModel>::empty()) =~= Seq::<CommandModel>::empty());
    assert(before_hooks(seq![start]) =~= seq![start]);
    assert(before_hooks(commands) =~= commands);
    assert(from_hooks(Seq::<CommandModel>::empty()) is None);
    assert(from_hooks(seq![start]) is None);
    assert(from_hooks(commands) is None);
    let p = Progress {
        actions: Seq::empty(),
        writes: opening_writes(event, now),
        follow_ons: Seq::empty(),
        error: None,
    };
    assert(commands.drop_last() =~= seq![mark]);
    assert(seq![mark].drop_last() =~= Seq::<CommandModel>::empty());
    assert(perform_all(record, event, now, config, p, Seq::<CommandModel>::empty()) == p);
    let marked = perform(record, event, now, config, p, mark);
    assert(perform_all(record, event, now, config, p, seq![mark]) == marked);
    assert(marked.error is None);
    let list = seq![activation];
    assert(list.drop_last() =~= Seq::<ActivationModel>::empty());
    assert(step_starts(record, list.drop_last(), now, config) == Ok::<
        (Seq<MutationModel>, Seq<ActionModel>),
        SchedulerErrorModel,
    >((Seq::empty(), Seq::empty())));
    input_reaches_the_job_unchanged(record, activation, now, config);
    assert(step_start(record, activation, now, config) is Ok);
    let (inserted, request) = step_start(record, activation, now, config)->Ok_0;
    let begun = Seq::<ActionModel>::empty().push(ActionModel::StartStep { activation, request });
    let done = perform(record, event, now, config, marked, start);
    assert(perform_all(record, event, now, config, p, commands) == done);
    assert(done.actions.last() == begun.last());
    assert(finished(done).actions =~= done.actions);
}

/// Whether the actions of a turn store a write.
pub open spec fn stores(actions: Seq<ActionModel>, write: MutationModel) -> bool {
    written(actions).contains(write)
}

/// What has been stored or is still to be stored, and what has been planned.
pub struct Outcome {
    pub writes: Seq<MutationModel>,
    pub actions: Seq<ActionModel>,
    pub follow_ons: Seq<EventModel>,
}

/// Whether a command has been carried out: what it asks for is stored and done.
pub open spec fn carried_out(
    record: RunRecordModel,
    event: EventModel,
    now: Timestamp,
    config: JobConfig,
    o: Outcome,
    command: CommandModel,
) -> bool {
    match command {
        CommandModel::MarkStepStatus { step_id, status } => match latest_of(
            record.steps,
            step_id,
        ) {
            None => status == StepStatus::Skipped,
            Some(step) => {
                let attempt = step.run.attempt;
                &&& o.writes.contains(MutationModel::SetStepStatus { step_id, attempt, status })
                &&& terminal(status) ==> {
                    &&& o.writes.contains(
                        MutationModel::SetStepTimestamps {
                            step_id,
                            attempt,
                            started_at: None,
                            completed_at: Some(now),
                        },
                    )
                    &&& o.actions.contains(ActionModel::ClearLiveness { step_id })
                }
                &&& match event {
                    EventModel::StepCompleted { step_id: id, output } => id == step_id
                        ==> o.writes.contains(
                        MutationModel::SetStepOutput { step_id, attempt, output },
                    ),
                    EventModel::StepFailed { step_id: id, reason } => id == step_id
                        ==> o.writes.contains(
                        MutationModel::SetStepFailure { step_id, attempt, reason },
                    ),
                    EventModel::StepApproved { step_id: id, comment } => id == step_id
                        ==> o.writes.contains(
                        MutationModel::SetApproval {
                            step_id,
                            attempt,
                            approval_status: ApprovalStatus::Approved,
                            comment,
                            feedback: None,
                        },
                    ),
                    EventModel::StepRejected { step_id: id, feedback } => id == step_id
                        ==> o.writes.contains(
                        MutationModel::SetApproval {
                            step_id,
                            attempt,
                            approval_status: ApprovalStatus::Rejected,
                            comment: None,
                            feedback: Some(feedback),
                        },
                    ),
                    _ => true,
                }
            },
        },
        CommandModel::WaitApproval { step_id } => latest_of(record.steps, step_id) matches Some(
            step,
        ) && o.writes.contains(
            MutationModel::SetStepStatus {
                step_id,
                attempt: step.run.attempt,
                status: StepStatus::WaitingApproval,
            },
        ),
        CommandModel::ActivateSteps(list) => forall|i: int|
            0 <= i < list.len() ==> has_started(record, now, config, o, #[trigger] list[i]),
        CommandModel::CancelSteps(ids) => forall|i: int|
            0 <= i < ids.len() ==> is_cancelled(record, now, o, #[trigger] ids[i]),
        CommandModel::StartChildRun { step_id } => {
            &&& exists|inserted: StepRecordModel|
                inserted.run.step_id == step_id && inserted.run.status == StepStatus::Running
                    && #[trigger] o.writes.contains(MutationModel::InsertStepRun(inserted))
            &&& o.follow_ons.contains(
                EventModel::StepFailed { step_id, reason: "subflows not yet supported"@ },
            )
        },
        CommandModel::MarkRunTerminal(phase) => {
            &&& o.writes.contains(MutationModel::SetRunPhase(phase))
            &&& phase == RunPhase::Cancelled ==> o.writes.contains(MutationModel::SetRunCancelled)
            &&& o.actions.contains(ActionModel::StopDeadline)
            &&& exists|told: MutationModel|
                #[trigger] o.writes.contains(told) && tells_the_end(told, phase, now)
        },
        CommandModel::RunHooks { .. } => true,
    }
}

/// Whether a write appends the event that tells how a run ended.
pub open spec fn tells_the_end(write: MutationModel, phase: RunPhase, now: Timestamp) -> bool {
    write matches MutationModel::AppendEvent(e) && e.step_id is None && e.timestamp == now
        && e.event_type == (match phase {
        RunPhase::Completed => RunEventType::RunCompleted,
        RunPhase::Cancelled => RunEventType::RunCancelled,
        _ => RunEventType::RunFailed,
    })
}

/// Whether a step has started: the record of its attempt is stored, and its job
/// is started.
pub open spec fn has_started(
    record: RunRecordModel,
    now: Timestamp,
    config: JobConfig,
    o: Outcome,
    activation: ActivationModel,
) -> bool {
    match step_start(record, activation, now, config) {
        Ok((inserted, request)) => o.writes.contains(MutationModel::InsertStepRun(inserted))
            && o.actions.contains(ActionModel::StartStep { activation, request }),
        Err(_) => false,
    }
}

/// Whether a step, where it is under way, is cancelled: its status is stored, and
/// its job, where it has one, is cancelled and no longer waited for.
pub open spec fn is_cancelled(
    record: RunRecordModel,
    now: Timestamp,
    o: Outcome,
    step_id: Seq<char>,
) -> bool {
    latest_of(record.steps, step_id) matches Some(step) ==> active(step.run.status) ==> {
        let attempt = step.run.attempt;
        &&& o.writes.contains(
            MutationModel::SetStepStatus { step_id, attempt, status: StepStatus::Cancelled },
        )
        &&& o.writes.contains(
            MutationModel::SetStepTimestamps {
                step_id,
                attempt,
                started_at: None,
                completed_at: Some(now),
            },
        )
        &&& step.job_id matches Some(job_id) ==> o.actions.contains(
            ActionModel::CancelJob { step_id, job_id },
        ) && o.actions.contains(ActionModel::AbortWait { step_id, attempt })
    }
}

spec fn outcome_of(p: Progress) -> Outcome {
    Outcome { writes: total(p), actions: p.actions, follow_ons: p.follow_ons }
}

/// Whether `b` has all that `a` has.
spec fn grows(a: Outcome, b: Outcome) -> bool {
    &&& forall|w: MutationModel| a.writes.contains(w) ==> #[trigger] b.writes.contains(w)
    &&& forall|x: ActionModel| a.actions.contains(x) ==> #[trigger] b.actions.contains(x)
    &&& forall|e: EventModel| a.follow_ons.contains(e) ==> #[trigger] b.follow_ons.contains(e)
}

proof fn lemma_sum_has<A>(a: Seq<A>, b: Seq<A>)
    ensures
        forall|x: A| a.contains(x) ==> #[trigger] (a + b).contains(x),
        forall|x: A| b.contains(x) ==> #[trigger] (a + b).contains(x),
{
    let all = a + b;
    assert forall|x: A| a.contains(x) implies #[trigger] all.contains(x) by {
        let i = choose|i: int| 0 <= i < a.len() && a[i] == x;
        assert(all[i] == x);
    }
    assert forall|x: A| b.contains(x) implies #[trigger] all.contains(x) by {
        let i = choose|i: int| 0 <= i < b.len() && b[i] == x;
        assert(all[i + a.len()] == x);
    }
}

proof fn lemma_kept(
    record: RunRecordModel,
    event: EventModel,
    now: Timestamp,
    config: JobConfig,
    a: Outcome,
    b: Outcome,
    command: CommandModel,
)
    requires
        grows(a, b),
        carried_out(record, event, now, config, a, command),
    ensures
        carried_out(record, event, now, config, b, command),
{
    match command {
        CommandModel::ActivateSteps(list) => {
            assert forall|i: int| 0 <= i < list.len() implies has_started(
                record,
                now,
                config,
                b,
                #[trigger] list[i],
            ) by {
                assert(has_started(record, now, config, a, list[i]));
            }
        },
        CommandModel::CancelSteps(ids) => {
            assert forall|i: int| 0 <= i < ids.len() implies is_cancelled(
                record,
                now,
                b,
                #[trigger] ids[i],
            ) by {
                assert(is_cancelled(record, now, a, ids[i]));
            }
        },
        CommandModel::StartChildRun { step_id } => {
            let inserted = choose|inserted: StepRecordModel|
                inserted.run.step_id == step_id && inserted.run.status == StepStatus::Running
                    && #[trigger] a.writes.contains(MutationModel::InsertStepRun(inserted));
            assert(b.writes.contains(MutationModel::InsertStepRun(inserted)));
        },
        CommandModel::MarkRunTerminal(phase) => {
            let told = choose|told: MutationModel|
                #[trigger] a.writes.contains(told) && tells_the_end(told, phase, now);
            assert(b.writes.contains(told));
        },
        _ => {},
    }
}

proof fn lemma_cancel_grows(
    record: RunRecordModel,
    ids: Seq<Seq<char>>,
    now: Timestamp,
    p: Progress,
)
    ensures
        grows(outcome_of(p), outcome_of(cancel_steps(record, ids, now, p))),
        forall|i: int|
            0 <= i < ids.len() ==> is_cancelled(
                record,
                now,
                outcome_of(cancel_steps(record, ids, now, p)),
                #[trigger] ids[i],
            ),
        cancel_steps(record, ids, now, p).error == p.error,
    decreases ids.len(),
{
    if ids.len() > 0 {
        let rest = ids.drop_last();
        let before = cancel_steps(record, rest, now, p);
        lemma_cancel_grows(record, rest, now, p);
        let (actions, writes) = step_cancel(record, ids.last(), now);
        let next = cancel_steps(record, ids, now, p);
        lemma_written(before.actions, actions);
        assert(stores_nothing(actions));
        lemma_nothing_written(actions);
        assert(total(next) =~= total(before) + writes);
        lemma_sum_has(total(before), writes);
        lemma_sum_has(before.actions, actions);
        assert(grows(outcome_of(before), outcome_of(next)));
        assert forall|i: int| 0 <= i < ids.len() implies is_cancelled(
            record,
            now,
            outcome_of(next),
            #[trigger] ids[i],
        ) by {
            if i < rest.len() {
                assert(rest[i] == ids[i]);
                assert(is_cancelled(record, now, outcome_of(before), rest[i]));
            } else if let Some(step) = latest_of(record.steps, ids[i]) {
                if active(step.run.status) {
                    assert(writes[0] == MutationModel::SetStepStatus {
                        step_id: ids[i],
                        attempt: step.run.attempt,
                        status: StepStatus::Cancelled,
                    });
                    assert(writes[1] == MutationModel::SetStepTimestamps {
                        step_id: ids[i],
                        attempt: step.run.attempt,
                        started_at: None,
                        completed_at: Some(now),
                    });
                    assert(writes.contains(writes[0]) && writes.contains(writes[1]));
                    if let Some(job_id) = step.job_id {
                        assert(actions[0] == ActionModel::CancelJob { step_id: ids[i], job_id });
                        assert(actions[1] == ActionModel::AbortWait {
                            step_id: ids[i],
                            attempt: step.run.attempt,
                        });
                        assert(actions.contains(actions[0]) && actions.contains(actions[1]));
                    }
                }
            }
        }
    }
}

proof fn lemma_starts_exact(
    record: RunRecordModel,
    list: Seq<ActivationModel>,
    now: Timestamp,
    config: JobConfig,
)
    requires
        step_starts(record, list, now, config) is Ok,
    ensures
        ({
            let (inserts, starts) = step_starts(record, list, now, config)->Ok_0;
            forall|i: int|
                0 <= i < list.len() ==> match step_start(record, #[trigger] list[i], now, config) {
                    Ok((inserted, request)) => inserts.contains(
                        MutationModel::InsertStepRun(inserted),
                    ) && starts.contains(ActionModel::StartStep { activation: list[i], request }),
                    Err(_) => false,
                }
        }),
    decreases list.len(),
{
    if list.len() > 0 {
        let rest = list.drop_last();
        lemma_starts_exact(record, rest, now, config);
        let (a, b) = step_starts(record, rest, now, config)->Ok_0;
        let (inserts, starts) = step_starts(record, list, now, config)->Ok_0;
        let (inserted, request) = step_start(record, list.last(), now, config)->Ok_0;
        let x = MutationModel::InsertStepRun(inserted);
        let y = ActionModel::StartStep { activation: list.last(), request };
        assert(inserts =~= a + seq![x]);
        assert(starts =~= b + seq![y]);
        lemma_sum_has(a, seq![x]);
        lemma_sum_has(b, seq![y]);
        assert(seq![x][0] == x && seq![y][0] == y);
        assert(seq![x].contains(x) && seq![y].contains(y));
        assert forall|i: int| 0 <= i < list.len() implies match step_start(
            record,
            #[trigger] list[i],
            now,
            config,
        ) {
            Ok((inserted, request)) => inserts.contains(MutationModel::InsertStepRun(inserted))
                && starts.contains(ActionModel::StartStep { activation: list[i], request }),
            Err(_) => false,
        } by {
            if i < rest.len() {
                assert(rest[i] == list[i]);
            }
        }
    }
}

proof fn lemma_performed(
    record: RunRecordModel,
    event: EventModel,
    now: Timestamp,
    config: JobConfig,
    p: Progress,
    command: CommandModel,
)
    requires
        perform(record, event, now, config, p, command).error is None,
        p.error is None,
    ensures
        grows(outcome_of(p), outcome_of(perform(record, event, now, config, p, command))),
        carried_out(
            record,
            event,
            now,
            config,
            outcome_of(perform(record, event, now, config, p, command)),
            command,
        ),
{
    let next = perform(record, event, now, config, p, command);
    match command {
        CommandModel::ActivateSteps(list) => {
            let (inserts, starts) = step_starts(record, list, now, config)->Ok_0;
            lemma_starts_store_nothing(record, list, now, config);
            lemma_nothing_written(starts);
            lemma_applied(p.writes + inserts);
            lemma_written(p.actions, apply_action(p.writes + inserts));
            lemma_written(p.actions + apply_action(p.writes + inserts), starts);
            assert(total(next) =~= total(p) + inserts);
            lemma_sum_has(total(p), inserts);
            lemma_sum_has(p.actions, apply_action(p.writes + inserts));
            lemma_sum_has(p.actions + apply_action(p.writes + inserts), starts);
            lemma_starts_exact(record, list, now, config);
            assert forall|i: int| 0 <= i < list.len() implies has_started(
                record,
                now,
                config,
                outcome_of(next),
                #[trigger] list[i],
            ) by {}
        },
        CommandModel::CancelSteps(ids) => {
            lemma_cancel_grows(record, ids, now, p);
        },
        CommandModel::MarkStepStatus { step_id, status } => {
            let more = next.actions.skip(p.actions.len() as int);
            assert(next.actions =~= p.actions + more);
            assert(stores_nothing(more));
            lemma_nothing_written(more);
            lemma_written(p.actions, more);
            let writes = next.writes.skip(p.writes.len() as int);
            assert(next.writes =~= p.writes + writes);
            assert(total(next) =~= total(p) + writes);
            lemma_sum_has(total(p), writes);
            lemma_sum_has(p.actions, more);
            if let Some(step) = latest_of(record.steps, step_id) {
                let attempt = step.run.attempt;
                assert(writes[0] == MutationModel::SetStepStatus { step_id, attempt, status });
                assert(writes.contains(writes[0]));
                let data = event_data(event, step_id, attempt);
                if terminal(status) {
                    assert(writes[1] == end_stamp(step_id, attempt, now));
                    assert(writes.contains(writes[1]));
                    assert(more[0] == ActionModel::ClearLiveness { step_id });
                    assert(more.contains(more[0]));
                }
                if data.len() > 0 {
                    assert(writes[writes.len() - 1] == data[0]);
                    assert(writes.contains(data[0]));
                }
            }
        },
        CommandModel::MarkRunTerminal(phase) => {
            let more = seq![ActionModel::StopDeadline];
            assert(next.actions =~= p.actions + more);
            assert(stores_nothing(more));
            lemma_nothing_written(more);
            lemma_written(p.actions, more);
            let writes = end_writes(phase, now);
            assert(total(next) =~= total(p) + writes);
            lemma_sum_has(total(p), writes);
            lemma_sum_has(p.actions, more);
            assert(more[0] == ActionModel::StopDeadline);
            assert(more.contains(more[0]));
            assert(writes[0] == MutationModel::SetRunPhase(phase));
            assert(writes.contains(writes[0]));
            if phase == RunPhase::Cancelled {
                assert(writes[1] == MutationModel::SetRunCancelled);
                assert(writes.contains(writes[1]));
            }
            let told = writes[writes.len() - 1];
            assert(writes.contains(told));
            assert(tells_the_end(told, phase, now));
            assert(outcome_of(next).writes.contains(told));
        },
        CommandModel::RunHooks { .. } => {},
        _ => {
            let writes = next.writes.skip(p.writes.len() as int);
            assert(next.writes =~= p.writes + writes);
            assert(total(next) =~= total(p) + writes);
            lemma_sum_has(total(p), writes);
            assert(writes.contains(writes[0]));
            let told = next.follow_ons.skip(p.follow_ons.len() as int);
            assert(next.follow_ons =~= p.follow_ons + told);
            lemma_sum_has(p.follow_ons, told);
            if let CommandModel::StartChildRun { step_id } = command {
                assert(told[0] == EventModel::StepFailed {
                    step_id,
                    reason: "subflows not yet supported"@,
                });
                assert(told.contains(told[0]));
                let inserted = writes[0]->InsertStepRun_0;
                assert(outcome_of(next).writes.contains(MutationModel::InsertStepRun(inserted)));
            }
        },
    }
}

proof fn lemma_all_performed(
    record: RunRecordModel,
    event: EventModel,
    now: Timestamp,
    config: JobConfig,
    p: Progress,
    commands: Seq<CommandModel>,
    k: int,
)
    requires
        p.error is None,
        perform_all(record, event, now, config, p, commands).error is None,
        0 <= k < commands.len(),
    ensures
        carried_out(
            record,
            event,
            now,
            config,
            outcome_of(perform_all(record, event, now, config, p, commands)),
            commands[k],
        ),
    decreases commands.len(),
{
    let rest = commands.drop_last();
    let before = perform_all(record, event, now, config, p, rest);
    lemma_performed(record, event, now, config, before, commands.last());
    if k < rest.len() {
        lemma_all_performed(record, event, now, config, p, rest, k);
        assert(rest[k] == commands[k]);
        lemma_kept(
            record,
            event,
            now,
            config,
            outcome_of(before),
            outcome_of(perform_all(record, event, now, config, p, commands)),
            commands[k],
        );
    }
}

/// Every command of a turn without an error is carried out, at whatever place it
/// stands: statuses, outputs, reasons and answers are stored with the latest
/// attempt, steps are started, jobs are cancelled, and the end of the run is
/// stored and told.
pub proof fn every_command_is_carried_out(
    record: RunRecordModel,
    event: EventModel,
    now: Timestamp,
    config: JobConfig,
    opening: Seq<MutationModel>,
    commands: Seq<CommandModel>,
    k: int,
)
    requires
        0 <= k < commands.len(),
        planned(record, event, now, config, opening, commands).error is None,
    ensures
        ({
            let plan = planned(record, event, now, config, opening, commands);
            carried_out(
                record,
                event,
                now,
                config,
                Outcome {
                    writes: written(plan.actions),
                    actions: plan.actions,
                    follow_ons: plan.follow_ons,
                },
                commands[k],
            )
        }),
{
    let p = Progress {
        actions: Seq::empty(),
        writes: opening,
        follow_ons: Seq::empty(),
        error: None,
    };
    let done = perform_all(record, event, now, config, p, commands);
    let plan = planned(record, event, now, config, opening, commands);
    lemma_all_performed(record, event, now, config, p, commands, k);
    lemma_finished(done);
    lemma_sum_has(done.actions, apply_action(done.writes));
    lemma_kept(
        record,
        event,
        now,
        config,
        outcome_of(done),
        Outcome {
            writes: written(plan.actions),
            actions: plan.actions,
            follow_ons: plan.follow_ons,
        },
        commands[k],
    );
}

/// A turn carries out the commands up to the first hooks and leaves the hooks
/// and what comes behind them for later. Without hooks it carries all of them
/// out.
pub proof fn turn_stops_at_the_hooks(
    record: RunRecordModel,
    event: EventModel,
    now: Timestamp,
    config: JobConfig,
    commands: Seq<CommandModel>,
)
    requires
        !ended(record.phase),
        decided(record.definition, state_of(record), event) == Decision::Ok(commands),
        event_turn(record, event, now, config).0.error is None,
    ensures
        ({
            let (plan, hooks) = event_turn(record, event, now, config);
            match hooks {
                Some(c) => exists|head: Seq<CommandModel>|
                    commands == head + seq![
                        CommandModel::RunHooks { phase: c.phase, hooks: c.hooks },
                    ] + c.tail && #[trigger] planned(
                        record,
                        event,
                        now,
                        config,
                        opening_writes(event, now),
                        head,
                    ).actions == plan.actions,
                None => plan == planned(
                    record,
                    event,
                    now,
                    config,
                    opening_writes(event, now),
                    commands,
                ) && forall|k: int|
                    0 <= k < commands.len() ==> !((#[trigger] commands[k]) is RunHooks),
            }
        }),
{
    split_commands_are_whole(commands);
    let head = before_hooks(commands);
    let (plan, hooks) = event_turn(record, event, now, config);
    assert(planned(record, event, now, config, opening_writes(event, now), head).actions
        == plan.actions);
}

/// A job that succeeded is reported as the step's completion, with its output;
/// any other end as the step's failure, with what went wrong, and what the job
/// said is kept.
pub proof fn job_ends_as_its_step(
    step_id: Seq<char>,
    attempt: u32,
    output: Json,
    e: DevkitdErrorModel,
)
    ensures
        job_outcome(step_id, attempt, JobReportModel::Succeeded(output)).1 == (
        EventModel::StepCompleted { step_id, output }),
        job_outcome(step_id, attempt, JobReportModel::Failed(e)).1 == (EventModel::StepFailed {
            step_id,
            reason: devkitd_error_text(e),
        }),
        job_outcome(step_id, attempt, JobReportModel::StartFailed(e)).1 matches
            EventModel::StepFailed { step_id: id, reason } && id == step_id && reason.skip(
            reason.len() - devkitd_error_text(e).len(),
        ) == devkitd_error_text(e),
        job_outcome(step_id, attempt, JobReportModel::HandleLost).1 matches
            EventModel::StepFailed { step_id: id, reason } && id == step_id,
        job_outcome(step_id, attempt, JobReportModel::Failed(e)).0.contains(
            MutationModel::SetStepFailureDetail { step_id, attempt, detail: failure_of(e) },
        ),
        job_outcome(step_id, attempt, JobReportModel::StartFailed(e)).0.contains(
            MutationModel::SetStepFailureDetail { step_id, attempt, detail: failure_of(e) },
        ),
{
    let write = MutationModel::SetStepFailureDetail { step_id, attempt, detail: failure_of(e) };
    let writes = job_outcome(step_id, attempt, JobReportModel::Failed(e)).0;
    assert(writes[0] == write);
    let reason = "start failed: "@ + devkitd_error_text(e);
    assert(reason.skip(reason.len() - devkitd_error_text(e).len()) =~= devkitd_error_text(e));
}

/// A job has to be cancelled its timeout and the margin after now; a run has to
/// have ended its timeout after it was created. Without a timeout there is no
/// deadline.
pub proof fn deadlines_come_after_the_timeout(
    now: Timestamp,
    seconds: u64,
    margin: u64,
    record: RunRecordModel,
    text: Seq<char>,
)
    requires
        now + (seconds + margin) * 1_000_000_000 <= i128::MAX,
        now >= 0,
    ensures
        deadline_after(now, Some(seconds), margin) matches Some(d) && d - now == (seconds + margin)
            * 1_000_000_000,
        deadline_after(now, None, margin) is None,
        record.definition.timeout is None ==> deadline_of(record) is None,
        record.definition.timeout == Some(text) ==> (match (
            deadline_of(record),
            duration_of(text),
        ) {
            (Some(d), Some(n)) => d - record.created_at == n * 1_000_000_000,
            (None, None) => true,
            _ => false,
        }),
{
}

/// A hook that fails before the run ends the run, unless it says otherwise; one
/// that fails at a step fails the step; one that fails after the run is for the
/// record only.
pub proof fn failed_hooks_count_by_their_phase(
    step_id: Seq<char>,
    reason: Seq<char>,
    now: Timestamp,
    always_continue: bool,
    phase: HookPhaseModel,
)
    ensures
        aborts(HookPhaseModel::BeforeRun, always_continue) == !always_continue,
        aborts(HookPhaseModel::BeforeStep { step_id }, always_continue),
        aborts(HookPhaseModel::AfterStep { step_id }, always_continue),
        !aborts(HookPhaseModel::AfterRun, always_continue),
        verdict(HookPhaseModel::BeforeRun, Some(reason), now) matches VerdictModel::FailRun(writes)
            && writes.contains(MutationModel::SetRunPhase(RunPhase::Failed)) && tells_the_end(
            writes.last(),
            RunPhase::Failed,
            now,
        ),
        verdict(HookPhaseModel::BeforeStep { step_id }, Some(reason), now) == VerdictModel::FailStep(
            EventModel::StepFailed { step_id, reason },
        ),
        verdict(HookPhaseModel::AfterStep { step_id }, Some(reason), now) == VerdictModel::FailStep(
            EventModel::StepFailed { step_id, reason },
        ),
        verdict(HookPhaseModel::AfterRun, Some(reason), now) is Continue,
        verdict(phase, None, now) is Continue,
{
    let writes = end_writes(RunPhase::Failed, now);
    assert(writes[0] == MutationModel::SetRunPhase(RunPhase::Failed));
}

/// What is stored of a hook says which hook it was, when it ran, for which step,
/// with what and as which job, and whether and why it failed.
pub proof fn hook_is_recorded_as_it_ran(
    hook: HookModel,
    phase: HookPhaseModel,
    started_at: Timestamp,
    completed_at: Timestamp,
    args: Option<Json>,
    job_id: Option<Seq<char>>,
    failure: Option<DevkitdErrorModel>,
)
    ensures
        ({
            let run = hook_run(hook, phase, started_at, completed_at, args, job_id, failure);
            &&& run.hook == hook.hook
            &&& run.started_at == started_at
            &&& run.completed_at == Some(completed_at)
            &&& run.args_resolved == args
            &&& run.job_id == job_id
            &&& run.status == HookStatus::Failed <==> failure is Some
            &&& run.status == HookStatus::Completed <==> failure is None
            &&& run.failure_reason is Some <==> failure is Some
            &&& failure matches Some(e) ==> run.failure_reason == Some(devkitd_error_text(e))
                && run.failure_detail == Some(failure_of(e))
            &&& run.step_id == (match phase {
                HookPhaseModel::BeforeStep { step_id } => Some(step_id),
                HookPhaseModel::AfterStep { step_id } => Some(step_id),
                _ => None,
            })
            &&& run.phase == StoredHookPhase::BeforeRun <==> phase is BeforeRun
            &&& run.phase == StoredHookPhase::AfterRun <==> phase is AfterRun
            &&& run.phase == StoredHookPhase::BeforeStep <==> phase is BeforeStep
            &&& run.phase == StoredHookPhase::AfterStep <==> phase is AfterStep
        }),
{
}

/// What the engine cannot decide is an error of the turn, and nothing is done.
pub proof fn undecided_event_changes_nothing(
    record: RunRecordModel,
    event: EventModel,
    now: Timestamp,
    config: JobConfig,
    e: EngineErrorModel,
)
    requires
        !ended(record.phase),
        decided(record.definition, state_of(record), event) == Decision::Err(e),
    ensures
        ({
            let (plan, hooks) = event_turn(record, event, now, config);
            &&& plan.actions.len() == 0
            &&& plan.follow_ons.len() == 0
            &&& hooks is None
            &&& plan.error == Some(SchedulerErrorModel::Engine(engine_error_text(e)))
        }),
{
}

/// A turn that fails runs no hooks and submits no event.
pub proof fn failed_turn_goes_no_further(
    record: RunRecordModel,
    event: EventModel,
    now: Timestamp,
    config: JobConfig,
    commands: Seq<CommandModel>,
)
    ensures
        ({
            let (plan, hooks) = event_turn(record, event, now, config);
            plan.error is Some ==> hooks is None && plan.follow_ons.len() == 0
        }),
        ({
            let (plan, hooks) = continued_turn(record, event, now, config, commands);
            plan.error is Some ==> hooks is None && plan.follow_ons.len() == 0
        }),
{
}

/// A command that fails leaves what the commands before it have done: those
/// actions stay, and no others are added.
pub proof fn failed_command_leaves_what_was_done(
    record: RunRecordModel,
    event: EventModel,
    now: Timestamp,
    config: JobConfig,
    opening: Seq<MutationModel>,
    commands: Seq<CommandModel>,
    command: CommandModel,
)
    requires
        planned(record, event, now, config, opening, commands).error is None,
        planned(record, event, now, config, opening, commands.push(command)).error is Some,
    ensures
        ({
            let before = planned(record, event, now, config, opening, commands).actions;
            let after = planned(record, event, now, config, opening, commands.push(command)).actions;
            &&& after.len() <= before.len() <= after.len() + 1
            &&& before.take(after.len() as int) == after
            &&& before.len() > after.len() ==> before.last() is Apply
        }),
{
    let p = Progress {
        actions: Seq::empty(),
        writes: opening,
        follow_ons: Seq::empty(),
        error: None,
    };
    let done = perform_all(record, event, now, config, p, commands);
    assert(commands.push(command).drop_last() =~= commands);
    assert(perform_all(record, event, now, config, p, commands.push(command)) == perform(
        record,
        event,
        now,
        config,
        done,
        command,
    ));
    match command {
        CommandModel::CancelSteps(ids) => {
            lemma_cancel_grows(record, ids, now, done);
        },
        _ => {},
    }
    let before = planned(record, event, now, config, opening, commands).actions;
    assert(before.take(done.actions.len() as int) =~= done.actions);
}

/// A command after one that failed is not carried out.
pub proof fn nothing_follows_a_failed_command(
    record: RunRecordModel,
    event: EventModel,
    now: Timestamp,
    config: JobConfig,
    opening: Seq<MutationModel>,
    commands: Seq<CommandModel>,
    command: CommandModel,
)
    requires
        planned(record, event, now, config, opening, commands).error is Some,
    ensures
        planned(record, event, now, config, opening, commands.push(command)) == planned(
            record,
            event,
            now,
            config,
            opening,
            commands,
        ),
{
    assert(commands.push(command).drop_last() =~= commands);
}

/// After hooks the commands behind them are carried out like any others, up to
/// the next hooks, as long as the run has not ended.
pub proof fn turn_goes_on_after_the_hooks(
    record: RunRecordModel,
    event: EventModel,
    now: Timestamp,
    config: JobConfig,
    commands: Seq<CommandModel>,
)
    requires
        !ended(record.phase),
        continued_turn(record, event, now, config, commands).0.error is None,
    ensures
        ({
            let (plan, hooks) = continued_turn(record, event, now, config, commands);
            match hooks {
                Some(c) => exists|head: Seq<CommandModel>|
                    commands == head + seq![
                        CommandModel::RunHooks { phase: c.phase, hooks: c.hooks },
                    ] + c.tail && #[trigger] planned(
                        record,
                        event,
                        now,
                        config,
                        Seq::empty(),
                        head,
                    ).actions == plan.actions,
                None => plan == planned(record, event, now, config, Seq::empty(), commands)
                    && forall|k: int|
                    0 <= k < commands.len() ==> !((#[trigger] commands[k]) is RunHooks),
            }
        }),
{
    split_commands_are_whole(commands);
    let head = before_hooks(commands);
    let (plan, hooks) = continued_turn(record, event, now, config, commands);
    assert(planned(record, event, now, config, Seq::empty(), head).actions == plan.actions);
}

/// A scheduler that was not shut down takes every event.
pub proof fn event_is_taken(
    record: RunRecordModel,
    event: EventModel,
    now: Timestamp,
    config: JobConfig,
)
    ensures
        submitted_turn(false, record, event, now, config) == event_turn(record, event, now, config),
{
}

/// What follows from the commands before hooks waits until the hooks have run;
/// where the commands failed, the hooks are not run at all.
pub proof fn follow_ons_wait_for_the_hooks(
    record: RunRecordModel,
    event: EventModel,
    now: Timestamp,
    config: JobConfig,
    opening: Seq<MutationModel>,
    commands: Seq<CommandModel>,
)
    ensures
        ({
            let (plan, rest) = driven(record, event, now, config, opening, commands);
            let whole = planned(record, event, now, config, opening, before_hooks(commands));
            &&& plan.actions == whole.actions
            &&& plan.error == whole.error
            &&& rest is Some ==> plan.follow_ons.len() == 0 && plan.error is None
            &&& rest is None ==> plan.follow_ons == whole.follow_ons
            &&& plan.error is None ==> rest == from_hooks(commands)
        }),
{
}

} // verus!
