//! The decisions of the scheduler: what to store, to start and to cancel in
//! answer to an event. Carrying it out is left to the caller.
use crate::copy::{extend, put, Duplicate};
use crate::flow::schema::{duration_of, parse_duration};
use crate::flow::types::{
    find_step, step_kind, CliModel, CliWith, FlowDefaultsModel, FlowDefinition, FlowModel, HookCall,
    HookModel, Step, StepModel, StepWith, StepWithModel,
};
use crate::json::{entry_value, find_entry, lemma_object_view, set_entry, with_entry, Json, JsonValue};
use crate::maps::{list_values, value_entries};
use crate::ports::{
    devkitd_error_text, latest_of, state_of, store_error_text, DevkitdError, DevkitdErrorModel,
    HookPhase as StoredHookPhase, HookRunModel, HookRunRecord, HookStatus, JobHandle, Mutation,
    MutationModel, RunEventModel, RunEventRecord, RunEventType, RunRecord, RunRecordModel,
    SchedulerConfig, StartRequest, StartRequestModel, StepRecord, StepRecordModel, StoreError,
    StoreErrorModel,
};
use crate::recovery::{RecoveryAction, RecoveryActionModel};
use crate::run::engine::{can_decide, decide, decided};
use crate::run::types::{
    active, engine_error_text, terminal, ActivationModel, ApprovalStatus, Command, CommandModel,
    Event, EventModel, HookPhase, HookPhaseModel, RunPhase, StepActivation, StepRun, StepRunModel,
    StepStatus, Timestamp,
};
use crate::template::{
    build_context, context_of, resolve_value, resolved_value, template_error_text, ContextModel,
    TemplateContext,
};
use crate::text::{cat2, cat3, same_text};
use crate::wire::{failure_of, JobFailure};
use vstd::prelude::*;

verus! {

/// Why an event could not be processed.
#[derive(Debug)]
#[allow(inconsistent_fields)]
pub enum SchedulerError {
    Store(StoreError),
    Engine(String),
}

/// What a [`SchedulerError`] denotes.
#[verifier::ext_equal]
#[allow(inconsistent_fields)]
pub enum SchedulerErrorModel {
    Store(StoreErrorModel),
    Engine(Seq<char>),
}

impl View for SchedulerError {
    type V = SchedulerErrorModel;

    open spec fn view(&self) -> SchedulerErrorModel {
        match self {
            SchedulerError::Store(x) => SchedulerErrorModel::Store(x@),
            SchedulerError::Engine(x) => SchedulerErrorModel::Engine(x@),
        }
    }
}

impl DeepView for SchedulerError {
    type V = SchedulerErrorModel;

    open spec fn deep_view(&self) -> SchedulerErrorModel {
        self@
    }
}

impl Duplicate for SchedulerError {
    fn duplicate(&self) -> (r: Self) {
        match self {
            SchedulerError::Store(x) => SchedulerError::Store(x.duplicate()),
            SchedulerError::Engine(x) => SchedulerError::Engine(x.duplicate()),
        }
    }
}

impl Clone for SchedulerError {
    fn clone(&self) -> (r: Self)
        ensures
            r@ == self@,
    {
        self.duplicate()
    }
}

/// The text that describes a scheduler error.
pub open spec fn scheduler_error_text(e: SchedulerErrorModel) -> Seq<char> {
    match e {
        SchedulerErrorModel::Store(e) => "store error: "@ + store_error_text(e),
        SchedulerErrorModel::Engine(why) => "engine error: "@ + why,
    }
}

impl SchedulerError {
    /// The text that describes this error.
    pub fn message(&self) -> (r: String)
        ensures
            r@ == scheduler_error_text(self@),
    {
        match self {
            SchedulerError::Store(e) => cat2("store error: ", e.message().as_str()),
            SchedulerError::Engine(why) => cat2("engine error: ", why.as_str()),
        }
    }
}

/// What a [`SchedulerConfig`] says of the jobs of steps.
#[verifier::ext_equal]
pub struct JobConfig {
    pub default_step_timeout_secs: u64,
    pub executor_cli_tool: Seq<char>,
}

/// What `config` says of the jobs of steps.
pub open spec fn job_config(config: SchedulerConfig) -> JobConfig {
    JobConfig {
        default_step_timeout_secs: config.default_step_timeout_secs,
        executor_cli_tool: config.executor_cli_tool@,
    }
}

/// Something to carry out, in this order: a batch of writes, the start of a
/// step's job, the cancellation of a job, the end of a wait for a job, the end
/// of liveness reports for a step, the end of the run's deadline.
#[derive(Debug)]
#[allow(inconsistent_fields)]
pub enum Action {
    Apply(Vec<Mutation>),
    StartStep { activation: StepActivation, request: StartRequest },
    CancelJob { step_id: String, job_id: String },
    AbortWait { step_id: String, attempt: u32 },
    ClearLiveness { step_id: String },
    StopDeadline,
}

/// What an [`Action`] denotes.
#[verifier::ext_equal]
#[allow(inconsistent_fields)]
pub enum ActionModel {
    Apply(Seq<MutationModel>),
    StartStep { activation: ActivationModel, request: StartRequestModel },
    CancelJob { step_id: Seq<char>, job_id: Seq<char> },
    AbortWait { step_id: Seq<char>, attempt: u32 },
    ClearLiveness { step_id: Seq<char> },
    StopDeadline,
}

impl View for Action {
    type V = ActionModel;

    open spec fn view(&self) -> ActionModel {
        match self {
            Action::Apply(x) => ActionModel::Apply(x.deep_view()),
            Action::StartStep { activation, request } => ActionModel::StartStep {
                activation: activation@,
                request: request@,
            },
            Action::CancelJob { step_id, job_id } => ActionModel::CancelJob {
                step_id: step_id@,
                job_id: job_id@,
            },
            Action::AbortWait { step_id, attempt } => ActionModel::AbortWait {
                step_id: step_id@,
                attempt: *attempt,
            },
            Action::ClearLiveness { step_id } => ActionModel::ClearLiveness {
                step_id: step_id@,
            },
            Action::StopDeadline => ActionModel::StopDeadline,
        }
    }
}

impl DeepView for Action {
    type V = ActionModel;

    open spec fn deep_view(&self) -> ActionModel {
        self@
    }
}

impl Duplicate for Action {
    fn duplicate(&self) -> (r: Self) {
        match self {
            Action::Apply(x) => Action::Apply(x.duplicate()),
            Action::StartStep { activation, request } => Action::StartStep {
                activation: activation.duplicate(),
                request: request.duplicate(),
            },
            Action::CancelJob { step_id, job_id } => Action::CancelJob {
                step_id: step_id.duplicate(),
                job_id: job_id.duplicate(),
            },
            Action::AbortWait { step_id, attempt } => Action::AbortWait {
                step_id: step_id.duplicate(),
                attempt: *attempt,
            },
            Action::ClearLiveness { step_id } => Action::ClearLiveness {
                step_id: step_id.duplicate(),
            },
            Action::StopDeadline => Action::StopDeadline,
        }
    }
}

impl Clone for Action {
    fn clone(&self) -> (r: Self)
        ensures
            r@ == self@,
    {
        self.duplicate()
    }
}

/// What to carry out in answer to an event. The actions come one after the
/// other, and a batch of writes that fails stops them. After that come the
/// follow-on events, or the error is reported.
#[derive(Debug)]
pub struct Plan {
    pub actions: Vec<Action>,
    pub follow_ons: Vec<Event>,
    pub error: Option<SchedulerError>,
}

/// What a [`Plan`] denotes.
#[verifier::ext_equal]
pub struct PlanModel {
    pub actions: Seq<ActionModel>,
    pub follow_ons: Seq<EventModel>,
    pub error: Option<SchedulerErrorModel>,
}

impl View for Plan {
    type V = PlanModel;

    open spec fn view(&self) -> PlanModel {
        PlanModel {
            actions: self.actions.deep_view(),
            follow_ons: self.follow_ons.deep_view(),
            error: self.error.deep_view(),
        }
    }
}

/// The hooks that a list of commands comes to, and the commands after them.
#[derive(Debug)]
pub struct HooksContinuation {
    pub phase: HookPhase,
    pub hooks: Vec<HookCall>,
    pub tail: Vec<Command>,
}

/// What a [`HooksContinuation`] denotes.
#[verifier::ext_equal]
pub struct ContinuationModel {
    pub phase: HookPhaseModel,
    pub hooks: Seq<HookModel>,
    pub tail: Seq<CommandModel>,
}

impl View for HooksContinuation {
    type V = ContinuationModel;

    open spec fn view(&self) -> ContinuationModel {
        ContinuationModel {
            phase: self.phase@,
            hooks: self.hooks.deep_view(),
            tail: self.tail.deep_view(),
        }
    }
}

impl DeepView for HooksContinuation {
    type V = ContinuationModel;

    open spec fn deep_view(&self) -> ContinuationModel {
        self@
    }
}

/// Whether a run in this phase has ended.
pub open spec fn ended(phase: RunPhase) -> bool {
    phase != RunPhase::Running
}

/// Whether a run in this phase has ended.
pub fn is_terminal(phase: RunPhase) -> (r: bool)
    ensures
        r == ended(phase),
{
    match phase {
        RunPhase::Running => false,
        _ => true,
    }
}

/// The commands before the first hooks.
pub open spec fn before_hooks(commands: Seq<CommandModel>) -> Seq<CommandModel>
    decreases commands.len(),
{
    if commands.len() == 0 || commands[0] is RunHooks {
        Seq::empty()
    } else {
        seq![commands[0]] + before_hooks(commands.drop_first())
    }
}

/// The first hooks and the commands after them; none where there are no hooks.
pub open spec fn from_hooks(commands: Seq<CommandModel>) -> Option<ContinuationModel>
    decreases commands.len(),
{
    if commands.len() == 0 {
        None
    } else {
        match commands[0] {
            CommandModel::RunHooks { phase, hooks } => Some(
                ContinuationModel { phase, hooks, tail: commands.drop_first() },
            ),
            _ => from_hooks(commands.drop_first()),
        }
    }
}

/// Splits a list of commands at its first hooks.
pub fn split_at_hooks(commands: Vec<Command>) -> (r: (Vec<Command>, Option<HooksContinuation>))
    ensures
        r.0.deep_view() == before_hooks(commands.deep_view()),
        r.1.deep_view() == from_hooks(commands.deep_view()),
{
    let ghost all = commands.deep_view();
    let mut head: Vec<Command> = Vec::new();
    let mut i: usize = 0;
    proof {
        assert(all.skip(0) =~= all);
        assert(head.deep_view() + before_hooks(all) =~= before_hooks(all));
    }
    while i < commands.len()
        invariant
            i <= commands@.len(),
            all == commands.deep_view(),
            head.deep_view() + before_hooks(all.skip(i as int)) == before_hooks(all),
            from_hooks(all.skip(i as int)) == from_hooks(all),
        decreases commands@.len() - i,
    {
        proof {
            assert(all.skip(i as int).drop_first() =~= all.skip(i + 1));
            assert(all.skip(i as int)[0] == commands@[i as int]@);
        }
        match &commands[i] {
            Command::RunHooks { phase, hooks } => {
                let mut tail: Vec<Command> = Vec::new();
                let mut j: usize = i + 1;
                while j < commands.len()
                    invariant
                        i + 1 <= j <= commands@.len(),
                        all == commands.deep_view(),
                        tail.deep_view() == all.subrange(i + 1, j as int),
                    decreases commands@.len() - j,
                {
                    proof {
                        assert(all.subrange(i + 1, j + 1) =~= all.subrange(i + 1, j as int).push(
                            commands@[j as int]@,
                        ));
                    }
                    put(&mut tail, commands[j].duplicate());
                    j = j + 1;
                }
                proof {
                    assert(tail.deep_view() =~= all.skip(i + 1));
                    assert(head.deep_view() + Seq::<CommandModel>::empty() =~= head.deep_view());
                }
                return (
                    head,
                    Some(
                        HooksContinuation {
                            phase: phase.duplicate(),
                            hooks: hooks.duplicate(),
                            tail,
                        },
                    ),
                );
            },
            other => {
                let ghost before = head.deep_view();
                put(&mut head, other.duplicate());
                proof {
                    assert(before + (seq![all[i as int]] + before_hooks(all.skip(i + 1)))
                        =~= head.deep_view() + before_hooks(all.skip(i + 1)));
                }
            },
        }
        i = i + 1;
    }
    proof {
        assert(head.deep_view() + Seq::<CommandModel>::empty() =~= head.deep_view());
    }
    (head, None)
}

/// Splitting loses nothing: the head, the hooks and the tail are the commands.
pub proof fn split_commands_are_whole(commands: Seq<CommandModel>)
    ensures
        match from_hooks(commands) {
            Some(c) => before_hooks(commands) + seq![
                CommandModel::RunHooks { phase: c.phase, hooks: c.hooks },
            ] + c.tail == commands,
            None => before_hooks(commands) == commands,
        },
        forall|i: int|
            0 <= i < before_hooks(commands).len() ==> !((#[trigger] before_hooks(
                commands,
            )[i]) is RunHooks),
    decreases commands.len(),
{
    if commands.len() > 0 && !(commands[0] is RunHooks) {
        let rest = commands.drop_first();
        split_commands_are_whole(rest);
        assert(seq![commands[0]] + rest =~= commands);
        match from_hooks(rest) {
            Some(c) => {
                assert(seq![commands[0]] + before_hooks(rest) + seq![
                    CommandModel::RunHooks { phase: c.phase, hooks: c.hooks },
                ] + c.tail =~= seq![commands[0]] + (before_hooks(rest) + seq![
                    CommandModel::RunHooks { phase: c.phase, hooks: c.hooks },
                ] + c.tail));
            },
            None => {},
        }
        assert forall|i: int| 0 <= i < before_hooks(commands).len() implies !((
        #[trigger] before_hooks(commands)[i]) is RunHooks) by {
            if i > 0 {
                assert(before_hooks(commands)[i] == before_hooks(rest)[i - 1]);
            }
        }
    } else if commands.len() > 0 {
        match commands[0] {
            CommandModel::RunHooks { phase, hooks } => {
                assert(Seq::<CommandModel>::empty() + seq![commands[0]] + commands.drop_first()
                    =~= commands);
            },
            _ => {},
        }
    } else {
        assert(before_hooks(commands) =~= commands);
    }
}

/// The stored phase of a hook.
pub open spec fn stored_phase(phase: HookPhaseModel) -> StoredHookPhase {
    match phase {
        HookPhaseModel::BeforeRun => StoredHookPhase::BeforeRun,
        HookPhaseModel::AfterRun => StoredHookPhase::AfterRun,
        HookPhaseModel::BeforeStep { .. } => StoredHookPhase::BeforeStep,
        HookPhaseModel::AfterStep { .. } => StoredHookPhase::AfterStep,
    }
}

/// The stored phase of a hook.
pub fn map_hook_phase(phase: &HookPhase) -> (r: StoredHookPhase)
    ensures
        r == stored_phase(phase@),
{
    match phase {
        HookPhase::BeforeRun => StoredHookPhase::BeforeRun,
        HookPhase::AfterRun => StoredHookPhase::AfterRun,
        HookPhase::BeforeStep { .. } => StoredHookPhase::BeforeStep,
        HookPhase::AfterStep { .. } => StoredHookPhase::AfterStep,
    }
}

/// The key of the hooks of one phase of a run.
pub open spec fn phase_key(phase: HookPhaseModel) -> Seq<char> {
    match phase {
        HookPhaseModel::BeforeRun => "before_run"@,
        HookPhaseModel::AfterRun => "after_run"@,
        HookPhaseModel::BeforeStep { step_id } => "before_step:"@ + step_id,
        HookPhaseModel::AfterStep { step_id } => "after_step:"@ + step_id,
    }
}

/// The key of the hooks of one phase of a run.
pub fn hook_phase_key(phase: &HookPhase) -> (r: String)
    ensures
        r@ == phase_key(phase@),
{
    match phase {
        HookPhase::BeforeRun => "before_run".to_owned(),
        HookPhase::AfterRun => "after_run".to_owned(),
        HookPhase::BeforeStep { step_id } => cat2("before_step:", step_id.as_str()),
        HookPhase::AfterStep { step_id } => cat2("after_step:", step_id.as_str()),
    }
}

/// The step that a hook belongs to.
pub open spec fn phase_step(phase: HookPhaseModel) -> Option<Seq<char>> {
    match phase {
        HookPhaseModel::BeforeStep { step_id } => Some(step_id),
        HookPhaseModel::AfterStep { step_id } => Some(step_id),
        _ => None,
    }
}

/// The step that a hook belongs to.
pub fn hook_step(phase: &HookPhase) -> (r: Option<String>)
    ensures
        r.deep_view() == phase_step(phase@),
{
    match phase {
        HookPhase::BeforeStep { step_id } => Some(step_id.clone()),
        HookPhase::AfterStep { step_id } => Some(step_id.clone()),
        _ => None,
    }
}

/// Entries with a text set, where there is one.
pub open spec fn with_optional(
    entries: Seq<(Seq<char>, Json)>,
    key: Seq<char>,
    value: Option<Seq<char>>,
) -> Seq<(Seq<char>, Json)> {
    match value {
        Some(t) => with_entry(entries, key, Json::Text(t)),
        None => entries,
    }
}

/// Entries with a default set, where there is one and the key is not there.
pub open spec fn with_default(
    entries: Seq<(Seq<char>, Json)>,
    key: Seq<char>,
    value: Option<Seq<char>>,
) -> Seq<(Seq<char>, Json)> {
    if entry_value(entries, key) is Some {
        entries
    } else {
        with_optional(entries, key, value)
    }
}

/// Entries with each of `more` set in turn.
pub open spec fn with_entries(
    entries: Seq<(Seq<char>, Json)>,
    more: Seq<(Seq<char>, Json)>,
) -> Seq<(Seq<char>, Json)>
    decreases more.len(),
{
    if more.len() == 0 {
        entries
    } else {
        with_entry(with_entries(entries, more.drop_last()), more.last().0, more.last().1)
    }
}

/// The arguments of a cli step before its templates are resolved, but for the
/// input: the entries of its `with` block, and the flow's defaults for what the
/// block leaves out.
pub open spec fn cli_arguments(with: CliModel, defaults: FlowDefaultsModel) -> Seq<
    (Seq<char>, Json),
> {
    let cli = with_entry(Seq::empty(), "cli"@, Json::Text(with.cli));
    let role = with_optional(cli, "role"@, with.role);
    let output = with_optional(role, "output"@, with.output);
    let extra = with_entries(output, with.extra);
    with_default(
        with_default(with_default(extra, "cli"@, defaults.cli), "provider"@, defaults.provider),
        "model"@,
        defaults.model,
    )
}

/// Resolved arguments with the input of the step as it is: what the input
/// holds is not resolved once more.
pub open spec fn with_input(args: Json, input: Seq<char>) -> Json {
    match args {
        Json::Object(entries) => Json::Object(with_entry(entries, "input"@, Json::Text(input))),
        other => other,
    }
}

/// The timeout of a step in seconds: the declared one or the default.
pub open spec fn step_timeout(step: StepModel, default: u64) -> u64 {
    match step.timeout {
        Some(t) => match duration_of(t) {
            Some(n) => n as u64,
            None => default,
        },
        None => default,
    }
}

/// The resolved arguments, the tool and the timeout of a step's job, or why
/// the step cannot be executed.
pub open spec fn step_request(
    step: StepModel,
    ctx: ContextModel,
    flow: FlowModel,
    input: Seq<char>,
    config: JobConfig,
) -> Result<(Json, Seq<char>, Option<u64>), SchedulerErrorModel> {
    match step_kind(step) {
        Some(StepWithModel::Cli(with)) => match resolved_value(
            Json::Object(cli_arguments(with, flow.defaults)),
            ctx,
            step.id,
        ) {
            Ok(v) => Ok(
                (
                    with_input(v, input),
                    config.executor_cli_tool,
                    Some(step_timeout(step, config.default_step_timeout_secs)),
                ),
            ),
            Err(e) => Err(SchedulerErrorModel::Engine(template_error_text(e))),
        },
        _ => Err(SchedulerErrorModel::Engine("step "@ + step.id + " is not executable"@)),
    }
}

fn set_text(entries: &mut Vec<(String, JsonValue)>, key: &str, text: &str)
    ensures
        final(entries).deep_view() == with_entry(
            old(entries).deep_view(),
            key@,
            Json::Text(text@),
        ),
{
    set_entry(entries, key.to_owned(), JsonValue::Text(text.to_owned()));
}

fn set_optional(entries: &mut Vec<(String, JsonValue)>, key: &str, text: &Option<String>)
    ensures
        final(entries).deep_view() == with_optional(
            old(entries).deep_view(),
            key@,
            text.deep_view(),
        ),
{
    match text {
        Some(t) => {
            set_text(entries, key, t.as_str());
        },
        None => {},
    }
}

fn set_default(entries: &mut Vec<(String, JsonValue)>, key: &str, text: &Option<String>)
    ensures
        final(entries).deep_view() == with_default(
            old(entries).deep_view(),
            key@,
            text.deep_view(),
        ),
{
    if find_entry(entries, key).is_none() {
        set_optional(entries, key, text);
    }
}

fn set_all(entries: &mut Vec<(String, JsonValue)>, more: &indexmap::IndexMap<String, JsonValue>)
    ensures
        final(entries).deep_view() == with_entries(old(entries).deep_view(), value_entries(*more)),
{
    let list = list_values(more);
    let ghost start = entries.deep_view();
    let ghost all = list.deep_view();
    let mut i: usize = 0;
    while i < list.len()
        invariant
            i <= list@.len(),
            all == list.deep_view(),
            entries.deep_view() == with_entries(start, all.take(i as int)),
        decreases list@.len() - i,
    {
        proof {
            assert(all.take(i + 1).drop_last() =~= all.take(i as int));
            assert(all[i as int] == (list@[i as int].0@, list@[i as int].1@));
        }
        set_entry(entries, list[i].0.clone(), list[i].1.duplicate());
        i = i + 1;
    }
    proof {
        assert(all.take(i as int) =~= all);
    }
}

fn collect_arguments(with: &CliWith, flow: &FlowDefinition) -> (r: Vec<(String, JsonValue)>)
    ensures
        r.deep_view() == cli_arguments(with@, flow@.defaults),
{
    let mut out: Vec<(String, JsonValue)> = Vec::new();
    proof {
        assert(out.deep_view() =~= Seq::<(Seq<char>, Json)>::empty());
    }
    set_text(&mut out, "cli", with.cli.as_str());
    set_optional(&mut out, "role", &with.role);
    set_optional(&mut out, "output", &with.output);
    set_all(&mut out, &with.extra);
    set_default(&mut out, "cli", &flow.defaults.cli);
    set_default(&mut out, "provider", &flow.defaults.provider);
    set_default(&mut out, "model", &flow.defaults.model);
    out
}

fn put_input(args: JsonValue, input: &str) -> (r: JsonValue)
    ensures
        r@ == with_input(args@, input@),
{
    match args {
        JsonValue::Object(entries) => {
            let mut out = entries;
            proof {
                lemma_object_view(out);
            }
            set_text(&mut out, "input", input);
            proof {
                lemma_object_view(out);
            }
            JsonValue::Object(out)
        },
        other => other,
    }
}

/// What a result of building a request denotes.
pub open spec fn request_outcome(
    r: Result<(JsonValue, String, Option<u64>), SchedulerError>,
) -> Result<(Json, Seq<char>, Option<u64>), SchedulerErrorModel> {
    match r {
        Ok((args, tool, timeout)) => Ok((args@, tool@, timeout)),
        Err(e) => Err(e@),
    }
}

/// Builds the arguments of a step's job, and picks its tool and its timeout. The
/// input is handed on as it is.
pub fn build_step_request(
    step: &Step,
    ctx: &TemplateContext,
    flow: &FlowDefinition,
    input: &str,
    config: &SchedulerConfig,
) -> (r: Result<(JsonValue, String, Option<u64>), SchedulerError>)
    ensures
        request_outcome(r) == step_request(step@, ctx@, flow@, input@, job_config(*config)),
{
    match step.kind() {
        Some(StepWith::Cli { with }) => {
            let entries = collect_arguments(&with, flow);
            proof {
                lemma_object_view(entries);
            }
            let args = JsonValue::Object(entries);
            let done = match resolve_value(&args, ctx, step.id.as_str()) {
                Ok(v) => v,
                Err(e) => {
                    return Err(SchedulerError::Engine(e.message()));
                },
            };
            let timeout: u64 = match &step.timeout {
                Some(t) => match parse_duration(t.as_str()) {
                    Some(n) => n,
                    None => config.default_step_timeout_secs,
                },
                None => config.default_step_timeout_secs,
            };
            Ok((put_input(done, input), config.executor_cli_tool.clone(), Some(timeout)))
        },
        _ => Err(
            SchedulerError::Engine(cat3("step ", step.id.as_str(), " is not executable")),
        ),
    }
}

/// The record of a step that starts.
pub open spec fn started_record(
    step_id: Seq<char>,
    attempt: u32,
    now: Timestamp,
    input: Option<Seq<char>>,
    with_resolved: Option<Json>,
) -> StepRecordModel {
    StepRecordModel {
        run: StepRunModel {
            step_id,
            status: StepStatus::Running,
            attempt,
            started_at: Some(now),
            completed_at: None,
            input_resolved: input,
            output: None,
            approval_status: None,
            feedback: None,
            approval_comment: None,
            failure_reason: None,
            child_run_id: None,
        },
        job_id: None,
        with_resolved,
        failure_detail: None,
    }
}

fn start_record(
    step_id: &str,
    attempt: u32,
    now: Timestamp,
    input: Option<String>,
    with_resolved: Option<JsonValue>,
) -> (r: StepRecord)
    ensures
        r@ == started_record(step_id@, attempt, now, input.deep_view(), with_resolved.deep_view()),
{
    StepRecord {
        run: StepRun {
            step_id: step_id.to_owned(),
            status: StepStatus::Running,
            attempt,
            started_at: Some(now),
            completed_at: None,
            input_resolved: input,
            output: None,
            approval_status: None,
            feedback: None,
            approval_comment: None,
            failure_reason: None,
            child_run_id: None,
        },
        job_id: None,
        with_resolved,
        failure_detail: None,
    }
}

/// The arguments of a step's job with the names of the step and of the flow.
pub open spec fn named_arguments(args: Json, step_id: Seq<char>, flow: Seq<char>) -> Json {
    match args {
        Json::Object(entries) => Json::Object(
            with_entry(
                with_entry(entries, "step"@, Json::Text(step_id)),
                "flow"@,
                Json::Text(flow),
            ),
        ),
        other => other,
    }
}

fn name_arguments(args: JsonValue, step_id: &str, flow: &str) -> (r: JsonValue)
    ensures
        r@ == named_arguments(args@, step_id@, flow@),
{
    match args {
        JsonValue::Object(entries) => {
            let mut out = entries;
            proof {
                lemma_object_view(out);
            }
            set_text(&mut out, "step", step_id);
            set_text(&mut out, "flow", flow);
            proof {
                lemma_object_view(out);
            }
            JsonValue::Object(out)
        },
        other => other,
    }
}

/// The start of a step: the record to insert and the job to start, or why it
/// cannot start.
pub open spec fn step_start(
    record: RunRecordModel,
    activation: ActivationModel,
    now: Timestamp,
    config: JobConfig,
) -> Result<(StepRecordModel, StartRequestModel), SchedulerErrorModel> {
    let flow = record.definition;
    match find_step(flow.steps, activation.step_id) {
        None => Err(SchedulerErrorModel::Engine("unknown step "@ + activation.step_id)),
        Some(step) => match step_request(
            step,
            context_of(flow.steps, state_of(record), Json::Null),
            flow,
            activation.input,
            config,
        ) {
            Err(e) => Err(e),
            Ok((args, tool, timeout_seconds)) => Ok(
                (
                    started_record(
                        activation.step_id,
                        activation.attempt,
                        now,
                        Some(activation.input),
                        Some(args),
                    ),
                    StartRequestModel {
                        tool,
                        args: named_arguments(args, activation.step_id, flow.name),
                        timeout_seconds,
                    },
                ),
            ),
        },
    }
}

/// The starts of several steps: the writes that insert their records and the
/// actions that start their jobs. The first failure counts.
pub open spec fn step_starts(
    record: RunRecordModel,
    list: Seq<ActivationModel>,
    now: Timestamp,
    config: JobConfig,
) -> Result<(Seq<MutationModel>, Seq<ActionModel>), SchedulerErrorModel>
    decreases list.len(),
{
    if list.len() == 0 {
        Ok((Seq::empty(), Seq::empty()))
    } else {
        match step_starts(record, list.drop_last(), now, config) {
            Err(e) => Err(e),
            Ok((writes, starts)) => match step_start(record, list.last(), now, config) {
                Err(e) => Err(e),
                Ok((inserted, request)) => Ok(
                    (
                        writes.push(MutationModel::InsertStepRun(inserted)),
                        starts.push(ActionModel::StartStep { activation: list.last(), request }),
                    ),
                ),
            },
        }
    }
}

proof fn lemma_step_starts_fail(
    record: RunRecordModel,
    list: Seq<ActivationModel>,
    now: Timestamp,
    config: JobConfig,
    i: int,
)
    requires
        0 <= i <= list.len(),
        step_starts(record, list.take(i), now, config) is Err,
    ensures
        step_starts(record, list, now, config) == step_starts(record, list.take(i), now, config),
    decreases list.len() - i,
{
    if i < list.len() {
        assert(list.take(i + 1).drop_last() =~= list.take(i));
        lemma_step_starts_fail(record, list, now, config, i + 1);
    } else {
        assert(list.take(i) =~= list);
    }
}

fn start_step(
    record: &RunRecord,
    activation: &StepActivation,
    now: Timestamp,
    config: &SchedulerConfig,
) -> (r: Result<(StepRecord, StartRequest), SchedulerError>)
    ensures
        (match r {
            Ok((inserted, request)) => Ok((inserted@, request@)),
            Err(e) => Err(e@),
        }) == step_start(record@, activation@, now, job_config(*config)),
{
    let flow = &record.definition;
    let step = match flow.step(activation.step_id.as_str()) {
        Some(s) => s,
        None => {
            return Err(
                SchedulerError::Engine(cat2("unknown step ", activation.step_id.as_str())),
            );
        },
    };
    let state = record.run_state();
    let ctx = build_context(flow, &state, JsonValue::Null);
    match build_step_request(step, &ctx, flow, activation.input.as_str(), config) {
        Err(e) => Err(e),
        Ok((args, tool, timeout_seconds)) => {
            let shown = args.duplicate();
            let named = name_arguments(args, activation.step_id.as_str(), flow.name.as_str());
            Ok(
                (
                    start_record(
                        activation.step_id.as_str(),
                        activation.attempt,
                        now,
                        Some(activation.input.clone()),
                        Some(shown),
                    ),
                    StartRequest { tool, args: named, timeout_seconds },
                ),
            )
        },
    }
}

fn start_steps(
    record: &RunRecord,
    list: &Vec<StepActivation>,
    now: Timestamp,
    config: &SchedulerConfig,
) -> (r: Result<(Vec<Mutation>, Vec<Action>), SchedulerError>)
    ensures
        (match r {
            Ok((writes, starts)) => Ok((writes.deep_view(), starts.deep_view())),
            Err(e) => Err(e@),
        }) == step_starts(record@, list.deep_view(), now, job_config(*config)),
{
    let ghost all = list.deep_view();
    let mut writes: Vec<Mutation> = Vec::new();
    let mut starts: Vec<Action> = Vec::new();
    let mut i: usize = 0;
    proof {
        assert(all.take(0) =~= Seq::<ActivationModel>::empty());
        assert(writes.deep_view() =~= Seq::<MutationModel>::empty());
        assert(starts.deep_view() =~= Seq::<ActionModel>::empty());
    }
    while i < list.len()
        invariant
            i <= list@.len(),
            all == list.deep_view(),
                step_starts(record@, all.take(i as int), now, job_config(*config)) == Ok::<
                (Seq<MutationModel>, Seq<ActionModel>),
                SchedulerErrorModel,
            >((writes.deep_view(), starts.deep_view())),
        decreases list@.len() - i,
    {
        proof {
            assert(all.take(i + 1).drop_last() =~= all.take(i as int));
            assert(all[i as int] == list@[i as int]@);
        }
        match start_step(record, &list[i], now, config) {
            Ok((inserted, request)) => {
                put(&mut writes, Mutation::InsertStepRun(inserted));
                put(&mut starts, Action::StartStep { activation: list[i].duplicate(), request });
            },
            Err(e) => {
                proof {
                    lemma_step_starts_fail(record@, all, now, job_config(*config), i + 1);
                }
                return Err(e);
            },
        }
        i = i + 1;
    }
    proof {
        assert(all.take(i as int) =~= all);
    }
    Ok((writes, starts))
}

/// How far the commands of a turn have been planned: the actions so far, the
/// writes that are still to be stored, the follow-on events, and the error
/// that ended the planning.
#[verifier::ext_equal]
pub struct Progress {
    pub actions: Seq<ActionModel>,
    pub writes: Seq<MutationModel>,
    pub follow_ons: Seq<EventModel>,
    pub error: Option<SchedulerErrorModel>,
}

/// The action that stores `writes`; none where there are none.
pub open spec fn apply_action(writes: Seq<MutationModel>) -> Seq<ActionModel> {
    if writes.len() == 0 {
        Seq::empty()
    } else {
        seq![ActionModel::Apply(writes)]
    }
}

/// What an event adds to the step that it is about.
pub open spec fn event_data(event: EventModel, step_id: Seq<char>, attempt: u32) -> Seq<
    MutationModel,
> {
    match event {
        EventModel::StepCompleted { step_id: id, output } => if id == step_id {
            seq![MutationModel::SetStepOutput { step_id, attempt, output }]
        } else {
            Seq::empty()
        },
        EventModel::StepFailed { step_id: id, reason } => if id == step_id {
            seq![MutationModel::SetStepFailure { step_id, attempt, reason }]
        } else {
            Seq::empty()
        },
        EventModel::StepApproved { step_id: id, comment } => if id == step_id {
            seq![
                MutationModel::SetApproval {
                    step_id,
                    attempt,
                    approval_status: ApprovalStatus::Approved,
                    comment,
                    feedback: None,
                },
            ]
        } else {
            Seq::empty()
        },
        EventModel::StepRejected { step_id: id, feedback } => if id == step_id {
            seq![
                MutationModel::SetApproval {
                    step_id,
                    attempt,
                    approval_status: ApprovalStatus::Rejected,
                    comment: None,
                    feedback: Some(feedback),
                },
            ]
        } else {
            Seq::empty()
        },
        _ => Seq::empty(),
    }
}

/// Adds what an event says of the step that it is about.
pub fn add_event_data(event: &Event, step_id: &str, attempt: u32, writes: &mut Vec<Mutation>)
    ensures
        final(writes).deep_view() == old(writes).deep_view() + event_data(event@, step_id@, attempt),
{
    let ghost start = writes.deep_view();
    match event {
        Event::StepCompleted { step_id: id, output } => {
            if same_text(id.as_str(), step_id) {
                put(
                    writes,
                    Mutation::SetStepOutput {
                        step_id: step_id.to_owned(),
                        attempt,
                        output: output.duplicate(),
                    },
                );
            }
        },
        Event::StepFailed { step_id: id, reason } => {
            if same_text(id.as_str(), step_id) {
                put(
                    writes,
                    Mutation::SetStepFailure {
                        step_id: step_id.to_owned(),
                        attempt,
                        reason: reason.clone(),
                    },
                );
            }
        },
        Event::StepApproved { step_id: id, comment } => {
            if same_text(id.as_str(), step_id) {
                put(
                    writes,
                    Mutation::SetApproval {
                        step_id: step_id.to_owned(),
                        attempt,
                        approval_status: ApprovalStatus::Approved,
                        comment: comment.duplicate(),
                        feedback: None,
                    },
                );
            }
        },
        Event::StepRejected { step_id: id, feedback } => {
            if same_text(id.as_str(), step_id) {
                put(
                    writes,
                    Mutation::SetApproval {
                        step_id: step_id.to_owned(),
                        attempt,
                        approval_status: ApprovalStatus::Rejected,
                        comment: None,
                        feedback: Some(feedback.clone()),
                    },
                );
            }
        },
        _ => {},
    }
    proof {
        assert(writes.deep_view() =~= start + event_data(event@, step_id@, attempt));
    }
}

/// The error of a step that has no record.
pub open spec fn step_not_found(step_id: Seq<char>) -> SchedulerErrorModel {
    SchedulerErrorModel::Engine("step "@ + step_id + " not found"@)
}

/// The attempt that a step is at.
pub fn step_attempt(record: &RunRecord, step_id: &str) -> (r: Result<u32, SchedulerError>)
    ensures
        match (r, latest_of(record@.steps, step_id@)) {
            (Ok(attempt), Some(step)) => attempt == step.run.attempt,
            (Err(e), None) => e@ == step_not_found(step_id@),
            _ => false,
        },
{
    match record.latest_of_step(step_id) {
        Some(step) => Ok(step.run.attempt),
        None => Err(SchedulerError::Engine(cat3("step ", step_id, " not found"))),
    }
}

/// The end of a step: no start is noted any more, and the time of its end is.
pub open spec fn end_stamp(step_id: Seq<char>, attempt: u32, now: Timestamp) -> MutationModel {
    MutationModel::SetStepTimestamps {
        step_id,
        attempt,
        started_at: None,
        completed_at: Some(now),
    }
}

fn stamp_end(step_id: &str, attempt: u32, now: Timestamp) -> (r: Mutation)
    ensures
        r@ == end_stamp(step_id@, attempt, now),
{
    Mutation::SetStepTimestamps {
        step_id: step_id.to_owned(),
        attempt,
        started_at: None,
        completed_at: Some(now),
    }
}

/// The actions and writes that cancel a step; none where it is not active.
pub open spec fn step_cancel(record: RunRecordModel, step_id: Seq<char>, now: Timestamp) -> (
    Seq<ActionModel>,
    Seq<MutationModel>,
) {
    match latest_of(record.steps, step_id) {
        Some(step) => if active(step.run.status) {
            let attempt = step.run.attempt;
            (
                (match step.job_id {
                    Some(job_id) => seq![
                        ActionModel::CancelJob { step_id, job_id },
                        ActionModel::AbortWait { step_id, attempt },
                    ],
                    None => Seq::empty(),
                }) + seq![ActionModel::ClearLiveness { step_id }],
                seq![
                    MutationModel::SetStepStatus {
                        step_id,
                        attempt,
                        status: StepStatus::Cancelled,
                    },
                    end_stamp(step_id, attempt, now),
                ],
            )
        } else {
            (Seq::empty(), Seq::empty())
        },
        None => (Seq::empty(), Seq::empty()),
    }
}

/// The progress after several steps were cancelled.
pub open spec fn cancel_steps(
    record: RunRecordModel,
    ids: Seq<Seq<char>>,
    now: Timestamp,
    p: Progress,
) -> Progress
    decreases ids.len(),
{
    if ids.len() == 0 {
        p
    } else {
        let before = cancel_steps(record, ids.drop_last(), now, p);
        let (actions, writes) = step_cancel(record, ids.last(), now);
        Progress {
            actions: before.actions + actions,
            writes: before.writes + writes,
            ..before
        }
    }
}

/// The progress after a step's status was marked.
pub open spec fn mark_step(
    record: RunRecordModel,
    event: EventModel,
    step_id: Seq<char>,
    status: StepStatus,
    now: Timestamp,
    p: Progress,
) -> Progress {
    match latest_of(record.steps, step_id) {
        None => if status == StepStatus::Skipped {
            p
        } else {
            Progress { error: Some(step_not_found(step_id)), ..p }
        },
        Some(step) => {
            let attempt = step.run.attempt;
            Progress {
                actions: p.actions + (if terminal(status) {
                    seq![ActionModel::ClearLiveness { step_id }]
                } else {
                    Seq::empty()
                }) + (if status == StepStatus::Cancelled {
                    seq![ActionModel::AbortWait { step_id, attempt }]
                } else {
                    Seq::empty()
                }),
                writes: p.writes + seq![MutationModel::SetStepStatus { step_id, attempt, status }]
                    + (if terminal(status) {
                    seq![end_stamp(step_id, attempt, now)]
                } else {
                    Seq::empty()
                }) + event_data(event, step_id, attempt),
                ..p
            }
        },
    }
}

/// An event about a run as a whole.
pub open spec fn run_event(event_type: RunEventType, now: Timestamp) -> MutationModel {
    MutationModel::AppendEvent(
        RunEventModel { event_type, step_id: None, timestamp: now, payload: Json::Null },
    )
}

fn report_run(event_type: RunEventType, now: Timestamp) -> (r: Mutation)
    ensures
        r@ == run_event(event_type, now),
{
    Mutation::AppendEvent(
        RunEventRecord { event_type, step_id: None, timestamp: now, payload: JsonValue::Null },
    )
}

/// The event that reports the end of a run.
pub open spec fn end_event(phase: RunPhase) -> RunEventType {
    match phase {
        RunPhase::Completed => RunEventType::RunCompleted,
        RunPhase::Cancelled => RunEventType::RunCancelled,
        _ => RunEventType::RunFailed,
    }
}

fn end_event_type(phase: RunPhase) -> (r: RunEventType)
    ensures
        r == end_event(phase),
{
    match phase {
        RunPhase::Completed => RunEventType::RunCompleted,
        RunPhase::Cancelled => RunEventType::RunCancelled,
        _ => RunEventType::RunFailed,
    }
}

/// The writes that end a run: its phase, that it was cancelled, and the event
/// that reports it.
pub open spec fn end_writes(phase: RunPhase, now: Timestamp) -> Seq<MutationModel> {
    seq![MutationModel::SetRunPhase(phase)] + (if phase == RunPhase::Cancelled {
        seq![MutationModel::SetRunCancelled]
    } else {
        Seq::empty()
    }) + seq![run_event(end_event(phase), now)]
}

fn push_end(writes: &mut Vec<Mutation>, phase: RunPhase, now: Timestamp)
    ensures
        final(writes).deep_view() == old(writes).deep_view() + end_writes(phase, now),
{
    let ghost start = writes.deep_view();
    put(writes, Mutation::SetRunPhase(phase));
    if phase == RunPhase::Cancelled {
        put(writes, Mutation::SetRunCancelled);
    }
    put(writes, report_run(end_event_type(phase), now));
    proof {
        assert(writes.deep_view() =~= start + end_writes(phase, now));
    }
}

/// The progress after one command. Hooks are no part of it: a turn ends where
/// they begin.
pub open spec fn perform(
    record: RunRecordModel,
    event: EventModel,
    now: Timestamp,
    config: JobConfig,
    p: Progress,
    command: CommandModel,
) -> Progress {
    match command {
        CommandModel::ActivateSteps(list) => match step_starts(record, list, now, config) {
            Err(e) => Progress { error: Some(e), ..p },
            Ok((inserts, starts)) => Progress {
                actions: p.actions + apply_action(p.writes + inserts) + starts,
                writes: Seq::empty(),
                ..p
            },
        },
        CommandModel::WaitApproval { step_id } => match latest_of(record.steps, step_id) {
            None => Progress { error: Some(step_not_found(step_id)), ..p },
            Some(step) => Progress {
                writes: p.writes.push(
                    MutationModel::SetStepStatus {
                        step_id,
                        attempt: step.run.attempt,
                        status: StepStatus::WaitingApproval,
                    },
                ),
                ..p
            },
        },
        CommandModel::StartChildRun { step_id } => Progress {
            writes: p.writes.push(
                MutationModel::InsertStepRun(started_record(step_id, 1, now, None, None)),
            ),
            follow_ons: p.follow_ons.push(
                EventModel::StepFailed { step_id, reason: "subflows not yet supported"@ },
            ),
            ..p
        },
        CommandModel::RunHooks { .. } => p,
        CommandModel::CancelSteps(ids) => cancel_steps(record, ids, now, p),
        CommandModel::MarkStepStatus { step_id, status } => mark_step(
            record,
            event,
            step_id,
            status,
            now,
            p,
        ),
        CommandModel::MarkRunTerminal(phase) => Progress {
            actions: p.actions.push(ActionModel::StopDeadline),
            writes: p.writes + end_writes(phase, now),
            ..p
        },
    }
}

/// The progress after several commands; an error ends it.
pub open spec fn perform_all(
    record: RunRecordModel,
    event: EventModel,
    now: Timestamp,
    config: JobConfig,
    p: Progress,
    commands: Seq<CommandModel>,
) -> Progress
    decreases commands.len(),
{
    if commands.len() == 0 {
        p
    } else {
        let before = perform_all(record, event, now, config, p, commands.drop_last());
        if before.error is Some {
            before
        } else {
            perform(record, event, now, config, before, commands.last())
        }
    }
}

/// The plan that a progress comes to: the writes that are left are stored at
/// the end. An error leaves them out, and the follow-on events too.
pub open spec fn finished(p: Progress) -> PlanModel {
    match p.error {
        Some(e) => PlanModel { actions: p.actions, follow_ons: Seq::empty(), error: Some(e) },
        None => PlanModel {
            actions: p.actions + apply_action(p.writes),
            follow_ons: p.follow_ons,
            error: None,
        },
    }
}

/// The plan for `commands`, with `opening` to be stored before anything else.
pub open spec fn planned(
    record: RunRecordModel,
    event: EventModel,
    now: Timestamp,
    config: JobConfig,
    opening: Seq<MutationModel>,
    commands: Seq<CommandModel>,
) -> PlanModel {
    finished(
        perform_all(
            record,
            event,
            now,
            config,
            Progress {
                actions: Seq::empty(),
                writes: opening,
                follow_ons: Seq::empty(),
                error: None,
            },
            commands,
        ),
    )
}

/// The actions, writes and follow-on events that are being collected.
struct Draft {
    actions: Vec<Action>,
    writes: Vec<Mutation>,
    follow_ons: Vec<Event>,
}

impl View for Draft {
    type V = Progress;

    closed spec fn view(&self) -> Progress {
        Progress {
            actions: self.actions.deep_view(),
            writes: self.writes.deep_view(),
            follow_ons: self.follow_ons.deep_view(),
            error: None,
        }
    }
}

fn cancel_step(record: &RunRecord, step_id: &str, now: Timestamp, draft: &mut Draft)
    ensures
        final(draft)@ == (Progress {
            actions: old(draft)@.actions + step_cancel(record@, step_id@, now).0,
            writes: old(draft)@.writes + step_cancel(record@, step_id@, now).1,
            ..old(draft)@
        }),
{
    let ghost start = draft@;
    match record.latest_of_step(step_id) {
        Some(step) => {
            if step.run.status.is_active() {
                let attempt = step.run.attempt;
                match &step.job_id {
                    Some(job_id) => {
                        put(
                            &mut draft.actions,
                            Action::CancelJob {
                                step_id: step_id.to_owned(),
                                job_id: job_id.clone(),
                            },
                        );
                        put(
                            &mut draft.actions,
                            Action::AbortWait { step_id: step_id.to_owned(), attempt },
                        );
                    },
                    None => {},
                }
                put(
                    &mut draft.writes,
                    Mutation::SetStepStatus {
                        step_id: step_id.to_owned(),
                        attempt,
                        status: StepStatus::Cancelled,
                    },
                );
                put(&mut draft.writes, stamp_end(step_id, attempt, now));
                put(
                    &mut draft.actions,
                    Action::ClearLiveness { step_id: step_id.to_owned() },
                );
            }
        },
        None => {},
    }
    proof {
        assert(draft@.actions =~= start.actions + step_cancel(record@, step_id@, now).0);
        assert(draft@.writes =~= start.writes + step_cancel(record@, step_id@, now).1);
    }
}

fn cancel_all(record: &RunRecord, ids: &Vec<String>, now: Timestamp, draft: &mut Draft)
    ensures
        final(draft)@ == cancel_steps(record@, ids.deep_view(), now, old(draft)@),
{
    let ghost start = draft@;
    let ghost all = ids.deep_view();
    let mut i: usize = 0;
    while i < ids.len()
        invariant
            i <= ids@.len(),
            all == ids.deep_view(),
            draft@ == cancel_steps(record@, all.take(i as int), now, start),
        decreases ids@.len() - i,
    {
        proof {
            assert(all.take(i + 1).drop_last() =~= all.take(i as int));
            assert(all[i as int] == ids@[i as int]@);
        }
        cancel_step(record, ids[i].as_str(), now, draft);
        i = i + 1;
    }
    proof {
        assert(all.take(i as int) =~= all);
    }
}

fn mark(
    record: &RunRecord,
    event: &Event,
    step_id: &str,
    status: StepStatus,
    now: Timestamp,
    draft: &mut Draft,
) -> (r: Result<(), SchedulerError>)
    ensures
        ({
            let p = mark_step(record@, event@, step_id@, status, now, old(draft)@);
            match r {
                Ok(_) => final(draft)@ == p,
                Err(e) => p.error == Some(e@) && final(draft)@.actions == p.actions,
            }
        }),
{
    let ghost start = draft@;
    let attempt: u32 = match step_attempt(record, step_id) {
        Ok(a) => a,
        Err(e) => {
            return if status == StepStatus::Skipped {
                Ok(())
            } else {
                Err(e)
            };
        },
    };
    put(
        &mut draft.writes,
        Mutation::SetStepStatus { step_id: step_id.to_owned(), attempt, status },
    );
    if status.is_terminal() {
        put(&mut draft.writes, stamp_end(step_id, attempt, now));
        put(&mut draft.actions, Action::ClearLiveness { step_id: step_id.to_owned() });
        if status == StepStatus::Cancelled {
            put(
                &mut draft.actions,
                Action::AbortWait { step_id: step_id.to_owned(), attempt },
            );
        }
    }
    add_event_data(event, step_id, attempt, &mut draft.writes);
    proof {
        let p = mark_step(record@, event@, step_id@, status, now, start);
        assert(draft@.actions =~= p.actions);
        assert(draft@.writes =~= p.writes);
    }
    Ok(())
}

fn perform_command(
    record: &RunRecord,
    event: &Event,
    now: Timestamp,
    config: &SchedulerConfig,
    draft: &mut Draft,
    command: &Command,
) -> (r: Result<(), SchedulerError>)
    ensures
        ({
            let p = perform(record@, event@, now, job_config(*config), old(draft)@, command@);
            match r {
                Ok(_) => final(draft)@ == p,
                Err(e) => p.error == Some(e@) && final(draft)@.actions == p.actions,
            }
        }),
{
    let ghost start = draft@;
    match command {
        Command::ActivateSteps(list) => {
            match start_steps(record, list, now, config) {
                Err(e) => {
                    return Err(e);
                },
                Ok((inserts, starts)) => {
                    let ghost inserted = inserts.deep_view();
                    let ghost begun = starts.deep_view();
                    extend(&mut draft.writes, inserts);
                    let mut batch: Vec<Mutation> = Vec::new();
                    batch.append(&mut draft.writes);
                    proof {
                        assert(batch.deep_view() =~= start.writes + inserted);
                        assert(draft.writes.deep_view() =~= Seq::<MutationModel>::empty());
                    }
                    if batch.len() > 0 {
                        put(&mut draft.actions, Action::Apply(batch));
                    }
                    extend(&mut draft.actions, starts);
                    proof {
                        assert(draft@.actions =~= start.actions + apply_action(
                            start.writes + inserted,
                        ) + begun);
                    }
                },
            }
        },
        Command::WaitApproval { step_id } => {
            match step_attempt(record, step_id.as_str()) {
                Err(e) => {
                    return Err(e);
                },
                Ok(attempt) => {
                    put(
                        &mut draft.writes,
                        Mutation::SetStepStatus {
                            step_id: step_id.clone(),
                            attempt,
                            status: StepStatus::WaitingApproval,
                        },
                    );
                },
            }
        },
        Command::StartChildRun { step_id } => {
            put(
                &mut draft.writes,
                Mutation::InsertStepRun(start_record(step_id.as_str(), 1, now, None, None)),
            );
            put(
                &mut draft.follow_ons,
                Event::StepFailed {
                    step_id: step_id.clone(),
                    reason: "subflows not yet supported".to_owned(),
                },
            );
        },
        Command::RunHooks { .. } => {},
        Command::CancelSteps(ids) => {
            cancel_all(record, ids, now, draft);
        },
        Command::MarkStepStatus { step_id, status } => {
            return mark(record, event, step_id.as_str(), *status, now, draft);
        },
        Command::MarkRunTerminal(phase) => {
            push_end(&mut draft.writes, *phase, now);
            put(&mut draft.actions, Action::StopDeadline);
        },
    }
    Ok(())
}

proof fn lemma_perform_stops(
    record: RunRecordModel,
    event: EventModel,
    now: Timestamp,
    config: JobConfig,
    p: Progress,
    commands: Seq<CommandModel>,
    i: int,
)
    requires
        0 <= i <= commands.len(),
        perform_all(record, event, now, config, p, commands.take(i)).error is Some,
    ensures
        perform_all(record, event, now, config, p, commands) == perform_all(
            record,
            event,
            now,
            config,
            p,
            commands.take(i),
        ),
    decreases commands.len() - i,
{
    if i < commands.len() {
        assert(commands.take(i + 1).drop_last() =~= commands.take(i));
        lemma_perform_stops(record, event, now, config, p, commands, i + 1);
    } else {
        assert(commands.take(i) =~= commands);
    }
}

/// Plans the commands of a turn against the record of the run. `opening` is
/// stored before anything else.
pub fn execute_commands(
    record: &RunRecord,
    event: &Event,
    now: Timestamp,
    config: &SchedulerConfig,
    opening: Vec<Mutation>,
    commands: &Vec<Command>,
) -> (r: Plan)
    ensures
        r@ == planned(
            record@,
            event@,
            now,
            job_config(*config),
            opening.deep_view(),
            commands.deep_view(),
        ),
{
    let ghost conf = job_config(*config);
    let ghost all = commands.deep_view();
    let ghost start = Progress {
        actions: Seq::empty(),
        writes: opening.deep_view(),
        follow_ons: Seq::empty(),
        error: None,
    };
    let mut draft = Draft { actions: Vec::new(), writes: opening, follow_ons: Vec::new() };
    proof {
        assert(draft@.actions =~= start.actions);
        assert(draft@.follow_ons =~= start.follow_ons);
        assert(all.take(0) =~= Seq::<CommandModel>::empty());
    }
    let mut i: usize = 0;
    while i < commands.len()
        invariant
            i <= commands@.len(),
            all == commands.deep_view(),
            conf == job_config(*config),
                draft@ == perform_all(record@, event@, now, conf, start, all.take(i as int)),
            planned(record@, event@, now, conf, start.writes, all) == finished(
                perform_all(record@, event@, now, conf, start, all),
            ),
            start.writes == opening.deep_view(),
        decreases commands@.len() - i,
    {
        proof {
            assert(all.take(i + 1).drop_last() =~= all.take(i as int));
            assert(all[i as int] == commands@[i as int]@);
        }
        match perform_command(record, event, now, config, &mut draft, &commands[i]) {
            Ok(_) => {},
            Err(e) => {
                proof {
                    lemma_perform_stops(record@, event@, now, conf, start, all, i + 1);
                }
                let none: Vec<Event> = Vec::new();
                proof {
                    assert(none.deep_view() =~= Seq::<EventModel>::empty());
                }
                return Plan { actions: draft.actions, follow_ons: none, error: Some(e) };
            },
        }
        i = i + 1;
    }
    proof {
        assert(all.take(i as int) =~= all);
    }
    let Draft { actions, writes, follow_ons } = draft;
    let mut done = actions;
    let ghost before = done.deep_view();
    let ghost left = writes.deep_view();
    if writes.len() > 0 {
        put(&mut done, Action::Apply(writes));
    }
    proof {
        assert(done.deep_view() =~= before + apply_action(left));
    }
    Plan { actions: done, follow_ons, error: None }
}

/// What a turn comes to: the plan, and the hooks that run after it. Where
/// hooks run, the follow-on events of the plan are dropped.
#[derive(Debug)]
pub struct Turn {
    pub plan: Plan,
    pub hooks: Option<HooksContinuation>,
}

/// A plan without follow-on events.
pub open spec fn without_follow_ons(plan: PlanModel) -> PlanModel {
    PlanModel { follow_ons: Seq::empty(), ..plan }
}

/// The plan and the hooks of a list of commands. An error keeps the hooks from
/// running.
pub open spec fn driven(
    record: RunRecordModel,
    event: EventModel,
    now: Timestamp,
    config: JobConfig,
    opening: Seq<MutationModel>,
    commands: Seq<CommandModel>,
) -> (PlanModel, Option<ContinuationModel>) {
    let plan = planned(record, event, now, config, opening, before_hooks(commands));
    let hooks = from_hooks(commands);
    if plan.error is Some || hooks is None {
        (plan, None)
    } else {
        (without_follow_ons(plan), hooks)
    }
}

fn drive_commands(
    record: &RunRecord,
    event: &Event,
    now: Timestamp,
    config: &SchedulerConfig,
    opening: Vec<Mutation>,
    commands: Vec<Command>,
) -> (r: Turn)
    ensures
        (r.plan@, r.hooks.deep_view()) == driven(
            record@,
            event@,
            now,
            job_config(*config),
            opening.deep_view(),
            commands.deep_view(),
        ),
{
    let (head, hooks) = split_at_hooks(commands);
    let plan = execute_commands(record, event, now, config, opening, &head);
    if plan.error.is_some() || hooks.is_none() {
        return Turn { plan, hooks: None };
    }
    let none: Vec<Event> = Vec::new();
    proof {
        assert(none.deep_view() =~= Seq::<EventModel>::empty());
    }
    Turn { plan: Plan { actions: plan.actions, follow_ons: none, error: plan.error }, hooks }
}

/// The plan that does nothing.
pub open spec fn no_plan() -> PlanModel {
    PlanModel { actions: Seq::empty(), follow_ons: Seq::empty(), error: None }
}

/// What is stored at the start of the turn that an event opens: that a run
/// started.
pub open spec fn opening_writes(event: EventModel, now: Timestamp) -> Seq<MutationModel> {
    if event is RunStarted {
        seq![run_event(RunEventType::RunStarted, now)]
    } else {
        Seq::empty()
    }
}

/// The turn that an event opens: nothing where the run has ended; else what
/// the engine decides, or its error.
pub open spec fn event_turn(
    record: RunRecordModel,
    event: EventModel,
    now: Timestamp,
    config: JobConfig,
) -> (PlanModel, Option<ContinuationModel>) {
    if ended(record.phase) {
        (no_plan(), None)
    } else {
        match decided(record.definition, state_of(record), event) {
            Err(e) => (
                PlanModel {
                    actions: Seq::empty(),
                    follow_ons: Seq::empty(),
                    error: Some(SchedulerErrorModel::Engine(engine_error_text(e))),
                },
                None,
            ),
            Ok(commands) => driven(
                record,
                event,
                now,
                config,
                opening_writes(event, now),
                commands,
            ),
        }
    }
}

fn empty_turn(error: Option<SchedulerError>) -> (r: Turn)
    ensures
        r.plan@ == (PlanModel {
            actions: Seq::empty(),
            follow_ons: Seq::empty(),
            error: error.deep_view(),
        }),
        r.hooks is None,
{
    let plan = Plan { actions: Vec::new(), follow_ons: Vec::new(), error };
    proof {
        assert(plan.actions.deep_view() =~= Seq::<ActionModel>::empty());
        assert(plan.follow_ons.deep_view() =~= Seq::<EventModel>::empty());
    }
    Turn { plan, hooks: None }
}

/// Plans the turn that an event opens, against the record of the run as it was
/// loaded for this turn.
pub fn run_locked_event(
    record: &RunRecord,
    event: &Event,
    now: Timestamp,
    config: &SchedulerConfig,
) -> (r: Turn)
    requires
        !ended(record@.phase) ==> can_decide(record@.definition, state_of(record@), event@),
    ensures
        (r.plan@, r.hooks.deep_view()) == event_turn(record@, event@, now, job_config(*config)),
{
    if is_terminal(record.phase) {
        return empty_turn(None);
    }
    let state = record.run_state();
    match decide(&record.definition, &state, event.duplicate(), now) {
        Err(e) => empty_turn(Some(SchedulerError::Engine(e.message()))),
        Ok(commands) => {
            let mut opening: Vec<Mutation> = Vec::new();
            match event {
                Event::RunStarted => {
                    opening.push(report_run(RunEventType::RunStarted, now));
                },
                _ => {},
            }
            proof {
                assert(opening.deep_view() =~= opening_writes(event@, now));
            }
            drive_commands(record, event, now, config, opening, commands)
        },
    }
}

/// The turn that an event opens which is submitted to a scheduler: nothing
/// where the scheduler was shut down.
pub open spec fn submitted_turn(
    shut_down: bool,
    record: RunRecordModel,
    event: EventModel,
    now: Timestamp,
    config: JobConfig,
) -> (PlanModel, Option<ContinuationModel>) {
    if shut_down {
        (no_plan(), None)
    } else {
        event_turn(record, event, now, config)
    }
}

/// Plans the turn of an event that is submitted. A scheduler that was shut down
/// takes no event.
pub fn submit(
    shut_down: bool,
    record: &RunRecord,
    event: &Event,
    now: Timestamp,
    config: &SchedulerConfig,
) -> (r: Turn)
    requires
        !shut_down && !ended(record@.phase) ==> can_decide(
            record@.definition,
            state_of(record@),
            event@,
        ),
    ensures
        (r.plan@, r.hooks.deep_view()) == submitted_turn(
            shut_down,
            record@,
            event@,
            now,
            job_config(*config),
        ),
{
    if shut_down {
        return empty_turn(None);
    }
    run_locked_event(record, event, now, config)
}

/// The turn that goes on after hooks: nothing where the run has ended.
pub open spec fn continued_turn(
    record: RunRecordModel,
    event: EventModel,
    now: Timestamp,
    config: JobConfig,
    commands: Seq<CommandModel>,
) -> (PlanModel, Option<ContinuationModel>) {
    if ended(record.phase) {
        (no_plan(), None)
    } else {
        driven(record, event, now, config, Seq::empty(), commands)
    }
}

/// Plans the commands that were left when hooks began, against the record of
/// the run as it was loaded after the hooks.
pub fn run_locked_commands(
    record: &RunRecord,
    event: &Event,
    now: Timestamp,
    config: &SchedulerConfig,
    commands: Vec<Command>,
) -> (r: Turn)
    ensures
        (r.plan@, r.hooks.deep_view()) == continued_turn(
            record@,
            event@,
            now,
            job_config(*config),
            commands.deep_view(),
        ),
{
    if is_terminal(record.phase) {
        return empty_turn(None);
    }
    let opening: Vec<Mutation> = Vec::new();
    proof {
        assert(opening.deep_view() =~= Seq::<MutationModel>::empty());
    }
    drive_commands(record, event, now, config, opening, commands)
}

/// Whether a hook that failed keeps the rest of its batch from running: one
/// before the run does unless it says otherwise, one of a step does, one after
/// the run does not.
pub open spec fn aborts(phase: HookPhaseModel, always_continue: bool) -> bool {
    match phase {
        HookPhaseModel::BeforeRun => !always_continue,
        HookPhaseModel::BeforeStep { .. } => true,
        HookPhaseModel::AfterStep { .. } => true,
        HookPhaseModel::AfterRun => false,
    }
}

/// Whether a hook that failed keeps the rest of its batch from running.
pub fn hook_failure_aborts(phase: &HookPhase, always_continue: bool) -> (r: bool)
    ensures
        r == aborts(phase@, always_continue),
{
    match phase {
        HookPhase::BeforeRun => !always_continue,
        HookPhase::BeforeStep { .. } => true,
        HookPhase::AfterStep { .. } => true,
        HookPhase::AfterRun => false,
    }
}

/// What follows a batch of hooks.
#[derive(Debug)]
pub enum HookVerdict {
    /// The run has failed: these writes end it, and its deadline is stopped.
    FailRun(Vec<Mutation>),
    /// A step has failed.
    FailStep(Event),
    /// The commands after the hooks go on.
    Continue,
}

/// What a [`HookVerdict`] denotes.
#[verifier::ext_equal]
pub enum VerdictModel {
    FailRun(Seq<MutationModel>),
    FailStep(EventModel),
    Continue,
}

impl View for HookVerdict {
    type V = VerdictModel;

    open spec fn view(&self) -> VerdictModel {
        match self {
            HookVerdict::FailRun(writes) => VerdictModel::FailRun(writes.deep_view()),
            HookVerdict::FailStep(event) => VerdictModel::FailStep(event@),
            HookVerdict::Continue => VerdictModel::Continue,
        }
    }
}

/// What follows a batch of hooks of which one failed, for this reason.
pub open spec fn verdict(phase: HookPhaseModel, failure: Option<Seq<char>>, now: Timestamp) -> VerdictModel {
    match (phase, failure) {
        (HookPhaseModel::BeforeRun, Some(_)) => VerdictModel::FailRun(
            end_writes(RunPhase::Failed, now),
        ),
        (HookPhaseModel::BeforeStep { step_id }, Some(reason)) => VerdictModel::FailStep(
            EventModel::StepFailed { step_id, reason },
        ),
        (HookPhaseModel::AfterStep { step_id }, Some(reason)) => VerdictModel::FailStep(
            EventModel::StepFailed { step_id, reason },
        ),
        _ => VerdictModel::Continue,
    }
}

/// Decides what follows a batch of hooks. A hook after the run is for the
/// record only: the commands that end the run still go on.
pub fn hook_batch_finished(phase: &HookPhase, failure: Option<String>, now: Timestamp) -> (r:
    HookVerdict)
    ensures
        r@ == verdict(phase@, failure.deep_view(), now),
{
    match failure {
        None => HookVerdict::Continue,
        Some(reason) => match phase {
            HookPhase::BeforeRun => {
                let mut writes: Vec<Mutation> = Vec::new();
                push_end(&mut writes, RunPhase::Failed, now);
                proof {
                    assert(writes.deep_view() =~= end_writes(RunPhase::Failed, now));
                }
                HookVerdict::FailRun(writes)
            },
            HookPhase::BeforeStep { step_id } => HookVerdict::FailStep(
                Event::StepFailed { step_id: step_id.clone(), reason },
            ),
            HookPhase::AfterStep { step_id } => HookVerdict::FailStep(
                Event::StepFailed { step_id: step_id.clone(), reason },
            ),
            HookPhase::AfterRun => HookVerdict::Continue,
        },
    }
}

/// The timeout of a hook in seconds; none where none is declared.
pub open spec fn hook_timeout(hook: HookModel) -> Option<u64> {
    match hook.timeout {
        Some(t) => match duration_of(t) {
            Some(n) => Some(n as u64),
            None => None,
        },
        None => None,
    }
}

/// The job of a hook, or why its arguments cannot be resolved.
pub open spec fn hook_job(record: RunRecordModel, hook: HookModel) -> Result<
    StartRequestModel,
    DevkitdErrorModel,
> {
    let flow = record.definition;
    match resolved_value(
        Json::Object(with_entries(Seq::empty(), hook.args)),
        context_of(flow.steps, state_of(record), Json::Null),
        hook.hook,
    ) {
        Ok(args) => Ok(
            StartRequestModel { tool: hook.hook, args, timeout_seconds: hook_timeout(hook) },
        ),
        Err(e) => Err(
            DevkitdErrorModel::ToolError {
                stdout: Seq::empty(),
                stderr: template_error_text(e),
                exit_code: 1,
            },
        ),
    }
}

/// Builds the job of a hook against the record of its run.
pub fn hook_request(record: &RunRecord, hook: &HookCall) -> (r: Result<StartRequest, DevkitdError>)
    ensures
        (match r {
            Ok(request) => Ok(request@),
            Err(e) => Err(e@),
        }) == hook_job(record@, hook@),
{
    let flow = &record.definition;
    let state = record.run_state();
    let ctx = build_context(flow, &state, JsonValue::Null);
    let mut entries: Vec<(String, JsonValue)> = Vec::new();
    proof {
        assert(entries.deep_view() =~= Seq::<(Seq<char>, Json)>::empty());
    }
    set_all(&mut entries, &hook.args);
    proof {
        lemma_object_view(entries);
    }
    match resolve_value(&JsonValue::Object(entries), &ctx, hook.hook.as_str()) {
        Ok(args) => {
            let timeout_seconds: Option<u64> = match &hook.timeout {
                Some(t) => parse_duration(t.as_str()),
                None => None,
            };
            Ok(StartRequest { tool: hook.hook.clone(), args, timeout_seconds })
        },
        Err(e) => Err(
            DevkitdError::ToolError {
                stdout: String::new(),
                stderr: e.message(),
                exit_code: 1,
            },
        ),
    }
}

/// What is stored about a hook that ran, or that failed before it could.
pub open spec fn hook_run(
    hook: HookModel,
    phase: HookPhaseModel,
    started_at: Timestamp,
    completed_at: Timestamp,
    args_resolved: Option<Json>,
    job_id: Option<Seq<char>>,
    failure: Option<DevkitdErrorModel>,
) -> HookRunModel {
    HookRunModel {
        hook: hook.hook,
        phase: stored_phase(phase),
        step_id: phase_step(phase),
        status: if failure is Some {
            HookStatus::Failed
        } else {
            HookStatus::Completed
        },
        started_at,
        completed_at: Some(completed_at),
        args_resolved,
        output_ref: None,
        failure_reason: match failure {
            Some(e) => Some(devkitd_error_text(e)),
            None => None,
        },
        failure_detail: match failure {
            Some(e) => Some(failure_of(e)),
            None => None,
        },
        job_id,
    }
}

/// What is stored about a hook that ran, or that failed before it could.
pub fn record_hook(
    hook: &HookCall,
    phase: &HookPhase,
    started_at: Timestamp,
    completed_at: Timestamp,
    args_resolved: Option<JsonValue>,
    job_id: Option<String>,
    failure: Option<&DevkitdError>,
) -> (r: Mutation)
    ensures
        r@ == MutationModel::RecordHookRun(
            hook_run(
                hook@,
                phase@,
                started_at,
                completed_at,
                args_resolved.deep_view(),
                job_id.deep_view(),
                failure.deep_view(),
            ),
        ),
{
    let status = if failure.is_some() {
        HookStatus::Failed
    } else {
        HookStatus::Completed
    };
    let (failure_reason, failure_detail) = match failure {
        Some(e) => (Some(e.message()), Some(JobFailure::from(e))),
        None => (None, None),
    };
    Mutation::RecordHookRun(
        HookRunRecord {
            hook: hook.hook.clone(),
            phase: map_hook_phase(phase),
            step_id: hook_step(phase),
            status,
            started_at,
            completed_at: Some(completed_at),
            args_resolved,
            output_ref: None,
            failure_reason,
            failure_detail,
            job_id,
        },
    )
}

/// How the job of a step went.
#[derive(Debug)]
pub enum JobReport {
    /// The job could not be started.
    StartFailed(DevkitdError),
    /// The handle of the job could not be stored.
    HandleLost,
    /// The job succeeded.
    Succeeded(JsonValue),
    /// The job failed.
    Failed(DevkitdError),
}

/// What a [`JobReport`] denotes.
#[verifier::ext_equal]
pub enum JobReportModel {
    StartFailed(DevkitdErrorModel),
    HandleLost,
    Succeeded(Json),
    Failed(DevkitdErrorModel),
}

impl View for JobReport {
    type V = JobReportModel;

    open spec fn view(&self) -> JobReportModel {
        match self {
            JobReport::StartFailed(e) => JobReportModel::StartFailed(e@),
            JobReport::HandleLost => JobReportModel::HandleLost,
            JobReport::Succeeded(v) => JobReportModel::Succeeded(v@),
            JobReport::Failed(e) => JobReportModel::Failed(e@),
        }
    }
}

/// The write that keeps the details of a failure.
pub open spec fn failure_write(step_id: Seq<char>, attempt: u32, e: DevkitdErrorModel) -> Seq<
    MutationModel,
> {
    seq![MutationModel::SetStepFailureDetail { step_id, attempt, detail: failure_of(e) }]
}

/// What follows from the report of a step's job: what to store first, and the
/// event to submit.
pub open spec fn job_outcome(step_id: Seq<char>, attempt: u32, report: JobReportModel) -> (
    Seq<MutationModel>,
    EventModel,
) {
    match report {
        JobReportModel::StartFailed(e) => (
            failure_write(step_id, attempt, e),
            EventModel::StepFailed { step_id, reason: "start failed: "@ + devkitd_error_text(e) },
        ),
        JobReportModel::HandleLost => (
            Seq::empty(),
            EventModel::StepFailed { step_id, reason: "failed to persist job_id"@ },
        ),
        JobReportModel::Succeeded(output) => (
            Seq::empty(),
            EventModel::StepCompleted { step_id, output },
        ),
        JobReportModel::Failed(e) => (
            failure_write(step_id, attempt, e),
            EventModel::StepFailed { step_id, reason: devkitd_error_text(e) },
        ),
    }
}

fn keep_failure(step_id: &str, attempt: u32, e: &DevkitdError) -> (r: Vec<Mutation>)
    ensures
        r.deep_view() == failure_write(step_id@, attempt, e@),
{
    let mut out: Vec<Mutation> = Vec::new();
    out.push(
        Mutation::SetStepFailureDetail {
            step_id: step_id.to_owned(),
            attempt,
            detail: JobFailure::from(e),
        },
    );
    proof {
        assert(out.deep_view() =~= failure_write(step_id@, attempt, e@));
    }
    out
}

/// Turns the report of a step's job into what to store and the event to
/// submit.
pub fn finish_job(step_id: &str, attempt: u32, report: JobReport) -> (r: (Vec<Mutation>, Event))
    ensures
        (r.0.deep_view(), r.1@) == job_outcome(step_id@, attempt, report@),
{
    let none: Vec<Mutation> = Vec::new();
    proof {
        assert(none.deep_view() =~= Seq::<MutationModel>::empty());
    }
    match report {
        JobReport::StartFailed(e) => (
            keep_failure(step_id, attempt, &e),
            Event::StepFailed {
                step_id: step_id.to_owned(),
                reason: cat2("start failed: ", e.message().as_str()),
            },
        ),
        JobReport::HandleLost => (
            none,
            Event::StepFailed {
                step_id: step_id.to_owned(),
                reason: "failed to persist job_id".to_owned(),
            },
        ),
        JobReport::Succeeded(output) => (
            none,
            Event::StepCompleted { step_id: step_id.to_owned(), output },
        ),
        JobReport::Failed(e) => (
            keep_failure(step_id, attempt, &e),
            Event::StepFailed { step_id: step_id.to_owned(), reason: e.message() },
        ),
    }
}

/// The writes that keep the handle of a job that was accepted.
pub fn job_accepted(step_id: &str, attempt: u32, handle: &JobHandle) -> (r: Vec<Mutation>)
    ensures
        r.deep_view() == seq![
            MutationModel::SetJobId { step_id: step_id@, attempt, job_id: Some(handle.0@) },
        ],
{
    let mut out: Vec<Mutation> = Vec::new();
    out.push(
        Mutation::SetJobId { step_id: step_id.to_owned(), attempt, job_id: Some(handle.0.clone()) },
    );
    proof {
        assert(out.deep_view() =~= seq![
            MutationModel::SetJobId { step_id: step_id@, attempt, job_id: Some(handle.0@) },
        ]);
    }
    out
}

/// What comes next in the life of a step's job.
#[derive(Debug)]
pub enum JobStep {
    /// Store these writes, which keep the handle of the job.
    Store { handle: JobHandle, writes: Vec<Mutation> },
    /// Wait for the job until the deadline.
    Wait { handle: JobHandle, deadline: Option<Timestamp> },
    /// Store these writes and submit the event.
    Finish { writes: Vec<Mutation>, event: Event },
}

/// What a [`JobStep`] denotes.
#[verifier::ext_equal]
#[allow(inconsistent_fields)]
pub enum JobStepModel {
    Store { handle: Seq<char>, writes: Seq<MutationModel> },
    Wait { handle: Seq<char>, deadline: Option<Timestamp> },
    Finish { writes: Seq<MutationModel>, event: EventModel },
}

impl View for JobStep {
    type V = JobStepModel;

    open spec fn view(&self) -> JobStepModel {
        match self {
            JobStep::Store { handle, writes } => JobStepModel::Store {
                handle: handle.0@,
                writes: writes.deep_view(),
            },
            JobStep::Wait { handle, deadline } => JobStepModel::Wait {
                handle: handle.0@,
                deadline: *deadline,
            },
            JobStep::Finish { writes, event } => JobStepModel::Finish {
                writes: writes.deep_view(),
                event: event@,
            },
        }
    }
}

/// The end of a job with a report.
pub open spec fn job_end(step_id: Seq<char>, attempt: u32, report: JobReportModel) -> JobStepModel {
    let (writes, event) = job_outcome(step_id, attempt, report);
    JobStepModel::Finish { writes, event }
}

/// What follows the start of a job: the handle of one that was accepted is
/// stored, and one that was refused ends here.
pub open spec fn job_after_start(
    step_id: Seq<char>,
    attempt: u32,
    started: Result<Seq<char>, DevkitdErrorModel>,
) -> JobStepModel {
    match started {
        Ok(handle) => JobStepModel::Store {
            handle,
            writes: seq![
                MutationModel::SetJobId { step_id, attempt, job_id: Some(handle) },
            ],
        },
        Err(e) => job_end(step_id, attempt, JobReportModel::StartFailed(e)),
    }
}

/// What follows the attempt to store a handle: the job is waited for where the
/// handle was stored, and given up where it was not.
pub open spec fn job_after_store(
    step_id: Seq<char>,
    attempt: u32,
    handle: Seq<char>,
    stored: bool,
    deadline: Option<Timestamp>,
) -> JobStepModel {
    if stored {
        JobStepModel::Wait { handle, deadline }
    } else {
        job_end(step_id, attempt, JobReportModel::HandleLost)
    }
}

fn end_job(step_id: &str, attempt: u32, report: JobReport) -> (r: JobStep)
    ensures
        r@ == job_end(step_id@, attempt, report@),
{
    let (writes, event) = finish_job(step_id, attempt, report);
    JobStep::Finish { writes, event }
}

/// Decides what follows the start of a step's job.
pub fn job_started(step_id: &str, attempt: u32, started: Result<JobHandle, DevkitdError>) -> (r:
    JobStep)
    ensures
        r@ == job_after_start(
            step_id@,
            attempt,
            match started {
                Ok(handle) => Ok(handle.0@),
                Err(e) => Err(e@),
            },
        ),
{
    match started {
        Ok(handle) => {
            let writes = job_accepted(step_id, attempt, &handle);
            JobStep::Store { handle, writes }
        },
        Err(e) => end_job(step_id, attempt, JobReport::StartFailed(e)),
    }
}

/// Decides what follows the attempt to store the handle of a step's job. The
/// deadline counts from now.
pub fn handle_stored(
    step_id: &str,
    attempt: u32,
    handle: JobHandle,
    stored: bool,
    now: Timestamp,
    timeout_seconds: Option<u64>,
    margin_secs: u64,
) -> (r: JobStep)
    requires
        deadline_fits(now, timeout_seconds, margin_secs),
    ensures
        r@ == job_after_store(
            step_id@,
            attempt,
            handle.0@,
            stored,
            deadline_after(now, timeout_seconds, margin_secs),
        ),
{
    if stored {
        JobStep::Wait { handle, deadline: job_deadline(now, timeout_seconds, margin_secs) }
    } else {
        end_job(step_id, attempt, JobReport::HandleLost)
    }
}

/// Decides what follows the wait for a step's job.
pub fn job_waited(step_id: &str, attempt: u32, outcome: Result<JsonValue, DevkitdError>) -> (r:
    JobStep)
    ensures
        r@ == job_end(
            step_id@,
            attempt,
            match outcome {
                Ok(output) => JobReportModel::Succeeded(output@),
                Err(e) => JobReportModel::Failed(e@),
            },
        ),
{
    match outcome {
        Ok(output) => end_job(step_id, attempt, JobReport::Succeeded(output)),
        Err(e) => end_job(step_id, attempt, JobReport::Failed(e)),
    }
}

/// What follows from the report of a job that was found again after a restart:
/// the event alone.
pub fn finish_reattached(step_id: &str, report: Result<JsonValue, DevkitdError>) -> (r: Event)
    ensures
        r@ == (match report {
            Ok(output) => EventModel::StepCompleted { step_id: step_id@, output: output@ },
            Err(e) => EventModel::StepFailed {
                step_id: step_id@,
                reason: devkitd_error_text(e@),
            },
        }),
{
    match report {
        Ok(output) => Event::StepCompleted { step_id: step_id.to_owned(), output },
        Err(e) => Event::StepFailed { step_id: step_id.to_owned(), reason: e.message() },
    }
}

/// Nanoseconds in a second.
pub const NANOS_PER_SEC: i128 = 1_000_000_000;

/// When a job that starts now has to be cancelled; never where it has no
/// timeout.
pub open spec fn deadline_after(now: Timestamp, timeout_seconds: Option<u64>, margin_secs: u64) -> Option<
    Timestamp,
> {
    match timeout_seconds {
        Some(s) => Some((now + (s + margin_secs) * NANOS_PER_SEC) as i128),
        None => None,
    }
}

/// Whether the deadline of a job that starts now can be counted.
pub open spec fn deadline_fits(now: Timestamp, timeout_seconds: Option<u64>, margin_secs: u64) -> bool {
    timeout_seconds matches Some(s) ==> now + (s + margin_secs) * NANOS_PER_SEC <= i128::MAX
}

/// Whether the deadline of a job that starts now can be counted.
pub fn is_deadline_countable(now: Timestamp, timeout_seconds: Option<u64>, margin_secs: u64) -> (r:
    bool)
    ensures
        r == deadline_fits(now, timeout_seconds, margin_secs),
{
    match timeout_seconds {
        Some(s) => {
            let secs: i128 = s as i128 + margin_secs as i128;
            let span: i128 = secs * NANOS_PER_SEC;
            now <= i128::MAX - span
        },
        None => true,
    }
}

/// When a job that starts now has to be cancelled: its timeout from now, and
/// the margin on top.
pub fn job_deadline(now: Timestamp, timeout_seconds: Option<u64>, margin_secs: u64) -> (r: Option<
    Timestamp,
>)
    requires
        deadline_fits(now, timeout_seconds, margin_secs),
    ensures
        r == deadline_after(now, timeout_seconds, margin_secs),
{
    match timeout_seconds {
        Some(s) => {
            let secs: i128 = s as i128 + margin_secs as i128;
            Some(now + secs * NANOS_PER_SEC)
        },
        None => None,
    }
}

/// The resolved input of an attempt at a step; empty where there is none.
pub open spec fn attempt_input(steps: Seq<StepRecordModel>, step_id: Seq<char>, attempt: u32) -> Seq<
    char,
>
    decreases steps.len(),
{
    if steps.len() == 0 {
        Seq::empty()
    } else if steps[0].run.step_id == step_id && steps[0].run.attempt == attempt {
        match steps[0].run.input_resolved {
            Some(t) => t,
            None => Seq::empty(),
        }
    } else {
        attempt_input(steps.drop_first(), step_id, attempt)
    }
}

fn input_of_attempt(record: &RunRecord, step_id: &str, attempt: u32) -> (r: String)
    ensures
        r@ == attempt_input(record@.steps, step_id@, attempt),
{
    let ghost all = record@.steps;
    let mut i: usize = 0;
    proof {
        assert(all.skip(0) =~= all);
    }
    while i < record.steps.len()
        invariant
            i <= record.steps@.len(),
            all == record@.steps,
            all == record.steps.deep_view(),
            attempt_input(all, step_id@, attempt) == attempt_input(
                all.skip(i as int),
                step_id@,
                attempt,
            ),
        decreases record.steps@.len() - i,
    {
        proof {
            assert(all.skip(i as int).drop_first() =~= all.skip(i + 1));
            assert(all[i as int] == record.steps@[i as int]@);
        }
        let step = &record.steps[i];
        if same_text(step.run.step_id.as_str(), step_id) && step.run.attempt == attempt {
            return match &step.run.input_resolved {
                Some(t) => t.clone(),
                None => String::new(),
            };
        }
        i = i + 1;
    }
    String::new()
}

/// The timeout with which a step's job is waited for again, or why it cannot
/// be.
pub open spec fn reattach_timeout(
    record: RunRecordModel,
    step_id: Seq<char>,
    attempt: u32,
    config: JobConfig,
) -> Result<Option<u64>, SchedulerErrorModel> {
    let flow = record.definition;
    match find_step(flow.steps, step_id) {
        None => Err(SchedulerErrorModel::Engine("reattach unknown step "@ + step_id)),
        Some(step) => match step_request(
            step,
            context_of(flow.steps, state_of(record), Json::Null),
            flow,
            attempt_input(record.steps, step_id, attempt),
            config,
        ) {
            Ok((_, _, timeout)) => Ok(timeout),
            Err(e) => Err(e),
        },
    }
}

/// Finds out how long the job of a step may take that is found again after a
/// restart. Its request has to be one that could be built anew.
pub fn reattach(record: &RunRecord, step_id: &str, attempt: u32, config: &SchedulerConfig) -> (r:
    Result<Option<u64>, SchedulerError>)
    ensures
        (match r {
            Ok(timeout) => Ok(timeout),
            Err(e) => Err(e@),
        }) == reattach_timeout(record@, step_id@, attempt, job_config(*config)),
{
    let flow = &record.definition;
    let step = match flow.step(step_id) {
        Some(s) => s,
        None => {
            return Err(SchedulerError::Engine(cat2("reattach unknown step ", step_id)));
        },
    };
    let state = record.run_state();
    let ctx = build_context(flow, &state, JsonValue::Null);
    let input = input_of_attempt(record, step_id, attempt);
    match build_step_request(step, &ctx, flow, input.as_str(), config) {
        Ok((_, _, timeout)) => Ok(timeout),
        Err(e) => Err(e),
    }
}

/// The event that a recovery action submits, with its run; none where nothing
/// is submitted.
pub open spec fn recovery_event_of(action: RecoveryActionModel) -> Option<(Seq<char>, EventModel)> {
    match action {
        RecoveryActionModel::FailStep { run_id, step_id, .. } => Some(
            (run_id, EventModel::StepFailed { step_id, reason: "interrupted"@ }),
        ),
        RecoveryActionModel::ReissueRunStarted { run_id } => Some((run_id, EventModel::RunStarted)),
        _ => None,
    }
}

/// The event that a recovery action submits. A step that waits for approval
/// goes on waiting, and a job is found again instead.
pub fn recovery_event(action: &RecoveryAction) -> (r: Option<(String, Event)>)
    ensures
        r.deep_view() == recovery_event_of(action@),
{
    match action {
        RecoveryAction::FailStep { run_id, step_id, .. } => Some(
            (
                run_id.clone(),
                Event::StepFailed {
                    step_id: step_id.clone(),
                    reason: "interrupted".to_owned(),
                },
            ),
        ),
        RecoveryAction::ReissueRunStarted { run_id } => Some((run_id.clone(), Event::RunStarted)),
        _ => None,
    }
}

/// When a run has to have ended: the flow's timeout after its creation; never
/// where the flow has none.
pub open spec fn deadline_of(record: RunRecordModel) -> Option<int> {
    match record.definition.timeout {
        Some(t) => match duration_of(t) {
            Some(n) => Some(record.created_at + n * NANOS_PER_SEC),
            None => None,
        },
        None => None,
    }
}

/// Whether the time until the deadline of a run can be counted.
pub open spec fn delay_fits(record: RunRecordModel, now: Timestamp) -> bool {
    deadline_of(record) matches Some(d) ==> d <= i128::MAX && d - now <= i128::MAX
}

/// Whether the time until the deadline of a run can be counted.
pub fn is_delay_countable(record: &RunRecord, now: Timestamp) -> (r: bool)
    ensures
        r == delay_fits(record@, now),
{
    match &record.definition.timeout {
        Some(t) => match parse_duration(t.as_str()) {
            Some(secs) => {
                let span: i128 = secs as i128 * NANOS_PER_SEC;
                if record.created_at > i128::MAX - span {
                    return false;
                }
                let deadline: i128 = record.created_at + span;
                now >= 0 || deadline <= i128::MAX + now
            },
            None => true,
        },
        None => true,
    }
}

/// How long to wait, from now, until the deadline of a run: no time where it
/// has passed.
pub fn deadline_delay(record: &RunRecord, now: Timestamp) -> (r: Option<Timestamp>)
    requires
        delay_fits(record@, now),
    ensures
        match deadline_of(record@) {
            Some(d) => r == Some((if d > now {
                d - now
            } else {
                0
            }) as i128),
            None => r is None,
        },
{
    match &record.definition.timeout {
        Some(t) => match parse_duration(t.as_str()) {
            Some(secs) => {
                let deadline: i128 = record.created_at + secs as i128 * NANOS_PER_SEC;
                if deadline > now {
                    Some(deadline - now)
                } else {
                    Some(0)
                }
            },
            None => None,
        },
        None => None,
    }
}

} // verus!
