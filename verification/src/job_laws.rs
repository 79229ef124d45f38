//! What a step's job and a hook's job are given: laws of their arguments.
use crate::flow::schema::duration_of;
use crate::flow::types::{
    find_step, step_kind, CliModel, FlowDefaultsModel, HookModel, StepWithModel,
};
use crate::json::{entry_value, json_member, set_member_is_read, with_entry, Json};
use crate::ports::{
    state_of, DevkitdErrorModel, RunRecordModel, SchedulerConfig, StartRequestModel,
    StepRecordModel,
};
use crate::run::types::{ActivationModel, StepStatus, Timestamp};
use crate::scheduler::{
    attempt_input, cli_arguments, deadline_fits, delay_fits, hook_job, job_config, reattach_timeout,
    started_record, step_start, with_default, with_entries, with_optional, JobConfig,
};
use crate::template::{
    context_of, resolved_entries, resolved_value, template_error_text, ContextModel,
    TemplateErrorModel,
};
use crate::template_laws::every_entry_is_resolved;
use vstd::prelude::*;

verus! {

/// Whether no two entries have the same key.
pub open spec fn keys_distinct(entries: Seq<(Seq<char>, Json)>) -> bool {
    forall|i: int, j: int|
        0 <= i < j < entries.len() ==> (#[trigger] entries[i]).0 != (#[trigger] entries[j]).0
}

/// The last entry of a key that is added counts; a key that is not added stays
/// as it was.
pub proof fn added_entries_win(
    entries: Seq<(Seq<char>, Json)>,
    more: Seq<(Seq<char>, Json)>,
    key: Seq<char>,
)
    ensures
        (forall|i: int| 0 <= i < more.len() ==> (#[trigger] more[i]).0 != key) ==> entry_value(
            with_entries(entries, more),
            key,
        ) == entry_value(entries, key),
        forall|i: int|
            0 <= i < more.len() && (#[trigger] more[i]).0 == key && (forall|j: int|
                i < j < more.len() ==> (#[trigger] more[j]).0 != key) ==> entry_value(
                with_entries(entries, more),
                key,
            ) == Some(more[i].1),
    decreases more.len(),
{
    if more.len() > 0 {
        let rest = more.drop_last();
        let last = more.last();
        added_entries_win(entries, rest, key);
        set_member_is_read(with_entries(entries, rest), last.0, last.1, key);
        assert(more[more.len() - 1] == last);
        if forall|i: int| 0 <= i < more.len() ==> (#[trigger] more[i]).0 != key {
            assert forall|i: int| 0 <= i < rest.len() implies (#[trigger] rest[i]).0 != key by {
                assert(more[i].0 != key);
            }
        }
        assert forall|i: int|
            0 <= i < more.len() && (#[trigger] more[i]).0 == key && (forall|j: int|
                i < j < more.len() ==> (#[trigger] more[j]).0 != key) implies entry_value(
            with_entries(entries, more),
            key,
        ) == Some(more[i].1) by {
            if i < rest.len() {
                assert(rest[i].0 == key);
                assert(more[more.len() - 1].0 != key);
                assert forall|j: int| i < j < rest.len() implies (#[trigger] rest[j]).0 != key by {
                    assert(more[j].0 != key);
                }
            }
        }
    }
}

spec fn text_of(t: Option<Seq<char>>) -> Option<Json> {
    match t {
        Some(s) => Some(Json::Text(s)),
        None => None,
    }
}

/// What is declared for an argument of a cli step: what its `with` block says;
/// for `provider` and `model`, where the block says nothing, the flow's default.
pub open spec fn declared_argument(
    with: CliModel,
    defaults: FlowDefaultsModel,
    key: Seq<char>,
) -> Option<Json> {
    let named = if key == "cli"@ {
        Some(with.cli)
    } else if key == "role"@ {
        with.role
    } else if key == "output"@ {
        with.output
    } else if key == "provider"@ {
        defaults.provider
    } else if key == "model"@ {
        defaults.model
    } else {
        None
    };
    match entry_value(with.extra, key) {
        Some(v) => Some(v),
        None => match named {
            Some(t) => Some(Json::Text(t)),
            None => None,
        },
    }
}

proof fn lemma_optional(
    entries: Seq<(Seq<char>, Json)>,
    key: Seq<char>,
    value: Option<Seq<char>>,
    other: Seq<char>,
)
    ensures
        entry_value(with_optional(entries, key, value), other) == (if other == key && value is Some {
            text_of(value)
        } else {
            entry_value(entries, other)
        }),
        entry_value(with_default(entries, key, value), other) == (if other == key && value is Some
            && entry_value(entries, key) is None {
            text_of(value)
        } else {
            entry_value(entries, other)
        }),
{
    if let Some(t) = value {
        set_member_is_read(entries, key, Json::Text(t), other);
    }
}

proof fn lemma_names()
    ensures
        "cli"@ != "role"@,
        "cli"@ != "output"@,
        "cli"@ != "provider"@,
        "cli"@ != "model"@,
        "role"@ != "output"@,
        "role"@ != "provider"@,
        "role"@ != "model"@,
        "output"@ != "provider"@,
        "output"@ != "model"@,
        "provider"@ != "model"@,
        "input"@ != "step"@,
        "input"@ != "flow"@,
        "step"@ != "flow"@,
{
    reveal_strlit("cli");
    reveal_strlit("role");
    reveal_strlit("output");
    reveal_strlit("provider");
    reveal_strlit("model");
    reveal_strlit("input");
    reveal_strlit("step");
    reveal_strlit("flow");
    assert("cli"@.len() == 3 && "role"@.len() == 4 && "output"@.len() == 6 && "provider"@.len()
        == 8 && "model"@.len() == 5 && "input"@.len() == 5 && "step"@.len() == 4 && "flow"@.len()
        == 4);
    assert("step"@[0] == 's' && "flow"@[0] == 'f');
}

proof fn lemma_member_at(entries: Seq<(Seq<char>, Json)>, key: Seq<char>)
    ensures
        entry_value(entries, key) is Some ==> exists|i: int|
            0 <= i < entries.len() && (#[trigger] entries[i]).0 == key && entry_value(entries, key)
                == Some(entries[i].1),
        entry_value(entries, key) is None ==> forall|i: int|
            0 <= i < entries.len() ==> (#[trigger] entries[i]).0 != key,
    decreases entries.len(),
{
    if entries.len() > 0 {
        if entries[0].0 == key {
        } else {
            let rest = entries.drop_first();
            lemma_member_at(rest, key);
            if entry_value(rest, key) is Some {
                let i = choose|i: int|
                    0 <= i < rest.len() && (#[trigger] rest[i]).0 == key && entry_value(rest, key)
                        == Some(rest[i].1);
                assert(entries[i + 1] == rest[i]);
            } else {
                assert forall|i: int| 0 <= i < entries.len() implies (#[trigger] entries[i]).0
                    != key by {
                    if i > 0 {
                        assert(rest[i - 1].0 != key);
                    }
                }
            }
        }
    }
}

proof fn lemma_extra(
    entries: Seq<(Seq<char>, Json)>,
    more: Seq<(Seq<char>, Json)>,
    key: Seq<char>,
)
    requires
        keys_distinct(more),
    ensures
        entry_value(with_entries(entries, more), key) == (match entry_value(more, key) {
            Some(v) => Some(v),
            None => entry_value(entries, key),
        }),
{
    added_entries_win(entries, more, key);
    lemma_member_at(more, key);
    if entry_value(more, key) is Some {
        let i = choose|i: int|
            0 <= i < more.len() && (#[trigger] more[i]).0 == key && entry_value(more, key) == Some(
                more[i].1,
            );
        assert forall|j: int| i < j < more.len() implies (#[trigger] more[j]).0 != key by {
            assert(more[i].0 != more[j].0);
        }
    }
}

/// The arguments of a cli step, before its templates are resolved, are those
/// that are declared for it.
pub proof fn arguments_are_the_declared_ones(
    with: CliModel,
    defaults: FlowDefaultsModel,
    key: Seq<char>,
)
    requires
        keys_distinct(with.extra),
    ensures
        entry_value(cli_arguments(with, defaults), key) == declared_argument(with, defaults, key),
{
    lemma_names();
    let none = Seq::<(Seq<char>, Json)>::empty();
    let a = with_entry(none, "cli"@, Json::Text(with.cli));
    let b = with_optional(a, "role"@, with.role);
    let c = with_optional(b, "output"@, with.output);
    let d = with_entries(c, with.extra);
    let e = with_default(d, "cli"@, defaults.cli);
    let f = with_default(e, "provider"@, defaults.provider);
    set_member_is_read(none, "cli"@, Json::Text(with.cli), key);
    lemma_optional(a, "role"@, with.role, key);
    lemma_optional(b, "output"@, with.output, key);
    lemma_extra(c, with.extra, key);
    lemma_optional(d, "cli"@, defaults.cli, key);
    lemma_optional(e, "provider"@, defaults.provider, key);
    lemma_optional(f, "model"@, defaults.model, key);
    assert(entry_value(none, key) is None);
    // The step's own `cli` is always there, so that no default takes its place.
    set_member_is_read(none, "cli"@, Json::Text(with.cli), "cli"@);
    lemma_optional(a, "role"@, with.role, "cli"@);
    lemma_optional(b, "output"@, with.output, "cli"@);
    lemma_extra(c, with.extra, "cli"@);
}

proof fn lemma_pointwise(
    a: Seq<(Seq<char>, Json)>,
    b: Seq<(Seq<char>, Json)>,
    ctx: ContextModel,
    step: Seq<char>,
    key: Seq<char>,
)
    requires
        a.len() == b.len(),
        forall|i: int|
            0 <= i < a.len() ==> (#[trigger] a[i]).0 == b[i].0 && resolved_value(a[i].1, ctx, step)
                == Ok::<Json, TemplateErrorModel>(b[i].1),
    ensures
        match (entry_value(a, key), entry_value(b, key)) {
            (Some(x), Some(y)) => resolved_value(x, ctx, step) == Ok::<Json, TemplateErrorModel>(y),
            (None, None) => true,
            _ => false,
        },
    decreases a.len(),
{
    if a.len() > 0 {
        assert(a[0].0 == b[0].0);
        let x = a.drop_first();
        let y = b.drop_first();
        assert forall|i: int| 0 <= i < x.len() implies (#[trigger] x[i]).0 == y[i].0
            && resolved_value(x[i].1, ctx, step) == Ok::<Json, TemplateErrorModel>(y[i].1) by {
            assert(a[i + 1].0 == b[i + 1].0);
        }
        lemma_pointwise(x, y, ctx, step, key);
    }
}

/// In an object whose templates are resolved every member is the one that was
/// there, resolved, and there are no others.
pub proof fn members_are_resolved(v: Json, ctx: ContextModel, step: Seq<char>, key: Seq<char>)
    requires
        v is Object,
    ensures
        resolved_value(v, ctx, step) matches Ok(done) ==> match (
            json_member(v, key),
            json_member(done, key),
        ) {
            (Some(x), Some(y)) => resolved_value(x, ctx, step) == Ok::<Json, TemplateErrorModel>(y),
            (None, None) => true,
            _ => false,
        },
{
    if let Ok(done) = resolved_value(v, ctx, step) {
        let a = v->Object_0;
        let b = done->Object_0;
        if a.len() > 0 {
            every_entry_is_resolved(a, ctx, step, 0);
        } else {
            assert(resolved_entries(a, ctx, step) == Ok::<
                Seq<(Seq<char>, Json)>,
                TemplateErrorModel,
            >(Seq::empty()));
        }
        assert forall|i: int| 0 <= i < a.len() implies (#[trigger] a[i]).0 == b[i].0
            && resolved_value(a[i].1, ctx, step) == Ok::<Json, TemplateErrorModel>(b[i].1) by {
            every_entry_is_resolved(a, ctx, step, i);
        }
        lemma_pointwise(a, b, ctx, step, key);
    }
}

/// The seconds that a text says, or a default where there is none that can be
/// read.
pub open spec fn seconds_or(text: Option<Seq<char>>, default: int) -> int {
    match text {
        Some(t) => match duration_of(t) {
            Some(n) => n as int,
            None => default,
        },
        None => default,
    }
}

/// The job of a step is a call of the configured tool, with the names of the
/// step and of the flow, the input, and every declared argument resolved against
/// the run; no other argument is given. Its timeout is the one that the step
/// declares, or the configured one. The record of the attempt says the same.
pub proof fn job_gets_what_is_declared(
    record: RunRecordModel,
    activation: ActivationModel,
    now: Timestamp,
    config: JobConfig,
    with: CliModel,
    key: Seq<char>,
)
    requires
        find_step(record.definition.steps, activation.step_id) matches Some(step) && (step_kind(
            step,
        ) matches Some(StepWithModel::Cli(w)) && w == with),
        keys_distinct(with.extra),
    ensures
        step_start(record, activation, now, config) matches Ok((inserted, request)) ==> {
            let flow = record.definition;
            let step = find_step(flow.steps, activation.step_id)->Some_0;
            let ctx = context_of(flow.steps, state_of(record), Json::Null);
            &&& request.tool == config.executor_cli_tool
            &&& request.timeout_seconds matches Some(n) && n == seconds_or(
                step.timeout,
                config.default_step_timeout_secs as int,
            )
            &&& json_member(request.args, "step"@) == Some(Json::Text(activation.step_id))
            &&& json_member(request.args, "flow"@) == Some(Json::Text(flow.name))
            &&& json_member(request.args, "input"@) == Some(Json::Text(activation.input))
            &&& key != "step"@ && key != "flow"@ && key != "input"@ ==> match (
                declared_argument(with, flow.defaults, key),
                json_member(request.args, key),
            ) {
                (Some(x), Some(y)) => resolved_value(x, ctx, step.id) == Ok::<
                    Json,
                    TemplateErrorModel,
                >(y),
                (None, None) => true,
                _ => false,
            }
            &&& inserted.run.step_id == activation.step_id
            &&& inserted.run.attempt == activation.attempt
            &&& inserted.run.status == StepStatus::Running
            &&& inserted.run.started_at == Some(now)
            &&& inserted.run.completed_at is None
            &&& inserted.run.output is None
            &&& inserted.run.input_resolved == Some(activation.input)
            &&& inserted.job_id is None
            &&& inserted.with_resolved matches Some(args) && (key != "step"@ && key != "flow"@
                ==> json_member(args, key) == json_member(request.args, key))
        },
{
    lemma_names();
    let flow = record.definition;
    let step = find_step(flow.steps, activation.step_id)->Some_0;
    let ctx = context_of(flow.steps, state_of(record), Json::Null);
    let declared = Json::Object(cli_arguments(with, flow.defaults));
    if let Ok(done) = resolved_value(declared, ctx, step.id) {
        arguments_are_the_declared_ones(with, flow.defaults, key);
        members_are_resolved(declared, ctx, step.id, key);
        let entries = done->Object_0;
        let text = Json::Text(activation.input);
        let a = with_entry(entries, "input"@, text);
        let b = with_entry(a, "step"@, Json::Text(activation.step_id));
        set_member_is_read(entries, "input"@, text, key);
        set_member_is_read(a, "step"@, Json::Text(activation.step_id), key);
        set_member_is_read(b, "flow"@, Json::Text(flow.name), key);
        set_member_is_read(entries, "input"@, text, "input"@);
        set_member_is_read(a, "step"@, Json::Text(activation.step_id), "input"@);
        set_member_is_read(b, "flow"@, Json::Text(flow.name), "input"@);
        set_member_is_read(a, "step"@, Json::Text(activation.step_id), "step"@);
        set_member_is_read(b, "flow"@, Json::Text(flow.name), "step"@);
        set_member_is_read(b, "flow"@, Json::Text(flow.name), "flow"@);
        lemma_duration_fits(step.timeout);
    }
}

proof fn lemma_duration_fits(text: Option<Seq<char>>)
    ensures
        text matches Some(t) ==> (duration_of(t) matches Some(n) ==> n <= u64::MAX),
{
}

/// The job of a hook is a call of the hook's tool, with each of its arguments
/// resolved against the run and no others; its timeout is the declared one.
pub proof fn hook_gets_its_arguments(record: RunRecordModel, hook: HookModel, key: Seq<char>)
    requires
        keys_distinct(hook.args),
    ensures
        hook_job(record, hook) matches Ok(request) ==> {
            let ctx = context_of(record.definition.steps, state_of(record), Json::Null);
            &&& request.tool == hook.hook
            &&& match (hook.timeout, request.timeout_seconds) {
                (Some(t), Some(n)) => duration_of(t) == Some(n as nat),
                (Some(t), None) => duration_of(t) is None,
                (None, n) => n is None,
            }
            &&& match (entry_value(hook.args, key), json_member(request.args, key)) {
                (Some(x), Some(y)) => resolved_value(x, ctx, hook.hook) == Ok::<
                    Json,
                    TemplateErrorModel,
                >(y),
                (None, None) => true,
                _ => false,
            }
        },
{
    let ctx = context_of(record.definition.steps, state_of(record), Json::Null);
    let none = Seq::<(Seq<char>, Json)>::empty();
    let declared = Json::Object(with_entries(none, hook.args));
    lemma_extra(none, hook.args, key);
    members_are_resolved(declared, ctx, hook.hook, key);
    lemma_duration_fits(hook.timeout);
    assert(entry_value(none, key) is None);
}

/// The input of an attempt is the one that was recorded when it started.
pub proof fn recorded_input_is_found(steps: Seq<StepRecordModel>, i: int)
    requires
        0 <= i < steps.len(),
        forall|j: int|
            0 <= j < i ==> (#[trigger] steps[j]).run.step_id != steps[i].run.step_id
                || steps[j].run.attempt != steps[i].run.attempt,
    ensures
        attempt_input(steps, steps[i].run.step_id, steps[i].run.attempt) == (
        match steps[i].run.input_resolved {
            Some(t) => t,
            None => Seq::empty(),
        }),
    decreases i,
{
    if i > 0 {
        let rest = steps.drop_first();
        assert(steps[0].run.step_id != steps[i].run.step_id || steps[0].run.attempt
            != steps[i].run.attempt);
        assert forall|j: int| 0 <= j < i - 1 implies (#[trigger] rest[j]).run.step_id != rest[i
            - 1].run.step_id || rest[j].run.attempt != rest[i - 1].run.attempt by {
            assert(steps[j + 1] == rest[j]);
        }
        recorded_input_is_found(rest, i - 1);
    }
}

/// A job that is found again after a restart may take as long as the step says,
/// or as is configured.
pub proof fn found_job_keeps_its_timeout(
    record: RunRecordModel,
    step_id: Seq<char>,
    attempt: u32,
    config: JobConfig,
)
    ensures
        reattach_timeout(record, step_id, attempt, config) matches Ok(timeout) ==> (find_step(
            record.definition.steps,
            step_id,
        ) matches Some(step) && (timeout matches Some(n) && n == seconds_or(
            step.timeout,
            config.default_step_timeout_secs as int,
        ))),
        find_step(record.definition.steps, step_id) is None ==> reattach_timeout(
            record,
            step_id,
            attempt,
            config,
        ) is Err,
{
    if let Some(step) = find_step(record.definition.steps, step_id) {
        lemma_duration_fits(step.timeout);
    }
}

/// The configured tool and timeout are those that jobs get.
pub proof fn configuration_reaches_the_jobs(config: SchedulerConfig)
    ensures
        job_config(config).executor_cli_tool == config.executor_cli_tool@,
        job_config(config).default_step_timeout_secs == config.default_step_timeout_secs,
{
}

/// A deadline can be counted as long as it lies before the end of time.
pub proof fn deadlines_can_be_counted(
    now: Timestamp,
    timeout: Option<u64>,
    margin: u64,
    record: RunRecordModel,
)
    requires
        0 <= now <= 0x1_0000_0000_0000_0000_0000_0000,
        0 <= record.created_at <= 0x1_0000_0000_0000_0000_0000_0000,
    ensures
        deadline_fits(now, timeout, margin),
        delay_fits(record, now),
{
    if let Some(t) = record.definition.timeout {
        lemma_duration_fits(Some(t));
    }
}

/// A hook whose arguments cannot be resolved is a failure of its tool that says
/// why; nothing is started for it.
pub proof fn unresolvable_hook_fails(record: RunRecordModel, hook: HookModel)
    ensures
        resolved_value(
            Json::Object(with_entries(Seq::empty(), hook.args)),
            context_of(record.definition.steps, state_of(record), Json::Null),
            hook.hook,
        ) matches Err(e) ==> hook_job(record, hook) == Err::<StartRequestModel, DevkitdErrorModel>(
            DevkitdErrorModel::ToolError {
                stdout: Seq::empty(),
                stderr: template_error_text(e),
                exit_code: 1,
            },
        ),
{
}

/// An attempt that is started runs from now on, with the input and the arguments
/// that it was given; nothing has come of it yet.
pub proof fn started_attempt_runs(
    step_id: Seq<char>,
    attempt: u32,
    now: Timestamp,
    input: Option<Seq<char>>,
    with_resolved: Option<Json>,
)
    ensures
        ({
            let s = started_record(step_id, attempt, now, input, with_resolved);
            &&& s.run.step_id == step_id
            &&& s.run.attempt == attempt
            &&& s.run.status == StepStatus::Running
            &&& s.run.started_at == Some(now)
            &&& s.run.completed_at is None
            &&& s.run.input_resolved == input
            &&& s.with_resolved == with_resolved
            &&& s.run.output is None && s.run.failure_reason is None && s.failure_detail is None
            &&& s.run.approval_status is None && s.run.feedback is None
            &&& s.run.approval_comment is None && s.run.child_run_id is None && s.job_id is None
        }),
{
}

} // verus!
