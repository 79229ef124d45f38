//! What comes from the runner and goes to the platform: laws of the edges.
use crate::devkitd::{
    clamped, cut_text, decoded, default_retry_delays, finished_job, fitting, reply_step,
    sent_arguments, status_step, without_nulls, DevkitdClientConfig, EnvelopeModel, PollReply,
    PollStepModel,
};
use crate::graph::{lemma_sorted_ascends, lemma_sorted_names, sorted_names};
use crate::json::{entry_value, json_member, parsed_json, set_member_is_read, with_entry, Json};
use crate::platform::{
    events_of, grouped, highest, platform_trigger_of, pump_next, pump_start, run_ids_of,
    wire_event_of, without_slashes, PumpModel,
};
use crate::ports::{DevkitdErrorModel, StoredEventModel};
use crate::run::types::Timestamp;
use crate::template::rendered;
use crate::text::{begins, decimal};
use crate::wire::{byte_len, failure_of, summary_of};
use vstd::prelude::*;

verus! {

/// A job that is done succeeded exactly where its exit code is 0, and timed out
/// exactly where it is -2; with any other code it failed, and a code that a tool
/// can exit with is kept.
pub proof fn exit_code_decides(
    stdout: Seq<char>,
    stderr: Seq<char>,
    code: Option<i64>,
    max_kb: u64,
)
    ensures
        ({
            let end = finished_job(stdout, stderr, code, max_kb);
            &&& end is Succeeded <==> code == Some(0i64)
            &&& end == PollStepModel::Failed(DevkitdErrorModel::Timeout) <==> code == Some(-2i64)
            &&& end is Again ==> false
            &&& code is Some && (1 <= code->Some_0 <= 255 || code->Some_0 == -1) ==> end
                == PollStepModel::Failed(
                DevkitdErrorModel::ToolError {
                    stdout: cut_text(stdout, max_kb),
                    stderr: cut_text(stderr, max_kb),
                    exit_code: code->Some_0 as i32,
                },
            )
            &&& code != Some(0i64) && code != Some(-2i64) ==> is_tool_error(
                end,
                cut_text(stdout, max_kb),
            )
        }),
{
}

/// Whether a job ended with a failure of the tool that wrote this.
pub open spec fn is_tool_error(end: PollStepModel, written: Seq<char>) -> bool {
    match end {
        PollStepModel::Failed(DevkitdErrorModel::ToolError { stdout, .. }) => stdout == written,
        _ => false,
    }
}

/// The output of a job is the JSON value that it denotes or, where it denotes
/// none, the text; a text that is too long is cut instead.
pub proof fn output_is_read_as_json_or_text(raw: Seq<char>, max_kb: u64)
    requires
        max_kb * 1024 <= u32::MAX,
    ensures
        byte_len(raw) <= max_kb * 1024 ==> decoded(raw, max_kb) == (match parsed_json(raw) {
            Ok(v) => v,
            Err(_) => Json::Text(raw),
        }),
        byte_len(raw) > max_kb * 1024 ==> decoded(raw, max_kb) == Json::Text(cut_text(raw, max_kb)),
{
}

/// A text that fits is left as it is; of one that does not a part of the front
/// stays, as much as fits.
pub proof fn cut_text_keeps_the_front(raw: Seq<char>, max_kb: u64)
    requires
        max_kb * 1024 <= u32::MAX,
    ensures
        byte_len(raw) <= max_kb * 1024 ==> cut_text(raw, max_kb) == raw,
        byte_len(raw) > max_kb * 1024 ==> ({
            let kept = raw.take(fitting(raw, max_kb * 1024) as int);
            &&& begins(cut_text(raw, max_kb), kept)
            &&& vstd::utf8::encode_utf8(kept).len() <= max_kb * 1024
            &&& vstd::utf8::encode_utf8(raw.take(kept.len() as int + 1)).len() > max_kb * 1024
            &&& cut_text(raw, max_kb).len() > kept.len()
        }),
{
    crate::devkitd::cut_text_fits(raw, max_kb * 1024);
    if byte_len(raw) > max_kb * 1024 {
        let kept = raw.take(fitting(raw, max_kb * 1024) as int);
        assert(fitting(raw, max_kb * 1024) < raw.len()) by {
            assert(raw.take(raw.len() as int) =~= raw);
        }
        let out = cut_text(raw, max_kb);
        assert(out.take(kept.len() as int) =~= kept);
        reveal_strlit("…[truncated at ");
        assert("…[truncated at "@.len() > 0);
    }
}

/// A wait is as long as asked for, but never longer than what is left until the
/// deadline, and no time at all where that has passed.
pub proof fn waits_end_at_the_deadline(delay: int, deadline: Option<Timestamp>, now: Timestamp)
    requires
        delay >= 0,
    ensures
        0 <= clamped(delay, deadline, now) <= delay,
        deadline is None ==> clamped(delay, deadline, now) == delay,
        deadline matches Some(d) ==> {
            &&& d > now ==> now + clamped(delay, deadline, now) <= d
            &&& d <= now ==> clamped(delay, deadline, now) == 0
            &&& now + delay <= d ==> clamped(delay, deadline, now) == delay
            &&& d > now && now + delay > d ==> now + clamped(delay, deadline, now) == d
        },
{
}

/// A job that was cancelled has failed as cancelled; one that is neither
/// cancelled nor done is asked for again after the usual time.
pub proof fn job_is_asked_for_until_it_is_done(
    status: EnvelopeModel,
    poll_interval: int,
    max_kb: u64,
    deadline: Option<Timestamp>,
    now: Timestamp,
)
    ensures
        ({
            let step = status_step(status, poll_interval, max_kb, deadline, now);
            &&& status.state == "cancelled"@ ==> step == PollStepModel::Failed(
                DevkitdErrorModel::Cancelled,
            )
            &&& status.state != "cancelled"@ && status.state != "done"@ ==> step
                == (PollStepModel::Again {
                delay: clamped(poll_interval, deadline, now),
                failures: 0,
            })
            &&& status.state == "done"@ ==> step == finished_job(
                match status.stdout {
                    Some(t) => t,
                    None => Seq::empty(),
                },
                match status.stderr {
                    Some(t) => t,
                    None => Seq::empty(),
                },
                status.exit_code,
                max_kb,
            )
        }),
{
    reveal_strlit("cancelled");
    reveal_strlit("done");
    assert("cancelled"@.len() != "done"@.len());
}

/// While the runner cannot be reached it is asked again after each of the
/// delays in turn; a job that it does not know was interrupted; any other
/// failure is the job's.
pub proof fn answers_of_the_runner_are_taken(
    config: DevkitdClientConfig,
    failures: nat,
    deadline: Option<Timestamp>,
    now: Timestamp,
    reply: PollReply,
)
    ensures
        ({
            let step = reply_step(config, failures, deadline, now, reply);
            &&& reply is Unreachable && failures < config.poll_retry_delays@.len() ==> step
                == (PollStepModel::Again {
                delay: clamped(
                    config.poll_retry_delays@[failures as int] as int,
                    deadline,
                    now,
                ),
                failures: failures + 1,
            })
            &&& reply is UnknownJob ==> step == PollStepModel::Failed(
                DevkitdErrorModel::Interrupted,
            )
            &&& reply matches PollReply::Failed(e) ==> step == PollStepModel::Failed(e@)
            &&& reply is NoText || reply is Unreadable ==> is_tool_error(step, Seq::empty())
            &&& reply matches PollReply::Status(status) ==> step == status_step(
                status@,
                config.poll_interval as int,
                config.max_step_output_kb,
                deadline,
                now,
            )
        }),
{
}

/// Of the arguments of a request exactly those that are not `null` are sent.
pub proof fn arguments_that_are_not_null_are_sent(
    entries: Seq<(Seq<char>, Json)>,
    entry: (Seq<char>, Json),
)
    ensures
        without_nulls(entries).contains(entry) <==> entries.contains(entry) && entry.1
            != Json::Null,
    decreases entries.len(),
{
    let all = without_nulls(entries);
    if entries.len() > 0 {
        let rest = entries.drop_last();
        let last = entries.last();
        let before = without_nulls(rest);
        arguments_that_are_not_null_are_sent(rest, entry);
        assert(entries[entries.len() - 1] == last);
        if rest.contains(entry) {
            assert(entries[rest.index_of(entry)] == entry);
        }
        if entries.contains(entry) {
            let k = entries.index_of(entry);
            if k < rest.len() {
                assert(rest[k] == entry);
            }
        }
        if before.contains(entry) {
            assert(all[before.index_of(entry)] == entry);
        }
        if last.1 != Json::Null {
            assert(all[before.len() as int] == last);
        }
        if all.contains(entry) {
            let k = all.index_of(entry);
            if k < before.len() {
                assert(before[k] == entry);
            }
        }
    }
}

/// The timeout of a job is sent along, in seconds and as a text; without one
/// nothing is added. What is no object is sent as a value.
pub proof fn timeout_is_sent_along(args: Json, timeout: u64, key: Seq<char>)
    ensures
        entry_value(sent_arguments(args, Some(timeout)), "_timeout_seconds"@) == Some(
            Json::Text(decimal(timeout as nat)),
        ),
        key != "_timeout_seconds"@ ==> entry_value(sent_arguments(args, Some(timeout)), key)
            == entry_value(sent_arguments(args, None), key),
        args matches Json::Object(entries) ==> sent_arguments(args, None) == without_nulls(entries),
        args is Null ==> sent_arguments(args, None).len() == 0,
        !(args is Object) && !(args is Null) ==> entry_value(sent_arguments(args, None), "value"@)
            == Some(args),
{
    let given = sent_arguments(args, None);
    set_member_is_read(
        given,
        "_timeout_seconds"@,
        Json::Text(decimal(timeout as nat)),
        "_timeout_seconds"@,
    );
    set_member_is_read(given, "_timeout_seconds"@, Json::Text(decimal(timeout as nat)), key);
}

/// What a tool said and its exit code are kept with its failure; a failure of
/// another kind has neither.
pub proof fn failure_keeps_what_the_tool_said(e: DevkitdErrorModel, other: DevkitdErrorModel)
    ensures
        match e {
            DevkitdErrorModel::ToolError { stdout, stderr, exit_code } => {
                &&& failure_of(e).stdout == Some(stdout)
                &&& failure_of(e).stderr == Some(stderr)
                &&& failure_of(e).exit_code == Some(exit_code)
            },
            _ => {
                &&& failure_of(e).stdout is None
                &&& failure_of(e).stderr is None
                &&& failure_of(e).exit_code is None
            },
        },
        failure_of(e) == failure_of(other) ==> e == other,
        failure_of(DevkitdErrorModel::Timeout).kind == "timeout"@,
        failure_of(DevkitdErrorModel::Interrupted).kind == "interrupted"@,
        failure_of(DevkitdErrorModel::Cancelled).kind == "cancelled"@,
        failure_of(DevkitdErrorModel::Unreachable).kind == "unreachable"@,
{
    reveal_strlit("tool_error");
    reveal_strlit("timeout");
    reveal_strlit("interrupted");
    reveal_strlit("cancelled");
    reveal_strlit("unreachable");
    assert("timeout"@.len() == 7 && "interrupted"@.len() == 11 && "cancelled"@.len() == 9
        && "unreachable"@.len() == 11);
    assert("interrupted"@[0] == 'i' && "unreachable"@[0] == 'u');
}

/// A summary is the front of what the value is rendered as, with the size of
/// the whole.
pub proof fn summary_shows_the_front(value: Json, max_chars: nat)
    ensures
        ({
            let text = rendered(value);
            let n = if text.len() < max_chars {
                text.len()
            } else {
                max_chars
            };
            &&& begins(summary_of(value, max_chars).text, text.take(n as int))
            &&& summary_of(value, max_chars).bytes == byte_len(text)
        }),
{
    let text = rendered(value);
    let n = if text.len() < max_chars {
        text.len()
    } else {
        max_chars
    };
    let shown = summary_of(value, max_chars).text;
    assert(shown.take(n as int) =~= text.take(n as int));
}

/// The events of a run are all those that are listed under it, in the order in
/// which they are listed.
pub proof fn events_of_a_run_are_picked(
    a: Seq<(Seq<char>, StoredEventModel)>,
    x: (Seq<char>, StoredEventModel),
    b: Seq<(Seq<char>, StoredEventModel)>,
    id: Seq<char>,
)
    ensures
        events_of(a.push(x) + b, id) == (if x.0 == id {
            events_of(a, id).push(x.1) + events_of(b, id)
        } else {
            events_of(a, id) + events_of(b, id)
        }),
        events_of(Seq::empty(), id).len() == 0,
{
    lemma_events_sum(a.push(x), b, id);
    assert(a.push(x).drop_last() =~= a);
}

proof fn lemma_events_sum(
    a: Seq<(Seq<char>, StoredEventModel)>,
    b: Seq<(Seq<char>, StoredEventModel)>,
    id: Seq<char>,
)
    ensures
        events_of(a + b, id) == events_of(a, id) + events_of(b, id),
    decreases b.len(),
{
    let all = a + b;
    if b.len() == 0 {
        assert(all =~= a);
        assert(events_of(a, id) + events_of(b, id) =~= events_of(a, id));
    } else {
        assert(all.drop_last() =~= a + b.drop_last());
        lemma_events_sum(a, b.drop_last(), id);
        assert(events_of(all, id) =~= events_of(a, id) + events_of(b, id));
    }
}

/// Events are grouped run by run: every run that has any, once, in the order of
/// the ids, with all of its events.
pub proof fn groups_are_the_runs(events: Seq<(Seq<char>, StoredEventModel)>, k: int, g: int)
    ensures
        0 <= k < events.len() ==> exists|i: int|
            0 <= i < grouped(events).len() && (#[trigger] grouped(events)[i]).0 == events[k].0,
        0 <= g < grouped(events).len() ==> {
            let (id, list) = grouped(events)[g];
            &&& list == events_of(events, id)
            &&& exists|j: int| 0 <= j < events.len() && (#[trigger] events[j]).0 == id
        },
        forall|i: int, j: int|
            0 <= i < j < grouped(events).len() ==> (#[trigger] grouped(events)[i]).0 != (
            #[trigger] grouped(events)[j]).0,
{
    let names = run_ids_of(events);
    let ids = sorted_names(names);
    lemma_sorted_names(names);
    lemma_sorted_ascends(names);
    if 0 <= k < events.len() {
        assert(names[k] == events[k].0);
        assert(ids.contains(events[k].0));
        let i = ids.index_of(events[k].0);
        assert(grouped(events)[i].0 == events[k].0);
    }
    if 0 <= g < grouped(events).len() {
        assert(ids.contains(ids[g]));
        let j = names.index_of(ids[g]);
        assert(events[j].0 == ids[g]);
    }
    assert forall|i: int, j: int| 0 <= i < j < grouped(events).len() implies (
    #[trigger] grouped(events)[i]).0 != (#[trigger] grouped(events)[j]).0 by {
        assert(ids[i] != ids[j]);
    }
}

/// The highest number among events is that of one of them; there is none only
/// where there are no events.
pub proof fn highest_is_one_of_them(events: Seq<StoredEventModel>)
    ensures
        highest(events) is None <==> events.len() == 0,
        highest(events) matches Some(n) ==> exists|i: int|
            0 <= i < events.len() && (#[trigger] events[i]).sequence == n,
    decreases events.len(),
{
    if events.len() > 0 {
        let rest = events.drop_last();
        highest_is_one_of_them(rest);
        assert(events[events.len() - 1] == events.last());
        if let Some(n) = highest(rest) {
            let i = choose|i: int| 0 <= i < rest.len() && (#[trigger] rest[i]).sequence == n;
            assert(events[i].sequence == n);
        }
    }
}

/// An event reaches the platform with its number, its step, its time and what it
/// says; `null` is nothing to say.
pub proof fn event_reaches_the_platform_whole(e: StoredEventModel)
    ensures
        wire_event_of(e).sequence == e.sequence,
        wire_event_of(e).step_id == e.step_id,
        wire_event_of(e).timestamp.0 == e.timestamp,
        wire_event_of(e).payload is None <==> e.payload is Null,
        wire_event_of(e).payload matches Some(v) ==> v == e.payload,
        crate::names::event_type_named(wire_event_of(e).event_type) == Some(e.event_type),
{
    crate::names::event_type_name_reads_back(e.event_type);
}

/// A run that the platform asked for says so, and for which of its runs.
pub proof fn trigger_names_the_platform_run(id: Seq<char>)
    ensures
        json_member(platform_trigger_of(id), "source"@) == Some(Json::Text("platform"@)),
        json_member(platform_trigger_of(id), "platform_run_id"@) == Some(Json::Text(id)),
{
    let none = Seq::<(Seq<char>, Json)>::empty();
    let a = with_entry(none, "source"@, Json::Text("platform"@));
    reveal_strlit("source");
    reveal_strlit("platform_run_id");
    assert("source"@.len() != "platform_run_id"@.len());
    set_member_is_read(none, "source"@, Json::Text("platform"@), "source"@);
    set_member_is_read(a, "platform_run_id"@, Json::Text(id), "source"@);
    set_member_is_read(a, "platform_run_id"@, Json::Text(id), "platform_run_id"@);
}

/// Only slashes are taken off an address, at its end, and all of them.
pub proof fn slashes_are_taken_off(s: Seq<char>, slashes: Seq<char>)
    requires
        s.len() > 0 ==> s.last() != '/',
        forall|i: int| 0 <= i < slashes.len() ==> #[trigger] slashes[i] == '/',
    ensures
        without_slashes(s + slashes) == s,
    decreases slashes.len(),
{
    let all = s + slashes;
    if slashes.len() == 0 {
        assert(all =~= s);
    } else {
        assert(slashes[slashes.len() - 1] == '/');
        assert(all.drop_last() =~= s + slashes.drop_last());
        slashes_are_taken_off(s, slashes.drop_last());
    }
}

/// The events of a run with a key of the platform are pushed to the platform's
/// run; those of any other run are marked at once.
pub proof fn only_runs_of_the_platform_are_pushed(id: Seq<char>, key: Seq<char>)
    ensures
        pump_start(Some("platform:"@ + id)) == PumpModel::PushEvents(id),
        !begins(key, "platform:"@) ==> pump_start(Some(key)) == PumpModel::Mark,
        pump_start(None) == PumpModel::Mark,
{
    crate::use_cases::queries::platform_id_reads_back(id);
}

/// Without other settings a runner that cannot be reached is asked six times
/// more, after a second, and then each time after up to twice as long.
pub proof fn default_delays_grow(i: int)
    ensures
        default_retry_delays().len() == 6,
        default_retry_delays()[0] == 1_000_000_000,
        0 <= i < 5 ==> default_retry_delays()[i] < default_retry_delays()[i + 1] <= 2
            * default_retry_delays()[i],
        default_retry_delays()[5] == 30_000_000_000,
{
    let d = default_retry_delays();
    assert(d[0] == 1_000_000_000 && d[1] == 2_000_000_000 && d[2] == 4_000_000_000 && d[3]
        == 8_000_000_000 && d[4] == 16_000_000_000 && d[5] == 30_000_000_000);
}

/// After its events the state of the same run is pushed; a push that did not
/// come through ends the turn.
pub proof fn state_follows_the_events(id: Seq<char>, state: PumpModel)
    ensures
        pump_next(PumpModel::PushEvents(id), true) == PumpModel::PushState(id),
        pump_next(state, false) == PumpModel::Stop,
        pump_next(PumpModel::Mark, true) == PumpModel::Stop,
{
}

} // verus!
