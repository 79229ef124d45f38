//! Talking to the job runner: what is sent, how replies are read, and when to
//! ask again or to give up.
use crate::copy::{put, Duplicate};
use crate::json::{
    lemma_object_view, parse_json, parsed_json, set_entry, with_entry, Json, JsonValue,
};
use crate::ports::{DevkitdError, DevkitdErrorModel, JobHandle};
use crate::run::types::Timestamp;
use crate::text::{
    cat2, cat3, chars_of, decimal, decimal_text, same_text, signed_decimal, signed_text, string_of,
};
use crate::wire::byte_len;
use vstd::prelude::*;
use vstd::slice::slice_subrange;

verus! {

/// How the job runner is reached. Times are in nanoseconds.
#[derive(Debug)]
pub struct DevkitdClientConfig {
    /// The whole address, with `/mcp`.
    pub url: String,
    /// The bearer token, without `Bearer `.
    pub auth_token: Option<String>,
    /// How long to wait between two questions for the status of a job.
    pub poll_interval: i128,
    /// How much of an output is kept, in kilobytes.
    pub max_step_output_kb: u64,
    /// How long to wait after each failure in a row to reach the runner. After
    /// the last of them it counts as unreachable.
    pub poll_retry_delays: Vec<i128>,
}

/// How long to wait after each failure in a row, where nothing else is set: 1,
/// 2, 4, 8, 16 and 30 seconds.
pub open spec fn default_retry_delays() -> Seq<i128> {
    seq![
        1_000_000_000i128,
        2_000_000_000i128,
        4_000_000_000i128,
        8_000_000_000i128,
        16_000_000_000i128,
        30_000_000_000i128,
    ]
}

impl DevkitdClientConfig {
    /// The defaults: a status every 5 seconds, 256 kilobytes of output, and
    /// retries after 1, 2, 4, 8, 16 and 30 seconds.
    pub fn new(url: String) -> (r: Self)
        ensures
            r.url == url,
            r.auth_token is None,
            r.poll_interval == 5_000_000_000,
            r.max_step_output_kb == 256,
            r.poll_retry_delays@ == default_retry_delays(),
    {
        let mut poll_retry_delays: Vec<i128> = Vec::new();
        poll_retry_delays.push(1_000_000_000);
        poll_retry_delays.push(2_000_000_000);
        poll_retry_delays.push(4_000_000_000);
        poll_retry_delays.push(8_000_000_000);
        poll_retry_delays.push(16_000_000_000);
        poll_retry_delays.push(30_000_000_000);
        DevkitdClientConfig {
            url,
            auth_token: None,
            poll_interval: 5_000_000_000,
            max_step_output_kb: 256,
            poll_retry_delays,
        }
    }
}

/// How many bytes the encoding of `c` in UTF-8 has.
pub open spec fn utf8_width(c: char) -> nat {
    if c <= '\u{7f}' {
        1
    } else if c <= '\u{7ff}' {
        2
    } else if c <= '\u{ffff}' {
        3
    } else {
        4
    }
}

/// How many of the characters of `s`, from the start, fit into `limit` bytes.
pub open spec fn fitting(s: Seq<char>, limit: int) -> nat
    decreases s.len(),
{
    if s.len() == 0 || utf8_width(s[0]) > limit {
        0
    } else {
        1 + fitting(s.drop_first(), limit - utf8_width(s[0]))
    }
}

/// `max_kb` kilobytes in bytes; the largest size there is where that is more.
pub open spec fn byte_limit(max_kb: u64) -> usize {
    let kb = max_kb as usize;
    if kb * 1024 > usize::MAX {
        usize::MAX
    } else {
        (kb * 1024) as usize
    }
}

/// A text cut to `max_kb` kilobytes between two characters, and marked as cut.
pub open spec fn cut_text(raw: Seq<char>, max_kb: u64) -> Seq<char> {
    if byte_len(raw) <= byte_limit(max_kb) {
        raw
    } else {
        raw.take(fitting(raw, byte_limit(max_kb) as int) as int) + ("…[truncated at "@ + decimal(
            max_kb as nat,
        ) + " KB by flowspec]"@)
    }
}

/// What can be said of a text that was cut: at most so many bytes are kept.
pub proof fn cut_text_fits(s: Seq<char>, limit: int)
    requires
        limit >= 0,
    ensures
        fitting(s, limit) <= s.len(),
        vstd::utf8::encode_utf8(s.take(fitting(s, limit) as int)).len() <= limit,
        fitting(s, limit) < s.len() ==> vstd::utf8::encode_utf8(
            s.take(fitting(s, limit) as int + 1),
        ).len() > limit,
    decreases s.len(),
{
    let n = fitting(s, limit);
    if s.len() > 0 {
        lemma_width(s[0]);
    }
    if s.len() == 0 || utf8_width(s[0]) > limit {
        assert(s.take(0) =~= Seq::<char>::empty());
        if s.len() > 0 {
            let one = s.take(1);
            assert(one[0] == s[0]);
            assert(one.drop_first() =~= Seq::<char>::empty());
            assert(vstd::utf8::encode_utf8(one.drop_first()).len() == 0);
        }
    } else {
        let rest = s.drop_first();
        let left = limit - utf8_width(s[0]);
        cut_text_fits(rest, left);
        let m = fitting(rest, left);
        assert(s.take(n as int)[0] == s[0]);
        assert(s.take(n as int).drop_first() =~= rest.take(m as int));
        if n < s.len() {
            assert(s.take(n as int + 1)[0] == s[0]);
            assert(s.take(n as int + 1).drop_first() =~= rest.take(m as int + 1));
        }
    }
}

proof fn lemma_width(c: char)
    ensures
        vstd::utf8::encode_scalar(c as u32).len() == utf8_width(c),
{
}

fn limit_bytes(max_kb: u64) -> (r: usize)
    ensures
        r == byte_limit(max_kb),
{
    let kb: usize = max_kb as usize;
    match kb.checked_mul(1024) {
        Some(n) => n,
        None => usize::MAX,
    }
}

fn width(c: char) -> (r: usize)
    ensures
        r == utf8_width(c),
{
    if c <= '\u{7f}' {
        1
    } else if c <= '\u{7ff}' {
        2
    } else if c <= '\u{ffff}' {
        3
    } else {
        4
    }
}

fn count_fitting(chars: &Vec<char>, limit: usize) -> (r: usize)
    ensures
        r == fitting(chars@, limit as int),
        r <= chars@.len(),
{
    let mut left: usize = limit;
    let mut i: usize = 0;
    proof {
        assert(chars@.skip(0) =~= chars@);
    }
    while i < chars.len() && width(chars[i]) <= left
        invariant
            i <= chars@.len(),
            fitting(chars@, limit as int) == i + fitting(chars@.skip(i as int), left as int),
        decreases chars@.len() - i,
    {
        proof {
            assert(chars@.skip(i as int).drop_first() =~= chars@.skip(i + 1));
        }
        left = left - width(chars[i]);
        i = i + 1;
    }
    i
}

/// Cuts a text to `max_kb` kilobytes between two characters and says so. A
/// text that is short enough stays as it is.
pub fn truncate_str(raw: &str, max_kb: u64) -> (r: String)
    ensures
        r@ == cut_text(raw@, max_kb),
{
    let limit = limit_bytes(max_kb);
    if raw.len() <= limit {
        return raw.to_owned();
    }
    let chars = chars_of(raw);
    let end = count_fitting(&chars, limit);
    let kept = slice_subrange(chars.as_slice(), 0, end);
    proof {
        assert(kept@ =~= raw@.take(end as int));
    }
    let mut out = string_of(kept);
    let note = cat3("…[truncated at ", decimal_text(max_kb).as_str(), " KB by flowspec]");
    out.append(note.as_str());
    out
}

/// What the output of a job denotes: a text that is too long is cut; else the
/// JSON value that the text denotes or, where there is none, the text.
pub open spec fn decoded(raw: Seq<char>, max_kb: u64) -> Json {
    if byte_len(raw) > byte_limit(max_kb) {
        Json::Text(cut_text(raw, max_kb))
    } else {
        match parsed_json(raw) {
            Ok(v) => v,
            Err(_) => Json::Text(raw),
        }
    }
}

/// The value of an output, given what came of parsing it.
pub fn value_or_text(raw: &str, parsed: Result<JsonValue, String>) -> (r: JsonValue)
    ensures
        r@ == (match parsed {
            Ok(v) => v@,
            Err(_) => Json::Text(raw@),
        }),
{
    match parsed {
        Ok(v) => v,
        Err(_) => JsonValue::Text(raw.to_owned()),
    }
}

/// Reads the output of a job.
pub fn decode_stdout(raw: &str, max_kb: u64) -> (r: JsonValue)
    ensures
        r@ == decoded(raw@, max_kb),
{
    let limit = limit_bytes(max_kb);
    if raw.len() > limit {
        return JsonValue::Text(truncate_str(raw, max_kb));
    }
    value_or_text(raw, parse_json(raw))
}

/// How long to wait so that a deadline is not missed: no longer than what is
/// left, and not at all where it has passed.
pub open spec fn clamped(delay: int, deadline: Option<Timestamp>, now: Timestamp) -> int {
    match deadline {
        None => delay,
        Some(d) => if d <= now {
            0
        } else if d - now < delay {
            d - now
        } else {
            delay
        },
    }
}

/// Shortens a wait so that it does not go past the deadline.
pub fn clamp_to_deadline(delay: i128, deadline: Option<Timestamp>, now: Timestamp) -> (r: i128)
    requires
        delay >= 0,
    ensures
        r == clamped(delay as int, deadline, now),
        0 <= r <= delay,
{
    match deadline {
        None => delay,
        Some(d) => if d <= now {
            0
        } else {
            match d.checked_sub(now) {
                Some(left) => if left < delay {
                    left
                } else {
                    delay
                },
                None => delay,
            }
        },
    }
}

/// Entries without those that are `null`.
pub open spec fn without_nulls(entries: Seq<(Seq<char>, Json)>) -> Seq<(Seq<char>, Json)>
    decreases entries.len(),
{
    if entries.len() == 0 {
        Seq::empty()
    } else if entries.last().1 == Json::Null {
        without_nulls(entries.drop_last())
    } else {
        without_nulls(entries.drop_last()).push(entries.last())
    }
}

/// The arguments that are sent with the start of a job: those of the request
/// that are not `null` (one that is no object goes under `value`), and the
/// timeout as a text.
pub open spec fn sent_arguments(args: Json, timeout_seconds: Option<u64>) -> Seq<
    (Seq<char>, Json),
> {
    let given = match args {
        Json::Object(entries) => without_nulls(entries),
        Json::Null => Seq::empty(),
        other => seq![("value"@, other)],
    };
    match timeout_seconds {
        Some(s) => with_entry(given, "_timeout_seconds"@, Json::Text(decimal(s as nat))),
        None => given,
    }
}

fn drop_nulls(entries: Vec<(String, JsonValue)>) -> (r: Vec<(String, JsonValue)>)
    ensures
        r.deep_view() == without_nulls(entries.deep_view()),
{
    let ghost all = entries.deep_view();
    let mut out: Vec<(String, JsonValue)> = Vec::new();
    let mut i: usize = 0;
    proof {
        assert(out.deep_view() =~= without_nulls(all.take(0)));
    }
    while i < entries.len()
        invariant
            i <= entries@.len(),
            all == entries.deep_view(),
            out.deep_view() == without_nulls(all.take(i as int)),
        decreases entries@.len() - i,
    {
        proof {
            assert(all.take(i + 1).drop_last() =~= all.take(i as int));
            assert(all[i as int] == (entries@[i as int].0@, entries@[i as int].1@));
        }
        if !entries[i].1.is_null() {
            put(&mut out, (entries[i].0.clone(), entries[i].1.duplicate()));
        }
        i = i + 1;
    }
    proof {
        assert(all.take(i as int) =~= all);
    }
    out
}

/// The arguments that are sent with the start of a job.
pub fn start_arguments(args: JsonValue, timeout_seconds: Option<u64>) -> (r: Vec<
    (String, JsonValue),
>)
    ensures
        r.deep_view() == sent_arguments(args@, timeout_seconds),
{
    let mut out: Vec<(String, JsonValue)> = match args {
        JsonValue::Object(entries) => {
            proof {
                lemma_object_view(entries);
            }
            drop_nulls(entries)
        },
        JsonValue::Null => {
            let none: Vec<(String, JsonValue)> = Vec::new();
            proof {
                assert(none.deep_view() =~= Seq::<(Seq<char>, Json)>::empty());
            }
            none
        },
        other => {
            let mut one: Vec<(String, JsonValue)> = Vec::new();
            let ghost v = other@;
            one.push(("value".to_owned(), other));
            proof {
                assert(one.deep_view() =~= seq![("value"@, v)]);
            }
            one
        },
    };
    match timeout_seconds {
        Some(s) => {
            set_entry(&mut out, "_timeout_seconds".to_owned(), JsonValue::Text(decimal_text(s)));
        },
        None => {},
    }
    out
}

/// A failure of the runner's tool with this message.
pub open spec fn tool_error(stderr: Seq<char>) -> DevkitdErrorModel {
    DevkitdErrorModel::ToolError { stdout: Seq::empty(), stderr, exit_code: -1i32 }
}

fn fail_tool(stderr: String) -> (r: DevkitdError)
    ensures
        r@ == tool_error(stderr@),
{
    DevkitdError::ToolError { stdout: String::new(), stderr, exit_code: -1 }
}

/// The answer to the start of a job.
#[derive(Debug)]
pub enum StartReply {
    /// The runner refused, with a text or without.
    Refused(Option<String>),
    /// An answer without a text.
    NoText,
    /// An answer that cannot be read, with the reason.
    Unreadable(String),
    /// The job was accepted under this id.
    Accepted(String),
}

/// Reads the answer to the start of a job.
pub fn read_start(reply: StartReply, max_kb: u64) -> (r: Result<JobHandle, DevkitdError>)
    ensures
        match reply {
            StartReply::Accepted(id) => r matches Ok(handle) && handle.0 == id,
            StartReply::Refused(text) => r matches Err(e) && e@ == tool_error(
                cut_text(
                    match text {
                        Some(t) => t@,
                        None => Seq::empty(),
                    },
                    max_kb,
                ),
            ),
            StartReply::NoText => r matches Err(e) && e@ == tool_error(
                "devkitd: job creation response had no text content"@,
            ),
            StartReply::Unreadable(why) => r matches Err(e) && e@ == tool_error(
                "devkitd: unparseable job creation response: "@ + why@,
            ),
        },
{
    match reply {
        StartReply::Accepted(id) => Ok(JobHandle(id)),
        StartReply::Refused(text) => {
            let shown = match text {
                Some(t) => t,
                None => String::new(),
            };
            Err(fail_tool(truncate_str(shown.as_str(), max_kb)))
        },
        StartReply::NoText => Err(
            fail_tool("devkitd: job creation response had no text content".to_owned()),
        ),
        StartReply::Unreadable(why) => Err(
            fail_tool(cat2("devkitd: unparseable job creation response: ", why.as_str())),
        ),
    }
}

/// The status of a job as the runner reports it.
#[derive(Debug)]
pub struct JobStatusEnvelope {
    pub state: String,
    pub stdout: Option<String>,
    pub stderr: Option<String>,
    /// Missing where the job was cancelled.
    pub exit_code: Option<i64>,
}

/// What a [`JobStatusEnvelope`] denotes.
#[verifier::ext_equal]
pub struct EnvelopeModel {
    pub state: Seq<char>,
    pub stdout: Option<Seq<char>>,
    pub stderr: Option<Seq<char>>,
    pub exit_code: Option<i64>,
}

impl View for JobStatusEnvelope {
    type V = EnvelopeModel;

    open spec fn view(&self) -> EnvelopeModel {
        EnvelopeModel {
            state: self.state@,
            stdout: self.stdout.deep_view(),
            stderr: self.stderr.deep_view(),
            exit_code: self.exit_code,
        }
    }
}

/// The answer to a question for the status of a job.
#[derive(Debug)]
pub enum PollReply {
    /// The runner could not be reached.
    Unreachable,
    /// The question failed otherwise.
    Failed(DevkitdError),
    /// The runner does not know the job.
    UnknownJob,
    /// An answer without a text.
    NoText,
    /// An answer that cannot be read, with the reason.
    Unreadable(String),
    /// The status of the job.
    Status(JobStatusEnvelope),
}

/// What an answer leads to.
#[derive(Debug)]
pub enum PollStep {
    /// Ask again after this time; so many failures in a row have been seen.
    Again { delay: i128, failures: usize },
    /// The job succeeded with this output.
    Succeeded(JsonValue),
    /// The job failed.
    Failed(DevkitdError),
}

/// What a [`PollStep`] denotes.
#[verifier::ext_equal]
pub enum PollStepModel {
    Again { delay: int, failures: nat },
    Succeeded(Json),
    Failed(DevkitdErrorModel),
}

impl View for PollStep {
    type V = PollStepModel;

    open spec fn view(&self) -> PollStepModel {
        match self {
            PollStep::Again { delay, failures } => PollStepModel::Again {
                delay: *delay as int,
                failures: *failures as nat,
            },
            PollStep::Succeeded(v) => PollStepModel::Succeeded(v@),
            PollStep::Failed(e) => PollStepModel::Failed(e@),
        }
    }
}

/// How an exit code is shown in a message.
pub open spec fn exit_code_text(code: Option<i64>) -> Seq<char> {
    match code {
        Some(n) => "Some("@ + signed_decimal(n as int) + ")"@,
        None => "None"@,
    }
}

/// What a finished job comes to: success with exit code 0; a failure of the
/// tool with 1 to 255 or -1; a timeout with -2; anything else is no exit code
/// that the runner may report.
pub open spec fn finished_job(
    stdout: Seq<char>,
    stderr: Seq<char>,
    exit_code: Option<i64>,
    max_kb: u64,
) -> PollStepModel {
    let code = match exit_code {
        Some(n) => n as int,
        None => -3,
    };
    if code == 0 {
        PollStepModel::Succeeded(decoded(stdout, max_kb))
    } else if 1 <= code <= 255 || code == -1 {
        PollStepModel::Failed(
            DevkitdErrorModel::ToolError {
                stdout: cut_text(stdout, max_kb),
                stderr: cut_text(stderr, max_kb),
                exit_code: code as i32,
            },
        )
    } else if code == -2 {
        PollStepModel::Failed(DevkitdErrorModel::Timeout)
    } else {
        PollStepModel::Failed(
            DevkitdErrorModel::ToolError {
                stdout: cut_text(stdout, max_kb),
                stderr: "devkitd: contract violation, exit_code="@ + exit_code_text(exit_code),
                exit_code: -1i32,
            },
        )
    }
}

/// A missing text is an empty one.
pub open spec fn or_empty(text: Option<Seq<char>>) -> Seq<char> {
    match text {
        Some(t) => t,
        None => Seq::empty(),
    }
}

/// What the status of a job leads to. A job that is not done is asked for
/// again, and so is one in a state that is not known.
pub open spec fn status_step(
    status: EnvelopeModel,
    poll_interval: int,
    max_kb: u64,
    deadline: Option<Timestamp>,
    now: Timestamp,
) -> PollStepModel {
    if status.state == "cancelled"@ {
        PollStepModel::Failed(DevkitdErrorModel::Cancelled)
    } else if status.state == "done"@ {
        finished_job(or_empty(status.stdout), or_empty(status.stderr), status.exit_code, max_kb)
    } else {
        PollStepModel::Again { delay: clamped(poll_interval, deadline, now), failures: 0 }
    }
}

fn show_exit_code(code: Option<i64>) -> (r: String)
    ensures
        r@ == exit_code_text(code),
{
    match code {
        Some(n) => cat3("Some(", signed_text(n).as_str(), ")"),
        None => "None".to_owned(),
    }
}

fn finish(stdout: &str, stderr: &str, exit_code: Option<i64>, max_kb: u64) -> (r: PollStep)
    ensures
        r@ == finished_job(stdout@, stderr@, exit_code, max_kb),
{
    let code: i64 = match exit_code {
        Some(n) => n,
        None => -3,
    };
    if code == 0 {
        PollStep::Succeeded(decode_stdout(stdout, max_kb))
    } else if (1 <= code && code <= 255) || code == -1 {
        PollStep::Failed(
            DevkitdError::ToolError {
                stdout: truncate_str(stdout, max_kb),
                stderr: truncate_str(stderr, max_kb),
                exit_code: code as i32,
            },
        )
    } else if code == -2 {
        PollStep::Failed(DevkitdError::Timeout)
    } else {
        PollStep::Failed(
            DevkitdError::ToolError {
                stdout: truncate_str(stdout, max_kb),
                stderr: cat2(
                    "devkitd: contract violation, exit_code=",
                    show_exit_code(exit_code).as_str(),
                ),
                exit_code: -1,
            },
        )
    }
}

/// Whether the deadline of a job has come. The job is then cancelled and
/// counts as timed out.
pub fn deadline_passed(deadline: Option<Timestamp>, now: Timestamp) -> (r: bool)
    ensures
        r == (deadline matches Some(d) && now >= d),
{
    match deadline {
        Some(d) => now >= d,
        None => false,
    }
}

/// What an answer leads to: while the runner cannot be reached it is asked
/// again, as often as there are delays; a job that it does not know was
/// interrupted.
pub open spec fn reply_step(
    config: DevkitdClientConfig,
    failures: nat,
    deadline: Option<Timestamp>,
    now: Timestamp,
    reply: PollReply,
) -> PollStepModel {
    match reply {
        PollReply::Unreachable => if failures >= config.poll_retry_delays@.len() {
            PollStepModel::Failed(DevkitdErrorModel::Unreachable)
        } else {
            PollStepModel::Again {
                delay: clamped(
                    config.poll_retry_delays@[failures as int] as int,
                    deadline,
                    now,
                ),
                failures: failures + 1,
            }
        },
        PollReply::Failed(e) => PollStepModel::Failed(e@),
        PollReply::UnknownJob => PollStepModel::Failed(DevkitdErrorModel::Interrupted),
        PollReply::NoText => PollStepModel::Failed(
            tool_error("devkitd: job-status response had no text content"@),
        ),
        PollReply::Unreadable(why) => PollStepModel::Failed(
            tool_error("devkitd: unparseable job-status response: "@ + why@),
        ),
        PollReply::Status(status) => status_step(
            status@,
            config.poll_interval as int,
            config.max_step_output_kb,
            deadline,
            now,
        ),
    }
}

/// Whether the delays of a configuration are times to wait.
pub open spec fn delays_are_waits(config: DevkitdClientConfig) -> bool {
    &&& config.poll_interval >= 0
    &&& forall|i: int|
        0 <= i < config.poll_retry_delays@.len() ==> #[trigger] config.poll_retry_delays@[i] >= 0
}

/// Whether the delays of a configuration are times to wait.
pub fn are_delays_waits(config: &DevkitdClientConfig) -> (r: bool)
    ensures
        r == delays_are_waits(*config),
{
    let mut i: usize = 0;
    while i < config.poll_retry_delays.len()
        invariant
            i <= config.poll_retry_delays@.len(),
            forall|k: int| 0 <= k < i ==> #[trigger] config.poll_retry_delays@[k] >= 0,
        decreases config.poll_retry_delays@.len() - i,
    {
        if config.poll_retry_delays[i] < 0 {
            return false;
        }
        i = i + 1;
    }
    config.poll_interval >= 0
}

/// Decides what an answer to a question for the status of a job leads to.
pub fn wait(
    config: &DevkitdClientConfig,
    failures: usize,
    deadline: Option<Timestamp>,
    now: Timestamp,
    reply: PollReply,
) -> (r: PollStep)
    requires
        delays_are_waits(*config),
    ensures
        r@ == reply_step(*config, failures as nat, deadline, now, reply),
{
    match reply {
        PollReply::Unreachable => {
            if failures >= config.poll_retry_delays.len() {
                PollStep::Failed(DevkitdError::Unreachable)
            } else {
                let delay = config.poll_retry_delays[failures];
                PollStep::Again {
                    delay: clamp_to_deadline(delay, deadline, now),
                    failures: failures + 1,
                }
            }
        },
        PollReply::Failed(e) => PollStep::Failed(e),
        PollReply::UnknownJob => PollStep::Failed(DevkitdError::Interrupted),
        PollReply::NoText => PollStep::Failed(
            fail_tool("devkitd: job-status response had no text content".to_owned()),
        ),
        PollReply::Unreadable(why) => PollStep::Failed(
            fail_tool(cat2("devkitd: unparseable job-status response: ", why.as_str())),
        ),
        PollReply::Status(status) => {
            let state = status.state.as_str();
            proof {
                reveal_strlit("cancelled");
                reveal_strlit("done");
            }
            if same_text(state, "cancelled") {
                PollStep::Failed(DevkitdError::Cancelled)
            } else if same_text(state, "done") {
                let stdout = match status.stdout {
                    Some(t) => t,
                    None => String::new(),
                };
                let stderr = match status.stderr {
                    Some(t) => t,
                    None => String::new(),
                };
                finish(
                    stdout.as_str(),
                    stderr.as_str(),
                    status.exit_code,
                    config.max_step_output_kb,
                )
            } else {
                PollStep::Again {
                    delay: clamp_to_deadline(config.poll_interval, deadline, now),
                    failures: 0,
                }
            }
        },
    }
}

/// Whether an answer shows that the job is alive.
pub fn shows_life(reply: &PollReply) -> (r: bool)
    ensures
        r == (reply is NoText || reply is Unreadable || reply is Status),
{
    match reply {
        PollReply::NoText => true,
        PollReply::Unreadable(_) => true,
        PollReply::Status(_) => true,
        _ => false,
    }
}

/// How often the cancellation of a job is tried.
pub const CANCEL_ATTEMPTS: u32 = 3;

/// What follows a cancellation that could not reach the runner, after so many
/// failed attempts: the milliseconds to wait before the next one; none where
/// it is given up.
pub fn cancel_retry(attempts: u32) -> (r: Option<u64>)
    ensures
        r == (if attempts >= CANCEL_ATTEMPTS {
            None
        } else {
            Some((200 * attempts) as u64)
        }),
{
    if attempts >= CANCEL_ATTEMPTS {
        None
    } else {
        Some(200 * attempts as u64)
    }
}

/// A runner that cannot be reached is given up after as many failures in a row
/// as there are delays, and any other answer ends the count.
pub proof fn unreachable_runner_is_given_up(
    config: DevkitdClientConfig,
    failures: nat,
    deadline: Option<Timestamp>,
    now: Timestamp,
    reply: PollReply,
)
    ensures
        reply_step(config, failures, deadline, now, reply) matches PollStepModel::Again {
            failures: n,
            ..
        } ==> n == (if reply is Unreachable {
            failures + 1
        } else {
            0
        }) && n <= config.poll_retry_delays@.len(),
        reply is Unreachable && failures >= config.poll_retry_delays@.len() ==> reply_step(
            config,
            failures,
            deadline,
            now,
            reply,
        ) == PollStepModel::Failed(DevkitdErrorModel::Unreachable),
{
}

} // verus!
