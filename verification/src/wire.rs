//! What responses carry: readable timestamps, bounded summaries of outputs
//! and the details of a failed job.
use crate::copy::Duplicate;
use crate::json::{Json, JsonValue};
use crate::ports::{DevkitdError, DevkitdErrorModel};
use crate::template::{render_value, rendered};
use crate::text::{cat3, chars_of, decimal, decimal_text, string_of};
use vstd::prelude::*;
use vstd::slice::slice_subrange;
use vstd::utf8::encode_utf8;

verus! {

/// A point in time that is written as an RFC 3339 text such as
/// `2026-08-08T12:00:00Z`: nanoseconds since the Unix epoch.
#[derive(Debug, Clone, Copy, PartialEq, Eq, Structural)]
pub struct Timestamp(pub i128);

impl DeepView for Timestamp {
    type V = Timestamp;

    open spec fn deep_view(&self) -> Timestamp {
        *self
    }
}

/// A point in time, in nanoseconds since the Unix epoch, as an RFC 3339 text
/// in UTC; `None` where its year has not four digits.
pub uninterp spec fn rfc3339_text(nanos: int) -> Option<Seq<char>>;

/// The point in time that an RFC 3339 text denotes, in nanoseconds since the
/// Unix epoch; `None` where the text is no RFC 3339 date and time.
pub uninterp spec fn rfc3339_nanos(text: Seq<char>) -> Option<int>;

/// `time::OffsetDateTime::format` with the well-known format `Rfc3339`, on the
/// point in time in UTC: the text, where the year fits. All nanoseconds are
/// written, so that parsing the text gives the same point in time.
#[verifier::external_body]
fn format_rfc3339(nanos: i128) -> (r: Option<String>)
    ensures
        r.deep_view() == rfc3339_text(nanos as int),
        r matches Some(t) ==> rfc3339_nanos(t@) == Some(nanos as int),
{
    time::OffsetDateTime::from_unix_timestamp_nanos(nanos).ok()?.format(
        &time::format_description::well_known::Rfc3339,
    ).ok()
}

/// `time::OffsetDateTime::parse` with the well-known format `Rfc3339`: the
/// point in time that the text denotes.
#[verifier::external_body]
fn parse_rfc3339(text: &str) -> (r: Option<i128>)
    ensures
        match r {
            Some(n) => rfc3339_nanos(text@) == Some(n as int),
            None => rfc3339_nanos(text@) is None,
        },
{
    time::OffsetDateTime::parse(
        text,
        &time::format_description::well_known::Rfc3339,
    ).ok().map(|t| t.unix_timestamp_nanos())
}

impl Timestamp {
    /// This point in time as an RFC 3339 text; `None` where there is none. The
    /// text reads back as the same point in time.
    pub fn to_rfc3339(&self) -> (r: Option<String>)
        ensures
            r.deep_view() == rfc3339_text(self.0 as int),
            r matches Some(t) ==> rfc3339_nanos(t@) == Some(self.0 as int),
    {
        format_rfc3339(self.0)
    }

    /// The point in time that an RFC 3339 text denotes.
    pub fn from_rfc3339(text: &str) -> (r: Option<Timestamp>)
        ensures
            match r {
                Some(t) => rfc3339_nanos(text@) == Some(t.0 as int),
                None => rfc3339_nanos(text@) is None,
            },
    {
        match parse_rfc3339(text) {
            Some(n) => Some(Timestamp(n)),
            None => None,
        }
    }
}

/// A bounded preview of an output.
#[derive(Debug)]
pub struct OutputSummary {
    /// The output as text, cut to the budget of the summary.
    pub text: String,
    /// The size of the whole output in bytes.
    pub bytes: usize,
    /// Whether `text` was cut.
    pub truncated: bool,
}

/// What an [`OutputSummary`] denotes.
#[verifier::ext_equal]
pub struct SummaryModel {
    pub text: Seq<char>,
    pub bytes: usize,
    pub truncated: bool,
}

impl View for OutputSummary {
    type V = SummaryModel;

    open spec fn view(&self) -> SummaryModel {
        SummaryModel {
            text: self.text@,
            bytes: self.bytes,
            truncated: self.truncated,
        }
    }
}

impl DeepView for OutputSummary {
    type V = SummaryModel;

    open spec fn deep_view(&self) -> SummaryModel {
        self@
    }
}

impl Duplicate for OutputSummary {
    fn duplicate(&self) -> (r: Self) {
        OutputSummary {
            text: self.text.clone(),
            bytes: self.bytes,
            truncated: self.truncated,
        }
    }
}

impl Clone for OutputSummary {
    fn clone(&self) -> (r: Self)
        ensures
            r@ == self@,
    {
        self.duplicate()
    }
}

/// The details of a failed step or hook.
#[derive(Debug, PartialEq)]
pub struct JobFailure {
    /// One of `tool_error`, `timeout`, `interrupted`, `cancelled` and
    /// `unreachable`.
    pub kind: String,
    /// Present for `tool_error` only.
    pub exit_code: Option<i32>,
    pub stdout: Option<String>,
    pub stderr: Option<String>,
}

/// What a [`JobFailure`] denotes.
#[verifier::ext_equal]
pub struct JobFailureModel {
    pub kind: Seq<char>,
    pub exit_code: Option<i32>,
    pub stdout: Option<Seq<char>>,
    pub stderr: Option<Seq<char>>,
}

impl View for JobFailure {
    type V = JobFailureModel;

    open spec fn view(&self) -> JobFailureModel {
        JobFailureModel {
            kind: self.kind@,
            exit_code: self.exit_code,
            stdout: self.stdout.deep_view(),
            stderr: self.stderr.deep_view(),
        }
    }
}

impl DeepView for JobFailure {
    type V = JobFailureModel;

    open spec fn deep_view(&self) -> JobFailureModel {
        self@
    }
}

impl Duplicate for JobFailure {
    fn duplicate(&self) -> (r: Self) {
        JobFailure {
            kind: self.kind.clone(),
            exit_code: self.exit_code,
            stdout: self.stdout.duplicate(),
            stderr: self.stderr.duplicate(),
        }
    }
}

impl Clone for JobFailure {
    fn clone(&self) -> (r: Self)
        ensures
            r@ == self@,
    {
        self.duplicate()
    }
}

/// The details of a failure that has no output.
pub open spec fn plain_failure(kind: Seq<char>) -> JobFailureModel {
    JobFailureModel { kind, exit_code: None, stdout: None, stderr: None }
}

/// The details of a failed job.
pub open spec fn failure_of(e: DevkitdErrorModel) -> JobFailureModel {
    match e {
        DevkitdErrorModel::ToolError { stdout, stderr, exit_code } => JobFailureModel {
            kind: "tool_error"@,
            exit_code: Some(exit_code),
            stdout: Some(stdout),
            stderr: Some(stderr),
        },
        DevkitdErrorModel::Timeout => plain_failure("timeout"@),
        DevkitdErrorModel::Interrupted => plain_failure("interrupted"@),
        DevkitdErrorModel::Cancelled => plain_failure("cancelled"@),
        DevkitdErrorModel::Unreachable => plain_failure("unreachable"@),
    }
}

impl JobFailure {
    fn plain(kind: &str) -> (r: Self)
        ensures
            r@ == plain_failure(kind@),
    {
        JobFailure { kind: kind.to_owned(), exit_code: None, stdout: None, stderr: None }
    }
}

impl vstd::std_specs::convert::FromSpecImpl<&DevkitdError> for JobFailure {
    open spec fn obeys_from_spec() -> bool {
        false
    }

    open spec fn from_spec(e: &DevkitdError) -> Self {
        arbitrary()
    }
}

impl From<&DevkitdError> for JobFailure {
    fn from(e: &DevkitdError) -> (r: Self)
        ensures
            r@ == failure_of(e@),
    {
        match e {
            DevkitdError::ToolError { stdout, stderr, exit_code } => JobFailure {
                kind: "tool_error".to_owned(),
                exit_code: Some(*exit_code),
                stdout: Some(stdout.clone()),
                stderr: Some(stderr.clone()),
            },
            DevkitdError::Timeout => JobFailure::plain("timeout"),
            DevkitdError::Interrupted => JobFailure::plain("interrupted"),
            DevkitdError::Cancelled => JobFailure::plain("cancelled"),
            DevkitdError::Unreachable => JobFailure::plain("unreachable"),
        }
    }
}

/// The size of a text in bytes.
pub open spec fn byte_len(text: Seq<char>) -> usize {
    encode_utf8(text).len() as usize
}

/// What a summary says of a text that is too long.
pub open spec fn truncation_note(bytes: usize) -> Seq<char> {
    "…[truncated, "@ + decimal(bytes as nat) + " bytes total; use get_step_output]"@
}

/// The preview of an output of which at most `max_chars` characters are shown.
pub open spec fn summary_of(value: Json, max_chars: nat) -> SummaryModel {
    let text = rendered(value);
    let bytes = byte_len(text);
    if text.len() <= max_chars {
        SummaryModel { text, bytes, truncated: false }
    } else {
        SummaryModel {
            text: text.take(max_chars as int) + truncation_note(bytes),
            bytes,
            truncated: true,
        }
    }
}

/// Renders a value as text and cuts it to `max_chars` characters. `bytes` is
/// the size of the whole text.
pub fn summarize_output(value: &JsonValue, max_chars: usize) -> (r: OutputSummary)
    ensures
        r@ == summary_of(value@, max_chars as nat),
{
    let text = render_value(value);
    let bytes: usize = text.as_str().len();
    let chars = chars_of(text.as_str());
    if chars.len() <= max_chars {
        OutputSummary { text, bytes, truncated: false }
    } else {
        let shown = slice_subrange(chars.as_slice(), 0, max_chars);
        let mut out = string_of(shown);
        let note = cat3(
            "…[truncated, ",
            decimal_text(bytes as u64).as_str(),
            " bytes total; use get_step_output]",
        );
        out.append(note.as_str());
        proof {
            assert(shown@ =~= rendered(value@).take(max_chars as int));
        }
        OutputSummary { text: out, bytes, truncated: true }
    }
}

/// A summary shows the whole text exactly where it fits, and never more of it
/// than asked for.
pub proof fn summary_is_bounded(value: Json, max_chars: nat)
    ensures
        summary_of(value, max_chars).truncated <==> rendered(value).len() > max_chars,
        !summary_of(value, max_chars).truncated ==> summary_of(value, max_chars).text == rendered(
            value,
        ),
        summary_of(value, max_chars).text.len() <= max_chars + truncation_note(
            byte_len(rendered(value)),
        ).len(),
{
}

} // verus!
