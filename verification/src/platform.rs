//! The connection to the platform: what to do with its actions, and how the
//! events of runs are handed on.
use crate::copy::{put, Duplicate};
use crate::flow::types::FlowDefinition;
use crate::flow::validate::{self, violations_of};
use crate::flows::{describe_violations, violations_text};
use crate::graph::{insert_sorted, sorted_names};
use crate::json::{set_entry, with_entry, Json, JsonValue};
use crate::names::{event_type_name, event_type_str};
use crate::ports::{RunId, StoredEventModel, StoredRunEvent};
use crate::text::{cat2, cat3, chars_of, decimal, decimal_text, same_text, string_of};
use crate::use_cases::approvals::ApprovalError;
use crate::use_cases::queries::{platform_id, platform_run_id};
use crate::use_cases::start_flow::StartFlowError;
use vstd::prelude::*;
use vstd::slice::slice_subrange;

verus! {

/// How often the platform is asked for actions, in seconds.
#[derive(Debug)]
pub struct PollerConfig {
    pub poll_interval: u64,
}

/// How often events are handed on, in seconds, and how many at a time.
#[derive(Debug)]
pub struct PumpConfig {
    pub poll_interval: u64,
    pub event_batch_size: usize,
}

/// What the platform asks for.
#[derive(Debug, Clone, Copy, PartialEq, Eq, Structural)]
pub enum ActionKind {
    TriggerRun,
    Approve,
    Reject,
    Cancel,
    Unknown,
}

/// What an action asks for, by the name of its kind.
pub open spec fn kind_named(name: Seq<char>) -> ActionKind {
    if name == "trigger_run"@ {
        ActionKind::TriggerRun
    } else if name == "approve"@ {
        ActionKind::Approve
    } else if name == "reject"@ {
        ActionKind::Reject
    } else if name == "cancel"@ {
        ActionKind::Cancel
    } else {
        ActionKind::Unknown
    }
}

/// What an action asks for, by the name of its kind.
pub fn action_kind(name: &str) -> (r: ActionKind)
    ensures
        r == kind_named(name@),
{
    if same_text(name, "trigger_run") {
        ActionKind::TriggerRun
    } else if same_text(name, "approve") {
        ActionKind::Approve
    } else if same_text(name, "reject") {
        ActionKind::Reject
    } else if same_text(name, "cancel") {
        ActionKind::Cancel
    } else {
        ActionKind::Unknown
    }
}

/// What becomes of an action.
#[derive(Debug)]
pub enum Disposal {
    /// It was carried out, for this run where a run was started.
    Acknowledge(Option<RunId>),
    /// It can never be carried out.
    Delete,
    /// It cannot be carried out yet, and comes again.
    Leave,
}

/// How far a request to trigger a run has come.
#[derive(Debug)]
pub enum TriggerOutcome {
    /// Its payload cannot be read.
    Malformed,
    /// The run is there already.
    AlreadyStarted(RunId),
    /// Its flow is not valid.
    InvalidFlow,
    /// The run was started, or was there already.
    Started(RunId),
    /// The run could not be started.
    Refused(StartFlowError),
}

/// Decides what becomes of a request to trigger a run: one whose run is there
/// is acknowledged, and one that did not lead to a run is deleted.
pub fn handle_trigger_run(outcome: TriggerOutcome) -> (r: Disposal)
    ensures
        r == (match outcome {
            TriggerOutcome::AlreadyStarted(id) => Disposal::Acknowledge(Some(id)),
            TriggerOutcome::Started(id) => Disposal::Acknowledge(Some(id)),
            _ => Disposal::Delete,
        }),
{
    match outcome {
        TriggerOutcome::AlreadyStarted(id) => Disposal::Acknowledge(Some(id)),
        TriggerOutcome::Started(id) => Disposal::Acknowledge(Some(id)),
        _ => Disposal::Delete,
    }
}

/// Decides what becomes of an approval or a rejection. `None` stands for a run
/// that is not known: nothing will ever make the action possible. An action
/// that came before the step waits is left to come again; one that could mean
/// several steps never becomes clear.
pub fn handle_approve_reject(outcome: Option<Result<(), ApprovalError>>) -> (r: Disposal)
    ensures
        r == (match outcome {
            None => Disposal::Delete,
            Some(Ok(_)) => Disposal::Acknowledge(None),
            Some(Err(ApprovalError::AmbiguousStep)) => Disposal::Delete,
            Some(Err(_)) => Disposal::Leave,
        }),
{
    match outcome {
        None => Disposal::Delete,
        Some(Ok(_)) => Disposal::Acknowledge(None),
        Some(Err(e)) => match e {
            ApprovalError::AmbiguousStep => Disposal::Delete,
            _ => Disposal::Leave,
        },
    }
}

/// Decides what becomes of a request to cancel a run: it is acknowledged,
/// whether the run is known or not.
pub fn handle_cancel() -> (r: Disposal)
    ensures
        r == Disposal::Acknowledge(None),
{
    Disposal::Acknowledge(None)
}

/// What a run is triggered by that the platform asked for.
pub open spec fn platform_trigger_of(id: Seq<char>) -> Json {
    Json::Object(
        with_entry(
            with_entry(Seq::empty(), "source"@, Json::Text("platform"@)),
            "platform_run_id"@,
            Json::Text(id),
        ),
    )
}

/// What a run is triggered by that the platform asked for.
pub fn platform_trigger(platform_run_id: &str) -> (r: JsonValue)
    ensures
        r@ == platform_trigger_of(platform_run_id@),
{
    let mut entries: Vec<(String, JsonValue)> = Vec::new();
    proof {
        assert(entries.deep_view() =~= Seq::<(Seq<char>, Json)>::empty());
    }
    set_entry(&mut entries, "source".to_owned(), JsonValue::Text("platform".to_owned()));
    set_entry(
        &mut entries,
        "platform_run_id".to_owned(),
        JsonValue::Text(platform_run_id.to_owned()),
    );
    proof {
        crate::json::lemma_object_view(entries);
    }
    JsonValue::Object(entries)
}

/// Takes the first flow of a document where it meets every rule; else says
/// what is wrong.
pub fn parse_and_validate_flow_doc(definitions: Vec<FlowDefinition>) -> (r: Result<
    FlowDefinition,
    String,
>)
    ensures
        match r {
            Ok(flow) => definitions@.len() > 0 && flow@ == definitions@[0]@ && violations_of(
                flow@,
            ).len() == 0,
            Err(why) => if definitions@.len() == 0 {
                why@ == "flow_doc contains no flow definitions"@
            } else {
                violations_of(definitions@[0]@).len() > 0 && why@ == violations_text(
                    violations_of(definitions@[0]@),
                )
            },
        },
{
    if definitions.len() == 0 {
        return Err("flow_doc contains no flow definitions".to_owned());
    }
    let violations = validate::validate(&definitions[0]);
    if violations.len() > 0 {
        Err(describe_violations(&violations))
    } else {
        Ok(definitions[0].duplicate())
    }
}

/// `s` without the slashes at its end.
pub open spec fn without_slashes(s: Seq<char>) -> Seq<char>
    decreases s.len(),
{
    if s.len() > 0 && s.last() == '/' {
        without_slashes(s.drop_last())
    } else {
        s
    }
}

/// The address that paths are appended to.
pub fn base_url(url: &str) -> (r: String)
    ensures
        r@ == without_slashes(url@),
{
    let chars = chars_of(url);
    let mut end: usize = chars.len();
    proof {
        assert(chars@.take(end as int) =~= chars@);
    }
    while end > 0 && chars[end - 1] == '/'
        invariant
            end <= chars@.len(),
            without_slashes(chars@) == without_slashes(chars@.take(end as int)),
        decreases end,
    {
        proof {
            assert(chars@.take(end as int).drop_last() =~= chars@.take(end - 1));
        }
        end = end - 1;
    }
    let kept = slice_subrange(chars.as_slice(), 0, end);
    proof {
        assert(kept@ =~= chars@.take(end as int));
    }
    string_of(kept)
}

/// Where actions are fetched.
pub fn actions_url(base: &str) -> (r: String)
    ensures
        r@ == base@ + "/api/agent/v1/actions"@,
{
    cat2(base, "/api/agent/v1/actions")
}

/// Where an action is deleted.
pub fn action_url(base: &str, id: &str) -> (r: String)
    ensures
        r@ == base@ + "/api/agent/v1/actions/"@ + id@,
{
    cat3(base, "/api/agent/v1/actions/", id)
}

/// Where an action is acknowledged.
pub fn ack_url(base: &str, id: &str) -> (r: String)
    ensures
        r@ == base@ + "/api/agent/v1/actions/"@ + id@ + "/ack"@,
{
    cat2(action_url(base, id).as_str(), "/ack")
}

/// Where the state of a run is pushed.
pub fn state_url(base: &str, run_id: &str) -> (r: String)
    ensures
        r@ == base@ + "/api/agent/v1/runs/"@ + run_id@ + "/state"@,
{
    cat2(cat3(base, "/api/agent/v1/runs/", run_id).as_str(), "/state")
}

/// Where the events of a run are pushed.
pub fn events_url(base: &str, run_id: &str) -> (r: String)
    ensures
        r@ == base@ + "/api/agent/v1/runs/"@ + run_id@ + "/events"@,
{
    cat2(cat3(base, "/api/agent/v1/runs/", run_id).as_str(), "/events")
}

/// Whether an HTTP status stands for success.
pub fn is_success(status: u16) -> (r: bool)
    ensures
        r == (200 <= status < 300),
{
    200 <= status && status < 300
}

/// Whether an acknowledgement was accepted. That the action is not pending any
/// more is no failure: an earlier acknowledgement came through.
pub fn is_acknowledged(status: u16) -> (r: bool)
    ensures
        r == (status == 409 || 200 <= status < 300),
{
    status == 409 || is_success(status)
}

/// An event as the platform gets it.
#[derive(Debug)]
pub struct WireEvent {
    pub event_type: String,
    pub step_id: Option<String>,
    pub timestamp: crate::wire::Timestamp,
    pub sequence: u64,
    /// Missing where there is nothing to say.
    pub payload: Option<JsonValue>,
}

/// What a [`WireEvent`] denotes.
#[verifier::ext_equal]
pub struct WireEventModel {
    pub event_type: Seq<char>,
    pub step_id: Option<Seq<char>>,
    pub timestamp: crate::wire::Timestamp,
    pub sequence: u64,
    pub payload: Option<Json>,
}

impl View for WireEvent {
    type V = WireEventModel;

    open spec fn view(&self) -> WireEventModel {
        WireEventModel {
            event_type: self.event_type@,
            step_id: self.step_id.deep_view(),
            timestamp: self.timestamp,
            sequence: self.sequence,
            payload: self.payload.deep_view(),
        }
    }
}

impl DeepView for WireEvent {
    type V = WireEventModel;

    open spec fn deep_view(&self) -> WireEventModel {
        self@
    }
}

/// An event as the platform gets it.
pub open spec fn wire_event_of(e: StoredEventModel) -> WireEventModel {
    WireEventModel {
        event_type: event_type_name(e.event_type),
        step_id: e.step_id,
        timestamp: crate::wire::Timestamp(e.timestamp),
        sequence: e.sequence,
        payload: if e.payload == Json::Null {
            None
        } else {
            Some(e.payload)
        },
    }
}

/// Turns an event into what the platform gets.
pub fn wire_event(e: &StoredRunEvent) -> (r: WireEvent)
    ensures
        r@ == wire_event_of(e@),
{
    WireEvent {
        event_type: event_type_str(e.event_type).to_owned(),
        step_id: e.step_id.duplicate(),
        timestamp: crate::wire::Timestamp(e.timestamp),
        sequence: e.sequence,
        payload: if e.payload.is_null() {
            None
        } else {
            Some(e.payload.duplicate())
        },
    }
}

/// Why the platform could not be reached, or refused.
#[derive(Debug)]
pub enum PlatformError {
    /// No answer came, for this reason.
    Transport(String),
    /// An answer with a status that is no success.
    Http { status: u16, body: String },
}

impl PlatformError {
    /// The text that describes this error.
    pub fn message(&self) -> (r: String)
        ensures
            r@ == (match self {
                PlatformError::Transport(why) => "transport error: "@ + why@,
                PlatformError::Http { status, body } => "platform returned "@ + decimal(
                    *status as nat,
                ) + ": "@ + body@,
            }),
    {
        match self {
            PlatformError::Transport(why) => cat2("transport error: ", why.as_str()),
            PlatformError::Http { status, body } => {
                let head = cat3("platform returned ", decimal_text(*status as u64).as_str(), ": ");
                cat2(head.as_str(), body.as_str())
            },
        }
    }
}

/// Reads the status of an answer: its body is an error unless the status
/// stands for success.
pub fn check_status(status: u16, body: String) -> (r: Result<String, PlatformError>)
    ensures
        r == (if 200 <= status < 300 {
            Ok(body)
        } else {
            Err(PlatformError::Http { status, body })
        }),
{
    if is_success(status) {
        Ok(body)
    } else {
        Err(PlatformError::Http { status, body })
    }
}

/// Events as the platform gets them.
pub open spec fn wire_events_of(events: Seq<StoredEventModel>) -> Seq<WireEventModel> {
    Seq::new(events.len(), |i: int| wire_event_of(events[i]))
}

/// The events that one push hands on: nothing is pushed where there are none.
pub fn push_events(events: &Vec<StoredRunEvent>) -> (r: Option<Vec<WireEvent>>)
    ensures
        r.deep_view() == (if events@.len() == 0 {
            None
        } else {
            Some(wire_events_of(events.deep_view()))
        }),
{
    if events.len() == 0 {
        return None;
    }
    let ghost all = events.deep_view();
    let mut out: Vec<WireEvent> = Vec::new();
    let mut i: usize = 0;
    proof {
        assert(out.deep_view() =~= wire_events_of(all).take(0));
    }
    while i < events.len()
        invariant
            i <= events@.len(),
            all == events.deep_view(),
            out.deep_view() == wire_events_of(all).take(i as int),
        decreases events@.len() - i,
    {
        proof {
            assert(all[i as int] == events@[i as int]@);
            assert(wire_events_of(all).take(i + 1) =~= wire_events_of(all).take(i as int).push(
                wire_events_of(all)[i as int],
            ));
        }
        put(&mut out, wire_event(&events[i]));
        i = i + 1;
    }
    proof {
        assert(wire_events_of(all).take(i as int) =~= wire_events_of(all));
    }
    Some(out)
}

/// The ids of the runs that events belong to.
pub open spec fn run_ids_of(events: Seq<(Seq<char>, StoredEventModel)>) -> Seq<Seq<char>> {
    Seq::new(events.len(), |i: int| events[i].0)
}

/// The events of one run, in order.
pub open spec fn events_of(events: Seq<(Seq<char>, StoredEventModel)>, id: Seq<char>) -> Seq<
    StoredEventModel,
>
    decreases events.len(),
{
    if events.len() == 0 {
        Seq::empty()
    } else if events.last().0 == id {
        events_of(events.drop_last(), id).push(events.last().1)
    } else {
        events_of(events.drop_last(), id)
    }
}

/// Events run by run, in the order of the run ids.
pub open spec fn grouped(events: Seq<(Seq<char>, StoredEventModel)>) -> Seq<
    (Seq<char>, Seq<StoredEventModel>),
> {
    let ids = sorted_names(run_ids_of(events));
    Seq::new(ids.len(), |i: int| (ids[i], events_of(events, ids[i])))
}

fn pick_events(events: &Vec<(RunId, StoredRunEvent)>, id: &str) -> (r: Vec<StoredRunEvent>)
    ensures
        r.deep_view() == events_of(events.deep_view(), id@),
{
    let ghost all = events.deep_view();
    let mut out: Vec<StoredRunEvent> = Vec::new();
    let mut i: usize = 0;
    proof {
        assert(out.deep_view() =~= events_of(all.take(0), id@));
    }
    while i < events.len()
        invariant
            i <= events@.len(),
            all == events.deep_view(),
            out.deep_view() == events_of(all.take(i as int), id@),
        decreases events@.len() - i,
    {
        proof {
            assert(all.take(i + 1).drop_last() =~= all.take(i as int));
            assert(all[i as int] == (events@[i as int].0@, events@[i as int].1@));
        }
        if same_text(events[i].0.as_str(), id) {
            put(&mut out, events[i].1.duplicate());
        }
        i = i + 1;
    }
    proof {
        assert(all.take(i as int) =~= all);
    }
    out
}

/// Groups events by run, keeping the order within a run.
pub fn group_by_run(events: &Vec<(RunId, StoredRunEvent)>) -> (r: Vec<
    (RunId, Vec<StoredRunEvent>),
>)
    ensures
        r.deep_view() == grouped(events.deep_view()),
{
    let ghost all = events.deep_view();
    let ghost names = run_ids_of(all);
    let mut ids: Vec<String> = Vec::new();
    let mut i: usize = 0;
    proof {
        assert(ids.deep_view() =~= sorted_names(names.take(0)));
    }
    while i < events.len()
        invariant
            i <= events@.len(),
            all == events.deep_view(),
            names == run_ids_of(all),
            ids.deep_view() == sorted_names(names.take(i as int)),
        decreases events@.len() - i,
    {
        proof {
            assert(names.take(i + 1).drop_last() =~= names.take(i as int));
            assert(names[i as int] == events@[i as int].0@);
        }
        insert_sorted(&mut ids, events[i].0.as_str());
        i = i + 1;
    }
    proof {
        assert(names.take(i as int) =~= names);
    }
    let ghost goal = grouped(all);
    let mut out: Vec<(RunId, Vec<StoredRunEvent>)> = Vec::new();
    let mut j: usize = 0;
    proof {
        assert(out.deep_view() =~= goal.take(0));
    }
    while j < ids.len()
        invariant
            j <= ids@.len(),
            all == events.deep_view(),
            names == run_ids_of(all),
            ids.deep_view() == sorted_names(names),
            goal == grouped(all),
            out.deep_view() == goal.take(j as int),
        decreases ids@.len() - j,
    {
        proof {
            assert(ids.deep_view()[j as int] == ids@[j as int]@);
            assert(goal.take(j + 1) =~= goal.take(j as int).push(goal[j as int]));
        }
        put(&mut out, (ids[j].clone(), pick_events(events, ids[j].as_str())));
        j = j + 1;
    }
    proof {
        assert(goal.take(j as int) =~= goal);
    }
    out
}

/// The highest number among events; none where there are none.
pub open spec fn highest(events: Seq<StoredEventModel>) -> Option<u64>
    decreases events.len(),
{
    if events.len() == 0 {
        None
    } else {
        match highest(events.drop_last()) {
            Some(n) => Some(if events.last().sequence > n {
                events.last().sequence
            } else {
                n
            }),
            None => Some(events.last().sequence),
        }
    }
}

/// The highest number among events.
pub fn highest_sequence(events: &Vec<StoredRunEvent>) -> (r: Option<u64>)
    ensures
        r == highest(events.deep_view()),
{
    let ghost all = events.deep_view();
    let mut best: Option<u64> = None;
    let mut i: usize = 0;
    while i < events.len()
        invariant
            i <= events@.len(),
            all == events.deep_view(),
            best == highest(all.take(i as int)),
        decreases events@.len() - i,
    {
        proof {
            assert(all.take(i + 1).drop_last() =~= all.take(i as int));
            assert(all[i as int] == events@[i as int]@);
        }
        best = match best {
            Some(n) => if events[i].sequence > n {
                Some(events[i].sequence)
            } else {
                Some(n)
            },
            None => Some(events[i].sequence),
        };
        i = i + 1;
    }
    proof {
        assert(all.take(i as int) =~= all);
    }
    best
}

/// How far the events of a run have been handed on.
#[derive(Debug)]
pub enum PumpState {
    /// The events are to be pushed to the platform's run with this id.
    PushEvents(String),
    /// The events came through; the state of the run is to be pushed.
    PushState(String),
    /// The events are to be marked as handed on.
    Mark,
    /// Nothing more is to be done now; what is not marked comes again.
    Stop,
}

/// What a [`PumpState`] denotes.
#[verifier::ext_equal]
pub enum PumpModel {
    PushEvents(Seq<char>),
    PushState(Seq<char>),
    Mark,
    Stop,
}

impl View for PumpState {
    type V = PumpModel;

    open spec fn view(&self) -> PumpModel {
        match self {
            PumpState::PushEvents(id) => PumpModel::PushEvents(id@),
            PumpState::PushState(id) => PumpModel::PushState(id@),
            PumpState::Mark => PumpModel::Mark,
            PumpState::Stop => PumpModel::Stop,
        }
    }
}

/// How handing on the events of a run starts. The events of a run that the
/// platform did not start have nowhere to go and are marked at once.
pub open spec fn pump_start(key: Option<Seq<char>>) -> PumpModel {
    match platform_id(key) {
        Some(id) => PumpModel::PushEvents(id),
        None => PumpModel::Mark,
    }
}

/// Starts handing on the events of a run.
pub fn begin_pump(idempotency_key: Option<&str>) -> (r: PumpState)
    ensures
        r@ == pump_start(idempotency_key.deep_view()),
{
    match platform_run_id(idempotency_key) {
        Some(id) => PumpState::PushEvents(id.to_owned()),
        None => PumpState::Mark,
    }
}

/// What follows a push, given whether it came through: the events come before
/// the state, and both before the mark.
pub open spec fn pump_next(state: PumpModel, came_through: bool) -> PumpModel {
    match state {
        PumpModel::PushEvents(id) => if came_through {
            PumpModel::PushState(id)
        } else {
            PumpModel::Stop
        },
        PumpModel::PushState(_) => if came_through {
            PumpModel::Mark
        } else {
            PumpModel::Stop
        },
        _ => PumpModel::Stop,
    }
}

/// Goes on after a push.
pub fn advance_pump(state: PumpState, came_through: bool) -> (r: PumpState)
    ensures
        r@ == pump_next(state@, came_through),
{
    match state {
        PumpState::PushEvents(id) => if came_through {
            PumpState::PushState(id)
        } else {
            PumpState::Stop
        },
        PumpState::PushState(_) => if came_through {
            PumpState::Mark
        } else {
            PumpState::Stop
        },
        _ => PumpState::Stop,
    }
}

/// The events of a run of the platform are marked only after both pushes came
/// through.
pub proof fn marked_only_after_both_pushes(id: Seq<char>, events_ok: bool, state_ok: bool)
    ensures
        pump_next(pump_next(PumpModel::PushEvents(id), events_ok), state_ok) == PumpModel::Mark
            <==> events_ok && state_ok,
{
}

/// Every event of the batch is at most as high as the number up to which its
/// run is marked.
pub proof fn highest_covers_all(events: Seq<StoredEventModel>, i: int)
    requires
        0 <= i < events.len(),
    ensures
        highest(events) matches Some(n) && events[i].sequence <= n,
    decreases events.len(),
{
    if i < events.len() - 1 {
        assert(events.drop_last()[i] == events[i]);
        highest_covers_all(events.drop_last(), i);
    }
}

} // verus!
