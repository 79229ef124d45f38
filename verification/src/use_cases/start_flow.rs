//! Starting runs.
use crate::copy::{put, Duplicate};
use crate::flow::types::{FlowDefinition, FlowInputModel, FlowModel};
use crate::flow_source::{select_flow, selected};
use crate::json::{json_member, Json, JsonValue};
use crate::json_laws::{first_entry_is_the_member, members_are_entries};
use crate::maps::list_inputs;
use crate::names::{phase_name, phase_str};
use crate::ports::{
    state_of, store_error_text, NewRun, NewRunModel, RunId, RunRecord, RunRecordModel, StoreError,
    StoreErrorModel,
};
use crate::run::derive::{active_ids, active_steps};
use crate::run::types::Timestamp as Instant;
use crate::store::{
    created, keeps_runs, kept_key_finds_the_same_run, key_finds_created_run, key_index, key_owner,
    store_created, StoredRunModel,
};
use crate::text::{cat2, join, joined};
use crate::wire::Timestamp;
use vstd::prelude::*;

verus! {

/// Why a run cannot be started.
#[derive(Debug)]
#[allow(inconsistent_fields)]
pub enum StartFlowError {
    FlowNotFound(String),
    MissingInputs(String),
    Store(StoreError),
}

/// What a [`StartFlowError`] denotes.
#[verifier::ext_equal]
#[allow(inconsistent_fields)]
pub enum StartFlowErrorModel {
    FlowNotFound(Seq<char>),
    MissingInputs(Seq<char>),
    Store(StoreErrorModel),
}

impl View for StartFlowError {
    type V = StartFlowErrorModel;

    open spec fn view(&self) -> StartFlowErrorModel {
        match self {
            StartFlowError::FlowNotFound(x) => StartFlowErrorModel::FlowNotFound(x@),
            StartFlowError::MissingInputs(x) => StartFlowErrorModel::MissingInputs(x@),
            StartFlowError::Store(x) => StartFlowErrorModel::Store(x@),
        }
    }
}

impl DeepView for StartFlowError {
    type V = StartFlowErrorModel;

    open spec fn deep_view(&self) -> StartFlowErrorModel {
        self@
    }
}

impl Duplicate for StartFlowError {
    fn duplicate(&self) -> (r: Self) {
        match self {
            StartFlowError::FlowNotFound(x) => StartFlowError::FlowNotFound(x.duplicate()),
            StartFlowError::MissingInputs(x) => StartFlowError::MissingInputs(x.duplicate()),
            StartFlowError::Store(x) => StartFlowError::Store(x.duplicate()),
        }
    }
}

impl Clone for StartFlowError {
    fn clone(&self) -> (r: Self)
        ensures
            r@ == self@,
    {
        self.duplicate()
    }
}

/// The text that describes why a run cannot be started.
pub open spec fn start_error_text(e: StartFlowErrorModel) -> Seq<char> {
    match e {
        StartFlowErrorModel::FlowNotFound(name) => "flow not found: "@ + name,
        StartFlowErrorModel::MissingInputs(names) => "missing required input(s): "@ + names,
        StartFlowErrorModel::Store(e) => "store error: "@ + store_error_text(e),
    }
}

impl StartFlowError {
    /// The text that describes this error.
    pub fn message(&self) -> (r: String)
        ensures
            r@ == start_error_text(self@),
    {
        match self {
            StartFlowError::FlowNotFound(name) => cat2("flow not found: ", name.as_str()),
            StartFlowError::MissingInputs(names) => cat2(
                "missing required input(s): ",
                names.as_str(),
            ),
            StartFlowError::Store(e) => cat2("store error: ", e.message().as_str()),
        }
    }
}

/// A run to be started.
#[derive(Debug)]
pub struct StartFlowRequest {
    pub flow_name: String,
    /// Which version of the flow; the highest without it.
    pub version_req: Option<String>,
    /// The values of the flow's inputs.
    pub inputs: JsonValue,
    /// What started the run. It is kept with the run.
    pub trigger: JsonValue,
    /// A second request with the same key gets the run of the first.
    pub idempotency_key: Option<String>,
}

/// A run that was started, or that was there already.
#[derive(Debug)]
pub struct StartFlowResponse {
    pub run_id: String,
    pub phase: String,
    pub active_steps: Vec<String>,
    pub started_at: Timestamp,
    /// Whether a run with the same key was there already.
    pub replayed: bool,
}

/// What a [`StartFlowResponse`] denotes.
#[verifier::ext_equal]
pub struct StartedModel {
    pub run_id: Seq<char>,
    pub phase: Seq<char>,
    pub active_steps: Seq<Seq<char>>,
    pub started_at: Timestamp,
    pub replayed: bool,
}

impl View for StartFlowResponse {
    type V = StartedModel;

    open spec fn view(&self) -> StartedModel {
        StartedModel {
            run_id: self.run_id@,
            phase: self.phase@,
            active_steps: self.active_steps.deep_view(),
            started_at: self.started_at,
            replayed: self.replayed,
        }
    }
}

/// Whether an input is there: present and not `null`.
pub open spec fn has_input(inputs: Json, name: Seq<char>) -> bool {
    json_member(inputs, name) matches Some(v) && v != Json::Null
}

/// The names of the required inputs that are not there.
pub open spec fn missing_of(declared: Seq<(Seq<char>, FlowInputModel)>, inputs: Json) -> Seq<
    Seq<char>,
>
    decreases declared.len(),
{
    if declared.len() == 0 {
        Seq::empty()
    } else if declared.last().1.required && !has_input(inputs, declared.last().0) {
        missing_of(declared.drop_last(), inputs).push(declared.last().0)
    } else {
        missing_of(declared.drop_last(), inputs)
    }
}

/// Lists the required inputs that are not there, in the order of their
/// declaration.
pub fn missing_inputs(flow: &FlowDefinition, inputs: &JsonValue) -> (r: Vec<String>)
    ensures
        r.deep_view() == missing_of(flow@.inputs, inputs@),
{
    let declared = list_inputs(&flow.inputs);
    let ghost all = declared.deep_view();
    let mut out: Vec<String> = Vec::new();
    let mut i: usize = 0;
    proof {
        assert(out.deep_view() =~= missing_of(all.take(0), inputs@));
    }
    while i < declared.len()
        invariant
            i <= declared@.len(),
            all == declared.deep_view(),
            out.deep_view() == missing_of(all.take(i as int), inputs@),
        decreases declared@.len() - i,
    {
        proof {
            assert(all.take(i + 1).drop_last() =~= all.take(i as int));
            assert(all[i as int] == (declared@[i as int].0@, declared@[i as int].1@));
        }
        let there = match inputs.get(declared[i].0.as_str()) {
            Some(v) => !v.is_null(),
            None => false,
        };
        if declared[i].1.required && !there {
            put(&mut out, declared[i].0.clone());
        }
        i = i + 1;
    }
    proof {
        assert(all.take(i as int) =~= all);
    }
    out
}

/// Checks that every required input is there.
pub fn check_inputs(flow: &FlowDefinition, inputs: &JsonValue) -> (r: Result<(), StartFlowError>)
    ensures
        r is Ok <==> missing_of(flow@.inputs, inputs@).len() == 0,
        r matches Err(e) ==> e@ == StartFlowErrorModel::MissingInputs(
            joined(missing_of(flow@.inputs, inputs@), ", "@),
        ),
{
    let missing = missing_inputs(flow, inputs);
    if missing.len() == 0 {
        Ok(())
    } else {
        Err(StartFlowError::MissingInputs(join(&missing, ", ")))
    }
}

/// The run to be created for a request.
pub open spec fn new_run_of(
    flow: FlowModel,
    inputs: Json,
    trigger: Json,
    key: Option<Seq<char>>,
) -> NewRunModel {
    NewRunModel {
        flow_name: flow.name,
        flow_version: flow.version,
        definition: flow,
        inputs,
        trigger,
        idempotency_key: key,
    }
}

/// What a request to start a run comes to.
#[derive(Debug)]
pub enum Start {
    /// The run with the request's key is there already.
    Replay(RunId),
    /// This run is to be created.
    Create(NewRun),
}

/// What a [`Start`] denotes.
#[verifier::ext_equal]
pub enum StartModel {
    Replay(Seq<char>),
    Create(NewRunModel),
}

impl View for Start {
    type V = StartModel;

    open spec fn view(&self) -> StartModel {
        match self {
            Start::Replay(id) => StartModel::Replay(id@),
            Start::Create(new) => StartModel::Create(new@),
        }
    }
}

/// What the store found when it was asked for the run with a key.
pub open spec fn owner_found(owner: Result<Option<RunId>, StoreError>) -> Result<
    Option<Seq<char>>,
    StoreErrorModel,
> {
    match owner {
        Ok(id) => Ok(id.deep_view()),
        Err(e) => Err(e@),
    }
}

/// What a request to run a flow comes to: it is refused where a required input
/// is missing; it is answered with the run that has its key, where there is
/// one; else a run is created.
pub open spec fn start_of(
    new: NewRunModel,
    owner: Result<Option<Seq<char>>, StoreErrorModel>,
) -> Result<StartModel, StartFlowErrorModel> {
    let missing = missing_of(new.definition.inputs, new.inputs);
    if missing.len() > 0 {
        Err(StartFlowErrorModel::MissingInputs(joined(missing, ", "@)))
    } else {
        match owner {
            Err(e) => Err(StartFlowErrorModel::Store(e)),
            Ok(Some(id)) => Ok(StartModel::Replay(id)),
            Ok(None) => Ok(StartModel::Create(new)),
        }
    }
}

/// What a result of starting a run denotes.
pub open spec fn start_outcome(r: Result<Start, StartFlowError>) -> Result<
    StartModel,
    StartFlowErrorModel,
> {
    match r {
        Ok(start) => Ok(start@),
        Err(e) => Err(e@),
    }
}

/// Decides what a request to run this flow comes to. `owner` is what the store
/// found when it was asked for the run with the request's key; nothing where
/// the request has none.
pub fn start_flow_with_definition(
    flow: FlowDefinition,
    owner: Result<Option<RunId>, StoreError>,
    inputs: JsonValue,
    trigger: JsonValue,
    idempotency_key: Option<String>,
) -> (r: Result<Start, StartFlowError>)
    ensures
        start_outcome(r) == start_of(
            new_run_of(flow@, inputs@, trigger@, idempotency_key.deep_view()),
            owner_found(owner),
        ),
{
    match check_inputs(&flow, &inputs) {
        Ok(_) => match owner {
            Err(e) => Err(StartFlowError::Store(e)),
            Ok(Some(id)) => Ok(Start::Replay(id)),
            Ok(None) => Ok(
                Start::Create(
                    NewRun {
                        flow_name: flow.name.clone(),
                        flow_version: flow.version.clone(),
                        definition: flow,
                        inputs,
                        trigger,
                        idempotency_key,
                    },
                ),
            ),
        },
        Err(e) => Err(e),
    }
}

/// Decides what a request comes to, given the flows there are: the flow of its
/// name with the highest version that meets its requirement is the one to run.
/// `owner` is what the store found when it was asked for the run with the
/// request's key.
pub fn start_flow(
    flows: &[FlowDefinition],
    owner: Result<Option<RunId>, StoreError>,
    req: StartFlowRequest,
) -> (r: Result<Start, StartFlowError>)
    ensures
        start_outcome(r) == (match selected(
            flows.deep_view(),
            req.flow_name@,
            req.version_req.deep_view(),
        ) {
            None => Err(StartFlowErrorModel::FlowNotFound(req.flow_name@)),
            Some(flow) => start_of(
                new_run_of(flow, req.inputs@, req.trigger@, req.idempotency_key.deep_view()),
                owner_found(owner),
            ),
        }),
{
    let requirement: Option<&str> = match &req.version_req {
        Some(q) => Some(q.as_str()),
        None => None,
    };
    match select_flow(flows, req.flow_name.as_str(), requirement) {
        None => Err(StartFlowError::FlowNotFound(req.flow_name)),
        Some(flow) => start_flow_with_definition(
            flow,
            owner,
            req.inputs,
            req.trigger,
            req.idempotency_key,
        ),
    }
}

/// What follows the attempt to create a run.
#[derive(Debug)]
pub enum Creation {
    /// The run was created and is to be started.
    Started(RunId),
    /// Another run has this key; that run is the answer.
    Replay(String),
    /// The store failed.
    Failed(StartFlowError),
}

/// What a [`Creation`] denotes.
#[verifier::ext_equal]
pub enum CreationModel {
    Started(Seq<char>),
    Replay(Seq<char>),
    Failed(StartFlowErrorModel),
}

impl View for Creation {
    type V = CreationModel;

    open spec fn view(&self) -> CreationModel {
        match self {
            Creation::Started(id) => CreationModel::Started(id@),
            Creation::Replay(key) => CreationModel::Replay(key@),
            Creation::Failed(e) => CreationModel::Failed(e@),
        }
    }
}

/// What follows the attempt to create a run with this key.
pub open spec fn creation_of(
    result: Result<Seq<char>, StoreErrorModel>,
    key: Option<Seq<char>>,
) -> CreationModel {
    match (result, key) {
        (Ok(id), _) => CreationModel::Started(id),
        (Err(StoreErrorModel::Duplicate(_)), Some(key)) => CreationModel::Replay(key),
        (Err(e), _) => CreationModel::Failed(StartFlowErrorModel::Store(e)),
    }
}

/// Decides what follows the attempt to create a run. Where another request
/// with the same key came first, its run is the answer.
pub fn after_create(result: Result<RunId, StoreError>, idempotency_key: Option<String>) -> (r: Creation)
    ensures
        r@ == creation_of(
            match result {
                Ok(id) => Ok(id@),
                Err(e) => Err(e@),
            },
            idempotency_key.deep_view(),
        ),
{
    match result {
        Ok(id) => Creation::Started(id),
        Err(e) => match (&e, idempotency_key) {
            (StoreError::Duplicate(_), Some(key)) => Creation::Replay(key),
            _ => Creation::Failed(StartFlowError::Store(e)),
        },
    }
}

/// The run that is the answer where a key was taken: the one that the store
/// found with it.
pub open spec fn key_answer(
    owner: Result<Option<Seq<char>>, StoreErrorModel>,
    key: Seq<char>,
) -> Result<Seq<char>, StartFlowErrorModel> {
    match owner {
        Err(e) => Err(StartFlowErrorModel::Store(e)),
        Ok(Some(id)) => Ok(id),
        Ok(None) => Err(StartFlowErrorModel::Store(StoreErrorModel::Duplicate(key))),
    }
}

/// Decides which run is the answer where a key was taken. Where the store finds
/// none with it after all, the key is reported as taken.
pub fn after_duplicate(owner: Result<Option<RunId>, StoreError>, key: String) -> (r: Result<
    RunId,
    StartFlowError,
>)
    ensures
        (match r {
            Ok(id) => Ok(id@),
            Err(e) => Err(e@),
        }) == key_answer(owner_found(owner), key@),
{
    match owner {
        Err(e) => Err(StartFlowError::Store(e)),
        Ok(Some(id)) => Ok(id),
        Ok(None) => Err(StartFlowError::Store(StoreError::Duplicate(key))),
    }
}

/// How a run is shown after it was started, or found by its key.
pub open spec fn started_of(record: RunRecordModel, replayed: bool) -> StartedModel {
    StartedModel {
        run_id: record.run_id,
        phase: phase_name(record.phase),
        active_steps: active_ids(state_of(record).steps, None),
        started_at: Timestamp(record.created_at),
        replayed,
    }
}

/// Shows a run after it was started, or found by its key.
pub fn start_response(record: &RunRecord, replayed: bool) -> (r: StartFlowResponse)
    ensures
        r@ == started_of(record@, replayed),
{
    let state = record.run_state();
    StartFlowResponse {
        run_id: record.run_id.clone(),
        phase: phase_str(record.phase).to_owned(),
        active_steps: active_steps(&state),
        started_at: Timestamp(record.created_at),
        replayed,
    }
}

/// What a request does against a store.
pub enum RequestModel {
    /// A run was created under this id and is started. These are the runs now.
    Started { runs: Seq<StoredRunModel>, run_id: Seq<char> },
    /// The run under this id is the answer. Nothing is created or started.
    Replayed { run_id: Seq<char> },
    /// The request is refused, and nothing is created or started.
    Refused(StartFlowErrorModel),
}

/// The run that a request is asked for by its key.
pub open spec fn request_owner(runs: Seq<StoredRunModel>, key: Option<Seq<char>>) -> Option<
    Seq<char>,
> {
    match key {
        Some(key) => key_owner(runs, key),
        None => None,
    }
}

/// What a request for this run does: `seen` are the runs when its key is looked
/// up, `runs` those when the run is created. Between the two another request
/// may have come.
pub open spec fn requested(
    seen: Seq<StoredRunModel>,
    runs: Seq<StoredRunModel>,
    new: NewRunModel,
    run_id: Seq<char>,
    now: Instant,
) -> RequestModel {
    match start_of(new, Ok(request_owner(seen, new.idempotency_key))) {
        Err(e) => RequestModel::Refused(e),
        Ok(StartModel::Replay(run_id)) => RequestModel::Replayed { run_id },
        Ok(StartModel::Create(new)) => {
            let attempt = store_created(runs, new, run_id, now);
            let result = match attempt {
                Ok(_) => Ok(run_id),
                Err(e) => Err(e),
            };
            match creation_of(result, new.idempotency_key) {
                CreationModel::Started(run_id) => RequestModel::Started {
                    runs: attempt->Ok_0,
                    run_id,
                },
                CreationModel::Replay(key) => match key_answer(Ok(key_owner(runs, key)), key) {
                    Ok(run_id) => RequestModel::Replayed { run_id },
                    Err(e) => RequestModel::Refused(e),
                },
                CreationModel::Failed(e) => RequestModel::Refused(e),
            }
        },
    }
}

/// Of two requests with one key that no run has, the first starts a run and the
/// second is answered with it, however the second meets the first: it may have
/// looked its key up before the run was there. `runs` are those before the
/// first request, `later` those when the second is answered; the run may have
/// gone on in between.
pub proof fn one_key_starts_one_run(
    runs: Seq<StoredRunModel>,
    new: NewRunModel,
    run_id: Seq<char>,
    now: Instant,
    seen: Seq<StoredRunModel>,
    later: Seq<StoredRunModel>,
    again: NewRunModel,
    other_id: Seq<char>,
    then: Instant,
    key: Seq<char>,
)
    requires
        new.idempotency_key == Some(key),
        again.idempotency_key == Some(key),
        missing_of(new.definition.inputs, new.inputs).len() == 0,
        missing_of(again.definition.inputs, again.inputs).len() == 0,
        key_index(runs, key) is None,
        keeps_runs(runs.push(created(new, run_id, now)), later),
        key_index(seen, key) is None || keeps_runs(runs.push(created(new, run_id, now)), seen),
    ensures
        requested(runs, runs, new, run_id, now) == (RequestModel::Started {
            runs: runs.push(created(new, run_id, now)),
            run_id,
        }),
        requested(seen, later, again, other_id, then) == (RequestModel::Replayed { run_id }),
        ({
            let found = key_index(later, key);
            &&& found is Some
            &&& started_of(later[found->Some_0].record, true).run_id == run_id
        }),
{
    let after = runs.push(created(new, run_id, now));
    key_finds_created_run(runs, new, run_id, now, key);
    kept_key_finds_the_same_run(after, later, key);
    if key_index(seen, key) is Some {
        kept_key_finds_the_same_run(after, seen, key);
    }
}

/// A request without a key always starts a run of its own, unless an input is
/// missing.
pub proof fn request_without_key_starts_a_run(
    runs: Seq<StoredRunModel>,
    new: NewRunModel,
    run_id: Seq<char>,
    now: Instant,
)
    requires
        new.idempotency_key is None,
        missing_of(new.definition.inputs, new.inputs).len() == 0,
    ensures
        requested(runs, runs, new, run_id, now) == (RequestModel::Started {
            runs: runs.push(created(new, run_id, now)),
            run_id,
        }),
{
}

/// Whether an input of this name, declared at any place, is required and not
/// given: it is not in the request, or `null` there.
pub open spec fn is_missing(
    declared: Seq<(Seq<char>, FlowInputModel)>,
    inputs: Json,
    name: Seq<char>,
) -> bool {
    exists|i: int|
        0 <= i < declared.len() && (#[trigger] declared[i]).0 == name && declared[i].1.required
            && !is_given(inputs, name)
}

/// Whether a request gives an input: it is an object whose first entry of that
/// name is not `null`.
pub open spec fn is_given(inputs: Json, name: Seq<char>) -> bool {
    match inputs {
        Json::Object(entries) => exists|k: int|
            0 <= k < entries.len() && (#[trigger] entries[k]).0 == name && entries[k].1
                != Json::Null && forall|j: int| 0 <= j < k ==> (#[trigger] entries[j]).0 != name,
        _ => false,
    }
}

proof fn lemma_given(inputs: Json, name: Seq<char>)
    ensures
        has_input(inputs, name) <==> is_given(inputs, name),
{
    members_are_entries(inputs, name);
    if let Json::Object(entries) = inputs {
        if has_input(inputs, name) {
            let i = choose|i: int| 0 <= i < entries.len() && (#[trigger] entries[i]).0 == name;
            let k = lemma_first(entries, i);
            first_entry_is_the_member(entries, k);
        }
        if is_given(inputs, name) {
            let k = choose|k: int|
                0 <= k < entries.len() && (#[trigger] entries[k]).0 == name && entries[k].1
                    != Json::Null && forall|j: int|
                    0 <= j < k ==> (#[trigger] entries[j]).0 != name;
            first_entry_is_the_member(entries, k);
        }
    }
}

proof fn lemma_first(entries: Seq<(Seq<char>, Json)>, i: int) -> (k: int)
    requires
        0 <= i < entries.len(),
    ensures
        0 <= k <= i,
        entries[k].0 == entries[i].0,
        forall|j: int| 0 <= j < k ==> (#[trigger] entries[j]).0 != entries[i].0,
    decreases i,
{
    if exists|j: int| 0 <= j < i && (#[trigger] entries[j]).0 == entries[i].0 {
        let j = choose|j: int| 0 <= j < i && (#[trigger] entries[j]).0 == entries[i].0;
        lemma_first(entries, j)
    } else {
        i
    }
}

/// Every required input is checked, at whatever place it is declared: an input
/// is reported as missing exactly where it is required and not given.
pub proof fn every_required_input_is_checked(
    declared: Seq<(Seq<char>, FlowInputModel)>,
    inputs: Json,
    name: Seq<char>,
)
    ensures
        missing_of(declared, inputs).contains(name) <==> is_missing(declared, inputs, name),
    decreases declared.len(),
{
    let all = missing_of(declared, inputs);
    lemma_given(inputs, name);
    if declared.len() > 0 {
        let rest = declared.drop_last();
        let last = declared.last();
        let before = missing_of(rest, inputs);
        every_required_input_is_checked(rest, inputs, name);
        lemma_given(inputs, last.0);
        assert(declared[declared.len() - 1] == last);
        if is_missing(rest, inputs, name) {
            let i = choose|i: int|
                0 <= i < rest.len() && (#[trigger] rest[i]).0 == name && rest[i].1.required
                    && !is_given(inputs, name);
            assert(declared[i] == rest[i]);
            let k = choose|k: int| 0 <= k < before.len() && before[k] == name;
            assert(all[k] == name);
        }
        if is_missing(declared, inputs, name) {
            let i = choose|i: int|
                0 <= i < declared.len() && (#[trigger] declared[i]).0 == name
                    && declared[i].1.required && !is_given(inputs, name);
            if i < rest.len() {
                assert(rest[i] == declared[i]);
            } else {
                assert(all[before.len() as int] == name);
            }
        }
        if all.contains(name) {
            let k = choose|k: int| 0 <= k < all.len() && all[k] == name;
            if k < before.len() {
                assert(before[k] == name);
            }
        }
    }
}

/// A run is created exactly where every required input is given and no run has
/// the key; otherwise the run that has it is the answer, or the request is
/// refused. What is created is what was asked for.
pub proof fn run_is_created_with_all_its_inputs(
    new: NewRunModel,
    owner: Option<Seq<char>>,
)
    ensures
        ({
            let complete = forall|name: Seq<char>|
                !#[trigger] is_missing(new.definition.inputs, new.inputs, name);
            match start_of(new, Ok(owner)) {
                Ok(StartModel::Create(made)) => complete && owner is None && made == new,
                Ok(StartModel::Replay(id)) => complete && owner == Some(id),
                Err(e) => !complete && e is MissingInputs,
            }
        }),
{
    let declared = new.definition.inputs;
    let missing = missing_of(declared, new.inputs);
    if missing.len() > 0 {
        assert(missing.contains(missing[0]));
        every_required_input_is_checked(declared, new.inputs, missing[0]);
    } else {
        assert forall|name: Seq<char>| !#[trigger] is_missing(declared, new.inputs, name) by {
            every_required_input_is_checked(declared, new.inputs, name);
        }
    }
}

/// The run that is asked for is one of the selected flow, as it is now, with
/// what the request says.
pub proof fn request_asks_for_its_flow(
    flow: FlowModel,
    inputs: Json,
    trigger: Json,
    key: Option<Seq<char>>,
)
    ensures
        ({
            let new = new_run_of(flow, inputs, trigger, key);
            &&& new.flow_name == flow.name
            &&& new.flow_version == flow.version
            &&& new.definition == flow
            &&& new.inputs == inputs
            &&& new.trigger == trigger
            &&& new.idempotency_key == key
        }),
{
}

/// A request whose key was taken meanwhile is answered with the run that has it,
/// and refused where that run cannot be found.
pub proof fn taken_key_is_answered_with_its_run(
    owner: Result<Option<Seq<char>>, StoreErrorModel>,
    key: Seq<char>,
)
    ensures
        owner matches Ok(Some(id)) ==> key_answer(owner, key) == Ok::<
            Seq<char>,
            StartFlowErrorModel,
        >(id),
        !(owner matches Ok(Some(_))) ==> key_answer(owner, key) is Err,
        owner matches Err(e) ==> key_answer(owner, key) == Err::<Seq<char>, StartFlowErrorModel>(
            StartFlowErrorModel::Store(e),
        ),
        owner matches Ok(None) ==> key_answer(owner, key) == Err::<Seq<char>, StartFlowErrorModel>(
            StartFlowErrorModel::Store(StoreErrorModel::Duplicate(key)),
        ),
{
}

} // verus!
