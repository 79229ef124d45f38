//! The shape of a flow definition.
use crate::copy::Duplicate;
use crate::json::{entry_value, find_entry, lemma_array_view, lemma_object_view, Json, JsonValue};
use crate::maps::{
    copy_inputs, copy_texts, copy_values, input_entries, new_value_map, put_entry, put_value,
    text_entries, value_entries,
};
use crate::text::same_text;
use vstd::prelude::*;

verus! {

/// Either one target or a list of targets. A single target is sugar for a
/// one-element list.
#[derive(Debug, PartialEq, Eq)]
pub enum RouteTarget {
    One(String),
    Many(Vec<String>),
}

impl View for RouteTarget {
    type V = Seq<Seq<char>>;

    open spec fn view(&self) -> Seq<Seq<char>> {
        match self {
            RouteTarget::One(s) => seq![s@],
            RouteTarget::Many(v) => v.deep_view(),
        }
    }
}

impl DeepView for RouteTarget {
    type V = Seq<Seq<char>>;

    open spec fn deep_view(&self) -> Seq<Seq<char>> {
        self@
    }
}

impl Duplicate for RouteTarget {
    fn duplicate(&self) -> (r: Self) {
        match self {
            RouteTarget::One(s) => RouteTarget::One(s.clone()),
            RouteTarget::Many(v) => RouteTarget::Many(v.duplicate()),
        }
    }
}

impl Clone for RouteTarget {
    fn clone(&self) -> (r: Self)
        ensures
            r@ == self@,
    {
        self.duplicate()
    }
}

impl RouteTarget {
    /// The targets, in order.
    pub fn as_slice(&self) -> (r: Vec<&str>)
        ensures
            r.deep_view() == self@,
    {
        let mut out: Vec<&str> = Vec::new();
        match self {
            RouteTarget::One(s) => {
                out.push(s.as_str());
            },
            RouteTarget::Many(v) => {
                let mut i: usize = 0;
                while i < v.len()
                    invariant
                        i <= v@.len(),
                        out.deep_view() == v.deep_view().take(i as int),
                    decreases v@.len() - i,
                {
                    let ghost before = out.deep_view();
                    out.push(v[i].as_str());
                    proof {
                        assert(out.deep_view() =~= before.push(v@[i as int]@));
                        assert(v.deep_view().take(i + 1) =~= v.deep_view().take(i as int).push(
                            v@[i as int]@,
                        ));
                    }
                    i = i + 1;
                }
            },
        }
        proof {
            assert(out.deep_view() =~= self@);
        }
        out
    }
}

/// The target that ends a route.
pub const DONE: &'static str = "done";

/// When an `after_run` hook is due.
#[derive(Debug, Clone, Copy, PartialEq, Eq, Structural)]
pub enum HookCondition {
    Succeeded,
    Failed,
    Cancelled,
    Always,
}

impl DeepView for HookCondition {
    type V = HookCondition;

    open spec fn deep_view(&self) -> HookCondition {
        *self
    }
}

impl Default for HookCondition {
    fn default() -> (r: Self)
        ensures
            r == HookCondition::Succeeded,
    {
        HookCondition::Succeeded
    }
}

/// One call of a hook tool.
#[derive(Debug)]
pub struct HookCall {
    pub hook: String,
    pub args: indexmap::IndexMap<String, JsonValue>,
    pub timeout: Option<String>,
    pub when: Option<HookCondition>,
    pub always_continue: bool,
}

/// What a [`HookCall`] denotes.
#[verifier::ext_equal]
pub struct HookModel {
    pub hook: Seq<char>,
    pub args: Seq<(Seq<char>, Json)>,
    pub timeout: Option<Seq<char>>,
    pub when: Option<HookCondition>,
    pub always_continue: bool,
}

impl View for HookCall {
    type V = HookModel;

    open spec fn view(&self) -> HookModel {
        HookModel {
            hook: self.hook@,
            args: value_entries(self.args),
            timeout: self.timeout.deep_view(),
            when: self.when,
            always_continue: self.always_continue,
        }
    }
}

impl DeepView for HookCall {
    type V = HookModel;

    open spec fn deep_view(&self) -> HookModel {
        self@
    }
}

impl Duplicate for HookCall {
    fn duplicate(&self) -> (r: Self) {
        HookCall {
            hook: self.hook.clone(),
            args: copy_values(&self.args),
            timeout: self.timeout.duplicate(),
            when: self.when,
            always_continue: self.always_continue,
        }
    }
}

impl Clone for HookCall {
    fn clone(&self) -> (r: Self)
        ensures
            r@ == self@,
    {
        self.duplicate()
    }
}

/// The hooks that run around a whole run.
#[derive(Debug, Default)]
pub struct LifecycleHooks {
    pub before_run: Vec<HookCall>,
    pub after_run: Vec<HookCall>,
}

/// What [`LifecycleHooks`] denote.
#[verifier::ext_equal]
pub struct LifecycleModel {
    pub before_run: Seq<HookModel>,
    pub after_run: Seq<HookModel>,
}

impl View for LifecycleHooks {
    type V = LifecycleModel;

    open spec fn view(&self) -> LifecycleModel {
        LifecycleModel {
            before_run: self.before_run.deep_view(),
            after_run: self.after_run.deep_view(),
        }
    }
}

/// The `with` block of a cli step.
#[derive(Debug)]
pub struct CliWith {
    pub cli: String,
    pub role: Option<String>,
    pub input: String,
    pub output: Option<String>,
    /// Every other entry of the block.
    pub extra: indexmap::IndexMap<String, JsonValue>,
}

/// What a [`CliWith`] denotes.
#[verifier::ext_equal]
pub struct CliModel {
    pub cli: Seq<char>,
    pub role: Option<Seq<char>>,
    pub input: Seq<char>,
    pub output: Option<Seq<char>>,
    pub extra: Seq<(Seq<char>, Json)>,
}

impl View for CliWith {
    type V = CliModel;

    open spec fn view(&self) -> CliModel {
        CliModel {
            cli: self.cli@,
            role: self.role.deep_view(),
            input: self.input@,
            output: self.output.deep_view(),
            extra: value_entries(self.extra),
        }
    }
}

/// The `with` block of a subflow step.
#[derive(Debug)]
pub struct SubflowWith {
    pub flow: String,
    pub version: Option<String>,
    pub inputs: indexmap::IndexMap<String, JsonValue>,
    pub output: Option<String>,
}

/// What a [`SubflowWith`] denotes.
#[verifier::ext_equal]
pub struct SubflowModel {
    pub flow: Seq<char>,
    pub version: Option<Seq<char>>,
    pub inputs: Seq<(Seq<char>, Json)>,
    pub output: Option<Seq<char>>,
}

impl View for SubflowWith {
    type V = SubflowModel;

    open spec fn view(&self) -> SubflowModel {
        SubflowModel {
            flow: self.flow@,
            version: self.version.deep_view(),
            inputs: value_entries(self.inputs),
            output: self.output.deep_view(),
        }
    }
}

/// The `with` block of a step, read as its type asks. Built on demand by
/// [`Step::kind`].
#[derive(Debug)]
#[allow(inconsistent_fields)]
pub enum StepWith {
    Cli { with: CliWith },
    Subflow { with: SubflowWith },
}

/// What a [`StepWith`] denotes.
#[verifier::ext_equal]
pub enum StepWithModel {
    Cli(CliModel),
    Subflow(SubflowModel),
}

impl View for StepWith {
    type V = StepWithModel;

    open spec fn view(&self) -> StepWithModel {
        match self {
            StepWith::Cli { with } => StepWithModel::Cli(with@),
            StepWith::Subflow { with } => StepWithModel::Subflow(with@),
        }
    }
}

impl DeepView for StepWith {
    type V = StepWithModel;

    open spec fn deep_view(&self) -> StepWithModel {
        self@
    }
}

/// What a step runs.
#[derive(Debug, Clone, Copy, PartialEq, Eq, Structural)]
pub enum StepType {
    Cli,
    Subflow,
}

/// One step of a flow.
#[derive(Debug)]
pub struct Step {
    pub id: String,
    pub step_type: StepType,
    /// The `with` block as written; [`Step::kind`] reads it.
    pub with: JsonValue,
    pub human_loop: bool,
    pub timeout: Option<String>,
    pub retries: u32,
    pub reject_input: Option<String>,
    pub before: Vec<HookCall>,
    pub after: Vec<HookCall>,
    pub on_success: Option<RouteTarget>,
    pub on_failure: Option<RouteTarget>,
    pub on_approve: Option<RouteTarget>,
    pub on_reject: Option<RouteTarget>,
    pub needs: Vec<String>,
}

/// What a [`Step`] denotes.
#[verifier::ext_equal]
pub struct StepModel {
    pub id: Seq<char>,
    pub step_type: StepType,
    pub with: Json,
    pub human_loop: bool,
    pub timeout: Option<Seq<char>>,
    pub retries: u32,
    pub reject_input: Option<Seq<char>>,
    pub before: Seq<HookModel>,
    pub after: Seq<HookModel>,
    pub on_success: Option<Seq<Seq<char>>>,
    pub on_failure: Option<Seq<Seq<char>>>,
    pub on_approve: Option<Seq<Seq<char>>>,
    pub on_reject: Option<Seq<Seq<char>>>,
    pub needs: Seq<Seq<char>>,
}

impl View for Step {
    type V = StepModel;

    open spec fn view(&self) -> StepModel {
        StepModel {
            id: self.id@,
            step_type: self.step_type,
            with: self.with@,
            human_loop: self.human_loop,
            timeout: self.timeout.deep_view(),
            retries: self.retries,
            reject_input: self.reject_input.deep_view(),
            before: self.before.deep_view(),
            after: self.after.deep_view(),
            on_success: self.on_success.deep_view(),
            on_failure: self.on_failure.deep_view(),
            on_approve: self.on_approve.deep_view(),
            on_reject: self.on_reject.deep_view(),
            needs: self.needs.deep_view(),
        }
    }
}

impl DeepView for Step {
    type V = StepModel;

    open spec fn deep_view(&self) -> StepModel {
        self@
    }
}

impl Duplicate for Step {
    fn duplicate(&self) -> (r: Self) {
        Step {
            id: self.id.clone(),
            step_type: self.step_type,
            with: self.with.duplicate(),
            human_loop: self.human_loop,
            timeout: self.timeout.duplicate(),
            retries: self.retries,
            reject_input: self.reject_input.duplicate(),
            before: self.before.duplicate(),
            after: self.after.duplicate(),
            on_success: self.on_success.duplicate(),
            on_failure: self.on_failure.duplicate(),
            on_approve: self.on_approve.duplicate(),
            on_reject: self.on_reject.duplicate(),
            needs: self.needs.duplicate(),
        }
    }
}

impl Clone for Step {
    fn clone(&self) -> (r: Self)
        ensures
            r@ == self@,
    {
        self.duplicate()
    }
}

/// A text that has to be there.
pub open spec fn required_text(entries: Seq<(Seq<char>, Json)>, key: Seq<char>) -> Option<Seq<char>> {
    match entry_value(entries, key) {
        Some(Json::Text(s)) => Some(s),
        _ => None,
    }
}

/// A value read as an optional text: `null` is no text, and anything else
/// than a text does not fit (`None`).
pub open spec fn optional_text(value: Json) -> Option<Option<Seq<char>>> {
    match value {
        Json::Null => Some(None),
        Json::Text(s) => Some(Some(s)),
        _ => None,
    }
}

/// A text that may be absent or `null`; `None` where something else stands
/// there.
pub open spec fn optional_entry(entries: Seq<(Seq<char>, Json)>, key: Seq<char>) -> Option<
    Option<Seq<char>>,
> {
    match entry_value(entries, key) {
        None => Some(None),
        Some(v) => optional_text(v),
    }
}

/// Whether `key` is one of the named entries of a cli step's `with` block.
pub open spec fn is_cli_field(key: Seq<char>) -> bool {
    key == "cli"@ || key == "role"@ || key == "input"@ || key == "output"@
}

/// The entries that a cli step's `with` block holds besides the named ones.
pub open spec fn cli_extra(entries: Seq<(Seq<char>, Json)>) -> Seq<(Seq<char>, Json)>
    decreases entries.len(),
{
    if entries.len() == 0 {
        Seq::empty()
    } else if is_cli_field(entries.last().0) {
        cli_extra(entries.drop_last())
    } else {
        put_entry(cli_extra(entries.drop_last()), entries.last().0, entries.last().1)
    }
}

/// All entries, a repeated key keeping its first place and its last value.
pub open spec fn all_entries(entries: Seq<(Seq<char>, Json)>) -> Seq<(Seq<char>, Json)>
    decreases entries.len(),
{
    if entries.len() == 0 {
        Seq::empty()
    } else {
        put_entry(all_entries(entries.drop_last()), entries.last().0, entries.last().1)
    }
}

/// A cli step's `with` block: an object with the texts `cli` and `input`,
/// optional texts `role` and `output`, and anything else besides.
pub open spec fn cli_kind(with: Json) -> Option<CliModel> {
    match with {
        Json::Object(entries) => match (
            required_text(entries, "cli"@),
            optional_entry(entries, "role"@),
            required_text(entries, "input"@),
            optional_entry(entries, "output"@),
        ) {
            (Some(cli), Some(role), Some(input), Some(output)) => Some(
                CliModel { cli, role, input, output, extra: cli_extra(entries) },
            ),
            _ => None,
        },
        _ => None,
    }
}

/// The `inputs` entry of a subflow step's `with` block: an object, and empty
/// where the entry is missing.
pub open spec fn subflow_inputs(value: Option<Json>) -> Option<Seq<(Seq<char>, Json)>> {
    match value {
        None => Some(Seq::empty()),
        Some(Json::Object(entries)) => Some(all_entries(entries)),
        _ => None,
    }
}

/// A subflow step's `with` block: an object with the text `flow`, optional
/// texts `version` and `output` and an optional object `inputs`; or a list of
/// exactly these four, in the order `flow`, `version`, `inputs`, `output`.
pub open spec fn subflow_kind(with: Json) -> Option<SubflowModel> {
    match with {
        Json::Object(entries) => match (
            required_text(entries, "flow"@),
            optional_entry(entries, "version"@),
            subflow_inputs(entry_value(entries, "inputs"@)),
            optional_entry(entries, "output"@),
        ) {
            (Some(flow), Some(version), Some(inputs), Some(output)) => Some(
                SubflowModel { flow, version, inputs, output },
            ),
            _ => None,
        },
        Json::Array(items) => if items.len() == 4 {
            match (
                items[0],
                optional_text(items[1]),
                subflow_inputs(Some(items[2])),
                optional_text(items[3]),
            ) {
                (Json::Text(flow), Some(version), Some(inputs), Some(output)) => Some(
                    SubflowModel { flow, version, inputs, output },
                ),
                _ => None,
            }
        } else {
            None
        },
        _ => None,
    }
}

/// The `with` block of a step read as the step's type asks; `None` where it
/// has not the shape that the type requires.
pub open spec fn step_kind(step: StepModel) -> Option<StepWithModel> {
    match step.step_type {
        StepType::Cli => match cli_kind(step.with) {
            Some(m) => Some(StepWithModel::Cli(m)),
            None => None,
        },
        StepType::Subflow => match subflow_kind(step.with) {
            Some(m) => Some(StepWithModel::Subflow(m)),
            None => None,
        },
    }
}

fn read_required(entries: &Vec<(String, JsonValue)>, key: &str) -> (r: Option<String>)
    ensures
        r.deep_view() == required_text(entries.deep_view(), key@),
{
    match find_entry(entries, key) {
        Some(JsonValue::Text(s)) => Some(s.clone()),
        _ => None,
    }
}

fn read_optional_value(value: &JsonValue) -> (r: Option<Option<String>>)
    ensures
        r.deep_view() == optional_text(value@),
{
    match value {
        JsonValue::Null => Some(None),
        JsonValue::Text(s) => Some(Some(s.clone())),
        _ => None,
    }
}

fn read_optional(entries: &Vec<(String, JsonValue)>, key: &str) -> (r: Option<Option<String>>)
    ensures
        r.deep_view() == optional_entry(entries.deep_view(), key@),
{
    match find_entry(entries, key) {
        Some(v) => read_optional_value(v),
        None => Some(None),
    }
}

fn read_extra(entries: &Vec<(String, JsonValue)>) -> (r: indexmap::IndexMap<String, JsonValue>)
    ensures
        value_entries(r) == cli_extra(entries.deep_view()),
{
    let mut out = new_value_map();
    let mut i: usize = 0;
    let ghost all = entries.deep_view();
    while i < entries.len()
        invariant
            i <= entries@.len(),
            all == entries.deep_view(),
            value_entries(out) == cli_extra(all.take(i as int)),
        decreases entries@.len() - i,
    {
        proof {
            assert(all.take(i + 1).drop_last() =~= all.take(i as int));
            assert(all.take(i + 1).last() == (entries@[i as int].0@, entries@[i as int].1@));
        }
        let key = entries[i].0.as_str();
        if !(same_text(key, "cli") || same_text(key, "role") || same_text(key, "input")
            || same_text(key, "output")) {
            put_value(&mut out, entries[i].0.clone(), entries[i].1.duplicate());
        }
        i = i + 1;
    }
    proof {
        assert(all.take(i as int) =~= all);
    }
    out
}

fn read_all(entries: &Vec<(String, JsonValue)>) -> (r: indexmap::IndexMap<String, JsonValue>)
    ensures
        value_entries(r) == all_entries(entries.deep_view()),
{
    let mut out = new_value_map();
    let mut i: usize = 0;
    let ghost all = entries.deep_view();
    while i < entries.len()
        invariant
            i <= entries@.len(),
            all == entries.deep_view(),
            value_entries(out) == all_entries(all.take(i as int)),
        decreases entries@.len() - i,
    {
        proof {
            assert(all.take(i + 1).drop_last() =~= all.take(i as int));
            assert(all.take(i + 1).last() == (entries@[i as int].0@, entries@[i as int].1@));
        }
        put_value(&mut out, entries[i].0.clone(), entries[i].1.duplicate());
        i = i + 1;
    }
    proof {
        assert(all.take(i as int) =~= all);
    }
    out
}

fn read_inputs(value: Option<&JsonValue>) -> (r: Option<indexmap::IndexMap<String, JsonValue>>)
    ensures
        match r {
            Some(m) => subflow_inputs(value.deep_view()) == Some(value_entries(m)),
            None => subflow_inputs(value.deep_view()) is None,
        },
{
    match value {
        None => Some(new_value_map()),
        Some(v) => match v {
            JsonValue::Object(entries) => {
                proof {
                    lemma_object_view(*entries);
                }
                Some(read_all(entries))
            },
            _ => None,
        },
    }
}

fn read_cli(with: &JsonValue) -> (r: Option<CliWith>)
    ensures
        match r {
            Some(c) => cli_kind(with@) == Some(c@),
            None => cli_kind(with@) is None,
        },
{
    match with {
        JsonValue::Object(entries) => {
            proof {
                lemma_object_view(*entries);
            }
            let cli = match read_required(entries, "cli") {
                Some(s) => s,
                None => {
                    return None;
                },
            };
            let role = match read_optional(entries, "role") {
                Some(s) => s,
                None => {
                    return None;
                },
            };
            let input = match read_required(entries, "input") {
                Some(s) => s,
                None => {
                    return None;
                },
            };
            let output = match read_optional(entries, "output") {
                Some(s) => s,
                None => {
                    return None;
                },
            };
            let extra = read_extra(entries);
            Some(CliWith { cli, role, input, output, extra })
        },
        _ => None,
    }
}

fn read_subflow(with: &JsonValue) -> (r: Option<SubflowWith>)
    ensures
        match r {
            Some(c) => subflow_kind(with@) == Some(c@),
            None => subflow_kind(with@) is None,
        },
{
    match with {
        JsonValue::Object(entries) => {
            proof {
                lemma_object_view(*entries);
            }
            let flow = match read_required(entries, "flow") {
                Some(s) => s,
                None => {
                    return None;
                },
            };
            let version = match read_optional(entries, "version") {
                Some(s) => s,
                None => {
                    return None;
                },
            };
            let inputs = match read_inputs(find_entry(entries, "inputs")) {
                Some(m) => m,
                None => {
                    return None;
                },
            };
            let output = match read_optional(entries, "output") {
                Some(s) => s,
                None => {
                    return None;
                },
            };
            Some(SubflowWith { flow, version, inputs, output })
        },
        JsonValue::Array(items) => {
            proof {
                lemma_array_view(*items);
                assert forall|i: int| 0 <= i < items@.len() implies items.deep_view()[i]
                    == (#[trigger] items@[i])@ by {}
            }
            if items.len() != 4 {
                return None;
            }
            let flow = match &items[0] {
                JsonValue::Text(s) => s.clone(),
                _ => {
                    return None;
                },
            };
            let version = match read_optional_value(&items[1]) {
                Some(s) => s,
                None => {
                    return None;
                },
            };
            let inputs = match read_inputs(Some(&items[2])) {
                Some(m) => m,
                None => {
                    return None;
                },
            };
            let output = match read_optional_value(&items[3]) {
                Some(s) => s,
                None => {
                    return None;
                },
            };
            Some(SubflowWith { flow, version, inputs, output })
        },
        _ => None,
    }
}

impl Step {
    /// The name of the step's type.
    pub fn type_label(&self) -> (r: &'static str)
        ensures
            r@ == type_text(self.step_type),
    {
        match self.step_type {
            StepType::Cli => "cli",
            StepType::Subflow => "subflow",
        }
    }

    /// Reads `with` as the step's type asks. `None` means that `with` has not
    /// the shape that the type requires.
    pub fn kind(&self) -> (r: Option<StepWith>)
        ensures
            r.deep_view() == step_kind(self@),
    {
        match self.step_type {
            StepType::Cli => match read_cli(&self.with) {
                Some(with) => Some(StepWith::Cli { with }),
                None => None,
            },
            StepType::Subflow => match read_subflow(&self.with) {
                Some(with) => Some(StepWith::Subflow { with }),
                None => None,
            },
        }
    }
}

/// The name of a step type.
pub open spec fn type_text(t: StepType) -> Seq<char> {
    match t {
        StepType::Cli => "cli"@,
        StepType::Subflow => "subflow"@,
    }
}

/// A declared input of a flow.
#[derive(Debug)]
pub struct FlowInput {
    pub ty: String,
    pub required: bool,
    pub description: Option<String>,
    pub default: Option<JsonValue>,
}

/// What a [`FlowInput`] denotes.
#[verifier::ext_equal]
pub struct FlowInputModel {
    pub ty: Seq<char>,
    pub required: bool,
    pub description: Option<Seq<char>>,
    pub default: Option<Json>,
}

impl View for FlowInput {
    type V = FlowInputModel;

    open spec fn view(&self) -> FlowInputModel {
        FlowInputModel {
            ty: self.ty@,
            required: self.required,
            description: self.description.deep_view(),
            default: self.default.deep_view(),
        }
    }
}

impl DeepView for FlowInput {
    type V = FlowInputModel;

    open spec fn deep_view(&self) -> FlowInputModel {
        self@
    }
}

impl Duplicate for FlowInput {
    fn duplicate(&self) -> (r: Self) {
        FlowInput {
            ty: self.ty.clone(),
            required: self.required,
            description: self.description.duplicate(),
            default: self.default.duplicate(),
        }
    }
}

impl Clone for FlowInput {
    fn clone(&self) -> (r: Self)
        ensures
            r@ == self@,
    {
        self.duplicate()
    }
}

/// Defaults that a flow declares for its steps.
#[derive(Debug, Default)]
pub struct FlowDefaults {
    pub cli: Option<String>,
    pub provider: Option<String>,
    pub model: Option<String>,
}

/// What [`FlowDefaults`] denote.
#[verifier::ext_equal]
pub struct FlowDefaultsModel {
    pub cli: Option<Seq<char>>,
    pub provider: Option<Seq<char>>,
    pub model: Option<Seq<char>>,
}

impl View for FlowDefaults {
    type V = FlowDefaultsModel;

    open spec fn view(&self) -> FlowDefaultsModel {
        FlowDefaultsModel {
            cli: self.cli.deep_view(),
            provider: self.provider.deep_view(),
            model: self.model.deep_view(),
        }
    }
}

/// A flow.
#[derive(Debug)]
pub struct FlowDefinition {
    pub name: String,
    pub version: String,
    pub description: Option<String>,
    pub inputs: indexmap::IndexMap<String, FlowInput>,
    pub outputs: indexmap::IndexMap<String, String>,
    pub defaults: FlowDefaults,
    pub timeout: Option<String>,
    pub lifecycle: LifecycleHooks,
    pub metadata: indexmap::IndexMap<String, JsonValue>,
    pub flowspec_version: Option<String>,
    pub steps: Vec<Step>,
}

/// What a [`FlowDefinition`] denotes.
#[verifier::ext_equal]
pub struct FlowModel {
    pub name: Seq<char>,
    pub version: Seq<char>,
    pub description: Option<Seq<char>>,
    pub inputs: Seq<(Seq<char>, FlowInputModel)>,
    pub outputs: Seq<(Seq<char>, Seq<char>)>,
    pub defaults: FlowDefaultsModel,
    pub timeout: Option<Seq<char>>,
    pub lifecycle: LifecycleModel,
    pub metadata: Seq<(Seq<char>, Json)>,
    pub flowspec_version: Option<Seq<char>>,
    pub steps: Seq<StepModel>,
}

impl View for FlowDefinition {
    type V = FlowModel;

    open spec fn view(&self) -> FlowModel {
        FlowModel {
            name: self.name@,
            version: self.version@,
            description: self.description.deep_view(),
            inputs: input_entries(self.inputs),
            outputs: text_entries(self.outputs),
            defaults: self.defaults@,
            timeout: self.timeout.deep_view(),
            lifecycle: self.lifecycle@,
            metadata: value_entries(self.metadata),
            flowspec_version: self.flowspec_version.deep_view(),
            steps: self.steps.deep_view(),
        }
    }
}

impl DeepView for FlowDefinition {
    type V = FlowModel;

    open spec fn deep_view(&self) -> FlowModel {
        self@
    }
}

impl Duplicate for FlowDefinition {
    fn duplicate(&self) -> (r: Self) {
        FlowDefinition {
            name: self.name.clone(),
            version: self.version.clone(),
            description: self.description.duplicate(),
            inputs: copy_inputs(&self.inputs),
            outputs: copy_texts(&self.outputs),
            defaults: FlowDefaults {
                cli: self.defaults.cli.duplicate(),
                provider: self.defaults.provider.duplicate(),
                model: self.defaults.model.duplicate(),
            },
            timeout: self.timeout.duplicate(),
            lifecycle: LifecycleHooks {
                before_run: self.lifecycle.before_run.duplicate(),
                after_run: self.lifecycle.after_run.duplicate(),
            },
            metadata: copy_values(&self.metadata),
            flowspec_version: self.flowspec_version.duplicate(),
            steps: self.steps.duplicate(),
        }
    }
}

impl Clone for FlowDefinition {
    fn clone(&self) -> (r: Self)
        ensures
            r@ == self@,
    {
        self.duplicate()
    }
}

/// The first step with the id `id`.
pub open spec fn find_step(steps: Seq<StepModel>, id: Seq<char>) -> Option<StepModel>
    decreases steps.len(),
{
    if steps.len() == 0 {
        None
    } else if steps[0].id == id {
        Some(steps[0])
    } else {
        find_step(steps.drop_first(), id)
    }
}

impl FlowDefinition {
    /// The step with the id `id`.
    pub fn step(&self, id: &str) -> (r: Option<&Step>)
        ensures
            r.deep_view() == find_step(self@.steps, id@),
    {
        let mut i: usize = 0;
        let ghost all = self@.steps;
        proof {
            assert(all.skip(0) =~= all);
        }
        while i < self.steps.len()
            invariant
                i <= self.steps@.len(),
                all == self.steps.deep_view(),
                all == self@.steps,
                find_step(all, id@) == find_step(all.skip(i as int), id@),
            decreases self.steps@.len() - i,
        {
            proof {
                assert(all.skip(i as int).drop_first() =~= all.skip(i + 1));
                assert(all[i as int] == self.steps@[i as int]@);
            }
            if same_text(self.steps[i].id.as_str(), id) {
                return Some(&self.steps[i]);
            }
            i = i + 1;
        }
        None
    }
}

/// The two shapes of a flow file: a single flow, or a list of flows.
#[derive(Debug)]
pub enum FlowFile {
    Single { flow: Box<FlowDefinition> },
    Multiple { flows: Vec<SingleFlowEntry> },
}

/// One entry of a flow file that lists several flows.
#[derive(Debug)]
pub struct SingleFlowEntry {
    pub flow: FlowDefinition,
}

impl DeepView for SingleFlowEntry {
    type V = FlowModel;

    open spec fn deep_view(&self) -> FlowModel {
        self.flow@
    }
}

impl View for FlowFile {
    type V = Seq<FlowModel>;

    open spec fn view(&self) -> Seq<FlowModel> {
        match self {
            FlowFile::Single { flow } => seq![(*flow)@],
            FlowFile::Multiple { flows } => flows.deep_view(),
        }
    }
}

impl FlowFile {
    /// The flows of the file, in order.
    pub fn into_definitions(self) -> (r: Vec<FlowDefinition>)
        ensures
            r.deep_view() == self@,
    {
        let mut out: Vec<FlowDefinition> = Vec::new();
        match self {
            FlowFile::Single { flow } => {
                out.push(*flow);
            },
            FlowFile::Multiple { flows } => {
                let ghost all = flows@;
                for entry in it: flows
                    invariant
                        it.seq() == all,
                        out@.len() == it.index(),
                        forall|j: int|
                            0 <= j < it.index() ==> (#[trigger] out@[j])@ == all[j].flow@,
                {
                    out.push(entry.flow);
                }
            },
        }
        proof {
            assert(out.deep_view() =~= self@);
        }
        out
    }
}

} // verus!
