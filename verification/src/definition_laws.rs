//! What is read of flow definitions: laws of `with` blocks, of durations, of
//! versions and of flow files.
use crate::flow::schema::{duration_of, valid_id, ViolationModel};
use crate::flow::types::{
    all_entries, cli_extra, find_step, step_kind, subflow_kind, FlowModel, StepModel, StepType,
    StepWithModel, SubflowModel,
};
use crate::flow::validate::violations_of;
use crate::flow_source::{is_version, latest_flows, name_index, selected, version_greater};
use crate::flows::{
    ascii_lower, call_graph, first_violations, flow_calls, last_dot, loaded,
    loaded_flows_call_in_no_ring, meets_rules, names_flows, step_calls, violations_text, FoundModel,
};
use crate::graph::{is_cycle, successors};
use crate::json::{entry_value, json_member, Json};
use crate::maps::put_entry;
use crate::text::{all_digits, decimal, is_digit, is_white, lemma_decimal, trimmed};
use crate::text_laws::{blank, lacks, trimming_takes_off_the_blanks};
use vstd::prelude::*;

verus! {

/// Whether a member is a text, and this one.
pub open spec fn member_is(v: Json, key: Seq<char>, text: Seq<char>) -> bool {
    json_member(v, key) == Some(Json::Text(text))
}

/// Whether a member is this text, or absent or `null` where there is none.
pub open spec fn member_may_be(v: Json, key: Seq<char>, text: Option<Seq<char>>) -> bool {
    match text {
        Some(t) => member_is(v, key, t),
        None => json_member(v, key) is None || json_member(v, key) == Some(Json::Null),
    }
}

/// Whether a member is absent, `null` or a text.
pub open spec fn may_be_text(v: Json, key: Seq<char>) -> bool {
    json_member(v, key) is None || json_member(v, key) == Some(Json::Null) || json_member(
        v,
        key,
    )->Some_0 is Text
}

/// The `with` block of a cli step is read exactly where it is an object with the
/// texts `cli` and `input`, and `role` and `output` are texts if anything; it is
/// read as what stands there.
pub proof fn cli_block_is_read_as_it_stands(step: StepModel)
    requires
        step.step_type == StepType::Cli,
    ensures
        step_kind(step) is Some <==> step.with is Object && (exists|t: Seq<char>|
            #[trigger] member_is(step.with, "cli"@, t)) && (exists|t: Seq<char>|
            #[trigger] member_is(step.with, "input"@, t)) && may_be_text(step.with, "role"@)
            && may_be_text(step.with, "output"@),
        step_kind(step) matches Some(kind) ==> (kind matches StepWithModel::Cli(with) && member_is(
            step.with,
            "cli"@,
            with.cli,
        ) && member_is(step.with, "input"@, with.input) && member_may_be(
            step.with,
            "role"@,
            with.role,
        ) && member_may_be(step.with, "output"@, with.output)),
{
    if let Json::Object(entries) = step.with {
        if let Some(Json::Text(t)) = entry_value(entries, "cli"@) {
            assert(member_is(step.with, "cli"@, t));
        }
        if let Some(Json::Text(t)) = entry_value(entries, "input"@) {
            assert(member_is(step.with, "input"@, t));
        }
    }
}

proof fn lemma_put_found(
    entries: Seq<(Seq<char>, Json)>,
    key: Seq<char>,
    value: Json,
    other: Seq<char>,
)
    ensures
        entry_value(put_entry(entries, key, value), other) == (if other == key {
            Some(value)
        } else {
            entry_value(entries, other)
        }),
    decreases entries.len(),
{
    let out = put_entry(entries, key, value);
    assert(out.len() > 0);
    assert(entry_value(out, other) == (if out[0].0 == other {
        Some(out[0].1)
    } else {
        entry_value(out.drop_first(), other)
    }));
    if entries.len() == 0 {
        assert(out.drop_first() =~= entries);
    } else if entries[0].0 == key {
        assert(out.drop_first() =~= entries.drop_first());
    } else {
        lemma_put_found(entries.drop_first(), key, value, other);
        assert(out.drop_first() =~= put_entry(entries.drop_first(), key, value));
    }
}

/// What a cli step's `with` block holds besides `cli`, `role`, `input` and
/// `output` is kept, every entry of it; of entries with the same key the last
/// one counts.
pub proof fn other_entries_of_a_block_are_kept(entries: Seq<(Seq<char>, Json)>, i: int)
    requires
        0 <= i < entries.len(),
        forall|j: int| i < j < entries.len() ==> (#[trigger] entries[j]).0 != entries[i].0,
    ensures
        ({
            let key = entries[i].0;
            entry_value(cli_extra(entries), key) == (if key == "cli"@ || key == "role"@ || key
                == "input"@ || key == "output"@ {
                None
            } else {
                Some(entries[i].1)
            })
        }),
        entry_value(all_entries(entries), entries[i].0) == Some(entries[i].1),
    decreases entries.len(),
{
    let rest = entries.drop_last();
    let last = entries.last();
    let key = entries[i].0;
    lemma_put_found(cli_extra(rest), last.0, last.1, key);
    lemma_put_found(all_entries(rest), last.0, last.1, key);
    if i < rest.len() {
        assert(entries[entries.len() - 1].0 != key);
        assert(rest[i] == entries[i]);
        assert forall|j: int| i < j < rest.len() implies (#[trigger] rest[j]).0 != rest[i].0 by {
            assert(entries[j].0 != entries[i].0);
        }
        other_entries_of_a_block_are_kept(rest, i);
    } else {
        lemma_fields_left_out(entries, key);
    }
}

proof fn lemma_fields_left_out(entries: Seq<(Seq<char>, Json)>, key: Seq<char>)
    ensures
        key == "cli"@ || key == "role"@ || key == "input"@ || key == "output"@ ==> entry_value(
            cli_extra(entries),
            key,
        ) is None,
    decreases entries.len(),
{
    if entries.len() > 0 {
        lemma_fields_left_out(entries.drop_last(), key);
        lemma_put_found(
            cli_extra(entries.drop_last()),
            entries.last().0,
            entries.last().1,
            key,
        );
    }
}

/// A subflow step's `with` block that is an object is read exactly where `flow`
/// is a text, `version` and `output` are texts if anything, and `inputs` is an
/// object if it is there; it is read as what stands there.
pub proof fn subflow_block_is_read_as_it_stands(step: StepModel)
    requires
        step.step_type == StepType::Subflow,
        step.with is Object,
    ensures
        step_kind(step) is Some <==> (exists|t: Seq<char>|
            #[trigger] member_is(step.with, "flow"@, t)) && may_be_text(step.with, "version"@)
            && may_be_text(step.with, "output"@) && (json_member(step.with, "inputs"@) matches Some(v)
            ==> v is Object),
        step_kind(step) matches Some(kind) ==> (kind matches StepWithModel::Subflow(with)
            && member_is(step.with, "flow"@, with.flow) && member_may_be(
            step.with,
            "version"@,
            with.version,
        ) && member_may_be(step.with, "output"@, with.output) && with.inputs == (match json_member(
            step.with,
            "inputs"@,
        ) {
            Some(Json::Object(entries)) => all_entries(entries),
            _ => Seq::empty(),
        })),
{
    let entries = step.with->Object_0;
    if let Some(Json::Text(t)) = entry_value(entries, "flow"@) {
        assert(member_is(step.with, "flow"@, t));
    }
}

proof fn lemma_digits_tight(digits: Seq<char>, unit: char)
    requires
        all_digits(digits),
        unit == 's' || unit == 'm' || unit == 'h',
    ensures
        crate::text_laws::tight(digits.push(unit)),
{
    let s = digits.push(unit);
    assert(is_digit(digits[0]));
    assert(s[0] == digits[0]);
    assert(s.last() == unit);
}

/// A number of seconds, minutes or hours, with white space around it or without,
/// is that many seconds, as long as they can be counted.
pub proof fn durations_are_counted_in_seconds(
    lead: Seq<char>,
    n: u64,
    unit: char,
    tail: Seq<char>,
)
    requires
        blank(lead),
        blank(tail),
        unit == 's' || unit == 'm' || unit == 'h',
    ensures
        ({
            let per: int = if unit == 's' {
                1
            } else if unit == 'm' {
                60
            } else {
                3600
            };
            duration_of(lead + decimal(n as nat).push(unit) + tail) == (if n * per <= u64::MAX {
                Some((n * per) as nat)
            } else {
                None
            })
        }),
{
    let digits = decimal(n as nat);
    lemma_decimal(n as nat);
    let s = digits.push(unit);
    lemma_digits_tight(digits, unit);
    trimming_takes_off_the_blanks(lead, s, tail);
    assert(s.drop_last() =~= digits);
    assert(is_digit(digits[0]));
    assert(digits[0] != '+');
}

/// A text is no duration where it is blank, ends with another unit, or has
/// something else than digits before the unit, one plus sign in front aside.
pub proof fn other_texts_are_no_durations(s: Seq<char>)
    ensures
        duration_of(s) is Some ==> {
            let t = trimmed(s);
            &&& t.len() >= 2
            &&& t.last() == 's' || t.last() == 'm' || t.last() == 'h'
            &&& forall|i: int| 1 <= i < t.len() - 1 ==> is_digit(#[trigger] t[i])
            &&& is_digit(t[0]) || t[0] == '+'
        },
{
    let t = trimmed(s);
    if duration_of(s) is Some {
        let num = t.drop_last();
        let digits = crate::text::without_plus(num);
        assert(all_digits(digits));
        assert(is_digit(digits[0]));
        assert forall|i: int| 1 <= i < t.len() - 1 implies is_digit(#[trigger] t[i]) by {
            assert(num[i] == t[i]);
            if num[0] == '+' {
                assert(digits[i - 1] == num[i]);
            } else {
                assert(digits[i] == num[i]);
            }
        }
        assert(num[0] == t[0]);
    }
}

/// A step id is not empty and has neither upper-case letters nor white space,
/// dots or braces, so that it can stand in a reference.
pub proof fn step_ids_can_be_referred_to(id: Seq<char>)
    requires
        valid_id(id),
    ensures
        id.len() > 0,
        lacks(id, '.'),
        lacks(id, '{'),
        lacks(id, '}'),
        forall|i: int| 0 <= i < id.len() ==> !is_white(#[trigger] id[i]) && !('A' <= id[i] <= 'Z'),
{
}

/// Lower-case letters, digits, `-` and `_` make a step id.
pub proof fn plain_names_are_step_ids(id: Seq<char>)
    requires
        id.len() > 0,
        forall|i: int|
            0 <= i < id.len() ==> ('a' <= #[trigger] id[i] <= 'z') || is_digit(id[i]) || id[i] == '-'
                || id[i] == '_',
    ensures
        valid_id(id),
{
}

/// Whether a flow is one that is asked for: it has the name, and its version
/// meets the requirement, where there is one.
pub open spec fn is_asked_for(
    flow: FlowModel,
    name: Seq<char>,
    requirement: Option<Seq<char>>,
) -> bool {
    flow.name == name && (requirement matches Some(q) ==> crate::flow_source::meets_requirement(
        q,
        flow.version,
    ))
}

/// Of the flows that are asked for the one with the greater version is selected,
/// wherever it stands; a flow that is not asked for changes nothing. Of flows
/// with the same version the first stays.
pub proof fn greater_version_is_selected(
    flows: Seq<FlowModel>,
    flow: FlowModel,
    name: Seq<char>,
    requirement: Option<Seq<char>>,
)
    ensures
        !is_asked_for(flow, name, requirement) ==> selected(flows.push(flow), name, requirement)
            == selected(flows, name, requirement),
        is_asked_for(flow, name, requirement) ==> match selected(flows, name, requirement) {
            None => selected(flows.push(flow), name, requirement) == Some(flow),
            Some(best) => {
                &&& is_version(flow.version) && is_version(best.version) && version_greater(
                    flow.version,
                    best.version,
                ) ==> selected(flows.push(flow), name, requirement) == Some(flow)
                &&& is_version(flow.version) && is_version(best.version) && !version_greater(
                    flow.version,
                    best.version,
                ) ==> selected(flows.push(flow), name, requirement) == Some(best)
                &&& flow.version == best.version && !version_greater(flow.version, best.version)
                    ==> selected(flows.push(flow), name, requirement) == Some(best)
            },
        },
        selected(Seq::empty(), name, requirement) is None,
        selected(flows, name, requirement) matches Some(best) ==> is_asked_for(
            best,
            name,
            requirement,
        ),
{
    assert(flows.push(flow).drop_last() =~= flows);
    crate::flow_source::selected_flow_is_a_candidate(flows, name, requirement);
    if let Some(best) = selected(flows, name, requirement) {
        if flow.version == best.version {
            crate::text::lemma_text_le_total(flow.version, best.version);
        }
    }
}

proof fn lemma_name_index(flows: Seq<FlowModel>, name: Seq<char>)
    ensures
        match name_index(flows, name) {
            Some(i) => 0 <= i < flows.len() && flows[i].name == name,
            None => forall|i: int| 0 <= i < flows.len() ==> (#[trigger] flows[i]).name != name,
        },
    decreases flows.len(),
{
    if flows.len() > 0 && flows[0].name != name {
        let rest = flows.drop_first();
        lemma_name_index(rest, name);
        assert forall|i: int| 0 < i < flows.len() && name_index(rest, name) is None implies (
        #[trigger] flows[i]).name != name by {
            assert(rest[i - 1].name != name);
        }
    }
}

/// Every name among the flows is listed, once, with one of the flows of that
/// name.
pub proof fn every_name_is_listed_once(flows: Seq<FlowModel>)
    ensures
        forall|i: int|
            0 <= i < latest_flows(flows).len() ==> flows.contains(#[trigger] latest_flows(flows)[i]),
        forall|i: int, j: int|
            0 <= i < j < latest_flows(flows).len() ==> (#[trigger] latest_flows(flows)[i]).name != (
            #[trigger] latest_flows(flows)[j]).name,
        forall|i: int|
            0 <= i < flows.len() ==> name_index(
                latest_flows(flows),
                (#[trigger] flows[i]).name,
            ) is Some,
    decreases flows.len(),
{
    if flows.len() > 0 {
        let rest = flows.drop_last();
        let flow = flows.last();
        every_name_is_listed_once(rest);
        let before = latest_flows(rest);
        let all = latest_flows(flows);
        lemma_name_index(before, flow.name);
        assert(flows[flows.len() - 1] == flow);
        assert forall|i: int| 0 <= i < all.len() implies flows.contains(#[trigger] all[i]) by {
            if i < before.len() && all[i] == before[i] {
                assert(rest.contains(before[i]));
                assert(flows[rest.index_of(before[i])] == before[i]);
            } else {
                assert(all[i] == flow);
            }
        }
        assert forall|i: int, j: int| 0 <= i < j < all.len() implies (#[trigger] all[i]).name != (
        #[trigger] all[j]).name by {
            if i < before.len() {
                assert(all[i].name == before[i].name);
            }
            if j < before.len() {
                assert(all[j].name == before[j].name);
                assert(before[i].name != before[j].name);
            }
        }
        assert forall|i: int| 0 <= i < flows.len() implies name_index(
            all,
            (#[trigger] flows[i]).name,
        ) is Some by {
            lemma_name_index(all, flows[i].name);
            if i < rest.len() {
                assert(rest[i] == flows[i]);
                lemma_name_index(before, rest[i].name);
                let k = name_index(before, rest[i].name)->Some_0;
                assert(all[k].name == before[k].name);
            } else {
                match name_index(before, flow.name) {
                    Some(k) => {
                        assert(all[k].name == flow.name);
                    },
                    None => {
                        assert(all[before.len() as int] == flow);
                    },
                }
            }
        }
    }
}

/// A flow with a greater version takes the place of the one that is listed under
/// its name; any other flow of a listed name changes nothing.
pub proof fn greater_version_is_listed(flows: Seq<FlowModel>, flow: FlowModel, i: int)
    requires
        0 <= i < latest_flows(flows).len(),
    ensures
        ({
            let before = latest_flows(flows);
            let after = latest_flows(flows.push(flow));
            &&& before[i].name != flow.name ==> after[i] == before[i]
            &&& before[i].name == flow.name ==> after[i] == (if version_greater(
                flow.version,
                before[i].version,
            ) {
                flow
            } else {
                before[i]
            })
        }),
{
    assert(flows.push(flow).drop_last() =~= flows);
    every_name_is_listed_once(flows);
    let before = latest_flows(flows);
    lemma_name_index(before, flow.name);
    if let Some(k) = name_index(before, flow.name) {
        if before[i].name == flow.name && k != i {
            if k < i {
                assert(before[k].name != before[i].name);
            } else {
                assert(before[i].name != before[k].name);
            }
        }
    }
}

proof fn lemma_last_dot(stem: Seq<char>, ext: Seq<char>)
    requires
        lacks(ext, '.'),
    ensures
        last_dot(stem + seq!['.'] + ext) == stem.len(),
    decreases ext.len(),
{
    let name = stem + seq!['.'] + ext;
    if ext.len() == 0 {
        assert(name.last() == '.');
    } else {
        assert(name.last() == ext[ext.len() - 1]);
        assert(name.drop_last() =~= stem + seq!['.'] + ext.drop_last());
        lemma_last_dot(stem, ext.drop_last());
    }
}

/// A file whose name ends in `.yaml` or `.yml`, with something before, holds
/// flows.
pub proof fn yaml_files_hold_flows(stem: Seq<char>)
    requires
        stem.len() > 0,
    ensures
        names_flows(stem + ".yaml"@),
        names_flows(stem + ".yml"@),
        !names_flows(".yaml"@),
        !names_flows(".yml"@),
{
    reveal_strlit(".yaml");
    reveal_strlit(".yml");
    reveal_strlit("yaml");
    reveal_strlit("yml");
    let none = Seq::<char>::empty();
    assert(stem + ".yaml"@ =~= stem + seq!['.'] + "yaml"@);
    assert(stem + ".yml"@ =~= stem + seq!['.'] + "yml"@);
    assert(".yaml"@ =~= none + seq!['.'] + "yaml"@);
    assert(".yml"@ =~= none + seq!['.'] + "yml"@);
    lemma_last_dot(stem, "yaml"@);
    lemma_last_dot(stem, "yml"@);
    lemma_last_dot(none, "yaml"@);
    lemma_last_dot(none, "yml"@);
    assert((stem + ".yaml"@).skip(stem.len() as int + 1) =~= "yaml"@);
    assert((stem + ".yml"@).skip(stem.len() as int + 1) =~= "yml"@);
}

/// A file of which the part behind the last dot has neither three nor four
/// characters holds no flows, and neither does one without a dot.
pub proof fn other_files_hold_no_flows(stem: Seq<char>, ext: Seq<char>, name: Seq<char>)
    requires
        lacks(ext, '.'),
        ext.len() != 3,
        ext.len() != 4,
        lacks(name, '.'),
    ensures
        !names_flows(stem + seq!['.'] + ext),
        !names_flows(name),
{
    lemma_last_dot(stem, ext);
    assert((stem + seq!['.'] + ext).skip(stem.len() as int + 1) =~= ext);
    reveal_strlit("yaml");
    reveal_strlit("yml");
    lemma_no_dot(name);
}

proof fn lemma_no_dot(name: Seq<char>)
    requires
        lacks(name, '.'),
    ensures
        last_dot(name) == -1,
    decreases name.len(),
{
    if name.len() > 0 {
        assert(name[name.len() - 1] != '.');
        lemma_no_dot(name.drop_last());
    }
}

/// What is loaded is the flows of all the files, in order; it is loaded only
/// where every file could be read.
pub proof fn every_file_is_loaded(files: Seq<FoundModel>, k: int, j: int)
    requires
        0 <= k < files.len(),
    ensures
        loaded(files) matches Ok(all) ==> (files[k].flows matches Ok(flows) && (0 <= j < flows.len()
            ==> all.contains(flows[j]))),
    decreases files.len(),
{
    if let Ok(all) = loaded(files) {
        let rest = files.drop_last();
        let before = loaded(rest)->Ok_0;
        let more = files.last().flows->Ok_0;
        assert(all == before + more);
        if k < rest.len() {
            assert(rest[k] == files[k]);
            every_file_is_loaded(rest, k, j);
            let flows = files[k].flows->Ok_0;
            if 0 <= j < flows.len() {
                assert(all[before.index_of(flows[j])] == flows[j]);
            }
        } else {
            if 0 <= j < more.len() {
                assert(all[before.len() + j] == more[j]);
            }
        }
    }
}

/// Nothing is loaded that does not stand in a file, and a load that fails names
/// one of the files.
pub proof fn only_files_are_loaded(files: Seq<FoundModel>, flow: FlowModel)
    ensures
        loaded(files) matches Ok(all) ==> all.contains(flow) ==> exists|k: int|
            0 <= k < files.len() && holds(#[trigger] files[k], flow),
        loaded(files) matches Err((path, why)) ==> exists|k: int|
            0 <= k < files.len() && (#[trigger] files[k]).path == path,
    decreases files.len(),
{
    if files.len() > 0 {
        let rest = files.drop_last();
        only_files_are_loaded(rest, flow);
        assert(files[files.len() - 1] == files.last());
        match loaded(rest) {
            Err((path, why)) => {
                let k = choose|k: int| 0 <= k < rest.len() && (#[trigger] rest[k]).path == path;
                assert(files[k] == rest[k]);
            },
            Ok(before) => {
                if let Ok(all) = loaded(files) {
                    if all.contains(flow) {
                        let i = all.index_of(flow);
                        if i < before.len() {
                            assert(before[i] == flow);
                            let k = choose|k: int|
                                0 <= k < rest.len() && holds(#[trigger] rest[k], flow);
                            assert(files[k] == rest[k]);
                        } else {
                            let more = files.last().flows->Ok_0;
                            assert(more[i - before.len()] == flow);
                            assert(holds(files[files.len() - 1], flow));
                        }
                    }
                }
            },
        }
    }
}

/// Whether a file holds a flow.
pub open spec fn holds(file: FoundModel, flow: FlowModel) -> bool {
    file.flows matches Ok(flows) && flows.contains(flow)
}

/// Whether a flow of one name has a step that calls a flow of another.
pub open spec fn calls(flows: Seq<FlowModel>, from: Seq<char>, to: Seq<char>) -> bool {
    exists|i: int, k: int|
        0 <= i < flows.len() && flows[i].name == from && 0 <= k < flows[i].steps.len()
            && #[trigger] calls_flow(flows[i].steps[k], to)
}

/// Whether a step calls a flow.
pub open spec fn calls_flow(step: StepModel, to: Seq<char>) -> bool {
    step_kind(step) matches Some(StepWithModel::Subflow(with)) && with.flow == to
}

proof fn lemma_step_calls(steps: Seq<StepModel>, to: Seq<char>)
    ensures
        step_calls(steps).contains(to) <==> exists|k: int|
            0 <= k < steps.len() && #[trigger] calls_flow(steps[k], to),
    decreases steps.len(),
{
    let all = step_calls(steps);
    if steps.len() > 0 {
        let rest = steps.drop_last();
        let before = step_calls(rest);
        lemma_step_calls(rest, to);
        assert(steps[steps.len() - 1] == steps.last());
        if before.contains(to) {
            assert(all[before.index_of(to)] == to);
            let k = choose|k: int| 0 <= k < rest.len() && #[trigger] calls_flow(rest[k], to);
            assert(calls_flow(steps[k], to));
        }
        if calls_flow(steps.last(), to) {
            assert(all[before.len() as int] == to);
            assert(calls_flow(steps[steps.len() - 1], to));
        }
        if all.contains(to) {
            let k = all.index_of(to);
            if k < before.len() {
                assert(before[k] == to);
            } else {
                assert(calls_flow(steps[steps.len() - 1], to));
            }
        }
        if exists|k: int| 0 <= k < steps.len() && #[trigger] calls_flow(steps[k], to) {
            let k = choose|k: int| 0 <= k < steps.len() && #[trigger] calls_flow(steps[k], to);
            if k < rest.len() {
                assert(calls_flow(rest[k], to));
            }
        }
    }
}

proof fn lemma_flow_calls(flows: Seq<FlowModel>, from: Seq<char>, to: Seq<char>)
    ensures
        flow_calls(flows, from).contains(to) <==> calls(flows, from, to),
    decreases flows.len(),
{
    let all = flow_calls(flows, from);
    if flows.len() > 0 {
        let rest = flows.drop_last();
        let before = flow_calls(rest, from);
        let last = flows.last();
        lemma_flow_calls(rest, from, to);
        lemma_step_calls(last.steps, to);
        let more = step_calls(last.steps);
        if calls(rest, from, to) {
            let (i, k) = choose|i: int, k: int|
                0 <= i < rest.len() && rest[i].name == from && 0 <= k < rest[i].steps.len()
                    && #[trigger] calls_flow(rest[i].steps[k], to);
            assert(flows[i] == rest[i]);
            assert(calls_flow(flows[i].steps[k], to));
            assert(all[before.index_of(to)] == to);
        }
        if last.name == from {
            if more.contains(to) {
                assert(all[before.len() + more.index_of(to)] == to);
                let k = choose|k: int|
                    0 <= k < last.steps.len() && #[trigger] calls_flow(last.steps[k], to);
                assert(calls_flow(flows[flows.len() - 1].steps[k], to));
            }
            if all.contains(to) {
                let n = all.index_of(to);
                if n < before.len() {
                    assert(before[n] == to);
                } else {
                    assert(more[n - before.len()] == to);
                }
            }
        }
        if calls(flows, from, to) {
            let (i, k) = choose|i: int, k: int|
                0 <= i < flows.len() && flows[i].name == from && 0 <= k < flows[i].steps.len()
                    && #[trigger] calls_flow(flows[i].steps[k], to);
            if i < rest.len() {
                assert(calls_flow(rest[i].steps[k], to));
            } else {
                assert(more.contains(to));
            }
        }
    } else {
        assert(!calls(flows, from, to));
    }
}

/// Flows that were loaded do not call one another round: there is no row of
/// names, each calling the next, that comes back to its first.
pub proof fn loaded_flows_do_not_call_round(files: Seq<FoundModel>, c: Seq<Seq<char>>)
    requires
        loaded(files) is Ok,
        c.len() >= 2,
        c[0] == c.last(),
    ensures
        exists|i: int|
            0 <= i < c.len() - 1 && !calls(loaded(files)->Ok_0, #[trigger] c[i], c[i + 1]),
{
    let flows = loaded(files)->Ok_0;
    let g = call_graph(flows);
    loaded_flows_call_in_no_ring(files);
    assert(!is_cycle(g, c));
    if forall|i: int| 0 <= i < c.len() - 1 ==> calls(flows, #[trigger] c[i], c[i + 1]) {
        assert forall|i: int| 0 <= i < c.len() - 1 implies (#[trigger] successors(
            g,
            c[i],
        )).contains(c[i + 1]) by {
            assert(calls(flows, c[i], c[i + 1]));
            lemma_flow_calls(flows, c[i], c[i + 1]);
            crate::flows::call_graph_shows_the_calls(flows, c[i]);
        }
    }
}

/// The step of an id is the first one that has it.
pub proof fn first_step_is_found(steps: Seq<StepModel>, i: int, id: Seq<char>)
    ensures
        0 <= i < steps.len() && (forall|j: int|
            0 <= j < i ==> (#[trigger] steps[j]).id != steps[i].id) ==> find_step(
            steps,
            steps[i].id,
        ) == Some(steps[i]),
        find_step(steps, id) is None <==> forall|j: int|
            0 <= j < steps.len() ==> (#[trigger] steps[j]).id != id,
    decreases steps.len(),
{
    if steps.len() > 0 {
        let rest = steps.drop_first();
        first_step_is_found(rest, i - 1, id);
        if 0 < i < steps.len() && (forall|j: int|
            0 <= j < i ==> (#[trigger] steps[j]).id != steps[i].id) {
            assert(steps[0].id != steps[i].id);
            assert forall|j: int| 0 <= j < i - 1 implies (#[trigger] rest[j]).id != rest[i
                - 1].id by {
                assert(steps[j + 1].id != steps[i].id);
            }
        }
        if steps[0].id != id {
            if forall|j: int| 0 <= j < rest.len() ==> (#[trigger] rest[j]).id != id {
                assert forall|j: int| 0 <= j < steps.len() implies (#[trigger] steps[j]).id
                    != id by {
                    if j > 0 {
                        assert(rest[j - 1].id != id);
                    }
                }
            }
            if forall|j: int| 0 <= j < steps.len() ==> (#[trigger] steps[j]).id != id {
                assert forall|j: int| 0 <= j < rest.len() implies (#[trigger] rest[j]).id != id by {
                    assert(steps[j + 1].id != id);
                }
            }
        }
    }
}

/// Violations are described one after the other, each with its rule and its
/// message.
pub proof fn every_violation_is_described(
    a: Seq<ViolationModel>,
    v: ViolationModel,
    b: Seq<ViolationModel>,
)
    requires
        a.len() > 0,
        b.len() > 0,
    ensures
        violations_text(seq![v]) == "["@ + v.rule + "] "@ + v.message,
        violations_text(a + b) == violations_text(a) + "; "@ + violations_text(b),
{
    let x = Seq::new(a.len(), |i: int| crate::flows::violation_text(a[i]));
    let y = Seq::new(b.len(), |i: int| crate::flows::violation_text(b[i]));
    let all = a + b;
    assert(Seq::new(all.len(), |i: int| crate::flows::violation_text(all[i])) =~= x + y);
    crate::text_laws::joining_goes_part_by_part(x, y, "; "@);
    let one = seq![v];
    assert(Seq::new(one.len(), |i: int| crate::flows::violation_text(one[i])) =~= seq![
        crate::flows::violation_text(v),
    ]);
    crate::text_laws::joining_one_piece_changes_nothing(crate::flows::violation_text(v), "; "@);
}

/// The flows of a file are accepted exactly where validation finds nothing in
/// any of them; else the first that it finds something in is described.
pub proof fn first_broken_flow_is_described(flows: Seq<FlowModel>, k: int)
    requires
        0 <= k < flows.len(),
        violations_of(flows[k]).len() > 0,
        forall|i: int| 0 <= i < k ==> violations_of(#[trigger] flows[i]).len() == 0,
    ensures
        first_violations(flows) == Some(violations_text(violations_of(flows[k]))),
    decreases k,
{
    reveal(meets_rules);
    if k > 0 {
        let rest = flows.drop_first();
        assert(violations_of(flows[0]).len() == 0);
        assert forall|i: int| 0 <= i < k - 1 implies violations_of(#[trigger] rest[i]).len()
            == 0 by {
            assert(violations_of(flows[i + 1]).len() == 0);
        }
        first_broken_flow_is_described(rest, k - 1);
    }
}

/// The case of the letters of a flow file's extension does not matter.
pub proof fn extension_may_be_in_any_case(stem: Seq<char>, ext: Seq<char>)
    requires
        stem.len() > 0,
        ext.len() == 4,
        ext[0] == 'y' || ext[0] == 'Y',
        ext[1] == 'a' || ext[1] == 'A',
        ext[2] == 'm' || ext[2] == 'M',
        ext[3] == 'l' || ext[3] == 'L',
    ensures
        names_flows(stem + seq!['.'] + ext),
        names_flows(stem + seq!['.'] + seq![ext[0], ext[2], ext[3]]),
{
    reveal_strlit("yaml");
    reveal_strlit("yml");
    let short = seq![ext[0], ext[2], ext[3]];
    assert(lacks(ext, '.')) by {
        assert forall|i: int| 0 <= i < ext.len() implies #[trigger] ext[i] != '.' by {
            assert(i == 0 || i == 1 || i == 2 || i == 3);
        }
    }
    assert(lacks(short, '.')) by {
        assert forall|i: int| 0 <= i < short.len() implies #[trigger] short[i] != '.' by {
            assert(i == 0 || i == 1 || i == 2);
        }
    }
    lemma_last_dot(stem, ext);
    lemma_last_dot(stem, short);
    assert((stem + seq!['.'] + ext).skip(stem.len() as int + 1) =~= ext);
    assert((stem + seq!['.'] + short).skip(stem.len() as int + 1) =~= short);
    assert forall|i: int| 0 <= i < 4 implies ascii_lower(#[trigger] ext[i]) == ascii_lower(
        "yaml"@[i],
    ) by {
        assert(i == 0 || i == 1 || i == 2 || i == 3);
    }
    assert forall|i: int| 0 <= i < 3 implies ascii_lower(#[trigger] short[i]) == ascii_lower(
        "yml"@[i],
    ) by {
        assert(i == 0 || i == 1 || i == 2);
    }
}

/// A text that may be missing, as a value.
pub open spec fn text_or_nothing(text: Option<Seq<char>>) -> Json {
    match text {
        Some(t) => Json::Text(t),
        None => Json::Null,
    }
}

/// The block of a subflow may also be a list of its four parts, in order.
pub proof fn subflow_block_may_be_a_list(
    flow: Seq<char>,
    version: Option<Seq<char>>,
    inputs: Seq<(Seq<char>, Json)>,
    output: Option<Seq<char>>,
    other: Seq<Json>,
)
    ensures
        subflow_kind(
            Json::Array(
                seq![
                    Json::Text(flow),
                    text_or_nothing(version),
                    Json::Object(inputs),
                    text_or_nothing(output),
                ],
            ),
        ) == Some(SubflowModel { flow, version, inputs: all_entries(inputs), output }),
        other.len() != 4 || !(other[0] is Text) || !(other[2] is Object) ==> subflow_kind(
            Json::Array(other),
        ) is None,
{
}

} // verus!
