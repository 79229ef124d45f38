//! Flow files: which files count, and which flows are taken.
use crate::copy::{extend, put, Duplicate};
use crate::flow::schema::ViolationModel;
use crate::flow::types::{
    step_kind, FlowDefinition, FlowModel, Step, StepModel, StepWith, StepWithModel,
};
use crate::flow::validate::{validate, violations_of, Violation};
use crate::flow_source::{select_flow, selected};
use crate::graph::{
    append_names, ascending, first_cycle, first_cycle_of, insert_sorted, is_acyclic, is_cycle,
    lemma_sorted_ascends, lemma_sorted_names, no_report_means_acyclic, reported_cycle_is_cycle,
    sorted_names, successors,
};
use crate::text::{cat2, cat5, chars_of, join, joined, same_text, string_of};
use vstd::prelude::*;
use vstd::slice::slice_subrange;

verus! {

/// Why flows could not be loaded: the path, and what was wrong there.
#[derive(Debug)]
pub struct FsFlowSourceError {
    pub path: String,
    pub detail: String,
}

impl FsFlowSourceError {
    /// The text that describes this error.
    pub fn message(&self) -> (r: String)
        ensures
            r@ == self.path@ + ": "@ + self.detail@,
    {
        crate::text::cat3(self.path.as_str(), ": ", self.detail.as_str())
    }
}

/// `c` in lower case, as far as it is an ASCII letter.
pub open spec fn ascii_lower(c: char) -> char {
    if 'A' <= c <= 'Z' {
        (c as u32 + 32) as char
    } else {
        c
    }
}

/// Whether two texts are the same but for the case of ASCII letters.
pub open spec fn same_but_case(a: Seq<char>, b: Seq<char>) -> bool {
    a.len() == b.len() && forall|i: int|
        0 <= i < a.len() ==> ascii_lower(#[trigger] a[i]) == ascii_lower(b[i])
}

fn lower(c: char) -> (r: char)
    ensures
        r == ascii_lower(c),
{
    match c {
        'A' => 'a',
        'B' => 'b',
        'C' => 'c',
        'D' => 'd',
        'E' => 'e',
        'F' => 'f',
        'G' => 'g',
        'H' => 'h',
        'I' => 'i',
        'J' => 'j',
        'K' => 'k',
        'L' => 'l',
        'M' => 'm',
        'N' => 'n',
        'O' => 'o',
        'P' => 'p',
        'Q' => 'q',
        'R' => 'r',
        'S' => 's',
        'T' => 't',
        'U' => 'u',
        'V' => 'v',
        'W' => 'w',
        'X' => 'x',
        'Y' => 'y',
        'Z' => 'z',
        other => other,
    }
}

fn equal_but_case(a: &str, b: &str) -> (r: bool)
    ensures
        r == same_but_case(a@, b@),
{
    let x = chars_of(a);
    let y = chars_of(b);
    if x.len() != y.len() {
        return false;
    }
    let mut i: usize = 0;
    while i < x.len()
        invariant
            i <= x@.len(),
            x@.len() == y@.len(),
            x@ == a@,
            y@ == b@,
            forall|j: int| 0 <= j < i ==> ascii_lower(#[trigger] a@[j]) == ascii_lower(b@[j]),
        decreases x@.len() - i,
    {
        if lower(x[i]) != lower(y[i]) {
            proof {
                assert(ascii_lower(a@[i as int]) != ascii_lower(b@[i as int]));
            }
            return false;
        }
        i = i + 1;
    }
    true
}

/// Whether a file with this extension holds flows: `yaml` or `yml`, in any
/// case.
pub fn is_flow_file(extension: &str) -> (r: bool)
    ensures
        r == (same_but_case(extension@, "yaml"@) || same_but_case(extension@, "yml"@)),
{
    equal_but_case(extension, "yaml") || equal_but_case(extension, "yml")
}

/// Where the last dot of a name stands; before the name where there is none.
pub open spec fn last_dot(name: Seq<char>) -> int
    decreases name.len(),
{
    if name.len() == 0 {
        -1
    } else if name.last() == '.' {
        name.len() - 1
    } else {
        last_dot(name.drop_last())
    }
}

/// Whether a file with this name holds flows: its extension, which stands
/// behind the last dot that is not the first character, says so.
pub open spec fn names_flows(name: Seq<char>) -> bool {
    last_dot(name) > 0 && ({
        let extension = name.skip(last_dot(name) + 1);
        same_but_case(extension, "yaml"@) || same_but_case(extension, "yml"@)
    })
}

fn has_flow_name(name: &str) -> (r: bool)
    ensures
        r == names_flows(name@),
{
    let chars = chars_of(name);
    let ghost all = name@;
    let mut i: usize = chars.len();
    proof {
        assert(all.take(i as int) =~= all);
    }
    while i > 0
        invariant
            i <= chars@.len(),
            chars@ == all,
            all == name@,
            last_dot(all) == last_dot(all.take(i as int)),
        decreases i,
    {
        proof {
            assert(all.take(i as int).drop_last() =~= all.take(i - 1));
            assert(all.take(i as int).last() == all[i - 1]);
        }
        if chars[i - 1] == '.' {
            if i == 1 {
                return false;
            }
            let extension = string_of(slice_subrange(chars.as_slice(), i, chars.len()));
            proof {
                assert(extension@ =~= all.skip(i as int));
            }
            return is_flow_file(extension.as_str());
        }
        i = i - 1;
    }
    false
}

/// Something that stands in a directory: its name, and whether it is a file.
#[derive(Debug)]
pub struct DirectoryEntry {
    pub name: String,
    pub is_file: bool,
}

impl DeepView for DirectoryEntry {
    type V = (Seq<char>, bool);

    open spec fn deep_view(&self) -> (Seq<char>, bool) {
        (self.name@, self.is_file)
    }
}

/// The names of the files among `entries` that hold flows.
pub open spec fn flow_names_in(entries: Seq<(Seq<char>, bool)>) -> Seq<Seq<char>>
    decreases entries.len(),
{
    if entries.len() == 0 {
        Seq::empty()
    } else if entries.last().1 && names_flows(entries.last().0) {
        flow_names_in(entries.drop_last()).push(entries.last().0)
    } else {
        flow_names_in(entries.drop_last())
    }
}

/// The flow files of a directory, in the order of their names.
pub open spec fn flow_files_of(entries: Seq<(Seq<char>, bool)>) -> Seq<Seq<char>> {
    sorted_names(flow_names_in(entries))
}

/// Picks the flow files of a directory, in the order of their names.
/// Directories and other files are passed over.
pub fn flow_files(entries: &Vec<DirectoryEntry>) -> (r: Vec<String>)
    ensures
        r.deep_view() == flow_files_of(entries.deep_view()),
{
    let ghost all = entries.deep_view();
    let mut out: Vec<String> = Vec::new();
    let mut i: usize = 0;
    proof {
        assert(out.deep_view() =~= Seq::<Seq<char>>::empty());
    }
    while i < entries.len()
        invariant
            i <= entries@.len(),
            all == entries.deep_view(),
            out.deep_view() == flow_files_of(all.take(i as int)),
        decreases entries@.len() - i,
    {
        proof {
            assert(all.take(i + 1).drop_last() =~= all.take(i as int));
            assert(all[i as int] == entries@[i as int].deep_view());
        }
        let entry = &entries[i];
        if entry.is_file && has_flow_name(entry.name.as_str()) {
            insert_sorted(&mut out, entry.name.as_str());
            proof {
                let before = flow_names_in(all.take(i as int));
                assert(before.push(entry.name@).drop_last() =~= before);
            }
        }
        i = i + 1;
    }
    proof {
        assert(all.take(i as int) =~= all);
    }
    out
}

/// The flow files of a directory are exactly its files with the name of a flow
/// file, and they come in ascending order.
pub proof fn flow_files_are_chosen_by_name(entries: Seq<(Seq<char>, bool)>)
    ensures
        ascending(flow_files_of(entries)),
        forall|name: Seq<char>| #[trigger]
            flow_files_of(entries).contains(name) <==> names_flows(name) && entries.contains(
                (name, true),
            ),
    decreases entries.len(),
{
    lemma_sorted_ascends(flow_names_in(entries));
    lemma_sorted_names(flow_names_in(entries));
    lemma_flow_names(entries);
}

proof fn lemma_flow_names(entries: Seq<(Seq<char>, bool)>)
    ensures
        forall|name: Seq<char>| #[trigger]
            flow_names_in(entries).contains(name) <==> names_flows(name) && entries.contains(
                (name, true),
            ),
    decreases entries.len(),
{
    if entries.len() > 0 {
        let rest = entries.drop_last();
        let last = entries.last();
        lemma_flow_names(rest);
        assert forall|name: Seq<char>| #[trigger]
            flow_names_in(entries).contains(name) <==> names_flows(name) && entries.contains(
                (name, true),
            ) by {
            let found = flow_names_in(rest);
            assert(found.contains(name) <==> names_flows(name) && rest.contains((name, true)));
            if entries.contains((name, true)) {
                let k = entries.index_of((name, true));
                if k < rest.len() {
                    assert(rest[k] == (name, true));
                }
            }
            if rest.contains((name, true)) {
                assert(entries[rest.index_of((name, true))] == (name, true));
            }
            if last.1 && names_flows(last.0) {
                let grown = found.push(last.0);
                if name == last.0 {
                    assert(grown[found.len() as int] == name);
                    assert(entries[entries.len() - 1] == (name, true));
                }
                if found.contains(name) {
                    assert(grown[found.index_of(name)] == name);
                }
                if grown.contains(name) && name != last.0 {
                    let k = grown.index_of(name);
                    assert(found[k] == name);
                }
            }
        }
    }
}

/// How one violation is described.
pub open spec fn violation_text(v: ViolationModel) -> Seq<char> {
    "["@ + v.rule + "] "@ + v.message
}

/// How several violations are described.
pub open spec fn violations_text(list: Seq<ViolationModel>) -> Seq<char> {
    joined(Seq::new(list.len(), |i: int| violation_text(list[i])), "; "@)
}

/// Describes several violations in one line.
pub fn describe_violations(list: &Vec<Violation>) -> (r: String)
    ensures
        r@ == violations_text(list.deep_view()),
{
    let ghost all = list.deep_view();
    let ghost goal = Seq::new(all.len(), |i: int| violation_text(all[i]));
    let mut parts: Vec<String> = Vec::new();
    let mut i: usize = 0;
    proof {
        assert(parts.deep_view() =~= goal.take(0));
    }
    while i < list.len()
        invariant
            i <= list@.len(),
            all == list.deep_view(),
            goal.len() == all.len(),
            forall|k: int| 0 <= k < all.len() ==> #[trigger] goal[k] == violation_text(all[k]),
            parts.deep_view() == goal.take(i as int),
        decreases list@.len() - i,
    {
        let text = cat5("[", list[i].rule, "] ", list[i].message.as_str(), "");
        proof {
            reveal_strlit("");
            assert(all[i as int] == list@[i as int]@);
            assert(text@ =~= violation_text(all[i as int]));
            assert(goal.take(i + 1) =~= goal.take(i as int).push(goal[i as int]));
        }
        put(&mut parts, text);
        i = i + 1;
    }
    proof {
        assert(goal.take(i as int) =~= goal);
        assert(goal =~= Seq::new(all.len(), |i: int| violation_text(all[i])));
    }
    join(&parts, "; ")
}

/// Whether a flow meets every rule.
#[verifier::opaque]
pub open spec fn meets_rules(flow: FlowModel) -> bool {
    violations_of(flow).len() == 0
}

/// What is wrong with the first flow that breaks a rule; nothing where all
/// meet every rule.
pub open spec fn first_violations(flows: Seq<FlowModel>) -> Option<Seq<char>>
    decreases flows.len(),
{
    if flows.len() == 0 {
        None
    } else if !meets_rules(flows[0]) {
        Some(violations_text(violations_of(flows[0])))
    } else {
        first_violations(flows.drop_first())
    }
}

/// Takes the flows of a file where every one of them meets every rule; else
/// says what is wrong with the first that does not.
pub fn accept_definitions(definitions: &Vec<FlowDefinition>) -> (r: Result<(), String>)
    ensures
        match (r, first_violations(definitions.deep_view())) {
            (Ok(_), None) => true,
            (Err(e), Some(why)) => e@ == why,
            _ => false,
        },
{
    let ghost all = definitions.deep_view();
    let mut i: usize = 0;
    proof {
        assert(all.skip(0) =~= all);
    }
    while i < definitions.len()
        invariant
            i <= definitions@.len(),
            all == definitions.deep_view(),
            first_violations(all) == first_violations(all.skip(i as int)),
        decreases definitions@.len() - i,
    {
        proof {
            assert(all.skip(i as int).drop_first() =~= all.skip(i + 1));
            assert(all[i as int] == definitions@[i as int]@);
            reveal(meets_rules);
        }
        let violations = validate(&definitions[i]);
        if violations.len() > 0 {
            return Err(describe_violations(&violations));
        }
        i = i + 1;
    }
    Ok(())
}

/// Flows are accepted exactly where every one of them meets every rule.
pub proof fn accepted_flows_are_valid(flows: Seq<FlowModel>)
    ensures
        first_violations(flows) is None <==> forall|i: int|
            0 <= i < flows.len() ==> #[trigger] meets_rules(flows[i]),
    decreases flows.len(),
{
    if flows.len() > 0 {
        let rest = flows.drop_first();
        accepted_flows_are_valid(rest);
        if meets_rules(flows[0]) {
            if first_violations(rest) is None {
                assert forall|i: int| 0 <= i < flows.len() implies #[trigger] meets_rules(
                    flows[i],
                ) by {
                    if i > 0 {
                        assert(meets_rules(rest[i - 1]));
                    }
                }
            } else {
                let k = choose|k: int|
                    0 <= k < rest.len() && !(#[trigger] meets_rules(rest[k]));
                assert(!meets_rules(flows[k + 1]));
            }
        } else {
            assert(!meets_rules(flows[0]));
        }
    }
}

/// The flows that steps call as subflows.
pub open spec fn step_calls(steps: Seq<StepModel>) -> Seq<Seq<char>>
    decreases steps.len(),
{
    if steps.len() == 0 {
        Seq::empty()
    } else {
        step_calls(steps.drop_last()) + (match step_kind(steps.last()) {
            Some(StepWithModel::Subflow(with)) => seq![with.flow],
            _ => Seq::empty(),
        })
    }
}

/// The flows that the flows of one name call as subflows.
pub open spec fn flow_calls(flows: Seq<FlowModel>, name: Seq<char>) -> Seq<Seq<char>>
    decreases flows.len(),
{
    if flows.len() == 0 {
        Seq::empty()
    } else if flows.last().name == name {
        flow_calls(flows.drop_last(), name) + step_calls(flows.last().steps)
    } else {
        flow_calls(flows.drop_last(), name)
    }
}

/// The names of flows.
pub open spec fn names_of(flows: Seq<FlowModel>) -> Seq<Seq<char>> {
    Seq::new(flows.len(), |i: int| flows[i].name)
}

/// Which flow calls which as a subflow.
pub open spec fn call_graph(flows: Seq<FlowModel>) -> Seq<(Seq<char>, Seq<Seq<char>>)> {
    Seq::new(flows.len(), |i: int| (flows[i].name, flow_calls(flows, flows[i].name)))
}

/// Flows that call one another in a ring; none where there is no ring.
pub open spec fn ring_of(flows: Seq<FlowModel>) -> Option<Seq<Seq<char>>> {
    first_cycle_of(call_graph(flows), names_of(flows))
}

/// How a ring of flows is described.
pub open spec fn ring_text(ring: Seq<Seq<char>>) -> Seq<char> {
    "[no_subflow_recursion] flows invoke one another as subflows: "@ + joined(ring, " -> "@)
}

fn list_step_calls(steps: &Vec<Step>) -> (r: Vec<String>)
    ensures
        r.deep_view() == step_calls(steps.deep_view()),
{
    let ghost all = steps.deep_view();
    let mut out: Vec<String> = Vec::new();
    let mut i: usize = 0;
    proof {
        assert(out.deep_view() =~= step_calls(all.take(0)));
    }
    while i < steps.len()
        invariant
            i <= steps@.len(),
            all == steps.deep_view(),
            out.deep_view() == step_calls(all.take(i as int)),
        decreases steps@.len() - i,
    {
        let ghost before = out.deep_view();
        proof {
            assert(all.take(i + 1).drop_last() =~= all.take(i as int));
            assert(all[i as int] == steps@[i as int]@);
        }
        match steps[i].kind() {
            Some(StepWith::Subflow { with }) => {
                put(&mut out, with.flow.clone());
                proof {
                    assert(out.deep_view() =~= before + seq![with.flow@]);
                }
            },
            _ => {
                proof {
                    assert(before + Seq::<Seq<char>>::empty() =~= before);
                }
            },
        }
        i = i + 1;
    }
    proof {
        assert(all.take(i as int) =~= all);
    }
    out
}

fn list_flow_calls(flows: &Vec<FlowDefinition>, name: &str) -> (r: Vec<String>)
    ensures
        r.deep_view() == flow_calls(flows.deep_view(), name@),
{
    let ghost all = flows.deep_view();
    let mut out: Vec<String> = Vec::new();
    let mut i: usize = 0;
    proof {
        assert(out.deep_view() =~= flow_calls(all.take(0), name@));
    }
    while i < flows.len()
        invariant
            i <= flows@.len(),
            all == flows.deep_view(),
            out.deep_view() == flow_calls(all.take(i as int), name@),
        decreases flows@.len() - i,
    {
        proof {
            assert(all.take(i + 1).drop_last() =~= all.take(i as int));
            assert(all[i as int] == flows@[i as int]@);
        }
        if same_text(flows[i].name.as_str(), name) {
            let more = list_step_calls(&flows[i].steps);
            append_names(&mut out, &more);
        }
        i = i + 1;
    }
    proof {
        assert(all.take(i as int) =~= all);
    }
    out
}

/// Finds flows that call one another in a ring.
pub fn find_ring(flows: &Vec<FlowDefinition>) -> (r: Option<Vec<String>>)
    ensures
        r.deep_view() == ring_of(flows.deep_view()),
{
    let ghost all = flows.deep_view();
    let ghost goal = call_graph(all);
    let mut graph: Vec<(String, Vec<String>)> = Vec::new();
    let mut names: Vec<String> = Vec::new();
    let mut i: usize = 0;
    proof {
        assert(graph.deep_view() =~= goal.take(0));
        assert(names.deep_view() =~= names_of(all).take(0));
    }
    while i < flows.len()
        invariant
            i <= flows@.len(),
            all == flows.deep_view(),
            goal == call_graph(all),
            graph.deep_view() == goal.take(i as int),
            names.deep_view() == names_of(all).take(i as int),
        decreases flows@.len() - i,
    {
        proof {
            assert(all[i as int] == flows@[i as int]@);
            assert(goal.take(i + 1) =~= goal.take(i as int).push(goal[i as int]));
            assert(names_of(all).take(i + 1) =~= names_of(all).take(i as int).push(
                all[i as int].name,
            ));
        }
        let name = flows[i].name.clone();
        let calls = list_flow_calls(flows, name.as_str());
        put(&mut names, name.clone());
        put(&mut graph, (name, calls));
        i = i + 1;
    }
    proof {
        assert(goal.take(i as int) =~= goal);
        assert(names_of(all).take(i as int) =~= names_of(all));
    }
    first_cycle(&graph, &names)
}

proof fn lemma_calls_have_callers(flows: Seq<FlowModel>, name: Seq<char>)
    ensures
        flow_calls(flows, name).len() > 0 ==> names_of(flows).contains(name),
    decreases flows.len(),
{
    if flows.len() > 0 {
        let rest = flows.drop_last();
        lemma_calls_have_callers(rest, name);
        if flows.last().name == name {
            assert(names_of(flows)[flows.len() - 1] == name);
        } else if names_of(rest).contains(name) {
            assert(names_of(flows)[names_of(rest).index_of(name)] == name);
        }
    }
}

proof fn lemma_call_graph(flows: Seq<FlowModel>, name: Seq<char>, n: int)
    requires
        0 <= n <= flows.len(),
    ensures
        successors(call_graph(flows).skip(n), name) == (if names_of(flows).skip(n).contains(name) {
            flow_calls(flows, name)
        } else {
            Seq::empty()
        }),
    decreases flows.len() - n,
{
    let g = call_graph(flows).skip(n);
    let names = names_of(flows).skip(n);
    if n < flows.len() {
        lemma_call_graph(flows, name, n + 1);
        let rest = names_of(flows).skip(n + 1);
        assert(g.drop_first() =~= call_graph(flows).skip(n + 1));
        assert(g[0] == call_graph(flows)[n]);
        if flows[n].name == name {
            assert(names[0] == name);
        } else {
            if names.contains(name) {
                let k = names.index_of(name);
                assert(rest[k - 1] == name);
            }
            if rest.contains(name) {
                assert(names[rest.index_of(name) + 1] == name);
            }
        }
    }
}

/// The calls of a flow stand in the call graph.
pub proof fn call_graph_shows_the_calls(flows: Seq<FlowModel>, name: Seq<char>)
    ensures
        successors(call_graph(flows), name) == flow_calls(flows, name),
{
    lemma_call_graph(flows, name, 0);
    lemma_calls_have_callers(flows, name);
    assert(call_graph(flows).skip(0) =~= call_graph(flows));
    assert(names_of(flows).skip(0) =~= names_of(flows));
    if !names_of(flows).contains(name) {
        assert(flow_calls(flows, name) =~= Seq::<Seq<char>>::empty());
    }
}

/// A ring is reported exactly where flows call one another in a ring, and what
/// is reported is one.
pub proof fn ring_report_is_exact(flows: Seq<FlowModel>)
    ensures
        ring_of(flows) is None <==> is_acyclic(call_graph(flows)),
        ring_of(flows) matches Some(ring) ==> is_cycle(call_graph(flows), ring)
            && ring.drop_last().no_duplicates(),
{
    let g = call_graph(flows);
    assert forall|x: Seq<char>| #[trigger] successors(g, x).len() > 0 implies names_of(
        flows,
    ).contains(x) by {
        call_graph_shows_the_calls(flows, x);
        lemma_calls_have_callers(flows, x);
    }
    no_report_means_acyclic(g, names_of(flows));
    reported_cycle_is_cycle(g, names_of(flows));
}

/// A flow file that was found: its path, and its flows or why they could not be
/// read.
#[derive(Debug)]
pub struct FoundFile {
    pub path: String,
    pub flows: Result<Vec<FlowDefinition>, String>,
}

/// What a [`FoundFile`] denotes.
#[verifier::ext_equal]
pub struct FoundModel {
    pub path: Seq<char>,
    pub flows: Result<Seq<FlowModel>, Seq<char>>,
}

impl View for FoundFile {
    type V = FoundModel;

    open spec fn view(&self) -> FoundModel {
        FoundModel {
            path: self.path@,
            flows: match self.flows {
                Ok(flows) => Ok(flows.deep_view()),
                Err(e) => Err(e@),
            },
        }
    }
}

impl DeepView for FoundFile {
    type V = FoundModel;

    open spec fn deep_view(&self) -> FoundModel {
        self@
    }
}

/// The flows that were loaded from files.
#[derive(Debug)]
pub struct FsFlowSource {
    flows: Vec<FlowDefinition>,
}

/// What is wrong with a file, if anything is.
pub open spec fn file_problem(file: FoundModel) -> Option<Seq<char>> {
    match file.flows {
        Err(e) => Some(e),
        Ok(flows) => first_violations(flows),
    }
}

/// The flows of a list of files, or the first file with a problem and that
/// problem. A file whose flows close a ring of subflow calls has one.
pub open spec fn loaded(files: Seq<FoundModel>) -> Result<Seq<FlowModel>, (Seq<char>, Seq<char>)>
    decreases files.len(),
{
    if files.len() == 0 {
        Ok(Seq::empty())
    } else {
        match loaded(files.drop_last()) {
            Err(e) => Err(e),
            Ok(before) => match file_problem(files.last()) {
                Some(why) => Err((files.last().path, why)),
                None => match ring_of(before + files.last().flows->Ok_0) {
                    Some(ring) => Err((files.last().path, ring_text(ring))),
                    None => Ok(before + files.last().flows->Ok_0),
                },
            },
        }
    }
}

proof fn lemma_loading_stops(files: Seq<FoundModel>, n: int)
    requires
        0 <= n <= files.len(),
        loaded(files.take(n)) is Err,
    ensures
        loaded(files) == loaded(files.take(n)),
    decreases files.len() - n,
{
    if n == files.len() {
        assert(files.take(n) =~= files);
    } else {
        assert(files.take(n + 1).drop_last() =~= files.take(n));
        lemma_loading_stops(files, n + 1);
    }
}

impl FsFlowSource {
    /// The flows.
    pub closed spec fn spec_flows(&self) -> Seq<FlowModel> {
        self.flows.deep_view()
    }

    /// Takes the flows of the files, in order. One file that cannot be read,
    /// breaks a rule or closes a ring of subflow calls fails the whole load.
    pub fn load(files: &Vec<FoundFile>) -> (r: Result<Self, FsFlowSourceError>)
        ensures
            match (r, loaded(files.deep_view())) {
                (Ok(source), Ok(flows)) => source.spec_flows() == flows,
                (Err(e), Err((path, why))) => e.path@ == path && e.detail@ == why,
                _ => false,
            },
    {
        let ghost all = files.deep_view();
        let mut flows: Vec<FlowDefinition> = Vec::new();
        let mut i: usize = 0;
        proof {
            assert(flows.deep_view() =~= Seq::<FlowModel>::empty());
        }
        while i < files.len()
            invariant
                i <= files@.len(),
                all == files.deep_view(),
                loaded(all.take(i as int)) == Ok::<Seq<FlowModel>, (Seq<char>, Seq<char>)>(
                    flows.deep_view(),
                ),
            decreases files@.len() - i,
        {
            proof {
                assert(all.take(i + 1).drop_last() =~= all.take(i as int));
                assert(all[i as int] == files@[i as int]@);
            }
            match &files[i].flows {
                Err(e) => {
                    proof {
                        lemma_loading_stops(all, i + 1);
                    }
                    return Err(
                        FsFlowSourceError { path: files[i].path.clone(), detail: e.clone() },
                    );
                },
                Ok(found) => match accept_definitions(found) {
                    Err(why) => {
                        proof {
                            lemma_loading_stops(all, i + 1);
                        }
                        return Err(FsFlowSourceError { path: files[i].path.clone(), detail: why });
                    },
                    Ok(_) => {
                        extend(&mut flows, found.duplicate());
                        match find_ring(&flows) {
                            Some(ring) => {
                                proof {
                                    lemma_loading_stops(all, i + 1);
                                }
                                let way = join(&ring, " -> ");
                                return Err(
                                    FsFlowSourceError {
                                        path: files[i].path.clone(),
                                        detail: cat2(
                                            "[no_subflow_recursion] flows invoke one another as subflows: ",
                                            way.as_str(),
                                        ),
                                    },
                                );
                            },
                            None => {},
                        }
                    },
                },
            }
            i = i + 1;
        }
        proof {
            assert(all.take(i as int) =~= all);
        }
        Ok(FsFlowSource { flows })
    }

    /// Every flow, to be read.
    pub fn all(&self) -> (r: &Vec<FlowDefinition>)
        ensures
            r.deep_view() == self.spec_flows(),
    {
        &self.flows
    }

    /// Every flow.
    pub fn list(&self) -> (r: Vec<FlowDefinition>)
        ensures
            r.deep_view() == self.spec_flows(),
    {
        self.flows.duplicate()
    }

    /// The flow that a name and a version requirement select.
    pub fn get(&self, name: &str, version_req: Option<&str>) -> (r: Option<FlowDefinition>)
        ensures
            r.deep_view() == selected(self.spec_flows(), name@, version_req.deep_view()),
    {
        select_flow(self.flows.as_slice(), name, version_req)
    }
}

/// Every flow that was loaded meets every rule.
pub proof fn loaded_flows_are_valid(files: Seq<FoundModel>)
    requires
        loaded(files) is Ok,
    ensures
        forall|i: int|
            0 <= i < loaded(files)->Ok_0.len() ==> #[trigger] meets_rules(loaded(files)->Ok_0[i]),
    decreases files.len(),
{
    if files.len() > 0 {
        let rest = files.drop_last();
        loaded_flows_are_valid(rest);
        let before = loaded(rest)->Ok_0;
        let more = files.last().flows->Ok_0;
        accepted_flows_are_valid(more);
        let all = loaded(files)->Ok_0;
        assert forall|i: int| 0 <= i < all.len() implies #[trigger] meets_rules(all[i]) by {
            if i < before.len() {
                assert(all[i] == before[i]);
            } else {
                assert(all[i] == more[i - before.len()]);
            }
        }
    }
}

/// The flows that were loaded do not call one another in a ring.
pub proof fn loaded_flows_call_in_no_ring(files: Seq<FoundModel>)
    requires
        loaded(files) is Ok,
    ensures
        is_acyclic(call_graph(loaded(files)->Ok_0)),
{
    let flows = loaded(files)->Ok_0;
    ring_report_is_exact(flows);
    if files.len() == 0 {
        assert(names_of(flows) =~= Seq::<Seq<char>>::empty());
    }
}

} // verus!
