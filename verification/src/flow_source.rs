//! Which version of a flow to use.
use crate::copy::{put, Duplicate};
use crate::flow::types::{FlowDefinition, FlowModel};
use crate::text::{
    lemma_text_le_step, lemma_text_le_total, same_text, text_at_most, text_le,
};
use vstd::prelude::*;

verus! {

/// Whether a text is a semantic version.
pub uninterp spec fn is_version(text: Seq<char>) -> bool;

/// Whether both texts are semantic versions and the first is the greater one.
pub uninterp spec fn version_greater(a: Seq<char>, b: Seq<char>) -> bool;

/// Whether a text is a version requirement and another a version that meets it.
pub uninterp spec fn meets_requirement(requirement: Seq<char>, version: Seq<char>) -> bool;

/// Whether whatever is greater than `a` is greater than `b`.
pub open spec fn all_greater(a: Seq<char>, b: Seq<char>) -> bool {
    forall|c: Seq<char>| #[trigger] version_greater(c, a) ==> version_greater(c, b)
}

/// `semver::Version::parse`: whether the text is a version.
#[verifier::external_body]
fn parses_as_version(text: &str) -> (r: bool)
    ensures
        r == is_version(text@),
{
    semver::Version::parse(text).is_ok()
}

/// `semver::Version`'s order, on the versions that two texts denote: whether
/// both are versions and the first comes after the second. The order is strict,
/// and what comes after the first comes after the second.
#[verifier::external_body]
fn comes_after(a: &str, b: &str) -> (r: bool)
    ensures
        r == version_greater(a@, b@),
        r ==> is_version(a@) && is_version(b@) && !version_greater(b@, a@),
        r ==> all_greater(a@, b@),
{
    match (semver::Version::parse(a), semver::Version::parse(b)) {
        (Ok(x), Ok(y)) => x > y,
        _ => false,
    }
}

/// `semver::VersionReq::matches`, on the requirement and the version that two
/// texts denote: whether both can be parsed and the version meets the
/// requirement.
#[verifier::external_body]
fn requirement_matches(requirement: &str, version: &str) -> (r: bool)
    ensures
        r == meets_requirement(requirement@, version@),
        r ==> is_version(version@),
{
    match (semver::VersionReq::parse(requirement), semver::Version::parse(version)) {
        (Ok(q), Ok(v)) => q.matches(&v),
        _ => false,
    }
}

/// Whether the version `a` is preferred to `b`: the greater one of two
/// versions; where one of them is no version, the later text.
pub open spec fn preferred(a: Seq<char>, b: Seq<char>) -> bool {
    if is_version(a) && is_version(b) {
        version_greater(a, b)
    } else {
        !text_le(a, b)
    }
}

/// Whether a flow has this name and a version that meets the requirement, if
/// there is one.
pub open spec fn is_candidate(flow: FlowModel, name: Seq<char>, requirement: Option<Seq<char>>) -> bool {
    flow.name == name && (requirement matches Some(q) ==> meets_requirement(q, flow.version))
}

/// The candidate that is preferred to every earlier one and to which no later
/// one is preferred.
pub open spec fn selected(flows: Seq<FlowModel>, name: Seq<char>, requirement: Option<Seq<char>>) -> Option<
    FlowModel,
>
    decreases flows.len(),
{
    if flows.len() == 0 {
        None
    } else {
        let flow = flows.last();
        let before = selected(flows.drop_last(), name, requirement);
        if !is_candidate(flow, name, requirement) {
            before
        } else {
            match before {
                None => Some(flow),
                Some(best) => if preferred(flow.version, best.version) {
                    Some(flow)
                } else {
                    Some(best)
                },
            }
        }
    }
}

/// Whether no candidate with another version is preferred to `best`.
pub open spec fn none_higher(
    flows: Seq<FlowModel>,
    name: Seq<char>,
    requirement: Option<Seq<char>>,
    best: FlowModel,
) -> bool {
    forall|i: int|
        0 <= i < flows.len() && is_candidate(#[trigger] flows[i], name, requirement)
            && flows[i].version != best.version ==> !preferred(flows[i].version, best.version)
}

/// Whether the versions of the candidates are all versions, or none of them is.
pub open spec fn are_alike(
    flows: Seq<FlowModel>,
    name: Seq<char>,
    requirement: Option<Seq<char>>,
) -> bool {
    forall|i: int, j: int|
        0 <= i < flows.len() && 0 <= j < flows.len() && is_candidate(
            #[trigger] flows[i],
            name,
            requirement,
        ) && is_candidate(#[trigger] flows[j], name, requirement) ==> is_version(flows[i].version)
            == is_version(flows[j].version)
}

/// Whether the preference of `a` to `b` carries over to what is preferred to
/// `a`, as far as both are versions.
spec fn carries_over(a: Seq<char>, b: Seq<char>) -> bool {
    is_version(a) && is_version(b) ==> !version_greater(b, a) && all_greater(a, b)
}

proof fn lemma_new_best(
    flows: Seq<FlowModel>,
    name: Seq<char>,
    requirement: Option<Seq<char>>,
    b: int,
    n: int,
)
    requires
        0 <= b < n < flows.len(),
        are_alike(flows, name, requirement),
        is_candidate(flows[b], name, requirement),
        is_candidate(flows[n], name, requirement),
        none_higher(flows.take(n), name, requirement, flows[b]),
        preferred(flows[n].version, flows[b].version),
        carries_over(flows[n].version, flows[b].version),
    ensures
        none_higher(flows.take(n + 1), name, requirement, flows[n]),
{
    let grown = flows.take(n + 1);
    let old = flows[b].version;
    let new = flows[n].version;
    assert forall|i: int|
        0 <= i < grown.len() && is_candidate(#[trigger] grown[i], name, requirement)
            && grown[i].version != new implies !preferred(grown[i].version, new) by {
        assert(grown[i] == flows[i]);
        assert(flows.take(n)[i] == flows[i]);
        let v = flows[i].version;
        assert(is_version(v) == is_version(new));
        assert(is_version(old) == is_version(new));
        if is_version(new) {
            if version_greater(v, new) {
                assert(version_greater(v, old));
                assert(v != old);
            }
        } else {
            lemma_text_le_total(new, old);
            if v != old {
                lemma_text_le_step(v, old, new);
            }
        }
    }
}

fn is_preferred(a: &str, b: &str) -> (r: bool)
    ensures
        r == preferred(a@, b@),
        r ==> carries_over(a@, b@),
{
    if parses_as_version(a) && parses_as_version(b) {
        comes_after(a, b)
    } else {
        !text_at_most(a, b)
    }
}

/// Selects the flow `name` with the highest version that meets the
/// requirement. A flow whose version is no version still has its place, by the
/// order of the texts, unless a requirement is given. Where the candidates'
/// versions can be compared with one another, none is higher than the selected
/// one.
pub fn select_flow(defs: &[FlowDefinition], name: &str, version_req: Option<&str>) -> (r: Option<
    FlowDefinition,
>)
    ensures
        r.deep_view() == selected(defs.deep_view(), name@, version_req.deep_view()),
        are_alike(defs.deep_view(), name@, version_req.deep_view()) ==> (r matches Some(best)
            ==> none_higher(defs.deep_view(), name@, version_req.deep_view(), best@)),
{
    let ghost all = defs.deep_view();
    let ghost requirement = version_req.deep_view();
    let mut best: Option<usize> = None;
    let mut i: usize = 0;
    while i < defs.len()
        invariant
            i <= defs@.len(),
            all == defs.deep_view(),
            all.len() == defs@.len(),
            requirement == version_req.deep_view(),
            match best {
                Some(b) => b < i && selected(all.take(i as int), name@, requirement) == Some(
                    all[b as int],
                ) && is_candidate(all[b as int], name@, requirement) && (are_alike(
                    all,
                    name@,
                    requirement,
                ) ==> none_higher(all.take(i as int), name@, requirement, all[b as int])),
                None => selected(all.take(i as int), name@, requirement) is None,
            },
        decreases defs@.len() - i,
    {
        let flow = &defs[i];
        proof {
            assert(all.take(i + 1).drop_last() =~= all.take(i as int));
            assert(all[i as int] == flow@);
        }
        let ghost seen = best;
        let fits = match version_req {
            Some(q) => requirement_matches(q, flow.version.as_str()),
            None => true,
        };
        if same_text(flow.name.as_str(), name) && fits {
            best = match best {
                None => Some(i),
                Some(b) => {
                    proof {
                        assert(all[b as int] == defs@[b as int]@);
                    }
                    if is_preferred(flow.version.as_str(), defs[b].version.as_str()) {
                        Some(i)
                    } else {
                        Some(b)
                    }
                },
            };
        }
        proof {
            lemma_selected_member(all.take(i as int), name@, requirement);
            if are_alike(all, name@, requirement) {
                let grown = all.take(i + 1);
                let before = all.take(i as int);
                match (seen, best) {
                    (Some(b), Some(c)) => {
                        if c == i {
                            lemma_new_best(all, name@, requirement, b as int, i as int);
                        } else {
                            assert forall|k: int|
                                0 <= k < grown.len() && is_candidate(
                                    #[trigger] grown[k],
                                    name@,
                                    requirement,
                                ) && grown[k].version != all[b as int].version implies !preferred(
                                grown[k].version,
                                all[b as int].version,
                            ) by {
                                if k < i {
                                    assert(before[k] == grown[k]);
                                }
                            }
                        }
                    },
                    (None, Some(c)) => {
                        assert forall|k: int|
                            0 <= k < grown.len() && is_candidate(
                                #[trigger] grown[k],
                                name@,
                                requirement,
                            ) implies k == i by {
                            if k < i {
                                assert(before[k] == grown[k]);
                            }
                        }
                    },
                    _ => {},
                }
            }
        }
        i = i + 1;
    }
    proof {
        assert(all.take(i as int) =~= all);
    }
    match best {
        Some(b) => {
            proof {
                assert(all[b as int] == defs@[b as int]@);
            }
            Some(defs[b].duplicate())
        },
        None => None,
    }
}

/// Where the flow `name` stands.
pub open spec fn name_index(flows: Seq<FlowModel>, name: Seq<char>) -> Option<int>
    decreases flows.len(),
{
    if flows.len() == 0 {
        None
    } else if flows[0].name == name {
        Some(0)
    } else {
        match name_index(flows.drop_first(), name) {
            Some(i) => Some(i + 1),
            None => None,
        }
    }
}

/// One flow of every name, in the order in which the names first come; a later
/// flow takes the place where both versions are versions and its own is
/// greater.
pub open spec fn latest_flows(flows: Seq<FlowModel>) -> Seq<FlowModel>
    decreases flows.len(),
{
    if flows.len() == 0 {
        Seq::empty()
    } else {
        let before = latest_flows(flows.drop_last());
        let flow = flows.last();
        match name_index(before, flow.name) {
            None => before.push(flow),
            Some(i) => if version_greater(flow.version, before[i].version) {
                before.update(i, flow)
            } else {
                before
            },
        }
    }
}

fn find_named(flows: &Vec<FlowDefinition>, name: &str) -> (r: Option<usize>)
    ensures
        match r {
            Some(i) => name_index(flows.deep_view(), name@) == Some(i as int) && i < flows@.len(),
            None => name_index(flows.deep_view(), name@) is None,
        },
{
    let ghost all = flows.deep_view();
    let mut i: usize = 0;
    proof {
        assert(all.skip(0) =~= all);
    }
    while i < flows.len()
        invariant
            i <= flows@.len(),
            all == flows.deep_view(),
            match name_index(all.skip(i as int), name@) {
                Some(j) => name_index(all, name@) == Some(i + j),
                None => name_index(all, name@) is None,
            },
        decreases flows@.len() - i,
    {
        proof {
            assert(all.skip(i as int).drop_first() =~= all.skip(i + 1));
            assert(all[i as int] == flows@[i as int]@);
        }
        if same_text(flows[i].name.as_str(), name) {
            return Some(i);
        }
        i = i + 1;
    }
    None
}

/// Lists one flow of every name, the one with the highest version.
pub fn list_flows_latest(flows: &Vec<FlowDefinition>) -> (r: Vec<FlowDefinition>)
    ensures
        r.deep_view() == latest_flows(flows.deep_view()),
{
    let ghost all = flows.deep_view();
    let mut out: Vec<FlowDefinition> = Vec::new();
    let mut i: usize = 0;
    proof {
        assert(out.deep_view() =~= latest_flows(all.take(0)));
    }
    while i < flows.len()
        invariant
            i <= flows@.len(),
            all == flows.deep_view(),
            out.deep_view() == latest_flows(all.take(i as int)),
        decreases flows@.len() - i,
    {
        let flow = &flows[i];
        proof {
            assert(all.take(i + 1).drop_last() =~= all.take(i as int));
            assert(all[i as int] == flow@);
        }
        let ghost before = out.deep_view();
        match find_named(&out, flow.name.as_str()) {
            None => {
                put(&mut out, flow.duplicate());
            },
            Some(k) => {
                proof {
                    assert(before[k as int] == out@[k as int]@);
                }
                if comes_after(flow.version.as_str(), out[k].version.as_str()) {
                    let copy = flow.duplicate();
                    out.set(k, copy);
                    proof {
                        assert(out.deep_view() =~= before.update(k as int, copy@));
                    }
                }
            },
        }
        i = i + 1;
    }
    proof {
        assert(all.take(i as int) =~= all);
    }
    out
}

proof fn lemma_selected_member(
    flows: Seq<FlowModel>,
    name: Seq<char>,
    requirement: Option<Seq<char>>,
)
    ensures
        selected(flows, name, requirement) matches Some(best) ==> flows.contains(best)
            && is_candidate(best, name, requirement),
        selected(flows, name, requirement) is None ==> forall|i: int|
            0 <= i < flows.len() ==> !is_candidate(#[trigger] flows[i], name, requirement),
    decreases flows.len(),
{
    if flows.len() > 0 {
        let rest = flows.drop_last();
        lemma_selected_member(rest, name, requirement);
        if let Some(best) = selected(flows, name, requirement) {
            if rest.contains(best) {
                assert(flows[rest.index_of(best)] == best);
            } else {
                assert(flows[flows.len() - 1] == best);
            }
        } else {
            assert forall|i: int| 0 <= i < flows.len() implies !is_candidate(
                #[trigger] flows[i],
                name,
                requirement,
            ) by {
                if i < rest.len() {
                    assert(!is_candidate(rest[i], name, requirement));
                }
            }
        }
    }
}

/// A flow is selected exactly where there is a candidate, and it is one.
pub proof fn selected_flow_is_a_candidate(
    flows: Seq<FlowModel>,
    name: Seq<char>,
    requirement: Option<Seq<char>>,
)
    ensures
        selected(flows, name, requirement) is None <==> forall|i: int|
            0 <= i < flows.len() ==> !is_candidate(#[trigger] flows[i], name, requirement),
        selected(flows, name, requirement) matches Some(best) ==> flows.contains(best)
            && is_candidate(best, name, requirement),
{
    lemma_selected_member(flows, name, requirement);
    if let Some(best) = selected(flows, name, requirement) {
        assert(is_candidate(flows[flows.index_of(best)], name, requirement));
    }
}

} // verus!
