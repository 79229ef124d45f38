//! The routing graph of a flow.
use super::types::{find_step, FlowDefinition, RouteTarget, Step, StepModel, DONE};
use crate::copy::lemma_push;
use crate::graph::{
    first_cycle, first_cycle_of, has_name, insert_sorted, is_acyclic, is_cycle,
    lemma_sorted_names, no_report_means_acyclic, reached, reaches, reported_cycle_is_cycle,
    sorted_names, successors,
};
use crate::text::same_text;
use vstd::prelude::*;

verus! {

/// The targets of a route; none where there is no route.
pub open spec fn targets_of(route: Option<Seq<Seq<char>>>) -> Seq<Seq<char>> {
    match route {
        Some(targets) => targets,
        None => Seq::empty(),
    }
}

/// All targets of a step in the order `on_success`, `on_failure`,
/// `on_approve`, `on_reject`; without those of `on_failure` where only
/// forward progress counts.
pub open spec fn routes_of(step: StepModel, forward: bool) -> Seq<Seq<char>> {
    if forward {
        targets_of(step.on_success) + targets_of(step.on_approve) + targets_of(step.on_reject)
    } else {
        targets_of(step.on_success) + targets_of(step.on_failure) + targets_of(step.on_approve)
            + targets_of(step.on_reject)
    }
}

/// `targets` without the ones that end the run.
pub open spec fn without_done(targets: Seq<Seq<char>>) -> Seq<Seq<char>>
    decreases targets.len(),
{
    if targets.len() == 0 {
        Seq::empty()
    } else if targets.last() == DONE@ {
        without_done(targets.drop_last())
    } else {
        without_done(targets.drop_last()).push(targets.last())
    }
}

/// Whether the step's `on_reject` leads back to the step and nowhere else.
pub open spec fn self_rejecting(step: StepModel) -> bool {
    step.on_reject == Some(seq![step.id])
}

/// Whether a route of `step` to `target` is an edge of the routing graph: it
/// does not end the run, and it is not the self-loop of a rejection.
pub open spec fn is_edge(step: StepModel, target: Seq<char>) -> bool {
    target != DONE@ && !(self_rejecting(step) && target == step.id)
}

/// The edges of `step` to those of `targets` that count, each as the pair of
/// its target and its source.
pub open spec fn edges_to(step: StepModel, targets: Seq<Seq<char>>) -> Seq<(Seq<char>, Seq<char>)>
    decreases targets.len(),
{
    if targets.len() == 0 {
        Seq::empty()
    } else if is_edge(step, targets.last()) {
        edges_to(step, targets.drop_last()).push((targets.last(), step.id))
    } else {
        edges_to(step, targets.drop_last())
    }
}

/// The edges of the routing graph, step by step.
pub open spec fn edges_of(steps: Seq<StepModel>, forward: bool) -> Seq<(Seq<char>, Seq<char>)>
    decreases steps.len(),
{
    if steps.len() == 0 {
        Seq::empty()
    } else {
        edges_of(steps.drop_last(), forward) + edges_to(
            steps.last(),
            routes_of(steps.last(), forward),
        )
    }
}

/// The sources of the edges to `target`, one for each edge.
pub open spec fn sources_of(edges: Seq<(Seq<char>, Seq<char>)>, target: Seq<char>) -> Seq<Seq<char>>
    decreases edges.len(),
{
    if edges.len() == 0 {
        Seq::empty()
    } else if edges.last().0 == target {
        sources_of(edges.drop_last(), target).push(edges.last().1)
    } else {
        sources_of(edges.drop_last(), target)
    }
}

/// The targets of the edges from `source`, one for each edge.
pub open spec fn targets_from(edges: Seq<(Seq<char>, Seq<char>)>, source: Seq<char>) -> Seq<
    Seq<char>,
>
    decreases edges.len(),
{
    if edges.len() == 0 {
        Seq::empty()
    } else if edges.last().1 == source {
        targets_from(edges.drop_last(), source).push(edges.last().0)
    } else {
        targets_from(edges.drop_last(), source)
    }
}

/// The names of `names`, each where it first stands.
pub open spec fn first_occurrences(names: Seq<Seq<char>>) -> Seq<Seq<char>>
    decreases names.len(),
{
    if names.len() == 0 {
        Seq::empty()
    } else {
        let before = first_occurrences(names.drop_last());
        if before.contains(names.last()) {
            before
        } else {
            before.push(names.last())
        }
    }
}

/// The ids of `steps`.
pub open spec fn ids_of(steps: Seq<StepModel>) -> Seq<Seq<char>> {
    Seq::new(steps.len(), |i: int| steps[i].id)
}

/// The targets of `edges`.
pub open spec fn heads_of(edges: Seq<(Seq<char>, Seq<char>)>) -> Seq<Seq<char>> {
    Seq::new(edges.len(), |i: int| edges[i].0)
}

/// Every name that an edge leads to, with the sources of the edges to it.
pub open spec fn incoming_of(edges: Seq<(Seq<char>, Seq<char>)>) -> Seq<
    (Seq<char>, Seq<Seq<char>>),
> {
    let targets = first_occurrences(heads_of(edges));
    Seq::new(targets.len(), |i: int| (targets[i], sources_of(edges, targets[i])))
}

/// Every step id with the targets of its edges, ascending and each once.
pub open spec fn graph_of(steps: Seq<StepModel>, forward: bool) -> Seq<
    (Seq<char>, Seq<Seq<char>>),
> {
    let ids = first_occurrences(ids_of(steps));
    Seq::new(
        ids.len(),
        |i: int| (ids[i], sorted_names(targets_from(edges_of(steps, forward), ids[i]))),
    )
}

/// The ids of those `steps` that none of `edges` leads to.
pub open spec fn unfed(steps: Seq<StepModel>, edges: Seq<(Seq<char>, Seq<char>)>) -> Seq<Seq<char>>
    decreases steps.len(),
{
    if steps.len() == 0 {
        Seq::empty()
    } else if sources_of(edges, steps.last().id).len() == 0 {
        unfed(steps.drop_last(), edges).push(steps.last().id)
    } else {
        unfed(steps.drop_last(), edges)
    }
}

/// The entry steps: those that no edge leads to or, where there is none, those
/// that no forward edge leads to.
pub open spec fn entries_of(steps: Seq<StepModel>) -> Seq<Seq<char>> {
    let strict = unfed(steps, edges_of(steps, false));
    if strict.len() > 0 {
        strict
    } else {
        unfed(steps, edges_of(steps, true))
    }
}

fn push_route<'a>(out: &mut Vec<&'a str>, route: &'a Option<RouteTarget>)
    ensures
        final(out).deep_view() == old(out).deep_view() + targets_of(route.deep_view()),
{
    let ghost start = out.deep_view();
    match route {
        Some(r) => {
            let targets = r.as_slice();
            let ghost all = targets.deep_view();
            let mut i: usize = 0;
            proof {
                assert(start + all.take(0) =~= start);
            }
            while i < targets.len()
                invariant
                    i <= targets@.len(),
                    all == targets.deep_view(),
                    out.deep_view() == start + all.take(i as int),
                decreases targets@.len() - i,
            {
                let ghost before = *out;
                let t = targets[i];
                out.push(t);
                proof {
                    lemma_push(before, *out, t);
                    assert((start + all.take(i as int)).push(t@) =~= start + all.take(i + 1));
                }
                i = i + 1;
            }
            proof {
                assert(all.take(i as int) =~= all);
            }
        },
        None => {
            proof {
                assert(start + Seq::<Seq<char>>::empty() =~= start);
            }
        },
    }
}

fn list_routes<'a>(step: &'a Step, forward: bool) -> (r: Vec<&'a str>)
    ensures
        r.deep_view() == routes_of(step@, forward),
{
    let mut out: Vec<&'a str> = Vec::new();
    proof {
        assert(out.deep_view() + targets_of(step@.on_success) =~= targets_of(step@.on_success));
    }
    push_route(&mut out, &step.on_success);
    if !forward {
        push_route(&mut out, &step.on_failure);
    }
    push_route(&mut out, &step.on_approve);
    push_route(&mut out, &step.on_reject);
    out
}

/// All targets of a step, excluding the ones that end the run.
pub fn routing_targets(step: &Step) -> (r: Vec<&str>)
    ensures
        r.deep_view() == without_done(routes_of(step@, false)),
{
    let routes = list_routes(step, false);
    let ghost all = routes.deep_view();
    let mut out: Vec<&str> = Vec::new();
    let mut i: usize = 0;
    proof {
        assert(out.deep_view() =~= without_done(all.take(0)));
    }
    while i < routes.len()
        invariant
            i <= routes@.len(),
            all == routes.deep_view(),
            out.deep_view() == without_done(all.take(i as int)),
        decreases routes@.len() - i,
    {
        let t = routes[i];
        proof {
            assert(all.take(i + 1).drop_last() =~= all.take(i as int));
            assert(all[i as int] == t@);
        }
        if !same_text(t, DONE) {
            let ghost before = out;
            out.push(t);
            proof {
                lemma_push(before, out, t);
            }
        }
        i = i + 1;
    }
    proof {
        assert(all.take(i as int) =~= all);
    }
    out
}

/// Whether this step's `on_reject` targets the step itself: the one loop that
/// the routing graph allows.
pub fn is_self_reject_loop(step: &Step) -> (r: bool)
    ensures
        r == self_rejecting(step@),
{
    match &step.on_reject {
        Some(route) => {
            let targets = route.as_slice();
            proof {
                assert(step@.on_reject == Some(targets.deep_view()));
                assert(seq![step.id@].len() == 1 && seq![step.id@][0] == step.id@);
                if targets@.len() == 1 {
                    assert(targets.deep_view()[0] == targets@[0]@);
                    if targets@[0]@ == step.id@ {
                        assert(targets.deep_view() =~= seq![step.id@]);
                    }
                }
            }
            targets.len() == 1 && same_text(targets[0], step.id.as_str())
        },
        None => false,
    }
}

/// The edges of the routing graph, each as the pair of its target and its
/// source.
fn list_edges(flow: &FlowDefinition, forward: bool) -> (r: Vec<(String, String)>)
    ensures
        r.deep_view() == edges_of(flow@.steps, forward),
{
    let mut out: Vec<(String, String)> = Vec::new();
    let ghost all = flow@.steps;
    let mut i: usize = 0;
    proof {
        assert(out.deep_view() =~= edges_of(all.take(0), forward));
    }
    while i < flow.steps.len()
        invariant
            i <= flow.steps@.len(),
            all == flow@.steps,
            all == flow.steps.deep_view(),
            out.deep_view() == edges_of(all.take(i as int), forward),
        decreases flow.steps@.len() - i,
    {
        let step = &flow.steps[i];
        proof {
            assert(all.take(i + 1).drop_last() =~= all.take(i as int));
            assert(all[i as int] == step@);
        }
        let routes = list_routes(step, forward);
        let looping = is_self_reject_loop(step);
        let ghost targets = routes.deep_view();
        let ghost start = out.deep_view();
        let mut j: usize = 0;
        proof {
            assert(start + edges_to(step@, targets.take(0)) =~= start);
        }
        while j < routes.len()
            invariant
                j <= routes@.len(),
                targets == routes.deep_view(),
                looping == self_rejecting(step@),
                out.deep_view() == start + edges_to(step@, targets.take(j as int)),
            decreases routes@.len() - j,
        {
            let t = routes[j];
            proof {
                assert(targets.take(j + 1).drop_last() =~= targets.take(j as int));
                assert(targets[j as int] == t@);
            }
            if !same_text(t, DONE) && !(looping && same_text(t, step.id.as_str())) {
                let ghost before = out;
                let edge = (t.to_owned(), step.id.clone());
                out.push(edge);
                proof {
                    lemma_push(before, out, edge);
                    assert((start + edges_to(step@, targets.take(j as int))).push(
                        (t@, step.id@),
                    ) =~= start + edges_to(step@, targets.take(j as int)).push((t@, step.id@)));
                }
            }
            j = j + 1;
        }
        proof {
            assert(targets.take(j as int) =~= targets);
        }
        i = i + 1;
    }
    proof {
        assert(all.take(i as int) =~= all);
    }
    out
}

fn list_sources(edges: &Vec<(String, String)>, target: &str) -> (r: Vec<String>)
    ensures
        r.deep_view() == sources_of(edges.deep_view(), target@),
{
    let mut out: Vec<String> = Vec::new();
    let ghost all = edges.deep_view();
    let mut i: usize = 0;
    proof {
        assert(out.deep_view() =~= sources_of(all.take(0), target@));
    }
    while i < edges.len()
        invariant
            i <= edges@.len(),
            all == edges.deep_view(),
            out.deep_view() == sources_of(all.take(i as int), target@),
        decreases edges@.len() - i,
    {
        proof {
            assert(all.take(i + 1).drop_last() =~= all.take(i as int));
            assert(all[i as int] == (edges@[i as int].0@, edges@[i as int].1@));
        }
        if same_text(edges[i].0.as_str(), target) {
            let ghost before = out;
            let name = edges[i].1.clone();
            out.push(name);
            proof {
                lemma_push(before, out, name);
            }
        }
        i = i + 1;
    }
    proof {
        assert(all.take(i as int) =~= all);
    }
    out
}

fn list_targets(edges: &Vec<(String, String)>, source: &str) -> (r: Vec<String>)
    ensures
        r.deep_view() == sorted_names(targets_from(edges.deep_view(), source@)),
{
    let mut out: Vec<String> = Vec::new();
    let ghost all = edges.deep_view();
    let mut i: usize = 0;
    proof {
        assert(out.deep_view() =~= sorted_names(targets_from(all.take(0), source@)));
    }
    while i < edges.len()
        invariant
            i <= edges@.len(),
            all == edges.deep_view(),
            out.deep_view() == sorted_names(targets_from(all.take(i as int), source@)),
        decreases edges@.len() - i,
    {
        proof {
            assert(all.take(i + 1).drop_last() =~= all.take(i as int));
            assert(all[i as int] == (edges@[i as int].0@, edges@[i as int].1@));
        }
        if same_text(edges[i].1.as_str(), source) {
            proof {
                let grown = targets_from(all.take(i as int), source@).push(edges@[i as int].0@);
                assert(grown.drop_last() =~= targets_from(all.take(i as int), source@));
            }
            insert_sorted(&mut out, edges[i].0.as_str());
        }
        i = i + 1;
    }
    proof {
        assert(all.take(i as int) =~= all);
    }
    out
}

fn push_new(names: &mut Vec<String>, name: &str)
    ensures
        final(names).deep_view() == (if old(names).deep_view().contains(name@) {
            old(names).deep_view()
        } else {
            old(names).deep_view().push(name@)
        }),
{
    if !has_name(names, name) {
        let ghost before = *names;
        let owned = name.to_owned();
        names.push(owned);
        proof {
            lemma_push(before, *names, owned);
        }
    }
}

fn list_heads(edges: &Vec<(String, String)>) -> (r: Vec<String>)
    ensures
        r.deep_view() == first_occurrences(heads_of(edges.deep_view())),
{
    let mut out: Vec<String> = Vec::new();
    let ghost all = heads_of(edges.deep_view());
    let mut i: usize = 0;
    proof {
        assert(out.deep_view() =~= first_occurrences(all.take(0)));
    }
    while i < edges.len()
        invariant
            i <= edges@.len(),
            all == heads_of(edges.deep_view()),
            out.deep_view() == first_occurrences(all.take(i as int)),
        decreases edges@.len() - i,
    {
        proof {
            assert(all.take(i + 1).drop_last() =~= all.take(i as int));
            assert(all[i as int] == edges@[i as int].0@);
        }
        push_new(&mut out, edges[i].0.as_str());
        i = i + 1;
    }
    proof {
        assert(all.take(i as int) =~= all);
    }
    out
}

pub(crate) fn list_ids(flow: &FlowDefinition) -> (r: Vec<String>)
    ensures
        r.deep_view() == first_occurrences(ids_of(flow@.steps)),
{
    let mut out: Vec<String> = Vec::new();
    let ghost all = ids_of(flow@.steps);
    let mut i: usize = 0;
    proof {
        assert(out.deep_view() =~= first_occurrences(all.take(0)));
    }
    while i < flow.steps.len()
        invariant
            i <= flow.steps@.len(),
            all == ids_of(flow@.steps),
            out.deep_view() == first_occurrences(all.take(i as int)),
        decreases flow.steps@.len() - i,
    {
        proof {
            assert(all.take(i + 1).drop_last() =~= all.take(i as int));
            assert(all[i as int] == flow.steps@[i as int].id@);
        }
        push_new(&mut out, flow.steps[i].id.as_str());
        i = i + 1;
    }
    proof {
        assert(all.take(i as int) =~= all);
    }
    out
}

/// Every name that an edge leads to, in the order of the edges, with the
/// sources of the edges to it.
pub fn steps_with_incoming_edges(flow: &FlowDefinition) -> (r: Vec<(String, Vec<String>)>)
    ensures
        r.deep_view() == incoming_of(edges_of(flow@.steps, false)),
{
    let edges = list_edges(flow, false);
    let heads = list_heads(&edges);
    let ghost targets = heads.deep_view();
    let ghost whole = incoming_of(edges.deep_view());
    let mut out: Vec<(String, Vec<String>)> = Vec::new();
    let mut i: usize = 0;
    proof {
        assert(out.deep_view() =~= whole.take(0));
    }
    while i < heads.len()
        invariant
            i <= heads@.len(),
            targets == heads.deep_view(),
            targets == first_occurrences(heads_of(edges.deep_view())),
            whole == incoming_of(edges.deep_view()),
            out.deep_view() == whole.take(i as int),
        decreases heads@.len() - i,
    {
        let ghost before = out;
        let entry = (heads[i].clone(), list_sources(&edges, heads[i].as_str()));
        out.push(entry);
        proof {
            lemma_push(before, out, entry);
            assert(targets[i as int] == heads@[i as int]@);
            assert(whole.take(i + 1) =~= whole.take(i as int).push(whole[i as int]));
        }
        i = i + 1;
    }
    proof {
        assert(whole.take(i as int) =~= whole);
    }
    out
}

fn list_graph(flow: &FlowDefinition, forward: bool) -> (r: Vec<(String, Vec<String>)>)
    ensures
        r.deep_view() == graph_of(flow@.steps, forward),
{
    let edges = list_edges(flow, forward);
    let names = list_ids(flow);
    let ghost ids = names.deep_view();
    let ghost whole = graph_of(flow@.steps, forward);
    let mut out: Vec<(String, Vec<String>)> = Vec::new();
    let mut i: usize = 0;
    proof {
        assert(out.deep_view() =~= whole.take(0));
    }
    while i < names.len()
        invariant
            i <= names@.len(),
            ids == names.deep_view(),
            ids == first_occurrences(ids_of(flow@.steps)),
            edges.deep_view() == edges_of(flow@.steps, forward),
            whole == graph_of(flow@.steps, forward),
            out.deep_view() == whole.take(i as int),
        decreases names@.len() - i,
    {
        let ghost before = out;
        let entry = (names[i].clone(), list_targets(&edges, names[i].as_str()));
        out.push(entry);
        proof {
            lemma_push(before, out, entry);
            assert(ids[i as int] == names@[i as int]@);
            assert(whole.take(i + 1) =~= whole.take(i as int).push(whole[i as int]));
        }
        i = i + 1;
    }
    proof {
        assert(whole.take(i as int) =~= whole);
    }
    out
}

proof fn lemma_sources_head(edges: Seq<(Seq<char>, Seq<char>)>, target: Seq<char>)
    ensures
        sources_of(edges, target).len() > 0 <==> heads_of(edges).contains(target),
    decreases edges.len(),
{
    if edges.len() > 0 {
        let rest = edges.drop_last();
        lemma_sources_head(rest, target);
        if heads_of(edges).contains(target) {
            let i = heads_of(edges).index_of(target);
            if i < rest.len() {
                assert(heads_of(rest)[i] == target);
            }
        }
        if heads_of(rest).contains(target) {
            assert(heads_of(edges)[heads_of(rest).index_of(target)] == target);
        }
        if edges.last().0 == target {
            assert(heads_of(edges)[edges.len() - 1] == target);
        }
    }
}

/// A list of entries that pairs every key with a function of the key gives
/// that function back.
proof fn lemma_successors_listed(
    g: Seq<(Seq<char>, Seq<Seq<char>>)>,
    i: int,
    x: Seq<char>,
)
    requires
        0 <= i < g.len(),
        g[i].0 == x,
        forall|j: int, k: int|
            0 <= j < g.len() && 0 <= k < g.len() && (#[trigger] g[j]).0 == (#[trigger] g[k]).0
                ==> g[j].1 == g[k].1,
    ensures
        successors(g, x) == g[i].1,
    decreases g.len(),
{
    if g[0].0 != x {
        let rest = g.drop_first();
        assert forall|j: int, k: int|
            0 <= j < rest.len() && 0 <= k < rest.len() && (#[trigger] rest[j]).0 == (
            #[trigger] rest[k]).0 implies rest[j].1 == rest[k].1 by {
            assert(g[j + 1].1 == g[k + 1].1);
        }
        assert(rest[i - 1] == g[i]);
        lemma_successors_listed(rest, i - 1, x);
    } else {
        assert(g[0].1 == g[i].1);
    }
}

/// Looking a name up among the incoming edges gives the sources of the edges
/// to it.
pub proof fn lemma_incoming_sources(edges: Seq<(Seq<char>, Seq<char>)>, x: Seq<char>)
    ensures
        successors(incoming_of(edges), x) == sources_of(edges, x),
{
    let g = incoming_of(edges);
    let keys = first_occurrences(heads_of(edges));
    lemma_first_occurrences(heads_of(edges));
    lemma_sources_head(edges, x);
    if keys.contains(x) {
        let i = keys.index_of(x);
        assert(g[i].0 == x);
        lemma_successors_listed(g, i, x);
    } else {
        assert forall|i: int| 0 <= i < g.len() implies (#[trigger] g[i]).0 != x by {
            assert(g[i].0 == keys[i]);
            assert(keys.contains(keys[i]));
        }
        lemma_successors_absent(g, x);
        assert(successors(g, x) =~= sources_of(edges, x));
    }
}

/// A step is found exactly where its id is among the ids.
pub proof fn lemma_find_step_ids(steps: Seq<StepModel>, id: Seq<char>)
    ensures
        find_step(steps, id) is Some <==> ids_of(steps).contains(id),
        find_step(steps, id) matches Some(step) ==> step.id == id && steps.contains(step),
    decreases steps.len(),
{
    if steps.len() > 0 {
        let rest = steps.drop_first();
        lemma_find_step_ids(rest, id);
        if steps[0].id == id {
            assert(ids_of(steps)[0] == id);
        } else {
            if ids_of(steps).contains(id) {
                let i = ids_of(steps).index_of(id);
                assert(ids_of(rest)[i - 1] == id);
            }
            if ids_of(rest).contains(id) {
                let i = ids_of(rest).index_of(id);
                assert(ids_of(steps)[i + 1] == id);
            }
            if let Some(step) = find_step(rest, id) {
                assert(steps[rest.index_of(step) + 1] == step);
            }
        }
    }
}

/// Every step id with the ids it routes to, the self-loop of a rejection
/// excluded.
pub fn adjacency(flow: &FlowDefinition) -> (r: Vec<(String, Vec<String>)>)
    ensures
        r.deep_view() == graph_of(flow@.steps, false),
{
    list_graph(flow, false)
}

fn list_unfed<'a>(flow: &'a FlowDefinition, edges: &Vec<(String, String)>) -> (r: Vec<&'a str>)
    ensures
        r.deep_view() == unfed(flow@.steps, edges.deep_view()),
{
    let mut out: Vec<&'a str> = Vec::new();
    let ghost all = flow@.steps;
    let mut i: usize = 0;
    proof {
        assert(out.deep_view() =~= unfed(all.take(0), edges.deep_view()));
    }
    while i < flow.steps.len()
        invariant
            i <= flow.steps@.len(),
            all == flow@.steps,
            all == flow.steps.deep_view(),
            out.deep_view() == unfed(all.take(i as int), edges.deep_view()),
        decreases flow.steps@.len() - i,
    {
        proof {
            assert(all.take(i + 1).drop_last() =~= all.take(i as int));
            assert(all[i as int] == flow.steps@[i as int]@);
        }
        let id = flow.steps[i].id.as_str();
        if list_sources(edges, id).len() == 0 {
            let ghost before = out;
            out.push(id);
            proof {
                lemma_push(before, out, id);
            }
        }
        i = i + 1;
    }
    proof {
        assert(all.take(i as int) =~= all);
    }
    out
}

/// The entry steps: those that no other step routes to. The strict reading
/// comes first, in which an edge of any kind counts. Only where it leaves no
/// step are the `on_failure` edges disregarded: in a retry loop such as
/// `implement -on_success-> test -on_failure-> implement` every step has an
/// incoming edge, and `implement` is still where the flow starts. A step that
/// only `on_failure` edges lead to is no entry as long as there is another.
pub fn entry_steps(flow: &FlowDefinition) -> (r: Vec<&str>)
    ensures
        r.deep_view() == entries_of(flow@.steps),
{
    let strict = list_unfed(flow, &list_edges(flow, false));
    if strict.len() > 0 {
        return strict;
    }
    list_unfed(flow, &list_edges(flow, true))
}

proof fn lemma_first_occurrences(names: Seq<Seq<char>>)
    ensures
        first_occurrences(names).no_duplicates(),
        forall|x: Seq<char>| #[trigger] first_occurrences(names).contains(x) <==> names.contains(x),
    decreases names.len(),
{
    if names.len() > 0 {
        let rest = names.drop_last();
        let before = first_occurrences(rest);
        let last = names.last();
        lemma_first_occurrences(rest);
        assert forall|x: Seq<char>| #[trigger] first_occurrences(names).contains(
            x,
        ) <==> names.contains(x) by {
            assert(before.contains(x) <==> rest.contains(x));
            if names.contains(x) {
                let i = names.index_of(x);
                if i < rest.len() {
                    assert(rest[i] == x);
                    assert(rest.contains(x));
                }
            }
            if rest.contains(x) {
                assert(names[rest.index_of(x)] == x);
            }
            if before.contains(x) {
                assert(before.push(last)[before.index_of(x)] == x);
            }
            assert(before.push(last)[before.len() as int] == last);
            assert(names[names.len() - 1] == last);
            if before.push(last).contains(x) {
                let i = before.push(last).index_of(x);
                if i < before.len() {
                    assert(before[i] == x);
                }
            }
        }
    }
}

proof fn lemma_successors_absent(g: Seq<(Seq<char>, Seq<Seq<char>>)>, x: Seq<char>)
    requires
        forall|i: int| 0 <= i < g.len() ==> (#[trigger] g[i]).0 != x,
    ensures
        successors(g, x).len() == 0,
    decreases g.len(),
{
    if g.len() > 0 {
        assert forall|i: int| 0 <= i < g.drop_first().len() implies (
        #[trigger] g.drop_first()[i]).0 != x by {
            assert(g[i + 1].0 != x);
        }
        lemma_successors_absent(g.drop_first(), x);
    }
}

proof fn lemma_graph_ids(steps: Seq<StepModel>, forward: bool)
    ensures
        forall|x: Seq<char>| #[trigger]
            successors(graph_of(steps, forward), x).len() > 0 ==> ids_of(steps).contains(x),
{
    let g = graph_of(steps, forward);
    let ids = first_occurrences(ids_of(steps));
    lemma_first_occurrences(ids_of(steps));
    assert forall|x: Seq<char>| #[trigger] successors(g, x).len() > 0 implies ids_of(
        steps,
    ).contains(x) by {
        if !ids.contains(x) {
            assert forall|i: int| 0 <= i < g.len() implies (#[trigger] g[i]).0 != x by {
                assert(g[i].0 == ids[i]);
                assert(ids.contains(ids[i]));
            }
            lemma_successors_absent(g, x);
        }
    }
}

/// A cycle is reported exactly where the forward part of the routing graph has
/// one; what is reported is one and passes no step twice.
pub proof fn cycle_report_is_exact(steps: Seq<StepModel>)
    ensures
        ({
            let report = first_cycle_of(
                graph_of(steps, true),
                sorted_names(first_occurrences(ids_of(steps))),
            );
            &&& report is None <==> is_acyclic(graph_of(steps, true))
            &&& report matches Some(c) ==> is_cycle(graph_of(steps, true), c)
                && c.drop_last().no_duplicates()
        }),
{
    let ids = first_occurrences(ids_of(steps));
    let starts = sorted_names(ids);
    let g = graph_of(steps, true);
    lemma_graph_ids(steps, true);
    lemma_sorted_names(ids);
    lemma_first_occurrences(ids_of(steps));
    assert forall|x: Seq<char>| #[trigger] successors(g, x).len() > 0 implies starts.contains(x) by {
        assert(ids_of(steps).contains(x));
        assert(ids.contains(x));
    }
    no_report_means_acyclic(g, starts);
    reported_cycle_is_cycle(g, starts);
}

/// Looks for a cycle in the forward-progress part of the routing graph, the
/// one without `on_failure` edges and without the self-loop of a rejection.
/// Returns the path from a step back to itself where there is one; it passes no
/// step twice. An
/// `on_failure` edge is a way to recover and may lead back.
pub fn find_cycle(flow: &FlowDefinition) -> (r: Option<Vec<String>>)
    ensures
        r.deep_view() == first_cycle_of(
            graph_of(flow@.steps, true),
            sorted_names(first_occurrences(ids_of(flow@.steps))),
        ),
        r matches Some(c) ==> is_cycle(graph_of(flow@.steps, true), c.deep_view())
            && c.deep_view().drop_last().no_duplicates(),
        r is None <==> is_acyclic(graph_of(flow@.steps, true)),
{
    let graph = list_graph(flow, true);
    let names = list_ids(flow);
    let mut starts: Vec<String> = Vec::new();
    let ghost ids = names.deep_view();
    let mut i: usize = 0;
    proof {
        assert(starts.deep_view() =~= sorted_names(ids.take(0)));
    }
    while i < names.len()
        invariant
            i <= names@.len(),
            ids == names.deep_view(),
            starts.deep_view() == sorted_names(ids.take(i as int)),
        decreases names@.len() - i,
    {
        proof {
            assert(ids.take(i + 1).drop_last() =~= ids.take(i as int));
            assert(ids[i as int] == names@[i as int]@);
        }
        insert_sorted(&mut starts, names[i].as_str());
        i = i + 1;
    }
    proof {
        assert(ids.take(i as int) =~= ids);
        cycle_report_is_exact(flow@.steps);
    }
    first_cycle(&graph, &starts)
}

/// The steps that `start` leads to along the routing graph, `start` included;
/// none where there is no such step.
pub fn reachable_from(flow: &FlowDefinition, start: &str) -> (r: Vec<String>)
    ensures
        r.deep_view().no_duplicates(),
        forall|x: Seq<char>| #[trigger]
            r.deep_view().contains(x) <==> find_step(flow@.steps, start@) is Some && reaches(
                graph_of(flow@.steps, false),
                seq![start@],
                x,
            ),
{
    let graph = adjacency(flow);
    let mut starts: Vec<String> = Vec::new();
    match flow.step(start) {
        Some(_) => {
            starts.push(start.to_owned());
            proof {
                assert(starts.deep_view() =~= seq![start@]);
            }
            reached(&graph, &starts)
        },
        None => starts,
    }
}

/// Whether `target` names a step of the flow or ends the run.
pub fn target_is_valid(flow: &FlowDefinition, target: &str) -> (r: bool)
    ensures
        r == (target@ == DONE@ || find_step(flow@.steps, target@) is Some),
{
    same_text(target, DONE) || flow.step(target).is_some()
}

/// Whether a route leads to more than one target.
pub fn is_fan_out(route: &Option<RouteTarget>) -> (r: bool)
    ensures
        r == (targets_of(route.deep_view()).len() > 1),
{
    match route {
        Some(RouteTarget::Many(v)) => v.len() > 1,
        _ => false,
    }
}

} // verus!
