//! Graphs over names: the first cycle of a depth-first search, and the set of
//! names that a search reaches.
use crate::copy::{lemma_push, Duplicate};
use crate::text::{
    lemma_text_le_same, lemma_text_le_step, lemma_text_le_total, same_text, text_at_most, text_le,
};
use vstd::prelude::*;

verus! {

/// The names that `node` leads to: those of the first entry for `node`.
pub open spec fn successors(g: Seq<(Seq<char>, Seq<Seq<char>>)>, node: Seq<char>) -> Seq<Seq<char>>
    decreases g.len(),
{
    if g.len() == 0 {
        Seq::empty()
    } else if g[0].0 == node {
        g[0].1
    } else {
        successors(g.drop_first(), node)
    }
}

/// Whether every name of `p` leads to the one after it.
pub open spec fn is_path(g: Seq<(Seq<char>, Seq<Seq<char>>)>, p: Seq<Seq<char>>) -> bool {
    forall|i: int| 0 <= i < p.len() - 1 ==> (#[trigger] successors(g, p[i])).contains(p[i + 1])
}

/// Whether `c` leads round to the name it starts with.
pub open spec fn is_cycle(g: Seq<(Seq<char>, Seq<Seq<char>>)>, c: Seq<Seq<char>>) -> bool {
    c.len() >= 2 && c[0] == c.last() && is_path(g, c)
}

/// Whether no path comes back to its start.
pub open spec fn is_acyclic(g: Seq<(Seq<char>, Seq<Seq<char>>)>) -> bool {
    forall|c: Seq<Seq<char>>| !#[trigger] is_cycle(g, c)
}

/// Whether `p` is a path from one of `starts` to `x`.
pub open spec fn leads_to(
    g: Seq<(Seq<char>, Seq<Seq<char>>)>,
    starts: Seq<Seq<char>>,
    p: Seq<Seq<char>>,
    x: Seq<char>,
) -> bool {
    p.len() >= 1 && starts.contains(p[0]) && p.last() == x && is_path(g, p)
}

/// Whether some path leads from one of `starts` to `x`.
pub open spec fn reaches(
    g: Seq<(Seq<char>, Seq<Seq<char>>)>,
    starts: Seq<Seq<char>>,
    x: Seq<char>,
) -> bool {
    exists|p: Seq<Seq<char>>| #[trigger] leads_to(g, starts, p, x)
}

/// Every name that occurs among the successors.
pub open spec fn target_names(g: Seq<(Seq<char>, Seq<Seq<char>>)>) -> Set<Seq<char>>
    decreases g.len(),
{
    if g.len() == 0 {
        Set::empty()
    } else {
        g[0].1.to_set().union(target_names(g.drop_first()))
    }
}

/// The names that a search from `starts` can meet.
pub open spec fn names_from(g: Seq<(Seq<char>, Seq<Seq<char>>)>, starts: Seq<Seq<char>>) -> Set<
    Seq<char>,
> {
    starts.to_set().union(target_names(g))
}

proof fn lemma_target_names(g: Seq<(Seq<char>, Seq<Seq<char>>)>, node: Seq<char>)
    ensures
        target_names(g).finite(),
        forall|x: Seq<char>| #[trigger]
            successors(g, node).contains(x) ==> target_names(g).contains(x),
    decreases g.len(),
{
    if g.len() > 0 {
        lemma_target_names(g.drop_first(), node);
        assert forall|x: Seq<char>| #[trigger] successors(g, node).contains(x) implies target_names(
            g,
        ).contains(x) by {
            if g[0].0 == node {
                assert(g[0].1.to_set().contains(x));
            } else {
                assert(successors(g.drop_first(), node).contains(x));
            }
        }
    }
}

/// Where `x` first stands in `s`; the length of `s` where it does not.
pub open spec fn position(s: Seq<Seq<char>>, x: Seq<char>) -> int
    decreases s.len(),
{
    if s.len() == 0 {
        0
    } else if s[0] == x {
        0
    } else {
        1 + position(s.drop_first(), x)
    }
}

proof fn lemma_position(s: Seq<Seq<char>>, x: Seq<char>)
    ensures
        0 <= position(s, x) <= s.len(),
        s.contains(x) <==> position(s, x) < s.len(),
        s.contains(x) ==> s[position(s, x)] == x,
    decreases s.len(),
{
    if s.len() > 0 {
        lemma_position(s.drop_first(), x);
        if s[0] == x {
            assert(s.contains(x));
        } else {
            if s.contains(x) {
                let i = s.index_of(x);
                assert(s.drop_first()[i - 1] == x);
            }
            if s.drop_first().contains(x) {
                let i = s.drop_first().index_of(x);
                assert(s[i + 1] == x);
            }
        }
    }
}

/// How a depth-first search ended: at a cycle, or with the names it has
/// finished, in the order in which they were finished.
#[verifier::ext_equal]
pub enum Search {
    Cycle(Seq<Seq<char>>),
    Finished(Seq<Seq<char>>),
}

/// Depth-first search from `node`, with `stack` leading to it and `done`
/// finished before; `depth` bounds how much deeper the search can go.
pub open spec fn visit(
    g: Seq<(Seq<char>, Seq<Seq<char>>)>,
    node: Seq<char>,
    stack: Seq<Seq<char>>,
    done: Seq<Seq<char>>,
    depth: nat,
) -> Search
    decreases depth, 0nat,
{
    if depth == 0 {
        Search::Finished(done)
    } else {
        match visit_all(g, successors(g, node), stack.push(node), done, (depth - 1) as nat) {
            Search::Cycle(c) => Search::Cycle(c),
            Search::Finished(d) => Search::Finished(d.push(node)),
        }
    }
}

/// Depth-first search from each of `nexts` in turn: a name on the stack closes
/// a cycle, a finished one is passed over.
pub open spec fn visit_all(
    g: Seq<(Seq<char>, Seq<Seq<char>>)>,
    nexts: Seq<Seq<char>>,
    stack: Seq<Seq<char>>,
    done: Seq<Seq<char>>,
    depth: nat,
) -> Search
    decreases depth, nexts.len() + 1,
{
    if nexts.len() == 0 {
        Search::Finished(done)
    } else if stack.contains(nexts[0]) {
        Search::Cycle(stack.skip(position(stack, nexts[0])).push(nexts[0]))
    } else if done.contains(nexts[0]) {
        visit_all(g, nexts.drop_first(), stack, done, depth)
    } else {
        match visit(g, nexts[0], stack, done, depth) {
            Search::Cycle(c) => Search::Cycle(c),
            Search::Finished(d) => visit_all(g, nexts.drop_first(), stack, d, depth),
        }
    }
}

/// The search from each of `starts`, as deep as names can lead.
pub open spec fn search(g: Seq<(Seq<char>, Seq<Seq<char>>)>, starts: Seq<Seq<char>>) -> Search {
    visit_all(g, starts, Seq::empty(), Seq::empty(), names_from(g, starts).len())
}

/// The cycle that the search from `starts` meets first.
pub open spec fn first_cycle_of(
    g: Seq<(Seq<char>, Seq<Seq<char>>)>,
    starts: Seq<Seq<char>>,
) -> Option<Seq<Seq<char>>> {
    match search(g, starts) {
        Search::Cycle(c) => Some(c),
        Search::Finished(_) => None,
    }
}

/// Whether every name's successors were finished before it.
spec fn ordered(g: Seq<(Seq<char>, Seq<Seq<char>>)>, done: Seq<Seq<char>>) -> bool {
    forall|i: int, x: Seq<char>|
        0 <= i < done.len() && #[trigger] successors(g, done[i]).contains(x) ==> done.take(
            i,
        ).contains(x)
}

/// What holds while a search is under way: the stack is a path of distinct
/// names of `all`, and `depth` suffices for the rest of them.
spec fn under_way(
    g: Seq<(Seq<char>, Seq<Seq<char>>)>,
    all: Set<Seq<char>>,
    stack: Seq<Seq<char>>,
    done: Seq<Seq<char>>,
    depth: nat,
) -> bool {
    &&& all.finite()
    &&& forall|x: Seq<char>| #[trigger] target_names(g).contains(x) ==> all.contains(x)
    &&& stack.no_duplicates()
    &&& forall|x: Seq<char>| #[trigger] stack.contains(x) ==> all.contains(x)
    &&& stack.len() + depth >= all.len()
    &&& is_path(g, stack)
    &&& ordered(g, done)
}

proof fn lemma_room(stack: Seq<Seq<char>>, all: Set<Seq<char>>, node: Seq<char>)
    requires
        all.finite(),
        all.contains(node),
        !stack.contains(node),
        stack.no_duplicates(),
        forall|x: Seq<char>| #[trigger] stack.contains(x) ==> all.contains(x),
    ensures
        stack.len() < all.len(),
{
    stack.unique_seq_to_set();
    assert(stack.to_set().subset_of(all.remove(node))) by {
        assert forall|x: Seq<char>| stack.to_set().contains(x) implies all.remove(node).contains(
            x,
        ) by {
            assert(stack.contains(x));
        }
    }
    vstd::set_lib::lemma_len_subset(stack.to_set(), all.remove(node));
}

proof fn lemma_push_under_way(
    g: Seq<(Seq<char>, Seq<Seq<char>>)>,
    all: Set<Seq<char>>,
    node: Seq<char>,
    stack: Seq<Seq<char>>,
    done: Seq<Seq<char>>,
    depth: nat,
)
    requires
        under_way(g, all, stack, done, depth),
        all.contains(node),
        !stack.contains(node),
        stack.len() == 0 || successors(g, stack.last()).contains(node),
    ensures
        depth > 0,
        under_way(g, all, stack.push(node), done, (depth - 1) as nat),
{
    lemma_room(stack, all, node);
    let grown = stack.push(node);
    assert forall|x: Seq<char>| #[trigger] grown.contains(x) implies all.contains(x) by {
        let i = grown.index_of(x);
        if i < stack.len() {
            assert(stack[i] == x);
            assert(stack.contains(x));
        }
    }
    assert(grown.no_duplicates()) by {
        assert forall|i: int, j: int| 0 <= i < grown.len() && 0 <= j < grown.len() && i != j implies
            grown[i] != grown[j] by {
            if i == stack.len() {
                assert(stack[j] == grown[j]);
                assert(stack.contains(grown[j]));
            } else if j == stack.len() {
                assert(stack[i] == grown[i]);
                assert(stack.contains(grown[i]));
            }
        }
    }
    assert forall|i: int| 0 <= i < grown.len() - 1 implies (#[trigger] successors(
        g,
        grown[i],
    )).contains(grown[i + 1]) by {
        assert(grown[i] == stack[i]);
        if i + 1 < stack.len() {
            assert(successors(g, stack[i]).contains(stack[i + 1]));
        }
    }
}

/// What a search of one name yields.
proof fn lemma_visit(
    g: Seq<(Seq<char>, Seq<Seq<char>>)>,
    all: Set<Seq<char>>,
    node: Seq<char>,
    stack: Seq<Seq<char>>,
    done: Seq<Seq<char>>,
    depth: nat,
)
    requires
        under_way(g, all, stack, done, depth),
        all.contains(node),
        !stack.contains(node),
        stack.len() == 0 || successors(g, stack.last()).contains(node),
    ensures
        match visit(g, node, stack, done, depth) {
            Search::Cycle(c) => is_cycle(g, c) && c.drop_last().no_duplicates(),
            Search::Finished(d) => ordered(g, d) && d.contains(node) && (forall|x: Seq<char>|
                done.contains(x) ==> #[trigger] d.contains(x)),
        },
    decreases depth, 0nat,
{
    lemma_push_under_way(g, all, node, stack, done, depth);
    lemma_target_names(g, node);
    lemma_visit_all(g, all, successors(g, node), stack.push(node), done, (depth - 1) as nat);
    match visit_all(g, successors(g, node), stack.push(node), done, (depth - 1) as nat) {
        Search::Cycle(c) => {},
        Search::Finished(d) => {
            let grown = d.push(node);
            assert forall|i: int, x: Seq<char>|
                0 <= i < grown.len() && #[trigger] successors(g, grown[i]).contains(
                    x,
                ) implies grown.take(i).contains(x) by {
                assert(grown.take(i) =~= d.take(i));
                if i < d.len() {
                    assert(successors(g, d[i]).contains(x));
                } else {
                    assert(d.take(i) =~= d);
                    assert(d.contains(x));
                }
            }
            assert(grown[d.len() as int] == node);
            assert forall|x: Seq<char>| done.contains(x) implies #[trigger] grown.contains(x) by {
                assert(d.contains(x));
                assert(grown[d.index_of(x)] == x);
            }
        },
    }
}

/// What a search of several names in turn yields.
proof fn lemma_visit_all(
    g: Seq<(Seq<char>, Seq<Seq<char>>)>,
    all: Set<Seq<char>>,
    nexts: Seq<Seq<char>>,
    stack: Seq<Seq<char>>,
    done: Seq<Seq<char>>,
    depth: nat,
)
    requires
        under_way(g, all, stack, done, depth),
        forall|x: Seq<char>| #[trigger] nexts.contains(x) ==> all.contains(x),
        forall|x: Seq<char>|
            stack.len() > 0 && #[trigger] nexts.contains(x) ==> successors(
                g,
                stack.last(),
            ).contains(x),
    ensures
        match visit_all(g, nexts, stack, done, depth) {
            Search::Cycle(c) => is_cycle(g, c) && c.drop_last().no_duplicates(),
            Search::Finished(d) => {
                &&& ordered(g, d)
                &&& forall|x: Seq<char>| done.contains(x) ==> #[trigger] d.contains(x)
                &&& forall|x: Seq<char>| nexts.contains(x) ==> #[trigger] d.contains(x)
            },
        },
    decreases depth, nexts.len() + 1,
{
    if nexts.len() == 0 {
    } else {
        let next = nexts[0];
        let rest = nexts.drop_first();
        assert(nexts.contains(next));
        assert forall|x: Seq<char>| #[trigger] rest.contains(x) implies nexts.contains(x) by {
            assert(nexts[rest.index_of(x) + 1] == x);
        }
        if stack.contains(next) {
            lemma_position(stack, next);
            let k = position(stack, next);
            let c = stack.skip(k).push(next);
            assert(c[0] == next);
            assert forall|i: int| 0 <= i < c.len() - 1 implies (#[trigger] successors(
                g,
                c[i],
            )).contains(c[i + 1]) by {
                assert(c[i] == stack[k + i]);
                if i + 1 < c.len() - 1 {
                    assert(c[i + 1] == stack[k + i + 1]);
                    assert(successors(g, stack[k + i]).contains(stack[k + i + 1]));
                } else {
                    assert(stack[k + i] == stack.last());
                }
            }
            assert(c.drop_last() =~= stack.skip(k));
        } else {
            let before = if done.contains(next) {
                done
            } else {
                lemma_visit(g, all, next, stack, done, depth);
                match visit(g, next, stack, done, depth) {
                    Search::Cycle(c) => done,
                    Search::Finished(d) => d,
                }
            };
            if done.contains(next) || visit(g, next, stack, done, depth) is Finished {
                assert(before.contains(next));
                lemma_visit_all(g, all, rest, stack, before, depth);
                match visit_all(g, rest, stack, before, depth) {
                    Search::Cycle(c) => {},
                    Search::Finished(d) => {
                        assert forall|x: Seq<char>| nexts.contains(x) implies #[trigger] d.contains(
                            x,
                        ) by {
                            let i = nexts.index_of(x);
                            if i > 0 {
                                assert(rest[i - 1] == x);
                                assert(rest.contains(x));
                            } else {
                                assert(before.contains(x));
                            }
                        }
                        assert forall|x: Seq<char>| done.contains(x) implies #[trigger] d.contains(
                            x,
                        ) by {
                            assert(before.contains(x));
                        }
                    },
                }
            }
        }
    }
}

proof fn lemma_search_starts(g: Seq<(Seq<char>, Seq<Seq<char>>)>, starts: Seq<Seq<char>>)
    ensures
        under_way(g, names_from(g, starts), Seq::empty(), Seq::empty(), names_from(g, starts).len()),
        forall|x: Seq<char>| #[trigger] starts.contains(x) ==> names_from(g, starts).contains(x),
{
    lemma_target_names(g, Seq::empty());
    assert forall|x: Seq<char>| #[trigger] starts.contains(x) implies names_from(
        g,
        starts,
    ).contains(x) by {
        assert(starts.to_set().contains(x));
    }
    vstd::seq_lib::seq_to_set_is_finite(starts);
}

/// What the search reports as a cycle is one, and it passes no name twice.
pub proof fn reported_cycle_is_cycle(
    g: Seq<(Seq<char>, Seq<Seq<char>>)>,
    starts: Seq<Seq<char>>,
)
    ensures
        first_cycle_of(g, starts) matches Some(c) ==> is_cycle(g, c)
            && c.drop_last().no_duplicates(),
{
    lemma_search_starts(g, starts);
    let all = names_from(g, starts);
    lemma_visit_all(g, all, starts, Seq::empty(), Seq::empty(), all.len());
}

/// A finished name lies on no cycle: walking one round, every step moves to a
/// name finished earlier, so the start would have been finished before itself.
proof fn lemma_finished_off_cycle(
    g: Seq<(Seq<char>, Seq<Seq<char>>)>,
    done: Seq<Seq<char>>,
    c: Seq<Seq<char>>,
    first: int,
)
    requires
        ordered(g, done),
        0 <= first < done.len(),
        c.len() > 0,
        done[first] == c[0],
    ensures
        !is_cycle(g, c),
    decreases first,
{
    if is_cycle(g, c) {
        let r = lemma_walk(g, done, c, c.len() - 1, first);
        lemma_finished_off_cycle(g, done, c, r);
    }
}

proof fn lemma_walk(
    g: Seq<(Seq<char>, Seq<Seq<char>>)>,
    done: Seq<Seq<char>>,
    c: Seq<Seq<char>>,
    i: int,
    first: int,
) -> (rank: int)
    requires
        ordered(g, done),
        is_path(g, c),
        0 <= i < c.len(),
        0 <= first < done.len(),
        done[first] == c[0],
    ensures
        0 <= rank <= first,
        done[rank] == c[i],
        i > 0 ==> rank < first,
    decreases i,
{
    if i == 0 {
        first
    } else {
        let r = lemma_walk(g, done, c, i - 1, first);
        assert(successors(g, c[i - 1]).contains(c[i - 1 + 1]));
        assert(successors(g, done[r]).contains(c[i]));
        assert(done.take(r).contains(c[i]));
        let k = done.take(r).index_of(c[i]);
        assert(done[k] == c[i]);
        k
    }
}

/// Where the search from every name that leads anywhere reports no cycle,
/// there is none.
pub proof fn no_report_means_acyclic(
    g: Seq<(Seq<char>, Seq<Seq<char>>)>,
    starts: Seq<Seq<char>>,
)
    requires
        forall|x: Seq<char>| #[trigger] successors(g, x).len() > 0 ==> starts.contains(x),
    ensures
        first_cycle_of(g, starts) is None <==> is_acyclic(g),
{
    lemma_search_starts(g, starts);
    let all = names_from(g, starts);
    lemma_visit_all(g, all, starts, Seq::empty(), Seq::empty(), all.len());
    match search(g, starts) {
        Search::Cycle(c) => {
            assert(is_cycle(g, c));
        },
        Search::Finished(d) => {
            assert forall|c: Seq<Seq<char>>| !#[trigger] is_cycle(g, c) by {
                if is_cycle(g, c) {
                    assert(successors(g, c[0]).contains(c[1]));
                    assert(starts.contains(c[0]));
                    assert(d.contains(c[0]));
                    lemma_finished_off_cycle(g, d, c, d.index_of(c[0]));
                }
            }
        },
    }
}

/// The names that `node` leads to.
pub fn successors_of<'a>(g: &'a Vec<(String, Vec<String>)>, node: &str) -> (r: Option<&'a Vec<String>>)
    ensures
        match r {
            Some(v) => v.deep_view() == successors(g.deep_view(), node@),
            None => successors(g.deep_view(), node@).len() == 0,
        },
{
    let mut i: usize = 0;
    let ghost all = g.deep_view();
    proof {
        assert(all.skip(0) =~= all);
    }
    while i < g.len()
        invariant
            i <= g@.len(),
            all == g.deep_view(),
            successors(all, node@) == successors(all.skip(i as int), node@),
        decreases g@.len() - i,
    {
        proof {
            assert(all.skip(i as int).drop_first() =~= all.skip(i + 1));
            assert(all[i as int] == (g@[i as int].0@, g@[i as int].1.deep_view()));
        }
        if same_text(g[i].0.as_str(), node) {
            return Some(&g[i].1);
        }
        i = i + 1;
    }
    None
}

/// Where `x` first stands among `names`.
pub fn find_name(names: &Vec<String>, x: &str) -> (r: Option<usize>)
    ensures
        match r {
            Some(i) => names.deep_view().contains(x@) && i == position(names.deep_view(), x@) && i
                < names@.len(),
            None => !names.deep_view().contains(x@),
        },
{
    let ghost all = names.deep_view();
    let mut i: usize = 0;
    proof {
        lemma_position(all, x@);
        assert(all.skip(0) =~= all);
    }
    while i < names.len()
        invariant
            i <= names@.len(),
            all == names.deep_view(),
            all.contains(x@) <==> position(all, x@) < all.len(),
            position(all, x@) == i + position(all.skip(i as int), x@),
        decreases names@.len() - i,
    {
        proof {
            assert(all.skip(i as int).drop_first() =~= all.skip(i + 1));
            assert(all[i as int] == names@[i as int]@);
        }
        if same_text(names[i].as_str(), x) {
            return Some(i);
        }
        i = i + 1;
    }
    None
}

/// Whether `x` is among `names`.
pub fn has_name(names: &Vec<String>, x: &str) -> (r: bool)
    ensures
        r == names.deep_view().contains(x@),
{
    find_name(names, x).is_some()
}

fn visit_names(
    g: &Vec<(String, Vec<String>)>,
    nexts: &Vec<String>,
    stack: &mut Vec<String>,
    done: &mut Vec<String>,
    Ghost(all): Ghost<Set<Seq<char>>>,
    Ghost(depth): Ghost<nat>,
) -> (r: Option<Vec<String>>)
    requires
        under_way(g.deep_view(), all, old(stack).deep_view(), old(done).deep_view(), depth),
        forall|x: Seq<char>| #[trigger] nexts.deep_view().contains(x) ==> all.contains(x),
        forall|x: Seq<char>|
            old(stack)@.len() > 0 && #[trigger] nexts.deep_view().contains(x) ==> successors(
                g.deep_view(),
                old(stack).deep_view().last(),
            ).contains(x),
    ensures
        match visit_all(
            g.deep_view(),
            nexts.deep_view(),
            old(stack).deep_view(),
            old(done).deep_view(),
            depth,
        ) {
            Search::Cycle(c) => r.deep_view() == Some(c),
            Search::Finished(d) => r is None && final(done).deep_view() == d && final(stack).deep_view() == old(stack).deep_view(),
        },
    decreases depth, 1nat,
{
    let ghost gv = g.deep_view();
    let ghost names = nexts.deep_view();
    let ghost path = stack.deep_view();
    let ghost start = done.deep_view();
    let mut i: usize = 0;
    proof {
        assert(names.skip(0) =~= names);
    }
    while i < nexts.len()
        invariant
            i <= nexts@.len(),
            gv == g.deep_view(),
            names == nexts.deep_view(),
            path == stack.deep_view(),
            under_way(gv, all, path, done.deep_view(), depth),
            forall|x: Seq<char>| #[trigger] names.contains(x) ==> all.contains(x),
            forall|x: Seq<char>|
                path.len() > 0 && #[trigger] names.contains(x) ==> successors(
                    gv,
                    path.last(),
                ).contains(x),
            path == old(stack).deep_view(),
            start == old(done).deep_view(),
            visit_all(gv, names, path, start, depth) == visit_all(
                gv,
                names.skip(i as int),
                path,
                done.deep_view(),
                depth,
            ),
        decreases nexts@.len() - i,
    {
        let next = nexts[i].as_str();
        proof {
            assert(names.skip(i as int).drop_first() =~= names.skip(i + 1));
            assert(names.skip(i as int)[0] == names[i as int]);
            assert(names[i as int] == next@);
            assert(names.contains(next@));
        }
        match find_name(stack, next) {
            Some(at) => {
                let mut cycle: Vec<String> = Vec::new();
                let mut j: usize = at;
                while j < stack.len()
                    invariant
                        at <= j <= stack@.len(),
                        cycle.deep_view() == stack.deep_view().subrange(at as int, j as int),
                    decreases stack@.len() - j,
                {
                    let ghost before = cycle;
                    let name = stack[j].clone();
                    cycle.push(name);
                    proof {
                        lemma_push(before, cycle, name);
                        assert(stack.deep_view().subrange(at as int, j + 1)
                            =~= stack.deep_view().subrange(at as int, j as int).push(
                            stack@[j as int]@,
                        ));
                    }
                    j = j + 1;
                }
                let ghost before = cycle;
                let name = next.to_owned();
                cycle.push(name);
                proof {
                    lemma_push(before, cycle, name);
                    assert(cycle.deep_view() =~= path.skip(at as int).push(next@));
                }
                return Some(cycle);
            },
            None => {},
        }
        if !has_name(done, next) {
            let ghost before = done.deep_view();
            proof {
                lemma_visit(gv, all, next@, path, before, depth);
            }
            let found = visit_name(g, next, stack, done, Ghost(all), Ghost(depth));
            if found.is_some() {
                return found;
            }
        }
        i = i + 1;
    }
    None
}

fn visit_name(
    g: &Vec<(String, Vec<String>)>,
    node: &str,
    stack: &mut Vec<String>,
    done: &mut Vec<String>,
    Ghost(all): Ghost<Set<Seq<char>>>,
    Ghost(depth): Ghost<nat>,
) -> (r: Option<Vec<String>>)
    requires
        under_way(g.deep_view(), all, old(stack).deep_view(), old(done).deep_view(), depth),
        all.contains(node@),
        !old(stack).deep_view().contains(node@),
        old(stack)@.len() == 0 || successors(
            g.deep_view(),
            old(stack).deep_view().last(),
        ).contains(node@),
    ensures
        match visit(g.deep_view(), node@, old(stack).deep_view(), old(done).deep_view(), depth) {
            Search::Cycle(c) => r.deep_view() == Some(c),
            Search::Finished(d) => r is None && final(done).deep_view() == d && final(stack).deep_view() == old(stack).deep_view(),
        },
    decreases depth, 0nat,
{
    let ghost gv = g.deep_view();
    let ghost path = stack.deep_view();
    let ghost start = done.deep_view();
    proof {
        lemma_push_under_way(gv, all, node@, path, start, depth);
        lemma_target_names(gv, node@);
    }
    let ghost before = *stack;
    let name = node.to_owned();
    stack.push(name);
    proof {
        lemma_push(before, *stack, name);
        assert(stack.deep_view().last() == node@);
    }
    match successors_of(g, node) {
        Some(nexts) => {
            proof {
                lemma_visit_all(gv, all, nexts.deep_view(), path.push(node@), start, (depth - 1) as nat);
            }
            let found = visit_names(
                g,
                nexts,
                stack,
                done,
                Ghost(all),
                Ghost((depth - 1) as nat),
            );
            if found.is_some() {
                return found;
            }
        },
        None => {
            proof {
                assert(successors(gv, node@) =~= Seq::<Seq<char>>::empty());
            }
        },
    }
    let ghost grown = stack.deep_view();
    stack.pop();
    proof {
        assert(stack.deep_view() =~= grown.drop_last());
        assert(path.push(node@).drop_last() =~= path);
    }
    let ghost finished = *done;
    let name = node.to_owned();
    done.push(name);
    proof {
        lemma_push(finished, *done, name);
    }
    None
}

/// The first cycle that a depth-first search from `starts` meets, as the path
/// from a name back to itself, which passes no name twice.
pub fn first_cycle(g: &Vec<(String, Vec<String>)>, starts: &Vec<String>) -> (r: Option<Vec<String>>)
    ensures
        r.deep_view() == first_cycle_of(g.deep_view(), starts.deep_view()),
        r matches Some(c) ==> is_cycle(g.deep_view(), c.deep_view())
            && c.deep_view().drop_last().no_duplicates(),
{
    let mut stack: Vec<String> = Vec::new();
    let mut done: Vec<String> = Vec::new();
    let ghost all = names_from(g.deep_view(), starts.deep_view());
    proof {
        lemma_search_starts(g.deep_view(), starts.deep_view());
        reported_cycle_is_cycle(g.deep_view(), starts.deep_view());
        assert(stack.deep_view() =~= Seq::<Seq<char>>::empty());
        assert(done.deep_view() =~= Seq::<Seq<char>>::empty());
    }
    visit_names(g, starts, &mut stack, &mut done, Ghost(all), Ghost(all.len()))
}

/// `x` put into an ascending list of distinct names.
pub open spec fn sorted_with(names: Seq<Seq<char>>, x: Seq<char>) -> Seq<Seq<char>>
    decreases names.len(),
{
    if names.len() == 0 {
        seq![x]
    } else if names[0] == x {
        names
    } else if text_le(x, names[0]) {
        seq![x] + names
    } else {
        seq![names[0]] + sorted_with(names.drop_first(), x)
    }
}

/// The names of `names`, ascending and each once.
pub open spec fn sorted_names(names: Seq<Seq<char>>) -> Seq<Seq<char>>
    decreases names.len(),
{
    if names.len() == 0 {
        Seq::empty()
    } else {
        sorted_with(sorted_names(names.drop_last()), names.last())
    }
}

proof fn lemma_sorted_with(names: Seq<Seq<char>>, x: Seq<char>)
    ensures
        forall|y: Seq<char>| #[trigger]
            sorted_with(names, x).contains(y) <==> names.contains(y) || y == x,
    decreases names.len(),
{
    if names.len() > 0 {
        let rest = names.drop_first();
        lemma_sorted_with(rest, x);
        assert forall|y: Seq<char>| #[trigger] sorted_with(names, x).contains(y) <==> (
        names.contains(y) || y == x) by {
            let out = sorted_with(names, x);
            if names[0] == x {
                assert(names.contains(x));
            } else if text_le(x, names[0]) {
                assert(out[0] == x);
                if names.contains(y) {
                    assert(out[names.index_of(y) + 1] == y);
                }
                if out.contains(y) && y != x {
                    assert(names[out.index_of(y) - 1] == y);
                }
            } else {
                let tail = sorted_with(rest, x);
                if names.contains(y) {
                    let i = names.index_of(y);
                    if i > 0 {
                        assert(rest[i - 1] == y);
                        assert(tail.contains(y));
                        assert(out[tail.index_of(y) + 1] == y);
                    } else {
                        assert(out[0] == y);
                    }
                }
                if y == x {
                    assert(tail.contains(x));
                    assert(out[tail.index_of(x) + 1] == x);
                }
                if out.contains(y) {
                    let i = out.index_of(y);
                    if i > 0 {
                        assert(tail[i - 1] == y);
                        assert(tail.contains(y));
                        if y != x {
                            assert(rest.contains(y));
                            assert(names[rest.index_of(y) + 1] == y);
                        }
                    } else {
                        assert(names[0] == y);
                    }
                }
            }
        }
    } else {
        assert forall|y: Seq<char>| #[trigger] sorted_with(names, x).contains(y) <==> (
        names.contains(y) || y == x) by {
            assert(sorted_with(names, x)[0] == x);
        }
    }
}

/// Sorting keeps exactly the names that are there.
pub proof fn lemma_sorted_names(names: Seq<Seq<char>>)
    ensures
        forall|y: Seq<char>| #[trigger] sorted_names(names).contains(y) <==> names.contains(y),
    decreases names.len(),
{
    if names.len() > 0 {
        let rest = names.drop_last();
        lemma_sorted_names(rest);
        lemma_sorted_with(sorted_names(rest), names.last());
        assert forall|y: Seq<char>| #[trigger] sorted_names(names).contains(y) <==> names.contains(
            y,
        ) by {
            assert(sorted_names(names).contains(y) <==> sorted_names(rest).contains(y) || y
                == names.last());
            if names.contains(y) {
                let i = names.index_of(y);
                if i < rest.len() {
                    assert(rest[i] == y);
                    assert(rest.contains(y));
                }
            }
            if rest.contains(y) {
                assert(names[rest.index_of(y)] == y);
            }
            if y == names.last() {
                assert(names[names.len() - 1] == y);
            }
        }
    }
}

/// Whether names ascend, each standing once.
pub open spec fn ascending(names: Seq<Seq<char>>) -> bool {
    forall|i: int, j: int|
        0 <= i < j < names.len() ==> text_le(#[trigger] names[i], #[trigger] names[j]) && names[i]
            != names[j]
}

proof fn lemma_sorted_with_ascends(names: Seq<Seq<char>>, x: Seq<char>)
    requires
        ascending(names),
    ensures
        ascending(sorted_with(names, x)),
    decreases names.len(),
{
    if names.len() > 0 && names[0] != x {
        let rest = names.drop_first();
        let out = sorted_with(names, x);
        assert forall|i: int, j: int| 0 <= i < j < rest.len() implies text_le(
            #[trigger] rest[i],
            #[trigger] rest[j],
        ) && rest[i] != rest[j] by {
            assert(rest[i] == names[i + 1] && rest[j] == names[j + 1]);
        }
        lemma_sorted_with_ascends(rest, x);
        lemma_sorted_with(rest, x);
        if text_le(x, names[0]) {
            assert forall|i: int, j: int| 0 <= i < j < out.len() implies text_le(
                #[trigger] out[i],
                #[trigger] out[j],
            ) && out[i] != out[j] by {
                assert(out[j] == names[j - 1]);
                if i > 0 {
                    assert(out[i] == names[i - 1]);
                } else if j > 1 {
                    assert(text_le(names[0], names[j - 1]));
                    lemma_text_le_step(x, names[0], names[j - 1]);
                    if x == names[j - 1] {
                        lemma_text_le_same(x, names[0]);
                    }
                }
            }
        } else {
            let more = sorted_with(rest, x);
            lemma_text_le_total(names[0], x);
            assert forall|i: int, j: int| 0 <= i < j < out.len() implies text_le(
                #[trigger] out[i],
                #[trigger] out[j],
            ) && out[i] != out[j] by {
                assert(out[j] == more[j - 1]);
                if i > 0 {
                    assert(out[i] == more[i - 1]);
                } else {
                    assert(more.contains(more[j - 1]));
                    if more[j - 1] != x {
                        let k = rest.index_of(more[j - 1]);
                        assert(names[k + 1] == more[j - 1]);
                    }
                }
            }
        }
    }
}

/// Sorted names ascend.
pub proof fn lemma_sorted_ascends(names: Seq<Seq<char>>)
    ensures
        ascending(sorted_names(names)),
    decreases names.len(),
{
    if names.len() > 0 {
        lemma_sorted_ascends(names.drop_last());
        lemma_sorted_with_ascends(sorted_names(names.drop_last()), names.last());
    }
}

/// Puts `x` into an ascending list of distinct names.
pub fn insert_sorted(names: &mut Vec<String>, x: &str)
    ensures
        final(names).deep_view() == sorted_with(old(names).deep_view(), x@),
{
    let ghost all = names.deep_view();
    let ghost start = *names;
    let mut i: usize = 0;
    proof {
        assert(all.skip(0) =~= all);
        assert(all.take(0) + sorted_with(all.skip(0), x@) =~= sorted_with(all, x@));
    }
    while i < names.len()
        invariant
            i <= names@.len(),
            *names == start,
            start == *old(names),
            all == start.deep_view(),
            sorted_with(all, x@) == all.take(i as int) + sorted_with(all.skip(i as int), x@),
        decreases names@.len() - i,
    {
        proof {
            assert(all.skip(i as int).drop_first() =~= all.skip(i + 1));
            assert(all[i as int] == names@[i as int]@);
        }
        if same_text(names[i].as_str(), x) {
            proof {
                assert(all.take(i as int) + all.skip(i as int) =~= all);
            }
            return;
        }
        if text_at_most(x, names[i].as_str()) {
            names.insert(i, x.to_owned());
            proof {
                assert(names.deep_view() =~= all.take(i as int) + (seq![x@] + all.skip(i as int)));
            }
            return;
        }
        proof {
            assert(all.take(i as int) + (seq![all[i as int]] + sorted_with(all.skip(i + 1), x@))
                =~= all.take(i + 1) + sorted_with(all.skip(i + 1), x@));
        }
        i = i + 1;
    }
    names.push(x.to_owned());
    proof {
        assert(names.deep_view() =~= all.take(i as int) + seq![x@]);
    }
}

/// Appends `more` to `names`.
pub fn append_names(names: &mut Vec<String>, more: &Vec<String>)
    ensures
        final(names).deep_view() == old(names).deep_view() + more.deep_view(),
{
    let ghost start = names.deep_view();
    let ghost tail = more.deep_view();
    let mut i: usize = 0;
    proof {
        assert(start + tail.take(0) =~= start);
    }
    while i < more.len()
        invariant
            i <= more@.len(),
            tail == more.deep_view(),
            names.deep_view() == start + tail.take(i as int),
        decreases more@.len() - i,
    {
        let ghost before = *names;
        let name = more[i].clone();
        names.push(name);
        proof {
            lemma_push(before, *names, name);
            assert((start + tail.take(i as int)).push(name@) =~= start + tail.take(i + 1));
        }
        i = i + 1;
    }
    proof {
        assert(tail.take(i as int) =~= tail);
    }
}

/// What holds while names are collected: `seen` holds distinct reachable names
/// whose successors are seen or waiting.
spec fn collecting(
    g: Seq<(Seq<char>, Seq<Seq<char>>)>,
    from: Seq<Seq<char>>,
    seen: Seq<Seq<char>>,
    waiting: Seq<Seq<char>>,
) -> bool {
    &&& seen.no_duplicates()
    &&& forall|x: Seq<char>| #[trigger] seen.contains(x) ==> reaches(g, from, x)
    &&& forall|x: Seq<char>| #[trigger] waiting.contains(x) ==> reaches(g, from, x)
    &&& forall|x: Seq<char>| #[trigger] from.contains(x) ==> seen.contains(x) || waiting.contains(x)
    &&& forall|x: Seq<char>, y: Seq<char>|
        seen.contains(x) && #[trigger] successors(g, x).contains(y) ==> seen.contains(y)
            || waiting.contains(y)
}

proof fn lemma_contains_push(s: Seq<Seq<char>>, a: Seq<char>)
    ensures
        forall|x: Seq<char>| #[trigger] s.push(a).contains(x) <==> s.contains(x) || x == a,
{
    assert forall|x: Seq<char>| #[trigger] s.push(a).contains(x) <==> (s.contains(x) || x == a) by {
        if s.contains(x) {
            assert(s.push(a)[s.index_of(x)] == x);
        }
        if x == a {
            assert(s.push(a)[s.len() as int] == x);
        }
        if s.push(a).contains(x) {
            let i = s.push(a).index_of(x);
            if i < s.len() {
                assert(s[i] == x);
            }
        }
    }
}

proof fn lemma_contains_add(s: Seq<Seq<char>>, t: Seq<Seq<char>>)
    ensures
        forall|x: Seq<char>| #[trigger] (s + t).contains(x) <==> s.contains(x) || t.contains(x),
{
    assert forall|x: Seq<char>| #[trigger] (s + t).contains(x) <==> (s.contains(x) || t.contains(
        x,
    )) by {
        if s.contains(x) {
            assert((s + t)[s.index_of(x)] == x);
        }
        if t.contains(x) {
            assert((s + t)[s.len() + t.index_of(x)] == x);
        }
        if (s + t).contains(x) {
            let i = (s + t).index_of(x);
            if i < s.len() {
                assert(s[i] == x);
            } else {
                assert(t[i - s.len()] == x);
            }
        }
    }
}

proof fn lemma_reaches_further(
    g: Seq<(Seq<char>, Seq<Seq<char>>)>,
    from: Seq<Seq<char>>,
    x: Seq<char>,
    y: Seq<char>,
)
    requires
        reaches(g, from, x),
        successors(g, x).contains(y),
    ensures
        reaches(g, from, y),
{
    let path = choose|p: Seq<Seq<char>>| leads_to(g, from, p, x);
    let longer = path.push(y);
    assert(longer[0] == path[0]);
    assert forall|i: int| 0 <= i < longer.len() - 1 implies (#[trigger] successors(
        g,
        longer[i],
    )).contains(longer[i + 1]) by {
        assert(longer[i] == path[i]);
        if i + 1 < path.len() {
            assert(successors(g, path[i]).contains(path[i + 1]));
        }
    }
    assert(leads_to(g, from, longer, y));
}

proof fn lemma_reached_is_named(
    g: Seq<(Seq<char>, Seq<Seq<char>>)>,
    from: Seq<Seq<char>>,
    x: Seq<char>,
)
    requires
        reaches(g, from, x),
    ensures
        names_from(g, from).contains(x),
{
    let p = choose|p: Seq<Seq<char>>| leads_to(g, from, p, x);
    lemma_search_starts(g, from);
    if p.len() > 1 {
        let i = p.len() - 2;
        lemma_target_names(g, p[i]);
        assert(successors(g, p[i]).contains(p[i + 1]));
    }
}

proof fn lemma_collect_again(
    g: Seq<(Seq<char>, Seq<Seq<char>>)>,
    from: Seq<Seq<char>>,
    seen: Seq<Seq<char>>,
    waiting: Seq<Seq<char>>,
)
    requires
        collecting(g, from, seen, waiting),
        waiting.len() > 0,
        seen.contains(waiting.last()),
    ensures
        collecting(g, from, seen, waiting.drop_last()),
{
    let left = waiting.drop_last();
    lemma_contains_push(left, waiting.last());
    assert(left.push(waiting.last()) =~= waiting);
    assert forall|x: Seq<char>| #[trigger] left.contains(x) implies waiting.contains(x) by {
        assert(left.push(waiting.last()).contains(x));
    }
}

proof fn lemma_collect_new(
    g: Seq<(Seq<char>, Seq<Seq<char>>)>,
    from: Seq<Seq<char>>,
    seen: Seq<Seq<char>>,
    waiting: Seq<Seq<char>>,
)
    requires
        collecting(g, from, seen, waiting),
        waiting.len() > 0,
        !seen.contains(waiting.last()),
    ensures
        collecting(
            g,
            from,
            seen.push(waiting.last()),
            waiting.drop_last() + successors(g, waiting.last()),
        ),
        seen.len() < names_from(g, from).len(),
{
    let node = waiting.last();
    let grown = seen.push(node);
    let left = waiting.drop_last();
    let queued = left + successors(g, node);
    assert(left.push(node) =~= waiting);
    lemma_contains_push(left, node);
    lemma_contains_push(seen, node);
    lemma_contains_add(left, successors(g, node));
    assert(waiting.contains(node));
    assert forall|x: Seq<char>| #[trigger] queued.contains(x) implies reaches(g, from, x) by {
        if successors(g, node).contains(x) {
            lemma_reaches_further(g, from, node, x);
        } else {
            assert(waiting.contains(x));
        }
    }
    assert forall|i: int, j: int|
        0 <= i < grown.len() && 0 <= j < grown.len() && i != j implies grown[i] != grown[j] by {
        if i == seen.len() {
            assert(seen[j] == grown[j]);
            assert(seen.contains(grown[j]));
        } else if j == seen.len() {
            assert(seen[i] == grown[i]);
            assert(seen.contains(grown[i]));
        }
    }
    lemma_search_starts(g, from);
    assert forall|x: Seq<char>| #[trigger] seen.contains(x) implies names_from(g, from).contains(
        x,
    ) by {
        lemma_reached_is_named(g, from, x);
    }
    lemma_reached_is_named(g, from, node);
    lemma_room(seen, names_from(g, from), node);
}

/// The names that `starts` lead to, each once, the start names included.
pub fn reached(g: &Vec<(String, Vec<String>)>, starts: &Vec<String>) -> (r: Vec<String>)
    ensures
        r.deep_view().no_duplicates(),
        forall|x: Seq<char>| #[trigger]
            r.deep_view().contains(x) <==> reaches(g.deep_view(), starts.deep_view(), x),
{
    let ghost gv = g.deep_view();
    let ghost from = starts.deep_view();
    let mut seen: Vec<String> = Vec::new();
    let mut stack: Vec<String> = starts.duplicate();
    proof {
        assert(seen.deep_view() =~= Seq::<Seq<char>>::empty());
        assert forall|x: Seq<char>| #[trigger] from.contains(x) implies reaches(gv, from, x) by {
            assert(leads_to(gv, from, seq![x], x));
        }
        assert(collecting(gv, from, seen.deep_view(), stack.deep_view()));
    }
    while stack.len() > 0
        invariant
            gv == g.deep_view(),
            from == starts.deep_view(),
            collecting(gv, from, seen.deep_view(), stack.deep_view()),
        decreases names_from(gv, from).len() - seen@.len(), stack@.len(),
    {
        let ghost seen0 = seen.deep_view();
        let ghost stack0 = stack.deep_view();
        let node = match stack.pop() {
            Some(n) => n,
            None => {
                return seen;
            },
        };
        proof {
            assert(stack.deep_view() =~= stack0.drop_last());
            assert(stack0.last() == node@);
        }
        if has_name(&seen, node.as_str()) {
            proof {
                lemma_collect_again(gv, from, seen0, stack0);
            }
        } else {
            proof {
                lemma_collect_new(gv, from, seen0, stack0);
            }
            match successors_of(g, node.as_str()) {
                Some(nexts) => {
                    append_names(&mut stack, nexts);
                },
                None => {
                    proof {
                        assert(stack0.drop_last() + successors(gv, node@) =~= stack0.drop_last());
                    }
                },
            }
            let ghost before = seen;
            seen.push(node);
            proof {
                lemma_push(before, seen, node);
            }
        }
    }
    proof {
        let out = seen.deep_view();
        assert forall|x: Seq<char>| reaches(gv, from, x) implies #[trigger] out.contains(x) by {
            let p = choose|p: Seq<Seq<char>>| leads_to(gv, from, p, x);
            assert(from.contains(p[0]));
            lemma_closed_path(gv, out, p, p.len() - 1);
        }
    }
    seen
}

/// A set of names that no step leaves holds every path that starts in it.
proof fn lemma_closed_path(
    g: Seq<(Seq<char>, Seq<Seq<char>>)>,
    names: Seq<Seq<char>>,
    p: Seq<Seq<char>>,
    i: int,
)
    requires
        is_path(g, p),
        0 <= i < p.len(),
        names.contains(p[0]),
        forall|x: Seq<char>, y: Seq<char>|
            names.contains(x) && #[trigger] successors(g, x).contains(y) ==> names.contains(y),
    ensures
        names.contains(p[i]),
    decreases i,
{
    if i > 0 {
        lemma_closed_path(g, names, p, i - 1);
        assert(successors(g, p[i - 1]).contains(p[i - 1 + 1]));
    }
}

} // verus!
