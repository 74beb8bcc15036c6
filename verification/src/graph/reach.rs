//! What a search reaches: the nodes that it visits are those that can be
//! reached from its sources, and it visits the nearest first.

use vstd::prelude::*;
use crate::graph::{
    is_child,
    is_complete,
    is_nearest_first,
    is_search,
    justified,
    near,
    next_distance,
    successors,
    visited_nodes,
    Graph,
};

verus! {

/// `to` is reached from `from` by `steps` steps, each from a node to one
/// that the search queues after a visit to it.
pub open spec fn reaches_in<N>(
    graph: Graph<N>,
    onward: spec_fn(N) -> N,
    from: N,
    to: N,
    steps: nat,
) -> bool
    decreases steps,
{
    if steps == 0 {
        from == to
    } else {
        exists|mid: N|
            reaches_in(graph, onward, from, mid, (steps - 1) as nat) && #[trigger] successors(
                graph,
                onward,
                mid,
            ).contains(to)
    }
}

/// One more step after `steps` steps makes `steps + 1` steps.
pub proof fn lemma_reaches_one_more<N>(
    graph: Graph<N>,
    onward: spec_fn(N) -> N,
    from: N,
    mid: N,
    to: N,
    steps: nat,
)
    requires
        reaches_in(graph, onward, from, mid, steps),
        successors(graph, onward, mid).contains(to),
    ensures
        reaches_in(graph, onward, from, to, steps + 1),
        reaches(graph, onward, from, to),
{
    assert(((steps + 1) - 1) as nat == steps);
}

pub open spec fn reaches<N>(graph: Graph<N>, onward: spec_fn(N) -> N, from: N, to: N) -> bool {
    exists|steps: nat| reaches_in(graph, onward, from, to, steps)
}

/// `node` is reached from one of the sources.
pub open spec fn reachable<N>(
    graph: Graph<N>,
    onward: spec_fn(N) -> N,
    sources: Seq<(N, u32)>,
    node: N,
) -> bool {
    exists|i: int| 0 <= i < sources.len() && reaches(graph, onward, (#[trigger] sources[i]).0, node)
}

/// A search visits only nodes that are reached from its sources.
pub proof fn lemma_search_is_sound<N>(
    graph: Graph<N>,
    onward: spec_fn(N) -> N,
    sources: Seq<(N, u32)>,
    marked_before: Set<N>,
    visited: Seq<(N, u32)>,
    marked_after: Set<N>,
    k: int,
)
    requires
        is_search(graph, onward, sources, marked_before, visited, marked_after),
        0 <= k < visited.len(),
    ensures
        reachable(graph, onward, sources, visited[k].0),
    decreases k,
{
    let entry = visited[k];
    assert(justified(graph, onward, sources, visited, k, entry));
    if sources.contains(entry) {
        let i = choose|i: int| 0 <= i < sources.len() && sources[i] == entry;
        assert(reaches_in(graph, onward, sources[i].0, entry.0, 0));
    } else {
        let j = choose|j: int|
            0 <= j < k && j < visited.len() && is_child(graph, onward, #[trigger] visited[j], entry);
        lemma_search_is_sound(graph, onward, sources, marked_before, visited, marked_after, j);
        let i = choose|i: int|
            0 <= i < sources.len() && reaches(graph, onward, (#[trigger] sources[i]).0, visited[j].0);
        let steps = choose|steps: nat| reaches_in(graph, onward, sources[i].0, visited[j].0, steps);
        lemma_reaches_one_more(graph, onward, sources[i].0, visited[j].0, entry.0, steps);
    }
}

/// A search that starts with nothing marked and ends without a result has
/// marked every node that is reached from `from` in `steps` steps, if it has
/// marked `from`.
pub proof fn lemma_search_follows_steps<N>(
    graph: Graph<N>,
    onward: spec_fn(N) -> N,
    sources: Seq<(N, u32)>,
    visited: Seq<(N, u32)>,
    marked_after: Set<N>,
    from: N,
    to: N,
    steps: nat,
)
    requires
        is_search(graph, onward, sources, Set::<N>::empty(), visited, marked_after),
        is_complete(graph, onward, sources, visited, marked_after),
        marked_after.contains(from),
        reaches_in(graph, onward, from, to, steps),
    ensures
        marked_after.contains(to),
    decreases steps,
{
    if steps > 0 {
        let mid = choose|mid: N|
            reaches_in(graph, onward, from, mid, (steps - 1) as nat) && #[trigger] successors(
                graph,
                onward,
                mid,
            ).contains(to);
        lemma_search_follows_steps(
            graph,
            onward,
            sources,
            visited,
            marked_after,
            from,
            mid,
            (steps - 1) as nat,
        );
        assert(visited_nodes(visited).contains(mid));
        let k = choose|k: int| 0 <= k < visited.len() && (#[trigger] visited[k]).0 == mid;
        let next = successors(graph, onward, visited[k].0);
        let i = choose|i: int| 0 <= i < next.len() && next[i] == to;
        assert(marked_after.contains(successors(graph, onward, visited[k].0)[i]));
    }
}

/// A search that starts with nothing marked and ends without a result has
/// marked exactly the nodes that are reached from its sources.
pub proof fn lemma_search_marks_the_reachable<N>(
    graph: Graph<N>,
    onward: spec_fn(N) -> N,
    sources: Seq<(N, u32)>,
    visited: Seq<(N, u32)>,
    marked_after: Set<N>,
)
    requires
        is_search(graph, onward, sources, Set::<N>::empty(), visited, marked_after),
        is_complete(graph, onward, sources, visited, marked_after),
    ensures
        forall|node: N| marked_after.contains(node) <==> reachable(graph, onward, sources, node),
        forall|node: N|
            visited_nodes(visited).contains(node) <==> reachable(graph, onward, sources, node),
{
    assert forall|node: N| marked_after.contains(node) <==> reachable(
        graph,
        onward,
        sources,
        node,
    ) by {
        if marked_after.contains(node) {
            assert(visited_nodes(visited).contains(node));
            let k = choose|k: int| 0 <= k < visited.len() && (#[trigger] visited[k]).0 == node;
            lemma_search_is_sound(
                graph,
                onward,
                sources,
                Set::<N>::empty(),
                visited,
                marked_after,
                k,
            );
        }
        if reachable(graph, onward, sources, node) {
            let i = choose|i: int|
                0 <= i < sources.len() && reaches(graph, onward, (#[trigger] sources[i]).0, node);
            let steps = choose|steps: nat| reaches_in(graph, onward, sources[i].0, node, steps);
            lemma_search_follows_steps(
                graph,
                onward,
                sources,
                visited,
                marked_after,
                sources[i].0,
                node,
                steps,
            );
        }
    }
    assert forall|node: N| visited_nodes(visited).contains(node) <==> reachable(
        graph,
        onward,
        sources,
        node,
    ) by {
        assert(marked_after.contains(node) <==> visited_nodes(visited).contains(node));
    }
}

/// Where every source starts at a distance of at most `start`, the visit
/// number `k` of a search is at a distance of at most `start + k`.
pub proof fn lemma_search_distances<N>(
    graph: Graph<N>,
    onward: spec_fn(N) -> N,
    sources: Seq<(N, u32)>,
    marked_before: Set<N>,
    visited: Seq<(N, u32)>,
    marked_after: Set<N>,
    start: int,
    k: int,
)
    requires
        is_search(graph, onward, sources, marked_before, visited, marked_after),
        forall|i: int| 0 <= i < sources.len() ==> (#[trigger] sources[i]).1 <= start,
        0 <= k < visited.len(),
    ensures
        visited[k].1 <= start + k,
    decreases k,
{
    let entry = visited[k];
    assert(justified(graph, onward, sources, visited, k, entry));
    if sources.contains(entry) {
        let i = choose|i: int| 0 <= i < sources.len() && sources[i] == entry;
        assert(sources[i].1 <= start);
    } else {
        let j = choose|j: int|
            0 <= j < k && j < visited.len() && is_child(graph, onward, #[trigger] visited[j], entry);
        lemma_search_distances(
            graph,
            onward,
            sources,
            marked_before,
            visited,
            marked_after,
            start,
            j,
        );
    }
}

/// A search whose sources are all marked already visits nothing and marks
/// nothing: searching again after a search changes nothing.
pub proof fn lemma_search_again_is_idle<N>(
    graph: Graph<N>,
    onward: spec_fn(N) -> N,
    sources: Seq<(N, u32)>,
    marked_before: Set<N>,
    visited: Seq<(N, u32)>,
    marked_after: Set<N>,
)
    requires
        is_search(graph, onward, sources, marked_before, visited, marked_after),
        forall|i: int| 0 <= i < sources.len() ==> marked_before.contains((#[trigger] sources[i]).0),
    ensures
        visited.len() == 0,
        marked_after == marked_before,
{
    if visited.len() > 0 {
        let entry = visited[0];
        assert(justified(graph, onward, sources, visited, 0, entry));
        let i = choose|i: int| 0 <= i < sources.len() && sources[i] == entry;
        assert(marked_before.contains(sources[i].0));
        assert(!marked_before.contains(visited[0].0));
    }
    assert(marked_after =~= marked_before);
}

/// A distance as the search counts it: no more than the largest there is.
pub open spec fn capped(distance: int) -> int {
    if distance >= u32::MAX {
        u32::MAX as int
    } else {
        distance
    }
}

/// Every visit of a search has a way of its own length: its node is reached
/// from a source in as many steps as its distance is beyond that of the
/// source.
pub proof fn lemma_search_has_a_way<N>(
    graph: Graph<N>,
    onward: spec_fn(N) -> N,
    sources: Seq<(N, u32)>,
    marked_before: Set<N>,
    visited: Seq<(N, u32)>,
    marked_after: Set<N>,
    k: int,
) -> (way: (int, nat))
    requires
        is_search(graph, onward, sources, marked_before, visited, marked_after),
        0 <= k < visited.len(),
    ensures
        0 <= way.0 < sources.len(),
        reaches_in(graph, onward, sources[way.0].0, visited[k].0, way.1),
        visited[k].1 == capped(sources[way.0].1 + way.1),
    decreases k,
{
    let entry = visited[k];
    assert(justified(graph, onward, sources, visited, k, entry));
    if sources.contains(entry) {
        let i = choose|i: int| 0 <= i < sources.len() && sources[i] == entry;
        (i, 0)
    } else {
        let j = choose|j: int|
            0 <= j < k && j < visited.len() && is_child(graph, onward, #[trigger] visited[j], entry);
        let (i, steps) = lemma_search_has_a_way(
            graph,
            onward,
            sources,
            marked_before,
            visited,
            marked_after,
            j,
        );
        lemma_reaches_one_more(graph, onward, sources[i].0, visited[j].0, entry.0, steps);
        (i, steps + 1)
    }
}

/// A finished search that started from a level with nothing marked has
/// visited every node at a distance that no way to it undercuts: a node that
/// is reached from a source in `steps` steps is visited no further away than
/// the source and those steps.
pub proof fn lemma_search_finds_the_nearest<N>(
    graph: Graph<N>,
    onward: spec_fn(N) -> N,
    sources: Seq<(N, u32)>,
    visited: Seq<(N, u32)>,
    i: int,
    node: N,
    steps: nat,
) -> (k: int)
    requires
        is_nearest_first(graph, onward, sources, Set::<N>::empty(), visited),
        0 <= i < sources.len(),
        reaches_in(graph, onward, sources[i].0, node, steps),
    ensures
        0 <= k < visited.len(),
        visited[k].0 == node,
        visited[k].1 <= capped(sources[i].1 + steps),
    decreases steps,
{
    let none = Seq::<(N, u32)>::empty();
    if steps == 0 {
        assert(near(Set::<N>::empty(), visited, none, sources[i].0, sources[i].1));
        choose|k: int|
            0 <= k < visited.len() && (#[trigger] visited[k]).0 == node && visited[k].1
                <= sources[i].1
    } else {
        let mid = choose|mid: N|
            reaches_in(graph, onward, sources[i].0, mid, (steps - 1) as nat) && #[trigger] successors(
                graph,
                onward,
                mid,
            ).contains(node);
        let m = lemma_search_finds_the_nearest(
            graph,
            onward,
            sources,
            visited,
            i,
            mid,
            (steps - 1) as nat,
        );
        let next = successors(graph, onward, visited[m].0);
        let at = choose|at: int| 0 <= at < next.len() && next[at] == node;
        assert(near(
            Set::<N>::empty(),
            visited,
            none,
            successors(graph, onward, visited[m].0)[at],
            next_distance(visited[m].1),
        ));
        choose|k: int|
            0 <= k < visited.len() && (#[trigger] visited[k]).0 == node && visited[k].1
                <= next_distance(visited[m].1)
    }
}

/// Visits of different nodes are as many as their nodes.
pub proof fn lemma_visited_nodes_count<N>(visited: Seq<(N, u32)>)
    requires
        forall|i: int, j: int|
            0 <= i < j < visited.len() ==> (#[trigger] visited[i]).0 != (#[trigger] visited[j]).0,
    ensures
        visited_nodes(visited).finite(),
        visited_nodes(visited).len() == visited.len(),
    decreases visited.len(),
{
    if visited.len() == 0 {
        assert(visited_nodes(visited) =~= Set::<N>::empty());
    } else {
        let earlier = visited.drop_last();
        let last = visited.last();
        assert forall|i: int, j: int| 0 <= i < j < earlier.len() implies (#[trigger] earlier[i]).0 != (
        #[trigger] earlier[j]).0 by {
            assert(earlier[i] == visited[i] && earlier[j] == visited[j]);
        }
        lemma_visited_nodes_count(earlier);
        assert(!visited_nodes(earlier).contains(last.0)) by {
            if visited_nodes(earlier).contains(last.0) {
                let k = choose|k: int| 0 <= k < earlier.len() && (#[trigger] earlier[k]).0 == last.0;
                assert(earlier[k] == visited[k]);
                assert(visited[visited.len() - 1] == last);
            }
        }
        assert forall|n: N| visited_nodes(visited).contains(n) <==> visited_nodes(earlier).insert(
            last.0,
        ).contains(n) by {
            if visited_nodes(visited).contains(n) {
                let k = choose|k: int| 0 <= k < visited.len() && (#[trigger] visited[k]).0 == n;
                if k < earlier.len() {
                    assert(earlier[k] == visited[k]);
                }
            }
            if visited_nodes(earlier).contains(n) {
                let k = choose|k: int| 0 <= k < earlier.len() && (#[trigger] earlier[k]).0 == n;
                assert(earlier[k] == visited[k]);
            }
            if n == last.0 {
                assert(visited[visited.len() - 1].0 == n);
            }
        }
        assert(visited_nodes(visited) =~= visited_nodes(earlier).insert(last.0));
    }
}

} // verus!
