//! Breadth-first search over any graph, with a set of marked nodes, a
//! visitor that may stop the search, and a function that lists neighbours.

use std::collections::VecDeque;
use std::ops::ControlFlow;
use vstd::prelude::*;
use crate::graph::progress::{
    lemma_fewer_unmarked,
    lemma_level_end,
    lemma_level_neighbor,
    lemma_level_pop,
    lemma_level_start,
    lemma_order_begins,
    lemma_order_end,
    lemma_order_skip,
    lemma_order_visit,
    lemma_progress_end,
    lemma_progress_neighbor,
    lemma_progress_skip,
    lemma_progress_start,
    lemma_progress_visit,
    lemma_queued_one_more,
    level_progress,
    progress,
};

mod progress;
pub mod reach;

verus! {

/// A graph as the search sees it: the neighbours of each node, and a finite
/// set of nodes that no neighbour leads out of.
#[verifier::reject_recursive_types(N)]
pub struct Graph<N> {
    pub universe: Set<N>,
    pub next: spec_fn(N) -> Seq<N>,
}

impl<N> Graph<N> {
    /// Every neighbour of a node of the universe is in the universe.
    pub open spec fn closed(self) -> bool {
        forall|n: N, i: int|
            self.universe.contains(n) && 0 <= i < (self.next)(n).len() ==> self.universe.contains(
                #[trigger] (self.next)(n)[i],
            )
    }

    /// The universe is finite and no neighbour leads out of it.
    pub open spec fn wf(self) -> bool {
        self.universe.finite() && self.closed()
    }
}

/// A set of nodes, as contracts speak of it.
pub type Nodes<N> = Set<N>;

/// A sequence of visits, each a node with its distance, as contracts speak
/// of it.
pub type Visits<N> = Seq<(N, u32)>;

/// For each node the node from which a search goes on after a visit to it,
/// as contracts speak of it.
pub type Onward<N> = spec_fn(N) -> N;

/// The set of nodes that a search has marked.
pub trait NodeSet<N> {
    /// The nodes that are marked.
    spec fn marked(&self) -> Nodes<N>;

    /// Marks `node` and says whether it was unmarked before.
    fn insert(&mut self, node: &N) -> (fresh: bool)
        ensures
            final(self).marked() == old(self).marked().insert(*node),
            fresh == !old(self).marked().contains(*node),
    ;

    fn contains(&self, node: &N) -> (found: bool)
        ensures
            found == self.marked().contains(*node),
    ;
}

/// The neighbours of the nodes of a graph.
pub trait NeighborsFn<N> {
    /// The graph whose neighbours are listed.
    spec fn graph(&self) -> Graph<N>;

    /// The neighbours of `node`, in the order in which they are to be queued.
    fn get(&mut self, node: N) -> (next: Vec<N>)
        requires
            old(self).graph().universe.contains(node),
        ensures
            next@ == (old(self).graph().next)(node),
            final(self).graph() == old(self).graph(),
    ;
}

/// What a search does at each node it reaches for the first time.
pub trait Visitor<N, O> {
    /// What the visitor was made with.
    type Given;

    /// What the visitor was made with: no visit changes it.
    spec fn given(&self) -> Self::Given;

    /// The visits seen so far: each node with its distance.
    spec fn log(&self) -> Visits<N>;

    /// The node whose neighbours the search is to follow after a visit to a
    /// given node.
    spec fn onward(&self) -> Onward<N>;

    /// The result with which the visitor has stopped the search, if it has.
    spec fn stopped(&self) -> Option<O>;

    /// What has to hold of the visitor before a visit, and holds after it.
    spec fn inv(&self) -> bool;

    /// Visits `node`, reached at distance `dist`: `Continue` hands back the
    /// node to go on from, `Break` stops the search with a result.
    fn visit(&mut self, node: N, dist: u32) -> (flow: ControlFlow<O, N>)
        requires
            old(self).inv(),
            old(self).stopped() is None,
        ensures
            final(self).inv(),
            final(self).log() == old(self).log().push((node, dist)),
            final(self).onward() == old(self).onward(),
            final(self).given() == old(self).given(),
            match flow {
                ControlFlow::Continue(from) => {
                    &&& from == (old(self).onward())(node)
                    &&& final(self).stopped() is None
                },
                ControlFlow::Break(result) => final(self).stopped() == Some(result),
            },
    ;
}

/// The distance of a neighbour of a node at distance `dist`: one more, up to
/// the largest distance there is.
pub open spec fn spec_next_distance(dist: u32) -> u32 {
    if dist < u32::MAX {
        (dist + 1) as u32
    } else {
        dist
    }
}

#[verifier::when_used_as_spec(spec_next_distance)]
pub fn next_distance(dist: u32) -> (next: u32)
    ensures
        next == spec_next_distance(dist),
{
    if dist < u32::MAX {
        dist + 1
    } else {
        dist
    }
}

/// The nodes that the search queues after a visit to `node`.
pub open spec fn successors<N>(graph: Graph<N>, onward: spec_fn(N) -> N, node: N) -> Seq<N> {
    (graph.next)(onward(node))
}

/// `child` is queued after the visit `parent`.
pub open spec fn is_child<N>(
    graph: Graph<N>,
    onward: spec_fn(N) -> N,
    parent: (N, u32),
    child: (N, u32),
) -> bool {
    successors(graph, onward, parent.0).contains(child.0) && child.1 == next_distance(parent.1)
}

/// `entry` is one of the sources of the search, or was queued after one of
/// the first `upto` visits.
pub open spec fn justified<N>(
    graph: Graph<N>,
    onward: spec_fn(N) -> N,
    sources: Seq<(N, u32)>,
    visited: Seq<(N, u32)>,
    upto: int,
    entry: (N, u32),
) -> bool {
    ||| sources.contains(entry)
    ||| exists|j: int|
        0 <= j < upto && j < visited.len() && is_child(graph, onward, #[trigger] visited[j], entry)
}

/// The nodes of a sequence of visits.
pub open spec fn visited_nodes<N>(visited: Seq<(N, u32)>) -> Set<N> {
    Set::new(|n: N| exists|k: int| 0 <= k < visited.len() && (#[trigger] visited[k]).0 == n)
}

/// `visited` is what a search from `sources` visits, in this order, on a
/// graph where `marked_before` was marked already, and `marked_after` is what
/// is marked then: the nodes marked before and the visited ones. No node is
/// visited twice, none that was marked before, and each visit is that of a
/// source or of a neighbour of an earlier visit, one step further away.
pub open spec fn is_search<N>(
    graph: Graph<N>,
    onward: spec_fn(N) -> N,
    sources: Seq<(N, u32)>,
    marked_before: Set<N>,
    visited: Seq<(N, u32)>,
    marked_after: Set<N>,
) -> bool {
    &&& forall|n: N|
        marked_after.contains(n) <==> marked_before.contains(n) || visited_nodes(visited).contains(n)
    &&& forall|i: int, j: int|
        0 <= i < j < visited.len() ==> (#[trigger] visited[i]).0 != (#[trigger] visited[j]).0
    &&& forall|k: int| 0 <= k < visited.len() ==> !marked_before.contains((#[trigger] visited[k]).0)
    &&& forall|k: int|
        0 <= k < visited.len() ==> justified(graph, onward, sources, visited, k, #[trigger] visited[k])
}

/// The search has left nothing out: every source is marked, and so is every
/// node that it would queue after one of its visits.
pub open spec fn is_complete<N>(
    graph: Graph<N>,
    onward: spec_fn(N) -> N,
    sources: Seq<(N, u32)>,
    visited: Seq<(N, u32)>,
    marked_after: Set<N>,
) -> bool {
    &&& forall|i: int| 0 <= i < sources.len() ==> marked_after.contains((#[trigger] sources[i]).0)
    &&& forall|k: int, i: int|
        0 <= k < visited.len() && 0 <= i < successors(graph, onward, visited[k].0).len()
            ==> marked_after.contains(#[trigger] successors(graph, onward, visited[k].0)[i])
}

/// The entries are in the order of their distances.
pub open spec fn is_ordered<N>(entries: Seq<(N, u32)>) -> bool {
    forall|i: int, j: int|
        0 <= i <= j < entries.len() ==> (#[trigger] entries[i]).1 <= (#[trigger] entries[j]).1
}

/// The entries are in the order of their distances, and none is more than
/// one step further away than the first: a queue as a search keeps it.
pub open spec fn is_level<N>(entries: Seq<(N, u32)>) -> bool {
    &&& is_ordered(entries)
    &&& forall|j: int|
        0 <= j < entries.len() ==> (#[trigger] entries[j]).1 <= next_distance(entries[0].1)
}

/// `node` has been visited, or waits in the queue, at a distance of at most
/// `limit`.
pub open spec fn within<N>(visited: Seq<(N, u32)>, queue: Seq<(N, u32)>, node: N, limit: u32) -> bool {
    ||| exists|k: int|
        0 <= k < visited.len() && (#[trigger] visited[k]).0 == node && visited[k].1 <= limit
    ||| exists|j: int| 0 <= j < queue.len() && (#[trigger] queue[j]).0 == node && queue[j].1 <= limit
}

/// `node` was marked before the search, or has been visited or waits in the
/// queue at a distance of at most `limit`.
pub open spec fn near<N>(
    marked_before: Set<N>,
    visited: Seq<(N, u32)>,
    queue: Seq<(N, u32)>,
    node: N,
    limit: u32,
) -> bool {
    marked_before.contains(node) || within(visited, queue, node, limit)
}

/// The search has taken the nearest first: every source that was not
/// marked before has been visited no further away than it was queued, and
/// every neighbour of a visit that was not marked before has been visited at
/// most one step further away than that visit.
pub open spec fn is_nearest_first<N>(
    graph: Graph<N>,
    onward: spec_fn(N) -> N,
    sources: Seq<(N, u32)>,
    marked_before: Set<N>,
    visited: Seq<(N, u32)>,
) -> bool {
    &&& forall|i: int|
        0 <= i < sources.len() ==> near(
            marked_before,
            visited,
            Seq::<(N, u32)>::empty(),
            (#[trigger] sources[i]).0,
            sources[i].1,
        )
    &&& forall|k: int, i: int|
        0 <= k < visited.len() && 0 <= i < successors(graph, onward, visited[k].0).len() ==> near(
            marked_before,
            visited,
            Seq::<(N, u32)>::empty(),
            #[trigger] successors(graph, onward, visited[k].0)[i],
            next_distance(visited[k].1),
        )
}

/// What a search puts at the back of its queue after a visit at distance
/// `dist` to a node with the neighbours `next`: those that are not marked, in
/// their order, one step further away.
pub open spec fn queued<N>(next: Seq<N>, marked: Set<N>, dist: u32) -> Seq<(N, u32)>
    decreases next.len(),
{
    if next.len() == 0 {
        Seq::empty()
    } else {
        let before = queued(next.drop_last(), marked, dist);
        if marked.contains(next.last()) {
            before
        } else {
            before.push((next.last(), next_distance(dist)))
        }
    }
}

/// A search can be made from `queue`: the graph is well formed, the search
/// stays in its universe after each visit, and the queue holds nodes of the
/// universe only.
pub open spec fn is_searchable<N>(graph: Graph<N>, onward: spec_fn(N) -> N, queue: Seq<(N, u32)>) -> bool {
    &&& graph.wf()
    &&& forall|n: N| graph.universe.contains(n) ==> graph.universe.contains(#[trigger] onward(n))
    &&& forall|i: int| 0 <= i < queue.len() ==> graph.universe.contains((#[trigger] queue[i]).0)
}

/// The visits of a search that is not stopped, in their order: the first of
/// the queue is dropped if it is marked, and else it is marked and visited
/// and its unmarked neighbours are queued; then the search goes on with what
/// the queue holds.
pub open spec fn search_order<N>(
    graph: Graph<N>,
    onward: spec_fn(N) -> N,
    queue: Seq<(N, u32)>,
    marked: Set<N>,
) -> Seq<(N, u32)>
    decreases graph.universe.difference(marked).len(), queue.len(),
    when is_searchable(graph, onward, queue)
    via search_order_ends::<N>
{
    if queue.len() == 0 {
        Seq::empty()
    } else {
        let entry = queue[0];
        let rest = queue.skip(1);
        if marked.contains(entry.0) {
            search_order(graph, onward, rest, marked)
        } else {
            let marked_then = marked.insert(entry.0);
            seq![entry] + search_order(
                graph,
                onward,
                rest + queued(successors(graph, onward, entry.0), marked_then, entry.1),
                marked_then,
            )
        }
    }
}

#[via_fn]
proof fn search_order_ends<N>(
    graph: Graph<N>,
    onward: spec_fn(N) -> N,
    queue: Seq<(N, u32)>,
    marked: Set<N>,
) {
    if queue.len() > 0 && !marked.contains(queue[0].0) {
        assert(graph.universe.contains(queue[0].0));
        lemma_fewer_unmarked(graph.universe, marked, queue[0].0);
    }
}

/// Searches the graph breadth first.
///
/// The nodes of `queue` are taken from its front, each with its distance.
/// One that is marked already is dropped. Any other is marked and visited;
/// if the visitor stops, its result is returned at once, and else those
/// neighbours of the node it hands back that are not marked are put at the
/// back of the queue, one step further away. The search ends without a
/// result when the queue is empty.
///
/// The visits that this call adds to the log of the visitor are a search
/// from the queued nodes (`is_search`), what is left in the queue was queued
/// by them, and where the search ends without a result it has left nothing
/// out (`is_complete`).
///
/// The visits are those of `search_order`, in their order: all of them where
/// the search ends without a result, and else those up to the visit at which
/// the visitor has stopped.
///
/// Where the queue is a level at the start (`is_level`), as it is with
/// sources that are all equally far away, the visits come in the order of
/// their distances (`is_ordered`), and a search that ends without a result
/// has taken the nearest first (`is_nearest_first`).
pub fn bfs<N, O, M, V, G>(
    queue: &mut VecDeque<(N, u32)>,
    marked: &mut M,
    visit: &mut V,
    neighbors: &mut G,
) -> (found: Option<O>) where M: NodeSet<N>, V: Visitor<N, O>, G: NeighborsFn<N>
    requires
        old(neighbors).graph().wf(),
        old(visit).inv(),
        old(visit).stopped() is None,
        forall|n: N|
            old(neighbors).graph().universe.contains(n) ==> old(neighbors).graph().universe.contains(
                #[trigger] (old(visit).onward())(n),
            ),
        forall|i: int|
            0 <= i < old(queue)@.len() ==> old(neighbors).graph().universe.contains(
                (#[trigger] old(queue)@[i]).0,
            ),
    ensures
        final(neighbors).graph() == old(neighbors).graph(),
        final(visit).inv(),
        final(visit).onward() == old(visit).onward(),
        final(visit).given() == old(visit).given(),
        found == final(visit).stopped(),
        old(visit).log().is_prefix_of(final(visit).log()),
        is_search(
            old(neighbors).graph(),
            old(visit).onward(),
            old(queue)@,
            old(marked).marked(),
            final(visit).log().skip(old(visit).log().len() as int),
            final(marked).marked(),
        ),
        forall|i: int|
            0 <= i < final(queue)@.len() ==> justified(
                old(neighbors).graph(),
                old(visit).onward(),
                old(queue)@,
                final(visit).log().skip(old(visit).log().len() as int),
                final(visit).log().len() - old(visit).log().len(),
                #[trigger] final(queue)@[i],
            ),
        found is None ==> final(queue)@.len() == 0 && is_complete(
            old(neighbors).graph(),
            old(visit).onward(),
            old(queue)@,
            final(visit).log().skip(old(visit).log().len() as int),
            final(marked).marked(),
        ),
        final(visit).log().skip(old(visit).log().len() as int).is_prefix_of(
            search_order(
                old(neighbors).graph(),
                old(visit).onward(),
                old(queue)@,
                old(marked).marked(),
            ),
        ),
        found is None ==> final(visit).log().skip(old(visit).log().len() as int) == search_order(
            old(neighbors).graph(),
            old(visit).onward(),
            old(queue)@,
            old(marked).marked(),
        ),
        is_level(old(queue)@) ==> is_ordered(
            final(visit).log().skip(old(visit).log().len() as int),
        ),
        is_level(old(queue)@) && found is None ==> is_nearest_first(
            old(neighbors).graph(),
            old(visit).onward(),
            old(queue)@,
            old(marked).marked(),
            final(visit).log().skip(old(visit).log().len() as int),
        ),
{
    let ghost graph = neighbors.graph();
    let ghost onward = visit.onward();
    let ghost sources = queue@;
    let ghost marked_before = marked.marked();
    let ghost log_before = visit.log();
    let ghost visited = Seq::<(N, u32)>::empty();
    let ghost done = 0int;
    let ghost level = is_level(sources);
    let ghost order = search_order(graph, onward, sources, marked_before);
    proof {
        assert(visited + order =~= order);
        lemma_progress_start(graph, onward, sources, marked_before);
        if level {
            lemma_level_start(graph, onward, sources, marked_before);
        }
        assert(log_before + visited =~= log_before);
    }
    loop
        invariant
            graph == old(neighbors).graph(),
            onward == old(visit).onward(),
            sources == old(queue)@,
            marked_before == old(marked).marked(),
            log_before == old(visit).log(),
            visit.given() == old(visit).given(),
            graph.wf(),
            neighbors.graph() == graph,
            visit.inv(),
            visit.stopped() is None,
            visit.onward() == onward,
            visit.log() == log_before + visited,
            forall|n: N| graph.universe.contains(n) ==> graph.universe.contains(#[trigger] onward(n)),
            progress(graph, onward, sources, marked_before, visited, marked.marked(), queue@, done),
            level == is_level(sources),
            level ==> level_progress(graph, onward, sources, marked_before, visited, queue@, done),
            order == search_order(graph, onward, sources, marked_before),
            order == visited + search_order(graph, onward, queue@, marked.marked()),
            visited.len() > 0 ==> done >= successors(graph, onward, visited.last().0).len(),
        decreases graph.universe.difference(marked.marked()).len(), queue@.len(),
    {
        let ghost waiting = queue@;
        let ghost marked_now = marked.marked();
        assert(is_searchable(graph, onward, waiting));
        match queue.pop_front() {
            None => {
                proof {
                    assert(queue@ =~= Seq::<(N, u32)>::empty());
                    lemma_progress_end(
                        graph,
                        onward,
                        sources,
                        marked_before,
                        visited,
                        marked.marked(),
                        done,
                    );
                    if level {
                        lemma_level_end(graph, onward, sources, marked_before, visited, done);
                    }
                    lemma_order_end(graph, onward, marked.marked(), visited);
                    lemma_order_begins(visited, Seq::<(N, u32)>::empty());
                    assert((log_before + visited).skip(log_before.len() as int) =~= visited);
                }
                return None;
            },
            Some((node, dist)) => {
                let ghost entry = (node, dist);
                assert(waiting[0] == entry);
                assert(queue@ == waiting.skip(1));
                let ghost rest = queue@;
                if marked.insert(&node) {
                    proof {
                        lemma_fewer_unmarked(graph.universe, marked_now, entry.0);
                        lemma_order_visit(graph, onward, waiting, marked_now, visited);
                        if level {
                            lemma_level_pop(
                                graph,
                                onward,
                                sources,
                                marked_before,
                                visited,
                                waiting,
                                done,
                                true,
                            );
                        }
                        lemma_progress_visit(
                            graph,
                            onward,
                            sources,
                            marked_before,
                            visited,
                            marked_now,
                            waiting,
                            done,
                        );
                        visited = visited.push(entry);
                        done = 0;
                        assert(log_before + visited =~= (log_before + visited.drop_last()).push(
                            entry,
                        ));
                        assert(visited.drop_last().push(entry) =~= visited);
                    }
                    match visit.visit(node, dist) {
                        ControlFlow::Break(result) => {
                            proof {
                                assert((log_before + visited).skip(log_before.len() as int)
                                    =~= visited);
                                lemma_order_begins(
                                    visited,
                                    search_order(
                                        graph,
                                        onward,
                                        rest + queued(
                                            successors(graph, onward, entry.0),
                                            marked.marked(),
                                            dist,
                                        ),
                                        marked.marked(),
                                    ),
                                );
                            }
                            return Some(result);
                        },
                        ControlFlow::Continue(from) => {
                            assert(graph.universe.contains(from));
                            let next = neighbors.get(from);
                            assert(next@ == successors(graph, onward, visited.last().0));
                            proof {
                                assert(next@.take(0) =~= Seq::<N>::empty());
                                assert(rest + queued(next@.take(0), marked.marked(), dist) =~= rest);
                            }
                            for neighbor in it: next.into_iter()
                                invariant
                                    it.seq() == next@,
                                    queue@ == rest + queued(
                                        next@.take(it.index() as int),
                                        marked.marked(),
                                        dist,
                                    ),
                                    order == visited + search_order(
                                        graph,
                                        onward,
                                        rest + queued(next@, marked.marked(), dist),
                                        marked.marked(),
                                    ),
                                    graph.wf(),
                                    neighbors.graph() == graph,
                                    visit.inv(),
                                    visit.stopped() is None,
                                    visit.onward() == onward,
                                    visit.given() == old(visit).given(),
                                    visit.log() == log_before + visited,
                                    visited.len() > 0,
                                    visited.last().1 == dist,
                                    graph.universe.contains(onward(visited.last().0)),
                                    it.seq() == successors(graph, onward, visited.last().0),
                                    marked.marked() == marked_now.insert(entry.0),
                                    progress(
                                        graph,
                                        onward,
                                        sources,
                                        marked_before,
                                        visited,
                                        marked.marked(),
                                        queue@,
                                        it.index() as int,
                                    ),
                                    level ==> level_progress(
                                        graph,
                                        onward,
                                        sources,
                                        marked_before,
                                        visited,
                                        queue@,
                                        it.index() as int,
                                    ),
                            {
                                let unmarked = !marked.contains(&neighbor);
                                proof {
                                    lemma_queued_one_more(
                                        next@,
                                        marked.marked(),
                                        dist,
                                        it.index() as int,
                                    );
                                    let so_far = queued(
                                        next@.take(it.index() as int),
                                        marked.marked(),
                                        dist,
                                    );
                                    assert(rest + so_far.push((neighbor, next_distance(dist)))
                                        =~= (rest + so_far).push((neighbor, next_distance(dist))));
                                    if level {
                                        lemma_level_neighbor(
                                            graph,
                                            onward,
                                            sources,
                                            marked_before,
                                            visited,
                                            queue@,
                                            it.index() as int,
                                            unmarked,
                                        );
                                    }
                                    lemma_progress_neighbor(
                                        graph,
                                        onward,
                                        sources,
                                        marked_before,
                                        visited,
                                        marked.marked(),
                                        queue@,
                                        it.index() as int,
                                        unmarked,
                                    );
                                }
                                if unmarked {
                                    queue.push_back((neighbor, next_distance(dist)));
                                }
                            }
                            proof {
                                done = next@.len() as int;
                                assert(next@.take(next@.len() as int) =~= next@);
                            }
                        },
                    }
                } else {
                    proof {
                        assert(marked_now.insert(entry.0) =~= marked_now);
                        lemma_order_skip(graph, onward, waiting, marked_now);
                        if level {
                            lemma_level_pop(
                                graph,
                                onward,
                                sources,
                                marked_before,
                                visited,
                                waiting,
                                done,
                                false,
                            );
                        }
                        lemma_progress_skip(
                            graph,
                            onward,
                            sources,
                            marked_before,
                            visited,
                            marked_now,
                            waiting,
                            done,
                        );
                    }
                }
            },
        }
    }
}

} // verus!
