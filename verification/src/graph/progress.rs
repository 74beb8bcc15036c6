//! The state of a search under way, and the steps that keep it: what the
//! search itself maintains from one node to the next.

use vstd::prelude::*;
use crate::graph::{
    is_child,
    is_complete,
    is_nearest_first,
    is_ordered,
    is_level,
    is_search,
    is_searchable,
    justified,
    near,
    next_distance,
    queued,
    search_order,
    successors,
    visited_nodes,
    Graph,
};

verus! {

/// `node` is marked or waits in the queue.
pub open spec fn pending<N>(marked: Set<N>, queue: Seq<(N, u32)>, node: N) -> bool {
    marked.contains(node) || exists|j: int| 0 <= j < queue.len() && (#[trigger] queue[j]).0 == node
}

/// The state of a search under way: `visited` so far, `queue` still to do,
/// and the first `done` neighbours of the last visit dealt with.
pub open spec fn progress<N>(
    graph: Graph<N>,
    onward: spec_fn(N) -> N,
    sources: Seq<(N, u32)>,
    marked_before: Set<N>,
    visited: Seq<(N, u32)>,
    marked: Set<N>,
    queue: Seq<(N, u32)>,
    done: int,
) -> bool {
    &&& is_search(graph, onward, sources, marked_before, visited, marked)
    &&& forall|i: int|
        0 <= i < queue.len() ==> justified(
            graph,
            onward,
            sources,
            visited,
            visited.len() as int,
            #[trigger] queue[i],
        ) && graph.universe.contains(queue[i].0)
    &&& forall|k: int| 0 <= k < visited.len() ==> graph.universe.contains((#[trigger] visited[k]).0)
    &&& forall|i: int|
        0 <= i < sources.len() ==> pending(marked, queue, (#[trigger] sources[i]).0)
    &&& forall|k: int, i: int|
        0 <= k < visited.len() - 1 && 0 <= i < successors(graph, onward, visited[k].0).len()
            ==> pending(marked, queue, #[trigger] successors(graph, onward, visited[k].0)[i])
    &&& visited.len() > 0 ==> forall|i: int|
        0 <= i < done && i < successors(graph, onward, visited.last().0).len() ==> pending(
            marked,
            queue,
            #[trigger] successors(graph, onward, visited.last().0)[i],
        )
}

/// What is pending stays so when the first of the queue is taken and
/// marked.
pub(crate) proof fn lemma_pending_after_pop<N>(marked: Set<N>, queue: Seq<(N, u32)>, node: N)
    requires
        queue.len() > 0,
        pending(marked, queue, node),
    ensures
        pending(marked.insert(queue[0].0), queue.skip(1), node),
{
    if !marked.contains(node) {
        let j = choose|j: int| 0 <= j < queue.len() && (#[trigger] queue[j]).0 == node;
        if j > 0 {
            assert(queue.skip(1)[j - 1] == queue[j]);
        }
    }
}

/// What is pending stays so when an entry is queued, and the node of that
/// entry is pending.
pub(crate) proof fn lemma_pending_after_push<N>(marked: Set<N>, queue: Seq<(N, u32)>, entry: (N, u32), node: N)
    requires
        pending(marked, queue, node) || node == entry.0,
    ensures
        pending(marked, queue.push(entry), node),
{
    if node == entry.0 {
        assert(queue.push(entry)[queue.len() as int] == entry);
    } else if !marked.contains(node) {
        let j = choose|j: int| 0 <= j < queue.len() && (#[trigger] queue[j]).0 == node;
        assert(queue.push(entry)[j] == queue[j]);
    }
}

/// What is justified stays so after one more visit.
pub(crate) proof fn lemma_justified_later<N>(
    graph: Graph<N>,
    onward: spec_fn(N) -> N,
    sources: Seq<(N, u32)>,
    visited: Seq<(N, u32)>,
    upto: int,
    entry: (N, u32),
    visit: (N, u32),
)
    requires
        justified(graph, onward, sources, visited, upto, entry),
        upto <= visited.len(),
    ensures
        justified(graph, onward, sources, visited.push(visit), upto, entry),
        justified(graph, onward, sources, visited.push(visit), upto + 1, entry),
{
    if !sources.contains(entry) {
        let j = choose|j: int|
            0 <= j < upto && j < visited.len() && is_child(
                graph,
                onward,
                #[trigger] visited[j],
                entry,
            );
        assert(visited.push(visit)[j] == visited[j]);
    }
}

/// At the start of a search the sources wait in the queue and nothing is
/// visited.
pub(crate) proof fn lemma_progress_start<N>(
    graph: Graph<N>,
    onward: spec_fn(N) -> N,
    sources: Seq<(N, u32)>,
    marked: Set<N>,
)
    requires
        forall|i: int| 0 <= i < sources.len() ==> graph.universe.contains((#[trigger] sources[i]).0),
    ensures
        progress(graph, onward, sources, marked, Seq::<(N, u32)>::empty(), marked, sources, 0),
{
    let visited = Seq::<(N, u32)>::empty();
    assert forall|n: N| marked.contains(n) <==> marked.contains(n) || visited_nodes(
        visited,
    ).contains(n) by {}
    assert forall|i: int| 0 <= i < sources.len() implies justified(
        graph,
        onward,
        sources,
        visited,
        0,
        #[trigger] sources[i],
    ) by {}
}

/// A node that is taken from the queue and was marked before changes
/// nothing but the queue.
pub(crate) proof fn lemma_progress_skip<N>(
    graph: Graph<N>,
    onward: spec_fn(N) -> N,
    sources: Seq<(N, u32)>,
    marked_before: Set<N>,
    visited: Seq<(N, u32)>,
    marked: Set<N>,
    queue: Seq<(N, u32)>,
    done: int,
)
    requires
        progress(graph, onward, sources, marked_before, visited, marked, queue, done),
        queue.len() > 0,
        marked.contains(queue[0].0),
    ensures
        progress(graph, onward, sources, marked_before, visited, marked, queue.skip(1), done),
{
    let rest = queue.skip(1);
    assert(marked.insert(queue[0].0) =~= marked);
    assert forall|i: int| 0 <= i < rest.len() implies justified(
        graph,
        onward,
        sources,
        visited,
        visited.len() as int,
        #[trigger] rest[i],
    ) && graph.universe.contains(rest[i].0) by {
        assert(rest[i] == queue[i + 1]);
    }
    assert forall|i: int| 0 <= i < sources.len() implies pending(
        marked,
        rest,
        (#[trigger] sources[i]).0,
    ) by {
        lemma_pending_after_pop(marked, queue, sources[i].0);
    }
    assert forall|k: int, i: int|
        0 <= k < visited.len() - 1 && 0 <= i < successors(
            graph,
            onward,
            visited[k].0,
        ).len() implies pending(
        marked,
        rest,
        #[trigger] successors(graph, onward, visited[k].0)[i],
    ) by {
        lemma_pending_after_pop(marked, queue, successors(graph, onward, visited[k].0)[i]);
    }
    if visited.len() > 0 {
        assert forall|i: int|
            0 <= i < done && i < successors(
                graph,
                onward,
                visited.last().0,
            ).len() implies pending(
            marked,
            rest,
            #[trigger] successors(graph, onward, visited.last().0)[i],
        ) by {
            lemma_pending_after_pop(marked, queue, successors(graph, onward, visited.last().0)[i]);
        }
    }
}

/// A node that is taken from the queue and was not marked before is marked
/// and visited; none of its neighbours is dealt with yet.
pub(crate) proof fn lemma_progress_visit<N>(
    graph: Graph<N>,
    onward: spec_fn(N) -> N,
    sources: Seq<(N, u32)>,
    marked_before: Set<N>,
    visited: Seq<(N, u32)>,
    marked: Set<N>,
    queue: Seq<(N, u32)>,
    done: int,
)
    requires
        progress(graph, onward, sources, marked_before, visited, marked, queue, done),
        queue.len() > 0,
        !marked.contains(queue[0].0),
        visited.len() > 0 ==> done >= successors(graph, onward, visited.last().0).len(),
    ensures
        progress(
            graph,
            onward,
            sources,
            marked_before,
            visited.push(queue[0]),
            marked.insert(queue[0].0),
            queue.skip(1),
            0,
        ),
{
    let entry = queue[0];
    let rest = queue.skip(1);
    let visited2 = visited.push(entry);
    let marked2 = marked.insert(entry.0);
    let last = visited.len() as int;
    assert(visited2[last] == entry);
    assert forall|k: int| 0 <= k < visited.len() implies #[trigger] visited2[k] == visited[k] by {}
    assert forall|k: int| 0 <= k < visited.len() implies marked.contains(
        (#[trigger] visited[k]).0,
    ) by {
        assert(visited_nodes(visited).contains(visited[k].0));
    }
    assert forall|n: N|
        marked2.contains(n) <==> marked_before.contains(n) || visited_nodes(visited2).contains(
            n,
        ) by {
        if visited_nodes(visited2).contains(n) {
            let k = choose|k: int| 0 <= k < visited2.len() && (#[trigger] visited2[k]).0 == n;
            if k < last {
                assert(visited[k].0 == n);
                assert(visited_nodes(visited).contains(n));
            }
        }
        if visited_nodes(visited).contains(n) {
            let k = choose|k: int| 0 <= k < visited.len() && (#[trigger] visited[k]).0 == n;
            assert(visited2[k].0 == n);
        }
        if n == entry.0 {
            assert(visited2[last].0 == n);
        }
    }
    assert forall|i: int, j: int| 0 <= i < j < visited2.len() implies (#[trigger] visited2[i]).0 != (
    #[trigger] visited2[j]).0 by {
        if j == last {
            assert(marked.contains(visited[i].0));
        } else {
            assert(visited[i].0 != visited[j].0);
        }
    }
    assert forall|k: int| 0 <= k < visited2.len() implies !marked_before.contains(
        (#[trigger] visited2[k]).0,
    ) by {
        if k < last {
            assert(!marked_before.contains(visited[k].0));
        }
    }
    assert forall|k: int| 0 <= k < visited2.len() implies justified(
        graph,
        onward,
        sources,
        visited2,
        k,
        #[trigger] visited2[k],
    ) by {
        if k < last {
            lemma_justified_later(graph, onward, sources, visited, k, visited[k], entry);
        } else {
            lemma_justified_later(graph, onward, sources, visited, last, entry, entry);
        }
    }
    assert forall|i: int| 0 <= i < rest.len() implies justified(
        graph,
        onward,
        sources,
        visited2,
        visited2.len() as int,
        #[trigger] rest[i],
    ) && graph.universe.contains(rest[i].0) by {
        assert(rest[i] == queue[i + 1]);
        lemma_justified_later(graph, onward, sources, visited, last, queue[i + 1], entry);
    }
    assert forall|k: int| 0 <= k < visited2.len() implies graph.universe.contains(
        (#[trigger] visited2[k]).0,
    ) by {
        if k < last {
            assert(graph.universe.contains(visited[k].0));
        }
    }
    assert forall|i: int| 0 <= i < sources.len() implies pending(
        marked2,
        rest,
        (#[trigger] sources[i]).0,
    ) by {
        lemma_pending_after_pop(marked, queue, sources[i].0);
    }
    assert forall|k: int, i: int|
        0 <= k < visited2.len() - 1 && 0 <= i < successors(
            graph,
            onward,
            visited2[k].0,
        ).len() implies pending(
        marked2,
        rest,
        #[trigger] successors(graph, onward, visited2[k].0)[i],
    ) by {
        assert(visited2[k] == visited[k]);
        let node = successors(graph, onward, visited[k].0)[i];
        if k < visited.len() - 1 {
            assert(pending(marked, queue, node));
        } else {
            assert(visited[k] == visited.last());
            assert(pending(marked, queue, successors(graph, onward, visited.last().0)[i]));
        }
        lemma_pending_after_pop(marked, queue, node);
    }
    assert(visited2.last() == entry);
}

/// One more neighbour of the last visit is dealt with: it was marked, or it
/// has just been queued one step further away.
pub(crate) proof fn lemma_progress_neighbor<N>(
    graph: Graph<N>,
    onward: spec_fn(N) -> N,
    sources: Seq<(N, u32)>,
    marked_before: Set<N>,
    visited: Seq<(N, u32)>,
    marked: Set<N>,
    queue: Seq<(N, u32)>,
    done: int,
    queued: bool,
)
    requires
        graph.closed(),
        graph.universe.contains(onward(visited.last().0)),
        progress(graph, onward, sources, marked_before, visited, marked, queue, done),
        visited.len() > 0,
        0 <= done < successors(graph, onward, visited.last().0).len(),
        !queued ==> marked.contains(successors(graph, onward, visited.last().0)[done]),
    ensures
        progress(
            graph,
            onward,
            sources,
            marked_before,
            visited,
            marked,
            if queued {
                queue.push(
                    (
                        successors(graph, onward, visited.last().0)[done],
                        next_distance(visited.last().1),
                    ),
                )
            } else {
                queue
            },
            done + 1,
        ),
{
    let node = successors(graph, onward, visited.last().0)[done];
    let entry = (node, next_distance(visited.last().1));
    if queued {
        let longer = queue.push(entry);
        assert(graph.universe.contains(node)) by {
            assert(node == (graph.next)(onward(visited.last().0))[done]);
        }
        assert(justified(graph, onward, sources, visited, visited.len() as int, entry)) by {
            let j = visited.len() - 1;
            assert(visited[j] == visited.last());
            assert(is_child(graph, onward, visited[j], entry));
        }
        assert forall|i: int| 0 <= i < longer.len() implies justified(
            graph,
            onward,
            sources,
            visited,
            visited.len() as int,
            #[trigger] longer[i],
        ) && graph.universe.contains(longer[i].0) by {
            if i < queue.len() {
                assert(longer[i] == queue[i]);
            }
        }
        assert forall|i: int| 0 <= i < sources.len() implies pending(
            marked,
            longer,
            (#[trigger] sources[i]).0,
        ) by {
            lemma_pending_after_push(marked, queue, entry, sources[i].0);
        }
        assert forall|k: int, i: int|
            0 <= k < visited.len() - 1 && 0 <= i < successors(
                graph,
                onward,
                visited[k].0,
            ).len() implies pending(
            marked,
            longer,
            #[trigger] successors(graph, onward, visited[k].0)[i],
        ) by {
            lemma_pending_after_push(
                marked,
                queue,
                entry,
                successors(graph, onward, visited[k].0)[i],
            );
        }
        assert forall|i: int|
            0 <= i < done + 1 && i < successors(
                graph,
                onward,
                visited.last().0,
            ).len() implies pending(
            marked,
            longer,
            #[trigger] successors(graph, onward, visited.last().0)[i],
        ) by {
            lemma_pending_after_push(
                marked,
                queue,
                entry,
                successors(graph, onward, visited.last().0)[i],
            );
        }
    }
}

/// Once the queue is empty and the last visit dealt with, nothing is left
/// out.
pub(crate) proof fn lemma_progress_end<N>(
    graph: Graph<N>,
    onward: spec_fn(N) -> N,
    sources: Seq<(N, u32)>,
    marked_before: Set<N>,
    visited: Seq<(N, u32)>,
    marked: Set<N>,
    done: int,
)
    requires
        progress(
            graph,
            onward,
            sources,
            marked_before,
            visited,
            marked,
            Seq::<(N, u32)>::empty(),
            done,
        ),
        visited.len() > 0 ==> done >= successors(graph, onward, visited.last().0).len(),
    ensures
        is_complete(graph, onward, sources, visited, marked),
{
    let queue = Seq::<(N, u32)>::empty();
    assert forall|i: int| 0 <= i < sources.len() implies marked.contains(
        (#[trigger] sources[i]).0,
    ) by {
        assert(pending(marked, queue, sources[i].0));
    }
    assert forall|k: int, i: int|
        0 <= k < visited.len() && 0 <= i < successors(
            graph,
            onward,
            visited[k].0,
        ).len() implies marked.contains(
        #[trigger] successors(graph, onward, visited[k].0)[i],
    ) by {
        if k < visited.len() - 1 {
            assert(pending(marked, queue, successors(graph, onward, visited[k].0)[i]));
        } else {
            assert(visited[k] == visited.last());
            assert(pending(marked, queue, successors(graph, onward, visited.last().0)[i]));
        }
    }
}

/// The state of a search under way whose queue was a level at the start:
/// what `progress` says of marks, this says of distances.
pub open spec fn level_progress<N>(
    graph: Graph<N>,
    onward: spec_fn(N) -> N,
    sources: Seq<(N, u32)>,
    marked_before: Set<N>,
    visited: Seq<(N, u32)>,
    queue: Seq<(N, u32)>,
    done: int,
) -> bool {
    &&& is_ordered(queue)
    &&& is_ordered(visited)
    &&& forall|k: int, j: int|
        0 <= k < visited.len() && 0 <= j < queue.len() ==> (#[trigger] visited[k]).1 <= (
        #[trigger] queue[j]).1
    &&& visited.len() > 0 ==> forall|j: int|
        0 <= j < queue.len() ==> (#[trigger] queue[j]).1 <= next_distance(visited.last().1)
    &&& visited.len() == 0 && queue.len() > 0 ==> sources.len() > 0
    &&& visited.len() == 0 && sources.len() > 0 ==> forall|j: int|
        0 <= j < queue.len() ==> sources[0].1 <= (#[trigger] queue[j]).1 <= next_distance(
            sources[0].1,
        )
    &&& forall|i: int|
        0 <= i < sources.len() ==> near(
            marked_before,
            visited,
            queue,
            (#[trigger] sources[i]).0,
            sources[i].1,
        )
    &&& forall|k: int, i: int|
        0 <= k < visited.len() - 1 && 0 <= i < successors(graph, onward, visited[k].0).len()
            ==> near(
            marked_before,
            visited,
            queue,
            #[trigger] successors(graph, onward, visited[k].0)[i],
            next_distance(visited[k].1),
        )
    &&& visited.len() > 0 ==> forall|i: int|
        0 <= i < done && i < successors(graph, onward, visited.last().0).len() ==> near(
            marked_before,
            visited,
            queue,
            #[trigger] successors(graph, onward, visited.last().0)[i],
            next_distance(visited.last().1),
        )
}

/// What is near stays near when the first of the queue is taken, be it
/// visited now or visited or marked before.
pub(crate) proof fn lemma_near_after_pop<N>(
    marked_before: Set<N>,
    visited: Seq<(N, u32)>,
    queue: Seq<(N, u32)>,
    fresh: bool,
    node: N,
    limit: u32,
)
    requires
        queue.len() > 0,
        near(marked_before, visited, queue, node, limit),
        forall|k: int, j: int|
            0 <= k < visited.len() && 0 <= j < queue.len() ==> (#[trigger] visited[k]).1 <= (
            #[trigger] queue[j]).1,
        !fresh ==> marked_before.contains(queue[0].0) || visited_nodes(visited).contains(
            queue[0].0,
        ),
    ensures
        near(
            marked_before,
            if fresh {
                visited.push(queue[0])
            } else {
                visited
            },
            queue.skip(1),
            node,
            limit,
        ),
{
    let after = if fresh {
        visited.push(queue[0])
    } else {
        visited
    };
    let rest = queue.skip(1);
    if !marked_before.contains(node) {
        if exists|k: int|
            0 <= k < visited.len() && (#[trigger] visited[k]).0 == node && visited[k].1 <= limit {
            let k = choose|k: int|
                0 <= k < visited.len() && (#[trigger] visited[k]).0 == node && visited[k].1
                    <= limit;
            assert(after[k] == visited[k]);
        } else {
            let j = choose|j: int|
                0 <= j < queue.len() && (#[trigger] queue[j]).0 == node && queue[j].1 <= limit;
            if j > 0 {
                assert(rest[j - 1] == queue[j]);
            } else if fresh {
                assert(after[visited.len() as int] == queue[0]);
            } else {
                let k = choose|k: int| 0 <= k < visited.len() && (#[trigger] visited[k]).0 == node;
                assert(visited[k].1 <= queue[0].1);
            }
        }
    }
}

/// What is near stays near when an entry is put at the back of the queue,
/// and the node of that entry is near within its distance.
pub(crate) proof fn lemma_near_after_push<N>(
    marked_before: Set<N>,
    visited: Seq<(N, u32)>,
    queue: Seq<(N, u32)>,
    entry: (N, u32),
    node: N,
    limit: u32,
)
    requires
        near(marked_before, visited, queue, node, limit) || (node == entry.0 && entry.1 <= limit),
    ensures
        near(marked_before, visited, queue.push(entry), node, limit),
{
    let longer = queue.push(entry);
    if node == entry.0 && entry.1 <= limit {
        assert(longer[queue.len() as int] == entry);
    } else if !marked_before.contains(node) {
        if !(exists|k: int|
            0 <= k < visited.len() && (#[trigger] visited[k]).0 == node && visited[k].1 <= limit) {
            let j = choose|j: int|
                0 <= j < queue.len() && (#[trigger] queue[j]).0 == node && queue[j].1 <= limit;
            assert(longer[j] == queue[j]);
        }
    }
}

/// At the start of a search from a level the queue is that level.
pub(crate) proof fn lemma_level_start<N>(
    graph: Graph<N>,
    onward: spec_fn(N) -> N,
    sources: Seq<(N, u32)>,
    marked_before: Set<N>,
)
    requires
        is_level(sources),
    ensures
        level_progress(
            graph,
            onward,
            sources,
            marked_before,
            Seq::<(N, u32)>::empty(),
            sources,
            0,
        ),
{
    assert forall|j: int| 0 <= j < sources.len() implies sources[0].1 <= (#[trigger] sources[j]).1
        <= next_distance(sources[0].1) by {}
}

/// The distances stay in order when the first of the queue is taken, be
/// it visited or dropped.
pub(crate) proof fn lemma_level_pop<N>(
    graph: Graph<N>,
    onward: spec_fn(N) -> N,
    sources: Seq<(N, u32)>,
    marked_before: Set<N>,
    visited: Seq<(N, u32)>,
    queue: Seq<(N, u32)>,
    done: int,
    fresh: bool,
)
    requires
        level_progress(graph, onward, sources, marked_before, visited, queue, done),
        queue.len() > 0,
        !fresh ==> marked_before.contains(queue[0].0) || visited_nodes(visited).contains(
            queue[0].0,
        ),
        fresh && visited.len() > 0 ==> done >= successors(graph, onward, visited.last().0).len(),
    ensures
        level_progress(
            graph,
            onward,
            sources,
            marked_before,
            if fresh {
                visited.push(queue[0])
            } else {
                visited
            },
            queue.skip(1),
            if fresh {
                0
            } else {
                done
            },
        ),
{
    let entry = queue[0];
    let rest = queue.skip(1);
    let after = if fresh {
        visited.push(entry)
    } else {
        visited
    };
    let last = visited.len() as int;
    assert forall|j: int| 0 <= j < rest.len() implies #[trigger] rest[j] == queue[j + 1] by {}
    assert forall|k: int| 0 <= k < visited.len() implies #[trigger] after[k] == visited[k] by {}
    if fresh {
        assert(after[last] == entry);
        assert(after.last() == entry);
    }
    assert(is_ordered(rest)) by {
        assert forall|i: int, j: int| 0 <= i <= j < rest.len() implies (#[trigger] rest[i]).1 <= (
        #[trigger] rest[j]).1 by {
            assert(queue[i + 1].1 <= queue[j + 1].1);
        }
    }
    assert(is_ordered(after)) by {
        assert forall|i: int, j: int| 0 <= i <= j < after.len() implies (#[trigger] after[i]).1
            <= (#[trigger] after[j]).1 by {
            if j == last && i < last {
                assert(visited[i].1 <= queue[0].1);
            } else if j < last {
                assert(visited[i].1 <= visited[j].1);
            }
        }
    }
    assert forall|k: int, j: int| 0 <= k < after.len() && 0 <= j < rest.len() implies (
    #[trigger] after[k]).1 <= (#[trigger] rest[j]).1 by {
        if k < last {
            assert(visited[k].1 <= queue[j + 1].1);
        } else {
            assert(queue[0].1 <= queue[j + 1].1);
        }
    }
    if after.len() > 0 {
        assert forall|j: int| 0 <= j < rest.len() implies (#[trigger] rest[j]).1 <= next_distance(
            after.last().1,
        ) by {
            if fresh {
                if visited.len() > 0 {
                    assert(queue[j + 1].1 <= next_distance(visited.last().1));
                    assert(visited[last - 1].1 <= queue[0].1);
                } else {
                    assert(sources[0].1 <= queue[0].1);
                    assert(queue[j + 1].1 <= next_distance(sources[0].1));
                }
            } else {
                assert(queue[j + 1].1 <= next_distance(visited.last().1));
            }
        }
    } else if sources.len() > 0 {
        assert forall|j: int| 0 <= j < rest.len() implies sources[0].1 <= (#[trigger] rest[j]).1
            <= next_distance(sources[0].1) by {
            assert(sources[0].1 <= queue[j + 1].1 <= next_distance(sources[0].1));
        }
    }
    assert forall|i: int| 0 <= i < sources.len() implies near(
        marked_before,
        after,
        rest,
        (#[trigger] sources[i]).0,
        sources[i].1,
    ) by {
        lemma_near_after_pop(marked_before, visited, queue, fresh, sources[i].0, sources[i].1);
    }
    assert forall|k: int, i: int|
        0 <= k < after.len() - 1 && 0 <= i < successors(
            graph,
            onward,
            after[k].0,
        ).len() implies near(
        marked_before,
        after,
        rest,
        #[trigger] successors(graph, onward, after[k].0)[i],
        next_distance(after[k].1),
    ) by {
        assert(after[k] == visited[k]);
        let node = successors(graph, onward, visited[k].0)[i];
        if k < visited.len() - 1 {
            assert(near(marked_before, visited, queue, node, next_distance(visited[k].1)));
        } else {
            assert(visited[k] == visited.last());
            assert(near(
                marked_before,
                visited,
                queue,
                successors(graph, onward, visited.last().0)[i],
                next_distance(visited.last().1),
            ));
        }
        lemma_near_after_pop(
            marked_before,
            visited,
            queue,
            fresh,
            node,
            next_distance(visited[k].1),
        );
    }
    if !fresh && visited.len() > 0 {
        assert forall|i: int|
            0 <= i < done && i < successors(
                graph,
                onward,
                visited.last().0,
            ).len() implies near(
            marked_before,
            after,
            rest,
            #[trigger] successors(graph, onward, visited.last().0)[i],
            next_distance(visited.last().1),
        ) by {
            lemma_near_after_pop(
                marked_before,
                visited,
                queue,
                fresh,
                successors(graph, onward, visited.last().0)[i],
                next_distance(visited.last().1),
            );
        }
    }
}

/// The distances stay in order when one more neighbour of the last visit
/// is dealt with.
pub(crate) proof fn lemma_level_neighbor<N>(
    graph: Graph<N>,
    onward: spec_fn(N) -> N,
    sources: Seq<(N, u32)>,
    marked_before: Set<N>,
    visited: Seq<(N, u32)>,
    queue: Seq<(N, u32)>,
    done: int,
    queued: bool,
)
    requires
        level_progress(graph, onward, sources, marked_before, visited, queue, done),
        visited.len() > 0,
        0 <= done < successors(graph, onward, visited.last().0).len(),
        !queued ==> marked_before.contains(successors(graph, onward, visited.last().0)[done])
            || visited_nodes(visited).contains(
            successors(graph, onward, visited.last().0)[done],
        ),
    ensures
        level_progress(
            graph,
            onward,
            sources,
            marked_before,
            visited,
            if queued {
                queue.push(
                    (
                        successors(graph, onward, visited.last().0)[done],
                        next_distance(visited.last().1),
                    ),
                )
            } else {
                queue
            },
            done + 1,
        ),
{
    let node = successors(graph, onward, visited.last().0)[done];
    let limit = next_distance(visited.last().1);
    let entry = (node, limit);
    let last = visited.len() - 1;
    assert(visited[last] == visited.last());
    if queued {
        let longer = queue.push(entry);
        assert forall|j: int| 0 <= j < queue.len() implies #[trigger] longer[j] == queue[j] by {}
        assert(longer[queue.len() as int] == entry);
        assert(is_ordered(longer)) by {
            assert forall|i: int, j: int| 0 <= i <= j < longer.len() implies (
            #[trigger] longer[i]).1 <= (#[trigger] longer[j]).1 by {
                if j < queue.len() {
                    assert(queue[i].1 <= queue[j].1);
                } else if i < queue.len() {
                    assert(queue[i].1 <= limit);
                }
            }
        }
        assert forall|k: int, j: int| 0 <= k < visited.len() && 0 <= j < longer.len() implies (
        #[trigger] visited[k]).1 <= (#[trigger] longer[j]).1 by {
            if j < queue.len() {
                assert(visited[k].1 <= queue[j].1);
            } else {
                assert(visited[k].1 <= visited[last].1);
            }
        }
        assert forall|j: int| 0 <= j < longer.len() implies (#[trigger] longer[j]).1 <= limit by {
            if j < queue.len() {
                assert(queue[j].1 <= limit);
            }
        }
        assert forall|i: int| 0 <= i < sources.len() implies near(
            marked_before,
            visited,
            longer,
            (#[trigger] sources[i]).0,
            sources[i].1,
        ) by {
            lemma_near_after_push(
                marked_before,
                visited,
                queue,
                entry,
                sources[i].0,
                sources[i].1,
            );
        }
        assert forall|k: int, i: int|
            0 <= k < visited.len() - 1 && 0 <= i < successors(
                graph,
                onward,
                visited[k].0,
            ).len() implies near(
            marked_before,
            visited,
            longer,
            #[trigger] successors(graph, onward, visited[k].0)[i],
            next_distance(visited[k].1),
        ) by {
            lemma_near_after_push(
                marked_before,
                visited,
                queue,
                entry,
                successors(graph, onward, visited[k].0)[i],
                next_distance(visited[k].1),
            );
        }
        assert forall|i: int|
            0 <= i < done + 1 && i < successors(
                graph,
                onward,
                visited.last().0,
            ).len() implies near(
            marked_before,
            visited,
            longer,
            #[trigger] successors(graph, onward, visited.last().0)[i],
            limit,
        ) by {
            lemma_near_after_push(
                marked_before,
                visited,
                queue,
                entry,
                successors(graph, onward, visited.last().0)[i],
                limit,
            );
        }
    } else if !marked_before.contains(node) {
        let k = choose|k: int| 0 <= k < visited.len() && (#[trigger] visited[k]).0 == node;
        assert(visited[k].1 <= visited[last].1);
        assert(near(marked_before, visited, queue, node, limit));
    }
}

/// Once the queue is empty and the last visit dealt with, the search has
/// taken the nearest first.
pub(crate) proof fn lemma_level_end<N>(
    graph: Graph<N>,
    onward: spec_fn(N) -> N,
    sources: Seq<(N, u32)>,
    marked_before: Set<N>,
    visited: Seq<(N, u32)>,
    done: int,
)
    requires
        level_progress(
            graph,
            onward,
            sources,
            marked_before,
            visited,
            Seq::<(N, u32)>::empty(),
            done,
        ),
        visited.len() > 0 ==> done >= successors(graph, onward, visited.last().0).len(),
    ensures
        is_nearest_first(graph, onward, sources, marked_before, visited),
{
    let queue = Seq::<(N, u32)>::empty();
    assert forall|k: int, i: int|
        0 <= k < visited.len() && 0 <= i < successors(
            graph,
            onward,
            visited[k].0,
        ).len() implies near(
        marked_before,
        visited,
        queue,
        #[trigger] successors(graph, onward, visited[k].0)[i],
        next_distance(visited[k].1),
    ) by {
        if k == visited.len() - 1 {
            assert(visited[k] == visited.last());
            assert(near(
                marked_before,
                visited,
                queue,
                successors(graph, onward, visited.last().0)[i],
                next_distance(visited.last().1),
            ));
        }
    }
}

/// Marking a node of the universe that was not marked leaves fewer nodes
/// to mark.
pub proof fn lemma_fewer_unmarked<N>(universe: Set<N>, marked: Set<N>, node: N)
    requires
        universe.finite(),
        universe.contains(node),
        !marked.contains(node),
    ensures
        universe.difference(marked.insert(node)).len() < universe.difference(marked).len(),
{
    let before = universe.difference(marked);
    assert(universe.difference(marked.insert(node)) =~= before.remove(node));
    assert(before.contains(node));
}

/// What a search queues after a visit to a node of the universe are nodes
/// of the universe.
pub(crate) proof fn lemma_queued_in_universe<N>(
    graph: Graph<N>,
    next: Seq<N>,
    marked: Set<N>,
    dist: u32,
)
    requires
        forall|i: int| 0 <= i < next.len() ==> graph.universe.contains(#[trigger] next[i]),
    ensures
        forall|i: int|
            0 <= i < queued(next, marked, dist).len() ==> graph.universe.contains(
                (#[trigger] queued(next, marked, dist)[i]).0,
            ),
    decreases next.len(),
{
    if next.len() > 0 {
        let before = next.drop_last();
        assert forall|i: int| 0 <= i < before.len() implies graph.universe.contains(
            #[trigger] before[i],
        ) by {
            assert(before[i] == next[i]);
        }
        lemma_queued_in_universe(graph, before, marked, dist);
        assert(graph.universe.contains(next[next.len() - 1]));
        let all = queued(next, marked, dist);
        let most = queued(before, marked, dist);
        assert forall|i: int| 0 <= i < all.len() implies graph.universe.contains(
            (#[trigger] all[i]).0,
        ) by {
            if i < most.len() {
                assert(all[i] == most[i]);
            } else {
                assert(all[i].0 == next.last());
            }
        }
    }
}

/// A search that can be made from a queue can be made from the rest of the
/// queue together with what the visit to its first node queues.
pub(crate) proof fn lemma_searchable_after_visit<N>(
    graph: Graph<N>,
    onward: spec_fn(N) -> N,
    queue: Seq<(N, u32)>,
    marked: Set<N>,
)
    requires
        is_searchable(graph, onward, queue),
        queue.len() > 0,
    ensures
        is_searchable(graph, onward, queue.skip(1)),
        is_searchable(
            graph,
            onward,
            queue.skip(1) + queued(successors(graph, onward, queue[0].0), marked, queue[0].1),
        ),
{
    let rest = queue.skip(1);
    let next = successors(graph, onward, queue[0].0);
    let more = queued(next, marked, queue[0].1);
    assert forall|i: int| 0 <= i < rest.len() implies graph.universe.contains(
        (#[trigger] rest[i]).0,
    ) by {
        assert(rest[i] == queue[i + 1]);
    }
    assert(graph.universe.contains(onward(queue[0].0)));
    assert forall|i: int| 0 <= i < next.len() implies graph.universe.contains(
        #[trigger] next[i],
    ) by {
        assert(next[i] == (graph.next)(onward(queue[0].0))[i]);
    }
    lemma_queued_in_universe(graph, next, marked, queue[0].1);
    assert forall|i: int| 0 <= i < (rest + more).len() implies graph.universe.contains(
        (#[trigger] (rest + more)[i]).0,
    ) by {
        if i < rest.len() {
            assert((rest + more)[i] == rest[i]);
        } else {
            assert((rest + more)[i] == more[i - rest.len()]);
        }
    }
}

/// The order of a search whose queue begins with a marked node is the
/// order of the search without that node.
pub(crate) proof fn lemma_order_skip<N>(
    graph: Graph<N>,
    onward: spec_fn(N) -> N,
    queue: Seq<(N, u32)>,
    marked: Set<N>,
)
    requires
        is_searchable(graph, onward, queue),
        queue.len() > 0,
        marked.contains(queue[0].0),
    ensures
        search_order(graph, onward, queue, marked) == search_order(
            graph,
            onward,
            queue.skip(1),
            marked,
        ),
{
    lemma_searchable_after_visit(graph, onward, queue, marked);
}

/// The order of a search whose queue begins with an unmarked node begins
/// with the visit of that node, and goes on as the search does once the node
/// is marked and its unmarked neighbours are queued.
pub(crate) proof fn lemma_order_visit<N>(
    graph: Graph<N>,
    onward: spec_fn(N) -> N,
    queue: Seq<(N, u32)>,
    marked: Set<N>,
    visited: Seq<(N, u32)>,
)
    requires
        is_searchable(graph, onward, queue),
        queue.len() > 0,
        !marked.contains(queue[0].0),
    ensures
        visited + search_order(graph, onward, queue, marked) == visited.push(queue[0])
            + search_order(
            graph,
            onward,
            queue.skip(1) + queued(
                successors(graph, onward, queue[0].0),
                marked.insert(queue[0].0),
                queue[0].1,
            ),
            marked.insert(queue[0].0),
        ),
{
    let entry = queue[0];
    let marked_then = marked.insert(entry.0);
    lemma_searchable_after_visit(graph, onward, queue, marked_then);
    let tail = search_order(
        graph,
        onward,
        queue.skip(1) + queued(successors(graph, onward, entry.0), marked_then, entry.1),
        marked_then,
    );
    assert(search_order(graph, onward, queue, marked) == seq![entry] + tail);
    assert(visited + (seq![entry] + tail) =~= visited.push(entry) + tail);
}

/// One more neighbour is dealt with: it is queued behind the others if it
/// is not marked.
pub(crate) proof fn lemma_queued_one_more<N>(next: Seq<N>, marked: Set<N>, dist: u32, done: int)
    requires
        0 <= done < next.len(),
    ensures
        queued(next.take(done + 1), marked, dist) == (if marked.contains(next[done]) {
            queued(next.take(done), marked, dist)
        } else {
            queued(next.take(done), marked, dist).push((next[done], next_distance(dist)))
        }),
{
    let longer = next.take(done + 1);
    assert(longer.drop_last() =~= next.take(done));
    assert(longer.last() == next[done]);
}

/// Where nothing is left in the queue, nothing is left to visit.
pub(crate) proof fn lemma_order_end<N>(
    graph: Graph<N>,
    onward: spec_fn(N) -> N,
    marked: Set<N>,
    visited: Seq<(N, u32)>,
)
    requires
        is_searchable(graph, onward, Seq::<(N, u32)>::empty()),
    ensures
        visited + search_order(graph, onward, Seq::<(N, u32)>::empty(), marked) == visited,
{
    assert(visited + Seq::<(N, u32)>::empty() =~= visited);
}

/// What has been visited so far is the beginning of all that is visited.
pub(crate) proof fn lemma_order_begins<N>(visited: Seq<(N, u32)>, tail: Seq<(N, u32)>)
    ensures
        visited.is_prefix_of(visited + tail),
{
    assert((visited + tail).subrange(0, visited.len() as int) =~= visited);
}

} // verus!
