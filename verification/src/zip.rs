//! The search for a shortcut: where the next pixel cannot be reached by
//! walking along the boundary, the closest pair of an edge that the cart can
//! walk to and an edge at the pixel.

use std::collections::VecDeque;
use std::ops::ControlFlow;
use vstd::prelude::*;
use crate::boundary::{
    at_distance_zero,
    boundary_graph,
    edge_code,
    lemma_boundary_graph_wf,
    lemma_edge_code,
    lemma_edge_code_injective,
    lemma_reachable_is_walkable,
    lemma_visited_is_walkable,
    lemma_walk_stays_on_the_ground,
    lemma_walkable_from_one,
    same_edge,
    walk_reaches,
    walkable_from,
    walkable_from_any,
    BoundaryGraph,
};
use crate::cart::{cart_distance_squared, distance_squared, ZipPath};
use crate::edge_set::EdgeSet;
use crate::graph::reach::{lemma_search_is_sound, reaches_in};
use crate::graph::{bfs, visited_nodes, NodeSet, Visitor};
use crate::grid::Grid;
use crate::ground::{filled_at, is_filled, spec_filled_at};
use crate::side::{Edge, Side};
use crate::vector::UVec2;

verus! {

/// How a pair of a start `s` and an end `e` is ranked: by the square of the
/// distance between the places of a cart on the two edges, then by the number
/// of the start, then by the number of the end.
pub open spec fn pair_rank(start: Edge, end: Edge) -> (int, int, int) {
    (
        distance_squared(start.cart_world_pos(), end.cart_world_pos()),
        edge_code(start),
        edge_code(end),
    )
}

/// `a` is ranked before `b` or is `b`.
pub open spec fn rank_le(a: (int, int, int), b: (int, int, int)) -> bool {
    a.0 < b.0 || (a.0 == b.0 && (a.1 < b.1 || (a.1 == b.1 && a.2 <= b.2)))
}

/// `path` joins an edge of `from` to an edge of `to`, and no other such pair
/// is ranked before it: none is closer, and among the closest it has the
/// least numbers.
pub open spec fn is_nearest_pair(from: Set<Edge>, to: Set<Edge>, path: ZipPath) -> bool {
    &&& from.contains(path.start)
    &&& to.contains(path.end)
    &&& forall|start: Edge, end: Edge|
        from.contains(start) && to.contains(end) ==> rank_le(
            pair_rank(path.start, path.end),
            #[trigger] pair_rank(start, end),
        )
}

/// The nearest pair between two sets of edges, where there is one.
pub open spec fn nearest_pair(from: Set<Edge>, to: Set<Edge>) -> ZipPath {
    choose|path: ZipPath| is_nearest_pair(from, to, path)
}

/// Two sets of edges have at most one nearest pair.
pub proof fn lemma_nearest_pair_unique(from: Set<Edge>, to: Set<Edge>, a: ZipPath, b: ZipPath)
    requires
        is_nearest_pair(from, to, a),
        is_nearest_pair(from, to, b),
    ensures
        a == b,
        nearest_pair(from, to) == a,
{
    assert(rank_le(pair_rank(a.start, a.end), pair_rank(b.start, b.end)));
    assert(rank_le(pair_rank(b.start, b.end), pair_rank(a.start, a.end)));
    lemma_edge_code_injective(a.start, b.start);
    lemma_edge_code_injective(a.end, b.end);
    let chosen = nearest_pair(from, to);
    assert(is_nearest_pair(from, to, chosen));
    assert(rank_le(pair_rank(a.start, a.end), pair_rank(chosen.start, chosen.end)));
    assert(rank_le(pair_rank(chosen.start, chosen.end), pair_rank(a.start, a.end)));
    lemma_edge_code_injective(a.start, chosen.start);
    lemma_edge_code_injective(a.end, chosen.end);
}

/// The number of an edge.
fn edge_number(edge: Edge) -> (n: u128)
    ensures
        n == edge_code(edge),
{
    proof {
        lemma_edge_code(edge);
    }
    let side: u128 = match edge.side {
        Side::Top => 0,
        Side::Right => 1,
        Side::Bottom => 2,
        Side::Left => 3,
    };
    (edge.pos.x as u128 * 0x1_0000_0000 + edge.pos.y as u128) * 4 + side
}

/// The visitor of the search for the nearest pair: of all pairs of a visited
/// edge and one of `ends` it keeps the one that is ranked first.
pub struct Nearest<'a> {
    ends: &'a Vec<Edge>,
    best: Option<ZipPath>,
    best_dist_sq: u128,
    log: Ghost<Seq<(Edge, u32)>>,
}

/// `start` is the edge of one of the first `visits` entries of `log`, or,
/// where `tried` is more than 0, of the entry after them.
pub open spec fn is_seen(log: Seq<(Edge, u32)>, visits: int, tried: int, start: Edge) -> bool {
    exists|k: int|
        0 <= k < log.len() && (k < visits || (k == visits && tried > 0)) && (#[trigger] log[k]).0
            == start
}

/// `path` is ranked first among the pairs of one of the first `visits`
/// entries of `log` with any of `ends`, and of the entry after them with one
/// of the first `tried` of `ends`.
pub open spec fn is_best_so_far(
    log: Seq<(Edge, u32)>,
    visits: int,
    ends: Seq<Edge>,
    tried: int,
    path: ZipPath,
) -> bool {
    &&& is_seen(log, visits, tried, path.start)
    &&& ends.contains(path.end)
    &&& forall|k: int, j: int|
        0 <= k < log.len() && 0 <= j < ends.len() && (k < visits || (k == visits && j < tried))
            ==> rank_le(
            pair_rank(path.start, path.end),
            #[trigger] pair_rank(log[k].0, ends[j]),
        )
}

/// The pair that is ranked first among all visits and all ends is the
/// nearest pair between the visited edges and the ends.
pub proof fn lemma_best_is_nearest(
    log: Seq<(Edge, u32)>,
    ends: Seq<Edge>,
    path: ZipPath,
    from: Set<Edge>,
)
    requires
        is_best_so_far(log, log.len() as int, ends, 0, path),
        forall|edge: Edge| from.contains(edge) <==> visited_nodes(log).contains(edge),
    ensures
        is_nearest_pair(from, ends.to_set(), path),
        nearest_pair(from, ends.to_set()) == path,
{
    let k = choose|k: int|
        0 <= k < log.len() && (k < log.len() as int || (k == log.len() as int && 0 > 0int)) && (
        #[trigger] log[k]).0 == path.start;
    assert(visited_nodes(log).contains(path.start));
    assert forall|start: Edge, end: Edge|
        from.contains(start) && ends.to_set().contains(end) implies rank_le(
        pair_rank(path.start, path.end),
        #[trigger] pair_rank(start, end),
    ) by {
        assert(visited_nodes(log).contains(start));
        let k = choose|k: int| 0 <= k < log.len() && (#[trigger] log[k]).0 == start;
        let j = choose|j: int| 0 <= j < ends.len() && ends[j] == end;
        assert(rank_le(pair_rank(path.start, path.end), pair_rank(log[k].0, ends[j])));
    }
    lemma_nearest_pair_unique(from, ends.to_set(), path, path);
}

/// A pair that is ranked first stays so after one more visit, as long as
/// none of the ends has been tried with the new edge.
proof fn lemma_best_after_visit(
    log: Seq<(Edge, u32)>,
    visit: (Edge, u32),
    ends: Seq<Edge>,
    path: ZipPath,
)
    requires
        is_best_so_far(log, log.len() as int, ends, 0, path),
    ensures
        is_best_so_far(log.push(visit), log.len() as int, ends, 0, path),
{
    let longer = log.push(visit);
    let visits = log.len() as int;
    let k = choose|k: int|
        0 <= k < log.len() && (k < visits || (k == visits && 0 > 0int)) && (#[trigger] log[k]).0
            == path.start;
    assert(longer[k] == log[k]);
    assert forall|k: int, j: int|
        0 <= k < longer.len() && 0 <= j < ends.len() && (k < visits || (k == visits && j
            < 0)) implies rank_le(
        pair_rank(path.start, path.end),
        #[trigger] pair_rank(longer[k].0, ends[j]),
    ) by {
        assert(longer[k] == log[k]);
    }
}

/// After one more of the ends has been tried with the last visit, the
/// better of the pair held so far and the new pair is ranked first.
proof fn lemma_best_after_try(
    log: Seq<(Edge, u32)>,
    ends: Seq<Edge>,
    tried: int,
    held: Option<ZipPath>,
    kept: ZipPath,
)
    requires
        log.len() > 0,
        0 <= tried < ends.len(),
        held matches Some(path) ==> is_best_so_far(log, log.len() - 1, ends, tried, path),
        held is None ==> (log.len() == 1 && tried == 0),
        ({
            let new = ZipPath { start: log.last().0, end: ends[tried] };
            match held {
                Some(path) => (kept == path || kept == new) && rank_le(
                    pair_rank(kept.start, kept.end),
                    pair_rank(path.start, path.end),
                ) && rank_le(pair_rank(kept.start, kept.end), pair_rank(new.start, new.end)),
                None => kept == new,
            }
        }),
    ensures
        is_best_so_far(log, log.len() - 1, ends, tried + 1, kept),
{
    let visits = log.len() - 1;
    let new = ZipPath { start: log.last().0, end: ends[tried] };
    assert(log[visits] == log.last());
    if kept == new {
        assert(log[visits].0 == kept.start);
        assert(ends[tried] == kept.end);
    } else {
        let path = held->0;
        let k = choose|k: int|
            0 <= k < log.len() && (k < visits || (k == visits && tried > 0)) && (#[trigger] log[k]).0
                == path.start;
        assert(log[k].0 == kept.start);
    }
    assert forall|k: int, j: int|
        0 <= k < log.len() && 0 <= j < ends.len() && (k < visits || (k == visits && j < tried
            + 1)) implies rank_le(
        pair_rank(kept.start, kept.end),
        #[trigger] pair_rank(log[k].0, ends[j]),
    ) by {
        if k == visits && j == tried {
        } else {
            let path = held->0;
            assert(rank_le(pair_rank(path.start, path.end), pair_rank(log[k].0, ends[j])));
        }
    }
}

/// Once all ends have been tried with the last visit, the pair that is
/// ranked first is so among all visits.
proof fn lemma_best_after_all(log: Seq<(Edge, u32)>, ends: Seq<Edge>, path: ZipPath)
    requires
        log.len() > 0,
        ends.len() > 0,
        is_best_so_far(log, log.len() - 1, ends, ends.len() as int, path),
    ensures
        is_best_so_far(log, log.len() as int, ends, 0, path),
{
    let visits = log.len() - 1;
    let k = choose|k: int|
        0 <= k < log.len() && (k < visits || (k == visits && ends.len() as int > 0)) && (
        #[trigger] log[k]).0 == path.start;
    assert(log[k].0 == path.start);
    assert forall|k: int, j: int|
        0 <= k < log.len() && 0 <= j < ends.len() && (k < visits + 1 || (k == visits + 1 && j
            < 0)) implies rank_le(
        pair_rank(path.start, path.end),
        #[trigger] pair_rank(log[k].0, ends[j]),
    ) by {}
}

impl<'a> Nearest<'a> {
    /// A visitor that has seen nothing yet and tries each visited edge with
    /// each of `ends`.
    pub fn new(ends: &'a Vec<Edge>) -> (visitor: Self)
        ensures
            visitor.inv(),
            visitor.log() == Seq::<(Edge, u32)>::empty(),
            visitor.stopped() is None,
            visitor.given() == ends@,
    {
        Nearest { ends, best: None, best_dist_sq: 0, log: Ghost(Seq::empty()) }
    }

    /// The pair that is ranked first so far.
    pub closed spec fn spec_best(&self) -> Option<ZipPath> {
        self.best
    }

    /// The pair that is ranked first so far: none before the first visit or
    /// without ends.
    #[verifier::when_used_as_spec(spec_best)]
    pub fn best(&self) -> (path: Option<ZipPath>)
        requires
            self.inv(),
        ensures
            path == self.spec_best(),
            match path {
                Some(path) => is_best_so_far(
                    self.log(),
                    self.log().len() as int,
                    self.given(),
                    0,
                    path,
                ),
                None => self.log().len() == 0 || self.given().len() == 0,
            },
    {
        self.best
    }
}

impl<'a> Visitor<Edge, ()> for Nearest<'a> {
    type Given = Seq<Edge>;

    closed spec fn given(&self) -> Seq<Edge> {
        self.ends@
    }

    closed spec fn log(&self) -> Seq<(Edge, u32)> {
        self.log@
    }

    open spec fn onward(&self) -> spec_fn(Edge) -> Edge {
        same_edge()
    }

    open spec fn stopped(&self) -> Option<()> {
        None
    }

    closed spec fn inv(&self) -> bool {
        match self.best {
            Some(path) => {
                &&& is_best_so_far(self.log@, self.log@.len() as int, self.ends@, 0, path)
                &&& self.best_dist_sq == pair_rank(path.start, path.end).0
            },
            None => self.log@.len() == 0 || self.ends@.len() == 0,
        }
    }

    fn visit(&mut self, node: Edge, dist: u32) -> (flow: ControlFlow<(), Edge>) {
        let ghost before = self.log@;
        proof {
            self.log@ = before.push((node, dist));
            if let Some(path) = self.best {
                lemma_best_after_visit(before, (node, dist), self.ends@, path);
            }
        }
        let number = edge_number(node);
        let mut j: usize = 0;
        while j < self.ends.len()
            invariant
                0 <= j <= self.ends@.len(),
                self.ends == old(self).ends,
                self.log@ == before.push((node, dist)),
                number == edge_code(node),
                match self.best {
                    Some(path) => {
                        &&& is_best_so_far(self.log@, before.len() as int, self.ends@, j as int, path)
                        &&& self.best_dist_sq == pair_rank(path.start, path.end).0
                    },
                    None => before.len() == 0 && j == 0 || self.ends@.len() == 0,
                },
            decreases self.ends@.len() - j,
        {
            let end = self.ends[j];
            let dist_sq = cart_distance_squared(node, end);
            let better = match self.best {
                None => true,
                Some(path) => {
                    dist_sq < self.best_dist_sq || (dist_sq == self.best_dist_sq && {
                        let held = edge_number(path.start);
                        number < held || (number == held && edge_number(end) < edge_number(
                            path.end,
                        ))
                    })
                },
            };
            proof {
                let new = ZipPath { start: node, end };
                let kept = if better {
                    new
                } else {
                    self.best->0
                };
                assert(self.log@.last() == (node, dist));
                lemma_best_after_try(self.log@, self.ends@, j as int, self.best, kept);
            }
            if better {
                self.best = Some(ZipPath { start: node, end });
                self.best_dist_sq = dist_sq;
            }
            j += 1;
        }
        proof {
            if let Some(path) = self.best {
                lemma_best_after_all(self.log@, self.ends@, path);
            }
        }
        ControlFlow::Continue(node)
    }
}

/// The visitor of the search for a way by foot: it keeps the visited edges
/// in the order of their visits and stops at `target`.
pub struct Connect {
    target: Edge,
    found: bool,
    reached: Vec<Edge>,
    log: Ghost<Seq<(Edge, u32)>>,
}

impl Connect {
    /// A visitor that has seen nothing yet and stops at `target`.
    pub fn new(target: Edge) -> (visitor: Self)
        ensures
            visitor.inv(),
            visitor.log() == Seq::<(Edge, u32)>::empty(),
            visitor.stopped() is None,
            visitor.given() == target,
    {
        Connect { target, found: false, reached: Vec::new(), log: Ghost(Seq::empty()) }
    }

    /// The visited edges in the order of their visits.
    pub fn into_reached(self) -> (reached: Vec<Edge>)
        requires
            self.inv(),
        ensures
            reached@.len() == self.log().len(),
            forall|k: int| 0 <= k < reached@.len() ==> #[trigger] reached@[k] == self.log()[k].0,
            self.stopped() is None ==> forall|k: int|
                0 <= k < self.log().len() ==> (#[trigger] self.log()[k]).0 != self.given(),
            self.stopped() is Some ==> self.log().len() > 0 && self.log().last().0
                == self.given(),
    {
        self.reached
    }
}

impl Visitor<Edge, ()> for Connect {
    type Given = Edge;

    closed spec fn given(&self) -> Edge {
        self.target
    }

    closed spec fn log(&self) -> Seq<(Edge, u32)> {
        self.log@
    }

    open spec fn onward(&self) -> spec_fn(Edge) -> Edge {
        same_edge()
    }

    closed spec fn stopped(&self) -> Option<()> {
        if self.found {
            Some(())
        } else {
            None
        }
    }

    closed spec fn inv(&self) -> bool {
        &&& self.reached@.len() == self.log@.len()
        &&& forall|k: int|
            0 <= k < self.reached@.len() ==> #[trigger] self.reached@[k] == self.log@[k].0
        &&& self.found ==> self.log@.len() > 0 && self.log@.last().0 == self.target
        &&& !self.found ==> forall|k: int|
            0 <= k < self.log@.len() ==> (#[trigger] self.log@[k]).0 != self.target
    }

    fn visit(&mut self, node: Edge, dist: u32) -> (flow: ControlFlow<(), Edge>) {
        proof {
            self.log@ = self.log@.push((node, dist));
        }
        self.reached.push(node);
        if node == self.target {
            self.found = true;
            ControlFlow::Break(())
        } else {
            ControlFlow::Continue(node)
        }
    }
}

/// The edge of the filled neighbour beyond `side` of `target` that looks at
/// `target`, if that neighbour is filled.
pub open spec fn spec_facing_edge(ground: &Grid<bool>, target: UVec2, side: Side) -> Option<Edge> {
    match spec_filled_at(ground, target, side.art_direction()) {
        Some(cell) => Some(Edge { pos: cell, side: side.flip() }),
        None => None,
    }
}

pub open spec fn listed(edge: Option<Edge>) -> Seq<Edge> {
    match edge {
        Some(edge) => seq![edge],
        None => Seq::empty(),
    }
}

/// The edges from which a pixel at `target` can be drawn without a shortcut:
/// those edges of its filled neighbours above, below, to the left and to the
/// right, in this order, that look at `target`.
pub open spec fn spec_destination_edges(ground: &Grid<bool>, target: UVec2) -> Seq<Edge> {
    listed(spec_facing_edge(ground, target, Side::Top)) + listed(
        spec_facing_edge(ground, target, Side::Bottom),
    ) + listed(spec_facing_edge(ground, target, Side::Left)) + listed(
        spec_facing_edge(ground, target, Side::Right),
    )
}

/// The four edges of the cell `target`, from the top side around to the
/// left side.
pub open spec fn spec_own_edges(target: UVec2) -> Seq<Edge> {
    seq![
        Edge { pos: target, side: Side::Top },
        Edge { pos: target, side: Side::Right },
        Edge { pos: target, side: Side::Bottom },
        Edge { pos: target, side: Side::Left },
    ]
}

#[verifier::when_used_as_spec(spec_facing_edge)]
pub fn facing_edge(ground: &Grid<bool>, target: UVec2, side: Side) -> (edge: Option<Edge>)
    ensures
        edge == spec_facing_edge(ground, target, side),
{
    match filled_at(ground, target, side.art_direction()) {
        Some(cell) => Some(Edge { pos: cell, side: side.flip() }),
        None => None,
    }
}

/// The edges from which a pixel at `target` can be drawn without a
/// shortcut.
pub fn destination_edges(ground: &Grid<bool>, target: UVec2) -> (edges: Vec<Edge>)
    ensures
        edges@ == spec_destination_edges(ground, target),
{
    let mut edges: Vec<Edge> = Vec::with_capacity(4);
    if let Some(edge) = facing_edge(ground, target, Side::Top) {
        edges.push(edge);
    }
    assert(edges@ =~= listed(spec_facing_edge(ground, target, Side::Top)));
    let ghost one = edges@;
    if let Some(edge) = facing_edge(ground, target, Side::Bottom) {
        edges.push(edge);
    }
    assert(edges@ =~= one + listed(spec_facing_edge(ground, target, Side::Bottom)));
    let ghost two = edges@;
    if let Some(edge) = facing_edge(ground, target, Side::Left) {
        edges.push(edge);
    }
    assert(edges@ =~= two + listed(spec_facing_edge(ground, target, Side::Left)));
    let ghost three = edges@;
    if let Some(edge) = facing_edge(ground, target, Side::Right) {
        edges.push(edge);
    }
    assert(edges@ =~= three + listed(spec_facing_edge(ground, target, Side::Right)));
    edges
}

/// The four edges of the cell `target`.
pub fn own_edges(target: UVec2) -> (edges: Vec<Edge>)
    ensures
        edges@ == spec_own_edges(target),
{
    let mut edges: Vec<Edge> = Vec::with_capacity(4);
    edges.push(Edge { pos: target, side: Side::Top });
    edges.push(Edge { pos: target, side: Side::Right });
    edges.push(Edge { pos: target, side: Side::Bottom });
    edges.push(Edge { pos: target, side: Side::Left });
    assert(edges@ =~= spec_own_edges(target));
    edges
}

/// The nearest pair of an edge that can be walked to from `current` and one
/// of `ends`, unless its start is its end.
pub open spec fn spec_search(ground: &Grid<bool>, current: Edge, ends: Set<Edge>) -> Option<ZipPath> {
    let path = nearest_pair(walkable_from(ground, current), ends);
    if path.start == path.end {
        None
    } else {
        Some(path)
    }
}

/// The shortcut toward the pixel at `target` for a cart on `current`.
///
/// There is none where the cart can walk to an edge from which the pixel can
/// be drawn. Otherwise it is the nearest pair of an edge that the cart can
/// walk to and an edge that is joined by walking to one from which the pixel
/// can be drawn; where no neighbour of the pixel is filled, the four edges of
/// the pixel itself take the place of those. There is none either where that
/// pair is one edge twice.
pub open spec fn spec_find_zip_path(ground: &Grid<bool>, current: Edge, target: UVec2) -> Option<
    ZipPath,
> {
    let near = spec_destination_edges(ground, target);
    if near.len() == 0 {
        spec_search(ground, current, spec_own_edges(target).to_set())
    } else if walkable_from_any(ground, near).contains(current) {
        None
    } else {
        spec_search(ground, current, walkable_from_any(ground, near))
    }
}

/// A queue that holds each of `edges` at distance 0.
fn queue_of(edges: &Vec<Edge>) -> (queue: VecDeque<(Edge, u32)>)
    ensures
        queue@ == at_distance_zero(edges@),
{
    let mut queue: VecDeque<(Edge, u32)> = VecDeque::with_capacity(8);
    let mut i: usize = 0;
    while i < edges.len()
        invariant
            i <= edges@.len(),
            queue@ == at_distance_zero(edges@.take(i as int)),
        decreases edges@.len() - i,
    {
        queue.push_back((edges[i], 0));
        assert(queue@ =~= at_distance_zero(edges@.take(i + 1)));
        i += 1;
    }
    assert(edges@.take(edges@.len() as int) =~= edges@);
    queue
}

/// Searches from `current` along the boundary for the pair of a visited edge
/// and one of `ends` that is ranked first.
pub fn search(ground: &Grid<bool>, current: Edge, ends: &Vec<Edge>) -> (path: Option<ZipPath>)
    requires
        ends@.len() > 0,
    ensures
        path == spec_search(ground, current, ends@.to_set()),
        is_nearest_pair(
            walkable_from(ground, current),
            ends@.to_set(),
            nearest_pair(walkable_from(ground, current), ends@.to_set()),
        ),
{
    let mut starts: Vec<Edge> = Vec::with_capacity(1);
    starts.push(current);
    let mut queue = queue_of(&starts);
    let mut marked = EdgeSet::new();
    let mut nearest = Nearest::new(ends);
    let mut graph = BoundaryGraph { ground };
    proof {
        lemma_boundary_graph_wf(ground);
    }
    let stopped = bfs(&mut queue, &mut marked, &mut nearest, &mut graph);
    let best = nearest.best();
    proof {
        let visited = nearest.log();
        assert(nearest.log().skip(0) =~= visited);
        assert(starts@ =~= seq![current]);
        lemma_visited_is_walkable(ground, starts@, visited, marked.marked());
        lemma_walkable_from_one(ground, current);
        assert(visited.len() > 0) by {
            assert(visited_nodes(visited).contains(current));
        }
        lemma_best_is_nearest(visited, ends@, best->0, walkable_from(ground, current));
    }
    match best {
        Some(path) => if path.start == path.end {
            None
        } else {
            Some(path)
        },
        None => None,
    }
}

/// The edges in a list of visits are, as a set, the visited nodes.
proof fn lemma_reached_is_visited(reached: Seq<Edge>, visited: Seq<(Edge, u32)>)
    requires
        reached.len() == visited.len(),
        forall|k: int| 0 <= k < reached.len() ==> #[trigger] reached[k] == visited[k].0,
    ensures
        reached.to_set() == visited_nodes(visited),
{
    assert forall|edge: Edge| reached.to_set().contains(edge) <==> visited_nodes(visited).contains(
        edge,
    ) by {
        if reached.to_set().contains(edge) {
            let k = choose|k: int| 0 <= k < reached.len() && reached[k] == edge;
            assert(visited[k].0 == edge);
        }
        if visited_nodes(visited).contains(edge) {
            let k = choose|k: int| 0 <= k < visited.len() && (#[trigger] visited[k]).0 == edge;
            assert(reached[k] == edge);
        }
    }
    assert(reached.to_set() =~= visited_nodes(visited));
}

/// The edges from which a pixel can be drawn are edges of filled cells.
pub proof fn lemma_destinations_are_filled(ground: &Grid<bool>, target: UVec2, i: int)
    requires
        0 <= i < spec_destination_edges(ground, target).len(),
    ensures
        is_filled(ground, spec_destination_edges(ground, target)[i].pos),
{
    let top = listed(spec_facing_edge(ground, target, Side::Top));
    let bottom = listed(spec_facing_edge(ground, target, Side::Bottom));
    let left = listed(spec_facing_edge(ground, target, Side::Left));
    let right = listed(spec_facing_edge(ground, target, Side::Right));
    assert(spec_destination_edges(ground, target) == top + bottom + left + right);
}

/// Looks for the shortcut toward the pixel at `target` for a cart that stands
/// on `current`.
///
/// A pixel that is empty and has no filled neighbour always gets a shortcut,
/// unless the cart stands on its cell.
pub fn find_zip_path(ground: &Grid<bool>, current: Edge, target: UVec2) -> (path: Option<ZipPath>)
    ensures
        path == spec_find_zip_path(ground, current, target),
        path matches Some(found) ==> {
            &&& found.start != found.end
            &&& walk_reaches(ground, current, found.start)
            &&& !walkable_from_any(ground, spec_destination_edges(ground, target)).contains(current)
        },
        spec_destination_edges(ground, target).len() == 0 && !is_filled(ground, target)
            && current.pos != target ==> path is Some,
        path matches Some(found) ==> is_filled(ground, found.end.pos) || found.end.pos == target,
{
    let near = destination_edges(ground, target);
    if near.len() == 0 {
        let ends = own_edges(target);
        let path = search(ground, current, &ends);
        proof {
            assert(!walkable_from_any(ground, near@).contains(current));
            let nearest = nearest_pair(walkable_from(ground, current), ends@.to_set());
            if !is_filled(ground, target) && current.pos != target {
                let steps = choose|steps: nat|
                    reaches_in(boundary_graph(ground), same_edge(), current, nearest.start, steps);
                lemma_walk_stays_on_the_ground(ground, current, nearest.start, steps);
                let i = choose|i: int| 0 <= i < ends@.len() && ends@[i] == nearest.end;
                assert(nearest.end.pos == target);
            }
            if path is Some {
                let i = choose|i: int| 0 <= i < ends@.len() && ends@[i] == nearest.end;
                assert(nearest.end.pos == target);
            }
        }
        path
    } else {
        let mut queue = queue_of(&near);
        let mut marked = EdgeSet::new();
        let mut connect = Connect::new(current);
        let mut graph = BoundaryGraph { ground };
        proof {
            lemma_boundary_graph_wf(ground);
        }
        let found = bfs(&mut queue, &mut marked, &mut connect, &mut graph);
        let ghost visited = connect.log();
        let ghost sources = at_distance_zero(near@);
        proof {
            assert(connect.log().skip(0) =~= visited);
            lemma_reachable_is_walkable(ground, near@, current);
        }
        let reached = connect.into_reached();
        if found.is_some() {
            proof {
                lemma_search_is_sound(
                    boundary_graph(ground),
                    same_edge(),
                    sources,
                    Set::<Edge>::empty(),
                    visited,
                    marked.marked(),
                    visited.len() - 1,
                );
            }
            None
        } else {
            proof {
                lemma_visited_is_walkable(ground, near@, visited, marked.marked());
                lemma_reached_is_visited(reached@, visited);
                assert(!visited_nodes(visited).contains(current));
                assert(reached@.to_set() =~= walkable_from_any(ground, near@));
                assert(reached@.len() > 0) by {
                    assert(sources[0].0 == near@[0]);
                    assert(marked.marked().contains(sources[0].0));
                    assert(visited_nodes(visited).contains(near@[0]));
                }
            }
            let path = search(ground, current, &reached);
            proof {
                if path is Some {
                    let end = nearest_pair(walkable_from(ground, current), reached@.to_set()).end;
                    assert(walkable_from_any(ground, near@).contains(end));
                    let i = choose|i: int|
                        0 <= i < near@.len() && walk_reaches(ground, #[trigger] near@[i], end);
                    let steps = choose|steps: nat|
                        reaches_in(boundary_graph(ground), same_edge(), near@[i], end, steps);
                    lemma_walk_stays_on_the_ground(ground, near@[i], end, steps);
                    lemma_destinations_are_filled(ground, target, i);
                }
            }
            path
        }
    }
}

/// The search is decided by the snapshot alone: two searches on the same
/// ground, from the same edge and toward the same pixel, give the same
/// shortcut or both give none.
pub proof fn lemma_zip_path_is_determined(
    ground: &Grid<bool>,
    current: Edge,
    target: UVec2,
    first: Option<ZipPath>,
    second: Option<ZipPath>,
)
    requires
        first == spec_find_zip_path(ground, current, target),
        second == spec_find_zip_path(ground, current, target),
    ensures
        first == second,
{
}

} // verus!
