//! The boundary of the filled region as a graph: its nodes are the edges,
//! and each edge is joined to the two edges that follow it for somebody who
//! walks along the boundary, to the left and to the right.

use vstd::prelude::*;
use vstd::set_lib::{lemma_int_range, lemma_len_subset, lemma_set_subset_finite, set_int_range};
use crate::graph::reach::{lemma_search_distances, lemma_search_marks_the_reachable, lemma_visited_nodes_count, reachable, reaches, reaches_in};
use crate::graph::{is_complete, is_search, successors, visited_nodes, Graph, NeighborsFn};
use crate::grid::Grid;
use crate::ground::{
    edge_neighbors,
    is_filled,
    spec_diagonal,
    spec_edge_neighbors,
    spec_ground_set,
    spec_traversable,
};
use crate::side::{Edge, LeftRight, Side};
use crate::vector::UVec2;

verus! {

/// Every edge of every cell.
pub open spec fn all_edges() -> Set<Edge> {
    Set::new(|edge: Edge| true)
}

/// A number for each edge, different for different edges.
pub open spec fn edge_code(edge: Edge) -> int {
    (edge.pos.x * 0x1_0000_0000 + edge.pos.y) * 4 + edge.side.index()
}

/// The edge with a given number.
pub open spec fn edge_of_code(code: int) -> Edge {
    Edge {
        pos: UVec2 {
            x: (code / 4 / 0x1_0000_0000) as u32,
            y: (code / 4 % 0x1_0000_0000) as u32,
        },
        side: Side::at(code % 4),
    }
}

/// The number of an edge is below four times the number of cells that
/// there can be, and leads back to the edge.
pub proof fn lemma_edge_code(edge: Edge)
    ensures
        0 <= edge_code(edge) < 0x4_0000_0000_0000_0000,
        edge_of_code(edge_code(edge)) == edge,
{
    let x = edge.pos.x as int;
    let y = edge.pos.y as int;
    let s = edge.side.index();
    let cell = x * 0x1_0000_0000 + y;
    let code = cell * 4 + s;
    assert(code / 4 == cell && code % 4 == s) by (nonlinear_arith)
        requires
            code == cell * 4 + s,
            0 <= s < 4,
    ;
    assert(cell / 0x1_0000_0000 == x && cell % 0x1_0000_0000 == y) by (nonlinear_arith)
        requires
            cell == x * 0x1_0000_0000 + y,
            0 <= y < 0x1_0000_0000,
    ;
    assert(0 <= cell < 0x1_0000_0000_0000_0000) by (nonlinear_arith)
        requires
            cell == x * 0x1_0000_0000 + y,
            0 <= x < 0x1_0000_0000,
            0 <= y < 0x1_0000_0000,
    ;
}

/// Edges with the same number are the same edge.
pub proof fn lemma_edge_code_injective(a: Edge, b: Edge)
    requires
        edge_code(a) == edge_code(b),
    ensures
        a == b,
{
    lemma_edge_code(a);
    lemma_edge_code(b);
}

/// There are finitely many edges.
pub proof fn lemma_all_edges_finite()
    ensures
        all_edges().finite(),
{
    let codes = set_int_range(0, 0x4_0000_0000_0000_0000);
    lemma_int_range(0, 0x4_0000_0000_0000_0000);
    let decode = |code: int| edge_of_code(code);
    codes.lemma_map_finite(decode);
    assert forall|edge: Edge| all_edges().contains(edge) implies codes.map(decode).contains(
        edge,
    ) by {
        lemma_edge_code(edge);
        assert(codes.contains(edge_code(edge)));
        assert(decode(edge_code(edge)) == edge);
    }
    assert(all_edges().subset_of(codes.map(decode)));
    lemma_set_subset_finite(codes.map(decode), all_edges());
}

/// The graph that the search walks: its nodes are the edges, and the
/// neighbours of an edge are the edges that follow it on the boundary to the
/// left and to the right.
pub open spec fn boundary_graph(ground: &Grid<bool>) -> Graph<Edge> {
    Graph { universe: all_edges(), next: |edge: Edge| spec_edge_neighbors(ground, edge) }
}

/// The graph of the boundary is one that can be searched: its edges are
/// finitely many.
pub proof fn lemma_boundary_graph_wf(ground: &Grid<bool>)
    ensures
        boundary_graph(ground).wf(),
{
    lemma_all_edges_finite();
}

/// The search follows the neighbours of the very edge it has visited.
pub open spec fn same_edge() -> spec_fn(Edge) -> Edge {
    |edge: Edge| edge
}

/// Whether somebody who walks along the boundary from `from`, at each edge
/// to the left or to the right, can come to `to`.
pub open spec fn walk_reaches(ground: &Grid<bool>, from: Edge, to: Edge) -> bool {
    reaches(boundary_graph(ground), same_edge(), from, to)
}

/// The neighbours of the edges on a snapshot of the ground.
pub struct BoundaryGraph<'a> {
    pub ground: &'a Grid<bool>,
}

impl<'a> NeighborsFn<Edge> for BoundaryGraph<'a> {
    open spec fn graph(&self) -> Graph<Edge> {
        boundary_graph(self.ground)
    }

    fn get(&mut self, node: Edge) -> (next: Vec<Edge>) {
        let both = edge_neighbors(self.ground, node);
        let mut next: Vec<Edge> = Vec::with_capacity(2);
        next.push(both[0]);
        next.push(both[1]);
        assert(next@ =~= spec_edge_neighbors(self.ground, node));
        next
    }
}

/// The edges that can be walked to from `current`.
pub open spec fn walkable_from(ground: &Grid<bool>, current: Edge) -> Set<Edge> {
    Set::new(|edge: Edge| walk_reaches(ground, current, edge))
}

/// The edges that can be walked to from one of `starts`.
pub open spec fn walkable_from_any(ground: &Grid<bool>, starts: Seq<Edge>) -> Set<Edge> {
    Set::new(
        |edge: Edge|
            exists|i: int| 0 <= i < starts.len() && walk_reaches(ground, #[trigger] starts[i], edge),
    )
}

/// The entries of a queue that holds each of `edges` at distance 0.
pub open spec fn at_distance_zero(edges: Seq<Edge>) -> Seq<(Edge, u32)> {
    Seq::new(edges.len(), |i: int| (edges[i], 0u32))
}

/// A node is reached from the sources that hold `edges` at distance 0 where
/// it can be walked to from one of `edges`.
pub proof fn lemma_reachable_is_walkable(ground: &Grid<bool>, edges: Seq<Edge>, node: Edge)
    ensures
        reachable(boundary_graph(ground), same_edge(), at_distance_zero(edges), node)
            <==> walkable_from_any(ground, edges).contains(node),
{
    let sources = at_distance_zero(edges);
    if reachable(boundary_graph(ground), same_edge(), sources, node) {
        let i = choose|i: int|
            0 <= i < sources.len() && reaches(
                boundary_graph(ground),
                same_edge(),
                (#[trigger] sources[i]).0,
                node,
            );
        assert(walk_reaches(ground, edges[i], node));
    }
    if walkable_from_any(ground, edges).contains(node) {
        let i = choose|i: int|
            0 <= i < edges.len() && walk_reaches(ground, #[trigger] edges[i], node);
        assert(sources[i].0 == edges[i]);
    }
}

/// A finished search on the boundary from `starts`, with nothing marked
/// before, has visited exactly the edges that can be walked to from them.
pub proof fn lemma_visited_is_walkable(
    ground: &Grid<bool>,
    starts: Seq<Edge>,
    visited: Seq<(Edge, u32)>,
    marked: Set<Edge>,
)
    requires
        is_search(
            boundary_graph(ground),
            same_edge(),
            at_distance_zero(starts),
            Set::<Edge>::empty(),
            visited,
            marked,
        ),
        is_complete(boundary_graph(ground), same_edge(), at_distance_zero(starts), visited, marked),
    ensures
        forall|edge: Edge|
            visited_nodes(visited).contains(edge) <==> walkable_from_any(ground, starts).contains(
                edge,
            ),
{
    lemma_search_marks_the_reachable(
        boundary_graph(ground),
        same_edge(),
        at_distance_zero(starts),
        visited,
        marked,
    );
    assert forall|edge: Edge|
        visited_nodes(visited).contains(edge) <==> walkable_from_any(ground, starts).contains(
            edge,
        ) by {
        lemma_reachable_is_walkable(ground, starts, edge);
    }
}

/// What can be walked to from the one edge of a list is what can be walked to
/// from that edge, and the edge itself is among it.
pub proof fn lemma_walkable_from_one(ground: &Grid<bool>, current: Edge)
    ensures
        walkable_from_any(ground, seq![current]) == walkable_from(ground, current),
        walkable_from(ground, current).contains(current),
{
    let starts = seq![current];
    assert forall|edge: Edge|
        walkable_from_any(ground, starts).contains(edge) <==> walkable_from(
            ground,
            current,
        ).contains(edge) by {
        if walkable_from_any(ground, starts).contains(edge) {
            let i = choose|i: int|
                0 <= i < starts.len() && walk_reaches(ground, #[trigger] starts[i], edge);
            assert(starts[i] == current);
        }
        if walkable_from(ground, current).contains(edge) {
            assert(walk_reaches(ground, starts[0], edge));
        }
    }
    assert(walkable_from_any(ground, starts) =~= walkable_from(ground, current));
    assert(reaches_in(boundary_graph(ground), same_edge(), current, current, 0));
}

/// The edge that follows another in the search is the one that follows it
/// on the boundary to the left or to the right.
pub proof fn lemma_neighbor_is_left_or_right(ground: &Grid<bool>, edge: Edge, next: Edge)
    requires
        successors(boundary_graph(ground), same_edge(), edge).contains(next),
    ensures
        next == spec_traversable(ground, edge, LeftRight::Left) || next == spec_traversable(
            ground,
            edge,
            LeftRight::Right,
        ),
{
    let both = spec_edge_neighbors(ground, edge);
    let i = choose|i: int| 0 <= i < both.len() && both[i] == next;
    assert(both[0] == spec_traversable(ground, edge, LeftRight::Left));
    assert(both[1] == spec_traversable(ground, edge, LeftRight::Right));
}

/// Somebody who walks along the boundary comes only to edges of filled
/// cells and of the cell where the walk began.
pub proof fn lemma_walk_stays_on_the_ground(ground: &Grid<bool>, from: Edge, to: Edge, steps: nat)
    requires
        reaches_in(boundary_graph(ground), same_edge(), from, to, steps),
    ensures
        to.pos == from.pos || is_filled(ground, to.pos),
    decreases steps,
{
    if steps > 0 {
        let mid = choose|mid: Edge|
            reaches_in(boundary_graph(ground), same_edge(), from, mid, (steps - 1) as nat)
                && #[trigger] successors(boundary_graph(ground), same_edge(), mid).contains(to);
        lemma_walk_stays_on_the_ground(ground, from, mid, (steps - 1) as nat);
        lemma_neighbor_is_left_or_right(ground, mid, to);
    }
}

/// An edge of the boundary of the filled region: its cell is filled and the
/// cell that it looks at is not.
pub open spec fn is_boundary_edge(ground: &Grid<bool>, edge: Edge) -> bool {
    is_filled(ground, edge.pos) && !spec_ground_set(ground, edge.pos, edge.side.art_direction())
}

/// The boundary of the filled region.
pub open spec fn boundary_edges(ground: &Grid<bool>) -> Set<Edge> {
    Set::new(|edge: Edge| is_boundary_edge(ground, edge))
}

/// The length of the boundary of the filled region, in edges.
pub open spec fn boundary_length(ground: &Grid<bool>) -> nat {
    boundary_edges(ground).len()
}

/// Somebody who walks along the boundary stays on the boundary.
pub proof fn lemma_walk_stays_on_the_boundary(ground: &Grid<bool>, edge: Edge, dir: LeftRight)
    requires
        ground.wf(),
        is_boundary_edge(ground, edge),
    ensures
        is_boundary_edge(ground, spec_traversable(ground, edge, dir)),
{
    let ahead = edge.side.art_direction();
    let aside = edge.side.rotate(dir).art_direction();
    let across = spec_diagonal(edge.side, dir);
    let next = spec_traversable(ground, edge, dir);
    match (edge.side, dir) {
        (Side::Top, LeftRight::Left) => {},
        (Side::Top, LeftRight::Right) => {},
        (Side::Right, LeftRight::Left) => {},
        (Side::Right, LeftRight::Right) => {},
        (Side::Bottom, LeftRight::Left) => {},
        (Side::Bottom, LeftRight::Right) => {},
        (Side::Left, LeftRight::Left) => {},
        (Side::Left, LeftRight::Right) => {},
    }
}

/// Every edge that can be walked to from an edge of the boundary in `steps`
/// steps is an edge of the boundary.
pub proof fn lemma_walk_from_the_boundary(ground: &Grid<bool>, from: Edge, to: Edge, steps: nat)
    requires
        ground.wf(),
        is_boundary_edge(ground, from),
        reaches_in(boundary_graph(ground), same_edge(), from, to, steps),
    ensures
        is_boundary_edge(ground, to),
    decreases steps,
{
    if steps > 0 {
        let mid = choose|mid: Edge|
            reaches_in(boundary_graph(ground), same_edge(), from, mid, (steps - 1) as nat)
                && #[trigger] successors(boundary_graph(ground), same_edge(), mid).contains(to);
        lemma_walk_from_the_boundary(ground, from, mid, (steps - 1) as nat);
        lemma_neighbor_is_left_or_right(ground, mid, to);
        lemma_walk_stays_on_the_boundary(ground, mid, LeftRight::Left);
        lemma_walk_stays_on_the_boundary(ground, mid, LeftRight::Right);
    }
}

/// A finished search from an edge `start` of the boundary, with nothing
/// marked before, finds every edge that can be walked to from `start`, and
/// finds it at a distance that is less than the length of the boundary.
pub proof fn lemma_walk_is_found_within_the_boundary(
    ground: &Grid<bool>,
    start: Edge,
    visited: Seq<(Edge, u32)>,
    marked: Set<Edge>,
    target: Edge,
)
    requires
        ground.wf(),
        is_boundary_edge(ground, start),
        is_search(
            boundary_graph(ground),
            same_edge(),
            at_distance_zero(seq![start]),
            Set::<Edge>::empty(),
            visited,
            marked,
        ),
        is_complete(
            boundary_graph(ground),
            same_edge(),
            at_distance_zero(seq![start]),
            visited,
            marked,
        ),
        walk_reaches(ground, start, target),
    ensures
        visited.len() <= boundary_length(ground),
        exists|k: int|
            0 <= k < visited.len() && (#[trigger] visited[k]).0 == target && visited[k].1 <= k,
{
    let graph = boundary_graph(ground);
    let sources = at_distance_zero(seq![start]);
    lemma_visited_is_walkable(ground, seq![start], visited, marked);
    lemma_walkable_from_one(ground, start);
    assert(walkable_from(ground, start).contains(target));
    assert(visited_nodes(visited).contains(target));
    let k = choose|k: int| 0 <= k < visited.len() && (#[trigger] visited[k]).0 == target;
    lemma_search_distances(graph, same_edge(), sources, Set::<Edge>::empty(), visited, marked, 0, k);
    lemma_visited_nodes_count(visited);
    lemma_all_edges_finite();
    assert(boundary_edges(ground).subset_of(all_edges()));
    lemma_set_subset_finite(all_edges(), boundary_edges(ground));
    assert forall|edge: Edge| visited_nodes(visited).contains(edge) implies boundary_edges(
        ground,
    ).contains(edge) by {
        assert(walkable_from(ground, start).contains(edge));
        let steps = choose|steps: nat| reaches_in(graph, same_edge(), start, edge, steps);
        lemma_walk_from_the_boundary(ground, start, edge, steps);
    }
    assert(visited_nodes(visited).subset_of(boundary_edges(ground)));
    lemma_len_subset(visited_nodes(visited), boundary_edges(ground));
}

} // verus!
