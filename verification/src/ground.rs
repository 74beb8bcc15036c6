//! The ground: which cells of the grid are filled, and how the boundary of the
//! filled region is walked from one edge to the next.
//!
//! Every coordinate outside the grid counts as empty.

use vstd::prelude::*;
use crate::grid::Grid;
use crate::side::{Edge, LeftRight, Side};
use crate::vector::{IVec2, UVec2};

verus! {

/// The coordinate one step `b` away from `a`, where both of its parts are
/// still unsigned 32-bit numbers.
pub open spec fn spec_checked_add(a: UVec2, b: IVec2) -> Option<UVec2> {
    if 0 <= a.x + b.x <= u32::MAX && 0 <= a.y + b.y <= u32::MAX {
        Some(UVec2 { x: (a.x + b.x) as u32, y: (a.y + b.y) as u32 })
    } else {
        None
    }
}

/// The coordinate one step `b` away from `a`, where it lies on a grid of the
/// given size.
pub open spec fn spec_checked_add_inside(size: UVec2, a: UVec2, b: IVec2) -> Option<UVec2> {
    match spec_checked_add(a, b) {
        Some(pos) => if pos.x < size.x && pos.y < size.y {
            Some(pos)
        } else {
            None
        },
        None => None,
    }
}

/// Whether `cell` is a filled cell of the grid.
pub open spec fn is_filled(ground: &Grid<bool>, cell: UVec2) -> bool {
    ground.contains(cell) && ground.spec_index(cell)
}

/// The filled cell one step `offset` away from `pos`, if there is one.
pub open spec fn spec_filled_at(ground: &Grid<bool>, pos: UVec2, offset: IVec2) -> Option<UVec2> {
    match spec_checked_add_inside(ground.spec_size(), pos, offset) {
        Some(cell) => if ground.spec_index(cell) {
            Some(cell)
        } else {
            None
        },
        None => None,
    }
}

/// Whether the cell one step `offset` away from `pos` is filled.
pub open spec fn spec_ground_set(ground: &Grid<bool>, pos: UVec2, offset: IVec2) -> bool {
    spec_filled_at(ground, pos, offset) is Some
}

/// The step from a cell to its diagonal neighbour beyond `side`, on the
/// `dir` hand of somebody who stands on that side.
pub open spec fn spec_diagonal(side: Side, dir: LeftRight) -> IVec2 {
    IVec2 {
        x: (side.art_direction().x + side.rotate(dir).art_direction().x) as i32,
        y: (side.art_direction().y + side.rotate(dir).art_direction().y) as i32,
    }
}

/// The edge that follows `edge` for somebody who walks along the boundary
/// toward `dir`.
///
/// Where the diagonal neighbour beyond the edge is filled, the walk turns
/// into the concave corner and goes on along that neighbour. Otherwise, where
/// the neighbour beside the cell is filled, the walk goes straight on along
/// it. Otherwise the walk turns around the convex corner of the cell itself.
pub open spec fn spec_traversable(ground: &Grid<bool>, edge: Edge, dir: LeftRight) -> Edge {
    match spec_filled_at(ground, edge.pos, spec_diagonal(edge.side, dir)) {
        Some(cell) => Edge { pos: cell, side: edge.side.rotate(dir.not()) },
        None => match spec_filled_at(ground, edge.pos, edge.side.rotate(dir).art_direction()) {
            Some(cell) => Edge { pos: cell, side: edge.side },
            None => Edge { pos: edge.pos, side: edge.side.rotate(dir) },
        },
    }
}

/// The edges that follow `edge` on the boundary, to the left and to the
/// right.
pub open spec fn spec_edge_neighbors(ground: &Grid<bool>, edge: Edge) -> Seq<Edge> {
    seq![
        spec_traversable(ground, edge, LeftRight::Left),
        spec_traversable(ground, edge, LeftRight::Right),
    ]
}

#[verifier::when_used_as_spec(spec_checked_add)]
pub fn checked_add(a: UVec2, b: IVec2) -> (sum: Option<UVec2>)
    ensures
        sum == spec_checked_add(a, b),
{
    match (a.x.checked_add_signed(b.x), a.y.checked_add_signed(b.y)) {
        (Some(x), Some(y)) => Some(UVec2 { x, y }),
        _ => None,
    }
}

#[verifier::when_used_as_spec(spec_checked_add_inside)]
pub fn checked_add_inside(size: UVec2, a: UVec2, b: IVec2) -> (sum: Option<UVec2>)
    ensures
        sum == spec_checked_add_inside(size, a, b),
{
    match checked_add(a, b) {
        Some(pos) => if pos.x < size.x && pos.y < size.y {
            Some(pos)
        } else {
            None
        },
        None => None,
    }
}

#[verifier::when_used_as_spec(spec_filled_at)]
pub fn filled_at(ground: &Grid<bool>, pos: UVec2, offset: IVec2) -> (cell: Option<UVec2>)
    ensures
        cell == spec_filled_at(ground, pos, offset),
{
    match checked_add_inside(ground.size(), pos, offset) {
        Some(cell) => if *ground.get(cell) {
            Some(cell)
        } else {
            None
        },
        None => None,
    }
}

#[verifier::when_used_as_spec(spec_ground_set)]
pub fn ground_set(ground: &Grid<bool>, pos: UVec2, offset: IVec2) -> (set: bool)
    ensures
        set == spec_ground_set(ground, pos, offset),
{
    filled_at(ground, pos, offset).is_some()
}

#[verifier::when_used_as_spec(spec_diagonal)]
pub fn diagonal(side: Side, dir: LeftRight) -> (step: IVec2)
    ensures
        step == spec_diagonal(side, dir),
{
    let ahead = side.art_direction();
    let beside = side.rotate(dir).art_direction();
    IVec2 { x: ahead.x + beside.x, y: ahead.y + beside.y }
}

#[verifier::when_used_as_spec(spec_traversable)]
pub fn traversable(ground: &Grid<bool>, edge: Edge, dir: LeftRight) -> (next: Edge)
    ensures
        next == spec_traversable(ground, edge, dir),
{
    match filled_at(ground, edge.pos, diagonal(edge.side, dir)) {
        Some(cell) => Edge { pos: cell, side: edge.side.rotate(dir.not()) },
        None => match filled_at(ground, edge.pos, edge.side.rotate(dir).art_direction()) {
            Some(cell) => Edge { pos: cell, side: edge.side },
            None => Edge { pos: edge.pos, side: edge.side.rotate(dir) },
        },
    }
}

/// The edges that follow `edge` on the boundary, first to the left and then
/// to the right.
pub fn edge_neighbors(ground: &Grid<bool>, edge: Edge) -> (next: [Edge; 2])
    ensures
        next@ == spec_edge_neighbors(ground, edge),
{
    let next = [traversable(ground, edge, LeftRight::Left), traversable(ground, edge, LeftRight::Right)];
    assert(next@ =~= spec_edge_neighbors(ground, edge));
    next
}

} // verus!
