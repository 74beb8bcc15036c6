//! Integer vectors: grid coordinates, grid steps and fixed-point world positions.

use vstd::prelude::*;

verus! {

/// Number of world sub-units in the side length of one cell.
pub const UNIT: i64 = 1_000_000;

/// A coordinate on the grid, or the size of a grid.
#[derive(Clone, Copy, Debug, PartialEq, Eq, Hash, Structural)]
pub struct UVec2 {
    pub x: u32,
    pub y: u32,
}

/// A step on the grid.
#[derive(Clone, Copy, Debug, PartialEq, Eq, Hash, Structural)]
pub struct IVec2 {
    pub x: i32,
    pub y: i32,
}

/// A position or an offset in world space, in sub-units (`UNIT` per cell).
/// The world's y axis points up, the grid's y axis points down.
#[derive(Clone, Copy, Debug, PartialEq, Eq, Hash, Structural)]
pub struct Vec2 {
    pub x: i64,
    pub y: i64,
}

impl UVec2 {
    pub fn new(x: u32, y: u32) -> (v: Self)
        ensures
            v == (UVec2 { x, y }),
    {
        UVec2 { x, y }
    }
}

impl IVec2 {
    pub fn new(x: i32, y: i32) -> (v: Self)
        ensures
            v == (IVec2 { x, y }),
    {
        IVec2 { x, y }
    }
}

impl Vec2 {
    pub fn new(x: i64, y: i64) -> (v: Self)
        ensures
            v == (Vec2 { x, y }),
    {
        Vec2 { x, y }
    }
}

/// The world position of the centre of a cell: x grows with the column, y
/// falls with the row.
pub open spec fn world_pos_spec(pos: UVec2) -> Vec2 {
    Vec2 { x: (pos.x * UNIT) as i64, y: (-(pos.y * UNIT)) as i64 }
}

/// The world position of the centre of the cell at `pos`.
pub fn world_pos(pos: UVec2) -> (p: Vec2)
    ensures
        p == world_pos_spec(pos),
        p.x == pos.x * UNIT,
        p.y == -(pos.y * UNIT),
{
    let x: i64 = pos.x as i64;
    let y: i64 = pos.y as i64;
    assert(x * UNIT <= 0xffff_ffff * 1_000_000 && y * UNIT <= 0xffff_ffff * 1_000_000)
        by (nonlinear_arith)
        requires
            0 <= x <= 0xffff_ffff,
            0 <= y <= 0xffff_ffff,
            UNIT == 1_000_000,
    ;
    Vec2 { x: x * UNIT, y: -(y * UNIT) }
}

} // verus!
