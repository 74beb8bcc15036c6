//! The cart: a walker that glides along the boundary of the filled region.
//!
//! Lengths are whole numbers of sub-units (`UNIT` per cell) and times are
//! whole milliseconds, so every rule below is exact integer arithmetic.
//!
//! The cart is in one of five states. On a side it moves with the input and
//! turns into a corner where the side ends. It falls, pushed outward by the
//! pixel that is drawn beneath it, when the next pixel lies straight ahead of
//! the side it stands on, and it zips along a shortcut when it passes the
//! middle of the edge where an installed shortcut starts.

use vstd::prelude::*;
use crate::side::{Corner, Edge, LeftRight, Side};
use crate::vector::{world_pos, world_pos_spec, UVec2, Vec2, UNIT};

verus! {

/// The thickness of the cart: a fifth of a cell.
pub const CART_HEIGHT: i64 = 200_000;

/// How far the cart moves along a side in a millisecond: three cells a second.
pub const SPEED: i64 = 3_000;

/// How much the falling speed grows in a millisecond, in sub-units per
/// millisecond: two cells per second per second.
pub const FALL_SPEED: i64 = 2;

/// The zip speed is 9/5 per second. A zip over the distance `d` cells that has
/// lasted `s` seconds has the progress `t = 9/5 * s / sqrt(d)`. With `s` in
/// milliseconds and `d * d` in squared sub-units the factors of a thousand
/// cancel, and `t > 1` says `ZIP_SPEED_NUM * s^4 > ZIP_SPEED_DEN * d^2`.
pub const ZIP_SPEED_NUM: u128 = 6561;

pub const ZIP_SPEED_DEN: u128 = 625;

/// How far from the middle of its cell the middle of a cart on a side lies.
pub const CART_OFFSET: i64 = 600_000;

/// How far from the middle of its cell the label of a shortcut lies.
pub const LABEL_OFFSET: i64 = 400_000;

/// A time from which every zip is over, whatever its length.
pub const ZIP_TIME_LIMIT: u64 = 0x1000_0000;

/// A shortcut between two edges of the boundary.
#[derive(Clone, Copy, Debug, PartialEq, Eq, Hash, Structural)]
pub struct ZipPath {
    pub start: Edge,
    pub end: Edge,
}

#[derive(Clone, Copy, Debug, PartialEq, Eq, Structural)]
pub enum Cart {
    /// Gliding along the outer face of `cell` on `side`; `distance` is the
    /// signed offset along that side from its middle.
    OnSide { cell: UVec2, side: Side, distance: i32 },
    /// Turning around a convex corner of `cell`.
    OnOutsideCorner { cell: UVec2, corner: Corner, distance: i32 },
    /// Turning in a concave corner; `cell` is the empty cell in the corner.
    OnInsideCorner { cell: UVec2, corner: Corner, distance: i32 },
    /// Pushed outward from `side` at growing speed by the pixel that is being
    /// drawn under the cart.
    Falling { cell: UVec2, side: Side, offset: i32, velocity: i32, finished_drawing: bool },
    /// Moving along a shortcut from `start` to `end`; `cell` and `side` are
    /// where the cart will stand, `elapsed` how long the zip has lasted.
    Zipping { cell: UVec2, side: Side, start: Edge, end: Edge, rotation: i32, elapsed: u32 },
}

/// What one tick is given: the held direction, the time that has passed in
/// milliseconds, and the next pixel that is due to be drawn.
#[derive(Clone, Copy, Debug, PartialEq, Eq, Structural)]
pub struct Tick {
    pub direction: Option<LeftRight>,
    pub dt: u32,
    pub next_pixel: Option<UVec2>,
}

/// A pixel that starts to grow: from the world position `start_pos` toward
/// `grow_dir`.
#[derive(Clone, Copy, Debug, PartialEq, Eq, Structural)]
pub struct DrawingPixel {
    pub start_pos: Vec2,
    pub grow_dir: Side,
}

/// What one tick does to the walker.
#[derive(Clone, Copy, Debug, PartialEq, Eq, Structural)]
pub struct Step {
    /// The state of the cart after the tick.
    pub cart: Cart,
    /// The cell that the tick marks as filled.
    pub filled: Option<UVec2>,
    /// The shortcut that is installed after the tick.
    pub zip_path: Option<ZipPath>,
    /// Whether the picture of the cart has to be redrawn.
    pub changed: bool,
    /// The pixel that starts to grow with this tick.
    pub drawing: Option<DrawingPixel>,
}

/// What one tick reports to its caller.
#[derive(Clone, Copy, Debug, PartialEq, Eq, Structural)]
pub struct Moved {
    pub changed: bool,
    pub drawing: Option<DrawingPixel>,
}

#[derive(Clone, Copy, Debug, PartialEq, Eq, Structural)]
pub enum WalkError {
    /// The cart would have to stand on or fill a cell outside the grid.
    OutOfBounds,
    /// A zip has ended and no pixel is left to draw.
    NoNextPixel,
    /// A distance, offset or speed has grown beyond what the cart can hold.
    OutOfRange,
}

pub open spec fn spec_direction(left: bool, right: bool) -> Option<LeftRight> {
    if left && !right {
        Some(LeftRight::Left)
    } else if right && !left {
        Some(LeftRight::Right)
    } else {
        None
    }
}

/// The direction that the held keys ask for: none where both or neither are
/// held.
#[verifier::when_used_as_spec(spec_direction)]
pub fn direction(left: bool, right: bool) -> (dir: Option<LeftRight>)
    ensures
        dir == spec_direction(left, right),
{
    if left && !right {
        Some(LeftRight::Left)
    } else if right && !left {
        Some(LeftRight::Right)
    } else {
        None
    }
}

/// The sign of a direction along a side: left is negative.
pub open spec fn sign(dir: LeftRight) -> int {
    match dir {
        LeftRight::Left => -1,
        LeftRight::Right => 1,
    }
}

/// Whether a move from `a` to `b` touches or passes `bound`.
pub open spec fn spec_crossed(bound: int, a: int, b: int) -> bool {
    (a <= bound && b >= bound) || (a >= bound && b <= bound)
}

/// Whether a move from `a` to `b` touches or passes `bound`.
pub fn crossed(bound: i64, a: i64, b: i64) -> (c: bool)
    ensures
        c == spec_crossed(bound as int, a as int, b as int),
{
    (a <= bound && b >= bound) || (a >= bound && b <= bound)
}

/// Whether the cart can hold `v` as a distance, an offset or a speed.
pub open spec fn fits(v: int) -> bool {
    i32::MIN <= v <= i32::MAX
}

/// `a` moved by `length` sub-units toward `dir`.
pub open spec fn offset_toward(a: Vec2, dir: Side, length: int) -> Vec2 {
    Vec2 {
        x: (a.x + dir.world_direction().x * length) as i64,
        y: (a.y + dir.world_direction().y * length) as i64,
    }
}

/// Where a pixel that is drawn beyond `side` of `cell` starts to grow: the
/// middle of that side.
pub open spec fn spec_drawing_start(cell: UVec2, side: Side) -> Vec2 {
    offset_toward(world_pos_spec(cell), side, UNIT / 2)
}

/// The square of the distance between two world positions.
pub open spec fn distance_squared(a: Vec2, b: Vec2) -> int {
    (a.x - b.x) * (a.x - b.x) + (a.y - b.y) * (a.y - b.y)
}

/// Whether a zip over a distance whose square is `dist_sq` is over after
/// `elapsed` milliseconds.
pub open spec fn zip_finished(elapsed: int, dist_sq: int) -> bool {
    ZIP_SPEED_NUM * (elapsed * elapsed * elapsed * elapsed) > ZIP_SPEED_DEN * dist_sq
}

impl Edge {
    /// The world position of the middle of a cart that stands on this edge.
    pub open spec fn spec_cart_world_pos(self) -> Vec2 {
        offset_toward(world_pos_spec(self.pos), self.side, CART_OFFSET as int)
    }

    /// The world position of the label that marks this edge as an end of a
    /// shortcut.
    pub open spec fn spec_label_world_pos(self) -> Vec2 {
        offset_toward(world_pos_spec(self.pos), self.side, LABEL_OFFSET as int)
    }

    /// The world position `length` sub-units outward from the middle of the
    /// cell of this edge.
    fn world_pos_toward(self, length: i64) -> (p: Vec2)
        requires
            0 <= length <= UNIT,
        ensures
            p == offset_toward(world_pos_spec(self.pos), self.side, length as int),
            p.x == world_pos_spec(self.pos).x + self.side.world_direction().x * length,
            p.y == world_pos_spec(self.pos).y + self.side.world_direction().y * length,
            -0x1_0000_0000 * UNIT <= p.x <= 0x1_0000_0000 * UNIT,
            -0x1_0000_0000 * UNIT <= p.y <= 0x1_0000_0000 * UNIT,
    {
        let middle = world_pos(self.pos);
        let dir = self.side.world_direction();
        assert(-length <= dir.x * length <= length && -length <= dir.y * length <= length)
            by (nonlinear_arith)
            requires
                -1 <= dir.x <= 1,
                -1 <= dir.y <= 1,
                0 <= length,
        ;
        Vec2 { x: middle.x + dir.x as i64 * length, y: middle.y + dir.y as i64 * length }
    }

    #[verifier::when_used_as_spec(spec_cart_world_pos)]
    pub fn cart_world_pos(self) -> (p: Vec2)
        ensures
            p == self.spec_cart_world_pos(),
    {
        self.world_pos_toward(CART_OFFSET)
    }

    #[verifier::when_used_as_spec(spec_label_world_pos)]
    pub fn label_world_pos(self) -> (p: Vec2)
        ensures
            p == self.spec_label_world_pos(),
    {
        self.world_pos_toward(LABEL_OFFSET)
    }
}

#[verifier::when_used_as_spec(spec_drawing_start)]
pub fn drawing_start(cell: UVec2, side: Side) -> (p: Vec2)
    ensures
        p == spec_drawing_start(cell, side),
{
    Edge { pos: cell, side }.world_pos_toward(UNIT / 2)
}

/// The square of the distance between the places of a cart on two edges.
pub fn cart_distance_squared(a: Edge, b: Edge) -> (d: u128)
    ensures
        d == distance_squared(a.cart_world_pos(), b.cart_world_pos()),
        d <= 0x8_0000_0000_0000_0000 * (UNIT * UNIT),
{
    let p = a.world_pos_toward(CART_OFFSET);
    let q = b.world_pos_toward(CART_OFFSET);
    let dx: i128 = p.x as i128 - q.x as i128;
    let dy: i128 = p.y as i128 - q.y as i128;
    assert(0 <= dx * dx <= 0x4_0000_0000_0000_0000 * (UNIT * UNIT) && 0 <= dy * dy
        <= 0x4_0000_0000_0000_0000 * (UNIT * UNIT)) by (nonlinear_arith)
        requires
            -0x2_0000_0000 * UNIT <= dx <= 0x2_0000_0000 * UNIT,
            -0x2_0000_0000 * UNIT <= dy <= 0x2_0000_0000 * UNIT,
            UNIT == 1_000_000,
    ;
    (dx * dx + dy * dy) as u128
}

/// Decides `zip_finished` for a zip between two edges.
pub fn zip_is_finished(elapsed: u64, start: Edge, end: Edge) -> (done: bool)
    ensures
        done == zip_finished(
            elapsed as int,
            distance_squared(start.cart_world_pos(), end.cart_world_pos()),
        ),
        elapsed >= ZIP_TIME_LIMIT ==> done,
{
    let dist_sq = cart_distance_squared(start, end);
    if elapsed >= ZIP_TIME_LIMIT {
        proof {
            lemma_long_zip_is_finished(elapsed as int, dist_sq as int);
        }
        true
    } else {
        let e: u128 = elapsed as u128;
        assert(0 <= e * e <= 0x100_0000_0000_0000 && 0 <= e * e * e <= 0x10_0000_0000_0000_0000_0000
            && 0 <= e * e * e * e <= 0x1_0000_0000_0000_0000_0000_0000_0000) by (nonlinear_arith)
            requires
                0 <= e < 0x1000_0000,
        ;
        ZIP_SPEED_NUM * (e * e * e * e) > ZIP_SPEED_DEN * dist_sq
    }
}

/// After `ZIP_TIME_LIMIT` milliseconds a zip between two edges of any grid is
/// over.
pub proof fn lemma_long_zip_is_finished(elapsed: int, dist_sq: int)
    requires
        elapsed >= ZIP_TIME_LIMIT,
        dist_sq <= 0x8_0000_0000_0000_0000 * (UNIT * UNIT),
    ensures
        zip_finished(elapsed, dist_sq),
{
    let e = elapsed;
    let square = e * e;
    assert(square >= 0x100_0000_0000_0000) by (nonlinear_arith)
        requires
            e >= 0x1000_0000,
            square == e * e,
    ;
    assert(square * square >= 0x1_0000_0000_0000_0000_0000_0000_0000) by (nonlinear_arith)
        requires
            square >= 0x100_0000_0000_0000,
    ;
    assert(e * e * e * e == square * square) by (nonlinear_arith)
        requires
            square == e * e,
    ;
}

impl Cart {
    /// The cell that the cart stands on, turns around or turns in, and while
    /// it zips the cell where it will arrive.
    pub open spec fn cell(self) -> UVec2 {
        match self {
            Cart::OnSide { cell, .. } => cell,
            Cart::OnOutsideCorner { cell, .. } => cell,
            Cart::OnInsideCorner { cell, .. } => cell,
            Cart::Falling { cell, .. } => cell,
            Cart::Zipping { cell, .. } => cell,
        }
    }

    /// The edge on which the cart stands or arrives: none on a corner.
    pub open spec fn spec_current_edge(self) -> Option<Edge> {
        match self {
            Cart::OnSide { cell, side, .. } => Some(Edge { pos: cell, side }),
            Cart::Falling { cell, side, .. } => Some(Edge { pos: cell, side }),
            Cart::Zipping { cell, side, .. } => Some(Edge { pos: cell, side }),
            _ => None,
        }
    }

    #[verifier::when_used_as_spec(spec_current_edge)]
    pub fn current_edge(self) -> (edge: Option<Edge>)
        ensures
            edge == self.spec_current_edge(),
    {
        match self {
            Cart::OnSide { cell, side, .. } => Some(Edge { pos: cell, side }),
            Cart::Falling { cell, side, .. } => Some(Edge { pos: cell, side }),
            Cart::Zipping { cell, side, .. } => Some(Edge { pos: cell, side }),
            _ => None,
        }
    }

    /// How far the pixel under the cart has grown, and whether it is done: a
    /// falling cart gives its offset and whether it has drawn its pixel, any
    /// other cart says that the pixel is done.
    pub open spec fn spec_drawing_progress(self) -> (i32, bool) {
        match self {
            Cart::Falling { offset, finished_drawing, .. } => (offset, finished_drawing),
            _ => (0, true),
        }
    }

    #[verifier::when_used_as_spec(spec_drawing_progress)]
    pub fn drawing_progress(self) -> (progress: (i32, bool))
        ensures
            progress == self.spec_drawing_progress(),
    {
        match self {
            Cart::Falling { offset, finished_drawing, .. } => (offset, finished_drawing),
            _ => (0, true),
        }
    }
}

} // verus!
