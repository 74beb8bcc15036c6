//! The four sides and corners of a cell, and the edges of the grid.
//!
//! Sides are ordered in a cycle, Top, Right, Bottom, Left and back to Top.
//! Turning right moves one place forward in the cycle, turning left one place
//! back. Corner `k` of the cycle TopLeft, TopRight, BottomRight, BottomLeft lies
//! between side `k - 1` (its left side) and side `k` (its right side).

use vstd::prelude::*;
use crate::vector::{IVec2, UVec2, Vec2};

verus! {

#[derive(Clone, Copy, Debug, PartialEq, Eq, Hash, Structural)]
pub enum Side {
    Top,
    Right,
    Bottom,
    Left,
}

#[derive(Clone, Copy, Debug, PartialEq, Eq, Hash, Structural)]
pub enum Corner {
    TopLeft,
    TopRight,
    BottomRight,
    BottomLeft,
}

#[derive(Clone, Copy, Debug, PartialEq, Eq, Hash, Structural)]
pub enum LeftRight {
    Left,
    Right,
}

/// One unit-length segment of the boundary of a cell: the face of `pos` that
/// looks toward `side`.
#[derive(Clone, Copy, Debug, PartialEq, Eq, Hash, Structural)]
pub struct Edge {
    pub pos: UVec2,
    pub side: Side,
}

impl Side {
    /// The place of the side in the cycle, from 0 for Top to 3 for Left.
    pub open spec fn index(self) -> int {
        match self {
            Side::Top => 0,
            Side::Right => 1,
            Side::Bottom => 2,
            Side::Left => 3,
        }
    }

    /// The side at place `i` of the cycle, counted modulo 4.
    pub open spec fn at(i: int) -> Side {
        let k = i % 4;
        if k == 0 {
            Side::Top
        } else if k == 1 {
            Side::Right
        } else if k == 2 {
            Side::Bottom
        } else {
            Side::Left
        }
    }

    pub open spec fn spec_flip(self) -> Side {
        Side::at(self.index() + 2)
    }

    pub open spec fn spec_rotate_left(self) -> Side {
        Side::at(self.index() + 3)
    }

    pub open spec fn spec_rotate_right(self) -> Side {
        Side::at(self.index() + 1)
    }

    pub open spec fn spec_rotate(self, dir: LeftRight) -> Side {
        match dir {
            LeftRight::Left => self.spec_rotate_left(),
            LeftRight::Right => self.spec_rotate_right(),
        }
    }

    pub open spec fn spec_rotate_left_corner(self) -> Corner {
        Corner::at(self.index())
    }

    pub open spec fn spec_rotate_right_corner(self) -> Corner {
        Corner::at(self.index() + 1)
    }

    /// The grid step that leaves a cell through this side. The grid's y axis
    /// points down, so Top is `(0, -1)`.
    pub open spec fn spec_art_direction(self) -> IVec2 {
        match self {
            Side::Top => IVec2 { x: 0, y: -1i32 },
            Side::Right => IVec2 { x: 1, y: 0 },
            Side::Bottom => IVec2 { x: 0, y: 1 },
            Side::Left => IVec2 { x: -1i32, y: 0 },
        }
    }

    /// The same direction in world space, whose y axis points up.
    pub open spec fn spec_world_direction(self) -> IVec2 {
        IVec2 { x: self.spec_art_direction().x, y: (-self.spec_art_direction().y) as i32 }
    }

    /// The turn from `self` to `other` in degrees: 0 for the same side, -90
    /// where `other` is one turn to the right, 90 where it is one turn to the
    /// left, 180 for the opposite side.
    pub open spec fn spec_angle_between(self, other: Side) -> i32 {
        let k = (other.index() - self.index()) % 4;
        if k == 0 {
            0i32
        } else if k == 1 {
            -90i32
        } else if k == 3 {
            90i32
        } else {
            180i32
        }
    }

    /// A vector drawn for a cart on the top side, turned to suit a cart on
    /// this side.
    pub open spec fn spec_rotate_world_direction(self, dir: Vec2) -> Vec2 {
        match self {
            Side::Top => dir,
            Side::Right => Vec2 { x: dir.y, y: (-dir.x) as i64 },
            Side::Bottom => Vec2 { x: (-dir.x) as i64, y: (-dir.y) as i64 },
            Side::Left => Vec2 { x: (-dir.y) as i64, y: dir.x },
        }
    }

    /// The sides in the order of their cycle.
    pub const SIDES: [Side; 4] = [Side::Top, Side::Right, Side::Bottom, Side::Left];

    #[verifier::when_used_as_spec(spec_art_direction)]
    pub fn art_direction(self) -> (d: IVec2)
        ensures
            d == self.spec_art_direction(),
    {
        match self {
            Side::Top => IVec2 { x: 0, y: -1 },
            Side::Right => IVec2 { x: 1, y: 0 },
            Side::Bottom => IVec2 { x: 0, y: 1 },
            Side::Left => IVec2 { x: -1, y: 0 },
        }
    }

    #[verifier::when_used_as_spec(spec_world_direction)]
    pub fn world_direction(self) -> (d: IVec2)
        ensures
            d == self.spec_world_direction(),
    {
        match self {
            Side::Top => IVec2 { x: 0, y: 1 },
            Side::Right => IVec2 { x: 1, y: 0 },
            Side::Bottom => IVec2 { x: 0, y: -1 },
            Side::Left => IVec2 { x: -1, y: 0 },
        }
    }

    #[verifier::when_used_as_spec(spec_angle_between)]
    pub fn angle_between(self, other: Side) -> (degrees: i32)
        ensures
            degrees == self.spec_angle_between(other),
    {
        if self == other {
            0
        } else if self.rotate_right() == other {
            -90
        } else if self.rotate_left() == other {
            90
        } else {
            180
        }
    }

    #[verifier::when_used_as_spec(spec_rotate_world_direction)]
    pub fn rotate_world_direction(self, dir: Vec2) -> (v: Vec2)
        requires
            dir.x > i64::MIN,
            dir.y > i64::MIN,
        ensures
            v == self.spec_rotate_world_direction(dir),
    {
        match self {
            Side::Top => dir,
            Side::Right => Vec2 { x: dir.y, y: -dir.x },
            Side::Bottom => Vec2 { x: -dir.x, y: -dir.y },
            Side::Left => Vec2 { x: -dir.y, y: dir.x },
        }
    }

    #[verifier::when_used_as_spec(spec_flip)]
    pub fn flip(self) -> (s: Side)
        ensures
            s == self.spec_flip(),
    {
        match self {
            Side::Top => Side::Bottom,
            Side::Right => Side::Left,
            Side::Bottom => Side::Top,
            Side::Left => Side::Right,
        }
    }

    #[verifier::when_used_as_spec(spec_rotate_left)]
    pub fn rotate_left(self) -> (s: Side)
        ensures
            s == self.spec_rotate_left(),
    {
        match self {
            Side::Top => Side::Left,
            Side::Right => Side::Top,
            Side::Bottom => Side::Right,
            Side::Left => Side::Bottom,
        }
    }

    #[verifier::when_used_as_spec(spec_rotate_right)]
    pub fn rotate_right(self) -> (s: Side)
        ensures
            s == self.spec_rotate_right(),
    {
        match self {
            Side::Top => Side::Right,
            Side::Right => Side::Bottom,
            Side::Bottom => Side::Left,
            Side::Left => Side::Top,
        }
    }

    #[verifier::when_used_as_spec(spec_rotate)]
    pub fn rotate(self, dir: LeftRight) -> (s: Side)
        ensures
            s == self.spec_rotate(dir),
    {
        match dir {
            LeftRight::Left => self.rotate_left(),
            LeftRight::Right => self.rotate_right(),
        }
    }

    #[verifier::when_used_as_spec(spec_rotate_left_corner)]
    pub fn rotate_left_corner(self) -> (c: Corner)
        ensures
            c == self.spec_rotate_left_corner(),
    {
        match self {
            Side::Top => Corner::TopLeft,
            Side::Right => Corner::TopRight,
            Side::Bottom => Corner::BottomRight,
            Side::Left => Corner::BottomLeft,
        }
    }

    #[verifier::when_used_as_spec(spec_rotate_right_corner)]
    pub fn rotate_right_corner(self) -> (c: Corner)
        ensures
            c == self.spec_rotate_right_corner(),
    {
        match self {
            Side::Top => Corner::TopRight,
            Side::Right => Corner::BottomRight,
            Side::Bottom => Corner::BottomLeft,
            Side::Left => Corner::TopLeft,
        }
    }
}

impl Corner {
    /// The place of the corner in the cycle, from 0 for TopLeft to 3 for
    /// BottomLeft.
    pub open spec fn index(self) -> int {
        match self {
            Corner::TopLeft => 0,
            Corner::TopRight => 1,
            Corner::BottomRight => 2,
            Corner::BottomLeft => 3,
        }
    }

    /// The corner at place `i` of the cycle, counted modulo 4.
    pub open spec fn at(i: int) -> Corner {
        let k = i % 4;
        if k == 0 {
            Corner::TopLeft
        } else if k == 1 {
            Corner::TopRight
        } else if k == 2 {
            Corner::BottomRight
        } else {
            Corner::BottomLeft
        }
    }

    pub open spec fn spec_rotate_left(self) -> Corner {
        Corner::at(self.index() + 3)
    }

    pub open spec fn spec_rotate_right(self) -> Corner {
        Corner::at(self.index() + 1)
    }

    pub open spec fn spec_rotate_left_side(self) -> Side {
        Side::at(self.index() + 3)
    }

    pub open spec fn spec_rotate_right_side(self) -> Side {
        Side::at(self.index())
    }

    #[verifier::when_used_as_spec(spec_rotate_left)]
    pub fn rotate_left(self) -> (c: Corner)
        ensures
            c == self.spec_rotate_left(),
    {
        match self {
            Corner::TopLeft => Corner::BottomLeft,
            Corner::TopRight => Corner::TopLeft,
            Corner::BottomRight => Corner::TopRight,
            Corner::BottomLeft => Corner::BottomRight,
        }
    }

    #[verifier::when_used_as_spec(spec_rotate_right)]
    pub fn rotate_right(self) -> (c: Corner)
        ensures
            c == self.spec_rotate_right(),
    {
        match self {
            Corner::TopLeft => Corner::TopRight,
            Corner::TopRight => Corner::BottomRight,
            Corner::BottomRight => Corner::BottomLeft,
            Corner::BottomLeft => Corner::TopLeft,
        }
    }

    #[verifier::when_used_as_spec(spec_rotate_left_side)]
    pub fn rotate_left_side(self) -> (s: Side)
        ensures
            s == self.spec_rotate_left_side(),
    {
        match self {
            Corner::TopLeft => Side::Left,
            Corner::TopRight => Side::Top,
            Corner::BottomRight => Side::Right,
            Corner::BottomLeft => Side::Bottom,
        }
    }

    #[verifier::when_used_as_spec(spec_rotate_right_side)]
    pub fn rotate_right_side(self) -> (s: Side)
        ensures
            s == self.spec_rotate_right_side(),
    {
        match self {
            Corner::TopLeft => Side::Top,
            Corner::TopRight => Side::Right,
            Corner::BottomRight => Side::Bottom,
            Corner::BottomLeft => Side::Left,
        }
    }
}

impl Edge {
    pub fn new(pos: UVec2, side: Side) -> (e: Edge)
        ensures
            e == (Edge { pos, side }),
    {
        Edge { pos, side }
    }
}

impl LeftRight {
    pub open spec fn spec_not(self) -> LeftRight {
        match self {
            LeftRight::Left => LeftRight::Right,
            LeftRight::Right => LeftRight::Left,
        }
    }

    /// The other direction.
    #[verifier::when_used_as_spec(spec_not)]
    pub fn not(self) -> (d: LeftRight)
        ensures
            d == self.spec_not(),
    {
        match self {
            LeftRight::Left => LeftRight::Right,
            LeftRight::Right => LeftRight::Left,
        }
    }
}

/// Turning right and then left, or flipping twice, gives back the side.
pub proof fn lemma_side_round_trips(s: Side)
    ensures
        s.rotate_right().rotate_left() == s,
        s.rotate_left().rotate_right() == s,
        s.flip().flip() == s,
        s.rotate_right().rotate_right() == s.flip(),
        s.rotate_left().rotate_left() == s.flip(),
{
}

/// The two sides that bound a corner are a quarter turn apart: the right
/// side is one turn to the right of the left side, so they are neither the
/// same side nor opposite sides.
pub proof fn lemma_corner_sides_adjacent(c: Corner)
    ensures
        c.rotate_right_side() == c.rotate_left_side().rotate_right(),
        c.rotate_left_side().angle_between(c.rotate_right_side()) == -90,
        c.rotate_right_side().angle_between(c.rotate_left_side()) == 90,
        c.rotate_left_side() != c.rotate_right_side(),
        c.rotate_left_side() != c.rotate_right_side().flip(),
{
}

/// The sides and corners of a cell interleave: a side lies between its left
/// corner and its right corner, and a corner between its left side and its
/// right side.
pub proof fn lemma_sides_and_corners_interleave(s: Side, c: Corner)
    ensures
        s.rotate_left_corner().rotate_right_side() == s,
        s.rotate_right_corner().rotate_left_side() == s,
        s.rotate_right_corner() == s.rotate_left_corner().rotate_right(),
        c.rotate_left_side().rotate_right_corner() == c,
        c.rotate_right_side().rotate_left_corner() == c,
        c.rotate_right().rotate_left() == c,
        c.rotate_left().rotate_right() == c,
{
}

/// The world direction of a side is the upward unit vector turned to that
/// side, and the grid step is its mirror image in the x axis.
pub proof fn lemma_directions_agree(s: Side)
    ensures
        s.rotate_world_direction(Vec2 { x: 0, y: 1 }) == (Vec2 {
            x: s.world_direction().x as i64,
            y: s.world_direction().y as i64,
        }),
        s.world_direction().x == s.art_direction().x,
        s.world_direction().y == -s.art_direction().y,
        s.flip().art_direction().x == -s.art_direction().x,
        s.flip().art_direction().y == -s.art_direction().y,
{
}

} // verus!
