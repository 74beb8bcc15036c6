//! Where the cart and the growing pixel are drawn.
//!
//! The cart is drawn as two rectangles, the cart and its piece. On a side
//! they lie on one another; on a corner one lies on each of the two sides
//! that bound the corner.

use vstd::prelude::*;
use crate::cart::{Cart, DrawingPixel, CART_HEIGHT};
use crate::side::Side;
use crate::vector::{world_pos, world_pos_spec, Vec2, UNIT};

verus! {

/// A rectangle in world space with its sides along the axes, given by two
/// opposite corners. The width and height are `to - from`, taken without
/// their sign.
#[derive(Clone, Copy, Debug, PartialEq, Eq, Structural)]
pub struct Rect {
    pub from: Vec2,
    pub to: Vec2,
}

/// The two rectangles of the cart.
#[derive(Clone, Copy, Debug, PartialEq, Eq, Structural)]
pub struct CartSprites {
    pub cart: Rect,
    pub piece: Rect,
}

/// How far from the middle of a cell the outer face of a cart on one of its
/// sides lies.
pub const OUTSIDE_EXTENT: i64 = 700_000;

/// The rectangle that reaches from `(x0, y0)` to `(x1, y1)` for a cart on the
/// top side of a cell in the origin, turned to suit `side` and moved to
/// `origin`.
pub open spec fn spec_rect_on(origin: Vec2, side: Side, x0: int, y0: int, x1: int, y1: int) -> Rect {
    let from = side.rotate_world_direction(Vec2 { x: x0 as i64, y: y0 as i64 });
    let to = side.rotate_world_direction(Vec2 { x: x1 as i64, y: y1 as i64 });
    Rect {
        from: Vec2 { x: (origin.x + from.x) as i64, y: (origin.y + from.y) as i64 },
        to: Vec2 { x: (origin.x + to.x) as i64, y: (origin.y + to.y) as i64 },
    }
}

/// The rectangle from `(x0, y0)` to `(x1, y1)` in the frame of the top side,
/// turned to suit `side` and moved to `origin`.
fn rect_on(origin: Vec2, side: Side, x0: i64, y0: i64, x1: i64, y1: i64) -> (rect: Rect)
    requires
        -0x2_0000_0000 * UNIT <= origin.x <= 0x2_0000_0000 * UNIT,
        -0x2_0000_0000 * UNIT <= origin.y <= 0x2_0000_0000 * UNIT,
        -0x1_0000_0000_0000 <= x0 <= 0x1_0000_0000_0000,
        -0x1_0000_0000_0000 <= y0 <= 0x1_0000_0000_0000,
        -0x1_0000_0000_0000 <= x1 <= 0x1_0000_0000_0000,
        -0x1_0000_0000_0000 <= y1 <= 0x1_0000_0000_0000,
    ensures
        rect == spec_rect_on(origin, side, x0 as int, y0 as int, x1 as int, y1 as int),
{
    let from = side.rotate_world_direction(Vec2 { x: x0, y: y0 });
    let to = side.rotate_world_direction(Vec2 { x: x1, y: y1 });
    Rect {
        from: Vec2 { x: origin.x + from.x, y: origin.y + from.y },
        to: Vec2 { x: origin.x + to.x, y: origin.y + to.y },
    }
}

impl Cart {
    /// Where the cart is drawn. In the frame of a cart on the top side of a
    /// cell in the origin:
    ///
    /// - on a side, a cell wide around `distance`, on the face of the cell;
    /// - on a convex corner, on the left side from `distance - 0.3` to the
    ///   outer face of the right side, and on the right side from the outer
    ///   face of the left side to `distance - 0.5`;
    /// - in a concave corner, within the cell, on the left side from
    ///   `distance - 0.5` to the face of the right side, and on the right side
    ///   from the face of the left side to `distance - 0.3`;
    /// - falling, a cell wide, `offset` further out than on the side.
    ///
    /// There is no answer for a zipping cart: its place depends on how the
    /// zip is eased.
    pub open spec fn spec_sprites(self) -> Option<CartSprites> {
        let outer = (UNIT + CART_HEIGHT) / 2;
        let inner = (UNIT - CART_HEIGHT) / 2;
        let half = UNIT / 2;
        let thick = CART_HEIGHT / 2;
        match self {
            Cart::OnSide { cell, side, distance } => {
                let rect = spec_rect_on(
                    world_pos_spec(cell),
                    side,
                    distance - half,
                    outer - thick,
                    distance + half,
                    outer + thick,
                );
                Some(CartSprites { cart: rect, piece: rect })
            },
            Cart::OnOutsideCorner { cell, corner, distance } => Some(
                CartSprites {
                    cart: spec_rect_on(
                        world_pos_spec(cell),
                        corner.rotate_left_side(),
                        OUTSIDE_EXTENT - (UNIT - distance),
                        outer - thick,
                        OUTSIDE_EXTENT as int,
                        outer + thick,
                    ),
                    piece: spec_rect_on(
                        world_pos_spec(cell),
                        corner.rotate_right_side(),
                        -OUTSIDE_EXTENT,
                        outer - thick,
                        -OUTSIDE_EXTENT + (distance + CART_HEIGHT),
                        outer + thick,
                    ),
                },
            ),
            Cart::OnInsideCorner { cell, corner, distance } => Some(
                CartSprites {
                    cart: spec_rect_on(
                        world_pos_spec(cell),
                        corner.rotate_left_side(),
                        half - (UNIT - distance),
                        inner - thick,
                        half,
                        inner + thick,
                    ),
                    piece: spec_rect_on(
                        world_pos_spec(cell),
                        corner.rotate_right_side(),
                        -half,
                        inner - thick,
                        -half + (CART_HEIGHT + distance),
                        inner + thick,
                    ),
                },
            ),
            Cart::Falling { cell, side, offset, .. } => {
                let rect = spec_rect_on(
                    world_pos_spec(cell),
                    side,
                    -half,
                    outer + offset - thick,
                    half,
                    outer + offset + thick,
                );
                Some(CartSprites { cart: rect, piece: rect })
            },
            Cart::Zipping { .. } => None,
        }
    }

    #[verifier::when_used_as_spec(spec_sprites)]
    pub fn sprites(self) -> (sprites: Option<CartSprites>)
        ensures
            sprites == self.spec_sprites(),
    {
        let outer: i64 = (UNIT + CART_HEIGHT) / 2;
        let inner: i64 = (UNIT - CART_HEIGHT) / 2;
        let half: i64 = UNIT / 2;
        let thick: i64 = CART_HEIGHT / 2;
        match self {
            Cart::OnSide { cell, side, distance } => {
                let d = distance as i64;
                let rect = rect_on(
                    world_pos(cell),
                    side,
                    d - half,
                    outer - thick,
                    d + half,
                    outer + thick,
                );
                Some(CartSprites { cart: rect, piece: rect })
            },
            Cart::OnOutsideCorner { cell, corner, distance } => {
                let d = distance as i64;
                Some(
                    CartSprites {
                        cart: rect_on(
                            world_pos(cell),
                            corner.rotate_left_side(),
                            OUTSIDE_EXTENT - (UNIT - d),
                            outer - thick,
                            OUTSIDE_EXTENT,
                            outer + thick,
                        ),
                        piece: rect_on(
                            world_pos(cell),
                            corner.rotate_right_side(),
                            -OUTSIDE_EXTENT,
                            outer - thick,
                            -OUTSIDE_EXTENT + (d + CART_HEIGHT),
                            outer + thick,
                        ),
                    },
                )
            },
            Cart::OnInsideCorner { cell, corner, distance } => {
                let d = distance as i64;
                Some(
                    CartSprites {
                        cart: rect_on(
                            world_pos(cell),
                            corner.rotate_left_side(),
                            half - (UNIT - d),
                            inner - thick,
                            half,
                            inner + thick,
                        ),
                        piece: rect_on(
                            world_pos(cell),
                            corner.rotate_right_side(),
                            -half,
                            inner - thick,
                            -half + (CART_HEIGHT + d),
                            inner + thick,
                        ),
                    },
                )
            },
            Cart::Falling { cell, side, offset, .. } => {
                let o = offset as i64;
                let rect = rect_on(
                    world_pos(cell),
                    side,
                    -half,
                    outer + o - thick,
                    half,
                    outer + o + thick,
                );
                Some(CartSprites { cart: rect, piece: rect })
            },
            Cart::Zipping { .. } => None,
        }
    }
}

impl DrawingPixel {
    /// The rectangle of the pixel once it has grown by `length`: a cell wide
    /// around the place where it started, from there `length` toward the
    /// side it grows to.
    pub open spec fn spec_rect(self, length: i32) -> Rect {
        spec_rect_on(self.start_pos, self.grow_dir, -(UNIT / 2), 0, UNIT / 2, length as int)
    }

    #[verifier::when_used_as_spec(spec_rect)]
    pub fn rect(self, length: i32) -> (rect: Rect)
        requires
            -0x2_0000_0000 * UNIT <= self.start_pos.x <= 0x2_0000_0000 * UNIT,
            -0x2_0000_0000 * UNIT <= self.start_pos.y <= 0x2_0000_0000 * UNIT,
        ensures
            rect == self.spec_rect(length),
    {
        rect_on(self.start_pos, self.grow_dir, -(UNIT / 2), 0, UNIT / 2, length as i64)
    }
}

} // verus!
