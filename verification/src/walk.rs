//! What holds of every tick of the cart.

use vstd::prelude::*;
use crate::cart::{
    distance_squared,
    fits,
    sign,
    zip_finished,
    Cart,
    Step,
    spec_crossed,
    Tick,
    WalkError,
    ZipPath,
    CART_HEIGHT,
    FALL_SPEED,
    SPEED,
};
use crate::grid::Grid;
use crate::ground::{
    is_filled,
    spec_checked_add,
    spec_checked_add_inside,
    spec_diagonal,
    spec_filled_at,
    spec_ground_set,
};
use crate::side::{Corner, Edge, LeftRight, Side};
use crate::step::{
    arrive_falling,
    arrive_on_inside_corner,
    arrive_on_outside_corner,
    arrive_on_side,
    arrive_zipping,
    spec_travel,
    step,
    step_falling,
};
use crate::walker::filled_view;
use crate::vector::{IVec2, UVec2, UNIT};

verus! {

/// Whether two cells are the same or touch, be it at a corner only.
pub open spec fn touches(a: UVec2, b: UVec2) -> bool {
    -1 <= a.x - b.x <= 1 && -1 <= a.y - b.y <= 1
}

/// The cart has ground under it: on a side, on a convex corner and while it
/// falls its cell is filled; in a concave corner the two cells that bound the
/// corner are filled; a falling cart that has drawn its pixel has a filled
/// cell ahead; a zip and the installed shortcut end inside the grid.
pub open spec fn grounded(cart: Cart, ground: &Grid<bool>, zip_path: Option<ZipPath>) -> bool {
    &&& ground.wf()
    &&& zip_path matches Some(path) ==> ground.contains(path.end.pos)
    &&& match cart {
        Cart::OnSide { cell, .. } => is_filled(ground, cell),
        Cart::OnOutsideCorner { cell, .. } => is_filled(ground, cell),
        Cart::OnInsideCorner { cell, corner, .. } => {
            &&& spec_ground_set(ground, cell, corner.rotate_left_side().art_direction())
            &&& spec_ground_set(ground, cell, corner.rotate_right_side().art_direction())
        },
        Cart::Falling { cell, side, finished_drawing, .. } => {
            &&& is_filled(ground, cell)
            &&& finished_drawing ==> spec_ground_set(ground, cell, side.art_direction())
        },
        Cart::Zipping { cell, .. } => ground.contains(cell),
    }
}

/// `after` is `before` with the cell `filled`, if there is one, filled.
pub open spec fn is_ground_after(
    before: &Grid<bool>,
    filled: Option<UVec2>,
    after: &Grid<bool>,
) -> bool {
    &&& after.wf()
    &&& after.spec_size() == before.spec_size()
    &&& after@ == filled_view(before, filled)
}

/// Filling a cell leaves every filled cell filled.
pub proof fn lemma_ground_grows(
    before: &Grid<bool>,
    filled: Option<UVec2>,
    after: &Grid<bool>,
    cell: UVec2,
)
    requires
        before.wf(),
        is_ground_after(before, filled, after),
        filled matches Some(new) ==> before.contains(new),
    ensures
        is_filled(before, cell) ==> is_filled(after, cell),
        filled == Some(cell) ==> is_filled(after, cell),
        is_filled(after, cell) ==> is_filled(before, cell) || filled == Some(cell),
{
    if before.contains(cell) {
        before.lemma_index_in_bounds(cell);
        if let Some(new) = filled {
            before.lemma_index_in_bounds(new);
            if new.y * before.spec_width() + new.x == cell.y * before.spec_width() + cell.x {
                before.lemma_index_injective(new, cell);
            }
        }
    }
}

/// Filling a cell leaves filled what was filled.
proof fn lemma_ground_set_stays(
    before: &Grid<bool>,
    filled: Option<UVec2>,
    after: &Grid<bool>,
    cell: UVec2,
    offset: IVec2,
)
    requires
        before.wf(),
        is_ground_after(before, filled, after),
        filled matches Some(new) ==> before.contains(new),
        spec_ground_set(before, cell, offset),
    ensures
        spec_ground_set(after, cell, offset),
{
    let at = spec_checked_add_inside(before.spec_size(), cell, offset)->0;
    lemma_ground_grows(before, filled, after, at);
}

/// The concave corner that a cart turns into from the middle of a side of a
/// filled cell, toward a filled diagonal neighbour, is bounded by filled
/// cells.
proof fn lemma_corner_entry(cell: UVec2, side: Side, dir: LeftRight, ground: &Grid<bool>)
    requires
        ground.wf(),
        is_filled(ground, cell),
        spec_ground_set(ground, cell, spec_diagonal(side, dir)),
    ensures
        spec_checked_add(cell, side.art_direction()) is Some,
        ({
            let corner_cell = spec_checked_add(cell, side.art_direction())->0;
            let corner = match dir {
                LeftRight::Left => side.flip().rotate_right_corner(),
                LeftRight::Right => side.flip().rotate_left_corner(),
            };
            &&& touches(cell, corner_cell)
            &&& spec_ground_set(ground, corner_cell, corner.rotate_left_side().art_direction())
            &&& spec_ground_set(ground, corner_cell, corner.rotate_right_side().art_direction())
        }),
{
    let corner_cell = spec_checked_add(cell, side.art_direction())->0;
    let beyond = spec_filled_at(ground, cell, spec_diagonal(side, dir))->0;
    match side {
        Side::Top => {
            assert(spec_checked_add_inside(ground.spec_size(), corner_cell, Side::Bottom.art_direction())
                == Some(cell));
        },
        Side::Right => {
            assert(spec_checked_add_inside(ground.spec_size(), corner_cell, Side::Left.art_direction())
                == Some(cell));
        },
        Side::Bottom => {
            assert(spec_checked_add_inside(ground.spec_size(), corner_cell, Side::Top.art_direction())
                == Some(cell));
        },
        Side::Left => {
            assert(spec_checked_add_inside(ground.spec_size(), corner_cell, Side::Right.art_direction())
                == Some(cell));
        },
    }
    match (side, dir) {
        (Side::Top, LeftRight::Left) => {
            assert(spec_checked_add_inside(ground.spec_size(), corner_cell, Side::Left.art_direction())
                == Some(beyond));
        },
        (Side::Top, LeftRight::Right) => {
            assert(spec_checked_add_inside(ground.spec_size(), corner_cell, Side::Right.art_direction())
                == Some(beyond));
        },
        (Side::Right, LeftRight::Left) => {
            assert(spec_checked_add_inside(ground.spec_size(), corner_cell, Side::Top.art_direction())
                == Some(beyond));
        },
        (Side::Right, LeftRight::Right) => {
            assert(spec_checked_add_inside(ground.spec_size(), corner_cell, Side::Bottom.art_direction())
                == Some(beyond));
        },
        (Side::Bottom, LeftRight::Left) => {
            assert(spec_checked_add_inside(ground.spec_size(), corner_cell, Side::Right.art_direction())
                == Some(beyond));
        },
        (Side::Bottom, LeftRight::Right) => {
            assert(spec_checked_add_inside(ground.spec_size(), corner_cell, Side::Left.art_direction())
                == Some(beyond));
        },
        (Side::Left, LeftRight::Left) => {
            assert(spec_checked_add_inside(ground.spec_size(), corner_cell, Side::Bottom.art_direction())
                == Some(beyond));
        },
        (Side::Left, LeftRight::Right) => {
            assert(spec_checked_add_inside(ground.spec_size(), corner_cell, Side::Top.art_direction())
                == Some(beyond));
        },
    }
}

/// A cart on a side that has ground under it keeps it, fills nothing, and
/// does not fail for want of room or of a pixel.
proof fn lemma_on_side_keeps_grounded(
    cell: UVec2,
    side: Side,
    distance: i32,
    to: int,
    ground: &Grid<bool>,
    zip_path: Option<ZipPath>,
    next_pixel: Option<UVec2>,
)
    requires
        grounded(Cart::OnSide { cell, side, distance }, ground, zip_path),
    ensures
        arrive_on_side(cell, side, distance, to, ground, zip_path, next_pixel) matches Ok(s) ==> {
            &&& grounded(s.cart, ground, s.zip_path)
            &&& s.filled is None
        },
        !(arrive_on_side(cell, side, distance, to, ground, zip_path, next_pixel) matches Err(
            WalkError::OutOfBounds,
        )),
        !(arrive_on_side(cell, side, distance, to, ground, zip_path, next_pixel) matches Err(
            WalkError::NoNextPixel,
        )),
{
    let arrived = arrive_on_side(cell, side, distance, to, ground, zip_path, next_pixel);
    let middle = spec_crossed(0, distance as int, to);
    if middle && zip_path is Some && zip_path->0.start == (Edge { pos: cell, side }) {
        assert(arrived is Ok && arrived->Ok_0.cart is Zipping);
    } else if middle && next_pixel is Some && next_pixel == spec_checked_add(
        cell,
        side.art_direction(),
    ) {
        assert(arrived is Ok && arrived->Ok_0.cart is Falling);
    } else if middle && to < 0 && spec_ground_set(
        ground,
        cell,
        spec_diagonal(side, LeftRight::Left),
    ) {
        lemma_corner_entry(cell, side, LeftRight::Left, ground);
        assert(arrived matches Ok(s) ==> s.cart is OnInsideCorner);
    } else if middle && to >= 0 && spec_ground_set(
        ground,
        cell,
        spec_diagonal(side, LeftRight::Right),
    ) {
        lemma_corner_entry(cell, side, LeftRight::Right, ground);
        assert(arrived matches Ok(s) ==> s.cart is OnInsideCorner);
    } else if to < -CART_HEIGHT {
        let beside = spec_filled_at(ground, cell, side.rotate_left().art_direction());
        assert(arrived matches Ok(s) ==> is_filled(ground, s.cart.cell()) && (s.cart is OnSide
            || s.cart is OnOutsideCorner));
    } else if to > CART_HEIGHT {
        let beside = spec_filled_at(ground, cell, side.rotate_right().art_direction());
        assert(arrived matches Ok(s) ==> is_filled(ground, s.cart.cell()) && (s.cart is OnSide
            || s.cart is OnOutsideCorner));
    } else {
        assert(arrived matches Ok(s) ==> s.cart is OnSide && s.cart.cell() == cell);
    }
}

/// A cart on a convex corner that has ground under it keeps it and stays
/// on its cell.
proof fn lemma_on_outside_corner_keeps_grounded(
    cell: UVec2,
    corner: Corner,
    distance: i32,
    to: int,
    ground: &Grid<bool>,
    zip_path: Option<ZipPath>,
)
    requires
        grounded(Cart::OnOutsideCorner { cell, corner, distance }, ground, zip_path),
    ensures
        arrive_on_outside_corner(cell, corner, to, zip_path) matches Ok(s) ==> {
            &&& grounded(s.cart, ground, s.zip_path)
            &&& s.filled is None
            &&& s.cart.cell() == cell
        },
        !(arrive_on_outside_corner(cell, corner, to, zip_path) matches Err(WalkError::OutOfBounds)),
        !(arrive_on_outside_corner(cell, corner, to, zip_path) matches Err(WalkError::NoNextPixel)),
{
}

/// A cart in a concave corner that is bounded by filled cells keeps ground
/// under it and does not fail for want of room.
proof fn lemma_on_inside_corner_keeps_grounded(
    cell: UVec2,
    corner: Corner,
    distance: i32,
    to: int,
    ground: &Grid<bool>,
    zip_path: Option<ZipPath>,
)
    requires
        grounded(Cart::OnInsideCorner { cell, corner, distance }, ground, zip_path),
    ensures
        arrive_on_inside_corner(cell, corner, to, ground, zip_path) matches Ok(s) ==> {
            &&& grounded(s.cart, ground, s.zip_path)
            &&& s.filled is None
            &&& touches(cell, s.cart.cell())
        },
        !(arrive_on_inside_corner(cell, corner, to, ground, zip_path) matches Err(
            WalkError::OutOfBounds,
        )),
        !(arrive_on_inside_corner(cell, corner, to, ground, zip_path) matches Err(
            WalkError::NoNextPixel,
        )),
{
    match corner {
        Corner::TopLeft => {},
        Corner::TopRight => {},
        Corner::BottomRight => {},
        Corner::BottomLeft => {},
    }
}

/// A falling cart that has ground under it keeps it, and fills no cell but
/// the one it comes to.
proof fn lemma_falling_keeps_grounded(
    cell: UVec2,
    side: Side,
    to: int,
    speed: int,
    finished_drawing: bool,
    ground: &Grid<bool>,
    zip_path: Option<ZipPath>,
    after: &Grid<bool>,
)
    requires
        grounded(
            Cart::Falling { cell, side, offset: 0, velocity: 0, finished_drawing },
            ground,
            zip_path,
        ),
        arrive_falling(cell, side, to, speed, finished_drawing, ground, zip_path) is Ok,
        is_ground_after(
            ground,
            arrive_falling(cell, side, to, speed, finished_drawing, ground, zip_path)->Ok_0.filled,
            after,
        ),
    ensures
        ({
            let s = arrive_falling(cell, side, to, speed, finished_drawing, ground, zip_path)->Ok_0;
            &&& grounded(s.cart, after, s.zip_path)
            &&& touches(cell, s.cart.cell())
            &&& s.filled matches Some(new) ==> s.cart.cell() == new && ground.contains(new)
        }),
{
    let s = arrive_falling(cell, side, to, speed, finished_drawing, ground, zip_path)->Ok_0;
    lemma_ground_grows(ground, s.filled, after, cell);
    if to > UNIT {
        let beyond = spec_checked_add_inside(ground.spec_size(), cell, side.art_direction())->0;
        lemma_ground_grows(ground, s.filled, after, beyond);
        if spec_ground_set(ground, beyond, side.art_direction()) {
            lemma_ground_set_stays(ground, s.filled, after, beyond, side.art_direction());
        }
    } else if finished_drawing {
        lemma_ground_set_stays(ground, s.filled, after, cell, side.art_direction());
    }
}

/// A zipping cart that arrives inside the grid has ground under it once it
/// has arrived.
proof fn lemma_zipping_keeps_grounded(
    cell: UVec2,
    side: Side,
    start: Edge,
    end: Edge,
    rotation: i32,
    lasted: int,
    over: bool,
    ground: &Grid<bool>,
    zip_path: Option<ZipPath>,
    next_pixel: Option<UVec2>,
    after: &Grid<bool>,
)
    requires
        ground.wf(),
        ground.contains(cell),
        zip_path matches Some(path) ==> ground.contains(path.end.pos),
        arrive_zipping(
            cell,
            side,
            start,
            end,
            rotation,
            lasted,
            over,
            ground,
            zip_path,
            next_pixel,
        ) is Ok,
        is_ground_after(
            ground,
            arrive_zipping(
                cell,
                side,
                start,
                end,
                rotation,
                lasted,
                over,
                ground,
                zip_path,
                next_pixel,
            )->Ok_0.filled,
            after,
        ),
    ensures
        ({
            let s = arrive_zipping(
                cell,
                side,
                start,
                end,
                rotation,
                lasted,
                over,
                ground,
                zip_path,
                next_pixel,
            )->Ok_0;
            &&& grounded(s.cart, after, s.zip_path)
            &&& s.cart.cell() == cell
            &&& s.filled matches Some(new) ==> s.cart.cell() == new && ground.contains(new)
        }),
{
    let s = arrive_zipping(
        cell,
        side,
        start,
        end,
        rotation,
        lasted,
        over,
        ground,
        zip_path,
        next_pixel,
    )->Ok_0;
    lemma_ground_grows(ground, s.filled, after, cell);
}

/// A tick keeps the ground under the cart: from a cart that has ground under
/// it, every tick that succeeds leads to one that has.
pub proof fn lemma_step_keeps_grounded(
    cart: Cart,
    ground: &Grid<bool>,
    zip_path: Option<ZipPath>,
    input: Tick,
    after: &Grid<bool>,
)
    requires
        grounded(cart, ground, zip_path),
        step(cart, ground, zip_path, input) is Ok,
        is_ground_after(ground, step(cart, ground, zip_path, input)->Ok_0.filled, after),
    ensures
        grounded(
            step(cart, ground, zip_path, input)->Ok_0.cart,
            after,
            step(cart, ground, zip_path, input)->Ok_0.zip_path,
        ),
{
    let s = step(cart, ground, zip_path, input)->Ok_0;
    match cart {
        Cart::OnSide { cell, side, distance } => {
            if let Some(dir) = input.direction {
                lemma_on_side_keeps_grounded(
                    cell,
                    side,
                    distance,
                    spec_travel(distance, dir, input.dt),
                    ground,
                    zip_path,
                    input.next_pixel,
                );
            }
            assert(after@ == ground@);
            lemma_same_ground(ground, after, s.cart, s.zip_path);
        },
        Cart::OnOutsideCorner { cell, corner, distance } => {
            if let Some(dir) = input.direction {
                lemma_on_outside_corner_keeps_grounded(
                    cell,
                    corner,
                    distance,
                    spec_travel(distance, dir, input.dt),
                    ground,
                    zip_path,
                );
            }
            lemma_same_ground(ground, after, s.cart, s.zip_path);
        },
        Cart::OnInsideCorner { cell, corner, distance } => {
            if let Some(dir) = input.direction {
                lemma_on_inside_corner_keeps_grounded(
                    cell,
                    corner,
                    distance,
                    spec_travel(distance, dir.not(), input.dt),
                    ground,
                    zip_path,
                );
            }
            lemma_same_ground(ground, after, s.cart, s.zip_path);
        },
        Cart::Falling { cell, side, offset, velocity, finished_drawing } => {
            let speed = velocity + input.dt * FALL_SPEED;
            lemma_falling_keeps_grounded(
                cell,
                side,
                offset + speed * input.dt,
                speed,
                finished_drawing,
                ground,
                zip_path,
                after,
            );
        },
        Cart::Zipping { cell, side, start, end, rotation, elapsed } => {
            let lasted = elapsed + input.dt;
            lemma_zipping_keeps_grounded(
                cell,
                side,
                start,
                end,
                rotation,
                lasted,
                zip_finished(
                    lasted,
                    distance_squared(start.cart_world_pos(), end.cart_world_pos()),
                ),
                ground,
                zip_path,
                input.next_pixel,
                after,
            );
        },
    }
}

/// A cart that has ground under it has it on every ground with the same
/// cells.
proof fn lemma_same_ground(
    ground: &Grid<bool>,
    after: &Grid<bool>,
    cart: Cart,
    zip_path: Option<ZipPath>,
)
    requires
        grounded(cart, ground, zip_path),
        is_ground_after(ground, None, after),
    ensures
        grounded(cart, after, zip_path),
{
}

/// From a cart that has ground under it a tick fails only where a number
/// leaves its range, where a pixel is to be drawn outside the grid, or where a
/// zip ends and no pixel is left.
pub proof fn lemma_step_fails_only_for_cause(
    cart: Cart,
    ground: &Grid<bool>,
    zip_path: Option<ZipPath>,
    input: Tick,
)
    requires
        grounded(cart, ground, zip_path),
    ensures
        match step(cart, ground, zip_path, input) {
            Ok(_) => true,
            Err(WalkError::OutOfRange) => true,
            Err(WalkError::NoNextPixel) => cart is Zipping && input.next_pixel is None,
            Err(WalkError::OutOfBounds) => cart matches Cart::Falling {
                cell,
                side,
                finished_drawing,
                ..
            } && !finished_drawing && spec_checked_add_inside(
                ground.spec_size(),
                cell,
                side.art_direction(),
            ) is None,
        },
{
    match cart {
        Cart::OnSide { cell, side, distance } => {
            if let Some(dir) = input.direction {
                lemma_on_side_keeps_grounded(
                    cell,
                    side,
                    distance,
                    spec_travel(distance, dir, input.dt),
                    ground,
                    zip_path,
                    input.next_pixel,
                );
            }
        },
        Cart::OnOutsideCorner { cell, corner, distance } => {
            if let Some(dir) = input.direction {
                lemma_on_outside_corner_keeps_grounded(
                    cell,
                    corner,
                    distance,
                    spec_travel(distance, dir, input.dt),
                    ground,
                    zip_path,
                );
            }
        },
        Cart::OnInsideCorner { cell, corner, distance } => {
            if let Some(dir) = input.direction {
                lemma_on_inside_corner_keeps_grounded(
                    cell,
                    corner,
                    distance,
                    spec_travel(distance, dir.not(), input.dt),
                    ground,
                    zip_path,
                );
            }
        },
        Cart::Falling { .. } => {},
        Cart::Zipping { .. } => {},
    }
}

/// Only a fall and the end of a zip fill a cell, and the cell they fill is
/// the one on which the cart then stands or goes on falling.
pub proof fn lemma_step_fills_under_the_cart(
    cart: Cart,
    ground: &Grid<bool>,
    zip_path: Option<ZipPath>,
    input: Tick,
)
    ensures
        step(cart, ground, zip_path, input) matches Ok(s) ==> (s.filled matches Some(cell) ==> {
            &&& cart is Falling || cart is Zipping
            &&& s.cart.cell() == cell
            &&& ground.contains(cell)
        }),
{
    match cart {
        Cart::OnSide { cell, side, distance } => {
            if let Some(dir) = input.direction {
                lemma_arrive_on_side(
                    cell,
                    side,
                    distance,
                    spec_travel(distance, dir, input.dt),
                    ground,
                    zip_path,
                    input.next_pixel,
                );
            }
        },
        Cart::OnOutsideCorner { .. } => {},
        Cart::OnInsideCorner { .. } => {},
        Cart::Falling { .. } => {},
        Cart::Zipping { .. } => {},
    }
}

/// A cart that has moved on a side and is on a side still has kept its side;
/// where it has stepped over to the neighbouring cell, its distance is
/// counted from the middle of that cell, one cell further along. In any case
/// it fills nothing, leaves the shortcut as it is, and either starts a zip or
/// is on a cell that touches its own.
pub proof fn lemma_arrive_on_side(
    cell: UVec2,
    side: Side,
    distance: i32,
    to: int,
    ground: &Grid<bool>,
    zip_path: Option<ZipPath>,
    next_pixel: Option<UVec2>,
)
    ensures
        arrive_on_side(cell, side, distance, to, ground, zip_path, next_pixel) matches Ok(s) ==> {
            &&& s.filled is None
            &&& s.zip_path == zip_path
            &&& touches(cell, s.cart.cell()) || s.cart is Zipping
            &&& s.cart matches Cart::OnSide { cell: cell2, side: side2, distance: distance2 } ==> {
                &&& side2 == side
                &&& {
                    ||| cell2 == cell && distance2 == to
                    ||| Some(cell2) == spec_filled_at(
                        ground,
                        cell,
                        side.rotate_right().art_direction(),
                    ) && distance2 == to - UNIT
                    ||| Some(cell2) == spec_filled_at(
                        ground,
                        cell,
                        side.rotate_left().art_direction(),
                    ) && distance2 == to + UNIT
                }
            }
        },
{
    match side {
        Side::Top => {},
        Side::Right => {},
        Side::Bottom => {},
        Side::Left => {},
    }
}

/// Which of its five states a cart is in.
pub open spec fn state_of(cart: Cart) -> int {
    match cart {
        Cart::OnSide { .. } => 0,
        Cart::OnOutsideCorner { .. } => 1,
        Cart::OnInsideCorner { .. } => 2,
        Cart::Falling { .. } => 3,
        Cart::Zipping { .. } => 4,
    }
}

/// Every change of state leads from a side or to a side: a cart on a corner,
/// a falling and a zipping cart stay as they are until they are on a side
/// again.
pub proof fn lemma_every_change_passes_a_side(
    cart: Cart,
    ground: &Grid<bool>,
    zip_path: Option<ZipPath>,
    input: Tick,
)
    ensures
        step(cart, ground, zip_path, input) matches Ok(s) ==> {
            ||| state_of(s.cart) == state_of(cart)
            ||| cart is OnSide
            ||| s.cart is OnSide
        },
{
}

/// The cart does not jump: but for the start of a zip, a tick leaves the
/// cart on its cell or takes it to one that touches it.
pub proof fn lemma_step_does_not_jump(
    cart: Cart,
    ground: &Grid<bool>,
    zip_path: Option<ZipPath>,
    input: Tick,
)
    ensures
        step(cart, ground, zip_path, input) matches Ok(s) ==> {
            ||| touches(cart.cell(), s.cart.cell())
            ||| cart is OnSide && s.cart is Zipping
        },
{
    match cart {
        Cart::OnSide { cell, side, distance } => {
            if let Some(dir) = input.direction {
                lemma_arrive_on_side(
                    cell,
                    side,
                    distance,
                    spec_travel(distance, dir, input.dt),
                    ground,
                    zip_path,
                    input.next_pixel,
                );
            }
        },
        Cart::OnOutsideCorner { .. } => {},
        Cart::OnInsideCorner { cell, corner, distance } => {
            if let Some(dir) = input.direction {
                lemma_arrive_on_inside_corner(
                    cell,
                    corner,
                    spec_travel(distance, dir.not(), input.dt),
                    ground,
                    zip_path,
                );
            }
        },
        Cart::Falling { cell, side, .. } => {
            match side {
                Side::Top => {},
                Side::Right => {},
                Side::Bottom => {},
                Side::Left => {},
            }
        },
        Cart::Zipping { .. } => {},
    }
}

/// A cart that has moved in a concave corner is in that cell still or on a
/// cell beside it.
pub proof fn lemma_arrive_on_inside_corner(
    cell: UVec2,
    corner: Corner,
    to: int,
    ground: &Grid<bool>,
    zip_path: Option<ZipPath>,
)
    ensures
        arrive_on_inside_corner(cell, corner, to, ground, zip_path) matches Ok(s) ==> {
            &&& s.filled is None
            &&& s.zip_path == zip_path
            &&& touches(cell, s.cart.cell())
        },
{
    match corner {
        Corner::TopLeft => {},
        Corner::TopRight => {},
        Corner::BottomRight => {},
        Corner::BottomLeft => {},
    }
}

/// A cart that is on a side before and after a tick has kept its side and
/// has moved by `SPEED * dt` toward the held direction; where it has stepped
/// over to the neighbouring cell, its distance is counted from the middle of
/// that cell, one cell further along.
pub proof fn lemma_on_side_tracks_input(
    cell: UVec2,
    side: Side,
    distance: i32,
    ground: &Grid<bool>,
    zip_path: Option<ZipPath>,
    input: Tick,
)
    ensures
        step(Cart::OnSide { cell, side, distance }, ground, zip_path, input) matches Ok(s) ==> (
        s.cart matches Cart::OnSide { cell: cell2, side: side2, distance: distance2 } ==> {
            let way = match input.direction {
                Some(dir) => sign(dir) * input.dt * SPEED,
                None => 0,
            };
            &&& side2 == side
            &&& {
                ||| cell2 == cell && distance2 == distance + way
                ||| Some(cell2) == spec_filled_at(ground, cell, side.rotate_right().art_direction())
                    && distance2 == distance + way - UNIT
                ||| Some(cell2) == spec_filled_at(ground, cell, side.rotate_left().art_direction())
                    && distance2 == distance + way + UNIT
            }
        }),
{
    if let Some(dir) = input.direction {
        lemma_arrive_on_side(
            cell,
            side,
            distance,
            spec_travel(distance, dir, input.dt),
            ground,
            zip_path,
            input.next_pixel,
        );
    }
}

/// The speed and the offset of a cart that has fallen from rest for `ticks`
/// ticks of `dt` milliseconds each.
pub open spec fn fallen(ticks: nat, dt: int) -> (int, int)
    decreases ticks,
{
    if ticks == 0 {
        (0, 0)
    } else {
        let (speed, offset) = fallen((ticks - 1) as nat, dt);
        (speed + dt * FALL_SPEED, offset + (speed + dt * FALL_SPEED) * dt)
    }
}

/// A cart that falls from rest in equal ticks has, after the time `t` in all,
/// the speed `FALL_SPEED * t`, and its offset is that of a steady fall,
/// `FALL_SPEED * t * t / 2`, and half of what the last tick added on top.
pub proof fn lemma_fall_from_rest(ticks: nat, dt: int)
    ensures
        fallen(ticks, dt).0 == FALL_SPEED * (ticks * dt),
        2 * fallen(ticks, dt).1 == FALL_SPEED * ((ticks * dt) * (ticks * dt)) + FALL_SPEED * ((ticks
            * dt) * dt),
    decreases ticks,
{
    let t = ticks * dt;
    if ticks == 0 {
        assert(t == 0) by (nonlinear_arith)
            requires
                t == ticks * dt,
                ticks == 0,
        ;
        assert(t * t == 0 && t * dt == 0) by (nonlinear_arith)
            requires
                t == 0,
        ;
    } else {
        let earlier = (ticks - 1) as nat;
        lemma_fall_from_rest(earlier, dt);
        let (speed, offset) = fallen(earlier, dt);
        let b = earlier * dt;
        assert(b == t - dt) by (nonlinear_arith)
            requires
                b == earlier * dt,
                t == ticks * dt,
                earlier == ticks - 1,
        ;
        assert(b * b == t * t - 2 * (t * dt) + dt * dt && b * dt == t * dt - dt * dt)
            by (nonlinear_arith)
            requires
                b == t - dt,
        ;
        let faster = speed + dt * FALL_SPEED;
        assert(faster == 2 * t);
        assert(faster * dt == 2 * (t * dt)) by (nonlinear_arith)
            requires
                faster == 2 * t,
        ;
        assert(fallen(ticks, dt) == (faster, offset + faster * dt));
    }
}

/// One tick of a fall that does not reach the next cell takes the cart from
/// what it has after `ticks` ticks from rest to what it has after one more.
pub proof fn lemma_fall_goes_on(
    cell: UVec2,
    side: Side,
    finished_drawing: bool,
    ground: &Grid<bool>,
    zip_path: Option<ZipPath>,
    input: Tick,
    ticks: nat,
)
    requires
        fits(fallen(ticks, input.dt as int).0),
        fits(fallen(ticks, input.dt as int).1),
        fits(fallen(ticks + 1, input.dt as int).0),
        fits(fallen(ticks + 1, input.dt as int).1),
        fallen(ticks + 1, input.dt as int).1 <= UNIT,
    ensures
        step_falling(
            cell,
            side,
            fallen(ticks, input.dt as int).1 as i32,
            fallen(ticks, input.dt as int).0 as i32,
            finished_drawing,
            ground,
            zip_path,
            input,
        ) == Ok::<Step, WalkError>(
            Step {
                cart: Cart::Falling {
                    cell,
                    side,
                    offset: fallen(ticks + 1, input.dt as int).1 as i32,
                    velocity: fallen(ticks + 1, input.dt as int).0 as i32,
                    finished_drawing,
                },
                filled: None,
                zip_path,
                changed: true,
                drawing: None,
            },
        ),
{
    assert(((ticks + 1) - 1) as nat == ticks);
}

} // verus!
