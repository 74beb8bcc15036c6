//! One tick of the cart: what it does, and the code that does it.
//!
//! Nothing moves a cart on a side or on a corner but a held direction; a
//! falling or zipping cart moves with the time alone. A tick fails rather
//! than put the cart where it cannot be: out of the grid, or further from
//! its cell than its numbers can say.

use vstd::prelude::*;
use crate::cart::{
    crossed,
    distance_squared,
    drawing_start,
    fits,
    sign,
    spec_crossed,
    spec_drawing_start,
    zip_finished,
    zip_is_finished,
    Cart,
    DrawingPixel,
    Step,
    Tick,
    WalkError,
    ZipPath,
    CART_HEIGHT,
    FALL_SPEED,
    SPEED,
};
use crate::grid::Grid;
use crate::ground::{
    checked_add,
    checked_add_inside,
    diagonal,
    filled_at,
    ground_set,
    spec_checked_add,
    spec_checked_add_inside,
    spec_diagonal,
    spec_filled_at,
    spec_ground_set,
};
use crate::side::{Corner, Edge, LeftRight, Side};
use crate::vector::{UVec2, UNIT};

verus! {

pub open spec fn on_side(cell: UVec2, side: Side, distance: int) -> Result<Cart, WalkError> {
    if fits(distance) {
        Ok(Cart::OnSide { cell, side, distance: distance as i32 })
    } else {
        Err(WalkError::OutOfRange)
    }
}

pub open spec fn on_outside_corner(cell: UVec2, corner: Corner, distance: int) -> Result<
    Cart,
    WalkError,
> {
    if fits(distance) {
        Ok(Cart::OnOutsideCorner { cell, corner, distance: distance as i32 })
    } else {
        Err(WalkError::OutOfRange)
    }
}

pub open spec fn on_inside_corner(cell: UVec2, corner: Corner, distance: int) -> Result<
    Cart,
    WalkError,
> {
    if fits(distance) {
        Ok(Cart::OnInsideCorner { cell, corner, distance: distance as i32 })
    } else {
        Err(WalkError::OutOfRange)
    }
}

pub open spec fn falling(
    cell: UVec2,
    side: Side,
    offset: int,
    velocity: int,
    finished_drawing: bool,
) -> Result<Cart, WalkError> {
    if fits(offset) && fits(velocity) {
        Ok(
            Cart::Falling {
                cell,
                side,
                offset: offset as i32,
                velocity: velocity as i32,
                finished_drawing,
            },
        )
    } else {
        Err(WalkError::OutOfRange)
    }
}

/// A tick that only moves the cart: nothing is filled, nothing starts to
/// grow, the shortcut stays.
pub open spec fn moved(cart: Result<Cart, WalkError>, zip_path: Option<ZipPath>, changed: bool) -> Result<
    Step,
    WalkError,
> {
    match cart {
        Ok(cart) => Ok(Step { cart, filled: None, zip_path, changed, drawing: None }),
        Err(e) => Err(e),
    }
}

/// Where a cart at `distance` is after it has moved toward `dir` for `dt`
/// milliseconds.
pub open spec fn spec_travel(distance: i32, dir: LeftRight, dt: u32) -> int {
    distance + sign(dir) * dt * SPEED
}

/// What becomes of a cart on a side that has moved from `distance` to `to`.
///
/// Where the move touches or passes the middle of the side, the cart, in this
/// order, starts the installed shortcut if it begins at this edge; starts to
/// fall if the next pixel lies straight beyond the side; turns into the
/// concave corner on the side it is heading for, if the diagonal neighbour
/// there is filled. Otherwise, once the cart is more than `CART_HEIGHT` from
/// the middle, it either has a filled neighbour beside it, and steps over to
/// it once it is more than half a cell out, or it turns around the convex
/// corner.
pub open spec fn arrive_on_side(
    cell: UVec2,
    side: Side,
    distance: i32,
    to: int,
    ground: &Grid<bool>,
    zip_path: Option<ZipPath>,
    next_pixel: Option<UVec2>,
) -> Result<Step, WalkError> {
    let middle = spec_crossed(0, distance as int, to);
    if middle && zip_path is Some && zip_path->0.start == (Edge { pos: cell, side }) {
        let path = zip_path->0;
        moved(
            Ok(
                Cart::Zipping {
                    cell: path.end.pos,
                    side: path.end.side,
                    start: path.start,
                    end: path.end,
                    rotation: path.start.side.angle_between(path.end.side),
                    elapsed: 0,
                },
            ),
            zip_path,
            false,
        )
    } else if middle && next_pixel is Some && next_pixel == spec_checked_add(
        cell,
        side.art_direction(),
    ) {
        Ok(
            Step {
                cart: Cart::Falling {
                    cell,
                    side,
                    offset: 0,
                    velocity: 0,
                    finished_drawing: false,
                },
                filled: None,
                zip_path,
                changed: false,
                drawing: Some(
                    DrawingPixel { start_pos: spec_drawing_start(cell, side), grow_dir: side },
                ),
            },
        )
    } else if middle && to < 0 && spec_ground_set(
        ground,
        cell,
        spec_diagonal(side, LeftRight::Left),
    ) {
        moved(
            on_inside_corner(
                spec_checked_add(cell, side.art_direction())->0,
                side.flip().rotate_right_corner(),
                -to,
            ),
            zip_path,
            false,
        )
    } else if middle && to >= 0 && spec_ground_set(
        ground,
        cell,
        spec_diagonal(side, LeftRight::Right),
    ) {
        moved(
            on_inside_corner(
                spec_checked_add(cell, side.art_direction())->0,
                side.flip().rotate_left_corner(),
                UNIT - CART_HEIGHT - to,
            ),
            zip_path,
            false,
        )
    } else if to < -CART_HEIGHT {
        match spec_filled_at(ground, cell, side.rotate_left().art_direction()) {
            Some(beside) => if to < -(UNIT / 2) {
                moved(on_side(beside, side, to + UNIT), zip_path, true)
            } else {
                moved(on_side(cell, side, to), zip_path, true)
            },
            None => moved(
                on_outside_corner(cell, side.rotate_left_corner(), to + UNIT),
                zip_path,
                true,
            ),
        }
    } else if to > CART_HEIGHT {
        match spec_filled_at(ground, cell, side.rotate_right().art_direction()) {
            Some(beside) => if to > UNIT / 2 {
                moved(on_side(beside, side, to - UNIT), zip_path, true)
            } else {
                moved(on_side(cell, side, to), zip_path, true)
            },
            None => moved(
                on_outside_corner(cell, side.rotate_right_corner(), to - CART_HEIGHT),
                zip_path,
                true,
            ),
        }
    } else {
        moved(on_side(cell, side, to), zip_path, true)
    }
}

/// A tick of a cart on a side: nothing happens without a direction, and else
/// the cart moves by `SPEED * dt` toward it.
pub open spec fn step_on_side(
    cell: UVec2,
    side: Side,
    distance: i32,
    ground: &Grid<bool>,
    zip_path: Option<ZipPath>,
    input: Tick,
) -> Result<Step, WalkError> {
    match input.direction {
        None => moved(Ok(Cart::OnSide { cell, side, distance }), zip_path, false),
        Some(dir) => arrive_on_side(
            cell,
            side,
            distance,
            spec_travel(distance, dir, input.dt),
            ground,
            zip_path,
            input.next_pixel,
        ),
    }
}

/// What becomes of a cart on a convex corner that has moved to `to`: it
/// leaves the corner for the side on its left below 0, for the side on its
/// right above `UNIT - CART_HEIGHT`.
pub open spec fn arrive_on_outside_corner(
    cell: UVec2,
    corner: Corner,
    to: int,
    zip_path: Option<ZipPath>,
) -> Result<Step, WalkError> {
    if to < 0 {
        moved(on_side(cell, corner.rotate_left_side(), CART_HEIGHT + to), zip_path, true)
    } else if to > UNIT - CART_HEIGHT {
        moved(on_side(cell, corner.rotate_right_side(), to - UNIT), zip_path, true)
    } else {
        moved(on_outside_corner(cell, corner, to), zip_path, true)
    }
}

/// A tick of a cart on a convex corner: nothing happens without a direction,
/// and else the cart moves by `SPEED * dt` toward it.
pub open spec fn step_on_outside_corner(
    cell: UVec2,
    corner: Corner,
    distance: i32,
    zip_path: Option<ZipPath>,
    input: Tick,
) -> Result<Step, WalkError> {
    match input.direction {
        None => moved(Ok(Cart::OnOutsideCorner { cell, corner, distance }), zip_path, false),
        Some(dir) => arrive_on_outside_corner(
            cell,
            corner,
            spec_travel(distance, dir, input.dt),
            zip_path,
        ),
    }
}

/// What becomes of a cart in a concave corner that has moved to `to`. At
/// either end it turns on into the next concave corner where the cell beyond
/// that end is filled, and else leaves for the outer face of the neighbour
/// that bounds the corner there.
pub open spec fn arrive_on_inside_corner(
    cell: UVec2,
    corner: Corner,
    to: int,
    ground: &Grid<bool>,
    zip_path: Option<ZipPath>,
) -> Result<Step, WalkError> {
    if to < 0 {
        let side = corner.rotate_left_side();
        if spec_ground_set(ground, cell, side.rotate_left().art_direction()) {
            moved(
                on_inside_corner(cell, corner.rotate_left(), to + (UNIT - CART_HEIGHT)),
                zip_path,
                true,
            )
        } else {
            match spec_checked_add(cell, side.art_direction()) {
                Some(beside) => moved(on_side(beside, side.flip(), -to), zip_path, true),
                None => Err(WalkError::OutOfBounds),
            }
        }
    } else if to > UNIT - CART_HEIGHT {
        let side = corner.rotate_right_side();
        if spec_ground_set(ground, cell, side.rotate_right().art_direction()) {
            moved(
                on_inside_corner(cell, corner.rotate_right(), to - (UNIT - CART_HEIGHT)),
                zip_path,
                true,
            )
        } else {
            match spec_checked_add(cell, side.art_direction()) {
                Some(beside) => moved(
                    on_side(beside, side.flip(), UNIT - CART_HEIGHT - to),
                    zip_path,
                    true,
                ),
                None => Err(WalkError::OutOfBounds),
            }
        }
    } else {
        moved(on_inside_corner(cell, corner, to), zip_path, true)
    }
}

/// A tick of a cart in a concave corner: nothing happens without a
/// direction, and else the cart moves by `SPEED * dt` against it.
pub open spec fn step_on_inside_corner(
    cell: UVec2,
    corner: Corner,
    distance: i32,
    ground: &Grid<bool>,
    zip_path: Option<ZipPath>,
    input: Tick,
) -> Result<Step, WalkError> {
    match input.direction {
        None => moved(Ok(Cart::OnInsideCorner { cell, corner, distance }), zip_path, false),
        Some(dir) => arrive_on_inside_corner(
            cell,
            corner,
            spec_travel(distance, dir.not(), input.dt),
            ground,
            zip_path,
        ),
    }
}

/// What becomes of a falling cart that has reached the offset `to` at the
/// speed `speed`. Once the offset is more than a cell, the cart moves on to
/// the next cell beyond its side, which is marked as filled unless that was
/// done before, and stands on it unless the cell beyond is filled too.
pub open spec fn arrive_falling(
    cell: UVec2,
    side: Side,
    to: int,
    speed: int,
    finished_drawing: bool,
    ground: &Grid<bool>,
    zip_path: Option<ZipPath>,
) -> Result<Step, WalkError> {
    if to > UNIT {
        match spec_checked_add_inside(ground.spec_size(), cell, side.art_direction()) {
            Some(beyond) => {
                let cart = if spec_ground_set(ground, beyond, side.art_direction()) {
                    falling(beyond, side, to, speed, true)
                } else {
                    on_side(beyond, side, 0)
                };
                match cart {
                    Ok(cart) => Ok(
                        Step {
                            cart,
                            filled: if finished_drawing {
                                None
                            } else {
                                Some(beyond)
                            },
                            zip_path,
                            changed: true,
                            drawing: None,
                        },
                    ),
                    Err(e) => Err(e),
                }
            },
            None => Err(WalkError::OutOfBounds),
        }
    } else {
        moved(falling(cell, side, to, speed, finished_drawing), zip_path, true)
    }
}

/// A tick of a falling cart: the speed grows by `FALL_SPEED * dt`, then the
/// offset by the new speed times `dt`.
pub open spec fn step_falling(
    cell: UVec2,
    side: Side,
    offset: i32,
    velocity: i32,
    finished_drawing: bool,
    ground: &Grid<bool>,
    zip_path: Option<ZipPath>,
    input: Tick,
) -> Result<Step, WalkError> {
    let speed = velocity + input.dt * FALL_SPEED;
    arrive_falling(
        cell,
        side,
        offset + speed * input.dt,
        speed,
        finished_drawing,
        ground,
        zip_path,
    )
}

/// What becomes of a zipping cart whose zip has lasted `lasted` milliseconds
/// and is over or not. Once the zip is over, the cell of arrival is marked as
/// filled, the shortcut is removed, and the cart stands in the middle of the
/// edge of arrival; a pixel starts to grow there if that cell is the next
/// pixel.
pub open spec fn arrive_zipping(
    cell: UVec2,
    side: Side,
    start: Edge,
    end: Edge,
    rotation: i32,
    lasted: int,
    over: bool,
    ground: &Grid<bool>,
    zip_path: Option<ZipPath>,
    next_pixel: Option<UVec2>,
) -> Result<Step, WalkError> {
    if over {
        if !ground.contains(cell) {
            Err(WalkError::OutOfBounds)
        } else if next_pixel is None {
            Err(WalkError::NoNextPixel)
        } else {
            Ok(
                Step {
                    cart: Cart::OnSide { cell, side, distance: 0 },
                    filled: Some(cell),
                    zip_path: None,
                    changed: true,
                    drawing: if next_pixel == Some(cell) {
                        Some(DrawingPixel { start_pos: spec_drawing_start(cell, side), grow_dir: side })
                    } else {
                        None
                    },
                },
            )
        }
    } else {
        moved(
            Ok(Cart::Zipping { cell, side, start, end, rotation, elapsed: lasted as u32 }),
            zip_path,
            true,
        )
    }
}

/// A tick of a zipping cart: the zip lasts `dt` longer, and is over by the
/// rule of `zip_finished`.
pub open spec fn step_zipping(
    cell: UVec2,
    side: Side,
    start: Edge,
    end: Edge,
    rotation: i32,
    elapsed: u32,
    ground: &Grid<bool>,
    zip_path: Option<ZipPath>,
    input: Tick,
) -> Result<Step, WalkError> {
    let lasted = elapsed + input.dt;
    arrive_zipping(
        cell,
        side,
        start,
        end,
        rotation,
        lasted,
        zip_finished(lasted, distance_squared(start.cart_world_pos(), end.cart_world_pos())),
        ground,
        zip_path,
        input.next_pixel,
    )
}

/// What a tick does to a cart on the given ground with the given shortcut
/// installed, or why the tick fails.
pub open spec fn step(cart: Cart, ground: &Grid<bool>, zip_path: Option<ZipPath>, input: Tick) -> Result<
    Step,
    WalkError,
> {
    match cart {
        Cart::OnSide { cell, side, distance } => step_on_side(
            cell,
            side,
            distance,
            ground,
            zip_path,
            input,
        ),
        Cart::OnOutsideCorner { cell, corner, distance } => step_on_outside_corner(
            cell,
            corner,
            distance,
            zip_path,
            input,
        ),
        Cart::OnInsideCorner { cell, corner, distance } => step_on_inside_corner(
            cell,
            corner,
            distance,
            ground,
            zip_path,
            input,
        ),
        Cart::Falling { cell, side, offset, velocity, finished_drawing } => step_falling(
            cell,
            side,
            offset,
            velocity,
            finished_drawing,
            ground,
            zip_path,
            input,
        ),
        Cart::Zipping { cell, side, start, end, rotation, elapsed } => step_zipping(
            cell,
            side,
            start,
            end,
            rotation,
            elapsed,
            ground,
            zip_path,
            input,
        ),
    }
}

/// `v` as a number that the cart can hold, if it can.
fn narrow(v: i128) -> (r: Option<i32>)
    ensures
        r == (if fits(v as int) {
            Some(v as i32)
        } else {
            None
        }),
{
    if -0x8000_0000 <= v && v <= 0x7fff_ffff {
        Some(v as i32)
    } else {
        None
    }
}

/// The cart on a side at `distance`, if it can hold that distance.
fn place_on_side(cell: UVec2, side: Side, distance: i128) -> (cart: Result<Cart, WalkError>)
    ensures
        cart == on_side(cell, side, distance as int),
{
    match narrow(distance) {
        Some(distance) => Ok(Cart::OnSide { cell, side, distance }),
        None => Err(WalkError::OutOfRange),
    }
}

/// The cart on a convex corner at `distance`, if it can hold that distance.
fn place_on_outside_corner(cell: UVec2, corner: Corner, distance: i128) -> (cart: Result<
    Cart,
    WalkError,
>)
    ensures
        cart == on_outside_corner(cell, corner, distance as int),
{
    match narrow(distance) {
        Some(distance) => Ok(Cart::OnOutsideCorner { cell, corner, distance }),
        None => Err(WalkError::OutOfRange),
    }
}

/// The cart in a concave corner at `distance`, if it can hold that distance.
fn place_on_inside_corner(cell: UVec2, corner: Corner, distance: i128) -> (cart: Result<
    Cart,
    WalkError,
>)
    ensures
        cart == on_inside_corner(cell, corner, distance as int),
{
    match narrow(distance) {
        Some(distance) => Ok(Cart::OnInsideCorner { cell, corner, distance }),
        None => Err(WalkError::OutOfRange),
    }
}

/// The falling cart with the given offset and speed, if it can hold them.
fn place_falling(
    cell: UVec2,
    side: Side,
    offset: i128,
    velocity: i128,
    finished_drawing: bool,
) -> (cart: Result<Cart, WalkError>)
    ensures
        cart == falling(cell, side, offset as int, velocity as int, finished_drawing),
{
    match (narrow(offset), narrow(velocity)) {
        (Some(offset), Some(velocity)) => Ok(
            Cart::Falling { cell, side, offset, velocity, finished_drawing },
        ),
        _ => Err(WalkError::OutOfRange),
    }
}

/// A step that only moves the cart.
fn only_moved(cart: Result<Cart, WalkError>, zip_path: Option<ZipPath>, changed: bool) -> (step:
    Result<Step, WalkError>)
    ensures
        step == moved(cart, zip_path, changed),
        step matches Ok(s) ==> s.filled is None,
{
    match cart {
        Ok(cart) => Ok(Step { cart, filled: None, zip_path, changed, drawing: None }),
        Err(e) => Err(e),
    }
}

/// Where a cart at `distance` is after it has moved toward `dir` for `dt`
/// milliseconds.
fn travel(distance: i32, dir: LeftRight, dt: u32) -> (to: i128)
    ensures
        to == spec_travel(distance, dir, dt),
        -0x4000_0000_0000 <= to <= 0x4000_0000_0000,
{
    let way: i128 = dt as i128 * SPEED as i128;
    match dir {
        LeftRight::Left => distance as i128 - way,
        LeftRight::Right => distance as i128 + way,
    }
}

/// Whether `candidate` is a cell, and the cell `cell`.
fn is_cell(candidate: Option<UVec2>, cell: Option<UVec2>) -> (same: bool)
    ensures
        same == (candidate is Some && candidate == cell),
{
    match (candidate, cell) {
        (Some(a), Some(b)) => a == b,
        _ => false,
    }
}

/// Works out `step_on_side`.
fn tick_on_side(
    cell: UVec2,
    side: Side,
    distance: i32,
    ground: &Grid<bool>,
    zip_path: Option<ZipPath>,
    input: Tick,
) -> (step: Result<Step, WalkError>)
    ensures
        step == step_on_side(cell, side, distance, ground, zip_path, input),
        step matches Ok(s) ==> s.filled is None,
{
    let dir = match input.direction {
        Some(dir) => dir,
        None => {
            return only_moved(Ok(Cart::OnSide { cell, side, distance }), zip_path, false);
        },
    };
    let to = travel(distance, dir, input.dt);
    if crossed(0, distance as i64, to as i64) {
        if let Some(path) = zip_path {
            if path.start == (Edge { pos: cell, side }) {
                return only_moved(
                    Ok(
                        Cart::Zipping {
                            cell: path.end.pos,
                            side: path.end.side,
                            start: path.start,
                            end: path.end,
                            rotation: path.start.side.angle_between(path.end.side),
                            elapsed: 0,
                        },
                    ),
                    zip_path,
                    false,
                );
            }
        }
        let ahead = checked_add(cell, side.art_direction());
        if is_cell(input.next_pixel, ahead) {
            return Ok(
                Step {
                    cart: Cart::Falling {
                        cell,
                        side,
                        offset: 0,
                        velocity: 0,
                        finished_drawing: false,
                    },
                    filled: None,
                    zip_path,
                    changed: false,
                    drawing: Some(
                        DrawingPixel { start_pos: drawing_start(cell, side), grow_dir: side },
                    ),
                },
            );
        }
        if to < 0 {
            if ground_set(ground, cell, diagonal(side, LeftRight::Left)) {
                if let Some(corner_cell) = ahead {
                    return only_moved(
                        place_on_inside_corner(
                            corner_cell,
                            side.flip().rotate_right_corner(),
                            -to,
                        ),
                        zip_path,
                        false,
                    );
                }
            }
        } else if ground_set(ground, cell, diagonal(side, LeftRight::Right)) {
            if let Some(corner_cell) = ahead {
                return only_moved(
                    place_on_inside_corner(
                        corner_cell,
                        side.flip().rotate_left_corner(),
                        (UNIT - CART_HEIGHT) as i128 - to,
                    ),
                    zip_path,
                    false,
                );
            }
        }
    }
    if to < -(CART_HEIGHT as i128) {
        match filled_at(ground, cell, side.rotate_left().art_direction()) {
            Some(beside) => if to < -((UNIT / 2) as i128) {
                only_moved(place_on_side(beside, side, to + UNIT as i128), zip_path, true)
            } else {
                only_moved(place_on_side(cell, side, to), zip_path, true)
            },
            None => only_moved(
                place_on_outside_corner(cell, side.rotate_left_corner(), to + UNIT as i128),
                zip_path,
                true,
            ),
        }
    } else if to > CART_HEIGHT as i128 {
        match filled_at(ground, cell, side.rotate_right().art_direction()) {
            Some(beside) => if to > (UNIT / 2) as i128 {
                only_moved(place_on_side(beside, side, to - UNIT as i128), zip_path, true)
            } else {
                only_moved(place_on_side(cell, side, to), zip_path, true)
            },
            None => only_moved(
                place_on_outside_corner(
                    cell,
                    side.rotate_right_corner(),
                    to - CART_HEIGHT as i128,
                ),
                zip_path,
                true,
            ),
        }
    } else {
        only_moved(place_on_side(cell, side, to), zip_path, true)
    }
}

/// Works out `step_on_outside_corner`.
fn tick_on_outside_corner(
    cell: UVec2,
    corner: Corner,
    distance: i32,
    zip_path: Option<ZipPath>,
    input: Tick,
) -> (step: Result<Step, WalkError>)
    ensures
        step == step_on_outside_corner(cell, corner, distance, zip_path, input),
        step matches Ok(s) ==> s.filled is None,
{
    match input.direction {
        None => only_moved(Ok(Cart::OnOutsideCorner { cell, corner, distance }), zip_path, false),
        Some(dir) => {
            let to = travel(distance, dir, input.dt);
            if to < 0 {
                only_moved(
                    place_on_side(cell, corner.rotate_left_side(), CART_HEIGHT as i128 + to),
                    zip_path,
                    true,
                )
            } else if to > (UNIT - CART_HEIGHT) as i128 {
                only_moved(
                    place_on_side(cell, corner.rotate_right_side(), to - UNIT as i128),
                    zip_path,
                    true,
                )
            } else {
                only_moved(place_on_outside_corner(cell, corner, to), zip_path, true)
            }
        },
    }
}

/// Works out `step_on_inside_corner`.
fn tick_on_inside_corner(
    cell: UVec2,
    corner: Corner,
    distance: i32,
    ground: &Grid<bool>,
    zip_path: Option<ZipPath>,
    input: Tick,
) -> (step: Result<Step, WalkError>)
    ensures
        step == step_on_inside_corner(cell, corner, distance, ground, zip_path, input),
        step matches Ok(s) ==> s.filled is None,
{
    match input.direction {
        None => only_moved(Ok(Cart::OnInsideCorner { cell, corner, distance }), zip_path, false),
        Some(dir) => {
            let to = travel(distance, dir.not(), input.dt);
            let turn = (UNIT - CART_HEIGHT) as i128;
            if to < 0 {
                let side = corner.rotate_left_side();
                if ground_set(ground, cell, side.rotate_left().art_direction()) {
                    only_moved(
                        place_on_inside_corner(cell, corner.rotate_left(), to + turn),
                        zip_path,
                        true,
                    )
                } else {
                    match checked_add(cell, side.art_direction()) {
                        Some(beside) => only_moved(
                            place_on_side(beside, side.flip(), -to),
                            zip_path,
                            true,
                        ),
                        None => Err(WalkError::OutOfBounds),
                    }
                }
            } else if to > turn {
                let side = corner.rotate_right_side();
                if ground_set(ground, cell, side.rotate_right().art_direction()) {
                    only_moved(
                        place_on_inside_corner(cell, corner.rotate_right(), to - turn),
                        zip_path,
                        true,
                    )
                } else {
                    match checked_add(cell, side.art_direction()) {
                        Some(beside) => only_moved(
                            place_on_side(beside, side.flip(), turn - to),
                            zip_path,
                            true,
                        ),
                        None => Err(WalkError::OutOfBounds),
                    }
                }
            } else {
                only_moved(place_on_inside_corner(cell, corner, to), zip_path, true)
            }
        },
    }
}

/// Works out `step_falling`.
fn tick_falling(
    cell: UVec2,
    side: Side,
    offset: i32,
    velocity: i32,
    finished_drawing: bool,
    ground: &Grid<bool>,
    zip_path: Option<ZipPath>,
    input: Tick,
) -> (step: Result<Step, WalkError>)
    ensures
        step == step_falling(
            cell,
            side,
            offset,
            velocity,
            finished_drawing,
            ground,
            zip_path,
            input,
        ),        step matches Ok(s) ==> (s.filled matches Some(filled) ==> ground.contains(filled)),
{
    let dt: i128 = input.dt as i128;
    let speed: i128 = velocity as i128 + dt * FALL_SPEED as i128;
    assert(-0x4_0000_0000_0000_0000 <= speed * dt <= 0x4_0000_0000_0000_0000) by (nonlinear_arith)
        requires
            -0x4_0000_0000 <= speed <= 0x4_0000_0000,
            0 <= dt <= 0x1_0000_0000,
    ;
    let to: i128 = offset as i128 + speed * dt;
    if to > UNIT as i128 {
        match checked_add_inside(ground.size(), cell, side.art_direction()) {
            Some(beyond) => {
                let cart = if ground_set(ground, beyond, side.art_direction()) {
                    place_falling(beyond, side, to, speed, true)
                } else {
                    place_on_side(beyond, side, 0)
                };
                match cart {
                    Ok(cart) => Ok(
                        Step {
                            cart,
                            filled: if finished_drawing {
                                None
                            } else {
                                Some(beyond)
                            },
                            zip_path,
                            changed: true,
                            drawing: None,
                        },
                    ),
                    Err(e) => Err(e),
                }
            },
            None => Err(WalkError::OutOfBounds),
        }
    } else {
        only_moved(place_falling(cell, side, to, speed, finished_drawing), zip_path, true)
    }
}

/// Works out `step_zipping`.
fn tick_zipping(
    cell: UVec2,
    side: Side,
    start: Edge,
    end: Edge,
    rotation: i32,
    elapsed: u32,
    ground: &Grid<bool>,
    zip_path: Option<ZipPath>,
    input: Tick,
) -> (step: Result<Step, WalkError>)
    ensures
        step == step_zipping(cell, side, start, end, rotation, elapsed, ground, zip_path, input),
        step matches Ok(s) ==> (s.filled matches Some(filled) ==> ground.contains(filled)),
{
    let lasted: u64 = elapsed as u64 + input.dt as u64;
    if zip_is_finished(lasted, start, end) {
        if !(cell.x < ground.width() && cell.y < ground.height()) {
            Err(WalkError::OutOfBounds)
        } else if input.next_pixel.is_none() {
            Err(WalkError::NoNextPixel)
        } else {
            Ok(
                Step {
                    cart: Cart::OnSide { cell, side, distance: 0 },
                    filled: Some(cell),
                    zip_path: None,
                    changed: true,
                    drawing: if is_cell(input.next_pixel, Some(cell)) {
                        Some(DrawingPixel { start_pos: drawing_start(cell, side), grow_dir: side })
                    } else {
                        None
                    },
                },
            )
        }
    } else {
        only_moved(
            Ok(Cart::Zipping { cell, side, start, end, rotation, elapsed: lasted as u32 }),
            zip_path,
            true,
        )
    }
}

/// Works out what a tick does to a cart on the given ground with the given
/// shortcut installed.
pub fn take_step(cart: Cart, ground: &Grid<bool>, zip_path: Option<ZipPath>, input: Tick) -> (taken:
    Result<Step, WalkError>)
    ensures
        taken == step(cart, ground, zip_path, input),
        taken matches Ok(s) ==> (s.filled matches Some(filled) ==> ground.contains(filled)),
{
    match cart {
        Cart::OnSide { cell, side, distance } => tick_on_side(
            cell,
            side,
            distance,
            ground,
            zip_path,
            input,
        ),
        Cart::OnOutsideCorner { cell, corner, distance } => tick_on_outside_corner(
            cell,
            corner,
            distance,
            zip_path,
            input,
        ),
        Cart::OnInsideCorner { cell, corner, distance } => tick_on_inside_corner(
            cell,
            corner,
            distance,
            ground,
            zip_path,
            input,
        ),
        Cart::Falling { cell, side, offset, velocity, finished_drawing } => tick_falling(
            cell,
            side,
            offset,
            velocity,
            finished_drawing,
            ground,
            zip_path,
            input,
        ),
        Cart::Zipping { cell, side, start, end, rotation, elapsed } => tick_zipping(
            cell,
            side,
            start,
            end,
            rotation,
            elapsed,
            ground,
            zip_path,
            input,
        ),
    }
}

} // verus!
