use pixel_cart::cart::{Cart, DrawingPixel, Moved, Tick, WalkError, ZipPath};
use pixel_cart::walker::Walker;
use pixel_cart::grid::Grid;
use pixel_cart::side::{Corner, Edge, LeftRight, Side};
use pixel_cart::vector::{UVec2, Vec2};

fn ground(width: usize, rows: &[&str]) -> Grid<bool> {
    let mut cells = Vec::new();
    for row in rows {
        for c in row.chars() {
            cells.push(c == '#');
        }
    }
    Grid::from_vec(cells, width)
}

fn walker(cart: Cart, width: usize, rows: &[&str]) -> Walker {
    Walker { cart, ground: ground(width, rows), zip_path: None }
}

fn right(dt: u32) -> Tick {
    Tick { direction: Some(LeftRight::Right), dt, next_pixel: None }
}

fn left(dt: u32) -> Tick {
    Tick { direction: Some(LeftRight::Left), dt, next_pixel: None }
}

fn idle(dt: u32) -> Tick {
    Tick { direction: None, dt, next_pixel: None }
}

#[test]
fn a_lap_around_a_square_comes_back() {
    let start = UVec2::new(0, 0);
    let mut w = walker(
        Cart::OnSide { cell: start, side: Side::Top, distance: 0 },
        2,
        &["##", "##"],
    );
    let mut corners = 0;
    let mut was_on_corner = false;
    let mut home = false;
    for _ in 0..10_000 {
        let before = w.cart;
        w.tick(right(10)).unwrap();
        let on_corner = matches!(w.cart, Cart::OnOutsideCorner { .. });
        assert!(!matches!(w.cart, Cart::OnInsideCorner { .. } | Cart::Falling { .. } | Cart::Zipping { .. }));
        if on_corner && !was_on_corner {
            corners += 1;
        }
        was_on_corner = on_corner;
        if corners == 4 {
            if let (
                Cart::OnSide { distance: d0, side: Side::Top, .. },
                Cart::OnSide { cell, side: Side::Top, distance: d1 },
            ) = (before, w.cart)
            {
                if d0 <= 0 && d1 >= 0 {
                    assert_eq!(cell, start);
                    home = true;
                    break;
                }
            }
        }
    }
    assert!(home);
    assert_eq!(corners, 4);
}

#[test]
fn falling_adds_up_speed_and_offset() {
    let mut w = walker(
        Cart::Falling {
            cell: UVec2::new(0, 9),
            side: Side::Top,
            offset: 0,
            velocity: 0,
            finished_drawing: false,
        },
        1,
        &[".", ".", ".", ".", ".", ".", ".", ".", ".", "#"],
    );
    for n in 1..=10i32 {
        let moved = w.tick(idle(10)).unwrap();
        assert_eq!(moved, Moved { changed: true, drawing: None });
        assert_eq!(
            w.cart,
            Cart::Falling {
                cell: UVec2::new(0, 9),
                side: Side::Top,
                offset: 100 * n * (n + 1),
                velocity: 20 * n,
                finished_drawing: false,
            }
        );
    }
    // After 100 ms the offset is that of a steady fall, 0.5 * 2 * 100 * 100,
    // and the share of the last step on top.
    assert_eq!(
        w.cart,
        Cart::Falling {
            cell: UVec2::new(0, 9),
            side: Side::Top,
            offset: 10_000 + 1_000,
            velocity: 200,
            finished_drawing: false,
        }
    );
}

#[test]
fn falling_lands_on_the_new_cell_and_fills_it() {
    let mut w = walker(
        Cart::Falling {
            cell: UVec2::new(0, 2),
            side: Side::Top,
            offset: 999_000,
            velocity: 100,
            finished_drawing: false,
        },
        1,
        &[".", ".", "#"],
    );
    let moved = w.tick(idle(10)).unwrap();
    assert_eq!(moved, Moved { changed: true, drawing: None });
    assert_eq!(w.cart, Cart::OnSide { cell: UVec2::new(0, 1), side: Side::Top, distance: 0 });
    assert!(*w.ground.get(UVec2::new(0, 1)));
    assert!(!*w.ground.get(UVec2::new(0, 0)));
    assert!(*w.ground.get(UVec2::new(0, 2)));
}

#[test]
fn falling_goes_on_through_filled_cells() {
    let mut w = walker(
        Cart::Falling {
            cell: UVec2::new(0, 3),
            side: Side::Top,
            offset: 999_000,
            velocity: 100,
            finished_drawing: false,
        },
        1,
        &[".", "#", ".", "#"],
    );
    w.tick(idle(10)).unwrap();
    assert_eq!(
        w.cart,
        Cart::Falling {
            cell: UVec2::new(0, 2),
            side: Side::Top,
            offset: 999_000 + 120 * 10,
            velocity: 120,
            finished_drawing: true,
        }
    );
    assert!(*w.ground.get(UVec2::new(0, 2)));
    w.tick(idle(0)).unwrap();
    assert_eq!(w.cart, Cart::OnSide { cell: UVec2::new(0, 1), side: Side::Top, distance: 0 });
}

#[test]
fn falling_off_the_grid_fails() {
    let cart = Cart::Falling {
        cell: UVec2::new(0, 0),
        side: Side::Top,
        offset: 999_000,
        velocity: 100,
        finished_drawing: false,
    };
    let mut w = walker(cart, 1, &["#"]);
    assert_eq!(w.tick(idle(10)), Err(WalkError::OutOfBounds));
    assert_eq!(w.cart, cart);
    assert!(*w.ground.get(UVec2::new(0, 0)));
}

#[test]
fn nothing_moves_without_a_direction() {
    let cart = Cart::OnSide { cell: UVec2::new(0, 0), side: Side::Top, distance: 5 };
    let mut w = walker(cart, 1, &["#"]);
    assert_eq!(w.tick(idle(100)), Ok(Moved { changed: false, drawing: None }));
    assert_eq!(w.cart, cart);
    let cart = Cart::OnOutsideCorner { cell: UVec2::new(0, 0), corner: Corner::TopLeft, distance: 5 };
    w.cart = cart;
    assert_eq!(w.tick(idle(100)), Ok(Moved { changed: false, drawing: None }));
    assert_eq!(w.cart, cart);
    let cart = Cart::OnInsideCorner { cell: UVec2::new(0, 0), corner: Corner::TopLeft, distance: 5 };
    w.cart = cart;
    assert_eq!(w.tick(idle(100)), Ok(Moved { changed: false, drawing: None }));
    assert_eq!(w.cart, cart);
}

#[test]
fn on_side_moves_three_cells_a_second() {
    let mut w = walker(
        Cart::OnSide { cell: UVec2::new(1, 0), side: Side::Top, distance: 10_000 },
        3,
        &["###"],
    );
    assert_eq!(w.tick(right(16)), Ok(Moved { changed: true, drawing: None }));
    assert_eq!(w.cart, Cart::OnSide { cell: UVec2::new(1, 0), side: Side::Top, distance: 58_000 });
    assert_eq!(w.tick(left(5)), Ok(Moved { changed: true, drawing: None }));
    assert_eq!(w.cart, Cart::OnSide { cell: UVec2::new(1, 0), side: Side::Top, distance: 43_000 });
}

#[test]
fn on_side_steps_over_to_the_neighbour() {
    let mut w = walker(
        Cart::OnSide { cell: UVec2::new(1, 0), side: Side::Top, distance: 490_000 },
        3,
        &["###"],
    );
    w.tick(right(10)).unwrap();
    assert_eq!(w.cart, Cart::OnSide { cell: UVec2::new(2, 0), side: Side::Top, distance: -480_000 });
    w.cart = Cart::OnSide { cell: UVec2::new(1, 0), side: Side::Top, distance: -490_000 };
    w.tick(left(10)).unwrap();
    assert_eq!(w.cart, Cart::OnSide { cell: UVec2::new(0, 0), side: Side::Top, distance: 480_000 });
    // Exactly half a cell out is not yet over.
    w.cart = Cart::OnSide { cell: UVec2::new(1, 0), side: Side::Top, distance: 470_000 };
    w.tick(right(10)).unwrap();
    assert_eq!(w.cart, Cart::OnSide { cell: UVec2::new(1, 0), side: Side::Top, distance: 500_000 });
}

#[test]
fn on_side_turns_around_a_convex_corner() {
    let mut w = walker(
        Cart::OnSide { cell: UVec2::new(0, 0), side: Side::Top, distance: 190_000 },
        1,
        &["#"],
    );
    w.tick(right(10)).unwrap();
    assert_eq!(
        w.cart,
        Cart::OnOutsideCorner { cell: UVec2::new(0, 0), corner: Corner::TopRight, distance: 20_000 }
    );
    w.cart = Cart::OnSide { cell: UVec2::new(0, 0), side: Side::Top, distance: -190_000 };
    w.tick(left(10)).unwrap();
    assert_eq!(
        w.cart,
        Cart::OnOutsideCorner { cell: UVec2::new(0, 0), corner: Corner::TopLeft, distance: 780_000 }
    );
}

#[test]
fn outside_corner_leaves_for_either_side() {
    let mut w = walker(
        Cart::OnOutsideCorner { cell: UVec2::new(0, 0), corner: Corner::TopRight, distance: 790_000 },
        1,
        &["#"],
    );
    assert_eq!(w.tick(right(10)), Ok(Moved { changed: true, drawing: None }));
    assert_eq!(w.cart, Cart::OnSide { cell: UVec2::new(0, 0), side: Side::Right, distance: -180_000 });
    w.cart = Cart::OnOutsideCorner { cell: UVec2::new(0, 0), corner: Corner::TopRight, distance: 10_000 };
    w.tick(left(10)).unwrap();
    assert_eq!(w.cart, Cart::OnSide { cell: UVec2::new(0, 0), side: Side::Top, distance: 180_000 });
    w.cart = Cart::OnOutsideCorner { cell: UVec2::new(0, 0), corner: Corner::TopRight, distance: 10_000 };
    w.tick(right(10)).unwrap();
    assert_eq!(
        w.cart,
        Cart::OnOutsideCorner { cell: UVec2::new(0, 0), corner: Corner::TopRight, distance: 40_000 }
    );
}

#[test]
fn on_side_turns_into_a_concave_corner() {
    // The cart stands on top of (0, 1); the cell up and to the right is filled.
    let rows = [".#", "##"];
    let mut w = walker(
        Cart::OnSide { cell: UVec2::new(0, 1), side: Side::Top, distance: -10_000 },
        2,
        &rows,
    );
    assert_eq!(w.tick(right(10)), Ok(Moved { changed: false, drawing: None }));
    assert_eq!(
        w.cart,
        Cart::OnInsideCorner { cell: UVec2::new(0, 0), corner: Corner::BottomRight, distance: 780_000 }
    );
    // Coming from the right on top of (1, 1), with (0, 0) filled.
    let rows = ["#.", "##"];
    let mut w = walker(
        Cart::OnSide { cell: UVec2::new(1, 1), side: Side::Top, distance: 10_000 },
        2,
        &rows,
    );
    assert_eq!(w.tick(left(10)), Ok(Moved { changed: false, drawing: None }));
    assert_eq!(
        w.cart,
        Cart::OnInsideCorner { cell: UVec2::new(1, 0), corner: Corner::BottomLeft, distance: 20_000 }
    );
}

#[test]
fn inside_corner_moves_against_the_input_and_leaves() {
    let rows = ["#.", "##"];
    let mut w = walker(
        Cart::OnInsideCorner { cell: UVec2::new(1, 0), corner: Corner::BottomLeft, distance: 20_000 },
        2,
        &rows,
    );
    w.tick(left(10)).unwrap();
    assert_eq!(
        w.cart,
        Cart::OnInsideCorner { cell: UVec2::new(1, 0), corner: Corner::BottomLeft, distance: 50_000 }
    );
    w.tick(right(20)).unwrap();
    // Below 0 the cart leaves over the left side of the corner, the bottom:
    // it stands on top of the cell below.
    assert_eq!(w.cart, Cart::OnSide { cell: UVec2::new(1, 1), side: Side::Top, distance: 10_000 });
    w.cart = Cart::OnInsideCorner { cell: UVec2::new(1, 0), corner: Corner::BottomLeft, distance: 790_000 };
    w.tick(left(10)).unwrap();
    // Above the end it leaves over the right side of the corner, the left:
    // it stands on the right face of the cell to the left.
    assert_eq!(w.cart, Cart::OnSide { cell: UVec2::new(0, 0), side: Side::Right, distance: -20_000 });
}

#[test]
fn inside_corner_turns_on_into_the_next_corner() {
    // A pit: (1, 0) is empty, with filled cells to the left, below and to the right.
    let rows = ["#.#", "###"];
    let mut w = walker(
        Cart::OnInsideCorner { cell: UVec2::new(1, 0), corner: Corner::BottomLeft, distance: 10_000 },
        3,
        &rows,
    );
    w.tick(right(10)).unwrap();
    assert_eq!(
        w.cart,
        Cart::OnInsideCorner { cell: UVec2::new(1, 0), corner: Corner::BottomRight, distance: 780_000 }
    );
    w.tick(left(10)).unwrap();
    assert_eq!(
        w.cart,
        Cart::OnInsideCorner { cell: UVec2::new(1, 0), corner: Corner::BottomLeft, distance: 10_000 }
    );
}

#[test]
fn inside_corner_at_the_rim_fails() {
    let cart = Cart::OnInsideCorner { cell: UVec2::new(0, 0), corner: Corner::TopLeft, distance: 10_000 };
    let mut w = walker(cart, 1, &["."]);
    assert_eq!(w.tick(right(10)), Err(WalkError::OutOfBounds));
    assert_eq!(w.cart, cart);
}

#[test]
fn passing_the_middle_starts_the_fall_toward_the_next_pixel() {
    let mut w = walker(
        Cart::OnSide { cell: UVec2::new(0, 1), side: Side::Top, distance: -10_000 },
        1,
        &[".", "#"],
    );
    let tick = Tick { direction: Some(LeftRight::Right), dt: 10, next_pixel: Some(UVec2::new(0, 0)) };
    let moved = w.tick(tick).unwrap();
    assert_eq!(
        moved,
        Moved {
            changed: false,
            drawing: Some(DrawingPixel { start_pos: Vec2::new(0, -500_000), grow_dir: Side::Top }),
        }
    );
    assert_eq!(
        w.cart,
        Cart::Falling {
            cell: UVec2::new(0, 1),
            side: Side::Top,
            offset: 0,
            velocity: 0,
            finished_drawing: false,
        }
    );
}

#[test]
fn passing_the_middle_starts_the_installed_zip() {
    let mut w = walker(
        Cart::OnSide { cell: UVec2::new(0, 0), side: Side::Right, distance: 10_000 },
        4,
        &["#..#"],
    );
    let path = ZipPath {
        start: Edge::new(UVec2::new(0, 0), Side::Right),
        end: Edge::new(UVec2::new(3, 0), Side::Top),
    };
    w.zip_path = Some(path);
    // The fall would be due too, but the zip comes first.
    let tick = Tick { direction: Some(LeftRight::Left), dt: 10, next_pixel: Some(UVec2::new(1, 0)) };
    assert_eq!(w.tick(tick), Ok(Moved { changed: false, drawing: None }));
    assert_eq!(
        w.cart,
        Cart::Zipping {
            cell: UVec2::new(3, 0),
            side: Side::Top,
            start: path.start,
            end: path.end,
            rotation: 90,
            elapsed: 0,
        }
    );
    assert_eq!(w.zip_path, Some(path));
}

#[test]
fn zip_ends_when_its_time_is_up() {
    // From the right face of (0, 0) to the left face of (3, 0): the carts are
    // 1.8 cells apart, so the zip lasts sqrt(1.8) / 1.8 seconds, about 745.4 ms.
    let start = Edge::new(UVec2::new(0, 0), Side::Right);
    let end = Edge::new(UVec2::new(3, 0), Side::Left);
    let zipping = |elapsed| Cart::Zipping {
        cell: UVec2::new(3, 0),
        side: Side::Left,
        start,
        end,
        rotation: 180,
        elapsed,
    };
    let mut w = walker(zipping(0), 4, &["#..."]);
    w.zip_path = Some(ZipPath { start, end });
    let tick = Tick { direction: None, dt: 745, next_pixel: Some(UVec2::new(3, 0)) };
    assert_eq!(w.tick(tick), Ok(Moved { changed: true, drawing: None }));
    assert_eq!(w.cart, zipping(745));
    assert!(!*w.ground.get(UVec2::new(3, 0)));
    let tick = Tick { direction: None, dt: 1, next_pixel: Some(UVec2::new(3, 0)) };
    assert_eq!(
        w.tick(tick),
        Ok(Moved {
            changed: true,
            drawing: Some(DrawingPixel { start_pos: Vec2::new(2_500_000, 0), grow_dir: Side::Left }),
        })
    );
    assert_eq!(w.cart, Cart::OnSide { cell: UVec2::new(3, 0), side: Side::Left, distance: 0 });
    assert!(*w.ground.get(UVec2::new(3, 0)));
    assert_eq!(w.zip_path, None);
}

#[test]
fn zip_end_without_a_next_pixel_fails() {
    let start = Edge::new(UVec2::new(0, 0), Side::Right);
    let end = Edge::new(UVec2::new(3, 0), Side::Left);
    let cart = Cart::Zipping {
        cell: UVec2::new(3, 0),
        side: Side::Left,
        start,
        end,
        rotation: 180,
        elapsed: 745,
    };
    let mut w = walker(cart, 4, &["#..."]);
    assert_eq!(w.tick(idle(1)), Err(WalkError::NoNextPixel));
    assert_eq!(w.cart, cart);
    assert!(!*w.ground.get(UVec2::new(3, 0)));
    let outside = Cart::Zipping {
        cell: UVec2::new(4, 0),
        side: Side::Left,
        start,
        end,
        rotation: 180,
        elapsed: 745,
    };
    w.cart = outside;
    assert_eq!(w.tick(idle(1)), Err(WalkError::OutOfBounds));
}

#[test]
fn distance_beyond_the_range_fails() {
    let cart = Cart::OnSide { cell: UVec2::new(0, 0), side: Side::Top, distance: i32::MAX - 10 };
    let mut w = walker(cart, 2, &["##"]);
    assert_eq!(w.tick(right(1_000_000)), Err(WalkError::OutOfRange));
    assert_eq!(w.cart, cart);
}

#[test]
fn start_stands_on_the_first_pixel() {
    let w = Walker::start(UVec2::new(3, 2), UVec2::new(2, 1));
    assert_eq!(w.cart, Cart::OnSide { cell: UVec2::new(2, 1), side: Side::Top, distance: 0 });
    assert_eq!(w.zip_path, None);
    assert_eq!(w.ground.size(), UVec2::new(3, 2));
    for y in 0..2 {
        for x in 0..3 {
            assert_eq!(*w.ground.get(UVec2::new(x, y)), (x, y) == (2, 1));
        }
    }
}

fn cell_of(cart: Cart) -> UVec2 {
    match cart {
        Cart::OnSide { cell, .. }
        | Cart::OnOutsideCorner { cell, .. }
        | Cart::OnInsideCorner { cell, .. }
        | Cart::Falling { cell, .. }
        | Cart::Zipping { cell, .. } => cell,
    }
}

#[test]
fn the_cart_keeps_ground_under_it_and_does_not_jump() {
    // A staircase with concave and convex corners.
    let rows = ["#...", "##..", "###.", "####"];
    let mut w = walker(
        Cart::OnSide { cell: UVec2::new(0, 0), side: Side::Top, distance: 0 },
        4,
        &rows,
    );
    let mut inside = 0;
    let mut outside = 0;
    for i in 0..20_000u32 {
        let before = w.cart;
        // Mostly to the right, with a stretch to the left now and then.
        let tick = if i % 1_000 < 900 { right(7) } else { left(7) };
        w.tick(tick).unwrap();
        let (a, b) = (cell_of(before), cell_of(w.cart));
        assert!(a.x.abs_diff(b.x) <= 1 && a.y.abs_diff(b.y) <= 1);
        match w.cart {
            Cart::OnSide { cell, .. } | Cart::OnOutsideCorner { cell, .. } => {
                assert!(*w.ground.get(cell));
            }
            Cart::OnInsideCorner { cell, .. } => {
                assert!(!*w.ground.get(cell));
            }
            Cart::Falling { .. } | Cart::Zipping { .. } => panic!("nothing is drawn here"),
        }
        if !matches!(before, Cart::OnInsideCorner { .. }) && matches!(w.cart, Cart::OnInsideCorner { .. }) {
            inside += 1;
        }
        if !matches!(before, Cart::OnOutsideCorner { .. }) && matches!(w.cart, Cart::OnOutsideCorner { .. }) {
            outside += 1;
        }
    }
    assert!(inside > 3);
    assert!(outside > 3);
    assert_eq!(w.ground, ground(4, &rows));
}

#[test]
fn a_drawn_picture_is_walked_and_filled() {
    // The cart draws a column upward from (0, 3): each next pixel lies
    // straight above the cart.
    let mut w = Walker::start(UVec2::new(1, 4), UVec2::new(0, 3));
    for y in (0..3).rev() {
        let next = Some(UVec2::new(0, y));
        // Passing the middle starts the fall.
        let moved = w.tick(Tick { direction: Some(LeftRight::Right), dt: 1, next_pixel: next }).unwrap();
        assert!(moved.drawing.is_some());
        assert!(matches!(w.cart, Cart::Falling { finished_drawing: false, .. }));
        let mut ticks = 0;
        while matches!(w.cart, Cart::Falling { .. }) {
            let moved = w.tick(Tick { direction: None, dt: 16, next_pixel: next }).unwrap();
            assert!(moved.changed);
            ticks += 1;
            assert!(ticks < 100);
        }
        // A fall over one cell takes a second: 2 * t * t / 2 = 1.
        assert!(ticks > 55 && ticks < 65);
        assert_eq!(w.cart, Cart::OnSide { cell: UVec2::new(0, y), side: Side::Top, distance: 0 });
        assert!(*w.ground.get(UVec2::new(0, y)));
    }
    let moved = w.tick(Tick { direction: Some(LeftRight::Right), dt: 1, next_pixel: None }).unwrap();
    assert_eq!(moved, Moved { changed: true, drawing: None });
}
