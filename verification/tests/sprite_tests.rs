use pixel_cart::cart::{
    cart_distance_squared, crossed, direction, drawing_start, zip_is_finished, Cart, DrawingPixel,
    Step, Tick, WalkError, ZipPath, CART_HEIGHT, FALL_SPEED, SPEED,
};
use pixel_cart::grid::Grid;
use pixel_cart::side::{Corner, Edge, LeftRight, Side};
use pixel_cart::sprite::{CartSprites, Rect};
use pixel_cart::step::take_step;
use pixel_cart::vector::{UVec2, Vec2};
use pixel_cart::walker::Walker;

fn rect(x0: i64, y0: i64, x1: i64, y1: i64) -> Rect {
    Rect { from: Vec2::new(x0, y0), to: Vec2::new(x1, y1) }
}

#[test]
fn the_rules_have_their_numbers() {
    assert_eq!(CART_HEIGHT, 200_000);
    assert_eq!(SPEED, 3_000);
    assert_eq!(FALL_SPEED, 2);
}

#[test]
fn a_cart_on_a_side_is_one_rectangle() {
    let cart = Cart::OnSide { cell: UVec2::new(2, 3), side: Side::Top, distance: 100_000 };
    let r = rect(1_600_000, -2_500_000, 2_600_000, -2_300_000);
    assert_eq!(cart.sprites(), Some(CartSprites { cart: r, piece: r }));
    let cart = Cart::OnSide { cell: UVec2::new(2, 3), side: Side::Right, distance: 100_000 };
    let r = rect(2_500_000, -2_600_000, 2_700_000, -3_600_000);
    assert_eq!(cart.sprites(), Some(CartSprites { cart: r, piece: r }));
}

#[test]
fn a_cart_on_a_convex_corner_is_bent_around_it() {
    let cart = Cart::OnOutsideCorner { cell: UVec2::new(0, 0), corner: Corner::TopRight, distance: 300_000 };
    assert_eq!(
        cart.sprites(),
        Some(CartSprites {
            cart: rect(0, 500_000, 700_000, 700_000),
            piece: rect(500_000, 700_000, 700_000, 200_000),
        })
    );
}

#[test]
fn a_cart_in_a_concave_corner_is_bent_into_it() {
    let cart = Cart::OnInsideCorner { cell: UVec2::new(1, 1), corner: Corner::BottomLeft, distance: 100_000 };
    assert_eq!(
        cart.sprites(),
        Some(CartSprites {
            cart: rect(1_400_000, -1_300_000, 500_000, -1_500_000),
            piece: rect(700_000, -1_500_000, 500_000, -1_200_000),
        })
    );
}

#[test]
fn a_falling_cart_is_further_out() {
    let cart = Cart::Falling {
        cell: UVec2::new(0, 1),
        side: Side::Top,
        offset: 250_000,
        velocity: 77,
        finished_drawing: false,
    };
    let r = rect(-500_000, -250_000, 500_000, -50_000);
    assert_eq!(cart.sprites(), Some(CartSprites { cart: r, piece: r }));
}

#[test]
fn a_zipping_cart_has_no_fixed_place() {
    let start = Edge::new(UVec2::new(0, 0), Side::Right);
    let end = Edge::new(UVec2::new(3, 0), Side::Left);
    let cart = Cart::Zipping { cell: end.pos, side: end.side, start, end, rotation: 180, elapsed: 5 };
    assert_eq!(cart.sprites(), None);
    assert_eq!(cart.current_edge(), Some(end));
    assert_eq!(cart.drawing_progress(), (0, true));
}

#[test]
fn the_growing_pixel_reaches_out_from_the_side() {
    let pixel = DrawingPixel { start_pos: Vec2::new(0, -500_000), grow_dir: Side::Top };
    assert_eq!(pixel.rect(300_000), rect(-500_000, -500_000, 500_000, -200_000));
    assert_eq!(pixel.rect(0), rect(-500_000, -500_000, 500_000, -500_000));
    let pixel = DrawingPixel { start_pos: Vec2::new(2_500_000, 0), grow_dir: Side::Left };
    assert_eq!(pixel.rect(1_000_000), rect(2_500_000, -500_000, 1_500_000, 500_000));
    assert_eq!(drawing_start(UVec2::new(0, 1), Side::Top), Vec2::new(0, -500_000));
    assert_eq!(drawing_start(UVec2::new(3, 0), Side::Left), Vec2::new(2_500_000, 0));
}

#[test]
fn carts_stand_outside_their_edges_and_labels_inside() {
    let e = Edge::new(UVec2::new(2, 3), Side::Top);
    assert_eq!(e.cart_world_pos(), Vec2::new(2_000_000, -2_400_000));
    assert_eq!(e.label_world_pos(), Vec2::new(2_000_000, -2_600_000));
    let e = Edge::new(UVec2::new(2, 3), Side::Right);
    assert_eq!(e.cart_world_pos(), Vec2::new(2_600_000, -3_000_000));
    assert_eq!(e.label_world_pos(), Vec2::new(2_400_000, -3_000_000));
    let e = Edge::new(UVec2::new(2, 3), Side::Bottom);
    assert_eq!(e.cart_world_pos(), Vec2::new(2_000_000, -3_600_000));
    let e = Edge::new(UVec2::new(2, 3), Side::Left);
    assert_eq!(e.cart_world_pos(), Vec2::new(1_400_000, -3_000_000));
}

#[test]
fn distances_between_carts_are_squared() {
    let a = Edge::new(UVec2::new(0, 0), Side::Right);
    let b = Edge::new(UVec2::new(3, 0), Side::Left);
    assert_eq!(cart_distance_squared(a, b), 3_240_000_000_000);
    assert_eq!(cart_distance_squared(b, a), 3_240_000_000_000);
    assert_eq!(cart_distance_squared(a, a), 0);
    let c = Edge::new(UVec2::new(1, 1), Side::Right);
    let d = Edge::new(UVec2::new(2, 2), Side::Top);
    assert_eq!(cart_distance_squared(c, d), 320_000_000_000);
    let far = Edge::new(UVec2::new(u32::MAX, u32::MAX), Side::Right);
    let near = Edge::new(UVec2::new(0, 0), Side::Left);
    let dx: u128 = 4_294_967_295_000_000 + 1_200_000;
    let dy: u128 = 4_294_967_295_000_000;
    assert_eq!(cart_distance_squared(far, near), dx * dx + dy * dy);
}

#[test]
fn zips_take_longer_the_further_they_go() {
    let a = Edge::new(UVec2::new(0, 0), Side::Right);
    let b = Edge::new(UVec2::new(3, 0), Side::Left);
    // 1.8 cells: over after sqrt(1.8) / 1.8 seconds, about 745.36 ms.
    assert!(!zip_is_finished(0, a, b));
    assert!(!zip_is_finished(745, a, b));
    assert!(zip_is_finished(746, a, b));
    // 0.2 * 9 = 1.8 times 1.8 = 3.24 cells: over after 1 second, but not at it.
    let c = Edge::new(UVec2::new(0, 0), Side::Right);
    let d = Edge::new(UVec2::new(0, 0), Side::Right);
    assert!(!zip_is_finished(0, c, d));
    assert!(zip_is_finished(1, c, d));
    let e = Edge::new(UVec2::new(4, 0), Side::Right);
    let f = Edge::new(UVec2::new(0, 0), Side::Right);
    // 4 cells: over after 2 / 1.8 seconds, about 1111.1 ms.
    assert!(!zip_is_finished(1_111, e, f));
    assert!(zip_is_finished(1_112, e, f));
    assert!(zip_is_finished(u64::MAX, e, f));
}

#[test]
fn held_keys_give_a_direction() {
    assert_eq!(direction(true, false), Some(LeftRight::Left));
    assert_eq!(direction(false, true), Some(LeftRight::Right));
    assert_eq!(direction(true, true), None);
    assert_eq!(direction(false, false), None);
}

#[test]
fn crossing_counts_touching() {
    assert!(crossed(0, -1, 1));
    assert!(crossed(0, 1, -1));
    assert!(crossed(0, 0, 5));
    assert!(crossed(0, -5, 0));
    assert!(crossed(0, 0, 0));
    assert!(!crossed(0, 1, 5));
    assert!(!crossed(0, -5, -1));
    assert!(crossed(3, 2, 4));
}

#[test]
fn carts_know_their_edge_and_progress() {
    let cart = Cart::OnSide { cell: UVec2::new(2, 3), side: Side::Left, distance: 1 };
    assert_eq!(cart.current_edge(), Some(Edge::new(UVec2::new(2, 3), Side::Left)));
    assert_eq!(cart.drawing_progress(), (0, true));
    let cart = Cart::Falling {
        cell: UVec2::new(2, 3),
        side: Side::Top,
        offset: 123,
        velocity: 4,
        finished_drawing: false,
    };
    assert_eq!(cart.current_edge(), Some(Edge::new(UVec2::new(2, 3), Side::Top)));
    assert_eq!(cart.drawing_progress(), (123, false));
    let cart = Cart::OnOutsideCorner { cell: UVec2::new(2, 3), corner: Corner::TopLeft, distance: 1 };
    assert_eq!(cart.current_edge(), None);
    let cart = Cart::OnInsideCorner { cell: UVec2::new(2, 3), corner: Corner::TopLeft, distance: 1 };
    assert_eq!(cart.current_edge(), None);
    assert_eq!(cart.drawing_progress(), (0, true));
}

#[test]
fn a_found_shortcut_is_installed() {
    let mut w = Walker::start(UVec2::new(4, 1), UVec2::new(0, 0));
    let first = ZipPath {
        start: Edge::new(UVec2::new(0, 0), Side::Right),
        end: Edge::new(UVec2::new(3, 0), Side::Left),
    };
    let second = ZipPath {
        start: Edge::new(UVec2::new(0, 0), Side::Top),
        end: Edge::new(UVec2::new(3, 0), Side::Top),
    };
    w.install_zip_path(None);
    assert_eq!(w.zip_path, None);
    w.install_zip_path(Some(first));
    assert_eq!(w.zip_path, Some(first));
    w.install_zip_path(None);
    assert_eq!(w.zip_path, Some(first));
    w.install_zip_path(Some(second));
    assert_eq!(w.zip_path, Some(second));
}

#[test]
fn a_step_can_be_taken_without_a_walker() {
    let ground = Grid::from_vec(vec![false, true], 1);
    let cart = Cart::Falling {
        cell: UVec2::new(0, 1),
        side: Side::Top,
        offset: 999_999,
        velocity: 0,
        finished_drawing: false,
    };
    let tick = Tick { direction: None, dt: 1, next_pixel: None };
    assert_eq!(
        take_step(cart, &ground, None, tick),
        Ok(Step {
            cart: Cart::OnSide { cell: UVec2::new(0, 0), side: Side::Top, distance: 0 },
            filled: Some(UVec2::new(0, 0)),
            zip_path: None,
            changed: true,
            drawing: None,
        })
    );
    // The ground itself is left as it was.
    assert!(!*ground.get(UVec2::new(0, 0)));
    let cart = Cart::Falling {
        cell: UVec2::new(0, 0),
        side: Side::Top,
        offset: 999_999,
        velocity: i32::MAX,
        finished_drawing: true,
    };
    assert_eq!(take_step(cart, &ground, None, tick), Err(WalkError::OutOfBounds));
    // A speed beyond the range fails only where the cart goes on falling.
    let cart = Cart::Falling {
        cell: UVec2::new(0, 1),
        side: Side::Top,
        offset: i32::MIN,
        velocity: i32::MAX,
        finished_drawing: true,
    };
    let slow = Tick { direction: None, dt: 0, next_pixel: None };
    assert_eq!(take_step(cart, &ground, None, slow).map(|s| s.cart), Ok(cart));
    assert_eq!(take_step(cart, &ground, None, tick), Err(WalkError::OutOfRange));
}
