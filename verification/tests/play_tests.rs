use pixel_cart::art::Art;
use pixel_cart::cart::{Cart, Tick};
use pixel_cart::grid::Grid;
use pixel_cart::ordering::{generate_fast, CurrentOrdering};
use pixel_cart::side::LeftRight;
use pixel_cart::vector::UVec2;
use pixel_cart::walker::Walker;
use pixel_cart::zip::find_zip_path;

/// Plays a picture to its end with one key held, as the game does frame by
/// frame, and gives back the ground and the numbers of falls and zips.
fn play(width: u32, rows: &[&str], key: LeftRight, dt: u32) -> (Grid<bool>, u32, u32) {
    let mut image = Vec::new();
    for row in rows {
        for c in row.chars() {
            image.push(if c == '#' { [10, 20, 30, 255] } else { [0, 0, 0, 0] });
        }
    }
    let art = Art::from_rgba(width, rows.len() as u32, image).unwrap();
    let mut ordering = CurrentOrdering::init(generate_fast(&art));
    let first = ordering.peek().unwrap();
    let mut walker = Walker::start(art.size(), first.pos);
    let mut drawing = true;
    let mut falls = 0;
    let mut zips = 0;
    for _ in 0..2_000_000 {
        let before = walker.cart;
        let tick = Tick {
            direction: Some(key),
            dt,
            next_pixel: ordering.peek().map(|pixel| pixel.pos),
        };
        let moved = walker.tick(tick).unwrap();
        if moved.drawing.is_some() {
            assert!(!drawing);
            drawing = true;
        }
        if !matches!(before, Cart::Falling { .. }) && matches!(walker.cart, Cart::Falling { .. }) {
            falls += 1;
        }
        if !matches!(before, Cart::Zipping { .. }) && matches!(walker.cart, Cart::Zipping { .. }) {
            zips += 1;
        }
        if drawing && walker.cart.drawing_progress().1 {
            drawing = false;
            let drawn = ordering.next().unwrap();
            assert!(*walker.ground.get(drawn.pos));
            if let Some(next) = ordering.peek() {
                let edge = walker.cart.current_edge().unwrap();
                walker.install_zip_path(find_zip_path(&walker.ground, edge, next.pos));
            }
        }
        if !drawing && ordering.peek().is_none() {
            return (walker.ground, falls, zips);
        }
    }
    panic!("the picture is not drawn within the time");
}

fn mask(width: usize, rows: &[&str]) -> Grid<bool> {
    let mut cells = Vec::new();
    for row in rows {
        for c in row.chars() {
            cells.push(c == '#');
        }
    }
    Grid::from_vec(cells, width)
}

#[test]
fn a_square_is_drawn_without_a_zip() {
    let rows = ["##", "##"];
    for key in [LeftRight::Left, LeftRight::Right] {
        let (ground, falls, zips) = play(2, &rows, key, 16);
        assert_eq!(ground, mask(2, &rows));
        assert_eq!(falls, 3);
        assert_eq!(zips, 0);
    }
}

#[test]
fn scattered_pixels_are_drawn_with_zips() {
    let rows = ["#.#", "...", "#.#"];
    for key in [LeftRight::Left, LeftRight::Right] {
        let (ground, falls, zips) = play(3, &rows, key, 16);
        assert_eq!(ground, mask(3, &rows));
        assert_eq!(falls, 0);
        assert_eq!(zips, 3);
    }
}

#[test]
fn a_picture_with_holes_and_islands_is_drawn() {
    let rows = [
        "###..#",
        "#.#...",
        "###.##",
        "....#.",
        "##..##",
        ".#....",
    ];
    for key in [LeftRight::Left, LeftRight::Right] {
        for dt in [1, 16, 33] {
            let (ground, falls, zips) = play(6, &rows, key, dt);
            assert_eq!(ground, mask(6, &rows));
            // Sixteen pixels are drawn after the first: each by a fall, or by
            // a zip onto a pixel that stands alone; other zips only take the
            // cart to where the next pixel can be drawn.
            assert!(falls <= 16 && falls + zips >= 16);
            assert!(zips >= 3);
        }
    }
}

#[test]
fn a_walker_at_the_start_needs_no_zip_for_a_neighbour() {
    let walker = Walker::start(UVec2::new(3, 3), UVec2::new(1, 1));
    let edge = walker.cart.current_edge().unwrap();
    for next in [(1, 0), (0, 1), (2, 1), (1, 2)] {
        assert_eq!(find_zip_path(&walker.ground, edge, UVec2::new(next.0, next.1)), None);
    }
    for next in [(0, 0), (2, 0), (0, 2), (2, 2)] {
        assert!(find_zip_path(&walker.ground, edge, UVec2::new(next.0, next.1)).is_some());
    }
}
