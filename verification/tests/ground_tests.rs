use pixel_cart::grid::Grid;
use pixel_cart::ground::{
    checked_add, checked_add_inside, diagonal, edge_neighbors, filled_at, ground_set, traversable,
};
use pixel_cart::side::{Edge, LeftRight, Side};
use pixel_cart::vector::{IVec2, UVec2};

fn ground(width: usize, rows: &[&str]) -> Grid<bool> {
    let mut cells = Vec::new();
    for row in rows {
        for c in row.chars() {
            cells.push(c == '#');
        }
    }
    Grid::from_vec(cells, width)
}

fn edge(x: u32, y: u32, side: Side) -> Edge {
    Edge::new(UVec2::new(x, y), side)
}

#[test]
fn checked_add_stays_in_range() {
    assert_eq!(checked_add(UVec2::new(3, 4), IVec2::new(-1, 2)), Some(UVec2::new(2, 6)));
    assert_eq!(checked_add(UVec2::new(0, 4), IVec2::new(-1, 0)), None);
    assert_eq!(checked_add(UVec2::new(3, 0), IVec2::new(0, -1)), None);
    assert_eq!(checked_add(UVec2::new(u32::MAX, 0), IVec2::new(1, 0)), None);
    assert_eq!(checked_add(UVec2::new(0, u32::MAX), IVec2::new(0, 1)), None);
    assert_eq!(
        checked_add(UVec2::new(u32::MAX, u32::MAX), IVec2::new(i32::MIN, -1)),
        Some(UVec2::new(u32::MAX - (1 << 31), u32::MAX - 1))
    );
}

#[test]
fn checked_add_inside_stays_on_the_grid() {
    let size = UVec2::new(3, 2);
    assert_eq!(checked_add_inside(size, UVec2::new(1, 0), IVec2::new(1, 1)), Some(UVec2::new(2, 1)));
    assert_eq!(checked_add_inside(size, UVec2::new(2, 0), IVec2::new(1, 0)), None);
    assert_eq!(checked_add_inside(size, UVec2::new(2, 1), IVec2::new(0, 1)), None);
    assert_eq!(checked_add_inside(size, UVec2::new(0, 0), IVec2::new(-1, 0)), None);
    assert_eq!(checked_add_inside(size, UVec2::new(7, 7), IVec2::new(-6, -6)), Some(UVec2::new(1, 1)));
}

#[test]
fn outside_the_grid_nothing_is_filled() {
    let ground = ground(2, &["#.", "##"]);
    assert!(ground_set(&ground, UVec2::new(0, 0), IVec2::new(0, 0)));
    assert!(!ground_set(&ground, UVec2::new(0, 0), IVec2::new(1, 0)));
    assert!(ground_set(&ground, UVec2::new(0, 0), IVec2::new(1, 1)));
    assert!(!ground_set(&ground, UVec2::new(0, 0), IVec2::new(-1, 0)));
    assert!(!ground_set(&ground, UVec2::new(1, 1), IVec2::new(1, 0)));
    assert!(!ground_set(&ground, UVec2::new(1, 1), IVec2::new(0, 1)));
    assert_eq!(filled_at(&ground, UVec2::new(0, 0), IVec2::new(0, 1)), Some(UVec2::new(0, 1)));
    assert_eq!(filled_at(&ground, UVec2::new(0, 0), IVec2::new(1, 0)), None);
    assert_eq!(filled_at(&ground, UVec2::new(2, 1), IVec2::new(-1, 0)), Some(UVec2::new(1, 1)));
}

#[test]
fn diagonals_lie_ahead_and_beside() {
    assert_eq!(diagonal(Side::Top, LeftRight::Left), IVec2::new(-1, -1));
    assert_eq!(diagonal(Side::Top, LeftRight::Right), IVec2::new(1, -1));
    assert_eq!(diagonal(Side::Right, LeftRight::Left), IVec2::new(1, -1));
    assert_eq!(diagonal(Side::Right, LeftRight::Right), IVec2::new(1, 1));
    assert_eq!(diagonal(Side::Bottom, LeftRight::Left), IVec2::new(1, 1));
    assert_eq!(diagonal(Side::Bottom, LeftRight::Right), IVec2::new(-1, 1));
    assert_eq!(diagonal(Side::Left, LeftRight::Left), IVec2::new(-1, 1));
    assert_eq!(diagonal(Side::Left, LeftRight::Right), IVec2::new(-1, -1));
}

#[test]
fn the_walk_goes_straight_on_along_a_row() {
    let ground = ground(3, &["###"]);
    assert_eq!(traversable(&ground, edge(1, 0, Side::Top), LeftRight::Right), edge(2, 0, Side::Top));
    assert_eq!(traversable(&ground, edge(1, 0, Side::Top), LeftRight::Left), edge(0, 0, Side::Top));
    // On the bottom side right and left are the other way around.
    assert_eq!(traversable(&ground, edge(1, 0, Side::Bottom), LeftRight::Right), edge(0, 0, Side::Bottom));
    assert_eq!(traversable(&ground, edge(1, 0, Side::Bottom), LeftRight::Left), edge(2, 0, Side::Bottom));
}

#[test]
fn the_walk_turns_around_a_convex_corner() {
    let ground = ground(3, &["###"]);
    assert_eq!(traversable(&ground, edge(2, 0, Side::Top), LeftRight::Right), edge(2, 0, Side::Right));
    assert_eq!(traversable(&ground, edge(2, 0, Side::Right), LeftRight::Right), edge(2, 0, Side::Bottom));
    assert_eq!(traversable(&ground, edge(0, 0, Side::Top), LeftRight::Left), edge(0, 0, Side::Left));
    assert_eq!(traversable(&ground, edge(0, 0, Side::Left), LeftRight::Left), edge(0, 0, Side::Bottom));
}

#[test]
fn the_walk_turns_into_a_concave_corner() {
    let ground = ground(2, &[".#", "##"]);
    // Going right on top of (0, 1), the cell (1, 0) stands in the way.
    assert_eq!(traversable(&ground, edge(0, 1, Side::Top), LeftRight::Right), edge(1, 0, Side::Left));
    // And back: going left down the left face of (1, 0).
    assert_eq!(traversable(&ground, edge(1, 0, Side::Left), LeftRight::Left), edge(0, 1, Side::Top));
    assert_eq!(traversable(&ground, edge(1, 0, Side::Left), LeftRight::Right), edge(1, 0, Side::Top));
}

#[test]
fn edge_neighbors_are_left_and_right() {
    let ground = ground(3, &["###"]);
    assert_eq!(
        edge_neighbors(&ground, edge(1, 0, Side::Top)),
        [edge(0, 0, Side::Top), edge(2, 0, Side::Top)]
    );
    assert_eq!(
        edge_neighbors(&ground, edge(0, 0, Side::Top)),
        [edge(0, 0, Side::Left), edge(1, 0, Side::Top)]
    );
    // An edge of an empty cell far from the ground turns on the spot.
    let bare = Grid::from_vec(vec![false], 1);
    assert_eq!(
        edge_neighbors(&bare, edge(5, 5, Side::Top)),
        [edge(5, 5, Side::Left), edge(5, 5, Side::Right)]
    );
}
