use pixel_cart::cart::ZipPath;
use pixel_cart::grid::Grid;
use pixel_cart::side::{Edge, Side};
use pixel_cart::vector::UVec2;
use pixel_cart::zip::{destination_edges, find_zip_path, own_edges, search};

fn ground(width: usize, rows: &[&str]) -> Grid<bool> {
    let mut cells = Vec::new();
    for row in rows {
        for c in row.chars() {
            cells.push(c == '#');
        }
    }
    Grid::from_vec(cells, width)
}

fn edge(x: u32, y: u32, side: Side) -> Edge {
    Edge::new(UVec2::new(x, y), side)
}

#[test]
fn diagonal_target_gets_a_shortcut() {
    let ground = ground(3, &["...", ".#.", "..."]);
    let path = find_zip_path(&ground, edge(1, 1, Side::Top), UVec2::new(2, 2));
    assert_eq!(
        path,
        Some(ZipPath { start: edge(1, 1, Side::Right), end: edge(2, 2, Side::Top) })
    );
}

#[test]
fn filled_row_needs_no_shortcut() {
    let ground = ground(3, &["###"]);
    let path = find_zip_path(&ground, edge(0, 0, Side::Top), UVec2::new(2, 0));
    assert_eq!(path, None);
}

#[test]
fn adjacent_target_needs_no_shortcut() {
    let ground = ground(3, &["...", ".#.", "..."]);
    let path = find_zip_path(&ground, edge(1, 1, Side::Top), UVec2::new(2, 1));
    assert_eq!(path, None);
}

#[test]
fn two_islands_are_joined_by_the_closest_edges() {
    // The target (4, 0) touches the right island; the cart stands on the left one.
    let ground = ground(6, &["#..#..", "......"]);
    let path = find_zip_path(&ground, edge(0, 0, Side::Top), UVec2::new(4, 0));
    assert_eq!(
        path,
        Some(ZipPath { start: edge(0, 0, Side::Right), end: edge(3, 0, Side::Left) })
    );
}

#[test]
fn search_is_the_same_every_time() {
    let ground = ground(6, &["#..#..", "......"]);
    let first = find_zip_path(&ground, edge(0, 0, Side::Bottom), UVec2::new(4, 0));
    let second = find_zip_path(&ground, edge(0, 0, Side::Bottom), UVec2::new(4, 0));
    assert_eq!(first, second);
    assert!(first.is_some());
}

#[test]
fn destination_edges_look_at_the_target() {
    let ground = ground(3, &[".#.", "#.#", ".#."]);
    let edges = destination_edges(&ground, UVec2::new(1, 1));
    assert_eq!(
        edges,
        vec![
            edge(1, 0, Side::Bottom),
            edge(1, 2, Side::Top),
            edge(0, 1, Side::Right),
            edge(2, 1, Side::Left),
        ]
    );
    assert_eq!(destination_edges(&ground, UVec2::new(0, 0)).len(), 2);
}

#[test]
fn own_edges_go_around_the_cell() {
    assert_eq!(
        own_edges(UVec2::new(5, 7)),
        vec![
            edge(5, 7, Side::Top),
            edge(5, 7, Side::Right),
            edge(5, 7, Side::Bottom),
            edge(5, 7, Side::Left),
        ]
    );
}

#[test]
fn search_leaves_out_a_pair_of_one_edge() {
    let ground = ground(1, &["#"]);
    let ends = vec![edge(0, 0, Side::Top)];
    assert_eq!(search(&ground, edge(0, 0, Side::Top), &ends), None);
    let ends = vec![edge(0, 0, Side::Top), edge(3, 0, Side::Left)];
    assert_eq!(search(&ground, edge(0, 0, Side::Bottom), &ends), None);
    let ends = vec![edge(3, 0, Side::Left)];
    assert_eq!(
        search(&ground, edge(0, 0, Side::Bottom), &ends),
        Some(ZipPath { start: edge(0, 0, Side::Right), end: edge(3, 0, Side::Left) })
    );
}

fn walkable(ground: &Grid<bool>, starts: &[Edge]) -> Vec<Edge> {
    let mut seen: Vec<Edge> = Vec::new();
    let mut todo: Vec<Edge> = starts.to_vec();
    while let Some(edge) = todo.pop() {
        if !seen.contains(&edge) {
            seen.push(edge);
            todo.extend(pixel_cart::ground::edge_neighbors(ground, edge));
        }
    }
    seen
}

fn number(edge: Edge) -> u128 {
    let side = match edge.side {
        Side::Top => 0,
        Side::Right => 1,
        Side::Bottom => 2,
        Side::Left => 3,
    };
    ((edge.pos.x as u128) << 32 | edge.pos.y as u128) * 4 + side
}

fn expected(ground: &Grid<bool>, current: Edge, target: UVec2) -> Option<ZipPath> {
    let near = destination_edges(ground, target);
    let ends = if near.is_empty() {
        own_edges(target)
    } else {
        let ends = walkable(ground, &near);
        if ends.contains(&current) {
            return None;
        }
        ends
    };
    let mut best: Option<(u128, u128, u128, ZipPath)> = None;
    for start in walkable(ground, &[current]) {
        for &end in &ends {
            let rank = (
                pixel_cart::cart::cart_distance_squared(start, end),
                number(start),
                number(end),
            );
            if best.map_or(true, |b| rank < (b.0, b.1, b.2)) {
                best = Some((rank.0, rank.1, rank.2, ZipPath { start, end }));
            }
        }
    }
    best.map(|b| b.3).filter(|path| path.start != path.end)
}

#[test]
fn shortcuts_are_the_nearest_pairs_on_many_grounds() {
    let mut state: u64 = 0x2545_F491_4F6C_DD1D;
    let mut next = move |below: u64| {
        state ^= state << 13;
        state ^= state >> 7;
        state ^= state << 17;
        state % below
    };
    let mut some = 0;
    let mut none = 0;
    for _ in 0..400 {
        let width = 1 + next(5) as usize;
        let height = 1 + next(5) as usize;
        let cells: Vec<bool> = (0..width * height).map(|_| next(3) == 0).collect();
        let ground = Grid::from_vec(cells, width);
        let current = Edge::new(
            UVec2::new(next(width as u64) as u32, next(height as u64) as u32),
            Side::SIDES[next(4) as usize],
        );
        let target = UVec2::new(next(width as u64) as u32, next(height as u64) as u32);
        let path = find_zip_path(&ground, current, target);
        assert_eq!(path, expected(&ground, current, target));
        if path.is_some() {
            some += 1;
        } else {
            none += 1;
        }
    }
    assert!(some > 50);
    assert!(none > 50);
}
