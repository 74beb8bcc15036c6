use pixel_cart::grid::Grid;
use pixel_cart::vector::UVec2;

#[test]
fn new_grid_holds_defaults() {
    let grid: Grid<u8> = Grid::new(UVec2::new(3, 2));
    assert_eq!(grid.width(), 3);
    assert_eq!(grid.height(), 2);
    assert_eq!(grid.size(), UVec2::new(3, 2));
    for y in 0..2 {
        for x in 0..3 {
            assert_eq!(*grid.get(UVec2::new(x, y)), 0);
        }
    }
    let flags: Grid<bool> = Grid::new(UVec2::new(1, 1));
    assert_eq!(*flags.get(UVec2::new(0, 0)), false);
}

#[test]
fn empty_grids_have_their_size() {
    let grid: Grid<u8> = Grid::new(UVec2::new(0, 5));
    assert_eq!(grid.size(), UVec2::new(0, 5));
    assert_eq!(grid.rows().len(), 5);
    let grid: Grid<u8> = Grid::new(UVec2::new(5, 0));
    assert_eq!(grid.size(), UVec2::new(5, 0));
    assert_eq!(grid.rows().len(), 0);
}

#[test]
fn from_vec_reads_row_by_row() {
    let grid = Grid::from_vec(vec![1, 2, 3, 4, 5, 6], 3);
    assert_eq!(grid.size(), UVec2::new(3, 2));
    assert_eq!(*grid.get(UVec2::new(0, 0)), 1);
    assert_eq!(*grid.get(UVec2::new(2, 0)), 3);
    assert_eq!(*grid.get(UVec2::new(0, 1)), 4);
    assert_eq!(*grid.get(UVec2::new(2, 1)), 6);
    let tall = Grid::from_vec(vec![1, 2, 3, 4, 5, 6], 2);
    assert_eq!(tall.size(), UVec2::new(2, 3));
    assert_eq!(*tall.get(UVec2::new(1, 2)), 6);
    let none: Grid<u8> = Grid::from_vec(vec![], 4);
    assert_eq!(none.size(), UVec2::new(4, 0));
}

#[test]
fn set_changes_one_cell() {
    let mut grid = Grid::from_vec(vec![1, 2, 3, 4, 5, 6], 3);
    grid.set(UVec2::new(1, 1), 50);
    assert_eq!(grid, Grid::from_vec(vec![1, 2, 3, 4, 50, 6], 3));
    grid.set(UVec2::new(0, 0), 10);
    assert_eq!(grid, Grid::from_vec(vec![10, 2, 3, 4, 50, 6], 3));
}

#[test]
fn rows_are_the_chunks_of_a_width() {
    let grid = Grid::from_vec(vec![1, 2, 3, 4, 5, 6], 3);
    let rows = grid.rows();
    assert_eq!(rows.len(), 2);
    assert_eq!(rows[0], &[1, 2, 3]);
    assert_eq!(rows[1], &[4, 5, 6]);
}

#[test]
fn clone_is_equal_and_apart() {
    let grid = Grid::from_vec(vec![true, false, false, true], 2);
    let mut copy = grid.clone();
    assert_eq!(copy, grid);
    copy.set(UVec2::new(1, 0), true);
    assert_ne!(copy, grid);
    assert_eq!(*grid.get(UVec2::new(1, 0)), false);
}
