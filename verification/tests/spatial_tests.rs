use boids::grid::{cell_slot, CellPos, Grid, CELLS, COLS};
use boids::spatial::{exclude, SpatialIndex};

fn at(col: i32, row: i32) -> CellPos {
    CellPos { col, row }
}

#[test]
fn cell_slot_inside_and_outside() {
    assert_eq!(cell_slot(0, 0), Some(0));
    assert_eq!(cell_slot(39, 0), Some(39));
    assert_eq!(cell_slot(0, 1), Some(40));
    assert_eq!(cell_slot(39, 29), Some(1199));
    assert_eq!(cell_slot(2, 2), Some(82));
    assert_eq!(cell_slot(40, 0), None);
    assert_eq!(cell_slot(0, 30), None);
    assert_eq!(cell_slot(-1, 0), None);
    assert_eq!(cell_slot(0, -1), None);
    assert_eq!(cell_slot(i64::MAX, i64::MIN), None);
}

#[test]
fn new_index_is_empty() {
    let index = SpatialIndex::new(7);
    assert!(index.query_3x3(5, 5).is_empty());
    assert!(index.query_3x3(0, 0).is_empty());
}

#[test]
fn chain_lists_the_last_agent_first() {
    let mut index = SpatialIndex::new(0);
    let mut grid = Grid::new();
    let cells = vec![at(3, 3), at(10, 10), at(3, 3), at(3, 3)];
    index.rebuild(&cells, &mut grid);
    assert_eq!(index.query_3x3(3, 3), vec![3, 2, 0]);
    assert_eq!(index.query_3x3(10, 10), vec![1]);
    assert_eq!(grid.cell(3 * COLS + 3).agent_count, 3);
    assert_eq!(grid.cell(10 * COLS + 10).agent_count, 1);
    assert_eq!(grid.cell(0).agent_count, 0);
}

#[test]
fn query_scans_rows_then_columns() {
    let mut index = SpatialIndex::new(0);
    let mut grid = Grid::new();
    // one agent in each cell of the block around (5, 5), given in a mixed order
    let cells = vec![
        at(6, 6), // 0
        at(4, 4), // 1
        at(5, 5), // 2
        at(6, 4), // 3
        at(4, 6), // 4
        at(5, 4), // 5
        at(4, 5), // 6
        at(6, 5), // 7
        at(5, 6), // 8
        at(7, 5), // 9: outside the block
        at(5, 3), // 10: outside the block
    ];
    index.rebuild(&cells, &mut grid);
    assert_eq!(index.query_3x3(5, 5), vec![1, 5, 3, 6, 2, 7, 4, 8, 0]);
}

#[test]
fn query_is_clipped_at_the_corner() {
    let mut index = SpatialIndex::new(0);
    let mut grid = Grid::new();
    let cells = vec![at(0, 0), at(1, 0), at(0, 1), at(1, 1), at(2, 2)];
    index.rebuild(&cells, &mut grid);
    assert_eq!(index.query_3x3(0, 0), vec![0, 1, 2, 3]);
    assert_eq!(index.query_3x3(39, 29), Vec::<usize>::new());
}

#[test]
fn query_around_a_centre_outside_the_grid() {
    let mut index = SpatialIndex::new(0);
    let mut grid = Grid::new();
    let cells = vec![at(0, 0), at(0, 1), at(39, 29)];
    index.rebuild(&cells, &mut grid);
    assert_eq!(index.query_3x3(-1, 0), vec![0, 1]);
    assert_eq!(index.query_3x3(40, 30), vec![2]);
    assert_eq!(index.query_3x3(-2, 0), Vec::<usize>::new());
    assert_eq!(index.query_3x3(i32::MAX, i32::MAX), Vec::<usize>::new());
    assert_eq!(index.query_3x3(i32::MIN, i32::MIN), Vec::<usize>::new());
}

#[test]
fn agents_outside_the_grid_are_left_out() {
    let mut index = SpatialIndex::new(0);
    let mut grid = Grid::new();
    let cells = vec![at(-1, 0), at(0, 0), at(40, 0), at(0, 30), at(0, -1)];
    index.rebuild(&cells, &mut grid);
    assert_eq!(index.query_3x3(0, 0), vec![1]);
    assert_eq!(index.query_3x3(39, 0), Vec::<usize>::new());
    let mut total = 0;
    for c in 0..CELLS {
        total += grid.cell(c).agent_count;
    }
    assert_eq!(total, 1);
}

#[test]
fn rebuild_forgets_the_last_frame() {
    let mut index = SpatialIndex::new(0);
    let mut grid = Grid::new();
    index.rebuild(&vec![at(1, 1), at(1, 1)], &mut grid);
    assert_eq!(grid.cell(41).agent_count, 2);
    index.rebuild(&vec![at(20, 20)], &mut grid);
    assert_eq!(index.query_3x3(1, 1), Vec::<usize>::new());
    assert_eq!(index.query_3x3(20, 20), vec![0]);
    assert_eq!(grid.cell(41).agent_count, 0);
    assert_eq!(grid.cell(20 * COLS + 20).agent_count, 1);
}

#[test]
fn rebuild_with_no_agents() {
    let mut index = SpatialIndex::new(3);
    let mut grid = Grid::new();
    index.rebuild(&Vec::new(), &mut grid);
    assert!(index.query_3x3(0, 0).is_empty());
}

#[test]
fn exclude_drops_only_the_agent() {
    assert_eq!(exclude(&vec![4, 2, 7, 2, 1], 2), vec![4, 7, 1]);
    assert_eq!(exclude(&vec![4, 2, 7], 9), vec![4, 2, 7]);
    assert_eq!(exclude(&Vec::new(), 0), Vec::<usize>::new());
    assert_eq!(exclude(&vec![3], 3), Vec::<usize>::new());
}
