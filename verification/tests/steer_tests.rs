use boids::grid::{CellPos, Dir, Grid, GridCell, COLS};
use boids::prng::Prng;
use boids::steer::{choose_goal, draw_pair, find_room, Goal};

fn idx(col: usize, row: usize) -> usize {
    row * COLS + col
}

fn put(grid: &mut Grid, col: usize, row: usize, occupied: bool, agents: usize) {
    let mut cell: GridCell = grid.cell(idx(col, row));
    cell.occupied = occupied;
    cell.point_count = if occupied { 1 } else { 0 };
    cell.agent_count = agents;
    grid.cells[idx(col, row)] = cell;
}

fn at(col: i32, row: i32) -> CellPos {
    CellPos { col, row }
}

#[test]
fn crowded_cell_reroutes_to_the_neighbour_with_room() {
    let mut grid = Grid::new();
    put(&mut grid, 10, 10, true, 6);
    put(&mut grid, 11, 10, true, 2);
    let mut rng = Prng::new(12345);
    let goal = choose_goal(&grid, at(10, 10), &mut rng);
    assert_eq!(goal, Goal::Cell { cell: idx(11, 10) });
    assert_ne!(goal, Goal::Cell { cell: idx(10, 10) });
    assert_eq!(rng.seed, 12345);
}

#[test]
fn cell_at_the_limit_keeps_its_agents() {
    let mut grid = Grid::new();
    put(&mut grid, 10, 10, true, 5);
    put(&mut grid, 11, 10, true, 0);
    let mut rng = Prng::new(1);
    assert_eq!(choose_goal(&grid, at(10, 10), &mut rng), Goal::Cell { cell: idx(10, 10) });
    assert_eq!(rng.seed, 1);
}

#[test]
fn neighbour_at_the_limit_has_no_room() {
    let mut grid = Grid::new();
    put(&mut grid, 10, 10, true, 6);
    put(&mut grid, 11, 10, true, 5);
    put(&mut grid, 12, 12, true, 4);
    assert_eq!(find_room(&grid, 10, 10), Some(idx(12, 12)));
}

#[test]
fn unoccupied_neighbour_has_no_room() {
    let mut grid = Grid::new();
    put(&mut grid, 10, 10, true, 6);
    put(&mut grid, 11, 10, false, 0);
    assert_eq!(find_room(&grid, 10, 10), None);
}

#[test]
fn nearer_ring_wins() {
    let mut grid = Grid::new();
    put(&mut grid, 10, 10, true, 9);
    put(&mut grid, 8, 8, true, 0);
    put(&mut grid, 11, 11, true, 4);
    assert_eq!(find_room(&grid, 10, 10), Some(idx(11, 11)));
}

#[test]
fn within_a_ring_the_upper_row_wins_then_the_left_column() {
    let mut grid = Grid::new();
    put(&mut grid, 10, 10, true, 9);
    put(&mut grid, 9, 10, true, 0);
    put(&mut grid, 11, 9, true, 0);
    assert_eq!(find_room(&grid, 10, 10), Some(idx(11, 9)));
    put(&mut grid, 9, 9, true, 0);
    assert_eq!(find_room(&grid, 10, 10), Some(idx(9, 9)));
    let mut wide = Grid::new();
    put(&mut wide, 10, 10, true, 9);
    put(&mut wide, 12, 10, true, 0);
    put(&mut wide, 8, 10, true, 0);
    put(&mut wide, 10, 12, true, 0);
    assert_eq!(find_room(&wide, 10, 10), Some(idx(8, 10)));
}

#[test]
fn search_ends_at_the_fourth_ring() {
    let mut grid = Grid::new();
    put(&mut grid, 10, 10, true, 6);
    put(&mut grid, 15, 10, true, 0);
    assert_eq!(find_room(&grid, 10, 10), None);
    put(&mut grid, 14, 14, true, 0);
    assert_eq!(find_room(&grid, 10, 10), Some(idx(14, 14)));
}

#[test]
fn search_is_clipped_at_the_edge() {
    let mut grid = Grid::new();
    put(&mut grid, 0, 0, true, 6);
    assert_eq!(find_room(&grid, 0, 0), None);
    put(&mut grid, 0, 3, true, 1);
    assert_eq!(find_room(&grid, 0, 0), Some(idx(0, 3)));
    assert_eq!(find_room(&grid, -2, 1), Some(idx(0, 3)));
    assert_eq!(find_room(&grid, i32::MAX, i32::MIN), None);
}

#[test]
fn crowded_cell_without_room_nearby_jitters() {
    let mut grid = Grid::new();
    put(&mut grid, 10, 10, true, 6);
    put(&mut grid, 11, 10, true, 7);
    let mut rng = Prng::new(12345);
    let goal = choose_goal(&grid, at(10, 10), &mut rng);
    assert_eq!(goal, Goal::CellJitter { cell: idx(10, 10), jx: 21468, jy: 9988 });
    assert_eq!(rng.seed, 2802067423);
}

#[test]
fn unoccupied_cell_follows_the_flow() {
    let mut grid = Grid::new();
    let mut cell = grid.cell(idx(4, 4));
    cell.flow = Dir { dx: -1, dy: 1 };
    cell.agent_count = 50;
    grid.cells[idx(4, 4)] = cell;
    let mut rng = Prng::new(3);
    assert_eq!(
        choose_goal(&grid, at(4, 4), &mut rng),
        Goal::Flow { dir: Dir { dx: -1, dy: 1 } }
    );
    assert_eq!(rng.seed, 3);
}

#[test]
fn unoccupied_cell_without_flow_wanders() {
    let grid = Grid::new();
    let mut rng = Prng::new(12345);
    assert_eq!(choose_goal(&grid, at(4, 4), &mut rng), Goal::Jitter { jx: 21468, jy: 9988 });
    assert_eq!(choose_goal(&grid, at(4, 4), &mut rng), Goal::Jitter { jx: 22117, jy: 3498 });
}

#[test]
fn agent_outside_the_grid_seeks_the_centre() {
    let mut grid = Grid::new();
    put(&mut grid, 0, 0, true, 0);
    let mut rng = Prng::new(8);
    for pos in [at(-1, 0), at(0, -1), at(40, 0), at(0, 30), at(i32::MIN, i32::MAX)] {
        assert_eq!(choose_goal(&grid, pos, &mut rng), Goal::Center);
    }
    assert_eq!(rng.seed, 8);
}

#[test]
fn draw_pair_takes_x_before_y() {
    let mut rng = Prng::new(12345);
    assert_eq!(draw_pair(&mut rng), (21468, 9988));
    assert_eq!(draw_pair(&mut rng), (22117, 3498));
}
