use boids::flow::{flood_fill, neighbor_offset};
use boids::grid::{CellPos, Dir, CELLS, COLS, ROWS};
use boids::sim::{assign_targets, init_boids};

fn idx(col: usize, row: usize) -> usize {
    row * COLS + col
}

fn dir(dx: i8, dy: i8) -> Dir {
    Dir { dx, dy }
}

fn steps(a: usize, b: usize) -> usize {
    let across = (a % COLS).abs_diff(b % COLS);
    let down = (a / COLS).abs_diff(b / COLS);
    across.max(down)
}

fn nearest(occupied: &[bool], c: usize) -> usize {
    (0..CELLS).filter(|o| occupied[*o]).map(|o| steps(c, o)).min().unwrap()
}

fn follow(c: usize, d: Dir) -> usize {
    let col = (c % COLS) as i64 + d.dx as i64;
    let row = (c / COLS) as i64 + d.dy as i64;
    assert!(0 <= col && col < COLS as i64 && 0 <= row && row < ROWS as i64);
    row as usize * COLS + col as usize
}

#[test]
fn neighbours_come_in_the_fixed_order() {
    let expected = [(0, -1), (0, 1), (-1, 0), (1, 0), (-1, -1), (-1, 1), (1, -1), (1, 1)];
    for k in 0..8 {
        assert_eq!(neighbor_offset(k), dir(expected[k].0, expected[k].1));
    }
}

#[test]
fn single_point_in_a_100_by_100_world() {
    // the point (50, 50) with cells of size 20 lies in cell (2, 2)
    let (mut sim, _) = init_boids(0, 12345);
    assign_targets(&mut sim, &vec![CellPos { col: 2, row: 2 }]);
    let home = idx(2, 2);
    for c in 0..CELLS {
        let cell = sim.grid.cell(c);
        if c == home {
            assert!(cell.occupied);
            assert_eq!(cell.point_count, 1);
            assert_eq!(cell.flow, dir(0, 0));
        } else {
            assert!(!cell.occupied);
            assert_eq!(cell.point_count, 0);
            assert_ne!(cell.flow, dir(0, 0));
            assert!(cell.flow.dx.abs() <= 1 && cell.flow.dy.abs() <= 1);
            assert_eq!(steps(follow(c, cell.flow), home) + 1, steps(c, home));
        }
    }
    assert_eq!(sim.point_total, 1);
}

#[test]
fn flow_points_back_at_the_discoverer() {
    let mut occupied = vec![false; CELLS];
    occupied[idx(2, 2)] = true;
    let flow = flood_fill(&occupied);
    assert_eq!(flow[idx(2, 1)], dir(0, 1));
    assert_eq!(flow[idx(2, 3)], dir(0, -1));
    assert_eq!(flow[idx(1, 2)], dir(1, 0));
    assert_eq!(flow[idx(3, 2)], dir(-1, 0));
    assert_eq!(flow[idx(1, 1)], dir(1, 1));
    assert_eq!(flow[idx(1, 3)], dir(1, -1));
    assert_eq!(flow[idx(3, 1)], dir(-1, 1));
    assert_eq!(flow[idx(3, 3)], dir(-1, -1));
}

#[test]
fn first_discovery_wins() {
    let mut occupied = vec![false; CELLS];
    occupied[idx(2, 2)] = true;
    let flow = flood_fill(&occupied);
    // (4, 2) is reached from (3, 2), the first cell of the first ring beside it
    assert_eq!(flow[idx(4, 2)], dir(-1, 0));
    // (4, 1) lies beside (3, 2) and (3, 1); (3, 2) joined the queue first
    assert_eq!(flow[idx(4, 1)], dir(-1, 1));
    // (2, 0) lies beside (2, 1), (1, 1) and (3, 1); (2, 1) leads the queue
    assert_eq!(flow[idx(2, 0)], dir(0, 1));
    // (1, 0) lies beside (2, 1) and (1, 1); (2, 1) leads the queue
    assert_eq!(flow[idx(1, 0)], dir(1, 1));
}

#[test]
fn sources_start_in_ascending_order() {
    let mut occupied = vec![false; CELLS];
    occupied[idx(10, 10)] = true;
    occupied[idx(12, 10)] = true;
    let flow = flood_fill(&occupied);
    // (11, 10) lies between the two; the cell with the smaller index looks first
    assert_eq!(flow[idx(11, 10)], dir(-1, 0));
    assert_eq!(flow[idx(11, 9)], dir(-1, 1));
    assert_eq!(flow[idx(11, 11)], dir(-1, -1));
    assert_eq!(flow[idx(13, 10)], dir(-1, 0));
}

#[test]
fn every_direction_leads_one_step_nearer() {
    let mut occupied = vec![false; CELLS];
    for c in [idx(0, 0), idx(39, 29), idx(17, 3), idx(18, 3), idx(5, 25), idx(30, 14)] {
        occupied[c] = true;
    }
    let flow = flood_fill(&occupied);
    assert_eq!(flow.len(), CELLS);
    for c in 0..CELLS {
        if occupied[c] {
            assert_eq!(flow[c], dir(0, 0));
        } else {
            assert_ne!(flow[c], dir(0, 0));
            assert_eq!(nearest(&occupied, follow(c, flow[c])) + 1, nearest(&occupied, c));
        }
    }
}

#[test]
fn empty_target_set_leaves_the_grid_empty() {
    let (mut sim, _) = init_boids(0, 1);
    assign_targets(&mut sim, &vec![CellPos { col: 4, row: 4 }]);
    assign_targets(&mut sim, &Vec::new());
    for c in 0..CELLS {
        let cell = sim.grid.cell(c);
        assert!(!cell.occupied);
        assert_eq!(cell.point_count, 0);
        assert_eq!(cell.flow, dir(0, 0));
    }
    assert_eq!(sim.point_total, 0);
    let flow = flood_fill(&vec![false; CELLS]);
    assert!(flow.iter().all(|d| *d == dir(0, 0)));
}

#[test]
fn all_cells_occupied_leaves_no_direction() {
    let flow = flood_fill(&vec![true; CELLS]);
    assert!(flow.iter().all(|d| *d == dir(0, 0)));
}

#[test]
fn points_outside_the_grid_are_passed_over() {
    let (mut sim, _) = init_boids(0, 1);
    let points = vec![
        CellPos { col: -1, row: 3 },
        CellPos { col: 40, row: 3 },
        CellPos { col: 3, row: 30 },
        CellPos { col: 3, row: -1 },
    ];
    assign_targets(&mut sim, &points);
    for c in 0..CELLS {
        let cell = sim.grid.cell(c);
        assert!(!cell.occupied);
        assert_eq!(cell.point_count, 0);
        assert_eq!(cell.flow, dir(0, 0));
    }
    // the recommendation counts the points supplied, inside the grid or not
    assert_eq!(sim.point_total, 4);
    assert_eq!(sim.active_count, 502);
}

#[test]
fn points_are_counted_per_cell() {
    let (mut sim, _) = init_boids(0, 1);
    let points = vec![
        CellPos { col: 7, row: 7 },
        CellPos { col: 8, row: 7 },
        CellPos { col: 7, row: 7 },
        CellPos { col: 7, row: 7 },
    ];
    assign_targets(&mut sim, &points);
    assert_eq!(sim.grid.cell(idx(7, 7)).point_count, 3);
    assert_eq!(sim.grid.cell(idx(8, 7)).point_count, 1);
    assert!(sim.grid.cell(idx(7, 7)).occupied);
    assert!(sim.grid.cell(idx(8, 7)).occupied);
    assert!(!sim.grid.cell(idx(9, 7)).occupied);
    assert_eq!(sim.grid.cell(idx(9, 7)).flow, dir(-1, 0));
}

#[test]
fn rebuilding_twice_gives_the_same_field() {
    let points: Vec<CellPos> =
        (0..50).map(|i| CellPos { col: (i * 7) % 45 - 2, row: (i * 11) % 33 - 1 }).collect();
    let (mut a, _) = init_boids(3, 5);
    let (mut b, _) = init_boids(9, 77);
    assign_targets(&mut b, &vec![CellPos { col: 1, row: 1 }]);
    assign_targets(&mut a, &points);
    assign_targets(&mut b, &points);
    for c in 0..CELLS {
        assert_eq!(a.grid.cell(c), b.grid.cell(c));
    }
    let first: Vec<_> = (0..CELLS).map(|c| a.grid.cell(c)).collect();
    assign_targets(&mut a, &points);
    let second: Vec<_> = (0..CELLS).map(|c| a.grid.cell(c)).collect();
    assert_eq!(first, second);
    assert_eq!(a.active_count, b.active_count);
}

#[test]
fn following_the_flow_reaches_a_target() {
    let mut occupied = vec![false; CELLS];
    for c in [idx(3, 28), idx(20, 15), idx(21, 15), idx(38, 1)] {
        occupied[c] = true;
    }
    let flow = flood_fill(&occupied);
    for start in 0..CELLS {
        let mut c = start;
        for _ in 0..nearest(&occupied, start) {
            assert!(!occupied[c]);
            c = follow(c, flow[c]);
        }
        assert!(occupied[c]);
    }
}
