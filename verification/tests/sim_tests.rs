use boids::grid::{CellPos, Dir, CELLS, COLS};
use boids::sim::{
    assign_targets, get_active_boid_count, init_boids, update_boids, Spawn, DEFAULT_SEED,
};
use boids::steer::Goal;

fn idx(col: usize, row: usize) -> usize {
    row * COLS + col
}

fn at(col: i32, row: i32) -> CellPos {
    CellPos { col, row }
}

#[test]
fn init_draws_four_numbers_per_agent() {
    let (sim, spawns) = init_boids(2, DEFAULT_SEED);
    assert_eq!(
        spawns,
        vec![
            Spawn { x: 21468, y: 9988, vx: 22117, vy: 3498 },
            Spawn { x: 16927, y: 16045, vx: 19741, vy: 12122 },
        ]
    );
    assert_eq!(sim.rng.seed, 2941955441);
    assert_eq!(get_active_boid_count(&sim), 3000);
    assert_eq!(sim.point_total, 0);
    for c in 0..CELLS {
        let cell = sim.grid.cell(c);
        assert!(!cell.occupied);
        assert_eq!(cell.point_count, 0);
        assert_eq!(cell.agent_count, 0);
        assert_eq!(cell.flow, Dir { dx: 0, dy: 0 });
    }
}

#[test]
fn init_with_no_agents() {
    let (mut sim, spawns) = init_boids(0, 99);
    assert!(spawns.is_empty());
    assert_eq!(sim.rng.seed, 99);
    let plan = update_boids(&mut sim, &Vec::new());
    assert!(plan.is_empty());
}

#[test]
fn same_seed_same_start() {
    let (a, spawns_a) = init_boids(500, 2024);
    let (b, spawns_b) = init_boids(500, 2024);
    assert_eq!(spawns_a, spawns_b);
    assert_eq!(a.rng, b.rng);
    let (_, other) = init_boids(500, 2025);
    assert_ne!(spawns_a, other);
}

#[test]
fn recommendation_follows_the_points() {
    let (mut sim, _) = init_boids(0, 1);
    assert_eq!(get_active_boid_count(&sim), 3000);
    assign_targets(&mut sim, &vec![at(1, 1); 3750]);
    assert_eq!(get_active_boid_count(&sim), 2750);
    assign_targets(&mut sim, &vec![at(1, 1); 8000]);
    assert_eq!(get_active_boid_count(&sim), 5000);
    assign_targets(&mut sim, &Vec::new());
    assert_eq!(get_active_boid_count(&sim), 500);
}

#[test]
fn plan_reroutes_the_agents_of_a_crowded_cell() {
    let (mut sim, _) = init_boids(8, 12345);
    assign_targets(&mut sim, &vec![at(10, 10), at(11, 10)]);
    let seed = sim.rng.seed;
    let mut cells = vec![at(10, 10); 6];
    cells.push(at(11, 10));
    cells.push(at(11, 10));
    let plan = update_boids(&mut sim, &cells);
    assert_eq!(sim.grid.cell(idx(10, 10)).agent_count, 6);
    assert_eq!(sim.grid.cell(idx(11, 10)).agent_count, 2);
    for a in 0..6 {
        assert_eq!(plan[a].goal, Goal::Cell { cell: idx(11, 10) });
    }
    for a in 6..8 {
        assert_eq!(plan[a].goal, Goal::Cell { cell: idx(11, 10) });
    }
    assert_eq!(sim.rng.seed, seed);
}

#[test]
fn plan_lists_the_others_nearby() {
    let (mut sim, _) = init_boids(5, 1);
    let cells = vec![at(5, 5), at(6, 5), at(5, 5), at(8, 5), at(4, 4)];
    let plan = update_boids(&mut sim, &cells);
    assert_eq!(plan.len(), 5);
    // block around (5, 5): row 4 holds agent 4; row 5 holds 2, 0 in (5, 5) and 1 in (6, 5)
    assert_eq!(plan[0].neighbors, vec![4, 2, 1]);
    assert_eq!(plan[2].neighbors, vec![4, 0, 1]);
    assert_eq!(plan[1].neighbors, vec![2, 0]);
    assert_eq!(plan[3].neighbors, Vec::<usize>::new());
    assert_eq!(plan[4].neighbors, vec![2, 0]);
}

#[test]
fn plan_draws_in_the_order_of_the_agents() {
    let (mut sim, _) = init_boids(0, 0);
    sim.rng.seed = 12345;
    // no target points: every cell is unoccupied and has no flow
    let cells = vec![at(1, 1), at(-1, 1), at(2, 2)];
    let plan = update_boids(&mut sim, &cells);
    assert_eq!(plan[0].goal, Goal::Jitter { jx: 21468, jy: 9988 });
    assert_eq!(plan[1].goal, Goal::Center);
    assert_eq!(plan[2].goal, Goal::Jitter { jx: 22117, jy: 3498 });
    assert_eq!(sim.rng.seed, 229283573);
}

#[test]
fn plan_follows_the_flow_toward_the_target() {
    let (mut sim, _) = init_boids(1, 7);
    assign_targets(&mut sim, &vec![at(2, 2)]);
    let plan = update_boids(&mut sim, &vec![at(5, 2), at(2, 2), at(0, 0)]);
    assert_eq!(plan[0].goal, Goal::Flow { dir: Dir { dx: -1, dy: 0 } });
    assert_eq!(plan[1].goal, Goal::Cell { cell: idx(2, 2) });
    assert_eq!(plan[2].goal, Goal::Flow { dir: Dir { dx: 1, dy: 1 } });
}

#[test]
fn frame_keeps_targets_and_targets_keep_agent_counts() {
    let (mut sim, _) = init_boids(2, 7);
    assign_targets(&mut sim, &vec![at(2, 2)]);
    update_boids(&mut sim, &vec![at(3, 3), at(3, 3)]);
    assert!(sim.grid.cell(idx(2, 2)).occupied);
    assert_eq!(sim.grid.cell(idx(3, 3)).flow, Dir { dx: -1, dy: -1 });
    assert_eq!(sim.grid.cell(idx(3, 3)).agent_count, 2);
    assign_targets(&mut sim, &vec![at(30, 20)]);
    assert_eq!(sim.grid.cell(idx(3, 3)).agent_count, 2);
    assert!(!sim.grid.cell(idx(2, 2)).occupied);
    assert_eq!(sim.index.query_3x3(3, 3), vec![1, 0]);
}

#[test]
fn simulation_stays_well_formed() {
    let (mut sim, _) = init_boids(4, 3);
    assert!(sim.is_wf());
    assign_targets(&mut sim, &vec![at(1, 1), at(50, 50)]);
    assert!(sim.is_wf());
    update_boids(&mut sim, &vec![at(1, 1), at(1, 1), at(-3, 2), at(39, 29)]);
    assert!(sim.is_wf());
    sim.grid.cells.pop();
    assert!(!sim.is_wf());
}
