//! The simulation context and the operations that a host drives it with.

use vstd::prelude::*;
use crate::descent::points_nearer;
use crate::distance::any_occupied;
use crate::flow::{flood_fill, flow_field};
use crate::grid::{bucket, cell_slot, lemma_bucket_len, CellPos, Grid, GridCell, CELLS};
use crate::params::{active_count_for, recommended, INITIAL_ACTIVE};
use crate::prng::{nth_draw, seed_after, next_seed, Prng};
use crate::spatial::{exclude, lemma_without_members, stands_near, without, SpatialIndex};
use crate::steer::{choose_goal, draws_of, goal_of, Goal};

verus! {

/// The state in which the generator of a fresh host starts.
pub const DEFAULT_SEED: u32 = 12345;

/// The four draws that place one agent: two for its position, then two for
/// its velocity.
#[derive(Clone, Copy, Debug, PartialEq, Eq, Structural)]
pub struct Spawn {
    pub x: u32,
    pub y: u32,
    pub vx: u32,
    pub vy: u32,
}

/// What one agent is to do in a frame.
#[derive(Debug)]
pub struct Steer {
    /// The other agents in the 3x3 block of cells around the agent, which
    /// the host tests for being close enough to push it away.
    pub neighbors: Vec<usize>,
    /// What the agent seeks.
    pub goal: Goal,
}

/// Everything a simulation keeps between calls, apart from the real-valued
/// state of the agents.
pub struct Simulation {
    pub grid: Grid,
    pub index: SpatialIndex,
    pub rng: Prng,
    /// The recommended population, from the last set of target points.
    pub active_count: i32,
    /// How many target points the last set had.
    pub point_total: usize,
}

impl Simulation {
    /// The grid and the index are well formed.
    pub open spec fn wf(&self) -> bool {
        self.grid.wf() && self.index.wf()
    }

    /// Whether the grid and the index are well formed.
    pub fn is_wf(&self) -> (ok: bool)
        ensures
            ok == self.wf(),
    {
        self.grid.is_wf() && self.index.is_wf()
    }
}

/// The draws that place agent `a`, for a generator started at `seed`.
pub open spec fn spawn_of(seed: u32, a: nat) -> Spawn {
    Spawn {
        x: nth_draw(seed, 4 * a),
        y: nth_draw(seed, 4 * a + 1),
        vx: nth_draw(seed, 4 * a + 2),
        vy: nth_draw(seed, 4 * a + 3),
    }
}

/// Which cells hold at least one of `points`.
pub open spec fn occupancy(points: Seq<CellPos>) -> Seq<bool> {
    Seq::new(CELLS as nat, |c: int| bucket(points, c, points.len()).len() > 0)
}

/// The state of the generator when agent `a` is about to choose its goal, the
/// agents before it having chosen theirs in order.
pub open spec fn seed_at(grid: Seq<GridCell>, cells: Seq<CellPos>, seed: u32, a: nat) -> u32
    decreases a,
{
    if a == 0 {
        seed
    } else {
        let before = seed_at(grid, cells, seed, (a - 1) as nat);
        seed_after(before, draws_of(goal_of(grid, cells[a - 1], before)))
    }
}

/// Starts a simulation of `count` agents with a generator in the state `seed`.
///
/// The grid is empty and the index holds no chains. The draws for the agents'
/// starting positions and velocities are returned, four for each agent in order.
pub fn init_boids(count: i32, seed: u32) -> (made: (Simulation, Vec<Spawn>))
    requires
        count >= 0,
    ensures
        made.0.wf(),
        made.0.index.agents() == count,
        forall|c: int| 0 <= c < CELLS ==> #[trigger] made.0.index.chain(c) == Seq::<usize>::empty(),
        forall|c: int| 0 <= c < CELLS ==> (#[trigger] made.0.grid.cells[c]).is_empty(),
        made.0.active_count == INITIAL_ACTIVE,
        made.0.point_total == 0,
        made.0.rng.seed == seed_after(seed, 4 * count as nat),
        made.1.len() == count,
        forall|a: int| 0 <= a < count ==> #[trigger] made.1[a] == spawn_of(seed, a as nat),
{
    let n = count as usize;
    let mut rng = Prng::new(seed);
    let mut spawns: Vec<Spawn> = Vec::new();
    let mut a: usize = 0;
    while a < n
        invariant
            a <= n,
            n == count,
            spawns.len() == a,
            rng.seed == seed_after(seed, 4 * a as nat),
            forall|k: int| 0 <= k < a ==> #[trigger] spawns[k] == spawn_of(seed, k as nat),
        decreases n - a,
    {
        proof {
            let base = (4 * a) as nat;
            assert(seed_after(seed, base + 1) == next_seed(seed_after(seed, base)));
            assert(seed_after(seed, base + 2) == next_seed(seed_after(seed, base + 1)));
            assert(seed_after(seed, base + 3) == next_seed(seed_after(seed, base + 2)));
            assert(seed_after(seed, base + 4) == next_seed(seed_after(seed, base + 3)));
        }
        let x = rng.next_raw();
        let y = rng.next_raw();
        let vx = rng.next_raw();
        let vy = rng.next_raw();
        spawns.push(Spawn { x, y, vx, vy });
        a = a + 1;
    }
    let sim = Simulation {
        grid: Grid::new(),
        index: SpatialIndex::new(n),
        rng,
        active_count: INITIAL_ACTIVE,
        point_total: 0,
    };
    (sim, spawns)
}

/// What a new set of target points makes of a simulation.
///
/// Every cell is told how many points fell into it and whether any did, and
/// gets the direction that the flood fill from the occupied cells gives it.
/// The cells' agent counts stay, and so do the index and the generator. The
/// recommended population follows the number of points.
pub open spec fn retargeted(before: Simulation, points: Seq<CellPos>, after: Simulation) -> bool {
    &&& after.wf()
    &&& after.index == before.index
    &&& after.rng == before.rng
    &&& after.point_total == points.len()
    &&& after.active_count == recommended(points.len())
    &&& forall|c: int|
        0 <= c < CELLS ==> #[trigger] after.grid.cells[c] == (GridCell {
            occupied: bucket(points, c, points.len()).len() > 0,
            point_count: bucket(points, c, points.len()).len() as usize,
            flow: flow_field(occupancy(points))[c],
            agent_count: before.grid.cells[c].agent_count,
        })
}

/// The same target points give the same field, whatever the simulation held
/// before: the occupied flags, the point counts, the directions and the
/// recommended population depend on the points alone.
pub proof fn lemma_retarget_deterministic(
    a: Simulation,
    b: Simulation,
    points: Seq<CellPos>,
    a2: Simulation,
    b2: Simulation,
)
    requires
        retargeted(a, points, a2),
        retargeted(b, points, b2),
    ensures
        a2.active_count == b2.active_count,
        a2.point_total == b2.point_total,
        forall|c: int|
            0 <= c < CELLS ==> (#[trigger] a2.grid.cells[c]).occupied == b2.grid.cells[c].occupied
                && a2.grid.cells[c].point_count == b2.grid.cells[c].point_count
                && a2.grid.cells[c].flow == b2.grid.cells[c].flow,
{
    assert forall|c: int| 0 <= c < CELLS implies (#[trigger] a2.grid.cells[c]).occupied
        == b2.grid.cells[c].occupied && a2.grid.cells[c].point_count
        == b2.grid.cells[c].point_count && a2.grid.cells[c].flow == b2.grid.cells[c].flow by {
        assert(b2.grid.cells[c].flow == flow_field(occupancy(points))[c]);
    }
}

/// Taking the same target points a second time changes nothing.
pub proof fn lemma_retarget_repeat(
    a: Simulation,
    points: Seq<CellPos>,
    a2: Simulation,
    a3: Simulation,
)
    requires
        retargeted(a, points, a2),
        retargeted(a2, points, a3),
    ensures
        a3.grid.cells@ == a2.grid.cells@,
        a3.index == a2.index,
        a3.rng == a2.rng,
        a3.active_count == a2.active_count,
        a3.point_total == a2.point_total,
{
    assert forall|c: int| 0 <= c < CELLS implies a3.grid.cells[c] == a2.grid.cells[c] by {
        assert(a2.grid.cells[c].agent_count == a.grid.cells[c].agent_count);
    }
    assert(a3.grid.cells@ =~= a2.grid.cells@);
}

/// Takes a new set of target points and rebuilds the flow field from it.
///
/// `points[p]` is the cell of target point `p`; points outside the grid are
/// passed over. An occupied cell has no direction. Where any cell is occupied,
/// every other cell's direction is a step to a neighbour that is nearer by one
/// to the occupied cells; where none is, no cell has a direction.
pub fn assign_targets(sim: &mut Simulation, points: &Vec<CellPos>)
    requires
        old(sim).wf(),
    ensures
        retargeted(*old(sim), points@, *final(sim)),
        forall|c: int|
            0 <= c < CELLS && (#[trigger] final(sim).grid.cells[c]).occupied
                ==> final(sim).grid.cells[c].flow.is_zero(),
        any_occupied(occupancy(points@)) ==> forall|c: int|
            0 <= c < CELLS && !(#[trigger] final(sim).grid.cells[c]).occupied ==> points_nearer(
                occupancy(points@),
                c,
                final(sim).grid.cells[c].flow,
            ),
        !any_occupied(occupancy(points@)) ==> forall|c: int|
            0 <= c < CELLS ==> (#[trigger] final(sim).grid.cells[c]).flow.is_zero(),
{
    sim.point_total = points.len();
    sim.active_count = active_count_for(points.len());
    let mut counts: Vec<usize> = Vec::new();
    let mut c: usize = 0;
    while c < CELLS
        invariant
            c <= CELLS,
            counts.len() == c,
            forall|k: int| 0 <= k < c ==> #[trigger] counts[k] == 0,
        decreases CELLS - c,
    {
        counts.push(0);
        c = c + 1;
    }
    let n = points.len();
    let mut p: usize = 0;
    while p < n
        invariant
            p <= n,
            n == points.len(),
            counts.len() == CELLS,
            forall|k: int|
                0 <= k < CELLS ==> #[trigger] counts[k] == bucket(points@, k, p as nat).len(),
        decreases n - p,
    {
        let pos = points[p];
        match cell_slot(pos.col as i64, pos.row as i64) {
            Some(idx) => {
                proof {
                    lemma_bucket_len(points@, idx as int, p as nat);
                }
                let tally = counts[idx];
                counts.set(idx, tally + 1);
            },
            None => {},
        }
        p = p + 1;
    }
    let mut occupied: Vec<bool> = Vec::new();
    let mut c: usize = 0;
    while c < CELLS
        invariant
            c <= CELLS,
            counts.len() == CELLS,
            occupied.len() == c,
            forall|k: int| 0 <= k < c ==> #[trigger] occupied[k] == (counts[k] > 0),
        decreases CELLS - c,
    {
        occupied.push(counts[c] > 0);
        c = c + 1;
    }
    assert(occupied@ =~= occupancy(points@));
    let flow = flood_fill(&occupied);
    let mut c: usize = 0;
    while c < CELLS
        invariant
            c <= CELLS,
            counts.len() == CELLS,
            occupied.len() == CELLS,
            flow.len() == CELLS,
            sim.grid.cells.len() == CELLS,
            sim.index == old(sim).index,
            sim.rng == old(sim).rng,
            sim.point_total == points.len(),
            sim.active_count == recommended(points.len() as nat),
            forall|k: int|
                0 <= k < c ==> #[trigger] sim.grid.cells[k] == (GridCell {
                    occupied: occupied[k],
                    point_count: counts[k],
                    flow: flow[k],
                    agent_count: old(sim).grid.cells[k].agent_count,
                }),
            forall|k: int| c <= k < CELLS ==> #[trigger] sim.grid.cells[k] == old(sim).grid.cells[k],
        decreases CELLS - c,
    {
        let agent_count = sim.grid.cells[c].agent_count;
        sim.grid.cells.set(
            c,
            GridCell { occupied: occupied[c], point_count: counts[c], flow: flow[c], agent_count },
        );
        c = c + 1;
    }
}

/// Plans one frame: indexes the agents by cell and decides, for each agent in
/// order, which agents it has to keep apart from and what it seeks.
///
/// `cells[a]` is the cell of agent `a`. The index is rebuilt from `cells` and
/// each cell's agent count is set; the rest of the grid stays. Agent `a` gets
/// the other agents of the 3x3 block around its cell and the goal that its
/// cell calls for. The generator is advanced by the draws of the goals, taken
/// in the order of the agents.
pub fn update_boids(sim: &mut Simulation, cells: &Vec<CellPos>) -> (plan: Vec<Steer>)
    requires
        old(sim).wf(),
    ensures
        final(sim).wf(),
        final(sim).active_count == old(sim).active_count,
        final(sim).point_total == old(sim).point_total,
        final(sim).index.agents() == cells.len(),
        final(sim).index.indexes(cells@),
        forall|c: int|
            0 <= c < CELLS ==> #[trigger] final(sim).grid.cells[c] == (GridCell {
                agent_count: bucket(cells@, c, cells.len() as nat).len() as usize,
                ..old(sim).grid.cells[c]
            }),
        plan.len() == cells.len(),
        forall|a: int|
            0 <= a < cells.len() ==> (#[trigger] plan[a]).neighbors@ == without(
                final(sim).index.neighborhood(cells[a].col as int, cells[a].row as int),
                a as usize,
            ),
        forall|a: int|
            0 <= a < cells.len() ==> (#[trigger] plan[a]).goal == goal_of(
                final(sim).grid.cells@,
                cells[a],
                seed_at(final(sim).grid.cells@, cells@, old(sim).rng.seed, a as nat),
            ),
        final(sim).rng.seed == seed_at(
            final(sim).grid.cells@,
            cells@,
            old(sim).rng.seed,
            cells.len() as nat,
        ),
{
    sim.index.rebuild(cells, &mut sim.grid);
    let ghost grid = sim.grid.cells@;
    let ghost index = sim.index;
    let ghost seed = sim.rng.seed;
    let mut plan: Vec<Steer> = Vec::new();
    let n = cells.len();
    let mut a: usize = 0;
    while a < n
        invariant
            a <= n,
            n == cells.len(),
            sim.wf(),
            sim.grid.cells@ == grid,
            sim.index == index,
            sim.active_count == old(sim).active_count,
            sim.point_total == old(sim).point_total,
            sim.rng.seed == seed_at(grid, cells@, seed, a as nat),
            plan.len() == a,
            forall|k: int|
                0 <= k < a ==> (#[trigger] plan[k]).neighbors@ == without(
                    index.neighborhood(cells[k].col as int, cells[k].row as int),
                    k as usize,
                ),
            forall|k: int|
                0 <= k < a ==> (#[trigger] plan[k]).goal == goal_of(
                    grid,
                    cells[k],
                    seed_at(grid, cells@, seed, k as nat),
                ),
        decreases n - a,
    {
        let pos = cells[a];
        let found = sim.index.query_3x3(pos.col, pos.row);
        let neighbors = exclude(&found, a);
        let goal = choose_goal(&sim.grid, pos, &mut sim.rng);
        plan.push(Steer { neighbors, goal });
        a = a + 1;
    }
    plan
}

/// The agents that an agent has to keep apart from are the other agents that
/// stand in the grid at most one column and one row from it.
pub proof fn lemma_neighbors_stand_near(
    index: SpatialIndex,
    cells: Seq<CellPos>,
    agent: usize,
    other: usize,
)
    requires
        index.indexes(cells),
        agent < cells.len(),
    ensures
        without(
            index.neighborhood(cells[agent as int].col as int, cells[agent as int].row as int),
            agent,
        ).contains(other) <==> (other != agent && stands_near(
            cells,
            other,
            cells[agent as int].col as int,
            cells[agent as int].row as int,
        )),
{
    let col = cells[agent as int].col as int;
    let row = cells[agent as int].row as int;
    lemma_without_members(index.neighborhood(col, row), agent, other);
    index.lemma_neighborhood_members(cells, col, row, other);
}

/// The recommended population: advice to the host, which decides how many of
/// the agents it shows. The simulation itself always plans for all of them.
pub fn get_active_boid_count(sim: &Simulation) -> (count: i32)
    ensures
        count == sim.active_count,
{
    sim.active_count
}

} // verus!
