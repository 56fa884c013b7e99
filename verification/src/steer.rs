//! The goal of an agent: what it should seek, given the cell it is in.

use vstd::prelude::*;
use crate::grid::{cell_slot, slot_of, CellPos, Dir, Grid, GridCell, CELLS, DENSITY_LIMIT};
use crate::prng::{nth_draw, seed_after, Prng};

verus! {

/// How many rings around a crowded cell are searched for a cell with room.
pub const SEARCH_RADIUS: i64 = 4;

/// The ring that the offset `(dx, dy)` lies on: the larger of the two distances.
pub open spec fn ring(dx: int, dy: int) -> int {
    let ax = if dx < 0 { -dx } else { dx };
    let ay = if dy < 0 { -dy } else { dy };
    if ax > ay { ax } else { ay }
}

/// The offset lies on one of the rings that are searched.
pub open spec fn in_reach(dx: int, dy: int) -> bool {
    1 <= ring(dx, dy) <= SEARCH_RADIUS
}

/// The cell at the offset `(dx, dy)` from `(col, row)` is in the grid, occupied,
/// and holds fewer agents than the density limit.
pub open spec fn room_at(grid: Seq<GridCell>, col: int, row: int, dx: int, dy: int) -> bool {
    match slot_of(col + dx, row + dy) {
        Some(n) => grid[n as int].occupied && grid[n as int].agent_count < DENSITY_LIMIT,
        None => false,
    }
}

/// The search looks at the offset `(ex, ey)` before it looks at `(dx, dy)`:
/// inner rings first, within a ring from the top row down, within a row from
/// left to right.
pub open spec fn scanned_before(ex: int, ey: int, dx: int, dy: int) -> bool {
    ring(ex, ey) < ring(dx, dy) || (ring(ex, ey) == ring(dx, dy) && (ey < dy || (ey == dy && ex
        < dx)))
}

/// `(dx, dy)` is the first offset in reach, in the order of the search, whose
/// cell has room.
pub open spec fn first_room(grid: Seq<GridCell>, col: int, row: int, dx: int, dy: int) -> bool {
    &&& in_reach(dx, dy)
    &&& room_at(grid, col, row, dx, dy)
    &&& forall|ex: int, ey: int|
        in_reach(ex, ey) && scanned_before(ex, ey, dx, dy) ==> !#[trigger] room_at(
            grid,
            col,
            row,
            ex,
            ey,
        )
}

/// No cell in reach of `(col, row)` has room.
pub open spec fn no_room(grid: Seq<GridCell>, col: int, row: int) -> bool {
    forall|ex: int, ey: int| in_reach(ex, ey) ==> !#[trigger] room_at(grid, col, row, ex, ey)
}

/// The cell that the agents of a crowded cell at `(col, row)` are sent to: the
/// first cell with room, if there is one.
pub open spec fn reroute_target(grid: Seq<GridCell>, col: int, row: int) -> Option<usize> {
    if exists|dx: int, dy: int| first_room(grid, col, row, dx, dy) {
        let (dx, dy) = choose|dx: int, dy: int| first_room(grid, col, row, dx, dy);
        slot_of(col + dx, row + dy)
    } else {
        None
    }
}

/// There is at most one first cell with room.
pub proof fn lemma_first_room_unique(
    grid: Seq<GridCell>,
    col: int,
    row: int,
    dx: int,
    dy: int,
    ex: int,
    ey: int,
)
    requires
        first_room(grid, col, row, dx, dy),
        first_room(grid, col, row, ex, ey),
    ensures
        dx == ex,
        dy == ey,
{
    if scanned_before(ex, ey, dx, dy) {
        assert(!room_at(grid, col, row, ex, ey));
    }
    if scanned_before(dx, dy, ex, ey) {
        assert(!room_at(grid, col, row, dx, dy));
    }
}

/// What an agent seeks.
#[derive(Clone, Copy, Debug, PartialEq, Eq, Structural)]
pub enum Goal {
    /// The centroid of the target points in the cell with index `cell`.
    Cell { cell: usize },
    /// The centroid of the cell with index `cell`, moved by a random amount on
    /// each axis; `jx` and `jy` are the two draws, in the order drawn.
    CellJitter { cell: usize, jx: u32, jy: u32 },
    /// The direction `dir`.
    Flow { dir: Dir },
    /// A random direction; `jx` and `jy` are the two draws, in the order drawn.
    Jitter { jx: u32, jy: u32 },
    /// The centre of the world.
    Center,
}

/// The goal of an agent in the cell `pos`, for a generator in the state `seed`.
///
/// Outside the grid the agent seeks the centre of the world. In an occupied
/// cell it seeks the cell's centroid, unless the cell holds more agents than
/// the density limit: then it seeks the first cell with room nearby, or, where
/// there is none, a point near its own cell's centroid. In an unoccupied cell
/// it follows the flow, or wanders where the cell has none.
pub open spec fn goal_of(grid: Seq<GridCell>, pos: CellPos, seed: u32) -> Goal {
    match pos.slot() {
        None => Goal::Center,
        Some(home) => {
            let cell = grid[home as int];
            if cell.occupied {
                if cell.agent_count > DENSITY_LIMIT {
                    match reroute_target(grid, pos.col as int, pos.row as int) {
                        Some(target) => Goal::Cell { cell: target },
                        None => Goal::CellJitter {
                            cell: home,
                            jx: nth_draw(seed, 0),
                            jy: nth_draw(seed, 1),
                        },
                    }
                } else {
                    Goal::Cell { cell: home }
                }
            } else if cell.flow.is_zero() {
                Goal::Jitter { jx: nth_draw(seed, 0), jy: nth_draw(seed, 1) }
            } else {
                Goal::Flow { dir: cell.flow }
            }
        },
    }
}

/// How many numbers are drawn in choosing `goal`.
pub open spec fn draws_of(goal: Goal) -> nat {
    match goal {
        Goal::CellJitter { .. } => 2,
        Goal::Jitter { .. } => 2,
        _ => 0,
    }
}

/// Searches the rings around `(col, row)` for the first cell with room.
pub fn find_room(grid: &Grid, col: i32, row: i32) -> (found: Option<usize>)
    requires
        grid.wf(),
    ensures
        found == reroute_target(grid.cells@, col as int, row as int),
        found matches Some(target) ==> target < CELLS && exists|dx: int, dy: int|
            first_room(grid.cells@, col as int, row as int, dx, dy) && slot_of(col + dx, row + dy)
                == Some(target),
        found is None ==> no_room(grid.cells@, col as int, row as int),
{
    let mut r: i64 = 1;
    while r <= SEARCH_RADIUS
        invariant
            1 <= r <= SEARCH_RADIUS + 1,
            grid.wf(),
            forall|ex: int, ey: int|
                in_reach(ex, ey) && ring(ex, ey) < r ==> !#[trigger] room_at(
                    grid.cells@,
                    col as int,
                    row as int,
                    ex,
                    ey,
                ),
        decreases SEARCH_RADIUS + 1 - r,
    {
        let mut dy: i64 = -r;
        while dy <= r
            invariant
                1 <= r <= SEARCH_RADIUS,
                -r <= dy <= r + 1,
                grid.wf(),
                forall|ex: int, ey: int|
                    in_reach(ex, ey) && (ring(ex, ey) < r || (ring(ex, ey) == r && ey < dy))
                        ==> !#[trigger] room_at(grid.cells@, col as int, row as int, ex, ey),
            decreases r + 1 - dy,
        {
            let mut dx: i64 = -r;
            while dx <= r
                invariant
                    1 <= r <= SEARCH_RADIUS,
                    -r <= dy <= r,
                    -r <= dx <= r + 1,
                    grid.wf(),
                    forall|ex: int, ey: int|
                        in_reach(ex, ey) && (ring(ex, ey) < r || (ring(ex, ey) == r && (ey < dy || (
                        ey == dy && ex < dx)))) ==> !#[trigger] room_at(
                            grid.cells@,
                            col as int,
                            row as int,
                            ex,
                            ey,
                        ),
                decreases r + 1 - dx,
            {
                if dx == -r || dx == r || dy == -r || dy == r {
                    match cell_slot(col as i64 + dx, row as i64 + dy) {
                        Some(n) => {
                            let cell = grid.cells[n];
                            if cell.occupied && cell.agent_count < DENSITY_LIMIT {
                                proof {
                                    let g = grid.cells@;
                                    assert(ring(dx as int, dy as int) == r);
                                    assert(first_room(g, col as int, row as int, dx as int, dy as int));
                                    let (fx, fy) = choose|fx: int, fy: int|
                                        first_room(g, col as int, row as int, fx, fy);
                                    lemma_first_room_unique(
                                        g,
                                        col as int,
                                        row as int,
                                        dx as int,
                                        dy as int,
                                        fx,
                                        fy,
                                    );
                                }
                                return Some(n);
                            }
                        },
                        None => {},
                    }
                }
                dx = dx + 1;
            }
            dy = dy + 1;
        }
        r = r + 1;
    }
    None
}

/// Chooses the goal of an agent in the cell `pos`, drawing from `rng` where
/// the goal calls for chance.
pub fn choose_goal(grid: &Grid, pos: CellPos, rng: &mut Prng) -> (goal: Goal)
    requires
        grid.wf(),
    ensures
        goal == goal_of(grid.cells@, pos, old(rng).seed),
        final(rng).seed == seed_after(old(rng).seed, draws_of(goal)),
{
    match cell_slot(pos.col as i64, pos.row as i64) {
        None => Goal::Center,
        Some(home) => {
            let cell = grid.cells[home];
            if cell.occupied {
                if cell.agent_count > DENSITY_LIMIT {
                    match find_room(grid, pos.col, pos.row) {
                        Some(target) => Goal::Cell { cell: target },
                        None => {
                            let (jx, jy) = draw_pair(rng);
                            Goal::CellJitter { cell: home, jx, jy }
                        },
                    }
                } else {
                    Goal::Cell { cell: home }
                }
            } else if cell.flow.dx == 0 && cell.flow.dy == 0 {
                let (jx, jy) = draw_pair(rng);
                Goal::Jitter { jx, jy }
            } else {
                Goal::Flow { dir: cell.flow }
            }
        },
    }
}

/// Draws two numbers, the first for the x axis and the second for the y axis.
pub fn draw_pair(rng: &mut Prng) -> (pair: (u32, u32))
    ensures
        pair.0 == nth_draw(old(rng).seed, 0),
        pair.1 == nth_draw(old(rng).seed, 1),
        final(rng).seed == seed_after(old(rng).seed, 2),
{
    proof {
        assert(seed_after(rng.seed, 1) == crate::prng::next_seed(seed_after(rng.seed, 0)));
        assert(seed_after(rng.seed, 2) == crate::prng::next_seed(seed_after(rng.seed, 1)));
    }
    let jx = rng.next_raw();
    let jy = rng.next_raw();
    (jx, jy)
}

} // verus!
