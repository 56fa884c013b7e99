//! The bucket grid: a fixed tiling of the world into `COLS` by `ROWS` cells.

use vstd::prelude::*;

verus! {

/// Number of cell columns.
pub const COLS: usize = 40;

/// Number of cell rows.
pub const ROWS: usize = 30;

/// Number of cells, `COLS * ROWS`. Cell `(col, row)` has the index `row * COLS + col`.
pub const CELLS: usize = 1200;

/// Most agents a cell holds before the agents in it look for another cell.
pub const DENSITY_LIMIT: usize = 5;

/// Whether column `col` and row `row` name a cell of the grid.
pub open spec fn in_grid(col: int, row: int) -> bool {
    0 <= col < COLS && 0 <= row < ROWS
}

/// The index of the cell at column `col` and row `row`, if the grid has it.
pub open spec fn slot_of(col: int, row: int) -> Option<usize> {
    if in_grid(col, row) {
        Some((row * COLS + col) as usize)
    } else {
        None
    }
}

/// The column of the cell with index `idx`.
pub open spec fn col_of(idx: int) -> int {
    idx % (COLS as int)
}

/// The row of the cell with index `idx`.
pub open spec fn row_of(idx: int) -> int {
    idx / (COLS as int)
}

/// The cell that a position falls into: the floor of each coordinate over the
/// cell size. Either part may lie outside the grid.
#[derive(Clone, Copy, Debug, PartialEq, Eq, Structural)]
pub struct CellPos {
    pub col: i32,
    pub row: i32,
}

impl CellPos {
    /// The index of this cell, if the grid has it.
    pub open spec fn slot(self) -> Option<usize> {
        slot_of(self.col as int, self.row as int)
    }

    /// This is the cell with index `cell`.
    pub open spec fn falls_in(self, cell: int) -> bool {
        in_grid(self.col as int, self.row as int) && self.row * COLS + self.col == cell
    }
}

/// Of the first `n` entries of `cells`, the numbers of those that fall into the
/// cell with index `cell`, the last of them first.
pub open spec fn bucket(cells: Seq<CellPos>, cell: int, n: nat) -> Seq<usize>
    decreases n,
{
    if n == 0 {
        Seq::empty()
    } else if cells[n - 1].falls_in(cell) {
        seq![(n - 1) as usize] + bucket(cells, cell, (n - 1) as nat)
    } else {
        bucket(cells, cell, (n - 1) as nat)
    }
}

/// A bucket over the first `n` entries holds at most `n` of them.
pub proof fn lemma_bucket_len(cells: Seq<CellPos>, cell: int, n: nat)
    ensures
        bucket(cells, cell, n).len() <= n,
    decreases n,
{
    if n > 0 {
        lemma_bucket_len(cells, cell, (n - 1) as nat);
    }
}

/// A bucket holds exactly the entries that fall into its cell, each once, in
/// descending order.
pub proof fn lemma_bucket_members(cells: Seq<CellPos>, cell: int, n: nat)
    requires
        n <= cells.len() <= usize::MAX,
    ensures
        forall|a: usize|
            bucket(cells, cell, n).contains(a) <==> (a < n && cells[a as int].falls_in(cell)),
        forall|i: int, j: int|
            0 <= i < j < bucket(cells, cell, n).len() ==> bucket(cells, cell, n)[i] > bucket(
                cells,
                cell,
                n,
            )[j],
    decreases n,
{
    let b = bucket(cells, cell, n);
    if n > 0 {
        let rest = bucket(cells, cell, (n - 1) as nat);
        lemma_bucket_members(cells, cell, (n - 1) as nat);
        if cells[n - 1].falls_in(cell) {
            let top = (n - 1) as usize;
            assert(b == seq![top] + rest);
            assert forall|a: usize| b.contains(a) <==> (a < n && cells[a as int].falls_in(cell)) by {
                if b.contains(a) {
                    let i = choose|i: int| 0 <= i < b.len() && b[i] == a;
                    if i > 0 {
                        assert(rest[i - 1] == a);
                        assert(rest.contains(a));
                    }
                }
                if a < n && cells[a as int].falls_in(cell) {
                    if a == top {
                        assert(b[0] == a);
                    } else {
                        assert(rest.contains(a));
                        let i = choose|i: int| 0 <= i < rest.len() && rest[i] == a;
                        assert(b[i + 1] == a);
                    }
                }
            }
            assert forall|i: int, j: int| 0 <= i < j < b.len() implies b[i] > b[j] by {
                assert(rest[j - 1] == b[j]);
                assert(rest.contains(b[j]));
                if i > 0 {
                    assert(rest[i - 1] == b[i]);
                }
            }
        } else {
            assert(b == rest);
        }
    } else {
        assert(b.len() == 0);
    }
}

/// A step from a cell to one of its eight neighbours, or no step at all: each
/// part is -1, 0 or 1. The host turns it into a unit vector.
#[derive(Clone, Copy, Debug, PartialEq, Eq, Structural)]
pub struct Dir {
    pub dx: i8,
    pub dy: i8,
}

impl Dir {
    /// No direction.
    pub open spec fn is_zero(self) -> bool {
        self.dx == 0 && self.dy == 0
    }

    /// A step to one of the eight neighbours.
    pub open spec fn is_step(self) -> bool {
        -1 <= self.dx <= 1 && -1 <= self.dy <= 1 && !self.is_zero()
    }
}

/// One bucket of the grid.
///
/// `flow` is meaningful where `occupied` is false; the centroid of the target
/// points of an occupied cell is real-valued and kept by the host.
#[derive(Clone, Copy, Debug, PartialEq, Eq, Structural)]
pub struct GridCell {
    /// At least one target point fell into this cell at the last rebuild.
    pub occupied: bool,
    /// How many target points fell into this cell.
    pub point_count: usize,
    /// The step toward the nearest occupied region.
    pub flow: Dir,
    /// How many agents the cell held when the spatial index was last rebuilt.
    pub agent_count: usize,
}

impl GridCell {
    /// The cell is unoccupied and has no points, no direction and no agents.
    pub open spec fn is_empty(self) -> bool {
        self == (GridCell {
            occupied: false,
            point_count: 0,
            flow: Dir { dx: 0, dy: 0 },
            agent_count: 0,
        })
    }

    /// An empty cell.
    pub fn empty() -> (cell: GridCell)
        ensures
            cell.is_empty(),
    {
        GridCell { occupied: false, point_count: 0, flow: Dir { dx: 0, dy: 0 }, agent_count: 0 }
    }
}

/// The index of the cell at `(col, row)`, or `None` outside the grid.
pub fn cell_slot(col: i64, row: i64) -> (slot: Option<usize>)
    ensures
        slot == slot_of(col as int, row as int),
{
    if 0 <= col && col < COLS as i64 && 0 <= row && row < ROWS as i64 {
        let idx: i64 = row * COLS as i64 + col;
        Some(idx as usize)
    } else {
        None
    }
}

/// The cells of the grid, by index.
pub struct Grid {
    pub cells: Vec<GridCell>,
}

impl Grid {
    /// The grid has one cell per index.
    pub open spec fn wf(&self) -> bool {
        self.cells.len() == CELLS
    }

    /// Whether the grid has one cell per index.
    pub fn is_wf(&self) -> (ok: bool)
        ensures
            ok == self.wf(),
    {
        self.cells.len() == CELLS
    }

    /// A grid of empty cells.
    pub fn new() -> (grid: Grid)
        ensures
            grid.wf(),
            forall|c: int| 0 <= c < CELLS ==> (#[trigger] grid.cells[c]).is_empty(),
    {
        let mut cells: Vec<GridCell> = Vec::new();
        let mut c: usize = 0;
        while c < CELLS
            invariant
                c <= CELLS,
                cells.len() == c,
                forall|k: int| 0 <= k < c ==> (#[trigger] cells[k]).is_empty(),
            decreases CELLS - c,
        {
            cells.push(GridCell::empty());
            c = c + 1;
        }
        Grid { cells }
    }

    /// The cell with index `idx`.
    pub fn cell(&self, idx: usize) -> (cell: GridCell)
        requires
            self.wf(),
            idx < CELLS,
        ensures
            cell == self.cells[idx as int],
    {
        self.cells[idx]
    }
}

} // verus!
