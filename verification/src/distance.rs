//! How far a cell is from the nearest occupied cell, counted in steps to a
//! neighbour, diagonal steps included.

use vstd::prelude::*;
use crate::flow::{neighbor, offset};
use crate::grid::{col_of, row_of, slot_of, CELLS, COLS};

verus! {

/// The distance between two numbers.
pub open spec fn span(a: int, b: int) -> int {
    if a < b {
        b - a
    } else {
        a - b
    }
}

/// The number of steps between the cells with indices `a` and `b`: the larger
/// of their distances in columns and in rows.
pub open spec fn steps_between(a: int, b: int) -> int {
    let across = span(col_of(a), col_of(b));
    let down = span(row_of(a), row_of(b));
    if across > down {
        across
    } else {
        down
    }
}

/// The number of steps from `cell` to the nearest occupied cell among those
/// with an index below `n`; `COLS`, which is more than any two cells are
/// apart, where none of them is occupied.
pub open spec fn nearest(occupied: Seq<bool>, cell: int, n: nat) -> int
    decreases n,
{
    if n == 0 {
        COLS as int
    } else {
        let rest = nearest(occupied, cell, (n - 1) as nat);
        if occupied[n - 1] && steps_between(cell, n - 1) < rest {
            steps_between(cell, n - 1)
        } else {
            rest
        }
    }
}

/// The number of steps from `cell` to the nearest occupied cell.
pub open spec fn distance(occupied: Seq<bool>, cell: int) -> int {
    nearest(occupied, cell, CELLS as nat)
}

/// Some cell is occupied.
pub open spec fn any_occupied(occupied: Seq<bool>) -> bool {
    exists|o: int| 0 <= o < CELLS && #[trigger] occupied[o]
}

/// No occupied cell below `n` is nearer than `nearest` says.
pub proof fn lemma_nearest_le(occupied: Seq<bool>, cell: int, n: nat, o: int)
    requires
        0 <= o < n,
        occupied[o],
    ensures
        nearest(occupied, cell, n) <= steps_between(cell, o),
    decreases n,
{
    if o < n - 1 {
        lemma_nearest_le(occupied, cell, (n - 1) as nat, o);
    }
}

/// `nearest` is the distance to some occupied cell below `n`, if there is one.
pub proof fn lemma_nearest_witness(occupied: Seq<bool>, cell: int, n: nat) -> (o: int)
    requires
        0 <= cell < CELLS,
        n <= CELLS,
    ensures
        0 <= nearest(occupied, cell, n) <= COLS,
        nearest(occupied, cell, n) == COLS ==> forall|i: int| 0 <= i < n ==> !occupied[i],
        nearest(occupied, cell, n) < COLS ==> 0 <= o < n && occupied[o] && steps_between(cell, o)
            == nearest(occupied, cell, n),
    decreases n,
{
    if n == 0 {
        0
    } else {
        let before = lemma_nearest_witness(occupied, cell, (n - 1) as nat);
        if occupied[n - 1] && steps_between(cell, n - 1) < nearest(
            occupied,
            cell,
            (n - 1) as nat,
        ) {
            n - 1
        } else {
            before
        }
    }
}

/// An occupied cell is at distance zero, and no other cell is.
pub proof fn lemma_distance_zero(occupied: Seq<bool>, cell: int)
    requires
        0 <= cell < CELLS,
    ensures
        0 <= distance(occupied, cell) <= COLS,
        occupied[cell] <==> distance(occupied, cell) == 0,
{
    let o = lemma_nearest_witness(occupied, cell, CELLS as nat);
    if occupied[cell] {
        lemma_nearest_le(occupied, cell, CELLS as nat, cell);
    }
}

/// Cells one step apart differ by at most one in their distance.
pub proof fn lemma_distance_adjacent(occupied: Seq<bool>, a: int, b: int)
    requires
        0 <= a < CELLS,
        0 <= b < CELLS,
        steps_between(a, b) <= 1,
    ensures
        distance(occupied, a) <= distance(occupied, b) + 1,
{
    let o = lemma_nearest_witness(occupied, b, CELLS as nat);
    let o2 = lemma_nearest_witness(occupied, a, CELLS as nat);
    if distance(occupied, b) < COLS {
        lemma_nearest_le(occupied, a, CELLS as nat, o);
    }
}

/// From a cell that is not occupied, one step leads to a cell that is nearer
/// by one to the occupied cells.
pub proof fn lemma_step_toward(occupied: Seq<bool>, cell: int) -> (p: int)
    requires
        0 <= cell < CELLS,
        any_occupied(occupied),
        !occupied[cell],
    ensures
        0 <= p < CELLS,
        steps_between(cell, p) == 1,
        distance(occupied, p) + 1 == distance(occupied, cell),
{
    let o = lemma_nearest_witness(occupied, cell, CELLS as nat);
    lemma_distance_zero(occupied, cell);
    let any = choose|i: int| 0 <= i < CELLS && #[trigger] occupied[i];
    assert(distance(occupied, cell) < COLS);
    let sx: int = if col_of(o) > col_of(cell) {
        1
    } else if col_of(o) < col_of(cell) {
        -1
    } else {
        0
    };
    let sy: int = if row_of(o) > row_of(cell) {
        1
    } else if row_of(o) < row_of(cell) {
        -1
    } else {
        0
    };
    let p = (row_of(cell) + sy) * COLS + (col_of(cell) + sx);
    assert(col_of(p) == col_of(cell) + sx && row_of(p) == row_of(cell) + sy);
    assert(steps_between(p, o) == steps_between(cell, o) - 1);
    lemma_nearest_le(occupied, p, CELLS as nat, o);
    lemma_distance_adjacent(occupied, cell, p);
    p
}

/// A neighbour of a cell is one step from it.
pub proof fn lemma_neighbor_adjacent(cell: int, k: int)
    requires
        0 <= cell < CELLS,
        0 <= k < 8,
    ensures
        neighbor(cell, k) matches Some(n) ==> n < CELLS && steps_between(cell, n as int) == 1
            && col_of(n as int) == col_of(cell) + offset(k).dx && row_of(n as int) == row_of(cell)
            + offset(k).dy,
{
}

/// A cell one step from another is one of its eight neighbours.
pub proof fn lemma_adjacent_neighbor(cell: int, other: int) -> (k: int)
    requires
        0 <= cell < CELLS,
        0 <= other < CELLS,
        steps_between(cell, other) == 1,
    ensures
        0 <= k < 8,
        neighbor(cell, k) == Some(other as usize),
{
    let dx = col_of(other) - col_of(cell);
    let dy = row_of(other) - row_of(cell);
    let k: int = if dx == 0 && dy == -1 {
        0
    } else if dx == 0 && dy == 1 {
        1
    } else if dx == -1 && dy == 0 {
        2
    } else if dx == 1 && dy == 0 {
        3
    } else if dx == -1 && dy == -1 {
        4
    } else if dx == -1 && dy == 1 {
        5
    } else if dx == 1 && dy == -1 {
        6
    } else {
        7
    };
    assert(slot_of(col_of(cell) + dx, row_of(cell) + dy) == Some(other as usize));
    k
}

} // verus!
