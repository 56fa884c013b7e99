//! The flow field: a breadth-first flood fill from all occupied cells at once.
//!
//! The fill is stated as a small machine over ghost sequences (`Fill`, `visit`,
//! `step`, `run`), because which of several equally near cells discovers a
//! neighbour first is part of the result. The executable fill is proved to
//! compute exactly what the machine computes.

use vstd::prelude::*;
use std::collections::VecDeque;
use crate::descent::{lemma_flow_field_descends, points_nearer};
use crate::distance::any_occupied;
use crate::grid::{cell_slot, col_of, row_of, slot_of, Dir, CELLS, COLS};

verus! {

/// The eight neighbours of a cell in the order in which the fill looks at
/// them: up, down, left, right, then the four diagonals.
pub open spec fn offset(k: int) -> Dir {
    if k == 0 {
        Dir { dx: 0, dy: -1i8 }
    } else if k == 1 {
        Dir { dx: 0, dy: 1 }
    } else if k == 2 {
        Dir { dx: -1i8, dy: 0 }
    } else if k == 3 {
        Dir { dx: 1, dy: 0 }
    } else if k == 4 {
        Dir { dx: -1i8, dy: -1i8 }
    } else if k == 5 {
        Dir { dx: -1i8, dy: 1 }
    } else if k == 6 {
        Dir { dx: 1, dy: -1i8 }
    } else {
        Dir { dx: 1, dy: 1 }
    }
}

/// The `k`-th neighbour of the cell with index `cell`, if the grid has it.
pub open spec fn neighbor(cell: int, k: int) -> Option<usize> {
    slot_of(col_of(cell) + offset(k).dx, row_of(cell) + offset(k).dy)
}

/// The direction opposite to `d`.
pub open spec fn reversed(d: Dir) -> Dir {
    Dir { dx: (-d.dx) as i8, dy: (-d.dy) as i8 }
}

/// The state of a fill: which cells have been reached, the direction given to
/// each, and the cells that wait for their neighbours to be looked at.
pub struct Fill {
    pub seen: Seq<bool>,
    pub flow: Seq<Dir>,
    pub queue: Seq<usize>,
}

/// Looks at the `k`-th neighbour of `cur`. A neighbour that the grid has and
/// that was not reached before is marked, pointed back at `cur`, and queued;
/// one reached before is left as it is.
pub open spec fn visit(st: Fill, cur: int, k: int) -> Fill {
    match neighbor(cur, k) {
        Some(n) => {
            if n < st.seen.len() && !st.seen[n as int] {
                Fill {
                    seen: st.seen.update(n as int, true),
                    flow: st.flow.update(n as int, reversed(offset(k))),
                    queue: st.queue.push(n),
                }
            } else {
                st
            }
        },
        None => st,
    }
}

/// Looks at the first `k` neighbours of `cur` in order.
pub open spec fn expand(st: Fill, cur: int, k: nat) -> Fill
    decreases k,
{
    if k == 0 {
        st
    } else {
        visit(expand(st, cur, (k - 1) as nat), cur, k - 1)
    }
}

/// Takes the first waiting cell off the queue and looks at its eight neighbours.
pub open spec fn step(st: Fill) -> Fill {
    expand(Fill { queue: st.queue.drop_first(), ..st }, st.queue[0] as int, 8)
}

/// Steps until no cell waits, at most `fuel` times.
pub open spec fn run(st: Fill, fuel: nat) -> Fill
    decreases fuel,
{
    if fuel == 0 || st.queue.len() == 0 {
        st
    } else {
        run(step(st), (fuel - 1) as nat)
    }
}

/// The indices below `n` at which `marks` is true, in ascending order.
pub open spec fn sources(marks: Seq<bool>, n: nat) -> Seq<usize>
    decreases n,
{
    if n == 0 {
        Seq::empty()
    } else if marks[n - 1] {
        sources(marks, (n - 1) as nat).push((n - 1) as usize)
    } else {
        sources(marks, (n - 1) as nat)
    }
}

/// The state in which a fill starts: the occupied cells are reached, wait in
/// ascending order, and no cell has a direction.
pub open spec fn start(occupied: Seq<bool>) -> Fill {
    Fill {
        seen: occupied,
        flow: Seq::new(occupied.len(), |c: int| Dir { dx: 0, dy: 0 }),
        queue: sources(occupied, occupied.len()),
    }
}

/// The directions that the fill from `occupied` leaves in the cells. Every cell
/// waits at most once, so one unit of fuel per cell lets the fill run out.
pub open spec fn flow_field(occupied: Seq<bool>) -> Seq<Dir> {
    run(start(occupied), occupied.len()).flow
}

/// Among the first `n` marks there are at most `n` true ones.
pub proof fn lemma_sources_len(marks: Seq<bool>, n: nat)
    ensures
        sources(marks, n).len() <= n,
    decreases n,
{
    if n > 0 {
        lemma_sources_len(marks, (n - 1) as nat);
    }
}

/// Setting a false mark adds one to the true ones, where it is counted.
pub proof fn lemma_sources_mark(marks: Seq<bool>, c: int, n: nat)
    requires
        0 <= c < marks.len(),
        !marks[c],
        n <= marks.len(),
    ensures
        sources(marks.update(c, true), n).len() == sources(marks, n).len() + (if c < n {
            1int
        } else {
            0int
        }),
    decreases n,
{
    if n > 0 {
        lemma_sources_mark(marks, c, (n - 1) as nat);
    }
}

/// A tally of a fill: the cells taken off the queue so far and the cells that
/// wait are together the cells reached.
pub open spec fn tallied(st: Fill, taken: nat) -> bool {
    &&& st.seen.len() == CELLS
    &&& st.flow.len() == CELLS
    &&& taken + st.queue.len() == sources(st.seen, CELLS as nat).len()
}

/// Looking at one neighbour keeps the tally.
pub proof fn lemma_visit_tallied(st: Fill, cur: int, k: int, taken: nat)
    requires
        tallied(st, taken),
    ensures
        tallied(visit(st, cur, k), taken),
{
    match neighbor(cur, k) {
        Some(n) => {
            if n < st.seen.len() && !st.seen[n as int] {
                lemma_sources_mark(st.seen, n as int, CELLS as nat);
            }
        },
        None => {},
    }
}

/// Looking at several neighbours keeps the tally.
pub proof fn lemma_expand_tallied(st: Fill, cur: int, k: nat, taken: nat)
    requires
        tallied(st, taken),
    ensures
        tallied(expand(st, cur, k), taken),
    decreases k,
{
    if k > 0 {
        lemma_expand_tallied(st, cur, (k - 1) as nat, taken);
        lemma_visit_tallied(expand(st, cur, (k - 1) as nat), cur, k - 1, taken);
    }
}

/// A fill whose tally holds runs out of waiting cells before it runs out of fuel.
pub proof fn lemma_run_ends(st: Fill, taken: nat, fuel: nat)
    requires
        tallied(st, taken),
        taken + fuel >= CELLS,
    ensures
        run(st, fuel).queue.len() == 0,
        run(st, fuel).seen.len() == CELLS,
        run(st, fuel).flow.len() == CELLS,
    decreases fuel,
{
    lemma_sources_len(st.seen, CELLS as nat);
    if st.queue.len() > 0 {
        let popped = Fill { queue: st.queue.drop_first(), ..st };
        assert(tallied(popped, taken + 1));
        lemma_expand_tallied(popped, st.queue[0] as int, 8, taken + 1);
        lemma_run_ends(step(st), taken + 1, (fuel - 1) as nat);
    }
}

/// The `k`-th neighbour offset.
pub fn neighbor_offset(k: usize) -> (d: Dir)
    requires
        k < 8,
    ensures
        d == offset(k as int),
{
    if k == 0 {
        Dir { dx: 0, dy: -1 }
    } else if k == 1 {
        Dir { dx: 0, dy: 1 }
    } else if k == 2 {
        Dir { dx: -1, dy: 0 }
    } else if k == 3 {
        Dir { dx: 1, dy: 0 }
    } else if k == 4 {
        Dir { dx: -1, dy: -1 }
    } else if k == 5 {
        Dir { dx: -1, dy: 1 }
    } else if k == 6 {
        Dir { dx: 1, dy: -1 }
    } else {
        Dir { dx: 1, dy: 1 }
    }
}

/// Fills the grid from the occupied cells and returns the direction of every cell.
///
/// An occupied cell gets no direction. Every other cell points at the cell that
/// reached it first, when the occupied cells start in ascending order and each
/// cell in turn looks at its neighbours in the order of `offset`; that cell is
/// nearer by one to the occupied cells. With no occupied cell nothing is
/// reached and no cell gets a direction.
pub fn flood_fill(occupied: &Vec<bool>) -> (flow: Vec<Dir>)
    requires
        occupied.len() == CELLS,
    ensures
        flow@ == flow_field(occupied@),
        flow.len() == CELLS,
        forall|c: int| 0 <= c < CELLS && occupied[c] ==> (#[trigger] flow[c]).is_zero(),
        any_occupied(occupied@) ==> forall|c: int|
            0 <= c < CELLS && !occupied[c] ==> points_nearer(occupied@, c, #[trigger] flow[c]),
        !any_occupied(occupied@) ==> forall|c: int|
            0 <= c < CELLS ==> (#[trigger] flow[c]).is_zero(),
{
    let mut seen: Vec<bool> = Vec::new();
    let mut flow: Vec<Dir> = Vec::new();
    let mut queue: VecDeque<usize> = VecDeque::new();
    let mut c: usize = 0;
    while c < CELLS
        invariant
            c <= CELLS,
            occupied.len() == CELLS,
            seen@ == occupied@.take(c as int),
            flow@ == Seq::new(c as nat, |i: int| Dir { dx: 0, dy: 0 }),
            queue@ == sources(occupied@, c as nat),
            forall|i: int| 0 <= i < queue@.len() ==> #[trigger] queue@[i] < c,
        decreases CELLS - c,
    {
        seen.push(occupied[c]);
        flow.push(Dir { dx: 0, dy: 0 });
        if occupied[c] {
            queue.push_back(c);
        }
        c = c + 1;
        assert(seen@ =~= occupied@.take(c as int));
        assert(flow@ =~= Seq::new(c as nat, |i: int| Dir { dx: 0, dy: 0 }));
    }
    assert(seen@ =~= occupied@);
    let ghost goal = run(start(occupied@), CELLS as nat);
    let mut taken: usize = 0;
    while queue.len() > 0
        invariant
            taken <= CELLS,
            tallied(Fill { seen: seen@, flow: flow@, queue: queue@ }, taken as nat),
            goal == run(Fill { seen: seen@, flow: flow@, queue: queue@ }, (CELLS - taken) as nat),
            forall|i: int| 0 <= i < queue@.len() ==> #[trigger] queue@[i] < CELLS,
        decreases CELLS - taken,
    {
        let ghost before = Fill { seen: seen@, flow: flow@, queue: queue@ };
        proof {
            lemma_sources_len(seen@, CELLS as nat);
        }
        let cur = match queue.pop_front() {
            Some(cur) => cur,
            None => 0,
        };
        let ghost popped = Fill { queue: before.queue.drop_first(), ..before };
        assert(queue@ =~= popped.queue);
        assert(cur == before.queue[0]);
        let col = (cur % COLS) as i64;
        let row = (cur / COLS) as i64;
        let mut k: usize = 0;
        while k < 8
            invariant
                k <= 8,
                cur < CELLS,
                col == col_of(cur as int),
                row == row_of(cur as int),
                seen.len() == CELLS,
                flow.len() == CELLS,
                (Fill { seen: seen@, flow: flow@, queue: queue@ }) == expand(
                    popped,
                    cur as int,
                    k as nat,
                ),
                forall|i: int| 0 <= i < queue@.len() ==> #[trigger] queue@[i] < CELLS,
            decreases 8 - k,
        {
            let d = neighbor_offset(k);
            match cell_slot(col + d.dx as i64, row + d.dy as i64) {
                Some(n) => {
                    if !seen[n] {
                        seen.set(n, true);
                        flow.set(n, Dir { dx: -d.dx, dy: -d.dy });
                        queue.push_back(n);
                    }
                },
                None => {},
            }
            k = k + 1;
        }
        proof {
            assert(step(before) == expand(popped, cur as int, 8));
            assert(tallied(popped, (taken + 1) as nat));
            lemma_expand_tallied(popped, cur as int, 8, (taken + 1) as nat);
        }
        taken = taken + 1;
    }
    proof {
        lemma_flow_field_descends(occupied@);
    }
    flow
}

} // verus!
