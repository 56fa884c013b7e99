//! Why the flow field leads to the target: every direction that the fill
//! hands out points at a cell that is one step nearer to the occupied cells.
//!
//! The proof follows the fill step by step. Cells leave the queue in the order
//! of their distance, so when a cell is reached for the first time, the cell
//! that reached it is as near to the occupied cells as any of its neighbours.

use vstd::prelude::*;
use crate::distance::{
    any_occupied, distance, lemma_adjacent_neighbor, lemma_distance_adjacent, lemma_distance_zero,
    lemma_neighbor_adjacent, lemma_step_toward,
};
use crate::flow::{
    expand, flow_field, lemma_run_ends, neighbor, offset, reversed, run, sources, start, step,
    visit, Fill,
};
use crate::grid::{col_of, row_of, slot_of, Dir, CELLS, COLS};

verus! {

/// The step `d` leads from `cell` to a cell of the grid that is nearer by one
/// to the occupied cells.
pub open spec fn points_nearer(occupied: Seq<bool>, cell: int, d: Dir) -> bool {
    &&& d.is_step()
    &&& match slot_of(col_of(cell) + d.dx, row_of(cell) + d.dy) {
        Some(t) => distance(occupied, t as int) + 1 == distance(occupied, cell),
        None => false,
    }
}

/// Every neighbour of `cell` has been reached.
pub open spec fn closed(seen: Seq<bool>, cell: int) -> bool {
    forall|k: int| 0 <= k < 8 ==> (#[trigger] neighbor(cell, k) matches Some(n) ==> seen[n as int])
}

/// `cell` is in the queue.
pub open spec fn waits(queue: Seq<usize>, cell: int) -> bool {
    exists|i: int| 0 <= i < queue.len() && #[trigger] queue[i] == cell
}

/// The cells in the queue are cells of the grid that have been reached.
pub open spec fn queue_reached(st: Fill) -> bool {
    forall|i: int|
        0 <= i < st.queue.len() ==> (#[trigger] st.queue[i]) < CELLS && st.seen[st.queue[i] as int]
}

/// The cells in the queue stand in the order of their distance.
pub open spec fn queue_ordered(occupied: Seq<bool>, st: Fill) -> bool {
    forall|i: int, j: int|
        0 <= i < j < st.queue.len() ==> distance(occupied, (#[trigger] st.queue[i]) as int)
            <= distance(occupied, (#[trigger] st.queue[j]) as int)
}

/// Occupied cells have been reached and have no direction.
pub open spec fn sources_kept(occupied: Seq<bool>, st: Fill) -> bool {
    forall|c: int| 0 <= c < CELLS && occupied[c] ==> #[trigger] st.seen[c] && st.flow[c].is_zero()
}

/// Every cell that has been reached and is not occupied points at a cell
/// nearer by one.
pub open spec fn flows_descend(occupied: Seq<bool>, st: Fill) -> bool {
    forall|c: int|
        0 <= c < CELLS && #[trigger] st.seen[c] && !occupied[c] ==> points_nearer(
            occupied,
            c,
            st.flow[c],
        )
}

/// What holds of a fill from `occupied` at all times.
pub open spec fn settled(occupied: Seq<bool>, st: Fill) -> bool {
    &&& occupied.len() == CELLS
    &&& st.seen.len() == CELLS
    &&& st.flow.len() == CELLS
    &&& any_occupied(occupied)
    &&& queue_reached(st)
    &&& sources_kept(occupied, st)
    &&& flows_descend(occupied, st)
    &&& queue_ordered(occupied, st)
}

/// The cells in the queue are as far as `cur` from the occupied cells, or
/// farther by one.
pub open spec fn queue_level(occupied: Seq<bool>, st: Fill, cur: int) -> bool {
    forall|i: int|
        0 <= i < st.queue.len() ==> distance(occupied, cur) <= distance(
            occupied,
            (#[trigger] st.queue[i]) as int,
        ) <= distance(occupied, cur) + 1
}

/// Every cell as near to the occupied cells as `cur` has been reached.
pub open spec fn level_reached(occupied: Seq<bool>, st: Fill, cur: int) -> bool {
    forall|c: int|
        0 <= c < CELLS && distance(occupied, c) <= distance(occupied, cur) ==> #[trigger] st.seen[c]
}

/// Every cell that has been reached and neither waits nor is `cur` has had all
/// its neighbours reached.
pub open spec fn done_closed(st: Fill, cur: int) -> bool {
    forall|c: int|
        0 <= c < CELLS && #[trigger] st.seen[c] && c != cur && !waits(st.queue, c) ==> closed(
            st.seen,
            c,
        )
}

/// The first `k` neighbours of `cur` have been reached.
pub open spec fn looked_at(st: Fill, cur: int, k: int) -> bool {
    forall|j: int|
        0 <= j < k ==> (#[trigger] neighbor(cur, j) matches Some(n) ==> st.seen[n as int])
}

/// What holds while the neighbours of `cur` are looked at, the first `k` of
/// them being done.
pub open spec fn during(occupied: Seq<bool>, st: Fill, cur: int, k: int) -> bool {
    &&& settled(occupied, st)
    &&& 0 <= cur < CELLS
    &&& st.seen[cur]
    &&& queue_level(occupied, st, cur)
    &&& level_reached(occupied, st, cur)
    &&& done_closed(st, cur)
    &&& looked_at(st, cur, k)
}

/// What holds between two steps of the fill. No cell is being looked at then,
/// so `done_closed` excepts `-1`, which is no cell.
pub open spec fn between(occupied: Seq<bool>, st: Fill) -> bool {
    &&& settled(occupied, st)
    &&& done_closed(st, -1)
    &&& st.queue.len() > 0 ==> {
        &&& queue_level(occupied, st, st.queue[0] as int)
        &&& level_reached(occupied, st, st.queue[0] as int)
    }
}

/// The true marks below `n` are listed, and nothing else is.
pub proof fn lemma_sources_members(marks: Seq<bool>, n: nat)
    requires
        n <= marks.len(),
        n <= CELLS,
    ensures
        forall|i: int|
            0 <= i < sources(marks, n).len() ==> (#[trigger] sources(marks, n)[i]) < n
                && marks[sources(marks, n)[i] as int],
        forall|c: int| 0 <= c < n && marks[c] ==> waits(sources(marks, n), c),
    decreases n,
{
    if n > 0 {
        let rest = sources(marks, (n - 1) as nat);
        let all = sources(marks, n);
        lemma_sources_members(marks, (n - 1) as nat);
        assert forall|c: int| 0 <= c < n && marks[c] implies waits(all, c) by {
            if c == n - 1 {
                assert(all[all.len() - 1] == c);
            } else {
                let i = choose|i: int| 0 <= i < rest.len() && #[trigger] rest[i] == c;
                assert(all[i] == c);
            }
        }
    }
}

/// The fill starts in a state in which everything holds that holds between steps.
pub proof fn lemma_start_between(occupied: Seq<bool>)
    requires
        occupied.len() == CELLS,
        any_occupied(occupied),
    ensures
        between(occupied, start(occupied)),
{
    let st = start(occupied);
    lemma_sources_members(occupied, CELLS as nat);
    assert forall|i: int| 0 <= i < st.queue.len() implies distance(
        occupied,
        (#[trigger] st.queue[i]) as int,
    ) == 0 by {
        lemma_distance_zero(occupied, st.queue[i] as int);
    }
    assert(queue_reached(st));
    assert(queue_ordered(occupied, st));
    assert(sources_kept(occupied, st));
    assert(flows_descend(occupied, st));
    assert(done_closed(st, -1));
    if st.queue.len() > 0 {
        let first = st.queue[0] as int;
        assert(queue_level(occupied, st, first));
        assert forall|c: int|
            0 <= c < CELLS && distance(occupied, c) <= distance(
                occupied,
                first,
            ) implies #[trigger] st.seen[c] by {
            lemma_distance_zero(occupied, c);
        }
        assert(level_reached(occupied, st, first));
    }
}

/// Taking the first cell off the queue.
pub proof fn lemma_pop(occupied: Seq<bool>, st: Fill)
    requires
        between(occupied, st),
        st.queue.len() > 0,
    ensures
        during(occupied, Fill { queue: st.queue.drop_first(), ..st }, st.queue[0] as int, 0),
{
    let rest = st.queue.drop_first();
    let cur = st.queue[0] as int;
    let popped = Fill { queue: rest, ..st };
    assert forall|i: int| 0 <= i < rest.len() implies (#[trigger] rest[i]) < CELLS
        && st.seen[rest[i] as int] by {
        assert(rest[i] == st.queue[i + 1]);
    }
    assert(queue_reached(popped));
    assert forall|i: int, j: int| 0 <= i < j < rest.len() implies distance(
        occupied,
        (#[trigger] rest[i]) as int,
    ) <= distance(occupied, (#[trigger] rest[j]) as int) by {
        assert(rest[i] == st.queue[i + 1]);
        assert(rest[j] == st.queue[j + 1]);
    }
    assert(queue_ordered(occupied, popped));
    assert(sources_kept(occupied, popped));
    assert(flows_descend(occupied, popped));
    assert forall|i: int| 0 <= i < rest.len() implies distance(occupied, cur) <= distance(
        occupied,
        (#[trigger] rest[i]) as int,
    ) <= distance(occupied, cur) + 1 by {
        assert(rest[i] == st.queue[i + 1]);
    }
    assert(queue_level(occupied, popped, cur));
    assert(level_reached(occupied, popped, cur));
    assert forall|c: int|
        0 <= c < CELLS && #[trigger] st.seen[c] && c != cur && !waits(rest, c) implies closed(
        st.seen,
        c,
    ) by {
        if waits(st.queue, c) {
            let i = choose|i: int| 0 <= i < st.queue.len() && #[trigger] st.queue[i] == c;
            assert(rest[i - 1] == c);
        }
    }
    assert(done_closed(popped, cur));
    assert(st.seen[cur]);
    assert(looked_at(popped, cur, 0));
}

/// Reaching a cell for the first time, as the `k`-th neighbour of `cur`.
proof fn lemma_visit_new(occupied: Seq<bool>, st: Fill, cur: int, k: int, n: int)
    requires
        during(occupied, st, cur, k),
        0 <= k < 8,
        neighbor(cur, k) == Some(n as usize),
        0 <= n < CELLS,
        !st.seen[n],
    ensures
        during(occupied, visit(st, cur, k), cur, k + 1),
{
    let after = visit(st, cur, k);
    assert(after.seen == st.seen.update(n, true));
    assert(after.flow == st.flow.update(n, reversed(offset(k))));
    assert(after.queue == st.queue.push(n as usize));
    lemma_neighbor_adjacent(cur, k);
    lemma_distance_adjacent(occupied, n, cur);
    assert(distance(occupied, n) > distance(occupied, cur)) by {
        if distance(occupied, n) <= distance(occupied, cur) {
            assert(st.seen[n]);
        }
    }
    assert(!occupied[n]) by {
        if occupied[n] {
            assert(st.seen[n]);
        }
    }
    assert(points_nearer(occupied, n, reversed(offset(k)))) by {
        assert(slot_of(col_of(cur), row_of(cur)) == Some(cur as usize));
    }
    assert forall|i: int| 0 <= i < after.queue.len() implies (#[trigger] after.queue[i]) < CELLS
        && after.seen[after.queue[i] as int] by {
        if i < st.queue.len() {
            assert(after.queue[i] == st.queue[i]);
        }
    }
    assert(queue_reached(after));
    assert forall|i: int| 0 <= i < after.queue.len() implies distance(occupied, cur) <= distance(
        occupied,
        (#[trigger] after.queue[i]) as int,
    ) <= distance(occupied, cur) + 1 by {
        if i < st.queue.len() {
            assert(after.queue[i] == st.queue[i]);
        }
    }
    assert(queue_level(occupied, after, cur));
    assert forall|i: int, j: int| 0 <= i < j < after.queue.len() implies distance(
        occupied,
        (#[trigger] after.queue[i]) as int,
    ) <= distance(occupied, (#[trigger] after.queue[j]) as int) by {
        assert(after.queue[i] == st.queue[i]);
        if j < st.queue.len() {
            assert(after.queue[j] == st.queue[j]);
        }
    }
    assert(queue_ordered(occupied, after));
    assert forall|c: int| 0 <= c < CELLS && occupied[c] implies #[trigger] after.seen[c]
        && after.flow[c].is_zero() by {
        assert(st.seen[c]);
        assert(c != n);
    }
    assert(sources_kept(occupied, after));
    assert forall|c: int|
        0 <= c < CELLS && #[trigger] after.seen[c] && !occupied[c] implies points_nearer(
        occupied,
        c,
        after.flow[c],
    ) by {
        if c != n {
            assert(st.seen[c]);
            assert(after.flow[c] == st.flow[c]);
        }
    }
    assert(flows_descend(occupied, after));
    assert forall|c: int|
        0 <= c < CELLS && distance(occupied, c) <= distance(
            occupied,
            cur,
        ) implies #[trigger] after.seen[c] by {
        assert(st.seen[c]);
    }
    assert(level_reached(occupied, after, cur));
    assert forall|c: int|
        0 <= c < CELLS && #[trigger] after.seen[c] && c != cur && !waits(
            after.queue,
            c,
        ) implies closed(after.seen, c) by {
        if c == n {
            assert(after.queue[st.queue.len() as int] == c);
        }
        assert(st.seen[c]);
        if waits(st.queue, c) {
            let i = choose|i: int| 0 <= i < st.queue.len() && #[trigger] st.queue[i] == c;
            assert(after.queue[i] == c);
        }
        assert(closed(st.seen, c));
    }
    assert(done_closed(after, cur));
    assert(looked_at(after, cur, k + 1));
}

/// Looking at one neighbour.
pub proof fn lemma_visit(occupied: Seq<bool>, st: Fill, cur: int, k: int)
    requires
        during(occupied, st, cur, k),
        0 <= k < 8,
    ensures
        during(occupied, visit(st, cur, k), cur, k + 1),
{
    lemma_neighbor_adjacent(cur, k);
    match neighbor(cur, k) {
        Some(n) => {
            if !st.seen[n as int] {
                lemma_visit_new(occupied, st, cur, k, n as int);
            } else {
                assert(visit(st, cur, k) == st);
                assert(looked_at(st, cur, k + 1));
            }
        },
        None => {
            assert(visit(st, cur, k) == st);
            assert(looked_at(st, cur, k + 1));
        },
    }
}

/// Looking at the first `k` neighbours.
pub proof fn lemma_expand(occupied: Seq<bool>, st: Fill, cur: int, k: nat)
    requires
        during(occupied, st, cur, 0),
        k <= 8,
    ensures
        during(occupied, expand(st, cur, k), cur, k as int),
    decreases k,
{
    if k > 0 {
        lemma_expand(occupied, st, cur, (k - 1) as nat);
        lemma_visit(occupied, expand(st, cur, (k - 1) as nat), cur, k - 1);
    }
}

/// Having looked at all eight neighbours.
pub proof fn lemma_finish(occupied: Seq<bool>, st: Fill, cur: int)
    requires
        during(occupied, st, cur, 8),
    ensures
        between(occupied, st),
{
    assert(closed(st.seen, cur));
    assert(done_closed(st, -1));
    if st.queue.len() > 0 {
        let first = st.queue[0] as int;
        let reach = distance(occupied, cur);
        assert(reach <= distance(occupied, first) <= reach + 1);
        assert forall|i: int| 0 <= i < st.queue.len() implies distance(occupied, first)
            <= distance(occupied, (#[trigger] st.queue[i]) as int) <= distance(occupied, first)
            + 1 by {
            if i > 0 {
                assert(distance(occupied, st.queue[0] as int) <= distance(
                    occupied,
                    st.queue[i] as int,
                ));
            }
        }
        assert(queue_level(occupied, st, first));
        assert forall|c: int|
            0 <= c < CELLS && distance(occupied, c) <= distance(
                occupied,
                first,
            ) implies #[trigger] st.seen[c] by {
            if distance(occupied, c) > reach {
                lemma_distance_zero(occupied, c);
                lemma_distance_zero(occupied, cur);
                let p = lemma_step_toward(occupied, c);
                assert(st.seen[p]);
                if waits(st.queue, p) {
                    let i = choose|i: int| 0 <= i < st.queue.len() && #[trigger] st.queue[i] == p;
                    assert(distance(occupied, first) <= distance(occupied, st.queue[i] as int));
                }
                assert(closed(st.seen, p));
                let k = lemma_adjacent_neighbor(p, c);
                assert(neighbor(p, k) == Some(c as usize));
            }
        }
        assert(level_reached(occupied, st, first));
    }
}

/// One step of the fill.
pub proof fn lemma_step(occupied: Seq<bool>, st: Fill)
    requires
        between(occupied, st),
        st.queue.len() > 0,
    ensures
        between(occupied, step(st)),
{
    let popped = Fill { queue: st.queue.drop_first(), ..st };
    let cur = st.queue[0] as int;
    lemma_pop(occupied, st);
    lemma_expand(occupied, popped, cur, 8);
    lemma_finish(occupied, step(st), cur);
}

/// Any number of steps of the fill.
pub proof fn lemma_run(occupied: Seq<bool>, st: Fill, fuel: nat)
    requires
        between(occupied, st),
    ensures
        between(occupied, run(st, fuel)),
    decreases fuel,
{
    if fuel > 0 && st.queue.len() > 0 {
        lemma_step(occupied, st);
        lemma_run(occupied, step(st), (fuel - 1) as nat);
    }
}

/// Once no cell waits, every cell has been reached.
pub proof fn lemma_reached(occupied: Seq<bool>, st: Fill, cell: int)
    requires
        between(occupied, st),
        st.queue.len() == 0,
        0 <= cell < CELLS,
    ensures
        st.seen[cell],
    decreases distance(occupied, cell),
{
    lemma_distance_zero(occupied, cell);
    if !occupied[cell] {
        let p = lemma_step_toward(occupied, cell);
        lemma_distance_zero(occupied, p);
        lemma_reached(occupied, st, p);
        assert(!waits(st.queue, p));
        assert(closed(st.seen, p));
        let k = lemma_adjacent_neighbor(p, cell);
        assert(neighbor(p, k) == Some(cell as usize));
    }
}

/// With no cell occupied, no cell waits when the fill starts.
pub proof fn lemma_sources_none(marks: Seq<bool>, n: nat)
    requires
        forall|c: int| 0 <= c < n ==> !marks[c],
    ensures
        sources(marks, n).len() == 0,
    decreases n,
{
    if n > 0 {
        lemma_sources_none(marks, (n - 1) as nat);
    }
}

/// The flow field leads every agent to the target.
///
/// An occupied cell has no direction. Where some cell is occupied, every other
/// cell has one, and it is a step to a neighbour that is nearer by one to the
/// occupied cells: following the directions from any cell reaches an occupied
/// cell in as few steps as any path could. Where no cell is occupied, no cell
/// has a direction.
pub proof fn lemma_flow_field_descends(occupied: Seq<bool>)
    requires
        occupied.len() == CELLS,
    ensures
        flow_field(occupied).len() == CELLS,
        forall|c: int|
            0 <= c < CELLS && occupied[c] ==> (#[trigger] flow_field(occupied)[c]).is_zero(),
        any_occupied(occupied) ==> forall|c: int|
            0 <= c < CELLS && !occupied[c] ==> points_nearer(
                occupied,
                c,
                #[trigger] flow_field(occupied)[c],
            ),
        !any_occupied(occupied) ==> forall|c: int|
            0 <= c < CELLS ==> (#[trigger] flow_field(occupied)[c]).is_zero(),
{
    let st = start(occupied);
    let end = run(st, CELLS as nat);
    lemma_run_ends(st, 0, CELLS as nat);
    if any_occupied(occupied) {
        lemma_start_between(occupied);
        lemma_run(occupied, st, CELLS as nat);
        assert forall|c: int| 0 <= c < CELLS && !occupied[c] implies points_nearer(
            occupied,
            c,
            #[trigger] end.flow[c],
        ) by {
            lemma_reached(occupied, end, c);
        }
        assert forall|c: int| 0 <= c < CELLS && occupied[c] implies (
        #[trigger] end.flow[c]).is_zero() by {
            assert(end.seen[c]);
        }
    } else {
        assert forall|c: int| 0 <= c < CELLS implies !occupied[c] by {}
        lemma_sources_none(occupied, CELLS as nat);
        assert(end == st);
    }
}

/// The index of the cell that the step `d` leads to from `cell`.
pub open spec fn step_from(cell: int, d: Dir) -> int {
    (row_of(cell) + d.dy) * COLS + col_of(cell) + d.dx
}

/// The cell that `n` steps along the directions of `flow` lead to from `cell`.
pub open spec fn follow(flow: Seq<Dir>, cell: int, n: nat) -> int
    decreases n,
{
    if n == 0 {
        cell
    } else {
        follow(flow, step_from(cell, flow[cell]), (n - 1) as nat)
    }
}

/// Following the flow field from any cell leads to an occupied cell, in as many
/// steps as the cell is from the nearest of them.
pub proof fn lemma_flow_reaches_target(occupied: Seq<bool>, cell: int)
    requires
        occupied.len() == CELLS,
        any_occupied(occupied),
        0 <= cell < CELLS,
    ensures
        distance(occupied, cell) >= 0,
        0 <= follow(flow_field(occupied), cell, distance(occupied, cell) as nat) < CELLS,
        occupied[follow(flow_field(occupied), cell, distance(occupied, cell) as nat)],
    decreases distance(occupied, cell),
{
    lemma_distance_zero(occupied, cell);
    lemma_flow_field_descends(occupied);
    if !occupied[cell] {
        let d = flow_field(occupied)[cell];
        assert(points_nearer(occupied, cell, d));
        let next = step_from(cell, d);
        assert(slot_of(col_of(cell) + d.dx, row_of(cell) + d.dy) == Some(next as usize));
        lemma_distance_zero(occupied, next);
        lemma_flow_reaches_target(occupied, next);
    }
}

} // verus!
