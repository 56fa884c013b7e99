//! The spatial index: for every cell of the grid, the chain of the agents in it.
//!
//! The index is an arena of links over the agents' own numbering. A head slot
//! per cell names the agent that entered the cell last, and a slot per agent
//! names the agent that entered the same cell just before it. Every link leads
//! to a smaller agent number, so each chain ends.

use vstd::prelude::*;
use crate::grid::{
    bucket, cell_slot, lemma_bucket_len, lemma_bucket_members, slot_of, CellPos, Grid, GridCell,
    CELLS,
};

verus! {

/// The chain that starts at `from`: `from` itself, then the agent its slot
/// names, and so on while the links lead downward.
pub open spec fn walk(next: Seq<Option<usize>>, from: Option<usize>) -> Seq<usize>
    decreases
        (match from {
            Some(a) => a + 1,
            None => 0,
        }),
{
    match from {
        None => Seq::empty(),
        Some(a) => {
            if a < next.len() && (next[a as int] matches Some(b) ==> b < a) {
                seq![a] + walk(next, next[a as int])
            } else {
                seq![a]
            }
        },
    }
}

/// Every link of `next` leads to a smaller agent number.
pub open spec fn links_descend(next: Seq<Option<usize>>) -> bool {
    forall|a: int| 0 <= a < next.len() ==> (#[trigger] next[a] matches Some(b) ==> b < a)
}

/// `s` without the entries equal to `x`, the others in their order.
pub open spec fn without(s: Seq<usize>, x: usize) -> Seq<usize>
    decreases s.len(),
{
    if s.len() == 0 {
        Seq::empty()
    } else if s.last() == x {
        without(s.drop_last(), x)
    } else {
        without(s.drop_last(), x).push(s.last())
    }
}

/// Adding a slot for one more agent leaves the chains of the earlier agents as
/// they were.
proof fn lemma_walk_push(next: Seq<Option<usize>>, link: Option<usize>, from: Option<usize>)
    requires
        links_descend(next),
        from matches Some(a) ==> a < next.len(),
    ensures
        walk(next.push(link), from) == walk(next, from),
    decreases
        (match from {
            Some(a) => a + 1,
            None => 0,
        }),
{
    match from {
        None => {},
        Some(a) => {
            assert(next.push(link)[a as int] == next[a as int]);
            lemma_walk_push(next, link, next[a as int]);
        },
    }
}

/// The per-cell agent chains of one frame.
pub struct SpatialIndex {
    heads: Vec<Option<usize>>,
    next: Vec<Option<usize>>,
}

impl SpatialIndex {
    /// There is one head per cell, every head names an agent of the index,
    /// and every link leads to a smaller agent number.
    pub closed spec fn wf(&self) -> bool {
        &&& self.heads.len() == CELLS
        &&& forall|c: int|
            0 <= c < CELLS ==> (#[trigger] self.heads[c] matches Some(a) ==> a < self.next.len())
        &&& links_descend(self.next@)
    }

    /// The number of agents that the index was built from.
    pub closed spec fn agents(&self) -> nat {
        self.next.len() as nat
    }

    /// The agents in the cell with index `cell`, the one that entered last first.
    pub closed spec fn chain(&self, cell: int) -> Seq<usize> {
        walk(self.next@, self.heads[cell])
    }

    /// The agents in the cell at `(col, row)`; none outside the grid.
    pub open spec fn at(&self, col: int, row: int) -> Seq<usize> {
        match slot_of(col, row) {
            Some(idx) => self.chain(idx as int),
            None => Seq::empty(),
        }
    }

    /// The agents in the three cells at columns `col - 1`, `col`, `col + 1` of one row.
    pub open spec fn row_span(&self, col: int, row: int) -> Seq<usize> {
        self.at(col - 1, row) + self.at(col, row) + self.at(col + 1, row)
    }

    /// The agents in the 3x3 block of cells around `(col, row)`, clipped to the
    /// grid: rows from top to bottom, columns from left to right, and each
    /// cell's chain in its own order.
    pub open spec fn neighborhood(&self, col: int, row: int) -> Seq<usize> {
        self.row_span(col, row - 1) + self.row_span(col, row) + self.row_span(col, row + 1)
    }

    /// Whether the index is well formed.
    pub fn is_wf(&self) -> (ok: bool)
        ensures
            ok == self.wf(),
    {
        if self.heads.len() != CELLS {
            return false;
        }
        let mut c: usize = 0;
        while c < CELLS
            invariant
                c <= CELLS,
                self.heads.len() == CELLS,
                forall|k: int|
                    0 <= k < c ==> (#[trigger] self.heads[k] matches Some(a) ==> a
                        < self.next.len()),
            decreases CELLS - c,
        {
            match self.heads[c] {
                Some(a) => {
                    if a >= self.next.len() {
                        return false;
                    }
                },
                None => {},
            }
            c = c + 1;
        }
        let mut a: usize = 0;
        while a < self.next.len()
            invariant
                a <= self.next.len(),
                forall|k: int| 0 <= k < a ==> (#[trigger] self.next@[k] matches Some(b) ==> b < k),
            decreases self.next.len() - a,
        {
            match self.next[a] {
                Some(b) => {
                    if b >= a {
                        return false;
                    }
                },
                None => {},
            }
            a = a + 1;
        }
        true
    }

    /// An index with room for `agents` agents and no chains.
    pub fn new(agents: usize) -> (index: SpatialIndex)
        ensures
            index.wf(),
            index.agents() == agents,
            forall|c: int| 0 <= c < CELLS ==> #[trigger] index.chain(c) == Seq::<usize>::empty(),
    {
        let mut heads: Vec<Option<usize>> = Vec::new();
        let mut c: usize = 0;
        while c < CELLS
            invariant
                c <= CELLS,
                heads.len() == c,
                forall|k: int| 0 <= k < c ==> #[trigger] heads[k] == None::<usize>,
            decreases CELLS - c,
        {
            heads.push(None);
            c = c + 1;
        }
        let mut next: Vec<Option<usize>> = Vec::new();
        let mut a: usize = 0;
        while a < agents
            invariant
                a <= agents,
                next.len() == a,
                forall|k: int| 0 <= k < a ==> #[trigger] next[k] == None::<usize>,
            decreases agents - a,
        {
            next.push(None);
            a = a + 1;
        }
        SpatialIndex { heads, next }
    }

    /// Forgets the last frame and indexes the agents anew.
    ///
    /// `cells[a]` is the cell of agent `a`. Agents are taken in order; one whose
    /// cell the grid has is put in front of that cell's chain and counted in the
    /// cell's `agent_count`, the others are left out of the index. Nothing else
    /// in `grid` changes.
    pub fn rebuild(&mut self, cells: &Vec<CellPos>, grid: &mut Grid)
        requires
            old(grid).wf(),
        ensures
            final(self).wf(),
            final(self).agents() == cells.len(),
            final(grid).wf(),
            forall|c: int|
                0 <= c < CELLS ==> #[trigger] final(self).chain(c) == bucket(
                    cells@,
                    c,
                    cells.len() as nat,
                ),
            forall|c: int|
                0 <= c < CELLS ==> #[trigger] final(grid).cells[c] == (GridCell {
                    agent_count: bucket(cells@, c, cells.len() as nat).len() as usize,
                    ..old(grid).cells[c]
                }),
    {
        let mut heads: Vec<Option<usize>> = Vec::new();
        let mut c: usize = 0;
        while c < CELLS
            invariant
                c <= CELLS,
                heads.len() == c,
                grid.cells.len() == CELLS,
                forall|k: int| 0 <= k < c ==> #[trigger] heads[k] == None::<usize>,
                forall|k: int|
                    0 <= k < c ==> #[trigger] grid.cells[k] == (GridCell {
                        agent_count: 0,
                        ..old(grid).cells[k]
                    }),
                forall|k: int| c <= k < CELLS ==> #[trigger] grid.cells[k] == old(grid).cells[k],
            decreases CELLS - c,
        {
            heads.push(None);
            let mut cell = grid.cells[c];
            cell.agent_count = 0;
            grid.cells.set(c, cell);
            c = c + 1;
        }
        let mut next: Vec<Option<usize>> = Vec::new();
        let n = cells.len();
        let mut a: usize = 0;
        while a < n
            invariant
                a <= n,
                n == cells.len(),
                heads.len() == CELLS,
                grid.cells.len() == CELLS,
                next.len() == a,
                links_descend(next@),
                forall|k: int| 0 <= k < CELLS ==> (#[trigger] heads[k] matches Some(b) ==> b < a),
                forall|k: int|
                    0 <= k < CELLS ==> #[trigger] walk(next@, heads[k]) == bucket(
                        cells@,
                        k,
                        a as nat,
                    ),
                forall|k: int|
                    0 <= k < CELLS ==> #[trigger] grid.cells[k] == (GridCell {
                        agent_count: bucket(cells@, k, a as nat).len() as usize,
                        ..old(grid).cells[k]
                    }),
            decreases n - a,
        {
            let ghost next0 = next@;
            let ghost heads0 = heads@;
            let pos = cells[a];
            match cell_slot(pos.col as i64, pos.row as i64) {
                Some(idx) => {
                    let link = heads[idx];
                    next.push(link);
                    heads.set(idx, Some(a));
                    let mut cell = grid.cells[idx];
                    proof {
                        lemma_bucket_len(cells@, idx as int, a as nat);
                    }
                    cell.agent_count = cell.agent_count + 1;
                    grid.cells.set(idx, cell);
                    proof {
                        assert forall|k: int| 0 <= k < CELLS implies #[trigger] walk(
                            next@,
                            heads[k],
                        ) == bucket(cells@, k, (a + 1) as nat) by {
                            lemma_walk_push(next0, link, heads0[k]);
                            if k == idx {
                                assert(next@[a as int] == link);
                            }
                        }
                    }
                },
                None => {
                    next.push(None);
                    proof {
                        assert forall|k: int| 0 <= k < CELLS implies #[trigger] walk(
                            next@,
                            heads[k],
                        ) == bucket(cells@, k, (a + 1) as nat) by {
                            lemma_walk_push(next0, None, heads0[k]);
                        }
                    }
                },
            }
            a = a + 1;
        }
        self.heads = heads;
        self.next = next;
    }

    /// Adds the chain of the cell at `(col, row)` to `out`.
    fn append_chain(&self, col: i64, row: i64, out: &mut Vec<usize>)
        requires
            self.wf(),
        ensures
            final(out)@ == old(out)@ + self.at(col as int, row as int),
    {
        match cell_slot(col, row) {
            Some(idx) => {
                let mut cur: Option<usize> = self.heads[idx];
                loop
                    invariant
                        self.wf(),
                        cur matches Some(a) ==> a < self.next.len(),
                        out@ + walk(self.next@, cur) == old(out)@ + self.chain(idx as int),
                    ensures
                        out@ == old(out)@ + self.chain(idx as int),
                    decreases
                        (match cur {
                            Some(a) => a + 1,
                            None => 0,
                        }),
                {
                    match cur {
                        Some(a) => {
                            let ghost before = out@;
                            out.push(a);
                            cur = self.next[a];
                            assert(out@ + walk(self.next@, cur) =~= before + walk(
                                self.next@,
                                Some(a),
                            ));
                        },
                        None => {
                            assert(out@ + walk(self.next@, cur) =~= out@);
                            break ;
                        },
                    }
                }
            },
            None => {
                assert(out@ + Seq::<usize>::empty() =~= out@);
            },
        }
    }

    /// Adds the chains of three cells side by side to `out`.
    fn append_row(&self, col: i64, row: i64, out: &mut Vec<usize>)
        requires
            self.wf(),
            i32::MIN <= col <= i32::MAX,
        ensures
            final(out)@ == old(out)@ + self.row_span(col as int, row as int),
    {
        self.append_chain(col - 1, row, out);
        self.append_chain(col, row, out);
        self.append_chain(col + 1, row, out);
        assert(out@ =~= old(out)@ + self.row_span(col as int, row as int));
    }

    /// The agents in the 3x3 block of cells around `(col, row)`.
    ///
    /// The centre may lie outside the grid: the cells of the block that the grid
    /// has are still searched.
    pub fn query_3x3(&self, col: i32, row: i32) -> (found: Vec<usize>)
        requires
            self.wf(),
        ensures
            found@ == self.neighborhood(col as int, row as int),
    {
        let mut found: Vec<usize> = Vec::new();
        self.append_row(col as i64, row as i64 - 1, &mut found);
        self.append_row(col as i64, row as i64, &mut found);
        self.append_row(col as i64, row as i64 + 1, &mut found);
        assert(found@ =~= self.neighborhood(col as int, row as int));
        found
    }
}

/// `without` drops `x` and keeps everything else.
pub proof fn lemma_without_members(s: Seq<usize>, x: usize, y: usize)
    ensures
        without(s, x).contains(y) <==> (s.contains(y) && y != x),
    decreases s.len(),
{
    let w = without(s, x);
    if s.len() > 0 {
        let head = s.drop_last();
        let rest = without(head, x);
        lemma_without_members(head, x, y);
        if w.contains(y) {
            let i = choose|i: int| 0 <= i < w.len() && w[i] == y;
            if s.last() != x && i == rest.len() {
                assert(s[s.len() - 1] == y);
            } else {
                assert(rest[i] == y);
                assert(rest.contains(y));
                assert(head.contains(y));
                let j = choose|j: int| 0 <= j < head.len() && head[j] == y;
                assert(s[j] == y);
            }
        }
        if s.contains(y) && y != x {
            let j = choose|j: int| 0 <= j < s.len() && s[j] == y;
            if j == s.len() - 1 {
                assert(w[rest.len() as int] == y);
            } else {
                assert(head[j] == y);
                assert(head.contains(y));
                assert(rest.contains(y));
                let i = choose|i: int| 0 <= i < rest.len() && rest[i] == y;
                assert(w[i] == y);
            }
        }
    }
}

/// What is in one of two sequences is in the two put together, and nothing else is.
proof fn lemma_joined_members(a: Seq<usize>, b: Seq<usize>, y: usize)
    ensures
        (a + b).contains(y) <==> (a.contains(y) || b.contains(y)),
{
    let ab = a + b;
    if ab.contains(y) {
        let i = choose|i: int| 0 <= i < ab.len() && ab[i] == y;
        if i < a.len() {
            assert(a[i] == y);
        } else {
            assert(b[i - a.len()] == y);
        }
    }
    if a.contains(y) {
        let i = choose|i: int| 0 <= i < a.len() && a[i] == y;
        assert(ab[i] == y);
    }
    if b.contains(y) {
        let i = choose|i: int| 0 <= i < b.len() && b[i] == y;
        assert(ab[a.len() + i] == y);
    }
}

/// The agent numbered `agent` stands in the cell at `(col, row)` of the grid.
pub open spec fn stands_at(cells: Seq<CellPos>, agent: usize, col: int, row: int) -> bool {
    &&& agent < cells.len()
    &&& cells[agent as int].col == col
    &&& cells[agent as int].row == row
    &&& slot_of(col, row) is Some
}

/// The agent numbered `agent` stands in a cell of the grid that is at most one
/// column and one row from `(col, row)`.
pub open spec fn stands_near(cells: Seq<CellPos>, agent: usize, col: int, row: int) -> bool {
    &&& agent < cells.len()
    &&& cells[agent as int].slot() is Some
    &&& col - 1 <= cells[agent as int].col <= col + 1
    &&& row - 1 <= cells[agent as int].row <= row + 1
}

impl SpatialIndex {
    /// The chains are the buckets of `cells`.
    pub open spec fn indexes(&self, cells: Seq<CellPos>) -> bool {
        &&& self.wf()
        &&& cells.len() <= usize::MAX
        &&& forall|c: int|
            0 <= c < CELLS ==> #[trigger] self.chain(c) == bucket(cells, c, cells.len())
    }

    /// The agents found at a cell are the agents that stand in it.
    pub proof fn lemma_at_members(&self, cells: Seq<CellPos>, col: int, row: int, agent: usize)
        requires
            self.indexes(cells),
        ensures
            self.at(col, row).contains(agent) <==> stands_at(cells, agent, col, row),
    {
        match slot_of(col, row) {
            Some(idx) => {
                lemma_bucket_members(cells, idx as int, cells.len());
                assert(self.chain(idx as int) == bucket(cells, idx as int, cells.len()));
            },
            None => {},
        }
    }

    /// The agents found in a span of three cells are the agents that stand in
    /// one of the three.
    proof fn lemma_row_members(&self, cells: Seq<CellPos>, col: int, row: int, agent: usize)
        requires
            self.indexes(cells),
        ensures
            self.row_span(col, row).contains(agent) <==> (stands_at(cells, agent, col - 1, row)
                || stands_at(cells, agent, col, row) || stands_at(cells, agent, col + 1, row)),
    {
        self.lemma_at_members(cells, col - 1, row, agent);
        self.lemma_at_members(cells, col, row, agent);
        self.lemma_at_members(cells, col + 1, row, agent);
        lemma_joined_members(self.at(col - 1, row), self.at(col, row), agent);
        lemma_joined_members(
            self.at(col - 1, row) + self.at(col, row),
            self.at(col + 1, row),
            agent,
        );
    }

    /// A query finds exactly the agents that stand in the grid at most one
    /// column and one row from the centre.
    pub proof fn lemma_neighborhood_members(
        &self,
        cells: Seq<CellPos>,
        col: int,
        row: int,
        agent: usize,
    )
        requires
            self.indexes(cells),
        ensures
            self.neighborhood(col, row).contains(agent) <==> stands_near(cells, agent, col, row),
    {
        self.lemma_row_members(cells, col, row - 1, agent);
        self.lemma_row_members(cells, col, row, agent);
        self.lemma_row_members(cells, col, row + 1, agent);
        lemma_joined_members(self.row_span(col, row - 1), self.row_span(col, row), agent);
        lemma_joined_members(
            self.row_span(col, row - 1) + self.row_span(col, row),
            self.row_span(col, row + 1),
            agent,
        );
    }
}

/// The entries of `found` other than `agent`, in their order.
pub fn exclude(found: &Vec<usize>, agent: usize) -> (others: Vec<usize>)
    ensures
        others@ == without(found@, agent),
{
    let mut others: Vec<usize> = Vec::new();
    let mut k: usize = 0;
    while k < found.len()
        invariant
            k <= found.len(),
            others@ == without(found@.take(k as int), agent),
        decreases found.len() - k,
    {
        assert(found@.take(k + 1).drop_last() =~= found@.take(k as int));
        if found[k] != agent {
            others.push(found[k]);
        }
        k = k + 1;
    }
    assert(found@.take(k as int) =~= found@);
    others
}

} // verus!
