use crate::grid::{Grid, GridIx};
use vstd::prelude::*;

verus! {

/// The set of cells visited so far in one session. It only ever grows.
pub struct Visited {
    grid: Grid,
    flags: Vec<bool>,
}

impl Visited {
    pub closed spec fn spec_grid(&self) -> Grid {
        self.grid
    }

    pub closed spec fn wf(&self) -> bool {
        &&& self.grid.wf()
        &&& self.flags@.len() == self.grid.area()
    }

    /// The visited cells.
    pub closed spec fn view(&self) -> Set<GridIx> {
        Set::new(
            |ix: GridIx| self.grid.spec_contains(ix) && self.flags@[self.grid.offset(ix)],
        )
    }

    /// An empty set over `grid`.
    pub fn new(grid: Grid) -> (r: Visited)
        requires
            grid.wf(),
        ensures
            r.wf(),
            r.spec_grid() == grid,
            r@ == Set::<GridIx>::empty(),
    {
        let n = grid.n_rows * grid.n_cols;
        let mut flags: Vec<bool> = Vec::with_capacity(n);
        let mut i: usize = 0;
        while i < n
            invariant
                n as int == grid.area(),
                i <= n,
                flags@.len() == i,
                forall|k: int| 0 <= k < i ==> !flags@[k],
            decreases n - i,
        {
            flags.push(false);
            i = i + 1;
        }
        let r = Visited { grid, flags };
        assert forall|ix: GridIx| !#[trigger] r@.contains(ix) by {
            if grid.spec_contains(ix) {
                grid.lemma_offset_bounds(ix);
            }
        }
        assert(r@ =~= Set::<GridIx>::empty());
        r
    }

    /// Records `ix` as visited.
    pub fn mark_seen(&mut self, ix: &GridIx)
        requires
            old(self).wf(),
            old(self).spec_grid().spec_contains(*ix),
        ensures
            final(self).wf(),
            final(self).spec_grid() == old(self).spec_grid(),
            final(self)@ == old(self)@.insert(*ix),
            old(self)@.contains(*ix) ==> final(self)@ == old(self)@,
    {
        let ghost before = self@;
        let k = self.grid.offset_of(ix);
        self.flags.set(k, true);
        assert forall|j: GridIx| #[trigger] self@.contains(j) == before.insert(*ix).contains(j) by {
            if self.grid.spec_contains(j) {
                self.grid.lemma_offset_bounds(j);
                if self.grid.offset(j) == k as int {
                    self.grid.lemma_offset_injective(j, *ix);
                }
            }
        }
        assert(self@ =~= before.insert(*ix));
    }

    /// Whether `ix` has been visited.
    pub fn is_seen(&self, ix: &GridIx) -> (r: bool)
        requires
            self.wf(),
        ensures
            r == self@.contains(*ix),
    {
        if self.grid.contains(ix) {
            let k = self.grid.offset_of(ix);
            self.flags[k]
        } else {
            false
        }
    }
}

/// Marking an already-visited cell changes nothing: every cell is visited
/// afterwards exactly when it was before.
pub proof fn lemma_mark_seen_idempotent(seen: Set<GridIx>, ix: GridIx)
    requires
        seen.contains(ix),
    ensures
        seen.insert(ix) == seen,
        forall|j: GridIx| #[trigger] seen.insert(ix).contains(j) == seen.contains(j),
{
    assert(seen.insert(ix) =~= seen);
}

} // verus!
