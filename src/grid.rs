use vstd::prelude::*;

verus! {

/// One of the four cardinal directions.
#[derive(Clone, Copy, Debug, PartialEq, Eq, Structural, Hash)]
pub enum Direction {
    North,
    South,
    East,
    West,
}

/// A (row, column) coordinate. Row 0 is the northern edge, column 0 the western.
#[derive(Clone, Copy, Debug, PartialEq, Eq, Structural, PartialOrd, Ord, Hash)]
pub struct GridIx {
    pub row: usize,
    pub col: usize,
}

/// The extent of a rectangular grid: `n_rows` rows of `n_cols` cells.
#[derive(Clone, Copy, Debug, PartialEq, Eq, Structural)]
pub struct Grid {
    pub n_rows: usize,
    pub n_cols: usize,
}

impl Grid {
    /// Number of cells, as a mathematical integer.
    pub open spec fn area(self) -> int {
        self.n_rows as int * self.n_cols as int
    }

    /// A grid whose cells can be numbered by a `usize`.
    pub open spec fn wf(self) -> bool {
        self.area() <= usize::MAX
    }

    pub open spec fn spec_contains(self, ix: GridIx) -> bool {
        ix.row < self.n_rows && ix.col < self.n_cols
    }

    /// Position of an in-bounds cell in row-major order.
    pub open spec fn offset(self, ix: GridIx) -> int {
        ix.row as int * self.n_cols as int + ix.col as int
    }

    /// The neighbour of `ix` one step towards `d`, or `None` at the boundary.
    pub open spec fn spec_neighbor(self, ix: GridIx, d: Direction) -> Option<GridIx> {
        match d {
            Direction::North => if ix.row == 0 {
                None
            } else {
                Some(GridIx { row: (ix.row - 1) as usize, col: ix.col })
            },
            Direction::South => if ix.row + 1 >= self.n_rows {
                None
            } else {
                Some(GridIx { row: (ix.row + 1) as usize, col: ix.col })
            },
            Direction::East => if ix.col + 1 >= self.n_cols {
                None
            } else {
                Some(GridIx { row: ix.row, col: (ix.col + 1) as usize })
            },
            Direction::West => if ix.col == 0 {
                None
            } else {
                Some(GridIx { row: ix.row, col: (ix.col - 1) as usize })
            },
        }
    }

    pub fn contains(&self, ix: &GridIx) -> (r: bool)
        ensures
            r == self.spec_contains(*ix),
    {
        ix.row < self.n_rows && ix.col < self.n_cols
    }

    /// Row-major position of an in-bounds cell.
    pub fn offset_of(&self, ix: &GridIx) -> (r: usize)
        requires
            self.wf(),
            self.spec_contains(*ix),
        ensures
            r as int == self.offset(*ix),
            r < self.area(),
    {
        proof {
            self.lemma_offset_bounds(*ix);
        }
        ix.row * self.n_cols + ix.col
    }

    pub proof fn lemma_offset_bounds(self, ix: GridIx)
        requires
            self.spec_contains(ix),
        ensures
            0 <= self.offset(ix) < self.area(),
    {
        let r = ix.row as int;
        let c = ix.col as int;
        let nr = self.n_rows as int;
        let nc = self.n_cols as int;
        assert(r * nc + c < nr * nc) by (nonlinear_arith)
            requires
                0 <= r < nr,
                0 <= c < nc,
        ;
        assert(0 <= r * nc) by (nonlinear_arith)
            requires
                0 <= r,
                0 <= nc,
        ;
    }

    /// Distinct in-bounds cells have distinct row-major positions.
    pub proof fn lemma_offset_injective(self, a: GridIx, b: GridIx)
        requires
            self.spec_contains(a),
            self.spec_contains(b),
            self.offset(a) == self.offset(b),
        ensures
            a == b,
    {
        let nc = self.n_cols as int;
        let (ra, ca, rb, cb) = (a.row as int, a.col as int, b.row as int, b.col as int);
        if ra < rb {
            assert(ra * nc + ca < rb * nc + cb) by (nonlinear_arith)
                requires
                    ra < rb,
                    0 <= ca < nc,
                    0 <= cb,
            ;
        } else if rb < ra {
            assert(rb * nc + cb < ra * nc + ca) by (nonlinear_arith)
                requires
                    rb < ra,
                    0 <= cb < nc,
                    0 <= ca,
            ;
        }
    }

    /// Neighbours of an in-bounds cell are in bounds.
    pub proof fn lemma_neighbor_in_bounds(self, ix: GridIx, d: Direction)
        requires
            self.spec_contains(ix),
        ensures
            self.spec_neighbor(ix, d) is Some ==> self.spec_contains(self.spec_neighbor(ix, d)->0),
    {
    }

    pub fn north(&self, ix: &GridIx) -> (r: Option<GridIx>)
        ensures
            r == self.spec_neighbor(*ix, Direction::North),
    {
        if ix.row == 0 {
            None
        } else {
            Some(GridIx { row: ix.row - 1, col: ix.col })
        }
    }

    pub fn south(&self, ix: &GridIx) -> (r: Option<GridIx>)
        ensures
            r == self.spec_neighbor(*ix, Direction::South),
    {
        if ix.row >= self.n_rows || self.n_rows - ix.row <= 1 {
            None
        } else {
            Some(GridIx { row: ix.row + 1, col: ix.col })
        }
    }

    pub fn east(&self, ix: &GridIx) -> (r: Option<GridIx>)
        ensures
            r == self.spec_neighbor(*ix, Direction::East),
    {
        if ix.col >= self.n_cols || self.n_cols - ix.col <= 1 {
            None
        } else {
            Some(GridIx { row: ix.row, col: ix.col + 1 })
        }
    }

    pub fn west(&self, ix: &GridIx) -> (r: Option<GridIx>)
        ensures
            r == self.spec_neighbor(*ix, Direction::West),
    {
        if ix.col == 0 {
            None
        } else {
            Some(GridIx { row: ix.row, col: ix.col - 1 })
        }
    }

    pub fn neighbor(&self, ix: &GridIx, d: Direction) -> (r: Option<GridIx>)
        ensures
            r == self.spec_neighbor(*ix, d),
    {
        match d {
            Direction::North => self.north(ix),
            Direction::South => self.south(ix),
            Direction::East => self.east(ix),
            Direction::West => self.west(ix),
        }
    }
}

} // verus!
