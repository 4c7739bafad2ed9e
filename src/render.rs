use crate::grid::{Direction, Grid, GridIx};
use crate::maze::{Layout, Maze, Room};
use crate::visited::Visited;
use vstd::prelude::*;

verus! {

/// Whether side `d` of cell `ix` is drawn as undetermined: the boundary lies
/// there, or the neighbour there has not been visited.
pub open spec fn is_hidden(grid: Grid, seen: Set<GridIx>, ix: GridIx, d: Direction) -> bool {
    match grid.spec_neighbor(ix, d) {
        None => true,
        Some(n) => !seen.contains(n),
    }
}

pub open spec fn hidden_if(grid: Grid, seen: Set<GridIx>, ix: GridIx, d: Direction) -> Seq<
    Direction,
> {
    if is_hidden(grid, seen, ix, d) {
        seq![d]
    } else {
        seq![]
    }
}

/// The hidden sides of `ix`, listed North, South, East, West.
pub open spec fn hidden_dirs(grid: Grid, seen: Set<GridIx>, ix: GridIx) -> Seq<Direction> {
    hidden_if(grid, seen, ix, Direction::North) + hidden_if(grid, seen, ix, Direction::South)
        + hidden_if(grid, seen, ix, Direction::East) + hidden_if(grid, seen, ix, Direction::West)
}

/// The hidden sides of an unvisited cell, in the order North, South, East, West.
pub fn hidden_directions(grid: &Grid, seen: &Visited, ix: &GridIx) -> (r: Vec<Direction>)
    requires
        seen.wf(),
    ensures
        r@ == hidden_dirs(*grid, seen@, *ix),
{
    let mut r: Vec<Direction> = Vec::with_capacity(4);
    let ghost g = *grid;
    let ghost s = seen@;
    if side_hidden(grid, seen, ix, Direction::North) {
        r.push(Direction::North);
    }
    assert(r@ =~= hidden_if(g, s, *ix, Direction::North));
    if side_hidden(grid, seen, ix, Direction::South) {
        r.push(Direction::South);
    }
    assert(r@ =~= hidden_if(g, s, *ix, Direction::North) + hidden_if(g, s, *ix, Direction::South));
    if side_hidden(grid, seen, ix, Direction::East) {
        r.push(Direction::East);
    }
    assert(r@ =~= hidden_if(g, s, *ix, Direction::North) + hidden_if(g, s, *ix, Direction::South)
        + hidden_if(g, s, *ix, Direction::East));
    if side_hidden(grid, seen, ix, Direction::West) {
        r.push(Direction::West);
    }
    assert(r@ =~= hidden_dirs(g, s, *ix));
    r
}

fn side_hidden(grid: &Grid, seen: &Visited, ix: &GridIx, d: Direction) -> (r: bool)
    requires
        seen.wf(),
    ensures
        r == is_hidden(*grid, seen@, *ix, d),
{
    match grid.neighbor(ix, d) {
        None => true,
        Some(n) => !seen.is_seen(&n),
    }
}

/// An unvisited cell whose sides are all boundary or unvisited neighbours has
/// every side hidden.
pub proof fn lemma_isolated_cell_all_hidden(grid: Grid, seen: Set<GridIx>, ix: GridIx)
    requires
        forall|d: Direction| #[trigger] is_hidden(grid, seen, ix, d),
    ensures
        hidden_dirs(grid, seen, ix) == seq![
            Direction::North,
            Direction::South,
            Direction::East,
            Direction::West,
        ],
{
    assert(is_hidden(grid, seen, ix, Direction::North));
    assert(is_hidden(grid, seen, ix, Direction::South));
    assert(is_hidden(grid, seen, ix, Direction::East));
    assert(is_hidden(grid, seen, ix, Direction::West));
    assert(hidden_dirs(grid, seen, ix) =~= seq![
        Direction::North,
        Direction::South,
        Direction::East,
        Direction::West,
    ]);
}

/// A cell with exactly one visited neighbour, towards `d`, has `d` known and
/// every other side hidden, boundary sides included.
pub proof fn lemma_one_seen_neighbor(grid: Grid, seen: Set<GridIx>, ix: GridIx, d: Direction)
    requires
        grid.spec_neighbor(ix, d) is Some,
        seen.contains(grid.spec_neighbor(ix, d)->0),
        forall|e: Direction|
            e != d && #[trigger] grid.spec_neighbor(ix, e) is Some ==> !seen.contains(
                grid.spec_neighbor(ix, e)->0,
            ),
    ensures
        !hidden_dirs(grid, seen, ix).contains(d),
        forall|e: Direction| e != d ==> #[trigger] hidden_dirs(grid, seen, ix).contains(e),
{
    let h = hidden_dirs(grid, seen, ix);
    assert(!is_hidden(grid, seen, ix, d));
    assert forall|e: Direction| e != d implies is_hidden(grid, seen, ix, e) by {
        assert(grid.spec_neighbor(ix, e) is Some ==> !seen.contains(grid.spec_neighbor(ix, e)->0));
    }
    let hn = hidden_if(grid, seen, ix, Direction::North);
    let hs = hidden_if(grid, seen, ix, Direction::South);
    let he = hidden_if(grid, seen, ix, Direction::East);
    let hw = hidden_if(grid, seen, ix, Direction::West);
    assert(h == hn + hs + he + hw);
    assert forall|e: Direction| #[trigger] h.contains(e) <==> is_hidden(grid, seen, ix, e) by {
        let a = hn + hs;
        let b = a + he;
        assert(a.contains(e) <==> hn.contains(e) || hs.contains(e)) by {
            if a.contains(e) {
                let k = choose|k: int| 0 <= k < a.len() && a[k] == e;
                if k >= hn.len() {
                    assert(hs[k - hn.len()] == e);
                }
            }
            if hn.contains(e) {
                let k = choose|k: int| 0 <= k < hn.len() && hn[k] == e;
                assert(a[k] == e);
            }
            if hs.contains(e) {
                let k = choose|k: int| 0 <= k < hs.len() && hs[k] == e;
                assert(a[hn.len() + k] == e);
            }
        }
        assert(b.contains(e) <==> a.contains(e) || he.contains(e)) by {
            if b.contains(e) {
                let k = choose|k: int| 0 <= k < b.len() && b[k] == e;
                if k >= a.len() {
                    assert(he[k - a.len()] == e);
                }
            }
            if a.contains(e) {
                let k = choose|k: int| 0 <= k < a.len() && a[k] == e;
                assert(b[k] == e);
            }
            if he.contains(e) {
                let k = choose|k: int| 0 <= k < he.len() && he[k] == e;
                assert(b[a.len() + k] == e);
            }
        }
        assert(h.contains(e) <==> b.contains(e) || hw.contains(e)) by {
            if h.contains(e) {
                let k = choose|k: int| 0 <= k < h.len() && h[k] == e;
                if k >= b.len() {
                    assert(hw[k - b.len()] == e);
                }
            }
            if b.contains(e) {
                let k = choose|k: int| 0 <= k < b.len() && b[k] == e;
                assert(h[k] == e);
            }
            if hw.contains(e) {
                let k = choose|k: int| 0 <= k < hw.len() && hw[k] == e;
                assert(h[b.len() + k] == e);
            }
        }
        if is_hidden(grid, seen, ix, e) {
            match e {
                Direction::North => assert(hn[0] == e),
                Direction::South => assert(hs[0] == e),
                Direction::East => assert(he[0] == e),
                Direction::West => assert(hw[0] == e),
            }
        } else {
            if hn.contains(e) {
                assert(hn[0] == Direction::North);
            }
            if hs.contains(e) {
                assert(hs[0] == Direction::South);
            }
            if he.contains(e) {
                assert(he[0] == Direction::East);
            }
            if hw.contains(e) {
                assert(hw[0] == Direction::West);
            }
        }
    }
}

/// The glyph laid over a visited room.
#[derive(Clone, Copy, Debug, PartialEq, Eq, Structural, Hash)]
pub enum Marker {
    Goal,
    Player,
    Won,
}

/// What one cell of the board shows.
#[derive(Debug)]
pub enum CellView {
    /// An unvisited goal: only the goal glyph, no room.
    GoalHint,
    /// A visited room, drawn in full, with at most one marker.
    Room { room: Room, marker: Option<Marker> },
    /// An unvisited cell: a blank room whose listed sides are undetermined.
    Blank { hidden: Vec<Direction> },
}

/// The marker of a visited cell: "won" where the player stands on the goal,
/// else the player, else the goal.
pub open spec fn marker_of(ix: GridIx, pos: GridIx, goal: GridIx) -> Option<Marker> {
    if ix == pos && ix == goal {
        Some(Marker::Won)
    } else if ix == pos {
        Some(Marker::Player)
    } else if ix == goal {
        Some(Marker::Goal)
    } else {
        None
    }
}

/// `v` is what cell `ix` shows for this layout, position and visited set.
pub open spec fn shows(v: CellView, layout: Layout, pos: GridIx, seen: Set<GridIx>, ix: GridIx) -> bool {
    match v {
        CellView::GoalHint => ix == layout.goal && !seen.contains(ix),
        CellView::Room { room, marker } => seen.contains(ix) && room == layout.room(ix)
            && marker == marker_of(ix, pos, layout.goal),
        CellView::Blank { hidden } => !seen.contains(ix) && ix != layout.goal && hidden@
            == hidden_dirs(layout.grid, seen, ix),
    }
}

/// `frame` holds, row by row, what every cell of the grid shows.
pub open spec fn frame_shows(
    frame: Seq<Vec<CellView>>,
    layout: Layout,
    pos: GridIx,
    seen: Set<GridIx>,
) -> bool {
    &&& frame.len() == layout.grid.n_rows
    &&& forall|i: int| 0 <= i < frame.len() ==> (#[trigger] frame[i])@.len() == layout.grid.n_cols
    &&& forall|i: int, j: int|
        0 <= i < frame.len() && 0 <= j < layout.grid.n_cols ==> shows(
            #[trigger] frame[i]@[j],
            layout,
            pos,
            seen,
            GridIx { row: i as usize, col: j as usize },
        )
}

/// What cell `ix` shows.
pub fn cell_view(maze: &Maze, seen: &Visited, ix: &GridIx) -> (r: CellView)
    requires
        maze.wf(),
        seen.wf(),
        maze.layout().grid.spec_contains(*ix),
    ensures
        shows(r, maze.layout(), maze.position(), seen@, *ix),
{
    let goal = maze.goal_ix();
    let pos = maze.current_ix();
    if seen.is_seen(ix) {
        let room = maze.room_at(ix);
        let marker = if *ix == pos && *ix == goal {
            Some(Marker::Won)
        } else if *ix == pos {
            Some(Marker::Player)
        } else if *ix == goal {
            Some(Marker::Goal)
        } else {
            None
        };
        CellView::Room { room, marker }
    } else if *ix == goal {
        CellView::GoalHint
    } else {
        let grid = maze.grid();
        CellView::Blank { hidden: hidden_directions(&grid, seen, ix) }
    }
}

/// The whole board, row by row.
pub fn board(maze: &Maze, seen: &Visited) -> (r: Vec<Vec<CellView>>)
    requires
        maze.wf(),
        seen.wf(),
    ensures
        frame_shows(r@, maze.layout(), maze.position(), seen@),
{
    let grid = maze.grid();
    let ghost layout = maze.layout();
    let ghost pos = maze.position();
    let mut rows: Vec<Vec<CellView>> = Vec::with_capacity(grid.n_rows);
    let mut i: usize = 0;
    while i < grid.n_rows
        invariant
            grid == layout.grid,
            layout == maze.layout(),
            pos == maze.position(),
            maze.wf(),
            seen.wf(),
            i <= grid.n_rows,
            rows@.len() == i,
            forall|a: int| 0 <= a < i ==> (#[trigger] rows@[a])@.len() == grid.n_cols,
            forall|a: int, b: int|
                0 <= a < i && 0 <= b < grid.n_cols ==> shows(
                    #[trigger] rows@[a]@[b],
                    layout,
                    pos,
                    seen@,
                    GridIx { row: a as usize, col: b as usize },
                ),
        decreases grid.n_rows - i,
    {
        let mut row: Vec<CellView> = Vec::with_capacity(grid.n_cols);
        let mut j: usize = 0;
        while j < grid.n_cols
            invariant
                grid == layout.grid,
                layout == maze.layout(),
                pos == maze.position(),
                maze.wf(),
                seen.wf(),
                i < grid.n_rows,
                j <= grid.n_cols,
                row@.len() == j,
                forall|b: int|
                    0 <= b < j ==> shows(
                        #[trigger] row@[b],
                        layout,
                        pos,
                        seen@,
                        GridIx { row: i, col: b as usize },
                    ),
            decreases grid.n_cols - j,
        {
            let ix = GridIx { row: i, col: j };
            let v = cell_view(maze, seen, &ix);
            row.push(v);
            j = j + 1;
        }
        rows.push(row);
        i = i + 1;
    }
    rows
}

} // verus!
