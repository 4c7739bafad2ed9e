use crate::grid::{Direction, GridIx};
use crate::maze::{Layout, Maze};
use crate::render::{board, frame_shows, CellView};
use crate::visited::Visited;
use vstd::prelude::*;

verus! {

/// One decoded player command.
#[derive(Clone, Copy, Debug, PartialEq, Eq, Structural, Hash)]
pub enum Command {
    MoveNorth,
    MoveSouth,
    MoveEast,
    MoveWest,
    Quit,
    /// Any other input: ignored.
    Other,
}

/// How a session ends.
#[derive(Clone, Copy, Debug, PartialEq, Eq, Structural, Hash)]
pub enum Outcome {
    Win,
    Quit,
}

pub open spec fn command_dir(cmd: Command) -> Option<Direction> {
    match cmd {
        Command::MoveNorth => Some(Direction::North),
        Command::MoveSouth => Some(Direction::South),
        Command::MoveEast => Some(Direction::East),
        Command::MoveWest => Some(Direction::West),
        _ => None,
    }
}

/// The position after handling `cmd` at `pos`: a movement command takes one
/// step (or none, where blocked); any other command leaves the player put.
pub open spec fn next_pos(layout: Layout, pos: GridIx, cmd: Command) -> GridIx {
    match command_dir(cmd) {
        Some(d) => layout.step(pos, d),
        None => pos,
    }
}

/// The outcome of the turn loop started at `pos` and fed `cmds`; `None` when
/// the commands run out first.
pub open spec fn run(layout: Layout, pos: GridIx, cmds: Seq<Command>) -> Option<Outcome>
    decreases cmds.len(),
{
    if pos == layout.goal {
        Some(Outcome::Win)
    } else if cmds.len() == 0 {
        None
    } else if cmds[0] == Command::Quit {
        Some(Outcome::Quit)
    } else {
        run(layout, next_pos(layout, pos, cmds[0]), cmds.drop_first())
    }
}

/// How many frames that loop renders: one per turn.
pub open spec fn renders(layout: Layout, pos: GridIx, cmds: Seq<Command>) -> nat
    decreases cmds.len(),
{
    if pos == layout.goal || cmds.len() == 0 || cmds[0] == Command::Quit {
        1
    } else {
        1 + renders(layout, next_pos(layout, pos, cmds[0]), cmds.drop_first())
    }
}

/// The position after the first `k` commands of `cmds`, started at `pos`.
pub open spec fn pos_after(layout: Layout, pos: GridIx, cmds: Seq<Command>, k: int) -> GridIx
    decreases k,
{
    if k <= 0 || cmds.len() == 0 {
        pos
    } else {
        pos_after(layout, next_pos(layout, pos, cmds[0]), cmds.drop_first(), k - 1)
    }
}

/// The cells the player stood on during the first `n` turns.
pub open spec fn visited_cells(layout: Layout, pos: GridIx, cmds: Seq<Command>, n: int) -> Set<
    GridIx,
> {
    Set::new(|p: GridIx| exists|j: int| 0 <= j < n && pos_after(layout, pos, cmds, j) == p)
}

/// One more command moves on from where the earlier ones left the player.
pub proof fn lemma_pos_after_succ(layout: Layout, pos: GridIx, cmds: Seq<Command>, i: int)
    requires
        0 <= i < cmds.len(),
    ensures
        pos_after(layout, pos, cmds, i + 1) == next_pos(
            layout,
            pos_after(layout, pos, cmds, i),
            cmds[i],
        ),
    decreases i,
{
    let next = next_pos(layout, pos, cmds[0]);
    let rest = cmds.drop_first();
    if i > 0 {
        lemma_pos_after_succ(layout, next, rest, i - 1);
        assert(rest[i - 1] == cmds[i]);
    } else {
        assert(pos_after(layout, next, rest, 0) == next);
    }
}

/// Over any run of turns the visited cells only grow: whatever was visited
/// within the first `n` turns is still visited after `m >= n` turns.
pub proof fn lemma_visited_grows(
    layout: Layout,
    pos: GridIx,
    cmds: Seq<Command>,
    n: int,
    m: int,
)
    requires
        n <= m,
    ensures
        visited_cells(layout, pos, cmds, n).subset_of(visited_cells(layout, pos, cmds, m)),
{
    assert forall|p: GridIx| #[trigger] visited_cells(layout, pos, cmds, n).contains(p) implies visited_cells(
        layout,
        pos,
        cmds,
        m,
    ).contains(p) by {
        let j = choose|j: int| 0 <= j < n && pos_after(layout, pos, cmds, j) == p;
        assert(0 <= j < m && pos_after(layout, pos, cmds, j) == p);
    }
}

/// None of the first `k` commands is `Quit`.
pub open spec fn no_quit_before(cmds: Seq<Command>, k: int) -> bool {
    forall|i: int| 0 <= i < k ==> cmds[i] != Command::Quit
}

/// After the first `k` commands, none of them `Quit`, the player stands on the goal.
pub open spec fn goal_reached_at(layout: Layout, pos: GridIx, cmds: Seq<Command>, k: int) -> bool {
    &&& 0 <= k <= cmds.len()
    &&& no_quit_before(cmds, k)
    &&& pos_after(layout, pos, cmds, k) == layout.goal
}

/// Command `k` is the first `Quit`, and the goal was not reached on any turn up
/// to and including the one that read it.
pub open spec fn quit_read_at(layout: Layout, pos: GridIx, cmds: Seq<Command>, k: int) -> bool {
    &&& 0 <= k < cmds.len()
    &&& cmds[k] == Command::Quit
    &&& no_quit_before(cmds, k)
    &&& forall|j: int| 0 <= j <= k ==> pos_after(layout, pos, cmds, j) != layout.goal
}

/// The loop ends in a win exactly when, on some turn, the player stands on the
/// goal after the commands read so far and no `Quit` was read before.
pub proof fn lemma_win_iff_goal_reached(layout: Layout, pos: GridIx, cmds: Seq<Command>)
    ensures
        run(layout, pos, cmds) == Some(Outcome::Win) <==> exists|k: int|
            goal_reached_at(layout, pos, cmds, k),
    decreases cmds.len(),
{
    if pos == layout.goal {
        assert(goal_reached_at(layout, pos, cmds, 0));
    } else if cmds.len() == 0 {
        assert forall|k: int| !goal_reached_at(layout, pos, cmds, k) by {}
    } else if cmds[0] == Command::Quit {
        assert forall|k: int| !goal_reached_at(layout, pos, cmds, k) by {
            if 0 < k && no_quit_before(cmds, k) {
                assert(cmds[0] != Command::Quit);
            }
        }
    } else {
        let next = next_pos(layout, pos, cmds[0]);
        let rest = cmds.drop_first();
        lemma_win_iff_goal_reached(layout, next, rest);
        if run(layout, pos, cmds) == Some(Outcome::Win) {
            let k = choose|k: int| goal_reached_at(layout, next, rest, k);
            assert forall|i: int| 0 <= i < k + 1 implies cmds[i] != Command::Quit by {
                if i > 0 {
                    assert(cmds[i] == rest[i - 1]);
                }
            }
            assert(goal_reached_at(layout, pos, cmds, k + 1));
        }
        if exists|k: int| goal_reached_at(layout, pos, cmds, k) {
            let k = choose|k: int| goal_reached_at(layout, pos, cmds, k);
            assert forall|i: int| 0 <= i < k - 1 implies rest[i] != Command::Quit by {
                assert(cmds[i + 1] == rest[i]);
            }
            assert(goal_reached_at(layout, next, rest, k - 1));
        }
    }
}

/// The loop ends on `Quit` exactly when a `Quit` is read on a turn before the
/// goal was reached.
pub proof fn lemma_quit_iff_quit_read_first(layout: Layout, pos: GridIx, cmds: Seq<Command>)
    ensures
        run(layout, pos, cmds) == Some(Outcome::Quit) <==> exists|k: int|
            quit_read_at(layout, pos, cmds, k),
    decreases cmds.len(),
{
    if pos == layout.goal {
        assert forall|k: int| !quit_read_at(layout, pos, cmds, k) by {
            if 0 <= k {
                assert(pos_after(layout, pos, cmds, 0) == layout.goal);
            }
        }
    } else if cmds.len() == 0 {
    } else if cmds[0] == Command::Quit {
        assert(quit_read_at(layout, pos, cmds, 0));
    } else {
        let next = next_pos(layout, pos, cmds[0]);
        let rest = cmds.drop_first();
        lemma_quit_iff_quit_read_first(layout, next, rest);
        if run(layout, pos, cmds) == Some(Outcome::Quit) {
            let k = choose|k: int| quit_read_at(layout, next, rest, k);
            assert forall|i: int| 0 <= i < k + 1 implies cmds[i] != Command::Quit by {
                if i > 0 {
                    assert(cmds[i] == rest[i - 1]);
                }
            }
            assert forall|j: int| 0 <= j <= k + 1 implies pos_after(layout, pos, cmds, j)
                != layout.goal by {
                if j > 0 {
                    assert(pos_after(layout, pos, cmds, j) == pos_after(layout, next, rest, j - 1));
                }
            }
            assert(quit_read_at(layout, pos, cmds, k + 1));
        }
        if exists|k: int| quit_read_at(layout, pos, cmds, k) {
            let k = choose|k: int| quit_read_at(layout, pos, cmds, k);
            assert(k != 0);
            assert forall|i: int| 0 <= i < k - 1 implies rest[i] != Command::Quit by {
                assert(cmds[i + 1] == rest[i]);
            }
            assert forall|j: int| 0 <= j <= k - 1 implies pos_after(layout, next, rest, j)
                != layout.goal by {
                assert(pos_after(layout, pos, cmds, j + 1) == pos_after(layout, next, rest, j));
            }
            assert(quit_read_at(layout, next, rest, k - 1));
        }
    }
}

/// One session: the maze being walked and the cells visited so far.
pub struct HiddenGameState {
    maze: Maze,
    seen: Visited,
}

impl HiddenGameState {
    pub closed spec fn layout(&self) -> Layout {
        self.maze.layout()
    }

    pub closed spec fn position(&self) -> GridIx {
        self.maze.position()
    }

    pub closed spec fn seen(&self) -> Set<GridIx> {
        self.seen@
    }

    pub closed spec fn wf(&self) -> bool {
        &&& self.maze.wf()
        &&& self.seen.wf()
        &&& self.seen.spec_grid() == self.maze.layout().grid
    }

    /// A fresh session on `maze`, with nothing visited.
    pub fn new(maze: Maze) -> (r: HiddenGameState)
        requires
            maze.wf(),
        ensures
            r.wf(),
            r.layout() == maze.layout(),
            r.position() == maze.position(),
            r.seen() == Set::<GridIx>::empty(),
    {
        proof {
            maze.lemma_wf();
        }
        let seen = Visited::new(maze.grid());
        HiddenGameState { maze, seen }
    }

    /// The maze, as walked so far.
    pub fn maze(&self) -> (r: &Maze)
        ensures
            r.layout() == self.layout(),
            r.position() == self.position(),
    {
        &self.maze
    }

    /// Ends the session, handing the maze back.
    pub fn into_maze(self) -> (r: Maze)
        ensures
            r.layout() == self.layout(),
            r.position() == self.position(),
    {
        self.maze
    }

    fn move_toward(&mut self, d: Direction)
        requires
            old(self).wf(),
        ensures
            final(self).wf(),
            final(self).layout() == old(self).layout(),
            final(self).position() == old(self).layout().step(old(self).position(), d),
            final(self).seen() == old(self).seen(),
    {
        self.maze.step(d);
    }

    pub fn move_north(&mut self)
        requires
            old(self).wf(),
        ensures
            final(self).wf(),
            final(self).layout() == old(self).layout(),
            final(self).position() == old(self).layout().step(old(self).position(), Direction::North),
            final(self).seen() == old(self).seen(),
    {
        self.move_toward(Direction::North)
    }

    pub fn move_east(&mut self)
        requires
            old(self).wf(),
        ensures
            final(self).wf(),
            final(self).layout() == old(self).layout(),
            final(self).position() == old(self).layout().step(old(self).position(), Direction::East),
            final(self).seen() == old(self).seen(),
    {
        self.move_toward(Direction::East)
    }

    pub fn move_south(&mut self)
        requires
            old(self).wf(),
        ensures
            final(self).wf(),
            final(self).layout() == old(self).layout(),
            final(self).position() == old(self).layout().step(old(self).position(), Direction::South),
            final(self).seen() == old(self).seen(),
    {
        self.move_toward(Direction::South)
    }

    pub fn move_west(&mut self)
        requires
            old(self).wf(),
        ensures
            final(self).wf(),
            final(self).layout() == old(self).layout(),
            final(self).position() == old(self).layout().step(old(self).position(), Direction::West),
            final(self).seen() == old(self).seen(),
    {
        self.move_toward(Direction::West)
    }

    /// Records the current position as visited.
    pub fn insert_current_ix(&mut self)
        requires
            old(self).wf(),
        ensures
            final(self).wf(),
            final(self).layout() == old(self).layout(),
            final(self).position() == old(self).position(),
            final(self).seen() == old(self).seen().insert(old(self).position()),
            old(self).seen().subset_of(final(self).seen()),
    {
        proof {
            self.maze.lemma_wf();
        }
        let pos = self.maze.current_ix();
        self.seen.mark_seen(&pos);
    }

    /// Whether the player stands on the goal.
    pub fn is_done(&self) -> (r: bool)
        ensures
            r == (self.position() == self.layout().goal),
    {
        self.maze.is_done()
    }

    /// Whether `ix` has been visited in this session.
    pub fn is_seen(&self, ix: &GridIx) -> (r: bool)
        requires
            self.wf(),
        ensures
            r == self.seen().contains(*ix),
    {
        self.seen.is_seen(ix)
    }

    /// The first half of a turn: marks the current position visited, lays out
    /// the board as it then stands, and tells whether the goal is reached.
    pub fn begin_turn(&mut self) -> (r: (Vec<Vec<CellView>>, bool))
        requires
            old(self).wf(),
        ensures
            final(self).wf(),
            final(self).layout() == old(self).layout(),
            final(self).position() == old(self).position(),
            final(self).seen() == old(self).seen().insert(old(self).position()),
            old(self).seen().subset_of(final(self).seen()),
            frame_shows(r.0@, final(self).layout(), final(self).position(), final(self).seen()),
            r.1 == (old(self).position() == old(self).layout().goal),
    {
        self.insert_current_ix();
        let frame = HiddenGame::new().render(self);
        let done = self.is_done();
        (frame, done)
    }

    /// The second half of a turn: handles one command. Returns the outcome
    /// when the command ends the session.
    pub fn apply(&mut self, cmd: Command) -> (r: Option<Outcome>)
        requires
            old(self).wf(),
        ensures
            final(self).wf(),
            final(self).layout() == old(self).layout(),
            final(self).position() == next_pos(old(self).layout(), old(self).position(), cmd),
            final(self).seen() == old(self).seen(),
            r == (if cmd == Command::Quit {
                Some(Outcome::Quit)
            } else {
                None::<Outcome>
            }),
    {
        match cmd {
            Command::MoveNorth => self.move_north(),
            Command::MoveSouth => self.move_south(),
            Command::MoveEast => self.move_east(),
            Command::MoveWest => self.move_west(),
            Command::Quit => {
                return Some(Outcome::Quit);
            },
            Command::Other => {},
        }
        None
    }
}

/// What a session fed a fixed list of commands produced.
pub struct Replay {
    /// `None` when the commands ran out before the session ended.
    pub outcome: Option<Outcome>,
    /// Every frame rendered, one per turn, in order.
    pub frames: Vec<Vec<Vec<CellView>>>,
    /// The session as it was left.
    pub state: HiddenGameState,
}

/// Runs the turn loop on `maze`, reading the commands from `cmds` in order:
/// each turn marks the position visited, renders, stops on a win, then reads
/// one command and stops on `Quit` or applies it.
pub fn play(maze: Maze, cmds: &Vec<Command>) -> (r: Replay)
    requires
        maze.wf(),
    ensures
        r.state.wf(),
        r.state.layout() == maze.layout(),
        r.outcome == run(maze.layout(), maze.position(), cmds@),
        r.frames@.len() == renders(maze.layout(), maze.position(), cmds@),
        r.state.seen().contains(maze.position()),
        r.state.seen() == visited_cells(maze.layout(), maze.position(), cmds@, r.frames@.len() as int),
        forall|k: int|
            0 <= k < r.frames@.len() ==> frame_shows(
                #[trigger] r.frames@[k]@,
                maze.layout(),
                pos_after(maze.layout(), maze.position(), cmds@, k),
                visited_cells(maze.layout(), maze.position(), cmds@, k + 1),
            ),
        frame_shows(
            r.frames@[0]@,
            maze.layout(),
            maze.position(),
            Set::<GridIx>::empty().insert(maze.position()),
        ),
        r.outcome == Some(Outcome::Win) ==> r.state.position() == maze.layout().goal
            && frame_shows(
            r.frames@.last()@,
            maze.layout(),
            maze.layout().goal,
            r.state.seen(),
        ),
{
    let ghost layout = maze.layout();
    let ghost start = maze.position();
    let mut st = HiddenGameState::new(maze);
    let mut frames: Vec<Vec<Vec<CellView>>> = Vec::new();
    let mut outcome: Option<Outcome> = None;
    let mut running: bool = true;
    let mut i: usize = 0;
    assert(cmds@.skip(0) =~= cmds@);
    assert(visited_cells(layout, start, cmds@, 0) =~= Set::<GridIx>::empty());
    while running
        invariant
            st.wf(),
            st.layout() == layout,
            i <= cmds@.len(),
            running ==> outcome is None,
            running ==> frames@.len() == i && st.position() == pos_after(layout, start, cmds@, i as int),
            st.seen() == visited_cells(layout, start, cmds@, frames@.len() as int),
            forall|k: int|
                0 <= k < frames@.len() ==> frame_shows(
                    #[trigger] frames@[k]@,
                    layout,
                    pos_after(layout, start, cmds@, k),
                    visited_cells(layout, start, cmds@, k + 1),
                ),
            frames@.len() == 0 ==> i == 0 && running && st.position() == start && st.seen()
                == Set::<GridIx>::empty(),
            frames@.len() > 0 ==> st.seen().contains(start) && frame_shows(
                frames@[0]@,
                layout,
                start,
                Set::<GridIx>::empty().insert(start),
            ),
            running ==> run(layout, start, cmds@) == run(layout, st.position(), cmds@.skip(i as int))
                && renders(layout, start, cmds@) == frames@.len() + renders(
                layout,
                st.position(),
                cmds@.skip(i as int),
            ),
            !running ==> outcome == run(layout, start, cmds@) && frames@.len() == renders(
                layout,
                start,
                cmds@,
            ),
            !running && outcome == Some(Outcome::Win) ==> st.position() == layout.goal
                && frame_shows(frames@.last()@, layout, layout.goal, st.seen()),
        decreases cmds@.len() - i + (if running {
            1int
        } else {
            0int
        }),
    {
        let ghost pos = st.position();
        let ghost rest = cmds@.skip(i as int);
        assert(rest.len() == cmds@.len() - i);
        let (frame, done) = st.begin_turn();
        frames.push(frame);
        assert(st.seen() =~= visited_cells(layout, start, cmds@, frames@.len() as int)) by {
            assert forall|p: GridIx| #[trigger] st.seen().contains(p) <==> visited_cells(
                layout,
                start,
                cmds@,
                i + 1,
            ).contains(p) by {
                if p == pos {
                    assert(pos_after(layout, start, cmds@, i as int) == p);
                }
                if visited_cells(layout, start, cmds@, i + 1).contains(p) {
                    let j = choose|j: int| 0 <= j < i + 1 && pos_after(layout, start, cmds@, j) == p;
                    if j < i {
                        assert(visited_cells(layout, start, cmds@, i as int).contains(p));
                    }
                }
            }
        }
        assert(frames@.last() == frame);
        assert(frames@[i as int] == frame);
        if done {
            outcome = Some(Outcome::Win);
            running = false;
        } else if i >= cmds.len() {
            running = false;
        } else {
            let cmd = cmds[i];
            proof {
                lemma_pos_after_succ(layout, start, cmds@, i as int);
            }
            assert(rest[0] == cmd);
            assert(rest.drop_first() =~= cmds@.skip(i + 1));
            match st.apply(cmd) {
                Some(o) => {
                    outcome = Some(o);
                    running = false;
                },
                None => {
                    i = i + 1;
                },
            }
        }
    }
    Replay { outcome, frames, state: st }
}

/// The board renderer of the hidden mode.
pub struct HiddenGame {}

impl HiddenGame {
    /// A renderer; it holds no state of its own.
    pub fn new() -> (r: HiddenGame) {
        HiddenGame {  }
    }

    /// The board for `state`, row by row: visited rooms in full, unvisited ones
    /// blank with their hidden sides.
    pub fn render(&self, state: &HiddenGameState) -> (r: Vec<Vec<CellView>>)
        requires
            state.wf(),
        ensures
            frame_shows(r@, state.layout(), state.position(), state.seen()),
    {
        board(&state.maze, &state.seen)
    }
}

} // verus!
