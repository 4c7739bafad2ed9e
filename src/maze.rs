use crate::grid::{Direction, Grid, GridIx};
use vstd::prelude::*;

verus! {

/// The walls of one room: `true` where a wall closes that side.
#[derive(Clone, Copy, Debug, PartialEq, Eq, Structural, Hash)]
pub struct Room {
    pub north: bool,
    pub south: bool,
    pub east: bool,
    pub west: bool,
}

impl Room {
    pub open spec fn has_wall(self, d: Direction) -> bool {
        match d {
            Direction::North => self.north,
            Direction::South => self.south,
            Direction::East => self.east,
            Direction::West => self.west,
        }
    }

    /// A room with no walls.
    pub fn open() -> (r: Room)
        ensures
            forall|d: Direction| !#[trigger] r.has_wall(d),
    {
        Room { north: false, south: false, east: false, west: false }
    }

    pub fn wall(&self, d: Direction) -> (r: bool)
        ensures
            r == self.has_wall(d),
    {
        match d {
            Direction::North => self.north,
            Direction::South => self.south,
            Direction::East => self.east,
            Direction::West => self.west,
        }
    }
}

/// What stays fixed in a maze while the player walks it.
pub struct Layout {
    pub grid: Grid,
    pub rooms: Seq<Room>,
    pub goal: GridIx,
}

impl Layout {
    pub open spec fn wf(self) -> bool {
        &&& self.grid.wf()
        &&& self.rooms.len() == self.grid.area()
        &&& self.grid.spec_contains(self.goal)
    }

    pub open spec fn room(self, ix: GridIx) -> Room {
        self.rooms[self.grid.offset(ix)]
    }

    /// Whether one step from `pos` towards `d` is open: no wall on that side
    /// and a neighbour there.
    pub open spec fn can_move(self, pos: GridIx, d: Direction) -> bool {
        !self.room(pos).has_wall(d) && self.grid.spec_neighbor(pos, d) is Some
    }

    /// Where one step from `pos` towards `d` ends: the neighbour if the way is
    /// open, else `pos` itself.
    pub open spec fn step(self, pos: GridIx, d: Direction) -> GridIx {
        if self.can_move(pos, d) {
            self.grid.spec_neighbor(pos, d)->0
        } else {
            pos
        }
    }

    pub proof fn lemma_step_in_bounds(self, pos: GridIx, d: Direction)
        requires
            self.grid.spec_contains(pos),
        ensures
            self.grid.spec_contains(self.step(pos, d)),
    {
        self.grid.lemma_neighbor_in_bounds(pos, d);
    }
}

/// A maze: rooms on a grid, the goal, and the player's current position.
pub struct Maze {
    grid: Grid,
    rooms: Vec<Room>,
    current: GridIx,
    goal: GridIx,
}

impl Maze {
    pub closed spec fn layout(&self) -> Layout {
        Layout { grid: self.grid, rooms: self.rooms@, goal: self.goal }
    }

    pub closed spec fn position(&self) -> GridIx {
        self.current
    }

    pub closed spec fn wf(&self) -> bool {
        &&& self.layout().wf()
        &&& self.grid.spec_contains(self.current)
    }

    pub proof fn lemma_wf(&self)
        requires
            self.wf(),
        ensures
            self.layout().wf(),
            self.layout().grid.spec_contains(self.position()),
    {
    }

    /// Builds a maze from its rooms in row-major order. `None` unless the grid's
    /// cells can be counted in a `usize`, there is one room per cell and both
    /// positions lie on the grid.
    pub fn new(grid: Grid, rooms: Vec<Room>, start: GridIx, goal: GridIx) -> (r: Option<Maze>)
        ensures
            r is Some <==> (grid.wf() && rooms@.len() == grid.area() && grid.spec_contains(start)
                && grid.spec_contains(goal)),
            r matches Some(m) ==> m.wf() && m.layout() == (Layout {
                grid,
                rooms: rooms@,
                goal,
            }) && m.position() == start,
    {
        match grid.n_rows.checked_mul(grid.n_cols) {
            None => None,
            Some(n) => {
                if rooms.len() == n && grid.contains(&start) && grid.contains(&goal) {
                    Some(Maze { grid, rooms, current: start, goal })
                } else {
                    None
                }
            },
        }
    }

    pub fn grid(&self) -> (r: Grid)
        ensures
            r == self.layout().grid,
    {
        self.grid
    }

    pub fn current_ix(&self) -> (r: GridIx)
        ensures
            r == self.position(),
    {
        self.current
    }

    pub fn goal_ix(&self) -> (r: GridIx)
        ensures
            r == self.layout().goal,
    {
        self.goal
    }

    pub fn room_at(&self, ix: &GridIx) -> (r: Room)
        requires
            self.wf(),
            self.layout().grid.spec_contains(*ix),
        ensures
            r == self.layout().room(*ix),
    {
        let k = self.grid.offset_of(ix);
        self.rooms[k]
    }

    /// Whether the player stands on the goal.
    pub fn is_done(&self) -> (r: bool)
        ensures
            r == (self.position() == self.layout().goal),
    {
        self.current == self.goal
    }

    /// Takes one step towards `d`; stays put where a wall or the boundary
    /// blocks the way.
    pub fn step(&mut self, d: Direction)
        requires
            old(self).wf(),
        ensures
            final(self).wf(),
            final(self).layout() == old(self).layout(),
            final(self).position() == old(self).layout().step(old(self).position(), d),
    {
        proof {
            self.layout().lemma_step_in_bounds(self.current, d);
        }
        let room = self.room_at(&self.current);
        if !room.wall(d) {
            match self.grid.neighbor(&self.current, d) {
                Some(next) => {
                    self.current = next;
                },
                None => {},
            }
        }
    }

    pub fn move_north(&mut self)
        requires
            old(self).wf(),
        ensures
            final(self).wf(),
            final(self).layout() == old(self).layout(),
            final(self).position() == old(self).layout().step(old(self).position(), Direction::North),
    {
        self.step(Direction::North)
    }

    pub fn move_south(&mut self)
        requires
            old(self).wf(),
        ensures
            final(self).wf(),
            final(self).layout() == old(self).layout(),
            final(self).position() == old(self).layout().step(old(self).position(), Direction::South),
    {
        self.step(Direction::South)
    }

    pub fn move_east(&mut self)
        requires
            old(self).wf(),
        ensures
            final(self).wf(),
            final(self).layout() == old(self).layout(),
            final(self).position() == old(self).layout().step(old(self).position(), Direction::East),
    {
        self.step(Direction::East)
    }

    pub fn move_west(&mut self)
        requires
            old(self).wf(),
        ensures
            final(self).wf(),
            final(self).layout() == old(self).layout(),
            final(self).position() == old(self).layout().step(old(self).position(), Direction::West),
    {
        self.step(Direction::West)
    }
}

} // verus!
