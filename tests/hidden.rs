use hidden_maze::game::{play, Command, HiddenGame, HiddenGameState, Outcome};
use hidden_maze::grid::Direction::{East, North, South, West};
use hidden_maze::grid::{Direction, Grid, GridIx};
use hidden_maze::maze::{Maze, Room};
use hidden_maze::render::{hidden_directions, CellView, Marker};
use hidden_maze::visited::Visited;

fn ix(row: usize, col: usize) -> GridIx {
    GridIx { row, col }
}

fn grid3() -> Grid {
    Grid { n_rows: 3, n_cols: 3 }
}

fn open_maze() -> Maze {
    Maze::new(grid3(), vec![Room::open(); 9], ix(0, 0), ix(2, 2)).unwrap()
}

fn hidden_of(v: &CellView) -> Vec<Direction> {
    match v {
        CellView::Blank { hidden } => hidden.clone(),
        other => panic!("expected a blank cell, got {:?}", other),
    }
}

fn marker_of(v: &CellView) -> Option<Marker> {
    match v {
        CellView::Room { marker, .. } => *marker,
        other => panic!("expected a room, got {:?}", other),
    }
}

#[test]
fn scenario_a_first_frame() {
    let mut st = HiddenGameState::new(open_maze());
    let (frame, done) = st.begin_turn();
    assert!(!done);
    assert_eq!(frame.len(), 3);
    assert!(frame.iter().all(|r| r.len() == 3));
    assert_eq!(marker_of(&frame[0][0]), Some(Marker::Player));
    assert!(matches!(frame[2][2], CellView::GoalHint));
    assert_eq!(hidden_of(&frame[0][1]), vec![North, South, East]);
    assert_eq!(hidden_of(&frame[1][0]), vec![South, East, West]);
    assert_eq!(hidden_of(&frame[1][1]), vec![North, South, East, West]);
    assert_eq!(hidden_of(&frame[0][2]), vec![North, South, East, West]);
    assert_eq!(hidden_of(&frame[2][0]), vec![North, South, East, West]);
    let blanks = frame
        .iter()
        .flatten()
        .filter(|v| matches!(v, CellView::Blank { .. }))
        .count();
    assert_eq!(blanks, 7);
}

#[test]
fn scenario_b_walk_to_goal() {
    let cmds = vec![Command::MoveEast, Command::MoveSouth, Command::MoveSouth, Command::MoveEast];
    let r = play(open_maze(), &cmds);
    assert_eq!(r.outcome, Some(Outcome::Win));
    assert_eq!(r.frames.len(), 5);
    let last = r.frames.last().unwrap();
    assert_eq!(marker_of(&last[2][2]), Some(Marker::Won));
    assert_eq!(r.state.maze().current_ix(), ix(2, 2));
    for c in [ix(0, 0), ix(0, 1), ix(1, 1), ix(2, 1), ix(2, 2)] {
        assert!(r.state.is_seen(&c));
    }
    assert!(!r.state.is_seen(&ix(1, 0)));
}

#[test]
fn scenario_c_quit_first() {
    let r = play(open_maze(), &vec![Command::Quit, Command::MoveEast]);
    assert_eq!(r.outcome, Some(Outcome::Quit));
    assert_eq!(r.frames.len(), 1);
    let rooms = r.frames[0]
        .iter()
        .flatten()
        .filter(|v| matches!(v, CellView::Room { .. }))
        .count();
    assert_eq!(rooms, 1);
    assert_eq!(marker_of(&r.frames[0][0][0]), Some(Marker::Player));
    assert_eq!(r.state.maze().current_ix(), ix(0, 0));
}

#[test]
fn scenario_d_blocked_move() {
    let mut rooms = vec![Room::open(); 9];
    rooms[0].east = true;
    let maze = Maze::new(grid3(), rooms, ix(0, 0), ix(2, 2)).unwrap();
    let mut st = HiddenGameState::new(maze);
    st.begin_turn();
    assert_eq!(st.apply(Command::MoveEast), None);
    assert_eq!(st.maze().current_ix(), ix(0, 0));
    let (frame, done) = st.begin_turn();
    assert!(!done);
    assert_eq!(marker_of(&frame[0][0]), Some(Marker::Player));
    assert!(st.is_seen(&ix(0, 0)));
    assert!(!st.is_seen(&ix(0, 1)));
    assert_eq!(st.apply(Command::MoveSouth), None);
    assert_eq!(st.maze().current_ix(), ix(1, 0));
}

#[test]
fn boundary_blocks_movement() {
    let mut m = open_maze();
    m.move_north();
    assert_eq!(m.current_ix(), ix(0, 0));
    m.move_west();
    assert_eq!(m.current_ix(), ix(0, 0));
    m.move_south();
    m.move_east();
    assert_eq!(m.current_ix(), ix(1, 1));
    assert!(!m.is_done());
}

#[test]
fn seen_set_only_grows() {
    let mut st = HiddenGameState::new(open_maze());
    let cmds = [Command::MoveEast, Command::MoveWest, Command::MoveSouth, Command::Other];
    let mut before: Vec<GridIx> = Vec::new();
    for c in cmds {
        st.begin_turn();
        for p in &before {
            assert!(st.is_seen(p));
        }
        before.push(st.maze().current_ix());
        st.apply(c);
    }
    st.begin_turn();
    for p in &before {
        assert!(st.is_seen(p));
    }
    assert!(st.is_seen(&ix(1, 0)));
}

#[test]
fn marking_twice_changes_nothing() {
    let mut v = Visited::new(grid3());
    v.mark_seen(&ix(1, 2));
    v.mark_seen(&ix(1, 2));
    for r in 0..3 {
        for c in 0..3 {
            assert_eq!(v.is_seen(&ix(r, c)), r == 1 && c == 2);
        }
    }
    assert!(!v.is_seen(&ix(5, 5)));
}

#[test]
fn isolated_cell_hides_all_sides() {
    let v = Visited::new(grid3());
    assert_eq!(hidden_directions(&grid3(), &v, &ix(1, 1)), vec![North, South, East, West]);
    assert_eq!(hidden_directions(&grid3(), &v, &ix(0, 0)), vec![North, South, East, West]);
}

#[test]
fn one_seen_neighbor_is_known() {
    let mut v = Visited::new(grid3());
    v.mark_seen(&ix(1, 2));
    assert_eq!(hidden_directions(&grid3(), &v, &ix(1, 1)), vec![North, South, West]);
    assert_eq!(hidden_directions(&grid3(), &v, &ix(0, 2)), vec![North, East, West]);
    assert_eq!(hidden_directions(&grid3(), &v, &ix(2, 2)), vec![South, East, West]);
}

#[test]
fn start_on_goal_wins_at_once() {
    let maze = Maze::new(grid3(), vec![Room::open(); 9], ix(1, 1), ix(1, 1)).unwrap();
    let r = play(maze, &vec![Command::Quit]);
    assert_eq!(r.outcome, Some(Outcome::Win));
    assert_eq!(r.frames.len(), 1);
    assert_eq!(marker_of(&r.frames[0][1][1]), Some(Marker::Won));
}

#[test]
fn commands_run_out() {
    let r = play(open_maze(), &vec![Command::MoveSouth, Command::Other]);
    assert_eq!(r.outcome, None);
    assert_eq!(r.frames.len(), 3);
    assert_eq!(r.state.maze().current_ix(), ix(1, 0));
}

#[test]
fn seen_goal_keeps_goal_marker() {
    let maze = Maze::new(grid3(), vec![Room::open(); 9], ix(0, 1), ix(0, 0)).unwrap();
    let cmds = vec![Command::MoveEast, Command::Quit];
    let r = play(maze, &cmds);
    assert_eq!(r.outcome, Some(Outcome::Quit));
    let mut st = r.state;
    let frame = HiddenGame::new().render(&st);
    assert!(matches!(frame[0][0], CellView::GoalHint));
    assert_eq!(marker_of(&frame[0][2]), Some(Marker::Player));
    assert_eq!(marker_of(&frame[0][1]), None);
    assert_eq!(st.apply(Command::MoveWest), None);
    assert_eq!(st.apply(Command::MoveWest), None);
    let (frame, done) = st.begin_turn();
    assert!(done);
    assert_eq!(marker_of(&frame[0][0]), Some(Marker::Won));
    let frame = HiddenGame::new().render(&st);
    assert_eq!(marker_of(&frame[0][0]), Some(Marker::Won));
    assert_eq!(st.apply(Command::MoveEast), None);
    let frame = HiddenGame::new().render(&st);
    assert_eq!(marker_of(&frame[0][0]), Some(Marker::Goal));
    assert_eq!(marker_of(&frame[0][1]), Some(Marker::Player));
}

#[test]
fn maze_rejects_bad_shapes() {
    assert!(Maze::new(grid3(), vec![Room::open(); 8], ix(0, 0), ix(2, 2)).is_none());
    assert!(Maze::new(grid3(), vec![Room::open(); 9], ix(3, 0), ix(2, 2)).is_none());
    assert!(Maze::new(grid3(), vec![Room::open(); 9], ix(0, 0), ix(2, 3)).is_none());
    let huge = Grid { n_rows: usize::MAX, n_cols: 2 };
    assert!(Maze::new(huge, Vec::new(), ix(0, 0), ix(0, 0)).is_none());
}

#[test]
fn room_walls_and_lookup() {
    let mut rooms = vec![Room::open(); 9];
    rooms[5].south = true;
    let maze = Maze::new(grid3(), rooms, ix(1, 2), ix(0, 0)).unwrap();
    assert!(maze.room_at(&ix(1, 2)).wall(Direction::South));
    assert!(!maze.room_at(&ix(1, 2)).wall(Direction::North));
    let mut m = maze;
    m.step(Direction::South);
    assert_eq!(m.current_ix(), ix(1, 2));
    m.step(Direction::North);
    assert_eq!(m.current_ix(), ix(0, 2));
}

#[test]
fn grid_neighbors_at_edges() {
    let g = Grid { n_rows: 2, n_cols: 3 };
    assert_eq!(g.north(&ix(0, 1)), None);
    assert_eq!(g.south(&ix(1, 1)), None);
    assert_eq!(g.east(&ix(0, 2)), None);
    assert_eq!(g.west(&ix(0, 0)), None);
    assert_eq!(g.south(&ix(0, 1)), Some(ix(1, 1)));
    assert_eq!(g.neighbor(&ix(1, 1), Direction::East), Some(ix(1, 2)));
    assert_eq!(g.offset_of(&ix(1, 2)), 5);
    assert!(!g.contains(&ix(2, 0)));
}

#[test]
fn middle_frames_follow_the_walk() {
    let cmds = vec![Command::MoveEast, Command::MoveSouth, Command::Quit];
    let r = play(open_maze(), &cmds);
    assert_eq!(r.outcome, Some(Outcome::Quit));
    assert_eq!(r.frames.len(), 3);
    let second = &r.frames[1];
    assert_eq!(marker_of(&second[0][0]), None);
    assert_eq!(marker_of(&second[0][1]), Some(Marker::Player));
    assert_eq!(hidden_of(&second[1][1]), vec![South, East, West]);
    let third = &r.frames[2];
    assert_eq!(marker_of(&third[1][1]), Some(Marker::Player));
    assert_eq!(hidden_of(&third[1][0]), vec![South, West]);
}
