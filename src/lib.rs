//! Fog-of-war maze exploration: a visited-cell tracker, the rule that decides
//! which sides of an unvisited cell stay hidden, the per-frame board layout and
//! the turn loop that ties them to a maze.

pub mod grid;
pub mod visited;
pub mod maze;
pub mod render;
pub mod game;
