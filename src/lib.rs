//! The simulation core of a grid snake game: a turn queue, one-cell moves on a
//! fixed tick, growth, collisions, apple placement and the
//! Playing / Paused / GameOver state machine.

pub mod game;
pub mod grid;
pub mod spawn;
pub mod theorems;

pub use game::{Game, GameState, GameView, Snake, TickOutcome};
pub use grid::{Coord, Direction};
pub use spawn::{first_free_cell, spawn_apple};
