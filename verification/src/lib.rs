//! Deterministic core of a grid-based snake game: a toroidal square grid,
//! a growing snake body, a single reward cell, and win/loss detection.
//!
//! Rendering, input handling and the random-number source live outside this
//! crate; the random source is injected as a closure that draws a uniform
//! integer in `[0, max)`.

pub mod game;
pub mod grid;

pub use game::GameStatus;
pub use game::Snake;
pub use game::SnakeCell;
pub use game::World;
pub use grid::Direction;
pub use grid::next_cell;
