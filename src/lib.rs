//! Game-state engine of a terminal snake game: grid positions, the snake's
//! ring-buffer body, and the per-tick transition of a game on a bounded or
//! toroidal board.

pub mod game;
pub mod pos;
mod random;
pub mod snake;

pub use game::{Command, Food, Game, GameUpdate};
pub use pos::{Board, Dir, Pos};
pub use snake::{Color, Snake, SnakeIterator};
