//! Rules engine for a grid-based snake game: a snake advances one cell per
//! tick, grows when it eats food, and the game ends on a wall or self
//! collision. This crate holds only the game rules; rendering, timers and
//! input translation are adapters around it.

mod random;
pub mod snake;

pub use snake::Direction;
pub use snake::Position;
pub use snake::SnakeGame;
