//! A terminal snake game: the board, the snake, the food and the arrow-key
//! input that steers it, each step stated and proved.

pub mod coordinates;
pub mod difficulty;
pub mod input;
pub mod board;
pub mod food;
pub mod game;
