//! Conway's Game of Life on a sparse lattice of `i32` cells.

pub mod board;
pub mod game;
pub mod gui;
pub mod life;
pub mod point;
pub mod random;
pub mod rle;

pub use board::Board;
pub use game::Game;
pub use point::Point;
