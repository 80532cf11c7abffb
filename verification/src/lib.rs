//! A snake game on a fixed grid, advanced one tick at a time.

pub mod direction;
pub mod grid;
pub mod model;
pub mod snake;
pub mod universe;
