//! Geometry and traversal of a segmented hexagonal race board.

pub mod action;
pub mod board;
pub mod coordinate;
pub mod distance;
pub mod field;
pub mod game_state;
pub mod render;
pub mod search;
pub mod segment;
pub mod ship;
