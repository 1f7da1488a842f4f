//! Rules engine of a two-player naval combat game on an 8 x 8 grid:
//! coordinates, ship placement, occupancy boards, observer views and the
//! turn-by-turn state machine.

pub mod geometry;
pub mod grid;
pub mod ship;
pub mod board;
pub mod placement;
pub mod view;
pub mod user;
pub mod game;
pub mod text;
