//! A minimal falling-block simulation on an integer grid.
//!
//! Coordinates are whole numbers of board units. A piece falls one gravity
//! step per tick, locks when it reaches the floor or is held by a settled
//! cell, and every fully occupied row is then removed while the rows above
//! move down to close the gap.

pub mod board;
pub mod cell;
pub mod clearing;
pub mod compaction;
pub mod config;
pub mod game;
pub mod laws;
pub mod lock;
pub mod piece;
pub mod rows;
