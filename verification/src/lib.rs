//! A Minesweeper board engine.
//!
//! The board is a rectangular grid of cells. Mines are laid on the first
//! reveal, away from the chosen cell, and revealing a cell with no mine next
//! to it opens the whole connected region around it. Every operation carries
//! a contract over the board's mathematical view, [`board::BoardView`].

pub mod geometry;
pub mod cell;
pub mod board;
pub mod neighbors;
pub mod placement;
pub mod adjacency;
pub mod flood;
pub mod arrangement;
pub mod play;
pub mod render;
pub mod command;
pub mod laws;
