//! A single cell of the grid.

use vstd::prelude::*;

verus! {

/// The state of one cell: whether it holds a mine, whether the player has
/// revealed or flagged it, and how many of its neighbours hold a mine.
#[derive(Clone, Copy, Debug, PartialEq, Eq, Structural)]
pub struct Cell {
    pub is_mine: bool,
    pub is_revealed: bool,
    pub is_flagged: bool,
    pub adjacent_mines: u8,
}

impl Cell {
    /// A hidden, unflagged cell with no mine and no mine around it.
    pub open spec fn blank() -> Cell {
        Cell { is_mine: false, is_revealed: false, is_flagged: false, adjacent_mines: 0 }
    }

    /// This cell, shown to the player.
    pub open spec fn opened(self) -> Cell {
        Cell { is_revealed: true, ..self }
    }

    /// This cell with its flag flipped.
    pub open spec fn flipped(self) -> Cell {
        Cell { is_flagged: !self.is_flagged, ..self }
    }

    /// A hidden, unflagged cell whose neighbour count is still zero.
    pub fn new(is_mine: bool) -> (cell: Cell)
        ensures
            cell == (Cell { is_mine, ..Cell::blank() }),
    {
        Cell { is_mine, is_revealed: false, is_flagged: false, adjacent_mines: 0 }
    }

    /// Flips the flag, whatever else the cell holds.
    pub fn toggle_flag(&mut self)
        ensures
            *final(self) == old(self).flipped(),
    {
        self.is_flagged = !self.is_flagged;
    }

    pub fn is_mine(&self) -> (b: bool)
        ensures
            b == self.is_mine,
    {
        self.is_mine
    }

    pub fn is_revealed(&self) -> (b: bool)
        ensures
            b == self.is_revealed,
    {
        self.is_revealed
    }

    pub fn is_flagged(&self) -> (b: bool)
        ensures
            b == self.is_flagged,
    {
        self.is_flagged
    }

    pub fn adjacent_mines(&self) -> (n: u8)
        ensures
            n == self.adjacent_mines,
    {
        self.adjacent_mines
    }
}

} // verus!
