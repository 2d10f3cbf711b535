//! Positions on the grid and the relations between them.

use vstd::prelude::*;

verus! {

/// A zero-based grid address: column `x`, row `y`.
#[derive(Clone, Copy, Debug, PartialEq, Eq, Structural)]
pub struct Position {
    pub x: usize,
    pub y: usize,
}

impl Position {
    /// The position lies on a grid of the given width and height.
    pub open spec fn within(self, width: int, height: int) -> bool {
        self.x < width && self.y < height
    }

    /// The two positions are at most one step apart in each direction, so
    /// `other` lies in the 3x3 block centred on `self`.
    pub open spec fn touches(self, other: Position) -> bool {
        &&& self.x - other.x <= 1
        &&& other.x - self.x <= 1
        &&& self.y - other.y <= 1
        &&& other.y - self.y <= 1
    }

    /// The two positions are distinct and touch: each is one of the up to
    /// eight neighbours of the other.
    pub open spec fn adjacent(self, other: Position) -> bool {
        self != other && self.touches(other)
    }

    pub fn new(x: usize, y: usize) -> (p: Position)
        ensures
            p == (Position { x, y }),
    {
        Position { x, y }
    }

    /// Whether `other` lies in the 3x3 block centred on `self`.
    pub fn is_near(&self, other: &Position) -> (near: bool)
        ensures
            near == self.touches(*other),
    {
        let dx: usize = if self.x >= other.x {
            self.x - other.x
        } else {
            other.x - self.x
        };
        let dy: usize = if self.y >= other.y {
            self.y - other.y
        } else {
            other.y - self.y
        };
        dx <= 1 && dy <= 1
    }
}

/// The row-major offset of a position on a grid of the given width.
pub open spec fn offset_of(p: Position, width: int) -> int {
    p.y * width + p.x
}

/// Offsets of positions on the grid stay below the number of cells.
pub proof fn lemma_offset_in_range(p: Position, width: int, height: int)
    requires
        p.within(width, height),
    ensures
        0 <= offset_of(p, width) < width * height,
{
    assert(p.y * width + p.x < width * height) by (nonlinear_arith)
        requires
            0 <= p.x < width,
            0 <= p.y < height,
    ;
    assert(0 <= p.y * width) by (nonlinear_arith)
        requires
            0 <= p.y,
            0 <= width,
    ;
}

/// Two positions on the grid with the same offset are the same position.
pub proof fn lemma_offset_injective(p: Position, q: Position, width: int)
    requires
        p.x < width,
        q.x < width,
        offset_of(p, width) == offset_of(q, width),
    ensures
        p == q,
{
    assert(p.y == q.y) by (nonlinear_arith)
        requires
            0 <= p.x < width,
            0 <= q.x < width,
            0 <= p.y,
            0 <= q.y,
            p.y * width + p.x == q.y * width + q.x,
    ;
}

} // verus!
