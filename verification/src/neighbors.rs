//! The neighbours of a position: which they are and how many.

use vstd::prelude::*;
use crate::board::{Board, BoardView, MAX_SIDE};
use crate::geometry::Position;

verus! {

/// How many of `at - 1`, `at`, `at + 1` lie in `0..side`, for `at` in that
/// range.
pub open spec fn span(at: int, side: int) -> int {
    1 + (if at >= 1 {
        1int
    } else {
        0int
    }) + (if at + 1 < side {
        1int
    } else {
        0int
    })
}

/// How many neighbours a position at column `x` and row `y` has on a board
/// of the given size: the cells of the 3x3 block around it that lie on the
/// board, row by row, less the position itself.
pub open spec fn neighbor_count(x: int, y: int, width: int, height: int) -> int {
    let cols = span(x, width);
    (if y >= 1 {
        cols
    } else {
        0
    }) + (cols - 1) + (if y + 1 < height {
        cols
    } else {
        0
    })
}

/// The cells of row `y` that lie on the board and in the columns next to
/// `x`, with or without column `x` itself.
spec fn row_part(v: BoardView, x: int, y: int, with_middle: bool) -> Set<Position> {
    Set::new(
        |q: Position|
            v.contains(q) && q.y == y && x - 1 <= q.x <= x + 1 && (with_middle || q.x != x),
    )
}

proof fn lemma_row_part(v: BoardView, x: int, y: int, with_middle: bool)
    requires
        0 <= x < v.width <= MAX_SIDE,
        0 <= y < v.height <= MAX_SIDE,
    ensures
        row_part(v, x, y, with_middle).finite(),
        row_part(v, x, y, with_middle).len() == span(x, v.width) - (if with_middle {
            0int
        } else {
            1int
        }),
{
    let s0 = Set::<Position>::empty();
    let s1 = if x >= 1 {
        s0.insert(Position { x: (x - 1) as usize, y: y as usize })
    } else {
        s0
    };
    let s2 = if with_middle {
        s1.insert(Position { x: x as usize, y: y as usize })
    } else {
        s1
    };
    let s3 = if x + 1 < v.width {
        s2.insert(Position { x: (x + 1) as usize, y: y as usize })
    } else {
        s2
    };
    assert(row_part(v, x, y, with_middle) =~= s3);
}

/// A position on the board has `neighbor_count` neighbours.
pub proof fn lemma_neighbor_count(v: BoardView, p: Position)
    requires
        v.contains(p),
        v.width <= MAX_SIDE,
        v.height <= MAX_SIDE,
    ensures
        v.neighbors(p).finite(),
        v.neighbors(p).len() == neighbor_count(p.x as int, p.y as int, v.width, v.height),
{
    let x = p.x as int;
    let y = p.y as int;
    let h = v.height;
    let c = v;
    let above = if y >= 1 { row_part(c, x, y - 1, true) } else { Set::empty() };
    let beside = row_part(c, x, y, false);
    let below = if y + 1 < h { row_part(c, x, y + 1, true) } else { Set::empty() };
    if y >= 1 {
        lemma_row_part(c, x, y - 1, true);
    }
    lemma_row_part(c, x, y, false);
    if y + 1 < h {
        lemma_row_part(c, x, y + 1, true);
    }
    assert(v.neighbors(p) =~= above + beside + below);
    vstd::set_lib::lemma_set_disjoint_lens(above, beside);
    vstd::set_lib::lemma_set_disjoint_lens(above + beside, below);
}

/// A corner of a board at least two cells wide and high has three
/// neighbours.
pub proof fn lemma_corner_has_three(v: BoardView, p: Position)
    requires
        v.contains(p),
        2 <= v.width <= MAX_SIDE,
        2 <= v.height <= MAX_SIDE,
        p.x == 0 || p.x == v.width - 1,
        p.y == 0 || p.y == v.height - 1,
    ensures
        v.neighbors(p).len() == 3,
{
    lemma_neighbor_count(v, p);
}

/// A cell on the rim of the board that is no corner has five neighbours,
/// given that the board is at least two cells deep behind it.
pub proof fn lemma_edge_has_five(v: BoardView, p: Position)
    requires
        v.contains(p),
        2 <= v.width <= MAX_SIDE,
        2 <= v.height <= MAX_SIDE,
        (p.x == 0 || p.x == v.width - 1) != (p.y == 0 || p.y == v.height - 1),
    ensures
        v.neighbors(p).len() == 5,
{
    lemma_neighbor_count(v, p);
}

/// A cell off the rim of the board has eight neighbours.
pub proof fn lemma_interior_has_eight(v: BoardView, p: Position)
    requires
        v.contains(p),
        v.width <= MAX_SIDE,
        v.height <= MAX_SIDE,
        1 <= p.x < v.width - 1,
        1 <= p.y < v.height - 1,
    ensures
        v.neighbors(p).len() == 8,
{
    lemma_neighbor_count(v, p);
}

/// `q` comes before column `cx` of row `cy` when the grid is read row by row.
pub open spec fn reads_before(q: Position, cx: int, cy: int) -> bool {
    q.y < cy || (q.y == cy && q.x < cx)
}

/// The positions of `s` stand as the grid is read: row by row from the top,
/// each row from the left. No position stands twice.
pub open spec fn in_reading_order(s: Seq<Position>) -> bool {
    forall|i: int, j: int|
        0 <= i < j < s.len() ==> reads_before(#[trigger] s[i], (#[trigger] s[j]).x as int, s[j].y as int)
}

impl Board {
    /// The positions on the board next to `pos`, each once, row by row.
    ///
    /// `pos` itself need not lie on the board.
    pub fn neighbors_of(&self, pos: Position) -> (found: Vec<Position>)
        requires
            self.shaped(),
        ensures
            found@.no_duplicates(),
            in_reading_order(found@),
            found@.to_set() == self@.neighbors(pos),
            found@.len() == self@.neighbors(pos).len(),
            self@.contains(pos) ==> found@.len() == neighbor_count(
                pos.x as int,
                pos.y as int,
                self@.width,
                self@.height,
            ),
    {
        proof {
            self.lemma_view();
        }
        let x_from: usize = if pos.x >= 1 {
            pos.x - 1
        } else {
            0
        };
        let x_to: usize = if pos.x < self.width - 1 {
            pos.x + 2
        } else {
            self.width
        };
        let y_from: usize = if pos.y >= 1 {
            pos.y - 1
        } else {
            0
        };
        let y_to: usize = if pos.y < self.height - 1 {
            pos.y + 2
        } else {
            self.height
        };
        let ghost near = self@.neighbors(pos);
        let mut found: Vec<Position> = Vec::new();
        let mut cy: usize = y_from;
        while cy < y_to
            invariant
                self.shaped(),
                near == self@.neighbors(pos),
                y_to <= self.height,
                x_to <= self.width,
                forall|q: Position| near.contains(q) ==> x_from <= q.x < x_to && y_from <= q.y < y_to,
                y_from <= cy,
                pos.x - 1 <= x_from,
                x_to <= pos.x + 2,
                pos.y - 1 <= y_from,
                y_to <= pos.y + 2,
                found@.no_duplicates(),
                in_reading_order(found@),
                forall|i: int| 0 <= i < found@.len() ==> near.contains(#[trigger] found@[i]) && found@[i].y < cy,
                forall|q: Position| near.contains(q) && q.y < cy ==> found@.contains(q),
            decreases y_to - cy,
        {
            let mut cx: usize = x_from;
            while cx < x_to
                invariant
                    self.shaped(),
                    near == self@.neighbors(pos),
                    y_to <= self.height,
                    x_to <= self.width,
                    cy < y_to,
                    forall|q: Position| near.contains(q) ==> x_from <= q.x < x_to && y_from <= q.y < y_to,
                    y_from <= cy,
                    x_from <= cx,
                    pos.x - 1 <= x_from,
                    x_to <= pos.x + 2,
                    pos.y - 1 <= y_from,
                    y_to <= pos.y + 2,
                    found@.no_duplicates(),
                    in_reading_order(found@),
                    forall|i: int| 0 <= i < found@.len() ==> near.contains(#[trigger] found@[i]) && reads_before(found@[i], cx as int, cy as int),
                    forall|q: Position| near.contains(q) && reads_before(q, cx as int, cy as int) ==> found@.contains(q),
                decreases x_to - cx,
            {
                if !(cx == pos.x && cy == pos.y) {
                    let q = Position { x: cx, y: cy };
                    let ghost before = found@;
                    proof {
                        self.lemma_view();
                        assert(self@.contains(q));
                        assert(pos.adjacent(q));
                        assert(near.contains(q));
                    }
                    found.push(q);
                    proof {
                        assert(forall|i: int| 0 <= i < before.len() ==> found@[i] == before[i]);
                        assert(found@[before.len() as int] == q);
                        assert forall|r: Position| near.contains(r) && reads_before(r, cx + 1, cy as int) implies found@.contains(r) by {
                            if reads_before(r, cx as int, cy as int) {
                                assert(before.contains(r));
                                let i = choose|i: int| 0 <= i < before.len() && before[i] == r;
                                assert(found@[i] == r);
                            } else {
                                assert(r == q);
                            }
                        }
                    }
                }
                cx += 1;
            }
            cy += 1;
        }
        proof {
            assert(found@.to_set() =~= near) by {
                assert forall|q: Position| found@.to_set().contains(q) == near.contains(q) by {
                    if found@.contains(q) {
                        let i = choose|i: int| 0 <= i < found@.len() && found@[i] == q;
                        assert(near.contains(found@[i]));
                    }
                }
            }
            found@.unique_seq_to_set();
            if self@.contains(pos) {
                lemma_neighbor_count(self@, pos);
            }
        }
        found
    }
}

} // verus!
