//! Counting, for every cell, the mines next to it.

use vstd::prelude::*;
use crate::board::{Board, BoardView};
use crate::cell::Cell;
use crate::geometry::Position;
use crate::neighbors::reads_before;

verus! {

impl BoardView {
    /// This board with every cell's count set to the number of its
    /// neighbours that hold a mine.
    pub open spec fn with_counts(self) -> BoardView {
        BoardView {
            cells: Map::new(
                |p: Position| self.contains(p),
                |p: Position|
                    Cell { adjacent_mines: self.mine_neighbors(p).len() as u8, ..self.cells[p] },
            ),
            ..self
        }
    }

    /// Every cell's count is the number of its neighbours that hold a mine.
    pub open spec fn counts_correct(self) -> bool {
        forall|p: Position| #[trigger]
            self.contains(p) ==> self.cells[p].adjacent_mines == self.mine_neighbors(p).len()
    }
}

/// The mines next to a position are among its neighbours, so they are
/// finitely many, and on a board of accepted size at most eight.
pub proof fn lemma_mine_neighbors_bounded(v: BoardView, p: Position)
    requires
        v.valid_shape(),
        v.contains(p),
    ensures
        v.mine_neighbors(p).finite(),
        v.mine_neighbors(p).len() <= 8,
{
    crate::neighbors::lemma_neighbor_count(v, p);
    assert(v.mine_neighbors(p).subset_of(v.neighbors(p)));
    vstd::set_lib::lemma_len_subset(v.mine_neighbors(p), v.neighbors(p));
}

/// Two boards of one size with mines in the same cells have the same mines
/// next to each position.
pub proof fn lemma_same_mines_same_neighbors(a: BoardView, b: BoardView, p: Position)
    requires
        a.width == b.width,
        a.height == b.height,
        forall|q: Position| #[trigger] a.contains(q) ==> a.cells[q].is_mine == b.cells[q].is_mine,
    ensures
        a.mine_neighbors(p) == b.mine_neighbors(p),
        a.mines() == b.mines(),
{
    assert forall|q: Position| a.is_mine(q) == b.is_mine(q) by {
        if a.contains(q) {
        }
    }
    assert(a.mine_neighbors(p) =~= b.mine_neighbors(p));
    assert(a.mines() =~= b.mines());
}

/// Counts are correct once they are computed.
pub proof fn lemma_with_counts_correct(v: BoardView)
    requires
        v.valid_shape(),
    ensures
        v.with_counts().counts_correct(),
        v.with_counts().mines() == v.mines(),
{
    let c = v.with_counts();
    assert forall|p: Position| #[trigger] c.contains(p) implies c.cells[p].adjacent_mines
        == c.mine_neighbors(p).len() by {
        assert(v.contains(p));
        lemma_same_mines_same_neighbors(v, c, p);
        lemma_mine_neighbors_bounded(v, p);
    }
    lemma_same_mines_same_neighbors(v, c, Position { x: 0, y: 0 });
}

/// What one more element adds to a prefix of a sequence without duplicates.
proof fn lemma_prefix_grows(s: Seq<Position>, k: int)
    requires
        0 <= k < s.len(),
        s.no_duplicates(),
    ensures
        !s.take(k).contains(s[k]),
        forall|q: Position| s.take(k + 1).contains(q) <==> s.take(k).contains(q) || q == s[k],
{
    let short = s.take(k);
    let long = s.take(k + 1);
    if short.contains(s[k]) {
        let j = choose|j: int| 0 <= j < short.len() && short[j] == s[k];
        assert(s[j] == s[k]);
    }
    assert forall|q: Position| long.contains(q) <==> short.contains(q) || q == s[k] by {
        if long.contains(q) {
            let j = choose|j: int| 0 <= j < long.len() && long[j] == q;
            if j < k {
                assert(short[j] == q);
            }
        }
        if short.contains(q) {
            let j = choose|j: int| 0 <= j < short.len() && short[j] == q;
            assert(long[j] == q);
        }
        if q == s[k] {
            assert(long[k] == q);
        }
    }
}

impl Board {
    /// The number of mines next to `pos`.
    pub(crate) fn count_adjacent_mines(&self, pos: Position) -> (count: u8)
        requires
            self.shaped(),
            self@.contains(pos),
        ensures
            count == self@.mine_neighbors(pos).len(),
    {
        let near = self.neighbors_of(pos);
        let ghost wanted = self@.mine_neighbors(pos);
        let ghost mut seen: Set<Position> = Set::empty();
        let mut count: u8 = 0;
        let mut k: usize = 0;
        proof {
            crate::neighbors::lemma_neighbor_count(self@, pos);
        }
        while k < near.len()
            invariant
                self.shaped(),
                k <= near.len() <= 8,
                near@.no_duplicates(),
                near@.to_set() == self@.neighbors(pos),
                count <= k,
                seen.finite(),
                seen.len() == count,
                forall|q: Position| seen.contains(q) <==> self@.is_mine(q) && near@.take(k as int).contains(q),
            decreases near.len() - k,
        {
            let q = near[k];
            proof {
                lemma_prefix_grows(near@, k as int);
                assert(near@.contains(q));
                assert(near@.to_set().contains(q));
                assert(self@.contains(q));
            }
            let at = self.offset(q);
            if self.cells[at].is_mine {
                count += 1;
                proof {
                    seen = seen.insert(q);
                }
            }
            k += 1;
        }
        proof {
            assert(near@.take(near@.len() as int) =~= near@);
            assert(seen =~= wanted) by {
                assert forall|q: Position| seen.contains(q) == wanted.contains(q) by {
                    assert(near@.to_set().contains(q) == near@.contains(q));
                }
            }
        }
        count
    }

    /// Sets every cell's count to the number of mines next to it.
    pub(crate) fn compute_adjacency(&mut self)
        requires
            old(self).shaped(),
        ensures
            final(self).shaped(),
            final(self)@ == old(self)@.with_counts(),
    {
        let ghost start = self@;
        let mut y: usize = 0;
        proof {
            self.lemma_view();
        }
        while y < self.height
            invariant
                self.shaped(),
                y <= self.height,
                start.valid_shape(),
                start.cells.dom() == start.positions(),
                self@.width == start.width,
                self@.height == start.height,
                self@.mine_count == start.mine_count,
                self@.mines_placed == start.mines_placed,
                self@.status == start.status,
                forall|q: Position| #[trigger]
                    start.contains(q) ==> self@.cells[q] == (if q.y < y {
                        start.with_counts().cells[q]
                    } else {
                        start.cells[q]
                    }),
            decreases self.height - y,
        {
            let mut x: usize = 0;
            while x < self.width
                invariant
                    self.shaped(),
                    y < self.height,
                    x <= self.width,
                    start.valid_shape(),
                    start.cells.dom() == start.positions(),
                    self@.width == start.width,
                    self@.height == start.height,
                    self@.mine_count == start.mine_count,
                    self@.mines_placed == start.mines_placed,
                    self@.status == start.status,
                    forall|q: Position| #[trigger]
                        start.contains(q) ==> self@.cells[q] == (if reads_before(
                            q,
                            x as int,
                            y as int,
                        ) {
                            start.with_counts().cells[q]
                        } else {
                            start.cells[q]
                        }),
                decreases self.width - x,
            {
                let p = Position { x, y };
                proof {
                    self.lemma_view();
                    assert(start.contains(p));
                    assert forall|q: Position| #[trigger] self@.contains(q) implies self@.cells[q].is_mine
                        == start.cells[q].is_mine by {
                        assert(start.contains(q));
                    }
                    lemma_same_mines_same_neighbors(self@, start, p);
                }
                let count = self.count_adjacent_mines(p);
                let at = self.offset(p);
                let ghost prev = *self;
                let mut cell = self.cells[at];
                cell.adjacent_mines = count;
                self.cells[at] = cell;
                proof {
                    prev.lemma_store(*self, p, cell);
                    self.lemma_view();
                    assert forall|q: Position| #[trigger] start.contains(q) implies self@.cells[q] == (
                    if reads_before(q, x + 1, y as int) {
                        start.with_counts().cells[q]
                    } else {
                        start.cells[q]
                    }) by {
                        assert(prev@.contains(q));
                    }
                }
                x += 1;
            }
            y += 1;
        }
        proof {
            self.lemma_view();
            assert(self@.cells =~= start.with_counts().cells);
        }
    }
}

} // verus!
