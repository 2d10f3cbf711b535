//! Laying the mines: which cells an order of positions selects, and the
//! pass over the board that marks them.

use vstd::prelude::*;
use crate::board::{Board, BoardView};
use crate::cell::Cell;
use crate::geometry::Position;

verus! {

impl BoardView {
    /// A mine may be laid at `p` when the first reveal is at `center`: `p`
    /// lies on the board and outside the 3x3 block around `center`.
    pub open spec fn eligible(self, center: Position, p: Position) -> bool {
        self.contains(p) && !center.touches(p)
    }

    /// The cells that get a mine when the positions of `order` are taken one
    /// after the other: each eligible position, until `mine_count` cells are
    /// chosen. A position that comes a second time changes nothing.
    pub open spec fn chosen_mines(self, center: Position, order: Seq<Position>) -> Set<Position>
        decreases order.len(),
    {
        if order.len() == 0 {
            Set::empty()
        } else {
            let before = self.chosen_mines(center, order.drop_last());
            if before.len() < self.mine_count && self.eligible(center, order.last()) {
                before.insert(order.last())
            } else {
                before
            }
        }
    }

    /// The order holds enough eligible positions for all the mines.
    pub open spec fn supplies_all_mines(self, center: Position, order: Seq<Position>) -> bool {
        self.chosen_mines(center, order).len() == self.mine_count
    }

    /// This board with mines at exactly the positions of `mines`, and every
    /// cell otherwise as it is.
    pub open spec fn with_mines(self, mines: Set<Position>) -> BoardView {
        BoardView {
            cells: Map::new(
                |p: Position| self.contains(p),
                |p: Position| Cell { is_mine: mines.contains(p), ..self.cells[p] },
            ),
            ..self
        }
    }

    /// No cell holds a mine.
    pub open spec fn mine_free(self) -> bool {
        forall|p: Position| #[trigger] self.contains(p) ==> !self.cells[p].is_mine
    }
}

/// The chosen cells are finitely many, at most `mine_count`, and each is
/// eligible and occurs in the order.
pub proof fn lemma_chosen_mines(v: BoardView, center: Position, order: Seq<Position>)
    requires
        0 <= v.mine_count,
    ensures
        v.chosen_mines(center, order).finite(),
        v.chosen_mines(center, order).len() <= v.mine_count,
        forall|p: Position| #[trigger]
            v.chosen_mines(center, order).contains(p) ==> v.eligible(center, p) && order.contains(
                p,
            ),
    decreases order.len(),
{
    if order.len() > 0 {
        let rest = order.drop_last();
        lemma_chosen_mines(v, center, rest);
        assert forall|p: Position| #[trigger]
            v.chosen_mines(center, order).contains(p) implies order.contains(p) by {
            if v.chosen_mines(center, rest).contains(p) {
                let i = choose|i: int| 0 <= i < rest.len() && rest[i] == p;
                assert(order[i] == p);
            } else {
                assert(order[order.len() - 1] == p);
            }
        }
    }
}

/// One more position of the order: what it adds to the chosen cells.
pub proof fn lemma_chosen_mines_step(v: BoardView, center: Position, order: Seq<Position>, i: int)
    requires
        0 <= i < order.len(),
    ensures
        v.chosen_mines(center, order.take(i + 1)) == (if v.chosen_mines(
            center,
            order.take(i),
        ).len() < v.mine_count && v.eligible(center, order[i]) {
            v.chosen_mines(center, order.take(i)).insert(order[i])
        } else {
            v.chosen_mines(center, order.take(i))
        }),
{
    assert(order.take(i + 1).drop_last() =~= order.take(i));
    assert(order.take(i + 1).last() == order[i]);
}

impl Board {
    /// Marks the cells that `order` selects as mines, going through it from
    /// the front and passing over what lies off the board or in the 3x3 block
    /// around `center`. Says whether all `mine_count` mines found a cell.
    pub(crate) fn place_mines(&mut self, center: Position, order: &Vec<Position>) -> (complete: bool)
        requires
            old(self).shaped(),
            old(self)@.mine_free(),
        ensures
            final(self).shaped(),
            final(self)@ == old(self)@.with_mines(old(self)@.chosen_mines(center, order@)),
            complete == old(self)@.supplies_all_mines(center, order@),
    {
        let ghost start = self@;
        let mut count: usize = 0;
        let mut i: usize = 0;
        proof {
            self.lemma_view();
            assert(order@.take(0) =~= Seq::empty());
            assert(self@.cells =~= start.with_mines(Set::empty()).cells);
        }
        while i < order.len()
            invariant
                i <= order.len(),
                self.shaped(),
                start.valid_shape(),
                start.mine_free(),
                start.cells.dom() == start.positions(),
                self@ == start.with_mines(start.chosen_mines(center, order@.take(i as int))),
                count == start.chosen_mines(center, order@.take(i as int)).len(),
                count <= self.mine_count,
            decreases order.len() - i,
        {
            let p = order[i];
            let ghost before = start.chosen_mines(center, order@.take(i as int));
            proof {
                lemma_chosen_mines(start, center, order@.take(i as int));
                lemma_chosen_mines_step(start, center, order@, i as int);
                self.lemma_view();
            }
            if count < self.mine_count && p.x < self.width && p.y < self.height && !center.is_near(&p) {
                let at = self.offset(p);
                if !self.cells[at].is_mine {
                    let ghost prev = *self;
                    let mut cell = self.cells[at];
                    cell.is_mine = true;
                    self.cells[at] = cell;
                    count += 1;
                    proof {
                        prev.lemma_store(*self, p, cell);
                        assert(self@.cells =~= start.with_mines(before.insert(p)).cells);
                    }
                } else {
                    assert(before.insert(p) =~= before);
                }
            }
            i += 1;
        }
        proof {
            assert(order@.take(order@.len() as int) =~= order@);
            self.lemma_view();
        }
        count == self.mine_count
    }

    /// Takes every mine off the board.
    pub(crate) fn clear_mines(&mut self)
        requires
            old(self).shaped(),
        ensures
            final(self).shaped(),
            final(self)@ == old(self)@.with_mines(Set::empty()),
    {
        let ghost start = self@;
        let mut i: usize = 0;
        proof {
            self.lemma_view();
        }
        while i < self.cells.len()
            invariant
                i <= self.cells@.len(),
                self.cells@.len() == old(self).cells@.len(),
                self.width == old(self).width,
                self.height == old(self).height,
                self.mine_count == old(self).mine_count,
                self.mines_placed == old(self).mines_placed,
                self.status == old(self).status,
                forall|j: int| 0 <= j < i ==> self.cells@[j] == (Cell { is_mine: false, ..old(self).cells@[j] }),
                forall|j: int| i <= j < self.cells@.len() ==> self.cells@[j] == old(self).cells@[j],
            decreases self.cells@.len() - i,
        {
            let mut cell = self.cells[i];
            cell.is_mine = false;
            self.cells[i] = cell;
            i += 1;
        }
        proof {
            old(self).lemma_view();
            self.lemma_view();
            assert(self@.cells =~= start.with_mines(Set::empty()).cells);
        }
    }
}

} // verus!
