//! Revealing a cell: the first reveal lays the mines, every reveal then
//! answers with what it found and opens a region where the cell is safe.

use vstd::prelude::*;
use crate::arrangement::lemma_arrangement_supplies_all;
use crate::adjacency::{
    lemma_mine_neighbors_bounded,
    lemma_same_mines_same_neighbors,
    lemma_with_counts_correct,
};
use crate::board::{Board, BoardError, BoardView, Status};
use crate::geometry::Position;
use crate::neighbors::reads_before;
use crate::placement::lemma_chosen_mines;

verus! {

/// What a reveal found.
#[derive(Clone, Copy, Debug, PartialEq, Eq, Structural)]
pub enum RevealOutcome {
    /// Cells were opened and the game goes on.
    Continued,
    /// The cell held a mine: the game is lost.
    MineHit,
    /// Cells were opened and no cell without a mine is left hidden: the game
    /// is won.
    Won,
    /// The cell was open already; nothing changed.
    AlreadyRevealed,
    /// The cell carries a flag; it was not opened.
    CellIsFlagged,
}

impl BoardView {
    /// How a reveal at `pos` answers and what it leaves when the mines are
    /// laid at random: as `reveal_gives` says for some arrangement of the
    /// grid. Where no mines are to be laid the order plays no part.
    pub open spec fn random_reveal_gives(
        self,
        pos: Position,
        answer: Result<RevealOutcome, BoardError>,
        after: BoardView,
    ) -> bool {
        if self.needs_mines(pos) {
            exists|order: Seq<Position>| #[trigger]
                self.is_arrangement(order) && self.reveal_gives(pos, order, answer, after)
        } else {
            self.reveal_gives(pos, Seq::empty(), answer, after)
        }
    }

    /// This board with the mines laid that `order` selects for a first
    /// reveal at `center`, and every cell's count computed.
    pub open spec fn with_mines_laid(self, center: Position, order: Seq<Position>) -> BoardView {
        BoardView {
            mines_placed: true,
            ..self.with_mines(self.chosen_mines(center, order)).with_counts()
        }
    }

    /// The board on which a reveal at `center` acts: this board if its mines
    /// are laid, else this board with the mines laid by `order`.
    pub open spec fn prepared(self, center: Position, order: Seq<Position>) -> BoardView {
        if self.mines_placed {
            self
        } else {
            self.with_mines_laid(center, order)
        }
    }

    /// What a reveal at `pos` finds on this board, whose mines are laid. A
    /// flag is looked at first, then a mine, then whether the cell is open.
    pub open spec fn reveal_outcome(self, pos: Position) -> RevealOutcome {
        if self.cells[pos].is_flagged {
            RevealOutcome::CellIsFlagged
        } else if self.cells[pos].is_mine {
            RevealOutcome::MineHit
        } else if self.cells[pos].is_revealed {
            RevealOutcome::AlreadyRevealed
        } else if self.flooded(pos).all_safe_revealed() {
            RevealOutcome::Won
        } else {
            RevealOutcome::Continued
        }
    }

    /// This board, whose mines are laid, after a reveal at `pos`.
    ///
    /// A flagged or open cell leaves the board as it is. A mine is shown and
    /// the game is lost. Any other cell opens its region, and the game is won
    /// if that leaves no cell without a mine hidden.
    pub open spec fn after_reveal(self, pos: Position) -> BoardView {
        match self.reveal_outcome(pos) {
            RevealOutcome::CellIsFlagged => self,
            RevealOutcome::AlreadyRevealed => self,
            RevealOutcome::MineHit => BoardView {
                status: Status::Lost,
                ..self.with_cell(pos, self.cells[pos].opened())
            },
            RevealOutcome::Won => BoardView { status: Status::Won, ..self.flooded(pos) },
            RevealOutcome::Continued => self.flooded(pos),
        }
    }

    /// A reveal at `pos` has to lay the mines first.
    pub open spec fn needs_mines(self, pos: Position) -> bool {
        self.contains(pos) && self.status == Status::InProgress && !self.mines_placed
    }

    /// How a reveal at `pos` answers and what it leaves, where `order` is
    /// the order of positions offered for laying the mines.
    ///
    /// A position off the board is refused, then a game that is over, then an
    /// order that cannot supply the mines; each leaves the board as it was.
    /// Otherwise the reveal acts on the prepared board.
    pub open spec fn reveal_gives(
        self,
        pos: Position,
        order: Seq<Position>,
        answer: Result<RevealOutcome, BoardError>,
        after: BoardView,
    ) -> bool {
        if !self.contains(pos) {
            answer == Err::<RevealOutcome, BoardError>(BoardError::OutOfBounds) && after == self
        } else if self.status != Status::InProgress {
            answer == Err::<RevealOutcome, BoardError>(BoardError::GameAlreadyOver) && after == self
        } else if !self.mines_placed && !self.supplies_all_mines(pos, order) {
            answer == Err::<RevealOutcome, BoardError>(BoardError::PlacementFailed) && after == self
        } else {
            &&& answer == Ok::<RevealOutcome, BoardError>(
                self.prepared(pos, order).reveal_outcome(pos),
            )
            &&& after == self.prepared(pos, order).after_reveal(pos)
        }
    }
}

/// A valid board without mines laid has no mine.
pub proof fn lemma_unlaid_is_mine_free(v: BoardView)
    requires
        v.valid(),
        !v.mines_placed,
    ensures
        v.mine_free(),
{
    assert forall|p: Position| #[trigger] v.contains(p) implies !v.cells[p].is_mine by {
        if v.cells[p].is_mine {
            assert(v.mines().contains(p));
        }
    }
}

/// Laying the mines for a first reveal keeps the board valid, given that
/// the order supplies all of them. No mine lies in the 3x3 block around the
/// revealed cell, and nothing else about the cells changes but their counts.
pub proof fn lemma_mines_laid_valid(v: BoardView, center: Position, order: Seq<Position>)
    requires
        v.valid(),
        v.needs_mines(center),
        v.supplies_all_mines(center, order),
    ensures
        v.with_mines_laid(center, order).valid(),
        v.with_mines_laid(center, order).mines() == v.chosen_mines(center, order),
        v.with_mines_laid(center, order).mines().len() == v.mine_count,
        forall|p: Position|
            v.with_mines_laid(center, order).is_mine(p) ==> !center.touches(p),
        forall|p: Position| #[trigger]
            v.contains(p) ==> {
                &&& v.with_mines_laid(center, order).cells[p].is_revealed == v.cells[p].is_revealed
                &&& v.with_mines_laid(center, order).cells[p].is_flagged == v.cells[p].is_flagged
            },
{
    let chosen = v.chosen_mines(center, order);
    let marked = v.with_mines(chosen);
    let laid = v.with_mines_laid(center, order);
    lemma_chosen_mines(v, center, order);
    lemma_with_counts_correct(marked);
    assert(laid.cells.dom() =~= laid.positions());
    assert(marked.mines() =~= chosen) by {
        assert forall|p: Position| marked.mines().contains(p) == chosen.contains(p) by {
            if chosen.contains(p) {
                assert(v.eligible(center, p));
            }
        }
    }
    assert(laid.mines() =~= marked.with_counts().mines());
    assert forall|p: Position| #[trigger] laid.contains(p) implies laid.cells[p].adjacent_mines
        == laid.mine_neighbors(p).len() by {
        assert(marked.with_counts().contains(p));
        assert(laid.mine_neighbors(p) =~= marked.with_counts().mine_neighbors(p));
    }
    assert forall|p: Position| laid.is_mine(p) implies !center.touches(p) by {
        assert(laid.mines().contains(p));
        assert(chosen.contains(p));
    }
    assert(!laid.some_mine_revealed()) by {
        if laid.some_mine_revealed() {
            let p = choose|p: Position| laid.is_mine(p) && laid.cells[p].is_revealed;
            assert(v.contains(p));
        }
    }
    assert(!laid.all_safe_revealed()) by {
        assert(v.contains(center));
        assert(center.touches(center));
        assert(!laid.is_mine(center));
        assert(laid.contains(center) && !laid.cells[center].is_mine
            && !laid.cells[center].is_revealed);
    }
}

/// No mine lies in the region of a reveal at a cell without a mine: a cell
/// next to a mine has a count above zero, and the region does not go on
/// from such a cell.
pub proof fn lemma_flood_avoids_mines(v: BoardView, start: Position)
    requires
        v.valid_shape(),
        v.counts_correct(),
        !v.is_mine(start),
    ensures
        forall|p: Position| v.flood_region(start).contains(p) ==> !v.is_mine(p),
{
    assert forall|p: Position| v.flood_region(start).contains(p) implies !v.is_mine(p) by {
        let path = choose|path: Seq<Position>|
            v.is_flood_path(path) && path.first() == start && #[trigger] path.last() == p;
        if path.len() > 1 {
            let from = path[path.len() - 2];
            assert(v.spreads(from) && from.adjacent(path[path.len() - 2 + 1]));
            if v.is_mine(p) {
                lemma_mine_neighbors_bounded(v, from);
                assert(v.mine_neighbors(from).contains(p));
                assert(v.contains(from));
            }
        }
    }
}

/// A reveal on a valid board in progress, whose mines are laid, leaves a
/// valid board with the same mines and counts. It leaves the game lost
/// exactly when it hit a mine, and won exactly when it answers `Won`.
pub proof fn lemma_after_reveal_valid(v: BoardView, pos: Position)
    requires
        v.valid(),
        v.mines_placed,
        v.status == Status::InProgress,
        v.contains(pos),
    ensures
        v.after_reveal(pos).valid(),
        v.after_reveal(pos).mines() == v.mines(),
        v.after_reveal(pos).status == (match v.reveal_outcome(pos) {
            RevealOutcome::MineHit => Status::Lost,
            RevealOutcome::Won => Status::Won,
            _ => Status::InProgress,
        }),
{
    let next = v.after_reveal(pos);
    let outcome = v.reveal_outcome(pos);
    if outcome == RevealOutcome::CellIsFlagged || outcome == RevealOutcome::AlreadyRevealed {
    } else {
        assert(next.cells.dom() =~= next.positions());
        assert forall|q: Position| #[trigger] v.contains(q) implies v.cells[q].is_mine
            == next.cells[q].is_mine && v.cells[q].adjacent_mines
            == next.cells[q].adjacent_mines by {}
        lemma_same_mines_same_neighbors(v, next, pos);
        assert forall|p: Position| #[trigger] next.contains(p) implies next.cells[p].adjacent_mines
            == next.mine_neighbors(p).len() by {
            assert(v.contains(p));
            lemma_same_mines_same_neighbors(v, next, p);
        }
        if outcome == RevealOutcome::MineHit {
            assert(next.is_mine(pos) && next.cells[pos].is_revealed);
        } else {
            lemma_flood_avoids_mines(v, pos);
            assert(!next.some_mine_revealed()) by {
                if next.some_mine_revealed() {
                    let p = choose|p: Position| next.is_mine(p) && next.cells[p].is_revealed;
                    assert(v.contains(p));
                    if v.flood_region(pos).contains(p) {
                        assert(!v.is_mine(p));
                    } else {
                        assert(v.is_mine(p) && v.cells[p].is_revealed);
                    }
                }
            }
            assert(next.all_safe_revealed() == v.flooded(pos).all_safe_revealed()) by {
                if v.flooded(pos).all_safe_revealed() {
                    assert forall|p: Position|
                        next.contains(p) && !next.cells[p].is_mine implies next.cells[p].is_revealed by {
                        assert(v.flooded(pos).contains(p));
                    }
                }
                if next.all_safe_revealed() {
                    assert forall|p: Position|
                        v.flooded(pos).contains(p) && !v.flooded(
                            pos,
                        ).cells[p].is_mine implies v.flooded(pos).cells[p].is_revealed by {
                        assert(next.contains(p));
                    }
                }
            }
        }
    }
}

impl Board {
    /// Whether every cell without a mine is revealed.
    pub fn all_safe_revealed(&self) -> (all: bool)
        requires
            self.shaped(),
        ensures
            all == self@.all_safe_revealed(),
    {
        let mut y: usize = 0;
        proof {
            self.lemma_view();
        }
        while y < self.height
            invariant
                self.shaped(),
                y <= self.height,
                forall|q: Position|
                    self@.contains(q) && q.y < y && !self@.cells[q].is_mine
                        ==> self@.cells[q].is_revealed,
            decreases self.height - y,
        {
            let mut x: usize = 0;
            while x < self.width
                invariant
                    self.shaped(),
                    y < self.height,
                    x <= self.width,
                    forall|q: Position|
                        self@.contains(q) && reads_before(q, x as int, y as int)
                            && !self@.cells[q].is_mine ==> self@.cells[q].is_revealed,
                decreases self.width - x,
            {
                let p = Position { x, y };
                proof {
                    self.lemma_view();
                }
                let at = self.offset(p);
                if !self.cells[at].is_mine && !self.cells[at].is_revealed {
                    return false;
                }
                x += 1;
            }
            y += 1;
        }
        proof {
            self.lemma_view();
        }
        true
    }

    /// Reveals the cell at `pos`, laying the mines first if this is the
    /// first reveal. The mines go to the eligible positions of `order`, taken
    /// from the front: the positions on the board outside the 3x3 block
    /// around `pos`.
    ///
    /// The board is left untouched when the request is refused: for a
    /// position off the board, for a game that is over, and for an order that
    /// holds too few eligible positions.
    pub fn reveal_cell_with_order(&mut self, pos: Position, order: &Vec<Position>) -> (answer: Result<
        RevealOutcome,
        BoardError,
    >)
        requires
            old(self).wf(),
        ensures
            final(self).wf(),
            old(self)@.reveal_gives(pos, order@, answer, final(self)@),
            answer is Ok && !old(self)@.mines_placed ==> forall|p: Position|
                final(self)@.is_mine(p) ==> !pos.touches(p),
            !old(self)@.mines_placed ==> answer != Ok::<RevealOutcome, BoardError>(
                RevealOutcome::MineHit,
            ),
            answer is Ok ==> final(self)@.mines_placed && final(self)@.mines().len()
                == final(self)@.mine_count,
            old(self)@.mines_placed ==> final(self)@.mines() == old(self)@.mines(),
    {
        if !self.in_bounds(pos) {
            return Err(BoardError::OutOfBounds);
        }
        if self.status != Status::InProgress {
            return Err(BoardError::GameAlreadyOver);
        }
        proof {
            self.lemma_view();
        }
        if !self.mines_placed {
            proof {
                lemma_unlaid_is_mine_free(self@);
            }
            let complete = self.place_mines(pos, order);
            if !complete {
                self.clear_mines();
                proof {
                    self.lemma_view();
                    assert(self@.cells =~= old(self)@.cells);
                }
                return Err(BoardError::PlacementFailed);
            }
            self.compute_adjacency();
            self.mines_placed = true;
            proof {
                self.lemma_view();
                lemma_mines_laid_valid(old(self)@, pos, order@);
                assert(self@.cells =~= old(self)@.with_mines_laid(pos, order@).cells);
            }
        }
        let ghost ready = self@;
        proof {
            self.lemma_view();
            lemma_after_reveal_valid(ready, pos);
        }
        let at = self.offset(pos);
        let cell = self.cells[at];
        if cell.is_flagged {
            return Ok(RevealOutcome::CellIsFlagged);
        }
        if cell.is_mine {
            proof {
                assert(ready.is_mine(pos));
                assert(pos.touches(pos));
            }
            self.open_cell(pos);
            self.status = Status::Lost;
            proof {
                self.lemma_view();
            }
            return Ok(RevealOutcome::MineHit);
        }
        if cell.is_revealed {
            return Ok(RevealOutcome::AlreadyRevealed);
        }
        self.flood_reveal(pos);
        if self.all_safe_revealed() {
            self.status = Status::Won;
            proof {
                self.lemma_view();
            }
            Ok(RevealOutcome::Won)
        } else {
            Ok(RevealOutcome::Continued)
        }
    }

    /// Reveals the cell at `pos`. The first reveal lays the mines at random,
    /// none of them in the 3x3 block around `pos`.
    ///
    /// This is `reveal_cell_with_order` with a random arrangement of the
    /// grid as the order. An arrangement always supplies all the mines, so
    /// the request is refused only for a position off the board and for a
    /// game that is over.
    pub fn reveal_cell(&mut self, pos: Position) -> (answer: Result<RevealOutcome, BoardError>)
        requires
            old(self).wf(),
        ensures
            final(self).wf(),
            old(self)@.random_reveal_gives(pos, answer, final(self)@),
            answer is Ok <==> old(self)@.contains(pos) && old(self)@.status == Status::InProgress,
            answer is Ok && !old(self)@.mines_placed ==> forall|p: Position|
                final(self)@.is_mine(p) ==> !pos.touches(p),
            !old(self)@.mines_placed ==> answer != Ok::<RevealOutcome, BoardError>(
                RevealOutcome::MineHit,
            ),
            answer is Ok ==> final(self)@.mines_placed && final(self)@.mines().len()
                == final(self)@.mine_count,
            old(self)@.mines_placed ==> final(self)@.mines() == old(self)@.mines(),
    {
        if self.mines_placed || !self.in_bounds(pos) || self.status != Status::InProgress {
            proof {
                self.lemma_view();
            }
            let order: Vec<Position> = Vec::new();
            return self.reveal_cell_with_order(pos, &order);
        }
        let order = self.shuffled_positions();
        proof {
            self.lemma_view();
            lemma_arrangement_supplies_all(self@, pos, order@);
        }
        self.reveal_cell_with_order(pos, &order)
    }
}

} // verus!
