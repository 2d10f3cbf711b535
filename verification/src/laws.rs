//! What holds of every board and of every reveal, stated over the views
//! that the contracts of the operations speak of.

use vstd::prelude::*;
use crate::board::{BoardError, BoardView, Status};
use crate::cell::Cell;
use crate::flood::lemma_flood_reaches_start;
use crate::geometry::Position;
use crate::play::{lemma_after_reveal_valid, lemma_mines_laid_valid, RevealOutcome};

verus! {

/// Every cell of a board as it is made is blank: no mine, hidden, no flag,
/// a count of zero.
pub proof fn lemma_fresh_cells_blank(width: int, height: int, mine_count: int, p: Position)
    requires
        p.within(width, height),
    ensures
        BoardView::fresh(width, height, mine_count).cells[p] == Cell::blank(),
        !BoardView::fresh(width, height, mine_count).mines_placed,
        BoardView::fresh(width, height, mine_count).status == Status::InProgress,
{
}

/// The first reveal that a board accepts lays no mine in the 3x3 block
/// around the revealed cell, so it never hits a mine.
pub proof fn lemma_first_reveal_is_safe(
    v: BoardView,
    pos: Position,
    order: Seq<Position>,
    answer: Result<RevealOutcome, BoardError>,
    after: BoardView,
)
    requires
        v.valid(),
        !v.mines_placed,
        v.reveal_gives(pos, order, answer, after),
        answer is Ok,
    ensures
        forall|p: Position| after.is_mine(p) ==> !pos.touches(p),
        !after.is_mine(pos),
        answer != Ok::<RevealOutcome, BoardError>(RevealOutcome::MineHit),
        after.status != Status::Lost,
{
    let laid = v.with_mines_laid(pos, order);
    lemma_mines_laid_valid(v, pos, order);
    lemma_after_reveal_valid(laid, pos);
    assert(pos.touches(pos));
    assert(!laid.is_mine(pos));
    assert forall|p: Position| after.is_mine(p) implies !pos.touches(p) by {
        assert(after.mines().contains(p));
        assert(laid.mines().contains(p));
        assert(laid.is_mine(p));
    }
    if after.is_mine(pos) {
        assert(!pos.touches(pos));
    }
}

/// Once the mines are laid, the board holds exactly `mine_count` of them.
pub proof fn lemma_mine_total(v: BoardView)
    requires
        v.valid(),
        v.mines_placed,
    ensures
        v.mines().finite(),
        v.mines().len() == v.mine_count,
{
}

/// Every cell's count is the number of its neighbours that hold a mine.
pub proof fn lemma_counts_match_neighbors(v: BoardView, p: Position)
    requires
        v.valid(),
        v.contains(p),
    ensures
        v.cells[p].adjacent_mines == v.neighbors(p).filter(|q: Position| v.cells[q].is_mine).len(),
{
    assert(v.neighbors(p).filter(|q: Position| v.cells[q].is_mine) =~= v.mine_neighbors(p));
}

/// Revealing an open cell again changes nothing, however often: on a board
/// in progress, a reveal at an open cell without a flag answers
/// `AlreadyRevealed` and leaves the board as it was, and so does the next.
pub proof fn lemma_reveal_again_changes_nothing(
    v: BoardView,
    pos: Position,
    first_order: Seq<Position>,
    first: Result<RevealOutcome, BoardError>,
    between: BoardView,
    second_order: Seq<Position>,
    second: Result<RevealOutcome, BoardError>,
    after: BoardView,
)
    requires
        v.valid(),
        v.status == Status::InProgress,
        v.is_revealed(pos),
        !v.cells[pos].is_mine,
        !v.cells[pos].is_flagged,
        v.reveal_gives(pos, first_order, first, between),
        between.reveal_gives(pos, second_order, second, after),
    ensures
        first == Ok::<RevealOutcome, BoardError>(RevealOutcome::AlreadyRevealed),
        second == Ok::<RevealOutcome, BoardError>(RevealOutcome::AlreadyRevealed),
        between == v,
        after == v,
{
    assert(v.contains(pos));
}

/// Revealing the last hidden cell without a mine wins the game.
pub proof fn lemma_last_safe_cell_wins(v: BoardView, pos: Position)
    requires
        v.valid(),
        v.mines_placed,
        v.status == Status::InProgress,
        v.is_hidden(pos),
        !v.cells[pos].is_mine,
        !v.cells[pos].is_flagged,
        forall|p: Position| v.contains(p) && !v.cells[p].is_mine && p != pos ==> v.cells[p].is_revealed,
    ensures
        v.reveal_outcome(pos) == RevealOutcome::Won,
        v.after_reveal(pos).status == Status::Won,
        v.after_reveal(pos).all_safe_revealed(),
{
    lemma_flood_reaches_start(v, pos);
    let opened = v.flooded(pos);
    assert(v.flood_region(pos).contains(pos));
    assert forall|p: Position| opened.contains(p) && !opened.cells[p].is_mine implies opened.cells[p].is_revealed by {
        if p != pos {
            assert(v.contains(p));
        }
    }
    lemma_after_reveal_valid(v, pos);
}

/// Revealing a mine that carries no flag loses the game, and shows that mine
/// and nothing else.
pub proof fn lemma_revealed_mine_loses(v: BoardView, pos: Position)
    requires
        v.valid(),
        v.status == Status::InProgress,
        v.is_mine(pos),
        !v.cells[pos].is_flagged,
    ensures
        v.reveal_outcome(pos) == RevealOutcome::MineHit,
        v.after_reveal(pos).status == Status::Lost,
        v.after_reveal(pos).revealed() == v.revealed().insert(pos),
{
    assert(v.after_reveal(pos).revealed() =~= v.revealed().insert(pos));
}

/// A game that is won or lost does not change any more: every reveal and
/// every toggle of a flag is refused and leaves the board as it was.
pub proof fn lemma_finished_board_is_frozen(
    v: BoardView,
    pos: Position,
    order: Seq<Position>,
    answer: Result<RevealOutcome, BoardError>,
    done: Result<(), BoardError>,
    after_reveal: BoardView,
    after_toggle: BoardView,
)
    requires
        v.status != Status::InProgress,
        v.reveal_gives(pos, order, answer, after_reveal),
        v.toggle_gives(pos, done, after_toggle),
    ensures
        answer is Err,
        done is Err,
        after_reveal == v,
        after_toggle == v,
        after_reveal.revealed() == v.revealed(),
{
}

/// Toggling the flag of a revealed cell changes nothing.
pub proof fn lemma_revealed_cell_keeps_flag(
    v: BoardView,
    pos: Position,
    done: Result<(), BoardError>,
    after: BoardView,
)
    requires
        v.is_revealed(pos),
        v.toggle_gives(pos, done, after),
    ensures
        after == v,
{
}

/// A reveal at a flagged cell answers `CellIsFlagged` and opens nothing:
/// every cell is as hidden or open as it was.
pub proof fn lemma_flag_blocks_reveal(
    v: BoardView,
    pos: Position,
    order: Seq<Position>,
    answer: Result<RevealOutcome, BoardError>,
    after: BoardView,
)
    requires
        v.valid(),
        v.status == Status::InProgress,
        v.contains(pos),
        v.cells[pos].is_flagged,
        v.reveal_gives(pos, order, answer, after),
        answer is Ok,
    ensures
        answer == Ok::<RevealOutcome, BoardError>(RevealOutcome::CellIsFlagged),
        after.revealed() == v.revealed(),
        after.cells[pos].is_revealed == v.cells[pos].is_revealed,
{
    if !v.mines_placed {
        lemma_mines_laid_valid(v, pos, order);
        assert(after.revealed() =~= v.revealed()) by {
            assert forall|p: Position| after.revealed().contains(p) == v.revealed().contains(p) by {
                if v.contains(p) {
                }
            }
        }
    }
}

} // verus!
