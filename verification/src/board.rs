//! The board: its mathematical view, its invariant, construction, the
//! read accessors and flagging.

use vstd::prelude::*;
use crate::cell::Cell;
use crate::geometry::{lemma_offset_in_range, lemma_offset_injective, offset_of, Position};

verus! {

/// Where the game stands. `Won` and `Lost` are final.
#[derive(Clone, Copy, Debug, PartialEq, Eq, Structural)]
pub enum Status {
    InProgress,
    Won,
    Lost,
}

/// Why the board refused a request.
#[derive(Clone, Copy, Debug, PartialEq, Eq, Structural)]
pub enum BoardError {
    /// A side of the board is shorter than 1 or longer than 98.
    InvalidDimensions,
    /// The mines would leave fewer than ten cells free.
    InvalidMineCount,
    /// The position lies outside the grid.
    OutOfBounds,
    /// The game has been won or lost; the board no longer changes.
    GameAlreadyOver,
    /// The order of positions offered for laying the mines did not hold
    /// enough cells away from the first reveal.
    PlacementFailed,
}

/// The largest width and height of a board.
pub const MAX_SIDE: usize = 98;

/// The number of cells that must stay free of mines.
pub const RESERVED_CELLS: usize = 10;

/// The board as a mathematical value: its dimensions, the cell at each
/// position of the grid, and the state of the game.
pub struct BoardView {
    pub width: int,
    pub height: int,
    pub mine_count: int,
    pub cells: Map<Position, Cell>,
    pub mines_placed: bool,
    pub status: Status,
}

impl BoardView {
    /// The position lies on this board.
    pub open spec fn contains(self, p: Position) -> bool {
        p.within(self.width, self.height)
    }

    /// Every position on this board.
    pub open spec fn positions(self) -> Set<Position> {
        Set::new(|p: Position| self.contains(p))
    }

    pub open spec fn is_mine(self, p: Position) -> bool {
        self.contains(p) && self.cells[p].is_mine
    }

    pub open spec fn is_revealed(self, p: Position) -> bool {
        self.contains(p) && self.cells[p].is_revealed
    }

    /// The positions that hold a mine.
    pub open spec fn mines(self) -> Set<Position> {
        Set::new(|p: Position| self.is_mine(p))
    }

    /// The positions that the player sees.
    pub open spec fn revealed(self) -> Set<Position> {
        Set::new(|p: Position| self.is_revealed(p))
    }

    /// The positions on the board next to `p`.
    pub open spec fn neighbors(self, p: Position) -> Set<Position> {
        Set::new(|q: Position| self.contains(q) && p.adjacent(q))
    }

    /// The neighbours of `p` that hold a mine.
    pub open spec fn mine_neighbors(self, p: Position) -> Set<Position> {
        Set::new(|q: Position| self.is_mine(q) && p.adjacent(q))
    }

    /// Every cell without a mine is revealed.
    pub open spec fn all_safe_revealed(self) -> bool {
        forall|p: Position| self.contains(p) && !self.cells[p].is_mine ==> self.cells[p].is_revealed
    }

    /// Some mine is revealed.
    pub open spec fn some_mine_revealed(self) -> bool {
        exists|p: Position| self.is_mine(p) && self.cells[p].is_revealed
    }

    /// The dimensions and the mine count are ones that a board can be made with.
    pub open spec fn valid_shape(self) -> bool {
        &&& 1 <= self.width <= MAX_SIDE
        &&& 1 <= self.height <= MAX_SIDE
        &&& 0 <= self.mine_count <= self.width * self.height - RESERVED_CELLS
    }

    /// What holds of every board at all times.
    ///
    /// The grid covers exactly the positions within the dimensions. Before the
    /// mines are laid there is none and nothing is revealed; afterwards there
    /// are exactly `mine_count`. Every cell's count is the number of its
    /// neighbours that hold a mine. The game is lost exactly when a mine is
    /// revealed, and won exactly when every other cell is revealed and no mine
    /// is.
    pub open spec fn valid(self) -> bool {
        &&& self.valid_shape()
        &&& self.cells.dom() == self.positions()
        &&& self.mines().finite()
        &&& self.mines().len() == (if self.mines_placed { self.mine_count } else { 0 })
        &&& forall|p: Position| #[trigger]
            self.contains(p) ==> self.cells[p].adjacent_mines == self.mine_neighbors(p).len()
        &&& !self.mines_placed ==> forall|p: Position| #[trigger]
            self.contains(p) ==> !self.cells[p].is_revealed
        &&& self.status == Status::Lost <==> self.some_mine_revealed()
        &&& self.status == Status::Won <==> self.all_safe_revealed() && !self.some_mine_revealed()
    }

    /// The board as it is made: every cell blank, no mines laid, the game in
    /// progress.
    pub open spec fn fresh(width: int, height: int, mine_count: int) -> BoardView {
        BoardView {
            width,
            height,
            mine_count,
            cells: Map::new(|p: Position| p.within(width, height), |p: Position| Cell::blank()),
            mines_placed: false,
            status: Status::InProgress,
        }
    }

    /// This board with the cell at `p` replaced.
    pub open spec fn with_cell(self, p: Position, cell: Cell) -> BoardView {
        BoardView { cells: self.cells.insert(p, cell), ..self }
    }

    /// How a request to toggle the flag at `pos` ends and what it leaves.
    ///
    /// A position off the board is refused, then a game that is over; each
    /// leaves the board as it was. Otherwise a hidden cell has its flag
    /// flipped and a revealed cell stays as it is.
    pub open spec fn toggle_gives(
        self,
        pos: Position,
        done: Result<(), BoardError>,
        after: BoardView,
    ) -> bool {
        if !self.contains(pos) {
            done == Err::<(), BoardError>(BoardError::OutOfBounds) && after == self
        } else if self.status != Status::InProgress {
            done == Err::<(), BoardError>(BoardError::GameAlreadyOver) && after == self
        } else if self.cells[pos].is_revealed {
            done == Ok::<(), BoardError>(()) && after == self
        } else {
            done == Ok::<(), BoardError>(()) && after == self.with_cell(
                pos,
                self.cells[pos].flipped(),
            )
        }
    }

    /// The two boards differ at most in their cells' flags.
    pub open spec fn same_but_flags(self, other: BoardView) -> bool {
        &&& self.width == other.width
        &&& self.height == other.height
        &&& self.mine_count == other.mine_count
        &&& self.mines_placed == other.mines_placed
        &&& self.status == other.status
        &&& self.cells.dom() == other.cells.dom()
        &&& forall|p: Position| #[trigger]
            self.contains(p) ==> {
                &&& self.cells[p].is_mine == other.cells[p].is_mine
                &&& self.cells[p].is_revealed == other.cells[p].is_revealed
                &&& self.cells[p].adjacent_mines == other.cells[p].adjacent_mines
            }
    }
}

/// A fresh board of an accepted shape is valid.
pub proof fn lemma_fresh_valid(width: int, height: int, mine_count: int)
    requires
        BoardView::fresh(width, height, mine_count).valid_shape(),
    ensures
        BoardView::fresh(width, height, mine_count).valid(),
{
    let v = BoardView::fresh(width, height, mine_count);
    assert(v.cells.dom() =~= v.positions());
    assert(v.mines() =~= Set::empty());
    assert forall|p: Position| #[trigger] v.contains(p) implies v.cells[p].adjacent_mines
        == v.mine_neighbors(p).len() by {
        assert(v.mine_neighbors(p) =~= Set::empty());
    }
    let origin = Position { x: 0, y: 0 };
    assert(v.contains(origin) && !v.cells[origin].is_mine && !v.cells[origin].is_revealed);
}

/// Flags play no part in the invariant: a board that differs from a valid
/// one only in its flags is valid.
pub proof fn lemma_flags_keep_valid(a: BoardView, b: BoardView)
    requires
        a.valid(),
        a.same_but_flags(b),
    ensures
        b.valid(),
{
    assert(b.mines() =~= a.mines()) by {
        assert forall|p: Position| b.mines().contains(p) == a.mines().contains(p) by {
            if a.contains(p) {
            }
        }
    }
    assert forall|p: Position| #[trigger] b.contains(p) implies b.cells[p].adjacent_mines
        == b.mine_neighbors(p).len() by {
        assert(a.contains(p));
        assert(b.mine_neighbors(p) =~= a.mine_neighbors(p)) by {
            assert forall|q: Position|
                b.mine_neighbors(p).contains(q) == a.mine_neighbors(p).contains(q) by {
                if a.contains(q) {
                }
            }
        }
    }
    if !b.mines_placed {
        assert forall|p: Position| #[trigger] b.contains(p) implies !b.cells[p].is_revealed by {
            assert(a.contains(p));
        }
    }
    assert(b.positions() =~= a.positions());
    assert(b.some_mine_revealed() == a.some_mine_revealed()) by {
        if a.some_mine_revealed() {
            let p = choose|p: Position| a.is_mine(p) && a.cells[p].is_revealed;
            assert(a.contains(p));
            assert(b.is_mine(p) && b.cells[p].is_revealed);
        }
        if b.some_mine_revealed() {
            let p = choose|p: Position| b.is_mine(p) && b.cells[p].is_revealed;
            assert(a.contains(p));
            assert(a.is_mine(p) && a.cells[p].is_revealed);
        }
    }
    assert(b.all_safe_revealed() == a.all_safe_revealed()) by {
        if a.all_safe_revealed() {
            assert forall|p: Position| b.contains(p) && !b.cells[p].is_mine implies b.cells[p].is_revealed by {
                assert(a.contains(p));
            }
        }
        if b.all_safe_revealed() {
            assert forall|p: Position| a.contains(p) && !a.cells[p].is_mine implies a.cells[p].is_revealed by {
                assert(a.contains(p));
                assert(b.contains(p));
            }
        }
    }
}

/// A rectangular minefield and the state of the game played on it.
pub struct Board {
    pub(crate) width: usize,
    pub(crate) height: usize,
    pub(crate) mine_count: usize,
    /// The cells row by row: the cell at `(x, y)` stands at `y * width + x`.
    pub(crate) cells: Vec<Cell>,
    pub(crate) mines_placed: bool,
    pub(crate) status: Status,
}

impl View for Board {
    type V = BoardView;

    open(crate) spec fn view(&self) -> BoardView {
        BoardView {
            width: self.width as int,
            height: self.height as int,
            mine_count: self.mine_count as int,
            cells: Map::new(
                |p: Position| p.within(self.width as int, self.height as int),
                |p: Position| self.cells@[offset_of(p, self.width as int)],
            ),
            mines_placed: self.mines_placed,
            status: self.status,
        }
    }
}

impl Board {
    /// The stored cells are as many as the grid has positions.
    pub open(crate) spec fn layout_ok(&self) -> bool {
        self.cells@.len() == self.width * self.height
    }

    /// The storage fits the dimensions, and the dimensions are ones that a
    /// board can be made with. This is less than `wf`, and holds also while
    /// an operation is under way.
    pub open spec fn shaped(&self) -> bool {
        &&& self.layout_ok()
        &&& self@.valid_shape()
    }

    /// The board is well formed: its storage fits its dimensions and its view
    /// is valid.
    pub open spec fn wf(&self) -> bool {
        &&& self.layout_ok()
        &&& self@.valid()
    }

    /// What the view shows of the stored fields.
    pub(crate) proof fn lemma_view(&self)
        requires
            self.layout_ok(),
        ensures
            self@.width == self.width,
            self@.height == self.height,
            self@.mine_count == self.mine_count,
            self@.mines_placed == self.mines_placed,
            self@.status == self.status,
            self@.cells.dom() == self@.positions(),
            forall|p: Position| #[trigger]
                self@.contains(p) ==> 0 <= offset_of(p, self.width as int) < self.cells@.len()
                    && self@.cells[p] == self.cells@[offset_of(p, self.width as int)],
    {
        assert forall|p: Position| #[trigger] self@.contains(p) implies 0 <= offset_of(
            p,
            self.width as int,
        ) < self.cells@.len() by {
            lemma_offset_in_range(p, self.width as int, self.height as int);
        }
        assert(self@.cells.dom() =~= self@.positions());
    }

    /// Replacing the stored cell at the offset of `p` replaces the cell at
    /// `p` in the view and nothing else.
    pub(crate) proof fn lemma_store(&self, after: Board, p: Position, cell: Cell)
        requires
            self.layout_ok(),
            self@.contains(p),
            after.width == self.width,
            after.height == self.height,
            after.mine_count == self.mine_count,
            after.mines_placed == self.mines_placed,
            after.status == self.status,
            after.cells@ == self.cells@.update(offset_of(p, self.width as int), cell),
        ensures
            after.layout_ok(),
            after@ == self@.with_cell(p, cell),
    {
        self.lemma_view();
        let w = self.width as int;
        assert(after@.cells =~= self@.cells.insert(p, cell)) by {
            assert forall|q: Position| self@.contains(q) implies #[trigger] after@.cells[q]
                == self@.cells.insert(p, cell)[q] by {
                lemma_offset_in_range(q, w, self.height as int);
                if q != p {
                    if offset_of(q, w) == offset_of(p, w) {
                        lemma_offset_injective(p, q, w);
                    }
                }
            }
        }
    }

    /// The offset of the cell at `p` in the storage.
    pub(crate) fn offset(&self, p: Position) -> (i: usize)
        requires
            self.layout_ok(),
            self@.contains(p),
        ensures
            i == offset_of(p, self.width as int),
            i < self.cells@.len(),
            self.cells@[i as int] == self@.cells[p],
    {
        proof {
            self.lemma_view();
            lemma_offset_in_range(p, self.width as int, self.height as int);
            assert(0 <= p.y * self.width) by (nonlinear_arith)
                requires
                    0 <= p.y,
                    0 <= self.width,
            ;
            assert(self.cells.len() == self.cells@.len());
        }
        p.y * self.width + p.x
    }

    /// The largest number of mines that a board of the given size takes:
    /// ten fewer than it has cells. `None` where a side is out of range or the
    /// board has fewer than ten cells.
    pub fn mine_limit(width: usize, height: usize) -> (limit: Option<usize>)
        ensures
            limit == (if 1 <= width <= MAX_SIDE && 1 <= height <= MAX_SIDE && width * height
                >= RESERVED_CELLS {
                Some((width * height - RESERVED_CELLS) as usize)
            } else {
                None
            }),
    {
        if width < 1 || width > MAX_SIDE || height < 1 || height > MAX_SIDE {
            return None;
        }
        assert(width * height <= 98 * 98) by (nonlinear_arith)
            requires
                0 <= width <= 98,
                0 <= height <= 98,
        ;
        let total: usize = width * height;
        if total < RESERVED_CELLS {
            None
        } else {
            Some(total - RESERVED_CELLS)
        }
    }

    /// Makes a board of the given size with every cell blank. The mines are
    /// laid by the first reveal.
    ///
    /// Each side must be between 1 and 98, and the mines must leave at least
    /// ten cells free.
    pub fn new(width: usize, height: usize, mine_count: usize) -> (made: Result<Board, BoardError>)
        ensures
            !(1 <= width <= MAX_SIDE && 1 <= height <= MAX_SIDE) ==> made == Err::<Board, BoardError>(
                BoardError::InvalidDimensions,
            ),
            1 <= width <= MAX_SIDE && 1 <= height <= MAX_SIDE && mine_count > width * height
                - RESERVED_CELLS ==> made == Err::<Board, BoardError>(BoardError::InvalidMineCount),
            BoardView::fresh(width as int, height as int, mine_count as int).valid_shape() ==> {
                &&& made is Ok
                &&& made->Ok_0.wf()
                &&& made->Ok_0@ == BoardView::fresh(width as int, height as int, mine_count as int)
            },
    {
        if width < 1 || width > MAX_SIDE || height < 1 || height > MAX_SIDE {
            return Err(BoardError::InvalidDimensions);
        }
        assert(width * height <= 98 * 98) by (nonlinear_arith)
            requires
                0 <= width <= 98,
                0 <= height <= 98,
        ;
        let total: usize = width * height;
        if total < RESERVED_CELLS || mine_count > total - RESERVED_CELLS {
            return Err(BoardError::InvalidMineCount);
        }
        let mut cells: Vec<Cell> = Vec::new();
        let mut filled: usize = 0;
        while filled < total
            invariant
                filled <= total,
                cells@.len() == filled,
                forall|i: int| 0 <= i < filled ==> cells@[i] == Cell::blank(),
            decreases total - filled,
        {
            cells.push(Cell::new(false));
            filled += 1;
        }
        let board = Board {
            width,
            height,
            mine_count,
            cells,
            mines_placed: false,
            status: Status::InProgress,
        };
        proof {
            let fresh = BoardView::fresh(width as int, height as int, mine_count as int);
            board.lemma_view();
            assert forall|p: Position| fresh.contains(p) implies #[trigger] board@.cells[p]
                == Cell::blank() by {
                assert(board@.contains(p));
            }
            assert(board@.cells =~= fresh.cells);
            lemma_fresh_valid(width as int, height as int, mine_count as int);
        }
        Ok(board)
    }

    /// The width and the height.
    pub fn dimensions(&self) -> (size: (usize, usize))
        requires
            self.wf(),
        ensures
            size.0 == self@.width,
            size.1 == self@.height,
    {
        (self.width, self.height)
    }

    /// The number of mines that the board was made for.
    pub fn mine_count(&self) -> (n: usize)
        requires
            self.wf(),
        ensures
            n == self@.mine_count,
    {
        self.mine_count
    }

    /// Whether the mines have been laid, that is, whether a reveal has been
    /// accepted.
    pub fn mines_placed(&self) -> (placed: bool)
        requires
            self.wf(),
        ensures
            placed == self@.mines_placed,
    {
        self.mines_placed
    }

    pub fn status(&self) -> (status: Status)
        requires
            self.wf(),
        ensures
            status == self@.status,
    {
        self.status
    }

    /// Whether `pos` lies on the board.
    pub fn in_bounds(&self, pos: Position) -> (inside: bool)
        requires
            self.wf(),
        ensures
            inside == self@.contains(pos),
    {
        pos.x < self.width && pos.y < self.height
    }

    /// The cell at `pos`, or `OutOfBounds`.
    pub fn cell_at(&self, pos: Position) -> (found: Result<Cell, BoardError>)
        requires
            self.wf(),
        ensures
            found == (if self@.contains(pos) {
                Ok::<Cell, BoardError>(self@.cells[pos])
            } else {
                Err::<Cell, BoardError>(BoardError::OutOfBounds)
            }),
    {
        if !self.in_bounds(pos) {
            return Err(BoardError::OutOfBounds);
        }
        let i = self.offset(pos);
        Ok(self.cells[i])
    }

    /// Sets or clears the flag on a hidden cell.
    ///
    /// A position outside the grid is refused, and so is any request once
    /// the game is over. A revealed cell is left as it is.
    pub fn toggle_flag(&mut self, pos: Position) -> (done: Result<(), BoardError>)
        requires
            old(self).wf(),
        ensures
            final(self).wf(),
            old(self)@.toggle_gives(pos, done, final(self)@),
            final(self)@.same_but_flags(old(self)@),
    {
        if !self.in_bounds(pos) {
            return Err(BoardError::OutOfBounds);
        }
        if self.status != Status::InProgress {
            return Err(BoardError::GameAlreadyOver);
        }
        let i = self.offset(pos);
        if self.cells[i].is_revealed {
            return Ok(());
        }
        let mut cell = self.cells[i];
        cell.toggle_flag();
        self.cells[i] = cell;
        proof {
            old(self).lemma_store(*self, pos, cell);
            lemma_flags_keep_valid(old(self)@, self@);
        }
        Ok(())
    }
}

} // verus!
