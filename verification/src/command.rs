//! The game as a player drives it: words and coordinates as they are typed,
//! commands, and what each command does to the game.

use vstd::prelude::*;
use crate::board::{Board, BoardError, BoardView, Status};
use crate::geometry::Position;
use crate::play::RevealOutcome;

verus! {

/// The first word of a command line.
#[derive(Clone, Copy, Debug, PartialEq, Eq, Structural)]
pub enum Keyword {
    Select,
    Flag,
    Draw,
    Help,
    Quit,
}

/// `SELECT` in ASCII.
pub open spec fn select_word() -> Seq<u8> {
    seq![83u8, 69u8, 76u8, 69u8, 67u8, 84u8]
}

/// `FLAG` in ASCII.
pub open spec fn flag_word() -> Seq<u8> {
    seq![70u8, 76u8, 65u8, 71u8]
}

/// `DRAW` in ASCII.
pub open spec fn draw_word() -> Seq<u8> {
    seq![68u8, 82u8, 65u8, 87u8]
}

/// `HELP` in ASCII.
pub open spec fn help_word() -> Seq<u8> {
    seq![72u8, 69u8, 76u8, 80u8]
}

/// `QUIT` in ASCII.
pub open spec fn quit_word() -> Seq<u8> {
    seq![81u8, 85u8, 73u8, 84u8]
}

/// The keyword that a word in upper case stands for, if any.
pub open spec fn keyword_of(word: Seq<u8>) -> Option<Keyword> {
    if word == select_word() {
        Some(Keyword::Select)
    } else if word == flag_word() {
        Some(Keyword::Flag)
    } else if word == draw_word() {
        Some(Keyword::Draw)
    } else if word == help_word() {
        Some(Keyword::Help)
    } else if word == quit_word() {
        Some(Keyword::Quit)
    } else {
        None
    }
}

/// Reads a keyword from a word in upper case. Any other word gives `None`.
pub fn parse_keyword(word: &[u8]) -> (keyword: Option<Keyword>)
    ensures
        keyword == keyword_of(word@),
{
    if word.len() == 6 {
        if word[0] == 83 && word[1] == 69 && word[2] == 76 && word[3] == 69 && word[4] == 67
            && word[5] == 84 {
            assert(word@ =~= select_word());
            return Some(Keyword::Select);
        }
        None
    } else if word.len() == 4 {
        if word[0] == 70 && word[1] == 76 && word[2] == 65 && word[3] == 71 {
            assert(word@ =~= flag_word());
            Some(Keyword::Flag)
        } else if word[0] == 68 && word[1] == 82 && word[2] == 65 && word[3] == 87 {
            assert(word@ =~= draw_word());
            Some(Keyword::Draw)
        } else if word[0] == 72 && word[1] == 69 && word[2] == 76 && word[3] == 80 {
            assert(word@ =~= help_word());
            Some(Keyword::Help)
        } else if word[0] == 81 && word[1] == 85 && word[2] == 73 && word[3] == 84 {
            assert(word@ =~= quit_word());
            Some(Keyword::Quit)
        } else {
            None
        }
    } else {
        None
    }
}

/// The position that a player means by a column and a row counted from one,
/// on a board of the given size. Coordinates off the board give `None`.
pub fn position_from_entry(column: usize, row: usize, width: usize, height: usize) -> (pos: Option<
    Position,
>)
    ensures
        pos == (if 1 <= column <= width && 1 <= row <= height {
            Some(Position { x: (column - 1) as usize, y: (row - 1) as usize })
        } else {
            None
        }),
{
    if column >= 1 && column <= width && row >= 1 && row <= height {
        Some(Position { x: column - 1, y: row - 1 })
    } else {
        None
    }
}

/// What the player asks of the game.
#[derive(Clone, Copy, Debug, PartialEq, Eq, Structural)]
pub enum Command {
    /// Reveal the cell at the position.
    Select(Position),
    /// Set or clear the flag at the position.
    Flag(Position),
    /// Show the board again.
    Draw,
    /// Start over on a fresh board of the same size.
    Reset,
    /// Leave the game.
    Quit,
}

/// What a command did, for the caller to show.
#[derive(Clone, Copy, Debug, PartialEq, Eq)]
pub enum Reply {
    /// A reveal was tried, with this answer. The board is to be drawn.
    Revealed(Result<RevealOutcome, BoardError>),
    /// A flag was toggled, or the request refused. The board is to be drawn.
    Flagged(Result<(), BoardError>),
    /// The board is to be drawn.
    Drawn,
    /// The board was replaced by a fresh one. The board is to be drawn.
    Restarted,
    /// The game has stopped.
    Stopped,
}

/// A game as a mathematical value: its board, and whether it still takes
/// commands.
pub struct GameView {
    pub board: BoardView,
    pub running: bool,
}

/// A board together with the switch that ends the session.
pub struct Game {
    board: Board,
    is_running: bool,
}

impl View for Game {
    type V = GameView;

    closed spec fn view(&self) -> GameView {
        GameView { board: self.board@, running: self.is_running }
    }
}

impl GameView {
    /// What `command` gives on this game: the reply, and the game after it.
    ///
    /// `Select` reveals as the board does with a random arrangement, `Flag`
    /// toggles as the board does, `Reset` puts a fresh board of the same size
    /// and mine count in its place, `Quit` stops the game, and `Draw` leaves
    /// it as it is.
    pub open spec fn command_gives(self, command: Command, reply: Reply, after: GameView) -> bool {
        match command {
            Command::Select(pos) => {
                &&& reply matches Reply::Revealed(answer) && self.board.random_reveal_gives(
                    pos,
                    answer,
                    after.board,
                )
                &&& after.running == self.running
            },
            Command::Flag(pos) => {
                &&& reply matches Reply::Flagged(done) && self.board.toggle_gives(
                    pos,
                    done,
                    after.board,
                )
                &&& after.running == self.running
            },
            Command::Draw => reply == Reply::Drawn && after == self,
            Command::Reset => reply == Reply::Restarted && after == (GameView {
                board: BoardView::fresh(
                    self.board.width,
                    self.board.height,
                    self.board.mine_count,
                ),
                ..self
            }),
            Command::Quit => reply == Reply::Stopped && after == (GameView {
                running: false,
                ..self
            }),
        }
    }
}

impl Game {
    /// The board of the game is well formed.
    pub closed spec fn wf(&self) -> bool {
        self.board.wf()
    }

    /// A running game on a fresh board. The sizes are checked as `Board::new`
    /// checks them.
    pub fn new(width: usize, height: usize, mine_count: usize) -> (made: Result<Game, BoardError>)
        ensures
            made is Ok <==> BoardView::fresh(
                width as int,
                height as int,
                mine_count as int,
            ).valid_shape(),
            made is Ok ==> made->Ok_0.wf() && made->Ok_0@ == (GameView {
                board: BoardView::fresh(width as int, height as int, mine_count as int),
                running: true,
            }),
            made is Err ==> made->Err_0 == (if 1 <= width <= crate::board::MAX_SIDE && 1 <= height
                <= crate::board::MAX_SIDE {
                BoardError::InvalidMineCount
            } else {
                BoardError::InvalidDimensions
            }),
    {
        match Board::new(width, height, mine_count) {
            Ok(board) => Ok(Game { board, is_running: true }),
            Err(error) => Err(error),
        }
    }

    /// The board, to look at.
    pub fn board(&self) -> (board: &Board)
        requires
            self.wf(),
        ensures
            board.wf(),
            board@ == self@.board,
    {
        &self.board
    }

    /// Whether the game still takes commands.
    pub fn is_running(&self) -> (running: bool)
        ensures
            running == self@.running,
    {
        self.is_running
    }

    /// Carries out one command and says what it did.
    pub fn process_command(&mut self, command: Command) -> (reply: Reply)
        requires
            old(self).wf(),
        ensures
            final(self).wf(),
            old(self)@.command_gives(command, reply, final(self)@),
    {
        match command {
            Command::Select(pos) => Reply::Revealed(self.board.reveal_cell(pos)),
            Command::Flag(pos) => Reply::Flagged(self.board.toggle_flag(pos)),
            Command::Draw => Reply::Drawn,
            Command::Reset => {
                let (width, height) = self.board.dimensions();
                let mine_count = self.board.mine_count();
                match Board::new(width, height, mine_count) {
                    Ok(board) => {
                        self.board = board;
                    },
                    Err(_) => {},
                }
                Reply::Restarted
            },
            Command::Quit => {
                self.is_running = false;
                Reply::Stopped
            },
        }
    }
}

} // verus!
