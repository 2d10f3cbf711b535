use minesweeper::board::{Board, BoardError, Status};
use minesweeper::cell::Cell;
use minesweeper::command::{parse_keyword, position_from_entry, Command, Game, Keyword, Reply};
use minesweeper::geometry::Position;
use minesweeper::play::RevealOutcome;
use minesweeper::render::{decimal_digits, label_bytes};

fn at(x: usize, y: usize) -> Position {
    Position::new(x, y)
}

fn text_of(bytes: Vec<u8>) -> String {
    String::from_utf8(bytes).unwrap()
}

#[test]
fn decimal_digits_of_numbers() {
    assert_eq!(text_of(decimal_digits(0)), "0");
    assert_eq!(text_of(decimal_digits(7)), "7");
    assert_eq!(text_of(decimal_digits(10)), "10");
    assert_eq!(text_of(decimal_digits(98)), "98");
    assert_eq!(text_of(decimal_digits(12345)), "12345");
    assert_eq!(text_of(decimal_digits(usize::MAX)), format!("{}", usize::MAX));
}

#[test]
fn labels_are_padded_to_two_digits() {
    assert_eq!(text_of(label_bytes(1)), "01 ");
    assert_eq!(text_of(label_bytes(9)), "09 ");
    assert_eq!(text_of(label_bytes(10)), "10 ");
    assert_eq!(text_of(label_bytes(98)), "98 ");
    assert_eq!(text_of(label_bytes(0)), "00 ");
    assert_eq!(text_of(label_bytes(123)), "123 ");
}

#[test]
fn cell_draws_flag_before_all_else() {
    let mut cell = Cell::new(false);
    assert_eq!(text_of(cell.draw()), ".  ");
    cell.is_flagged = true;
    assert_eq!(text_of(cell.draw()), "F  ");
    cell.is_revealed = true;
    cell.adjacent_mines = 3;
    assert_eq!(text_of(cell.draw()), "F  ");
    cell.is_flagged = false;
    assert_eq!(text_of(cell.draw()), "3  ");
    cell.adjacent_mines = 0;
    assert_eq!(text_of(cell.draw()), "   ");
    cell.adjacent_mines = 8;
    assert_eq!(text_of(cell.draw()), "8  ");
    cell.adjacent_mines = 12;
    assert_eq!(text_of(cell.draw()), "12  ");
    cell.is_revealed = false;
    assert_eq!(text_of(cell.draw()), ".  ");
}

#[test]
fn fresh_board_is_drawn_hidden() {
    let board = Board::new(4, 3, 0).unwrap();
    let expected = "   01 02 03 04 \n\
                    01 .  .  .  .  \n\
                    02 .  .  .  .  \n\
                    03 .  .  .  .  \n";
    assert_eq!(text_of(board.draw()), expected);
}

#[test]
fn board_in_play_is_drawn_with_counts_and_flags() {
    let mut board = Board::new(6, 6, 3).unwrap();
    let order = vec![at(4, 4), at(5, 4), at(4, 5)];
    assert_eq!(board.reveal_cell_with_order(at(0, 0), &order), Ok(RevealOutcome::Continued));
    assert_eq!(board.toggle_flag(at(4, 4)), Ok(()));
    let expected = [
        "   01 02 03 04 05 06 \n",
        "01                   \n",
        "02                   \n",
        "03                   \n",
        "04          1  2  2  \n",
        "05          2  F  .  \n",
        "06          2  .  .  \n",
    ]
    .concat();
    assert_eq!(text_of(board.draw()), expected);
}

#[test]
fn wide_board_labels_every_column() {
    let board = Board::new(12, 1, 0).unwrap();
    let expected = "   01 02 03 04 05 06 07 08 09 10 11 12 \n\
                    01 .  .  .  .  .  .  .  .  .  .  .  .  \n";
    assert_eq!(text_of(board.draw()), expected);
}

#[test]
fn keywords_are_read_in_upper_case() {
    assert_eq!(parse_keyword(b"SELECT"), Some(Keyword::Select));
    assert_eq!(parse_keyword(b"FLAG"), Some(Keyword::Flag));
    assert_eq!(parse_keyword(b"DRAW"), Some(Keyword::Draw));
    assert_eq!(parse_keyword(b"HELP"), Some(Keyword::Help));
    assert_eq!(parse_keyword(b"QUIT"), Some(Keyword::Quit));
}

#[test]
fn other_words_are_no_keywords() {
    assert_eq!(parse_keyword(b""), None);
    assert_eq!(parse_keyword(b"select"), None);
    assert_eq!(parse_keyword(b"Select"), None);
    assert_eq!(parse_keyword(b"SELECTS"), None);
    assert_eq!(parse_keyword(b"SELEC"), None);
    assert_eq!(parse_keyword(b"SELECT "), None);
    assert_eq!(parse_keyword(b"FLAT"), None);
    assert_eq!(parse_keyword(b"QUIX"), None);
    assert_eq!(parse_keyword(b"RESET"), None);
    assert_eq!(parse_keyword(b"DRAG"), None);
    assert_eq!(parse_keyword(b"HELM"), None);
}

#[test]
fn entries_count_from_one() {
    assert_eq!(position_from_entry(1, 1, 6, 4), Some(at(0, 0)));
    assert_eq!(position_from_entry(6, 4, 6, 4), Some(at(5, 3)));
    assert_eq!(position_from_entry(3, 2, 6, 4), Some(at(2, 1)));
    assert_eq!(position_from_entry(0, 1, 6, 4), None);
    assert_eq!(position_from_entry(1, 0, 6, 4), None);
    assert_eq!(position_from_entry(7, 4, 6, 4), None);
    assert_eq!(position_from_entry(6, 5, 6, 4), None);
    assert_eq!(position_from_entry(usize::MAX, 1, 6, 4), None);
}

#[test]
fn game_is_made_as_the_board_is() {
    assert_eq!(Game::new(0, 4, 0).err(), Some(BoardError::InvalidDimensions));
    assert_eq!(Game::new(4, 99, 0).err(), Some(BoardError::InvalidDimensions));
    assert_eq!(Game::new(4, 4, 7).err(), Some(BoardError::InvalidMineCount));
    let game = Game::new(4, 4, 6).unwrap();
    assert!(game.is_running());
    assert_eq!(game.board().dimensions(), (4, 4));
    assert_eq!(game.board().mine_count(), 6);
    assert!(!game.board().mines_placed());
}

#[test]
fn select_reveals_and_flag_toggles() {
    let mut game = Game::new(5, 5, 0).unwrap();
    assert_eq!(game.process_command(Command::Flag(at(4, 4))), Reply::Flagged(Ok(())));
    assert!(game.board().cell_at(at(4, 4)).unwrap().is_flagged());
    assert_eq!(
        game.process_command(Command::Select(at(4, 4))),
        Reply::Revealed(Ok(RevealOutcome::CellIsFlagged))
    );
    assert!(game.board().mines_placed());
    assert_eq!(
        game.process_command(Command::Select(at(9, 0))),
        Reply::Revealed(Err(BoardError::OutOfBounds))
    );
    assert_eq!(
        game.process_command(Command::Flag(at(0, 9))),
        Reply::Flagged(Err(BoardError::OutOfBounds))
    );
    assert_eq!(
        game.process_command(Command::Select(at(0, 0))),
        Reply::Revealed(Ok(RevealOutcome::Won))
    );
    assert!(game.is_running());
    assert_eq!(
        game.process_command(Command::Select(at(1, 1))),
        Reply::Revealed(Err(BoardError::GameAlreadyOver))
    );
    assert_eq!(
        game.process_command(Command::Flag(at(1, 1))),
        Reply::Flagged(Err(BoardError::GameAlreadyOver))
    );
    assert!(game.is_running());
}

#[test]
fn draw_changes_nothing() {
    let mut game = Game::new(5, 5, 3).unwrap();
    assert_eq!(game.process_command(Command::Flag(at(1, 2))), Reply::Flagged(Ok(())));
    let before = game.board().draw();
    assert_eq!(game.process_command(Command::Draw), Reply::Drawn);
    assert_eq!(game.board().draw(), before);
    assert!(game.is_running());
    assert!(!game.board().mines_placed());
}

#[test]
fn reset_starts_over_on_a_fresh_board() {
    let mut game = Game::new(6, 5, 4).unwrap();
    let fresh = game.board().draw();
    assert_eq!(game.process_command(Command::Flag(at(1, 2))), Reply::Flagged(Ok(())));
    assert!(matches!(game.process_command(Command::Select(at(3, 3))), Reply::Revealed(Ok(_))));
    assert!(game.board().mines_placed());
    assert_ne!(game.board().draw(), fresh);
    assert_eq!(game.process_command(Command::Reset), Reply::Restarted);
    assert_eq!(game.board().draw(), fresh);
    assert_eq!(game.board().dimensions(), (6, 5));
    assert_eq!(game.board().mine_count(), 4);
    assert!(!game.board().mines_placed());
    assert_eq!(game.board().status(), Status::InProgress);
    assert!(game.is_running());
    for p in game.board().all_positions() {
        assert_eq!(game.board().cell_at(p), Ok(Cell::new(false)));
    }
}

#[test]
fn reset_revives_a_finished_game() {
    let mut game = Game::new(4, 4, 0).unwrap();
    assert_eq!(
        game.process_command(Command::Select(at(0, 0))),
        Reply::Revealed(Ok(RevealOutcome::Won))
    );
    assert_eq!(game.board().status(), Status::Won);
    assert_eq!(game.process_command(Command::Reset), Reply::Restarted);
    assert_eq!(game.board().status(), Status::InProgress);
    assert_eq!(
        game.process_command(Command::Select(at(2, 2))),
        Reply::Revealed(Ok(RevealOutcome::Won))
    );
}

#[test]
fn quit_stops_the_game() {
    let mut game = Game::new(5, 5, 3).unwrap();
    assert_eq!(game.process_command(Command::Flag(at(1, 2))), Reply::Flagged(Ok(())));
    let before = game.board().draw();
    assert_eq!(game.process_command(Command::Quit), Reply::Stopped);
    assert!(!game.is_running());
    assert_eq!(game.board().draw(), before);
}
