use minesweeper::board::{Board, BoardError, Status};
use minesweeper::cell::Cell;
use minesweeper::geometry::Position;
use minesweeper::play::RevealOutcome;

fn at(x: usize, y: usize) -> Position {
    Position::new(x, y)
}

fn cells_of(board: &Board) -> Vec<Cell> {
    let (width, height) = board.dimensions();
    let mut cells = Vec::new();
    for y in 0..height {
        for x in 0..width {
            cells.push(board.cell_at(at(x, y)).unwrap());
        }
    }
    cells
}

fn mines_of(board: &Board) -> Vec<Position> {
    board
        .all_positions()
        .into_iter()
        .filter(|p| board.cell_at(*p).unwrap().is_mine())
        .collect()
}

fn revealed_of(board: &Board) -> Vec<Position> {
    board
        .all_positions()
        .into_iter()
        .filter(|p| board.cell_at(*p).unwrap().is_revealed())
        .collect()
}

/// A 6x6 board with mines at (4,4), (5,4) and (4,5), which wall off the
/// corner (5,5), after a first reveal at (0,0).
fn walled_corner() -> Board {
    let mut board = Board::new(6, 6, 3).unwrap();
    let order = vec![at(4, 4), at(5, 4), at(4, 5)];
    assert_eq!(board.reveal_cell_with_order(at(0, 0), &order), Ok(RevealOutcome::Continued));
    board
}

#[test]
fn first_reveal_keeps_the_block_around_it_clear() {
    for centre in [at(4, 4), at(0, 0), at(8, 8), at(0, 5), at(7, 1)] {
        let mut board = Board::new(9, 9, 71).unwrap();
        let answer = board.reveal_cell(centre);
        assert!(answer == Ok(RevealOutcome::Continued) || answer == Ok(RevealOutcome::Won));
        for p in board.all_positions() {
            if centre.is_near(&p) {
                assert!(!board.cell_at(p).unwrap().is_mine());
            }
        }
        assert!(board.cell_at(centre).unwrap().is_revealed());
        assert!(board.mines_placed());
    }
}

#[test]
fn mines_laid_are_as_many_as_asked_for() {
    for (width, height, mines) in [(9, 9, 71), (9, 9, 10), (5, 4, 0), (98, 98, 9594), (30, 16, 99)] {
        let mut board = Board::new(width, height, mines).unwrap();
        assert_eq!(mines_of(&board).len(), 0);
        assert!(board.reveal_cell(at(2, 2)).is_ok());
        assert_eq!(mines_of(&board).len(), mines);
        assert_eq!(board.mine_count(), mines);
    }
}

#[test]
fn counts_are_the_mines_among_the_neighbors() {
    let mut board = Board::new(12, 9, 30).unwrap();
    assert!(board.reveal_cell(at(6, 4)).is_ok());
    for p in board.all_positions() {
        let expected = board
            .neighbors_of(p)
            .into_iter()
            .filter(|q| board.cell_at(*q).unwrap().is_mine())
            .count();
        assert_eq!(board.cell_at(p).unwrap().adjacent_mines() as usize, expected);
    }
}

#[test]
fn counts_around_three_mines() {
    let board = walled_corner();
    let expected: [[u8; 6]; 6] = [
        [0, 0, 0, 0, 0, 0],
        [0, 0, 0, 0, 0, 0],
        [0, 0, 0, 0, 0, 0],
        [0, 0, 0, 1, 2, 2],
        [0, 0, 0, 2, 2, 2],
        [0, 0, 0, 2, 2, 3],
    ];
    for y in 0..6 {
        for x in 0..6 {
            assert_eq!(board.cell_at(at(x, y)).unwrap().adjacent_mines(), expected[y][x]);
        }
    }
    assert_eq!(mines_of(&board), vec![at(4, 4), at(5, 4), at(4, 5)]);
}

#[test]
fn order_decides_where_the_mines_go() {
    let mut board = Board::new(5, 5, 3).unwrap();
    let order = vec![
        at(2, 2),
        at(7, 0),
        at(1, 1),
        at(4, 0),
        at(3, 3),
        at(4, 0),
        at(0, 5),
        at(0, 4),
        at(4, 4),
        at(0, 0),
    ];
    assert!(board.reveal_cell_with_order(at(2, 2), &order).is_ok());
    assert_eq!(mines_of(&board), vec![at(4, 0), at(0, 4), at(4, 4)]);
}

#[test]
fn order_with_too_few_positions_is_refused() {
    let mut board = Board::new(5, 5, 3).unwrap();
    assert_eq!(board.toggle_flag(at(1, 1)), Ok(()));
    let before = cells_of(&board);
    let order = vec![at(4, 0), at(2, 2), at(4, 0), at(3, 3), at(9, 9), at(0, 4)];
    assert_eq!(
        board.reveal_cell_with_order(at(2, 2), &order),
        Err(BoardError::PlacementFailed)
    );
    assert_eq!(cells_of(&board), before);
    assert!(!board.mines_placed());
    assert_eq!(board.status(), Status::InProgress);
    assert_eq!(
        board.reveal_cell_with_order(at(2, 2), &Vec::new()),
        Err(BoardError::PlacementFailed)
    );
    assert_eq!(cells_of(&board), before);
    let enough = vec![at(4, 0), at(0, 4), at(0, 0)];
    assert!(board.reveal_cell_with_order(at(2, 2), &enough).is_ok());
    assert_eq!(mines_of(&board), vec![at(0, 0), at(4, 0), at(0, 4)]);
}

#[test]
fn order_plays_no_part_once_the_mines_are_laid() {
    let mut board = walled_corner();
    let mines = mines_of(&board);
    let other = vec![at(0, 0), at(1, 1), at(2, 2)];
    assert_eq!(board.reveal_cell_with_order(at(1, 1), &other), Ok(RevealOutcome::AlreadyRevealed));
    assert_eq!(mines_of(&board), mines);
}

#[test]
fn random_layout_differs_from_the_row_by_row_one() {
    let mut plain = Board::new(20, 20, 100).unwrap();
    let rows = plain.all_positions();
    assert!(plain.reveal_cell_with_order(at(10, 10), &rows).is_ok());
    let mut first = Board::new(20, 20, 100).unwrap();
    assert!(first.reveal_cell(at(10, 10)).is_ok());
    let mut second = Board::new(20, 20, 100).unwrap();
    assert!(second.reveal_cell(at(10, 10)).is_ok());
    assert_eq!(mines_of(&first).len(), 100);
    assert_ne!(mines_of(&first), mines_of(&plain));
    assert_ne!(mines_of(&second), mines_of(&plain));
    assert_ne!(mines_of(&first), mines_of(&second));
}

#[test]
fn shuffled_positions_hold_each_position_once() {
    let board = Board::new(7, 5, 0).unwrap();
    let mut order = board.shuffled_positions();
    assert_eq!(order.len(), 35);
    assert_ne!(order, board.all_positions());
    order.sort_by_key(|p| (p.y, p.x));
    assert_eq!(order, board.all_positions());
}

#[test]
fn revealing_an_open_cell_again_changes_nothing() {
    let mut board = walled_corner();
    let before = cells_of(&board);
    assert_eq!(board.reveal_cell(at(2, 2)), Ok(RevealOutcome::AlreadyRevealed));
    assert_eq!(cells_of(&board), before);
    assert_eq!(board.status(), Status::InProgress);
    assert_eq!(board.reveal_cell(at(2, 2)), Ok(RevealOutcome::AlreadyRevealed));
    assert_eq!(cells_of(&board), before);
    assert_eq!(board.reveal_cell(at(3, 3)), Ok(RevealOutcome::AlreadyRevealed));
    assert_eq!(cells_of(&board), before);
    assert_eq!(board.status(), Status::InProgress);
}

#[test]
fn flood_opens_the_region_and_its_rim() {
    let board = walled_corner();
    let mut expected = board.all_positions();
    expected.retain(|p| ![at(4, 4), at(5, 4), at(4, 5), at(5, 5)].contains(p));
    assert_eq!(revealed_of(&board), expected);
    assert_eq!(board.status(), Status::InProgress);
}

#[test]
fn flood_stops_at_a_cell_with_a_count() {
    let mut board = Board::new(6, 6, 3).unwrap();
    assert_eq!(board.toggle_flag(at(0, 0)), Ok(()));
    let order = vec![at(4, 4), at(5, 4), at(4, 5)];
    assert_eq!(board.reveal_cell_with_order(at(0, 0), &order), Ok(RevealOutcome::CellIsFlagged));
    assert_eq!(board.reveal_cell(at(3, 3)), Ok(RevealOutcome::Continued));
    assert_eq!(revealed_of(&board), vec![at(3, 3)]);
    assert_eq!(board.reveal_cell(at(5, 5)), Ok(RevealOutcome::Continued));
    assert_eq!(revealed_of(&board), vec![at(3, 3), at(5, 5)]);
    assert_eq!(board.reveal_cell(at(2, 2)), Ok(RevealOutcome::Won));
    assert_eq!(revealed_of(&board).len(), 33);
}

#[test]
fn flood_leaves_what_it_cannot_reach() {
    let mut board = Board::new(5, 5, 8).unwrap();
    let ring = vec![
        at(0, 0),
        at(1, 0),
        at(2, 0),
        at(3, 0),
        at(4, 0),
        at(0, 1),
        at(0, 2),
        at(0, 3),
    ];
    assert_eq!(board.reveal_cell_with_order(at(3, 3), &ring), Ok(RevealOutcome::Continued));
    let mut inner = Vec::new();
    for y in 1..5 {
        for x in 1..5 {
            inner.push(at(x, y));
        }
    }
    assert_eq!(revealed_of(&board), inner);
    assert_eq!(board.cell_at(at(1, 1)).unwrap().adjacent_mines(), 5);
    assert_eq!(board.cell_at(at(0, 4)).unwrap().adjacent_mines(), 1);
    assert!(!board.cell_at(at(0, 4)).unwrap().is_revealed());
    assert_eq!(board.reveal_cell(at(0, 4)), Ok(RevealOutcome::Won));
}

#[test]
fn flood_result_matches_a_breadth_first_traversal() {
    for seed in 0..6usize {
        let mut board = Board::new(14, 11, 18).unwrap();
        let start = at((seed * 5) % 14, (seed * 3) % 11);
        let mut order = board.all_positions();
        order.rotate_left(seed * 23 + 7);
        order.reverse();
        let picked: Vec<Position> = order.iter().copied().step_by(3).collect();
        assert!(board.reveal_cell_with_order(start, &picked).is_ok());
        let mut seen = vec![start];
        let mut queue = std::collections::VecDeque::new();
        queue.push_back(start);
        while let Some(p) = queue.pop_front() {
            if board.cell_at(p).unwrap().adjacent_mines() != 0 {
                continue;
            }
            let mut near = board.neighbors_of(p);
            near.reverse();
            for q in near {
                if !seen.contains(&q) {
                    seen.push(q);
                    queue.push_back(q);
                }
            }
        }
        seen.sort_by_key(|p| (p.y, p.x));
        assert_eq!(revealed_of(&board), seen);
        for p in revealed_of(&board) {
            assert!(!board.cell_at(p).unwrap().is_mine());
        }
    }
}

#[test]
fn same_mines_give_the_same_region_whatever_the_order() {
    let mut first = Board::new(8, 8, 4).unwrap();
    let mut second = Board::new(8, 8, 4).unwrap();
    let one = vec![at(7, 7), at(0, 7), at(5, 2), at(6, 0), at(1, 1)];
    let other = vec![at(6, 0), at(3, 3), at(5, 2), at(0, 7), at(7, 7), at(2, 6)];
    let a = first.reveal_cell_with_order(at(3, 4), &one);
    let b = second.reveal_cell_with_order(at(3, 4), &other);
    assert_eq!(a, Ok(RevealOutcome::Continued));
    assert_eq!(a, b);
    assert_eq!(cells_of(&first), cells_of(&second));
}

#[test]
fn revealing_the_last_safe_cell_wins() {
    let mut board = walled_corner();
    assert_eq!(board.status(), Status::InProgress);
    assert_eq!(board.reveal_cell(at(5, 5)), Ok(RevealOutcome::Won));
    assert_eq!(board.status(), Status::Won);
    assert!(board.all_safe_revealed());
    for p in mines_of(&board) {
        assert!(!board.cell_at(p).unwrap().is_revealed());
    }
}

#[test]
fn revealing_a_mine_loses_and_freezes_the_board() {
    let mut board = walled_corner();
    let opened = revealed_of(&board);
    assert_eq!(board.reveal_cell(at(4, 4)), Ok(RevealOutcome::MineHit));
    assert_eq!(board.status(), Status::Lost);
    assert!(board.cell_at(at(4, 4)).unwrap().is_revealed());
    let mut with_mine = opened.clone();
    with_mine.push(at(4, 4));
    with_mine.sort_by_key(|p| (p.y, p.x));
    assert_eq!(revealed_of(&board), with_mine);
    let frozen = cells_of(&board);
    assert_eq!(board.reveal_cell(at(5, 5)), Err(BoardError::GameAlreadyOver));
    assert_eq!(board.reveal_cell(at(5, 4)), Err(BoardError::GameAlreadyOver));
    assert_eq!(board.reveal_cell(at(0, 0)), Err(BoardError::GameAlreadyOver));
    assert_eq!(board.toggle_flag(at(5, 5)), Err(BoardError::GameAlreadyOver));
    assert_eq!(board.reveal_cell(at(9, 9)), Err(BoardError::OutOfBounds));
    assert_eq!(cells_of(&board), frozen);
    assert_eq!(board.status(), Status::Lost);
}

#[test]
fn a_won_board_takes_no_more_requests() {
    let mut board = walled_corner();
    assert_eq!(board.reveal_cell(at(5, 5)), Ok(RevealOutcome::Won));
    let frozen = cells_of(&board);
    assert_eq!(board.reveal_cell(at(4, 4)), Err(BoardError::GameAlreadyOver));
    assert_eq!(board.reveal_cell(at(0, 0)), Err(BoardError::GameAlreadyOver));
    assert_eq!(board.toggle_flag(at(4, 4)), Err(BoardError::GameAlreadyOver));
    assert_eq!(board.toggle_flag(at(6, 6)), Err(BoardError::OutOfBounds));
    assert_eq!(cells_of(&board), frozen);
    assert_eq!(board.status(), Status::Won);
}

#[test]
fn flag_on_a_revealed_cell_is_left_alone() {
    let mut board = walled_corner();
    let before = cells_of(&board);
    assert_eq!(board.toggle_flag(at(2, 2)), Ok(()));
    assert_eq!(board.toggle_flag(at(3, 3)), Ok(()));
    assert_eq!(cells_of(&board), before);
    assert_eq!(board.toggle_flag(at(5, 5)), Ok(()));
    assert!(board.cell_at(at(5, 5)).unwrap().is_flagged());
}

#[test]
fn reveal_on_a_flagged_cell_opens_nothing() {
    let mut board = walled_corner();
    assert_eq!(board.toggle_flag(at(5, 5)), Ok(()));
    assert_eq!(board.toggle_flag(at(4, 4)), Ok(()));
    let before = cells_of(&board);
    assert_eq!(board.reveal_cell(at(5, 5)), Ok(RevealOutcome::CellIsFlagged));
    assert_eq!(board.reveal_cell(at(4, 4)), Ok(RevealOutcome::CellIsFlagged));
    assert_eq!(cells_of(&board), before);
    assert_eq!(board.status(), Status::InProgress);
    assert_eq!(board.toggle_flag(at(5, 5)), Ok(()));
    assert_eq!(board.reveal_cell(at(5, 5)), Ok(RevealOutcome::Won));
}

#[test]
fn first_reveal_on_a_flagged_cell_lays_the_mines_and_opens_nothing() {
    let mut board = Board::new(6, 6, 3).unwrap();
    assert_eq!(board.toggle_flag(at(0, 0)), Ok(()));
    let order = vec![at(4, 4), at(1, 1), at(5, 4), at(4, 5)];
    assert_eq!(board.reveal_cell_with_order(at(0, 0), &order), Ok(RevealOutcome::CellIsFlagged));
    assert!(board.mines_placed());
    assert_eq!(mines_of(&board), vec![at(4, 4), at(5, 4), at(4, 5)]);
    assert_eq!(revealed_of(&board), Vec::<Position>::new());
    assert!(board.cell_at(at(0, 0)).unwrap().is_flagged());
    assert_eq!(board.cell_at(at(5, 5)).unwrap().adjacent_mines(), 3);
}

#[test]
fn flood_opens_flagged_cells_and_keeps_their_flags() {
    let mut board = Board::new(6, 6, 3).unwrap();
    assert_eq!(board.toggle_flag(at(2, 2)), Ok(()));
    let order = vec![at(4, 4), at(5, 4), at(4, 5)];
    assert_eq!(board.reveal_cell_with_order(at(0, 0), &order), Ok(RevealOutcome::Continued));
    let cell = board.cell_at(at(2, 2)).unwrap();
    assert!(cell.is_revealed());
    assert!(cell.is_flagged());
    assert_eq!(board.reveal_cell(at(2, 2)), Ok(RevealOutcome::CellIsFlagged));
    assert_eq!(board.toggle_flag(at(2, 2)), Ok(()));
    assert!(board.cell_at(at(2, 2)).unwrap().is_flagged());
}

#[test]
fn reveal_off_the_board_is_refused() {
    let mut board = Board::new(6, 4, 3).unwrap();
    let before = cells_of(&board);
    assert_eq!(board.reveal_cell(at(6, 0)), Err(BoardError::OutOfBounds));
    assert_eq!(board.reveal_cell(at(0, 4)), Err(BoardError::OutOfBounds));
    assert_eq!(
        board.reveal_cell_with_order(at(4, 6), &board.all_positions()),
        Err(BoardError::OutOfBounds)
    );
    assert_eq!(cells_of(&board), before);
    assert!(!board.mines_placed());
}

#[test]
fn smallest_board_without_mines_is_won_at_once() {
    assert_eq!(Board::new(1, 1, 0).err(), Some(BoardError::InvalidMineCount));
    for start in [at(0, 0), at(3, 3), at(2, 1), at(0, 3)] {
        let mut board = Board::new(4, 4, 0).unwrap();
        assert_eq!(board.reveal_cell(start), Ok(RevealOutcome::Won));
        assert_eq!(board.status(), Status::Won);
        assert_eq!(revealed_of(&board).len(), 16);
        assert_eq!(mines_of(&board).len(), 0);
    }
}

#[test]
fn forced_mine_in_the_far_corner() {
    let mut board = Board::new(5, 5, 1).unwrap();
    let order = vec![at(4, 4), at(0, 0), at(2, 2)];
    let answer = board.reveal_cell_with_order(at(0, 0), &order);
    assert_eq!(answer, Ok(RevealOutcome::Won));
    assert_eq!(mines_of(&board), vec![at(4, 4)]);
    assert!(!board.cell_at(at(4, 4)).unwrap().is_revealed());
    assert_eq!(revealed_of(&board).len(), 24);
    assert_eq!(board.cell_at(at(3, 3)).unwrap().adjacent_mines(), 1);
    assert_eq!(board.cell_at(at(0, 0)).unwrap().adjacent_mines(), 0);
    assert_eq!(board.status(), Status::Won);
}

#[test]
fn forced_mine_next_to_the_first_reveal_is_passed_over() {
    let mut board = Board::new(5, 5, 1).unwrap();
    let order = vec![at(0, 0), at(1, 1), at(1, 0), at(0, 1), at(2, 0), at(4, 4)];
    let answer = board.reveal_cell_with_order(at(0, 0), &order);
    assert_eq!(answer, Ok(RevealOutcome::Won));
    assert_eq!(mines_of(&board), vec![at(2, 0)]);
    assert_eq!(revealed_of(&board).len(), 24);
    assert_eq!(board.cell_at(at(1, 0)).unwrap().adjacent_mines(), 1);
    assert_eq!(board.cell_at(at(0, 0)).unwrap().adjacent_mines(), 0);
}
