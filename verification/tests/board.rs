use minesweeper::board::{Board, BoardError, Status};
use minesweeper::cell::Cell;
use minesweeper::geometry::Position;

fn at(x: usize, y: usize) -> Position {
    Position::new(x, y)
}

#[test]
fn fresh_board_is_blank() {
    let board = Board::new(6, 4, 5).unwrap();
    assert_eq!(board.dimensions(), (6, 4));
    assert_eq!(board.mine_count(), 5);
    assert_eq!(board.status(), Status::InProgress);
    assert!(!board.mines_placed());
    for y in 0..4 {
        for x in 0..6 {
            let cell = board.cell_at(at(x, y)).unwrap();
            assert!(!cell.is_mine());
            assert!(!cell.is_revealed());
            assert!(!cell.is_flagged());
            assert_eq!(cell.adjacent_mines(), 0);
            assert_eq!(cell, Cell::new(false));
        }
    }
}

#[test]
fn new_rejects_sides_out_of_range() {
    assert_eq!(Board::new(0, 5, 0).err(), Some(BoardError::InvalidDimensions));
    assert_eq!(Board::new(5, 0, 0).err(), Some(BoardError::InvalidDimensions));
    assert_eq!(Board::new(99, 5, 0).err(), Some(BoardError::InvalidDimensions));
    assert_eq!(Board::new(5, 99, 0).err(), Some(BoardError::InvalidDimensions));
    assert_eq!(Board::new(0, 0, 1000).err(), Some(BoardError::InvalidDimensions));
    assert_eq!(Board::new(usize::MAX, usize::MAX, 0).err(), Some(BoardError::InvalidDimensions));
    assert!(Board::new(98, 98, 0).is_ok());
    assert!(Board::new(1, 10, 0).is_ok());
    assert!(Board::new(10, 1, 0).is_ok());
}

#[test]
fn new_rejects_mines_that_leave_fewer_than_ten_cells() {
    assert!(Board::new(4, 4, 6).is_ok());
    assert_eq!(Board::new(4, 4, 7).err(), Some(BoardError::InvalidMineCount));
    assert_eq!(Board::new(4, 4, usize::MAX).err(), Some(BoardError::InvalidMineCount));
    assert!(Board::new(98, 98, 9594).is_ok());
    assert_eq!(Board::new(98, 98, 9595).err(), Some(BoardError::InvalidMineCount));
    assert!(Board::new(2, 5, 0).is_ok());
    assert_eq!(Board::new(2, 5, 1).err(), Some(BoardError::InvalidMineCount));
}

#[test]
fn new_rejects_boards_of_fewer_than_ten_cells() {
    assert_eq!(Board::new(1, 1, 0).err(), Some(BoardError::InvalidMineCount));
    assert_eq!(Board::new(3, 3, 0).err(), Some(BoardError::InvalidMineCount));
    assert_eq!(Board::new(9, 1, 0).err(), Some(BoardError::InvalidMineCount));
}

#[test]
fn mine_limit_is_ten_below_the_cell_count() {
    assert_eq!(Board::mine_limit(4, 4), Some(6));
    assert_eq!(Board::mine_limit(98, 98), Some(9594));
    assert_eq!(Board::mine_limit(2, 5), Some(0));
    assert_eq!(Board::mine_limit(3, 3), None);
    assert_eq!(Board::mine_limit(0, 20), None);
    assert_eq!(Board::mine_limit(99, 20), None);
}

#[test]
fn in_bounds_follows_the_dimensions() {
    let board = Board::new(6, 4, 0).unwrap();
    assert!(board.in_bounds(at(0, 0)));
    assert!(board.in_bounds(at(5, 3)));
    assert!(!board.in_bounds(at(6, 3)));
    assert!(!board.in_bounds(at(5, 4)));
    assert!(!board.in_bounds(at(3, 5)));
    assert_eq!(board.cell_at(at(6, 0)), Err(BoardError::OutOfBounds));
    assert_eq!(board.cell_at(at(0, 4)), Err(BoardError::OutOfBounds));
}

#[test]
fn cell_flag_flips_whatever_the_cell_holds() {
    let mut cell = Cell::new(true);
    assert!(cell.is_mine());
    cell.toggle_flag();
    assert!(cell.is_flagged());
    assert!(cell.is_mine());
    assert!(!cell.is_revealed());
    cell.is_revealed = true;
    cell.toggle_flag();
    assert!(!cell.is_flagged());
    assert!(cell.is_revealed());
}

#[test]
fn toggle_flag_sets_and_clears() {
    let mut board = Board::new(5, 5, 3).unwrap();
    assert_eq!(board.toggle_flag(at(2, 3)), Ok(()));
    assert!(board.cell_at(at(2, 3)).unwrap().is_flagged());
    assert!(!board.cell_at(at(3, 2)).unwrap().is_flagged());
    assert!(!board.mines_placed());
    assert_eq!(board.toggle_flag(at(2, 3)), Ok(()));
    assert!(!board.cell_at(at(2, 3)).unwrap().is_flagged());
    for y in 0..5 {
        for x in 0..5 {
            assert_eq!(board.cell_at(at(x, y)), Ok(Cell::new(false)));
        }
    }
}

#[test]
fn toggle_flag_off_the_board_is_refused() {
    let mut board = Board::new(5, 4, 3).unwrap();
    assert_eq!(board.toggle_flag(at(5, 0)), Err(BoardError::OutOfBounds));
    assert_eq!(board.toggle_flag(at(0, 4)), Err(BoardError::OutOfBounds));
    assert_eq!(board.toggle_flag(at(usize::MAX, usize::MAX)), Err(BoardError::OutOfBounds));
    for y in 0..4 {
        for x in 0..5 {
            assert_eq!(board.cell_at(at(x, y)), Ok(Cell::new(false)));
        }
    }
}

#[test]
fn neighbors_at_corner_edge_and_interior() {
    let board = Board::new(6, 5, 0).unwrap();
    for corner in [at(0, 0), at(5, 0), at(0, 4), at(5, 4)] {
        assert_eq!(board.neighbors_of(corner).len(), 3);
    }
    for edge in [at(2, 0), at(0, 2), at(5, 3), at(4, 4)] {
        assert_eq!(board.neighbors_of(edge).len(), 5);
    }
    for inner in [at(1, 1), at(4, 3), at(2, 2)] {
        assert_eq!(board.neighbors_of(inner).len(), 8);
    }
}

#[test]
fn neighbors_are_the_cells_one_step_away() {
    let board = Board::new(6, 5, 0).unwrap();
    assert_eq!(board.neighbors_of(at(0, 0)), vec![at(1, 0), at(0, 1), at(1, 1)]);
    assert_eq!(
        board.neighbors_of(at(5, 2)),
        vec![at(4, 1), at(5, 1), at(4, 2), at(4, 3), at(5, 3)]
    );
    assert_eq!(
        board.neighbors_of(at(2, 2)),
        vec![at(1, 1), at(2, 1), at(3, 1), at(1, 2), at(3, 2), at(1, 3), at(2, 3), at(3, 3)]
    );
}

#[test]
fn neighbors_on_a_board_one_cell_wide() {
    let board = Board::new(1, 12, 0).unwrap();
    assert_eq!(board.neighbors_of(at(0, 0)), vec![at(0, 1)]);
    assert_eq!(board.neighbors_of(at(0, 5)), vec![at(0, 4), at(0, 6)]);
    assert_eq!(board.neighbors_of(at(0, 11)), vec![at(0, 10)]);
}

#[test]
fn neighbors_of_a_position_off_the_board() {
    let board = Board::new(4, 4, 0).unwrap();
    assert_eq!(board.neighbors_of(at(4, 0)), vec![at(3, 0), at(3, 1)]);
    assert_eq!(board.neighbors_of(at(4, 4)), vec![at(3, 3)]);
    assert_eq!(board.neighbors_of(at(9, 9)), Vec::<Position>::new());
    assert_eq!(board.neighbors_of(at(usize::MAX, 0)), Vec::<Position>::new());
}

#[test]
fn positions_touch_within_one_step() {
    let centre = at(4, 4);
    for y in 3..=5 {
        for x in 3..=5 {
            assert!(centre.is_near(&at(x, y)));
        }
    }
    assert!(!centre.is_near(&at(6, 4)));
    assert!(!centre.is_near(&at(4, 2)));
    assert!(!centre.is_near(&at(2, 6)));
    assert!(at(0, 0).is_near(&at(1, 1)));
    assert!(!at(0, 0).is_near(&at(usize::MAX, 0)));
}

#[test]
fn all_positions_go_row_by_row() {
    let board = Board::new(4, 3, 0).unwrap();
    let all = board.all_positions();
    assert_eq!(all.len(), 12);
    for (i, p) in all.iter().enumerate() {
        assert_eq!(*p, at(i % 4, i / 4));
    }
}
