use connect4::Error;
use connect4::board::{Board, Cell, Token};
use connect4::cartesian::Position;
use connect4::game::{State, fall_position, place, victory};

use Token::{Black, White};

#[test]
fn game_place() {
    let mut board = Board::new(7);
    let state = place(&mut board, Black, 1).unwrap();
    assert_eq!(state, State::Ongoing);
    let state = place(&mut board, White, 2).unwrap();
    assert_eq!(state, State::Ongoing);
    let state = place(&mut board, Black, 3).unwrap();
    assert_eq!(state, State::Ongoing);
    let state = place(&mut board, White, 3).unwrap();
    assert_eq!(state, State::Ongoing);
    let state = place(&mut board, Black, 3).unwrap();
    assert_eq!(state, State::Ongoing);
    let state = place(&mut board, White, 3).unwrap();
    assert_eq!(state, State::Ongoing);
    let state = place(&mut board, Black, 4).unwrap();
    assert_eq!(state, State::Ongoing);
    let state = place(&mut board, White, 1).unwrap();
    assert_eq!(state, State::Ongoing);
    let state = place(&mut board, Black, 2).unwrap();
    assert_eq!(state, State::Ongoing);
    let state = place(&mut board, White, 2).unwrap();
    assert_eq!(state, State::Ongoing);
    let state = place(&mut board, White, 0).unwrap();
    assert_eq!(state, State::Victory);
}

#[test]
fn game_place_errors() {
    let mut board = Board::new(7);

    place(&mut board, White, 3).unwrap();
    place(&mut board, White, 3).unwrap();
    place(&mut board, White, 3).unwrap();
    place(&mut board, White, 3).unwrap();
    place(&mut board, White, 3).unwrap();
    place(&mut board, White, 3).unwrap();
    place(&mut board, White, 3).unwrap();

    assert_eq!(place(&mut board, Black, 3).err().unwrap(), Error::ColumnFull);
    assert_eq!(place(&mut board, Black, 9).err().unwrap(), Error::OutOfBounds);
}

#[test]
fn game_victory() {
    let mut board = Board::new(7);

    board.set_cell(Position::new(2, 6), Cell::Token(Black)).unwrap();
    board.set_cell(Position::new(2, 5), Cell::Token(Black)).unwrap();
    board.set_cell(Position::new(2, 4), Cell::Token(Black)).unwrap();
    board.set_cell(Position::new(2, 3), Cell::Token(White)).unwrap();

    board.set_cell(Position::new(0, 0), Cell::Token(White)).unwrap();
    board.set_cell(Position::new(0, 1), Cell::Token(White)).unwrap();

    board.set_cell(Position::new(6, 6), Cell::Token(Black)).unwrap();
    board.set_cell(Position::new(5, 5), Cell::Token(Black)).unwrap();
    board.set_cell(Position::new(4, 4), Cell::Token(Black)).unwrap();
    board.set_cell(Position::new(5, 4), Cell::Token(Black)).unwrap();

    assert_eq!(victory(&board, Black, Position::new(2, 5)), false);
    assert_eq!(victory(&board, White, Position::new(0, 1)), false);
    assert_eq!(victory(&board, Black, Position::new(5, 5)), false);

    board.set_cell(Position::new(3, 3), Cell::Token(Black)).unwrap();
    assert_eq!(victory(&board, White, Position::new(5, 5)), false);
    assert_eq!(victory(&board, Black, Position::new(5, 5)), true);
}

#[test]
fn game_fall_position() {
    let mut board = Board::new(7);
    board.set_cell(Position::new(2, 3), Cell::Token(Black)).unwrap();
    board.set_cell(Position::new(4, 6), Cell::Token(White)).unwrap();

    assert_eq!(fall_position(&board, 0).unwrap(), Position::new(0, 6));
    assert_eq!(fall_position(&board, 2).unwrap(), Position::new(2, 2));
    assert_eq!(fall_position(&board, 4).unwrap(), Position::new(4, 5));
}

#[test]
fn lib_place() {
    let mut board = Board::new(7);
    let state = place(&mut board, Black, 1).unwrap();
    assert_eq!(state, State::Ongoing);
    let state = place(&mut board, White, 2).unwrap();
    assert_eq!(state, State::Ongoing);
    let state = place(&mut board, Black, 3).unwrap();
    assert_eq!(state, State::Ongoing);
    let state = place(&mut board, White, 3).unwrap();
    assert_eq!(state, State::Ongoing);
    let state = place(&mut board, Black, 3).unwrap();
    assert_eq!(state, State::Ongoing);
    let state = place(&mut board, White, 3).unwrap();
    assert_eq!(state, State::Ongoing);
    let state = place(&mut board, Black, 4).unwrap();
    assert_eq!(state, State::Ongoing);
    let state = place(&mut board, White, 1).unwrap();
    assert_eq!(state, State::Ongoing);
    let state = place(&mut board, Black, 2).unwrap();
    assert_eq!(state, State::Ongoing);
    let state = place(&mut board, White, 2).unwrap();
    assert_eq!(state, State::Ongoing);
    let state = place(&mut board, White, 0).unwrap();
    assert_eq!(state, State::Victory);
}

#[test]
fn lib_place_errors() {
    let mut board = Board::new(7);

    place(&mut board, White, 3).unwrap();
    place(&mut board, White, 3).unwrap();
    place(&mut board, White, 3).unwrap();
    place(&mut board, White, 3).unwrap();
    place(&mut board, White, 3).unwrap();
    place(&mut board, White, 3).unwrap();
    place(&mut board, White, 3).unwrap();

    assert_eq!(place(&mut board, Black, 3).err().unwrap(), Error::ColumnFull);
    assert_eq!(place(&mut board, Black, 9).err().unwrap(), Error::OutOfBounds);
}

#[test]
fn lib_victory() {
    let mut board = Board::new(7);

    board.set_cell(Position::new(2, 6), Cell::Token(Black)).unwrap();
    board.set_cell(Position::new(2, 5), Cell::Token(Black)).unwrap();
    board.set_cell(Position::new(2, 4), Cell::Token(Black)).unwrap();
    board.set_cell(Position::new(2, 3), Cell::Token(White)).unwrap();

    board.set_cell(Position::new(0, 0), Cell::Token(White)).unwrap();
    board.set_cell(Position::new(0, 1), Cell::Token(White)).unwrap();

    board.set_cell(Position::new(6, 6), Cell::Token(Black)).unwrap();
    board.set_cell(Position::new(5, 5), Cell::Token(Black)).unwrap();
    board.set_cell(Position::new(4, 4), Cell::Token(Black)).unwrap();
    board.set_cell(Position::new(5, 4), Cell::Token(Black)).unwrap();

    assert_eq!(victory(&board, Black, Position::new(2, 5)), false);
    assert_eq!(victory(&board, White, Position::new(0, 1)), false);
    assert_eq!(victory(&board, Black, Position::new(5, 5)), false);

    board.set_cell(Position::new(3, 3), Cell::Token(Black)).unwrap();
    assert_eq!(victory(&board, White, Position::new(5, 5)), false);
    assert_eq!(victory(&board, Black, Position::new(5, 5)), true);
}

#[test]
fn lib_fall_position() {
    let mut board = Board::new(7);
    board.set_cell(Position::new(2, 3), Cell::Token(Black)).unwrap();
    board.set_cell(Position::new(4, 6), Cell::Token(White)).unwrap();

    assert_eq!(fall_position(&board, 0).unwrap(), Position::new(0, 6));
    assert_eq!(fall_position(&board, 2).unwrap(), Position::new(2, 2));
    assert_eq!(fall_position(&board, 4).unwrap(), Position::new(4, 5));
}

#[test]
fn should_detect_horizontal_victory() {
    let mut board = Board::new(8);
    board.set_cell(Position::new(2, 2), Cell::Token(White)).unwrap();
    board.set_cell(Position::new(3, 2), Cell::Token(White)).unwrap();
    board.set_cell(Position::new(4, 2), Cell::Token(White)).unwrap();
    board.set_cell(Position::new(5, 2), Cell::Token(White)).unwrap();
    assert!(victory(&board, White, Position::new(3, 2)));
}

#[test]
fn should_detect_vertical_victory() {
    let mut board = Board::new(8);
    board.set_cell(Position::new(2, 2), Cell::Token(White)).unwrap();
    board.set_cell(Position::new(2, 3), Cell::Token(White)).unwrap();
    board.set_cell(Position::new(2, 4), Cell::Token(White)).unwrap();
    board.set_cell(Position::new(2, 5), Cell::Token(White)).unwrap();
    assert!(victory(&board, White, Position::new(2, 3)));
}

#[test]
fn should_detect_up_down_victory() {
    let mut board = Board::new(8);
    board.set_cell(Position::new(4, 4), Cell::Token(White)).unwrap();
    board.set_cell(Position::new(3, 5), Cell::Token(White)).unwrap();
    board.set_cell(Position::new(2, 6), Cell::Token(White)).unwrap();
    board.set_cell(Position::new(1, 7), Cell::Token(White)).unwrap();
    assert!(victory(&board, White, Position::new(2, 6)));
}

#[test]
fn should_detect_down_up_victory() {
    let mut board = Board::new(8);
    board.set_cell(Position::new(2, 2), Cell::Token(White)).unwrap();
    board.set_cell(Position::new(3, 3), Cell::Token(White)).unwrap();
    board.set_cell(Position::new(4, 4), Cell::Token(White)).unwrap();
    board.set_cell(Position::new(5, 5), Cell::Token(White)).unwrap();
    assert!(victory(&board, White, Position::new(3, 3)));
}

#[test]
fn should_not_detect_victory() {
    let mut board = Board::new(8);
    board.set_cell(Position::new(2, 2), Cell::Token(White)).unwrap();
    board.set_cell(Position::new(3, 4), Cell::Token(White)).unwrap();
    board.set_cell(Position::new(5, 4), Cell::Token(White)).unwrap();
    board.set_cell(Position::new(7, 5), Cell::Token(White)).unwrap();
    assert!(!victory(&board, White, Position::new(5, 4)));
}

#[test]
fn degenerate_board_rejects_every_column() {
    let mut board = Board::new(0);
    assert_eq!(place(&mut board, Black, 0).err().unwrap(), Error::OutOfBounds);
}

#[test]
fn largest_board() {
    let mut board = Board::new(255);
    assert_eq!(place(&mut board, Black, 254).unwrap(), State::Ongoing);
    assert_eq!(board.cell(Position::new(254, 254)), Some(Cell::Token(Black)));
    assert_eq!(place(&mut board, Black, 255).err().unwrap(), Error::OutOfBounds);
}

#[test]
fn tie_on_full_board() {
    let mut board = Board::new(2);
    assert_eq!(place(&mut board, Black, 0).unwrap(), State::Ongoing);
    assert_eq!(place(&mut board, White, 0).unwrap(), State::Ongoing);
    assert_eq!(place(&mut board, Black, 1).unwrap(), State::Ongoing);
    assert_eq!(place(&mut board, White, 1).unwrap(), State::Tie);
}
