use connect4::board::{Board, Cell, Token};
use connect4::cartesian::Position;
use connect4::game;

#[test]
fn board_out_of_bounds() {
    let board = Board::new(7);
    assert_eq!(board.cell(Position::new(8, 1)), None);
    assert_eq!(board.cell(Position::new(1, 8)), None);
    assert_eq!(board.cell(Position::new(8, 8)), None);
    assert_ne!(board.cell(Position::new(1, 1)), None);
}

#[test]
fn lib_out_of_bounds() {
    let board = Board::new(7);
    assert_eq!(board.cell(Position::new(8, 1)), None);
    assert_eq!(board.cell(Position::new(1, 8)), None);
    assert_eq!(board.cell(Position::new(8, 8)), None);
    assert_ne!(board.cell(Position::new(1, 1)), None);
}

#[test]
fn new_board_is_empty() {
    let board = Board::new(3);
    assert_eq!(board.size(), 3);
    for x in 0..3 {
        for y in 0..3 {
            assert_eq!(board.cell(Position::new(x, y)), Some(Cell::Empty));
        }
    }
}

#[test]
fn token_flip() {
    assert_eq!(Token::White.flip(), Token::Black);
    assert_eq!(Token::Black.flip(), Token::White);
}

#[test]
fn count_runs() {
    let mut board = Board::new(7);
    board.set_cell(Position::new(2, 6), Cell::Token(Token::Black)).unwrap();
    board.set_cell(Position::new(3, 6), Cell::Token(Token::Black)).unwrap();
    board.set_cell(Position::new(4, 6), Cell::Token(Token::White)).unwrap();
    let east = connect4::cartesian::Direction::east();
    assert_eq!(board.count(Cell::Token(Token::Black), Position::new(2, 6), east), 2);
    assert_eq!(board.count(Cell::Token(Token::White), Position::new(2, 6), east), 0);
    assert_eq!(board.count(Cell::Empty, Position::new(2, 0), connect4::cartesian::Direction::south()), 6);
}

#[test]
fn clone_isolation() {
    let board = Board::new(7);
    let mut copy = board.clone();
    game::place(&mut copy, Token::Black, 3).unwrap();
    assert_eq!(board.cell(Position::new(3, 6)), Some(Cell::Empty));
    assert_eq!(copy.cell(Position::new(3, 6)), Some(Cell::Token(Token::Black)));
}

#[test]
fn set_cell_out_of_bounds() {
    let mut board = Board::new(7);
    assert_eq!(
        board.set_cell(Position::new(7, 0), Cell::Token(Token::White)),
        Err(connect4::Error::OutOfBounds)
    );
    assert_eq!(
        board.set_cell(Position::new(0, -1), Cell::Token(Token::White)),
        Err(connect4::Error::OutOfBounds)
    );
}
