use connect4::ai::{Ai, Play};
use connect4::board::{Board, Token};
use connect4::game::place;

fn place_all(board: &mut Board, token: Token, columns: &[u8]) {
    for col in columns {
        place(board, token, *col).unwrap();
    }
}

#[test]
fn obvious_attack() {
    let mut board = Board::new(7);
    place_all(&mut board, Token::Black, &[4, 5, 6]);
    place_all(&mut board, Token::White, &[0, 0, 0]);

    let ai = Ai::new(Token::Black, 0, false);
    let play = ai.play(&board);
    println!("{:?}", play.1);
    assert_eq!(play.0, 3);
}

#[test]
fn obvious_defence() {
    let mut board = Board::new(7);
    place_all(&mut board, Token::Black, &[4, 5, 5]);
    place_all(&mut board, Token::White, &[0, 0, 0]);

    let ai = Ai::new(Token::Black, 1, false);
    let play = ai.play(&board);
    println!("{:?}", play.1);
    assert_eq!(play.0, 0);
}

#[test]
fn planned_attack() {
    let mut board = Board::new(7);
    place_all(&mut board, Token::Black, &[0, 1]);
    place_all(&mut board, Token::White, &[5, 5]);

    let ai = Ai::new(Token::Black, 5, false);
    let play = ai.play(&board);
    println!("{:?}", play.1);
    assert!(play.0 == 3 || play.0 == 4);
}

#[test]
fn planned_defence() {
    let mut board = Board::new(7);
    place_all(&mut board, Token::Black, &[6, 6]);
    place_all(&mut board, Token::White, &[2, 3]);

    let ai = Ai::new(Token::Black, 5, false);
    let play = ai.play(&board);
    println!("{:?}", play.1);
    assert!(play.0 == 1 || play.0 == 4);
}

#[test]
fn conflicting_attack() {
    let mut board = Board::new(7);
    place_all(&mut board, Token::White, &[2, 3, 3]);
    place_all(&mut board, Token::Black, &[3, 4, 5, 5]);
    place_all(&mut board, Token::White, &[5, 5]);

    let ai = Ai::new(Token::Black, 1, false);
    let play = ai.play(&board);
    println!("{:?}", play.1);
    assert_ne!(play.0, 4);
}

#[test]
fn go_for_trap() {
    let mut board = Board::new(7);
    place_all(&mut board, Token::Black, &[2, 3, 6, 6]);
    place_all(&mut board, Token::White, &[2, 3, 2, 3]);

    let ai = Ai::new(Token::Black, 5, false);
    let play = ai.play(&board);
    println!("{:?}", play.1);
    assert!(play.0 == 1 || play.0 == 4);
}

#[test]
fn immediate_win_is_worth_two_to_the_depth() {
    let mut board = Board::new(7);
    place_all(&mut board, Token::Black, &[4, 5, 6]);
    place_all(&mut board, Token::White, &[0, 0, 0]);

    let ai = Ai::new(Token::Black, 2, false);
    let play = ai.play(&board);
    let winning: Vec<&Play> = play.1.iter().filter(|p| p.col == 3).collect();
    assert_eq!(winning.len(), 1);
    assert_eq!(winning[0].value, 4);

    let ai = Ai::new(Token::Black, 0, false);
    let play = ai.play(&board);
    assert_eq!(play.1.len(), 1);
    assert_eq!(play.1[0].col, 3);
    assert_eq!(play.1[0].value, 1);
}

#[test]
fn depth_zero_without_a_win_has_no_candidates() {
    let board = Board::new(7);
    let ai = Ai::new(Token::White, 0, false);
    let play = ai.play(&board);
    assert!(play.1.is_empty());
    assert!(play.0 < 7);
}

#[test]
fn ordered_play_is_deterministic() {
    let mut board = Board::new(7);
    place_all(&mut board, Token::Black, &[4, 5, 5]);
    place_all(&mut board, Token::White, &[0, 0, 0]);

    let ai = Ai::new(Token::Black, 1, false);
    let columns: Vec<u8> = (0..7).collect();
    let (col, scores) = ai.play_ordered(&board, &columns, 6);
    // Blocking White's three-in-a-column threat scores 0; every other
    // column lets White win next ply and scores -1.
    assert_eq!(col, 0);
    assert_eq!(scores.len(), 7);
    for play in &scores {
        let expected = if play.col == 0 { 0 } else { -1 };
        assert_eq!(play.value, expected);
    }
}

#[test]
fn full_columns_are_not_candidates() {
    let mut board = Board::new(5);
    // Fill column 2 completely, alternating so nobody wins.
    place_all(&mut board, Token::Black, &[2]);
    place_all(&mut board, Token::White, &[2]);
    place_all(&mut board, Token::Black, &[2]);
    place_all(&mut board, Token::White, &[2]);
    place_all(&mut board, Token::Black, &[2]);

    let ai = Ai::new(Token::White, 1, false);
    let play = ai.play(&board);
    assert!(play.1.iter().all(|p| p.col != 2));
    assert_ne!(play.0, 2);
}
