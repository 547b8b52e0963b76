use xo::ai::best_move;
use xo::board::{Board, GameState, Player};
use xo::error::Error;

#[test]
fn chooses_a_free_square() {
    let board = Board::parse("x o-oxx-xoo").unwrap();
    let m = best_move(&board).unwrap();
    assert_eq!(board.get_square(m), None);
}

#[test]
fn deterministic_choice() {
    let board = Board::parse("xo -  x- o ").unwrap();
    let first = best_move(&board).unwrap();
    let second = best_move(&board).unwrap();
    assert_eq!(first, second);
}

#[test]
fn search_leaves_board_unchanged() {
    let board = Board::parse("xo -  x- o ").unwrap();
    let before = board.encode();
    best_move(&board).unwrap();
    assert_eq!(board.encode(), before);
}

#[test]
fn empty_board_first_choice() {
    // Every opening move of this game draws under perfect play, so the
    // first-index tie-break settles on square 0, a corner from the optimal
    // opening set {0, 2, 4, 6, 8}.
    let board = Board::default();
    assert_eq!(best_move(&board), Ok(0));
    assert_eq!(board.next_player(), Player::X);
    assert_eq!(board.state(), GameState::Indeterminate);
}

#[test]
fn takes_the_immediate_win() {
    // X completes the top row at square 2, the first free square.
    let board = Board::parse("xx -oo -   ").unwrap();
    assert_eq!(best_move(&board), Ok(2));
}

#[test]
fn blocks_the_threat() {
    // O has two in the middle row; X must answer at square 5.
    let board = Board::parse("x  -oo -  x").unwrap();
    assert_eq!(best_move(&board), Ok(5));
}

#[test]
fn lost_position_still_moves() {
    // O to move, and both free squares lose: whichever one O blocks, X
    // completes the other line next turn. The engine still answers with the
    // first free square instead of failing.
    let board = Board::parse("xox- o -xxo").unwrap();
    assert_eq!(best_move(&board), Ok(3));
}

#[test]
fn rejects_finished_game() {
    let won = Board::parse("xxx-oo -   ").unwrap();
    assert_eq!(best_move(&won), Err(Error::GameOver));
    let drawn = Board::parse("xox-xoo-oxx").unwrap();
    assert_eq!(best_move(&drawn), Err(Error::GameOver));
}

#[test]
fn perfect_self_play_draws() {
    let mut board = Board::default();
    let mut moves = 0;
    while board.state() == GameState::Indeterminate {
        let m = best_move(&board).unwrap();
        board.make_move(m).unwrap();
        moves += 1;
        assert!(moves <= 9);
    }
    assert_eq!(board.state(), GameState::Draw);
    assert_eq!(moves, 9);
}
