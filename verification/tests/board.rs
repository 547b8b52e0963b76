use xo::board::{Board, GameState, Player};
use xo::error::Error;

#[test]
fn from_str() {
    let board = Board::parse("oxo-xox-ooo").unwrap();
    assert_eq!(board.render(), "+---+---+---+\n| O | X | O | \n+---+---+---+\n| X | O | X | \n+---+---+---+\n| O | O | O | \n+---+---+---+\n");
}

#[test]
fn win_x() {
    let board = Board::parse("oox-xxx-o  ").unwrap();
    assert_eq!(board.state(), GameState::Winner(Player::X))
}

#[test]
fn win_o() {
    let board = Board::parse("xxo-oxo-x o").unwrap();
    assert_eq!(board.state(), GameState::Winner(Player::O))
}

#[test]
fn draw() {
    let board = Board::parse("xox-xoo-oxx").unwrap();
    assert_eq!(board.state(), GameState::Draw)
}

#[test]
fn indeterminate() {
    let board = Board::parse("x o-oxx-xoo").unwrap();
    assert_eq!(board.state(), GameState::Indeterminate)
}

#[test]
fn game_start() {
    let board = Board::default();
    assert_eq!(board.state(), GameState::Indeterminate);
}

#[test]
fn win_on_diagonal() {
    // The rows "XXO / OXO / XOX" hold an X diagonal through the centre.
    let board = Board::parse("xxo-oxo-xox").unwrap();
    assert_eq!(board.state(), GameState::Winner(Player::X));
}

#[test]
fn win_with_free_squares_left() {
    // A completed row decides the game no matter how many squares stay free.
    let board = Board::parse("xxx-oo -   ").unwrap();
    assert_eq!(board.state(), GameState::Winner(Player::X));
}

#[test]
fn double_line_precedence() {
    // Unreachable under play, but the classification stays deterministic:
    // the scan examines O's claim first on each line, and the middle row
    // comes before the top row.
    let board = Board::parse("xxx-ooo-   ").unwrap();
    assert_eq!(board.state(), GameState::Winner(Player::O));
}

#[test]
fn next_player_alternates() {
    let mut board = Board::default();
    assert_eq!(board.next_player(), Player::X);
    board.make_move(4).unwrap();
    assert_eq!(board.next_player(), Player::O);
    board.make_move(0).unwrap();
    assert_eq!(board.next_player(), Player::X);
}

#[test]
fn make_move_returns_prior_state() {
    let mut board = Board::default();
    assert_eq!(board.make_move(4), Ok(GameState::Indeterminate));
    assert_eq!(board.get_square(4), Some(Player::X));
}

#[test]
fn make_move_out_of_range() {
    let mut board = Board::default();
    assert_eq!(board.make_move(9), Err(Error::InvalidPosition(9)));
    assert_eq!(board.make_move(100), Err(Error::InvalidPosition(100)));
}

#[test]
fn make_move_occupied() {
    let mut board = Board::default();
    board.make_move(4).unwrap();
    assert_eq!(board.make_move(4), Err(Error::Occupied(4)));
}

#[test]
fn make_move_game_over() {
    let mut board = Board::parse("xxx-oo -   ").unwrap();
    assert_eq!(board.make_move(5), Err(Error::GameOver));
}

#[test]
fn failed_move_leaves_board_unchanged() {
    let mut board = Board::parse("x o-oxx-xoo").unwrap();
    let before = board.encode();
    assert!(board.make_move(0).is_err());
    assert!(board.make_move(42).is_err());
    assert_eq!(board.encode(), before);
}

#[test]
fn set_square_unchecked() {
    let mut board = Board::default();
    board.set_square(3, Some(Player::O));
    assert_eq!(board.get_square(3), Some(Player::O));
    board.set_square(3, Some(Player::X));
    assert_eq!(board.get_square(3), Some(Player::X));
    board.set_square(3, None);
    assert_eq!(board.get_square(3), None);
    // An index outside the board is silently ignored.
    board.set_square(9, Some(Player::X));
    assert_eq!(board.encode(), Board::default().encode());
}

#[test]
fn get_square_out_of_range() {
    let board = Board::parse("xxx-xxx-xxx").unwrap();
    assert_eq!(board.get_square(9), None);
}

#[test]
fn every_board_is_valid() {
    assert!(Board::default().is_valid());
    assert!(Board::parse("xox-xoo-oxx").unwrap().is_valid());
}
