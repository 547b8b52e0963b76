use xo::board::{Board, Player};
use xo::error::Error;

#[test]
fn encode_is_exact() {
    let board = Board::parse("xox-xoo-oxx").unwrap();
    assert_eq!(board.encode(), "xox-xoo-oxx");
    assert_eq!(Board::default().encode(), "   -   -   ");
}

#[test]
fn parse_then_encode_round_trip() {
    for text in ["x o-oxx-xoo", "oxo-xox-ooo", "   -   -   ", "xxo- x -o  "] {
        let board = Board::parse(text).unwrap();
        let echoed = Board::parse(&board.encode()).unwrap();
        for pos in 0..9 {
            assert_eq!(board.get_square(pos), echoed.get_square(pos));
        }
    }
}

#[test]
fn parse_skips_decoration() {
    let plain = Board::parse("xo x     ").unwrap();
    let decorated = Board::parse("|xo |\n|x  |\n|   |").unwrap();
    assert_eq!(plain.encode(), decorated.encode());
}

#[test]
fn parse_accepts_upper_case_and_zero() {
    let board = Board::parse("XO0-   -   ").unwrap();
    assert_eq!(board.get_square(0), Some(Player::X));
    assert_eq!(board.get_square(1), Some(Player::O));
    assert_eq!(board.get_square(2), Some(Player::O));
}

#[test]
fn parse_rejects_overflow() {
    assert!(matches!(
        Board::parse("xxxxxxxxxx"),
        Err(Error::InvalidBoardLength)
    ));
    // Nine squares followed by one more square character overflow too, even
    // when that character is a blank...
    assert!(matches!(
        Board::parse("oxoxoxoxo "),
        Err(Error::InvalidBoardLength)
    ));
    // ... while trailing decoration after the ninth square is fine.
    assert!(Board::parse("oxoxoxoxo-").is_ok());
}
