use vstd::prelude::*;

verus! {

/// The failures that board operations and the move search report. Every
/// failure is surfaced as a value to the immediate caller; nothing panics.
#[derive(PartialEq, Eq, Structural, Debug)]
pub enum Error {
    /// The requested square index lies outside the board range `0..9`.
    InvalidPosition(usize),
    /// A move targeted a square that already holds a mark.
    Occupied(usize),
    /// An operation that needs an ongoing game was invoked on a finished one.
    GameOver,
    /// A textual board encoded more marks than the nine squares can hold.
    InvalidBoardLength,
    /// The board position itself is illegal.
    InvalidBoard,
}

} // verus!
