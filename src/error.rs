use vstd::prelude::*;

verus! {

/// Failures reported by the value constructors and the rules engine.
#[derive(Debug, Clone, Copy, PartialEq, Eq, Structural)]
pub enum ChessError {
    /// A file or rank outside `0..=7`.
    InvalidCoordinate,
    /// Square text that is not a file letter `a`-`h` followed by a rank digit `1`-`8`.
    InvalidNotation,
    /// A move that is not among the legal moves of the board.
    IllegalMove,
    /// Position text that does not describe a board.
    InvalidPositionText,
}

} // verus!
