use vstd::prelude::*;

verus! {

/// The failures that the board's operations report to their caller.
#[derive(Clone, Copy, Debug, PartialEq, Eq, Structural)]
pub enum ChessError {
    /// A coordinate would leave the 8x8 grid.
    OutOfBounds,
    /// No piece with the given identifier is on the board.
    InvalidPieceReference,
    /// A ply was recorded against a game that is already closed.
    HistoryClosedError,
}

} // verus!
