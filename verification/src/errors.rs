use vstd::prelude::*;

verus! {

/// Everything the engine can refuse. Each is reported to the caller; none
/// ends the process, and a refused operation leaves its target unchanged.
#[derive(Clone, Copy, Debug, PartialEq, Eq, Structural)]
pub enum GoError {
    /// A point lies outside the board.
    OutOfBounds,
    /// A stone already stands on the point.
    PointOccupied,
    /// The stone would be left without a liberty after captures.
    SuicideMove,
    /// The move would repeat a position that the game has already seen.
    KoViolation,
    /// A move was attempted after the game had ended.
    GameOver,
    /// There is no earlier state to return to.
    EmptyHistory,
    /// The board size is not supported.
    InvalidBoardSize,
    /// A result of the finished game was asked for while it is still going.
    GameNotFinished,
    /// The game did not end by two passes, so it cannot be resumed.
    IllegalResume,
    /// A byte or a pair of plane bits does not encode a point state.
    InvalidColor,
    /// Handicap stones were given after the first move.
    HandicapAfterStart,
}

} // verus!
