//! The conditions that the library reports to its caller.

use vstd::prelude::*;

verus! {

/// Why a call was refused. Every refusal leaves the game as it was.
#[derive(Clone, Copy, Debug, PartialEq, Eq, Structural)]
pub enum ChessError {
    /// A coordinate is not a file letter `A`..`H` followed by a rank digit
    /// `1`..`8`, or a square index is not below 64.
    InvalidCoordinate,
    /// The move is not a legal move of the side to move.
    IllegalMove,
    /// The letter names no kind that a pawn may be promoted to.
    InvalidPromotion,
    /// The position string does not have the required structure.
    MalformedPosition,
}

} // verus!
