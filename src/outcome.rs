use vstd::prelude::*;

use crate::pos::Pos;

verus! {

/// How a finished game ended.
#[derive(Clone, Copy, PartialEq, Eq, Structural, Debug)]
pub enum Ending {
    White,
    Black,
    Tie,
}

/// What a front end waits for: a move, the choice of a promotion piece for the pawn
/// going to the given square, or nothing more once the game has ended.
#[derive(Clone, Copy, PartialEq, Eq, Structural, Debug)]
pub enum State {
    Playing,
    Promotion(Pos),
    End(Ending),
}

impl Ending {
    /// The announcement of the ending.
    pub fn to_string(&self) -> (r: String)
        ensures
            r@ == match *self {
                Ending::White => "White Wins!"@,
                Ending::Black => "Black Wins!"@,
                Ending::Tie => "It's a Tie!"@,
            },
    {
        match self {
            Ending::White => String::from_str("White Wins!"),
            Ending::Black => String::from_str("Black Wins!"),
            Ending::Tie => String::from_str("It's a Tie!"),
        }
    }
}

} // verus!
