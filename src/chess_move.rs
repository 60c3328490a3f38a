use vstd::prelude::*;

use crate::piece::PieceType;
use crate::pos::{square, Pos};

verus! {

/// A move of the side to play; the square it starts from is carried beside it.
#[derive(Clone, Copy, PartialEq, Eq, Structural, Debug)]
pub enum Move {
    /// No move; never legal.
    Null,
    Move(Pos),
    EnPassant(Pos),
    PawnPromotion(PieceType, Pos),
    KingSideCastling,
    QueenSideCastling,
}

impl Move {
    pub fn move_xy(x: u8, y: u8) -> (r: Move)
        requires
            x < 8,
            y < 8,
        ensures
            r == Move::Move(square(x as int, y as int)),
    {
        Move::Move(Pos::new_xy(x, y))
    }
}

} // verus!
