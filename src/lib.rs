use vstd::prelude::*;

pub mod board;
pub mod chess_move;
pub mod color;
pub mod distinct;
pub mod game;
pub mod laws;
pub mod move_map;
pub mod network;
pub mod notation;
pub mod outcome;
pub mod piece;
pub mod pos;
pub mod rules;

pub use board::{Board, ParseBoardError};
pub use chess_move::Move;
pub use color::Color;
pub use game::{Game, GameResult};
pub use move_map::MoveMap;
pub use network::{Message, MoveType};
pub use outcome::{Ending, State};
pub use piece::{ParseTaggedPieceError, PieceType, TaggedPiece};
pub use pos::Pos;

verus! {

} // verus!
