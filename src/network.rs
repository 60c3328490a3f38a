use vstd::prelude::*;

use crate::chess_move::Move;
use crate::piece::PieceType;
use crate::pos::Pos;

verus! {

/// A move as it travels between two players: the squares as indexes, and for a
/// promotion the new piece as a code (0 knight, 1 bishop, 2 rook, 3 queen).
#[derive(Clone, Copy, PartialEq, Eq, Structural, Debug)]
pub enum MoveType {
    Standard(u8, u8),
    EnPassant(u8, u8),
    Promotion(u8, u8, u8),
    KingsideCastle,
    QueensideCastle,
}

/// A message between two players.
#[derive(Clone, Copy, PartialEq, Eq, Structural, Debug)]
pub enum Message {
    Decline,
    Move(MoveType),
    Undo,
    Accept,
    Checkmate,
    Draw,
    Resign,
}

/// The bytes of a move: a tag, then its squares and promotion code.
pub open spec fn move_type_bytes(m: MoveType) -> Seq<u8> {
    match m {
        MoveType::Standard(o, t) => seq![0u8, o, t],
        MoveType::EnPassant(o, t) => seq![1u8, o, t],
        MoveType::Promotion(o, t, p) => seq![2u8, o, t, p],
        MoveType::KingsideCastle => seq![3u8],
        MoveType::QueensideCastle => seq![4u8],
    }
}

/// The move that four received bytes name; `None` for an unknown tag.
pub open spec fn move_type_of(b: Seq<u8>) -> Option<MoveType> {
    if b[0] == 0 {
        Some(MoveType::Standard(b[1], b[2]))
    } else if b[0] == 1 {
        Some(MoveType::EnPassant(b[1], b[2]))
    } else if b[0] == 2 {
        Some(MoveType::Promotion(b[1], b[2], b[3]))
    } else if b[0] == 3 {
        Some(MoveType::KingsideCastle)
    } else if b[0] == 4 {
        Some(MoveType::QueensideCastle)
    } else {
        None
    }
}

pub open spec fn message_tag(m: Message) -> u8 {
    match m {
        Message::Decline => 0,
        Message::Move(_) => 1,
        Message::Undo => 2,
        Message::Accept => 3,
        Message::Checkmate => 4,
        Message::Draw => 5,
        Message::Resign => 6,
    }
}

/// The bytes of a message: its tag, then the move's bytes for a move.
pub open spec fn message_bytes(m: Message) -> Seq<u8> {
    match m {
        Message::Move(t) => seq![1u8] + move_type_bytes(t),
        _ => seq![message_tag(m)],
    }
}

/// The message that five received bytes name; `None` for an unknown tag.
pub open spec fn message_of(b: Seq<u8>) -> Option<Message> {
    if b[0] == 0 {
        Some(Message::Decline)
    } else if b[0] == 1 {
        match move_type_of(b.subrange(1, 5)) {
            Some(t) => Some(Message::Move(t)),
            None => None,
        }
    } else if b[0] == 2 {
        Some(Message::Undo)
    } else if b[0] == 3 {
        Some(Message::Accept)
    } else if b[0] == 4 {
        Some(Message::Checkmate)
    } else if b[0] == 5 {
        Some(Message::Draw)
    } else if b[0] == 6 {
        Some(Message::Resign)
    } else {
        None
    }
}

/// The piece type of a promotion code.
pub open spec fn promotion_of_code(c: u8) -> PieceType {
    if c == 0 {
        PieceType::Knight
    } else if c == 1 {
        PieceType::Bishop
    } else if c == 2 {
        PieceType::Rook
    } else {
        PieceType::Queen
    }
}

/// `b` padded with zero bytes to length `n`.
pub open spec fn padded(b: Seq<u8>, n: nat) -> Seq<u8> {
    b + Seq::new((n - b.len()) as nat, |i: int| 0u8)
}

impl MoveType {
    pub fn to_bytes(&self) -> (r: Vec<u8>)
        ensures
            r@ == move_type_bytes(*self),
    {
        let r = match self {
            MoveType::Standard(o, t) => vec![0u8, *o, *t],
            MoveType::EnPassant(o, t) => vec![1u8, *o, *t],
            MoveType::Promotion(o, t, p) => vec![2u8, *o, *t, *p],
            MoveType::KingsideCastle => vec![3u8],
            MoveType::QueensideCastle => vec![4u8],
        };
        assert(r@ =~= move_type_bytes(*self));
        r
    }

    pub fn from_bytes(bytes: [u8; 4]) -> (r: Result<MoveType, &'static str>)
        ensures
            r matches Ok(m) ==> move_type_of(bytes@) == Some(m),
            r is Err ==> move_type_of(bytes@) is None,
    {
        match bytes[0] {
            0 => Ok(MoveType::Standard(bytes[1], bytes[2])),
            1 => Ok(MoveType::EnPassant(bytes[1], bytes[2])),
            2 => Ok(MoveType::Promotion(bytes[1], bytes[2], bytes[3])),
            3 => Ok(MoveType::KingsideCastle),
            4 => Ok(MoveType::QueensideCastle),
            _ => Err("Byte is not valid move type"),
        }
    }

    /// The square a move starts from (none for castling, which starts from the king's
    /// square) and the move itself.
    pub fn to_chess_move(&self) -> (r: (Option<Pos>, Move))
        requires
            match *self {
                MoveType::Standard(o, t) => o < 64 && t < 64,
                MoveType::EnPassant(o, t) => o < 64 && t < 64,
                MoveType::Promotion(o, t, p) => o < 64 && t < 64 && p < 4,
                _ => true,
            },
        ensures
            r == match *self {
                MoveType::Standard(o, t) => (Some(Pos(o)), Move::Move(Pos(t))),
                MoveType::EnPassant(o, t) => (Some(Pos(o)), Move::EnPassant(Pos(t))),
                MoveType::Promotion(o, t, p) => (Some(Pos(o)), Move::PawnPromotion(promotion_of_code(p), Pos(t))),
                MoveType::KingsideCastle => (None, Move::KingSideCastling),
                MoveType::QueensideCastle => (None, Move::QueenSideCastling),
            },
    {
        match self {
            MoveType::Standard(o, t) => (Some(Pos::new_index(*o)), Move::Move(Pos::new_index(*t))),
            MoveType::EnPassant(o, t) => (Some(Pos::new_index(*o)), Move::EnPassant(Pos::new_index(*t))),
            MoveType::Promotion(o, t, p) => {
                let kind = match *p {
                    0 => PieceType::Knight,
                    1 => PieceType::Bishop,
                    2 => PieceType::Rook,
                    _ => PieceType::Queen,
                };
                (Some(Pos::new_index(*o)), Move::PawnPromotion(kind, Pos::new_index(*t)))
            },
            MoveType::KingsideCastle => (None, Move::KingSideCastling),
            MoveType::QueensideCastle => (None, Move::QueenSideCastling),
        }
    }
}

impl Message {
    pub fn to_bytes(&self) -> (r: Vec<u8>)
        ensures
            r@ == message_bytes(*self),
    {
        let mut bytes: Vec<u8> = vec![0u8];
        match self {
            Message::Decline => {},
            Message::Move(t) => {
                bytes.set(0, 1);
                let mut rest = t.to_bytes();
                bytes.append(&mut rest);
            },
            Message::Undo => bytes.set(0, 2),
            Message::Accept => bytes.set(0, 3),
            Message::Checkmate => bytes.set(0, 4),
            Message::Draw => bytes.set(0, 5),
            Message::Resign => bytes.set(0, 6),
        }
        assert(bytes@ =~= message_bytes(*self));
        bytes
    }

    /// Reads a message from five received bytes.
    pub fn from_bytes(bytes: [u8; 5]) -> (r: Result<Message, &'static str>)
        ensures
            r matches Ok(m) ==> message_of(bytes@) == Some(m),
            r is Err ==> message_of(bytes@) is None,
    {
        match bytes[0] {
            0 => Ok(Message::Decline),
            1 => {
                let move_bytes: [u8; 4] = [bytes[1], bytes[2], bytes[3], bytes[4]];
                assert(move_bytes@ =~= bytes@.subrange(1, 5));
                match MoveType::from_bytes(move_bytes) {
                    Ok(t) => Ok(Message::Move(t)),
                    Err(e) => Err(e),
                }
            },
            2 => Ok(Message::Undo),
            3 => Ok(Message::Accept),
            4 => Ok(Message::Checkmate),
            5 => Ok(Message::Draw),
            6 => Ok(Message::Resign),
            _ => Err("Byte is not valid message type"),
        }
    }
}

/// Decoding the bytes of a move, padded with zeros to the four bytes that are read,
/// gives the move back.
pub proof fn lemma_move_type_round_trip(m: MoveType)
    ensures
        move_type_bytes(m).len() <= 4,
        move_type_of(padded(move_type_bytes(m), 4)) == Some(m),
{
    let b = padded(move_type_bytes(m), 4);
    assert(b[0] == move_type_bytes(m)[0]);
    if move_type_bytes(m).len() > 1 {
        assert(b[1] == move_type_bytes(m)[1]);
        assert(b[2] == move_type_bytes(m)[2]);
    }
    if move_type_bytes(m).len() > 3 {
        assert(b[3] == move_type_bytes(m)[3]);
    }
}

/// Decoding the bytes of a message, padded with zeros to the five bytes that are
/// read, gives the message back.
pub proof fn lemma_message_round_trip(m: Message)
    ensures
        message_bytes(m).len() <= 5,
        message_of(padded(message_bytes(m), 5)) == Some(m),
{
    let b = padded(message_bytes(m), 5);
    assert(b[0] == message_bytes(m)[0]);
    if let Message::Move(t) = m {
        lemma_move_type_round_trip(t);
        assert(b.subrange(1, 5) =~= padded(move_type_bytes(t), 4));
    }
}

} // verus!
