use chess::{Ending, Message, Move, MoveType, PieceType, Pos};

fn pad<const N: usize>(bytes: &[u8]) -> [u8; N] {
    let mut out = [0u8; N];
    out[..bytes.len()].copy_from_slice(bytes);
    out
}

#[test]
fn move_type_bytes() {
    assert_eq!(MoveType::Standard(12, 28).to_bytes(), vec![0, 12, 28]);
    assert_eq!(MoveType::EnPassant(36, 43).to_bytes(), vec![1, 36, 43]);
    assert_eq!(MoveType::Promotion(48, 56, 3).to_bytes(), vec![2, 48, 56, 3]);
    assert_eq!(MoveType::KingsideCastle.to_bytes(), vec![3]);
    assert_eq!(MoveType::QueensideCastle.to_bytes(), vec![4]);
    assert!(MoveType::from_bytes([5, 0, 0, 0]).is_err());
}

#[test]
fn message_round_trip() {
    let all = [
        Message::Decline,
        Message::Move(MoveType::Standard(12, 28)),
        Message::Move(MoveType::EnPassant(36, 43)),
        Message::Move(MoveType::Promotion(48, 56, 1)),
        Message::Move(MoveType::KingsideCastle),
        Message::Move(MoveType::QueensideCastle),
        Message::Undo,
        Message::Accept,
        Message::Checkmate,
        Message::Draw,
        Message::Resign,
    ];
    for m in all {
        let bytes = m.to_bytes();
        assert!(bytes.len() <= 5);
        assert_eq!(Message::from_bytes(pad::<5>(&bytes)), Ok(m));
    }
    assert_eq!(Message::Move(MoveType::Standard(1, 2)).to_bytes(), vec![1, 0, 1, 2]);
    assert_eq!(Message::Resign.to_bytes(), vec![6]);
    assert!(Message::from_bytes([7, 0, 0, 0, 0]).is_err());
    assert!(Message::from_bytes([1, 9, 0, 0, 0]).is_err());
}

#[test]
fn move_type_to_chess_move() {
    assert_eq!(
        MoveType::Standard(12, 28).to_chess_move(),
        (Some(Pos::new_index(12)), Move::Move(Pos::new_index(28)))
    );
    assert_eq!(
        MoveType::EnPassant(36, 43).to_chess_move(),
        (Some(Pos::new_index(36)), Move::EnPassant(Pos::new_index(43)))
    );
    assert_eq!(
        MoveType::Promotion(48, 56, 0).to_chess_move(),
        (Some(Pos::new_index(48)), Move::PawnPromotion(PieceType::Knight, Pos::new_index(56)))
    );
    assert_eq!(
        MoveType::Promotion(48, 56, 3).to_chess_move(),
        (Some(Pos::new_index(48)), Move::PawnPromotion(PieceType::Queen, Pos::new_index(56)))
    );
    assert_eq!(MoveType::KingsideCastle.to_chess_move(), (None, Move::KingSideCastling));
    assert_eq!(MoveType::QueensideCastle.to_chess_move(), (None, Move::QueenSideCastling));
}

#[test]
fn ending_text() {
    assert_eq!(Ending::White.to_string(), "White Wins!");
    assert_eq!(Ending::Black.to_string(), "Black Wins!");
    assert_eq!(Ending::Tie.to_string(), "It's a Tie!");
}
