use chess::{Board, Color, ParseTaggedPieceError, PieceType, TaggedPiece};

fn all_types() -> [PieceType; 6] {
    [
        PieceType::Pawn,
        PieceType::Rook,
        PieceType::Knight,
        PieceType::Bishop,
        PieceType::Queen,
        PieceType::King,
    ]
}

#[test]
fn flip() {
    let color = Color::White;
    assert_eq!(color.flip(), Color::Black);
    assert_eq!(color.flip().flip(), Color::White);
}

#[test]
fn piece_empty() {
    let empty = TaggedPiece::empty();
    assert!(empty.is_empty());
    assert!(!empty.is_original());
}

#[test]
fn tests_empty() {
    let empty = TaggedPiece::empty();
    assert!(empty.is_empty());
    assert_eq!(empty.to_char(), '.');
}

fn piece_type_persists(t: PieceType) {
    assert_eq!(TaggedPiece::original(t, Color::White).get_type(), t);
    assert_eq!(TaggedPiece::original(t, Color::Black).get_type(), t);
}

fn color_persists(t: PieceType) {
    assert_eq!(TaggedPiece::original(t, Color::White).color(), Color::White);
    assert_eq!(TaggedPiece::original(t, Color::Black).color(), Color::Black);
}

#[test]
fn piece_get_type() {
    for t in all_types() {
        piece_type_persists(t);
    }
}

#[test]
fn tests_get_type() {
    for t in all_types() {
        piece_type_persists(t);
        assert_eq!(TaggedPiece::new(t, Color::Black).get_type(), t);
    }
}

#[test]
fn piece_get_color() {
    for t in all_types() {
        color_persists(t);
    }
}

#[test]
fn tests_get_color() {
    for t in all_types() {
        color_persists(t);
        assert_eq!(TaggedPiece::new(t, Color::Black).color(), Color::Black);
    }
}

fn test_original(s: &str, piece: PieceType) {
    assert_eq!(
        TaggedPiece::from_str(s).ok().unwrap(),
        TaggedPiece::original(piece, Color::White)
    );
    assert!(TaggedPiece::from_str(s).ok().unwrap().is_original());

    assert_eq!(
        TaggedPiece::from_str(&s.to_ascii_lowercase()).ok().unwrap(),
        TaggedPiece::original(piece, Color::Black)
    );
}

fn test_non_original(s: &str, piece: PieceType) {
    assert_eq!(
        TaggedPiece::from_str(s).ok().unwrap(),
        TaggedPiece::new(piece, Color::White)
    );
    assert!(!TaggedPiece::from_str(s).ok().unwrap().is_original());

    assert_eq!(
        TaggedPiece::from_str(&s.to_ascii_lowercase()).ok().unwrap(),
        TaggedPiece::new(piece, Color::Black)
    );
}

#[test]
fn tests_from_str() {
    const DEFAULT_BOARD: &str = "
        R* N* B* Q* K* B* N* R*
        P* P* P* P* P* P* P* P*
        .  .  .  .  .  .  .  .
        .  .  .  .  .  .  .  .
        .  .  .  .  .  .  .  .
        .  .  .  .  .  .  .  .
        p* p* p* p* p* p* p* p*
        r* n* b* q* k* b* n* r*";

    let default = Board::default();
    let from_str = Board::from_str(DEFAULT_BOARD);

    assert_eq!(default, from_str.unwrap());

    assert_eq!(
        TaggedPiece::from_str(".").ok().unwrap(),
        TaggedPiece::empty()
    );

    test_original("P*", PieceType::Pawn);
    test_original("R*", PieceType::Rook);
    test_original("N*", PieceType::Knight);
    test_original("B*", PieceType::Bishop);
    test_original("Q*", PieceType::Queen);
    test_original("K*", PieceType::King);

    test_non_original("P", PieceType::Pawn);
    test_non_original("R", PieceType::Rook);
    test_non_original("N", PieceType::Knight);
    test_non_original("B", PieceType::Bishop);
    test_non_original("Q", PieceType::Queen);
    test_non_original("K", PieceType::King);
}

#[test]
fn piece_from_str_errors() {
    assert!(matches!(TaggedPiece::from_str(""), Err(ParseTaggedPieceError::InvalidSize)));
    assert!(matches!(TaggedPiece::from_str("P**"), Err(ParseTaggedPieceError::InvalidSize)));
    assert!(matches!(TaggedPiece::from_str("X"), Err(ParseTaggedPieceError::InvalidType)));
    assert!(matches!(TaggedPiece::from_str("P+"), Err(ParseTaggedPieceError::InvalidType)));
    assert!(matches!(TaggedPiece::from_str(".*"), Err(ParseTaggedPieceError::InvalidType)));
}

#[test]
fn piece_equality_ignores_unmoved_mark() {
    for t in all_types() {
        for c in [Color::White, Color::Black] {
            let piece = TaggedPiece::original(t, c);
            assert_eq!(piece, piece.non_original());
            assert!(piece.is_original());
            assert!(!piece.non_original().is_original());
            assert_eq!(piece.non_original().get_type(), t);
            assert_eq!(piece.non_original().color(), c);
        }
    }
    assert_ne!(
        TaggedPiece::new(PieceType::Rook, Color::White),
        TaggedPiece::new(PieceType::Rook, Color::Black)
    );
    assert_ne!(
        TaggedPiece::new(PieceType::Rook, Color::White),
        TaggedPiece::new(PieceType::Queen, Color::White)
    );
    assert_ne!(TaggedPiece::empty(), TaggedPiece::new(PieceType::Pawn, Color::White));
}

#[test]
fn piece_letters() {
    assert_eq!(TaggedPiece::new(PieceType::Knight, Color::White).to_char(), 'N');
    assert_eq!(TaggedPiece::new(PieceType::Knight, Color::Black).to_char(), 'n');
    assert_eq!(TaggedPiece::original(PieceType::King, Color::Black).to_char(), 'k');
    assert_eq!(PieceType::from_char('Q'), Some(PieceType::Queen));
    assert_eq!(PieceType::from_char('q'), None);
    assert_eq!(
        TaggedPiece::new(PieceType::Bishop, Color::White).opposite_color(),
        TaggedPiece::new(PieceType::Bishop, Color::Black)
    );
}
