use chess::{Board, Color, Move, ParseBoardError, PieceType, Pos, TaggedPiece};

fn check_new_board(board: &Board) {
    let exists_at_both_sides = |offset: usize, t: PieceType| {
        assert_eq!(board.at_index(offset), TaggedPiece::original(t, Color::White));
        assert_eq!(board.at_index(8 * 7 + offset), TaggedPiece::original(t, Color::Black));
        assert!(board.at_index(offset).is_original());
        assert!(board.at_index(8 * 7 + offset).is_original());
    };

    let exists_matching_at_both_sides = |offset: usize, t: PieceType| {
        exists_at_both_sides(offset, t);
        exists_at_both_sides(7 - offset, t);
    };

    for i in 0..8 {
        assert_eq!(board.at_index(8 + i), TaggedPiece::original(PieceType::Pawn, Color::White));
        assert_eq!(board.at_index(8 * 6 + i), TaggedPiece::original(PieceType::Pawn, Color::Black));
    }

    for i in 8 * 2..8 * 6 {
        assert_eq!(board.at_index(i), TaggedPiece::empty());
    }

    exists_matching_at_both_sides(0, PieceType::Rook);
    exists_matching_at_both_sides(1, PieceType::Knight);
    exists_matching_at_both_sides(2, PieceType::Bishop);
    exists_at_both_sides(3, PieceType::Queen);
    exists_at_both_sides(4, PieceType::King);
}

#[test]
fn tests_new_board() {
    check_new_board(&Board::default());
}

#[test]
fn board_tests_new_board() {
    check_new_board(&Board::new());
}

#[test]
fn board_size_errors() {
    assert!(matches!(Board::from_str(""), Err(ParseBoardError::InvalidSize)));
    let short = ". ".repeat(63);
    assert!(matches!(Board::from_str(&short), Err(ParseBoardError::InvalidSize)));
    let long = ". ".repeat(65);
    assert!(matches!(Board::from_str(&long), Err(ParseBoardError::InvalidSize)));
    let exact = ". ".repeat(64);
    assert_eq!(Board::from_str(&exact).unwrap(), Board::empty());
}

#[test]
fn board_piece_error() {
    let mut text = ". ".repeat(63);
    text.push_str("X*");
    assert!(matches!(Board::from_str(&text), Err(ParseBoardError::InvalidPiece)));
    let mut text = String::from("K* ");
    text.push_str(&"Z ".repeat(63));
    assert!(matches!(Board::from_str(&text), Err(ParseBoardError::InvalidPiece)));
}

#[test]
fn board_move_piece() {
    let mut board = Board::new();
    let from = Pos::new_xy(4, 1);
    let to = Pos::new_xy(4, 3);
    assert!(board.move_piece(from, to));
    assert!(board.at_pos(from).is_empty());
    assert_eq!(board.at_pos(to), TaggedPiece::new(PieceType::Pawn, Color::White));
    assert!(!board.at_pos(to).is_original());
    assert!(!board.move_piece(from, to));
}

#[test]
fn board_find_king() {
    let board = Board::new();
    assert_eq!(board.find_king(Color::White), Pos::new_xy(4, 0));
    assert_eq!(board.find_king(Color::Black), Pos::new_xy(4, 7));
    assert_eq!(board.find_first_of_type(PieceType::Knight, Color::Black), Some(Pos::new_xy(1, 7)));
    assert_eq!(Board::empty().find_first_of_type(PieceType::King, Color::White), None);
}

#[test]
fn board_after_move_kinds() {
    let board = Board::new();
    let after = board.after_move(Pos::new_xy(6, 0), Move::move_xy(5, 2), Color::White);
    assert_eq!(after.at_xy(5, 2), TaggedPiece::new(PieceType::Knight, Color::White));
    assert!(after.at_xy(6, 0).is_empty());
    assert_eq!(board.at_xy(6, 0), TaggedPiece::original(PieceType::Knight, Color::White));

    let text = "
        R* . . . K* . . R*
        . . . . . . . .
        . . . . . . . .
        . . . . . . . .
        . . . . . . . .
        . . . . . . . .
        . . . . . . . .
        r* . . . k* . . r*";
    let board = Board::from_str(text).unwrap();
    let k = board.after_move(Pos::new_xy(4, 0), Move::KingSideCastling, Color::White);
    assert_eq!(k.at_xy(6, 0), TaggedPiece::new(PieceType::King, Color::White));
    assert_eq!(k.at_xy(5, 0), TaggedPiece::new(PieceType::Rook, Color::White));
    assert!(k.at_xy(4, 0).is_empty() && k.at_xy(7, 0).is_empty());
    let q = board.after_move(Pos::new_xy(4, 7), Move::QueenSideCastling, Color::Black);
    assert_eq!(q.at_xy(2, 7), TaggedPiece::new(PieceType::King, Color::Black));
    assert_eq!(q.at_xy(3, 7), TaggedPiece::new(PieceType::Rook, Color::Black));
    assert!(q.at_xy(0, 7).is_empty() && q.at_xy(4, 7).is_empty());

    let text = "
        . . . . K . . .
        . . . . . . . .
        . . . . . . . .
        . . . . . . . .
        . . . P p . . .
        . . . . . . . .
        . P . . . . . .
        . . . . k . . .";
    let board = Board::from_str(text).unwrap();
    let ep = board.after_move(Pos::new_xy(3, 4), Move::EnPassant(Pos::new_xy(4, 5)), Color::White);
    assert_eq!(ep.at_xy(4, 5), TaggedPiece::new(PieceType::Pawn, Color::White));
    assert!(ep.at_xy(4, 4).is_empty());
    assert!(ep.at_xy(3, 4).is_empty());
    let promo = board.after_move(Pos::new_xy(1, 6), Move::PawnPromotion(PieceType::Knight, Pos::new_xy(1, 7)), Color::White);
    assert_eq!(promo.at_xy(1, 7), TaggedPiece::new(PieceType::Knight, Color::White));
    assert!(promo.at_xy(1, 6).is_empty());
}

#[test]
fn board_pos_in_danger() {
    let text = "
        . . . . K . . .
        . . . . . . . .
        . . . . . . . .
        . . . . . . . .
        . . . . . . . .
        . . . p . . . .
        . . . . . . . .
        r . . . k . . .";
    let board = Board::from_str(text).unwrap();
    // the black rook on a8 sweeps the eighth rank up to the king
    assert!(board.pos_in_danger(Pos::new_xy(3, 7), Color::White));
    // a black pawn on d6 strikes c5 and e5, not d5 or c7
    assert!(board.pos_in_danger(Pos::new_xy(2, 4), Color::White));
    assert!(board.pos_in_danger(Pos::new_xy(4, 4), Color::White));
    assert!(!board.pos_in_danger(Pos::new_xy(3, 4), Color::White));
    assert!(!board.pos_in_danger(Pos::new_xy(2, 6), Color::White));
    // squares of its own side are not attacked for Black
    assert!(!board.pos_in_danger(Pos::new_xy(2, 4), Color::Black));
    // the white king guards its neighbours
    assert!(board.pos_in_danger(Pos::new_xy(3, 1), Color::Black));
    assert!(!board.pos_in_danger(Pos::new_xy(3, 2), Color::Black));

    let text = "
        . . . . K . . .
        . . . . . . . .
        . . . . . . . .
        . . . N . . . .
        . . . . . . . .
        . . . . . . . .
        . . . . . . . .
        . . . . k . . .";
    let board = Board::from_str(text).unwrap();
    assert!(board.pos_in_danger(Pos::new_xy(4, 5), Color::Black));
    assert!(board.pos_in_danger(Pos::new_xy(1, 2), Color::Black));
    assert!(!board.pos_in_danger(Pos::new_xy(3, 5), Color::Black));

    let text = "
        . . . . K . . .
        . . . . . . . .
        . . . . . . . .
        . . . . . . . .
        . . . . . . . .
        . . . . . . . .
        . . . . . . . .
        b . . . k . . .";
    let board = Board::from_str(text).unwrap();
    assert!(board.pos_in_danger(Pos::new_xy(6, 1), Color::White));
    assert!(board.pos_in_danger(Pos::new_xy(7, 0), Color::White));
    assert!(!board.pos_in_danger(Pos::new_xy(7, 1), Color::White));
    // a piece on the diagonal stops the bishop
    let mut blocked = board;
    blocked.set_pos(Pos::new_xy(3, 4), TaggedPiece::new(PieceType::Pawn, Color::White));
    assert!(blocked.pos_in_danger(Pos::new_xy(3, 4), Color::White));
    assert!(!blocked.pos_in_danger(Pos::new_xy(6, 1), Color::White));
}

#[test]
fn board_text_round_trip() {
    let board = Board::new();
    let text: String = board.to_text().into_iter().collect();
    assert!(text.starts_with("R* N* B* Q* K* B* N* R*\nP* P*"));
    assert!(text.ends_with("r* n* b* q* k* b* n* r*\n"));
    let back = Board::from_str(&text).unwrap();
    assert_eq!(back, board);
    for i in 0..64 {
        assert_eq!(back.at_index(i).is_original(), board.at_index(i).is_original());
    }

    let mut moved = board;
    moved.move_piece(Pos::new_xy(4, 1), Pos::new_xy(4, 3));
    let text: String = moved.to_text().into_iter().collect();
    let back = Board::from_str(&text).unwrap();
    assert!(back.at_xy(4, 1).is_empty());
    assert_eq!(back.at_xy(4, 3), TaggedPiece::new(PieceType::Pawn, Color::White));
    assert!(!back.at_xy(4, 3).is_original());
}

#[test]
fn piece_tokens() {
    assert_eq!(TaggedPiece::empty().to_token(), vec!['.']);
    assert_eq!(TaggedPiece::original(PieceType::Queen, Color::White).to_token(), vec!['Q', '*']);
    assert_eq!(TaggedPiece::new(PieceType::Queen, Color::Black).to_token(), vec!['q']);
    let p = TaggedPiece::original(PieceType::Rook, Color::Black);
    let token: String = p.to_token().into_iter().collect();
    let back = TaggedPiece::from_str(&token).ok().unwrap();
    assert_eq!(back, p);
    assert!(back.is_original());
}

#[test]
fn board_text_unicode_blanks() {
    let tokens = [
        "R*", "N*", "B*", "Q*", "K*", "B*", "N*", "R*", "P*", "P*", "P*", "P*", "P*", "P*", "P*", "P*",
    ];
    let mut text = String::new();
    for t in tokens {
        text.push_str(t);
        text.push('\u{A0}');
    }
    for _ in 0..32 {
        text.push_str(".\u{3000}");
    }
    for t in tokens.iter().rev() {
        let lower = t.to_ascii_lowercase();
        text.push_str(&lower);
        text.push('\u{2028}');
    }
    let parsed = Board::from_str(&text);
    assert!(parsed.is_ok());
    let board = parsed.unwrap();
    assert_eq!(board.at_xy(4, 0), TaggedPiece::original(PieceType::King, Color::White));
    assert!(board.at_xy(0, 3).is_empty());
    assert_eq!(board.at_xy(4, 7), TaggedPiece::original(PieceType::Queen, Color::Black));
}
