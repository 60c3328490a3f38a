use chess::{Board, Color, Game, GameResult, Move, PieceType, Pos, TaggedPiece};

fn compare_moves(lhs: &[Move], rhs: &[Move]) {
    assert_eq!(lhs.len(), rhs.len());
    if !lhs.iter().all(|a| rhs.iter().any(|b| a == b)) {
        panic!("\nlhs: {:?} does not equal \nrhs: {:?}\n", lhs, rhs);
    }
}

fn check_pawns(game: &Game, y_start: u8, y_dir: i8) {
    for x in 0..8 {
        let from = Pos::new_xy(x, y_start);
        let correct_moves = [
            Move::Move(from.move_y(y_dir).unwrap()),
            Move::Move(from.move_y(y_dir * 2).unwrap()),
        ];

        assert_eq!(game.moves_for_pos(from).unwrap(), &correct_moves);
    }
}

#[test]
fn tests_pawn_moves_new_board() {
    let mut game = Game::default();

    check_pawns(&game, 1, 1);
    game.switch_side();
    check_pawns(&game, 6, -1);
}

#[test]
fn board_tests_pawn_moves_new_board() {
    let mut game = Game::new();
    for x in 0..8 {
        let from = Pos::new_xy(x, 1);
        let correct = [Move::move_xy(x, 2), Move::move_xy(x, 3)];
        assert_eq!(game.moves_for_pos(from).unwrap(), &correct);
    }
    game.switch_side();
    for x in 0..8 {
        let from = Pos::new_xy(x, 6);
        let correct = [Move::move_xy(x, 5), Move::move_xy(x, 4)];
        assert_eq!(game.moves_for_pos(from).unwrap(), &correct);
    }
}

fn check_blocked(game: &mut Game, white: &[(u8, u8)], black: &[(u8, u8)]) {
    for &(x, y) in white {
        assert!(game.moves_for_pos(Pos::new_xy(x, y)).unwrap().is_empty());
    }
    game.switch_side();
    for &(x, y) in black {
        assert!(game.moves_for_pos(Pos::new_xy(x, y)).unwrap().is_empty());
    }
}

#[test]
fn tests_rook_moves_new_board() {
    let mut game = Game::default();
    check_blocked(&mut game, &[(0, 0), (7, 0)], &[(0, 7), (7, 7)]);
}

#[test]
fn board_tests_rook_moves_new_board() {
    let mut game = Game::new();
    check_blocked(&mut game, &[(0, 0), (7, 0)], &[(0, 7), (7, 7)]);
}

fn check_knight(game: &Game, pos: Pos, end_y: u8) {
    let move_pos = Pos::new_xy(pos.x(), end_y);
    let correct_moves = [
        Move::Move(move_pos.add_x(1).unwrap()),
        Move::Move(move_pos.sub_x(1).unwrap()),
    ];

    assert_eq!(game.moves_for_pos(pos).unwrap(), &correct_moves);
}

#[test]
fn tests_knight_moves_new_board() {
    let mut game = Game::default();

    check_knight(&game, Pos::new_xy(1, 0), 2);
    check_knight(&game, Pos::new_xy(6, 0), 2);

    game.switch_side();

    check_knight(&game, Pos::new_xy(1, 7), 5);
    check_knight(&game, Pos::new_xy(6, 7), 5);
}

#[test]
fn board_tests_knight_moves_new_board() {
    let mut game = Game::new();
    check_knight(&game, Pos::new_xy(1, 0), 2);
    check_knight(&game, Pos::new_xy(6, 0), 2);
    game.switch_side();
    check_knight(&game, Pos::new_xy(1, 7), 5);
    check_knight(&game, Pos::new_xy(6, 7), 5);
}

#[test]
fn tests_bishop_moves_new_board() {
    let mut game = Game::default();
    check_blocked(&mut game, &[(2, 0), (5, 0)], &[(2, 7), (5, 7)]);
}

#[test]
fn board_tests_bishop_moves_new_board() {
    let mut game = Game::new();
    check_blocked(&mut game, &[(2, 0), (5, 0)], &[(2, 7), (5, 7)]);
}

#[test]
fn tests_queen_moves_new_board() {
    let mut game = Game::default();
    check_blocked(&mut game, &[(3, 0)], &[(3, 7)]);
}

#[test]
fn board_tests_queen_moves_new_board() {
    let mut game = Game::new();
    check_blocked(&mut game, &[(3, 0)], &[(3, 7)]);
}

#[test]
fn tests_king_moves_new_board() {
    let mut game = Game::default();
    check_blocked(&mut game, &[(4, 0)], &[(4, 7)]);
}

#[test]
fn board_tests_king_moves_new_board() {
    let mut game = Game::new();
    check_blocked(&mut game, &[(4, 0)], &[(4, 7)]);
}

#[test]
fn initial_board_move_counts() {
    let mut game = Game::default();
    for side in 0..2 {
        for i in 0..64 {
            let piece = game.at_index(i);
            let moves = game.moves_for_pos(Pos::new_index(i as u8));
            if piece.is_empty() || piece.color() != game.current_color() {
                assert!(moves.is_none());
                continue;
            }
            let expected = match piece.get_type() {
                PieceType::Pawn | PieceType::Knight => 2,
                _ => 0,
            };
            assert_eq!(moves.unwrap().len(), expected, "side {} square {}", side, i);
        }
        game.switch_side();
    }
}

#[test]
fn test_rook_moves() {
    const BOARD_STATE: &str = "
        R* N* B* Q* K* B* N* .
        P* P* P* P* P* P* P* .
        .  .  .  .  .  .  .  .
        .  n  .  .  .  .  .  R
        p  .  .  .  .  .  .  P
        r  .  .  .  .  .  .  .
        .  p* p* p* p* p* p* p*
        .  . b* q* k* b* n* r*";

    let board = Board::from_str(BOARD_STATE).unwrap();
    let game = Game::from_board(board, Color::White);

    let correct_moves = [
        // Horizontal
        Move::move_xy(6, 3),
        Move::move_xy(5, 3),
        Move::move_xy(4, 3),
        Move::move_xy(3, 3),
        Move::move_xy(2, 3),
        Move::move_xy(1, 3),
        // Vertical
        Move::move_xy(7, 2),
        Move::move_xy(7, 1),
        Move::move_xy(7, 0),
    ];

    let moves = game.moves_for_pos(Pos::new_xy(7, 3)).unwrap();
    compare_moves(moves, &correct_moves);
}

#[test]
fn test_bishop_moves() {
    const BOARD_STATE: &str = "
        R* N* B* Q* K* B* N* R*
        P* P* P* . P* P* P* P*
        .  .  .  .  .  .  .  .
        .  .  .  P  .  .  .  .
        .  .  .  .  .  .  .  .
        n  .  .  .  .  .  .  .
        p* p* p* p* p* p* p* p*
        r* . b* q* k* b* n* r*";

    let board = Board::from_str(BOARD_STATE).unwrap();
    let game = Game::from_board(board, Color::White);

    let correct_moves = [
        Move::move_xy(3, 1),
        Move::move_xy(4, 2),
        Move::move_xy(5, 3),
        Move::move_xy(6, 4),
        Move::move_xy(7, 5),
    ];

    let moves = game.moves_for_pos(Pos::new_xy(2, 0)).unwrap();
    compare_moves(moves, &correct_moves);
}

#[test]
fn test_queen_moves() {
    const BOARD_STATE: &str = "
        R* N* B* .  K* B* N* R*
        P* P* P* P* . P* P* P*
        .  .  .  .  .  .  .  .
        .  .  .  .  P  .  .  .
        p  .  .  .  .  .  .  Q
        r  .  .  .  .  .  .  .
        .  p* p* p* p* p* p* p*
        .  n* b* q* k* b* n* r*";

    let board = Board::from_str(BOARD_STATE).unwrap();
    let game = Game::from_board(board, Color::White);

    let correct_moves = [
        // Horizontal
        Move::move_xy(6, 4),
        Move::move_xy(5, 4),
        Move::move_xy(4, 4),
        Move::move_xy(3, 4),
        Move::move_xy(2, 4),
        Move::move_xy(1, 4),
        Move::move_xy(0, 4),
        // Vertical
        Move::move_xy(7, 3),
        Move::move_xy(7, 2),
        Move::move_xy(7, 5),
        Move::move_xy(7, 6),
        // Diag
        Move::move_xy(6, 5),
        Move::move_xy(5, 6),
        Move::move_xy(6, 3),
        Move::move_xy(5, 2),
        Move::move_xy(4, 1),
        Move::move_xy(3, 0),
    ];

    let moves = game.moves_for_pos(Pos::new_xy(7, 4)).unwrap();
    compare_moves(moves, &correct_moves)
}

#[test]
fn test_king_moves() {
    const BOARD_STATE: &str = "
        R* N* B* Q* .  B* N* R*
        P* P* P* P* K  P* P* P*
        .  .  .  .  .  .  .  .
        .  .  .  .  P  .  .  .
        .  .  .  .  .  .  .  .
        n  .  .  p  .  .  .  .
        p* p* p* .  p* p* p* p*
        r* .  b* q* k* b* n* r*";

    let board = Board::from_str(BOARD_STATE).unwrap();
    let game = Game::from_board(board, Color::White);

    let correct_moves = [
        Move::move_xy(4, 0),
        Move::move_xy(3, 2),
        Move::move_xy(5, 2),
        Move::move_xy(4, 2),
    ];

    let moves = game.moves_for_pos(Pos::new_xy(4, 1)).unwrap();
    compare_moves(moves, &correct_moves);
}

const WHOLE_GAME: &str = "
        e4 e6 d4 d5 Nd2 Nf6 e5 Nfd7 f4 c5 c3 Nc6 Ndf3 cxd4 cxd4 f6 Bd3 Bb4+ Bd2
        Qb6 Ne2 fxe5 fxe5 O-O a3 Be7 Qc2 Rxf3 gxf3 Nxd4 Nxd4 Qxd4 O-O-O Nxe5 Bxh7+
        Kh8 Kb1 Qh4 Bc3 Bf6 f4 Nc4 Bxf6 Qxf6 Bd3 b5 Qe2 Bd7 Rhg1 Be8 Rde1 Bf7 Rg3
        Rc8 Reg1 Nd6 Rxg7 Nf5 R7g5 Rc7 Bxf5 exf5 Rh5+ Bxh5 Qxh5+ Qh6 Qxh6+ Rh7 Qf8#";

#[test]
fn tests_test_with_whole_game() {
    let mut game = Game::default();
    let moves = WHOLE_GAME.trim().split_whitespace();

    let mut mated = false;
    for (i, str_move) in moves.enumerate() {
        let (from, actual_move) = game.parse_pgn_move(str_move);
        assert_ne!(actual_move, Move::Null);

        let result = game.play(from, actual_move);
        assert_ne!(result, GameResult::InvalidMove, "move {} {}", i, str_move);
        if result == GameResult::Checkmate {
            assert_eq!(game.current_color(), Color::Black);
            assert_eq!(i, 68);
            mated = true;
            break;
        }
    }
    assert!(mated);
}

#[test]
fn invalid_moves_leave_game_unchanged() {
    let mut game = Game::default();
    assert_eq!(game.play(Pos::new_xy(4, 1), Move::Null), GameResult::InvalidMove);
    assert_eq!(game.play(Pos::new_xy(4, 3), Move::move_xy(4, 4)), GameResult::InvalidMove);
    assert_eq!(game.play(Pos::new_xy(4, 6), Move::move_xy(4, 4)), GameResult::InvalidMove);
    assert_eq!(game.play(Pos::new_xy(4, 1), Move::move_xy(4, 4)), GameResult::InvalidMove);
    assert_eq!(game.current_color(), Color::White);
    assert_eq!(game.board(), &Board::default());
    assert!(!game.undo());
}

#[test]
fn play_and_undo() {
    let mut game = Game::default();
    assert_eq!(game.play_xy(4, 1, Move::move_xy(4, 3)), GameResult::Played);
    assert_eq!(game.current_color(), Color::Black);
    assert_eq!(game.at_xy(4, 3), TaggedPiece::new(PieceType::Pawn, Color::White));
    assert!(game.at_xy(4, 1).is_empty());
    assert!(game.moves_for_pos(Pos::new_xy(4, 3)).is_none());
    assert!(game.undo());
    assert_eq!(game.current_color(), Color::White);
    assert_eq!(game.board(), &Board::default());
    assert!(game.at_xy(4, 1).is_original());
    assert_eq!(game.moves_for_pos(Pos::new_xy(4, 1)).unwrap().len(), 2);
    assert!(!game.undo());
}

#[test]
fn fools_mate() {
    let mut game = Game::default();
    for m in ["f3", "e5", "g4"] {
        let (from, mv) = game.parse_pgn_move(m);
        assert_eq!(game.play(from, mv), GameResult::Played);
    }
    let (from, mv) = game.parse_pgn_move("Qh4");
    assert_eq!(from, Pos::new_xy(3, 7));
    assert_eq!(game.play(from, mv), GameResult::Checkmate);
    assert!(game.is_king_in_danger());
    assert_eq!(game.current_color(), Color::White);
}

#[test]
fn stalemate() {
    const BOARD_STATE: &str = "
        .  .  .  .  .  .  .  .
        .  .  .  .  .  .  .  .
        .  .  .  .  .  .  .  .
        .  .  .  .  .  .  .  .
        .  .  .  .  .  .  .  .
        .  .  .  .  .  K  .  .
        .  .  .  .  .  .  Q  .
        .  .  .  .  .  .  .  k";
    // White to move: Qg7 is already adjacent; move the queen to g6 for stalemate.
    let board = Board::from_str(BOARD_STATE).unwrap();
    let mut game = Game::from_board(board, Color::White);
    assert_eq!(game.play_xy(6, 6, Move::move_xy(6, 5)), GameResult::Stalemate);
    assert!(!game.is_king_in_danger());
}

const CASTLING_BOARD: &str = "
        R* .  .  .  K* .  .  R*
        P* P* P* .  .  P* P* P*
        .  .  .  .  .  .  .  .
        .  .  .  .  .  .  .  .
        .  .  .  .  .  .  .  .
        .  .  .  .  .  .  .  .
        p* p* p* .  .  p* p* p*
        r* .  .  .  k* .  .  r*";

fn has(game: &Game, from: Pos, m: Move) -> bool {
    game.moves_for_pos(from).map_or(false, |ms| ms.contains(&m))
}

#[test]
fn castling_allowed() {
    let board = Board::from_str(CASTLING_BOARD).unwrap();
    let mut game = Game::from_board(board, Color::White);
    let king = Pos::new_xy(4, 0);
    assert!(has(&game, king, Move::KingSideCastling));
    assert!(has(&game, king, Move::QueenSideCastling));
    assert_eq!(game.play(king, Move::KingSideCastling), GameResult::Played);
    assert_eq!(game.at_xy(6, 0), TaggedPiece::new(PieceType::King, Color::White));
    assert_eq!(game.at_xy(5, 0), TaggedPiece::new(PieceType::Rook, Color::White));
    assert!(has(&game, Pos::new_xy(4, 7), Move::QueenSideCastling));
    assert_eq!(game.parse_pgn_move("O-O-O"), (Pos::new_xy(4, 7), Move::QueenSideCastling));
}

#[test]
fn castling_rejected_after_king_moved() {
    let text = CASTLING_BOARD.replacen("K*", "K", 1);
    let game = Game::from_board(Board::from_str(&text).unwrap(), Color::White);
    let king = Pos::new_xy(4, 0);
    assert!(!has(&game, king, Move::KingSideCastling));
    assert!(!has(&game, king, Move::QueenSideCastling));
}

#[test]
fn castling_rejected_after_rook_moved() {
    let board = Board::from_str(CASTLING_BOARD).unwrap();
    let mut game = Game::from_board(board, Color::White);
    assert_eq!(game.play_xy(7, 0, Move::move_xy(6, 0)), GameResult::Played);
    assert_eq!(game.play_xy(0, 6, Move::move_xy(0, 5)), GameResult::Played);
    assert_eq!(game.play_xy(6, 0, Move::move_xy(7, 0)), GameResult::Played);
    assert_eq!(game.play_xy(0, 5, Move::move_xy(0, 4)), GameResult::Played);
    let king = Pos::new_xy(4, 0);
    assert!(!has(&game, king, Move::KingSideCastling));
    assert!(has(&game, king, Move::QueenSideCastling));
}

#[test]
fn castling_rejected_when_blocked() {
    let text = CASTLING_BOARD.replacen("R* .  .  .  K* .  .  R*", "R* N  .  .  K* .  B  R*", 1);
    let game = Game::from_board(Board::from_str(&text).unwrap(), Color::White);
    let king = Pos::new_xy(4, 0);
    assert!(!has(&game, king, Move::KingSideCastling));
    assert!(!has(&game, king, Move::QueenSideCastling));
}

#[test]
fn castling_rejected_through_attack() {
    // a black rook on the f-file covers f1, which the king would cross
    let text = CASTLING_BOARD.replacen("P* P* P* .  .  P* P* P*", "P* P* P* .  .  .  P* P*", 1)
        .replacen("p* p* p* .  .  p* p* p*", "p* p* p* .  .  r  p* p*", 1);
    let game = Game::from_board(Board::from_str(&text).unwrap(), Color::White);
    let king = Pos::new_xy(4, 0);
    assert!(!has(&game, king, Move::KingSideCastling));
    assert!(has(&game, king, Move::QueenSideCastling));
}

#[test]
fn castling_rejected_in_check() {
    // a black rook on the e-file checks the king on its starting square
    let text = CASTLING_BOARD.replacen("p* p* p* .  .  p* p* p*", "p* p* p* .  r  p* p* p*", 1);
    let game = Game::from_board(Board::from_str(&text).unwrap(), Color::White);
    let king = Pos::new_xy(4, 0);
    assert!(!has(&game, king, Move::KingSideCastling));
    assert!(!has(&game, king, Move::QueenSideCastling));
}

#[test]
fn en_passant_offered_then_gone() {
    let mut game = Game::default();
    for m in ["e4", "a6", "e5", "d5"] {
        let (from, mv) = game.parse_pgn_move(m);
        assert_eq!(game.play(from, mv), GameResult::Played, "{}", m);
    }
    let pawn = Pos::new_xy(4, 4);
    let capture = Move::EnPassant(Pos::new_xy(3, 5));
    assert!(has(&game, pawn, capture));
    assert_eq!(game.parse_pgn_move("exd6"), (pawn, capture));

    // a different move is played instead: the chance is gone on the next turn
    let (from, mv) = game.parse_pgn_move("h3");
    assert_eq!(game.play(from, mv), GameResult::Played);
    let (from, mv) = game.parse_pgn_move("h6");
    assert_eq!(game.play(from, mv), GameResult::Played);
    assert!(!has(&game, pawn, capture));
}

#[test]
fn en_passant_capture_removes_pawn() {
    let mut game = Game::default();
    for m in ["e4", "a6", "e5", "f5"] {
        let (from, mv) = game.parse_pgn_move(m);
        assert_eq!(game.play(from, mv), GameResult::Played, "{}", m);
    }
    let (from, mv) = game.parse_pgn_move("exf6");
    assert_eq!(mv, Move::EnPassant(Pos::new_xy(5, 5)));
    assert_eq!(game.play(from, mv), GameResult::Played);
    assert!(game.at_xy(5, 4).is_empty());
    assert_eq!(game.at_xy(5, 5), TaggedPiece::new(PieceType::Pawn, Color::White));
}

#[test]
fn en_passant_needs_a_double_advance() {
    let mut game = Game::default();
    for m in ["e4", "d6", "e5", "d5"] {
        let (from, mv) = game.parse_pgn_move(m);
        assert_eq!(game.play(from, mv), GameResult::Played, "{}", m);
    }
    assert!(!has(&game, Pos::new_xy(4, 4), Move::EnPassant(Pos::new_xy(3, 5))));
}

#[test]
fn promotion() {
    const BOARD_STATE: &str = "
        .  .  .  .  K  .  .  .
        .  .  .  .  .  .  .  .
        .  .  .  .  .  .  .  .
        .  .  .  .  .  .  .  .
        .  .  .  .  .  .  .  .
        .  .  .  .  .  .  .  .
        P  .  .  .  .  .  .  .
        .  n  .  .  .  .  .  k";
    let board = Board::from_str(BOARD_STATE).unwrap();
    let mut game = Game::from_board(board, Color::White);
    let pawn = Pos::new_xy(0, 6);
    let expected = [
        Move::PawnPromotion(PieceType::Queen, Pos::new_xy(0, 7)),
        Move::PawnPromotion(PieceType::Knight, Pos::new_xy(0, 7)),
        Move::PawnPromotion(PieceType::Bishop, Pos::new_xy(0, 7)),
        Move::PawnPromotion(PieceType::Rook, Pos::new_xy(0, 7)),
        Move::PawnPromotion(PieceType::Queen, Pos::new_xy(1, 7)),
        Move::PawnPromotion(PieceType::Knight, Pos::new_xy(1, 7)),
        Move::PawnPromotion(PieceType::Bishop, Pos::new_xy(1, 7)),
        Move::PawnPromotion(PieceType::Rook, Pos::new_xy(1, 7)),
    ];
    compare_moves(game.moves_for_pos(pawn).unwrap(), &expected);
    let (from, mv) = game.parse_pgn_move("a8=N");
    assert_eq!((from, mv), (pawn, Move::PawnPromotion(PieceType::Knight, Pos::new_xy(0, 7))));
    assert_eq!(game.play(from, mv), GameResult::Played);
    assert_eq!(game.at_xy(0, 7), TaggedPiece::new(PieceType::Knight, Color::White));
}

#[test]
fn pinned_piece_cannot_move() {
    const BOARD_STATE: &str = "
        .  .  .  .  K  .  .  .
        .  .  .  .  N  .  .  .
        .  .  .  .  .  .  .  .
        .  .  .  .  .  .  .  .
        .  .  .  .  .  .  .  .
        .  .  .  .  .  .  .  .
        .  .  .  .  r  .  .  .
        .  .  .  .  .  .  .  k";
    let game = Game::from_board(Board::from_str(BOARD_STATE).unwrap(), Color::White);
    assert!(game.moves_for_pos(Pos::new_xy(4, 1)).unwrap().is_empty());
    assert!(!game.is_king_in_danger());
}

#[test]
fn notation_errors() {
    let game = Game::default();
    let invalid = (Pos::invalid(), Move::Null);
    assert_eq!(game.parse_pgn_move(""), invalid);
    assert_eq!(game.parse_pgn_move("e5"), invalid);
    assert_eq!(game.parse_pgn_move("Xe4"), invalid);
    assert_eq!(game.parse_pgn_move("z4"), invalid);
    assert_eq!(game.parse_pgn_move("e9"), invalid);
    assert_eq!(game.parse_pgn_move("Ke2e3e4"), invalid);
    assert_eq!(game.parse_pgn_move("Nf3"), (Pos::new_xy(6, 0), Move::move_xy(5, 2)));
    assert_eq!(game.parse_pgn_move("e2e4"), (Pos::new_xy(4, 1), Move::move_xy(4, 3)));
    assert_eq!(game.parse_pgn_move("O-O"), (Pos::new_xy(4, 0), Move::KingSideCastling));
}

#[test]
fn lists_hold_each_move_once() {
    const BOARD_STATE: &str = "
        R* N* B* .  K* B* N* R*
        P* P* P* P* . P* P* P*
        .  .  .  .  .  .  .  .
        .  .  .  .  P  .  .  .
        p  .  .  .  .  .  .  Q
        r  .  .  .  .  .  .  .
        .  p* p* p* p* p* p* p*
        .  n* b* q* k* b* n* r*";
    let game = Game::from_board(Board::from_str(BOARD_STATE).unwrap(), Color::White);
    for i in 0..64u8 {
        if let Some(moves) = game.moves_for_pos(Pos::new_index(i)) {
            for a in 0..moves.len() {
                for b in a + 1..moves.len() {
                    assert_ne!(moves[a], moves[b]);
                }
            }
        }
    }
    // the queen lists its diagonals first, nearest square first on each ray
    let queen = game.moves_for_pos(Pos::new_xy(7, 4)).unwrap();
    assert_eq!(queen.len(), 17);
    assert_eq!(queen[0], Move::move_xy(6, 3));
    assert_eq!(queen[1], Move::move_xy(5, 2));
}
