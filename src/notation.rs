use vstd::prelude::*;

use crate::chess_move::Move;
use crate::color::Color;
use crate::game::{slice_contains, Game};
use crate::piece::{is_ascii_upper, type_of_char, PieceType};
use crate::pos::{square, Pos};

verus! {

/// One element of a move written in algebraic notation.
#[derive(Clone, Copy, PartialEq, Eq, Structural, Debug)]
pub enum Token {
    Piece(PieceType),
    File(u8),
    Rank(u8),
    Promotion,
}

/// How one character after the leading piece letter is read: `Err(())` for a
/// character that has no place in a move, `Ok(None)` for one that is skipped (the
/// capture mark `x`, check and mate marks, blanks), else its token.
pub open spec fn token_of_char(c: char) -> Result<Option<Token>, ()> {
    if '1' <= c && c <= '8' {
        Ok(Some(Token::Rank(((c as u32) - ('1' as u32)) as u8)))
    } else if '0' <= c && c <= '9' {
        Err(())
    } else if is_ascii_upper(c) {
        match type_of_char(c) {
            Some(t) => Ok(Some(Token::Piece(t))),
            None => Err(()),
        }
    } else if c == '=' {
        Ok(Some(Token::Promotion))
    } else if c == 'x' {
        Ok(None)
    } else if 'a' <= c && c <= 'h' {
        Ok(Some(Token::File(((c as u32) - ('a' as u32)) as u8)))
    } else if 'a' <= c && c <= 'z' {
        Err(())
    } else {
        Ok(None)
    }
}

/// The tokens of `s`, read left to right; `None` if a character has no place.
pub open spec fn tokens_of(s: Seq<char>) -> Option<Seq<Token>>
    decreases s.len(),
{
    if s.len() == 0 {
        Some(Seq::empty())
    } else {
        match (tokens_of(s.drop_last()), token_of_char(s.last())) {
            (Some(t), Ok(Some(k))) => Some(t.push(k)),
            (Some(t), Ok(None)) => Some(t),
            _ => None,
        }
    }
}

/// The piece a move names and the tokens after it: an uppercase first letter names
/// the piece, else the move is a pawn's.
pub open spec fn lex(s: Seq<char>) -> Option<(PieceType, Seq<Token>)> {
    if s.len() > 0 && is_ascii_upper(s[0]) {
        match (type_of_char(s[0]), tokens_of(s.drop_first())) {
            (Some(t), Some(k)) => Some((t, k)),
            _ => None,
        }
    } else {
        match tokens_of(s) {
            Some(k) => Some((PieceType::Pawn, k)),
            None => None,
        }
    }
}

/// What a move that cannot be read resolves to.
pub open spec fn invalid_pair() -> (Pos, Move) {
    (Pos(255), Move::Null)
}

impl Game {
    /// Square `i` holds a piece of type `t` of the side to move that may move to `to`
    /// (a pawn also by en passant), and lies on `file` and `rank` where they are given.
    pub open spec fn origin_matches(&self, i: int, t: PieceType, to: Pos, file: Option<int>, rank: Option<int>) -> bool {
        &&& 0 <= i < 64
        &&& (file matches Some(f) ==> i % 8 == f)
        &&& (rank matches Some(r) ==> i / 8 == r)
        &&& self.board_spec()[i].holds_piece(t, self.player_spec())
        &&& (self.legal_here(Pos(i as u8), Move::Move(to)) || (t == PieceType::Pawn && self.legal_here(
            Pos(i as u8),
            Move::EnPassant(to),
        )))
    }

    /// The first square, by index from `i` on, that `origin_matches`.
    pub open spec fn first_origin(&self, i: int, t: PieceType, to: Pos, file: Option<int>, rank: Option<int>) -> Option<int>
        decreases 64 - i,
    {
        if i >= 64 {
            None
        } else if self.origin_matches(i, t, to, file, rank) {
            Some(i)
        } else {
            self.first_origin(i + 1, t, to, file, rank)
        }
    }

    /// The move to `to` by the first matching piece: a plain move where it is legal,
    /// else en passant.
    pub open spec fn resolve_scan(&self, t: PieceType, to: Pos, file: Option<int>, rank: Option<int>) -> (Pos, Move) {
        match self.first_origin(0, t, to, file, rank) {
            None => invalid_pair(),
            Some(i) => (Pos(i as u8), if self.legal_here(Pos(i as u8), Move::Move(to)) {
                Move::Move(to)
            } else {
                Move::EnPassant(to)
            }),
        }
    }

    /// The origin and move that a move in algebraic notation names.
    pub open spec fn notation_result(&self, s: Seq<char>) -> (Pos, Move) {
        let home = self.player_spec().home_rank();
        if s == seq!['O', '-', 'O'] {
            (square(4, home), Move::KingSideCastling)
        } else if s == seq!['O', '-', 'O', '-', 'O'] {
            (square(4, home), Move::QueenSideCastling)
        } else {
            match lex(s) {
                None => invalid_pair(),
                Some((t, k)) => if k.len() == 2 && k[0] is File && k[1] is Rank {
                    self.resolve_scan(t, square(k[0]->File_0 as int, k[1]->Rank_0 as int), None, None)
                } else if k.len() == 3 && k[0] is File && k[1] is File && k[2] is Rank {
                    self.resolve_scan(t, square(k[1]->File_0 as int, k[2]->Rank_0 as int), Some(k[0]->File_0 as int), None)
                } else if k.len() == 3 && k[0] is Rank && k[1] is File && k[2] is Rank {
                    self.resolve_scan(t, square(k[1]->File_0 as int, k[2]->Rank_0 as int), None, Some(k[0]->Rank_0 as int))
                } else if k.len() == 4 && k[0] is File && k[1] is Rank && k[2] is Promotion && k[3] is Piece {
                    let x = k[0]->File_0 as int;
                    let y = k[1]->Rank_0 as int;
                    let fy = y - self.player_spec().forward();
                    if 0 <= fy < 8 {
                        (square(x, fy), Move::PawnPromotion(k[3]->Piece_0, square(x, y)))
                    } else {
                        invalid_pair()
                    }
                } else if k.len() == 4 && k[0] is File && k[1] is Rank && k[2] is File && k[3] is Rank {
                    let fx = k[0]->File_0 as int;
                    let x = k[2]->File_0 as int;
                    let to = square(x, k[3]->Rank_0 as int);
                    let from = square(fx, k[1]->Rank_0 as int);
                    if t == PieceType::Pawn && fx != x && !self.board_spec()[to.idx()].is_occupied() {
                        (from, Move::EnPassant(to))
                    } else {
                        (from, Move::Move(to))
                    }
                } else {
                    invalid_pair()
                },
            }
        }
    }
}

fn token_of(c: char) -> (r: Result<Option<Token>, ()>)
    ensures
        r == token_of_char(c),
{
    if '1' <= c && c <= '8' {
        Ok(Some(Token::Rank(((c as u32) - ('1' as u32)) as u8)))
    } else if '0' <= c && c <= '9' {
        Err(())
    } else if 'A' <= c && c <= 'Z' {
        match PieceType::from_char(c) {
            Some(t) => Ok(Some(Token::Piece(t))),
            None => Err(()),
        }
    } else if c == '=' {
        Ok(Some(Token::Promotion))
    } else if c == 'x' {
        Ok(None)
    } else if 'a' <= c && c <= 'h' {
        Ok(Some(Token::File(((c as u32) - ('a' as u32)) as u8)))
    } else if 'a' <= c && c <= 'z' {
        Err(())
    } else {
        Ok(None)
    }
}

/// Splits a move into the piece it names and the tokens after it.
fn lex_pgn(s: &str) -> (r: Option<(PieceType, Vec<Token>)>)
    ensures
        r matches Some((t, k)) ==> lex(s@) == Some((t, k@)),
        r is None ==> lex(s@) is None,
{
    let n = s.unicode_len();
    let mut start: usize = 0;
    let mut piece = PieceType::Pawn;
    if n > 0 {
        let first = s.get_char(0);
        if 'A' <= first && first <= 'Z' {
            match PieceType::from_char(first) {
                Some(t) => {
                    piece = t;
                },
                None => {
                    return None;
                },
            }
            start = 1;
        }
    }
    let ghost rest = s@.subrange(start as int, n as int);
    proof {
        if start == 1 {
            assert(s@.drop_first() =~= s@.subrange(1, n as int));
        } else {
            assert(s@ =~= s@.subrange(0, n as int));
        }
        assert(s@.subrange(start as int, start as int) =~= Seq::<char>::empty());
    }
    let mut tokens: Vec<Token> = Vec::new();
    let mut i: usize = start;
    while i < n
        invariant
            start <= i <= n,
            n == s@.len(),
            rest == s@.subrange(start as int, n as int),
            start == 1 ==> s@.drop_first() == s@.subrange(1, n as int),
            start == 0 ==> s@ == s@.subrange(0, n as int),
            (start == 1) == (n > 0 && is_ascii_upper(s@[0])),
            start <= 1,
            start == 1 ==> type_of_char(s@[0]) == Some(piece),
            start == 0 ==> piece == PieceType::Pawn,
            tokens_of(s@.subrange(start as int, i as int)) == Some(tokens@),
        decreases n - i,
    {
        let c = s.get_char(i);
        proof {
            assert(s@.subrange(start as int, i + 1).drop_last() =~= s@.subrange(start as int, i as int));
            assert(s@.subrange(start as int, i + 1).last() == c);
        }
        match token_of(c) {
            Err(()) => {
                proof {
                    lemma_tokens_fail(s@, start as int, i as int + 1, n as int);
                }
                return None;
            },
            Ok(None) => {},
            Ok(Some(k)) => {
                tokens.push(k);
            },
        }
        i = i + 1;
    }
    Some((piece, tokens))
}

/// Once a prefix cannot be read, neither can anything that extends it.
proof fn lemma_tokens_fail(s: Seq<char>, start: int, i: int, n: int)
    requires
        0 <= start <= i <= n,
        n == s.len(),
        tokens_of(s.subrange(start, i)) is None,
    ensures
        tokens_of(s.subrange(start, n)) is None,
    decreases n - i,
{
    if i < n {
        assert(s.subrange(start, i + 1).drop_last() =~= s.subrange(start, i));
        lemma_tokens_fail(s, start, i + 1, n);
    }
}

/// Every file and rank that a read move holds lies on the board.
proof fn lemma_tokens_bounded(s: Seq<char>)
    ensures
        tokens_of(s) matches Some(k) ==> forall|i: int|
            0 <= i < k.len() ==> (#[trigger] k[i] matches Token::File(x) ==> x < 8) && (k[i] matches Token::Rank(y) ==> y < 8),
    decreases s.len(),
{
    if s.len() > 0 {
        lemma_tokens_bounded(s.drop_last());
    }
}

pub open spec fn opt_int(o: Option<u8>) -> Option<int> {
    match o {
        Some(v) => Some(v as int),
        None => None,
    }
}

impl Game {
    /// The first piece of type `t` of the side to move, by square index and on `file`
    /// and `rank` where given, that may move to `to`.
    fn scan_origin(&self, t: PieceType, to: Pos, file: Option<u8>, rank: Option<u8>) -> (r: (Pos, Move))
        requires
            self.wf(),
            to.valid(),
        ensures
            r == self.resolve_scan(t, to, opt_int(file), opt_int(rank)),
    {
        let plain = Move::Move(to);
        let passant = Move::EnPassant(to);
        let mut i: u8 = 0;
        while i < 64
            invariant
                0 <= i <= 64,
                self.wf(),
                plain == Move::Move(to),
                passant == Move::EnPassant(to),
                self.first_origin(0, t, to, opt_int(file), opt_int(rank)) == self.first_origin(i as int, t, to, opt_int(file), opt_int(rank)),
            decreases 64 - i,
        {
            let on_file = match file {
                Some(f) => i % 8 == f,
                None => true,
            };
            let on_rank = match rank {
                Some(r) => i / 8 == r,
                None => true,
            };
            let pos = Pos::new_index(i);
            if on_file && on_rank && self.at_pos(pos).is_piece(t, self.current_color()) {
                match self.moves_for_pos(pos) {
                    Some(moves) => {
                        if slice_contains(moves, plain) {
                            return (pos, plain);
                        }
                        if t == PieceType::Pawn && slice_contains(moves, passant) {
                            return (pos, passant);
                        }
                    },
                    None => {},
                }
            }
            i = i + 1;
        }
        (Pos::invalid(), Move::Null)
    }

    /// Reads a move in algebraic notation (`e4`, `Nfd7`, `R7g5`, `e8=Q`, `e2e4`,
    /// `O-O`, `O-O-O`) and finds the square it starts from among the legal moves of
    /// the side to move. A move that cannot be read or matched gives `(Pos(255),
    /// Move::Null)`.
    pub fn parse_pgn_move(&self, pmove: &str) -> (r: (Pos, Move))
        requires
            self.wf(),
        ensures
            r == self.notation_result(pmove@),
    {
        let n = pmove.unicode_len();
        let home: u8 = match self.current_color() {
            Color::White => 0,
            Color::Black => 7,
        };
        let c0 = if n > 0 { pmove.get_char(0) } else { ' ' };
        let c1 = if n > 1 { pmove.get_char(1) } else { ' ' };
        let c2 = if n > 2 { pmove.get_char(2) } else { ' ' };
        let c3 = if n > 3 { pmove.get_char(3) } else { ' ' };
        let c4 = if n > 4 { pmove.get_char(4) } else { ' ' };
        if n == 3 && c0 == 'O' && c1 == '-' && c2 == 'O' {
            assert(pmove@ =~= seq!['O', '-', 'O']);
            return (Pos::new_xy(4, home), Move::KingSideCastling);
        }
        if n == 5 && c0 == 'O' && c1 == '-' && c2 == 'O' && c3 == '-' && c4 == 'O' {
            assert(pmove@ =~= seq!['O', '-', 'O', '-', 'O']);
            return (Pos::new_xy(4, home), Move::QueenSideCastling);
        }
        assert(pmove@ != seq!['O', '-', 'O']) by {
            if n == 3 {
                assert(pmove@[0] == c0 && pmove@[1] == c1 && pmove@[2] == c2);
            }
        }
        assert(pmove@ != seq!['O', '-', 'O', '-', 'O']) by {
            if n == 5 {
                assert(pmove@[0] == c0 && pmove@[1] == c1 && pmove@[2] == c2 && pmove@[3] == c3 && pmove@[4] == c4);
            }
        }
        let (piece, tokens) = match lex_pgn(pmove) {
            None => {
                return (Pos::invalid(), Move::Null);
            },
            Some(lexed) => lexed,
        };
        proof {
            if n > 0 && is_ascii_upper(pmove@[0]) {
                lemma_tokens_bounded(pmove@.drop_first());
            } else {
                lemma_tokens_bounded(pmove@);
            }
        }
        let k = tokens.len();
        if k == 2 {
            if let (Token::File(x), Token::Rank(y)) = (tokens[0], tokens[1]) {
                return self.scan_origin(piece, Pos::new_xy(x, y), None, None);
            }
        } else if k == 3 {
            match (tokens[0], tokens[1], tokens[2]) {
                (Token::File(fx), Token::File(x), Token::Rank(y)) => {
                    return self.scan_origin(piece, Pos::new_xy(x, y), Some(fx), None);
                },
                (Token::Rank(fy), Token::File(x), Token::Rank(y)) => {
                    return self.scan_origin(piece, Pos::new_xy(x, y), None, Some(fy));
                },
                _ => {},
            }
        } else if k == 4 {
            match (tokens[0], tokens[1], tokens[2], tokens[3]) {
                (Token::File(x), Token::Rank(y), Token::Promotion, Token::Piece(t)) => {
                    let from_y: Option<u8> = match self.current_color() {
                        Color::White => if y >= 1 { Some(y - 1) } else { None },
                        Color::Black => if y <= 6 { Some(y + 1) } else { None },
                    };
                    return match from_y {
                        Some(fy) => (Pos::new_xy(x, fy), Move::PawnPromotion(t, Pos::new_xy(x, y))),
                        None => (Pos::invalid(), Move::Null),
                    };
                },
                (Token::File(fx), Token::Rank(fy), Token::File(x), Token::Rank(y)) => {
                    let to = Pos::new_xy(x, y);
                    let from = Pos::new_xy(fx, fy);
                    if piece == PieceType::Pawn && fx != x && self.at_pos(to).is_empty() {
                        return (from, Move::EnPassant(to));
                    }
                    return (from, Move::Move(to));
                },
                _ => {},
            }
        }
        (Pos::invalid(), Move::Null)
    }
}

} // verus!
