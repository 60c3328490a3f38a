use vstd::prelude::*;

use crate::chess_move::Move;
use crate::color::Color;
use crate::piece::{
    lemma_token_round_trip, piece_of_token, same_piece, token_of_piece, ParseTaggedPieceError,
    PieceType, TaggedPiece,
};
use crate::pos::{offset, on_board, square, Pos};
use crate::rules::{at, attacked, blocker, blocker_from, first_from, first_of, knight_threat, ray_threat};

verus! {

/// The 64 squares of a chess board, indexed by `x + 8 * y`.
#[derive(Clone, Copy, Debug)]
pub struct Board {
    squares: [TaggedPiece; 64],
}

impl View for Board {
    type V = Seq<TaggedPiece>;

    closed spec fn view(&self) -> Seq<TaggedPiece> {
        self.squares@
    }
}

/// The piece that starts on file `x` of the back rank.
pub open spec fn back_rank_type(x: int) -> PieceType {
    if x == 0 || x == 7 {
        PieceType::Rook
    } else if x == 1 || x == 6 {
        PieceType::Knight
    } else if x == 2 || x == 5 {
        PieceType::Bishop
    } else if x == 3 {
        PieceType::Queen
    } else {
        PieceType::King
    }
}

/// What stands on square `i` when a game starts: unmoved pieces on ranks 0 and 1
/// for White and 7 and 6 for Black, every other square empty.
pub open spec fn initial_piece(i: int) -> TaggedPiece {
    let x = i % 8;
    let y = i / 8;
    if y == 0 {
        TaggedPiece::Occupied { kind: back_rank_type(x), color: Color::White, original: true }
    } else if y == 1 {
        TaggedPiece::Occupied { kind: PieceType::Pawn, color: Color::White, original: true }
    } else if y == 6 {
        TaggedPiece::Occupied { kind: PieceType::Pawn, color: Color::Black, original: true }
    } else if y == 7 {
        TaggedPiece::Occupied { kind: back_rank_type(x), color: Color::Black, original: true }
    } else {
        TaggedPiece::Empty
    }
}

pub open spec fn initial_layout() -> Seq<TaggedPiece> {
    Seq::new(64, |i: int| initial_piece(i))
}

/// The board after the piece on `from` goes to `to`, marked as moved; nothing
/// changes when `from` is empty.
pub open spec fn moved_piece(b: Seq<TaggedPiece>, from: int, to: int) -> Seq<TaggedPiece> {
    if !b[from].is_occupied() {
        b
    } else {
        b.update(to, b[from].moved()).update(from, TaggedPiece::Empty)
    }
}

/// The squares that a move of side `color` from `from` names are on the board, and
/// it is not the null move.
pub open spec fn applicable(from: Pos, m: Move, color: Color) -> bool {
    match m {
        Move::Null => false,
        Move::Move(to) => from.valid() && to.valid(),
        Move::EnPassant(to) => from.valid() && to.valid() && on_board(
            to.sx(),
            to.sy() - color.forward(),
        ),
        Move::PawnPromotion(_, to) => from.valid() && to.valid(),
        _ => true,
    }
}

/// The board after side `color` plays `m` from `from`.
pub open spec fn after_move_spec(b: Seq<TaggedPiece>, from: Pos, m: Move, color: Color) -> Seq<
    TaggedPiece,
> {
    let y = color.home_rank();
    match m {
        Move::Move(to) => moved_piece(b, from.idx(), to.idx()),
        Move::KingSideCastling => moved_piece(
            moved_piece(b, 7 + 8 * y, 5 + 8 * y),
            4 + 8 * y,
            6 + 8 * y,
        ),
        Move::QueenSideCastling => moved_piece(moved_piece(b, 8 * y, 3 + 8 * y), 4 + 8 * y, 2 + 8 * y),
        Move::PawnPromotion(kind, to) => moved_piece(b, from.idx(), to.idx()).update(
            to.idx(),
            TaggedPiece::Occupied { kind, color, original: false },
        ),
        Move::EnPassant(to) => moved_piece(b, from.idx(), to.idx()).update(
            to.idx() - 8 * color.forward(),
            TaggedPiece::Empty,
        ),
        Move::Null => b,
    }
}

/// A blank that separates the tokens of a board: a character with the Unicode
/// White_Space property.
pub open spec fn is_blank(c: char) -> bool {
    ('\u{09}' <= c && c <= '\u{0D}') || c == ' ' || c == '\u{85}' || c == '\u{A0}' || c == '\u{1680}'
        || ('\u{2000}' <= c && c <= '\u{200A}') || c == '\u{2028}' || c == '\u{2029}' || c == '\u{202F}'
        || c == '\u{205F}' || c == '\u{3000}'
}

/// The blank-separated words of `s`, left to right.
pub open spec fn words(s: Seq<char>) -> Seq<Seq<char>>
    decreases s.len(),
{
    if s.len() == 0 {
        Seq::empty()
    } else if is_blank(s.last()) {
        words(s.drop_last())
    } else if s.len() >= 2 && !is_blank(s[s.len() - 2]) {
        let w = words(s.drop_last());
        w.update(w.len() - 1, w.last().push(s.last()))
    } else {
        words(s.drop_last()).push(seq![s.last()])
    }
}

/// The board that a list of tokens describes, row by row from White's side.
pub open spec fn board_of_tokens(tokens: Seq<Seq<char>>) -> Result<Seq<TaggedPiece>, ParseBoardError> {
    if tokens.len() != 64 {
        Err(ParseBoardError::InvalidSize)
    } else if exists|i: int| 0 <= i < 64 && (#[trigger] piece_of_token(tokens[i])) is Err {
        Err(ParseBoardError::InvalidPiece)
    } else {
        Ok(Seq::new(64, |i: int| piece_of_token(tokens[i])->Ok_0))
    }
}

#[derive(Clone, Copy, PartialEq, Eq, Structural, Debug)]
pub enum ParseBoardError {
    InvalidSize,
    InvalidPiece,
}

pub open spec fn same_board(a: Seq<TaggedPiece>, b: Seq<TaggedPiece>) -> bool {
    forall|i: int| 0 <= i < 64 ==> same_piece(#[trigger] a[i], b[i])
}

impl PartialEq for Board {
    fn eq(&self, other: &Board) -> (r: bool) {
        let mut i: usize = 0;
        while i < 64
            invariant
                0 <= i <= 64,
                self@.len() == 64,
                other@.len() == 64,
                forall|j: int| 0 <= j < i ==> same_piece(#[trigger] self@[j], other@[j]),
            decreases 64 - i,
        {
            if !(self.squares[i] == other.squares[i]) {
                return false;
            }
            i = i + 1;
        }
        true
    }
}

impl vstd::std_specs::cmp::PartialEqSpecImpl for Board {
    open spec fn obeys_eq_spec() -> bool {
        true
    }

    open spec fn eq_spec(&self, other: &Board) -> bool {
        same_board(self@, other@)
    }
}

impl Default for Board {
    fn default() -> (r: Board)
        ensures
            r@ == initial_layout(),
    {
        Board::new()
    }
}

fn initial_piece_at(i: usize) -> (r: TaggedPiece)
    requires
        i < 64,
    ensures
        r == initial_piece(i as int),
{
    let x = i % 8;
    let y = i / 8;
    let kind = if x == 0 || x == 7 {
        PieceType::Rook
    } else if x == 1 || x == 6 {
        PieceType::Knight
    } else if x == 2 || x == 5 {
        PieceType::Bishop
    } else if x == 3 {
        PieceType::Queen
    } else {
        PieceType::King
    };
    if y == 0 {
        TaggedPiece::original(kind, Color::White)
    } else if y == 1 {
        TaggedPiece::original(PieceType::Pawn, Color::White)
    } else if y == 6 {
        TaggedPiece::original(PieceType::Pawn, Color::Black)
    } else if y == 7 {
        TaggedPiece::original(kind, Color::Black)
    } else {
        TaggedPiece::empty()
    }
}

/// A step of `d`, one of -1, 0 and 1, taken `k` times.
pub proof fn lemma_unit_step(d: int, k: int)
    requires
        -1 <= d <= 1,
    ensures
        d * k == (if d == 1 {
            k
        } else if d == -1 {
            -k
        } else {
            0
        }),
{
    assert(d * k == (if d == 1 {
        k
    } else if d == -1 {
        -k
    } else {
        0
    })) by (nonlinear_arith)
        requires
            -1 <= d <= 1,
    ;
}

impl Board {
    pub proof fn lemma_len(&self)
        ensures
            self@.len() == 64,
    {
    }

    /// A board with no pieces.
    pub fn empty() -> (r: Board)
        ensures
            r@ == Seq::new(64, |i: int| TaggedPiece::Empty),
    {
        let mut r = Board { squares: [TaggedPiece::Empty; 64] };
        let mut i: usize = 0;
        while i < 64
            invariant
                0 <= i <= 64,
                r@.len() == 64,
                forall|j: int| 0 <= j < i ==> r@[j] == TaggedPiece::Empty,
            decreases 64 - i,
        {
            r.squares[i] = TaggedPiece::Empty;
            i = i + 1;
        }
        assert(r@ =~= Seq::new(64, |i: int| TaggedPiece::Empty));
        r
    }

    /// The board on which a game starts.
    pub fn new() -> (r: Board)
        ensures
            r@ == initial_layout(),
    {
        let mut b = Board::empty();
        let mut i: usize = 0;
        while i < 64
            invariant
                0 <= i <= 64,
                b@.len() == 64,
                forall|j: int| 0 <= j < i ==> b@[j] == initial_piece(j),
            decreases 64 - i,
        {
            b.squares[i] = initial_piece_at(i);
            i = i + 1;
        }
        assert(b@ =~= initial_layout());
        b
    }

    pub fn set_pos(&mut self, pos: Pos, piece: TaggedPiece)
        requires
            pos.valid(),
        ensures
            final(self)@ == old(self)@.update(pos.idx(), piece),
    {
        self.squares[pos.index()] = piece;
    }

    pub fn at_pos(&self, pos: Pos) -> (r: TaggedPiece)
        requires
            pos.valid(),
        ensures
            r == self@[pos.idx()],
    {
        self.squares[pos.index()]
    }

    pub fn at_xy(&self, x: u8, y: u8) -> (r: TaggedPiece)
        requires
            x < 8,
            y < 8,
        ensures
            r == at(self@, x as int, y as int),
    {
        self.at_pos(Pos::new_xy(x, y))
    }

    pub fn at_index(&self, i: usize) -> (r: TaggedPiece)
        requires
            i < 64,
        ensures
            r == self@[i as int],
    {
        self.squares[i]
    }

    /// Moves the piece on `from` to `to`, marked as moved; returns false, changing
    /// nothing, when `from` is empty.
    pub fn move_piece(&mut self, from: Pos, to: Pos) -> (r: bool)
        requires
            from.valid(),
            to.valid(),
        ensures
            r == old(self)@[from.idx()].is_occupied(),
            final(self)@ == moved_piece(old(self)@, from.idx(), to.idx()),
    {
        let piece = self.at_pos(from);
        if piece.is_empty() {
            return false;
        }
        self.set_pos(to, piece.non_original());
        self.set_pos(from, TaggedPiece::empty());
        true
    }

    /// The first square, by index, that holds a piece of type `t` and side `c`.
    pub fn find_first_of_type(&self, t: PieceType, c: Color) -> (r: Option<Pos>)
        ensures
            r matches Some(p) ==> p.valid() && first_of(self@, t, c) == Some(p.idx()),
            r is None ==> first_of(self@, t, c) is None,
    {
        let mut i: usize = 0;
        while i < 64
            invariant
                0 <= i <= 64,
                self@.len() == 64,
                first_of(self@, t, c) == first_from(self@, t, c, i as int),
            decreases 64 - i,
        {
            if self.squares[i].is_piece(t, c) {
                return Some(Pos::new_index(i as u8));
            }
            i = i + 1;
        }
        None
    }

    /// The square of the king of side `c`, which must be on the board.
    pub fn find_king(&self, c: Color) -> (r: Pos)
        requires
            first_of(self@, PieceType::King, c) is Some,
        ensures
            r.valid(),
            Some(r.idx()) == first_of(self@, PieceType::King, c),
    {
        match self.find_first_of_type(PieceType::King, c) {
            Some(p) => p,
            None => Pos::invalid(),
        }
    }

    /// The board after side `color` plays `m` from `from`; `self` is left as it is.
    pub fn after_move(&self, from: Pos, m: Move, color: Color) -> (r: Board)
        requires
            applicable(from, m, color),
        ensures
            r@ == after_move_spec(self@, from, m, color),
    {
        let mut board = *self;
        let y: u8 = match color {
            Color::White => 0,
            Color::Black => 7,
        };
        match m {
            Move::Move(to) => {
                board.move_piece(from, to);
            },
            Move::KingSideCastling => {
                board.move_piece(Pos::new_xy(7, y), Pos::new_xy(5, y));
                board.move_piece(Pos::new_xy(4, y), Pos::new_xy(6, y));
            },
            Move::QueenSideCastling => {
                board.move_piece(Pos::new_xy(0, y), Pos::new_xy(3, y));
                board.move_piece(Pos::new_xy(4, y), Pos::new_xy(2, y));
            },
            Move::PawnPromotion(kind, to) => {
                board.move_piece(from, to);
                board.set_pos(to, TaggedPiece::new(kind, color));
            },
            Move::EnPassant(to) => {
                board.move_piece(from, to);
                let (x, ty) = to.xy();
                let ry: u8 = match color {
                    Color::White => ty - 1,
                    Color::Black => ty + 1,
                };
                board.set_pos(Pos::new_xy(x, ry), TaggedPiece::empty());
            },
            Move::Null => {},
        }
        board
    }

    /// Distance along `(dx, dy)` from `pos` to the first occupied or off-board square.
    fn first_blocker(&self, pos: Pos, dx: i8, dy: i8) -> (r: i8)
        requires
            pos.valid(),
            -1 <= dx <= 1,
            -1 <= dy <= 1,
            dx != 0 || dy != 0,
        ensures
            1 <= r <= 8,
            r == blocker(self@, pos.sx(), pos.sy(), dx as int, dy as int),
    {
        let mut k: i8 = 1;
        while k < 8
            invariant
                1 <= k <= 8,
                pos.valid(),
                -1 <= dx <= 1,
                -1 <= dy <= 1,
                dx != 0 || dy != 0,
                self@.len() == 64,
                blocker(self@, pos.sx(), pos.sy(), dx as int, dy as int) == blocker_from(
                    self@,
                    pos.sx(),
                    pos.sy(),
                    dx as int,
                    dy as int,
                    k as int,
                ),
            decreases 8 - k,
        {
            proof {
                lemma_unit_step(dx as int, k as int);
                lemma_unit_step(dy as int, k as int);
            }
            match pos.move_xy(dx * k, dy * k) {
                None => {
                    return k;
                },
                Some(p) => {
                    if !self.squares[p.index()].is_empty() {
                        return k;
                    }
                },
            }
            k = k + 1;
        }
        k
    }

    /// Whether the first piece along `(dx, dy)` from `pos` is an enemy of `color`
    /// that strikes `pos` along that line.
    fn ray_threatens(&self, pos: Pos, dx: i8, dy: i8, color: Color) -> (r: bool)
        requires
            pos.valid(),
            -1 <= dx <= 1,
            -1 <= dy <= 1,
            dx != 0 || dy != 0,
        ensures
            r == ray_threat(self@, pos, dx as int, dy as int, color),
    {
        let k = self.first_blocker(pos, dx, dy);
        proof {
            lemma_unit_step(dx as int, k as int);
            lemma_unit_step(dy as int, k as int);
        }
        let hit = match pos.move_xy(dx * k, dy * k) {
            None => {
                return false;
            },
            Some(p) => p,
        };
        let piece = self.squares[hit.index()];
        match piece {
            TaggedPiece::Empty => false,
            TaggedPiece::Occupied { kind, color: c, .. } => {
                if c == color {
                    false
                } else if dx != 0 && dy != 0 {
                    kind == PieceType::Bishop || kind == PieceType::Queen || (k == 1 && (kind
                        == PieceType::King || (kind == PieceType::Pawn && match color {
                        Color::White => dy == 1,
                        Color::Black => dy == -1,
                    })))
                } else {
                    kind == PieceType::Rook || kind == PieceType::Queen || (k == 1 && kind
                        == PieceType::King)
                }
            },
        }
    }

    /// Whether an enemy knight of `color` stands at offset `(dx, dy)` from `pos`.
    fn knight_threatens(&self, pos: Pos, dx: i8, dy: i8, color: Color) -> (r: bool)
        requires
            pos.valid(),
            -2 <= dx <= 2,
            -2 <= dy <= 2,
        ensures
            r == knight_threat(self@, pos, dx as int, dy as int, color),
    {
        match pos.move_xy(dx, dy) {
            None => false,
            Some(p) => match self.squares[p.index()] {
                TaggedPiece::Empty => false,
                TaggedPiece::Occupied { kind, color: c, .. } => c != color && kind
                    == PieceType::Knight,
            },
        }
    }

    /// Whether `pos` is attacked by a piece of the enemy of `color`.
    pub fn pos_in_danger(&self, pos: Pos, color: Color) -> (r: bool)
        requires
            pos.valid(),
        ensures
            r == attacked(self@, pos, color),
    {
        self.ray_threatens(pos, 1, 1, color) || self.ray_threatens(pos, -1, 1, color)
            || self.ray_threatens(pos, 1, -1, color) || self.ray_threatens(pos, -1, -1, color)
            || self.ray_threatens(pos, 1, 0, color) || self.ray_threatens(pos, 0, 1, color)
            || self.ray_threatens(pos, -1, 0, color) || self.ray_threatens(pos, 0, -1, color)
            || self.knight_threatens(pos, 2, 1, color) || self.knight_threatens(pos, 1, 2, color)
            || self.knight_threatens(pos, 2, -1, color) || self.knight_threatens(pos, 1, -2, color)
            || self.knight_threatens(pos, -2, -1, color) || self.knight_threatens(
            pos,
            -1,
            -2,
            color,
        ) || self.knight_threatens(pos, -2, 1, color) || self.knight_threatens(pos, -1, 2, color)
    }
}

fn blank(c: char) -> (r: bool)
    ensures
        r == is_blank(c),
{
    ('\u{09}' <= c && c <= '\u{0D}') || c == ' ' || c == '\u{85}' || c == '\u{A0}' || c == '\u{1680}'
        || ('\u{2000}' <= c && c <= '\u{200A}') || c == '\u{2028}' || c == '\u{2029}' || c == '\u{202F}'
        || c == '\u{205F}' || c == '\u{3000}'
}

pub open spec fn span_words(s: Seq<char>, spans: Seq<(usize, usize)>) -> Seq<Seq<char>> {
    spans.map_values(|p: (usize, usize)| s.subrange(p.0 as int, p.1 as int))
}

/// The start and end of each blank-separated word of `s`.
fn word_spans(s: &str) -> (r: Vec<(usize, usize)>)
    ensures
        span_words(s@, r@) == words(s@),
        forall|j: int| 0 <= j < r@.len() ==> (#[trigger] r@[j]).0 <= r@[j].1 <= s@.len(),
{
    let n = s.unicode_len();
    let mut spans: Vec<(usize, usize)> = Vec::new();
    let mut in_word = false;
    let mut word_start: usize = 0;
    let mut i: usize = 0;
    proof {
        assert(s@.subrange(0, 0) =~= Seq::<char>::empty());
        assert(span_words(s@, spans@) =~= Seq::empty());
    }
    while i < n
        invariant
            0 <= i <= n,
            n == s@.len(),
            word_start <= i,
            in_word == (i > 0 && !is_blank(s@[i - 1])),
            in_word ==> forall|j: int| word_start <= j < i ==> !is_blank(#[trigger] s@[j]),
            in_word ==> word_start < i && (word_start == 0 || is_blank(s@[word_start - 1])),
            forall|j: int| 0 <= j < spans@.len() ==> (#[trigger] spans@[j]).0 <= spans@[j].1 <= i,
            words(s@.subrange(0, i as int)) == if in_word {
                span_words(s@, spans@).push(s@.subrange(word_start as int, i as int))
            } else {
                span_words(s@, spans@)
            },
        decreases n - i,
    {
        let c = s.get_char(i);
        let ghost pre = s@.subrange(0, i as int);
        let ghost next = s@.subrange(0, i + 1);
        proof {
            assert(next.drop_last() =~= pre);
            assert(next.last() == c);
            if i > 0 {
                assert(next[next.len() - 2] == s@[i - 1]);
            }
        }
        if blank(c) {
            if in_word {
                let ghost before = span_words(s@, spans@);
                spans.push((word_start, i));
                proof {
                    assert(span_words(s@, spans@) =~= before.push(s@.subrange(word_start as int, i as int)));
                }
            }
            in_word = false;
        } else {
            if in_word {
                proof {
                    assert(s@.subrange(word_start as int, i + 1) =~= s@.subrange(word_start as int, i as int).push(c));
                }
            } else {
                word_start = i;
                proof {
                    assert(s@.subrange(word_start as int, i + 1) =~= seq![c]);
                }
            }
            in_word = true;
        }
        i = i + 1;
    }
    if in_word {
        let ghost before = span_words(s@, spans@);
        spans.push((word_start, n));
        proof {
            assert(span_words(s@, spans@) =~= before.push(s@.subrange(word_start as int, n as int)));
        }
    }
    proof {
        assert(s@.subrange(0, n as int) =~= s@);
    }
    spans
}

impl Board {
    /// Reads a board written as 64 blank-separated tokens, row by row from White's
    /// side (see `TaggedPiece::from_str` for a token).
    pub fn from_str(s: &str) -> (r: Result<Board, ParseBoardError>)
        ensures
            r matches Ok(b) ==> board_of_tokens(words(s@)) == Ok::<Seq<TaggedPiece>, ParseBoardError>(b@),
            r matches Err(e) ==> board_of_tokens(words(s@)) == Err::<Seq<TaggedPiece>, ParseBoardError>(e),
    {
        let spans = word_spans(s);
        let ghost toks = words(s@);
        if spans.len() != 64 {
            return Err(ParseBoardError::InvalidSize);
        }
        let mut board = Board::empty();
        let mut i: usize = 0;
        while i < 64
            invariant
                0 <= i <= 64,
                spans@.len() == 64,
                toks == words(s@),
                toks == span_words(s@, spans@),
                forall|j: int| 0 <= j < spans@.len() ==> (#[trigger] spans@[j]).0 <= spans@[j].1 <= s@.len(),
                board@.len() == 64,
                forall|j: int| 0 <= j < i ==> (#[trigger] piece_of_token(toks[j])) == Ok::<TaggedPiece, ParseTaggedPieceError>(board@[j]),
            decreases 64 - i,
        {
            let (a, e) = spans[i];
            let word = s.substring_char(a, e);
            assert(word@ == toks[i as int]);
            match TaggedPiece::from_str(word) {
                Ok(p) => {
                    board.squares[i] = p;
                },
                Err(_) => {
                    return Err(ParseBoardError::InvalidPiece);
                },
            }
            i = i + 1;
        }
        proof {
            assert(!exists|j: int| 0 <= j < 64 && (#[trigger] piece_of_token(toks[j])) is Err);
            assert(board@ =~= Seq::new(64, |j: int| piece_of_token(toks[j])->Ok_0));
        }
        Ok(board)
    }
}

/// The blank after square `i` in the board text: a line break after each row.
pub open spec fn separator(i: int) -> char {
    if i % 8 == 7 {
        '\n'
    } else {
        ' '
    }
}

/// The text of the first `n` squares: each square's token followed by its blank.
pub open spec fn text_upto(b: Seq<TaggedPiece>, n: int) -> Seq<char>
    decreases n,
{
    if n <= 0 {
        Seq::empty()
    } else {
        text_upto(b, n - 1) + token_of_piece(b[n - 1]) + seq![separator(n - 1)]
    }
}

pub open spec fn board_text(b: Seq<TaggedPiece>) -> Seq<char> {
    text_upto(b, 64)
}

/// A word written after a blank, and closed by one, is the next word of the text.
proof fn lemma_words_append(s: Seq<char>, w: Seq<char>, k: int)
    requires
        s.len() == 0 || is_blank(s.last()),
        1 <= k <= w.len(),
        forall|i: int| 0 <= i < w.len() ==> !is_blank(#[trigger] w[i]),
    ensures
        words(s + w.subrange(0, k)) == words(s).push(w.subrange(0, k)),
    decreases k,
{
    let t = s + w.subrange(0, k);
    assert(t.drop_last() =~= s + w.subrange(0, k - 1));
    assert(t.last() == w[k - 1]);
    if k == 1 {
        assert(w.subrange(0, 1) =~= seq![w[0]]);
        assert(s + w.subrange(0, 0) =~= s);
        if t.len() >= 2 {
            assert(t[t.len() - 2] == s.last());
        }
    } else {
        lemma_words_append(s, w, k - 1);
        assert(t[t.len() - 2] == w[k - 2]);
        let prev = words(s).push(w.subrange(0, k - 1));
        assert(w.subrange(0, k - 1).push(w[k - 1]) =~= w.subrange(0, k));
        assert(prev.last() == w.subrange(0, k - 1));
        assert(prev.update(prev.len() - 1, prev.last().push(w[k - 1])) =~= words(s).push(w.subrange(0, k)));
    }
}

proof fn lemma_text_words(b: Seq<TaggedPiece>, n: int)
    requires
        0 <= n <= b.len(),
    ensures
        words(text_upto(b, n)) =~= Seq::new(n as nat, |i: int| token_of_piece(b[i])),
        n == 0 || is_blank(text_upto(b, n).last()),
    decreases n,
{
    if n > 0 {
        lemma_text_words(b, n - 1);
        let s = text_upto(b, n - 1);
        let w = token_of_piece(b[n - 1]);
        assert forall|i: int| 0 <= i < w.len() implies !is_blank(#[trigger] w[i]) by {
            if b[n - 1].original_spec() {
                assert(i == 0 || i == 1);
            }
        }
        lemma_words_append(s, w, w.len() as int);
        assert(w.subrange(0, w.len() as int) =~= w);
        let t = s + w;
        assert((t + seq![separator(n - 1)]).drop_last() =~= t);
        assert(text_upto(b, n) == t + seq![separator(n - 1)]);
    }
}

/// Reading the text of a board gives the board back, unmoved marks included.
pub proof fn lemma_board_text_round_trip(b: Seq<TaggedPiece>)
    requires
        b.len() == 64,
    ensures
        board_of_tokens(words(board_text(b))) == Ok::<Seq<TaggedPiece>, ParseBoardError>(b),
{
    lemma_text_words(b, 64);
    let toks = words(board_text(b));
    assert forall|i: int| 0 <= i < 64 implies (#[trigger] piece_of_token(toks[i])) == Ok::<TaggedPiece, ParseTaggedPieceError>(b[i]) by {
        lemma_token_round_trip(b[i]);
    }
    assert(Seq::new(64, |i: int| piece_of_token(toks[i])->Ok_0) =~= b);
}

impl Board {
    /// The board as text that `from_str` reads back: each square's token, row by row
    /// from White's side, eight to a line.
    pub fn to_text(&self) -> (r: Vec<char>)
        ensures
            r@ == board_text(self@),
    {
        let mut r: Vec<char> = Vec::new();
        let mut i: usize = 0;
        while i < 64
            invariant
                0 <= i <= 64,
                self@.len() == 64,
                r@ == text_upto(self@, i as int),
            decreases 64 - i,
        {
            let token = self.squares[i].to_token();
            let mut j: usize = 0;
            let ghost start = r@;
            while j < token.len()
                invariant
                    0 <= j <= token@.len(),
                    r@ == start + token@.subrange(0, j as int),
                decreases token@.len() - j,
            {
                r.push(token[j]);
                j = j + 1;
                assert(r@ =~= start + token@.subrange(0, j as int));
            }
            r.push(if i % 8 == 7 { '\n' } else { ' ' });
            assert(token@.subrange(0, token@.len() as int) =~= token@);
            assert(r@ =~= text_upto(self@, i as int + 1));
            i = i + 1;
        }
        r
    }
}

} // verus!
