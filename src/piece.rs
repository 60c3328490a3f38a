use vstd::prelude::*;

use crate::color::Color;

verus! {

#[derive(Clone, Copy, PartialEq, Eq, Structural, Debug)]
pub enum PieceType {
    Pawn,
    Rook,
    Knight,
    Bishop,
    Queen,
    King,
}

/// The piece type that an uppercase letter names.
pub open spec fn type_of_char(c: char) -> Option<PieceType> {
    if c == 'P' {
        Some(PieceType::Pawn)
    } else if c == 'R' {
        Some(PieceType::Rook)
    } else if c == 'N' {
        Some(PieceType::Knight)
    } else if c == 'B' {
        Some(PieceType::Bishop)
    } else if c == 'Q' {
        Some(PieceType::Queen)
    } else if c == 'K' {
        Some(PieceType::King)
    } else {
        None
    }
}

/// The uppercase letter of a piece type.
pub open spec fn letter_of(t: PieceType) -> char {
    match t {
        PieceType::Pawn => 'P',
        PieceType::Rook => 'R',
        PieceType::Knight => 'N',
        PieceType::Bishop => 'B',
        PieceType::Queen => 'Q',
        PieceType::King => 'K',
    }
}

pub open spec fn is_ascii_upper(c: char) -> bool {
    'A' <= c && c <= 'Z'
}

/// The piece type that a letter names in either case.
pub open spec fn type_of_letter(c: char) -> Option<PieceType> {
    if c == 'p' {
        Some(PieceType::Pawn)
    } else if c == 'r' {
        Some(PieceType::Rook)
    } else if c == 'n' {
        Some(PieceType::Knight)
    } else if c == 'b' {
        Some(PieceType::Bishop)
    } else if c == 'q' {
        Some(PieceType::Queen)
    } else if c == 'k' {
        Some(PieceType::King)
    } else {
        type_of_char(c)
    }
}

/// The lowercase letter of a piece type.
pub open spec fn lower_letter_of(t: PieceType) -> char {
    match t {
        PieceType::Pawn => 'p',
        PieceType::Rook => 'r',
        PieceType::Knight => 'n',
        PieceType::Bishop => 'b',
        PieceType::Queen => 'q',
        PieceType::King => 'k',
    }
}

impl PieceType {
    pub fn from_char(c: char) -> (r: Option<PieceType>)
        ensures
            r == type_of_char(c),
    {
        match c {
            'P' => Some(PieceType::Pawn),
            'R' => Some(PieceType::Rook),
            'N' => Some(PieceType::Knight),
            'B' => Some(PieceType::Bishop),
            'Q' => Some(PieceType::Queen),
            'K' => Some(PieceType::King),
            _ => None,
        }
    }

    /// Reads a piece letter in either case.
    pub fn from_letter(c: char) -> (r: Option<PieceType>)
        ensures
            r == type_of_letter(c),
    {
        match c {
            'p' => Some(PieceType::Pawn),
            'r' => Some(PieceType::Rook),
            'n' => Some(PieceType::Knight),
            'b' => Some(PieceType::Bishop),
            'q' => Some(PieceType::Queen),
            'k' => Some(PieceType::King),
            _ => PieceType::from_char(c),
        }
    }

    pub fn lower_letter(&self) -> (r: char)
        ensures
            r == lower_letter_of(*self),
    {
        match self {
            PieceType::Pawn => 'p',
            PieceType::Rook => 'r',
            PieceType::Knight => 'n',
            PieceType::Bishop => 'b',
            PieceType::Queen => 'q',
            PieceType::King => 'k',
        }
    }

    pub fn letter(&self) -> (r: char)
        ensures
            r == letter_of(*self),
    {
        match self {
            PieceType::Pawn => 'P',
            PieceType::Rook => 'R',
            PieceType::Knight => 'N',
            PieceType::Bishop => 'B',
            PieceType::Queen => 'Q',
            PieceType::King => 'K',
        }
    }
}

/// What stands on a square: nothing, or a piece with its side and whether it has
/// never moved.
#[derive(Clone, Copy, Debug)]
pub enum TaggedPiece {
    Empty,
    Occupied { kind: PieceType, color: Color, original: bool },
}

/// Two squares' contents are equal when both are empty, or both hold a piece of the
/// same type and side; whether a piece has moved does not count.
pub open spec fn same_piece(a: TaggedPiece, b: TaggedPiece) -> bool {
    match (a, b) {
        (TaggedPiece::Empty, TaggedPiece::Empty) => true,
        (
            TaggedPiece::Occupied { kind: k1, color: c1, .. },
            TaggedPiece::Occupied { kind: k2, color: c2, .. },
        ) => k1 == k2 && c1 == c2,
        _ => false,
    }
}

impl PartialEq for TaggedPiece {
    fn eq(&self, other: &TaggedPiece) -> (r: bool) {
        match (self, other) {
            (TaggedPiece::Empty, TaggedPiece::Empty) => true,
            (
                TaggedPiece::Occupied { kind: k1, color: c1, .. },
                TaggedPiece::Occupied { kind: k2, color: c2, .. },
            ) => *k1 == *k2 && *c1 == *c2,
            _ => false,
        }
    }
}

impl vstd::std_specs::cmp::PartialEqSpecImpl for TaggedPiece {
    open spec fn obeys_eq_spec() -> bool {
        true
    }

    open spec fn eq_spec(&self, other: &TaggedPiece) -> bool {
        same_piece(*self, *other)
    }
}

#[derive(Clone, Copy, PartialEq, Eq, Structural, Debug)]
pub enum ParseTaggedPieceError {
    InvalidSize,
    InvalidType,
}

/// The piece that a board token names: `.` for an empty square, a piece letter
/// (uppercase for White, lowercase for Black), and `*` after it for a piece that has
/// not moved.
pub open spec fn piece_of_token(s: Seq<char>) -> Result<TaggedPiece, ParseTaggedPieceError> {
    if s.len() == 0 || s.len() > 2 {
        Err(ParseTaggedPieceError::InvalidSize)
    } else if s == seq!['.'] {
        Ok(TaggedPiece::Empty)
    } else {
        let color = if is_ascii_upper(s[0]) {
            Color::White
        } else {
            Color::Black
        };
        match type_of_letter(s[0]) {
            None => Err(ParseTaggedPieceError::InvalidType),
            Some(kind) => if s.len() == 1 {
                Ok(TaggedPiece::Occupied { kind, color, original: false })
            } else if s[1] == '*' {
                Ok(TaggedPiece::Occupied { kind, color, original: true })
            } else {
                Err(ParseTaggedPieceError::InvalidType)
            },
        }
    }
}

/// The character that shows a square's contents: `.` when empty, else the piece's
/// letter, lowercase for Black.
pub open spec fn char_of_piece(p: TaggedPiece) -> char {
    match p {
        TaggedPiece::Empty => '.',
        TaggedPiece::Occupied { kind, color, .. } => match color {
            Color::White => letter_of(kind),
            Color::Black => lower_letter_of(kind),
        },
    }
}

/// The token that shows a square in the board text: its character, then `*` for a
/// piece that has not moved.
pub open spec fn token_of_piece(p: TaggedPiece) -> Seq<char> {
    if p.original_spec() {
        seq![char_of_piece(p), '*']
    } else {
        seq![char_of_piece(p)]
    }
}

/// Reading the token of a square's contents gives the same contents back, the unmoved
/// mark included.
pub proof fn lemma_token_round_trip(p: TaggedPiece)
    ensures
        piece_of_token(token_of_piece(p)) == Ok::<TaggedPiece, ParseTaggedPieceError>(p),
{
    let t = token_of_piece(p);
    assert(t[0] == char_of_piece(p));
    if let TaggedPiece::Occupied { kind, color, original } = p {
        assert(t != seq!['.']) by {
            assert(t[0] != '.');
        }
        if original {
            assert(t[1] == '*');
        }
    } else {
        assert(t =~= seq!['.']);
    }
}

impl TaggedPiece {
    pub open spec fn is_occupied(self) -> bool {
        self is Occupied
    }

    /// The piece holds a piece of side `c`.
    pub open spec fn holds(self, c: Color) -> bool {
        match self {
            TaggedPiece::Occupied { color, .. } => color == c,
            TaggedPiece::Empty => false,
        }
    }

    /// The square holds a piece of type `t` and side `c`.
    pub open spec fn holds_piece(self, t: PieceType, c: Color) -> bool {
        match self {
            TaggedPiece::Occupied { kind, color, .. } => kind == t && color == c,
            TaggedPiece::Empty => false,
        }
    }

    /// The piece's type, where there is one.
    pub open spec fn kind_spec(self) -> Option<PieceType> {
        match self {
            TaggedPiece::Occupied { kind, .. } => Some(kind),
            TaggedPiece::Empty => None,
        }
    }

    /// The side of the piece; an empty square counts as White.
    pub open spec fn color_spec(self) -> Color {
        match self {
            TaggedPiece::Occupied { color, .. } => color,
            TaggedPiece::Empty => Color::White,
        }
    }

    pub open spec fn original_spec(self) -> bool {
        match self {
            TaggedPiece::Occupied { original, .. } => original,
            TaggedPiece::Empty => false,
        }
    }

    pub fn empty() -> (r: TaggedPiece)
        ensures
            r == TaggedPiece::Empty,
    {
        TaggedPiece::Empty
    }

    pub fn new(kind: PieceType, color: Color) -> (r: TaggedPiece)
        ensures
            r == (TaggedPiece::Occupied { kind, color, original: false }),
    {
        TaggedPiece::Occupied { kind, color, original: false }
    }

    /// A piece that has not moved yet.
    pub fn original(kind: PieceType, color: Color) -> (r: TaggedPiece)
        ensures
            r == (TaggedPiece::Occupied { kind, color, original: true }),
    {
        TaggedPiece::Occupied { kind, color, original: true }
    }

    /// The same contents, marked as having moved.
    pub fn non_original(&self) -> (r: TaggedPiece)
        ensures
            r == self.moved(),
    {
        match self {
            TaggedPiece::Empty => TaggedPiece::Empty,
            TaggedPiece::Occupied { kind, color, .. } => TaggedPiece::Occupied {
                kind: *kind,
                color: *color,
                original: false,
            },
        }
    }

    pub open spec fn moved(self) -> TaggedPiece {
        match self {
            TaggedPiece::Empty => TaggedPiece::Empty,
            TaggedPiece::Occupied { kind, color, .. } => TaggedPiece::Occupied {
                kind,
                color,
                original: false,
            },
        }
    }

    pub fn is_empty(&self) -> (r: bool)
        ensures
            r == !self.is_occupied(),
    {
        match self {
            TaggedPiece::Empty => true,
            _ => false,
        }
    }

    pub fn is_original(&self) -> (r: bool)
        ensures
            r == self.original_spec(),
    {
        match self {
            TaggedPiece::Occupied { original, .. } => *original,
            TaggedPiece::Empty => false,
        }
    }

    pub fn get_type(&self) -> (r: PieceType)
        requires
            self.is_occupied(),
        ensures
            self.kind_spec() == Some(r),
    {
        match self {
            TaggedPiece::Occupied { kind, .. } => *kind,
            TaggedPiece::Empty => PieceType::Pawn,
        }
    }

    /// The side of the piece; White for an empty square.
    pub fn color(&self) -> (r: Color)
        ensures
            r == self.color_spec(),
    {
        match self {
            TaggedPiece::Occupied { color, .. } => *color,
            TaggedPiece::Empty => Color::White,
        }
    }

    /// The same piece on the other side; an empty square stays empty.
    pub fn opposite_color(&self) -> (r: TaggedPiece)
        ensures
            r == (match *self {
                TaggedPiece::Empty => TaggedPiece::Empty,
                TaggedPiece::Occupied { kind, color, original } => TaggedPiece::Occupied {
                    kind,
                    color: color.other(),
                    original,
                },
            }),
    {
        match self {
            TaggedPiece::Empty => TaggedPiece::Empty,
            TaggedPiece::Occupied { kind, color, original } => TaggedPiece::Occupied {
                kind: *kind,
                color: color.flip(),
                original: *original,
            },
        }
    }

    /// Whether the square holds a piece of type `t` and side `c`.
    pub fn is_piece(&self, t: PieceType, c: Color) -> (r: bool)
        ensures
            r == self.holds_piece(t, c),
    {
        match self {
            TaggedPiece::Occupied { kind, color, .. } => *kind == t && *color == c,
            TaggedPiece::Empty => false,
        }
    }

    /// The character that shows the square: `.`, or the letter, lowercase for Black.
    pub fn to_char(&self) -> (r: char)
        ensures
            r == char_of_piece(*self),
    {
        match self {
            TaggedPiece::Empty => '.',
            TaggedPiece::Occupied { kind, color, .. } => {
                match color {
                    Color::White => kind.letter(),
                    Color::Black => kind.lower_letter(),
                }
            },
        }
    }

    /// The token of the square in the board text, as `from_str` reads it.
    pub fn to_token(&self) -> (r: Vec<char>)
        ensures
            r@ == token_of_piece(*self),
    {
        let mut r: Vec<char> = Vec::new();
        r.push(self.to_char());
        if self.is_original() {
            r.push('*');
        }
        assert(r@ =~= token_of_piece(*self));
        r
    }

    /// Parses one board token.
    pub fn from_str(s: &str) -> (r: Result<TaggedPiece, ParseTaggedPieceError>)
        ensures
            r == piece_of_token(s@),
    {
        let n = s.unicode_len();
        if n == 0 || n > 2 {
            return Err(ParseTaggedPieceError::InvalidSize);
        }
        let first = s.get_char(0);
        if n == 1 && first == '.' {
            assert(s@ =~= seq!['.']);
            return Ok(TaggedPiece::Empty);
        }
        assert(s@ != seq!['.']);
        let color = if 'A' <= first && first <= 'Z' {
            Color::White
        } else {
            Color::Black
        };
        match PieceType::from_letter(first) {
            None => Err(ParseTaggedPieceError::InvalidType),
            Some(kind) => {
                if n == 1 {
                    Ok(TaggedPiece::Occupied { kind, color, original: false })
                } else if s.get_char(1) == '*' {
                    Ok(TaggedPiece::Occupied { kind, color, original: true })
                } else {
                    Err(ParseTaggedPieceError::InvalidType)
                }
            },
        }
    }
}

} // verus!
