use vstd::prelude::*;

use crate::board::after_move_spec;
use crate::chess_move::Move;
use crate::color::Color;
use crate::piece::{PieceType, TaggedPiece};
use crate::pos::{abs, offset, on_board, square, Pos};

verus! {

/// The contents of the square at `(x, y)`.
pub open spec fn at(b: Seq<TaggedPiece>, x: int, y: int) -> TaggedPiece {
    b[x + 8 * y]
}

/// Distance, counted from `k`, to the first square along direction `(dx, dy)` from
/// `(x, y)` that is occupied or off the board.
pub open spec fn blocker_from(b: Seq<TaggedPiece>, x: int, y: int, dx: int, dy: int, k: int) -> int
    decreases 8 - k,
{
    if k >= 8 || !on_board(x + dx * k, y + dy * k) || at(b, x + dx * k, y + dy * k).is_occupied() {
        k
    } else {
        blocker_from(b, x, y, dx, dy, k + 1)
    }
}

/// Distance to the first occupied (or off-board) square along `(dx, dy)` from `(x, y)`.
pub open spec fn blocker(b: Seq<TaggedPiece>, x: int, y: int, dx: int, dy: int) -> int {
    blocker_from(b, x, y, dx, dy, 1)
}

/// The first piece along `(dx, dy)` from `p` belongs to the enemy of `color` and can
/// strike back along that line: a bishop or queen on a diagonal, a rook or queen on
/// a straight line, and at distance one a king, or on a diagonal a pawn that moves
/// towards `p`.
pub open spec fn ray_threat(b: Seq<TaggedPiece>, p: Pos, dx: int, dy: int, color: Color) -> bool {
    let k = blocker(b, p.sx(), p.sy(), dx, dy);
    let tx = p.sx() + dx * k;
    let ty = p.sy() + dy * k;
    let diagonal = dx != 0 && dy != 0;
    on_board(tx, ty) && match at(b, tx, ty) {
        TaggedPiece::Empty => false,
        TaggedPiece::Occupied { kind, color: c, .. } => c != color && if diagonal {
            kind == PieceType::Bishop || kind == PieceType::Queen || (k == 1 && (kind
                == PieceType::King || (kind == PieceType::Pawn && dy == color.forward())))
        } else {
            kind == PieceType::Rook || kind == PieceType::Queen || (k == 1 && kind
                == PieceType::King)
        },
    }
}

/// An enemy knight stands at offset `(dx, dy)` from `p`.
pub open spec fn knight_threat(b: Seq<TaggedPiece>, p: Pos, dx: int, dy: int, color: Color) -> bool {
    let tx = p.sx() + dx;
    let ty = p.sy() + dy;
    on_board(tx, ty) && match at(b, tx, ty) {
        TaggedPiece::Empty => false,
        TaggedPiece::Occupied { kind, color: c, .. } => c != color && kind == PieceType::Knight,
    }
}

/// Square `p` is attacked by a piece of the enemy of `color`.
pub open spec fn attacked(b: Seq<TaggedPiece>, p: Pos, color: Color) -> bool {
    ray_threat(b, p, 1, 1, color) || ray_threat(b, p, -1, 1, color) || ray_threat(b, p, 1, -1, color)
        || ray_threat(b, p, -1, -1, color) || ray_threat(b, p, 1, 0, color) || ray_threat(
        b,
        p,
        0,
        1,
        color,
    ) || ray_threat(b, p, -1, 0, color) || ray_threat(b, p, 0, -1, color) || knight_threat(
        b,
        p,
        2,
        1,
        color,
    ) || knight_threat(b, p, 1, 2, color) || knight_threat(b, p, 2, -1, color) || knight_threat(
        b,
        p,
        1,
        -2,
        color,
    ) || knight_threat(b, p, -2, -1, color) || knight_threat(b, p, -1, -2, color)
        || knight_threat(b, p, -2, 1, color) || knight_threat(b, p, -1, 2, color)
}

/// The lowest index, from `i` on, of a square holding a piece of type `t` and side `c`.
pub open spec fn first_from(b: Seq<TaggedPiece>, t: PieceType, c: Color, i: int) -> Option<int>
    decreases 64 - i,
{
    if i >= 64 {
        None
    } else if b[i].holds_piece(t, c) {
        Some(i)
    } else {
        first_from(b, t, c, i + 1)
    }
}

/// The lowest index of a square holding a piece of type `t` and side `c`.
pub open spec fn first_of(b: Seq<TaggedPiece>, t: PieceType, c: Color) -> Option<int> {
    first_from(b, t, c, 0)
}

/// The square holds a piece of the enemy of `color`.
pub open spec fn enemy(p: TaggedPiece, color: Color) -> bool {
    p.is_occupied() && !p.holds(color)
}

/// The number of steps of `(dx, dy)` that lead from `from` to `to`, read off the
/// axis along which the direction moves.
pub open spec fn steps(from: Pos, to: Pos, dx: int, dy: int) -> int {
    if dx != 0 {
        (to.sx() - from.sx()) * dx
    } else {
        (to.sy() - from.sy()) * dy
    }
}

/// A sliding piece of `color` on `from` may go to `to` along `(dx, dy)`: every square
/// before `to` is empty, and `to` does not hold a piece of its own side.
pub open spec fn slide(b: Seq<TaggedPiece>, from: Pos, to: Pos, dx: int, dy: int, color: Color) -> bool {
    let k = steps(from, to, dx, dy);
    &&& to.valid()
    &&& k >= 1
    &&& to.sx() == from.sx() + dx * k
    &&& to.sy() == from.sy() + dy * k
    &&& k <= blocker(b, from.sx(), from.sy(), dx, dy)
    &&& !b[to.idx()].holds(color)
}

pub open spec fn straight_move(b: Seq<TaggedPiece>, from: Pos, m: Move, color: Color) -> bool {
    match m {
        Move::Move(to) => slide(b, from, to, 1, 0, color) || slide(b, from, to, -1, 0, color)
            || slide(b, from, to, 0, 1, color) || slide(b, from, to, 0, -1, color),
        _ => false,
    }
}

pub open spec fn diagonal_move(b: Seq<TaggedPiece>, from: Pos, m: Move, color: Color) -> bool {
    match m {
        Move::Move(to) => slide(b, from, to, 1, 1, color) || slide(b, from, to, -1, 1, color)
            || slide(b, from, to, 1, -1, color) || slide(b, from, to, -1, -1, color),
        _ => false,
    }
}

/// A single step of `(dx, dy)` from `from` onto a square without a piece of `color`.
pub open spec fn step(b: Seq<TaggedPiece>, from: Pos, to: Pos, dx: int, dy: int, color: Color) -> bool {
    offset(from, dx, dy) == Some(to) && !b[to.idx()].holds(color)
}

pub open spec fn knight_move(b: Seq<TaggedPiece>, from: Pos, m: Move, color: Color) -> bool {
    match m {
        Move::Move(to) => {
            let dx = to.sx() - from.sx();
            let dy = to.sy() - from.sy();
            &&& to.valid()
            &&& (abs(dx) == 1 && abs(dy) == 2) || (abs(dx) == 2 && abs(dy) == 1)
            &&& !b[to.idx()].holds(color)
        },
        _ => false,
    }
}

pub open spec fn king_step(b: Seq<TaggedPiece>, from: Pos, m: Move, color: Color) -> bool {
    match m {
        Move::Move(to) => {
            let dx = to.sx() - from.sx();
            let dy = to.sy() - from.sy();
            &&& to.valid()
            &&& abs(dx) <= 1 && abs(dy) <= 1
            &&& to != from
            &&& !b[to.idx()].holds(color)
        },
        _ => false,
    }
}

/// The board with the king of `color` taken off its home square.
pub open spec fn without_home_king(b: Seq<TaggedPiece>, color: Color) -> Seq<TaggedPiece> {
    b.update(4 + 8 * color.home_rank(), TaggedPiece::Empty)
}

/// Square `x` of the home rank of `color` is attacked once the king has left it.
pub open spec fn home_square_attacked(b: Seq<TaggedPiece>, x: int, color: Color) -> bool {
    attacked(without_home_king(b, color), square(x, color.home_rank()), color)
}

/// Castling of `color` from `from`: king and rook have not moved, the squares
/// between them are empty, and none of the squares that the king stands on, passes
/// or reaches is attacked with the king off the board.
pub open spec fn castle_move(b: Seq<TaggedPiece>, from: Pos, m: Move, color: Color) -> bool {
    let y = color.home_rank();
    let king = TaggedPiece::Occupied { kind: PieceType::King, color, original: true };
    let rook = TaggedPiece::Occupied { kind: PieceType::Rook, color, original: true };
    from == square(4, y) && b[from.idx()] == king && match m {
        Move::KingSideCastling => {
            &&& at(b, 7, y) == rook
            &&& !at(b, 5, y).is_occupied()
            &&& !at(b, 6, y).is_occupied()
            &&& !home_square_attacked(b, 4, color)
            &&& !home_square_attacked(b, 5, color)
            &&& !home_square_attacked(b, 6, color)
        },
        Move::QueenSideCastling => {
            &&& at(b, 0, y) == rook
            &&& !at(b, 1, y).is_occupied()
            &&& !at(b, 2, y).is_occupied()
            &&& !at(b, 3, y).is_occupied()
            &&& !home_square_attacked(b, 4, color)
            &&& !home_square_attacked(b, 3, color)
            &&& !home_square_attacked(b, 2, color)
        },
        _ => false,
    }
}

pub open spec fn promotion_type(t: PieceType) -> bool {
    t == PieceType::Queen || t == PieceType::Knight || t == PieceType::Bishop || t
        == PieceType::Rook
}

/// The last move played was a pawn of the enemy of `color` advancing two squares
/// from `(x, y + 2 * forward)` to `(x, y)`.
pub open spec fn double_advance_to(
    b: Seq<TaggedPiece>,
    last: Option<(Pos, Move)>,
    x: int,
    y: int,
    color: Color,
) -> bool {
    match last {
        Some((lfrom, Move::Move(lto))) => {
            &&& lfrom.valid()
            &&& lto.valid()
            &&& lto.sx() == x
            &&& lto.sy() == y
            &&& lfrom.sx() == x
            &&& lfrom.sy() == y + 2 * color.forward()
            &&& b[lto.idx()].holds_piece(PieceType::Pawn, color.other())
        },
        _ => false,
    }
}

/// The moves of a pawn of `color` on `from`, given the last move played.
pub open spec fn pawn_move(
    b: Seq<TaggedPiece>,
    last: Option<(Pos, Move)>,
    from: Pos,
    m: Move,
    color: Color,
) -> bool {
    let f = color.forward();
    let fx = from.sx();
    let fy = from.sy();
    match m {
        Move::Move(to) => to.valid() && !(to.sy() == 0 || to.sy() == 7) && (
        // one square forward
        (to.sx() == fx && to.sy() == fy + f && !b[to.idx()].is_occupied())
        // two squares forward from the pawn's starting rank
         || (fy == color.home_rank() + f && to.sx() == fx && to.sy() == fy + 2 * f && !at(
            b,
            fx,
            fy + f,
        ).is_occupied() && !b[to.idx()].is_occupied())
        // capture
         || (abs(to.sx() - fx) == 1 && to.sy() == fy + f && enemy(b[to.idx()], color))),
        Move::PawnPromotion(t, to) => to.valid() && promotion_type(t) && (to.sy() == 0 || to.sy()
            == 7) && to.sy() == fy + f && ((to.sx() == fx && !b[to.idx()].is_occupied()) || (abs(
            to.sx() - fx,
        ) == 1 && enemy(b[to.idx()], color))),
        Move::EnPassant(to) => to.valid() && abs(to.sx() - fx) == 1 && to.sy() == fy + f
            && !b[to.idx()].is_occupied() && double_advance_to(b, last, to.sx(), fy, color),
        _ => false,
    }
}

/// A move that the piece of `color` on `from` may make by its own rules of movement,
/// before checking the safety of its king.
pub open spec fn pseudo_legal(
    b: Seq<TaggedPiece>,
    last: Option<(Pos, Move)>,
    from: Pos,
    m: Move,
    color: Color,
) -> bool {
    from.valid() && match b[from.idx()] {
        TaggedPiece::Empty => false,
        TaggedPiece::Occupied { kind, color: c, .. } => c == color && match kind {
            PieceType::Pawn => pawn_move(b, last, from, m, color),
            PieceType::Rook => straight_move(b, from, m, color),
            PieceType::Knight => knight_move(b, from, m, color),
            PieceType::Bishop => diagonal_move(b, from, m, color),
            PieceType::Queen => diagonal_move(b, from, m, color) || straight_move(b, from, m, color),
            PieceType::King => king_step(b, from, m, color) || castle_move(b, from, m, color),
        },
    }
}

/// Where the king of `color` stands after the move: the move's destination when the
/// king itself moves, else `king`.
pub open spec fn king_after(b: Seq<TaggedPiece>, from: Pos, m: Move, color: Color, king: Option<Pos>) -> Option<Pos> {
    if b[from.idx()].holds_piece(PieceType::King, color) {
        match m {
            Move::Move(to) => Some(to),
            Move::KingSideCastling => Some(square(6, color.home_rank())),
            Move::QueenSideCastling => Some(square(2, color.home_rank())),
            _ => king,
        }
    } else {
        king
    }
}

/// After the move, the king of `color` (if it has one) is not attacked.
pub open spec fn safe(b: Seq<TaggedPiece>, from: Pos, m: Move, color: Color, king: Option<Pos>) -> bool {
    match king_after(b, from, m, color, king) {
        None => true,
        Some(k) => !attacked(after_move_spec(b, from, m, color), k, color),
    }
}

/// A fully legal move: allowed by the piece's movement and leaving its king safe.
pub open spec fn legal(
    b: Seq<TaggedPiece>,
    last: Option<(Pos, Move)>,
    king: Option<Pos>,
    from: Pos,
    m: Move,
    color: Color,
) -> bool {
    pseudo_legal(b, last, from, m, color) && safe(b, from, m, color, king)
}

/// Side `color` has at least one legal move.
pub open spec fn has_legal_move(
    b: Seq<TaggedPiece>,
    last: Option<(Pos, Move)>,
    king: Option<Pos>,
    color: Color,
) -> bool {
    exists|p: Pos, m: Move| legal(b, last, king, p, m, color)
}

/// The king of `color`, where it has one, is attacked.
pub open spec fn in_check(b: Seq<TaggedPiece>, king: Option<Pos>, color: Color) -> bool {
    match king {
        Some(k) => attacked(b, k, color),
        None => false,
    }
}

/// The cached lists hold, for each square with a piece of `color`, its legal moves in
/// the order of `piece_seq`, and nothing for any other square.
pub open spec fn lists_exact(
    entries: Seq<Option<Seq<Move>>>,
    b: Seq<TaggedPiece>,
    last: Option<(Pos, Move)>,
    king: Option<Pos>,
    color: Color,
) -> bool {
    forall|i: int|
        0 <= i < 64 ==> {
            &&& (#[trigger] entries[i] is Some) == b[i].holds(color)
            &&& entries[i] is Some ==> entries[i]->Some_0 == piece_seq(b, last, Pos(i as u8), color, king)
            &&& entries[i] is Some ==> forall|m: Move|
                (#[trigger] entries[i]->Some_0.contains(m)) == legal(b, last, king, Pos(i as u8), m, color)
        }
}

/// The king square of `color` as the board shows it: the first square holding its king.
pub open spec fn king_square(b: Seq<TaggedPiece>, color: Color) -> Option<Pos> {
    match first_of(b, PieceType::King, color) {
        Some(i) => Some(Pos(i as u8)),
        None => None,
    }
}

/// `[m]` when `m` leaves the king of `color` safe, else nothing.
pub open spec fn one(b: Seq<TaggedPiece>, from: Pos, m: Move, c: Color, kp: Option<Pos>) -> Seq<Move> {
    if safe(b, from, m, c, kp) {
        seq![m]
    } else {
        Seq::empty()
    }
}

/// The listed move one step of `(dx, dy)` away, if that square is on the board and
/// holds no piece of the mover's side.
pub open spec fn step_seq(b: Seq<TaggedPiece>, from: Pos, dx: int, dy: int, c: Color, kp: Option<Pos>) -> Seq<Move> {
    match offset(from, dx, dy) {
        Some(to) => if !b[to.idx()].holds(c) {
            one(b, from, Move::Move(to), c, kp)
        } else {
            Seq::empty()
        },
        None => Seq::empty(),
    }
}

/// The listed single steps along the first `n` offsets of `d`, in that order.
pub open spec fn steps_seq(b: Seq<TaggedPiece>, from: Pos, d: Seq<(i8, i8)>, n: int, c: Color, kp: Option<Pos>) -> Seq<Move>
    decreases n,
{
    if n <= 0 {
        Seq::empty()
    } else {
        steps_seq(b, from, d, n - 1, c, kp) + step_seq(b, from, d[n - 1].0 as int, d[n - 1].1 as int, c, kp)
    }
}

/// The order in which a knight's jumps are listed.
pub open spec fn knight_offsets() -> Seq<(i8, i8)> {
    seq![(1i8, 2i8), (2i8, 1i8), (1i8, -2i8), (2i8, -1i8), (-1i8, -2i8), (-2i8, -1i8), (-1i8, 2i8), (-2i8, 1i8)]
}

/// The order in which a king's single steps are listed.
pub open spec fn king_offsets() -> Seq<(i8, i8)> {
    seq![(1i8, 1i8), (1i8, 0i8), (0i8, 1i8), (0i8, -1i8), (-1i8, 0i8), (-1i8, 1i8), (-1i8, -1i8), (1i8, -1i8)]
}

/// The listed moves along `(dx, dy)` from step `k` on, nearest first, up to and
/// including the first occupied square where it holds an enemy piece.
pub open spec fn ray_seq(b: Seq<TaggedPiece>, from: Pos, dx: int, dy: int, c: Color, kp: Option<Pos>, k: int) -> Seq<Move>
    decreases 8 - k,
{
    if k >= 8 || !on_board(from.sx() + dx * k, from.sy() + dy * k) {
        Seq::empty()
    } else {
        let to = square(from.sx() + dx * k, from.sy() + dy * k);
        let here = if !b[to.idx()].holds(c) {
            one(b, from, Move::Move(to), c, kp)
        } else {
            Seq::empty()
        };
        if b[to.idx()].is_occupied() {
            here
        } else {
            here + ray_seq(b, from, dx, dy, c, kp, k + 1)
        }
    }
}

/// A rook's list: right, left, up, then down.
pub open spec fn straight_seq(b: Seq<TaggedPiece>, from: Pos, c: Color, kp: Option<Pos>) -> Seq<Move> {
    ray_seq(b, from, 1, 0, c, kp, 1) + ray_seq(b, from, -1, 0, c, kp, 1) + ray_seq(b, from, 0, 1, c, kp, 1)
        + ray_seq(b, from, 0, -1, c, kp, 1)
}

/// A bishop's list: down-left, down-right, up-right, then up-left.
pub open spec fn diagonal_seq(b: Seq<TaggedPiece>, from: Pos, c: Color, kp: Option<Pos>) -> Seq<Move> {
    ray_seq(b, from, -1, -1, c, kp, 1) + ray_seq(b, from, 1, -1, c, kp, 1) + ray_seq(b, from, 1, 1, c, kp, 1)
        + ray_seq(b, from, -1, 1, c, kp, 1)
}

/// The promotions onto `to`: queen, knight, bishop, then rook.
pub open spec fn promotions_seq(b: Seq<TaggedPiece>, from: Pos, to: Pos, c: Color, kp: Option<Pos>) -> Seq<Move> {
    one(b, from, Move::PawnPromotion(PieceType::Queen, to), c, kp) + one(
        b,
        from,
        Move::PawnPromotion(PieceType::Knight, to),
        c,
        kp,
    ) + one(b, from, Move::PawnPromotion(PieceType::Bishop, to), c, kp) + one(
        b,
        from,
        Move::PawnPromotion(PieceType::Rook, to),
        c,
        kp,
    )
}

/// A pawn's step forward: a plain move, or the promotions on the last rank.
pub open spec fn pawn_single_seq(b: Seq<TaggedPiece>, from: Pos, c: Color, kp: Option<Pos>) -> Seq<Move> {
    match offset(from, 0, c.forward()) {
        None => Seq::empty(),
        Some(to) => if b[to.idx()].is_occupied() {
            Seq::empty()
        } else if to.sy() == 0 || to.sy() == 7 {
            promotions_seq(b, from, to, c, kp)
        } else {
            one(b, from, Move::Move(to), c, kp)
        },
    }
}

/// A pawn's advance by two squares from its starting rank.
pub open spec fn pawn_double_seq(b: Seq<TaggedPiece>, from: Pos, c: Color, kp: Option<Pos>) -> Seq<Move> {
    if from.sy() == c.home_rank() + c.forward() {
        match (offset(from, 0, 2 * c.forward()), offset(from, 0, c.forward())) {
            (Some(to), Some(mid)) => if !b[mid.idx()].is_occupied() && !b[to.idx()].is_occupied() {
                one(b, from, Move::Move(to), c, kp)
            } else {
                Seq::empty()
            },
            _ => Seq::empty(),
        }
    } else {
        Seq::empty()
    }
}

/// A pawn's moves onto the diagonal square `to`: a capture (promotions on the last
/// rank), or en passant onto an empty square.
pub open spec fn pawn_take_seq(
    b: Seq<TaggedPiece>,
    last: Option<(Pos, Move)>,
    from: Pos,
    to: Pos,
    c: Color,
    kp: Option<Pos>,
) -> Seq<Move> {
    if enemy(b[to.idx()], c) {
        if to.sy() == 0 || to.sy() == 7 {
            promotions_seq(b, from, to, c, kp)
        } else {
            one(b, from, Move::Move(to), c, kp)
        }
    } else if !b[to.idx()].is_occupied() && double_advance_to(b, last, to.sx(), from.sy(), c) && on_board(
        to.sx(),
        to.sy() - c.forward(),
    ) {
        one(b, from, Move::EnPassant(to), c, kp)
    } else {
        Seq::empty()
    }
}

/// A pawn's diagonal moves: to the right, then to the left.
pub open spec fn pawn_takes_seq(b: Seq<TaggedPiece>, last: Option<(Pos, Move)>, from: Pos, c: Color, kp: Option<Pos>) -> Seq<Move> {
    match offset(from, 0, c.forward()) {
        None => Seq::empty(),
        Some(fw) => (match offset(fw, 1, 0) {
            Some(r) => pawn_take_seq(b, last, from, r, c, kp),
            None => Seq::empty(),
        }) + (match offset(fw, -1, 0) {
            Some(l) => pawn_take_seq(b, last, from, l, c, kp),
            None => Seq::empty(),
        }),
    }
}

/// Castling as listed: queen side, then king side.
pub open spec fn castle_seq(b: Seq<TaggedPiece>, from: Pos, c: Color, kp: Option<Pos>) -> Seq<Move> {
    (if castle_move(b, from, Move::QueenSideCastling, c) {
        one(b, from, Move::QueenSideCastling, c, kp)
    } else {
        Seq::empty()
    }) + (if castle_move(b, from, Move::KingSideCastling, c) {
        one(b, from, Move::KingSideCastling, c, kp)
    } else {
        Seq::empty()
    })
}

/// The list of legal moves of the piece on `from`, in the order they are generated:
/// a pawn's step, double step, then captures; a rook's, bishop's or queen's rays
/// (a queen's diagonals first); a knight's jumps; a king's steps, then castling.
pub open spec fn piece_seq(b: Seq<TaggedPiece>, last: Option<(Pos, Move)>, from: Pos, c: Color, kp: Option<Pos>) -> Seq<Move> {
    match b[from.idx()] {
        TaggedPiece::Empty => Seq::empty(),
        TaggedPiece::Occupied { kind, .. } => match kind {
            PieceType::Pawn => pawn_single_seq(b, from, c, kp) + pawn_double_seq(b, from, c, kp)
                + pawn_takes_seq(b, last, from, c, kp),
            PieceType::Rook => straight_seq(b, from, c, kp),
            PieceType::Knight => steps_seq(b, from, knight_offsets(), 8, c, kp),
            PieceType::Bishop => diagonal_seq(b, from, c, kp),
            PieceType::Queen => diagonal_seq(b, from, c, kp) + straight_seq(b, from, c, kp),
            PieceType::King => steps_seq(b, from, king_offsets(), 8, c, kp) + castle_seq(b, from, c, kp),
        },
    }
}

} // verus!
