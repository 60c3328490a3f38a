use vstd::prelude::*;

use crate::chess_move::Move;
use crate::color::Color;
use crate::piece::{PieceType, TaggedPiece};
use crate::pos::{lemma_offset_is, lemma_square_coordinates, offset, on_board, square, Pos};
use crate::rules::{
    castle_seq, diagonal_seq, king_offsets, knight_offsets, one, pawn_double_seq, pawn_single_seq,
    pawn_take_seq, pawn_takes_seq, piece_seq, promotions_seq, ray_seq, step_seq, steps,
    steps_seq, straight_seq,
};

verus! {

proof fn lemma_concat_contains<T>(a: Seq<T>, b: Seq<T>)
    ensures
        forall|x: T| #[trigger] (a + b).contains(x) == (a.contains(x) || b.contains(x)),
{
    assert forall|x: T| #[trigger] (a + b).contains(x) == (a.contains(x) || b.contains(x)) by {
        if a.contains(x) {
            let i = choose|i: int| 0 <= i < a.len() && a[i] == x;
            assert((a + b)[i] == x);
        }
        if b.contains(x) {
            let i = choose|i: int| 0 <= i < b.len() && b[i] == x;
            assert((a + b)[a.len() + i] == x);
        }
        if (a + b).contains(x) {
            let i = choose|i: int| 0 <= i < (a + b).len() && (a + b)[i] == x;
            if i < a.len() {
                assert(a[i] == x);
            } else {
                assert(b[i - a.len()] == x);
            }
        }
    }
}

proof fn lemma_nodup_concat<T>(a: Seq<T>, b: Seq<T>)
    requires
        a.no_duplicates(),
        b.no_duplicates(),
        forall|x: T| a.contains(x) ==> !b.contains(x),
    ensures
        (a + b).no_duplicates(),
        forall|x: T| #[trigger] (a + b).contains(x) == (a.contains(x) || b.contains(x)),
{
    lemma_concat_contains(a, b);
    let s = a + b;
    assert forall|i: int, j: int| 0 <= i < s.len() && 0 <= j < s.len() && i != j implies s[i] != s[j] by {
        if i < a.len() && j >= a.len() {
            assert(a.contains(s[i]));
            assert(b.contains(s[j]));
        } else if j < a.len() && i >= a.len() {
            assert(a.contains(s[j]));
            assert(b.contains(s[i]));
        } else if i >= a.len() {
            assert(s[i] == b[i - a.len()] && s[j] == b[j - a.len()]);
        }
    }
}

/// `to` lies `k >= 1` steps of the unit direction `(dx, dy)` away from `from`.
pub open spec fn on_ray(from: Pos, to: Pos, dx: int, dy: int) -> bool {
    let k = steps(from, to, dx, dy);
    k >= 1 && to.sx() == from.sx() + dx * k && to.sy() == from.sy() + dy * k
}

proof fn lemma_one(b: Seq<TaggedPiece>, from: Pos, m: Move, c: Color, kp: Option<Pos>)
    ensures
        one(b, from, m, c, kp).no_duplicates(),
        forall|x: Move| #[trigger] one(b, from, m, c, kp).contains(x) ==> x == m,
{
    let s = one(b, from, m, c, kp);
    assert forall|x: Move| #[trigger] s.contains(x) implies x == m by {
        let i = choose|i: int| 0 <= i < s.len() && s[i] == x;
    }
}

proof fn lemma_ray(b: Seq<TaggedPiece>, from: Pos, dx: int, dy: int, c: Color, kp: Option<Pos>, k: int)
    requires
        from.valid(),
        -1 <= dx <= 1,
        -1 <= dy <= 1,
        dx != 0 || dy != 0,
        k >= 1,
    ensures
        ray_seq(b, from, dx, dy, c, kp, k).no_duplicates(),
        forall|x: Move| #[trigger] ray_seq(b, from, dx, dy, c, kp, k).contains(x) ==> x is Move && on_ray(
            from,
            x->Move_0,
            dx,
            dy,
        ) && steps(from, x->Move_0, dx, dy) >= k,
    decreases 8 - k,
{
    if !(k >= 8 || !on_board(from.sx() + dx * k, from.sy() + dy * k)) {
        let to = square(from.sx() + dx * k, from.sy() + dy * k);
        lemma_square_coordinates(from.sx() + dx * k, from.sy() + dy * k);
        crate::board::lemma_unit_step(dx, k);
        crate::board::lemma_unit_step(dy, k);
        assert(steps(from, to, dx, dy) == k) by {
            if dx == 1 {
            } else if dx == -1 {
            } else if dy == 1 {
            } else {
            }
        }
        let here = if !b[to.idx()].holds(c) {
            one(b, from, Move::Move(to), c, kp)
        } else {
            Seq::<Move>::empty()
        };
        lemma_one(b, from, Move::Move(to), c, kp);
        assert(here.no_duplicates());
        assert forall|x: Move| #[trigger] here.contains(x) implies x == Move::Move(to) by {
            if here.len() == 0 {
                assert(!here.contains(x));
            }
        }
        if !b[to.idx()].is_occupied() {
            lemma_ray(b, from, dx, dy, c, kp, k + 1);
            lemma_nodup_concat(here, ray_seq(b, from, dx, dy, c, kp, k + 1));
        }
    }
}

proof fn lemma_step(b: Seq<TaggedPiece>, from: Pos, dx: int, dy: int, c: Color, kp: Option<Pos>)
    requires
        from.valid(),
    ensures
        step_seq(b, from, dx, dy, c, kp).no_duplicates(),
        forall|x: Move| #[trigger] step_seq(b, from, dx, dy, c, kp).contains(x) ==> x is Move && x->Move_0.sx()
            == from.sx() + dx && x->Move_0.sy() == from.sy() + dy,
{
    let s = step_seq(b, from, dx, dy, c, kp);
    if let Some(to) = offset(from, dx, dy) {
        lemma_offset_is(from, to, dx, dy);
        lemma_one(b, from, Move::Move(to), c, kp);
    }
    assert forall|x: Move| #[trigger] s.contains(x) implies x is Move && x->Move_0.sx() == from.sx() + dx
        && x->Move_0.sy() == from.sy() + dy by {
        let i = choose|i: int| 0 <= i < s.len() && s[i] == x;
    }
}

proof fn lemma_steps(b: Seq<TaggedPiece>, from: Pos, d: Seq<(i8, i8)>, n: int, c: Color, kp: Option<Pos>)
    requires
        from.valid(),
        0 <= n <= d.len(),
        d.no_duplicates(),
    ensures
        steps_seq(b, from, d, n, c, kp).no_duplicates(),
        forall|x: Move| #[trigger] steps_seq(b, from, d, n, c, kp).contains(x) ==> x is Move && exists|i: int|
            0 <= i < n && x->Move_0.sx() == from.sx() + d[i].0 && x->Move_0.sy() == from.sy() + d[i].1,
    decreases n,
{
    if n > 0 {
        lemma_steps(b, from, d, n - 1, c, kp);
        lemma_step(b, from, d[n - 1].0 as int, d[n - 1].1 as int, c, kp);
        let a = steps_seq(b, from, d, n - 1, c, kp);
        let e = step_seq(b, from, d[n - 1].0 as int, d[n - 1].1 as int, c, kp);
        assert forall|x: Move| a.contains(x) implies !e.contains(x) by {
            if e.contains(x) {
                let i = choose|i: int|
                    0 <= i < n - 1 && x->Move_0.sx() == from.sx() + d[i].0 && x->Move_0.sy() == from.sy() + d[i].1;
                assert(d[i] == d[n - 1]);
            }
        }
        lemma_nodup_concat(a, e);
        assert forall|x: Move| #[trigger] (a + e).contains(x) implies x is Move && exists|i: int|
            0 <= i < n && x->Move_0.sx() == from.sx() + d[i].0 && x->Move_0.sy() == from.sy() + d[i].1 by {
            if e.contains(x) {
                assert(x->Move_0.sx() == from.sx() + d[n - 1].0 && x->Move_0.sy() == from.sy() + d[n - 1].1);
            }
        }
    }
}

proof fn lemma_four<T>(a: Seq<T>, b: Seq<T>, c: Seq<T>, d: Seq<T>)
    requires
        a.no_duplicates(),
        b.no_duplicates(),
        c.no_duplicates(),
        d.no_duplicates(),
        forall|x: T| a.contains(x) ==> !b.contains(x) && !c.contains(x) && !d.contains(x),
        forall|x: T| b.contains(x) ==> !c.contains(x) && !d.contains(x),
        forall|x: T| c.contains(x) ==> !d.contains(x),
    ensures
        (a + b + c + d).no_duplicates(),
        forall|x: T| #[trigger] (a + b + c + d).contains(x) == (a.contains(x) || b.contains(x) || c.contains(x) || d.contains(x)),
{
    lemma_nodup_concat(a, b);
    lemma_nodup_concat(a + b, c);
    lemma_nodup_concat(a + b + c, d);
}

proof fn lemma_straight(b: Seq<TaggedPiece>, from: Pos, c: Color, kp: Option<Pos>)
    requires
        from.valid(),
    ensures
        straight_seq(b, from, c, kp).no_duplicates(),
        forall|x: Move| #[trigger] straight_seq(b, from, c, kp).contains(x) ==> x is Move && (x->Move_0.sx() == from.sx()
            || x->Move_0.sy() == from.sy()),
{
    lemma_ray(b, from, 1, 0, c, kp, 1);
    lemma_ray(b, from, -1, 0, c, kp, 1);
    lemma_ray(b, from, 0, 1, c, kp, 1);
    lemma_ray(b, from, 0, -1, c, kp, 1);
    lemma_four(
        ray_seq(b, from, 1, 0, c, kp, 1),
        ray_seq(b, from, -1, 0, c, kp, 1),
        ray_seq(b, from, 0, 1, c, kp, 1),
        ray_seq(b, from, 0, -1, c, kp, 1),
    );
}

proof fn lemma_diagonal(b: Seq<TaggedPiece>, from: Pos, c: Color, kp: Option<Pos>)
    requires
        from.valid(),
    ensures
        diagonal_seq(b, from, c, kp).no_duplicates(),
        forall|x: Move| #[trigger] diagonal_seq(b, from, c, kp).contains(x) ==> x is Move && x->Move_0.sx() != from.sx()
            && x->Move_0.sy() != from.sy(),
{
    lemma_ray(b, from, -1, -1, c, kp, 1);
    lemma_ray(b, from, 1, -1, c, kp, 1);
    lemma_ray(b, from, 1, 1, c, kp, 1);
    lemma_ray(b, from, -1, 1, c, kp, 1);
    lemma_four(
        ray_seq(b, from, -1, -1, c, kp, 1),
        ray_seq(b, from, 1, -1, c, kp, 1),
        ray_seq(b, from, 1, 1, c, kp, 1),
        ray_seq(b, from, -1, 1, c, kp, 1),
    );
}

/// What a pawn's move is about: the square it lands on.
spec fn landing(m: Move) -> Option<Pos> {
    match m {
        Move::Move(t) => Some(t),
        Move::EnPassant(t) => Some(t),
        Move::PawnPromotion(_, t) => Some(t),
        _ => None,
    }
}

spec fn lx(m: Move) -> int {
    match landing(m) {
        Some(t) => t.sx(),
        None => -100,
    }
}

spec fn ly(m: Move) -> int {
    match landing(m) {
        Some(t) => t.sy(),
        None => -100,
    }
}

proof fn lemma_promotions(b: Seq<TaggedPiece>, from: Pos, to: Pos, c: Color, kp: Option<Pos>)
    ensures
        promotions_seq(b, from, to, c, kp).no_duplicates(),
        forall|x: Move| #[trigger] promotions_seq(b, from, to, c, kp).contains(x) ==> x is PawnPromotion && landing(x) == Some(to),
{
    let q = Move::PawnPromotion(PieceType::Queen, to);
    let n = Move::PawnPromotion(PieceType::Knight, to);
    let bi = Move::PawnPromotion(PieceType::Bishop, to);
    let r = Move::PawnPromotion(PieceType::Rook, to);
    lemma_one(b, from, q, c, kp);
    lemma_one(b, from, n, c, kp);
    lemma_one(b, from, bi, c, kp);
    lemma_one(b, from, r, c, kp);
    lemma_four(one(b, from, q, c, kp), one(b, from, n, c, kp), one(b, from, bi, c, kp), one(b, from, r, c, kp));
}

proof fn lemma_take(b: Seq<TaggedPiece>, last: Option<(Pos, Move)>, from: Pos, to: Pos, c: Color, kp: Option<Pos>)
    ensures
        pawn_take_seq(b, last, from, to, c, kp).no_duplicates(),
        forall|x: Move| #[trigger] pawn_take_seq(b, last, from, to, c, kp).contains(x) ==> landing(x) == Some(to),
{
    lemma_promotions(b, from, to, c, kp);
    lemma_one(b, from, Move::Move(to), c, kp);
    lemma_one(b, from, Move::EnPassant(to), c, kp);
    let s = pawn_take_seq(b, last, from, to, c, kp);
    assert forall|x: Move| #[trigger] s.contains(x) implies landing(x) == Some(to) by {
        if s.len() == 0 {
            assert(!s.contains(x));
        }
    }
}

proof fn lemma_pawn(b: Seq<TaggedPiece>, last: Option<(Pos, Move)>, from: Pos, c: Color, kp: Option<Pos>)
    requires
        from.valid(),
    ensures
        (pawn_single_seq(b, from, c, kp) + pawn_double_seq(b, from, c, kp) + pawn_takes_seq(b, last, from, c, kp)).no_duplicates(),
{
    let f = c.forward();
    let single = pawn_single_seq(b, from, c, kp);
    let double = pawn_double_seq(b, from, c, kp);
    let takes = pawn_takes_seq(b, last, from, c, kp);
    // one step ahead: landing on the pawn's file, one rank on
    assert(single.no_duplicates() && forall|x: Move| #[trigger] single.contains(x) ==> lx(x) == from.sx() && ly(x) == from.sy() + f) by {
        if let Some(to) = offset(from, 0, f) {
            lemma_offset_is(from, to, 0, f);
            lemma_promotions(b, from, to, c, kp);
            lemma_one(b, from, Move::Move(to), c, kp);
        }
        assert forall|x: Move| #[trigger] single.contains(x) implies lx(x) == from.sx() && ly(x) == from.sy() + f by {
            if single.len() == 0 {
                assert(!single.contains(x));
            }
        }
    }
    assert(double.no_duplicates() && forall|x: Move| #[trigger] double.contains(x) ==> lx(x) == from.sx() && ly(x) == from.sy() + 2 * f) by {
        if let Some(to) = offset(from, 0, 2 * f) {
            lemma_offset_is(from, to, 0, 2 * f);
            lemma_one(b, from, Move::Move(to), c, kp);
        }
        assert forall|x: Move| #[trigger] double.contains(x) implies lx(x) == from.sx() && ly(x) == from.sy() + 2 * f by {
            if double.len() == 0 {
                assert(!double.contains(x));
            }
        }
    }
    assert(takes.no_duplicates() && forall|x: Move| #[trigger] takes.contains(x) ==> lx(x) != from.sx()) by {
        if let Some(fw) = offset(from, 0, f) {
            lemma_offset_is(from, fw, 0, f);
            let rp = match offset(fw, 1, 0) {
                Some(r) => pawn_take_seq(b, last, from, r, c, kp),
                None => Seq::<Move>::empty(),
            };
            let lp = match offset(fw, -1, 0) {
                Some(l) => pawn_take_seq(b, last, from, l, c, kp),
                None => Seq::<Move>::empty(),
            };
            if let Some(r) = offset(fw, 1, 0) {
                lemma_offset_is(fw, r, 1, 0);
                lemma_take(b, last, from, r, c, kp);
            }
            if let Some(l) = offset(fw, -1, 0) {
                lemma_offset_is(fw, l, -1, 0);
                lemma_take(b, last, from, l, c, kp);
            }
            assert forall|x: Move| #[trigger] rp.contains(x) implies lx(x) == from.sx() + 1 by {
                if rp.len() == 0 {
                    assert(!rp.contains(x));
                }
            }
            assert forall|x: Move| #[trigger] lp.contains(x) implies lx(x) == from.sx() - 1 by {
                if lp.len() == 0 {
                    assert(!lp.contains(x));
                }
            }
            lemma_nodup_concat(rp, lp);
        }
    }
    lemma_nodup_concat(single, double);
    lemma_nodup_concat(single + double, takes);
}

proof fn lemma_castles(b: Seq<TaggedPiece>, from: Pos, c: Color, kp: Option<Pos>)
    ensures
        castle_seq(b, from, c, kp).no_duplicates(),
        forall|x: Move| #[trigger] castle_seq(b, from, c, kp).contains(x) ==> x == Move::QueenSideCastling || x == Move::KingSideCastling,
{
    let q = if crate::rules::castle_move(b, from, Move::QueenSideCastling, c) {
        one(b, from, Move::QueenSideCastling, c, kp)
    } else {
        Seq::<Move>::empty()
    };
    let k = if crate::rules::castle_move(b, from, Move::KingSideCastling, c) {
        one(b, from, Move::KingSideCastling, c, kp)
    } else {
        Seq::<Move>::empty()
    };
    lemma_one(b, from, Move::QueenSideCastling, c, kp);
    lemma_one(b, from, Move::KingSideCastling, c, kp);
    assert forall|x: Move| #[trigger] q.contains(x) implies x == Move::QueenSideCastling by {
        if q.len() == 0 {
            assert(!q.contains(x));
        }
    }
    assert forall|x: Move| #[trigger] k.contains(x) implies x == Move::KingSideCastling by {
        if k.len() == 0 {
            assert(!k.contains(x));
        }
    }
    lemma_nodup_concat(q, k);
}

/// No list of moves holds a move twice.
pub proof fn lemma_piece_seq_distinct(b: Seq<TaggedPiece>, last: Option<(Pos, Move)>, from: Pos, c: Color, kp: Option<Pos>)
    requires
        from.valid(),
    ensures
        piece_seq(b, last, from, c, kp).no_duplicates(),
{
    match b[from.idx()] {
        TaggedPiece::Empty => {},
        TaggedPiece::Occupied { kind, .. } => match kind {
            PieceType::Pawn => lemma_pawn(b, last, from, c, kp),
            PieceType::Rook => lemma_straight(b, from, c, kp),
            PieceType::Knight => {
                assert(knight_offsets().no_duplicates());
                lemma_steps(b, from, knight_offsets(), 8, c, kp);
            },
            PieceType::Bishop => lemma_diagonal(b, from, c, kp),
            PieceType::Queen => {
                lemma_diagonal(b, from, c, kp);
                lemma_straight(b, from, c, kp);
                lemma_nodup_concat(diagonal_seq(b, from, c, kp), straight_seq(b, from, c, kp));
            },
            PieceType::King => {
                assert(king_offsets().no_duplicates());
                lemma_steps(b, from, king_offsets(), 8, c, kp);
                lemma_castles(b, from, c, kp);
                lemma_nodup_concat(steps_seq(b, from, king_offsets(), 8, c, kp), castle_seq(b, from, c, kp));
            },
        },
    }
}

} // verus!
