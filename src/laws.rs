use vstd::prelude::*;

use crate::board::after_move_spec;
use crate::chess_move::Move;
use crate::color::Color;
use crate::game::Game;
use crate::piece::{same_piece, PieceType, TaggedPiece};
use crate::pos::{abs, square, Pos};
use crate::rules::{at, home_square_attacked, piece_seq};

verus! {

/// A piece equals itself once marked as moved: equality ignores whether a piece has
/// moved, and keeps its type and side.
pub proof fn lemma_moved_piece_equal(p: TaggedPiece)
    ensures
        same_piece(p, p.moved()),
        p.moved().kind_spec() == p.kind_spec(),
        p.moved().color_spec() == p.color_spec(),
        !p.moved().original_spec(),
{
}

/// A piece that moves loses its unmoved mark: after a plain move the destination holds
/// the same piece, marked as moved.
pub proof fn lemma_moved_loses_mark(b: Seq<TaggedPiece>, from: Pos, to: Pos, c: Color)
    requires
        b.len() == 64,
        from.valid(),
        to.valid(),
        from != to,
        b[from.idx()].is_occupied(),
    ensures
        after_move_spec(b, from, Move::Move(to), c)[to.idx()] == b[from.idx()].moved(),
        !after_move_spec(b, from, Move::Move(to), c)[to.idx()].original_spec(),
        !after_move_spec(b, from, Move::Move(to), c)[from.idx()].is_occupied(),
{
    assert(from.idx() != to.idx());
}

/// A castling move is legal only when the king and the rook on its side have never
/// moved, every square between them is empty, and the squares the king stands on,
/// crosses and reaches are not attacked.
pub proof fn lemma_castling_rights(g: &Game, from: Pos, m: Move)
    requires
        g.legal_here(from, m),
        m == Move::KingSideCastling || m == Move::QueenSideCastling,
    ensures
        ({
            let b = g.board_spec();
            let c = g.player_spec();
            let y = c.home_rank();
            let rook_x = if m == Move::KingSideCastling { 7int } else { 0int };
            &&& from == square(4, y)
            &&& b[from.idx()] == (TaggedPiece::Occupied { kind: PieceType::King, color: c, original: true })
            &&& at(b, rook_x, y) == (TaggedPiece::Occupied { kind: PieceType::Rook, color: c, original: true })
            &&& forall|x: int| #![trigger at(b, x, y)] (if rook_x == 7 { 4 < x < 7 } else { 0 < x < 4 }) ==> !at(b, x, y).is_occupied()
            &&& forall|x: int| (if rook_x == 7 { 4 <= x <= 6 } else { 2 <= x <= 4 }) ==> !#[trigger] home_square_attacked(b, x, c)
        }),
{
    let b = g.board_spec();
    let c = g.player_spec();
    let y = c.home_rank();
    if m == Move::KingSideCastling {
        assert forall|x: int| 4 <= x <= 6 implies !#[trigger] home_square_attacked(b, x, c) by {
            assert(x == 4 || x == 5 || x == 6);
        }
        assert forall|x: int| #![trigger at(b, x, y)] 4 < x < 7 implies !at(b, x, y).is_occupied() by {
            assert(x == 5 || x == 6);
        }
    } else {
        assert forall|x: int| 2 <= x <= 4 implies !#[trigger] home_square_attacked(b, x, c) by {
            assert(x == 2 || x == 3 || x == 4);
        }
        assert forall|x: int| #![trigger at(b, x, y)] 0 < x < 4 implies !at(b, x, y).is_occupied() by {
            assert(x == 1 || x == 2 || x == 3);
        }
    }
}

/// En passant is offered only right after the enemy's pawn advanced two squares onto
/// the square beside the capturing pawn; the capture lands behind that pawn.
pub proof fn lemma_en_passant_follows_double_advance(g: &Game, from: Pos, to: Pos)
    requires
        g.legal_here(from, Move::EnPassant(to)),
    ensures
        g.last_spec() matches Some((lfrom, Move::Move(lto))) && {
            let c = g.player_spec();
            &&& g.board_spec()[lto.idx()].holds_piece(PieceType::Pawn, c.other())
            &&& lto.sy() == from.sy()
            &&& abs(lto.sx() - from.sx()) == 1
            &&& lfrom.sx() == lto.sx()
            &&& lfrom.sy() == lto.sy() + 2 * c.forward()
            &&& to.sx() == lto.sx()
            &&& to.sy() == lto.sy() + c.forward()
        },
{
}

/// After a further move is played, any en passant capture then offered answers that
/// move: the chance to take the earlier pawn is gone.
pub proof fn lemma_en_passant_expires(before: &Game, after: &Game, from: Pos, m: Move, pfrom: Pos, to: Pos)
    requires
        after.history_spec() == before.history_spec().push((before.board_spec(), from, m)),
        after.legal_here(pfrom, Move::EnPassant(to)),
    ensures
        m matches Move::Move(lto) && after.board_spec()[lto.idx()].holds_piece(PieceType::Pawn, after.player_spec().other())
            && abs(lto.sx() - pfrom.sx()) == 1 && lto.sy() == pfrom.sy() && abs(from.sy() - lto.sy()) == 2,
{
    after.lemma_last_move();
    lemma_en_passant_follows_double_advance(after, pfrom, to);
}

/// A castling move in the list of any square requires the rights above: an unmoved
/// king and rook, empty squares between them, and no attacked square on the king's way.
pub proof fn lemma_listed_castling_rights(g: &Game, p: Pos, m: Move)
    requires
        g.wf(),
        p.valid(),
        g.board_spec()[p.idx()].holds(g.player_spec()),
        m == Move::KingSideCastling || m == Move::QueenSideCastling,
        piece_seq(g.board_spec(), g.last_spec(), p, g.player_spec(), g.king_spec()).contains(m),
    ensures
        ({
            let b = g.board_spec();
            let c = g.player_spec();
            let y = c.home_rank();
            let rook_x = if m == Move::KingSideCastling { 7int } else { 0int };
            &&& p == square(4, y)
            &&& b[p.idx()] == (TaggedPiece::Occupied { kind: PieceType::King, color: c, original: true })
            &&& at(b, rook_x, y) == (TaggedPiece::Occupied { kind: PieceType::Rook, color: c, original: true })
            &&& forall|x: int| #![trigger at(b, x, y)] (if rook_x == 7 { 4 < x < 7 } else { 0 < x < 4 }) ==> !at(b, x, y).is_occupied()
            &&& forall|x: int| (if rook_x == 7 { 4 <= x <= 6 } else { 2 <= x <= 4 }) ==> !#[trigger] home_square_attacked(b, x, c)
        }),
{
    g.lemma_listed_iff_legal(p, m);
    lemma_castling_rights(g, p, m);
}

/// An en passant capture in the list of any square answers the last move, which was a
/// two-square advance of an enemy pawn onto the square beside the capturing pawn.
pub proof fn lemma_listed_en_passant(g: &Game, p: Pos, to: Pos)
    requires
        g.wf(),
        p.valid(),
        g.board_spec()[p.idx()].holds(g.player_spec()),
        piece_seq(g.board_spec(), g.last_spec(), p, g.player_spec(), g.king_spec()).contains(Move::EnPassant(to)),
    ensures
        g.last_spec() matches Some((lfrom, Move::Move(lto))) && {
            let c = g.player_spec();
            &&& g.board_spec()[lto.idx()].holds_piece(PieceType::Pawn, c.other())
            &&& lto.sy() == p.sy()
            &&& abs(lto.sx() - p.sx()) == 1
            &&& lfrom.sx() == lto.sx()
            &&& lfrom.sy() == lto.sy() + 2 * c.forward()
        },
{
    g.lemma_listed_iff_legal(p, Move::EnPassant(to));
    lemma_en_passant_follows_double_advance(g, p, to);
}

} // verus!
