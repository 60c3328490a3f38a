use vstd::prelude::*;

use crate::board::{applicable, after_move_spec, Board};
use crate::chess_move::Move;
use crate::color::Color;
use crate::move_map::MoveMap;
use crate::piece::{PieceType, TaggedPiece};
use crate::pos::{offset, on_board, square, Pos};
use crate::rules::{
    castle_seq, diagonal_seq, king_offsets, knight_offsets, one, pawn_double_seq, pawn_single_seq,
    pawn_take_seq, pawn_takes_seq, piece_seq, promotions_seq, ray_seq, step_seq, steps_seq,
    straight_seq,
    at, attacked, blocker, blocker_from, castle_move, diagonal_move, double_advance_to, enemy,
    has_legal_move, in_check, king_square, king_step, knight_move, legal, lists_exact,
    pawn_move, promotion_type, pseudo_legal, safe, slide, steps, straight_move,
};

verus! {

/// How a call of `Game::play` ended.
#[derive(Clone, Copy, PartialEq, Eq, Structural, Debug)]
pub enum GameResult {
    InvalidMove,
    Played,
    Checkmate,
    Stalemate,
}

/// A game in progress: the board, the side to move, the moves played so far with the
/// board before each, and the legal moves of the side to move.
pub struct Game {
    board: Board,
    move_map: MoveMap,
    history: Vec<(Board, Pos, Move)>,
    player: Color,
    king_pos: Option<Pos>,
}

/// Appending three runs one after the other appends their concatenation.
pub proof fn lemma_concat3<T>(a: Seq<T>, l1: Seq<T>, l2: Seq<T>, l3: Seq<T>, x: Seq<T>, y: Seq<T>, z: Seq<T>)
    requires
        l1 == a + x,
        l2 == l1 + y,
        l3 == l2 + z,
    ensures
        l3 == a + (x + y + z),
{
    assert(l3 =~= a + (x + y + z));
}

/// `s.push(x)` holds what `s` holds and `x`.
pub proof fn lemma_push_contains<T>(s: Seq<T>, x: T)
    ensures
        forall|y: T| #[trigger] s.push(x).contains(y) == (s.contains(y) || y == x),
{
    assert forall|y: T| #[trigger] s.push(x).contains(y) == (s.contains(y) || y == x) by {
        if s.contains(y) {
            let i = choose|i: int| 0 <= i < s.len() && s[i] == y;
            assert(s.push(x)[i] == y);
        }
        if y == x {
            assert(s.push(x)[s.len() as int] == y);
        }
        if s.push(x).contains(y) {
            let i = choose|i: int| 0 <= i < s.len() + 1 && s.push(x)[i] == y;
            if i < s.len() {
                assert(s[i] == y);
            }
        }
    }
}

impl Default for Game {
    fn default() -> (r: Game)
        ensures
            r.wf(),
            r.board_spec() == crate::board::initial_layout(),
            r.player_spec() == Color::White,
            r.history_spec().len() == 0,
    {
        Game::new()
    }
}

impl Game {
    /// The board.
    pub closed spec fn board_spec(&self) -> Seq<TaggedPiece> {
        self.board@
    }

    /// The side to move.
    pub closed spec fn player_spec(&self) -> Color {
        self.player
    }

    /// The last move played, with the square it started from.
    pub closed spec fn last_spec(&self) -> Option<(Pos, Move)> {
        if self.history@.len() > 0 {
            let e = self.history@.last();
            Some((e.1, e.2))
        } else {
            None
        }
    }

    /// The square of the king of the side to move, where it has one.
    pub closed spec fn king_spec(&self) -> Option<Pos> {
        self.king_pos
    }

    /// The moves cached for each square.
    pub closed spec fn entries(&self) -> Seq<Option<Seq<Move>>> {
        self.move_map.entries()
    }

    /// Whether `m` from `from` is a legal move of the side to move.
    pub open spec fn legal_here(&self, from: Pos, m: Move) -> bool {
        legal(self.board_spec(), self.last_spec(), self.king_spec(), from, m, self.player_spec())
    }

    /// The side to move has a legal move.
    pub open spec fn can_move(&self) -> bool {
        has_legal_move(self.board_spec(), self.last_spec(), self.king_spec(), self.player_spec())
    }

    /// The cached king square and move lists agree with the board.
    pub closed spec fn wf(&self) -> bool {
        &&& self.move_map.wf()
        &&& self.king_pos == king_square(self.board@, self.player)
        &&& lists_exact(self.move_map.entries(), self.board@, self.last_spec(), self.king_pos, self.player)
    }

    spec fn base(&self) -> bool {
        &&& self.move_map.wf()
        &&& self.king_pos == king_square(self.board@, self.player)
    }

    spec fn list_at(&self, from: Pos) -> Seq<Move> {
        self.move_map.entries()[from.idx()]->Some_0
    }

    /// Moves are being gathered for the piece on `from`.
    spec fn gathering(&self, from: Pos) -> bool {
        &&& self.base()
        &&& from.valid()
        &&& self.move_map.open()
        &&& self.move_map.current_spec() == from.idx()
        &&& self.move_map.entries()[from.idx()] is Some
        &&& self.board@[from.idx()].holds(self.player)
    }

    /// Everything but the move lists is as in `other`.
    spec fn frame(&self, other: &Game) -> bool {
        &&& self.board@ == other.board@
        &&& self.history@ == other.history@
        &&& self.player == other.player
        &&& self.king_pos == other.king_pos
    }

    /// `self` came from `before` by adding to the list of `from` exactly the moves
    /// that `added` accepts.
    spec fn adds(&self, before: &Game, from: Pos, added: spec_fn(Move) -> bool) -> bool {
        &&& self.gathering(from)
        &&& self.frame(before)
        &&& self.move_map.entries() == before.move_map.entries().update(
            from.idx(),
            Some(self.list_at(from)),
        )
        &&& forall|m: Move|
            #[trigger] self.list_at(from).contains(m) == (before.list_at(from).contains(m) || added(
                m,
            ))
    }

    proof fn lemma_adds_trans(
        g0: &Game,
        g1: &Game,
        g2: &Game,
        from: Pos,
        a: spec_fn(Move) -> bool,
        b: spec_fn(Move) -> bool,
    )
        requires
            g1.adds(g0, from, a),
            g2.adds(g1, from, b),
        ensures
            g2.adds(g0, from, Self::union(a, b)),
    {
        g0.move_map.lemma_entries_len();
        assert(g2.move_map.entries() =~= g0.move_map.entries().update(
            from.idx(),
            Some(g2.list_at(from)),
        ));
    }

    spec fn union(a: spec_fn(Move) -> bool, b: spec_fn(Move) -> bool) -> spec_fn(Move) -> bool {
        |m: Move| a(m) || b(m)
    }

    /// The move one step of `(dx, dy)` from `from`, where it is allowed and safe.
    spec fn step_set(b: Seq<TaggedPiece>, from: Pos, dx: int, dy: int, c: Color, kp: Option<Pos>) -> spec_fn(Move) -> bool {
        |x: Move|
            match x {
                Move::Move(to) => crate::rules::step(b, from, to, dx, dy, c) && safe(b, from, x, c, kp),
                _ => false,
            }
    }

    proof fn lemma_adds_nothing(g: &Game, from: Pos)
        requires
            g.gathering(from),
        ensures
            g.adds(g, from, |m: Move| false),
    {
        g.move_map.lemma_entries_len();
        assert(g.move_map.entries() =~= g.move_map.entries().update(
            from.idx(),
            Some(g.list_at(from)),
        ));
    }

    /// Whether the king of the side to move would be attacked after `m` from `from`.
    fn king_in_danger_after_move(&self, from: Pos, m: Move) -> (r: bool)
        requires
            self.base(),
            from.valid(),
            applicable(from, m, self.player),
        ensures
            r == !safe(self.board@, from, m, self.player, self.king_pos),
    {
        let after = self.board.after_move(from, m, self.player);
        let y: u8 = match self.player {
            Color::White => 0,
            Color::Black => 7,
        };
        let king = if self.board.at_pos(from).is_piece(PieceType::King, self.player) {
            match m {
                Move::Move(to) => Some(to),
                Move::KingSideCastling => Some(Pos::new_xy(6, y)),
                Move::QueenSideCastling => Some(Pos::new_xy(2, y)),
                _ => self.king_pos,
            }
        } else {
            self.king_pos
        };
        match king {
            None => false,
            Some(k) => {
                proof {
                    if king == self.king_pos {
                        self.lemma_king_valid();
                    }
                }
                after.pos_in_danger(k, self.player)
            },
        }
    }

    proof fn lemma_king_valid(&self)
        requires
            self.king_pos == king_square(self.board@, self.player),
        ensures
            self.king_pos matches Some(k) ==> k.valid(),
    {
        if let Some(i) = crate::rules::first_of(self.board@, PieceType::King, self.player) {
            Self::lemma_first_from_range(self.board@, self.player, 0);
        }
    }

    proof fn lemma_first_from_range(b: Seq<TaggedPiece>, c: Color, i: int)
        ensures
            crate::rules::first_from(b, PieceType::King, c, i) matches Some(j) ==> i <= j < 64,
        decreases 64 - i,
    {
        if i < 64 && !b[i].holds_piece(PieceType::King, c) {
            Self::lemma_first_from_range(b, c, i + 1);
        }
    }

    /// Adds `m` to the list of `from` when it leaves the king safe.
    fn try_add(&mut self, from: Pos, m: Move)
        requires
            old(self).gathering(from),
            applicable(from, m, old(self).player),
        ensures
            final(self).adds(
                old(self),
                from,
                |x: Move| x == m && safe(old(self).board@, from, m, old(self).player, old(self).king_pos),
            ),
            final(self).list_at(from) == old(self).list_at(from) + one(old(self).board@, from, m, old(self).player, old(self).king_pos),
    {
        if !self.king_in_danger_after_move(from, m) {
            self.move_map.insert(m);
            proof {
                assert(old(self).list_at(from).push(m) =~= old(self).list_at(from) + seq![m]);
                lemma_push_contains(old(self).list_at(from), m);
                old(self).move_map.lemma_entries_len();
                assert(self.list_at(from) == old(self).list_at(from).push(m));
                assert(self.move_map.entries() =~= old(self).move_map.entries().update(
                    from.idx(),
                    Some(self.list_at(from)),
                ));
            }
        } else {
            proof {
                Self::lemma_adds_nothing(self, from);
                assert(old(self).list_at(from) + Seq::<Move>::empty() =~= old(self).list_at(from));
            }
        }
    }

    proof fn lemma_adds_same(g: &Game, g0: &Game, from: Pos, a: spec_fn(Move) -> bool, c: spec_fn(Move) -> bool)
        requires
            g.adds(g0, from, a),
            forall|m: Move| #[trigger] a(m) == c(m),
        ensures
            g.adds(g0, from, c),
    {
    }

    proof fn lemma_blocker_ge(b: Seq<TaggedPiece>, x: int, y: int, dx: int, dy: int, k: int)
        ensures
            blocker_from(b, x, y, dx, dy, k) >= k,
        decreases 8 - k,
    {
        if !(k >= 8 || !on_board(x + dx * k, y + dy * k) || at(b, x + dx * k, y + dy * k).is_occupied()) {
            Self::lemma_blocker_ge(b, x, y, dx, dy, k + 1);
        }
    }

    /// The square `k` steps along a unit direction is `to`; its step count is `k`.
    proof fn lemma_ray_square(from: Pos, to: Pos, dx: int, dy: int, k: int)
        requires
            from.valid(),
            -1 <= dx <= 1,
            -1 <= dy <= 1,
            dx != 0 || dy != 0,
            offset(from, dx * k, dy * k) == Some(to),
        ensures
            to.valid(),
            to.sx() == from.sx() + dx * k,
            to.sy() == from.sy() + dy * k,
            steps(from, to, dx, dy) == k,
            to.idx() == (from.sx() + dx * k) + 8 * (from.sy() + dy * k),
            forall|t: Pos|
                t.valid() && t.sx() == from.sx() + dx * k && t.sy() == from.sy() + dy * k ==> t == to,
    {
        crate::board::lemma_unit_step(dx, k);
        crate::board::lemma_unit_step(dy, k);
        assert forall|t: Pos|
            t.valid() && t.sx() == from.sx() + dx * k && t.sy() == from.sy() + dy * k implies t == to by {
            crate::pos::lemma_square_of(t);
        }
        if dx == 1 {
        } else if dx == -1 {
        } else if dy == 1 {
        } else {
        }
    }

    /// Once the walk reaches a square off the board (or the edge of its range), no
    /// further square along the ray is reachable.
    proof fn lemma_ray_done(b: Seq<TaggedPiece>, from: Pos, dx: int, dy: int, k: int, c: Color, kp: Option<Pos>)
        requires
            from.valid(),
            -1 <= dx <= 1,
            -1 <= dy <= 1,
            dx != 0 || dy != 0,
            1 <= k <= 8,
            blocker(b, from.sx(), from.sy(), dx, dy) == blocker_from(b, from.sx(), from.sy(), dx, dy, k),
            k == 8 || !on_board(from.sx() + dx * k, from.sy() + dy * k),
        ensures
            forall|t: Pos| slide(b, from, t, dx, dy, c) ==> steps(from, t, dx, dy) < k,
    {
        assert forall|t: Pos| slide(b, from, t, dx, dy, c) implies steps(from, t, dx, dy) < k by {
            let j = steps(from, t, dx, dy);
            crate::board::lemma_unit_step(dx, j);
            crate::board::lemma_unit_step(dy, j);
            crate::board::lemma_unit_step(dx, k);
            crate::board::lemma_unit_step(dy, k);
        }
    }

    proof fn lemma_ray_step(b: Seq<TaggedPiece>, from: Pos, to: Pos, dx: int, dy: int, k: int, c: Color, kp: Option<Pos>)
        requires
            from.valid(),
            -1 <= dx <= 1,
            -1 <= dy <= 1,
            dx != 0 || dy != 0,
            1 <= k < 8,
            b.len() == 64,
            offset(from, dx * k, dy * k) == Some(to),
            blocker(b, from.sx(), from.sy(), dx, dy) == blocker_from(b, from.sx(), from.sy(), dx, dy, k),
        ensures
            forall|x: Move|
                #![trigger x->Move_0]
                ((match x {
                    Move::Move(t) => slide(b, from, t, dx, dy, c) && steps(from, t, dx, dy) < k && safe(b, from, x, c, kp),
                    _ => false,
                }) || (if !b[to.idx()].holds(c) {
                    x == Move::Move(to) && safe(b, from, Move::Move(to), c, kp)
                } else {
                    false
                })) == (match x {
                    Move::Move(t) => slide(b, from, t, dx, dy, c) && steps(from, t, dx, dy) < k + 1 && safe(b, from, x, c, kp),
                    _ => false,
                }),
            !b[to.idx()].is_occupied() ==> blocker_from(b, from.sx(), from.sy(), dx, dy, k)
                == blocker_from(b, from.sx(), from.sy(), dx, dy, k + 1),
    {
        Self::lemma_ray_square(from, to, dx, dy, k);
        Self::lemma_blocker_ge(b, from.sx(), from.sy(), dx, dy, k);
        assert forall|x: Move|
            #![trigger x->Move_0]
            ((match x {
                Move::Move(t) => slide(b, from, t, dx, dy, c) && steps(from, t, dx, dy) < k && safe(b, from, x, c, kp),
                _ => false,
            }) || (if !b[to.idx()].holds(c) {
                x == Move::Move(to) && safe(b, from, Move::Move(to), c, kp)
            } else {
                false
            })) == (match x {
                Move::Move(t) => slide(b, from, t, dx, dy, c) && steps(from, t, dx, dy) < k + 1 && safe(b, from, x, c, kp),
                _ => false,
            }) by {
            if let Move::Move(t) = x {
                if slide(b, from, t, dx, dy, c) && steps(from, t, dx, dy) == k {
                    assert(t == to);
                }
            }
        }
    }

    proof fn lemma_ray_blocked(b: Seq<TaggedPiece>, from: Pos, to: Pos, dx: int, dy: int, k: int, c: Color, kp: Option<Pos>)
        requires
            from.valid(),
            -1 <= dx <= 1,
            -1 <= dy <= 1,
            dx != 0 || dy != 0,
            1 <= k < 8,
            b.len() == 64,
            offset(from, dx * k, dy * k) == Some(to),
            b[to.idx()].is_occupied(),
            blocker(b, from.sx(), from.sy(), dx, dy) == blocker_from(b, from.sx(), from.sy(), dx, dy, k),
        ensures
            forall|t: Pos| slide(b, from, t, dx, dy, c) ==> steps(from, t, dx, dy) < k + 1,
    {
        Self::lemma_ray_square(from, to, dx, dy, k);
    }

    /// Adds the move one step of `(dx, dy)` away from `from`, when that square is on the
    /// board, holds no piece of the side to move, and the king stays safe.
    fn try_step(&mut self, from: Pos, dx: i8, dy: i8)
        requires
            old(self).gathering(from),
            -2 <= dx <= 2,
            -2 <= dy <= 2,
        ensures
            final(self).adds(
                old(self),
                from,
                Self::step_set(old(self).board@, from, dx as int, dy as int, old(self).player, old(self).king_pos),
            ),
            final(self).list_at(from) == old(self).list_at(from) + step_seq(old(self).board@, from, dx as int, dy as int, old(self).player, old(self).king_pos),
    {
        proof {
            assert(old(self).list_at(from) + Seq::<Move>::empty() =~= old(self).list_at(from));
        }
        match from.move_xy(dx, dy) {
            None => {
                proof {
                    Self::lemma_adds_nothing(self, from);
                }
            },
            Some(to) => {
                let piece = self.board.at_pos(to);
                if piece.is_empty() || piece.color() != self.player {
                    self.try_add(from, Move::Move(to));
                } else {
                    proof {
                        Self::lemma_adds_nothing(self, from);
                    }
                }
            },
        }
    }

    /// Moves along the ray that need fewer than `k` steps and keep the king safe.
    spec fn ray_upto(b: Seq<TaggedPiece>, from: Pos, dx: int, dy: int, c: Color, kp: Option<Pos>, k: int) -> spec_fn(Move) -> bool {
        |x: Move|
            match x {
                Move::Move(t) => slide(b, from, t, dx, dy, c) && steps(from, t, dx, dy) < k && safe(b, from, x, c, kp),
                _ => false,
            }
    }

    /// Moves along the ray that keep the king safe.
    spec fn ray_all(b: Seq<TaggedPiece>, from: Pos, dx: int, dy: int, c: Color, kp: Option<Pos>) -> spec_fn(Move) -> bool {
        |x: Move|
            match x {
                Move::Move(t) => slide(b, from, t, dx, dy, c) && safe(b, from, x, c, kp),
                _ => false,
            }
    }

    proof fn lemma_ray_finish(g0: &Game, g: &Game, from: Pos, dx: int, dy: int, k: int)
        requires
            from.valid(),
            -1 <= dx <= 1,
            -1 <= dy <= 1,
            dx != 0 || dy != 0,
            1 <= k <= 8,
            g0.board@.len() == 64,
            g.adds(g0, from, Self::ray_upto(g0.board@, from, dx, dy, g0.player, g0.king_pos, k)),
            blocker(g0.board@, from.sx(), from.sy(), dx, dy) == blocker_from(g0.board@, from.sx(), from.sy(), dx, dy, k),
            k == 8 || !on_board(from.sx() + dx * k, from.sy() + dy * k),
        ensures
            g.adds(g0, from, Self::ray_all(g0.board@, from, dx, dy, g0.player, g0.king_pos)),
    {
        let b = g0.board@;
        let c = g0.player;
        let kp = g0.king_pos;
        Self::lemma_ray_done(b, from, dx, dy, k, c, kp);
        assert forall|x: Move|
            #[trigger] Self::ray_upto(b, from, dx, dy, c, kp, k)(x) == Self::ray_all(b, from, dx, dy, c, kp)(x) by {
            if let Move::Move(t) = x {
                if slide(b, from, t, dx, dy, c) {
                    assert(steps(from, t, dx, dy) < k);
                }
            }
        }
        Self::lemma_adds_same(g, g0, from, Self::ray_upto(b, from, dx, dy, c, kp, k), Self::ray_all(b, from, dx, dy, c, kp));
    }

    proof fn lemma_ray_next(g0: &Game, g1: &Game, g: &Game, from: Pos, to: Pos, dx: int, dy: int, k: int)
        requires
            from.valid(),
            -1 <= dx <= 1,
            -1 <= dy <= 1,
            dx != 0 || dy != 0,
            1 <= k < 8,
            g0.board@.len() == 64,
            offset(from, dx * k, dy * k) == Some(to),
            blocker(g0.board@, from.sx(), from.sy(), dx, dy) == blocker_from(g0.board@, from.sx(), from.sy(), dx, dy, k),
            g1.adds(g0, from, Self::ray_upto(g0.board@, from, dx, dy, g0.player, g0.king_pos, k)),
            g.adds(
                g1,
                from,
                |x: Move| if !g0.board@[to.idx()].holds(g0.player) {
                    x == Move::Move(to) && safe(g0.board@, from, Move::Move(to), g0.player, g0.king_pos)
                } else {
                    false
                },
            ),
        ensures
            g.adds(g0, from, Self::ray_upto(g0.board@, from, dx, dy, g0.player, g0.king_pos, k + 1)),
            !g0.board@[to.idx()].is_occupied() ==> blocker_from(g0.board@, from.sx(), from.sy(), dx, dy, k)
                == blocker_from(g0.board@, from.sx(), from.sy(), dx, dy, k + 1),
    {
        let b = g0.board@;
        let c = g0.player;
        let kp = g0.king_pos;
        let added = |x: Move| if !b[to.idx()].holds(c) {
            x == Move::Move(to) && safe(b, from, Move::Move(to), c, kp)
        } else {
            false
        };
        Self::lemma_ray_step(b, from, to, dx, dy, k, c, kp);
        Self::lemma_adds_trans(g0, g1, g, from, Self::ray_upto(b, from, dx, dy, c, kp, k), added);
        assert forall|x: Move|
            #[trigger] Self::ray_upto(b, from, dx, dy, c, kp, k + 1)(x) == (Self::ray_upto(b, from, dx, dy, c, kp, k)(x) || added(x)) by {
            assert(x->Move_0 == x->Move_0);
        }
        Self::lemma_adds_same(
            g,
            g0,
            from,
            Self::union(Self::ray_upto(b, from, dx, dy, c, kp, k), added),
            Self::ray_upto(b, from, dx, dy, c, kp, k + 1),
        );
    }

    /// Adds the moves along `(dx, dy)` from `from` up to and including the first
    /// occupied square, where it holds an enemy piece.
    fn add_ray(&mut self, from: Pos, dx: i8, dy: i8)
        requires
            old(self).gathering(from),
            -1 <= dx <= 1,
            -1 <= dy <= 1,
            dx != 0 || dy != 0,
        ensures
            final(self).adds(
                old(self),
                from,
                Self::ray_all(old(self).board@, from, dx as int, dy as int, old(self).player, old(self).king_pos),
            ),
            final(self).list_at(from) == old(self).list_at(from) + ray_seq(old(self).board@, from, dx as int, dy as int, old(self).player, old(self).king_pos, 1),
    {
        let ghost b = self.board@;
        let ghost c = self.player;
        let ghost kp = self.king_pos;
        let ghost full = old(self).list_at(from) + ray_seq(b, from, dx as int, dy as int, c, kp, 1);
        let ghost fx = from.sx();
        let ghost fy = from.sy();
        proof {
            Self::lemma_adds_nothing(self, from);
            self.board.lemma_len();
            assert forall|x: Move|
                !#[trigger] Self::ray_upto(b, from, dx as int, dy as int, self.player, self.king_pos, 1)(x) by {
                if let Move::Move(t) = x {
                    if slide(b, from, t, dx as int, dy as int, self.player) {
                        assert(steps(from, t, dx as int, dy as int) >= 1);
                    }
                }
            }
            Self::lemma_adds_same(self, old(self), from, |m: Move| false, Self::ray_upto(b, from, dx as int, dy as int, self.player, self.king_pos, 1));
        }
        let mut k: i8 = 1;
        while k < 8
            invariant
                1 <= k <= 8,
                from.valid(),
                -1 <= dx <= 1,
                -1 <= dy <= 1,
                dx != 0 || dy != 0,
                b == old(self).board@,
                b.len() == 64,
                fx == from.sx(),
                fy == from.sy(),
                self.adds(old(self), from, Self::ray_upto(b, from, dx as int, dy as int, old(self).player, old(self).king_pos, k as int)),
                c == old(self).player,
                kp == old(self).king_pos,
                full == old(self).list_at(from) + ray_seq(b, from, dx as int, dy as int, c, kp, 1),
                self.list_at(from) + ray_seq(b, from, dx as int, dy as int, c, kp, k as int) == full,
                blocker(b, fx, fy, dx as int, dy as int) == blocker_from(b, fx, fy, dx as int, dy as int, k as int),
            decreases 8 - k,
        {
            proof {
                crate::board::lemma_unit_step(dx as int, k as int);
                crate::board::lemma_unit_step(dy as int, k as int);
            }
            let ghost before = *self;
            match from.move_xy(dx * k, dy * k) {
                None => {
                    proof {
                        Self::lemma_ray_finish(old(self), self, from, dx as int, dy as int, k as int);
                        assert(ray_seq(b, from, dx as int, dy as int, c, kp, k as int) =~= Seq::<Move>::empty());
                        assert(self.list_at(from) + Seq::<Move>::empty() =~= self.list_at(from));
                    }
                    return;
                },
                Some(to) => {
                    let ghost here = if !b[to.idx()].holds(c) {
                        one(b, from, Move::Move(to), c, kp)
                    } else {
                        Seq::<Move>::empty()
                    };
                    proof {
                        assert(before.list_at(from) + Seq::<Move>::empty() =~= before.list_at(from));
                    }
                    let piece = self.board.at_pos(to);
                    if piece.is_empty() || piece.color() != self.player {
                        self.try_add(from, Move::Move(to));
                    } else {
                        proof {
                            Self::lemma_adds_nothing(self, from);
                            Self::lemma_adds_same(self, &before, from, |m: Move| false, |x: Move| if !b[to.idx()].holds(before.player) {
                                x == Move::Move(to) && safe(b, from, Move::Move(to), before.player, before.king_pos)
                            } else {
                                false
                            });
                        }
                    }
                    proof {
                        Self::lemma_ray_next(old(self), &before, self, from, to, dx as int, dy as int, k as int);
                        assert(self.list_at(from) == before.list_at(from) + here);
                        assert(ray_seq(b, from, dx as int, dy as int, c, kp, k as int) == if b[to.idx()].is_occupied() {
                            here
                        } else {
                            here + ray_seq(b, from, dx as int, dy as int, c, kp, k as int + 1)
                        });
                        assert(before.list_at(from) + (here + ray_seq(b, from, dx as int, dy as int, c, kp, k as int + 1))
                            =~= self.list_at(from) + ray_seq(b, from, dx as int, dy as int, c, kp, k as int + 1));
                    }
                    if !piece.is_empty() {
                        proof {
                            Self::lemma_ray_blocked(b, from, to, dx as int, dy as int, k as int, self.player, self.king_pos);
                            Self::lemma_blocker_ge(b, fx, fy, dx as int, dy as int, k as int + 1);
                            Self::lemma_ray_square(from, to, dx as int, dy as int, k as int);
                            assert(blocker_from(b, fx, fy, dx as int, dy as int, k as int) == k);
                            Self::lemma_ray_finish_blocked(old(self), self, from, dx as int, dy as int, k as int);
                        }
                        return;
                    }
                },
            }
            k = k + 1;
        }
        proof {
            Self::lemma_ray_finish(old(self), self, from, dx as int, dy as int, 8);
            assert(ray_seq(b, from, dx as int, dy as int, c, kp, 8) =~= Seq::<Move>::empty());
            assert(self.list_at(from) + Seq::<Move>::empty() =~= self.list_at(from));
        }
    }

    proof fn lemma_ray_finish_blocked(g0: &Game, g: &Game, from: Pos, dx: int, dy: int, k: int)
        requires
            from.valid(),
            -1 <= dx <= 1,
            -1 <= dy <= 1,
            dx != 0 || dy != 0,
            1 <= k < 8,
            g0.board@.len() == 64,
            g.adds(g0, from, Self::ray_upto(g0.board@, from, dx, dy, g0.player, g0.king_pos, k + 1)),
            blocker(g0.board@, from.sx(), from.sy(), dx, dy) == k,
        ensures
            g.adds(g0, from, Self::ray_all(g0.board@, from, dx, dy, g0.player, g0.king_pos)),
    {
        let b = g0.board@;
        let c = g0.player;
        let kp = g0.king_pos;
        assert forall|x: Move|
            #[trigger] Self::ray_upto(b, from, dx, dy, c, kp, k + 1)(x) == Self::ray_all(b, from, dx, dy, c, kp)(x) by {
            assert(x->Move_0 == x->Move_0);
        }
        Self::lemma_adds_same(g, g0, from, Self::ray_upto(b, from, dx, dy, c, kp, k + 1), Self::ray_all(b, from, dx, dy, c, kp));
    }

    /// Moves of a rook on `from`: right, left, up, then down.
    fn add_straight_moves(&mut self, from: Pos)
        requires
            old(self).gathering(from),
        ensures
            final(self).adds(
                old(self),
                from,
                |x: Move| straight_move(old(self).board@, from, x, old(self).player) && safe(old(self).board@, from, x, old(self).player, old(self).king_pos),
            ),
            final(self).list_at(from) == old(self).list_at(from) + straight_seq(old(self).board@, from, old(self).player, old(self).king_pos),
    {
        let ghost g0 = *self;
        let ghost b = self.board@;
        let ghost c = self.player;
        let ghost kp = self.king_pos;
        self.add_ray(from, 1, 0);
        let ghost g1 = *self;
        self.add_ray(from, -1, 0);
        let ghost g2 = *self;
        self.add_ray(from, 0, 1);
        let ghost g3 = *self;
        self.add_ray(from, 0, -1);
        proof {
            let r1 = Self::ray_all(b, from, 1, 0, c, kp);
            let r2 = Self::ray_all(b, from, -1, 0, c, kp);
            let r3 = Self::ray_all(b, from, 0, 1, c, kp);
            let r4 = Self::ray_all(b, from, 0, -1, c, kp);
            Self::lemma_adds_trans(&g0, &g1, &g2, from, r1, r2);
            Self::lemma_adds_trans(&g0, &g2, &g3, from, Self::union(r1, r2), r3);
            Self::lemma_adds_trans(&g0, &g3, self, from, Self::union(Self::union(r1, r2), r3), r4);
            let target = |x: Move| straight_move(b, from, x, c) && safe(b, from, x, c, kp);
            assert forall|x: Move|
                #[trigger] Self::union(Self::union(Self::union(r1, r2), r3), r4)(x) == target(x) by {
                assert(x->Move_0 == x->Move_0);
            }
            Self::lemma_adds_same(self, &g0, from, Self::union(Self::union(Self::union(r1, r2), r3), r4), target);
            assert(self.list_at(from) =~= g0.list_at(from) + (ray_seq(b, from, 1, 0, c, kp, 1) + ray_seq(b, from, -1, 0, c, kp, 1) + ray_seq(b, from, 0, 1, c, kp, 1) + ray_seq(b, from, 0, -1, c, kp, 1)));
        }
    }

    /// Moves of a bishop on `from`: down-left, down-right, up-right, then up-left.
    fn add_diagonal_moves(&mut self, from: Pos)
        requires
            old(self).gathering(from),
        ensures
            final(self).adds(
                old(self),
                from,
                |x: Move| diagonal_move(old(self).board@, from, x, old(self).player) && safe(old(self).board@, from, x, old(self).player, old(self).king_pos),
            ),
            final(self).list_at(from) == old(self).list_at(from) + diagonal_seq(old(self).board@, from, old(self).player, old(self).king_pos),
    {
        let ghost g0 = *self;
        let ghost b = self.board@;
        let ghost c = self.player;
        let ghost kp = self.king_pos;
        self.add_ray(from, -1, -1);
        let ghost g1 = *self;
        self.add_ray(from, 1, -1);
        let ghost g2 = *self;
        self.add_ray(from, 1, 1);
        let ghost g3 = *self;
        self.add_ray(from, -1, 1);
        proof {
            let r1 = Self::ray_all(b, from, -1, -1, c, kp);
            let r2 = Self::ray_all(b, from, 1, -1, c, kp);
            let r3 = Self::ray_all(b, from, 1, 1, c, kp);
            let r4 = Self::ray_all(b, from, -1, 1, c, kp);
            Self::lemma_adds_trans(&g0, &g1, &g2, from, r1, r2);
            Self::lemma_adds_trans(&g0, &g2, &g3, from, Self::union(r1, r2), r3);
            Self::lemma_adds_trans(&g0, &g3, self, from, Self::union(Self::union(r1, r2), r3), r4);
            let target = |x: Move| diagonal_move(b, from, x, c) && safe(b, from, x, c, kp);
            assert forall|x: Move|
                #[trigger] Self::union(Self::union(Self::union(r1, r2), r3), r4)(x) == target(x) by {
                assert(x->Move_0 == x->Move_0);
            }
            Self::lemma_adds_same(self, &g0, from, Self::union(Self::union(Self::union(r1, r2), r3), r4), target);
            assert(self.list_at(from) =~= g0.list_at(from) + (ray_seq(b, from, -1, -1, c, kp, 1) + ray_seq(b, from, 1, -1, c, kp, 1) + ray_seq(b, from, 1, 1, c, kp, 1) + ray_seq(b, from, -1, 1, c, kp, 1)));
        }
    }

    /// Eight single steps from `from`, in the order given.
    fn add_steps(&mut self, from: Pos, d: [(i8, i8); 8])
        requires
            old(self).gathering(from),
            forall|i: int| 0 <= i < 8 ==> -2 <= (#[trigger] d@[i]).0 <= 2 && -2 <= d@[i].1 <= 2,
        ensures
            final(self).adds(
                old(self),
                from,
                |x: Move| exists|i: int| 0 <= i < 8 && #[trigger] Self::step_set(old(self).board@, from, d@[i].0 as int, d@[i].1 as int, old(self).player, old(self).king_pos)(x),
            ),
            final(self).list_at(from) == old(self).list_at(from) + steps_seq(old(self).board@, from, d@, 8, old(self).player, old(self).king_pos),
    {
        proof {
            assert(old(self).list_at(from) + Seq::<Move>::empty() =~= old(self).list_at(from));
        }
        let ghost b = self.board@;
        let ghost c = self.player;
        let ghost kp = self.king_pos;
        proof {
            Self::lemma_adds_nothing(self, from);
            Self::lemma_adds_same(self, old(self), from, |m: Move| false, |x: Move| exists|i: int| 0 <= i < 0 && #[trigger] Self::step_set(b, from, d@[i].0 as int, d@[i].1 as int, c, kp)(x));
        }
        let mut j: usize = 0;
        while j < 8
            invariant
                0 <= j <= 8,
                b == old(self).board@,
                c == old(self).player,
                kp == old(self).king_pos,
                forall|i: int| 0 <= i < 8 ==> -2 <= (#[trigger] d@[i]).0 <= 2 && -2 <= d@[i].1 <= 2,
                self.adds(
                    old(self),
                    from,
                    |x: Move| exists|i: int| 0 <= i < j && #[trigger] Self::step_set(b, from, d@[i].0 as int, d@[i].1 as int, c, kp)(x),
                ),
                self.list_at(from) == old(self).list_at(from) + steps_seq(b, from, d@, j as int, c, kp),
            decreases 8 - j,
        {
            let ghost before = *self;
            let (dx, dy) = d[j];
            self.try_step(from, dx, dy);
            proof {
                assert(self.list_at(from) =~= old(self).list_at(from) + steps_seq(b, from, d@, j as int + 1, c, kp));
                let acc = |x: Move| exists|i: int| 0 <= i < j && #[trigger] Self::step_set(b, from, d@[i].0 as int, d@[i].1 as int, c, kp)(x);
                let s = Self::step_set(b, from, dx as int, dy as int, c, kp);
                Self::lemma_adds_trans(old(self), &before, self, from, acc, s);
                let next = |x: Move| exists|i: int| 0 <= i < j + 1 && #[trigger] Self::step_set(b, from, d@[i].0 as int, d@[i].1 as int, c, kp)(x);
                assert forall|x: Move| #[trigger] Self::union(acc, s)(x) == next(x) by {
                    if s(x) {
                        assert(Self::step_set(b, from, d@[j as int].0 as int, d@[j as int].1 as int, c, kp)(x));
                    }
                    if next(x) {
                        let i = choose|i: int| 0 <= i < j + 1 && #[trigger] Self::step_set(b, from, d@[i].0 as int, d@[i].1 as int, c, kp)(x);
                        if i < j {
                            assert(acc(x));
                        }
                    }
                }
                Self::lemma_adds_same(self, old(self), from, Self::union(acc, s), next);
            }
            j = j + 1;
        }
    }

    /// Moves of a knight on `from`.
    fn add_knight_moves(&mut self, from: Pos)
        requires
            old(self).gathering(from),
        ensures
            final(self).adds(
                old(self),
                from,
                |x: Move| knight_move(old(self).board@, from, x, old(self).player) && safe(old(self).board@, from, x, old(self).player, old(self).king_pos),
            ),
            final(self).list_at(from) == old(self).list_at(from) + steps_seq(old(self).board@, from, knight_offsets(), 8, old(self).player, old(self).king_pos),
    {
        let ghost b = self.board@;
        let ghost c = self.player;
        let ghost kp = self.king_pos;
        let d: [(i8, i8); 8] = [(1, 2), (2, 1), (1, -2), (2, -1), (-1, -2), (-2, -1), (-1, 2), (-2, 1)];
        proof {
            assert(d@ =~= knight_offsets());
        }
        self.add_steps(from, d);
        proof {
            let found = |x: Move| exists|i: int| 0 <= i < 8 && #[trigger] Self::step_set(b, from, d@[i].0 as int, d@[i].1 as int, c, kp)(x);
            let target = |x: Move| knight_move(b, from, x, c) && safe(b, from, x, c, kp);
            assert forall|x: Move| #[trigger] found(x) == target(x) by {
                if let Move::Move(to) = x {
                    crate::pos::lemma_offset_is(from, to, to.sx() - from.sx(), to.sy() - from.sy());
                    if found(x) {
                        let i = choose|i: int| 0 <= i < 8 && #[trigger] Self::step_set(b, from, d@[i].0 as int, d@[i].1 as int, c, kp)(x);
                        crate::pos::lemma_offset_is(from, to, d@[i].0 as int, d@[i].1 as int);
                    }
                    if target(x) {
                        let dx = to.sx() - from.sx();
                        let dy = to.sy() - from.sy();
                        let i: int = if dx == 1 && dy == 2 { 0 } else if dx == 2 && dy == 1 { 1 } else if dx == 1 && dy == -2 { 2 } else if dx == 2 && dy == -1 { 3 } else if dx == -1 && dy == -2 { 4 } else if dx == -2 && dy == -1 { 5 } else if dx == -1 && dy == 2 { 6 } else { 7 };
                        assert(Self::step_set(b, from, d@[i].0 as int, d@[i].1 as int, c, kp)(x));
                    }
                }
            }
            Self::lemma_adds_same(self, old(self), from, found, target);
        }
    }

    /// Single-step moves of a king on `from`.
    fn add_king_moves(&mut self, from: Pos)
        requires
            old(self).gathering(from),
        ensures
            final(self).adds(
                old(self),
                from,
                |x: Move| king_step(old(self).board@, from, x, old(self).player) && safe(old(self).board@, from, x, old(self).player, old(self).king_pos),
            ),
            final(self).list_at(from) == old(self).list_at(from) + steps_seq(old(self).board@, from, king_offsets(), 8, old(self).player, old(self).king_pos),
    {
        let ghost b = self.board@;
        let ghost c = self.player;
        let ghost kp = self.king_pos;
        let d: [(i8, i8); 8] = [(1, 1), (1, 0), (0, 1), (0, -1), (-1, 0), (-1, 1), (-1, -1), (1, -1)];
        proof {
            assert(d@ =~= king_offsets());
        }
        self.add_steps(from, d);
        proof {
            let found = |x: Move| exists|i: int| 0 <= i < 8 && #[trigger] Self::step_set(b, from, d@[i].0 as int, d@[i].1 as int, c, kp)(x);
            let target = |x: Move| king_step(b, from, x, c) && safe(b, from, x, c, kp);
            assert forall|x: Move| #[trigger] found(x) == target(x) by {
                if let Move::Move(to) = x {
                    crate::pos::lemma_offset_is(from, to, to.sx() - from.sx(), to.sy() - from.sy());
                    if found(x) {
                        let i = choose|i: int| 0 <= i < 8 && #[trigger] Self::step_set(b, from, d@[i].0 as int, d@[i].1 as int, c, kp)(x);
                        crate::pos::lemma_offset_is(from, to, d@[i].0 as int, d@[i].1 as int);
                        crate::pos::lemma_square_of(from);
                    }
                    if target(x) {
                        let dx = to.sx() - from.sx();
                        let dy = to.sy() - from.sy();
                        crate::pos::lemma_square_of(from);
                        crate::pos::lemma_square_of(to);
                        let i: int = if dx == 1 && dy == 1 { 0 } else if dx == 1 && dy == 0 { 1 } else if dx == 0 && dy == 1 { 2 } else if dx == 0 && dy == -1 { 3 } else if dx == -1 && dy == 0 { 4 } else if dx == -1 && dy == 1 { 5 } else if dx == -1 && dy == -1 { 6 } else { 7 };
                        assert(Self::step_set(b, from, d@[i].0 as int, d@[i].1 as int, c, kp)(x));
                    }
                }
            }
            Self::lemma_adds_same(self, old(self), from, found, target);
        }
    }

    /// Pawn moves one square forward: a plain move, or the four promotions on the last rank.
    spec fn pawn_single(b: Seq<TaggedPiece>, from: Pos, x: Move, c: Color) -> bool {
        match x {
            Move::Move(to) => offset(from, 0, c.forward()) == Some(to) && !b[to.idx()].is_occupied() && !(to.sy() == 0 || to.sy() == 7),
            Move::PawnPromotion(t, to) => offset(from, 0, c.forward()) == Some(to) && !b[to.idx()].is_occupied() && (to.sy() == 0 || to.sy() == 7) && promotion_type(t),
            _ => false,
        }
    }

    /// A pawn's advance by two squares from its starting rank.
    spec fn pawn_double(b: Seq<TaggedPiece>, from: Pos, x: Move, c: Color) -> bool {
        match x {
            Move::Move(to) => from.sy() == c.home_rank() + c.forward() && offset(from, 0, 2 * c.forward()) == Some(to)
                && !at(b, from.sx(), from.sy() + c.forward()).is_occupied() && !b[to.idx()].is_occupied(),
            _ => false,
        }
    }

    /// A pawn's moves onto the diagonal square `to`: a capture (with promotion on the
    /// last rank), or an en passant capture onto an empty square.
    spec fn pawn_take(b: Seq<TaggedPiece>, last: Option<(Pos, Move)>, from: Pos, to: Pos, x: Move, c: Color) -> bool {
        match x {
            Move::Move(t) => t == to && enemy(b[to.idx()], c) && !(to.sy() == 0 || to.sy() == 7),
            Move::PawnPromotion(k, t) => t == to && enemy(b[to.idx()], c) && (to.sy() == 0 || to.sy() == 7) && promotion_type(k),
            Move::EnPassant(t) => t == to && !b[to.idx()].is_occupied() && double_advance_to(b, last, to.sx(), from.sy(), c),
            _ => false,
        }
    }

    spec fn with_safety(b: Seq<TaggedPiece>, from: Pos, c: Color, kp: Option<Pos>, cand: spec_fn(Move) -> bool) -> spec_fn(Move) -> bool {
        |x: Move| cand(x) && safe(b, from, x, c, kp)
    }

    /// The four promotions onto `to`.
    fn add_promotions(&mut self, from: Pos, to: Pos)
        requires
            old(self).gathering(from),
            to.valid(),
        ensures
            final(self).adds(
                old(self),
                from,
                |x: Move| (x matches Move::PawnPromotion(t, p) && p == to && promotion_type(t)) && safe(old(self).board@, from, x, old(self).player, old(self).king_pos),
            ),
            final(self).list_at(from) == old(self).list_at(from) + promotions_seq(old(self).board@, from, to, old(self).player, old(self).king_pos),
    {
        let ghost g0 = *self;
        let ghost b = self.board@;
        let ghost c = self.player;
        let ghost kp = self.king_pos;
        let mq = Move::PawnPromotion(PieceType::Queen, to);
        let mn = Move::PawnPromotion(PieceType::Knight, to);
        let mb = Move::PawnPromotion(PieceType::Bishop, to);
        let mr = Move::PawnPromotion(PieceType::Rook, to);
        self.try_add(from, mq);
        let ghost g1 = *self;
        self.try_add(from, mn);
        let ghost g2 = *self;
        self.try_add(from, mb);
        let ghost g3 = *self;
        self.try_add(from, mr);
        proof {
            let a1 = |x: Move| x == mq && safe(b, from, mq, c, kp);
            let a2 = |x: Move| x == mn && safe(b, from, mn, c, kp);
            let a3 = |x: Move| x == mb && safe(b, from, mb, c, kp);
            let a4 = |x: Move| x == mr && safe(b, from, mr, c, kp);
            Self::lemma_adds_trans(&g0, &g1, &g2, from, a1, a2);
            Self::lemma_adds_trans(&g0, &g2, &g3, from, Self::union(a1, a2), a3);
            Self::lemma_adds_trans(&g0, &g3, self, from, Self::union(Self::union(a1, a2), a3), a4);
            let target = |x: Move| (x matches Move::PawnPromotion(t, p) && p == to && promotion_type(t)) && safe(b, from, x, c, kp);
            assert forall|x: Move| #[trigger] Self::union(Self::union(Self::union(a1, a2), a3), a4)(x) == target(x) by {
                assert(x->Move_0 == x->Move_0);
            }
            Self::lemma_adds_same(self, &g0, from, Self::union(Self::union(Self::union(a1, a2), a3), a4), target);
            assert(self.list_at(from) =~= g0.list_at(from) + promotions_seq(b, from, to, c, kp));
        }
    }

    /// The pawn on `from` moves one square forward.
    fn add_pawn_single(&mut self, from: Pos)
        requires
            old(self).gathering(from),
        ensures
            final(self).adds(old(self), from, Self::with_safety(old(self).board@, from, old(self).player, old(self).king_pos, |x: Move| Self::pawn_single(old(self).board@, from, x, old(self).player))),
            final(self).list_at(from) == old(self).list_at(from) + pawn_single_seq(old(self).board@, from, old(self).player, old(self).king_pos),
    {
        proof {
            assert(old(self).list_at(from) + Seq::<Move>::empty() =~= old(self).list_at(from));
        }
        let ghost b = self.board@;
        let ghost c = self.player;
        let ghost kp = self.king_pos;
        let f: i8 = match self.player {
            Color::White => 1,
            Color::Black => -1,
        };
        let ghost target = Self::with_safety(b, from, c, kp, |x: Move| Self::pawn_single(b, from, x, c));
        match from.move_y(f) {
            None => {
                proof {
                    Self::lemma_adds_nothing(self, from);
                    assert forall|x: Move| #[trigger] target(x) == false by {
                        assert(x->Move_0 == x->Move_0);
                    }
                    Self::lemma_adds_same(self, old(self), from, |m: Move| false, target);
                }
            },
            Some(to) => {
                if self.board.at_pos(to).is_empty() {
                    if to.at_y_edge() {
                        self.add_promotions(from, to);
                        proof {
                            let got = |x: Move| (x matches Move::PawnPromotion(t, p) && p == to && promotion_type(t)) && safe(b, from, x, c, kp);
                            assert forall|x: Move| #[trigger] got(x) == target(x) by {
                                assert(x->Move_0 == x->Move_0);
                                crate::pos::lemma_offset_is(from, to, 0, f as int);
                            }
                            Self::lemma_adds_same(self, old(self), from, got, target);
                        }
                    } else {
                        self.try_add(from, Move::Move(to));
                        proof {
                            let got = |x: Move| x == Move::Move(to) && safe(b, from, Move::Move(to), c, kp);
                            assert forall|x: Move| #[trigger] got(x) == target(x) by {
                                assert(x->Move_0 == x->Move_0);
                            }
                            Self::lemma_adds_same(self, old(self), from, got, target);
                        }
                    }
                } else {
                    proof {
                        Self::lemma_adds_nothing(self, from);
                        assert forall|x: Move| #[trigger] target(x) == false by {
                            assert(x->Move_0 == x->Move_0);
                        }
                        Self::lemma_adds_same(self, old(self), from, |m: Move| false, target);
                    }
                }
            },
        }
    }

    /// The pawn on `from` advances two squares from its starting rank.
    fn add_pawn_double(&mut self, from: Pos)
        requires
            old(self).gathering(from),
        ensures
            final(self).adds(old(self), from, Self::with_safety(old(self).board@, from, old(self).player, old(self).king_pos, |x: Move| Self::pawn_double(old(self).board@, from, x, old(self).player))),
            final(self).list_at(from) == old(self).list_at(from) + pawn_double_seq(old(self).board@, from, old(self).player, old(self).king_pos),
    {
        proof {
            assert(old(self).list_at(from) + Seq::<Move>::empty() =~= old(self).list_at(from));
        }
        let ghost b = self.board@;
        let ghost c = self.player;
        let ghost kp = self.king_pos;
        let f: i8 = match self.player {
            Color::White => 1,
            Color::Black => -1,
        };
        let ghost target = Self::with_safety(b, from, c, kp, |x: Move| Self::pawn_double(b, from, x, c));
        let mut added = false;
        if from.at_pawn_rank(self.player) {
            if let Some(to) = from.move_y(2 * f) {
                if let Some(mid) = from.move_y(f) {
                    if self.board.at_pos(mid).is_empty() && self.board.at_pos(to).is_empty() {
                        self.try_add(from, Move::Move(to));
                        added = true;
                        proof {
                            crate::pos::lemma_offset_is(from, mid, 0, f as int);
                            let got = |x: Move| x == Move::Move(to) && safe(b, from, Move::Move(to), c, kp);
                            assert forall|x: Move| #[trigger] got(x) == target(x) by {
                                assert(x->Move_0 == x->Move_0);
                            }
                            Self::lemma_adds_same(self, old(self), from, got, target);
                        }
                    }
                }
            }
        }
        if !added {
            proof {
                self.board.lemma_len();
                Self::lemma_adds_nothing(self, from);
                assert forall|x: Move| #[trigger] target(x) == false by {
                    if let Move::Move(to) = x {
                        if Self::pawn_double(b, from, x, c) {
                            crate::pos::lemma_offset_is(from, to, 0, 2 * f as int);
                            let m = square(from.sx(), from.sy() + f);
                            crate::pos::lemma_square_coordinates(from.sx(), from.sy() + f);
                            crate::pos::lemma_offset_is(from, m, 0, f as int);
                        }
                    }
                }
                Self::lemma_adds_same(self, old(self), from, |m: Move| false, target);
            }
        }
    }

    /// Whether the last move was a two-square advance of an enemy pawn onto the square
    /// beside the pawn on `from`, on the file of `to`.
    fn en_passant_open(&self, from: Pos, to: Pos) -> (r: bool)
        requires
            self.base(),
            from.valid(),
            to.valid(),
        ensures
            r == double_advance_to(self.board@, self.last_spec(), to.sx(), from.sy(), self.player),
    {
        let n = self.history.len();
        if n == 0 {
            return false;
        }
        let (_, lfrom, lmove) = self.history[n - 1];
        match lmove {
            Move::Move(lto) => {
                if lfrom.0 >= 64 || lto.0 >= 64 {
                    return false;
                }
                let fy = from.y();
                let rank_ok = match self.player {
                    Color::White => lfrom.y() == fy + 2,
                    Color::Black => lfrom.y() + 2 == fy,
                };
                lto.x() == to.x() && lto.y() == fy && lfrom.x() == to.x() && rank_ok
                    && self.board.at_pos(lto).is_piece(PieceType::Pawn, self.player.flip())
            },
            _ => false,
        }
    }

    /// The pawn on `from` moves onto the diagonal square `to`.
    fn add_pawn_take(&mut self, from: Pos, to: Pos)
        requires
            old(self).gathering(from),
            to.valid(),
            to.sy() == from.sy() + old(self).player.forward(),
        ensures
            final(self).adds(old(self), from, Self::with_safety(old(self).board@, from, old(self).player, old(self).king_pos, |x: Move| Self::pawn_take(old(self).board@, old(self).last_spec(), from, to, x, old(self).player))),
            final(self).list_at(from) == old(self).list_at(from) + pawn_take_seq(old(self).board@, old(self).last_spec(), from, to, old(self).player, old(self).king_pos),
    {
        proof {
            assert(old(self).list_at(from) + Seq::<Move>::empty() =~= old(self).list_at(from));
        }
        let ghost b = self.board@;
        let ghost c = self.player;
        let ghost kp = self.king_pos;
        let ghost last = self.last_spec();
        let ghost target = Self::with_safety(b, from, c, kp, |x: Move| Self::pawn_take(b, last, from, to, x, c));
        let space = self.board.at_pos(to);
        if !space.is_empty() && space.color() != self.player {
            if to.at_y_edge() {
                self.add_promotions(from, to);
                proof {
                    let got = |x: Move| (x matches Move::PawnPromotion(t, p) && p == to && promotion_type(t)) && safe(b, from, x, c, kp);
                    assert forall|x: Move| #[trigger] got(x) == target(x) by {
                        assert(x->Move_0 == x->Move_0);
                    }
                    Self::lemma_adds_same(self, old(self), from, got, target);
                }
            } else {
                self.try_add(from, Move::Move(to));
                proof {
                    let got = |x: Move| x == Move::Move(to) && safe(b, from, Move::Move(to), c, kp);
                    assert forall|x: Move| #[trigger] got(x) == target(x) by {
                        assert(x->Move_0 == x->Move_0);
                    }
                    Self::lemma_adds_same(self, old(self), from, got, target);
                }
            }
        } else if space.is_empty() && self.en_passant_open(from, to) && on_board_after_capture(to, self.player) {
            self.try_add(from, Move::EnPassant(to));
            proof {
                let got = |x: Move| x == Move::EnPassant(to) && safe(b, from, Move::EnPassant(to), c, kp);
                assert forall|x: Move| #[trigger] got(x) == target(x) by {
                    assert(x->Move_0 == x->Move_0);
                }
                Self::lemma_adds_same(self, old(self), from, got, target);
            }
        } else {
            proof {
                Self::lemma_adds_nothing(self, from);
                assert forall|x: Move| #[trigger] target(x) == false by {
                    assert(x->Move_0 == x->Move_0);
                }
                Self::lemma_adds_same(self, old(self), from, |m: Move| false, target);
            }
        }
    }

    /// Diagonal moves onto the square `(dx, forward)` from `from`, where it is on the board.
    spec fn take_at(b: Seq<TaggedPiece>, last: Option<(Pos, Move)>, from: Pos, dx: int, x: Move, c: Color) -> bool {
        match offset(from, dx, c.forward()) {
            Some(t) => Self::pawn_take(b, last, from, t, x, c),
            None => false,
        }
    }

    fn add_pawn_takes(&mut self, from: Pos)
        requires
            old(self).gathering(from),
        ensures
            final(self).adds(old(self), from, Self::with_safety(old(self).board@, from, old(self).player, old(self).king_pos,
                |x: Move| Self::take_at(old(self).board@, old(self).last_spec(), from, 1, x, old(self).player)
                    || Self::take_at(old(self).board@, old(self).last_spec(), from, -1, x, old(self).player))),
            final(self).list_at(from) == old(self).list_at(from) + pawn_takes_seq(old(self).board@, old(self).last_spec(), from, old(self).player, old(self).king_pos),
    {
        proof {
            assert(old(self).list_at(from) + Seq::<Move>::empty() =~= old(self).list_at(from));
        }
        let ghost b = self.board@;
        let ghost c = self.player;
        let ghost kp = self.king_pos;
        let ghost last = self.last_spec();
        let ghost g0 = *self;
        let ghost right = Self::with_safety(b, from, c, kp, |x: Move| Self::take_at(b, last, from, 1, x, c));
        let ghost left = Self::with_safety(b, from, c, kp, |x: Move| Self::take_at(b, last, from, -1, x, c));
        let ghost target = Self::with_safety(b, from, c, kp, |x: Move| Self::take_at(b, last, from, 1, x, c) || Self::take_at(b, last, from, -1, x, c));
        let f: i8 = match self.player {
            Color::White => 1,
            Color::Black => -1,
        };
        proof {
            Self::lemma_adds_nothing(self, from);
        }
        match from.move_y(f) {
            None => {
                proof {
                    assert forall|x: Move| #[trigger] target(x) == false by {
                        crate::pos::lemma_offset_is(from, from, 1, f as int);
                    }
                    Self::lemma_adds_same(self, old(self), from, |m: Move| false, target);
                }
            },
            Some(fw) => {
                proof {
                    crate::pos::lemma_offset_is(from, fw, 0, f as int);
                }
                match fw.add_x(1) {
                    Some(r) => {
                        proof {
                            crate::pos::lemma_offset_is(fw, r, 1, 0);
                            crate::pos::lemma_offset_is(from, r, 1, f as int);
                        }
                        self.add_pawn_take(from, r);
                        proof {
                            let got = Self::with_safety(b, from, c, kp, |x: Move| Self::pawn_take(b, last, from, r, x, c));
                            assert forall|x: Move| #[trigger] got(x) == right(x) by {}
                            Self::lemma_adds_same(self, old(self), from, got, right);
                        }
                    },
                    None => {
                        proof {
                            assert forall|x: Move| #[trigger] right(x) == false by {
                                crate::pos::lemma_offset_is(fw, fw, 1, 0);
                                if let Some(t) = offset(from, 1, f as int) {
                                    crate::pos::lemma_offset_is(from, t, 1, f as int);
                                    crate::pos::lemma_offset_is(fw, t, 1, 0);
                                }
                            }
                            Self::lemma_adds_same(self, old(self), from, |m: Move| false, right);
                        }
                    },
                }
                let ghost g1 = *self;
                match fw.sub_x(1) {
                    Some(l) => {
                        proof {
                            crate::pos::lemma_offset_is(fw, l, -1, 0);
                            crate::pos::lemma_offset_is(from, l, -1, f as int);
                        }
                        self.add_pawn_take(from, l);
                        proof {
                            let got = Self::with_safety(b, from, c, kp, |x: Move| Self::pawn_take(b, last, from, l, x, c));
                            assert forall|x: Move| #[trigger] got(x) == left(x) by {}
                            Self::lemma_adds_same(self, &g1, from, got, left);
                        }
                    },
                    None => {
                        proof {
                            Self::lemma_adds_nothing(self, from);
                            assert forall|x: Move| #[trigger] left(x) == false by {
                                if let Some(t) = offset(from, -1, f as int) {
                                    crate::pos::lemma_offset_is(from, t, -1, f as int);
                                    crate::pos::lemma_offset_is(fw, t, -1, 0);
                                }
                            }
                            Self::lemma_adds_same(self, &g1, from, |m: Move| false, left);
                        }
                    },
                }
                proof {
                    let rp = match offset(fw, 1, 0) {
                        Some(r) => pawn_take_seq(b, last, from, r, c, kp),
                        None => Seq::<Move>::empty(),
                    };
                    let lp = match offset(fw, -1, 0) {
                        Some(l) => pawn_take_seq(b, last, from, l, c, kp),
                        None => Seq::<Move>::empty(),
                    };
                    assert(g1.list_at(from) == g0.list_at(from) + rp);
                    assert(self.list_at(from) == g1.list_at(from) + lp);
                    assert(self.list_at(from) =~= g0.list_at(from) + (rp + lp));
                    Self::lemma_adds_trans(&g0, &g1, self, from, right, left);
                    assert forall|x: Move| #[trigger] Self::union(right, left)(x) == target(x) by {}
                    Self::lemma_adds_same(self, &g0, from, Self::union(right, left), target);
                }
            },
        }
    }

    /// Moves of a pawn on `from`: one square forward, two squares forward, then the
    /// captures to the right and to the left.
    fn add_pawn_moves(&mut self, from: Pos)
        requires
            old(self).gathering(from),
        ensures
            final(self).adds(
                old(self),
                from,
                |x: Move| pawn_move(old(self).board@, old(self).last_spec(), from, x, old(self).player) && safe(old(self).board@, from, x, old(self).player, old(self).king_pos),
            ),
            final(self).list_at(from) == old(self).list_at(from) + (pawn_single_seq(old(self).board@, from, old(self).player, old(self).king_pos) + pawn_double_seq(old(self).board@, from, old(self).player, old(self).king_pos) + pawn_takes_seq(old(self).board@, old(self).last_spec(), from, old(self).player, old(self).king_pos)),
    {
        let ghost b = self.board@;
        let ghost c = self.player;
        let ghost kp = self.king_pos;
        let ghost last = self.last_spec();
        let ghost g0 = *self;
        self.add_pawn_single(from);
        let ghost g1 = *self;
        self.add_pawn_double(from);
        let ghost g2 = *self;
        self.add_pawn_takes(from);
        proof {
            let s1 = Self::with_safety(b, from, c, kp, |x: Move| Self::pawn_single(b, from, x, c));
            let s2 = Self::with_safety(b, from, c, kp, |x: Move| Self::pawn_double(b, from, x, c));
            let s3 = Self::with_safety(b, from, c, kp, |x: Move| Self::take_at(b, last, from, 1, x, c) || Self::take_at(b, last, from, -1, x, c));
            Self::lemma_adds_trans(&g0, &g1, &g2, from, s1, s2);
            Self::lemma_adds_trans(&g0, &g2, self, from, Self::union(s1, s2), s3);
            let target = |x: Move| pawn_move(b, last, from, x, c) && safe(b, from, x, c, kp);
            g0.board.lemma_len();
            lemma_concat3(g0.list_at(from), g1.list_at(from), g2.list_at(from), self.list_at(from),
                pawn_single_seq(b, from, c, kp), pawn_double_seq(b, from, c, kp), pawn_takes_seq(b, last, from, c, kp));
            assert forall|x: Move| #[trigger] Self::union(Self::union(s1, s2), s3)(x) == target(x) by {
                Self::lemma_pawn_cases(b, last, from, x, c);
            }
            Self::lemma_adds_same(self, &g0, from, Self::union(Self::union(s1, s2), s3), target);
        }
    }

    proof fn lemma_pawn_cases(b: Seq<TaggedPiece>, last: Option<(Pos, Move)>, from: Pos, x: Move, c: Color)
        requires
            from.valid(),
            b.len() == 64,
        ensures
            pawn_move(b, last, from, x, c) == (Self::pawn_single(b, from, x, c) || Self::pawn_double(b, from, x, c)
                || Self::take_at(b, last, from, 1, x, c) || Self::take_at(b, last, from, -1, x, c)),
    {
        let f = c.forward();
        let to = match x {
            Move::Move(t) => t,
            Move::PawnPromotion(_, t) => t,
            Move::EnPassant(t) => t,
            _ => from,
        };
        crate::pos::lemma_offset_is(from, to, 0, f);
        crate::pos::lemma_offset_is(from, to, 0, 2 * f);
        crate::pos::lemma_offset_is(from, to, 1, f);
        crate::pos::lemma_offset_is(from, to, -1, f);
        if let Some(t) = offset(from, 1, f) {
            crate::pos::lemma_offset_is(from, t, 1, f);
        }
        if let Some(t) = offset(from, -1, f) {
            crate::pos::lemma_offset_is(from, t, -1, f);
        }
    }

    /// Castling moves of the king on `from`: queen side, then king side.
    fn add_castling_moves(&mut self, from: Pos)
        requires
            old(self).gathering(from),
        ensures
            final(self).adds(
                old(self),
                from,
                |x: Move| castle_move(old(self).board@, from, x, old(self).player) && safe(old(self).board@, from, x, old(self).player, old(self).king_pos),
            ),
            final(self).list_at(from) == old(self).list_at(from) + castle_seq(old(self).board@, from, old(self).player, old(self).king_pos),
    {
        proof {
            assert(old(self).list_at(from) + Seq::<Move>::empty() =~= old(self).list_at(from));
        }
        let ghost b = self.board@;
        let ghost c = self.player;
        let ghost kp = self.king_pos;
        let ghost g0 = *self;
        let ghost target = |x: Move| castle_move(b, from, x, c) && safe(b, from, x, c, kp);
        proof {
            self.board.lemma_len();
        }
        let y: u8 = match self.player {
            Color::White => 0,
            Color::Black => 7,
        };
        let king_home = Pos::new_xy(4, y);
        let king = self.board.at_pos(from);
        if from != king_home || !king.is_original() || !king.is_piece(PieceType::King, self.player) {
            proof {
                Self::lemma_adds_nothing(self, from);
                assert forall|x: Move| #[trigger] target(x) == false by {}
                Self::lemma_adds_same(self, old(self), from, |m: Move| false, target);
            }
            return;
        }
        let mut without_king = self.board;
        without_king.set_pos(king_home, TaggedPiece::empty());
        let ghost queen_side = |x: Move| x == Move::QueenSideCastling && castle_move(b, from, x, c) && safe(b, from, x, c, kp);
        let ghost king_side = |x: Move| x == Move::KingSideCastling && castle_move(b, from, x, c) && safe(b, from, x, c, kp);
        let rook = self.board.at_xy(0, y);
        if rook.is_original() && rook.is_piece(PieceType::Rook, self.player)
            && self.board.at_xy(1, y).is_empty() && self.board.at_xy(2, y).is_empty()
            && self.board.at_xy(3, y).is_empty()
            && !without_king.pos_in_danger(king_home, self.player)
            && !without_king.pos_in_danger(Pos::new_xy(3, y), self.player)
            && !without_king.pos_in_danger(Pos::new_xy(2, y), self.player) {
            self.try_add(from, Move::QueenSideCastling);
            proof {
                let got = |x: Move| x == Move::QueenSideCastling && safe(b, from, Move::QueenSideCastling, c, kp);
                assert forall|x: Move| #[trigger] got(x) == queen_side(x) by {}
                Self::lemma_adds_same(self, old(self), from, got, queen_side);
            }
        } else {
            proof {
                Self::lemma_adds_nothing(self, from);
                assert forall|x: Move| #[trigger] queen_side(x) == false by {}
                Self::lemma_adds_same(self, old(self), from, |m: Move| false, queen_side);
            }
        }
        let ghost g1 = *self;
        let rook = self.board.at_xy(7, y);
        if rook.is_original() && rook.is_piece(PieceType::Rook, self.player)
            && self.board.at_xy(5, y).is_empty() && self.board.at_xy(6, y).is_empty()
            && !without_king.pos_in_danger(king_home, self.player)
            && !without_king.pos_in_danger(Pos::new_xy(5, y), self.player)
            && !without_king.pos_in_danger(Pos::new_xy(6, y), self.player) {
            self.try_add(from, Move::KingSideCastling);
            proof {
                let got = |x: Move| x == Move::KingSideCastling && safe(b, from, Move::KingSideCastling, c, kp);
                assert forall|x: Move| #[trigger] got(x) == king_side(x) by {}
                Self::lemma_adds_same(self, &g1, from, got, king_side);
            }
        } else {
            proof {
                Self::lemma_adds_nothing(self, from);
                assert forall|x: Move| #[trigger] king_side(x) == false by {}
                Self::lemma_adds_same(self, &g1, from, |m: Move| false, king_side);
            }
        }
        proof {
            Self::lemma_adds_trans(&g0, &g1, self, from, queen_side, king_side);
            assert forall|x: Move| #[trigger] Self::union(queen_side, king_side)(x) == target(x) by {}
            Self::lemma_adds_same(self, &g0, from, Self::union(queen_side, king_side), target);
        }
    }

    /// Records the legal moves of the piece on `pos`, if it belongs to the side to
    /// move; returns whether it has any.
    fn calculate_moves_for(&mut self, pos: Pos) -> (r: bool)
        requires
            old(self).base(),
            pos.valid(),
        ensures
            final(self).base(),
            final(self).frame(old(self)),
            old(self).board@[pos.idx()].holds(old(self).player) ==> {
                &&& final(self).entries() == old(self).entries().update(pos.idx(), Some(final(self).list_at(pos)))
                &&& forall|m: Move| #[trigger] final(self).list_at(pos).contains(m) == old(self).legal_here(pos, m)
                &&& final(self).list_at(pos) == piece_seq(old(self).board@, old(self).last_spec(), pos, old(self).player, old(self).king_pos)
                &&& r == (final(self).list_at(pos).len() > 0)
            },
            !old(self).board@[pos.idx()].holds(old(self).player) ==> final(self).entries() == old(self).entries() && !r,
    {
        proof {
            self.board.lemma_len();
        }
        let piece = self.board.at_pos(pos);
        if piece.is_empty() || piece.color() != self.player {
            return false;
        }
        let ghost b = self.board@;
        let ghost c = self.player;
        let ghost kp = self.king_pos;
        let ghost last = self.last_spec();
        self.move_map.set_current_pos(pos);
        let ghost g1 = *self;
        proof {
            old(self).move_map.lemma_entries_len();
            self.move_map.lemma_entries_len();
            assert(self.list_at(pos) == Seq::<Move>::empty());
        }
        match piece.get_type() {
            PieceType::Pawn => {
                self.add_pawn_moves(pos);
            },
            PieceType::Rook => {
                self.add_straight_moves(pos);
            },
            PieceType::Knight => {
                self.add_knight_moves(pos);
            },
            PieceType::Bishop => {
                self.add_diagonal_moves(pos);
            },
            PieceType::Queen => {
                self.add_diagonal_moves(pos);
                let ghost g2 = *self;
                self.add_straight_moves(pos);
                proof {
                    assert(self.list_at(pos) =~= g1.list_at(pos) + (diagonal_seq(b, pos, c, kp) + straight_seq(b, pos, c, kp)));
                    Self::lemma_adds_trans(
                        &g1,
                        &g2,
                        self,
                        pos,
                        |x: Move| diagonal_move(b, pos, x, c) && safe(b, pos, x, c, kp),
                        |x: Move| straight_move(b, pos, x, c) && safe(b, pos, x, c, kp),
                    );
                }
            },
            PieceType::King => {
                self.add_king_moves(pos);
                let ghost g2 = *self;
                self.add_castling_moves(pos);
                proof {
                    assert(self.list_at(pos) =~= g1.list_at(pos) + (steps_seq(b, pos, king_offsets(), 8, c, kp) + castle_seq(b, pos, c, kp)));
                    Self::lemma_adds_trans(
                        &g1,
                        &g2,
                        self,
                        pos,
                        |x: Move| king_step(b, pos, x, c) && safe(b, pos, x, c, kp),
                        |x: Move| castle_move(b, pos, x, c) && safe(b, pos, x, c, kp),
                    );
                }
            },
        }
        proof {
            old(self).move_map.lemma_entries_len();
            assert(Seq::<Move>::empty() + piece_seq(b, last, pos, c, kp) =~= piece_seq(b, last, pos, c, kp));
            assert(self.list_at(pos) == piece_seq(b, last, pos, c, kp));
            assert(self.move_map.entries() =~= old(self).move_map.entries().update(pos.idx(), Some(self.list_at(pos))));
            assert forall|m: Move| #[trigger] self.list_at(pos).contains(m) == old(self).legal_here(pos, m) by {
                if self.list_at(pos).contains(m) {
                    assert(!g1.list_at(pos).contains(m));
                }
            }
        }
        self.move_map.current_pos_moves_len() > 0
    }

    spec fn entry_ok(&self, j: int) -> bool {
        &&& (self.move_map.entries()[j] is Some) == self.board@[j].holds(self.player)
        &&& self.move_map.entries()[j] is Some ==> self.move_map.entries()[j]->Some_0 == piece_seq(self.board@, self.last_spec(), Pos(j as u8), self.player, self.king_pos)
        &&& self.move_map.entries()[j] is Some ==> forall|m: Move|
            #[trigger] self.move_map.entries()[j]->Some_0.contains(m) == legal(self.board@, self.last_spec(), self.king_pos, Pos(j as u8), m, self.player)
    }

    proof fn lemma_can_move(&self)
        requires
            self.wf(),
        ensures
            self.can_move() == exists|j: int| 0 <= j < 64 && #[trigger] self.move_map.entries()[j] is Some && self.move_map.entries()[j]->Some_0.len() > 0,
    {
        self.board.lemma_len();
        let e = self.move_map.entries();
        if self.can_move() {
            let (p, m) = choose|p: Pos, m: Move| legal(self.board@, self.last_spec(), self.king_pos, p, m, self.player);
            let j = p.idx();
            assert(Pos(j as u8) == p);
            assert(e[j] is Some);
            assert(e[j]->Some_0.contains(m));
        }
        if exists|j: int| 0 <= j < 64 && #[trigger] e[j] is Some && e[j]->Some_0.len() > 0 {
            let j = choose|j: int| 0 <= j < 64 && #[trigger] e[j] is Some && e[j]->Some_0.len() > 0;
            let m = e[j]->Some_0[0];
            assert(e[j]->Some_0.contains(m));
            assert(legal(self.board@, self.last_spec(), self.king_pos, Pos(j as u8), m, self.player));
        }
    }

    /// Records the legal moves of every piece of the side to move; returns true when
    /// there are none.
    fn calculate_all_moves(&mut self) -> (r: bool)
        requires
            old(self).base(),
            forall|j: int| 0 <= j < 64 ==> #[trigger] old(self).move_map.entries()[j] is None,
        ensures
            final(self).wf(),
            final(self).frame(old(self)),
            r == !final(self).can_move(),
    {
        let mut any = false;
        let mut i: u8 = 0;
        while i < 64
            invariant
                0 <= i <= 64,
                self.base(),
                self.frame(old(self)),
                forall|j: int| 0 <= j < i ==> #[trigger] self.entry_ok(j),
                forall|j: int| i <= j < 64 ==> #[trigger] self.move_map.entries()[j] is None,
                any == exists|j: int| 0 <= j < i && #[trigger] self.move_map.entries()[j] is Some && self.move_map.entries()[j]->Some_0.len() > 0,
            decreases 64 - i,
        {
            let ghost before = *self;
            let pos = Pos::new_index(i);
            let found = self.calculate_moves_for(pos);
            proof {
                before.move_map.lemma_entries_len();
                assert forall|j: int| 0 <= j < i + 1 implies #[trigger] self.entry_ok(j) by {
                    if j < i {
                        assert(before.entry_ok(j));
                    }
                }
            }
            any = any || found;
            i = i + 1;
        }
        proof {
            self.board.lemma_len();
            assert forall|j: int| 0 <= j < 64 implies #[trigger] self.move_map.entries()[j] is Some == self.board@[j].holds(self.player) by {
                assert(self.entry_ok(j));
            }
            assert(lists_exact(self.move_map.entries(), self.board@, self.last_spec(), self.king_pos, self.player)) by {
                assert forall|j: int| 0 <= j < 64 implies {
                    &&& (#[trigger] self.move_map.entries()[j] is Some) == self.board@[j].holds(self.player)
                    &&& self.move_map.entries()[j] is Some ==> self.move_map.entries()[j]->Some_0 == piece_seq(self.board@, self.last_spec(), Pos(j as u8), self.player, self.king_pos)
                    &&& self.move_map.entries()[j] is Some ==> forall|m: Move|
                        (#[trigger] self.move_map.entries()[j]->Some_0.contains(m)) == legal(self.board@, self.last_spec(), self.king_pos, Pos(j as u8), m, self.player)
                } by {
                    assert(self.entry_ok(j));
                }
            }
            self.lemma_can_move();
        }
        !any
    }

    /// Hands the turn to the other side: the king square and the legal moves are
    /// found anew. Returns true when the new side has no legal move.
    fn next_side(&mut self) -> (r: bool)
        requires
            old(self).move_map.wf(),
        ensures
            final(self).wf(),
            final(self).board@ == old(self).board@,
            final(self).history@ == old(self).history@,
            final(self).player == old(self).player.other(),
            r == !final(self).can_move(),
    {
        self.move_map.clear();
        self.player = self.player.flip();
        self.king_pos = self.board.find_first_of_type(PieceType::King, self.player);
        proof {
            if let Some(p) = self.king_pos {
                assert(Pos(p.idx() as u8) == p);
            }
        }
        self.calculate_all_moves()
    }

    /// The moves played, each with the board before it and the square it started from.
    pub closed spec fn history_spec(&self) -> Seq<(Seq<TaggedPiece>, Pos, Move)> {
        self.history@.map_values(|e: (Board, Pos, Move)| (e.0@, e.1, e.2))
    }

    /// The last move played is the last entry of the history.
    pub proof fn lemma_last_move(&self)
        ensures
            self.last_spec() == (if self.history_spec().len() > 0 {
                Some((self.history_spec().last().1, self.history_spec().last().2))
            } else {
                None::<(Pos, Move)>
            }),
    {
    }

    proof fn lemma_pseudo_applicable(b: Seq<TaggedPiece>, last: Option<(Pos, Move)>, from: Pos, m: Move, c: Color)
        requires
            pseudo_legal(b, last, from, m, c),
        ensures
            applicable(from, m, c),
            from.valid(),
    {
    }

    /// A move is in the list of a square holding a piece of the side to move exactly
    /// when it is legal.
    pub proof fn lemma_listed_iff_legal(&self, p: Pos, m: Move)
        requires
            self.wf(),
            p.valid(),
            self.board_spec()[p.idx()].holds(self.player_spec()),
        ensures
            piece_seq(self.board_spec(), self.last_spec(), p, self.player_spec(), self.king_spec()).contains(m)
                == self.legal_here(p, m),
    {
        self.board.lemma_len();
        assert(Pos(p.idx() as u8) == p);
        assert(self.move_map.entries()[p.idx()] is Some);
        assert(self.move_map.entries()[p.idx()]->Some_0.contains(m) == self.legal_here(p, m));
    }

    /// A game on `board` with `player` to move. A side without a king has no king to
    /// keep safe: every move its pieces can make is legal, and it is never in check.
    pub fn from_board(board: Board, player: Color) -> (r: Game)
        ensures
            r.wf(),
            r.board_spec() == board@,
            r.player_spec() == player,
            r.history_spec().len() == 0,
    {
        let king_pos = board.find_first_of_type(PieceType::King, player);
        let mut game = Game { board, move_map: MoveMap::new(), history: Vec::new(), player, king_pos };
        proof {
            if let Some(p) = king_pos {
                assert(Pos(p.idx() as u8) == p);
            }
        }
        game.calculate_all_moves();
        proof {
            assert(game.history_spec() =~= Seq::empty());
        }
        game
    }

    /// A game from the starting position, White to move.
    pub fn new() -> (r: Game)
        ensures
            r.wf(),
            r.board_spec() == crate::board::initial_layout(),
            r.player_spec() == Color::White,
            r.history_spec().len() == 0,
    {
        Game::from_board(Board::new(), Color::White)
    }

    /// Hands the turn to the other side without a move; returns true when that side
    /// then has no legal move.
    pub fn switch_side(&mut self) -> (r: bool)
        requires
            old(self).wf(),
        ensures
            final(self).wf(),
            final(self).board_spec() == old(self).board_spec(),
            final(self).history_spec() == old(self).history_spec(),
            final(self).player_spec() == old(self).player_spec().other(),
            r == !final(self).can_move(),
    {
        self.next_side()
    }

    pub fn current_color(&self) -> (r: Color)
        ensures
            r == self.player_spec(),
    {
        self.player
    }

    /// Whether the king of the side to move is attacked.
    pub fn is_king_in_danger(&self) -> (r: bool)
        requires
            self.wf(),
        ensures
            r == in_check(self.board_spec(), self.king_spec(), self.player_spec()),
            self.king_spec() == king_square(self.board_spec(), self.player_spec()),
    {
        proof {
            self.lemma_king_valid();
        }
        match self.king_pos {
            None => false,
            Some(k) => self.board.pos_in_danger(k, self.player),
        }
    }

    /// The legal moves of the piece on `pos`, each once, in the order of `piece_seq`:
    /// `None` unless it belongs to the side to move.
    pub fn moves_for_pos(&self, pos: Pos) -> (r: Option<&[Move]>)
        requires
            self.wf(),
            pos.valid(),
        ensures
            r is Some == self.board_spec()[pos.idx()].holds(self.player_spec()),
            r matches Some(s) ==> forall|m: Move| #[trigger] s@.contains(m) == self.legal_here(pos, m),
            r matches Some(s) ==> s@ == piece_seq(self.board_spec(), self.last_spec(), pos, self.player_spec(), self.king_spec()),
            r matches Some(s) ==> s@.no_duplicates(),
    {
        proof {
            crate::distinct::lemma_piece_seq_distinct(self.board@, self.last_spec(), pos, self.player, self.king_pos);
            self.board.lemma_len();
            assert(Pos(pos.idx() as u8) == pos);
        }
        self.move_map.at(pos)
    }

    /// Plays `m` from `from` when it is a legal move of the side to move; otherwise
    /// nothing changes and the result is `InvalidMove`.
    pub fn play(&mut self, from: Pos, m: Move) -> (r: GameResult)
        requires
            old(self).wf(),
            from.valid(),
        ensures
            final(self).wf(),
            !old(self).legal_here(from, m) ==> r == GameResult::InvalidMove && *final(self) == *old(self),
            old(self).legal_here(from, m) ==> {
                &&& final(self).board_spec() == after_move_spec(old(self).board_spec(), from, m, old(self).player_spec())
                &&& final(self).player_spec() == old(self).player_spec().other()
                &&& final(self).history_spec() == old(self).history_spec().push((old(self).board_spec(), from, m))
                &&& r == if final(self).can_move() {
                    GameResult::Played
                } else if in_check(final(self).board_spec(), final(self).king_spec(), final(self).player_spec()) {
                    GameResult::Checkmate
                } else {
                    GameResult::Stalemate
                }
            },
    {
        proof {
            self.board.lemma_len();
            assert(Pos(from.idx() as u8) == from);
        }
        if let Move::Null = m {
            return GameResult::InvalidMove;
        }
        let listed = match self.move_map.at(from) {
            None => false,
            Some(moves) => slice_contains(moves, m),
        };
        if !listed {
            return GameResult::InvalidMove;
        }
        proof {
            Self::lemma_pseudo_applicable(self.board@, self.last_spec(), from, m, self.player);
        }
        let before = self.board;
        self.history.push((before, from, m));
        self.board = before.after_move(from, m, self.player);
        proof {
            assert(self.history_spec() =~= old(self).history_spec().push((old(self).board_spec(), from, m)));
        }
        let stuck = self.next_side();
        if stuck {
            if self.is_king_in_danger() {
                GameResult::Checkmate
            } else {
                GameResult::Stalemate
            }
        } else {
            GameResult::Played
        }
    }

    /// `play` from the square at `(from_x, from_y)`.
    pub fn play_xy(&mut self, from_x: u8, from_y: u8, m: Move) -> (r: GameResult)
        requires
            old(self).wf(),
            from_x < 8,
            from_y < 8,
        ensures
            final(self).wf(),
            !old(self).legal_here(square(from_x as int, from_y as int), m) ==> r == GameResult::InvalidMove && *final(self) == *old(self),
            old(self).legal_here(square(from_x as int, from_y as int), m) ==> {
                &&& final(self).board_spec() == after_move_spec(old(self).board_spec(), square(from_x as int, from_y as int), m, old(self).player_spec())
                &&& final(self).player_spec() == old(self).player_spec().other()
                &&& final(self).history_spec() == old(self).history_spec().push((old(self).board_spec(), square(from_x as int, from_y as int), m))
                &&& r == if final(self).can_move() {
                    GameResult::Played
                } else if in_check(final(self).board_spec(), final(self).king_spec(), final(self).player_spec()) {
                    GameResult::Checkmate
                } else {
                    GameResult::Stalemate
                }
            },
    {
        self.play(Pos::new_xy(from_x, from_y), m)
    }

    /// Takes back the last move: the board before it comes back, the turn returns to
    /// the side that played it, and its legal moves are found anew. Returns false,
    /// changing nothing, when no move was played.
    pub fn undo(&mut self) -> (r: bool)
        requires
            old(self).wf(),
        ensures
            final(self).wf(),
            r == (old(self).history_spec().len() > 0),
            !r ==> *final(self) == *old(self),
            r ==> {
                &&& final(self).board_spec() == old(self).history_spec().last().0
                &&& final(self).history_spec() == old(self).history_spec().drop_last()
                &&& final(self).player_spec() == old(self).player_spec().other()
            },
    {
        let n = self.history.len();
        if n == 0 {
            return false;
        }
        let (board, _, _) = self.history[n - 1];
        self.board = board;
        self.history.truncate(n - 1);
        proof {
            assert(self.history_spec() =~= old(self).history_spec().drop_last());
        }
        self.next_side();
        true
    }

    pub fn at_xy(&self, x: u8, y: u8) -> (r: TaggedPiece)
        requires
            x < 8,
            y < 8,
        ensures
            r == at(self.board_spec(), x as int, y as int),
    {
        self.board.at_xy(x, y)
    }

    pub fn at_pos(&self, pos: Pos) -> (r: TaggedPiece)
        requires
            pos.valid(),
        ensures
            r == self.board_spec()[pos.idx()],
    {
        self.board.at_pos(pos)
    }

    pub fn at_index(&self, i: usize) -> (r: TaggedPiece)
        requires
            i < 64,
        ensures
            r == self.board_spec()[i as int],
    {
        self.board.at_index(i)
    }

    pub fn board(&self) -> (r: &Board)
        ensures
            r@ == self.board_spec(),
    {
        &self.board
    }
}

/// Whether `m` is among `moves`.
pub fn slice_contains(moves: &[Move], m: Move) -> (r: bool)
    ensures
        r == moves@.contains(m),
{
    let mut i: usize = 0;
    while i < moves.len()
        invariant
            0 <= i <= moves@.len(),
            forall|j: int| 0 <= j < i ==> moves@[j] != m,
        decreases moves@.len() - i,
    {
        if moves[i] == m {
            return true;
        }
        i = i + 1;
    }
    false
}

/// The square behind `to`, from where a pawn of `color` captures en passant, is on
/// the board.
fn on_board_after_capture(to: Pos, color: Color) -> (r: bool)
    requires
        to.valid(),
    ensures
        r == on_board(to.sx(), to.sy() - color.forward()),
{
    match color {
        Color::White => to.y() >= 1,
        Color::Black => to.y() <= 6,
    }
}

} // verus!
