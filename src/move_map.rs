use vstd::prelude::*;

use crate::chess_move::Move;
use crate::pos::Pos;

verus! {

/// The legal moves of one ply, by the square they start from. Moves are kept on one
/// stack, each square's moves in one run of it.
pub struct MoveMap {
    moves: Vec<Move>,
    start: Vec<usize>,
    len: Vec<usize>,
    used: Vec<bool>,
    current: usize,
}

impl MoveMap {
    /// The moves recorded for each of the 64 squares; `None` for a square that was
    /// never set up in this ply.
    pub closed spec fn entries(&self) -> Seq<Option<Seq<Move>>> {
        Seq::new(
            64,
            |i: int|
                if self.used@[i] {
                    Some(self.moves@.subrange(self.start@[i] as int, self.start@[i] + self.len@[i]))
                } else {
                    None
                },
        )
    }

    /// The square whose moves `insert` adds to.
    pub closed spec fn current_spec(&self) -> int {
        self.current as int
    }

    pub closed spec fn wf(&self) -> bool {
        &&& self.start@.len() == 64
        &&& self.len@.len() == 64
        &&& self.used@.len() == 64
        &&& self.current < 64
        &&& forall|i: int|
            0 <= i < 64 && #[trigger] self.used@[i] ==> self.start@[i] + self.len@[i]
                <= self.moves@.len()
    }

    /// `insert` may add to the current square's moves.
    pub closed spec fn open(&self) -> bool {
        &&& self.used@[self.current as int]
        &&& self.start@[self.current as int] + self.len@[self.current as int] == self.moves@.len()
    }

    pub proof fn lemma_entries_len(&self)
        ensures
            self.entries().len() == 64,
    {
    }

    pub fn new() -> (r: MoveMap)
        ensures
            r.wf(),
            r.entries() == Seq::new(64, |i: int| None::<Seq<Move>>),
    {
        let mut start: Vec<usize> = Vec::new();
        let mut len: Vec<usize> = Vec::new();
        let mut used: Vec<bool> = Vec::new();
        let mut i: usize = 0;
        while i < 64
            invariant
                0 <= i <= 64,
                start@.len() == i,
                len@.len() == i,
                used@.len() == i,
                forall|j: int| 0 <= j < i ==> !(#[trigger] used@[j]),
            decreases 64 - i,
        {
            start.push(0);
            len.push(0);
            used.push(false);
            i = i + 1;
        }
        let r = MoveMap { moves: Vec::new(), start, len, used, current: 0 };
        assert(r.entries() =~= Seq::new(64, |i: int| None::<Seq<Move>>));
        r
    }

    /// The number of moves recorded so far for the current square.
    pub fn current_pos_moves_len(&self) -> (r: usize)
        requires
            self.wf(),
            self.entries()[self.current_spec()] is Some,
        ensures
            r == self.entries()[self.current_spec()]->Some_0.len(),
    {
        self.len[self.current]
    }

    /// The moves recorded for `pos`, or `None` if it was not set up in this ply.
    pub fn at(&self, pos: Pos) -> (r: Option<&[Move]>)
        requires
            self.wf(),
            pos.valid(),
        ensures
            r is Some == self.entries()[pos.idx()] is Some,
            r matches Some(s) ==> s@ == self.entries()[pos.idx()]->Some_0,
    {
        let i = pos.index();
        if self.used[i] {
            let s = self.start[i];
            assert(self.used@[i as int]);
            let _total = self.moves.len();
            Some(vstd::slice::slice_subrange(self.moves.as_slice(), s, s + self.len[i]))
        } else {
            None
        }
    }

    /// Starts a fresh, empty list of moves for `pos`, and makes it current.
    pub fn set_current_pos(&mut self, pos: Pos)
        requires
            old(self).wf(),
            pos.valid(),
        ensures
            final(self).wf(),
            final(self).open(),
            final(self).current_spec() == pos.idx(),
            final(self).entries() == old(self).entries().update(pos.idx(), Some(Seq::<Move>::empty())),
    {
        let i = pos.index();
        let n = self.moves.len();
        self.used.set(i, true);
        self.start.set(i, n);
        self.len.set(i, 0);
        self.current = i;
        assert(self.moves@.subrange(n as int, n as int) =~= Seq::<Move>::empty());
        assert(self.entries() =~= old(self).entries().update(pos.idx(), Some(Seq::<Move>::empty())));
    }

    /// Adds `m` to the current square's moves.
    pub fn insert(&mut self, m: Move)
        requires
            old(self).wf(),
            old(self).open(),
        ensures
            final(self).wf(),
            final(self).open(),
            final(self).current_spec() == old(self).current_spec(),
            final(self).entries() == old(self).entries().update(
                old(self).current_spec(),
                Some(old(self).entries()[old(self).current_spec()]->Some_0.push(m)),
            ),
    {
        let c = self.current;
        let ghost old_moves = self.moves@;
        self.moves.push(m);
        let l = self.len[c];
        let _total = self.moves.len();
        self.len.set(c, l + 1);
        let ghost st = self.start@[c as int] as int;
        assert(self.moves@.subrange(st, st + l + 1) =~= old_moves.subrange(st, st + l).push(m));
        assert forall|i: int| 0 <= i < 64 && #[trigger] self.used@[i] && i != c implies self.moves@.subrange(
            self.start@[i] as int,
            self.start@[i] + self.len@[i],
        ) =~= old_moves.subrange(self.start@[i] as int, self.start@[i] + self.len@[i]) by {}
        assert(self.entries() =~= old(self).entries().update(
            old(self).current_spec(),
            Some(old(self).entries()[old(self).current_spec()]->Some_0.push(m)),
        ));
    }

    /// Forgets every square's moves.
    pub fn clear(&mut self)
        requires
            old(self).wf(),
        ensures
            final(self).wf(),
            final(self).entries() == Seq::new(64, |i: int| None::<Seq<Move>>),
    {
        self.moves = Vec::new();
        let mut i: usize = 0;
        while i < 64
            invariant
                0 <= i <= 64,
                self.start@.len() == 64,
                self.len@.len() == 64,
                self.used@.len() == 64,
                self.current < 64,
                self.moves@.len() == 0,
                forall|j: int| 0 <= j < i ==> !(#[trigger] self.used@[j]),
            decreases 64 - i,
        {
            self.used.set(i, false);
            i = i + 1;
        }
        assert(self.entries() =~= Seq::new(64, |i: int| None::<Seq<Move>>));
    }
}

} // verus!
