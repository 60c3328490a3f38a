use vstd::prelude::*;

use crate::color::Color;

verus! {

/// A square of the board, packed as `x + 8 * y`. Any value from 64 up marks no square.
#[derive(Clone, Copy, PartialEq, Eq, Structural, Debug)]
pub struct Pos(pub u8);

/// Whether the coordinates lie on the 8 x 8 board.
pub open spec fn on_board(x: int, y: int) -> bool {
    0 <= x < 8 && 0 <= y < 8
}

/// The square at the given coordinates.
pub open spec fn square(x: int, y: int) -> Pos {
    Pos((x + 8 * y) as u8)
}

/// The square reached by stepping `(dx, dy)` from `p`, if it is on the board.
pub open spec fn offset(p: Pos, dx: int, dy: int) -> Option<Pos> {
    if on_board(p.sx() + dx, p.sy() + dy) {
        Some(square(p.sx() + dx, p.sy() + dy))
    } else {
        None
    }
}

pub open spec fn abs(v: int) -> int {
    if v < 0 {
        -v
    } else {
        v
    }
}

/// Largest value that a step of `move_x` and friends may take.
pub const STEP_LIMIT: i8 = 127;

impl Pos {
    pub open spec fn valid(self) -> bool {
        self.0 < 64
    }

    pub open spec fn idx(self) -> int {
        self.0 as int
    }

    pub open spec fn sx(self) -> int {
        self.0 as int % 8
    }

    pub open spec fn sy(self) -> int {
        self.0 as int / 8
    }

    pub fn new_xy(x: u8, y: u8) -> (r: Pos)
        requires
            x < 8,
            y < 8,
        ensures
            r == square(x as int, y as int),
            r.valid(),
            r.sx() == x,
            r.sy() == y,
    {
        Pos(x + y * 8)
    }

    pub fn new_index(i: u8) -> (r: Pos)
        requires
            i < 64,
        ensures
            r.0 == i,
            r.valid(),
    {
        Pos(i)
    }

    /// Builds a square from coordinates, or `None` where they leave the board.
    pub fn try_xy(x: u8, y: u8) -> (r: Option<Pos>)
        ensures
            r == (if x < 8 && y < 8 {
                Some(square(x as int, y as int))
            } else {
                None::<Pos>
            }),
    {
        if x < 8 && y < 8 {
            Some(Pos::new_xy(x, y))
        } else {
            None
        }
    }

    /// Builds a square from an index, or `None` from 64 up.
    pub fn try_index(i: u8) -> (r: Option<Pos>)
        ensures
            r == (if i < 64 {
                Some(Pos(i))
            } else {
                None::<Pos>
            }),
    {
        if i < 64 {
            Some(Pos(i))
        } else {
            None
        }
    }

    /// The marker for no square.
    pub fn invalid() -> (r: Pos)
        ensures
            r.0 == 255,
            !r.valid(),
    {
        Pos(255)
    }

    pub fn index(&self) -> (r: usize)
        ensures
            r == self.idx(),
    {
        self.0 as usize
    }

    pub fn xy(&self) -> (r: (u8, u8))
        ensures
            r.0 == self.sx(),
            r.1 == self.sy(),
    {
        (self.x(), self.y())
    }

    pub fn x(&self) -> (r: u8)
        ensures
            r == self.sx(),
    {
        self.0 % 8
    }

    pub fn y(&self) -> (r: u8)
        ensures
            r == self.sy(),
    {
        self.0 / 8
    }

    pub fn add_x(&self, x: u8) -> (r: Option<Pos>)
        requires
            self.valid(),
        ensures
            r == offset(*self, x as int, 0),
    {
        if x < 8 - self.x() {
            Some(Pos(self.0 + x))
        } else {
            None
        }
    }

    pub fn sub_x(&self, x: u8) -> (r: Option<Pos>)
        requires
            self.valid(),
        ensures
            r == offset(*self, -(x as int), 0),
    {
        if x <= self.x() {
            Some(Pos(self.0 - x))
        } else {
            None
        }
    }

    pub fn move_x(&self, x: i8) -> (r: Option<Pos>)
        requires
            self.valid(),
            -STEP_LIMIT <= x,
        ensures
            r == offset(*self, x as int, 0),
    {
        if x > 0 {
            self.add_x(x as u8)
        } else {
            self.sub_x((-x) as u8)
        }
    }

    pub fn add_y(&self, y: u8) -> (r: Option<Pos>)
        requires
            self.valid(),
        ensures
            r == offset(*self, 0, y as int),
    {
        if y < 8 - self.y() {
            Some(Pos(self.0 + y * 8))
        } else {
            None
        }
    }

    pub fn sub_y(&self, y: u8) -> (r: Option<Pos>)
        requires
            self.valid(),
        ensures
            r == offset(*self, 0, -(y as int)),
    {
        if y <= self.y() {
            Some(Pos(self.0 - y * 8))
        } else {
            None
        }
    }

    pub fn move_y(&self, y: i8) -> (r: Option<Pos>)
        requires
            self.valid(),
            -STEP_LIMIT <= y,
        ensures
            r == offset(*self, 0, y as int),
    {
        if y > 0 {
            self.add_y(y as u8)
        } else {
            self.sub_y((-y) as u8)
        }
    }

    pub fn move_xy(&self, x: i8, y: i8) -> (r: Option<Pos>)
        requires
            self.valid(),
            -STEP_LIMIT <= x,
            -STEP_LIMIT <= y,
        ensures
            r == offset(*self, x as int, y as int),
    {
        match self.move_x(x) {
            Some(p) => p.move_y(y),
            None => None,
        }
    }

    pub fn at_left_edge(&self) -> (r: bool)
        ensures
            r == (self.sx() == 0),
    {
        self.x() == 0
    }

    pub fn at_right_edge(&self) -> (r: bool)
        ensures
            r == (self.sx() == 7),
    {
        self.x() == 7
    }

    pub fn at_x_edge(&self) -> (r: bool)
        ensures
            r == (self.sx() == 0 || self.sx() == 7),
    {
        self.at_left_edge() || self.at_right_edge()
    }

    pub fn at_white_edge(&self) -> (r: bool)
        ensures
            r == (self.sy() == 0),
    {
        self.y() == 0
    }

    pub fn at_black_edge(&self) -> (r: bool)
        ensures
            r == (self.sy() == 7),
    {
        self.y() == 7
    }

    pub fn at_y_edge(&self) -> (r: bool)
        ensures
            r == (self.sy() == 0 || self.sy() == 7),
    {
        self.at_white_edge() || self.at_black_edge()
    }

    pub fn at_pawn_rank(&self, color: Color) -> (r: bool)
        ensures
            r == (self.sy() == color.home_rank() + color.forward()),
    {
        let y = self.y();
        match color {
            Color::White => y == 1,
            Color::Black => y == 6,
        }
    }

    pub fn distance_x(&self, other: &Pos) -> (r: u8)
        ensures
            r == abs(self.sx() - other.sx()),
    {
        let a = self.x();
        let b = other.x();
        if a >= b {
            a - b
        } else {
            b - a
        }
    }

    pub fn distance_y(&self, other: &Pos) -> (r: u8)
        ensures
            r == abs(self.sy() - other.sy()),
    {
        let a = self.y();
        let b = other.y();
        if a >= b {
            a - b
        } else {
            b - a
        }
    }
}

/// A square on the board is the one that its coordinates name.
pub proof fn lemma_square_of(p: Pos)
    requires
        p.valid(),
    ensures
        p == square(p.sx(), p.sy()),
        on_board(p.sx(), p.sy()),
{
}

/// The step `(dx, dy)` from `from` reaches `to` exactly when `to` is on the board at
/// those coordinates.
pub proof fn lemma_offset_is(from: Pos, to: Pos, dx: int, dy: int)
    requires
        from.valid(),
    ensures
        (offset(from, dx, dy) == Some(to)) == (to.valid() && to.sx() == from.sx() + dx && to.sy()
            == from.sy() + dy),
{
    if to.valid() {
        lemma_square_of(to);
    }
}

/// Packing coordinates into a square and reading them back gives the coordinates again,
/// and the square's index is `y * 8 + x`.
pub proof fn lemma_square_coordinates(x: int, y: int)
    requires
        on_board(x, y),
    ensures
        square(x, y).sx() == x,
        square(x, y).sy() == y,
        square(x, y).idx() == y * 8 + x,
        square(x, y).valid(),
{
}

} // verus!
