//! Grid coordinates, board sizes and headings.

use vstd::prelude::*;

verus! {

/// A cell of the board, or an offset between two cells.
#[derive(Debug, Clone, Copy, PartialEq, Eq, Structural)]
pub struct Pos {
    pub x: i16,
    pub y: i16,
}

/// A board size: `x` is the width, `y` the height.
pub type Board = Pos;

/// Whether `p` lies on a board of size `board`.
pub open spec fn in_board(p: Pos, board: Board) -> bool {
    0 <= p.x < board.x && 0 <= p.y < board.y
}

/// The size of a board on which a game may be played.
pub open spec fn valid_board(board: Board) -> bool {
    board.x > 4 && board.y > 4
}

impl std::ops::Add for Pos {
    type Output = Pos;

    /// Componentwise sum, wrapping on overflow of a coordinate.
    fn add(self, other: Pos) -> (r: Pos)
        ensures
            r.x == self.x.wrapping_add(other.x),
            r.y == self.y.wrapping_add(other.y),
            i16::MIN <= self.x + other.x <= i16::MAX ==> r.x == self.x + other.x,
            i16::MIN <= self.y + other.y <= i16::MAX ==> r.y == self.y + other.y,
    {
        Pos { x: self.x.wrapping_add(other.x), y: self.y.wrapping_add(other.y) }
    }
}

impl vstd::std_specs::ops::AddSpecImpl for Pos {
    open spec fn obeys_add_spec() -> bool {
        true
    }

    open spec fn add_req(self, rhs: Pos) -> bool {
        true
    }

    open spec fn add_spec(self, rhs: Pos) -> Pos {
        Pos { x: self.x.wrapping_add(rhs.x), y: self.y.wrapping_add(rhs.y) }
    }
}

impl std::ops::Sub for Pos {
    type Output = Pos;

    /// Componentwise difference, wrapping on overflow of a coordinate.
    fn sub(self, other: Pos) -> (r: Pos)
        ensures
            r.x == self.x.wrapping_sub(other.x),
            r.y == self.y.wrapping_sub(other.y),
            i16::MIN <= self.x - other.x <= i16::MAX ==> r.x == self.x - other.x,
            i16::MIN <= self.y - other.y <= i16::MAX ==> r.y == self.y - other.y,
    {
        Pos { x: self.x.wrapping_sub(other.x), y: self.y.wrapping_sub(other.y) }
    }
}

impl vstd::std_specs::ops::SubSpecImpl for Pos {
    open spec fn obeys_sub_spec() -> bool {
        true
    }

    open spec fn sub_req(self, rhs: Pos) -> bool {
        true
    }

    open spec fn sub_spec(self, rhs: Pos) -> Pos {
        Pos { x: self.x.wrapping_sub(rhs.x), y: self.y.wrapping_sub(rhs.y) }
    }
}

/// A heading of the snake.
#[derive(Debug, Clone, Copy, PartialEq, Eq, Structural)]
pub enum Dir {
    Down,
    Left,
    Right,
    Up,
}

/// The unit vector of a heading; `y` grows downwards.
pub open spec fn unit(d: Dir) -> Pos {
    match d {
        Dir::Down => Pos { x: 0, y: 1 },
        Dir::Left => Pos { x: -1i16, y: 0 },
        Dir::Right => Pos { x: 1, y: 0 },
        Dir::Up => Pos { x: 0, y: -1i16 },
    }
}

/// Whether two headings point in opposite directions.
pub open spec fn opposite(a: Dir, b: Dir) -> bool {
    unit(a).x + unit(b).x == 0 && unit(a).y + unit(b).y == 0
}

impl Dir {
    /// The unit vector of this heading.
    pub fn into_pos(&self) -> (r: Pos)
        ensures
            r == unit(*self),
    {
        match self {
            Dir::Down => Pos { x: 0, y: 1 },
            Dir::Left => Pos { x: -1, y: 0 },
            Dir::Right => Pos { x: 1, y: 0 },
            Dir::Up => Pos { x: 0, y: -1 },
        }
    }
}

} // verus!
