//! Integer positions and step directions on the grid.

use vstd::prelude::*;

verus! {

/// A signed grid coordinate.  `x` selects the column, `y` the row; row `0` is
/// the top of the board and rows grow downwards.
#[derive(Debug, Clone, Copy, PartialEq, Eq, Structural)]
pub struct Position {
    pub x: i16,
    pub y: i16,
}

/// A small signed unit-step vector used to walk the grid.
#[derive(Debug, Clone, Copy, PartialEq, Eq, Structural)]
pub struct Direction {
    pub x: i8,
    pub y: i8,
}

impl Position {
    pub fn new(x: i16, y: i16) -> (p: Position)
        ensures
            p.x == x,
            p.y == y,
    {
        Position { x, y }
    }

    pub fn x(self) -> (r: i16)
        ensures
            r == self.x,
    {
        self.x
    }

    pub fn y(self) -> (r: i16)
        ensures
            r == self.y,
    {
        self.y
    }

    /// The position one step away along `direction`.
    pub fn translate(self, direction: Direction) -> (p: Position)
        requires
            i16::MIN <= self.x + direction.x <= i16::MAX,
            i16::MIN <= self.y + direction.y <= i16::MAX,
        ensures
            p.x == self.x + direction.x,
            p.y == self.y + direction.y,
    {
        Position { x: self.x + direction.x as i16, y: self.y + direction.y as i16 }
    }
}

impl Direction {
    /// The opposite direction: both components negated.
    pub fn reverse(self) -> (r: Direction)
        requires
            self.x > i8::MIN,
            self.y > i8::MIN,
        ensures
            r.x == -self.x,
            r.y == -self.y,
    {
        Direction { x: -self.x, y: -self.y }
    }

    /// Up and to the right.
    pub fn north_east() -> (r: Direction)
        ensures
            r.x == 1,
            r.y == -1,
    {
        Direction { x: 1, y: -1 }
    }

    /// To the right.
    pub fn east() -> (r: Direction)
        ensures
            r.x == 1,
            r.y == 0,
    {
        Direction { x: 1, y: 0 }
    }

    /// Down and to the right.
    pub fn south_east() -> (r: Direction)
        ensures
            r.x == 1,
            r.y == 1,
    {
        Direction { x: 1, y: 1 }
    }

    /// Straight down.
    pub fn south() -> (r: Direction)
        ensures
            r.x == 0,
            r.y == 1,
    {
        Direction { x: 0, y: 1 }
    }
}

} // verus!
