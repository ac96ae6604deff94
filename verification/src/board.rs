//! The board: a fixed-size square grid of cells with bounds-checked access,
//! a single mutation entry point, and directional run counting.

use vstd::prelude::*;

use crate::Error;
use crate::cartesian::{Direction, Position};

verus! {

/// A player's colour.  "Empty" is deliberately not a `Token`: an unoccupied
/// slot is a variant of [`Cell`] instead, so that a `Token` always denotes an
/// actual player.
#[derive(Debug, Clone, Copy, PartialEq, Eq, Structural)]
pub enum Token {
    White,
    Black,
}

impl Token {
    /// The opposing colour, as a mathematical value.
    pub open spec fn flip_spec(self) -> Token {
        match self {
            Token::White => Token::Black,
            Token::Black => Token::White,
        }
    }

    /// The opposing colour.
    pub fn flip(self) -> (r: Token)
        ensures
            r == self.flip_spec(),
    {
        match self {
            Token::White => Token::Black,
            Token::Black => Token::White,
        }
    }
}

/// One slot of the grid: unoccupied, or holding a player's token.
#[derive(Debug, Clone, Copy, PartialEq, Eq, Structural)]
pub enum Cell {
    Empty,
    Token(Token),
}

/// The mathematical model of a board: a flat sequence of `size * size` cells,
/// where the cell at column `x` and row `y` sits at index `x * size + y`.
pub struct BoardView {
    pub grid: Seq<Cell>,
    pub size: nat,
}

impl BoardView {
    /// A board is well formed when its side fits in a byte and its grid holds
    /// exactly `size * size` cells.
    pub open spec fn wf(self) -> bool {
        &&& self.size <= 255
        &&& self.grid.len() == self.size * self.size
    }

    /// Whether `(x, y)` lies on the board.
    pub open spec fn in_bounds(self, x: int, y: int) -> bool {
        0 <= x < self.size && 0 <= y < self.size
    }

    /// The cell at column `x`, row `y`.
    pub open spec fn at(self, x: int, y: int) -> Cell {
        self.grid[x * self.size + y]
    }

    /// The board with the cell at `(x, y)` replaced by `c`.
    pub open spec fn put(self, x: int, y: int, c: Cell) -> BoardView {
        BoardView { grid: self.grid.update(x * self.size + y, c), size: self.size }
    }

    /// How many cells lie on the ray from `(x, y)` along `(dx, dy)` before it
    /// leaves the board; an upper bound for [`BoardView::run_len`].
    pub open spec fn ray_len(self, x: int, y: int, dx: int, dy: int) -> nat {
        if !self.in_bounds(x, y) {
            0
        } else if dx > 0 {
            (self.size - x) as nat
        } else if dx < 0 {
            (x + 1) as nat
        } else if dy > 0 {
            (self.size - y) as nat
        } else if dy < 0 {
            (y + 1) as nat
        } else {
            0
        }
    }

    /// The length of the contiguous run of cells equal to `c` that starts at
    /// `(x, y)` and steps by `(dx, dy)`, stopping at the first other cell or
    /// at the board edge.  The starting cell itself is counted.
    pub open spec fn run_len(self, c: Cell, x: int, y: int, dx: int, dy: int) -> nat
        decreases self.ray_len(x, y, dx, dy),
    {
        if dx == 0 && dy == 0 {
            0
        } else if !self.in_bounds(x, y) || self.at(x, y) != c {
            0
        } else {
            1 + self.run_len(c, x + dx, y + dy, dx, dy)
        }
    }
}

/// A run never extends past the board edge, so it is no longer than the ray
/// it lies on; in particular it is at most `size`.
pub proof fn lemma_run_le_ray(v: BoardView, c: Cell, x: int, y: int, dx: int, dy: int)
    ensures
        v.run_len(c, x, y, dx, dy) <= v.ray_len(x, y, dx, dy),
        v.run_len(c, x, y, dx, dy) <= v.size,
    decreases v.ray_len(x, y, dx, dy),
{
    if !(dx == 0 && dy == 0) && v.in_bounds(x, y) && v.at(x, y) == c {
        lemma_run_le_ray(v, c, x + dx, y + dy, dx, dy);
    }
}

/// Cell indices are in range: a bounds-checked position maps below
/// `size * size`, and distinct positions map to distinct indices.
pub proof fn lemma_grid_index(size: int, x: int, y: int, x2: int, y2: int)
    requires
        0 <= x < size,
        0 <= y < size,
        0 <= x2 < size,
        0 <= y2 < size,
    ensures
        0 <= x * size + y < size * size,
        x * size + y == x2 * size + y2 ==> x == x2 && y == y2,
{
    assert(0 <= x * size + y < size * size) by (nonlinear_arith)
        requires
            0 <= x < size,
            0 <= y < size,
    ;
    assert(x * size + y == x2 * size + y2 ==> x == x2 && y == y2) by (nonlinear_arith)
        requires
            0 <= x < size,
            0 <= y < size,
            0 <= x2 < size,
            0 <= y2 < size,
    ;
}

/// Updating one cell leaves every other cell as it was.
pub proof fn lemma_put_frame(v: BoardView, x: int, y: int, c: Cell)
    requires
        v.wf(),
        v.in_bounds(x, y),
    ensures
        v.put(x, y, c).wf(),
        v.put(x, y, c).size == v.size,
        v.put(x, y, c).at(x, y) == c,
        forall|x2: int, y2: int|
            v.in_bounds(x2, y2) && !(x2 == x && y2 == y) ==> v.put(x, y, c).at(x2, y2) == v.at(
                x2,
                y2,
            ),
{
    lemma_grid_index(v.size as int, x, y, x, y);
    assert forall|x2: int, y2: int|
        v.in_bounds(x2, y2) && !(x2 == x && y2 == y) implies v.put(x, y, c).at(x2, y2) == v.at(
        x2,
        y2,
    ) by {
        lemma_grid_index(v.size as int, x2, y2, x, y);
    }
}

/// The board itself: a flat vector of `size * size` cells.  It is a plain
/// value; duplicating it yields a fully independent copy.
pub struct Board {
    cells: Vec<Cell>,
    size: u8,
}

impl View for Board {
    type V = BoardView;

    closed spec fn view(&self) -> BoardView {
        BoardView { grid: self.cells@, size: self.size as nat }
    }
}

impl Board {
    /// A fresh board of side `size` with every cell empty.
    pub fn new(size: u8) -> (board: Board)
        ensures
            board@.wf(),
            board@.size == size,
            forall|x: int, y: int| board@.in_bounds(x, y) ==> board@.at(x, y) == Cell::Empty,
    {
        proof {
            assert((size as int) * (size as int) <= 255 * 255) by (nonlinear_arith)
                requires
                    size <= 255,
            ;
        }
        let n: usize = (size as usize) * (size as usize);
        let mut cells: Vec<Cell> = Vec::new();
        let mut i: usize = 0;
        while i < n
            invariant
                i <= n,
                cells@.len() == i,
                forall|j: int| 0 <= j < i ==> cells@[j] == Cell::Empty,
            decreases n - i,
        {
            cells.push(Cell::Empty);
            i = i + 1;
        }
        let board = Board { cells, size };
        proof {
            assert forall|x: int, y: int| board@.in_bounds(x, y) implies board@.at(x, y)
                == Cell::Empty by {
                lemma_grid_index(size as int, x, y, x, y);
            }
        }
        board
    }

    /// The side length of the board.
    pub fn size(&self) -> (r: u8)
        ensures
            r as nat == self@.size,
    {
        self.size
    }

    /// The cell at `position`, or `None` when the position lies off the
    /// board.  This is the sole bounds-check site for reads.
    pub fn cell(&self, position: Position) -> (r: Option<Cell>)
        requires
            self@.wf(),
        ensures
            self@.in_bounds(position.x as int, position.y as int) ==> r == Some(
                self@.at(position.x as int, position.y as int),
            ),
            !self@.in_bounds(position.x as int, position.y as int) ==> r is None,
    {
        if out_of_bounds(self.size as i16, position) {
            None
        } else {
            let i = index(self.size, position);
            proof {
                lemma_grid_index(
                    self.size as int,
                    position.x as int,
                    position.y as int,
                    position.x as int,
                    position.y as int,
                );
            }
            Some(self.cells[i])
        }
    }

    /// Write `cell` at `position`; the single mutation entry point, bounds
    /// checked.
    pub fn set_cell(&mut self, position: Position, cell: Cell) -> (r: Result<(), Error>)
        requires
            old(self)@.wf(),
        ensures
            final(self)@.wf(),
            final(self)@.size == old(self)@.size,
            old(self)@.in_bounds(position.x as int, position.y as int) ==> r is Ok && final(self)@
                == old(self)@.put(position.x as int, position.y as int, cell),
            !old(self)@.in_bounds(position.x as int, position.y as int) ==> r == Err::<
                (),
                Error,
            >(Error::OutOfBounds) && final(self)@ == old(self)@,
    {
        if out_of_bounds(self.size as i16, position) {
            Err(Error::OutOfBounds)
        } else {
            let i = index(self.size, position);
            proof {
                lemma_grid_index(
                    self.size as int,
                    position.x as int,
                    position.y as int,
                    position.x as int,
                    position.y as int,
                );
            }
            self.cells.set(i, cell);
            Ok(())
        }
    }

    /// The length of the contiguous run of cells equal to `cell` starting at
    /// `position` and stepping by `direction`; the start cell is included,
    /// and the count stops at the first other cell or the board edge.
    pub fn count(&self, cell: Cell, position: Position, direction: Direction) -> (r: u8)
        requires
            self@.wf(),
            direction.x != 0 || direction.y != 0,
        ensures
            r as nat == self@.run_len(
                cell,
                position.x as int,
                position.y as int,
                direction.x as int,
                direction.y as int,
            ),
    {
        let ghost dx = direction.x as int;
        let ghost dy = direction.y as int;
        let ghost total = self@.run_len(cell, position.x as int, position.y as int, dx, dy);
        proof {
            lemma_run_le_ray(self@, cell, position.x as int, position.y as int, dx, dy);
        }
        let mut counter: u8 = 0;
        let mut p = position;
        loop
            invariant
                self@.wf(),
                direction.x as int == dx,
                direction.y as int == dy,
                dx != 0 || dy != 0,
                counter as nat + self@.run_len(cell, p.x as int, p.y as int, dx, dy) == total,
                total <= self@.size,
            ensures
                counter as nat == total,
            decreases self@.ray_len(p.x as int, p.y as int, dx, dy),
        {
            let c = self.cell(p);
            match c {
                Option::Some(got) => {
                    if got == cell {
                        counter = counter + 1;
                        p = p.translate(direction);
                    } else {
                        break ;
                    }
                },
                Option::None => {
                    break ;
                },
            }
        }
        counter
    }
}

impl Clone for Board {
    /// A deep value copy: the clone's model equals the original's, and the
    /// two boards share no storage.
    fn clone(&self) -> (r: Board)
        ensures
            r@ == self@,
    {
        let mut cells: Vec<Cell> = Vec::new();
        let mut i: usize = 0;
        while i < self.cells.len()
            invariant
                i <= self.cells@.len(),
                cells@.len() == i,
                forall|j: int| 0 <= j < i ==> cells@[j] == self.cells@[j],
            decreases self.cells@.len() - i,
        {
            cells.push(self.cells[i]);
            i = i + 1;
        }
        proof {
            assert(cells@ =~= self.cells@);
        }
        Board { cells, size: self.size }
    }
}

/// Whether `position` lies outside a square board of side `size`.
fn out_of_bounds(size: i16, position: Position) -> (r: bool)
    requires
        size >= 0,
    ensures
        r == !(0 <= position.x < size && 0 <= position.y < size),
{
    position.x < 0 || position.y < 0 || position.x >= size || position.y >= size
}

/// The flat index of a bounds-checked position.
fn index(size: u8, position: Position) -> (i: usize)
    requires
        0 <= position.x < size,
        0 <= position.y < size,
    ensures
        i == position.x * size + position.y,
{
    proof {
        assert((position.x as int) * (size as int) + (position.y as int) <= 255 * 255)
            by (nonlinear_arith)
            requires
                0 <= position.x < size,
                0 <= position.y < size,
                size <= 255,
        ;
    }
    (position.x as usize) * (size as usize) + (position.y as usize)
}

} // verus!
