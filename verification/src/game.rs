//! The rules engine: stateless functions that compute the gravity-drop
//! landing position, mutate the board, and derive the resulting game state.

use vstd::prelude::*;

use crate::Error;
use crate::board::{Board, BoardView, Cell, Token, lemma_put_frame, lemma_run_le_ray};
use crate::cartesian::{Direction, Position};

verus! {

/// The state of a game after a placement, derived afresh from the board.
#[derive(Debug, Clone, Copy, PartialEq, Eq, Structural)]
pub enum State {
    Victory,
    Tie,
    Ongoing,
}

/// Whether no cell of the top row is empty.
pub open spec fn top_row_full(v: BoardView) -> bool {
    forall|x: int| 0 <= x < v.size ==> v.at(x, 0) != Cell::Empty
}

/// A placement ends in a tie exactly when it lands on the top row and leaves
/// the whole top row occupied.
pub open spec fn tie_at(v: BoardView, y: int) -> bool {
    y == 0 && top_row_full(v)
}

/// Whether the runs through `(x, y)` along `(dx, dy)` and its reverse sum to
/// more than four.  Both scans count `(x, y)` itself, so a genuine run of
/// four same-token cells through it yields five.
pub open spec fn direction_victory_at(
    v: BoardView,
    t: Token,
    x: int,
    y: int,
    dx: int,
    dy: int,
) -> bool {
    v.run_len(Cell::Token(t), x, y, dx, dy) + v.run_len(Cell::Token(t), x, y, -dx, -dy) > 4
}

/// Victory at `(x, y)`: a long enough run through it in one of the four
/// canonical directions (vertical, horizontal, both diagonals).
pub open spec fn victory_at(v: BoardView, t: Token, x: int, y: int) -> bool {
    ||| direction_victory_at(v, t, x, y, 0, 1)
    ||| direction_victory_at(v, t, x, y, 1, 0)
    ||| direction_victory_at(v, t, x, y, 1, -1)
    ||| direction_victory_at(v, t, x, y, 1, 1)
}

/// The state derived after `t` landed at `(x, y)` on board `v`: the tie check
/// comes first, then the victory check.
pub open spec fn state_at(v: BoardView, t: Token, x: int, y: int) -> State {
    if tie_at(v, y) {
        State::Tie
    } else if victory_at(v, t, x, y) {
        State::Victory
    } else {
        State::Ongoing
    }
}

/// The number of contiguous empty cells at the top of column `col`.
pub open spec fn empty_run(v: BoardView, col: int) -> nat {
    v.run_len(Cell::Empty, col, 0, 0, 1)
}

/// The row a token dropped into column `col` settles in: the lowest empty
/// cell, one above the end of the empty run scanned from the top.
pub open spec fn landing_row(v: BoardView, col: int) -> int {
    empty_run(v, col) - 1
}

/// Why a placement into `col` fails, or `None` when it succeeds: a column
/// index off the board is rejected first, then a column with no empty cell.
pub open spec fn place_error(v: BoardView, col: int) -> Option<Error> {
    if col >= v.size {
        Some(Error::OutOfBounds)
    } else if empty_run(v, col) == 0 {
        Some(Error::ColumnFull)
    } else {
        None
    }
}

/// The board after a successful placement of `t` into `col`.
pub open spec fn board_after_place(v: BoardView, t: Token, col: int) -> BoardView {
    v.put(col, landing_row(v, col), Cell::Token(t))
}

/// The state reported by a successful placement of `t` into `col`.
pub open spec fn state_after_place(v: BoardView, t: Token, col: int) -> State {
    state_at(board_after_place(v, t, col), t, col, landing_row(v, col))
}

/// A placement that does not fail lands on the board: its column is a real
/// column and its landing row lies within the grid.
pub proof fn lemma_landing_row_in_bounds(v: BoardView, col: int)
    requires
        v.wf(),
        place_error(v, col) is None,
    ensures
        0 <= col < v.size,
        v.in_bounds(col, landing_row(v, col)),
{
    lemma_run_le_ray(v, Cell::Empty, col, 0, 0, 1);
}

/// The landing position of a token dropped into column `x`, or the error a
/// placement there would report.
pub fn fall_position(board: &Board, x: u8) -> (r: Result<Position, Error>)
    requires
        board@.wf(),
    ensures
        r is Ok <==> place_error(board@, x as int) is None,
        r matches Err(e) ==> place_error(board@, x as int) == Some(e),
        r matches Ok(p) ==> p.x == x as int && p.y == landing_row(board@, x as int) && board@.in_bounds(
            p.x as int,
            p.y as int,
        ),
{
    if x >= board.size() {
        return Err(Error::OutOfBounds);
    }
    let position = board.count(Cell::Empty, Position::new(x as i16, 0), Direction::south());
    proof {
        lemma_run_le_ray(board@, Cell::Empty, x as int, 0, 0, 1);
    }
    if position == 0 {
        Err(Error::ColumnFull)
    } else {
        Ok(Position::new(x as i16, position as i16 - 1))
    }
}

/// Drop `token` into column `x`: compute the landing position, write the
/// token there, and report the derived state.  On error the board is
/// unchanged.
pub fn place(board: &mut Board, token: Token, x: u8) -> (r: Result<State, Error>)
    requires
        old(board)@.wf(),
    ensures
        final(board)@.wf(),
        final(board)@.size == old(board)@.size,
        r is Err <==> place_error(old(board)@, x as int) is Some,
        r matches Err(e) ==> place_error(old(board)@, x as int) == Some(e) && final(board)@ == old(
            board,
        )@,
        r matches Ok(st) ==> final(board)@ == board_after_place(old(board)@, token, x as int)
            && st == state_after_place(old(board)@, token, x as int),
{
    let position = match fall_position(board, x) {
        Ok(p) => p,
        Err(e) => {
            return Err(e);
        },
    };
    match board.set_cell(position, Cell::Token(token)) {
        Ok(()) => {},
        Err(e) => {
            return Err(e);
        },
    }
    Ok(update_state(board, token, position))
}

/// Derive the state after `token` landed at `position`: tie first, then
/// victory, else the game goes on.
fn update_state(board: &Board, token: Token, position: Position) -> (st: State)
    requires
        board@.wf(),
    ensures
        st == state_at(board@, token, position.x as int, position.y as int),
{
    if tie(board, position) {
        State::Tie
    } else if victory(board, token, position) {
        State::Victory
    } else {
        State::Ongoing
    }
}

/// Whether the placement that landed at `position` tied the game: it must
/// have landed on the top row, and the top row must now be fully occupied.
fn tie(board: &Board, position: Position) -> (r: bool)
    requires
        board@.wf(),
    ensures
        r == tie_at(board@, position.y as int),
{
    if position.y() != 0 {
        return false;
    }
    let size = board.size();
    let mut x: u8 = 0;
    while x < size
        invariant
            board@.wf(),
            x <= size,
            size as nat == board@.size,
            forall|c: int| 0 <= c < x ==> board@.at(c, 0) != Cell::Empty,
        decreases size - x,
    {
        match board.cell(Position::new(x as i16, 0)) {
            Option::Some(c) => {
                if c == Cell::Empty {
                    return false;
                }
            },
            Option::None => {},
        }
        x = x + 1;
    }
    true
}

/// Whether `token` has a winning run through `position` in any of the four
/// canonical directions.
pub fn victory(board: &Board, token: Token, position: Position) -> (r: bool)
    requires
        board@.wf(),
    ensures
        r == victory_at(board@, token, position.x as int, position.y as int),
{
    direction_victory(board, token, position, Direction::south()) || direction_victory(
        board,
        token,
        position,
        Direction::east(),
    ) || direction_victory(board, token, position, Direction::north_east()) || direction_victory(
        board,
        token,
        position,
        Direction::south_east(),
    )
}

/// Law: a column index at or beyond the board side is rejected, whatever the
/// board holds.
pub proof fn lemma_out_of_bounds_rejected(v: BoardView, col: int)
    requires
        col >= v.size,
    ensures
        place_error(v, col) == Some(Error::OutOfBounds),
{
}

/// Law: a column whose top cell is occupied has no room left, and placing
/// there is rejected.
pub proof fn lemma_full_column_rejected(v: BoardView, col: int)
    requires
        v.wf(),
        0 <= col < v.size,
        v.at(col, 0) != Cell::Empty,
    ensures
        place_error(v, col) == Some(Error::ColumnFull),
{
}

/// Law: a column whose top cell is empty accepts a placement.
pub proof fn lemma_open_column_accepted(v: BoardView, col: int)
    requires
        v.wf(),
        0 <= col < v.size,
        v.at(col, 0) == Cell::Empty,
    ensures
        place_error(v, col) is None,
{
}

/// Law: once a placement lands on the top row of its column, the column is
/// filled to capacity and the next placement there is rejected.
pub proof fn lemma_column_fills(v: BoardView, t: Token, col: int)
    requires
        v.wf(),
        place_error(v, col) is None,
        landing_row(v, col) == 0,
    ensures
        place_error(board_after_place(v, t, col), col) == Some(Error::ColumnFull),
{
    lemma_landing_row_in_bounds(v, col);
    lemma_put_frame(v, col, 0, Cell::Token(t));
    lemma_full_column_rejected(board_after_place(v, t, col), col);
}

/// `n` consecutive cells equal to `c`, starting at `(x, y)` and stepping by
/// `(dx, dy)`, all on the board.
pub open spec fn run_of(v: BoardView, c: Cell, x: int, y: int, dx: int, dy: int, n: nat) -> bool
    decreases n,
{
    n == 0 || (v.in_bounds(x, y) && v.at(x, y) == c && run_of(
        v,
        c,
        x + dx,
        y + dy,
        dx,
        dy,
        (n - 1) as nat,
    ))
}

/// Four consecutive cells holding `t`'s token along `(dx, dy)`, in one of
/// the four windows that contain `(x, y)`.
pub open spec fn four_through(v: BoardView, t: Token, x: int, y: int, dx: int, dy: int) -> bool {
    ||| run_of(v, Cell::Token(t), x - 3 * dx, y - 3 * dy, dx, dy, 4)
    ||| run_of(v, Cell::Token(t), x - 2 * dx, y - 2 * dy, dx, dy, 4)
    ||| run_of(v, Cell::Token(t), x - dx, y - dy, dx, dy, 4)
    ||| run_of(v, Cell::Token(t), x, y, dx, dy, 4)
}

/// Four consecutive cells holding `t`'s token through `(x, y)` in one of the
/// four canonical directions.
pub open spec fn connects_four(v: BoardView, t: Token, x: int, y: int) -> bool {
    ||| four_through(v, t, x, y, 0, 1)
    ||| four_through(v, t, x, y, 1, 0)
    ||| four_through(v, t, x, y, 1, -1)
    ||| four_through(v, t, x, y, 1, 1)
}

/// A run of `n` matching cells makes the counted run at least `n` long.
proof fn lemma_run_of_le_run_len(
    v: BoardView,
    c: Cell,
    x: int,
    y: int,
    dx: int,
    dy: int,
    n: nat,
)
    requires
        !(dx == 0 && dy == 0),
        run_of(v, c, x, y, dx, dy, n),
    ensures
        v.run_len(c, x, y, dx, dy) >= n,
    decreases n,
{
    if n > 0 {
        lemma_run_of_le_run_len(v, c, x + dx, y + dy, dx, dy, (n - 1) as nat);
    }
}

/// The first `n` cells of a counted run all match.
proof fn lemma_run_len_to_run_of(
    v: BoardView,
    c: Cell,
    x: int,
    y: int,
    dx: int,
    dy: int,
    n: nat,
)
    requires
        !(dx == 0 && dy == 0),
        n <= v.run_len(c, x, y, dx, dy),
    ensures
        run_of(v, c, x, y, dx, dy, n),
    decreases n,
{
    if n > 0 {
        lemma_run_len_to_run_of(v, c, x + dx, y + dy, dx, dy, (n - 1) as nat);
    }
}

/// The double count through `(x, y)` exceeds four exactly when four
/// consecutive same-token cells lie along `(dx, dy)` through `(x, y)`.
proof fn lemma_direction_victory_iff_four(
    v: BoardView,
    t: Token,
    x: int,
    y: int,
    dx: int,
    dy: int,
)
    requires
        v.wf(),
        !(dx == 0 && dy == 0),
    ensures
        direction_victory_at(v, t, x, y, dx, dy) <==> four_through(v, t, x, y, dx, dy),
{
    let c = Cell::Token(t);
    let f = v.run_len(c, x, y, dx, dy);
    let b = v.run_len(c, x, y, -dx, -dy);
    if direction_victory_at(v, t, x, y, dx, dy) {
        assert(v.in_bounds(x, y) && v.at(x, y) == c);
        if b >= 4 {
            lemma_run_len_to_run_of(v, c, x, y, -dx, -dy, 4);
            assert(run_of(v, c, x - 3 * dx, y - 3 * dy, dx, dy, 4)) by {
                reveal_with_fuel(run_of, 5);
            }
        } else if b == 3 {
            lemma_run_len_to_run_of(v, c, x, y, -dx, -dy, 3);
            lemma_run_len_to_run_of(v, c, x, y, dx, dy, 2);
            assert(run_of(v, c, x - 2 * dx, y - 2 * dy, dx, dy, 4)) by {
                reveal_with_fuel(run_of, 5);
            }
        } else if b == 2 {
            lemma_run_len_to_run_of(v, c, x, y, -dx, -dy, 2);
            lemma_run_len_to_run_of(v, c, x, y, dx, dy, 3);
            assert(run_of(v, c, x - dx, y - dy, dx, dy, 4)) by {
                reveal_with_fuel(run_of, 5);
            }
        } else {
            lemma_run_len_to_run_of(v, c, x, y, dx, dy, 4);
            assert(run_of(v, c, x, y, dx, dy, 4)) by {
                reveal_with_fuel(run_of, 5);
            }
        }
    }
    if four_through(v, t, x, y, dx, dy) {
        if run_of(v, c, x - 3 * dx, y - 3 * dy, dx, dy, 4) {
            assert(run_of(v, c, x, y, dx, dy, 1) && run_of(v, c, x, y, -dx, -dy, 4)) by {
                reveal_with_fuel(run_of, 5);
            }
            lemma_run_of_le_run_len(v, c, x, y, dx, dy, 1);
            lemma_run_of_le_run_len(v, c, x, y, -dx, -dy, 4);
        } else if run_of(v, c, x - 2 * dx, y - 2 * dy, dx, dy, 4) {
            assert(run_of(v, c, x, y, dx, dy, 2) && run_of(v, c, x, y, -dx, -dy, 3)) by {
                reveal_with_fuel(run_of, 5);
            }
            lemma_run_of_le_run_len(v, c, x, y, dx, dy, 2);
            lemma_run_of_le_run_len(v, c, x, y, -dx, -dy, 3);
        } else if run_of(v, c, x - dx, y - dy, dx, dy, 4) {
            assert(run_of(v, c, x, y, dx, dy, 3) && run_of(v, c, x, y, -dx, -dy, 2)) by {
                reveal_with_fuel(run_of, 5);
            }
            lemma_run_of_le_run_len(v, c, x, y, dx, dy, 3);
            lemma_run_of_le_run_len(v, c, x, y, -dx, -dy, 2);
        } else {
            assert(run_of(v, c, x, y, dx, dy, 4) && run_of(v, c, x, y, -dx, -dy, 1)) by {
                reveal_with_fuel(run_of, 5);
            }
            lemma_run_of_le_run_len(v, c, x, y, dx, dy, 4);
            lemma_run_of_le_run_len(v, c, x, y, -dx, -dy, 1);
        }
    }
}

/// Law: victory at a position is exactly four (or more) consecutive
/// same-token cells through it in a canonical direction.
pub proof fn lemma_victory_iff_connects_four(v: BoardView, t: Token, x: int, y: int)
    requires
        v.wf(),
    ensures
        victory_at(v, t, x, y) <==> connects_four(v, t, x, y),
{
    lemma_direction_victory_iff_four(v, t, x, y, 0, 1);
    lemma_direction_victory_iff_four(v, t, x, y, 1, 0);
    lemma_direction_victory_iff_four(v, t, x, y, 1, -1);
    lemma_direction_victory_iff_four(v, t, x, y, 1, 1);
}

/// Law: a placement that leaves four consecutive same-token cells through
/// the landed position wins — unless the same placement also fills the top
/// row, in which case the tie check comes first and takes precedence.
pub proof fn lemma_four_in_a_row_wins(v: BoardView, t: Token, x: int, y: int)
    requires
        v.wf(),
        connects_four(v, t, x, y),
        !tie_at(v, y),
    ensures
        state_at(v, t, x, y) == State::Victory,
{
    lemma_victory_iff_connects_four(v, t, x, y);
}

/// Law: with no four consecutive same-token cells through the landed
/// position — a run of three at most in every direction — the placement
/// does not win.
pub proof fn lemma_short_run_does_not_win(v: BoardView, t: Token, x: int, y: int)
    requires
        v.wf(),
        !connects_four(v, t, x, y),
    ensures
        state_at(v, t, x, y) != State::Victory,
{
    lemma_victory_iff_connects_four(v, t, x, y);
}

/// Columns fill bottom-up: wherever a cell is empty, every cell above it in
/// the same column is empty too.  Boards reached from an empty board through
/// `place` alone always satisfy this.
pub open spec fn gravity(v: BoardView) -> bool {
    forall|x: int, y1: int, y2: int|
        #![trigger v.at(x, y1), v.at(x, y2)]
        v.in_bounds(x, y2) && 0 <= y1 <= y2 && v.at(x, y2) == Cell::Empty ==> v.at(x, y1)
            == Cell::Empty
}

/// Every cell of the board is occupied.
pub open spec fn board_full(v: BoardView) -> bool {
    forall|x: int, y: int| v.in_bounds(x, y) ==> v.at(x, y) != Cell::Empty
}

/// The cells inside the empty run at the top of a column are empty.
proof fn lemma_empty_run_cells(v: BoardView, col: int, y0: int, k: int)
    requires
        v.wf(),
        0 <= k < v.run_len(Cell::Empty, col, y0, 0, 1),
    ensures
        v.in_bounds(col, y0 + k),
        v.at(col, y0 + k) == Cell::Empty,
    decreases k,
{
    if k > 0 {
        lemma_empty_run_cells(v, col, y0 + 1, k - 1);
    }
}

/// The cell just past the empty run of a column, when it is still on the
/// board, is occupied: that is where the run stopped.
proof fn lemma_empty_run_stop(v: BoardView, col: int, y0: int)
    requires
        v.wf(),
        v.in_bounds(col, y0 + v.run_len(Cell::Empty, col, y0, 0, 1)),
    ensures
        v.at(col, y0 + v.run_len(Cell::Empty, col, y0, 0, 1)) != Cell::Empty,
    decreases v.run_len(Cell::Empty, col, y0, 0, 1),
{
    if v.run_len(Cell::Empty, col, y0, 0, 1) > 0 {
        lemma_empty_run_stop(v, col, y0 + 1);
    }
}

/// Law: gravity is preserved by placement — the dropped token settles on
/// the lowest empty cell of its column, so columns keep filling bottom-up.
pub proof fn lemma_place_preserves_gravity(v: BoardView, t: Token, col: int)
    requires
        v.wf(),
        gravity(v),
        place_error(v, col) is None,
    ensures
        gravity(board_after_place(v, t, col)),
{
    let r = landing_row(v, col);
    let a = board_after_place(v, t, col);
    lemma_landing_row_in_bounds(v, col);
    lemma_put_frame(v, col, r, Cell::Token(t));
    assert forall|x: int, y1: int, y2: int|
        #![trigger a.at(x, y1), a.at(x, y2)]
        a.in_bounds(x, y2) && 0 <= y1 <= y2 && a.at(x, y2) == Cell::Empty implies a.at(x, y1)
        == Cell::Empty by {
        assert(a.at(x, y2) == v.at(x, y2));
        assert(v.at(x, y1) == Cell::Empty);
        if x == col && y1 == r {
            assert(y2 > r);
            lemma_empty_run_stop(v, col, 0);
            assert(false);
        }
    }
}

/// Law: under gravity, a successful placement reports a tie exactly when it
/// fills the last empty cell of the board.
pub proof fn lemma_tie_exactly_when_full(v: BoardView, t: Token, col: int)
    requires
        v.wf(),
        gravity(v),
        place_error(v, col) is None,
    ensures
        state_after_place(v, t, col) == State::Tie <==> board_full(board_after_place(v, t, col)),
{
    let r = landing_row(v, col);
    let a = board_after_place(v, t, col);
    lemma_landing_row_in_bounds(v, col);
    lemma_put_frame(v, col, r, Cell::Token(t));
    lemma_place_preserves_gravity(v, t, col);
    if board_full(a) {
        if r > 0 {
            lemma_empty_run_cells(v, col, 0, 0);
            assert(a.at(col, 0) == Cell::Empty);
            assert(false);
        }
        assert(tie_at(a, r));
    }
    if state_at(a, t, col, r) == State::Tie {
        assert forall|x: int, y: int| a.in_bounds(x, y) implies #[trigger] a.at(x, y)
            != Cell::Empty by {
            if a.at(x, y) == Cell::Empty {
                assert(a.at(x, 0) == Cell::Empty);
            }
        }
    }
}

/// Whether the runs through `position` along `direction` and its reverse sum
/// to more than four.
fn direction_victory(board: &Board, token: Token, position: Position, direction: Direction) -> (r:
    bool)
    requires
        board@.wf(),
        direction.x != 0 || direction.y != 0,
        direction.x > i8::MIN,
        direction.y > i8::MIN,
    ensures
        r == direction_victory_at(
            board@,
            token,
            position.x as int,
            position.y as int,
            direction.x as int,
            direction.y as int,
        ),
{
    let reverse = direction.reverse();
    let forward_run = board.count(Cell::Token(token), position, direction);
    let backward_run = board.count(Cell::Token(token), position, reverse);
    (forward_run as u16) + (backward_run as u16) > 4
}

} // verus!
