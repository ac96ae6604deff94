//! The computer player: a depth-limited search that scores every candidate
//! column by summing the values of all reachable forced wins, weighted
//! exponentially by remaining depth and alternating in sign per ply, and
//! picks the best-scoring column, breaking ties through a shuffled
//! exploration order.

use vstd::prelude::*;
use vstd::arithmetic::power::{pow, lemma_pow_increases, lemma_pow_positive};
use vstd::arithmetic::power2::{pow2, lemma_pow2, lemma_pow2_pos, lemma_pow2_strictly_increases};

use rand::seq::SliceRandom;

use crate::board::{Board, BoardView, Token};
use crate::game::{State, board_after_place, place_error, state_after_place};

verus! {

/// The computer player's immutable configuration: its colour, the search
/// depth, and whether callers should report the candidate scores.  It keeps
/// no state between moves.
pub struct Ai {
    pub token: Token,
    pub depth: u8,
    pub verbose: bool,
}

/// A candidate move: a column paired with the score the search gave it.
#[derive(Debug, Clone, Copy, PartialEq, Eq, Structural)]
pub struct Play {
    pub col: u8,
    pub value: i64,
}

/// The largest magnitude a score computed at `depth` on a board of side
/// `size` can reach: `(size + 2) ^ depth`.
pub open spec fn pow_bound(size: nat, depth: nat) -> int {
    pow(size as int + 2, depth)
}

/// The score of dropping `t` into `col` of `v` with `depth` plies left and
/// alternating sign `factor`: a winning placement is worth
/// `2 ^ depth * factor`; an ongoing game with depth left is worth the sum of
/// the opponent's scores over every column; anything else is worth nothing.
pub open spec fn spec_score(v: BoardView, col: int, depth: nat, t: Token, factor: int) -> int
    decreases depth, 0int, 0int,
{
    if place_error(v, col) is None {
        let st = state_after_place(v, t, col);
        if st == State::Victory {
            pow2(depth) * factor
        } else if st == State::Ongoing && depth > 0 {
            spec_column_sum(
                board_after_place(v, t, col),
                v.size as int,
                (depth - 1) as nat,
                t.flip_spec(),
                -factor,
            )
        } else {
            0
        }
    } else {
        0
    }
}

/// The sum of [`spec_score`] over columns `0 .. n` of `v`, each scored on its
/// own copy of the board.
pub open spec fn spec_column_sum(v: BoardView, n: int, depth: nat, t: Token, factor: int) -> int
    decreases depth, 1int, n,
{
    if n <= 0 {
        0
    } else {
        spec_column_sum(v, n - 1, depth, t, factor) + spec_score(v, n - 1, depth, t, factor)
    }
}

/// The candidate a top-level column contributes, if any: an immediate win is
/// worth `2 ^ depth`; an ongoing game with depth left is scored by the
/// opponent's column sum one ply down; an illegal column, a tie, or an
/// ongoing game at depth zero contributes nothing.
pub open spec fn spec_candidate(v: BoardView, t: Token, depth: nat, col: u8) -> Option<(u8, int)> {
    if place_error(v, col as int) is None {
        let st = state_after_place(v, t, col as int);
        if st == State::Victory {
            Some((col, pow2(depth) as int))
        } else if st == State::Ongoing && depth > 0 {
            Some(
                (
                    col,
                    spec_column_sum(
                        board_after_place(v, t, col as int),
                        v.size as int,
                        (depth - 1) as nat,
                        t.flip_spec(),
                        -1,
                    ),
                ),
            )
        } else {
            None
        }
    } else {
        None
    }
}

/// The candidates produced by evaluating the columns of `cols` in order.
pub open spec fn spec_candidates(v: BoardView, t: Token, depth: nat, cols: Seq<u8>) -> Seq<
    (u8, int),
>
    decreases cols.len(),
{
    if cols.len() == 0 {
        Seq::empty()
    } else {
        let rest = spec_candidates(v, t, depth, cols.drop_last());
        match spec_candidate(v, t, depth, cols.last()) {
            Some(p) => rest.push(p),
            None => rest,
        }
    }
}

/// The left fold that selects the winning candidate: a later candidate
/// replaces the running best whenever its score is greater than or equal, so
/// ties favour the later candidate in exploration order.
pub open spec fn spec_best(cands: Seq<(u8, int)>, init: (u8, int)) -> (u8, int)
    decreases cands.len(),
{
    if cands.len() == 0 {
        init
    } else {
        let prev = spec_best(cands.drop_last(), init);
        let last = cands.last();
        if prev.1 > last.1 {
            prev
        } else {
            last
        }
    }
}

/// Whether the plays in `s` are exactly the candidates in `c`, in order.
pub open spec fn plays_match(s: Seq<Play>, c: Seq<(u8, int)>) -> bool {
    &&& s.len() == c.len()
    &&& forall|i: int| 0 <= i < s.len() ==> (#[trigger] s[i]).col == c[i].0 && s[i].value == c[i].1
}

/// The columns `0 .. size` in ascending order.
pub open spec fn all_columns(size: nat) -> Seq<u8> {
    Seq::new(size, |i: int| i as u8)
}

/// A positive base raised to a power grows with the base.
proof fn lemma_pow_base_mono(b1: int, b2: int, e: nat)
    requires
        0 < b1 <= b2,
    ensures
        0 < pow(b1, e) <= pow(b2, e),
    decreases e,
{
    reveal(pow);
    if e > 0 {
        lemma_pow_base_mono(b1, b2, (e - 1) as nat);
        assert(0 < b1 * pow(b1, (e - 1) as nat) <= b2 * pow(b2, (e - 1) as nat))
            by (nonlinear_arith)
            requires
                0 < b1 <= b2,
                0 < pow(b1, (e - 1) as nat) <= pow(b2, (e - 1) as nat),
        ;
    }
}

/// Unfolding the score bound one ply: `(size + 2) ^ depth` is `(size + 2)`
/// times the bound one ply down.
proof fn lemma_pow_bound_step(size: nat, depth: nat)
    requires
        depth > 0,
    ensures
        pow_bound(size, depth) == (size + 2) * pow_bound(size, (depth - 1) as nat),
        pow_bound(size, depth) > 0,
        pow_bound(size, (depth - 1) as nat) > 0,
{
    reveal(pow);
    lemma_pow_positive(size as int + 2, depth);
    lemma_pow_positive(size as int + 2, (depth - 1) as nat);
}

/// A score at `depth` plies never exceeds `(size + 2) ^ depth` in magnitude.
proof fn lemma_score_bound(v: BoardView, col: int, depth: nat, t: Token, factor: int)
    requires
        v.wf(),
        factor == 1 || factor == -1,
    ensures
        -pow_bound(v.size, depth) <= spec_score(v, col, depth, t, factor) <= pow_bound(
            v.size,
            depth,
        ),
    decreases depth, 0int, 0int,
{
    lemma_pow_positive(v.size as int + 2, depth);
    if place_error(v, col) is None {
        let st = state_after_place(v, t, col);
        if st == State::Victory {
            lemma_pow2(depth);
            lemma_pow_base_mono(2, v.size as int + 2, depth);
        } else if st == State::Ongoing && depth > 0 {
            let after = board_after_place(v, t, col);
            assert(after.wf() && after.size == v.size) by {
                crate::game::lemma_landing_row_in_bounds(v, col);
                crate::board::lemma_put_frame(
                    v,
                    col,
                    crate::game::landing_row(v, col),
                    crate::board::Cell::Token(t),
                );
            }
            lemma_column_sum_bound(after, v.size as int, (depth - 1) as nat, t.flip_spec(), -factor);
            lemma_pow_bound_step(v.size, depth);
            assert(v.size * pow_bound(v.size, (depth - 1) as nat) <= (v.size + 2) * pow_bound(
                v.size,
                (depth - 1) as nat,
            )) by (nonlinear_arith)
                requires
                    pow_bound(v.size, (depth - 1) as nat) > 0,
            ;
        }
    }
}

/// A sum of `n` scores at `depth` plies is bounded by `n` times the single
/// score bound.
proof fn lemma_column_sum_bound(v: BoardView, n: int, depth: nat, t: Token, factor: int)
    requires
        v.wf(),
        factor == 1 || factor == -1,
        0 <= n <= v.size,
    ensures
        -(n * pow_bound(v.size, depth)) <= spec_column_sum(v, n, depth, t, factor) <= n * pow_bound(
            v.size,
            depth,
        ),
    decreases depth, 1int, n,
{
    lemma_pow_positive(v.size as int + 2, depth);
    if n > 0 {
        lemma_column_sum_bound(v, n - 1, depth, t, factor);
        lemma_score_bound(v, n - 1, depth, t, factor);
        assert((n - 1) * pow_bound(v.size, depth) + pow_bound(v.size, depth) == n * pow_bound(
            v.size,
            depth,
        )) by (nonlinear_arith);
    }
}

/// Every candidate names a column on the board.
proof fn lemma_candidate_cols(v: BoardView, t: Token, depth: nat, cols: Seq<u8>)
    ensures
        forall|i: int|
            0 <= i < spec_candidates(v, t, depth, cols).len() ==> (#[trigger] spec_candidates(
                v,
                t,
                depth,
                cols,
            )[i]).0 < v.size,
    decreases cols.len(),
{
    if cols.len() > 0 {
        lemma_candidate_cols(v, t, depth, cols.drop_last());
        let rest = spec_candidates(v, t, depth, cols.drop_last());
        let all = spec_candidates(v, t, depth, cols);
        assert forall|i: int| 0 <= i < all.len() implies (#[trigger] all[i]).0 < v.size by {
            if i < rest.len() {
                assert(all[i] == rest[i]);
            }
        }
    }
}

impl Ai {
    /// A computer player of colour `token` searching `depth` plies deep.
    pub fn new(token: Token, depth: u8, verbose: bool) -> (ai: Ai)
        ensures
            ai.token == token,
            ai.depth == depth,
            ai.verbose == verbose,
    {
        Ai { token, depth, verbose }
    }

    /// The colour this player drops.
    pub fn token(&self) -> (t: Token)
        ensures
            t == self.token,
    {
        self.token
    }

    /// Whether callers should report the candidate scores.
    pub fn verbose(&self) -> (v: bool)
        ensures
            v == self.verbose,
    {
        self.verbose
    }

    /// Choose a column for the given board: shuffle the columns, score them
    /// with [`Ai::play_ordered`], and return the winning column together
    /// with every resolved candidate.  The result is the deterministic
    /// outcome of `play_ordered` for some permutation of the columns and
    /// some fallback column on the board.
    pub fn play(&self, board: &Board) -> (r: (u8, Vec<Play>))
        requires
            board@.wf(),
            board@.size > 0,
            pow_bound(board@.size, self.depth as nat) <= i64::MAX,
        ensures
            r.0 < board@.size,
            exists|cols: Seq<u8>, fallback: u8|
                #![auto]
                cols.to_multiset() == all_columns(board@.size).to_multiset() && fallback
                    < board@.size && plays_match(
                    r.1@,
                    spec_candidates(board@, self.token, self.depth as nat, cols),
                ) && r.0 == spec_best(
                    spec_candidates(board@, self.token, self.depth as nat, cols),
                    (fallback, i64::MIN as int),
                ).0,
    {
        let size = board.size();
        let mut columns: Vec<u8> = Vec::new();
        let mut c: u8 = 0;
        while c < size
            invariant
                c <= size,
                columns@.len() == c,
                forall|k: int| 0 <= k < c ==> columns@[k] == k,
            decreases size - c,
        {
            columns.push(c);
            c = c + 1;
        }
        proof {
            assert(columns@ =~= all_columns(board@.size));
        }
        shuffle(&mut columns);
        let fallback = random_u8() % size;
        let (chosen, scores) = self.play_ordered(board, &columns, fallback);
        proof {
            let cands = spec_candidates(board@, self.token, self.depth as nat, columns@);
            assert(columns@.to_multiset() == all_columns(board@.size).to_multiset() && fallback
                < board@.size && plays_match(scores@, cands) && chosen == spec_best(
                cands,
                (fallback, i64::MIN as int),
            ).0);
        }
        (chosen, scores)
    }

    /// The deterministic core of the search: evaluate `columns` in the given
    /// order, collect a candidate for each column that yields one, and fold
    /// the candidates into a chosen column, starting from `fallback` with
    /// the lowest representable score.
    pub fn play_ordered(&self, board: &Board, columns: &Vec<u8>, fallback: u8) -> (r: (
        u8,
        Vec<Play>,
    ))
        requires
            board@.wf(),
            fallback < board@.size,
            pow_bound(board@.size, self.depth as nat) <= i64::MAX,
        ensures
            r.0 < board@.size,
            plays_match(r.1@, spec_candidates(board@, self.token, self.depth as nat, columns@)),
            r.0 == spec_best(
                spec_candidates(board@, self.token, self.depth as nat, columns@),
                (fallback, i64::MIN as int),
            ).0,
    {
        let ghost cands = spec_candidates(board@, self.token, self.depth as nat, columns@);
        let mut scores: Vec<Play> = Vec::new();
        let mut i: usize = 0;
        while i < columns.len()
            invariant
                board@.wf(),
                pow_bound(board@.size, self.depth as nat) <= i64::MAX,
                i <= columns@.len(),
                plays_match(
                    scores@,
                    spec_candidates(board@, self.token, self.depth as nat, columns@.take(i as int)),
                ),
            decreases columns@.len() - i,
        {
            let ghost taken = columns@.take(i as int);
            let col = columns[i];
            let mut b = board.clone();
            let outcome = crate::game::place(&mut b, self.token, col);
            match outcome {
                Ok(State::Victory) => {
                    proof {
                        lemma_pow2(self.depth as nat);
                        lemma_pow_base_mono(2, board@.size as int + 2, self.depth as nat);
                    }
                    let value = two_pow(self.depth);
                    scores.push(Play { col, value });
                },
                Ok(State::Ongoing) => {
                    if self.depth > 0 {
                        proof {
                            lemma_pow_bound_step(board@.size, self.depth as nat);
                        }
                        let value = column_sum(&b, self.depth - 1, self.token.flip(), -1);
                        scores.push(Play { col, value });
                    }
                },
                _ => {},
            }
            proof {
                assert(columns@.take(i + 1).drop_last() =~= taken);
                assert(columns@.take(i + 1).last() == col);
            }
            i = i + 1;
        }
        proof {
            assert(columns@.take(columns@.len() as int) =~= columns@);
            lemma_candidate_cols(board@, self.token, self.depth as nat, columns@);
        }
        let mut best = Play { col: fallback, value: i64::MIN };
        let mut j: usize = 0;
        while j < scores.len()
            invariant
                scores@.len() == cands.len(),
                plays_match(scores@, cands),
                j <= cands.len(),
                best.col < board@.size,
                best.col == spec_best(cands.take(j as int), (fallback, i64::MIN as int)).0,
                best.value == spec_best(cands.take(j as int), (fallback, i64::MIN as int)).1,
                fallback < board@.size,
                forall|k: int| 0 <= k < cands.len() ==> (#[trigger] cands[k]).0 < board@.size,
                cands == spec_candidates(board@, self.token, self.depth as nat, columns@),
            decreases scores@.len() - j,
        {
            proof {
                assert(cands.take(j + 1).drop_last() =~= cands.take(j as int));
                assert(cands.take(j + 1).last() == cands[j as int]);
            }
            best = max_score(best, scores[j]);
            j = j + 1;
        }
        proof {
            assert(cands.take(cands.len() as int) =~= cands);
        }
        (best.col, scores)
    }
}

/// Keep the left play only when its score is strictly greater, so that equal
/// scores favour the right one.
fn max_score(left: Play, right: Play) -> (r: Play)
    ensures
        r == (if left.value > right.value {
            left
        } else {
            right
        }),
{
    if left.value > right.value {
        left
    } else {
        right
    }
}

/// `2 ^ e`, by repeated doubling.
fn two_pow(e: u8) -> (r: i64)
    requires
        pow2(e as nat) <= i64::MAX,
    ensures
        r == pow2(e as nat),
{
    proof {
        reveal(pow);
    }
    let mut r: i64 = 1;
    let mut i: u8 = 0;
    while i < e
        invariant
            i <= e,
            r == pow2(i as nat),
            pow2(e as nat) <= i64::MAX,
        decreases e - i,
    {
        proof {
            reveal(pow);
            lemma_pow2_pos(i as nat);
            if i + 1 < e {
                lemma_pow2_strictly_increases(i as nat + 1, e as nat);
            }
            assert(pow2(i as nat + 1) == 2 * pow2(i as nat)) by {
                vstd::arithmetic::power2::lemma_pow2_unfold(i as nat + 1);
            }
        }
        r = r * 2;
        i = i + 1;
    }
    r
}

/// The score of dropping `token` into `col`, explored `depth` plies deep
/// with alternating sign `factor`, on a copy of `board`.
fn score_for_column(board: &Board, col: u8, depth: u8, token: Token, factor: i64) -> (r: i64)
    requires
        board@.wf(),
        factor == 1 || factor == -1,
        pow_bound(board@.size, depth as nat) <= i64::MAX,
    ensures
        r == spec_score(board@, col as int, depth as nat, token, factor as int),
    decreases depth, 0int,
{
    let mut b = board.clone();
    let outcome = crate::game::place(&mut b, token, col);
    match outcome {
        Ok(State::Victory) => {
            proof {
                lemma_pow2(depth as nat);
                lemma_pow_base_mono(2, board@.size as int + 2, depth as nat);
            }
            let p = two_pow(depth);
            if factor == 1 {
                p
            } else {
                -p
            }
        },
        Ok(State::Ongoing) => {
            if depth > 0 {
                proof {
                    lemma_pow_bound_step(board@.size, depth as nat);
                }
                column_sum(&b, depth - 1, token.flip(), -factor)
            } else {
                0
            }
        },
        _ => 0,
    }
}

/// The sum of [`score_for_column`] over every column of the board.
fn column_sum(board: &Board, depth: u8, token: Token, factor: i64) -> (r: i64)
    requires
        board@.wf(),
        factor == 1 || factor == -1,
        pow_bound(board@.size, depth as nat + 1) <= i64::MAX,
    ensures
        r == spec_column_sum(board@, board@.size as int, depth as nat, token, factor as int),
    decreases depth, 1int,
{
    let ghost single = pow_bound(board@.size, depth as nat);
    proof {
        lemma_pow_bound_step(board@.size, depth as nat + 1);
        lemma_pow_increases((board@.size + 2) as nat, depth as nat, depth as nat + 1);
    }
    let size = board.size();
    let mut total: i64 = 0;
    let mut c: u8 = 0;
    while c < size
        invariant
            board@.wf(),
            size as nat == board@.size,
            factor == 1 || factor == -1,
            c <= size,
            single == pow_bound(board@.size, depth as nat),
            single > 0,
            single <= i64::MAX,
            pow_bound(board@.size, depth as nat + 1) == (board@.size + 2) * single,
            pow_bound(board@.size, depth as nat + 1) <= i64::MAX,
            total == spec_column_sum(board@, c as int, depth as nat, token, factor as int),
            -(c as int * single) <= total <= c as int * single,
        decreases size - c,
    {
        let s = score_for_column(board, c, depth, token, factor);
        proof {
            lemma_score_bound(board@, c as int, depth as nat, token, factor as int);
            assert(-((c + 1) as int * single) <= total + s <= (c + 1) as int * single)
                by (nonlinear_arith)
                requires
                    -(c as int * single) <= total <= c as int * single,
                    -single <= s <= single,
            ;
            assert((c + 1) as int * single <= (size as int + 2) * single) by (nonlinear_arith)
                requires
                    c < size,
                    single > 0,
            ;
        }
        total = total + s;
        c = c + 1;
    }
    total
}

/// Relies on rand's `SliceRandom::shuffle`: a Fisher-Yates pass that swaps
/// elements in place, so the result holds exactly the elements it was given.
#[verifier::external_body]
fn shuffle(columns: &mut Vec<u8>)
    ensures
        final(columns)@.len() == old(columns)@.len(),
        final(columns)@.to_multiset() == old(columns)@.to_multiset(),
{
    let mut rng = rand::thread_rng();
    columns.shuffle(&mut rng);
}

/// Relies on rand's `random`: an arbitrary byte; nothing is promised of its
/// value.
#[verifier::external_body]
fn random_u8() -> u8 {
    rand::random::<u8>()
}

} // verus!
