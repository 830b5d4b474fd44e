//! The mathematical model of the board-completion search: an exact count
//! of favourable ordered completions over the number of all ordered
//! completions.
use vstd::prelude::*;

use crate::bits::{bit64, bits52, lemma_bits52_bit, lemma_bits52_or, lemma_pop_below_bound,
    lemma_pop_or_bit, pop64, pop_below};
use crate::eval::eval_gt;

verus! {

/// Hero's 7-card evaluation strictly beats every other seat's; exact
/// ties lose.
pub open spec fn hero_beats_all(holes: Seq<u64>, hero: int, board: u64) -> bool {
    forall|j: int|
        0 <= j < holes.len() && j != hero ==> #[trigger] eval_gt(
            holes[hero] | board,
            holes[j] | board,
        )
}

/// Outcome of a showdown on a complete board: one favourable completion
/// or none.
pub open spec fn showdown01(holes: Seq<u64>, hero: int, board: u64) -> nat {
    if hero_beats_all(holes, hero, board) {
        1
    } else {
        0
    }
}

/// Favourable ordered completions with `r` cards still to come: at a
/// terminal board the showdown outcome, else the sum over every undrawn
/// card of the child's count.
pub open spec fn wins_at(holes: Seq<u64>, hero: int, drawn: u64, board: u64, r: nat) -> nat
    decreases r, 53int,
{
    if r == 0 {
        showdown01(holes, hero, board)
    } else {
        sum_to(holes, hero, drawn, board, r, 52)
    }
}

/// Sum of the children's counts over the undrawn card indices below `i`.
pub open spec fn sum_to(holes: Seq<u64>, hero: int, drawn: u64, board: u64, r: nat, i: int) -> nat
    decreases r, i,
{
    if r == 0 || i <= 0 {
        0
    } else {
        sum_to(holes, hero, drawn, board, r, i - 1) + if !bit64(drawn, i - 1) {
            wins_at(
                holes,
                hero,
                drawn | (1u64 << ((i - 1) as u64)),
                board | (1u64 << ((i - 1) as u64)),
                (r - 1) as nat,
            )
        } else {
            0
        }
    }
}

/// Number of ordered completions of `r` more cards from `free` undrawn
/// ones.
pub open spec fn den_at(r: nat, free: int) -> int
    decreases r,
{
    if r == 0 {
        1
    } else {
        free * den_at((r - 1) as nat, free - 1)
    }
}

/// 52 to the `r`: a coarse cap on `den_at`.
pub open spec fn den_cap(r: nat) -> int
    decreases r,
{
    if r == 0 {
        1
    } else {
        52 * den_cap((r - 1) as nat)
    }
}

pub proof fn lemma_den_nonneg(r: nat, free: int)
    requires
        0 <= free,
    ensures
        0 <= den_at(r, free),
    decreases r,
{
    if r > 0 {
        if free == 0 {
        } else {
            lemma_den_nonneg((r - 1) as nat, free - 1);
            vstd::arithmetic::mul::lemma_mul_nonnegative(free, den_at((r - 1) as nat, free - 1));
        }
    }
}

/// An exact equity: favourable ordered completions out of all ordered
/// completions of the board.
#[derive(Clone, Copy, PartialEq, Eq, Structural, Debug)]
pub struct Equity {
    pub wins: u64,
    pub total: u64,
}

/// With at least as many undrawn cards as streets, at least one
/// completion exists.
pub proof fn lemma_den_pos(r: nat, free: int)
    requires
        r <= free,
    ensures
        1 <= den_at(r, free),
    decreases r,
{
    if r > 0 {
        lemma_den_pos((r - 1) as nat, free - 1);
        let d = den_at((r - 1) as nat, free - 1);
        assert(free * d >= 1) by (nonlinear_arith)
            requires
                free >= 1,
                d >= 1,
        ;
    }
}

pub proof fn lemma_den_bound(r: nat, free: int)
    requires
        0 <= free <= 52,
    ensures
        0 <= den_at(r, free) <= den_cap(r),
    decreases r,
{
    if r == 0 {
    } else if free == 0 {
        lemma_den_cap_nonneg(r);
    } else {
        lemma_den_bound((r - 1) as nat, free - 1);
        vstd::arithmetic::mul::lemma_mul_nonnegative(free, den_at((r - 1) as nat, free - 1));
        vstd::arithmetic::mul::lemma_mul_upper_bound(
            free,
            52,
            den_at((r - 1) as nat, free - 1),
            den_cap((r - 1) as nat),
        );
    }
}

pub proof fn lemma_den_cap_nonneg(r: nat)
    ensures
        1 <= den_cap(r),
    decreases r,
{
    if r > 0 {
        lemma_den_cap_nonneg((r - 1) as nat);
    }
}

/// With at most five streets to come, `den_cap` stays below 52^5.
pub proof fn lemma_den_cap_five(r: nat)
    requires
        r <= 5,
    ensures
        den_cap(r) <= 380204032,
{
    assert(den_cap(0) == 1);
    assert(den_cap(1) == 52);
    assert(den_cap(2) == 2704);
    assert(den_cap(3) == 140608);
    assert(den_cap(4) == 7311616);
    assert(den_cap(5) == 380204032);
}

/// The partial child sums grow with the index bound.
pub proof fn lemma_sum_to_mono(
    holes: Seq<u64>,
    hero: int,
    drawn: u64,
    board: u64,
    r: nat,
    i: int,
    j: int,
)
    requires
        i <= j,
    ensures
        sum_to(holes, hero, drawn, board, r, i) <= sum_to(holes, hero, drawn, board, r, j),
    decreases j,
{
    if i < j && j > 0 {
        lemma_sum_to_mono(holes, hero, drawn, board, r, i, j - 1);
    }
}

/// The range law: favourable completions never outnumber completions, so
/// the equity always lies in the closed unit interval.
pub proof fn lemma_wins_le_den(holes: Seq<u64>, hero: int, drawn: u64, board: u64, r: nat)
    requires
        bits52(drawn),
        pop64(drawn) + r <= 52,
    ensures
        wins_at(holes, hero, drawn, board, r) <= den_at(r, 52 - pop64(drawn)),
    decreases r, 53int,
{
    if r == 0 {
    } else {
        lemma_pop_below_bound(drawn, 64);
        lemma_sum_le_partial(holes, hero, drawn, board, r, 52);
        assert(pop_below(drawn, 52) == pop64(drawn)) by {
            lemma_pop_bits52(drawn, 64);
        }
    }
}

/// Bits of a 52-bit mask at or above 52 contribute nothing to the count.
proof fn lemma_pop_bits52(m: u64, n: int)
    requires
        bits52(m),
        52 <= n <= 64,
    ensures
        pop_below(m, n) == pop_below(m, 52),
    decreases n,
{
    if n > 52 {
        lemma_pop_bits52(m, n - 1);
        let j = (n - 1) as u64;
        assert(m >> 52u64 == 0u64 ==> (m >> j) & 1u64 == 0u64) by (bit_vector)
            requires
                52 <= j < 64,
        ;
    }
}

/// Partial-sum form of the range law: the sum of the first `i` children
/// is at most the number of undrawn indices below `i` times the per-child
/// cap.
proof fn lemma_sum_le_partial(holes: Seq<u64>, hero: int, drawn: u64, board: u64, r: nat, i: int)
    requires
        1 <= r,
        bits52(drawn),
        pop64(drawn) + r <= 52,
        0 <= i <= 52,
    ensures
        sum_to(holes, hero, drawn, board, r, i) <= (i - pop_below(drawn, i)) * den_at(
            (r - 1) as nat,
            51 - pop64(drawn),
        ),
    decreases r, i,
{
    lemma_pop_below_bound(drawn, i);
    lemma_den_nonneg((r - 1) as nat, 51 - pop64(drawn));
    let d = den_at((r - 1) as nat, 51 - pop64(drawn));
    if i == 0 {
    } else {
        lemma_sum_le_partial(holes, hero, drawn, board, r, i - 1);
        lemma_pop_below_bound(drawn, i - 1);
        if !bit64(drawn, i - 1) {
            let b = (i - 1) as u64;
            lemma_pop_or_bit(drawn, b);
            lemma_bits52_bit(b);
            lemma_bits52_or(drawn, 1u64 << b);
            lemma_wins_le_den(
                holes,
                hero,
                drawn | (1u64 << b),
                board | (1u64 << b),
                (r - 1) as nat,
            );
            assert((i - 1 - pop_below(drawn, i - 1)) * d + d == (i - pop_below(drawn, i)) * d)
                by (nonlinear_arith)
                requires
                    pop_below(drawn, i) == pop_below(drawn, i - 1),
            ;
        } else {
            assert((i - 1 - pop_below(drawn, i - 1)) * d <= (i - pop_below(drawn, i)) * d)
                by (nonlinear_arith)
                requires
                    pop_below(drawn, i) == pop_below(drawn, i - 1) + 1,
                    0 <= d,
            ;
        }
    }
}

/// The terminal-board law: with no card to come there is exactly one
/// completion and the count is its showdown outcome, zero or one.
pub proof fn lemma_terminal_board(holes: Seq<u64>, hero: int, drawn: u64, board: u64, free: int)
    ensures
        den_at(0, free) == 1,
        wins_at(holes, hero, drawn, board, 0) == 0 || wins_at(holes, hero, drawn, board, 0) == 1,
{
}

/// The determinism law: the count is a function of the table, the drawn
/// set and the board alone, so any two computations of it agree.
pub proof fn lemma_equity_deterministic(
    holes: Seq<u64>,
    hero: int,
    drawn: u64,
    board: u64,
    r: nat,
    w1: nat,
    w2: nat,
)
    requires
        w1 == wins_at(holes, hero, drawn, board, r),
        w2 == wins_at(holes, hero, drawn, board, r),
    ensures
        w1 == w2,
{
}

} // verus!