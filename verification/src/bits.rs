//! Bit-level model of 64-bit card masks: single-bit tests, population
//! counts, and the lemmas that relate them to `|`, `&` and `-` on masks.
use vstd::prelude::*;

verus! {

/// Bit `i` of `m` is set.
pub open spec fn bit64(m: u64, i: int) -> bool {
    0 <= i < 64 && (m >> (i as u64)) & 1u64 == 1u64
}

/// `m` uses only the 52 low bits, one per card.
pub open spec fn bits52(m: u64) -> bool {
    m >> 52u64 == 0u64
}

/// Number of set bits of `m` below position `n`.
pub open spec fn pop_below(m: u64, n: int) -> int
    decreases n,
{
    if n <= 0 {
        0
    } else {
        pop_below(m, n - 1) + if bit64(m, n - 1) {
            1int
        } else {
            0int
        }
    }
}

/// Number of set bits of `m`.
pub open spec fn pop64(m: u64) -> int {
    pop_below(m, 64)
}

pub proof fn lemma_bit_or_single(a: u64, i: u64, j: u64)
    by (bit_vector)
    requires
        i < 64,
        j < 64,
    ensures
        (a | (1u64 << i)) >> j & 1u64 == if i == j {
            1u64
        } else {
            a >> j & 1u64
        },
{
}

pub proof fn lemma_bit_or(a: u64, b: u64, j: u64)
    by (bit_vector)
    requires
        j < 64,
    ensures
        ((a | b) >> j) & 1u64 == 1u64 <==> ((a >> j) & 1u64 == 1u64 || (b >> j) & 1u64 == 1u64),
{
}

pub proof fn lemma_bit_and(a: u64, b: u64, j: u64)
    by (bit_vector)
    requires
        j < 64,
    ensures
        ((a & b) >> j) & 1u64 == 1u64 <==> ((a >> j) & 1u64 == 1u64 && (b >> j) & 1u64 == 1u64),
{
}

/// Setting a bit that is already set changes nothing.
pub proof fn lemma_or_set_noop(a: u64, i: u64)
    by (bit_vector)
    requires
        i < 64,
        (a >> i) & 1u64 == 1u64,
    ensures
        a | (1u64 << i) == a,
{
}

/// Subtracting a set bit equals clearing it, and does not underflow.
pub proof fn lemma_sub_set_bit(a: u64, i: u64)
    by (bit_vector)
    requires
        i < 64,
        (a >> i) & 1u64 == 1u64,
    ensures
        1u64 << i <= a,
        a - (1u64 << i) == a & !(1u64 << i),
        ((a & !(1u64 << i)) | (1u64 << i)) == a,
        ((a & !(1u64 << i)) >> i) & 1u64 == 0u64,
{
}

/// A mask of disjoint unions can be peeled apart again.
pub proof fn lemma_mask_recover(d: u64, h: u64, b: u64)
    by (bit_vector)
    requires
        d == h | b,
        h & b == 0u64,
    ensures
        d & !h == b,
{
}

/// Pushing one fresh card onto the board commutes with the drawn union.
pub proof fn lemma_or_push_bit(h: u64, b: u64, i: u64)
    by (bit_vector)
    requires
        i < 64,
    ensures
        (h | b) | (1u64 << i) == h | (b | (1u64 << i)),
        (h >> i) & 1u64 != 1u64 && h & b == 0u64 ==> h & (b | (1u64 << i)) == 0u64,
{
}

pub proof fn lemma_bits52_or(a: u64, b: u64)
    by (bit_vector)
    requires
        a >> 52u64 == 0u64,
        b >> 52u64 == 0u64,
    ensures
        (a | b) >> 52u64 == 0u64,
        (a & b) >> 52u64 == 0u64,
{
}

pub proof fn lemma_bits52_bit(i: u64)
    by (bit_vector)
    requires
        i < 52,
    ensures
        (1u64 << i) >> 52u64 == 0u64,
        ((1u64 << i) >> i) & 1u64 == 1u64,
{
}

/// Two hole-card masks made of four pairwise distinct card bits are disjoint.
pub proof fn lemma_two_card_disjoint(i0: u64, i1: u64, j0: u64, j1: u64)
    by (bit_vector)
    requires
        i0 < 64,
        i1 < 64,
        j0 < 64,
        j1 < 64,
        i0 != j0,
        i0 != j1,
        i1 != j0,
        i1 != j1,
    ensures
        ((1u64 << i0) | (1u64 << i1)) & ((1u64 << j0) | (1u64 << j1)) == 0u64,
{
}

pub proof fn lemma_or_assoc(a: u64, b: u64, c: u64)
    by (bit_vector)
    ensures
        (a | b) | c == a | (b | c),
        a | b == b | a,
        a & b == b & a,
{
}

pub proof fn lemma_and_or_distrib(a: u64, b: u64, c: u64)
    by (bit_vector)
    ensures
        (a | b) & c == (a & c) | (b & c),
        c & (a | b) == (c & a) | (c & b),
{
}

/// Which single bits a one-bit mask answers to.
pub proof fn lemma_single_bit_test(i: u64, j: u64)
    by (bit_vector)
    requires
        i < 64,
        j < 64,
    ensures
        ((1u64 << j) >> i) & 1u64 == if i == j {
            1u64
        } else {
            0u64
        },
{
}

/// Setting then subtracting a fresh bit restores the mask exactly.
pub proof fn lemma_push_pop_bit(x: u64, i: u64)
    by (bit_vector)
    requires
        i < 64,
        (x >> i) & 1u64 != 1u64,
    ensures
        ((x | (1u64 << i)) >> i) & 1u64 == 1u64,
        (x | (1u64 << i)) - (1u64 << i) == x,
        (x | (1u64 << i)) & !(1u64 << i) == x,
        1u64 << i <= x | (1u64 << i),
{
}

/// The zero mask has no bit set.
pub proof fn lemma_zero_bit(j: u64)
    by (bit_vector)
    requires
        j < 64,
    ensures
        (0u64 >> j) & 1u64 == 0u64,
{
}

pub proof fn lemma_pop_below_bound(m: u64, n: int)
    ensures
        0 <= pop_below(m, n),
        pop_below(m, n) <= n || n < 0,
    decreases n,
{
    if n > 0 {
        lemma_pop_below_bound(m, n - 1);
    }
}

/// Counting bits after setting a fresh bit `i`: one more below any
/// boundary that lies above `i`.
pub proof fn lemma_pop_below_or_bit(m: u64, i: u64, n: int)
    requires
        i < 64,
        !bit64(m, i as int),
    ensures
        pop_below(m | (1u64 << i), n) == pop_below(m, n) + if (i as int) < n {
            1int
        } else {
            0int
        },
    decreases n,
{
    if n > 0 {
        lemma_pop_below_or_bit(m, i, n - 1);
        if n - 1 < 64 {
            lemma_bit_or_single(m, i, (n - 1) as u64);
        }
    }
}

pub proof fn lemma_pop_or_bit(m: u64, i: u64)
    requires
        i < 64,
        !bit64(m, i as int),
    ensures
        pop64(m | (1u64 << i)) == pop64(m) + 1,
{
    lemma_pop_below_or_bit(m, i, 64);
}

/// Splitting a mask at a set bit: total count is one more than the count
/// with the bit cleared.
pub proof fn lemma_pop_clear_bit(m: u64, i: u64)
    requires
        i < 64,
        bit64(m, i as int),
    ensures
        pop64(m) == pop64(m & !(1u64 << i)) + 1,
        m - (1u64 << i) == m & !(1u64 << i),
        1u64 << i <= m,
    decreases 0int,
{
    lemma_sub_set_bit(m, i);
    lemma_pop_or_bit(m & !(1u64 << i), i);
}

/// Inclusion-exclusion for the population count, below any boundary.
pub proof fn lemma_pop_below_or(a: u64, b: u64, n: int)
    ensures
        pop_below(a | b, n) == pop_below(a, n) + pop_below(b, n) - pop_below(a & b, n),
    decreases n,
{
    if n > 0 {
        lemma_pop_below_or(a, b, n - 1);
        if n - 1 < 64 {
            lemma_bit_or(a, b, (n - 1) as u64);
            lemma_bit_and(a, b, (n - 1) as u64);
        }
    }
}

/// Intersecting with another mask can only lower the count.
pub proof fn lemma_pop_below_and_le(a: u64, b: u64, n: int)
    ensures
        pop_below(a & b, n) <= pop_below(b, n),
    decreases n,
{
    if n > 0 {
        lemma_pop_below_and_le(a, b, n - 1);
        if n - 1 < 64 {
            lemma_bit_and(a, b, (n - 1) as u64);
        }
    }
}

pub proof fn lemma_pop_or(a: u64, b: u64)
    ensures
        pop64(a | b) == pop64(a) + pop64(b) - pop64(a & b),
{
    lemma_pop_below_or(a, b, 64);
}

pub proof fn lemma_pop_single_bit(i: u64)
    requires
        i < 64,
    ensures
        pop64(1u64 << i) == 1,
{
    assert((0u64 >> i) & 1u64 == 0u64) by (bit_vector);
    lemma_pop_or_bit(0u64, i);
    lemma_pop_below_zero(64);
    assert(0u64 | (1u64 << i) == 1u64 << i) by (bit_vector);
}

pub proof fn lemma_pop_below_zero(n: int)
    ensures
        pop_below(0u64, n) == 0,
    decreases n,
{
    if n > 0 {
        lemma_pop_below_zero(n - 1);
        if n - 1 < 64 {
            let j = (n - 1) as u64;
            assert((0u64 >> j) & 1u64 == 0u64) by (bit_vector);
        }
    }
}

/// Population count, as executable code.
pub fn popcount64(m: u64) -> (c: u8)
    ensures
        c == pop64(m),
{
    let mut c: u8 = 0;
    let mut i: u64 = 0;
    while i < 64
        invariant
            i <= 64,
            c == pop_below(m, i as int),
        decreases 64 - i,
    {
        proof {
            lemma_pop_below_bound(m, i as int);
        }
        if (m >> i) & 1u64 == 1u64 {
            c = c + 1;
        }
        i = i + 1;
    }
    c
}

} // verus!
