//! A population-counted set of card indices over one 64-bit word: the
//! "drawn" set of cards already committed to hands or the board.
use vstd::prelude::*;

use crate::bits::{
    bit64, lemma_or_set_noop, lemma_pop_below_bound, lemma_pop_below_zero, lemma_pop_below_and_le, lemma_pop_clear_bit,
    lemma_pop_or, lemma_pop_or_bit, pop64, popcount64,
};

verus! {

#[derive(Clone, Copy, Debug)]
pub struct BitSet {
    pub s: u64,
    pub length: usize,
}

impl BitSet {
    /// The cached length always equals the population count of the word.
    pub open spec fn inv(self) -> bool {
        self.length == pop64(self.s)
    }

    pub fn new() -> (r: BitSet)
        ensures
            r.inv(),
            r.s == 0u64,
            r.length == 0,
    {
        proof {
            lemma_pop_below_zero(64);
        }
        BitSet { s: 0, length: 0 }
    }

    pub fn contains(&self, idx: usize) -> (r: bool)
        requires
            idx < 64,
        ensures
            r == bit64(self.s, idx as int),
    {
        (self.s >> (idx as u64)) & 1u64 == 1u64
    }

    /// Adds one index; a no-op when the index is already present.
    pub fn add(&mut self, idx: usize)
        requires
            idx < 64,
            old(self).inv(),
        ensures
            final(self).inv(),
            final(self).s == old(self).s | (1u64 << (idx as u64)),
            !bit64(old(self).s, idx as int) ==> final(self).length == old(self).length + 1,
            bit64(old(self).s, idx as int) ==> *final(self) == *old(self),
    {
        if !self.contains(idx) {
            proof {
                lemma_pop_or_bit(self.s, idx as u64);
                lemma_pop_below_bound(self.s, 64);
            }
            self.s = self.s | (1u64 << (idx as u64));
            self.length = self.length + 1;
        } else {
            proof {
                lemma_or_set_noop(self.s, idx as u64);
            }
        }
    }

    /// Removes one index; a no-op when the index is absent.
    pub fn remove(&mut self, idx: usize)
        requires
            idx < 64,
            old(self).inv(),
        ensures
            final(self).inv(),
            final(self).s == old(self).s & !(1u64 << (idx as u64)),
            bit64(old(self).s, idx as int) ==> final(self).length == old(self).length - 1,
            !bit64(old(self).s, idx as int) ==> *final(self) == *old(self),
    {
        if self.contains(idx) {
            proof {
                lemma_pop_clear_bit(self.s, idx as u64);
                lemma_pop_below_bound(self.s & !(1u64 << (idx as u64)), 64);
            }
            self.s = self.s - (1u64 << (idx as u64));
            self.length = self.length - 1;
        } else {
            proof {
                let i = idx as u64;
                let w = self.s;
                assert((w >> i) & 1u64 != 1u64 ==> w & !(1u64 << i) == w) by (bit_vector);
            }
        }
    }

    pub fn len(&self) -> (r: usize)
        ensures
            r == self.length,
    {
        self.length
    }

    /// Merges a whole board mask, counting only the newly set bits.
    pub fn add_board(&mut self, board: &u64)
        requires
            old(self).inv(),
        ensures
            final(self).inv(),
            final(self).s == old(self).s | *board,
    {
        proof {
            lemma_pop_or(self.s, *board);
            lemma_pop_below_and_le(self.s, *board, 64);
            lemma_pop_below_bound(*board & self.s, 64);
            lemma_pop_below_bound(*board, 64);
            lemma_pop_below_bound(self.s, 64);
            lemma_pop_below_bound(self.s | *board, 64);
            let b = *board;
            let w = self.s;
            assert(b & w == w & b) by (bit_vector);
        }
        let newly = popcount64(*board) - popcount64(*board & self.s);
        self.length = self.length + (newly as usize);
        self.s = self.s | *board;
    }
}

/// The empty set has length zero; public face of the length invariant.
pub proof fn lemma_empty_pop()
    ensures
        pop64(0u64) == 0,
{
    lemma_pop_below_zero(64);
}

} // verus!
