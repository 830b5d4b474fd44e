//! A fixed table: an ordered list of hands with one seat marked as hero.
use vstd::prelude::*;

use crate::bits::{
    bits52, lemma_bits52_bit, lemma_bits52_or, lemma_and_or_distrib, lemma_or_assoc,
    lemma_pop_below_zero, lemma_pop_or, lemma_pop_or_bit, lemma_single_bit_test, pop64,
};
use crate::hand::Hand;

verus! {

pub struct Game {
    pub hero_pos: usize,
    pub hands: Vec<Hand>,
}

/// The hole masks of a table, in seat order.
pub open spec fn holes_of(hands: Seq<Hand>) -> Seq<u64> {
    hands.map_values(|h: Hand| h.hole_b)
}

/// Union of the hole masks of the first `n` seats.
pub open spec fn holes_mask_upto(hs: Seq<u64>, n: int) -> u64
    decreases n,
{
    if n <= 0 {
        0u64
    } else {
        holes_mask_upto(hs, n - 1) | hs[n - 1]
    }
}

/// Union of all the hole masks of a table.
pub open spec fn holes_mask(hs: Seq<u64>) -> u64 {
    holes_mask_upto(hs, hs.len() as int)
}

impl Game {
    /// The table shape is fixed: a hero seat in range, at most 23 seats
    /// so that five streets can always come, well-formed hands, and
    /// pairwise disjoint hole masks.
    pub open spec fn wf(self) -> bool {
        &&& 1 <= self.hands@.len() <= 23
        &&& self.hero_pos < self.hands@.len()
        &&& forall|i: int| 0 <= i < self.hands@.len() ==> (#[trigger] self.hands@[i]).inv()
        &&& forall|i: int, j: int|
            0 <= i < self.hands@.len() && 0 <= j < self.hands@.len() && i != j ==> (
            #[trigger] self.hands@[i]).hole_b & (#[trigger] self.hands@[j]).hole_b == 0
    }

    pub fn new(hero_pos: usize, hands: Vec<Hand>) -> (g: Game)
        ensures
            g.hero_pos == hero_pos,
            g.hands == hands,
    {
        Game { hero_pos, hands }
    }

    /// A copy of the table: same seats and hole cards, fresh evaluation
    /// memos.
    pub fn duplicate(&self) -> (g: Game)
        ensures
            g.hero_pos == self.hero_pos,
            g.hands@.len() == self.hands@.len(),
            forall|i: int|
                0 <= i < self.hands@.len() ==> (#[trigger] g.hands@[i]).hole
                    == self.hands@[i].hole && g.hands@[i].hole_b == self.hands@[i].hole_b
                    && g.hands@[i].memo_ok(),
            holes_of(g.hands@) == holes_of(self.hands@),
            self.wf() ==> g.wf(),
    {
        let n = self.hands.len();
        let mut hands: Vec<Hand> = Vec::new();
        let mut i: usize = 0;
        while i < n
            invariant
                i <= n,
                n == self.hands@.len(),
                hands@.len() == i,
                forall|j: int|
                    0 <= j < i ==> (#[trigger] hands@[j]).hole == self.hands@[j].hole
                        && hands@[j].hole_b == self.hands@[j].hole_b && hands@[j].memo_ok(),
            decreases n - i,
        {
            let h = self.hands[i].duplicate();
            hands.push(h);
            i = i + 1;
        }
        let g = Game { hero_pos: self.hero_pos, hands };
        proof {
            assert(holes_of(g.hands@) =~= holes_of(self.hands@));
        }
        g
    }
}

/// A single seat's two-bit hole mask uses card bits only and holds
/// exactly two of them.
pub proof fn lemma_hand_mask(h: Hand)
    requires
        h.holes_wf(),
    ensures
        bits52(h.hole_b),
        pop64(h.hole_b) == 2,
{
    let i0 = h.hole.0.idx as u64;
    let i1 = h.hole.1.idx as u64;
    h.hole.0.lemma_wf_idx_range();
    h.hole.1.lemma_wf_idx_range();
    lemma_bits52_bit(i0);
    lemma_bits52_bit(i1);
    lemma_bits52_or(1u64 << i0, 1u64 << i1);
    lemma_single_bit_test(i0, i1);
    lemma_pop_single_bit_pub(i1);
    lemma_pop_or_bit(1u64 << i1, i0);
    lemma_or_assoc(1u64 << i1, 1u64 << i0, 0u64);
}

proof fn lemma_pop_single_bit_pub(i: u64)
    requires
        i < 64,
    ensures
        pop64(1u64 << i) == 1,
{
    crate::bits::lemma_pop_single_bit(i);
}

/// The union of the first `n` hole masks of a well-formed table uses
/// card bits only, holds two bits per seat, and stays disjoint from the
/// remaining seats' masks.
pub proof fn lemma_holes_mask(hands: Seq<Hand>, n: int)
    requires
        0 <= n <= hands.len(),
        forall|i: int| 0 <= i < hands.len() ==> (#[trigger] hands[i]).holes_wf(),
        forall|i: int, j: int|
            0 <= i < hands.len() && 0 <= j < hands.len() && i != j ==> (#[trigger] hands[i]).hole_b
                & (#[trigger] hands[j]).hole_b == 0,
    ensures
        bits52(holes_mask_upto(holes_of(hands), n)),
        pop64(holes_mask_upto(holes_of(hands), n)) == 2 * n,
        forall|j: int|
            n <= j < hands.len() ==> holes_mask_upto(holes_of(hands), n) & (
            #[trigger] hands[j]).hole_b == 0,
    decreases n,
{
    let hs = holes_of(hands);
    if n == 0 {
        lemma_pop_below_zero(64);
        assert forall|j: int| 0 <= j < hands.len() implies holes_mask_upto(hs, 0)
            & hands[j].hole_b == 0 by {
            let m = hands[j].hole_b;
            assert(0u64 & m == 0u64) by (bit_vector);
        }
        assert(0u64 >> 52u64 == 0u64) by (bit_vector);
    } else {
        lemma_holes_mask(hands, n - 1);
        let prev = holes_mask_upto(hs, n - 1);
        let hb = hands[n - 1].hole_b;
        lemma_hand_mask(hands[n - 1]);
        lemma_bits52_or(prev, hb);
        lemma_pop_or(prev, hb);
        lemma_pop_below_zero(64);
        assert(prev & hb == 0u64);
        assert forall|j: int| n <= j < hands.len() implies holes_mask_upto(hs, n)
            & hands[j].hole_b == 0 by {
            let m = hands[j].hole_b;
            lemma_and_or_distrib(prev, hb, m);
            assert(prev & m == 0u64);
            assert(hb & m == 0u64);
            assert(0u64 | 0u64 == 0u64) by (bit_vector);
        }
    }
}

} // verus!
