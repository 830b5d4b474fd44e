//! One seat's hole cards, with a lazily built memo of 7-card evaluations
//! keyed by the exact card mask.
use vstd::prelude::*;

use vstd::hash_map::HashMapWithView;

use crate::cards::{card_chars_ok, card_index_of_chars, Card};
use crate::eval::{
    flush_kicker, fullhouse_kicker, high_card_kicker, kicker_of, lemma_scan_count,
    lemma_scan_pairish, lemma_scan_sf, lemma_scan_straight, lemma_suit_nonempty, max_in_suit_x,
    max_val_with_count, pair_kicker, rank_of, royal_at, royal_at_x, scan_count_eq,
    scan_pairish_except, sf_high, sf_high_x, spec_is_flush, spec_is_fullhouse, spec_is_pair,
    spec_is_quads, spec_is_royal, spec_is_straight, spec_is_straight_flush, spec_is_trips,
    spec_is_two_pair, straight_high, straight_high_x, suit_count, suit_count_x, trips_kicker,
    two_pair_kicker, vcount, Rank,
};

verus! {

broadcast use vstd::std_specs::hash::group_hash_axioms;

/// A two-character card text for each hole card, and the two distinct.
pub open spec fn hand_chars_ok(s: Seq<char>) -> bool {
    &&& s.len() == 4
    &&& card_chars_ok(s[0], s[1])
    &&& card_chars_ok(s[2], s[3])
    &&& card_index_of_chars(s[0], s[1]) != card_index_of_chars(s[2], s[3])
}

/// The two-bit mask encoded by a four-character hole text.
pub open spec fn hand_mask_of(s: Seq<char>) -> u64 {
    (1u64 << (card_index_of_chars(s[0], s[1]) as u64)) | (1u64 << (card_index_of_chars(
        s[2],
        s[3],
    ) as u64))
}

pub struct Hand {
    pub hole: (Card, Card),
    pub hole_b: u64,
    pub memo: HashMapWithView<u64, (Rank, u32)>,
    pub kicker: u32,
}

impl Hand {
    /// Every memo entry is the true evaluation of its key.
    pub open spec fn memo_ok(self) -> bool {
        forall|k: u64|
            self.memo@.dom().contains(k) ==> (#[trigger] self.memo@[k]).0 == rank_of(k)
                && self.memo@[k].1 == kicker_of(k)
    }

    /// The hole cards are well formed, distinct, and the two-bit mask
    /// matches them.
    pub open spec fn holes_wf(self) -> bool {
        &&& self.hole.0.wf()
        &&& self.hole.1.wf()
        &&& self.hole.0.idx != self.hole.1.idx
        &&& self.hole_b == (1u64 << (self.hole.0.idx as u64)) | (1u64 << (self.hole.1.idx as u64))
    }

    pub open spec fn inv(self) -> bool {
        self.holes_wf() && self.memo_ok()
    }

    pub fn new(hole: (Card, Card)) -> (h: Hand)
        requires
            hole.0.wf(),
            hole.1.wf(),
        ensures
            h.hole == hole,
            h.hole_b == (1u64 << (hole.0.idx as u64)) | (1u64 << (hole.1.idx as u64)),
            h.memo@ == Map::<u64, (Rank, u32)>::empty(),
            h.kicker == 0,
            h.memo_ok(),
            hole.0.idx != hole.1.idx ==> h.holes_wf(),
    {
        let hole_b: u64 = (1u64 << (hole.0.idx as u64)) | (1u64 << (hole.1.idx as u64));
        Hand { hole, hole_b, memo: HashMapWithView::new(), kicker: 0 }
    }

    /// Parses a four-character hole text such as `"AcAd"`: two cards of
    /// two characters each.
    pub fn from_string(s: String) -> (h: Hand)
        requires
            hand_chars_ok(s@),
        ensures
            h.inv(),
            h.hole_b == hand_mask_of(s@),
            h.memo@ == Map::<u64, (Rank, u32)>::empty(),
            h.hole.0.idx == card_index_of_chars(s@[0], s@[1]),
            h.hole.1.idx == card_index_of_chars(s@[2], s@[3]),
    {
        let h1 = s.as_str().substring_char(0, 2).to_owned();
        let h2 = s.as_str().substring_char(2, 4).to_owned();
        let c0 = Card::from_string(h1);
        let c1 = Card::from_string(h2);
        Hand::new((c0, c1))
    }

    /// A copy sharing the hole cards but starting with a fresh memo.
    pub fn duplicate(&self) -> (h: Hand)
        ensures
            h.hole == self.hole,
            h.hole_b == self.hole_b,
            h.kicker == self.kicker,
            h.memo@ == Map::<u64, (Rank, u32)>::empty(),
            h.memo_ok(),
            self.holes_wf() ==> h.holes_wf(),
    {
        Hand { hole: self.hole, hole_b: self.hole_b, memo: HashMapWithView::new(), kicker: self.kicker }
    }

    /// Classifies the hole cards joined with `board`, memoized by the
    /// combined mask; leaves the matching kicker in `self.kicker`.
    pub fn rank(&mut self, board: &u64) -> (r: Rank)
        requires
            old(self).memo_ok(),
        ensures
            final(self).memo_ok(),
            final(self).hole == old(self).hole,
            final(self).hole_b == old(self).hole_b,
            r == rank_of(old(self).hole_b | *board),
            final(self).kicker == kicker_of(old(self).hole_b | *board),
            // the memo only grows, and afterwards holds the evaluated key
            old(self).memo@.submap_of(final(self).memo@),
            final(self).memo@.dom().contains(old(self).hole_b | *board),
            old(self).memo@.dom().contains(old(self).hole_b | *board) ==> final(self).memo@ == old(
                self,
            ).memo@,
    {
        let cards_key: u64 = self.hole_b | *board;

        match self.memo.get(&cards_key) {
            Some(p) => {
                self.kicker = p.1;
                return p.0;
            },
            None => {},
        }

        let mut rank_found: Rank = Rank::HighCard;

        if self.is_royal_flush(&cards_key) {
            rank_found = Rank::RoyalFlush;
            self.kicker = 0;
        } else if self.is_straight_flush(&cards_key) {
            rank_found = Rank::StraightFlush;
        } else if self.is_quads(&cards_key) {
            rank_found = Rank::Quads;
        } else if self.is_fullhouse(&cards_key) {
            rank_found = Rank::FullHouse;
        } else if self.is_flush(&cards_key) {
            rank_found = Rank::Flush;
        } else if self.is_straight(&cards_key) {
            rank_found = Rank::Straight;
        } else if self.is_three_of_a_kind(&cards_key) {
            rank_found = Rank::Trips;
        } else if self.is_two_pair(&cards_key) {
            rank_found = Rank::TwoPair;
        } else if self.is_pair(&cards_key) {
            rank_found = Rank::Pair;
        } else {
            self.compute_kicker_for_high_card(&cards_key);
        }
        self.memo.insert(cards_key, (rank_found, self.kicker));
        rank_found
    }

    /// Ten through ace in one suit.
    pub fn is_royal_flush(&self, cards: &u64) -> (r: bool)
        ensures
            r == spec_is_royal(*cards),
    {
        let m = *cards;
        let r = royal_at_x(m, 0) || royal_at_x(m, 1) || royal_at_x(m, 2) || royal_at_x(m, 3);
        proof {
            if !r {
                assert forall|s: int| 0 <= s < 4 implies !royal_at(m, s) by {
                    assert(s == 0 || s == 1 || s == 2 || s == 3);
                }
            }
        }
        r
    }

    /// Five consecutive values in one suit, king-high down to the wheel.
    pub fn is_straight_flush(&mut self, cards: &u64) -> (r: bool)
        ensures
            r == spec_is_straight_flush(*cards),
            r ==> final(self).kicker == sf_high(*cards),
            !r ==> final(self).kicker == old(self).kicker,
            final(self).hole == old(self).hole,
            final(self).hole_b == old(self).hole_b,
            final(self).memo == old(self).memo,
    {
        let m = *cards;
        let h = sf_high_x(m);
        proof {
            lemma_scan_sf(m, 13);
        }
        if h != 0 {
            self.kicker = h as u32;
            true
        } else {
            false
        }
    }

    /// One value held in all four suits.
    pub fn is_quads(&mut self, cards: &u64) -> (r: bool)
        ensures
            r == spec_is_quads(*cards),
            r ==> final(self).kicker == max_val_with_count(*cards, 4, 14),
            !r ==> final(self).kicker == old(self).kicker,
            final(self).hole == old(self).hole,
            final(self).hole_b == old(self).hole_b,
            final(self).memo == old(self).memo,
    {
        let m = *cards;
        let q = scan_count_eq(m, 4, 14);
        proof {
            lemma_scan_count(m, 4, 14);
        }
        if q != 0 {
            self.kicker = q as u32;
            true
        } else {
            false
        }
    }

    /// Three of one value beside at least a pair of another.
    pub fn is_fullhouse(&mut self, cards: &u64) -> (r: bool)
        ensures
            r == spec_is_fullhouse(*cards),
            r ==> final(self).kicker == fullhouse_kicker(*cards),
            !r ==> final(self).kicker == old(self).kicker,
            final(self).hole == old(self).hole,
            final(self).hole_b == old(self).hole_b,
            final(self).memo == old(self).memo,
    {
        let m = *cards;
        let t = scan_count_eq(m, 3, 14);
        proof {
            lemma_scan_count(m, 3, 14);
        }
        if t == 0 {
            proof {
                if spec_is_fullhouse(m) {
                    let (v, w) = choose|v: int, w: int|
                        2 <= v <= 14 && 2 <= w <= 14 && v != w && vcount(m, v) == 3 && vcount(
                            m,
                            w,
                        ) >= 2;
                    assert(vcount(m, v) != 3);
                }
            }
            return false;
        }
        let w = scan_pairish_except(m, t, 14);
        proof {
            lemma_scan_pairish(m, t as int, 14);
            if w == 0 && spec_is_fullhouse(m) {
                let (v0, w0) = choose|v0: int, w0: int|
                    2 <= v0 <= 14 && 2 <= w0 <= 14 && v0 != w0 && vcount(m, v0) == 3 && vcount(
                        m,
                        w0,
                    ) >= 2;
                assert(v0 == t);
                assert(vcount(m, w0) < 2);
            }
        }
        if w == 0 {
            return false;
        }
        self.kicker = (t as u32) * 100 + (w as u32);
        true
    }

    /// Five or more cards of one suit.
    pub fn is_flush(&mut self, cards: &u64) -> (r: bool)
        ensures
            r == spec_is_flush(*cards),
            r ==> final(self).kicker == flush_kicker(*cards),
            !r ==> final(self).kicker == old(self).kicker,
            final(self).hole == old(self).hole,
            final(self).hole_b == old(self).hole_b,
            final(self).memo == old(self).memo,
    {
        let m = *cards;
        let fs: u8 = if suit_count_x(m, 0) >= 5 {
            0
        } else if suit_count_x(m, 1) >= 5 {
            1
        } else if suit_count_x(m, 2) >= 5 {
            2
        } else if suit_count_x(m, 3) >= 5 {
            3
        } else {
            4
        };
        if fs == 4 {
            proof {
                assert forall|s: int| 0 <= s < 4 implies !(suit_count(m, s) >= 5) by {
                    assert(s == 0 || s == 1 || s == 2 || s == 3);
                }
            }
            return false;
        }
        proof {
            lemma_suit_nonempty(m, fs as int, 14);
        }
        let hi = max_in_suit_x(m, fs);
        self.kicker = (((hi - 2) * 4 + fs + 1) as u32);
        true
    }

    /// Five consecutive values over any suits, ace-high down to the
    /// wheel.
    pub fn is_straight(&mut self, cards: &u64) -> (r: bool)
        ensures
            r == spec_is_straight(*cards),
            r ==> final(self).kicker == straight_high(*cards),
            !r ==> final(self).kicker == old(self).kicker,
            final(self).hole == old(self).hole,
            final(self).hole_b == old(self).hole_b,
            final(self).memo == old(self).memo,
    {
        let m = *cards;
        let h = straight_high_x(m);
        proof {
            lemma_scan_straight(m, 14);
        }
        if h != 0 {
            self.kicker = h as u32;
            true
        } else {
            false
        }
    }

    /// Exactly three of one value, with the two best remaining single
    /// values as tie breakers.
    pub fn is_three_of_a_kind(&mut self, cards: &u64) -> (r: bool)
        ensures
            r == spec_is_trips(*cards),
            r ==> final(self).kicker == trips_kicker(*cards),
            !r ==> final(self).kicker == old(self).kicker,
            final(self).hole == old(self).hole,
            final(self).hole_b == old(self).hole_b,
            final(self).memo == old(self).memo,
    {
        let m = *cards;
        let t = scan_count_eq(m, 3, 14);
        proof {
            lemma_scan_count(m, 3, 14);
        }
        if t == 0 {
            return false;
        }
        let k1 = scan_count_eq(m, 1, 14);
        let k2 = scan_count_eq(m, 1, if k1 == 0 { 0 } else { k1 - 1 });
        self.kicker = (t as u32) * 10000 + (k1 as u32) * 100 + (k2 as u32);
        true
    }

    /// Two distinct pairs, with the best remaining single value as tie
    /// breaker.
    pub fn is_two_pair(&mut self, cards: &u64) -> (r: bool)
        ensures
            r == spec_is_two_pair(*cards),
            r ==> final(self).kicker == two_pair_kicker(*cards),
            !r ==> final(self).kicker == old(self).kicker,
            final(self).hole == old(self).hole,
            final(self).hole_b == old(self).hole_b,
            final(self).memo == old(self).memo,
    {
        let m = *cards;
        let p1 = scan_count_eq(m, 2, 14);
        proof {
            lemma_scan_count(m, 2, 14);
        }
        if p1 == 0 {
            proof {
                if spec_is_two_pair(m) {
                    let (v, w) = choose|v: int, w: int|
                        2 <= v <= 14 && 2 <= w <= 14 && v != w && vcount(m, v) == 2 && vcount(
                            m,
                            w,
                        ) == 2;
                    assert(vcount(m, v) != 2);
                }
            }
            return false;
        }
        let p2 = scan_count_eq(m, 2, p1 - 1);
        proof {
            lemma_scan_count(m, 2, p1 as int - 1);
            if p2 == 0 && spec_is_two_pair(m) {
                let (v, w) = choose|v: int, w: int|
                    2 <= v <= 14 && 2 <= w <= 14 && v != w && vcount(m, v) == 2 && vcount(
                        m,
                        w,
                    ) == 2;
                assert(v == p1);
                assert(w == p1);
            }
        }
        if p2 == 0 {
            return false;
        }
        let k = scan_count_eq(m, 1, 14);
        self.kicker = (p1 as u32) * 10000 + (p2 as u32) * 100 + (k as u32);
        true
    }

    /// Exactly one pair, with the three best remaining single values as
    /// tie breakers.
    pub fn is_pair(&mut self, cards: &u64) -> (r: bool)
        ensures
            r == spec_is_pair(*cards),
            r ==> final(self).kicker == pair_kicker(*cards),
            !r ==> final(self).kicker == old(self).kicker,
            final(self).hole == old(self).hole,
            final(self).hole_b == old(self).hole_b,
            final(self).memo == old(self).memo,
    {
        let m = *cards;
        let p = scan_count_eq(m, 2, 14);
        proof {
            lemma_scan_count(m, 2, 14);
        }
        if p == 0 {
            return false;
        }
        let k1 = scan_count_eq(m, 1, 14);
        let k2 = scan_count_eq(m, 1, if k1 == 0 { 0 } else { k1 - 1 });
        let k3 = scan_count_eq(m, 1, if k2 == 0 { 0 } else { k2 - 1 });
        self.kicker = (p as u32) * 1000000 + (k1 as u32) * 10000 + (k2 as u32) * 100 + (k3 as u32);
        true
    }

    /// The five best single values, base-100 encoded from the top down.
    pub fn compute_kicker_for_high_card(&mut self, cards: &u64)
        ensures
            final(self).kicker == high_card_kicker(*cards),
            final(self).hole == old(self).hole,
            final(self).hole_b == old(self).hole_b,
            final(self).memo == old(self).memo,
    {
        let m = *cards;
        let k1 = scan_count_eq(m, 1, 14);
        let k2 = scan_count_eq(m, 1, if k1 == 0 { 0 } else { k1 - 1 });
        let k3 = scan_count_eq(m, 1, if k2 == 0 { 0 } else { k2 - 1 });
        let k4 = scan_count_eq(m, 1, if k3 == 0 { 0 } else { k3 - 1 });
        let k5 = scan_count_eq(m, 1, if k4 == 0 { 0 } else { k4 - 1 });
        self.kicker = (k1 as u32) * 100000000 + (k2 as u32) * 1000000 + (k3 as u32) * 10000 + (
        k4 as u32) * 100 + (k5 as u32);
    }
}

} // verus!
