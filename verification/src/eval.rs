//! Hand-strength model: ten totally ordered categories over a 7-card
//! mask, each with a numeric kicker for intra-category ordering, and the
//! scalar battery of membership and counting predicates that computes
//! them.
//!
//! A card mask holds one bit per card at position `(value - 2) * 4 + suit`
//! for values 2..14 and suits 0..3.
use vstd::prelude::*;

verus! {

/// The ten hand categories, weakest first.
#[derive(Clone, Copy, PartialEq, Eq, Structural, Debug)]
pub enum Rank {
    HighCard,
    Pair,
    TwoPair,
    Trips,
    Straight,
    Flush,
    FullHouse,
    Quads,
    StraightFlush,
    RoyalFlush,
}

impl Rank {
    /// Strength of the category: 0 for high card up to 9 for royal flush.
    pub open spec fn strength(self) -> int {
        match self {
            Rank::HighCard => 0,
            Rank::Pair => 1,
            Rank::TwoPair => 2,
            Rank::Trips => 3,
            Rank::Straight => 4,
            Rank::Flush => 5,
            Rank::FullHouse => 6,
            Rank::Quads => 7,
            Rank::StraightFlush => 8,
            Rank::RoyalFlush => 9,
        }
    }

    pub fn index(self) -> (r: u8)
        ensures
            r == self.strength(),
    {
        match self {
            Rank::HighCard => 0,
            Rank::Pair => 1,
            Rank::TwoPair => 2,
            Rank::Trips => 3,
            Rank::Straight => 4,
            Rank::Flush => 5,
            Rank::FullHouse => 6,
            Rank::Quads => 7,
            Rank::StraightFlush => 8,
            Rank::RoyalFlush => 9,
        }
    }
}

/// The card of value `v` (2..14) and suit `s` (0..3) is in the mask.
pub open spec fn has_card(m: u64, v: int, s: int) -> bool {
    2 <= v <= 14 && 0 <= s < 4 && (m >> (((v - 2) * 4 + s) as u64)) & 1u64 == 1u64
}

/// How many suits of value `v` the mask holds: 0..4.
pub open spec fn vcount(m: u64, v: int) -> int {
    (if has_card(m, v, 0) {
        1int
    } else {
        0int
    }) + (if has_card(m, v, 1) {
        1int
    } else {
        0int
    }) + (if has_card(m, v, 2) {
        1int
    } else {
        0int
    }) + (if has_card(m, v, 3) {
        1int
    } else {
        0int
    })
}

/// At least one card of value `v` is present.
pub open spec fn present(m: u64, v: int) -> bool {
    vcount(m, v) != 0
}

/// Highest value at most `ub` held in exactly `c` suits; 0 when none.
pub open spec fn max_val_with_count(m: u64, c: int, ub: int) -> int
    decreases ub,
{
    if ub < 2 {
        0
    } else if vcount(m, ub) == c {
        ub
    } else {
        max_val_with_count(m, c, ub - 1)
    }
}

/// Highest value at most `ub`, other than `t`, held in two or more
/// suits; 0 when none.
pub open spec fn max_pairish_except(m: u64, t: int, ub: int) -> int
    decreases ub,
{
    if ub < 2 {
        0
    } else if ub != t && vcount(m, ub) >= 2 {
        ub
    } else {
        max_pairish_except(m, t, ub - 1)
    }
}

/// How many values in 2..=ub the mask holds in suit `s`.
pub open spec fn suit_count_upto(m: u64, s: int, ub: int) -> int
    decreases ub,
{
    if ub < 2 {
        0
    } else {
        suit_count_upto(m, s, ub - 1) + if has_card(m, ub, s) {
            1int
        } else {
            0int
        }
    }
}

/// How many cards of suit `s` the mask holds.
pub open spec fn suit_count(m: u64, s: int) -> int {
    suit_count_upto(m, s, 14)
}

/// Highest value at most `ub` present in suit `s`; 0 when none.
pub open spec fn max_in_suit(m: u64, s: int, ub: int) -> int
    decreases ub,
{
    if ub < 2 {
        0
    } else if has_card(m, ub, s) {
        ub
    } else {
        max_in_suit(m, s, ub - 1)
    }
}

/// A five-card run of values topped by `h` is fully present, the wheel
/// (`h == 5`) using the ace as its low end.
pub open spec fn straight_at(m: u64, h: int) -> bool {
    if h == 5 {
        present(m, 5) && present(m, 4) && present(m, 3) && present(m, 2) && present(m, 14)
    } else {
        6 <= h <= 14 && present(m, h) && present(m, h - 1) && present(m, h - 2) && present(
            m,
            h - 3,
        ) && present(m, h - 4)
    }
}

/// Highest straight top value at most `ub`; 0 when none.
pub open spec fn straight_high_from(m: u64, ub: int) -> int
    decreases ub,
{
    if ub < 5 {
        0
    } else if straight_at(m, ub) {
        ub
    } else {
        straight_high_from(m, ub - 1)
    }
}

pub open spec fn straight_high(m: u64) -> int {
    straight_high_from(m, 14)
}

/// A five-card run topped by `h`, all of suit `s`; `h` ranges over 5..13,
/// the ace-high run being a royal flush instead.
pub open spec fn sf_at(m: u64, h: int, s: int) -> bool {
    if h == 5 {
        has_card(m, 5, s) && has_card(m, 4, s) && has_card(m, 3, s) && has_card(m, 2, s)
            && has_card(m, 14, s)
    } else {
        6 <= h <= 13 && has_card(m, h, s) && has_card(m, h - 1, s) && has_card(m, h - 2, s)
            && has_card(m, h - 3, s) && has_card(m, h - 4, s)
    }
}

pub open spec fn sf_any(m: u64, h: int) -> bool {
    exists|s: int| 0 <= s < 4 && sf_at(m, h, s)
}

/// Highest straight-flush top value at most `ub`; 0 when none.
pub open spec fn sf_high_from(m: u64, ub: int) -> int
    decreases ub,
{
    if ub < 5 {
        0
    } else if sf_any(m, ub) {
        ub
    } else {
        sf_high_from(m, ub - 1)
    }
}

pub open spec fn sf_high(m: u64) -> int {
    sf_high_from(m, 13)
}

/// Ten through ace, all of suit `s`.
pub open spec fn royal_at(m: u64, s: int) -> bool {
    has_card(m, 10, s) && has_card(m, 11, s) && has_card(m, 12, s) && has_card(m, 13, s)
        && has_card(m, 14, s)
}

pub open spec fn spec_is_royal(m: u64) -> bool {
    exists|s: int| 0 <= s < 4 && royal_at(m, s)
}

pub open spec fn spec_is_straight_flush(m: u64) -> bool {
    exists|h: int| 5 <= h <= 13 && sf_any(m, h)
}

pub open spec fn spec_is_quads(m: u64) -> bool {
    exists|v: int| 2 <= v <= 14 && vcount(m, v) == 4
}

pub open spec fn spec_is_fullhouse(m: u64) -> bool {
    exists|v: int, w: int|
        2 <= v <= 14 && 2 <= w <= 14 && v != w && vcount(m, v) == 3 && vcount(m, w) >= 2
}

pub open spec fn spec_is_flush(m: u64) -> bool {
    exists|s: int| 0 <= s < 4 && suit_count(m, s) >= 5
}

pub open spec fn spec_is_straight(m: u64) -> bool {
    exists|h: int| 5 <= h <= 14 && straight_at(m, h)
}

pub open spec fn spec_is_trips(m: u64) -> bool {
    exists|v: int| 2 <= v <= 14 && vcount(m, v) == 3
}

pub open spec fn spec_is_two_pair(m: u64) -> bool {
    exists|v: int, w: int| 2 <= v <= 14 && 2 <= w <= 14 && v != w && vcount(m, v) == 2 && vcount(
        m,
        w,
    ) == 2
}

pub open spec fn spec_is_pair(m: u64) -> bool {
    exists|v: int| 2 <= v <= 14 && vcount(m, v) == 2
}

/// Which suit carries a flush: the first of clubs, hearts, spades,
/// diamonds holding five or more cards; -1 when none.
pub open spec fn flush_suit(m: u64) -> int {
    if suit_count(m, 0) >= 5 {
        0
    } else if suit_count(m, 1) >= 5 {
        1
    } else if suit_count(m, 2) >= 5 {
        2
    } else if suit_count(m, 3) >= 5 {
        3
    } else {
        -1
    }
}

/// The category of the best five cards of the mask: the first category,
/// checked from rarest down, whose predicate holds.
pub open spec fn rank_of(m: u64) -> Rank {
    if spec_is_royal(m) {
        Rank::RoyalFlush
    } else if spec_is_straight_flush(m) {
        Rank::StraightFlush
    } else if spec_is_quads(m) {
        Rank::Quads
    } else if spec_is_fullhouse(m) {
        Rank::FullHouse
    } else if spec_is_flush(m) {
        Rank::Flush
    } else if spec_is_straight(m) {
        Rank::Straight
    } else if spec_is_trips(m) {
        Rank::Trips
    } else if spec_is_two_pair(m) {
        Rank::TwoPair
    } else if spec_is_pair(m) {
        Rank::Pair
    } else {
        Rank::HighCard
    }
}

/// The intra-category tie breaker, base-100 encoded so that every field
/// (a face value, at most 14) dominates all later fields.
pub open spec fn kicker_of(m: u64) -> int {
    if spec_is_royal(m) {
        0
    } else if spec_is_straight_flush(m) {
        sf_high(m)
    } else if spec_is_quads(m) {
        max_val_with_count(m, 4, 14)
    } else if spec_is_fullhouse(m) {
        fullhouse_kicker(m)
    } else if spec_is_flush(m) {
        flush_kicker(m)
    } else if spec_is_straight(m) {
        straight_high(m)
    } else if spec_is_trips(m) {
        trips_kicker(m)
    } else if spec_is_two_pair(m) {
        two_pair_kicker(m)
    } else if spec_is_pair(m) {
        pair_kicker(m)
    } else {
        high_card_kicker(m)
    }
}

/// Trips value, then the lower neighbour of a pair: full-house kicker.
pub open spec fn fullhouse_kicker(m: u64) -> int {
    max_val_with_count(m, 3, 14) * 100 + max_pairish_except(m, max_val_with_count(m, 3, 14), 14)
}

/// Position of the highest card of the flush suit in the mask, plus one:
/// order-preserving in the top flush card.
pub open spec fn flush_kicker(m: u64) -> int {
    (max_in_suit(m, flush_suit(m), 14) - 2) * 4 + flush_suit(m) + 1
}

pub open spec fn trips_kicker(m: u64) -> int {
    let t = max_val_with_count(m, 3, 14);
    let k1 = max_val_with_count(m, 1, 14);
    let k2 = max_val_with_count(m, 1, k1 - 1);
    t * 10000 + k1 * 100 + k2
}

pub open spec fn two_pair_kicker(m: u64) -> int {
    let p1 = max_val_with_count(m, 2, 14);
    let p2 = max_val_with_count(m, 2, p1 - 1);
    let k = max_val_with_count(m, 1, 14);
    p1 * 10000 + p2 * 100 + k
}

pub open spec fn pair_kicker(m: u64) -> int {
    let p = max_val_with_count(m, 2, 14);
    let k1 = max_val_with_count(m, 1, 14);
    let k2 = max_val_with_count(m, 1, k1 - 1);
    let k3 = max_val_with_count(m, 1, k2 - 1);
    p * 1000000 + k1 * 10000 + k2 * 100 + k3
}

pub open spec fn high_card_kicker(m: u64) -> int {
    let k1 = max_val_with_count(m, 1, 14);
    let k2 = max_val_with_count(m, 1, k1 - 1);
    let k3 = max_val_with_count(m, 1, k2 - 1);
    let k4 = max_val_with_count(m, 1, k3 - 1);
    let k5 = max_val_with_count(m, 1, k4 - 1);
    k1 * 100000000 + k2 * 1000000 + k3 * 10000 + k4 * 100 + k5
}

/// Lexicographic comparison of evaluations: category first, kicker only
/// between equal categories.
pub open spec fn beats(ra: Rank, ka: int, rb: Rank, kb: int) -> bool {
    ra.strength() > rb.strength() || (ra.strength() == rb.strength() && ka > kb)
}

/// The 7-card combination `a` strictly beats `b`.
pub open spec fn eval_gt(a: u64, b: u64) -> bool {
    beats(rank_of(a), kicker_of(a), rank_of(b), kicker_of(b))
}

/// A strictly higher category wins whatever the kickers; the kicker
/// decides only between equal categories, and equal evaluations beat
/// neither way.
pub proof fn lemma_category_dominates(ra: Rank, ka: int, rb: Rank, kb: int)
    ensures
        ra.strength() > rb.strength() ==> beats(ra, ka, rb, kb),
        ra.strength() == rb.strength() ==> (beats(ra, ka, rb, kb) <==> ka > kb),
        ra.strength() < rb.strength() ==> !beats(ra, ka, rb, kb),
        ra == rb && ka == kb ==> !beats(ra, ka, rb, kb) && !beats(rb, kb, ra, ka),
{
}

/// What the descending scan for a value count means: zero when no value
/// in range matches, else the largest matching value.
pub proof fn lemma_scan_count(m: u64, c: int, ub: int)
    ensures
        max_val_with_count(m, c, ub) == 0 ==> forall|v: int|
            2 <= v <= ub ==> #[trigger] vcount(m, v) != c,
        max_val_with_count(m, c, ub) != 0 ==> 2 <= max_val_with_count(m, c, ub) <= ub && vcount(
            m,
            max_val_with_count(m, c, ub),
        ) == c && forall|v: int|
            max_val_with_count(m, c, ub) < v <= ub ==> #[trigger] vcount(m, v) != c,
    decreases ub,
{
    if ub >= 2 {
        lemma_scan_count(m, c, ub - 1);
    }
}

/// The companion scan for a full house: zero when no other value holds a
/// pair or better, else the largest such value.
pub proof fn lemma_scan_pairish(m: u64, t: int, ub: int)
    ensures
        max_pairish_except(m, t, ub) == 0 ==> forall|v: int|
            2 <= v <= ub && v != t ==> #[trigger] vcount(m, v) < 2,
        max_pairish_except(m, t, ub) != 0 ==> 2 <= max_pairish_except(m, t, ub) <= ub
            && max_pairish_except(m, t, ub) != t && vcount(m, max_pairish_except(m, t, ub)) >= 2,
    decreases ub,
{
    if ub >= 2 {
        lemma_scan_pairish(m, t, ub - 1);
    }
}

/// The descending scan for a straight: zero when no straight tops any
/// value in range, else the highest top value.
pub proof fn lemma_scan_straight(m: u64, ub: int)
    ensures
        straight_high_from(m, ub) == 0 ==> forall|h: int|
            5 <= h <= ub ==> !#[trigger] straight_at(m, h),
        straight_high_from(m, ub) != 0 ==> 5 <= straight_high_from(m, ub) <= ub && straight_at(
            m,
            straight_high_from(m, ub),
        ),
    decreases ub,
{
    if ub >= 5 {
        lemma_scan_straight(m, ub - 1);
    }
}

/// The descending scan for a straight flush, over any suit.
pub proof fn lemma_scan_sf(m: u64, ub: int)
    ensures
        sf_high_from(m, ub) == 0 ==> forall|h: int| 5 <= h <= ub ==> !#[trigger] sf_any(m, h),
        sf_high_from(m, ub) != 0 ==> 5 <= sf_high_from(m, ub) <= ub && sf_any(
            m,
            sf_high_from(m, ub),
        ),
    decreases ub,
{
    if ub >= 5 {
        lemma_scan_sf(m, ub - 1);
    }
}

/// A suit holding at least one card has a highest card.
pub proof fn lemma_suit_nonempty(m: u64, s: int, ub: int)
    ensures
        suit_count_upto(m, s, ub) > 0 ==> 2 <= max_in_suit(m, s, ub) <= ub,
    decreases ub,
{
    if ub >= 2 {
        lemma_suit_nonempty(m, s, ub - 1);
    }
}

/// Executable single-card membership test, mirroring `has_card`.
pub fn has_card_x(cards: u64, v: u8, s: u8) -> (r: bool)
    requires
        2 <= v <= 14,
        s < 4,
    ensures
        r == has_card(cards, v as int, s as int),
{
    let sh: u64 = ((v - 2) as u64) * 4 + (s as u64);
    (cards >> sh) & 1u64 == 1u64
}

/// Executable suit-count of one value, mirroring `vcount`.
pub fn count_value(cards: u64, v: u8) -> (c: u8)
    requires
        2 <= v <= 14,
    ensures
        c == vcount(cards, v as int),
{
    let mut c: u8 = 0;
    if has_card_x(cards, v, 0) {
        c = c + 1;
    }
    if has_card_x(cards, v, 1) {
        c = c + 1;
    }
    if has_card_x(cards, v, 2) {
        c = c + 1;
    }
    if has_card_x(cards, v, 3) {
        c = c + 1;
    }
    c
}

pub fn present_x(cards: u64, v: u8) -> (r: bool)
    requires
        2 <= v <= 14,
    ensures
        r == present(cards, v as int),
{
    count_value(cards, v) != 0
}

/// Descending scan for the highest value held in exactly `c` suits.
pub fn scan_count_eq(cards: u64, c: u8, ub: u8) -> (r: u8)
    requires
        ub <= 14,
    ensures
        r == max_val_with_count(cards, c as int, ub as int),
        r <= ub,
{
    let mut v: u8 = ub;
    while v >= 2
        invariant
            v <= ub,
            ub <= 14,
            max_val_with_count(cards, c as int, ub as int) == max_val_with_count(
                cards,
                c as int,
                v as int,
            ),
        decreases v,
    {
        if count_value(cards, v) == c {
            return v;
        }
        v = v - 1;
    }
    0
}

/// Descending scan for the highest value besides `t` with two or more
/// suits.
pub fn scan_pairish_except(cards: u64, t: u8, ub: u8) -> (r: u8)
    requires
        ub <= 14,
    ensures
        r == max_pairish_except(cards, t as int, ub as int),
        r <= ub,
{
    let mut v: u8 = ub;
    while v >= 2
        invariant
            v <= ub,
            ub <= 14,
            max_pairish_except(cards, t as int, ub as int) == max_pairish_except(
                cards,
                t as int,
                v as int,
            ),
        decreases v,
    {
        if v != t && count_value(cards, v) >= 2 {
            return v;
        }
        v = v - 1;
    }
    0
}

/// Executable count of one suit's cards, mirroring `suit_count`.
pub fn suit_count_x(cards: u64, s: u8) -> (c: u8)
    requires
        s < 4,
    ensures
        c == suit_count(cards, s as int),
{
    let mut c: u8 = 0;
    let mut v: u8 = 2;
    while v <= 14
        invariant
            2 <= v <= 15,
            s < 4,
            c == suit_count_upto(cards, s as int, v as int - 1),
            c <= v - 2,
        decreases 15 - v,
    {
        if has_card_x(cards, v, s) {
            c = c + 1;
        }
        v = v + 1;
    }
    c
}

/// Descending scan for the highest card of one suit.
pub fn max_in_suit_x(cards: u64, s: u8) -> (r: u8)
    requires
        s < 4,
    ensures
        r == max_in_suit(cards, s as int, 14),
        r <= 14,
{
    let mut v: u8 = 14;
    while v >= 2
        invariant
            v <= 14,
            s < 4,
            max_in_suit(cards, s as int, 14) == max_in_suit(cards, s as int, v as int),
        decreases v,
    {
        if has_card_x(cards, v, s) {
            return v;
        }
        v = v - 1;
    }
    0
}

/// One straight window test, mirroring `straight_at`.
pub fn straight_window(cards: u64, h: u8) -> (r: bool)
    requires
        5 <= h <= 14,
    ensures
        r == straight_at(cards, h as int),
{
    if h == 5 {
        present_x(cards, 5) && present_x(cards, 4) && present_x(cards, 3) && present_x(cards, 2)
            && present_x(cards, 14)
    } else {
        present_x(cards, h) && present_x(cards, h - 1) && present_x(cards, h - 2) && present_x(
            cards,
            h - 3,
        ) && present_x(cards, h - 4)
    }
}

/// Highest straight top value in the mask; 0 when none.
pub fn straight_high_x(cards: u64) -> (r: u8)
    ensures
        r == straight_high(cards),
        r <= 14,
{
    let mut h: u8 = 14;
    while h >= 5
        invariant
            h <= 14,
            straight_high(cards) == straight_high_from(cards, h as int),
        decreases h,
    {
        if straight_window(cards, h) {
            return h;
        }
        h = h - 1;
    }
    0
}

/// One straight-flush window test in one suit, mirroring `sf_at`.
pub fn sf_window(cards: u64, h: u8, s: u8) -> (r: bool)
    requires
        5 <= h <= 13,
        s < 4,
    ensures
        r == sf_at(cards, h as int, s as int),
{
    if h == 5 {
        has_card_x(cards, 5, s) && has_card_x(cards, 4, s) && has_card_x(cards, 3, s) && has_card_x(
            cards,
            2,
            s,
        ) && has_card_x(cards, 14, s)
    } else {
        has_card_x(cards, h, s) && has_card_x(cards, h - 1, s) && has_card_x(cards, h - 2, s)
            && has_card_x(cards, h - 3, s) && has_card_x(cards, h - 4, s)
    }
}

/// One straight-flush window test over all four suits.
pub fn sf_any_x(cards: u64, h: u8) -> (r: bool)
    requires
        5 <= h <= 13,
    ensures
        r == sf_any(cards, h as int),
{
    let r = sf_window(cards, h, 0) || sf_window(cards, h, 1) || sf_window(cards, h, 2) || sf_window(
        cards,
        h,
        3,
    );
    proof {
        if !r {
            assert forall|s: int| 0 <= s < 4 implies !sf_at(cards, h as int, s) by {
                assert(s == 0 || s == 1 || s == 2 || s == 3);
            }
        }
    }
    r
}

/// Highest straight-flush top value in the mask; 0 when none.
pub fn sf_high_x(cards: u64) -> (r: u8)
    ensures
        r == sf_high(cards),
        r <= 13,
{
    let mut h: u8 = 13;
    while h >= 5
        invariant
            h <= 13,
            sf_high(cards) == sf_high_from(cards, h as int),
        decreases h,
    {
        if sf_any_x(cards, h) {
            return h;
        }
        h = h - 1;
    }
    0
}

/// One royal-flush test in one suit, mirroring `royal_at`.
pub fn royal_at_x(cards: u64, s: u8) -> (r: bool)
    requires
        s < 4,
    ensures
        r == royal_at(cards, s as int),
{
    has_card_x(cards, 10, s) && has_card_x(cards, 11, s) && has_card_x(cards, 12, s) && has_card_x(
        cards,
        13,
        s,
    ) && has_card_x(cards, 14, s)
}

} // verus!
