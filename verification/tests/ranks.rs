use poker_odds::{Card, Hand, Rank};

fn board_mask(cards: &[&str]) -> u64 {
    let mut m: u64 = 0;
    for s in cards {
        m |= 1u64 << Card::from_string(s.to_string()).idx;
    }
    m
}

fn rank_of_hand(hole: &str, board: &[&str]) -> (Rank, u32) {
    let mut h = Hand::from_string(hole.to_string());
    let b = board_mask(board);
    let r = h.rank(&b);
    (r, h.kicker)
}

#[test]
fn rank_royal_flush() {
    let (r, k) = rank_of_hand("AcKc", &["Qc", "Jc", "Tc", "2d", "3h"]);
    assert_eq!(r, Rank::RoyalFlush);
    assert_eq!(k, 0);
}

#[test]
fn rank_straight_flush_nine_high() {
    let (r, k) = rank_of_hand("9c8c", &["7c", "6c", "5c", "2d", "3h"]);
    assert_eq!(r, Rank::StraightFlush);
    assert_eq!(k, 9);
}

#[test]
fn rank_straight_flush_wheel() {
    let (r, k) = rank_of_hand("Ac2c", &["3c", "4c", "5c", "Kd", "Qh"]);
    assert_eq!(r, Rank::StraightFlush);
    assert_eq!(k, 5);
}

#[test]
fn rank_quads() {
    let (r, k) = rank_of_hand("AcAd", &["Ah", "As", "2c", "3d", "4h"]);
    assert_eq!(r, Rank::Quads);
    assert_eq!(k, 14);
}

#[test]
fn rank_fullhouse() {
    let (r, k) = rank_of_hand("AcAd", &["Ah", "Kc", "Kd", "2s", "3h"]);
    assert_eq!(r, Rank::FullHouse);
    // trips value times 100 plus pair value
    assert_eq!(k, 14 * 100 + 13);
}

#[test]
fn rank_fullhouse_two_trips() {
    let (r, k) = rank_of_hand("AcAd", &["Ah", "Kc", "Kd", "Kh", "3h"]);
    assert_eq!(r, Rank::FullHouse);
    assert_eq!(k, 14 * 100 + 13);
}

#[test]
fn rank_flush_kicker_is_order_preserving() {
    let (r, k) = rank_of_hand("Ac2c", &["5c", "7c", "9c", "Kd", "Qs"]);
    assert_eq!(r, Rank::Flush);
    // position of the ace of clubs in the mask, plus one
    assert_eq!(k, (14 - 2) * 4 + 0 + 1);
    let (r2, k2) = rank_of_hand("Kc2c", &["5c", "7c", "9c", "Ad", "Qs"]);
    assert_eq!(r2, Rank::Flush);
    assert!(k > k2);
}

#[test]
fn rank_straight_nine_high() {
    let (r, k) = rank_of_hand("9c8d", &["7h", "6s", "5c", "Ad", "Kh"]);
    assert_eq!(r, Rank::Straight);
    assert_eq!(k, 9);
}

#[test]
fn rank_straight_ace_high() {
    let (r, k) = rank_of_hand("AcKd", &["Qh", "Js", "Tc", "2d", "3c"]);
    assert_eq!(r, Rank::Straight);
    assert_eq!(k, 14);
}

#[test]
fn rank_straight_wheel() {
    let (r, k) = rank_of_hand("Ac2d", &["3h", "4s", "5c", "9d", "Kh"]);
    assert_eq!(r, Rank::Straight);
    assert_eq!(k, 5);
}

#[test]
fn rank_trips() {
    let (r, k) = rank_of_hand("AcAd", &["Ah", "Kc", "Qd", "2s", "3h"]);
    assert_eq!(r, Rank::Trips);
    // trips value, then the two best single values
    assert_eq!(k, 14 * 10000 + 13 * 100 + 12);
}

#[test]
fn rank_two_pair() {
    let (r, k) = rank_of_hand("AcAd", &["Kc", "Kd", "2s", "3h", "5c"]);
    assert_eq!(r, Rank::TwoPair);
    assert_eq!(k, 14 * 10000 + 13 * 100 + 5);
}

#[test]
fn rank_two_pair_of_three_pairs() {
    let (r, k) = rank_of_hand("AcAd", &["Kc", "Kd", "Qh", "Qs", "2c"]);
    assert_eq!(r, Rank::TwoPair);
    // the two highest pairs play; the lone single card is the kicker
    assert_eq!(k, 14 * 10000 + 13 * 100 + 2);
}

#[test]
fn rank_pair() {
    let (r, k) = rank_of_hand("AcAd", &["Kc", "Qd", "9s", "5h", "2c"]);
    assert_eq!(r, Rank::Pair);
    assert_eq!(k, 14 * 1000000 + 13 * 10000 + 12 * 100 + 9);
}

#[test]
fn rank_high_card() {
    let (r, k) = rank_of_hand("AcKd", &["Qh", "9s", "5c", "3d", "2h"]);
    assert_eq!(r, Rank::HighCard);
    assert_eq!(k, 14 * 100000000 + 13 * 1000000 + 12 * 10000 + 9 * 100 + 5);
}

#[test]
fn rank_memo_returns_same_result() {
    let mut h = Hand::from_string("AcAd".to_string());
    let b = board_mask(&["Kc", "Qd", "9s", "5h", "2c"]);
    let r1 = h.rank(&b);
    let k1 = h.kicker;
    // second call is a memo hit and must restore the same kicker
    let r2 = h.rank(&b);
    let k2 = h.kicker;
    assert_eq!(r1, r2);
    assert_eq!(k1, k2);
}

#[test]
fn rank_index_orders_categories() {
    assert!(Rank::RoyalFlush.index() > Rank::StraightFlush.index());
    assert!(Rank::StraightFlush.index() > Rank::Quads.index());
    assert!(Rank::Quads.index() > Rank::FullHouse.index());
    assert!(Rank::FullHouse.index() > Rank::Flush.index());
    assert!(Rank::Flush.index() > Rank::Straight.index());
    assert!(Rank::Straight.index() > Rank::Trips.index());
    assert!(Rank::Trips.index() > Rank::TwoPair.index());
    assert!(Rank::TwoPair.index() > Rank::Pair.index());
    assert!(Rank::Pair.index() > Rank::HighCard.index());
}
