use poker_odds::bits::popcount64;
use poker_odds::{BitSet, Card, Suits, Value};

#[test]
fn card_new_ace_clubs() {
    let c = Card::new(Value::Ace, Suits::Clubs);
    assert_eq!(c.idx, 48);
    assert_eq!(c.value, Value::Ace);
    assert_eq!(c.suit, Suits::Clubs);
}

#[test]
fn card_from_string_examples() {
    assert_eq!(Card::from_string("2c".to_string()).idx, 0);
    assert_eq!(Card::from_string("Ac".to_string()).idx, 48);
    assert_eq!(Card::from_string("Ad".to_string()).idx, 51);
    assert_eq!(Card::from_string("Td".to_string()).idx, 35);
    assert_eq!(Card::from_string("9h".to_string()).idx, 29);
    assert_eq!(Card::from_string("Ks".to_string()).idx, 46);
}

#[test]
fn card_index_is_value_times_four_plus_suit() {
    // index = (value - 2) * 4 + suit rank, suits ordered c, h, s, d
    let c = Card::from_string("7s".to_string());
    assert_eq!(c.idx, (7 - 2) * 4 + 2);
}

#[test]
fn suits_from_char_order() {
    assert_eq!(Suits::from_char('c').index(), 0);
    assert_eq!(Suits::from_char('h').index(), 1);
    assert_eq!(Suits::from_char('s').index(), 2);
    assert_eq!(Suits::from_char('d').index(), 3);
}

#[test]
fn value_round_trip() {
    for v in 2u8..=14 {
        assert_eq!(Value::from_u8(v).as_u8(), v);
    }
}

#[test]
fn bitset_add_remove_contains_len() {
    let mut s = BitSet::new();
    assert_eq!(s.len(), 0);
    assert!(!s.contains(10));
    s.add(10);
    assert!(s.contains(10));
    assert_eq!(s.len(), 1);
    // adding again is a no-op
    s.add(10);
    assert_eq!(s.len(), 1);
    s.add(51);
    assert_eq!(s.len(), 2);
    s.remove(10);
    assert!(!s.contains(10));
    assert_eq!(s.len(), 1);
    // removing an absent index is a no-op
    s.remove(10);
    assert_eq!(s.len(), 1);
}

#[test]
fn bitset_add_board_counts_new_bits_only() {
    let mut s = BitSet::new();
    s.add(0);
    s.add(4);
    // board shares bit 4 with the set; only bits 8 and 12 are new
    let board: u64 = (1 << 4) | (1 << 8) | (1 << 12);
    s.add_board(&board);
    assert_eq!(s.len(), 4);
    assert!(s.contains(0));
    assert!(s.contains(4));
    assert!(s.contains(8));
    assert!(s.contains(12));
}

#[test]
fn popcount_examples() {
    assert_eq!(popcount64(0), 0);
    assert_eq!(popcount64(0b1011), 3);
    assert_eq!(popcount64(u64::MAX), 64);
    assert_eq!(popcount64(1 << 51), 1);
}
