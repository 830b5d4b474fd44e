use poker_odds::{solve, solver::pop_extra_characters, SolveError};

fn req(hands: &[&str]) -> Vec<String> {
    hands.iter().map(|s| s.to_string()).collect()
}

fn err_of(hands: &[&str], board: &str) -> SolveError {
    solve(&req(hands), &board.to_string()).expect_err("invalid request")
}

#[test]
fn error_no_hands() {
    assert_eq!(err_of(&[], ""), SolveError::NoHands);
}

#[test]
fn error_too_many_seats() {
    // 24 seats would need 48 of the 52 cards and one full board
    let values = ['2', '3', '4', '5', '6', '7', '8', '9', 'T', 'J', 'Q', 'K'];
    let mut hands: Vec<String> = Vec::new();
    for v in values {
        hands.push([v, 'c', v, 'h'].iter().collect());
        hands.push([v, 's', v, 'd'].iter().collect());
    }
    assert_eq!(hands.len(), 24);
    let r = solve(&hands, &"".to_string());
    assert_eq!(r.expect_err("too many seats"), SolveError::TooManySeats);
}

#[test]
fn error_hand_wrong_length() {
    assert_eq!(err_of(&["AcA"], ""), SolveError::MalformedLength);
    assert_eq!(err_of(&["AcAdKh"], ""), SolveError::MalformedLength);
}

#[test]
fn error_board_wrong_length() {
    // one or two board cards are not a legal street
    assert_eq!(err_of(&["AcAd", "KcKd"], "2h"), SolveError::MalformedLength);
    assert_eq!(err_of(&["AcAd", "KcKd"], "2h8s"), SolveError::MalformedLength);
    assert_eq!(err_of(&["AcAd", "KcKd"], "2h8"), SolveError::MalformedLength);
}

#[test]
fn error_invalid_value_char() {
    assert_eq!(err_of(&["XcAd"], ""), SolveError::InvalidValueChar);
    assert_eq!(err_of(&["AcAd", "KcKd"], "1h8sTc"), SolveError::InvalidValueChar);
}

#[test]
fn error_invalid_suit_char() {
    assert_eq!(err_of(&["AxAd"], ""), SolveError::InvalidSuitChar);
    assert_eq!(err_of(&["AcAd", "KcKd"], "2x8sTc"), SolveError::InvalidSuitChar);
}

#[test]
fn error_duplicate_card_within_hand() {
    assert_eq!(err_of(&["AcAc"], ""), SolveError::DuplicateCard);
}

#[test]
fn error_duplicate_card_across_seats() {
    assert_eq!(err_of(&["AcAd", "AcKd"], ""), SolveError::DuplicateCard);
}

#[test]
fn error_duplicate_card_on_board() {
    assert_eq!(err_of(&["AcAd", "KcKd"], "2h8sAc"), SolveError::DuplicateCard);
}

#[test]
fn error_order_length_before_chars() {
    // a malformed length is reported before the bad character in it
    assert_eq!(err_of(&["Xc"], ""), SolveError::MalformedLength);
}

#[test]
fn pop_extra_characters_strips_trailing_newlines() {
    let mut s = "AcAd\n\n".to_string();
    pop_extra_characters(&mut s);
    assert_eq!(s, "AcAd");

    let mut t = "KcKd".to_string();
    pop_extra_characters(&mut t);
    assert_eq!(t, "KcKd");

    let mut u = "\n\n".to_string();
    pop_extra_characters(&mut u);
    assert_eq!(u, "");
}
