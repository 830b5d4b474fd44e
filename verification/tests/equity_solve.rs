use poker_odds::{solve, Brancher, Card, Equity, Game, Hand, Memo, Solver};

fn request(hands: &[&str]) -> Vec<String> {
    hands.iter().map(|s| s.to_string()).collect()
}

fn ratio(e: &Equity) -> f64 {
    e.wins as f64 / e.total as f64
}

fn ok(hands: &[&str], board: &str) -> Equity {
    solve(&request(hands), &board.to_string()).expect("valid request")
}

#[test]
fn river_win_is_exactly_one() {
    // hero holds trips aces, villain trips kings: a settled showdown
    let e = ok(&["AcAd", "KcKd"], "AhKs2c3d4h");
    assert_eq!(e.total, 1);
    assert_eq!(e.wins, 1);
}

#[test]
fn river_tie_counts_as_loss() {
    // both seats play the board's ace-high straight; the tie is no win
    let e = ok(&["2c3c", "2d3d"], "ThJsQhKsAc");
    assert_eq!(e.total, 1);
    assert_eq!(e.wins, 0);
}

#[test]
fn flop_certain_loss_is_zero() {
    // villain holds a royal flush on the flop; no completion saves hero
    let e = ok(&["2d3d", "AcKc"], "QcJcTc");
    assert_eq!(e.total, 45 * 44);
    assert_eq!(e.wins, 0);
}

#[test]
fn flop_underpair_is_strictly_between() {
    // hero's pair of twos can still catch quads, but mostly loses
    let e = ok(&["2c2d", "3c3d"], "4c5c6c");
    assert_eq!(e.total, 45 * 44);
    assert!(e.wins > 0);
    assert!(e.wins < e.total);
}

#[test]
fn flop_aces_dominate_kings() {
    let e = ok(&["AcAd", "KcKd"], "2h7s9d");
    let r = ratio(&e);
    assert!(r > 0.5);
    assert!(r < 1.0);
}

#[test]
fn higher_category_wins_whatever_the_kicker() {
    // hero's small flush beats villain's pair of aces with a huge kicker
    let e = ok(&["2c5c", "AdAh"], "3c6c9cTdJs");
    assert_eq!(e.total, 1);
    assert_eq!(e.wins, 1);
}

#[test]
fn equity_is_deterministic() {
    let a = ok(&["AcAd", "KcKd"], "2h8sTc4d");
    let b = ok(&["AcAd", "KcKd"], "2h8sTc4d");
    assert_eq!(a, b);
}

#[test]
fn equity_stays_in_unit_interval() {
    for board in ["", "2h8sTc", "2h8sTc4d", "2h8sTc4d9c"] {
        let e = ok(&["AcAd", "KcKd"], board);
        assert!(e.total >= 1);
        assert!(e.wins <= e.total);
        let r = ratio(&e);
        assert!((0.0..=1.0).contains(&r));
    }
}

#[test]
fn river_board_is_all_or_nothing() {
    let e = ok(&["AcAd", "KcKd"], "2h8sTc4d9c");
    assert_eq!(e.total, 1);
    assert!(e.wins == 0 || e.wins == 1);
}

#[test]
fn turn_equity_is_mean_of_river_outcomes() {
    // conditioning on one more card: the turn count must equal the sum
    // of the 44 river outcomes
    let hands = ["AcAd", "KcKd"];
    let turn_board = "2h8sTc4d";
    let turn = ok(&hands, turn_board);
    assert_eq!(turn.total, 44);

    let mut used = [false; 52];
    for s in ["Ac", "Ad", "Kc", "Kd", "2h", "8s", "Tc", "4d"] {
        used[Card::from_string(s.to_string()).idx] = true;
    }
    let values = ['2', '3', '4', '5', '6', '7', '8', '9', 'T', 'J', 'Q', 'K', 'A'];
    let suits = ['c', 'h', 's', 'd'];
    let mut sum: u64 = 0;
    let mut rivers: u64 = 0;
    for idx in 0..52usize {
        if used[idx] {
            continue;
        }
        let card: String = [values[idx / 4], suits[idx % 4]].iter().collect();
        let board = format!("{}{}", turn_board, card);
        let e = ok(&hands, &board);
        assert_eq!(e.total, 1);
        sum += e.wins;
        rivers += 1;
    }
    assert_eq!(rivers, 44);
    assert_eq!(sum, turn.wins);
}

#[test]
fn cache_hit_reproduces_the_result() {
    let mut solver = Solver::new();
    let hands = request(&["AcAd", "KcKd"]);
    let board = "2h8sTc4d".to_string();
    let first = solver.solve(&hands, &board).expect("valid request");
    // the second call answers from the shared memo
    let second = solver.solve(&hands, &board).expect("valid request");
    assert_eq!(first, second);
}

#[test]
fn recompute_after_clear_reproduces_the_result() {
    let mut solver = Solver::new();
    let hands = request(&["2c2d", "3c3d"]);
    let board = "4c5c6c".to_string();
    let first = solver.solve(&hands, &board).expect("valid request");
    solver.clear_cache();
    let second = solver.solve(&hands, &board).expect("valid request");
    assert_eq!(first, second);
}

#[test]
fn changing_the_matchup_drops_the_cache_and_stays_exact() {
    let mut solver = Solver::new();
    let board = "4c5c6c".to_string();
    let first = solver.solve(&request(&["2c2d", "3c3d"]), &board).expect("valid request");
    let other = solver.solve(&request(&["2c3c", "2d3d"]), &board).expect("valid request");
    let again = solver.solve(&request(&["2c2d", "3c3d"]), &board).expect("valid request");
    assert_eq!(first, again);
    assert_eq!(other.total, first.total);
}

#[test]
fn worker_ranges_partition_the_search() {
    // the parallel dispatch decomposition: per-range partial sums over
    // per-worker copies add up to the full count
    let h0 = Hand::from_string("AcAd".to_string());
    let h1 = Hand::from_string("KcKd".to_string());
    let mut bm: u64 = 0;
    for s in ["2h", "8s", "Tc"] {
        bm |= 1u64 << Card::from_string(s.to_string()).idx;
    }
    let game = Game::new(0, vec![h0, h1]);
    let mut brancher = Brancher::new(game, bm, Memo::new());
    assert!(!brancher.prefer_single_thread());
    let full = brancher.compute_equity();

    let fresh_game = Game::new(
        0,
        vec![
            Hand::from_string("AcAd".to_string()),
            Hand::from_string("KcKd".to_string()),
        ],
    );
    let root = Brancher::new(fresh_game, bm, Memo::new());
    let chunks = poker_odds::brancher::chunk_bounds(8);
    assert_eq!(chunks.first().unwrap().0, 0);
    assert_eq!(chunks.last().unwrap().1, 52);
    // eight workers give a step of six: eight full ranges and a tail
    assert_eq!(chunks.len(), 9);
    for (i, (lo, hi)) in chunks.iter().enumerate() {
        if i + 1 < chunks.len() {
            assert_eq!(hi - lo, 6);
        } else {
            assert_eq!(hi - lo, 4);
        }
    }
    let mut sum: u64 = 0;
    for (lo, hi) in chunks {
        let mut worker = root.duplicate();
        let mut board = bm;
        sum += worker.branch_range(&mut board, 3, lo, hi);
    }
    assert_eq!(sum, full.wins);
}

#[test]
fn single_thread_preference_on_the_turn() {
    let game = Game::new(
        0,
        vec![
            Hand::from_string("AcAd".to_string()),
            Hand::from_string("KcKd".to_string()),
        ],
    );
    let mut bm: u64 = 0;
    for s in ["2h", "8s", "Tc", "4d"] {
        bm |= 1u64 << Card::from_string(s.to_string()).idx;
    }
    let brancher = Brancher::new(game, bm, Memo::new());
    assert!(brancher.prefer_single_thread());
}

#[test]
fn preflop_aces_vs_kings_matchup() {
    // the classic heads-up matchup over every board completion
    let e = ok(&["AcAd", "KcKd"], "");
    assert_eq!(e.total, 48 * 47 * 46 * 45 * 44);
    let r = ratio(&e);
    assert!(r > 0.80);
    assert!(r < 0.84);
}

#[test]
fn twenty_three_seats_fill_the_deck() {
    // 23 seats take 46 cards, leaving six for the five board cards: the
    // largest table the deck supports
    let values = ['2', '3', '4', '5', '6', '7', '8', '9', 'T', 'J', 'Q', 'K'];
    let mut hands: Vec<String> = Vec::new();
    for v in values {
        hands.push([v, 'c', v, 'h'].iter().collect());
        hands.push([v, 's', v, 'd'].iter().collect());
    }
    hands.truncate(23);
    let e = solve(&hands, &"".to_string()).expect("valid request");
    assert_eq!(e.total, 6 * 5 * 4 * 3 * 2);
    assert!(e.wins <= e.total);
}

#[test]
fn parse_request_builds_the_table() {
    let hands = request(&["AcAd", "KcKd"]);
    let board = "2h8sTc".to_string();
    let (game, bm) = poker_odds::solver::parse_request(&hands, &board).expect("valid request");
    assert_eq!(game.hero_pos, 0);
    assert_eq!(game.hands.len(), 2);
    let mut expected: u64 = 0;
    for s in ["2h", "8s", "Tc"] {
        expected |= 1u64 << Card::from_string(s.to_string()).idx;
    }
    assert_eq!(bm, expected);
}

#[test]
fn make_brancher_agrees_with_solve() {
    let hands = request(&["AcAd", "KcKd"]);
    let board = "2h8sTc".to_string();
    let via_solve = solve(&hands, &board).expect("valid request");
    let mut brancher = poker_odds::solver::make_brancher(&hands, &board).expect("valid request");
    let direct = brancher.compute_equity();
    assert_eq!(direct, via_solve);
}

#[test]
fn completion_counts_are_falling_products() {
    assert_eq!(poker_odds::brancher::den_exec(0, 10), 1);
    assert_eq!(poker_odds::brancher::den_exec(2, 45), 45 * 44);
    assert_eq!(poker_odds::brancher::den_exec(5, 48), 48 * 47 * 46 * 45 * 44);
}
