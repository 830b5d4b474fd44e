//! The solver facade: validates hole-card and board texts, builds the
//! table and drawn set, and drives one equity computation, keeping the
//! memo across solves of the same matchup.
use vstd::prelude::*;

use crate::bits::{
    bit64, bits52, lemma_and_or_distrib, lemma_bit_or_single, lemma_bits52_bit, lemma_bits52_or,
    lemma_pop_below_zero, lemma_pop_or_bit, pop64,
};
use crate::cards::{
    card_chars_ok, card_index_of_chars, check_suit_char, check_value_char, is_suit_char,
    is_value_char, value_of_char, Suits,
};
use crate::equity::{den_at, wins_at, Equity};
use crate::game::{holes_mask, holes_of, Game};
use crate::hand::{hand_mask_of, Hand};

verus! {

/// Why a solve request was rejected before any search began.
#[derive(Clone, Copy, PartialEq, Eq, Structural, Debug)]
pub enum SolveError {
    NoHands,
    TooManySeats,
    MalformedLength,
    InvalidValueChar,
    InvalidSuitChar,
    DuplicateCard,
}

/// First fault of one two-character card text: its value character,
/// then its suit character.
pub open spec fn card_pair_err(vc: char, sc: char) -> Option<SolveError> {
    if !is_value_char(vc) {
        Some(SolveError::InvalidValueChar)
    } else if !is_suit_char(sc) {
        Some(SolveError::InvalidSuitChar)
    } else {
        None
    }
}

/// First fault of one hole text: its length, then its two cards in
/// order.
pub open spec fn hand_str_err(s: Seq<char>) -> Option<SolveError> {
    if s.len() != 4 {
        Some(SolveError::MalformedLength)
    } else if card_pair_err(s[0], s[1]) is Some {
        card_pair_err(s[0], s[1])
    } else {
        card_pair_err(s[2], s[3])
    }
}

/// First fault over the hole texts from seat `i` on.
pub open spec fn hands_err(hands: Seq<Seq<char>>, i: int) -> Option<SolveError>
    decreases hands.len() - i,
{
    if i < 0 || i >= hands.len() {
        None
    } else if hand_str_err(hands[i]) is Some {
        hand_str_err(hands[i])
    } else {
        hands_err(hands, i + 1)
    }
}

/// A board text holds zero, three, four or five two-character cards.
pub open spec fn board_len_ok(n: int) -> bool {
    n == 0 || n == 6 || n == 8 || n == 10
}

/// First fault over the board's card texts from pair `k` on.
pub open spec fn board_pairs_err(s: Seq<char>, k: int) -> Option<SolveError>
    decreases s.len() / 2 - k,
{
    if k < 0 || k >= s.len() / 2 {
        None
    } else if card_pair_err(s[2 * k], s[2 * k + 1]) is Some {
        card_pair_err(s[2 * k], s[2 * k + 1])
    } else {
        board_pairs_err(s, k + 1)
    }
}

/// First fault of the board text: its length, then its cards in order.
pub open spec fn board_str_err(s: Seq<char>) -> Option<SolveError> {
    if !board_len_ok(s.len() as int) {
        Some(SolveError::MalformedLength)
    } else {
        board_pairs_err(s, 0)
    }
}

/// The card indices of all hole texts, two per seat, in seat order.
pub open spec fn hands_idxs(hands: Seq<Seq<char>>) -> Seq<int> {
    Seq::new(
        2 * hands.len(),
        |k: int|
            if k % 2 == 0 {
                card_index_of_chars(hands[k / 2][0], hands[k / 2][1])
            } else {
                card_index_of_chars(hands[k / 2][2], hands[k / 2][3])
            },
    )
}

/// The card indices of the board text, in order.
pub open spec fn board_idxs(s: Seq<char>) -> Seq<int> {
    Seq::new(s.len() / 2, |k: int| card_index_of_chars(s[2 * k], s[2 * k + 1]))
}

/// Every card of the request, hole cards first, then the board.
pub open spec fn all_idxs(hands: Seq<Seq<char>>, board: Seq<char>) -> Seq<int> {
    hands_idxs(hands) + board_idxs(board)
}

/// Some card occurs twice in the request.
pub open spec fn has_dup(s: Seq<int>) -> bool {
    exists|p: int, q: int| 0 <= p < q < s.len() && s[p] == s[q]
}

/// The first fault of a whole request, checked in a fixed order; `None`
/// when the request is valid.
pub open spec fn solve_err(hands: Seq<Seq<char>>, board: Seq<char>) -> Option<SolveError> {
    if hands.len() == 0 {
        Some(SolveError::NoHands)
    } else if hands.len() > 23 {
        Some(SolveError::TooManySeats)
    } else if hands_err(hands, 0) is Some {
        hands_err(hands, 0)
    } else if board_str_err(board) is Some {
        board_str_err(board)
    } else if has_dup(all_idxs(hands, board)) {
        Some(SolveError::DuplicateCard)
    } else {
        None
    }
}

/// The board mask of the first `k` card texts of a board.
pub open spec fn board_mask_upto(s: Seq<char>, k: int) -> u64
    decreases k,
{
    if k <= 0 {
        0u64
    } else {
        board_mask_upto(s, k - 1) | (1u64 << (card_index_of_chars(
            s[2 * (k - 1)],
            s[2 * (k - 1) + 1],
        ) as u64))
    }
}

/// The bit mask of a whole board text.
pub open spec fn board_mask_of(s: Seq<char>) -> u64 {
    board_mask_upto(s, s.len() as int / 2)
}

/// The hole masks a request's hole texts encode, in seat order.
pub open spec fn holes_chars(hands: Seq<Seq<char>>) -> Seq<u64> {
    hands.map_values(|s: Seq<char>| hand_mask_of(s))
}

/// The exact count of favourable ordered completions a valid request
/// denotes, seat 0 being the hero.
pub open spec fn spec_wins(hands: Seq<Seq<char>>, board: Seq<char>) -> nat {
    wins_at(
        holes_chars(hands),
        0,
        holes_mask(holes_chars(hands)) | board_mask_of(board),
        board_mask_of(board),
        crate::brancher::streets_of(board_mask_of(board)),
    )
}

/// The count of all ordered completions a valid request denotes.
pub open spec fn spec_total(hands: Seq<Seq<char>>, board: Seq<char>) -> int {
    den_at(
        crate::brancher::streets_of(board_mask_of(board)),
        52 - pop64(holes_mask(holes_chars(hands)) | board_mask_of(board)),
    )
}

/// Card index encoded by a two-character card text, as executable code.
pub fn card_idx_x(vc: char, sc: char) -> (r: u8)
    requires
        card_chars_ok(vc, sc),
    ensures
        r as int == card_index_of_chars(vc, sc),
        r < 52,
{
    let v = value_of_char(vc);
    let s = Suits::from_char(sc);
    (v - 2) * 4 + s.index()
}

/// Checks one card text, mirroring `card_pair_err`.
pub fn card_pair_check(vc: char, sc: char) -> (r: Option<SolveError>)
    ensures
        r == card_pair_err(vc, sc),
{
    if !check_value_char(vc) {
        Some(SolveError::InvalidValueChar)
    } else if !check_suit_char(sc) {
        Some(SolveError::InvalidSuitChar)
    } else {
        None
    }
}

/// Checks one hole text, mirroring `hand_str_err`.
pub fn hand_str_check(s: &String) -> (r: Option<SolveError>)
    ensures
        r == hand_str_err(s@),
{
    let n = s.as_str().unicode_len();
    if n != 4 {
        return Some(SolveError::MalformedLength);
    }
    match card_pair_check(s.as_str().get_char(0), s.as_str().get_char(1)) {
        Some(e) => Some(e),
        None => card_pair_check(s.as_str().get_char(2), s.as_str().get_char(3)),
    }
}

/// Checks the board text, mirroring `board_str_err`.
pub fn board_str_check(s: &String) -> (r: Option<SolveError>)
    ensures
        r == board_str_err(s@),
{
    let n = s.as_str().unicode_len();
    if !(n == 0 || n == 6 || n == 8 || n == 10) {
        return Some(SolveError::MalformedLength);
    }
    let pairs = n / 2;
    let mut k: usize = 0;
    while k < pairs
        invariant
            k <= pairs,
            pairs <= 5,
            board_len_ok(s@.len() as int),
            pairs == s@.len() / 2,
            2 * pairs == s@.len(),
            board_pairs_err(s@, 0) == board_pairs_err(s@, k as int),
        decreases pairs - k,
    {
        let c0 = s.as_str().get_char(2 * k);
        let c1 = s.as_str().get_char(2 * k + 1);
        match card_pair_check(c0, c1) {
            Some(e) => {
                return Some(e);
            },
            None => {},
        }
        k = k + 1;
    }
    None
}

/// Scans for a repeated card index, mirroring `has_dup`.
pub fn find_dup(v: &Vec<u8>) -> (r: bool)
    ensures
        r == has_dup(v@.map_values(|x: u8| x as int)),
{
    let ghost sv = v@.map_values(|x: u8| x as int);
    let n = v.len();
    let mut p: usize = 0;
    while p < n
        invariant
            p <= n,
            n == v@.len(),
            sv == v@.map_values(|x: u8| x as int),
            forall|a: int, b: int| 0 <= a < p && a < b < n ==> sv[a] != sv[b],
        decreases n - p,
    {
        let mut q: usize = p + 1;
        while q < n
            invariant
                p < q <= n || (p + 1 == q && q > n),
                p < n,
                n == v@.len(),
                sv == v@.map_values(|x: u8| x as int),
                forall|b: int| p < b < q ==> sv[p as int] != sv[b],
            decreases n - q,
        {
            if v[p] == v[q] {
                proof {
                    assert(sv[p as int] == sv[q as int]);
                }
                return true;
            }
            q = q + 1;
        }
        p = p + 1;
    }
    proof {
        assert(!has_dup(sv));
    }
    false
}

/// A clean scan result means every remaining hole text is clean.
proof fn lemma_hands_err_all(hands: Seq<Seq<char>>, i: int)
    requires
        0 <= i,
        hands_err(hands, i) is None,
    ensures
        forall|j: int| i <= j < hands.len() ==> hand_str_err(#[trigger] hands[j]) is None,
    decreases hands.len() - i,
{
    if i < hands.len() {
        lemma_hands_err_all(hands, i + 1);
    }
}

/// A clean scan result means every remaining board card text is clean.
proof fn lemma_board_pairs_all(s: Seq<char>, k: int)
    requires
        0 <= k,
        board_pairs_err(s, k) is None,
    ensures
        forall|j: int|
            k <= j < s.len() / 2 ==> #[trigger] card_pair_err(s[2 * j], s[2 * j + 1]) is None,
    decreases s.len() / 2 - k,
{
    if k < s.len() / 2 {
        lemma_board_pairs_all(s, k + 1);
    }
}

/// A card index held by no seat stays clear of the union of hole masks.
proof fn lemma_holes_mask_fresh_bit(hands: Seq<Hand>, n: int, v: u64)
    requires
        0 <= n <= hands.len(),
        v < 52,
        forall|i: int| 0 <= i < hands.len() ==> (#[trigger] hands[i]).holes_wf(),
        forall|i: int|
            0 <= i < n ==> (#[trigger] hands[i]).hole.0.idx != v && hands[i].hole.1.idx != v,
    ensures
        crate::game::holes_mask_upto(holes_of(hands), n) & (1u64 << v) == 0u64,
    decreases n,
{
    let hs = holes_of(hands);
    if n == 0 {
        assert(0u64 & (1u64 << v) == 0u64) by (bit_vector);
    } else {
        lemma_holes_mask_fresh_bit(hands, n - 1, v);
        let prev = crate::game::holes_mask_upto(hs, n - 1);
        let h = hands[n - 1];
        let a = h.hole.0.idx as u64;
        let b = h.hole.1.idx as u64;
        h.hole.0.lemma_wf_idx_range();
        h.hole.1.lemma_wf_idx_range();
        crate::bits::lemma_two_card_disjoint(a, b, v, v);
        let hb = h.hole_b;
        assert(((1u64 << v) | (1u64 << v)) == (1u64 << v)) by (bit_vector);
        lemma_and_or_distrib(prev, hb, 1u64 << v);
        assert(0u64 | 0u64 == 0u64) by (bit_vector);
    }
}

/// Compares a cached fingerprint against the hole masks of a freshly
/// built table.
fn same_fingerprint(cached: &Vec<u64>, hs: &Vec<Hand>) -> (r: bool)
    ensures
        r == (cached@ == holes_of(hs@)),
{
    let n = cached.len();
    if n != hs.len() {
        proof {
            assert(cached@.len() != holes_of(hs@).len());
        }
        return false;
    }
    let mut i: usize = 0;
    while i < n
        invariant
            i <= n,
            n == cached@.len(),
            n == hs@.len(),
            forall|k: int| 0 <= k < i ==> cached@[k] == holes_of(hs@)[k],
        decreases n - i,
    {
        if cached[i] != hs[i].hole_b {
            proof {
                assert(cached@[i as int] != holes_of(hs@)[i as int]);
            }
            return false;
        }
        i = i + 1;
    }
    proof {
        assert(cached@ =~= holes_of(hs@));
    }
    true
}

/// Trailing newlines of a console line, removed.
pub open spec fn trim_newlines(s: Seq<char>) -> Seq<char>
    decreases s.len(),
{
    if s.len() > 0 && s.last() as u32 == 10 {
        trim_newlines(s.drop_last())
    } else {
        s
    }
}

/// The terminal-board law at the request level: a request whose board
/// already holds five cards has exactly one completion, so its equity is
/// exactly zero or one.
pub proof fn lemma_terminal_request(hands: Seq<Seq<char>>, board: Seq<char>)
    requires
        pop64(board_mask_of(board)) == 5,
    ensures
        spec_total(hands, board) == 1,
        spec_wins(hands, board) == 0 || spec_wins(hands, board) == 1,
{
}

/// The determinism and recomputation law at the request level: the
/// equity of a request is a function of the hole and board texts alone,
/// so any two successful solves of the same request agree exactly,
/// whatever either engine's cache held beforehand.
pub proof fn lemma_solve_deterministic(
    hands: Seq<Seq<char>>,
    board: Seq<char>,
    e1: Equity,
    e2: Equity,
)
    requires
        e1.wins == spec_wins(hands, board),
        e1.total == spec_total(hands, board),
        e2.wins == spec_wins(hands, board),
        e2.total == spec_total(hands, board),
    ensures
        e1 == e2,
{
}

/// One long-lived equity engine: the memo persists across solves of the
/// same matchup and is dropped when the hands change.
pub struct Solver {
    pub memo: crate::memo::Memo,
    pub cached_holes: Vec<u64>,
}

impl Solver {
    /// Every cached entry counts the favourable completions of its key,
    /// for the matchup the fingerprint records.
    pub open spec fn inv(self) -> bool {
        crate::brancher::memo_inv(self.memo@, self.cached_holes@, 0)
    }

    pub fn new() -> (s: Solver)
        ensures
            s.inv(),
            s.memo@ == Map::<u64, u64>::empty(),
    {
        Solver { memo: crate::memo::Memo::new(), cached_holes: Vec::new() }
    }

    /// Drops every cached configuration; a following solve recomputes
    /// them from scratch.
    pub fn clear_cache(&mut self)
        ensures
            final(self).inv(),
            final(self).memo@ == Map::<u64, u64>::empty(),
    {
        self.memo.clear();
    }

    /// Validates the request, builds the table and board, and runs one
    /// exact equity computation for seat 0.
    pub fn solve(&mut self, hands: &Vec<String>, bd: &String) -> (r: Result<Equity, SolveError>)
        requires
            old(self).inv(),
        ensures
            final(self).inv(),
            (r is Ok) == (solve_err(hands@.map_values(|x: String| x@), bd@) is None),
            r matches Err(e) ==> solve_err(hands@.map_values(|x: String| x@), bd@) == Some(e),
            r matches Ok(eq) ==> {
                &&& eq.wins == spec_wins(hands@.map_values(|x: String| x@), bd@)
                &&& eq.total == spec_total(hands@.map_values(|x: String| x@), bd@)
                &&& eq.wins <= eq.total
                &&& 1 <= eq.total
            },
            // a successful solve leaves its configuration cached
            r matches Ok(eq) ==> final(self).memo@.dom().contains(
                holes_mask(holes_chars(hands@.map_values(|x: String| x@))) | board_mask_of(bd@),
            ) && final(self).memo@[holes_mask(holes_chars(hands@.map_values(|x: String| x@)))
                | board_mask_of(bd@)] == eq.wins,
    {
        let ghost hc = hands@.map_values(|x: String| x@);
        let ghost bc = bd@;
        let parsed = parse_request(hands, bd);
        let (game, bm) = match parsed {
            Ok(p) => p,
            Err(e) => {
                return Err(e);
            },
        };
        let n = game.hands.len();
        if !same_fingerprint(&self.cached_holes, &game.hands) {
            self.memo.clear();
            self.cached_holes.clear();
            let mut i: usize = 0;
            while i < n
                invariant
                    i <= n,
                    n == game.hands@.len(),
                    self.cached_holes@.len() == i,
                    forall|j: int|
                        0 <= j < i ==> #[trigger] self.cached_holes@[j] == holes_of(
                            game.hands@,
                        )[j],
                    forall|k2: u64| !self.memo@.dom().contains(k2),
                decreases n - i,
            {
                let m = game.hands[i].hole_b;
                self.cached_holes.push(m);
                i = i + 1;
            }
            proof {
                assert(self.cached_holes@ =~= holes_of(game.hands@));
            }
        }
        proof {
            assert(self.cached_holes@ == holes_of(game.hands@));
            assert(crate::brancher::memo_inv(self.memo@, holes_of(game.hands@), 0));
        }
        let mut memo = crate::memo::Memo::new();
        core::mem::swap(&mut self.memo, &mut memo);
        let mut brancher = crate::brancher::Brancher::new(game, bm, memo);
        let eq = brancher.compute_equity();
        self.memo = brancher.memo;
        Ok(eq)
    }
}

/// Validates one request and builds its table and board mask, seat 0
/// being the hero; used by the solver and by any outside dispatch loop.
pub fn parse_request(hands: &Vec<String>, bd: &String) -> (r: Result<(Game, u64), SolveError>)
    ensures
        (r is Ok) == (solve_err(hands@.map_values(|x: String| x@), bd@) is None),
        r matches Err(e) ==> solve_err(hands@.map_values(|x: String| x@), bd@) == Some(e),
        r matches Ok(p) ==> {
            &&& p.0.wf()
            &&& p.0.hero_pos == 0
            &&& holes_of(p.0.hands@) == holes_chars(hands@.map_values(|x: String| x@))
            &&& p.1 == board_mask_of(bd@)
            &&& bits52(p.1)
            &&& pop64(p.1) <= 5
            &&& holes_mask(holes_of(p.0.hands@)) & p.1 == 0u64
        },
    {
        let ghost hc = hands@.map_values(|x: String| x@);
        let ghost bc = bd@;
        let n = hands.len();
        if n == 0 {
            return Err(SolveError::NoHands);
        }
        if n > 23 {
            return Err(SolveError::TooManySeats);
        }
        let mut i: usize = 0;
        while i < n
            invariant
                i <= n,
                1 <= n <= 23,
                n == hands@.len(),
                hc == hands@.map_values(|x: String| x@),
                hands_err(hc, 0) == hands_err(hc, i as int),
            decreases n - i,
        {
            match hand_str_check(&hands[i]) {
                Some(e) => {
                    proof {
                        assert(hc[i as int] == hands@[i as int]@);
                    }
                    return Err(e);
                },
                None => {},
            }
            i = i + 1;
        }
        match board_str_check(bd) {
            Some(e) => {
                return Err(e);
            },
            None => {},
        }
        proof {
            lemma_hands_err_all(hc, 0);
            lemma_board_pairs_all(bc, 0);
        }

        let mut idxs: Vec<u8> = Vec::new();
        let mut i: usize = 0;
        while i < n
            invariant
                i <= n,
                1 <= n <= 23,
                n == hands@.len(),
                hc == hands@.map_values(|x: String| x@),
                forall|j: int| 0 <= j < hc.len() ==> hand_str_err(#[trigger] hc[j]) is None,
                idxs@.len() == 2 * i,
                forall|k: int|
                    0 <= k < idxs@.len() ==> #[trigger] idxs@[k] as int == hands_idxs(hc)[k]
                        && idxs@[k] < 52,
            decreases n - i,
        {
            proof {
                assert(hc[i as int] == hands@[i as int]@);
                assert(hand_str_err(hc[i as int]) is None);
            }
            let c0 = hands[i].as_str().get_char(0);
            let c1 = hands[i].as_str().get_char(1);
            let c2 = hands[i].as_str().get_char(2);
            let c3 = hands[i].as_str().get_char(3);
            let a = card_idx_x(c0, c1);
            let b = card_idx_x(c2, c3);
            idxs.push(a);
            idxs.push(b);
            proof {
                assert(hands_idxs(hc)[2 * i as int] == card_index_of_chars(
                    hc[i as int][0],
                    hc[i as int][1],
                ));
                assert(hands_idxs(hc)[2 * i as int + 1] == card_index_of_chars(
                    hc[i as int][2],
                    hc[i as int][3],
                ));
            }
            i = i + 1;
        }
        let pairs = bd.as_str().unicode_len() / 2;
        let mut k: usize = 0;
        while k < pairs
            invariant
                k <= pairs,
                pairs <= 5,
                n == hands@.len(),
                1 <= n <= 23,
                pairs == bc.len() / 2,
                2 * pairs == bc.len(),
                bc == bd@,
                hc == hands@.map_values(|x: String| x@),
                forall|j: int|
                    0 <= j < bc.len() / 2 ==> #[trigger] card_pair_err(
                        bc[2 * j],
                        bc[2 * j + 1],
                    ) is None,
                idxs@.len() == 2 * n + k,
                forall|k2: int|
                    0 <= k2 < idxs@.len() ==> #[trigger] idxs@[k2] as int == all_idxs(hc, bc)[k2]
                        && idxs@[k2] < 52,
                forall|k2: int|
                    0 <= k2 < 2 * n ==> #[trigger] idxs@[k2] as int == hands_idxs(hc)[k2],
            decreases pairs - k,
        {
            let c0 = bd.as_str().get_char(2 * k);
            let c1 = bd.as_str().get_char(2 * k + 1);
            proof {
                assert(card_pair_err(bc[2 * (k as int)], bc[2 * (k as int) + 1]) is None);
            }
            let v = card_idx_x(c0, c1);
            idxs.push(v);
            proof {
                assert(board_idxs(bc)[k as int] == card_index_of_chars(
                    bc[2 * (k as int)],
                    bc[2 * (k as int) + 1],
                ));
                assert(all_idxs(hc, bc)[2 * (n as int) + k as int] == board_idxs(bc)[k as int]);
            }
            k = k + 1;
        }
        proof {
            assert(idxs@.map_values(|x: u8| x as int) =~= all_idxs(hc, bc));
        }
        if find_dup(&idxs) {
            return Err(SolveError::DuplicateCard);
        }
        proof {
            assert(!has_dup(all_idxs(hc, bc)));
        }

        let mut hs_vec: Vec<Hand> = Vec::new();
        let mut i: usize = 0;
        while i < n
            invariant
                i <= n,
                n == hands@.len(),
                n <= 23,
                hc == hands@.map_values(|x: String| x@),
                forall|j: int| 0 <= j < hc.len() ==> hand_str_err(#[trigger] hc[j]) is None,
                !has_dup(all_idxs(hc, bc)),
                hc.len() == n,
                hs_vec@.len() == i,
                forall|j: int|
                    0 <= j < i ==> (#[trigger] hs_vec@[j]).inv() && hs_vec@[j].hole_b
                        == hand_mask_of(hc[j]) && hs_vec@[j].hole.0.idx == card_index_of_chars(
                        hc[j][0],
                        hc[j][1],
                    ) && hs_vec@[j].hole.1.idx == card_index_of_chars(hc[j][2], hc[j][3]),
            decreases n - i,
        {
            proof {
                assert(hc[i as int] == hands@[i as int]@);
                assert(hand_str_err(hc[i as int]) is None);
                assert(all_idxs(hc, bc)[2 * i as int] == card_index_of_chars(
                    hc[i as int][0],
                    hc[i as int][1],
                ));
                assert(all_idxs(hc, bc)[2 * i as int + 1] == card_index_of_chars(
                    hc[i as int][2],
                    hc[i as int][3],
                ));
            }
            let h = Hand::from_string(hands[i].clone());
            hs_vec.push(h);
            i = i + 1;
        }
        proof {
            assert(holes_of(hs_vec@) =~= holes_chars(hc));
        }

        let ghost hm = holes_mask(holes_of(hs_vec@));
        let mut bm: u64 = 0;
        let mut nb: u8 = 0;
        let mut k: usize = 0;
        proof {
            lemma_pop_below_zero(64);
            assert(0u64 >> 52u64 == 0u64) by (bit_vector);
            assert(hm & 0u64 == 0u64) by (bit_vector);
            assert forall|v: int| 0 <= v < 64 implies !bit64(0u64, v) by {
                crate::bits::lemma_zero_bit(v as u64);
            }
        }
        while k < pairs
            invariant
                k <= pairs,
                pairs <= 5,
                n == hands@.len(),
                n <= 23,
                pairs == bc.len() / 2,
                2 * pairs == bc.len(),
                bc == bd@,
                hc == hands@.map_values(|x: String| x@),
                forall|j: int|
                    0 <= j < bc.len() / 2 ==> #[trigger] card_pair_err(
                        bc[2 * j],
                        bc[2 * j + 1],
                    ) is None,
                !has_dup(all_idxs(hc, bc)),
                hc.len() == n,
                hs_vec@.len() == n,
                forall|j: int|
                    0 <= j < n ==> (#[trigger] hs_vec@[j]).inv() && hs_vec@[j].hole.0.idx
                        == card_index_of_chars(hc[j][0], hc[j][1]) && hs_vec@[j].hole.1.idx
                        == card_index_of_chars(hc[j][2], hc[j][3]),
                hm == holes_mask(holes_of(hs_vec@)),
                bm == board_mask_upto(bc, k as int),
                bits52(bm),
                nb == k,
                pop64(bm) == k,
                hm & bm == 0u64,
                forall|v: int|
                    0 <= v < 64 ==> (bit64(bm, v) <==> exists|j: int|
                        0 <= j < k && #[trigger] card_index_of_chars(bc[2 * j], bc[2 * j + 1])
                            == v),
            decreases pairs - k,
        {
            let c0 = bd.as_str().get_char(2 * k);
            let c1 = bd.as_str().get_char(2 * k + 1);
            proof {
                assert(card_pair_err(bc[2 * (k as int)], bc[2 * (k as int) + 1]) is None);
            }
            let v = card_idx_x(c0, c1);
            let ghost vi = v as int;
            proof {
                assert(board_idxs(bc)[k as int] == card_index_of_chars(
                    bc[2 * (k as int)],
                    bc[2 * (k as int) + 1],
                ));
                // freshness among the board cards already merged
                if bit64(bm, vi) {
                    let j = choose|j: int|
                        0 <= j < k && #[trigger] card_index_of_chars(bc[2 * j], bc[2 * j + 1])
                            == vi;
                    assert(all_idxs(hc, bc)[2 * (n as int) + j] == all_idxs(hc, bc)[2 * (n as int)
                        + k as int]);
                    assert(has_dup(all_idxs(hc, bc)));
                }
                // the card is in no seat's hole mask
                assert forall|j: int| 0 <= j < n implies (#[trigger] hs_vec@[j]).hole.0.idx != v
                    && hs_vec@[j].hole.1.idx != v by {
                    assert(all_idxs(hc, bc)[2 * j] == card_index_of_chars(hc[j][0], hc[j][1]));
                    assert(all_idxs(hc, bc)[2 * j + 1] == card_index_of_chars(hc[j][2], hc[j][3]));
                    assert(all_idxs(hc, bc)[2 * (n as int) + k as int] == vi);
                }
                lemma_holes_mask_fresh_bit(hs_vec@, n as int, v as u64);
                lemma_and_or_distrib(hm, 1u64 << (v as u64), bm);
                lemma_and_or_distrib(bm, 1u64 << (v as u64), hm);
                assert(hm & (bm | (1u64 << (v as u64))) == (hm & bm) | (hm & (1u64 << (
                v as u64))));
                assert(0u64 | 0u64 == 0u64) by (bit_vector);
                lemma_pop_or_bit(bm, v as u64);
                lemma_bits52_bit(v as u64);
                lemma_bits52_or(bm, 1u64 << (v as u64));
            }
            let ghost bm_old = bm;
            bm = bm | (1u64 << (v as u64));
            nb = nb + 1;
            proof {
                assert forall|w: int| 0 <= w < 64 implies (bit64(bm, w) <==> exists|j: int|
                    0 <= j < k + 1 && #[trigger] card_index_of_chars(bc[2 * j], bc[2 * j + 1])
                        == w) by {
                    lemma_bit_or_single(bm_old, v as u64, w as u64);
                    assert(card_index_of_chars(bc[2 * (k as int)], bc[2 * (k as int) + 1]) == vi);
                    if w == vi {
                        assert(bit64(bm, w));
                    } else {
                        assert(bit64(bm, w) == bit64(bm_old, w));
                    }
                }
            }
            k = k + 1;
        }
        proof {
            assert(bm == board_mask_of(bc));
            assert(pop64(bm) <= 5);
        }

        let game = Game::new(0, hs_vec);
        proof {
            assert(game.wf()) by {
                assert forall|a: int, b: int|
                    0 <= a < game.hands@.len() && 0 <= b < game.hands@.len() && a
                        != b implies (#[trigger] game.hands@[a]).hole_b & (
                #[trigger] game.hands@[b]).hole_b == 0 by {
                    let ia0 = game.hands@[a].hole.0.idx as u64;
                    let ia1 = game.hands@[a].hole.1.idx as u64;
                    let ib0 = game.hands@[b].hole.0.idx as u64;
                    let ib1 = game.hands@[b].hole.1.idx as u64;
                    assert(all_idxs(hc, bc)[2 * a] == card_index_of_chars(hc[a][0], hc[a][1]));
                    assert(all_idxs(hc, bc)[2 * a + 1] == card_index_of_chars(hc[a][2], hc[a][3]));
                    assert(all_idxs(hc, bc)[2 * b] == card_index_of_chars(hc[b][0], hc[b][1]));
                    assert(all_idxs(hc, bc)[2 * b + 1] == card_index_of_chars(hc[b][2], hc[b][3]));
                    game.hands@[a].hole.0.lemma_wf_idx_range();
                    game.hands@[a].hole.1.lemma_wf_idx_range();
                    game.hands@[b].hole.0.lemma_wf_idx_range();
                    game.hands@[b].hole.1.lemma_wf_idx_range();
                    crate::bits::lemma_two_card_disjoint(ia0, ia1, ib0, ib1);
                }
            }
        }
        Ok((game, bm))
}

/// Builds a search over one validated request with an empty memo: the
/// entry point for an outside dispatch loop that spreads the root over
/// workers.
pub fn make_brancher(hands: &Vec<String>, bd: &String) -> (r: Result<
    crate::brancher::Brancher,
    SolveError,
>)
    ensures
        (r is Ok) == (solve_err(hands@.map_values(|x: String| x@), bd@) is None),
        r matches Err(e) ==> solve_err(hands@.map_values(|x: String| x@), bd@) == Some(e),
        r matches Ok(b) ==> {
            &&& b.inv_core()
            &&& b.at_rest()
            &&& b.game.hero_pos == 0
            &&& holes_of(b.game.hands@) == holes_chars(hands@.map_values(|x: String| x@))
            &&& b.board == board_mask_of(bd@)
        },
{
    match parse_request(hands, bd) {
        Ok(p) => {
            let (game, bm) = p;
            Ok(crate::brancher::Brancher::new(game, bm, crate::memo::Memo::new()))
        },
        Err(e) => Err(e),
    }
}

/// The character before position `keep` exists and is a newline.
fn ends_in_newline(s: &String, keep: usize) -> (r: bool)
    requires
        keep <= s@.len(),
    ensures
        r == (keep > 0 && s@[keep as int - 1] as u32 == 10),
{
    if keep == 0 {
        false
    } else {
        s.as_str().get_char(keep - 1) as u32 == 10
    }
}

/// Strips the newline characters a console read leaves at the end of a
/// line.
pub fn pop_extra_characters(s: &mut String)
    ensures
        final(s)@ == trim_newlines(old(s)@),
{
    let n = s.as_str().unicode_len();
    let mut keep: usize = n;
    proof {
        assert(s@.take(n as int) =~= s@);
    }
    while ends_in_newline(s, keep)
        invariant
            keep <= n,
            n == s@.len(),
            trim_newlines(s@) == trim_newlines(s@.take(keep as int)),
        decreases keep,
    {
        proof {
            assert(s@.take(keep as int).last() == s@[keep as int - 1]);
            assert(s@.take(keep as int).drop_last() =~= s@.take(keep as int - 1));
        }
        keep = keep - 1;
    }
    proof {
        if keep > 0 {
            assert(s@.take(keep as int).last() == s@[keep as int - 1]);
        }
        assert(trim_newlines(s@.take(keep as int)) == s@.take(keep as int));
    }
    let trimmed = s.as_str().substring_char(0, keep).to_owned();
    proof {
        assert(trimmed@ =~= s@.take(keep as int));
    }
    *s = trimmed;
}

} // verus!
