//! The board-completion search: a recursive, memoized enumeration of
//! every way the community board can be dealt out, counting the
//! completions on which the hero seat wins outright.
use vstd::prelude::*;

use crate::bits::{
    bit64, bits52, lemma_bit_or, lemma_bits52_bit, lemma_bits52_or, lemma_mask_recover,
    lemma_or_assoc, lemma_or_push_bit, lemma_pop_below_zero, lemma_pop_or, lemma_pop_or_bit,
    lemma_push_pop_bit, pop64, popcount64,
};
use crate::bitset::BitSet;
use crate::equity::{
    den_at, hero_beats_all, lemma_den_bound, lemma_den_cap_five, lemma_den_pos,
    lemma_sum_to_mono, lemma_wins_le_den, sum_to, wins_at, Equity,
};
use crate::eval::{eval_gt, kicker_of, rank_of};
use crate::game::{holes_mask, holes_mask_upto, holes_of, lemma_holes_mask, Game};
use crate::hand::Hand;
use crate::memo::Memo;

verus! {

/// The board a memo key encodes: the key with every hole bit removed.
pub open spec fn board_of_key(k: u64, hm: u64) -> u64 {
    k & !hm
}

/// Streets still to come for a board mask, five at most.
pub open spec fn streets_of(b: u64) -> nat {
    if pop64(b) <= 5 {
        (5 - pop64(b)) as nat
    } else {
        0
    }
}

/// Every memo entry counts the favourable completions of the
/// configuration its key encodes.
pub open spec fn memo_inv(m: Map<u64, u64>, hs: Seq<u64>, hero: int) -> bool {
    forall|k: u64|
        m.dom().contains(k) ==> #[trigger] m[k] == wins_at(
            hs,
            hero,
            k,
            board_of_key(k, holes_mask(hs)),
            streets_of(board_of_key(k, holes_mask(hs))),
        )
}

pub struct Brancher {
    pub game: Game,
    pub hero: Hand,
    pub drawn: BitSet,
    pub board: u64,
    pub memo: Memo,
}

impl Brancher {
    /// The hole masks of the table, in seat order.
    pub open spec fn holes(self) -> Seq<u64> {
        holes_of(self.game.hands@)
    }

    /// The union of all hole masks.
    pub open spec fn holes_union(self) -> u64 {
        holes_mask(self.holes())
    }

    /// What holds of a brancher between and during searches: a
    /// well-formed table, a hero copy with the hero seat's hole mask, a
    /// consistent drawn set, and a memo of true counts.
    pub open spec fn inv_core(self) -> bool {
        &&& self.game.wf()
        &&& self.hero.memo_ok()
        &&& self.hero.hole_b == self.game.hands@[self.game.hero_pos as int].hole_b
        &&& self.drawn.inv()
        &&& memo_inv(self.memo@, self.holes(), self.game.hero_pos as int)
    }

    /// The drawn set at rest: the hole cards of every seat plus the
    /// current board, all disjoint.
    pub open spec fn at_rest(self) -> bool {
        &&& self.drawn.s == self.holes_union() | self.board
        &&& self.holes_union() & self.board == 0u64
        &&& bits52(self.board)
        &&& pop64(self.board) <= 5
    }

    /// Builds the drawn set from the table's hole cards and the given
    /// board.
    pub fn new(game: Game, board: u64, memo: Memo) -> (b: Brancher)
        requires
            game.wf(),
            bits52(board),
            holes_mask(holes_of(game.hands@)) & board == 0u64,
            pop64(board) <= 5,
            memo_inv(memo@, holes_of(game.hands@), game.hero_pos as int),
        ensures
            b.inv_core(),
            b.at_rest(),
            b.game.hands@ == game.hands@,
            b.game.hero_pos == game.hero_pos,
            b.board == board,
            b.drawn.s == holes_mask(holes_of(game.hands@)) | board,
            b.memo@ == memo@,
    {
        let hero = game.hands[game.hero_pos].duplicate();
        let mut drawn = BitSet::new();
        let n = game.hands.len();
        let mut k: usize = 0;
        while k < n
            invariant
                k <= n,
                n == game.hands@.len(),
                game.wf(),
                drawn.inv(),
                drawn.s == holes_mask_upto(holes_of(game.hands@), k as int),
            decreases n - k,
        {
            let i0 = game.hands[k].hole.0.idx;
            let i1 = game.hands[k].hole.1.idx;
            proof {
                assert(game.hands@[k as int].inv());
                game.hands@[k as int].hole.0.lemma_wf_idx_range();
                game.hands@[k as int].hole.1.lemma_wf_idx_range();
            }
            let ghost s0 = drawn.s;
            drawn.add(i0);
            drawn.add(i1);
            proof {
                lemma_or_assoc(s0, 1u64 << (i0 as u64), 1u64 << (i1 as u64));
                assert(holes_of(game.hands@)[k as int] == game.hands@[k as int].hole_b);
            }
            k = k + 1;
        }
        drawn.add_board(&board);
        Brancher { game, hero, drawn, board, memo }
    }

    /// One node of the search: the exact count of favourable ordered
    /// completions of the given board, memoized by the drawn-card mask.
    pub fn branch(&mut self, board: &mut u64, n_board: u8) -> (w: u64)
        requires
            old(self).inv_core(),
            old(self).drawn.s == old(self).holes_union() | *old(board),
            old(self).holes_union() & *old(board) == 0u64,
            bits52(*old(board)),
            n_board == pop64(*old(board)),
            n_board <= 5,
        ensures
            final(self).inv_core(),
            holes_of(final(self).game.hands@) == holes_of(old(self).game.hands@),
            final(self).game.hero_pos == old(self).game.hero_pos,
            final(self).hero.hole_b == old(self).hero.hole_b,
            final(self).drawn == old(self).drawn,
            final(self).board == old(self).board,
            *final(board) == *old(board),
            w == wins_at(
                holes_of(old(self).game.hands@),
                old(self).game.hero_pos as int,
                old(self).drawn.s,
                *old(board),
                (5 - n_board) as nat,
            ),
            // the memo only grows, holds this configuration's count on
            // return, and is untouched by a cache hit
            old(self).memo@.submap_of(final(self).memo@),
            final(self).memo@.dom().contains(old(self).drawn.s),
            final(self).memo@[old(self).drawn.s] == w,
            old(self).memo@.dom().contains(old(self).drawn.s) ==> final(self).memo@ == old(
                self,
            ).memo@,
        decreases 5 - n_board, 1int,
    {
        let ghost hs = holes_of(old(self).game.hands@);
        let ghost hp = old(self).game.hero_pos as int;
        let ghost hm = old(self).holes_union();
        let ghost d0 = old(self).drawn.s;
        let ghost b0 = *old(board);
        let ghost r = (5 - n_board) as nat;

        proof {
            lemma_mask_recover(d0, hm, b0);
        }

        match self.memo.get(self.drawn.s) {
            Some(v) => {
                return v;
            },
            None => {},
        }

        let n = self.game.hands.len();
        proof {
            lemma_holes_mask(self.game.hands@, n as int);
            lemma_pop_or(hm, b0);
            lemma_pop_below_zero(64);
            lemma_bits52_or(hm, b0);
        }

        if n_board == 5 {
            let bcur: u64 = *board;
            let hero_rank = self.hero.rank(&bcur);
            let hero_kicker = self.hero.kicker;
            let hr = hero_rank.index();
            let mut beats_all = true;
            let mut j: usize = 0;
            while j < n
                invariant
                    j <= n,
                    n == self.game.hands@.len(),
                    self.inv_core(),
                    holes_of(self.game.hands@) == hs,
                    self.game.hero_pos == hp,
                    hp < n,
                    self.hero.hole_b == old(self).hero.hole_b,
                    self.drawn == old(self).drawn,
                    self.board == old(self).board,
                    self.memo@ == old(self).memo@,
                    bcur == b0,
                    hr == rank_of(hs[hp] | b0).strength(),
                    hero_kicker == kicker_of(hs[hp] | b0),
                    beats_all == (forall|t: int|
                        0 <= t < j && t != hp ==> #[trigger] eval_gt(hs[hp] | b0, hs[t] | b0)),
                decreases n - j,
            {
                if j != self.game.hero_pos {
                    let ghost hands_pre = self.game.hands@;
                    let vrank = self.game.hands[j].rank(&bcur);
                    let vk = self.game.hands[j].kicker;
                    let vr = vrank.index();
                    let won = hr > vr || (hr == vr && hero_kicker > vk);
                    proof {
                        assert(holes_of(self.game.hands@) =~= holes_of(hands_pre));
                        assert(hs[j as int] == hands_pre[j as int].hole_b);
                        assert(won == eval_gt(hs[hp] | b0, hs[j as int] | b0));
                        assert forall|i: int, jj: int|
                            0 <= i < self.game.hands@.len() && 0 <= jj < self.game.hands@.len()
                                && i != jj implies (#[trigger] self.game.hands@[i]).hole_b & (
                        #[trigger] self.game.hands@[jj]).hole_b == 0 by {
                            assert(self.game.hands@[i].hole_b == hands_pre[i].hole_b);
                            assert(self.game.hands@[jj].hole_b == hands_pre[jj].hole_b);
                        }
                    }
                    beats_all = beats_all && won;
                }
                j = j + 1;
            }
            let w: u64 = if beats_all {
                1
            } else {
                0
            };
            proof {
                assert(beats_all == hero_beats_all(hs, hp, b0));
                assert(w == wins_at(hs, hp, d0, b0, 0));
            }
            let ghost m_pre = self.memo@;
            proof {
                assert(m_pre.submap_of(m_pre.insert(d0, w)));
            }
            self.memo.insert(self.drawn.s, w);
            proof {
                assert(memo_inv(self.memo@, hs, hp)) by {
                    assert forall|k: u64| self.memo@.dom().contains(k) implies #[trigger] self.memo@[k]
                        == wins_at(
                        hs,
                        hp,
                        k,
                        board_of_key(k, holes_mask(hs)),
                        streets_of(board_of_key(k, holes_mask(hs))),
                    ) by {
                        if k != d0 {
                            assert(m_pre.dom().contains(k));
                        }
                    }
                }
            }
            return w;
        }

        let pb = self.branch_range(board, n_board, 0, 52);
        proof {
            assert(pb == wins_at(hs, hp, d0, b0, r));
        }
        let ghost m_pre = self.memo@;
        proof {
            // the recursion may have stored this key already; its entry
            // then already equals the count being inserted
            assert(m_pre.submap_of(m_pre.insert(d0, pb))) by {
                if m_pre.dom().contains(d0) {
                    assert(m_pre[d0] == pb);
                }
            }
            vstd::map_lib::lemma_submap_of_trans(old(self).memo@, m_pre, m_pre.insert(d0, pb));
        }
        self.memo.insert(self.drawn.s, pb);
        proof {
            assert(memo_inv(self.memo@, hs, hp)) by {
                assert forall|k: u64| self.memo@.dom().contains(k) implies #[trigger] self.memo@[k]
                    == wins_at(
                    hs,
                    hp,
                    k,
                    board_of_key(k, holes_mask(hs)),
                    streets_of(board_of_key(k, holes_mask(hs))),
                ) by {
                    if k != d0 {
                        assert(m_pre.dom().contains(k));
                    }
                }
            }
        }
        pb
    }

    /// The partial sums a worker computes: the favourable completions
    /// contributed by the candidate next cards with indices in
    /// `lo..hi`.
    pub fn branch_range(&mut self, board: &mut u64, n_board: u8, lo: usize, hi: usize) -> (w: u64)
        requires
            old(self).inv_core(),
            old(self).drawn.s == old(self).holes_union() | *old(board),
            old(self).holes_union() & *old(board) == 0u64,
            bits52(*old(board)),
            n_board == pop64(*old(board)),
            n_board < 5,
            lo <= hi <= 52,
        ensures
            final(self).inv_core(),
            holes_of(final(self).game.hands@) == holes_of(old(self).game.hands@),
            final(self).game.hero_pos == old(self).game.hero_pos,
            final(self).hero.hole_b == old(self).hero.hole_b,
            final(self).drawn == old(self).drawn,
            final(self).board == old(self).board,
            *final(board) == *old(board),
            w == sum_to(
                holes_of(old(self).game.hands@),
                old(self).game.hero_pos as int,
                old(self).drawn.s,
                *old(board),
                (5 - n_board) as nat,
                hi as int,
            ) - sum_to(
                holes_of(old(self).game.hands@),
                old(self).game.hero_pos as int,
                old(self).drawn.s,
                *old(board),
                (5 - n_board) as nat,
                lo as int,
            ),
            old(self).memo@.submap_of(final(self).memo@),
        decreases 5 - n_board, 0int,
    {
        let ghost hs = holes_of(old(self).game.hands@);
        let ghost hp = old(self).game.hero_pos as int;
        let ghost hm = old(self).holes_union();
        let ghost d0 = old(self).drawn.s;
        let ghost b0 = *old(board);
        let ghost r = (5 - n_board) as nat;

        let n = self.game.hands.len();
        proof {
            lemma_holes_mask(self.game.hands@, n as int);
            lemma_pop_or(hm, b0);
            lemma_pop_below_zero(64);
            lemma_bits52_or(hm, b0);
        }

        let mut pb: u64 = 0;
        let mut i: usize = lo;
        while i < hi
            invariant
                lo <= i <= hi,
                hi <= 52,
                self.inv_core(),
                holes_of(self.game.hands@) == hs,
                self.game.hero_pos == hp,
                self.hero.hole_b == old(self).hero.hole_b,
                self.drawn == old(self).drawn,
                self.board == old(self).board,
                self.drawn.s == d0,
                hm == holes_mask(hs),
                d0 == hm | b0,
                hm & b0 == 0u64,
                bits52(b0),
                bits52(d0),
                pop64(b0) == n_board,
                n_board < 5,
                r == 5 - n_board,
                pop64(d0) + r <= 52,
                *board == b0,
                old(self).memo@.submap_of(self.memo@),
                pb == sum_to(hs, hp, d0, b0, r, i as int) - sum_to(hs, hp, d0, b0, r, lo as int),
            decreases hi - i,
        {
            proof {
                lemma_sum_to_mono(hs, hp, d0, b0, r, lo as int, i as int);
            }
            if !self.drawn.contains(i) {
                proof {
                    lemma_bit_or(hm, b0, i as u64);
                    lemma_or_push_bit(hm, b0, i as u64);
                    lemma_bits52_bit(i as u64);
                    lemma_bits52_or(b0, 1u64 << (i as u64));
                    lemma_pop_or_bit(b0, i as u64);
                    lemma_push_pop_bit(b0, i as u64);
                    lemma_push_pop_bit(d0, i as u64);
                }
                self.add_to_end_of_board(i, board);
                let ghost m_before = self.memo@;
                let cw = self.branch(board, n_board + 1);
                proof {
                    vstd::map_lib::lemma_submap_of_trans(old(self).memo@, m_before, self.memo@);
                    lemma_sum_to_mono(hs, hp, d0, b0, r, i as int + 1, 52);
                    lemma_wins_le_den(hs, hp, d0, b0, r);
                    lemma_den_bound(r, 52 - pop64(d0));
                    lemma_den_cap_five(r);
                }
                pb = pb + cw;
                self.remove_from_end_of_board(i, board);
            }
            i = i + 1;
        }
        pb
    }

    /// Decides the dispatch mode the way the search prefers it: with
    /// four or more board cards fixed, the remaining tree is too shallow
    /// to repay spreading over workers.
    pub fn prefer_single_thread(&self) -> (r: bool)
        ensures
            r == (pop64(self.board) >= 4),
    {
        popcount64(self.board) >= 4
    }

    /// Number of ordered completions of the stored board: the
    /// denominator under any count the search returns.
    pub fn total_completions(&self) -> (d: u64)
        requires
            self.inv_core(),
            self.at_rest(),
        ensures
            d == den_at(streets_of(self.board), 52 - pop64(self.drawn.s)),
            1 <= d,
    {
        let ghost hm = self.holes_union();
        let ghost b0 = self.board;
        let n = self.game.hands.len();
        proof {
            lemma_holes_mask(self.game.hands@, n as int);
            lemma_pop_or(hm, b0);
            lemma_pop_below_zero(64);
            lemma_den_pos(streets_of(b0), 52 - pop64(self.drawn.s));
        }
        let n_board = popcount64(self.board);
        let streets = 5 - n_board;
        let free = 52 - self.drawn.len();
        den_exec(streets, free as u8)
    }

    /// Drives one full search from the stored board and returns the
    /// exact equity.
    pub fn compute_equity(&mut self) -> (e: Equity)
        requires
            old(self).inv_core(),
            old(self).at_rest(),
        ensures
            final(self).inv_core(),
            final(self).at_rest(),
            holes_of(final(self).game.hands@) == holes_of(old(self).game.hands@),
            final(self).game.hero_pos == old(self).game.hero_pos,
            final(self).hero.hole_b == old(self).hero.hole_b,
            final(self).drawn == old(self).drawn,
            final(self).board == old(self).board,
            e.wins == wins_at(
                holes_of(old(self).game.hands@),
                old(self).game.hero_pos as int,
                old(self).drawn.s,
                old(self).board,
                streets_of(old(self).board),
            ),
            e.total == den_at(streets_of(old(self).board), 52 - pop64(old(self).drawn.s)),
            e.wins <= e.total,
            1 <= e.total,
            // the memo only grows, holds this configuration's count on
            // return, and is untouched by a cache hit
            old(self).memo@.submap_of(final(self).memo@),
            final(self).memo@.dom().contains(old(self).drawn.s),
            final(self).memo@[old(self).drawn.s] == e.wins,
            old(self).memo@.dom().contains(old(self).drawn.s) ==> final(self).memo@ == old(
                self,
            ).memo@,
    {
        let ghost hs = holes_of(old(self).game.hands@);
        let ghost hp = old(self).game.hero_pos as int;
        let ghost hm = old(self).holes_union();
        let ghost d0 = old(self).drawn.s;
        let ghost b0 = old(self).board;
        let n = self.game.hands.len();
        proof {
            lemma_holes_mask(self.game.hands@, n as int);
            lemma_pop_or(hm, b0);
            lemma_pop_below_zero(64);
            lemma_bits52_or(hm, b0);
            lemma_wins_le_den(hs, hp, d0, b0, streets_of(b0));
            lemma_den_pos(streets_of(b0), 52 - pop64(d0));
        }
        let n_board = popcount64(self.board);
        let streets = 5 - n_board;
        let free = 52 - self.drawn.len();
        let total = den_exec(streets, free as u8);
        let mut board = self.board;
        let w = self.branch(&mut board, n_board);
        Equity { wins: w, total }
    }

    /// A per-worker copy: same table, board and drawn set, and a copy of
    /// the memo's entries, so that workers never share mutable state.
    pub fn duplicate(&self) -> (b: Brancher)
        requires
            self.inv_core(),
        ensures
            b.inv_core(),
            holes_of(b.game.hands@) == holes_of(self.game.hands@),
            b.game.hero_pos == self.game.hero_pos,
            b.hero.hole_b == self.hero.hole_b,
            b.drawn == self.drawn,
            b.board == self.board,
            b.memo@ == self.memo@,
    {
        Brancher {
            game: self.game.duplicate(),
            hero: self.hero.duplicate(),
            drawn: self.drawn,
            board: self.board,
            memo: self.memo.duplicate(),
        }
    }

    /// Commits one card: into the drawn set and onto the end of the
    /// board.
    pub fn add_to_end_of_board(&mut self, card_idx: usize, board: &mut u64)
        requires
            card_idx < 52,
            old(self).drawn.inv(),
        ensures
            final(self).drawn.inv(),
            final(self).drawn.s == old(self).drawn.s | (1u64 << (card_idx as u64)),
            *final(board) == *old(board) | (1u64 << (card_idx as u64)),
            final(self).game == old(self).game,
            final(self).hero == old(self).hero,
            final(self).memo == old(self).memo,
            final(self).board == old(self).board,
    {
        self.drawn.add(card_idx);
        *board = *board | (1u64 << (card_idx as u64));
    }

    /// Uncommits one card, the exact inverse of adding it.
    pub fn remove_from_end_of_board(&mut self, card_idx: usize, board: &mut u64)
        requires
            card_idx < 52,
            old(self).drawn.inv(),
            bit64(*old(board), card_idx as int),
        ensures
            final(self).drawn.inv(),
            final(self).drawn.s == old(self).drawn.s & !(1u64 << (card_idx as u64)),
            *final(board) == *old(board) - (1u64 << (card_idx as u64)),
            final(self).game == old(self).game,
            final(self).hero == old(self).hero,
            final(self).memo == old(self).memo,
            final(self).board == old(self).board,
    {
        self.drawn.remove(card_idx);
        proof {
            crate::bits::lemma_sub_set_bit(*board, card_idx as u64);
        }
        *board = *board - (1u64 << (card_idx as u64));
    }
}

/// Partitions the 52 card indices into consecutive ranges, one per
/// worker: each of width 52 divided by the worker count, the last capped
/// at 52.
pub fn chunk_bounds(nthreads: usize) -> (chunks: Vec<(usize, usize)>)
    requires
        1 <= nthreads <= 52,
    ensures
        chunks@.len() >= 1,
        chunks@[0].0 == 0,
        chunks@[chunks@.len() - 1].1 == 52,
        forall|i: int| 0 <= i < chunks@.len() ==> (#[trigger] chunks@[i]).0 < chunks@[i].1 <= 52,
        forall|i: int|
            0 <= i < chunks@.len() - 1 ==> (#[trigger] chunks@[i]).1 == chunks@[i + 1].0,
        forall|i: int|
            0 <= i < chunks@.len() - 1 ==> (#[trigger] chunks@[i]).1 - chunks@[i].0 == 52int / (
            nthreads as int),
        chunks@[chunks@.len() - 1].1 - chunks@[chunks@.len() - 1].0 <= 52int / (nthreads as int),
{
    let step = 52 / nthreads;
    proof {
        assert(1 <= step <= 52) by (nonlinear_arith)
            requires
                1 <= nthreads <= 52,
                step == 52usize / nthreads,
        ;
    }
    let mut chunks: Vec<(usize, usize)> = Vec::new();
    let mut s: usize = 0;
    while s < 52
        invariant
            1 <= step <= 52,
            step == 52int / (nthreads as int),
            s <= 52,
            s == 0 ==> chunks@.len() == 0,
            s > 0 ==> chunks@.len() >= 1 && chunks@[0].0 == 0 && chunks@[chunks@.len() - 1].1 == s,
            forall|i: int| 0 <= i < chunks@.len() ==> (#[trigger] chunks@[i]).0 < chunks@[i].1
                <= 52,
            forall|i: int|
                0 <= i < chunks@.len() - 1 ==> (#[trigger] chunks@[i]).1 == chunks@[i + 1].0,
            // every range so far has the nominal width; the newest one may
            // be narrower only when it already reached the deck's end
            forall|i: int|
                0 <= i < chunks@.len() - 1 ==> (#[trigger] chunks@[i]).1 - chunks@[i].0
                    == step,
            chunks@.len() >= 1 ==> chunks@[chunks@.len() - 1].1 - chunks@[chunks@.len() - 1].0
                <= step,
            chunks@.len() >= 1 && s < 52 ==> chunks@[chunks@.len() - 1].1 - chunks@[chunks@.len()
                - 1].0 == step,
        decreases 52 - s,
    {
        let e = if s + step < 52 {
            s + step
        } else {
            52
        };
        chunks.push((s, e));
        s = e;
    }
    chunks
}

/// Number of ordered completions, as executable code: `free` falling
/// factors, one per street.
pub fn den_exec(r: u8, free: u8) -> (d: u64)
    requires
        r <= 5,
        free <= 52,
        r <= free,
    ensures
        d == den_at(r as nat, free as int),
        1 <= d <= 380204032,
    decreases r,
{
    proof {
        lemma_den_pos(r as nat, free as int);
        lemma_den_bound(r as nat, free as int);
        lemma_den_cap_five(r as nat);
    }
    if r == 0 {
        1
    } else {
        let sub = den_exec(r - 1, free - 1);
        proof {
            lemma_den_bound((r - 1) as nat, free as int - 1);
            lemma_den_cap_five((r - 1) as nat);
        }
        (free as u64) * sub
    }
}

} // verus!
