//! Exact showdown-equity engine for Texas Hold'em.
//!
//! The engine enumerates every completion of a partial community board,
//! classifies each 7-card combination into one of ten hand categories
//! with a tie-breaking kicker, and counts the completions on which the
//! hero seat wins outright. The result is exact: a pair of integers,
//! favourable ordered completions out of all ordered completions, whose
//! quotient is the equity.
pub mod bits;
pub mod bitset;
pub mod brancher;
pub mod cards;
pub mod equity;
pub mod eval;
pub mod game;
pub mod hand;
pub mod memo;
pub mod solver;

pub use bitset::BitSet;
pub use brancher::Brancher;
pub use cards::{Card, Suits, Value};
pub use equity::Equity;
pub use eval::Rank;
pub use game::Game;
pub use hand::Hand;
pub use memo::Memo;
pub use solver::{SolveError, Solver};

use vstd::prelude::*;

verus! {

/// Computes the probability that seat 0 wins outright against every
/// other seat: a fresh engine solves one request and returns the exact
/// count of favourable ordered board completions out of all of them.
pub fn solve(hands: &Vec<String>, board: &String) -> (r: Result<Equity, SolveError>)
    ensures
        (r is Ok) == (solver::solve_err(hands@.map_values(|x: String| x@), board@) is None),
        r matches Err(e) ==> solver::solve_err(hands@.map_values(|x: String| x@), board@) == Some(
            e,
        ),
        r matches Ok(eq) ==> {
            &&& eq.wins == solver::spec_wins(hands@.map_values(|x: String| x@), board@)
            &&& eq.total == solver::spec_total(hands@.map_values(|x: String| x@), board@)
            &&& eq.wins <= eq.total
            &&& 1 <= eq.total
        },
{
    let mut solution = Solver::new();
    solution.solve(hands, board)
}

} // verus!
