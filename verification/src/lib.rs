//! Move selection for chess by adversarial tree search.
//!
//! The library hardens a plain negamax search step by step: alpha-beta
//! pruning, quiescence search, a position-keyed memo table, iterative
//! deepening under a time budget and capture-first move ordering. Positions
//! travel as FEN text; move generation and rule enforcement are left to the
//! `shakmaty` crate, reached through the contracts in [`rules`].
//!
//! The functions of this file are the entry points for a host. They accept
//! any text and any depth and answer `None` where no search can be made.

use vstd::prelude::*;
use crate::algorithms::hashtable::HashTable;
use crate::algorithms::iterative_deepening::deepened_choice;
use crate::algorithms::iterative_deepening_order::{ordered_choice, ordered_deepened_choice};
use crate::algorithms::iterative_deepening_table::{deepened_result, first_pass_result};
use crate::algorithms::negamax::negamax_candidates;
use crate::algorithms::negamax_a_b_table::{starting_entries, tabled_result};
use crate::algorithms::tree::{can_search, quiescence, root_candidates, searchable, MAX_DEPTH};
use crate::clock::now;
use crate::rules::{position_is_valid, sans_of, valid_position};
use crate::tiebreak::is_candidate;
use crate::utils::MoveAndTable;

pub mod algorithms;
pub mod clock;
pub mod evaluate;
pub mod ordering;
pub mod rules;
pub mod tiebreak;
pub mod utils;

verus! {

/// Whether a search to `depth` plies can start from `fen`.
pub open spec fn can_search_to(fen: Seq<char>, depth: u64) -> bool {
    searchable(fen) && 1 <= depth <= MAX_DEPTH
}

/// A move by plain negamax search to `depth` plies.
pub fn negamax_move(fen_str: &str, seed: u64, depth: u64) -> (mov: Option<String>)
    ensures
        mov is Some <==> can_search_to(fen_str@, depth),
        mov matches Some(m) ==> is_candidate(
            m@,
            sans_of(fen_str@),
            negamax_candidates(fen_str@, (depth - 1) as nat),
        ),
{
    if 1 <= depth && depth <= MAX_DEPTH && can_search(fen_str) {
        Some(algorithms::negamax::negamax_root(fen_str, seed, depth))
    } else {
        None
    }
}

/// A move by alpha-beta search to `depth` plies: one that the plain search
/// to the same depth may return as well.
pub fn negamax_a_b_move(fen_str: &str, seed: u64, depth: u64) -> (mov: Option<String>)
    ensures
        mov is Some <==> can_search_to(fen_str@, depth),
        mov matches Some(m) ==> is_candidate(
            m@,
            sans_of(fen_str@),
            root_candidates(fen_str@, (depth - 1) as nat, false),
        ),
        mov matches Some(m) ==> is_candidate(
            m@,
            sans_of(fen_str@),
            negamax_candidates(fen_str@, (depth - 1) as nat),
        ),
{
    if 1 <= depth && depth <= MAX_DEPTH && can_search(fen_str) {
        Some(algorithms::negamax_a_b::negamax_a_b_root(fen_str, seed, depth))
    } else {
        None
    }
}

/// A move by alpha-beta search to `depth` plies that fills and hands back a
/// memo table. `lastres` is the table of an earlier call, if there is one.
pub fn negamax_a_b_table_move(
    fen_str: &str,
    seed: u64,
    depth: u64,
    lastres: Option<HashTable>,
) -> (result: Option<MoveAndTable>)
    ensures
        result is Some <==> can_search_to(fen_str@, depth),
        result matches Some(found) ==> tabled_result(
            fen_str@,
            depth as nat,
            starting_entries(lastres),
            found.mov@,
            found.table@,
        ),
{
    if 1 <= depth && depth <= MAX_DEPTH && can_search(fen_str) {
        Some(algorithms::negamax_a_b_table::root(fen_str, seed, depth, lastres))
    } else {
        None
    }
}

/// A move by alpha-beta search to `depth` plies with quiescence search at
/// the leaves.
pub fn negamax_a_b_quiescent(fen_str: &str, seed: u64, depth: u64) -> (mov: Option<String>)
    ensures
        mov is Some <==> can_search_to(fen_str@, depth),
        mov matches Some(m) ==> is_candidate(
            m@,
            sans_of(fen_str@),
            root_candidates(fen_str@, (depth - 1) as nat, true),
        ),
{
    if 1 <= depth && depth <= MAX_DEPTH && can_search(fen_str) {
        Some(algorithms::negamax_a_b_quiescent::root(fen_str, seed, depth))
    } else {
        None
    }
}

/// A move by iterative deepening within about `max_time` milliseconds.
pub fn iterative_deepening(fen_str: &str, seed: u64, max_time: u64) -> (mov: Option<String>)
    ensures
        mov is Some <==> searchable(fen_str@),
        mov matches Some(m) ==> deepened_choice(fen_str@, m@),
        mov matches Some(m) ==> (max_time == 0 ==> is_candidate(
            m@,
            sans_of(fen_str@),
            root_candidates(fen_str@, 0, true),
        )),
{
    if can_search(fen_str) {
        Some(algorithms::iterative_deepening::root(fen_str, seed, max_time))
    } else {
        None
    }
}

/// A move by iterative deepening within about `max_time` milliseconds that
/// fills and hands back a memo table. `lastres` is the table of an earlier
/// call, if there is one.
pub fn iterative_deepening_table(
    fen_str: &str,
    seed: u64,
    max_time: u64,
    lastres: Option<HashTable>,
) -> (result: Option<MoveAndTable>)
    ensures
        result is Some <==> searchable(fen_str@),
        result matches Some(found) ==> deepened_result(
            fen_str@,
            starting_entries(lastres),
            found.mov@,
            found.table@,
        ),
        result matches Some(found) ==> (max_time == 0 ==> first_pass_result(
            fen_str@,
            starting_entries(lastres),
            found.mov@,
            found.table@,
        )),
{
    if can_search(fen_str) {
        Some(algorithms::iterative_deepening_table::root(fen_str, seed, max_time, lastres))
    } else {
        None
    }
}

/// A move by iterative deepening with move ordering within about
/// `max_time` milliseconds.
pub fn iterative_deepening_order(fen_str: &str, seed: u64, max_time: u64) -> (mov: Option<String>)
    ensures
        mov is Some <==> searchable(fen_str@),
        mov matches Some(m) ==> ordered_deepened_choice(fen_str@, m@),
        mov matches Some(m) ==> (max_time == 0 ==> is_candidate(
            m@,
            sans_of(fen_str@),
            ordered_choice(fen_str@, 0),
        )),
{
    if can_search(fen_str) {
        Some(algorithms::iterative_deepening_order::root(fen_str, seed, max_time))
    } else {
        None
    }
}

/// The quiescent score of a position within the window `(alpha, beta)`,
/// within `max_time` milliseconds if a time is given.
///
/// There is no score for text that is no position, for a bound at the
/// lowest integer, whose negation does not exist, or when the time runs out.
/// Without a time limit every other input has a score.
pub fn quiescent_score(
    fen_str: &str,
    alpha: i64,
    beta: i64,
    max_time: Option<u64>,
) -> (score: Option<i64>)
    ensures
        score matches Some(s) ==> valid_position(fen_str@) && s == quiescence(
            fen_str@,
            alpha as int,
            beta as int,
        ),
        max_time is None ==> (score is Some <==> {
            &&& valid_position(fen_str@)
            &&& alpha > i64::MIN
            &&& beta > i64::MIN
        }),
{
    if alpha > i64::MIN && beta > i64::MIN && position_is_valid(fen_str) {
        match max_time {
            Some(millis) => algorithms::iterative_deepening_order::quiescent_search(
                fen_str,
                alpha,
                beta,
                millis,
                now(),
            ),
            None => Some(
                algorithms::iterative_deepening_table::quiescent_search(fen_str, alpha, beta),
            ),
        }
    } else {
        None
    }
}

} // verus!
