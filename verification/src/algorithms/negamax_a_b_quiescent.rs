//! Negamax with alpha-beta pruning and quiescence search at the leaves.

use vstd::prelude::*;
use vstd::pervasive::unreached;
use crate::algorithms::tree::{
    best_moves, playable, quiescence, quiescent, root_candidates, MAX_DEPTH,
};
use crate::rules::{board_pieces, position_sans, sans_of, valid_position};
use crate::tiebreak::{break_tie, is_candidate};

verus! {

/// The quiescent score of `fen_str` within the window `(alpha, beta)`: the
/// static evaluation, improved by the captures that are worth making.
pub fn quiescent_search(fen_str: &str, alpha: i64, beta: i64) -> (score: i64)
    requires
        valid_position(fen_str@),
        alpha > i64::MIN,
        beta > i64::MIN,
    ensures
        score == quiescence(fen_str@, alpha as int, beta as int),
{
    let budget = board_pieces(fen_str).len();
    match quiescent(fen_str, alpha, beta, budget, &None) {
        Some(score) => score,
        None => unreached(),
    }
}

/// Chooses a move for the side to move in `fen_str` by alpha-beta search to
/// `depth` plies with quiescence search at the leaves, and returns it in
/// standard algebraic notation: the first legal move with the best score.
pub fn root(fen_str: &str, seed: u64, depth: u64) -> (mov: String)
    requires
        valid_position(fen_str@),
        playable(fen_str@),
        1 <= depth <= MAX_DEPTH,
    ensures
        is_candidate(mov@, sans_of(fen_str@), root_candidates(fen_str@, (depth - 1) as nat, true)),
{
    match best_moves(fen_str, seed, depth - 1, true, &None) {
        Some(best) => {
            let sans = position_sans(fen_str);
            break_tie(&sans, &best, seed)
        },
        None => unreached(),
    }
}

} // verus!
