//! Negamax with alpha-beta pruning.

use vstd::prelude::*;
use vstd::pervasive::unreached;
use crate::algorithms::negamax::negamax_candidates;
use crate::algorithms::pruning::lemma_pruning_keeps_the_best_move;
use crate::algorithms::tree::{best_moves, playable, root_candidates, MAX_DEPTH};
use crate::rules::{position_sans, sans_of, valid_position};
use crate::tiebreak::{break_tie, chosen, is_candidate};

verus! {

/// Chooses a move for the side to move in `fen_str` by alpha-beta search to
/// `depth` plies and returns it in standard algebraic notation: the first
/// legal move with the best score. That is one of the moves that share the
/// best score of the plain negamax search.
pub fn negamax_a_b_root(fen_str: &str, seed: u64, depth: u64) -> (mov: String)
    requires
        valid_position(fen_str@),
        playable(fen_str@),
        1 <= depth <= MAX_DEPTH,
    ensures
        is_candidate(
            mov@,
            sans_of(fen_str@),
            root_candidates(fen_str@, (depth - 1) as nat, false),
        ),
        is_candidate(mov@, sans_of(fen_str@), negamax_candidates(fen_str@, (depth - 1) as nat)),
{
    match best_moves(fen_str, seed, depth - 1, false, &None) {
        Some(best) => {
            let sans = position_sans(fen_str);
            let mov = break_tie(&sans, &best, seed);
            proof {
                lemma_pruning_keeps_the_best_move(fen_str@, (depth - 1) as nat);
                let plain = negamax_candidates(fen_str@, (depth - 1) as nat);
                assert(mov@ == chosen(sans_of(fen_str@), plain, 0));
            }
            mov
        },
        None => unreached(),
    }
}

} // verus!
