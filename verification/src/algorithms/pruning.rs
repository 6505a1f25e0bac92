//! Why pruning is safe: what the alpha-beta search returns, measured against
//! the plain negamax search of the same tree.

use vstd::prelude::*;
use crate::algorithms::negamax::{
    lemma_negamax_scan_is_the_greatest, negamax_candidates, negamax_root_pass, negamax_scan,
    negamax_value,
};
use crate::algorithms::tree::{
    alpha_beta, alpha_beta_scan, better, root_candidates, root_pass, usable, MAX_DEPTH, WINDOW,
};
use crate::evaluate::lemma_evaluation_bounded;
use crate::rules::successors_of;
use crate::tiebreak::{chosen, is_candidate};

verus! {

/// Whether the pruned score `pruned` stands for the plain score `plain`
/// within the window: equal to it inside the window, and on the same side
/// of the window outside it.
pub open spec fn agrees(plain: int, pruned: int, alpha: int, beta: int) -> bool {
    &&& plain <= alpha ==> pruned <= alpha
    &&& alpha < plain < beta ==> pruned == plain
    &&& plain >= beta ==> pruned >= beta
}

/// How the state of a pruned scan follows that of the plain scan of the
/// same successors, as long as no score has reached `beta`: the lower bound
/// is the best plain score once that exceeds the bound the scan began with,
/// and the pruned best score is then the plain one.
pub open spec fn follows(
    start: int,
    beta: int,
    plain_best: Option<int>,
    alpha: int,
    pruned_best: Option<int>,
) -> bool {
    match plain_best {
        None => alpha == start && pruned_best is None,
        Some(best) => {
            &&& best < beta
            &&& pruned_best is Some
            &&& if best > start {
                alpha == best && pruned_best == Some(best)
            } else {
                alpha == start && pruned_best.unwrap() <= start
            }
        },
    }
}

/// Alpha-beta pruning is sound: within any window the pruned score of a
/// position agrees with its plain negamax score.
pub proof fn lemma_alpha_beta_agrees(fen: Seq<char>, depth: nat, alpha: int, beta: int)
    requires
        alpha < beta,
    ensures
        agrees(
            negamax_value(fen, depth),
            alpha_beta(fen, depth, alpha, beta, false, Map::empty()),
            alpha,
            beta,
        ),
    decreases depth, 1 + successors_of(fen).len(),
{
    if depth > 0 {
        lemma_scan_agrees(successors_of(fen), depth, 0, alpha, beta, None, alpha, None);
    }
}

/// The scans of an inner node agree from any successor on, given that the
/// pruned scan has followed the plain one so far.
proof fn lemma_scan_agrees(
    successors: Seq<Option<Seq<char>>>,
    depth: nat,
    i: nat,
    start: int,
    beta: int,
    plain_best: Option<int>,
    alpha: int,
    pruned_best: Option<int>,
)
    requires
        depth > 0,
        start < beta,
        follows(start, beta, plain_best, alpha, pruned_best),
    ensures
        negamax_scan(successors, depth, i, plain_best) is None <==> alpha_beta_scan(
            successors,
            depth,
            i,
            alpha,
            beta,
            pruned_best,
            false,
            Map::empty(),
        ) is None,
        negamax_scan(successors, depth, i, plain_best) matches Some(plain) ==> agrees(
            plain,
            alpha_beta_scan(
                successors,
                depth,
                i,
                alpha,
                beta,
                pruned_best,
                false,
                Map::empty(),
            ).unwrap(),
            start,
            beta,
        ),
    decreases depth, successors.len() - i,
{
    if i >= successors.len() {
    } else {
        match usable(successors[i as int]) {
            None => {
                lemma_scan_agrees(
                    successors,
                    depth,
                    i + 1,
                    start,
                    beta,
                    plain_best,
                    alpha,
                    pruned_best,
                );
            },
            Some(child) => {
                let plain = -negamax_value(child, (depth - 1) as nat);
                let pruned = -alpha_beta(
                    child,
                    (depth - 1) as nat,
                    -beta,
                    -alpha,
                    false,
                    Map::empty(),
                );
                lemma_alpha_beta_agrees(child, (depth - 1) as nat, -beta, -alpha);
                let next_plain = if plain_best is None || plain > plain_best.unwrap() {
                    Some(plain)
                } else {
                    plain_best
                };
                if plain >= beta {
                    // cut off: the plain scan can only end at or above this score
                    lemma_negamax_scan_is_the_greatest(successors, depth, i + 1, next_plain);
                } else if plain > alpha {
                    lemma_scan_agrees(
                        successors,
                        depth,
                        i + 1,
                        start,
                        beta,
                        Some(plain),
                        plain,
                        Some(plain),
                    );
                } else {
                    lemma_scan_agrees(
                        successors,
                        depth,
                        i + 1,
                        start,
                        beta,
                        next_plain,
                        alpha,
                        better(pruned_best, pruned),
                    );
                }
            },
        }
    }
}

/// With the full root window the pruned search returns exactly the score of
/// the plain search: no score of a search within `MAX_DEPTH` reaches the
/// bounds of that window.
pub proof fn lemma_full_window_gives_the_plain_score(fen: Seq<char>, depth: nat)
    requires
        depth <= MAX_DEPTH,
    ensures
        alpha_beta(fen, depth, -WINDOW as int, WINDOW as int, false, Map::empty()) == negamax_value(
            fen,
            depth,
        ),
{
    lemma_negamax_bounded(fen, depth);
    lemma_alpha_beta_agrees(fen, depth, -WINDOW as int, WINDOW as int);
}

/// A plain negamax score lies within the material limit, widened by the
/// depth.
pub proof fn lemma_negamax_bounded(fen: Seq<char>, depth: nat)
    ensures
        -640_000 - depth <= negamax_value(fen, depth) <= 640_000 + depth,
    decreases depth, 1 + successors_of(fen).len(),
{
    lemma_evaluation_bounded(fen);
    if depth > 0 {
        lemma_negamax_scan_bounded(successors_of(fen), depth, 0, None);
    }
}

/// The best score of a plain scan lies within the bound of its successors'
/// scores if the best score it began with does.
proof fn lemma_negamax_scan_bounded(
    successors: Seq<Option<Seq<char>>>,
    depth: nat,
    i: nat,
    best: Option<int>,
)
    requires
        depth > 0,
        best matches Some(b) ==> -640_000 - depth < b < 640_000 + depth,
    ensures
        negamax_scan(successors, depth, i, best) matches Some(b) ==> -640_000 - depth < b < 640_000
            + depth,
    decreases depth, successors.len() - i,
{
    if i >= successors.len() {
    } else {
        match usable(successors[i as int]) {
            None => {
                lemma_negamax_scan_bounded(successors, depth, i + 1, best);
            },
            Some(child) => {
                lemma_negamax_bounded(child, (depth - 1) as nat);
                let score = -negamax_value(child, (depth - 1) as nat);
                if best is None || score > best.unwrap() {
                    lemma_negamax_scan_bounded(successors, depth, i + 1, Some(score));
                } else {
                    lemma_negamax_scan_bounded(successors, depth, i + 1, best);
                }
            },
        }
    }
}

/// After any number of successors the pruned root has raised its lower
/// bound to the best plain score and holds the first move that reached it.
proof fn lemma_pruned_root_follows(successors: Seq<Option<Seq<char>>>, depth: nat, n: nat)
    requires
        depth <= MAX_DEPTH,
    ensures
        ({
            let (score, shared) = negamax_root_pass(successors, depth, n);
            let (alpha, first) = root_pass(successors, depth, n, false);
            if shared.len() == 0 {
                score == -WINDOW && alpha == -WINDOW && first.len() == 0
            } else {
                -WINDOW < score < WINDOW && alpha == score && first == seq![shared[0]]
            }
        }),
    decreases n,
{
    if n == 0 || n > successors.len() {
    } else {
        lemma_pruned_root_follows(successors, depth, (n - 1) as nat);
        let (score, shared) = negamax_root_pass(successors, depth, (n - 1) as nat);
        let (alpha, first) = root_pass(successors, depth, (n - 1) as nat, false);
        match usable(successors[n - 1]) {
            None => {},
            Some(child) => {
                lemma_negamax_bounded(child, depth);
                lemma_alpha_beta_agrees(child, depth, -WINDOW as int, -alpha);
                let plain = -negamax_value(child, depth);
                if plain > score {
                    assert(seq![(n - 1) as usize][0] == (n - 1) as usize);
                } else if plain == score {
                    assert(shared.push((n - 1) as usize)[0] == shared[0]);
                }
            },
        }
    }
}

/// Pruning changes the work, not the answer: the alpha-beta search of the
/// root selects the first of the moves that share the best score of the
/// plain negamax search to the same depth, and nothing where that finds
/// nothing.
pub proof fn lemma_pruning_keeps_the_best_move(fen: Seq<char>, depth: nat)
    requires
        depth <= MAX_DEPTH,
    ensures
        negamax_candidates(fen, depth).len() == 0 ==> root_candidates(fen, depth, false).len() == 0,
        negamax_candidates(fen, depth).len() > 0 ==> root_candidates(fen, depth, false) == seq![
            negamax_candidates(fen, depth)[0],
        ],
{
    lemma_pruned_root_follows(successors_of(fen), depth, successors_of(fen).len());
}

/// Where a single move has the best plain score, the pruned search and the
/// plain search return the same move, whatever their tie-breaks draw.
pub proof fn lemma_pruning_keeps_the_move(
    fen: Seq<char>,
    depth: nat,
    sans: Seq<Seq<char>>,
    plain_move: Seq<char>,
    pruned_move: Seq<char>,
)
    requires
        depth <= MAX_DEPTH,
        negamax_candidates(fen, depth).len() == 1,
        is_candidate(plain_move, sans, negamax_candidates(fen, depth)),
        is_candidate(pruned_move, sans, root_candidates(fen, depth, false)),
    ensures
        pruned_move == plain_move,
{
    lemma_pruning_keeps_the_best_move(fen, depth);
    let plain = negamax_candidates(fen, depth);
    let pruned = root_candidates(fen, depth, false);
    let j = choose|j: int| 0 <= j < plain.len() && plain_move == #[trigger] chosen(sans, plain, j);
    let k = choose|k: int|
        0 <= k < pruned.len() && pruned_move == #[trigger] chosen(sans, pruned, k);
    assert(pruned[k] == plain[j]);
}

/// The move of an alpha-beta search is settled by the position and the
/// depth: its root holds one move at most, so no draw can change it.
pub proof fn lemma_pruned_move_is_settled(
    fen: Seq<char>,
    depth: nat,
    quiescent: bool,
    sans: Seq<Seq<char>>,
    one: Seq<char>,
    other: Seq<char>,
)
    requires
        is_candidate(one, sans, root_candidates(fen, depth, quiescent)),
        is_candidate(other, sans, root_candidates(fen, depth, quiescent)),
    ensures
        one == other,
{
    lemma_root_holds_one_move(successors_of(fen), depth, successors_of(fen).len(), quiescent);
    let held = root_candidates(fen, depth, quiescent);
    let j = choose|j: int| 0 <= j < held.len() && one == #[trigger] chosen(sans, held, j);
    let k = choose|k: int| 0 <= k < held.len() && other == #[trigger] chosen(sans, held, k);
    assert(j == k);
}

/// The root of an alpha-beta search holds one move at most.
proof fn lemma_root_holds_one_move(
    successors: Seq<Option<Seq<char>>>,
    depth: nat,
    n: nat,
    quiescent: bool,
)
    ensures
        root_pass(successors, depth, n, quiescent).1.len() <= 1,
    decreases n,
{
    if n == 0 || n > successors.len() {
    } else {
        lemma_root_holds_one_move(successors, depth, (n - 1) as nat, quiescent);
    }
}

} // verus!
