//! Plain negamax: every successor is searched, nothing is pruned. The
//! baseline that the pruned searches are measured against.

use vstd::prelude::*;
use crate::algorithms::pruning::lemma_negamax_bounded;
use crate::algorithms::tree::{child_at, playable, usable, MAX_DEPTH, WINDOW};
use crate::evaluate::{evaluate, evaluation, MATERIAL_LIMIT};
use crate::rules::{
    moves_of, position_sans, position_successors, sans_of, successors_of, texts_of,
    valid_position,
};
use crate::tiebreak::{break_tie, candidates_in_range, draw_seed, is_candidate, seeded_generator};

verus! {

/// The negamax score of a position for the side to move, `depth` plies
/// deep: the evaluation at depth 0, else the best negated score of a
/// successor, or the evaluation less the depth where there is none.
pub open spec fn negamax_value(fen: Seq<char>, depth: nat) -> int
    decreases depth, 1 + successors_of(fen).len(),
{
    if depth == 0 {
        evaluation(fen)
    } else {
        match negamax_scan(successors_of(fen), depth, 0, None) {
            Some(score) => score,
            None => evaluation(fen) - depth,
        }
    }
}

/// The best negated score among the successors from the `i`-th on and
/// `best`, the best before them.
pub open spec fn negamax_scan(
    successors: Seq<Option<Seq<char>>>,
    depth: nat,
    i: nat,
    best: Option<int>,
) -> Option<int>
    decreases depth, successors.len() - i,
{
    if depth == 0 || i >= successors.len() {
        best
    } else {
        match usable(successors[i as int]) {
            None => negamax_scan(successors, depth, i + 1, best),
            Some(child) => {
                let score = -negamax_value(child, (depth - 1) as nat);
                if best is None || score > best.unwrap() {
                    negamax_scan(successors, depth, i + 1, Some(score))
                } else {
                    negamax_scan(successors, depth, i + 1, best)
                }
            },
        }
    }
}

/// The score of the `i`-th successor for the side to move in the parent,
/// if that successor can be searched: its own negamax score, negated.
pub open spec fn reply_score(
    successors: Seq<Option<Seq<char>>>,
    depth: nat,
    i: int,
) -> Option<int> {
    match usable(successors[i]) {
        Some(child) => Some(-negamax_value(child, (depth - 1) as nat)),
        None => None,
    }
}

/// What a scan returns is the greatest of the score it began with and the
/// scores of the successors it went through.
pub proof fn lemma_negamax_scan_is_the_greatest(
    successors: Seq<Option<Seq<char>>>,
    depth: nat,
    i: nat,
    best: Option<int>,
)
    requires
        depth > 0,
    ensures
        ({
            let found = negamax_scan(successors, depth, i, best);
            &&& best matches Some(b) ==> found is Some && found.unwrap() >= b
            &&& forall|k: int|
                i <= k < successors.len() ==> (
                #[trigger] reply_score(successors, depth, k) matches Some(score) ==> {
                    found is Some && found.unwrap() >= score
                })
            &&& found matches Some(f) ==> best == Some(f) || exists|k: int|
                i <= k < successors.len() && #[trigger] reply_score(successors, depth, k) == Some(f)
        }),
    decreases successors.len() - i,
{
    if i < successors.len() {
        let next = match usable(successors[i as int]) {
            None => best,
            Some(child) => {
                let score = -negamax_value(child, (depth - 1) as nat);
                if best is None || score > best.unwrap() {
                    Some(score)
                } else {
                    best
                }
            },
        };
        lemma_negamax_scan_is_the_greatest(successors, depth, i + 1, next);
        let found = negamax_scan(successors, depth, i, best);
        assert(found == negamax_scan(successors, depth, i + 1, next));
        if found is Some && best != found {
            if next == found {
                assert(reply_score(successors, depth, i as int) == found);
            } else {
                let k = choose|k: int|
                    i + 1 <= k < successors.len() && #[trigger] reply_score(successors, depth, k)
                        == found;
                assert(reply_score(successors, depth, k) == found);
            }
        }
    }
}

/// The score of a position is that of the best reply: for every successor
/// that can be searched, the position scores no less than the successor's
/// negated score, and for one of them it scores exactly that.
pub proof fn lemma_negamax_is_the_best_reply(fen: Seq<char>, depth: nat)
    requires
        depth > 0,
        playable(fen),
    ensures
        forall|k: int|
            0 <= k < successors_of(fen).len() ==> (#[trigger] reply_score(
                successors_of(fen),
                depth,
                k,
            ) matches Some(score) ==> negamax_value(fen, depth) >= score),
        exists|k: int|
            0 <= k < successors_of(fen).len() && #[trigger] reply_score(
                successors_of(fen),
                depth,
                k,
            ) == Some(negamax_value(fen, depth)),
{
    let successors = successors_of(fen);
    lemma_negamax_scan_is_the_greatest(successors, depth, 0, None);
    let i = choose|i: int| 0 <= i < successors.len() && (#[trigger] usable(successors[i])) is Some;
    assert(reply_score(successors, depth, i) is Some);
}

/// The root of a negamax search after the first `n` successors: the best
/// score so far and the moves that share it, by their index among the legal
/// moves. Each successor is searched `depth` plies deep.
pub open spec fn negamax_root_pass(successors: Seq<Option<Seq<char>>>, depth: nat, n: nat) -> (
    int,
    Seq<usize>,
)
    decreases n,
{
    if n == 0 || n > successors.len() {
        (-WINDOW as int, Seq::empty())
    } else {
        let (best_score, best) = negamax_root_pass(successors, depth, (n - 1) as nat);
        match usable(successors[n - 1]) {
            None => (best_score, best),
            Some(child) => {
                let score = -negamax_value(child, depth);
                if score > best_score {
                    (score, seq![(n - 1) as usize])
                } else if score == best_score {
                    (best_score, best.push((n - 1) as usize))
                } else {
                    (best_score, best)
                }
            },
        }
    }
}

/// The moves that share the best negamax score when each successor of `fen`
/// is searched `depth` plies deep, in the order of the legal moves.
pub open spec fn negamax_candidates(fen: Seq<char>, depth: nat) -> Seq<usize> {
    negamax_root_pass(successors_of(fen), depth, successors_of(fen).len()).1
}

/// Whether the `k`-th successor can be searched and scores `score` for the
/// side to move at the root when it is searched `depth` plies deep.
pub open spec fn scores_at_root(
    successors: Seq<Option<Seq<char>>>,
    depth: nat,
    k: int,
    score: int,
) -> bool {
    usable(successors[k]) matches Some(child) && score == -negamax_value(child, depth)
}

/// What the root holds after `n` successors, said directly: the best score
/// among them, and exactly the moves that reach it, in rising order. The
/// scores are those of a search within `MAX_DEPTH`, which lie inside the
/// root window.
pub proof fn lemma_negamax_root_holds_the_best(
    successors: Seq<Option<Seq<char>>>,
    depth: nat,
    n: nat,
)
    requires
        depth <= MAX_DEPTH,
        n <= successors.len(),
        n <= usize::MAX,
    ensures
        ({
            let (best_score, best) = negamax_root_pass(successors, depth, n);
            &&& forall|k: int, score: int|
                0 <= k < n && #[trigger] scores_at_root(successors, depth, k, score) ==> score
                    <= best_score
            &&& forall|k: usize|
                k < n ==> (#[trigger] best.contains(k) <==> scores_at_root(
                    successors,
                    depth,
                    k as int,
                    best_score,
                ))
            &&& forall|j: int| 0 <= j < best.len() ==> (#[trigger] best[j]) < n
            &&& forall|i: int, j: int|
                0 <= i < j < best.len() ==> (#[trigger] best[i]) < (#[trigger] best[j])
            &&& best.len() == 0 ==> best_score == -WINDOW
        }),
    decreases n,
{
    if n > 0 {
        lemma_negamax_root_holds_the_best(successors, depth, (n - 1) as nat);
        let (before_score, before) = negamax_root_pass(successors, depth, (n - 1) as nat);
        let (best_score, best) = negamax_root_pass(successors, depth, n);
        let last = (n - 1) as usize;
        match usable(successors[n - 1]) {
            None => {
                assert forall|k: usize| k < n implies (#[trigger] best.contains(k)
                    <==> scores_at_root(successors, depth, k as int, best_score)) by {
                    if k == last && best.contains(k) {
                        let j = choose|j: int| 0 <= j < best.len() && best[j] == k;
                        assert(before[j] < n - 1);
                    }
                }
            },
            Some(child) => {
                lemma_negamax_bounded(child, depth);
                let score = -negamax_value(child, depth);
                assert(scores_at_root(successors, depth, n - 1, score));
                if score > before_score {
                    assert(best =~= seq![last]);
                    assert(best[0] == last);
                    assert forall|k: usize| k < n implies (#[trigger] best.contains(k)
                        <==> scores_at_root(successors, depth, k as int, best_score)) by {
                        if k < last && scores_at_root(successors, depth, k as int, best_score) {
                            assert(score <= before_score);
                        }
                        if best.contains(k) {
                            let j = choose|j: int| 0 <= j < best.len() && best[j] == k;
                            assert(j == 0);
                        }
                    }
                } else if score == before_score {
                    assert(best =~= before.push(last));
                    assert(best[before.len() as int] == last);
                    assert forall|k: usize| k < n implies (#[trigger] best.contains(k)
                        <==> scores_at_root(successors, depth, k as int, best_score)) by {
                        if before.contains(k) {
                            let j = choose|j: int| 0 <= j < before.len() && before[j] == k;
                            assert(best[j] == k);
                        }
                        if best.contains(k) && k != last {
                            let j = choose|j: int| 0 <= j < best.len() && best[j] == k;
                            assert(before[j] == k);
                        }
                    }
                } else {
                    assert forall|k: usize| k < n implies (#[trigger] best.contains(k)
                        <==> scores_at_root(successors, depth, k as int, best_score)) by {
                        if k == last && best.contains(k) {
                            let j = choose|j: int| 0 <= j < best.len() && best[j] == k;
                            assert(before[j] < n - 1);
                        }
                    }
                }
            },
        }
    }
}

/// The candidates of the plain search are exactly the moves with the best
/// score: a move is among them if and only if no move scores higher.
pub proof fn lemma_negamax_candidates_are_the_best(fen: Seq<char>, depth: nat, k: usize)
    requires
        depth <= MAX_DEPTH,
        successors_of(fen).len() <= usize::MAX,
        k < successors_of(fen).len(),
    ensures
        negamax_candidates(fen, depth).contains(k) <==> (exists|score: int| #[trigger]
            scores_at_root(successors_of(fen), depth, k as int, score) && forall|j: int, other: int|
                0 <= j < successors_of(fen).len() && #[trigger] scores_at_root(
                    successors_of(fen),
                    depth,
                    j,
                    other,
                ) ==> other <= score),
{
    let successors = successors_of(fen);
    lemma_negamax_root_holds_the_best(successors, depth, successors.len());
    let (best_score, best) = negamax_root_pass(successors, depth, successors.len());
    if best.contains(k) {
        assert(scores_at_root(successors, depth, k as int, best_score));
    }
    if exists|score: int| #[trigger]
        scores_at_root(successors, depth, k as int, score) && forall|j: int, other: int|
            0 <= j < successors.len() && #[trigger] scores_at_root(successors, depth, j, other)
                ==> other <= score {
        let score = choose|score: int| #[trigger]
            scores_at_root(successors, depth, k as int, score) && forall|j: int, other: int|
                0 <= j < successors.len() && #[trigger] scores_at_root(successors, depth, j, other)
                    ==> other <= score;
        assert(score <= best_score);
        if score < best_score {
            lemma_negamax_bounded(usable(successors[k as int]).unwrap(), depth);
            assert(best.len() > 0);
            let top = best[0];
            assert(best.contains(top));
            assert(scores_at_root(successors, depth, top as int, best_score));
        }
    }
}

/// Negamax search of `fen_str`, `depth` plies deep. `seed` is handed on:
/// each successor is searched with a seed drawn from a generator that `seed`
/// starts.
pub fn negamax(fen_str: &str, seed: u64, depth: u64) -> (score: i64)
    requires
        valid_position(fen_str@),
        depth <= MAX_DEPTH,
    ensures
        score == negamax_value(fen_str@, depth as nat),
        -MATERIAL_LIMIT - depth <= score <= MATERIAL_LIMIT + depth,
    decreases depth,
{
    if depth == 0 {
        return evaluate(fen_str);
    }
    let successors = position_successors(fen_str);
    let ghost goal = negamax_scan(successors_of(fen_str@), depth as nat, 0, None);
    let mut best_score: Option<i64> = None;
    let mut rng = seeded_generator(seed);
    let mut i: usize = 0;
    while i < successors.len()
        invariant
            i <= successors@.len(),
            0 < depth <= MAX_DEPTH,
            best_score matches Some(b) ==> -MATERIAL_LIMIT - depth < b < MATERIAL_LIMIT + depth,
            texts_of(successors@) == successors_of(fen_str@),
            negamax_scan(
                successors_of(fen_str@),
                depth as nat,
                i as nat,
                match best_score {
                    Some(b) => Some(b as int),
                    None => None,
                },
            ) == goal,
        decreases successors.len() - i,
    {
        match child_at(&successors, i) {
            Some(child) => {
                let child_seed = draw_seed(&mut rng);
                let score = -negamax(child.as_str(), child_seed, depth - 1);
                if best_score.is_none() || score > best_score.unwrap() {
                    best_score = Some(score);
                }
            },
            None => {},
        }
        i = i + 1;
    }
    match best_score {
        Some(score) => score,
        None => evaluate(fen_str) - depth as i64,
    }
}

/// The moves that share the best negamax score at the root, by their index
/// among the legal moves, in the order of the legal moves.
pub fn negamax_best_moves(fen_str: &str, seed: u64, depth: u64) -> (best_moves: Vec<usize>)
    requires
        valid_position(fen_str@),
        playable(fen_str@),
        1 <= depth <= MAX_DEPTH,
    ensures
        best_moves@ == negamax_candidates(fen_str@, (depth - 1) as nat),
        best_moves@.len() > 0,
        candidates_in_range(best_moves@, moves_of(fen_str@).len()),
{
    let successors = position_successors(fen_str);
    let mut best_moves: Vec<usize> = Vec::new();
    let mut best_score: i64 = -WINDOW;
    let mut i: usize = 0;
    while i < successors.len()
        invariant
            i <= successors@.len(),
            1 <= depth <= MAX_DEPTH,
            -WINDOW <= best_score < WINDOW,
            texts_of(successors@) == successors_of(fen_str@),
            successors@.len() == moves_of(fen_str@).len(),
            candidates_in_range(best_moves@, i as nat),
            best_moves@.len() == 0 ==> best_score == -WINDOW,
            best_moves@.len() == 0 ==> forall|k: int|
                0 <= k < i ==> (#[trigger] usable(successors_of(fen_str@)[k])) is None,
            negamax_root_pass(successors_of(fen_str@), (depth - 1) as nat, i as nat) == (
                best_score as int,
                best_moves@,
            ),
        decreases successors.len() - i,
    {
        match child_at(&successors, i) {
            Some(child) => {
                let score = -negamax(child.as_str(), seed, depth - 1);
                if score > best_score {
                    best_score = score;
                    best_moves = Vec::new();
                    best_moves.push(i);
                    assert(best_moves@ =~= seq![i]);
                } else if score == best_score {
                    best_moves.push(i);
                }
            },
            None => {},
        }
        i = i + 1;
    }
    best_moves
}

/// Chooses a move for the side to move in `fen_str` by negamax search to
/// `depth` plies and returns it in standard algebraic notation. Among the
/// moves that share the best score, a generator seeded with `seed` decides.
pub fn negamax_root(fen_str: &str, seed: u64, depth: u64) -> (mov: String)
    requires
        valid_position(fen_str@),
        playable(fen_str@),
        1 <= depth <= MAX_DEPTH,
    ensures
        is_candidate(mov@, sans_of(fen_str@), negamax_candidates(fen_str@, (depth - 1) as nat)),
{
    let best_moves = negamax_best_moves(fen_str, seed, depth);
    let sans = position_sans(fen_str);
    break_tie(&sans, &best_moves, seed)
}

} // verus!
