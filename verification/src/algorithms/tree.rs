//! The game tree and the searches that every variant shares: which
//! successors of a position are searched, quiescence search, and the
//! alpha-beta search with its optional parts.

use vstd::prelude::*;
use crate::algorithms::hashtable::{lookup, Entry, HashTable};
use crate::clock::{must_abort, Deadline};
use crate::evaluate::{
    board_of, evaluate, evaluation, lemma_evaluation_bounded, MATERIAL_LIMIT,
};
use crate::rules::{
    board_pieces, capture_successors_of, moves_of, position_capture_successors,
    position_is_valid, position_successors, successors_of, texts_of, valid_position, zobrist_of,
};
use crate::tiebreak::{candidates_in_range, draw_seed, seeded_generator};

verus! {

/// The bound of the root window. It lies beyond every score a search within
/// `MAX_DEPTH` can reach.
pub const WINDOW: i64 = 1_000_000;

/// The deepest search: material and depth adjustment together stay strictly
/// inside the root window up to here.
pub const MAX_DEPTH: u64 = 359_999;

/// A successor that can be searched: one the engine produced and that reads
/// back as a position.
pub open spec fn usable(successor: Option<Seq<char>>) -> Option<Seq<char>> {
    match successor {
        Some(fen) => if valid_position(fen) {
            Some(fen)
        } else {
            None
        },
        None => None,
    }
}

/// Whether a position has a successor that can be searched.
pub open spec fn playable(fen: Seq<char>) -> bool {
    exists|i: int|
        0 <= i < successors_of(fen).len() && (#[trigger] usable(successors_of(fen)[i])) is Some
}

/// The `i`-th successor, if it can be searched.
pub fn child_at<'a>(successors: &'a Vec<Option<String>>, i: usize) -> (child: Option<&'a String>)
    requires
        i < successors@.len(),
    ensures
        match child {
            Some(c) => usable(texts_of(successors@)[i as int]) == Some(c@),
            None => usable(texts_of(successors@)[i as int]) is None,
        },
{
    match &successors[i] {
        Some(fen) => if position_is_valid(fen.as_str()) {
            Some(fen)
        } else {
            None
        },
        None => None,
    }
}

/// Whether the position has a successor that can be searched.
pub fn has_playable_move(fen: &str) -> (found: bool)
    requires
        valid_position(fen@),
    ensures
        found == playable(fen@),
{
    let successors = position_successors(fen);
    let mut i: usize = 0;
    while i < successors.len()
        invariant
            i <= successors@.len(),
            texts_of(successors@) == successors_of(fen@),
            forall|k: int| 0 <= k < i ==> (#[trigger] usable(successors_of(fen@)[k])) is None,
        decreases successors.len() - i,
    {
        if child_at(&successors, i).is_some() {
            return true;
        }
        i = i + 1;
    }
    false
}

/// Whether a search can start from `fen`: it is a position, and one with a
/// successor to search.
pub open spec fn searchable(fen: Seq<char>) -> bool {
    valid_position(fen) && playable(fen)
}

/// Whether a search can start from `fen`.
pub fn can_search(fen: &str) -> (ok: bool)
    ensures
        ok == searchable(fen@),
{
    position_is_valid(fen) && has_playable_move(fen)
}

/// The quiescent score of a position within the window `(alpha, beta)`,
/// following lines of captures for at most `budget` plies.
///
/// The static evaluation stands as a lower bound, since the side to move may
/// decline to capture. A score that reaches `beta` ends the search with
/// `beta`.
pub open spec fn quiesce(fen: Seq<char>, alpha: int, beta: int, budget: nat) -> int
    decreases budget, 0nat,
{
    let stand_pat = evaluation(fen);
    if stand_pat >= beta {
        beta
    } else {
        let raised = if alpha < stand_pat {
            stand_pat
        } else {
            alpha
        };
        if budget == 0 {
            raised
        } else {
            quiesce_scan(capture_successors_of(fen), 0, raised, beta, (budget - 1) as nat)
        }
    }
}

/// The quiescent score once the captures before the `i`-th have raised the
/// lower bound to `alpha`. Each capture is searched with `budget` plies.
pub open spec fn quiesce_scan(
    captures: Seq<Option<Seq<char>>>,
    i: nat,
    alpha: int,
    beta: int,
    budget: nat,
) -> int
    decreases budget, 1 + captures.len() - i,
{
    if i >= captures.len() {
        alpha
    } else {
        match usable(captures[i as int]) {
            None => quiesce_scan(captures, i + 1, alpha, beta, budget),
            Some(child) => {
                let score = -quiesce(child, -beta, -alpha, budget);
                if score >= beta {
                    beta
                } else if score > alpha {
                    quiesce_scan(captures, i + 1, score, beta, budget)
                } else {
                    quiesce_scan(captures, i + 1, alpha, beta, budget)
                }
            },
        }
    }
}

/// The quiescent score of a position. A capture takes a piece off the board,
/// so no line of captures is longer than the number of pieces, which is the
/// budget here.
pub open spec fn quiescence(fen: Seq<char>, alpha: int, beta: int) -> int {
    quiesce(fen, alpha, beta, board_of(fen).len())
}

/// That a capture takes a piece off the board: every successor by a
/// capture holds fewer pieces than the position it comes from.
pub open spec fn captures_take_a_piece() -> bool {
    forall|fen: Seq<char>, i: int|
        0 <= i < capture_successors_of(fen).len() ==> (
        #[trigger] usable(capture_successors_of(fen)[i]) matches Some(child) ==> {
            board_of(child).len() < board_of(fen).len()
        })
}

/// The budget of `quiescence` is never the limit: where a capture takes a
/// piece off the board, any budget from the number of pieces up gives the
/// same score.
pub proof fn lemma_budget_is_enough(fen: Seq<char>, alpha: int, beta: int, budget: nat, other: nat)
    requires
        captures_take_a_piece(),
        budget >= board_of(fen).len(),
        other >= board_of(fen).len(),
    ensures
        quiesce(fen, alpha, beta, budget) == quiesce(fen, alpha, beta, other),
    decreases board_of(fen).len(), 2 + capture_successors_of(fen).len(),
{
    let stand_pat = evaluation(fen);
    if stand_pat < beta {
        let raised = if alpha < stand_pat {
            stand_pat
        } else {
            alpha
        };
        let with_budget = if budget == 0 {
            0
        } else {
            (budget - 1) as nat
        };
        let with_other = if other == 0 {
            0
        } else {
            (other - 1) as nat
        };
        if board_of(fen).len() == 0 {
            lemma_scan_without_captures(fen, 0, raised, beta, with_budget);
            lemma_scan_without_captures(fen, 0, raised, beta, with_other);
        } else {
            lemma_scan_budget_is_enough(fen, 0, raised, beta, with_budget, with_other);
        }
    }
}

/// The scan over the captures of a position gives the same score with any
/// two budgets that cover what the successors need.
proof fn lemma_scan_budget_is_enough(
    fen: Seq<char>,
    i: nat,
    alpha: int,
    beta: int,
    budget: nat,
    other: nat,
)
    requires
        captures_take_a_piece(),
        budget + 1 >= board_of(fen).len(),
        other + 1 >= board_of(fen).len(),
    ensures
        board_of(fen).len() > 0 ==> quiesce_scan(capture_successors_of(fen), i, alpha, beta, budget)
            == quiesce_scan(capture_successors_of(fen), i, alpha, beta, other),
    decreases board_of(fen).len(), 1 + capture_successors_of(fen).len() - i,
{
    let captures = capture_successors_of(fen);
    if board_of(fen).len() > 0 && i < captures.len() {
        match usable(captures[i as int]) {
            None => {
                lemma_scan_budget_is_enough(fen, i + 1, alpha, beta, budget, other);
            },
            Some(child) => {
                lemma_budget_is_enough(child, -beta, -alpha, budget, other);
                let score = -quiesce(child, -beta, -alpha, budget);
                if score >= beta {
                } else if score > alpha {
                    lemma_scan_budget_is_enough(fen, i + 1, score, beta, budget, other);
                } else {
                    lemma_scan_budget_is_enough(fen, i + 1, alpha, beta, budget, other);
                }
            },
        }
    }
}

/// A position without pieces has no capture to follow: the scan leaves the
/// lower bound as it is.
proof fn lemma_scan_without_captures(fen: Seq<char>, i: nat, alpha: int, beta: int, budget: nat)
    requires
        captures_take_a_piece(),
        board_of(fen).len() == 0,
    ensures
        quiesce_scan(capture_successors_of(fen), i, alpha, beta, budget) == alpha,
    decreases capture_successors_of(fen).len() - i,
{
    let captures = capture_successors_of(fen);
    if i < captures.len() {
        assert(usable(captures[i as int]) is None);
        lemma_scan_without_captures(fen, i + 1, alpha, beta, budget);
    }
}

/// How a scan over successors stands after one of them.
#[derive(Clone, Copy, Debug, PartialEq, Eq)]
pub enum Scan {
    /// The scan is over, with this result: the abort of the successor's
    /// search, or `beta` at a cutoff.
    Ends(Option<i64>),
    /// The scan goes on, with this lower bound and best score.
    Continues { lower: i64, best: Option<i64> },
}

/// The larger of a best score so far and a new score, in machine integers.
pub open spec fn better_of(best: Option<i64>, score: int) -> Option<i64> {
    match best {
        Some(b) => if score > b {
            Some(score as i64)
        } else {
            best
        },
        None => Some(score as i64),
    }
}

/// One step of a scan: what the search of a successor returned, held
/// against the window and the best score so far.
///
/// An aborted successor ends the scan with the abort: no score stands in
/// for it. A negated score that reaches `beta` ends the scan with `beta`.
/// Any other score raises the lower bound if it exceeds it, and is the best
/// score if no earlier one was better.
pub fn after_successor(child: Option<i64>, lower: i64, beta: i64, best: Option<i64>) -> (step: Scan)
    requires
        child matches Some(value) ==> value > i64::MIN,
    ensures
        child is None ==> step == Scan::Ends(None),
        child matches Some(value) ==> (-value >= beta ==> step == Scan::Ends(Some(beta))),
        child matches Some(value) ==> (lower < -value < beta ==> step == (Scan::Continues {
            lower: (-value) as i64,
            best: Some((-value) as i64),
        })),
        child matches Some(value) ==> (-value <= lower && -value < beta ==> step == (
        Scan::Continues { lower, best: better_of(best, -value) })),
{
    match child {
        None => Scan::Ends(None),
        Some(value) => {
            let score = -value;
            if score >= beta {
                Scan::Ends(Some(beta))
            } else if score > lower {
                Scan::Continues { lower: score, best: Some(score) }
            } else if best.is_none() || score > best.unwrap() {
                Scan::Continues { lower, best: Some(score) }
            } else {
                Scan::Continues { lower, best }
            }
        },
    }
}

/// Whether no capture of a position leads to a successor that can be
/// searched.
pub open spec fn quiet(fen: Seq<char>) -> bool {
    forall|i: int|
        0 <= i < capture_successors_of(fen).len() ==> (#[trigger] usable(
            capture_successors_of(fen)[i],
        )) is None
}

/// Quiescence search with a budget of plies and an optional deadline.
///
/// The clock is read at the entry; what follows is `quiescent_when`.
/// Returns `None` only when the deadline has passed at the entry to some
/// call; otherwise the score is that of `quiesce`.
pub fn quiescent(
    fen: &str,
    alpha: i64,
    beta: i64,
    budget: usize,
    deadline: &Option<Deadline>,
) -> (r: Option<i64>)
    requires
        valid_position(fen@),
        alpha > i64::MIN,
        beta > i64::MIN,
    ensures
        deadline is None ==> r is Some,
        r matches Some(s) ==> s == quiesce(fen@, alpha as int, beta as int, budget as nat),
        r matches Some(s) ==> s > i64::MIN,
        r matches Some(s) ==> (-WINDOW <= alpha < beta <= WINDOW ==> -WINDOW < s < WINDOW),
    decreases budget, 1int,
{
    quiescent_when(must_abort(deadline), fen, alpha, beta, budget, deadline)
}

/// Quiescence search, given the clock's answer at the entry: `over` says
/// whether the deadline has passed.
///
/// Past the deadline the search aborts: it returns `None` and no score in
/// its place. Otherwise it owes a score wherever no further reading of the
/// clock is made: where standing pat reaches `beta`, where the budget is
/// used up, and where no capture can be followed. An abort below is passed
/// up as it is.
pub fn quiescent_when(
    over: bool,
    fen: &str,
    alpha: i64,
    beta: i64,
    budget: usize,
    deadline: &Option<Deadline>,
) -> (r: Option<i64>)
    requires
        valid_position(fen@),
        alpha > i64::MIN,
        beta > i64::MIN,
        deadline is None ==> !over,
    ensures
        over ==> r is None,
        !over && (evaluation(fen@) >= beta || budget == 0 || quiet(fen@)) ==> r is Some,
        deadline is None ==> r is Some,
        r matches Some(s) ==> s == quiesce(fen@, alpha as int, beta as int, budget as nat),
        r matches Some(s) ==> s > i64::MIN,
        r matches Some(s) ==> (-WINDOW <= alpha < beta <= WINDOW ==> -WINDOW < s < WINDOW),
    decreases budget, 0int,
{
    if over {
        return None;
    }
    let stand_pat = evaluate(fen);
    if stand_pat >= beta {
        return Some(beta);
    }
    let mut lower = alpha;
    if lower < stand_pat {
        lower = stand_pat;
    }
    if budget == 0 {
        return Some(lower);
    }
    let captures = position_capture_successors(fen);
    let ghost goal = quiesce(fen@, alpha as int, beta as int, budget as nat);
    let mut i: usize = 0;
    while i < captures.len()
        invariant
            i <= captures@.len(),
            !over,
            budget > 0,
            beta > i64::MIN,
            lower > i64::MIN,
            lower >= stand_pat,
            stand_pat < beta,
            stand_pat == evaluation(fen@),
            -MATERIAL_LIMIT <= stand_pat <= MATERIAL_LIMIT,
            -WINDOW <= alpha < beta <= WINDOW ==> -WINDOW < lower < beta,
            texts_of(captures@) == capture_successors_of(fen@),
            goal == quiesce(fen@, alpha as int, beta as int, budget as nat),
            quiesce_scan(
                capture_successors_of(fen@),
                i as nat,
                lower as int,
                beta as int,
                (budget - 1) as nat,
            ) == goal,
        decreases captures.len() - i,
    {
        match child_at(&captures, i) {
            Some(child) => {
                let below = quiescent(child.as_str(), -beta, -lower, budget - 1, deadline);
                match after_successor(below, lower, beta, None) {
                    Scan::Ends(result) => {
                        return result;
                    },
                    Scan::Continues { lower: raised, best: _ } => {
                        lower = raised;
                    },
                }
            },
            None => {},
        }
        i = i + 1;
    }
    Some(lower)
}

/// The score that the table offers for a position at `depth`: that of an
/// entry searched at least that deep, if it lies strictly inside the root
/// window. No search yields a score outside it.
pub open spec fn memo(table: Map<u64, Entry>, fen: Seq<char>, depth: nat) -> Option<int> {
    match lookup(table, zobrist_of(fen), depth as u64) {
        Some(entry) => if -WINDOW < entry.score < WINDOW {
            Some(entry.score as int)
        } else {
            None
        },
        None => None,
    }
}

/// The value of a leaf: the quiescent score or the static evaluation.
pub open spec fn leaf_value(fen: Seq<char>, alpha: int, beta: int, quiescent: bool) -> int {
    if quiescent {
        quiescence(fen, alpha, beta)
    } else {
        evaluation(fen)
    }
}

/// The alpha-beta score of a position for the side to move, searched
/// `depth` plies deep within the window `(alpha, beta)`.
///
/// A score remembered in `table` for this depth or deeper replaces the
/// search. A position without a searchable successor scores its evaluation
/// less the remaining depth.
pub open spec fn alpha_beta(
    fen: Seq<char>,
    depth: nat,
    alpha: int,
    beta: int,
    quiescent: bool,
    table: Map<u64, Entry>,
) -> int
    decreases depth, 1 + successors_of(fen).len(),
{
    match memo(table, fen, depth) {
        Some(score) => score,
        None => if depth == 0 {
            leaf_value(fen, alpha, beta, quiescent)
        } else {
            let successors = successors_of(fen);
            match alpha_beta_scan(successors, depth, 0, alpha, beta, None, quiescent, table) {
                Some(score) => score,
                None => evaluation(fen) - depth,
            }
        },
    }
}

/// The alpha-beta score of an inner node once the successors before the
/// `i`-th have given `best` and raised the lower bound to `alpha`: `beta`
/// as soon as a successor's negated score reaches it, else the best negated
/// score, or nothing if no successor was searched.
pub open spec fn alpha_beta_scan(
    successors: Seq<Option<Seq<char>>>,
    depth: nat,
    i: nat,
    alpha: int,
    beta: int,
    best: Option<int>,
    quiescent: bool,
    table: Map<u64, Entry>,
) -> Option<int>
    decreases depth, successors.len() - i,
{
    if depth == 0 || i >= successors.len() {
        best
    } else {
        match usable(successors[i as int]) {
            None => alpha_beta_scan(successors, depth, i + 1, alpha, beta, best, quiescent, table),
            Some(child) => {
                let score = -alpha_beta(child, (depth - 1) as nat, -beta, -alpha, quiescent, table);
                if score >= beta {
                    Some(beta)
                } else if score > alpha {
                    alpha_beta_scan(
                        successors,
                        depth,
                        i + 1,
                        score,
                        beta,
                        Some(score),
                        quiescent,
                        table,
                    )
                } else {
                    alpha_beta_scan(
                        successors,
                        depth,
                        i + 1,
                        alpha,
                        beta,
                        better(best, score),
                        quiescent,
                        table,
                    )
                }
            },
        }
    }
}

/// The larger of a best score so far and a new score.
pub open spec fn better(best: Option<int>, score: int) -> Option<int> {
    match best {
        Some(b) => if score > b {
            Some(score)
        } else {
            best
        },
        None => Some(score),
    }
}

/// The entries of an optional table; none without a table.
pub open spec fn entries_of(table: Option<&HashTable>) -> Map<u64, Entry> {
    match table {
        Some(t) => t@,
        None => Map::empty(),
    }
}

/// The score that `table` offers for `fen` at `depth`.
pub fn remembered(table: Option<&HashTable>, fen: &str, depth: u64) -> (score: Option<i64>)
    requires
        valid_position(fen@),
    ensures
        match score {
            Some(s) => memo(entries_of(table), fen@, depth as nat) == Some(s as int),
            None => memo(entries_of(table), fen@, depth as nat) is None,
        },
{
    match table {
        Some(t) => match t.peek(fen, depth) {
            Some(entry) => if -WINDOW < entry.score && entry.score < WINDOW {
                Some(entry.score)
            } else {
                None
            },
            None => None,
        },
        None => None,
    }
}

/// Every quiescent score within a window inside the root window lies
/// strictly inside the root window.
pub proof fn lemma_quiesce_in_window(fen: Seq<char>, alpha: int, beta: int, budget: nat)
    requires
        -WINDOW <= alpha < beta <= WINDOW,
    ensures
        -WINDOW < quiesce(fen, alpha, beta, budget) < WINDOW,
    decreases budget, 0nat,
{
    lemma_evaluation_bounded(fen);
    let stand_pat = evaluation(fen);
    if stand_pat < beta && budget > 0 {
        let raised = if alpha < stand_pat {
            stand_pat
        } else {
            alpha
        };
        lemma_quiesce_scan_in_window(
            capture_successors_of(fen),
            0,
            raised,
            beta,
            (budget - 1) as nat,
        );
    }
}

/// The scan over the captures keeps the score strictly inside the root
/// window once the lower bound is.
proof fn lemma_quiesce_scan_in_window(
    captures: Seq<Option<Seq<char>>>,
    i: nat,
    alpha: int,
    beta: int,
    budget: nat,
)
    requires
        -WINDOW < alpha < beta <= WINDOW,
    ensures
        -WINDOW < quiesce_scan(captures, i, alpha, beta, budget) < WINDOW,
    decreases budget, 1 + captures.len() - i,
{
    if i < captures.len() {
        match usable(captures[i as int]) {
            None => {
                lemma_quiesce_scan_in_window(captures, i + 1, alpha, beta, budget);
            },
            Some(child) => {
                lemma_quiesce_in_window(child, -beta, -alpha, budget);
                let score = -quiesce(child, -beta, -alpha, budget);
                if score >= beta {
                } else if score > alpha {
                    lemma_quiesce_scan_in_window(captures, i + 1, score, beta, budget);
                } else {
                    lemma_quiesce_scan_in_window(captures, i + 1, alpha, beta, budget);
                }
            },
        }
    }
}

/// Every alpha-beta score of a search within `MAX_DEPTH`, within a window
/// inside the root window, lies strictly inside the root window: material
/// and depth together do not reach its bounds, and no remembered score
/// outside it is used. A score that is filed is therefore filed as it is.
pub proof fn lemma_alpha_beta_in_window(
    fen: Seq<char>,
    depth: nat,
    alpha: int,
    beta: int,
    quiescent: bool,
    table: Map<u64, Entry>,
)
    requires
        depth <= MAX_DEPTH,
        -WINDOW <= alpha < beta <= WINDOW,
    ensures
        -WINDOW < alpha_beta(fen, depth, alpha, beta, quiescent, table) < WINDOW,
    decreases depth, 1 + successors_of(fen).len(),
{
    lemma_evaluation_bounded(fen);
    if memo(table, fen, depth) is None {
        if depth == 0 {
            if quiescent {
                lemma_quiesce_in_window(fen, alpha, beta, board_of(fen).len());
            }
        } else {
            lemma_scan_in_window(successors_of(fen), depth, 0, alpha, beta, None, quiescent, table);
        }
    }
}

/// The scan of an inner node keeps the score strictly inside the root
/// window.
proof fn lemma_scan_in_window(
    successors: Seq<Option<Seq<char>>>,
    depth: nat,
    i: nat,
    alpha: int,
    beta: int,
    best: Option<int>,
    quiescent: bool,
    table: Map<u64, Entry>,
)
    requires
        0 < depth <= MAX_DEPTH,
        -WINDOW <= alpha < beta <= WINDOW,
        best matches Some(b) ==> -WINDOW < b < WINDOW,
    ensures
        alpha_beta_scan(successors, depth, i, alpha, beta, best, quiescent, table) matches Some(
            score,
        ) ==> -WINDOW < score < WINDOW,
    decreases depth, successors.len() - i,
{
    if i < successors.len() {
        match usable(successors[i as int]) {
            None => {
                lemma_scan_in_window(successors, depth, i + 1, alpha, beta, best, quiescent, table);
            },
            Some(child) => {
                let deep = (depth - 1) as nat;
                lemma_alpha_beta_in_window(child, deep, -beta, -alpha, quiescent, table);
                let score = -alpha_beta(child, deep, -beta, -alpha, quiescent, table);
                if score >= beta {
                } else if score > alpha {
                    lemma_scan_in_window(
                        successors,
                        depth,
                        i + 1,
                        score,
                        beta,
                        Some(score),
                        quiescent,
                        table,
                    );
                } else {
                    lemma_scan_in_window(
                        successors,
                        depth,
                        i + 1,
                        alpha,
                        beta,
                        better(best, score),
                        quiescent,
                        table,
                    );
                }
            },
        }
    }
}

/// A best score as a mathematical integer.
pub open spec fn as_score(best: Option<i64>) -> Option<int> {
    match best {
        Some(b) => Some(b as int),
        None => None,
    }
}

/// Alpha-beta search, `depth` plies deep, with quiescence search at the
/// leaves if `quiescent`, a deadline if one is given, and remembered scores
/// if a table is given.
///
/// The clock is read at the entry; what follows is `negamax_a_b_when`.
/// Returns `None` only when the deadline has passed at the entry to some
/// call; otherwise the score is that of `alpha_beta` and lies strictly
/// inside the root window. `seed` is handed on: each successor is searched
/// with a seed drawn from a generator that `seed` starts.
pub fn negamax_a_b(
    fen: &str,
    seed: u64,
    depth: u64,
    alpha: i64,
    beta: i64,
    quiescent: bool,
    deadline: &Option<Deadline>,
    table: Option<&HashTable>,
) -> (r: Option<i64>)
    requires
        valid_position(fen@),
        depth <= MAX_DEPTH,
        -WINDOW <= alpha < beta <= WINDOW,
    ensures
        deadline is None ==> r is Some,
        r matches Some(s) ==> s == alpha_beta(
            fen@,
            depth as nat,
            alpha as int,
            beta as int,
            quiescent,
            entries_of(table),
        ),
        r matches Some(s) ==> -WINDOW < s < WINDOW,
    decreases depth, 1int,
{
    let over = must_abort(deadline);
    negamax_a_b_when(over, fen, seed, depth, alpha, beta, quiescent, deadline, table)
}

/// Alpha-beta search, given the clock's answer at the entry: `over` says
/// whether the deadline has passed.
///
/// Past the deadline the search aborts: it returns `None`, whatever the
/// position, the depth, the window and the table hold. Otherwise it owes a
/// score wherever no further reading of the clock is made: where the table
/// remembers one, at a leaf without quiescence search, and where no
/// successor can be searched. An abort below is passed up as it is.
pub fn negamax_a_b_when(
    over: bool,
    fen: &str,
    seed: u64,
    depth: u64,
    alpha: i64,
    beta: i64,
    quiescent: bool,
    deadline: &Option<Deadline>,
    table: Option<&HashTable>,
) -> (r: Option<i64>)
    requires
        valid_position(fen@),
        depth <= MAX_DEPTH,
        -WINDOW <= alpha < beta <= WINDOW,
        deadline is None ==> !over,
    ensures
        over ==> r is None,
        !over && (memo(entries_of(table), fen@, depth as nat) is Some || (depth == 0 && !quiescent)
            || (depth > 0 && !playable(fen@))) ==> r is Some,
        deadline is None ==> r is Some,
        r matches Some(s) ==> s == alpha_beta(
            fen@,
            depth as nat,
            alpha as int,
            beta as int,
            quiescent,
            entries_of(table),
        ),
        r matches Some(s) ==> -WINDOW < s < WINDOW,
    decreases depth, 0int,
{
    if over {
        return None;
    }
    if let Some(score) = remembered(table, fen, depth) {
        return Some(score);
    }
    if depth == 0 {
        if quiescent {
            let budget = board_pieces(fen).len();
            return quiescent_at_leaf(fen, alpha, beta, budget, deadline);
        }
        return Some(evaluate(fen));
    }
    let successors = position_successors(fen);
    let ghost goal = alpha_beta_scan(
        successors_of(fen@),
        depth as nat,
        0,
        alpha as int,
        beta as int,
        None,
        quiescent,
        entries_of(table),
    );
    let mut rng = seeded_generator(seed);
    let mut lower = alpha;
    let mut best_score: Option<i64> = None;
    let mut i: usize = 0;
    while i < successors.len()
        invariant
            i <= successors@.len(),
            !over,
            0 < depth <= MAX_DEPTH,
            -WINDOW <= lower < beta <= WINDOW,
            best_score matches Some(b) ==> -WINDOW < b < WINDOW,
            texts_of(successors@) == successors_of(fen@),
            memo(entries_of(table), fen@, depth as nat) is None,
            alpha_beta(
                fen@,
                depth as nat,
                alpha as int,
                beta as int,
                quiescent,
                entries_of(table),
            ) == match goal {
                Some(score) => score,
                None => evaluation(fen@) - depth,
            },
            alpha_beta_scan(
                successors_of(fen@),
                depth as nat,
                i as nat,
                lower as int,
                beta as int,
                as_score(best_score),
                quiescent,
                entries_of(table),
            ) == goal,
        decreases successors.len() - i,
    {
        match child_at(&successors, i) {
            Some(child) => {
                let child_seed = draw_seed(&mut rng);
                let below = negamax_a_b(
                    child.as_str(),
                    child_seed,
                    depth - 1,
                    -beta,
                    -lower,
                    quiescent,
                    deadline,
                    table,
                );
                match after_successor(below, lower, beta, best_score) {
                    Scan::Ends(result) => {
                        return result;
                    },
                    Scan::Continues { lower: raised, best } => {
                        lower = raised;
                        best_score = best;
                    },
                }
            },
            None => {},
        }
        i = i + 1;
    }
    match best_score {
        Some(score) => Some(score),
        None => Some(evaluate(fen) - depth as i64),
    }
}

/// How a pass over the root stands after one successor: the lower bound and
/// the move that raised it last.
///
/// An aborted successor ends the pass with the abort: `None`, and nothing
/// of the pass is kept. A score above the lower bound raises it and makes
/// the successor the move of the pass; any other score changes nothing.
pub fn after_root_successor(child: Option<i64>, index: usize, alpha: i64, best: Vec<usize>) -> (r:
    Option<(i64, Vec<usize>)>)
    requires
        child matches Some(value) ==> value > i64::MIN,
    ensures
        child is None ==> r is None,
        child is Some ==> r is Some,
        child matches Some(value) ==> (r matches Some(next) ==> (if -value > alpha {
            next.0 == -value && next.1@ == seq![index]
        } else {
            next.0 == alpha && next.1@ == best@
        })),
{
    match child {
        None => None,
        Some(value) => {
            let score = -value;
            if score > alpha {
                let mut raised: Vec<usize> = Vec::new();
                raised.push(index);
                assert(raised@ =~= seq![index]);
                Some((score, raised))
            } else {
                Some((alpha, best))
            }
        },
    }
}

/// The root of an alpha-beta search after the first `n` successors: the
/// lower bound they have raised and the move that raised it last, by its
/// index among the legal moves. Each successor is searched `depth` plies
/// deep within what is left of the root window.
pub open spec fn root_pass(
    successors: Seq<Option<Seq<char>>>,
    depth: nat,
    n: nat,
    quiescent: bool,
) -> (int, Seq<usize>)
    decreases n,
{
    if n == 0 || n > successors.len() {
        (-WINDOW as int, Seq::empty())
    } else {
        let (alpha, best) = root_pass(successors, depth, (n - 1) as nat, quiescent);
        match usable(successors[n - 1]) {
            None => (alpha, best),
            Some(child) => {
                let score = -alpha_beta(
                    child,
                    depth,
                    -WINDOW as int,
                    -alpha,
                    quiescent,
                    Map::empty(),
                );
                if score > alpha {
                    (score, seq![(n - 1) as usize])
                } else {
                    (alpha, best)
                }
            },
        }
    }
}

/// The move that an alpha-beta search of the root selects when each
/// successor of `fen` is searched `depth` plies deep: the first one with
/// the best score.
pub open spec fn root_candidates(fen: Seq<char>, depth: nat, quiescent: bool) -> Seq<usize> {
    root_pass(successors_of(fen), depth, successors_of(fen).len(), quiescent).1
}

/// One pass over the root: searches each successor `depth` plies deep
/// within what is left of the root window and returns the move that raised
/// the lower bound last, by its index among the legal moves.
///
/// Returns `None` only when the deadline has passed at the entry to some
/// call. Every successor is searched with `seed`.
pub fn best_moves(
    fen: &str,
    seed: u64,
    depth: u64,
    quiescent: bool,
    deadline: &Option<Deadline>,
) -> (r: Option<Vec<usize>>)
    requires
        valid_position(fen@),
        playable(fen@),
        depth <= MAX_DEPTH,
    ensures
        deadline is None ==> r is Some,
        r matches Some(best) ==> best@ == root_candidates(fen@, depth as nat, quiescent),
        r matches Some(best) ==> best@.len() > 0,
        r matches Some(best) ==> candidates_in_range(best@, moves_of(fen@).len()),
{
    let successors = position_successors(fen);
    let mut best: Vec<usize> = Vec::new();
    let mut alpha: i64 = -WINDOW;
    let beta: i64 = WINDOW;
    let mut i: usize = 0;
    while i < successors.len()
        invariant
            i <= successors@.len(),
            depth <= MAX_DEPTH,
            beta == WINDOW,
            -WINDOW <= alpha < WINDOW,
            texts_of(successors@) == successors_of(fen@),
            successors@.len() == moves_of(fen@).len(),
            candidates_in_range(best@, i as nat),
            best@.len() == 0 ==> alpha == -WINDOW,
            best@.len() == 0 ==> forall|k: int|
                0 <= k < i ==> (#[trigger] usable(successors_of(fen@)[k])) is None,
            root_pass(successors_of(fen@), depth as nat, i as nat, quiescent) == (
                alpha as int,
                best@,
            ),
        decreases successors.len() - i,
    {
        match child_at(&successors, i) {
            Some(child) => {
                // a score is strictly inside the root window: never a cutoff here
                let below = negamax_a_b(
                    child.as_str(),
                    seed,
                    depth,
                    -beta,
                    -alpha,
                    quiescent,
                    deadline,
                    None,
                );
                match after_root_successor(below, i, alpha, best) {
                    None => {
                        return None;
                    },
                    Some(next) => {
                        alpha = next.0;
                        best = next.1;
                    },
                }
            },
            None => {},
        }
        i = i + 1;
    }
    Some(best)
}

/// The quiescence search at a leaf, with the board's piece count as budget.
fn quiescent_at_leaf(fen: &str, alpha: i64, beta: i64, budget: usize, deadline: &Option<
    Deadline,
>) -> (r: Option<i64>)
    requires
        valid_position(fen@),
        budget == board_of(fen@).len(),
        -WINDOW <= alpha < beta <= WINDOW,
    ensures
        deadline is None ==> r is Some,
        r matches Some(s) ==> s == quiescence(fen@, alpha as int, beta as int),
        r matches Some(s) ==> -WINDOW < s < WINDOW,
{
    quiescent(fen, alpha, beta, budget, deadline)
}

} // verus!
