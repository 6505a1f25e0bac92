//! Iterative deepening with move ordering: each pass tries the move that
//! the pass before selected first, then the rest in capture-first order.

use vstd::prelude::*;
use vstd::pervasive::unreached;
use crate::algorithms::tree::{
    alpha_beta, alpha_beta_scan, as_score, better, better_of, child_at, playable, quiescence,
    quiescent, quiescent_when, usable, MAX_DEPTH, WINDOW,
};
use crate::clock::{may_continue, must_abort, Deadline};
use crate::evaluate::{evaluate, evaluation};
use crate::ordering::{
    is_search_order, legal_moves, legal_moves_of, search_order, search_order_of,
};
use crate::rules::{
    board_pieces, moves_of, position_sans, position_successors, sans_of, successors_of, texts_of,
    valid_position, Move,
};
use crate::tiebreak::{
    break_tie, candidates_in_range, chosen, draw_seed, is_candidate, seeded_generator,
};

verus! {

/// The line of play behind the alpha-beta score of a position: the moves
/// from the leaf up that gave the best score, ending with the move made in
/// the position itself. Empty at a leaf and where nothing can be played.
pub open spec fn principal_line(fen: Seq<char>, depth: nat, alpha: int, beta: int) -> Seq<Move>
    decreases depth, 1 + successors_of(fen).len(),
{
    if depth == 0 {
        Seq::empty()
    } else {
        principal_line_scan(
            successors_of(fen),
            legal_moves_of(fen),
            depth,
            0,
            alpha,
            beta,
            None,
            Seq::empty(),
        )
    }
}

/// The line of an inner node once the successors before the `i`-th have
/// given the best score `best` along `line`.
pub open spec fn principal_line_scan(
    successors: Seq<Option<Seq<char>>>,
    moves: Seq<Move>,
    depth: nat,
    i: nat,
    alpha: int,
    beta: int,
    best: Option<int>,
    line: Seq<Move>,
) -> Seq<Move>
    decreases depth, successors.len() - i,
{
    if depth == 0 || i >= successors.len() {
        line
    } else {
        match usable(successors[i as int]) {
            None => principal_line_scan(successors, moves, depth, i + 1, alpha, beta, best, line),
            Some(child) => {
                let deep = (depth - 1) as nat;
                let score = -alpha_beta(child, deep, -beta, -alpha, true, Map::empty());
                let next = if best is None || score > best.unwrap() {
                    principal_line(child, deep, -beta, -alpha).push(moves[i as int])
                } else {
                    line
                };
                if score >= beta {
                    next
                } else if score > alpha {
                    principal_line_scan(
                        successors,
                        moves,
                        depth,
                        i + 1,
                        score,
                        beta,
                        Some(score),
                        next,
                    )
                } else {
                    principal_line_scan(
                        successors,
                        moves,
                        depth,
                        i + 1,
                        alpha,
                        beta,
                        better(best, score),
                        next,
                    )
                }
            },
        }
    }
}

/// The quiescent score of `fen_str` within the window `(alpha, beta)`, or
/// `None` if more than `max_time` milliseconds have passed since `start` at
/// the entry to some call. The clock is read here for the entry; how its
/// answer decides is stated by `quiescent_when`.
pub fn quiescent_search(
    fen_str: &str,
    alpha: i64,
    beta: i64,
    max_time: u64,
    start: instant::Instant,
) -> (score: Option<i64>)
    requires
        valid_position(fen_str@),
        alpha > i64::MIN,
        beta > i64::MIN,
    ensures
        score matches Some(s) ==> s == quiescence(fen_str@, alpha as int, beta as int),
{
    let budget = board_pieces(fen_str).len();
    let deadline = Some(Deadline { start, max_time });
    let over = must_abort(&deadline);
    quiescent_when(over, fen_str, alpha, beta, budget, &deadline)
}

/// How a scan that keeps the line of play stands after one successor.
#[derive(Debug)]
pub enum LineScan {
    /// The scan is over, with this result: the abort of the successor's
    /// search, or `beta` at a cutoff with the line of the best score.
    Ends(Option<(i64, Vec<Move>)>),
    /// The scan goes on, with this lower bound, best score and line.
    Continues { lower: i64, best: Option<i64>, line: Vec<Move> },
}

/// The line after a successor scored `score`: the successor's line with the
/// move that led to it, if the score is the best so far, else the line as
/// it was.
pub open spec fn line_after(
    below: Seq<Move>,
    mv: Move,
    score: int,
    best: Option<i64>,
    line: Seq<Move>,
) -> Seq<Move> {
    if best is None || score > best.unwrap() {
        below.push(mv)
    } else {
        line
    }
}

/// One step of a scan that keeps the line of play: what the search of the
/// successor by the move `mv` returned, held against the window, the best
/// score and the line so far.
///
/// An aborted successor ends the scan with the abort: no score stands in
/// for it. A negated score that reaches `beta` ends the scan with `beta`.
/// Any other score raises the lower bound if it exceeds it, and is the best
/// score, with its line, if no earlier one was better.
pub fn after_line_successor(
    child: Option<(i64, Vec<Move>)>,
    mv: Move,
    lower: i64,
    beta: i64,
    best: Option<i64>,
    line: Vec<Move>,
) -> (step: LineScan)
    requires
        child matches Some(found) ==> found.0 > i64::MIN,
    ensures
        child is None ==> step == LineScan::Ends(None),
        child matches Some(found) ==> match step {
            LineScan::Ends(result) => {
                &&& -found.0 >= beta
                &&& result matches Some(end)
                &&& end.0 == beta
                &&& end.1@ == line_after(found.1@, mv, -found.0, best, line@)
            },
            LineScan::Continues { lower: raised, best: kept, line: next } => {
                &&& -found.0 < beta
                &&& next@ == line_after(found.1@, mv, -found.0, best, line@)
                &&& if -found.0 > lower {
                    raised == -found.0 && kept == Some((-found.0) as i64)
                } else {
                    raised == lower && kept == better_of(best, -found.0)
                }
            },
        },
{
    match child {
        None => LineScan::Ends(None),
        Some(found) => {
            let score = -found.0;
            let mut prev_moves = found.1;
            let mut kept = best;
            let mut next = line;
            // a new best score brings its line with it
            if best.is_none() || score > best.unwrap() {
                kept = Some(score);
                prev_moves.push(mv);
                next = prev_moves;
            }
            if score >= beta {
                // pruning
                LineScan::Ends(Some((beta, next)))
            } else if score > lower {
                // raising the lower bound
                LineScan::Continues { lower: score, best: Some(score), line: next }
            } else {
                LineScan::Continues { lower, best: kept, line: next }
            }
        },
    }
}

/// Alpha-beta search with quiescence search at the leaves that also
/// returns the line of play behind the score.
///
/// The clock is read at the entry; what follows is
/// `iterative_deepening_when`. Returns `None` only when the deadline has
/// passed at the entry to some call.
pub fn iterative_deepening(
    fen_str: &str,
    seed: u64,
    depth: u64,
    alpha: i64,
    beta: i64,
    deadline: &Option<Deadline>,
) -> (r: Option<(i64, Vec<Move>)>)
    requires
        valid_position(fen_str@),
        depth <= MAX_DEPTH,
        -WINDOW <= alpha < beta <= WINDOW,
    ensures
        deadline is None ==> r is Some,
        r matches Some(found) ==> found.0 == alpha_beta(
            fen_str@,
            depth as nat,
            alpha as int,
            beta as int,
            true,
            Map::empty(),
        ),
        r matches Some(found) ==> -WINDOW < found.0 < WINDOW,
        r matches Some(found) ==> found.1@ == principal_line(
            fen_str@,
            depth as nat,
            alpha as int,
            beta as int,
        ),
    decreases depth, 1int,
{
    let over = must_abort(deadline);
    iterative_deepening_when(over, fen_str, seed, depth, alpha, beta, deadline)
}

/// The search of `iterative_deepening`, given the clock's answer at the
/// entry: `over` says whether the deadline has passed.
///
/// Past the deadline the search aborts: it returns `None`, whatever the
/// position, the depth and the window hold. Otherwise it owes a result
/// wherever no further reading of the clock is made: where no successor can
/// be searched. An abort below is passed up as it is.
pub fn iterative_deepening_when(
    over: bool,
    fen_str: &str,
    seed: u64,
    depth: u64,
    alpha: i64,
    beta: i64,
    deadline: &Option<Deadline>,
) -> (r: Option<(i64, Vec<Move>)>)
    requires
        valid_position(fen_str@),
        depth <= MAX_DEPTH,
        -WINDOW <= alpha < beta <= WINDOW,
        deadline is None ==> !over,
    ensures
        over ==> r is None,
        !over && depth > 0 && !playable(fen_str@) ==> r is Some,
        deadline is None ==> r is Some,
        r matches Some(found) ==> found.0 == alpha_beta(
            fen_str@,
            depth as nat,
            alpha as int,
            beta as int,
            true,
            Map::empty(),
        ),
        r matches Some(found) ==> -WINDOW < found.0 < WINDOW,
        r matches Some(found) ==> found.1@ == principal_line(
            fen_str@,
            depth as nat,
            alpha as int,
            beta as int,
        ),
    decreases depth, 0int,
{
    if over {
        return None;
    }
    if depth == 0 {
        let budget = board_pieces(fen_str).len();
        return match quiescent(fen_str, alpha, beta, budget, deadline) {
            Some(score) => Some((score, Vec::new())),
            None => None,
        };
    }
    let successors = position_successors(fen_str);
    let moves = legal_moves(fen_str);
    let ghost goal = alpha_beta_scan(
        successors_of(fen_str@),
        depth as nat,
        0,
        alpha as int,
        beta as int,
        None,
        true,
        Map::empty(),
    );
    let ghost goal_line = principal_line(fen_str@, depth as nat, alpha as int, beta as int);
    let mut rng = seeded_generator(seed);
    let mut lower = alpha;
    let mut best_score: Option<i64> = None;
    let mut best_previous_moves: Vec<Move> = Vec::new();
    let mut i: usize = 0;
    while i < successors.len()
        invariant
            i <= successors@.len(),
            !over,
            0 < depth <= MAX_DEPTH,
            -WINDOW <= lower < beta <= WINDOW,
            best_score matches Some(b) ==> -WINDOW < b < WINDOW,
            texts_of(successors@) == successors_of(fen_str@),
            moves@ == legal_moves_of(fen_str@),
            moves@.len() == successors@.len(),
            alpha_beta(fen_str@, depth as nat, alpha as int, beta as int, true, Map::empty())
                == match goal {
                Some(score) => score,
                None => evaluation(fen_str@) - depth,
            },
            alpha_beta_scan(
                successors_of(fen_str@),
                depth as nat,
                i as nat,
                lower as int,
                beta as int,
                as_score(best_score),
                true,
                Map::empty(),
            ) == goal,
            goal_line == principal_line(fen_str@, depth as nat, alpha as int, beta as int),
            best_score is None ==> best_previous_moves@ =~= Seq::<Move>::empty(),
            principal_line_scan(
                successors_of(fen_str@),
                legal_moves_of(fen_str@),
                depth as nat,
                i as nat,
                lower as int,
                beta as int,
                as_score(best_score),
                best_previous_moves@,
            ) == goal_line,
        decreases successors.len() - i,
    {
        match child_at(&successors, i) {
            Some(child) => {
                let child_seed = draw_seed(&mut rng);
                let below = iterative_deepening(
                    child.as_str(),
                    child_seed,
                    depth - 1,
                    -beta,
                    -lower,
                    deadline,
                );
                let step = after_line_successor(
                    below,
                    moves[i],
                    lower,
                    beta,
                    best_score,
                    best_previous_moves,
                );
                match step {
                    LineScan::Ends(result) => {
                        return result;
                    },
                    LineScan::Continues { lower: raised, best, line } => {
                        lower = raised;
                        best_score = best;
                        best_previous_moves = line;
                    },
                }
            },
            None => {},
        }
        i = i + 1;
    }
    match best_score {
        Some(score) => Some((score, best_previous_moves)),
        None => Some((evaluate(fen_str) - depth as i64, Vec::new())),
    }
}

/// How an ordered pass over the root stands after one successor: the lower
/// bound, the move that raised it last, and the line behind it.
///
/// An aborted successor ends the pass with the abort: `None`, and nothing
/// of the pass is kept. A score above the lower bound raises it and makes
/// the successor the move of the pass; any other score changes nothing.
pub fn after_ordered_successor(
    child: Option<(i64, Vec<Move>)>,
    index: usize,
    mv: Move,
    alpha: i64,
    best: Vec<usize>,
    line: Vec<Move>,
) -> (r: Option<(i64, Vec<usize>, Vec<Move>)>)
    requires
        child matches Some(found) ==> found.0 > i64::MIN,
    ensures
        child is None ==> r is None,
        child is Some ==> r is Some,
        child matches Some(found) ==> (r matches Some(next) ==> (if -found.0 > alpha {
            next.0 == -found.0 && next.1@ == seq![index] && next.2@ == found.1@.push(mv)
        } else {
            next.0 == alpha && next.1@ == best@ && next.2@ == line@
        })),
{
    match child {
        None => None,
        Some(found) => {
            let score = -found.0;
            let mut prev_moves = found.1;
            if score > alpha {
                let mut raised: Vec<usize> = Vec::new();
                raised.push(index);
                prev_moves.push(mv);
                assert(raised@ =~= seq![index]);
                Some((score, raised, prev_moves))
            } else {
                Some((alpha, best, line))
            }
        },
    }
}

/// The root of one ordered pass after the first `n` moves of `order`: the
/// lower bound they have raised and the move that raised it last, by its
/// index among the legal moves.
pub open spec fn ordered_root_pass(
    successors: Seq<Option<Seq<char>>>,
    order: Seq<usize>,
    depth: nat,
    n: nat,
) -> (int, Seq<usize>)
    decreases n,
{
    if n == 0 || n > order.len() {
        (-WINDOW as int, Seq::empty())
    } else {
        let (alpha, best) = ordered_root_pass(successors, order, depth, (n - 1) as nat);
        match usable(successors[order[n - 1] as int]) {
            None => (alpha, best),
            Some(child) => {
                let score = -alpha_beta(child, depth, -WINDOW as int, -alpha, true, Map::empty());
                if score > alpha {
                    (score, seq![order[n - 1]])
                } else {
                    (alpha, best)
                }
            },
        }
    }
}

/// The move that the pass at `depth` selects, each pass trying first what
/// the pass before it selected.
pub open spec fn ordered_choice(fen: Seq<char>, depth: nat) -> Seq<usize>
    decreases depth,
{
    let favoured = if depth == 0 {
        None
    } else {
        Some(legal_moves_of(fen)[ordered_choice(fen, (depth - 1) as nat)[0] as int])
    };
    ordered_root_pass(
        successors_of(fen),
        search_order_of(legal_moves_of(fen), favoured, legal_moves_of(fen).len()),
        depth,
        legal_moves_of(fen).len(),
    ).1
}

/// The root of an ordered pass holds one move at most.
proof fn lemma_ordered_root_holds_one_move(
    successors: Seq<Option<Seq<char>>>,
    order: Seq<usize>,
    depth: nat,
    n: nat,
)
    ensures
        ordered_root_pass(successors, order, depth, n).1.len() <= 1,
    decreases n,
{
    if n == 0 || n > order.len() {
    } else {
        lemma_ordered_root_holds_one_move(successors, order, depth, (n - 1) as nat);
    }
}

/// The move of a completed ordered pass is settled by the position and the
/// depth of the pass: no draw can change it.
pub proof fn lemma_ordered_move_is_settled(
    fen: Seq<char>,
    depth: nat,
    sans: Seq<Seq<char>>,
    one: Seq<char>,
    other: Seq<char>,
)
    requires
        is_candidate(one, sans, ordered_choice(fen, depth)),
        is_candidate(other, sans, ordered_choice(fen, depth)),
    ensures
        one == other,
{
    let favoured = if depth == 0 {
        None
    } else {
        Some(legal_moves_of(fen)[ordered_choice(fen, (depth - 1) as nat)[0] as int])
    };
    lemma_ordered_root_holds_one_move(
        successors_of(fen),
        search_order_of(legal_moves_of(fen), favoured, legal_moves_of(fen).len()),
        depth,
        legal_moves_of(fen).len(),
    );
    let held = ordered_choice(fen, depth);
    let j = choose|j: int| 0 <= j < held.len() && one == #[trigger] chosen(sans, held, j);
    let k = choose|k: int| 0 <= k < held.len() && other == #[trigger] chosen(sans, held, k);
    assert(j == k);
}

/// Whether `mov` is what a completed ordered pass at some depth selects.
pub open spec fn ordered_deepened_choice(fen: Seq<char>, mov: Seq<char>) -> bool {
    exists|depth: nat|
        depth <= MAX_DEPTH && is_candidate(mov, sans_of(fen), #[trigger] ordered_choice(fen, depth))
}

/// One pass over the root at `depth`, through the moves in `order`.
/// Returns the move that raised the lower bound last together with the
/// line of play behind it, or `None` if the deadline interrupted the pass.
pub fn ordered_pass(
    successors: &Vec<Option<String>>,
    moves: &Vec<Move>,
    order: &Vec<usize>,
    seed: u64,
    depth: u64,
    deadline: &Option<Deadline>,
) -> (r: Option<(Vec<usize>, Vec<Move>)>)
    requires
        moves@.len() == successors@.len(),
        order@.len() == successors@.len(),
        forall|k: int| 0 <= k < order@.len() ==> (#[trigger] order@[k]) < successors@.len(),
        exists|k: int|
            0 <= k < order@.len() && (#[trigger] usable(
                texts_of(successors@)[order@[k] as int],
            )) is Some,
        depth <= MAX_DEPTH,
    ensures
        deadline is None ==> r is Some,
        r matches Some(found) ==> found.0@ == ordered_root_pass(
            texts_of(successors@),
            order@,
            depth as nat,
            order@.len(),
        ).1,
        r matches Some(found) ==> found.0@.len() == 1 && candidates_in_range(
            found.0@,
            successors@.len() as nat,
        ),
        r matches Some(found) ==> found.1@.len() > 0,
        r matches Some(found) ==> found.1@.last() == moves@[found.0@[0] as int],
{
    let mut new_best_moves: Vec<usize> = Vec::new();
    let mut best_prev_moves: Vec<Move> = Vec::new();
    let mut alpha: i64 = -WINDOW;
    let beta: i64 = WINDOW;
    let mut i: usize = 0;
    while i < order.len()
        invariant
            i <= order@.len(),
            moves@.len() == successors@.len(),
            order@.len() == successors@.len(),
            forall|k: int| 0 <= k < order@.len() ==> (#[trigger] order@[k]) < successors@.len(),
            depth <= MAX_DEPTH,
            beta == WINDOW,
            -WINDOW <= alpha < WINDOW,
            new_best_moves@.len() <= 1,
            candidates_in_range(new_best_moves@, successors@.len() as nat),
            new_best_moves@.len() == 0 ==> alpha == -WINDOW,
            new_best_moves@.len() == 0 ==> forall|k: int|
                0 <= k < i ==> (#[trigger] usable(texts_of(successors@)[order@[k] as int])) is None,
            new_best_moves@.len() == 1 ==> best_prev_moves@.len() > 0 && best_prev_moves@.last()
                == moves@[new_best_moves@[0] as int],
            ordered_root_pass(texts_of(successors@), order@, depth as nat, i as nat) == (
                alpha as int,
                new_best_moves@,
            ),
        decreases order.len() - i,
    {
        let index = order[i];
        match child_at(successors, index) {
            Some(child) => {
                let below = iterative_deepening(
                    child.as_str(),
                    seed,
                    depth,
                    -beta,
                    -alpha,
                    deadline,
                );
                let step = after_ordered_successor(
                    below,
                    index,
                    moves[index],
                    alpha,
                    new_best_moves,
                    best_prev_moves,
                );
                match step {
                    None => {
                        return None;
                    },
                    Some(next) => {
                        alpha = next.0;
                        new_best_moves = next.1;
                        best_prev_moves = next.2;
                    },
                }
            },
            None => {},
        }
        i = i + 1;
    }
    Some((new_best_moves, best_prev_moves))
}

/// Where the ordered deepening stands: the depth of the last completed
/// pass, the move that pass selected with the line behind it, and whether
/// another pass may follow.
#[derive(Debug)]
pub struct OrderedDeepening {
    pub reached: u64,
    pub best: Vec<usize>,
    pub line: Vec<Move>,
    pub searching: bool,
}

/// Where the ordered deepening stands after the pass at `depth`, given what
/// the pass returned.
///
/// A completed pass is the last completed pass from now on: its depth, move
/// and line replace those before. An interrupted pass is discarded: they
/// stay as they were, and the deepening is over.
pub fn after_ordered_pass(
    state: OrderedDeepening,
    depth: u64,
    pass: Option<(Vec<usize>, Vec<Move>)>,
) -> (next: OrderedDeepening)
    ensures
        pass matches Some(found) ==> next.reached == depth && next.best@ == found.0@ && next.line@
            == found.1@ && next.searching,
        pass is None ==> next.reached == state.reached && next.best@ == state.best@ && next.line@
            == state.line@ && !next.searching,
{
    match pass {
        Some(found) => OrderedDeepening {
            reached: depth,
            best: found.0,
            line: found.1,
            searching: true,
        },
        None => OrderedDeepening {
            reached: state.reached,
            best: state.best,
            line: state.line,
            searching: false,
        },
    }
}

/// One round of the ordered deepening, given the clock's answer: `go_on`
/// says whether time is left.
///
/// Without time left no pass is started: depth, move and line stay as they
/// were, and the deepening is over. With time left the pass at `depth` is
/// run, starting from the last move of the line so far, and
/// `after_ordered_pass` decides on what it returns.
pub fn ordered_round(
    go_on: bool,
    successors: &Vec<Option<String>>,
    legals: &Vec<Move>,
    seed: u64,
    depth: u64,
    deadline: &Option<Deadline>,
    state: OrderedDeepening,
) -> (next: OrderedDeepening)
    requires
        legals@.len() == successors@.len(),
        exists|k: int|
            0 <= k < successors@.len() && (#[trigger] usable(texts_of(successors@)[k])) is Some,
        depth <= MAX_DEPTH,
        state.line@.len() > 0,
    ensures
        !go_on ==> !next.searching,
        go_on && deadline is None ==> next.searching,
        next.searching ==> next.reached == depth && next.best@ == ordered_root_pass(
            texts_of(successors@),
            search_order_of(legals@, Some(state.line@.last()), legals@.len()),
            depth as nat,
            legals@.len(),
        ).1,
        next.searching ==> next.best@.len() == 1 && candidates_in_range(
            next.best@,
            successors@.len() as nat,
        ),
        next.searching ==> next.line@.len() > 0,
        next.searching ==> next.line@.last() == legals@[next.best@[0] as int],
        !next.searching ==> next.reached == state.reached && next.best@ == state.best@
            && next.line@ == state.line@,
{
    if go_on {
        // starting from the last best move
        let last_best_move = Some(state.line[state.line.len() - 1]);
        let order = search_order(legals, &last_best_move);
        let count = successors.len();
        proof {
            let k = choose|k: int|
                0 <= k < count && (#[trigger] usable(texts_of(successors@)[k])) is Some;
            lemma_order_reaches(
                order@,
                texts_of(successors@),
                legals@,
                last_best_move,
                k as usize,
            );
        }
        let pass = ordered_pass(successors, legals, &order, seed, depth, deadline);
        after_ordered_pass(state, depth, pass)
    } else {
        OrderedDeepening {
            reached: state.reached,
            best: state.best,
            line: state.line,
            searching: false,
        }
    }
}

/// Chooses a move for the side to move in `fen_str` within about `max_time`
/// milliseconds and returns it in standard algebraic notation.
///
/// The first pass searches every successor with quiescence search alone and
/// is always completed, so there is an answer even with no time at all. Each
/// further pass searches one ply deeper, as long as time is left, and tries
/// first the move at the end of the line that the pass before found, which
/// is the move it selected. A pass that the deadline interrupts is
/// discarded.
pub fn root(fen_str: &str, seed: u64, max_time: u64) -> (mov: String)
    requires
        valid_position(fen_str@),
        playable(fen_str@),
    ensures
        ordered_deepened_choice(fen_str@, mov@),
        max_time == 0 ==> is_candidate(mov@, sans_of(fen_str@), ordered_choice(fen_str@, 0)),
{
    let deadline = Some(Deadline::starting_now(max_time));
    let successors = position_successors(fen_str);
    let legals = legal_moves(fen_str);
    let first_order = search_order(&legals, &None);
    proof {
        let k = choose|k: int|
            0 <= k < successors_of(fen_str@).len() && (#[trigger] usable(
                successors_of(fen_str@)[k],
            )) is Some;
        assert(usable(texts_of(successors@)[k]) is Some);
        lemma_order_reaches(first_order@, texts_of(successors@), legals@, None, k as usize);
    }
    let first = match ordered_pass(&successors, &legals, &first_order, seed, 0, &None) {
        Some(first) => first,
        None => unreached(),
    };
    let mut state = OrderedDeepening {
        reached: 0,
        best: first.0,
        line: first.1,
        searching: true,
    };
    let mut depth: u64 = 1;
    while state.searching && depth <= MAX_DEPTH
        invariant
            1 <= depth <= MAX_DEPTH + 1,
            state.reached <= MAX_DEPTH,
            deadline matches Some(d) && d.max_time == max_time,
            max_time == 0 ==> state.reached == 0,
            texts_of(successors@) == successors_of(fen_str@),
            legals@ == legal_moves_of(fen_str@),
            legals@.len() == successors@.len(),
            successors@.len() == moves_of(fen_str@).len(),
            exists|k: int|
                0 <= k < successors@.len() && (#[trigger] usable(texts_of(successors@)[k])) is Some,
            state.best@ == ordered_choice(fen_str@, state.reached as nat),
            state.best@.len() == 1,
            candidates_in_range(state.best@, successors@.len() as nat),
            state.line@.len() > 0,
            state.line@.last() == legals@[state.best@[0] as int],
            state.searching ==> state.reached + 1 == depth,
        decreases
                (if state.searching {
                    1int
                } else {
                    0int
                }),
                MAX_DEPTH + 1 - depth,
    {
        let go_on = may_continue(&deadline);
        state = ordered_round(go_on, &successors, &legals, seed, depth, &deadline, state);
        if state.searching {
            depth = depth + 1;
        }
    }
    let sans = position_sans(fen_str);
    let mov = break_tie(&sans, &state.best, seed);
    assert(is_candidate(mov@, sans_of(fen_str@), ordered_choice(fen_str@, state.reached as nat)));
    mov
}

/// A search order goes through every move, so it reaches a successor that
/// can be searched if there is one.
proof fn lemma_order_reaches(
    order: Seq<usize>,
    successors: Seq<Option<Seq<char>>>,
    moves: Seq<Move>,
    favoured: Option<Move>,
    k: usize,
)
    requires
        is_search_order(order, moves, favoured),
        moves.len() == successors.len(),
        k < successors.len(),
        usable(successors[k as int]) is Some,
    ensures
        exists|t: int|
            0 <= t < order.len() && (#[trigger] usable(successors[order[t] as int])) is Some,
{
    assert(order.contains(k));
    let t = choose|t: int| 0 <= t < order.len() && order[t] == k;
    assert(usable(successors[order[t] as int]) is Some);
}

} // verus!
