//! Iterative deepening with a memo table: each pass files the score of
//! every successor of the root, and every search below consults the table.

use vstd::prelude::*;
use vstd::pervasive::unreached;
use crate::algorithms::hashtable::{Entry, HashTable, PositionInfo};
use crate::algorithms::iterative_deepening::{after_pass, Deepening};
use crate::algorithms::negamax_a_b_table::{filed, starting_entries};
use crate::algorithms::tree::{
    after_root_successor, alpha_beta, child_at, negamax_a_b, playable, quiescence, usable,
    MAX_DEPTH, WINDOW,
};
use crate::clock::{may_continue, Deadline};
use crate::rules::{
    lines_of, moves_of, position_sans, position_successors, sans_of, successors_of,
    texts_of, valid_position, zobrist_of,
};
use crate::tiebreak::{break_tie, candidates_in_range, is_candidate};
use crate::utils::MoveAndTable;

verus! {

/// The root of one pass after the first `n` successors: the lower bound
/// they have raised, the move that raised it last, and the table. Each
/// successor is searched `depth` plies deep with the table as it stands,
/// and its score is then filed under its hash.
pub open spec fn recorded_root_pass(
    successors: Seq<Option<Seq<char>>>,
    sans: Seq<Seq<char>>,
    depth: nat,
    n: nat,
    table: Map<u64, Entry>,
) -> (int, Seq<usize>, Map<u64, Entry>)
    decreases n,
{
    if n == 0 || n > successors.len() {
        (-WINDOW as int, Seq::empty(), table)
    } else {
        let before = recorded_root_pass(successors, sans, depth, (n - 1) as nat, table);
        let (alpha, best, seen) = before;
        match usable(successors[n - 1]) {
            None => (alpha, best, seen),
            Some(child) => {
                let value = alpha_beta(child, depth, -WINDOW as int, -alpha, true, seen);
                let next = seen.insert(zobrist_of(child), filed(depth, value, sans[n - 1]));
                if -value > alpha {
                    (-value, seq![(n - 1) as usize], next)
                } else {
                    (alpha, best, next)
                }
            },
        }
    }
}

/// The table after `passes` completed passes, at the depths from 0 up.
pub open spec fn deepened_table(
    successors: Seq<Option<Seq<char>>>,
    sans: Seq<Seq<char>>,
    passes: nat,
    table: Map<u64, Entry>,
) -> Map<u64, Entry>
    decreases passes,
{
    if passes == 0 {
        table
    } else {
        recorded_root_pass(
            successors,
            sans,
            (passes - 1) as nat,
            successors.len(),
            deepened_table(successors, sans, (passes - 1) as nat, table),
        ).2
    }
}

/// What iterative deepening with a table hands back: the move that the
/// last completed pass selects, at some depth, and the table as that pass
/// left it, or as a further, interrupted pass left it after some of the
/// successors.
pub open spec fn deepened_result(
    fen: Seq<char>,
    table: Map<u64, Entry>,
    mov: Seq<char>,
    after: Map<u64, Entry>,
) -> bool {
    exists|depth: nat, n: nat|
        {
            &&& depth <= MAX_DEPTH
            &&& n <= successors_of(fen).len()
            &&& is_candidate(
                mov,
                sans_of(fen),
                (#[trigger] recorded_root_pass(
                    successors_of(fen),
                    sans_of(fen),
                    depth,
                    successors_of(fen).len(),
                    deepened_table(successors_of(fen), sans_of(fen), depth, table),
                )).1,
            )
            &&& after == (#[trigger] recorded_root_pass(
                successors_of(fen),
                sans_of(fen),
                depth + 1,
                n,
                deepened_table(successors_of(fen), sans_of(fen), depth + 1, table),
            )).2
        }
}

/// What the first pass alone hands back: the move it selects and the table
/// as it left it.
pub open spec fn first_pass_result(
    fen: Seq<char>,
    table: Map<u64, Entry>,
    mov: Seq<char>,
    after: Map<u64, Entry>,
) -> bool {
    let (_, best, seen) = recorded_root_pass(
        successors_of(fen),
        sans_of(fen),
        0,
        successors_of(fen).len(),
        table,
    );
    is_candidate(mov, sans_of(fen), best) && after == seen
}

/// One pass over the root at `depth`. Returns the move that raised the
/// lower bound last, or `None` if the deadline interrupted the pass; the
/// table then holds what the pass had filed by then.
pub fn recorded_pass(
    successors: &Vec<Option<String>>,
    sans: &Vec<String>,
    seed: u64,
    depth: u64,
    deadline: &Option<Deadline>,
    table: &mut HashTable,
) -> (r: Option<Vec<usize>>)
    requires
        sans@.len() == successors@.len(),
        exists|k: int|
            0 <= k < successors@.len() && (#[trigger] usable(texts_of(successors@)[k])) is Some,
        depth <= MAX_DEPTH,
    ensures
        deadline is None ==> r is Some,
        r matches Some(best) ==> best@ == recorded_root_pass(
            texts_of(successors@),
            lines_of(sans@),
            depth as nat,
            successors@.len() as nat,
            old(table)@,
        ).1,
        r matches Some(best) ==> final(table)@ == recorded_root_pass(
            texts_of(successors@),
            lines_of(sans@),
            depth as nat,
            successors@.len() as nat,
            old(table)@,
        ).2,
        r matches Some(best) ==> best@.len() > 0,
        r matches Some(best) ==> candidates_in_range(best@, successors@.len() as nat),
        r is None ==> exists|n: nat|
            n <= successors@.len() && final(table)@ == (#[trigger] recorded_root_pass(
                texts_of(successors@),
                lines_of(sans@),
                depth as nat,
                n,
                old(table)@,
            )).2,
{
    let mut best: Vec<usize> = Vec::new();
    let mut alpha: i64 = -WINDOW;
    let beta: i64 = WINDOW;
    let mut i: usize = 0;
    while i < successors.len()
        invariant
            i <= successors@.len(),
            sans@.len() == successors@.len(),
            depth <= MAX_DEPTH,
            beta == WINDOW,
            -WINDOW <= alpha < WINDOW,
            candidates_in_range(best@, i as nat),
            best@.len() == 0 ==> alpha == -WINDOW,
            best@.len() == 0 ==> forall|k: int|
                0 <= k < i ==> (#[trigger] usable(texts_of(successors@)[k])) is None,
            recorded_root_pass(
                texts_of(successors@),
                lines_of(sans@),
                depth as nat,
                i as nat,
                old(table)@,
            ) == (alpha as int, best@, table@),
        decreases successors.len() - i,
    {
        match child_at(successors, i) {
            Some(child) => {
                // a score is strictly inside the root window: never a cutoff here
                let below = negamax_a_b(
                    child.as_str(),
                    seed,
                    depth,
                    -beta,
                    -alpha,
                    true,
                    deadline,
                    Some(&*table),
                );
                if let Some(value) = below {
                    let info = PositionInfo::new(depth, value, sans[i].clone());
                    table.insert(child.as_str(), info);
                }
                match after_root_successor(below, i, alpha, best) {
                    None => {
                        return None;
                    },
                    Some(next) => {
                        alpha = next.0;
                        best = next.1;
                    },
                }
            },
            None => {},
        }
        i = i + 1;
    }
    Some(best)
}

/// The quiescent score of `fen_str` within the window `(alpha, beta)`.
pub fn quiescent_search(fen_str: &str, alpha: i64, beta: i64) -> (score: i64)
    requires
        valid_position(fen_str@),
        alpha > i64::MIN,
        beta > i64::MIN,
    ensures
        score == quiescence(fen_str@, alpha as int, beta as int),
{
    crate::algorithms::negamax_a_b_quiescent::quiescent_search(fen_str, alpha, beta)
}

/// One round of the deepening with a table, given the clock's answer:
/// `go_on` says whether time is left.
///
/// Without time left no pass is started: depth, move and table stay as they
/// were, and the deepening is over. With time left the pass at `depth` is
/// run, and `after_pass` decides on what it returns: a completed pass is
/// the last completed pass from now on, an interrupted one is discarded but
/// for what it filed.
pub fn recorded_round(
    go_on: bool,
    successors: &Vec<Option<String>>,
    sans: &Vec<String>,
    seed: u64,
    depth: u64,
    deadline: &Option<Deadline>,
    table: &mut HashTable,
    state: Deepening,
) -> (next: Deepening)
    requires
        sans@.len() == successors@.len(),
        exists|k: int|
            0 <= k < successors@.len() && (#[trigger] usable(texts_of(successors@)[k])) is Some,
        depth <= MAX_DEPTH,
    ensures
        !go_on ==> !next.searching && final(table)@ == old(table)@,
        go_on && deadline is None ==> next.searching,
        next.searching ==> next.reached == depth && next.best@ == recorded_root_pass(
            texts_of(successors@),
            lines_of(sans@),
            depth as nat,
            successors@.len() as nat,
            old(table)@,
        ).1,
        next.searching ==> final(table)@ == recorded_root_pass(
            texts_of(successors@),
            lines_of(sans@),
            depth as nat,
            successors@.len() as nat,
            old(table)@,
        ).2,
        next.searching ==> next.best@.len() > 0 && candidates_in_range(
            next.best@,
            successors@.len() as nat,
        ),
        !next.searching ==> next.reached == state.reached && next.best@ == state.best@,
        !next.searching ==> exists|n: nat|
            n <= successors@.len() && final(table)@ == (#[trigger] recorded_root_pass(
                texts_of(successors@),
                lines_of(sans@),
                depth as nat,
                n,
                old(table)@,
            )).2,
{
    if go_on {
        let pass = recorded_pass(successors, sans, seed, depth, deadline, table);
        after_pass(state, depth, pass)
    } else {
        assert(table@ == recorded_root_pass(
            texts_of(successors@),
            lines_of(sans@),
            depth as nat,
            0,
            table@,
        ).2);
        Deepening { reached: state.reached, best: state.best, searching: false }
    }
}

/// Chooses a move for the side to move in `fen_str` within about `max_time`
/// milliseconds, with a memo table that is handed back together with the
/// move. Without a table the search starts with an empty one.
///
/// The first pass searches every successor with quiescence search alone and
/// is always completed, so there is an answer even with no time at all. Each
/// further pass searches one ply deeper, as long as time is left. A pass
/// that the deadline interrupts is discarded, but what it filed stays in the
/// table.
pub fn root(fen_str: &str, seed: u64, max_time: u64, table: Option<HashTable>) -> (result:
    MoveAndTable)
    requires
        valid_position(fen_str@),
        playable(fen_str@),
    ensures
        deepened_result(fen_str@, starting_entries(table), result.mov@, result.table@),
        max_time == 0 ==> first_pass_result(
            fen_str@,
            starting_entries(table),
            result.mov@,
            result.table@,
        ),
{
    let ghost start = starting_entries(table);
    let mut table = match table {
        Some(t) => t,
        None => HashTable::new(),
    };
    let deadline = Some(Deadline::starting_now(max_time));
    let successors = position_successors(fen_str);
    let sans = position_sans(fen_str);
    proof {
        let k = choose|k: int|
            0 <= k < successors_of(fen_str@).len() && (#[trigger] usable(
                successors_of(fen_str@)[k],
            )) is Some;
        assert(usable(texts_of(successors@)[k]) is Some);
    }
    let first = match recorded_pass(&successors, &sans, seed, 0, &None, &mut table) {
        Some(first) => first,
        None => unreached(),
    };
    let mut state = Deepening { reached: 0, best: first, searching: true };
    let ghost mut partial: nat = 0;
    let mut depth: u64 = 1;
    assert(table@ == deepened_table(successors_of(fen_str@), sans_of(fen_str@), 1, start)) by {
        assert(deepened_table(successors_of(fen_str@), sans_of(fen_str@), 0, start) == start);
    }
    while state.searching && depth <= MAX_DEPTH
        invariant
            1 <= depth <= MAX_DEPTH + 1,
            state.reached <= MAX_DEPTH,
            deadline matches Some(d) && d.max_time == max_time,
            max_time == 0 ==> state.reached == 0 && partial == 0,
            partial <= successors@.len(),
            texts_of(successors@) == successors_of(fen_str@),
            lines_of(sans@) == sans_of(fen_str@),
            sans@.len() == successors@.len(),
            successors@.len() == moves_of(fen_str@).len(),
            exists|k: int|
                0 <= k < successors@.len() && (#[trigger] usable(texts_of(successors@)[k])) is Some,
            state.best@ == recorded_root_pass(
                successors_of(fen_str@),
                sans_of(fen_str@),
                state.reached as nat,
                successors_of(fen_str@).len(),
                deepened_table(
                    successors_of(fen_str@),
                    sans_of(fen_str@),
                    state.reached as nat,
                    start,
                ),
            ).1,
            state.best@.len() > 0,
            candidates_in_range(state.best@, successors@.len() as nat),
            state.searching ==> state.reached + 1 == depth && partial == 0,
            table@ == recorded_root_pass(
                successors_of(fen_str@),
                sans_of(fen_str@),
                (state.reached + 1) as nat,
                partial,
                deepened_table(
                    successors_of(fen_str@),
                    sans_of(fen_str@),
                    (state.reached + 1) as nat,
                    start,
                ),
            ).2,
        decreases
                (if state.searching {
                    1int
                } else {
                    0int
                }),
                MAX_DEPTH + 1 - depth,
    {
        let ghost before = table@;
        let go_on = may_continue(&deadline);
        state = recorded_round(
            go_on,
            &successors,
            &sans,
            seed,
            depth,
            &deadline,
            &mut table,
            state,
        );
        if state.searching {
            proof {
                partial = 0;
            }
            depth = depth + 1;
        } else if go_on {
            proof {
                let n = choose|n: nat|
                    n <= successors@.len() && table@ == (#[trigger] recorded_root_pass(
                        texts_of(successors@),
                        lines_of(sans@),
                        depth as nat,
                        n,
                        before,
                    )).2;
                partial = n;
            }
        }
    }
    let mov = break_tie(&sans, &state.best, seed);
    MoveAndTable::new(mov, table)
}

} // verus!
