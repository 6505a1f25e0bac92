//! Iterative deepening: alpha-beta search with quiescence search, repeated
//! one ply deeper each time until the time budget is spent.

use vstd::prelude::*;
use vstd::pervasive::unreached;
use crate::algorithms::tree::{best_moves, playable, root_candidates, MAX_DEPTH};
use crate::clock::{may_continue, Deadline};
use crate::rules::{moves_of, position_sans, sans_of, valid_position};
use crate::tiebreak::{break_tie, candidates_in_range, is_candidate};

verus! {

/// Whether `mov` is what a completed pass at some depth selects.
pub open spec fn deepened_choice(fen: Seq<char>, mov: Seq<char>) -> bool {
    exists|depth: nat|
        depth <= MAX_DEPTH && is_candidate(
            mov,
            sans_of(fen),
            #[trigger] root_candidates(fen, depth, true),
        )
}

/// Where iterative deepening stands: the depth of the last completed pass,
/// the move that pass selected, and whether another pass may follow.
#[derive(Debug)]
pub struct Deepening {
    pub reached: u64,
    pub best: Vec<usize>,
    pub searching: bool,
}

/// Where the deepening stands after the pass at `depth`, given what the
/// pass returned.
///
/// A completed pass is the last completed pass from now on: its depth and
/// its move replace those before. An interrupted pass is discarded: depth
/// and move stay as they were, and the deepening is over.
pub fn after_pass(state: Deepening, depth: u64, pass: Option<Vec<usize>>) -> (next: Deepening)
    ensures
        pass matches Some(best) ==> next.reached == depth && next.best@ == best@ && next.searching,
        pass is None ==> next.reached == state.reached && next.best@ == state.best@
            && !next.searching,
{
    match pass {
        Some(best) => Deepening { reached: depth, best, searching: true },
        None => Deepening { reached: state.reached, best: state.best, searching: false },
    }
}

/// One round of the deepening, given the clock's answer: `go_on` says
/// whether time is left.
///
/// Without time left no pass is started: depth and move stay as they were,
/// and the deepening is over. With time left the pass at `depth` is run,
/// and `after_pass` decides on what it returns.
pub fn deepening_round(
    go_on: bool,
    fen: &str,
    seed: u64,
    depth: u64,
    deadline: &Option<Deadline>,
    state: Deepening,
) -> (next: Deepening)
    requires
        valid_position(fen@),
        playable(fen@),
        depth <= MAX_DEPTH,
    ensures
        !go_on ==> !next.searching,
        go_on && deadline is None ==> next.searching,
        next.searching ==> next.reached == depth && next.best@ == root_candidates(
            fen@,
            depth as nat,
            true,
        ),
        next.searching ==> next.best@.len() > 0 && candidates_in_range(
            next.best@,
            moves_of(fen@).len(),
        ),
        !next.searching ==> next.reached == state.reached && next.best@ == state.best@,
{
    if go_on {
        after_pass(state, depth, best_moves(fen, seed, depth, true, deadline))
    } else {
        Deepening { reached: state.reached, best: state.best, searching: false }
    }
}

/// Deepens the search of `fen` within about `max_time` milliseconds and
/// returns the depth of the last completed pass with the move it selected.
///
/// The first pass searches every successor with quiescence search alone and
/// is always completed, so there is an answer even with no time at all. Each
/// further pass searches one ply deeper, as long as time is left. A pass
/// that the deadline interrupts is discarded.
pub fn deepen(fen: &str, seed: u64, max_time: u64) -> (end: Deepening)
    requires
        valid_position(fen@),
        playable(fen@),
    ensures
        end.reached <= MAX_DEPTH,
        end.best@ == root_candidates(fen@, end.reached as nat, true),
        end.best@.len() > 0,
        candidates_in_range(end.best@, moves_of(fen@).len()),
        max_time == 0 ==> end.reached == 0,
{
    let deadline = Some(Deadline::starting_now(max_time));
    let first = match best_moves(fen, seed, 0, true, &None) {
        Some(first) => first,
        None => unreached(),
    };
    let mut state = Deepening { reached: 0, best: first, searching: true };
    let mut depth: u64 = 1;
    while state.searching && depth <= MAX_DEPTH
        invariant
            valid_position(fen@),
            playable(fen@),
            1 <= depth <= MAX_DEPTH + 1,
            state.reached <= MAX_DEPTH,
            deadline matches Some(d) && d.max_time == max_time,
            max_time == 0 ==> state.reached == 0,
            state.searching ==> state.reached + 1 == depth,
            state.best@ == root_candidates(fen@, state.reached as nat, true),
            state.best@.len() > 0,
            candidates_in_range(state.best@, moves_of(fen@).len()),
        decreases
                (if state.searching {
                    1int
                } else {
                    0int
                }),
                MAX_DEPTH + 1 - depth,
    {
        let go_on = may_continue(&deadline);
        state = deepening_round(go_on, fen, seed, depth, &deadline, state);
        if state.searching {
            depth = depth + 1;
        }
    }
    state
}

/// Chooses a move for the side to move in `fen_str` within about `max_time`
/// milliseconds and returns it in standard algebraic notation: the move of
/// the last completed pass of `deepen`.
pub fn root(fen_str: &str, seed: u64, max_time: u64) -> (mov: String)
    requires
        valid_position(fen_str@),
        playable(fen_str@),
    ensures
        deepened_choice(fen_str@, mov@),
        max_time == 0 ==> is_candidate(mov@, sans_of(fen_str@), root_candidates(fen_str@, 0, true)),
{
    let end = deepen(fen_str, seed, max_time);
    let sans = position_sans(fen_str);
    let mov = break_tie(&sans, &end.best, seed);
    let ghost selected = root_candidates(fen_str@, end.reached as nat, true);
    assert(is_candidate(mov@, sans_of(fen_str@), selected));
    mov
}

} // verus!
