//! Negamax with alpha-beta pruning that files what it finds in a memo table
//! and hands the table back.

use vstd::prelude::*;
use crate::algorithms::hashtable::{lookup, Entry, HashTable, PositionInfo};
use crate::algorithms::tree::{
    alpha_beta, alpha_beta_scan, child_at, memo, playable, remembered, root_pass, usable,
    MAX_DEPTH, WINDOW,
};
use crate::evaluate::{evaluate, evaluation};
use crate::rules::{
    lines_of, moves_of, position_sans, position_successors, sans_of, successors_of, texts_of,
    valid_position, zobrist_of,
};
use crate::tiebreak::{
    candidates_in_range, choose_move, chosen, draw_below, draw_seed, is_candidate,
    seeded_generator,
};
use crate::utils::MoveAndTable;

verus! {

/// The entry filed for a position that was searched `depth` plies deep with
/// the result `score`, reached by the move `mov`.
pub open spec fn filed(depth: nat, score: int, mov: Seq<char>) -> Entry {
    Entry { depth: depth as u64, score: score as i64, mov }
}

/// The table after an alpha-beta search of `fen`: every successor that was
/// searched has its own score filed under its hash, with the depth it was
/// searched to and the move that leads to it.
pub open spec fn filled(
    fen: Seq<char>,
    depth: nat,
    alpha: int,
    beta: int,
    table: Map<u64, Entry>,
) -> Map<u64, Entry>
    decreases depth, 1 + successors_of(fen).len(),
{
    if depth == 0 {
        table
    } else {
        filled_scan(successors_of(fen), sans_of(fen), depth, 0, alpha, beta, table)
    }
}

/// The table after the search of an inner node has gone through the
/// successors from the `i`-th on, starting from `table` with the lower bound
/// at `alpha`.
pub open spec fn filled_scan(
    successors: Seq<Option<Seq<char>>>,
    sans: Seq<Seq<char>>,
    depth: nat,
    i: nat,
    alpha: int,
    beta: int,
    table: Map<u64, Entry>,
) -> Map<u64, Entry>
    decreases depth, successors.len() - i,
{
    if depth == 0 || i >= successors.len() {
        table
    } else {
        match usable(successors[i as int]) {
            None => filled_scan(successors, sans, depth, i + 1, alpha, beta, table),
            Some(child) => {
                let deep = (depth - 1) as nat;
                let value = alpha_beta(child, deep, -beta, -alpha, false, Map::empty());
                let below = filled(child, deep, -beta, -alpha, table);
                let next = below.insert(
                    zobrist_of(child),
                    filed(deep, value, sans[i as int]),
                );
                if -value >= beta {
                    next
                } else if -value > alpha {
                    filled_scan(successors, sans, depth, i + 1, -value, beta, next)
                } else {
                    filled_scan(successors, sans, depth, i + 1, alpha, beta, next)
                }
            },
        }
    }
}

/// Alpha-beta search of `fen_str`, `depth` plies deep, that files the score
/// of every successor it searches in `table`. The table is written, not
/// read: the score is that of a search without a table.
pub fn negamax_a_b_table(
    fen_str: &str,
    seed: u64,
    depth: u64,
    alpha: i64,
    beta: i64,
    table: &mut HashTable,
) -> (score: i64)
    requires
        valid_position(fen_str@),
        depth <= MAX_DEPTH,
        -WINDOW <= alpha < beta <= WINDOW,
    ensures
        score == alpha_beta(fen_str@, depth as nat, alpha as int, beta as int, false, Map::empty()),
        -WINDOW < score < WINDOW,
        final(table)@ == filled(fen_str@, depth as nat, alpha as int, beta as int, old(table)@),
    decreases depth,
{
    if depth == 0 {
        return evaluate(fen_str);
    }
    let successors = position_successors(fen_str);
    let sans = position_sans(fen_str);
    let ghost goal = alpha_beta_scan(
        successors_of(fen_str@),
        depth as nat,
        0,
        alpha as int,
        beta as int,
        None,
        false,
        Map::empty(),
    );
    let ghost start = table@;
    let ghost goal_table = filled(fen_str@, depth as nat, alpha as int, beta as int, start);
    let mut rng = seeded_generator(seed);
    let mut lower = alpha;
    let mut best_score: Option<i64> = None;
    let mut i: usize = 0;
    while i < successors.len()
        invariant
            i <= successors@.len(),
            0 < depth <= MAX_DEPTH,
            -WINDOW <= lower < beta <= WINDOW,
            best_score matches Some(b) ==> -WINDOW < b < WINDOW,
            texts_of(successors@) == successors_of(fen_str@),
            lines_of(sans@) == sans_of(fen_str@),
            sans@.len() == successors@.len(),
            alpha_beta(fen_str@, depth as nat, alpha as int, beta as int, false, Map::empty())
                == match goal {
                Some(score) => score,
                None => evaluation(fen_str@) - depth,
            },
            alpha_beta_scan(
                successors_of(fen_str@),
                depth as nat,
                i as nat,
                lower as int,
                beta as int,
                match best_score {
                    Some(b) => Some(b as int),
                    None => None,
                },
                false,
                Map::empty(),
            ) == goal,
            start == old(table)@,
            goal_table == filled(fen_str@, depth as nat, alpha as int, beta as int, start),
            filled_scan(
                successors_of(fen_str@),
                sans_of(fen_str@),
                depth as nat,
                i as nat,
                lower as int,
                beta as int,
                table@,
            ) == goal_table,
        decreases successors.len() - i,
    {
        match child_at(&successors, i) {
            Some(child) => {
                let child_seed = draw_seed(&mut rng);
                let value = negamax_a_b_table(
                    child.as_str(),
                    child_seed,
                    depth - 1,
                    -beta,
                    -lower,
                    table,
                );
                let score = -value;
                table.insert(child.as_str(), PositionInfo::new(depth - 1, value, sans[i].clone()));
                if best_score.is_none() || score > best_score.unwrap() {
                    best_score = Some(score);
                }
                if score >= beta {
                    return beta;
                }
                if score > lower {
                    best_score = Some(score);
                    lower = score;
                }
            },
            None => {},
        }
        i = i + 1;
    }
    match best_score {
        Some(score) => score,
        None => evaluate(fen_str) - depth as i64,
    }
}

/// The root of a table-filling search after the first `n` successors: the
/// lower bound they have raised, the move that raised it last, and the
/// table. A successor whose score the table offers at the depth is not
/// searched again.
pub open spec fn tabled_root_pass(
    successors: Seq<Option<Seq<char>>>,
    sans: Seq<Seq<char>>,
    depth: nat,
    n: nat,
    table: Map<u64, Entry>,
) -> (int, Seq<usize>, Map<u64, Entry>)
    decreases n,
{
    if n == 0 || n > successors.len() {
        (-WINDOW as int, Seq::empty(), table)
    } else {
        let (alpha, best, seen) = tabled_root_pass(successors, sans, depth, (n - 1) as nat, table);
        match usable(successors[n - 1]) {
            None => (alpha, best, seen),
            Some(child) => {
                let (value, next) = match memo(seen, child, depth) {
                    Some(known) => (known, seen),
                    None => {
                        let window = -WINDOW as int;
                        let value = alpha_beta(child, depth, window, -alpha, false, Map::empty());
                        (
                            value,
                            filled(child, depth, -WINDOW as int, -alpha, seen).insert(
                                zobrist_of(child),
                                filed(depth, value, sans[n - 1]),
                            ),
                        )
                    },
                };
                if -value > alpha {
                    (-value, seq![(n - 1) as usize], next)
                } else {
                    (alpha, best, next)
                }
            },
        }
    }
}

/// What a table-filling search of `fen` to `depth` plies hands back, given
/// the table it starts with: the remembered move if the table answers for
/// the position itself, else the move selected at the root, with the table
/// as the search left it and the result filed under the position's hash.
/// The score of the root lies strictly inside the root window, so it is
/// filed as it is.
pub open spec fn tabled_result(
    fen: Seq<char>,
    depth: nat,
    table: Map<u64, Entry>,
    mov: Seq<char>,
    after: Map<u64, Entry>,
) -> bool {
    match lookup(table, zobrist_of(fen), depth as u64) {
        Some(entry) => mov == entry.mov && after == table,
        None => {
            let (alpha, best, seen) = tabled_root_pass(
                successors_of(fen),
                sans_of(fen),
                (depth - 1) as nat,
                successors_of(fen).len(),
                table,
            );
            &&& is_candidate(mov, sans_of(fen), best)
            &&& -WINDOW < alpha < WINDOW
            &&& after == seen.insert(zobrist_of(fen), filed(depth, alpha, mov))
        },
    }
}

/// A search that starts with the table an earlier search of the same
/// position handed back, and goes no deeper than that one, returns the same
/// move and leaves the table as it is.
pub proof fn lemma_table_settles_the_move(
    fen: Seq<char>,
    depth: nat,
    again: nat,
    table: Map<u64, Entry>,
    mov: Seq<char>,
    after: Map<u64, Entry>,
    again_mov: Seq<char>,
    again_after: Map<u64, Entry>,
)
    requires
        again <= depth <= MAX_DEPTH,
        tabled_result(fen, depth, table, mov, after),
        tabled_result(fen, again, after, again_mov, again_after),
    ensures
        again_mov == mov,
        again_after == after,
{
    let key = zobrist_of(fen);
    assert(after.contains_key(key) && after[key].mov == mov && after[key].depth >= depth as u64);
}

/// Whether the table answers for none of the first `n` successors of the
/// root when their turn comes.
pub open spec fn unanswered(
    successors: Seq<Option<Seq<char>>>,
    sans: Seq<Seq<char>>,
    depth: nat,
    n: nat,
    table: Map<u64, Entry>,
) -> bool {
    forall|k: int|
        0 <= k < n && k < successors.len() ==> (#[trigger] usable(successors[k]) matches Some(
            child,
        ) ==> memo(
            tabled_root_pass(successors, sans, depth, k as nat, table).2,
            child,
            depth,
        ) is None)
}

/// A table changes the move only through the successors it answers for:
/// while it answers for none, the root follows the search without a table.
pub proof fn lemma_unanswered_table_keeps_the_move(
    successors: Seq<Option<Seq<char>>>,
    sans: Seq<Seq<char>>,
    depth: nat,
    n: nat,
    table: Map<u64, Entry>,
)
    requires
        unanswered(successors, sans, depth, n, table),
    ensures
        tabled_root_pass(successors, sans, depth, n, table).0 == root_pass(
            successors,
            depth,
            n,
            false,
        ).0,
        tabled_root_pass(successors, sans, depth, n, table).1 == root_pass(
            successors,
            depth,
            n,
            false,
        ).1,
    decreases n,
{
    if n == 0 || n > successors.len() {
    } else {
        assert(unanswered(successors, sans, depth, (n - 1) as nat, table));
        lemma_unanswered_table_keeps_the_move(successors, sans, depth, (n - 1) as nat, table);
        assert(usable(successors[n - 1]) matches Some(child) ==> memo(
            tabled_root_pass(successors, sans, depth, (n - 1) as nat, table).2,
            child,
            depth,
        ) is None);
    }
}

/// The root of a table-filling search holds one move at most.
proof fn lemma_tabled_root_holds_one_move(
    successors: Seq<Option<Seq<char>>>,
    sans: Seq<Seq<char>>,
    depth: nat,
    n: nat,
    table: Map<u64, Entry>,
)
    ensures
        tabled_root_pass(successors, sans, depth, n, table).1.len() <= 1,
    decreases n,
{
    if n == 0 || n > successors.len() {
    } else {
        lemma_tabled_root_holds_one_move(successors, sans, depth, (n - 1) as nat, table);
    }
}

/// What a table-filling search hands back is settled by the position, the
/// depth and the table it starts with: no draw can change the move or the
/// table.
pub proof fn lemma_tabled_result_is_settled(
    fen: Seq<char>,
    depth: nat,
    table: Map<u64, Entry>,
    mov: Seq<char>,
    after: Map<u64, Entry>,
    other_mov: Seq<char>,
    other_after: Map<u64, Entry>,
)
    requires
        tabled_result(fen, depth, table, mov, after),
        tabled_result(fen, depth, table, other_mov, other_after),
    ensures
        other_mov == mov,
        other_after == after,
{
    if lookup(table, zobrist_of(fen), depth as u64) is None {
        let n = successors_of(fen).len();
        lemma_tabled_root_holds_one_move(
            successors_of(fen),
            sans_of(fen),
            (depth - 1) as nat,
            n,
            table,
        );
        let pass = tabled_root_pass(successors_of(fen), sans_of(fen), (depth - 1) as nat, n, table);
        let best = pass.1;
        let j = choose|j: int|
            0 <= j < best.len() && mov == #[trigger] chosen(sans_of(fen), best, j);
        let k = choose|k: int|
            0 <= k < best.len() && other_mov == #[trigger] chosen(sans_of(fen), best, k);
        assert(j == k);
    }
}

/// The entries of the table a search starts with: those given, or none.
pub open spec fn starting_entries(table: Option<HashTable>) -> Map<u64, Entry> {
    match table {
        Some(t) => t@,
        None => Map::empty(),
    }
}

/// Chooses a move for the side to move in `fen_str` by alpha-beta search to
/// `depth` plies, with a memo table that is handed back together with the
/// move. Without a table the search starts with an empty one.
pub fn root(fen_str: &str, seed: u64, depth: u64, table: Option<HashTable>) -> (result:
    MoveAndTable)
    requires
        valid_position(fen_str@),
        playable(fen_str@),
        1 <= depth <= MAX_DEPTH,
    ensures
        tabled_result(
            fen_str@,
            depth as nat,
            starting_entries(table),
            result.mov@,
            result.table@,
        ),
{
    let mut table = match table {
        Some(t) => t,
        None => HashTable::new(),
    };
    let ghost start = table@;
    if let Some(entry) = table.find(fen_str, depth) {
        return MoveAndTable::new(entry.mov, table);
    }
    let successors = position_successors(fen_str);
    let sans = position_sans(fen_str);
    let mut best_moves: Vec<usize> = Vec::new();
    let mut alpha: i64 = -WINDOW;
    let beta: i64 = WINDOW;
    let mut i: usize = 0;
    while i < successors.len()
        invariant
            i <= successors@.len(),
            1 <= depth <= MAX_DEPTH,
            beta == WINDOW,
            -WINDOW <= alpha < WINDOW,
            texts_of(successors@) == successors_of(fen_str@),
            lines_of(sans@) == sans_of(fen_str@),
            sans@.len() == successors@.len(),
            successors@.len() == moves_of(fen_str@).len(),
            candidates_in_range(best_moves@, i as nat),
            best_moves@.len() == 0 ==> alpha == -WINDOW,
            best_moves@.len() > 0 ==> alpha > -WINDOW,
            best_moves@.len() == 0 ==> forall|k: int|
                0 <= k < i ==> (#[trigger] usable(successors_of(fen_str@)[k])) is None,
            tabled_root_pass(
                successors_of(fen_str@),
                sans_of(fen_str@),
                (depth - 1) as nat,
                i as nat,
                start,
            ) == (alpha as int, best_moves@, table@),
        decreases successors.len() - i,
    {
        match child_at(&successors, i) {
            Some(child) => {
                let value = match remembered(Some(&table), child.as_str(), depth - 1) {
                    Some(known) => known,
                    None => {
                        let value = negamax_a_b_table(
                            child.as_str(),
                            seed,
                            depth - 1,
                            -beta,
                            -alpha,
                            &mut table,
                        );
                        table.insert(
                            child.as_str(),
                            PositionInfo::new(depth - 1, value, sans[i].clone()),
                        );
                        value
                    },
                };
                // strictly inside the root window: never a cutoff here
                let score = -value;
                if score > alpha {
                    alpha = score;
                    best_moves = Vec::new();
                    best_moves.push(i);
                    assert(best_moves@ =~= seq![i]);
                }
            },
            None => {},
        }
        i = i + 1;
    }
    let mut rng = seeded_generator(seed);
    let pick = draw_below(&mut rng, best_moves.len());
    let mov = choose_move(&sans, &best_moves, pick);
    table.insert(fen_str, PositionInfo::new(depth, alpha, mov.clone()));
    proof {
        assert(mov@ == chosen(sans_of(fen_str@), best_moves@, pick as int));
    }
    MoveAndTable::new(mov, table)
}

} // verus!
