//! Move ordering: which moves a search should try first.
//!
//! Captures come before quiet moves, the more valuable victim first and,
//! for equal victims, the less valuable attacker first. Among quiet moves
//! promotions come first.

use vstd::prelude::*;
use std::cmp::Ordering;
use crate::rules::{
    moves_of, position_moves, record_in_range, role_from_number, role_numbered, valid_position,
    Move, MoveRecord, Role,
};

verus! {

/// The rank of a piece type, from the pawn (1) to the king (6).
pub open spec fn role_rank(role: Role) -> int {
    match role {
        Role::Pawn => 1,
        Role::Knight => 2,
        Role::Bishop => 3,
        Role::Rook => 4,
        Role::Queen => 5,
        Role::King => 6,
    }
}

/// The rank of a piece type.
pub fn rank_of(role: Role) -> (rank: u8)
    ensures
        rank == role_rank(role),
{
    match role {
        Role::Pawn => 1,
        Role::Knight => 2,
        Role::Bishop => 3,
        Role::Rook => 4,
        Role::Queen => 5,
        Role::King => 6,
    }
}

/// Whether the capture `a` sorts before the capture `b`: it takes the
/// higher-ranked piece, or the same with the lower-ranked one.
pub open spec fn capture_precedes(a: Move, b: Move) -> bool
    recommends
        a.capture is Some,
        b.capture is Some,
{
    let victim_a = role_rank(a.capture.unwrap());
    let victim_b = role_rank(b.capture.unwrap());
    if victim_a == victim_b {
        role_rank(a.role) < role_rank(b.role)
    } else {
        victim_b < victim_a
    }
}

/// Whether the move `a` sorts before the move `b`.
pub open spec fn precedes(a: Move, b: Move) -> bool {
    if a.capture is Some && b.capture is None {
        true
    } else if a.capture is None && b.capture is Some {
        false
    } else if a.capture is Some && b.capture is Some {
        capture_precedes(a, b)
    } else {
        a.promotion is Some && b.promotion is None
    }
}

/// Compares two moves for a search: `Less` if `m1` should be tried first,
/// `Greater` if `m2` should, `Equal` if the order does not matter.
pub fn move_ordering(m1: &Move, m2: &Move) -> (order: Ordering)
    ensures
        (order == Ordering::Less) == precedes(*m1, *m2),
        (order == Ordering::Greater) == precedes(*m2, *m1),
{
    if m1.capture.is_some() && !m2.capture.is_some() {
        // a capture is always better than a non-capture
        Ordering::Less
    } else if !m1.capture.is_some() && m2.capture.is_some() {
        Ordering::Greater
    } else if m1.capture.is_some() && m2.capture.is_some() {
        capture_ordering(m1, m2)
    } else {
        // if neither is a capture, promotions come first
        if m1.promotion.is_some() && !m2.promotion.is_some() {
            Ordering::Less
        } else if !m1.promotion.is_some() && m2.promotion.is_some() {
            Ordering::Greater
        } else {
            Ordering::Equal
        }
    }
}

/// Compares two captures: most valuable victim first, then least valuable
/// attacker.
pub fn capture_ordering(m1: &Move, m2: &Move) -> (order: Ordering)
    requires
        m1.capture is Some,
        m2.capture is Some,
    ensures
        (order == Ordering::Less) == capture_precedes(*m1, *m2),
        (order == Ordering::Greater) == capture_precedes(*m2, *m1),
{
    let victim1 = rank_of(m1.capture.unwrap());
    let victim2 = rank_of(m2.capture.unwrap());
    let attacker1 = rank_of(m1.role);
    let attacker2 = rank_of(m2.role);
    if victim1 == victim2 {
        if attacker1 < attacker2 {
            Ordering::Less
        } else if attacker1 == attacker2 {
            Ordering::Equal
        } else {
            Ordering::Greater
        }
    } else if victim2 < victim1 {
        Ordering::Less
    } else {
        Ordering::Greater
    }
}

/// The place of a move in the order as a number: smaller sorts first.
pub open spec fn order_key(m: Move) -> int {
    match m.capture {
        Some(victim) => (6 - role_rank(victim)) * 8 + role_rank(m.role),
        None => if m.promotion is Some {
            100
        } else {
            200
        },
    }
}

/// The order of moves is the order of their keys, so it is a strict weak
/// order: irreflexive, transitive, and with transitive ties.
pub proof fn lemma_precedes_by_key(a: Move, b: Move)
    ensures
        precedes(a, b) <==> order_key(a) < order_key(b),
{
}

/// The place of a move in the order.
pub fn key_of(m: &Move) -> (key: u32)
    ensures
        key == order_key(*m),
        1 <= key <= 200,
{
    match m.capture {
        Some(victim) => {
            let victim_rank: u32 = rank_of(victim) as u32;
            let mover_rank: u32 = rank_of(m.role) as u32;
            (6 - victim_rank) * 8 + mover_rank
        },
        None => if m.promotion.is_some() {
            100
        } else {
            200
        },
    }
}

/// The role that a record names in an optional place: none for 0.
pub open spec fn optional_role(n: u8) -> Option<Role> {
    if n == 0 {
        None
    } else {
        Some(role_numbered(n))
    }
}

/// The move that a record stands for.
pub open spec fn move_read(record: MoveRecord) -> Move {
    Move {
        role: role_numbered(record.0),
        from: if record.1 >= 64 {
            None
        } else {
            Some(record.1)
        },
        to: record.2,
        capture: optional_role(record.3),
        promotion: optional_role(record.4),
        en_passant: record.5,
        castle: record.6,
    }
}

/// The legal moves of a position, in the engine's order.
pub open spec fn legal_moves_of(fen: Seq<char>) -> Seq<Move> {
    moves_of(fen).map_values(|record: MoveRecord| move_read(record))
}

/// Reads an optional role from its number.
pub fn optional_role_from_number(n: u8) -> (role: Option<Role>)
    requires
        n <= 6,
    ensures
        role == optional_role(n),
{
    if n == 0 {
        None
    } else {
        Some(role_from_number(n))
    }
}

/// Reads a move from its record.
pub fn move_from_record(record: MoveRecord) -> (m: Move)
    requires
        record_in_range(record),
    ensures
        m == move_read(record),
{
    Move {
        role: role_from_number(record.0),
        from: if record.1 >= 64 {
            None
        } else {
            Some(record.1)
        },
        to: record.2,
        capture: optional_role_from_number(record.3),
        promotion: optional_role_from_number(record.4),
        en_passant: record.5,
        castle: record.6,
    }
}

/// The legal moves of the position `fen`, in the engine's order.
pub fn legal_moves(fen: &str) -> (moves: Vec<Move>)
    requires
        valid_position(fen@),
    ensures
        moves@ == legal_moves_of(fen@),
{
    let records = position_moves(fen);
    let mut moves: Vec<Move> = Vec::new();
    let mut i: usize = 0;
    while i < records.len()
        invariant
            i <= records@.len(),
            records@ == moves_of(fen@),
            forall|k: int| 0 <= k < records@.len() ==> record_in_range(#[trigger] records@[k]),
            moves@.len() == i,
            forall|k: int| 0 <= k < i ==> moves@[k] == move_read(records@[k]),
        decreases records.len() - i,
    {
        moves.push(move_from_record(records[i]));
        i = i + 1;
    }
    assert(moves@ =~= legal_moves_of(fen@));
    moves
}

/// Whether two optional roles are the same.
pub fn same_optional_role(a: Option<Role>, b: Option<Role>) -> (same: bool)
    ensures
        same == (a == b),
{
    match (a, b) {
        (Some(x), Some(y)) => x == y,
        (None, None) => true,
        _ => false,
    }
}

/// Whether two moves are the same move.
pub fn same_move(a: &Move, b: &Move) -> (same: bool)
    ensures
        same == (*a == *b),
{
    let same_origin = match (a.from, b.from) {
        (Some(x), Some(y)) => x == y,
        (None, None) => true,
        _ => false,
    };
    a.role == b.role && same_origin && a.to == b.to && same_optional_role(a.capture, b.capture)
        && same_optional_role(a.promotion, b.promotion) && a.en_passant == b.en_passant
        && a.castle == b.castle
}

/// The place of the `index`-th move when `favoured` goes first: 0 for the
/// favoured move, else the move's key.
pub open spec fn priority(moves: Seq<Move>, favoured: Option<Move>, index: int) -> int {
    if favoured == Some(moves[index]) {
        0
    } else {
        order_key(moves[index])
    }
}

/// Whether `order` lists the indices of `moves` in search order: each index
/// once, by priority, and in the order of `moves` where priorities tie.
pub open spec fn is_search_order(
    order: Seq<usize>,
    moves: Seq<Move>,
    favoured: Option<Move>,
) -> bool {
    &&& order.len() == moves.len()
    &&& forall|k: int| 0 <= k < order.len() ==> (#[trigger] order[k]) < moves.len()
    &&& forall|index: usize| index < moves.len() ==> #[trigger] order.contains(index)
    &&& forall|a: int, b: int|
        0 <= a < b < order.len() ==> comes_before(
            moves,
            favoured,
            #[trigger] order[a],
            #[trigger] order[b],
        )
}

/// Whether index `x` is searched before index `y`.
pub open spec fn comes_before(
    moves: Seq<Move>,
    favoured: Option<Move>,
    x: usize,
    y: usize,
) -> bool {
    let first = priority(moves, favoured, x as int);
    let second = priority(moves, favoured, y as int);
    first < second || (first == second && x < y)
}

/// Where an index of priority `p` goes into `order`: before the first index
/// from the `j`-th on with a higher priority.
pub open spec fn insertion_place(
    order: Seq<usize>,
    moves: Seq<Move>,
    favoured: Option<Move>,
    p: int,
    j: nat,
) -> nat
    decreases order.len() - j,
{
    if j >= order.len() || priority(moves, favoured, order[j as int] as int) > p {
        j
    } else {
        insertion_place(order, moves, favoured, p, j + 1)
    }
}

/// The first `k` indices of `moves` in search order, built by putting each
/// index in its place among those before it.
pub open spec fn search_order_of(moves: Seq<Move>, favoured: Option<Move>, k: nat) -> Seq<usize>
    decreases k,
{
    if k == 0 {
        Seq::empty()
    } else {
        let before = search_order_of(moves, favoured, (k - 1) as nat);
        before.insert(
            insertion_place(before, moves, favoured, priority(moves, favoured, k - 1), 0) as int,
            (k - 1) as usize,
        )
    }
}

/// The priority of the `index`-th move.
pub fn priority_of(moves: &Vec<Move>, favoured: &Option<Move>, index: usize) -> (p: u32)
    requires
        index < moves@.len(),
    ensures
        p == priority(moves@, *favoured, index as int),
{
    match favoured {
        Some(first) => if same_move(first, &moves[index]) {
            0
        } else {
            key_of(&moves[index])
        },
        None => key_of(&moves[index]),
    }
}

/// The indices of `moves` in search order: `favoured` first if it is among
/// them, then by the move order, equal moves in the order they came in.
pub fn search_order(moves: &Vec<Move>, favoured: &Option<Move>) -> (order: Vec<usize>)
    ensures
        is_search_order(order@, moves@, *favoured),
        order@ == search_order_of(moves@, *favoured, moves@.len()),
{
    let mut order: Vec<usize> = Vec::new();
    let mut k: usize = 0;
    while k < moves.len()
        invariant
            k <= moves@.len(),
            order@.len() == k,
            order@ == search_order_of(moves@, *favoured, k as nat),
            forall|t: int| 0 <= t < order@.len() ==> (#[trigger] order@[t]) < k,
            forall|index: usize| index < k ==> #[trigger] order@.contains(index),
            forall|a: int, b: int|
                0 <= a < b < order@.len() ==> comes_before(
                    moves@,
                    *favoured,
                    #[trigger] order@[a],
                    #[trigger] order@[b],
                ),
        decreases moves.len() - k,
    {
        let p = priority_of(moves, favoured, k);
        let mut j: usize = 0;
        while j < order.len() && priority_of(moves, favoured, order[j]) <= p
            invariant
                j <= order@.len(),
                k < moves@.len(),
                order@.len() == k,
                p == priority(moves@, *favoured, k as int),
                forall|t: int| 0 <= t < order@.len() ==> (#[trigger] order@[t]) < k,
                forall|t: int|
                    0 <= t < j ==> priority(moves@, *favoured, (#[trigger] order@[t]) as int) <= p,
                insertion_place(order@, moves@, *favoured, p as int, j as nat) == insertion_place(
                    order@,
                    moves@,
                    *favoured,
                    p as int,
                    0,
                ),
            decreases order.len() - j,
        {
            j = j + 1;
        }
        let ghost before = order@;
        order.insert(j, k);
        proof {
            assert(order@ == before.insert(j as int, k));
            assert forall|t: int| 0 <= t < order@.len() implies (#[trigger] order@[t]) < k + 1 by {
                if t < j {
                    assert(order@[t] == before[t]);
                } else if t > j {
                    assert(order@[t] == before[t - 1]);
                }
            }
            assert forall|index: usize| index < k + 1 implies #[trigger] order@.contains(index) by {
                if index == k {
                    assert(order@[j as int] == index);
                } else {
                    assert(before.contains(index));
                    let t = choose|t: int| 0 <= t < before.len() && before[t] == index;
                    if t < j {
                        assert(order@[t] == index);
                    } else {
                        assert(order@[t + 1] == index);
                    }
                }
            }
            assert forall|a: int, b: int| 0 <= a < b < order@.len() implies comes_before(
                moves@,
                *favoured,
                #[trigger] order@[a],
                #[trigger] order@[b],
            ) by {
                let x = if a < j {
                    a
                } else {
                    a - 1
                };
                let y = if b < j {
                    b
                } else {
                    b - 1
                };
                if a == j {
                    // the new index against one that followed the place
                    assert(order@[b] == before[b - 1]);
                    if j < before.len() {
                        assert(priority(moves@, *favoured, before[j as int] as int) > p);
                        if b - 1 > j {
                            assert(comes_before(
                                moves@,
                                *favoured,
                                before[j as int],
                                before[b - 1],
                            ));
                        }
                    }
                } else if b == j {
                    assert(order@[a] == before[a]);
                    assert(before[a] < k);
                } else {
                    assert(order@[a] == before[x]);
                    assert(order@[b] == before[y]);
                    assert(comes_before(moves@, *favoured, before[x], before[y]));
                }
            }
        }
        k = k + 1;
    }
    order
}

} // verus!
