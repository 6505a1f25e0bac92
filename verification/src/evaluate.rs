//! Static evaluation: material, or the result of a finished game, seen from
//! the side to move.

use vstd::prelude::*;
use crate::rules::{
    board_pieces, is_role_number, outcome_of, piece_from_entry, piece_read, pieces_of,
    position_outcome, side_to_move_is_white, valid_position, white_moves, Color, Piece, Role,
};

verus! {

pub const KING_VALUE: i64 = 10_000;

pub const QUEEN_VALUE: i64 = 1_000;

pub const ROOK_VALUE: i64 = 500;

pub const BISHOP_VALUE: i64 = 350;

pub const KNIGHT_VALUE: i64 = 300;

pub const PAWN_VALUE: i64 = 100;

/// The score of a decided game.
pub const MATE_VALUE: i64 = 10_000;

/// The squares of a board, and so the most pieces a position can hold.
pub const BOARD_SQUARES: usize = 64;

/// No evaluation is larger in magnitude: 64 pieces of the highest value.
pub const MATERIAL_LIMIT: i64 = 640_000;

/// What a piece type is worth.
pub open spec fn role_worth(role: Role) -> int {
    match role {
        Role::King => 10_000,
        Role::Queen => 1_000,
        Role::Rook => 500,
        Role::Bishop => 350,
        Role::Knight => 300,
        Role::Pawn => 100,
    }
}

/// What a piece counts for White: its worth, negated for a black piece.
pub open spec fn piece_worth(piece: Piece) -> int {
    match piece.color {
        Color::White => role_worth(piece.role),
        Color::Black => -role_worth(piece.role),
    }
}

/// The sum of `piece_worth` over the first `n` board entries.
pub open spec fn material(entries: Seq<(bool, u8)>, n: nat) -> int
    decreases n,
{
    if n == 0 || n > entries.len() {
        0
    } else {
        material(entries, (n - 1) as nat) + piece_worth(piece_read(entries[n - 1]))
    }
}

/// The board entries that count: all of them, a board having 64 squares.
pub open spec fn board_of(fen: Seq<char>) -> Seq<(bool, u8)> {
    let entries = pieces_of(fen);
    if entries.len() <= 64 {
        entries
    } else {
        entries.take(64)
    }
}

/// The score of a position for White: the mate value for the winner of a
/// finished game, nothing for a draw, the material balance otherwise.
pub open spec fn white_score(fen: Seq<char>) -> int {
    match outcome_of(fen) {
        Some(Some(white_won)) => if white_won {
            10_000
        } else {
            -10_000
        },
        Some(None) => 0,
        None => material(board_of(fen), board_of(fen).len()),
    }
}

/// The score of a position for the side to move.
pub open spec fn evaluation(fen: Seq<char>) -> int {
    if white_moves(fen) {
        white_score(fen)
    } else {
        -white_score(fen)
    }
}

/// The material of `n` entries lies within `n` times the king's value.
proof fn lemma_material_bounded(entries: Seq<(bool, u8)>, n: nat)
    ensures
        -10_000 * n <= material(entries, n) <= 10_000 * n,
    decreases n,
{
    if n == 0 || n > entries.len() {
    } else {
        lemma_material_bounded(entries, (n - 1) as nat);
    }
}

/// Every evaluation lies within the material limit.
pub proof fn lemma_evaluation_bounded(fen: Seq<char>)
    ensures
        -640_000 <= evaluation(fen) <= 640_000,
{
    lemma_material_bounded(board_of(fen), board_of(fen).len());
}

/// The value of a piece: positive for White, negative for Black.
pub fn piece_value(piece: Piece) -> (value: i64)
    ensures
        value == piece_worth(piece),
{
    let value: i64 = match piece.role {
        Role::King => KING_VALUE,
        Role::Queen => QUEEN_VALUE,
        Role::Rook => ROOK_VALUE,
        Role::Bishop => BISHOP_VALUE,
        Role::Knight => KNIGHT_VALUE,
        Role::Pawn => PAWN_VALUE,
    };
    match piece.color {
        Color::White => value,
        Color::Black => -value,
    }
}

/// Scores the position `fen_str` for the side to move.
pub fn evaluate(fen_str: &str) -> (score: i64)
    requires
        valid_position(fen_str@),
    ensures
        score == evaluation(fen_str@),
        -MATERIAL_LIMIT <= score <= MATERIAL_LIMIT,
{
    let white_to_move = side_to_move_is_white(fen_str);
    let mut score: i64 = 0;
    match position_outcome(fen_str) {
        Some(Some(white_won)) => {
            score = if white_won {
                MATE_VALUE
            } else {
                -MATE_VALUE
            };
        },
        Some(None) => {},
        None => {
            let entries = board_pieces(fen_str);
            let mut i: usize = 0;
            while i < entries.len()
                invariant
                    i <= entries.len() <= 64,
                    score == material(entries@, i as nat),
                    -10_000 * i <= score <= 10_000 * i,
                    forall|k: int|
                        0 <= k < entries@.len() ==> is_role_number(#[trigger] entries@[k].1),
                decreases entries.len() - i,
            {
                score = score + piece_value(piece_from_entry(entries[i]));
                i = i + 1;
            }
        },
    }
    if white_to_move {
        score
    } else {
        -score
    }
}

} // verus!
