//! The boundary to the rules engine.
//!
//! Everything the searches need to know about chess comes from `shakmaty`.
//! A position is FEN text, so each question about a position is a function
//! of that text. The answers are given names here (`valid_position`,
//! `moves_of`, `successors_of`, ...) and each name is tied to one call into
//! the engine by a function whose contract is taken on trust. The rest of
//! the library is proved against these names.

use vstd::prelude::*;
use shakmaty::Position;
use shakmaty::zobrist::ZobristHash;

verus! {

/// A piece type.
#[derive(Clone, Copy, Debug, PartialEq, Eq, Structural)]
pub enum Role {
    Pawn,
    Knight,
    Bishop,
    Rook,
    Queen,
    King,
}

/// A side.
#[derive(Clone, Copy, Debug, PartialEq, Eq, Structural)]
pub enum Color {
    Black,
    White,
}

/// A piece on the board.
#[derive(Clone, Copy, Debug, PartialEq, Eq, Structural)]
pub struct Piece {
    pub color: Color,
    pub role: Role,
}

/// A move, described by what the engine reports of it.
///
/// `from` is absent for a drop. For a castling move `from` is the king's
/// square and `to` the rook's. An en passant capture has `capture` set to a
/// pawn. Two moves are the same move exactly when all fields agree.
#[derive(Clone, Copy, Debug)]
pub struct Move {
    pub role: Role,
    pub from: Option<u8>,
    pub to: u8,
    pub capture: Option<Role>,
    pub promotion: Option<Role>,
    pub en_passant: bool,
    pub castle: bool,
}

/// A move as the engine's accessors give it, in integers: the mover's role,
/// the origin square (64 for none), the target square, the captured role and
/// the promotion role (0 for none), then the en passant and castling flags.
pub type MoveRecord = (u8, u8, u8, u8, u8, bool, bool);

/// Whether `fen` parses as FEN and sets up a legal standard chess position.
pub uninterp spec fn valid_position(fen: Seq<char>) -> bool;

/// Whether White is to move in the position `fen`.
pub uninterp spec fn white_moves(fen: Seq<char>) -> bool;

/// The pieces on the board of `fen`, each as (is white, role number).
pub uninterp spec fn pieces_of(fen: Seq<char>) -> Seq<(bool, u8)>;

/// The outcome of `fen`: `None` while the game goes on, `Some(None)` for a
/// draw, `Some(Some(w))` for a win, by White if `w`.
pub uninterp spec fn outcome_of(fen: Seq<char>) -> Option<Option<bool>>;

/// The legal moves of `fen`, in the engine's order.
pub uninterp spec fn moves_of(fen: Seq<char>) -> Seq<MoveRecord>;

/// For each legal move of `fen`, in order, the FEN of the position it leads
/// to, or `None` if the engine refuses to play it.
pub uninterp spec fn successors_of(fen: Seq<char>) -> Seq<Option<Seq<char>>>;

/// For each legal move of `fen`, in order, its standard algebraic notation.
pub uninterp spec fn sans_of(fen: Seq<char>) -> Seq<Seq<char>>;

/// The 64-bit Zobrist hash of the position `fen`.
pub uninterp spec fn zobrist_of(fen: Seq<char>) -> u64;

/// Whether a move record is that of a capture.
pub open spec fn record_captures(m: MoveRecord) -> bool {
    m.3 != 0
}

/// Of the first `n` successors, those that a capture leads to, in order.
pub open spec fn captures_among(
    successors: Seq<Option<Seq<char>>>,
    moves: Seq<MoveRecord>,
    n: nat,
) -> Seq<Option<Seq<char>>>
    decreases n,
{
    if n == 0 || n > successors.len() || n > moves.len() {
        Seq::empty()
    } else {
        let before = captures_among(successors, moves, (n - 1) as nat);
        if record_captures(moves[n - 1]) {
            before.push(successors[n - 1])
        } else {
            before
        }
    }
}

/// Like `successors_of`, for the capturing moves of `fen` only.
pub open spec fn capture_successors_of(fen: Seq<char>) -> Seq<Option<Seq<char>>> {
    captures_among(successors_of(fen), moves_of(fen), moves_of(fen).len())
}

/// The text of an optional string.
pub open spec fn text_of(o: Option<String>) -> Option<Seq<char>> {
    match o {
        Some(s) => Some(s@),
        None => None,
    }
}

/// The texts of a list of optional strings.
pub open spec fn texts_of(v: Seq<Option<String>>) -> Seq<Option<Seq<char>>> {
    v.map_values(|o: Option<String>| text_of(o))
}

/// The texts of a list of strings.
pub open spec fn lines_of(v: Seq<String>) -> Seq<Seq<char>> {
    v.map_values(|s: String| s@)
}

/// Whether a role number is one of the six the engine uses.
pub open spec fn is_role_number(n: u8) -> bool {
    1 <= n <= 6
}

/// The role that the engine numbers `n`.
pub open spec fn role_numbered(n: u8) -> Role {
    if n == 1 {
        Role::Pawn
    } else if n == 2 {
        Role::Knight
    } else if n == 3 {
        Role::Bishop
    } else if n == 4 {
        Role::Rook
    } else if n == 5 {
        Role::Queen
    } else {
        Role::King
    }
}

/// The piece that a board entry stands for.
pub open spec fn piece_read(entry: (bool, u8)) -> Piece {
    let color = if entry.0 {
        Color::White
    } else {
        Color::Black
    };
    Piece { color, role: role_numbered(entry.1) }
}

/// Whether a move record holds only numbers the engine can produce.
pub open spec fn record_in_range(m: MoveRecord) -> bool {
    &&& is_role_number(m.0)
    &&& m.1 <= 64
    &&& m.2 < 64
    &&& m.3 <= 6
    &&& m.4 <= 6
}

/// `shakmaty::fen::Fen::from_str` followed by `Fen::into_position` for
/// standard chess: true when both succeed. Neither panics; each reports a
/// malformed or illegal setup as an error.
#[verifier::external_body]
pub(crate) fn position_is_valid(fen: &str) -> (r: bool)
    ensures
        r == valid_position(fen@),
{
    fen.parse::<shakmaty::fen::Fen>()
        .ok()
        .and_then(|f| f.into_position::<shakmaty::Chess>(shakmaty::CastlingMode::Standard).ok())
        .is_some()
}

/// `shakmaty::Position::turn` on the position that `fen` sets up.
#[verifier::external_body]
pub(crate) fn side_to_move_is_white(fen: &str) -> (r: bool)
    requires
        valid_position(fen@),
    ensures
        r == white_moves(fen@),
{
    let f = fen.parse::<shakmaty::fen::Fen>().unwrap();
    let pos: shakmaty::Chess = f.into_position(shakmaty::CastlingMode::Standard).unwrap();
    pos.turn().is_white()
}

/// `shakmaty::Position::board`, walked with the board's own iterator. A
/// board has 64 squares, so it holds at most 64 pieces, and the engine
/// numbers the roles from 1 (pawn) to 6 (king).
#[verifier::external_body]
pub(crate) fn board_pieces(fen: &str) -> (r: Vec<(bool, u8)>)
    requires
        valid_position(fen@),
    ensures
        r@ == pieces_of(fen@),
        r@.len() <= 64,
        forall|i: int| 0 <= i < r@.len() ==> is_role_number(#[trigger] r@[i].1),
{
    let f = fen.parse::<shakmaty::fen::Fen>().unwrap();
    let pos: shakmaty::Chess = f.into_position(shakmaty::CastlingMode::Standard).unwrap();
    pos.board().clone().into_iter().map(|(_, p)| (p.color.is_white(), u8::from(p.role))).collect()
}

/// `shakmaty::Position::outcome`: `None` unless the game is over by
/// checkmate, stalemate or insufficient material.
#[verifier::external_body]
pub(crate) fn position_outcome(fen: &str) -> (r: Option<Option<bool>>)
    requires
        valid_position(fen@),
    ensures
        r == outcome_of(fen@),
{
    let f = fen.parse::<shakmaty::fen::Fen>().unwrap();
    let pos: shakmaty::Chess = f.into_position(shakmaty::CastlingMode::Standard).unwrap();
    pos.outcome().map(|o| o.winner().map(|c| c.is_white()))
}

/// `shakmaty::Position::legal_moves`, each move read through its accessors
/// `role`, `from`, `to`, `capture`, `promotion`, `is_en_passant` and
/// `is_castle`. Squares are numbered 0 to 63 and roles 1 to 6.
#[verifier::external_body]
pub(crate) fn position_moves(fen: &str) -> (r: Vec<MoveRecord>)
    requires
        valid_position(fen@),
    ensures
        r@ == moves_of(fen@),
        forall|i: int| 0 <= i < r@.len() ==> record_in_range(#[trigger] r@[i]),
{
    let f = fen.parse::<shakmaty::fen::Fen>().unwrap();
    let pos: shakmaty::Chess = f.into_position(shakmaty::CastlingMode::Standard).unwrap();
    pos.legal_moves().iter().map(|m| (
        u8::from(m.role()), m.from().map_or(64, u8::from), u8::from(m.to()),
        m.capture().map_or(0, u8::from), m.promotion().map_or(0, u8::from),
        m.is_en_passant(), m.is_castle(),
    )).collect()
}

/// `shakmaty::Position::play` on a copy of the position for each of its
/// legal moves, the result written as FEN with `Fen::from_position`. One
/// entry per legal move, in the order of `legal_moves`.
#[verifier::external_body]
pub(crate) fn position_successors(fen: &str) -> (r: Vec<Option<String>>)
    requires
        valid_position(fen@),
    ensures
        texts_of(r@) == successors_of(fen@),
        r@.len() == moves_of(fen@).len(),
{
    let f = fen.parse::<shakmaty::fen::Fen>().unwrap();
    let pos: shakmaty::Chess = f.into_position(shakmaty::CastlingMode::Standard).unwrap();
    pos.legal_moves().iter().map(|m| pos.clone().play(m).ok().map(|p| {
        shakmaty::fen::Fen::from_position(p, shakmaty::EnPassantMode::Legal).to_string()
    })).collect()
}

/// `shakmaty::Position::capture_moves`, each played and written as FEN in
/// the same way as in `position_successors`. The capture moves are the
/// legal moves for which `capture` names a role, in the order of
/// `legal_moves`.
#[verifier::external_body]
pub(crate) fn position_capture_successors(fen: &str) -> (r: Vec<Option<String>>)
    requires
        valid_position(fen@),
    ensures
        texts_of(r@) == capture_successors_of(fen@),
{
    let f = fen.parse::<shakmaty::fen::Fen>().unwrap();
    let pos: shakmaty::Chess = f.into_position(shakmaty::CastlingMode::Standard).unwrap();
    pos.capture_moves().iter().map(|m| pos.clone().play(m).ok().map(|p| {
        shakmaty::fen::Fen::from_position(p, shakmaty::EnPassantMode::Legal).to_string()
    })).collect()
}

/// `shakmaty::san::San::from_move` for each legal move, printed. One entry
/// per legal move, in the order of `legal_moves`.
#[verifier::external_body]
pub(crate) fn position_sans(fen: &str) -> (r: Vec<String>)
    requires
        valid_position(fen@),
    ensures
        lines_of(r@) == sans_of(fen@),
        r@.len() == moves_of(fen@).len(),
{
    let f = fen.parse::<shakmaty::fen::Fen>().unwrap();
    let pos: shakmaty::Chess = f.into_position(shakmaty::CastlingMode::Standard).unwrap();
    pos.legal_moves().iter().map(|m| shakmaty::san::San::from_move(&pos, m).to_string()).collect()
}

/// `shakmaty::zobrist::ZobristHash::zobrist_hash` at 64 bits.
#[verifier::external_body]
pub(crate) fn position_hash(fen: &str) -> (r: u64)
    requires
        valid_position(fen@),
    ensures
        r == zobrist_of(fen@),
{
    let f = fen.parse::<shakmaty::fen::Fen>().unwrap();
    let pos: shakmaty::Chess = f.into_position(shakmaty::CastlingMode::Standard).unwrap();
    pos.zobrist_hash::<u64>()
}

/// Reads a role from its number.
pub fn role_from_number(n: u8) -> (role: Role)
    requires
        is_role_number(n),
    ensures
        role == role_numbered(n),
{
    if n == 1 {
        Role::Pawn
    } else if n == 2 {
        Role::Knight
    } else if n == 3 {
        Role::Bishop
    } else if n == 4 {
        Role::Rook
    } else if n == 5 {
        Role::Queen
    } else {
        Role::King
    }
}

/// Reads a piece from a board entry.
pub fn piece_from_entry(entry: (bool, u8)) -> (piece: Piece)
    requires
        is_role_number(entry.1),
    ensures
        piece == piece_read(entry),
{
    let color = if entry.0 {
        Color::White
    } else {
        Color::Black
    };
    Piece { color, role: role_from_number(entry.1) }
}

} // verus!
