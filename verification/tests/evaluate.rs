use chess_algorithms::evaluate::{evaluate, piece_value};
use chess_algorithms::rules::{Color, Piece, Role};

#[test]
fn starting_pos_eval() {
    assert_eq!(evaluate("rnbqkbnr/pppppppp/8/8/8/8/PPPPPPPP/RNBQKBNR w KQkq - 0 1"), 0);
}

#[test]
fn pos_eval_white_turn_white_advantage() {
    // white turn
    // white has one pawn more
    assert_eq!(evaluate("rnbqkbnr/pppp1ppp/8/4P3/8/8/PPP1PPPP/RNBQKBNR w KQkq - 0 1"), 100);
}

#[test]
fn pos_eval_white_turn_black_advantage() {
    // white turn
    // white has one pawn less
    assert_eq!(evaluate("rnbqkbnr/pppp1ppp/8/8/3p4/8/PPP1PPPP/RNBQKBNR w KQkq - 0 1"), -100);
}

#[test]
fn pos_eval_black_turn_white_advantage() {
    // black turn
    // white has one pawn more
    assert_eq!(evaluate("rnbqkbnr/pppp1ppp/8/4P3/8/8/PPP1PPPP/RNBQKBNR b KQkq - 0 2"), -100);
}

#[test]
fn pos_eval_black_turn_black_advantage() {
    // black turn
    // white has one pawn less
    assert_eq!(evaluate("rnbqkbnr/pppp1ppp/8/8/3pP3/8/PPP2PPP/RNBQKBNR b KQkq - 0 3"), 100);
}

#[test]
fn pos_eval_checkmate_white_wins() {
    // black turn
    // white wins
    assert_eq!(evaluate("1Q2k3/2R5/8/8/8/8/8/4K3 b - - 1 1"), -10_000);
}

#[test]
fn pos_eval_checkmate_black_wins() {
    // white turn
    // black wins
    assert_eq!(evaluate("4k3/8/8/8/8/8/1q6/2r1K3 w - - 2 2"), -10_000);
}

#[test]
fn pos_eval_removed_white_pawn() {
    let fen = "rnbqkbnr/pppppppp/8/8/8/8/PPPP1PPP/RNBQKBNR w KQkq - 0 1";
    assert_eq!(evaluate(fen), -100);
    let fen = "rnbqkbnr/pppppppp/8/8/8/8/PPPP1PPP/RNBQKBNR b KQkq - 0 1";
    assert_eq!(evaluate(fen), 100);
}

#[test]
fn pos_eval_stalemate_is_draw() {
    // black to move, not in check, no legal move
    assert_eq!(evaluate("7k/5Q2/6K1/8/8/8/8/8 b - - 0 1"), 0);
}

#[test]
fn pos_eval_bare_kings_is_draw() {
    assert_eq!(evaluate("4k3/8/8/8/8/8/8/4K3 w - - 0 1"), 0);
}

#[test]
fn piece_values() {
    let white = |role| Piece { color: Color::White, role };
    let black = |role| Piece { color: Color::Black, role };
    assert_eq!(piece_value(white(Role::King)), 10_000);
    assert_eq!(piece_value(white(Role::Queen)), 1_000);
    assert_eq!(piece_value(white(Role::Rook)), 500);
    assert_eq!(piece_value(white(Role::Bishop)), 350);
    assert_eq!(piece_value(white(Role::Knight)), 300);
    assert_eq!(piece_value(white(Role::Pawn)), 100);
    assert_eq!(piece_value(black(Role::King)), -10_000);
    assert_eq!(piece_value(black(Role::Queen)), -1_000);
    assert_eq!(piece_value(black(Role::Rook)), -500);
    assert_eq!(piece_value(black(Role::Bishop)), -350);
    assert_eq!(piece_value(black(Role::Knight)), -300);
    assert_eq!(piece_value(black(Role::Pawn)), -100);
}
