use chess_algorithms::algorithms::negamax::{negamax, negamax_best_moves, negamax_root};
use chess_algorithms::negamax_move;

#[test]
fn negamax_checkmate_black_wins_in_1() {
    assert_eq!(negamax_root("4k3/8/8/8/8/2r5/1q6/5K2 b - - 3 2", 1, 3), "Rc1");
}

#[test]
fn negamax_checkmate_black_wins_in_2() {
    let mov = negamax_root("4k3/8/8/8/1qr5/8/8/6K1 b - - 3 2", 1, 4);
    if !(mov == "Qb2" || mov == "Qd2" || mov == "Rc2") {
        panic!("{}", mov);
    }
}

#[test]
fn negamax_checkmate_white_wins_in_1() {
    assert_eq!(negamax_root("5k2/2R5/1Q6/8/8/8/8/4K3 w - - 3 3", 1, 4), "Qb8");
}

#[test]
fn negamax_checkmate_white_wins_in_2() {
    let mov = negamax_root("5k2/8/1Q6/2R5/8/8/8/4K3 w - - 3 3", 1, 4);
    if !(mov == "Qb7" || mov == "Qa7" || mov == "Rc7") {
        panic!("{}", mov);
    }
}

#[test]
fn negamax_depth_zero_is_the_evaluation() {
    let fen = "rnbqkbnr/pppp1ppp/8/4P3/8/8/PPP1PPPP/RNBQKBNR w KQkq - 0 1";
    assert_eq!(negamax(fen, 7, 0), 100);
}

#[test]
fn negamax_scores_a_mated_side_below_by_depth() {
    // White is checkmated: no successor, so the evaluation less the depth.
    let fen = "4k3/8/8/8/8/8/1q6/2r1K3 w - - 2 2";
    assert_eq!(negamax(fen, 7, 3), -10_003);
}

#[test]
fn negamax_same_inputs_same_move() {
    let fen = "4k3/8/8/8/1qr5/8/8/6K1 b - - 3 2";
    let first = negamax_root(fen, 5, 2);
    for _ in 0..3 {
        assert_eq!(negamax_root(fen, 5, 2), first);
    }
}

#[test]
fn negamax_ties_are_all_kept() {
    // At depth 1 every move of the starting position scores 0.
    let fen = "rnbqkbnr/pppppppp/8/8/8/8/PPPPPPPP/RNBQKBNR w KQkq - 0 1";
    let best = negamax_best_moves(fen, 0, 1);
    assert_eq!(best, (0..20).collect::<Vec<usize>>());
}

#[test]
fn negamax_move_refuses_what_cannot_be_searched() {
    assert_eq!(negamax_move("not a position", 1, 3), None);
    assert_eq!(negamax_move("4k3/8/8/8/8/2r5/1q6/5K2 b - - 3 2", 1, 0), None);
    assert_eq!(negamax_move("4k3/8/8/8/8/2r5/1q6/5K2 b - - 3 2", 1, 360_000), None);
    // checkmated: nothing to play
    assert_eq!(negamax_move("4k3/8/8/8/8/8/1q6/2r1K3 w - - 2 2", 1, 3), None);
    assert_eq!(
        negamax_move("4k3/8/8/8/8/2r5/1q6/5K2 b - - 3 2", 1, 3),
        Some("Rc1".to_string())
    );
}
