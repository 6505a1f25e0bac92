use chess_algorithms::algorithms::negamax_a_b_quiescent::{quiescent_search, root};
use chess_algorithms::algorithms::tree::{quiescent, quiescent_when};
use chess_algorithms::clock::Deadline;
use chess_algorithms::{negamax_a_b_quiescent, quiescent_score};

#[test]
fn negamax_a_b_quiescent_checkmate_black_wins_in_1() {
    assert_eq!(root("4k3/8/8/8/8/2r5/1q6/5K2 b - - 3 2", 1, 3), "Rc1");
}

#[test]
fn negamax_a_b_quiescent_checkmate_black_wins_in_2() {
    let mov = root("4k3/8/8/8/1qr5/8/8/6K1 b - - 3 2", 1, 4);
    if !(mov == "Qb2" || mov == "Qd2" || mov == "Rc2") {
        panic!("{}", mov);
    }
}

#[test]
fn negamax_a_b_quiescent_checkmate_white_wins_in_1() {
    assert_eq!(root("5k2/2R5/1Q6/8/8/8/8/4K3 w - - 3 3", 1, 4), "Qb8");
}

#[test]
fn negamax_a_b_quiescent_checkmate_white_wins_in_2() {
    let mov = root("5k2/8/1Q6/2R5/8/8/8/4K3 w - - 3 3", 1, 4);
    if !(mov == "Qb7" || mov == "Qa7" || mov == "Rc7") {
        panic!("{}", mov);
    }
}

#[test]
fn quiescent_search_stands_pat_in_a_quiet_position() {
    let fen = "rnbqkbnr/pppppppp/8/8/8/8/PPPPPPPP/RNBQKBNR w KQkq - 0 1";
    assert_eq!(quiescent_search(fen, -1_000_000, 1_000_000), 0);
}

#[test]
fn quiescent_search_returns_beta_when_standing_pat_reaches_it() {
    // White is a pawn up: 100 >= 50.
    let fen = "rnbqkbnr/pppp1ppp/8/4P3/8/8/PPP1PPPP/RNBQKBNR w KQkq - 0 1";
    assert_eq!(quiescent_search(fen, -1_000_000, 50), 50);
}

#[test]
fn quiescent_search_takes_a_hanging_queen() {
    // White rook takes the undefended black queen: 500 - 1000 becomes 500.
    let fen = "7k/8/8/8/8/8/8/q3R1K1 w - - 0 1";
    assert_eq!(quiescent_search(fen, -1_000_000, 1_000_000), 500);
}

#[test]
fn quiescent_search_declines_a_losing_capture() {
    // Queen takes pawn, pawn retakes: not worth it, the side stands pat.
    let fen = "4k3/2p5/3p4/8/8/8/3Q4/4K3 w - - 0 1";
    assert_eq!(quiescent_search(fen, -1_000_000, 1_000_000), 800);
}

#[test]
fn quiescent_score_checks_its_input() {
    let fen = "7k/8/8/8/8/8/8/q3R1K1 w - - 0 1";
    assert_eq!(quiescent_score(fen, -1_000_000, 1_000_000, None), Some(500));
    assert_eq!(quiescent_score("nothing", -1_000_000, 1_000_000, None), None);
    assert_eq!(quiescent_score(fen, i64::MIN, 1_000_000, None), None);
    assert_eq!(quiescent_score(fen, -1_000_000, 1_000_000, Some(60_000)), Some(500));
}

#[test]
fn negamax_a_b_quiescent_refuses_what_cannot_be_searched() {
    assert_eq!(negamax_a_b_quiescent("", 1, 3), None);
    assert_eq!(
        negamax_a_b_quiescent("5k2/2R5/1Q6/8/8/8/8/4K3 w - - 3 3", 1, 2),
        Some("Qb8".to_string())
    );
}

#[test]
fn quiescent_when_aborts_past_the_deadline() {
    let long = Some(Deadline::starting_now(3_600_000));
    for fen in [
        "rnbqkbnr/pppppppp/8/8/8/8/PPPPPPPP/RNBQKBNR w KQkq - 0 1",
        "7k/8/8/8/8/8/8/q3R1K1 w - - 0 1",
    ] {
        for budget in [0, 1, 32] {
            assert_eq!(quiescent_when(true, fen, -1_000_000, 1_000_000, budget, &long), None);
            assert_eq!(quiescent_when(true, fen, -1_000_000, -999_999, budget, &long), None);
        }
    }
}

#[test]
fn quiescent_when_owes_a_score_where_the_clock_is_not_read_again() {
    let spent = Deadline::starting_now(0);
    while spent.start.elapsed().as_millis() < 2 {}
    let spent = Some(spent);
    // no capture to follow
    let start = "rnbqkbnr/pppppppp/8/8/8/8/PPPPPPPP/RNBQKBNR w KQkq - 0 1";
    assert_eq!(quiescent_when(false, start, -1_000_000, 1_000_000, 32, &spent), Some(0));
    // standing pat reaches beta
    let hanging = "7k/8/8/8/8/8/8/q3R1K1 w - - 0 1";
    assert_eq!(quiescent_when(false, hanging, -1_000_000, -600, 3, &spent), Some(-600));
    // the budget is used up
    assert_eq!(quiescent_when(false, hanging, -1_000_000, 1_000_000, 0, &spent), Some(-500));
    // a capture whose search aborts: the abort is passed up
    assert_eq!(quiescent_when(false, hanging, -1_000_000, 1_000_000, 3, &spent), None);
    // the same without a deadline
    assert_eq!(quiescent_when(false, hanging, -1_000_000, 1_000_000, 3, &None), Some(500));
}

#[test]
fn quiescent_reads_the_clock_at_the_entry() {
    let spent = Deadline::starting_now(0);
    while spent.start.elapsed().as_millis() < 2 {}
    let start = "rnbqkbnr/pppppppp/8/8/8/8/PPPPPPPP/RNBQKBNR w KQkq - 0 1";
    assert_eq!(quiescent(start, -1_000_000, 1_000_000, 32, &Some(spent)), None);
    let long = Some(Deadline::starting_now(3_600_000));
    assert_eq!(quiescent(start, -1_000_000, 1_000_000, 32, &long), Some(0));
}
