use chess_algorithms::algorithms::iterative_deepening_order::{
    after_line_successor, after_ordered_pass, after_ordered_successor, iterative_deepening,
    iterative_deepening_when, quiescent_search, root, LineScan, OrderedDeepening,
};
use chess_algorithms::rules::{Move, Role};
use chess_algorithms::iterative_deepening_order;

#[test]
fn iterative_deepening_order_checkmate_black_wins_in_1() {
    assert_eq!(root("4k3/8/8/8/8/2r5/1q6/5K2 b - - 3 2", 1, 1000), "Rc1");
}

#[test]
fn iterative_deepening_order_checkmate_black_wins_in_2() {
    let mov = root("4k3/8/8/8/1qr5/8/8/6K1 b - - 3 2", 1, 2000);
    if !(mov == "Qb2" || mov == "Qd2" || mov == "Rc2") {
        panic!("{}", mov);
    }
}

#[test]
fn iterative_deepening_order_checkmate_white_wins_in_1() {
    assert_eq!(root("5k2/2R5/1Q6/8/8/8/8/4K3 w - - 3 3", 1, 1000), "Qb8");
}

#[test]
fn iterative_deepening_order_checkmate_white_wins_in_2() {
    let mov = root("5k2/8/1Q6/2R5/8/8/8/4K3 w - - 3 3", 1, 1000);
    if !(mov == "Qb7" || mov == "Qa7" || mov == "Rc7") {
        panic!("{}", mov);
    }
}

#[test]
fn iterative_deepening_order_answers_without_time() {
    assert_eq!(root("4k3/8/8/8/8/2r5/1q6/5K2 b - - 3 2", 1, 0), "Rc1");
}

#[test]
fn iterative_deepening_order_line_ends_with_the_move_made() {
    // Black mates with the rook; the line behind the score is that one move.
    let fen = "4k3/8/8/8/8/2r5/1q6/5K2 b - - 3 2";
    let (score, line) = iterative_deepening(fen, 1, 1, -1_000_000, 1_000_000, &None).unwrap();
    assert_eq!(score, 10_000);
    let last = line.last().unwrap();
    assert_eq!(last.role, chess_algorithms::rules::Role::Rook);
    assert_eq!(last.from, Some(18));
    assert_eq!(last.to, 2);
}

#[test]
fn iterative_deepening_order_quiescent_search_aborts_past_the_deadline() {
    let fen = "7k/8/8/8/8/8/8/q3R1K1 w - - 0 1";
    let start = instant::Instant::now();
    assert_eq!(quiescent_search(fen, -1_000_000, 1_000_000, 60_000, start), Some(500));
    while start.elapsed().as_millis() < 3 {}
    assert_eq!(quiescent_search(fen, -1_000_000, 1_000_000, 1, start), None);
}

#[test]
fn iterative_deepening_order_refuses_what_cannot_be_searched() {
    assert_eq!(iterative_deepening_order("x", 1, 10), None);
    assert_eq!(
        iterative_deepening_order("4k3/8/8/8/8/2r5/1q6/5K2 b - - 3 2", 1, 10),
        Some("Rc1".to_string())
    );
}

fn rook_move() -> Move {
    Move {
        role: Role::Rook,
        from: Some(18),
        to: 2,
        capture: None,
        promotion: None,
        en_passant: false,
        castle: false,
    }
}

fn sides(line: &[Move]) -> Vec<(Option<u8>, u8)> {
    line.iter().map(|m| (m.from, m.to)).collect()
}

#[test]
fn after_line_successor_passes_an_abort_up() {
    let step = after_line_successor(None, rook_move(), -5, 40, Some(7), vec![rook_move()]);
    assert!(matches!(step, LineScan::Ends(None)));
}

#[test]
fn after_line_successor_cuts_off_with_the_line_of_the_best_score() {
    let step = after_line_successor(Some((-40, vec![])), rook_move(), -5, 40, Some(7), vec![]);
    match step {
        LineScan::Ends(Some((score, line))) => {
            assert_eq!(score, 40);
            assert_eq!(sides(&line), vec![(Some(18), 2)]);
        }
        _ => panic!("no cutoff"),
    }
}

#[test]
fn after_line_successor_keeps_the_line_of_a_better_score() {
    let old_line = vec![Move { to: 9, ..rook_move() }];
    let step = after_line_successor(Some((9, vec![])), rook_move(), -5, 40, Some(-3), old_line);
    match step {
        LineScan::Continues { lower, best, line } => {
            assert_eq!((lower, best), (-5, Some(-3)));
            assert_eq!(sides(&line), vec![(Some(18), 9)]);
        }
        _ => panic!("the scan ended"),
    }
    let step = after_line_successor(Some((-9, vec![])), rook_move(), -5, 40, Some(-3), vec![]);
    match step {
        LineScan::Continues { lower, best, line } => {
            assert_eq!((lower, best), (9, Some(9)));
            assert_eq!(sides(&line), vec![(Some(18), 2)]);
        }
        _ => panic!("the scan ended"),
    }
}

#[test]
fn after_ordered_successor_ends_the_pass_on_an_abort() {
    let held = vec![rook_move()];
    assert!(after_ordered_successor(None, 3, rook_move(), 12, vec![0], held).is_none());
}

#[test]
fn after_ordered_successor_keeps_the_first_best_move() {
    let held = vec![Move { to: 9, ..rook_move() }];
    let next =
        after_ordered_successor(Some((-12, vec![])), 3, rook_move(), 12, vec![0], held.clone());
    let (alpha, best, line) = next.unwrap();
    assert_eq!((alpha, best), (12, vec![0]));
    assert_eq!(sides(&line), vec![(Some(18), 9)]);
    let next = after_ordered_successor(Some((-13, vec![])), 3, rook_move(), 12, vec![0], held);
    let (alpha, best, line) = next.unwrap();
    assert_eq!((alpha, best), (13, vec![3]));
    assert_eq!(sides(&line), vec![(Some(18), 2)]);
}

#[test]
fn after_ordered_pass_decides_on_what_the_pass_returned() {
    let state = || OrderedDeepening {
        reached: 2,
        best: vec![5],
        line: vec![rook_move()],
        searching: true,
    };
    let next = after_ordered_pass(state(), 3, Some((vec![7], vec![])));
    assert_eq!((next.reached, next.best, next.line.len(), next.searching), (3, vec![7], 0, true));
    let next = after_ordered_pass(state(), 3, None);
    assert_eq!((next.reached, next.best, next.line.len(), next.searching), (2, vec![5], 1, false));
}

#[test]
fn iterative_deepening_when_aborts_past_the_deadline() {
    let long = Some(chess_algorithms::clock::Deadline::starting_now(3_600_000));
    for fen in [
        "4k3/8/8/8/8/2r5/1q6/5K2 b - - 3 2",
        "4k3/8/8/8/8/8/1q6/2r1K3 w - - 2 2",
    ] {
        for depth in 0..3 {
            let r = iterative_deepening_when(true, fen, 1, depth, -1_000_000, 1_000_000, &long);
            assert!(r.is_none());
        }
    }
}

#[test]
fn iterative_deepening_when_owes_a_result_where_nothing_can_be_played() {
    let spent = chess_algorithms::clock::Deadline::starting_now(0);
    while spent.start.elapsed().as_millis() < 2 {}
    let mate = "4k3/8/8/8/8/8/1q6/2r1K3 w - - 2 2";
    let r = iterative_deepening_when(false, mate, 1, 3, -1_000_000, 1_000_000, &Some(spent));
    let (score, line) = r.unwrap();
    assert_eq!(score, -10_003);
    assert!(line.is_empty());
}
