use chess_algorithms::algorithms::hashtable::{HashTable, PositionInfo};
use chess_algorithms::algorithms::negamax::negamax_best_moves;
use chess_algorithms::algorithms::negamax_a_b::negamax_a_b_root;
use chess_algorithms::algorithms::tree::{
    after_root_successor, after_successor, best_moves, negamax_a_b, negamax_a_b_when, Scan,
};
use chess_algorithms::clock::Deadline;
use chess_algorithms::negamax_a_b_move;

#[test]
fn negamax_a_b_checkmate_black_wins_in_1() {
    assert_eq!(negamax_a_b_root("4k3/8/8/8/8/2r5/1q6/5K2 b - - 3 2", 1, 3), "Rc1");
}

#[test]
fn negamax_a_b_checkmate_black_wins_in_2() {
    let mov = negamax_a_b_root("4k3/8/8/8/1qr5/8/8/6K1 b - - 3 2", 1, 4);
    if !(mov == "Qb2" || mov == "Qd2" || mov == "Rc2") {
        panic!("{}", mov);
    }
}

#[test]
fn negamax_a_b_checkmate_white_wins_in_1() {
    assert_eq!(negamax_a_b_root("5k2/2R5/1Q6/8/8/8/8/4K3 w - - 3 3", 1, 4), "Qb8");
}

#[test]
fn negamax_a_b_checkmate_white_wins_in_2() {
    let mov = negamax_a_b_root("5k2/8/1Q6/2R5/8/8/8/4K3 w - - 3 3", 1, 4);
    if !(mov == "Qb7" || mov == "Qa7" || mov == "Rc7") {
        panic!("{}", mov);
    }
}

#[test]
fn negamax_a_b_selects_the_first_of_the_plain_best_moves() {
    let positions = [
        "4k3/8/8/8/8/2r5/1q6/5K2 b - - 3 2",
        "5k2/8/1Q6/2R5/8/8/8/4K3 w - - 3 3",
        "rnbqkbnr/pppp1ppp/8/4p3/3P4/8/PPP1PPPP/RNBQKBNR w KQkq - 0 2",
    ];
    for fen in positions {
        for depth in 1..=3 {
            let plain = negamax_best_moves(fen, 3, depth);
            let pruned = best_moves(fen, 3, depth - 1, false, &None).unwrap();
            assert_eq!(pruned, vec![plain[0]]);
        }
    }
}

#[test]
fn negamax_a_b_full_window_gives_the_plain_score() {
    let fen = "rnbqkbnr/pppp1ppp/8/4p3/3P4/8/PPP1PPPP/RNBQKBNR w KQkq - 0 2";
    let plain = chess_algorithms::algorithms::negamax::negamax(fen, 0, 2);
    let pruned = negamax_a_b(fen, 0, 2, -1_000_000, 1_000_000, false, &None, None);
    assert_eq!(pruned, Some(plain));
}

#[test]
fn negamax_a_b_cuts_off_at_beta() {
    // White is a pawn up at least; a window below that is cut off at beta.
    let fen = "rnbqkbnr/pppp1ppp/8/4P3/8/8/PPP1PPPP/RNBQKBNR w KQkq - 0 1";
    assert_eq!(negamax_a_b(fen, 0, 1, -50, 20, false, &None, None), Some(20));
}

#[test]
fn negamax_a_b_move_refuses_what_cannot_be_searched() {
    assert_eq!(negamax_a_b_move("8/8/8 w", 1, 3), None);
    assert_eq!(negamax_a_b_move("4k3/8/8/8/8/2r5/1q6/5K2 b - - 3 2", 1, 0), None);
    assert_eq!(
        negamax_a_b_move("4k3/8/8/8/8/2r5/1q6/5K2 b - - 3 2", 1, 3),
        Some("Rc1".to_string())
    );
}

#[test]
fn negamax_a_b_scores_a_mated_side_below_by_depth() {
    // White is checkmated: no successor, so the evaluation less the depth,
    // with or without quiescence search.
    let fen = "4k3/8/8/8/8/8/1q6/2r1K3 w - - 2 2";
    assert_eq!(negamax_a_b(fen, 7, 3, -1_000_000, 1_000_000, false, &None, None), Some(-10_003));
    assert_eq!(negamax_a_b(fen, 7, 5, -1_000_000, 1_000_000, true, &None, None), Some(-10_005));
    // a stalemated side scores the draw less the depth
    let fen = "7k/5Q2/6K1/8/8/8/8/8 b - - 0 1";
    assert_eq!(negamax_a_b(fen, 7, 2, -1_000_000, 1_000_000, false, &None, None), Some(-2));
}

#[test]
fn negamax_a_b_uses_a_remembered_score() {
    let fen = "rnbqkbnr/pppp1ppp/8/4P3/8/8/PPP1PPPP/RNBQKBNR w KQkq - 0 1";
    let mut table = HashTable::new();
    table.insert(fen, PositionInfo::new(2, 77, "Nf3".to_string()));
    let window = (-1_000_000, 1_000_000);
    assert_eq!(negamax_a_b(fen, 0, 2, window.0, window.1, false, &None, Some(&table)), Some(77));
    assert_eq!(negamax_a_b(fen, 0, 0, window.0, window.1, false, &None, Some(&table)), Some(77));
    // too shallow for depth 3: searched afresh
    let fresh = negamax_a_b(fen, 0, 3, window.0, window.1, false, &None, None);
    assert_eq!(negamax_a_b(fen, 0, 3, window.0, window.1, false, &None, Some(&table)), fresh);
    // a score outside the root window is no search result and is not used
    table.insert(fen, PositionInfo::new(2, 1_000_000, "Nf3".to_string()));
    assert_eq!(negamax_a_b(fen, 0, 0, window.0, window.1, false, &None, Some(&table)), Some(100));
}

#[test]
fn negamax_a_b_aborts_past_the_deadline() {
    let fen = "rnbqkbnr/pppp1ppp/8/4P3/8/8/PPP1PPPP/RNBQKBNR w KQkq - 0 1";
    let deadline = Some(Deadline::starting_now(0));
    while deadline.as_ref().unwrap().start.elapsed().as_millis() < 2 {}
    assert_eq!(negamax_a_b(fen, 0, 2, -1_000_000, 1_000_000, true, &deadline, None), None);
    assert_eq!(best_moves(fen, 0, 2, true, &deadline), None);
}

fn spent() -> Option<Deadline> {
    let deadline = Deadline::starting_now(0);
    while deadline.start.elapsed().as_millis() < 2 {}
    Some(deadline)
}

#[test]
fn after_successor_passes_an_abort_up() {
    assert_eq!(after_successor(None, -5, 40, None), Scan::Ends(None));
    assert_eq!(after_successor(None, -5, 40, Some(7)), Scan::Ends(None));
}

#[test]
fn after_successor_cuts_off_at_beta() {
    // the successor scores -40 and -90 for its side: 40 and 90 for ours
    assert_eq!(after_successor(Some(-40), -5, 40, Some(7)), Scan::Ends(Some(40)));
    assert_eq!(after_successor(Some(-90), -5, 40, None), Scan::Ends(Some(40)));
}

#[test]
fn after_successor_raises_the_lower_bound() {
    assert_eq!(
        after_successor(Some(-39), -5, 40, Some(7)),
        Scan::Continues { lower: 39, best: Some(39) }
    );
    assert_eq!(
        after_successor(Some(4), -5, 40, None),
        Scan::Continues { lower: -4, best: Some(-4) }
    );
}

#[test]
fn after_successor_keeps_the_best_score_below_the_bound() {
    assert_eq!(
        after_successor(Some(5), -5, 40, None),
        Scan::Continues { lower: -5, best: Some(-5) }
    );
    assert_eq!(
        after_successor(Some(9), -5, 40, Some(-20)),
        Scan::Continues { lower: -5, best: Some(-9) }
    );
    assert_eq!(
        after_successor(Some(30), -5, 40, Some(-20)),
        Scan::Continues { lower: -5, best: Some(-20) }
    );
}

#[test]
fn after_root_successor_ends_the_pass_on_an_abort() {
    assert_eq!(after_root_successor(None, 3, -1_000_000, vec![]), None);
    assert_eq!(after_root_successor(None, 3, 12, vec![1]), None);
}

#[test]
fn after_root_successor_keeps_the_first_best_move() {
    assert_eq!(after_root_successor(Some(-12), 0, -1_000_000, vec![]), Some((12, vec![0])));
    assert_eq!(after_root_successor(Some(-12), 3, 12, vec![0]), Some((12, vec![0])));
    assert_eq!(after_root_successor(Some(-13), 3, 12, vec![0]), Some((13, vec![3])));
    assert_eq!(after_root_successor(Some(20), 4, 12, vec![0]), Some((12, vec![0])));
}

#[test]
fn negamax_a_b_when_aborts_past_the_deadline() {
    let start = "rnbqkbnr/pppppppp/8/8/8/8/PPPPPPPP/RNBQKBNR w KQkq - 0 1";
    let mate = "4k3/8/8/8/8/8/1q6/2r1K3 w - - 2 2";
    let window = (-1_000_000, 1_000_000);
    let long = Some(Deadline::starting_now(3_600_000));
    let mut table = HashTable::new();
    table.insert(start, PositionInfo::new(9, 77, "e4".to_string()));
    for fen in [start, mate] {
        for depth in 0..3 {
            for quiescent in [false, true] {
                let r = negamax_a_b_when(
                    true, fen, 0, depth, window.0, window.1, quiescent, &long, Some(&table),
                );
                assert_eq!(r, None);
            }
        }
    }
}

#[test]
fn negamax_a_b_when_owes_a_score_where_the_clock_is_not_read_again() {
    let start = "rnbqkbnr/pppppppp/8/8/8/8/PPPPPPPP/RNBQKBNR w KQkq - 0 1";
    let mate = "4k3/8/8/8/8/8/1q6/2r1K3 w - - 2 2";
    let window = (-1_000_000, 1_000_000);
    let spent = spent();
    // a remembered score
    let mut table = HashTable::new();
    table.insert(start, PositionInfo::new(9, 77, "e4".to_string()));
    let r = negamax_a_b_when(false, start, 0, 4, window.0, window.1, true, &spent, Some(&table));
    assert_eq!(r, Some(77));
    // a leaf without quiescence search
    let r = negamax_a_b_when(false, start, 0, 0, window.0, window.1, false, &spent, None);
    assert_eq!(r, Some(0));
    // no successor to search
    let r = negamax_a_b_when(false, mate, 0, 3, window.0, window.1, true, &spent, None);
    assert_eq!(r, Some(-10_003));
    // a successor that aborts: the abort is passed up
    let r = negamax_a_b_when(false, start, 0, 1, window.0, window.1, false, &spent, None);
    assert_eq!(r, None);
}

#[test]
fn negamax_a_b_with_the_full_window_gives_the_plain_score() {
    let positions = [
        "rnbqkbnr/pppp1ppp/8/4p3/3P4/8/PPP1PPPP/RNBQKBNR w KQkq - 0 2",
        "4k3/8/8/8/1qr5/8/8/6K1 b - - 3 2",
        "4k3/8/8/8/8/8/1q6/2r1K3 w - - 2 2",
    ];
    for fen in positions {
        for depth in 0..=3 {
            let plain = chess_algorithms::algorithms::negamax::negamax(fen, 0, depth);
            let pruned = negamax_a_b(fen, 0, depth, -1_000_000, 1_000_000, false, &None, None);
            assert_eq!(pruned, Some(plain));
        }
    }
}
