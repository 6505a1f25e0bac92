use chess_algorithms::algorithms::iterative_deepening::{
    after_pass, deepen, deepening_round, root, Deepening,
};
use chess_algorithms::algorithms::tree::best_moves;
use chess_algorithms::clock::Deadline;
use chess_algorithms::iterative_deepening;

#[test]
fn iterative_deepening_checkmate_black_wins_in_1() {
    assert_eq!(root("4k3/8/8/8/8/2r5/1q6/5K2 b - - 3 2", 1, 1000), "Rc1");
}

#[test]
fn iterative_deepening_checkmate_black_wins_in_2() {
    let mov = root("4k3/8/8/8/1qr5/8/8/6K1 b - - 3 2", 1, 1000);
    if !(mov == "Qb2" || mov == "Qd2" || mov == "Rc2") {
        panic!("{}", mov);
    }
}

#[test]
fn iterative_deepening_checkmate_white_wins_in_1() {
    assert_eq!(root("5k2/2R5/1Q6/8/8/8/8/4K3 w - - 3 3", 1, 1000), "Qb8");
}

#[test]
fn iterative_deepening_checkmate_white_wins_in_2() {
    let mov = root("5k2/8/1Q6/2R5/8/8/8/4K3 w - - 3 3", 1, 1000);
    if !(mov == "Qb7" || mov == "Qa7" || mov == "Rc7") {
        panic!("{}", mov);
    }
}

#[test]
fn iterative_deepening_answers_without_time() {
    assert_eq!(root("4k3/8/8/8/8/2r5/1q6/5K2 b - - 3 2", 1, 0), "Rc1");
}

#[test]
fn iterative_deepening_refuses_what_cannot_be_searched() {
    assert_eq!(iterative_deepening("x", 1, 10), None);
    // stalemate: nothing to play
    assert_eq!(iterative_deepening("7k/5Q2/6K1/8/8/8/8/8 b - - 0 1", 1, 10), None);
    assert_eq!(
        iterative_deepening("4k3/8/8/8/8/2r5/1q6/5K2 b - - 3 2", 1, 10),
        Some("Rc1".to_string())
    );
}

const MATE_IN_TWO: &str = "4k3/8/8/8/1qr5/8/8/6K1 b - - 3 2";

fn state(reached: u64, best: Vec<usize>) -> Deepening {
    Deepening { reached, best, searching: true }
}

#[test]
fn after_pass_takes_a_completed_pass() {
    let next = after_pass(state(2, vec![5]), 3, Some(vec![7]));
    assert_eq!((next.reached, next.best, next.searching), (3, vec![7], true));
}

#[test]
fn after_pass_discards_an_interrupted_pass() {
    let next = after_pass(state(2, vec![5]), 3, None);
    assert_eq!((next.reached, next.best, next.searching), (2, vec![5], false));
}

#[test]
fn deepening_round_starts_no_pass_without_time() {
    let next = deepening_round(false, MATE_IN_TWO, 1, 1, &None, state(0, vec![5]));
    assert_eq!((next.reached, next.best, next.searching), (0, vec![5], false));
}

#[test]
fn deepening_round_takes_the_pass_it_completes() {
    let expected = best_moves(MATE_IN_TWO, 1, 2, true, &None).unwrap();
    let next = deepening_round(true, MATE_IN_TWO, 1, 2, &None, state(1, vec![5]));
    assert_eq!((next.reached, next.searching), (2, true));
    assert_eq!(next.best, expected);
}

#[test]
fn deepening_round_keeps_the_move_when_the_pass_is_interrupted() {
    let spent = Deadline::starting_now(0);
    while spent.start.elapsed().as_millis() < 2 {}
    let next = deepening_round(true, MATE_IN_TWO, 1, 2, &Some(spent), state(1, vec![5]));
    assert_eq!((next.reached, next.best, next.searching), (1, vec![5], false));
}

#[test]
fn deepen_returns_the_depth_with_the_move() {
    let end = deepen(MATE_IN_TWO, 1, 0);
    assert_eq!(end.reached, 0);
    assert_eq!(end.best, best_moves(MATE_IN_TWO, 1, 0, true, &None).unwrap());
    let end = deepen(MATE_IN_TWO, 1, 300);
    assert!(end.reached >= 1);
    assert!(!end.searching);
    assert_eq!(end.best, best_moves(MATE_IN_TWO, 1, end.reached, true, &None).unwrap());
}
