use chess_algorithms::clock::{
    may_continue, may_continue_at, must_abort, must_abort_at, Deadline,
};
use chess_algorithms::tiebreak::{break_tie, choose_move};

fn sans() -> Vec<String> {
    ["a3", "b3", "c3", "d3", "e3"].iter().map(|s| s.to_string()).collect()
}

#[test]
fn choose_move_takes_the_picked_candidate() {
    let candidates = vec![4, 0, 2];
    assert_eq!(choose_move(&sans(), &candidates, 0), "e3");
    assert_eq!(choose_move(&sans(), &candidates, 1), "a3");
    assert_eq!(choose_move(&sans(), &candidates, 2), "c3");
}

#[test]
fn break_tie_returns_a_candidate() {
    let candidates = vec![1, 3];
    for seed in 0..50 {
        let mov = break_tie(&sans(), &candidates, seed);
        assert!(mov == "b3" || mov == "d3", "{}", mov);
    }
}

#[test]
fn break_tie_is_settled_by_the_seed() {
    let candidates = vec![0, 1, 2, 3, 4];
    for seed in 0..20 {
        let first = break_tie(&sans(), &candidates, seed);
        assert_eq!(break_tie(&sans(), &candidates, seed), first);
    }
}

#[test]
fn break_tie_reaches_every_candidate() {
    let candidates = vec![0, 1, 2, 3, 4];
    let mut seen = std::collections::BTreeSet::new();
    for seed in 0..200 {
        seen.insert(break_tie(&sans(), &candidates, seed));
    }
    assert_eq!(seen.len(), 5);
}

#[test]
fn break_tie_with_one_candidate() {
    for seed in 0..10 {
        assert_eq!(break_tie(&sans(), &vec![2], seed), "c3");
    }
}

#[test]
fn a_reading_is_held_against_the_budget() {
    let deadline = Deadline::starting_now(1000);
    assert!(!deadline.overrun_at(0));
    assert!(!deadline.overrun_at(999));
    assert!(!deadline.overrun_at(1000));
    assert!(deadline.overrun_at(1001));
    assert!(deadline.overrun_at(u128::MAX));
    assert!(deadline.time_left_at(0));
    assert!(deadline.time_left_at(999));
    assert!(!deadline.time_left_at(1000));
    assert!(!deadline.time_left_at(1001));
    let nothing = Deadline::starting_now(0);
    assert!(!nothing.overrun_at(0));
    assert!(nothing.overrun_at(1));
    assert!(!nothing.time_left_at(0));
    let all = Deadline::starting_now(u64::MAX);
    assert!(!all.overrun_at(u64::MAX as u128));
    assert!(all.overrun_at(u64::MAX as u128 + 1));
    assert!(all.time_left_at(u64::MAX as u128 - 1));
}

#[test]
fn no_deadline_never_aborts() {
    assert!(!must_abort(&None));
    assert!(may_continue(&None));
}

#[test]
fn a_long_budget_has_time_left() {
    let deadline = Deadline::starting_now(3_600_000);
    assert_eq!(deadline.max_time, 3_600_000);
    assert!(deadline.time_left());
    assert!(!deadline.overrun());
    assert!(!must_abort(&Some(Deadline::starting_now(3_600_000))));
    assert!(may_continue(&Some(Deadline::starting_now(3_600_000))));
}

#[test]
fn a_spent_budget_is_overrun() {
    let deadline = Deadline::starting_now(1);
    while deadline.start.elapsed().as_millis() < 3 {}
    assert!(deadline.overrun());
    assert!(!deadline.time_left());
    // a budget of nothing has no time left from the start
    assert!(!Deadline::starting_now(0).time_left());
}

#[test]
fn the_abort_is_decided_on_the_reading() {
    let deadline = Some(Deadline::starting_now(1000));
    assert!(!must_abort_at(&deadline, 0));
    assert!(!must_abort_at(&deadline, 1000));
    assert!(must_abort_at(&deadline, 1001));
    assert!(!must_abort_at(&None, 0));
    assert!(!must_abort_at(&None, u128::MAX));
    assert!(may_continue_at(&deadline, 999));
    assert!(!may_continue_at(&deadline, 1000));
    assert!(!may_continue_at(&deadline, 1001));
    assert!(may_continue_at(&None, u128::MAX));
    assert!(!may_continue_at(&Some(Deadline::starting_now(0)), 0));
}
