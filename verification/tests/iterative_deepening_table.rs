use chess_algorithms::algorithms::hashtable::HashTable;
use chess_algorithms::algorithms::iterative_deepening::Deepening;
use chess_algorithms::algorithms::iterative_deepening_table::{
    quiescent_search, recorded_round, root,
};
use chess_algorithms::clock::Deadline;
use shakmaty::Position;
use chess_algorithms::iterative_deepening_table;

#[test]
fn iterative_deepening_table_checkmate_black_wins_in_1() {
    assert_eq!(root("4k3/8/8/8/8/2r5/1q6/5K2 b - - 3 2", 1, 1000, None).mov, "Rc1");
}

#[test]
fn iterative_deepening_table_checkmate_black_wins_in_2() {
    let mov = root("4k3/8/8/8/1qr5/8/8/6K1 b - - 3 2", 1, 1000, None).mov;
    if !(mov == "Qb2" || mov == "Qd2" || mov == "Rc2") {
        panic!("{}", mov);
    }
}

#[test]
fn iterative_deepening_table_checkmate_white_wins_in_1() {
    assert_eq!(root("5k2/2R5/1Q6/8/8/8/8/4K3 w - - 3 3", 1, 1000, None).mov, "Qb8");
}

#[test]
fn iterative_deepening_table_checkmate_white_wins_in_2() {
    let mov = root("5k2/8/1Q6/2R5/8/8/8/4K3 w - - 3 3", 1, 1000, None).mov;
    if !(mov == "Qb7" || mov == "Qa7" || mov == "Rc7") {
        panic!("{}", mov);
    }
}

#[test]
fn iterative_deepening_table_answers_without_time() {
    // No time at all: the first pass is still completed.
    let fen = "4k3/8/8/8/8/2r5/1q6/5K2 b - - 3 2";
    let mut result = root(fen, 1, 0, None);
    assert_eq!(result.mov, "Rc1");
    // the mated position is filed with White's score
    let after = "4k3/8/8/8/8/8/1q6/2r2K2 w - - 4 3";
    let entry = result.table.find(after, 0).unwrap();
    assert_eq!(entry.score, -10_000);
    assert_eq!(entry.mov, "Rc1");
}

#[test]
fn iterative_deepening_table_quiescent_search() {
    let fen = "7k/8/8/8/8/8/8/q3R1K1 w - - 0 1";
    assert_eq!(quiescent_search(fen, -1_000_000, 1_000_000), 500);
}

#[test]
fn iterative_deepening_table_refuses_what_cannot_be_searched() {
    assert!(iterative_deepening_table("x", 1, 10, None).is_none());
    let found = iterative_deepening_table("4k3/8/8/8/8/2r5/1q6/5K2 b - - 3 2", 1, 10, None);
    assert_eq!(found.unwrap().mov, "Rc1");
}

#[test]
fn recorded_round_starts_no_pass_without_time() {
    let fen = "4k3/8/8/8/8/2r5/1q6/5K2 b - - 3 2";
    let successors = successors_of(fen);
    let sans = sans_of(fen);
    let mut table = HashTable::new();
    let state = Deepening { reached: 0, best: vec![4], searching: true };
    let next = recorded_round(false, &successors, &sans, 1, 1, &None, &mut table, state);
    assert_eq!((next.reached, next.best, next.searching), (0, vec![4], false));
    assert!(table.table.is_empty());
}

#[test]
fn recorded_round_takes_the_pass_it_completes() {
    let fen = "4k3/8/8/8/8/2r5/1q6/5K2 b - - 3 2";
    let successors = successors_of(fen);
    let sans = sans_of(fen);
    let mut table = HashTable::new();
    let state = Deepening { reached: 0, best: vec![4], searching: true };
    let next = recorded_round(true, &successors, &sans, 1, 1, &None, &mut table, state);
    assert_eq!((next.reached, next.searching), (1, true));
    assert_eq!(sans[next.best[0]], "Rc1");
    // every successor was filed at the depth of the pass
    assert_eq!(table.table.len(), successors.len());
    assert!(table.table.values().all(|info| info.depth == 1));
}

#[test]
fn recorded_round_keeps_the_move_when_the_pass_is_interrupted() {
    let fen = "4k3/8/8/8/8/2r5/1q6/5K2 b - - 3 2";
    let successors = successors_of(fen);
    let sans = sans_of(fen);
    let spent = Deadline::starting_now(0);
    while spent.start.elapsed().as_millis() < 2 {}
    let mut table = HashTable::new();
    let state = Deepening { reached: 0, best: vec![4], searching: true };
    let next = recorded_round(true, &successors, &sans, 1, 1, &Some(spent), &mut table, state);
    assert_eq!((next.reached, next.best, next.searching), (0, vec![4], false));
    assert!(table.table.is_empty());
}

fn position(fen: &str) -> shakmaty::Chess {
    fen.parse::<shakmaty::fen::Fen>()
        .unwrap()
        .into_position(shakmaty::CastlingMode::Standard)
        .unwrap()
}

fn successors_of(fen: &str) -> Vec<Option<String>> {
    let pos = position(fen);
    pos.legal_moves()
        .iter()
        .map(|m| {
            let after = pos.clone().play(m).unwrap();
            let mode = shakmaty::EnPassantMode::Legal;
            Some(shakmaty::fen::Fen::from_position(after, mode).to_string())
        })
        .collect()
}

fn sans_of(fen: &str) -> Vec<String> {
    let pos = position(fen);
    pos.legal_moves().iter().map(|m| shakmaty::san::San::from_move(&pos, m).to_string()).collect()
}
