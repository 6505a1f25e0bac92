use chess_algorithms::algorithms::hashtable::{HashTable, PositionInfo};
use chess_algorithms::algorithms::negamax_a_b_table::root;
use chess_algorithms::negamax_a_b_table_move;
use chess_algorithms::utils::zobrish;

#[test]
fn negamax_a_b_table_checkmate_black_wins_in_1() {
    assert_eq!(root("4k3/8/8/8/8/2r5/1q6/5K2 b - - 3 2", 1, 3, None).mov, "Rc1");
}

#[test]
fn negamax_a_b_table_checkmate_black_wins_in_2() {
    let mov = root("4k3/8/8/8/1qr5/8/8/6K1 b - - 3 2", 1, 4, None).mov;
    if !(mov == "Qb2" || mov == "Qd2" || mov == "Rc2") {
        panic!("{}", mov);
    }
}

#[test]
fn negamax_a_b_table_checkmate_white_wins_in_1() {
    assert_eq!(root("5k2/2R5/1Q6/8/8/8/8/4K3 w - - 3 3", 1, 4, None).mov, "Qb8");
}

#[test]
fn negamax_a_b_table_checkmate_white_wins_in_2() {
    let mov = root("5k2/8/1Q6/2R5/8/8/8/4K3 w - - 3 3", 1, 4, None).mov;
    if !(mov == "Qb7" || mov == "Qa7" || mov == "Rc7") {
        panic!("{}", mov);
    }
}

#[test]
fn negamax_a_b_table_files_the_root() {
    let fen = "4k3/8/8/8/8/2r5/1q6/5K2 b - - 3 2";
    let mut result = root(fen, 1, 3, None);
    let entry = result.table.find(fen, 3).unwrap();
    assert_eq!(entry.depth, 3);
    assert_eq!(entry.mov, "Rc1");
    // mate on the board: the mate value, seen two plies before the end of the search
    assert_eq!(entry.score, 10_002);
    // the position after the move, scored for the side to move there
    let after = "4k3/8/8/8/8/8/1q6/2r2K2 w - - 4 3";
    let child = result.table.find(after, 2).unwrap();
    assert_eq!(child.depth, 2);
    assert_eq!(child.score, -10_002);
    assert_eq!(child.mov, "Rc1");
}

#[test]
fn negamax_a_b_table_answers_from_the_table() {
    let fen = "4k3/8/8/8/8/2r5/1q6/5K2 b - - 3 2";
    let mut table = HashTable::new();
    table.insert(fen, PositionInfo::new(5, 17, "Qb1".to_string()));
    let result = root(fen, 1, 3, Some(table));
    assert_eq!(result.mov, "Qb1");
    assert_eq!(result.table.table.len(), 1);
    assert_eq!(result.table.table.get(&zobrish(fen)).unwrap().score, 17);
}

#[test]
fn negamax_a_b_table_searches_past_a_shallow_entry() {
    let fen = "4k3/8/8/8/8/2r5/1q6/5K2 b - - 3 2";
    let mut table = HashTable::new();
    table.insert(fen, PositionInfo::new(2, 17, "Qb1".to_string()));
    let result = root(fen, 1, 3, Some(table));
    assert_eq!(result.mov, "Rc1");
}

#[test]
fn negamax_a_b_table_same_move_with_its_own_table() {
    let fen = "5k2/8/1Q6/2R5/8/8/8/4K3 w - - 3 3";
    let first = root(fen, 1, 3, None);
    let again = root(fen, 1, 3, Some(first.table));
    assert_eq!(again.mov, first.mov);
}

#[test]
fn negamax_a_b_table_move_refuses_what_cannot_be_searched() {
    assert!(negamax_a_b_table_move("x", 1, 3, None).is_none());
    assert!(negamax_a_b_table_move("4k3/8/8/8/8/2r5/1q6/5K2 b - - 3 2", 1, 0, None).is_none());
    let found = negamax_a_b_table_move("4k3/8/8/8/8/2r5/1q6/5K2 b - - 3 2", 1, 3, None).unwrap();
    assert_eq!(found.mov, "Rc1");
}
