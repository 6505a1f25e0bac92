//! The search algorithms, from the plain negamax to iterative deepening.

pub mod hashtable;
pub mod tree;
pub mod negamax;
pub mod negamax_a_b;
pub mod negamax_a_b_quiescent;
pub mod negamax_a_b_table;
pub mod iterative_deepening;
pub mod iterative_deepening_table;
pub mod iterative_deepening_order;
pub mod pruning;
