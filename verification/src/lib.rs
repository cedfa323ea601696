//! Legality checking of moves in shogi, verified with Verus.
pub mod types;
pub mod bitboard;
pub mod model;
pub mod position;
pub mod normal;
pub mod prelegality;
pub mod checker;
pub mod checks;
pub mod laws;

pub use checker::LiteLegalityChecker;
pub use checks::{all_checks_partial, all_drop_checks_partial, is_in_check_partial_lite};
pub mod mate_value;
pub mod mate_solver;
pub mod perft;
pub mod game;
