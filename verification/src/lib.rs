//! Ultimate tic-tac-toe: board model, move generation and the integer parts of
//! the search heuristics, with their contracts.

pub mod cell_index;
pub mod map3x3;
pub mod tic_tac_toe;
pub mod cell_set;
pub mod game;
pub mod simulation;
pub mod heuristic;
pub mod old_heuristic;
pub mod tree;
pub mod search;
pub mod features;
pub mod feature_hash;
pub mod legacy;

pub use game::{NextActionConstraint, NoGameCache, UltTTT, UltTTTMCTSGame, UltTTTMove};
pub use heuristic::UltTTTHeuristic;
pub use old_heuristic::OldUltTTTHeuristic;
