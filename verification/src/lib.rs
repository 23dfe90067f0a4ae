//! A verified chess rules engine and search core.
//!
//! The crate represents a position, generates pseudo-legal moves per piece,
//! detects attacked squares, applies and reverts moves for tree search, and
//! walks a fixed-depth game tree with a negamax search over a material
//! evaluation.

pub mod piece;
pub mod board;
pub mod model;
pub mod movegen;
pub mod attack;
pub mod transition;
pub mod eval;
pub mod search;
pub mod square;
pub mod fen;
