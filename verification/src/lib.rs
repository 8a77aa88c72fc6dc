//! Decision core of a small chess engine: a static evaluator, a capture-first
//! move orderer, a Zobrist-keyed transposition cache and a fixed-depth
//! negamax search with alpha-beta pruning, each with a machine-checked
//! contract.
//!
//! Scores are fixed-point integers counting hundredths of a pawn.

pub mod constants;
pub mod board;
pub mod attacks;
pub mod chance;
pub mod search;
pub mod engine;
pub mod uci;
