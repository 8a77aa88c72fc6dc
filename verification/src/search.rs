//! The search and its parts: evaluator, move orderer, transposition cache
//! and the negamax driver.

pub mod evaluation;
pub mod exhaustive;
pub mod negamax;
pub mod ordering;
pub mod symmetry;
pub mod transposition;
