//! Enumerates the arithmetic expressions that combine a row of integers, in
//! order, into a given target value, and renders the distinct ones as text.
pub mod operation;
pub mod expression;
pub mod generate;
pub mod shuffle;
pub mod equivalence;
pub mod complexity;
pub mod render;
pub mod solve;
pub mod traits;
