//! A falling-block puzzle engine: pieces of four blocks fall down a well
//! ten cells wide and twenty deep, settle into a stack, and full rows clear.
pub mod engine;
pub mod geometry;
pub mod invariants;
pub mod piece;
pub mod round;
pub mod shape;
pub mod stack;
