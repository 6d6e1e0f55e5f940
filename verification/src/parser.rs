//! The parser: a backtracking recursive descent over raw bytes.
pub mod base;
pub mod block;
pub mod directive;
pub mod document;
pub mod flow;
pub mod grammar;
pub mod kind;
pub mod sample;
pub mod scalar;
