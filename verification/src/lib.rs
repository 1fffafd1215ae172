//! Lowering of a single-function, integer-only imperative language from its
//! abstract syntax tree to a flat stack-machine instruction sequence.
//!
//! The lowering resolves lexically scoped names to storage slots, allocates
//! control-flow labels, and linearizes structured control flow (conditionals,
//! loops, ternary, break/continue) into explicit branches over one flat
//! instruction stream.

pub mod ast;
pub mod ir;
pub mod laws;
