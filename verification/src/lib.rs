//! A small formula calculator: a generic owned binary tree, a byte-level
//! lexer, an operator-priority parser that builds a token tree, and a
//! tree-walking evaluator with a session variable pool.

pub mod formula;
pub mod tree;
pub mod varpool;
