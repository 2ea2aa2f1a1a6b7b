//! Syntax-tree analysis: the tree model, the facts gathered from it, and the
//! traversal that gathers them.

pub mod analyzer;
pub mod ast_context;
pub mod gathered;
pub mod parser;
pub mod tree;
