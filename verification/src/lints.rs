//! Lint rules: the contract that every rule meets and the rules themselves.

pub mod lint_rule;
pub mod unused_function;
