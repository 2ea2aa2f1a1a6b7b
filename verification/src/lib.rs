//! Static analysis for Noir programs: a single-pass walk over a syntax tree
//! that gathers function definitions and call sites, lint rules that inspect
//! the gathered facts, and a reporter that renders the findings.

pub mod ast;
pub mod diagnostics;
pub mod lints;
pub mod text;
