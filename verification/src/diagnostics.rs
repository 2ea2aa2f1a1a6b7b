//! Diagnostics: the lint record and its rendering.

pub mod lint;
pub mod reporter;
