//! A filename-convention linter: casing grammars for file stems, an
//! exclusion matcher for ignore patterns, and the per-extension lint pass.

pub mod casing;
pub mod text;
pub mod config;
pub mod exclusion;
pub mod linter;
pub mod pattern;
