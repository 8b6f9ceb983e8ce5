//! Address resolution for line coverage: classifies functions found in debug
//! information, maps line-program rows onto source locations of a project, and
//! aggregates them into one traceable entry per source line.

pub mod path;
pub mod classify;
pub mod resolve;
pub mod aggregate;

