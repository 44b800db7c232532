//! Concatenates the files of a directory tree into one delimited text
//! artifact, skipping files whose relative paths match wildcard ignore
//! patterns.

pub mod ignore;
pub mod output;
pub mod wildcard;
