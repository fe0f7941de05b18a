//! A parser for bibliography databases: `@comment`, `@preamble`, `@string`
//! and record entries, read from text into a list of entries whose text
//! fields are slices of the input.
pub mod error;
pub mod grammar;
pub mod laws;
pub mod model;
pub mod parser;
pub mod scanner;
