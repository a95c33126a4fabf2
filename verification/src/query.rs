//! The query language: its grammar and the values its evaluation produces.
pub mod parser;
pub mod value;
pub mod sample;
pub mod evaluator;
pub mod aggregate;
