//! pq: parse and query streams of records with a PromQL-like language.
//!
//! The library holds the query and program grammars, the label model and the
//! vector-matching rules of the query engine, each with a contract proved by Verus.
pub mod text;
pub mod error;
pub mod model;
pub mod parse;
pub mod lexer;
pub mod duration;
pub mod query;
pub mod program;
pub mod time;
pub mod parsing;
pub mod decoding;
pub mod runner;
