//! Parser of the query language.
pub mod ast;
pub mod vector;
pub mod expr;
