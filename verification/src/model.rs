//! The data model: label matchers and label sets.
pub mod labels;
pub mod label_set;
pub mod order;
