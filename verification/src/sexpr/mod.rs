//! Canonical S-expression parsing and encoding.

pub mod error;
pub mod laws;
pub mod limits;
pub mod parser;
pub mod value;
pub mod writer;
