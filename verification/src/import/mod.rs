//! Declarative import descriptions of libraries and schematics.

pub mod types;
pub mod parse;
