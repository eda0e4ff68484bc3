//! Builds a cardinality model of an Ungrammar grammar, maps grammar names to
//! generated binding names, and shapes syntax trees into JSON-ready records.

pub mod cli;
pub mod config;
pub mod grammar;
pub mod json;
pub mod json_gen;
pub mod line_index;
pub mod scala_gen;
pub mod syntax;
pub mod text;
