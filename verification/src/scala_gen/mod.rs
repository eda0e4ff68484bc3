//! Generating Scala bindings for the grammar's nodes and tokens.

pub mod names;
