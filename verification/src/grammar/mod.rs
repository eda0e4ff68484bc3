//! Grammars read from Ungrammar text and the element model built from them.

pub mod model;
pub mod ungrammar;
