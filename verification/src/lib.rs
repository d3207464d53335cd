//! Cypher and GQL to SPARQL.
pub mod ast;
pub mod difftest;
pub mod error;
pub mod lqa;
pub mod names;
pub mod number;
pub mod parser;
pub mod sparql;
pub mod text;
pub mod translator;
