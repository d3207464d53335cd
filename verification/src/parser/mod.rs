//! The parsers of Cypher and of GQL.
//!
//! A text is matched against a grammar (`grammar`, `peg`), which gives a parse
//! tree (`tree`); `meaning` says what syntax a tree stands for, and `build`
//! builds it.
pub mod build;
pub mod cypher;
pub mod error;
pub mod gql;
pub mod grammar;
pub mod laws;
pub mod lexical;
pub mod meaning;
pub mod peg;
pub mod query;
pub mod tree;

pub use cypher::parse as parse_cypher;
pub use gql::parse as parse_gql;
