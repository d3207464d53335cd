//! The logical query algebra: expressions, operators, and the compiler that
//! turns write operators into SPARQL updates.
pub mod expr;
pub mod op;
pub mod write;
