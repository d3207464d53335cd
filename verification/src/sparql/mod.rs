//! SPARQL.
pub mod algebra;
pub mod copy;
pub mod model;
pub mod value;
