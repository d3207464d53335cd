//! Abstract syntax.
pub mod copy;
pub mod cypher;
pub mod gql;
pub mod model;
pub mod same;
