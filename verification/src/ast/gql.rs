//! Abstract syntax of GQL queries.
use vstd::prelude::*;

use crate::ast::cypher::Clause;

verus! {

/// A parsed GQL query, as the Cypher clauses that mean the same.
#[derive(Debug, PartialEq)]
pub struct GqlQuery {
    pub clauses: Vec<Clause>,
}

} // verus!
