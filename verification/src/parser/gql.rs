//! The GQL parser.
//!
//! The query comes back as Cypher clauses: `(n IS Person)` as `(n:Person)`,
//! `(n IS A & B)` as `(n:A:B)`, `-[r IS KNOWS]->` as `-[r:KNOWS]->`, a `FILTER`
//! as a `WITH` that keeps everything the predicate holds of, and `NEXT` as a
//! `WITH`.
use vstd::prelude::*;

use crate::ast::gql::GqlQuery;
#[allow(unused_imports)]
use crate::ast::model as m;
use crate::parser::error::ParseError;
#[allow(unused_imports)]
use crate::parser::laws::paths::{clauses_alternate, law_parsed_paths_alternate};
#[allow(unused_imports)]
use crate::parser::query::parsed;
use crate::parser::query::parse_clauses;

verus! {

/// The query that a GQL text writes. In every pattern of it nodes and relationships
/// take turns, and a node stands at both ends.
pub fn parse(input: &str) -> (r: Result<GqlQuery, ParseError>)
    ensures
        match parsed(input@, true) {
            Ok(c) => r matches Ok(q) && m::clauses_of(q.clauses@) == c,
            Err(f) => r matches Err(e) && e@ == f,
        },
        r matches Ok(q) ==> clauses_alternate(m::clauses_of(q.clauses@)),
{
    proof {
        law_parsed_paths_alternate(input@, true);
    }
    let clauses = parse_clauses(input, true)?;
    Ok(GqlQuery { clauses })
}

} // verus!
