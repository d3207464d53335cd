//! The Cypher parser.
use vstd::prelude::*;

use crate::ast::cypher::CypherQuery;
#[allow(unused_imports)]
use crate::ast::model as m;
use crate::parser::error::ParseError;
#[allow(unused_imports)]
use crate::parser::laws::paths::{clauses_alternate, law_parsed_paths_alternate};
#[allow(unused_imports)]
use crate::parser::query::parsed;
use crate::parser::query::parse_clauses;

verus! {

/// The query that a Cypher text writes. In every pattern of it nodes and relationships
/// take turns, and a node stands at both ends.
pub fn parse(input: &str) -> (r: Result<CypherQuery, ParseError>)
    ensures
        match parsed(input@, false) {
            Ok(c) => r matches Ok(q) && m::clauses_of(q.clauses@) == c,
            Err(f) => r matches Err(e) && e@ == f,
        },
        r matches Ok(q) ==> clauses_alternate(m::clauses_of(q.clauses@)),
{
    proof {
        law_parsed_paths_alternate(input@, false);
    }
    let clauses = parse_clauses(input, false)?;
    Ok(CypherQuery { clauses })
}

} // verus!
