//! From the text of a query to its clauses.
use vstd::prelude::*;

use crate::ast::cypher::Clause;
#[allow(unused_imports)]
use crate::ast::model as m;
use crate::parser::build::clause::build_query;
#[allow(unused_imports)]
use crate::parser::build::views::built_clauses;
use crate::parser::error::{syntax_error, ParseError};
#[allow(unused_imports)]
use crate::parser::error::{Built, Fault};
#[allow(unused_imports)]
use crate::parser::meaning::query_in;
use crate::parser::peg::{find_depth, run_peg, Outcome, Peg};
#[allow(unused_imports)]
use crate::parser::peg::{depth_for, run, Step};
use crate::parser::tree::Rule;
#[allow(unused_imports)]
use crate::parser::tree::{tree_of, trees_of};
use crate::text::{chars_of, digits_u128, utf8_prefix_len};
#[allow(unused_imports)]
use crate::text::{byte_len, dec};

verus! {

/// What the grammar makes of a text.
pub open spec fn whole_match(text: Seq<char>, gql: bool) -> Step {
    run(Peg::Call(Rule::query), text, 0, false, gql, depth_for(text.len()))
}

/// A position in a text, counted in bytes.
pub open spec fn position(text: Seq<char>, i: int) -> Seq<char> {
    "pos:"@ + dec(byte_len(text, i))
}

/// The clauses of a query. A text that the grammar does not match gives a
/// syntax error with the furthest position at which something else was looked
/// for.
pub open spec fn parsed(text: Seq<char>, gql: bool) -> Built<Seq<m::Clause>> {
    match whole_match(text, gql) {
        Step::Match { end, nodes, far } => query_in(nodes[0], gql),
        Step::Fail { far } => Err(
            Fault::Syntax { span: position(text, far), message: "unexpected input"@ },
        ),
        Step::Deep => Err(
            Fault::Syntax { span: position(text, 0), message: "query is nested too deeply"@ },
        ),
    }
}

fn write_position(s: &Vec<char>, i: usize) -> (r: String)
    ensures
        r@ == position(s@, i as int),
{
    "pos:".to_owned().concat(digits_u128(utf8_prefix_len(s, i)).as_str())
}

pub fn parse_clauses(input: &str, gql: bool) -> (r: Result<Vec<Clause>, ParseError>)
    ensures
        built_clauses(r) == parsed(input@, gql),
{
    let s = chars_of(input);
    let p = Peg::Call(Rule::query);
    match run_peg(&p, &s, 0, false, gql, find_depth(s.len())) {
        Outcome::Match { end: _, nodes, far: _ } => {
            assert(trees_of(nodes@).len() == 1);
            assert(trees_of(nodes@)[0] == tree_of(nodes@[0]));
            build_query(&nodes[0], gql)
        },
        Outcome::Fail { far } => {
            Err(syntax_error(write_position(&s, far).as_str(), "unexpected input"))
        },
        Outcome::Deep => {
            Err(syntax_error(write_position(&s, 0).as_str(), "query is nested too deeply"))
        },
    }
}

} // verus!
