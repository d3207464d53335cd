//! Atoms.
use vstd::prelude::*;

use crate::ast::cypher as ast;
#[allow(unused_imports)]
use crate::ast::model as m;
use crate::parser::build::expr::{
    build_child_expression, build_expression, build_expressions, build_optional_expression,
};
use crate::parser::build::postfix::in_box;
use crate::parser::build::compound::{
    build_case_expression, build_exists, build_list_comprehension, build_pattern_comprehension,
    build_quantifier_expr,
};
use crate::parser::build::clause::build_relationships_pattern;
use crate::parser::build::names::{
    build_aggregate_name, build_bound_variable, build_child_labels, build_key, build_literal,
    ident_text, make_aggregate,
};
#[allow(unused_imports)]
use crate::parser::build::views::{
    after, built_entries, built_expression, built_option_entries, lemma_after_end,
    lemma_after_push, lemma_after_start,
};
use crate::parser::error::{malformed_tree, unsupported_feature, ParseError};
#[allow(unused_imports)]
use crate::parser::meaning::{
    aggregate_in, atom_in, boxed, entries_from, function_call_in, properties_in,
};
use crate::parser::tree::{child, has_child, nth, width, Node, Rule};
#[allow(unused_imports)]
use crate::parser::tree::tree_of;

verus! {

pub fn build_atom(n: &Node, gql: bool) -> (r: Result<ast::Expression, ParseError>)
    ensures
        built_expression(r) == atom_in(tree_of(*n), gql),
    decreases n, 0nat,
{
    if width(n) == 0 {
        return Err(malformed_tree());
    }
    let c = nth(n, 0);
    match c.rule {
        Rule::parameter => {
            let feature = "query parameter: ".to_owned().concat(c.text.as_str());
            Err(unsupported_feature(feature.as_str()))
        },
        Rule::legacy_parameter => {
            let feature = "legacy parameter: ".to_owned().concat(c.text.as_str());
            Err(unsupported_feature(feature.as_str()))
        },
        Rule::aggregate_expr => build_aggregate_expr(c, gql),
        Rule::case_expression => build_case_expression(c, gql),
        Rule::reduce_expr => Err(unsupported_feature("REDUCE expression")),
        Rule::exists_subquery => build_exists(c, gql),
        Rule::shortest_path_atom => Err(
            unsupported_feature("shortestPath / allShortestPaths expression"),
        ),
        Rule::quantifier_expr => build_quantifier_expr(c, gql),
        Rule::function_call => build_function_call(c, gql),
        Rule::label_check => {
            let variable = build_bound_variable(c)?;
            let labels = build_child_labels(c, gql);
            Ok(ast::Expression::LabelCheck { variable, labels })
        },
        Rule::list_comprehension => build_list_comprehension(c, gql),
        Rule::pattern_comprehension => build_pattern_comprehension(c, gql),
        Rule::pattern_predicate => {
            let elements = build_relationships_pattern(c, gql)?;
            let pattern = ast::Pattern { variable: None, elements };
            assert(m::pattern_of(pattern) == (m::Pattern {
                variable: None,
                elements: m::elements_of(elements@),
            }));
            Ok(ast::Expression::PatternPredicate(pattern))
        },
        Rule::list_literal => {
            let items = build_expressions(c, 0, gql)?;
            Ok(ast::Expression::List(items))
        },
        Rule::map_literal => {
            let entries = build_map_literal(c, gql)?;
            Ok(ast::Expression::MapLit(entries))
        },
        Rule::expression => build_expression(c, gql),
        Rule::variable => {
            let name = ident_text(c)?;
            Ok(ast::Expression::Variable(name))
        },
        _ => {
            let l = build_literal(c, gql)?;
            Ok(ast::Expression::Literal(l))
        },
    }
}

pub fn build_aggregate_expr(n: &Node, gql: bool) -> (r: Result<ast::Expression, ParseError>)
    ensures
        built_expression(r) == aggregate_in(tree_of(*n), gql),
    decreases n, 0nat,
{
    if width(n) == 0 {
        return Err(malformed_tree());
    }
    let c = nth(n, 0);
    let distinct = has_child(c, Rule::kw_DISTINCT);
    match c.rule {
        Rule::count_expr => {
            let e = build_optional_expression(c, gql)?;
            let a = ast::AggregateExpr::Count { distinct, expr: in_box(e) };
            assert(m::aggregate_expr_of(a) == (m::AggregateExpr::Count {
                distinct,
                expr: boxed(m::opt_expr(e)),
            }));
            Ok(ast::Expression::Aggregate(a))
        },
        Rule::agg_call_expr => {
            let e = build_child_expression(c, gql)?;
            let name = build_aggregate_name(c);
            let a = make_aggregate(name.as_str(), distinct, e)?;
            Ok(ast::Expression::Aggregate(a))
        },
        _ => Err(malformed_tree()),
    }
}

pub fn build_function_call(n: &Node, gql: bool) -> (r: Result<ast::Expression, ParseError>)
    ensures
        built_expression(r) == function_call_in(tree_of(*n), gql),
    decreases n, 1nat,
{
    if width(n) == 0 {
        return Err(malformed_tree());
    }
    let first = nth(n, 0);
    let args = build_expressions(n, 1, gql)?;
    Ok(
        ast::Expression::FunctionCall {
            name: first.text.clone(),
            distinct: has_child(n, Rule::kw_DISTINCT),
            args,
        },
    )
}

/// The entries of a map literal.
pub fn build_map_literal(n: &Node, gql: bool) -> (r: Result<Vec<(String, ast::Expression)>, ParseError>)
    ensures
        built_entries(r) == entries_from(tree_of(*n).children, 0, gql),
    decreases n, 0nat,
{
    let ghost ch = tree_of(*n).children;
    let len: usize = width(n);
    let mut v: Vec<(String, ast::Expression)> = Vec::new();
    let mut i: usize = 0;
    proof {
        lemma_after_start(m::entries_of(v@), entries_from(ch, i as int, gql));
    }
    while i < len
        invariant
            ch == tree_of(*n).children,
            len == ch.len(),
            entries_from(ch, 0, gql) == after(
                m::entries_of(v@),
                entries_from(ch, i as int, gql),
            ),
        decreases len - i,
    {
        let c = nth(n, i);
        if c.rule == Rule::map_entry {
            let key = build_key(c)?;
            let e = build_child_expression(c, gql)?;
            let x = (key, e);
            proof {
                lemma_after_push(m::entries_of(v@), (key@, m::expression_of(e)), entries_from(ch, i + 1, gql));
                m::lemma_push_entries_of(v@, x);
            }
            v.push(x);
        }
        i = i + 1;
    }
    proof {
        lemma_after_end(m::entries_of(v@));
    }
    Ok(v)
}

/// The entries of the first `properties` child, where there is one.
pub fn build_properties(n: &Node, gql: bool) -> (r: Result<
    Option<Vec<(String, ast::Expression)>>,
    ParseError,
>)
    ensures
        built_option_entries(r) == properties_in(tree_of(*n), gql),
    decreases n, 0nat,
{
    match child(n, Rule::properties) {
        None => Ok(None),
        Some(p) => match child(p, Rule::map_literal) {
            None => Err(malformed_tree()),
            Some(c) => {
                let e = build_map_literal(c, gql)?;
                Ok(Some(e))
            },
        },
    }
}

} // verus!
