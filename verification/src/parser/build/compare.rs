//! Comparisons.
use vstd::prelude::*;

use crate::ast::cypher as ast;
#[allow(unused_imports)]
use crate::ast::cypher::CompOp;
#[allow(unused_imports)]
use crate::ast::model as m;
use crate::parser::build::expr::build_arithmetic;
use crate::parser::build::names::{build_comp_op, is_chained};
#[allow(unused_imports)]
use crate::parser::build::views::built_expression;
use crate::parser::error::{malformed_tree, syntax_error, ParseError};
use crate::parser::meaning::Arithmetic;
#[allow(unused_imports)]
use crate::parser::meaning::{binary_in, compared_in, comparison_in, suffix_in, suffixes_in};
use crate::parser::tree::{nth, width, Node, Rule};
#[allow(unused_imports)]
use crate::parser::tree::tree_of;

verus! {

pub fn build_comparison_expr(n: &Node, gql: bool) -> (r: Result<ast::Expression, ParseError>)
    ensures
        built_expression(r) == comparison_in(tree_of(*n), gql),
    decreases n, 1nat,
{
    let len: usize = width(n);
    if len == 0 {
        return Err(malformed_tree());
    }
    let first = nth(n, 0);
    let e = build_arithmetic(first, Arithmetic::Sum, gql)?;
    if gql {
        if len < 2 {
            return Ok(e);
        }
        let suffix = nth(n, 1);
        build_comparison_suffix(e, suffix, gql)
    } else {
        build_comparison_suffixes(e, n, gql)
    }
}

/// The suffixes behind the first operand, applied from left to right.
pub fn build_comparison_suffixes(lhs: ast::Expression, n: &Node, gql: bool) -> (r: Result<
    ast::Expression,
    ParseError,
>)
    ensures
        built_expression(r) == suffixes_in(
            m::expression_of(lhs),
            tree_of(*n).children,
            1,
            gql,
        ),
    decreases n, 0nat,
{
    let ghost ch = tree_of(*n).children;
    let ghost first = m::expression_of(lhs);
    let len: usize = width(n);
    let mut acc = lhs;
    let mut i: usize = 1;
    while i < len
        invariant
            ch == tree_of(*n).children,
            len == ch.len(),
            1 <= i,
            first == m::expression_of(lhs),
            suffixes_in(first, ch, 1, gql) == suffixes_in(m::expression_of(acc), ch, i as int, gql),
        decreases len - i,
    {
        let x = nth(n, i);
        acc = build_comparison_suffix(acc, x, gql)?;
        i = i + 1;
    }
    Ok(acc)
}

pub fn build_compared(lhs: ast::Expression, op: CompOp, n: &Node, i: usize, gql: bool) -> (r: Result<
    ast::Expression,
    ParseError,
>)
    ensures
        built_expression(r) == compared_in(m::expression_of(lhs), op, tree_of(*n), i as int, gql),
    decreases n, 0nat,
{
    if i < width(n) {
        let c = nth(n, i);
        let rhs = build_arithmetic(c, Arithmetic::Sum, gql)?;
        Ok(ast::Expression::Comparison(Box::new(lhs), op, Box::new(rhs)))
    } else {
        Err(malformed_tree())
    }
}

pub fn build_binary(lhs: ast::Expression, op: CompOp, n: &Node) -> (r: Result<
    ast::Expression,
    ParseError,
>)
    ensures
        built_expression(r) == binary_in(m::expression_of(lhs), op, tree_of(*n)),
    decreases n, 2nat,
{
    if !is_chained(n) {
        let rhs = build_comparison_expr(n, false)?;
        Ok(ast::Expression::Comparison(Box::new(lhs), op, Box::new(rhs)))
    } else if width(n) > 0 {
        let first = nth(n, 0);
        let mid = build_arithmetic(first, Arithmetic::Sum, false)?;
        let again = build_arithmetic(first, Arithmetic::Sum, false)?;
        let rest = build_comparison_suffixes(again, n, false)?;
        let left = ast::Expression::Comparison(Box::new(lhs), op, Box::new(mid));
        assert(m::expression_of(left) == m::Expression::Comparison(
            Box::new(m::expression_of(lhs)),
            op,
            Box::new(m::expression_of(mid)),
        ));
        Ok(ast::Expression::And(Box::new(left), Box::new(rest)))
    } else {
        Err(malformed_tree())
    }
}

pub fn build_comparison_suffix(lhs: ast::Expression, n: &Node, gql: bool) -> (r: Result<
    ast::Expression,
    ParseError,
>)
    ensures
        built_expression(r) == suffix_in(m::expression_of(lhs), tree_of(*n), gql),
    decreases n, 1nat,
{
    let len: usize = width(n);
    if len == 0 {
        return Err(malformed_tree());
    }
    let first = nth(n, 0);
    match first.rule {
        Rule::comp_op => match build_comp_op(first.text.as_str()) {
            None => {
                let message = "unknown comparison operator: ".to_owned().concat(
                    first.text.as_str(),
                );
                Err(syntax_error("", message.as_str()))
            },
            Some(op) => if gql {
                build_compared(lhs, op, n, 1, gql)
            } else if len > 1 {
                let rhs = nth(n, 1);
                build_binary(lhs, op, rhs)
            } else {
                Err(malformed_tree())
            },
        },
        Rule::regex_op => build_compared(lhs, CompOp::RegexMatch, n, 1, gql),
        Rule::kw_IS => {
            if len < 2 {
                return Err(malformed_tree());
            }
            let next = nth(n, 1);
            if next.rule == Rule::kw_NOT {
                Ok(ast::Expression::IsNotNull(Box::new(lhs)))
            } else {
                Ok(ast::Expression::IsNull(Box::new(lhs)))
            }
        },
        Rule::kw_IN => build_compared(lhs, CompOp::In, n, 1, gql),
        Rule::kw_NOT => {
            let e = build_compared(lhs, CompOp::In, n, 2, gql)?;
            Ok(ast::Expression::Not(Box::new(e)))
        },
        Rule::kw_STARTS => build_compared(lhs, CompOp::StartsWith, n, 2, gql),
        Rule::kw_ENDS => build_compared(lhs, CompOp::EndsWith, n, 2, gql),
        Rule::kw_CONTAINS => build_compared(lhs, CompOp::Contains, n, 1, gql),
        _ => Err(malformed_tree()),
    }
}

} // verus!
