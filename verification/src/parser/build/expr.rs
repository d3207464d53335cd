//! Expressions: connectives, arithmetic and powers.
use vstd::prelude::*;

use crate::ast::cypher as ast;
#[allow(unused_imports)]
use crate::ast::model as m;
use crate::parser::build::compare::build_comparison_expr;
use crate::parser::build::postfix::build_non_arith_expr;
#[allow(unused_imports)]
use crate::parser::build::views::{
    after, built_expression, built_expressions, built_option_expression, lemma_after_end,
    lemma_after_push, lemma_after_start,
};
use crate::parser::error::{malformed_tree, ParseError};
#[allow(unused_imports)]
use crate::parser::error::Fault;
use crate::parser::lexical::least_magnitude;
use crate::parser::meaning::{Arithmetic, Connective};
#[allow(unused_imports)]
use crate::parser::meaning::{
    applied, arithmetic_in, child_expression_in, connected_in, expression_in, expressions_from,
    joined, not_in, operand_in, operand_rule, optional_expression_in, power_in, powers_in,
    term_in, terms_in, unary_in,
};
use crate::parser::tree::{child, child_from, nth, width, Node, Rule};
#[allow(unused_imports)]
use crate::parser::tree::tree_of;
use crate::text::{same_text, trim};

verus! {

pub fn build_expression(n: &Node, gql: bool) -> (r: Result<ast::Expression, ParseError>)
    ensures
        built_expression(r) == expression_in(tree_of(*n), gql),
    decreases n, 0nat,
{
    if width(n) > 0 {
        let c = nth(n, 0);
        build_connected(c, Connective::Or, gql)
    } else {
        Err(malformed_tree())
    }
}

/// The first `expression` child.
pub fn build_child_expression(n: &Node, gql: bool) -> (r: Result<ast::Expression, ParseError>)
    ensures
        built_expression(r) == child_expression_in(tree_of(*n), gql),
    decreases n, 0nat,
{
    match child(n, Rule::expression) {
        Some(c) => build_expression(c, gql),
        None => Err(malformed_tree()),
    }
}

/// The first `expression` child, where there is one.
pub fn build_optional_expression(n: &Node, gql: bool) -> (r: Result<
    Option<ast::Expression>,
    ParseError,
>)
    ensures
        built_option_expression(r) == optional_expression_in(tree_of(*n), 0, gql),
    decreases n, 0nat,
{
    match child_from(n, Rule::expression, 0) {
        Some(c) => {
            let e = build_expression(c, gql)?;
            Ok(Some(e))
        },
        None => Ok(None),
    }
}

/// The expressions among the children, from a position on.
pub fn build_expressions(n: &Node, from: usize, gql: bool) -> (r: Result<Vec<ast::Expression>, ParseError>)
    ensures
        built_expressions(r) == expressions_from(tree_of(*n).children, from as int, gql),
    decreases n, 0nat,
{
    let ghost ch = tree_of(*n).children;
    let len: usize = width(n);
    let mut v: Vec<ast::Expression> = Vec::new();
    let mut i: usize = from;
    proof {
        lemma_after_start(m::exprs_of(v@), expressions_from(ch, i as int, gql));
    }
    while i < len
        invariant
            ch == tree_of(*n).children,
            len == ch.len(),
            expressions_from(ch, from as int, gql) == after(
                m::exprs_of(v@),
                expressions_from(ch, i as int, gql),
            ),
        decreases len - i,
    {
        let c = nth(n, i);
        if c.rule == Rule::expression {
            let x = build_expression(c, gql)?;
            proof {
                lemma_after_push(m::exprs_of(v@), m::expression_of(x), expressions_from(ch, i + 1, gql));
                m::lemma_push_exprs_of(v@, x);
            }
            v.push(x);
        }
        i = i + 1;
    }
    proof {
        lemma_after_end(m::exprs_of(v@));
    }
    Ok(v)
}

fn join(acc: Option<ast::Expression>, c: Connective, e: ast::Expression) -> (r: ast::Expression)
    ensures
        m::expression_of(r) == joined(m::opt_expr(acc), c, m::expression_of(e)),
{
    match acc {
        None => e,
        Some(a) => match c {
            Connective::Or => ast::Expression::Or(Box::new(a), Box::new(e)),
            Connective::Xor => ast::Expression::Xor(Box::new(a), Box::new(e)),
            Connective::And => ast::Expression::And(Box::new(a), Box::new(e)),
        },
    }
}

fn rule_of_operand(c: Connective) -> (r: Rule)
    ensures
        r == operand_rule(c),
{
    match c {
        Connective::Or => Rule::xor_expr,
        Connective::Xor => Rule::and_expr,
        Connective::And => Rule::not_expr,
    }
}

/// The operands of a connective, joined from left to right.
pub fn build_connected(n: &Node, c: Connective, gql: bool) -> (r: Result<ast::Expression, ParseError>)
    ensures
        built_expression(r) == connected_in(tree_of(*n).children, 0, None, c, gql),
    decreases n, 1nat,
{
    let ghost ch = tree_of(*n).children;
    let len: usize = width(n);
    let rule = rule_of_operand(c);
    let mut acc: Option<ast::Expression> = None;
    let mut i: usize = 0;
    while i < len
        invariant
            ch == tree_of(*n).children,
            len == ch.len(),
            rule == operand_rule(c),
            connected_in(ch, 0, None, c, gql) == connected_in(
                ch,
                i as int,
                m::opt_expr(acc),
                c,
                gql,
            ),
        decreases len - i,
    {
        let x = nth(n, i);
        if x.rule == rule {
            let e = build_operand(x, c, gql)?;
            acc = Some(join(acc, c, e));
        }
        i = i + 1;
    }
    match acc {
        Some(e) => Ok(e),
        None => Err(malformed_tree()),
    }
}

pub fn build_operand(n: &Node, c: Connective, gql: bool) -> (r: Result<ast::Expression, ParseError>)
    ensures
        built_expression(r) == operand_in(tree_of(*n), c, gql),
    decreases n, 2nat,
{
    match c {
        Connective::Or => build_connected(n, Connective::Xor, gql),
        Connective::Xor => build_connected(n, Connective::And, gql),
        Connective::And => build_not_expr(n, gql),
    }
}

pub fn build_not_expr(n: &Node, gql: bool) -> (r: Result<ast::Expression, ParseError>)
    ensures
        built_expression(r) == not_in(tree_of(*n), gql),
    decreases n, 0nat,
{
    let len: usize = width(n);
    if len == 0 {
        return Err(malformed_tree());
    }
    let first = nth(n, 0);
    if first.rule == Rule::kw_NOT {
        if len < 2 {
            return Err(malformed_tree());
        }
        let nested = nth(n, 1);
        let e = build_not_expr(nested, gql)?;
        Ok(ast::Expression::Not(Box::new(e)))
    } else if first.rule == Rule::comparison_expr {
        build_comparison_expr(first, gql)
    } else {
        Err(malformed_tree())
    }
}

fn apply(level: Arithmetic, op: &str, a: ast::Expression, b: ast::Expression) -> (r: Option<
    ast::Expression,
>)
    ensures
        m::opt_expr(r) == applied(level, op@, m::expression_of(a), m::expression_of(b)),
{
    match level {
        Arithmetic::Sum => if same_text(op, "+") {
            Some(ast::Expression::Add(Box::new(a), Box::new(b)))
        } else if same_text(op, "-") {
            Some(ast::Expression::Subtract(Box::new(a), Box::new(b)))
        } else {
            None
        },
        Arithmetic::Product => if same_text(op, "*") {
            Some(ast::Expression::Multiply(Box::new(a), Box::new(b)))
        } else if same_text(op, "/") {
            Some(ast::Expression::Divide(Box::new(a), Box::new(b)))
        } else if same_text(op, "%") {
            Some(ast::Expression::Modulo(Box::new(a), Box::new(b)))
        } else {
            None
        },
    }
}

pub fn build_arithmetic(n: &Node, level: Arithmetic, gql: bool) -> (r: Result<
    ast::Expression,
    ParseError,
>)
    ensures
        built_expression(r) == arithmetic_in(tree_of(*n), level, gql),
    decreases n, 1nat,
{
    let ghost ch = tree_of(*n).children;
    let len: usize = width(n);
    if len == 0 {
        return Err(malformed_tree());
    }
    let first = nth(n, 0);
    let mut acc = build_term(first, level, gql)?;
    let mut i: usize = 1;
    while i < len
        invariant
            ch == tree_of(*n).children,
            len == ch.len(),
            1 <= i,
            arithmetic_in(tree_of(*n), level, gql) == terms_in(
                m::expression_of(acc),
                ch,
                i as int,
                level,
                gql,
            ),
        decreases len - i,
    {
        let op = nth(n, i);
        if len - i < 2 {
            return Err(malformed_tree());
        }
        let operand = nth(n, i + 1);
        let ghost before = m::expression_of(acc);
        assert(ch[i as int].text == op.text@);
        let rhs = build_term(operand, level, gql)?;
        let ghost right = m::expression_of(rhs);
        assert(term_in(ch[i + 1], level, gql) == Ok::<m::Expression, Fault>(right));
        match apply(level, op.text.as_str(), acc, rhs) {
            None => {
                assert(applied(level, ch[i as int].text, before, right) is None);
                return Err(malformed_tree());
            },
            Some(e) => {
                assert(applied(level, ch[i as int].text, before, right) == Some(
                    m::expression_of(e),
                ));
                acc = e;
            },
        }
        if len - i == 2 {
            assert(terms_in(m::expression_of(acc), ch, i + 2, level, gql) == Ok::<
                m::Expression,
                Fault,
            >(m::expression_of(acc)));
            return Ok(acc);
        }
        i = i + 2;
    }
    Ok(acc)
}

pub fn build_term(n: &Node, level: Arithmetic, gql: bool) -> (r: Result<ast::Expression, ParseError>)
    ensures
        built_expression(r) == term_in(tree_of(*n), level, gql),
    decreases n, 2nat,
{
    match level {
        Arithmetic::Sum => build_arithmetic(n, Arithmetic::Product, gql),
        Arithmetic::Product => if gql {
            build_unary_expr(n, gql)
        } else {
            build_power_expr(n, gql)
        },
    }
}

pub fn build_unary_expr(n: &Node, gql: bool) -> (r: Result<ast::Expression, ParseError>)
    ensures
        built_expression(r) == unary_in(tree_of(*n), gql),
    decreases n, 0nat,
{
    if width(n) == 0 {
        return Err(malformed_tree());
    }
    let c = nth(n, 0);
    match c.rule {
        Rule::unary_minus => {
            if width(c) == 0 {
                return Err(malformed_tree());
            }
            let operand = nth(c, 0);
            let raw = trim(operand.text.as_str());
            if !gql && least_magnitude(raw.as_str()) {
                return Ok(ast::Expression::Literal(ast::Literal::Integer(i64::MIN)));
            }
            let e = build_unary_expr(operand, gql)?;
            Ok(ast::Expression::Negate(Box::new(e)))
        },
        Rule::unary_plus => {
            if width(c) == 0 {
                return Err(malformed_tree());
            }
            let operand = nth(c, 0);
            build_unary_expr(operand, gql)
        },
        Rule::non_arith_expr => build_non_arith_expr(c, gql),
        Rule::power_expr => build_power_expr(c, gql),
        _ => Err(malformed_tree()),
    }
}

pub fn build_power_expr(n: &Node, gql: bool) -> (r: Result<ast::Expression, ParseError>)
    ensures
        built_expression(r) == power_in(tree_of(*n), gql),
    decreases n, 0nat,
{
    let ghost ch = tree_of(*n).children;
    let len: usize = width(n);
    if len == 0 {
        return Err(malformed_tree());
    }
    let first = nth(n, 0);
    if gql {
        let base = build_non_arith_expr(first, gql)?;
        if len < 2 {
            return Ok(base);
        }
        let exponent = nth(n, 1);
        let e = build_unary_expr(exponent, gql)?;
        return Ok(ast::Expression::Power(Box::new(base), Box::new(e)));
    }
    let mut acc = build_unary_expr(first, gql)?;
    let mut i: usize = 1;
    while i < len
        invariant
            ch == tree_of(*n).children,
            len == ch.len(),
            1 <= i,
            power_in(tree_of(*n), gql) == powers_in(m::expression_of(acc), ch, i as int, gql),
        decreases len - i,
    {
        let x = nth(n, i);
        let e = build_unary_expr(x, gql)?;
        acc = ast::Expression::Power(Box::new(acc), Box::new(e));
        i = i + 1;
    }
    Ok(acc)
}

} // verus!
