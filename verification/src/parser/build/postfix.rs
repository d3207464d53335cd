//! Lookups behind an atom.
use vstd::prelude::*;

use crate::ast::cypher as ast;
#[allow(unused_imports)]
use crate::ast::model as m;
use crate::parser::build::expr::{build_child_expression, build_expression};
use crate::parser::build::atom::build_atom;
use crate::parser::build::names::{build_key, build_node_labels};
#[allow(unused_imports)]
use crate::parser::build::views::built_expression;
use crate::parser::error::{malformed_tree, ParseError};
#[allow(unused_imports)]
use crate::parser::error::Fault;
use crate::parser::lexical::find_dots;
#[allow(unused_imports)]
use crate::parser::meaning::{
    boxed, dots_position, expression_in, postfix_in, postfixed_in, postfixes_in, slice_from,
    Slice,
};
use crate::parser::tree::{nth, width, Node, Rule};
#[allow(unused_imports)]
use crate::parser::tree::tree_of;
use crate::text::chars_of;

verus! {

/// An atom with the lookups behind it.
pub fn build_non_arith_expr(n: &Node, gql: bool) -> (r: Result<ast::Expression, ParseError>)
    ensures
        built_expression(r) == postfixed_in(tree_of(*n), gql),
    decreases n, 0nat,
{
    let ghost ch = tree_of(*n).children;
    let len: usize = width(n);
    if len == 0 {
        return Err(malformed_tree());
    }
    let first = nth(n, 0);
    let mut acc = build_atom(first, gql)?;
    let mut i: usize = 1;
    while i < len
        invariant
            ch == tree_of(*n).children,
            len == ch.len(),
            1 <= i,
            postfixed_in(tree_of(*n), gql) == postfixes_in(
                m::expression_of(acc),
                ch,
                i as int,
                gql,
            ),
        decreases len - i,
    {
        let x = nth(n, i);
        acc = build_postfix(acc, x, gql)?;
        i = i + 1;
    }
    Ok(acc)
}

pub fn build_postfix(acc: ast::Expression, n: &Node, gql: bool) -> (r: Result<
    ast::Expression,
    ParseError,
>)
    ensures
        built_expression(r) == postfix_in(m::expression_of(acc), tree_of(*n), gql),
    decreases n, 1nat,
{
    match n.rule {
        Rule::property_lookup => {
            let key = build_key(n)?;
            Ok(ast::Expression::Property(Box::new(acc), key))
        },
        Rule::slice_access => {
            let (start, end) = build_slice(n, gql)?;
            Ok(ast::Expression::ListSlice { list: Box::new(acc), start: in_box(start), end: in_box(end) })
        },
        Rule::subscript_access => {
            let e = build_child_expression(n, gql)?;
            Ok(ast::Expression::Subscript(Box::new(acc), Box::new(e)))
        },
        Rule::node_labels => {
            let labels = build_node_labels(n, gql);
            match acc {
                ast::Expression::Variable(variable) => Ok(
                    ast::Expression::LabelCheck { variable, labels },
                ),
                other => Ok(other),
            }
        },
        _ => Ok(acc),
    }
}

pub fn in_box(e: Option<ast::Expression>) -> (r: Option<Box<ast::Expression>>)
    ensures
        m::opt_boxed(r) == boxed(m::opt_expr(e)),
{
    match e {
        Some(e) => Some(Box::new(e)),
        None => None,
    }
}

pub fn build_slice(n: &Node, gql: bool) -> (r: Result<
    (Option<ast::Expression>, Option<ast::Expression>),
    ParseError,
>)
    ensures
        match slice_from(
            tree_of(*n).children,
            0,
            dots_position(tree_of(*n)),
            Slice { start: None, end: None },
            gql,
        ) {
            Ok(s) => r matches Ok(x) && m::opt_expr(x.0) == s.start && m::opt_expr(x.1) == s.end,
            Err(f) => r matches Err(e) && e@ == f,
        },
    decreases n, 0nat,
{
    let ghost ch = tree_of(*n).children;
    let v = chars_of(n.text.as_str());
    let shift: usize = match find_dots(&v) {
        Some(d) => d,
        None => 0,
    };
    let ghost dots = dots_position(tree_of(*n));
    assert(dots == shift);
    let len: usize = width(n);
    let mut start: Option<ast::Expression> = None;
    let mut end: Option<ast::Expression> = None;
    let mut i: usize = 0;
    while i < len
        invariant
            ch == tree_of(*n).children,
            len == ch.len(),
            dots == shift,
            dots == dots_position(tree_of(*n)),
            slice_from(ch, 0, dots, Slice { start: None, end: None }, gql) == slice_from(
                ch,
                i as int,
                dots,
                Slice { start: m::opt_expr(start), end: m::opt_expr(end) },
                gql,
            ),
        decreases len - i,
    {
        let c = nth(n, i);
        if c.rule == Rule::expression {
            let e = build_expression(c, gql)?;
            assert(expression_in(ch[i as int], gql) == Ok::<m::Expression, Fault>(
                m::expression_of(e),
            ));
            if c.start < shift {
                assert(ch[i as int].start < dots);
                start = Some(e);
                assert(m::opt_expr(start) == Some(m::expression_of(e)));
            } else {
                assert(ch[i as int].start >= dots);
                end = Some(e);
                assert(m::opt_expr(end) == Some(m::expression_of(e)));
            }
        }
        i = i + 1;
    }
    Ok((start, end))
}

} // verus!
