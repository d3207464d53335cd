//! How arithmetic is translated.
use vstd::prelude::*;

use crate::ast::copy::clone_expression;
use crate::ast::cypher::Expression;
#[allow(unused_imports)]
use crate::ast::model as m;
use crate::error::PolygraphError;
use crate::sparql::algebra as sparql;
#[allow(unused_imports)]
use crate::sparql::model as g;
use crate::translator::analysis::expr_is_string_producer;
use crate::translator::expr::forms::{find_given, look_at_operand};
#[allow(unused_imports)]
use crate::translator::expr::meaning as w;
use crate::translator::expr::parts::{make_arith, make_concatenated, make_list_or_sum, Arith};
#[allow(unused_imports)]
use crate::translator::expr::walk::{both_result, is_done};
use crate::translator::expr::walk::{make_null, refuse_depth, translate_pair};
use crate::translator::formula::make_quoted;
use crate::translator::ground::serialize_list_literal;
use crate::translator::known::cypher_expr_contains_null;
use crate::translator::refusal::{unsupported_construct, unsupported_feature};
#[allow(unused_imports)]
use crate::translator::resolve::{
    find_appended, find_hops, find_prepended, join_lists, try_resolve_to_items,
};
#[allow(unused_imports)]
use crate::translator::resolve::opt_exprs;
use crate::translator::scope::{Output, Scope};
#[allow(unused_imports)]
use crate::translator::scope::out_of;

verus! {

pub fn translate_arithmetic(
    op: Arith,
    a: &Expression,
    b: &Expression,
    s: &Scope,
    out: &mut Output,
    extra: &mut Vec<sparql::TriplePattern>,
    depth: usize,
) -> (r: Result<sparql::Expr, PolygraphError>)
    ensures
        is_done(
            w::arithmetic(
                op,
                m::expression_of(*a),
                m::expression_of(*b),
                *s,
                out_of(*old(out), old(extra)@),
                depth as nat,
            ),
            *final(out),
            final(extra)@,
            r,
        ),
    decreases depth, 1int, 0int,
{
    if depth == 0 {
        return Err(refuse_depth());
    }
    match translate_pair(a, b, s, out, extra, depth - 1) {
        Err(x) => Err(x),
        Ok((x, y)) => Ok(make_arith(op, x, y)),
    }
}

fn find_list_sum(a: &Expression, b: &Expression, s: &Scope) -> (r: Option<Vec<Expression>>)
    ensures
        opt_exprs(r) == w::list_sum(m::expression_of(*a), m::expression_of(*b), *s),
{
    match (
        try_resolve_to_items(a, s, find_hops(s)),
        try_resolve_to_items(b, s, find_hops(s)),
    ) {
        (Some(x), Some(y)) => Some(join_lists(x, y)),
        (Some(x), None) => match find_appended(b, s, find_hops(s)) {
            Some(v) => {
                let mut x = x;
                proof {
                    m::lemma_push_exprs_of(x@, v);
                }
                x.push(v);
                Some(x)
            },
            None => None,
        },
        (None, Some(y)) => match find_prepended(a) {
            Some(v) => {
                let mut first: Vec<Expression> = Vec::new();
                proof {
                    m::lemma_push_exprs_of(first@, v);
                }
                first.push(v);
                assert(m::exprs_of(first@) =~= seq![m::expression_of(v)]);
                Some(join_lists(first, y))
            },
            None => None,
        },
        _ => None,
    }
}

fn temporal_result(
    e: &Expression,
    both: Result<(sparql::Expr, sparql::Expr), PolygraphError>,
    s: &Scope,
) -> (r: Result<sparql::Expr, PolygraphError>)
    ensures
        forall|o: crate::translator::scope::Out|
            #![trigger w::temporal_arithmetic(
                m::expression_of(*e),
                w::Both { out: o, result: both_result(both) },
                *s,
            )]
            w::temporal_arithmetic(
                m::expression_of(*e),
                w::Both { out: o, result: both_result(both) },
                *s,
            ) == (w::Done {
                out: o,
                result: crate::translator::expr::walk::expr_result(r),
            }),
{
    match both {
        Err(x) => Err(x),
        Ok(_) => match find_given(e, s) {
            Some(x) => Ok(x),
            None => Err(unsupported_feature("temporal arithmetic")),
        },
    }
}

fn are_properties(a: &Expression, b: &Expression) -> (r: bool)
    ensures
        r == (m::expression_of(*a) is Property && m::expression_of(*b) is Property),
{
    match (a, b) {
        (Expression::Property(_, _), Expression::Property(_, _)) => true,
        _ => false,
    }
}

pub fn translate_sum(
    a: &Expression,
    b: &Expression,
    s: &Scope,
    out: &mut Output,
    extra: &mut Vec<sparql::TriplePattern>,
    depth: usize,
) -> (r: Result<sparql::Expr, PolygraphError>)
    ensures
        is_done(
            w::sum(
                m::expression_of(*a),
                m::expression_of(*b),
                *s,
                out_of(*old(out), old(extra)@),
                depth as nat,
            ),
            *final(out),
            final(extra)@,
            r,
        ),
    decreases depth, 1int, 0int,
{
    if depth == 0 {
        return Err(refuse_depth());
    }
    if let Some(items) = find_list_sum(a, b, s) {
        return Ok(make_quoted(serialize_list_literal(&items).as_str()));
    }
    let ghost both = w::pair(
        m::expression_of(*a),
        m::expression_of(*b),
        *s,
        out_of(*out, extra@),
        (depth - 1) as nat,
    );
    let found = translate_pair(a, b, s, out, extra, depth - 1);
    assert(both == (w::Both { out: out_of(*out, extra@), result: both_result(found) }));
    if look_at_operand(a, s).is_some() {
        let whole = Expression::Add(
            Box::new(clone_expression(a)),
            Box::new(clone_expression(b)),
        );
        assert(m::expression_of(whole) == m::Expression::Add(
            Box::new(m::expression_of(*a)),
            Box::new(m::expression_of(*b)),
        ));
        return temporal_result(&whole, found, s);
    }
    match found {
        Err(x) => Err(x),
        Ok((x, y)) => if expr_is_string_producer(a) || expr_is_string_producer(b) {
            Ok(make_concatenated(x, y))
        } else if are_properties(a, b) {
            Ok(make_list_or_sum(x, y))
        } else {
            Ok(make_arith(Arith::Add, x, y))
        },
    }
}

pub fn translate_difference(
    a: &Expression,
    b: &Expression,
    s: &Scope,
    out: &mut Output,
    extra: &mut Vec<sparql::TriplePattern>,
    depth: usize,
) -> (r: Result<sparql::Expr, PolygraphError>)
    ensures
        is_done(
            w::difference(
                m::expression_of(*a),
                m::expression_of(*b),
                *s,
                out_of(*old(out), old(extra)@),
                depth as nat,
            ),
            *final(out),
            final(extra)@,
            r,
        ),
    decreases depth, 1int, 0int,
{
    if depth == 0 {
        return Err(refuse_depth());
    }
    let ghost both = w::pair(
        m::expression_of(*a),
        m::expression_of(*b),
        *s,
        out_of(*out, extra@),
        (depth - 1) as nat,
    );
    let found = translate_pair(a, b, s, out, extra, depth - 1);
    assert(both == (w::Both { out: out_of(*out, extra@), result: both_result(found) }));
    if look_at_operand(a, s).is_some() {
        let whole = Expression::Subtract(
            Box::new(clone_expression(a)),
            Box::new(clone_expression(b)),
        );
        assert(m::expression_of(whole) == m::Expression::Subtract(
            Box::new(m::expression_of(*a)),
            Box::new(m::expression_of(*b)),
        ));
        return temporal_result(&whole, found, s);
    }
    match found {
        Err(x) => Err(x),
        Ok((x, y)) => Ok(make_arith(Arith::Subtract, x, y)),
    }
}

pub fn translate_power(
    a: &Expression,
    b: &Expression,
    s: &Scope,
    out: &mut Output,
    extra: &mut Vec<sparql::TriplePattern>,
    depth: usize,
) -> (r: Result<sparql::Expr, PolygraphError>)
    ensures
        is_done(
            w::power(
                m::expression_of(*a),
                m::expression_of(*b),
                *s,
                out_of(*old(out), old(extra)@),
                depth as nat,
            ),
            *final(out),
            final(extra)@,
            r,
        ),
    decreases depth, 1int, 0int,
{
    if depth == 0 {
        return Err(refuse_depth());
    }
    let ghost both = w::pair(
        m::expression_of(*a),
        m::expression_of(*b),
        *s,
        out_of(*out, extra@),
        (depth - 1) as nat,
    );
    let found = translate_pair(a, b, s, out, extra, depth - 1);
    assert(both == (w::Both { out: out_of(*out, extra@), result: both_result(found) }));
    if let Err(x) = found {
        return Err(x);
    }
    let whole = Expression::Power(Box::new(clone_expression(a)), Box::new(clone_expression(b)));
    assert(m::expression_of(whole) == m::Expression::Power(
        Box::new(m::expression_of(*a)),
        Box::new(m::expression_of(*b)),
    ));
    let known = find_given(&whole, s);
    if let Some(x) = known {
        return Ok(x);
    }
    if cypher_expr_contains_null(a) || cypher_expr_contains_null(b) {
        let null = make_null(out);
        assert(w::null_value(both.out) == w::done(out_of(*out, extra@), g::expr_of(null)));
        return Ok(null);
    }
    Err(
        unsupported_construct(
            "^ (exponentiation) with runtime operands",
            "openCypher 9 §6.3.1",
            "SPARQL 1.1 has no POW/EXP built-in; only literal-folded exponentiation is supported",
        ),
    )
}

} // verus!
