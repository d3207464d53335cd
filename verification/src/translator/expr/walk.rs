//! How an expression is translated.
use vstd::prelude::*;

use crate::ast::cypher::{Expression, Literal};
#[allow(unused_imports)]
use crate::ast::model as m;
use crate::error::PolygraphError;
use crate::sparql::algebra as sparql;
#[allow(unused_imports)]
use crate::sparql::model as g;
use crate::text::list_has;
#[allow(unused_imports)]
use crate::text::{lists, texts};
use crate::translator::constant::is_null_literal;
#[allow(unused_imports)]
use crate::translator::expr::collect::{translate_aggregate, translate_pattern_comprehension};
use crate::translator::expr::forms::{
    find_edge_end, find_given, find_listed_variable, find_path, find_projected, find_variable,
    holds_duration, make_exists, make_label_check, make_path_pattern, make_property,
};
use crate::translator::expr::lists::{
    translate_comprehension, translate_map, translate_quantifier, translate_slice,
    translate_subscript,
};
use crate::translator::expr::logic::{
    translate_case, translate_exists, translate_null_test, translate_xor,
};
#[allow(unused_imports)]
use crate::translator::expr::meaning as w;
use crate::translator::expr::numbers::{
    translate_arithmetic, translate_difference, translate_power, translate_sum,
};
use crate::translator::expr::parts::{make_and, make_negative_of, make_not, make_or, make_var, Arith};
use crate::translator::expr::relate::translate_comparison;
use crate::translator::formula::make_quoted;
use crate::translator::ground::{serialize_list_literal, translate_literal};
use crate::translator::known::is_definitely_non_boolean;
use crate::translator::refusal::{invalid, unsupported_construct, unsupported_feature};
#[allow(unused_imports)]
use crate::translator::refusal::{refusal_of, Refusal};
use crate::translator::resolve::{
    extract_variable, find_created_value, find_entry, find_map_entry, try_resolve_to_literal_map,
    find_hops,
};
use crate::translator::scope::{Output, Scope};
#[allow(unused_imports)]
use crate::translator::scope::out_of;

verus! {

pub open spec fn expr_result(r: Result<sparql::Expr, PolygraphError>) -> Result<g::Expr, Refusal> {
    match r {
        Ok(e) => Ok(g::expr_of(e)),
        Err(x) => Err(refusal_of(x)),
    }
}

/// That a translation came out as it should.
pub open spec fn is_done(
    x: w::Done,
    out: Output,
    extra: Seq<sparql::TriplePattern>,
    r: Result<sparql::Expr, PolygraphError>,
) -> bool {
    x.out == out_of(out, extra) && x.result == expr_result(r)
}

pub open spec fn both_result(r: Result<(sparql::Expr, sparql::Expr), PolygraphError>) -> Result<
    (g::Expr, g::Expr),
    Refusal,
> {
    match r {
        Ok((a, b)) => Ok((g::expr_of(a), g::expr_of(b))),
        Err(x) => Err(refusal_of(x)),
    }
}

pub open spec fn are_both_done(
    x: w::Both,
    out: Output,
    extra: Seq<sparql::TriplePattern>,
    r: Result<(sparql::Expr, sparql::Expr), PolygraphError>,
) -> bool {
    x.out == out_of(out, extra) && x.result == both_result(r)
}

pub open spec fn many_result(r: Result<Vec<sparql::Expr>, PolygraphError>) -> Result<
    Seq<g::Expr>,
    Refusal,
> {
    match r {
        Ok(v) => Ok(g::exprs_of(v@)),
        Err(x) => Err(refusal_of(x)),
    }
}

pub open spec fn are_done(
    x: w::Many,
    out: Output,
    extra: Seq<sparql::TriplePattern>,
    r: Result<Vec<sparql::Expr>, PolygraphError>,
) -> bool {
    x.out == out_of(out, extra) && x.result == many_result(r)
}

pub fn refuse_depth() -> (x: PolygraphError)
    ensures
        refusal_of(x) == w::too_deep(),
{
    unsupported_feature("expression nested too deeply")
}

/// A variable that nothing binds.
pub fn make_null(out: &mut Output) -> (r: sparql::Expr)
    ensures
        forall|x: Seq<sparql::TriplePattern>|
            #![trigger out_of(*final(out), x)]
            w::null_value(out_of(*old(out), x)) == w::done(out_of(*final(out), x), g::expr_of(r)),
{
    make_var(out.fresh_var("null"))
}

/// Translates an expression. The triples that bind properties are added to
/// `extra`; what else is left to do is added to `out`.
pub fn translate_expr(
    expr: &Expression,
    s: &Scope,
    out: &mut Output,
    extra: &mut Vec<sparql::TriplePattern>,
) -> (r: Result<sparql::Expr, PolygraphError>)
    ensures
        is_done(
            w::translation(m::expression_of(*expr), *s, out_of(*old(out), old(extra)@)),
            *final(out),
            final(extra)@,
            r,
        ),
{
    proof {
        reveal(w::translation);
    }
    translate_at(expr, s, out, extra, usize::MAX)
}

/// Translates an expression, where `depth` translations may stand within each
/// other.
pub fn translate_at(
    expr: &Expression,
    s: &Scope,
    out: &mut Output,
    extra: &mut Vec<sparql::TriplePattern>,
    depth: usize,
) -> (r: Result<sparql::Expr, PolygraphError>)
    ensures
        is_done(
            w::translated(
                m::expression_of(*expr),
                *s,
                out_of(*old(out), old(extra)@),
                depth as nat,
            ),
            *final(out),
            final(extra)@,
            r,
        ),
    decreases depth, 2int, 0int,
{
    if depth == 0 {
        return Err(refuse_depth());
    }
    match expr {
        Expression::Variable(name) => Ok(make_var(find_variable(name, s))),
        Expression::Literal(Literal::Null) => Ok(make_null(out)),
        Expression::Literal(l) => match translate_literal(l) {
            Ok(t) => Ok(sparql::Expr::Literal(t)),
            Err(x) => Err(x),
        },
        Expression::Property(base, key) => translate_property(base, key, s, out, extra, depth),
        Expression::Or(a, b) => {
            if is_definitely_non_boolean(a) || is_definitely_non_boolean(b) {
                return Err(invalid("Type error: OR requires boolean operands"));
            }
            match translate_pair(a, b, s, out, extra, depth - 1) {
                Ok((x, y)) => Ok(make_or(x, y)),
                Err(x) => Err(x),
            }
        },
        Expression::And(a, b) => {
            if is_definitely_non_boolean(a) || is_definitely_non_boolean(b) {
                return Err(invalid("Type error: AND requires boolean operands"));
            }
            match translate_pair(a, b, s, out, extra, depth - 1) {
                Ok((x, y)) => Ok(make_and(x, y)),
                Err(x) => Err(x),
            }
        },
        Expression::Xor(a, b) => translate_xor(a, b, s, out, extra, depth),
        Expression::Not(a) => {
            if is_definitely_non_boolean(a) {
                return Err(invalid("Type error: NOT requires a boolean operand"));
            }
            match translate_at(a, s, out, extra, depth - 1) {
                Ok(x) => Ok(make_not(x)),
                Err(x) => Err(x),
            }
        },
        Expression::IsNull(a) => translate_null_test(a, false, s, out, extra, depth),
        Expression::IsNotNull(a) => translate_null_test(a, true, s, out, extra, depth),
        Expression::Comparison(a, op, b) => translate_comparison(a, *op, b, s, out, extra, depth),
        Expression::Add(a, b) => translate_sum(a, b, s, out, extra, depth),
        Expression::Subtract(a, b) => translate_difference(a, b, s, out, extra, depth),
        Expression::Multiply(a, b) => translate_arithmetic(
            Arith::Multiply,
            a,
            b,
            s,
            out,
            extra,
            depth,
        ),
        Expression::Divide(a, b) => translate_arithmetic(Arith::Divide, a, b, s, out, extra, depth),
        Expression::Modulo(a, b) => translate_arithmetic(Arith::Modulo, a, b, s, out, extra, depth),
        Expression::Power(a, b) => translate_power(a, b, s, out, extra, depth),
        Expression::Negate(a) => match translate_at(a, s, out, extra, depth - 1) {
            Ok(x) => Ok(make_negative_of(x)),
            Err(x) => Err(x),
        },
        Expression::List(items) => Ok(make_quoted(serialize_list_literal(items).as_str())),
        Expression::MapLit(pairs) => translate_map(pairs, s, out, extra, depth),
        Expression::FunctionCall { name, distinct: _, args: _ } => match find_given(expr, s) {
            Some(x) => Ok(x),
            None => Err(
                unsupported_feature(
                    "function ".to_owned().concat(name.as_str()).concat("()").as_str(),
                ),
            ),
        },
        Expression::LabelCheck { variable, labels } => Ok(
            make_label_check(variable, labels, s, out),
        ),
        Expression::PatternPredicate(p) => match find_path(p, s) {
            Some(path) => Ok(make_exists(make_path_pattern(path))),
            None => Err(unsupported_feature("path pattern")),
        },
        Expression::ExistsSubquery { patterns, where_ } => {
            assert(m::pattern_list_of(*patterns).0 == m::patterns_of(patterns.0@));
            translate_exists(patterns, where_, s, out, extra, depth)
        },
        Expression::ExistsFullSubquery { clauses: _ } => Err(
            unsupported_construct(
                "EXISTS subquery with WITH/aggregation",
                "openCypher 9 §6.3.8",
                "requires LQA path",
            ),
        ),
        Expression::Aggregate(a) => translate_aggregate(a, s, out, extra, depth),
        Expression::CaseExpression { operand, whens, else_expr } => translate_case(
            operand,
            whens,
            else_expr,
            s,
            out,
            extra,
            depth,
        ),
        Expression::QuantifierExpr { kind, variable, list, predicate } => translate_quantifier(
            *kind,
            variable,
            list,
            predicate,
            s,
            out,
            extra,
            depth,
        ),
        Expression::Subscript(list, index) => translate_subscript(
            list,
            index,
            s,
            out,
            extra,
            depth,
        ),
        Expression::ListSlice { list, start, end } => translate_slice(
            list,
            start,
            end,
            s,
            out,
            extra,
        ),
        Expression::ListComprehension { variable, list, predicate, projection } =>
            translate_comprehension(variable, list, predicate, projection, s, out, extra),
        Expression::PatternComprehension { alias: _, pattern, predicate, projection } =>
            translate_pattern_comprehension(pattern, predicate, projection, s, out, extra, depth),
    }
}

pub fn translate_pair(
    a: &Expression,
    b: &Expression,
    s: &Scope,
    out: &mut Output,
    extra: &mut Vec<sparql::TriplePattern>,
    depth: usize,
) -> (r: Result<(sparql::Expr, sparql::Expr), PolygraphError>)
    ensures
        are_both_done(
            w::pair(
                m::expression_of(*a),
                m::expression_of(*b),
                *s,
                out_of(*old(out), old(extra)@),
                depth as nat,
            ),
            *final(out),
            final(extra)@,
            r,
        ),
    decreases depth, 3int, 0int,
{
    match translate_at(a, s, out, extra, depth) {
        Err(x) => Err(x),
        Ok(l) => match translate_at(b, s, out, extra, depth) {
            Err(x) => Err(x),
            Ok(k) => Ok((l, k)),
        },
    }
}

/// An expression that fails makes all that follow fail alike.
proof fn lemma_several_fail(
    v: Seq<m::Expression>,
    k: int,
    n: int,
    s: Scope,
    o: crate::translator::scope::Out,
    depth: nat,
)
    requires
        0 < k <= n <= v.len(),
        w::several(v, k, s, o, depth).result is Err,
    ensures
        w::several(v, n, s, o, depth) == w::several(v, k, s, o, depth),
    decreases n - k,
{
    if k < n {
        lemma_several_fail(v, k, n - 1, s, o, depth);
    }
}

pub fn translate_several(
    v: &Vec<Expression>,
    s: &Scope,
    out: &mut Output,
    extra: &mut Vec<sparql::TriplePattern>,
    depth: usize,
) -> (r: Result<Vec<sparql::Expr>, PolygraphError>)
    ensures
        are_done(
            w::several(
                m::exprs_of(v@),
                m::exprs_of(v@).len() as int,
                *s,
                out_of(*old(out), old(extra)@),
                depth as nat,
            ),
            *final(out),
            final(extra)@,
            r,
        ),
    decreases depth, 3int, 1int,
{
    let ghost es = m::exprs_of(v@);
    let ghost o = out_of(*out, extra@);
    proof {
        m::lemma_exprs_of(v@);
    }
    let mut list: Vec<sparql::Expr> = Vec::new();
    assert(g::exprs_of(list@) =~= seq![]);
    for i in 0..v.len()
        invariant
            es == m::exprs_of(v@),
            es.len() == v@.len(),
            forall|k: int| 0 <= k < es.len() ==> es[k] == m::expression_of(#[trigger] v@[k]),
            w::several(es, i as int, *s, o, depth as nat).out == out_of(*out, extra@),
            w::several(es, i as int, *s, o, depth as nat).result == Ok::<Seq<g::Expr>, Refusal>(
                g::exprs_of(list@),
            ),
            o == out_of(*old(out), old(extra)@),
    {
        match translate_at(&v[i], s, out, extra, depth) {
            Ok(e) => {
                proof {
                    g::lemma_push_exprs(list@, e);
                }
                list.push(e);
            },
            Err(x) => {
                proof {
                    lemma_several_fail(es, i + 1, es.len() as int, *s, o, depth as nat);
                }
                return Err(x);
            },
        }
    }
    Ok(list)
}

// ── Properties ───────────────────────────────────────────────────────────────

fn null_variable(e: &Expression, s: &Scope) -> (r: bool)
    ensures
        r == (m::expression_of(*e) matches m::Expression::Variable(v) && lists(
            texts(s.null_vars@),
            v,
        )),
{
    match e {
        Expression::Variable(v) => list_has(&s.null_vars, v.as_str()),
        _ => false,
    }
}

pub fn is_nothing_here(e: &Expression, s: &Scope) -> (r: bool)
    ensures
        r == w::is_nothing(m::expression_of(*e), *s),
{
    is_null_literal(e) || null_variable(e, s)
}

fn make_property_of(v: String, key: &String) -> (r: Expression)
    ensures
        m::expression_of(r) == w::property_of(v@, key@),
{
    let base = Expression::Variable(v);
    assert(m::expression_of(base) == m::Expression::Variable(v@));
    Expression::Property(Box::new(base), key.clone())
}

fn created_here(base: &Expression, key: &String, s: &Scope) -> (r: Option<Expression>)
    ensures
        crate::translator::resolve::opt_value(r) == (match m::expression_of(*base) {
            m::Expression::Variable(v) => crate::translator::resolve::created_value(v, key@, *s),
            _ => None,
        }),
{
    match base {
        Expression::Variable(v) => find_created_value(v.as_str(), key.as_str(), s),
        _ => None,
    }
}

/// The value under a key of a map that is known.
#[verifier::spinoff_prover]
#[verifier::rlimit(60)]
fn translate_entry(
    pairs: &Vec<(String, Expression)>,
    key: &String,
    s: &Scope,
    out: &mut Output,
    extra: &mut Vec<sparql::TriplePattern>,
    depth: usize,
) -> (r: Result<sparql::Expr, PolygraphError>)
    requires
        depth > 0,
    ensures
        is_done(
            w::known_entry(
                m::entries_of(pairs@),
                key@,
                *s,
                out_of(*old(out), old(extra)@),
                (depth - 1) as nat,
            ),
            *final(out),
            final(extra)@,
            r,
        ),
    decreases depth, 0int, 0int,
{
    match find_entry(pairs, key.as_str()) {
        Some(value) => if is_null_literal(&value) {
            Ok(make_null(out))
        } else {
            translate_at(&value, s, out, extra, depth - 1)
        },
        None => Ok(make_null(out)),
    }
}

fn translate_property(
    base: &Expression,
    key: &String,
    s: &Scope,
    out: &mut Output,
    extra: &mut Vec<sparql::TriplePattern>,
    depth: usize,
) -> (r: Result<sparql::Expr, PolygraphError>)
    ensures
        is_done(
            w::property(
                m::expression_of(*base),
                key@,
                *s,
                out_of(*old(out), old(extra)@),
                depth as nat,
            ),
            *final(out),
            final(extra)@,
            r,
        ),
    decreases depth, 1int, 0int,
{
    if depth == 0 {
        return Err(refuse_depth());
    }
    if is_nothing_here(base, s) {
        return Ok(make_null(out));
    }
    if let Some(value) = created_here(base, key, s) {
        return translate_at(&value, s, out, extra, depth - 1);
    }
    if let Some(pairs) = try_resolve_to_literal_map(base, s, find_hops(s)) {
        return translate_entry(&pairs, key, s, out, extra, depth);
    }
    if let Some(v) = find_edge_end(base, s) {
        let e = make_property_of(v, key);
        return translate_at(&e, s, out, extra, depth - 1);
    }
    if let Some(v) = find_listed_variable(base, s, find_hops(s)) {
        let e = make_property_of(v, key);
        return translate_at(&e, s, out, extra, depth - 1);
    }
    translate_graph_property(base, key, s, out, extra)
}

fn translate_graph_property(
    base: &Expression,
    key: &String,
    s: &Scope,
    out: &mut Output,
    extra: &mut Vec<sparql::TriplePattern>,
) -> (r: Result<sparql::Expr, PolygraphError>)
    ensures
        is_done(
            w::graph_property(
                m::expression_of(*base),
                key@,
                *s,
                out_of(*old(out), old(extra)@),
            ),
            *final(out),
            final(extra)@,
            r,
        ),
{
    let v = match extract_variable(base, s) {
        Ok(v) => v,
        Err(x) => {
            return Err(x);
        },
    };
    if let Some(name) = find_map_entry(v.as_str(), key.as_str(), s) {
        return Ok(make_var(name));
    }
    if holds_duration(v.as_str(), s) {
        let whole = Expression::Property(
            Box::new(crate::ast::copy::clone_expression(base)),
            key.clone(),
        );
        assert(m::expression_of(whole) == m::Expression::Property(
            Box::new(m::expression_of(*base)),
            key@,
        ));
        if let Some(e) = find_given(&whole, s) {
            return Ok(e);
        }
    }
    if let Some(name) = find_projected(v.as_str(), key.as_str(), s) {
        return Ok(make_var(name));
    }
    Ok(make_var(make_property(&v, key.as_str(), s, out, extra)))
}

} // verus!
