//! How aggregates and pattern comprehensions are translated.
use vstd::prelude::*;

use crate::ast::cypher::{AggregateExpr, Expression, Pattern, PatternElement};
#[allow(unused_imports)]
use crate::ast::model as m;
use crate::error::PolygraphError;
use crate::lqa::write::literals::{XSD_BOOLEAN, XSD_DOUBLE, XSD_INTEGER};
use crate::sparql::algebra as sparql;
use crate::sparql::algebra::Function;
use crate::sparql::copy::clone_triple_pattern;
#[allow(unused_imports)]
use crate::sparql::model as g;
use crate::text::{list_has, push_text};
#[allow(unused_imports)]
use crate::text::texts;
use crate::translator::expr::forms::{
    find_aggregate, find_path, make_path_pattern, FoundPath,
};
#[allow(unused_imports)]
use crate::translator::expr::forms::found_path;
#[allow(unused_imports)]
use crate::translator::expr::meaning as w;
use crate::translator::expr::parts::{
    make_and, make_cond, make_has_datatype, make_or, make_var,
};
#[allow(unused_imports)]
use crate::translator::expr::parts::var;
#[allow(unused_imports)]
use crate::translator::expr::walk::is_done;
use crate::translator::expr::walk::{refuse_depth, translate_at};
use crate::translator::formula::{make_call1, make_call3, make_quoted};
#[allow(unused_imports)]
use crate::translator::formula::quoted;
use crate::translator::refusal::unsupported_feature;
#[allow(unused_imports)]
use crate::translator::refusal::refusal_of;
use crate::translator::scope::{push_triple, Output, Scope};
#[allow(unused_imports)]
use crate::translator::scope::{out_of, subqueries_of, Out};

verus! {

// ── Aggregates ───────────────────────────────────────────────────────────────

pub open spec fn is_aggregated(
    x: w::Aggregated,
    out: Output,
    extra: Seq<sparql::TriplePattern>,
    r: Result<sparql::Aggregate, PolygraphError>,
) -> bool {
    x.out == out_of(out, extra) && x.result == (match r {
        Ok(a) => Ok(g::aggregate_of(a)),
        Err(e) => Err(refusal_of(e)),
    })
}

fn translate_aggregate_over(
    f: sparql::AggregateFunction,
    distinct: bool,
    e: &Expression,
    s: &Scope,
    out: &mut Output,
    extra: &mut Vec<sparql::TriplePattern>,
    depth: usize,
) -> (r: Result<sparql::Aggregate, PolygraphError>)
    ensures
        is_aggregated(
            w::aggregate_over(
                g::aggregate_function_of(f),
                distinct,
                m::expression_of(*e),
                *s,
                out_of(*old(out), old(extra)@),
                depth as nat,
            ),
            *final(out),
            final(extra)@,
            r,
        ),
    decreases depth, 0int, 0int,
{
    if depth == 0 {
        return Err(refuse_depth());
    }
    match translate_at(e, s, out, extra, depth - 1) {
        Ok(v) => Ok(sparql::Aggregate::FunctionCall { name: f, expr: v, distinct }),
        Err(x) => Err(x),
    }
}

fn counts_path(e: &Expression, s: &Scope) -> (r: bool)
    ensures
        r == (m::expression_of(*e) matches m::Expression::Variable(v)
            && s.path_hops@.contains_key(v)),
{
    match e {
        Expression::Variable(v) => s.path_hops.contains(v.as_str()),
        _ => false,
    }
}

pub fn translate_aggregate_expr(
    a: &AggregateExpr,
    s: &Scope,
    out: &mut Output,
    extra: &mut Vec<sparql::TriplePattern>,
    depth: usize,
) -> (r: Result<sparql::Aggregate, PolygraphError>)
    ensures
        is_aggregated(
            w::aggregated(
                m::aggregate_expr_of(*a),
                *s,
                out_of(*old(out), old(extra)@),
                depth as nat,
            ),
            *final(out),
            final(extra)@,
            r,
        ),
    decreases depth, 1int, 0int,
{
    match a {
        AggregateExpr::Count { distinct, expr } => {
            assert(m::opt_boxed(*expr) is Some == (*expr is Some));
            match expr {
                None => Ok(sparql::Aggregate::CountSolutions { distinct: *distinct }),
                Some(e) => if counts_path(e, s) {
                    Ok(sparql::Aggregate::CountSolutions { distinct: *distinct })
                } else {
                    translate_aggregate_over(
                        sparql::AggregateFunction::Count,
                        *distinct,
                        e,
                        s,
                        out,
                        extra,
                        depth,
                    )
                },
            }
        },
        AggregateExpr::Sum { distinct, expr } => translate_aggregate_over(
            sparql::AggregateFunction::Sum,
            *distinct,
            expr,
            s,
            out,
            extra,
            depth,
        ),
        AggregateExpr::Avg { distinct, expr } => translate_aggregate_over(
            sparql::AggregateFunction::Avg,
            *distinct,
            expr,
            s,
            out,
            extra,
            depth,
        ),
        AggregateExpr::Min { distinct, expr } => translate_aggregate_over(
            sparql::AggregateFunction::Min,
            *distinct,
            expr,
            s,
            out,
            extra,
            depth,
        ),
        AggregateExpr::Max { distinct, expr } => translate_aggregate_over(
            sparql::AggregateFunction::Max,
            *distinct,
            expr,
            s,
            out,
            extra,
            depth,
        ),
        AggregateExpr::Collect { distinct, expr } => translate_aggregate_over(
            sparql::AggregateFunction::GroupConcat { separator: None },
            *distinct,
            expr,
            s,
            out,
            extra,
            depth,
        ),
    }
}

pub fn translate_aggregate(
    a: &AggregateExpr,
    s: &Scope,
    out: &mut Output,
    extra: &mut Vec<sparql::TriplePattern>,
    depth: usize,
) -> (r: Result<sparql::Expr, PolygraphError>)
    ensures
        is_done(
            w::aggregate_value(
                m::aggregate_expr_of(*a),
                *s,
                out_of(*old(out), old(extra)@),
                depth as nat,
            ),
            *final(out),
            final(extra)@,
            r,
        ),
    decreases depth, 1int, 1int,
{
    if let Some(v) = find_aggregate(a, s) {
        return Ok(make_var(v));
    }
    let name = out.fresh_var("agg");
    match translate_aggregate_expr(a, s, out, extra, depth) {
        Err(x) => Err(x),
        Ok(aggregate) => {
            let named = sparql::NamedAggregate { variable: name.clone(), aggregate };
            assert(g::named_aggregate_of(named) == (g::NamedAggregate {
                variable: name@,
                aggregate: g::aggregate_of(aggregate),
            }));
            proof {
                g::lemma_push_aggregates(out.pending_aggs@, named);
            }
            out.pending_aggs.push(named);
            Ok(make_var(name))
        },
    }
}

// ── Pattern comprehensions ───────────────────────────────────────────────────

fn find_anchors(pattern: &Pattern, s: &Scope) -> (r: Vec<String>)
    ensures
        texts(r@) == w::anchors(
            m::elements_of(pattern.elements@),
            m::elements_of(pattern.elements@).len() as int,
            *s,
        ),
{
    let ghost es = m::elements_of(pattern.elements@);
    proof {
        m::lemma_elements_of(pattern.elements@);
    }
    let mut r: Vec<String> = Vec::new();
    assert(texts(r@) =~= seq![]);
    #[verifier::loop_isolation(false)]
    for i in 0..pattern.elements.len()
        invariant
            texts(r@) == w::anchors(es, i as int, *s),
    {
        let ghost here = es[i as int];
        assert(here == m::pattern_element_of(pattern.elements@[i as int]));
        if let PatternElement::Node(n) = &pattern.elements[i] {
            assert(here == m::PatternElement::Node(m::node_pattern_of(*n)));
            assert(m::node_pattern_of(*n).variable == m::opt_text(n.variable));
            if let Some(v) = &n.variable {
                if list_has(&s.node_vars, v.as_str()) || s.edge_map.contains(v.as_str()) {
                    push_text(&mut r, v.clone());
                }
            }
        }
    }
    r
}

pub fn add_optional(p: sparql::GraphPattern, t: &Vec<sparql::TriplePattern>) -> (r: sparql::GraphPattern)
    ensures
        g::graph_pattern_of(r) == w::with_optional(
            g::graph_pattern_of(p),
            g::triples_of(t@),
            t@.len() as int,
        ),
{
    let ghost first = g::graph_pattern_of(p);
    let mut r = p;
    #[verifier::loop_isolation(false)]
    for i in 0..t.len()
        invariant
            g::graph_pattern_of(r) == w::with_optional(first, g::triples_of(t@), i as int),
    {
        let mut one: Vec<sparql::TriplePattern> = Vec::new();
        push_triple(&mut one, clone_triple_pattern(&t[i]));
        assert(g::triples_of(one@) =~= seq![g::triples_of(t@)[i as int]]);
        let right = sparql::GraphPattern::Bgp { patterns: one };
        assert(g::graph_pattern_of(right) == (g::GraphPattern::Bgp {
            patterns: seq![g::triples_of(t@)[i as int]],
        }));
        let expression: Option<sparql::Expr> = None;
        assert(g::opt_expr(expression) is None);
        r =
        sparql::GraphPattern::LeftJoin { left: Box::new(r), right: Box::new(right), expression };
    }
    r
}

fn add_optional_group(p: sparql::GraphPattern, t: Vec<sparql::TriplePattern>) -> (r:
    sparql::GraphPattern)
    ensures
        g::graph_pattern_of(r) == w::with_optional_group(
            g::graph_pattern_of(p),
            g::triples_of(t@),
        ),
{
    if t.len() == 0 {
        return p;
    }
    let right = sparql::GraphPattern::Bgp { patterns: t };
    assert(g::graph_pattern_of(right) == (g::GraphPattern::Bgp { patterns: g::triples_of(t@) }));
    let expression: Option<sparql::Expr> = None;
    assert(g::opt_expr(expression) is None);
    sparql::GraphPattern::LeftJoin { left: Box::new(p), right: Box::new(right), expression }
}

fn make_filtered(p: sparql::GraphPattern, filter: sparql::Expr, t: &Vec<sparql::TriplePattern>) -> (r:
    sparql::GraphPattern)
    ensures
        g::graph_pattern_of(r) == w::filtered(
            g::graph_pattern_of(p),
            g::expr_of(filter),
            g::triples_of(t@),
        ),
{
    let inner = add_optional(p, t);
    sparql::GraphPattern::Filter { expr: filter, inner: Box::new(inner) }
}

fn make_listed_text(v: &String) -> (r: sparql::Expr)
    ensures
        g::expr_of(r) == w::listed_text(v@),
{
    let is_scalar = make_and(
        make_call1(Function::IsLiteral, make_var(v.clone())),
        make_or(
            make_or(
                make_has_datatype(make_var(v.clone()), XSD_INTEGER),
                make_has_datatype(make_var(v.clone()), XSD_DOUBLE),
            ),
            make_has_datatype(make_var(v.clone()), XSD_BOOLEAN),
        ),
    );
    let text = make_call1(Function::Str, make_var(v.clone()));
    let in_quotes = make_call3(
        Function::Concat,
        make_quoted("'"),
        make_call1(Function::Str, make_var(v.clone())),
        make_quoted("'"),
    );
    make_cond(
        sparql::Expr::Bound(v.clone()),
        make_cond(is_scalar, text, in_quotes),
        make_quoted("null"),
    )
}

fn make_collecting(
    p: sparql::GraphPattern,
    value: sparql::Expr,
    bound: &String,
    collected: &String,
    anchors: Vec<String>,
) -> (r: sparql::GraphPattern)
    ensures
        g::graph_pattern_of(r) == w::collecting(
            g::graph_pattern_of(p),
            g::expr_of(value),
            bound@,
            collected@,
            texts(anchors@),
        ),
{
    let ghost gp = g::graph_pattern_of(p);
    let ghost gv = g::expr_of(value);
    let inner = sparql::GraphPattern::Extend {
        inner: Box::new(p),
        variable: bound.clone(),
        expression: value,
    };
    assert(g::graph_pattern_of(inner) == (g::GraphPattern::Extend {
        inner: Box::new(gp),
        variable: bound@,
        expression: gv,
    }));
    let name = sparql::AggregateFunction::GroupConcat { separator: Some(", ".to_owned()) };
    assert(g::aggregate_function_of(name) == (g::AggregateFunction::GroupConcat {
        separator: Some(", "@),
    }));
    let expr = make_listed_text(bound);
    let aggregate = sparql::Aggregate::FunctionCall { name, expr, distinct: false };
    assert(g::aggregate_of(aggregate) == (g::Aggregate::FunctionCall {
        name: g::AggregateFunction::GroupConcat { separator: Some(", "@) },
        expr: w::listed_text(bound@),
        distinct: false,
    }));
    let named = sparql::NamedAggregate { variable: collected.clone(), aggregate };
    assert(g::named_aggregate_of(named) == (g::NamedAggregate {
        variable: collected@,
        aggregate: g::aggregate_of(aggregate),
    }));
    let mut aggregates: Vec<sparql::NamedAggregate> = Vec::new();
    proof {
        g::lemma_push_aggregates(aggregates@, named);
    }
    aggregates.push(named);
    assert(g::aggregates_of(aggregates@) =~= seq![g::named_aggregate_of(named)]);
    sparql::GraphPattern::Group { inner: Box::new(inner), variables: anchors, aggregates }
}

fn make_collected_list(v: &String) -> (r: sparql::Expr)
    ensures
        g::expr_of(r) == w::collected_list(v@),
{
    let mut args: Vec<sparql::Expr> = Vec::new();
    let a = make_var(v.clone());
    let b = make_quoted("");
    proof {
        g::lemma_push_exprs(args@, a);
        g::lemma_push_exprs(args@.push(a), b);
    }
    args.push(a);
    args.push(b);
    assert(g::exprs_of(args@) =~= seq![var(v@), quoted(""@)]);
    let inner = sparql::Expr::Coalesce(args);
    assert(g::expr_of(inner) == g::Expr::Coalesce(seq![var(v@), quoted(""@)]));
    make_call3(Function::Concat, make_quoted("["), inner, make_quoted("]"))
}

fn translate_comprehension_pattern(
    path: FoundPath,
    predicate: &Option<Box<Expression>>,
    s: &Scope,
    out: &mut Output,
    extra: &Vec<sparql::TriplePattern>,
    depth: usize,
) -> (r: Result<sparql::GraphPattern, PolygraphError>)
    ensures
        ({
            let x = w::comprehension_pattern(
                found_path(Some(path)).unwrap(),
                m::opt_boxed(*predicate),
                *s,
                out_of(*old(out), extra@),
                depth as nat,
            );
            x.0 == out_of(*final(out), extra@) && x.1 == (match r {
                Ok(p) => Ok(g::graph_pattern_of(p)),
                Err(e) => Err(refusal_of(e)),
            })
        }),
    decreases depth, 0int, 0int,
{
    if depth == 0 {
        return Err(refuse_depth());
    }
    let pattern = make_path_pattern(path);
    assert(m::opt_boxed(*predicate) is Some == (*predicate is Some));
    match predicate {
        None => Ok(pattern),
        Some(e) => {
            let mut own: Vec<sparql::TriplePattern> = Vec::new();
            assert(out_of(*out, own@) == (Out { extra: seq![], ..out_of(*out, extra@) })) by {
                assert(g::triples_of(own@) =~= seq![]);
            }
            match translate_at(e, s, out, &mut own, depth - 1) {
                Err(x) => Err(x),
                Ok(f) => Ok(make_filtered(pattern, f, &own)),
            }
        },
    }
}

pub fn translate_pattern_comprehension(
    pattern: &Pattern,
    predicate: &Option<Box<Expression>>,
    projection: &Expression,
    s: &Scope,
    out: &mut Output,
    extra: &Vec<sparql::TriplePattern>,
    depth: usize,
) -> (r: Result<sparql::Expr, PolygraphError>)
    ensures
        is_done(
            w::pattern_comprehension(
                m::pattern_of(*pattern),
                m::opt_boxed(*predicate),
                m::expression_of(*projection),
                *s,
                out_of(*old(out), extra@),
                depth as nat,
            ),
            *final(out),
            extra@,
            r,
        ),
    decreases depth, 1int, 0int,
{
    if depth == 0 {
        return Err(refuse_depth());
    }
    assert(m::pattern_of(*pattern).elements == m::elements_of(pattern.elements@));
    let path = match find_path(pattern, s) {
        Some(path) => path,
        None => {
            return Err(unsupported_feature("path pattern"));
        },
    };
    let p = match translate_comprehension_pattern(path, predicate, s, out, extra, depth) {
        Ok(p) => p,
        Err(x) => {
            return Err(x);
        },
    };
    let mut own: Vec<sparql::TriplePattern> = Vec::new();
    assert(out_of(*out, own@) == (Out { extra: seq![], ..out_of(*out, extra@) })) by {
        assert(g::triples_of(own@) =~= seq![]);
    }
    let value = match translate_at(projection, s, out, &mut own, depth - 1) {
        Ok(v) => v,
        Err(x) => {
            return Err(x);
        },
    };
    let whole = add_optional_group(p, own);
    Ok(collect(whole, value, find_anchors(pattern, s), out, extra))
}

fn collect(
    p: sparql::GraphPattern,
    value: sparql::Expr,
    anchors: Vec<String>,
    out: &mut Output,
    extra: &Vec<sparql::TriplePattern>,
) -> (r: sparql::Expr)
    ensures
        w::collect_values(
            g::graph_pattern_of(p),
            g::expr_of(value),
            texts(anchors@),
            out_of(*old(out), extra@),
        ) == w::done(out_of(*final(out), extra@), g::expr_of(r)),
{
    let bound = out.fresh_var("pc_proj");
    let collected = out.fresh_var("pc_gc");
    let sub = make_collecting(p, value, &bound, &collected, anchors);
    let ghost before = out.pending_subqueries@;
    out.pending_subqueries.push((collected.clone(), sub));
    assert(subqueries_of(out.pending_subqueries@) =~= subqueries_of(before).push(
        (collected@, g::graph_pattern_of(sub)),
    ));
    make_collected_list(&collected)
}

} // verus!
