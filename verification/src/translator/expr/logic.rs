//! How connectives, null tests, `CASE` and `EXISTS` are translated.
use vstd::prelude::*;

use crate::ast::copy::clone_expression;
use crate::ast::cypher::{CompOp, Expression, PatternList};
#[allow(unused_imports)]
use crate::ast::model as m;
use crate::error::PolygraphError;
use crate::sparql::algebra as sparql;
use crate::sparql::copy::clone_expr;
#[allow(unused_imports)]
use crate::sparql::model as g;
use crate::text::push_text;
#[allow(unused_imports)]
use crate::translator::expr::forms::{find_path, make_exists, make_path_pattern, FoundPath};
#[allow(unused_imports)]
use crate::translator::expr::forms::{found_path, paths_of};
#[allow(unused_imports)]
use crate::translator::expr::meaning as w;
use crate::translator::expr::parts::{
    make_and, make_cond, make_equal, make_not, make_or, make_xor,
};
#[allow(unused_imports)]
use crate::translator::expr::walk::is_done;
use crate::translator::expr::walk::{make_null, refuse_depth, translate_at, translate_pair};
use crate::translator::known::is_definitely_non_boolean;
use crate::translator::refusal::{invalid, unsupported_feature};
#[allow(unused_imports)]
use crate::translator::scope::{Output, Scope};
#[allow(unused_imports)]
use crate::translator::scope::out_of;

verus! {

pub fn translate_xor(
    a: &Expression,
    b: &Expression,
    s: &Scope,
    out: &mut Output,
    extra: &mut Vec<sparql::TriplePattern>,
    depth: usize,
) -> (r: Result<sparql::Expr, PolygraphError>)
    ensures
        is_done(
            w::exclusive(
                m::expression_of(*a),
                m::expression_of(*b),
                *s,
                out_of(*old(out), old(extra)@),
                depth as nat,
            ),
            *final(out),
            final(extra)@,
            r,
        ),
    decreases depth, 1int, 0int,
{
    if depth == 0 {
        return Err(refuse_depth());
    }
    if is_definitely_non_boolean(a) || is_definitely_non_boolean(b) {
        return Err(invalid("Type error: XOR requires boolean operands"));
    }
    match translate_pair(a, b, s, out, extra, depth - 1) {
        Err(x) => Err(x),
        Ok((p, q)) => match translate_pair(a, b, s, out, extra, depth - 1) {
            Err(x) => Err(x),
            Ok((p2, q2)) => Ok(make_xor(p, q, p2, q2)),
        },
    }
}

// ── Null tests ───────────────────────────────────────────────────────────────

fn make_bound_test(v: String, present: bool) -> (r: sparql::Expr)
    ensures
        g::expr_of(r) == w::bound_test(v@, present),
{
    if present {
        sparql::Expr::Bound(v)
    } else {
        make_not(sparql::Expr::Bound(v))
    }
}

fn make_bound_tests(v: String, u: String, present: bool) -> (r: sparql::Expr)
    ensures
        g::expr_of(r) == w::bound_tests(v@, u@, present),
{
    if present {
        make_and(sparql::Expr::Bound(v), sparql::Expr::Bound(u))
    } else {
        make_or(make_not(sparql::Expr::Bound(v)), make_not(sparql::Expr::Bound(u)))
    }
}

fn tests_operands(op: CompOp, present: bool) -> (r: bool)
    ensures
        r == w::tested_op(op, present),
{
    match op {
        CompOp::Gt => present,
        CompOp::Ge => !present,
        _ => false,
    }
}

pub fn translate_null_test(
    a: &Expression,
    present: bool,
    s: &Scope,
    out: &mut Output,
    extra: &mut Vec<sparql::TriplePattern>,
    depth: usize,
) -> (r: Result<sparql::Expr, PolygraphError>)
    ensures
        is_done(
            w::null_test(
                m::expression_of(*a),
                present,
                *s,
                out_of(*old(out), old(extra)@),
                depth as nat,
            ),
            *final(out),
            final(extra)@,
            r,
        ),
    decreases depth, 1int, 1int,
{
    if depth == 0 {
        return Err(refuse_depth());
    }
    match a {
        Expression::Not(inner) => {
            let copy = Box::new(clone_expression(inner));
            let e = if present {
                Expression::IsNotNull(copy)
            } else {
                Expression::IsNull(copy)
            };
            assert(m::expression_of(e) == (if present {
                m::Expression::IsNotNull(Box::new(m::expression_of(**inner)))
            } else {
                m::Expression::IsNull(Box::new(m::expression_of(**inner)))
            }));
            translate_at(&e, s, out, extra, depth - 1)
        },
        Expression::Comparison(l, op, r) => {
            if !tests_operands(*op, present) {
                return translate_value_test(a, present, s, out, extra, depth);
            }
            match translate_pair(l, r, s, out, extra, depth - 1) {
                Err(x) => Err(x),
                Ok((sparql::Expr::Variable(v), sparql::Expr::Variable(u))) => Ok(
                    make_bound_tests(v, u, present),
                ),
                Ok(_) => translate_value_test(a, present, s, out, extra, depth),
            }
        },
        _ => translate_value_test(a, present, s, out, extra, depth),
    }
}

fn translate_value_test(
    a: &Expression,
    present: bool,
    s: &Scope,
    out: &mut Output,
    extra: &mut Vec<sparql::TriplePattern>,
    depth: usize,
) -> (r: Result<sparql::Expr, PolygraphError>)
    ensures
        is_done(
            w::value_test(
                m::expression_of(*a),
                present,
                *s,
                out_of(*old(out), old(extra)@),
                depth as nat,
            ),
            *final(out),
            final(extra)@,
            r,
        ),
    decreases depth, 1int, 0int,
{
    if depth == 0 {
        return Err(refuse_depth());
    }
    match translate_at(a, s, out, extra, depth - 1) {
        Err(x) => Err(x),
        Ok(sparql::Expr::Variable(v)) => Ok(make_bound_test(v, present)),
        Ok(e) => {
            proof {
                g::lemma_push_exprs(out.pending_bind_checks@, e);
            }
            out.pending_bind_checks.push(e);
            let name = out.fresh_var(
                if present {
                    "isnotnull"
                } else {
                    "isnull"
                },
            );
            push_text(&mut out.pending_bind_targets, name.clone());
            Ok(make_bound_test(name, present))
        },
    }
}

// ── CASE ─────────────────────────────────────────────────────────────────────

fn make_branch_condition(operand: &Option<sparql::Expr>, e: sparql::Expr) -> (r: sparql::Expr)
    ensures
        g::expr_of(r) == w::branch_condition(g::opt_expr(*operand), g::expr_of(e)),
{
    match operand {
        Some(op) => make_equal(clone_expr(op), e),
        None => e,
    }
}

fn translate_branches(
    whens: &Vec<(Expression, Expression)>,
    k: usize,
    operand: &Option<sparql::Expr>,
    rest: sparql::Expr,
    s: &Scope,
    out: &mut Output,
    extra: &mut Vec<sparql::TriplePattern>,
    depth: usize,
) -> (r: Result<sparql::Expr, PolygraphError>)
    requires
        k <= whens@.len(),
    ensures
        is_done(
            w::branches(
                m::whens_of(whens@),
                k as int,
                g::opt_expr(*operand),
                g::expr_of(rest),
                *s,
                out_of(*old(out), old(extra)@),
                depth as nat,
            ),
            *final(out),
            final(extra)@,
            r,
        ),
    decreases depth, 3int, k,
{
    proof {
        m::lemma_whens_of(whens@);
    }
    if k == 0 {
        return Ok(rest);
    }
    let ghost here = m::whens_of(whens@)[k - 1];
    let ghost both = w::pair_of(here, *s, out_of(*out, extra@), depth as nat);
    assert(here == (m::expression_of(whens@[k - 1].0), m::expression_of(whens@[k - 1].1)));
    let c = match translate_at(&whens[k - 1].0, s, out, extra, depth) {
        Ok(c) => c,
        Err(x) => {
            return Err(x);
        },
    };
    let t = match translate_at(&whens[k - 1].1, s, out, extra, depth) {
        Ok(t) => t,
        Err(x) => {
            return Err(x);
        },
    };
    let whole = make_cond(make_branch_condition(operand, c), t, rest);
    translate_branches(whens, k - 1, operand, whole, s, out, extra, depth)
}

pub fn translate_case(
    operand: &Option<Box<Expression>>,
    whens: &Vec<(Expression, Expression)>,
    otherwise: &Option<Box<Expression>>,
    s: &Scope,
    out: &mut Output,
    extra: &mut Vec<sparql::TriplePattern>,
    depth: usize,
) -> (r: Result<sparql::Expr, PolygraphError>)
    ensures
        is_done(
            w::case_value(
                m::opt_boxed(*operand),
                m::whens_of(whens@),
                m::opt_boxed(*otherwise),
                *s,
                out_of(*old(out), old(extra)@),
                depth as nat,
            ),
            *final(out),
            final(extra)@,
            r,
        ),
    decreases depth, 1int, 1int,
{
    if depth == 0 {
        return Err(refuse_depth());
    }
    assert(m::opt_boxed(*operand) is Some == (*operand is Some));
    match operand {
        Some(e) => match translate_at(e, s, out, extra, depth - 1) {
            Err(x) => Err(x),
            Ok(op) => {
                let op = Some(op);
                translate_case_rest(&op, whens, otherwise, s, out, extra, depth)
            },
        },
        None => translate_case_rest(&None, whens, otherwise, s, out, extra, depth),
    }
}

fn translate_case_rest(
    operand: &Option<sparql::Expr>,
    whens: &Vec<(Expression, Expression)>,
    otherwise: &Option<Box<Expression>>,
    s: &Scope,
    out: &mut Output,
    extra: &mut Vec<sparql::TriplePattern>,
    depth: usize,
) -> (r: Result<sparql::Expr, PolygraphError>)
    ensures
        is_done(
            w::case_rest(
                g::opt_expr(*operand),
                m::whens_of(whens@),
                m::opt_boxed(*otherwise),
                *s,
                out_of(*old(out), old(extra)@),
                depth as nat,
            ),
            *final(out),
            final(extra)@,
            r,
        ),
    decreases depth, 1int, 0int,
{
    if depth == 0 {
        return Err(refuse_depth());
    }
    assert(m::opt_boxed(*otherwise) is Some == (*otherwise is Some));
    proof {
        m::lemma_whens_of(whens@);
    }
    let null = make_null(out);
    let last = match otherwise {
        Some(e) => match translate_at(e, s, out, extra, depth - 1) {
            Ok(e) => e,
            Err(x) => {
                return Err(x);
            },
        },
        None => null,
    };
    translate_branches(whens, whens.len(), operand, last, s, out, extra, depth - 1)
}

// ── EXISTS ───────────────────────────────────────────────────────────────────

proof fn lemma_no_paths(p: Seq<m::Pattern>, k: int, n: int, s: Scope)
    requires
        0 < k <= n <= p.len(),
        w::paths_for(p, k, s) is None,
    ensures
        w::paths_for(p, n, s) is None,
    decreases n - k,
{
    if k < n {
        lemma_no_paths(p, k, n - 1, s);
    }
}

fn find_paths(p: &PatternList, s: &Scope) -> (r: Option<FoundPath>)
    ensures
        found_path(r) == w::paths_for(
            m::patterns_of(p.0@),
            m::patterns_of(p.0@).len() as int,
            *s,
        ),
{
    let ghost ps = m::patterns_of(p.0@);
    proof {
        m::lemma_patterns_of(p.0@);
    }
    let mut all = FoundPath { triples: Vec::new(), paths: Vec::new() };
    assert(g::triples_of(all.triples@) =~= seq![]);
    assert(paths_of(all.paths@) =~= seq![]);
    #[verifier::loop_isolation(false)]
    for i in 0..p.0.len()
        invariant
            found_path(Some(all)) == w::paths_for(ps, i as int, *s),
    {
        match find_path(&p.0[i], s) {
            Some(more) => {
                let FoundPath { triples, paths } = more;
                let mut triples = triples;
                let mut paths = paths;
                let ghost t = all.triples@;
                let ghost u = all.paths@;
                proof {
                    g::lemma_add_triples(t, triples@);
                    assert(paths_of(u + paths@) =~= paths_of(u) + paths_of(paths@));
                }
                all.triples.append(&mut triples);
                all.paths.append(&mut paths);
            },
            None => {
                proof {
                    lemma_no_paths(ps, i + 1, ps.len() as int, *s);
                }
                return None;
            },
        }
    }
    Some(all)
}

pub fn translate_exists(
    p: &PatternList,
    filter: &Option<Box<Expression>>,
    s: &Scope,
    out: &mut Output,
    extra: &mut Vec<sparql::TriplePattern>,
    depth: usize,
) -> (r: Result<sparql::Expr, PolygraphError>)
    ensures
        is_done(
            w::exists_subquery(
                m::patterns_of(p.0@),
                m::opt_boxed(*filter),
                *s,
                out_of(*old(out), old(extra)@),
                depth as nat,
            ),
            *final(out),
            final(extra)@,
            r,
        ),
    decreases depth, 1int, 0int,
{
    if depth == 0 {
        return Err(refuse_depth());
    }
    let path = match find_paths(p, s) {
        Some(path) => path,
        None => {
            return Err(unsupported_feature("path pattern"));
        },
    };
    let pattern = make_path_pattern(path);
    assert(m::opt_boxed(*filter) is Some == (*filter is Some));
    match filter {
        None => Ok(make_exists(pattern)),
        Some(e) => match translate_at(e, s, out, extra, depth - 1) {
            Err(x) => Err(x),
            Ok(f) => {
                let inner = sparql::GraphPattern::Filter { expr: f, inner: Box::new(pattern) };
                assert(g::graph_pattern_of(inner) == (g::GraphPattern::Filter {
                    expr: g::expr_of(f),
                    inner: Box::new(g::graph_pattern_of(pattern)),
                }));
                Ok(make_exists(inner))
            },
        },
    }
}

} // verus!
