//! How comparisons are translated.
use vstd::prelude::*;

use crate::ast::copy::clone_expression;
use crate::ast::cypher::{CompOp, Expression, Literal};
#[allow(unused_imports)]
use crate::ast::model as m;
use crate::error::PolygraphError;
use crate::sparql::algebra as sparql;
#[allow(unused_imports)]
use crate::sparql::model as g;
use crate::text::{eq_ignore_ascii_case, list_has};
#[allow(unused_imports)]
use crate::text::texts;
use crate::translator::constant::is_null_literal;
#[allow(unused_imports)]
use crate::translator::expr::forms::{make_node_property, make_triple_exists, was_set};
#[allow(unused_imports)]
use crate::translator::expr::meaning as w;
use crate::translator::expr::parts::{
    make_and, make_equal_or_not, make_in_order, make_not, make_related, make_same_edge,
    make_string_test, make_truth, make_var, orders,
};
#[allow(unused_imports)]
use crate::translator::expr::walk::is_done;
use crate::translator::expr::walk::{
    make_null, refuse_depth, translate_at, translate_pair, translate_several,
};
use crate::translator::formula::make_quoted;
#[allow(unused_imports)]
use crate::translator::formula::quoted;
use crate::translator::known::{is_definitely_non_list, try_eval_literal_eq};
#[allow(unused_imports)]
use crate::translator::refusal::invalid;
#[allow(unused_imports)]
use crate::translator::resolve::{find_created_value, find_hops, try_resolve_to_items};
#[allow(unused_imports)]
use crate::translator::resolve::opt_value;
use crate::translator::scope::{Output, Scope};
#[allow(unused_imports)]
use crate::translator::scope::out_of;
use crate::translator::sort_key::sort_key_for_expr;
use crate::translator::unwind_keys::make_triple;

verus! {

fn equates(op: CompOp) -> (r: bool)
    ensures
        r == w::is_equality(op),
{
    match op {
        CompOp::Eq | CompOp::Ne => true,
        _ => false,
    }
}

fn find_set_value(e: &Expression, s: &Scope) -> (r: Option<Expression>)
    ensures
        opt_value(r) == w::set_value(m::expression_of(*e), *s),
{
    match e {
        Expression::Property(base, key) => {
            assert(m::expression_of(**base) is Variable == (**base is Variable));
            match &**base {
                Expression::Variable(v) => if was_set(s, v.as_str(), key.as_str()) {
                    find_created_value(v.as_str(), key.as_str(), s)
                } else {
                    None
                },
                _ => None,
            }
        },
        _ => None,
    }
}

fn translate_set_comparison(
    e: &Expression,
    value: &Expression,
    op: CompOp,
    on_left: bool,
    s: &Scope,
    out: &mut Output,
    extra: &mut Vec<sparql::TriplePattern>,
    depth: usize,
) -> (r: Result<sparql::Expr, PolygraphError>)
    requires
        w::set_value(m::expression_of(*e), *s) is Some,
    ensures
        is_done(
            w::set_comparison(
                m::expression_of(*e),
                m::expression_of(*value),
                op,
                on_left,
                *s,
                out_of(*old(out), old(extra)@),
                depth as nat,
            ),
            *final(out),
            final(extra)@,
            r,
        ),
    decreases depth, 1int, 0int,
{
    if depth == 0 {
        return Err(refuse_depth());
    }
    if is_null_literal(value) {
        return Ok(make_truth(true));
    }
    if let Expression::Property(base, key) = e {
        assert(m::expression_of(**base) is Variable == (**base is Variable));
        if let Expression::Variable(v) = &**base {
            let fresh = make_node_property(v, key.as_str(), s, out, extra);
            let fresh = make_var(fresh);
            return match translate_at(value, s, out, extra, depth - 1) {
                Err(x) => Err(x),
                Ok(y) => Ok(
                    if on_left {
                        make_equal_or_not(op, fresh, y)
                    } else {
                        make_equal_or_not(op, y, fresh)
                    },
                ),
            };
        }
    }
    proof {
        assert(false);
    }
    Err(refuse_depth())
}

fn chains(op: CompOp, rhs: &Expression) -> (r: bool)
    ensures
        r == w::is_chain(op, m::expression_of(*rhs)),
{
    match rhs {
        Expression::Comparison(_, op2, _) => orders(op) && orders(*op2),
        _ => false,
    }
}

fn translate_chain(
    lhs: &Expression,
    op: CompOp,
    rhs: &Expression,
    s: &Scope,
    out: &mut Output,
    extra: &mut Vec<sparql::TriplePattern>,
    depth: usize,
) -> (r: Result<sparql::Expr, PolygraphError>)
    requires
        w::is_chain(op, m::expression_of(*rhs)),
    ensures
        is_done(
            w::chain(
                m::expression_of(*lhs),
                op,
                m::expression_of(*rhs),
                *s,
                out_of(*old(out), old(extra)@),
                depth as nat,
            ),
            *final(out),
            final(extra)@,
            r,
        ),
    decreases depth, 1int, 0int,
{
    if depth == 0 {
        return Err(refuse_depth());
    }
    if let Expression::Comparison(mid, op2, rhs2) = rhs {
        let a = Expression::Comparison(
            Box::new(clone_expression(lhs)),
            op,
            Box::new(clone_expression(mid)),
        );
        let b = Expression::Comparison(
            Box::new(clone_expression(mid)),
            *op2,
            Box::new(clone_expression(rhs2)),
        );
        assert(m::expression_of(a) == m::Expression::Comparison(
            Box::new(m::expression_of(*lhs)),
            op,
            Box::new(m::expression_of(**mid)),
        ));
        assert(m::expression_of(b) == m::Expression::Comparison(
            Box::new(m::expression_of(**mid)),
            *op2,
            Box::new(m::expression_of(**rhs2)),
        ));
        return match translate_pair(&a, &b, s, out, extra, depth - 1) {
            Err(x) => Err(x),
            Ok((p, q)) => Ok(make_and(p, q)),
        };
    }
    proof {
        assert(false);
    }
    Err(refuse_depth())
}

fn find_edge_comparison(lhs: &Expression, op: CompOp, rhs: &Expression, s: &Scope) -> (r: Option<
    sparql::Expr,
>)
    ensures
        g::opt_expr(r) == (if w::are_edges(m::expression_of(*lhs), m::expression_of(*rhs), *s) {
            Some(
                w::edge_comparison(m::expression_of(*lhs), op, m::expression_of(*rhs), *s),
            )
        } else {
            None
        }),
{
    match (lhs, rhs) {
        (Expression::Variable(a), Expression::Variable(b)) => match (
            s.edge_map.get(a.as_str()),
            s.edge_map.get(b.as_str()),
        ) {
            (Some(x), Some(y)) => {
                let same = make_same_edge(x, y);
                match op {
                    CompOp::Ne => Some(make_not(same)),
                    _ => Some(same),
                }
            },
            _ => None,
        },
        _ => None,
    }
}

fn make_known_truth(t: Option<bool>, out: &mut Output) -> (r: sparql::Expr)
    ensures
        forall|x: Seq<sparql::TriplePattern>|
            #![trigger out_of(*final(out), x)]
            w::known_truth(t, out_of(*old(out), x)) == w::done(
                out_of(*final(out), x),
                g::expr_of(r),
            ),
{
    match t {
        Some(b) => make_truth(b),
        None => make_null(out),
    }
}

fn is_compound(e: &Expression) -> (r: bool)
    ensures
        r == (m::expression_of(*e) is List || m::expression_of(*e) is MapLit),
{
    match e {
        Expression::List(_) | Expression::MapLit(_) => true,
        _ => false,
    }
}

fn find_keyed_comparison(lhs: &Expression, op: CompOp, rhs: &Expression, s: &Scope) -> (r: Option<
    sparql::Expr,
>)
    ensures
        g::opt_expr(r) == w::keyed_comparison(
            m::expression_of(*lhs),
            op,
            m::expression_of(*rhs),
            *s,
        ),
{
    if !orders(op) {
        return None;
    }
    match (lhs, rhs) {
        (Expression::Variable(v), _) => {
            if !is_compound(rhs) {
                return None;
            }
            match s.list_sort_key_vars.get(v.as_str()) {
                Some(k) => {
                    let key = sort_key_for_expr(rhs);
                    Some(make_in_order(op, make_var(k.clone()), make_quoted(key.as_str())))
                },
                None => None,
            }
        },
        (_, Expression::Variable(v)) => {
            if !is_compound(lhs) {
                return None;
            }
            match s.list_sort_key_vars.get(v.as_str()) {
                Some(k) => {
                    let key = sort_key_for_expr(lhs);
                    Some(make_in_order(op, make_quoted(key.as_str()), make_var(k.clone())))
                },
                None => None,
            }
        },
        _ => None,
    }
}

pub fn translate_comparison(
    lhs: &Expression,
    op: CompOp,
    rhs: &Expression,
    s: &Scope,
    out: &mut Output,
    extra: &mut Vec<sparql::TriplePattern>,
    depth: usize,
) -> (r: Result<sparql::Expr, PolygraphError>)
    ensures
        is_done(
            w::comparison(
                m::expression_of(*lhs),
                op,
                m::expression_of(*rhs),
                *s,
                out_of(*old(out), old(extra)@),
                depth as nat,
            ),
            *final(out),
            final(extra)@,
            r,
        ),
    decreases depth, 1int, 2int,
{
    let equality = equates(op);
    if s.skip_write_clauses && equality {
        if let Some(value) = find_set_value(lhs, s) {
            return translate_set_comparison(lhs, &value, op, true, s, out, extra, depth);
        }
        if let Some(value) = find_set_value(rhs, s) {
            return translate_set_comparison(rhs, &value, op, false, s, out, extra, depth);
        }
    }
    if chains(op, rhs) {
        return translate_chain(lhs, op, rhs, s, out, extra, depth);
    }
    if equality {
        if let Some(e) = find_edge_comparison(lhs, op, rhs, s) {
            return Ok(e);
        }
    }
    match op {
        CompOp::In => {
            return translate_membership(lhs, rhs, s, out, extra, depth);
        },
        _ => {},
    }
    if equality {
        if let Some(t) = try_eval_literal_eq(lhs, rhs) {
            let t = match t {
                Some(b) => match op {
                    CompOp::Eq => Some(b),
                    _ => Some(!b),
                },
                None => None,
            };
            return Ok(make_known_truth(t, out));
        }
    }
    if let Some(e) = find_keyed_comparison(lhs, op, rhs, s) {
        return Ok(e);
    }
    translate_plain_comparison(lhs, op, rhs, s, out, extra, depth)
}

fn translate_plain_comparison(
    lhs: &Expression,
    op: CompOp,
    rhs: &Expression,
    s: &Scope,
    out: &mut Output,
    extra: &mut Vec<sparql::TriplePattern>,
    depth: usize,
) -> (r: Result<sparql::Expr, PolygraphError>)
    ensures
        is_done(
            w::plain_comparison(
                m::expression_of(*lhs),
                op,
                m::expression_of(*rhs),
                *s,
                out_of(*old(out), old(extra)@),
                depth as nat,
            ),
            *final(out),
            final(extra)@,
            r,
        ),
    decreases depth, 1int, 0int,
{
    if depth == 0 {
        return Err(refuse_depth());
    }
    match translate_pair(lhs, rhs, s, out, extra, depth - 1) {
        Err(x) => Err(x),
        Ok((l, r)) => match op {
            CompOp::StartsWith | CompOp::EndsWith | CompOp::Contains => {
                let null = out.fresh_var("null");
                Ok(make_string_test(op, l, r, null))
            },
            _ => Ok(make_related(op, l, r)),
        },
    }
}

// ── Membership ───────────────────────────────────────────────────────────────

fn look_among(e: &Expression, items: &Vec<Expression>) -> (r: Option<Option<bool>>)
    ensures
        r == w::among(m::expression_of(*e), m::exprs_of(items@), 0, false),
{
    let ghost x = m::expression_of(*e);
    let ghost es = m::exprs_of(items@);
    proof {
        m::lemma_exprs_of(items@);
    }
    let mut null = false;
    #[verifier::loop_isolation(false)]
    for i in 0..items.len()
        invariant
            w::among(x, es, 0, false) == w::among(x, es, i as int, null),
    {
        match try_eval_literal_eq(e, &items[i]) {
            Some(Some(true)) => {
                return Some(Some(true));
            },
            Some(Some(false)) => {},
            Some(None) => {
                null = true;
            },
            None => {
                return None;
            },
        }
    }
    Some(
        if null {
            None
        } else {
            Some(false)
        },
    )
}

fn find_map_keys(arg: &Expression, s: &Scope) -> (r: Option<Vec<String>>)
    ensures
        (match r {
            Some(v) => Some(texts(v@)),
            None => None,
        }) == w::map_keys(m::expression_of(*arg), *s),
{
    match arg {
        Expression::MapLit(pairs) => {
            let mut r: Vec<String> = Vec::new();
            #[verifier::loop_isolation(false)]
            for i in 0..pairs.len()
                invariant
                    r@.len() == i,
                    forall|k: int| 0 <= k < i ==> (#[trigger] r@[k])@ == pairs@[k].0@,
            {
                r.push(pairs[i].0.clone());
            }
            proof {
                m::lemma_entries_of(pairs@);
                let es = m::entries_of(pairs@);
                assert forall|k: int| 0 <= k < es.len() implies (#[trigger] es[k]).0
                    == pairs@[k].0@ by {}
                assert(texts(r@) =~= Seq::new(es.len(), |i: int| es[i].0));
            }
            Some(r)
        },
        Expression::Variable(v) => match s.map_vars.get(v.as_str()) {
            Some(e) => {
                let mut r: Vec<String> = Vec::new();
                #[verifier::loop_isolation(false)]
                for i in 0..e.pairs.len()
                    invariant
                        r@.len() == i,
                        forall|k: int| 0 <= k < i ==> (#[trigger] r@[k])@ == e.pairs@[k].0@,
                {
                    r.push(e.pairs[i].0.clone());
                }
                proof {
                    let es = s.map_vars@[v@];
                    assert(texts(r@) =~= Seq::new(es.len(), |i: int| es[i].0));
                }
                Some(r)
            },
            None => None,
        },
        _ => None,
    }
}

fn make_quoted_all(keys: &Vec<String>) -> (r: Vec<sparql::Expr>)
    ensures
        g::exprs_of(r@) == w::quoted_all(texts(keys@)),
{
    let mut r: Vec<sparql::Expr> = Vec::new();
    #[verifier::loop_isolation(false)]
    for i in 0..keys.len()
        invariant
            r@.len() == i,
            forall|k: int| 0 <= k < i ==> g::expr_of(#[trigger] r@[k]) == quoted(keys@[k]@),
    {
        r.push(make_quoted(keys[i].as_str()));
    }
    assert(g::exprs_of(r@) =~= w::quoted_all(texts(keys@)));
    r
}

fn make_in(l: sparql::Expr, v: Vec<sparql::Expr>) -> (r: sparql::Expr)
    ensures
        g::expr_of(r) == g::Expr::In(Box::new(g::expr_of(l)), g::exprs_of(v@)),
{
    sparql::Expr::In(Box::new(l), v)
}

fn translate_membership(
    lhs: &Expression,
    rhs: &Expression,
    s: &Scope,
    out: &mut Output,
    extra: &mut Vec<sparql::TriplePattern>,
    depth: usize,
) -> (r: Result<sparql::Expr, PolygraphError>)
    ensures
        is_done(
            w::membership(
                m::expression_of(*lhs),
                m::expression_of(*rhs),
                *s,
                out_of(*old(out), old(extra)@),
                depth as nat,
            ),
            *final(out),
            final(extra)@,
            r,
        ),
    decreases depth, 1int, 1int,
{
    if depth == 0 {
        return Err(refuse_depth());
    }
    if is_definitely_non_list(rhs) {
        return Err(
            invalid("Type error: IN requires a list operand on the right-hand side"),
        );
    }
    if let Expression::List(items) = rhs {
        if let Some(t) = look_among(lhs, items) {
            return Ok(make_known_truth(t, out));
        }
    }
    if let Some(items) = try_resolve_to_items(rhs, s, find_hops(s)) {
        return translate_member_of_items(lhs, &items, s, out, extra, depth);
    }
    if let Expression::FunctionCall { name, distinct: _, args } = rhs {
        proof {
            m::lemma_exprs_of(args@);
        }
        if eq_ignore_ascii_case(name.as_str(), "keys") && args.len() > 0 {
            assert(m::expression_of(args@[0]) is Variable == (args@[0] is Variable));
            if let (Expression::Literal(Literal::String(key)), Expression::Variable(v)) = (
                lhs,
                &args[0],
            ) {
                if list_has(&s.node_vars, v.as_str()) {
                    let fresh = out.fresh_var("__kv");
                    let t = make_triple(
                        sparql::Term::Variable(v.clone()),
                        sparql::Predicate::NamedNode(s.iri(key.as_str())),
                        sparql::Term::Variable(fresh),
                    );
                    return Ok(make_triple_exists(t));
                }
            }
            if let Some(keys) = find_map_keys(&args[0], s) {
                return match translate_at(lhs, s, out, extra, depth - 1) {
                    Err(x) => Err(x),
                    Ok(l) => Ok(make_in(l, make_quoted_all(&keys))),
                };
            }
        }
    }
    translate_plain_comparison(lhs, CompOp::In, rhs, s, out, extra, depth)
}

fn translate_member_of_items(
    lhs: &Expression,
    items: &Vec<Expression>,
    s: &Scope,
    out: &mut Output,
    extra: &mut Vec<sparql::TriplePattern>,
    depth: usize,
) -> (r: Result<sparql::Expr, PolygraphError>)
    ensures
        is_done(
            w::member_of_items(
                m::expression_of(*lhs),
                m::exprs_of(items@),
                *s,
                out_of(*old(out), old(extra)@),
                depth as nat,
            ),
            *final(out),
            final(extra)@,
            r,
        ),
    decreases depth, 1int, 0int,
{
    if depth == 0 {
        return Err(refuse_depth());
    }
    match translate_at(lhs, s, out, extra, depth - 1) {
        Err(x) => Err(x),
        Ok(l) => match translate_several(items, s, out, extra, depth - 1) {
            Err(x) => Err(x),
            Ok(v) => Ok(make_in(l, v)),
        },
    }
}

} // verus!
