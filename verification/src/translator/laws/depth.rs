//! The law of depth: where there is enough of it, more changes nothing.
use vstd::prelude::*;

#[allow(unused_imports)]
use crate::ast::cypher::{CompOp, QuantifierKind};
#[allow(unused_imports)]
use crate::ast::model as m;
#[allow(unused_imports)]
use crate::sparql::model as g;
#[allow(unused_imports)]
use crate::translator::expr::forms::{edge_end, listed_variable, node_property, Path};
#[allow(unused_imports)]
use crate::translator::expr::meaning as w;
#[allow(unused_imports)]
use crate::translator::expr::parts::Arith;
#[allow(unused_imports)]
use crate::translator::refusal::Refusal;
#[allow(unused_imports)]
use crate::translator::resolve::{
    created_value, entry_value, hops_in, place, resolved_items, resolved_list, resolved_map,
};
#[allow(unused_imports)]
use crate::translator::scope::{bumped, Out, Scope};

verus! {

/// Whether something is refused for its depth.
pub open spec fn is_deep<T>(r: Result<T, Refusal>) -> bool {
    r matches Err(x) && x == w::too_deep()
}

// ── Properties ───────────────────────────────────────────────────────────────

proof fn deeper_property(
    base: m::Expression,
    key: Seq<char>,
    s: Scope,
    o: Out,
    depth: nat,
    more: nat,
)
    requires
        depth <= more,
    ensures
        is_deep(w::property(base, key, s, o, depth).result)
            || w::property(base, key, s, o, more)
            == w::property(base, key, s, o, depth),
    decreases depth, 1int, 0int,
{
    if depth > 0 {
        let d = (depth - 1) as nat;
        let d2 = (more - 1) as nat;
        if let m::Expression::Variable(v) = base {
            if let Some(e) = created_value(v, key, s) {
                deeper(e, s, o, d, d2);
            }
        }
        if let Some(pairs) = resolved_map(base, s, hops_in(s)) {
            if let Some(value) = entry_value(pairs, key, 0) {
                deeper(value, s, o, d, d2);
            }
        }
        if let Some(v) = edge_end(base, s) {
            deeper(w::property_of(v, key), s, o, d, d2);
        }
        if let Some(v) = listed_variable(base, s, hops_in(s)) {
            deeper(w::property_of(v, key), s, o, d, d2);
        }
    }
}

// ── Two expressions, and several ─────────────────────────────────────────────

proof fn deeper_pair(a: m::Expression, b: m::Expression, s: Scope, o: Out, depth: nat, more: nat)
    requires
        depth <= more,
    ensures
        is_deep(w::pair(a, b, s, o, depth).result)
            || w::pair(a, b, s, o, more)
            == w::pair(a, b, s, o, depth),
    decreases depth, 3int, 0int,
{
    deeper(a, s, o, depth, more);
    let x = w::translated(a, s, o, depth);
    deeper(b, s, x.out, depth, more);
}

proof fn deeper_pair_of(p: (m::Expression, m::Expression), s: Scope, o: Out, depth: nat, more: nat)
    requires
        depth <= more,
    ensures
        is_deep(w::pair_of(p, s, o, depth).result)
            || w::pair_of(p, s, o, more)
            == w::pair_of(p, s, o, depth),
    decreases depth, 3int, 0int,
{
    deeper(p.0, s, o, depth, more);
    let x = w::translated(p.0, s, o, depth);
    deeper(p.1, s, x.out, depth, more);
}

proof fn deeper_several(v: Seq<m::Expression>, k: int, s: Scope, o: Out, depth: nat, more: nat)
    requires
        depth <= more,
    ensures
        is_deep(w::several(v, k, s, o, depth).result)
            || w::several(v, k, s, o, more)
            == w::several(v, k, s, o, depth),
    decreases depth, 3int, k,
{
    if 0 < k <= v.len() {
        deeper_several(v, k - 1, s, o, depth, more);
        let before = w::several(v, k - 1, s, o, depth);
        deeper(v[k - 1], s, before.out, depth, more);
    }
}

// ── Truth ────────────────────────────────────────────────────────────────────

proof fn deeper_exclusive(
    a: m::Expression,
    b: m::Expression,
    s: Scope,
    o: Out,
    depth: nat,
    more: nat,
)
    requires
        depth <= more,
    ensures
        is_deep(w::exclusive(a, b, s, o, depth).result)
            || w::exclusive(a, b, s, o, more)
            == w::exclusive(a, b, s, o, depth),
    decreases depth, 1int, 0int,
{
    if depth > 0 {
        let d = (depth - 1) as nat;
        let d2 = (more - 1) as nat;
        deeper_pair(a, b, s, o, d, d2);
        let first = w::pair(a, b, s, o, d);
        deeper_pair(a, b, s, first.out, d, d2);
    }
}

proof fn deeper_value_test(a: m::Expression, present: bool, s: Scope, o: Out, depth: nat, more: nat)
    requires
        depth <= more,
    ensures
        is_deep(w::value_test(a, present, s, o, depth).result)
            || w::value_test(a, present, s, o, more)
            == w::value_test(a, present, s, o, depth),
    decreases depth, 1int, 0int,
{
    if depth > 0 {
        deeper(a, s, o, (depth - 1) as nat, (more - 1) as nat);
    }
}

proof fn deeper_null_test(a: m::Expression, present: bool, s: Scope, o: Out, depth: nat, more: nat)
    requires
        depth <= more,
    ensures
        is_deep(w::null_test(a, present, s, o, depth).result)
            || w::null_test(a, present, s, o, more)
            == w::null_test(a, present, s, o, depth),
    decreases depth, 1int, 1int,
{
    if depth > 0 {
        let d = (depth - 1) as nat;
        let d2 = (more - 1) as nat;
        deeper_value_test(a, present, s, o, depth, more);
        match a {
            m::Expression::Not(inner) => {
                deeper(m::Expression::IsNotNull(inner), s, o, d, d2);
                deeper(m::Expression::IsNull(inner), s, o, d, d2);
            },
            m::Expression::Comparison(l, op, r) => {
                deeper_pair(*l, *r, s, o, d, d2);
                let both = w::pair(*l, *r, s, o, d);
                deeper_value_test(a, present, s, both.out, depth, more);
            },
            _ => {},
        }
    }
}

// ── Comparisons ──────────────────────────────────────────────────────────────

proof fn deeper_set_comparison(
    e: m::Expression,
    value: m::Expression,
    op: CompOp,
    on_left: bool,
    s: Scope,
    o: Out,
    depth: nat,
    more: nat,
)
    requires
        depth <= more,
    ensures
        is_deep(w::set_comparison(e, value, op, on_left, s, o, depth).result)
            || w::set_comparison(e, value, op, on_left, s, o, more)
            == w::set_comparison(e, value, op, on_left, s, o, depth),
    decreases depth, 1int, 0int,
{
    if depth > 0 {
        let v = w::set_variable(e);
        let key = w::set_key(e);
        let p = node_property(v, key, s, o);
        deeper(value, s, p, (depth - 1) as nat, (more - 1) as nat);
    }
}

proof fn deeper_chain(
    lhs: m::Expression,
    op: CompOp,
    rhs: m::Expression,
    s: Scope,
    o: Out,
    depth: nat,
    more: nat,
)
    requires
        depth <= more,
    ensures
        is_deep(w::chain(lhs, op, rhs, s, o, depth).result)
            || w::chain(lhs, op, rhs, s, o, more)
            == w::chain(lhs, op, rhs, s, o, depth),
    decreases depth, 1int, 0int,
{
    if depth > 0 {
        let mid = rhs->Comparison_0;
        deeper_pair(
            m::Expression::Comparison(Box::new(lhs), op, mid),
            m::Expression::Comparison(mid, rhs->Comparison_1, rhs->Comparison_2),
            s,
            o,
            (depth - 1) as nat,
            (more - 1) as nat,
        );
    }
}

proof fn deeper_plain_comparison(
    lhs: m::Expression,
    op: CompOp,
    rhs: m::Expression,
    s: Scope,
    o: Out,
    depth: nat,
    more: nat,
)
    requires
        depth <= more,
    ensures
        is_deep(w::plain_comparison(lhs, op, rhs, s, o, depth).result)
            || w::plain_comparison(lhs, op, rhs, s, o, more)
            == w::plain_comparison(lhs, op, rhs, s, o, depth),
    decreases depth, 1int, 0int,
{
    if depth > 0 {
        deeper_pair(lhs, rhs, s, o, (depth - 1) as nat, (more - 1) as nat);
    }
}

proof fn deeper_member_of_items(
    lhs: m::Expression,
    items: Seq<m::Expression>,
    s: Scope,
    o: Out,
    depth: nat,
    more: nat,
)
    requires
        depth <= more,
    ensures
        is_deep(w::member_of_items(lhs, items, s, o, depth).result)
            || w::member_of_items(lhs, items, s, o, more)
            == w::member_of_items(lhs, items, s, o, depth),
    decreases depth, 1int, 0int,
{
    if depth > 0 {
        let d = (depth - 1) as nat;
        let d2 = (more - 1) as nat;
        deeper(lhs, s, o, d, d2);
        let x = w::translated(lhs, s, o, d);
        deeper_several(items, items.len() as int, s, x.out, d, d2);
    }
}

proof fn deeper_membership(
    lhs: m::Expression,
    rhs: m::Expression,
    s: Scope,
    o: Out,
    depth: nat,
    more: nat,
)
    requires
        depth <= more,
    ensures
        is_deep(w::membership(lhs, rhs, s, o, depth).result)
            || w::membership(lhs, rhs, s, o, more)
            == w::membership(lhs, rhs, s, o, depth),
    decreases depth, 1int, 1int,
{
    if depth > 0 {
        if let Some(items) = resolved_items(rhs, s, hops_in(s)) {
            deeper_member_of_items(lhs, items, s, o, depth, more);
        }
        deeper(lhs, s, o, (depth - 1) as nat, (more - 1) as nat);
        deeper_plain_comparison(lhs, CompOp::In, rhs, s, o, depth, more);
    }
}

proof fn deeper_comparison(
    lhs: m::Expression,
    op: CompOp,
    rhs: m::Expression,
    s: Scope,
    o: Out,
    depth: nat,
    more: nat,
)
    requires
        depth <= more,
    ensures
        is_deep(w::comparison(lhs, op, rhs, s, o, depth).result)
            || w::comparison(lhs, op, rhs, s, o, more)
            == w::comparison(lhs, op, rhs, s, o, depth),
    decreases depth, 1int, 2int,
{
    if let Some(value) = w::set_value(lhs, s) {
        deeper_set_comparison(lhs, value, op, true, s, o, depth, more);
    }
    if let Some(value) = w::set_value(rhs, s) {
        deeper_set_comparison(rhs, value, op, false, s, o, depth, more);
    }
    deeper_chain(lhs, op, rhs, s, o, depth, more);
    deeper_membership(lhs, rhs, s, o, depth, more);
    deeper_plain_comparison(lhs, op, rhs, s, o, depth, more);
}

// ── Arithmetic ───────────────────────────────────────────────────────────────

proof fn deeper_arithmetic(
    op: Arith,
    a: m::Expression,
    b: m::Expression,
    s: Scope,
    o: Out,
    depth: nat,
    more: nat,
)
    requires
        depth <= more,
    ensures
        is_deep(w::arithmetic(op, a, b, s, o, depth).result)
            || w::arithmetic(op, a, b, s, o, more)
            == w::arithmetic(op, a, b, s, o, depth),
    decreases depth, 1int, 0int,
{
    if depth > 0 {
        deeper_pair(a, b, s, o, (depth - 1) as nat, (more - 1) as nat);
    }
}

proof fn deeper_sum(a: m::Expression, b: m::Expression, s: Scope, o: Out, depth: nat, more: nat)
    requires
        depth <= more,
    ensures
        is_deep(w::sum(a, b, s, o, depth).result)
            || w::sum(a, b, s, o, more)
            == w::sum(a, b, s, o, depth),
    decreases depth, 1int, 0int,
{
    if depth > 0 {
        deeper_pair(a, b, s, o, (depth - 1) as nat, (more - 1) as nat);
    }
}

proof fn deeper_difference(
    a: m::Expression,
    b: m::Expression,
    s: Scope,
    o: Out,
    depth: nat,
    more: nat,
)
    requires
        depth <= more,
    ensures
        is_deep(w::difference(a, b, s, o, depth).result)
            || w::difference(a, b, s, o, more)
            == w::difference(a, b, s, o, depth),
    decreases depth, 1int, 0int,
{
    if depth > 0 {
        deeper_pair(a, b, s, o, (depth - 1) as nat, (more - 1) as nat);
    }
}

proof fn deeper_power(a: m::Expression, b: m::Expression, s: Scope, o: Out, depth: nat, more: nat)
    requires
        depth <= more,
    ensures
        is_deep(w::power(a, b, s, o, depth).result)
            || w::power(a, b, s, o, more)
            == w::power(a, b, s, o, depth),
    decreases depth, 1int, 0int,
{
    if depth > 0 {
        deeper_pair(a, b, s, o, (depth - 1) as nat, (more - 1) as nat);
    }
}

// ── Maps ─────────────────────────────────────────────────────────────────────

proof fn deeper_map_value(e: m::Expression, s: Scope, o: Out, depth: nat, more: nat)
    requires
        depth <= more,
    ensures
        is_deep(w::map_value(e, s, o, depth).result)
            || w::map_value(e, s, o, more)
            == w::map_value(e, s, o, depth),
    decreases depth, 1int, 0int,
{
    if depth > 0 {
        deeper(e, s, o, (depth - 1) as nat, (more - 1) as nat);
    }
}

proof fn deeper_map_pieces(
    pairs: Seq<(Seq<char>, m::Expression)>,
    k: int,
    s: Scope,
    o: Out,
    depth: nat,
    more: nat,
)
    requires
        depth <= more,
    ensures
        is_deep(w::map_pieces(pairs, k, s, o, depth).result)
            || w::map_pieces(pairs, k, s, o, more)
            == w::map_pieces(pairs, k, s, o, depth),
    decreases depth, 1int, k + 1,
{
    if 0 < k <= pairs.len() {
        deeper_map_pieces(pairs, k - 1, s, o, depth, more);
        let before = w::map_pieces(pairs, k - 1, s, o, depth);
        deeper_map_value(pairs[k - 1].1, s, before.out, depth, more);
    }
}

proof fn deeper_map_text(
    pairs: Seq<(Seq<char>, m::Expression)>,
    s: Scope,
    o: Out,
    depth: nat,
    more: nat,
)
    requires
        depth <= more,
    ensures
        is_deep(w::map_text(pairs, s, o, depth).result) || w::map_text(pairs, s, o, more)
            == w::map_text(pairs, s, o, depth),
    decreases depth, 1int, pairs.len() + 2,
{
    deeper_map_pieces(pairs, pairs.len() as int, s, o, depth, more);
}

// ── Subqueries ───────────────────────────────────────────────────────────────

proof fn deeper_exists_subquery(
    p: Seq<m::Pattern>,
    filter: Option<Box<m::Expression>>,
    s: Scope,
    o: Out,
    depth: nat,
    more: nat,
)
    requires
        depth <= more,
    ensures
        is_deep(w::exists_subquery(p, filter, s, o, depth).result)
            || w::exists_subquery(p, filter, s, o, more)
            == w::exists_subquery(p, filter, s, o, depth),
    decreases depth, 1int, 0int,
{
    if depth > 0 {
        if let Some(e) = filter {
            deeper(*e, s, o, (depth - 1) as nat, (more - 1) as nat);
        }
    }
}

// ── Aggregates ───────────────────────────────────────────────────────────────

proof fn deeper_aggregate_over(
    f: g::AggregateFunction,
    distinct: bool,
    e: m::Expression,
    s: Scope,
    o: Out,
    depth: nat,
    more: nat,
)
    requires
        depth <= more,
    ensures
        is_deep(w::aggregate_over(f, distinct, e, s, o, depth).result)
            || w::aggregate_over(f, distinct, e, s, o, more)
            == w::aggregate_over(f, distinct, e, s, o, depth),
    decreases depth, 0int, 0int,
{
    if depth > 0 {
        deeper(e, s, o, (depth - 1) as nat, (more - 1) as nat);
    }
}

proof fn deeper_aggregated(a: m::AggregateExpr, s: Scope, o: Out, depth: nat, more: nat)
    requires
        depth <= more,
    ensures
        is_deep(w::aggregated(a, s, o, depth).result)
            || w::aggregated(a, s, o, more)
            == w::aggregated(a, s, o, depth),
    decreases depth, 1int, 0int,
{
    match a {
        m::AggregateExpr::Count { distinct, expr } => {
            if let Some(e) = expr {
                deeper_aggregate_over(g::AggregateFunction::Count, distinct, *e, s, o, depth, more);
            }
        },
        m::AggregateExpr::Sum { distinct, expr } => {
            deeper_aggregate_over(g::AggregateFunction::Sum, distinct, *expr, s, o, depth, more);
        },
        m::AggregateExpr::Avg { distinct, expr } => {
            deeper_aggregate_over(g::AggregateFunction::Avg, distinct, *expr, s, o, depth, more);
        },
        m::AggregateExpr::Min { distinct, expr } => {
            deeper_aggregate_over(g::AggregateFunction::Min, distinct, *expr, s, o, depth, more);
        },
        m::AggregateExpr::Max { distinct, expr } => {
            deeper_aggregate_over(g::AggregateFunction::Max, distinct, *expr, s, o, depth, more);
        },
        m::AggregateExpr::Collect { distinct, expr } => {
            deeper_aggregate_over(
                g::AggregateFunction::GroupConcat { separator: None },
                distinct,
                *expr,
                s,
                o,
                depth,
                more,
            );
        },
    }
}

proof fn deeper_aggregate_value(a: m::AggregateExpr, s: Scope, o: Out, depth: nat, more: nat)
    requires
        depth <= more,
    ensures
        is_deep(w::aggregate_value(a, s, o, depth).result)
            || w::aggregate_value(a, s, o, more)
            == w::aggregate_value(a, s, o, depth),
    decreases depth, 1int, 1int,
{
    deeper_aggregated(a, s, bumped(o), depth, more);
}

// ── CASE ─────────────────────────────────────────────────────────────────────

proof fn deeper_branches(
    whens: Seq<(m::Expression, m::Expression)>,
    k: int,
    operand: Option<g::Expr>,
    rest: g::Expr,
    s: Scope,
    o: Out,
    depth: nat,
    more: nat,
)
    requires
        depth <= more,
    ensures
        is_deep(w::branches(whens, k, operand, rest, s, o, depth).result)
            || w::branches(whens, k, operand, rest, s, o, more)
            == w::branches(whens, k, operand, rest, s, o, depth),
    decreases depth, 3int, k,
{
    if 0 < k <= whens.len() {
        deeper_pair_of(whens[k - 1], s, o, depth, more);
        let both = w::pair_of(whens[k - 1], s, o, depth);
        if let Ok((c, t)) = both.result {
            let whole = crate::translator::expr::parts::cond(
                w::branch_condition(operand, c),
                t,
                rest,
            );
            deeper_branches(whens, k - 1, operand, whole, s, both.out, depth, more);
        }
    }
}

proof fn deeper_case_rest(
    operand: Option<g::Expr>,
    whens: Seq<(m::Expression, m::Expression)>,
    otherwise: Option<Box<m::Expression>>,
    s: Scope,
    o: Out,
    depth: nat,
    more: nat,
)
    requires
        depth <= more,
    ensures
        is_deep(w::case_rest(operand, whens, otherwise, s, o, depth).result)
            || w::case_rest(operand, whens, otherwise, s, o, more)
            == w::case_rest(operand, whens, otherwise, s, o, depth),
    decreases depth, 1int, 0int,
{
    if depth > 0 {
        let d = (depth - 1) as nat;
        let d2 = (more - 1) as nat;
        let null = w::null_value(o);
        if let Some(e) = otherwise {
            deeper(*e, s, null.out, d, d2);
        }
        let last = match otherwise {
            Some(e) => w::translated(*e, s, null.out, d),
            None => null,
        };
        if let Ok(e) = last.result {
            deeper_branches(whens, whens.len() as int, operand, e, s, last.out, d, d2);
        }
    }
}

proof fn deeper_case_value(
    operand: Option<Box<m::Expression>>,
    whens: Seq<(m::Expression, m::Expression)>,
    otherwise: Option<Box<m::Expression>>,
    s: Scope,
    o: Out,
    depth: nat,
    more: nat,
)
    requires
        depth <= more,
    ensures
        is_deep(w::case_value(operand, whens, otherwise, s, o, depth).result)
            || w::case_value(operand, whens, otherwise, s, o, more)
            == w::case_value(operand, whens, otherwise, s, o, depth),
    decreases depth, 1int, 1int,
{
    if depth > 0 {
        match operand {
            Some(e) => {
                deeper(*e, s, o, (depth - 1) as nat, (more - 1) as nat);
                let x = w::translated(*e, s, o, (depth - 1) as nat);
                if let Ok(op) = x.result {
                    deeper_case_rest(Some(op), whens, otherwise, s, x.out, depth, more);
                }
            },
            None => {
                deeper_case_rest(None, whens, otherwise, s, o, depth, more);
            },
        }
    }
}

// ── Lists ────────────────────────────────────────────────────────────────────

proof fn deeper_quantifier_over_items(
    kind: QuantifierKind,
    variable: Seq<char>,
    items: Seq<m::Expression>,
    predicate: Option<Box<m::Expression>>,
    s: Scope,
    o: Out,
    depth: nat,
    more: nat,
)
    requires
        depth <= more,
    ensures
        is_deep(w::quantifier_over_items(kind, variable, items, predicate, s, o, depth).result)
            || w::quantifier_over_items(kind, variable, items, predicate, s, o, more)
            == w::quantifier_over_items(kind, variable, items, predicate, s, o, depth),
    decreases depth, 1int, 0int,
{
    if depth > 0 {
        let v = w::instances(predicate, variable, items);
        deeper_several(v, v.len() as int, s, o, (depth - 1) as nat, (more - 1) as nat);
    }
}

proof fn deeper_quantifier_over_list(
    kind: QuantifierKind,
    variable: Seq<char>,
    list: m::Expression,
    predicate: Option<Box<m::Expression>>,
    s: Scope,
    o: Out,
    depth: nat,
    more: nat,
)
    requires
        depth <= more,
    ensures
        is_deep(w::quantifier_over_list(kind, variable, list, predicate, s, o, depth).result)
            || w::quantifier_over_list(kind, variable, list, predicate, s, o, more)
            == w::quantifier_over_list(kind, variable, list, predicate, s, o, depth),
    decreases depth, 1int, 1int,
{
    if let Some(items) = resolved_list(list, s, hops_in(s)) {
        deeper_quantifier_over_items(kind, variable, items, predicate, s, o, depth, more);
    }
}

proof fn deeper_quantifier_value(
    kind: QuantifierKind,
    variable: Seq<char>,
    list: m::Expression,
    predicate: Option<Box<m::Expression>>,
    s: Scope,
    o: Out,
    depth: nat,
    more: nat,
)
    requires
        depth <= more,
    ensures
        is_deep(w::quantifier_value(kind, variable, list, predicate, s, o, depth).result)
            || w::quantifier_value(kind, variable, list, predicate, s, o, more)
            == w::quantifier_value(kind, variable, list, predicate, s, o, depth),
    decreases depth, 1int, 2int,
{
    if depth > 0 {
        deeper_quantifier_over_list(kind, variable, list, predicate, s, o, depth, more);
        deeper(list, s, o, (depth - 1) as nat, (more - 1) as nat);
        let x = w::translated(list, s, o, (depth - 1) as nat);
        deeper_quantifier_over_list(kind, variable, list, predicate, s, x.out, depth, more);
    }
}

proof fn deeper_subscript(
    list: m::Expression,
    index: m::Expression,
    s: Scope,
    o: Out,
    depth: nat,
    more: nat,
)
    requires
        depth <= more,
    ensures
        is_deep(w::subscript(list, index, s, o, depth).result)
            || w::subscript(list, index, s, o, more)
            == w::subscript(list, index, s, o, depth),
    decreases depth, 1int, 0int,
{
    if depth > 0 {
        let d = (depth - 1) as nat;
        let d2 = (more - 1) as nat;
        if let Some(key) = crate::translator::known::constant_text(index) {
            deeper(m::Expression::Property(Box::new(list), key), s, o, d, d2);
        }
        if let Some(n) = crate::translator::constant::literal_int(index) {
            if let Some(items) = resolved_list(list, s, hops_in(s)) {
                if let Some(i) = place(n, items.len() as int) {
                    deeper(items[i], s, o, d, d2);
                }
            }
        }
    }
}

// ── Pattern comprehensions ───────────────────────────────────────────────────

proof fn deeper_comprehension_pattern(
    path: Path,
    predicate: Option<Box<m::Expression>>,
    s: Scope,
    o: Out,
    depth: nat,
    more: nat,
)
    requires
        depth <= more,
    ensures
        is_deep(w::comprehension_pattern(path, predicate, s, o, depth).1)
            || w::comprehension_pattern(path, predicate, s, o, more)
            == w::comprehension_pattern(path, predicate, s, o, depth),
    decreases depth, 0int, 0int,
{
    if depth > 0 {
        if let Some(e) = predicate {
            let p = Out { extra: seq![], ..o };
            deeper(*e, s, p, (depth - 1) as nat, (more - 1) as nat);
        }
    }
}

proof fn deeper_pattern_comprehension(
    pattern: m::Pattern,
    predicate: Option<Box<m::Expression>>,
    projection: m::Expression,
    s: Scope,
    o: Out,
    depth: nat,
    more: nat,
)
    requires
        depth <= more,
    ensures
        is_deep(w::pattern_comprehension(pattern, predicate, projection, s, o, depth).result)
            || w::pattern_comprehension(pattern, predicate, projection, s, o, more)
            == w::pattern_comprehension(pattern, predicate, projection, s, o, depth),
    decreases depth, 1int, 0int,
{
    if depth > 0 {
        if let Some(path) = crate::translator::expr::forms::path_for(pattern, s) {
            deeper_comprehension_pattern(path, predicate, s, o, depth, more);
            let first = w::comprehension_pattern(path, predicate, s, o, depth);
            if first.1 is Ok {
                let start = Out { extra: seq![], ..first.0 };
                deeper(projection, s, start, (depth - 1) as nat, (more - 1) as nat);
            }
        }
    }
}

// ── The whole ────────────────────────────────────────────────────────────────

/// That more depth leaves the translation of an expression as it is, unless it is
/// refused for its depth.
#[verifier::opaque]
pub open spec fn settles(e: m::Expression, s: Scope, o: Out, depth: nat, more: nat) -> bool {
    is_deep(w::translated(e, s, o, depth).result) || w::translated(e, s, o, more)
        == w::translated(e, s, o, depth)
}

proof fn deeper_known_values(e: m::Expression, s: Scope, o: Out, depth: nat, more: nat)
    requires
        depth <= more,
        e is Variable || e is Literal || e is List || e is FunctionCall || e is LabelCheck
            || e is PatternPredicate || e is ExistsFullSubquery || e is ListSlice
            || e is ListComprehension,
    ensures
        settles(e, s, o, depth, more),
    decreases depth, 2int, 0int,
{
    reveal(settles);
}

proof fn deeper_logic(e: m::Expression, s: Scope, o: Out, depth: nat, more: nat)
    requires
        depth <= more,
        e is Or || e is And || e is Xor || e is Not,
    ensures
        settles(e, s, o, depth, more),
    decreases depth, 2int, 0int,
{
    reveal(settles);
    if depth > 0 {
        match e {
            m::Expression::Or(a, b) => {
                deeper_pair(*a, *b, s, o, (depth - 1) as nat, (more - 1) as nat);
            },
            m::Expression::And(a, b) => {
                deeper_pair(*a, *b, s, o, (depth - 1) as nat, (more - 1) as nat);
            },
            m::Expression::Xor(a, b) => {
                deeper_exclusive(*a, *b, s, o, depth, more);
            },
            m::Expression::Not(a) => {
                deeper(*a, s, o, (depth - 1) as nat, (more - 1) as nat);
            },
            _ => {},
        }
    }
}

proof fn deeper_tests(e: m::Expression, s: Scope, o: Out, depth: nat, more: nat)
    requires
        depth <= more,
        e is IsNull || e is IsNotNull || e is Comparison || e is Property,
    ensures
        settles(e, s, o, depth, more),
    decreases depth, 2int, 0int,
{
    reveal(settles);
    if depth > 0 {
        match e {
            m::Expression::IsNull(a) => {
                deeper_null_test(*a, false, s, o, depth, more);
            },
            m::Expression::IsNotNull(a) => {
                deeper_null_test(*a, true, s, o, depth, more);
            },
            m::Expression::Comparison(a, op, b) => {
                deeper_comparison(*a, op, *b, s, o, depth, more);
            },
            m::Expression::Property(base, key) => {
                deeper_property(*base, key, s, o, depth, more);
            },
            _ => {},
        }
    }
}

proof fn deeper_numbers(e: m::Expression, s: Scope, o: Out, depth: nat, more: nat)
    requires
        depth <= more,
        e is Add || e is Subtract || e is Multiply || e is Divide || e is Modulo || e is Power
            || e is Negate,
    ensures
        settles(e, s, o, depth, more),
    decreases depth, 2int, 0int,
{
    reveal(settles);
    if depth > 0 {
        match e {
            m::Expression::Add(a, b) => {
                deeper_sum(*a, *b, s, o, depth, more);
            },
            m::Expression::Subtract(a, b) => {
                deeper_difference(*a, *b, s, o, depth, more);
            },
            m::Expression::Multiply(a, b) => {
                deeper_arithmetic(Arith::Multiply, *a, *b, s, o, depth, more);
            },
            m::Expression::Divide(a, b) => {
                deeper_arithmetic(Arith::Divide, *a, *b, s, o, depth, more);
            },
            m::Expression::Modulo(a, b) => {
                deeper_arithmetic(Arith::Modulo, *a, *b, s, o, depth, more);
            },
            m::Expression::Power(a, b) => {
                deeper_power(*a, *b, s, o, depth, more);
            },
            m::Expression::Negate(a) => {
                deeper(*a, s, o, (depth - 1) as nat, (more - 1) as nat);
            },
            _ => {},
        }
    }
}

proof fn deeper_lists(e: m::Expression, s: Scope, o: Out, depth: nat, more: nat)
    requires
        depth <= more,
        e is MapLit || e is QuantifierExpr || e is Subscript,
    ensures
        settles(e, s, o, depth, more),
    decreases depth, 2int, 0int,
{
    reveal(settles);
    if depth > 0 {
        match e {
            m::Expression::MapLit(pairs) => {
                deeper_map_text(pairs, s, o, depth, more);
            },
            m::Expression::QuantifierExpr { kind, variable, list, predicate } => {
                deeper_quantifier_value(kind, variable, *list, predicate, s, o, depth, more);
            },
            m::Expression::Subscript(list, index) => {
                deeper_subscript(*list, *index, s, o, depth, more);
            },
            _ => {},
        }
    }
}

proof fn deeper_queries(e: m::Expression, s: Scope, o: Out, depth: nat, more: nat)
    requires
        depth <= more,
        e is ExistsSubquery || e is Aggregate || e is CaseExpression || e is PatternComprehension,
    ensures
        settles(e, s, o, depth, more),
    decreases depth, 2int, 0int,
{
    reveal(settles);
    if depth > 0 {
        match e {
            m::Expression::ExistsSubquery { patterns, where_ } => {
                deeper_exists_subquery(patterns.0, where_, s, o, depth, more);
            },
            m::Expression::Aggregate(a) => {
                deeper_aggregate_value(a, s, o, depth, more);
            },
            m::Expression::CaseExpression { operand, whens, else_expr } => {
                deeper_case_value(operand, whens, else_expr, s, o, depth, more);
            },
            m::Expression::PatternComprehension { alias, pattern, predicate, projection } => {
                deeper_pattern_comprehension(pattern, predicate, *projection, s, o, depth, more);
            },
            _ => {},
        }
    }
}

proof fn lemma_settles(e: m::Expression, s: Scope, o: Out, depth: nat, more: nat)
    requires
        depth <= more,
    ensures
        settles(e, s, o, depth, more),
    decreases depth, 2int, 1int,
{
    if e is Variable || e is Literal || e is List || e is FunctionCall || e is LabelCheck
            || e is PatternPredicate || e is ExistsFullSubquery || e is ListSlice
            || e is ListComprehension {
        deeper_known_values(e, s, o, depth, more);
    } else if e is Or || e is And || e is Xor || e is Not {
        deeper_logic(e, s, o, depth, more);
    } else if e is IsNull || e is IsNotNull || e is Comparison || e is Property {
        deeper_tests(e, s, o, depth, more);
    } else if e is Add || e is Subtract || e is Multiply || e is Divide || e is Modulo || e is Power
            || e is Negate {
        deeper_numbers(e, s, o, depth, more);
    } else if e is MapLit || e is QuantifierExpr || e is Subscript {
        deeper_lists(e, s, o, depth, more);
    } else if e is ExistsSubquery || e is Aggregate || e is CaseExpression
            || e is PatternComprehension {
        deeper_queries(e, s, o, depth, more);
    }
}

proof fn deeper(e: m::Expression, s: Scope, o: Out, depth: nat, more: nat)
    requires
        depth <= more,
    ensures
        is_deep(w::translated(e, s, o, depth).result) || w::translated(e, s, o, more)
            == w::translated(e, s, o, depth),
    decreases depth, 2int, 2int,
{
    lemma_settles(e, s, o, depth, more);
    assert(is_deep(w::translated(e, s, o, depth).result) || w::translated(e, s, o, more)
        == w::translated(e, s, o, depth)) by {
        reveal(settles);
    }
}

/// Depth does not matter where there is enough of it: an expression that is not
/// refused for its depth is translated in the same way with more, and so without
/// a limit.
pub proof fn law_depth_does_not_matter(e: m::Expression, s: Scope, o: Out, depth: nat, more: nat)
    requires
        depth <= more,
        w::translated(e, s, o, depth).result != Err::<g::Expr, Refusal>(w::too_deep()),
    ensures
        w::translated(e, s, o, more) == w::translated(e, s, o, depth),
        depth <= usize::MAX ==> w::translation(e, s, o) == w::translated(e, s, o, depth),
{
    reveal(w::translation);
    deeper(e, s, o, depth, more);
    if depth <= usize::MAX {
        deeper(e, s, o, depth, usize::MAX as nat);
    }
}

} // verus!
