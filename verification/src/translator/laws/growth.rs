//! The law of what a translation leaves to do: it only adds to it.
use vstd::prelude::*;

#[allow(unused_imports)]
use crate::ast::cypher::{CompOp, QuantifierKind};
#[allow(unused_imports)]
use crate::ast::model as m;
#[allow(unused_imports)]
use crate::sparql::model as g;
#[allow(unused_imports)]
use crate::translator::expr::forms::{edge_end, listed_variable, new_property, node_property, Path};
#[allow(unused_imports)]
use crate::translator::expr::meaning as w;
#[allow(unused_imports)]
use crate::translator::expr::parts::Arith;
#[allow(unused_imports)]
use crate::translator::resolve::{
    created_value, entry_value, hops_in, place, resolved_items, resolved_list, resolved_map,
};
#[allow(unused_imports)]
use crate::translator::scope::{bumped, Out, Scope};

verus! {

/// Whether a list begins with another.
pub open spec fn begins<T>(whole: Seq<T>, start: Seq<T>) -> bool {
    start.len() <= whole.len() && forall|i: int|
        0 <= i < start.len() ==> whole[i] == #[trigger] start[i]
}

/// Whether what is left to do includes, in the same order, what was left before,
/// no number of a fresh variable has been given back, and as many values to bind
/// have been added as variables for them.
#[verifier::opaque]
pub open spec fn grows(o: Out, p: Out) -> bool {
    &&& o.counter <= p.counter
    &&& begins(p.checks, o.checks)
    &&& begins(p.targets, o.targets)
    &&& begins(p.aggs, o.aggs)
    &&& begins(p.subqueries, o.subqueries)
    &&& begins(p.extends, o.extends)
    &&& begins(p.extra, o.extra)
    &&& p.checks.len() - o.checks.len() == p.targets.len() - o.targets.len()
}

proof fn same(o: Out)
    ensures
        grows(o, o),
{
    reveal(grows);
}

proof fn further(o: Out, p: Out, q: Out)
    requires
        grows(o, p),
        grows(p, q),
    ensures
        grows(o, q),
{
    reveal(grows);
    assert forall|i: int| 0 <= i < o.checks.len() implies q.checks[i] == #[trigger] o.checks[i] by {
        assert(p.checks[i] == o.checks[i]);
    }
    assert forall|i: int| 0 <= i < o.targets.len() implies q.targets[i]
        == #[trigger] o.targets[i] by {
        assert(p.targets[i] == o.targets[i]);
    }
    assert forall|i: int| 0 <= i < o.aggs.len() implies q.aggs[i] == #[trigger] o.aggs[i] by {
        assert(p.aggs[i] == o.aggs[i]);
    }
    assert forall|i: int| 0 <= i < o.subqueries.len() implies q.subqueries[i]
        == #[trigger] o.subqueries[i] by {
        assert(p.subqueries[i] == o.subqueries[i]);
    }
    assert forall|i: int| 0 <= i < o.extends.len() implies q.extends[i]
        == #[trigger] o.extends[i] by {
        assert(p.extends[i] == o.extends[i]);
    }
    assert forall|i: int| 0 <= i < o.extra.len() implies q.extra[i] == #[trigger] o.extra[i] by {
        assert(p.extra[i] == o.extra[i]);
    }
}

proof fn bump(o: Out)
    ensures
        grows(o, bumped(o)),
{
    reveal(grows);
}

/// Triples of a pattern of its own are kept apart.
proof fn apart(o: Out, p: Out)
    requires
        grows(Out { extra: seq![], ..o }, p),
    ensures
        grows(o, Out { extra: o.extra, ..p }),
{
    reveal(grows);
}

// ── Properties ───────────────────────────────────────────────────────────────

proof fn grow_new_property(v: Seq<char>, key: Seq<char>, s: Scope, o: Out)
    ensures
        grows(o, new_property(v, key, s, o)),
{
    reveal(grows);
}

proof fn grow_node_property(v: Seq<char>, key: Seq<char>, s: Scope, o: Out)
    ensures
        grows(o, node_property(v, key, s, o)),
{
    reveal(grows);
}

proof fn grow_graph_property(base: m::Expression, key: Seq<char>, s: Scope, o: Out)
    ensures
        grows(o, w::graph_property(base, key, s, o).out),
{
    same(o);
    if let Ok(v) = crate::translator::resolve::named_variable(base, s) {
        grow_new_property(v, key, s, o);
    }
}

proof fn grow_property(base: m::Expression, key: Seq<char>, s: Scope, o: Out, depth: nat)
    ensures
        grows(o, w::property(base, key, s, o, depth).out),
    decreases depth, 1int, 0int,
{
    same(o);
    bump(o);
    if depth > 0 {
        let d = (depth - 1) as nat;
        grow_graph_property(base, key, s, o);
        if let m::Expression::Variable(v) = base {
            if let Some(e) = created_value(v, key, s) {
                law_translation_only_adds(e, s, o, d);
            }
        }
        if let Some(pairs) = resolved_map(base, s, hops_in(s)) {
            if let Some(value) = entry_value(pairs, key, 0) {
                law_translation_only_adds(value, s, o, d);
            }
        }
        if let Some(v) = edge_end(base, s) {
            law_translation_only_adds(w::property_of(v, key), s, o, d);
        }
        if let Some(v) = listed_variable(base, s, hops_in(s)) {
            law_translation_only_adds(w::property_of(v, key), s, o, d);
        }
    }
}

// ── Two expressions, and several ─────────────────────────────────────────────

proof fn grow_pair(a: m::Expression, b: m::Expression, s: Scope, o: Out, depth: nat)
    ensures
        grows(o, w::pair(a, b, s, o, depth).out),
    decreases depth, 3int, 0int,
{
    law_translation_only_adds(a, s, o, depth);
    let x = w::translated(a, s, o, depth);
    law_translation_only_adds(b, s, x.out, depth);
    let y = w::translated(b, s, x.out, depth);
    further(o, x.out, y.out);
}

proof fn grow_pair_of(p: (m::Expression, m::Expression), s: Scope, o: Out, depth: nat)
    ensures
        grows(o, w::pair_of(p, s, o, depth).out),
    decreases depth, 3int, 0int,
{
    law_translation_only_adds(p.0, s, o, depth);
    let x = w::translated(p.0, s, o, depth);
    law_translation_only_adds(p.1, s, x.out, depth);
    let y = w::translated(p.1, s, x.out, depth);
    further(o, x.out, y.out);
}

proof fn grow_several(v: Seq<m::Expression>, k: int, s: Scope, o: Out, depth: nat)
    ensures
        grows(o, w::several(v, k, s, o, depth).out),
    decreases depth, 3int, k,
{
    same(o);
    if 0 < k <= v.len() {
        grow_several(v, k - 1, s, o, depth);
        let before = w::several(v, k - 1, s, o, depth);
        law_translation_only_adds(v[k - 1], s, before.out, depth);
        let x = w::translated(v[k - 1], s, before.out, depth);
        further(o, before.out, x.out);
    }
}

// ── Truth ────────────────────────────────────────────────────────────────────

proof fn grow_exclusive(a: m::Expression, b: m::Expression, s: Scope, o: Out, depth: nat)
    ensures
        grows(o, w::exclusive(a, b, s, o, depth).out),
    decreases depth, 1int, 0int,
{
    same(o);
    if depth > 0 {
        let d = (depth - 1) as nat;
        grow_pair(a, b, s, o, d);
        let first = w::pair(a, b, s, o, d);
        grow_pair(a, b, s, first.out, d);
        let second = w::pair(a, b, s, first.out, d);
        further(o, first.out, second.out);
    }
}

proof fn grow_value_test(a: m::Expression, present: bool, s: Scope, o: Out, depth: nat)
    ensures
        grows(o, w::value_test(a, present, s, o, depth).out),
    decreases depth, 1int, 0int,
{
    same(o);
    if depth > 0 {
        law_translation_only_adds(a, s, o, (depth - 1) as nat);
        let x = w::translated(a, s, o, (depth - 1) as nat);
        let p = w::value_test(a, present, s, o, depth).out;
        assert(grows(x.out, p)) by {
            reveal(grows);
        }
        further(o, x.out, p);
    }
}

proof fn grow_null_test(a: m::Expression, present: bool, s: Scope, o: Out, depth: nat)
    ensures
        grows(o, w::null_test(a, present, s, o, depth).out),
    decreases depth, 1int, 1int,
{
    same(o);
    if depth > 0 {
        let d = (depth - 1) as nat;
        grow_value_test(a, present, s, o, depth);
        match a {
            m::Expression::Not(inner) => {
                law_translation_only_adds(m::Expression::IsNotNull(inner), s, o, d);
                law_translation_only_adds(m::Expression::IsNull(inner), s, o, d);
            },
            m::Expression::Comparison(l, op, r) => {
                grow_pair(*l, *r, s, o, d);
                let both = w::pair(*l, *r, s, o, d);
                grow_value_test(a, present, s, both.out, depth);
                further(o, both.out, w::value_test(a, present, s, both.out, depth).out);
            },
            _ => {},
        }
    }
}

// ── Comparisons ──────────────────────────────────────────────────────────────

proof fn grow_set_comparison(
    e: m::Expression,
    value: m::Expression,
    op: CompOp,
    on_left: bool,
    s: Scope,
    o: Out,
    depth: nat,
)
    ensures
        grows(o, w::set_comparison(e, value, op, on_left, s, o, depth).out),
    decreases depth, 1int, 0int,
{
    same(o);
    if depth > 0 {
        let v = w::set_variable(e);
        let key = w::set_key(e);
        let p = node_property(v, key, s, o);
        grow_node_property(v, key, s, o);
        law_translation_only_adds(value, s, p, (depth - 1) as nat);
        further(o, p, w::translated(value, s, p, (depth - 1) as nat).out);
    }
}

proof fn grow_chain(
    lhs: m::Expression,
    op: CompOp,
    rhs: m::Expression,
    s: Scope,
    o: Out,
    depth: nat,
)
    ensures
        grows(o, w::chain(lhs, op, rhs, s, o, depth).out),
    decreases depth, 1int, 0int,
{
    same(o);
    if depth > 0 {
        let mid = rhs->Comparison_0;
        grow_pair(
            m::Expression::Comparison(Box::new(lhs), op, mid),
            m::Expression::Comparison(mid, rhs->Comparison_1, rhs->Comparison_2),
            s,
            o,
            (depth - 1) as nat,
        );
    }
}

proof fn grow_plain_comparison(
    lhs: m::Expression,
    op: CompOp,
    rhs: m::Expression,
    s: Scope,
    o: Out,
    depth: nat,
)
    ensures
        grows(o, w::plain_comparison(lhs, op, rhs, s, o, depth).out),
    decreases depth, 1int, 0int,
{
    same(o);
    if depth > 0 {
        grow_pair(lhs, rhs, s, o, (depth - 1) as nat);
        let both = w::pair(lhs, rhs, s, o, (depth - 1) as nat);
        bump(both.out);
        further(o, both.out, bumped(both.out));
    }
}

proof fn grow_member_of_items(
    lhs: m::Expression,
    items: Seq<m::Expression>,
    s: Scope,
    o: Out,
    depth: nat,
)
    ensures
        grows(o, w::member_of_items(lhs, items, s, o, depth).out),
    decreases depth, 1int, 0int,
{
    same(o);
    if depth > 0 {
        let d = (depth - 1) as nat;
        law_translation_only_adds(lhs, s, o, d);
        let x = w::translated(lhs, s, o, d);
        grow_several(items, items.len() as int, s, x.out, d);
        further(o, x.out, w::several(items, items.len() as int, s, x.out, d).out);
    }
}

proof fn grow_membership(lhs: m::Expression, rhs: m::Expression, s: Scope, o: Out, depth: nat)
    ensures
        grows(o, w::membership(lhs, rhs, s, o, depth).out),
    decreases depth, 1int, 1int,
{
    same(o);
    bump(o);
    if depth > 0 {
        if let Some(items) = resolved_items(rhs, s, hops_in(s)) {
            grow_member_of_items(lhs, items, s, o, depth);
        }
        law_translation_only_adds(lhs, s, o, (depth - 1) as nat);
        grow_plain_comparison(lhs, CompOp::In, rhs, s, o, depth);
    }
}

proof fn grow_comparison(
    lhs: m::Expression,
    op: CompOp,
    rhs: m::Expression,
    s: Scope,
    o: Out,
    depth: nat,
)
    ensures
        grows(o, w::comparison(lhs, op, rhs, s, o, depth).out),
    decreases depth, 1int, 2int,
{
    same(o);
    bump(o);
    if let Some(value) = w::set_value(lhs, s) {
        grow_set_comparison(lhs, value, op, true, s, o, depth);
    }
    if let Some(value) = w::set_value(rhs, s) {
        grow_set_comparison(rhs, value, op, false, s, o, depth);
    }
    grow_chain(lhs, op, rhs, s, o, depth);
    grow_membership(lhs, rhs, s, o, depth);
    grow_plain_comparison(lhs, op, rhs, s, o, depth);
}

// ── Arithmetic ───────────────────────────────────────────────────────────────

proof fn grow_arithmetic(
    op: Arith,
    a: m::Expression,
    b: m::Expression,
    s: Scope,
    o: Out,
    depth: nat,
)
    ensures
        grows(o, w::arithmetic(op, a, b, s, o, depth).out),
    decreases depth, 1int, 0int,
{
    same(o);
    if depth > 0 {
        grow_pair(a, b, s, o, (depth - 1) as nat);
    }
}

proof fn grow_sum(a: m::Expression, b: m::Expression, s: Scope, o: Out, depth: nat)
    ensures
        grows(o, w::sum(a, b, s, o, depth).out),
    decreases depth, 1int, 0int,
{
    same(o);
    if depth > 0 {
        grow_pair(a, b, s, o, (depth - 1) as nat);
    }
}

proof fn grow_difference(a: m::Expression, b: m::Expression, s: Scope, o: Out, depth: nat)
    ensures
        grows(o, w::difference(a, b, s, o, depth).out),
    decreases depth, 1int, 0int,
{
    same(o);
    if depth > 0 {
        grow_pair(a, b, s, o, (depth - 1) as nat);
    }
}

proof fn grow_power(a: m::Expression, b: m::Expression, s: Scope, o: Out, depth: nat)
    ensures
        grows(o, w::power(a, b, s, o, depth).out),
    decreases depth, 1int, 0int,
{
    same(o);
    if depth > 0 {
        grow_pair(a, b, s, o, (depth - 1) as nat);
        let both = w::pair(a, b, s, o, (depth - 1) as nat);
        bump(both.out);
        further(o, both.out, bumped(both.out));
    }
}

// ── Maps ─────────────────────────────────────────────────────────────────────

proof fn grow_map_value(e: m::Expression, s: Scope, o: Out, depth: nat)
    ensures
        grows(o, w::map_value(e, s, o, depth).out),
    decreases depth, 1int, 0int,
{
    same(o);
    if depth > 0 {
        law_translation_only_adds(e, s, o, (depth - 1) as nat);
    }
}

proof fn grow_map_pieces(
    pairs: Seq<(Seq<char>, m::Expression)>,
    k: int,
    s: Scope,
    o: Out,
    depth: nat,
)
    ensures
        grows(o, w::map_pieces(pairs, k, s, o, depth).out),
    decreases depth, 1int, k + 1,
{
    same(o);
    if 0 < k <= pairs.len() {
        grow_map_pieces(pairs, k - 1, s, o, depth);
        let before = w::map_pieces(pairs, k - 1, s, o, depth);
        grow_map_value(pairs[k - 1].1, s, before.out, depth);
        further(o, before.out, w::map_value(pairs[k - 1].1, s, before.out, depth).out);
    }
}

// ── Subqueries ───────────────────────────────────────────────────────────────

proof fn grow_exists_subquery(
    p: Seq<m::Pattern>,
    filter: Option<Box<m::Expression>>,
    s: Scope,
    o: Out,
    depth: nat,
)
    ensures
        grows(o, w::exists_subquery(p, filter, s, o, depth).out),
    decreases depth, 1int, 0int,
{
    same(o);
    if depth > 0 {
        if let Some(e) = filter {
            law_translation_only_adds(*e, s, o, (depth - 1) as nat);
        }
    }
}

// ── Aggregates ───────────────────────────────────────────────────────────────

proof fn grow_aggregate_over(
    f: g::AggregateFunction,
    distinct: bool,
    e: m::Expression,
    s: Scope,
    o: Out,
    depth: nat,
)
    ensures
        grows(o, w::aggregate_over(f, distinct, e, s, o, depth).out),
    decreases depth, 0int, 0int,
{
    same(o);
    if depth > 0 {
        law_translation_only_adds(e, s, o, (depth - 1) as nat);
    }
}

proof fn grow_aggregated(a: m::AggregateExpr, s: Scope, o: Out, depth: nat)
    ensures
        grows(o, w::aggregated(a, s, o, depth).out),
    decreases depth, 1int, 0int,
{
    same(o);
    match a {
        m::AggregateExpr::Count { distinct, expr } => {
            if let Some(e) = expr {
                grow_aggregate_over(g::AggregateFunction::Count, distinct, *e, s, o, depth);
            }
        },
        m::AggregateExpr::Sum { distinct, expr } => {
            grow_aggregate_over(g::AggregateFunction::Sum, distinct, *expr, s, o, depth);
        },
        m::AggregateExpr::Avg { distinct, expr } => {
            grow_aggregate_over(g::AggregateFunction::Avg, distinct, *expr, s, o, depth);
        },
        m::AggregateExpr::Min { distinct, expr } => {
            grow_aggregate_over(g::AggregateFunction::Min, distinct, *expr, s, o, depth);
        },
        m::AggregateExpr::Max { distinct, expr } => {
            grow_aggregate_over(g::AggregateFunction::Max, distinct, *expr, s, o, depth);
        },
        m::AggregateExpr::Collect { distinct, expr } => {
            grow_aggregate_over(
                g::AggregateFunction::GroupConcat { separator: None },
                distinct,
                *expr,
                s,
                o,
                depth,
            );
        },
    }
}

proof fn grow_aggregate_value(a: m::AggregateExpr, s: Scope, o: Out, depth: nat)
    ensures
        grows(o, w::aggregate_value(a, s, o, depth).out),
    decreases depth, 1int, 1int,
{
    same(o);
    bump(o);
    grow_aggregated(a, s, bumped(o), depth);
    let x = w::aggregated(a, s, bumped(o), depth);
    further(o, bumped(o), x.out);
    let p = w::aggregate_value(a, s, o, depth).out;
    if crate::translator::expr::forms::aggregate_for(a, s) is None {
        assert(grows(x.out, p)) by {
            reveal(grows);
        }
        further(o, x.out, p);
    }
}

// ── CASE ─────────────────────────────────────────────────────────────────────

proof fn grow_branches(
    whens: Seq<(m::Expression, m::Expression)>,
    k: int,
    operand: Option<g::Expr>,
    rest: g::Expr,
    s: Scope,
    o: Out,
    depth: nat,
)
    ensures
        grows(o, w::branches(whens, k, operand, rest, s, o, depth).out),
    decreases depth, 3int, k,
{
    same(o);
    if 0 < k <= whens.len() {
        grow_pair_of(whens[k - 1], s, o, depth);
        let both = w::pair_of(whens[k - 1], s, o, depth);
        if let Ok((c, t)) = both.result {
            let whole = crate::translator::expr::parts::cond(
                w::branch_condition(operand, c),
                t,
                rest,
            );
            grow_branches(whens, k - 1, operand, whole, s, both.out, depth);
            further(
                o,
                both.out,
                w::branches(whens, k - 1, operand, whole, s, both.out, depth).out,
            );
        }
    }
}

proof fn grow_case_rest(
    operand: Option<g::Expr>,
    whens: Seq<(m::Expression, m::Expression)>,
    otherwise: Option<Box<m::Expression>>,
    s: Scope,
    o: Out,
    depth: nat,
)
    ensures
        grows(o, w::case_rest(operand, whens, otherwise, s, o, depth).out),
    decreases depth, 1int, 0int,
{
    same(o);
    if depth > 0 {
        let d = (depth - 1) as nat;
        let null = w::null_value(o);
        bump(o);
        if let Some(e) = otherwise {
            law_translation_only_adds(*e, s, null.out, d);
            further(o, null.out, w::translated(*e, s, null.out, d).out);
        }
        let last = match otherwise {
            Some(e) => w::translated(*e, s, null.out, d),
            None => null,
        };
        if let Ok(e) = last.result {
            grow_branches(whens, whens.len() as int, operand, e, s, last.out, d);
            further(
                o,
                last.out,
                w::branches(whens, whens.len() as int, operand, e, s, last.out, d).out,
            );
        }
    }
}

proof fn grow_case_value(
    operand: Option<Box<m::Expression>>,
    whens: Seq<(m::Expression, m::Expression)>,
    otherwise: Option<Box<m::Expression>>,
    s: Scope,
    o: Out,
    depth: nat,
)
    ensures
        grows(o, w::case_value(operand, whens, otherwise, s, o, depth).out),
    decreases depth, 1int, 1int,
{
    same(o);
    if depth > 0 {
        match operand {
            Some(e) => {
                law_translation_only_adds(*e, s, o, (depth - 1) as nat);
                let x = w::translated(*e, s, o, (depth - 1) as nat);
                if let Ok(op) = x.result {
                    grow_case_rest(Some(op), whens, otherwise, s, x.out, depth);
                    further(
                        o,
                        x.out,
                        w::case_rest(Some(op), whens, otherwise, s, x.out, depth).out,
                    );
                }
            },
            None => {
                grow_case_rest(None, whens, otherwise, s, o, depth);
            },
        }
    }
}

// ── Lists ────────────────────────────────────────────────────────────────────

proof fn grow_quantifier_over_items(
    kind: QuantifierKind,
    variable: Seq<char>,
    items: Seq<m::Expression>,
    predicate: Option<Box<m::Expression>>,
    s: Scope,
    o: Out,
    depth: nat,
)
    ensures
        grows(o, w::quantifier_over_items(kind, variable, items, predicate, s, o, depth).out),
    decreases depth, 1int, 0int,
{
    same(o);
    if depth > 0 {
        let v = w::instances(predicate, variable, items);
        grow_several(v, v.len() as int, s, o, (depth - 1) as nat);
        let all = w::several(v, v.len() as int, s, o, (depth - 1) as nat);
        bump(all.out);
        further(o, all.out, bumped(all.out));
    }
}

proof fn grow_quantifier_over_list(
    kind: QuantifierKind,
    variable: Seq<char>,
    list: m::Expression,
    predicate: Option<Box<m::Expression>>,
    s: Scope,
    o: Out,
    depth: nat,
)
    ensures
        grows(o, w::quantifier_over_list(kind, variable, list, predicate, s, o, depth).out),
    decreases depth, 1int, 1int,
{
    same(o);
    if let Some(items) = resolved_list(list, s, hops_in(s)) {
        grow_quantifier_over_items(kind, variable, items, predicate, s, o, depth);
    }
}

proof fn grow_quantifier_value(
    kind: QuantifierKind,
    variable: Seq<char>,
    list: m::Expression,
    predicate: Option<Box<m::Expression>>,
    s: Scope,
    o: Out,
    depth: nat,
)
    ensures
        grows(o, w::quantifier_value(kind, variable, list, predicate, s, o, depth).out),
    decreases depth, 1int, 2int,
{
    same(o);
    if depth > 0 {
        grow_quantifier_over_list(kind, variable, list, predicate, s, o, depth);
        law_translation_only_adds(list, s, o, (depth - 1) as nat);
        let x = w::translated(list, s, o, (depth - 1) as nat);
        grow_quantifier_over_list(kind, variable, list, predicate, s, x.out, depth);
        further(
            o,
            x.out,
            w::quantifier_over_list(kind, variable, list, predicate, s, x.out, depth).out,
        );
    }
}

proof fn grow_subscript(list: m::Expression, index: m::Expression, s: Scope, o: Out, depth: nat)
    ensures
        grows(o, w::subscript(list, index, s, o, depth).out),
    decreases depth, 1int, 0int,
{
    same(o);
    bump(o);
    if depth > 0 {
        let d = (depth - 1) as nat;
        if let Some(key) = crate::translator::known::constant_text(index) {
            law_translation_only_adds(m::Expression::Property(Box::new(list), key), s, o, d);
        }
        if let Some(n) = crate::translator::constant::literal_int(index) {
            if let Some(items) = resolved_list(list, s, hops_in(s)) {
                if let Some(i) = place(n, items.len() as int) {
                    law_translation_only_adds(items[i], s, o, d);
                }
            }
        }
    }
}

// ── Pattern comprehensions ───────────────────────────────────────────────────

proof fn grow_comprehension_pattern(
    path: Path,
    predicate: Option<Box<m::Expression>>,
    s: Scope,
    o: Out,
    depth: nat,
)
    ensures
        grows(o, w::comprehension_pattern(path, predicate, s, o, depth).0),
        w::comprehension_pattern(path, predicate, s, o, depth).0.extra == o.extra,
    decreases depth, 0int, 0int,
{
    same(o);
    if depth > 0 {
        if let Some(e) = predicate {
            let p = Out { extra: seq![], ..o };
            law_translation_only_adds(*e, s, p, (depth - 1) as nat);
            apart(o, w::translated(*e, s, p, (depth - 1) as nat).out);
        }
    }
}

proof fn grow_collect_values(
    p: g::GraphPattern,
    value: g::Expr,
    anchors: Seq<Seq<char>>,
    o: Out,
)
    ensures
        grows(o, w::collect_values(p, value, anchors, o).out),
{
    reveal(grows);
}

proof fn grow_pattern_comprehension(
    pattern: m::Pattern,
    predicate: Option<Box<m::Expression>>,
    projection: m::Expression,
    s: Scope,
    o: Out,
    depth: nat,
)
    ensures
        grows(o, w::pattern_comprehension(pattern, predicate, projection, s, o, depth).out),
    decreases depth, 1int, 0int,
{
    same(o);
    if depth > 0 {
        if let Some(path) = crate::translator::expr::forms::path_for(pattern, s) {
            grow_comprehension_pattern(path, predicate, s, o, depth);
            let first = w::comprehension_pattern(path, predicate, s, o, depth);
            if let Ok(p) = first.1 {
                let start = Out { extra: seq![], ..first.0 };
                law_translation_only_adds(projection, s, start, (depth - 1) as nat);
                let x = w::translated(projection, s, start, (depth - 1) as nat);
                apart(first.0, x.out);
                let back = Out { extra: o.extra, ..x.out };
                further(o, first.0, back);
                if let Ok(value) = x.result {
                    let whole = w::with_optional_group(p, x.out.extra);
                    let names = w::anchors(pattern.elements, pattern.elements.len() as int, s);
                    grow_collect_values(whole, value, names, back);
                    further(o, back, w::collect_values(whole, value, names, back).out);
                }
            }
        }
    }
}

// ── The whole ────────────────────────────────────────────────────────────────

/// That the translation of an expression adds to what is left to do.
#[verifier::opaque]
pub open spec fn adds(e: m::Expression, s: Scope, o: Out, depth: nat) -> bool {
    grows(o, w::translated(e, s, o, depth).out)
}

proof fn grow_known_values(e: m::Expression, s: Scope, o: Out, depth: nat)
    requires
        e is Variable || e is Literal || e is List || e is FunctionCall || e is LabelCheck
            || e is PatternPredicate || e is ExistsFullSubquery || e is ListSlice
            || e is ListComprehension,
    ensures
        adds(e, s, o, depth),
    decreases depth, 2int, 0int,
{
    reveal(adds);
    same(o);
    bump(o);
}

proof fn grow_logic(e: m::Expression, s: Scope, o: Out, depth: nat)
    requires
        e is Or || e is And || e is Xor || e is Not,
    ensures
        adds(e, s, o, depth),
    decreases depth, 2int, 0int,
{
    reveal(adds);
    same(o);
    if depth > 0 {
        match e {
            m::Expression::Or(a, b) => {
                grow_pair(*a, *b, s, o, (depth - 1) as nat);
            },
            m::Expression::And(a, b) => {
                grow_pair(*a, *b, s, o, (depth - 1) as nat);
            },
            m::Expression::Xor(a, b) => {
                grow_exclusive(*a, *b, s, o, depth);
            },
            m::Expression::Not(a) => {
                law_translation_only_adds(*a, s, o, (depth - 1) as nat);
            },
            _ => {},
        }
    }
}

proof fn grow_tests(e: m::Expression, s: Scope, o: Out, depth: nat)
    requires
        e is IsNull || e is IsNotNull || e is Comparison || e is Property,
    ensures
        adds(e, s, o, depth),
    decreases depth, 2int, 0int,
{
    reveal(adds);
    same(o);
    if depth > 0 {
        match e {
            m::Expression::IsNull(a) => {
                grow_null_test(*a, false, s, o, depth);
            },
            m::Expression::IsNotNull(a) => {
                grow_null_test(*a, true, s, o, depth);
            },
            m::Expression::Comparison(a, op, b) => {
                grow_comparison(*a, op, *b, s, o, depth);
            },
            m::Expression::Property(base, key) => {
                grow_property(*base, key, s, o, depth);
            },
            _ => {},
        }
    }
}

proof fn grow_numbers(e: m::Expression, s: Scope, o: Out, depth: nat)
    requires
        e is Add || e is Subtract || e is Multiply || e is Divide || e is Modulo || e is Power
            || e is Negate,
    ensures
        adds(e, s, o, depth),
    decreases depth, 2int, 0int,
{
    reveal(adds);
    same(o);
    if depth > 0 {
        match e {
            m::Expression::Add(a, b) => {
                grow_sum(*a, *b, s, o, depth);
            },
            m::Expression::Subtract(a, b) => {
                grow_difference(*a, *b, s, o, depth);
            },
            m::Expression::Multiply(a, b) => {
                grow_arithmetic(Arith::Multiply, *a, *b, s, o, depth);
            },
            m::Expression::Divide(a, b) => {
                grow_arithmetic(Arith::Divide, *a, *b, s, o, depth);
            },
            m::Expression::Modulo(a, b) => {
                grow_arithmetic(Arith::Modulo, *a, *b, s, o, depth);
            },
            m::Expression::Power(a, b) => {
                grow_power(*a, *b, s, o, depth);
            },
            m::Expression::Negate(a) => {
                law_translation_only_adds(*a, s, o, (depth - 1) as nat);
            },
            _ => {},
        }
    }
}

proof fn grow_lists(e: m::Expression, s: Scope, o: Out, depth: nat)
    requires
        e is MapLit || e is QuantifierExpr || e is Subscript,
    ensures
        adds(e, s, o, depth),
    decreases depth, 2int, 0int,
{
    reveal(adds);
    same(o);
    if depth > 0 {
        match e {
            m::Expression::MapLit(pairs) => {
                grow_map_pieces(pairs, pairs.len() as int, s, o, depth);
                assert(grows(o, w::map_text(pairs, s, o, depth).out));
            },
            m::Expression::QuantifierExpr { kind, variable, list, predicate } => {
                grow_quantifier_value(kind, variable, *list, predicate, s, o, depth);
            },
            m::Expression::Subscript(list, index) => {
                grow_subscript(*list, *index, s, o, depth);
            },
            _ => {},
        }
    }
}

proof fn grow_queries(e: m::Expression, s: Scope, o: Out, depth: nat)
    requires
        e is ExistsSubquery || e is Aggregate || e is CaseExpression || e is PatternComprehension,
    ensures
        adds(e, s, o, depth),
    decreases depth, 2int, 0int,
{
    reveal(adds);
    same(o);
    if depth > 0 {
        match e {
            m::Expression::ExistsSubquery { patterns, where_ } => {
                grow_exists_subquery(patterns.0, where_, s, o, depth);
            },
            m::Expression::Aggregate(a) => {
                grow_aggregate_value(a, s, o, depth);
            },
            m::Expression::CaseExpression { operand, whens, else_expr } => {
                grow_case_value(operand, whens, else_expr, s, o, depth);
            },
            m::Expression::PatternComprehension { alias, pattern, predicate, projection } => {
                grow_pattern_comprehension(pattern, predicate, *projection, s, o, depth);
            },
            _ => {},
        }
    }
}

proof fn lemma_adds(e: m::Expression, s: Scope, o: Out, depth: nat)
    ensures
        adds(e, s, o, depth),
    decreases depth, 2int, 1int,
{
    if e is Variable || e is Literal || e is List || e is FunctionCall || e is LabelCheck
            || e is PatternPredicate || e is ExistsFullSubquery || e is ListSlice
            || e is ListComprehension {
        grow_known_values(e, s, o, depth);
    } else if e is Or || e is And || e is Xor || e is Not {
        grow_logic(e, s, o, depth);
    } else if e is IsNull || e is IsNotNull || e is Comparison || e is Property {
        grow_tests(e, s, o, depth);
    } else if e is Add || e is Subtract || e is Multiply || e is Divide || e is Modulo || e is Power
            || e is Negate {
        grow_numbers(e, s, o, depth);
    } else if e is MapLit || e is QuantifierExpr || e is Subscript {
        grow_lists(e, s, o, depth);
    } else if e is ExistsSubquery || e is Aggregate || e is CaseExpression || e is PatternComprehension {
        grow_queries(e, s, o, depth);
    }
}

/// The translation of an expression, also one that is refused, only adds to what
/// is left to do: bindings, aggregates, subqueries and triples that were there
/// stay where they were, numbers of fresh variables are not used again, and
/// every value to bind comes with a variable.
pub proof fn law_translation_only_adds(e: m::Expression, s: Scope, o: Out, depth: nat)
    ensures
        grows(o, w::translated(e, s, o, depth).out),
    decreases depth, 2int, 2int,
{
    lemma_adds(e, s, o, depth);
    assert(grows(o, w::translated(e, s, o, depth).out)) by {
        reveal(adds);
    }
}

} // verus!
