//! What an expression is translated to.
use vstd::prelude::*;

#[allow(unused_imports)]
use crate::ast::cypher::{CompOp, QuantifierKind};
#[allow(unused_imports)]
use crate::ast::model as m;
#[allow(unused_imports)]
use crate::sparql::algebra::Function;
#[allow(unused_imports)]
use crate::sparql::model as g;
#[allow(unused_imports)]
use crate::text::{join_spec, lists, same_ignoring_case, texts};
#[allow(unused_imports)]
use crate::translator::analysis::produces_string;
#[allow(unused_imports)]
use crate::translator::constant::{const_bool, is_null, literal_int};
#[allow(unused_imports)]
use crate::translator::expr::forms::{
    aggregate_for, all_of, any_of, edge_end, given_for, is_duration, is_tracked, kind_text,
    label_check, listed_variable, new_property, node_property, path_for, path_pattern, projected,
    property_hint, sum_of, temporal_operand, triple_exists, variable_for, Path,
};
#[allow(unused_imports)]
use crate::translator::expr::parts::{
    and, arith, concatenated, equal, equal_or_not, in_order, is_order, is_string_test, list_or_sum,
    negative_of, not, or, related, same_edge, string_test, truth, var, xor, Arith,
};
#[allow(unused_imports)]
use crate::translator::formula::{call1, call2, integer, quoted};
#[allow(unused_imports)]
use crate::translator::ground::{element_text, list_text, literal_term, scalar_text};
#[allow(unused_imports)]
use crate::translator::known::{
    constant_text, has_null_operand, literal_equal, non_boolean, non_list, uses_arithmetic,
};
#[allow(unused_imports)]
use crate::translator::refusal::Refusal;
#[allow(unused_imports)]
use crate::translator::resolve::{
    appended, bound_list, created_value, cut_out, entry_value, map_entry, named_variable, place,
    hops_in, prepended, resolved_items, resolved_list, resolved_map, slice_of, Slice,
};
#[allow(unused_imports)]
use crate::translator::scope::{bumped, fresh_name, Out, Scope};
#[allow(unused_imports)]
use crate::translator::sort_key::sort_key;
#[allow(unused_imports)]
use crate::translator::subst::substituted;
#[allow(unused_imports)]
use crate::translator::unwind_keys::triple;

verus! {

/// An expression, and what is left to do for it.
pub ghost struct Done {
    pub out: Out,
    pub result: Result<g::Expr, Refusal>,
}

/// Two expressions, and what is left to do for them.
pub ghost struct Both {
    pub out: Out,
    pub result: Result<(g::Expr, g::Expr), Refusal>,
}

/// Several expressions, and what is left to do for them.
pub ghost struct Many {
    pub out: Out,
    pub result: Result<Seq<g::Expr>, Refusal>,
}

/// An aggregate, and what is left to do for it.
pub ghost struct Aggregated {
    pub out: Out,
    pub result: Result<g::Aggregate, Refusal>,
}

pub open spec fn done(o: Out, e: g::Expr) -> Done {
    Done { out: o, result: Ok(e) }
}

pub open spec fn failed(o: Out, x: Refusal) -> Done {
    Done { out: o, result: Err(x) }
}

/// Null: a variable that nothing binds.
pub open spec fn null_value(o: Out) -> Done {
    done(bumped(o), var(fresh_name("null"@, o.counter)))
}

pub open spec fn unsupported(feature: Seq<char>) -> Refusal {
    Refusal::Unsupported(feature)
}

pub open spec fn too_deep() -> Refusal {
    unsupported("expression nested too deeply"@)
}

// ── The whole ────────────────────────────────────────────────────────────────

/// What an expression is translated to. `depth` is how many translations may
/// stand within each other.
pub open spec fn translated(e: m::Expression, s: Scope, o: Out, depth: nat) -> Done
    decreases depth, 2int, 0int,
{
    if depth == 0 {
        failed(o, too_deep())
    } else {
        let d = (depth - 1) as nat;
        match e {
            m::Expression::Variable(v) => done(o, var(variable_for(v, s))),
            m::Expression::Literal(l) => if l is Null {
                null_value(o)
            } else {
                Done {
                    out: o,
                    result: match literal_term(l) {
                        Ok(t) => Ok(g::Expr::Literal(t)),
                        Err(x) => Err(x),
                    },
                }
            },
            m::Expression::Property(base, key) => property(*base, key, s, o, depth),
            m::Expression::Or(a, b) => if non_boolean(*a) || non_boolean(*b) {
                failed(o, Refusal::Invalid("Type error: OR requires boolean operands"@))
            } else {
                match pair(*a, *b, s, o, d) {
                    Both { out, result } => match result {
                        Ok((x, y)) => done(out, or(x, y)),
                        Err(x) => failed(out, x),
                    },
                }
            },
            m::Expression::And(a, b) => if non_boolean(*a) || non_boolean(*b) {
                failed(o, Refusal::Invalid("Type error: AND requires boolean operands"@))
            } else {
                match pair(*a, *b, s, o, d) {
                    Both { out, result } => match result {
                        Ok((x, y)) => done(out, and(x, y)),
                        Err(x) => failed(out, x),
                    },
                }
            },
            m::Expression::Xor(a, b) => exclusive(*a, *b, s, o, depth),
            m::Expression::Not(a) => if non_boolean(*a) {
                failed(o, Refusal::Invalid("Type error: NOT requires a boolean operand"@))
            } else {
                match translated(*a, s, o, d) {
                    Done { out, result } => match result {
                        Ok(x) => done(out, not(x)),
                        Err(x) => failed(out, x),
                    },
                }
            },
            m::Expression::IsNull(a) => null_test(*a, false, s, o, depth),
            m::Expression::IsNotNull(a) => null_test(*a, true, s, o, depth),
            m::Expression::Comparison(a, op, b) => comparison(*a, op, *b, s, o, depth),
            m::Expression::Add(a, b) => sum(*a, *b, s, o, depth),
            m::Expression::Subtract(a, b) => difference(*a, *b, s, o, depth),
            m::Expression::Multiply(a, b) => arithmetic(Arith::Multiply, *a, *b, s, o, depth),
            m::Expression::Divide(a, b) => arithmetic(Arith::Divide, *a, *b, s, o, depth),
            m::Expression::Modulo(a, b) => arithmetic(Arith::Modulo, *a, *b, s, o, depth),
            m::Expression::Power(a, b) => power(*a, *b, s, o, depth),
            m::Expression::Negate(a) => match translated(*a, s, o, d) {
                Done { out, result } => match result {
                    Ok(x) => done(out, negative_of(x)),
                    Err(x) => failed(out, x),
                },
            },
            m::Expression::List(items) => done(o, quoted(list_text(items))),
            m::Expression::MapLit(pairs) => map_text(pairs, s, o, depth),
            m::Expression::FunctionCall { name, distinct, args } => match given_for(e, s) {
                Some(x) => done(o, x),
                None => failed(o, unsupported("function "@ + name + "()"@)),
            },
            m::Expression::LabelCheck { variable, labels } => {
                let r = label_check(variable, labels, s, o);
                done(r.0, r.1)
            },
            m::Expression::PatternPredicate(p) => match path_for(p, s) {
                Some(path) => done(o, g::Expr::Exists(Box::new(path_pattern(path)))),
                None => failed(o, no_path()),
            },
            m::Expression::ExistsSubquery { patterns, where_ } => exists_subquery(
                patterns.0,
                where_,
                s,
                o,
                depth,
            ),
            m::Expression::ExistsFullSubquery { clauses } => failed(
                o,
                Refusal::Construct(
                    "EXISTS subquery with WITH/aggregation"@,
                    "openCypher 9 §6.3.8"@,
                    "requires LQA path"@,
                ),
            ),
            m::Expression::Aggregate(a) => aggregate_value(a, s, o, depth),
            m::Expression::CaseExpression { operand, whens, else_expr } => case_value(
                operand,
                whens,
                else_expr,
                s,
                o,
                depth,
            ),
            m::Expression::QuantifierExpr { kind, variable, list, predicate } => quantifier_value(
                kind,
                variable,
                *list,
                predicate,
                s,
                o,
                depth,
            ),
            m::Expression::Subscript(list, index) => subscript(*list, *index, s, o, depth),
            m::Expression::ListSlice { list, start, end } => slice_value(*list, start, end, s, o),
            m::Expression::ListComprehension { variable, list, predicate, projection } =>
                comprehension_value(variable, *list, predicate, projection, s, o),
            m::Expression::PatternComprehension { alias, pattern, predicate, projection } =>
                pattern_comprehension(pattern, predicate, *projection, s, o, depth),
        }
    }
}

/// What an expression is translated to, with as much depth as can be counted.
#[verifier::opaque]
pub open spec fn translation(e: m::Expression, s: Scope, o: Out) -> Done {
    translated(e, s, o, usize::MAX as nat)
}

/// Two expressions, one after the other.
pub open spec fn pair(a: m::Expression, b: m::Expression, s: Scope, o: Out, depth: nat) -> Both
    decreases depth, 3int, 0int,
{
    let x = translated(a, s, o, depth);
    match x.result {
        Err(r) => Both { out: x.out, result: Err(r) },
        Ok(l) => {
            let y = translated(b, s, x.out, depth);
            match y.result {
                Err(r) => Both { out: y.out, result: Err(r) },
                Ok(k) => Both { out: y.out, result: Ok((l, k)) },
            }
        },
    }
}

/// The first `k` expressions, one after the other.
pub open spec fn several(v: Seq<m::Expression>, k: int, s: Scope, o: Out, depth: nat) -> Many
    decreases depth, 3int, k,
{
    if k <= 0 || k > v.len() {
        Many { out: o, result: Ok(seq![]) }
    } else {
        let before = several(v, k - 1, s, o, depth);
        match before.result {
            Err(r) => before,
            Ok(list) => {
                let x = translated(v[k - 1], s, before.out, depth);
                Many {
                    out: x.out,
                    result: match x.result {
                        Ok(e) => Ok(list.push(e)),
                        Err(r) => Err(r),
                    },
                }
            },
        }
    }
}

// ── Properties ───────────────────────────────────────────────────────────────

/// What the property of an expression is known to be, before the graph is asked.
pub open spec fn property(base: m::Expression, key: Seq<char>, s: Scope, o: Out, depth: nat) -> Done
    decreases depth, 1int, 0int,
{
    if depth == 0 {
        failed(o, too_deep())
    } else {
        let d = (depth - 1) as nat;
        if is_null(base) || (base matches m::Expression::Variable(v) && lists(
            texts(s.null_vars@),
            v,
        )) {
            null_value(o)
        } else if base matches m::Expression::Variable(v) && created_value(v, key, s) is Some {
            translated(created_value(base->Variable_0, key, s).unwrap(), s, o, d)
        } else {
            match resolved_map(base, s, hops_in(s)) {
                Some(pairs) => known_entry(pairs, key, s, o, d),
                None => match edge_end(base, s) {
                    Some(v) => translated(property_of(v, key), s, o, d),
                    None => match listed_variable(base, s, hops_in(s)) {
                        Some(v) => translated(property_of(v, key), s, o, d),
                        None => graph_property(base, key, s, o),
                    },
                },
            }
        }
    }
}

/// The value under a key of a map that is known.
pub open spec fn known_entry(
    pairs: Seq<(Seq<char>, m::Expression)>,
    key: Seq<char>,
    s: Scope,
    o: Out,
    depth: nat,
) -> Done
    decreases depth, 3int, 0int,
{
    match entry_value(pairs, key, 0) {
        Some(value) => if is_null(value) {
            null_value(o)
        } else {
            translated(value, s, o, depth)
        },
        None => null_value(o),
    }
}

pub open spec fn property_of(v: Seq<char>, key: Seq<char>) -> m::Expression {
    m::Expression::Property(Box::new(m::Expression::Variable(v)), key)
}

/// The property of a variable: of a map, of a duration, projected before, or
/// bound by new triples.
pub open spec fn graph_property(base: m::Expression, key: Seq<char>, s: Scope, o: Out) -> Done {
    match named_variable(base, s) {
        Err(x) => failed(o, x),
        Ok(v) => match map_entry(v, key, s) {
            Some(w) => done(o, var(w)),
            None => if is_duration(v, s) && given_for(
                m::Expression::Property(Box::new(base), key),
                s,
            ) is Some {
                done(o, given_for(m::Expression::Property(Box::new(base), key), s).unwrap())
            } else {
                match projected(v, key, s) {
                    Some(w) => done(o, var(w)),
                    None => done(
                        new_property(v, key, s, o),
                        var(fresh_name(property_hint(v, key), o.counter)),
                    ),
                }
            },
        },
    }
}

// ── Truth ────────────────────────────────────────────────────────────────────

pub open spec fn exclusive(a: m::Expression, b: m::Expression, s: Scope, o: Out, depth: nat) -> Done
    decreases depth, 1int, 0int,
{
    if depth == 0 {
        failed(o, too_deep())
    } else if non_boolean(a) || non_boolean(b) {
        failed(o, Refusal::Invalid("Type error: XOR requires boolean operands"@))
    } else {
        let d = (depth - 1) as nat;
        let first = pair(a, b, s, o, d);
        match first.result {
            Err(x) => failed(first.out, x),
            Ok((p, q)) => {
                let second = pair(a, b, s, first.out, d);
                match second.result {
                    Err(x) => failed(second.out, x),
                    Ok((p2, q2)) => done(second.out, xor(p, q, p2, q2)),
                }
            },
        }
    }
}

/// `IS NULL`, or `IS NOT NULL`: whether a variable is bound.
pub open spec fn bound_test(v: Seq<char>, present: bool) -> g::Expr {
    if present {
        g::Expr::Bound(v)
    } else {
        not(g::Expr::Bound(v))
    }
}

/// The test on two variables, where a comparison of them is tested.
pub open spec fn bound_tests(v: Seq<char>, w: Seq<char>, present: bool) -> g::Expr {
    if present {
        and(g::Expr::Bound(v), g::Expr::Bound(w))
    } else {
        or(not(g::Expr::Bound(v)), not(g::Expr::Bound(w)))
    }
}

/// The comparison whose operands are tested one by one.
pub open spec fn tested_op(op: CompOp, present: bool) -> bool {
    if present {
        op is Gt
    } else {
        op is Ge
    }
}

/// A null test: of a variable at once, of anything else by way of a variable
/// that it is bound to.
pub open spec fn null_test(a: m::Expression, present: bool, s: Scope, o: Out, depth: nat) -> Done
    decreases depth, 1int, 1int,
{
    if depth == 0 {
        failed(o, too_deep())
    } else {
        let d = (depth - 1) as nat;
        match a {
            m::Expression::Not(inner) => translated(
                if present {
                    m::Expression::IsNotNull(inner)
                } else {
                    m::Expression::IsNull(inner)
                },
                s,
                o,
                d,
            ),
            m::Expression::Comparison(l, op, r) => if tested_op(op, present) {
                let both = pair(*l, *r, s, o, d);
                match both.result {
                    Err(x) => failed(both.out, x),
                    Ok((g::Expr::Variable(v), g::Expr::Variable(w))) => done(
                        both.out,
                        bound_tests(v, w, present),
                    ),
                    Ok(_) => value_test(a, present, s, both.out, depth),
                }
            } else {
                value_test(a, present, s, o, depth)
            },
            _ => value_test(a, present, s, o, depth),
        }
    }
}

pub open spec fn test_hint(present: bool) -> Seq<char> {
    if present {
        "isnotnull"@
    } else {
        "isnull"@
    }
}

pub open spec fn value_test(a: m::Expression, present: bool, s: Scope, o: Out, depth: nat) -> Done
    decreases depth, 1int, 0int,
{
    if depth == 0 {
        failed(o, too_deep())
    } else {
        let x = translated(a, s, o, (depth - 1) as nat);
        match x.result {
            Err(r) => failed(x.out, r),
            Ok(g::Expr::Variable(v)) => done(x.out, bound_test(v, present)),
            Ok(e) => {
                let name = fresh_name(test_hint(present), x.out.counter);
                done(
                    bumped(
                        Out {
                            checks: x.out.checks.push(e),
                            targets: x.out.targets.push(name),
                            ..x.out
                        },
                    ),
                    bound_test(name, present),
                )
            },
        }
    }
}

// ── Comparisons ──────────────────────────────────────────────────────────────

/// The value that a property has been set to.
pub open spec fn set_value(e: m::Expression, s: Scope) -> Option<m::Expression> {
    match e {
        m::Expression::Property(base, key) => match *base {
            m::Expression::Variable(v) => if is_tracked(s.set_tracked_vars@, v, key, 0) {
                created_value(v, key, s)
            } else {
                None
            },
            _ => None,
        },
        _ => None,
    }
}

pub open spec fn set_variable(e: m::Expression) -> Seq<char> {
    (*e->Property_0)->Variable_0
}

pub open spec fn set_key(e: m::Expression) -> Seq<char> {
    e->Property_1
}

/// A comparison with a property that has been set: with its new value.
pub open spec fn set_comparison(
    e: m::Expression,
    value: m::Expression,
    op: CompOp,
    on_left: bool,
    s: Scope,
    o: Out,
    depth: nat,
) -> Done
    decreases depth, 1int, 0int,
{
    if depth == 0 {
        failed(o, too_deep())
    } else if is_null(value) {
        done(o, truth(true))
    } else {
        let v = set_variable(e);
        let key = set_key(e);
        let fresh = var(fresh_name(property_hint(v, key), o.counter));
        let x = translated(value, s, node_property(v, key, s, o), (depth - 1) as nat);
        match x.result {
            Err(r) => failed(x.out, r),
            Ok(y) => done(
                x.out,
                if on_left {
                    equal_or_not(op, fresh, y)
                } else {
                    equal_or_not(op, y, fresh)
                },
            ),
        }
    }
}

pub open spec fn is_equality(op: CompOp) -> bool {
    op is Eq || op is Ne
}

/// A comparison of comparisons, as `a < b < c` is read.
pub open spec fn is_chain(op: CompOp, rhs: m::Expression) -> bool {
    is_order(op) && (rhs matches m::Expression::Comparison(_, op2, _) && is_order(op2))
}

pub open spec fn chain(
    lhs: m::Expression,
    op: CompOp,
    rhs: m::Expression,
    s: Scope,
    o: Out,
    depth: nat,
) -> Done
    decreases depth, 1int, 0int,
{
    if depth == 0 {
        failed(o, too_deep())
    } else {
        let mid = rhs->Comparison_0;
        let both = pair(
            m::Expression::Comparison(Box::new(lhs), op, mid),
            m::Expression::Comparison(mid, rhs->Comparison_1, rhs->Comparison_2),
            s,
            o,
            (depth - 1) as nat,
        );
        match both.result {
            Err(x) => failed(both.out, x),
            Ok((p, q)) => done(both.out, and(p, q)),
        }
    }
}

/// Whether both sides are relationships.
pub open spec fn are_edges(lhs: m::Expression, rhs: m::Expression, s: Scope) -> bool {
    match (lhs, rhs) {
        (m::Expression::Variable(a), m::Expression::Variable(b)) => s.edge_map@.contains_key(a)
            && s.edge_map@.contains_key(b),
        _ => false,
    }
}

pub open spec fn edge_comparison(
    lhs: m::Expression,
    op: CompOp,
    rhs: m::Expression,
    s: Scope,
) -> g::Expr {
    let same = same_edge(s.edge_map@[lhs->Variable_0], s.edge_map@[rhs->Variable_0]);
    if op is Ne {
        not(same)
    } else {
        same
    }
}

/// A truth value that is known.
pub open spec fn known_truth(t: Option<bool>, o: Out) -> Done {
    match t {
        Some(b) => done(o, truth(b)),
        None => null_value(o),
    }
}

/// The sort key of a list or a map, where the other side has one.
pub open spec fn keyed_comparison(
    lhs: m::Expression,
    op: CompOp,
    rhs: m::Expression,
    s: Scope,
) -> Option<g::Expr> {
    if !is_order(op) {
        None
    } else {
        match (lhs, rhs) {
            (m::Expression::Variable(v), _) => if (rhs is List || rhs is MapLit)
                && s.list_sort_key_vars@.contains_key(v) {
                Some(
                    in_order(
                        op,
                        var(s.list_sort_key_vars@[v]),
                        quoted(sort_key(rhs)),
                    ),
                )
            } else {
                None
            },
            (_, m::Expression::Variable(v)) => if (lhs is List || lhs is MapLit)
                && s.list_sort_key_vars@.contains_key(v) {
                Some(
                    in_order(
                        op,
                        quoted(sort_key(lhs)),
                        var(s.list_sort_key_vars@[v]),
                    ),
                )
            } else {
                None
            },
            _ => None,
        }
    }
}

/// A comparison. What can be told before the query runs is told.
pub open spec fn comparison(
    lhs: m::Expression,
    op: CompOp,
    rhs: m::Expression,
    s: Scope,
    o: Out,
    depth: nat,
) -> Done
    decreases depth, 1int, 2int,
{
    if s.skip_write_clauses && is_equality(op) && set_value(lhs, s) is Some {
        set_comparison(lhs, set_value(lhs, s).unwrap(), op, true, s, o, depth)
    } else if s.skip_write_clauses && is_equality(op) && set_value(rhs, s) is Some {
        set_comparison(rhs, set_value(rhs, s).unwrap(), op, false, s, o, depth)
    } else if is_chain(op, rhs) {
        chain(lhs, op, rhs, s, o, depth)
    } else if is_equality(op) && are_edges(lhs, rhs, s) {
        done(o, edge_comparison(lhs, op, rhs, s))
    } else if op is In {
        membership(lhs, rhs, s, o, depth)
    } else if is_equality(op) && literal_equal(lhs, rhs) is Some {
        known_truth(
            match literal_equal(lhs, rhs).unwrap() {
                Some(b) => Some(b == (op is Eq)),
                None => None,
            },
            o,
        )
    } else {
        match keyed_comparison(lhs, op, rhs, s) {
            Some(e) => done(o, e),
            None => plain_comparison(lhs, op, rhs, s, o, depth),
        }
    }
}

/// A comparison of two translated sides.
pub open spec fn plain_comparison(
    lhs: m::Expression,
    op: CompOp,
    rhs: m::Expression,
    s: Scope,
    o: Out,
    depth: nat,
) -> Done
    decreases depth, 1int, 0int,
{
    if depth == 0 {
        failed(o, too_deep())
    } else {
        let both = pair(lhs, rhs, s, o, (depth - 1) as nat);
        match both.result {
            Err(x) => failed(both.out, x),
            Ok((l, r)) => if is_string_test(op) {
                done(
                    bumped(both.out),
                    string_test(op, l, r, fresh_name("null"@, both.out.counter)),
                )
            } else {
                done(both.out, related(op, l, r))
            },
        }
    }
}

// ── Membership ───────────────────────────────────────────────────────────────

/// Whether a constant is among the elements from the place on; nothing where it
/// cannot be told of one that comes before it.
pub open spec fn among(
    e: m::Expression,
    items: Seq<m::Expression>,
    i: int,
    null: bool,
) -> Option<Option<bool>>
    decreases items.len() - i,
{
    if i < 0 || i >= items.len() {
        Some(
            if null {
                None
            } else {
                Some(false)
            },
        )
    } else {
        match literal_equal(e, items[i]) {
            Some(Some(true)) => Some(Some(true)),
            Some(Some(false)) => among(e, items, i + 1, null),
            Some(None) => among(e, items, i + 1, true),
            None => None,
        }
    }
}

/// The keys of a map, for `keys(map)`.
pub open spec fn map_keys(arg: m::Expression, s: Scope) -> Option<Seq<Seq<char>>> {
    match arg {
        m::Expression::MapLit(pairs) => Some(Seq::new(pairs.len(), |i: int| pairs[i].0)),
        m::Expression::Variable(v) => if s.map_vars@.contains_key(v) {
            Some(Seq::new(s.map_vars@[v].len(), |i: int| s.map_vars@[v][i].0))
        } else {
            None
        },
        _ => None,
    }
}

pub open spec fn quoted_all(t: Seq<Seq<char>>) -> Seq<g::Expr> {
    Seq::new(t.len(), |i: int| quoted(t[i]))
}

/// Whether a key is asked for among the keys of a node.
pub open spec fn is_node_key(lhs: m::Expression, arg: m::Expression, s: Scope) -> bool {
    match (lhs, arg) {
        (m::Expression::Literal(l), m::Expression::Variable(v)) => l is String && lists(
            texts(s.node_vars@),
            v,
        ),
        _ => false,
    }
}

/// `lhs IN rhs`
pub open spec fn membership(
    lhs: m::Expression,
    rhs: m::Expression,
    s: Scope,
    o: Out,
    depth: nat,
) -> Done
    decreases depth, 1int, 1int,
{
    if depth == 0 {
        failed(o, too_deep())
    } else if non_list(rhs) {
        failed(
            o,
            Refusal::Invalid("Type error: IN requires a list operand on the right-hand side"@),
        )
    } else if rhs is List && among(lhs, rhs->List_0, 0, false) is Some {
        known_truth(among(lhs, rhs->List_0, 0, false).unwrap(), o)
    } else {
        match resolved_items(rhs, s, hops_in(s)) {
            Some(items) => member_of_items(lhs, items, s, o, depth),
            None => match rhs {
                m::Expression::FunctionCall { name, distinct, args } => if same_ignoring_case(
                    name,
                    "keys"@,
                ) && args.len() > 0 {
                    if is_node_key(lhs, args[0], s) {
                        done(
                            bumped(o),
                            triple_exists(
                                triple(
                                    g::Term::Variable(args[0]->Variable_0),
                                    g::Predicate::NamedNode(
                                        s.base_iri@ + lhs->Literal_0->String_0,
                                    ),
                                    g::Term::Variable(fresh_name("__kv"@, o.counter)),
                                ),
                            ),
                        )
                    } else {
                        match map_keys(args[0], s) {
                            Some(keys) => {
                                let x = translated(lhs, s, o, (depth - 1) as nat);
                                match x.result {
                                    Err(r) => failed(x.out, r),
                                    Ok(l) => done(
                                        x.out,
                                        g::Expr::In(Box::new(l), quoted_all(keys)),
                                    ),
                                }
                            },
                            None => plain_comparison(lhs, CompOp::In, rhs, s, o, depth),
                        }
                    }
                } else {
                    plain_comparison(lhs, CompOp::In, rhs, s, o, depth)
                },
                _ => plain_comparison(lhs, CompOp::In, rhs, s, o, depth),
            },
        }
    }
}

pub open spec fn member_of_items(
    lhs: m::Expression,
    items: Seq<m::Expression>,
    s: Scope,
    o: Out,
    depth: nat,
) -> Done
    decreases depth, 1int, 0int,
{
    if depth == 0 {
        failed(o, too_deep())
    } else {
        let d = (depth - 1) as nat;
        let x = translated(lhs, s, o, d);
        match x.result {
            Err(r) => failed(x.out, r),
            Ok(l) => {
                let all = several(items, items.len() as int, s, x.out, d);
                match all.result {
                    Err(r) => failed(all.out, r),
                    Ok(v) => done(all.out, g::Expr::In(Box::new(l), v)),
                }
            },
        }
    }
}

// ── Arithmetic ───────────────────────────────────────────────────────────────

pub open spec fn arithmetic(
    op: Arith,
    a: m::Expression,
    b: m::Expression,
    s: Scope,
    o: Out,
    depth: nat,
) -> Done
    decreases depth, 1int, 0int,
{
    if depth == 0 {
        failed(o, too_deep())
    } else {
        let both = pair(a, b, s, o, (depth - 1) as nat);
        match both.result {
            Err(x) => failed(both.out, x),
            Ok((x, y)) => done(both.out, arith(op, x, y)),
        }
    }
}

/// The list that the sum of a list and a list or a value is.
pub open spec fn list_sum(a: m::Expression, b: m::Expression, s: Scope) -> Option<
    Seq<m::Expression>,
> {
    let n = hops_in(s);
    match (resolved_items(a, s, n), resolved_items(b, s, n)) {
        (Some(x), Some(y)) => Some(x + y),
        (Some(x), None) => match appended(b, s, n) {
            Some(v) => Some(x.push(v)),
            None => None,
        },
        (None, Some(y)) => match prepended(a) {
            Some(v) => Some(seq![v] + y),
            None => None,
        },
        _ => None,
    }
}

/// A sum or a difference with a date or a time, once its operands are translated.
pub open spec fn temporal_arithmetic(e: m::Expression, both: Both, s: Scope) -> Done {
    match both.result {
        Err(x) => failed(both.out, x),
        Ok(_) => match given_for(e, s) {
            Some(x) => done(both.out, x),
            None => failed(both.out, unsupported("temporal arithmetic"@)),
        },
    }
}

pub open spec fn sum(a: m::Expression, b: m::Expression, s: Scope, o: Out, depth: nat) -> Done
    decreases depth, 1int, 0int,
{
    if depth == 0 {
        failed(o, too_deep())
    } else {
        match list_sum(a, b, s) {
            Some(items) => done(o, quoted(list_text(items))),
            None => {
                let both = pair(a, b, s, o, (depth - 1) as nat);
                if temporal_operand(a, s) is Some {
                    temporal_arithmetic(
                        m::Expression::Add(Box::new(a), Box::new(b)),
                        both,
                        s,
                    )
                } else {
                    match both.result {
                        Err(x) => failed(both.out, x),
                        Ok((x, y)) => done(
                            both.out,
                            if produces_string(a) || produces_string(b) {
                                concatenated(x, y)
                            } else if a is Property && b is Property {
                                list_or_sum(x, y)
                            } else {
                                arith(Arith::Add, x, y)
                            },
                        ),
                    }
                }
            },
        }
    }
}

pub open spec fn difference(
    a: m::Expression,
    b: m::Expression,
    s: Scope,
    o: Out,
    depth: nat,
) -> Done
    decreases depth, 1int, 0int,
{
    if depth == 0 {
        failed(o, too_deep())
    } else {
        let both = pair(a, b, s, o, (depth - 1) as nat);
        if temporal_operand(a, s) is Some {
            temporal_arithmetic(m::Expression::Subtract(Box::new(a), Box::new(b)), both, s)
        } else {
            match both.result {
                Err(x) => failed(both.out, x),
                Ok((x, y)) => done(both.out, arith(Arith::Subtract, x, y)),
            }
        }
    }
}

/// A power: known, null, or refused.
pub open spec fn power(a: m::Expression, b: m::Expression, s: Scope, o: Out, depth: nat) -> Done
    decreases depth, 1int, 0int,
{
    if depth == 0 {
        failed(o, too_deep())
    } else {
        let both = pair(a, b, s, o, (depth - 1) as nat);
        match both.result {
            Err(x) => failed(both.out, x),
            Ok(_) => match given_for(m::Expression::Power(Box::new(a), Box::new(b)), s) {
                Some(x) => done(both.out, x),
                None => if has_null_operand(a) || has_null_operand(b) {
                    null_value(both.out)
                } else {
                    failed(
                        both.out,
                        Refusal::Construct(
                            "^ (exponentiation) with runtime operands"@,
                            "openCypher 9 §6.3.1"@,
                            "SPARQL 1.1 has no POW/EXP built-in; only literal-folded exponentiation is supported"@,
                        ),
                    )
                },
            },
        }
    }
}

// ── Maps ─────────────────────────────────────────────────────────────────────

/// The text of a value of a map, which is translated where it is no literal.
pub open spec fn map_value(e: m::Expression, s: Scope, o: Out, depth: nat) -> Done
    decreases depth, 1int, 0int,
{
    if depth == 0 {
        failed(o, too_deep())
    } else {
        match e {
            m::Expression::Literal(l) => done(o, quoted(scalar_text(l))),
            _ => {
                let x = translated(e, s, o, (depth - 1) as nat);
                match x.result {
                    Err(r) => failed(x.out, r),
                    Ok(v) => done(
                        x.out,
                        g::Expr::Coalesce(seq![call1(Function::Str, v), quoted(""@)]),
                    ),
                }
            },
        }
    }
}

/// The pieces of the text of the first `k` entries of a map.
pub open spec fn map_pieces(
    pairs: Seq<(Seq<char>, m::Expression)>,
    k: int,
    s: Scope,
    o: Out,
    depth: nat,
) -> Many
    decreases depth, 1int, k + 1,
{
    if k <= 0 || k > pairs.len() {
        Many { out: o, result: Ok(seq![quoted("{"@)]) }
    } else {
        let before = map_pieces(pairs, k - 1, s, o, depth);
        match before.result {
            Err(r) => before,
            Ok(list) => {
                let start = if k > 1 {
                    list.push(quoted(", "@))
                } else {
                    list
                };
                let x = map_value(pairs[k - 1].1, s, before.out, depth);
                Many {
                    out: x.out,
                    result: match x.result {
                        Ok(e) => Ok(start.push(quoted(pairs[k - 1].0 + ": "@)).push(e)),
                        Err(r) => Err(r),
                    },
                }
            },
        }
    }
}

pub open spec fn map_text(
    pairs: Seq<(Seq<char>, m::Expression)>,
    s: Scope,
    o: Out,
    depth: nat,
) -> Done
    decreases depth, 1int, pairs.len() + 2,
{
    let all = map_pieces(pairs, pairs.len() as int, s, o, depth);
    match all.result {
        Err(x) => failed(all.out, x),
        Ok(v) => done(all.out, g::Expr::Call(Function::Concat, v.push(quoted("}"@)))),
    }
}

// ── Subqueries ───────────────────────────────────────────────────────────────

pub open spec fn no_path() -> Refusal {
    unsupported("path pattern"@)
}

/// The first `k` paths as one.
pub open spec fn paths_for(p: Seq<m::Pattern>, k: int, s: Scope) -> Option<Path>
    decreases k,
{
    if k <= 0 || k > p.len() {
        Some(Path { triples: seq![], paths: seq![] })
    } else {
        match (paths_for(p, k - 1, s), path_for(p[k - 1], s)) {
            (Some(a), Some(b)) => Some(
                Path { triples: a.triples + b.triples, paths: a.paths + b.paths },
            ),
            _ => None,
        }
    }
}

pub open spec fn exists_subquery(
    p: Seq<m::Pattern>,
    filter: Option<Box<m::Expression>>,
    s: Scope,
    o: Out,
    depth: nat,
) -> Done
    decreases depth, 1int, 0int,
{
    if depth == 0 {
        failed(o, too_deep())
    } else {
        match paths_for(p, p.len() as int, s) {
            None => failed(o, no_path()),
            Some(path) => match filter {
                None => done(o, g::Expr::Exists(Box::new(path_pattern(path)))),
                Some(w) => {
                    let x = translated(*w, s, o, (depth - 1) as nat);
                    match x.result {
                        Err(r) => failed(x.out, r),
                        Ok(f) => done(
                            x.out,
                            g::Expr::Exists(
                                Box::new(
                                    g::GraphPattern::Filter {
                                        expr: f,
                                        inner: Box::new(path_pattern(path)),
                                    },
                                ),
                            ),
                        ),
                    }
                },
            },
        }
    }
}

// ── Aggregates ───────────────────────────────────────────────────────────────

pub open spec fn aggregate_value(a: m::AggregateExpr, s: Scope, o: Out, depth: nat) -> Done
    decreases depth, 1int, 1int,
{
    match aggregate_for(a, s) {
        Some(v) => done(o, var(v)),
        None => {
            let name = fresh_name("agg"@, o.counter);
            let x = aggregated(a, s, bumped(o), depth);
            match x.result {
                Err(r) => failed(x.out, r),
                Ok(g) => done(
                    Out {
                        aggs: x.out.aggs.push(
                            g::NamedAggregate { variable: name, aggregate: g },
                        ),
                        ..x.out
                    },
                    var(name),
                ),
            }
        },
    }
}

/// An aggregate function over an expression.
pub open spec fn aggregate_over(
    f: g::AggregateFunction,
    distinct: bool,
    e: m::Expression,
    s: Scope,
    o: Out,
    depth: nat,
) -> Aggregated
    decreases depth, 0int, 0int,
{
    if depth == 0 {
        Aggregated { out: o, result: Err(too_deep()) }
    } else {
        let x = translated(e, s, o, (depth - 1) as nat);
        Aggregated {
            out: x.out,
            result: match x.result {
                Ok(v) => Ok(g::Aggregate::FunctionCall { name: f, expr: v, distinct }),
                Err(r) => Err(r),
            },
        }
    }
}

/// An aggregate: a path is counted by its rows.
pub open spec fn aggregated(a: m::AggregateExpr, s: Scope, o: Out, depth: nat) -> Aggregated
    decreases depth, 1int, 0int,
{
    match a {
        m::AggregateExpr::Count { distinct, expr } => match expr {
            None => Aggregated {
                out: o,
                result: Ok(g::Aggregate::CountSolutions { distinct }),
            },
            Some(e) => if *e matches m::Expression::Variable(v) && s.path_hops@.contains_key(v) {
                Aggregated { out: o, result: Ok(g::Aggregate::CountSolutions { distinct }) }
            } else {
                aggregate_over(g::AggregateFunction::Count, distinct, *e, s, o, depth)
            },
        },
        m::AggregateExpr::Sum { distinct, expr } => aggregate_over(
            g::AggregateFunction::Sum,
            distinct,
            *expr,
            s,
            o,
            depth,
        ),
        m::AggregateExpr::Avg { distinct, expr } => aggregate_over(
            g::AggregateFunction::Avg,
            distinct,
            *expr,
            s,
            o,
            depth,
        ),
        m::AggregateExpr::Min { distinct, expr } => aggregate_over(
            g::AggregateFunction::Min,
            distinct,
            *expr,
            s,
            o,
            depth,
        ),
        m::AggregateExpr::Max { distinct, expr } => aggregate_over(
            g::AggregateFunction::Max,
            distinct,
            *expr,
            s,
            o,
            depth,
        ),
        m::AggregateExpr::Collect { distinct, expr } => aggregate_over(
            g::AggregateFunction::GroupConcat { separator: None },
            distinct,
            *expr,
            s,
            o,
            depth,
        ),
    }
}

// ── CASE ─────────────────────────────────────────────────────────────────────

/// The condition of a branch: the predicate, or that the operand is equal.
pub open spec fn branch_condition(operand: Option<g::Expr>, e: g::Expr) -> g::Expr {
    match operand {
        Some(op) => equal(op, e),
        None => e,
    }
}

/// The first `k` branches around what follows them; the last is translated first.
pub open spec fn branches(
    whens: Seq<(m::Expression, m::Expression)>,
    k: int,
    operand: Option<g::Expr>,
    rest: g::Expr,
    s: Scope,
    o: Out,
    depth: nat,
) -> Done
    decreases depth, 3int, k,
{
    if k <= 0 || k > whens.len() {
        done(o, rest)
    } else {
        let both = pair_of(whens[k - 1], s, o, depth);
        match both.result {
            Err(x) => failed(both.out, x),
            Ok((c, t)) => branches(
                whens,
                k - 1,
                operand,
                crate::translator::expr::parts::cond(branch_condition(operand, c), t, rest),
                s,
                both.out,
                depth,
            ),
        }
    }
}

pub open spec fn pair_of(p: (m::Expression, m::Expression), s: Scope, o: Out, depth: nat) -> Both
    decreases depth, 3int, 0int,
{
    let x = translated(p.0, s, o, depth);
    match x.result {
        Err(r) => Both { out: x.out, result: Err(r) },
        Ok(l) => {
            let y = translated(p.1, s, x.out, depth);
            match y.result {
                Err(r) => Both { out: y.out, result: Err(r) },
                Ok(k) => Both { out: y.out, result: Ok((l, k)) },
            }
        },
    }
}

pub open spec fn case_value(
    operand: Option<Box<m::Expression>>,
    whens: Seq<(m::Expression, m::Expression)>,
    otherwise: Option<Box<m::Expression>>,
    s: Scope,
    o: Out,
    depth: nat,
) -> Done
    decreases depth, 1int, 1int,
{
    if depth == 0 {
        failed(o, too_deep())
    } else {
        let d = (depth - 1) as nat;
        match operand {
            Some(e) => {
                let x = translated(*e, s, o, d);
                match x.result {
                    Err(r) => failed(x.out, r),
                    Ok(op) => case_rest(Some(op), whens, otherwise, s, x.out, depth),
                }
            },
            None => case_rest(None, whens, otherwise, s, o, depth),
        }
    }
}

pub open spec fn case_rest(
    operand: Option<g::Expr>,
    whens: Seq<(m::Expression, m::Expression)>,
    otherwise: Option<Box<m::Expression>>,
    s: Scope,
    o: Out,
    depth: nat,
) -> Done
    decreases depth, 1int, 0int,
{
    if depth == 0 {
        failed(o, too_deep())
    } else {
        let d = (depth - 1) as nat;
        let null = null_value(o);
        let last = match otherwise {
            Some(e) => translated(*e, s, null.out, d),
            None => null,
        };
        match last.result {
            Err(r) => failed(last.out, r),
            Ok(e) => branches(whens, whens.len() as int, operand, e, s, last.out, d),
        }
    }
}

// ── Quantifiers ──────────────────────────────────────────────────────────────

pub open spec fn is_own_variable(p: Option<Box<m::Expression>>, variable: Seq<char>) -> bool {
    p matches Some(e) && *e == m::Expression::Variable(variable)
}

/// A quantifier over the elements themselves, of a list that is text.
pub open spec fn truths_in(kind: QuantifierKind, list: g::Expr) -> g::Expr {
    match kind {
        QuantifierKind::All => not(call2(Function::Contains, list, quoted("false"@))),
        QuantifierKind::Any => call2(Function::Contains, list, quoted("true"@)),
        _ => not(call2(Function::Contains, list, quoted("true"@))),
    }
}

pub open spec fn quantifier_value(
    kind: QuantifierKind,
    variable: Seq<char>,
    list: m::Expression,
    predicate: Option<Box<m::Expression>>,
    s: Scope,
    o: Out,
    depth: nat,
) -> Done
    decreases depth, 1int, 2int,
{
    if depth == 0 {
        failed(o, too_deep())
    } else if is_own_variable(predicate, variable) {
        let x = translated(list, s, o, (depth - 1) as nat);
        match x.result {
            Err(r) => failed(x.out, r),
            Ok(l) => if kind is Single {
                quantifier_over_list(kind, variable, list, predicate, s, x.out, depth)
            } else {
                done(x.out, truths_in(kind, l))
            },
        }
    } else {
        quantifier_over_list(kind, variable, list, predicate, s, o, depth)
    }
}

pub open spec fn quantifier_over_list(
    kind: QuantifierKind,
    variable: Seq<char>,
    list: m::Expression,
    predicate: Option<Box<m::Expression>>,
    s: Scope,
    o: Out,
    depth: nat,
) -> Done
    decreases depth, 1int, 1int,
{
    match resolved_list(list, s, hops_in(s)) {
        Some(items) => quantifier_over_items(kind, variable, items, predicate, s, o, depth),
        None => failed(
            o,
            unsupported(
                "quantifier expression `"@ + kind_text(kind)
                    + "(x IN ...)` on runtime collection (Phase C)"@,
            ),
        ),
    }
}

/// The predicate for an element; the element itself where there is none.
pub open spec fn instance(
    predicate: Option<Box<m::Expression>>,
    variable: Seq<char>,
    item: m::Expression,
) -> m::Expression {
    match predicate {
        Some(p) => substituted(*p, variable, item),
        None => item,
    }
}

pub open spec fn instances(
    predicate: Option<Box<m::Expression>>,
    variable: Seq<char>,
    items: Seq<m::Expression>,
) -> Seq<m::Expression> {
    Seq::new(items.len(), |i: int| instance(predicate, variable, items[i]))
}

/// Whether the elements are strings and booleans only, and the predicate does
/// arithmetic on them.
pub open spec fn is_ill_typed(
    predicate: Option<Box<m::Expression>>,
    variable: Seq<char>,
    items: Seq<m::Expression>,
) -> bool {
    &&& items.len() > 0
    &&& forall|i: int|
        0 <= i < items.len() ==> ((#[trigger] items[i]) matches m::Expression::Literal(l) && (
        l is String || l is Boolean))
    &&& predicate matches Some(p) && uses_arithmetic(*p, variable)
}

/// How many of the first `k` truth values are true, and how many are null;
/// nothing where one is not known.
pub open spec fn truth_counts(v: Seq<m::Expression>, k: int) -> Option<(int, int)>
    decreases k,
{
    if k <= 0 || k > v.len() {
        Some((0, 0))
    } else {
        match (truth_counts(v, k - 1), const_bool(v[k - 1])) {
            (Some((t, n)), Some(Some(b))) => if b {
                Some((t + 1, n))
            } else {
                Some((t, n))
            },
            (Some((t, n)), Some(None)) => Some((t, n + 1)),
            _ => None,
        }
    }
}

/// `single(…)` over the conditions of the elements.
pub open spec fn single_value(v: Seq<m::Expression>, conds: Seq<g::Expr>, o: Out) -> Done {
    match truth_counts(v, v.len() as int) {
        Some((t, n)) => if t > 1 {
            done(o, truth(false))
        } else if n == 0 {
            done(o, truth(t == 1))
        } else {
            null_value(o)
        },
        None => done(o, equal(sum_of(conds, conds.len() as int), integer(1))),
    }
}

pub open spec fn quantifier_over_items(
    kind: QuantifierKind,
    variable: Seq<char>,
    items: Seq<m::Expression>,
    predicate: Option<Box<m::Expression>>,
    s: Scope,
    o: Out,
    depth: nat,
) -> Done
    decreases depth, 1int, 0int,
{
    if depth == 0 {
        failed(o, too_deep())
    } else if is_ill_typed(predicate, variable, items) {
        failed(
            o,
            Refusal::Invalid(
                "InvalidArgumentType: arithmetic operator applied to non-numeric value"@,
            ),
        )
    } else {
        let v = instances(predicate, variable, items);
        let all = several(v, v.len() as int, s, o, (depth - 1) as nat);
        match all.result {
            Err(x) => failed(all.out, x),
            Ok(c) => if c.len() == 0 {
                done(all.out, truth(kind is All || kind is NoneOf))
            } else {
                match kind {
                    QuantifierKind::All => done(all.out, all_of(c, c.len() as int)),
                    QuantifierKind::Any => done(all.out, any_of(c, c.len() as int)),
                    QuantifierKind::NoneOf => done(all.out, not(any_of(c, c.len() as int))),
                    QuantifierKind::Single => single_value(v, c, all.out),
                }
            },
        }
    }
}

// ── Lists ────────────────────────────────────────────────────────────────────

/// Whether a value is null, or a variable that is.
pub open spec fn is_nothing(e: m::Expression, s: Scope) -> bool {
    is_null(e) || (e matches m::Expression::Variable(v) && lists(texts(s.null_vars@), v))
}

/// `list[index]`
pub open spec fn subscript(
    list: m::Expression,
    index: m::Expression,
    s: Scope,
    o: Out,
    depth: nat,
) -> Done
    decreases depth, 1int, 0int,
{
    if depth == 0 {
        failed(o, too_deep())
    } else {
        let d = (depth - 1) as nat;
        if is_nothing(list, s) || is_nothing(index, s) {
            null_value(o)
        } else {
            match constant_text(index) {
                Some(key) => translated(
                    m::Expression::Property(Box::new(list), key),
                    s,
                    o,
                    d,
                ),
                None => match literal_int(index) {
                    Some(n) => match resolved_list(list, s, hops_in(s)) {
                        Some(items) => match place(n, items.len() as int) {
                            Some(i) => translated(items[i], s, o, d),
                            None => null_value(o),
                        },
                        None => failed(
                            o,
                            unsupported("subscript access on non-literal list (Phase C)"@),
                        ),
                    },
                    None => failed(
                        o,
                        unsupported("dynamic subscript access with non-literal key (Phase C)"@),
                    ),
                },
            }
        }
    }
}

/// `list[start..end]`
pub open spec fn slice_value(
    list: m::Expression,
    start: Option<Box<m::Expression>>,
    end: Option<Box<m::Expression>>,
    s: Scope,
    o: Out,
) -> Done {
    match resolved_list(list, s, hops_in(s)) {
        Some(items) => match slice_of(start, end, items.len() as int) {
            Slice::Null => null_value(o),
            Slice::NoStart => failed(
                o,
                unsupported("list slice with non-literal start (Phase C)"@),
            ),
            Slice::NoEnd => failed(o, unsupported("list slice with non-literal end (Phase C)"@)),
            Slice::Range(from, to) => done(o, quoted(list_text(cut_out(items, from, to)))),
        },
        None => failed(o, unsupported("list slice expr[n..m] (Phase C)"@)),
    }
}

/// The texts of the first `k` elements that pass the filter, projected; nothing
/// where one is not known.
pub open spec fn comprehended(
    items: Seq<m::Expression>,
    k: int,
    variable: Seq<char>,
    predicate: Option<Box<m::Expression>>,
    projection: Option<Box<m::Expression>>,
) -> Option<Seq<Seq<char>>>
    decreases k,
{
    if k <= 0 || k > items.len() {
        Some(seq![])
    } else {
        match comprehended(items, k - 1, variable, predicate, projection) {
            None => None,
            Some(before) => match passes(predicate, variable, items[k - 1]) {
                None => None,
                Some(pass) => if !pass {
                    Some(before)
                } else {
                    match projected_text(projection, variable, items[k - 1]) {
                        Some(t) => Some(before.push(t)),
                        None => None,
                    }
                },
            },
        }
    }
}

/// Whether an element passes the filter.
pub open spec fn passes(
    predicate: Option<Box<m::Expression>>,
    variable: Seq<char>,
    item: m::Expression,
) -> Option<bool> {
    match predicate {
        None => Some(true),
        Some(p) => match const_bool(substituted(*p, variable, item)) {
            Some(t) => Some(t == Some(true)),
            None => None,
        },
    }
}

/// The text of the projection of an element.
pub open spec fn projected_text(
    projection: Option<Box<m::Expression>>,
    variable: Seq<char>,
    item: m::Expression,
) -> Option<Seq<char>> {
    match projection {
        None => Some(element_text(item)),
        Some(p) => {
            let t = element_text(substituted(*p, variable, item));
            if t == "?"@ {
                None
            } else {
                Some(t)
            }
        },
    }
}

/// The list that a comprehension goes through.
pub open spec fn comprehension_source(list: m::Expression, s: Scope) -> Option<Seq<m::Expression>> {
    match list {
        m::Expression::List(items) => Some(items),
        m::Expression::Variable(v) => bound_list(v, s),
        _ => None,
    }
}

pub open spec fn comprehension_value(
    variable: Seq<char>,
    list: m::Expression,
    predicate: Option<Box<m::Expression>>,
    projection: Option<Box<m::Expression>>,
    s: Scope,
    o: Out,
) -> Done {
    match comprehension_source(list, s) {
        Some(items) => match comprehended(
            items,
            items.len() as int,
            variable,
            predicate,
            projection,
        ) {
            Some(t) => done(o, quoted("["@ + join_spec(t, ", "@) + "]"@)),
            None => failed(o, no_comprehension()),
        },
        None => failed(o, no_comprehension()),
    }
}

pub open spec fn no_comprehension() -> Refusal {
    unsupported("list comprehension [x IN list WHERE pred | expr] (Phase C)"@)
}

// ── Pattern comprehensions ───────────────────────────────────────────────────

/// The variables of the nodes among the first `k` elements that are bound outside.
pub open spec fn anchors(elements: Seq<m::PatternElement>, k: int, s: Scope) -> Seq<Seq<char>>
    decreases k,
{
    if k <= 0 || k > elements.len() {
        seq![]
    } else {
        let before = anchors(elements, k - 1, s);
        match elements[k - 1] {
            m::PatternElement::Node(n) => match n.variable {
                Some(v) => if lists(texts(s.node_vars@), v) || s.edge_map@.contains_key(v) {
                    before.push(v)
                } else {
                    before
                },
                None => before,
            },
            _ => before,
        }
    }
}

/// A pattern with each of the first `k` triples as an optional part.
pub open spec fn with_optional(p: g::GraphPattern, t: Seq<g::TriplePattern>, k: int) -> g::GraphPattern
    decreases k,
{
    if k <= 0 || k > t.len() {
        p
    } else {
        g::GraphPattern::LeftJoin {
            left: Box::new(with_optional(p, t, k - 1)),
            right: Box::new(g::GraphPattern::Bgp { patterns: seq![t[k - 1]] }),
            expression: None,
        }
    }
}

/// A pattern with a filter, whose triples are optional parts.
pub open spec fn filtered(
    p: g::GraphPattern,
    filter: g::Expr,
    t: Seq<g::TriplePattern>,
) -> g::GraphPattern {
    g::GraphPattern::Filter {
        expr: filter,
        inner: Box::new(with_optional(p, t, t.len() as int)),
    }
}

/// A pattern with the triples as one optional part.
pub open spec fn with_optional_group(p: g::GraphPattern, t: Seq<g::TriplePattern>) -> g::GraphPattern {
    if t.len() == 0 {
        p
    } else {
        g::GraphPattern::LeftJoin {
            left: Box::new(p),
            right: Box::new(g::GraphPattern::Bgp { patterns: t }),
            expression: None,
        }
    }
}

/// The text of a projected value within a list; `null` where there is none.
pub open spec fn listed_text(v: Seq<char>) -> g::Expr {
    let e = var(v);
    crate::translator::expr::parts::cond(
        g::Expr::Bound(v),
        crate::translator::expr::parts::cond(
            and(
                call1(Function::IsLiteral, e),
                or(
                    or(
                        crate::translator::expr::parts::has_datatype(
                            e,
                            crate::lqa::write::literals::XSD_INTEGER@,
                        ),
                        crate::translator::expr::parts::has_datatype(
                            e,
                            crate::lqa::write::literals::XSD_DOUBLE@,
                        ),
                    ),
                    crate::translator::expr::parts::has_datatype(
                        e,
                        crate::lqa::write::literals::XSD_BOOLEAN@,
                    ),
                ),
            ),
            call1(Function::Str, e),
            crate::translator::expr::parts::call3(
                Function::Concat,
                quoted("'"@),
                call1(Function::Str, e),
                quoted("'"@),
            ),
        ),
        quoted("null"@),
    )
}

/// The subquery that collects the projected values.
pub open spec fn collecting(
    p: g::GraphPattern,
    value: g::Expr,
    bound: Seq<char>,
    collected: Seq<char>,
    anchors: Seq<Seq<char>>,
) -> g::GraphPattern {
    g::GraphPattern::Group {
        inner: Box::new(
            g::GraphPattern::Extend {
                inner: Box::new(p),
                variable: bound,
                expression: value,
            },
        ),
        variables: anchors,
        aggregates: seq![
            g::NamedAggregate {
                variable: collected,
                aggregate: g::Aggregate::FunctionCall {
                    name: g::AggregateFunction::GroupConcat { separator: Some(", "@) },
                    expr: listed_text(bound),
                    distinct: false,
                },
            },
        ],
    }
}

/// The collected values between brackets.
pub open spec fn collected_list(v: Seq<char>) -> g::Expr {
    crate::translator::expr::parts::call3(
        Function::Concat,
        quoted("["@),
        g::Expr::Coalesce(seq![var(v), quoted(""@)]),
        quoted("]"@),
    )
}

/// The pattern of a comprehension with its filter. The triples of the filter are
/// not left for the pattern outside.
pub open spec fn comprehension_pattern(
    path: Path,
    predicate: Option<Box<m::Expression>>,
    s: Scope,
    o: Out,
    depth: nat,
) -> (Out, Result<g::GraphPattern, Refusal>)
    decreases depth, 0int, 0int,
{
    if depth == 0 {
        (o, Err(too_deep()))
    } else {
        match predicate {
            None => (o, Ok(path_pattern(path))),
            Some(e) => {
                let x = translated(
                    *e,
                    s,
                    Out { extra: seq![], ..o },
                    (depth - 1) as nat,
                );
                let back = Out { extra: o.extra, ..x.out };
                match x.result {
                    Err(r) => (back, Err(r)),
                    Ok(f) => (back, Ok(filtered(path_pattern(path), f, x.out.extra))),
                }
            },
        }
    }
}

pub open spec fn pattern_comprehension(
    pattern: m::Pattern,
    predicate: Option<Box<m::Expression>>,
    projection: m::Expression,
    s: Scope,
    o: Out,
    depth: nat,
) -> Done
    decreases depth, 1int, 0int,
{
    if depth == 0 {
        failed(o, too_deep())
    } else {
        match path_for(pattern, s) {
            None => failed(o, no_path()),
            Some(path) => {
                let first = comprehension_pattern(path, predicate, s, o, depth);
                match first.1 {
                    Err(r) => failed(first.0, r),
                    Ok(p) => {
                        let x = translated(
                            projection,
                            s,
                            Out { extra: seq![], ..first.0 },
                            (depth - 1) as nat,
                        );
                        let back = Out { extra: o.extra, ..x.out };
                        match x.result {
                            Err(r) => failed(back, r),
                            Ok(value) => collect_values(
                                with_optional_group(p, x.out.extra),
                                value,
                                anchors(pattern.elements, pattern.elements.len() as int, s),
                                back,
                            ),
                        }
                    },
                }
            },
        }
    }
}

/// The list of the values of a pattern, by way of a subquery.
pub open spec fn collect_values(
    p: g::GraphPattern,
    value: g::Expr,
    anchors: Seq<Seq<char>>,
    o: Out,
) -> Done {
    let bound = fresh_name("pc_proj"@, o.counter);
    let o1 = bumped(o);
    let collected = fresh_name("pc_gc"@, o1.counter);
    let o2 = bumped(o1);
    done(
        Out {
            subqueries: o2.subqueries.push(
                (collected, collecting(p, value, bound, collected, anchors)),
            ),
            ..o2
        },
        collected_list(collected),
    )
}

} // verus!
