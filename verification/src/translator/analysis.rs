//! What can be said of an expression before it is translated.
use vstd::prelude::*;

use crate::ast::cypher::{AggregateExpr, Expression, Literal};
#[allow(unused_imports)]
use crate::ast::model as m;
use crate::text::{eq_ignore_ascii_case, list_has, push_text, same_text, to_ascii_lowercase};
#[allow(unused_imports)]
use crate::text::{lists, lower_text, same_ignoring_case, texts};

verus! {

// ── Calls of rand() ──────────────────────────────────────────────────────────

/// Whether an expression calls `rand()` somewhere.
pub open spec fn contains_rand(e: Expression) -> bool
    decreases e,
{
    match e {
        Expression::FunctionCall { name, distinct, args } => same_ignoring_case(name@, "rand"@)
            || exists|i: int| 0 <= i < args@.len() && contains_rand(#[trigger] args@[i]),
        Expression::Or(a, b) => contains_rand(*a) || contains_rand(*b),
        Expression::And(a, b) => contains_rand(*a) || contains_rand(*b),
        Expression::Add(a, b) => contains_rand(*a) || contains_rand(*b),
        Expression::Subtract(a, b) => contains_rand(*a) || contains_rand(*b),
        Expression::Multiply(a, b) => contains_rand(*a) || contains_rand(*b),
        Expression::Comparison(a, op, b) => contains_rand(*a) || contains_rand(*b),
        Expression::Not(a) => contains_rand(*a),
        Expression::Negate(a) => contains_rand(*a),
        Expression::IsNull(a) => contains_rand(*a),
        Expression::IsNotNull(a) => contains_rand(*a),
        Expression::List(items) => exists|i: int|
            0 <= i < items@.len() && contains_rand(#[trigger] items@[i]),
        Expression::ListComprehension { variable, list, predicate, projection } => contains_rand(
            *list,
        ) || (match predicate {
            Some(p) => contains_rand(*p),
            None => false,
        }) || (match projection {
            Some(p) => contains_rand(*p),
            None => false,
        }),
        Expression::CaseExpression { operand, whens, else_expr } => (match operand {
            Some(p) => contains_rand(*p),
            None => false,
        }) || (exists|i: int|
            0 <= i < whens@.len() && (contains_rand((#[trigger] whens@[i]).0) || contains_rand(
                whens@[i].1,
            ))) || (match else_expr {
            Some(p) => contains_rand(*p),
            None => false,
        }),
        _ => false,
    }
}

pub fn expr_contains_rand(expr: &Expression) -> (r: bool)
    ensures
        r == contains_rand(*expr),
    decreases expr,
{
    match expr {
        Expression::FunctionCall { name, distinct: _, args } => {
            if eq_ignore_ascii_case(name.as_str(), "rand") {
                return true;
            }
            any_contains_rand(args)
        },
        Expression::Or(a, b)
        | Expression::And(a, b)
        | Expression::Add(a, b)
        | Expression::Subtract(a, b)
        | Expression::Multiply(a, b)
        | Expression::Comparison(a, _, b) => expr_contains_rand(a) || expr_contains_rand(b),
        Expression::Not(a)
        | Expression::Negate(a)
        | Expression::IsNull(a)
        | Expression::IsNotNull(a) => expr_contains_rand(a),
        Expression::List(items) => any_contains_rand(items),
        Expression::ListComprehension { variable: _, list, predicate, projection } => {
            if expr_contains_rand(list) {
                return true;
            }
            if let Some(p) = predicate {
                if expr_contains_rand(p) {
                    return true;
                }
            }
            if let Some(p) = projection {
                return expr_contains_rand(p);
            }
            false
        },
        Expression::CaseExpression { operand, whens, else_expr } => {
            if let Some(p) = operand {
                if expr_contains_rand(p) {
                    return true;
                }
            }
            #[verifier::loop_isolation(false)]
            for i in 0..whens.len()
                invariant
                    forall|k: int|
                        0 <= k < i ==> !(contains_rand((#[trigger] whens@[k]).0) || contains_rand(
                            whens@[k].1,
                        )),
            {
                if expr_contains_rand(&whens[i].0) || expr_contains_rand(&whens[i].1) {
                    assert(contains_rand(whens@[i as int].0) || contains_rand(whens@[i as int].1));
                    return true;
                }
            }
            if let Some(p) = else_expr {
                return expr_contains_rand(p);
            }
            false
        },
        _ => false,
    }
}

fn any_contains_rand(v: &Vec<Expression>) -> (r: bool)
    ensures
        r == exists|i: int| 0 <= i < v@.len() && contains_rand(#[trigger] v@[i]),
    decreases v,
{
    #[verifier::loop_isolation(false)]
    for i in 0..v.len()
        invariant
            forall|k: int| 0 <= k < i ==> !contains_rand(#[trigger] v@[k]),
    {
        if expr_contains_rand(&v[i]) {
            return true;
        }
    }
    false
}

// ── Opaque lists ─────────────────────────────────────────────────────────────

/// Whether the expression is one of the variables.
pub open spec fn is_one_of(e: Expression, names: Seq<Seq<char>>) -> bool {
    e matches Expression::Variable(v) && lists(names, v@)
}

pub fn one_of(e: &Expression, names: &Vec<String>) -> (r: bool)
    ensures
        r == is_one_of(*e, texts(names@)),
{
    match e {
        Expression::Variable(v) => list_has(names, v.as_str()),
        _ => false,
    }
}

/// Whether an expression gives a list that is not known before the query runs:
/// one filtered with `rand()`, or made from such a list.
pub open spec fn is_opaque(e: Expression, names: Seq<Seq<char>>) -> bool
    decreases e,
{
    match e {
        Expression::ListComprehension { variable, list, predicate, projection } => match predicate {
            Some(p) => (*list is Variable) && contains_rand(*p),
            None => false,
        },
        Expression::Add(a, b) => is_opaque(*a, names) || is_one_of(*a, names) || is_opaque(
            *b,
            names,
        ) || is_one_of(*b, names),
        Expression::CaseExpression { operand, whens, else_expr } => (exists|i: int|
            0 <= i < whens@.len() && (is_opaque((#[trigger] whens@[i]).1, names) || is_one_of(
                whens@[i].1,
                names,
            ))) || (match else_expr {
            Some(p) => is_opaque(*p, names) || is_one_of(*p, names),
            None => false,
        }),
        Expression::Variable(v) => lists(names, v@),
        Expression::FunctionCall { name, distinct, args } => (same_ignoring_case(
            name@,
            "coalesce"@,
        ) || same_ignoring_case(name@, "reverse"@)) && exists|i: int|
            0 <= i < args@.len() && (is_opaque(#[trigger] args@[i], names) || is_one_of(
                args@[i],
                names,
            )),
        _ => false,
    }
}

pub fn clause_expr_is_opaque(expr: &Expression, opaque_vars: &Vec<String>) -> (r: bool)
    ensures
        r == is_opaque(*expr, texts(opaque_vars@)),
    decreases expr,
{
    match expr {
        Expression::ListComprehension { variable: _, list, predicate, projection: _ } => {
            match predicate {
                Some(p) => match **list {
                    Expression::Variable(_) => expr_contains_rand(p),
                    _ => false,
                },
                None => false,
            }
        },
        Expression::Add(a, b) => clause_expr_is_opaque(a, opaque_vars) || one_of(a, opaque_vars)
            || clause_expr_is_opaque(b, opaque_vars) || one_of(b, opaque_vars),
        Expression::CaseExpression { operand: _, whens, else_expr } => {
            #[verifier::loop_isolation(false)]
            for i in 0..whens.len()
                invariant
                    forall|k: int|
                        0 <= k < i ==> !(is_opaque((#[trigger] whens@[k]).1, texts(opaque_vars@))
                            || is_one_of(whens@[k].1, texts(opaque_vars@))),
            {
                if clause_expr_is_opaque(&whens[i].1, opaque_vars) || one_of(
                    &whens[i].1,
                    opaque_vars,
                ) {
                    assert(is_opaque(whens@[i as int].1, texts(opaque_vars@)) || is_one_of(
                        whens@[i as int].1,
                        texts(opaque_vars@),
                    ));
                    return true;
                }
            }
            match else_expr {
                Some(p) => clause_expr_is_opaque(p, opaque_vars) || one_of(p, opaque_vars),
                None => false,
            }
        },
        Expression::Variable(v) => list_has(opaque_vars, v.as_str()),
        Expression::FunctionCall { name, distinct: _, args } => {
            if !eq_ignore_ascii_case(name.as_str(), "coalesce") && !eq_ignore_ascii_case(
                name.as_str(),
                "reverse",
            ) {
                return false;
            }
            #[verifier::loop_isolation(false)]
            for i in 0..args.len()
                invariant
                    forall|k: int|
                        0 <= k < i ==> !(is_opaque(#[trigger] args@[k], texts(opaque_vars@))
                            || is_one_of(args@[k], texts(opaque_vars@))),
            {
                if clause_expr_is_opaque(&args[i], opaque_vars) || one_of(&args[i], opaque_vars) {
                    assert(is_opaque(args@[i as int], texts(opaque_vars@)) || is_one_of(
                        args@[i as int],
                        texts(opaque_vars@),
                    ));
                    return true;
                }
            }
            false
        },
        _ => false,
    }
}

// ── Lists that are known not to be empty ─────────────────────────────────────

/// A list of names with one more, unless it is there already.
pub open spec fn with_name(names: Seq<Seq<char>>, name: Seq<char>) -> Seq<Seq<char>> {
    if lists(names, name) {
        names
    } else {
        names.push(name)
    }
}

pub fn add_name(names: &mut Vec<String>, name: &String)
    ensures
        texts(final(names)@) == with_name(texts(old(names)@), name@),
{
    if !list_has(names, name.as_str()) {
        push_text(names, name.clone());
    }
}

/// The variable of `size(v) > 0` or `size(v) >= 1`.
pub open spec fn sized_variable(e: Expression) -> Option<Seq<char>> {
    match e {
        Expression::Comparison(lhs, op, rhs) => match *lhs {
            Expression::FunctionCall { name, distinct, args } => if same_ignoring_case(
                name@,
                "size"@,
            ) && args@.len() > 0 && (args@[0] is Variable) && ((op is Gt && *rhs
                == Expression::Literal(Literal::Integer(0))) || (op is Ge && *rhs
                == Expression::Literal(Literal::Integer(1)))) {
                Some(args@[0]->Variable_0@)
            } else {
                None
            },
            _ => None,
        },
        _ => None,
    }
}

/// The names with those of the lists that a predicate says are not empty.
pub open spec fn with_nonempty(e: Expression, names: Seq<Seq<char>>) -> Seq<Seq<char>>
    decreases e,
{
    match e {
        Expression::And(a, b) => with_nonempty(*b, with_nonempty(*a, names)),
        _ => match sized_variable(e) {
            Some(v) => with_name(names, v),
            None => names,
        },
    }
}

pub fn collect_nonempty_vars(expr: &Expression, nonempty_vars: &mut Vec<String>)
    ensures
        texts(final(nonempty_vars)@) == with_nonempty(*expr, texts(old(nonempty_vars)@)),
    decreases expr,
{
    match expr {
        Expression::Comparison(lhs, op, rhs) => {
            if let Expression::FunctionCall { name, distinct: _, args } = &**lhs {
                if eq_ignore_ascii_case(name.as_str(), "size") && args.len() > 0 {
                    if let Expression::Variable(v) = &args[0] {
                        let known = match (op, &**rhs) {
                            (
                                crate::ast::cypher::CompOp::Gt,
                                Expression::Literal(Literal::Integer(n)),
                            ) => *n == 0,
                            (
                                crate::ast::cypher::CompOp::Ge,
                                Expression::Literal(Literal::Integer(n)),
                            ) => *n == 1,
                            _ => false,
                        };
                        if known {
                            add_name(nonempty_vars, v);
                        }
                    }
                }
            }
        },
        Expression::And(a, b) => {
            collect_nonempty_vars(a, nonempty_vars);
            collect_nonempty_vars(b, nonempty_vars);
        },
        _ => {},
    }
}

// ── Aggregates ───────────────────────────────────────────────────────────────

/// Whether an expression holds an aggregate.
pub open spec fn contains_aggregate(e: Expression) -> bool
    decreases e,
{
    match e {
        Expression::Aggregate(a) => true,
        Expression::Or(a, b) => contains_aggregate(*a) || contains_aggregate(*b),
        Expression::Xor(a, b) => contains_aggregate(*a) || contains_aggregate(*b),
        Expression::And(a, b) => contains_aggregate(*a) || contains_aggregate(*b),
        Expression::Add(a, b) => contains_aggregate(*a) || contains_aggregate(*b),
        Expression::Subtract(a, b) => contains_aggregate(*a) || contains_aggregate(*b),
        Expression::Multiply(a, b) => contains_aggregate(*a) || contains_aggregate(*b),
        Expression::Divide(a, b) => contains_aggregate(*a) || contains_aggregate(*b),
        Expression::Modulo(a, b) => contains_aggregate(*a) || contains_aggregate(*b),
        Expression::Power(a, b) => contains_aggregate(*a) || contains_aggregate(*b),
        Expression::Comparison(a, op, b) => contains_aggregate(*a) || contains_aggregate(*b),
        Expression::Not(a) => contains_aggregate(*a),
        Expression::Negate(a) => contains_aggregate(*a),
        Expression::IsNull(a) => contains_aggregate(*a),
        Expression::IsNotNull(a) => contains_aggregate(*a),
        Expression::Property(a, key) => contains_aggregate(*a),
        Expression::List(items) => exists|i: int|
            0 <= i < items@.len() && contains_aggregate(#[trigger] items@[i]),
        Expression::MapLit(pairs) => exists|i: int|
            0 <= i < pairs@.len() && contains_aggregate((#[trigger] pairs@[i]).1),
        Expression::FunctionCall { name, distinct, args } => exists|i: int|
            0 <= i < args@.len() && contains_aggregate(#[trigger] args@[i]),
        Expression::ListComprehension { variable, list, predicate, projection } =>
            contains_aggregate(*list) || (match predicate {
            Some(p) => contains_aggregate(*p),
            None => false,
        }) || (match projection {
            Some(p) => contains_aggregate(*p),
            None => false,
        }),
        _ => false,
    }
}

pub fn expr_contains_aggregate(expr: &Expression) -> (r: bool)
    ensures
        r == contains_aggregate(*expr),
    decreases expr,
{
    match expr {
        Expression::Aggregate(_) => true,
        Expression::Or(a, b)
        | Expression::Xor(a, b)
        | Expression::And(a, b)
        | Expression::Add(a, b)
        | Expression::Subtract(a, b)
        | Expression::Multiply(a, b)
        | Expression::Divide(a, b)
        | Expression::Modulo(a, b)
        | Expression::Power(a, b)
        | Expression::Comparison(a, _, b) => expr_contains_aggregate(a)
            || expr_contains_aggregate(b),
        Expression::Not(a)
        | Expression::Negate(a)
        | Expression::IsNull(a)
        | Expression::IsNotNull(a)
        | Expression::Property(a, _) => expr_contains_aggregate(a),
        Expression::List(items) => any_contains_aggregate(items),
        Expression::MapLit(pairs) => {
            #[verifier::loop_isolation(false)]
            for i in 0..pairs.len()
                invariant
                    forall|k: int| 0 <= k < i ==> !contains_aggregate((#[trigger] pairs@[k]).1),
            {
                if expr_contains_aggregate(&pairs[i].1) {
                    assert(contains_aggregate(pairs@[i as int].1));
                    return true;
                }
            }
            false
        },
        Expression::FunctionCall { name: _, distinct: _, args } => any_contains_aggregate(args),
        Expression::ListComprehension { variable: _, list, predicate, projection } => {
            if expr_contains_aggregate(list) {
                return true;
            }
            if let Some(p) = predicate {
                if expr_contains_aggregate(p) {
                    return true;
                }
            }
            if let Some(p) = projection {
                return expr_contains_aggregate(p);
            }
            false
        },
        _ => false,
    }
}

fn any_contains_aggregate(v: &Vec<Expression>) -> (r: bool)
    ensures
        r == exists|i: int| 0 <= i < v@.len() && contains_aggregate(#[trigger] v@[i]),
    decreases v,
{
    #[verifier::loop_isolation(false)]
    for i in 0..v.len()
        invariant
            forall|k: int| 0 <= k < i ==> !contains_aggregate(#[trigger] v@[k]),
    {
        if expr_contains_aggregate(&v[i]) {
            return true;
        }
    }
    false
}

/// Whether a variable or a property stands outside every aggregate.
pub open spec fn has_free_variable(e: Expression) -> bool
    decreases e,
{
    match e {
        Expression::Variable(v) => true,
        Expression::Property(a, key) => has_free_variable(*a),
        Expression::Or(a, b) => has_free_variable(*a) || has_free_variable(*b),
        Expression::Xor(a, b) => has_free_variable(*a) || has_free_variable(*b),
        Expression::And(a, b) => has_free_variable(*a) || has_free_variable(*b),
        Expression::Add(a, b) => has_free_variable(*a) || has_free_variable(*b),
        Expression::Subtract(a, b) => has_free_variable(*a) || has_free_variable(*b),
        Expression::Multiply(a, b) => has_free_variable(*a) || has_free_variable(*b),
        Expression::Divide(a, b) => has_free_variable(*a) || has_free_variable(*b),
        Expression::Modulo(a, b) => has_free_variable(*a) || has_free_variable(*b),
        Expression::Power(a, b) => has_free_variable(*a) || has_free_variable(*b),
        Expression::Comparison(a, op, b) => has_free_variable(*a) || has_free_variable(*b),
        Expression::Not(a) => has_free_variable(*a),
        Expression::Negate(a) => has_free_variable(*a),
        Expression::IsNull(a) => has_free_variable(*a),
        Expression::IsNotNull(a) => has_free_variable(*a),
        Expression::FunctionCall { name, distinct, args } => exists|i: int|
            0 <= i < args@.len() && has_free_variable(#[trigger] args@[i]),
        Expression::LabelCheck { variable, labels } => true,
        _ => false,
    }
}

pub fn expr_has_free_var_outside_agg(expr: &Expression) -> (r: bool)
    ensures
        r == has_free_variable(*expr),
    decreases expr,
{
    match expr {
        Expression::Variable(_) => true,
        Expression::Or(a, b)
        | Expression::Xor(a, b)
        | Expression::And(a, b)
        | Expression::Add(a, b)
        | Expression::Subtract(a, b)
        | Expression::Multiply(a, b)
        | Expression::Divide(a, b)
        | Expression::Modulo(a, b)
        | Expression::Power(a, b)
        | Expression::Comparison(a, _, b) => expr_has_free_var_outside_agg(a)
            || expr_has_free_var_outside_agg(b),
        Expression::Property(a, _)
        | Expression::Not(a)
        | Expression::Negate(a)
        | Expression::IsNull(a)
        | Expression::IsNotNull(a) => expr_has_free_var_outside_agg(a),
        Expression::FunctionCall { name: _, distinct: _, args } => {
            #[verifier::loop_isolation(false)]
            for i in 0..args.len()
                invariant
                    forall|k: int| 0 <= k < i ==> !has_free_variable(#[trigger] args@[k]),
            {
                if expr_has_free_var_outside_agg(&args[i]) {
                    return true;
                }
            }
            false
        },
        Expression::LabelCheck { variable: _, labels: _ } => true,
        _ => false,
    }
}

/// The argument of an aggregate; none for `count(*)`.
pub open spec fn aggregated(a: AggregateExpr) -> Option<Expression> {
    match a {
        AggregateExpr::Count { distinct, expr } => match expr {
            Some(e) => Some(*e),
            None => None,
        },
        AggregateExpr::Sum { distinct, expr } => Some(*expr),
        AggregateExpr::Avg { distinct, expr } => Some(*expr),
        AggregateExpr::Min { distinct, expr } => Some(*expr),
        AggregateExpr::Max { distinct, expr } => Some(*expr),
        AggregateExpr::Collect { distinct, expr } => Some(*expr),
    }
}

/// Whether there is an aggregate among the arguments of an aggregate.
pub fn agg_has_nested_aggregate(agg: &AggregateExpr) -> (r: bool)
    ensures
        r == (aggregated(*agg) matches Some(e) && contains_aggregate(e)),
{
    match agg {
        AggregateExpr::Count { distinct: _, expr } => match expr {
            Some(e) => expr_contains_aggregate(e),
            None => false,
        },
        AggregateExpr::Sum { distinct: _, expr }
        | AggregateExpr::Avg { distinct: _, expr }
        | AggregateExpr::Min { distinct: _, expr }
        | AggregateExpr::Max { distinct: _, expr }
        | AggregateExpr::Collect { distinct: _, expr } => expr_contains_aggregate(expr),
    }
}

// ── Strings ──────────────────────────────────────────────────────────────────

/// The functions that always give a string.
pub open spec fn gives_string(name: Seq<char>) -> bool {
    let n = lower_text(name);
    n == "tolower"@ || n == "toupper"@ || n == "tostring"@ || n == "trim"@ || n == "ltrim"@ || n
        == "rtrim"@ || n == "substring"@ || n == "left"@ || n == "right"@ || n == "replace"@ || n
        == "reverse"@ || n == "split"@
}

/// Whether an expression is known to give a string; `+` does where either side does.
pub open spec fn produces_string(e: m::Expression) -> bool
    decreases e,
{
    match e {
        m::Expression::Literal(l) => l is String,
        m::Expression::Add(a, b) => produces_string(*a) || produces_string(*b),
        m::Expression::FunctionCall { name, distinct, args } => gives_string(name),
        _ => false,
    }
}

pub fn expr_is_string_producer(expr: &Expression) -> (r: bool)
    ensures
        r == produces_string(m::expression_of(*expr)),
    decreases expr,
{
    match expr {
        Expression::Literal(l) => match l {
            Literal::String(_) => true,
            _ => false,
        },
        Expression::Add(a, b) => expr_is_string_producer(a) || expr_is_string_producer(b),
        Expression::FunctionCall { name, distinct: _, args: _ } => {
            let n = to_ascii_lowercase(name.as_str());
            let n = n.as_str();
            same_text(n, "tolower") || same_text(n, "toupper") || same_text(n, "tostring")
                || same_text(n, "trim") || same_text(n, "ltrim") || same_text(n, "rtrim")
                || same_text(n, "substring") || same_text(n, "left") || same_text(n, "right")
                || same_text(n, "replace") || same_text(n, "reverse") || same_text(n, "split")
        },
        _ => false,
    }
}

} // verus!
