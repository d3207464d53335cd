//! A value in place of a variable.
use vstd::prelude::*;

use crate::ast::copy::clone_expression;
use crate::ast::cypher::Expression;
#[allow(unused_imports)]
use crate::ast::model as m;
use crate::text::same_text;

verus! {

/// An expression with a value in place of a variable. A quantifier or a
/// comprehension that binds a variable of the same name keeps its inner parts.
pub open spec fn substituted(e: m::Expression, var: Seq<char>, value: m::Expression) -> m::Expression
    decreases e,
{
    match e {
        m::Expression::Variable(v) => if v == var {
            value
        } else {
            e
        },
        m::Expression::Or(a, b) => m::Expression::Or(
            Box::new(substituted(*a, var, value)),
            Box::new(substituted(*b, var, value)),
        ),
        m::Expression::Xor(a, b) => m::Expression::Xor(
            Box::new(substituted(*a, var, value)),
            Box::new(substituted(*b, var, value)),
        ),
        m::Expression::And(a, b) => m::Expression::And(
            Box::new(substituted(*a, var, value)),
            Box::new(substituted(*b, var, value)),
        ),
        m::Expression::Add(a, b) => m::Expression::Add(
            Box::new(substituted(*a, var, value)),
            Box::new(substituted(*b, var, value)),
        ),
        m::Expression::Subtract(a, b) => m::Expression::Subtract(
            Box::new(substituted(*a, var, value)),
            Box::new(substituted(*b, var, value)),
        ),
        m::Expression::Multiply(a, b) => m::Expression::Multiply(
            Box::new(substituted(*a, var, value)),
            Box::new(substituted(*b, var, value)),
        ),
        m::Expression::Divide(a, b) => m::Expression::Divide(
            Box::new(substituted(*a, var, value)),
            Box::new(substituted(*b, var, value)),
        ),
        m::Expression::Modulo(a, b) => m::Expression::Modulo(
            Box::new(substituted(*a, var, value)),
            Box::new(substituted(*b, var, value)),
        ),
        m::Expression::Power(a, b) => m::Expression::Power(
            Box::new(substituted(*a, var, value)),
            Box::new(substituted(*b, var, value)),
        ),
        m::Expression::Subscript(a, b) => m::Expression::Subscript(
            Box::new(substituted(*a, var, value)),
            Box::new(substituted(*b, var, value)),
        ),
        m::Expression::Not(a) => m::Expression::Not(Box::new(substituted(*a, var, value))),
        m::Expression::IsNull(a) => m::Expression::IsNull(Box::new(substituted(*a, var, value))),
        m::Expression::IsNotNull(a) => m::Expression::IsNotNull(Box::new(substituted(*a, var, value))),
        m::Expression::Negate(a) => m::Expression::Negate(Box::new(substituted(*a, var, value))),
        m::Expression::Comparison(a, op, b) => m::Expression::Comparison(
            Box::new(substituted(*a, var, value)),
            op,
            Box::new(substituted(*b, var, value)),
        ),
        m::Expression::Property(a, key) => m::Expression::Property(
            Box::new(substituted(*a, var, value)),
            key,
        ),
        m::Expression::List(items) => m::Expression::List(substituted_all(items, var, value)),
        m::Expression::FunctionCall { name, distinct, args } => m::Expression::FunctionCall {
            name,
            distinct,
            args: substituted_all(args, var, value),
        },
        m::Expression::QuantifierExpr { kind, variable, list, predicate } =>
            m::Expression::QuantifierExpr {
            kind,
            variable,
            list: Box::new(substituted(*list, var, value)),
            predicate: if variable == var {
                predicate
            } else {
                substituted_opt(predicate, var, value)
            },
        },
        m::Expression::ListComprehension { variable, list, predicate, projection } =>
            m::Expression::ListComprehension {
            variable,
            list: Box::new(substituted(*list, var, value)),
            predicate: if variable == var {
                predicate
            } else {
                substituted_opt(predicate, var, value)
            },
            projection: if variable == var {
                projection
            } else {
                substituted_opt(projection, var, value)
            },
        },
        _ => e,
    }
}

pub open spec fn substituted_opt(
    o: Option<Box<m::Expression>>,
    var: Seq<char>,
    value: m::Expression,
) -> Option<Box<m::Expression>>
    decreases o,
{
    match o {
        Some(e) => Some(Box::new(substituted(*e, var, value))),
        None => None,
    }
}

pub open spec fn substituted_all(
    s: Seq<m::Expression>,
    var: Seq<char>,
    value: m::Expression,
) -> Seq<m::Expression>
    decreases s,
{
    Seq::new(
        s.len(),
        |i: int|
            if 0 <= i < s.len() {
                substituted(s[i], var, value)
            } else {
                value
            },
    )
}

fn substitute_all(v: &Vec<Expression>, var: &str, value: &Expression) -> (r: Vec<Expression>)
    ensures
        m::exprs_of(r@) == substituted_all(
            m::exprs_of(v@),
            var@,
            m::expression_of(*value),
        ),
    decreases v,
{
    let mut r: Vec<Expression> = Vec::new();
    #[verifier::loop_isolation(false)]
    for i in 0..v.len()
        invariant
            r@.len() == i,
            forall|k: int|
                0 <= k < i ==> m::expression_of(#[trigger] r@[k]) == substituted(
                    m::expression_of(v@[k]),
                    var@,
                    m::expression_of(*value),
                ),
    {
        let e = substitute_var_in_expr(&v[i], var, value);
        r.push(e);
    }
    proof {
        m::lemma_exprs_of(v@);
        m::lemma_exprs_of(r@);
    }
    assert(m::exprs_of(r@) =~= substituted_all(
        m::exprs_of(v@),
        var@,
        m::expression_of(*value),
    ));
    r
}

fn substitute_opt(o: &Option<Box<Expression>>, var: &str, value: &Expression) -> (r: Option<
    Box<Expression>,
>)
    ensures
        m::opt_boxed(r) == substituted_opt(m::opt_boxed(*o), var@, m::expression_of(*value)),
    decreases o,
{
    match o {
        Some(e) => Some(Box::new(substitute_var_in_expr(e, var, value))),
        None => None,
    }
}

pub fn substitute_var_in_expr(e: &Expression, var: &str, value: &Expression) -> (r: Expression)
    ensures
        m::expression_of(r) == substituted(
            m::expression_of(*e),
            var@,
            m::expression_of(*value),
        ),
    decreases e,
{
    match e {
        Expression::Variable(v) => if same_text(v.as_str(), var) {
            clone_expression(value)
        } else {
            clone_expression(e)
        },
        Expression::Or(a, b) => Expression::Or(
            Box::new(substitute_var_in_expr(a, var, value)),
            Box::new(substitute_var_in_expr(b, var, value)),
        ),
        Expression::Xor(a, b) => Expression::Xor(
            Box::new(substitute_var_in_expr(a, var, value)),
            Box::new(substitute_var_in_expr(b, var, value)),
        ),
        Expression::And(a, b) => Expression::And(
            Box::new(substitute_var_in_expr(a, var, value)),
            Box::new(substitute_var_in_expr(b, var, value)),
        ),
        Expression::Add(a, b) => Expression::Add(
            Box::new(substitute_var_in_expr(a, var, value)),
            Box::new(substitute_var_in_expr(b, var, value)),
        ),
        Expression::Subtract(a, b) => Expression::Subtract(
            Box::new(substitute_var_in_expr(a, var, value)),
            Box::new(substitute_var_in_expr(b, var, value)),
        ),
        Expression::Multiply(a, b) => Expression::Multiply(
            Box::new(substitute_var_in_expr(a, var, value)),
            Box::new(substitute_var_in_expr(b, var, value)),
        ),
        Expression::Divide(a, b) => Expression::Divide(
            Box::new(substitute_var_in_expr(a, var, value)),
            Box::new(substitute_var_in_expr(b, var, value)),
        ),
        Expression::Modulo(a, b) => Expression::Modulo(
            Box::new(substitute_var_in_expr(a, var, value)),
            Box::new(substitute_var_in_expr(b, var, value)),
        ),
        Expression::Power(a, b) => Expression::Power(
            Box::new(substitute_var_in_expr(a, var, value)),
            Box::new(substitute_var_in_expr(b, var, value)),
        ),
        Expression::Subscript(a, b) => Expression::Subscript(
            Box::new(substitute_var_in_expr(a, var, value)),
            Box::new(substitute_var_in_expr(b, var, value)),
        ),
        Expression::Not(a) => Expression::Not(Box::new(substitute_var_in_expr(a, var, value))),
        Expression::IsNull(a) => Expression::IsNull(Box::new(substitute_var_in_expr(a, var, value))),
        Expression::IsNotNull(a) => Expression::IsNotNull(Box::new(substitute_var_in_expr(a, var, value))),
        Expression::Negate(a) => Expression::Negate(Box::new(substitute_var_in_expr(a, var, value))),
        Expression::Comparison(a, op, b) => Expression::Comparison(
            Box::new(substitute_var_in_expr(a, var, value)),
            *op,
            Box::new(substitute_var_in_expr(b, var, value)),
        ),
        Expression::Property(a, key) => Expression::Property(
            Box::new(substitute_var_in_expr(a, var, value)),
            key.clone(),
        ),
        Expression::List(items) => Expression::List(substitute_all(items, var, value)),
        Expression::FunctionCall { name, distinct, args } => Expression::FunctionCall {
            name: name.clone(),
            distinct: *distinct,
            args: substitute_all(args, var, value),
        },
        Expression::QuantifierExpr { kind, variable, list, predicate } => {
            let inner = if same_text(variable.as_str(), var) {
                crate::ast::copy::clone_opt_boxed(predicate)
            } else {
                substitute_opt(predicate, var, value)
            };
            Expression::QuantifierExpr {
                kind: *kind,
                variable: variable.clone(),
                list: Box::new(substitute_var_in_expr(list, var, value)),
                predicate: inner,
            }
        },
        Expression::ListComprehension { variable, list, predicate, projection } => {
            let shadowed = same_text(variable.as_str(), var);
            let p = if shadowed {
                crate::ast::copy::clone_opt_boxed(predicate)
            } else {
                substitute_opt(predicate, var, value)
            };
            let q = if shadowed {
                crate::ast::copy::clone_opt_boxed(projection)
            } else {
                substitute_opt(projection, var, value)
            };
            Expression::ListComprehension {
                variable: variable.clone(),
                list: Box::new(substitute_var_in_expr(list, var, value)),
                predicate: p,
                projection: q,
            }
        },
        _ => clone_expression(e),
    }
}

} // verus!
