//! The laws of constants: what is computed ahead of a query is what the expression
//! means.
use vstd::prelude::*;

#[allow(unused_imports)]
use crate::ast::cypher::CompOp;
#[allow(unused_imports)]
use crate::ast::model as m;
#[allow(unused_imports)]
use crate::sparql::value::{Row, Value};
#[allow(unused_imports)]
use crate::translator::constant::{const_bool, const_int, is_null, remainder};
#[allow(unused_imports)]
use crate::translator::laws::values::{
    compared, conjunction, disjunction, exclusion, meaning, negation, Graph,
};

verus! {

/// A truth value of three, as a value.
pub open spec fn truth_of(x: Option<bool>) -> Value {
    match x {
        Some(b) => Value::Truth(b),
        None => Value::Unknown,
    }
}

/// What is left of a division is smaller than the divisor, has the sign of the
/// dividend, and makes it a multiple.
pub proof fn law_remainder(a: int, b: int) -> (q: int)
    requires
        b != 0,
    ensures
        a == q * b + remainder(a, b),
        -(if b < 0 {
            -b
        } else {
            b
        }) < remainder(a, b) < if b < 0 {
            -b
        } else {
            b
        },
        a >= 0 ==> remainder(a, b) >= 0,
        a <= 0 ==> remainder(a, b) <= 0,
{
    let d = if b < 0 {
        -b
    } else {
        b
    };
    let n = if a < 0 {
        -a
    } else {
        a
    };
    let k = n / d;
    assert(n == k * d + n % d && 0 <= n % d < d) by (nonlinear_arith)
        requires
            d > 0,
            k == n / d,
    ;
    let q = if (a < 0) == (b < 0) {
        k
    } else {
        -k
    };
    assert(q * b == if a < 0 {
        -(k * d)
    } else {
        k * d
    }) by (nonlinear_arith)
        requires
            d == if b < 0 {
                -b
            } else {
                b
            },
            q == if (a < 0) == (b < 0) {
                k
            } else {
                -k
            },
    ;
    q
}

/// Whole numbers that are computed ahead are what the expression means, and fit in
/// the range of whole numbers.
pub proof fn law_computed_numbers(e: m::Expression, base: Seq<char>, row: Row, graph: Graph)
    ensures
        const_int(e) matches Some(n) ==> i64::MIN <= n <= i64::MAX && (meaning(
            e,
            base,
            row,
            graph,
        ) matches Some(v) ==> v == Value::Number(n)),
    decreases e,
{
    match e {
        m::Expression::Negate(a) => {
            law_computed_numbers(*a, base, row, graph);
        },
        m::Expression::Add(a, b) => {
            law_computed_numbers(*a, base, row, graph);
            law_computed_numbers(*b, base, row, graph);
        },
        m::Expression::Subtract(a, b) => {
            law_computed_numbers(*a, base, row, graph);
            law_computed_numbers(*b, base, row, graph);
        },
        m::Expression::Multiply(a, b) => {
            law_computed_numbers(*a, base, row, graph);
            law_computed_numbers(*b, base, row, graph);
        },
        m::Expression::Modulo(a, b) => {
            law_computed_numbers(*a, base, row, graph);
            law_computed_numbers(*b, base, row, graph);
            if let (Some(x), Some(y)) = (const_int(*a), const_int(*b)) {
                if y != 0 {
                    let q = law_remainder(x, y);
                }
            }
        },
        _ => {},
    }
}

/// A connective that is computed ahead connects as in three values, and the operands
/// are computed ahead too.
pub proof fn law_computed_connectives(a: m::Expression, b: m::Expression)
    ensures
        const_bool(m::Expression::And(Box::new(a), Box::new(b))) matches Some(z) ==> const_bool(
            a,
        ) is Some && const_bool(b) is Some && conjunction(
            truth_of(const_bool(a)->0),
            truth_of(const_bool(b)->0),
        ) == Some(truth_of(z)),
        const_bool(m::Expression::Or(Box::new(a), Box::new(b))) matches Some(z) ==> const_bool(
            a,
        ) is Some && const_bool(b) is Some && disjunction(
            truth_of(const_bool(a)->0),
            truth_of(const_bool(b)->0),
        ) == Some(truth_of(z)),
        const_bool(m::Expression::Xor(Box::new(a), Box::new(b))) matches Some(z) ==> const_bool(
            a,
        ) is Some && const_bool(b) is Some && exclusion(
            truth_of(const_bool(a)->0),
            truth_of(const_bool(b)->0),
        ) == Some(truth_of(z)),
        const_bool(m::Expression::Not(Box::new(a))) matches Some(z) ==> const_bool(a) is Some
            && negation(truth_of(const_bool(a)->0)) == Some(truth_of(z)),
        const_bool(a) is Some && const_bool(b) is Some ==> const_bool(
            m::Expression::And(Box::new(a), Box::new(b)),
        ) is Some && const_bool(m::Expression::Or(Box::new(a), Box::new(b))) is Some
            && const_bool(m::Expression::Xor(Box::new(a), Box::new(b))) is Some && const_bool(
            m::Expression::Not(Box::new(a)),
        ) is Some,
{
}

/// A comparison that is computed ahead compares the numbers, texts or truth values
/// that stand on its sides, and is null where a null does.
pub proof fn law_computed_comparisons(a: m::Expression, op: CompOp, b: m::Expression)
    ensures
        ({
            let z = const_bool(m::Expression::Comparison(Box::new(a), op, Box::new(b)));
            &&& const_int(a) is Some && const_int(b) is Some && z is Some ==> compared(
                Value::Number(const_int(a)->0),
                op,
                Value::Number(const_int(b)->0),
            ) == Some(truth_of(z->0))
            &&& a matches m::Expression::Literal(m::Literal::String(x)) ==> (
            b matches m::Expression::Literal(m::Literal::String(y)) ==> z is Some ==> compared(Value::Text(x), op, Value::Text(y)) == Some(truth_of(z->0)))
            &&& a matches m::Expression::Literal(m::Literal::Boolean(x)) ==> (
            b matches m::Expression::Literal(m::Literal::Boolean(y)) ==> z is Some ==> compared(Value::Truth(x), op, Value::Truth(y)) == Some(truth_of(z->0)))
            &&& (is_null(a) || is_null(b)) && z is Some ==> z->0 is None
        }),
{
}

/// A test for null that is computed ahead.
pub proof fn law_computed_null_tests(l: m::Literal)
    ensures
        const_bool(
            m::Expression::IsNull(Box::new(m::Expression::Literal(l))),
        ) == Some(Some(l == m::Literal::Null)),
        const_bool(
            m::Expression::IsNotNull(Box::new(m::Expression::Literal(l))),
        ) == Some(Some(l != m::Literal::Null)),
        const_bool(m::Expression::Literal(m::Literal::Null)) == Some(None::<bool>),
{
}

} // verus!
