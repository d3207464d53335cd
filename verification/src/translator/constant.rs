//! Expressions whose value is known before the query runs.
use vstd::prelude::*;

#[allow(unused_imports)]
use crate::ast::model as m;
use crate::ast::cypher::{CompOp, Expression, Literal};
use crate::text::same_text;

verus! {

/// A number, where 64 bits hold it.
pub open spec fn fits(n: int) -> Option<int> {
    if i64::MIN <= n <= i64::MAX {
        Some(n)
    } else {
        None
    }
}

pub open spec fn as_int(o: Option<i64>) -> Option<int> {
    match o {
        Some(n) => Some(n as int),
        None => None,
    }
}

/// The value of an integer literal, or of one with a minus sign before it.
pub open spec fn literal_int(e: m::Expression) -> Option<int> {
    match e {
        m::Expression::Literal(m::Literal::Integer(n)) => Some(n as int),
        m::Expression::Negate(inner) => match *inner {
            m::Expression::Literal(m::Literal::Integer(n)) => fits(-n),
            _ => None,
        },
        _ => None,
    }
}

pub fn get_literal_int(e: &Expression) -> (r: Option<i64>)
    ensures
        as_int(r) == literal_int(m::expression_of(*e)),
{
    match e {
        Expression::Literal(Literal::Integer(n)) => Some(*n),
        Expression::Negate(inner) => {
            assert(m::expression_of(**inner) is Literal == (**inner is Literal));
            match &**inner {
                Expression::Literal(Literal::Integer(n)) => negated(*n),
                _ => None,
            }
        },
        _ => None,
    }
}

fn negated(n: i64) -> (r: Option<i64>)
    ensures
        as_int(r) == fits(-n),
{
    if n == i64::MIN {
        None
    } else {
        Some(-n)
    }
}

/// The remainder with the sign of the dividend.
pub open spec fn remainder(a: int, b: int) -> int {
    let d = if b < 0 {
        -b
    } else {
        b
    };
    if a < 0 {
        -((-a) % d)
    } else {
        a % d
    }
}

fn remainder_of(a: i64, b: i64) -> (r: i64)
    requires
        b != 0,
    ensures
        r == remainder(a as int, b as int),
{
    let d: u128 = if b < 0 {
        (-(b as i128)) as u128
    } else {
        b as u128
    };
    if a < 0 {
        let x: u128 = (-(a as i128)) as u128;
        let k: u128 = x % d;
        (-(k as i128)) as i64
    } else {
        let x: u128 = a as u128;
        let k: u128 = x % d;
        k as i64
    }
}

/// The value of integer arithmetic on literals.
pub open spec fn const_int(e: m::Expression) -> Option<int>
    decreases e,
{
    match e {
        m::Expression::Literal(m::Literal::Integer(n)) => Some(n as int),
        m::Expression::Negate(a) => match const_int(*a) {
            Some(x) => fits(-x),
            None => None,
        },
        m::Expression::Add(a, b) => match (const_int(*a), const_int(*b)) {
            (Some(x), Some(y)) => fits(x + y),
            _ => None,
        },
        m::Expression::Subtract(a, b) => match (const_int(*a), const_int(*b)) {
            (Some(x), Some(y)) => fits(x - y),
            _ => None,
        },
        m::Expression::Multiply(a, b) => match (const_int(*a), const_int(*b)) {
            (Some(x), Some(y)) => fits(x * y),
            _ => None,
        },
        m::Expression::Modulo(a, b) => match (const_int(*a), const_int(*b)) {
            (Some(x), Some(y)) => if y == 0 {
                None
            } else {
                Some(remainder(x, y))
            },
            _ => None,
        },
        _ => None,
    }
}

pub fn eval_int(e: &Expression) -> (r: Option<i64>)
    ensures
        as_int(r) == const_int(m::expression_of(*e)),
    decreases e,
{
    match e {
        Expression::Literal(Literal::Integer(n)) => Some(*n),
        Expression::Negate(a) => match eval_int(a) {
            Some(x) => negated(x),
            None => None,
        },
        Expression::Add(a, b) => match (eval_int(a), eval_int(b)) {
            (Some(x), Some(y)) => x.checked_add(y),
            _ => None,
        },
        Expression::Subtract(a, b) => match (eval_int(a), eval_int(b)) {
            (Some(x), Some(y)) => x.checked_sub(y),
            _ => None,
        },
        Expression::Multiply(a, b) => match (eval_int(a), eval_int(b)) {
            (Some(x), Some(y)) => x.checked_mul(y),
            _ => None,
        },
        Expression::Modulo(a, b) => match (eval_int(a), eval_int(b)) {
            (Some(x), Some(y)) => if y == 0 {
                None
            } else {
                Some(remainder_of(x, y))
            },
            _ => None,
        },
        _ => None,
    }
}

// ── Truth in three values ────────────────────────────────────────────────────
//
// A truth value is `Some(true)`, `Some(false)`, or `None` for null.

pub open spec fn not3(a: Option<bool>) -> Option<bool> {
    match a {
        Some(x) => Some(!x),
        None => None,
    }
}

pub open spec fn and3(a: Option<bool>, b: Option<bool>) -> Option<bool> {
    if a == Some(false) || b == Some(false) {
        Some(false)
    } else if a is None || b is None {
        None
    } else {
        Some(true)
    }
}

pub open spec fn or3(a: Option<bool>, b: Option<bool>) -> Option<bool> {
    if a == Some(true) || b == Some(true) {
        Some(true)
    } else if a is None || b is None {
        None
    } else {
        Some(false)
    }
}

pub open spec fn xor3(a: Option<bool>, b: Option<bool>) -> Option<bool> {
    match (a, b) {
        (Some(x), Some(y)) => Some(x != y),
        _ => None,
    }
}

/// What `x op y` says of two integers; nothing where `op` does not compare them.
pub open spec fn compares(x: int, op: CompOp, y: int) -> Option<bool> {
    match op {
        CompOp::Eq => Some(x == y),
        CompOp::Ne => Some(x != y),
        CompOp::Lt => Some(x < y),
        CompOp::Le => Some(x <= y),
        CompOp::Gt => Some(x > y),
        CompOp::Ge => Some(x >= y),
        _ => None,
    }
}

/// What `=` or `<>` says, where the two sides are known to be the same or not.
pub open spec fn equates(same: bool, op: CompOp) -> Option<Option<bool>> {
    match op {
        CompOp::Eq => Some(Some(same)),
        CompOp::Ne => Some(Some(!same)),
        _ => None,
    }
}

pub open spec fn is_null(e: m::Expression) -> bool {
    e == m::Expression::Literal(m::Literal::Null)
}

pub open spec fn is_relation(op: CompOp) -> bool {
    op is Eq || op is Ne || op is Lt || op is Le || op is Gt || op is Ge
}

/// The value of a comparison of constants.
pub open spec fn const_comparison(a: m::Expression, op: CompOp, b: m::Expression) -> Option<
    Option<bool>,
> {
    if !is_relation(op) {
        None
    } else if is_null(a) || is_null(b) {
        Some(None)
    } else {
        match (const_int(a), const_int(b)) {
            (Some(x), Some(y)) => Some(compares(x, op, y)),
            _ => match (a, b) {
                (
                    m::Expression::Literal(m::Literal::String(x)),
                    m::Expression::Literal(m::Literal::String(y)),
                ) => equates(x == y, op),
                (
                    m::Expression::Literal(m::Literal::Boolean(x)),
                    m::Expression::Literal(m::Literal::Boolean(y)),
                ) => equates(x == y, op),
                _ => None,
            },
        }
    }
}

/// The truth value of a constant predicate, where it can be told.
pub open spec fn const_bool(e: m::Expression) -> Option<Option<bool>>
    decreases e,
{
    match e {
        m::Expression::Literal(m::Literal::Boolean(b)) => Some(Some(b)),
        m::Expression::Literal(m::Literal::Null) => Some(None),
        m::Expression::Not(a) => match const_bool(*a) {
            Some(x) => Some(not3(x)),
            None => None,
        },
        m::Expression::And(a, b) => match (const_bool(*a), const_bool(*b)) {
            (Some(x), Some(y)) => Some(and3(x, y)),
            _ => None,
        },
        m::Expression::Or(a, b) => match (const_bool(*a), const_bool(*b)) {
            (Some(x), Some(y)) => Some(or3(x, y)),
            _ => None,
        },
        m::Expression::Xor(a, b) => match (const_bool(*a), const_bool(*b)) {
            (Some(x), Some(y)) => Some(xor3(x, y)),
            _ => None,
        },
        m::Expression::IsNull(a) => match *a {
            m::Expression::Literal(l) => Some(Some(l is Null)),
            _ => None,
        },
        m::Expression::IsNotNull(a) => match *a {
            m::Expression::Literal(l) => Some(Some(!(l is Null))),
            _ => None,
        },
        m::Expression::Comparison(a, op, b) => const_comparison(*a, op, *b),
        _ => None,
    }
}

fn and_of(a: Option<bool>, b: Option<bool>) -> (r: Option<bool>)
    ensures
        r == and3(a, b),
{
    match (a, b) {
        (Some(false), _) => Some(false),
        (_, Some(false)) => Some(false),
        (None, _) => None,
        (_, None) => None,
        _ => Some(true),
    }
}

fn or_of(a: Option<bool>, b: Option<bool>) -> (r: Option<bool>)
    ensures
        r == or3(a, b),
{
    match (a, b) {
        (Some(true), _) => Some(true),
        (_, Some(true)) => Some(true),
        (None, _) => None,
        (_, None) => None,
        _ => Some(false),
    }
}

fn compare_ints(x: i64, op: CompOp, y: i64) -> (r: Option<bool>)
    ensures
        r == compares(x as int, op, y as int),
{
    match op {
        CompOp::Eq => Some(x == y),
        CompOp::Ne => Some(x != y),
        CompOp::Lt => Some(x < y),
        CompOp::Le => Some(x <= y),
        CompOp::Gt => Some(x > y),
        CompOp::Ge => Some(x >= y),
        _ => None,
    }
}

fn equate(same: bool, op: CompOp) -> (r: Option<Option<bool>>)
    ensures
        r == equates(same, op),
{
    match op {
        CompOp::Eq => Some(Some(same)),
        CompOp::Ne => Some(Some(!same)),
        _ => None,
    }
}

pub fn is_null_literal(e: &Expression) -> (r: bool)
    ensures
        r == is_null(m::expression_of(*e)),
{
    match e {
        Expression::Literal(Literal::Null) => true,
        _ => false,
    }
}

fn eval_comparison(a: &Expression, op: CompOp, b: &Expression) -> (r: Option<Option<bool>>)
    ensures
        r == const_comparison(m::expression_of(*a), op, m::expression_of(*b)),
{
    let relation = match op {
        CompOp::Eq | CompOp::Ne | CompOp::Lt | CompOp::Le | CompOp::Gt | CompOp::Ge => true,
        _ => false,
    };
    if !relation {
        return None;
    }
    if is_null_literal(a) || is_null_literal(b) {
        return Some(None);
    }
    if let (Some(x), Some(y)) = (eval_int(a), eval_int(b)) {
        return Some(compare_ints(x, op, y));
    }
    match (a, b) {
        (Expression::Literal(Literal::String(x)), Expression::Literal(Literal::String(y))) => {
            equate(same_text(x.as_str(), y.as_str()), op)
        },
        (Expression::Literal(Literal::Boolean(x)), Expression::Literal(Literal::Boolean(y))) => {
            equate(*x == *y, op)
        },
        _ => None,
    }
}

pub fn try_eval_bool_const(e: &Expression) -> (r: Option<Option<bool>>)
    ensures
        r == const_bool(m::expression_of(*e)),
    decreases e,
{
    match e {
        Expression::Literal(Literal::Boolean(b)) => Some(Some(*b)),
        Expression::Literal(Literal::Null) => Some(None),
        Expression::Not(a) => match try_eval_bool_const(a) {
            Some(Some(x)) => Some(Some(!x)),
            Some(None) => Some(None),
            None => None,
        },
        Expression::And(a, b) => match (try_eval_bool_const(a), try_eval_bool_const(b)) {
            (Some(x), Some(y)) => Some(and_of(x, y)),
            _ => None,
        },
        Expression::Or(a, b) => match (try_eval_bool_const(a), try_eval_bool_const(b)) {
            (Some(x), Some(y)) => Some(or_of(x, y)),
            _ => None,
        },
        Expression::Xor(a, b) => match (try_eval_bool_const(a), try_eval_bool_const(b)) {
            (Some(Some(x)), Some(Some(y))) => Some(Some(x != y)),
            (Some(_), Some(_)) => Some(None),
            _ => None,
        },
        Expression::IsNull(a) => match &**a {
            Expression::Literal(_) => Some(Some(is_null_literal(a))),
            _ => None,
        },
        Expression::IsNotNull(a) => match &**a {
            Expression::Literal(_) => Some(Some(!is_null_literal(a))),
            _ => None,
        },
        Expression::Comparison(a, op, b) => eval_comparison(a, *op, b),
        _ => None,
    }
}

} // verus!
