//! What can be told of expressions from their form: types, equality, texts.
use vstd::prelude::*;

use crate::ast::cypher::{Expression, Literal};
#[allow(unused_imports)]
use crate::ast::model as m;
use crate::text::{chars_of, same_text};
use crate::translator::constant::get_literal_int;
#[allow(unused_imports)]
use crate::translator::constant::{and3, literal_int};

verus! {

// ── Types ────────────────────────────────────────────────────────────────────

/// Numbers, strings, lists and maps are no booleans.
pub open spec fn non_boolean(e: m::Expression) -> bool {
    match e {
        m::Expression::Literal(l) => l is Integer || l is Float || l is String,
        m::Expression::List(_) => true,
        m::Expression::MapLit(_) => true,
        _ => false,
    }
}

pub fn is_definitely_non_boolean(e: &Expression) -> (r: bool)
    ensures
        r == non_boolean(m::expression_of(*e)),
{
    match e {
        Expression::Literal(l) => match l {
            Literal::Integer(_) | Literal::Float(_) | Literal::String(_) => true,
            _ => false,
        },
        Expression::List(_) | Expression::MapLit(_) => true,
        _ => false,
    }
}

/// Numbers, strings, booleans and maps are no lists.
pub open spec fn non_list(e: m::Expression) -> bool {
    match e {
        m::Expression::Literal(l) => !(l is Null),
        m::Expression::MapLit(_) => true,
        _ => false,
    }
}

pub fn is_definitely_non_list(e: &Expression) -> (r: bool)
    ensures
        r == non_list(m::expression_of(*e)),
{
    match e {
        Expression::Literal(l) => match l {
            Literal::Null => false,
            _ => true,
        },
        Expression::MapLit(_) => true,
        _ => false,
    }
}

/// Whether null is an operand of the arithmetic.
pub open spec fn has_null_operand(e: m::Expression) -> bool
    decreases e,
{
    match e {
        m::Expression::Literal(l) => l is Null,
        m::Expression::Negate(a) => has_null_operand(*a),
        m::Expression::Add(a, b) => has_null_operand(*a) || has_null_operand(*b),
        m::Expression::Subtract(a, b) => has_null_operand(*a) || has_null_operand(*b),
        m::Expression::Multiply(a, b) => has_null_operand(*a) || has_null_operand(*b),
        m::Expression::Divide(a, b) => has_null_operand(*a) || has_null_operand(*b),
        m::Expression::Modulo(a, b) => has_null_operand(*a) || has_null_operand(*b),
        m::Expression::Power(a, b) => has_null_operand(*a) || has_null_operand(*b),
        _ => false,
    }
}

pub fn cypher_expr_contains_null(e: &Expression) -> (r: bool)
    ensures
        r == has_null_operand(m::expression_of(*e)),
    decreases e,
{
    match e {
        Expression::Literal(l) => match l {
            Literal::Null => true,
            _ => false,
        },
        Expression::Negate(a) => cypher_expr_contains_null(a),
        Expression::Add(a, b)
        | Expression::Subtract(a, b)
        | Expression::Multiply(a, b)
        | Expression::Divide(a, b)
        | Expression::Modulo(a, b)
        | Expression::Power(a, b) => cypher_expr_contains_null(a) || cypher_expr_contains_null(b),
        _ => false,
    }
}

/// Whether a predicate does arithmetic on the variable that only numbers allow.
pub open spec fn uses_arithmetic(e: m::Expression, var: Seq<char>) -> bool
    decreases e,
{
    match e {
        m::Expression::Subtract(a, b) => is_named(*a, var) || is_named(*b, var),
        m::Expression::Multiply(a, b) => is_named(*a, var) || is_named(*b, var),
        m::Expression::Divide(a, b) => is_named(*a, var) || is_named(*b, var),
        m::Expression::Modulo(a, b) => is_named(*a, var) || is_named(*b, var),
        m::Expression::Power(a, b) => is_named(*a, var) || is_named(*b, var),
        m::Expression::Negate(a) => is_named(*a, var),
        m::Expression::Or(a, b) => uses_arithmetic(*a, var) || uses_arithmetic(*b, var),
        m::Expression::Xor(a, b) => uses_arithmetic(*a, var) || uses_arithmetic(*b, var),
        m::Expression::And(a, b) => uses_arithmetic(*a, var) || uses_arithmetic(*b, var),
        m::Expression::Comparison(a, op, b) => uses_arithmetic(*a, var) || uses_arithmetic(*b, var),
        m::Expression::Not(a) => uses_arithmetic(*a, var),
        _ => false,
    }
}

pub open spec fn is_named(e: m::Expression, var: Seq<char>) -> bool {
    e == m::Expression::Variable(var)
}

fn named(e: &Expression, var: &str) -> (r: bool)
    ensures
        r == is_named(m::expression_of(*e), var@),
{
    match e {
        Expression::Variable(v) => same_text(v.as_str(), var),
        _ => false,
    }
}

pub fn predicate_uses_numeric_arithmetic(e: &Expression, var: &str) -> (r: bool)
    ensures
        r == uses_arithmetic(m::expression_of(*e), var@),
    decreases e,
{
    match e {
        Expression::Subtract(a, b)
        | Expression::Multiply(a, b)
        | Expression::Divide(a, b)
        | Expression::Modulo(a, b)
        | Expression::Power(a, b) => named(a, var) || named(b, var),
        Expression::Negate(a) => named(a, var),
        Expression::Or(a, b)
        | Expression::Xor(a, b)
        | Expression::And(a, b)
        | Expression::Comparison(a, _, b) => predicate_uses_numeric_arithmetic(a, var)
            || predicate_uses_numeric_arithmetic(b, var),
        Expression::Not(a) => predicate_uses_numeric_arithmetic(a, var),
        _ => false,
    }
}

// ── Equality ─────────────────────────────────────────────────────────────────

/// Whether two literals are equal, where it can be told: `None` within for null.
/// Doubles are told equal by their text only.
pub open spec fn scalar_equal(a: m::Literal, b: m::Literal) -> Option<Option<bool>> {
    match (a, b) {
        (m::Literal::Null, _) => Some(None),
        (_, m::Literal::Null) => Some(None),
        (m::Literal::Integer(x), m::Literal::Integer(y)) => Some(Some(x == y)),
        (m::Literal::String(x), m::Literal::String(y)) => Some(Some(x == y)),
        (m::Literal::Boolean(x), m::Literal::Boolean(y)) => Some(Some(x == y)),
        (m::Literal::Float(x), m::Literal::Float(y)) => if x == y {
            Some(Some(true))
        } else {
            None
        },
        (m::Literal::Integer(_), m::Literal::Float(_)) => None,
        (m::Literal::Float(_), m::Literal::Integer(_)) => None,
        _ => Some(Some(false)),
    }
}

/// Whether two expressions of constants are equal, where it can be told.
pub open spec fn literal_equal(a: m::Expression, b: m::Expression) -> Option<Option<bool>>
    decreases a,
{
    match (a, b) {
        (m::Expression::Literal(x), m::Expression::Literal(y)) => scalar_equal(x, y),
        (m::Expression::List(xs), m::Expression::List(ys)) => if xs.len() != ys.len() {
            Some(Some(false))
        } else {
            lists_equal(xs, ys, xs.len() as int)
        },
        (m::Expression::List(_), m::Expression::Literal(l)) => if l is Null {
            Some(None)
        } else {
            Some(Some(false))
        },
        (m::Expression::Literal(l), m::Expression::List(_)) => if l is Null {
            Some(None)
        } else {
            Some(Some(false))
        },
        _ => match (literal_int(a), literal_int(b)) {
            (Some(x), Some(y)) => Some(Some(x == y)),
            _ => None,
        },
    }
}

/// Whether the first `k` elements are equal, one by one.
pub open spec fn lists_equal(xs: Seq<m::Expression>, ys: Seq<m::Expression>, k: int) -> Option<
    Option<bool>,
>
    decreases xs, k,
{
    if k <= 0 || k > xs.len() || k > ys.len() {
        Some(Some(true))
    } else {
        match (lists_equal(xs, ys, k - 1), literal_equal(xs[k - 1], ys[k - 1])) {
            (Some(p), Some(q)) => Some(and3(p, q)),
            _ => None,
        }
    }
}

fn equal_scalars(a: &Literal, b: &Literal) -> (r: Option<Option<bool>>)
    ensures
        r == scalar_equal(m::literal_of(*a), m::literal_of(*b)),
{
    match (a, b) {
        (Literal::Null, _) => Some(None),
        (_, Literal::Null) => Some(None),
        (Literal::Integer(x), Literal::Integer(y)) => Some(Some(*x == *y)),
        (Literal::String(x), Literal::String(y)) => Some(Some(same_text(x.as_str(), y.as_str()))),
        (Literal::Boolean(x), Literal::Boolean(y)) => Some(Some(*x == *y)),
        (Literal::Float(x), Literal::Float(y)) => if same_text(x.text.as_str(), y.text.as_str()) {
            Some(Some(true))
        } else {
            None
        },
        (Literal::Integer(_), Literal::Float(_)) => None,
        (Literal::Float(_), Literal::Integer(_)) => None,
        _ => Some(Some(false)),
    }
}

fn is_null_scalar(l: &Literal) -> (r: bool)
    ensures
        r == (m::literal_of(*l) is Null),
{
    match l {
        Literal::Null => true,
        _ => false,
    }
}

pub fn try_eval_literal_eq(a: &Expression, b: &Expression) -> (r: Option<Option<bool>>)
    ensures
        r == literal_equal(m::expression_of(*a), m::expression_of(*b)),
    decreases a,
{
    match (a, b) {
        (Expression::Literal(x), Expression::Literal(y)) => equal_scalars(x, y),
        (Expression::List(xs), Expression::List(ys)) => {
            proof {
                m::lemma_exprs_of(xs@);
                m::lemma_exprs_of(ys@);
            }
            if xs.len() != ys.len() {
                Some(Some(false))
            } else {
                equal_lists(xs, ys)
            }
        },
        (Expression::List(_), Expression::Literal(l)) => if is_null_scalar(l) {
            Some(None)
        } else {
            Some(Some(false))
        },
        (Expression::Literal(l), Expression::List(_)) => if is_null_scalar(l) {
            Some(None)
        } else {
            Some(Some(false))
        },
        _ => match (get_literal_int(a), get_literal_int(b)) {
            (Some(x), Some(y)) => Some(Some(x == y)),
            _ => None,
        },
    }
}

/// Elements that cannot be told make the whole so.
proof fn lemma_untold(xs: Seq<m::Expression>, ys: Seq<m::Expression>, k: int, n: int)
    requires
        0 < k <= n <= xs.len(),
        n <= ys.len(),
        lists_equal(xs, ys, k) is None,
    ensures
        lists_equal(xs, ys, n) is None,
    decreases n - k,
{
    if k < n {
        lemma_untold(xs, ys, k, n - 1);
    }
}

fn equal_lists(xs: &Vec<Expression>, ys: &Vec<Expression>) -> (r: Option<Option<bool>>)
    requires
        xs@.len() == ys@.len(),
    ensures
        r == lists_equal(m::exprs_of(xs@), m::exprs_of(ys@), xs@.len() as int),
    decreases xs,
{
    let ghost a = m::exprs_of(xs@);
    let ghost b = m::exprs_of(ys@);
    proof {
        m::lemma_exprs_of(xs@);
        m::lemma_exprs_of(ys@);
    }
    let mut all: Option<bool> = Some(true);
    #[verifier::loop_isolation(false)]
    for i in 0..xs.len()
        invariant
            lists_equal(a, b, i as int) == Some(all),
    {
        match try_eval_literal_eq(&xs[i], &ys[i]) {
            Some(q) => {
                all = match (all, q) {
                    (Some(false), _) => Some(false),
                    (_, Some(false)) => Some(false),
                    (None, _) => None,
                    (_, None) => None,
                    _ => Some(true),
                };
            },
            None => {
                proof {
                    lemma_untold(a, b, i + 1, a.len() as int);
                }
                return None;
            },
        }
    }
    Some(all)
}

// ── Texts ────────────────────────────────────────────────────────────────────

/// The text of a string literal, or of several with `+` between them.
pub open spec fn constant_text(e: m::Expression) -> Option<Seq<char>>
    decreases e,
{
    match e {
        m::Expression::Literal(m::Literal::String(s)) => Some(s),
        m::Expression::Add(a, b) => match (constant_text(*a), constant_text(*b)) {
            (Some(x), Some(y)) => Some(x + y),
            _ => None,
        },
        _ => None,
    }
}

pub fn try_eval_to_str_literal(e: &Expression) -> (r: Option<String>)
    ensures
        m::opt_text(r) == constant_text(m::expression_of(*e)),
    decreases e,
{
    match e {
        Expression::Literal(Literal::String(s)) => Some(s.clone()),
        Expression::Add(a, b) => match (try_eval_to_str_literal(a), try_eval_to_str_literal(b)) {
            (Some(x), Some(y)) => Some(x.concat(y.as_str())),
            _ => None,
        },
        _ => None,
    }
}

pub open spec fn is_digit_at(s: Seq<char>, i: int) -> bool {
    0 <= i < s.len() && '0' <= s[i] <= '9'
}

/// Whether a text begins as `YYYY-MM-DD` does.
pub open spec fn begins_with_date(s: Seq<char>) -> bool {
    &&& s.len() >= 10
    &&& is_digit_at(s, 0) && is_digit_at(s, 1) && is_digit_at(s, 2) && is_digit_at(s, 3)
    &&& s[4] == '-'
    &&& is_digit_at(s, 5) && is_digit_at(s, 6)
    &&& s[7] == '-'
    &&& is_digit_at(s, 8) && is_digit_at(s, 9)
}

/// Whether a text begins as `hh:mm` does.
pub open spec fn begins_with_time(s: Seq<char>) -> bool {
    &&& s.len() >= 5
    &&& is_digit_at(s, 0) && is_digit_at(s, 1)
    &&& s[2] == ':'
    &&& is_digit_at(s, 3) && is_digit_at(s, 4)
}

/// Whether a text is that of a date, and of nothing more; nothing where it is
/// no date or time.
pub open spec fn temporal_text(s: Seq<char>) -> Option<bool> {
    if begins_with_date(s) {
        Some(s.len() == 10)
    } else if begins_with_time(s) {
        Some(false)
    } else {
        None
    }
}

fn digit_at(v: &Vec<char>, i: usize) -> (r: bool)
    ensures
        r == is_digit_at(v@, i as int),
{
    i < v.len() && '0' <= v[i] && v[i] <= '9'
}

pub fn look_at_temporal(s: &str) -> (r: Option<bool>)
    ensures
        r == temporal_text(s@),
{
    let v = chars_of(s);
    if v.len() >= 10 && digit_at(&v, 0) && digit_at(&v, 1) && digit_at(&v, 2) && digit_at(&v, 3)
        && v[4] == '-' && digit_at(&v, 5) && digit_at(&v, 6) && v[7] == '-' && digit_at(&v, 8)
        && digit_at(&v, 9) {
        return Some(v.len() == 10);
    }
    if v.len() >= 5 && digit_at(&v, 0) && digit_at(&v, 1) && v[2] == ':' && digit_at(&v, 3)
        && digit_at(&v, 4) {
        return Some(false);
    }
    None
}

} // verus!
