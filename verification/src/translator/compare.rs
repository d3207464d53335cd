//! The order of Cypher values.
use vstd::prelude::*;

use crate::ast::cypher::{Expression, Literal};
use crate::number::forms::{number_bits, read_number};
#[allow(unused_imports)]
use crate::number::forms::{real_bits, real_in};
use crate::text::{chars_of, dec_i64};
#[allow(unused_imports)]
use crate::text::dec;

verus! {

/// The outcome of a comparison.
#[derive(Clone, Copy, Debug, PartialEq, Eq, Structural)]
pub enum Order {
    Less,
    Equal,
    Greater,
}

pub open spec fn order_of(x: int, y: int) -> Order {
    if x < y {
        Order::Less
    } else if x == y {
        Order::Equal
    } else {
        Order::Greater
    }
}

/// The place of a value's type: maps, lists, strings, `false`, `true`, numbers,
/// whatever is no literal, null.
pub open spec fn rank(e: Expression) -> int {
    match e {
        Expression::Literal(l) => match l {
            Literal::Null => 100,
            Literal::String(_) => 5,
            Literal::Boolean(b) => if b {
                7
            } else {
                6
            },
            Literal::Integer(_) => 8,
            Literal::Float(_) => 8,
        },
        Expression::MapLit(_) => 0,
        Expression::List(_) => 3,
        _ => 50,
    }
}

/// The bits of a double that are no number.
pub open spec fn is_nan(bits: u64) -> bool {
    bits % 0x8000_0000_0000_0000 > 0x7ff0_0000_0000_0000
}

/// A number that orders the doubles, both zeros alike.
pub open spec fn double_key(bits: u64) -> int {
    if bits < 0x8000_0000_0000_0000 {
        bits as int
    } else {
        0x8000_0000_0000_0000 - bits
    }
}

/// The order of two doubles, by their bits; what is no number is equal to all.
pub open spec fn double_order(x: Option<u64>, y: Option<u64>) -> Order {
    match (x, y) {
        (Some(a), Some(b)) => if is_nan(a) || is_nan(b) {
            Order::Equal
        } else {
            order_of(double_key(a), double_key(b))
        },
        _ => Order::Equal,
    }
}

/// The bits of the double that a text is read as.
#[verifier::opaque]
pub open spec fn known(text: Seq<char>) -> Option<u64> {
    match real_in(text) {
        Some(r) => Some(real_bits(r) as u64),
        None => None,
    }
}

/// The order of two texts, by the numbers of their characters.
pub open spec fn text_order(x: Seq<char>, y: Seq<char>, i: int) -> Order
    decreases x.len() - i,
{
    if i < 0 || i >= x.len() || i >= y.len() {
        order_of(x.len() as int, y.len() as int)
    } else if x[i] == y[i] {
        text_order(x, y, i + 1)
    } else {
        order_of(x[i] as int, y[i] as int)
    }
}

/// The order of two values of the same type.
pub open spec fn value_order(a: Expression, b: Expression) -> Order
    decreases a, 0int,
{
    match (a, b) {
        (Expression::Literal(x), Expression::Literal(y)) => match (x, y) {
            (Literal::Integer(m), Literal::Integer(n)) => order_of(m as int, n as int),
            (Literal::Float(f), Literal::Float(g)) => double_order(known(f@), known(g@)),
            (Literal::Integer(n), Literal::Float(g)) => double_order(
                known(dec(n as int)),
                known(g@),
            ),
            (Literal::Float(f), Literal::Integer(n)) => double_order(
                known(f@),
                known(dec(n as int)),
            ),
            (Literal::String(s), Literal::String(t)) => text_order(s@, t@, 0),
            _ => Order::Equal,
        },
        (Expression::List(xs), Expression::List(ys)) => list_order(xs@, ys@, 0),
        _ => Order::Equal,
    }
}

/// The order of two values: by their types, and within a type by what they are.
pub open spec fn cypher_order(a: Expression, b: Expression) -> Order
    decreases a, 1int,
{
    if rank(a) != rank(b) {
        order_of(rank(a), rank(b))
    } else {
        value_order(a, b)
    }
}

/// The order of two lists from the given place on: that of the first two
/// elements that differ, or of the lengths.
pub open spec fn list_order(
    xs: Seq<Expression>,
    ys: Seq<Expression>,
    i: int,
) -> Order
    decreases xs, xs.len() - i,
{
    if i < 0 || i >= xs.len() || i >= ys.len() {
        order_of(xs.len() as int, ys.len() as int)
    } else if cypher_order(xs[i], ys[i]) is Equal {
        list_order(xs, ys, i + 1)
    } else {
        cypher_order(xs[i], ys[i])
    }
}

fn order_u64(x: u64, y: u64) -> (r: Order)
    ensures
        r == order_of(x as int, y as int),
{
    if x < y {
        Order::Less
    } else if x == y {
        Order::Equal
    } else {
        Order::Greater
    }
}

fn order_i64(x: i64, y: i64) -> (r: Order)
    ensures
        r == order_of(x as int, y as int),
{
    if x < y {
        Order::Less
    } else if x == y {
        Order::Equal
    } else {
        Order::Greater
    }
}

fn type_rank(e: &Expression) -> (r: u64)
    ensures
        r == rank(*e),
{
    match e {
        Expression::Literal(l) => match l {
            Literal::Null => 100,
            Literal::String(_) => 5,
            Literal::Boolean(b) => if *b {
                7
            } else {
                6
            },
            Literal::Integer(_) => 8,
            Literal::Float(_) => 8,
        },
        Expression::MapLit(_) => 0,
        Expression::List(_) => 3,
        _ => 50,
    }
}

fn order_doubles(x: Option<u64>, y: Option<u64>) -> (r: Order)
    ensures
        r == double_order(x, y),
{
    match (x, y) {
        (Some(a), Some(b)) => {
            if a % 0x8000_0000_0000_0000 > 0x7ff0_0000_0000_0000 || b % 0x8000_0000_0000_0000
                > 0x7ff0_0000_0000_0000 {
                return Order::Equal;
            }
            let half: u64 = 0x8000_0000_0000_0000;
            if a < half && b < half {
                order_u64(a, b)
            } else if a >= half && b >= half {
                order_u64(b, a)
            } else if a < half {
                if a == 0 && b == half {
                    Order::Equal
                } else {
                    Order::Greater
                }
            } else {
                if b == 0 && a == half {
                    Order::Equal
                } else {
                    Order::Less
                }
            }
        },
        _ => Order::Equal,
    }
}

/// The bits of the double that a text is read as.
pub fn look_up(text: &str) -> (r: Option<u64>)
    ensures
        r == known(text@),
{
    proof {
        reveal(known);
    }
    match read_number(text) {
        Some(n) => Some(number_bits(n)),
        None => None,
    }
}

pub fn order_texts(x: &str, y: &str) -> (r: Order)
    ensures
        r == text_order(x@, y@, 0),
{
    let a = chars_of(x);
    let b = chars_of(y);
    let mut i: usize = 0;
    while i < a.len() && i < b.len()
        invariant
            a@ == x@,
            b@ == y@,
            i <= a@.len(),
            i <= b@.len(),
            text_order(x@, y@, 0) == text_order(x@, y@, i as int),
        decreases a@.len() - i,
    {
        if a[i] != b[i] {
            let c: char = a[i];
            let d: char = b[i];
            if c < d {
                return Order::Less;
            }
            return Order::Greater;
        }
        i = i + 1;
    }
    order_u64(a.len() as u64, b.len() as u64)
}

/// Orders two values.
pub fn cypher_compare(a: &Expression, b: &Expression) -> (r: Order)
    ensures
        r == cypher_order(*a, *b),
    decreases a,
{
    let ra = type_rank(a);
    let rb = type_rank(b);
    if ra != rb {
        return order_u64(ra, rb);
    }
    match (a, b) {
        (Expression::Literal(x), Expression::Literal(y)) => match (x, y) {
            (Literal::Integer(m), Literal::Integer(n)) => order_i64(*m, *n),
            (Literal::Float(f), Literal::Float(g)) => order_doubles(
                look_up(f.text.as_str()),
                look_up(g.text.as_str()),
            ),
            (Literal::Integer(n), Literal::Float(g)) => order_doubles(
                look_up(dec_i64(*n).as_str()),
                look_up(g.text.as_str()),
            ),
            (Literal::Float(f), Literal::Integer(n)) => order_doubles(
                look_up(f.text.as_str()),
                look_up(dec_i64(*n).as_str()),
            ),
            (Literal::String(s), Literal::String(t)) => order_texts(s.as_str(), t.as_str()),
            _ => Order::Equal,
        },
        (Expression::List(xs), Expression::List(ys)) => compare_lists(xs, ys),
        _ => Order::Equal,
    }
}

fn compare_lists(xs: &Vec<Expression>, ys: &Vec<Expression>) -> (r: Order)
    ensures
        r == list_order(xs@, ys@, 0),
    decreases xs,
{
    let mut i: usize = 0;
    #[verifier::loop_isolation(false)]
    while i < xs.len() && i < ys.len()
        invariant
            i <= xs@.len(),
            i <= ys@.len(),
            list_order(xs@, ys@, 0) == list_order(xs@, ys@, i as int),
        decreases xs@.len() - i,
    {
        let o = cypher_compare(&xs[i], &ys[i]);
        match o {
            Order::Equal => {},
            _ => {
                return o;
            },
        }
        i = i + 1;
    }
    order_u64(xs.len() as u64, ys.len() as u64)
}

} // verus!
