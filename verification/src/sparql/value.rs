//! What SPARQL expressions evaluate to.
use vstd::prelude::*;

#[allow(unused_imports)]
use crate::parser::lexical::{digit_value, i64_in, magnitude_in, number_in};
#[allow(unused_imports)]
use crate::sparql::algebra::Function;
#[allow(unused_imports)]
use crate::sparql::model as g;
#[allow(unused_imports)]
use crate::text::{contains_spec, dec, digit, digits, starts_with_spec};

verus! {

/// A value. `Unknown` is that of an unbound variable, and of an expression that
/// has none; a quotient is not rounded.
pub enum Value {
    Unknown,
    Truth(bool),
    Number(int),
    Quotient(int, int),
    Text(Seq<char>),
    Node(Seq<char>),
    Other(Seq<char>),
}

/// What the variables are bound to.
pub type Row = spec_fn(Seq<char>) -> Value;

/// The whole number that a text writes, with an optional sign.
pub open spec fn whole_in(s: Seq<char>) -> Option<int> {
    if s.len() > 0 && s[0] == '-' {
        match magnitude_in(s.skip(1), 10) {
            Some(n) => Some(-n),
            None => None,
        }
    } else if s.len() > 0 && s[0] == '+' {
        magnitude_in(s.skip(1), 10)
    } else {
        magnitude_in(s, 10)
    }
}

pub open spec fn literal_value(l: g::Literal) -> Value {
    if l.datatype is None {
        Value::Text(l.value)
    } else if l.datatype == Some("http://www.w3.org/2001/XMLSchema#integer"@) {
        match whole_in(l.value) {
            Some(n) => Value::Number(n),
            None => Value::Unknown,
        }
    } else if l.datatype == Some("http://www.w3.org/2001/XMLSchema#boolean"@) && l.value
        == "true"@ {
        Value::Truth(true)
    } else if l.datatype == Some("http://www.w3.org/2001/XMLSchema#boolean"@) && l.value
        == "false"@ {
        Value::Truth(false)
    } else {
        Value::Other(l.value)
    }
}

pub open spec fn either(a: Value, b: Value) -> Value {
    if a == Value::Truth(true) || b == Value::Truth(true) {
        Value::Truth(true)
    } else if a == Value::Truth(false) && b == Value::Truth(false) {
        Value::Truth(false)
    } else {
        Value::Unknown
    }
}

pub open spec fn both(a: Value, b: Value) -> Value {
    if a == Value::Truth(false) || b == Value::Truth(false) {
        Value::Truth(false)
    } else if a == Value::Truth(true) && b == Value::Truth(true) {
        Value::Truth(true)
    } else {
        Value::Unknown
    }
}

pub open spec fn opposite(a: Value) -> Value {
    match a {
        Value::Truth(b) => Value::Truth(!b),
        _ => Value::Unknown,
    }
}

/// Whether two values of one kind are equal.
pub open spec fn same(a: Value, b: Value) -> Value {
    match (a, b) {
        (Value::Number(x), Value::Number(y)) => Value::Truth(x == y),
        (Value::Truth(x), Value::Truth(y)) => Value::Truth(x == y),
        (Value::Text(x), Value::Text(y)) => Value::Truth(x == y),
        (Value::Node(x), Value::Node(y)) => Value::Truth(x == y),
        _ => Value::Unknown,
    }
}

/// Whether the first of two numbers is below the second.
pub open spec fn below(a: Value, b: Value) -> Value {
    match (a, b) {
        (Value::Number(x), Value::Number(y)) => Value::Truth(x < y),
        _ => Value::Unknown,
    }
}

pub open spec fn sum(a: Value, b: Value) -> Value {
    match (a, b) {
        (Value::Number(x), Value::Number(y)) => Value::Number(x + y),
        _ => Value::Unknown,
    }
}

pub open spec fn product(a: Value, b: Value) -> Value {
    match (a, b) {
        (Value::Number(x), Value::Number(y)) => Value::Number(x * y),
        _ => Value::Unknown,
    }
}

pub open spec fn negative(a: Value) -> Value {
    match a {
        Value::Number(x) => Value::Number(-x),
        _ => Value::Unknown,
    }
}

pub open spec fn ratio(a: Value, b: Value) -> Value {
    match (a, b) {
        (Value::Number(x), Value::Number(y)) => if y == 0 {
            Value::Unknown
        } else {
            Value::Quotient(x, y)
        },
        _ => Value::Unknown,
    }
}

/// A number without its fraction, rounded down.
pub open spec fn floor(a: Value) -> Value {
    match a {
        Value::Number(x) => a,
        Value::Quotient(x, y) => Value::Number(
            if y > 0 {
                x / y
            } else {
                (-x) / (-y)
            },
        ),
        _ => Value::Unknown,
    }
}

pub open spec fn datatype(a: Value) -> Value {
    match a {
        Value::Truth(_) => Value::Node("http://www.w3.org/2001/XMLSchema#boolean"@),
        Value::Number(_) => Value::Node("http://www.w3.org/2001/XMLSchema#integer"@),
        Value::Text(_) => Value::Node("http://www.w3.org/2001/XMLSchema#string"@),
        _ => Value::Unknown,
    }
}

pub open spec fn is_literal(a: Value) -> Value {
    match a {
        Value::Unknown => Value::Unknown,
        Value::Node(_) => Value::Truth(false),
        _ => Value::Truth(true),
    }
}

/// The text of a value.
pub open spec fn text_of(a: Value) -> Value {
    match a {
        Value::Text(_) => a,
        Value::Number(n) => Value::Text(dec(n)),
        _ => Value::Unknown,
    }
}

/// The whole number that a value is converted to.
pub open spec fn whole(a: Value) -> Value {
    match a {
        Value::Number(_) => a,
        Value::Truth(b) => Value::Number(
            if b {
                1
            } else {
                0
            },
        ),
        _ => Value::Unknown,
    }
}

/// What a text ends with.
pub open spec fn ends_with(s: Seq<char>, p: Seq<char>) -> bool {
    p.len() <= s.len() && s.skip(s.len() - p.len()) == p
}

/// What a function of two texts gives.
pub open spec fn on_texts(f: Function, a: Value, b: Value) -> Value {
    match (a, b) {
        (Value::Text(x), Value::Text(y)) => match f {
            Function::StrStarts => Value::Truth(starts_with_spec(x, y)),
            Function::StrEnds => Value::Truth(ends_with(x, y)),
            Function::Contains => Value::Truth(contains_spec(x, y)),
            Function::Concat => Value::Text(x + y),
            _ => Value::Unknown,
        },
        _ => Value::Unknown,
    }
}

/// What an expression evaluates to.
pub open spec fn eval(e: g::Expr, row: Row) -> Value
    decreases e,
{
    match e {
        g::Expr::NamedNode(n) => Value::Node(n),
        g::Expr::Literal(l) => literal_value(l),
        g::Expr::Variable(v) => row(v),
        g::Expr::Or(a, b) => either(eval(*a, row), eval(*b, row)),
        g::Expr::And(a, b) => both(eval(*a, row), eval(*b, row)),
        g::Expr::Not(a) => opposite(eval(*a, row)),
        g::Expr::Equal(a, b) => same(eval(*a, row), eval(*b, row)),
        g::Expr::Less(a, b) => below(eval(*a, row), eval(*b, row)),
        g::Expr::Greater(a, b) => below(eval(*b, row), eval(*a, row)),
        g::Expr::LessOrEqual(a, b) => opposite(below(eval(*b, row), eval(*a, row))),
        g::Expr::GreaterOrEqual(a, b) => opposite(below(eval(*a, row), eval(*b, row))),
        g::Expr::In(a, v) => among(eval(*a, row), v, v.len() as int, row),
        g::Expr::Add(a, b) => sum(eval(*a, row), eval(*b, row)),
        g::Expr::Subtract(a, b) => sum(eval(*a, row), negative(eval(*b, row))),
        g::Expr::Multiply(a, b) => product(eval(*a, row), eval(*b, row)),
        g::Expr::Divide(a, b) => ratio(eval(*a, row), eval(*b, row)),
        g::Expr::UnaryMinus(a) => negative(eval(*a, row)),
        g::Expr::Bound(v) => Value::Truth(!(row(v) is Unknown)),
        g::Expr::If(c, a, b) => match eval(*c, row) {
            Value::Truth(t) => if t {
                eval(*a, row)
            } else {
                eval(*b, row)
            },
            _ => Value::Unknown,
        },
        g::Expr::Call(f, args) => if args.len() == 1 {
            match f {
                Function::IsLiteral => is_literal(eval(args[0], row)),
                Function::Datatype => datatype(eval(args[0], row)),
                Function::Str => text_of(eval(args[0], row)),
                Function::Floor => floor(eval(args[0], row)),
                _ => Value::Unknown,
            }
        } else if args.len() == 2 {
            on_texts(f, eval(args[0], row), eval(args[1], row))
        } else {
            Value::Unknown
        },
        g::Expr::CustomCall(f, args) => if f == "http://www.w3.org/2001/XMLSchema#integer"@
            && args.len() == 1 {
            whole(eval(args[0], row))
        } else {
            Value::Unknown
        },
        _ => Value::Unknown,
    }
}

/// Whether a value is equal to one of the first `k` of several.
pub open spec fn among(x: Value, v: Seq<g::Expr>, k: int, row: Row) -> Value
    decreases v, k,
{
    if k <= 0 || k > v.len() {
        Value::Truth(false)
    } else {
        either(among(x, v, k - 1, row), same(x, eval(v[k - 1], row)))
    }
}

// ── Numbers as texts ─────────────────────────────────────────────────────────

pub proof fn lemma_digits_read(n: nat)
    ensures
        digits(n).len() > 0,
        '0' <= digits(n)[0] <= '9',
        number_in(digits(n), 10) == Some(n as int),
    decreases n,
{
    if n >= 10 {
        lemma_digits_read(n / 10);
        let s = digits(n / 10);
        let c = digit((n % 10) as int);
        assert(s.push(c).drop_last() =~= s);
        assert(digit_value(c) == n % 10);
        assert(number_in(s.push(c), 10) == Some((n / 10) * 10 + digit_value(c)));
    } else {
        let c = digit(n as int);
        assert(seq![c].drop_last() =~= Seq::<char>::empty());
        assert(digit_value(c) == n);
        assert(number_in(Seq::<char>::empty(), 10) == Some(0int));
    }
}

/// The decimal text of a whole number is read as the number.
pub proof fn law_decimal_text_is_read(n: int)
    ensures
        whole_in(dec(n)) == Some(n),
{
    if n < 0 {
        lemma_digits_read((-n) as nat);
        reveal_strlit("-");
        assert(dec(n).skip(1) =~= digits((-n) as nat));
    } else {
        lemma_digits_read(n as nat);
    }
}

proof fn lemma_not_negative(s: Seq<char>)
    ensures
        number_in(s, 10) matches Some(n) ==> n >= 0,
    decreases s.len(),
{
    if s.len() > 0 {
        lemma_not_negative(s.drop_last());
    }
}

/// A text that is read as a 64-bit number is read as that number.
pub proof fn lemma_i64_read(s: Seq<char>)
    ensures
        i64_in(s, 10) matches Some(n) ==> whole_in(s) == Some(n as int),
{
    lemma_not_negative(s);
    if s.len() > 0 {
        lemma_not_negative(s.skip(1));
    }
}

} // verus!
