//! The law of values: a translated expression evaluates to what the expression
//! means.
use vstd::prelude::*;

#[allow(unused_imports)]
use crate::ast::cypher::CompOp;
#[allow(unused_imports)]
use crate::ast::model as m;
#[allow(unused_imports)]
use crate::sparql::algebra::Function;
#[allow(unused_imports)]
use crate::sparql::model as g;
#[allow(unused_imports)]
use crate::sparql::value::{
    eval, law_decimal_text_is_read, lemma_digits_read, lemma_i64_read, Row, Value,
};
#[allow(unused_imports)]
use crate::text::{contains_spec, dec, starts_with_spec};
#[allow(unused_imports)]
use crate::translator::expr::meaning as w;
#[allow(unused_imports)]
use crate::translator::expr::parts::{
    arith, computed, folded, list_or_sum, literal_number, negative_of, ordered, quotient, related,
    string_test, Arith,
};
#[allow(unused_imports)]
use crate::translator::formula::{integer, quoted};
#[allow(unused_imports)]
use crate::translator::known::literal_equal;
#[allow(unused_imports)]
use crate::translator::laws::growth::{grows, law_translation_only_adds};
#[allow(unused_imports)]
use crate::translator::scope::{knows_nothing, Out, Scope};

verus! {

// ── What expressions mean ────────────────────────────────────────────────────

/// The properties of what the variables are bound to, by the variable and the IRI
/// of the property.
pub type Graph = spec_fn(Seq<char>, Seq<char>) -> Value;

/// Null, where one of two values is null; nothing where they are no numbers.
pub open spec fn on_numbers(a: Value, b: Value, f: spec_fn(int, int) -> Value) -> Option<Value> {
    match (a, b) {
        (Value::Number(x), Value::Number(y)) => Some(f(x, y)),
        (Value::Unknown, Value::Number(_)) => Some(Value::Unknown),
        (Value::Number(_), Value::Unknown) => Some(Value::Unknown),
        (Value::Unknown, Value::Unknown) => Some(Value::Unknown),
        _ => None,
    }
}

/// A truth value as a number, by which it is ordered: false comes before true.
pub open spec fn place(a: Value) -> Value {
    match a {
        Value::Truth(b) => Value::Number(
            if b {
                1
            } else {
                0
            },
        ),
        _ => a,
    }
}

/// What a comparison of two values gives; nothing where they are not of one kind.
pub open spec fn compared(a: Value, op: CompOp, b: Value) -> Option<Value> {
    match op {
        CompOp::Lt => on_numbers(place(a), place(b), |x: int, y: int| Value::Truth(x < y)),
        CompOp::Le => on_numbers(place(a), place(b), |x: int, y: int| Value::Truth(x <= y)),
        CompOp::Gt => on_numbers(place(a), place(b), |x: int, y: int| Value::Truth(x > y)),
        CompOp::Ge => on_numbers(place(a), place(b), |x: int, y: int| Value::Truth(x >= y)),
        CompOp::Eq => equality(a, b, true),
        CompOp::Ne => equality(a, b, false),
        CompOp::StartsWith => match (a, b) {
            (Value::Text(x), Value::Text(y)) => if is_plain(x) && is_plain(y) {
                Some(Value::Truth(y.len() <= x.len() && x.take(y.len() as int) == y))
            } else {
                None
            },
            _ => None,
        },
        CompOp::EndsWith => match (a, b) {
            (Value::Text(x), Value::Text(y)) => if is_plain(x) && is_plain(y) {
                Some(Value::Truth(y.len() <= x.len() && x.skip(x.len() - y.len()) == y))
            } else {
                None
            },
            _ => None,
        },
        CompOp::Contains => match (a, b) {
            (Value::Text(x), Value::Text(y)) => if is_plain(x) && is_plain(y) {
                Some(
                    Value::Truth(
                        exists|i: int|
                            0 <= i && i + y.len() <= x.len() && #[trigger] x.subrange(
                                i,
                                i + y.len(),
                            ) == y,
                    ),
                )
            } else {
                None
            },
            _ => None,
        },
        _ => None,
    }
}

/// Whether a text is that of no list and no map.
pub open spec fn is_plain(t: Seq<char>) -> bool {
    t.len() == 0 || (t[0] != '[' && t[0] != '{')
}

/// Whether two values are equal, or whether they are not.
pub open spec fn equality(a: Value, b: Value, wanted: bool) -> Option<Value> {
    match (a, b) {
        (Value::Number(x), Value::Number(y)) => Some(Value::Truth((x == y) == wanted)),
        (Value::Truth(x), Value::Truth(y)) => Some(Value::Truth((x == y) == wanted)),
        (Value::Text(x), Value::Text(y)) => Some(Value::Truth((x == y) == wanted)),
        _ => None,
    }
}

/// Whether a value is a truth value, or null.
pub open spec fn is_truth(a: Value) -> bool {
    a is Truth || a is Unknown
}

/// `AND`: false where one side is, true where both are, else null.
pub open spec fn conjunction(a: Value, b: Value) -> Option<Value> {
    if !is_truth(a) || !is_truth(b) {
        None
    } else if a == Value::Truth(false) || b == Value::Truth(false) {
        Some(Value::Truth(false))
    } else if a is Unknown || b is Unknown {
        Some(Value::Unknown)
    } else {
        Some(Value::Truth(true))
    }
}

/// `OR`: true where one side is, false where both are, else null.
pub open spec fn disjunction(a: Value, b: Value) -> Option<Value> {
    if !is_truth(a) || !is_truth(b) {
        None
    } else if a == Value::Truth(true) || b == Value::Truth(true) {
        Some(Value::Truth(true))
    } else if a is Unknown || b is Unknown {
        Some(Value::Unknown)
    } else {
        Some(Value::Truth(false))
    }
}

/// `XOR`: true where just one side is; null where one is null.
pub open spec fn exclusion(a: Value, b: Value) -> Option<Value> {
    match (a, b) {
        (Value::Truth(x), Value::Truth(y)) => Some(Value::Truth(x != y)),
        (Value::Unknown, Value::Truth(_)) => Some(Value::Unknown),
        (Value::Truth(_), Value::Unknown) => Some(Value::Unknown),
        (Value::Unknown, Value::Unknown) => Some(Value::Unknown),
        _ => None,
    }
}

pub open spec fn negation(a: Value) -> Option<Value> {
    match a {
        Value::Truth(b) => Some(Value::Truth(!b)),
        Value::Unknown => Some(Value::Unknown),
        _ => None,
    }
}

/// Whether an expression is written as an order of two values.
pub open spec fn is_order_of(e: m::Expression) -> bool {
    e matches m::Expression::Comparison(_, op, _) && (op is Lt || op is Le || op is Gt || op is Ge)
}

/// Whether an expression is written as `a < b < c`.
pub open spec fn is_chain(e: m::Expression) -> bool {
    is_order_of(e) && (e matches m::Expression::Comparison(_, _, b) && is_order_of(*b))
}

/// Whether an expression is such, or is negated such.
pub open spec fn is_chain_or_not(e: m::Expression) -> bool
    decreases e,
{
    match e {
        m::Expression::Not(a) => is_chain_or_not(*a),
        _ => is_chain(e),
    }
}

/// What a Cypher expression means where the variables are bound as `row` says, for
/// truth values, whole numbers and texts, and the operators on these. Nothing is said
/// of any other expression, nor of operands of the wrong kind.
pub open spec fn meaning(e: m::Expression, base: Seq<char>, row: Row, graph: Graph) -> Option<Value>
    decreases e,
{
    match e {
        m::Expression::Variable(v) => Some(row(v)),
        m::Expression::Property(n, key) => match *n {
            m::Expression::Variable(v) => Some(graph(v, base + key)),
            _ => None,
        },
        m::Expression::Literal(l) => match l {
            m::Literal::Integer(n) => Some(Value::Number(n as int)),
            m::Literal::Boolean(b) => Some(Value::Truth(b)),
            m::Literal::String(t) => Some(Value::Text(t)),
            _ => None,
        },
        m::Expression::And(a, b) => match (
            meaning(*a, base, row, graph),
            meaning(*b, base, row, graph),
        ) {
            (Some(x), Some(y)) => conjunction(x, y),
            _ => None,
        },
        m::Expression::Or(a, b) => match (
            meaning(*a, base, row, graph),
            meaning(*b, base, row, graph),
        ) {
            (Some(x), Some(y)) => disjunction(x, y),
            _ => None,
        },
        m::Expression::Xor(a, b) => match (
            meaning(*a, base, row, graph),
            meaning(*b, base, row, graph),
        ) {
            (Some(x), Some(y)) => exclusion(x, y),
            _ => None,
        },
        m::Expression::Not(a) => match meaning(*a, base, row, graph) {
            Some(x) => negation(x),
            None => None,
        },
        m::Expression::IsNull(a) => match meaning(*a, base, row, graph) {
            Some(x) => if is_chain_or_not(*a) {
                None
            } else {
                Some(Value::Truth(x is Unknown))
            },
            None => None,
        },
        m::Expression::IsNotNull(a) => match meaning(*a, base, row, graph) {
            Some(x) => if is_chain_or_not(*a) {
                None
            } else {
                Some(Value::Truth(!(x is Unknown)))
            },
            None => None,
        },
        m::Expression::Comparison(a, op, b) => if is_chain(e) {
            // `a < b < c` holds where both comparisons do.
            let middle = *b->Comparison_0;
            if is_order_of(middle) {
                None
            } else {
                match (
                    meaning(*a, base, row, graph),
                    meaning(middle, base, row, graph),
                    meaning(*b, base, row, graph),
                ) {
                    (Some(x), Some(y), Some(z)) => match compared(x, op, y) {
                        Some(first) => conjunction(first, z),
                        None => None,
                    },
                    _ => None,
                }
            }
        } else {
            match (meaning(*a, base, row, graph), meaning(*b, base, row, graph)) {
                (Some(x), Some(y)) => compared(x, op, y),
                _ => None,
            }
        },
        m::Expression::Add(a, b) => match (
            meaning(*a, base, row, graph),
            meaning(*b, base, row, graph),
        ) {
            (Some(Value::Text(x)), Some(Value::Text(y))) => if is_text(*a) || is_text(*b) {
                Some(Value::Text(x + y))
            } else {
                None
            },
            (Some(Value::Number(x)), Some(Value::Number(y))) => Some(Value::Number(x + y)),
            _ => None,
        },
        m::Expression::Subtract(a, b) => match (
            meaning(*a, base, row, graph),
            meaning(*b, base, row, graph),
        ) {
            (Some(x), Some(y)) => on_numbers(x, y, |p: int, q: int| Value::Number(p - q)),
            _ => None,
        },
        m::Expression::Multiply(a, b) => match (
            meaning(*a, base, row, graph),
            meaning(*b, base, row, graph),
        ) {
            (Some(x), Some(y)) => on_numbers(x, y, |p: int, q: int| Value::Number(p * q)),
            _ => None,
        },
        m::Expression::Divide(a, b) => match (
            meaning(*a, base, row, graph),
            meaning(*b, base, row, graph),
        ) {
            (Some(Value::Number(x)), Some(Value::Number(y))) => if x >= 0 && y > 0
                && is_whole(*b) {
                Some(Value::Number(x / y))
            } else {
                None
            },
            _ => None,
        },
        m::Expression::Modulo(a, b) => match (
            meaning(*a, base, row, graph),
            meaning(*b, base, row, graph),
        ) {
            (Some(Value::Number(x)), Some(Value::Number(y))) => if x >= 0 && y > 0 {
                Some(Value::Number(x % y))
            } else {
                None
            },
            _ => None,
        },
        m::Expression::Negate(a) => match meaning(*a, base, row, graph) {
            Some(Value::Number(x)) => Some(Value::Number(-x)),
            _ => None,
        },
        _ => None,
    }
}

pub open spec fn is_text(e: m::Expression) -> bool {
    e matches m::Expression::Literal(m::Literal::String(_))
}

pub open spec fn is_whole(e: m::Expression) -> bool {
    e matches m::Expression::Literal(m::Literal::Integer(_))
}

/// Whether a row binds the variables as what is left to do asks for: the object of a
/// triple with a property to the property of its subject, and the targets to the
/// values of what is checked.
pub open spec fn binds(row: Row, graph: Graph, o: Out) -> bool {
    &&& forall|i: int|
        0 <= i < o.extra.len() ==> (#[trigger] o.extra[i] matches g::TriplePattern {
            subject: g::Term::Variable(v),
            predicate: g::Predicate::NamedNode(p),
            object: g::Term::Variable(x),
        } ==> row(x) == graph(v, p))
    &&& forall|i: int|
        0 <= i < o.checks.len() && i < o.targets.len() ==> row(o.targets[i]) == eval(
            #[trigger] o.checks[i],
            row,
        )
}

// ── Parts ────────────────────────────────────────────────────────────────────

pub proof fn lemma_fewer_bound(row: Row, graph: Graph, o: Out, p: Out)
    requires
        grows(o, p),
        binds(row, graph, p),
        o.checks.len() == o.targets.len(),
    ensures
        binds(row, graph, o),
        p.checks.len() == p.targets.len(),
{
    reveal(grows);
    assert forall|i: int| 0 <= i < o.extra.len() implies (#[trigger] o.extra[i] matches
        g::TriplePattern {
        subject: g::Term::Variable(v),
        predicate: g::Predicate::NamedNode(q),
        object: g::Term::Variable(x),
    } ==> row(x) == graph(v, q)) by {
        assert(p.extra[i] == o.extra[i]);
    }
    assert forall|i: int| 0 <= i < o.checks.len() && i < o.targets.len() implies row(o.targets[i])
        == eval(#[trigger] o.checks[i], row) by {
        assert(p.checks[i] == o.checks[i]);
        assert(p.targets[i] == o.targets[i]);
    }
}

/// An operand of an order evaluates to its place.
proof fn lemma_ordered(x: g::Expr, row: Row)
    requires
        eval(x, row) is Number || eval(x, row) is Truth || eval(x, row) is Unknown,
    ensures
        eval(ordered(x), row) == place(eval(x, row)),
{
    reveal_with_fuel(eval, 5);
    let v = eval(x, row);
    let one = g::Expr::Call(Function::IsLiteral, seq![x]);
    let two = g::Expr::Call(Function::Datatype, seq![x]);
    let kind = g::Expr::NamedNode("http://www.w3.org/2001/XMLSchema#boolean"@);
    let same = g::Expr::Equal(Box::new(two), Box::new(kind));
    let test = g::Expr::And(Box::new(one), Box::new(same));
    assert(seq![x][0] == x);
    assert(eval(one, row) == crate::sparql::value::is_literal(v));
    assert(eval(two, row) == crate::sparql::value::datatype(v));
    lemma_kinds_differ();
    assert(eval(same, row) == crate::sparql::value::same(
        crate::sparql::value::datatype(v),
        Value::Node("http://www.w3.org/2001/XMLSchema#boolean"@),
    ));
    assert(eval(test, row) == crate::sparql::value::both(eval(one, row), eval(same, row)));
    let number = g::Expr::CustomCall("http://www.w3.org/2001/XMLSchema#integer"@, seq![x]);
    assert(eval(number, row) == crate::sparql::value::whole(v));
    assert(ordered(x) == g::Expr::If(Box::new(test), Box::new(number), Box::new(x)));
}

proof fn lemma_kinds_differ()
    ensures
        "http://www.w3.org/2001/XMLSchema#boolean"@ != "http://www.w3.org/2001/XMLSchema#integer"@,
        "http://www.w3.org/2001/XMLSchema#boolean"@ != "http://www.w3.org/2001/XMLSchema#string"@,
        "http://www.w3.org/2001/XMLSchema#integer"@ != "http://www.w3.org/2001/XMLSchema#string"@,
        "true"@ != "false"@,
{
    reveal_strlit("http://www.w3.org/2001/XMLSchema#boolean");
    reveal_strlit("http://www.w3.org/2001/XMLSchema#integer");
    reveal_strlit("http://www.w3.org/2001/XMLSchema#string");
    reveal_strlit("true");
    reveal_strlit("false");
    assert("true"@.len() == 4 && "false"@.len() == 5);
    assert("http://www.w3.org/2001/XMLSchema#boolean"@[33] == 'b');
    assert("http://www.w3.org/2001/XMLSchema#integer"@[33] == 'i');
    assert("http://www.w3.org/2001/XMLSchema#string"@[33] == 's');
}

/// A comparison of translated operands evaluates to what the comparison of their
/// values gives.
proof fn lemma_related(op: CompOp, x: g::Expr, y: g::Expr, row: Row)
    requires
        op is Lt || op is Le || op is Gt || op is Ge || op is Eq || op is Ne,
        compared(eval(x, row), op, eval(y, row)) is Some,
    ensures
        eval(related(op, x, y), row) == compared(eval(x, row), op, eval(y, row))->0,
{
    reveal_with_fuel(eval, 3);
    if !(op is Eq) && !(op is Ne) {
        lemma_ordered(x, row);
        lemma_ordered(y, row);
    }
}

proof fn lemma_first_char(t: Seq<char>, p: Seq<char>)
    requires
        p.len() == 1,
    ensures
        starts_with_spec(t, p) == (t.len() > 0 && t[0] == p[0]),
{
    if t.len() > 0 {
        assert(t.take(1)[0] == t[0]);
        if t[0] == p[0] {
            assert(t.take(1) =~= p);
        }
    }
}

proof fn lemma_and(x: g::Expr, y: g::Expr, row: Row)
    ensures
        eval(g::Expr::And(Box::new(x), Box::new(y)), row) == crate::sparql::value::both(
            eval(x, row),
            eval(y, row),
        ),
{
}

proof fn lemma_or(x: g::Expr, y: g::Expr, row: Row)
    ensures
        eval(g::Expr::Or(Box::new(x), Box::new(y)), row) == crate::sparql::value::either(
            eval(x, row),
            eval(y, row),
        ),
{
}

proof fn lemma_not(x: g::Expr, row: Row)
    ensures
        eval(g::Expr::Not(Box::new(x)), row) == crate::sparql::value::opposite(eval(x, row)),
{
}

proof fn lemma_has_kind(x: g::Expr, row: Row)
    requires
        eval(x, row) is Text,
    ensures
        eval(g::Expr::Call(Function::IsLiteral, seq![x]), row) == Value::Truth(true),
        eval(
            g::Expr::Equal(
                Box::new(g::Expr::Call(Function::Datatype, seq![x])),
                Box::new(g::Expr::NamedNode("http://www.w3.org/2001/XMLSchema#string"@)),
            ),
            row,
        ) == Value::Truth(true),
{
    assert(seq![x][0] == x);
    let two = g::Expr::Call(Function::Datatype, seq![x]);
    assert(eval(two, row) == Value::Node("http://www.w3.org/2001/XMLSchema#string"@));
    let kind = g::Expr::NamedNode("http://www.w3.org/2001/XMLSchema#string"@);
    assert(eval(kind, row) == Value::Node("http://www.w3.org/2001/XMLSchema#string"@));
}

proof fn lemma_starts(x: g::Expr, p: Seq<char>, row: Row)
    requires
        eval(x, row) is Text,
    ensures
        eval(g::Expr::Call(Function::StrStarts, seq![x, quoted(p)]), row) == Value::Truth(
            starts_with_spec(eval(x, row)->Text_0, p),
        ),
{
    let args = seq![x, quoted(p)];
    assert(args[0] == x && args[1] == quoted(p));
    assert(eval(quoted(p), row) == Value::Text(p));
}

proof fn lemma_plain_string(x: g::Expr, row: Row)
    requires
        eval(x, row) is Text,
        is_plain(eval(x, row)->Text_0),
    ensures
        eval(crate::translator::expr::parts::is_plain_string(x), row) == Value::Truth(true),
{
    let t = eval(x, row)->Text_0;
    reveal_strlit("[");
    reveal_strlit("{");
    lemma_first_char(t, "["@);
    lemma_first_char(t, "{"@);
    lemma_has_kind(x, row);
    lemma_starts(x, "["@, row);
    lemma_starts(x, "{"@, row);
    let one = g::Expr::Call(Function::IsLiteral, seq![x]);
    let two = g::Expr::Equal(
        Box::new(g::Expr::Call(Function::Datatype, seq![x])),
        Box::new(g::Expr::NamedNode("http://www.w3.org/2001/XMLSchema#string"@)),
    );
    let list = g::Expr::Call(Function::StrStarts, seq![x, quoted("["@)]);
    let map = g::Expr::Call(Function::StrStarts, seq![x, quoted("{"@)]);
    let both = g::Expr::And(Box::new(one), Box::new(two));
    let three = g::Expr::And(Box::new(both), Box::new(g::Expr::Not(Box::new(list))));
    lemma_not(list, row);
    lemma_not(map, row);
    lemma_and(one, two, row);
    lemma_and(both, g::Expr::Not(Box::new(list)), row);
    lemma_and(three, g::Expr::Not(Box::new(map)), row);
    assert(crate::translator::expr::parts::is_plain_string(x) == g::Expr::And(
        Box::new(three),
        Box::new(g::Expr::Not(Box::new(map))),
    ));
}

proof fn lemma_string_test(op: CompOp, x: g::Expr, y: g::Expr, null: Seq<char>, row: Row)
    requires
        op is StartsWith || op is EndsWith || op is Contains,
        compared(eval(x, row), op, eval(y, row)) is Some,
    ensures
        eval(string_test(op, x, y, null), row) == compared(eval(x, row), op, eval(y, row))->0,
{
    reveal_with_fuel(eval, 3);
    lemma_plain_string(x, row);
    lemma_plain_string(y, row);
    let f = crate::translator::expr::parts::string_function(op);
    let call = g::Expr::Call(f, seq![x, y]);
    assert(seq![x, y][0] == x && seq![x, y][1] == y);
    assert(eval(call, row) == crate::sparql::value::on_texts(f, eval(x, row), eval(y, row)));
    let s = eval(x, row)->Text_0;
    let p = eval(y, row)->Text_0;
    if op is Contains {
        assert(contains_spec(s, p) == exists|i: int|
            0 <= i && i + p.len() <= s.len() && #[trigger] s.subrange(i, i + p.len()) == p) by {
            if contains_spec(s, p) {
                let i = choose|i: int| crate::text::occurs_at(s, p, i);
                assert(s.subrange(i, i + p.len()) == p);
            }
            if exists|i: int|
                0 <= i && i + p.len() <= s.len() && #[trigger] s.subrange(i, i + p.len()) == p {
                let i = choose|i: int|
                    0 <= i && i + p.len() <= s.len() && #[trigger] s.subrange(i, i + p.len()) == p;
                assert(crate::text::occurs_at(s, p, i));
            }
        }
    }
}

/// The text of an integer is read as it.
proof fn lemma_integer(n: int, row: Row)
    ensures
        eval(integer(n), row) == Value::Number(n),
{
    law_decimal_text_is_read(n);
}

/// A literal that is taken for a number is one.
proof fn lemma_literal_number(x: g::Expr, row: Row)
    ensures
        literal_number(x) matches Some(n) ==> eval(x, row) == Value::Number(n as int),
{
    if let g::Expr::Literal(l) = x {
        lemma_i64_read(l.value);
    }
}

proof fn lemma_quotient(p: int, q: int)
    requires
        p >= 0,
        q > 0,
    ensures
        quotient(p, q) == p / q,
        p - quotient(p, q) * q == p % q,
{
    vstd::arithmetic::div_mod::lemma_fundamental_div_mod(p, q);
    assert((p / q) * q == q * (p / q)) by (nonlinear_arith);
}

/// What arithmetic on two numbers gives.
pub open spec fn calculated(op: Arith, p: int, q: int) -> int {
    match op {
        Arith::Add => p + q,
        Arith::Subtract => p - q,
        Arith::Multiply => p * q,
        Arith::Divide => p / q,
        Arith::Modulo => p % q,
    }
}

/// Arithmetic evaluates to the result, whether it was carried out before or not.
proof fn lemma_arith(op: Arith, x: g::Expr, y: g::Expr, row: Row)
    requires
        eval(x, row) is Number,
        eval(y, row) is Number,
        op is Divide || op is Modulo ==> eval(x, row)->Number_0 >= 0 && eval(y, row)->Number_0 > 0,
        op is Divide ==> (y matches g::Expr::Literal(l) && crate::parser::lexical::i64_in(
            l.value,
            10,
        ) is Some),
    ensures
        eval(arith(op, x, y), row) == Value::Number(
            calculated(op, eval(x, row)->Number_0, eval(y, row)->Number_0),
        ),
{
    reveal_with_fuel(eval, 4);
    let p = eval(x, row)->Number_0;
    let q = eval(y, row)->Number_0;
    lemma_literal_number(x, row);
    lemma_literal_number(y, row);
    if op is Divide || op is Modulo {
        lemma_quotient(p, q);
    }
    if folded(op, x, y) is Some {
        lemma_integer(computed(op, p, q)->0, row);
    } else {
        let d = g::Expr::Divide(Box::new(x), Box::new(y));
        let f = g::Expr::Call(Function::Floor, seq![d]);
        assert(seq![d][0] == d);
        if op is Divide || op is Modulo {
            assert(eval(d, row) == Value::Quotient(p, q));
            assert(eval(f, row) == Value::Number(p / q));
        }
        if op is Divide {
            assert(!(x is Divide));
            assert(arith(op, x, y) == f);
        }
        if op is Modulo {
            let t = g::Expr::Multiply(Box::new(f), Box::new(y));
            assert(eval(t, row) == Value::Number((p / q) * q));
            assert(arith(op, x, y) == g::Expr::Subtract(Box::new(x), Box::new(t)));
        }
    }
}

proof fn lemma_arith_unknown(op: Arith, x: g::Expr, y: g::Expr, row: Row)
    requires
        op is Subtract || op is Multiply,
        eval(x, row) is Unknown || eval(y, row) is Unknown,
    ensures
        eval(arith(op, x, y), row) is Unknown,
{
    reveal_with_fuel(eval, 3);
    lemma_literal_number(x, row);
    lemma_literal_number(y, row);
}

proof fn lemma_list_or_sum(x: g::Expr, y: g::Expr, row: Row)
    requires
        eval(x, row) is Number,
        eval(y, row) is Number,
    ensures
        eval(list_or_sum(x, y), row) == Value::Number(
            eval(x, row)->Number_0 + eval(y, row)->Number_0,
        ),
{
    reveal_with_fuel(eval, 4);
    let p = eval(x, row)->Number_0;
    reveal_strlit("[");
    reveal_strlit("-");
    lemma_first_char(dec(p), "["@);
    if p < 0 {
        lemma_digits_read((-p) as nat);
        assert(dec(p)[0] == '-');
    } else {
        lemma_digits_read(p as nat);
    }
    let text = g::Expr::Call(Function::Str, seq![x]);
    assert(seq![x][0] == x);
    assert(eval(text, row) == Value::Text(dec(p)));
    let args = seq![text, quoted("["@)];
    assert(args[0] == text && args[1] == quoted("["@));
    let test = g::Expr::Call(Function::StrStarts, args);
    assert(eval(test, row) == Value::Truth(false));
    let total = g::Expr::Add(Box::new(x), Box::new(y));
    assert(eval(total, row) == Value::Number(p + eval(y, row)->Number_0));
}

proof fn lemma_concatenated(x: g::Expr, y: g::Expr, row: Row)
    requires
        eval(x, row) is Text,
        eval(y, row) is Text,
    ensures
        eval(crate::translator::expr::parts::concatenated(x, y), row) == Value::Text(
            eval(x, row)->Text_0 + eval(y, row)->Text_0,
        ),
{
    reveal_with_fuel(eval, 3);
    let a = g::Expr::Call(Function::Str, seq![x]);
    let b = g::Expr::Call(Function::Str, seq![y]);
    assert(seq![x][0] == x && seq![y][0] == y);
    assert(seq![a, b][0] == a && seq![a, b][1] == b);
}

proof fn lemma_negative_of(x: g::Expr, row: Row)
    requires
        eval(x, row) is Number,
    ensures
        eval(negative_of(x), row) == Value::Number(-eval(x, row)->Number_0),
{
    reveal_with_fuel(eval, 2);
    lemma_literal_number(x, row);
    if let g::Expr::Literal(l) = x {
        lemma_i64_read(l.value);
        lemma_kinds_differ();
        if let Some(n) = crate::parser::lexical::i64_in(l.value, 10) {
            lemma_integer(-n, row);
        }
        lemma_double_kind();
    }
}

proof fn lemma_double_kind()
    ensures
        "http://www.w3.org/2001/XMLSchema#double"@ != "http://www.w3.org/2001/XMLSchema#integer"@,
{
    reveal_strlit("http://www.w3.org/2001/XMLSchema#double");
    reveal_strlit("http://www.w3.org/2001/XMLSchema#integer");
    assert("http://www.w3.org/2001/XMLSchema#double"@[33] == 'd');
    assert("http://www.w3.org/2001/XMLSchema#integer"@[33] == 'i');
}

// ── Cases ────────────────────────────────────────────────────────────────────

/// That an expression, where it is translated and its meaning is told, evaluates to
/// it.
#[verifier::opaque]
pub open spec fn is_kept(
    e: m::Expression,
    s: Scope,
    o: Out,
    depth: nat,
    row: Row,
    graph: Graph,
) -> bool {
    let t = w::translated(e, s, o, depth);
    o.checks.len() == o.targets.len() && t.result is Ok && binds(row, graph, t.out) && meaning(
        e,
        s.base_iri@,
        row,
        graph,
    ) is Some ==> eval(t.result->Ok_0, row) == meaning(e, s.base_iri@, row, graph)->0
}

proof fn lemma_even(o: Out, p: Out)
    requires
        grows(o, p),
        o.checks.len() == o.targets.len(),
    ensures
        p.checks.len() == p.targets.len(),
{
    reveal(grows);
}

proof fn kept_leaf(e: m::Expression, s: Scope, o: Out, depth: nat, row: Row, graph: Graph)
    requires
        knows_nothing(s),
        e is Variable || e is Property || e is Literal,
    ensures
        is_kept(e, s, o, depth, row, graph),
{
    reveal(is_kept);
    if depth > 0 {
        match e {
            m::Expression::Property(n, key) => {
                if let m::Expression::Variable(v) = *n {
                    let t = w::translated(e, s, o, depth);
                    assert(t == w::property(*n, key, s, o, depth));
                    assert(t == w::graph_property(*n, key, s, o));
                    let fresh = t.result->Ok_0->Variable_0;
                    let last = g::TriplePattern {
                        subject: g::Term::Variable(v),
                        predicate: g::Predicate::NamedNode(s.base_iri@ + key),
                        object: g::Term::Variable(fresh),
                    };
                    assert(t.out.extra == o.extra.push(last));
                    assert(t.out.extra[o.extra.len() as int] == last);
                }
            },
            m::Expression::Literal(l) => {
                if let m::Literal::Integer(n) = l {
                    lemma_integer(n as int, row);
                }
                lemma_kinds_differ();
            },
            _ => {},
        }
    }
}

/// Two operands evaluate to what they mean.
proof fn kept_pair(
    a: m::Expression,
    b: m::Expression,
    s: Scope,
    o: Out,
    depth: nat,
    row: Row,
    graph: Graph,
)
    requires
        knows_nothing(s),
        o.checks.len() == o.targets.len(),
        meaning(a, s.base_iri@, row, graph) is Some,
        meaning(b, s.base_iri@, row, graph) is Some,
    ensures
        w::pair(a, b, s, o, depth).out.checks.len() == w::pair(a, b, s, o, depth).out.targets.len(),
        w::pair(a, b, s, o, depth).result matches Ok((x, y)) ==> binds(
            row,
            graph,
            w::pair(a, b, s, o, depth).out,
        ) ==> eval(x, row) == meaning(a, s.base_iri@, row, graph)->0 && eval(y, row) == meaning(
            b,
            s.base_iri@,
            row,
            graph,
        )->0 && binds(row, graph, o),
    decreases depth, 3int, 0int,
{
    let x = w::translated(a, s, o, depth);
    law_translation_only_adds(a, s, o, depth);
    lemma_even(o, x.out);
    kept(a, s, o, depth, row, graph);
    if x.result is Ok {
        let y = w::translated(b, s, x.out, depth);
        law_translation_only_adds(b, s, x.out, depth);
        lemma_even(x.out, y.out);
        kept(b, s, x.out, depth, row, graph);
        if y.result is Ok && binds(row, graph, y.out) {
            lemma_fewer_bound(row, graph, x.out, y.out);
            lemma_fewer_bound(row, graph, o, x.out);
        }
    }
}

proof fn kept_and(a: m::Expression, b: m::Expression, s: Scope, o: Out, depth: nat, row: Row, graph: Graph)
    requires
        knows_nothing(s),
    ensures
        is_kept(m::Expression::And(Box::new(a), Box::new(b)), s, o, depth, row, graph),
    decreases depth, 1int, 0int,
{
    reveal(is_kept);
    let e = m::Expression::And(Box::new(a), Box::new(b));
    let told = meaning(e, s.base_iri@, row, graph);
    if depth > 0 && o.checks.len() == o.targets.len() && told is Some {
        let d = (depth - 1) as nat;
        kept_pair(a, b, s, o, d, row, graph);
        if let Ok((x, y)) = w::pair(a, b, s, o, d).result {
            lemma_and(x, y, row);
        }
    }
}

proof fn kept_or(a: m::Expression, b: m::Expression, s: Scope, o: Out, depth: nat, row: Row, graph: Graph)
    requires
        knows_nothing(s),
    ensures
        is_kept(m::Expression::Or(Box::new(a), Box::new(b)), s, o, depth, row, graph),
    decreases depth, 1int, 0int,
{
    reveal(is_kept);
    let e = m::Expression::Or(Box::new(a), Box::new(b));
    let told = meaning(e, s.base_iri@, row, graph);
    if depth > 0 && o.checks.len() == o.targets.len() && told is Some {
        let d = (depth - 1) as nat;
        kept_pair(a, b, s, o, d, row, graph);
        if let Ok((x, y)) = w::pair(a, b, s, o, d).result {
            lemma_or(x, y, row);
        }
    }
}

proof fn lemma_xor(x: g::Expr, y: g::Expr, x2: g::Expr, y2: g::Expr, row: Row)
    requires
        eval(x2, row) == eval(x, row),
        eval(y2, row) == eval(y, row),
        exclusion(eval(x, row), eval(y, row)) is Some,
    ensures
        eval(crate::translator::expr::parts::xor(x, y, x2, y2), row) == exclusion(
            eval(x, row),
            eval(y, row),
        )->0,
{
    let z = g::Expr::And(Box::new(x2), Box::new(y2));
    lemma_or(x, y, row);
    lemma_and(x2, y2, row);
    lemma_not(z, row);
    lemma_and(g::Expr::Or(Box::new(x), Box::new(y)), g::Expr::Not(Box::new(z)), row);
}

#[verifier::spinoff_prover]
#[verifier::rlimit(40)]
proof fn kept_xor(a: m::Expression, b: m::Expression, s: Scope, o: Out, depth: nat, row: Row, graph: Graph)
    requires
        knows_nothing(s),
    ensures
        is_kept(m::Expression::Xor(Box::new(a), Box::new(b)), s, o, depth, row, graph),
    decreases depth, 1int, 0int,
{
    reveal(is_kept);
    let e = m::Expression::Xor(Box::new(a), Box::new(b));
    let told = meaning(e, s.base_iri@, row, graph);
    if depth > 0 && o.checks.len() == o.targets.len() && told is Some {
        let d = (depth - 1) as nat;
        kept_pair(a, b, s, o, d, row, graph);
        let first = w::pair(a, b, s, o, d);
        kept_pair(a, b, s, first.out, d, row, graph);
        let second = w::pair(a, b, s, first.out, d);
        assert(w::translated(e, s, o, depth) == w::exclusive(a, b, s, o, depth));
        if let Ok((x, y)) = first.result {
            if let Ok((x2, y2)) = second.result {
                if binds(row, graph, second.out) {
                    lemma_xor(x, y, x2, y2, row);
                }
            }
        }
    }
}

proof fn kept_not(a: m::Expression, s: Scope, o: Out, depth: nat, row: Row, graph: Graph)
    requires
        knows_nothing(s),
    ensures
        is_kept(m::Expression::Not(Box::new(a)), s, o, depth, row, graph),
    decreases depth, 1int, 0int,
{
    reveal(is_kept);
    let e = m::Expression::Not(Box::new(a));
    let told = meaning(e, s.base_iri@, row, graph);
    if depth > 0 && o.checks.len() == o.targets.len() && told is Some {
        let d = (depth - 1) as nat;
        kept(a, s, o, d, row, graph);
        if let Ok(x) = w::translated(a, s, o, d).result {
            lemma_not(x, row);
        }
    }
}

proof fn kept_value_test(
    a: m::Expression,
    present: bool,
    s: Scope,
    o: Out,
    depth: nat,
    row: Row,
    graph: Graph,
)
    requires
        knows_nothing(s),
        o.checks.len() == o.targets.len(),
        meaning(a, s.base_iri@, row, graph) is Some,
    ensures
        w::value_test(a, present, s, o, depth).result matches Ok(x) ==> binds(
            row,
            graph,
            w::value_test(a, present, s, o, depth).out,
        ) ==> eval(x, row) == Value::Truth(
            !(meaning(a, s.base_iri@, row, graph)->0 is Unknown) == present,
        ),
    decreases depth, 0int, 0int,
{
    reveal_with_fuel(eval, 3);
    if depth > 0 {
        let d = (depth - 1) as nat;
        kept(a, s, o, d, row, graph);
        law_translation_only_adds(a, s, o, d);
        let x = w::translated(a, s, o, d);
        lemma_even(o, x.out);
        let t = w::value_test(a, present, s, o, depth);
        if x.result is Ok && !(x.result->Ok_0 is Variable) && binds(row, graph, t.out) {
            let n = x.out.checks.len() as int;
            assert(t.out.checks[n] == x.result->Ok_0);
            assert(row(t.out.targets[n]) == eval(t.out.checks[n], row));
            assert(binds(row, graph, x.out)) by {
                assert forall|i: int|
                    0 <= i < x.out.checks.len() && i < x.out.targets.len() implies row(
                    x.out.targets[i],
                ) == eval(#[trigger] x.out.checks[i], row) by {
                    assert(t.out.checks[i] == x.out.checks[i]);
                }
                assert(t.out.extra == x.out.extra);
            }
        }
    }
}

/// A comparison of two values is null where one of them is.
proof fn lemma_null_compared(x: Value, op: CompOp, y: Value)
    requires
        op is Gt || op is Ge,
        compared(x, op, y) is Some,
    ensures
        (compared(x, op, y)->0 is Unknown) == (x is Unknown || y is Unknown),
{
}

proof fn lemma_bound_tests(v: Seq<char>, u: Seq<char>, present: bool, row: Row)
    ensures
        eval(w::bound_tests(v, u, present), row) == Value::Truth(
            (!(row(v) is Unknown) && !(row(u) is Unknown)) == present,
        ),
{
    let x = g::Expr::Bound(v);
    let y = g::Expr::Bound(u);
    lemma_and(x, y, row);
    lemma_not(x, row);
    lemma_not(y, row);
    lemma_or(g::Expr::Not(Box::new(x)), g::Expr::Not(Box::new(y)), row);
}

proof fn kept_null_test(
    a: m::Expression,
    present: bool,
    s: Scope,
    o: Out,
    depth: nat,
    row: Row,
    graph: Graph,
)
    requires
        knows_nothing(s),
        o.checks.len() == o.targets.len(),
        meaning(a, s.base_iri@, row, graph) is Some,
        !is_chain_or_not(a),
    ensures
        w::null_test(a, present, s, o, depth).result matches Ok(x) ==> binds(
            row,
            graph,
            w::null_test(a, present, s, o, depth).out,
        ) ==> eval(x, row) == Value::Truth(
            !(meaning(a, s.base_iri@, row, graph)->0 is Unknown) == present,
        ),
    decreases depth, 1int, 0int,
{
    if depth > 0 {
        let d = (depth - 1) as nat;
        match a {
            m::Expression::Not(inner) => {
                let next = if present {
                    m::Expression::IsNotNull(inner)
                } else {
                    m::Expression::IsNull(inner)
                };
                assert(w::null_test(a, present, s, o, depth) == w::translated(next, s, o, d));
                kept(next, s, o, d, row, graph);
            },
            m::Expression::Comparison(l, op, r) => {
                if w::tested_op(op, present) {
                    kept_pair(*l, *r, s, o, d, row, graph);
                    let both = w::pair(*l, *r, s, o, d);
                    if let Ok((x, y)) = both.result {
                        if x is Variable && y is Variable {
                            lemma_bound_tests(x->Variable_0, y->Variable_0, present, row);
                            lemma_null_compared(
                                meaning(*l, s.base_iri@, row, graph)->0,
                                op,
                                meaning(*r, s.base_iri@, row, graph)->0,
                            );
                        } else {
                            kept_value_test(a, present, s, both.out, depth, row, graph);
                        }
                    }
                } else {
                    kept_value_test(a, present, s, o, depth, row, graph);
                }
            },
            _ => {
                kept_value_test(a, present, s, o, depth, row, graph);
            },
        }
    }
}

proof fn kept_null(e: m::Expression, s: Scope, o: Out, depth: nat, row: Row, graph: Graph)
    requires
        knows_nothing(s),
        e is IsNull || e is IsNotNull,
    ensures
        is_kept(e, s, o, depth, row, graph),
    decreases depth, 1int, 1int,
{
    reveal(is_kept);
    let told = meaning(e, s.base_iri@, row, graph);
    if depth > 0 && o.checks.len() == o.targets.len() && told is Some {
        match e {
            m::Expression::IsNull(a) => {
                kept_null_test(*a, false, s, o, depth, row, graph);
            },
            m::Expression::IsNotNull(a) => {
                kept_null_test(*a, true, s, o, depth, row, graph);
            },
            _ => {},
        }
    }
}

/// Equality of constants is told as their meanings are equal.
proof fn lemma_constants_equal(
    a: m::Expression,
    b: m::Expression,
    base: Seq<char>,
    row: Row,
    graph: Graph,
)
    requires
        literal_equal(a, b) is Some,
        meaning(a, base, row, graph) is Some,
        meaning(b, base, row, graph) is Some,
        equality(meaning(a, base, row, graph)->0, meaning(b, base, row, graph)->0, true) is Some,
    ensures
        literal_equal(a, b)->0 matches Some(t) && equality(
            meaning(a, base, row, graph)->0,
            meaning(b, base, row, graph)->0,
            true,
        ) == Some(Value::Truth(t)),
{
    reveal_with_fuel(meaning, 2);
}

proof fn kept_comparison(e: m::Expression, s: Scope, o: Out, depth: nat, row: Row, graph: Graph)
    requires
        knows_nothing(s),
        e is Comparison,
    ensures
        is_kept(e, s, o, depth, row, graph),
    decreases depth, 1int, 0int,
{
    reveal(is_kept);
    let base = s.base_iri@;
    if depth > 0 && o.checks.len() == o.targets.len() && meaning(e, base, row, graph) is Some {
        let d = (depth - 1) as nat;
        let l = e->Comparison_0;
        let op = e->Comparison_1;
        let r = e->Comparison_2;
        let a = *l;
        let b = *r;
        assert(w::translated(e, s, o, depth) == w::comparison(a, op, b, s, o, depth));
        assert(w::set_value(a, s) is None);
        assert(w::set_value(b, s) is None);
        assert(!w::are_edges(a, b, s));
        assert(w::keyed_comparison(a, op, b, s) is None);
        if is_chain(e) {
            let mid = b->Comparison_0;
            let op2 = b->Comparison_1;
            let c = b->Comparison_2;
            let first = m::Expression::Comparison(l, op, mid);
            let second = m::Expression::Comparison(mid, op2, c);
            assert(second == b);
            assert(meaning(first, base, row, graph) == compared(
                meaning(a, base, row, graph)->0,
                op,
                meaning(*mid, base, row, graph)->0,
            ));
            assert(w::is_chain(op, b));
            kept_pair(first, second, s, o, d, row, graph);
            reveal_with_fuel(eval, 2);
        } else {
            assert(!w::is_chain(op, b));
            assert(!(op is In));
            if w::is_equality(op) && literal_equal(a, b) is Some {
                lemma_constants_equal(a, b, base, row, graph);
                lemma_kinds_differ();
            } else {
                kept_pair(a, b, s, o, d, row, graph);
                let both = w::pair(a, b, s, o, d);
                let t = w::plain_comparison(a, op, b, s, o, depth);
                assert(w::translated(e, s, o, depth) == t);
                if both.result is Ok {
                    let (x, y) = both.result->Ok_0;
                    assert(binds(row, graph, t.out) ==> binds(row, graph, both.out)) by {
                        assert(t.out.extra == both.out.extra);
                        assert(t.out.checks == both.out.checks);
                        assert(t.out.targets == both.out.targets);
                    }
                    if binds(row, graph, t.out) {
                        if op is StartsWith || op is EndsWith || op is Contains {
                            lemma_string_test(
                                op,
                                x,
                                y,
                                crate::translator::scope::fresh_name("null"@, both.out.counter),
                                row,
                            );
                        } else {
                            lemma_related(op, x, y, row);
                        }
                    }
                }
            }
        }
    }
}

proof fn lemma_no_items(e: m::Expression, s: Scope, hops: nat, row: Row, graph: Graph)
    requires
        knows_nothing(s),
        meaning(e, s.base_iri@, row, graph) is Some,
    ensures
        crate::translator::resolve::resolved_items(e, s, hops) is None,
    decreases e,
{
    if let m::Expression::Add(a, b) = e {
        lemma_no_items(*a, s, hops, row, graph);
    }
}

proof fn lemma_no_string(e: m::Expression, base: Seq<char>, row: Row, graph: Graph)
    requires
        meaning(e, base, row, graph) matches Some(Value::Number(_)),
    ensures
        !crate::translator::analysis::produces_string(e),
    decreases e,
{
    if let m::Expression::Add(a, b) = e {
        lemma_no_string(*a, base, row, graph);
        lemma_no_string(*b, base, row, graph);
    }
}

proof fn kept_negative(a: m::Expression, s: Scope, o: Out, depth: nat, row: Row, graph: Graph)
    requires
        knows_nothing(s),
    ensures
        is_kept(m::Expression::Negate(Box::new(a)), s, o, depth, row, graph),
    decreases depth, 1int, 0int,
{
    reveal(is_kept);
    let e = m::Expression::Negate(Box::new(a));
    let told = meaning(e, s.base_iri@, row, graph);
    if depth > 0 && o.checks.len() == o.targets.len() && told is Some {
        let d = (depth - 1) as nat;
        kept(a, s, o, d, row, graph);
        let x = w::translated(a, s, o, d);
        if x.result is Ok && binds(row, graph, x.out) {
            lemma_negative_of(x.result->Ok_0, row);
        }
    }
}

/// The value of arithmetic on two operands.
pub open spec fn arithmetic_value(op: Arith, b: m::Expression, x: Value, y: Value) -> Option<Value> {
    match op {
        Arith::Subtract => on_numbers(x, y, |p: int, q: int| Value::Number(p - q)),
        Arith::Multiply => on_numbers(x, y, |p: int, q: int| Value::Number(p * q)),
        Arith::Divide => match (x, y) {
            (Value::Number(p), Value::Number(q)) => if p >= 0 && q > 0 && is_whole(b) {
                Some(Value::Number(p / q))
            } else {
                None
            },
            _ => None,
        },
        Arith::Modulo => match (x, y) {
            (Value::Number(p), Value::Number(q)) => if p >= 0 && q > 0 {
                Some(Value::Number(p % q))
            } else {
                None
            },
            _ => None,
        },
        Arith::Add => None,
    }
}

/// What a whole number is translated to is a literal of it.
proof fn lemma_whole_literal(b: m::Expression, s: Scope, o: Out, depth: nat)
    requires
        is_whole(b),
    ensures
        w::translated(b, s, o, depth).result matches Ok(y) ==> (y matches g::Expr::Literal(l)
            && crate::parser::lexical::i64_in(l.value, 10) is Some),
{
    lemma_decimal_fits(b->Literal_0->Integer_0);
}

proof fn kept_operation(
    op: Arith,
    a: m::Expression,
    b: m::Expression,
    s: Scope,
    o: Out,
    depth: nat,
    row: Row,
    graph: Graph,
)
    requires
        knows_nothing(s),
        o.checks.len() == o.targets.len(),
        meaning(a, s.base_iri@, row, graph) is Some,
        meaning(b, s.base_iri@, row, graph) is Some,
        arithmetic_value(
            op,
            b,
            meaning(a, s.base_iri@, row, graph)->0,
            meaning(b, s.base_iri@, row, graph)->0,
        ) is Some,
    ensures
        w::pair(a, b, s, o, depth).result matches Ok((x, y)) ==> binds(
            row,
            graph,
            w::pair(a, b, s, o, depth).out,
        ) ==> eval(arith(op, x, y), row) == arithmetic_value(
            op,
            b,
            meaning(a, s.base_iri@, row, graph)->0,
            meaning(b, s.base_iri@, row, graph)->0,
        )->0,
    decreases depth, 3int, 1int,
{
    kept_pair(a, b, s, o, depth, row, graph);
    let both = w::pair(a, b, s, o, depth);
    if both.result is Ok && binds(row, graph, both.out) {
        let (x, y) = both.result->Ok_0;
        if eval(x, row) is Unknown || eval(y, row) is Unknown {
            lemma_arith_unknown(op, x, y, row);
        } else {
            if op is Divide {
                lemma_whole_literal(b, s, w::translated(a, s, o, depth).out, depth);
            }
            lemma_arith(op, x, y, row);
        }
    }
}

proof fn lemma_not_temporal(a: m::Expression, s: Scope, row: Row, graph: Graph)
    requires
        knows_nothing(s),
        meaning(a, s.base_iri@, row, graph) is Some,
    ensures
        crate::translator::expr::forms::temporal_operand(a, s) is None,
{
}

proof fn kept_difference(
    a: m::Expression,
    b: m::Expression,
    s: Scope,
    o: Out,
    depth: nat,
    row: Row,
    graph: Graph,
)
    requires
        knows_nothing(s),
    ensures
        is_kept(m::Expression::Subtract(Box::new(a), Box::new(b)), s, o, depth, row, graph),
    decreases depth, 1int, 0int,
{
    reveal(is_kept);
    let e = m::Expression::Subtract(Box::new(a), Box::new(b));
    let told = meaning(e, s.base_iri@, row, graph);
    if depth > 0 && o.checks.len() == o.targets.len() && told is Some {
        assert(w::translated(e, s, o, depth) == w::difference(a, b, s, o, depth));
        lemma_not_temporal(a, s, row, graph);
        kept_operation(Arith::Subtract, a, b, s, o, (depth - 1) as nat, row, graph);
    }
}

proof fn kept_arithmetic(
    op: Arith,
    a: m::Expression,
    b: m::Expression,
    s: Scope,
    o: Out,
    depth: nat,
    row: Row,
    graph: Graph,
)
    requires
        knows_nothing(s),
        o.checks.len() == o.targets.len(),
        meaning(a, s.base_iri@, row, graph) is Some,
        meaning(b, s.base_iri@, row, graph) is Some,
        arithmetic_value(
            op,
            b,
            meaning(a, s.base_iri@, row, graph)->0,
            meaning(b, s.base_iri@, row, graph)->0,
        ) is Some,
    ensures
        w::arithmetic(op, a, b, s, o, depth).result matches Ok(x) ==> binds(
            row,
            graph,
            w::arithmetic(op, a, b, s, o, depth).out,
        ) ==> eval(x, row) == arithmetic_value(
            op,
            b,
            meaning(a, s.base_iri@, row, graph)->0,
            meaning(b, s.base_iri@, row, graph)->0,
        )->0,
    decreases depth, 1int, 0int,
{
    if depth > 0 {
        kept_operation(op, a, b, s, o, (depth - 1) as nat, row, graph);
    }
}

proof fn kept_product(
    e: m::Expression,
    s: Scope,
    o: Out,
    depth: nat,
    row: Row,
    graph: Graph,
)
    requires
        knows_nothing(s),
        e is Multiply || e is Divide || e is Modulo,
    ensures
        is_kept(e, s, o, depth, row, graph),
    decreases depth, 1int, 1int,
{
    reveal(is_kept);
    let told = meaning(e, s.base_iri@, row, graph);
    if depth > 0 && o.checks.len() == o.targets.len() && told is Some {
        match e {
            m::Expression::Multiply(a, b) => {
                kept_arithmetic(Arith::Multiply, *a, *b, s, o, depth, row, graph);
            },
            m::Expression::Divide(a, b) => {
                kept_arithmetic(Arith::Divide, *a, *b, s, o, depth, row, graph);
            },
            m::Expression::Modulo(a, b) => {
                kept_arithmetic(Arith::Modulo, *a, *b, s, o, depth, row, graph);
            },
            _ => {},
        }
    }
}

/// The decimal text of a 64-bit number is read as one.
proof fn lemma_decimal_fits(n: i64)
    ensures
        crate::parser::lexical::i64_in(dec(n as int), 10) == Some(n),
{
    if n < 0 {
        lemma_digits_read((-n) as nat);
        reveal_strlit("-");
        assert(dec(n as int).skip(1) =~= crate::text::digits((-n) as nat));
    } else {
        lemma_digits_read(n as nat);
    }
}

proof fn kept_sum(e: m::Expression, s: Scope, o: Out, depth: nat, row: Row, graph: Graph)
    requires
        knows_nothing(s),
        e is Add,
    ensures
        is_kept(e, s, o, depth, row, graph),
    decreases depth, 1int, 0int,
{
    reveal(is_kept);
    let base = s.base_iri@;
    if depth > 0 && o.checks.len() == o.targets.len() && meaning(e, base, row, graph) is Some {
        let d = (depth - 1) as nat;
        let a = *e->Add_0;
        let b = *e->Add_1;
        lemma_no_items(a, s, crate::translator::resolve::hops_in(s), row, graph);
        lemma_no_items(b, s, crate::translator::resolve::hops_in(s), row, graph);
        assert(w::list_sum(a, b, s) is None);
        kept_pair(a, b, s, o, d, row, graph);
        let both = w::pair(a, b, s, o, d);
        assert(crate::translator::expr::forms::temporal_operand(a, s) is None);
        assert(w::translated(e, s, o, depth) == w::sum(a, b, s, o, depth));
        assert(w::translated(e, s, o, depth).out == both.out);
        if both.result is Ok && binds(row, graph, both.out) {
            let (x, y) = both.result->Ok_0;
            assert(w::translated(e, s, o, depth).result->Ok_0 == if
                crate::translator::analysis::produces_string(a)
                || crate::translator::analysis::produces_string(b) {
                crate::translator::expr::parts::concatenated(x, y)
            } else if a is Property && b is Property {
                list_or_sum(x, y)
            } else {
                arith(Arith::Add, x, y)
            });
            if eval(x, row) is Number {
                lemma_no_string(a, base, row, graph);
                lemma_no_string(b, base, row, graph);
                lemma_list_or_sum(x, y, row);
                lemma_arith(Arith::Add, x, y, row);
            } else {
                lemma_concatenated(x, y, row);
            }
        }
    }
}

proof fn lemma_kept(e: m::Expression, s: Scope, o: Out, depth: nat, row: Row, graph: Graph)
    requires
        knows_nothing(s),
    ensures
        is_kept(e, s, o, depth, row, graph),
    decreases depth, 2int, 0int,
{
    match e {
        m::Expression::Variable(_) | m::Expression::Property(_, _) | m::Expression::Literal(_) => {
            kept_leaf(e, s, o, depth, row, graph);
        },
        m::Expression::And(a, b) => {
            kept_and(*a, *b, s, o, depth, row, graph);
        },
        m::Expression::Or(a, b) => {
            kept_or(*a, *b, s, o, depth, row, graph);
        },
        m::Expression::Xor(a, b) => {
            kept_xor(*a, *b, s, o, depth, row, graph);
        },
        m::Expression::Not(a) => {
            kept_not(*a, s, o, depth, row, graph);
        },
        m::Expression::IsNull(_) | m::Expression::IsNotNull(_) => {
            kept_null(e, s, o, depth, row, graph);
        },
        m::Expression::Comparison(_, _, _) => {
            kept_comparison(e, s, o, depth, row, graph);
        },
        m::Expression::Add(_, _) => {
            kept_sum(e, s, o, depth, row, graph);
        },
        m::Expression::Subtract(a, b) => {
            kept_difference(*a, *b, s, o, depth, row, graph);
        },
        m::Expression::Multiply(_, _) | m::Expression::Divide(_, _) | m::Expression::Modulo(_, _) => {
            kept_product(e, s, o, depth, row, graph);
        },
        m::Expression::Negate(a) => {
            kept_negative(*a, s, o, depth, row, graph);
        },
        _ => {
            assert(meaning(e, s.base_iri@, row, graph) is None);
            assert(is_kept(e, s, o, depth, row, graph)) by {
                reveal(is_kept);
            }
        },
    }
}

proof fn kept(e: m::Expression, s: Scope, o: Out, depth: nat, row: Row, graph: Graph)
    requires
        knows_nothing(s),
    ensures
        o.checks.len() == o.targets.len() && w::translated(e, s, o, depth).result is Ok && binds(
            row,
            graph,
            w::translated(e, s, o, depth).out,
        ) && meaning(e, s.base_iri@, row, graph) is Some ==> eval(
            w::translated(e, s, o, depth).result->Ok_0,
            row,
        ) == meaning(e, s.base_iri@, row, graph)->0,
    decreases depth, 2int, 1int,
{
    lemma_kept(e, s, o, depth, row, graph);
    assert(is_kept(e, s, o, depth, row, graph));
    reveal(is_kept);
}

/// A translated expression evaluates to what the expression means, on every row that
/// binds the variables as the translation asks for. So `n.age < 30` holds of just the
/// rows on which the age is below 30, and likewise for the other comparisons, for
/// logic, arithmetic, null tests and tests on texts.
pub proof fn law_translation_keeps_meaning(
    e: m::Expression,
    s: Scope,
    o: Out,
    row: Row,
    graph: Graph,
)
    requires
        knows_nothing(s),
        o.checks.len() == o.targets.len(),
        w::translation(e, s, o).result is Ok,
        binds(row, graph, w::translation(e, s, o).out),
        meaning(e, s.base_iri@, row, graph) is Some,
    ensures
        eval(w::translation(e, s, o).result->Ok_0, row) == meaning(e, s.base_iri@, row, graph)->0,
{
    reveal(w::translation);
    kept(e, s, o, usize::MAX as nat, row, graph);
}

// ── What is translated ───────────────────────────────────────────────────────

/// How many operators and operands an expression has, of the kinds whose meaning is
/// told.
pub open spec fn size(e: m::Expression) -> nat
    decreases e,
{
    match e {
        m::Expression::And(a, b) => 1 + size(*a) + size(*b),
        m::Expression::Or(a, b) => 1 + size(*a) + size(*b),
        m::Expression::Xor(a, b) => 1 + size(*a) + size(*b),
        m::Expression::Comparison(a, _, b) => 1 + size(*a) + size(*b),
        m::Expression::Add(a, b) => 1 + size(*a) + size(*b),
        m::Expression::Subtract(a, b) => 1 + size(*a) + size(*b),
        m::Expression::Multiply(a, b) => 1 + size(*a) + size(*b),
        m::Expression::Divide(a, b) => 1 + size(*a) + size(*b),
        m::Expression::Modulo(a, b) => 1 + size(*a) + size(*b),
        m::Expression::Not(a) => 1 + size(*a),
        m::Expression::IsNull(a) => 1 + size(*a),
        m::Expression::IsNotNull(a) => 1 + size(*a),
        m::Expression::Negate(a) => 1 + size(*a),
        _ => 1,
    }
}

pub open spec fn is_meant(e: m::Expression, s: Scope, row: Row, graph: Graph) -> bool {
    meaning(e, s.base_iri@, row, graph) is Some
}

proof fn done_pair(
    a: m::Expression,
    b: m::Expression,
    s: Scope,
    o: Out,
    depth: nat,
    row: Row,
    graph: Graph,
)
    requires
        knows_nothing(s),
        is_meant(a, s, row, graph),
        is_meant(b, s, row, graph),
        size(a) < depth,
        size(b) < depth,
    ensures
        w::pair(a, b, s, o, depth).result is Ok,
    decreases depth, 3int, 0int,
{
    done(a, s, o, depth, row, graph);
    done(b, s, w::translated(a, s, o, depth).out, depth, row, graph);
}

#[verifier::spinoff_prover]
#[verifier::rlimit(30)]
proof fn done_and(
    a: m::Expression,
    b: m::Expression,
    s: Scope,
    o: Out,
    depth: nat,
    row: Row,
    graph: Graph,
)
    requires
        knows_nothing(s),
        is_meant(m::Expression::And(Box::new(a), Box::new(b)), s, row, graph),
        size(m::Expression::And(Box::new(a), Box::new(b))) < depth,
    ensures
        is_done(m::Expression::And(Box::new(a), Box::new(b)), s, o, depth),
    decreases depth, 1int, 0int,
{
    reveal(is_done);
    done_pair(a, b, s, o, (depth - 1) as nat, row, graph);
}

#[verifier::spinoff_prover]
#[verifier::rlimit(30)]
proof fn done_or(
    a: m::Expression,
    b: m::Expression,
    s: Scope,
    o: Out,
    depth: nat,
    row: Row,
    graph: Graph,
)
    requires
        knows_nothing(s),
        is_meant(m::Expression::Or(Box::new(a), Box::new(b)), s, row, graph),
        size(m::Expression::Or(Box::new(a), Box::new(b))) < depth,
    ensures
        is_done(m::Expression::Or(Box::new(a), Box::new(b)), s, o, depth),
    decreases depth, 1int, 0int,
{
    reveal(is_done);
    done_pair(a, b, s, o, (depth - 1) as nat, row, graph);
}

proof fn done_not(a: m::Expression, s: Scope, o: Out, depth: nat, row: Row, graph: Graph)
    requires
        knows_nothing(s),
        is_meant(m::Expression::Not(Box::new(a)), s, row, graph),
        size(m::Expression::Not(Box::new(a))) < depth,
    ensures
        is_done(m::Expression::Not(Box::new(a)), s, o, depth),
    decreases depth, 1int, 0int,
{
    reveal(is_done);
    done(a, s, o, (depth - 1) as nat, row, graph);
}

proof fn done_xor(
    a: m::Expression,
    b: m::Expression,
    s: Scope,
    o: Out,
    depth: nat,
    row: Row,
    graph: Graph,
)
    requires
        knows_nothing(s),
        is_meant(m::Expression::Xor(Box::new(a), Box::new(b)), s, row, graph),
        size(m::Expression::Xor(Box::new(a), Box::new(b))) < depth,
    ensures
        w::exclusive(a, b, s, o, depth).result is Ok,
    decreases depth, 1int, 0int,
{
    let d = (depth - 1) as nat;
    done_pair(a, b, s, o, d, row, graph);
    done_pair(a, b, s, w::pair(a, b, s, o, d).out, d, row, graph);
}

proof fn done_value_test(
    a: m::Expression,
    present: bool,
    s: Scope,
    o: Out,
    depth: nat,
    row: Row,
    graph: Graph,
)
    requires
        knows_nothing(s),
        is_meant(a, s, row, graph),
        size(a) + 1 < depth,
    ensures
        w::value_test(a, present, s, o, depth).result is Ok,
    decreases depth, 0int, 0int,
{
    done(a, s, o, (depth - 1) as nat, row, graph);
}

proof fn done_null_test(
    a: m::Expression,
    present: bool,
    s: Scope,
    o: Out,
    depth: nat,
    row: Row,
    graph: Graph,
)
    requires
        knows_nothing(s),
        is_meant(a, s, row, graph),
        !is_chain_or_not(a),
        size(a) + 1 < depth,
    ensures
        w::null_test(a, present, s, o, depth).result is Ok,
    decreases depth, 1int, 0int,
{
    let d = (depth - 1) as nat;
    match a {
        m::Expression::Not(inner) => {
            let next = if present {
                m::Expression::IsNotNull(inner)
            } else {
                m::Expression::IsNull(inner)
            };
            done(next, s, o, d, row, graph);
        },
        m::Expression::Comparison(l, op, r) => {
            done_pair(*l, *r, s, o, d, row, graph);
            let both = w::pair(*l, *r, s, o, d);
            done_value_test(a, present, s, both.out, depth, row, graph);
            done_value_test(a, present, s, o, depth, row, graph);
        },
        _ => {
            done_value_test(a, present, s, o, depth, row, graph);
        },
    }
}

proof fn lemma_chain_meant(
    lhs: m::Expression,
    op: CompOp,
    rhs: m::Expression,
    s: Scope,
    row: Row,
    graph: Graph,
)
    requires
        is_meant(m::Expression::Comparison(Box::new(lhs), op, Box::new(rhs)), s, row, graph),
        is_chain(m::Expression::Comparison(Box::new(lhs), op, Box::new(rhs))),
    ensures
        ({
            let mid = rhs->Comparison_0;
            let first = m::Expression::Comparison(Box::new(lhs), op, mid);
            let second = m::Expression::Comparison(mid, rhs->Comparison_1, rhs->Comparison_2);
            &&& is_meant(first, s, row, graph)
            &&& is_meant(second, s, row, graph)
            &&& size(first) < size(m::Expression::Comparison(Box::new(lhs), op, Box::new(rhs)))
            &&& size(second) < size(m::Expression::Comparison(Box::new(lhs), op, Box::new(rhs)))
        }),
{
    let mid = rhs->Comparison_0;
    let first = m::Expression::Comparison(Box::new(lhs), op, mid);
    let second = m::Expression::Comparison(mid, rhs->Comparison_1, rhs->Comparison_2);
    assert(second == rhs);
    assert(meaning(first, s.base_iri@, row, graph) == compared(
        meaning(lhs, s.base_iri@, row, graph)->0,
        op,
        meaning(*mid, s.base_iri@, row, graph)->0,
    ));
    assert(size(rhs) == 1 + size(*mid) + size(*rhs->Comparison_2));
}

#[verifier::spinoff_prover]
#[verifier::rlimit(30)]
proof fn done_chain(
    lhs: m::Expression,
    op: CompOp,
    rhs: m::Expression,
    s: Scope,
    o: Out,
    depth: nat,
    row: Row,
    graph: Graph,
)
    requires
        knows_nothing(s),
        is_meant(m::Expression::Comparison(Box::new(lhs), op, Box::new(rhs)), s, row, graph),
        size(m::Expression::Comparison(Box::new(lhs), op, Box::new(rhs))) < depth,
        is_chain(m::Expression::Comparison(Box::new(lhs), op, Box::new(rhs))),
    ensures
        w::chain(lhs, op, rhs, s, o, depth).result is Ok,
    decreases depth, 1int, 0int,
{
    let mid = rhs->Comparison_0;
    let first = m::Expression::Comparison(Box::new(lhs), op, mid);
    let second = m::Expression::Comparison(mid, rhs->Comparison_1, rhs->Comparison_2);
    lemma_chain_meant(lhs, op, rhs, s, row, graph);
    done_pair(first, second, s, o, (depth - 1) as nat, row, graph);
}

proof fn done_plain_comparison(
    lhs: m::Expression,
    op: CompOp,
    rhs: m::Expression,
    s: Scope,
    o: Out,
    depth: nat,
    row: Row,
    graph: Graph,
)
    requires
        knows_nothing(s),
        is_meant(lhs, s, row, graph),
        is_meant(rhs, s, row, graph),
        size(lhs) + 1 < depth,
        size(rhs) + 1 < depth,
    ensures
        w::plain_comparison(lhs, op, rhs, s, o, depth).result is Ok,
    decreases depth, 1int, 0int,
{
    done_pair(lhs, rhs, s, o, (depth - 1) as nat, row, graph);
}

#[verifier::spinoff_prover]
#[verifier::rlimit(30)]
proof fn done_comparison(
    a: m::Expression,
    op: CompOp,
    b: m::Expression,
    s: Scope,
    o: Out,
    depth: nat,
    row: Row,
    graph: Graph,
)
    requires
        knows_nothing(s),
        is_meant(m::Expression::Comparison(Box::new(a), op, Box::new(b)), s, row, graph),
        size(m::Expression::Comparison(Box::new(a), op, Box::new(b))) < depth,
    ensures
        w::comparison(a, op, b, s, o, depth).result is Ok,
    decreases depth, 1int, 1int,
{
    let e = m::Expression::Comparison(Box::new(a), op, Box::new(b));
    assert(w::set_value(a, s) is None);
    assert(w::set_value(b, s) is None);
    assert(!w::are_edges(a, b, s));
    assert(w::keyed_comparison(a, op, b, s) is None);
    if is_chain(e) {
        assert(w::is_chain(op, b));
        done_chain(a, op, b, s, o, depth, row, graph);
    } else {
        assert(!w::is_chain(op, b));
        assert(!(op is In));
        done_plain_comparison(a, op, b, s, o, depth, row, graph);
    }
}

#[verifier::spinoff_prover]
#[verifier::rlimit(30)]
proof fn done_product(
    a: m::Expression,
    b: m::Expression,
    s: Scope,
    o: Out,
    depth: nat,
    row: Row,
    graph: Graph,
)
    requires
        knows_nothing(s),
        is_meant(m::Expression::Multiply(Box::new(a), Box::new(b)), s, row, graph),
        size(m::Expression::Multiply(Box::new(a), Box::new(b))) < depth,
    ensures
        is_done(m::Expression::Multiply(Box::new(a), Box::new(b)), s, o, depth),
    decreases depth, 1int, 0int,
{
    reveal(is_done);
    done_pair(a, b, s, o, (depth - 1) as nat, row, graph);
    let e = m::Expression::Multiply(Box::new(a), Box::new(b));
    assert(w::translated(e, s, o, depth) == w::arithmetic(Arith::Multiply, a, b, s, o, depth));
}

#[verifier::spinoff_prover]
#[verifier::rlimit(30)]
proof fn done_quotient(
    a: m::Expression,
    b: m::Expression,
    s: Scope,
    o: Out,
    depth: nat,
    row: Row,
    graph: Graph,
)
    requires
        knows_nothing(s),
        is_meant(m::Expression::Divide(Box::new(a), Box::new(b)), s, row, graph),
        size(m::Expression::Divide(Box::new(a), Box::new(b))) < depth,
    ensures
        is_done(m::Expression::Divide(Box::new(a), Box::new(b)), s, o, depth),
    decreases depth, 1int, 0int,
{
    reveal(is_done);
    done_pair(a, b, s, o, (depth - 1) as nat, row, graph);
    let e = m::Expression::Divide(Box::new(a), Box::new(b));
    assert(w::translated(e, s, o, depth) == w::arithmetic(Arith::Divide, a, b, s, o, depth));
}

#[verifier::spinoff_prover]
#[verifier::rlimit(30)]
proof fn done_rest(
    a: m::Expression,
    b: m::Expression,
    s: Scope,
    o: Out,
    depth: nat,
    row: Row,
    graph: Graph,
)
    requires
        knows_nothing(s),
        is_meant(m::Expression::Modulo(Box::new(a), Box::new(b)), s, row, graph),
        size(m::Expression::Modulo(Box::new(a), Box::new(b))) < depth,
    ensures
        is_done(m::Expression::Modulo(Box::new(a), Box::new(b)), s, o, depth),
    decreases depth, 1int, 0int,
{
    reveal(is_done);
    done_pair(a, b, s, o, (depth - 1) as nat, row, graph);
    let e = m::Expression::Modulo(Box::new(a), Box::new(b));
    assert(w::translated(e, s, o, depth) == w::arithmetic(Arith::Modulo, a, b, s, o, depth));
}

proof fn done_negative(a: m::Expression, s: Scope, o: Out, depth: nat, row: Row, graph: Graph)
    requires
        knows_nothing(s),
        is_meant(m::Expression::Negate(Box::new(a)), s, row, graph),
        size(m::Expression::Negate(Box::new(a))) < depth,
    ensures
        is_done(m::Expression::Negate(Box::new(a)), s, o, depth),
    decreases depth, 1int, 0int,
{
    reveal(is_done);
    done(a, s, o, (depth - 1) as nat, row, graph);
}

#[verifier::spinoff_prover]
#[verifier::rlimit(30)]
proof fn done_sum(
    a: m::Expression,
    b: m::Expression,
    s: Scope,
    o: Out,
    depth: nat,
    row: Row,
    graph: Graph,
)
    requires
        knows_nothing(s),
        is_meant(m::Expression::Add(Box::new(a), Box::new(b)), s, row, graph),
        size(m::Expression::Add(Box::new(a), Box::new(b))) < depth,
    ensures
        is_done(m::Expression::Add(Box::new(a), Box::new(b)), s, o, depth),
    decreases depth, 1int, 0int,
{
    reveal(is_done);
    lemma_not_temporal(a, s, row, graph);
    done_pair(a, b, s, o, (depth - 1) as nat, row, graph);
    let e = m::Expression::Add(Box::new(a), Box::new(b));
    assert(w::translated(e, s, o, depth) == w::sum(a, b, s, o, depth));
}

#[verifier::spinoff_prover]
#[verifier::rlimit(30)]
proof fn done_difference(
    a: m::Expression,
    b: m::Expression,
    s: Scope,
    o: Out,
    depth: nat,
    row: Row,
    graph: Graph,
)
    requires
        knows_nothing(s),
        is_meant(m::Expression::Subtract(Box::new(a), Box::new(b)), s, row, graph),
        size(m::Expression::Subtract(Box::new(a), Box::new(b))) < depth,
    ensures
        is_done(m::Expression::Subtract(Box::new(a), Box::new(b)), s, o, depth),
    decreases depth, 1int, 0int,
{
    reveal(is_done);
    lemma_not_temporal(a, s, row, graph);
    done_pair(a, b, s, o, (depth - 1) as nat, row, graph);
    let e = m::Expression::Subtract(Box::new(a), Box::new(b));
    assert(w::translated(e, s, o, depth) == w::difference(a, b, s, o, depth));
}

proof fn done_leaf(e: m::Expression, s: Scope, o: Out, depth: nat)
    requires
        knows_nothing(s),
        depth > 0,
        e is Variable || (e matches m::Expression::Property(n, _) && *n is Variable) || (e matches
            m::Expression::Literal(l) && !(l is Null)),
    ensures
        is_done(e, s, o, depth),
{
    reveal(is_done);
    if let m::Expression::Property(n, key) = e {
        let t = w::translated(e, s, o, depth);
        assert(t == w::property(*n, key, s, o, depth));
        assert(t == w::graph_property(*n, key, s, o));
    }
}

proof fn done_other(e: m::Expression, s: Scope, o: Out, depth: nat, row: Row, graph: Graph)
    requires
        knows_nothing(s),
        is_meant(e, s, row, graph),
        size(e) < depth,
        e is Xor || e is IsNull || e is IsNotNull || e is Comparison,
    ensures
        is_done(e, s, o, depth),
    decreases depth, 1int, 2int,
{
    reveal(is_done);
    match e {
        m::Expression::Xor(a, b) => {
            done_xor(*a, *b, s, o, depth, row, graph);
        },
        m::Expression::IsNull(a) => {
            done_null_test(*a, false, s, o, depth, row, graph);
        },
        m::Expression::IsNotNull(a) => {
            done_null_test(*a, true, s, o, depth, row, graph);
        },
        m::Expression::Comparison(a, op, b) => {
            done_comparison(*a, op, *b, s, o, depth, row, graph);
        },
        _ => {},
    }
}

proof fn lemma_done(e: m::Expression, s: Scope, o: Out, depth: nat, row: Row, graph: Graph)
    requires
        knows_nothing(s),
        is_meant(e, s, row, graph),
        size(e) < depth,
    ensures
        is_done(e, s, o, depth),
    decreases depth, 2int, 0int,
{
    match e {
        m::Expression::And(a, b) => {
            done_and(*a, *b, s, o, depth, row, graph);
        },
        m::Expression::Or(a, b) => {
            done_or(*a, *b, s, o, depth, row, graph);
        },
        m::Expression::Not(a) => {
            done_not(*a, s, o, depth, row, graph);
        },
        m::Expression::Add(a, b) => {
            done_sum(*a, *b, s, o, depth, row, graph);
        },
        m::Expression::Subtract(a, b) => {
            done_difference(*a, *b, s, o, depth, row, graph);
        },
        m::Expression::Multiply(a, b) => {
            done_product(*a, *b, s, o, depth, row, graph);
        },
        m::Expression::Divide(a, b) => {
            done_quotient(*a, *b, s, o, depth, row, graph);
        },
        m::Expression::Modulo(a, b) => {
            done_rest(*a, *b, s, o, depth, row, graph);
        },
        m::Expression::Negate(a) => {
            done_negative(*a, s, o, depth, row, graph);
        },
        m::Expression::Variable(_) | m::Expression::Property(_, _) | m::Expression::Literal(_) => {
            done_leaf(e, s, o, depth);
        },
        _ => {
            done_other(e, s, o, depth, row, graph);
        },
    }
}

/// That an expression is translated.
#[verifier::opaque]
pub open spec fn is_done(e: m::Expression, s: Scope, o: Out, depth: nat) -> bool {
    w::translated(e, s, o, depth).result is Ok
}

proof fn done(e: m::Expression, s: Scope, o: Out, depth: nat, row: Row, graph: Graph)
    requires
        knows_nothing(s),
        is_meant(e, s, row, graph),
        size(e) < depth,
    ensures
        w::translated(e, s, o, depth).result is Ok,
    decreases depth, 2int, 1int,
{
    lemma_done(e, s, o, depth, row, graph);
    assert(is_done(e, s, o, depth));
    reveal(is_done);
}

/// An expression whose meaning is told is translated.
pub proof fn law_meant_is_translated(e: m::Expression, s: Scope, o: Out, row: Row, graph: Graph)
    requires
        knows_nothing(s),
        meaning(e, s.base_iri@, row, graph) is Some,
        size(e) < usize::MAX,
    ensures
        w::translation(e, s, o).result is Ok,
{
    reveal(w::translation);
    done(e, s, o, usize::MAX as nat, row, graph);
}

} // verus!
