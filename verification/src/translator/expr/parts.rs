//! Expressions of SPARQL, put together from translated operands.
use vstd::prelude::*;

use crate::ast::cypher::CompOp;
use crate::lqa::write::literals::{XSD_BOOLEAN, XSD_DOUBLE, XSD_INTEGER};
use crate::number::forms::{number_text, opposite_of, read_number, Form};
#[allow(unused_imports)]
use crate::number::forms::{opposite, real_in, real_text};
use crate::parser::lexical::parse_i64;
#[allow(unused_imports)]
use crate::parser::lexical::i64_in;
use crate::sparql::algebra as sparql;
use crate::sparql::algebra::Function;
use crate::sparql::copy::{clone_expr, clone_literal};
#[allow(unused_imports)]
use crate::sparql::model as g;
use crate::text::{neg_dec_i64, same_text};
#[allow(unused_imports)]
use crate::translator::formula::{
    make_call1, make_call2, make_call3, make_cast, make_integer, make_quoted,
};
#[allow(unused_imports)]
use crate::translator::formula::{call1, call2, cast, integer, quoted};
use crate::translator::ground::{boolean_literal, typed_literal};
#[allow(unused_imports)]
use crate::translator::ground::{boolean, typed};
use crate::translator::scope::Edge;

verus! {

pub const XSD_STRING: &'static str = "http://www.w3.org/2001/XMLSchema#string";

pub const LIST_CONTAINS: &'static str = "urn:polygraph:list-contains";

// ── Connectives ──────────────────────────────────────────────────────────────

pub open spec fn truth(b: bool) -> g::Expr {
    g::Expr::Literal(boolean(b))
}

pub fn make_truth(b: bool) -> (r: sparql::Expr)
    ensures
        g::expr_of(r) == truth(b),
{
    sparql::Expr::Literal(boolean_literal(b))
}

pub open spec fn var(name: Seq<char>) -> g::Expr {
    g::Expr::Variable(name)
}

pub fn make_var(name: String) -> (r: sparql::Expr)
    ensures
        g::expr_of(r) == var(name@),
{
    sparql::Expr::Variable(name)
}

pub open spec fn and(a: g::Expr, b: g::Expr) -> g::Expr {
    g::Expr::And(Box::new(a), Box::new(b))
}

pub fn make_and(a: sparql::Expr, b: sparql::Expr) -> (r: sparql::Expr)
    ensures
        g::expr_of(r) == and(g::expr_of(a), g::expr_of(b)),
{
    sparql::Expr::And(Box::new(a), Box::new(b))
}

pub open spec fn or(a: g::Expr, b: g::Expr) -> g::Expr {
    g::Expr::Or(Box::new(a), Box::new(b))
}

pub fn make_or(a: sparql::Expr, b: sparql::Expr) -> (r: sparql::Expr)
    ensures
        g::expr_of(r) == or(g::expr_of(a), g::expr_of(b)),
{
    sparql::Expr::Or(Box::new(a), Box::new(b))
}

pub open spec fn not(a: g::Expr) -> g::Expr {
    g::Expr::Not(Box::new(a))
}

pub fn make_not(a: sparql::Expr) -> (r: sparql::Expr)
    ensures
        g::expr_of(r) == not(g::expr_of(a)),
{
    sparql::Expr::Not(Box::new(a))
}

pub open spec fn equal(a: g::Expr, b: g::Expr) -> g::Expr {
    g::Expr::Equal(Box::new(a), Box::new(b))
}

pub fn make_equal(a: sparql::Expr, b: sparql::Expr) -> (r: sparql::Expr)
    ensures
        g::expr_of(r) == equal(g::expr_of(a), g::expr_of(b)),
{
    sparql::Expr::Equal(Box::new(a), Box::new(b))
}

pub open spec fn same_term(a: g::Expr, b: g::Expr) -> g::Expr {
    g::Expr::SameTerm(Box::new(a), Box::new(b))
}

pub fn make_same_term(a: sparql::Expr, b: sparql::Expr) -> (r: sparql::Expr)
    ensures
        g::expr_of(r) == same_term(g::expr_of(a), g::expr_of(b)),
{
    sparql::Expr::SameTerm(Box::new(a), Box::new(b))
}

pub open spec fn cond(c: g::Expr, a: g::Expr, b: g::Expr) -> g::Expr {
    g::Expr::If(Box::new(c), Box::new(a), Box::new(b))
}

pub fn make_cond(c: sparql::Expr, a: sparql::Expr, b: sparql::Expr) -> (r: sparql::Expr)
    ensures
        g::expr_of(r) == cond(g::expr_of(c), g::expr_of(a), g::expr_of(b)),
{
    sparql::Expr::If(Box::new(c), Box::new(a), Box::new(b))
}

/// `a = b`, or its negation.
pub open spec fn equal_or_not(op: CompOp, a: g::Expr, b: g::Expr) -> g::Expr {
    if op is Ne {
        not(equal(a, b))
    } else {
        equal(a, b)
    }
}

pub fn make_equal_or_not(op: CompOp, a: sparql::Expr, b: sparql::Expr) -> (r: sparql::Expr)
    ensures
        g::expr_of(r) == equal_or_not(op, g::expr_of(a), g::expr_of(b)),
{
    match op {
        CompOp::Ne => make_not(make_equal(a, b)),
        _ => make_equal(a, b),
    }
}

/// Exclusive or, with each operand translated twice.
pub open spec fn xor(a: g::Expr, b: g::Expr, a2: g::Expr, b2: g::Expr) -> g::Expr {
    and(or(a, b), not(and(a2, b2)))
}

pub fn make_xor(a: sparql::Expr, b: sparql::Expr, a2: sparql::Expr, b2: sparql::Expr) -> (r:
    sparql::Expr)
    ensures
        g::expr_of(r) == xor(g::expr_of(a), g::expr_of(b), g::expr_of(a2), g::expr_of(b2)),
{
    make_and(make_or(a, b), make_not(make_and(a2, b2)))
}

// ── Comparisons ──────────────────────────────────────────────────────────────

/// That the datatype of a term is the given one.
pub open spec fn has_datatype(e: g::Expr, iri: Seq<char>) -> g::Expr {
    equal(call1(Function::Datatype, e), g::Expr::NamedNode(iri))
}

pub fn make_has_datatype(e: sparql::Expr, iri: &str) -> (r: sparql::Expr)
    ensures
        g::expr_of(r) == has_datatype(g::expr_of(e), iri@),
{
    make_equal(make_call1(Function::Datatype, e), sparql::Expr::NamedNode(iri.to_owned()))
}

/// An operand of an order: booleans as numbers, all else as it is.
pub open spec fn ordered(e: g::Expr) -> g::Expr {
    cond(
        and(call1(Function::IsLiteral, e), has_datatype(e, XSD_BOOLEAN@)),
        cast(XSD_INTEGER@, e),
        e,
    )
}

pub fn bool_to_int_for_order(e: sparql::Expr) -> (r: sparql::Expr)
    ensures
        g::expr_of(r) == ordered(g::expr_of(e)),
{
    let cond = make_and(
        make_call1(Function::IsLiteral, clone_expr(&e)),
        make_has_datatype(clone_expr(&e), XSD_BOOLEAN),
    );
    let number = make_cast(XSD_INTEGER, clone_expr(&e));
    make_cond(cond, number, e)
}

/// `a op b` for an operator that orders; another stands for `>=`.
pub open spec fn in_order(op: CompOp, a: g::Expr, b: g::Expr) -> g::Expr {
    match op {
        CompOp::Lt => g::Expr::Less(Box::new(a), Box::new(b)),
        CompOp::Le => g::Expr::LessOrEqual(Box::new(a), Box::new(b)),
        CompOp::Gt => g::Expr::Greater(Box::new(a), Box::new(b)),
        _ => g::Expr::GreaterOrEqual(Box::new(a), Box::new(b)),
    }
}

pub fn make_in_order(op: CompOp, a: sparql::Expr, b: sparql::Expr) -> (r: sparql::Expr)
    ensures
        g::expr_of(r) == in_order(op, g::expr_of(a), g::expr_of(b)),
{
    match op {
        CompOp::Lt => sparql::Expr::Less(Box::new(a), Box::new(b)),
        CompOp::Le => sparql::Expr::LessOrEqual(Box::new(a), Box::new(b)),
        CompOp::Gt => sparql::Expr::Greater(Box::new(a), Box::new(b)),
        _ => sparql::Expr::GreaterOrEqual(Box::new(a), Box::new(b)),
    }
}

pub open spec fn is_order(op: CompOp) -> bool {
    op is Lt || op is Le || op is Gt || op is Ge
}

pub fn orders(op: CompOp) -> (r: bool)
    ensures
        r == is_order(op),
{
    match op {
        CompOp::Lt | CompOp::Le | CompOp::Gt | CompOp::Ge => true,
        _ => false,
    }
}

/// That a term is a string, and not the text of a list or a map.
pub open spec fn is_plain_string(e: g::Expr) -> g::Expr {
    and(
        and(
            and(call1(Function::IsLiteral, e), has_datatype(e, XSD_STRING@)),
            not(call2(Function::StrStarts, e, quoted("["@))),
        ),
        not(call2(Function::StrStarts, e, quoted("{"@))),
    )
}

fn make_is_plain_string(e: &sparql::Expr) -> (r: sparql::Expr)
    ensures
        g::expr_of(r) == is_plain_string(g::expr_of(*e)),
{
    make_and(
        make_and(
            make_and(
                make_call1(Function::IsLiteral, clone_expr(e)),
                make_has_datatype(clone_expr(e), XSD_STRING),
            ),
            make_not(make_call2(Function::StrStarts, clone_expr(e), make_quoted("["))),
        ),
        make_not(make_call2(Function::StrStarts, clone_expr(e), make_quoted("{"))),
    )
}

pub open spec fn string_function(op: CompOp) -> Function {
    match op {
        CompOp::StartsWith => Function::StrStarts,
        CompOp::EndsWith => Function::StrEnds,
        _ => Function::Contains,
    }
}

/// A test on two strings; null, an unbound variable, where one is no string.
pub open spec fn string_test(op: CompOp, a: g::Expr, b: g::Expr, null: Seq<char>) -> g::Expr {
    cond(
        and(is_plain_string(a), is_plain_string(b)),
        call2(string_function(op), a, b),
        var(null),
    )
}

pub fn make_string_test(op: CompOp, a: sparql::Expr, b: sparql::Expr, null: String) -> (r:
    sparql::Expr)
    ensures
        g::expr_of(r) == string_test(op, g::expr_of(a), g::expr_of(b), null@),
{
    let both = make_and(make_is_plain_string(&a), make_is_plain_string(&b));
    let f = match op {
        CompOp::StartsWith => Function::StrStarts,
        CompOp::EndsWith => Function::StrEnds,
        _ => Function::Contains,
    };
    make_cond(both, make_call2(f, a, b), make_var(null))
}

pub open spec fn is_string_test(op: CompOp) -> bool {
    op is StartsWith || op is EndsWith || op is Contains
}

/// `a op b`, for the operators that are no tests on strings.
pub open spec fn related(op: CompOp, a: g::Expr, b: g::Expr) -> g::Expr {
    match op {
        CompOp::Eq => equal(a, b),
        CompOp::Ne => not(equal(a, b)),
        CompOp::In => g::Expr::CustomCall(LIST_CONTAINS@, seq![b, a]),
        CompOp::RegexMatch => call2(Function::Regex, a, b),
        _ => in_order(op, ordered(a), ordered(b)),
    }
}

pub fn make_related(op: CompOp, a: sparql::Expr, b: sparql::Expr) -> (r: sparql::Expr)
    ensures
        g::expr_of(r) == related(op, g::expr_of(a), g::expr_of(b)),
{
    match op {
        CompOp::Eq => make_equal(a, b),
        CompOp::Ne => make_not(make_equal(a, b)),
        CompOp::In => {
            let ghost x = g::expr_of(a);
            let ghost y = g::expr_of(b);
            let mut args: Vec<sparql::Expr> = Vec::new();
            proof {
                g::lemma_push_exprs(args@, b);
                g::lemma_push_exprs(args@.push(b), a);
            }
            args.push(b);
            args.push(a);
            assert(g::exprs_of(args@) =~= seq![y, x]);
            sparql::Expr::CustomCall(LIST_CONTAINS.to_owned(), args)
        },
        CompOp::RegexMatch => make_call2(Function::Regex, a, b),
        _ => make_in_order(op, bool_to_int_for_order(a), bool_to_int_for_order(b)),
    }
}

// ── Relationships ────────────────────────────────────────────────────────────

/// A term as an expression; a quoted triple has none, and stands as an empty text.
pub open spec fn term_expr(t: g::Term) -> g::Expr {
    match t {
        g::Term::NamedNode(n) => g::Expr::NamedNode(n),
        g::Term::Literal(l) => g::Expr::Literal(l),
        g::Term::Variable(v) => g::Expr::Variable(v),
        g::Term::Triple(_) => quoted(""@),
    }
}

pub fn term_to_sparexpr(t: &sparql::Term) -> (r: sparql::Expr)
    ensures
        g::expr_of(r) == term_expr(g::term_of(*t)),
{
    match t {
        sparql::Term::NamedNode(n) => sparql::Expr::NamedNode(n.clone()),
        sparql::Term::Literal(l) => sparql::Expr::Literal(clone_literal(l)),
        sparql::Term::Variable(v) => sparql::Expr::Variable(v.clone()),
        sparql::Term::Triple(_) => make_quoted(""),
    }
}

pub open spec fn predicate_expr(p: g::Predicate) -> g::Expr {
    match p {
        g::Predicate::NamedNode(n) => g::Expr::NamedNode(n),
        g::Predicate::Variable(v) => g::Expr::Variable(v),
    }
}

pub fn named_node_to_sparexpr(p: &sparql::Predicate) -> (r: sparql::Expr)
    ensures
        g::expr_of(r) == predicate_expr(g::predicate_of(*p)),
{
    match p {
        sparql::Predicate::NamedNode(n) => sparql::Expr::NamedNode(n.clone()),
        sparql::Predicate::Variable(v) => sparql::Expr::Variable(v.clone()),
    }
}

/// That two relationships have the same type.
pub open spec fn same_type(a: Edge, b: Edge) -> g::Expr {
    match (a.pred_var, b.pred_var) {
        (Some(x), Some(y)) => same_term(var(x@), var(y@)),
        (Some(x), None) => same_term(var(x@), quoted(b.pred@)),
        (None, Some(y)) => same_term(quoted(a.pred@), var(y@)),
        (None, None) => truth(a.pred@ == b.pred@),
    }
}

fn make_same_type(a: &Edge, b: &Edge) -> (r: sparql::Expr)
    ensures
        g::expr_of(r) == same_type(*a, *b),
{
    match (&a.pred_var, &b.pred_var) {
        (Some(x), Some(y)) => make_same_term(make_var(x.clone()), make_var(y.clone())),
        (Some(x), None) => make_same_term(make_var(x.clone()), make_quoted(b.pred.as_str())),
        (None, Some(y)) => make_same_term(make_quoted(a.pred.as_str()), make_var(y.clone())),
        (None, None) => make_truth(same_text(a.pred.as_str(), b.pred.as_str())),
    }
}

/// That two pairs of ends are the same, and the types too.
pub open spec fn same_ends(
    a: sparql::Term,
    b: sparql::Term,
    types: g::Expr,
    c: sparql::Term,
    d: sparql::Term,
) -> g::Expr {
    and(
        same_term(term_expr(g::term_of(a)), term_expr(g::term_of(b))),
        and(types, same_term(term_expr(g::term_of(c)), term_expr(g::term_of(d)))),
    )
}

/// That two relationships are the same, in either direction.
pub open spec fn same_edge(a: Edge, b: Edge) -> g::Expr {
    or(
        same_ends(a.src, b.src, same_type(a, b), a.dst, b.dst),
        same_ends(a.src, b.dst, same_type(a, b), a.dst, b.src),
    )
}

fn make_same_ends(
    a: &sparql::Term,
    b: &sparql::Term,
    types: sparql::Expr,
    c: &sparql::Term,
    d: &sparql::Term,
) -> (r: sparql::Expr)
    ensures
        g::expr_of(r) == same_ends(*a, *b, g::expr_of(types), *c, *d),
{
    make_and(
        make_same_term(term_to_sparexpr(a), term_to_sparexpr(b)),
        make_and(types, make_same_term(term_to_sparexpr(c), term_to_sparexpr(d))),
    )
}

pub fn make_same_edge(a: &Edge, b: &Edge) -> (r: sparql::Expr)
    ensures
        g::expr_of(r) == same_edge(*a, *b),
{
    make_or(
        make_same_ends(&a.src, &b.src, make_same_type(a, b), &a.dst, &b.dst),
        make_same_ends(&a.src, &b.dst, make_same_type(a, b), &a.dst, &b.src),
    )
}

// ── Sums ─────────────────────────────────────────────────────────────────────

/// Two texts, one after the other.
pub open spec fn concatenated(a: g::Expr, b: g::Expr) -> g::Expr {
    call2(Function::Concat, call1(Function::Str, a), call1(Function::Str, b))
}

pub fn make_concatenated(a: sparql::Expr, b: sparql::Expr) -> (r: sparql::Expr)
    ensures
        g::expr_of(r) == concatenated(g::expr_of(a), g::expr_of(b)),
{
    make_call2(Function::Concat, make_call1(Function::Str, a), make_call1(Function::Str, b))
}

pub open spec fn call3(f: Function, a: g::Expr, b: g::Expr, c: g::Expr) -> g::Expr {
    g::Expr::Call(f, seq![a, b, c])
}

/// Two lists, one after the other: the first without its closing bracket, the
/// second without its opening one.
pub open spec fn joined_lists(a: g::Expr, b: g::Expr) -> g::Expr {
    call3(
        Function::Concat,
        call3(
            Function::SubStr,
            a,
            integer(1),
            g::Expr::Subtract(
                Box::new(call1(Function::StrLen, a)),
                Box::new(integer(1)),
            ),
        ),
        quoted(", "@),
        call2(Function::SubStr, b, integer(2)),
    )
}

/// Two lists, or the sum of two numbers, as the first value is.
pub open spec fn list_or_sum(a: g::Expr, b: g::Expr) -> g::Expr {
    cond(
        call2(Function::StrStarts, call1(Function::Str, a), quoted("["@)),
        joined_lists(a, b),
        g::Expr::Add(Box::new(a), Box::new(b)),
    )
}

fn make_joined_lists(a: &sparql::Expr, b: &sparql::Expr) -> (r: sparql::Expr)
    ensures
        g::expr_of(r) == joined_lists(g::expr_of(*a), g::expr_of(*b)),
{
    let len = sparql::Expr::Subtract(
        Box::new(make_call1(Function::StrLen, clone_expr(a))),
        Box::new(make_integer(1)),
    );
    assert(g::expr_of(len) == g::Expr::Subtract(
        Box::new(call1(Function::StrLen, g::expr_of(*a))),
        Box::new(integer(1)),
    ));
    let head = make_call3(Function::SubStr, clone_expr(a), make_integer(1), len);
    let tail = make_call2(Function::SubStr, clone_expr(b), make_integer(2));
    make_call3(Function::Concat, head, make_quoted(", "), tail)
}

pub fn make_list_or_sum(a: sparql::Expr, b: sparql::Expr) -> (r: sparql::Expr)
    ensures
        g::expr_of(r) == list_or_sum(g::expr_of(a), g::expr_of(b)),
{
    let lists = make_joined_lists(&a, &b);
    let is_list = make_call2(
        Function::StrStarts,
        make_call1(Function::Str, clone_expr(&a)),
        make_quoted("["),
    );
    let ghost x = g::expr_of(a);
    let ghost y = g::expr_of(b);
    let sum = sparql::Expr::Add(Box::new(a), Box::new(b));
    assert(g::expr_of(sum) == g::Expr::Add(Box::new(x), Box::new(y)));
    make_cond(is_list, lists, sum)
}

// ── Arithmetic on constants ──────────────────────────────────────────────────

/// The operators of arithmetic.
#[derive(Clone, Copy, Debug, PartialEq, Eq, Structural)]
pub enum Arith {
    Add,
    Subtract,
    Multiply,
    Divide,
    Modulo,
}

/// The number of an integer literal.
pub open spec fn literal_number(e: g::Expr) -> Option<i64> {
    match e {
        g::Expr::Literal(l) => if l.datatype == Some(XSD_INTEGER@) {
            i64_in(l.value, 10)
        } else {
            None
        },
        _ => None,
    }
}

/// The quotient with its fraction cut off.
pub open spec fn quotient(a: int, b: int) -> int {
    let x = if a < 0 {
        -a
    } else {
        a
    };
    let y = if b < 0 {
        -b
    } else {
        b
    };
    if (a < 0) == (b < 0) {
        x / y
    } else {
        -(x / y)
    }
}

/// What the operator makes of two numbers; nothing by zero.
pub open spec fn computed(op: Arith, a: int, b: int) -> Option<int> {
    match op {
        Arith::Add => Some(a + b),
        Arith::Subtract => Some(a - b),
        Arith::Multiply => Some(a * b),
        Arith::Divide => if b == 0 {
            None
        } else {
            Some(quotient(a, b))
        },
        Arith::Modulo => if b == 0 {
            None
        } else {
            Some(a - quotient(a, b) * b)
        },
    }
}

/// The value of arithmetic on two integer literals, where 64 bits hold it.
pub open spec fn folded(op: Arith, a: g::Expr, b: g::Expr) -> Option<g::Expr> {
    match (literal_number(a), literal_number(b)) {
        (Some(x), Some(y)) => match computed(op, x as int, y as int) {
            Some(n) => if i64::MIN <= n <= i64::MAX {
                Some(integer(n))
            } else {
                None
            },
            None => None,
        },
        _ => None,
    }
}

fn number_of(e: &sparql::Expr) -> (r: Option<i64>)
    ensures
        r == literal_number(g::expr_of(*e)),
{
    match e {
        sparql::Expr::Literal(l) => match &l.datatype {
            Some(d) => if same_text(d.as_str(), XSD_INTEGER) {
                parse_i64(l.value.as_str(), 10)
            } else {
                None
            },
            None => None,
        },
        _ => None,
    }
}

fn size_of_number(n: i64) -> (r: u128)
    ensures
        r == (if n < 0 {
            -n
        } else {
            n as int
        }),
{
    if n < 0 {
        (-(n as i128)) as u128
    } else {
        n as u128
    }
}

fn divide(a: i64, b: i64) -> (r: i128)
    requires
        b != 0,
    ensures
        r == quotient(a as int, b as int),
        -0x8000_0000_0000_0000 <= r <= 0x8000_0000_0000_0000,
{
    let x = size_of_number(a);
    let y = size_of_number(b);
    let q: u128 = x / y;
    assert(q <= x) by (nonlinear_arith)
        requires
            q == x / y,
            y > 0,
    ;
    if (a < 0) == (b < 0) {
        q as i128
    } else {
        -(q as i128)
    }
}

fn compute(op: Arith, a: i64, b: i64) -> (r: Option<i128>)
    ensures
        (match r {
            Some(n) => Some(n as int),
            None => None,
        }) == computed(op, a as int, b as int),
{
    let x: i128 = a as i128;
    let y: i128 = b as i128;
    match op {
        Arith::Add => Some(x + y),
        Arith::Subtract => Some(x - y),
        Arith::Multiply => {
            assert(-0x8000_0000_0000_0000 * 0x8000_0000_0000_0000 <= x * y <= 0x8000_0000_0000_0000
                * 0x8000_0000_0000_0000) by (nonlinear_arith)
                requires
                    -0x8000_0000_0000_0000 <= x <= 0x8000_0000_0000_0000,
                    -0x8000_0000_0000_0000 <= y <= 0x8000_0000_0000_0000,
            ;
            Some(x * y)
        },
        Arith::Divide => if b == 0 {
            None
        } else {
            Some(divide(a, b))
        },
        Arith::Modulo => if b == 0 {
            None
        } else {
            let q = divide(a, b);
            assert(-0x8000_0000_0000_0000 * 0x8000_0000_0000_0000 <= q * y <= 0x8000_0000_0000_0000
                * 0x8000_0000_0000_0000) by (nonlinear_arith)
                requires
                    -0x8000_0000_0000_0000 <= q <= 0x8000_0000_0000_0000,
                    -0x8000_0000_0000_0000 <= y <= 0x8000_0000_0000_0000,
            ;
            Some(x - q * y)
        },
    }
}

pub fn try_const_fold_arith(op: Arith, a: &sparql::Expr, b: &sparql::Expr) -> (r: Option<
    sparql::Expr,
>)
    ensures
        g::opt_expr(r) == folded(op, g::expr_of(*a), g::expr_of(*b)),
{
    match (number_of(a), number_of(b)) {
        (Some(x), Some(y)) => match compute(op, x, y) {
            Some(n) => if i64::MIN as i128 <= n && n <= i64::MAX as i128 {
                Some(make_integer(n as i64))
            } else {
                None
            },
            None => None,
        },
        _ => None,
    }
}

/// The value of arithmetic, or the arithmetic itself.
pub open spec fn arith(op: Arith, a: g::Expr, b: g::Expr) -> g::Expr {
    match folded(op, a, b) {
        Some(e) => e,
        None => match op {
            Arith::Add => g::Expr::Add(Box::new(a), Box::new(b)),
            Arith::Subtract => g::Expr::Subtract(Box::new(a), Box::new(b)),
            Arith::Multiply => g::Expr::Multiply(Box::new(a), Box::new(b)),
            Arith::Divide => divided(a, b),
            Arith::Modulo => g::Expr::Subtract(
                Box::new(a),
                Box::new(
                    g::Expr::Multiply(
                        Box::new(
                            call1(
                                Function::Floor,
                                g::Expr::Divide(Box::new(a), Box::new(b)),
                            ),
                        ),
                        Box::new(b),
                    ),
                ),
            ),
        },
    }
}

/// The number that the text of a literal is.
pub open spec fn written_number(e: g::Expr) -> Option<i64> {
    match e {
        g::Expr::Literal(l) => i64_in(l.value, 10),
        _ => None,
    }
}

/// A quotient: rounded down where the divisor is an integer. A quotient divided
/// again is divided by the product, where 64 bits hold it.
pub open spec fn divided(a: g::Expr, b: g::Expr) -> g::Expr {
    match twice_divided(a, b) {
        Some(e) => e,
        None => {
            let d = g::Expr::Divide(Box::new(a), Box::new(b));
            if written_number(b) is Some {
                call1(Function::Floor, d)
            } else {
                d
            }
        },
    }
}

pub open spec fn twice_divided(a: g::Expr, b: g::Expr) -> Option<g::Expr> {
    match a {
        g::Expr::Divide(x, y) => match (written_number(*y), written_number(b)) {
            (Some(m), Some(n)) => if i64::MIN <= m * n <= i64::MAX {
                Some(
                    call1(
                        Function::Floor,
                        g::Expr::Divide(x, Box::new(integer(m * n))),
                    ),
                )
            } else {
                None
            },
            _ => None,
        },
        _ => None,
    }
}

fn written(e: &sparql::Expr) -> (r: Option<i64>)
    ensures
        r == written_number(g::expr_of(*e)),
{
    match e {
        sparql::Expr::Literal(l) => parse_i64(l.value.as_str(), 10),
        _ => None,
    }
}

fn divide_twice(a: &sparql::Expr, b: &sparql::Expr) -> (r: Option<sparql::Expr>)
    ensures
        g::opt_expr(r) == twice_divided(g::expr_of(*a), g::expr_of(*b)),
{
    match a {
        sparql::Expr::Divide(x, y) => match (written(y), written(b)) {
            (Some(m), Some(n)) => match m.checked_mul(n) {
                Some(p) => {
                    let d = sparql::Expr::Divide(
                        Box::new(clone_expr(x)),
                        Box::new(make_integer(p)),
                    );
                    assert(g::expr_of(d) == g::Expr::Divide(
                        Box::new(g::expr_of(**x)),
                        Box::new(integer(m * n)),
                    ));
                    Some(make_call1(Function::Floor, d))
                },
                None => None,
            },
            _ => None,
        },
        _ => None,
    }
}

fn make_divided(a: sparql::Expr, b: sparql::Expr) -> (r: sparql::Expr)
    ensures
        g::expr_of(r) == divided(g::expr_of(a), g::expr_of(b)),
{
    if let Some(e) = divide_twice(&a, &b) {
        return e;
    }
    let whole = written(&b).is_some();
    let ghost x = g::expr_of(a);
    let ghost y = g::expr_of(b);
    let d = sparql::Expr::Divide(Box::new(a), Box::new(b));
    assert(g::expr_of(d) == g::Expr::Divide(Box::new(x), Box::new(y)));
    if whole {
        make_call1(Function::Floor, d)
    } else {
        d
    }
}

fn make_remainder(a: sparql::Expr, b: sparql::Expr) -> (r: sparql::Expr)
    ensures
        folded(Arith::Modulo, g::expr_of(a), g::expr_of(b)) is None ==> g::expr_of(r) == arith(
            Arith::Modulo,
            g::expr_of(a),
            g::expr_of(b),
        ),
{
    let ghost x = g::expr_of(a);
    let ghost y = g::expr_of(b);
    let d = sparql::Expr::Divide(Box::new(clone_expr(&a)), Box::new(clone_expr(&b)));
    assert(g::expr_of(d) == g::Expr::Divide(Box::new(x), Box::new(y)));
    let f = make_call1(Function::Floor, d);
    let p = sparql::Expr::Multiply(Box::new(f), Box::new(b));
    assert(g::expr_of(p) == g::Expr::Multiply(Box::new(g::expr_of(f)), Box::new(y)));
    sparql::Expr::Subtract(Box::new(a), Box::new(p))
}

pub fn make_arith(op: Arith, a: sparql::Expr, b: sparql::Expr) -> (r: sparql::Expr)
    ensures
        g::expr_of(r) == arith(op, g::expr_of(a), g::expr_of(b)),
{
    if let Some(e) = try_const_fold_arith(op, &a, &b) {
        return e;
    }
    match op {
        Arith::Add => sparql::Expr::Add(Box::new(a), Box::new(b)),
        Arith::Subtract => sparql::Expr::Subtract(Box::new(a), Box::new(b)),
        Arith::Multiply => sparql::Expr::Multiply(Box::new(a), Box::new(b)),
        Arith::Divide => make_divided(a, b),
        Arith::Modulo => make_remainder(a, b),
    }
}

/// The number with the opposite sign, or the minus sign before the operand.
pub open spec fn negative_of(e: g::Expr) -> g::Expr {
    match e {
        g::Expr::Literal(l) => if l.datatype == Some(XSD_INTEGER@) && i64_in(l.value, 10) is Some {
            integer(-(i64_in(l.value, 10).unwrap()))
        } else if l.datatype == Some(XSD_DOUBLE@) && real_in(l.value) is Some {
            g::Expr::Literal(
                typed(real_text(opposite(real_in(l.value)->0), Form::Debug), XSD_DOUBLE@),
            )
        } else {
            g::Expr::UnaryMinus(Box::new(e))
        },
        _ => g::Expr::UnaryMinus(Box::new(e)),
    }
}

pub fn make_negative_of(e: sparql::Expr) -> (r: sparql::Expr)
    ensures
        g::expr_of(r) == negative_of(g::expr_of(e)),
{
    if let sparql::Expr::Literal(l) = &e {
        if let Some(d) = &l.datatype {
            if same_text(d.as_str(), XSD_INTEGER) {
                if let Some(n) = parse_i64(l.value.as_str(), 10) {
                    return sparql::Expr::Literal(typed_literal(neg_dec_i64(n), XSD_INTEGER));
                }
            }
            if same_text(d.as_str(), XSD_DOUBLE) {
                if let Some(n) = read_number(l.value.as_str()) {
                    let t = number_text(opposite_of(n), Form::Debug);
                    return sparql::Expr::Literal(typed_literal(t, XSD_DOUBLE));
                }
            }
        }
    }
    sparql::Expr::UnaryMinus(Box::new(e))
}

} // verus!
