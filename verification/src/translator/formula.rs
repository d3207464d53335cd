//! Formulas over a text: what is computed from the text of a temporal value.
use vstd::prelude::*;

use crate::lqa::write::literals::XSD_INTEGER;
use crate::sparql::algebra as sparql;
use crate::sparql::algebra::Function;
use crate::sparql::copy::clone_expr;
#[allow(unused_imports)]
use crate::sparql::model as g;
use crate::text::dec_i64;
#[allow(unused_imports)]
use crate::text::{dec, texts};
use crate::translator::ground::{plain_literal, typed_literal};
#[allow(unused_imports)]
use crate::translator::ground::{plain, typed};

verus! {

pub const XSD_DECIMAL: &'static str = "http://www.w3.org/2001/XMLSchema#decimal";

/// A formula. Its parts are the text itself, constants, and the values of
/// formulas that have been bound to variables before.
#[derive(Debug)]
pub enum Formula {
    /// The text of the value
    Input,
    Text(&'static str),
    Count(i64),
    /// A decimal number
    Num(&'static str),
    /// The value that was bound at the place
    Bound(usize),
    /// So many characters from a place on, counted from 1
    Cut(Box<Formula>, i64, i64),
    After(Box<Formula>, &'static str),
    Before(Box<Formula>, &'static str),
    Has(Box<Formula>, &'static str),
    Join(Box<Formula>, Box<Formula>),
    Branch(Box<Formula>, Box<Formula>, Box<Formula>),
    /// As an integer
    Whole(Box<Formula>),
    /// As a decimal number
    Decimal(Box<Formula>),
    Floor(Box<Formula>),
    Ceil(Box<Formula>),
    Same(Box<Formula>, Box<Formula>),
    Negative(Box<Formula>),
    Plus(Box<Formula>, Box<Formula>),
    Minus(Box<Formula>, Box<Formula>),
    Times(Box<Formula>, Box<Formula>),
    Over(Box<Formula>, Box<Formula>),
}

#[verifier::allow_in_spec]
pub fn input() -> Formula
    returns
        Formula::Input,
{
    Formula::Input
}

#[verifier::allow_in_spec]
pub fn text(t: &'static str) -> Formula
    returns
        Formula::Text(t),
{
    Formula::Text(t)
}

#[verifier::allow_in_spec]
pub fn count(n: i64) -> Formula
    returns
        Formula::Count(n),
{
    Formula::Count(n)
}

#[verifier::allow_in_spec]
pub fn num(t: &'static str) -> Formula
    returns
        Formula::Num(t),
{
    Formula::Num(t)
}

#[verifier::allow_in_spec]
pub fn bound(k: usize) -> Formula
    returns
        Formula::Bound(k),
{
    Formula::Bound(k)
}

#[verifier::allow_in_spec]
pub fn cut(f: Formula, from: i64, len: i64) -> Formula
    returns
        Formula::Cut(Box::new(f), from, len),
{
    Formula::Cut(Box::new(f), from, len)
}

#[verifier::allow_in_spec]
pub fn after(f: Formula, t: &'static str) -> Formula
    returns
        Formula::After(Box::new(f), t),
{
    Formula::After(Box::new(f), t)
}

#[verifier::allow_in_spec]
pub fn before(f: Formula, t: &'static str) -> Formula
    returns
        Formula::Before(Box::new(f), t),
{
    Formula::Before(Box::new(f), t)
}

#[verifier::allow_in_spec]
pub fn holds(f: Formula, t: &'static str) -> Formula
    returns
        Formula::Has(Box::new(f), t),
{
    Formula::Has(Box::new(f), t)
}

#[verifier::allow_in_spec]
pub fn glue(a: Formula, b: Formula) -> Formula
    returns
        Formula::Join(Box::new(a), Box::new(b)),
{
    Formula::Join(Box::new(a), Box::new(b))
}

#[verifier::allow_in_spec]
pub fn branch(c: Formula, a: Formula, b: Formula) -> Formula
    returns
        Formula::Branch(Box::new(c), Box::new(a), Box::new(b)),
{
    Formula::Branch(Box::new(c), Box::new(a), Box::new(b))
}

#[verifier::allow_in_spec]
pub fn whole(f: Formula) -> Formula
    returns
        Formula::Whole(Box::new(f)),
{
    Formula::Whole(Box::new(f))
}

#[verifier::allow_in_spec]
pub fn decimal(f: Formula) -> Formula
    returns
        Formula::Decimal(Box::new(f)),
{
    Formula::Decimal(Box::new(f))
}

#[verifier::allow_in_spec]
pub fn floor(f: Formula) -> Formula
    returns
        Formula::Floor(Box::new(f)),
{
    Formula::Floor(Box::new(f))
}

#[verifier::allow_in_spec]
pub fn ceil(f: Formula) -> Formula
    returns
        Formula::Ceil(Box::new(f)),
{
    Formula::Ceil(Box::new(f))
}

#[verifier::allow_in_spec]
pub fn negative(f: Formula) -> Formula
    returns
        Formula::Negative(Box::new(f)),
{
    Formula::Negative(Box::new(f))
}

#[verifier::allow_in_spec]
pub fn same(a: Formula, b: Formula) -> Formula
    returns
        Formula::Same(Box::new(a), Box::new(b)),
{
    Formula::Same(Box::new(a), Box::new(b))
}

#[verifier::allow_in_spec]
pub fn plus(a: Formula, b: Formula) -> Formula
    returns
        Formula::Plus(Box::new(a), Box::new(b)),
{
    Formula::Plus(Box::new(a), Box::new(b))
}

#[verifier::allow_in_spec]
pub fn minus(a: Formula, b: Formula) -> Formula
    returns
        Formula::Minus(Box::new(a), Box::new(b)),
{
    Formula::Minus(Box::new(a), Box::new(b))
}

#[verifier::allow_in_spec]
pub fn times(a: Formula, b: Formula) -> Formula
    returns
        Formula::Times(Box::new(a), Box::new(b)),
{
    Formula::Times(Box::new(a), Box::new(b))
}

#[verifier::allow_in_spec]
pub fn over(a: Formula, b: Formula) -> Formula
    returns
        Formula::Over(Box::new(a), Box::new(b)),
{
    Formula::Over(Box::new(a), Box::new(b))
}

/// The expression of a formula: `input` for the value whose text is taken, and
/// the names for the variables that hold what has been bound.
pub open spec fn expand(f: Formula, input: g::Expr, names: Seq<Seq<char>>) -> g::Expr
    decreases f,
{
    match f {
        Formula::Input => call1(Function::Str, input),
        Formula::Text(t) => quoted(t@),
        Formula::Count(n) => integer(n as int),
        Formula::Num(t) => g::Expr::Literal(typed(t@, XSD_DECIMAL@)),
        Formula::Bound(k) => g::Expr::Variable(name_at(names, k as int)),
        Formula::Cut(a, from, len) => g::Expr::Call(
            Function::SubStr,
            seq![expand(*a, input, names), integer(from as int), integer(len as int)],
        ),
        Formula::After(a, t) => call2(Function::StrAfter, expand(*a, input, names), quoted(t@)),
        Formula::Before(a, t) => call2(Function::StrBefore, expand(*a, input, names), quoted(t@)),
        Formula::Has(a, t) => call2(Function::Contains, expand(*a, input, names), quoted(t@)),
        Formula::Join(a, b) => call2(
            Function::Concat,
            expand(*a, input, names),
            expand(*b, input, names),
        ),
        Formula::Branch(c, a, b) => g::Expr::If(
            Box::new(expand(*c, input, names)),
            Box::new(expand(*a, input, names)),
            Box::new(expand(*b, input, names)),
        ),
        Formula::Whole(a) => cast(XSD_INTEGER@, expand(*a, input, names)),
        Formula::Decimal(a) => cast(XSD_DECIMAL@, expand(*a, input, names)),
        Formula::Floor(a) => call1(Function::Floor, expand(*a, input, names)),
        Formula::Ceil(a) => call1(Function::Ceil, expand(*a, input, names)),
        Formula::Same(a, b) => g::Expr::Equal(
            Box::new(expand(*a, input, names)),
            Box::new(expand(*b, input, names)),
        ),
        Formula::Negative(a) => g::Expr::UnaryMinus(Box::new(expand(*a, input, names))),
        Formula::Plus(a, b) => g::Expr::Add(
            Box::new(expand(*a, input, names)),
            Box::new(expand(*b, input, names)),
        ),
        Formula::Minus(a, b) => g::Expr::Subtract(
            Box::new(expand(*a, input, names)),
            Box::new(expand(*b, input, names)),
        ),
        Formula::Times(a, b) => g::Expr::Multiply(
            Box::new(expand(*a, input, names)),
            Box::new(expand(*b, input, names)),
        ),
        Formula::Over(a, b) => g::Expr::Divide(
            Box::new(expand(*a, input, names)),
            Box::new(expand(*b, input, names)),
        ),
    }
}

pub open spec fn name_at(names: Seq<Seq<char>>, k: int) -> Seq<char> {
    if 0 <= k < names.len() {
        names[k]
    } else {
        seq![]
    }
}

pub open spec fn call1(f: Function, a: g::Expr) -> g::Expr {
    g::Expr::Call(f, seq![a])
}

pub open spec fn call2(f: Function, a: g::Expr, b: g::Expr) -> g::Expr {
    g::Expr::Call(f, seq![a, b])
}

/// A call of the function that converts to a datatype.
pub open spec fn cast(iri: Seq<char>, a: g::Expr) -> g::Expr {
    g::Expr::CustomCall(iri, seq![a])
}

/// A plain string.
pub open spec fn quoted(t: Seq<char>) -> g::Expr {
    g::Expr::Literal(plain(t))
}

pub open spec fn integer(n: int) -> g::Expr {
    g::Expr::Literal(typed(dec(n), XSD_INTEGER@))
}

fn args1(a: sparql::Expr) -> (r: Vec<sparql::Expr>)
    ensures
        g::exprs_of(r@) == seq![g::expr_of(a)],
{
    let mut v: Vec<sparql::Expr> = Vec::new();
    proof {
        g::lemma_push_exprs(v@, a);
    }
    v.push(a);
    assert(g::exprs_of(v@) =~= seq![g::expr_of(a)]);
    v
}

fn args2(a: sparql::Expr, b: sparql::Expr) -> (r: Vec<sparql::Expr>)
    ensures
        g::exprs_of(r@) == seq![g::expr_of(a), g::expr_of(b)],
{
    let mut v = args1(a);
    proof {
        g::lemma_push_exprs(v@, b);
    }
    v.push(b);
    assert(g::exprs_of(v@) =~= seq![g::expr_of(a), g::expr_of(b)]);
    v
}

pub fn make_call1(f: Function, a: sparql::Expr) -> (r: sparql::Expr)
    ensures
        g::expr_of(r) == call1(f, g::expr_of(a)),
{
    sparql::Expr::Call(f, args1(a))
}

pub fn make_call2(f: Function, a: sparql::Expr, b: sparql::Expr) -> (r: sparql::Expr)
    ensures
        g::expr_of(r) == call2(f, g::expr_of(a), g::expr_of(b)),
{
    sparql::Expr::Call(f, args2(a, b))
}

pub fn make_call3(f: Function, a: sparql::Expr, b: sparql::Expr, c: sparql::Expr) -> (r:
    sparql::Expr)
    ensures
        g::expr_of(r) == g::Expr::Call(f, seq![g::expr_of(a), g::expr_of(b), g::expr_of(c)]),
{
    let mut v = args2(a, b);
    proof {
        g::lemma_push_exprs(v@, c);
    }
    v.push(c);
    assert(g::exprs_of(v@) =~= seq![g::expr_of(a), g::expr_of(b), g::expr_of(c)]);
    sparql::Expr::Call(f, v)
}

pub fn make_cast(iri: &str, a: sparql::Expr) -> (r: sparql::Expr)
    ensures
        g::expr_of(r) == cast(iri@, g::expr_of(a)),
{
    sparql::Expr::CustomCall(iri.to_owned(), args1(a))
}

pub fn make_quoted(t: &str) -> (r: sparql::Expr)
    ensures
        g::expr_of(r) == quoted(t@),
{
    sparql::Expr::Literal(plain_literal(t.to_owned()))
}

pub fn make_integer(n: i64) -> (r: sparql::Expr)
    ensures
        g::expr_of(r) == integer(n as int),
{
    sparql::Expr::Literal(typed_literal(dec_i64(n), XSD_INTEGER))
}

/// Writes a formula as an expression.
pub fn write_formula(f: &Formula, input: &sparql::Expr, names: &Vec<String>) -> (r: sparql::Expr)
    ensures
        g::expr_of(r) == expand(*f, g::expr_of(*input), texts(names@)),
    decreases f,
{
    match f {
        Formula::Input => make_call1(Function::Str, clone_expr(input)),
        Formula::Text(t) => make_quoted(t),
        Formula::Count(n) => make_integer(*n),
        Formula::Num(t) => sparql::Expr::Literal(typed_literal((*t).to_owned(), XSD_DECIMAL)),
        Formula::Bound(k) => {
            if *k < names.len() {
                sparql::Expr::Variable(names[*k].clone())
            } else {
                let r = sparql::Expr::Variable(String::new());
                assert(g::expr_of(r)->Variable_0 =~= seq![]);
                r
            }
        },
        Formula::Cut(a, from, len) => make_call3(
            Function::SubStr,
            write_formula(a, input, names),
            make_integer(*from),
            make_integer(*len),
        ),
        Formula::After(a, t) => make_call2(
            Function::StrAfter,
            write_formula(a, input, names),
            make_quoted(t),
        ),
        Formula::Before(a, t) => make_call2(
            Function::StrBefore,
            write_formula(a, input, names),
            make_quoted(t),
        ),
        Formula::Has(a, t) => make_call2(
            Function::Contains,
            write_formula(a, input, names),
            make_quoted(t),
        ),
        Formula::Join(a, b) => make_call2(
            Function::Concat,
            write_formula(a, input, names),
            write_formula(b, input, names),
        ),
        Formula::Branch(c, a, b) => sparql::Expr::If(
            Box::new(write_formula(c, input, names)),
            Box::new(write_formula(a, input, names)),
            Box::new(write_formula(b, input, names)),
        ),
        Formula::Whole(a) => make_cast(XSD_INTEGER, write_formula(a, input, names)),
        Formula::Decimal(a) => make_cast(XSD_DECIMAL, write_formula(a, input, names)),
        Formula::Floor(a) => make_call1(Function::Floor, write_formula(a, input, names)),
        Formula::Ceil(a) => make_call1(Function::Ceil, write_formula(a, input, names)),
        Formula::Same(a, b) => sparql::Expr::Equal(
            Box::new(write_formula(a, input, names)),
            Box::new(write_formula(b, input, names)),
        ),
        Formula::Negative(a) => sparql::Expr::UnaryMinus(
            Box::new(write_formula(a, input, names)),
        ),
        Formula::Plus(a, b) => sparql::Expr::Add(
            Box::new(write_formula(a, input, names)),
            Box::new(write_formula(b, input, names)),
        ),
        Formula::Minus(a, b) => sparql::Expr::Subtract(
            Box::new(write_formula(a, input, names)),
            Box::new(write_formula(b, input, names)),
        ),
        Formula::Times(a, b) => sparql::Expr::Multiply(
            Box::new(write_formula(a, input, names)),
            Box::new(write_formula(b, input, names)),
        ),
        Formula::Over(a, b) => sparql::Expr::Divide(
            Box::new(write_formula(a, input, names)),
            Box::new(write_formula(b, input, names)),
        ),
    }
}

} // verus!
