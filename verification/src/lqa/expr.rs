//! Expressions of the logical query algebra.
use vstd::prelude::*;

use crate::number::Float;

verus! {

#[derive(Clone, Debug)]
pub enum Literal {
    Integer(i64),
    Float(Float),
    String(String),
    Boolean(bool),
    Null,
    /// A lexical form and the IRI of its datatype.
    TypedLiteral(String, String),
    Iri(String),
}

#[derive(Clone, Copy, Debug, PartialEq, Eq, Structural)]
pub enum UnaryOp {
    Neg,
    Pos,
}

#[derive(Clone, Copy, Debug, PartialEq, Eq, Structural)]
pub enum CmpOp {
    Eq,
    Ne,
    Lt,
    Le,
    Gt,
    Ge,
    In,
    StartsWith,
    EndsWith,
    Contains,
    RegexMatch,
}

#[derive(Debug)]
pub enum Expr {
    Literal(Literal),
    Variable { name: String },
    Property(Box<Expr>, String),
    Unary(UnaryOp, Box<Expr>),
    Comparison(CmpOp, Box<Expr>, Box<Expr>),
    And(Box<Expr>, Box<Expr>),
    Or(Box<Expr>, Box<Expr>),
    Not(Box<Expr>),
    IsNull(Box<Expr>),
    IsNotNull(Box<Expr>),
    LabelCheck { expr: Box<Expr>, labels: Vec<String> },
    List(Vec<Expr>),
    MapLit(Vec<(String, Expr)>),
    Add(Box<Expr>, Box<Expr>),
    Sub(Box<Expr>, Box<Expr>),
    Mul(Box<Expr>, Box<Expr>),
    Div(Box<Expr>, Box<Expr>),
    FunctionCall { name: String, distinct: bool, args: Vec<Expr> },
}

} // verus!
