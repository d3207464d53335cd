//! The SPARQL algebra, as far as the translator writes it.
use vstd::prelude::*;

verus! {

/// The functions of SPARQL.
#[derive(Clone, Copy, Debug, PartialEq, Eq, Structural)]
pub enum Function {
    Str,
    StrLen,
    SubStr,
    StrStarts,
    StrEnds,
    StrAfter,
    StrBefore,
    Contains,
    Concat,
    IsLiteral,
    Datatype,
    Floor,
    Ceil,
    Regex,
}

/// A literal; a plain string where there is no datatype.
#[derive(Debug, PartialEq)]
pub struct Literal {
    pub value: String,
    pub datatype: Option<String>,
}

/// A term of a triple pattern.
#[derive(Debug, PartialEq)]
pub enum Term {
    NamedNode(String),
    Literal(Literal),
    Variable(String),
    /// A quoted triple
    Triple(Box<TriplePattern>),
}

/// What stands in the middle of a triple pattern.
#[derive(Debug, PartialEq)]
pub enum Predicate {
    NamedNode(String),
    Variable(String),
}

/// A triple pattern.
#[derive(Debug, PartialEq)]
pub struct TriplePattern {
    pub subject: Term,
    pub predicate: Predicate,
    pub object: Term,
}

/// A term without variables.
#[derive(Debug, PartialEq)]
pub enum GroundTerm {
    NamedNode(String),
    Literal(Literal),
}

/// An expression.
#[derive(Debug, PartialEq)]
pub enum Expr {
    NamedNode(String),
    Literal(Literal),
    Variable(String),
    Or(Box<Expr>, Box<Expr>),
    And(Box<Expr>, Box<Expr>),
    Equal(Box<Expr>, Box<Expr>),
    SameTerm(Box<Expr>, Box<Expr>),
    Greater(Box<Expr>, Box<Expr>),
    GreaterOrEqual(Box<Expr>, Box<Expr>),
    Less(Box<Expr>, Box<Expr>),
    LessOrEqual(Box<Expr>, Box<Expr>),
    In(Box<Expr>, Vec<Expr>),
    Add(Box<Expr>, Box<Expr>),
    Subtract(Box<Expr>, Box<Expr>),
    Multiply(Box<Expr>, Box<Expr>),
    Divide(Box<Expr>, Box<Expr>),
    UnaryMinus(Box<Expr>),
    Not(Box<Expr>),
    Exists(Box<GraphPattern>),
    Bound(String),
    If(Box<Expr>, Box<Expr>, Box<Expr>),
    Coalesce(Vec<Expr>),
    Call(Function, Vec<Expr>),
    /// A call of the function with the IRI
    CustomCall(String, Vec<Expr>),
}

/// An aggregate function.
#[derive(Debug, PartialEq)]
pub enum AggregateFunction {
    Count,
    Sum,
    Avg,
    Min,
    Max,
    GroupConcat { separator: Option<String> },
}

/// An aggregate.
#[allow(inconsistent_fields)]
#[derive(Debug, PartialEq)]
pub enum Aggregate {
    /// `COUNT(*)`
    CountSolutions { distinct: bool },
    FunctionCall { name: AggregateFunction, expr: Expr, distinct: bool },
}

/// An aggregate and the variable that it is bound to.
#[derive(Debug, PartialEq)]
pub struct NamedAggregate {
    pub variable: String,
    pub aggregate: Aggregate,
}

/// A sort key.
#[derive(Debug, PartialEq)]
pub enum OrderExpression {
    Asc(Expr),
    Desc(Expr),
}

/// A graph pattern.
#[allow(inconsistent_fields)]
#[derive(Debug, PartialEq)]
pub enum GraphPattern {
    Bgp { patterns: Vec<TriplePattern> },
    Join { left: Box<GraphPattern>, right: Box<GraphPattern> },
    LeftJoin { left: Box<GraphPattern>, right: Box<GraphPattern>, expression: Option<Expr> },
    Filter { expr: Expr, inner: Box<GraphPattern> },
    Union { left: Box<GraphPattern>, right: Box<GraphPattern> },
    Extend { inner: Box<GraphPattern>, variable: String, expression: Expr },
    Values { variables: Vec<String>, bindings: Vec<Vec<Option<GroundTerm>>> },
    OrderBy { inner: Box<GraphPattern>, expression: Vec<OrderExpression> },
    Distinct { inner: Box<GraphPattern> },
    Slice { inner: Box<GraphPattern>, start: usize, length: Option<usize> },
    Group { inner: Box<GraphPattern>, variables: Vec<String>, aggregates: Vec<NamedAggregate> },
}

} // verus!
