//! Abstract syntax of openCypher queries.
use vstd::prelude::*;

use crate::number::Float;

verus! {

/// A name: of a variable, a label, a property or a relationship type.
pub type Ident = String;

pub type Label = String;

pub type RelType = String;

/// `{key: expr, …}`
pub type MapLiteral = Vec<(Ident, Expression)>;

/// The direction of a relationship.
#[derive(Clone, Copy, Debug, PartialEq, Eq, Structural)]
pub enum Direction {
    /// `-->` or `-[…]->`
    Right,
    /// `<--` or `<-[…]-`
    Left,
    /// `--` or `-[…]-`
    Both,
}

/// The length of a variable-length relationship: `*`, `*2`, `*1..3`.
#[derive(Clone, Copy, Debug, PartialEq, Eq, Structural)]
pub struct RangeQuantifier {
    pub lower: Option<u64>,
    pub upper: Option<u64>,
}

#[derive(Clone, Copy, Debug, PartialEq, Eq, Structural)]
pub enum QuantifierKind {
    All,
    Any,
    NoneOf,
    Single,
}

/// Comparison operators.
#[derive(Clone, Copy, Debug, PartialEq, Eq, Structural)]
pub enum CompOp {
    Eq,
    Ne,
    Lt,
    Le,
    Gt,
    Ge,
    In,
    StartsWith,
    EndsWith,
    Contains,
    RegexMatch,
}

/// A parsed query.
#[derive(Debug, PartialEq)]
pub struct CypherQuery {
    pub clauses: Vec<Clause>,
}

/// One clause of a query.
#[derive(Debug, PartialEq)]
pub enum Clause {
    Match(MatchClause),
    With(WithClause),
    Return(ReturnClause),
    Unwind(UnwindClause),
    Create(CreateClause),
    Merge(MergeClause),
    SetItems(SetClause),
    Delete(DeleteClause),
    Remove(RemoveClause),
    Call(CallClause),
    Union { all: bool },
}

/// `MATCH` or `OPTIONAL MATCH`, with its `WHERE`.
#[derive(Debug, PartialEq)]
pub struct MatchClause {
    pub optional: bool,
    pub pattern: PatternList,
    pub where_: Option<WhereClause>,
}

/// A `WHERE` predicate.
#[derive(Debug, PartialEq)]
pub struct WhereClause {
    pub expression: Expression,
}

/// `RETURN`.
#[derive(Debug, PartialEq)]
pub struct ReturnClause {
    pub distinct: bool,
    pub items: ReturnItems,
    pub order_by: Option<OrderByClause>,
    pub skip: Option<Expression>,
    pub limit: Option<Expression>,
}

/// `WITH`, a projection in the middle of a query.
#[derive(Debug, PartialEq)]
pub struct WithClause {
    pub distinct: bool,
    pub items: ReturnItems,
    pub where_: Option<WhereClause>,
    pub order_by: Option<OrderByClause>,
    pub skip: Option<Expression>,
    pub limit: Option<Expression>,
}

/// `UNWIND expr AS var`.
#[derive(Debug, PartialEq)]
pub struct UnwindClause {
    pub expression: Expression,
    pub variable: String,
}

/// `CREATE`.
#[derive(Debug, PartialEq)]
pub struct CreateClause {
    pub pattern: PatternList,
}

/// `MERGE`, with its `ON MATCH SET` and `ON CREATE SET` actions.
#[derive(Debug, PartialEq)]
pub struct MergeClause {
    pub pattern: Pattern,
    pub actions: Vec<MergeAction>,
}

/// `ON CREATE SET` or `ON MATCH SET`.
#[derive(Debug, PartialEq)]
pub struct MergeAction {
    pub on_create: bool,
    pub items: Vec<SetItem>,
}

/// `SET`.
#[derive(Debug, PartialEq)]
pub struct SetClause {
    pub items: Vec<SetItem>,
}

/// One assignment of a `SET`.
#[allow(inconsistent_fields)]
#[derive(Debug, PartialEq)]
pub enum SetItem {
    /// `n.key = expr`
    Property { variable: String, key: String, value: Expression },
    /// `n += {…}`
    MergeMap { variable: String, map: Vec<(String, Expression)> },
    /// `n = expr`
    NodeReplace { variable: String, value: Expression },
    /// `n:A:B`
    SetLabel { variable: String, labels: Vec<String> },
}

/// `DELETE` or `DETACH DELETE`.
#[derive(Debug, PartialEq)]
pub struct DeleteClause {
    pub detach: bool,
    pub expressions: Vec<Expression>,
}

/// `REMOVE`.
#[derive(Debug, PartialEq)]
pub struct RemoveClause {
    pub items: Vec<RemoveItem>,
}

/// One item of a `REMOVE`.
#[allow(inconsistent_fields)]
#[derive(Debug, PartialEq)]
pub enum RemoveItem {
    /// `n.key`
    Property { variable: String, key: String },
    /// `n:A:B`
    Label { variable: String, labels: Vec<String> },
}

/// `CALL procedure(args) YIELD names`.
#[derive(Debug, PartialEq)]
pub struct CallClause {
    pub procedure: String,
    pub args: Vec<Expression>,
    pub yields: Vec<String>,
}

/// `ORDER BY`.
#[derive(Debug, PartialEq)]
pub struct OrderByClause {
    pub items: Vec<SortItem>,
}

/// One sort key.
#[derive(Debug, PartialEq)]
pub struct SortItem {
    pub expression: Expression,
    pub descending: bool,
}

/// What a projection projects.
#[derive(Debug, PartialEq)]
pub enum ReturnItems {
    /// `*`
    All,
    Explicit(Vec<ReturnItem>),
}

/// A projected expression and its alias.
#[derive(Debug, PartialEq)]
pub struct ReturnItem {
    pub expression: Expression,
    pub alias: Option<String>,
}

/// Patterns separated by commas.
#[derive(Debug, PartialEq)]
pub struct PatternList(pub Vec<Pattern>);

/// A path: nodes and relationships in turn, a node at either end.
#[derive(Debug, PartialEq)]
pub struct Pattern {
    pub variable: Option<String>,
    pub elements: Vec<PatternElement>,
}

/// A node or a relationship of a path.
#[derive(Debug, PartialEq)]
pub enum PatternElement {
    Node(NodePattern),
    Relationship(RelationshipPattern),
}

/// `(variable:Label {key: value})`.
#[derive(Debug, PartialEq)]
pub struct NodePattern {
    pub variable: Option<String>,
    pub labels: Vec<String>,
    pub properties: Option<Vec<(String, Expression)>>,
}

/// `-[variable:TYPE*range {key: value}]->`.
#[derive(Debug, PartialEq)]
pub struct RelationshipPattern {
    pub variable: Option<String>,
    pub direction: Direction,
    pub rel_types: Vec<String>,
    pub properties: Option<Vec<(String, Expression)>>,
    pub range: Option<RangeQuantifier>,
}

/// An expression.
#[allow(inconsistent_fields)]
#[derive(Debug, PartialEq)]
pub enum Expression {
    Or(Box<Expression>, Box<Expression>),
    Xor(Box<Expression>, Box<Expression>),
    And(Box<Expression>, Box<Expression>),
    Not(Box<Expression>),
    Comparison(Box<Expression>, CompOp, Box<Expression>),
    IsNull(Box<Expression>),
    IsNotNull(Box<Expression>),
    Add(Box<Expression>, Box<Expression>),
    Subtract(Box<Expression>, Box<Expression>),
    Multiply(Box<Expression>, Box<Expression>),
    Divide(Box<Expression>, Box<Expression>),
    Modulo(Box<Expression>, Box<Expression>),
    Negate(Box<Expression>),
    Power(Box<Expression>, Box<Expression>),
    /// `expr.key`
    Property(Box<Expression>, String),
    Variable(String),
    Literal(Literal),
    List(Vec<Expression>),
    /// `{key: value}`
    MapLit(Vec<(String, Expression)>),
    Aggregate(AggregateExpr),
    FunctionCall { name: String, distinct: bool, args: Vec<Expression> },
    /// `n:A:B` as a predicate
    LabelCheck { variable: String, labels: Vec<String> },
    /// A path as a predicate: whether it exists
    PatternPredicate(Pattern),
    /// `EXISTS { pattern WHERE expr }`
    ExistsSubquery { patterns: PatternList, where_: Option<Box<Expression>> },
    /// `EXISTS { MATCH … WITH … RETURN … }`
    ExistsFullSubquery { clauses: Vec<Clause> },
    /// `CASE operand WHEN … THEN … ELSE … END`
    CaseExpression { operand: Option<Box<Expression>>, whens: Vec<(Expression, Expression)>, else_expr: Option<Box<Expression>> },
    /// `all(x IN list WHERE expr)` and its kin
    QuantifierExpr { kind: QuantifierKind, variable: String, list: Box<Expression>, predicate: Option<Box<Expression>> },
    /// `expr[index]`
    Subscript(Box<Expression>, Box<Expression>),
    /// `expr[start..end]`
    ListSlice { list: Box<Expression>, start: Option<Box<Expression>>, end: Option<Box<Expression>> },
    /// `[x IN list WHERE expr | expr]`
    ListComprehension { variable: String, list: Box<Expression>, predicate: Option<Box<Expression>>, projection: Option<Box<Expression>> },
    /// `[p = pattern WHERE expr | expr]`
    PatternComprehension { alias: Option<String>, pattern: Pattern, predicate: Option<Box<Expression>>, projection: Box<Expression> },
}

/// A literal.
#[derive(Debug, PartialEq)]
pub enum Literal {
    Integer(i64),
    Float(Float),
    String(String),
    Boolean(bool),
    Null,
}

/// An aggregate.
#[allow(inconsistent_fields)]
#[derive(Debug, PartialEq)]
pub enum AggregateExpr {
    /// `count(*)` where there is no expression
    Count { distinct: bool, expr: Option<Box<Expression>> },
    Sum { distinct: bool, expr: Box<Expression> },
    Avg { distinct: bool, expr: Box<Expression> },
    Min { distinct: bool, expr: Box<Expression> },
    Max { distinct: bool, expr: Box<Expression> },
    Collect { distinct: bool, expr: Box<Expression> },
}

} // verus!
