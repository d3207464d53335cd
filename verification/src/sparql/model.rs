//! The mathematical model of the algebra: the same trees, with sequences in
//! place of vectors and strings.
use vstd::prelude::*;

#[allow(unused_imports)]
use crate::sparql::algebra as sparql;
#[allow(unused_imports)]
use crate::sparql::algebra::Function;
#[allow(unused_imports)]
use crate::text::texts;

verus! {

pub struct Literal {
    pub value: Seq<char>,
    pub datatype: Option<Seq<char>>,
}

pub enum Term {
    NamedNode(Seq<char>),
    Literal(Literal),
    Variable(Seq<char>),
    Triple(Box<TriplePattern>),
}

pub enum Predicate {
    NamedNode(Seq<char>),
    Variable(Seq<char>),
}

pub struct TriplePattern {
    pub subject: Term,
    pub predicate: Predicate,
    pub object: Term,
}

pub enum GroundTerm {
    NamedNode(Seq<char>),
    Literal(Literal),
}

pub enum Expr {
    NamedNode(Seq<char>),
    Literal(Literal),
    Variable(Seq<char>),
    Or(Box<Expr>, Box<Expr>),
    And(Box<Expr>, Box<Expr>),
    Equal(Box<Expr>, Box<Expr>),
    SameTerm(Box<Expr>, Box<Expr>),
    Greater(Box<Expr>, Box<Expr>),
    GreaterOrEqual(Box<Expr>, Box<Expr>),
    Less(Box<Expr>, Box<Expr>),
    LessOrEqual(Box<Expr>, Box<Expr>),
    In(Box<Expr>, Seq<Expr>),
    Add(Box<Expr>, Box<Expr>),
    Subtract(Box<Expr>, Box<Expr>),
    Multiply(Box<Expr>, Box<Expr>),
    Divide(Box<Expr>, Box<Expr>),
    UnaryMinus(Box<Expr>),
    Not(Box<Expr>),
    Exists(Box<GraphPattern>),
    Bound(Seq<char>),
    If(Box<Expr>, Box<Expr>, Box<Expr>),
    Coalesce(Seq<Expr>),
    Call(Function, Seq<Expr>),
    CustomCall(Seq<char>, Seq<Expr>),
}

pub enum AggregateFunction {
    Count,
    Sum,
    Avg,
    Min,
    Max,
    GroupConcat { separator: Option<Seq<char>> },
}

#[allow(inconsistent_fields)]
pub enum Aggregate {
    CountSolutions { distinct: bool },
    FunctionCall { name: AggregateFunction, expr: Expr, distinct: bool },
}

pub struct NamedAggregate {
    pub variable: Seq<char>,
    pub aggregate: Aggregate,
}

pub enum OrderExpression {
    Asc(Expr),
    Desc(Expr),
}

#[allow(inconsistent_fields)]
pub enum GraphPattern {
    Bgp { patterns: Seq<TriplePattern> },
    Join { left: Box<GraphPattern>, right: Box<GraphPattern> },
    LeftJoin { left: Box<GraphPattern>, right: Box<GraphPattern>, expression: Option<Expr> },
    Filter { expr: Expr, inner: Box<GraphPattern> },
    Union { left: Box<GraphPattern>, right: Box<GraphPattern> },
    Extend { inner: Box<GraphPattern>, variable: Seq<char>, expression: Expr },
    Values { variables: Seq<Seq<char>>, bindings: Seq<Seq<Option<GroundTerm>>> },
    OrderBy { inner: Box<GraphPattern>, expression: Seq<OrderExpression> },
    Distinct { inner: Box<GraphPattern> },
    Slice { inner: Box<GraphPattern>, start: usize, length: Option<usize> },
    Group { inner: Box<GraphPattern>, variables: Seq<Seq<char>>, aggregates: Seq<NamedAggregate> },
}

pub open spec fn literal_of(x: sparql::Literal) -> Literal
    decreases x,
{
    Literal {
        value: x.value@,
        datatype: opt_text(x.datatype),
    }
}

pub open spec fn term_of(x: sparql::Term) -> Term
    decreases x,
{
    match x {
        sparql::Term::NamedNode(a) => Term::NamedNode(a@),
        sparql::Term::Literal(a) => Term::Literal(literal_of(a)),
        sparql::Term::Variable(a) => Term::Variable(a@),
        sparql::Term::Triple(a) => Term::Triple(Box::new(triple_pattern_of(*a))),
    }
}

pub open spec fn predicate_of(x: sparql::Predicate) -> Predicate
    decreases x,
{
    match x {
        sparql::Predicate::NamedNode(a) => Predicate::NamedNode(a@),
        sparql::Predicate::Variable(a) => Predicate::Variable(a@),
    }
}

pub open spec fn triple_pattern_of(x: sparql::TriplePattern) -> TriplePattern
    decreases x,
{
    TriplePattern {
        subject: term_of(x.subject),
        predicate: predicate_of(x.predicate),
        object: term_of(x.object),
    }
}

pub open spec fn ground_term_of(x: sparql::GroundTerm) -> GroundTerm
    decreases x,
{
    match x {
        sparql::GroundTerm::NamedNode(a) => GroundTerm::NamedNode(a@),
        sparql::GroundTerm::Literal(a) => GroundTerm::Literal(literal_of(a)),
    }
}

pub open spec fn expr_of(x: sparql::Expr) -> Expr
    decreases x,
{
    match x {
        sparql::Expr::NamedNode(a) => Expr::NamedNode(a@),
        sparql::Expr::Literal(a) => Expr::Literal(literal_of(a)),
        sparql::Expr::Variable(a) => Expr::Variable(a@),
        sparql::Expr::Or(a, b) => Expr::Or(Box::new(expr_of(*a)), Box::new(expr_of(*b))),
        sparql::Expr::And(a, b) => Expr::And(Box::new(expr_of(*a)), Box::new(expr_of(*b))),
        sparql::Expr::Equal(a, b) => Expr::Equal(Box::new(expr_of(*a)), Box::new(expr_of(*b))),
        sparql::Expr::SameTerm(a, b) => Expr::SameTerm(Box::new(expr_of(*a)), Box::new(expr_of(*b))),
        sparql::Expr::Greater(a, b) => Expr::Greater(Box::new(expr_of(*a)), Box::new(expr_of(*b))),
        sparql::Expr::GreaterOrEqual(a, b) => Expr::GreaterOrEqual(Box::new(expr_of(*a)), Box::new(expr_of(*b))),
        sparql::Expr::Less(a, b) => Expr::Less(Box::new(expr_of(*a)), Box::new(expr_of(*b))),
        sparql::Expr::LessOrEqual(a, b) => Expr::LessOrEqual(Box::new(expr_of(*a)), Box::new(expr_of(*b))),
        sparql::Expr::In(a, b) => Expr::In(Box::new(expr_of(*a)), exprs_of(b@)),
        sparql::Expr::Add(a, b) => Expr::Add(Box::new(expr_of(*a)), Box::new(expr_of(*b))),
        sparql::Expr::Subtract(a, b) => Expr::Subtract(Box::new(expr_of(*a)), Box::new(expr_of(*b))),
        sparql::Expr::Multiply(a, b) => Expr::Multiply(Box::new(expr_of(*a)), Box::new(expr_of(*b))),
        sparql::Expr::Divide(a, b) => Expr::Divide(Box::new(expr_of(*a)), Box::new(expr_of(*b))),
        sparql::Expr::UnaryMinus(a) => Expr::UnaryMinus(Box::new(expr_of(*a))),
        sparql::Expr::Not(a) => Expr::Not(Box::new(expr_of(*a))),
        sparql::Expr::Exists(a) => Expr::Exists(Box::new(graph_pattern_of(*a))),
        sparql::Expr::Bound(a) => Expr::Bound(a@),
        sparql::Expr::If(a, b, c) => Expr::If(Box::new(expr_of(*a)), Box::new(expr_of(*b)), Box::new(expr_of(*c))),
        sparql::Expr::Coalesce(a) => Expr::Coalesce(exprs_of(a@)),
        sparql::Expr::Call(a, b) => Expr::Call(a, exprs_of(b@)),
        sparql::Expr::CustomCall(a, b) => Expr::CustomCall(a@, exprs_of(b@)),
    }
}

pub open spec fn aggregate_function_of(x: sparql::AggregateFunction) -> AggregateFunction
    decreases x,
{
    match x {
        sparql::AggregateFunction::Count => AggregateFunction::Count,
        sparql::AggregateFunction::Sum => AggregateFunction::Sum,
        sparql::AggregateFunction::Avg => AggregateFunction::Avg,
        sparql::AggregateFunction::Min => AggregateFunction::Min,
        sparql::AggregateFunction::Max => AggregateFunction::Max,
        sparql::AggregateFunction::GroupConcat { separator } => AggregateFunction::GroupConcat {
            separator: opt_text(separator),
        },
    }
}

pub open spec fn aggregate_of(x: sparql::Aggregate) -> Aggregate
    decreases x,
{
    match x {
        sparql::Aggregate::CountSolutions { distinct } => Aggregate::CountSolutions {
            distinct: distinct,
        },
        sparql::Aggregate::FunctionCall { name, expr, distinct } => Aggregate::FunctionCall {
            name: aggregate_function_of(name),
            expr: expr_of(expr),
            distinct: distinct,
        },
    }
}

pub open spec fn named_aggregate_of(x: sparql::NamedAggregate) -> NamedAggregate
    decreases x,
{
    NamedAggregate {
        variable: x.variable@,
        aggregate: aggregate_of(x.aggregate),
    }
}

pub open spec fn order_expression_of(x: sparql::OrderExpression) -> OrderExpression
    decreases x,
{
    match x {
        sparql::OrderExpression::Asc(a) => OrderExpression::Asc(expr_of(a)),
        sparql::OrderExpression::Desc(a) => OrderExpression::Desc(expr_of(a)),
    }
}

pub open spec fn graph_pattern_of(x: sparql::GraphPattern) -> GraphPattern
    decreases x,
{
    match x {
        sparql::GraphPattern::Bgp { patterns } => GraphPattern::Bgp {
            patterns: triples_of(patterns@),
        },
        sparql::GraphPattern::Join { left, right } => GraphPattern::Join {
            left: Box::new(graph_pattern_of(*left)),
            right: Box::new(graph_pattern_of(*right)),
        },
        sparql::GraphPattern::LeftJoin { left, right, expression } => GraphPattern::LeftJoin {
            left: Box::new(graph_pattern_of(*left)),
            right: Box::new(graph_pattern_of(*right)),
            expression: opt_expr(expression),
        },
        sparql::GraphPattern::Filter { expr, inner } => GraphPattern::Filter {
            expr: expr_of(expr),
            inner: Box::new(graph_pattern_of(*inner)),
        },
        sparql::GraphPattern::Union { left, right } => GraphPattern::Union {
            left: Box::new(graph_pattern_of(*left)),
            right: Box::new(graph_pattern_of(*right)),
        },
        sparql::GraphPattern::Extend { inner, variable, expression } => GraphPattern::Extend {
            inner: Box::new(graph_pattern_of(*inner)),
            variable: variable@,
            expression: expr_of(expression),
        },
        sparql::GraphPattern::Values { variables, bindings } => GraphPattern::Values {
            variables: texts(variables@),
            bindings: rows_of(bindings@),
        },
        sparql::GraphPattern::OrderBy { inner, expression } => GraphPattern::OrderBy {
            inner: Box::new(graph_pattern_of(*inner)),
            expression: order_of(expression@),
        },
        sparql::GraphPattern::Distinct { inner } => GraphPattern::Distinct {
            inner: Box::new(graph_pattern_of(*inner)),
        },
        sparql::GraphPattern::Slice { inner, start, length } => GraphPattern::Slice {
            inner: Box::new(graph_pattern_of(*inner)),
            start: start,
            length: length,
        },
        sparql::GraphPattern::Group { inner, variables, aggregates } => GraphPattern::Group {
            inner: Box::new(graph_pattern_of(*inner)),
            variables: texts(variables@),
            aggregates: aggregates_of(aggregates@),
        },
    }
}

pub open spec fn triples_of(s: Seq<sparql::TriplePattern>) -> Seq<TriplePattern>
    decreases s,
{
    Seq::new(
        s.len(),
        |i: int|
            if 0 <= i < s.len() {
                triple_pattern_of(s[i])
            } else {
                arbitrary()
            },
    )
}

pub proof fn lemma_push_triples(s: Seq<sparql::TriplePattern>, x: sparql::TriplePattern)
    ensures
        triples_of(s.push(x)) == triples_of(s).push(triple_pattern_of(x)),
{
    assert(triples_of(s.push(x)) =~= triples_of(s).push(triple_pattern_of(x)));
}

pub proof fn lemma_add_triples(s: Seq<sparql::TriplePattern>, t: Seq<sparql::TriplePattern>)
    ensures
        triples_of(s + t) == triples_of(s) + triples_of(t),
{
    assert(triples_of(s + t) =~= triples_of(s) + triples_of(t));
}

pub open spec fn exprs_of(s: Seq<sparql::Expr>) -> Seq<Expr>
    decreases s,
{
    Seq::new(
        s.len(),
        |i: int|
            if 0 <= i < s.len() {
                expr_of(s[i])
            } else {
                arbitrary()
            },
    )
}

pub proof fn lemma_push_exprs(s: Seq<sparql::Expr>, x: sparql::Expr)
    ensures
        exprs_of(s.push(x)) == exprs_of(s).push(expr_of(x)),
{
    assert(exprs_of(s.push(x)) =~= exprs_of(s).push(expr_of(x)));
}

pub open spec fn row_of(s: Seq<Option<sparql::GroundTerm>>) -> Seq<Option<GroundTerm>> {
    Seq::new(s.len(), |i: int| opt_ground(s[i]))
}

pub proof fn lemma_push_row(s: Seq<Option<sparql::GroundTerm>>, x: Option<sparql::GroundTerm>)
    ensures
        row_of(s.push(x)) == row_of(s).push(opt_ground(x)),
{
    assert(row_of(s.push(x)) =~= row_of(s).push(opt_ground(x)));
}

pub open spec fn rows_of(s: Seq<Vec<Option<sparql::GroundTerm>>>) -> Seq<Seq<Option<GroundTerm>>>
    decreases s,
{
    Seq::new(
        s.len(),
        |i: int|
            if 0 <= i < s.len() {
                row_of(s[i]@)
            } else {
                arbitrary()
            },
    )
}

pub proof fn lemma_push_rows(s: Seq<Vec<Option<sparql::GroundTerm>>>, x: Vec<Option<sparql::GroundTerm>>)
    ensures
        rows_of(s.push(x)) == rows_of(s).push(row_of(x@)),
{
    assert(rows_of(s.push(x)) =~= rows_of(s).push(row_of(x@)));
}

pub proof fn lemma_add_rows(s: Seq<Vec<Option<sparql::GroundTerm>>>, t: Seq<Vec<Option<sparql::GroundTerm>>>)
    ensures
        rows_of(s + t) == rows_of(s) + rows_of(t),
{
    assert(rows_of(s + t) =~= rows_of(s) + rows_of(t));
}

pub open spec fn order_of(s: Seq<sparql::OrderExpression>) -> Seq<OrderExpression>
    decreases s,
{
    Seq::new(
        s.len(),
        |i: int|
            if 0 <= i < s.len() {
                order_expression_of(s[i])
            } else {
                arbitrary()
            },
    )
}

pub proof fn lemma_push_order(s: Seq<sparql::OrderExpression>, x: sparql::OrderExpression)
    ensures
        order_of(s.push(x)) == order_of(s).push(order_expression_of(x)),
{
    assert(order_of(s.push(x)) =~= order_of(s).push(order_expression_of(x)));
}

pub open spec fn aggregates_of(s: Seq<sparql::NamedAggregate>) -> Seq<NamedAggregate>
    decreases s,
{
    Seq::new(
        s.len(),
        |i: int|
            if 0 <= i < s.len() {
                named_aggregate_of(s[i])
            } else {
                arbitrary()
            },
    )
}

pub proof fn lemma_push_aggregates(s: Seq<sparql::NamedAggregate>, x: sparql::NamedAggregate)
    ensures
        aggregates_of(s.push(x)) == aggregates_of(s).push(named_aggregate_of(x)),
{
    assert(aggregates_of(s.push(x)) =~= aggregates_of(s).push(named_aggregate_of(x)));
}

pub open spec fn opt_text(o: Option<String>) -> Option<Seq<char>> {
    match o {
        Some(t) => Some(t@),
        None => None,
    }
}

pub open spec fn opt_expr(o: Option<sparql::Expr>) -> Option<Expr>
    decreases o,
{
    match o {
        Some(t) => Some(expr_of(t)),
        None => None,
    }
}

pub open spec fn opt_ground(o: Option<sparql::GroundTerm>) -> Option<GroundTerm>
    decreases o,
{
    match o {
        Some(t) => Some(ground_term_of(t)),
        None => None,
    }
}

} // verus!
