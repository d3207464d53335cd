//! Copies of algebra trees.
use vstd::prelude::*;

use crate::sparql::algebra as sparql;
#[allow(unused_imports)]
use crate::sparql::model as m;
use crate::text::clone_texts;

verus! {

pub fn clone_literal(x: &sparql::Literal) -> (r: sparql::Literal)
    ensures
        m::literal_of(r) == m::literal_of(*x),
    decreases x, 0nat,
{
    sparql::Literal {
        value: x.value.clone(),
        datatype: clone_opt_text(&x.datatype),
    }
}

pub fn clone_term(x: &sparql::Term) -> (r: sparql::Term)
    ensures
        m::term_of(r) == m::term_of(*x),
    decreases x, 0nat,
{
    match x {
        sparql::Term::NamedNode(a) => sparql::Term::NamedNode(a.clone()),
        sparql::Term::Literal(a) => sparql::Term::Literal(clone_literal(a)),
        sparql::Term::Variable(a) => sparql::Term::Variable(a.clone()),
        sparql::Term::Triple(a) => sparql::Term::Triple(Box::new(clone_triple_pattern(a))),
    }
}

pub fn clone_predicate(x: &sparql::Predicate) -> (r: sparql::Predicate)
    ensures
        m::predicate_of(r) == m::predicate_of(*x),
    decreases x, 0nat,
{
    match x {
        sparql::Predicate::NamedNode(a) => sparql::Predicate::NamedNode(a.clone()),
        sparql::Predicate::Variable(a) => sparql::Predicate::Variable(a.clone()),
    }
}

pub fn clone_triple_pattern(x: &sparql::TriplePattern) -> (r: sparql::TriplePattern)
    ensures
        m::triple_pattern_of(r) == m::triple_pattern_of(*x),
    decreases x, 0nat,
{
    sparql::TriplePattern {
        subject: clone_term(&x.subject),
        predicate: clone_predicate(&x.predicate),
        object: clone_term(&x.object),
    }
}

pub fn clone_ground_term(x: &sparql::GroundTerm) -> (r: sparql::GroundTerm)
    ensures
        m::ground_term_of(r) == m::ground_term_of(*x),
    decreases x, 0nat,
{
    match x {
        sparql::GroundTerm::NamedNode(a) => sparql::GroundTerm::NamedNode(a.clone()),
        sparql::GroundTerm::Literal(a) => sparql::GroundTerm::Literal(clone_literal(a)),
    }
}

pub fn clone_expr(x: &sparql::Expr) -> (r: sparql::Expr)
    ensures
        m::expr_of(r) == m::expr_of(*x),
    decreases x, 0nat,
{
    match x {
        sparql::Expr::NamedNode(a) => sparql::Expr::NamedNode(a.clone()),
        sparql::Expr::Literal(a) => sparql::Expr::Literal(clone_literal(a)),
        sparql::Expr::Variable(a) => sparql::Expr::Variable(a.clone()),
        sparql::Expr::Or(a, b) => sparql::Expr::Or(Box::new(clone_expr(a)), Box::new(clone_expr(b))),
        sparql::Expr::And(a, b) => sparql::Expr::And(Box::new(clone_expr(a)), Box::new(clone_expr(b))),
        sparql::Expr::Equal(a, b) => sparql::Expr::Equal(Box::new(clone_expr(a)), Box::new(clone_expr(b))),
        sparql::Expr::SameTerm(a, b) => sparql::Expr::SameTerm(Box::new(clone_expr(a)), Box::new(clone_expr(b))),
        sparql::Expr::Greater(a, b) => sparql::Expr::Greater(Box::new(clone_expr(a)), Box::new(clone_expr(b))),
        sparql::Expr::GreaterOrEqual(a, b) => sparql::Expr::GreaterOrEqual(Box::new(clone_expr(a)), Box::new(clone_expr(b))),
        sparql::Expr::Less(a, b) => sparql::Expr::Less(Box::new(clone_expr(a)), Box::new(clone_expr(b))),
        sparql::Expr::LessOrEqual(a, b) => sparql::Expr::LessOrEqual(Box::new(clone_expr(a)), Box::new(clone_expr(b))),
        sparql::Expr::In(a, b) => sparql::Expr::In(Box::new(clone_expr(a)), clone_exprs(b)),
        sparql::Expr::Add(a, b) => sparql::Expr::Add(Box::new(clone_expr(a)), Box::new(clone_expr(b))),
        sparql::Expr::Subtract(a, b) => sparql::Expr::Subtract(Box::new(clone_expr(a)), Box::new(clone_expr(b))),
        sparql::Expr::Multiply(a, b) => sparql::Expr::Multiply(Box::new(clone_expr(a)), Box::new(clone_expr(b))),
        sparql::Expr::Divide(a, b) => sparql::Expr::Divide(Box::new(clone_expr(a)), Box::new(clone_expr(b))),
        sparql::Expr::UnaryMinus(a) => sparql::Expr::UnaryMinus(Box::new(clone_expr(a))),
        sparql::Expr::Not(a) => sparql::Expr::Not(Box::new(clone_expr(a))),
        sparql::Expr::Exists(a) => sparql::Expr::Exists(Box::new(clone_graph_pattern(a))),
        sparql::Expr::Bound(a) => sparql::Expr::Bound(a.clone()),
        sparql::Expr::If(a, b, c) => sparql::Expr::If(Box::new(clone_expr(a)), Box::new(clone_expr(b)), Box::new(clone_expr(c))),
        sparql::Expr::Coalesce(a) => sparql::Expr::Coalesce(clone_exprs(a)),
        sparql::Expr::Call(a, b) => sparql::Expr::Call(*a, clone_exprs(b)),
        sparql::Expr::CustomCall(a, b) => sparql::Expr::CustomCall(a.clone(), clone_exprs(b)),
    }
}

pub fn clone_aggregate_function(x: &sparql::AggregateFunction) -> (r: sparql::AggregateFunction)
    ensures
        m::aggregate_function_of(r) == m::aggregate_function_of(*x),
    decreases x, 0nat,
{
    match x {
        sparql::AggregateFunction::Count => sparql::AggregateFunction::Count,
        sparql::AggregateFunction::Sum => sparql::AggregateFunction::Sum,
        sparql::AggregateFunction::Avg => sparql::AggregateFunction::Avg,
        sparql::AggregateFunction::Min => sparql::AggregateFunction::Min,
        sparql::AggregateFunction::Max => sparql::AggregateFunction::Max,
        sparql::AggregateFunction::GroupConcat { separator } => sparql::AggregateFunction::GroupConcat {
            separator: clone_opt_text(separator),
        },
    }
}

pub fn clone_aggregate(x: &sparql::Aggregate) -> (r: sparql::Aggregate)
    ensures
        m::aggregate_of(r) == m::aggregate_of(*x),
    decreases x, 0nat,
{
    match x {
        sparql::Aggregate::CountSolutions { distinct } => sparql::Aggregate::CountSolutions {
            distinct: *distinct,
        },
        sparql::Aggregate::FunctionCall { name, expr, distinct } => sparql::Aggregate::FunctionCall {
            name: clone_aggregate_function(name),
            expr: clone_expr(expr),
            distinct: *distinct,
        },
    }
}

pub fn clone_named_aggregate(x: &sparql::NamedAggregate) -> (r: sparql::NamedAggregate)
    ensures
        m::named_aggregate_of(r) == m::named_aggregate_of(*x),
    decreases x, 0nat,
{
    sparql::NamedAggregate {
        variable: x.variable.clone(),
        aggregate: clone_aggregate(&x.aggregate),
    }
}

pub fn clone_order_expression(x: &sparql::OrderExpression) -> (r: sparql::OrderExpression)
    ensures
        m::order_expression_of(r) == m::order_expression_of(*x),
    decreases x, 0nat,
{
    match x {
        sparql::OrderExpression::Asc(a) => sparql::OrderExpression::Asc(clone_expr(a)),
        sparql::OrderExpression::Desc(a) => sparql::OrderExpression::Desc(clone_expr(a)),
    }
}

pub fn clone_graph_pattern(x: &sparql::GraphPattern) -> (r: sparql::GraphPattern)
    ensures
        m::graph_pattern_of(r) == m::graph_pattern_of(*x),
    decreases x, 0nat,
{
    match x {
        sparql::GraphPattern::Bgp { patterns } => sparql::GraphPattern::Bgp {
            patterns: clone_triples(patterns),
        },
        sparql::GraphPattern::Join { left, right } => sparql::GraphPattern::Join {
            left: Box::new(clone_graph_pattern(left)),
            right: Box::new(clone_graph_pattern(right)),
        },
        sparql::GraphPattern::LeftJoin { left, right, expression } => sparql::GraphPattern::LeftJoin {
            left: Box::new(clone_graph_pattern(left)),
            right: Box::new(clone_graph_pattern(right)),
            expression: clone_opt_expr(expression),
        },
        sparql::GraphPattern::Filter { expr, inner } => sparql::GraphPattern::Filter {
            expr: clone_expr(expr),
            inner: Box::new(clone_graph_pattern(inner)),
        },
        sparql::GraphPattern::Union { left, right } => sparql::GraphPattern::Union {
            left: Box::new(clone_graph_pattern(left)),
            right: Box::new(clone_graph_pattern(right)),
        },
        sparql::GraphPattern::Extend { inner, variable, expression } => sparql::GraphPattern::Extend {
            inner: Box::new(clone_graph_pattern(inner)),
            variable: variable.clone(),
            expression: clone_expr(expression),
        },
        sparql::GraphPattern::Values { variables, bindings } => sparql::GraphPattern::Values {
            variables: clone_texts(variables),
            bindings: clone_rows(bindings),
        },
        sparql::GraphPattern::OrderBy { inner, expression } => sparql::GraphPattern::OrderBy {
            inner: Box::new(clone_graph_pattern(inner)),
            expression: clone_order(expression),
        },
        sparql::GraphPattern::Distinct { inner } => sparql::GraphPattern::Distinct {
            inner: Box::new(clone_graph_pattern(inner)),
        },
        sparql::GraphPattern::Slice { inner, start, length } => sparql::GraphPattern::Slice {
            inner: Box::new(clone_graph_pattern(inner)),
            start: *start,
            length: *length,
        },
        sparql::GraphPattern::Group { inner, variables, aggregates } => sparql::GraphPattern::Group {
            inner: Box::new(clone_graph_pattern(inner)),
            variables: clone_texts(variables),
            aggregates: clone_aggregates(aggregates),
        },
    }
}

pub fn clone_triples(x: &Vec<sparql::TriplePattern>) -> (r: Vec<sparql::TriplePattern>)
    ensures
        m::triples_of(r@) == m::triples_of(x@),
        r@.len() == x@.len(),
    decreases x, 0nat,
{
    let mut r: Vec<sparql::TriplePattern> = Vec::new();
    #[verifier::loop_isolation(false)]
    for i in 0..x.len()
        invariant
            r@.len() == i,
            forall|k: int| 0 <= k < i ==> #[trigger] m::triples_of(r@)[k] == m::triples_of(x@)[k],
    {
        let c = clone_triple_pattern(&x[i]);
        proof {
            m::lemma_push_triples(r@, c);
        }
        r.push(c);
    }
    assert(m::triples_of(r@) =~= m::triples_of(x@));
    r
}

pub fn clone_exprs(x: &Vec<sparql::Expr>) -> (r: Vec<sparql::Expr>)
    ensures
        m::exprs_of(r@) == m::exprs_of(x@),
        r@.len() == x@.len(),
    decreases x, 0nat,
{
    let mut r: Vec<sparql::Expr> = Vec::new();
    #[verifier::loop_isolation(false)]
    for i in 0..x.len()
        invariant
            r@.len() == i,
            forall|k: int| 0 <= k < i ==> #[trigger] m::exprs_of(r@)[k] == m::exprs_of(x@)[k],
    {
        let c = clone_expr(&x[i]);
        proof {
            m::lemma_push_exprs(r@, c);
        }
        r.push(c);
    }
    assert(m::exprs_of(r@) =~= m::exprs_of(x@));
    r
}

pub fn clone_rows(x: &Vec<Vec<Option<sparql::GroundTerm>>>) -> (r: Vec<Vec<Option<sparql::GroundTerm>>>)
    ensures
        m::rows_of(r@) == m::rows_of(x@),
        r@.len() == x@.len(),
    decreases x, 0nat,
{
    let mut r: Vec<Vec<Option<sparql::GroundTerm>>> = Vec::new();
    #[verifier::loop_isolation(false)]
    for i in 0..x.len()
        invariant
            r@.len() == i,
            forall|k: int| 0 <= k < i ==> #[trigger] m::rows_of(r@)[k] == m::rows_of(x@)[k],
    {
        let c = clone_row(&x[i]);
        proof {
            m::lemma_push_rows(r@, c);
        }
        r.push(c);
    }
    assert(m::rows_of(r@) =~= m::rows_of(x@));
    r
}

pub fn clone_order(x: &Vec<sparql::OrderExpression>) -> (r: Vec<sparql::OrderExpression>)
    ensures
        m::order_of(r@) == m::order_of(x@),
        r@.len() == x@.len(),
    decreases x, 0nat,
{
    let mut r: Vec<sparql::OrderExpression> = Vec::new();
    #[verifier::loop_isolation(false)]
    for i in 0..x.len()
        invariant
            r@.len() == i,
            forall|k: int| 0 <= k < i ==> #[trigger] m::order_of(r@)[k] == m::order_of(x@)[k],
    {
        let c = clone_order_expression(&x[i]);
        proof {
            m::lemma_push_order(r@, c);
        }
        r.push(c);
    }
    assert(m::order_of(r@) =~= m::order_of(x@));
    r
}

pub fn clone_aggregates(x: &Vec<sparql::NamedAggregate>) -> (r: Vec<sparql::NamedAggregate>)
    ensures
        m::aggregates_of(r@) == m::aggregates_of(x@),
        r@.len() == x@.len(),
    decreases x, 0nat,
{
    let mut r: Vec<sparql::NamedAggregate> = Vec::new();
    #[verifier::loop_isolation(false)]
    for i in 0..x.len()
        invariant
            r@.len() == i,
            forall|k: int| 0 <= k < i ==> #[trigger] m::aggregates_of(r@)[k] == m::aggregates_of(x@)[k],
    {
        let c = clone_named_aggregate(&x[i]);
        proof {
            m::lemma_push_aggregates(r@, c);
        }
        r.push(c);
    }
    assert(m::aggregates_of(r@) =~= m::aggregates_of(x@));
    r
}

pub fn clone_row(x: &Vec<Option<sparql::GroundTerm>>) -> (r: Vec<Option<sparql::GroundTerm>>)
    ensures
        m::row_of(r@) == m::row_of(x@),
    decreases x, 0nat,
{
    let mut r: Vec<Option<sparql::GroundTerm>> = Vec::new();
    #[verifier::loop_isolation(false)]
    for i in 0..x.len()
        invariant
            r@.len() == i,
            forall|k: int| 0 <= k < i ==> #[trigger] m::row_of(r@)[k] == m::row_of(x@)[k],
    {
        let c = clone_opt_ground(&x[i]);
        proof {
            m::lemma_push_row(r@, c);
        }
        r.push(c);
    }
    assert(m::row_of(r@) =~= m::row_of(x@));
    r
}

pub fn clone_opt_text(x: &Option<String>) -> (r: Option<String>)
    ensures
        m::opt_text(r) == m::opt_text(*x),
    decreases x, 0nat,
{
    match x {
        Some(t) => Some(t.clone()),
        None => None,
    }
}

pub fn clone_opt_expr(x: &Option<sparql::Expr>) -> (r: Option<sparql::Expr>)
    ensures
        m::opt_expr(r) == m::opt_expr(*x),
    decreases x, 0nat,
{
    match x {
        Some(t) => Some(clone_expr(t)),
        None => None,
    }
}

pub fn clone_opt_ground(x: &Option<sparql::GroundTerm>) -> (r: Option<sparql::GroundTerm>)
    ensures
        m::opt_ground(r) == m::opt_ground(*x),
    decreases x, 0nat,
{
    match x {
        Some(t) => Some(clone_ground_term(t)),
        None => None,
    }
}

} // verus!
