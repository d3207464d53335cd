//! Equality of syntax trees.
use vstd::prelude::*;

use crate::ast::cypher as ast;
#[allow(unused_imports)]
use crate::ast::model as m;
use crate::text::same_text;
#[allow(unused_imports)]
use crate::text::texts;

verus! {

pub fn same_clause(x: &ast::Clause, y: &ast::Clause) -> (r: bool)
    ensures
        r == (m::clause_of(*x) == m::clause_of(*y)),
    decreases x, 0int,
{
    match (x, y) {
        (ast::Clause::Match(a0), ast::Clause::Match(b0)) => same_match_clause(a0, b0),
        (ast::Clause::With(a0), ast::Clause::With(b0)) => same_with_clause(a0, b0),
        (ast::Clause::Return(a0), ast::Clause::Return(b0)) => same_return_clause(a0, b0),
        (ast::Clause::Unwind(a0), ast::Clause::Unwind(b0)) => same_unwind_clause(a0, b0),
        (ast::Clause::Create(a0), ast::Clause::Create(b0)) => same_create_clause(a0, b0),
        (ast::Clause::Merge(a0), ast::Clause::Merge(b0)) => same_merge_clause(a0, b0),
        (ast::Clause::SetItems(a0), ast::Clause::SetItems(b0)) => same_set_clause(a0, b0),
        (ast::Clause::Delete(a0), ast::Clause::Delete(b0)) => same_delete_clause(a0, b0),
        (ast::Clause::Remove(a0), ast::Clause::Remove(b0)) => same_remove_clause(a0, b0),
        (ast::Clause::Call(a0), ast::Clause::Call(b0)) => same_call_clause(a0, b0),
        (ast::Clause::Union { all: a0 }, ast::Clause::Union { all: b0 }) => *a0 == *b0,
        _ => false,
    }
}

pub fn same_match_clause(x: &ast::MatchClause, y: &ast::MatchClause) -> (r: bool)
    ensures
        r == (m::match_clause_of(*x) == m::match_clause_of(*y)),
    decreases x, 0int,
{
    x.optional == y.optional && same_pattern_list(&x.pattern, &y.pattern) && same_opt_where(&x.where_, &y.where_)
}

pub fn same_where_clause(x: &ast::WhereClause, y: &ast::WhereClause) -> (r: bool)
    ensures
        r == (m::where_clause_of(*x) == m::where_clause_of(*y)),
    decreases x, 0int,
{
    same_expression(&x.expression, &y.expression)
}

pub fn same_return_clause(x: &ast::ReturnClause, y: &ast::ReturnClause) -> (r: bool)
    ensures
        r == (m::return_clause_of(*x) == m::return_clause_of(*y)),
    decreases x, 0int,
{
    x.distinct == y.distinct && same_return_items(&x.items, &y.items) && same_opt_order_by(&x.order_by, &y.order_by) && same_opt_expr(&x.skip, &y.skip) && same_opt_expr(&x.limit, &y.limit)
}

pub fn same_with_clause(x: &ast::WithClause, y: &ast::WithClause) -> (r: bool)
    ensures
        r == (m::with_clause_of(*x) == m::with_clause_of(*y)),
    decreases x, 0int,
{
    x.distinct == y.distinct && same_return_items(&x.items, &y.items) && same_opt_where(&x.where_, &y.where_) && same_opt_order_by(&x.order_by, &y.order_by) && same_opt_expr(&x.skip, &y.skip) && same_opt_expr(&x.limit, &y.limit)
}

pub fn same_unwind_clause(x: &ast::UnwindClause, y: &ast::UnwindClause) -> (r: bool)
    ensures
        r == (m::unwind_clause_of(*x) == m::unwind_clause_of(*y)),
    decreases x, 0int,
{
    same_expression(&x.expression, &y.expression) && same_text(x.variable.as_str(), y.variable.as_str())
}

pub fn same_create_clause(x: &ast::CreateClause, y: &ast::CreateClause) -> (r: bool)
    ensures
        r == (m::create_clause_of(*x) == m::create_clause_of(*y)),
    decreases x, 0int,
{
    same_pattern_list(&x.pattern, &y.pattern)
}

pub fn same_merge_clause(x: &ast::MergeClause, y: &ast::MergeClause) -> (r: bool)
    ensures
        r == (m::merge_clause_of(*x) == m::merge_clause_of(*y)),
    decreases x, 0int,
{
    same_pattern(&x.pattern, &y.pattern) && same_merge_actions(&x.actions, &y.actions)
}

pub fn same_merge_action(x: &ast::MergeAction, y: &ast::MergeAction) -> (r: bool)
    ensures
        r == (m::merge_action_of(*x) == m::merge_action_of(*y)),
    decreases x, 0int,
{
    x.on_create == y.on_create && same_set_items(&x.items, &y.items)
}

pub fn same_set_clause(x: &ast::SetClause, y: &ast::SetClause) -> (r: bool)
    ensures
        r == (m::set_clause_of(*x) == m::set_clause_of(*y)),
    decreases x, 0int,
{
    same_set_items(&x.items, &y.items)
}

pub fn same_set_item(x: &ast::SetItem, y: &ast::SetItem) -> (r: bool)
    ensures
        r == (m::set_item_of(*x) == m::set_item_of(*y)),
    decreases x, 0int,
{
    match (x, y) {
        (ast::SetItem::Property { variable: a0, key: a1, value: a2 }, ast::SetItem::Property { variable: b0, key: b1, value: b2 }) => same_text(a0.as_str(), b0.as_str()) && same_text(a1.as_str(), b1.as_str()) && same_expression(a2, b2),
        (ast::SetItem::MergeMap { variable: a0, map: a1 }, ast::SetItem::MergeMap { variable: b0, map: b1 }) => same_text(a0.as_str(), b0.as_str()) && same_entries(a1, b1),
        (ast::SetItem::NodeReplace { variable: a0, value: a1 }, ast::SetItem::NodeReplace { variable: b0, value: b1 }) => same_text(a0.as_str(), b0.as_str()) && same_expression(a1, b1),
        (ast::SetItem::SetLabel { variable: a0, labels: a1 }, ast::SetItem::SetLabel { variable: b0, labels: b1 }) => same_text(a0.as_str(), b0.as_str()) && same_texts(a1, b1),
        _ => false,
    }
}

pub fn same_delete_clause(x: &ast::DeleteClause, y: &ast::DeleteClause) -> (r: bool)
    ensures
        r == (m::delete_clause_of(*x) == m::delete_clause_of(*y)),
    decreases x, 0int,
{
    x.detach == y.detach && same_exprs(&x.expressions, &y.expressions)
}

pub fn same_remove_clause(x: &ast::RemoveClause, y: &ast::RemoveClause) -> (r: bool)
    ensures
        r == (m::remove_clause_of(*x) == m::remove_clause_of(*y)),
    decreases x, 0int,
{
    same_remove_items(&x.items, &y.items)
}

pub fn same_remove_item(x: &ast::RemoveItem, y: &ast::RemoveItem) -> (r: bool)
    ensures
        r == (m::remove_item_of(*x) == m::remove_item_of(*y)),
    decreases x, 0int,
{
    match (x, y) {
        (ast::RemoveItem::Property { variable: a0, key: a1 }, ast::RemoveItem::Property { variable: b0, key: b1 }) => same_text(a0.as_str(), b0.as_str()) && same_text(a1.as_str(), b1.as_str()),
        (ast::RemoveItem::Label { variable: a0, labels: a1 }, ast::RemoveItem::Label { variable: b0, labels: b1 }) => same_text(a0.as_str(), b0.as_str()) && same_texts(a1, b1),
        _ => false,
    }
}

pub fn same_call_clause(x: &ast::CallClause, y: &ast::CallClause) -> (r: bool)
    ensures
        r == (m::call_clause_of(*x) == m::call_clause_of(*y)),
    decreases x, 0int,
{
    same_text(x.procedure.as_str(), y.procedure.as_str()) && same_exprs(&x.args, &y.args) && same_texts(&x.yields, &y.yields)
}

pub fn same_order_by_clause(x: &ast::OrderByClause, y: &ast::OrderByClause) -> (r: bool)
    ensures
        r == (m::order_by_clause_of(*x) == m::order_by_clause_of(*y)),
    decreases x, 0int,
{
    same_sort_items(&x.items, &y.items)
}

pub fn same_sort_item(x: &ast::SortItem, y: &ast::SortItem) -> (r: bool)
    ensures
        r == (m::sort_item_of(*x) == m::sort_item_of(*y)),
    decreases x, 0int,
{
    same_expression(&x.expression, &y.expression) && x.descending == y.descending
}

pub fn same_return_items(x: &ast::ReturnItems, y: &ast::ReturnItems) -> (r: bool)
    ensures
        r == (m::return_items_of(*x) == m::return_items_of(*y)),
    decreases x, 0int,
{
    match (x, y) {
        (ast::ReturnItems::All, ast::ReturnItems::All) => true,
        (ast::ReturnItems::Explicit(a0), ast::ReturnItems::Explicit(b0)) => same_items(a0, b0),
        _ => false,
    }
}

pub fn same_return_item(x: &ast::ReturnItem, y: &ast::ReturnItem) -> (r: bool)
    ensures
        r == (m::return_item_of(*x) == m::return_item_of(*y)),
    decreases x, 0int,
{
    same_expression(&x.expression, &y.expression) && same_opt_text(&x.alias, &y.alias)
}

pub fn same_pattern_list(x: &ast::PatternList, y: &ast::PatternList) -> (r: bool)
    ensures
        r == (m::pattern_list_of(*x) == m::pattern_list_of(*y)),
    decreases x, 0int,
{
    same_patterns(&x.0, &y.0)
}

pub fn same_pattern(x: &ast::Pattern, y: &ast::Pattern) -> (r: bool)
    ensures
        r == (m::pattern_of(*x) == m::pattern_of(*y)),
    decreases x, 0int,
{
    same_opt_text(&x.variable, &y.variable) && same_elements(&x.elements, &y.elements)
}

pub fn same_pattern_element(x: &ast::PatternElement, y: &ast::PatternElement) -> (r: bool)
    ensures
        r == (m::pattern_element_of(*x) == m::pattern_element_of(*y)),
    decreases x, 0int,
{
    match (x, y) {
        (ast::PatternElement::Node(a0), ast::PatternElement::Node(b0)) => same_node_pattern(a0, b0),
        (ast::PatternElement::Relationship(a0), ast::PatternElement::Relationship(b0)) => same_relationship_pattern(a0, b0),
        _ => false,
    }
}

pub fn same_node_pattern(x: &ast::NodePattern, y: &ast::NodePattern) -> (r: bool)
    ensures
        r == (m::node_pattern_of(*x) == m::node_pattern_of(*y)),
    decreases x, 0int,
{
    same_opt_text(&x.variable, &y.variable) && same_texts(&x.labels, &y.labels) && same_opt_entries(&x.properties, &y.properties)
}

pub fn same_relationship_pattern(x: &ast::RelationshipPattern, y: &ast::RelationshipPattern) -> (r: bool)
    ensures
        r == (m::relationship_pattern_of(*x) == m::relationship_pattern_of(*y)),
    decreases x, 0int,
{
    same_opt_text(&x.variable, &y.variable) && x.direction == y.direction && same_texts(&x.rel_types, &y.rel_types) && same_opt_entries(&x.properties, &y.properties) && x.range == y.range
}

pub fn same_expression(x: &ast::Expression, y: &ast::Expression) -> (r: bool)
    ensures
        r == (m::expression_of(*x) == m::expression_of(*y)),
    decreases x, 0int,
{
    match (x, y) {
        (ast::Expression::Or(a0, a1), ast::Expression::Or(b0, b1)) => same_expression(a0, b0) && same_expression(a1, b1),
        (ast::Expression::Xor(a0, a1), ast::Expression::Xor(b0, b1)) => same_expression(a0, b0) && same_expression(a1, b1),
        (ast::Expression::And(a0, a1), ast::Expression::And(b0, b1)) => same_expression(a0, b0) && same_expression(a1, b1),
        (ast::Expression::Not(a0), ast::Expression::Not(b0)) => same_expression(a0, b0),
        (ast::Expression::Comparison(a0, a1, a2), ast::Expression::Comparison(b0, b1, b2)) => same_expression(a0, b0) && *a1 == *b1 && same_expression(a2, b2),
        (ast::Expression::IsNull(a0), ast::Expression::IsNull(b0)) => same_expression(a0, b0),
        (ast::Expression::IsNotNull(a0), ast::Expression::IsNotNull(b0)) => same_expression(a0, b0),
        (ast::Expression::Add(a0, a1), ast::Expression::Add(b0, b1)) => same_expression(a0, b0) && same_expression(a1, b1),
        (ast::Expression::Subtract(a0, a1), ast::Expression::Subtract(b0, b1)) => same_expression(a0, b0) && same_expression(a1, b1),
        (ast::Expression::Multiply(a0, a1), ast::Expression::Multiply(b0, b1)) => same_expression(a0, b0) && same_expression(a1, b1),
        (ast::Expression::Divide(a0, a1), ast::Expression::Divide(b0, b1)) => same_expression(a0, b0) && same_expression(a1, b1),
        (ast::Expression::Modulo(a0, a1), ast::Expression::Modulo(b0, b1)) => same_expression(a0, b0) && same_expression(a1, b1),
        (ast::Expression::Negate(a0), ast::Expression::Negate(b0)) => same_expression(a0, b0),
        (ast::Expression::Power(a0, a1), ast::Expression::Power(b0, b1)) => same_expression(a0, b0) && same_expression(a1, b1),
        (ast::Expression::Property(a0, a1), ast::Expression::Property(b0, b1)) => same_expression(a0, b0) && same_text(a1.as_str(), b1.as_str()),
        (ast::Expression::Variable(a0), ast::Expression::Variable(b0)) => same_text(a0.as_str(), b0.as_str()),
        (ast::Expression::Literal(a0), ast::Expression::Literal(b0)) => same_literal(a0, b0),
        (ast::Expression::List(a0), ast::Expression::List(b0)) => same_exprs(a0, b0),
        (ast::Expression::MapLit(a0), ast::Expression::MapLit(b0)) => same_entries(a0, b0),
        (ast::Expression::Aggregate(a0), ast::Expression::Aggregate(b0)) => same_aggregate_expr(a0, b0),
        (ast::Expression::FunctionCall { name: a0, distinct: a1, args: a2 }, ast::Expression::FunctionCall { name: b0, distinct: b1, args: b2 }) => same_text(a0.as_str(), b0.as_str()) && *a1 == *b1 && same_exprs(a2, b2),
        (ast::Expression::LabelCheck { variable: a0, labels: a1 }, ast::Expression::LabelCheck { variable: b0, labels: b1 }) => same_text(a0.as_str(), b0.as_str()) && same_texts(a1, b1),
        (ast::Expression::PatternPredicate(a0), ast::Expression::PatternPredicate(b0)) => same_pattern(a0, b0),
        (ast::Expression::ExistsSubquery { patterns: a0, where_: a1 }, ast::Expression::ExistsSubquery { patterns: b0, where_: b1 }) => same_pattern_list(a0, b0) && same_opt_boxed(a1, b1),
        (ast::Expression::ExistsFullSubquery { clauses: a0 }, ast::Expression::ExistsFullSubquery { clauses: b0 }) => same_clauses(a0, b0),
        (ast::Expression::CaseExpression { operand: a0, whens: a1, else_expr: a2 }, ast::Expression::CaseExpression { operand: b0, whens: b1, else_expr: b2 }) => same_opt_boxed(a0, b0) && same_whens(a1, b1) && same_opt_boxed(a2, b2),
        (ast::Expression::QuantifierExpr { kind: a0, variable: a1, list: a2, predicate: a3 }, ast::Expression::QuantifierExpr { kind: b0, variable: b1, list: b2, predicate: b3 }) => *a0 == *b0 && same_text(a1.as_str(), b1.as_str()) && same_expression(a2, b2) && same_opt_boxed(a3, b3),
        (ast::Expression::Subscript(a0, a1), ast::Expression::Subscript(b0, b1)) => same_expression(a0, b0) && same_expression(a1, b1),
        (ast::Expression::ListSlice { list: a0, start: a1, end: a2 }, ast::Expression::ListSlice { list: b0, start: b1, end: b2 }) => same_expression(a0, b0) && same_opt_boxed(a1, b1) && same_opt_boxed(a2, b2),
        (ast::Expression::ListComprehension { variable: a0, list: a1, predicate: a2, projection: a3 }, ast::Expression::ListComprehension { variable: b0, list: b1, predicate: b2, projection: b3 }) => same_text(a0.as_str(), b0.as_str()) && same_expression(a1, b1) && same_opt_boxed(a2, b2) && same_opt_boxed(a3, b3),
        (ast::Expression::PatternComprehension { alias: a0, pattern: a1, predicate: a2, projection: a3 }, ast::Expression::PatternComprehension { alias: b0, pattern: b1, predicate: b2, projection: b3 }) => same_opt_text(a0, b0) && same_pattern(a1, b1) && same_opt_boxed(a2, b2) && same_expression(a3, b3),
        _ => false,
    }
}

pub fn same_literal(x: &ast::Literal, y: &ast::Literal) -> (r: bool)
    ensures
        r == (m::literal_of(*x) == m::literal_of(*y)),
    decreases x, 0int,
{
    match (x, y) {
        (ast::Literal::Integer(a0), ast::Literal::Integer(b0)) => *a0 == *b0,
        (ast::Literal::Float(a0), ast::Literal::Float(b0)) => same_text(a0.text.as_str(), b0.text.as_str()),
        (ast::Literal::String(a0), ast::Literal::String(b0)) => same_text(a0.as_str(), b0.as_str()),
        (ast::Literal::Boolean(a0), ast::Literal::Boolean(b0)) => *a0 == *b0,
        (ast::Literal::Null, ast::Literal::Null) => true,
        _ => false,
    }
}

pub fn same_aggregate_expr(x: &ast::AggregateExpr, y: &ast::AggregateExpr) -> (r: bool)
    ensures
        r == (m::aggregate_expr_of(*x) == m::aggregate_expr_of(*y)),
    decreases x, 0int,
{
    match (x, y) {
        (ast::AggregateExpr::Count { distinct: a0, expr: a1 }, ast::AggregateExpr::Count { distinct: b0, expr: b1 }) => *a0 == *b0 && same_opt_boxed(a1, b1),
        (ast::AggregateExpr::Sum { distinct: a0, expr: a1 }, ast::AggregateExpr::Sum { distinct: b0, expr: b1 }) => *a0 == *b0 && same_expression(a1, b1),
        (ast::AggregateExpr::Avg { distinct: a0, expr: a1 }, ast::AggregateExpr::Avg { distinct: b0, expr: b1 }) => *a0 == *b0 && same_expression(a1, b1),
        (ast::AggregateExpr::Min { distinct: a0, expr: a1 }, ast::AggregateExpr::Min { distinct: b0, expr: b1 }) => *a0 == *b0 && same_expression(a1, b1),
        (ast::AggregateExpr::Max { distinct: a0, expr: a1 }, ast::AggregateExpr::Max { distinct: b0, expr: b1 }) => *a0 == *b0 && same_expression(a1, b1),
        (ast::AggregateExpr::Collect { distinct: a0, expr: a1 }, ast::AggregateExpr::Collect { distinct: b0, expr: b1 }) => *a0 == *b0 && same_expression(a1, b1),
        _ => false,
    }
}

fn same_opt_text(x: &Option<String>, y: &Option<String>) -> (r: bool)
    ensures
        r == (m::opt_text(*x) == m::opt_text(*y)),
{
    match (x, y) {
        (Some(a), Some(b)) => same_text(a.as_str(), b.as_str()),
        (None, None) => true,
        _ => false,
    }
}

fn same_opt_entries(x: &Option<Vec<(String, ast::Expression)>>, y: &Option<Vec<(String, ast::Expression)>>) -> (r: bool)
    ensures
        r == (m::opt_entries(*x) == m::opt_entries(*y)),
    decreases x, 0int,
{
    match (x, y) {
        (Some(a), Some(b)) => same_entries(a, b),
        (None, None) => true,
        _ => false,
    }
}

fn same_opt_boxed(x: &Option<Box<ast::Expression>>, y: &Option<Box<ast::Expression>>) -> (r: bool)
    ensures
        r == (m::opt_boxed(*x) == m::opt_boxed(*y)),
    decreases x, 0int,
{
    match (x, y) {
        (Some(a), Some(b)) => same_expression(a, b),
        (None, None) => true,
        _ => false,
    }
}

fn same_opt_expr(x: &Option<ast::Expression>, y: &Option<ast::Expression>) -> (r: bool)
    ensures
        r == (m::opt_expr(*x) == m::opt_expr(*y)),
    decreases x, 0int,
{
    match (x, y) {
        (Some(a), Some(b)) => same_expression(a, b),
        (None, None) => true,
        _ => false,
    }
}

fn same_opt_where(x: &Option<ast::WhereClause>, y: &Option<ast::WhereClause>) -> (r: bool)
    ensures
        r == (m::opt_where(*x) == m::opt_where(*y)),
    decreases x, 0int,
{
    match (x, y) {
        (Some(a), Some(b)) => same_where_clause(a, b),
        (None, None) => true,
        _ => false,
    }
}

fn same_opt_order_by(x: &Option<ast::OrderByClause>, y: &Option<ast::OrderByClause>) -> (r: bool)
    ensures
        r == (m::opt_order_by(*x) == m::opt_order_by(*y)),
    decreases x, 0int,
{
    match (x, y) {
        (Some(a), Some(b)) => same_order_by_clause(a, b),
        (None, None) => true,
        _ => false,
    }
}

proof fn lemma_same_clauses(x: Seq<ast::Clause>, y: Seq<ast::Clause>)
    ensures
        m::clauses_of(x).len() == x.len(),
        m::clauses_of(x) == m::clauses_of(y) ==> x.len() == y.len(),
        x.len() > 0 && y.len() > 0 ==> (m::clauses_of(x) == m::clauses_of(y) <==> (m::clauses_of(x.drop_last()) == m::clauses_of(y.drop_last())
            && m::clauses_of(x).last() == m::clauses_of(y).last())),
    decreases x.len(),
{
    lemma_len_clauses(x);
    lemma_len_clauses(y);
    if x.len() > 0 && y.len() > 0 {
        let a = m::clauses_of(x);
        let b = m::clauses_of(y);
        assert(a.drop_last() =~= m::clauses_of(x.drop_last()));
        assert(b.drop_last() =~= m::clauses_of(y.drop_last()));
        if a.drop_last() == b.drop_last() && a.last() == b.last() {
            assert(a =~= a.drop_last().push(a.last()));
            assert(b =~= b.drop_last().push(b.last()));
        }
    }
}

proof fn lemma_len_clauses(x: Seq<ast::Clause>)
    ensures
        m::clauses_of(x).len() == x.len(),
    decreases x.len(),
{
    if x.len() > 0 {
        lemma_len_clauses(x.drop_last());
    }
}

pub fn same_clauses(x: &Vec<ast::Clause>, y: &Vec<ast::Clause>) -> (r: bool)
    ensures
        r == (m::clauses_of(x@) == m::clauses_of(y@)),
    decreases x, 0int,
{
    proof {
        lemma_same_clauses(x@, y@);
        lemma_len_clauses(y@);
    }
    if x.len() != y.len() {
        return false;
    }
    #[verifier::loop_isolation(false)]
    for i in 0..x.len()
        invariant
            m::clauses_of(x@.take(i as int)) == m::clauses_of(y@.take(i as int)),
    {
        proof {
            lemma_same_clauses(x@.take(i + 1), y@.take(i + 1));
            assert(x@.take(i + 1).drop_last() =~= x@.take(i as int));
            assert(y@.take(i + 1).drop_last() =~= y@.take(i as int));
        }
        if !same_clause(&x[i], &y[i]) {
            proof {
                lemma_prefix_clauses(x@, y@, i + 1);
            }
            return false;
        }
    }
    assert(x@.take(x@.len() as int) =~= x@);
    assert(y@.take(y@.len() as int) =~= y@);
    true
}

proof fn lemma_prefix_clauses(x: Seq<ast::Clause>, y: Seq<ast::Clause>, k: int)
    requires
        x.len() == y.len(),
        0 <= k <= x.len(),
        m::clauses_of(x.take(k)) != m::clauses_of(y.take(k)),
    ensures
        m::clauses_of(x) != m::clauses_of(y),
    decreases x.len() - k,
{
    if k == x.len() {
        assert(x.take(k) =~= x);
        assert(y.take(k) =~= y);
    } else {
        lemma_same_clauses(x.take(k + 1), y.take(k + 1));
        assert(x.take(k + 1).drop_last() =~= x.take(k));
        assert(y.take(k + 1).drop_last() =~= y.take(k));
        lemma_prefix_clauses(x, y, k + 1);
    }
}

proof fn lemma_same_set_items(x: Seq<ast::SetItem>, y: Seq<ast::SetItem>)
    ensures
        m::set_items_of(x).len() == x.len(),
        m::set_items_of(x) == m::set_items_of(y) ==> x.len() == y.len(),
        x.len() > 0 && y.len() > 0 ==> (m::set_items_of(x) == m::set_items_of(y) <==> (m::set_items_of(x.drop_last()) == m::set_items_of(y.drop_last())
            && m::set_items_of(x).last() == m::set_items_of(y).last())),
    decreases x.len(),
{
    lemma_len_set_items(x);
    lemma_len_set_items(y);
    if x.len() > 0 && y.len() > 0 {
        let a = m::set_items_of(x);
        let b = m::set_items_of(y);
        assert(a.drop_last() =~= m::set_items_of(x.drop_last()));
        assert(b.drop_last() =~= m::set_items_of(y.drop_last()));
        if a.drop_last() == b.drop_last() && a.last() == b.last() {
            assert(a =~= a.drop_last().push(a.last()));
            assert(b =~= b.drop_last().push(b.last()));
        }
    }
}

proof fn lemma_len_set_items(x: Seq<ast::SetItem>)
    ensures
        m::set_items_of(x).len() == x.len(),
    decreases x.len(),
{
    if x.len() > 0 {
        lemma_len_set_items(x.drop_last());
    }
}

proof fn lemma_dropped_set_items(x: Seq<ast::SetItem>, k: int)
    requires
        0 < k <= x.len(),
    ensures
        x.take(k).drop_last() == x.take(k - 1),
        m::set_items_of(x.take(k)).last() == m::set_item_of(x[k - 1]),
{
    assert(x.take(k).drop_last() =~= x.take(k - 1));
}

/// Whether the first `k` have the same models.
#[verifier::opaque]
spec fn agree_set_items(x: Seq<ast::SetItem>, y: Seq<ast::SetItem>, k: int) -> bool {
    m::set_items_of(x.take(k)) == m::set_items_of(y.take(k))
}

#[verifier::opaque]
spec fn alike_set_items(x: ast::SetItem, y: ast::SetItem) -> bool {
    m::set_item_of(x) == m::set_item_of(y)
}

fn same_one_set_items(x: &ast::SetItem, y: &ast::SetItem) -> (r: bool)
    ensures
        r == alike_set_items(*x, *y),
    decreases x, 1int,
{
    proof {
        reveal(alike_set_items);
    }
    same_set_item(x, y)
}

proof fn lemma_start_set_items(x: Seq<ast::SetItem>, y: Seq<ast::SetItem>)
    ensures
        agree_set_items(x, y, 0),
{
    reveal(agree_set_items);
    assert(x.take(0) =~= y.take(0));
}

proof fn lemma_step_set_items(x: Seq<ast::SetItem>, y: Seq<ast::SetItem>, k: int)
    requires
        0 < k <= x.len(),
        k <= y.len(),
    ensures
        agree_set_items(x, y, k) == (agree_set_items(x, y, k - 1) && alike_set_items(x[k - 1], y[k - 1])),
{
    reveal(agree_set_items);
    reveal(alike_set_items);
    lemma_same_set_items(x.take(k), y.take(k));
    lemma_dropped_set_items(x, k);
    lemma_dropped_set_items(y, k);
}

proof fn lemma_all_set_items(x: Seq<ast::SetItem>, y: Seq<ast::SetItem>)
    ensures
        x.len() == y.len() ==> agree_set_items(x, y, x.len() as int) == (m::set_items_of(x) == m::set_items_of(y)),
        x.len() != y.len() ==> m::set_items_of(x) != m::set_items_of(y),
{
    reveal(agree_set_items);
    lemma_same_set_items(x, y);
    lemma_len_set_items(y);
    if x.len() == y.len() {
        assert(x.take(x.len() as int) =~= x);
        assert(y.take(y.len() as int) =~= y);
    }
}

/// Whether the first `k` are the same.
fn same_set_items_to(x: &Vec<ast::SetItem>, y: &Vec<ast::SetItem>, k: usize) -> (r: bool)
    requires
        k <= x@.len(),
        k <= y@.len(),
    ensures
        r == agree_set_items(x@, y@, k as int),
    decreases x, (k + 1) as int,
{
    if k == 0 {
        proof {
            lemma_start_set_items(x@, y@);
        }
        return true;
    }
    proof {
        lemma_step_set_items(x@, y@, k as int);
    }
    same_set_items_to(x, y, k - 1) && same_one_set_items(&x[k - 1], &y[k - 1])
}

pub fn same_set_items(x: &Vec<ast::SetItem>, y: &Vec<ast::SetItem>) -> (r: bool)
    ensures
        r == (m::set_items_of(x@) == m::set_items_of(y@)),
    decreases x, (x@.len() + 2) as int,
{
    proof {
        lemma_all_set_items(x@, y@);
    }
    if x.len() != y.len() {
        return false;
    }
    same_set_items_to(x, y, x.len())
}

proof fn lemma_same_exprs(x: Seq<ast::Expression>, y: Seq<ast::Expression>)
    ensures
        m::exprs_of(x).len() == x.len(),
        m::exprs_of(x) == m::exprs_of(y) ==> x.len() == y.len(),
        x.len() > 0 && y.len() > 0 ==> (m::exprs_of(x) == m::exprs_of(y) <==> (m::exprs_of(x.drop_last()) == m::exprs_of(y.drop_last())
            && m::exprs_of(x).last() == m::exprs_of(y).last())),
    decreases x.len(),
{
    lemma_len_exprs(x);
    lemma_len_exprs(y);
    if x.len() > 0 && y.len() > 0 {
        let a = m::exprs_of(x);
        let b = m::exprs_of(y);
        assert(a.drop_last() =~= m::exprs_of(x.drop_last()));
        assert(b.drop_last() =~= m::exprs_of(y.drop_last()));
        if a.drop_last() == b.drop_last() && a.last() == b.last() {
            assert(a =~= a.drop_last().push(a.last()));
            assert(b =~= b.drop_last().push(b.last()));
        }
    }
}

proof fn lemma_len_exprs(x: Seq<ast::Expression>)
    ensures
        m::exprs_of(x).len() == x.len(),
    decreases x.len(),
{
    if x.len() > 0 {
        lemma_len_exprs(x.drop_last());
    }
}

pub fn same_exprs(x: &Vec<ast::Expression>, y: &Vec<ast::Expression>) -> (r: bool)
    ensures
        r == (m::exprs_of(x@) == m::exprs_of(y@)),
    decreases x, 0int,
{
    proof {
        lemma_same_exprs(x@, y@);
        lemma_len_exprs(y@);
    }
    if x.len() != y.len() {
        return false;
    }
    #[verifier::loop_isolation(false)]
    for i in 0..x.len()
        invariant
            m::exprs_of(x@.take(i as int)) == m::exprs_of(y@.take(i as int)),
    {
        proof {
            lemma_same_exprs(x@.take(i + 1), y@.take(i + 1));
            assert(x@.take(i + 1).drop_last() =~= x@.take(i as int));
            assert(y@.take(i + 1).drop_last() =~= y@.take(i as int));
        }
        if !same_expression(&x[i], &y[i]) {
            proof {
                lemma_prefix_exprs(x@, y@, i + 1);
            }
            return false;
        }
    }
    assert(x@.take(x@.len() as int) =~= x@);
    assert(y@.take(y@.len() as int) =~= y@);
    true
}

proof fn lemma_prefix_exprs(x: Seq<ast::Expression>, y: Seq<ast::Expression>, k: int)
    requires
        x.len() == y.len(),
        0 <= k <= x.len(),
        m::exprs_of(x.take(k)) != m::exprs_of(y.take(k)),
    ensures
        m::exprs_of(x) != m::exprs_of(y),
    decreases x.len() - k,
{
    if k == x.len() {
        assert(x.take(k) =~= x);
        assert(y.take(k) =~= y);
    } else {
        lemma_same_exprs(x.take(k + 1), y.take(k + 1));
        assert(x.take(k + 1).drop_last() =~= x.take(k));
        assert(y.take(k + 1).drop_last() =~= y.take(k));
        lemma_prefix_exprs(x, y, k + 1);
    }
}

proof fn lemma_same_remove_items(x: Seq<ast::RemoveItem>, y: Seq<ast::RemoveItem>)
    ensures
        m::remove_items_of(x).len() == x.len(),
        m::remove_items_of(x) == m::remove_items_of(y) ==> x.len() == y.len(),
        x.len() > 0 && y.len() > 0 ==> (m::remove_items_of(x) == m::remove_items_of(y) <==> (m::remove_items_of(x.drop_last()) == m::remove_items_of(y.drop_last())
            && m::remove_items_of(x).last() == m::remove_items_of(y).last())),
    decreases x.len(),
{
    lemma_len_remove_items(x);
    lemma_len_remove_items(y);
    if x.len() > 0 && y.len() > 0 {
        let a = m::remove_items_of(x);
        let b = m::remove_items_of(y);
        assert(a.drop_last() =~= m::remove_items_of(x.drop_last()));
        assert(b.drop_last() =~= m::remove_items_of(y.drop_last()));
        if a.drop_last() == b.drop_last() && a.last() == b.last() {
            assert(a =~= a.drop_last().push(a.last()));
            assert(b =~= b.drop_last().push(b.last()));
        }
    }
}

proof fn lemma_len_remove_items(x: Seq<ast::RemoveItem>)
    ensures
        m::remove_items_of(x).len() == x.len(),
    decreases x.len(),
{
    if x.len() > 0 {
        lemma_len_remove_items(x.drop_last());
    }
}

pub fn same_remove_items(x: &Vec<ast::RemoveItem>, y: &Vec<ast::RemoveItem>) -> (r: bool)
    ensures
        r == (m::remove_items_of(x@) == m::remove_items_of(y@)),
    decreases x, 0int,
{
    proof {
        lemma_same_remove_items(x@, y@);
        lemma_len_remove_items(y@);
    }
    if x.len() != y.len() {
        return false;
    }
    #[verifier::loop_isolation(false)]
    for i in 0..x.len()
        invariant
            m::remove_items_of(x@.take(i as int)) == m::remove_items_of(y@.take(i as int)),
    {
        proof {
            lemma_same_remove_items(x@.take(i + 1), y@.take(i + 1));
            assert(x@.take(i + 1).drop_last() =~= x@.take(i as int));
            assert(y@.take(i + 1).drop_last() =~= y@.take(i as int));
        }
        if !same_remove_item(&x[i], &y[i]) {
            proof {
                lemma_prefix_remove_items(x@, y@, i + 1);
            }
            return false;
        }
    }
    assert(x@.take(x@.len() as int) =~= x@);
    assert(y@.take(y@.len() as int) =~= y@);
    true
}

proof fn lemma_prefix_remove_items(x: Seq<ast::RemoveItem>, y: Seq<ast::RemoveItem>, k: int)
    requires
        x.len() == y.len(),
        0 <= k <= x.len(),
        m::remove_items_of(x.take(k)) != m::remove_items_of(y.take(k)),
    ensures
        m::remove_items_of(x) != m::remove_items_of(y),
    decreases x.len() - k,
{
    if k == x.len() {
        assert(x.take(k) =~= x);
        assert(y.take(k) =~= y);
    } else {
        lemma_same_remove_items(x.take(k + 1), y.take(k + 1));
        assert(x.take(k + 1).drop_last() =~= x.take(k));
        assert(y.take(k + 1).drop_last() =~= y.take(k));
        lemma_prefix_remove_items(x, y, k + 1);
    }
}

proof fn lemma_same_sort_items(x: Seq<ast::SortItem>, y: Seq<ast::SortItem>)
    ensures
        m::sort_items_of(x).len() == x.len(),
        m::sort_items_of(x) == m::sort_items_of(y) ==> x.len() == y.len(),
        x.len() > 0 && y.len() > 0 ==> (m::sort_items_of(x) == m::sort_items_of(y) <==> (m::sort_items_of(x.drop_last()) == m::sort_items_of(y.drop_last())
            && m::sort_items_of(x).last() == m::sort_items_of(y).last())),
    decreases x.len(),
{
    lemma_len_sort_items(x);
    lemma_len_sort_items(y);
    if x.len() > 0 && y.len() > 0 {
        let a = m::sort_items_of(x);
        let b = m::sort_items_of(y);
        assert(a.drop_last() =~= m::sort_items_of(x.drop_last()));
        assert(b.drop_last() =~= m::sort_items_of(y.drop_last()));
        if a.drop_last() == b.drop_last() && a.last() == b.last() {
            assert(a =~= a.drop_last().push(a.last()));
            assert(b =~= b.drop_last().push(b.last()));
        }
    }
}

proof fn lemma_len_sort_items(x: Seq<ast::SortItem>)
    ensures
        m::sort_items_of(x).len() == x.len(),
    decreases x.len(),
{
    if x.len() > 0 {
        lemma_len_sort_items(x.drop_last());
    }
}

proof fn lemma_dropped_sort_items(x: Seq<ast::SortItem>, k: int)
    requires
        0 < k <= x.len(),
    ensures
        x.take(k).drop_last() == x.take(k - 1),
        m::sort_items_of(x.take(k)).last() == m::sort_item_of(x[k - 1]),
{
    assert(x.take(k).drop_last() =~= x.take(k - 1));
}

/// Whether the first `k` have the same models.
#[verifier::opaque]
spec fn agree_sort_items(x: Seq<ast::SortItem>, y: Seq<ast::SortItem>, k: int) -> bool {
    m::sort_items_of(x.take(k)) == m::sort_items_of(y.take(k))
}

#[verifier::opaque]
spec fn alike_sort_items(x: ast::SortItem, y: ast::SortItem) -> bool {
    m::sort_item_of(x) == m::sort_item_of(y)
}

fn same_one_sort_items(x: &ast::SortItem, y: &ast::SortItem) -> (r: bool)
    ensures
        r == alike_sort_items(*x, *y),
    decreases x, 1int,
{
    proof {
        reveal(alike_sort_items);
    }
    same_sort_item(x, y)
}

proof fn lemma_start_sort_items(x: Seq<ast::SortItem>, y: Seq<ast::SortItem>)
    ensures
        agree_sort_items(x, y, 0),
{
    reveal(agree_sort_items);
    assert(x.take(0) =~= y.take(0));
}

proof fn lemma_step_sort_items(x: Seq<ast::SortItem>, y: Seq<ast::SortItem>, k: int)
    requires
        0 < k <= x.len(),
        k <= y.len(),
    ensures
        agree_sort_items(x, y, k) == (agree_sort_items(x, y, k - 1) && alike_sort_items(x[k - 1], y[k - 1])),
{
    reveal(agree_sort_items);
    reveal(alike_sort_items);
    lemma_same_sort_items(x.take(k), y.take(k));
    lemma_dropped_sort_items(x, k);
    lemma_dropped_sort_items(y, k);
}

proof fn lemma_all_sort_items(x: Seq<ast::SortItem>, y: Seq<ast::SortItem>)
    ensures
        x.len() == y.len() ==> agree_sort_items(x, y, x.len() as int) == (m::sort_items_of(x) == m::sort_items_of(y)),
        x.len() != y.len() ==> m::sort_items_of(x) != m::sort_items_of(y),
{
    reveal(agree_sort_items);
    lemma_same_sort_items(x, y);
    lemma_len_sort_items(y);
    if x.len() == y.len() {
        assert(x.take(x.len() as int) =~= x);
        assert(y.take(y.len() as int) =~= y);
    }
}

/// Whether the first `k` are the same.
fn same_sort_items_to(x: &Vec<ast::SortItem>, y: &Vec<ast::SortItem>, k: usize) -> (r: bool)
    requires
        k <= x@.len(),
        k <= y@.len(),
    ensures
        r == agree_sort_items(x@, y@, k as int),
    decreases x, (k + 1) as int,
{
    if k == 0 {
        proof {
            lemma_start_sort_items(x@, y@);
        }
        return true;
    }
    proof {
        lemma_step_sort_items(x@, y@, k as int);
    }
    same_sort_items_to(x, y, k - 1) && same_one_sort_items(&x[k - 1], &y[k - 1])
}

pub fn same_sort_items(x: &Vec<ast::SortItem>, y: &Vec<ast::SortItem>) -> (r: bool)
    ensures
        r == (m::sort_items_of(x@) == m::sort_items_of(y@)),
    decreases x, (x@.len() + 2) as int,
{
    proof {
        lemma_all_sort_items(x@, y@);
    }
    if x.len() != y.len() {
        return false;
    }
    same_sort_items_to(x, y, x.len())
}

proof fn lemma_same_items(x: Seq<ast::ReturnItem>, y: Seq<ast::ReturnItem>)
    ensures
        m::items_of(x).len() == x.len(),
        m::items_of(x) == m::items_of(y) ==> x.len() == y.len(),
        x.len() > 0 && y.len() > 0 ==> (m::items_of(x) == m::items_of(y) <==> (m::items_of(x.drop_last()) == m::items_of(y.drop_last())
            && m::items_of(x).last() == m::items_of(y).last())),
    decreases x.len(),
{
    lemma_len_items(x);
    lemma_len_items(y);
    if x.len() > 0 && y.len() > 0 {
        let a = m::items_of(x);
        let b = m::items_of(y);
        assert(a.drop_last() =~= m::items_of(x.drop_last()));
        assert(b.drop_last() =~= m::items_of(y.drop_last()));
        if a.drop_last() == b.drop_last() && a.last() == b.last() {
            assert(a =~= a.drop_last().push(a.last()));
            assert(b =~= b.drop_last().push(b.last()));
        }
    }
}

proof fn lemma_len_items(x: Seq<ast::ReturnItem>)
    ensures
        m::items_of(x).len() == x.len(),
    decreases x.len(),
{
    if x.len() > 0 {
        lemma_len_items(x.drop_last());
    }
}

proof fn lemma_dropped_items(x: Seq<ast::ReturnItem>, k: int)
    requires
        0 < k <= x.len(),
    ensures
        x.take(k).drop_last() == x.take(k - 1),
        m::items_of(x.take(k)).last() == m::return_item_of(x[k - 1]),
{
    assert(x.take(k).drop_last() =~= x.take(k - 1));
}

/// Whether the first `k` have the same models.
#[verifier::opaque]
spec fn agree_items(x: Seq<ast::ReturnItem>, y: Seq<ast::ReturnItem>, k: int) -> bool {
    m::items_of(x.take(k)) == m::items_of(y.take(k))
}

#[verifier::opaque]
spec fn alike_items(x: ast::ReturnItem, y: ast::ReturnItem) -> bool {
    m::return_item_of(x) == m::return_item_of(y)
}

fn same_one_items(x: &ast::ReturnItem, y: &ast::ReturnItem) -> (r: bool)
    ensures
        r == alike_items(*x, *y),
    decreases x, 1int,
{
    proof {
        reveal(alike_items);
    }
    same_return_item(x, y)
}

proof fn lemma_start_items(x: Seq<ast::ReturnItem>, y: Seq<ast::ReturnItem>)
    ensures
        agree_items(x, y, 0),
{
    reveal(agree_items);
    assert(x.take(0) =~= y.take(0));
}

proof fn lemma_step_items(x: Seq<ast::ReturnItem>, y: Seq<ast::ReturnItem>, k: int)
    requires
        0 < k <= x.len(),
        k <= y.len(),
    ensures
        agree_items(x, y, k) == (agree_items(x, y, k - 1) && alike_items(x[k - 1], y[k - 1])),
{
    reveal(agree_items);
    reveal(alike_items);
    lemma_same_items(x.take(k), y.take(k));
    lemma_dropped_items(x, k);
    lemma_dropped_items(y, k);
}

proof fn lemma_all_items(x: Seq<ast::ReturnItem>, y: Seq<ast::ReturnItem>)
    ensures
        x.len() == y.len() ==> agree_items(x, y, x.len() as int) == (m::items_of(x) == m::items_of(y)),
        x.len() != y.len() ==> m::items_of(x) != m::items_of(y),
{
    reveal(agree_items);
    lemma_same_items(x, y);
    lemma_len_items(y);
    if x.len() == y.len() {
        assert(x.take(x.len() as int) =~= x);
        assert(y.take(y.len() as int) =~= y);
    }
}

/// Whether the first `k` are the same.
fn same_items_to(x: &Vec<ast::ReturnItem>, y: &Vec<ast::ReturnItem>, k: usize) -> (r: bool)
    requires
        k <= x@.len(),
        k <= y@.len(),
    ensures
        r == agree_items(x@, y@, k as int),
    decreases x, (k + 1) as int,
{
    if k == 0 {
        proof {
            lemma_start_items(x@, y@);
        }
        return true;
    }
    proof {
        lemma_step_items(x@, y@, k as int);
    }
    same_items_to(x, y, k - 1) && same_one_items(&x[k - 1], &y[k - 1])
}

pub fn same_items(x: &Vec<ast::ReturnItem>, y: &Vec<ast::ReturnItem>) -> (r: bool)
    ensures
        r == (m::items_of(x@) == m::items_of(y@)),
    decreases x, (x@.len() + 2) as int,
{
    proof {
        lemma_all_items(x@, y@);
    }
    if x.len() != y.len() {
        return false;
    }
    same_items_to(x, y, x.len())
}

proof fn lemma_same_patterns(x: Seq<ast::Pattern>, y: Seq<ast::Pattern>)
    ensures
        m::patterns_of(x).len() == x.len(),
        m::patterns_of(x) == m::patterns_of(y) ==> x.len() == y.len(),
        x.len() > 0 && y.len() > 0 ==> (m::patterns_of(x) == m::patterns_of(y) <==> (m::patterns_of(x.drop_last()) == m::patterns_of(y.drop_last())
            && m::patterns_of(x).last() == m::patterns_of(y).last())),
    decreases x.len(),
{
    lemma_len_patterns(x);
    lemma_len_patterns(y);
    if x.len() > 0 && y.len() > 0 {
        let a = m::patterns_of(x);
        let b = m::patterns_of(y);
        assert(a.drop_last() =~= m::patterns_of(x.drop_last()));
        assert(b.drop_last() =~= m::patterns_of(y.drop_last()));
        if a.drop_last() == b.drop_last() && a.last() == b.last() {
            assert(a =~= a.drop_last().push(a.last()));
            assert(b =~= b.drop_last().push(b.last()));
        }
    }
}

proof fn lemma_len_patterns(x: Seq<ast::Pattern>)
    ensures
        m::patterns_of(x).len() == x.len(),
    decreases x.len(),
{
    if x.len() > 0 {
        lemma_len_patterns(x.drop_last());
    }
}

pub fn same_patterns(x: &Vec<ast::Pattern>, y: &Vec<ast::Pattern>) -> (r: bool)
    ensures
        r == (m::patterns_of(x@) == m::patterns_of(y@)),
    decreases x, 0int,
{
    proof {
        lemma_same_patterns(x@, y@);
        lemma_len_patterns(y@);
    }
    if x.len() != y.len() {
        return false;
    }
    #[verifier::loop_isolation(false)]
    for i in 0..x.len()
        invariant
            m::patterns_of(x@.take(i as int)) == m::patterns_of(y@.take(i as int)),
    {
        proof {
            lemma_same_patterns(x@.take(i + 1), y@.take(i + 1));
            assert(x@.take(i + 1).drop_last() =~= x@.take(i as int));
            assert(y@.take(i + 1).drop_last() =~= y@.take(i as int));
        }
        if !same_pattern(&x[i], &y[i]) {
            proof {
                lemma_prefix_patterns(x@, y@, i + 1);
            }
            return false;
        }
    }
    assert(x@.take(x@.len() as int) =~= x@);
    assert(y@.take(y@.len() as int) =~= y@);
    true
}

proof fn lemma_prefix_patterns(x: Seq<ast::Pattern>, y: Seq<ast::Pattern>, k: int)
    requires
        x.len() == y.len(),
        0 <= k <= x.len(),
        m::patterns_of(x.take(k)) != m::patterns_of(y.take(k)),
    ensures
        m::patterns_of(x) != m::patterns_of(y),
    decreases x.len() - k,
{
    if k == x.len() {
        assert(x.take(k) =~= x);
        assert(y.take(k) =~= y);
    } else {
        lemma_same_patterns(x.take(k + 1), y.take(k + 1));
        assert(x.take(k + 1).drop_last() =~= x.take(k));
        assert(y.take(k + 1).drop_last() =~= y.take(k));
        lemma_prefix_patterns(x, y, k + 1);
    }
}

proof fn lemma_same_elements(x: Seq<ast::PatternElement>, y: Seq<ast::PatternElement>)
    ensures
        m::elements_of(x).len() == x.len(),
        m::elements_of(x) == m::elements_of(y) ==> x.len() == y.len(),
        x.len() > 0 && y.len() > 0 ==> (m::elements_of(x) == m::elements_of(y) <==> (m::elements_of(x.drop_last()) == m::elements_of(y.drop_last())
            && m::elements_of(x).last() == m::elements_of(y).last())),
    decreases x.len(),
{
    lemma_len_elements(x);
    lemma_len_elements(y);
    if x.len() > 0 && y.len() > 0 {
        let a = m::elements_of(x);
        let b = m::elements_of(y);
        assert(a.drop_last() =~= m::elements_of(x.drop_last()));
        assert(b.drop_last() =~= m::elements_of(y.drop_last()));
        if a.drop_last() == b.drop_last() && a.last() == b.last() {
            assert(a =~= a.drop_last().push(a.last()));
            assert(b =~= b.drop_last().push(b.last()));
        }
    }
}

proof fn lemma_len_elements(x: Seq<ast::PatternElement>)
    ensures
        m::elements_of(x).len() == x.len(),
    decreases x.len(),
{
    if x.len() > 0 {
        lemma_len_elements(x.drop_last());
    }
}

pub fn same_elements(x: &Vec<ast::PatternElement>, y: &Vec<ast::PatternElement>) -> (r: bool)
    ensures
        r == (m::elements_of(x@) == m::elements_of(y@)),
    decreases x, 0int,
{
    proof {
        lemma_same_elements(x@, y@);
        lemma_len_elements(y@);
    }
    if x.len() != y.len() {
        return false;
    }
    #[verifier::loop_isolation(false)]
    for i in 0..x.len()
        invariant
            m::elements_of(x@.take(i as int)) == m::elements_of(y@.take(i as int)),
    {
        proof {
            lemma_same_elements(x@.take(i + 1), y@.take(i + 1));
            assert(x@.take(i + 1).drop_last() =~= x@.take(i as int));
            assert(y@.take(i + 1).drop_last() =~= y@.take(i as int));
        }
        if !same_pattern_element(&x[i], &y[i]) {
            proof {
                lemma_prefix_elements(x@, y@, i + 1);
            }
            return false;
        }
    }
    assert(x@.take(x@.len() as int) =~= x@);
    assert(y@.take(y@.len() as int) =~= y@);
    true
}

proof fn lemma_prefix_elements(x: Seq<ast::PatternElement>, y: Seq<ast::PatternElement>, k: int)
    requires
        x.len() == y.len(),
        0 <= k <= x.len(),
        m::elements_of(x.take(k)) != m::elements_of(y.take(k)),
    ensures
        m::elements_of(x) != m::elements_of(y),
    decreases x.len() - k,
{
    if k == x.len() {
        assert(x.take(k) =~= x);
        assert(y.take(k) =~= y);
    } else {
        lemma_same_elements(x.take(k + 1), y.take(k + 1));
        assert(x.take(k + 1).drop_last() =~= x.take(k));
        assert(y.take(k + 1).drop_last() =~= y.take(k));
        lemma_prefix_elements(x, y, k + 1);
    }
}

proof fn lemma_same_merge_actions(x: Seq<ast::MergeAction>, y: Seq<ast::MergeAction>)
    ensures
        m::merge_actions_of(x).len() == x.len(),
        m::merge_actions_of(x) == m::merge_actions_of(y) ==> x.len() == y.len(),
        x.len() > 0 && y.len() > 0 ==> (m::merge_actions_of(x) == m::merge_actions_of(y) <==> (m::merge_actions_of(x.drop_last()) == m::merge_actions_of(y.drop_last())
            && m::merge_actions_of(x).last() == m::merge_actions_of(y).last())),
    decreases x.len(),
{
    lemma_len_merge_actions(x);
    lemma_len_merge_actions(y);
    if x.len() > 0 && y.len() > 0 {
        let a = m::merge_actions_of(x);
        let b = m::merge_actions_of(y);
        assert(a.drop_last() =~= m::merge_actions_of(x.drop_last()));
        assert(b.drop_last() =~= m::merge_actions_of(y.drop_last()));
        if a.drop_last() == b.drop_last() && a.last() == b.last() {
            assert(a =~= a.drop_last().push(a.last()));
            assert(b =~= b.drop_last().push(b.last()));
        }
    }
}

proof fn lemma_len_merge_actions(x: Seq<ast::MergeAction>)
    ensures
        m::merge_actions_of(x).len() == x.len(),
    decreases x.len(),
{
    if x.len() > 0 {
        lemma_len_merge_actions(x.drop_last());
    }
}

pub fn same_merge_actions(x: &Vec<ast::MergeAction>, y: &Vec<ast::MergeAction>) -> (r: bool)
    ensures
        r == (m::merge_actions_of(x@) == m::merge_actions_of(y@)),
    decreases x, 0int,
{
    proof {
        lemma_same_merge_actions(x@, y@);
        lemma_len_merge_actions(y@);
    }
    if x.len() != y.len() {
        return false;
    }
    #[verifier::loop_isolation(false)]
    for i in 0..x.len()
        invariant
            m::merge_actions_of(x@.take(i as int)) == m::merge_actions_of(y@.take(i as int)),
    {
        proof {
            lemma_same_merge_actions(x@.take(i + 1), y@.take(i + 1));
            assert(x@.take(i + 1).drop_last() =~= x@.take(i as int));
            assert(y@.take(i + 1).drop_last() =~= y@.take(i as int));
        }
        if !same_merge_action(&x[i], &y[i]) {
            proof {
                lemma_prefix_merge_actions(x@, y@, i + 1);
            }
            return false;
        }
    }
    assert(x@.take(x@.len() as int) =~= x@);
    assert(y@.take(y@.len() as int) =~= y@);
    true
}

proof fn lemma_prefix_merge_actions(x: Seq<ast::MergeAction>, y: Seq<ast::MergeAction>, k: int)
    requires
        x.len() == y.len(),
        0 <= k <= x.len(),
        m::merge_actions_of(x.take(k)) != m::merge_actions_of(y.take(k)),
    ensures
        m::merge_actions_of(x) != m::merge_actions_of(y),
    decreases x.len() - k,
{
    if k == x.len() {
        assert(x.take(k) =~= x);
        assert(y.take(k) =~= y);
    } else {
        lemma_same_merge_actions(x.take(k + 1), y.take(k + 1));
        assert(x.take(k + 1).drop_last() =~= x.take(k));
        assert(y.take(k + 1).drop_last() =~= y.take(k));
        lemma_prefix_merge_actions(x, y, k + 1);
    }
}

proof fn lemma_same_whens(x: Seq<(ast::Expression, ast::Expression)>, y: Seq<(ast::Expression, ast::Expression)>)
    ensures
        m::whens_of(x).len() == x.len(),
        m::whens_of(x) == m::whens_of(y) ==> x.len() == y.len(),
        x.len() > 0 && y.len() > 0 ==> (m::whens_of(x) == m::whens_of(y) <==> (m::whens_of(x.drop_last()) == m::whens_of(y.drop_last())
            && m::whens_of(x).last() == m::whens_of(y).last())),
    decreases x.len(),
{
    lemma_len_whens(x);
    lemma_len_whens(y);
    if x.len() > 0 && y.len() > 0 {
        let a = m::whens_of(x);
        let b = m::whens_of(y);
        assert(a.drop_last() =~= m::whens_of(x.drop_last()));
        assert(b.drop_last() =~= m::whens_of(y.drop_last()));
        if a.drop_last() == b.drop_last() && a.last() == b.last() {
            assert(a =~= a.drop_last().push(a.last()));
            assert(b =~= b.drop_last().push(b.last()));
        }
    }
}

proof fn lemma_len_whens(x: Seq<(ast::Expression, ast::Expression)>)
    ensures
        m::whens_of(x).len() == x.len(),
    decreases x.len(),
{
    if x.len() > 0 {
        lemma_len_whens(x.drop_last());
    }
}

pub fn same_whens(x: &Vec<(ast::Expression, ast::Expression)>, y: &Vec<(ast::Expression, ast::Expression)>) -> (r: bool)
    ensures
        r == (m::whens_of(x@) == m::whens_of(y@)),
    decreases x, 0int,
{
    proof {
        lemma_same_whens(x@, y@);
        lemma_len_whens(y@);
    }
    if x.len() != y.len() {
        return false;
    }
    #[verifier::loop_isolation(false)]
    for i in 0..x.len()
        invariant
            m::whens_of(x@.take(i as int)) == m::whens_of(y@.take(i as int)),
    {
        proof {
            lemma_same_whens(x@.take(i + 1), y@.take(i + 1));
            assert(x@.take(i + 1).drop_last() =~= x@.take(i as int));
            assert(y@.take(i + 1).drop_last() =~= y@.take(i as int));
        }
        if !same_expression(&x[i].0, &y[i].0) || !same_expression(&x[i].1, &y[i].1) {
            proof {
                lemma_prefix_whens(x@, y@, i + 1);
            }
            return false;
        }
    }
    assert(x@.take(x@.len() as int) =~= x@);
    assert(y@.take(y@.len() as int) =~= y@);
    true
}

proof fn lemma_prefix_whens(x: Seq<(ast::Expression, ast::Expression)>, y: Seq<(ast::Expression, ast::Expression)>, k: int)
    requires
        x.len() == y.len(),
        0 <= k <= x.len(),
        m::whens_of(x.take(k)) != m::whens_of(y.take(k)),
    ensures
        m::whens_of(x) != m::whens_of(y),
    decreases x.len() - k,
{
    if k == x.len() {
        assert(x.take(k) =~= x);
        assert(y.take(k) =~= y);
    } else {
        lemma_same_whens(x.take(k + 1), y.take(k + 1));
        assert(x.take(k + 1).drop_last() =~= x.take(k));
        assert(y.take(k + 1).drop_last() =~= y.take(k));
        lemma_prefix_whens(x, y, k + 1);
    }
}

proof fn lemma_same_entries(x: Seq<(String, ast::Expression)>, y: Seq<(String, ast::Expression)>)
    ensures
        m::entries_of(x).len() == x.len(),
        m::entries_of(x) == m::entries_of(y) ==> x.len() == y.len(),
        x.len() > 0 && y.len() > 0 ==> (m::entries_of(x) == m::entries_of(y) <==> (m::entries_of(x.drop_last()) == m::entries_of(y.drop_last())
            && m::entries_of(x).last() == m::entries_of(y).last())),
    decreases x.len(),
{
    lemma_len_entries(x);
    lemma_len_entries(y);
    if x.len() > 0 && y.len() > 0 {
        let a = m::entries_of(x);
        let b = m::entries_of(y);
        assert(a.drop_last() =~= m::entries_of(x.drop_last()));
        assert(b.drop_last() =~= m::entries_of(y.drop_last()));
        if a.drop_last() == b.drop_last() && a.last() == b.last() {
            assert(a =~= a.drop_last().push(a.last()));
            assert(b =~= b.drop_last().push(b.last()));
        }
    }
}

proof fn lemma_len_entries(x: Seq<(String, ast::Expression)>)
    ensures
        m::entries_of(x).len() == x.len(),
    decreases x.len(),
{
    if x.len() > 0 {
        lemma_len_entries(x.drop_last());
    }
}

pub fn same_entries(x: &Vec<(String, ast::Expression)>, y: &Vec<(String, ast::Expression)>) -> (r: bool)
    ensures
        r == (m::entries_of(x@) == m::entries_of(y@)),
    decreases x, 0int,
{
    proof {
        lemma_same_entries(x@, y@);
        lemma_len_entries(y@);
    }
    if x.len() != y.len() {
        return false;
    }
    #[verifier::loop_isolation(false)]
    for i in 0..x.len()
        invariant
            m::entries_of(x@.take(i as int)) == m::entries_of(y@.take(i as int)),
    {
        proof {
            lemma_same_entries(x@.take(i + 1), y@.take(i + 1));
            assert(x@.take(i + 1).drop_last() =~= x@.take(i as int));
            assert(y@.take(i + 1).drop_last() =~= y@.take(i as int));
        }
        if !same_text(x[i].0.as_str(), y[i].0.as_str()) || !same_expression(&x[i].1, &y[i].1) {
            proof {
                lemma_prefix_entries(x@, y@, i + 1);
            }
            return false;
        }
    }
    assert(x@.take(x@.len() as int) =~= x@);
    assert(y@.take(y@.len() as int) =~= y@);
    true
}

proof fn lemma_prefix_entries(x: Seq<(String, ast::Expression)>, y: Seq<(String, ast::Expression)>, k: int)
    requires
        x.len() == y.len(),
        0 <= k <= x.len(),
        m::entries_of(x.take(k)) != m::entries_of(y.take(k)),
    ensures
        m::entries_of(x) != m::entries_of(y),
    decreases x.len() - k,
{
    if k == x.len() {
        assert(x.take(k) =~= x);
        assert(y.take(k) =~= y);
    } else {
        lemma_same_entries(x.take(k + 1), y.take(k + 1));
        assert(x.take(k + 1).drop_last() =~= x.take(k));
        assert(y.take(k + 1).drop_last() =~= y.take(k));
        lemma_prefix_entries(x, y, k + 1);
    }
}

pub fn same_texts(x: &Vec<String>, y: &Vec<String>) -> (r: bool)
    ensures
        r == (texts(x@) == texts(y@)),
{
    if x.len() != y.len() {
        assert(texts(x@).len() != texts(y@).len());
        return false;
    }
    for i in 0..x.len()
        invariant
            x@.len() == y@.len(),
            forall|k: int| 0 <= k < i ==> #[trigger] texts(x@)[k] == texts(y@)[k],
    {
        if !same_text(x[i].as_str(), y[i].as_str()) {
            assert(texts(x@)[i as int] != texts(y@)[i as int]);
            return false;
        }
    }
    assert(texts(x@) =~= texts(y@));
    true
}

} // verus!
