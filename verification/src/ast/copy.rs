//! Copies of syntax trees.
use vstd::prelude::*;

use crate::ast::cypher as ast;
#[allow(unused_imports)]
use crate::ast::model as m;
use crate::number::Float;
use crate::text::clone_texts;

verus! {

pub fn clone_clause(x: &ast::Clause) -> (r: ast::Clause)
    ensures
        m::clause_of(r) == m::clause_of(*x),
    decreases x, 0int,
{
    match x {
        ast::Clause::Match(a) => ast::Clause::Match(clone_match_clause(a)),
        ast::Clause::With(a) => ast::Clause::With(clone_with_clause(a)),
        ast::Clause::Return(a) => ast::Clause::Return(clone_return_clause(a)),
        ast::Clause::Unwind(a) => ast::Clause::Unwind(clone_unwind_clause(a)),
        ast::Clause::Create(a) => ast::Clause::Create(clone_create_clause(a)),
        ast::Clause::Merge(a) => ast::Clause::Merge(clone_merge_clause(a)),
        ast::Clause::SetItems(a) => ast::Clause::SetItems(clone_set_clause(a)),
        ast::Clause::Delete(a) => ast::Clause::Delete(clone_delete_clause(a)),
        ast::Clause::Remove(a) => ast::Clause::Remove(clone_remove_clause(a)),
        ast::Clause::Call(a) => ast::Clause::Call(clone_call_clause(a)),
        ast::Clause::Union { all } => ast::Clause::Union {
            all: *all,
        },
    }
}

pub fn clone_match_clause(x: &ast::MatchClause) -> (r: ast::MatchClause)
    ensures
        m::match_clause_of(r) == m::match_clause_of(*x),
    decreases x, 0int,
{
    ast::MatchClause {
        optional: x.optional,
        pattern: clone_pattern_list(&x.pattern),
        where_: clone_opt_where(&x.where_),
    }
}

pub fn clone_where_clause(x: &ast::WhereClause) -> (r: ast::WhereClause)
    ensures
        m::where_clause_of(r) == m::where_clause_of(*x),
    decreases x, 0int,
{
    ast::WhereClause {
        expression: clone_expression(&x.expression),
    }
}

pub fn clone_return_clause(x: &ast::ReturnClause) -> (r: ast::ReturnClause)
    ensures
        m::return_clause_of(r) == m::return_clause_of(*x),
    decreases x, 0int,
{
    ast::ReturnClause {
        distinct: x.distinct,
        items: clone_return_items(&x.items),
        order_by: clone_opt_order_by(&x.order_by),
        skip: clone_opt_expr(&x.skip),
        limit: clone_opt_expr(&x.limit),
    }
}

pub fn clone_with_clause(x: &ast::WithClause) -> (r: ast::WithClause)
    ensures
        m::with_clause_of(r) == m::with_clause_of(*x),
    decreases x, 0int,
{
    ast::WithClause {
        distinct: x.distinct,
        items: clone_return_items(&x.items),
        where_: clone_opt_where(&x.where_),
        order_by: clone_opt_order_by(&x.order_by),
        skip: clone_opt_expr(&x.skip),
        limit: clone_opt_expr(&x.limit),
    }
}

pub fn clone_unwind_clause(x: &ast::UnwindClause) -> (r: ast::UnwindClause)
    ensures
        m::unwind_clause_of(r) == m::unwind_clause_of(*x),
    decreases x, 0int,
{
    ast::UnwindClause {
        expression: clone_expression(&x.expression),
        variable: x.variable.clone(),
    }
}

pub fn clone_create_clause(x: &ast::CreateClause) -> (r: ast::CreateClause)
    ensures
        m::create_clause_of(r) == m::create_clause_of(*x),
    decreases x, 0int,
{
    ast::CreateClause {
        pattern: clone_pattern_list(&x.pattern),
    }
}

pub fn clone_merge_clause(x: &ast::MergeClause) -> (r: ast::MergeClause)
    ensures
        m::merge_clause_of(r) == m::merge_clause_of(*x),
    decreases x, 0int,
{
    ast::MergeClause {
        pattern: clone_pattern(&x.pattern),
        actions: clone_merge_actions(&x.actions),
    }
}

pub fn clone_merge_action(x: &ast::MergeAction) -> (r: ast::MergeAction)
    ensures
        m::merge_action_of(r) == m::merge_action_of(*x),
    decreases x, 0int,
{
    ast::MergeAction {
        on_create: x.on_create,
        items: clone_set_items(&x.items),
    }
}

pub fn clone_set_clause(x: &ast::SetClause) -> (r: ast::SetClause)
    ensures
        m::set_clause_of(r) == m::set_clause_of(*x),
    decreases x, 0int,
{
    ast::SetClause {
        items: clone_set_items(&x.items),
    }
}

pub fn clone_set_item(x: &ast::SetItem) -> (r: ast::SetItem)
    ensures
        m::set_item_of(r) == m::set_item_of(*x),
    decreases x, 0int,
{
    match x {
        ast::SetItem::Property { variable, key, value } => ast::SetItem::Property {
            variable: variable.clone(),
            key: key.clone(),
            value: clone_expression(value),
        },
        ast::SetItem::MergeMap { variable, map } => ast::SetItem::MergeMap {
            variable: variable.clone(),
            map: clone_entries(map),
        },
        ast::SetItem::NodeReplace { variable, value } => ast::SetItem::NodeReplace {
            variable: variable.clone(),
            value: clone_expression(value),
        },
        ast::SetItem::SetLabel { variable, labels } => ast::SetItem::SetLabel {
            variable: variable.clone(),
            labels: clone_texts(labels),
        },
    }
}

pub fn clone_delete_clause(x: &ast::DeleteClause) -> (r: ast::DeleteClause)
    ensures
        m::delete_clause_of(r) == m::delete_clause_of(*x),
    decreases x, 0int,
{
    ast::DeleteClause {
        detach: x.detach,
        expressions: clone_exprs(&x.expressions),
    }
}

pub fn clone_remove_clause(x: &ast::RemoveClause) -> (r: ast::RemoveClause)
    ensures
        m::remove_clause_of(r) == m::remove_clause_of(*x),
    decreases x, 0int,
{
    ast::RemoveClause {
        items: clone_remove_items(&x.items),
    }
}

pub fn clone_remove_item(x: &ast::RemoveItem) -> (r: ast::RemoveItem)
    ensures
        m::remove_item_of(r) == m::remove_item_of(*x),
    decreases x, 0int,
{
    match x {
        ast::RemoveItem::Property { variable, key } => ast::RemoveItem::Property {
            variable: variable.clone(),
            key: key.clone(),
        },
        ast::RemoveItem::Label { variable, labels } => ast::RemoveItem::Label {
            variable: variable.clone(),
            labels: clone_texts(labels),
        },
    }
}

pub fn clone_call_clause(x: &ast::CallClause) -> (r: ast::CallClause)
    ensures
        m::call_clause_of(r) == m::call_clause_of(*x),
    decreases x, 0int,
{
    ast::CallClause {
        procedure: x.procedure.clone(),
        args: clone_exprs(&x.args),
        yields: clone_texts(&x.yields),
    }
}

pub fn clone_order_by_clause(x: &ast::OrderByClause) -> (r: ast::OrderByClause)
    ensures
        m::order_by_clause_of(r) == m::order_by_clause_of(*x),
    decreases x, 0int,
{
    ast::OrderByClause {
        items: clone_sort_items(&x.items),
    }
}

pub fn clone_sort_item(x: &ast::SortItem) -> (r: ast::SortItem)
    ensures
        m::sort_item_of(r) == m::sort_item_of(*x),
    decreases x, 0int,
{
    ast::SortItem {
        expression: clone_expression(&x.expression),
        descending: x.descending,
    }
}

pub fn clone_return_items(x: &ast::ReturnItems) -> (r: ast::ReturnItems)
    ensures
        m::return_items_of(r) == m::return_items_of(*x),
    decreases x, 0int,
{
    match x {
        ast::ReturnItems::All => ast::ReturnItems::All,
        ast::ReturnItems::Explicit(a) => ast::ReturnItems::Explicit(clone_items(a)),
    }
}

pub fn clone_return_item(x: &ast::ReturnItem) -> (r: ast::ReturnItem)
    ensures
        m::return_item_of(r) == m::return_item_of(*x),
    decreases x, 0int,
{
    ast::ReturnItem {
        expression: clone_expression(&x.expression),
        alias: clone_opt_text(&x.alias),
    }
}

pub fn clone_pattern_list(x: &ast::PatternList) -> (r: ast::PatternList)
    ensures
        m::pattern_list_of(r) == m::pattern_list_of(*x),
    decreases x, 0int,
{
    ast::PatternList(clone_patterns(&x.0))
}

pub fn clone_pattern(x: &ast::Pattern) -> (r: ast::Pattern)
    ensures
        m::pattern_of(r) == m::pattern_of(*x),
    decreases x, 0int,
{
    ast::Pattern {
        variable: clone_opt_text(&x.variable),
        elements: clone_elements(&x.elements),
    }
}

pub fn clone_pattern_element(x: &ast::PatternElement) -> (r: ast::PatternElement)
    ensures
        m::pattern_element_of(r) == m::pattern_element_of(*x),
    decreases x, 0int,
{
    match x {
        ast::PatternElement::Node(a) => ast::PatternElement::Node(clone_node_pattern(a)),
        ast::PatternElement::Relationship(a) => ast::PatternElement::Relationship(clone_relationship_pattern(a)),
    }
}

pub fn clone_node_pattern(x: &ast::NodePattern) -> (r: ast::NodePattern)
    ensures
        m::node_pattern_of(r) == m::node_pattern_of(*x),
    decreases x, 0int,
{
    ast::NodePattern {
        variable: clone_opt_text(&x.variable),
        labels: clone_texts(&x.labels),
        properties: clone_opt_entries(&x.properties),
    }
}

pub fn clone_relationship_pattern(x: &ast::RelationshipPattern) -> (r: ast::RelationshipPattern)
    ensures
        m::relationship_pattern_of(r) == m::relationship_pattern_of(*x),
    decreases x, 0int,
{
    ast::RelationshipPattern {
        variable: clone_opt_text(&x.variable),
        direction: x.direction,
        rel_types: clone_texts(&x.rel_types),
        properties: clone_opt_entries(&x.properties),
        range: x.range,
    }
}

pub fn clone_expression(x: &ast::Expression) -> (r: ast::Expression)
    ensures
        m::expression_of(r) == m::expression_of(*x),
    decreases x, 0int,
{
    match x {
        ast::Expression::Or(a, b) => ast::Expression::Or(Box::new(clone_expression(a)), Box::new(clone_expression(b))),
        ast::Expression::Xor(a, b) => ast::Expression::Xor(Box::new(clone_expression(a)), Box::new(clone_expression(b))),
        ast::Expression::And(a, b) => ast::Expression::And(Box::new(clone_expression(a)), Box::new(clone_expression(b))),
        ast::Expression::Not(a) => ast::Expression::Not(Box::new(clone_expression(a))),
        ast::Expression::Comparison(a, b, c) => ast::Expression::Comparison(Box::new(clone_expression(a)), *b, Box::new(clone_expression(c))),
        ast::Expression::IsNull(a) => ast::Expression::IsNull(Box::new(clone_expression(a))),
        ast::Expression::IsNotNull(a) => ast::Expression::IsNotNull(Box::new(clone_expression(a))),
        ast::Expression::Add(a, b) => ast::Expression::Add(Box::new(clone_expression(a)), Box::new(clone_expression(b))),
        ast::Expression::Subtract(a, b) => ast::Expression::Subtract(Box::new(clone_expression(a)), Box::new(clone_expression(b))),
        ast::Expression::Multiply(a, b) => ast::Expression::Multiply(Box::new(clone_expression(a)), Box::new(clone_expression(b))),
        ast::Expression::Divide(a, b) => ast::Expression::Divide(Box::new(clone_expression(a)), Box::new(clone_expression(b))),
        ast::Expression::Modulo(a, b) => ast::Expression::Modulo(Box::new(clone_expression(a)), Box::new(clone_expression(b))),
        ast::Expression::Negate(a) => ast::Expression::Negate(Box::new(clone_expression(a))),
        ast::Expression::Power(a, b) => ast::Expression::Power(Box::new(clone_expression(a)), Box::new(clone_expression(b))),
        ast::Expression::Property(a, b) => ast::Expression::Property(Box::new(clone_expression(a)), b.clone()),
        ast::Expression::Variable(a) => ast::Expression::Variable(a.clone()),
        ast::Expression::Literal(a) => ast::Expression::Literal(clone_literal(a)),
        ast::Expression::List(a) => ast::Expression::List(clone_exprs(a)),
        ast::Expression::MapLit(a) => ast::Expression::MapLit(clone_entries(a)),
        ast::Expression::Aggregate(a) => ast::Expression::Aggregate(clone_aggregate_expr(a)),
        ast::Expression::FunctionCall { name, distinct, args } => ast::Expression::FunctionCall {
            name: name.clone(),
            distinct: *distinct,
            args: clone_exprs(args),
        },
        ast::Expression::LabelCheck { variable, labels } => ast::Expression::LabelCheck {
            variable: variable.clone(),
            labels: clone_texts(labels),
        },
        ast::Expression::PatternPredicate(a) => ast::Expression::PatternPredicate(clone_pattern(a)),
        ast::Expression::ExistsSubquery { patterns, where_ } => ast::Expression::ExistsSubquery {
            patterns: clone_pattern_list(patterns),
            where_: clone_opt_boxed(where_),
        },
        ast::Expression::ExistsFullSubquery { clauses } => ast::Expression::ExistsFullSubquery {
            clauses: clone_clauses(clauses),
        },
        ast::Expression::CaseExpression { operand, whens, else_expr } => ast::Expression::CaseExpression {
            operand: clone_opt_boxed(operand),
            whens: clone_whens(whens),
            else_expr: clone_opt_boxed(else_expr),
        },
        ast::Expression::QuantifierExpr { kind, variable, list, predicate } => ast::Expression::QuantifierExpr {
            kind: *kind,
            variable: variable.clone(),
            list: Box::new(clone_expression(list)),
            predicate: clone_opt_boxed(predicate),
        },
        ast::Expression::Subscript(a, b) => ast::Expression::Subscript(Box::new(clone_expression(a)), Box::new(clone_expression(b))),
        ast::Expression::ListSlice { list, start, end } => ast::Expression::ListSlice {
            list: Box::new(clone_expression(list)),
            start: clone_opt_boxed(start),
            end: clone_opt_boxed(end),
        },
        ast::Expression::ListComprehension { variable, list, predicate, projection } => ast::Expression::ListComprehension {
            variable: variable.clone(),
            list: Box::new(clone_expression(list)),
            predicate: clone_opt_boxed(predicate),
            projection: clone_opt_boxed(projection),
        },
        ast::Expression::PatternComprehension { alias, pattern, predicate, projection } => ast::Expression::PatternComprehension {
            alias: clone_opt_text(alias),
            pattern: clone_pattern(pattern),
            predicate: clone_opt_boxed(predicate),
            projection: Box::new(clone_expression(projection)),
        },
    }
}

pub fn clone_literal(x: &ast::Literal) -> (r: ast::Literal)
    ensures
        m::literal_of(r) == m::literal_of(*x),
    decreases x, 0int,
{
    match x {
        ast::Literal::Integer(a) => ast::Literal::Integer(*a),
        ast::Literal::Float(a) => ast::Literal::Float(Float { text: a.text.clone() }),
        ast::Literal::String(a) => ast::Literal::String(a.clone()),
        ast::Literal::Boolean(a) => ast::Literal::Boolean(*a),
        ast::Literal::Null => ast::Literal::Null,
    }
}

pub fn clone_aggregate_expr(x: &ast::AggregateExpr) -> (r: ast::AggregateExpr)
    ensures
        m::aggregate_expr_of(r) == m::aggregate_expr_of(*x),
    decreases x, 0int,
{
    match x {
        ast::AggregateExpr::Count { distinct, expr } => ast::AggregateExpr::Count {
            distinct: *distinct,
            expr: clone_opt_boxed(expr),
        },
        ast::AggregateExpr::Sum { distinct, expr } => ast::AggregateExpr::Sum {
            distinct: *distinct,
            expr: Box::new(clone_expression(expr)),
        },
        ast::AggregateExpr::Avg { distinct, expr } => ast::AggregateExpr::Avg {
            distinct: *distinct,
            expr: Box::new(clone_expression(expr)),
        },
        ast::AggregateExpr::Min { distinct, expr } => ast::AggregateExpr::Min {
            distinct: *distinct,
            expr: Box::new(clone_expression(expr)),
        },
        ast::AggregateExpr::Max { distinct, expr } => ast::AggregateExpr::Max {
            distinct: *distinct,
            expr: Box::new(clone_expression(expr)),
        },
        ast::AggregateExpr::Collect { distinct, expr } => ast::AggregateExpr::Collect {
            distinct: *distinct,
            expr: Box::new(clone_expression(expr)),
        },
    }
}

pub fn clone_opt_text(x: &Option<String>) -> (r: Option<String>)
    ensures
        m::opt_text(r) == m::opt_text(*x),
{
    match x {
        Some(t) => Some(t.clone()),
        None => None,
    }
}

pub fn clone_opt_entries(x: &Option<Vec<(String, ast::Expression)>>) -> (r: Option<Vec<(String, ast::Expression)>>)
    ensures
        m::opt_entries(r) == m::opt_entries(*x),
    decreases x, 0int,
{
    match x {
        Some(a) => Some(clone_entries(a)),
        None => None,
    }
}

pub fn clone_opt_boxed(x: &Option<Box<ast::Expression>>) -> (r: Option<Box<ast::Expression>>)
    ensures
        m::opt_boxed(r) == m::opt_boxed(*x),
    decreases x, 0int,
{
    match x {
        Some(a) => Some(Box::new(clone_expression(a))),
        None => None,
    }
}

pub fn clone_opt_expr(x: &Option<ast::Expression>) -> (r: Option<ast::Expression>)
    ensures
        m::opt_expr(r) == m::opt_expr(*x),
    decreases x, 0int,
{
    match x {
        Some(a) => Some(clone_expression(a)),
        None => None,
    }
}

pub fn clone_opt_where(x: &Option<ast::WhereClause>) -> (r: Option<ast::WhereClause>)
    ensures
        m::opt_where(r) == m::opt_where(*x),
    decreases x, 0int,
{
    match x {
        Some(a) => Some(clone_where_clause(a)),
        None => None,
    }
}

pub fn clone_opt_order_by(x: &Option<ast::OrderByClause>) -> (r: Option<ast::OrderByClause>)
    ensures
        m::opt_order_by(r) == m::opt_order_by(*x),
    decreases x, 0int,
{
    match x {
        Some(a) => Some(clone_order_by_clause(a)),
        None => None,
    }
}

proof fn lemma_next_clauses(r: Seq<ast::Clause>, c: ast::Clause, x: Seq<ast::Clause>, i: int)
    requires
        0 <= i < x.len(),
        m::clauses_of(r) == m::clauses_of(x.take(i)),
        m::clause_of(c) == m::clause_of(x[i]),
    ensures
        m::clauses_of(r.push(c)) == m::clauses_of(x.take(i + 1)),
{
    m::lemma_push_clauses_of(r, c);
    m::lemma_push_clauses_of(x.take(i), x[i]);
    assert(x.take(i + 1) =~= x.take(i).push(x[i]));
}

pub fn clone_clauses(x: &Vec<ast::Clause>) -> (r: Vec<ast::Clause>)
    ensures
        m::clauses_of(r@) == m::clauses_of(x@),
        r@.len() == x@.len(),
    decreases x, 0int,
{
    let mut r: Vec<ast::Clause> = Vec::new();
    #[verifier::loop_isolation(false)]
    for i in 0..x.len()
        invariant
            m::clauses_of(r@) == m::clauses_of(x@.take(i as int)),
            r@.len() == i,
    {
        let c = clone_clause(&x[i]);
        proof {
            lemma_next_clauses(r@, c, x@, i as int);
        }
        r.push(c);
    }
    assert(x@.take(x@.len() as int) =~= x@);
    r
}

proof fn lemma_next_set_items(r: Seq<ast::SetItem>, c: ast::SetItem, x: Seq<ast::SetItem>, i: int)
    requires
        0 <= i < x.len(),
        m::set_items_of(r) == m::set_items_of(x.take(i)),
        m::set_item_of(c) == m::set_item_of(x[i]),
    ensures
        m::set_items_of(r.push(c)) == m::set_items_of(x.take(i + 1)),
{
    m::lemma_push_set_items_of(r, c);
    m::lemma_push_set_items_of(x.take(i), x[i]);
    assert(x.take(i + 1) =~= x.take(i).push(x[i]));
}

pub fn clone_set_items(x: &Vec<ast::SetItem>) -> (r: Vec<ast::SetItem>)
    ensures
        m::set_items_of(r@) == m::set_items_of(x@),
        r@.len() == x@.len(),
    decreases x, 0int,
{
    let mut r: Vec<ast::SetItem> = Vec::new();
    #[verifier::loop_isolation(false)]
    for i in 0..x.len()
        invariant
            m::set_items_of(r@) == m::set_items_of(x@.take(i as int)),
            r@.len() == i,
    {
        let c = clone_set_item(&x[i]);
        proof {
            lemma_next_set_items(r@, c, x@, i as int);
        }
        r.push(c);
    }
    assert(x@.take(x@.len() as int) =~= x@);
    r
}

proof fn lemma_next_exprs(r: Seq<ast::Expression>, c: ast::Expression, x: Seq<ast::Expression>, i: int)
    requires
        0 <= i < x.len(),
        m::exprs_of(r) == m::exprs_of(x.take(i)),
        m::expression_of(c) == m::expression_of(x[i]),
    ensures
        m::exprs_of(r.push(c)) == m::exprs_of(x.take(i + 1)),
{
    m::lemma_push_exprs_of(r, c);
    m::lemma_push_exprs_of(x.take(i), x[i]);
    assert(x.take(i + 1) =~= x.take(i).push(x[i]));
}

pub fn clone_exprs(x: &Vec<ast::Expression>) -> (r: Vec<ast::Expression>)
    ensures
        m::exprs_of(r@) == m::exprs_of(x@),
        r@.len() == x@.len(),
    decreases x, 0int,
{
    let mut r: Vec<ast::Expression> = Vec::new();
    #[verifier::loop_isolation(false)]
    for i in 0..x.len()
        invariant
            m::exprs_of(r@) == m::exprs_of(x@.take(i as int)),
            r@.len() == i,
    {
        let c = clone_expression(&x[i]);
        proof {
            lemma_next_exprs(r@, c, x@, i as int);
        }
        r.push(c);
    }
    assert(x@.take(x@.len() as int) =~= x@);
    r
}

proof fn lemma_next_remove_items(r: Seq<ast::RemoveItem>, c: ast::RemoveItem, x: Seq<ast::RemoveItem>, i: int)
    requires
        0 <= i < x.len(),
        m::remove_items_of(r) == m::remove_items_of(x.take(i)),
        m::remove_item_of(c) == m::remove_item_of(x[i]),
    ensures
        m::remove_items_of(r.push(c)) == m::remove_items_of(x.take(i + 1)),
{
    m::lemma_push_remove_items_of(r, c);
    m::lemma_push_remove_items_of(x.take(i), x[i]);
    assert(x.take(i + 1) =~= x.take(i).push(x[i]));
}

pub fn clone_remove_items(x: &Vec<ast::RemoveItem>) -> (r: Vec<ast::RemoveItem>)
    ensures
        m::remove_items_of(r@) == m::remove_items_of(x@),
        r@.len() == x@.len(),
    decreases x, 0int,
{
    let mut r: Vec<ast::RemoveItem> = Vec::new();
    #[verifier::loop_isolation(false)]
    for i in 0..x.len()
        invariant
            m::remove_items_of(r@) == m::remove_items_of(x@.take(i as int)),
            r@.len() == i,
    {
        let c = clone_remove_item(&x[i]);
        proof {
            lemma_next_remove_items(r@, c, x@, i as int);
        }
        r.push(c);
    }
    assert(x@.take(x@.len() as int) =~= x@);
    r
}

proof fn lemma_take_sort_items(x: Seq<ast::SortItem>, i: int)
    requires
        0 <= i < x.len(),
    ensures
        x.take(i + 1) == x.take(i).push(x[i]),
{
    assert(x.take(i + 1) =~= x.take(i).push(x[i]));
}

proof fn lemma_pushed_sort_items(r: Seq<ast::SortItem>, c: ast::SortItem)
    ensures
        m::sort_items_of(r.push(c)) == m::sort_items_of(r).push(m::sort_item_of(c)),
{
    m::lemma_push_sort_items_of(r, c);
}

proof fn lemma_next_sort_items(r: Seq<ast::SortItem>, c: ast::SortItem, x: Seq<ast::SortItem>, i: int)
    requires
        0 <= i < x.len(),
        m::sort_items_of(r) == m::sort_items_of(x.take(i)),
        m::sort_item_of(c) == m::sort_item_of(x[i]),
    ensures
        m::sort_items_of(r.push(c)) == m::sort_items_of(x.take(i + 1)),
{
    lemma_take_sort_items(x, i);
    lemma_pushed_sort_items(r, c);
    lemma_pushed_sort_items(x.take(i), x[i]);
}

/// The first `k` of them.
fn clone_sort_items_to(x: &Vec<ast::SortItem>, k: usize) -> (r: Vec<ast::SortItem>)
    requires
        k <= x@.len(),
    ensures
        m::sort_items_of(r@) == m::sort_items_of(x@.take(k as int)),
        r@.len() == k,
    decreases x, (k + 1) as int,
{
    if k == 0 {
        assert(x@.take(0) =~= Seq::empty());
        return Vec::new();
    }
    let mut r = clone_sort_items_to(x, k - 1);
    let c = clone_sort_item(&x[k - 1]);
    proof {
        lemma_next_sort_items(r@, c, x@, k - 1);
    }
    r.push(c);
    r
}

pub fn clone_sort_items(x: &Vec<ast::SortItem>) -> (r: Vec<ast::SortItem>)
    ensures
        m::sort_items_of(r@) == m::sort_items_of(x@),
        r@.len() == x@.len(),
    decreases x, (x@.len() + 2) as int,
{
    assert(x@.take(x@.len() as int) =~= x@);
    clone_sort_items_to(x, x.len())
}

proof fn lemma_take_items(x: Seq<ast::ReturnItem>, i: int)
    requires
        0 <= i < x.len(),
    ensures
        x.take(i + 1) == x.take(i).push(x[i]),
{
    assert(x.take(i + 1) =~= x.take(i).push(x[i]));
}

proof fn lemma_pushed_items(r: Seq<ast::ReturnItem>, c: ast::ReturnItem)
    ensures
        m::items_of(r.push(c)) == m::items_of(r).push(m::return_item_of(c)),
{
    m::lemma_push_items_of(r, c);
}

proof fn lemma_next_items(r: Seq<ast::ReturnItem>, c: ast::ReturnItem, x: Seq<ast::ReturnItem>, i: int)
    requires
        0 <= i < x.len(),
        m::items_of(r) == m::items_of(x.take(i)),
        m::return_item_of(c) == m::return_item_of(x[i]),
    ensures
        m::items_of(r.push(c)) == m::items_of(x.take(i + 1)),
{
    lemma_take_items(x, i);
    lemma_pushed_items(r, c);
    lemma_pushed_items(x.take(i), x[i]);
}

/// The first `k` of them.
fn clone_items_to(x: &Vec<ast::ReturnItem>, k: usize) -> (r: Vec<ast::ReturnItem>)
    requires
        k <= x@.len(),
    ensures
        m::items_of(r@) == m::items_of(x@.take(k as int)),
        r@.len() == k,
    decreases x, (k + 1) as int,
{
    if k == 0 {
        assert(x@.take(0) =~= Seq::empty());
        return Vec::new();
    }
    let mut r = clone_items_to(x, k - 1);
    let c = clone_return_item(&x[k - 1]);
    proof {
        lemma_next_items(r@, c, x@, k - 1);
    }
    r.push(c);
    r
}

pub fn clone_items(x: &Vec<ast::ReturnItem>) -> (r: Vec<ast::ReturnItem>)
    ensures
        m::items_of(r@) == m::items_of(x@),
        r@.len() == x@.len(),
    decreases x, (x@.len() + 2) as int,
{
    assert(x@.take(x@.len() as int) =~= x@);
    clone_items_to(x, x.len())
}

proof fn lemma_next_patterns(r: Seq<ast::Pattern>, c: ast::Pattern, x: Seq<ast::Pattern>, i: int)
    requires
        0 <= i < x.len(),
        m::patterns_of(r) == m::patterns_of(x.take(i)),
        m::pattern_of(c) == m::pattern_of(x[i]),
    ensures
        m::patterns_of(r.push(c)) == m::patterns_of(x.take(i + 1)),
{
    m::lemma_push_patterns_of(r, c);
    m::lemma_push_patterns_of(x.take(i), x[i]);
    assert(x.take(i + 1) =~= x.take(i).push(x[i]));
}

pub fn clone_patterns(x: &Vec<ast::Pattern>) -> (r: Vec<ast::Pattern>)
    ensures
        m::patterns_of(r@) == m::patterns_of(x@),
        r@.len() == x@.len(),
    decreases x, 0int,
{
    let mut r: Vec<ast::Pattern> = Vec::new();
    #[verifier::loop_isolation(false)]
    for i in 0..x.len()
        invariant
            m::patterns_of(r@) == m::patterns_of(x@.take(i as int)),
            r@.len() == i,
    {
        let c = clone_pattern(&x[i]);
        proof {
            lemma_next_patterns(r@, c, x@, i as int);
        }
        r.push(c);
    }
    assert(x@.take(x@.len() as int) =~= x@);
    r
}

proof fn lemma_next_elements(r: Seq<ast::PatternElement>, c: ast::PatternElement, x: Seq<ast::PatternElement>, i: int)
    requires
        0 <= i < x.len(),
        m::elements_of(r) == m::elements_of(x.take(i)),
        m::pattern_element_of(c) == m::pattern_element_of(x[i]),
    ensures
        m::elements_of(r.push(c)) == m::elements_of(x.take(i + 1)),
{
    m::lemma_push_elements_of(r, c);
    m::lemma_push_elements_of(x.take(i), x[i]);
    assert(x.take(i + 1) =~= x.take(i).push(x[i]));
}

pub fn clone_elements(x: &Vec<ast::PatternElement>) -> (r: Vec<ast::PatternElement>)
    ensures
        m::elements_of(r@) == m::elements_of(x@),
        r@.len() == x@.len(),
    decreases x, 0int,
{
    let mut r: Vec<ast::PatternElement> = Vec::new();
    #[verifier::loop_isolation(false)]
    for i in 0..x.len()
        invariant
            m::elements_of(r@) == m::elements_of(x@.take(i as int)),
            r@.len() == i,
    {
        let c = clone_pattern_element(&x[i]);
        proof {
            lemma_next_elements(r@, c, x@, i as int);
        }
        r.push(c);
    }
    assert(x@.take(x@.len() as int) =~= x@);
    r
}

proof fn lemma_next_merge_actions(r: Seq<ast::MergeAction>, c: ast::MergeAction, x: Seq<ast::MergeAction>, i: int)
    requires
        0 <= i < x.len(),
        m::merge_actions_of(r) == m::merge_actions_of(x.take(i)),
        m::merge_action_of(c) == m::merge_action_of(x[i]),
    ensures
        m::merge_actions_of(r.push(c)) == m::merge_actions_of(x.take(i + 1)),
{
    m::lemma_push_merge_actions_of(r, c);
    m::lemma_push_merge_actions_of(x.take(i), x[i]);
    assert(x.take(i + 1) =~= x.take(i).push(x[i]));
}

pub fn clone_merge_actions(x: &Vec<ast::MergeAction>) -> (r: Vec<ast::MergeAction>)
    ensures
        m::merge_actions_of(r@) == m::merge_actions_of(x@),
        r@.len() == x@.len(),
    decreases x, 0int,
{
    let mut r: Vec<ast::MergeAction> = Vec::new();
    #[verifier::loop_isolation(false)]
    for i in 0..x.len()
        invariant
            m::merge_actions_of(r@) == m::merge_actions_of(x@.take(i as int)),
            r@.len() == i,
    {
        let c = clone_merge_action(&x[i]);
        proof {
            lemma_next_merge_actions(r@, c, x@, i as int);
        }
        r.push(c);
    }
    assert(x@.take(x@.len() as int) =~= x@);
    r
}

proof fn lemma_next_whens(r: Seq<(ast::Expression, ast::Expression)>, c: (ast::Expression, ast::Expression), x: Seq<(ast::Expression, ast::Expression)>, i: int)
    requires
        0 <= i < x.len(),
        m::whens_of(r) == m::whens_of(x.take(i)),
        m::expression_of(c.0) == m::expression_of(x[i].0),
        m::expression_of(c.1) == m::expression_of(x[i].1),
    ensures
        m::whens_of(r.push(c)) == m::whens_of(x.take(i + 1)),
{
    m::lemma_push_whens_of(r, c);
    m::lemma_push_whens_of(x.take(i), x[i]);
    assert(x.take(i + 1) =~= x.take(i).push(x[i]));
}

pub fn clone_whens(x: &Vec<(ast::Expression, ast::Expression)>) -> (r: Vec<(ast::Expression, ast::Expression)>)
    ensures
        m::whens_of(r@) == m::whens_of(x@),
        r@.len() == x@.len(),
    decreases x, 0int,
{
    let mut r: Vec<(ast::Expression, ast::Expression)> = Vec::new();
    #[verifier::loop_isolation(false)]
    for i in 0..x.len()
        invariant
            m::whens_of(r@) == m::whens_of(x@.take(i as int)),
            r@.len() == i,
    {
        let c = (clone_expression(&x[i].0), clone_expression(&x[i].1));
        proof {
            lemma_next_whens(r@, c, x@, i as int);
        }
        r.push(c);
    }
    assert(x@.take(x@.len() as int) =~= x@);
    r
}

proof fn lemma_next_entries(r: Seq<(String, ast::Expression)>, c: (String, ast::Expression), x: Seq<(String, ast::Expression)>, i: int)
    requires
        0 <= i < x.len(),
        m::entries_of(r) == m::entries_of(x.take(i)),
        c.0@ == x[i].0@,
        m::expression_of(c.1) == m::expression_of(x[i].1),
    ensures
        m::entries_of(r.push(c)) == m::entries_of(x.take(i + 1)),
{
    m::lemma_push_entries_of(r, c);
    m::lemma_push_entries_of(x.take(i), x[i]);
    assert(x.take(i + 1) =~= x.take(i).push(x[i]));
}

pub fn clone_entries(x: &Vec<(String, ast::Expression)>) -> (r: Vec<(String, ast::Expression)>)
    ensures
        m::entries_of(r@) == m::entries_of(x@),
        r@.len() == x@.len(),
    decreases x, 0int,
{
    let mut r: Vec<(String, ast::Expression)> = Vec::new();
    #[verifier::loop_isolation(false)]
    for i in 0..x.len()
        invariant
            m::entries_of(r@) == m::entries_of(x@.take(i as int)),
            r@.len() == i,
    {
        let c = (x[i].0.clone(), clone_expression(&x[i].1));
        proof {
            lemma_next_entries(r@, c, x@, i as int);
        }
        r.push(c);
    }
    assert(x@.take(x@.len() as int) =~= x@);
    r
}

} // verus!
