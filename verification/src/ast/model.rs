//! The mathematical model of the abstract syntax: the same trees, with
//! sequences in place of vectors and strings. Each type of the syntax has its
//! namesake here, and a function that gives the model of a value.
use vstd::prelude::*;

#[allow(unused_imports)]
use crate::ast::cypher as ast;
#[allow(unused_imports)]
use crate::ast::cypher::{CompOp, Direction, QuantifierKind, RangeQuantifier};
#[allow(unused_imports)]
use crate::text::texts;

verus! {

pub struct CypherQuery {
    pub clauses: Seq<Clause>,
}

pub enum Clause {
    Match(MatchClause),
    With(WithClause),
    Return(ReturnClause),
    Unwind(UnwindClause),
    Create(CreateClause),
    Merge(MergeClause),
    SetItems(SetClause),
    Delete(DeleteClause),
    Remove(RemoveClause),
    Call(CallClause),
    Union { all: bool },
}

pub struct MatchClause {
    pub optional: bool,
    pub pattern: PatternList,
    pub where_: Option<WhereClause>,
}

pub struct WhereClause {
    pub expression: Expression,
}

pub struct ReturnClause {
    pub distinct: bool,
    pub items: ReturnItems,
    pub order_by: Option<OrderByClause>,
    pub skip: Option<Expression>,
    pub limit: Option<Expression>,
}

pub struct WithClause {
    pub distinct: bool,
    pub items: ReturnItems,
    pub where_: Option<WhereClause>,
    pub order_by: Option<OrderByClause>,
    pub skip: Option<Expression>,
    pub limit: Option<Expression>,
}

pub struct UnwindClause {
    pub expression: Expression,
    pub variable: Seq<char>,
}

pub struct CreateClause {
    pub pattern: PatternList,
}

pub struct MergeClause {
    pub pattern: Pattern,
    pub actions: Seq<MergeAction>,
}

pub struct MergeAction {
    pub on_create: bool,
    pub items: Seq<SetItem>,
}

pub struct SetClause {
    pub items: Seq<SetItem>,
}

#[allow(inconsistent_fields)]
pub enum SetItem {
    Property { variable: Seq<char>, key: Seq<char>, value: Expression },
    MergeMap { variable: Seq<char>, map: Seq<(Seq<char>, Expression)> },
    NodeReplace { variable: Seq<char>, value: Expression },
    SetLabel { variable: Seq<char>, labels: Seq<Seq<char>> },
}

pub struct DeleteClause {
    pub detach: bool,
    pub expressions: Seq<Expression>,
}

pub struct RemoveClause {
    pub items: Seq<RemoveItem>,
}

#[allow(inconsistent_fields)]
pub enum RemoveItem {
    Property { variable: Seq<char>, key: Seq<char> },
    Label { variable: Seq<char>, labels: Seq<Seq<char>> },
}

pub struct CallClause {
    pub procedure: Seq<char>,
    pub args: Seq<Expression>,
    pub yields: Seq<Seq<char>>,
}

pub struct OrderByClause {
    pub items: Seq<SortItem>,
}

pub struct SortItem {
    pub expression: Expression,
    pub descending: bool,
}

pub enum ReturnItems {
    All,
    Explicit(Seq<ReturnItem>),
}

pub struct ReturnItem {
    pub expression: Expression,
    pub alias: Option<Seq<char>>,
}

pub struct PatternList(pub Seq<Pattern>);

pub struct Pattern {
    pub variable: Option<Seq<char>>,
    pub elements: Seq<PatternElement>,
}

pub enum PatternElement {
    Node(NodePattern),
    Relationship(RelationshipPattern),
}

pub struct NodePattern {
    pub variable: Option<Seq<char>>,
    pub labels: Seq<Seq<char>>,
    pub properties: Option<Seq<(Seq<char>, Expression)>>,
}

pub struct RelationshipPattern {
    pub variable: Option<Seq<char>>,
    pub direction: Direction,
    pub rel_types: Seq<Seq<char>>,
    pub properties: Option<Seq<(Seq<char>, Expression)>>,
    pub range: Option<RangeQuantifier>,
}

#[allow(inconsistent_fields)]
pub enum Expression {
    Or(Box<Expression>, Box<Expression>),
    Xor(Box<Expression>, Box<Expression>),
    And(Box<Expression>, Box<Expression>),
    Not(Box<Expression>),
    Comparison(Box<Expression>, CompOp, Box<Expression>),
    IsNull(Box<Expression>),
    IsNotNull(Box<Expression>),
    Add(Box<Expression>, Box<Expression>),
    Subtract(Box<Expression>, Box<Expression>),
    Multiply(Box<Expression>, Box<Expression>),
    Divide(Box<Expression>, Box<Expression>),
    Modulo(Box<Expression>, Box<Expression>),
    Negate(Box<Expression>),
    Power(Box<Expression>, Box<Expression>),
    Property(Box<Expression>, Seq<char>),
    Variable(Seq<char>),
    Literal(Literal),
    List(Seq<Expression>),
    MapLit(Seq<(Seq<char>, Expression)>),
    Aggregate(AggregateExpr),
    FunctionCall { name: Seq<char>, distinct: bool, args: Seq<Expression> },
    LabelCheck { variable: Seq<char>, labels: Seq<Seq<char>> },
    PatternPredicate(Pattern),
    ExistsSubquery { patterns: PatternList, where_: Option<Box<Expression>> },
    ExistsFullSubquery { clauses: Seq<Clause> },
    CaseExpression { operand: Option<Box<Expression>>, whens: Seq<(Expression, Expression)>, else_expr: Option<Box<Expression>> },
    QuantifierExpr { kind: QuantifierKind, variable: Seq<char>, list: Box<Expression>, predicate: Option<Box<Expression>> },
    Subscript(Box<Expression>, Box<Expression>),
    ListSlice { list: Box<Expression>, start: Option<Box<Expression>>, end: Option<Box<Expression>> },
    ListComprehension { variable: Seq<char>, list: Box<Expression>, predicate: Option<Box<Expression>>, projection: Option<Box<Expression>> },
    PatternComprehension { alias: Option<Seq<char>>, pattern: Pattern, predicate: Option<Box<Expression>>, projection: Box<Expression> },
}

pub enum Literal {
    Integer(i64),
    Float(Seq<char>),
    String(Seq<char>),
    Boolean(bool),
    Null,
}

#[allow(inconsistent_fields)]
pub enum AggregateExpr {
    Count { distinct: bool, expr: Option<Box<Expression>> },
    Sum { distinct: bool, expr: Box<Expression> },
    Avg { distinct: bool, expr: Box<Expression> },
    Min { distinct: bool, expr: Box<Expression> },
    Max { distinct: bool, expr: Box<Expression> },
    Collect { distinct: bool, expr: Box<Expression> },
}

pub open spec fn clause_of(x: ast::Clause) -> Clause
    decreases x,
{
    match x {
        ast::Clause::Match(a) => Clause::Match(match_clause_of(a)),
        ast::Clause::With(a) => Clause::With(with_clause_of(a)),
        ast::Clause::Return(a) => Clause::Return(return_clause_of(a)),
        ast::Clause::Unwind(a) => Clause::Unwind(unwind_clause_of(a)),
        ast::Clause::Create(a) => Clause::Create(create_clause_of(a)),
        ast::Clause::Merge(a) => Clause::Merge(merge_clause_of(a)),
        ast::Clause::SetItems(a) => Clause::SetItems(set_clause_of(a)),
        ast::Clause::Delete(a) => Clause::Delete(delete_clause_of(a)),
        ast::Clause::Remove(a) => Clause::Remove(remove_clause_of(a)),
        ast::Clause::Call(a) => Clause::Call(call_clause_of(a)),
        ast::Clause::Union { all } => Clause::Union {
            all: all,
        },
    }
}

pub open spec fn match_clause_of(x: ast::MatchClause) -> MatchClause
    decreases x,
{
    MatchClause {
        optional: x.optional,
        pattern: pattern_list_of(x.pattern),
        where_: opt_where(x.where_),
    }
}

pub open spec fn where_clause_of(x: ast::WhereClause) -> WhereClause
    decreases x,
{
    WhereClause {
        expression: expression_of(x.expression),
    }
}

pub open spec fn return_clause_of(x: ast::ReturnClause) -> ReturnClause
    decreases x,
{
    ReturnClause {
        distinct: x.distinct,
        items: return_items_of(x.items),
        order_by: opt_order_by(x.order_by),
        skip: opt_expr(x.skip),
        limit: opt_expr(x.limit),
    }
}

pub open spec fn with_clause_of(x: ast::WithClause) -> WithClause
    decreases x,
{
    WithClause {
        distinct: x.distinct,
        items: return_items_of(x.items),
        where_: opt_where(x.where_),
        order_by: opt_order_by(x.order_by),
        skip: opt_expr(x.skip),
        limit: opt_expr(x.limit),
    }
}

pub open spec fn unwind_clause_of(x: ast::UnwindClause) -> UnwindClause
    decreases x,
{
    UnwindClause {
        expression: expression_of(x.expression),
        variable: x.variable@,
    }
}

pub open spec fn create_clause_of(x: ast::CreateClause) -> CreateClause
    decreases x,
{
    CreateClause {
        pattern: pattern_list_of(x.pattern),
    }
}

pub open spec fn merge_clause_of(x: ast::MergeClause) -> MergeClause
    decreases x,
{
    MergeClause {
        pattern: pattern_of(x.pattern),
        actions: merge_actions_of(x.actions@),
    }
}

pub open spec fn merge_action_of(x: ast::MergeAction) -> MergeAction
    decreases x,
{
    MergeAction {
        on_create: x.on_create,
        items: set_items_of(x.items@),
    }
}

pub open spec fn set_clause_of(x: ast::SetClause) -> SetClause
    decreases x,
{
    SetClause {
        items: set_items_of(x.items@),
    }
}

pub open spec fn set_item_of(x: ast::SetItem) -> SetItem
    decreases x,
{
    match x {
        ast::SetItem::Property { variable, key, value } => SetItem::Property {
            variable: variable@,
            key: key@,
            value: expression_of(value),
        },
        ast::SetItem::MergeMap { variable, map } => SetItem::MergeMap {
            variable: variable@,
            map: entries_of(map@),
        },
        ast::SetItem::NodeReplace { variable, value } => SetItem::NodeReplace {
            variable: variable@,
            value: expression_of(value),
        },
        ast::SetItem::SetLabel { variable, labels } => SetItem::SetLabel {
            variable: variable@,
            labels: texts(labels@),
        },
    }
}

pub open spec fn delete_clause_of(x: ast::DeleteClause) -> DeleteClause
    decreases x,
{
    DeleteClause {
        detach: x.detach,
        expressions: exprs_of(x.expressions@),
    }
}

pub open spec fn remove_clause_of(x: ast::RemoveClause) -> RemoveClause
    decreases x,
{
    RemoveClause {
        items: remove_items_of(x.items@),
    }
}

pub open spec fn remove_item_of(x: ast::RemoveItem) -> RemoveItem
    decreases x,
{
    match x {
        ast::RemoveItem::Property { variable, key } => RemoveItem::Property {
            variable: variable@,
            key: key@,
        },
        ast::RemoveItem::Label { variable, labels } => RemoveItem::Label {
            variable: variable@,
            labels: texts(labels@),
        },
    }
}

pub open spec fn call_clause_of(x: ast::CallClause) -> CallClause
    decreases x,
{
    CallClause {
        procedure: x.procedure@,
        args: exprs_of(x.args@),
        yields: texts(x.yields@),
    }
}

pub open spec fn order_by_clause_of(x: ast::OrderByClause) -> OrderByClause
    decreases x,
{
    OrderByClause {
        items: sort_items_of(x.items@),
    }
}

pub open spec fn sort_item_of(x: ast::SortItem) -> SortItem
    decreases x,
{
    SortItem {
        expression: expression_of(x.expression),
        descending: x.descending,
    }
}

pub open spec fn return_items_of(x: ast::ReturnItems) -> ReturnItems
    decreases x,
{
    match x {
        ast::ReturnItems::All => ReturnItems::All,
        ast::ReturnItems::Explicit(a) => ReturnItems::Explicit(items_of(a@)),
    }
}

pub open spec fn return_item_of(x: ast::ReturnItem) -> ReturnItem
    decreases x,
{
    ReturnItem {
        expression: expression_of(x.expression),
        alias: opt_text(x.alias),
    }
}

pub open spec fn pattern_list_of(x: ast::PatternList) -> PatternList
    decreases x,
{
    PatternList(patterns_of(x.0@))
}

pub open spec fn pattern_of(x: ast::Pattern) -> Pattern
    decreases x,
{
    Pattern {
        variable: opt_text(x.variable),
        elements: elements_of(x.elements@),
    }
}

pub open spec fn pattern_element_of(x: ast::PatternElement) -> PatternElement
    decreases x,
{
    match x {
        ast::PatternElement::Node(a) => PatternElement::Node(node_pattern_of(a)),
        ast::PatternElement::Relationship(a) => PatternElement::Relationship(relationship_pattern_of(a)),
    }
}

pub open spec fn node_pattern_of(x: ast::NodePattern) -> NodePattern
    decreases x,
{
    NodePattern {
        variable: opt_text(x.variable),
        labels: texts(x.labels@),
        properties: opt_entries(x.properties),
    }
}

pub open spec fn relationship_pattern_of(x: ast::RelationshipPattern) -> RelationshipPattern
    decreases x,
{
    RelationshipPattern {
        variable: opt_text(x.variable),
        direction: x.direction,
        rel_types: texts(x.rel_types@),
        properties: opt_entries(x.properties),
        range: x.range,
    }
}

pub open spec fn expression_of(x: ast::Expression) -> Expression
    decreases x,
{
    match x {
        ast::Expression::Or(a, b) => Expression::Or(Box::new(expression_of(*a)), Box::new(expression_of(*b))),
        ast::Expression::Xor(a, b) => Expression::Xor(Box::new(expression_of(*a)), Box::new(expression_of(*b))),
        ast::Expression::And(a, b) => Expression::And(Box::new(expression_of(*a)), Box::new(expression_of(*b))),
        ast::Expression::Not(a) => Expression::Not(Box::new(expression_of(*a))),
        ast::Expression::Comparison(a, b, c) => Expression::Comparison(Box::new(expression_of(*a)), b, Box::new(expression_of(*c))),
        ast::Expression::IsNull(a) => Expression::IsNull(Box::new(expression_of(*a))),
        ast::Expression::IsNotNull(a) => Expression::IsNotNull(Box::new(expression_of(*a))),
        ast::Expression::Add(a, b) => Expression::Add(Box::new(expression_of(*a)), Box::new(expression_of(*b))),
        ast::Expression::Subtract(a, b) => Expression::Subtract(Box::new(expression_of(*a)), Box::new(expression_of(*b))),
        ast::Expression::Multiply(a, b) => Expression::Multiply(Box::new(expression_of(*a)), Box::new(expression_of(*b))),
        ast::Expression::Divide(a, b) => Expression::Divide(Box::new(expression_of(*a)), Box::new(expression_of(*b))),
        ast::Expression::Modulo(a, b) => Expression::Modulo(Box::new(expression_of(*a)), Box::new(expression_of(*b))),
        ast::Expression::Negate(a) => Expression::Negate(Box::new(expression_of(*a))),
        ast::Expression::Power(a, b) => Expression::Power(Box::new(expression_of(*a)), Box::new(expression_of(*b))),
        ast::Expression::Property(a, b) => Expression::Property(Box::new(expression_of(*a)), b@),
        ast::Expression::Variable(a) => Expression::Variable(a@),
        ast::Expression::Literal(a) => Expression::Literal(literal_of(a)),
        ast::Expression::List(a) => Expression::List(exprs_of(a@)),
        ast::Expression::MapLit(a) => Expression::MapLit(entries_of(a@)),
        ast::Expression::Aggregate(a) => Expression::Aggregate(aggregate_expr_of(a)),
        ast::Expression::FunctionCall { name, distinct, args } => Expression::FunctionCall {
            name: name@,
            distinct: distinct,
            args: exprs_of(args@),
        },
        ast::Expression::LabelCheck { variable, labels } => Expression::LabelCheck {
            variable: variable@,
            labels: texts(labels@),
        },
        ast::Expression::PatternPredicate(a) => Expression::PatternPredicate(pattern_of(a)),
        ast::Expression::ExistsSubquery { patterns, where_ } => Expression::ExistsSubquery {
            patterns: pattern_list_of(patterns),
            where_: opt_boxed(where_),
        },
        ast::Expression::ExistsFullSubquery { clauses } => Expression::ExistsFullSubquery {
            clauses: clauses_of(clauses@),
        },
        ast::Expression::CaseExpression { operand, whens, else_expr } => Expression::CaseExpression {
            operand: opt_boxed(operand),
            whens: whens_of(whens@),
            else_expr: opt_boxed(else_expr),
        },
        ast::Expression::QuantifierExpr { kind, variable, list, predicate } => Expression::QuantifierExpr {
            kind: kind,
            variable: variable@,
            list: Box::new(expression_of(*list)),
            predicate: opt_boxed(predicate),
        },
        ast::Expression::Subscript(a, b) => Expression::Subscript(Box::new(expression_of(*a)), Box::new(expression_of(*b))),
        ast::Expression::ListSlice { list, start, end } => Expression::ListSlice {
            list: Box::new(expression_of(*list)),
            start: opt_boxed(start),
            end: opt_boxed(end),
        },
        ast::Expression::ListComprehension { variable, list, predicate, projection } => Expression::ListComprehension {
            variable: variable@,
            list: Box::new(expression_of(*list)),
            predicate: opt_boxed(predicate),
            projection: opt_boxed(projection),
        },
        ast::Expression::PatternComprehension { alias, pattern, predicate, projection } => Expression::PatternComprehension {
            alias: opt_text(alias),
            pattern: pattern_of(pattern),
            predicate: opt_boxed(predicate),
            projection: Box::new(expression_of(*projection)),
        },
    }
}

impl View for ast::Expression {
    type V = Expression;

    open spec fn view(&self) -> Expression {
        expression_of(*self)
    }
}

pub open spec fn literal_of(x: ast::Literal) -> Literal
    decreases x,
{
    match x {
        ast::Literal::Integer(a) => Literal::Integer(a),
        ast::Literal::Float(a) => Literal::Float(a@),
        ast::Literal::String(a) => Literal::String(a@),
        ast::Literal::Boolean(a) => Literal::Boolean(a),
        ast::Literal::Null => Literal::Null,
    }
}

pub open spec fn aggregate_expr_of(x: ast::AggregateExpr) -> AggregateExpr
    decreases x,
{
    match x {
        ast::AggregateExpr::Count { distinct, expr } => AggregateExpr::Count {
            distinct: distinct,
            expr: opt_boxed(expr),
        },
        ast::AggregateExpr::Sum { distinct, expr } => AggregateExpr::Sum {
            distinct: distinct,
            expr: Box::new(expression_of(*expr)),
        },
        ast::AggregateExpr::Avg { distinct, expr } => AggregateExpr::Avg {
            distinct: distinct,
            expr: Box::new(expression_of(*expr)),
        },
        ast::AggregateExpr::Min { distinct, expr } => AggregateExpr::Min {
            distinct: distinct,
            expr: Box::new(expression_of(*expr)),
        },
        ast::AggregateExpr::Max { distinct, expr } => AggregateExpr::Max {
            distinct: distinct,
            expr: Box::new(expression_of(*expr)),
        },
        ast::AggregateExpr::Collect { distinct, expr } => AggregateExpr::Collect {
            distinct: distinct,
            expr: Box::new(expression_of(*expr)),
        },
    }
}

pub open spec fn clauses_of(s: Seq<ast::Clause>) -> Seq<Clause>
    decreases s,
{
    if s.len() == 0 {
        seq![]
    } else {
        clauses_of(s.drop_last()).push(clause_of(s.last()))
    }
}

pub open spec fn set_items_of(s: Seq<ast::SetItem>) -> Seq<SetItem>
    decreases s,
{
    if s.len() == 0 {
        seq![]
    } else {
        set_items_of(s.drop_last()).push(set_item_of(s.last()))
    }
}

pub open spec fn exprs_of(s: Seq<ast::Expression>) -> Seq<Expression>
    decreases s,
{
    if s.len() == 0 {
        seq![]
    } else {
        exprs_of(s.drop_last()).push(expression_of(s.last()))
    }
}

pub open spec fn remove_items_of(s: Seq<ast::RemoveItem>) -> Seq<RemoveItem>
    decreases s,
{
    if s.len() == 0 {
        seq![]
    } else {
        remove_items_of(s.drop_last()).push(remove_item_of(s.last()))
    }
}

pub open spec fn sort_items_of(s: Seq<ast::SortItem>) -> Seq<SortItem>
    decreases s,
{
    if s.len() == 0 {
        seq![]
    } else {
        sort_items_of(s.drop_last()).push(sort_item_of(s.last()))
    }
}

pub open spec fn items_of(s: Seq<ast::ReturnItem>) -> Seq<ReturnItem>
    decreases s,
{
    if s.len() == 0 {
        seq![]
    } else {
        items_of(s.drop_last()).push(return_item_of(s.last()))
    }
}

pub open spec fn patterns_of(s: Seq<ast::Pattern>) -> Seq<Pattern>
    decreases s,
{
    if s.len() == 0 {
        seq![]
    } else {
        patterns_of(s.drop_last()).push(pattern_of(s.last()))
    }
}

pub open spec fn elements_of(s: Seq<ast::PatternElement>) -> Seq<PatternElement>
    decreases s,
{
    if s.len() == 0 {
        seq![]
    } else {
        elements_of(s.drop_last()).push(pattern_element_of(s.last()))
    }
}

pub open spec fn merge_actions_of(s: Seq<ast::MergeAction>) -> Seq<MergeAction>
    decreases s,
{
    if s.len() == 0 {
        seq![]
    } else {
        merge_actions_of(s.drop_last()).push(merge_action_of(s.last()))
    }
}

pub open spec fn whens_of(s: Seq<(ast::Expression, ast::Expression)>) -> Seq<(Expression, Expression)>
    decreases s,
{
    if s.len() == 0 {
        seq![]
    } else {
        whens_of(s.drop_last()).push((expression_of(s.last().0), expression_of(s.last().1)))
    }
}

pub open spec fn entries_of(s: Seq<(String, ast::Expression)>) -> Seq<(Seq<char>, Expression)>
    decreases s,
{
    if s.len() == 0 {
        seq![]
    } else {
        entries_of(s.drop_last()).push((s.last().0@, expression_of(s.last().1)))
    }
}

pub open spec fn opt_text(o: Option<String>) -> Option<Seq<char>> {
    match o {
        Some(t) => Some(t@),
        None => None,
    }
}

pub open spec fn opt_entries(o: Option<Vec<(String, ast::Expression)>>) -> Option<
    Seq<(Seq<char>, Expression)>,
>
    decreases o,
{
    match o {
        Some(v) => Some(entries_of(v@)),
        None => None,
    }
}

pub open spec fn opt_boxed(o: Option<Box<ast::Expression>>) -> Option<Box<Expression>>
    decreases o,
{
    match o {
        Some(e) => Some(Box::new(expression_of(*e))),
        None => None,
    }
}

pub open spec fn opt_expr(o: Option<ast::Expression>) -> Option<Expression>
    decreases o,
{
    match o {
        Some(e) => Some(expression_of(e)),
        None => None,
    }
}

pub open spec fn opt_where(o: Option<ast::WhereClause>) -> Option<WhereClause>
    decreases o,
{
    match o {
        Some(w) => Some(where_clause_of(w)),
        None => None,
    }
}

pub open spec fn opt_order_by(o: Option<ast::OrderByClause>) -> Option<OrderByClause>
    decreases o,
{
    match o {
        Some(w) => Some(order_by_clause_of(w)),
        None => None,
    }
}

pub proof fn lemma_push_clauses_of(s: Seq<ast::Clause>, x: ast::Clause)
    ensures
        clauses_of(s.push(x)) == clauses_of(s).push(clause_of(x)),
{
    assert(s.push(x).drop_last() =~= s);
}

pub proof fn lemma_push_set_items_of(s: Seq<ast::SetItem>, x: ast::SetItem)
    ensures
        set_items_of(s.push(x)) == set_items_of(s).push(set_item_of(x)),
{
    assert(s.push(x).drop_last() =~= s);
}

pub proof fn lemma_push_exprs_of(s: Seq<ast::Expression>, x: ast::Expression)
    ensures
        exprs_of(s.push(x)) == exprs_of(s).push(expression_of(x)),
{
    assert(s.push(x).drop_last() =~= s);
}

pub proof fn lemma_push_remove_items_of(s: Seq<ast::RemoveItem>, x: ast::RemoveItem)
    ensures
        remove_items_of(s.push(x)) == remove_items_of(s).push(remove_item_of(x)),
{
    assert(s.push(x).drop_last() =~= s);
}

pub proof fn lemma_push_sort_items_of(s: Seq<ast::SortItem>, x: ast::SortItem)
    ensures
        sort_items_of(s.push(x)) == sort_items_of(s).push(sort_item_of(x)),
{
    assert(s.push(x).drop_last() =~= s);
}

pub proof fn lemma_push_items_of(s: Seq<ast::ReturnItem>, x: ast::ReturnItem)
    ensures
        items_of(s.push(x)) == items_of(s).push(return_item_of(x)),
{
    assert(s.push(x).drop_last() =~= s);
}

pub proof fn lemma_push_patterns_of(s: Seq<ast::Pattern>, x: ast::Pattern)
    ensures
        patterns_of(s.push(x)) == patterns_of(s).push(pattern_of(x)),
{
    assert(s.push(x).drop_last() =~= s);
}

pub proof fn lemma_push_elements_of(s: Seq<ast::PatternElement>, x: ast::PatternElement)
    ensures
        elements_of(s.push(x)) == elements_of(s).push(pattern_element_of(x)),
{
    assert(s.push(x).drop_last() =~= s);
}

pub proof fn lemma_push_merge_actions_of(s: Seq<ast::MergeAction>, x: ast::MergeAction)
    ensures
        merge_actions_of(s.push(x)) == merge_actions_of(s).push(merge_action_of(x)),
{
    assert(s.push(x).drop_last() =~= s);
}

pub proof fn lemma_push_whens_of(s: Seq<(ast::Expression, ast::Expression)>, x: (ast::Expression, ast::Expression))
    ensures
        whens_of(s.push(x)) == whens_of(s).push((expression_of(x.0), expression_of(x.1))),
{
    assert(s.push(x).drop_last() =~= s);
}

pub proof fn lemma_push_entries_of(s: Seq<(String, ast::Expression)>, x: (String, ast::Expression))
    ensures
        entries_of(s.push(x)) == entries_of(s).push((x.0@, expression_of(x.1))),
{
    assert(s.push(x).drop_last() =~= s);
}

/// The model of a list of expressions, item by item.
pub proof fn lemma_exprs_of(s: Seq<ast::Expression>)
    ensures
        exprs_of(s).len() == s.len(),
        forall|i: int| 0 <= i < s.len() ==> #[trigger] exprs_of(s)[i] == expression_of(s[i]),
    decreases s.len(),
{
    if s.len() > 0 {
        lemma_exprs_of(s.drop_last());
    }
}

pub proof fn lemma_clauses_of(s: Seq<ast::Clause>)
    ensures
        clauses_of(s).len() == s.len(),
        forall|i: int| 0 <= i < s.len() ==> #[trigger] clauses_of(s)[i] == clause_of(s[i]),
    decreases s.len(),
{
    if s.len() > 0 {
        lemma_clauses_of(s.drop_last());
    }
}

pub proof fn lemma_sort_items_of(s: Seq<ast::SortItem>)
    ensures
        sort_items_of(s).len() == s.len(),
        forall|i: int| 0 <= i < s.len() ==> #[trigger] sort_items_of(s)[i] == sort_item_of(s[i]),
    decreases s.len(),
{
    if s.len() > 0 {
        lemma_sort_items_of(s.drop_last());
    }
}

pub proof fn lemma_whens_of(s: Seq<(ast::Expression, ast::Expression)>)
    ensures
        whens_of(s).len() == s.len(),
        forall|i: int|
            0 <= i < s.len() ==> #[trigger] whens_of(s)[i] == (
                expression_of(s[i].0),
                expression_of(s[i].1),
            ),
    decreases s.len(),
{
    if s.len() > 0 {
        lemma_whens_of(s.drop_last());
    }
}

pub proof fn lemma_patterns_of(s: Seq<ast::Pattern>)
    ensures
        patterns_of(s).len() == s.len(),
        forall|i: int| 0 <= i < s.len() ==> #[trigger] patterns_of(s)[i] == pattern_of(s[i]),
    decreases s.len(),
{
    if s.len() > 0 {
        lemma_patterns_of(s.drop_last());
    }
}

pub proof fn lemma_elements_of(s: Seq<ast::PatternElement>)
    ensures
        elements_of(s).len() == s.len(),
        forall|i: int|
            0 <= i < s.len() ==> #[trigger] elements_of(s)[i] == pattern_element_of(s[i]),
    decreases s.len(),
{
    if s.len() > 0 {
        lemma_elements_of(s.drop_last());
    }
}

pub proof fn lemma_add_exprs_of(s: Seq<ast::Expression>, t: Seq<ast::Expression>)
    ensures
        exprs_of(s + t) == exprs_of(s) + exprs_of(t),
{
    lemma_exprs_of(s);
    lemma_exprs_of(t);
    lemma_exprs_of(s + t);
    assert(exprs_of(s + t) =~= exprs_of(s) + exprs_of(t));
}

/// An entry of a map is the model of the entry at its place.
pub proof fn lemma_entries_of(s: Seq<(String, ast::Expression)>)
    ensures
        entries_of(s).len() == s.len(),
        forall|i: int|
            0 <= i < s.len() ==> #[trigger] entries_of(s)[i] == (s[i].0@, expression_of(s[i].1)),
    decreases s.len(),
{
    if s.len() > 0 {
        lemma_entries_of(s.drop_last());
    }
}

pub proof fn lemma_add_elements_of(s: Seq<ast::PatternElement>, t: Seq<ast::PatternElement>)
    ensures
        elements_of(s + t) == elements_of(s) + elements_of(t),
    decreases t.len(),
{
    if t.len() == 0 {
        assert(s + t =~= s);
        assert(elements_of(s) + elements_of(t) =~= elements_of(s));
    } else {
        lemma_add_elements_of(s, t.drop_last());
        assert((s + t).drop_last() =~= s + t.drop_last());
        assert(elements_of(s + t) =~= elements_of(s) + elements_of(t));
    }
}

pub proof fn lemma_add_clauses_of(s: Seq<ast::Clause>, t: Seq<ast::Clause>)
    ensures
        clauses_of(s + t) == clauses_of(s) + clauses_of(t),
    decreases t.len(),
{
    if t.len() == 0 {
        assert(s + t =~= s);
        assert(clauses_of(s) + clauses_of(t) =~= clauses_of(s));
    } else {
        lemma_add_clauses_of(s, t.drop_last());
        assert((s + t).drop_last() =~= s + t.drop_last());
        assert(clauses_of(s + t) =~= clauses_of(s) + clauses_of(t));
    }
}

} // verus!
