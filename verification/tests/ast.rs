//! The abstract syntax.
use polygraph::ast::cypher::{
    AggregateExpr, CallClause, Clause, CompOp, CreateClause, CypherQuery, DeleteClause, Direction,
    Expression, Literal, MatchClause, NodePattern, OrderByClause, Pattern, PatternElement,
    PatternList, RangeQuantifier, RelationshipPattern, RemoveClause, RemoveItem, ReturnClause,
    ReturnItem, ReturnItems, SetItem, SortItem, UnwindClause, WhereClause, WithClause,
};
use polygraph::ast::gql::GqlQuery;
use polygraph::number::Float;

#[test]
fn cypher_query_holds_clauses() {
    let q = CypherQuery { clauses: vec![] };
    assert!(q.clauses.is_empty());
}

#[test]
fn match_clause_optional_flag() {
    let m = MatchClause {
        optional: true,
        pattern: PatternList(vec![]),
        where_: None,
    };
    assert!(m.optional);
    assert!(m.where_.is_none());
}

#[test]
fn match_clause_non_optional() {
    let m = MatchClause {
        optional: false,
        pattern: PatternList(vec![]),
        where_: None,
    };
    assert!(!m.optional);
}

#[test]
fn node_pattern_fields() {
    let n = NodePattern {
        variable: Some("n".to_string()),
        labels: vec!["Person".to_string()],
        properties: None,
    };
    assert_eq!(n.variable.as_deref(), Some("n"));
    assert_eq!(n.labels, vec!["Person"]);
}

#[test]
fn node_pattern_with_properties() {
    let props = vec![("age".to_string(), Expression::Literal(Literal::Integer(30)))];
    let n = NodePattern {
        variable: Some("n".to_string()),
        labels: vec![],
        properties: Some(props),
    };
    assert!(n.properties.is_some());
}

#[test]
fn relationship_pattern_directions() {
    for dir in [Direction::Right, Direction::Left, Direction::Both] {
        let r = RelationshipPattern {
            variable: None,
            direction: dir.clone(),
            rel_types: vec![],
            properties: None,
            range: None,
        };
        assert_eq!(r.direction, dir);
    }
}

#[test]
fn relationship_pattern_with_type_and_range() {
    let r = RelationshipPattern {
        variable: Some("r".to_string()),
        direction: Direction::Right,
        rel_types: vec!["KNOWS".to_string()],
        properties: None,
        range: Some(RangeQuantifier {
            lower: Some(1),
            upper: Some(3),
        }),
    };
    assert_eq!(r.rel_types, vec!["KNOWS"]);
    assert_eq!(r.range.as_ref().unwrap().lower, Some(1));
    assert_eq!(r.range.as_ref().unwrap().upper, Some(3));
}

#[test]
fn return_items_all_variant() {
    let ri = ReturnItems::All;
    assert!(matches!(ri, ReturnItems::All));
}

#[test]
fn return_item_with_alias() {
    let item = ReturnItem {
        expression: Expression::Variable("n".to_string()),
        alias: Some("node".to_string()),
    };
    assert_eq!(item.alias.as_deref(), Some("node"));
}

#[test]
fn where_clause_holds_expression() {
    let wc = WhereClause {
        expression: Expression::Literal(Literal::Boolean(true)),
    };
    assert_eq!(wc.expression, Expression::Literal(Literal::Boolean(true)));
}

#[test]
fn with_clause_fields() {
    let wc = WithClause {
        distinct: false,
        items: ReturnItems::All,
        where_: None,
        order_by: None,
        skip: None,
        limit: None,
    };
    assert!(!wc.distinct);
    assert!(wc.where_.is_none());
}

#[test]
fn expression_literal_variants() {
    let _ = Expression::Literal(Literal::Integer(42));
    let _ = Expression::Literal(Literal::Float(Float { text: std::f64::consts::PI.to_string() }));
    let _ = Expression::Literal(Literal::String("hello".into()));
    let _ = Expression::Literal(Literal::Boolean(false));
    let _ = Expression::Literal(Literal::Null);
}

#[test]
fn expression_comparison() {
    let lhs = Box::new(Expression::Variable("a".to_string()));
    let rhs = Box::new(Expression::Literal(Literal::Integer(5)));
    let expr = Expression::Comparison(lhs, CompOp::Gt, rhs);
    assert!(matches!(expr, Expression::Comparison(_, CompOp::Gt, _)));
}

#[test]
fn expression_property_access() {
    let base = Box::new(Expression::Variable("n".to_string()));
    let expr = Expression::Property(base, "name".to_string());
    assert!(matches!(expr, Expression::Property(_, _)));
}

#[test]
fn range_quantifier_unbounded_upper() {
    let rq = RangeQuantifier {
        lower: Some(1),
        upper: None,
    };
    assert_eq!(rq.lower, Some(1));
    assert!(rq.upper.is_none());
}

// ── Phase 4 AST tests ──────────────────────────────────────────────────

#[test]
fn return_clause_with_order_limit() {
    let r = ReturnClause {
        distinct: false,
        items: ReturnItems::All,
        order_by: Some(OrderByClause {
            items: vec![SortItem {
                expression: Expression::Variable("n".to_string()),
                descending: true,
            }],
        }),
        skip: Some(Expression::Literal(Literal::Integer(10))),
        limit: Some(Expression::Literal(Literal::Integer(5))),
    };
    assert!(r.order_by.is_some());
    assert!(r.skip.is_some());
    assert!(r.limit.is_some());
}

#[test]
fn unwind_clause_fields() {
    let u = UnwindClause {
        expression: Expression::Variable("list".to_string()),
        variable: "item".to_string(),
    };
    assert_eq!(u.variable, "item");
}

#[test]
fn create_clause_holds_pattern_list() {
    let c = CreateClause {
        pattern: PatternList(vec![]),
    };
    assert!(c.pattern.0.is_empty());
}

#[test]
fn set_item_property_variant() {
    let s = SetItem::Property {
        variable: "n".to_string(),
        key: "name".to_string(),
        value: Expression::Literal(Literal::String("Alice".to_string())),
    };
    assert!(matches!(s, SetItem::Property { .. }));
}

#[test]
fn delete_clause_detach_flag() {
    let d = DeleteClause {
        detach: true,
        expressions: vec![Expression::Variable("n".to_string())],
    };
    assert!(d.detach);
    assert_eq!(d.expressions.len(), 1);
}

#[test]
fn remove_clause_property_item() {
    let r = RemoveClause {
        items: vec![RemoveItem::Property {
            variable: "n".to_string(),
            key: "age".to_string(),
        }],
    };
    assert_eq!(r.items.len(), 1);
}

#[test]
fn call_clause_fields() {
    let c = CallClause {
        procedure: "apoc.path.expand".to_string(),
        args: vec![],
        yields: vec!["node".to_string()],
    };
    assert_eq!(c.procedure, "apoc.path.expand");
    assert_eq!(c.yields.len(), 1);
}

#[test]
fn aggregate_count_star() {
    let a = AggregateExpr::Count {
        distinct: false,
        expr: None,
    };
    assert!(matches!(a, AggregateExpr::Count { expr: None, .. }));
}

#[test]
fn aggregate_sum_distinct() {
    let a = AggregateExpr::Sum {
        distinct: true,
        expr: Box::new(Expression::Variable("n".to_string())),
    };
    assert!(matches!(a, AggregateExpr::Sum { distinct: true, .. }));
}

#[test]
fn aggregate_collect() {
    let a = AggregateExpr::Collect {
        distinct: false,
        expr: Box::new(Expression::Variable("n".to_string())),
    };
    assert!(matches!(a, AggregateExpr::Collect { .. }));
}

#[test]
fn pattern_elements_roundtrip() {
    let pattern = Pattern {
        variable: None,
        elements: vec![
            PatternElement::Node(NodePattern {
                variable: Some("a".to_string()),
                labels: vec!["Person".to_string()],
                properties: None,
            }),
            PatternElement::Relationship(RelationshipPattern {
                variable: None,
                direction: Direction::Right,
                rel_types: vec!["KNOWS".to_string()],
                properties: None,
                range: None,
            }),
            PatternElement::Node(NodePattern {
                variable: Some("b".to_string()),
                labels: vec!["Person".to_string()],
                properties: None,
            }),
        ],
    };
    assert_eq!(pattern.elements.len(), 3);
}

#[test]
fn gql_query_holds_clauses() {
    let q = GqlQuery { clauses: vec![] };
    assert!(q.clauses.is_empty());
}

#[test]
fn gql_query_with_match_clause() {
    let m = MatchClause {
        optional: false,
        pattern: PatternList(vec![]),
        where_: None,
    };
    let q = GqlQuery {
        clauses: vec![Clause::Match(m)],
    };
    assert_eq!(q.clauses.len(), 1);
    assert!(matches!(q.clauses[0], Clause::Match(_)));
}
