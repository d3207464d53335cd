//! The GQL parser.
use polygraph::ast::cypher::{
    AggregateExpr, Clause, CompOp, Direction, Expression, PatternElement, ReturnItems, WithClause,
};
use polygraph::ast::gql::GqlQuery;
use polygraph::parser::gql::parse;

fn parse_ok(q: &str) -> GqlQuery {
    parse(q).unwrap_or_else(|e| panic!("GQL parse failed for {q:?}: {}", e.text()))
}

// ── Basic MATCH RETURN ────────────────────────────────────────────────────

#[test]
fn simple_match_return() {
    let q = parse_ok("MATCH (n) RETURN n");
    assert_eq!(q.clauses.len(), 2);
    assert!(matches!(q.clauses[0], Clause::Match(_)));
    assert!(matches!(q.clauses[1], Clause::Return(_)));
}

#[test]
fn match_colon_label() {
    let q = parse_ok("MATCH (n:Person) RETURN n");
    if let Clause::Match(m) = &q.clauses[0] {
        if let PatternElement::Node(node) = &m.pattern.0[0].elements[0] {
            assert_eq!(node.labels, vec!["Person"]);
        } else {
            panic!("expected node");
        }
    }
}

#[test]
fn match_is_label() {
    // GQL: IS Label notation
    let q = parse_ok("MATCH (n IS Person) RETURN n");
    if let Clause::Match(m) = &q.clauses[0] {
        if let PatternElement::Node(node) = &m.pattern.0[0].elements[0] {
            assert_eq!(
                node.labels,
                vec!["Person"],
                "IS label should lower to colon label"
            );
        } else {
            panic!("expected node");
        }
    }
}

#[test]
fn match_is_multiple_labels_ampersand() {
    // IS Person & Employee
    let q = parse_ok("MATCH (n IS Person & Employee) RETURN n");
    if let Clause::Match(m) = &q.clauses[0] {
        if let PatternElement::Node(node) = &m.pattern.0[0].elements[0] {
            assert_eq!(node.labels, vec!["Person", "Employee"]);
        } else {
            panic!("expected node");
        }
    }
}

#[test]
fn filter_clause_lowered_to_with_where() {
    // Standalone FILTER → WithClause with WHERE
    let q = parse_ok("MATCH (n:Person) FILTER n.age > 30 RETURN n");
    assert!(matches!(q.clauses[1], Clause::With(_)));
    if let Clause::With(w) = &q.clauses[1] {
        assert!(w.where_.is_some());
    }
}

#[test]
fn where_in_match_clause() {
    let q = parse_ok("MATCH (n:Person) WHERE n.age > 30 RETURN n");
    if let Clause::Match(m) = &q.clauses[0] {
        assert!(m.where_.is_some());
    }
}

#[test]
fn next_clause_lowered_to_with() {
    let q = parse_ok("MATCH (n:Person) RETURN n NEXT MATCH (m:Movie) RETURN m");
    // NEXT becomes a WithClause
    assert!(q.clauses.iter().any(|c| matches!(c, Clause::With(_))));
}

#[test]
fn rel_pattern_colon_type() {
    let q = parse_ok("MATCH (a:Person)-[r:KNOWS]->(b:Person) RETURN a, b");
    if let Clause::Match(m) = &q.clauses[0] {
        if let PatternElement::Relationship(rel) = &m.pattern.0[0].elements[1] {
            assert_eq!(rel.rel_types, vec!["KNOWS"]);
            assert_eq!(rel.direction, Direction::Right);
        } else {
            panic!("expected relationship");
        }
    }
}

#[test]
fn rel_pattern_is_type() {
    let q = parse_ok("MATCH (a)-[r IS KNOWS]->(b) RETURN a");
    if let Clause::Match(m) = &q.clauses[0] {
        if let PatternElement::Relationship(rel) = &m.pattern.0[0].elements[1] {
            assert_eq!(
                rel.rel_types,
                vec!["KNOWS"],
                "IS type should lower to colon type"
            );
        } else {
            panic!("expected relationship");
        }
    }
}

#[test]
fn gql_return_distinct() {
    let q = parse_ok("MATCH (n:Person) RETURN DISTINCT n");
    if let Clause::Return(r) = q.clauses.last().unwrap() {
        assert!(r.distinct);
    }
}

#[test]
fn gql_return_with_alias() {
    let q = parse_ok("MATCH (n:Person) RETURN n.name AS name");
    if let Clause::Return(r) = q.clauses.last().unwrap() {
        if let ReturnItems::Explicit(items) = &r.items {
            assert_eq!(items[0].alias.as_deref(), Some("name"));
        }
    }
}

#[test]
fn gql_optional_match() {
    let q = parse_ok("MATCH (n:Person) OPTIONAL MATCH (n)-[:KNOWS]->(m) RETURN n, m");
    assert!(matches!(q.clauses[0], Clause::Match(ref m) if !m.optional));
    assert!(matches!(q.clauses[1], Clause::Match(ref m) if m.optional));
}

#[test]
fn return_order_by_limit() {
    let q = parse_ok("MATCH (n:Person) RETURN n ORDER BY n.name LIMIT 10");
    if let Clause::Return(r) = q.clauses.last().unwrap() {
        assert!(r.order_by.is_some());
        assert!(r.limit.is_some());
    }
}

#[test]
fn count_star_aggregate() {
    let q = parse_ok("MATCH (n:Person) RETURN count(*) AS total");
    if let Clause::Return(r) = q.clauses.last().unwrap() {
        if let ReturnItems::Explicit(items) = &r.items {
            assert!(matches!(
                &items[0].expression,
                Expression::Aggregate(AggregateExpr::Count { expr: None, .. })
            ));
        }
    }
}

#[test]
fn property_access_in_where() {
    let q = parse_ok("MATCH (n:Person) WHERE n.age > 30 RETURN n");
    if let Clause::Match(m) = &q.clauses[0] {
        let expr = &m.where_.as_ref().unwrap().expression;
        assert!(matches!(expr, Expression::Comparison(_, CompOp::Gt, _)));
    }
}

#[test]
fn multi_hop_relationship() {
    let q = parse_ok("MATCH (a:Person)-[:KNOWS]->(b:Person)-[:KNOWS]->(c:Person) RETURN a, c");
    if let Clause::Match(m) = &q.clauses[0] {
        assert_eq!(m.pattern.0[0].elements.len(), 5);
    }
}

#[test]
fn variable_length_path_star() {
    let q = parse_ok("MATCH (a)-[:KNOWS*]->(b) RETURN a, b");
    if let Clause::Match(m) = &q.clauses[0] {
        if let PatternElement::Relationship(rel) = &m.pattern.0[0].elements[1] {
            let rq = rel.range.as_ref().expect("should have range");
            assert!(rq.lower.is_none() && rq.upper.is_none());
        }
    }
}

#[test]
fn gql_parse_error_returns_err() {
    let result = parse("MATCH RETURN");
    assert!(result.is_err());
}

#[test]
fn is_and_colon_are_the_same() {
    let colon = parse_ok("MATCH (n:A:B)-[r:T]->(m) RETURN n");
    let is = parse_ok("MATCH (n IS A & B)-[r IS T]->(m) RETURN n");
    assert_eq!(colon, is);
}
