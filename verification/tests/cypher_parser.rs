//! The Cypher parser.
use polygraph::ast::cypher::{
    Clause, CompOp, CypherQuery, Direction, Expression, Literal, PatternElement, ReturnItems,
};
use polygraph::parser::cypher::parse;
use polygraph::parser::error::ParseError;

fn parse_ok(q: &str) -> CypherQuery {
    parse(q).unwrap_or_else(|e| panic!("parse failed for {q:?}: {}", e.text()))
}

// --- Round-trip tests -------------------------------------------------------

#[test]
fn match_return_node() {
    let q = parse_ok("MATCH (n) RETURN n");
    assert_eq!(q.clauses.len(), 2);
    assert!(matches!(q.clauses[0], Clause::Match(_)));
    assert!(matches!(q.clauses[1], Clause::Return(_)));
}

#[test]
fn match_node_with_label() {
    let q = parse_ok("MATCH (n:Person) RETURN n");
    if let Clause::Match(m) = &q.clauses[0] {
        let pat = &m.pattern.0[0];
        if let PatternElement::Node(node) = &pat.elements[0] {
            assert_eq!(node.labels, vec!["Person"]);
        } else {
            panic!("expected node");
        }
    } else {
        panic!("expected match");
    }
}

#[test]
fn match_node_with_multiple_labels() {
    let q = parse_ok("MATCH (n:Person:Employee) RETURN n");
    if let Clause::Match(m) = &q.clauses[0] {
        let pat = &m.pattern.0[0];
        if let PatternElement::Node(node) = &pat.elements[0] {
            assert_eq!(node.labels, vec!["Person", "Employee"]);
        } else {
            panic!("expected node");
        }
    } else {
        panic!("expected match");
    }
}

#[test]
fn match_node_with_property() {
    let q = parse_ok("MATCH (n:Person {name: 'Alice'}) RETURN n");
    if let Clause::Match(m) = &q.clauses[0] {
        let pat = &m.pattern.0[0];
        if let PatternElement::Node(node) = &pat.elements[0] {
            let props = node.properties.as_ref().unwrap();
            assert_eq!(props[0].0, "name");
            assert_eq!(
                props[0].1,
                Expression::Literal(Literal::String("Alice".to_string()))
            );
        } else {
            panic!("expected node");
        }
    }
}

#[test]
fn match_relationship_right() {
    let q = parse_ok("MATCH (a)-[:KNOWS]->(b) RETURN a, b");
    if let Clause::Match(m) = &q.clauses[0] {
        let pat = &m.pattern.0[0];
        assert_eq!(pat.elements.len(), 3);
        if let PatternElement::Relationship(r) = &pat.elements[1] {
            assert_eq!(r.direction, Direction::Right);
            assert_eq!(r.rel_types, vec!["KNOWS"]);
        } else {
            panic!("expected relationship");
        }
    }
}

#[test]
fn match_relationship_left() {
    let q = parse_ok("MATCH (a)<-[:KNOWS]-(b) RETURN a");
    if let Clause::Match(m) = &q.clauses[0] {
        let pat = &m.pattern.0[0];
        if let PatternElement::Relationship(r) = &pat.elements[1] {
            assert_eq!(r.direction, Direction::Left);
        } else {
            panic!("expected relationship");
        }
    }
}

#[test]
fn match_relationship_undirected() {
    let q = parse_ok("MATCH (a)-[:KNOWS]-(b) RETURN a");
    if let Clause::Match(m) = &q.clauses[0] {
        let pat = &m.pattern.0[0];
        if let PatternElement::Relationship(r) = &pat.elements[1] {
            assert_eq!(r.direction, Direction::Both);
        } else {
            panic!("expected relationship");
        }
    }
}

#[test]
fn cypher_optional_match() {
    let q = parse_ok("OPTIONAL MATCH (n:Person) RETURN n");
    if let Clause::Match(m) = &q.clauses[0] {
        assert!(m.optional);
    } else {
        panic!("expected match");
    }
}

#[test]
fn match_where_return() {
    let q = parse_ok("MATCH (n:Person) WHERE n.age > 30 RETURN n.name");
    assert_eq!(q.clauses.len(), 2);
    if let Clause::Match(m) = &q.clauses[0] {
        assert!(m.where_.is_some());
    }
}

#[test]
fn cypher_return_distinct() {
    let q = parse_ok("MATCH (n) RETURN DISTINCT n.name");
    if let Clause::Return(r) = &q.clauses[1] {
        assert!(r.distinct);
    }
}

#[test]
fn return_star() {
    let q = parse_ok("MATCH (n) RETURN *");
    if let Clause::Return(r) = &q.clauses[1] {
        assert!(matches!(r.items, ReturnItems::All));
    }
}

#[test]
fn cypher_return_with_alias() {
    let q = parse_ok("MATCH (n) RETURN n.name AS name");
    if let Clause::Return(r) = &q.clauses[1] {
        if let ReturnItems::Explicit(items) = &r.items {
            assert_eq!(items[0].alias.as_deref(), Some("name"));
        }
    }
}

#[test]
fn with_clause() {
    let q = parse_ok("MATCH (n:Person) WITH n WHERE n.age > 18 RETURN n");
    assert_eq!(q.clauses.len(), 3);
    assert!(matches!(q.clauses[1], Clause::With(_)));
    if let Clause::With(w) = &q.clauses[1] {
        assert!(w.where_.is_some());
    }
}

#[test]
fn multi_hop_path() {
    let q = parse_ok("MATCH (a)-[:KNOWS]->(b)-[:KNOWS]->(c) RETURN a, c");
    if let Clause::Match(m) = &q.clauses[0] {
        let pat = &m.pattern.0[0];
        assert_eq!(pat.elements.len(), 5); // node, rel, node, rel, node
    }
}

#[test]
fn return_multiple_items() {
    let q = parse_ok("MATCH (n) RETURN n.name, n.age");
    if let Clause::Return(r) = &q.clauses[1] {
        if let ReturnItems::Explicit(items) = &r.items {
            assert_eq!(items.len(), 2);
        }
    }
}

#[test]
fn expression_and_or() {
    let q = parse_ok("MATCH (n) WHERE n.age > 18 AND n.active = true RETURN n");
    if let Clause::Match(m) = &q.clauses[0] {
        let expr = &m.where_.as_ref().unwrap().expression;
        assert!(matches!(expr, Expression::And(_, _)));
    }
}

#[test]
fn expression_not() {
    let q = parse_ok("MATCH (n) WHERE NOT n.deleted RETURN n");
    if let Clause::Match(m) = &q.clauses[0] {
        let expr = &m.where_.as_ref().unwrap().expression;
        assert!(matches!(expr, Expression::Not(_)));
    }
}

#[test]
fn expression_is_null() {
    let q = parse_ok("MATCH (n) WHERE n.name IS NULL RETURN n");
    if let Clause::Match(m) = &q.clauses[0] {
        let expr = &m.where_.as_ref().unwrap().expression;
        assert!(matches!(expr, Expression::IsNull(_)));
    }
}

#[test]
fn expression_is_not_null() {
    let q = parse_ok("MATCH (n) WHERE n.name IS NOT NULL RETURN n");
    if let Clause::Match(m) = &q.clauses[0] {
        let expr = &m.where_.as_ref().unwrap().expression;
        assert!(matches!(expr, Expression::IsNotNull(_)));
    }
}

#[test]
fn case_insensitive_keywords() {
    let q = parse_ok("match (n:Person) where n.age > 30 return n");
    assert_eq!(q.clauses.len(), 2);
}

#[test]
fn mixed_case_keywords() {
    let q = parse_ok("Match (n) Return n.name As name");
    assert_eq!(q.clauses.len(), 2);
}

#[test]
fn string_literal_double_quoted() {
    let q = parse_ok(r#"MATCH (n {name: "Alice"}) RETURN n"#);
    if let Clause::Match(m) = &q.clauses[0] {
        let pat = &m.pattern.0[0];
        if let PatternElement::Node(node) = &pat.elements[0] {
            let props = node.properties.as_ref().unwrap();
            assert_eq!(
                props[0].1,
                Expression::Literal(Literal::String("Alice".to_string()))
            );
        }
    }
}

#[test]
fn integer_literal_in_expression() {
    let q = parse_ok("MATCH (n) WHERE n.age = 42 RETURN n");
    if let Clause::Match(m) = &q.clauses[0] {
        if let Expression::Comparison(_, CompOp::Eq, rhs) =
            &m.where_.as_ref().unwrap().expression
        {
            assert_eq!(**rhs, Expression::Literal(Literal::Integer(42)));
        }
    }
}

#[test]
fn relationship_variable() {
    let q = parse_ok("MATCH (a)-[r:KNOWS]->(b) RETURN r");
    if let Clause::Match(m) = &q.clauses[0] {
        let pat = &m.pattern.0[0];
        if let PatternElement::Relationship(r) = &pat.elements[1] {
            assert_eq!(r.variable.as_deref(), Some("r"));
        }
    }
}

#[test]
fn cypher_parse_error_returns_err() {
    assert!(parse("NOT VALID CYPHER %%%").is_err());
}

#[test]
fn empty_input_returns_err() {
    assert!(parse("").is_err());
}

#[test]
fn reserved_words_are_no_variables() {
    assert!(parse("MATCH (n) RETURN where").is_err());
    assert!(parse("RETURN when + 1").is_err());
    let q = parse_ok("RETURN whenever + 1");
    assert_eq!(q.clauses.len(), 1);
    let q = parse_ok("RETURN CASE WHEN a THEN b ELSE c END");
    if let Clause::Return(r) = &q.clauses[0] {
        if let ReturnItems::Explicit(items) = &r.items {
            match &items[0].expression {
                Expression::CaseExpression { operand, .. } => assert!(operand.is_none()),
                other => panic!("{other:?}"),
            }
        }
    }
}

#[test]
fn positions_of_errors_are_bytes() {
    match parse("RETURN 'é' %%%") {
        Err(ParseError::Syntax { span, .. }) => assert_eq!(span, "pos:13"),
        other => panic!("{other:?}"),
    }
    match parse("RETURN 'e' %%%") {
        Err(ParseError::Syntax { span, .. }) => assert_eq!(span, "pos:12"),
        other => panic!("{other:?}"),
    }
}

#[test]
fn brackets_nest_deeply() {
    let q = format!("RETURN {}1{}", "(".repeat(100), ")".repeat(100));
    assert_eq!(parse_ok(&q), parse_ok("RETURN 1"));
}

#[test]
fn case_of_keywords_does_not_matter() {
    let upper = "MATCH (n:Person)-[r:KNOWS*1..2]->(m) WHERE n.Name STARTS WITH 'A' AND NOT m.x IS NULL \
                 RETURN DISTINCT CASE WHEN n.a > 1.5E2 THEN TRUE ELSE NULL END AS Q ORDER BY Q DESC";
    let lower = "match (n:Person)-[r:KNOWS*1..2]->(m) where n.Name starts with 'A' and not m.x is null \
                 return distinct case when n.a > 1.5E2 then true else null end as Q order by Q desc";
    assert_eq!(parse_ok(upper), parse_ok(lower));
    assert_ne!(parse_ok("RETURN n"), parse_ok("RETURN N"));
}

#[test]
fn slices_are_told_by_their_dots() {
    for (text, from, to) in [("[1..2]", true, true), ("[1..]", true, false), ("[..2]", false, true)] {
        let q = parse_ok(&format!("RETURN a + b, l{text}"));
        match &q.clauses[0] {
            Clause::Return(r) => match &r.items {
                ReturnItems::Explicit(items) => match &items[1].expression {
                    Expression::ListSlice { start, end, .. } => {
                        assert_eq!(start.is_some(), from, "{text}");
                        assert_eq!(end.is_some(), to, "{text}");
                    }
                    other => panic!("{other:?}"),
                },
                other => panic!("{other:?}"),
            },
            other => panic!("{other:?}"),
        }
    }
}

#[test]
fn elements_of_paths_take_turns() {
    for q in ["MATCH (a)-[r]->(b)<--(c) RETURN a", "MATCH (((a)-[r]->(b)<--(c))) RETURN a"] {
        match &parse_ok(q).clauses[0] {
            Clause::Match(m) => {
                let e = &m.pattern.0[0].elements;
                assert_eq!(e.len(), 5);
                for (i, x) in e.iter().enumerate() {
                    assert_eq!(matches!(x, PatternElement::Node(_)), i % 2 == 0);
                }
            }
            other => panic!("{other:?}"),
        }
    }
}
