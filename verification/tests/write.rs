//! The compiler of queries that write.
use polygraph::error::PolygraphError;
use polygraph::lqa::expr::{Expr, Literal};
use polygraph::lqa::op::{
    CreateEdge, CreateNode, Direction, MergeClause, Op, ProjItem, RemoveItem, SetItem,
};
use polygraph::lqa::write::compile_write;
use polygraph::lqa::write::create::compile_create;
use polygraph::lqa::write::literals::lqa_write_serialize_literal;
use polygraph::lqa::write::merge::compile_merge_node_scan;
use polygraph::lqa::write::tree::{
    contains_write, is_top_level_return, op_contains_create, read_context, strip_writes,
    strip_writes_with_bnodes,
};
use polygraph::lqa::write::where_parts::is_scalar_bind_clause;
use polygraph::names::NameMap;

const BASE: &str = "http://x/";

fn integer(n: i64) -> Expr {
    Expr::Literal(Literal::Integer(n))
}

fn string(s: &str) -> Expr {
    Expr::Literal(Literal::String(s.to_string()))
}

fn variable(name: &str) -> Expr {
    Expr::Variable { name: name.to_string() }
}

fn node(name: &str, labels: &[&str], properties: Vec<(String, Expr)>) -> CreateNode {
    CreateNode {
        variable: Some(name.to_string()),
        labels: labels.iter().map(|l| l.to_string()).collect(),
        properties,
    }
}

fn scan(name: &str, label: &str) -> Op {
    Op::Scan {
        variable: name.to_string(),
        label: Some(label.to_string()),
        extra_labels: vec![],
    }
}

fn updates(op: &Op) -> Vec<String> {
    match compile_write(op, Some(BASE)) {
        Ok(w) => w.update_strings,
        Err(e) => panic!("{e:?}"),
    }
}

fn refused(op: &Op) -> String {
    match compile_write(op, Some(BASE)) {
        Err(PolygraphError::Unsupported { construct, spec_ref, reason }) => {
            assert_eq!(spec_ref, "openCypher 9 §6");
            assert_eq!(reason, "write construct not yet supported by LQA write compiler");
            construct
        }
        other => panic!("{:?}", other.map(|w| w.update_strings)),
    }
}

#[test]
fn create_inserts_stable_nodes() {
    let op = Op::Create {
        inner: Box::new(Op::Unit),
        nodes: vec![
            node("a", &["Person"], vec![("name".to_string(), string("A\"b"))]),
            node("b", &[], vec![("age".to_string(), integer(30))]),
        ],
        edges: vec![CreateEdge {
            from: "a".to_string(),
            to: "b".to_string(),
            rel_type: "KNOWS".to_string(),
            direction: Direction::Incoming,
            properties: vec![],
        }],
    };
    let w = compile_write(&op, Some(BASE)).unwrap();
    assert_eq!(
        w.update_strings,
        vec![
            "INSERT DATA { <http://x/__bnode/0> <http://x/__node> <http://x/__node> . \
             <http://x/__bnode/0> <http://www.w3.org/1999/02/22-rdf-syntax-ns#type> \
             <http://x/Person> . <http://x/__bnode/0> <http://x/name> \"A\\\"b\" . \
             <http://x/__bnode/1> <http://x/__node> <http://x/__node> . \
             <http://x/__bnode/1> <http://x/age> \
             \"30\"^^<http://www.w3.org/2001/XMLSchema#integer> . \
             <http://x/__bnode/1> <http://x/KNOWS> <http://x/__bnode/0> }"
        ]
    );
    assert!(!w.has_return);
    assert!(w.use_lqa_select);
    assert_eq!(w.bnode_map.get("a").map(|s| s.as_str()), Some("<http://x/__bnode/0>"));
    assert_eq!(w.bnode_map.get("b").map(|s| s.as_str()), Some("<http://x/__bnode/1>"));
}

#[test]
fn create_without_a_base_uses_the_default() {
    let op = Op::Create {
        inner: Box::new(Op::Unit),
        nodes: vec![node("a", &[], vec![])],
        edges: vec![],
    };
    let w = compile_write(&op, None).unwrap();
    assert_eq!(
        w.update_strings,
        vec![
            "INSERT DATA { <http://polygraph.example/__bnode/0> \
             <http://polygraph.example/__node> <http://polygraph.example/__node> }"
        ]
    );
}

#[test]
fn set_of_a_literal_replaces_the_old_value() {
    let op = Op::SetItems {
        inner: Box::new(scan("n", "Person")),
        items: vec![SetItem::Property {
            variable: "n".to_string(),
            key: "age".to_string(),
            value: integer(-1),
        }],
    };
    assert_eq!(
        updates(&op),
        vec![
            "DELETE { ?n <http://x/age> ?__n_age_old } \
             INSERT { ?n <http://x/age> \"-1\"^^<http://www.w3.org/2001/XMLSchema#integer> } \
             WHERE { ?n <http://x/__node> <http://x/__node> . \
             ?n <http://www.w3.org/1999/02/22-rdf-syntax-ns#type> <http://x/Person> . \
             OPTIONAL { ?n <http://x/age> ?__n_age_old } }"
        ]
    );
}

#[test]
fn set_of_null_deletes_the_property() {
    let op = Op::SetItems {
        inner: Box::new(Op::Unit),
        items: vec![SetItem::Property {
            variable: "n".to_string(),
            key: "age".to_string(),
            value: Expr::Literal(Literal::Null),
        }],
    };
    assert_eq!(
        updates(&op),
        vec![
            "DELETE { ?n <http://x/age> ?__n_age_old } \
             WHERE { ?n <http://x/__node> <http://x/__node> . \
             OPTIONAL { ?n <http://x/age> ?__n_age_old } }"
        ]
    );
}

#[test]
fn set_of_labels_inserts_one_type_each() {
    let op = Op::SetItems {
        inner: Box::new(Op::Unit),
        items: vec![SetItem::Label {
            variable: "n".to_string(),
            labels: vec!["A".to_string(), "B".to_string()],
        }],
    };
    assert_eq!(
        updates(&op),
        vec![
            "INSERT { ?n <http://www.w3.org/1999/02/22-rdf-syntax-ns#type> <http://x/A> } \
             WHERE { ?n <http://x/__node> <http://x/__node> }",
            "INSERT { ?n <http://www.w3.org/1999/02/22-rdf-syntax-ns#type> <http://x/B> } \
             WHERE { ?n <http://x/__node> <http://x/__node> }",
        ]
    );
}

#[test]
fn remove_of_a_label_asks_for_it() {
    let op = Op::Remove {
        inner: Box::new(Op::Unit),
        items: vec![RemoveItem::Label {
            variable: "n".to_string(),
            labels: vec!["A".to_string()],
        }],
    };
    assert_eq!(
        updates(&op),
        vec![
            "DELETE { ?n <http://www.w3.org/1999/02/22-rdf-syntax-ns#type> <http://x/A> } \
             WHERE { ?n <http://www.w3.org/1999/02/22-rdf-syntax-ns#type> <http://x/A> }"
        ]
    );
}

#[test]
fn detach_delete_removes_both_sides() {
    let op = Op::Delete {
        inner: Box::new(Op::Unit),
        detach: true,
        exprs: vec![variable("n")],
    };
    assert_eq!(
        updates(&op),
        vec![
            "DELETE { ?n ?__del_n_p ?__del_n_o } \
             WHERE { ?n <http://x/__node> <http://x/__node> . ?n ?__del_n_p ?__del_n_o }",
            "DELETE { ?__del_n_s ?__del_n_p ?n } \
             WHERE { ?n <http://x/__node> <http://x/__node> . ?__del_n_s ?__del_n_p ?n . \
             FILTER(?__del_n_s != ?n) }",
        ]
    );
}

#[test]
fn delete_of_a_relationship_removes_its_triple() {
    let op = Op::Delete {
        inner: Box::new(Op::Expand {
            inner: Box::new(Op::Unit),
            from: "a".to_string(),
            rel_var: Some("r".to_string()),
            to: "b".to_string(),
            rel_types: vec!["KNOWS".to_string()],
            direction: Direction::Outgoing,
            range: None,
            path_var: None,
        }),
        detach: false,
        exprs: vec![variable("r")],
    };
    assert_eq!(
        updates(&op),
        vec!["DELETE { ?a <http://x/KNOWS> ?b } WHERE { ?a <http://x/KNOWS> ?b }"]
    );
}

#[test]
fn merge_of_a_node_inserts_it_where_there_is_none() {
    let op = Op::Merge {
        inner: Box::new(Op::Unit),
        clause: MergeClause {
            pattern: Box::new(scan("n", "Person")),
            on_match: vec![],
            on_create: vec![SetItem::Property {
                variable: "n".to_string(),
                key: "age".to_string(),
                value: integer(1),
            }],
        },
    };
    assert_eq!(
        updates(&op),
        vec![
            "INSERT { _:__mn0 <http://x/__node> <http://x/__node> . \
             _:__mn0 <http://www.w3.org/1999/02/22-rdf-syntax-ns#type> <http://x/Person> . \
             _:__mn0 <http://x/age> \"1\"^^<http://www.w3.org/2001/XMLSchema#integer> } \
             WHERE { FILTER NOT EXISTS { ?n <http://x/__node> <http://x/__node> . \
             ?n <http://www.w3.org/1999/02/22-rdf-syntax-ns#type> <http://x/Person> } }"
        ]
    );
}

#[test]
fn reads_alone_are_refused() {
    assert_eq!(refused(&scan("n", "Person")), "compile_write: op tree has no write operator");
}

#[test]
fn deletes_of_other_expressions_are_refused() {
    let op = Op::Delete {
        inner: Box::new(Op::Unit),
        detach: false,
        exprs: vec![integer(1)],
    };
    assert_eq!(refused(&op), "write_delete_complex_expr");
}

#[test]
fn merge_in_a_match_is_refused() {
    let op = Op::Merge {
        inner: Box::new(scan("m", "Person")),
        clause: MergeClause {
            pattern: Box::new(scan("n", "Person")),
            on_match: vec![],
            on_create: vec![],
        },
    };
    assert_eq!(refused(&op), "write_merge_with_outer_match");
}

#[test]
fn delete_with_return_compiles_to_nothing() {
    let op = Op::Projection {
        inner: Box::new(Op::Delete {
            inner: Box::new(scan("n", "Person")),
            detach: false,
            exprs: vec![variable("n")],
        }),
        items: vec![ProjItem { expr: integer(1), alias: "one".to_string() }],
        distinct: false,
    };
    assert!(is_top_level_return(&op));
    let w = compile_write(&op, Some(BASE)).unwrap();
    assert!(w.update_strings.is_empty());
    assert!(w.has_return);
}

#[test]
fn stripping_leaves_no_writes() {
    let op = Op::Projection {
        inner: Box::new(Op::SetItems {
            inner: Box::new(Op::Remove {
                inner: Box::new(scan("n", "Person")),
                items: vec![],
            }),
            items: vec![],
        }),
        items: vec![],
        distinct: false,
    };
    assert!(contains_write(&op));
    if let Op::Projection { inner, .. } = &op {
        assert!(!contains_write(read_context(inner)));
    }
    let left = strip_writes(op);
    assert!(!contains_write(&left));
    assert!(is_top_level_return(&left));
}

fn create(inner: Op) -> Op {
    Op::Create {
        inner: Box::new(inner),
        nodes: vec![node("a", &["Person"], vec![])],
        edges: vec![],
    }
}

fn distinct(inner: Op) -> Op {
    Op::Distinct { inner: Box::new(inner) }
}

#[test]
fn writes_in_branches_are_refused() {
    let pair = || (Box::new(create(Op::Unit)), Box::new(scan("n", "Person")));
    let (left, right) = pair();
    assert_eq!(refused(&Op::Union { left, right }), "write_in_branch");
    let (left, right) = pair();
    assert_eq!(refused(&Op::UnionAll { left, right }), "write_in_branch");
    let (left, right) = pair();
    assert_eq!(refused(&Op::CartesianProduct { left, right }), "write_in_branch");
    let (right, left) = pair();
    assert_eq!(refused(&Op::LeftOuterJoin { left, right, condition: None }), "write_in_branch");
    let (inner, outer) = pair();
    assert_eq!(refused(&Op::Subquery { outer, inner }), "write_in_branch");
}

#[test]
fn nodes_created_in_a_match_have_no_iri() {
    let w = compile_write(&create(scan("n", "Person")), Some(BASE)).unwrap();
    assert_eq!(w.update_strings.len(), 1);
    assert!(w.bnode_map.get("a").is_none());
    assert!(!w.use_lqa_select);
    let w = compile_write(&create(Op::Unit), Some(BASE)).unwrap();
    assert_eq!(w.bnode_map.get("a").map(|s| s.as_str()), Some("<http://x/__bnode/0>"));
    assert!(w.use_lqa_select);
}

#[test]
fn creates_are_found_everywhere() {
    assert!(op_contains_create(&distinct(create(Op::Unit))));
    assert!(!op_contains_create(&distinct(scan("n", "Person"))));
    let left = Box::new(scan("n", "Person"));
    assert!(op_contains_create(&Op::UnionAll { left, right: Box::new(create(Op::Unit)) }));
}

#[test]
fn stripping_goes_below_everything() {
    let op = || distinct(create(Op::Unit));
    let mut bnodes: NameMap<String> = NameMap::new();
    let plain = strip_writes(op());
    assert!(!contains_write(&plain));
    let same = strip_writes_with_bnodes(op(), &bnodes);
    assert_eq!(format!("{plain:?}"), format!("{same:?}"));
    bnodes.insert("a".to_string(), "<http://x/__bnode/0>".to_string());
    match strip_writes_with_bnodes(op(), &bnodes) {
        Op::Distinct { inner } => match *inner {
            Op::CartesianProduct { left, right } => {
                assert!(matches!(*left, Op::Unit));
                match *right {
                    Op::Values { bindings } => {
                        assert_eq!(bindings[0].0, "a");
                        assert!(matches!(
                            &bindings[0].1,
                            Expr::Literal(Literal::Iri(i)) if i == "http://x/__bnode/0"
                        ));
                    }
                    other => panic!("{other:?}"),
                }
            }
            other => panic!("{other:?}"),
        },
        other => panic!("{other:?}"),
    }
}

#[test]
fn added_lists_are_one_list() {
    let list = |n: i64| Expr::List(vec![Expr::List(vec![integer(n)])]);
    let sum = Expr::Add(Box::new(list(1)), Box::new(list(2)));
    let whole = Expr::List(vec![Expr::List(vec![integer(1)]), Expr::List(vec![integer(2)])]);
    assert_eq!(lqa_write_serialize_literal(&sum).unwrap(), "[[1], [2]]");
    assert_eq!(lqa_write_serialize_literal(&sum), lqa_write_serialize_literal(&whole));
}

#[test]
fn refused_creates_change_nothing() {
    let mut counter: usize = 3;
    let mut bnodes: NameMap<String> = NameMap::new();
    let mut out = vec!["before".to_string()];
    let nodes = vec![node("a", &["Person"], vec![])];
    let parts = vec!["BIND(?m AS ?k)".to_string()];
    let r = compile_create(&nodes, &vec![], &parts, BASE, &mut counter, &mut bnodes, &mut out);
    assert!(r.is_err());
    assert_eq!(counter, 3);
    assert!(bnodes.get("a").is_none());
    assert_eq!(out, vec!["before"]);
}

#[test]
fn refused_merges_change_nothing() {
    let mut counter: usize = 3;
    let mut out = vec!["before".to_string()];
    let outer = vec!["?m ?p ?o".to_string()];
    let r = compile_merge_node_scan(
        &scan("n", "Person"),
        &vec![],
        &outer,
        &vec![],
        &vec![],
        BASE,
        &mut counter,
        &mut out,
    );
    assert!(r.is_err());
    assert_eq!(counter, 3);
    assert_eq!(out, vec!["before"]);
}

#[test]
fn bindings_are_told_from_patterns() {
    assert!(is_scalar_bind_clause(" BIND(1 AS ?x)"));
    assert!(is_scalar_bind_clause("VALUES ?x { 1 }"));
    assert!(!is_scalar_bind_clause("?n ?p ?o"));
}
