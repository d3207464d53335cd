//! The translation of Cypher to SPARQL.
use polygraph::ast::cypher::{Clause, Expression, ReturnItem, ReturnItems, UnwindClause};
use polygraph::error::PolygraphError;
use polygraph::names::NameMap;
use polygraph::parser::parse_cypher;
use polygraph::sparql::algebra::{
    Aggregate, AggregateFunction, Expr, Function, GraphPattern, GroundTerm, Literal, OrderExpression,
    Predicate, Term, TriplePattern,
};
use polygraph::translator::ambiguity::{atomic_free_terms, is_ambiguous_aggregation};
use polygraph::translator::analysis::{
    agg_has_nested_aggregate, clause_expr_is_opaque, collect_nonempty_vars,
    expr_contains_aggregate, expr_contains_rand, expr_has_free_var_outside_agg,
    expr_is_string_producer,
};
use polygraph::translator::compare::{cypher_compare, look_up, Order};
use polygraph::translator::count::{count_list_elements, try_eval_to_usize};
use polygraph::translator::expr::walk::{translate_at, translate_expr};
use polygraph::translator::ground::{
    expr_to_ground_term, pad, serialize_list_element, serialize_list_literal, translate_literal,
};
use polygraph::translator::quantifier::{eval_quantifier_tautology, quantifier_canonical};
use polygraph::translator::query::{combine_union, split_union, Plan};
use polygraph::translator::resolve::{find_hops, resolve_literal_list, try_resolve_to_items};
use polygraph::translator::scope::{Edge, Given, GivenWhole, Output, Scope};
use polygraph::translator::sort_key::sort_key_for_expr;
use polygraph::translator::state::{ColumnKind, TranslationState};

const INTEGER: &str = "http://www.w3.org/2001/XMLSchema#integer";
const BOOLEAN: &str = "http://www.w3.org/2001/XMLSchema#boolean";
const DOUBLE: &str = "http://www.w3.org/2001/XMLSchema#double";
const HOPS: usize = 100;

fn clauses(text: &str) -> Vec<Clause> {
    parse_cypher(text).unwrap().clauses
}

fn items(text: &str) -> Vec<ReturnItem> {
    match clauses(text).pop() {
        Some(Clause::Return(r)) => match r.items {
            ReturnItems::Explicit(items) => items,
            ReturnItems::All => panic!("{text}"),
        },
        other => panic!("{other:?}"),
    }
}

fn expr(text: &str) -> Expression {
    items(&format!("RETURN {text}")).pop().unwrap().expression
}

fn scope() -> Scope {
    Scope::new("http://x/".to_string(), false)
}

fn translated(text: &str, s: &Scope) -> Result<(Expr, Output, Vec<TriplePattern>), PolygraphError> {
    let mut out = Output::new();
    let mut extra: Vec<TriplePattern> = vec![];
    let e = translate_expr(&expr(text), s, &mut out, &mut extra)?;
    Ok((e, out, extra))
}

fn plain(text: &str) -> Expr {
    translated(text, &scope()).unwrap().0
}

fn unsupported(text: &str, s: &Scope) -> String {
    match translated(text, s) {
        Err(PolygraphError::UnsupportedFeature { feature }) => feature,
        other => panic!("{:?}", other.map(|r| r.0)),
    }
}

fn invalid(text: &str) -> String {
    match translated(text, &scope()) {
        Err(PolygraphError::Translation { message }) => message,
        other => panic!("{:?}", other.map(|r| r.0)),
    }
}

fn var(name: &str) -> Expr {
    Expr::Variable(name.to_string())
}

fn typed(value: &str, datatype: &str) -> Literal {
    Literal { value: value.to_string(), datatype: Some(datatype.to_string()) }
}

fn integer(n: i64) -> Expr {
    Expr::Literal(typed(&n.to_string(), INTEGER))
}

fn string(s: &str) -> Expr {
    Expr::Literal(Literal { value: s.to_string(), datatype: None })
}

fn truth(b: bool) -> Expr {
    Expr::Literal(typed(if b { "true" } else { "false" }, BOOLEAN))
}

fn names(v: &[&str]) -> Vec<String> {
    v.iter().map(|s| s.to_string()).collect()
}

fn edge(src: &str, pred: &str, dst: &str) -> Edge {
    Edge {
        src: Term::Variable(src.to_string()),
        pred: pred.to_string(),
        pred_var: None,
        dst: Term::Variable(dst.to_string()),
        reif_var: None,
        null_check_var: None,
    }
}

// ── Expressions ──────────────────────────────────────────────────────────────

#[test]
fn variables_and_literals() {
    assert_eq!(plain("n"), var("n"));
    assert_eq!(plain("7"), integer(7));
    assert_eq!(plain("'a'"), string("a"));
    assert_eq!(plain("true"), truth(true));
    assert_eq!(plain("null"), var("__null_0"));
    assert_eq!(plain("-7"), integer(-7));
}

#[test]
fn aliases_stand_for_their_variables() {
    let mut s = scope();
    s.return_alias_subst.insert("n".to_string(), "m".to_string());
    assert_eq!(translated("n", &s).unwrap().0, var("m"));
}

#[test]
fn properties_are_bound_by_triples() {
    let (e, out, extra) = translated("n.age", &scope()).unwrap();
    assert_eq!(e, var("__n_age_0"));
    assert_eq!(out.counter, 1);
    assert_eq!(
        extra,
        vec![TriplePattern {
            subject: Term::Variable("n".to_string()),
            predicate: Predicate::NamedNode("http://x/age".to_string()),
            object: Term::Variable("__n_age_0".to_string()),
        }]
    );
}

#[test]
fn translation_only_adds_triples() {
    let mut out = Output::new();
    let mut extra: Vec<TriplePattern> = vec![];
    translate_expr(&expr("n.a"), &scope(), &mut out, &mut extra).unwrap();
    translate_expr(&expr("n.b IS NULL"), &scope(), &mut out, &mut extra).unwrap();
    assert_eq!(extra.len(), 2);
    assert_eq!(extra[0].object, Term::Variable("__n_a_0".to_string()));
    assert_eq!(extra[1].object, Term::Variable("__n_b_1".to_string()));
    assert_eq!(out.counter, 2);
}

#[test]
fn null_has_no_properties() {
    assert_eq!(plain("null.age"), var("__null_0"));
    let mut s = scope();
    s.null_vars.push("n".to_string());
    assert_eq!(translated("n.age", &s).unwrap().0, var("__null_0"));
}

#[test]
fn logic_is_kept() {
    assert_eq!(plain("a AND NOT b"), Expr::And(
        Box::new(var("a")),
        Box::new(Expr::Not(Box::new(var("b")))),
    ));
    assert_eq!(plain("a OR b"), Expr::Or(Box::new(var("a")), Box::new(var("b"))));
}

#[test]
fn logic_refuses_what_is_not_boolean() {
    assert_eq!(invalid("1 AND a"), "Type error: AND requires boolean operands");
    assert_eq!(invalid("a OR 'x'"), "Type error: OR requires boolean operands");
    assert_eq!(invalid("1 XOR a"), "Type error: XOR requires boolean operands");
    assert_eq!(invalid("NOT 1"), "Type error: NOT requires a boolean operand");
}

#[test]
fn null_tests_ask_whether_a_variable_is_bound() {
    assert_eq!(plain("n IS NULL"), Expr::Not(Box::new(Expr::Bound("n".to_string()))));
    assert_eq!(plain("n IS NOT NULL"), Expr::Bound("n".to_string()));
    let (e, out, _) = translated("(a AND b) IS NULL", &scope()).unwrap();
    assert_eq!(e, Expr::Not(Box::new(Expr::Bound("__isnull_0".to_string()))));
    assert_eq!(out.pending_bind_targets, names(&["__isnull_0"]));
    assert_eq!(out.pending_bind_checks.len(), 1);
}

#[test]
fn comparisons_of_constants_are_told() {
    assert_eq!(plain("1 = 1"), truth(true));
    assert_eq!(plain("'a' <> 'a'"), truth(false));
    assert_eq!(plain("1 = null"), var("__null_0"));
    assert_eq!(plain("2 IN [1, 2]"), truth(true));
    assert_eq!(plain("3 IN [1, 2]"), truth(false));
    assert_eq!(plain("3 IN [1, null]"), var("__null_0"));
}

#[test]
fn membership_needs_a_list() {
    assert_eq!(
        invalid("1 IN 2"),
        "Type error: IN requires a list operand on the right-hand side"
    );
}

#[test]
fn membership_of_a_variable_is_asked_for() {
    assert_eq!(
        plain("n IN [1, 2]"),
        Expr::In(Box::new(var("n")), vec![integer(1), integer(2)])
    );
}

#[test]
fn arithmetic_on_integers_is_done() {
    assert_eq!(plain("2 * 3"), integer(6));
    assert_eq!(plain("n - m"), Expr::Subtract(Box::new(var("n")), Box::new(var("m"))));
}

#[test]
fn lists_are_text() {
    assert_eq!(plain("[1, 'a', null]"), string("[1, 'a', null]"));
    assert_eq!(plain("[1] + [2]"), string("[1, 2]"));
}

#[test]
fn quantifiers_over_lists_are_written_out() {
    assert_eq!(plain("all(x IN [] WHERE x = 1)"), truth(true));
    assert_eq!(plain("any(x IN [] WHERE x = 1)"), truth(false));
    assert_eq!(
        plain("any(x IN [a, b] WHERE NOT x)"),
        Expr::Or(
            Box::new(Expr::Not(Box::new(var("a")))),
            Box::new(Expr::Not(Box::new(var("b"))))
        )
    );
    assert_eq!(
        unsupported("any(x IN l WHERE x = 1)", &scope()),
        "quantifier expression `Any(x IN ...)` on runtime collection (Phase C)"
    );
}

#[test]
fn single_counts_known_truths() {
    assert_eq!(plain("single(x IN [1, 2] WHERE x = 1)"), truth(true));
    assert_eq!(plain("single(x IN [1, 1] WHERE x = 1)"), truth(false));
    assert_eq!(plain("single(x IN [1, null] WHERE x = 1)"), var("__null_1"));
}

#[test]
fn quantifiers_refuse_arithmetic_on_texts() {
    assert_eq!(
        invalid("any(x IN ['a'] WHERE x % 2 = 0)"),
        "InvalidArgumentType: arithmetic operator applied to non-numeric value"
    );
}

#[test]
fn subscripts_of_lists_are_looked_up() {
    assert_eq!(plain("[1, 2, 3][1]"), integer(2));
    assert_eq!(plain("[1, 2, 3][-1]"), integer(3));
    assert_eq!(plain("[1, 2, 3][7]"), var("__null_0"));
    assert_eq!(plain("null[0]"), var("__null_0"));
    assert_eq!(
        unsupported("[1][n]", &scope()),
        "dynamic subscript access with non-literal key (Phase C)"
    );
    assert_eq!(unsupported("n[0]", &scope()), "subscript access on non-literal list (Phase C)");
}

#[test]
fn slices_are_cut_out() {
    assert_eq!(plain("[1, 2, 3][0..2]"), string("[1, 2]"));
    assert_eq!(plain("[1, 2, 3][-2..]"), string("[2, 3]"));
    assert_eq!(plain("[1, 2, 3][null..2]"), var("__null_0"));
    assert_eq!(unsupported("n[0..2]", &scope()), "list slice expr[n..m] (Phase C)");
}

#[test]
fn comprehensions_over_constants_are_carried_out() {
    assert_eq!(plain("[x IN [1, 2, 3] WHERE x > 1 | x]"), string("[2, 3]"));
    assert_eq!(
        unsupported("[x IN l | x]", &scope()),
        "list comprehension [x IN list WHERE pred | expr] (Phase C)"
    );
}

#[test]
fn cases_are_nested_conditions() {
    assert_eq!(
        plain("CASE n WHEN 1 THEN 'a' ELSE 'b' END"),
        Expr::If(
            Box::new(Expr::Equal(Box::new(var("n")), Box::new(integer(1)))),
            Box::new(string("a")),
            Box::new(string("b")),
        )
    );
    assert_eq!(
        plain("CASE WHEN a THEN 1 END"),
        Expr::If(Box::new(var("a")), Box::new(integer(1)), Box::new(var("__null_0")))
    );
}

#[test]
fn aggregates_are_left_to_do() {
    let (e, out, _) = translated("count(*)", &scope()).unwrap();
    assert_eq!(e, var("__agg_0"));
    assert_eq!(out.pending_aggs.len(), 1);
    assert_eq!(out.pending_aggs[0].variable, "__agg_0");
    assert_eq!(
        out.pending_aggs[0].aggregate,
        Aggregate::CountSolutions { distinct: false }
    );
    let (_, out, _) = translated("collect(DISTINCT n)", &scope()).unwrap();
    assert_eq!(
        out.pending_aggs[0].aggregate,
        Aggregate::FunctionCall {
            name: AggregateFunction::GroupConcat { separator: None },
            expr: var("n"),
            distinct: true,
        }
    );
}

#[test]
fn relationships_are_the_same_either_way_round() {
    let mut s = scope();
    s.edge_map.insert("r".to_string(), edge("a", "http://x/T", "b"));
    s.edge_map.insert("q".to_string(), edge("c", "http://x/T", "d"));
    let (same, _, _) = translated("r = q", &s).unwrap();
    let (different, _, _) = translated("r <> q", &s).unwrap();
    assert_eq!(different, Expr::Not(Box::new(same)));
}

#[test]
fn calls_are_given() {
    let mut s = scope();
    assert_eq!(unsupported("size(n)", &s), "function size()");
    s.given.push(Given { expression: expr("size(n)"), result: integer(3) });
    assert_eq!(translated("size(n)", &s).unwrap().0, integer(3));
}

#[test]
fn powers_of_variables_are_refused() {
    match translated("n ^ 2", &scope()) {
        Err(PolygraphError::Unsupported { construct, .. }) => {
            assert_eq!(construct, "^ (exponentiation) with runtime operands");
        }
        other => panic!("{:?}", other.map(|r| r.0)),
    }
    assert_eq!(plain("null ^ 2"), var("__null_1"));
}

#[test]
fn depth_does_not_matter() {
    let deep = (0..300).fold(expr("a"), |e, _| Expression::Not(Box::new(e)));
    let mut out = Output::new();
    let mut extra: Vec<TriplePattern> = vec![];
    assert!(translate_expr(&deep, &scope(), &mut out, &mut extra).is_ok());
    let e = expr("NOT NOT a");
    let whole = translate_expr(&e, &scope(), &mut out, &mut extra).unwrap();
    for depth in [3, 4, 100] {
        assert_eq!(translate_at(&e, &scope(), &mut out, &mut extra, depth).unwrap(), whole);
    }
    assert!(translate_at(&e, &scope(), &mut out, &mut extra, 2).is_err());
}

// ── Constants ────────────────────────────────────────────────────────────────

#[test]
fn literals_become_typed_terms() {
    let read = |t: &str| match expr(t) {
        Expression::Literal(l) => translate_literal(&l),
        other => panic!("{other:?}"),
    };
    assert_eq!(read("1").unwrap(), typed("1", INTEGER));
    assert_eq!(read("false").unwrap(), typed("false", BOOLEAN));
    assert_eq!(read("1.50").unwrap(), typed("1.5", DOUBLE));
    assert_eq!(read("1e3").unwrap(), typed("1000.0", DOUBLE));
    assert_eq!(read("25e9").unwrap(), typed("2.5E10", DOUBLE));
    assert!(read("null").is_err());
}

#[test]
fn negated_doubles_keep_their_point() {
    let term = |t: &str| match expr_to_ground_term(&expr(t)).unwrap() {
        Term::Literal(l) => l,
        other => panic!("{other:?}"),
    };
    assert_eq!(term("-100.0"), typed("-100.0", DOUBLE));
    assert_eq!(term("-1e-5"), typed("-1e-5", DOUBLE));
    assert_eq!(term("100.0"), typed("100.0", DOUBLE));
    assert_eq!(plain("-1.50"), Expr::Literal(typed("-1.5", DOUBLE)));
    assert_eq!(plain("-25e9"), Expr::Literal(typed("-25000000000.0", DOUBLE)));
    assert_eq!(serialize_list_element(&expr("[1.50, -1e3]")), "[1.5, -1000]");
}

#[test]
fn dates_are_written_out() {
    let term = |t: &str| expr_to_ground_term(&expr(t));
    match term("date({year: 2020, month: 2, day: 3})").unwrap() {
        Term::Literal(l) => assert_eq!(l.value, "2020-02-03"),
        other => panic!("{other:?}"),
    }
    assert!(term("foo(1)").is_err());
    assert_eq!(pad(7, 3), "007");
}

#[test]
fn lists_are_serialized() {
    match expr("[1, [true, 'x'], {a: 1}]") {
        Expression::List(v) => {
            assert_eq!(serialize_list_literal(&v), "[1, [true, 'x'], {a: 1}]");
        }
        other => panic!("{other:?}"),
    }
}

#[test]
fn counts_are_known() {
    let given: Vec<GivenWhole> = vec![GivenWhole { expression: expr("2.9"), value: 2 }];
    let count = |t: &str| try_eval_to_usize(&expr(t), &given);
    assert_eq!(count("3"), Some(3));
    assert_eq!(count("1 + 2 * 3"), Some(7));
    assert_eq!(count("7 / 2"), Some(3));
    assert_eq!(count("1 / 0"), None);
    assert_eq!(count("1 - 2"), None);
    assert_eq!(count("1.5"), None);
    assert_eq!(count("toInteger(2.9)"), Some(2));
    assert_eq!(count("toInteger(3.9)"), None);
    assert_eq!(count("n"), None);
}

#[test]
fn elements_are_counted() {
    let count = |t: &str| count_list_elements(&expr(t));
    assert_eq!(count("[1, 2] + [3]"), Some(3));
    assert_eq!(count("[x IN [1, 2, 3] WHERE x > 1]"), Some(2));
    assert_eq!(count("[x IN [1, 2] WHERE x > n]"), None);
    assert_eq!(count("n"), None);
}

// ── The order of values ──────────────────────────────────────────────────────

fn order(a: &str, b: &str) -> Order {
    cypher_compare(&expr(a), &expr(b))
}

fn key(t: &str) -> String {
    sort_key_for_expr(&expr(t))
}

#[test]
fn values_are_ordered_by_type_and_value() {
    let v = ["{a: 1}", "[1]", "[1, 2]", "[2]", "'a'", "'ab'", "'b'", "false", "true", "1", "2",
        "null"];
    for i in 0..v.len() {
        for j in 0..v.len() {
            let want = if i < j {
                Order::Less
            } else if i == j {
                Order::Equal
            } else {
                Order::Greater
            };
            assert_eq!(order(v[i], v[j]), want, "{} {}", v[i], v[j]);
            assert_eq!(key(v[i]) < key(v[j]), i < j, "{} {}", v[i], v[j]);
        }
    }
}

#[test]
fn sort_keys_are_exact() {
    assert_eq!(key("0"), "809223372036854775808");
    let least = Expression::Literal(polygraph::ast::cypher::Literal::Integer(i64::MIN));
    assert_eq!(sort_key_for_expr(&least), "800000000000000000000");
    assert_eq!(key("'ab'"), "5ab\u{1}");
    assert_eq!(key("[true, null]"), "37Z");
    assert_eq!(key("1.5"), format!("8{:020}", 1.5f64.to_bits() + (1 << 63)));
    assert_eq!(key("0.1"), format!("8{:020}", 0.1f64.to_bits() + (1 << 63)));
    assert_eq!(float_key("-2.5"), format!("8{:020}", u64::MAX - (-2.5f64).to_bits()));
    assert_eq!(float_key("NaN"), "9");
}

fn float_key(text: &str) -> String {
    let f = polygraph::number::Float { text: text.to_string() };
    sort_key_for_expr(&Expression::Literal(polygraph::ast::cypher::Literal::Float(f)))
}

#[test]
fn negative_zero_is_ranked_as_zero() {
    assert_eq!(float_key("-0"), float_key("0"));
    assert!(float_key("-1") < float_key("-0"));
    assert!(float_key("-0") < float_key("1"));
    assert!(float_key("-inf") < float_key("-1e300"));
    assert!(float_key("1e300") < float_key("inf"));
}

#[test]
fn doubles_are_ordered_by_their_bits() {
    for d in [0.0, -0.0, 0.1, -2.5, 1e300, 5e-324, f64::INFINITY, f64::NEG_INFINITY] {
        assert_eq!(look_up(&d.to_string()), Some(d.to_bits()));
    }
    assert!(f64::from_bits(look_up("NaN").unwrap()).is_nan());
    assert_eq!(look_up("one"), None);
    assert_eq!(order("1.5", "2"), Order::Less);
    assert_eq!(order("2", "1.5"), Order::Greater);
    assert_eq!(order("2.0", "2"), Order::Equal);
    assert_eq!(order("9007199254740993", "9007199254740992.0"), Order::Equal);
    assert_eq!(order("1e16", "9999999999999999"), Order::Equal);
    assert_eq!(order("1e16", "9999999999999998"), Order::Greater);
}

// ── Aggregates ───────────────────────────────────────────────────────────────

#[test]
fn aggregates_are_found() {
    assert!(expr_contains_aggregate(&expr("1 + count(n)")));
    assert!(!expr_contains_aggregate(&expr("1 + n")));
    assert!(expr_has_free_var_outside_agg(&expr("n + count(m)")));
    assert!(!expr_has_free_var_outside_agg(&expr("1 + count(m)")));
    match expr("sum(count(n))") {
        Expression::Aggregate(a) => assert!(agg_has_nested_aggregate(&a)),
        other => panic!("{other:?}"),
    }
}

#[test]
fn items_that_are_not_grouped_are_ambiguous() {
    let item = expr("n.a + count(m)");
    assert_eq!(atomic_free_terms(&item), vec![expr("n.a")]);
    assert!(is_ambiguous_aggregation(&item, &vec![]));
    assert!(is_ambiguous_aggregation(&item, &vec![expr("n.b")]));
    assert!(!is_ambiguous_aggregation(&item, &vec![expr("n.b"), expr("n.a")]));
}

#[test]
fn random_and_opaque_expressions_are_found() {
    assert!(expr_contains_rand(&expr("1 < RAND()")));
    assert!(!expr_contains_rand(&expr("1 < n")));
    assert!(clause_expr_is_opaque(&expr("[y IN l WHERE rand() > 0.5 | y]"), &vec![]));
    assert!(expr_is_string_producer(&expr("n.a + ' ' + n.b")));
    assert!(!expr_is_string_producer(&expr("n.a + n.b")));
    let mut v: Vec<String> = vec![];
    collect_nonempty_vars(&expr("size(l) > 0"), &mut v);
    assert_eq!(v, names(&["l"]));
}

// ── Quantifiers over unknown lists ───────────────────────────────────────────

#[test]
fn equivalent_quantifiers_have_the_same_form() {
    let opaque = names(&["l"]);
    let form = |t: &str| {
        quantifier_canonical(&expr(t), &opaque).map(|c| (c.kind, c.predicate, c.negated))
    };
    let none = form("none(x IN l WHERE x > 2)");
    assert!(none.is_some());
    assert_eq!(none, form("NOT any(x IN l WHERE x > 2)"));
    assert_eq!(none, form("all(x IN l WHERE NOT x > 2)"));
    assert_eq!(none, form("size([x IN l WHERE x > 2]) = 0"));
    assert!(none != form("any(x IN l WHERE x > 2)"));
    assert_eq!(form("any(x IN m WHERE x > 2)"), None);
}

#[test]
fn identities_of_quantifiers_are_true() {
    let opaque = names(&["l"]);
    let value = |t: &str, nonempty: &[&str]| {
        eval_quantifier_tautology(&expr(t), &opaque, &names(nonempty))
    };
    assert_eq!(value("none(x IN l WHERE x > 2) = (NOT any(x IN l WHERE x > 2))", &[]), Some(true));
    assert_eq!(value("any(x IN l WHERE false)", &[]), Some(false));
    assert_eq!(value("all(x IN l WHERE true)", &[]), Some(true));
    assert_eq!(value("any(x IN l WHERE true)", &[]), None);
    assert_eq!(value("any(x IN l WHERE true)", &["l"]), Some(true));
    assert_eq!(value("single(x IN l WHERE true)", &["l"]), None);
    assert_eq!(value("NOT (any(x IN l WHERE false) AND n)", &[]), Some(true));
}

// ── Whole queries ────────────────────────────────────────────────────────────

fn state() -> TranslationState {
    TranslationState::begin(Ok(()), Some("http://x/"), false, false).unwrap()
}

#[test]
fn extremes_of_lists_are_known() {
    let mut s = state();
    let q = clauses("UNWIND [1, 'a', null, true] AS x RETURN max(x), min(x)");
    match s.translate_query(&q) {
        Plan::Known(GraphPattern::Values { variables, bindings }) => {
            assert_eq!(variables, names(&["__fold_0", "__fold_1"]));
            assert_eq!(
                bindings,
                vec![vec![
                    Some(GroundTerm::Literal(typed("1", INTEGER))),
                    Some(GroundTerm::Literal(Literal { value: "a".to_string(), datatype: None })),
                ]]
            );
        }
        other => panic!("{other:?}"),
    }
    let r = s.end("S".to_string());
    assert_eq!(r.sparql, "S");
    assert_eq!(r.schema.base_iri, "http://x/");
    assert_eq!(r.schema.columns.len(), 2);
    assert_eq!(r.schema.columns[0].kind, ColumnKind::Scalar { var: "__fold_0".to_string() });
}

#[test]
fn other_queries_go_clause_by_clause() {
    let mut s = TranslationState::begin(Ok(()), None, true, true).unwrap();
    assert_eq!(s.scope.base_iri, "http://polygraph.example/");
    assert!(s.scope.rdf_star);
    assert!(s.scope.skip_write_clauses);
    assert!(matches!(s.translate_query(&clauses("MATCH (n) RETURN n")), Plan::Clauses));
}

#[test]
fn semantic_errors_come_first() {
    let x = PolygraphError::UnsupportedFeature { feature: "VariableAlreadyBound".to_string() };
    match TranslationState::begin(Err(x), Some("http://x/"), false, true) {
        Err(PolygraphError::UnsupportedFeature { feature }) => {
            assert_eq!(feature, "VariableAlreadyBound");
        }
        other => panic!("{other:?}"),
    }
}

#[test]
fn unions_are_taken_apart() {
    let q = clauses("RETURN 1 AS a UNION RETURN 2 AS a UNION ALL RETURN 3 AS a");
    match state().translate_query(&q) {
        Plan::Union(arms, flags) => {
            assert_eq!(arms.len(), 3);
            assert!(arms.iter().all(|a| a.len() == 1));
            assert_eq!(flags, vec![false, true]);
        }
        other => panic!("{other:?}"),
    }
    let (arms, flags) = split_union(&clauses("RETURN 1 AS a"));
    assert_eq!(arms.len(), 1);
    assert!(flags.is_empty());
}

#[test]
fn unions_are_put_together() {
    let arm = |n: usize| GraphPattern::Slice {
        inner: Box::new(GraphPattern::Bgp { patterns: vec![] }),
        start: n,
        length: None,
    };
    let union = |a: GraphPattern, b: GraphPattern| GraphPattern::Union {
        left: Box::new(a),
        right: Box::new(b),
    };
    assert_eq!(combine_union(vec![arm(1)], &vec![]), arm(1));
    assert_eq!(
        combine_union(vec![arm(1), arm(2), arm(3)], &vec![true, true]),
        union(union(arm(1), arm(2)), arm(3))
    );
    assert_eq!(
        combine_union(vec![arm(1), arm(2)], &vec![false]),
        GraphPattern::Distinct { inner: Box::new(union(arm(1), arm(2))) }
    );
}

#[test]
fn returned_items_are_classified() {
    let mut s = state();
    s.scope.node_vars.push("n".to_string());
    s.scope.edge_map.insert("r".to_string(), edge("a", "http://x/T", "b"));
    let kind = |s: &TranslationState, t: &str| {
        s.classify_return_item(&items(&format!("RETURN {t}"))[0], &"v".to_string())
    };
    assert_eq!(kind(&s, "n"), ColumnKind::Node { iri_var: "n".to_string() });
    assert_eq!(
        kind(&s, "r"),
        ColumnKind::Relationship {
            src_var: "a".to_string(),
            dst_var: "b".to_string(),
            type_info: "http://x/T".to_string(),
        }
    );
    assert_eq!(kind(&s, "n.a"), ColumnKind::Scalar { var: "v".to_string() });
}

// ── Patterns ─────────────────────────────────────────────────────────────────

fn empty() -> GraphPattern {
    GraphPattern::Bgp { patterns: vec![] }
}

#[test]
fn values_to_bind_are_bound_in_order() {
    let mut out = Output::new();
    out.pending_bind_targets = names(&["a", "b"]);
    out.pending_bind_checks = vec![integer(1), integer(2)];
    let p = out.apply_pending_binds(empty());
    assert_eq!(
        p,
        GraphPattern::Extend {
            inner: Box::new(GraphPattern::Extend {
                inner: Box::new(empty()),
                variable: "a".to_string(),
                expression: integer(1),
            }),
            variable: "b".to_string(),
            expression: integer(2),
        }
    );
    assert!(out.pending_bind_targets.is_empty());
    assert!(out.pending_bind_checks.is_empty());
}

#[test]
fn subqueries_are_joined() {
    let mut out = Output::new();
    out.pending_subqueries.push(("c".to_string(), GraphPattern::Distinct {
        inner: Box::new(empty()),
    }));
    let p = out.drain_pending_subqueries(empty());
    assert_eq!(
        p,
        GraphPattern::LeftJoin {
            left: Box::new(empty()),
            right: Box::new(GraphPattern::Distinct { inner: Box::new(empty()) }),
            expression: None,
        }
    );
    assert!(out.pending_subqueries.is_empty());
}

#[test]
fn rows_are_ordered_and_cut() {
    let mut s = state();
    let r = match clauses("RETURN n ORDER BY n.age DESC, n SKIP 1 + 1 LIMIT 5").pop() {
        Some(Clause::Return(r)) => r,
        other => panic!("{other:?}"),
    };
    let p = s
        .apply_order_skip_limit(empty(), &r.order_by, &r.skip, &r.limit)
        .unwrap();
    match p {
        GraphPattern::Slice { inner, start, length } => {
            assert_eq!(start, 2);
            assert_eq!(length, Some(5));
            match *inner {
                GraphPattern::OrderBy { inner, expression } => {
                    assert_eq!(
                        expression,
                        vec![
                            OrderExpression::Desc(var("__n_age_0")),
                            OrderExpression::Asc(var("n")),
                        ]
                    );
                    assert!(matches!(*inner, GraphPattern::LeftJoin { .. }));
                }
                other => panic!("{other:?}"),
            }
        }
        other => panic!("{other:?}"),
    }
}

#[test]
fn limits_must_be_known() {
    let mut s = state();
    let n = Some(expr("n"));
    match s.apply_order_skip_limit(empty(), &None, &n, &None) {
        Err(PolygraphError::UnsupportedFeature { feature }) => {
            assert_eq!(feature, "non-integer SKIP expression");
        }
        other => panic!("{other:?}"),
    }
    match s.apply_order_skip_limit(empty(), &None, &None, &n) {
        Err(PolygraphError::UnsupportedFeature { feature }) => {
            assert_eq!(feature, "non-integer LIMIT expression");
        }
        other => panic!("{other:?}"),
    }
    assert_eq!(s.apply_order_skip_limit(empty(), &None, &None, &None).unwrap(), empty());
}

#[test]
fn relationships_are_kept_apart() {
    let hop = |s: &str, p: Predicate, o: &str| {
        (Term::Variable(s.to_string()), p, Term::Variable(o.to_string()))
    };
    let named = |t: &str| Predicate::NamedNode(t.to_string());
    let mut s = state();
    s.track_iso_hop(vec![]);
    s.track_iso_hop(vec![hop("a", named("http://x/T"), "b")]);
    s.track_iso_hop(vec![hop("c", named("http://x/U"), "d")]);
    assert_eq!(s.iso_hops.len(), 2);
    assert!(s.generate_iso_filters().is_empty());
    s.track_iso_hop(vec![hop("e", Predicate::Variable("p".to_string()), "f")]);
    let filters = s.generate_iso_filters();
    assert_eq!(filters.len(), 2);
    let differ = |a: Expr, b: Expr| Expr::Not(Box::new(Expr::Equal(Box::new(a), Box::new(b))));
    assert_eq!(
        filters[0],
        Expr::Or(
            Box::new(differ(var("a"), var("e"))),
            Box::new(Expr::Or(
                Box::new(differ(Expr::NamedNode("http://x/T".to_string()), var("p"))),
                Box::new(differ(var("b"), var("f"))),
            )),
        )
    );
    assert_eq!(s.rdf_type(), "http://www.w3.org/1999/02/22-rdf-syntax-ns#type");
}

// ── UNWIND ───────────────────────────────────────────────────────────────────

fn unwind(text: &str) -> Result<GraphPattern, PolygraphError> {
    match clauses(&format!("UNWIND {text} AS x RETURN x")).remove(0) {
        Clause::Unwind(u) => state().translate_unwind_clause(&u, empty()),
        other => panic!("{other:?}"),
    }
}

#[test]
fn lists_are_unwound_to_values() {
    match unwind("[1, 2]").unwrap() {
        GraphPattern::Values { variables, bindings } => {
            assert_eq!(variables, names(&["x"]));
            assert_eq!(bindings.len(), 2);
            assert_eq!(bindings[0], vec![Some(GroundTerm::Literal(typed("1", INTEGER)))]);
        }
        other => panic!("{other:?}"),
    }
}

#[test]
fn elements_of_unwound_lists_are_unwound() {
    let unwind_as = |name: &str| {
        let mut s = state();
        s.unwind_list_source.insert("l".to_string(), expr("[[1, 2], [3]]"));
        let u = UnwindClause {
            expression: Expression::Variable("l".to_string()),
            variable: name.to_string(),
        };
        s.translate_unwind_clause(&u, empty())
    };
    match unwind_as("x").unwrap() {
        GraphPattern::Values { variables, bindings } => {
            assert_eq!(variables, names(&["l", "x"]));
            assert_eq!(bindings.len(), 3);
        }
        other => panic!("{other:?}"),
    }
    match unwind_as("a b") {
        Err(PolygraphError::UnsupportedFeature { feature }) => {
            assert_eq!(feature, "invalid variable name in UNWIND");
        }
        other => panic!("{other:?}"),
    }
    assert!(unwind_as("").is_err());
    assert!(unwind_as("1").is_ok());
}

fn unwound_texts(text: &str) -> Vec<String> {
    match unwind(text).unwrap() {
        GraphPattern::Values { bindings, .. } => bindings
            .into_iter()
            .map(|row| match &row[0] {
                Some(GroundTerm::Literal(l)) => l.value.clone(),
                other => panic!("{other:?}"),
            })
            .collect(),
        other => panic!("{other:?}"),
    }
}

#[test]
fn ranges_are_unwound_step_by_step() {
    assert_eq!(unwound_texts("range(1, 10, 3)"), names(&["1", "4", "7", "10"]));
    assert_eq!(unwound_texts("range(1, 9, 3)"), names(&["1", "4", "7"]));
    assert_eq!(unwound_texts("range(5, 1, -2)"), names(&["5", "3", "1"]));
    assert_eq!(unwound_texts("range(2, 3)"), names(&["2", "3"]));
    assert_eq!(unwound_texts("range(1, 0)"), names(&[]));
    match unwind("range(1, 2, 0)") {
        Err(PolygraphError::UnsupportedFeature { feature }) => {
            assert_eq!(feature, "range() with step=0");
        }
        other => panic!("{other:?}"),
    }
}

#[test]
fn pieces_of_texts_are_unwound() {
    assert_eq!(unwound_texts("split('a,b,', ',')"), names(&["a", "b", ""]));
    assert_eq!(unwound_texts("split('aXXXb', 'XX')"), names(&["a", "Xb"]));
    assert_eq!(unwound_texts("split('ab', '')"), names(&["a", "b"]));
}

#[test]
fn elements_that_are_null_have_no_value() {
    match unwind("[1, null]").unwrap() {
        GraphPattern::Values { variables, bindings } => {
            assert_eq!(variables, names(&["x", "__sk_x"]));
            assert_eq!(bindings.len(), 2);
            assert_eq!(bindings[1][0], None);
            assert!(bindings[1][1].is_some());
        }
        other => panic!("{other:?}"),
    }
}

#[test]
fn elements_are_found() {
    let mut s = scope();
    s.with_list_vars.insert("l".to_string(), expr("[1, 2]"));
    for t in ["[1, 2] + [3]", "l + [3]", "[[1, 2, 3]][0]"] {
        let list = resolve_literal_list(&expr(t), &s, HOPS).unwrap();
        assert_eq!(list, vec![expr("1"), expr("2"), expr("3")]);
        assert_eq!(try_resolve_to_items(&expr(t), &s, HOPS), Some(list));
    }
    assert_eq!(resolve_literal_list(&expr("[1] + 2"), &s, HOPS), None);
    let items = try_resolve_to_items(&expr("[1] + 2"), &s, HOPS);
    assert_eq!(items, Some(vec![expr("1"), expr("2")]));
    let items = try_resolve_to_items(&expr("[1, 2, 3][1..]"), &s, HOPS);
    assert_eq!(items, Some(vec![expr("2"), expr("3")]));
    assert_eq!(try_resolve_to_items(&expr("m"), &s, HOPS), None);
}

#[test]
fn long_chains_of_properties_are_followed() {
    let mut props: NameMap<Expression> = NameMap::new();
    for i in 0..1200 {
        props.insert(format!("p{i}"), expr(&format!("n.p{}", i + 1)));
    }
    props.insert("p1200".to_string(), expr("[1]"));
    props.insert("loop".to_string(), expr("n.loop"));
    let mut s = scope();
    assert_eq!(find_hops(&s), 0);
    s.node_props_from_create.insert("n".to_string(), props);
    assert_eq!(find_hops(&s), 1202);
    let list = resolve_literal_list(&expr("n.p0"), &s, find_hops(&s));
    assert_eq!(list, Some(vec![expr("1")]));
    assert_eq!(resolve_literal_list(&expr("n.loop"), &s, find_hops(&s)), None);
}

#[test]
fn long_chains_of_variables_are_followed() {
    let mut s = state();
    for i in 0..200 {
        s.scope.with_list_vars.insert(format!("v{i}"), expr(&format!("v{}", i + 1)));
    }
    s.scope.with_list_vars.insert("v200".to_string(), expr("[7]"));
    let u = UnwindClause { expression: expr("v0"), variable: "x".to_string() };
    let unit = GraphPattern::Bgp { patterns: vec![] };
    match s.translate_unwind_clause(&u, unit) {
        Ok(p) => assert!(format!("{p:?}").contains("\"7\""), "{p:?}"),
        Err(x) => panic!("{x:?}"),
    }
}

#[test]
fn each_property_takes_a_variable_of_its_own() {
    let mut out = Output::new();
    let mut extra = vec![];
    let mut taken = vec![];
    for t in ["n.a", "n.a", "m.a"] {
        match translate_expr(&expr(t), &scope(), &mut out, &mut extra).unwrap() {
            Expr::Variable(v) => taken.push(v),
            other => panic!("{other:?}"),
        }
    }
    assert_eq!(taken, vec!["__n_a_0", "__n_a_1", "__m_a_2"]);
    assert_eq!(extra.len(), 3);
    assert_eq!(extra[2].subject, Term::Variable("m".to_string()));
    assert_eq!(extra[2].object, Term::Variable("__m_a_2".to_string()));
}

#[test]
fn unknown_lists_are_not_unwound() {
    assert!(unwind("foo(1)").is_err());
}

#[test]
fn fresh_names_differ() {
    let mut out = Output::new();
    assert_eq!(out.fresh_var("a"), "__a_0");
    assert_eq!(out.fresh_var("a"), "__a_1");
    assert_eq!(out.fresh_var("a_1"), "__a_1_2");
}

// ── Temporal properties ──────────────────────────────────────────────────────

#[derive(Clone, Debug, PartialEq)]
enum Value {
    Text(String),
    Number(f64),
    Truth(bool),
}

fn number(v: &Value) -> f64 {
    match v {
        Value::Text(t) => t.parse().unwrap(),
        Value::Number(n) => *n,
        Value::Truth(_) => panic!("{v:?}"),
    }
}

fn text(v: &Value) -> String {
    match v {
        Value::Text(t) => t.clone(),
        _ => panic!("{v:?}"),
    }
}

/// What a SPARQL engine makes of the expression, with numbers as doubles.
fn value(e: &Expr, known: &[(String, Value)]) -> Value {
    let n = |e: &Expr| number(&value(e, known));
    let t = |e: &Expr| text(&value(e, known));
    match e {
        Expr::Literal(l) => match l.datatype {
            Some(_) => Value::Number(l.value.parse().unwrap()),
            None => Value::Text(l.value.clone()),
        },
        Expr::Variable(v) => known.iter().find(|(k, _)| k == v).unwrap().1.clone(),
        Expr::Equal(a, b) => Value::Truth(value(a, known) == value(b, known)),
        Expr::Add(a, b) => Value::Number(n(a) + n(b)),
        Expr::Subtract(a, b) => Value::Number(n(a) - n(b)),
        Expr::Multiply(a, b) => Value::Number(n(a) * n(b)),
        Expr::Divide(a, b) => Value::Number(n(a) / n(b)),
        Expr::UnaryMinus(a) => Value::Number(-n(a)),
        Expr::If(c, a, b) => match value(c, known) {
            Value::Truth(true) => value(a, known),
            Value::Truth(false) => value(b, known),
            other => panic!("{other:?}"),
        },
        Expr::Call(f, args) => match f {
            Function::Str => Value::Text(t(&args[0])),
            Function::SubStr => {
                let from = n(&args[1]) as usize - 1;
                let len = n(&args[2]) as usize;
                Value::Text(t(&args[0]).chars().skip(from).take(len).collect())
            }
            Function::StrAfter => {
                let (whole, part) = (t(&args[0]), t(&args[1]));
                Value::Text(whole.split_once(&part).map_or("", |p| p.1).to_string())
            }
            Function::StrBefore => {
                let (whole, part) = (t(&args[0]), t(&args[1]));
                Value::Text(whole.split_once(&part).map_or("", |p| p.0).to_string())
            }
            Function::Contains => Value::Truth(t(&args[0]).contains(&t(&args[1]))),
            Function::Concat => Value::Text(format!("{}{}", t(&args[0]), t(&args[1]))),
            Function::Floor => Value::Number(n(&args[0]).floor()),
            Function::Ceil => Value::Number(n(&args[0]).ceil()),
            _ => panic!("{e:?}"),
        },
        Expr::CustomCall(f, args) => {
            if f == INTEGER {
                Value::Number(n(&args[0]).trunc())
            } else {
                assert_eq!(f, "http://www.w3.org/2001/XMLSchema#decimal");
                Value::Number(n(&args[0]))
            }
        }
        _ => panic!("{e:?}"),
    }
}

fn property(of: &str, name: &str) -> Value {
    let mut out = Output::new();
    let e = out.temporal_prop_binds(&var("t"), name).unwrap();
    let mut known = vec![("t".to_string(), Value::Text(of.to_string()))];
    for (v, e) in &out.pending_pre_extends {
        let x = value(e, &known);
        known.push((v.clone(), x));
    }
    value(&e, &known)
}

fn has_properties(of: &str, want: &[(&str, f64)]) {
    for (name, n) in want {
        assert_eq!(property(of, name), Value::Number(*n), "{name} of {of}");
    }
}

#[test]
fn properties_of_dates() {
    has_properties(
        "2024-12-30",
        &[
            ("year", 2024.0),
            ("month", 12.0),
            ("day", 30.0),
            ("quarter", 4.0),
            ("weekDay", 1.0),
            ("ordinalDay", 365.0),
            ("weekYear", 2025.0),
            ("week", 1.0),
            ("dayOfQuarter", 91.0),
        ],
    );
    has_properties(
        "2021-01-03",
        &[
            ("quarter", 1.0),
            ("weekDay", 7.0),
            ("ordinalDay", 3.0),
            ("weekYear", 2020.0),
            ("week", 53.0),
            ("dayOfQuarter", 3.0),
        ],
    );
}

#[test]
fn properties_of_times() {
    has_properties(
        "1970-01-02T03:04:05.678+01:00",
        &[
            ("hour", 3.0),
            ("minute", 4.0),
            ("second", 5.0),
            ("millisecond", 678.0),
            ("microsecond", 678000.0),
            ("nanosecond", 678000000.0),
            ("offsetMinutes", 60.0),
            ("offsetSeconds", 3600.0),
            ("epochSeconds", 93845.0),
            ("epochMillis", 93845678.0),
        ],
    );
    let zoned = "1970-01-02T03:04:05+01:00[Europe/Paris]";
    assert_eq!(property(zoned, "offset"), Value::Text("+01:00".to_string()));
    assert_eq!(property(zoned, "timezone"), Value::Text("Europe/Paris".to_string()));
    assert_eq!(property("12:00Z", "timezone"), Value::Text("Z".to_string()));
}

#[test]
fn properties_of_durations() {
    has_properties(
        "P1Y5M10DT12H30M15.25S",
        &[
            ("years", 1.0),
            ("months", 17.0),
            ("quarters", 5.0),
            ("weeks", 1.0),
            ("days", 10.0),
            ("hours", 12.0),
            ("minutes", 750.0),
            ("seconds", 45015.0),
            ("milliseconds", 45015250.0),
            ("microseconds", 45015250000.0),
            ("nanoseconds", 45015250000000.0),
            ("quartersOfYear", 1.0),
            ("monthsOfQuarter", 2.0),
            ("monthsOfYear", 5.0),
            ("daysOfWeek", 3.0),
            ("minutesOfHour", 30.0),
            ("secondsOfMinute", 15.0),
            ("millisecondsOfSecond", 250.0),
            ("microsecondsOfSecond", 250000.0),
            ("nanosecondsOfSecond", 250000000.0),
        ],
    );
}

#[test]
fn dates_that_are_written_are_read_back() {
    let written = |t: &str| match expr_to_ground_term(&expr(t)).unwrap() {
        Term::Literal(l) => l.value,
        other => panic!("{other:?}"),
    };
    let moment = written(
        "datetime({year: 2024, month: 2, day: 29, hour: 7, minute: 5, second: 9, timezone: '+01:00'})",
    );
    has_properties(
        &moment,
        &[
            ("year", 2024.0),
            ("month", 2.0),
            ("day", 29.0),
            ("hour", 7.0),
            ("minute", 5.0),
            ("second", 9.0),
            ("ordinalDay", 60.0),
            ("offsetMinutes", 60.0),
        ],
    );
    let time = written("localtime({hour: 23, minute: 59})");
    has_properties(&time, &[("hour", 23.0), ("minute", 59.0), ("second", 0.0)]);
}

#[test]
fn unknown_properties_have_no_value() {
    let mut out = Output::new();
    assert_eq!(out.temporal_prop_binds(&var("t"), "era"), None);
    assert_eq!(out.pending_pre_extends.len(), 65);
    assert_eq!(out.pending_pre_extends[0].0, "____tp_Y_0");
}
