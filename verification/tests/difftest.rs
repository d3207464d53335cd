//! Runs, and what is reported of them.
use polygraph::difftest::report::{ComparisonOutcome, RunReport};
use polygraph::difftest::run::{
    advance, begin, Action, Answer, Event, QuerySpec, Select, Stage, Transpiled,
};
use polygraph::difftest::store::proceed;
use polygraph::difftest::value::{term_to_value, write_listed_value, Term, Value};

const BASE: &str = "http://x/";

fn query(insert: &str) -> QuerySpec {
    QuerySpec {
        name: "q".to_string(),
        spec_ref: "s".to_string(),
        cypher: "RETURN 1".to_string(),
        insert: insert.to_string(),
    }
}

fn step(q: &QuerySpec, stage: Stage, event: Event) -> (Stage, Action) {
    advance(q, stage, event, BASE)
}

fn report(action: Action) -> RunReport {
    match action {
        Action::Report(r) => {
            assert_eq!(r.name, "q");
            assert_eq!(r.spec_ref, "s");
            r
        }
        other => panic!("{other:?}"),
    }
}

fn failed(action: Action) -> (String, String) {
    let r = report(action);
    assert!(!r.passed());
    assert_eq!(r.outcome, ComparisonOutcome::Match);
    assert!(r.actual_rows.is_empty());
    (r.sparql, r.error.unwrap())
}

fn transpiled(t: Result<Transpiled, String>) -> (Stage, Action) {
    step(&query("{}"), Stage::Transpiling, Event::Transpiled(t))
}

fn literal(value: &str, datatype: &str) -> Term {
    Term::Literal { value: value.to_string(), datatype: datatype.to_string() }
}

#[test]
fn a_run_that_matches_passes() {
    let q = query("INSERT DATA { a }");
    let (stage, action) = begin();
    assert!(matches!(action, Action::OpenStore));
    let (stage, action) = step(&q, stage, Event::Opened(Ok(())));
    assert!(matches!(action, Action::Update(t) if t == "INSERT DATA { a }"));
    let (stage, action) = step(&q, stage, Event::Updated(Ok(())));
    assert!(matches!(action, Action::Transpile(t) if t == "RETURN 1"));
    let complete = Transpiled::Complete("SELECT".to_string());
    let (stage, action) = step(&q, stage, Event::Transpiled(Ok(complete)));
    assert!(matches!(action, Action::Query(t) if t == "SELECT"));
    let rows = vec![vec![
        Some(literal("7", "http://www.w3.org/2001/XMLSchema#integer")),
        None,
    ]];
    let answer = Answer::Solutions(vec!["n".to_string(), "m".to_string()], Ok(rows));
    let (stage, action) = step(&q, stage, Event::Answered(Ok(answer)));
    match action {
        Action::Compare { columns, rows } => {
            assert_eq!(columns, vec!["n", "m"]);
            assert_eq!(rows, vec![vec![Value::Int(7), Value::Null]]);
        }
        other => panic!("{other:?}"),
    }
    let (stage, action) = step(&q, stage, Event::Compared(ComparisonOutcome::Match));
    assert!(matches!(stage, Stage::Ended));
    let r = report(action);
    assert!(r.passed());
    assert_eq!(r.sparql, "SELECT");
    assert_eq!(r.actual_rows, vec![vec![Value::Int(7), Value::Null]]);
    assert!(r.error.is_none());
}

#[test]
fn a_mismatch_does_not_pass() {
    let stage = Stage::Comparing {
        sparql: "SELECT".to_string(),
        columns: vec![],
        rows: vec![],
    };
    let outcome = ComparisonOutcome::Mismatch("rows".to_string());
    let (_, action) = step(&query("{}"), stage, Event::Compared(outcome));
    assert!(!report(action).passed());
}

#[test]
fn an_empty_fixture_is_not_loaded() {
    let (_, action) = step(&query("INSERT DATA {}"), Stage::Opening, Event::Opened(Ok(())));
    assert!(matches!(action, Action::Transpile(_)));
}

#[test]
fn failures_are_reported_with_what_failed() {
    let q = query("INSERT DATA { a }");
    let error = || Err("e".to_string());
    let (_, a) = step(&q, Stage::Opening, Event::Opened(error()));
    assert_eq!(failed(a), ("".to_string(), "oxigraph store init: e".to_string()));
    let (_, a) = step(&q, Stage::Loading, Event::Updated(error()));
    assert_eq!(failed(a), ("INSERT DATA { a }".to_string(), "fixture load: e".to_string()));
    let (_, a) = transpiled(Err("e".to_string()));
    assert_eq!(failed(a), ("".to_string(), "transpile: e".to_string()));
    let (_, a) = transpiled(Ok(Transpiled::Continuation));
    assert_eq!(
        failed(a),
        ("".to_string(), "L2 continuation: out of scope for curated suite".to_string())
    );
    let (_, a) = step(&q, Stage::Querying("S".to_string()), Event::Answered(Err("e".to_string())));
    assert_eq!(failed(a), ("S".to_string(), "execute: e".to_string()));
    let answer = Answer::Solutions(vec!["n".to_string()], Err("e".to_string()));
    let (_, a) = step(&q, Stage::Querying("S".to_string()), Event::Answered(Ok(answer)));
    let r = report(a);
    assert_eq!(r.actual_columns, vec!["n"]);
    assert_eq!(r.error.as_deref(), Some("solution: e"));
}

#[test]
fn updates_are_carried_out_in_order() {
    let write = Transpiled::Write {
        updates: vec!["U1".to_string(), "U2".to_string()],
        select: Select::Complete("S".to_string()),
    };
    let q = query("{}");
    let (stage, action) = transpiled(Ok(write));
    assert!(matches!(action, Action::Update(t) if t == "U1"));
    let (stage, action) = step(&q, stage, Event::Updated(Ok(())));
    assert!(matches!(action, Action::Update(t) if t == "U2"));
    let (stage, action) = step(&q, stage, Event::Updated(Ok(())));
    assert!(matches!(action, Action::Query(t) if t == "S"));
    let (_, action) = step(&q, stage, Event::Answered(Ok(Answer::Boolean(true))));
    match action {
        Action::Compare { columns, rows } => {
            assert_eq!(columns, vec!["__bool__"]);
            assert_eq!(rows, vec![vec![Value::Bool(true)]]);
        }
        other => panic!("{other:?}"),
    }
}

#[test]
fn an_update_that_fails_ends_the_run() {
    let stage = Stage::Updating {
        updates: vec!["U1".to_string(), "U2".to_string()],
        next: 1,
        select: Select::Nothing,
    };
    let (_, action) = step(&query("{}"), stage, Event::Updated(Err("e".to_string())));
    assert_eq!(failed(action), ("U2".to_string(), "write update: e".to_string()));
}

#[test]
fn a_run_that_only_writes_passes() {
    let write = Transpiled::Write { updates: vec![], select: Select::Nothing };
    let (stage, action) = transpiled(Ok(write));
    assert!(matches!(stage, Stage::Ended));
    assert!(report(action).passed());
}

#[test]
fn a_partial_select_fails() {
    let write = Transpiled::Write { updates: vec![], select: Select::Partial };
    let (_, action) = transpiled(Ok(write));
    assert_eq!(failed(action).1, "unexpected non-Complete select in Write output");
}

#[test]
fn a_graph_has_no_rows() {
    let stage = Stage::Querying("S".to_string());
    let (_, action) = step(&query("{}"), stage, Event::Answered(Ok(Answer::Graph)));
    assert!(matches!(action, Action::Compare { columns, rows }
        if columns.is_empty() && rows.is_empty()));
}

#[test]
fn what_is_not_waited_for_changes_nothing() {
    let (stage, action) = step(&query("{}"), Stage::Opening, Event::Updated(Ok(())));
    assert!(matches!(stage, Stage::Opening));
    assert!(matches!(action, Action::Wait));
    let (stage, action) = step(&query("{}"), Stage::Ended, Event::Opened(Ok(())));
    assert!(matches!(stage, Stage::Ended));
    assert!(matches!(action, Action::Wait));
}

#[test]
fn files_that_cannot_be_read_are_reported() {
    let r = RunReport::unread(&"a.toml".to_string(), "read: e".to_string());
    assert_eq!(r.name, "a.toml");
    assert_eq!(r.spec_ref, "");
    assert_eq!(r.error.as_deref(), Some("read: e"));
    assert!(!r.passed());
}

#[test]
fn terms_are_read_by_their_types() {
    let xsd = |t: &str| format!("http://www.w3.org/2001/XMLSchema#{t}");
    let read = |t: Term| term_to_value(&t, BASE);
    assert_eq!(read(Term::NamedNode("http://x/n1".into())), Value::Node("n1".into()));
    assert_eq!(read(Term::NamedNode("http://y/n1".into())), Value::String("http://y/n1".into()));
    assert_eq!(read(Term::BlankNode("b".into())), Value::Node("b".into()));
    assert_eq!(read(literal("-5", &xsd("integer"))), Value::Int(-5));
    assert_eq!(read(literal("+5", &xsd("long"))), Value::Int(5));
    assert_eq!(read(literal("5", &xsd("int"))), Value::Int(5));
    assert_eq!(
        read(literal("9223372036854775808", &xsd("integer"))),
        Value::String("9223372036854775808".into())
    );
    assert_eq!(
        read(literal("-9223372036854775808", &xsd("integer"))),
        Value::Int(i64::MIN)
    );
    assert_eq!(read(literal("true", &xsd("boolean"))), Value::Bool(true));
    assert_eq!(read(literal("1", &xsd("boolean"))), Value::Bool(false));
    assert_eq!(read(literal("a", &xsd("string"))), Value::String("a".into()));
    assert_eq!(read(literal("a", &xsd("double"))), Value::String("a".into()));
    let double = Term::Literal {
        value: "1.50".to_string(),
        datatype: xsd("double"),
    };
    assert_eq!(read(double), Value::Float("1.5".into()));
    assert_eq!(read(Term::Other("<<t>>".into())), Value::String("<<t>>".into()));
}

#[test]
fn values_in_lists_are_quoted_unless_they_are_bare() {
    let integer = "http://www.w3.org/2001/XMLSchema#integer";
    let string = "http://www.w3.org/2001/XMLSchema#string";
    assert_eq!(write_listed_value("1", integer), "1");
    assert_eq!(write_listed_value("it's \\ ok", string), "'it\\'s \\\\ ok'");
}

// ── The store ────────────────────────────────────────────────────────────────

const ONE: &str = "INSERT DATA { <http://x/a> <http://x/p> 1 }";
const TWO: &str = "INSERT DATA { <http://x/a> <http://x/p> 2 }";

#[test]
fn the_store_is_opened_and_filled() {
    let q = query(ONE);
    let mut store = None;
    let (stage, action) = begin();
    let (stage, action) = proceed(&q, stage, action, &mut store, BASE);
    assert!(matches!(stage, Stage::Transpiling));
    assert!(matches!(action, Action::Transpile(t) if t == "RETURN 1"));
    assert_eq!(store.unwrap().len().unwrap(), 1);
}

#[test]
fn a_fixture_that_is_no_update_fails() {
    let q = query("no update");
    let mut store = None;
    let (stage, action) = begin();
    let (_, action) = proceed(&q, stage, action, &mut store, BASE);
    let (sparql, error) = failed(action);
    assert_eq!(sparql, "no update");
    assert!(error.starts_with("fixture load: "), "{error}");
    assert!(error.len() > "fixture load: ".len());
}

#[test]
fn updates_reach_the_store() {
    let q = query("INSERT DATA {}");
    let mut store = None;
    let (stage, action) = begin();
    let (stage, _) = proceed(&q, stage, action, &mut store, BASE);
    let write = Transpiled::Write {
        updates: vec![ONE.to_string(), TWO.to_string()],
        select: Select::Complete("SELECT * {}".to_string()),
    };
    let (stage, action) = step(&q, stage, Event::Transpiled(Ok(write)));
    let (stage, action) = proceed(&q, stage, action, &mut store, BASE);
    assert!(matches!(&action, Action::Query(t) if t == "SELECT * {}"));
    assert_eq!(store.as_ref().unwrap().len().unwrap(), 2);
    let (_, action) = proceed(&q, stage, action, &mut store, BASE);
    assert!(matches!(action, Action::Query(_)));
}

#[test]
fn an_update_that_the_store_refuses_ends_the_run() {
    let q = query("{}");
    let mut store = None;
    let (stage, action) = begin();
    let (stage, _) = proceed(&q, stage, action, &mut store, BASE);
    let write = Transpiled::Write {
        updates: vec![ONE.to_string(), "no update".to_string(), TWO.to_string()],
        select: Select::Nothing,
    };
    let (stage, action) = step(&q, stage, Event::Transpiled(Ok(write)));
    let (_, action) = proceed(&q, stage, action, &mut store, BASE);
    let (sparql, error) = failed(action);
    assert_eq!(sparql, "no update");
    assert!(error.starts_with("write update: "), "{error}");
    assert_eq!(store.unwrap().len().unwrap(), 1);
}

#[test]
fn an_update_without_a_store_fails() {
    let q = query(ONE);
    let mut store = None;
    let (stage, _) = begin();
    let (stage, action) = step(&q, stage, Event::Opened(Ok(())));
    assert!(matches!(action, Action::Update(_)));
    let (_, action) = proceed(&q, stage, action, &mut store, BASE);
    let (sparql, error) = failed(action);
    assert_eq!(sparql, ONE);
    assert_eq!(error, "fixture load: no store");
    assert!(store.is_none());
}
