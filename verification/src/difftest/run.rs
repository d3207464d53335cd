//! The course of a run: what is to be done next, after what has happened.
use vstd::prelude::*;

use crate::difftest::report::{ComparisonOutcome, RunReport};
#[allow(unused_imports)]
use crate::difftest::report::{bare_report, opt_text, Outcome, Report};
use crate::difftest::value::{ends_with, read_rows, Term, Value};
#[allow(unused_imports)]
use crate::difftest::value::{
    ends_with_spec, rows_values, term_rows_of, value_rows_of, values_of, TermModel, ValueModel,
};
#[allow(unused_imports)]
use crate::text::texts;

verus! {

/// A query to run, with the update that fills the store before it.
#[derive(Clone, Debug)]
pub struct QuerySpec {
    pub name: String,
    pub spec_ref: String,
    pub cypher: String,
    pub insert: String,
}

/// The model of a [`QuerySpec`].
pub ghost struct Asked {
    pub name: Seq<char>,
    pub spec_ref: Seq<char>,
    pub cypher: Seq<char>,
    pub insert: Seq<char>,
}

impl View for QuerySpec {
    type V = Asked;

    open spec fn view(&self) -> Asked {
        Asked {
            name: self.name@,
            spec_ref: self.spec_ref@,
            cypher: self.cypher@,
            insert: self.insert@,
        }
    }
}

/// The query that follows the updates of a write.
#[derive(Clone, Debug)]
pub enum Select {
    /// There is none
    Nothing,
    Complete(String),
    /// One that is not complete
    Partial,
}

/// What a query is translated to.
#[allow(inconsistent_fields)]
#[derive(Clone, Debug)]
pub enum Transpiled {
    Complete(String),
    Continuation,
    Write { updates: Vec<String>, select: Select },
}

/// What a store answers to a query. Reading the solutions can fail.
#[derive(Debug)]
pub enum Answer {
    Solutions(Vec<String>, Result<Vec<Vec<Option<Term>>>, String>),
    Boolean(bool),
    Graph,
}

/// What has happened; a failure comes with its message.
#[derive(Debug)]
pub enum Event {
    Opened(Result<(), String>),
    Updated(Result<(), String>),
    Transpiled(Result<Transpiled, String>),
    Answered(Result<Answer, String>),
    Compared(ComparisonOutcome),
}

/// What a run waits for.
#[allow(inconsistent_fields)]
#[derive(Debug)]
pub enum Stage {
    Opening,
    Loading,
    Transpiling,
    /// `next` is the number of the update that is being carried out
    Updating { updates: Vec<String>, next: usize, select: Select },
    Querying(String),
    Comparing { sparql: String, columns: Vec<String>, rows: Vec<Vec<Value>> },
    Ended,
}

/// What is to be done next.
#[allow(inconsistent_fields)]
#[derive(Debug)]
pub enum Action {
    OpenStore,
    Update(String),
    Transpile(String),
    Query(String),
    Compare { columns: Vec<String>, rows: Vec<Vec<Value>> },
    Report(RunReport),
    /// Nothing: what has happened is not what the run waits for
    Wait,
}

// ── Models ───────────────────────────────────────────────────────────────────

pub ghost enum SelectModel {
    Nothing,
    Complete(Seq<char>),
    Partial,
}

impl View for Select {
    type V = SelectModel;

    open spec fn view(&self) -> SelectModel {
        match *self {
            Select::Nothing => SelectModel::Nothing,
            Select::Complete(t) => SelectModel::Complete(t@),
            Select::Partial => SelectModel::Partial,
        }
    }
}

pub ghost enum TranspiledModel {
    Complete(Seq<char>),
    Continuation,
    Write(Seq<Seq<char>>, SelectModel),
}

impl View for Transpiled {
    type V = TranspiledModel;

    open spec fn view(&self) -> TranspiledModel {
        match *self {
            Transpiled::Complete(t) => TranspiledModel::Complete(t@),
            Transpiled::Continuation => TranspiledModel::Continuation,
            Transpiled::Write { updates, select } => TranspiledModel::Write(
                texts(updates@),
                select@,
            ),
        }
    }
}

pub ghost enum AnswerModel {
    Solutions(Seq<Seq<char>>, Result<Seq<Seq<Option<TermModel>>>, Seq<char>>),
    Boolean(bool),
    Graph,
}

impl View for Answer {
    type V = AnswerModel;

    open spec fn view(&self) -> AnswerModel {
        match *self {
            Answer::Solutions(v, r) => AnswerModel::Solutions(
                texts(v@),
                match r {
                    Ok(rows) => Ok(term_rows_of(rows@)),
                    Err(e) => Err(e@),
                },
            ),
            Answer::Boolean(b) => AnswerModel::Boolean(b),
            Answer::Graph => AnswerModel::Graph,
        }
    }
}

pub ghost enum EventModel {
    Opened(Result<(), Seq<char>>),
    Updated(Result<(), Seq<char>>),
    Transpiled(Result<TranspiledModel, Seq<char>>),
    Answered(Result<AnswerModel, Seq<char>>),
    Compared(Outcome),
}

pub open spec fn nothing_or(r: Result<(), String>) -> Result<(), Seq<char>> {
    match r {
        Ok(x) => Ok(()),
        Err(e) => Err(e@),
    }
}

impl View for Event {
    type V = EventModel;

    open spec fn view(&self) -> EventModel {
        match *self {
            Event::Opened(r) => EventModel::Opened(nothing_or(r)),
            Event::Updated(r) => EventModel::Updated(nothing_or(r)),
            Event::Transpiled(r) => EventModel::Transpiled(
                match r {
                    Ok(t) => Ok(t@),
                    Err(e) => Err(e@),
                },
            ),
            Event::Answered(r) => EventModel::Answered(
                match r {
                    Ok(a) => Ok(a@),
                    Err(e) => Err(e@),
                },
            ),
            Event::Compared(o) => EventModel::Compared(o@),
        }
    }
}

pub ghost enum StageModel {
    Opening,
    Loading,
    Transpiling,
    Updating(Seq<Seq<char>>, int, SelectModel),
    Querying(Seq<char>),
    Comparing(Seq<char>, Seq<Seq<char>>, Seq<Seq<ValueModel>>),
    Ended,
}

impl View for Stage {
    type V = StageModel;

    open spec fn view(&self) -> StageModel {
        match *self {
            Stage::Opening => StageModel::Opening,
            Stage::Loading => StageModel::Loading,
            Stage::Transpiling => StageModel::Transpiling,
            Stage::Updating { updates, next, select } => StageModel::Updating(
                texts(updates@),
                next as int,
                select@,
            ),
            Stage::Querying(t) => StageModel::Querying(t@),
            Stage::Comparing { sparql, columns, rows } => StageModel::Comparing(
                sparql@,
                texts(columns@),
                value_rows_of(rows@),
            ),
            Stage::Ended => StageModel::Ended,
        }
    }
}

pub ghost enum ActionModel {
    OpenStore,
    Update(Seq<char>),
    Transpile(Seq<char>),
    Query(Seq<char>),
    Compare(Seq<Seq<char>>, Seq<Seq<ValueModel>>),
    Report(Report),
    Wait,
}

impl View for Action {
    type V = ActionModel;

    open spec fn view(&self) -> ActionModel {
        match *self {
            Action::OpenStore => ActionModel::OpenStore,
            Action::Update(t) => ActionModel::Update(t@),
            Action::Transpile(t) => ActionModel::Transpile(t@),
            Action::Query(t) => ActionModel::Query(t@),
            Action::Compare { columns, rows } => ActionModel::Compare(
                texts(columns@),
                value_rows_of(rows@),
            ),
            Action::Report(r) => ActionModel::Report(r@),
            Action::Wait => ActionModel::Wait,
        }
    }
}

// ── The course of a run ──────────────────────────────────────────────────────

/// The end of a run without rows.
pub open spec fn ended(
    q: Asked,
    sparql: Seq<char>,
    columns: Seq<Seq<char>>,
    error: Option<Seq<char>>,
) -> (StageModel, ActionModel) {
    (
        StageModel::Ended,
        ActionModel::Report(bare_report(q.name, q.spec_ref, sparql, columns, error)),
    )
}

/// The end of a run that failed.
pub open spec fn failed(q: Asked, sparql: Seq<char>, error: Seq<char>) -> (StageModel, ActionModel) {
    ended(q, sparql, seq![], Some(error))
}

/// The store is filled, unless there is nothing to put in it.
pub open spec fn after_opening(q: Asked) -> (StageModel, ActionModel) {
    if ends_with_spec(q.insert, "{}"@) {
        (StageModel::Transpiling, ActionModel::Transpile(q.cypher))
    } else {
        (StageModel::Loading, ActionModel::Update(q.insert))
    }
}

/// The query is asked.
pub open spec fn querying(sparql: Seq<char>) -> (StageModel, ActionModel) {
    (StageModel::Querying(sparql), ActionModel::Query(sparql))
}

/// The `i`th update is carried out, or after the last the query that follows
/// them.
pub open spec fn updating(q: Asked, updates: Seq<Seq<char>>, i: int, select: SelectModel) -> (
    StageModel,
    ActionModel,
) {
    if i < updates.len() {
        (StageModel::Updating(updates, i, select), ActionModel::Update(updates[i]))
    } else {
        match select {
            SelectModel::Nothing => ended(q, seq![], seq![], None),
            SelectModel::Complete(sparql) => querying(sparql),
            SelectModel::Partial => failed(
                q,
                seq![],
                "unexpected non-Complete select in Write output"@,
            ),
        }
    }
}

pub open spec fn after_transpiling(q: Asked, t: TranspiledModel) -> (StageModel, ActionModel) {
    match t {
        TranspiledModel::Complete(sparql) => querying(sparql),
        TranspiledModel::Continuation => failed(
            q,
            seq![],
            "L2 continuation: out of scope for curated suite"@,
        ),
        TranspiledModel::Write(updates, select) => updating(q, updates, 0, select),
    }
}

/// The rows of an answer are compared with those that were expected.
pub open spec fn comparing(
    sparql: Seq<char>,
    columns: Seq<Seq<char>>,
    rows: Seq<Seq<ValueModel>>,
) -> (StageModel, ActionModel) {
    (StageModel::Comparing(sparql, columns, rows), ActionModel::Compare(columns, rows))
}

pub open spec fn after_answer(q: Asked, sparql: Seq<char>, a: AnswerModel, base: Seq<char>) -> (
    StageModel,
    ActionModel,
) {
    match a {
        AnswerModel::Solutions(columns, r) => match r {
            Ok(rows) => comparing(sparql, columns, rows_values(rows, base)),
            Err(e) => ended(q, sparql, columns, Some("solution: "@ + e)),
        },
        AnswerModel::Boolean(b) => comparing(
            sparql,
            seq!["__bool__"@],
            seq![seq![ValueModel::Bool(b)]],
        ),
        AnswerModel::Graph => comparing(sparql, seq![], seq![]),
    }
}

/// What a run waits for next and what is to be done, after what has happened.
/// What the run does not wait for changes nothing.
pub open spec fn next(q: Asked, stage: StageModel, event: EventModel, base: Seq<char>) -> (
    StageModel,
    ActionModel,
) {
    match (stage, event) {
        (StageModel::Opening, EventModel::Opened(r)) => match r {
            Ok(_) => after_opening(q),
            Err(e) => failed(q, seq![], "oxigraph store init: "@ + e),
        },
        (StageModel::Loading, EventModel::Updated(r)) => match r {
            Ok(_) => (StageModel::Transpiling, ActionModel::Transpile(q.cypher)),
            Err(e) => failed(q, q.insert, "fixture load: "@ + e),
        },
        (StageModel::Transpiling, EventModel::Transpiled(r)) => match r {
            Ok(t) => after_transpiling(q, t),
            Err(e) => failed(q, seq![], "transpile: "@ + e),
        },
        (StageModel::Updating(updates, i, select), EventModel::Updated(r)) => match r {
            Ok(_) => updating(q, updates, i + 1, select),
            Err(e) => failed(q, updates[i], "write update: "@ + e),
        },
        (StageModel::Querying(sparql), EventModel::Answered(r)) => match r {
            Ok(a) => after_answer(q, sparql, a, base),
            Err(e) => failed(q, sparql, "execute: "@ + e),
        },
        (StageModel::Comparing(sparql, columns, rows), EventModel::Compared(outcome)) => (
            StageModel::Ended,
            ActionModel::Report(
                Report {
                    name: q.name,
                    spec_ref: q.spec_ref,
                    outcome,
                    sparql,
                    columns,
                    rows,
                    error: None,
                },
            ),
        ),
        _ => (stage, ActionModel::Wait),
    }
}

/// Whether a stage is one that a run can be in: the update that is being carried
/// out is one of them.
pub open spec fn is_stage(s: StageModel) -> bool {
    s matches StageModel::Updating(updates, i, select) ==> 0 <= i < updates.len()
}

fn no_texts() -> (r: Vec<String>)
    ensures
        texts(r@) == Seq::<Seq<char>>::empty(),
{
    let r: Vec<String> = Vec::new();
    assert(texts(r@) =~= seq![]);
    r
}

fn end(q: &QuerySpec, sparql: String, columns: Vec<String>, error: Option<String>) -> (r: (
    Stage,
    Action,
))
    ensures
        (r.0@, r.1@) == ended(q@, sparql@, texts(columns@), opt_text(error)),
{
    (Stage::Ended, Action::Report(RunReport::bare(&q.name, &q.spec_ref, sparql, columns, error)))
}

fn fail(q: &QuerySpec, sparql: String, error: String) -> (r: (Stage, Action))
    ensures
        (r.0@, r.1@) == failed(q@, sparql@, error@),
{
    end(q, sparql, no_texts(), Some(error))
}

fn nothing() -> (r: String)
    ensures
        r@ == Seq::<char>::empty(),
{
    let r = String::new();
    assert(r@ =~= seq![]);
    r
}

fn ask(sparql: String) -> (r: (Stage, Action))
    ensures
        (r.0@, r.1@) == querying(sparql@),
{
    (Stage::Querying(sparql.clone()), Action::Query(sparql))
}

fn update(q: &QuerySpec, updates: Vec<String>, i: usize, select: Select) -> (r: (Stage, Action))
    ensures
        (r.0@, r.1@) == updating(q@, texts(updates@), i as int, select@),
        is_stage(r.0@),
{
    if i < updates.len() {
        let here = updates[i].clone();
        (Stage::Updating { updates, next: i, select }, Action::Update(here))
    } else {
        match select {
            Select::Nothing => end(q, nothing(), no_texts(), None),
            Select::Complete(sparql) => ask(sparql),
            Select::Partial => fail(
                q,
                nothing(),
                "unexpected non-Complete select in Write output".to_owned(),
            ),
        }
    }
}

fn clone_value(v: &Value) -> (r: Value)
    ensures
        r@ == v@,
{
    match v {
        Value::Null => Value::Null,
        Value::Bool(b) => Value::Bool(*b),
        Value::Int(n) => Value::Int(*n),
        Value::Float(t) => Value::Float(t.clone()),
        Value::String(t) => Value::String(t.clone()),
        Value::Node(t) => Value::Node(t.clone()),
    }
}

fn clone_values(v: &Vec<Value>) -> (r: Vec<Value>)
    ensures
        values_of(r@) == values_of(v@),
{
    let mut r: Vec<Value> = Vec::new();
    #[verifier::loop_isolation(false)]
    for i in 0..v.len()
        invariant
            r@.len() == i,
            forall|k: int| 0 <= k < i ==> (#[trigger] r@[k])@ == v@[k]@,
    {
        let x = clone_value(&v[i]);
        r.push(x);
    }
    assert(values_of(r@) =~= values_of(v@));
    r
}

fn clone_rows(v: &Vec<Vec<Value>>) -> (r: Vec<Vec<Value>>)
    ensures
        value_rows_of(r@) == value_rows_of(v@),
{
    let mut r: Vec<Vec<Value>> = Vec::new();
    #[verifier::loop_isolation(false)]
    for i in 0..v.len()
        invariant
            r@.len() == i,
            forall|k: int| 0 <= k < i ==> values_of((#[trigger] r@[k])@) == values_of(v@[k]@),
    {
        let x = clone_values(&v[i]);
        r.push(x);
    }
    assert(value_rows_of(r@) =~= value_rows_of(v@));
    r
}

fn compare(sparql: String, columns: Vec<String>, rows: Vec<Vec<Value>>) -> (r: (Stage, Action))
    ensures
        (r.0@, r.1@) == comparing(sparql@, texts(columns@), value_rows_of(rows@)),
{
    let action = Action::Compare {
        columns: crate::text::clone_texts(&columns),
        rows: clone_rows(&rows),
    };
    (Stage::Comparing { sparql, columns, rows }, action)
}

fn take_answer(q: &QuerySpec, sparql: String, a: Answer, base: &str) -> (r: (Stage, Action))
    ensures
        (r.0@, r.1@) == after_answer(q@, sparql@, a@, base@),
{
    match a {
        Answer::Solutions(columns, rows) => match rows {
            Ok(rows) => compare(sparql, columns, read_rows(&rows, base)),
            Err(e) => end(
                q,
                sparql,
                columns,
                Some("solution: ".to_owned().concat(e.as_str())),
            ),
        },
        Answer::Boolean(b) => {
            let mut columns: Vec<String> = Vec::new();
            columns.push("__bool__".to_owned());
            let mut row: Vec<Value> = Vec::new();
            row.push(Value::Bool(b));
            assert(values_of(row@) =~= seq![ValueModel::Bool(b)]);
            let mut rows: Vec<Vec<Value>> = Vec::new();
            rows.push(row);
            assert(texts(columns@) =~= seq!["__bool__"@]);
            assert(value_rows_of(rows@) =~= seq![seq![ValueModel::Bool(b)]]);
            compare(sparql, columns, rows)
        },
        Answer::Graph => {
            let rows: Vec<Vec<Value>> = Vec::new();
            assert(value_rows_of(rows@) =~= seq![]);
            compare(sparql, no_texts(), rows)
        },
    }
}

/// What a run starts with.
pub fn begin() -> (r: (Stage, Action))
    ensures
        r.0@ == StageModel::Opening,
        r.1@ == ActionModel::OpenStore,
{
    (Stage::Opening, Action::OpenStore)
}

/// What a run waits for next, and what is to be done. Nodes have their names
/// under `base`.
pub fn advance(q: &QuerySpec, stage: Stage, event: Event, base: &str) -> (r: (Stage, Action))
    requires
        is_stage(stage@),
    ensures
        (r.0@, r.1@) == next(q@, stage@, event@, base@),
        is_stage(r.0@),
{
    match (stage, event) {
        (Stage::Opening, Event::Opened(r)) => match r {
            Ok(_) => if ends_with(q.insert.as_str(), "{}") {
                (Stage::Transpiling, Action::Transpile(q.cypher.clone()))
            } else {
                (Stage::Loading, Action::Update(q.insert.clone()))
            },
            Err(e) => fail(q, nothing(), "oxigraph store init: ".to_owned().concat(e.as_str())),
        },
        (Stage::Loading, Event::Updated(r)) => match r {
            Ok(_) => (Stage::Transpiling, Action::Transpile(q.cypher.clone())),
            Err(e) => fail(q, q.insert.clone(), "fixture load: ".to_owned().concat(e.as_str())),
        },
        (Stage::Transpiling, Event::Transpiled(r)) => match r {
            Ok(t) => match t {
                Transpiled::Complete(sparql) => ask(sparql),
                Transpiled::Continuation => fail(
                    q,
                    nothing(),
                    "L2 continuation: out of scope for curated suite".to_owned(),
                ),
                Transpiled::Write { updates, select } => update(q, updates, 0, select),
            },
            Err(e) => fail(q, nothing(), "transpile: ".to_owned().concat(e.as_str())),
        },
        (Stage::Updating { updates, next, select }, Event::Updated(r)) => match r {
            Ok(_) => {
                let n: usize = updates.len();
                assert(next < texts(updates@).len() == n);
                update(q, updates, next + 1, select)
            },
            Err(e) => fail(
                q,
                updates[next].clone(),
                "write update: ".to_owned().concat(e.as_str()),
            ),
        },
        (Stage::Querying(sparql), Event::Answered(r)) => match r {
            Ok(a) => take_answer(q, sparql, a, base),
            Err(e) => fail(q, sparql, "execute: ".to_owned().concat(e.as_str())),
        },
        (Stage::Comparing { sparql, columns, rows }, Event::Compared(outcome)) => (
            Stage::Ended,
            Action::Report(
                RunReport {
                    name: q.name.clone(),
                    spec_ref: q.spec_ref.clone(),
                    outcome,
                    sparql,
                    actual_columns: columns,
                    actual_rows: rows,
                    error: None,
                },
            ),
        ),
        (stage, _) => (stage, Action::Wait),
    }
}

} // verus!
