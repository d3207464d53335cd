//! What is reported of a run.
use vstd::prelude::*;

use crate::difftest::value::Value;
#[allow(unused_imports)]
use crate::difftest::value::{value_rows_of, ValueModel};
#[allow(unused_imports)]
use crate::text::texts;

verus! {

/// Whether the rows of a run are those that were expected, and if not, why.
#[derive(Clone, Debug, PartialEq)]
pub enum ComparisonOutcome {
    Match,
    Mismatch(String),
}

/// What is reported of one run.
#[derive(Debug)]
pub struct RunReport {
    pub name: String,
    pub spec_ref: String,
    pub outcome: ComparisonOutcome,
    pub sparql: String,
    pub actual_columns: Vec<String>,
    pub actual_rows: Vec<Vec<Value>>,
    pub error: Option<String>,
}

/// The model of a [`ComparisonOutcome`].
pub ghost enum Outcome {
    Match,
    Mismatch(Seq<char>),
}

impl View for ComparisonOutcome {
    type V = Outcome;

    open spec fn view(&self) -> Outcome {
        match *self {
            ComparisonOutcome::Match => Outcome::Match,
            ComparisonOutcome::Mismatch(why) => Outcome::Mismatch(why@),
        }
    }
}

/// The model of a [`RunReport`].
pub ghost struct Report {
    pub name: Seq<char>,
    pub spec_ref: Seq<char>,
    pub outcome: Outcome,
    pub sparql: Seq<char>,
    pub columns: Seq<Seq<char>>,
    pub rows: Seq<Seq<ValueModel>>,
    pub error: Option<Seq<char>>,
}

pub open spec fn opt_text(o: Option<String>) -> Option<Seq<char>> {
    match o {
        Some(t) => Some(t@),
        None => None,
    }
}

impl View for RunReport {
    type V = Report;

    open spec fn view(&self) -> Report {
        Report {
            name: self.name@,
            spec_ref: self.spec_ref@,
            outcome: self.outcome@,
            sparql: self.sparql@,
            columns: texts(self.actual_columns@),
            rows: value_rows_of(self.actual_rows@),
            error: opt_text(self.error),
        }
    }
}

/// Whether a run ended without an error, with the rows that were expected.
pub open spec fn is_passed(r: Report) -> bool {
    r.error is None && r.outcome is Match
}

/// The report of a run that has no rows: of one that failed, or that only wrote.
pub open spec fn bare_report(
    name: Seq<char>,
    spec_ref: Seq<char>,
    sparql: Seq<char>,
    columns: Seq<Seq<char>>,
    error: Option<Seq<char>>,
) -> Report {
    Report { name, spec_ref, outcome: Outcome::Match, sparql, columns, rows: seq![], error }
}

impl RunReport {
    /// Whether a run ended without an error, with the rows that were expected.
    pub fn passed(&self) -> (r: bool)
        ensures
            r == is_passed(self@),
    {
        self.error.is_none() && match self.outcome {
            ComparisonOutcome::Match => true,
            ComparisonOutcome::Mismatch(_) => false,
        }
    }

    /// The report of a run that has no rows.
    pub fn bare(
        name: &String,
        spec_ref: &String,
        sparql: String,
        columns: Vec<String>,
        error: Option<String>,
    ) -> (r: Self)
        ensures
            r@ == bare_report(name@, spec_ref@, sparql@, texts(columns@), opt_text(error)),
    {
        let rows: Vec<Vec<Value>> = Vec::new();
        assert(value_rows_of(rows@) =~= seq![]);
        RunReport {
            name: name.clone(),
            spec_ref: spec_ref.clone(),
            outcome: ComparisonOutcome::Match,
            sparql,
            actual_columns: columns,
            actual_rows: rows,
            error,
        }
    }

    /// The report on a file of which no query could be read.
    pub fn unread(path: &String, error: String) -> (r: Self)
        ensures
            r@ == bare_report(path@, ""@, ""@, seq![], Some(error@)),
    {
        let columns: Vec<String> = Vec::new();
        assert(texts(columns@) =~= seq![]);
        RunReport::bare(path, &"".to_owned(), "".to_owned(), columns, Some(error))
    }
}

} // verus!
