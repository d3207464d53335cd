//! The values in the rows of a result, and the terms that they are read from.
use vstd::prelude::*;

use crate::number::forms::{number_text, read_number, Form};
#[allow(unused_imports)]
use crate::number::forms::{real_in, real_text};
use crate::parser::lexical::parse_i64;
#[allow(unused_imports)]
use crate::parser::lexical::i64_in;
use crate::text::{chars_of, matches_at, replace, same_text, slice_text, starts_with};
#[allow(unused_imports)]
use crate::text::{replace_spec, starts_with_spec};

verus! {

pub const INTEGER: &'static str = "http://www.w3.org/2001/XMLSchema#integer";

pub const LONG: &'static str = "http://www.w3.org/2001/XMLSchema#long";

pub const INT: &'static str = "http://www.w3.org/2001/XMLSchema#int";

pub const DOUBLE: &'static str = "http://www.w3.org/2001/XMLSchema#double";

pub const FLOAT: &'static str = "http://www.w3.org/2001/XMLSchema#float";

pub const DECIMAL: &'static str = "http://www.w3.org/2001/XMLSchema#decimal";

pub const BOOLEAN: &'static str = "http://www.w3.org/2001/XMLSchema#boolean";

/// A value in a row. A double is held as its text.
#[derive(Clone, Debug, PartialEq)]
pub enum Value {
    Null,
    Bool(bool),
    Int(i64),
    Float(String),
    String(String),
    Node(String),
}

/// A term of a solution; `Other` holds one in writing.
#[allow(inconsistent_fields)]
#[derive(Clone, Debug)]
pub enum Term {
    NamedNode(String),
    BlankNode(String),
    Literal { value: String, datatype: String },
    Other(String),
}

/// The model of a [`Value`].
pub ghost enum ValueModel {
    Null,
    Bool(bool),
    Int(i64),
    Float(Seq<char>),
    String(Seq<char>),
    Node(Seq<char>),
}

impl View for Value {
    type V = ValueModel;

    open spec fn view(&self) -> ValueModel {
        match *self {
            Value::Null => ValueModel::Null,
            Value::Bool(b) => ValueModel::Bool(b),
            Value::Int(n) => ValueModel::Int(n),
            Value::Float(t) => ValueModel::Float(t@),
            Value::String(t) => ValueModel::String(t@),
            Value::Node(t) => ValueModel::Node(t@),
        }
    }
}

/// The model of a [`Term`].
pub ghost enum TermModel {
    NamedNode(Seq<char>),
    BlankNode(Seq<char>),
    Literal(Seq<char>, Seq<char>),
    Other(Seq<char>),
}

impl View for Term {
    type V = TermModel;

    open spec fn view(&self) -> TermModel {
        match *self {
            Term::NamedNode(t) => TermModel::NamedNode(t@),
            Term::BlankNode(t) => TermModel::BlankNode(t@),
            Term::Literal { value, datatype } => TermModel::Literal(value@, datatype@),
            Term::Other(t) => TermModel::Other(t@),
        }
    }
}

pub open spec fn is_integer_type(datatype: Seq<char>) -> bool {
    datatype == INTEGER@ || datatype == LONG@ || datatype == INT@
}

pub open spec fn is_double_type(datatype: Seq<char>) -> bool {
    datatype == DOUBLE@ || datatype == FLOAT@ || datatype == DECIMAL@
}

/// The value of a term: nodes by the names that they have under the base,
/// numbers and truth values by their datatypes, and anything else as text. A
/// number that does not read as one stays text too.
pub open spec fn value_of(t: TermModel, base: Seq<char>) -> ValueModel {
    match t {
        TermModel::NamedNode(n) => if starts_with_spec(n, base) {
            ValueModel::Node(n.skip(base.len() as int))
        } else {
            ValueModel::String(n)
        },
        TermModel::BlankNode(n) => ValueModel::Node(n),
        TermModel::Literal(v, datatype) => if is_integer_type(datatype) {
            match i64_in(v, 10) {
                Some(n) => ValueModel::Int(n),
                None => ValueModel::String(v),
            }
        } else if is_double_type(datatype) {
            match real_in(v) {
                Some(r) => ValueModel::Float(real_text(r, Form::Display)),
                None => ValueModel::String(v),
            }
        } else if datatype == BOOLEAN@ {
            ValueModel::Bool(v == "true"@)
        } else {
            ValueModel::String(v)
        },
        TermModel::Other(v) => ValueModel::String(v),
    }
}

/// The value of a term.
pub fn term_to_value(t: &Term, base: &str) -> (r: Value)
    ensures
        r@ == value_of(t@, base@),
{
    match t {
        Term::NamedNode(n) => if starts_with(n.as_str(), base) {
            let v = chars_of(n.as_str());
            let p = chars_of(base);
            let local = slice_text(&v, p.len(), v.len());
            assert(local@ =~= n@.skip(base@.len() as int));
            Value::Node(local)
        } else {
            Value::String(n.clone())
        },
        Term::BlankNode(n) => Value::Node(n.clone()),
        Term::Literal { value, datatype } => {
            let d = datatype.as_str();
            if same_text(d, INTEGER) || same_text(d, LONG) || same_text(d, INT) {
                match parse_i64(value.as_str(), 10) {
                    Some(n) => Value::Int(n),
                    None => Value::String(value.clone()),
                }
            } else if same_text(d, DOUBLE) || same_text(d, FLOAT) || same_text(d, DECIMAL) {
                match read_number(value.as_str()) {
                    Some(n) => Value::Float(number_text(n, Form::Display)),
                    None => Value::String(value.clone()),
                }
            } else if same_text(d, BOOLEAN) {
                Value::Bool(same_text(value.as_str(), "true"))
            } else {
                Value::String(value.clone())
            }
        },
        Term::Other(v) => Value::String(v.clone()),
    }
}

// ── Rows ─────────────────────────────────────────────────────────────────────

pub open spec fn values_of(s: Seq<Value>) -> Seq<ValueModel> {
    Seq::new(s.len(), |i: int| s[i]@)
}

pub open spec fn value_rows_of(s: Seq<Vec<Value>>) -> Seq<Seq<ValueModel>> {
    Seq::new(s.len(), |i: int| values_of(s[i]@))
}

pub open spec fn opt_term(t: Option<Term>) -> Option<TermModel> {
    match t {
        Some(t) => Some(t@),
        None => None,
    }
}

pub open spec fn terms_of(s: Seq<Option<Term>>) -> Seq<Option<TermModel>> {
    Seq::new(s.len(), |i: int| opt_term(s[i]))
}

pub open spec fn term_rows_of(s: Seq<Vec<Option<Term>>>) -> Seq<Seq<Option<TermModel>>> {
    Seq::new(s.len(), |i: int| terms_of(s[i]@))
}

/// A value in a row; null where the variable is not bound.
pub open spec fn cell_value(t: Option<TermModel>, base: Seq<char>) -> ValueModel {
    match t {
        Some(t) => value_of(t, base),
        None => ValueModel::Null,
    }
}

pub open spec fn row_values(row: Seq<Option<TermModel>>, base: Seq<char>) -> Seq<ValueModel> {
    Seq::new(row.len(), |i: int| cell_value(row[i], base))
}

pub open spec fn rows_values(rows: Seq<Seq<Option<TermModel>>>, base: Seq<char>) -> Seq<
    Seq<ValueModel>,
> {
    Seq::new(rows.len(), |i: int| row_values(rows[i], base))
}

fn read_row(row: &Vec<Option<Term>>, base: &str) -> (r: Vec<Value>)
    ensures
        values_of(r@) == row_values(terms_of(row@), base@),
{
    let mut r: Vec<Value> = Vec::new();
    #[verifier::loop_isolation(false)]
    for i in 0..row.len()
        invariant
            r@.len() == i,
            forall|k: int|
                0 <= k < i ==> (#[trigger] r@[k])@ == cell_value(opt_term(row@[k]), base@),
    {
        let v = match &row[i] {
            Some(t) => term_to_value(t, base),
            None => Value::Null,
        };
        r.push(v);
    }
    assert(values_of(r@) =~= row_values(terms_of(row@), base@));
    r
}

/// The values of the rows of a result.
pub fn read_rows(rows: &Vec<Vec<Option<Term>>>, base: &str) -> (r: Vec<Vec<Value>>)
    ensures
        value_rows_of(r@) == rows_values(term_rows_of(rows@), base@),
{
    let mut r: Vec<Vec<Value>> = Vec::new();
    #[verifier::loop_isolation(false)]
    for i in 0..rows.len()
        invariant
            r@.len() == i,
            forall|k: int|
                0 <= k < i ==> values_of((#[trigger] r@[k])@) == row_values(
                    terms_of(rows@[k]@),
                    base@,
                ),
    {
        let v = read_row(&rows[i], base);
        r.push(v);
    }
    assert(value_rows_of(r@) =~= rows_values(term_rows_of(rows@), base@));
    r
}

// ── Elements of lists in writing ─────────────────────────────────────────────

pub open spec fn ends_with_spec(s: Seq<char>, p: Seq<char>) -> bool {
    s.len() >= p.len() && s.skip(s.len() - p.len()) == p
}

pub fn ends_with(s: &str, p: &str) -> (r: bool)
    ensures
        r == ends_with_spec(s@, p@),
{
    let v = chars_of(s);
    let q = chars_of(p);
    if v.len() < q.len() {
        return false;
    }
    let at = v.len() - q.len();
    let r = matches_at(&v, &q, at);
    assert(s@.skip(at as int) =~= s@.subrange(at as int, at + q@.len()));
    r
}

/// Whether the elements of a list that have the datatype are written without
/// quotes.
pub open spec fn is_bare(datatype: Seq<char>) -> bool {
    ends_with_spec(datatype, "#boolean"@) || ends_with_spec(datatype, "#integer"@)
        || ends_with_spec(datatype, "#long"@) || ends_with_spec(datatype, "#double"@)
        || ends_with_spec(datatype, "#float"@) || ends_with_spec(datatype, "#decimal"@)
}

/// How a value is written in a list.
pub open spec fn listed_value(value: Seq<char>, datatype: Seq<char>) -> Seq<char> {
    if is_bare(datatype) {
        value
    } else {
        "'"@ + replace_spec(replace_spec(value, "\\"@, "\\\\"@), "'"@, "\\'"@) + "'"@
    }
}

/// How a value is written in a list.
pub fn write_listed_value(value: &str, datatype: &str) -> (r: String)
    ensures
        r@ == listed_value(value@, datatype@),
{
    if ends_with(datatype, "#boolean") || ends_with(datatype, "#integer") || ends_with(
        datatype,
        "#long",
    ) || ends_with(datatype, "#double") || ends_with(datatype, "#float") || ends_with(
        datatype,
        "#decimal",
    ) {
        value.to_owned()
    } else {
        proof {
            reveal_strlit("\\");
            reveal_strlit("'");
        }
        let inner = replace(replace(value, "\\", "\\\\").as_str(), "'", "\\'");
        "'".to_owned().concat(inner.as_str()).concat("'")
    }
}

} // verus!
