//! Values that are written into the query as constants.
use vstd::prelude::*;

use crate::ast::cypher::{Expression, Literal};
#[allow(unused_imports)]
use crate::ast::model as m;
use crate::error::PolygraphError;
use crate::lqa::write::literals::{XSD_BOOLEAN, XSD_DOUBLE, XSD_INTEGER};
use crate::number::forms::Form;
#[allow(unused_imports)]
use crate::number::{negated_text, negated_with_point, text_in_form};
use crate::sparql::algebra as sparql;
#[allow(unused_imports)]
use crate::sparql::model as g;
use crate::text::{
    dec_i64, digits_u64, eq_ignore_ascii_case, join, neg_dec_i64, same_text, to_ascii_lowercase,
};
#[allow(unused_imports)]
use crate::text::{dec, digits, join_spec, lower_text, same_ignoring_case, texts, zeros};
#[allow(unused_imports)]
use crate::translator::constant::as_int;
use crate::translator::refusal::unsupported_feature;
#[allow(unused_imports)]
use crate::translator::refusal::{refusal_of, Refusal};

verus! {

pub const XSD_DATE: &'static str = "http://www.w3.org/2001/XMLSchema#date";

pub const XSD_TIME: &'static str = "http://www.w3.org/2001/XMLSchema#time";

pub const XSD_DATE_TIME: &'static str = "http://www.w3.org/2001/XMLSchema#dateTime";

// ── Literals ─────────────────────────────────────────────────────────────────

pub open spec fn typed(value: Seq<char>, iri: Seq<char>) -> g::Literal {
    g::Literal { value: value, datatype: Some(iri) }
}

pub open spec fn plain(value: Seq<char>) -> g::Literal {
    g::Literal { value: value, datatype: None }
}

pub open spec fn bool_text(b: bool) -> Seq<char> {
    if b {
        "true"@
    } else {
        "false"@
    }
}

pub fn typed_literal(value: String, iri: &str) -> (r: sparql::Literal)
    ensures
        g::literal_of(r) == typed(value@, iri@),
{
    sparql::Literal { value, datatype: Some(iri.to_owned()) }
}

pub fn plain_literal(value: String) -> (r: sparql::Literal)
    ensures
        g::literal_of(r) == plain(value@),
{
    sparql::Literal { value, datatype: None }
}

pub fn boolean_text(b: bool) -> (r: String)
    ensures
        r@ == bool_text(b),
{
    if b {
        "true".to_owned()
    } else {
        "false".to_owned()
    }
}

/// The boolean literal.
pub open spec fn boolean(b: bool) -> g::Literal {
    typed(bool_text(b), XSD_BOOLEAN@)
}

pub fn boolean_literal(b: bool) -> (r: sparql::Literal)
    ensures
        g::literal_of(r) == boolean(b),
{
    typed_literal(boolean_text(b), XSD_BOOLEAN)
}

/// The literal that stands for a literal of Cypher; null has none.
pub open spec fn literal_term(l: m::Literal) -> Result<g::Literal, Refusal> {
    match l {
        m::Literal::Integer(n) => Ok(typed(dec(n as int), XSD_INTEGER@)),
        m::Literal::Float(f) => Ok(typed(text_in_form(f, Form::Cypher), XSD_DOUBLE@)),
        m::Literal::String(s) => Ok(plain(s)),
        m::Literal::Boolean(b) => Ok(boolean(b)),
        m::Literal::Null => Err(Refusal::Unsupported("null literal in expression context"@)),
    }
}

pub open spec fn literal_result(r: Result<sparql::Literal, PolygraphError>) -> Result<
    g::Literal,
    Refusal,
> {
    match r {
        Ok(l) => Ok(g::literal_of(l)),
        Err(e) => Err(refusal_of(e)),
    }
}

pub fn translate_literal(lit: &Literal) -> (r: Result<sparql::Literal, PolygraphError>)
    ensures
        literal_result(r) == literal_term(m::literal_of(*lit)),
{
    match lit {
        Literal::Integer(n) => Ok(typed_literal(dec_i64(*n), XSD_INTEGER)),
        Literal::Float(f) => Ok(typed_literal(f.in_form(Form::Cypher), XSD_DOUBLE)),
        Literal::String(s) => Ok(plain_literal(s.clone())),
        Literal::Boolean(b) => Ok(boolean_literal(*b)),
        Literal::Null => Err(unsupported_feature("null literal in expression context")),
    }
}

// ── Lists and maps as text ───────────────────────────────────────────────────

/// A value as it stands in the text of a list; `?` for what is no constant.
pub open spec fn element_text(e: m::Expression) -> Seq<char>
    decreases e,
{
    match e {
        m::Expression::Literal(l) => scalar_text(l),
        m::Expression::Negate(a) => match *a {
            m::Expression::Literal(m::Literal::Integer(n)) => dec(-n),
            m::Expression::Literal(m::Literal::Float(f)) => negated_text(f),
            _ => "?"@,
        },
        m::Expression::List(items) => "["@ + join_spec(element_texts(items), ", "@) + "]"@,
        m::Expression::MapLit(entries) => "{"@ + join_spec(entry_texts(entries), ", "@) + "}"@,
        _ => "?"@,
    }
}

pub open spec fn scalar_text(l: m::Literal) -> Seq<char> {
    match l {
        m::Literal::Integer(n) => dec(n as int),
        m::Literal::Float(f) => f,
        m::Literal::String(s) => "'"@ + s + "'"@,
        m::Literal::Boolean(b) => bool_text(b),
        m::Literal::Null => "null"@,
    }
}

pub open spec fn element_texts(s: Seq<m::Expression>) -> Seq<Seq<char>>
    decreases s,
{
    Seq::new(
        s.len(),
        |i: int|
            if 0 <= i < s.len() {
                element_text(s[i])
            } else {
                seq![]
            },
    )
}

pub open spec fn entry_texts(s: Seq<(Seq<char>, m::Expression)>) -> Seq<Seq<char>>
    decreases s,
{
    Seq::new(
        s.len(),
        |i: int|
            if 0 <= i < s.len() {
                s[i].0 + ": "@ + element_text(s[i].1)
            } else {
                seq![]
            },
    )
}

/// The text of a list.
pub open spec fn list_text(items: Seq<m::Expression>) -> Seq<char> {
    "["@ + join_spec(element_texts(items), ", "@) + "]"@
}

fn text_of_scalar(l: &Literal) -> (r: String)
    ensures
        r@ == scalar_text(m::literal_of(*l)),
{
    match l {
        Literal::Integer(n) => dec_i64(*n),
        Literal::Float(f) => f.text.clone(),
        Literal::String(s) => "'".to_owned().concat(s.as_str()).concat("'"),
        Literal::Boolean(b) => boolean_text(*b),
        Literal::Null => "null".to_owned(),
    }
}

fn serialize_entries(entries: &Vec<(String, Expression)>) -> (r: Vec<String>)
    ensures
        texts(r@) == entry_texts(m::entries_of(entries@)),
    decreases entries,
{
    let mut r: Vec<String> = Vec::new();
    proof {
        m::lemma_entries_of(entries@);
    }
    #[verifier::loop_isolation(false)]
    for i in 0..entries.len()
        invariant
            r@.len() == i,
            forall|k: int|
                0 <= k < i ==> (#[trigger] r@[k])@ == entries@[k].0@ + ": "@ + element_text(
                    m::expression_of(entries@[k].1),
                ),
    {
        let v = serialize_list_element(&entries[i].1);
        let t = entries[i].0.clone().concat(": ").concat(v.as_str());
        r.push(t);
    }
    assert(texts(r@) =~= entry_texts(m::entries_of(entries@)));
    r
}

fn serialize_elements(items: &Vec<Expression>) -> (r: Vec<String>)
    ensures
        texts(r@) == element_texts(m::exprs_of(items@)),
    decreases items,
{
    let mut r: Vec<String> = Vec::new();
    proof {
        m::lemma_exprs_of(items@);
    }
    #[verifier::loop_isolation(false)]
    for i in 0..items.len()
        invariant
            r@.len() == i,
            forall|k: int|
                0 <= k < i ==> (#[trigger] r@[k])@ == element_text(m::expression_of(items@[k])),
    {
        let v = serialize_list_element(&items[i]);
        r.push(v);
    }
    assert(texts(r@) =~= element_texts(m::exprs_of(items@)));
    r
}

pub fn serialize_list_element(e: &Expression) -> (r: String)
    ensures
        r@ == element_text(m::expression_of(*e)),
    decreases e,
{
    match e {
        Expression::Literal(l) => text_of_scalar(l),
        Expression::Negate(a) => {
            assert(m::expression_of(**a) is Literal == (**a is Literal));
            match &**a {
                Expression::Literal(Literal::Integer(n)) => neg_dec_i64(*n),
                Expression::Literal(Literal::Float(f)) => f.negated(),
                _ => "?".to_owned(),
            }
        },
        Expression::List(items) => {
            let parts = serialize_elements(items);
            "[".to_owned().concat(join(&parts, ", ").as_str()).concat("]")
        },
        Expression::MapLit(entries) => {
            let parts = serialize_entries(entries);
            "{".to_owned().concat(join(&parts, ", ").as_str()).concat("}")
        },
        _ => "?".to_owned(),
    }
}

pub fn serialize_list_literal(items: &Vec<Expression>) -> (r: String)
    ensures
        r@ == list_text(m::exprs_of(items@)),
{
    let parts = serialize_elements(items);
    "[".to_owned().concat(join(&parts, ", ").as_str()).concat("]")
}

/// The constant that a literal, a list or a map is bound to; null and what is
/// no literal stay unbound.
pub open spec fn ground_of_literal(e: m::Expression) -> Option<g::GroundTerm> {
    match e {
        m::Expression::Literal(m::Literal::Float(f)) => Some(
            g::GroundTerm::Literal(typed(f, XSD_DOUBLE@)),
        ),
        m::Expression::Literal(l) => match literal_term(l) {
            Ok(t) => Some(g::GroundTerm::Literal(t)),
            Err(_) => None,
        },
        m::Expression::List(_) => Some(g::GroundTerm::Literal(plain(element_text(e)))),
        m::Expression::MapLit(_) => Some(g::GroundTerm::Literal(plain(element_text(e)))),
        _ => None,
    }
}

pub fn literal_expr_to_ground_term(e: &Expression) -> (r: Option<sparql::GroundTerm>)
    ensures
        g::opt_ground(r) == ground_of_literal(m::expression_of(*e)),
{
    match e {
        Expression::Literal(Literal::Float(f)) => Some(
            sparql::GroundTerm::Literal(typed_literal(f.text.clone(), XSD_DOUBLE)),
        ),
        Expression::Literal(l) => match translate_literal(l) {
            Ok(t) => Some(sparql::GroundTerm::Literal(t)),
            Err(_) => None,
        },
        Expression::List(_) | Expression::MapLit(_) => Some(
            sparql::GroundTerm::Literal(plain_literal(serialize_list_element(e))),
        ),
        _ => None,
    }
}

// ── Dates and times ──────────────────────────────────────────────────────────

/// A number with zeros before its digits, so that it fills the width.
pub open spec fn padded(n: int, width: int) -> Seq<char> {
    if n < 0 {
        let d = digits((-n) as nat);
        "-"@ + zeros(width - 1 - d.len()) + d
    } else {
        let d = digits(n as nat);
        zeros(width - d.len()) + d
    }
}

pub fn push_zeros(r: &mut String, n: usize)
    ensures
        final(r)@ == old(r)@ + zeros(n as int),
{
    let ghost before = r@;
    #[verifier::loop_isolation(false)]
    for i in 0..n
        invariant
            r@ == before + zeros(i as int),
    {
        r.push('0');
        assert(r@ =~= before + zeros(i + 1));
    }
}

pub fn pad(n: i64, width: usize) -> (r: String)
    requires
        width >= 1,
    ensures
        r@ == padded(n as int, width as int),
{
    let size: u64 = if n < 0 {
        (-(n + 1)) as u64 + 1
    } else {
        n as u64
    };
    let d = digits_u64(size);
    let len: usize = d.as_str().unicode_len();
    let (mut r, room) = if n < 0 {
        ("-".to_owned(), width - 1)
    } else {
        (String::new(), width)
    };
    if len < room {
        push_zeros(&mut r, room - len);
    }
    let r = r.concat(d.as_str());
    assert(r@ =~= padded(n as int, width as int));
    r
}

/// The integer under the key, whatever the case of its letters: that of the
/// first entry from the place on that has one.
pub open spec fn int_under(pairs: Seq<(Seq<char>, m::Expression)>, key: Seq<char>, i: int) -> Option<
    int,
>
    decreases pairs.len() - i,
{
    if i < 0 || i >= pairs.len() {
        None
    } else if same_ignoring_case(pairs[i].0, key) && pairs[i].1 matches m::Expression::Literal(
        m::Literal::Integer(n),
    ) {
        Some(pairs[i].1->Literal_0->Integer_0 as int)
    } else {
        int_under(pairs, key, i + 1)
    }
}

/// The text under the key, as [`int_under`].
pub open spec fn text_under(
    pairs: Seq<(Seq<char>, m::Expression)>,
    key: Seq<char>,
    i: int,
) -> Option<Seq<char>>
    decreases pairs.len() - i,
{
    if i < 0 || i >= pairs.len() {
        None
    } else if same_ignoring_case(pairs[i].0, key) && pairs[i].1 matches m::Expression::Literal(
        m::Literal::String(s),
    ) {
        Some(pairs[i].1->Literal_0->String_0)
    } else {
        text_under(pairs, key, i + 1)
    }
}

/// `YYYY-MM-DD`, where the three numbers are there.
pub open spec fn date_text(p: Seq<(Seq<char>, m::Expression)>) -> Option<Seq<char>> {
    match (int_under(p, "year"@, 0), int_under(p, "month"@, 0), int_under(p, "day"@, 0)) {
        (Some(y), Some(mo), Some(d)) => Some(
            padded(y, 4) + "-"@ + padded(mo, 2) + "-"@ + padded(d, 2),
        ),
        _ => None,
    }
}

/// `hh:mm:ss`, with nine more digits where there are nanoseconds; nothing
/// without hours and minutes.
pub open spec fn time_text(p: Seq<(Seq<char>, m::Expression)>) -> Option<Seq<char>> {
    match (int_under(p, "hour"@, 0), int_under(p, "minute"@, 0)) {
        (Some(h), Some(mi)) => Some(
            padded(h, 2) + ":"@ + padded(mi, 2) + ":"@ + seconds_text(p),
        ),
        _ => None,
    }
}

pub open spec fn seconds_text(p: Seq<(Seq<char>, m::Expression)>) -> Seq<char> {
    match (int_under(p, "second"@, 0), int_under(p, "nanosecond"@, 0)) {
        (None, _) => "00"@,
        (Some(s), None) => padded(s, 2),
        (Some(s), Some(n)) => padded(s, 2) + "."@ + padded(n, 9),
    }
}

/// The constant that a temporal function gives for a map of literals.
pub open spec fn temporal_literal(name: Seq<char>, p: Seq<(Seq<char>, m::Expression)>) -> Option<
    g::Literal,
> {
    if name == "date"@ {
        match date_text(p) {
            Some(d) => Some(typed(d, XSD_DATE@)),
            None => None,
        }
    } else if name == "localtime"@ {
        match time_text(p) {
            Some(t) => Some(typed(t, XSD_TIME@)),
            None => None,
        }
    } else if name == "localdatetime"@ {
        match (date_text(p), time_text(p)) {
            (Some(d), Some(t)) => Some(typed(d + "T"@ + t, XSD_DATE_TIME@)),
            _ => None,
        }
    } else if name == "time"@ {
        match (time_text(p), text_under(p, "timezone"@, 0)) {
            (Some(t), Some(z)) => Some(typed(t + z, XSD_TIME@)),
            _ => None,
        }
    } else {
        match (date_text(p), time_text(p), text_under(p, "timezone"@, 0)) {
            (Some(d), Some(t), Some(z)) => Some(typed(d + "T"@ + t + z, XSD_DATE_TIME@)),
            _ => None,
        }
    }
}

pub open spec fn is_temporal(name: Seq<char>) -> bool {
    name == "date"@ || name == "localtime"@ || name == "localdatetime"@ || name == "time"@ || name
        == "datetime"@
}

/// The term that an expression gives where it stands for a value: a constant,
/// or a variable.
#[verifier::opaque]
pub open spec fn ground_term(e: m::Expression) -> Result<g::Term, Refusal> {
    match e {
        m::Expression::Literal(l) => match literal_term(l) {
            Ok(t) => Ok(g::Term::Literal(t)),
            Err(x) => Err(x),
        },
        m::Expression::Variable(v) => Ok(g::Term::Variable(v)),
        m::Expression::Negate(a) => match *a {
            m::Expression::Literal(m::Literal::Integer(n)) => Ok(
                g::Term::Literal(typed(dec(-n), XSD_INTEGER@)),
            ),
            m::Expression::Literal(m::Literal::Float(f)) => Ok(
                g::Term::Literal(typed(negated_with_point(f), XSD_DOUBLE@)),
            ),
            _ => Err(Refusal::Unsupported("complex negation in UNWIND list"@)),
        },
        m::Expression::FunctionCall { name, distinct, args } => {
            let f = lower_text(name);
            if !is_temporal(f) {
                Err(
                    Refusal::Unsupported("complex expression in inline property map (Phase 4)"@),
                )
            } else if args.len() > 0 && args[0] is MapLit && temporal_literal(
                f,
                args[0]->MapLit_0,
            ) is Some {
                Ok(g::Term::Literal(temporal_literal(f, args[0]->MapLit_0).unwrap()))
            } else {
                Err(Refusal::Unsupported(f + "() with non-literal map arguments"@))
            }
        },
        _ => Err(Refusal::Unsupported("complex expression in inline property map (Phase 4)"@)),
    }
}

pub open spec fn term_result(r: Result<sparql::Term, PolygraphError>) -> Result<g::Term, Refusal> {
    match r {
        Ok(t) => Ok(g::term_of(t)),
        Err(e) => Err(refusal_of(e)),
    }
}

fn get_int(pairs: &Vec<(String, Expression)>, key: &str) -> (r: Option<i64>)
    ensures
        as_int(r) == int_under(m::entries_of(pairs@), key@, 0),
{
    proof {
        m::lemma_entries_of(pairs@);
    }
    #[verifier::loop_isolation(false)]
    for i in 0..pairs.len()
        invariant
            int_under(m::entries_of(pairs@), key@, 0) == int_under(
                m::entries_of(pairs@),
                key@,
                i as int,
            ),
    {
        let ghost here = m::entries_of(pairs@)[i as int];
        if eq_ignore_ascii_case(pairs[i].0.as_str(), key) {
            if let Expression::Literal(Literal::Integer(n)) = &pairs[i].1 {
                return Some(*n);
            }
        }
    }
    None
}

fn get_str(pairs: &Vec<(String, Expression)>, key: &str) -> (r: Option<String>)
    ensures
        m::opt_text(r) == text_under(m::entries_of(pairs@), key@, 0),
{
    proof {
        m::lemma_entries_of(pairs@);
    }
    #[verifier::loop_isolation(false)]
    for i in 0..pairs.len()
        invariant
            text_under(m::entries_of(pairs@), key@, 0) == text_under(
                m::entries_of(pairs@),
                key@,
                i as int,
            ),
    {
        let ghost here = m::entries_of(pairs@)[i as int];
        if eq_ignore_ascii_case(pairs[i].0.as_str(), key) {
            if let Expression::Literal(Literal::String(s)) = &pairs[i].1 {
                return Some(s.clone());
            }
        }
    }
    None
}

fn make_date(pairs: &Vec<(String, Expression)>) -> (r: Option<String>)
    ensures
        m::opt_text(r) == date_text(m::entries_of(pairs@)),
{
    match (get_int(pairs, "year"), get_int(pairs, "month"), get_int(pairs, "day")) {
        (Some(y), Some(mo), Some(d)) => Some(
            pad(y, 4).concat("-").concat(pad(mo, 2).as_str()).concat("-").concat(pad(d, 2).as_str()),
        ),
        _ => None,
    }
}

fn make_seconds(pairs: &Vec<(String, Expression)>) -> (r: String)
    ensures
        r@ == seconds_text(m::entries_of(pairs@)),
{
    match (get_int(pairs, "second"), get_int(pairs, "nanosecond")) {
        (None, _) => "00".to_owned(),
        (Some(s), None) => pad(s, 2),
        (Some(s), Some(n)) => pad(s, 2).concat(".").concat(pad(n, 9).as_str()),
    }
}

fn make_time(pairs: &Vec<(String, Expression)>) -> (r: Option<String>)
    ensures
        m::opt_text(r) == time_text(m::entries_of(pairs@)),
{
    match (get_int(pairs, "hour"), get_int(pairs, "minute")) {
        (Some(h), Some(mi)) => Some(
            pad(h, 2).concat(":").concat(pad(mi, 2).as_str()).concat(":").concat(
                make_seconds(pairs).as_str(),
            ),
        ),
        _ => None,
    }
}

fn make_temporal(name: &str, pairs: &Vec<(String, Expression)>) -> (r: Option<sparql::Literal>)
    ensures
        (match r {
            Some(l) => Some(g::literal_of(l)),
            None => None,
        }) == temporal_literal(name@, m::entries_of(pairs@)),
{
    if same_text(name, "date") {
        match make_date(pairs) {
            Some(d) => Some(typed_literal(d, XSD_DATE)),
            None => None,
        }
    } else if same_text(name, "localtime") {
        match make_time(pairs) {
            Some(t) => Some(typed_literal(t, XSD_TIME)),
            None => None,
        }
    } else if same_text(name, "localdatetime") {
        match (make_date(pairs), make_time(pairs)) {
            (Some(d), Some(t)) => Some(
                typed_literal(d.concat("T").concat(t.as_str()), XSD_DATE_TIME),
            ),
            _ => None,
        }
    } else if same_text(name, "time") {
        match (make_time(pairs), get_str(pairs, "timezone")) {
            (Some(t), Some(z)) => Some(typed_literal(t.concat(z.as_str()), XSD_TIME)),
            _ => None,
        }
    } else {
        match (make_date(pairs), make_time(pairs), get_str(pairs, "timezone")) {
            (Some(d), Some(t), Some(z)) => Some(
                typed_literal(d.concat("T").concat(t.as_str()).concat(z.as_str()), XSD_DATE_TIME),
            ),
            _ => None,
        }
    }
}

pub fn expr_to_ground_term(expr: &Expression) -> (r: Result<sparql::Term, PolygraphError>)
    ensures
        term_result(r) == ground_term(m::expression_of(*expr)),
{
    reveal(ground_term);
    match expr {
        Expression::Literal(lit) => match translate_literal(lit) {
            Ok(l) => Ok(sparql::Term::Literal(l)),
            Err(e) => Err(e),
        },
        Expression::Variable(name) => Ok(sparql::Term::Variable(name.clone())),
        Expression::Negate(inner) => {
            assert(m::expression_of(**inner) is Literal == (**inner is Literal));
            match &**inner {
                Expression::Literal(Literal::Integer(n)) => Ok(
                    sparql::Term::Literal(typed_literal(neg_dec_i64(*n), XSD_INTEGER)),
                ),
                Expression::Literal(Literal::Float(f)) => Ok(
                    sparql::Term::Literal(typed_literal(f.negated_with_point(), XSD_DOUBLE)),
                ),
                _ => Err(unsupported_feature("complex negation in UNWIND list")),
            }
        },
        Expression::FunctionCall { name, distinct: _, args } => {
            let f = to_ascii_lowercase(name.as_str());
            if !(same_text(f.as_str(), "date") || same_text(f.as_str(), "localtime") || same_text(
                f.as_str(),
                "localdatetime",
            ) || same_text(f.as_str(), "time") || same_text(f.as_str(), "datetime")) {
                return Err(
                    unsupported_feature("complex expression in inline property map (Phase 4)"),
                );
            }
            proof {
                m::lemma_exprs_of(args@);
            }
            if args.len() > 0 {
                assert(m::expression_of(args@[0]) is MapLit == (args@[0] is MapLit));
                if let Expression::MapLit(pairs) = &args[0] {
                    if let Some(l) = make_temporal(f.as_str(), pairs) {
                        return Ok(sparql::Term::Literal(l));
                    }
                }
            }
            Err(unsupported_feature(f.concat("() with non-literal map arguments").as_str()))
        },
        _ => Err(unsupported_feature("complex expression in inline property map (Phase 4)")),
    }
}

} // verus!
