//! Constants and expressions as SPARQL text.
use vstd::prelude::*;

use crate::lqa::expr::Expr;
use crate::lqa::expr::Literal;
use crate::lqa::expr::UnaryOp;
#[allow(unused_imports)]
use crate::number::{finite_text, negated_text};
#[allow(unused_imports)]
use crate::text::{
    dec, join_spec, lemma_texts_push, spell, starts_with_char_spec, texts, unbracket_spec,
};
use crate::text::{chars_of, dec_i64, join, neg_dec_i64, starts_with_char, unbracket};

verus! {

pub const RDF_TYPE: &'static str = "http://www.w3.org/1999/02/22-rdf-syntax-ns#type";

pub const XSD_INTEGER: &'static str = "http://www.w3.org/2001/XMLSchema#integer";

pub const XSD_DOUBLE: &'static str = "http://www.w3.org/2001/XMLSchema#double";

pub const XSD_BOOLEAN: &'static str = "http://www.w3.org/2001/XMLSchema#boolean";

/// Which characters a quoted text escapes.
#[derive(Clone, Copy, PartialEq, Eq, Structural)]
pub enum Escapes {
    /// The double quote.
    Quote,
    /// The double quote and the backslash.
    Plain,
    /// Those two, and line feed, carriage return and tab.
    Full,
}

pub open spec fn escaped(e: Escapes, c: char) -> Seq<char> {
    if c == '"' {
        "\\\""@
    } else if c == '\\' && e != Escapes::Quote {
        "\\\\"@
    } else if c == '\n' && e == Escapes::Full {
        "\\n"@
    } else if c == '\r' && e == Escapes::Full {
        "\\r"@
    } else if c == '\t' && e == Escapes::Full {
        "\\t"@
    } else {
        seq![c]
    }
}

/// The text with its special characters escaped.
pub open spec fn escape_spec(s: Seq<char>, e: Escapes) -> Seq<char> {
    spell(s, |c: char| escaped(e, c))
}

pub fn escape(s: &str, e: Escapes) -> (r: String)
    ensures
        r@ == escape_spec(s@, e),
{
    let v = chars_of(s);
    let mut r = String::new();
    for i in 0..v.len()
        invariant
            v@ == s@,
            r@ == escape_spec(s@.take(i as int), e),
    {
        let c = v[i];
        let ghost before = r@;
        if c == '"' {
            r.append("\\\"");
        } else if c == '\\' && e != Escapes::Quote {
            r.append("\\\\");
        } else if c == '\n' && e == Escapes::Full {
            r.append("\\n");
        } else if c == '\r' && e == Escapes::Full {
            r.append("\\r");
        } else if c == '\t' && e == Escapes::Full {
            r.append("\\t");
        } else {
            r.push(c);
        }
        proof {
            let next = s@.take(i + 1);
            assert(next.drop_last() =~= s@.take(i as int));
            assert(next.last() == c);
            assert(r@ =~= before + escaped(e, c));
        }
    }
    assert(s@.take(s@.len() as int) =~= s@);
    r
}

/// `"text"`, escaped.
pub open spec fn quoted(s: Seq<char>, e: Escapes) -> Seq<char> {
    "\""@ + escape_spec(s, e) + "\""@
}

pub fn quote(s: &str, e: Escapes) -> (r: String)
    ensures
        r@ == quoted(s@, e),
{
    let x = escape(s, e);
    "\"".to_owned().concat(x.as_str()).concat("\"")
}

/// `"lexical"^^<datatype>`
pub open spec fn typed(lexical: Seq<char>, datatype: Seq<char>) -> Seq<char> {
    "\""@ + lexical + "\"^^<"@ + datatype + ">"@
}

pub fn typed_text(lexical: &str, datatype: &str) -> (r: String)
    ensures
        r@ == typed(lexical@, datatype@),
{
    "\"".to_owned().concat(lexical).concat("\"^^<").concat(datatype).concat(">")
}

/// `?name`
pub open spec fn var(name: Seq<char>) -> Seq<char> {
    "?"@ + name
}

pub fn var_text(name: &str) -> (r: String)
    ensures
        r@ == var(name@),
{
    "?".to_owned().concat(name)
}

pub open spec fn bool_word(b: bool) -> Seq<char> {
    if b {
        "true"@
    } else {
        "false"@
    }
}

pub fn bool_text(b: bool) -> (r: String)
    ensures
        r@ == bool_word(b),
{
    if b {
        "true".to_owned()
    } else {
        "false".to_owned()
    }
}

/// The SPARQL term of a literal; null has none, and neither has a number
/// without a finite value.
pub open spec fn lit_to_sparql_spec(lit: Literal) -> Option<Seq<char>> {
    match lit {
        Literal::Integer(n) => Some(typed(dec(n as int), XSD_INTEGER@)),
        Literal::Float(f) => if finite_text(f@) {
            Some(typed(f@, XSD_DOUBLE@))
        } else {
            None
        },
        Literal::String(s) => Some(quoted(s@, Escapes::Full)),
        Literal::Boolean(b) => Some(typed(bool_word(b), XSD_BOOLEAN@)),
        Literal::Null => None,
        Literal::TypedLiteral(value, xsd_type) => Some(
            typed(escape_spec(value@, Escapes::Quote), xsd_type@),
        ),
        Literal::Iri(iri) => Some("<"@ + iri@ + ">"@),
    }
}

/// An optional text, as its characters.
pub open spec fn opt_text(o: Option<String>) -> Option<Seq<char>> {
    match o {
        Some(s) => Some(s@),
        None => None,
    }
}

/// Converts a literal to its SPARQL term.
pub fn lit_to_sparql(lit: &Literal) -> (r: Option<String>)
    ensures
        opt_text(r) == lit_to_sparql_spec(*lit),
{
    match lit {
        Literal::Integer(n) => {
            let d = dec_i64(*n);
            Some(typed_text(d.as_str(), XSD_INTEGER))
        },
        Literal::Float(f) => {
            if f.is_finite() {
                Some(typed_text(f.text.as_str(), XSD_DOUBLE))
            } else {
                None
            }
        },
        Literal::String(s) => Some(quote(s.as_str(), Escapes::Full)),
        Literal::Boolean(b) => {
            let w = bool_text(*b);
            Some(typed_text(w.as_str(), XSD_BOOLEAN))
        },
        Literal::Null => None,
        Literal::TypedLiteral(value, xsd_type) => {
            let x = escape(value.as_str(), Escapes::Quote);
            Some(typed_text(x.as_str(), xsd_type.as_str()))
        },
        Literal::Iri(iri) => Some("<".to_owned().concat(iri.as_str()).concat(">")),
    }
}

// ── Constants as list text ───────────────────────────────────────────────────

/// The parts of a text that looks like a list: what stands between its brackets.
pub open spec fn loose_parts(t: Seq<char>) -> Option<Seq<Seq<char>>> {
    if starts_with_char_spec(t, '[') {
        let body = unbracket_spec(t);
        if body.len() == 0 {
            Some(seq![])
        } else {
            Some(seq![body])
        }
    } else {
        None
    }
}

fn write_loose_parts(t: &str) -> (r: Option<Vec<String>>)
    ensures
        opt_texts(r) == loose_parts(t@),
{
    if !starts_with_char(t, '[') {
        return None;
    }
    let body = unbracket(t);
    let mut parts: Vec<String> = Vec::new();
    if body.as_str().is_empty() {
        assert(texts(parts@) =~= seq![]);
        Some(parts)
    } else {
        parts.push(body);
        assert(texts(parts@) =~= seq![body@]);
        Some(parts)
    }
}

/// Optional texts, as their characters.
pub open spec fn opt_texts(o: Option<Vec<String>>) -> Option<Seq<Seq<char>>> {
    match o {
        Some(v) => Some(texts(v@)),
        None => None,
    }
}

/// The texts of the elements of a constant list, or of several added up.
pub open spec fn list_parts(e: Expr) -> Option<Seq<Seq<char>>>
    decreases e, 1nat,
{
    match e {
        Expr::List(items) => serialize_all(items@),
        Expr::Add(a, b) => match (list_parts(*a), list_parts(*b)) {
            (Some(x), Some(y)) => Some(x + y),
            _ => None,
        },
        _ => match serialize_spec(e) {
            Some(t) => loose_parts(t),
            None => None,
        },
    }
}

/// A list of such elements.
pub open spec fn listed(parts: Seq<Seq<char>>) -> Seq<char> {
    "["@ + join_spec(parts, ", "@) + "]"@
}

/// The text of a constant: lists in square brackets, maps in braces, strings in
/// single quotes. What depends on data has none.
pub open spec fn serialize_spec(e: Expr) -> Option<Seq<char>>
    decreases e, 0nat,
{
    match e {
        Expr::List(items) => match serialize_all(items@) {
            Some(parts) => Some(listed(parts)),
            None => None,
        },
        Expr::MapLit(pairs) => match serialize_pairs(pairs@) {
            Some(parts) => Some("{"@ + join_spec(parts, ", "@) + "}"@),
            None => None,
        },
        Expr::Literal(lit) => match lit {
            Literal::Integer(n) => Some(dec(n as int)),
            Literal::Float(f) => Some(f@),
            Literal::String(s) => Some("'"@ + s@ + "'"@),
            Literal::Boolean(b) => Some(bool_word(b)),
            Literal::Null => Some("null"@),
            Literal::TypedLiteral(v, _) => Some(v@),
            Literal::Iri(iri) => Some(iri@),
        },
        Expr::Add(a, b) => match (list_parts(*a), list_parts(*b)) {
            (Some(x), Some(y)) => Some(listed(x + y)),
            _ => None,
        },
        _ => None,
    }
}

pub open spec fn serialize_all(items: Seq<Expr>) -> Option<Seq<Seq<char>>>
    decreases items, 0nat,
{
    if items.len() == 0 {
        Some(Seq::empty())
    } else {
        match (serialize_all(items.drop_last()), serialize_spec(items.last())) {
            (Some(done), Some(x)) => Some(done.push(x)),
            _ => None,
        }
    }
}

pub open spec fn serialize_pairs(pairs: Seq<(String, Expr)>) -> Option<Seq<Seq<char>>>
    decreases pairs, 0nat,
{
    if pairs.len() == 0 {
        Some(Seq::empty())
    } else {
        match (serialize_pairs(pairs.drop_last()), serialize_spec(pairs.last().1)) {
            (Some(done), Some(x)) => Some(done.push(pairs.last().0@ + ": "@ + x)),
            _ => None,
        }
    }
}

proof fn lemma_serialize_all_none(items: Seq<Expr>, n: int)
    requires
        0 <= n <= items.len(),
        serialize_all(items.take(n)) is None,
    ensures
        serialize_all(items) is None,
    decreases items.len() - n,
{
    if n == items.len() {
        assert(items.take(n) =~= items);
    } else {
        assert(items.take(n + 1).drop_last() =~= items.take(n));
        lemma_serialize_all_none(items, n + 1);
    }
}

proof fn lemma_serialize_pairs_none(pairs: Seq<(String, Expr)>, n: int)
    requires
        0 <= n <= pairs.len(),
        serialize_pairs(pairs.take(n)) is None,
    ensures
        serialize_pairs(pairs) is None,
    decreases pairs.len() - n,
{
    if n == pairs.len() {
        assert(pairs.take(n) =~= pairs);
    } else {
        assert(pairs.take(n + 1).drop_last() =~= pairs.take(n));
        lemma_serialize_pairs_none(pairs, n + 1);
    }
}

/// The texts of constants; `None` where one of them depends on data.
fn serialize_items(items: &Vec<Expr>) -> (r: Option<Vec<String>>)
    ensures
        opt_texts(r) == serialize_all(items@),
    decreases items, 0nat,
{
    let mut parts: Vec<String> = Vec::new();
    #[verifier::loop_isolation(false)]
    for i in 0..items.len()
        invariant
            serialize_all(items@.take(i as int)) == Some(texts(parts@)),
    {
        let ghost before = parts@;
        assert(items@.take(i + 1).drop_last() =~= items@.take(i as int));
        match lqa_write_serialize_literal(&items[i]) {
            Some(s) => {
                parts.push(s);
                proof {
                    lemma_texts_push(before, s);
                }
            },
            None => {
                proof {
                    lemma_serialize_all_none(items@, i + 1);
                }
                return None;
            },
        }
    }
    assert(items@.take(items@.len() as int) =~= items@);
    Some(parts)
}

fn write_listed(parts: &Vec<String>) -> (r: String)
    ensures
        r@ == listed(texts(parts@)),
{
    let body = join(parts, ", ");
    "[".to_owned().concat(body.as_str()).concat("]")
}

/// The texts of the elements of a constant list; `None` for anything else.
fn write_list_parts(e: &Expr) -> (r: Option<Vec<String>>)
    ensures
        opt_texts(r) == list_parts(*e),
    decreases e, 1nat,
{
    match e {
        Expr::List(items) => serialize_items(items),
        Expr::Add(a, b) => match (write_list_parts(a), write_list_parts(b)) {
            (Some(x), Some(y)) => {
                let mut parts = x;
                let mut more = y;
                let ghost all = texts(x@) + texts(y@);
                parts.append(&mut more);
                assert(texts(parts@) =~= all);
                Some(parts)
            },
            _ => None,
        },
        _ => match lqa_write_serialize_literal(e) {
            Some(t) => write_loose_parts(t.as_str()),
            None => None,
        },
    }
}

/// Serialises a constant; `None` where the expression depends on data.
pub fn lqa_write_serialize_literal(e: &Expr) -> (r: Option<String>)
    ensures
        opt_text(r) == serialize_spec(*e),
    decreases e, 0nat,
{
    match e {
        Expr::List(items) => match serialize_items(items) {
            Some(parts) => Some(write_listed(&parts)),
            None => None,
        },
        Expr::MapLit(pairs) => {
            let mut parts: Vec<String> = Vec::new();
            #[verifier::loop_isolation(false)]
            for i in 0..pairs.len()
                invariant
                    serialize_pairs(pairs@.take(i as int)) == Some(texts(parts@)),
            {
                let ghost before = parts@;
                assert(pairs@.take(i + 1).drop_last() =~= pairs@.take(i as int));
                match lqa_write_serialize_literal(&pairs[i].1) {
                    Some(s) => {
                        let entry = pairs[i].0.clone().concat(": ").concat(s.as_str());
                        parts.push(entry);
                        proof {
                            lemma_texts_push(before, entry);
                        }
                    },
                    None => {
                        proof {
                            lemma_serialize_pairs_none(pairs@, i + 1);
                        }
                        return None;
                    },
                }
            }
            assert(pairs@.take(pairs@.len() as int) =~= pairs@);
            let body = join(&parts, ", ");
            Some("{".to_owned().concat(body.as_str()).concat("}"))
        },
        Expr::Literal(lit) => match lit {
            Literal::Integer(n) => Some(dec_i64(*n)),
            Literal::Float(f) => Some(f.text.clone()),
            Literal::String(s) => Some("'".to_owned().concat(s.as_str()).concat("'")),
            Literal::Boolean(b) => Some(bool_text(*b)),
            Literal::Null => Some("null".to_owned()),
            Literal::TypedLiteral(v, _) => Some(v.clone()),
            Literal::Iri(iri) => Some(iri.clone()),
        },
        Expr::Add(a, b) => match (write_list_parts(a), write_list_parts(b)) {
            (Some(x), Some(y)) => {
                let mut parts = x;
                let mut more = y;
                let ghost all = texts(x@) + texts(y@);
                parts.append(&mut more);
                assert(texts(parts@) =~= all);
                Some(write_listed(&parts))
            },
            _ => None,
        },
        _ => None,
    }
}

/// The SPARQL term of a constant expression; `None` where it depends on data.
pub open spec fn expr_to_sparql_lit_spec(e: Expr) -> Option<Seq<char>> {
    match e {
        Expr::Literal(lit) => lit_to_sparql_spec(lit),
        Expr::Unary(UnaryOp::Neg, inner) => match *inner {
            Expr::Literal(Literal::Integer(n)) => Some(typed(dec(-n), XSD_INTEGER@)),
            Expr::Literal(Literal::Float(f)) => Some(typed(negated_text(f@), XSD_DOUBLE@)),
            _ => None,
        },
        Expr::List(_) | Expr::MapLit(_) | Expr::Add(_, _) => match serialize_spec(e) {
            Some(s) => Some(quoted(s, Escapes::Plain)),
            None => None,
        },
        _ => None,
    }
}

/// Converts a constant expression to its SPARQL term.
pub fn expr_to_sparql_lit(expr: &Expr) -> (r: Option<String>)
    ensures
        opt_text(r) == expr_to_sparql_lit_spec(*expr),
{
    match expr {
        Expr::Literal(lit) => lit_to_sparql(lit),
        Expr::Unary(UnaryOp::Neg, inner) => match &**inner {
            Expr::Literal(Literal::Integer(n)) => {
                let d = neg_dec_i64(*n);
                Some(typed_text(d.as_str(), XSD_INTEGER))
            },
            Expr::Literal(Literal::Float(f)) => {
                let d = f.negated();
                Some(typed_text(d.as_str(), XSD_DOUBLE))
            },
            _ => None,
        },
        Expr::List(_) | Expr::MapLit(_) | Expr::Add(_, _) => match lqa_write_serialize_literal(expr) {
            Some(s) => Some(quote(s.as_str(), Escapes::Plain)),
            None => None,
        },
        _ => None,
    }
}

/// A constant, or a reference to a variable.
pub open spec fn expr_to_sparql_value_spec(e: Expr) -> Option<Seq<char>> {
    match e {
        Expr::Variable { name } => Some(var(name@)),
        _ => expr_to_sparql_lit_spec(e),
    }
}

pub fn expr_to_sparql_value(expr: &Expr) -> (r: Option<String>)
    ensures
        opt_text(r) == expr_to_sparql_value_spec(*expr),
{
    match expr {
        Expr::Variable { name } => Some(var_text(name.as_str())),
        other => expr_to_sparql_lit(other),
    }
}

proof fn lemma_serialize_all_add(xs: Seq<Expr>, ys: Seq<Expr>)
    ensures
        serialize_all(xs + ys) == (match (serialize_all(xs), serialize_all(ys)) {
            (Some(x), Some(y)) => Some(x + y),
            _ => None,
        }),
    decreases ys.len(),
{
    if ys.len() == 0 {
        assert(xs + ys =~= xs);
        if serialize_all(xs) is Some {
            let x = serialize_all(xs).unwrap();
            assert(x + seq![] =~= x);
        }
    } else {
        lemma_serialize_all_add(xs, ys.drop_last());
        assert((xs + ys).drop_last() =~= xs + ys.drop_last());
        if serialize_all(xs) is Some && serialize_all(ys) is Some {
            let x = serialize_all(xs).unwrap();
            let y = serialize_all(ys.drop_last()).unwrap();
            let z = serialize_spec(ys.last()).unwrap();
            assert((x + y).push(z) =~= x + y.push(z));
        }
    }
}

/// Adding two constant lists gives the list of the elements of both.
pub proof fn law_added_lists_are_one(xs: Vec<Expr>, ys: Vec<Expr>, both: Vec<Expr>)
    requires
        both@ == xs@ + ys@,
    ensures
        expr_to_sparql_lit_spec(Expr::Add(Box::new(Expr::List(xs)), Box::new(Expr::List(ys))))
            == expr_to_sparql_lit_spec(Expr::List(both)),
{
    let a = Expr::List(xs);
    let b = Expr::List(ys);
    lemma_serialize_all_add(xs@, ys@);
    assert(list_parts(a) == serialize_all(xs@));
    assert(list_parts(b) == serialize_all(ys@));
    let e = Expr::Add(Box::new(a), Box::new(b));
    assert(serialize_spec(e) == serialize_spec(Expr::List(both)));
}

} // verus!
