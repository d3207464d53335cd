//! The WHERE clause of an update: triple patterns and filters of a match
//! context, as SPARQL text.
use vstd::prelude::*;

use crate::error::{write_unsupported, PolygraphError};
#[allow(unused_imports)]
use crate::error::gives_texts;
use crate::lqa::expr::{CmpOp, Expr, Literal, UnaryOp};
use crate::lqa::op::{CreateNode, Direction, Op, ProjItem};
use crate::lqa::write::literals::{
    bool_text, expr_to_sparql_lit, lit_to_sparql, quote, var_text, Escapes, RDF_TYPE,
};
#[allow(unused_imports)]
use crate::lqa::write::literals::{
    bool_word, expr_to_sparql_lit_spec, lit_to_sparql_spec, opt_text, quoted, var,
};
use crate::lqa::write::tree::is_user_named;
#[allow(unused_imports)]
use crate::lqa::write::tree::user_named;
use crate::names::NameMap;
use crate::text::{
    any_contains, dec_i64, eq_ignore_ascii_case, join, push_text, same_text, starts_with,
    starts_with_char, trim,
};
#[allow(unused_imports)]
use crate::text::{
    any_contains_spec, dec, join_spec, lemma_texts_add, same_ignoring_case, starts_with_char_spec,
    starts_with_spec, texts, trim_spec,
};

verus! {

// ── Triples ──────────────────────────────────────────────────────────────────

/// The triple that every node has: `s <base__node> <base__node>`.
pub open spec fn node_triple(s: Seq<char>, base: Seq<char>) -> Seq<char> {
    s + " <"@ + base + "__node> <"@ + base + "__node>"@
}

pub fn node_triple_text(s: &str, base: &str) -> (r: String)
    ensures
        r@ == node_triple(s@, base@),
{
    s.to_owned().concat(" <").concat(base).concat("__node> <").concat(base).concat("__node>")
}

/// `s rdf:type <base label>`
pub open spec fn type_triple(s: Seq<char>, base: Seq<char>, label: Seq<char>) -> Seq<char> {
    s + " <"@ + RDF_TYPE@ + "> <"@ + base + label + ">"@
}

pub fn type_triple_text(s: &str, base: &str, label: &str) -> (r: String)
    ensures
        r@ == type_triple(s@, base@, label@),
{
    s.to_owned().concat(" <").concat(RDF_TYPE).concat("> <").concat(base).concat(label).concat(">")
}

/// `s p o`
pub open spec fn triple(s: Seq<char>, p: Seq<char>, o: Seq<char>) -> Seq<char> {
    s + " "@ + p + " "@ + o
}

pub fn triple_text(s: &str, p: &str, o: &str) -> (r: String)
    ensures
        r@ == triple(s@, p@, o@),
{
    s.to_owned().concat(" ").concat(p).concat(" ").concat(o)
}

/// `<base local>`
pub open spec fn iri(base: Seq<char>, local: Seq<char>) -> Seq<char> {
    "<"@ + base + local + ">"@
}

pub fn iri_text(base: &str, local: &str) -> (r: String)
    ensures
        r@ == iri(base@, local@),
{
    "<".to_owned().concat(base).concat(local).concat(">")
}

/// `OPTIONAL { body }`
pub open spec fn optional(body: Seq<char>) -> Seq<char> {
    "OPTIONAL { "@ + body + " }"@
}

pub fn optional_text(body: &str) -> (r: String)
    ensures
        r@ == optional(body@),
{
    "OPTIONAL { ".to_owned().concat(body).concat(" }")
}

/// One type triple for each label.
pub open spec fn type_triples(
    s: Seq<char>,
    base: Seq<char>,
    labels: Seq<Seq<char>>,
    end: Seq<char>,
) -> Seq<Seq<char>> {
    labels.map_values(|l: Seq<char>| type_triple(s, base, l) + end)
}

fn push_type_triples(s: &str, base: &str, labels: &Vec<String>, end: &str, parts: &mut Vec<String>)
    ensures
        texts(final(parts)@) == texts(old(parts)@) + type_triples(
            s@,
            base@,
            texts(labels@),
            end@,
        ),
{
    let ghost before = texts(parts@);
    assert(type_triples(s@, base@, texts(labels@).take(0), end@) =~= Seq::empty());
    for i in 0..labels.len()
        invariant
            texts(parts@) == before + type_triples(s@, base@, texts(labels@).take(i as int), end@),
    {
        let t = type_triple_text(s, base, labels[i].as_str()).concat(end);
        push_text(parts, t);
        assert(texts(parts@) =~= before + type_triples(
            s@,
            base@,
            texts(labels@).take(i + 1),
            end@,
        ));
    }
    assert(texts(labels@).take(labels@.len() as int) =~= texts(labels@));
}

// ── Relationships ────────────────────────────────────────────────────────────

/// The variable for the type of an untyped relationship.
pub open spec fn pred_var(from: Seq<char>, to: Seq<char>) -> Seq<char> {
    "?__pred_"@ + from + "_"@ + to
}

pub fn pred_var_text(from: &str, to: &str) -> (r: String)
    ensures
        r@ == pred_var(from@, to@),
{
    "?__pred_".to_owned().concat(from).concat("_").concat(to)
}

/// The pattern of a relationship with the given predicate, either way round
/// where it has no direction.
pub open spec fn rel_pattern(
    from: Seq<char>,
    pred: Seq<char>,
    to: Seq<char>,
    direction: Direction,
) -> Seq<char> {
    match direction {
        Direction::Outgoing => triple(var(from), pred, var(to)),
        Direction::Incoming => triple(var(to), pred, var(from)),
        Direction::Undirected => "{ "@ + triple(var(from), pred, var(to)) + " } UNION { "@ + triple(
            var(to),
            pred,
            var(from),
        ) + " }"@,
    }
}

fn rel_pattern_text(from: &str, pred: &str, to: &str, direction: Direction) -> (r: String)
    ensures
        r@ == rel_pattern(from@, pred@, to@, direction),
{
    let f = var_text(from);
    let t = var_text(to);
    let there = triple_text(f.as_str(), pred, t.as_str());
    let back = triple_text(t.as_str(), pred, f.as_str());
    match direction {
        Direction::Outgoing => there,
        Direction::Incoming => back,
        Direction::Undirected => "{ ".to_owned().concat(there.as_str()).concat(" } UNION { ").concat(
            back.as_str(),
        ).concat(" }"),
    }
}

/// The patterns of an expansion: one for each relationship type, or one with a
/// variable predicate, whose target must be a node where it has a direction.
pub open spec fn expand_parts(
    from: Seq<char>,
    to: Seq<char>,
    rel_types: Seq<Seq<char>>,
    direction: Direction,
    base: Seq<char>,
) -> Seq<Seq<char>> {
    if rel_types.len() == 0 {
        let pattern = rel_pattern(from, pred_var(from, to), to, direction);
        match direction {
            Direction::Outgoing => seq![node_triple(var(to), base), pattern],
            Direction::Incoming => seq![node_triple(var(from), base), pattern],
            Direction::Undirected => seq![pattern],
        }
    } else {
        rel_types.map_values(|rt: Seq<char>| rel_pattern(from, iri(base, rt), to, direction))
    }
}

fn push_expand_parts(
    from: &str,
    to: &str,
    rel_types: &Vec<String>,
    direction: Direction,
    base: &str,
    parts: &mut Vec<String>,
)
    ensures
        texts(final(parts)@) == texts(old(parts)@) + expand_parts(
            from@,
            to@,
            texts(rel_types@),
            direction,
            base@,
        ),
{
    let ghost before = texts(parts@);
    if rel_types.len() == 0 {
        let pred = pred_var_text(from, to);
        match direction {
            Direction::Outgoing => {
                let v = var_text(to);
                push_text(parts, node_triple_text(v.as_str(), base));
            },
            Direction::Incoming => {
                let v = var_text(from);
                push_text(parts, node_triple_text(v.as_str(), base));
            },
            Direction::Undirected => {},
        }
        push_text(parts, rel_pattern_text(from, pred.as_str(), to, direction));
        assert(texts(parts@) =~= before + expand_parts(
            from@,
            to@,
            texts(rel_types@),
            direction,
            base@,
        ));
    } else {
        let ghost all = expand_parts(from@, to@, texts(rel_types@), direction, base@);
        for i in 0..rel_types.len()
            invariant
                rel_types@.len() > 0,
                all == expand_parts(from@, to@, texts(rel_types@), direction, base@),
                texts(parts@) =~= before + all.take(i as int),
        {
            let pred = iri_text(base, rel_types[i].as_str());
            push_text(parts, rel_pattern_text(from, pred.as_str(), to, direction));
            assert(all[i as int] == rel_pattern(
                from@,
                iri(base@, texts(rel_types@)[i as int]),
                to@,
                direction,
            ));
            assert(all.take(i + 1) =~= all.take(i as int).push(all[i as int]));
        }
        assert(all.take(rel_types@.len() as int) =~= all);
    }
}

// ── Predicates ───────────────────────────────────────────────────────────────

/// What a step adds to the WHERE clause, and the expression it yields, if any.
pub struct Filtered {
    pub added: Seq<Seq<char>>,
    pub text: Option<Seq<char>>,
}

/// `?__var_key_suffix`
pub open spec fn prop_var(name: Seq<char>, key: Seq<char>, suffix: Seq<char>) -> Seq<char> {
    "?__"@ + name + "_"@ + key + suffix
}

pub fn prop_var_text(name: &str, key: &str, suffix: &str) -> (r: String)
    ensures
        r@ == prop_var(name@, key@, suffix@),
{
    "?__".to_owned().concat(name).concat("_").concat(key).concat(suffix)
}

/// An expression inside a filter. A property is read into a variable of its own
/// by an OPTIONAL pattern.
pub open spec fn filter_expr(e: Expr, base: Seq<char>) -> Filtered
    decreases e,
{
    match e {
        Expr::Literal(lit) => Filtered { added: seq![], text: lit_to_sparql_spec(lit) },
        Expr::Variable { name } => Filtered { added: seq![], text: Some(var(name@)) },
        Expr::Property(node, key) => match *node {
            Expr::Variable { name } => {
                let v = prop_var(name@, key@, "_flt"@);
                Filtered {
                    added: seq![optional(triple(var(name@), iri(base, key@), v))],
                    text: Some(v),
                }
            },
            _ => Filtered { added: seq![], text: None },
        },
        Expr::Unary(UnaryOp::Neg, inner) => {
            let f = filter_expr(*inner, base);
            match f.text {
                Some(s) => Filtered { added: f.added, text: Some("(-"@ + s + ")"@) },
                None => f,
            }
        },
        _ => Filtered { added: seq![], text: None },
    }
}

pub fn expr_to_filter_expr(expr: &Expr, base: &str, parts: &mut Vec<String>) -> (r: Option<String>)
    ensures
        opt_text(r) == filter_expr(*expr, base@).text,
        texts(final(parts)@) == texts(old(parts)@) + filter_expr(*expr, base@).added,
    decreases expr,
{
    let ghost before = texts(parts@);
    assert(before + Seq::<Seq<char>>::empty() =~= before);
    match expr {
        Expr::Literal(lit) => lit_to_sparql(lit),
        Expr::Variable { name } => Some(var_text(name.as_str())),
        Expr::Property(node, key) => match &**node {
            Expr::Variable { name } => {
                let v = prop_var_text(name.as_str(), key.as_str(), "_flt");
                let s = var_text(name.as_str());
                let p = iri_text(base, key.as_str());
                let t = triple_text(s.as_str(), p.as_str(), v.as_str());
                push_text(parts, optional_text(t.as_str()));
                assert(texts(parts@) =~= before + filter_expr(*expr, base@).added);
                Some(v)
            },
            _ => None,
        },
        Expr::Unary(UnaryOp::Neg, inner) => {
            match expr_to_filter_expr(inner, base, parts) {
                Some(s) => Some("(-".to_owned().concat(s.as_str()).concat(")")),
                None => None,
            }
        },
        _ => None,
    }
}

pub open spec fn cmp_sign(op: CmpOp) -> Option<Seq<char>> {
    match op {
        CmpOp::Eq => Some("="@),
        CmpOp::Ne => Some("!="@),
        CmpOp::Lt => Some("<"@),
        CmpOp::Le => Some("<="@),
        CmpOp::Gt => Some(">"@),
        CmpOp::Ge => Some(">="@),
        _ => None,
    }
}

/// `FILTER(lhs op rhs)`, with the patterns that its two sides need.
pub open spec fn filter_of(op: CmpOp, lhs: Expr, rhs: Expr, base: Seq<char>) -> Filtered {
    let l = filter_expr(lhs, base);
    match l.text {
        None => l,
        Some(a) => {
            let r = filter_expr(rhs, base);
            let added = l.added + r.added;
            match (r.text, cmp_sign(op)) {
                (Some(b), Some(sign)) => Filtered {
                    added,
                    text: Some("FILTER("@ + a + " "@ + sign + " "@ + b + ")"@),
                },
                _ => Filtered { added, text: None },
            }
        },
    }
}

pub fn comparison_to_filter(
    op: CmpOp,
    lhs: &Expr,
    rhs: &Expr,
    base: &str,
    parts: &mut Vec<String>,
) -> (r: Option<String>)
    ensures
        opt_text(r) == filter_of(op, *lhs, *rhs, base@).text,
        texts(final(parts)@) == texts(old(parts)@) + filter_of(op, *lhs, *rhs, base@).added,
{
    let ghost before = texts(parts@);
    let l = match expr_to_filter_expr(lhs, base, parts) {
        Some(s) => s,
        None => return None,
    };
    let r = expr_to_filter_expr(rhs, base, parts);
    assert(texts(parts@) =~= before + filter_of(op, *lhs, *rhs, base@).added);
    let r = match r {
        Some(s) => s,
        None => return None,
    };
    let sign = match op {
        CmpOp::Eq => "=",
        CmpOp::Ne => "!=",
        CmpOp::Lt => "<",
        CmpOp::Le => "<=",
        CmpOp::Gt => ">",
        CmpOp::Ge => ">=",
        _ => return None,
    };
    Some(
        "FILTER(".to_owned().concat(l.as_str()).concat(" ").concat(sign).concat(" ").concat(
            r.as_str(),
        ).concat(")"),
    )
}

/// `?n <base key> literal`, where the left side is a property of a variable and
/// the right side a constant.
pub open spec fn eq_triple(lhs: Expr, rhs: Expr, base: Seq<char>) -> Option<Seq<char>> {
    match lhs {
        Expr::Property(node, key) => match *node {
            Expr::Variable { name } => match expr_to_sparql_lit_spec(rhs) {
                Some(lit) => Some(triple(var(name@), iri(base, key@), lit)),
                None => None,
            },
            _ => None,
        },
        _ => None,
    }
}

pub fn eq_to_triple_pattern(lhs: &Expr, rhs: &Expr, base: &str) -> (r: Option<String>)
    ensures
        opt_text(r) == eq_triple(*lhs, *rhs, base@),
{
    match lhs {
        Expr::Property(node, key) => match &**node {
            Expr::Variable { name } => match expr_to_sparql_lit(rhs) {
                Some(lit) => {
                    let s = var_text(name.as_str());
                    let p = iri_text(base, key.as_str());
                    Some(triple_text(s.as_str(), p.as_str(), lit.as_str()))
                },
                None => None,
            },
            _ => None,
        },
        _ => None,
    }
}

pub open spec fn filtered_parts(f: Filtered) -> Seq<Seq<char>> {
    match f.text {
        Some(t) => f.added.push(t),
        None => f.added,
    }
}

/// `FILTER NOT EXISTS { triple }`
pub open spec fn not_exists(body: Seq<char>) -> Seq<char> {
    "FILTER NOT EXISTS { "@ + body + " }"@
}

pub fn not_exists_text(body: &str) -> (r: String)
    ensures
        r@ == not_exists(body@),
{
    "FILTER NOT EXISTS { ".to_owned().concat(body).concat(" }")
}

/// What a predicate adds to the WHERE clause: `n.p = constant` a triple pattern,
/// another comparison a filter, a label check type triples, a negated one
/// filters; a conjunction what its parts add. Anything else adds nothing.
pub open spec fn predicate_parts(e: Expr, base: Seq<char>) -> Seq<Seq<char>>
    decreases e,
{
    match e {
        Expr::Comparison(op, left, right) => {
            if op == CmpOp::Eq && eq_triple(*left, *right, base) is Some {
                seq![eq_triple(*left, *right, base)->0]
            } else if op == CmpOp::Eq && eq_triple(*right, *left, base) is Some {
                seq![eq_triple(*right, *left, base)->0]
            } else {
                filtered_parts(filter_of(op, *left, *right, base))
            }
        },
        Expr::And(a, b) => predicate_parts(*a, base) + predicate_parts(*b, base),
        Expr::LabelCheck { expr, labels } => match *expr {
            Expr::Variable { name } => type_triples(var(name@), base, texts(labels@), ""@),
            _ => seq![],
        },
        Expr::Not(inner) => match *inner {
            Expr::LabelCheck { expr, labels } => match *expr {
                Expr::Variable { name } => texts(labels@).map_values(
                    |l: Seq<char>| not_exists(type_triple(var(name@), base, l)),
                ),
                _ => seq![],
            },
            _ => seq![],
        },
        _ => seq![],
    }
}

pub fn push_predicate_parts(expr: &Expr, base: &str, parts: &mut Vec<String>)
    ensures
        texts(final(parts)@) == texts(old(parts)@) + predicate_parts(*expr, base@),
    decreases expr,
{
    let ghost before = texts(parts@);
    assert(before + Seq::<Seq<char>>::empty() =~= before);
    match expr {
        Expr::Comparison(op, left, right) => {
            let there = if *op == CmpOp::Eq {
                eq_to_triple_pattern(left, right, base)
            } else {
                None
            };
            match there {
                Some(t) => {
                    push_text(parts, t);
                    assert(texts(parts@) =~= before + predicate_parts(*expr, base@));
                },
                None => {
                    let back = if *op == CmpOp::Eq {
                        eq_to_triple_pattern(right, left, base)
                    } else {
                        None
                    };
                    match back {
                        Some(t) => {
                            push_text(parts, t);
                            assert(texts(parts@) =~= before + predicate_parts(*expr, base@));
                        },
                        None => {
                            match comparison_to_filter(*op, left, right, base, parts) {
                                Some(f) => {
                                    push_text(parts, f);
                                },
                                None => {},
                            }
                            assert(texts(parts@) =~= before + predicate_parts(*expr, base@));
                        },
                    }
                },
            }
        },
        Expr::And(a, b) => {
            push_predicate_parts(a, base, parts);
            push_predicate_parts(b, base, parts);
            assert(texts(parts@) =~= before + predicate_parts(*expr, base@));
        },
        Expr::LabelCheck { expr: checked, labels } => match &**checked {
            Expr::Variable { name } => {
                let v = var_text(name.as_str());
                push_type_triples(v.as_str(), base, labels, "", parts);
            },
            _ => {},
        },
        Expr::Not(inner) => match &**inner {
            Expr::LabelCheck { expr: checked, labels } => match &**checked {
                Expr::Variable { name } => {
                    let v = var_text(name.as_str());
                    let ghost all = predicate_parts(*expr, base@);
                    assert(all.take(0) =~= Seq::empty());
                    for i in 0..labels.len()
                        invariant
                            v@ == var(name@),
                            all == texts(labels@).map_values(
                                |l: Seq<char>| not_exists(type_triple(var(name@), base@, l)),
                            ),
                            texts(parts@) == before + all.take(i as int),
                    {
                        let t = type_triple_text(v.as_str(), base, labels[i].as_str());
                        push_text(parts, not_exists_text(t.as_str()));
                        assert(all[i as int] == not_exists(
                            type_triple(var(name@), base@, texts(labels@)[i as int]),
                        ));
                        assert(all.take(i + 1) =~= all.take(i as int).push(all[i as int]));
                        assert(texts(parts@) =~= before + all.take(i + 1));
                    }
                    assert(all.take(labels@.len() as int) =~= all);
                },
                _ => {},
            },
            _ => {},
        },
        _ => {},
    }
}

// ── Bindings ─────────────────────────────────────────────────────────────────

/// An expression that a BIND can hold: a constant, a variable, or a `split` of
/// such.
pub open spec fn bind_expr(e: Expr) -> Option<Seq<char>>
    decreases e,
{
    match e {
        Expr::Literal(Literal::Integer(n)) => Some(dec(n as int)),
        Expr::Literal(Literal::Float(f)) => Some(f@),
        Expr::Literal(Literal::Boolean(b)) => Some(bool_word(b)),
        Expr::Literal(Literal::String(s)) => Some(quoted(s@, Escapes::Plain)),
        Expr::Variable { name } => Some(var(name@)),
        Expr::FunctionCall { name, args, .. } => {
            if same_ignoring_case(name@, "split"@) && args@.len() >= 2 {
                match (bind_expr(args@[0]), bind_expr(args@[1])) {
                    (Some(s), Some(d)) => Some(
                        "<urn:polygraph:split>("@ + s + ", "@ + d + ")"@,
                    ),
                    _ => None,
                }
            } else {
                None
            }
        },
        _ => None,
    }
}

pub fn try_expr_to_sparql_bind(expr: &Expr) -> (r: Option<String>)
    ensures
        opt_text(r) == bind_expr(*expr),
    decreases expr,
{
    match expr {
        Expr::Literal(Literal::Integer(n)) => Some(dec_i64(*n)),
        Expr::Literal(Literal::Float(f)) => Some(f.text.clone()),
        Expr::Literal(Literal::Boolean(b)) => Some(bool_text(*b)),
        Expr::Literal(Literal::String(s)) => Some(quote(s.as_str(), Escapes::Plain)),
        Expr::Variable { name } => Some(var_text(name.as_str())),
        Expr::FunctionCall { name, args, .. } => {
            if eq_ignore_ascii_case(name.as_str(), "split") && args.len() >= 2 {
                let s = try_expr_to_sparql_bind(&args[0]);
                let d = try_expr_to_sparql_bind(&args[1]);
                match (s, d) {
                    (Some(s), Some(d)) => Some(
                        "<urn:polygraph:split>(".to_owned().concat(s.as_str()).concat(", ").concat(
                            d.as_str(),
                        ).concat(")"),
                    ),
                    _ => None,
                }
            } else {
                None
            }
        },
        _ => None,
    }
}

/// `BIND(value AS ?name)`
pub open spec fn bind_as(value: Seq<char>, name: Seq<char>) -> Seq<char> {
    "BIND("@ + value + " AS "@ + var(name) + ")"@
}

pub fn bind_as_text(value: &str, name: &str) -> (r: String)
    ensures
        r@ == bind_as(value@, name@),
{
    let v = var_text(name);
    "BIND(".to_owned().concat(value).concat(" AS ").concat(v.as_str()).concat(")")
}

/// What a projected item binds: a rename, or a value that a BIND can hold. An
/// item that keeps its name, and one that has no SPARQL form, bind nothing.
pub open spec fn item_part(item: ProjItem) -> Option<Seq<char>> {
    match item.expr {
        Expr::Variable { name } => if name@ != item.alias@ {
            Some(bind_as(var(name@), item.alias@))
        } else {
            None
        },
        _ => match bind_expr(item.expr) {
            Some(s) => Some(bind_as(s, item.alias@)),
            None => None,
        },
    }
}

fn item_part_text(item: &ProjItem) -> (r: Option<String>)
    ensures
        opt_text(r) == item_part(*item),
{
    match &item.expr {
        Expr::Variable { name } => {
            if !same_text(name.as_str(), item.alias.as_str()) {
                let v = var_text(name.as_str());
                Some(bind_as_text(v.as_str(), item.alias.as_str()))
            } else {
                None
            }
        },
        other => match try_expr_to_sparql_bind(other) {
            Some(s) => Some(bind_as_text(s.as_str(), item.alias.as_str())),
            None => None,
        },
    }
}

pub open spec fn item_parts(items: Seq<ProjItem>) -> Seq<Seq<char>>
    decreases items.len(),
{
    if items.len() == 0 {
        seq![]
    } else {
        match item_part(items.last()) {
            Some(p) => item_parts(items.drop_last()).push(p),
            None => item_parts(items.drop_last()),
        }
    }
}

fn push_item_parts(items: &Vec<ProjItem>, parts: &mut Vec<String>)
    ensures
        texts(final(parts)@) == texts(old(parts)@) + item_parts(items@),
{
    let ghost before = texts(parts@);
    assert(before + item_parts(items@.take(0)) =~= before);
    for i in 0..items.len()
        invariant
            texts(parts@) == before + item_parts(items@.take(i as int)),
    {
        assert(items@.take(i + 1).drop_last() =~= items@.take(i as int));
        match item_part_text(&items[i]) {
            Some(p) => {
                push_text(parts, p);
            },
            None => {},
        }
        assert(texts(parts@) =~= before + item_parts(items@.take(i + 1)));
    }
    assert(items@.take(items@.len() as int) =~= items@);
}

/// `VALUES (?name) { (constant) }` for each binding of a constant.
pub open spec fn value_parts(bindings: Seq<(String, Expr)>) -> Seq<Seq<char>>
    decreases bindings.len(),
{
    if bindings.len() == 0 {
        seq![]
    } else {
        let before = value_parts(bindings.drop_last());
        match expr_to_sparql_lit_spec(bindings.last().1) {
            Some(lit) => before.push(
                "VALUES ("@ + var(bindings.last().0@) + ") { ("@ + lit + ") }"@,
            ),
            None => before,
        }
    }
}

fn push_value_parts(bindings: &Vec<(String, Expr)>, parts: &mut Vec<String>)
    ensures
        texts(final(parts)@) == texts(old(parts)@) + value_parts(bindings@),
{
    let ghost before = texts(parts@);
    assert(before + value_parts(bindings@.take(0)) =~= before);
    for i in 0..bindings.len()
        invariant
            texts(parts@) == before + value_parts(bindings@.take(i as int)),
    {
        assert(bindings@.take(i + 1).drop_last() =~= bindings@.take(i as int));
        match expr_to_sparql_lit(&bindings[i].1) {
            Some(lit) => {
                let v = var_text(bindings[i].0.as_str());
                let p = "VALUES (".to_owned().concat(v.as_str()).concat(") { (").concat(
                    lit.as_str(),
                ).concat(") }");
                push_text(parts, p);
            },
            None => {},
        }
        assert(texts(parts@) =~= before + value_parts(bindings@.take(i + 1)));
    }
    assert(bindings@.take(bindings@.len() as int) =~= bindings@);
}

/// The constants of a list as rows, where all of them are constants.
pub open spec fn rows(items: Seq<Expr>) -> Option<Seq<Seq<char>>>
    decreases items.len(),
{
    if items.len() == 0 {
        Some(seq![])
    } else {
        match (rows(items.drop_last()), expr_to_sparql_lit_spec(items.last())) {
            (Some(done), Some(lit)) => Some(done.push("("@ + lit + ")"@)),
            _ => None,
        }
    }
}

/// What an UNWIND adds: its list as a VALUES clause, where the list is not empty
/// and holds constants only.
pub open spec fn unwind_parts(variable: Seq<char>, list: Expr) -> Seq<Seq<char>> {
    match list {
        Expr::List(items) => match rows(items@) {
            Some(vals) => if vals.len() > 0 {
                seq!["VALUES ("@ + var(variable) + ") { "@ + join_spec(vals, " "@) + " }"@]
            } else {
                seq![]
            },
            None => seq![],
        },
        _ => seq![],
    }
}

proof fn lemma_rows_none(items: Seq<Expr>, n: int)
    requires
        0 <= n <= items.len(),
        rows(items.take(n)) is None,
    ensures
        rows(items) is None,
    decreases items.len() - n,
{
    if n == items.len() {
        assert(items.take(n) =~= items);
    } else {
        assert(items.take(n + 1).drop_last() =~= items.take(n));
        lemma_rows_none(items, n + 1);
    }
}

fn push_unwind_parts(variable: &str, list: &Expr, parts: &mut Vec<String>)
    ensures
        texts(final(parts)@) == texts(old(parts)@) + unwind_parts(variable@, *list),
{
    let ghost before = texts(parts@);
    assert(before + Seq::<Seq<char>>::empty() =~= before);
    match list {
        Expr::List(items) => {
            let mut vals: Vec<String> = Vec::new();
            for i in 0..items.len()
                invariant
                    rows(items@.take(i as int)) == Some(texts(vals@)),
                    *list == Expr::List(*items),
                    texts(parts@) == before,
                    before + Seq::<Seq<char>>::empty() == before,
                    *parts == *old(parts),
                    before == texts(old(parts)@),
            {
                assert(items@.take(i + 1).drop_last() =~= items@.take(i as int));
                match expr_to_sparql_lit(&items[i]) {
                    Some(lit) => {
                        push_text(&mut vals, "(".to_owned().concat(lit.as_str()).concat(")"));
                    },
                    None => {
                        proof {
                            lemma_rows_none(items@, i + 1);
                        }
                        return;
                    },
                }
            }
            assert(items@.take(items@.len() as int) =~= items@);
            if vals.len() > 0 {
                let v = var_text(variable);
                let body = join(&vals, " ");
                let p = "VALUES (".to_owned().concat(v.as_str()).concat(") { ").concat(
                    body.as_str(),
                ).concat(" }");
                push_text(parts, p);
                assert(texts(parts@) =~= before + unwind_parts(variable@, *list));
            }
        },
        _ => {},
    }
}

// ── Created nodes ────────────────────────────────────────────────────────────

/// The patterns by which a created node is found again: its labels, or that it
/// is a node.
pub open spec fn found_by(name: Seq<char>, labels: Seq<Seq<char>>, base: Seq<char>) -> Seq<
    Seq<char>,
> {
    if labels.len() == 0 {
        seq![node_triple(var(name), base) + " ."@]
    } else {
        type_triples(var(name), base, labels, " ."@)
    }
}

fn push_found_by(name: &str, labels: &Vec<String>, base: &str, parts: &mut Vec<String>)
    ensures
        texts(final(parts)@) == texts(old(parts)@) + found_by(name@, texts(labels@), base@),
{
    let ghost before = texts(parts@);
    let v = var_text(name);
    if labels.len() == 0 {
        push_text(parts, node_triple_text(v.as_str(), base).concat(" ."));
        assert(texts(parts@) =~= before + found_by(name@, texts(labels@), base@));
    } else {
        push_type_triples(v.as_str(), base, labels, " .", parts);
    }
}

/// The patterns for the user-named nodes of a CREATE. Where `bnodes` is given,
/// a node with an IRI of its own is bound to it, and one that is a variable
/// already needs no pattern.
pub open spec fn created_parts(
    nodes: Seq<CreateNode>,
    base: Seq<char>,
    bnodes: Option<Map<Seq<char>, Seq<char>>>,
) -> Seq<Seq<char>>
    decreases nodes.len(),
{
    if nodes.len() == 0 {
        seq![]
    } else {
        created_parts(nodes.drop_last(), base, bnodes) + created_part(nodes.last(), base, bnodes)
    }
}

pub open spec fn created_part(
    node: CreateNode,
    base: Seq<char>,
    bnodes: Option<Map<Seq<char>, Seq<char>>>,
) -> Seq<Seq<char>> {
    if !user_named(node) {
        seq![]
    } else {
        let name = node.variable->0@;
        if bnodes is Some && bnodes->0.contains_key(name) && starts_with_char_spec(
            bnodes->0[name],
            '<',
        ) {
            seq![bind_as(bnodes->0[name], name)]
        } else if bnodes is Some && bnodes->0.contains_key(name) && starts_with_char_spec(
            bnodes->0[name],
            '?',
        ) {
            seq![]
        } else {
            found_by(name, texts(node.labels@), base)
        }
    }
}

fn push_created_parts(
    nodes: &Vec<CreateNode>,
    base: &str,
    bnode_map: Option<&NameMap<String>>,
    parts: &mut Vec<String>,
)
    ensures
        texts(final(parts)@) == texts(old(parts)@) + created_parts(
            nodes@,
            base@,
            match bnode_map {
                Some(m) => Some(m@),
                None => None,
            },
        ),
{
    let ghost before = texts(parts@);
    let ghost bnodes: Option<Map<Seq<char>, Seq<char>>> = match bnode_map {
        Some(m) => Some(m@),
        None => None,
    };
    assert(before + created_parts(nodes@.take(0), base@, bnodes) =~= before);
    for i in 0..nodes.len()
        invariant
            bnodes == (match bnode_map {
                Some(m) => Some(m@),
                None => None,
            }),
            texts(parts@) == before + created_parts(nodes@.take(i as int), base@, bnodes),
    {
        let ghost now = texts(parts@);
        assert(nodes@.take(i + 1).drop_last() =~= nodes@.take(i as int));
        let node = &nodes[i];
        if is_user_named(node) {
            match &node.variable {
                Some(name) => {
                    let bound = match bnode_map {
                        Some(m) => m.get(name.as_str()),
                        None => None,
                    };
                    match bound {
                        Some(iri) => {
                            if starts_with_char(iri.as_str(), '<') {
                                push_text(parts, bind_as_text(iri.as_str(), name.as_str()));
                            } else if !starts_with_char(iri.as_str(), '?') {
                                push_found_by(name.as_str(), &node.labels, base, parts);
                            }
                        },
                        None => {
                            push_found_by(name.as_str(), &node.labels, base, parts);
                        },
                    }
                },
                None => {},
            }
        }
        assert(texts(parts@) =~= now + created_part(*node, base@, bnodes));
        assert(texts(parts@) =~= before + created_parts(nodes@.take(i + 1), base@, bnodes));
    }
    assert(nodes@.take(nodes@.len() as int) =~= nodes@);
}

// ── Match contexts ───────────────────────────────────────────────────────────

pub open spec fn scan_parts(
    variable: Seq<char>,
    label: Option<String>,
    extra_labels: Seq<Seq<char>>,
    base: Seq<char>,
) -> Seq<Seq<char>> {
    let node = seq![node_triple(var(variable), base)];
    let first = match label {
        Some(l) => seq![type_triple(var(variable), base, l@)],
        None => seq![],
    };
    node + first + type_triples(var(variable), base, extra_labels, ""@)
}

/// The WHERE clause of a match context, part by part, or the construct that it
/// cannot be written with.
pub open spec fn where_parts(op: Op, base: Seq<char>) -> Result<Seq<Seq<char>>, Seq<char>>
    decreases op,
{
    match op {
        Op::Unit => Ok(seq![]),
        Op::Scan { variable, label, extra_labels } => Ok(
            scan_parts(variable@, label, texts(extra_labels@), base),
        ),
        Op::Selection { inner, predicate } => match where_parts(*inner, base) {
            Ok(parts) => Ok(parts + predicate_parts(predicate, base)),
            Err(c) => Err(c),
        },
        Op::Expand { inner, from, to, rel_types, direction, range, .. } => match range {
            None => match where_parts(*inner, base) {
                Ok(parts) => Ok(
                    parts + expand_parts(from@, to@, texts(rel_types@), direction, base),
                ),
                Err(c) => Err(c),
            },
            Some(_) => Err("write_where_varlen_expand"@),
        },
        Op::CartesianProduct { left, right } => match where_parts(*left, base) {
            Ok(a) => match where_parts(*right, base) {
                Ok(b) => Ok(a + b),
                Err(c) => Err(c),
            },
            Err(c) => Err(c),
        },
        Op::LeftOuterJoin { left, right, .. } => match where_parts(*left, base) {
            Ok(a) => match where_parts(*right, base) {
                Ok(b) => Ok(
                    if b.len() == 0 {
                        a
                    } else {
                        a.push(optional(join_spec(b, " . "@)))
                    },
                ),
                Err(c) => Err(c),
            },
            Err(c) => Err(c),
        },
        Op::Values { bindings } => Ok(value_parts(bindings@)),
        Op::OrderBy { inner, .. } => where_parts(*inner, base),
        Op::Distinct { inner } => where_parts(*inner, base),
        Op::Unwind { inner, variable, list } => match where_parts(*inner, base) {
            Ok(parts) => Ok(parts + unwind_parts(variable@, list)),
            Err(c) => Err(c),
        },
        Op::Projection { inner, items, .. } => match where_parts(*inner, base) {
            Ok(parts) => Ok(parts + item_parts(items@)),
            Err(c) => Err(c),
        },
        Op::GroupBy { inner, .. } => where_parts(*inner, base),
        Op::Create { inner, nodes, .. } => match where_parts(*inner, base) {
            Ok(parts) => Ok(parts + created_parts(nodes@, base, None)),
            Err(c) => Err(c),
        },
        Op::SetItems { inner, .. } => where_parts(*inner, base),
        Op::Delete { inner, .. } => where_parts(*inner, base),
        Op::Remove { inner, .. } => where_parts(*inner, base),
        Op::Merge { inner, .. } => where_parts(*inner, base),
        Op::Limit { .. } => Err("write_limit_skip_context"@),
        Op::Skip { .. } => Err("write_limit_skip_context"@),
        _ => Err("write_where_complex_op"@),
    }
}

/// The WHERE clause of a match context.
pub fn op_to_where_parts(op: &Op, base: &str) -> (r: Result<Vec<String>, PolygraphError>)
    ensures
        gives_texts(r, where_parts(*op, base@)),
    decreases op,
{
    match op {
        Op::Unit => {
            let parts: Vec<String> = Vec::new();
            assert(texts(parts@) =~= Seq::empty());
            Ok(parts)
        },
        Op::Scan { variable, label, extra_labels } => {
            let mut parts: Vec<String> = Vec::new();
            let v = var_text(variable.as_str());
            push_text(&mut parts, node_triple_text(v.as_str(), base));
            match label {
                Some(l) => {
                    push_text(&mut parts, type_triple_text(v.as_str(), base, l.as_str()));
                },
                None => {},
            }
            push_type_triples(v.as_str(), base, extra_labels, "", &mut parts);
            assert(texts(parts@) =~= scan_parts(
                variable@,
                *label,
                texts(extra_labels@),
                base@,
            ));
            Ok(parts)
        },
        Op::Selection { inner, predicate } => {
            let mut parts = op_to_where_parts(inner, base)?;
            push_predicate_parts(predicate, base, &mut parts);
            Ok(parts)
        },
        Op::Expand { inner, from, to, rel_types, direction, range: None, .. } => {
            let mut parts = op_to_where_parts(inner, base)?;
            push_expand_parts(from.as_str(), to.as_str(), rel_types, *direction, base, &mut parts);
            Ok(parts)
        },
        Op::Expand { range: Some(_), .. } => Err(write_unsupported("write_where_varlen_expand")),
        Op::CartesianProduct { left, right } => {
            let mut parts = op_to_where_parts(left, base)?;
            let mut more = op_to_where_parts(right, base)?;
            proof {
                lemma_texts_add(parts@, more@);
            }
            parts.append(&mut more);
            Ok(parts)
        },
        Op::LeftOuterJoin { left, right, .. } => {
            let mut parts = op_to_where_parts(left, base)?;
            let more = op_to_where_parts(right, base)?;
            if more.len() > 0 {
                let body = join(&more, " . ");
                push_text(&mut parts, optional_text(body.as_str()));
            }
            Ok(parts)
        },
        Op::Values { bindings } => {
            let mut parts: Vec<String> = Vec::new();
            push_value_parts(bindings, &mut parts);
            assert(texts(parts@) =~= value_parts(bindings@));
            Ok(parts)
        },
        Op::OrderBy { inner, .. } | Op::Distinct { inner, .. } => op_to_where_parts(inner, base),
        Op::Unwind { inner, list, variable } => {
            let mut parts = op_to_where_parts(inner, base)?;
            push_unwind_parts(variable.as_str(), list, &mut parts);
            Ok(parts)
        },
        Op::Projection { inner, items, .. } => {
            let mut parts = op_to_where_parts(inner, base)?;
            push_item_parts(items, &mut parts);
            Ok(parts)
        },
        Op::GroupBy { inner, .. } => op_to_where_parts(inner, base),
        Op::Create { inner, nodes, .. } => {
            let mut parts = op_to_where_parts(inner, base)?;
            push_created_parts(nodes, base, None, &mut parts);
            Ok(parts)
        },
        Op::SetItems { inner, .. }
        | Op::Delete { inner, .. }
        | Op::Remove { inner, .. }
        | Op::Merge { inner, .. } => op_to_where_parts(inner, base),
        Op::Limit { .. } | Op::Skip { .. } => Err(write_unsupported("write_limit_skip_context")),
        _ => Err(write_unsupported("write_where_complex_op")),
    }
}

/// As `where_parts`, but the nodes of a CREATE at the top are bound to the IRIs
/// that they were given.
pub open spec fn where_parts_with(
    op: Op,
    base: Seq<char>,
    bnodes: Map<Seq<char>, Seq<char>>,
) -> Result<Seq<Seq<char>>, Seq<char>>
    decreases op,
{
    match op {
        Op::Create { inner, nodes, .. } => match where_parts_with(*inner, base, bnodes) {
            Ok(parts) => Ok(parts + created_parts(nodes@, base, Some(bnodes))),
            Err(c) => Err(c),
        },
        _ => where_parts(op, base),
    }
}

pub fn op_to_where_parts_with_bnodes(
    op: &Op,
    base: &str,
    bnode_map: &NameMap<String>,
) -> (r: Result<Vec<String>, PolygraphError>)
    ensures
        gives_texts(r, where_parts_with(*op, base@, bnode_map@)),
    decreases op,
{
    match op {
        Op::Create { inner, nodes, .. } => {
            let mut parts = op_to_where_parts_with_bnodes(inner, base, bnode_map)?;
            push_created_parts(nodes, base, Some(bnode_map), &mut parts);
            Ok(parts)
        },
        _ => op_to_where_parts(op, base),
    }
}

// ── Questions about parts ────────────────────────────────────────────────────

/// Whether a part binds a value, and is no pattern of nodes or relationships.
pub open spec fn is_scalar_bind(part: Seq<char>) -> bool {
    starts_with_spec(trim_spec(part), "BIND("@) || starts_with_spec(trim_spec(part), "VALUES "@)
}

pub fn is_scalar_bind_clause(part: &str) -> (r: bool)
    ensures
        r == is_scalar_bind(part@),
{
    let t = trim(part);
    starts_with(t.as_str(), "BIND(") || starts_with(t.as_str(), "VALUES ")
}

/// Whether some part mentions the IRI of the property.
pub open spec fn key_in_where(key: Seq<char>, base: Seq<char>, parts: Seq<Seq<char>>) -> bool {
    any_contains_spec(parts, iri(base, key))
}

pub fn map_key_in_where(key: &str, base: &str, where_parts: &Vec<String>) -> (r: bool)
    ensures
        r == key_in_where(key@, base@, texts(where_parts@)),
{
    let p = iri_text(base, key);
    any_contains(where_parts, p.as_str())
}

} // verus!
