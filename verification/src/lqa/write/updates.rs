//! SET, REMOVE and DELETE as SPARQL updates.
use vstd::prelude::*;

use crate::error::{write_unsupported, PolygraphError};
#[allow(unused_imports)]
use crate::error::is_write_unsupported;
use crate::lqa::expr::{Expr, Literal, UnaryOp};
use crate::lqa::op::{Direction, RemoveItem, SetItem};
use crate::lqa::write::literals::{
    expr_to_sparql_lit, lit_to_sparql, lqa_write_serialize_literal, var_text, RDF_TYPE,
};
#[allow(unused_imports)]
use crate::lqa::write::literals::{
    expr_to_sparql_lit_spec, lit_to_sparql_spec, opt_text, serialize_spec, var,
};
#[allow(unused_imports)]
use crate::lqa::write::steps::{collect, lemma_collect_next, lemma_run_next, run_all, Outcome};
use crate::lqa::write::tree::RelVarBind;
#[allow(unused_imports)]
use crate::lqa::write::tree::RelVarBindView;
use crate::lqa::write::where_parts::{
    iri_text, map_key_in_where, node_triple_text, optional_text, pred_var_text, prop_var_text,
    triple_text, type_triple_text,
};
#[allow(unused_imports)]
use crate::lqa::write::where_parts::{
    iri, key_in_where, node_triple, optional, pred_var, prop_var, triple, type_triple,
};
use crate::names::NameMap;
use crate::text::{chars_of, contains, contains_char, join, list_has, push_text, slice_text};
#[allow(unused_imports)]
use crate::text::{keeps, lemma_keeps, contains_spec, has_char, join_spec, lists, texts};

verus! {

// ── Expressions over current values ──────────────────────────────────────────

/// The text of a constant list without its brackets.
pub open spec fn list_body(ser: Seq<char>) -> Seq<char> {
    ser.subrange(1, ser.len() - 1)
}

/// `cur + [body]` on list texts.
pub open spec fn append_list(cur: Seq<char>, body: Seq<char>) -> Seq<char> {
    "IF(STRLEN("@ + cur + ") = 2, \"["@ + body + "]\", CONCAT(SUBSTR("@ + cur + ", 1, STRLEN("@
        + cur + ")-1), \", "@ + body + "]\"))"@
}

/// `[body] + cur` on list texts.
pub open spec fn prepend_list(cur: Seq<char>, body: Seq<char>) -> Seq<char> {
    "IF(STRLEN("@ + cur + ") = 2, \"["@ + body + "]\", CONCAT(\"["@ + body + ", \", SUBSTR("@ + cur
        + ", 2)))"@
}

/// A property of a variable.
pub struct PropertyOf {
    pub name: Seq<char>,
    pub key: Seq<char>,
}

/// The variable and the property that the expression reads, where it reads one.
pub open spec fn property_of_var(e: Expr) -> Option<PropertyOf> {
    match e {
        Expr::Property(node, key) => match *node {
            Expr::Variable { name } => Some(PropertyOf { name: name@, key: key@ }),
            _ => None,
        },
        _ => None,
    }
}

/// The variable that holds the current value of a property.
pub open spec fn current(p: PropertyOf) -> Seq<char> {
    prop_var(p.name, p.key, "_cur"@)
}

/// `(a op b)`, where both sides have a text.
pub open spec fn infix(a: Option<Seq<char>>, op: Seq<char>, b: Option<Seq<char>>) -> Option<
    Seq<char>,
> {
    match (a, b) {
        (Some(x), Some(y)) => Some("("@ + x + " "@ + op + " "@ + y + ")"@),
        _ => None,
    }
}

/// An expression over variables and over the current values of properties.
/// Adding a constant list to a property, on either side, splices list texts.
pub open spec fn update_expr(e: Expr) -> Option<Seq<char>>
    decreases e,
{
    match e {
        Expr::Literal(lit) => lit_to_sparql_spec(lit),
        Expr::Variable { name } => Some(var(name@)),
        Expr::Property(_, _) => match property_of_var(e) {
            Some(p) => Some(current(p)),
            None => None,
        },
        Expr::Unary(UnaryOp::Neg, inner) => match update_expr(*inner) {
            Some(s) => Some("(-"@ + s + ")"@),
            None => None,
        },
        Expr::Add(a, b) => {
            if property_of_var(*a) is Some && *b is List && serialize_spec(*b) is Some {
                let cur = current(property_of_var(*a)->0);
                if (*b)->List_0@.len() == 0 {
                    Some(cur)
                } else {
                    Some(append_list(cur, list_body(serialize_spec(*b)->0)))
                }
            } else if *a is List && property_of_var(*b) is Some && serialize_spec(*a) is Some {
                let cur = current(property_of_var(*b)->0);
                if (*a)->List_0@.len() == 0 {
                    Some(cur)
                } else {
                    Some(prepend_list(cur, list_body(serialize_spec(*a)->0)))
                }
            } else {
                infix(update_expr(*a), "+"@, update_expr(*b))
            }
        },
        Expr::Sub(a, b) => infix(update_expr(*a), "-"@, update_expr(*b)),
        Expr::Mul(a, b) => infix(update_expr(*a), "*"@, update_expr(*b)),
        Expr::Div(a, b) => infix(update_expr(*a), "/"@, update_expr(*b)),
        _ => None,
    }
}

fn property_parts(e: &Expr) -> (r: Option<(&String, &String)>)
    ensures
        match r {
            Some((name, key)) => property_of_var(*e) == Some(PropertyOf { name: name@, key: key@ }),
            None => property_of_var(*e) is None,
        },
{
    match e {
        Expr::Property(node, key) => match &**node {
            Expr::Variable { name } => Some((name, key)),
            _ => None,
        },
        _ => None,
    }
}

/// The body of a constant list, and whether the list is empty.
fn constant_list_body(e: &Expr) -> (r: Option<(String, bool)>)
    ensures
        match r {
            Some((body, empty)) => *e is List && serialize_spec(*e) is Some && body@ == list_body(
                serialize_spec(*e)->0,
            ) && empty == ((*e)->List_0@.len() == 0),
            None => !(*e is List && serialize_spec(*e) is Some),
        },
{
    match e {
        Expr::List(items) => match lqa_write_serialize_literal(e) {
            Some(ser) => {
                let v = chars_of(ser.as_str());
                proof {
                    reveal_strlit("[");
                    reveal_strlit("]");
                }
                let body = slice_text(&v, 1, v.len() - 1);
                Some((body, items.len() == 0))
            },
            None => None,
        },
        _ => None,
    }
}

/// `(a op b)`, where both sides have a text.
pub fn binary_op(a: Option<String>, op: &str, b: Option<String>) -> (r: Option<String>)
    ensures
        opt_text(r) == infix(opt_text(a), op@, opt_text(b)),
{
    match (a, b) {
        (Some(x), Some(y)) => Some(
            "(".to_owned().concat(x.as_str()).concat(" ").concat(op).concat(" ").concat(
                y.as_str(),
            ).concat(")"),
        ),
        _ => None,
    }
}

fn append_list_text(cur: &str, body: &str) -> (r: String)
    ensures
        r@ == append_list(cur@, body@),
{
    "IF(STRLEN(".to_owned().concat(cur).concat(") = 2, \"[").concat(body).concat(
        "]\", CONCAT(SUBSTR(",
    ).concat(cur).concat(", 1, STRLEN(").concat(cur).concat(")-1), \", ").concat(body).concat(
        "]\"))",
    )
}

fn prepend_list_text(cur: &str, body: &str) -> (r: String)
    ensures
        r@ == prepend_list(cur@, body@),
{
    "IF(STRLEN(".to_owned().concat(cur).concat(") = 2, \"[").concat(body).concat(
        "]\", CONCAT(\"[",
    ).concat(body).concat(", \", SUBSTR(").concat(cur).concat(", 2)))")
}

/// The text of an expression inside a BIND or FILTER; `None` where it has none.
pub fn expr_to_sparql_update_expr(expr: &Expr) -> (r: Option<String>)
    ensures
        opt_text(r) == update_expr(*expr),
    decreases expr,
{
    match expr {
        Expr::Literal(lit) => lit_to_sparql(lit),
        Expr::Variable { name } => Some(var_text(name.as_str())),
        Expr::Property(_, _) => match property_parts(expr) {
            Some((name, key)) => Some(prop_var_text(name.as_str(), key.as_str(), "_cur")),
            None => None,
        },
        Expr::Unary(UnaryOp::Neg, inner) => match expr_to_sparql_update_expr(inner) {
            Some(s) => Some("(-".to_owned().concat(s.as_str()).concat(")")),
            None => None,
        },
        Expr::Add(a, b) => {
            match (property_parts(a), constant_list_body(b)) {
                (Some((name, key)), Some((body, empty))) => {
                    let cur = prop_var_text(name.as_str(), key.as_str(), "_cur");
                    if empty {
                        return Some(cur);
                    }
                    return Some(append_list_text(cur.as_str(), body.as_str()));
                },
                _ => {},
            }
            match (constant_list_body(a), property_parts(b)) {
                (Some((body, empty)), Some((name, key))) => {
                    let cur = prop_var_text(name.as_str(), key.as_str(), "_cur");
                    if empty {
                        return Some(cur);
                    }
                    return Some(prepend_list_text(cur.as_str(), body.as_str()));
                },
                _ => {},
            }
            {
            let x = expr_to_sparql_update_expr(a);
            let y = expr_to_sparql_update_expr(b);
            binary_op(x, "+", y)
        }
        },
        Expr::Sub(a, b) => {
            let x = expr_to_sparql_update_expr(a);
            let y = expr_to_sparql_update_expr(b);
            binary_op(x, "-", y)
        },
        Expr::Mul(a, b) => {
            let x = expr_to_sparql_update_expr(a);
            let y = expr_to_sparql_update_expr(b);
            binary_op(x, "*", y)
        },
        Expr::Div(a, b) => {
            let x = expr_to_sparql_update_expr(a);
            let y = expr_to_sparql_update_expr(b);
            binary_op(x, "/", y)
        },
        _ => None,
    }
}


// ── Statements ───────────────────────────────────────────────────────────────

/// The WHERE clause, or that `n` is a node where there is none.
pub open spec fn where_or_node(base_where: Seq<char>, n: Seq<char>, base: Seq<char>) -> Seq<char> {
    if base_where.len() == 0 {
        node_triple(n, base)
    } else {
        base_where
    }
}

fn where_or_node_text(base_where: &str, n: &str, base: &str) -> (r: String)
    ensures
        r@ == where_or_node(base_where@, n@, base@),
{
    if base_where.is_empty() {
        node_triple_text(n, base)
    } else {
        base_where.to_owned()
    }
}

/// `DELETE { del } WHERE { cond }`
pub open spec fn delete_where(del: Seq<char>, cond: Seq<char>) -> Seq<char> {
    "DELETE { "@ + del + " } WHERE { "@ + cond + " }"@
}

pub fn delete_where_text(del: &str, cond: &str) -> (r: String)
    ensures
        r@ == delete_where(del@, cond@),
{
    "DELETE { ".to_owned().concat(del).concat(" } WHERE { ").concat(cond).concat(" }")
}

/// `INSERT { ins } WHERE { cond }`
pub open spec fn insert_where(ins: Seq<char>, cond: Seq<char>) -> Seq<char> {
    "INSERT { "@ + ins + " } WHERE { "@ + cond + " }"@
}

pub fn insert_where_text(ins: &str, cond: &str) -> (r: String)
    ensures
        r@ == insert_where(ins@, cond@),
{
    "INSERT { ".to_owned().concat(ins).concat(" } WHERE { ").concat(cond).concat(" }")
}

/// `DELETE { del } INSERT { ins } WHERE { cond }`
pub open spec fn delete_insert(del: Seq<char>, ins: Seq<char>, cond: Seq<char>) -> Seq<char> {
    "DELETE { "@ + del + " } INSERT { "@ + ins + " } WHERE { "@ + cond + " }"@
}

pub fn delete_insert_text(del: &str, ins: &str, cond: &str) -> (r: String)
    ensures
        r@ == delete_insert(del@, ins@, cond@),
{
    "DELETE { ".to_owned().concat(del).concat(" } INSERT { ").concat(ins).concat(
        " } WHERE { ",
    ).concat(cond).concat(" }")
}

/// `a . b`
pub open spec fn and_then(a: Seq<char>, b: Seq<char>) -> Seq<char> {
    a + " . "@ + b
}

pub fn and_then_text(a: &str, b: &str) -> (r: String)
    ensures
        r@ == and_then(a@, b@),
{
    a.to_owned().concat(" . ").concat(b)
}

// ── SET ──────────────────────────────────────────────────────────────────────

/// The OPTIONAL patterns that read the current values of the properties in an
/// expression, each once, after those in `seen`.
pub open spec fn property_reads(e: Expr, base: Seq<char>, seen: Seq<Seq<char>>) -> Seq<Seq<char>>
    decreases e,
{
    match e {
        Expr::Property(_, _) => match property_of_var(e) {
            Some(p) => {
                let read = optional(triple(var(p.name), iri(base, p.key), current(p)));
                if lists(seen, read) {
                    seen
                } else {
                    seen.push(read)
                }
            },
            None => seen,
        },
        Expr::Add(a, b) => property_reads(*b, base, property_reads(*a, base, seen)),
        Expr::Sub(a, b) => property_reads(*b, base, property_reads(*a, base, seen)),
        Expr::Mul(a, b) => property_reads(*b, base, property_reads(*a, base, seen)),
        Expr::Div(a, b) => property_reads(*b, base, property_reads(*a, base, seen)),
        Expr::Unary(_, inner) => property_reads(*inner, base, seen),
        _ => seen,
    }
}

pub fn collect_property_bindings(expr: &Expr, base: &str, bindings: &mut Vec<String>)
    ensures
        texts(final(bindings)@) == property_reads(*expr, base@, texts(old(bindings)@)),
    decreases expr,
{
    match expr {
        Expr::Property(_, _) => match property_parts(expr) {
            Some((name, key)) => {
                let bound = prop_var_text(name.as_str(), key.as_str(), "_cur");
                let s = var_text(name.as_str());
                let p = iri_text(base, key.as_str());
                let t = triple_text(s.as_str(), p.as_str(), bound.as_str());
                let binding = optional_text(t.as_str());
                if !list_has(bindings, binding.as_str()) {
                    push_text(bindings, binding);
                }
            },
            None => {},
        },
        Expr::Add(a, b) | Expr::Sub(a, b) | Expr::Mul(a, b) | Expr::Div(a, b) => {
            collect_property_bindings(a, base, bindings);
            collect_property_bindings(b, base, bindings);
        },
        Expr::Unary(_, inner) => {
            collect_property_bindings(inner, base, bindings);
        },
        _ => {},
    }
}

/// The patterns that an expression needs to be evaluated, joined.
pub open spec fn property_bindings(e: Expr, base: Seq<char>) -> Seq<char> {
    join_spec(property_reads(e, base, seq![]), " . "@)
}

pub fn build_property_bindings(expr: &Expr, base: &str) -> (r: String)
    ensures
        r@ == property_bindings(*expr, base@),
{
    let mut bindings: Vec<String> = Vec::new();
    assert(texts(bindings@) =~= seq![]);
    collect_property_bindings(expr, base, &mut bindings);
    join(&bindings, " . ")
}

/// `SET n.key = value`: the old value, if any, goes; a constant or a computed
/// value takes its place; null leaves none.
pub open spec fn set_property(
    name: Seq<char>,
    key: Seq<char>,
    value: Expr,
    base_where: Seq<char>,
    base: Seq<char>,
) -> Outcome {
    let n = var(name);
    let old_value = prop_var(name, key, "_old"@);
    let new_value = prop_var(name, key, "_new"@);
    let was = triple(n, iri(base, key), old_value);
    let found = and_then(where_or_node(base_where, n, base), optional(was));
    match (expr_to_sparql_lit_spec(value), update_expr(value)) {
        (Some(lit), _) => Ok(seq![delete_insert(was, triple(n, iri(base, key), lit), found)]),
        (None, Some(e)) => {
            let bind = "BIND("@ + e + " AS "@ + new_value + ")"@;
            let reads = property_bindings(value, base);
            let binds = if reads.len() == 0 {
                bind
            } else {
                and_then(reads, bind)
            };
            Ok(
                seq![
                    delete_insert(
                        was,
                        triple(n, iri(base, key), new_value),
                        and_then(
                            and_then(found, binds),
                            "FILTER(BOUND("@ + new_value + "))"@,
                        ),
                    ),
                ],
            )
        },
        (None, None) => if value == Expr::Literal(Literal::Null) {
            Ok(seq![delete_where(was, found)])
        } else {
            Err("write_set_complex_expr"@)
        },
    }
}

/// One entry of `SET n += map`: null removes the property, a constant replaces
/// it. A key that the WHERE clause mentions is refused, since the update would
/// change what it matches.
pub open spec fn set_entry(
    name: Seq<char>,
    key: Seq<char>,
    value: Expr,
    parts: Seq<Seq<char>>,
    base: Seq<char>,
) -> Outcome {
    let n = var(name);
    let old_value = prop_var(name, key, "_old"@);
    let was = triple(n, iri(base, key), old_value);
    let cond = where_or_node(join_spec(parts, " . "@), n, base);
    if key_in_where(key, base, parts) {
        Err("write_set_replace_or_merge_map"@)
    } else if value == Expr::Literal(Literal::Null) {
        Ok(seq![delete_where(was, and_then(cond, was))])
    } else {
        match expr_to_sparql_lit_spec(value) {
            Some(lit) => Ok(
                seq![
                    delete_insert(was, triple(n, iri(base, key), lit), and_then(cond, optional(was))),
                ],
            ),
            None => Err("write_set_complex_map_expr"@),
        }
    }
}

/// The triples of a map's entries that are constants other than null.
pub open spec fn entry_triples(n: Seq<char>, pairs: Seq<(String, Expr)>, base: Seq<char>) -> Seq<
    Seq<char>,
> {
    collect(
        pairs,
        |p: (String, Expr)| match expr_to_sparql_lit_spec(p.1) {
            Some(lit) => seq![triple(n, iri(base, p.0@), lit)],
            None => seq![],
        },
    )
}

/// `SET n = map`: all properties go, those of the map come.
pub open spec fn replace_properties(
    name: Seq<char>,
    pairs: Seq<(String, Expr)>,
    base_where: Seq<char>,
    base: Seq<char>,
) -> Seq<char> {
    let n = var(name);
    let p = "?__"@ + name + "_p"@;
    let v = "?__"@ + name + "_v"@;
    let kept = "FILTER("@ + p + " != <"@ + RDF_TYPE@ + "> && "@ + p + " != <"@ + base
        + "__node>)"@;
    delete_insert(
        triple(n, p, v),
        join_spec(entry_triples(n, pairs, base), " . "@),
        and_then(where_or_node(base_where, n, base), optional(and_then(triple(n, p, v), kept))),
    )
}

/// The statements of one SET item.
pub open spec fn set_item(item: SetItem, parts: Seq<Seq<char>>, base: Seq<char>) -> Outcome {
    let base_where = join_spec(parts, " . "@);
    match item {
        SetItem::Property { variable, key, value } => set_property(
            variable@,
            key@,
            value,
            base_where,
            base,
        ),
        SetItem::Label { variable, labels } => Ok(
            texts(labels@).map_values(
                |l: Seq<char>|
                    insert_where(
                        type_triple(var(variable@), base, l),
                        where_or_node(base_where, var(variable@), base),
                    ),
            ),
        ),
        SetItem::MergeMap { variable, map } => match map {
            Expr::MapLit(pairs) => run_all(
                pairs@,
                |p: (String, Expr)| set_entry(variable@, p.0@, p.1, parts, base),
            ),
            _ => Err("write_set_replace_or_merge_map"@),
        },
        SetItem::Replace { variable, value } => {
            if has_char(base_where, '"') || contains_spec(base_where, "FILTER"@) {
                Err("write_set_replace_or_merge_map"@)
            } else {
                match value {
                    Expr::MapLit(pairs) => Ok(
                        seq![replace_properties(variable@, pairs@, base_where, base)],
                    ),
                    _ => Err("write_set_replace_or_merge_map"@),
                }
            }
        },
    }
}

/// The statements of a SET clause.
pub open spec fn set_items(items: Seq<SetItem>, parts: Seq<Seq<char>>, base: Seq<char>) -> Outcome {
    run_all(items, |it: SetItem| set_item(it, parts, base))
}

/// What a step of the compiler did: appended the statements that `want` holds,
/// or failed on the construct that `want` names. Statements that were there stay.
pub open spec fn appended(
    r: Result<(), PolygraphError>,
    before: Seq<Seq<char>>,
    after: Seq<Seq<char>>,
    want: Outcome,
) -> bool {
    match want {
        Ok(more) => r is Ok && after == before + more,
        Err(c) => (r matches Err(e) && is_write_unsupported(e, c)) && keeps(before, after),
    }
}

fn compile_set_property(
    name: &str,
    key: &str,
    value: &Expr,
    base_where: &str,
    base: &str,
    out: &mut Vec<String>,
) -> (r: Result<(), PolygraphError>)
    ensures
        appended(
            r,
            texts(old(out)@),
            texts(final(out)@),
            set_property(name@, key@, *value, base_where@, base@),
        ),
{
    let ghost before = texts(out@);
    proof {
        lemma_keeps(before);
    }
    let n = var_text(name);
    let p = iri_text(base, key);
    let old_value = prop_var_text(name, key, "_old");
    let new_value = prop_var_text(name, key, "_new");
    let was = triple_text(n.as_str(), p.as_str(), old_value.as_str());
    let cond = where_or_node_text(base_where, n.as_str(), base);
    let opt = optional_text(was.as_str());
    let found = and_then_text(cond.as_str(), opt.as_str());
    match expr_to_sparql_lit(value) {
        Some(lit) => {
            let now = triple_text(n.as_str(), p.as_str(), lit.as_str());
            push_text(out, delete_insert_text(was.as_str(), now.as_str(), found.as_str()));
        },
        None => match expr_to_sparql_update_expr(value) {
            Some(e) => {
                let bind = "BIND(".to_owned().concat(e.as_str()).concat(" AS ").concat(
                    new_value.as_str(),
                ).concat(")");
                let reads = build_property_bindings(value, base);
                let binds = if reads.as_str().is_empty() {
                    bind
                } else {
                    and_then_text(reads.as_str(), bind.as_str())
                };
                let now = triple_text(n.as_str(), p.as_str(), new_value.as_str());
                let bound = "FILTER(BOUND(".to_owned().concat(new_value.as_str()).concat("))");
                let with_binds = and_then_text(found.as_str(), binds.as_str());
                let cond = and_then_text(with_binds.as_str(), bound.as_str());
                push_text(out, delete_insert_text(was.as_str(), now.as_str(), cond.as_str()));
            },
            None => {
                if let Expr::Literal(Literal::Null) = value {
                    push_text(out, delete_where_text(was.as_str(), found.as_str()));
                } else {
                    return Err(write_unsupported("write_set_complex_expr"));
                }
            },
        },
    }
    assert(texts(out@) =~= before + set_property(name@, key@, *value, base_where@, base@)->Ok_0);
    Ok(())
}

fn compile_set_entry(
    name: &str,
    key: &str,
    value: &Expr,
    where_parts: &Vec<String>,
    base: &str,
    out: &mut Vec<String>,
) -> (r: Result<(), PolygraphError>)
    ensures
        appended(
            r,
            texts(old(out)@),
            texts(final(out)@),
            set_entry(name@, key@, *value, texts(where_parts@), base@),
        ),
{
    let ghost before = texts(out@);
    proof {
        lemma_keeps(before);
    }
    let n = var_text(name);
    let p = iri_text(base, key);
    let old_value = prop_var_text(name, key, "_old");
    let was = triple_text(n.as_str(), p.as_str(), old_value.as_str());
    let base_where = join(where_parts, " . ");
    let cond = where_or_node_text(base_where.as_str(), n.as_str(), base);
    if map_key_in_where(key, base, where_parts) {
        return Err(write_unsupported("write_set_replace_or_merge_map"));
    }
    if let Expr::Literal(Literal::Null) = value {
        let found = and_then_text(cond.as_str(), was.as_str());
        push_text(out, delete_where_text(was.as_str(), found.as_str()));
    } else {
        match expr_to_sparql_lit(value) {
            Some(lit) => {
                let now = triple_text(n.as_str(), p.as_str(), lit.as_str());
                let opt = optional_text(was.as_str());
                let found = and_then_text(cond.as_str(), opt.as_str());
                push_text(out, delete_insert_text(was.as_str(), now.as_str(), found.as_str()));
            },
            None => {
                return Err(write_unsupported("write_set_complex_map_expr"));
            },
        }
    }
    assert(texts(out@) =~= before + set_entry(
        name@,
        key@,
        *value,
        texts(where_parts@),
        base@,
    )->Ok_0);
    Ok(())
}

fn replace_properties_text(
    name: &str,
    pairs: &Vec<(String, Expr)>,
    base_where: &str,
    base: &str,
) -> (r: String)
    ensures
        r@ == replace_properties(name@, pairs@, base_where@, base@),
{
    let n = var_text(name);
    let p = "?__".to_owned().concat(name).concat("_p");
    let v = "?__".to_owned().concat(name).concat("_v");
    let mut triples: Vec<String> = Vec::new();
    let ghost entry = |p: (String, Expr)| match expr_to_sparql_lit_spec(p.1) {
        Some(lit) => seq![triple(n@, iri(base@, p.0@), lit)],
        None => seq![],
    };
    assert(texts(triples@) =~= collect(pairs@.take(0), entry));
    for i in 0..pairs.len()
        invariant
            n@ == var(name@),
            entry == (|p: (String, Expr)| match expr_to_sparql_lit_spec(p.1) {
                Some(lit) => seq![triple(n@, iri(base@, p.0@), lit)],
                None => seq![],
            }),
            texts(triples@) == collect(pairs@.take(i as int), entry),
    {
        let ghost now = texts(triples@);
        match expr_to_sparql_lit(&pairs[i].1) {
            Some(lit) => {
                let q = iri_text(base, pairs[i].0.as_str());
                push_text(&mut triples, triple_text(n.as_str(), q.as_str(), lit.as_str()));
            },
            None => {},
        }
        proof {
            lemma_collect_next(pairs@, entry, i as int);
            assert(texts(triples@) =~= now + entry(pairs@[i as int]));
        }
    }
    assert(pairs@.take(pairs@.len() as int) =~= pairs@);
    assert(collect(pairs@, entry) == entry_triples(n@, pairs@, base@));
    let ins = join(&triples, " . ");
    let kept = "FILTER(".to_owned().concat(p.as_str()).concat(" != <").concat(RDF_TYPE).concat(
        "> && ",
    ).concat(p.as_str()).concat(" != <").concat(base).concat("__node>)");
    let t = triple_text(n.as_str(), p.as_str(), v.as_str());
    let cond = where_or_node_text(base_where, n.as_str(), base);
    let body = and_then_text(t.as_str(), kept.as_str());
    let opt = optional_text(body.as_str());
    let found = and_then_text(cond.as_str(), opt.as_str());
    delete_insert_text(t.as_str(), ins.as_str(), found.as_str())
}

fn compile_set_item(
    item: &SetItem,
    where_parts: &Vec<String>,
    base: &str,
    out: &mut Vec<String>,
) -> (r: Result<(), PolygraphError>)
    ensures
        appended(
            r,
            texts(old(out)@),
            texts(final(out)@),
            set_item(*item, texts(where_parts@), base@),
        ),
{
    let ghost before = texts(out@);
    proof {
        lemma_keeps(before);
    }
    let ghost parts = texts(where_parts@);
    let base_where = join(where_parts, " . ");
    match item {
        SetItem::Property { variable, key, value } => compile_set_property(
            variable.as_str(),
            key.as_str(),
            value,
            base_where.as_str(),
            base,
            out,
        ),
        SetItem::Label { variable, labels } => {
            let n = var_text(variable.as_str());
            let cond = where_or_node_text(base_where.as_str(), n.as_str(), base);
            let ghost all = set_item(*item, parts, base@)->Ok_0;
            assert(all.take(0) =~= seq![]);
            assert(before + seq![] =~= before);
            for i in 0..labels.len()
                invariant
                    n@ == var(variable@),
                    base_where@ == join_spec(parts, " . "@),
                    cond@ == where_or_node(base_where@, n@, base@),
                    all == texts(labels@).map_values(
                        |l: Seq<char>|
                            insert_where(
                                type_triple(var(variable@), base@, l),
                                where_or_node(join_spec(parts, " . "@), var(variable@), base@),
                            ),
                    ),
                    texts(out@) == before + all.take(i as int),
            {
                let t = type_triple_text(n.as_str(), base, labels[i].as_str());
                push_text(out, insert_where_text(t.as_str(), cond.as_str()));
                assert(texts(labels@)[i as int] == labels@[i as int]@);
                assert(all.take(i + 1) =~= all.take(i as int).push(all[i as int]));
                assert(texts(out@) =~= before + all.take(i + 1));
            }
            assert(all.take(labels@.len() as int) =~= all);
            Ok(())
        },
        SetItem::MergeMap { variable, map } => match map {
            Expr::MapLit(pairs) => {
                let ghost step = |p: (String, Expr)| set_entry(variable@, p.0@, p.1, parts, base@);
                assert(before + seq![] =~= before);
                assert(run_all(pairs@.take(0), step) == Outcome::Ok(seq![]));
                for i in 0..pairs.len()
                    invariant
                        parts == texts(where_parts@),
                        step == (|p: (String, Expr)|
                            set_entry(variable@, p.0@, p.1, parts, base@)),
                        *item == (SetItem::MergeMap { variable: *variable, map: *map }),
                        *map == Expr::MapLit(*pairs),
                        run_all(pairs@.take(i as int), step) is Ok,
                        before == texts(old(out)@),
                        texts(out@) == before + run_all(pairs@.take(i as int), step)->Ok_0,
                {
                    let ghost now = texts(out@);
                    proof {
                        lemma_run_next(pairs@, step, i as int);
                        lemma_keeps(before);
                    }
                    compile_set_entry(
                        variable.as_str(),
                        pairs[i].0.as_str(),
                        &pairs[i].1,
                        where_parts,
                        base,
                        out,
                    )?;
                    assert(texts(out@) =~= before + run_all(pairs@.take(i + 1), step)->Ok_0);
                }
                assert(pairs@.take(pairs@.len() as int) =~= pairs@);
                Ok(())
            },
            _ => Err(write_unsupported("write_set_replace_or_merge_map")),
        },
        SetItem::Replace { variable, value } => {
            if contains_char(base_where.as_str(), '"') || contains(base_where.as_str(), "FILTER") {
                return Err(write_unsupported("write_set_replace_or_merge_map"));
            }
            match value {
                Expr::MapLit(pairs) => {
                    let s = replace_properties_text(
                        variable.as_str(),
                        pairs,
                        base_where.as_str(),
                        base,
                    );
                    push_text(out, s);
                    assert(texts(out@) =~= before + set_item(*item, parts, base@)->Ok_0);
                    Ok(())
                },
                _ => Err(write_unsupported("write_set_replace_or_merge_map")),
            }
        },
    }
}

/// A step that appended its statements, after those of the steps before it.
pub proof fn lemma_append_next<A>(
    items: Seq<A>,
    step: spec_fn(A) -> Outcome,
    n: int,
    before: Seq<Seq<char>>,
    now: Seq<Seq<char>>,
    after: Seq<Seq<char>>,
    r: Result<(), PolygraphError>,
)
    requires
        0 <= n < items.len(),
        run_all(items.take(n), step) is Ok,
        now == before + run_all(items.take(n), step)->Ok_0,
        appended(r, now, after, step(items[n])),
    ensures
        match r {
            Ok(_) => run_all(items.take(n + 1), step) is Ok && after == before + run_all(
                items.take(n + 1),
                step,
            )->Ok_0,
            Err(e) => run_all(items, step) is Err && is_write_unsupported(
                e,
                run_all(items, step)->Err_0,
            ) && keeps(before, after),
        },
{
    lemma_keeps(before);
    lemma_run_next(items, step, n);
    if r is Ok {
        assert(after =~= before + run_all(items.take(n + 1), step)->Ok_0);
    }
}

/// Compiles a SET clause.
#[verifier::spinoff_prover]
#[verifier::rlimit(60)]
pub fn compile_set_items(
    items: &Vec<SetItem>,
    where_parts: &Vec<String>,
    base: &str,
    out: &mut Vec<String>,
) -> (r: Result<(), PolygraphError>)
    ensures
        appended(
            r,
            texts(old(out)@),
            texts(final(out)@),
            set_items(items@, texts(where_parts@), base@),
        ),
{
    let ghost before = texts(out@);
    proof {
        lemma_keeps(before);
    }
    let ghost parts = texts(where_parts@);
    let ghost step = |it: SetItem| set_item(it, parts, base@);
    assert(before + seq![] =~= before);
    assert(run_all(items@.take(0), step) == Outcome::Ok(seq![]));
    for i in 0..items.len()
        invariant
            parts == texts(where_parts@),
            step == (|it: SetItem| set_item(it, parts, base@)),
            run_all(items@.take(i as int), step) is Ok,
            before == texts(old(out)@),
            texts(out@) == before + run_all(items@.take(i as int), step)->Ok_0,
    {
        let ghost now = texts(out@);
        let r = compile_set_item(&items[i], where_parts, base, out);
        proof {
            lemma_append_next(items@, step, i as int, before, now, texts(out@), r);
        }
        r?;
    }
    assert(items@.take(items@.len() as int) =~= items@);
    Ok(())
}

// ── REMOVE ───────────────────────────────────────────────────────────────────

/// The statements of one REMOVE item.
pub open spec fn remove_item(item: RemoveItem, base_where: Seq<char>, base: Seq<char>) -> Seq<
    Seq<char>,
> {
    match item {
        RemoveItem::Property { variable, key } => {
            let n = var(variable@);
            let gone = triple(n, iri(base, key@), prop_var(variable@, key@, "_del"@));
            seq![
                delete_where(
                    gone,
                    and_then(where_or_node(base_where, n, base), optional(gone)),
                ),
            ]
        },
        RemoveItem::Label { variable, labels } => texts(labels@).map_values(
            |l: Seq<char>|
                {
                    let gone = type_triple(var(variable@), base, l);
                    delete_where(
                        gone,
                        if base_where.len() == 0 {
                            gone
                        } else {
                            and_then(base_where, gone)
                        },
                    )
                },
        ),
    }
}

/// The statements of a REMOVE clause.
pub open spec fn remove_items(
    items: Seq<RemoveItem>,
    parts: Seq<Seq<char>>,
    base: Seq<char>,
) -> Seq<Seq<char>> {
    collect(items, |it: RemoveItem| remove_item(it, join_spec(parts, " . "@), base))
}

fn compile_remove_item(item: &RemoveItem, base_where: &str, base: &str, out: &mut Vec<String>)
    ensures
        texts(final(out)@) == texts(old(out)@) + remove_item(*item, base_where@, base@),
{
    let ghost before = texts(out@);
    match item {
        RemoveItem::Property { variable, key } => {
            let n = var_text(variable.as_str());
            let p = iri_text(base, key.as_str());
            let del = prop_var_text(variable.as_str(), key.as_str(), "_del");
            let gone = triple_text(n.as_str(), p.as_str(), del.as_str());
            let cond = where_or_node_text(base_where, n.as_str(), base);
            let opt = optional_text(gone.as_str());
            let found = and_then_text(cond.as_str(), opt.as_str());
            push_text(out, delete_where_text(gone.as_str(), found.as_str()));
            assert(texts(out@) =~= before + remove_item(*item, base_where@, base@));
        },
        RemoveItem::Label { variable, labels } => {
            let n = var_text(variable.as_str());
            let ghost all = remove_item(*item, base_where@, base@);
            assert(all.take(0) =~= seq![]);
            assert(before + seq![] =~= before);
            for i in 0..labels.len()
                invariant
                    n@ == var(variable@),
                    *item == (RemoveItem::Label { variable: *variable, labels: *labels }),
                    all == remove_item(*item, base_where@, base@),
                    texts(out@) == before + all.take(i as int),
            {
                let gone = type_triple_text(n.as_str(), base, labels[i].as_str());
                let cond = if base_where.is_empty() {
                    gone.clone()
                } else {
                    and_then_text(base_where, gone.as_str())
                };
                push_text(out, delete_where_text(gone.as_str(), cond.as_str()));
                assert(texts(labels@)[i as int] == labels@[i as int]@);
                assert(all.take(i + 1) =~= all.take(i as int).push(all[i as int]));
                assert(texts(out@) =~= before + all.take(i + 1));
            }
            assert(all.take(labels@.len() as int) =~= all);
        },
    }
}

/// Compiles a REMOVE clause.
pub fn compile_remove_items(
    items: &Vec<RemoveItem>,
    where_parts: &Vec<String>,
    base: &str,
    out: &mut Vec<String>,
)
    ensures
        texts(final(out)@) == texts(old(out)@) + remove_items(
            items@,
            texts(where_parts@),
            base@,
        ),
{
    let ghost before = texts(out@);
    let base_where = join(where_parts, " . ");
    let ghost step = |it: RemoveItem|
        remove_item(it, join_spec(texts(where_parts@), " . "@), base@);
    assert(before + collect(items@.take(0), step) =~= before);
    for i in 0..items.len()
        invariant
            base_where@ == join_spec(texts(where_parts@), " . "@),
            step == (|it: RemoveItem|
                remove_item(it, join_spec(texts(where_parts@), " . "@), base@)),
            texts(out@) == before + collect(items@.take(i as int), step),
    {
        proof {
            lemma_collect_next(items@, step, i as int);
        }
        compile_remove_item(&items[i], base_where.as_str(), base, out);
        assert(texts(out@) =~= before + collect(items@.take(i + 1), step));
    }
    assert(items@.take(items@.len() as int) =~= items@);
}

// ── DELETE ───────────────────────────────────────────────────────────────────

/// The triple of a relationship, in its direction; both ways round where it has
/// none.
pub open spec fn rel_triples(
    from: Seq<char>,
    pred: Seq<char>,
    to: Seq<char>,
    direction: Direction,
) -> Seq<char> {
    match direction {
        Direction::Outgoing => triple(var(from), pred, var(to)),
        Direction::Incoming => triple(var(to), pred, var(from)),
        Direction::Undirected => and_then(
            triple(var(from), pred, var(to)),
            triple(var(to), pred, var(from)),
        ),
    }
}

fn rel_triples_text(from: &str, pred: &str, to: &str, direction: Direction) -> (r: String)
    ensures
        r@ == rel_triples(from@, pred@, to@, direction),
{
    let f = var_text(from);
    let t = var_text(to);
    let there = triple_text(f.as_str(), pred, t.as_str());
    let back = triple_text(t.as_str(), pred, f.as_str());
    match direction {
        Direction::Outgoing => there,
        Direction::Incoming => back,
        Direction::Undirected => and_then_text(there.as_str(), back.as_str()),
    }
}

/// Deleting a relationship: a statement for each of its types, or one for the
/// predicate that the match context bound.
pub open spec fn delete_rel(bind: RelVarBindView, base_where: Seq<char>, base: Seq<char>) -> Seq<
    Seq<char>,
> {
    if bind.rel_types.len() == 0 {
        seq![
            delete_where(
                rel_triples(bind.from, pred_var(bind.from, bind.to), bind.to, bind.direction),
                base_where,
            ),
        ]
    } else {
        bind.rel_types.map_values(
            |rt: Seq<char>|
                delete_where(
                    rel_triples(bind.from, iri(base, rt), bind.to, bind.direction),
                    base_where,
                ),
        )
    }
}

pub fn compile_delete_rel(bind: &RelVarBind, base_where: &str, base: &str, out: &mut Vec<String>)
    ensures
        texts(final(out)@) == texts(old(out)@) + delete_rel(bind@, base_where@, base@),
{
    let ghost before = texts(out@);
    let ghost all = delete_rel(bind@, base_where@, base@);
    if bind.rel_types.len() == 0 {
        let pred = pred_var_text(bind.from.as_str(), bind.to.as_str());
        let gone = rel_triples_text(
            bind.from.as_str(),
            pred.as_str(),
            bind.to.as_str(),
            bind.direction,
        );
        push_text(out, delete_where_text(gone.as_str(), base_where));
        assert(texts(out@) =~= before + all);
    } else {
        assert(all.take(0) =~= seq![]);
        assert(before + seq![] =~= before);
        for i in 0..bind.rel_types.len()
            invariant
                bind.rel_types@.len() > 0,
                all == delete_rel(bind@, base_where@, base@),
                texts(out@) == before + all.take(i as int),
        {
            let pred = iri_text(base, bind.rel_types[i].as_str());
            let gone = rel_triples_text(
                bind.from.as_str(),
                pred.as_str(),
                bind.to.as_str(),
                bind.direction,
            );
            push_text(out, delete_where_text(gone.as_str(), base_where));
            assert(bind@.rel_types[i as int] == bind.rel_types@[i as int]@);
            assert(all.take(i + 1) =~= all.take(i as int).push(all[i as int]));
            assert(texts(out@) =~= before + all.take(i + 1));
        }
        assert(all.take(bind.rel_types@.len() as int) =~= all);
    }
}

/// Deleting a node: the triples that it is the subject of and, with DETACH,
/// those that it is the object of.
pub open spec fn delete_node(
    name: Seq<char>,
    detach: bool,
    base_where: Seq<char>,
    base: Seq<char>,
) -> Seq<Seq<char>> {
    let n = var(name);
    let s = "?__del_"@ + name + "_s"@;
    let p = "?__del_"@ + name + "_p"@;
    let o = "?__del_"@ + name + "_o"@;
    let cond = where_or_node(base_where, n, base);
    let outgoing = delete_where(triple(n, p, o), and_then(cond, triple(n, p, o)));
    let incoming = delete_where(
        triple(s, p, n),
        and_then(and_then(cond, triple(s, p, n)), "FILTER("@ + s + " != "@ + n + ")"@),
    );
    if detach {
        seq![outgoing, incoming]
    } else {
        seq![outgoing]
    }
}

fn compile_delete_node(
    name: &str,
    detach: bool,
    base_where: &str,
    base: &str,
    out: &mut Vec<String>,
)
    ensures
        texts(final(out)@) == texts(old(out)@) + delete_node(name@, detach, base_where@, base@),
{
    let ghost before = texts(out@);
    let n = var_text(name);
    let s = "?__del_".to_owned().concat(name).concat("_s");
    let p = "?__del_".to_owned().concat(name).concat("_p");
    let o = "?__del_".to_owned().concat(name).concat("_o");
    let cond = where_or_node_text(base_where, n.as_str(), base);
    let there = triple_text(n.as_str(), p.as_str(), o.as_str());
    let found = and_then_text(cond.as_str(), there.as_str());
    push_text(out, delete_where_text(there.as_str(), found.as_str()));
    if detach {
        let back = triple_text(s.as_str(), p.as_str(), n.as_str());
        let found = and_then_text(cond.as_str(), back.as_str());
        let other = "FILTER(".to_owned().concat(s.as_str()).concat(" != ").concat(
            n.as_str(),
        ).concat(")");
        let found = and_then_text(found.as_str(), other.as_str());
        push_text(out, delete_where_text(back.as_str(), found.as_str()));
    }
    assert(texts(out@) =~= before + delete_node(name@, detach, base_where@, base@));
}

/// The statements of deleting one expression, which must be a variable.
pub open spec fn delete_expr(
    e: Expr,
    detach: bool,
    rels: Map<Seq<char>, RelVarBindView>,
    base_where: Seq<char>,
    base: Seq<char>,
) -> Outcome {
    match e {
        Expr::Variable { name } => Ok(
            if rels.contains_key(name@) {
                delete_rel(rels[name@], base_where, base)
            } else {
                delete_node(name@, detach, base_where, base)
            },
        ),
        _ => Err("write_delete_complex_expr"@),
    }
}

/// The statements of a DELETE clause.
pub open spec fn delete_exprs(
    exprs: Seq<Expr>,
    detach: bool,
    parts: Seq<Seq<char>>,
    rels: Map<Seq<char>, RelVarBindView>,
    base: Seq<char>,
) -> Outcome {
    run_all(exprs, |e: Expr| delete_expr(e, detach, rels, join_spec(parts, " . "@), base))
}

/// Compiles a DELETE clause.
pub fn compile_delete(
    exprs: &Vec<Expr>,
    detach: bool,
    where_parts: &Vec<String>,
    rel_vars: &NameMap<RelVarBind>,
    base: &str,
    out: &mut Vec<String>,
) -> (r: Result<(), PolygraphError>)
    ensures
        appended(
            r,
            texts(old(out)@),
            texts(final(out)@),
            delete_exprs(exprs@, detach, texts(where_parts@), rel_vars@, base@),
        ),
{
    let ghost before = texts(out@);
    proof {
        lemma_keeps(before);
    }
    let base_where = join(where_parts, " . ");
    let ghost step = |e: Expr|
        delete_expr(e, detach, rel_vars@, join_spec(texts(where_parts@), " . "@), base@);
    assert(before + seq![] =~= before);
    assert(run_all(exprs@.take(0), step) == Outcome::Ok(seq![]));
    for i in 0..exprs.len()
        invariant
            base_where@ == join_spec(texts(where_parts@), " . "@),
            step == (|e: Expr|
                delete_expr(e, detach, rel_vars@, join_spec(texts(where_parts@), " . "@), base@)),
            run_all(exprs@.take(i as int), step) is Ok,
            before == texts(old(out)@),
            texts(out@) == before + run_all(exprs@.take(i as int), step)->Ok_0,
    {
        proof {
            lemma_run_next(exprs@, step, i as int);
            lemma_keeps(before);
        }
        match &exprs[i] {
            Expr::Variable { name } => {
                match rel_vars.get(name.as_str()) {
                    Some(bind) => {
                        compile_delete_rel(bind, base_where.as_str(), base, out);
                    },
                    None => {
                        compile_delete_node(name.as_str(), detach, base_where.as_str(), base, out);
                    },
                }
            },
            _ => {
                return Err(write_unsupported("write_delete_complex_expr"));
            },
        }
        assert(texts(out@) =~= before + run_all(exprs@.take(i + 1), step)->Ok_0);
    }
    assert(exprs@.take(exprs@.len() as int) =~= exprs@);
    Ok(())
}

} // verus!
