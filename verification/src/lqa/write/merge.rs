//! MERGE as SPARQL updates.
use vstd::prelude::*;

use crate::error::{write_unsupported, PolygraphError};
#[allow(unused_imports)]
use crate::lqa::expr::{CmpOp, Expr};
use crate::lqa::op::{Direction, MergeClause, Op, SetItem};
use crate::lqa::write::create::quoted_triple_text;
#[allow(unused_imports)]
use crate::lqa::write::create::quoted_triple;
use crate::lqa::write::literals::{expr_to_sparql_lit, expr_to_sparql_value, var_text};
#[allow(unused_imports)]
use crate::lqa::write::literals::{expr_to_sparql_lit_spec, expr_to_sparql_value_spec, var};
#[allow(unused_imports)]
use crate::lqa::write::steps::{collect, lemma_collect_next, run_all, Outcome};
use crate::lqa::write::tree::find_scan_var;
#[allow(unused_imports)]
use crate::lqa::write::tree::first_scan;
use crate::lqa::write::updates::{
    and_then_text, compile_set_items, delete_insert_text, insert_where_text,
};
#[allow(unused_imports)]
use crate::lqa::write::updates::{
    and_then, appended, delete_insert, insert_where, lemma_append_next, set_items,
};
use crate::lqa::write::where_parts::{
    iri_text, node_triple_text, not_exists_text, op_to_where_parts, optional_text, triple_text,
    type_triple_text,
};
#[allow(unused_imports)]
use crate::lqa::write::where_parts::{
    iri, node_triple, not_exists, optional, triple, type_triple, where_parts,
};
use crate::names::NameMap;
use crate::text::{
    any_contains, concat_texts, contains, dec_usize, join, push_text, replace, same_text,
    starts_with_char,
};
#[allow(unused_imports)]
use crate::text::{lemma_keeps, 
    any_contains_spec, contains_spec, dec, join_spec, replace_spec, starts_with_char_spec, texts,
};

verus! {

// ── Properties of the merged relationship ────────────────────────────────────

/// A property IRI and the SPARQL value that it must have.
pub struct Condition {
    pub prop_iri: String,
    pub value: String,
}

pub struct ConditionView {
    pub prop_iri: Seq<char>,
    pub value: Seq<char>,
}

impl View for Condition {
    type V = ConditionView;

    open spec fn view(&self) -> ConditionView {
        ConditionView { prop_iri: self.prop_iri@, value: self.value@ }
    }
}

pub open spec fn conditions_of(s: Seq<Condition>) -> Seq<ConditionView> {
    s.map_values(|c: Condition| c@)
}

/// Whether the expression is a property of the given variable.
pub open spec fn is_property_of(e: Expr, name: Seq<char>) -> bool {
    e matches Expr::Property(node, key) && (*node matches Expr::Variable { name: n } && n@ == name)
}

/// `variable.key = value`, as a condition.
pub open spec fn condition(e: Expr, value: Expr, base: Seq<char>) -> Option<Seq<ConditionView>> {
    match expr_to_sparql_value_spec(value) {
        Some(v) => Some(
            seq![ConditionView { prop_iri: base + e->Property_1@, value: v }],
        ),
        None => None,
    }
}

/// The equality conditions that a predicate puts on a relationship variable;
/// `None` where it is anything but a conjunction of such.
pub open spec fn rel_conditions(e: Expr, rel: Seq<char>, base: Seq<char>) -> Option<
    Seq<ConditionView>,
>
    decreases e,
{
    match e {
        Expr::Comparison(op, lhs, rhs) => {
            if op != CmpOp::Eq {
                None
            } else if is_property_of(*lhs, rel) {
                condition(*lhs, *rhs, base)
            } else if is_property_of(*rhs, rel) {
                condition(*rhs, *lhs, base)
            } else {
                None
            }
        },
        Expr::And(a, b) => match (rel_conditions(*a, rel, base), rel_conditions(*b, rel, base)) {
            (Some(x), Some(y)) => Some(x + y),
            _ => None,
        },
        _ => None,
    }
}

fn key_of<'a>(e: &'a Expr, name: &str) -> (r: Option<&'a String>)
    ensures
        match r {
            Some(key) => is_property_of(*e, name@) && e->Property_1 == *key,
            None => !is_property_of(*e, name@),
        },
{
    match e {
        Expr::Property(node, key) => match &**node {
            Expr::Variable { name: n } => {
                if same_text(n.as_str(), name) {
                    Some(key)
                } else {
                    None
                }
            },
            _ => None,
        },
        _ => None,
    }
}

fn one_condition(key: &str, value: &Expr, base: &str) -> (r: Option<Vec<Condition>>)
    ensures
        match r {
            Some(cs) => expr_to_sparql_value_spec(*value) is Some && conditions_of(cs@)
                == seq![(ConditionView {
                prop_iri: base@ + key@,
                value: expr_to_sparql_value_spec(*value)->0,
            })],
            None => expr_to_sparql_value_spec(*value) is None,
        },
{
    match expr_to_sparql_value(value) {
        Some(v) => {
            let mut cs: Vec<Condition> = Vec::new();
            cs.push(Condition { prop_iri: base.to_owned().concat(key), value: v });
            assert(conditions_of(cs@) =~= seq![
                ConditionView { prop_iri: base@ + key@, value: expr_to_sparql_value_spec(*value)->0 },
            ]);
            Some(cs)
        },
        None => None,
    }
}

/// The conditions of a MERGE pattern on its relationship.
pub fn extract_rel_prop_conditions(predicate: &Expr, rel_var: &str, base: &str) -> (r: Option<
    Vec<Condition>,
>)
    ensures
        match r {
            Some(cs) => rel_conditions(*predicate, rel_var@, base@) == Some(conditions_of(cs@)),
            None => rel_conditions(*predicate, rel_var@, base@) is None,
        },
    decreases predicate,
{
    match predicate {
        Expr::Comparison(CmpOp::Eq, lhs, rhs) => {
            match key_of(lhs, rel_var) {
                Some(key) => one_condition(key.as_str(), rhs, base),
                None => match key_of(rhs, rel_var) {
                    Some(key) => one_condition(key.as_str(), lhs, base),
                    None => None,
                },
            }
        },
        Expr::And(left, right) => {
            let a = extract_rel_prop_conditions(left, rel_var, base);
            let b = extract_rel_prop_conditions(right, rel_var, base);
            match (a, b) {
                (Some(mut x), Some(mut y)) => {
                    let ghost xs = x@;
                    let ghost ys = y@;
                    x.append(&mut y);
                    assert(conditions_of(x@) =~= conditions_of(xs) + conditions_of(ys));
                    Some(x)
                },
                _ => None,
            }
        },
        _ => None,
    }
}

// ── Merging a node ───────────────────────────────────────────────────────────

/// `_:__mnN`
pub open spec fn merge_blank(n: nat) -> Seq<char> {
    "_:__mn"@ + dec(n as int)
}

/// The pattern's triples with the new node in place of the variable, without
/// optional parts and filters.
pub open spec fn merged_triples(
    parts: Seq<Seq<char>>,
    name: Seq<char>,
    node: Seq<char>,
    base: Seq<char>,
) -> Seq<Seq<char>> {
    collect(
        parts,
        |p: Seq<char>|
            {
                let t = replace_spec(p, var(name), node);
                if !contains_spec(t, "OPTIONAL"@) && !contains_spec(t, "FILTER"@) && t
                    != node_triple(node, base) {
                    seq![t]
                } else {
                    seq![]
                }
            },
    )
}

/// The triples that one ON CREATE SET item adds to a new node: a constant
/// property, or labels.
pub open spec fn on_create_item(item: SetItem, node: Seq<char>, base: Seq<char>) -> Seq<Seq<char>> {
    match item {
        SetItem::Property { key, value, .. } => match expr_to_sparql_lit_spec(value) {
            Some(lit) => seq![triple(node, iri(base, key@), lit)],
            None => seq![],
        },
        SetItem::Label { labels, .. } => texts(labels@).map_values(
            |l: Seq<char>| type_triple(node, base, l),
        ),
        _ => seq![],
    }
}

/// The triples that ON CREATE SET adds to a new node.
pub open spec fn on_create_triples(
    items: Seq<SetItem>,
    node: Seq<char>,
    base: Seq<char>,
) -> Seq<Seq<char>> {
    collect(items, |it: SetItem| on_create_item(it, node, base))
}

/// The name that the new node has in the pattern.
pub open spec fn merged_name(scan: Op, counter: nat) -> Seq<char> {
    match scan {
        Op::Scan { variable, .. } => variable@,
        _ => match first_scan(scan) {
            Some(v) => v,
            None => "__merge_n"@ + dec(counter as int),
        },
    }
}

/// The statements of merging a node: insert it where nothing matches the
/// pattern, then apply ON MATCH SET to what does. A match context before the
/// MERGE is refused, since one node would be made for each of its rows.
pub open spec fn merge_node(
    scan: Op,
    parts: Seq<Seq<char>>,
    outer: Seq<Seq<char>>,
    on_match: Seq<SetItem>,
    on_create: Seq<SetItem>,
    base: Seq<char>,
    counter: nat,
) -> Outcome {
    if outer.len() != 0 {
        Err("write_merge_with_outer_match"@)
    } else if where_parts(scan, base) is Err {
        Err("write_merge_node_scan_parts"@)
    } else {
        let node = merge_blank(counter);
        let ins = seq![node_triple(node, base)] + merged_triples(
            parts,
            merged_name(scan, counter),
            node,
            base,
        ) + on_create_triples(on_create, node, base);
        let first = insert_where(
            join_spec(ins, " . "@),
            not_exists(join_spec(parts, " . "@)),
        );
        if on_match.len() == 0 {
            Ok(seq![first])
        } else {
            match set_items(on_match, parts, base) {
                Ok(more) => Ok(seq![first] + more),
                Err(c) => Err(c),
            }
        }
    }
}

fn push_merged_triples(
    parts: &Vec<String>,
    name: &str,
    node: &str,
    base: &str,
    ins: &mut Vec<String>,
)
    ensures
        texts(final(ins)@) == texts(old(ins)@) + merged_triples(
            texts(parts@),
            name@,
            node@,
            base@,
        ),
{
    let ghost before = texts(ins@);
    let from = var_text(name);
    let own = node_triple_text(node, base);
    let ghost f = |p: Seq<char>|
        {
            let t = replace_spec(p, var(name@), node@);
            if !contains_spec(t, "OPTIONAL"@) && !contains_spec(t, "FILTER"@) && t != node_triple(
                node@,
                base@,
            ) {
                seq![t]
            } else {
                seq![]
            }
        };
    assert(before + collect(texts(parts@).take(0), f) =~= before);
    for i in 0..parts.len()
        invariant
            from@ == var(name@),
            own@ == node_triple(node@, base@),
            f == (|p: Seq<char>|
                {
                    let t = replace_spec(p, var(name@), node@);
                    if !contains_spec(t, "OPTIONAL"@) && !contains_spec(t, "FILTER"@) && t
                        != node_triple(node@, base@) {
                        seq![t]
                    } else {
                        seq![]
                    }
                }),
            texts(ins@) == before + collect(texts(parts@).take(i as int), f),
    {
        let ghost now = texts(ins@);
        proof {
            reveal_strlit("?");
            lemma_collect_next(texts(parts@), f, i as int);
        }
        let t = replace(parts[i].as_str(), from.as_str(), node);
        assert(texts(parts@)[i as int] == parts@[i as int]@);
        if !contains(t.as_str(), "OPTIONAL") && !contains(t.as_str(), "FILTER") && !same_text(
            t.as_str(),
            own.as_str(),
        ) {
            push_text(ins, t);
        }
        assert(texts(ins@) =~= now + f(texts(parts@)[i as int]));
        assert(texts(ins@) =~= before + collect(texts(parts@).take(i + 1), f));
    }
    assert(texts(parts@).take(parts@.len() as int) =~= texts(parts@));
}

fn push_on_create_item(item: &SetItem, node: &str, base: &str, ins: &mut Vec<String>)
    ensures
        texts(final(ins)@) == texts(old(ins)@) + on_create_item(*item, node@, base@),
{
    let ghost before = texts(ins@);
    let ghost all = on_create_item(*item, node@, base@);
    match item {
        SetItem::Property { key, value, .. } => {
            match expr_to_sparql_lit(value) {
                Some(lit) => {
                    let p = iri_text(base, key.as_str());
                    push_text(ins, triple_text(node, p.as_str(), lit.as_str()));
                },
                None => {},
            }
            assert(texts(ins@) =~= before + all);
        },
        SetItem::Label { labels, .. } => {
            let ghost ls = texts(labels@).map_values(|l: Seq<char>| type_triple(node@, base@, l));
            assert(all =~= ls);
            assert(before + ls.take(0) =~= before);
            for i in 0..labels.len()
                invariant
                    ls == texts(labels@).map_values(|l: Seq<char>| type_triple(node@, base@, l)),
                    texts(ins@) == before + ls.take(i as int),
            {
                push_text(ins, type_triple_text(node, base, labels[i].as_str()));
                assert(texts(labels@)[i as int] == labels@[i as int]@);
                assert(ls.take(i + 1) =~= ls.take(i as int).push(ls[i as int]));
                assert(texts(ins@) =~= before + ls.take(i + 1));
            }
            assert(ls.take(labels@.len() as int) =~= ls);
        },
        _ => {
            assert(texts(ins@) =~= before + all);
        },
    }
}

fn push_on_create_triples(items: &Vec<SetItem>, node: &str, base: &str, ins: &mut Vec<String>)
    ensures
        texts(final(ins)@) == texts(old(ins)@) + on_create_triples(items@, node@, base@),
{
    let ghost before = texts(ins@);
    let ghost f = |it: SetItem| on_create_item(it, node@, base@);
    assert(before + collect(items@.take(0), f) =~= before);
    for i in 0..items.len()
        invariant
            f == (|it: SetItem| on_create_item(it, node@, base@)),
            texts(ins@) == before + collect(items@.take(i as int), f),
    {
        push_on_create_item(&items[i], node, base, ins);
        proof {
            lemma_collect_next(items@, f, i as int);
            assert(texts(ins@) =~= before + collect(items@.take(i + 1), f));
        }
    }
    assert(items@.take(items@.len() as int) =~= items@);
}

/// Compiles a MERGE of a node.
pub fn compile_merge_node_scan(
    scan_op: &Op,
    pattern_parts: &Vec<String>,
    outer_where: &Vec<String>,
    on_match: &Vec<SetItem>,
    on_create: &Vec<SetItem>,
    base: &str,
    counter: &mut usize,
    out: &mut Vec<String>,
) -> (r: Result<(), PolygraphError>)
    requires
        *old(counter) < usize::MAX,
    ensures
        appended(
            r,
            texts(old(out)@),
            texts(final(out)@),
            merge_node(
                *scan_op,
                texts(pattern_parts@),
                texts(outer_where@),
                on_match@,
                on_create@,
                base@,
                *old(counter) as nat,
            ),
        ),
        if outer_where@.len() > 0 || where_parts(*scan_op, base@) is Err {
            *final(counter) == *old(counter) && *final(out) == *old(out)
        } else {
            *final(counter) == *old(counter) + 1
        },
{
    let ghost before = texts(out@);
    proof {
        lemma_keeps(before);
    }
    let ghost n = *counter as nat;
    let ghost parts = texts(pattern_parts@);
    if outer_where.len() != 0 {
        return Err(write_unsupported("write_merge_with_outer_match"));
    }
    if op_to_where_parts(scan_op, base).is_err() {
        return Err(write_unsupported("write_merge_node_scan_parts"));
    }
    let d = dec_usize(*counter);
    let name = match scan_op {
        Op::Scan { variable, .. } => variable.clone(),
        _ => match find_scan_var(scan_op) {
            Some(v) => v,
            None => "__merge_n".to_owned().concat(d.as_str()),
        },
    };
    let node = "_:__mn".to_owned().concat(d.as_str());
    *counter = *counter + 1;
    let mut ins: Vec<String> = Vec::new();
    push_text(&mut ins, node_triple_text(node.as_str(), base));
    push_merged_triples(pattern_parts, name.as_str(), node.as_str(), base, &mut ins);
    push_on_create_triples(on_create, node.as_str(), base, &mut ins);
    let ghost want = seq![node_triple(node@, base@)] + merged_triples(
        parts,
        merged_name(*scan_op, n),
        node@,
        base@,
    ) + on_create_triples(on_create@, node@, base@);
    assert(texts(ins@) =~= want);
    let body = join(&ins, " . ");
    let exists_body = join(pattern_parts, " . ");
    let cond = not_exists_text(exists_body.as_str());
    let first = insert_where_text(body.as_str(), cond.as_str());
    push_text(out, first);
    let ghost now = texts(out@);
    assert(now =~= before + seq![first@]);
    if on_match.len() > 0 {
        compile_set_items(on_match, pattern_parts, base, out)?;
        assert(texts(out@) =~= before + (seq![first@] + set_items(on_match@, parts, base@)->Ok_0));
    }
    Ok(())
}

// ── Merging a relationship ───────────────────────────────────────────────────

/// The triples that a merged relationship must have: its own and those of its
/// conditions.
pub open spec fn required_triples(
    s: Seq<char>,
    p: Seq<char>,
    o: Seq<char>,
    conds: Seq<ConditionView>,
) -> Seq<Seq<char>> {
    seq![triple(s, p, o)] + conds.map_values(
        |c: ConditionView| triple(quoted_triple(s, p, o), "<"@ + c.prop_iri + ">"@, c.value),
    )
}

/// The triples that ON CREATE SET adds to a new relationship.
pub open spec fn on_create_rel(
    items: Seq<SetItem>,
    s: Seq<char>,
    p: Seq<char>,
    o: Seq<char>,
    base: Seq<char>,
) -> Seq<Seq<char>> {
    collect(
        items,
        |it: SetItem| match it {
            SetItem::Property { key, value, .. } => match expr_to_sparql_lit_spec(value) {
                Some(lit) => seq![triple(quoted_triple(s, p, o), iri(base, key@), lit)],
                None => seq![],
            },
            _ => seq![],
        },
    )
}

fn required_texts(s: &str, p: &str, o: &str, conds: &Vec<Condition>) -> (r: Vec<String>)
    ensures
        texts(r@) == required_triples(s@, p@, o@, conditions_of(conds@)),
{
    let mut r: Vec<String> = Vec::new();
    push_text(&mut r, triple_text(s, p, o));
    let q = quoted_triple_text(s, p, o);
    let ghost all = required_triples(s@, p@, o@, conditions_of(conds@));
    assert(texts(r@) =~= all.take(1));
    for i in 0..conds.len()
        invariant
            q@ == quoted_triple(s@, p@, o@),
            all == required_triples(s@, p@, o@, conditions_of(conds@)),
            texts(r@) == all.take(i + 1),
    {
        let prop = "<".to_owned().concat(conds[i].prop_iri.as_str()).concat(">");
        push_text(&mut r, triple_text(q.as_str(), prop.as_str(), conds[i].value.as_str()));
        assert(conditions_of(conds@)[i as int] == conds@[i as int]@);
        assert(all.take(i + 2) =~= all.take(i + 1).push(all[i + 1]));
    }
    assert(all.take(conds@.len() as int + 1) =~= all);
    r
}

fn push_on_create_rel(
    items: &Vec<SetItem>,
    s: &str,
    p: &str,
    o: &str,
    base: &str,
    ins: &mut Vec<String>,
)
    ensures
        texts(final(ins)@) == texts(old(ins)@) + on_create_rel(items@, s@, p@, o@, base@),
{
    let ghost before = texts(ins@);
    let q = quoted_triple_text(s, p, o);
    let ghost f = |it: SetItem| match it {
        SetItem::Property { key, value, .. } => match expr_to_sparql_lit_spec(value) {
            Some(lit) => seq![triple(quoted_triple(s@, p@, o@), iri(base@, key@), lit)],
            None => seq![],
        },
        _ => seq![],
    };
    assert(before + collect(items@.take(0), f) =~= before);
    for i in 0..items.len()
        invariant
            q@ == quoted_triple(s@, p@, o@),
            f == (|it: SetItem| match it {
                SetItem::Property { key, value, .. } => match expr_to_sparql_lit_spec(value) {
                    Some(lit) => seq![triple(quoted_triple(s@, p@, o@), iri(base@, key@), lit)],
                    None => seq![],
                },
                _ => seq![],
            }),
            texts(ins@) == before + collect(items@.take(i as int), f),
    {
        let ghost now = texts(ins@);
        match &items[i] {
            SetItem::Property { key, value, .. } => {
                match expr_to_sparql_lit(value) {
                    Some(lit) => {
                        let prop = iri_text(base, key.as_str());
                        push_text(ins, triple_text(q.as_str(), prop.as_str(), lit.as_str()));
                    },
                    None => {},
                }
            },
            _ => {},
        }
        proof {
            lemma_collect_next(items@, f, i as int);
            assert(texts(ins@) =~= now + f(items@[i as int]));
            assert(texts(ins@) =~= before + collect(items@.take(i + 1), f));
        }
    }
    assert(items@.take(items@.len() as int) =~= items@);
}

/// The ends of a relationship in the order in which they are written.
pub open spec fn oriented(direction: Direction, from: Seq<char>, to: Seq<char>) -> (
    Seq<char>,
    Seq<char>,
) {
    if direction == Direction::Incoming {
        (to, from)
    } else {
        (from, to)
    }
}

/// What ON MATCH SET does to a relationship between two known nodes: each
/// constant property replaces the old value.
pub open spec fn on_match_known(
    items: Seq<SetItem>,
    s: Seq<char>,
    p: Seq<char>,
    o: Seq<char>,
    base: Seq<char>,
) -> Seq<Seq<char>> {
    collect(
        items,
        |it: SetItem| match it {
            SetItem::Property { key, value, .. } => match expr_to_sparql_lit_spec(value) {
                Some(lit) => {
                    let was = triple(quoted_triple(s, p, o), iri(base, key@), "?__on_match_old"@);
                    let now = triple(quoted_triple(s, p, o), iri(base, key@), lit);
                    seq![delete_insert(was, now, and_then(triple(s, p, o), optional(was)))]
                },
                None => seq![],
            },
            _ => seq![],
        },
    )
}

/// The statements of merging a relationship of one type between two nodes whose
/// IRIs are known.
pub open spec fn merge_known_type(
    rel_type: Seq<char>,
    ends: (Seq<char>, Seq<char>),
    on_match: Seq<SetItem>,
    on_create: Seq<SetItem>,
    conds: Seq<ConditionView>,
    base: Seq<char>,
) -> Seq<Seq<char>> {
    let (s, o) = ends;
    let p = iri(base, rel_type);
    let required = required_triples(s, p, o, conds);
    seq![
        insert_where(
            join_spec(required + on_create_rel(on_create, s, p, o, base), " . "@),
            not_exists(join_spec(required, " . "@)),
        ),
    ] + on_match_known(on_match, s, p, o, base)
}

/// As `merge_known_type`, for each type.
pub open spec fn merge_known(
    rel_types: Seq<Seq<char>>,
    ends: (Seq<char>, Seq<char>),
    on_match: Seq<SetItem>,
    on_create: Seq<SetItem>,
    conds: Seq<ConditionView>,
    base: Seq<char>,
) -> Seq<Seq<char>> {
    collect(
        rel_types,
        |rt: Seq<char>| merge_known_type(rt, ends, on_match, on_create, conds, base),
    )
}

fn push_on_match_known(
    items: &Vec<SetItem>,
    s: &str,
    p: &str,
    o: &str,
    base: &str,
    out: &mut Vec<String>,
)
    ensures
        texts(final(out)@) == texts(old(out)@) + on_match_known(items@, s@, p@, o@, base@),
{
    let ghost before = texts(out@);
    let q = quoted_triple_text(s, p, o);
    let t = triple_text(s, p, o);
    let ghost f = |it: SetItem| match it {
        SetItem::Property { key, value, .. } => match expr_to_sparql_lit_spec(value) {
            Some(lit) => {
                let was = triple(
                    quoted_triple(s@, p@, o@),
                    iri(base@, key@),
                    "?__on_match_old"@,
                );
                let now = triple(quoted_triple(s@, p@, o@), iri(base@, key@), lit);
                seq![delete_insert(was, now, and_then(triple(s@, p@, o@), optional(was)))]
            },
            None => seq![],
        },
        _ => seq![],
    };
    assert(before + collect(items@.take(0), f) =~= before);
    for i in 0..items.len()
        invariant
            q@ == quoted_triple(s@, p@, o@),
            t@ == triple(s@, p@, o@),
            f == (|it: SetItem| match it {
                SetItem::Property { key, value, .. } => match expr_to_sparql_lit_spec(value) {
                    Some(lit) => {
                        let was = triple(
                            quoted_triple(s@, p@, o@),
                            iri(base@, key@),
                            "?__on_match_old"@,
                        );
                        let now = triple(quoted_triple(s@, p@, o@), iri(base@, key@), lit);
                        seq![delete_insert(was, now, and_then(triple(s@, p@, o@), optional(was)))]
                    },
                    None => seq![],
                },
                _ => seq![],
            }),
            texts(out@) == before + collect(items@.take(i as int), f),
    {
        let ghost held = texts(out@);
        match &items[i] {
            SetItem::Property { key, value, .. } => {
                match expr_to_sparql_lit(value) {
                    Some(lit) => {
                        let prop = iri_text(base, key.as_str());
                        let was = triple_text(q.as_str(), prop.as_str(), "?__on_match_old");
                        let now = triple_text(q.as_str(), prop.as_str(), lit.as_str());
                        let opt = optional_text(was.as_str());
                        let cond = and_then_text(t.as_str(), opt.as_str());
                        push_text(
                            out,
                            delete_insert_text(was.as_str(), now.as_str(), cond.as_str()),
                        );
                    },
                    None => {},
                }
            },
            _ => {},
        }
        proof {
            lemma_collect_next(items@, f, i as int);
            assert(texts(out@) =~= held + f(items@[i as int]));
            assert(texts(out@) =~= before + collect(items@.take(i + 1), f));
        }
    }
    assert(items@.take(items@.len() as int) =~= items@);
}

fn orient(direction: Direction, from: String, to: String) -> (r: (String, String))
    ensures
        (r.0@, r.1@) == oriented(direction, from@, to@),
{
    match direction {
        Direction::Incoming => (to, from),
        _ => (from, to),
    }
}

/// Compiles a MERGE of a relationship between two nodes whose IRIs are known
/// from the CREATE that made them.
pub fn compile_merge_rel_fully_bound(
    from_iri: &str,
    to_iri: &str,
    rel_types: &Vec<String>,
    direction: Direction,
    on_match: &Vec<SetItem>,
    on_create: &Vec<SetItem>,
    rel_props: &Vec<Condition>,
    base: &str,
    out: &mut Vec<String>,
)
    ensures
        texts(final(out)@) == texts(old(out)@) + merge_known(
            texts(rel_types@),
            oriented(direction, from_iri@, to_iri@),
            on_match@,
            on_create@,
            conditions_of(rel_props@),
            base@,
        ),
{
    let ghost before = texts(out@);
    let ghost ends = oriented(direction, from_iri@, to_iri@);
    let (s, o) = orient(direction, from_iri.to_owned(), to_iri.to_owned());
    let ghost conds = conditions_of(rel_props@);
    let ghost f = |rt: Seq<char>|
        merge_known_type(rt, ends, on_match@, on_create@, conds, base@);
    assert(before + collect(texts(rel_types@).take(0), f) =~= before);
    for i in 0..rel_types.len()
        invariant
            (s@, o@) == ends,
            conds == conditions_of(rel_props@),
            f == (|rt: Seq<char>|
                merge_known_type(rt, ends, on_match@, on_create@, conds, base@)),
            texts(out@) == before + collect(texts(rel_types@).take(i as int), f),
    {
        let ghost held = texts(out@);
        let p = iri_text(base, rel_types[i].as_str());
        let required = required_texts(s.as_str(), p.as_str(), o.as_str(), rel_props);
        let absent = join(&required, " . ");
        let mut ins = required;
        push_on_create_rel(on_create, s.as_str(), p.as_str(), o.as_str(), base, &mut ins);
        let body = join(&ins, " . ");
        let cond = not_exists_text(absent.as_str());
        push_text(out, insert_where_text(body.as_str(), cond.as_str()));
        push_on_match_known(on_match, s.as_str(), p.as_str(), o.as_str(), base, out);
        proof {
            assert(texts(rel_types@)[i as int] == rel_types@[i as int]@);
            lemma_collect_next(texts(rel_types@), f, i as int);
            assert(texts(out@) =~= held + f(texts(rel_types@)[i as int]));
            assert(texts(out@) =~= before + collect(texts(rel_types@).take(i + 1), f));
        }
    }
    assert(texts(rel_types@).take(rel_types@.len() as int) =~= texts(rel_types@));
}

/// ` . << s p o >> <prop> value` for each condition.
pub open spec fn condition_tail(
    s: Seq<char>,
    p: Seq<char>,
    o: Seq<char>,
    conds: Seq<ConditionView>,
) -> Seq<char>
    decreases conds.len(),
{
    if conds.len() == 0 {
        seq![]
    } else {
        condition_tail(s, p, o, conds.drop_last()) + (" . "@ + triple(
            quoted_triple(s, p, o),
            "<"@ + conds.last().prop_iri + ">"@,
            conds.last().value,
        ))
    }
}

fn condition_tail_text(s: &str, p: &str, o: &str, conds: &Vec<Condition>) -> (r: String)
    ensures
        r@ == condition_tail(s@, p@, o@, conditions_of(conds@)),
{
    let q = quoted_triple_text(s, p, o);
    let mut r = String::new();
    for i in 0..conds.len()
        invariant
            q@ == quoted_triple(s@, p@, o@),
            r@ == condition_tail(s@, p@, o@, conditions_of(conds@).take(i as int)),
    {
        proof {
            let next = conditions_of(conds@).take(i + 1);
            assert(next.drop_last() =~= conditions_of(conds@).take(i as int));
            assert(next.last() == conds@[i as int]@);
        }
        let prop = "<".to_owned().concat(conds[i].prop_iri.as_str()).concat(">");
        let t = triple_text(q.as_str(), prop.as_str(), conds[i].value.as_str());
        let more = " . ".to_owned().concat(t.as_str());
        r.append(more.as_str());
    }
    assert(conditions_of(conds@).take(conds@.len() as int) =~= conditions_of(conds@));
    r
}

/// That the relationship does not exist yet; in neither direction where it has
/// none.
pub open spec fn rel_absent(
    s: Seq<char>,
    p: Seq<char>,
    o: Seq<char>,
    direction: Direction,
    conds: Seq<ConditionView>,
) -> Seq<char> {
    let tail = condition_tail(s, p, o, conds);
    if direction == Direction::Undirected {
        "{ "@ + triple(s, p, o) + tail + " } UNION { "@ + triple(o, p, s) + tail + " }"@
    } else {
        triple(s, p, o) + tail
    }
}

fn rel_absent_text(
    s: &str,
    p: &str,
    o: &str,
    direction: Direction,
    conds: &Vec<Condition>,
) -> (r: String)
    ensures
        r@ == rel_absent(s@, p@, o@, direction, conditions_of(conds@)),
{
    let tail = condition_tail_text(s, p, o, conds);
    let there = triple_text(s, p, o);
    match direction {
        Direction::Undirected => {
            let back = triple_text(o, p, s);
            "{ ".to_owned().concat(there.as_str()).concat(tail.as_str()).concat(
                " } UNION { ",
            ).concat(back.as_str()).concat(tail.as_str()).concat(" }")
        },
        _ => there.concat(tail.as_str()),
    }
}

/// The statements of merging a relationship of one type between two matched
/// nodes.
pub open spec fn merge_matched_type(
    rel_type: Seq<char>,
    from: Seq<char>,
    to: Seq<char>,
    direction: Direction,
    on_match: Seq<SetItem>,
    on_create: Seq<SetItem>,
    conds: Seq<ConditionView>,
    parts: Seq<Seq<char>>,
    base: Seq<char>,
) -> Outcome {
    let (a, b) = oriented(direction, from, to);
    let s = var(a);
    let o = var(b);
    let p = iri(base, rel_type);
    let base_where = join_spec(parts, " . "@);
    let absent = not_exists(rel_absent(s, p, o, direction, conds));
    let first = insert_where(
        join_spec(
            required_triples(s, p, o, conds) + on_create_rel(on_create, s, p, o, base),
            " . "@,
        ),
        if base_where.len() == 0 {
            absent
        } else {
            and_then(base_where, absent)
        },
    );
    if on_match.len() == 0 {
        Ok(seq![first])
    } else {
        match set_items(on_match, parts.push(triple(s, p, o)), base) {
            Ok(more) => Ok(seq![first] + more),
            Err(c) => Err(c),
        }
    }
}

/// The statements of merging a relationship. Both ends must occur in the match
/// context, or else have IRIs from the CREATE that made them.
pub open spec fn merge_rel(
    context: Op,
    from: Seq<char>,
    to: Seq<char>,
    rel_types: Seq<Seq<char>>,
    direction: Direction,
    on_match: Seq<SetItem>,
    on_create: Seq<SetItem>,
    outer: Seq<Seq<char>>,
    base: Seq<char>,
    bnodes: Map<Seq<char>, Seq<char>>,
    conds: Seq<ConditionView>,
) -> Outcome {
    match where_parts(context, base) {
        Err(c) => Err(c),
        Ok(ctx) => {
            let parts = outer + ctx;
            if any_contains_spec(parts, var(from)) && any_contains_spec(parts, var(to)) {
                run_all(
                    rel_types,
                    |rt: Seq<char>|
                        merge_matched_type(
                            rt,
                            from,
                            to,
                            direction,
                            on_match,
                            on_create,
                            conds,
                            parts,
                            base,
                        ),
                )
            } else if bnodes.contains_key(from) && bnodes.contains_key(to) && starts_with_char_spec(
                bnodes[from],
                '<',
            ) && starts_with_char_spec(bnodes[to], '<') {
                Ok(
                    merge_known(
                        rel_types,
                        oriented(direction, bnodes[from], bnodes[to]),
                        on_match,
                        on_create,
                        conds,
                        base,
                    ),
                )
            } else {
                Err("write_merge_rel_unbound_nodes"@)
            }
        },
    }
}

fn compile_merge_matched_type(
    rel_type: &str,
    from: &str,
    to: &str,
    direction: Direction,
    on_match: &Vec<SetItem>,
    on_create: &Vec<SetItem>,
    rel_props: &Vec<Condition>,
    parts: &Vec<String>,
    base: &str,
    out: &mut Vec<String>,
) -> (r: Result<(), PolygraphError>)
    ensures
        appended(
            r,
            texts(old(out)@),
            texts(final(out)@),
            merge_matched_type(
                rel_type@,
                from@,
                to@,
                direction,
                on_match@,
                on_create@,
                conditions_of(rel_props@),
                texts(parts@),
                base@,
            ),
        ),
{
    let ghost before = texts(out@);
    proof {
        lemma_keeps(before);
    }
    let base_where = join(parts, " . ");
    let (a, b) = orient(direction, from.to_owned(), to.to_owned());
    let s = var_text(a.as_str());
    let o = var_text(b.as_str());
    let p = iri_text(base, rel_type);
    let mut ins = required_texts(s.as_str(), p.as_str(), o.as_str(), rel_props);
    push_on_create_rel(on_create, s.as_str(), p.as_str(), o.as_str(), base, &mut ins);
    let body = join(&ins, " . ");
    let exists_body = rel_absent_text(s.as_str(), p.as_str(), o.as_str(), direction, rel_props);
    let absent = not_exists_text(exists_body.as_str());
    let cond = if base_where.as_str().is_empty() {
        absent
    } else {
        and_then_text(base_where.as_str(), absent.as_str())
    };
    let first = insert_where_text(body.as_str(), cond.as_str());
    push_text(out, first);
    assert(texts(out@) =~= before + seq![first@]);
    if on_match.len() > 0 {
        let empty: Vec<String> = Vec::new();
        let mut match_parts = concat_texts(parts, &empty);
        push_text(&mut match_parts, triple_text(s.as_str(), p.as_str(), o.as_str()));
        assert(texts(match_parts@) =~= texts(parts@).push(triple(s@, p@, o@)));
        compile_set_items(on_match, &match_parts, base, out)?;
        assert(texts(out@) =~= before + (seq![first@] + set_items(
            on_match@,
            texts(match_parts@),
            base@,
        )->Ok_0));
    }
    Ok(())
}

/// Compiles a MERGE of a relationship.
pub fn compile_merge_rel_with_props(
    match_context: &Op,
    from: &str,
    to: &str,
    rel_types: &Vec<String>,
    direction: Direction,
    on_match: &Vec<SetItem>,
    on_create: &Vec<SetItem>,
    outer_where: &Vec<String>,
    base: &str,
    bnode_map: &NameMap<String>,
    rel_props: &Vec<Condition>,
    out: &mut Vec<String>,
) -> (r: Result<(), PolygraphError>)
    ensures
        appended(
            r,
            texts(old(out)@),
            texts(final(out)@),
            merge_rel(
                *match_context,
                from@,
                to@,
                texts(rel_types@),
                direction,
                on_match@,
                on_create@,
                texts(outer_where@),
                base@,
                bnode_map@,
                conditions_of(rel_props@),
            ),
        ),
{
    let ghost before = texts(out@);
    proof {
        lemma_keeps(before);
    }
    let ctx = op_to_where_parts(match_context, base)?;
    let parts = concat_texts(outer_where, &ctx);
    let f = var_text(from);
    let t = var_text(to);
    if !any_contains(&parts, f.as_str()) || !any_contains(&parts, t.as_str()) {
        match (bnode_map.get(from), bnode_map.get(to)) {
            (Some(from_iri), Some(to_iri)) => {
                if starts_with_char(from_iri.as_str(), '<') && starts_with_char(
                    to_iri.as_str(),
                    '<',
                ) {
                    compile_merge_rel_fully_bound(
                        from_iri.as_str(),
                        to_iri.as_str(),
                        rel_types,
                        direction,
                        on_match,
                        on_create,
                        rel_props,
                        base,
                        out,
                    );
                    return Ok(());
                }
            },
            _ => {},
        }
        return Err(write_unsupported("write_merge_rel_unbound_nodes"));
    }
    let ghost conds = conditions_of(rel_props@);
    let ghost ps = texts(parts@);
    let ghost step = |rt: Seq<char>|
        merge_matched_type(rt, from@, to@, direction, on_match@, on_create@, conds, ps, base@);
    assert(before + seq![] =~= before);
    assert(run_all(texts(rel_types@).take(0), step) == Outcome::Ok(seq![]));
    for i in 0..rel_types.len()
        invariant
            conds == conditions_of(rel_props@),
            ps == texts(parts@),
            step == (|rt: Seq<char>|
                merge_matched_type(
                    rt,
                    from@,
                    to@,
                    direction,
                    on_match@,
                    on_create@,
                    conds,
                    ps,
                    base@,
                )),
            merge_rel(
                *match_context,
                from@,
                to@,
                texts(rel_types@),
                direction,
                on_match@,
                on_create@,
                texts(outer_where@),
                base@,
                bnode_map@,
                conds,
            ) == run_all(texts(rel_types@), step),
            run_all(texts(rel_types@).take(i as int), step) is Ok,
            before == texts(old(out)@),
            texts(out@) == before + run_all(texts(rel_types@).take(i as int), step)->Ok_0,
    {
        let ghost now = texts(out@);
        assert(texts(rel_types@)[i as int] == rel_types@[i as int]@);
        let r = compile_merge_matched_type(
            rel_types[i].as_str(),
            from,
            to,
            direction,
            on_match,
            on_create,
            rel_props,
            &parts,
            base,
            out,
        );
        proof {
            lemma_append_next(texts(rel_types@), step, i as int, before, now, texts(out@), r);
        }
        r?;
    }
    assert(texts(rel_types@).take(rel_types@.len() as int) =~= texts(rel_types@));
    Ok(())
}

// ── The clause ───────────────────────────────────────────────────────────────

/// The statements of a MERGE, and how many numbers it takes for new nodes.
pub struct Merged {
    pub taken: nat,
    pub lines: Outcome,
}

/// What a MERGE clause compiles to.
pub open spec fn merge_clause(
    clause: MergeClause,
    outer: Seq<Seq<char>>,
    base: Seq<char>,
    counter: nat,
    bnodes: Map<Seq<char>, Seq<char>>,
) -> Merged {
    match where_parts(*clause.pattern, base) {
        Err(c) => Merged { taken: 0, lines: Err(c) },
        Ok(parts) => match *clause.pattern {
            Op::Selection { inner, predicate } => match *inner {
                Op::Expand { inner: ctx, from, to, rel_types, direction, range, rel_var, .. } => {
                    if range is Some {
                        Merged { taken: 0, lines: Err("write_merge_complex_pattern"@) }
                    } else {
                        let rel = match rel_var {
                            Some(v) => v@,
                            None => "__rel"@,
                        };
                        let conds = match rel_conditions(predicate, rel, base) {
                            Some(cs) => cs,
                            None => seq![],
                        };
                        Merged {
                            taken: 0,
                            lines: merge_rel(
                                *ctx,
                                from@,
                                to@,
                                texts(rel_types@),
                                direction,
                                clause.on_match@,
                                clause.on_create@,
                                outer,
                                base,
                                bnodes,
                                conds,
                            ),
                        }
                    }
                },
                _ => Merged {
                    taken: 1,
                    lines: merge_node(
                        *inner,
                        parts,
                        outer,
                        clause.on_match@,
                        clause.on_create@,
                        base,
                        counter,
                    ),
                },
            },
            Op::Scan { .. } => Merged {
                taken: 1,
                lines: merge_node(
                    *clause.pattern,
                    parts,
                    outer,
                    clause.on_match@,
                    clause.on_create@,
                    base,
                    counter,
                ),
            },
            Op::Expand { inner, from, to, rel_types, direction, range, .. } => {
                if range is Some {
                    Merged { taken: 0, lines: Err("write_merge_complex_pattern"@) }
                } else {
                    Merged {
                        taken: 0,
                        lines: merge_rel(
                            *inner,
                            from@,
                            to@,
                            texts(rel_types@),
                            direction,
                            clause.on_match@,
                            clause.on_create@,
                            outer,
                            base,
                            bnodes,
                            seq![],
                        ),
                    }
                }
            },
            _ => Merged { taken: 0, lines: Err("write_merge_complex_pattern"@) },
        },
    }
}

/// Compiles a MERGE clause.
pub fn compile_merge(
    clause: &MergeClause,
    outer_where: &Vec<String>,
    base: &str,
    counter: &mut usize,
    bnode_map: &NameMap<String>,
    out: &mut Vec<String>,
) -> (r: Result<(), PolygraphError>)
    requires
        *old(counter) < usize::MAX,
    ensures
        ({
            let merged = merge_clause(
                *clause,
                texts(outer_where@),
                base@,
                *old(counter) as nat,
                bnode_map@,
            );
            &&& appended(r, texts(old(out)@), texts(final(out)@), merged.lines)
            &&& r is Ok ==> *final(counter) == *old(counter) + merged.taken
        }),
{
    proof {
        lemma_keeps(texts(out@));
    }
    let pattern_parts = op_to_where_parts(&clause.pattern, base)?;
    match &*clause.pattern {
        Op::Selection { inner, predicate } => match &**inner {
            Op::Expand { inner: ctx, from, to, rel_types, direction, range, rel_var, .. } => {
                if range.is_some() {
                    return Err(write_unsupported("write_merge_complex_pattern"));
                }
                let rel = match rel_var {
                    Some(v) => v.clone(),
                    None => "__rel".to_owned(),
                };
                let conds = match extract_rel_prop_conditions(predicate, rel.as_str(), base) {
                    Some(cs) => cs,
                    None => {
                        let none: Vec<Condition> = Vec::new();
                        assert(conditions_of(none@) =~= seq![]);
                        none
                    },
                };
                compile_merge_rel_with_props(
                    ctx,
                    from.as_str(),
                    to.as_str(),
                    rel_types,
                    *direction,
                    &clause.on_match,
                    &clause.on_create,
                    outer_where,
                    base,
                    bnode_map,
                    &conds,
                    out,
                )
            },
            _ => compile_merge_node_scan(
                inner,
                &pattern_parts,
                outer_where,
                &clause.on_match,
                &clause.on_create,
                base,
                counter,
                out,
            ),
        },
        Op::Scan { .. } => compile_merge_node_scan(
            &clause.pattern,
            &pattern_parts,
            outer_where,
            &clause.on_match,
            &clause.on_create,
            base,
            counter,
            out,
        ),
        Op::Expand { inner, from, to, rel_types, direction, range, .. } => {
            if range.is_some() {
                return Err(write_unsupported("write_merge_complex_pattern"));
            }
            let none: Vec<Condition> = Vec::new();
            assert(conditions_of(none@) =~= seq![]);
            compile_merge_rel_with_props(
                inner,
                from.as_str(),
                to.as_str(),
                rel_types,
                *direction,
                &clause.on_match,
                &clause.on_create,
                outer_where,
                base,
                bnode_map,
                &none,
                out,
            )
        },
        _ => Err(write_unsupported("write_merge_complex_pattern")),
    }
}

} // verus!
