//! CREATE as SPARQL updates.
use vstd::prelude::*;

use crate::error::{write_unsupported, PolygraphError};
#[allow(unused_imports)]
use crate::error::is_write_unsupported;
use crate::lqa::expr::Expr;
use crate::lqa::op::{CreateEdge, CreateNode, Direction};
use crate::lqa::write::literals::{expr_to_sparql_lit, var_text};
#[allow(unused_imports)]
use crate::lqa::write::literals::{expr_to_sparql_lit_spec, var};
#[allow(unused_imports)]
use crate::lqa::write::steps::{collect, lemma_collect_next};
use crate::lqa::write::updates::insert_where_text;
#[allow(unused_imports)]
use crate::lqa::write::updates::insert_where;
use crate::lqa::write::where_parts::{iri_text, node_triple_text, triple_text, type_triple_text};
#[allow(unused_imports)]
use crate::lqa::write::where_parts::{iri, node_triple, triple, type_triple};
use crate::names::NameMap;
use crate::text::{
    chars_of, dec_usize, join, list_has, push_text, slice_text, starts_with, starts_with_char,
};
#[allow(unused_imports)]
use crate::text::{dec, join_spec, lists, starts_with_char_spec, starts_with_spec, texts};

verus! {

// ── Variables that a WHERE clause binds ──────────────────────────────────────

pub open spec fn is_name_char(c: char) -> bool {
    'a' <= c <= 'z' || 'A' <= c <= 'Z' || '0' <= c <= '9' || c == '_'
}

/// Where the run of name characters from `i` on ends.
pub open spec fn name_end(p: Seq<char>, i: int) -> int
    decreases p.len() - i,
{
    if 0 <= i < p.len() && is_name_char(p[i]) {
        name_end(p, i + 1)
    } else {
        i
    }
}

proof fn lemma_name_end(p: Seq<char>, i: int)
    requires
        0 <= i <= p.len(),
    ensures
        i <= name_end(p, i) <= p.len(),
    decreases p.len() - i,
{
    if i < p.len() && is_name_char(p[i]) {
        lemma_name_end(p, i + 1);
    }
}

/// The names that follow a question mark, from position `i` on.
pub open spec fn names_from(p: Seq<char>, i: int) -> Seq<Seq<char>>
    decreases p.len() - i,
{
    if i < 0 || i >= p.len() {
        seq![]
    } else if p[i] == '?' {
        let end = name_end(p, i + 1);
        if end <= i || end > p.len() {
            seq![]
        } else {
            (if i + 1 < end {
                seq![p.subrange(i + 1, end)]
            } else {
                seq![]
            }) + names_from(p, end)
        }
    } else {
        names_from(p, i + 1)
    }
}

/// Whether a part of the WHERE clause mentions the variable.
pub open spec fn bound_in(parts: Seq<Seq<char>>, name: Seq<char>) -> bool {
    exists|i: int| 0 <= i < parts.len() && lists(names_from(#[trigger] parts[i], 0), name)
}

fn is_name(c: char) -> (r: bool)
    ensures
        r == is_name_char(c),
{
    ('a' <= c && c <= 'z') || ('A' <= c && c <= 'Z') || ('0' <= c && c <= '9') || c == '_'
}

fn names_in(part: &str) -> (r: Vec<String>)
    ensures
        texts(r@) == names_from(part@, 0),
{
    let v = chars_of(part);
    let ghost p = part@;
    let mut found: Vec<String> = Vec::new();
    let mut i: usize = 0;
    assert(texts(found@) + names_from(p, 0) =~= names_from(p, 0));
    while i < v.len()
        invariant
            v@ == p,
            i <= v@.len(),
            texts(found@) + names_from(p, i as int) == names_from(p, 0),
        decreases v@.len() - i,
    {
        if v[i] == '?' {
            let start: usize = i + 1;
            let mut end: usize = start;
            while end < v.len() && is_name(v[end])
                invariant
                    v@ == p,
                    start <= end <= v@.len(),
                    name_end(p, start as int) == name_end(p, end as int),
                decreases v@.len() - end,
            {
                end = end + 1;
            }
            assert(name_end(p, start as int) == end);
            let ghost before = texts(found@);
            if start < end {
                push_text(&mut found, slice_text(&v, start, end));
            }
            assert(texts(found@) + names_from(p, end as int) =~= before + names_from(p, i as int));
            i = end;
        } else {
            i = i + 1;
        }
    }
    assert(texts(found@) + names_from(p, i as int) =~= texts(found@));
    found
}

/// Whether a part of the WHERE clause mentions the variable.
pub fn is_bound_in(parts: &Vec<String>, name: &str) -> (r: bool)
    ensures
        r == bound_in(texts(parts@), name@),
{
    for i in 0..parts.len()
        invariant
            forall|j: int|
                0 <= j < i ==> !lists(names_from(#[trigger] texts(parts@)[j], 0), name@),
    {
        let names = names_in(parts[i].as_str());
        assert(texts(parts@)[i as int] == parts@[i as int]@);
        if list_has(&names, name) {
            return true;
        }
    }
    false
}

// ── Names for created nodes ──────────────────────────────────────────────────

/// The names in use: the number for the next one, and what each variable of the
/// query stands for.
pub struct Names {
    pub counter: nat,
    pub bnodes: Map<Seq<char>, Seq<char>>,
}

pub open spec fn names_now(counter: usize, bnode_map: NameMap<String>) -> Names {
    Names { counter: counter as nat, bnodes: bnode_map@ }
}

/// What a node adds: the names afterwards, and its triples.
pub struct Added {
    pub names: Names,
    pub lines: Seq<Seq<char>>,
}

/// `<base__bnode/n>`
pub open spec fn stable_iri(base: Seq<char>, n: nat) -> Seq<char> {
    "<"@ + base + "__bnode/"@ + dec(n as int) + ">"@
}

fn stable_iri_text(base: &str, n: usize) -> (r: String)
    ensures
        r@ == stable_iri(base@, n as nat),
{
    let d = dec_usize(n);
    "<".to_owned().concat(base).concat("__bnode/").concat(d.as_str()).concat(">")
}

/// `_:__nN`
pub open spec fn blank(n: nat) -> Seq<char> {
    "_:__n"@ + dec(n as int)
}

fn blank_text(n: usize) -> (r: String)
    ensures
        r@ == blank(n as nat),
{
    let d = dec_usize(n);
    "_:__n".to_owned().concat(d.as_str())
}

/// The triples of the constant properties of `s`.
pub open spec fn property_triples(
    s: Seq<char>,
    properties: Seq<(String, Expr)>,
    base: Seq<char>,
) -> Seq<Seq<char>> {
    collect(
        properties,
        |p: (String, Expr)| match expr_to_sparql_lit_spec(p.1) {
            Some(lit) => seq![triple(s, iri(base, p.0@), lit)],
            None => seq![],
        },
    )
}

fn push_property_triples(
    s: &str,
    properties: &Vec<(String, Expr)>,
    base: &str,
    triples: &mut Vec<String>,
)
    ensures
        texts(final(triples)@) == texts(old(triples)@) + property_triples(
            s@,
            properties@,
            base@,
        ),
{
    let ghost before = texts(triples@);
    let ghost f = |p: (String, Expr)| match expr_to_sparql_lit_spec(p.1) {
        Some(lit) => seq![triple(s@, iri(base@, p.0@), lit)],
        None => seq![],
    };
    assert(before + collect(properties@.take(0), f) =~= before);
    for i in 0..properties.len()
        invariant
            f == (|p: (String, Expr)| match expr_to_sparql_lit_spec(p.1) {
                Some(lit) => seq![triple(s@, iri(base@, p.0@), lit)],
                None => seq![],
            }),
            texts(triples@) == before + collect(properties@.take(i as int), f),
    {
        let ghost now = texts(triples@);
        match expr_to_sparql_lit(&properties[i].1) {
            Some(lit) => {
                let p = iri_text(base, properties[i].0.as_str());
                push_text(triples, triple_text(s, p.as_str(), lit.as_str()));
            },
            None => {},
        }
        proof {
            lemma_collect_next(properties@, f, i as int);
            assert(texts(triples@) =~= now + f(properties@[i as int]));
            assert(texts(triples@) =~= before + collect(properties@.take(i + 1), f));
        }
    }
    assert(properties@.take(properties@.len() as int) =~= properties@);
}

/// The triples of a new node.
pub open spec fn node_triples(s: Seq<char>, node: CreateNode, base: Seq<char>) -> Seq<Seq<char>> {
    seq![node_triple(s, base)] + texts(node.labels@).map_values(
        |l: Seq<char>| type_triple(s, base, l),
    ) + property_triples(s, node.properties@, base)
}

fn push_node_triples(s: &str, node: &CreateNode, base: &str, triples: &mut Vec<String>)
    ensures
        texts(final(triples)@) == texts(old(triples)@) + node_triples(s@, *node, base@),
{
    let ghost before = texts(triples@);
    push_text(triples, node_triple_text(s, base));
    let ghost now = texts(triples@);
    let ghost all = texts(node.labels@).map_values(|l: Seq<char>| type_triple(s@, base@, l));
    assert(now + all.take(0) =~= now);
    for i in 0..node.labels.len()
        invariant
            all == texts(node.labels@).map_values(|l: Seq<char>| type_triple(s@, base@, l)),
            texts(triples@) == now + all.take(i as int),
    {
        push_text(triples, type_triple_text(s, base, node.labels[i].as_str()));
        assert(texts(node.labels@)[i as int] == node.labels@[i as int]@);
        assert(all.take(i + 1) =~= all.take(i as int).push(all[i as int]));
        assert(texts(triples@) =~= now + all.take(i + 1));
    }
    assert(all.take(node.labels@.len() as int) =~= all);
    push_property_triples(s, &node.properties, base, triples);
    assert(texts(triples@) =~= before + node_triples(s@, *node, base@));
}

/// What a created node adds. A node that the WHERE clause binds exists already
/// and adds nothing. A new one is written under an IRI of its own where it has a
/// name and there is no WHERE clause, so that later statements can refer to it;
/// else under a blank node.
pub open spec fn create_node(
    node: CreateNode,
    parts: Seq<Seq<char>>,
    base: Seq<char>,
    names: Names,
) -> Added {
    match node.variable {
        Some(v) => {
            if names.bnodes.contains_key(v@) {
                if starts_with_char_spec(names.bnodes[v@], '?') {
                    Added { names, lines: seq![] }
                } else {
                    Added { names, lines: node_triples(names.bnodes[v@], node, base) }
                }
            } else if bound_in(parts, v@) {
                Added {
                    names: Names {
                        counter: names.counter,
                        bnodes: names.bnodes.insert(v@, var(v@)),
                    },
                    lines: seq![],
                }
            } else {
                let s = if parts.len() == 0 && !starts_with_spec(v@, "_lqa_"@) {
                    stable_iri(base, names.counter)
                } else {
                    blank(names.counter)
                };
                Added {
                    names: Names { counter: names.counter + 1, bnodes: names.bnodes.insert(v@, s) },
                    lines: node_triples(s, node, base),
                }
            }
        },
        None => Added {
            names: Names { counter: names.counter + 1, bnodes: names.bnodes },
            lines: node_triples(blank(names.counter), node, base),
        },
    }
}

/// What the created nodes add, in order.
pub open spec fn create_nodes(
    nodes: Seq<CreateNode>,
    parts: Seq<Seq<char>>,
    base: Seq<char>,
    names: Names,
) -> Added
    decreases nodes.len(),
{
    if nodes.len() == 0 {
        Added { names, lines: seq![] }
    } else {
        let before = create_nodes(nodes.drop_last(), parts, base, names);
        let last = create_node(nodes.last(), parts, base, before.names);
        Added { names: last.names, lines: before.lines + last.lines }
    }
}

/// What a variable stands for in a CREATE: the node made for it, or itself.
pub open spec fn created_ref(name: Seq<char>, bnodes: Map<Seq<char>, Seq<char>>) -> Seq<char> {
    if bnodes.contains_key(name) {
        bnodes[name]
    } else {
        var(name)
    }
}

pub fn var_ref_for_create(name: &str, bnode_map: &NameMap<String>) -> (r: String)
    ensures
        r@ == created_ref(name@, bnode_map@),
{
    match bnode_map.get(name) {
        Some(bn) => bn.clone(),
        None => var_text(name),
    }
}

/// `<< s p o >>`
pub open spec fn quoted_triple(s: Seq<char>, p: Seq<char>, o: Seq<char>) -> Seq<char> {
    "<< "@ + triple(s, p, o) + " >>"@
}

pub fn quoted_triple_text(s: &str, p: &str, o: &str) -> (r: String)
    ensures
        r@ == quoted_triple(s@, p@, o@),
{
    let t = triple_text(s, p, o);
    "<< ".to_owned().concat(t.as_str()).concat(" >>")
}

/// The triple of a created relationship, and those of its properties.
pub open spec fn create_edge(
    edge: CreateEdge,
    base: Seq<char>,
    bnodes: Map<Seq<char>, Seq<char>>,
) -> Seq<Seq<char>> {
    let from = created_ref(edge.from@, bnodes);
    let to = created_ref(edge.to@, bnodes);
    let (s, o) = if edge.direction == Direction::Incoming {
        (to, from)
    } else {
        (from, to)
    };
    let p = iri(base, edge.rel_type@);
    seq![triple(s, p, o)] + property_triples(quoted_triple(s, p, o), edge.properties@, base)
}

fn push_edge(edge: &CreateEdge, base: &str, bnode_map: &NameMap<String>, triples: &mut Vec<String>)
    ensures
        texts(final(triples)@) == texts(old(triples)@) + create_edge(*edge, base@, bnode_map@),
{
    let ghost before = texts(triples@);
    let from = var_ref_for_create(edge.from.as_str(), bnode_map);
    let to = var_ref_for_create(edge.to.as_str(), bnode_map);
    let (s, o) = match edge.direction {
        Direction::Incoming => (to, from),
        _ => (from, to),
    };
    let p = iri_text(base, edge.rel_type.as_str());
    push_text(triples, triple_text(s.as_str(), p.as_str(), o.as_str()));
    let q = quoted_triple_text(s.as_str(), p.as_str(), o.as_str());
    push_property_triples(q.as_str(), &edge.properties, base, triples);
    assert(texts(triples@) =~= before + create_edge(*edge, base@, bnode_map@));
}

/// Whether a CREATE after a renaming WITH would make new nodes.
pub open spec fn renames_and_creates(nodes: Seq<CreateNode>, parts: Seq<Seq<char>>) -> bool {
    &&& exists|i: int| 0 <= i < parts.len() && starts_with_spec(#[trigger] parts[i], "BIND("@)
    &&& exists|i: int| 0 <= i < nodes.len() && is_new(#[trigger] nodes[i], parts)
}

pub open spec fn is_new(node: CreateNode, parts: Seq<Seq<char>>) -> bool {
    match node.variable {
        Some(v) => !bound_in(parts, v@),
        None => true,
    }
}

fn does_rename_and_create(nodes: &Vec<CreateNode>, parts: &Vec<String>) -> (r: bool)
    ensures
        r == renames_and_creates(nodes@, texts(parts@)),
{
    let mut renames = false;
    for i in 0..parts.len()
        invariant
            renames == exists|j: int|
                0 <= j < i && starts_with_spec(#[trigger] texts(parts@)[j], "BIND("@),
    {
        assert(texts(parts@)[i as int] == parts@[i as int]@);
        if starts_with(parts[i].as_str(), "BIND(") {
            renames = true;
        }
    }
    if !renames {
        return false;
    }
    for i in 0..nodes.len()
        invariant
            exists|j: int|
                0 <= j < parts@.len() && starts_with_spec(#[trigger] texts(parts@)[j], "BIND("@),
            forall|j: int| 0 <= j < i ==> !is_new(#[trigger] nodes@[j], texts(parts@)),
    {
        let new = match &nodes[i].variable {
            Some(v) => !is_bound_in(parts, v.as_str()),
            None => true,
        };
        if new {
            assert(is_new(nodes@[i as int], texts(parts@)));
            return true;
        }
    }
    false
}

/// The statements of a CREATE and the names afterwards, or the construct that
/// it cannot handle.
pub open spec fn create_clause(
    nodes: Seq<CreateNode>,
    edges: Seq<CreateEdge>,
    parts: Seq<Seq<char>>,
    base: Seq<char>,
    names: Names,
) -> Result<Added, Seq<char>> {
    if renames_and_creates(nodes, parts) {
        Err("write_where_complex_op"@)
    } else {
        let made = create_nodes(nodes, parts, base, names);
        let triples = made.lines + collect(
            edges,
            |e: CreateEdge| create_edge(e, base, made.names.bnodes),
        );
        let body = join_spec(triples, " . "@);
        Ok(
            Added {
                names: made.names,
                lines: if triples.len() == 0 {
                    seq![]
                } else if parts.len() == 0 {
                    seq!["INSERT DATA { "@ + body + " }"@]
                } else {
                    seq![insert_where(body, join_spec(parts, " . "@))]
                },
            },
        )
    }
}

/// Creating nodes takes no more numbers than there are nodes.
pub proof fn lemma_create_counter(
    nodes: Seq<CreateNode>,
    parts: Seq<Seq<char>>,
    base: Seq<char>,
    names: Names,
)
    ensures
        names.counter <= create_nodes(nodes, parts, base, names).names.counter <= names.counter
            + nodes.len(),
    decreases nodes.len(),
{
    if nodes.len() > 0 {
        lemma_create_counter(nodes.drop_last(), parts, base, names);
    }
}

fn push_created_node(
    node: &CreateNode,
    where_parts: &Vec<String>,
    base: &str,
    counter: &mut usize,
    bnode_map: &mut NameMap<String>,
    triples: &mut Vec<String>,
)
    requires
        *old(counter) < usize::MAX,
    ensures
        ({
            let added = create_node(
                *node,
                texts(where_parts@),
                base@,
                names_now(*old(counter), *old(bnode_map)),
            );
            &&& names_now(*final(counter), *final(bnode_map)) == added.names
            &&& texts(final(triples)@) == texts(old(triples)@) + added.lines
        }),
{
    let ghost before = texts(triples@);
    assert(before + seq![] =~= before);
    let subject = match &node.variable {
        Some(v) => {
            let known = match bnode_map.get(v.as_str()) {
                Some(s) => Some(s.clone()),
                None => None,
            };
            match known {
                Some(existing) => {
                    if starts_with_char(existing.as_str(), '?') {
                        return;
                    }
                    existing
                },
                None => {
                    if is_bound_in(where_parts, v.as_str()) {
                        bnode_map.insert(v.clone(), var_text(v.as_str()));
                        return;
                    }
                    let s = if where_parts.len() == 0 && !starts_with(v.as_str(), "_lqa_") {
                        stable_iri_text(base, *counter)
                    } else {
                        blank_text(*counter)
                    };
                    *counter = *counter + 1;
                    bnode_map.insert(v.clone(), s.clone());
                    s
                },
            }
        },
        None => {
            let s = blank_text(*counter);
            *counter = *counter + 1;
            s
        },
    };
    push_node_triples(subject.as_str(), node, base, triples);
}

/// Compiles a CREATE clause.
pub fn compile_create(
    nodes: &Vec<CreateNode>,
    edges: &Vec<CreateEdge>,
    where_parts: &Vec<String>,
    base: &str,
    counter: &mut usize,
    bnode_map: &mut NameMap<String>,
    out: &mut Vec<String>,
) -> (r: Result<(), PolygraphError>)
    requires
        *old(counter) + nodes@.len() <= usize::MAX,
    ensures
        match create_clause(
            nodes@,
            edges@,
            texts(where_parts@),
            base@,
            names_now(*old(counter), *old(bnode_map)),
        ) {
            Ok(added) => r is Ok && names_now(*final(counter), *final(bnode_map)) == added.names
                && texts(final(out)@) == texts(old(out)@) + added.lines,
            Err(c) => (r matches Err(e) && is_write_unsupported(e, c)) && *final(counter) == *old(
                counter,
            ) && *final(bnode_map) == *old(bnode_map) && *final(out) == *old(out),
        },
{
    let ghost before = texts(out@);
    let ghost parts = texts(where_parts@);
    let ghost names = names_now(*counter, *bnode_map);
    if does_rename_and_create(nodes, where_parts) {
        return Err(write_unsupported("write_where_complex_op"));
    }
    let mut triples: Vec<String> = Vec::new();
    assert(texts(triples@) =~= create_nodes(nodes@.take(0), parts, base@, names).lines);
    for i in 0..nodes.len()
        invariant
            parts == texts(where_parts@),
            names.counter + nodes@.len() <= usize::MAX,
            names_now(*counter, *bnode_map) == create_nodes(
                nodes@.take(i as int),
                parts,
                base@,
                names,
            ).names,
            texts(triples@) == create_nodes(nodes@.take(i as int), parts, base@, names).lines,
    {
        proof {
            lemma_create_counter(nodes@.take(i as int), parts, base@, names);
            assert(nodes@.take(i + 1).drop_last() =~= nodes@.take(i as int));
        }
        push_created_node(&nodes[i], where_parts, base, counter, bnode_map, &mut triples);
    }
    assert(nodes@.take(nodes@.len() as int) =~= nodes@);
    let ghost made = create_nodes(nodes@, parts, base@, names);
    let ghost f = |e: CreateEdge| create_edge(e, base@, made.names.bnodes);
    assert(made.lines + collect(edges@.take(0), f) =~= made.lines);
    for i in 0..edges.len()
        invariant
            bnode_map@ == made.names.bnodes,
            f == (|e: CreateEdge| create_edge(e, base@, made.names.bnodes)),
            texts(triples@) == made.lines + collect(edges@.take(i as int), f),
    {
        push_edge(&edges[i], base, bnode_map, &mut triples);
        proof {
            lemma_collect_next(edges@, f, i as int);
            assert(texts(triples@) =~= made.lines + collect(edges@.take(i + 1), f));
        }
    }
    assert(edges@.take(edges@.len() as int) =~= edges@);
    if triples.len() == 0 {
        assert(before + seq![] =~= before);
        return Ok(());
    }
    let body = join(&triples, " . ");
    if where_parts.len() == 0 {
        push_text(out, "INSERT DATA { ".to_owned().concat(body.as_str()).concat(" }"));
    } else {
        let cond = join(where_parts, " . ");
        push_text(out, insert_where_text(body.as_str(), cond.as_str()));
    }
    assert(texts(out@) =~= before + create_clause(
        nodes@,
        edges@,
        parts,
        base@,
        names,
    )->Ok_0.lines);
    Ok(())
}

} // verus!
