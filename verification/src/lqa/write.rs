//! Write operators (CREATE, SET, DELETE, REMOVE, MERGE) as SPARQL updates.
//!
//! The write operators of a tree are peeled off one by one. Each becomes one or
//! more SPARQL 1.1 Update statements, whose WHERE clause comes from the match
//! context: the operators below that only read. A query that also returns rows
//! is read by a SELECT over the tree without its write operators.
use vstd::prelude::*;

pub mod create;
pub mod effects;
pub mod laws;
pub mod literals;
pub mod merge;
pub mod steps;
pub mod tree;
pub mod updates;
pub mod where_parts;

use crate::error::{write_unsupported, PolygraphError};
#[allow(unused_imports)]
use crate::error::is_write_unsupported;
use crate::lqa::op::Op;
use crate::lqa::write::create::compile_create;
#[allow(unused_imports)]
use crate::lqa::write::create::{create_clause, lemma_create_counter, names_now, Names};
use crate::lqa::write::merge::compile_merge;
#[allow(unused_imports)]
use crate::lqa::write::merge::merge_clause;
pub use crate::lqa::write::tree::contains_write;
use crate::lqa::write::tree::{
    collect_rel_vars, contains_delete, is_top_level_return, read_context,
};
#[allow(unused_imports)]
use crate::lqa::write::tree::{
    below_writes, has_delete, has_write, rel_vars, returns_rows,
};
use crate::lqa::write::updates::{compile_delete, compile_remove_items, compile_set_items};
#[allow(unused_imports)]
use crate::lqa::write::updates::{delete_exprs, remove_items, set_items};
use crate::lqa::write::where_parts::{op_to_where_parts, op_to_where_parts_with_bnodes};
#[allow(unused_imports)]
use crate::lqa::write::where_parts::{where_parts, where_parts_with};
use crate::names::NameMap;
use crate::text::starts_with_char;
#[allow(unused_imports)]
use crate::text::{keeps, lemma_keeps, starts_with_char_spec, texts};

verus! {

/// The namespace of labels, relationship types and properties where the caller
/// gives none.
pub const DEFAULT_BASE: &'static str = "http://polygraph.example/";

/// The updates of a query that writes.
pub struct CompiledWrite {
    /// SPARQL Update statements, to be executed in order.
    pub update_strings: Vec<String>,
    /// Whether the query returns rows, so that a SELECT follows the updates.
    pub has_return: bool,
    /// The IRIs of created nodes that have one of their own, by their variables.
    pub bnode_map: NameMap<String>,
    /// Whether there are such nodes, so that the SELECT can bind them to their IRIs.
    pub use_lqa_select: bool,
}

/// Statements, and the names in use after them.
pub struct Compiled {
    pub names: Names,
    pub lines: Seq<Seq<char>>,
}

/// How many numbers for new nodes a tree can take.
pub open spec fn numbers_needed(op: Op) -> nat
    decreases op,
{
    match op {
        Op::Create { inner, nodes, .. } => nodes@.len() + numbers_needed(*inner),
        Op::Merge { inner, .. } => 1 + numbers_needed(*inner),
        Op::SetItems { inner, .. } => numbers_needed(*inner),
        Op::Delete { inner, .. } => numbers_needed(*inner),
        Op::Remove { inner, .. } => numbers_needed(*inner),
        Op::GroupBy { inner, .. } => numbers_needed(*inner),
        Op::OrderBy { inner, .. } => numbers_needed(*inner),
        Op::Limit { inner, .. } => numbers_needed(*inner),
        Op::Skip { inner, .. } => numbers_needed(*inner),
        Op::Distinct { inner } => numbers_needed(*inner),
        Op::Selection { inner, .. } => numbers_needed(*inner),
        Op::Unwind { inner, .. } => numbers_needed(*inner),
        Op::Expand { inner, .. } => numbers_needed(*inner),
        Op::Projection { inner, .. } => numbers_needed(*inner),
        _ => 0,
    }
}

/// What the write operators below an operator compile to: nothing, where there
/// are none.
pub open spec fn compiled_below(inner: Op, base: Seq<char>, names: Names) -> Result<
    Compiled,
    Seq<char>,
>
    decreases inner, 1nat,
{
    if has_write(inner) {
        compiled(inner, base, names)
    } else {
        Ok(Compiled { names, lines: seq![] })
    }
}

/// What a tree compiles to. The statements of a CREATE come before those of the
/// write operators that it follows, which may remove what its WHERE clause
/// matches; those of every other write operator come after. Write operators in a
/// branch of a product, a union, a join or a subquery cannot be compiled.
pub open spec fn compiled(op: Op, base: Seq<char>, names: Names) -> Result<Compiled, Seq<char>>
    decreases op, 0nat,
{
    match op {
        Op::Create { inner, nodes, edges } => match where_parts(below_writes(*inner), base) {
            Err(c) => Err(c),
            Ok(parts) => match create_clause(nodes@, edges@, parts, base, names) {
                Err(c) => Err(c),
                Ok(made) => match compiled_below(*inner, base, made.names) {
                    Err(c) => Err(c),
                    Ok(below) => Ok(
                        Compiled { names: below.names, lines: made.lines + below.lines },
                    ),
                },
            },
        },
        Op::SetItems { inner, items } => match where_parts(below_writes(*inner), base) {
            Err(c) => Err(c),
            Ok(parts) => match compiled_below(*inner, base, names) {
                Err(c) => Err(c),
                Ok(below) => match set_items(items@, parts, base) {
                    Err(c) => Err(c),
                    Ok(more) => Ok(Compiled { names: below.names, lines: below.lines + more }),
                },
            },
        },
        Op::Delete { inner, detach, exprs } => match where_parts(below_writes(*inner), base) {
            Err(c) => Err(c),
            Ok(parts) => match compiled_below(*inner, base, names) {
                Err(c) => Err(c),
                Ok(below) => match delete_exprs(
                    exprs@,
                    detach,
                    parts,
                    rel_vars(below_writes(*inner)),
                    base,
                ) {
                    Err(c) => Err(c),
                    Ok(more) => Ok(Compiled { names: below.names, lines: below.lines + more }),
                },
            },
        },
        Op::Remove { inner, items } => match where_parts(below_writes(*inner), base) {
            Err(c) => Err(c),
            Ok(parts) => match compiled_below(*inner, base, names) {
                Err(c) => Err(c),
                Ok(below) => Ok(
                    Compiled {
                        names: below.names,
                        lines: below.lines + remove_items(items@, parts, base),
                    },
                ),
            },
        },
        Op::Merge { inner, clause } => match compiled_below(*inner, base, names) {
            Err(c) => Err(c),
            Ok(below) => match where_parts_with(*inner, base, below.names.bnodes) {
                Err(c) => Err(c),
                Ok(parts) => {
                    let merged = merge_clause(
                        clause,
                        parts,
                        base,
                        below.names.counter,
                        below.names.bnodes,
                    );
                    match merged.lines {
                        Err(c) => Err(c),
                        Ok(more) => Ok(
                            Compiled {
                                names: Names {
                                    counter: below.names.counter + merged.taken,
                                    bnodes: below.names.bnodes,
                                },
                                lines: below.lines + more,
                            },
                        ),
                    }
                },
            },
        },
        Op::Call { .. } => Err("write_call_foreach"@),
        Op::Foreach { .. } => Err("write_call_foreach"@),
        Op::GroupBy { inner, .. } => compiled_below(*inner, base, names),
        Op::OrderBy { inner, .. } => compiled_below(*inner, base, names),
        Op::Limit { inner, .. } => compiled_below(*inner, base, names),
        Op::Skip { inner, .. } => compiled_below(*inner, base, names),
        Op::Distinct { inner } => compiled_below(*inner, base, names),
        Op::Selection { inner, .. } => compiled_below(*inner, base, names),
        Op::Unwind { inner, .. } => compiled_below(*inner, base, names),
        Op::Expand { inner, .. } => compiled_below(*inner, base, names),
        Op::Projection { inner, .. } => compiled_below(*inner, base, names),
        _ => if has_write(op) {
            Err("write_in_branch"@)
        } else {
            Ok(Compiled { names, lines: seq![] })
        },
    }
}

/// A tree takes no more numbers than it needs.
pub proof fn lemma_numbers(op: Op, base: Seq<char>, names: Names)
    ensures
        compiled(op, base, names) matches Ok(c) ==> names.counter <= c.names.counter
            <= names.counter + numbers_needed(op),
    decreases op,
{
    match op {
        Op::Create { inner, nodes, edges } => {
            if where_parts(below_writes(*inner), base) is Ok {
                let parts = where_parts(below_writes(*inner), base)->Ok_0;
                lemma_create_counter(nodes@, parts, base, names);
                if create_clause(nodes@, edges@, parts, base, names) is Ok {
                    let made = create_clause(nodes@, edges@, parts, base, names)->Ok_0;
                    lemma_numbers(*inner, base, made.names);
                }
            }
        },
        Op::SetItems { inner, .. } => lemma_numbers(*inner, base, names),
        Op::Delete { inner, .. } => lemma_numbers(*inner, base, names),
        Op::Remove { inner, .. } => lemma_numbers(*inner, base, names),
        Op::Merge { inner, .. } => lemma_numbers(*inner, base, names),
        Op::GroupBy { inner, .. } => lemma_numbers(*inner, base, names),
        Op::OrderBy { inner, .. } => lemma_numbers(*inner, base, names),
        Op::Limit { inner, .. } => lemma_numbers(*inner, base, names),
        Op::Skip { inner, .. } => lemma_numbers(*inner, base, names),
        Op::Distinct { inner } => lemma_numbers(*inner, base, names),
        Op::Selection { inner, .. } => lemma_numbers(*inner, base, names),
        Op::Unwind { inner, .. } => lemma_numbers(*inner, base, names),
        Op::Expand { inner, .. } => lemma_numbers(*inner, base, names),
        Op::Projection { inner, .. } => lemma_numbers(*inner, base, names),
        _ => {},
    }
}

/// What a step of the compiler did: appended the statements and took the names
/// that `want` holds, or failed on the construct that `want` names. Statements that
/// were there stay.
pub open spec fn did_compile(
    r: Result<(), PolygraphError>,
    before: Seq<Seq<char>>,
    after: Seq<Seq<char>>,
    names: Names,
    want: Result<Compiled, Seq<char>>,
) -> bool {
    match want {
        Ok(c) => r is Ok && names == c.names && after == before + c.lines,
        Err(c) => (r matches Err(e) && is_write_unsupported(e, c)) && keeps(before, after),
    }
}

/// Compiles the write operators below, if any.
fn compile_below(
    inner: &Op,
    base: &str,
    counter: &mut usize,
    bnode_map: &mut NameMap<String>,
    out: &mut Vec<String>,
) -> (r: Result<(), PolygraphError>)
    requires
        *old(counter) + numbers_needed(*inner) <= usize::MAX,
    ensures
        did_compile(
            r,
            texts(old(out)@),
            texts(final(out)@),
            names_now(*final(counter), *final(bnode_map)),
            compiled_below(*inner, base@, names_now(*old(counter), *old(bnode_map))),
        ),
    decreases inner, 1nat,
{
    if contains_write(inner) {
        compile_write_recursive(inner, base, counter, bnode_map, out)
    } else {
        assert(texts(out@) + seq![] =~= texts(out@));
        Ok(())
    }
}

/// Compiles the write operators of a tree, appending their statements.
pub fn compile_write_recursive(
    op: &Op,
    base: &str,
    counter: &mut usize,
    bnode_map: &mut NameMap<String>,
    out: &mut Vec<String>,
) -> (r: Result<(), PolygraphError>)
    requires
        *old(counter) + numbers_needed(*op) <= usize::MAX,
    ensures
        did_compile(
            r,
            texts(old(out)@),
            texts(final(out)@),
            names_now(*final(counter), *final(bnode_map)),
            compiled(*op, base@, names_now(*old(counter), *old(bnode_map))),
        ),
    decreases op, 0nat,
{
    let ghost before = texts(out@);
    let ghost names = names_now(*counter, *bnode_map);
    proof {
        lemma_keeps(before);
    }
    assert(before + seq![] =~= before);
    match op {
        Op::Create { inner, nodes, edges } => {
            let parts = op_to_where_parts(read_context(inner), base)?;
            proof {
                lemma_create_counter(nodes@, texts(parts@), base@, names);
            }
            compile_create(nodes, edges, &parts, base, counter, bnode_map, out)?;
            compile_below(inner, base, counter, bnode_map, out)?;
            assert(texts(out@) =~= before + compiled(*op, base@, names)->Ok_0.lines);
            Ok(())
        },
        Op::SetItems { inner, items } => {
            let parts = op_to_where_parts(read_context(inner), base)?;
            compile_below(inner, base, counter, bnode_map, out)?;
            compile_set_items(items, &parts, base, out)?;
            assert(texts(out@) =~= before + compiled(*op, base@, names)->Ok_0.lines);
            Ok(())
        },
        Op::Delete { inner, detach, exprs } => {
            let context = read_context(inner);
            let parts = op_to_where_parts(context, base)?;
            let rels = collect_rel_vars(context);
            compile_below(inner, base, counter, bnode_map, out)?;
            compile_delete(exprs, *detach, &parts, &rels, base, out)?;
            assert(texts(out@) =~= before + compiled(*op, base@, names)->Ok_0.lines);
            Ok(())
        },
        Op::Remove { inner, items } => {
            let parts = op_to_where_parts(read_context(inner), base)?;
            compile_below(inner, base, counter, bnode_map, out)?;
            compile_remove_items(items, &parts, base, out);
            assert(texts(out@) =~= before + compiled(*op, base@, names)->Ok_0.lines);
            Ok(())
        },
        Op::Merge { inner, clause } => {
            proof {
                lemma_numbers(**inner, base@, names);
            }
            compile_below(inner, base, counter, bnode_map, out)?;
            let parts = op_to_where_parts_with_bnodes(inner, base, bnode_map)?;
            compile_merge(clause, &parts, base, counter, bnode_map, out)?;
            assert(texts(out@) =~= before + compiled(*op, base@, names)->Ok_0.lines);
            Ok(())
        },
        Op::Call { .. } | Op::Foreach { .. } => Err(write_unsupported("write_call_foreach")),
        Op::GroupBy { inner, .. }
        | Op::OrderBy { inner, .. }
        | Op::Limit { inner, .. }
        | Op::Skip { inner, .. }
        | Op::Distinct { inner }
        | Op::Selection { inner, .. }
        | Op::Unwind { inner, .. }
        | Op::Expand { inner, .. }
        | Op::Projection { inner, .. } => compile_below(inner, base, counter, bnode_map, out),
        _ => {
            if contains_write(op) {
                return Err(write_unsupported("write_in_branch"));
            }
            Ok(())
        },
    }
}

/// Whether what a variable stands for is an IRI of its own.
pub open spec fn is_stable(t: Seq<char>) -> bool {
    starts_with_char_spec(t, '<')
}

/// The variables that stand for IRIs of their own, with these.
pub open spec fn stable_only(bnodes: Map<Seq<char>, Seq<char>>) -> Map<Seq<char>, Seq<char>> {
    Map::new(|k: Seq<char>| bnodes.contains_key(k) && is_stable(bnodes[k]), |k: Seq<char>| bnodes[k])
}

/// Whether some variable stands for an IRI of its own.
pub open spec fn some_stable(bnodes: Map<Seq<char>, Seq<char>>) -> bool {
    exists|k: Seq<char>| #[trigger] bnodes.contains_key(k) && is_stable(bnodes[k])
}

/// Keeps the variables that stand for IRIs of their own, and tells whether there
/// are any.
fn keep_stable(bnode_map: &NameMap<String>) -> (r: (NameMap<String>, bool))
    ensures
        r.0@ == stable_only(bnode_map@),
        r.1 == some_stable(r.0@),
{
    let names = bnode_map.names();
    let mut kept: NameMap<String> = NameMap::new();
    let mut some = false;
    assert(kept@ =~= Map::empty());
    for i in 0..names.len()
        invariant
            forall|k: Seq<char>|
                bnode_map@.contains_key(k) <==> exists|j: int|
                    0 <= j < names@.len() && #[trigger] names@[j]@ == k,
            forall|k: Seq<char>| #[trigger]
                kept@.contains_key(k) ==> bnode_map@.contains_key(k) && is_stable(bnode_map@[k])
                    && kept@[k] == bnode_map@[k],
            forall|j: int|
                0 <= j < i && is_stable(bnode_map@[(#[trigger] names@[j])@])
                    ==> kept@.contains_key(names@[j]@),
            some == some_stable(kept@),
    {
        assert(names@[i as int]@ == names@[i as int]@);
        assert(bnode_map@.contains_key(names@[i as int]@));
        match bnode_map.get(names[i].as_str()) {
            Some(v) => {
                if starts_with_char(v.as_str(), '<') {
                    let ghost before = kept@;
                    kept.insert(names[i].clone(), v.clone());
                    some = true;
                    assert(kept@.contains_key(names@[i as int]@));
                }
            },
            None => {},
        }
    }
    assert(kept@ =~= stable_only(bnode_map@));
    (kept, some)
}

/// The namespace to use.
pub open spec fn base_or_default(base_iri: Option<&str>) -> Seq<char> {
    match base_iri {
        Some(b) => b@,
        None => DEFAULT_BASE@,
    }
}

/// What a query compiles to. One that deletes and returns rows compiles to no
/// statement at all: its rows are those before the deletion.
pub open spec fn write_of(op: Op, base: Seq<char>) -> Result<Compiled, Seq<char>> {
    let start = Names { counter: 0, bnodes: Map::empty() };
    if returns_rows(op) && has_delete(op) {
        Ok(Compiled { names: start, lines: seq![] })
    } else if !has_write(op) {
        Err("compile_write: op tree has no write operator"@)
    } else {
        compiled(op, base, start)
    }
}

/// Compiles a query that writes to SPARQL Update statements.
///
/// `base_iri` is the namespace of labels, relationship types and properties.
/// The caller makes the SELECT of a query that returns rows. A query with a write
/// that cannot be compiled is refused, so that the caller can take another way.
pub fn compile_write(op: &Op, base_iri: Option<&str>) -> (r: Result<CompiledWrite, PolygraphError>)
    requires
        numbers_needed(*op) <= usize::MAX,
    ensures
        match write_of(*op, base_or_default(base_iri)) {
            Ok(c) => r matches Ok(w) && texts(w.update_strings@) == c.lines && w.has_return
                == returns_rows(*op) && w.bnode_map@ == stable_only(c.names.bnodes)
                && w.use_lqa_select == some_stable(w.bnode_map@),
            Err(c) => r matches Err(e) && is_write_unsupported(e, c),
        },
{
    let base = match base_iri {
        Some(b) => b,
        None => DEFAULT_BASE,
    };
    let has_return = is_top_level_return(op);
    let mut updates: Vec<String> = Vec::new();
    let mut bnode_map: NameMap<String> = NameMap::new();
    assert(texts(updates@) =~= seq![]);
    if has_return && contains_delete(op) {
        assert(bnode_map@ =~= stable_only(Map::empty()));
        return Ok(
            CompiledWrite { update_strings: updates, has_return: true, bnode_map, use_lqa_select: false },
        );
    }
    if !contains_write(op) {
        return Err(write_unsupported("compile_write: op tree has no write operator"));
    }
    let mut counter: usize = 0;
    compile_write_recursive(op, base, &mut counter, &mut bnode_map, &mut updates)?;
    let ghost c = write_of(*op, base@)->Ok_0;
    assert(texts(updates@) =~= c.lines);
    let (stable, use_lqa_select) = keep_stable(&bnode_map);
    Ok(CompiledWrite { update_strings: updates, has_return, bnode_map: stable, use_lqa_select })
}

} // verus!
