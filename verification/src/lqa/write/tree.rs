//! Questions about operator trees, and trees without their write operators.
use vstd::prelude::*;

use crate::lqa::expr::{Expr, Literal};
use crate::lqa::op::{CreateNode, Direction, Op};
use crate::names::NameMap;
use crate::text::{chars_of, clone_texts, slice_text, starts_with, starts_with_char};
#[allow(unused_imports)]
use crate::text::{starts_with_char_spec, starts_with_spec, texts, trim_end_spec, trim_start_spec};

verus! {

// ── Which operators a tree holds ─────────────────────────────────────────────

/// Whether the operator itself changes the graph.
pub open spec fn is_write(op: Op) -> bool {
    op is Create || op is SetItems || op is Delete || op is Remove || op is Merge || op is Call
        || op is Foreach
}

/// Whether some operator of the tree satisfies `p`.
pub open spec fn some_op(op: Op, p: spec_fn(Op) -> bool) -> bool
    decreases op,
{
    p(op) || match op {
        Op::Selection { inner, .. } => some_op(*inner, p),
        Op::Expand { inner, .. } => some_op(*inner, p),
        Op::OrderBy { inner, .. } => some_op(*inner, p),
        Op::Distinct { inner } => some_op(*inner, p),
        Op::GroupBy { inner, .. } => some_op(*inner, p),
        Op::Projection { inner, .. } => some_op(*inner, p),
        Op::Limit { inner, .. } => some_op(*inner, p),
        Op::Skip { inner, .. } => some_op(*inner, p),
        Op::Unwind { inner, .. } => some_op(*inner, p),
        Op::Create { inner, .. } => some_op(*inner, p),
        Op::SetItems { inner, .. } => some_op(*inner, p),
        Op::Delete { inner, .. } => some_op(*inner, p),
        Op::Remove { inner, .. } => some_op(*inner, p),
        Op::Merge { inner, .. } => some_op(*inner, p),
        Op::Call { inner, .. } => some_op(*inner, p),
        Op::Foreach { inner, .. } => some_op(*inner, p),
        Op::CartesianProduct { left, right } => some_op(*left, p) || some_op(*right, p),
        Op::Union { left, right } => some_op(*left, p) || some_op(*right, p),
        Op::UnionAll { left, right } => some_op(*left, p) || some_op(*right, p),
        Op::LeftOuterJoin { left, right, .. } => some_op(*left, p) || some_op(*right, p),
        Op::Subquery { outer, inner } => some_op(*outer, p) || some_op(*inner, p),
        Op::Scan { .. } | Op::Unit | Op::Values { .. } => false,
    }
}

pub open spec fn has_write(op: Op) -> bool {
    some_op(op, |o: Op| is_write(o))
}

pub open spec fn has_delete(op: Op) -> bool {
    some_op(op, |o: Op| o is Delete)
}

pub open spec fn has_create(op: Op) -> bool {
    some_op(op, |o: Op| o is Create)
}

pub open spec fn has_projection(op: Op) -> bool {
    some_op(op, |o: Op| o is Projection)
}

/// Whether any operator of the tree changes the graph.
pub fn contains_write(op: &Op) -> (r: bool)
    ensures
        r == has_write(*op),
    decreases op,
{
    match op {
        Op::Create { .. }
        | Op::SetItems { .. }
        | Op::Delete { .. }
        | Op::Remove { .. }
        | Op::Merge { .. }
        | Op::Call { .. }
        | Op::Foreach { .. } => true,
        Op::Projection { inner, .. }
        | Op::Selection { inner, .. }
        | Op::Expand { inner, .. }
        | Op::OrderBy { inner, .. }
        | Op::Limit { inner, .. }
        | Op::Skip { inner, .. }
        | Op::Distinct { inner, .. }
        | Op::GroupBy { inner, .. }
        | Op::Unwind { inner, .. } => contains_write(inner),
        Op::CartesianProduct { left, right }
        | Op::Union { left, right }
        | Op::UnionAll { left, right } => contains_write(left) || contains_write(right),
        Op::LeftOuterJoin { left, right, .. } => contains_write(left) || contains_write(right),
        Op::Subquery { outer, inner } => contains_write(outer) || contains_write(inner),
        Op::Scan { .. } | Op::Unit | Op::Values { .. } => false,
    }
}

/// Whether any operator of the tree is a DELETE.
pub fn contains_delete(op: &Op) -> (r: bool)
    ensures
        r == has_delete(*op),
    decreases op,
{
    match op {
        Op::Delete { .. } => true,
        Op::Create { inner, .. }
        | Op::SetItems { inner, .. }
        | Op::Remove { inner, .. }
        | Op::Merge { inner, .. }
        | Op::Call { inner, .. }
        | Op::Foreach { inner, .. }
        | Op::Projection { inner, .. }
        | Op::Selection { inner, .. }
        | Op::Expand { inner, .. }
        | Op::OrderBy { inner, .. }
        | Op::Limit { inner, .. }
        | Op::Skip { inner, .. }
        | Op::Distinct { inner, .. }
        | Op::GroupBy { inner, .. }
        | Op::Unwind { inner, .. } => contains_delete(inner),
        Op::CartesianProduct { left, right }
        | Op::Union { left, right }
        | Op::UnionAll { left, right } => contains_delete(left) || contains_delete(right),
        Op::LeftOuterJoin { left, right, .. } => contains_delete(left) || contains_delete(right),
        Op::Subquery { outer, inner } => contains_delete(outer) || contains_delete(inner),
        Op::Scan { .. } | Op::Unit | Op::Values { .. } => false,
    }
}

/// Whether any operator of the tree is a projection.
pub fn contains_projection(op: &Op) -> (r: bool)
    ensures
        r == has_projection(*op),
    decreases op,
{
    match op {
        Op::Projection { .. } => true,
        Op::Selection { inner, .. }
        | Op::Expand { inner, .. }
        | Op::OrderBy { inner, .. }
        | Op::Limit { inner, .. }
        | Op::Skip { inner, .. }
        | Op::Distinct { inner, .. }
        | Op::GroupBy { inner, .. }
        | Op::Unwind { inner, .. }
        | Op::Create { inner, .. }
        | Op::SetItems { inner, .. }
        | Op::Delete { inner, .. }
        | Op::Remove { inner, .. }
        | Op::Merge { inner, .. }
        | Op::Call { inner, .. }
        | Op::Foreach { inner, .. } => contains_projection(inner),
        Op::CartesianProduct { left, right }
        | Op::Union { left, right }
        | Op::UnionAll { left, right } => contains_projection(left) || contains_projection(right),
        Op::LeftOuterJoin { left, right, .. } => {
            contains_projection(left) || contains_projection(right)
        },
        Op::Subquery { outer, inner } => contains_projection(outer) || contains_projection(inner),
        Op::Scan { .. } | Op::Unit | Op::Values { .. } => false,
    }
}

/// Whether the query returns rows: a projection at the top, under nothing but
/// ordering, LIMIT, SKIP and DISTINCT. One that stands inside a write operator
/// comes from a WITH and does not count.
pub open spec fn returns_rows(op: Op) -> bool
    decreases op,
{
    match op {
        Op::Projection { .. } => true,
        Op::OrderBy { inner, .. } => returns_rows(*inner),
        Op::Limit { inner, .. } => returns_rows(*inner),
        Op::Skip { inner, .. } => returns_rows(*inner),
        Op::Distinct { inner } => returns_rows(*inner),
        _ => false,
    }
}

pub fn is_top_level_return(op: &Op) -> (r: bool)
    ensures
        r == returns_rows(*op),
    decreases op,
{
    match op {
        Op::Projection { .. } => true,
        Op::OrderBy { inner, .. }
        | Op::Limit { inner, .. }
        | Op::Skip { inner, .. }
        | Op::Distinct { inner } => is_top_level_return(inner),
        _ => false,
    }
}

/// Whether any operator of the tree is a CREATE.
pub fn op_contains_create(op: &Op) -> (r: bool)
    ensures
        r == has_create(*op),
    decreases op,
{
    match op {
        Op::Create { .. } => true,
        Op::Merge { inner, .. } => op_contains_create(inner),
        Op::Projection { inner, .. }
        | Op::Selection { inner, .. }
        | Op::Expand { inner, .. }
        | Op::OrderBy { inner, .. }
        | Op::Limit { inner, .. }
        | Op::Skip { inner, .. }
        | Op::Distinct { inner, .. }
        | Op::GroupBy { inner, .. }
        | Op::Unwind { inner, .. }
        | Op::SetItems { inner, .. }
        | Op::Delete { inner, .. }
        | Op::Remove { inner, .. }
        | Op::Call { inner, .. }
        | Op::Foreach { inner, .. } => op_contains_create(inner),
        Op::CartesianProduct { left, right }
        | Op::Union { left, right }
        | Op::UnionAll { left, right } => op_contains_create(left) || op_contains_create(right),
        Op::LeftOuterJoin { left, right, .. } => {
            op_contains_create(left) || op_contains_create(right)
        },
        Op::Subquery { outer, inner } => {
            op_contains_create(outer) || op_contains_create(inner)
        },
        Op::Scan { .. } | Op::Unit | Op::Values { .. } => false,
    }
}

/// Whether the operator is a MERGE that a CREATE stands below.
pub open spec fn merges_created(op: Op) -> bool {
    op matches Op::Merge { inner, .. } && has_create(*inner)
}

/// Whether a MERGE follows a CREATE, as in `CREATE (a), (b) MERGE (a)-[:R]->(b)`.
pub open spec fn create_before_merge(op: Op) -> bool {
    some_op(op, |o: Op| merges_created(o))
}

pub fn op_has_create_before_merge(op: &Op) -> (r: bool)
    ensures
        r == create_before_merge(*op),
    decreases op,
{
    match op {
        Op::Merge { inner, .. } => op_contains_create(inner) || op_has_create_before_merge(inner),
        Op::Create { inner, .. } => op_has_create_before_merge(inner),
        Op::Projection { inner, .. }
        | Op::Selection { inner, .. }
        | Op::Expand { inner, .. }
        | Op::OrderBy { inner, .. }
        | Op::Limit { inner, .. }
        | Op::Skip { inner, .. }
        | Op::Distinct { inner, .. }
        | Op::GroupBy { inner, .. }
        | Op::Unwind { inner, .. }
        | Op::SetItems { inner, .. }
        | Op::Delete { inner, .. }
        | Op::Remove { inner, .. }
        | Op::Call { inner, .. }
        | Op::Foreach { inner, .. } => op_has_create_before_merge(inner),
        Op::CartesianProduct { left, right }
        | Op::Union { left, right }
        | Op::UnionAll { left, right } => op_has_create_before_merge(left) || op_has_create_before_merge(right),
        Op::LeftOuterJoin { left, right, .. } => {
            op_has_create_before_merge(left) || op_has_create_before_merge(right)
        },
        Op::Subquery { outer, inner } => {
            op_has_create_before_merge(outer) || op_has_create_before_merge(inner)
        },
        Op::Scan { .. } | Op::Unit | Op::Values { .. } => false,
    }
}

/// The first operator below the write operators at the top.
pub open spec fn below_writes(op: Op) -> Op
    decreases op,
{
    match op {
        Op::Create { inner, .. } => below_writes(*inner),
        Op::SetItems { inner, .. } => below_writes(*inner),
        Op::Delete { inner, .. } => below_writes(*inner),
        Op::Remove { inner, .. } => below_writes(*inner),
        Op::Merge { inner, .. } => below_writes(*inner),
        Op::Call { inner, .. } => below_writes(*inner),
        Op::Foreach { inner, .. } => below_writes(*inner),
        _ => op,
    }
}

/// The match context of a write operator: what supplies its WHERE clause.
pub fn read_context(op: &Op) -> (r: &Op)
    ensures
        *r == below_writes(*op),
    decreases op,
{
    match op {
        Op::Create { inner, .. }
        | Op::SetItems { inner, .. }
        | Op::Delete { inner, .. }
        | Op::Remove { inner, .. }
        | Op::Merge { inner, .. }
        | Op::Call { inner, .. }
        | Op::Foreach { inner, .. } => read_context(inner),
        _ => op,
    }
}

/// The variable of the first scan of a tree, on the left.
pub open spec fn first_scan(op: Op) -> Option<Seq<char>>
    decreases op,
{
    match op {
        Op::Scan { variable, .. } => Some(variable@),
        Op::Selection { inner, .. } => first_scan(*inner),
        Op::Expand { inner, .. } => first_scan(*inner),
        Op::Limit { inner, .. } => first_scan(*inner),
        Op::Skip { inner, .. } => first_scan(*inner),
        Op::OrderBy { inner, .. } => first_scan(*inner),
        Op::Distinct { inner } => first_scan(*inner),
        Op::GroupBy { inner, .. } => first_scan(*inner),
        Op::CartesianProduct { left, .. } => first_scan(*left),
        Op::Union { left, .. } => first_scan(*left),
        Op::UnionAll { left, .. } => first_scan(*left),
        Op::LeftOuterJoin { left, .. } => first_scan(*left),
        _ => None,
    }
}

pub fn find_scan_var(op: &Op) -> (r: Option<String>)
    ensures
        match r {
            Some(v) => first_scan(*op) == Some(v@),
            None => first_scan(*op) is None,
        },
    decreases op,
{
    match op {
        Op::Scan { variable, .. } => Some(variable.clone()),
        Op::Selection { inner, .. }
        | Op::Expand { inner, .. }
        | Op::Limit { inner, .. }
        | Op::Skip { inner, .. }
        | Op::OrderBy { inner, .. }
        | Op::Distinct { inner, .. }
        | Op::GroupBy { inner, .. } => find_scan_var(inner),
        Op::CartesianProduct { left, .. }
        | Op::Union { left, .. }
        | Op::UnionAll { left, .. }
        | Op::LeftOuterJoin { left, .. } => find_scan_var(left),
        _ => None,
    }
}

// ── Relationship variables ───────────────────────────────────────────────────

/// How a relationship variable is bound by the expansion that names it.
#[derive(Debug)]
pub struct RelVarBind {
    pub from: String,
    pub to: String,
    pub rel_types: Vec<String>,
    pub direction: Direction,
}

pub struct RelVarBindView {
    pub from: Seq<char>,
    pub to: Seq<char>,
    pub rel_types: Seq<Seq<char>>,
    pub direction: Direction,
}

impl View for RelVarBind {
    type V = RelVarBindView;

    open spec fn view(&self) -> RelVarBindView {
        RelVarBindView {
            from: self.from@,
            to: self.to@,
            rel_types: texts(self.rel_types@),
            direction: self.direction,
        }
    }
}

/// The bindings of a tree's relationship variables, over those of `m`. An
/// expansion further down replaces one above it.
pub open spec fn rel_vars_over(op: Op, m: Map<Seq<char>, RelVarBindView>) -> Map<
    Seq<char>,
    RelVarBindView,
>
    decreases op,
{
    match op {
        Op::Expand { inner, from, rel_var, to, rel_types, direction, .. } => match rel_var {
            Some(rv) => rel_vars_over(
                *inner,
                m.insert(
                    rv@,
                    RelVarBindView { from: from@, to: to@, rel_types: texts(rel_types@), direction },
                ),
            ),
            None => rel_vars_over(*inner, m),
        },
        Op::Selection { inner, .. } => rel_vars_over(*inner, m),
        Op::OrderBy { inner, .. } => rel_vars_over(*inner, m),
        Op::Distinct { inner } => rel_vars_over(*inner, m),
        Op::GroupBy { inner, .. } => rel_vars_over(*inner, m),
        Op::Projection { inner, .. } => rel_vars_over(*inner, m),
        Op::Limit { inner, .. } => rel_vars_over(*inner, m),
        Op::Skip { inner, .. } => rel_vars_over(*inner, m),
        Op::Unwind { inner, .. } => rel_vars_over(*inner, m),
        Op::Create { inner, .. } => rel_vars_over(*inner, m),
        Op::SetItems { inner, .. } => rel_vars_over(*inner, m),
        Op::Delete { inner, .. } => rel_vars_over(*inner, m),
        Op::Remove { inner, .. } => rel_vars_over(*inner, m),
        Op::Merge { inner, .. } => rel_vars_over(*inner, m),
        Op::Call { inner, .. } => rel_vars_over(*inner, m),
        Op::Foreach { inner, .. } => rel_vars_over(*inner, m),
        Op::CartesianProduct { left, right } => rel_vars_over(*right, rel_vars_over(*left, m)),
        Op::Union { left, right } => rel_vars_over(*right, rel_vars_over(*left, m)),
        Op::UnionAll { left, right } => rel_vars_over(*right, rel_vars_over(*left, m)),
        Op::LeftOuterJoin { left, right, .. } => rel_vars_over(*right, rel_vars_over(*left, m)),
        Op::Subquery { outer, inner } => rel_vars_over(*inner, rel_vars_over(*outer, m)),
        Op::Scan { .. } | Op::Unit | Op::Values { .. } => m,
    }
}

pub fn collect_rel_vars_rec(op: &Op, map: &mut NameMap<RelVarBind>)
    ensures
        final(map)@ == rel_vars_over(*op, old(map)@),
    decreases op,
{
    match op {
        Op::Expand { inner, from, rel_var: Some(rv), to, rel_types, direction, .. } => {
            map.insert(
                rv.clone(),
                RelVarBind {
                    from: from.clone(),
                    to: to.clone(),
                    rel_types: clone_texts(rel_types),
                    direction: *direction,
                },
            );
            collect_rel_vars_rec(inner, map);
        },
        Op::Expand { inner, .. } => {
            collect_rel_vars_rec(inner, map);
        },
        Op::Selection { inner, .. }
        | Op::OrderBy { inner, .. }
        | Op::Distinct { inner }
        | Op::GroupBy { inner, .. }
        | Op::Projection { inner, .. }
        | Op::Limit { inner, .. }
        | Op::Skip { inner, .. }
        | Op::Unwind { inner, .. } => collect_rel_vars_rec(inner, map),
        Op::CartesianProduct { left, right }
        | Op::Union { left, right }
        | Op::UnionAll { left, right } => {
            collect_rel_vars_rec(left, map);
            collect_rel_vars_rec(right, map);
        },
        Op::LeftOuterJoin { left, right, .. } => {
            collect_rel_vars_rec(left, map);
            collect_rel_vars_rec(right, map);
        },
        Op::Subquery { outer, inner } => {
            collect_rel_vars_rec(outer, map);
            collect_rel_vars_rec(inner, map);
        },
        Op::Create { inner, .. }
        | Op::SetItems { inner, .. }
        | Op::Delete { inner, .. }
        | Op::Remove { inner, .. }
        | Op::Merge { inner, .. }
        | Op::Call { inner, .. }
        | Op::Foreach { inner, .. } => collect_rel_vars_rec(inner, map),
        Op::Scan { .. } | Op::Unit | Op::Values { .. } => {},
    }
}

pub open spec fn rel_vars(op: Op) -> Map<Seq<char>, RelVarBindView> {
    rel_vars_over(op, Map::empty())
}

/// The relationship variables of a tree and how each is bound.
pub fn collect_rel_vars(op: &Op) -> (r: NameMap<RelVarBind>)
    ensures
        r@ == rel_vars(*op),
{
    let mut map: NameMap<RelVarBind> = NameMap::new();
    collect_rel_vars_rec(op, &mut map);
    map
}

// ── Trees without their write operators ──────────────────────────────────────

/// Whether a created node has a name of the query's own, not one made up for an
/// anonymous node.
pub open spec fn user_named(node: CreateNode) -> bool {
    node.variable matches Some(v) && !starts_with_spec(v@, "_lqa_"@)
}

pub fn is_user_named(node: &CreateNode) -> (r: bool)
    ensures
        r == user_named(*node),
{
    match &node.variable {
        Some(v) => !starts_with(v.as_str(), "_lqa_"),
        None => false,
    }
}

/// `o` scans for the created node by its name and labels.
pub open spec fn scans_for(o: Op, node: CreateNode) -> bool {
    o matches Op::Scan { variable, label, extra_labels }
        && node.variable == Some(variable)
        && match label {
            Some(l) => node.labels@.len() > 0 && node.labels@[0] == l
                && extra_labels@ == node.labels@.skip(1),
            None => node.labels@.len() == 0 && extra_labels@.len() == 0,
        }
}

fn scan_for(node: &CreateNode) -> (o: Op)
    requires
        node.variable is Some,
    ensures
        scans_for(o, *node),
{
    let variable = match &node.variable {
        Some(v) => v.clone(),
        None => String::new(),
    };
    if node.labels.len() == 0 {
        Op::Scan { variable, label: None, extra_labels: Vec::new() }
    } else {
        let mut extra_labels = clone_texts(&node.labels);
        let first = extra_labels.remove(0);
        assert(extra_labels@ =~= node.labels@.skip(1));
        Op::Scan { variable, label: Some(first), extra_labels }
    }
}

/// An IRI reference without its angle brackets.
pub open spec fn bare_iri(iri: Seq<char>) -> Seq<char> {
    trim_end_spec(trim_start_spec(iri, |c: char| c == '<'), |c: char| c == '>')
}

pub fn bare_iri_text(s: &str) -> (r: String)
    ensures
        r@ == bare_iri(s@),
{
    let v = chars_of(s);
    let ghost open = |c: char| c == '<';
    let ghost close = |c: char| c == '>';
    let mut a: usize = 0;
    assert(s@.skip(0) =~= s@);
    while a < v.len() && v[a] == '<'
        invariant
            v@ == s@,
            open == (|c: char| c == '<'),
            a <= v@.len(),
            trim_start_spec(s@.skip(a as int), open) == trim_start_spec(s@, open),
        decreases v@.len() - a,
    {
        assert(s@.skip(a as int).skip(1) =~= s@.skip(a + 1));
        a = a + 1;
    }
    let ghost mid = s@.skip(a as int);
    assert(trim_start_spec(s@, open) == mid);
    let mut b: usize = v.len();
    assert(s@.subrange(a as int, b as int) =~= mid);
    while a < b && v[b - 1] == '>'
        invariant
            v@ == s@,
            close == (|c: char| c == '>'),
            a <= b <= v@.len(),
            trim_end_spec(s@.subrange(a as int, b as int), close) == trim_end_spec(mid, close),
        decreases b,
    {
        assert(s@.subrange(a as int, b as int).drop_last() =~= s@.subrange(a as int, b - 1));
        b = b - 1;
    }
    slice_text(&v, a, b)
}

/// Whether the created node was given an IRI of its own.
pub open spec fn has_stable_iri(node: CreateNode, bnodes: Map<Seq<char>, Seq<char>>) -> bool {
    node.variable matches Some(v) && bnodes.contains_key(v@) && starts_with_char_spec(
        bnodes[v@],
        '<',
    )
}

/// `o` binds the name of a created node: to its IRI where it has one, else by
/// a scan.
pub open spec fn binds_created(
    o: Op,
    node: CreateNode,
    bnodes: Map<Seq<char>, Seq<char>>,
) -> bool {
    if has_stable_iri(node, bnodes) {
        o matches Op::Values { bindings } && bindings@.len() == 1 && node.variable == Some(
            bindings@[0].0,
        ) && (bindings@[0].1 matches Expr::Literal(Literal::Iri(iri)) && iri@ == bare_iri(
            bnodes[bindings@[0].0@],
        ))
    } else {
        scans_for(o, node)
    }
}

/// `r` is `op` without its write operators. A CREATE leaves for each of its
/// user-named nodes what binds its name, to its IRI where `bnodes` has one, crossed
/// with what it read from, in the order of the nodes; every other write operator
/// leaves what it read from.
pub open spec fn stripped_with(op: Op, bnodes: Map<Seq<char>, Seq<char>>, r: Op) -> bool
    decreases op, 0nat,
{
    match op {
        Op::Projection { inner, items, distinct } => r matches Op::Projection {
            inner: i,
            items: its,
            distinct: d,
        } && its == items && d == distinct && stripped_with(*inner, bnodes, *i),
        Op::Create { inner, nodes, .. } => stripped_create_with(*inner, nodes@, bnodes, r),
        Op::SetItems { inner, .. } => stripped_with(*inner, bnodes, r),
        Op::Delete { inner, .. } => stripped_with(*inner, bnodes, r),
        Op::Remove { inner, .. } => stripped_with(*inner, bnodes, r),
        Op::Merge { inner, .. } => stripped_with(*inner, bnodes, r),
        Op::Call { inner, .. } => stripped_with(*inner, bnodes, r),
        Op::Foreach { inner, .. } => stripped_with(*inner, bnodes, r),
        Op::GroupBy { inner, group_keys, agg_items } => r matches Op::GroupBy {
            inner: i,
            group_keys: g,
            agg_items: a,
        } && g == group_keys && a == agg_items && stripped_with(*inner, bnodes, *i),
        Op::Selection { inner, predicate } => r matches Op::Selection { inner: i, predicate: p }
            && p == predicate && stripped_with(*inner, bnodes, *i),
        Op::Unwind { inner, variable, list } => r matches Op::Unwind {
            inner: i,
            variable: v,
            list: l,
        } && v == variable && l == list && stripped_with(*inner, bnodes, *i),
        Op::OrderBy { inner, keys } => r matches Op::OrderBy { inner: i, keys: k } && k == keys
            && stripped_with(*inner, bnodes, *i),
        Op::Limit { inner, count } => r matches Op::Limit { inner: i, count: c } && c == count
            && stripped_with(*inner, bnodes, *i),
        Op::Skip { inner, count } => r matches Op::Skip { inner: i, count: c } && c == count
            && stripped_with(*inner, bnodes, *i),
        Op::Distinct { inner } => r matches Op::Distinct { inner: i } && stripped_with(*inner, bnodes, *i),
        Op::Expand { inner, from, rel_var, to, rel_types, direction, range, path_var } => {
            r matches Op::Expand {
                inner: i,
                from: f,
                rel_var: rv,
                to: t,
                rel_types: rt,
                direction: d,
                range: ra,
                path_var: pv,
            } && f == from && rv == rel_var && t == to && rt == rel_types && d == direction && ra
                == range && pv == path_var && stripped_with(*inner, bnodes, *i)
        },
        Op::CartesianProduct { left, right } => r matches Op::CartesianProduct {
            left: a,
            right: b,
        } && stripped_with(*left, bnodes, *a) && stripped_with(*right, bnodes, *b),
        Op::Union { left, right } => r matches Op::Union { left: a, right: b } && stripped_with(*left, bnodes, *a) && stripped_with(*right, bnodes, *b),
        Op::UnionAll { left, right } => r matches Op::UnionAll { left: a, right: b } && stripped_with(*left, bnodes, *a) && stripped_with(*right, bnodes, *b),
        Op::LeftOuterJoin { left, right, condition } => r matches Op::LeftOuterJoin {
            left: a,
            right: b,
            condition: c,
        } && c == condition && stripped_with(*left, bnodes, *a) && stripped_with(*right, bnodes, *b),
        Op::Subquery { outer, inner } => r matches Op::Subquery { outer: a, inner: b } && stripped_with(*outer, bnodes, *a) && stripped_with(*inner, bnodes, *b),
        Op::Unit | Op::Scan { .. } | Op::Values { .. } => r == op,
    }
}

/// `r` is `inner` without its write operators, crossed with what a CREATE of these
/// nodes leaves.
pub open spec fn stripped_create_with(
    inner: Op,
    nodes: Seq<CreateNode>,
    bnodes: Map<Seq<char>, Seq<char>>,
    r: Op,
) -> bool
    decreases inner, nodes.len() + 1,
{
    if nodes.len() == 0 {
        stripped_with(inner, bnodes, r)
    } else if user_named(nodes.last()) {
        r matches Op::CartesianProduct { left, right } && stripped_create_with(
            inner,
            nodes.drop_last(),
            bnodes,
            *left,
        ) && binds_created(*right, nodes.last(), bnodes)
    } else {
        stripped_create_with(inner, nodes.drop_last(), bnodes, r)
    }
}

fn bind_created(node: &CreateNode, bnode_map: &NameMap<String>) -> (o: Op)
    requires
        node.variable is Some,
    ensures
        binds_created(o, *node, bnode_map@),
{
    match &node.variable {
        Some(v) => match bnode_map.get(v.as_str()) {
            Some(iri) => {
                if starts_with_char(iri.as_str(), '<') {
                    let bare = bare_iri_text(iri.as_str());
                    let mut bindings: Vec<(String, Expr)> = Vec::new();
                    bindings.push((v.clone(), Expr::Literal(Literal::Iri(bare))));
                    Op::Values { bindings }
                } else {
                    scan_for(node)
                }
            },
            None => scan_for(node),
        },
        None => scan_for(node),
    }
}

/// The tree without its write operators, where the created nodes are bound to
/// the IRIs that the updates gave them.
pub fn strip_writes_with_bnodes(op: Op, bnode_map: &NameMap<String>) -> (r: Op)
    ensures
        stripped_with(op, bnode_map@, r),
    decreases op,
{
    match op {
        Op::Projection { inner, items, distinct } => Op::Projection {
            inner: Box::new(strip_writes_with_bnodes(*inner, bnode_map)),
            items,
            distinct,
        },
        Op::Create { inner, nodes, edges: _ } => {
            let ghost below = *inner;
            let mut acc = strip_writes_with_bnodes(*inner, bnode_map);
            assert(nodes@.take(0) =~= Seq::empty());
            for i in 0..nodes.len()
                invariant
                    stripped_create_with(below, nodes@.take(i as int), bnode_map@, acc),
            {
                assert(nodes@.take(i + 1).drop_last() =~= nodes@.take(i as int));
                if is_user_named(&nodes[i]) {
                    let bound = bind_created(&nodes[i], bnode_map);
                    acc = Op::CartesianProduct { left: Box::new(acc), right: Box::new(bound) };
                }
            }
            assert(nodes@.take(nodes@.len() as int) =~= nodes@);
            acc
        },
        Op::SetItems { inner, .. } => strip_writes_with_bnodes(*inner, bnode_map),
        Op::Delete { inner, .. } => strip_writes_with_bnodes(*inner, bnode_map),
        Op::Remove { inner, .. } => strip_writes_with_bnodes(*inner, bnode_map),
        Op::Merge { inner, .. } => strip_writes_with_bnodes(*inner, bnode_map),
        Op::Call { inner, .. } => strip_writes_with_bnodes(*inner, bnode_map),
        Op::Foreach { inner, .. } => strip_writes_with_bnodes(*inner, bnode_map),
        Op::GroupBy { inner, group_keys, agg_items } => Op::GroupBy {
            inner: Box::new(strip_writes_with_bnodes(*inner, bnode_map)),
            group_keys,
            agg_items,
        },
        Op::Selection { inner, predicate } => Op::Selection {
            inner: Box::new(strip_writes_with_bnodes(*inner, bnode_map)),
            predicate,
        },
        Op::Unwind { inner, variable, list } => Op::Unwind {
            inner: Box::new(strip_writes_with_bnodes(*inner, bnode_map)),
            variable,
            list,
        },
        Op::OrderBy { inner, keys } => Op::OrderBy { inner: Box::new(strip_writes_with_bnodes(*inner, bnode_map)), keys },
        Op::Limit { inner, count } => Op::Limit { inner: Box::new(strip_writes_with_bnodes(*inner, bnode_map)), count },
        Op::Skip { inner, count } => Op::Skip { inner: Box::new(strip_writes_with_bnodes(*inner, bnode_map)), count },
        Op::Distinct { inner } => Op::Distinct { inner: Box::new(strip_writes_with_bnodes(*inner, bnode_map)) },
        Op::Expand { inner, from, rel_var, to, rel_types, direction, range, path_var } => Op::Expand {
            inner: Box::new(strip_writes_with_bnodes(*inner, bnode_map)),
            from,
            rel_var,
            to,
            rel_types,
            direction,
            range,
            path_var,
        },
        Op::CartesianProduct { left, right } => Op::CartesianProduct {
            left: Box::new(strip_writes_with_bnodes(*left, bnode_map)),
            right: Box::new(strip_writes_with_bnodes(*right, bnode_map)),
        },
        Op::Union { left, right } => Op::Union {
            left: Box::new(strip_writes_with_bnodes(*left, bnode_map)),
            right: Box::new(strip_writes_with_bnodes(*right, bnode_map)),
        },
        Op::UnionAll { left, right } => Op::UnionAll {
            left: Box::new(strip_writes_with_bnodes(*left, bnode_map)),
            right: Box::new(strip_writes_with_bnodes(*right, bnode_map)),
        },
        Op::LeftOuterJoin { left, right, condition } => Op::LeftOuterJoin {
            left: Box::new(strip_writes_with_bnodes(*left, bnode_map)),
            right: Box::new(strip_writes_with_bnodes(*right, bnode_map)),
            condition,
        },
        Op::Subquery { outer, inner } => Op::Subquery {
            outer: Box::new(strip_writes_with_bnodes(*outer, bnode_map)),
            inner: Box::new(strip_writes_with_bnodes(*inner, bnode_map)),
        },
        Op::Unit => Op::Unit,
        Op::Scan { variable, label, extra_labels } => Op::Scan { variable, label, extra_labels },
        Op::Values { bindings } => Op::Values { bindings },
    }
}

/// `r` is `op` without its write operators, where no IRI of a created node is
/// known.
pub open spec fn stripped(op: Op, r: Op) -> bool {
    stripped_with(op, Map::empty(), r)
}

/// The tree without its write operators, for the SELECT of a query that writes
/// and returns rows.
pub fn strip_writes(op: Op) -> (r: Op)
    ensures
        stripped(op, r),
{
    strip_writes_with_bnodes(op, &NameMap::new())
}

} // verus!
