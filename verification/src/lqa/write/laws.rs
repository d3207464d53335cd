//! What holds of compiled writes as a whole.
use vstd::prelude::*;

#[allow(unused_imports)]
use crate::lqa::op::{CreateNode, Op};
#[allow(unused_imports)]
use crate::lqa::write::create::{
    bound_in, blank, create_clause, create_node, create_nodes, stable_iri, Names,
};
#[allow(unused_imports)]
use crate::lqa::write::literals::var;
#[allow(unused_imports)]
use crate::lqa::write::tree::{
    below_writes, has_delete, has_projection, has_write, is_write, returns_rows, some_op, stripped,
    stripped_create_with, stripped_with, user_named,
};
#[allow(unused_imports)]
use crate::lqa::write::where_parts::where_parts;
#[allow(unused_imports)]
use crate::lqa::write::{compiled, compiled_below, write_of, Compiled};
#[allow(unused_imports)]
use crate::text::{dec, digits};

verus! {

// ── Trees ────────────────────────────────────────────────────────────────────

/// A tree without its write operators has no write operator left.
pub proof fn law_stripped_reads_only(op: Op, bnodes: Map<Seq<char>, Seq<char>>, r: Op)
    requires
        stripped_with(op, bnodes, r),
    ensures
        !has_write(r),
    decreases op, 0nat,
{
    match op {
        Op::Create { inner, nodes, .. } => lemma_stripped_create_reads_only(*inner, nodes@, bnodes, r),
        Op::SetItems { inner, .. } => law_stripped_reads_only(*inner, bnodes, r),
        Op::Delete { inner, .. } => law_stripped_reads_only(*inner, bnodes, r),
        Op::Remove { inner, .. } => law_stripped_reads_only(*inner, bnodes, r),
        Op::Merge { inner, .. } => law_stripped_reads_only(*inner, bnodes, r),
        Op::Call { inner, .. } => law_stripped_reads_only(*inner, bnodes, r),
        Op::Foreach { inner, .. } => law_stripped_reads_only(*inner, bnodes, r),
        Op::Projection { inner, .. } => law_stripped_reads_only(*inner, bnodes, *r->Projection_inner),
        Op::GroupBy { inner, .. } => law_stripped_reads_only(*inner, bnodes, *r->GroupBy_inner),
        Op::Selection { inner, .. } => law_stripped_reads_only(*inner, bnodes, *r->Selection_inner),
        Op::Unwind { inner, .. } => law_stripped_reads_only(*inner, bnodes, *r->Unwind_inner),
        Op::OrderBy { inner, .. } => law_stripped_reads_only(*inner, bnodes, *r->OrderBy_inner),
        Op::Limit { inner, .. } => law_stripped_reads_only(*inner, bnodes, *r->Limit_inner),
        Op::Skip { inner, .. } => law_stripped_reads_only(*inner, bnodes, *r->Skip_inner),
        Op::Distinct { inner } => law_stripped_reads_only(*inner, bnodes, *r->Distinct_inner),
        Op::Expand { inner, .. } => law_stripped_reads_only(*inner, bnodes, *r->Expand_inner),
        Op::CartesianProduct { left, right } => {
            law_stripped_reads_only(*left, bnodes, *r->CartesianProduct_left);
            law_stripped_reads_only(*right, bnodes, *r->CartesianProduct_right);
        },
        Op::Union { left, right } => {
            law_stripped_reads_only(*left, bnodes, *r->Union_left);
            law_stripped_reads_only(*right, bnodes, *r->Union_right);
        },
        Op::UnionAll { left, right } => {
            law_stripped_reads_only(*left, bnodes, *r->UnionAll_left);
            law_stripped_reads_only(*right, bnodes, *r->UnionAll_right);
        },
        Op::LeftOuterJoin { left, right, .. } => {
            law_stripped_reads_only(*left, bnodes, *r->LeftOuterJoin_left);
            law_stripped_reads_only(*right, bnodes, *r->LeftOuterJoin_right);
        },
        Op::Subquery { outer, inner } => {
            law_stripped_reads_only(*outer, bnodes, *r->Subquery_outer);
            law_stripped_reads_only(*inner, bnodes, *r->Subquery_inner);
        },
        Op::Unit | Op::Scan { .. } | Op::Values { .. } => {},
    }
}

proof fn lemma_stripped_create_reads_only(
    inner: Op,
    nodes: Seq<CreateNode>,
    bnodes: Map<Seq<char>, Seq<char>>,
    r: Op,
)
    requires
        stripped_create_with(inner, nodes, bnodes, r),
    ensures
        !has_write(r),
    decreases inner, nodes.len() + 1,
{
    if nodes.len() == 0 {
        law_stripped_reads_only(inner, bnodes, r);
    } else if user_named(nodes.last()) {
        lemma_stripped_create_reads_only(
            inner,
            nodes.drop_last(),
            bnodes,
            *r->CartesianProduct_left,
        );
        assert(!has_write(*r->CartesianProduct_right));
    } else {
        lemma_stripped_create_reads_only(inner, nodes.drop_last(), bnodes, r);
    }
}

/// A tree that only reads stays as it is.
pub proof fn law_reads_are_kept(op: Op, bnodes: Map<Seq<char>, Seq<char>>, r: Op)
    requires
        stripped_with(op, bnodes, r),
        !has_write(op),
    ensures
        r == op,
    decreases op,
{
    match op {
        Op::Projection { inner, .. } => law_reads_are_kept(*inner, bnodes, *r->Projection_inner),
        Op::GroupBy { inner, .. } => law_reads_are_kept(*inner, bnodes, *r->GroupBy_inner),
        Op::Selection { inner, .. } => law_reads_are_kept(*inner, bnodes, *r->Selection_inner),
        Op::Unwind { inner, .. } => law_reads_are_kept(*inner, bnodes, *r->Unwind_inner),
        Op::OrderBy { inner, .. } => law_reads_are_kept(*inner, bnodes, *r->OrderBy_inner),
        Op::Limit { inner, .. } => law_reads_are_kept(*inner, bnodes, *r->Limit_inner),
        Op::Skip { inner, .. } => law_reads_are_kept(*inner, bnodes, *r->Skip_inner),
        Op::Distinct { inner } => law_reads_are_kept(*inner, bnodes, *r->Distinct_inner),
        Op::Expand { inner, .. } => law_reads_are_kept(*inner, bnodes, *r->Expand_inner),
        Op::CartesianProduct { left, right } => {
            law_reads_are_kept(*left, bnodes, *r->CartesianProduct_left);
            law_reads_are_kept(*right, bnodes, *r->CartesianProduct_right);
        },
        Op::Union { left, right } => {
            law_reads_are_kept(*left, bnodes, *r->Union_left);
            law_reads_are_kept(*right, bnodes, *r->Union_right);
        },
        Op::UnionAll { left, right } => {
            law_reads_are_kept(*left, bnodes, *r->UnionAll_left);
            law_reads_are_kept(*right, bnodes, *r->UnionAll_right);
        },
        Op::LeftOuterJoin { left, right, .. } => {
            law_reads_are_kept(*left, bnodes, *r->LeftOuterJoin_left);
            law_reads_are_kept(*right, bnodes, *r->LeftOuterJoin_right);
        },
        Op::Subquery { outer, inner } => {
            law_reads_are_kept(*outer, bnodes, *r->Subquery_outer);
            law_reads_are_kept(*inner, bnodes, *r->Subquery_inner);
        },
        _ => {},
    }
}

/// Taking the write operators away twice is taking them away once.
pub proof fn law_strip_twice(
    op: Op,
    bnodes: Map<Seq<char>, Seq<char>>,
    once: Op,
    again: Map<Seq<char>, Seq<char>>,
    twice: Op,
)
    requires
        stripped_with(op, bnodes, once),
        stripped_with(once, again, twice),
    ensures
        twice == once,
{
    law_stripped_reads_only(op, bnodes, once);
    law_reads_are_kept(once, again, twice);
}

/// Where no IRI of a created node is known, the tree without its write operators is
/// the one that is made without any IRI.
pub proof fn law_strip_without_iris(op: Op, bnodes: Map<Seq<char>, Seq<char>>, r: Op)
    requires
        bnodes.dom() =~= Set::empty(),
    ensures
        stripped_with(op, bnodes, r) == stripped(op, r),
{
    assert(bnodes =~= Map::empty());
}

/// Whether a query returns rows does not depend on what it writes.
pub proof fn law_strip_keeps_return(op: Op, bnodes: Map<Seq<char>, Seq<char>>, r: Op)
    requires
        stripped_with(op, bnodes, r),
        returns_rows(op),
    ensures
        returns_rows(r),
    decreases op,
{
    match op {
        Op::OrderBy { inner, .. } => law_strip_keeps_return(*inner, bnodes, *r->OrderBy_inner),
        Op::Limit { inner, .. } => law_strip_keeps_return(*inner, bnodes, *r->Limit_inner),
        Op::Skip { inner, .. } => law_strip_keeps_return(*inner, bnodes, *r->Skip_inner),
        Op::Distinct { inner } => law_strip_keeps_return(*inner, bnodes, *r->Distinct_inner),
        _ => {},
    }
}

/// The match context is never a write operator itself.
pub proof fn law_context_reads(op: Op)
    ensures
        !is_write(below_writes(op)),
    decreases op,
{
    match op {
        Op::Create { inner, .. } => law_context_reads(*inner),
        Op::SetItems { inner, .. } => law_context_reads(*inner),
        Op::Delete { inner, .. } => law_context_reads(*inner),
        Op::Remove { inner, .. } => law_context_reads(*inner),
        Op::Merge { inner, .. } => law_context_reads(*inner),
        Op::Call { inner, .. } => law_context_reads(*inner),
        Op::Foreach { inner, .. } => law_context_reads(*inner),
        _ => {},
    }
}

proof fn lemma_some_op_weaken(op: Op, p: spec_fn(Op) -> bool, q: spec_fn(Op) -> bool)
    requires
        some_op(op, p),
        forall|o: Op| #[trigger] p(o) ==> q(o),
    ensures
        some_op(op, q),
    decreases op,
{
    if !p(op) {
        match op {
            Op::Selection { inner, .. } => lemma_some_op_weaken(*inner, p, q),
            Op::Expand { inner, .. } => lemma_some_op_weaken(*inner, p, q),
            Op::OrderBy { inner, .. } => lemma_some_op_weaken(*inner, p, q),
            Op::Distinct { inner } => lemma_some_op_weaken(*inner, p, q),
            Op::GroupBy { inner, .. } => lemma_some_op_weaken(*inner, p, q),
            Op::Projection { inner, .. } => lemma_some_op_weaken(*inner, p, q),
            Op::Limit { inner, .. } => lemma_some_op_weaken(*inner, p, q),
            Op::Skip { inner, .. } => lemma_some_op_weaken(*inner, p, q),
            Op::Unwind { inner, .. } => lemma_some_op_weaken(*inner, p, q),
            Op::Create { inner, .. } => lemma_some_op_weaken(*inner, p, q),
            Op::SetItems { inner, .. } => lemma_some_op_weaken(*inner, p, q),
            Op::Delete { inner, .. } => lemma_some_op_weaken(*inner, p, q),
            Op::Remove { inner, .. } => lemma_some_op_weaken(*inner, p, q),
            Op::Merge { inner, .. } => lemma_some_op_weaken(*inner, p, q),
            Op::Call { inner, .. } => lemma_some_op_weaken(*inner, p, q),
            Op::Foreach { inner, .. } => lemma_some_op_weaken(*inner, p, q),
            Op::CartesianProduct { left, right }
            | Op::Union { left, right }
            | Op::UnionAll { left, right } => {
                if some_op(*left, p) {
                    lemma_some_op_weaken(*left, p, q);
                } else {
                    lemma_some_op_weaken(*right, p, q);
                }
            },
            Op::LeftOuterJoin { left, right, .. } => {
                if some_op(*left, p) {
                    lemma_some_op_weaken(*left, p, q);
                } else {
                    lemma_some_op_weaken(*right, p, q);
                }
            },
            Op::Subquery { outer, inner } => {
                if some_op(*outer, p) {
                    lemma_some_op_weaken(*outer, p, q);
                } else {
                    lemma_some_op_weaken(*inner, p, q);
                }
            },
            Op::Scan { .. } | Op::Unit | Op::Values { .. } => {},
        }
    }
}

/// A tree with a DELETE writes.
pub proof fn law_delete_writes(op: Op)
    requires
        has_delete(op),
    ensures
        has_write(op),
{
    lemma_some_op_weaken(op, |o: Op| o is Delete, |o: Op| is_write(o));
}

/// A query that returns rows has a projection.
pub proof fn law_return_projects(op: Op)
    requires
        returns_rows(op),
    ensures
        has_projection(op),
    decreases op,
{
    match op {
        Op::OrderBy { inner, .. } => law_return_projects(*inner),
        Op::Limit { inner, .. } => law_return_projects(*inner),
        Op::Skip { inner, .. } => law_return_projects(*inner),
        Op::Distinct { inner } => law_return_projects(*inner),
        _ => {},
    }
}

// ── Updates ──────────────────────────────────────────────────────────────────

/// A query that deletes and returns rows compiles, to no statement.
pub proof fn law_delete_and_return_keeps_graph(op: Op, base: Seq<char>)
    requires
        returns_rows(op),
        has_delete(op),
    ensures
        write_of(op, base) matches Ok(c) && c.lines.len() == 0,
{
}

/// A query that only reads is refused.
pub proof fn law_reads_are_refused(op: Op, base: Seq<char>)
    requires
        !has_write(op),
    ensures
        write_of(op, base) is Err,
{
    if has_delete(op) {
        law_delete_writes(op);
    }
}

/// CALL and FOREACH at the top are refused.
pub proof fn law_call_is_refused(op: Op, base: Seq<char>)
    requires
        op is Call || op is Foreach,
    ensures
        write_of(op, base) == Err::<Compiled, Seq<char>>("write_call_foreach"@),
{
}

/// Whether the operator has branches.
pub open spec fn is_branching(op: Op) -> bool {
    op is CartesianProduct || op is Union || op is UnionAll || op is LeftOuterJoin || op is Subquery
}

/// Whether the operator has branches, and a write operator in one of them.
pub open spec fn writes_in_branch(op: Op) -> bool {
    is_branching(op) && has_write(op)
}

proof fn lemma_no_writes(op: Op)
    requires
        !has_write(op),
    ensures
        !some_op(op, |o: Op| writes_in_branch(o)),
    decreases op,
{
    match op {
        Op::Selection { inner, .. } => lemma_no_writes(*inner),
        Op::Expand { inner, .. } => lemma_no_writes(*inner),
        Op::OrderBy { inner, .. } => lemma_no_writes(*inner),
        Op::Distinct { inner } => lemma_no_writes(*inner),
        Op::GroupBy { inner, .. } => lemma_no_writes(*inner),
        Op::Projection { inner, .. } => lemma_no_writes(*inner),
        Op::Limit { inner, .. } => lemma_no_writes(*inner),
        Op::Skip { inner, .. } => lemma_no_writes(*inner),
        Op::Unwind { inner, .. } => lemma_no_writes(*inner),
        Op::CartesianProduct { left, right }
        | Op::Union { left, right }
        | Op::UnionAll { left, right } => {
            lemma_no_writes(*left);
            lemma_no_writes(*right);
        },
        Op::LeftOuterJoin { left, right, .. } => {
            lemma_no_writes(*left);
            lemma_no_writes(*right);
        },
        Op::Subquery { outer, inner } => {
            lemma_no_writes(*outer);
            lemma_no_writes(*inner);
        },
        _ => {},
    }
}

proof fn lemma_compiled_branches(op: Op, base: Seq<char>, names: Names)
    requires
        compiled(op, base, names) is Ok,
    ensures
        !some_op(op, |o: Op| writes_in_branch(o)),
    decreases op, 0nat,
{
    if !has_write(op) {
        lemma_no_writes(op);
    } else {
        match op {
            Op::Create { inner, nodes, edges } => {
                let parts = where_parts(below_writes(*inner), base)->Ok_0;
                let made = create_clause(nodes@, edges@, parts, base, names)->Ok_0;
                lemma_below_branches(*inner, base, made.names);
            },
            Op::SetItems { inner, .. } => lemma_below_branches(*inner, base, names),
            Op::Delete { inner, .. } => lemma_below_branches(*inner, base, names),
            Op::Remove { inner, .. } => lemma_below_branches(*inner, base, names),
            Op::Merge { inner, .. } => lemma_below_branches(*inner, base, names),
            Op::GroupBy { inner, .. } => lemma_below_branches(*inner, base, names),
            Op::OrderBy { inner, .. } => lemma_below_branches(*inner, base, names),
            Op::Limit { inner, .. } => lemma_below_branches(*inner, base, names),
            Op::Skip { inner, .. } => lemma_below_branches(*inner, base, names),
            Op::Distinct { inner } => lemma_below_branches(*inner, base, names),
            Op::Selection { inner, .. } => lemma_below_branches(*inner, base, names),
            Op::Unwind { inner, .. } => lemma_below_branches(*inner, base, names),
            Op::Expand { inner, .. } => lemma_below_branches(*inner, base, names),
            Op::Projection { inner, .. } => lemma_below_branches(*inner, base, names),
            _ => {},
        }
    }
}

proof fn lemma_below_branches(inner: Op, base: Seq<char>, names: Names)
    requires
        compiled_below(inner, base, names) is Ok,
    ensures
        !some_op(inner, |o: Op| writes_in_branch(o)),
    decreases inner, 1nat,
{
    if has_write(inner) {
        lemma_compiled_branches(inner, base, names);
    } else {
        lemma_no_writes(inner);
    }
}

/// No write is dropped: a query with a write operator in a branch of a product, a
/// union, a join or a subquery is refused, unless it deletes and returns rows, and so
/// compiles to no statement.
pub proof fn law_writes_in_branches_are_refused(op: Op, base: Seq<char>)
    requires
        some_op(op, |o: Op| writes_in_branch(o)),
        !(returns_rows(op) && has_delete(op)),
    ensures
        write_of(op, base) is Err,
{
    if write_of(op, base) is Ok {
        lemma_compiled_branches(op, base, Names { counter: 0, bnodes: Map::empty() });
    }
}

// ── Names of created nodes ───────────────────────────────────────────────────

proof fn lemma_digits_differ(a: nat, b: nat)
    requires
        digits(a) == digits(b),
    ensures
        a == b,
    decreases a,
{
    let x = digits(a);
    let y = digits(b);
    if a < 10 {
        if b >= 10 {
            lemma_digits_nonempty(b / 10);
            assert(y.len() > 1);
        }
        assert(x.last() == y.last());
    } else {
        if b < 10 {
            lemma_digits_nonempty(a / 10);
            assert(x.len() > 1);
        } else {
            assert(x.drop_last() =~= digits(a / 10));
            assert(y.drop_last() =~= digits(b / 10));
            lemma_digits_differ(a / 10, b / 10);
            assert(x.last() == y.last());
        }
    }
}

proof fn lemma_digits_nonempty(a: nat)
    ensures
        digits(a).len() > 0,
{
}

/// Whether a text is the name made for number `n`.
pub open spec fn made_for(base: Seq<char>, text: Seq<char>, n: nat) -> bool {
    text == stable_iri(base, n) || text == blank(n)
}

/// Every variable stands for itself or for a name made for a number already
/// taken, and no two for the same number.
pub open spec fn names_distinct(base: Seq<char>, names: Names) -> bool {
    &&& forall|k: Seq<char>| #[trigger]
        names.bnodes.contains_key(k) ==> names.bnodes[k] == var(k) || exists|n: nat|
            n < names.counter && made_for(base, names.bnodes[k], n)
    &&& forall|j: Seq<char>, k: Seq<char>, n: nat|
        #![trigger made_for(base, names.bnodes[j], n), made_for(base, names.bnodes[k], n)]
        names.bnodes.contains_key(j) && names.bnodes.contains_key(k) && made_for(
            base,
            names.bnodes[j],
            n,
        ) && made_for(base, names.bnodes[k], n) ==> j == k
}

proof fn lemma_made_for_one(base: Seq<char>, text: Seq<char>, m: nat, n: nat)
    requires
        made_for(base, text, m),
        made_for(base, text, n),
    ensures
        m == n,
{
    reveal_strlit("<");
    reveal_strlit("_:__n");
    reveal_strlit("__bnode/");
    reveal_strlit(">");
    let head = "<"@ + base + "__bnode/"@;
    assert(stable_iri(base, m)[0] == '<');
    assert(stable_iri(base, n)[0] == '<');
    assert(blank(m)[0] == '_');
    assert(blank(n)[0] == '_');
    if text == stable_iri(base, m) {
        let x = stable_iri(base, m);
        let y = stable_iri(base, n);
        assert(x == y);
        assert(x.subrange(head.len() as int, x.len() - 1) =~= dec(m as int));
        assert(y.subrange(head.len() as int, y.len() - 1) =~= dec(n as int));
    } else {
        let x = blank(m);
        let y = blank(n);
        assert(x == y);
        assert(x.subrange(5, x.len() as int) =~= dec(m as int));
        assert(y.subrange(5, y.len() as int) =~= dec(n as int));
    }
    lemma_digits_differ(m, n);
}

proof fn lemma_var_not_made(base: Seq<char>, k: Seq<char>, n: nat)
    ensures
        !made_for(base, var(k), n),
{
    reveal_strlit("<");
    reveal_strlit("_:__n");
    reveal_strlit("?");
    assert(var(k)[0] == '?');
    assert(stable_iri(base, n)[0] == '<');
    assert(blank(n)[0] == '_');
}

proof fn lemma_insert_keeps_distinct(
    base: Seq<char>,
    names: Names,
    v: Seq<char>,
    text: Seq<char>,
    counter: nat,
)
    requires
        names_distinct(base, names),
        !names.bnodes.contains_key(v),
        (text == var(v) && counter == names.counter) || (made_for(base, text, names.counter)
            && counter == names.counter + 1),
    ensures
        names_distinct(base, Names { counter, bnodes: names.bnodes.insert(v, text) }),
{
    let after = Names { counter, bnodes: names.bnodes.insert(v, text) };
    assert forall|k: Seq<char>| #[trigger] after.bnodes.contains_key(k) implies after.bnodes[k]
        == var(k) || exists|n: nat| n < after.counter && made_for(base, after.bnodes[k], n) by {
        if k != v {
            assert(names.bnodes.contains_key(k));
            if names.bnodes[k] != var(k) {
                let n = choose|n: nat| n < names.counter && made_for(base, names.bnodes[k], n);
                assert(n < after.counter && made_for(base, after.bnodes[k], n));
            }
        } else if text != var(v) {
            assert(made_for(base, after.bnodes[k], names.counter));
        }
    }
    assert forall|j: Seq<char>, k: Seq<char>, n: nat|
        #![trigger made_for(base, after.bnodes[j], n), made_for(base, after.bnodes[k], n)]
        after.bnodes.contains_key(j) && after.bnodes.contains_key(k) && made_for(
            base,
            after.bnodes[j],
            n,
        ) && made_for(base, after.bnodes[k], n) implies j == k by {
        if j != k && (j == v || k == v) {
            let other = if j == v {
                k
            } else {
                j
            };
            assert(names.bnodes.contains_key(other));
            assert(made_for(base, names.bnodes[other], n));
            if text == var(v) {
                lemma_var_not_made(base, v, n);
            } else {
                lemma_made_for_one(base, text, names.counter, n);
                if names.bnodes[other] == var(other) {
                    lemma_var_not_made(base, other, n);
                } else {
                    let m = choose|m: nat|
                        m < names.counter && made_for(base, names.bnodes[other], m);
                    lemma_made_for_one(base, names.bnodes[other], m, n);
                }
            }
        } else if j != k {
            assert(made_for(base, names.bnodes[j], n));
            assert(made_for(base, names.bnodes[k], n));
        }
    }
}

proof fn lemma_create_nodes_distinct(
    nodes: Seq<CreateNode>,
    parts: Seq<Seq<char>>,
    base: Seq<char>,
    names: Names,
)
    requires
        names_distinct(base, names),
    ensures
        names_distinct(base, create_nodes(nodes, parts, base, names).names),
    decreases nodes.len(),
{
    if nodes.len() > 0 {
        lemma_create_nodes_distinct(nodes.drop_last(), parts, base, names);
        let before = create_nodes(nodes.drop_last(), parts, base, names).names;
        let node = nodes.last();
        match node.variable {
            Some(v) => {
                if !before.bnodes.contains_key(v@) {
                    if bound_in(parts, v@) {
                        lemma_insert_keeps_distinct(base, before, v@, var(v@), before.counter);
                    } else {
                        let after = create_node(node, parts, base, before).names;
                        lemma_insert_keeps_distinct(
                            base,
                            before,
                            v@,
                            after.bnodes[v@],
                            before.counter + 1,
                        );
                    }
                }
            },
            None => {
                lemma_more_numbers(base, before, before.counter + 1);
            },
        }
    }
}

proof fn lemma_more_numbers(base: Seq<char>, names: Names, counter: nat)
    requires
        names_distinct(base, names),
        counter >= names.counter,
    ensures
        names_distinct(base, Names { counter, bnodes: names.bnodes }),
{
    let after = Names { counter, bnodes: names.bnodes };
    assert forall|k: Seq<char>| #[trigger] after.bnodes.contains_key(k) implies after.bnodes[k]
        == var(k) || exists|n: nat| n < after.counter && made_for(base, after.bnodes[k], n) by {
        if names.bnodes[k] != var(k) {
            let n = choose|n: nat| n < names.counter && made_for(base, names.bnodes[k], n);
            assert(n < after.counter && made_for(base, after.bnodes[k], n));
        }
    }
}

proof fn lemma_compiled_distinct(op: Op, base: Seq<char>, names: Names)
    requires
        names_distinct(base, names),
    ensures
        compiled(op, base, names) matches Ok(c) ==> names_distinct(base, c.names),
    decreases op,
{
    match op {
        Op::Create { inner, nodes, edges } => {
            if where_parts(below_writes(*inner), base) is Ok {
                let parts = where_parts(below_writes(*inner), base)->Ok_0;
                if create_clause(nodes@, edges@, parts, base, names) is Ok {
                    lemma_create_nodes_distinct(nodes@, parts, base, names);
                    let made = create_clause(nodes@, edges@, parts, base, names)->Ok_0;
                    lemma_compiled_distinct(*inner, base, made.names);
                }
            }
        },
        Op::Merge { inner, .. } => {
            lemma_compiled_distinct(*inner, base, names);
            if compiled(op, base, names) is Ok {
                let below = compiled_below(*inner, base, names)->Ok_0.names;
                lemma_more_numbers(base, below, compiled(op, base, names)->Ok_0.names.counter);
            }
        },
        Op::SetItems { inner, .. } => lemma_compiled_distinct(*inner, base, names),
        Op::Delete { inner, .. } => lemma_compiled_distinct(*inner, base, names),
        Op::Remove { inner, .. } => lemma_compiled_distinct(*inner, base, names),
        Op::GroupBy { inner, .. } => lemma_compiled_distinct(*inner, base, names),
        Op::OrderBy { inner, .. } => lemma_compiled_distinct(*inner, base, names),
        Op::Limit { inner, .. } => lemma_compiled_distinct(*inner, base, names),
        Op::Skip { inner, .. } => lemma_compiled_distinct(*inner, base, names),
        Op::Distinct { inner } => lemma_compiled_distinct(*inner, base, names),
        Op::Selection { inner, .. } => lemma_compiled_distinct(*inner, base, names),
        Op::Unwind { inner, .. } => lemma_compiled_distinct(*inner, base, names),
        Op::Expand { inner, .. } => lemma_compiled_distinct(*inner, base, names),
        Op::Projection { inner, .. } => lemma_compiled_distinct(*inner, base, names),
        _ => {},
    }
}

/// In the updates of a query, two variables never stand for the same created
/// node: what they stand for differs.
pub proof fn law_created_nodes_differ(op: Op, base: Seq<char>, j: Seq<char>, k: Seq<char>)
    requires
        write_of(op, base) is Ok,
        write_of(op, base)->Ok_0.names.bnodes.contains_key(j),
        write_of(op, base)->Ok_0.names.bnodes.contains_key(k),
        j != k,
    ensures
        write_of(op, base)->Ok_0.names.bnodes[j] != write_of(op, base)->Ok_0.names.bnodes[k],
{
    let start = Names { counter: 0, bnodes: Map::empty() };
    lemma_compiled_distinct(op, base, start);
    let names = write_of(op, base)->Ok_0.names;
    assert(names_distinct(base, names));
    let a = names.bnodes[j];
    let b = names.bnodes[k];
    if a == b {
        reveal_strlit("?");
        if a == var(j) {
            if b == var(k) {
                assert(var(j).skip(1) =~= j);
                assert(var(k).skip(1) =~= k);
            } else {
                let n = choose|n: nat| n < names.counter && made_for(base, b, n);
                lemma_var_not_made(base, j, n);
            }
        } else {
            let n = choose|n: nat| n < names.counter && made_for(base, a, n);
            assert(made_for(base, names.bnodes[k], n));
        }
    }
}

} // verus!
