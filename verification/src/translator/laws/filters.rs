//! The laws of conditions: which rows pass them.
use vstd::prelude::*;

#[allow(unused_imports)]
use crate::sparql::model as g;
#[allow(unused_imports)]
use crate::translator::expr::forms::{all_of, any_of};
#[allow(unused_imports)]
use crate::translator::expr::parts::{and, equal, not, or, predicate_expr, term_expr};
#[allow(unused_imports)]
use crate::translator::isomorphism::{
    all_filters, apart_from, are_apart, differ, filters_of, hops_differ, with_some, Triple,
};

verus! {

/// A row of bindings: what its terms are, and which of the conditions that are
/// not made of others hold of it.
pub ghost struct Row {
    pub term: spec_fn(g::Expr) -> int,
    pub holds: spec_fn(g::Expr) -> bool,
}

/// Whether a condition holds of a row.
pub open spec fn holds(r: Row, e: g::Expr) -> bool
    decreases e,
{
    match e {
        g::Expr::Or(a, b) => holds(r, *a) || holds(r, *b),
        g::Expr::And(a, b) => holds(r, *a) && holds(r, *b),
        g::Expr::Not(a) => !holds(r, *a),
        g::Expr::Equal(a, b) => (r.term)(*a) == (r.term)(*b),
        _ => (r.holds)(e),
    }
}

pub open spec fn some_holds(r: Row, e: Option<g::Expr>) -> bool {
    match e {
        Some(e) => holds(r, e),
        None => true,
    }
}

/// Whether different names are different nodes.
pub open spec fn tells_nodes_apart(r: Row) -> bool {
    forall|x: Seq<char>, y: Seq<char>|
        x != y ==> #[trigger] (r.term)(g::Expr::NamedNode(x)) != #[trigger] (r.term)(
            g::Expr::NamedNode(y),
        )
}

/// Whether two triples are the same in a row.
pub open spec fn coincide(r: Row, a: Triple, b: Triple) -> bool {
    &&& (r.term)(term_expr(a.subject)) == (r.term)(term_expr(b.subject))
    &&& (r.term)(predicate_expr(a.predicate)) == (r.term)(predicate_expr(b.predicate))
    &&& (r.term)(term_expr(a.object)) == (r.term)(term_expr(b.object))
}

/// Whether no triple of a relationship is one of another, in a row.
pub open spec fn are_disjoint(r: Row, a: Seq<Triple>, b: Seq<Triple>) -> bool {
    forall|i: int, j: int|
        0 <= i < a.len() && 0 <= j < b.len() ==> !coincide(r, #[trigger] a[i], #[trigger] b[j])
}

proof fn lemma_differ(r: Row, a: Triple, b: Triple)
    ensures
        holds(r, differ(a, b)) == !coincide(r, a, b),
{
    let s = equal(term_expr(a.subject), term_expr(b.subject));
    let p = equal(predicate_expr(a.predicate), predicate_expr(b.predicate));
    let o = equal(term_expr(a.object), term_expr(b.object));
    assert(holds(r, not(s)) == !holds(r, s));
    assert(holds(r, not(p)) == !holds(r, p));
    assert(holds(r, not(o)) == !holds(r, o));
    assert(holds(r, or(not(p), not(o))) == (holds(r, not(p)) || holds(r, not(o))));
}

proof fn lemma_apart_from(r: Row, before: Option<g::Expr>, a: Triple, hop: Seq<Triple>, k: int)
    requires
        tells_nodes_apart(r),
        0 <= k <= hop.len(),
    ensures
        some_holds(r, apart_from(before, a, hop, k)) == (some_holds(r, before) && forall|j: int|
            0 <= j < k ==> !coincide(r, a, #[trigger] hop[j])),
    decreases k,
{
    if k > 0 {
        lemma_apart_from(r, before, a, hop, k - 1);
        let b = hop[k - 1];
        lemma_differ(r, a, b);
        if are_apart(a, b) {
            assert(!coincide(r, a, b));
        }
        if let Some(x) = apart_from(before, a, hop, k - 1) {
            assert(holds(r, and(x, differ(a, b))) == (holds(r, x) && holds(r, differ(a, b))));
        }
    }
}

proof fn lemma_hops_differ(r: Row, a: Seq<Triple>, k: int, b: Seq<Triple>)
    requires
        tells_nodes_apart(r),
        0 <= k <= a.len(),
    ensures
        some_holds(r, hops_differ(a, k, b)) == are_disjoint(r, a.take(k), b),
    decreases k,
{
    if k > 0 {
        lemma_hops_differ(r, a, k - 1, b);
        lemma_apart_from(r, hops_differ(a, k - 1, b), a[k - 1], b, b.len() as int);
        assert forall|i: int, j: int|
            0 <= i < k && 0 <= j < b.len() && are_disjoint(r, a.take(k - 1), b) && (forall|j: int|
                0 <= j < b.len() ==> !coincide(r, a[k - 1], #[trigger] b[j]))
            implies !coincide(r, #[trigger] a.take(k)[i], #[trigger] b[j]) by {
            if i < k - 1 {
                assert(a.take(k - 1)[i] == a.take(k)[i]);
            }
        }
        if are_disjoint(r, a.take(k), b) {
            assert forall|i: int, j: int|
                0 <= i < k - 1 && 0 <= j < b.len() implies !coincide(
                r,
                #[trigger] a.take(k - 1)[i],
                #[trigger] b[j],
            ) by {
                assert(a.take(k)[i] == a.take(k - 1)[i]);
            }
            assert forall|j: int| 0 <= j < b.len() implies !coincide(
                r,
                a[k - 1],
                #[trigger] b[j],
            ) by {
                assert(a.take(k)[k - 1] == a[k - 1]);
            }
        }
    }
}

/// Whether all conditions hold of a row.
pub open spec fn all_hold(r: Row, v: Seq<g::Expr>) -> bool {
    forall|i: int| 0 <= i < v.len() ==> holds(r, #[trigger] v[i])
}

proof fn lemma_with_some(r: Row, v: Seq<g::Expr>, e: Option<g::Expr>)
    ensures
        all_hold(r, with_some(v, e)) == (all_hold(r, v) && some_holds(r, e)),
{
    if let Some(x) = e {
        let w = v.push(x);
        assert(w[v.len() as int] == x);
        if all_hold(r, w) {
            assert forall|i: int| 0 <= i < v.len() implies holds(r, #[trigger] v[i]) by {
                assert(w[i] == v[i]);
            }
        }
    }
}

proof fn lemma_filters_of(r: Row, hops: Seq<Seq<Triple>>, i: int, k: int)
    requires
        tells_nodes_apart(r),
        0 <= i < hops.len(),
        k <= hops.len(),
    ensures
        all_hold(r, filters_of(hops, i, k)) == forall|j: int|
            i < j < k ==> are_disjoint(r, hops[i], #[trigger] hops[j]),
    decreases k - i,
{
    if k > i + 1 {
        lemma_filters_of(r, hops, i, k - 1);
        lemma_hops_differ(r, hops[i], hops[i].len() as int, hops[k - 1]);
        assert(hops[i].take(hops[i].len() as int) =~= hops[i]);
        lemma_with_some(
            r,
            filters_of(hops, i, k - 1),
            hops_differ(hops[i], hops[i].len() as int, hops[k - 1]),
        );
    }
}

proof fn lemma_all_filters(r: Row, hops: Seq<Seq<Triple>>, k: int)
    requires
        tells_nodes_apart(r),
        0 <= k <= hops.len(),
    ensures
        all_hold(r, all_filters(hops, k)) == forall|i: int, j: int|
            0 <= i < k && i < j < hops.len() ==> are_disjoint(
                r,
                #[trigger] hops[i],
                #[trigger] hops[j],
            ),
    decreases k,
{
    if k > 0 {
        let v = all_filters(hops, k - 1);
        let w = filters_of(hops, k - 1, hops.len() as int);
        lemma_all_filters(r, hops, k - 1);
        lemma_filters_of(r, hops, k - 1, hops.len() as int);
        assert(all_hold(r, v + w) == (all_hold(r, v) && all_hold(r, w))) by {
            if all_hold(r, v + w) {
                assert forall|i: int| 0 <= i < v.len() implies holds(r, #[trigger] v[i]) by {
                    assert((v + w)[i] == v[i]);
                }
                assert forall|i: int| 0 <= i < w.len() implies holds(r, #[trigger] w[i]) by {
                    assert((v + w)[v.len() + i] == w[i]);
                }
            }
        }
    }
}

/// The conditions on the relationships of a pattern hold of a row exactly where
/// no two of the relationships have a triple in common.
pub proof fn law_relationships_are_told_apart(r: Row, hops: Seq<Seq<Triple>>)
    requires
        tells_nodes_apart(r),
    ensures
        all_hold(r, all_filters(hops, hops.len() as int)) == forall|i: int, j: int|
            0 <= i < j < hops.len() ==> are_disjoint(r, #[trigger] hops[i], #[trigger] hops[j]),
{
    lemma_all_filters(r, hops, hops.len() as int);
}

/// What `all` over a list is translated to holds where the predicate holds of
/// each element.
pub proof fn law_all_of_holds(r: Row, c: Seq<g::Expr>)
    requires
        c.len() > 0,
    ensures
        holds(r, all_of(c, c.len() as int)) == all_hold(r, c),
{
    lemma_all_of(r, c, c.len() as int);
}

proof fn lemma_all_of(r: Row, c: Seq<g::Expr>, k: int)
    requires
        0 < k <= c.len(),
    ensures
        holds(r, all_of(c, k)) == forall|i: int| 0 <= i < k ==> holds(r, #[trigger] c[i]),
    decreases k,
{
    if k > 1 {
        lemma_all_of(r, c, k - 1);
    }
}

/// What `any` over a list is translated to holds where the predicate holds of
/// some element.
pub proof fn law_any_of_holds(r: Row, c: Seq<g::Expr>)
    requires
        c.len() > 0,
    ensures
        holds(r, any_of(c, c.len() as int)) == exists|i: int|
            0 <= i < c.len() && holds(r, #[trigger] c[i]),
{
    lemma_any_of(r, c, c.len() as int);
}

proof fn lemma_any_of(r: Row, c: Seq<g::Expr>, k: int)
    requires
        0 < k <= c.len(),
    ensures
        holds(r, any_of(c, k)) == exists|i: int| 0 <= i < k && holds(r, #[trigger] c[i]),
    decreases k,
{
    if k > 1 {
        lemma_any_of(r, c, k - 1);
        assert(holds(r, any_of(c, k)) == (holds(r, any_of(c, k - 1)) || holds(r, c[k - 1])));
    } else {
        assert(any_of(c, k) == c[0]);
    }
}

} // verus!
