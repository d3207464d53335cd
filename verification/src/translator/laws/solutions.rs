//! The laws of solutions: in which order the rows of a query come, and which of them.
use vstd::prelude::*;

#[allow(unused_imports)]
use crate::ast::model as m;
#[allow(unused_imports)]
use crate::sparql::model as g;
#[allow(unused_imports)]
use crate::sparql::value::{below, eval, Row, Value};
#[allow(unused_imports)]
use crate::translator::expr::meaning as w;
#[allow(unused_imports)]
use crate::translator::finish::{shaped, sort_key, sort_keys};
#[allow(unused_imports)]
use crate::translator::laws::growth::{grows, law_translation_only_adds};
#[allow(unused_imports)]
use crate::translator::laws::values::{
    binds, law_translation_keeps_meaning, lemma_fewer_bound, meaning, Graph,
};
#[allow(unused_imports)]
use crate::translator::scope::{knows_nothing, Out, Scope};

verus! {

// ── Order ────────────────────────────────────────────────────────────────────

/// Whether a key puts one row before another: `ASC` the one with the smaller number,
/// `DESC` the one with the larger.
pub open spec fn puts_before(k: g::OrderExpression, a: Row, b: Row) -> bool {
    match k {
        g::OrderExpression::Asc(e) => below(eval(e, a), eval(e, b)) == Value::Truth(true),
        g::OrderExpression::Desc(e) => below(eval(e, b), eval(e, a)) == Value::Truth(true),
    }
}

/// Whether a sort item puts one row before another, by what its expression means on
/// both.
pub open spec fn sorts_before(
    x: m::SortItem,
    base: Seq<char>,
    a: Row,
    b: Row,
    here: Graph,
    there: Graph,
) -> Option<bool> {
    match (meaning(x.expression, base, a, here), meaning(x.expression, base, b, there)) {
        (Some(Value::Number(p)), Some(Value::Number(q))) => Some(
            if x.descending {
                p > q
            } else {
                p < q
            },
        ),
        _ => None,
    }
}

/// The key of a sort item orders rows by the numbers that the item's expression has on
/// them, the smaller first, or the larger first where the item descends.
pub proof fn law_sort_key_orders(
    x: m::SortItem,
    s: Scope,
    o: Out,
    a: Row,
    b: Row,
    here: Graph,
    there: Graph,
)
    requires
        knows_nothing(s),
        o.checks.len() == o.targets.len(),
        sort_key(x, s, o).result is Ok,
        binds(a, here, sort_key(x, s, o).out),
        binds(b, there, sort_key(x, s, o).out),
    ensures
        sorts_before(x, s.base_iri@, a, b, here, there) matches Some(first) ==> puts_before(
            sort_key(x, s, o).result->Ok_0,
            a,
            b,
        ) == first,
{
    reveal(sort_key);
    let e = x.expression;
    if sorts_before(x, s.base_iri@, a, b, here, there) is Some {
        law_translation_keeps_meaning(e, s, o, a, here);
        law_translation_keeps_meaning(e, s, o, b, there);
    }
}

proof fn lemma_key_grows(x: m::SortItem, s: Scope, o: Out)
    requires
        knows_nothing(s),
    ensures
        grows(o, sort_key(x, s, o).out),
{
    reveal(sort_key);
    reveal(w::translation);
    law_translation_only_adds(x.expression, s, o, usize::MAX as nat);
}

/// The keys of `ORDER BY` are as many as its items, and each orders rows as its item
/// says.
pub proof fn law_sort_keys_order_rows(
    items: Seq<m::SortItem>,
    n: int,
    s: Scope,
    o: Out,
    a: Row,
    b: Row,
    here: Graph,
    there: Graph,
)
    requires
        knows_nothing(s),
        o.checks.len() == o.targets.len(),
        0 <= n <= items.len(),
        sort_keys(items, n, s, o).result is Ok,
        binds(a, here, sort_keys(items, n, s, o).out),
        binds(b, there, sort_keys(items, n, s, o).out),
    ensures
        ({
            let keys = sort_keys(items, n, s, o);
            let v = keys.result->Ok_0;
            &&& v.len() == n
            &&& keys.out.checks.len() == keys.out.targets.len()
            &&& forall|k: int|
                0 <= k < n ==> (sorts_before(
                    #[trigger] items[k],
                    s.base_iri@,
                    a,
                    b,
                    here,
                    there,
                ) matches Some(first) ==> puts_before(v[k], a, b) == first)
        }),
    decreases n,
{
    if n > 0 {
        let before = sort_keys(items, n - 1, s, o);
        let x = items[n - 1];
        let key = sort_key(x, s, before.out);
        lemma_keys_even(items, n - 1, s, o);
        lemma_key_grows(x, s, before.out);
        lemma_fewer_bound(a, here, before.out, key.out);
        lemma_fewer_bound(b, there, before.out, key.out);
        law_sort_keys_order_rows(items, n - 1, s, o, a, b, here, there);
        law_sort_key_orders(x, s, before.out, a, b, here, there);
        let v = sort_keys(items, n, s, o).result->Ok_0;
        let w = before.result->Ok_0;
        assert(v == w.push(key.result->Ok_0));
        assert forall|k: int| 0 <= k < n implies (sorts_before(
            #[trigger] items[k],
            s.base_iri@,
            a,
            b,
            here,
            there,
        ) matches Some(first) ==> puts_before(v[k], a, b) == first) by {
            if k < n - 1 {
                assert(v[k] == w[k]);
            }
        }
    }
}

proof fn lemma_keys_even(items: Seq<m::SortItem>, n: int, s: Scope, o: Out)
    requires
        knows_nothing(s),
        o.checks.len() == o.targets.len(),
    ensures
        sort_keys(items, n, s, o).out.checks.len() == sort_keys(items, n, s, o).out.targets.len(),
    decreases n,
{
    if n > 0 {
        lemma_keys_even(items, n - 1, s, o);
        let before = sort_keys(items, n - 1, s, o);
        let key = sort_key(items[n - 1], s, before.out);
        lemma_key_grows(items[n - 1], s, before.out);
        reveal(grows);
        assert(key.out.checks.len() == key.out.targets.len());
        if before.result is Ok {
            assert(sort_keys(items, n, s, o).out == key.out);
        }
    }
}

// ── Parts ────────────────────────────────────────────────────────────────────

/// The rows of a pattern that keeps a part of the rows of another.
pub open spec fn kept_of(p: g::GraphPattern, q: g::GraphPattern, rows: Seq<Row>) -> Option<
    Seq<Row>,
>
    decreases p,
{
    if p == q {
        Some(rows)
    } else {
        match p {
            g::GraphPattern::Slice { inner, start, length } => match kept_of(*inner, q, rows) {
                Some(v) => {
                    let rest = if start <= v.len() {
                        v.skip(start as int)
                    } else {
                        seq![]
                    };
                    match length {
                        Some(n) => Some(
                            if n <= rest.len() {
                                rest.take(n as int)
                            } else {
                                rest
                            },
                        ),
                        None => Some(rest),
                    }
                },
                None => None,
            },
            _ => None,
        }
    }
}

/// Whether a whole number can count rows.
pub open spec fn counts(n: i64) -> bool {
    0 <= n <= usize::MAX
}

spec fn slices(p: g::GraphPattern) -> nat
    decreases p,
{
    match p {
        g::GraphPattern::Slice { inner, start, length } => slices(*inner) + 1,
        _ => 0,
    }
}

proof fn lemma_slice_differs(p: g::GraphPattern, start: usize, length: Option<usize>)
    ensures
        (g::GraphPattern::Slice { inner: Box::new(p), start, length }) != p,
{
    let q = g::GraphPattern::Slice { inner: Box::new(p), start, length };
    assert(slices(q) == slices(p) + 1);
}

/// `SKIP a` leaves out the first `a` rows, `LIMIT b` keeps the first `b` of the rest,
/// and without them all rows stay, in the same order.
pub proof fn law_skip_and_limit(
    p: g::GraphPattern,
    skip: Option<i64>,
    limit: Option<i64>,
    s: Scope,
    o: Out,
    rows: Seq<Row>,
)
    requires
        skip matches Some(a) ==> counts(a),
        limit matches Some(b) ==> counts(b),
    ensures
        ({
            let x = shaped(p, None, number(skip), number(limit), s, o);
            &&& x.result is Ok
            &&& kept_of(x.result->Ok_0, p, rows) matches Some(v) && {
                let from = match skip {
                    Some(a) => a as int,
                    None => 0,
                };
                &&& forall|k: int|
                    0 <= k < v.len() ==> from + k < rows.len() && #[trigger] v[k] == rows[from + k]
                &&& match limit {
                    Some(b) => v.len() <= b && (v.len() < b ==> v.len() + from >= rows.len()),
                    None => v.len() + from >= rows.len(),
                }
            }
        }),
{
    let x = shaped(p, None, number(skip), number(limit), s, o);
    let start = match skip {
        Some(a) => a as usize,
        None => 0usize,
    };
    let length = match limit {
        Some(b) => Some(b as usize),
        None => None,
    };
    lemma_slice_differs(p, start, length);
    reveal_with_fuel(kept_of, 3);
}

/// The expression of a whole number.
pub open spec fn number(n: Option<i64>) -> Option<m::Expression> {
    match n {
        Some(x) => Some(m::Expression::Literal(m::Literal::Integer(x))),
        None => None,
    }
}

} // verus!
