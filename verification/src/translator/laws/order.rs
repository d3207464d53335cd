//! The laws of the order of values, and of the least and the greatest.
use vstd::prelude::*;

#[allow(unused_imports)]
use crate::ast::cypher::{Expression, Literal};
#[allow(unused_imports)]
use crate::translator::compare::{
    cypher_order, is_nan, known, list_order, rank, text_order, Order,
};
#[allow(unused_imports)]
use crate::translator::fold::{extremum, is_null_value};

verus! {

pub open spec fn reversed(o: Order) -> Order {
    match o {
        Order::Less => Order::Greater,
        Order::Equal => Order::Equal,
        Order::Greater => Order::Less,
    }
}

/// Whether the numbers in a value, and in the elements of a list, are of one kind:
/// integers, or doubles other than `NaN`. An integer is rounded before it is
/// compared with a double.
pub open spec fn is_exact(e: Expression, doubles: bool) -> bool
    decreases e,
{
    match e {
        Expression::Literal(Literal::Integer(_)) => !doubles,
        Expression::Literal(Literal::Float(f)) => doubles && known(f@) is Some && !is_nan(
            known(f@)->0,
        ),
        Expression::List(items) => forall|i: int|
            0 <= i < items@.len() ==> is_exact(#[trigger] items@[i], doubles),
        _ => true,
    }
}

/// What two comparisons in a row that do not point both ways make together.
pub open spec fn chained(x: Order, y: Order) -> Order {
    if x is Equal {
        y
    } else {
        x
    }
}

pub open spec fn is_chain(x: Order, y: Order) -> bool {
    x is Equal || y is Equal || x == y
}

/// Values of different types are in the order of their types: maps, lists,
/// strings, `false`, `true`, numbers, null.
pub proof fn law_types_are_ordered(a: Expression, b: Expression)
    requires
        rank(a) < rank(b),
    ensures
        cypher_order(a, b) is Less,
        cypher_order(b, a) is Greater,
{
}

/// Null comes after every other literal, list or map.
pub proof fn law_null_is_greatest(a: Expression)
    requires
        !is_null_value(a),
    ensures
        cypher_order(a, Expression::Literal(Literal::Null)) is Less,
{
}

proof fn lemma_text_reverses(x: Seq<char>, y: Seq<char>, i: int)
    ensures
        text_order(y, x, i) == reversed(text_order(x, y, i)),
    decreases x.len() - i,
{
    if 0 <= i < x.len() && i < y.len() && x[i] == y[i] {
        lemma_text_reverses(x, y, i + 1);
    }
}

/// Two values compared the other way round give the opposite.
pub proof fn law_order_reverses(a: Expression, b: Expression)
    ensures
        cypher_order(b, a) == reversed(cypher_order(a, b)),
    decreases a, 1int, 0int,
{
    match (a, b) {
        (Expression::Literal(Literal::String(s)), Expression::Literal(Literal::String(t))) => {
            lemma_text_reverses(s@, t@, 0);
        },
        (Expression::List(xs), Expression::List(ys)) => {
            lemma_list_reverses(xs@, ys@, 0);
        },
        _ => {},
    }
}

proof fn lemma_list_reverses(
    xs: Seq<Expression>,
    ys: Seq<Expression>,
    i: int,
)
    ensures
        list_order(ys, xs, i) == reversed(list_order(xs, ys, i)),
    decreases xs, 0int, xs.len() - i,
{
    if 0 <= i < xs.len() && i < ys.len() {
        law_order_reverses(xs[i], ys[i]);
        lemma_list_reverses(xs, ys, i + 1);
    }
}

proof fn lemma_text_chains(x: Seq<char>, y: Seq<char>, z: Seq<char>, i: int)
    requires
        0 <= i,
        i <= x.len(),
        i <= y.len(),
        i <= z.len(),
        is_chain(text_order(x, y, i), text_order(y, z, i)),
    ensures
        text_order(x, z, i) == chained(text_order(x, y, i), text_order(y, z, i)),
    decreases x.len() - i,
{
    if i < x.len() && i < y.len() && i < z.len() {
        if x[i] == y[i] && y[i] == z[i] {
            lemma_text_chains(x, y, z, i + 1);
        }
    } else if i < x.len() && i < y.len() {
        // The third text ends here.
    } else if i < y.len() && i < z.len() {
        // The first text ends here.
    }
}

/// Two comparisons in a row that do not point both ways carry over, of values with
/// numbers of one kind: what is not greater than what is not greater is not
/// greater, and equal only where both are.
pub proof fn law_order_chains(a: Expression, b: Expression, c: Expression, doubles: bool)
    requires
        is_exact(a, doubles),
        is_exact(b, doubles),
        is_exact(c, doubles),
        is_chain(cypher_order(a, b), cypher_order(b, c)),
    ensures
        cypher_order(a, c) == chained(cypher_order(a, b), cypher_order(b, c)),
    decreases a, 1int, 0int,
{
    if rank(a) == rank(b) && rank(b) == rank(c) {
        match (a, b, c) {
            (
                Expression::Literal(Literal::String(s)),
                Expression::Literal(Literal::String(t)),
                Expression::Literal(Literal::String(u)),
            ) => {
                lemma_text_chains(s@, t@, u@, 0);
            },
            (Expression::List(xs), Expression::List(ys), Expression::List(zs)) => {
                lemma_list_chains(xs@, ys@, zs@, 0, doubles);
            },
            _ => {},
        }
    }
}

proof fn lemma_list_chains(
    xs: Seq<Expression>,
    ys: Seq<Expression>,
    zs: Seq<Expression>,
    i: int,
    doubles: bool,
)
    requires
        0 <= i,
        i <= xs.len(),
        i <= ys.len(),
        i <= zs.len(),
        forall|k: int| 0 <= k < xs.len() ==> is_exact(#[trigger] xs[k], doubles),
        forall|k: int| 0 <= k < ys.len() ==> is_exact(#[trigger] ys[k], doubles),
        forall|k: int| 0 <= k < zs.len() ==> is_exact(#[trigger] zs[k], doubles),
        is_chain(list_order(xs, ys, i), list_order(ys, zs, i)),
    ensures
        list_order(xs, zs, i) == chained(
            list_order(xs, ys, i),
            list_order(ys, zs, i),
        ),
    decreases xs, 0int, xs.len() - i,
{
    if i < xs.len() && i < ys.len() && i < zs.len() {
        let x = cypher_order(xs[i], ys[i]);
        let y = cypher_order(ys[i], zs[i]);
        if is_chain(x, y) {
            law_order_chains(xs[i], ys[i], zs[i], doubles);
            if x is Equal && y is Equal {
                lemma_list_chains(xs, ys, zs, i + 1, doubles);
            }
        }
    }
}

/// Whether a place is that of a greatest or a least among the first `k` values
/// that are not null.
pub open spec fn is_extreme(
    items: Seq<Expression>,
    k: int,
    j: int,
    greatest: bool,
) -> bool {
    &&& 0 <= j < k
    &&& !is_null_value(items[j])
    &&& forall|i: int|
        0 <= i < k && !is_null_value(#[trigger] items[i]) ==> if greatest {
            !(cypher_order(items[i], items[j]) is Greater)
        } else {
            !(cypher_order(items[j], items[i]) is Greater)
        }
}

/// The value that a query for the least or the greatest of a list with numbers of
/// one kind is folded to is one of the list, and none that is not null is less or
/// greater. There is one unless all are null.
pub proof fn law_extremum_is_extreme(
    items: Seq<Expression>,
    k: int,
    greatest: bool,
    doubles: bool,
)
    requires
        0 <= k <= items.len(),
        forall|i: int| 0 <= i < items.len() ==> is_exact(#[trigger] items[i], doubles),
    ensures
        match extremum(items, k, greatest) {
            Some(j) => is_extreme(items, k, j, greatest),
            None => forall|i: int| 0 <= i < k ==> is_null_value(#[trigger] items[i]),
        },
    decreases k,
{
    if k > 0 {
        law_extremum_is_extreme(items, k - 1, greatest, doubles);
        let here = items[k - 1];
        if !is_null_value(here) {
            law_order_reverses(here, here);
            match extremum(items, k - 1, greatest) {
                Some(j) => {
                    law_order_reverses(items[j], here);
                    assert forall|i: int|
                        0 <= i < k - 1 && !is_null_value(#[trigger] items[i]) implies if greatest {
                        cypher_order(items[j], here) is Greater || !(cypher_order(
                            items[i],
                            here,
                        ) is Greater)
                    } else {
                        !(cypher_order(items[j], here) is Greater) || !(cypher_order(
                            here,
                            items[i],
                        ) is Greater)
                    } by {
                        law_order_reverses(items[i], items[j]);
                        law_order_reverses(items[i], here);
                        if greatest {
                            if !(cypher_order(items[j], here) is Greater) {
                                law_order_chains(items[i], items[j], here, doubles);
                            }
                        } else {
                            if cypher_order(items[j], here) is Greater {
                                law_order_chains(here, items[j], items[i], doubles);
                            }
                        }
                    }
                },
                None => {},
            }
        }
    }
}

} // verus!
