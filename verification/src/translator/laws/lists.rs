//! The laws of lists that are known before the query runs.
use vstd::prelude::*;

#[allow(unused_imports)]
use crate::ast::model as m;
#[allow(unused_imports)]
use crate::translator::count::element_count;
#[allow(unused_imports)]
use crate::translator::resolve::{
    appended, cut_out, element_at, resolved_items, resolved_list, Slice, slice_of,
};
#[allow(unused_imports)]
use crate::translator::scope::Scope;

verus! {

/// The number of elements that is counted is that of the elements that are found.
pub proof fn law_count_is_length(e: m::Expression, s: Scope, hops: nat)
    requires
        element_count(e) is Some,
        resolved_list(e, s, hops) is Some,
    ensures
        element_count(e).unwrap() == resolved_list(e, s, hops).unwrap().len(),
    decreases e,
{
    if let m::Expression::Add(a, b) = e {
        law_count_is_length(*a, s, hops);
        law_count_is_length(*b, s, hops);
    }
}

/// Where a list is found both as a list and as what is searched, its elements are
/// the same.
pub proof fn law_elements_agree(e: m::Expression, s: Scope, hops: nat)
    requires
        resolved_list(e, s, hops) is Some,
        resolved_items(e, s, hops) is Some,
    ensures
        resolved_items(e, s, hops) == resolved_list(e, s, hops),
    decreases e,
{
    if let m::Expression::Add(a, b) = e {
        law_elements_agree(*a, s, hops);
        if resolved_items(*b, s, hops) is Some {
            law_elements_agree(*b, s, hops);
        } else {
            assert(appended(*b, s, hops) is None);
        }
    }
}

// ── Places ───────────────────────────────────────────────────────────────────

/// The expression of a whole number.
pub open spec fn index(n: i64) -> m::Expression {
    m::Expression::Literal(m::Literal::Integer(n))
}

/// An index counts from the front: what stands before an element moves it on by one,
/// and what stands behind it does not move it.
pub proof fn law_index_counts_from_front(items: Seq<m::Expression>, x: m::Expression, n: i64)
    requires
        0 <= n < i64::MAX,
    ensures
        element_at(seq![x] + items, index(0)) == Some(x),
        element_at(seq![x] + items, index((n + 1) as i64)) == element_at(items, index(n)),
        n < items.len() ==> element_at(items.push(x), index(n)) == element_at(items, index(n)),
        element_at(items, index(n)) is Some == (n < items.len()),
{
    assert((seq![x] + items)[0] == x);
    if n < items.len() {
        assert((seq![x] + items)[n + 1] == items[n as int]);
        assert(items.push(x)[n as int] == items[n as int]);
    }
}

/// A negative index counts from the end: -1 is the last element, what stands behind an
/// element moves it on by one, and what stands before it does not move it.
pub proof fn law_index_counts_from_end(items: Seq<m::Expression>, x: m::Expression, n: i64)
    requires
        i64::MIN < n < 0,
    ensures
        element_at(items.push(x), index(-1i64)) == Some(x),
        element_at(items.push(x), index((n - 1) as i64)) == element_at(items, index(n)),
        -n <= items.len() ==> element_at(seq![x] + items, index(n)) == element_at(
            items,
            index(n),
        ),
        element_at(items, index(n)) is Some == (-n <= items.len()),
{
    let len = items.len() as int;
    assert(items.push(x)[len] == x);
    if -n <= len {
        assert(items.push(x)[len + n] == items[len + n]);
        assert((seq![x] + items)[len + 1 + n] == items[len + n]);
    }
}

/// The part of a list that a slice cuts out.
pub open spec fn cut_by(
    items: Seq<m::Expression>,
    start: Option<i64>,
    end: Option<i64>,
) -> Seq<m::Expression> {
    let from = match start {
        Some(n) => Some(Box::new(index(n))),
        None => None,
    };
    let to = match end {
        Some(n) => Some(Box::new(index(n))),
        None => None,
    };
    match slice_of(from, to, items.len() as int) {
        Slice::Range(a, b) => cut_out(items, a, b),
        _ => seq![],
    }
}

/// A list is cut in two at any index, without loss: what stands before the index and
/// what stands from it on make the list. So many elements stand before an index as it
/// counts, and so many from a negative one on, as long as there are so many.
pub proof fn law_slices_make_list(items: Seq<m::Expression>, n: i64)
    ensures
        cut_by(items, None, Some(n)) + cut_by(items, Some(n), None) == items,
        cut_by(items, None, None) == items,
        0 <= n <= items.len() ==> cut_by(items, None, Some(n)).len() == n,
        i64::MIN < n < 0 && -n <= items.len() ==> cut_by(items, Some(n), None).len() == -n,
{
    assert(cut_by(items, None, Some(n)) + cut_by(items, Some(n), None) =~= items);
    assert(cut_by(items, None, None) =~= items);
}

/// A slice between two indexes is what the second leaves of what the first leaves.
pub proof fn law_slices_nest(items: Seq<m::Expression>, a: i64, b: i64)
    requires
        0 <= a <= b,
    ensures
        cut_by(items, Some(a), Some(b)) == cut_by(cut_by(items, None, Some(b)), Some(a), None),
{
    assert(cut_by(items, Some(a), Some(b)) =~= cut_by(
        cut_by(items, None, Some(b)),
        Some(a),
        None,
    ));
}

/// Two lists with `+` between them are one list, the first before the second.
pub proof fn law_lists_are_joined(a: m::Expression, b: m::Expression, s: Scope, hops: nat)
    requires
        resolved_list(a, s, hops) is Some,
        resolved_list(b, s, hops) is Some,
    ensures
        resolved_list(m::Expression::Add(Box::new(a), Box::new(b)), s, hops) == Some(
            resolved_list(a, s, hops)->0 + resolved_list(b, s, hops)->0,
        ),
{
}

} // verus!
