//! The laws of unwinding: a row for each element.
use vstd::prelude::*;

#[allow(unused_imports)]
use crate::ast::model as m;
#[allow(unused_imports)]
use crate::lqa::write::literals::XSD_INTEGER;
#[allow(unused_imports)]
use crate::sparql::model as g;
#[allow(unused_imports)]
use crate::text::{dec, join_spec, occurs_at, split_spec};
#[allow(unused_imports)]
use crate::translator::ground::typed;
#[allow(unused_imports)]
use crate::translator::unwind::{left, list_rows, pieces, range_rows, row_of, row_term};

verus! {

/// A list has a row for each of its elements, in their order; it has none at all
/// where one of its elements has none.
pub proof fn law_row_for_each_element(
    items: Seq<m::Expression>,
    keyed: bool,
)
    ensures
        list_rows(items, items.len() as int, keyed) is Ok <==> forall|i: int|
            0 <= i < items.len() ==> (#[trigger] row_term(items[i])) is Ok,
        list_rows(items, items.len() as int, keyed) matches Ok(rows) ==> rows.len()
            == items.len() && forall|i: int|
            0 <= i < items.len() ==> #[trigger] rows[i] == row_of(
                row_term(items[i])->Ok_0,
                items[i],
                keyed,
            ),
{
    lemma_rows(items, items.len() as int, keyed);
}

proof fn lemma_rows(items: Seq<m::Expression>, k: int, keyed: bool)
    requires
        0 <= k <= items.len(),
    ensures
        list_rows(items, k, keyed) is Ok <==> forall|i: int|
            0 <= i < k ==> (#[trigger] row_term(items[i])) is Ok,
        list_rows(items, k, keyed) matches Ok(rows) ==> rows.len() == k && forall|i: int|
            0 <= i < k ==> #[trigger] rows[i] == row_of(
                row_term(items[i])->Ok_0,
                items[i],
                keyed,
            ),
    decreases k,
{
    if k > 0 {
        lemma_rows(items, k - 1, keyed);
        assert(row_term(items[k - 1]) is Ok || row_term(items[k - 1]) is Err);
    }
}

/// The row of an integer.
pub open spec fn number_row(n: int) -> Seq<Option<g::GroundTerm>> {
    seq![Some(g::GroundTerm::Literal(typed(dec(n), XSD_INTEGER@)))]
}

/// Whether a number is not past the end of a range.
pub open spec fn within(n: int, end: int, step: int) -> bool {
    if step > 0 {
        n <= end
    } else {
        n >= end
    }
}

/// A range has the rows of its start and of what each step leads to, as long as
/// that is not past the end, and no others.
pub proof fn law_range_counts_steps(start: int, end: int, step: int)
    requires
        step != 0,
    ensures
        forall|k: int|
            0 <= k < range_rows(start, end, step).len() ==> #[trigger] range_rows(
                start,
                end,
                step,
            )[k] == number_row(start + k * step) && within(start + k * step, end, step),
        !within(start + range_rows(start, end, step).len() * step, end, step),
    decreases left(start, end, step),
{
    let rows = range_rows(start, end, step);
    if within(start, end, step) {
        law_range_counts_steps(start + step, end, step);
        let rest = range_rows(start + step, end, step);
        assert(rows =~= seq![number_row(start)] + rest);
        assert forall|k: int| 0 <= k < rows.len() implies #[trigger] rows[k] == number_row(
            start + k * step,
        ) && within(start + k * step, end, step) by {
            if k > 0 {
                assert(rows[k] == rest[k - 1]);
                assert(start + step + (k - 1) * step == start + k * step) by (nonlinear_arith);
            } else {
                assert(k * step == 0) by (nonlinear_arith)
                    requires
                        k == 0,
                ;
            }
        }
        let n = rest.len() as int;
        assert(start + step + n * step == start + (n + 1) * step) by (nonlinear_arith);
    } else {
        assert(0 * step == 0);
    }
}

/// The pieces of a text, with the separator between them, are the text.
pub proof fn law_pieces_make_text(s: Seq<char>, d: Seq<char>)
    ensures
        join_spec(pieces(s, d), d) == s,
{
    if d.len() == 0 {
        lemma_letters(s, d);
    } else {
        lemma_split(s, d, 0, 0);
        assert(s.skip(0) =~= s);
    }
}

proof fn lemma_letters(s: Seq<char>, d: Seq<char>)
    requires
        d.len() == 0,
    ensures
        join_spec(pieces(s, d), d) == s,
    decreases s.len(),
{
    let p = pieces(s, d);
    if s.len() == 0 {
        assert(join_spec(p, d) =~= s);
    } else if s.len() == 1 {
        assert(join_spec(p, d) =~= s);
    } else {
        lemma_letters(s.drop_last(), d);
        assert(p.drop_last() =~= pieces(s.drop_last(), d));
        assert(join_spec(p, d) =~= s);
    }
}

proof fn lemma_join_first(a: Seq<char>, rest: Seq<Seq<char>>, d: Seq<char>)
    requires
        rest.len() > 0,
    ensures
        join_spec(seq![a] + rest, d) == a + d + join_spec(rest, d),
    decreases rest.len(),
{
    let all = seq![a] + rest;
    if rest.len() == 1 {
        assert(all.drop_last() =~= seq![a]);
        assert(join_spec(all.drop_last(), d) == a);
        assert(join_spec(all, d) =~= a + d + join_spec(rest, d));
    } else {
        lemma_join_first(a, rest.drop_last(), d);
        assert(all.drop_last() =~= seq![a] + rest.drop_last());
        assert(join_spec(all, d) =~= a + d + join_spec(rest, d));
    }
}

proof fn lemma_split(s: Seq<char>, d: Seq<char>, start: int, i: int)
    requires
        d.len() > 0,
        0 <= start <= i <= s.len(),
    ensures
        split_spec(s, d, start, i).len() > 0,
        join_spec(split_spec(s, d, start, i), d) == s.skip(start),
    decreases s.len() - i,
{
    if i + d.len() > s.len() {
        assert(split_spec(s, d, start, i) =~= seq![s.skip(start)]);
    } else if occurs_at(s, d, i) {
        let rest = split_spec(s, d, i + d.len(), i + d.len());
        lemma_split(s, d, i + d.len(), i + d.len());
        lemma_join_first(s.subrange(start, i), rest, d);
        assert(s.subrange(i, i + d.len()) =~= d);
        assert(s.skip(start) =~= s.subrange(start, i) + d + s.skip(i + d.len()));
    } else {
        lemma_split(s, d, start, i + 1);
    }
}

} // verus!
