//! The laws of `UNION`.
use vstd::prelude::*;

#[allow(unused_imports)]
use crate::ast::model as m;
#[allow(unused_imports)]
use crate::sparql::model as g;
#[allow(unused_imports)]
use crate::translator::query::{arms_of, combined, flags_of, united};

verus! {

/// The first `k` parts, with the `UNION`s between them.
pub open spec fn rejoined(arms: Seq<Seq<m::Clause>>, flags: Seq<bool>, k: int) -> Seq<m::Clause>
    decreases k,
{
    if k <= 1 {
        arms[0]
    } else {
        rejoined(arms, flags, k - 1).push(m::Clause::Union { all: flags[k - 2] }) + arms[k - 1]
    }
}

pub open spec fn has_no_union(arm: Seq<m::Clause>) -> bool {
    forall|i: int| 0 <= i < arm.len() ==> !((#[trigger] arm[i]) is Union)
}

proof fn lemma_rejoined_keeps(
    arms: Seq<Seq<m::Clause>>,
    flags: Seq<bool>,
    more_arms: Seq<Seq<m::Clause>>,
    more_flags: Seq<bool>,
    k: int,
)
    requires
        0 < k <= arms.len(),
        k <= more_arms.len(),
        k <= flags.len() + 1,
        k <= more_flags.len() + 1,
        forall|i: int| 0 <= i < k ==> arms[i] == more_arms[i],
        forall|i: int| 0 <= i < k - 1 ==> flags[i] == more_flags[i],
    ensures
        rejoined(arms, flags, k) == rejoined(more_arms, more_flags, k),
    decreases k,
{
    if k > 1 {
        lemma_rejoined_keeps(arms, flags, more_arms, more_flags, k - 1);
    }
}

proof fn lemma_parts(clauses: Seq<m::Clause>, k: int)
    requires
        0 <= k <= clauses.len(),
    ensures
        ({
            let arms = arms_of(clauses, k);
            let flags = flags_of(clauses, k);
            &&& arms.len() == flags.len() + 1
            &&& rejoined(arms, flags, arms.len() as int) == clauses.take(k)
            &&& forall|i: int| 0 <= i < arms.len() ==> has_no_union(#[trigger] arms[i])
        }),
    decreases k,
{
    let arms = arms_of(clauses, k);
    let flags = flags_of(clauses, k);
    if k == 0 {
        assert(rejoined(arms, flags, 1) =~= clauses.take(0));
    } else {
        lemma_parts(clauses, k - 1);
        let arms0 = arms_of(clauses, k - 1);
        let flags0 = flags_of(clauses, k - 1);
        let n = arms0.len() as int;
        let c = clauses[k - 1];
        let before = clauses.take(k - 1);
        assert(clauses.take(k) =~= before.push(c));
        match c {
            m::Clause::Union { all } => {
                assert(arms =~= arms0.push(seq![]));
                lemma_rejoined_keeps(arms0, flags0, arms, flags, n);
                assert(flags[n - 1] == all);
                assert(rejoined(arms, flags, n + 1) =~= before.push(c));
            },
            _ => {
                assert(arms =~= arms0.drop_last().push(arms0.last().push(c)));
                if n > 1 {
                    lemma_rejoined_keeps(arms0, flags0, arms, flags, n - 1);
                }
                assert(rejoined(arms, flags, n) =~= rejoined(arms0, flags0, n).push(c));
                assert(has_no_union(arms[n - 1])) by {
                    assert(has_no_union(arms0[n - 1]));
                }
            },
        }
    }
}

/// The parts of a query, with the `UNION`s between them, make the query again,
/// and no part has a `UNION` in it.
pub proof fn law_union_parts_make_query(clauses: Seq<m::Clause>)
    ensures
        ({
            let arms = arms_of(clauses, clauses.len() as int);
            let flags = flags_of(clauses, clauses.len() as int);
            &&& arms.len() == flags.len() + 1
            &&& rejoined(arms, flags, arms.len() as int) == clauses
            &&& forall|i: int| 0 <= i < arms.len() ==> has_no_union(#[trigger] arms[i])
        }),
{
    lemma_parts(clauses, clauses.len() as int);
    assert(clauses.take(clauses.len() as int) =~= clauses);
}

/// `UNION ALL` keeps duplicates, and `UNION` alone does not.
pub proof fn law_union_all_keeps_duplicates(arms: Seq<g::GraphPattern>, flags: Seq<bool>)
    requires
        arms.len() == flags.len() + 1,
    ensures
        (forall|i: int| 0 <= i < flags.len() ==> flags[i]) ==> combined(arms, flags) == united(
            arms,
            arms.len() as int,
        ),
        flags.len() > 0 && (forall|i: int| 0 <= i < flags.len() ==> !flags[i]) ==> combined(
            arms,
            flags,
        ) == (g::GraphPattern::Distinct { inner: Box::new(united(arms, arms.len() as int)) }),
{
}

} // verus!
