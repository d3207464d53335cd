//! Running a list of steps, each of which yields update statements or fails.
use vstd::prelude::*;

verus! {

/// The statements of a step, or the construct that it cannot handle.
pub type Outcome = Result<Seq<Seq<char>>, Seq<char>>;

/// The statements of all steps in order, or the first failure.
pub open spec fn run_all<A>(items: Seq<A>, step: spec_fn(A) -> Outcome) -> Outcome
    decreases items.len(),
{
    if items.len() == 0 {
        Ok(seq![])
    } else {
        match run_all(items.drop_last(), step) {
            Ok(done) => match step(items.last()) {
                Ok(more) => Ok(done + more),
                Err(c) => Err(c),
            },
            Err(c) => Err(c),
        }
    }
}

/// One more step: its statements follow, its failure is that of the whole.
pub proof fn lemma_run_next<A>(items: Seq<A>, step: spec_fn(A) -> Outcome, n: int)
    requires
        0 <= n < items.len(),
        run_all(items.take(n), step) is Ok,
    ensures
        match step(items[n]) {
            Ok(more) => run_all(items.take(n + 1), step) == Outcome::Ok(
                run_all(items.take(n), step)->Ok_0 + more,
            ),
            Err(c) => run_all(items, step) == Outcome::Err(c),
        },
{
    assert(items.take(n + 1).drop_last() =~= items.take(n));
    if step(items[n]) is Err {
        lemma_run_fails(items, step, n + 1);
    }
}

proof fn lemma_run_fails<A>(items: Seq<A>, step: spec_fn(A) -> Outcome, n: int)
    requires
        0 <= n <= items.len(),
        run_all(items.take(n), step) is Err,
    ensures
        run_all(items, step) == run_all(items.take(n), step),
    decreases items.len() - n,
{
    if n == items.len() {
        assert(items.take(n) =~= items);
    } else {
        assert(items.take(n + 1).drop_last() =~= items.take(n));
        lemma_run_fails(items, step, n + 1);
    }
}

/// The texts that `f` gives, in order.
pub open spec fn collect<A>(items: Seq<A>, f: spec_fn(A) -> Seq<Seq<char>>) -> Seq<Seq<char>>
    decreases items.len(),
{
    if items.len() == 0 {
        seq![]
    } else {
        collect(items.drop_last(), f) + f(items.last())
    }
}

pub proof fn lemma_collect_next<A>(items: Seq<A>, f: spec_fn(A) -> Seq<Seq<char>>, n: int)
    requires
        0 <= n < items.len(),
    ensures
        collect(items.take(n + 1), f) == collect(items.take(n), f) + f(items[n]),
{
    assert(items.take(n + 1).drop_last() =~= items.take(n));
}

} // verus!
