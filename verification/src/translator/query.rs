//! How a whole query is translated: where it starts, how it is taken apart, and
//! what comes of it.
use vstd::prelude::*;

use crate::ast::copy::clone_clause;
use crate::ast::cypher::Clause;
#[allow(unused_imports)]
use crate::ast::model as m;
use crate::error::PolygraphError;
use crate::lqa::write::DEFAULT_BASE;
use crate::sparql::algebra as sparql;
#[allow(unused_imports)]
use crate::sparql::model as g;
#[allow(unused_imports)]
use crate::translator::fold::{minmax_columns, minmax_fold};
#[allow(unused_imports)]
use crate::translator::fold_quantifier::{law_fold, law_row, row_columns};
#[allow(unused_imports)]
use crate::translator::scope::{knows_nothing, nothing_left};
#[allow(unused_imports)]
use crate::translator::state::{columns_of, nothing_noted, Kind};
use crate::translator::state::{ProjectionSchema, TranslationState};

verus! {

/// A query in SPARQL, and the columns of its result.
#[derive(Debug)]
pub struct TranslationResult {
    pub sparql: String,
    pub schema: ProjectionSchema,
}

pub open spec fn base_of(base_iri: Option<&str>) -> Seq<char> {
    match base_iri {
        Some(b) => b@,
        None => DEFAULT_BASE@,
    }
}

impl TranslationState {
    /// The state that a translation starts in, where the semantic check of the
    /// query has found no error. With `skip_writes`, the clauses that write have
    /// been carried out before. An error of the check is returned before anything
    /// is translated.
    pub fn begin(
        checked: Result<(), PolygraphError>,
        base_iri: Option<&str>,
        rdf_star: bool,
        skip_writes: bool,
    ) -> (r: Result<Self, PolygraphError>)
        ensures
            match checked {
                Err(x) => r == Err::<Self, PolygraphError>(x),
                Ok(_) => r matches Ok(s) && {
                    &&& s.scope.base_iri@ == base_of(base_iri)
                    &&& s.scope.rdf_star == rdf_star
                    &&& s.scope.skip_write_clauses == skip_writes
                    &&& knows_nothing(s.scope)
                    &&& nothing_left(s.out)
                    &&& nothing_noted(s)
                },
            },
    {
        if let Err(x) = checked {
            return Err(x);
        }
        let base = match base_iri {
            Some(b) => b.to_owned(),
            None => DEFAULT_BASE.to_owned(),
        };
        let mut s = TranslationState::new(base, rdf_star);
        s.scope.skip_write_clauses = skip_writes;
        Ok(s)
    }

    /// What comes of a translation whose pattern has been written as SPARQL.
    pub fn end(&self, sparql: String) -> (r: TranslationResult)
        ensures
            r.sparql@ == sparql@,
            columns_of(r.schema.columns@) == columns_of(self.projected_columns@),
            r.schema.distinct == self.return_distinct,
            r.schema.base_iri@ == self.scope.base_iri@,
            r.schema.rdf_star == self.scope.rdf_star,
    {
        let schema = self.build_schema(self.scope.base_iri.clone(), self.scope.rdf_star);
        TranslationResult { sparql, schema }
    }
}

// ── UNION ────────────────────────────────────────────────────────────────────

/// The clauses up to the `k`th, parted at `UNION`.
pub open spec fn arms_of(clauses: Seq<m::Clause>, k: int) -> Seq<Seq<m::Clause>>
    decreases k,
{
    if k <= 0 {
        seq![seq![]]
    } else {
        let before = arms_of(clauses, k - 1);
        if clauses[k - 1] is Union {
            before.push(seq![])
        } else {
            before.drop_last().push(before.last().push(clauses[k - 1]))
        }
    }
}

/// For each `UNION` up to the `k`th clause, whether it keeps duplicates.
pub open spec fn flags_of(clauses: Seq<m::Clause>, k: int) -> Seq<bool>
    decreases k,
{
    if k <= 0 {
        seq![]
    } else {
        match clauses[k - 1] {
            m::Clause::Union { all } => flags_of(clauses, k - 1).push(all),
            _ => flags_of(clauses, k - 1),
        }
    }
}

/// The model of a list of lists of clauses.
pub open spec fn lists_of(s: Seq<Vec<Clause>>) -> Seq<Seq<m::Clause>> {
    Seq::new(s.len(), |i: int| m::clauses_of(s[i]@))
}

proof fn lemma_arms_len(clauses: Seq<m::Clause>, k: int)
    requires
        0 <= k,
    ensures
        arms_of(clauses, k).len() == flags_of(clauses, k).len() + 1,
    decreases k,
{
    if k > 0 {
        lemma_arms_len(clauses, k - 1);
    }
}

/// The parts of a query between its `UNION`s, and which of those keep
/// duplicates.
pub fn split_union(clauses: &Vec<Clause>) -> (r: (Vec<Vec<Clause>>, Vec<bool>))
    ensures
        lists_of(r.0@) == arms_of(m::clauses_of(clauses@), clauses@.len() as int),
        r.1@ == flags_of(m::clauses_of(clauses@), clauses@.len() as int),
        r.0@.len() == r.1@.len() + 1,
{
    let ghost cs = m::clauses_of(clauses@);
    proof {
        m::lemma_clauses_of(clauses@);
    }
    let mut done: Vec<Vec<Clause>> = Vec::new();
    let mut flags: Vec<bool> = Vec::new();
    let mut current: Vec<Clause> = Vec::new();
    assert(lists_of(done@).push(m::clauses_of(current@)) =~= seq![seq![]]);
    for i in 0..clauses.len()
        invariant
            cs == m::clauses_of(clauses@),
            cs.len() == clauses@.len(),
            forall|k: int|
                0 <= k < clauses@.len() ==> #[trigger] cs[k] == m::clause_of(clauses@[k]),
            lists_of(done@).push(m::clauses_of(current@)) == arms_of(cs, i as int),
            flags@ == flags_of(cs, i as int),
    {
        let ghost here = cs[i as int];
        let ghost before = arms_of(cs, i as int);
        let ghost old_done = done@;
        assert(before.last() == m::clauses_of(current@));
        assert(before.drop_last() =~= lists_of(done@));
        if let Clause::Union { all } = &clauses[i] {
            let ghost arm = m::clauses_of(current@);
            done.push(current);
            flags.push(*all);
            current = Vec::new();
            assert(m::clauses_of(current@) =~= seq![]);
            assert(lists_of(done@) =~= lists_of(old_done).push(arm));
        } else {
            let c = clone_clause(&clauses[i]);
            proof {
                m::lemma_push_clauses_of(current@, c);
            }
            current.push(c);
        }
    }
    let ghost old_done = done@;
    let ghost arm = m::clauses_of(current@);
    done.push(current);
    assert(lists_of(done@) =~= lists_of(old_done).push(arm));
    proof {
        lemma_arms_len(cs, cs.len() as int);
    }
    (done, flags)
}

/// The model of a list of patterns.
pub open spec fn patterns_of(s: Seq<sparql::GraphPattern>) -> Seq<g::GraphPattern> {
    Seq::new(s.len(), |i: int| g::graph_pattern_of(s[i]))
}

/// The rows of the first `k` patterns together.
pub open spec fn united(arms: Seq<g::GraphPattern>, k: int) -> g::GraphPattern
    decreases k,
{
    if k <= 1 {
        arms[0]
    } else {
        g::GraphPattern::Union {
            left: Box::new(united(arms, k - 1)),
            right: Box::new(arms[k - 1]),
        }
    }
}

/// The rows of all patterns together; each once, where the last `UNION` does
/// not keep duplicates.
pub open spec fn combined(arms: Seq<g::GraphPattern>, flags: Seq<bool>) -> g::GraphPattern {
    if flags.len() > 0 && !flags.last() {
        g::GraphPattern::Distinct { inner: Box::new(united(arms, arms.len() as int)) }
    } else {
        united(arms, arms.len() as int)
    }
}

/// Puts the translations of the parts between `UNION`s together.
pub fn combine_union(arms: Vec<sparql::GraphPattern>, flags: &Vec<bool>) -> (r:
    sparql::GraphPattern)
    requires
        arms@.len() == flags@.len() + 1,
    ensures
        g::graph_pattern_of(r) == combined(patterns_of(arms@), flags@),
{
    let ghost ps = patterns_of(arms@);
    let mut arms = arms;
    let mut right: Vec<sparql::GraphPattern> = Vec::new();
    let ghost all = arms@;
    while arms.len() > 1
        invariant
            1 <= arms@.len() <= all.len(),
            all.len() == arms@.len() + right@.len(),
            forall|k: int| 0 <= k < arms@.len() ==> #[trigger] arms@[k] == all[k],
            forall|k: int|
                0 <= k < right@.len() ==> #[trigger] right@[k] == all[all.len() - 1 - k],
        decreases arms@.len(),
    {
        if let Some(p) = arms.pop() {
            right.push(p);
        }
    }
    let mut r = match arms.pop() {
        Some(p) => p,
        None => sparql::GraphPattern::Bgp { patterns: Vec::new() },
    };
    assert(g::graph_pattern_of(r) == ps[0]);
    while right.len() > 0
        invariant
            all.len() == flags@.len() + 1,
            right@.len() < all.len(),
            ps == patterns_of(all),
            forall|k: int|
                0 <= k < right@.len() ==> #[trigger] right@[k] == all[all.len() - 1 - k],
            g::graph_pattern_of(r) == united(ps, all.len() - right@.len()),
        decreases right@.len(),
    {
        let ghost n = all.len() - right@.len();
        if let Some(p) = right.pop() {
            assert(g::graph_pattern_of(p) == ps[n]);
            r = sparql::GraphPattern::Union { left: Box::new(r), right: Box::new(p) };
        }
    }
    let n = flags.len();
    if n > 0 && !flags[n - 1] {
        sparql::GraphPattern::Distinct { inner: Box::new(r) }
    } else {
        r
    }
}

// ── The plan ─────────────────────────────────────────────────────────────────

/// How a query is to be translated.
#[derive(Debug)]
pub enum Plan {
    /// The parts between its `UNION`s, each of which goes clause by clause
    /// through the same state, and which of the `UNION`s keep duplicates
    Union(Vec<Vec<Clause>>, Vec<bool>),
    /// As a pattern that is known already
    Known(sparql::GraphPattern),
    /// Clause by clause
    Clauses,
}

/// The model of a [`Plan`].
pub ghost enum PlanModel {
    Union(Seq<Seq<m::Clause>>, Seq<bool>),
    Known(g::GraphPattern),
    Clauses,
}

pub open spec fn plan_of(p: Plan) -> PlanModel {
    match p {
        Plan::Union(arms, flags) => PlanModel::Union(lists_of(arms@), flags@),
        Plan::Known(g) => PlanModel::Known(g::graph_pattern_of(g)),
        Plan::Clauses => PlanModel::Clauses,
    }
}

pub open spec fn has_union(clauses: Seq<Clause>) -> bool {
    exists|i: int| 0 <= i < clauses.len() && (#[trigger] clauses[i]) is Union
}

/// A query with `UNION` is taken apart. Another whose result the smallest or
/// largest of known values decide, or the laws of quantifiers, is known.
pub open spec fn planned(clauses: Seq<Clause>) -> PlanModel {
    if has_union(clauses) {
        PlanModel::Union(
            arms_of(m::clauses_of(clauses), clauses.len() as int),
            flags_of(m::clauses_of(clauses), clauses.len() as int),
        )
    } else {
        match minmax_fold(clauses) {
            Some(p) => PlanModel::Known(p),
            None => match law_fold(clauses) {
                Some(p) => PlanModel::Known(p),
                None => PlanModel::Clauses,
            },
        }
    }
}

/// The columns that the plan leaves.
pub open spec fn planned_columns(
    clauses: Seq<Clause>,
    before: Seq<(Seq<char>, Kind)>,
) -> Seq<(Seq<char>, Kind)> {
    if has_union(clauses) {
        before
    } else if minmax_fold(clauses) is Some || law_row(clauses) is None {
        before + minmax_columns(clauses)
    } else {
        row_columns(law_row(clauses).unwrap())
    }
}

fn find_union(clauses: &Vec<Clause>) -> (r: bool)
    ensures
        r == has_union(clauses@),
{
    #[verifier::loop_isolation(false)]
    for i in 0..clauses.len()
        invariant
            forall|k: int| 0 <= k < i ==> !((#[trigger] clauses@[k]) is Union),
    {
        if let Clause::Union { all: _ } = &clauses[i] {
            return true;
        }
    }
    false
}

impl TranslationState {
    /// Decides how a query is to be translated. The clauses have been prepared:
    /// where one collects into a list that the next unwinds again, the caller has
    /// taken both out.
    pub fn translate_query(&mut self, clauses: &Vec<Clause>) -> (r: Plan)
        ensures
            plan_of(r) == planned(clauses@),
            *final(self) == (TranslationState {
                projected_columns: final(self).projected_columns,
                ..*old(self)
            }),
            columns_of(final(self).projected_columns@) == planned_columns(
                clauses@,
                columns_of(old(self).projected_columns@),
            ),
    {
        if find_union(clauses) {
            let (arms, flags) = split_union(clauses);
            return Plan::Union(arms, flags);
        }
        if let Some(p) = self.try_fold_minmax_aggregate(clauses) {
            return Plan::Known(p);
        }
        if let Some(p) = self.try_fold_quantifier_invariants(clauses) {
            return Plan::Known(p);
        }
        Plan::Clauses
    }
}

} // verus!
