//! That no relationship is matched twice in one pattern.
use vstd::prelude::*;

use crate::lqa::write::literals::RDF_TYPE;
use crate::sparql::algebra as sparql;
#[allow(unused_imports)]
use crate::sparql::model as g;
use crate::text::same_text;
use crate::translator::expr::parts::{
    make_and, make_equal, make_not, make_or, named_node_to_sparexpr, term_to_sparexpr,
};
#[allow(unused_imports)]
use crate::translator::expr::parts::{and, equal, not, or, predicate_expr, term_expr};
use crate::translator::state::TranslationState;

verus! {

/// A triple that a relationship may stand for.
pub type Slot = (sparql::Term, sparql::Predicate, sparql::Term);

/// The model of a [`Slot`].
pub ghost struct Triple {
    pub subject: g::Term,
    pub predicate: g::Predicate,
    pub object: g::Term,
}

pub open spec fn slot_of(s: Slot) -> Triple {
    Triple {
        subject: g::term_of(s.0),
        predicate: g::predicate_of(s.1),
        object: g::term_of(s.2),
    }
}

pub open spec fn slots_of(s: Seq<Slot>) -> Seq<Triple> {
    Seq::new(s.len(), |i: int| slot_of(s[i]))
}

pub open spec fn hops_of(s: Seq<Vec<Slot>>) -> Seq<Seq<Triple>> {
    Seq::new(s.len(), |i: int| slots_of(s[i]@))
}

/// Whether two triples have types that are both fixed, and different.
pub open spec fn are_apart(a: Triple, b: Triple) -> bool {
    match (a.predicate, b.predicate) {
        (g::Predicate::NamedNode(x), g::Predicate::NamedNode(y)) => x != y,
        _ => false,
    }
}

/// That two triples are not the same.
pub open spec fn differ(a: Triple, b: Triple) -> g::Expr {
    or(
        not(equal(term_expr(a.subject), term_expr(b.subject))),
        or(
            not(equal(predicate_expr(a.predicate), predicate_expr(b.predicate))),
            not(equal(term_expr(a.object), term_expr(b.object))),
        ),
    )
}

/// A condition, after the ones before it.
pub open spec fn with_condition(before: Option<g::Expr>, e: g::Expr) -> Option<g::Expr> {
    match before {
        Some(x) => Some(and(x, e)),
        None => Some(e),
    }
}

/// That a triple is none of the first `k` of a relationship.
pub open spec fn apart_from(before: Option<g::Expr>, a: Triple, hop: Seq<Triple>, k: int) -> Option<
    g::Expr,
>
    decreases k,
{
    if k <= 0 {
        before
    } else if are_apart(a, hop[k - 1]) {
        apart_from(before, a, hop, k - 1)
    } else {
        with_condition(apart_from(before, a, hop, k - 1), differ(a, hop[k - 1]))
    }
}

/// That the first `k` triples of a relationship are none of another; nothing
/// where that is so of itself.
pub open spec fn hops_differ(a: Seq<Triple>, k: int, b: Seq<Triple>) -> Option<g::Expr>
    decreases k,
{
    if k <= 0 {
        None
    } else {
        apart_from(hops_differ(a, k - 1, b), a[k - 1], b, b.len() as int)
    }
}

/// The conditions, with one more where there is one.
pub open spec fn with_some(v: Seq<g::Expr>, e: Option<g::Expr>) -> Seq<g::Expr> {
    match e {
        Some(x) => v.push(x),
        None => v,
    }
}

/// That the `i`th relationship differs from those after it and before the `k`th.
pub open spec fn filters_of(hops: Seq<Seq<Triple>>, i: int, k: int) -> Seq<g::Expr>
    decreases k - i,
{
    if k <= i + 1 {
        seq![]
    } else {
        with_some(
            filters_of(hops, i, k - 1),
            hops_differ(hops[i], hops[i].len() as int, hops[k - 1]),
        )
    }
}

/// That each of the first `k` relationships differs from those after it.
pub open spec fn all_filters(hops: Seq<Seq<Triple>>, k: int) -> Seq<g::Expr>
    decreases k,
{
    if k <= 0 {
        seq![]
    } else {
        all_filters(hops, k - 1) + filters_of(hops, k - 1, hops.len() as int)
    }
}

fn look_apart(a: &Slot, b: &Slot) -> (r: bool)
    ensures
        r == are_apart(slot_of(*a), slot_of(*b)),
{
    match (&a.1, &b.1) {
        (sparql::Predicate::NamedNode(x), sparql::Predicate::NamedNode(y)) => !same_text(
            x.as_str(),
            y.as_str(),
        ),
        _ => false,
    }
}

fn make_differ(a: &Slot, b: &Slot) -> (r: sparql::Expr)
    ensures
        g::expr_of(r) == differ(slot_of(*a), slot_of(*b)),
{
    make_or(
        make_not(make_equal(term_to_sparexpr(&a.0), term_to_sparexpr(&b.0))),
        make_or(
            make_not(make_equal(named_node_to_sparexpr(&a.1), named_node_to_sparexpr(&b.1))),
            make_not(make_equal(term_to_sparexpr(&a.2), term_to_sparexpr(&b.2))),
        ),
    )
}

fn make_hops_differ(a: &Vec<Slot>, b: &Vec<Slot>) -> (r: Option<sparql::Expr>)
    ensures
        g::opt_expr(r) == hops_differ(slots_of(a@), a@.len() as int, slots_of(b@)),
{
    let ghost x = slots_of(a@);
    let ghost y = slots_of(b@);
    let mut r: Option<sparql::Expr> = None;
    assert(g::opt_expr(r) is None);
    #[verifier::loop_isolation(false)]
    for i in 0..a.len()
        invariant
            g::opt_expr(r) == hops_differ(x, i as int, y),
    {
        let ghost before = g::opt_expr(r);
        assert(slot_of(a@[i as int]) == x[i as int]);
        #[verifier::loop_isolation(false)]
        for j in 0..b.len()
            invariant
                g::opt_expr(r) == apart_from(before, x[i as int], y, j as int),
        {
            assert(slot_of(b@[j as int]) == y[j as int]);
            if !look_apart(&a[i], &b[j]) {
                let e = make_differ(&a[i], &b[j]);
                r =
                match r {
                    Some(x) => Some(make_and(x, e)),
                    None => Some(e),
                };
            }
        }
        assert(g::opt_expr(r) == hops_differ(x, i + 1, y));
    }
    r
}

impl TranslationState {
    /// The `rdf:type` predicate.
    pub fn rdf_type(&self) -> (r: String)
        ensures
            r@ == RDF_TYPE@,
    {
        RDF_TYPE.to_owned()
    }

    /// Keeps the triples that a relationship may stand for.
    pub fn track_iso_hop(&mut self, instances: Vec<Slot>)
        ensures
            *final(self) == (TranslationState { iso_hops: final(self).iso_hops, ..*old(self) }),
            final(self).iso_hops@ == (if instances@.len() == 0 {
                old(self).iso_hops@
            } else {
                old(self).iso_hops@.push(instances)
            }),
    {
        if instances.len() != 0 {
            self.iso_hops.push(instances);
        }
    }

    /// The conditions that keep every two relationships apart.
    pub fn generate_iso_filters(&self) -> (r: Vec<sparql::Expr>)
        ensures
            g::exprs_of(r@) == all_filters(
                hops_of(self.iso_hops@),
                self.iso_hops@.len() as int,
            ),
    {
        let ghost hops = hops_of(self.iso_hops@);
        let n = self.iso_hops.len();
        let mut r: Vec<sparql::Expr> = Vec::new();
        assert(g::exprs_of(r@) =~= seq![]);
        for i in 0..n
            invariant
                n == self.iso_hops@.len(),
                hops == hops_of(self.iso_hops@),
                g::exprs_of(r@) == all_filters(hops, i as int),
        {
            push_filters(&self.iso_hops, i, &mut r);
        }
        r
    }
}

/// Adds the conditions that keep a relationship apart from those after it.
fn push_filters(iso_hops: &Vec<Vec<Slot>>, i: usize, r: &mut Vec<sparql::Expr>)
    requires
        i < iso_hops@.len(),
    ensures
        g::exprs_of(final(r)@) == g::exprs_of(old(r)@) + filters_of(
            hops_of(iso_hops@),
            i as int,
            iso_hops@.len() as int,
        ),
{
    let ghost hops = hops_of(iso_hops@);
    let ghost before = g::exprs_of(r@);
    let n = iso_hops.len();
    assert(before + filters_of(hops, i as int, i + 1) =~= before);
    for j in i + 1..n
        invariant
            i < n,
            i + 1 <= j,
            n == iso_hops@.len(),
            hops == hops_of(iso_hops@),
            g::exprs_of(r@) == before + filters_of(hops, i as int, j as int),
    {
        let ghost so_far = filters_of(hops, i as int, j as int);
        let found = make_hops_differ(&iso_hops[i], &iso_hops[j]);
        assert(hops[i as int] == slots_of(iso_hops@[i as int]@));
        assert(hops[j as int] == slots_of(iso_hops@[j as int]@));
        assert(filters_of(hops, i as int, j + 1) == with_some(so_far, g::opt_expr(found)));
        match found {
            Some(e) => {
                proof {
                    g::lemma_push_exprs(r@, e);
                    assert(before + so_far.push(g::expr_of(e)) =~= (before + so_far).push(
                        g::expr_of(e),
                    ));
                }
                r.push(e);
            },
            None => {},
        }
    }
}

} // verus!
