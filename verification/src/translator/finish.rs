//! What is done to a pattern after the expressions of a clause.
use vstd::prelude::*;

use crate::ast::cypher::{Expression, Literal, OrderByClause, SortItem};
#[allow(unused_imports)]
use crate::ast::model as m;
use crate::error::PolygraphError;
use crate::sparql::algebra as sparql;
use crate::sparql::copy::{clone_expr, clone_graph_pattern};
#[allow(unused_imports)]
use crate::sparql::model as g;
#[allow(unused_imports)]
use crate::text::texts;
use crate::translator::count::try_eval_to_usize;
#[allow(unused_imports)]
use crate::translator::count::{opt_size, row_count};
use crate::translator::expr::collect::add_optional;
use crate::translator::expr::meaning as w;
use crate::translator::expr::parts::make_var;
#[allow(unused_imports)]
use crate::translator::expr::parts::var;
use crate::translator::expr::walk::translate_expr;
#[allow(unused_imports)]
use crate::translator::expr::walk::{expr_result, is_done};
use crate::translator::refusal::unsupported_feature;
#[allow(unused_imports)]
use crate::translator::refusal::{refusal_of, Refusal};
#[allow(unused_imports)]
use crate::translator::scope::{out_of, subqueries_of, GivenWhole, Out};
use crate::translator::scope::{Output, Scope};
use crate::translator::state::TranslationState;

verus! {

// ── What has been left to do ─────────────────────────────────────────────────

/// A pattern with the first `k` values bound to their variables.
pub open spec fn with_binds(
    p: g::GraphPattern,
    targets: Seq<Seq<char>>,
    checks: Seq<g::Expr>,
    k: int,
) -> g::GraphPattern
    decreases k,
{
    if k <= 0 {
        p
    } else {
        g::GraphPattern::Extend {
            inner: Box::new(with_binds(p, targets, checks, k - 1)),
            variable: targets[k - 1],
            expression: checks[k - 1],
        }
    }
}

/// A pattern with the first `k` subqueries joined to it, whether or not they
/// have a match.
pub open spec fn with_subqueries(
    p: g::GraphPattern,
    subqueries: Seq<(Seq<char>, g::GraphPattern)>,
    k: int,
) -> g::GraphPattern
    decreases k,
{
    if k <= 0 {
        p
    } else {
        g::GraphPattern::LeftJoin {
            left: Box::new(with_subqueries(p, subqueries, k - 1)),
            right: Box::new(subqueries[k - 1].1),
            expression: None,
        }
    }
}

pub open spec fn shorter(a: int, b: int) -> int {
    if a <= b {
        a
    } else {
        b
    }
}

impl Output {
    /// Binds the values that were left to bind. This comes before a filter that
    /// reads them.
    pub fn apply_pending_binds(&mut self, pattern: sparql::GraphPattern) -> (r:
        sparql::GraphPattern)
        ensures
            ({
                let o = out_of(*old(self), seq![]);
                &&& g::graph_pattern_of(r) == with_binds(
                    g::graph_pattern_of(pattern),
                    o.targets,
                    o.checks,
                    shorter(o.targets.len() as int, o.checks.len() as int),
                )
                &&& out_of(*final(self), seq![]) == (Out { targets: seq![], checks: seq![], ..o })
            }),
    {
        let ghost first = g::graph_pattern_of(pattern);
        let ghost targets = texts(self.pending_bind_targets@);
        let ghost checks = g::exprs_of(self.pending_bind_checks@);
        let n = if self.pending_bind_targets.len() <= self.pending_bind_checks.len() {
            self.pending_bind_targets.len()
        } else {
            self.pending_bind_checks.len()
        };
        let mut r = pattern;
        #[verifier::loop_isolation(false)]
        for i in 0..n
            invariant
                g::graph_pattern_of(r) == with_binds(first, targets, checks, i as int),
        {
            assert(checks[i as int] == g::expr_of(self.pending_bind_checks@[i as int]));
            assert(targets[i as int] == self.pending_bind_targets@[i as int]@);
            r =
            sparql::GraphPattern::Extend {
                inner: Box::new(r),
                variable: self.pending_bind_targets[i].clone(),
                expression: clone_expr(&self.pending_bind_checks[i]),
            };
        }
        self.pending_bind_targets = Vec::new();
        self.pending_bind_checks = Vec::new();
        assert(texts(self.pending_bind_targets@) =~= seq![]);
        assert(g::exprs_of(self.pending_bind_checks@) =~= seq![]);
        r
    }

    /// Joins the subqueries that were left to join.
    pub fn drain_pending_subqueries(&mut self, pattern: sparql::GraphPattern) -> (r:
        sparql::GraphPattern)
        ensures
            ({
                let o = out_of(*old(self), seq![]);
                &&& g::graph_pattern_of(r) == with_subqueries(
                    g::graph_pattern_of(pattern),
                    o.subqueries,
                    o.subqueries.len() as int,
                )
                &&& out_of(*final(self), seq![]) == (Out { subqueries: seq![], ..o })
            }),
    {
        let ghost first = g::graph_pattern_of(pattern);
        let ghost subqueries = subqueries_of(self.pending_subqueries@);
        let mut r = pattern;
        #[verifier::loop_isolation(false)]
        for i in 0..self.pending_subqueries.len()
            invariant
                g::graph_pattern_of(r) == with_subqueries(first, subqueries, i as int),
        {
            let right = clone_graph_pattern(&self.pending_subqueries[i].1);
            assert(subqueries[i as int].1 == g::graph_pattern_of(right));
            let expression: Option<sparql::Expr> = None;
            assert(g::opt_expr(expression) is None);
            r =
            sparql::GraphPattern::LeftJoin {
                left: Box::new(r),
                right: Box::new(right),
                expression,
            };
        }
        self.pending_subqueries = Vec::new();
        assert(subqueries_of(self.pending_subqueries@) =~= seq![]);
        r
    }
}

// ── ORDER BY, SKIP and LIMIT ─────────────────────────────────────────────────

/// The key that an item sorts by: the column of sort keys where a variable has
/// one.
pub open spec fn sort_value(e: m::Expression, s: Scope, o: Out) -> w::Done {
    match e {
        m::Expression::Variable(v) => if s.list_sort_key_vars@.contains_key(v) {
            w::done(o, var(s.list_sort_key_vars@[v]))
        } else {
            w::translation(e, s, o)
        },
        _ => w::translation(e, s, o),
    }
}

pub open spec fn directed(descending: bool, e: g::Expr) -> g::OrderExpression {
    if descending {
        g::OrderExpression::Desc(e)
    } else {
        g::OrderExpression::Asc(e)
    }
}

pub ghost struct Sorted {
    pub out: Out,
    pub result: Result<Seq<g::OrderExpression>, Refusal>,
}

pub ghost struct SortKey {
    pub out: Out,
    pub result: Result<g::OrderExpression, Refusal>,
}

/// The key of an item, and the way it sorts.
#[verifier::opaque]
pub open spec fn sort_key(item: m::SortItem, s: Scope, o: Out) -> SortKey {
    let here = sort_value(item.expression, s, o);
    SortKey {
        out: here.out,
        result: match here.result {
            Err(x) => Err(x),
            Ok(e) => Ok(directed(item.descending, e)),
        },
    }
}

/// The keys, with one more.
pub open spec fn next_keys(
    v: Seq<g::OrderExpression>,
    e: Result<g::OrderExpression, Refusal>,
) -> Result<Seq<g::OrderExpression>, Refusal> {
    match e {
        Err(x) => Err(x),
        Ok(e) => Ok(v.push(e)),
    }
}

/// The keys of the first `k` items.
pub open spec fn sort_keys(items: Seq<m::SortItem>, k: int, s: Scope, o: Out) -> Sorted
    decreases k,
{
    if k <= 0 {
        Sorted { out: o, result: Ok(seq![]) }
    } else {
        let before = sort_keys(items, k - 1, s, o);
        match before.result {
            Err(x) => before,
            Ok(v) => {
                let here = sort_key(items[k - 1], s, before.out);
                Sorted { out: here.out, result: next_keys(v, here.result) }
            },
        }
    }
}

pub ghost struct Shaped {
    pub out: Out,
    pub result: Result<g::GraphPattern, Refusal>,
}

/// A pattern in the order that was asked for. The properties that the keys read
/// are joined to it first; rows without them stay.
pub open spec fn ordered(
    p: g::GraphPattern,
    order: Option<m::OrderByClause>,
    s: Scope,
    o: Out,
) -> Shaped {
    match order {
        None => Shaped { out: o, result: Ok(p) },
        Some(by) => {
            let keys = sort_keys(
                by.items,
                by.items.len() as int,
                s,
                Out { extra: seq![], ..o },
            );
            Shaped {
                out: Out { extra: o.extra, ..keys.out },
                result: match keys.result {
                    Err(x) => Err(x),
                    Ok(v) => Ok(
                        g::GraphPattern::OrderBy {
                            inner: Box::new(
                                w::with_optional(
                                    p,
                                    keys.out.extra,
                                    keys.out.extra.len() as int,
                                ),
                            ),
                            expression: v,
                        },
                    ),
                },
            }
        },
    }
}

/// The number that `SKIP` or `LIMIT` gives; a literal is taken as it stands.
pub open spec fn bound_of(e: m::Expression, given: Seq<GivenWhole>) -> Option<int> {
    match e {
        m::Expression::Literal(m::Literal::Integer(n)) => Some((n as usize) as int),
        _ => row_count(e, given),
    }
}

/// A part of the rows of a pattern, where one was asked for.
pub open spec fn sliced(p: g::GraphPattern, start: int, length: Option<int>) -> g::GraphPattern {
    if start > 0 || length is Some {
        g::GraphPattern::Slice {
            inner: Box::new(p),
            start: start as usize,
            length: match length {
                Some(n) => Some(n as usize),
                None => None,
            },
        }
    } else {
        p
    }
}

/// A pattern after `ORDER BY`, `SKIP` and `LIMIT`.
pub open spec fn shaped(
    p: g::GraphPattern,
    order: Option<m::OrderByClause>,
    skip: Option<m::Expression>,
    limit: Option<m::Expression>,
    s: Scope,
    o: Out,
) -> Shaped {
    let x = ordered(p, order, s, o);
    match x.result {
        Err(r) => x,
        Ok(q) => {
            let start = match skip {
                Some(e) => bound_of(e, s.given_wholes@),
                None => Some(0),
            };
            let length = match limit {
                Some(e) => bound_of(e, s.given_wholes@),
                None => None,
            };
            if start is None {
                Shaped {
                    out: x.out,
                    result: Err(Refusal::Unsupported("non-integer SKIP expression"@)),
                }
            } else if limit is Some && length is None {
                Shaped {
                    out: x.out,
                    result: Err(Refusal::Unsupported("non-integer LIMIT expression"@)),
                }
            } else {
                Shaped { out: x.out, result: Ok(sliced(q, start.unwrap(), length)) }
            }
        },
    }
}

pub open spec fn key_result(r: Result<sparql::OrderExpression, PolygraphError>) -> Result<
    g::OrderExpression,
    Refusal,
> {
    match r {
        Ok(e) => Ok(g::order_expression_of(e)),
        Err(e) => Err(refusal_of(e)),
    }
}

pub open spec fn keys_result(r: Result<Vec<sparql::OrderExpression>, PolygraphError>) -> Result<
    Seq<g::OrderExpression>,
    Refusal,
> {
    match r {
        Ok(v) => Ok(g::order_of(v@)),
        Err(e) => Err(refusal_of(e)),
    }
}

pub open spec fn pattern_result(r: Result<sparql::GraphPattern, PolygraphError>) -> Result<
    g::GraphPattern,
    Refusal,
> {
    match r {
        Ok(p) => Ok(g::graph_pattern_of(p)),
        Err(e) => Err(refusal_of(e)),
    }
}

fn find_bound(e: &Expression, given: &Vec<GivenWhole>) -> (r: Option<usize>)
    ensures
        opt_size(r) == bound_of(m::expression_of(*e), given@),
{
    match e {
        Expression::Literal(Literal::Integer(n)) => Some(
            #[verifier::truncate]
            (*n as usize),
        ),
        _ => try_eval_to_usize(e, given),
    }
}

fn translate_sort_value(
    e: &Expression,
    s: &Scope,
    out: &mut Output,
    extra: &mut Vec<sparql::TriplePattern>,
) -> (r: Result<sparql::Expr, PolygraphError>)
    ensures
        is_done(
            sort_value(
                m::expression_of(*e),
                *s,
                out_of(*old(out), old(extra)@),
            ),
            *final(out),
            final(extra)@,
            r,
        ),
{
    if let Expression::Variable(v) = e {
        if let Some(k) = s.list_sort_key_vars.get(v.as_str()) {
            return Ok(make_var(k.clone()));
        }
    }
    translate_expr(e, s, out, extra)
}

fn translate_sort_key(
    item: &SortItem,
    s: &Scope,
    out: &mut Output,
    extra: &mut Vec<sparql::TriplePattern>,
) -> (r: Result<sparql::OrderExpression, PolygraphError>)
    ensures
        sort_key(
            m::sort_item_of(*item),
            *s,
            out_of(*old(out), old(extra)@),
        ) == (SortKey {
            out: out_of(*final(out), final(extra)@),
            result: key_result(r),
        }),
{
    let ghost o = out_of(*out, extra@);
    let found = translate_sort_value(&item.expression, s, out, extra);
    assert(m::sort_item_of(*item) == (m::SortItem {
        expression: m::expression_of(item.expression),
        descending: item.descending,
    }));
    let ghost value = sort_value(m::expression_of(item.expression), *s, o);
    assert(value.out == out_of(*out, extra@));
    assert(value.result == expr_result(found));
    reveal(sort_key);
    match found {
        Ok(e) => Ok(
            if item.descending {
                sparql::OrderExpression::Desc(e)
            } else {
                sparql::OrderExpression::Asc(e)
            },
        ),
        Err(x) => Err(x),
    }
}

fn translate_sort_keys(
    items: &Vec<SortItem>,
    k: usize,
    s: &Scope,
    out: &mut Output,
    extra: &mut Vec<sparql::TriplePattern>,
) -> (r: Result<Vec<sparql::OrderExpression>, PolygraphError>)
    requires
        k <= items@.len(),
    ensures
        sort_keys(
            m::sort_items_of(items@),
            k as int,
            *s,
            out_of(*old(out), old(extra)@),
        ) == (Sorted { out: out_of(*final(out), final(extra)@), result: keys_result(r) }),
    decreases k,
{
    if k == 0 {
        let v: Vec<sparql::OrderExpression> = Vec::new();
        assert(g::order_of(v@) =~= seq![]);
        return Ok(v);
    }
    let v = match translate_sort_keys(items, k - 1, s, out, extra) {
        Ok(v) => v,
        Err(x) => {
            return Err(x);
        },
    };
    proof {
        lemma_sort_item(items@, k as int);
    }
    let here = translate_sort_key(&items[k - 1], s, out, extra);
    push_key(v, here)
}

proof fn lemma_sort_item(items: Seq<SortItem>, k: int)
    requires
        0 < k <= items.len(),
    ensures
        m::sort_items_of(items)[k - 1] == m::sort_item_of(items[k - 1]),
{
    m::lemma_sort_items_of(items);
}

fn push_key(
    v: Vec<sparql::OrderExpression>,
    e: Result<sparql::OrderExpression, PolygraphError>,
) -> (r: Result<Vec<sparql::OrderExpression>, PolygraphError>)
    ensures
        keys_result(r) == next_keys(g::order_of(v@), key_result(e)),
{
    match e {
        Ok(e) => {
            let mut r = v;
            proof {
                g::lemma_push_order(v@, e);
            }
            r.push(e);
            Ok(r)
        },
        Err(x) => Err(x),
    }
}

#[verifier::spinoff_prover]
#[verifier::rlimit(40)]
fn translate_order(
    pattern: sparql::GraphPattern,
    order_by: &Option<OrderByClause>,
    s: &Scope,
    out: &mut Output,
) -> (r: Result<sparql::GraphPattern, PolygraphError>)
    ensures
        ordered(
            g::graph_pattern_of(pattern),
            m::opt_order_by(*order_by),
            *s,
            out_of(*old(out), seq![]),
        ) == (Shaped { out: out_of(*final(out), seq![]), result: pattern_result(r) }),
{
    assert(g::triples_of(Seq::<sparql::TriplePattern>::empty()) =~= seq![]);
    match order_by {
        None => Ok(pattern),
        Some(by) => {
            let mut own: Vec<sparql::TriplePattern> = Vec::new();
            assert(own@ =~= seq![]);
            assert(m::order_by_clause_of(*by).items == m::sort_items_of(by.items@));
            proof {
                m::lemma_sort_items_of(by.items@);
            }
            match translate_sort_keys(&by.items, by.items.len(), s, out, &mut own) {
                Err(x) => Err(x),
                Ok(v) => {
                    let inner = add_optional(pattern, &own);
                    Ok(sparql::GraphPattern::OrderBy { inner: Box::new(inner), expression: v })
                },
            }
        },
    }
}

impl TranslationState {
    /// Puts a pattern in order, and takes the rows that were asked for.
    pub fn apply_order_skip_limit(
        &mut self,
        pattern: sparql::GraphPattern,
        order_by: &Option<OrderByClause>,
        skip: &Option<Expression>,
        limit: &Option<Expression>,
    ) -> (r: Result<sparql::GraphPattern, PolygraphError>)
        ensures
            shaped(
                g::graph_pattern_of(pattern),
                m::opt_order_by(*order_by),
                m::opt_expr(*skip),
                m::opt_expr(*limit),
                old(self).scope,
                out_of(old(self).out, seq![]),
            ) == (Shaped { out: out_of(final(self).out, seq![]), result: pattern_result(r) }),
            *final(self) == (TranslationState { out: final(self).out, ..*old(self) }),
    {
        let inner = match translate_order(pattern, order_by, &self.scope, &mut self.out) {
            Ok(p) => p,
            Err(x) => {
                return Err(x);
            },
        };
        assert(m::opt_expr(*skip) is Some == (*skip is Some));
        assert(m::opt_expr(*limit) is Some == (*limit is Some));
        let start = match skip {
            None => 0usize,
            Some(e) => match find_bound(e, &self.scope.given_wholes) {
                Some(n) => n,
                None => {
                    return Err(unsupported_feature("non-integer SKIP expression"));
                },
            },
        };
        let length = match limit {
            None => None,
            Some(e) => match find_bound(e, &self.scope.given_wholes) {
                Some(n) => Some(n),
                None => {
                    return Err(unsupported_feature("non-integer LIMIT expression"));
                },
            },
        };
        if start > 0 || length.is_some() {
            Ok(sparql::GraphPattern::Slice { inner: Box::new(inner), start, length })
        } else {
            Ok(inner)
        }
    }
}

} // verus!
