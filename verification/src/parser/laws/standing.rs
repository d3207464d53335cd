//! What the clauses of a query say, by the text that they stand in.
use vstd::prelude::*;

#[allow(unused_imports)]
use crate::ast::model as m;
#[allow(unused_imports)]
use crate::parser::error::Built;
#[allow(unused_imports)]
use crate::parser::grammar::{body_of, is_token};
#[allow(unused_imports)]
use crate::parser::laws::keywords::{
    actions_behind, law_detach_is_read, law_merge_is_read, law_optional_is_read,
    law_return_distinct_is_read, law_sort_item_is_read, law_sort_item_is_written,
    law_union_is_read, law_with_distinct_is_read, lemma_lacks, lemma_one_sort_item, mentions,
    rule_at, says_descending,
};
#[allow(unused_imports)]
use crate::parser::laws::operators::{lemma_rule_of, like};
#[allow(unused_imports)]
use crate::parser::laws::places::{keyword_at, lemma_run, lemma_yields, split_called};
#[allow(unused_imports)]
use crate::parser::laws::{law_matches_stand_in_text, lemma_blank_end};
#[allow(unused_imports)]
use crate::parser::meaning::{
    alias_in, call_args_in, call_in, call_yields_in, child_expression_in, child_pattern_in,
    child_projection_in, clause_expression_in, clause_in, clauses_from, expression_in, match_in,
    merge_in, next_in, order_by_in, pattern_in, pattern_list_in, procedure_in, projection_in,
    return_in, sort_item_in, sort_items_from, statement_from, unwind_in, where_in, with_in,
};
#[allow(unused_imports)]
use crate::parser::peg::{blank_end, depth_for, larger, next_part, run, run_more, Peg, Step};
#[allow(unused_imports)]
use crate::parser::query::{parsed, whole_match};
#[allow(unused_imports)]
use crate::parser::tree::{at, holds, seen_from, Rule, Tree};

verus! {

// ── Nodes and their places ───────────────────────────────────────────────────

/// Whether a node is what its rule matches at a place.
pub open spec fn found_at(t: Tree, s: Seq<char>, i: int, gql: bool, d: nat) -> bool {
    let x = rule_at(t.rule, s, i, gql, d);
    x is Match && like(x->nodes[0], t)
}

/// Whether a node, and each node below it, is what its rule matches where the node
/// begins. Positions are counted from `base`.
pub open spec fn is_found(t: Tree, s: Seq<char>, base: int, gql: bool) -> bool
    decreases t,
{
    let i = base + t.start;
    &&& 0 <= i <= s.len()
    &&& exists|d: nat| #[trigger] found_at(t, s, i, gql, d)
    &&& all_found(t.children, s, i, gql)
}

pub open spec fn all_found(v: Seq<Tree>, s: Seq<char>, base: int, gql: bool) -> bool
    decreases v,
{
    forall|k: int| 0 <= k < v.len() ==> is_found(#[trigger] v[k], s, base, gql)
}

proof fn lemma_seen_found(v: Seq<Tree>, s: Seq<char>, i: int, gql: bool)
    requires
        all_found(v, s, 0, gql),
    ensures
        all_found(seen_from(v, i), s, i, gql),
{
    let w = seen_from(v, i);
    assert forall|k: int| 0 <= k < w.len() implies is_found(#[trigger] w[k], s, i, gql) by {
        assert(is_found(v[k], s, 0, gql));
        let d = choose|d: nat| #[trigger] found_at(v[k], s, v[k].start, gql, d);
        assert(found_at(w[k], s, v[k].start, gql, d));
    }
}

/// Whatever an expression matches, its nodes are what their rules match where they
/// begin.
pub proof fn law_nodes_are_found(p: Peg, s: Seq<char>, i: int, gql: bool, d: nat)
    requires
        0 <= i <= s.len(),
    ensures
        run(p, s, i, false, gql, d) matches Step::Match { end, nodes, far } ==> all_found(
            nodes,
            s,
            0,
            gql,
        ),
    decreases d, p, 0int,
{
    match p {
        Peg::Call(r) => {
            if d > 0 {
                let e = (d - 1) as nat;
                if !is_token(r) {
                    law_nodes_are_found(body_of(r, gql), s, i, gql, e);
                }
                if let Step::Match { end, nodes, far } = run(p, s, i, false, gql, d) {
                    let t = nodes[0];
                    if !is_token(r) {
                        let below = run(body_of(r, gql), s, i, false, gql, e)->nodes;
                        lemma_seen_found(below, s, i, gql);
                    }
                    assert(all_found(t.children, s, i, gql));
                    assert(found_at(t, s, i, gql, d));
                    assert(is_found(t, s, 0, gql));
                }
            }
        },
        Peg::Then(a, b) => {
            law_nodes_are_found(*a, s, i, gql, d);
            law_matches_stand_in_text(*a, s, i, false, gql, d);
            if let Step::Match { end, nodes, far } = run(*a, s, i, false, gql, d) {
                lemma_blank_end(s, end);
                law_nodes_are_found(*b, s, next_part(s, end, false), gql, d);
            }
        },
        Peg::Or(a, b) => {
            law_nodes_are_found(*a, s, i, gql, d);
            law_nodes_are_found(*b, s, i, gql, d);
        },
        Peg::Maybe(a) => {
            law_nodes_are_found(*a, s, i, gql, d);
        },
        Peg::Many(a) => {
            law_nodes_are_found(*a, s, i, gql, d);
            law_matches_stand_in_text(*a, s, i, false, gql, d);
            if let Step::Match { end, nodes, far } = run(*a, s, i, false, gql, d) {
                lemma_more_found(*a, s, end, nodes, far, gql, d);
            }
        },
        _ => {},
    }
}

proof fn lemma_more_found(
    p: Peg,
    s: Seq<char>,
    end: int,
    done: Seq<Tree>,
    f: int,
    gql: bool,
    d: nat,
)
    requires
        0 <= end <= s.len(),
        all_found(done, s, 0, gql),
    ensures
        run_more(p, s, end, done, f, false, gql, d) matches Step::Match { end: e, nodes, far }
            ==> all_found(nodes, s, 0, gql),
    decreases d, p, 1 + s.len() - end,
{
    if end < s.len() {
        let from = next_part(s, end, false);
        lemma_blank_end(s, end);
        law_nodes_are_found(p, s, from, gql, d);
        if let Step::Match { end: e, nodes, far } = run(p, s, from, false, gql, d) {
            if end < e <= s.len() {
                assert(all_found(done + nodes, s, 0, gql));
                lemma_more_found(p, s, e, done + nodes, larger(f, far), gql, d);
            }
        }
    }
}

// ── What does not depend on the place ────────────────────────────────────────

proof fn lemma_match_like(t: Tree, u: Tree, gql: bool)
    requires
        like(t, u),
    ensures
        match_in(t, gql) == match_in(u, gql),
{
    assert(pattern_list_in(t, gql) == pattern_list_in(u, gql));
    assert(where_in(t, gql) == where_in(u, gql)) by {
        assert(clause_expression_in(t, Rule::match_where, gql) == clause_expression_in(
            u,
            Rule::match_where,
            gql,
        ));
        assert(clause_expression_in(t, Rule::where_clause, gql) == clause_expression_in(
            u,
            Rule::where_clause,
            gql,
        ));
    }
}

proof fn lemma_return_like(t: Tree, u: Tree, gql: bool)
    requires
        like(t, u),
    ensures
        return_in(t, gql) == return_in(u, gql),
        with_in(t, gql) == with_in(u, gql),
{
    assert(order_by_in(t, gql) == order_by_in(u, gql));
    assert(clause_expression_in(t, Rule::skip_clause, gql) == clause_expression_in(
        u,
        Rule::skip_clause,
        gql,
    ));
    assert(clause_expression_in(t, Rule::limit_clause, gql) == clause_expression_in(
        u,
        Rule::limit_clause,
        gql,
    ));
    assert(clause_expression_in(t, Rule::where_clause, gql) == clause_expression_in(
        u,
        Rule::where_clause,
        gql,
    ));
    assert(child_projection_in(t, Rule::return_body, gql) == child_projection_in(
        u,
        Rule::return_body,
        gql,
    ));
    assert(child_projection_in(t, Rule::projection_body, gql) == child_projection_in(
        u,
        Rule::projection_body,
        gql,
    ));
}

proof fn lemma_other_like(t: Tree, u: Tree, gql: bool)
    requires
        like(t, u),
    ensures
        unwind_in(t, gql) == unwind_in(u, gql),
        merge_in(t, gql) == merge_in(u, gql),
        call_in(t, gql) == call_in(u, gql),
        next_in(t, gql) == next_in(u, gql),
        pattern_list_in(t, gql) == pattern_list_in(u, gql),
        child_expression_in(t, gql) == child_expression_in(u, gql),
{
    assert(child_expression_in(t, gql) == child_expression_in(u, gql));
    assert(child_pattern_in(t, gql) == child_pattern_in(u, gql));
    assert(call_args_in(t, gql) == call_args_in(u, gql));
    assert(call_yields_in(t, gql) == call_yields_in(u, gql));
    assert(procedure_in(t) == procedure_in(u));
    assert(alias_in(t) == alias_in(u));
}

/// What a clause says does not depend on where it is seen from.
proof fn lemma_clause_like(t: Tree, u: Tree, gql: bool)
    requires
        like(t, u),
    ensures
        clause_in(t, gql) == clause_in(u, gql),
{
    lemma_match_like(t, u, gql);
    lemma_return_like(t, u, gql);
    lemma_other_like(t, u, gql);
}

// ── Sort items ───────────────────────────────────────────────────────────────

/// Whether an expression stands at a place with the direction of a sort item behind
/// it.
pub open spec fn sorts_at(x: m::SortItem, s: Seq<char>, i: int, gql: bool, d: nat) -> bool {
    let e = rule_at(Rule::expression, s, i, gql, d);
    &&& e is Match
    &&& expression_in(e->nodes[0], gql) == Built::Ok(x.expression)
    &&& x.descending == says_descending(s, blank_end(s, e->Match_end), gql)
}

pub open spec fn sort_item_stands(x: m::SortItem, s: Seq<char>, gql: bool) -> bool {
    exists|i: int, d: nat| #[trigger] sorts_at(x, s, i, gql, d)
}

/// Whether each of several sort items stands in a text.
pub open spec fn sort_items_stand(v: Seq<m::SortItem>, s: Seq<char>, gql: bool) -> bool {
    forall|k: int| 0 <= k < v.len() ==> sort_item_stands(#[trigger] v[k], s, gql)
}

pub open spec fn order_stands(o: Option<m::OrderByClause>, s: Seq<char>, gql: bool) -> bool {
    o matches Some(c) ==> sort_items_stand(c.items, s, gql)
}

proof fn lemma_sort_item_like(t: Tree, u: Tree, gql: bool)
    requires
        like(t, u),
    ensures
        sort_item_in(t, gql) == sort_item_in(u, gql),
{
    assert(child_expression_in(t, gql) == child_expression_in(u, gql));
}

proof fn lemma_sort_item_stands(t: Tree, s: Seq<char>, base: int, gql: bool)
    requires
        is_found(t, s, base, gql),
        t.rule == Rule::sort_item,
    ensures
        sort_item_in(t, gql) matches Ok(x) ==> sort_item_stands(x, s, gql),
{
    let i = base + t.start;
    let d = choose|d: nat| #[trigger] found_at(t, s, i, gql, d);
    assert(found_at(t, s, i, gql, d));
    let y = rule_at(Rule::sort_item, s, i, gql, d);
    law_sort_item_is_written(s, i, gql, d);
    law_sort_item_is_read(s, i, gql, d);
    lemma_rule_of(Rule::sort_item, s, i, gql, d);
    lemma_one_sort_item(y->nodes, gql);
    lemma_sort_item_like(t, y->nodes[0], gql);
    if let Ok(x) = sort_item_in(t, gql) {
        assert(sort_items_from(y->nodes, 0, gql)->Ok_0[0] == x);
        assert(sorts_at(x, s, i, gql, (d - 1) as nat));
    }
}

proof fn lemma_sort_items_step(ch: Seq<Tree>, n: int, gql: bool)
    requires
        0 <= n < ch.len(),
    ensures
        sort_items_from(ch, n, gql) matches Ok(v) ==> (sort_items_from(
            ch,
            n + 1,
            gql,
        ) matches Ok(rest) && if ch[n].rule == Rule::sort_item {
            sort_item_in(ch[n], gql) matches Ok(x) && v == seq![x] + rest
        } else {
            v == rest
        }),
{
}

proof fn lemma_sort_items_stand(ch: Seq<Tree>, n: int, s: Seq<char>, base: int, gql: bool)
    requires
        all_found(ch, s, base, gql),
        0 <= n,
    ensures
        sort_items_from(ch, n, gql) matches Ok(v) ==> sort_items_stand(v, s, gql),
    decreases ch.len() - n,
{
    if n < ch.len() {
        lemma_sort_items_stand(ch, n + 1, s, base, gql);
        lemma_sort_items_step(ch, n, gql);
        assert(is_found(ch[n], s, base, gql));
        if ch[n].rule == Rule::sort_item {
            lemma_sort_item_stands(ch[n], s, base, gql);
            if sort_items_from(ch, n, gql) is Ok {
                let x = sort_item_in(ch[n], gql)->Ok_0;
                lemma_one_more(x, sort_items_from(ch, n + 1, gql)->Ok_0, s, gql);
            }
        }
    } else {
        assert(sort_items_from(ch, n, gql) == Built::Ok(Seq::<m::SortItem>::empty()));
    }
}

proof fn lemma_one_more(x: m::SortItem, rest: Seq<m::SortItem>, s: Seq<char>, gql: bool)
    requires
        sort_item_stands(x, s, gql),
        sort_items_stand(rest, s, gql),
    ensures
        sort_items_stand(seq![x] + rest, s, gql),
{
    let v = seq![x] + rest;
    assert forall|k: int| 0 <= k < v.len() implies sort_item_stands(#[trigger] v[k], s, gql) by {
        if k > 0 {
            assert(v[k] == rest[k - 1]);
        }
    }
}

proof fn lemma_order_stands(t: Tree, s: Seq<char>, base: int, gql: bool)
    requires
        is_found(t, s, base, gql),
    ensures
        order_by_in(t, gql) matches Ok(o) ==> order_stands(o, s, gql),
{
    let k = at(t, Rule::order_by_clause);
    if holds(t, k) {
        let i = base + t.start;
        let u = t.children[k];
        assert(is_found(u, s, i, gql));
        lemma_sort_items_stand(u.children, 0, s, i + u.start, gql);
    }
}

spec fn order_of(c: m::Clause) -> Option<m::OrderByClause> {
    match c {
        m::Clause::Return(x) => x.order_by,
        m::Clause::With(x) => x.order_by,
        _ => None,
    }
}

proof fn lemma_projection_order(t: Tree, gql: bool)
    ensures
        projection_in(t, gql) matches Ok(p) ==> order_by_in(t, gql) == Built::Ok(p.order_by),
{
}

proof fn lemma_return_order(t: Tree, gql: bool)
    requires
        t.rule == Rule::return_clause,
    ensures
        clause_in(t, gql) matches Ok(c) ==> if gql {
            order_by_in(t, gql) == Built::Ok(order_of(c))
        } else {
            child_projection_in(t, Rule::projection_body, gql) matches Ok(p) && p.order_by
                == order_of(c)
        },
{
}

proof fn lemma_with_order(t: Tree)
    requires
        t.rule == Rule::with_clause,
    ensures
        clause_in(t, false) matches Ok(c) ==> (child_projection_in(
            t,
            Rule::projection_body,
            false,
        ) matches Ok(p) && p.order_by == order_of(c)),
{
}

proof fn lemma_body_order(t: Tree, s: Seq<char>, base: int)
    requires
        is_found(t, s, base, false),
    ensures
        child_projection_in(t, Rule::projection_body, false) matches Ok(p) ==> order_stands(
            p.order_by,
            s,
            false,
        ),
{
    let k = at(t, Rule::projection_body);
    if holds(t, k) {
        let u = t.children[k];
        assert(is_found(u, s, base + t.start, false));
        lemma_order_stands(u, s, base + t.start, false);
        lemma_projection_order(u, false);
    }
}

/// The sort items of a `RETURN` stand in its text: each is an expression, and it
/// descends if `DESC` stands behind the expression, or `DESCENDING` in Cypher, and
/// only then.
pub proof fn law_order_of_return_is_read(s: Seq<char>, i: int, gql: bool, d: nat)
    requires
        0 <= i <= s.len(),
        rule_at(Rule::return_clause, s, i, gql, d) is Match,
    ensures
        clause_in(rule_at(Rule::return_clause, s, i, gql, d)->nodes[0], gql) matches Ok(c) ==> c
            is Return && order_stands(c->Return_0.order_by, s, gql),
{
    let t = rule_at(Rule::return_clause, s, i, gql, d)->nodes[0];
    law_nodes_are_found(Peg::Call(Rule::return_clause), s, i, gql, d);
    law_return_distinct_is_read(s, i, gql, d);
    lemma_rule_of(Rule::return_clause, s, i, gql, d);
    assert(is_found(t, s, 0, gql));
    lemma_return_order(t, gql);
    if gql {
        lemma_order_stands(t, s, 0, gql);
    } else {
        lemma_body_order(t, s, 0);
    }
}

/// The sort items of a `WITH` stand in its text.
pub proof fn law_order_of_with_is_read(s: Seq<char>, i: int, d: nat)
    requires
        0 <= i <= s.len(),
        rule_at(Rule::with_clause, s, i, false, d) is Match,
    ensures
        clause_in(rule_at(Rule::with_clause, s, i, false, d)->nodes[0], false) matches Ok(c) ==> c
            is With && order_stands(c->With_0.order_by, s, false),
{
    let t = rule_at(Rule::with_clause, s, i, false, d)->nodes[0];
    law_nodes_are_found(Peg::Call(Rule::with_clause), s, i, false, d);
    law_with_distinct_is_read(s, i, d);
    lemma_rule_of(Rule::with_clause, s, i, false, d);
    assert(is_found(t, s, 0, false));
    lemma_with_order(t);
    lemma_body_order(t, s, 0);
}

// ── Whole queries ────────────────────────────────────────────────────────────

/// Whether a clause says what stands at a place. A `MATCH` is optional with
/// `OPTIONAL` and a `DELETE` detaches with `DETACH`. A projection is distinct with
/// `DISTINCT` and sorts as its sort items say. A `MERGE` has the pattern and the
/// actions that stand behind it, each with its occasion. A `UNION` keeps all rows
/// with `ALL`.
pub open spec fn clause_reads(c: m::Clause, s: Seq<char>, i: int, gql: bool, d: nat) -> bool {
    match c {
        m::Clause::Match(x) => {
            &&& rule_at(Rule::match_clause, s, i, gql, d) is Match
            &&& x.optional == keyword_at(s, "OPTIONAL"@, i)
        },
        m::Clause::Delete(x) => {
            &&& rule_at(Rule::delete_clause, s, i, gql, d) is Match
            &&& x.detach == keyword_at(s, "DETACH"@, i)
        },
        m::Clause::Return(x) => {
            &&& keyword_at(s, "RETURN"@, i)
            &&& x.distinct == keyword_at(s, "DISTINCT"@, blank_end(s, i + 6))
            &&& order_stands(x.order_by, s, gql)
        },
        m::Clause::With(x) => !gql ==> {
            &&& keyword_at(s, "WITH"@, i)
            &&& x.distinct == keyword_at(s, "DISTINCT"@, blank_end(s, i + 4))
            &&& order_stands(x.order_by, s, gql)
        },
        m::Clause::Merge(x) => if gql {
            x.actions.len() == 0
        } else {
            let p = rule_at(Rule::pattern, s, blank_end(s, i + 5), false, (d - 1) as nat);
            &&& keyword_at(s, "MERGE"@, i)
            &&& p is Match
            &&& pattern_in(p->nodes[0], false) == Built::Ok(x.pattern)
            &&& actions_behind(s, p->Match_end, x.actions, (d - 2) as nat)
        },
        m::Clause::Union { all } => {
            &&& keyword_at(s, "UNION"@, i)
            &&& all == keyword_at(s, "ALL"@, blank_end(s, i + 5))
        },
        _ => true,
    }
}

pub open spec fn clause_stands(c: m::Clause, s: Seq<char>, gql: bool) -> bool {
    exists|i: int, d: nat| #[trigger] clause_reads(c, s, i, gql, d)
}

pub open spec fn clauses_stand(v: Seq<m::Clause>, s: Seq<char>, gql: bool) -> bool {
    forall|k: int| 0 <= k < v.len() ==> clause_stands(#[trigger] v[k], s, gql)
}

/// Which clause a rule gives.
proof fn lemma_clause_kind(t: Tree, gql: bool)
    ensures
        clause_in(t, gql) matches Ok(c) ==> match c {
            m::Clause::Match(x) => t.rule == Rule::match_clause,
            m::Clause::Delete(x) => t.rule == Rule::delete_clause,
            m::Clause::Return(x) => t.rule == Rule::return_clause,
            m::Clause::With(x) => !gql ==> t.rule == Rule::with_clause || t.rule
                == Rule::next_clause || t.rule == Rule::filter_clause,
            m::Clause::Merge(x) => t.rule == Rule::merge_clause && (gql ==> x.actions.len() == 0),
            m::Clause::Union { all } => false,
            _ => true,
        },
{
}

proof fn lemma_clause_stands(t: Tree, s: Seq<char>, base: int, gql: bool)
    requires
        is_found(t, s, base, gql),
        t.rule == Rule::next_clause || t.rule == Rule::filter_clause ==> gql,
    ensures
        clause_in(t, gql) matches Ok(c) ==> clause_stands(c, s, gql),
{
    let i = base + t.start;
    let d = choose|d: nat| #[trigger] found_at(t, s, i, gql, d);
    assert(found_at(t, s, i, gql, d));
    let u = rule_at(t.rule, s, i, gql, d)->nodes[0];
    lemma_clause_like(t, u, gql);
    lemma_clause_kind(t, gql);
    lemma_clause_read(t.rule, s, i, gql, d);
    if let Ok(c) = clause_in(t, gql) {
        assert(clause_reads(c, s, i, gql, d));
    }
}

proof fn lemma_clause_read(r: Rule, s: Seq<char>, i: int, gql: bool, d: nat)
    requires
        rule_at(r, s, i, gql, d) is Match,
        r == Rule::next_clause || r == Rule::filter_clause ==> gql,
        0 <= i <= s.len(),
    ensures
        clause_in(rule_at(r, s, i, gql, d)->nodes[0], gql) matches Ok(c) ==> clause_reads(
            c,
            s,
            i,
            gql,
            d,
        ),
{
    lemma_rule_of(r, s, i, gql, d);
    lemma_clause_kind(rule_at(r, s, i, gql, d)->nodes[0], gql);
    if r == Rule::match_clause {
        law_optional_is_read(s, i, gql, d);
    } else if r == Rule::delete_clause {
        law_detach_is_read(s, i, gql, d);
    } else if r == Rule::return_clause {
        law_return_distinct_is_read(s, i, gql, d);
        law_order_of_return_is_read(s, i, gql, d);
    } else if r == Rule::with_clause && !gql {
        law_with_distinct_is_read(s, i, d);
        law_order_of_with_is_read(s, i, d);
    } else if r == Rule::merge_clause && !gql {
        law_merge_is_read(s, i, d);
    }
}

/// Which clauses Cypher has not.
proof fn lemma_cypher_clause(t: Tree, s: Seq<char>, base: int)
    requires
        is_found(t, s, base, false),
        t.rule == Rule::clause,
        t.children.len() > 0,
    ensures
        t.children[0].rule != Rule::next_clause,
        t.children[0].rule != Rule::filter_clause,
{
    let i = base + t.start;
    let d = choose|d: nat| #[trigger] found_at(t, s, i, false, d);
    assert(found_at(t, s, i, false, d));
    let x = rule_at(Rule::clause, s, i, false, d);
    lemma_run(Peg::Call(Rule::clause), s, i, false, false, d);
    let below = split_called(Rule::clause, s, i, false, false, d, x->Match_end, x->nodes);
    let e = (d - 1) as nat;
    let body = body_of(Rule::clause, false);
    lemma_yields(body, s, i, false, false, e, x->Match_end, below);
    lemma_cypher_clauses();
    lemma_lacks(body, Rule::next_clause, s, i, false, false, e);
    lemma_lacks(body, Rule::filter_clause, s, i, false, false, e);
    assert(t.children[0].rule == below[0].rule);
}

proof fn lemma_cypher_clauses()
    ensures
        !mentions(body_of(Rule::clause, false), Rule::next_clause),
        !mentions(body_of(Rule::clause, false), Rule::filter_clause),
{
    reveal_with_fuel(mentions, 14);
}

proof fn lemma_clauses_step(ch: Seq<Tree>, n: int, gql: bool)
    requires
        0 <= n < ch.len(),
    ensures
        clauses_from(ch, n, gql) matches Ok(v) ==> (clauses_from(
            ch,
            n + 1,
            gql,
        ) matches Ok(rest) && if ch[n].rule == Rule::clause {
            holds(ch[n], 0) && (clause_in(ch[n].children[0], gql) matches Ok(c) && v == seq![c]
                + rest)
        } else {
            v == rest
        }),
{
}

proof fn lemma_joined(v: Seq<m::Clause>, w: Seq<m::Clause>, s: Seq<char>, gql: bool)
    requires
        clauses_stand(v, s, gql),
        clauses_stand(w, s, gql),
    ensures
        clauses_stand(v + w, s, gql),
{
    let all = v + w;
    assert forall|k: int| 0 <= k < all.len() implies clause_stands(#[trigger] all[k], s, gql) by {
        if k < v.len() {
            assert(all[k] == v[k]);
        } else {
            assert(all[k] == w[k - v.len()]);
        }
    }
}

proof fn lemma_clauses_stand(ch: Seq<Tree>, n: int, s: Seq<char>, base: int, gql: bool)
    requires
        all_found(ch, s, base, gql),
        0 <= n,
    ensures
        clauses_from(ch, n, gql) matches Ok(v) ==> clauses_stand(v, s, gql),
    decreases ch.len() - n,
{
    if n < ch.len() {
        lemma_clauses_stand(ch, n + 1, s, base, gql);
        lemma_clauses_step(ch, n, gql);
        assert(is_found(ch[n], s, base, gql));
        if ch[n].rule == Rule::clause && holds(ch[n], 0) {
            let t = ch[n].children[0];
            assert(is_found(t, s, base + ch[n].start, gql));
            if !gql {
                lemma_cypher_clause(ch[n], s, base);
            }
            lemma_clause_stands(t, s, base + ch[n].start, gql);
            if clauses_from(ch, n, gql) is Ok {
                let c = clause_in(t, gql)->Ok_0;
                lemma_joined(seq![c], clauses_from(ch, n + 1, gql)->Ok_0, s, gql);
            }
        }
    } else {
        assert(clauses_from(ch, n, gql) == Built::Ok(Seq::<m::Clause>::empty()));
    }
}

/// What one part of a statement gives.
spec fn part_of(t: Tree) -> Built<Seq<m::Clause>> {
    statement_from(seq![t], 0)
}

proof fn lemma_part(ch: Seq<Tree>, n: int)
    requires
        0 <= n < ch.len(),
    ensures
        statement_from(ch, n) matches Ok(v) ==> (part_of(ch[n]) matches Ok(first)
            && (statement_from(ch, n + 1) matches Ok(rest) && v == first + rest)),
        part_of(ch[n]) matches Ok(v) ==> if ch[n].rule == Rule::single_query {
            clauses_from(ch[n].children, 0, false) == Built::Ok(v)
        } else {
            ch[n].rule == Rule::union_marker || v.len() == 0
        },
{
    let one = seq![ch[n]];
    let none = Seq::<m::Clause>::empty();
    assert(one[0] == ch[n]);
    assert(statement_from(one, 1) == Built::Ok(none));
    if let Ok(v) = clauses_from(ch[n].children, 0, false) {
        assert(v + none =~= v);
    }
    assert(none + none =~= none);
    if let Ok(v) = statement_from(ch, n) {
        let u = m::Clause::Union { all: holds(ch[n], at(ch[n], Rule::kw_ALL)) };
        assert(seq![u] + none =~= seq![u]);
    }
}

proof fn lemma_union_like(t: Tree, u: Tree)
    requires
        like(t, u),
        t.rule == Rule::union_marker,
    ensures
        part_of(t) == part_of(u),
{
    assert(statement_from(seq![t], 1) == statement_from(seq![u], 1));
}

proof fn lemma_union_stands(t: Tree, s: Seq<char>, base: int)
    requires
        is_found(t, s, base, false),
        t.rule == Rule::union_marker,
    ensures
        part_of(t) matches Ok(v) ==> clauses_stand(v, s, false),
{
    let i = base + t.start;
    let d = choose|d: nat| #[trigger] found_at(t, s, i, false, d);
    assert(found_at(t, s, i, false, d));
    let x = rule_at(Rule::union_marker, s, i, false, d);
    law_union_is_read(s, i, d);
    lemma_rule_of(Rule::union_marker, s, i, false, d);
    assert(x->nodes =~= seq![x->nodes[0]]);
    lemma_union_like(t, x->nodes[0]);
    let c = part_of(t)->Ok_0[0];
    assert(clause_reads(c, s, i, false, d));
}

proof fn lemma_statement_stands(ch: Seq<Tree>, n: int, s: Seq<char>, base: int)
    requires
        all_found(ch, s, base, false),
        0 <= n,
    ensures
        statement_from(ch, n) matches Ok(v) ==> clauses_stand(v, s, false),
    decreases ch.len() - n,
{
    if n < ch.len() {
        lemma_statement_stands(ch, n + 1, s, base);
        lemma_part(ch, n);
        assert(is_found(ch[n], s, base, false));
        if ch[n].rule == Rule::single_query {
            lemma_clauses_stand(ch[n].children, 0, s, base + ch[n].start, false);
        } else if ch[n].rule == Rule::union_marker {
            lemma_union_stands(ch[n], s, base);
        }
        if statement_from(ch, n) is Ok {
            lemma_joined(part_of(ch[n])->Ok_0, statement_from(ch, n + 1)->Ok_0, s, false);
        }
    } else {
        assert(statement_from(ch, n) == Built::Ok(Seq::<m::Clause>::empty()));
    }
}

/// Each clause of a query that is parsed says what stands in the text of the query.
pub proof fn law_clauses_are_read(s: Seq<char>, gql: bool)
    ensures
        parsed(s, gql) matches Ok(c) ==> clauses_stand(c, s, gql),
{
    let p = Peg::Call(Rule::query);
    law_nodes_are_found(p, s, 0, gql, depth_for(s.len()));
    if let Step::Match { end, nodes, far } = whole_match(s, gql) {
        let t = nodes[0];
        assert(is_found(t, s, 0, gql));
        let k = at(t, Rule::statement);
        if holds(t, k) {
            let u = t.children[k];
            assert(is_found(u, s, t.start, gql));
            if gql {
                lemma_clauses_stand(u.children, 0, s, t.start + u.start, gql);
            } else {
                lemma_statement_stands(u.children, 0, s, t.start + u.start);
            }
        }
    }
}

} // verus!
