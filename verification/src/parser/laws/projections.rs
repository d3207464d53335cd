//! What stands behind the items of a projection, and behind patterns.
use vstd::prelude::*;

#[allow(unused_imports)]
use crate::ast::model as m;
#[allow(unused_imports)]
use crate::parser::error::Built;
#[allow(unused_imports)]
use crate::parser::grammar::{body_of, is_token};
#[allow(unused_imports)]
use crate::parser::laws::keywords::{
    lacks, lemma_child, lemma_no_child, lemma_same_expression, rule_at,
};
#[allow(unused_imports)]
use crate::parser::laws::operators::lemma_rule_of;
#[allow(unused_imports)]
use crate::parser::laws::places::{
    keyword_at, lemma_both, lemma_called, lemma_found_keyword, lemma_keyword, lemma_run,
    lemma_yields, refuses, split_both, split_called, split_maybe, yields,
};
#[allow(unused_imports)]
use crate::parser::laws::steps::{followed, node_for, perhaps};
#[allow(unused_imports)]
use crate::parser::meaning::{
    child_expression_in, child_projection_in, clause_expression_in, clause_in, expression_in,
    order_by_in, projection_in, where_in,
};
#[allow(unused_imports)]
use crate::parser::peg::{blank_end, Class, Peg};
#[allow(unused_imports)]
use crate::parser::tree::{at, holds, seen_from, Rule, Tree};

verus! {

// ── Parts that may be missing ────────────────────────────────────────────────

/// Where a part ends that may stand at a place.
pub open spec fn part_end(r: Rule, s: Seq<char>, i: int, gql: bool, d: nat) -> int {
    let x = rule_at(r, s, i, gql, d);
    if x is Match {
        x->Match_end
    } else {
        i
    }
}

spec fn part_nodes(r: Rule, s: Seq<char>, i: int, gql: bool, d: nat) -> Seq<Tree> {
    let x = rule_at(r, s, i, gql, d);
    if x is Match {
        x->nodes
    } else {
        seq![]
    }
}

proof fn lemma_part(
    r: Rule,
    s: Seq<char>,
    i: int,
    gql: bool,
    d: nat,
    end: int,
    x: Seq<Tree>,
)
    requires
        yields(perhaps(Peg::Call(r)), s, i, false, gql, d, end, x),
    ensures
        x == part_nodes(r, s, i, gql, d),
        end == part_end(r, s, i, gql, d),
        rule_at(r, s, i, gql, d) is Match || rule_at(r, s, i, gql, d) is Fail,
{
    split_maybe(Peg::Call(r), s, i, false, gql, d, end, x);
    if yields(Peg::Call(r), s, i, false, gql, d, end, x) {
        lemma_yields(Peg::Call(r), s, i, false, gql, d, end, x);
    } else {
        reveal(refuses);
    }
}

/// The child with a rule, where there is one at most.
proof fn lemma_part_child(t: Tree, i: int, a: Seq<Tree>, n: Seq<Tree>, b: Seq<Tree>, r: Rule)
    requires
        t.children == seen_from(a + (n + b), i),
        lacks(a, r),
        lacks(b, r),
        n.len() <= 1,
        n.len() == 1 ==> n[0].rule == r,
    ensures
        holds(t, at(t, r)) == (n.len() == 1),
        n.len() == 1 ==> t.children[at(t, r)].children == n[0].children && t.children[at(
            t,
            r,
        )].rule == r,
{
    let all = a + (n + b);
    let k = a.len() as int;
    if n.len() == 1 {
        assert(all[k] == n[0]);
        assert forall|j: int| 0 <= j < k implies (#[trigger] t.children[j]).rule != r by {
            assert(all[j] == a[j]);
        }
        lemma_child(t, r, k);
    } else {
        assert forall|j: int| 0 <= j < t.children.len() implies (#[trigger] t.children[j]).rule
            != r by {
            if j < k {
                assert(all[j] == a[j]);
            } else {
                assert(all[j] == b[j - k]);
            }
        }
        lemma_no_child(t, r);
    }
}

// ── Words with an expression behind them ─────────────────────────────────────

/// Whether an expression is the one that stands behind a word at a place; there is
/// none where the word does not stand there.
pub open spec fn stands_behind(
    w: Seq<char>,
    s: Seq<char>,
    i: int,
    e: Option<m::Expression>,
    gql: bool,
    d: nat,
) -> bool {
    let x = rule_at(Rule::expression, s, blank_end(s, i + w.len()), gql, d);
    if keyword_at(s, w, i) && x is Match {
        e matches Some(y) && expression_in(x->nodes[0], gql) == Built::Ok(y)
    } else {
        e is None
    }
}

/// Whether a rule is that of a word and an expression.
#[verifier::opaque]
spec fn is_worded(r: Rule, k: Rule, w: &'static str, gql: bool) -> bool {
    &&& !is_token(r)
    &&& is_token(k)
    &&& k != Rule::expression
    &&& body_of(r, gql) == followed(Peg::Call(k), Peg::Call(Rule::expression))
    &&& body_of(k, gql) == followed(Peg::Word(w), Peg::Not(Box::new(Peg::One(Class::NamePart))))
}

proof fn lemma_worded(r: Rule, k: Rule, w: &'static str, s: Seq<char>, i: int, gql: bool, d: nat)
    requires
        is_worded(r, k, w, gql),
        rule_at(r, s, i, gql, d) is Match,
    ensures
        ({
            let t = rule_at(r, s, i, gql, d)->nodes[0];
            let x = rule_at(
                Rule::expression,
                s,
                blank_end(s, i + w@.len()),
                gql,
                (d - 1) as nat,
            );
            &&& keyword_at(s, w@, i)
            &&& x is Match
            &&& t.children.len() == 2
            &&& t.children[0].rule == k
            &&& t.children[1].rule == Rule::expression
            &&& t.children[1].children == x->nodes[0].children
        }),
{
    reveal(is_worded);
    let step = rule_at(r, s, i, gql, d);
    let end = step->Match_end;
    let e = (d - 1) as nat;
    let what = Peg::Call(Rule::expression);
    lemma_run(Peg::Call(r), s, i, false, gql, d);
    let below = split_called(r, s, i, false, gql, d, end, step->nodes);
    let a = split_both(Peg::Call(k), what, s, i, false, gql, e, end, below);
    lemma_found_keyword(k, w, s, i, gql, e, a.0, a.1);
    let j = blank_end(s, i + w@.len());
    lemma_yields(what, s, j, false, gql, e, end, a.2);
    lemma_rule_of(Rule::expression, s, j, gql, e);
    assert(below[0] == a.1[0]);
    assert(below[1] == a.2[0]);
}

/// Where a word stands with an expression behind it, its rule matches.
proof fn lemma_worded_found(
    r: Rule,
    k: Rule,
    w: &'static str,
    s: Seq<char>,
    i: int,
    gql: bool,
    d: nat,
)
    requires
        is_worded(r, k, w, gql),
        d > 0,
        keyword_at(s, w@, i),
        rule_at(
            Rule::expression,
            s,
            blank_end(s, i + w@.len()),
            gql,
            (d - 1) as nat,
        ) is Match,
    ensures
        rule_at(r, s, i, gql, d) is Match,
{
    reveal(is_worded);
    let e = (d - 1) as nat;
    let z = i + w@.len();
    let j = blank_end(s, z);
    let what = Peg::Call(Rule::expression);
    let x = rule_at(Rule::expression, s, j, gql, e);
    lemma_rule_of(Rule::expression, s, j, gql, e);
    lemma_run(what, s, j, false, gql, e);
    lemma_keyword(k, w, s, i, gql, e);
    let n = seq![node_for(k, s, i, z, seq![])];
    lemma_both(Peg::Call(k), what, s, i, false, gql, e, z, n, x->Match_end, x->nodes);
    lemma_called(r, s, i, false, gql, d, x->Match_end, n + x->nodes);
    let t = node_for(r, s, i, x->Match_end, n + x->nodes);
    lemma_yields(Peg::Call(r), s, i, false, gql, d, x->Match_end, seq![t]);
}

proof fn lemma_clause_expression(t: Tree, r: Rule, u: Tree, x: Tree, gql: bool)
    requires
        holds(t, at(t, r)),
        t.children[at(t, r)].children == u.children,
        u.children.len() == 2,
        u.children[0].rule != Rule::expression,
        u.children[1].rule == Rule::expression,
        u.children[1].children == x.children,
    ensures
        clause_expression_in(t, r, gql) == match expression_in(x, gql) {
            Ok(e) => Built::Ok(Some(e)),
            Err(f) => Built::Err(f),
        },
{
    let c = t.children[at(t, r)];
    lemma_child(c, Rule::expression, 1);
    lemma_same_expression(c.children[1], x, gql);
    assert(child_expression_in(c, gql) == expression_in(x, gql));
}

/// The expression of a part that may stand at a place.
proof fn lemma_part_expression(
    t: Tree,
    at_t: int,
    a: Seq<Tree>,
    b: Seq<Tree>,
    r: Rule,
    k: Rule,
    w: &'static str,
    s: Seq<char>,
    i: int,
    gql: bool,
    d: nat,
)
    requires
        is_worded(r, k, w, gql),
        t.children == seen_from(a + (part_nodes(r, s, i, gql, d) + b), at_t),
        lacks(a, r),
        lacks(b, r),
        rule_at(r, s, i, gql, d) is Match || rule_at(r, s, i, gql, d) is Fail,
    ensures
        clause_expression_in(t, r, gql) matches Ok(e) ==> stands_behind(
            w@,
            s,
            i,
            e,
            gql,
            (d - 1) as nat,
        ),
{
    reveal(is_worded);
    let x = rule_at(r, s, i, gql, d);
    let n = part_nodes(r, s, i, gql, d);
    lemma_rule_of(r, s, i, gql, d);
    lemma_part_child(t, at_t, a, n, b, r);
    if x is Match {
        lemma_worded(r, k, w, s, i, gql, d);
        let j = blank_end(s, i + w@.len());
        let y = rule_at(Rule::expression, s, j, gql, (d - 1) as nat);
        lemma_clause_expression(t, r, x->nodes[0], y->nodes[0], gql);
    } else {
        if d > 0 && keyword_at(s, w@, i) && rule_at(
            Rule::expression,
            s,
            blank_end(s, i + w@.len()),
            gql,
            (d - 1) as nat,
        ) is Match {
            lemma_worded_found(r, k, w, s, i, gql, d);
        }
        assert(d == 0 ==> x is Deep);
    }
}

// ── Order, skip and limit ────────────────────────────────────────────────────

/// Whether an order, a number of rows to skip and a number of rows to keep are those
/// that stand behind a place, in this sequence.
pub open spec fn cut_behind(
    s: Seq<char>,
    i: int,
    order: Option<m::OrderByClause>,
    skip: Option<m::Expression>,
    limit: Option<m::Expression>,
    gql: bool,
    d: nat,
) -> bool {
    let a = blank_end(s, i);
    let b = blank_end(s, part_end(Rule::order_by_clause, s, a, gql, d));
    let c = blank_end(s, part_end(Rule::skip_clause, s, b, gql, d));
    &&& (order is Some) == (rule_at(Rule::order_by_clause, s, a, gql, d) is Match)
    &&& stands_behind("SKIP"@, s, b, skip, gql, (d - 1) as nat)
    &&& stands_behind("LIMIT"@, s, c, limit, gql, (d - 1) as nat)
}

spec fn tail() -> Peg {
    followed(
        perhaps(Peg::Call(Rule::order_by_clause)),
        followed(
            perhaps(Peg::Call(Rule::skip_clause)),
            perhaps(Peg::Call(Rule::limit_clause)),
        ),
    )
}

spec fn lacks_tail(v: Seq<Tree>) -> bool {
    &&& lacks(v, Rule::order_by_clause)
    &&& lacks(v, Rule::skip_clause)
    &&& lacks(v, Rule::limit_clause)
}

proof fn lemma_tail(
    t: Tree,
    at_t: int,
    head: Seq<Tree>,
    x: Seq<Tree>,
    s: Seq<char>,
    i: int,
    gql: bool,
    d: nat,
    end: int,
)
    requires
        yields(tail(), s, blank_end(s, i), false, gql, d, end, x),
        t.children == seen_from(head + x, at_t),
        lacks_tail(head),
    ensures
        order_by_in(t, gql) matches Ok(o) ==> (clause_expression_in(
            t,
            Rule::skip_clause,
            gql,
        ) matches Ok(k) ==> (clause_expression_in(t, Rule::limit_clause, gql) matches Ok(l)
            ==> cut_behind(s, i, o, k, l, gql, d))),
{
    reveal(is_worded);
    let ro = Rule::order_by_clause;
    let rk = Rule::skip_clause;
    let rl = Rule::limit_clause;
    let a = blank_end(s, i);
    let order = perhaps(Peg::Call(ro));
    let skip = perhaps(Peg::Call(rk));
    let limit = perhaps(Peg::Call(rl));
    let p = split_both(order, followed(skip, limit), s, a, false, gql, d, end, x);
    lemma_part(ro, s, a, gql, d, p.0, p.1);
    let b = blank_end(s, p.0);
    let q = split_both(skip, limit, s, b, false, gql, d, end, p.2);
    lemma_part(rk, s, b, gql, d, q.0, q.1);
    let c = blank_end(s, q.0);
    lemma_part(rl, s, c, gql, d, end, q.2);
    lemma_rule_of(ro, s, a, gql, d);
    lemma_rule_of(rk, s, b, gql, d);
    lemma_rule_of(rl, s, c, gql, d);
    let o = p.1;
    let k = q.1;
    let l = q.2;
    let none = Seq::<Tree>::empty();
    assert(head + x =~= head + (o + (k + l)));
    assert(head + x =~= (head + o) + (k + l));
    assert(head + x =~= ((head + o) + k) + (l + none));
    assert(lacks(k + l, ro));
    assert(lacks(head + o, rk));
    assert(lacks((head + o) + k, rl));
    lemma_part_child(t, at_t, head, o, k + l, ro);
    lemma_part_expression(t, at_t, head + o, l, rk, Rule::kw_SKIP, "SKIP", s, b, gql, d);
    lemma_part_expression(
        t,
        at_t,
        (head + o) + k,
        none,
        rl,
        Rule::kw_LIMIT,
        "LIMIT",
        s,
        c,
        gql,
        d,
    );
}

proof fn lemma_projection_parts(u: Tree, gql: bool)
    ensures
        projection_in(u, gql) matches Ok(p) ==> order_by_in(u, gql) == Built::Ok(p.order_by)
            && clause_expression_in(u, Rule::skip_clause, gql) == Built::Ok(p.skip)
            && clause_expression_in(u, Rule::limit_clause, gql) == Built::Ok(p.limit),
{
}

/// Where the items of a projection end in Cypher.
pub open spec fn items_end(s: Seq<char>, i: int, d: nat) -> int {
    rule_at(
        Rule::return_items,
        s,
        blank_end(s, part_end(Rule::distinct_marker, s, i, false, d)),
        false,
        d,
    )->Match_end
}

proof fn lemma_projection_cut(s: Seq<char>, i: int, d: nat)
    requires
        rule_at(Rule::projection_body, s, i, false, d) is Match,
    ensures
        projection_in(
            rule_at(Rule::projection_body, s, i, false, d)->nodes[0],
            false,
        ) matches Ok(p) ==> cut_behind(
            s,
            items_end(s, i, (d - 1) as nat),
            p.order_by,
            p.skip,
            p.limit,
            false,
            (d - 1) as nat,
        ),
{
    let r = Rule::projection_body;
    let step = rule_at(r, s, i, false, d);
    let end = step->Match_end;
    let e = (d - 1) as nat;
    let mark = perhaps(Peg::Call(Rule::distinct_marker));
    let items = Peg::Call(Rule::return_items);
    assert(body_of(r, false) == followed(mark, followed(items, tail())));
    lemma_run(Peg::Call(r), s, i, false, false, d);
    let below = split_called(r, s, i, false, false, d, end, step->nodes);
    let a = split_both(mark, followed(items, tail()), s, i, false, false, e, end, below);
    lemma_part(Rule::distinct_marker, s, i, false, e, a.0, a.1);
    lemma_rule_of(Rule::distinct_marker, s, i, false, e);
    let j = blank_end(s, a.0);
    let b = split_both(items, tail(), s, j, false, false, e, end, a.2);
    lemma_yields(items, s, j, false, false, e, b.0, b.1);
    lemma_rule_of(Rule::return_items, s, j, false, e);
    let head = a.1 + b.1;
    assert(below =~= head + b.2);
    let t = step->nodes[0];
    lemma_tail(t, i, head, b.2, s, b.0, false, e, end);
    lemma_projection_parts(t, false);
}

proof fn lemma_return_parts(t: Tree, gql: bool)
    requires
        t.rule == Rule::return_clause,
    ensures
        clause_in(t, gql) matches Ok(c) ==> c is Return && if gql {
            &&& order_by_in(t, gql) == Built::Ok(c->Return_0.order_by)
            &&& clause_expression_in(t, Rule::skip_clause, gql) == Built::Ok(c->Return_0.skip)
            &&& clause_expression_in(t, Rule::limit_clause, gql) == Built::Ok(c->Return_0.limit)
        } else {
            child_projection_in(t, Rule::projection_body, gql) matches Ok(p) && {
                &&& p.order_by == c->Return_0.order_by
                &&& p.skip == c->Return_0.skip
                &&& p.limit == c->Return_0.limit
            }
        },
{
}

proof fn lemma_with_parts(t: Tree)
    requires
        t.rule == Rule::with_clause,
    ensures
        clause_in(t, false) matches Ok(c) ==> c is With && (child_projection_in(
            t,
            Rule::projection_body,
            false,
        ) matches Ok(p) && {
            &&& p.order_by == c->With_0.order_by
            &&& p.skip == c->With_0.skip
            &&& p.limit == c->With_0.limit
        }) && (clause_expression_in(t, Rule::where_clause, false) matches Ok(e)
            && c->With_0.where_ == where_clause(e)),
{
}

/// The predicate of a clause.
pub open spec fn where_clause(e: Option<m::Expression>) -> Option<m::WhereClause> {
    match e {
        Some(expression) => Some(m::WhereClause { expression }),
        None => None,
    }
}

proof fn lemma_projection_like(t: Tree, u: Tree)
    requires
        t.children == u.children,
    ensures
        projection_in(t, false) == projection_in(u, false),
{
    assert(crate::parser::meaning::return_items_in(t, false)
        == crate::parser::meaning::return_items_in(u, false));
    assert(order_by_in(t, false) == order_by_in(u, false));
    assert(clause_expression_in(t, Rule::skip_clause, false) == clause_expression_in(
        u,
        Rule::skip_clause,
        false,
    ));
    assert(clause_expression_in(t, Rule::limit_clause, false) == clause_expression_in(
        u,
        Rule::limit_clause,
        false,
    ));
}

/// The projection of a clause in Cypher.
proof fn lemma_child_cut(t: Tree, s: Seq<char>, i: int, d: nat)
    requires
        rule_at(Rule::projection_body, s, i, false, d) is Match,
        t.children.len() > 1,
        t.children[0].rule != Rule::projection_body,
        t.children[1].rule == Rule::projection_body,
        t.children[1].children == rule_at(
            Rule::projection_body,
            s,
            i,
            false,
            d,
        )->nodes[0].children,
    ensures
        child_projection_in(t, Rule::projection_body, false) matches Ok(p) ==> cut_behind(
            s,
            items_end(s, i, (d - 1) as nat),
            p.order_by,
            p.skip,
            p.limit,
            false,
            (d - 1) as nat,
        ),
{
    let u = rule_at(Rule::projection_body, s, i, false, d)->nodes[0];
    lemma_child(t, Rule::projection_body, 1);
    lemma_projection_cut(s, i, d);
    lemma_projection_like(t.children[1], u);
}

/// A `RETURN` is ordered, skips rows and keeps rows as `ORDER BY`, `SKIP` and `LIMIT`
/// behind its items say, and does none of it without them.
pub proof fn law_return_is_cut(s: Seq<char>, i: int, gql: bool, d: nat)
    requires
        rule_at(Rule::return_clause, s, i, gql, d) is Match,
    ensures
        ({
            let j = blank_end(s, i + 6);
            let e = (d - 1) as nat;
            let f = (d - 2) as nat;
            clause_in(rule_at(Rule::return_clause, s, i, gql, d)->nodes[0], gql) matches Ok(c)
                ==> c is Return && if gql {
                let body = rule_at(Rule::return_body, s, j, gql, e);
                body is Match && cut_behind(
                    s,
                    body->Match_end,
                    c->Return_0.order_by,
                    c->Return_0.skip,
                    c->Return_0.limit,
                    gql,
                    e,
                )
            } else {
                cut_behind(
                    s,
                    items_end(s, j, f),
                    c->Return_0.order_by,
                    c->Return_0.skip,
                    c->Return_0.limit,
                    gql,
                    f,
                )
            }
        }),
{
    let r = Rule::return_clause;
    let step = rule_at(r, s, i, gql, d);
    let end = step->Match_end;
    let e = (d - 1) as nat;
    let word = Peg::Call(Rule::kw_RETURN);
    let rule = if gql {
        Rule::return_body
    } else {
        Rule::projection_body
    };
    let body = Peg::Call(rule);
    let rest = if gql {
        followed(body, tail())
    } else {
        body
    };
    assert(body_of(r, gql) == followed(word, rest));
    lemma_run(Peg::Call(r), s, i, false, gql, d);
    let below = split_called(r, s, i, false, gql, d, end, step->nodes);
    let a = split_both(word, rest, s, i, false, gql, e, end, below);
    lemma_found_keyword(Rule::kw_RETURN, "RETURN", s, i, gql, e, a.0, a.1);
    reveal_strlit("RETURN");
    let j = blank_end(s, i + 6);
    let t = step->nodes[0];
    lemma_return_parts(t, gql);
    lemma_rule_of(rule, s, j, gql, e);
    if gql {
        let b = split_both(body, tail(), s, j, false, gql, e, end, a.2);
        lemma_yields(body, s, j, false, gql, e, b.0, b.1);
        let head = a.1 + b.1;
        assert(below =~= head + b.2);
        lemma_tail(t, i, head, b.2, s, b.0, gql, e, end);
    } else {
        lemma_yields(body, s, j, false, gql, e, end, a.2);
        assert(below[0] == a.1[0]);
        assert(below[1] == a.2[0]);
        lemma_child_cut(t, s, j, e);
    }
}

/// A `WITH` is ordered, skips rows and keeps rows as what stands behind its items says,
/// and has the predicate that stands behind all that.
pub proof fn law_with_is_cut(s: Seq<char>, i: int, d: nat)
    requires
        rule_at(Rule::with_clause, s, i, false, d) is Match,
    ensures
        ({
            let j = blank_end(s, i + 4);
            let body = rule_at(Rule::projection_body, s, j, false, (d - 1) as nat);
            clause_in(rule_at(Rule::with_clause, s, i, false, d)->nodes[0], false) matches Ok(c)
                ==> {
                &&& c is With
                &&& body is Match
                &&& cut_behind(
                    s,
                    items_end(s, j, (d - 2) as nat),
                    c->With_0.order_by,
                    c->With_0.skip,
                    c->With_0.limit,
                    false,
                    (d - 2) as nat,
                )
                &&& exists|e: Option<m::Expression>|
                    c->With_0.where_ == where_clause(e) && #[trigger] stands_behind(
                        "WHERE"@,
                        s,
                        blank_end(s, body->Match_end),
                        e,
                        false,
                        (d - 2) as nat,
                    )
            }
        }),
{
    reveal(is_worded);
    let r = Rule::with_clause;
    let step = rule_at(r, s, i, false, d);
    let end = step->Match_end;
    let e = (d - 1) as nat;
    let word = Peg::Call(Rule::kw_WITH);
    let body = Peg::Call(Rule::projection_body);
    let predicate = perhaps(Peg::Call(Rule::where_clause));
    assert(body_of(r, false) == followed(word, followed(body, predicate)));
    lemma_run(Peg::Call(r), s, i, false, false, d);
    let below = split_called(r, s, i, false, false, d, end, step->nodes);
    let a = split_both(word, followed(body, predicate), s, i, false, false, e, end, below);
    lemma_found_keyword(Rule::kw_WITH, "WITH", s, i, false, e, a.0, a.1);
    reveal_strlit("WITH");
    let j = blank_end(s, i + 4);
    let b = split_both(body, predicate, s, j, false, false, e, end, a.2);
    lemma_yields(body, s, j, false, false, e, b.0, b.1);
    lemma_rule_of(Rule::projection_body, s, j, false, e);
    let k = blank_end(s, b.0);
    lemma_part(Rule::where_clause, s, k, false, e, end, b.2);
    let t = step->nodes[0];
    let head = a.1 + b.1;
    let none = Seq::<Tree>::empty();
    assert(below =~= head + (b.2 + none));
    assert(below[0] == a.1[0]);
    assert(below[1] == b.1[0]);
    lemma_part_expression(
        t,
        i,
        head,
        none,
        Rule::where_clause,
        Rule::kw_WHERE,
        "WHERE",
        s,
        k,
        false,
        e,
    );
    lemma_with_parts(t);
    lemma_child_cut(t, s, j, e);
}

proof fn lemma_match_where(t: Tree, gql: bool)
    requires
        t.rule == Rule::match_clause,
    ensures
        clause_in(t, gql) matches Ok(c) ==> c is Match && (clause_expression_in(
            t,
            predicate_rule(gql),
            gql,
        ) matches Ok(e) && c->Match_0.where_ == where_clause(e)),
{
    assert(where_in(t, gql) == clause_expression_in(t, predicate_rule(gql), gql));
}

/// The rule of the predicate of a `MATCH`.
spec fn predicate_rule(gql: bool) -> Rule {
    if gql {
        Rule::match_where
    } else {
        Rule::where_clause
    }
}

spec fn match_parts(rule: Rule) -> Peg {
    followed(
        perhaps(Peg::Call(Rule::optional_marker)),
        followed(
            Peg::Call(Rule::kw_MATCH),
            followed(Peg::Call(Rule::pattern_list), perhaps(Peg::Call(rule))),
        ),
    )
}

proof fn lemma_predicate_rule(gql: bool)
    ensures
        is_worded(predicate_rule(gql), Rule::kw_WHERE, "WHERE", gql),
        body_of(Rule::match_clause, gql) == match_parts(predicate_rule(gql)),
{
    reveal(is_worded);
    if gql {
        assert(is_worded(Rule::match_where, Rule::kw_WHERE, "WHERE", true));
    } else {
        assert(is_worded(Rule::where_clause, Rule::kw_WHERE, "WHERE", false));
    }
}

/// The parts of a `MATCH` before its predicate.
proof fn lemma_match_head(
    rule: Rule,
    s: Seq<char>,
    i: int,
    gql: bool,
    d: nat,
    end: int,
    below: Seq<Tree>,
) -> (head: Seq<Tree>)
    requires
        rule == Rule::match_where || rule == Rule::where_clause,
        yields(match_parts(rule), s, i, false, gql, d, end, below),
    ensures
        ({
            let word = blank_end(s, part_end(Rule::optional_marker, s, i, gql, d));
            let patterns = rule_at(Rule::pattern_list, s, blank_end(s, word + 5), gql, d);
            let l = blank_end(s, patterns->Match_end);
            &&& keyword_at(s, "MATCH"@, word)
            &&& patterns is Match
            &&& below == head + (part_nodes(rule, s, l, gql, d) + Seq::<Tree>::empty())
            &&& lacks(head, rule)
            &&& rule_at(rule, s, l, gql, d) is Match || rule_at(rule, s, l, gql, d) is Fail
        }),
{
    let mark = perhaps(Peg::Call(Rule::optional_marker));
    let word = Peg::Call(Rule::kw_MATCH);
    let patterns = Peg::Call(Rule::pattern_list);
    let predicate = perhaps(Peg::Call(rule));
    let p2 = followed(patterns, predicate);
    let p1 = followed(word, p2);
    let a = split_both(mark, p1, s, i, false, gql, d, end, below);
    lemma_part(Rule::optional_marker, s, i, gql, d, a.0, a.1);
    lemma_rule_of(Rule::optional_marker, s, i, gql, d);
    let j = blank_end(s, a.0);
    let b = split_both(word, p2, s, j, false, gql, d, end, a.2);
    lemma_found_keyword(Rule::kw_MATCH, "MATCH", s, j, gql, d, b.0, b.1);
    reveal_strlit("MATCH");
    let k = blank_end(s, j + 5);
    let c = split_both(patterns, predicate, s, k, false, gql, d, end, b.2);
    lemma_yields(patterns, s, k, false, gql, d, c.0, c.1);
    lemma_rule_of(Rule::pattern_list, s, k, gql, d);
    let l = blank_end(s, c.0);
    lemma_part(rule, s, l, gql, d, end, c.2);
    let head = (a.1 + b.1) + c.1;
    assert(below =~= head + (c.2 + Seq::<Tree>::empty()));
    assert forall|n: int| 0 <= n < head.len() implies (#[trigger] head[n]).rule != rule by {
        if n < a.1.len() {
            assert(head[n] == a.1[n]);
        } else if n == a.1.len() {
            assert(head[n] == b.1[0]);
        } else {
            assert(head[n] == c.1[0]);
        }
    }
    head
}

/// The predicate of a `MATCH` by its place.
proof fn lemma_match_tail(s: Seq<char>, i: int, gql: bool, d: nat)
    requires
        rule_at(Rule::match_clause, s, i, gql, d) is Match,
    ensures
        ({
            let t = rule_at(Rule::match_clause, s, i, gql, d)->nodes[0];
            let e = (d - 1) as nat;
            let word = blank_end(s, part_end(Rule::optional_marker, s, i, gql, e));
            let patterns = rule_at(Rule::pattern_list, s, blank_end(s, word + 5), gql, e);
            &&& t.rule == Rule::match_clause
            &&& keyword_at(s, "MATCH"@, word)
            &&& patterns is Match
            &&& clause_expression_in(t, predicate_rule(gql), gql) matches Ok(x) ==> stands_behind(
                "WHERE"@,
                s,
                blank_end(s, patterns->Match_end),
                x,
                gql,
                (d - 2) as nat,
            )
        }),
{
    let r = Rule::match_clause;
    let step = rule_at(r, s, i, gql, d);
    let end = step->Match_end;
    let e = (d - 1) as nat;
    let rule = predicate_rule(gql);
    lemma_predicate_rule(gql);
    lemma_run(Peg::Call(r), s, i, false, gql, d);
    let below = split_called(r, s, i, false, gql, d, end, step->nodes);
    let head = lemma_match_head(rule, s, i, gql, e, end, below);
    let word = blank_end(s, part_end(Rule::optional_marker, s, i, gql, e));
    let patterns = rule_at(Rule::pattern_list, s, blank_end(s, word + 5), gql, e);
    let l = blank_end(s, patterns->Match_end);
    let t = step->nodes[0];
    let none = Seq::<Tree>::empty();
    lemma_part_expression(t, i, head, none, rule, Rule::kw_WHERE, "WHERE", s, l, gql, e);
}

/// A `MATCH` has the predicate that `WHERE` brings behind its patterns, and none without
/// it.
pub proof fn law_match_predicate_is_read(s: Seq<char>, i: int, gql: bool, d: nat)
    requires
        rule_at(Rule::match_clause, s, i, gql, d) is Match,
    ensures
        ({
            let e = (d - 1) as nat;
            let word = blank_end(s, part_end(Rule::optional_marker, s, i, gql, e));
            let patterns = rule_at(Rule::pattern_list, s, blank_end(s, word + 5), gql, e);
            &&& keyword_at(s, "MATCH"@, word)
            &&& patterns is Match
            &&& clause_in(rule_at(Rule::match_clause, s, i, gql, d)->nodes[0], gql) matches Ok(c)
                ==> c is Match && exists|x: Option<m::Expression>|
                c->Match_0.where_ == where_clause(x) && #[trigger] stands_behind(
                    "WHERE"@,
                    s,
                    blank_end(s, patterns->Match_end),
                    x,
                    gql,
                    (d - 2) as nat,
                )
        }),
{
    let r = Rule::match_clause;
    let step = rule_at(r, s, i, gql, d);
    let e = (d - 1) as nat;
    let word = blank_end(s, part_end(Rule::optional_marker, s, i, gql, e));
    let patterns = rule_at(Rule::pattern_list, s, blank_end(s, word + 5), gql, e);
    let t = step->nodes[0];
    lemma_match_tail(s, i, gql, d);
    lemma_match_where(t, gql);
    if let Ok(c) = clause_in(t, gql) {
        let x = clause_expression_in(t, predicate_rule(gql), gql)->Ok_0;
        let l = blank_end(s, patterns->Match_end);
        assert(stands_behind("WHERE"@, s, l, x, gql, (d - 2) as nat));
    }
}

} // verus!
