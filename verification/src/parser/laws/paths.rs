//! The law of paths: nodes and relationships take turns.
use vstd::prelude::*;

#[allow(unused_imports)]
use crate::ast::model as m;
#[allow(unused_imports)]
use crate::parser::error::Fault;
#[allow(unused_imports)]
use crate::parser::grammar::{body_of, is_token};
#[allow(unused_imports)]
use crate::parser::meaning::{
    clause_in, clauses_from, elements_from, node_pattern_in, pattern_in, patterns_from,
    statement_from,
};
#[allow(unused_imports)]
use crate::parser::peg::{depth_for, larger, next_part, run, run_more, Peg, Step};
#[allow(unused_imports)]
use crate::parser::query::{parsed, whole_match};
#[allow(unused_imports)]
use crate::parser::tree::{at, holds, index_from, seen_from, Rule, Tree};

verus! {

/// Whether nodes and relationships take turns, with a node at both ends.
pub open spec fn alternates(e: Seq<m::PatternElement>) -> bool {
    &&& e.len() % 2 == 1
    &&& forall|i: int| 0 <= i < e.len() ==> ((#[trigger] e[i] is Node) == (i % 2 == 0))
}

// ── Trees of paths ───────────────────────────────────────────────────────────

/// Whether a node stands for a relationship and the node behind it.
spec fn is_link(t: Tree) -> bool {
    &&& t.rule == Rule::pattern_element_chain || t.rule == Rule::chain_link
    &&& t.children.len() == 2
    &&& t.children[0].rule == Rule::rel_pattern
    &&& t.children[1].rule == Rule::node_pattern
}

spec fn are_links(ch: Seq<Tree>) -> bool {
    forall|i: int| 0 <= i < ch.len() ==> is_link(#[trigger] ch[i])
}

/// Whether nodes stand for a node and the links behind it.
spec fn is_path(ch: Seq<Tree>) -> bool {
    &&& ch.len() > 0
    &&& ch[0].rule == Rule::node_pattern
    &&& are_links(ch.subrange(1, ch.len() as int))
}

/// Whether a node stands for a path, in round brackets or not.
spec fn is_path_tree(t: Tree) -> bool
    decreases t,
{
    is_path(t.children) || (t.children.len() == 1 && t.children[0].rule == Rule::pattern_element
        && is_path_tree(t.children[0]))
}

proof fn lemma_path_seen(ch: Seq<Tree>, i: int)
    requires
        is_path(ch),
    ensures
        is_path(seen_from(ch, i)),
{
    let seen = seen_from(ch, i);
    let rest = ch.subrange(1, ch.len() as int);
    assert forall|k: int| 0 <= k < rest.len() implies is_link(
        #[trigger] seen.subrange(1, seen.len() as int)[k],
    ) by {
        assert(is_link(rest[k]));
    }
}

// ── What the trees stand for ─────────────────────────────────────────────────

proof fn lemma_link_elements(t: Tree, gql: bool)
    requires
        is_link(t),
    ensures
        elements_from(t.children, 0, gql) matches Ok(e) ==> e.len() == 2 && e[0] is Relationship
            && e[1] is Node,
{
    let ch = t.children;
    assert(elements_from(ch, 2, gql) == Ok::<Seq<m::PatternElement>, Fault>(seq![]));
    reveal_with_fuel(elements_from, 3);
}

proof fn lemma_links_elements(ch: Seq<Tree>, i: int, gql: bool)
    requires
        1 <= i <= ch.len(),
        are_links(ch.subrange(1, ch.len() as int)),
    ensures
        elements_from(ch, i, gql) matches Ok(e) ==> e.len() % 2 == 0 && forall|k: int|
            0 <= k < e.len() ==> ((#[trigger] e[k] is Node) == (k % 2 == 1)),
    decreases ch.len() - i,
{
    if i < ch.len() {
        assert(ch.subrange(1, ch.len() as int)[i - 1] == ch[i]);
        lemma_link_elements(ch[i], gql);
        lemma_links_elements(ch, i + 1, gql);
        if let Ok(e) = elements_from(ch, i, gql) {
            let first = elements_from(ch[i].children, 0, gql)->Ok_0;
            let rest = elements_from(ch, i + 1, gql)->Ok_0;
            assert(e == first + rest);
            assert forall|k: int| 0 <= k < e.len() implies ((#[trigger] e[k] is Node) == (k % 2
                == 1)) by {
                if k >= 2 {
                    assert(e[k] == rest[k - 2]);
                }
            }
        }
    }
}

proof fn lemma_path_elements(ch: Seq<Tree>, gql: bool)
    requires
        is_path(ch),
    ensures
        elements_from(ch, 0, gql) matches Ok(e) ==> alternates(e),
{
    lemma_links_elements(ch, 1, gql);
    if let Ok(e) = elements_from(ch, 0, gql) {
        let first = node_pattern_in(ch[0], gql)->Ok_0;
        let rest = elements_from(ch, 1, gql)->Ok_0;
        assert(e == seq![first] + rest);
        assert forall|k: int| 0 <= k < e.len() implies ((#[trigger] e[k] is Node) == (k % 2
            == 0)) by {
            if k >= 1 {
                assert(e[k] == rest[k - 1]);
            }
        }
    }
}

proof fn lemma_path_tree_elements(t: Tree, gql: bool)
    requires
        is_path_tree(t),
    ensures
        elements_from(t.children, 0, gql) matches Ok(e) ==> alternates(e),
    decreases t,
{
    if is_path(t.children) {
        lemma_path_elements(t.children, gql);
    } else {
        let inner = t.children[0];
        lemma_path_tree_elements(inner, gql);
        assert(elements_from(t.children, 1, gql) == Ok::<Seq<m::PatternElement>, Fault>(seq![]));
        if let Ok(e) = elements_from(t.children, 0, gql) {
            let below = elements_from(inner.children, 0, gql)->Ok_0;
            assert(e =~= below);
        }
    }
}

// ── Which trees the grammar gives ────────────────────────────────────────────

/// The nodes of two parts, one behind the other.
pub(super) proof fn lemma_parts(
    a: Peg,
    b: Peg,
    s: Seq<char>,
    i: int,
    token: bool,
    gql: bool,
    depth: nat,
)
    ensures
        match run(Peg::Then(Box::new(a), Box::new(b)), s, i, token, gql, depth) {
            Step::Match { end, nodes, far } => {
                let x = run(a, s, i, token, gql, depth);
                let y = run(b, s, next_part(s, x->Match_end, token), token, gql, depth);
                &&& x is Match
                &&& y is Match
                &&& nodes == x->nodes + y->nodes
                &&& end == y->Match_end
            },
            _ => true,
        },
{
}

proof fn lemma_link(r: Rule, s: Seq<char>, i: int, token: bool, gql: bool, depth: nat)
    requires
        r == Rule::pattern_element_chain || r == Rule::chain_link,
    ensures
        run(Peg::Call(r), s, i, token, gql, depth) matches Step::Match { end, nodes, far }
            ==> nodes.len() == 1 && is_link(nodes[0]),
{
    if depth > 0 {
        let d = (depth - 1) as nat;
        let a = Peg::Call(Rule::rel_pattern);
        let b = Peg::Call(Rule::node_pattern);
        assert(body_of(r, gql) == Peg::Then(Box::new(a), Box::new(b)));
        if let Step::Match { end, nodes, far } = run(body_of(r, gql), s, i, token, gql, d) {
            let x = run(a, s, i, token, gql, d);
            let y = run(b, s, next_part(s, x->Match_end, token), token, gql, d);
            assert(nodes == x->nodes + y->nodes);
        }
    }
}

proof fn lemma_more_links(
    r: Rule,
    s: Seq<char>,
    end: int,
    done: Seq<Tree>,
    f: int,
    token: bool,
    gql: bool,
    depth: nat,
)
    requires
        r == Rule::pattern_element_chain || r == Rule::chain_link,
        are_links(done),
    ensures
        run_more(Peg::Call(r), s, end, done, f, token, gql, depth) matches Step::Match {
            end: e,
            nodes,
            far,
        } ==> are_links(nodes),
    decreases s.len() - end,
{
    if 0 <= end < s.len() {
        let from = next_part(s, end, token);
        lemma_link(r, s, from, token, gql, depth);
        if let Step::Match { end: e, nodes, far } = run(
            Peg::Call(r),
            s,
            from,
            token,
            gql,
            depth,
        ) {
            if end < e <= s.len() {
                lemma_more_links(r, s, e, done + nodes, larger(f, far), token, gql, depth);
            }
        }
    }
}

proof fn lemma_links(r: Rule, s: Seq<char>, i: int, token: bool, gql: bool, depth: nat)
    requires
        r == Rule::pattern_element_chain || r == Rule::chain_link,
    ensures
        run(Peg::Many(Box::new(Peg::Call(r))), s, i, token, gql, depth) matches Step::Match {
            end,
            nodes,
            far,
        } ==> are_links(nodes),
{
    lemma_link(r, s, i, token, gql, depth);
    if let Step::Match { end, nodes, far } = run(Peg::Call(r), s, i, token, gql, depth) {
        lemma_more_links(r, s, end, nodes, far, token, gql, depth);
    }
}

/// A node and the links behind it.
proof fn lemma_path(r: Rule, s: Seq<char>, i: int, token: bool, gql: bool, depth: nat)
    requires
        r == Rule::pattern_element_chain || r == Rule::chain_link,
    ensures
        run(
            Peg::Then(
                Box::new(Peg::Call(Rule::node_pattern)),
                Box::new(Peg::Many(Box::new(Peg::Call(r)))),
            ),
            s,
            i,
            token,
            gql,
            depth,
        ) matches Step::Match { end, nodes, far } ==> is_path(nodes),
{
    let a = Peg::Call(Rule::node_pattern);
    let b = Peg::Many(Box::new(Peg::Call(r)));
    let x = run(a, s, i, token, gql, depth);
    if let Step::Match { end, nodes, far } = run(
        Peg::Then(Box::new(a), Box::new(b)),
        s,
        i,
        token,
        gql,
        depth,
    ) {
        let from = next_part(s, x->Match_end, token);
        lemma_links(r, s, from, token, gql, depth);
        let y = run(b, s, from, token, gql, depth);
        assert(nodes == x->nodes + y->nodes);
        assert(nodes.subrange(1, nodes.len() as int) =~= y->nodes);
    }
}

proof fn lemma_path_tree(s: Seq<char>, i: int, token: bool, gql: bool, depth: nat)
    ensures
        run(Peg::Call(Rule::pattern_element), s, i, token, gql, depth) matches Step::Match {
            end,
            nodes,
            far,
        } ==> nodes.len() == 1 && nodes[0].rule == Rule::pattern_element && is_path_tree(nodes[0]),
    decreases depth,
{
    if depth > 0 {
        let d = (depth - 1) as nat;
        let inner = Peg::Call(Rule::pattern_element);
        let plain = Peg::Then(
            Box::new(Peg::Call(Rule::node_pattern)),
            Box::new(Peg::Many(Box::new(Peg::Call(Rule::pattern_element_chain)))),
        );
        let close = Peg::Word(")");
        let rest = Peg::Then(Box::new(inner), Box::new(close));
        let bracketed = Peg::Then(Box::new(Peg::Word("(")), Box::new(rest));
        let body = Peg::Or(Box::new(plain), Box::new(bracketed));
        assert(body_of(Rule::pattern_element, gql) == body);
        lemma_path(Rule::pattern_element_chain, s, i, token, gql, d);
        if let Step::Match { end, nodes, far } = run(body, s, i, token, gql, d) {
            if run(plain, s, i, token, gql, d) is Fail {
                let x = run(Peg::Word("("), s, i, token, gql, d);
                let from = next_part(s, x->Match_end, token);
                lemma_path_tree(s, from, token, gql, d);
                let y = run(inner, s, from, token, gql, d);
                lemma_parts(Peg::Word("("), rest, s, i, token, gql, d);
                lemma_parts(inner, close, s, from, token, gql, d);
                assert(run(rest, s, from, token, gql, d)->nodes =~= y->nodes);
                assert(nodes =~= y->nodes);
                let seen = seen_from(nodes, i);
                assert(is_path_tree(seen[0])) by {
                    assert(is_path_tree(nodes[0]));
                }
            } else {
                lemma_path_seen(nodes, i);
            }
        }
    }
}

proof fn lemma_relationships(s: Seq<char>, i: int, token: bool, gql: bool, depth: nat)
    ensures
        run(Peg::Call(Rule::relationships_pattern), s, i, token, gql, depth) matches Step::Match {
            end,
            nodes,
            far,
        } ==> nodes.len() == 1 && is_path(nodes[0].children),
{
    if depth > 0 {
        let d = (depth - 1) as nat;
        let a = Peg::Call(Rule::node_pattern);
        let b = Peg::Call(Rule::pattern_element_chain);
        let c = Peg::Many(Box::new(b));
        let rest = Peg::Then(Box::new(b), Box::new(c));
        let body = Peg::Then(Box::new(a), Box::new(rest));
        assert(body_of(Rule::relationships_pattern, gql) == body);
        if let Step::Match { end, nodes, far } = run(body, s, i, token, gql, d) {
            let x = run(a, s, i, token, gql, d);
            let from = next_part(s, x->Match_end, token);
            lemma_link(Rule::pattern_element_chain, s, from, token, gql, d);
            let y = run(b, s, from, token, gql, d);
            let after = next_part(s, y->Match_end, token);
            lemma_links(Rule::pattern_element_chain, s, after, token, gql, d);
            let z = run(c, s, after, token, gql, d);
            let links = run(rest, s, from, token, gql, d);
            assert(links->nodes == y->nodes + z->nodes);
            assert(nodes == x->nodes + links->nodes);
            assert(nodes.subrange(1, nodes.len() as int) =~= links->nodes);
        }
    }
}

proof fn lemma_chain(s: Seq<char>, i: int, token: bool, gql: bool, depth: nat)
    ensures
        run(Peg::Call(Rule::node_pattern_chain), s, i, token, gql, depth) matches Step::Match {
            end,
            nodes,
            far,
        } ==> nodes.len() == 1 && is_path(nodes[0].children),
{
    if depth > 0 {
        let d = (depth - 1) as nat;
        let r = Rule::node_pattern_chain;
        assert(body_of(r, gql) == Peg::Then(
            Box::new(Peg::Call(Rule::node_pattern)),
            Box::new(Peg::Many(Box::new(Peg::Call(Rule::chain_link)))),
        ));
        lemma_path(Rule::chain_link, s, i, token, gql, d);
        if let Step::Match { end, nodes, far } = run(body_of(r, gql), s, i, token, gql, d) {
            lemma_path_seen(nodes, i);
        }
    }
}

/// In each path that the grammars give, in round brackets or not, nodes and
/// relationships take turns, and a node stands at both ends.
pub proof fn law_paths_alternate(
    r: Rule,
    s: Seq<char>,
    i: int,
    token: bool,
    gql: bool,
    depth: nat,
)
    requires
        r == Rule::pattern_element || r == Rule::node_pattern_chain || r
            == Rule::relationships_pattern,
    ensures
        run(Peg::Call(r), s, i, token, gql, depth) matches Step::Match { end, nodes, far } ==> {
            &&& nodes.len() == 1
            &&& nodes[0].rule == r
            &&& elements_from(nodes[0].children, 0, gql) matches Ok(e) ==> alternates(e)
        },
{
    if let Step::Match { end, nodes, far } = run(Peg::Call(r), s, i, token, gql, depth) {
        if r == Rule::pattern_element {
            lemma_path_tree(s, i, token, gql, depth);
            lemma_path_tree_elements(nodes[0], gql);
        } else if r == Rule::relationships_pattern {
            lemma_relationships(s, i, token, gql, depth);
            lemma_path_elements(nodes[0].children, gql);
        } else {
            lemma_chain(s, i, token, gql, depth);
            lemma_path_elements(nodes[0].children, gql);
        }
    }
}

// ── Whole queries ────────────────────────────────────────────────────────────

/// Whether the paths in a tree are built as they have to be.
spec fn has_paths(t: Tree) -> bool
    decreases t,
{
    &&& t.rule == Rule::pattern_element ==> is_path_tree(t)
    &&& t.rule == Rule::node_pattern_chain || t.rule == Rule::relationships_pattern ==> is_path(
        t.children,
    )
    &&& all_have_paths(t.children)
}

spec fn all_have_paths(v: Seq<Tree>) -> bool
    decreases v,
{
    forall|i: int| 0 <= i < v.len() ==> has_paths(#[trigger] v[i])
}

proof fn lemma_seen_paths(v: Seq<Tree>, i: int)
    requires
        all_have_paths(v),
    ensures
        all_have_paths(seen_from(v, i)),
{
    assert forall|k: int| 0 <= k < v.len() implies has_paths(#[trigger] seen_from(v, i)[k]) by {
        assert(has_paths(v[k]));
    }
}

/// The grammars build paths as they have to.
proof fn lemma_builds_paths(
    p: Peg,
    s: Seq<char>,
    i: int,
    token: bool,
    gql: bool,
    depth: nat,
)
    ensures
        run(p, s, i, token, gql, depth) matches Step::Match { end, nodes, far } ==> all_have_paths(
            nodes,
        ),
    decreases depth, p, 0int,
{
    match p {
        Peg::Call(r) => {
            if depth > 0 {
                let d = (depth - 1) as nat;
                let body = body_of(r, gql);
                lemma_builds_paths(body, s, i, token || is_token(r), gql, d);
                if let Step::Match { end, nodes, far } = run(
                    body,
                    s,
                    i,
                    token || is_token(r),
                    gql,
                    d,
                ) {
                    let t = run(p, s, i, token, gql, depth)->nodes[0];
                    lemma_seen_paths(nodes, i);
                    assert(all_have_paths(t.children));
                    if r == Rule::pattern_element {
                        lemma_path_tree(s, i, token, gql, depth);
                    } else if r == Rule::relationships_pattern {
                        lemma_relationships(s, i, token, gql, depth);
                    } else if r == Rule::node_pattern_chain {
                        lemma_chain(s, i, token, gql, depth);
                    }
                    assert(has_paths(t));
                }
            }
        },
        Peg::Then(a, b) => {
            lemma_builds_paths(*a, s, i, token, gql, depth);
            if let Step::Match { end, nodes, far } = run(*a, s, i, token, gql, depth) {
                lemma_builds_paths(*b, s, next_part(s, end, token), token, gql, depth);
            }
        },
        Peg::Or(a, b) => {
            lemma_builds_paths(*a, s, i, token, gql, depth);
            lemma_builds_paths(*b, s, i, token, gql, depth);
        },
        Peg::Maybe(a) => {
            lemma_builds_paths(*a, s, i, token, gql, depth);
        },
        Peg::Many(a) => {
            lemma_builds_paths(*a, s, i, token, gql, depth);
            if let Step::Match { end, nodes, far } = run(*a, s, i, token, gql, depth) {
                lemma_more_paths(*a, s, end, nodes, far, token, gql, depth);
            }
        },
        _ => {},
    }
}

proof fn lemma_more_paths(
    p: Peg,
    s: Seq<char>,
    end: int,
    done: Seq<Tree>,
    f: int,
    token: bool,
    gql: bool,
    depth: nat,
)
    requires
        all_have_paths(done),
    ensures
        run_more(p, s, end, done, f, token, gql, depth) matches Step::Match { end: e, nodes, far }
            ==> all_have_paths(nodes),
    decreases depth, p, 1 + s.len() - end,
{
    if 0 <= end < s.len() {
        let from = next_part(s, end, token);
        lemma_builds_paths(p, s, from, token, gql, depth);
        if let Step::Match { end: e, nodes, far } = run(p, s, from, token, gql, depth) {
            if end < e <= s.len() {
                assert(all_have_paths(done + nodes));
                lemma_more_paths(p, s, e, done + nodes, larger(f, far), token, gql, depth);
            }
        }
    }
}

proof fn lemma_index(v: Seq<Tree>, r: Rule, i: int)
    ensures
        0 <= index_from(v, r, i) ==> index_from(v, r, i) < v.len() && v[index_from(v, r, i)].rule
            == r,
    decreases v.len() - i,
{
    if 0 <= i < v.len() && v[i].rule != r {
        lemma_index(v, r, i + 1);
    }
}

proof fn lemma_pattern_alternates(t: Tree, gql: bool)
    requires
        has_paths(t),
    ensures
        pattern_in(t, gql) matches Ok(p) ==> alternates(p.elements),
{
    if gql {
        let i = at(t, Rule::node_pattern_chain);
        lemma_index(t.children, Rule::node_pattern_chain, 0);
        if holds(t, i) {
            assert(has_paths(t.children[i]));
            lemma_path_elements(t.children[i].children, gql);
        }
    } else {
        let i = at(t, Rule::anonymous_pattern_part);
        if holds(t, i) && holds(t.children[i], 0) {
            assert(has_paths(t.children[i]));
            let p = t.children[i].children[0];
            assert(has_paths(p));
            if p.rule == Rule::pattern_element {
                lemma_path_tree_elements(p, gql);
            } else {
                let k = at(p, Rule::pattern_element);
                lemma_index(p.children, Rule::pattern_element, 0);
                if holds(p, k) {
                    assert(has_paths(p.children[k]));
                    lemma_path_tree_elements(p.children[k], gql);
                }
            }
        }
    }
}

/// Whether nodes and relationships take turns in each of several patterns.
pub open spec fn all_alternate(v: Seq<m::Pattern>) -> bool {
    forall|i: int| 0 <= i < v.len() ==> alternates((#[trigger] v[i]).elements)
}

/// Whether nodes and relationships take turns in the patterns of a clause.
pub open spec fn clause_alternates(c: m::Clause) -> bool {
    match c {
        m::Clause::Match(x) => all_alternate(x.pattern.0),
        m::Clause::Create(x) => all_alternate(x.pattern.0),
        m::Clause::Merge(x) => alternates(x.pattern.elements),
        _ => true,
    }
}

pub open spec fn clauses_alternate(v: Seq<m::Clause>) -> bool {
    forall|i: int| 0 <= i < v.len() ==> clause_alternates(#[trigger] v[i])
}

proof fn lemma_patterns_alternate(ch: Seq<Tree>, i: int, gql: bool)
    requires
        all_have_paths(ch),
        0 <= i,
    ensures
        patterns_from(ch, i, gql) matches Ok(v) ==> all_alternate(v),
    decreases ch.len() - i,
{
    if i < ch.len() {
        assert(has_paths(ch[i]));
        lemma_pattern_alternates(ch[i], gql);
        lemma_patterns_alternate(ch, i + 1, gql);
        if let Ok(v) = patterns_from(ch, i, gql) {
            if ch[i].rule == Rule::pattern {
                let rest = patterns_from(ch, i + 1, gql)->Ok_0;
                assert(v == seq![pattern_in(ch[i], gql)->Ok_0] + rest);
                assert forall|k: int| 0 <= k < v.len() implies alternates(
                    (#[trigger] v[k]).elements,
                ) by {
                    if k > 0 {
                        assert(v[k] == rest[k - 1]);
                    }
                }
            }
        }
    }
}

proof fn lemma_clause_alternates(t: Tree, gql: bool)
    requires
        has_paths(t),
    ensures
        clause_in(t, gql) matches Ok(c) ==> clause_alternates(c),
{
    let i = at(t, Rule::pattern_list);
    if holds(t, i) {
        assert(has_paths(t.children[i]));
        lemma_patterns_alternate(t.children[i].children, 0, gql);
    }
    let k = at(t, Rule::pattern);
    if holds(t, k) {
        assert(has_paths(t.children[k]));
        lemma_pattern_alternates(t.children[k], gql);
    }
}

proof fn lemma_clauses_alternate(ch: Seq<Tree>, i: int, gql: bool)
    requires
        all_have_paths(ch),
        0 <= i,
    ensures
        clauses_from(ch, i, gql) matches Ok(v) ==> clauses_alternate(v),
    decreases ch.len() - i,
{
    if i < ch.len() {
        assert(has_paths(ch[i]));
        lemma_clauses_alternate(ch, i + 1, gql);
        if ch[i].rule == Rule::clause && holds(ch[i], 0) {
            assert(has_paths(ch[i].children[0]));
            lemma_clause_alternates(ch[i].children[0], gql);
            if let Ok(v) = clauses_from(ch, i, gql) {
                let rest = clauses_from(ch, i + 1, gql)->Ok_0;
                assert(v == seq![clause_in(ch[i].children[0], gql)->Ok_0] + rest);
                assert forall|k: int| 0 <= k < v.len() implies clause_alternates(
                    #[trigger] v[k],
                ) by {
                    if k > 0 {
                        assert(v[k] == rest[k - 1]);
                    }
                }
            }
        }
    }
}

proof fn lemma_statement_alternates(ch: Seq<Tree>, i: int)
    requires
        all_have_paths(ch),
        0 <= i,
    ensures
        statement_from(ch, i) matches Ok(v) ==> clauses_alternate(v),
    decreases ch.len() - i,
{
    if i < ch.len() {
        assert(has_paths(ch[i]));
        lemma_clauses_alternate(ch[i].children, 0, false);
        lemma_statement_alternates(ch, i + 1);
        if let Ok(v) = statement_from(ch, i) {
            let rest = statement_from(ch, i + 1)->Ok_0;
            let n = v.len() - rest.len();
            assert forall|k: int| 0 <= k < v.len() implies clause_alternates(#[trigger] v[k]) by {
                if k >= n {
                    assert(v[k] == rest[k - n]);
                } else if ch[i].rule == Rule::single_query {
                    assert(v[k] == clauses_from(ch[i].children, 0, false)->Ok_0[k]);
                }
            }
        }
    }
}

/// In every pattern of every query that is parsed, nodes and relationships take
/// turns, and a node stands at both ends.
pub proof fn law_parsed_paths_alternate(s: Seq<char>, gql: bool)
    ensures
        parsed(s, gql) matches Ok(c) ==> clauses_alternate(c),
{
    let p = Peg::Call(Rule::query);
    lemma_builds_paths(p, s, 0, false, gql, depth_for(s.len()));
    if let Step::Match { end, nodes, far } = whole_match(s, gql) {
        let t = nodes[0];
        assert(has_paths(t));
        let i = at(t, Rule::statement);
        if holds(t, i) {
            assert(has_paths(t.children[i]));
            lemma_clauses_alternate(t.children[i].children, 0, gql);
            lemma_statement_alternates(t.children[i].children, 0);
        }
    }
}

} // verus!
