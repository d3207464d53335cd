//! The law of `IS`: in GQL, labels and types behind `IS` are those behind colons.
use vstd::prelude::*;

#[allow(unused_imports)]
use crate::ast::model as m;
#[allow(unused_imports)]
use crate::parser::error::{Built, Fault};
#[allow(unused_imports)]
use crate::parser::grammar::body_of;
#[allow(unused_imports)]
use crate::parser::laws::labels::{
    colons_at, is_labels_at, is_variable_name, lemma_colon_node, lemma_is_node, lemma_no_variable,
    lemma_plain_node,
};
#[allow(unused_imports)]
use crate::parser::laws::{law_matches_stand_in_text, lemma_blank_end};
#[allow(unused_imports)]
use crate::parser::laws::shift::{
    lemma_rest, lemma_shift, lemma_shift_blanks, lemma_shift_more, moved, same_rest,
};
#[allow(unused_imports)]
use crate::parser::laws::steps::{
    char_at, fails, followed, gives, is_name, lemma_blank, lemma_call, lemma_call_fails,
    lemma_no_blank, lemma_no_sign, lemma_not, lemma_often_not, lemma_often_once, lemma_one,
    lemma_or_fails, lemma_or_first, lemma_perhaps_not, lemma_sign, lemma_then, lemma_then_fails,
    lemma_word, name_at, node_for, often, or, perhaps,
};
#[allow(unused_imports)]
use crate::parser::laws::types::{
    colon_type_at, is_type_at, lemma_colon_relationship, lemma_is_relationship,
};
#[allow(unused_imports)]
use crate::parser::laws::variables::{lemma_other_keyword, lemma_return_clause, returns_at};
#[allow(unused_imports)]
use crate::parser::meaning::{
    clause_in, clauses_from, elements_from, match_in, node_pattern_in, pattern_in, patterns_from,
    query_in, rel_pattern_in, where_in,
};
#[allow(unused_imports)]
use crate::parser::peg::{
    blank_end, depth_for, in_class, next_part, run, run_more, word_at, Class, Peg, Step,
};
#[allow(unused_imports)]
use crate::parser::query::{parsed, whole_match};
#[allow(unused_imports)]
use crate::parser::tree::{at, index_from, seen_from, Rule, Tree};
#[allow(unused_imports)]
use crate::text::lower;

verus! {

// ── Trees apart from where they stand ────────────────────────────────────────

/// Whether two nodes are the same apart from where they stand.
spec fn same_node(t: Tree, u: Tree) -> bool {
    t.rule == u.rule && t.text == u.text && t.children == u.children
}

/// What a node adds to a path.
spec fn part_of(t: Tree) -> Built<Seq<m::PatternElement>> {
    match t.rule {
        Rule::node_pattern => match node_pattern_in(t, true) {
            Err(f) => Err(f),
            Ok(e) => Ok(seq![e]),
        },
        Rule::rel_pattern => match rel_pattern_in(t, true) {
            Err(f) => Err(f),
            Ok(e) => Ok(seq![e]),
        },
        Rule::pattern_element_chain => elements_from(t.children, 0, true),
        Rule::chain_link => elements_from(t.children, 0, true),
        Rule::pattern_element => elements_from(t.children, 0, true),
        _ => Ok(seq![]),
    }
}

proof fn lemma_same_part(t: Tree, u: Tree)
    requires
        same_node(t, u),
    ensures
        part_of(t) == part_of(u),
        node_pattern_in(t, true) == node_pattern_in(u, true),
        rel_pattern_in(t, true) == rel_pattern_in(u, true),
{
}

proof fn lemma_same_elements(v: Seq<Tree>, w: Seq<Tree>, i: int)
    requires
        v.len() == w.len(),
        0 <= i <= v.len(),
        forall|k: int| i <= k < v.len() ==> part_of(#[trigger] v[k]) == part_of(w[k]),
    ensures
        elements_from(v, i, true) == elements_from(w, i, true),
    decreases v.len() - i,
{
    if i < v.len() {
        lemma_same_elements(v, w, i + 1);
        assert(part_of(v[i]) == part_of(w[i]));
        lemma_elements_step(v, i);
        lemma_elements_step(w, i);
    }
}

proof fn lemma_elements_step(v: Seq<Tree>, i: int)
    requires
        0 <= i < v.len(),
    ensures
        elements_from(v, i, true) == (match part_of(v[i]) {
            Err(f) => Err::<Seq<m::PatternElement>, Fault>(f),
            Ok(e) => match elements_from(v, i + 1, true) {
                Err(f) => Err(f),
                Ok(rest) => Ok(e + rest),
            },
        }),
{
}

spec fn same_pattern(t: Tree, u: Tree) -> bool {
    t.rule == u.rule && pattern_in(t, true) == pattern_in(u, true)
}

proof fn lemma_same_patterns(v: Seq<Tree>, w: Seq<Tree>, i: int)
    requires
        v.len() == w.len(),
        0 <= i <= v.len(),
        forall|k: int| i <= k < v.len() ==> same_pattern(#[trigger] v[k], w[k]),
    ensures
        patterns_from(v, i, true) == patterns_from(w, i, true),
    decreases v.len() - i,
{
    if i < v.len() {
        lemma_same_patterns(v, w, i + 1);
        assert(same_pattern(v[i], w[i]));
    }
}

spec fn same_clause(t: Tree, u: Tree) -> bool {
    &&& t.rule == u.rule
    &&& t.children.len() == u.children.len()
    &&& t.children.len() > 0 ==> clause_in(t.children[0], true) == clause_in(u.children[0], true)
}

proof fn lemma_same_clauses(v: Seq<Tree>, w: Seq<Tree>, i: int)
    requires
        v.len() == w.len(),
        0 <= i <= v.len(),
        forall|k: int| i <= k < v.len() ==> same_clause(#[trigger] v[k], w[k]),
    ensures
        clauses_from(v, i, true) == clauses_from(w, i, true),
    decreases v.len() - i,
{
    if i < v.len() {
        lemma_same_clauses(v, w, i + 1);
        assert(same_clause(v[i], w[i]));
    }
}

// ── Two texts ────────────────────────────────────────────────────────────────

/// Whether a rule gives one node in each of two texts, behind which the texts
/// are the same. The second is eight characters longer before that.
spec fn both_give(
    r: Rule,
    a: Seq<char>,
    i: int,
    d: nat,
    b: Seq<char>,
    j: int,
    e: nat,
    x: Tree,
    y: Tree,
) -> bool {
    let v = run(Peg::Call(r), a, i, false, true, d);
    let w = run(Peg::Call(r), b, j, false, true, e);
    &&& v is Match
    &&& w is Match
    &&& v->nodes == seq![x]
    &&& w->nodes == seq![y]
    &&& w->Match_end == v->Match_end + 8
    &&& same_rest(a, v->Match_end, b, w->Match_end)
    &&& x.rule == r
    &&& y.rule == r
}

/// Whether two matches begin with two nodes and go on in the same way.
spec fn go_on(v: Step, a: Seq<char>, w: Step, b: Seq<char>, x: Tree, y: Tree) -> bool {
    let tail = v->nodes.skip(1);
    &&& v is Match
    &&& w is Match
    &&& w->Match_end == v->Match_end + 8
    &&& same_rest(a, v->Match_end, b, w->Match_end)
    &&& v->nodes == seq![x] + tail
    &&& w->nodes == seq![y] + moved(tail, 8)
}

proof fn lemma_then_same(
    r: Rule,
    g: Peg,
    a: Seq<char>,
    i: int,
    d: nat,
    b: Seq<char>,
    j: int,
    e: nat,
    x: Tree,
    y: Tree,
)
    requires
        both_give(r, a, i, d, b, j, e, x, y),
        d <= e,
        run(followed(Peg::Call(r), g), a, i, false, true, d) is Match,
    ensures
        go_on(
            run(followed(Peg::Call(r), g), a, i, false, true, d),
            a,
            run(followed(Peg::Call(r), g), b, j, false, true, e),
            b,
            x,
            y,
        ),
{
    let f = Peg::Call(r);
    let v1 = run(f, a, i, false, true, d);
    let w1 = run(f, b, j, false, true, e);
    lemma_shift_blanks(a, v1->Match_end, b, w1->Match_end);
    let from = next_part(a, v1->Match_end, false);
    lemma_shift(g, a, from, b, from + 8, false, true, d, e);
    let v2 = run(g, a, from, false, true, d);
    let v = run(followed(f, g), a, i, false, true, d);
    let w = run(followed(f, g), b, j, false, true, e);
    assert(v->nodes == seq![x] + v2->nodes);
    assert(v->nodes.skip(1) =~= v2->nodes);
    assert(w->nodes == seq![y] + moved(v2->nodes, 8));
}

proof fn lemma_often_same(
    r: Rule,
    a: Seq<char>,
    i: int,
    d: nat,
    b: Seq<char>,
    j: int,
    e: nat,
    x: Tree,
    y: Tree,
)
    requires
        both_give(r, a, i, d, b, j, e, x, y),
        d <= e,
        !(run(often(Peg::Call(r)), a, i, false, true, d) is Deep),
    ensures
        go_on(
            run(often(Peg::Call(r)), a, i, false, true, d),
            a,
            run(often(Peg::Call(r)), b, j, false, true, e),
            b,
            x,
            y,
        ),
{
    let f = Peg::Call(r);
    let v1 = run(f, a, i, false, true, d);
    let w1 = run(f, b, j, false, true, e);
    lemma_shift_more(
        f,
        a,
        v1->Match_end,
        v1->nodes,
        v1->Match_far,
        b,
        w1->Match_end,
        w1->nodes,
        w1->Match_far,
        false,
        true,
        d,
        e,
    );
}

/// The node of a rule with nodes of its own, in two texts.
proof fn lemma_call_same(
    r: Rule,
    a: Seq<char>,
    i: int,
    d: nat,
    b: Seq<char>,
    j: int,
    e: nat,
    x: Seq<Tree>,
    y: Seq<Tree>,
)
    requires
        !crate::parser::grammar::is_token(r),
        d > 0,
        e > 0,
        ({
            let v = run(body_of(r, true), a, i, false, true, (d - 1) as nat);
            let w = run(body_of(r, true), b, j, false, true, (e - 1) as nat);
            &&& v is Match
            &&& w is Match
            &&& v->nodes == x
            &&& w->nodes == y
            &&& w->Match_end == v->Match_end + 8
            &&& same_rest(a, v->Match_end, b, w->Match_end)
        }),
    ensures
        ({
            let p = run(Peg::Call(r), a, i, false, true, d)->nodes[0];
            let q = run(Peg::Call(r), b, j, false, true, e)->nodes[0];
            &&& both_give(r, a, i, d, b, j, e, p, q)
            &&& p.children == seen_from(x, i)
            &&& q.children == seen_from(y, j)
        }),
{
    let v = run(Peg::Call(r), a, i, false, true, d);
    let w = run(Peg::Call(r), b, j, false, true, e);
    assert(v->nodes =~= seq![v->nodes[0]]);
    assert(w->nodes =~= seq![w->nodes[0]]);
}

// ── The two forms ────────────────────────────────────────────────────────────

/// The names of a pattern with two labels and a type.
pub ghost struct Names {
    pub node: Seq<char>,
    pub first: Seq<char>,
    pub second: Seq<char>,
    pub relationship: Seq<char>,
    pub kind: Seq<char>,
    pub target: Seq<char>,
}

pub open spec fn are_names(x: Names) -> bool {
    &&& is_variable_name(x.node)
    &&& is_name(x.first)
    &&& is_name(x.second)
    &&& is_variable_name(x.relationship)
    &&& is_name(x.kind)
    &&& is_variable_name(x.target)
}

proof fn lemma_are_names(x: Names)
    requires
        are_names(x),
    ensures
        is_name(x.node),
        is_name(x.relationship),
        is_name(x.target),
{
    reveal(is_variable_name);
}

spec fn begins(s: Seq<char>) -> bool {
    &&& char_at(s, 0, 'M') && char_at(s, 1, 'A') && char_at(s, 2, 'T')
    &&& char_at(s, 3, 'C') && char_at(s, 4, 'H')
    &&& char_at(s, 5, ' ') && char_at(s, 6, '(')
}

/// Where the relationship begins, in the form with colons.
spec fn middle(x: Names) -> int {
    (10 + x.node.len() + x.first.len() + x.second.len()) as int
}

/// Where the second node begins, in the form with colons.
spec fn last(x: Names) -> int {
    middle(x) + 6 + x.relationship.len() + x.kind.len()
}

spec fn target_at(s: Seq<char>, i: int, x: Names) -> bool {
    char_at(s, i, '(') && name_at(s, i + 1, x.target) && char_at(s, i + 1 + x.target.len(), ')')
}

#[verifier::opaque]
spec fn has_colons(s: Seq<char>, x: Names) -> bool {
    let j = middle(x);
    let e = j + 4 + x.relationship.len() + x.kind.len();
    &&& begins(s)
    &&& name_at(s, 7, x.node)
    &&& colons_at(s, 7int + x.node.len(), x.first, x.second)
    &&& char_at(s, j, '-') && char_at(s, j + 1, '[')
    &&& name_at(s, j + 2, x.relationship)
    &&& colon_type_at(s, j + 2 + x.relationship.len(), x.kind)
    &&& char_at(s, e, '-') && char_at(s, e + 1, '>')
    &&& target_at(s, last(x), x)
}

#[verifier::opaque]
spec fn has_is(s: Seq<char>, x: Names) -> bool {
    let j = middle(x) + 5;
    let e = j + 7 + x.relationship.len() + x.kind.len();
    &&& begins(s)
    &&& name_at(s, 7, x.node)
    &&& char_at(s, 7int + x.node.len(), ' ')
    &&& is_labels_at(s, 8int + x.node.len(), x.first, x.second)
    &&& char_at(s, j, '-') && char_at(s, j + 1, '[')
    &&& name_at(s, j + 2, x.relationship)
    &&& char_at(s, j + 2 + x.relationship.len(), ' ')
    &&& is_type_at(s, j + 3 + x.relationship.len(), x.kind)
    &&& char_at(s, e, '-') && char_at(s, e + 1, '>')
}

/// Whether two texts are the two forms, with the same text behind.
#[verifier::opaque]
spec fn are_forms(a: Seq<char>, b: Seq<char>, x: Names) -> bool {
    &&& are_names(x)
    &&& has_colons(a, x)
    &&& has_is(b, x)
    &&& same_rest(a, last(x), b, last(x) + 8)
}

proof fn lemma_begins(a: Seq<char>, b: Seq<char>, x: Names)
    requires
        are_forms(a, b, x),
    ensures
        begins(a),
        begins(b),
{
    reveal(are_forms);
    reveal(has_colons);
    reveal(has_is);
}

proof fn lemma_link(a: Seq<char>, b: Seq<char>, x: Names, d: nat, e: nat)
    requires
        are_forms(a, b, x),
        8 < d <= e,
    ensures
        ({
            let p = run(Peg::Call(Rule::chain_link), a, middle(x), false, true, d)->nodes[0];
            let q = run(Peg::Call(Rule::chain_link), b, middle(x) + 5, false, true, e)->nodes[0];
            &&& both_give(Rule::chain_link, a, middle(x), d, b, middle(x) + 5, e, p, q)
            &&& part_of(p) == part_of(q)
        }),
{
    reveal(are_forms);
    reveal(has_colons);
    reveal(has_is);
    let i = middle(x);
    let j = i + 5;
    let k = last(x);
    let d1 = (d - 1) as nat;
    let e1 = (e - 1) as nat;
    let rel = Peg::Call(Rule::rel_pattern);
    let node = Peg::Call(Rule::node_pattern);
    assert(body_of(Rule::chain_link, true) == followed(rel, node));
    let r = lemma_colon_relationship(a, i, x.relationship, x.kind, d1);
    let s = lemma_is_relationship(b, j, x.relationship, x.kind, e1);
    let n = lemma_plain_node(a, k, x.target, d1);
    reveal(gives);
    lemma_shift(node, a, k, b, k + 8, false, true, d1, e1);
    lemma_rest(a, k, b, k + 8, 0);
    lemma_no_blank(a, k);
    lemma_no_blank(b, k + 8);
    let o = run(node, b, k + 8, false, true, e1)->nodes[0];
    assert(run(node, b, k + 8, false, true, e1)->nodes =~= seq![o]);
    assert(same_node(n, o));
    let v = run(followed(rel, node), a, i, false, true, d1);
    let w = run(followed(rel, node), b, j, false, true, e1);
    assert(v->nodes == seq![r] + seq![n]);
    assert(w->nodes == seq![s] + seq![o]);
    lemma_call_same(Rule::chain_link, a, i, d, b, j, e, seq![r] + seq![n], seq![s] + seq![o]);
    let p = run(Peg::Call(Rule::chain_link), a, i, false, true, d)->nodes[0];
    let q = run(Peg::Call(Rule::chain_link), b, j, false, true, e)->nodes[0];
    let v = p.children;
    let w = q.children;
    assert(same_node(v[0], r) && same_node(w[0], s) && same_node(v[1], n) && same_node(w[1], o));
    lemma_same_part(v[0], r);
    lemma_same_part(w[0], s);
    assert(same_node(v[1], w[1]));
    lemma_same_part(v[1], w[1]);
    assert forall|y: int| 0 <= y < v.len() implies part_of(#[trigger] v[y]) == part_of(w[y]) by {
        assert(y == 0 || y == 1);
    }
    lemma_same_elements(v, w, 0);
}

proof fn lemma_chain(a: Seq<char>, b: Seq<char>, x: Names, d: nat, e: nat)
    requires
        are_forms(a, b, x),
        9 < d <= e,
        !(run(Peg::Call(Rule::node_pattern_chain), a, 6, false, true, d) is Deep),
    ensures
        ({
            let p = run(Peg::Call(Rule::node_pattern_chain), a, 6, false, true, d)->nodes[0];
            let q = run(Peg::Call(Rule::node_pattern_chain), b, 6, false, true, e)->nodes[0];
            &&& both_give(Rule::node_pattern_chain, a, 6, d, b, 6, e, p, q)
            &&& elements_from(p.children, 0, true) == elements_from(q.children, 0, true)
        }),
{
    let i = middle(x);
    let j = i + 5;
    let d1 = (d - 1) as nat;
    let e1 = (e - 1) as nat;
    let node = Peg::Call(Rule::node_pattern);
    let link = Peg::Call(Rule::chain_link);
    assert(body_of(Rule::node_pattern_chain, true) == followed(node, often(link)));
    lemma_link(a, b, x, d1, e1);
    reveal(are_forms);
    reveal(has_colons);
    reveal(has_is);
    let t = lemma_colon_node(a, 6, x.node, x.first, x.second, d1);
    let u = lemma_is_node(b, 6, x.node, x.first, x.second, e1);
    lemma_no_blank(a, i);
    lemma_no_blank(b, j);
    let r = run(link, a, i, false, true, d1)->nodes[0];
    let s = run(link, b, j, false, true, e1)->nodes[0];
    reveal(gives);
    let v1 = run(often(link), a, i, false, true, d1);
    let w1 = run(often(link), b, j, false, true, e1);
    let v = run(followed(node, often(link)), a, 6, false, true, d1);
    let w = run(followed(node, often(link)), b, 6, false, true, e1);
    assert(!(v is Deep));
    assert(!(v1 is Deep));
    lemma_often_same(Rule::chain_link, a, i, d1, b, j, e1, r, s);
    let tail = v1->nodes.skip(1);
    assert(v->nodes == seq![t] + v1->nodes);
    assert(w->nodes == seq![u] + w1->nodes);
    lemma_call_same(
        Rule::node_pattern_chain,
        a,
        6,
        d,
        b,
        6,
        e,
        seq![t] + v1->nodes,
        seq![u] + w1->nodes,
    );
    let p = run(Peg::Call(Rule::node_pattern_chain), a, 6, false, true, d)->nodes[0];
    let q = run(Peg::Call(Rule::node_pattern_chain), b, 6, false, true, e)->nodes[0];
    assert forall|k: int| 0 <= k < p.children.len() implies part_of(#[trigger] p.children[k])
        == part_of(q.children[k]) by {
        if k == 0 {
            assert(same_node(p.children[0], t) && same_node(q.children[0], u));
            lemma_same_part(p.children[0], t);
            lemma_same_part(q.children[0], u);
        } else if k == 1 {
            assert(same_node(p.children[1], r) && same_node(q.children[1], s));
            lemma_same_part(p.children[1], r);
            lemma_same_part(q.children[1], s);
        } else {
            assert(same_node(p.children[k], tail[k - 2]));
            assert(same_node(q.children[k], tail[k - 2]));
            lemma_same_part(p.children[k], q.children[k]);
        }
    }
    lemma_same_elements(p.children, q.children, 0);
}

proof fn lemma_pattern(a: Seq<char>, b: Seq<char>, x: Names, d: nat, e: nat)
    requires
        are_forms(a, b, x),
        10 < d <= e,
        !(run(Peg::Call(Rule::pattern), a, 6, false, true, d) is Deep),
    ensures
        ({
            let p = run(Peg::Call(Rule::pattern), a, 6, false, true, d)->nodes[0];
            let q = run(Peg::Call(Rule::pattern), b, 6, false, true, e)->nodes[0];
            &&& both_give(Rule::pattern, a, 6, d, b, 6, e, p, q)
            &&& same_pattern(p, q)
        }),
{
    let d1 = (d - 1) as nat;
    let e1 = (e - 1) as nat;
    let chain = Peg::Call(Rule::node_pattern_chain);
    let variable = Peg::Call(Rule::variable);
    let named = followed(variable, Peg::Word("="));
    assert(body_of(Rule::pattern, true) == followed(perhaps(named), chain));
    lemma_begins(a, b, x);
    lemma_no_variable(a, 6, d1);
    lemma_no_variable(b, 6, e1);
    lemma_then_fails(variable, Peg::Word("="), a, 6, false, d1);
    lemma_then_fails(variable, Peg::Word("="), b, 6, false, e1);
    lemma_perhaps_not(named, a, 6, false, d1);
    lemma_perhaps_not(named, b, 6, false, e1);
    lemma_no_blank(a, 6);
    lemma_no_blank(b, 6);
    reveal(gives);
    let v = run(followed(perhaps(named), chain), a, 6, false, true, d1);
    let w = run(followed(perhaps(named), chain), b, 6, false, true, e1);
    assert(!(v is Deep));
    assert(!(run(chain, a, 6, false, true, d1) is Deep));
    lemma_chain(a, b, x, d1, e1);
    let r = run(chain, a, 6, false, true, d1)->nodes[0];
    let t = run(chain, b, 6, false, true, e1)->nodes[0];
    assert(v->nodes =~= seq![r]);
    assert(w->nodes =~= seq![t]);
    lemma_call_same(Rule::pattern, a, 6, d, b, 6, e, seq![r], seq![t]);
    let p = run(Peg::Call(Rule::pattern), a, 6, false, true, d)->nodes[0];
    let q = run(Peg::Call(Rule::pattern), b, 6, false, true, e)->nodes[0];
    reveal_with_fuel(index_from, 3);
    assert(at(p, Rule::variable) == -1 && at(q, Rule::variable) == -1);
    assert(at(p, Rule::node_pattern_chain) == 0 && at(q, Rule::node_pattern_chain) == 0);
    assert(p.children[0].children == r.children && q.children[0].children == t.children);
}

/// A repetition does not fail.
proof fn lemma_often_matches(f: Peg, s: Seq<char>, i: int, d: nat)
    requires
        0 <= i <= s.len(),
    ensures
        !(run(often(f), s, i, false, true, d) is Fail),
{
    law_matches_stand_in_text(f, s, i, false, true, d);
    if let Step::Match { end, nodes, far } = run(f, s, i, false, true, d) {
        let v = run_more(f, s, end, nodes, far, false, true, d);
        if !(v is Deep) {
            assert(same_rest(s, end, s, end));
            lemma_shift_more(f, s, end, nodes, far, s, end, nodes, far, false, true, d, d);
        }
    }
}

proof fn lemma_same_pattern(t: Tree, u: Tree)
    requires
        same_node(t, u),
    ensures
        same_pattern(t, u),
{
}

proof fn lemma_list(a: Seq<char>, b: Seq<char>, x: Names, d: nat, e: nat)
    requires
        are_forms(a, b, x),
        11 < d <= e,
        !(run(Peg::Call(Rule::pattern_list), a, 6, false, true, d) is Deep),
    ensures
        ({
            let p = run(Peg::Call(Rule::pattern_list), a, 6, false, true, d)->nodes[0];
            let q = run(Peg::Call(Rule::pattern_list), b, 6, false, true, e)->nodes[0];
            &&& both_give(Rule::pattern_list, a, 6, d, b, 6, e, p, q)
            &&& patterns_from(p.children, 0, true) == patterns_from(q.children, 0, true)
        }),
{
    let d1 = (d - 1) as nat;
    let e1 = (e - 1) as nat;
    let pattern = Peg::Call(Rule::pattern);
    let more = often(followed(Peg::Word(","), pattern));
    assert(body_of(Rule::pattern_list, true) == followed(pattern, more));
    let v = run(followed(pattern, more), a, 6, false, true, d1);
    let w = run(followed(pattern, more), b, 6, false, true, e1);
    assert(!(v is Deep));
    assert(!(run(pattern, a, 6, false, true, d1) is Deep));
    lemma_pattern(a, b, x, d1, e1);
    let r = run(pattern, a, 6, false, true, d1)->nodes[0];
    let t = run(pattern, b, 6, false, true, e1)->nodes[0];
    let end = run(pattern, a, 6, false, true, d1)->Match_end;
    lemma_blank_end(a, end);
    lemma_often_matches(followed(Peg::Word(","), pattern), a, next_part(a, end, false), d1);
    lemma_then_same(Rule::pattern, more, a, 6, d1, b, 6, e1, r, t);
    let tail = v->nodes.skip(1);
    lemma_call_same(Rule::pattern_list, a, 6, d, b, 6, e, v->nodes, w->nodes);
    let p = run(Peg::Call(Rule::pattern_list), a, 6, false, true, d)->nodes[0];
    let q = run(Peg::Call(Rule::pattern_list), b, 6, false, true, e)->nodes[0];
    assert forall|k: int| 0 <= k < p.children.len() implies same_pattern(
        #[trigger] p.children[k],
        q.children[k],
    ) by {
        if k == 0 {
            assert(same_node(p.children[0], r) && same_node(q.children[0], t));
            lemma_same_pattern(p.children[0], r);
            lemma_same_pattern(q.children[0], t);
        } else {
            assert(same_node(p.children[k], tail[k - 1]));
            assert(same_node(q.children[k], tail[k - 1]));
            lemma_same_pattern(p.children[k], q.children[k]);
        }
    }
    lemma_same_patterns(p.children, q.children, 0);
}

/// The keyword at the beginning.
proof fn lemma_match_word(s: Seq<char>, d: nat) -> (t: Tree)
    requires
        begins(s),
        d > 0,
    ensures
        gives(Peg::Call(Rule::kw_MATCH), s, 0, false, d, 5, seq![t]),
        t.rule == Rule::kw_MATCH,
        blank_end(s, 5) == 6,
{
    let d1 = (d - 1) as nat;
    let word = Peg::Word("MATCH");
    let not = Peg::Not(Box::new(Peg::One(Class::NamePart)));
    assert(body_of(Rule::kw_MATCH, true) == followed(word, not));
    reveal_strlit("MATCH");
    assert(word_at(s, "MATCH"@, 0)) by {
        let w = "MATCH"@;
        assert forall|k: int| 0 <= k < w.len() implies lower(#[trigger] w[k]) == lower(s[0 + k]) by {
            assert(k == 0 || k == 1 || k == 2 || k == 3 || k == 4);
        }
    }
    lemma_word("MATCH", s, 0, true, d1);
    lemma_one(Class::NamePart, s, 5, true, d1);
    lemma_not(Peg::One(Class::NamePart), s, 5, true, d1);
    lemma_then(word, not, s, 0, true, d1, 5, seq![], 5, seq![]);
    lemma_call(Rule::kw_MATCH, s, 0, false, d, 5, seq![] + seq![]);
    lemma_blank(s, 5);
    node_for(Rule::kw_MATCH, s, 0, 5, seq![] + seq![])
}

proof fn lemma_not_optional(s: Seq<char>, d: nat)
    requires
        begins(s),
        d > 1,
    ensures
        gives(perhaps(Peg::Call(Rule::optional_marker)), s, 0, false, d, 0, seq![]),
{
    let d2 = (d - 2) as nat;
    let word = Peg::Word("OPTIONAL");
    let not = Peg::Not(Box::new(Peg::One(Class::NamePart)));
    assert(body_of(Rule::kw_OPTIONAL, true) == followed(word, not));
    assert(body_of(Rule::optional_marker, true) == Peg::Call(Rule::kw_OPTIONAL));
    reveal_strlit("OPTIONAL");
    assert(lower("OPTIONAL"@[0]) != lower(s[0int + 0]));
    lemma_word("OPTIONAL", s, 0, true, d2);
    lemma_then_fails(word, not, s, 0, true, d2);
    lemma_call_fails(Rule::kw_OPTIONAL, s, 0, false, (d - 1) as nat);
    lemma_call_fails(Rule::optional_marker, s, 0, false, d);
    lemma_perhaps_not(Peg::Call(Rule::optional_marker), s, 0, false, d);
}

/// The patterns of a `MATCH`, and its condition.
spec fn matching() -> Peg {
    followed(Peg::Call(Rule::pattern_list), perhaps(Peg::Call(Rule::match_where)))
}

proof fn lemma_match_begins(s: Seq<char>, d: nat) -> (k: Tree)
    requires
        begins(s),
        d > 2,
    ensures
        ({
            let v = run(body_of(Rule::match_clause, true), s, 0, false, true, d);
            let u = run(matching(), s, 6, false, true, d);
            &&& v is Deep == u is Deep
            &&& u is Match ==> v is Match && v->Match_end == u->Match_end && v->nodes == seq![k]
                + u->nodes
        }),
        k.rule == Rule::kw_MATCH,
{
    let optional = perhaps(Peg::Call(Rule::optional_marker));
    let word = Peg::Call(Rule::kw_MATCH);
    let p1 = followed(word, matching());
    assert(body_of(Rule::match_clause, true) == followed(optional, p1));
    lemma_not_optional(s, d);
    lemma_no_blank(s, 0);
    let k = lemma_match_word(s, d);
    reveal(gives);
    let v = run(followed(optional, p1), s, 0, false, true, d);
    let v1 = run(p1, s, 0, false, true, d);
    let u = run(matching(), s, 6, false, true, d);
    if let Step::Match { end, nodes, far } = u {
        assert(v1->nodes == seq![k] + nodes);
        assert(v->nodes =~= v1->nodes);
    }
    k
}

proof fn lemma_matching(a: Seq<char>, b: Seq<char>, x: Names, d: nat, e: nat)
    requires
        are_forms(a, b, x),
        11 < d <= e,
        !(run(matching(), a, 6, false, true, d) is Deep),
    ensures
        ({
            let v = run(matching(), a, 6, false, true, d);
            let w = run(matching(), b, 6, false, true, e);
            let r = run(Peg::Call(Rule::pattern_list), a, 6, false, true, d)->nodes[0];
            let t = run(Peg::Call(Rule::pattern_list), b, 6, false, true, e)->nodes[0];
            let tail = v->nodes.skip(1);
            &&& go_on(v, a, w, b, r, t)
            &&& r.rule == Rule::pattern_list
            &&& t.rule == Rule::pattern_list
            &&& patterns_from(r.children, 0, true) == patterns_from(t.children, 0, true)
            &&& tail.len() == 0 || (tail.len() == 1 && tail[0].rule == Rule::match_where)
        }),
{
    let list = Peg::Call(Rule::pattern_list);
    let filter = perhaps(Peg::Call(Rule::match_where));
    let v = run(matching(), a, 6, false, true, d);
    assert(!(run(list, a, 6, false, true, d) is Deep));
    lemma_list(a, b, x, d, e);
    let r = run(list, a, 6, false, true, d)->nodes[0];
    let t = run(list, b, 6, false, true, e)->nodes[0];
    let end = run(list, a, 6, false, true, d)->Match_end;
    let last = run(filter, a, next_part(a, end, false), false, true, d);
    let found = run(Peg::Call(Rule::match_where), a, next_part(a, end, false), false, true, d);
    assert(found is Match ==> found->nodes.len() == 1 && found->nodes[0].rule == Rule::match_where);
    assert(!(last is Fail));
    assert(v is Match);
    lemma_then_same(Rule::pattern_list, filter, a, 6, d, b, 6, e, r, t);
    assert(v->nodes == seq![r] + last->nodes);
    assert(v->nodes.skip(1) =~= last->nodes);
}

proof fn lemma_match(a: Seq<char>, b: Seq<char>, x: Names, d: nat, e: nat)
    requires
        are_forms(a, b, x),
        12 < d <= e,
        !(run(Peg::Call(Rule::match_clause), a, 0, false, true, d) is Deep),
    ensures
        ({
            let p = run(Peg::Call(Rule::match_clause), a, 0, false, true, d)->nodes[0];
            let q = run(Peg::Call(Rule::match_clause), b, 0, false, true, e)->nodes[0];
            &&& both_give(Rule::match_clause, a, 0, d, b, 0, e, p, q)
            &&& match_in(p, true) == match_in(q, true)
        }),
{
    let d1 = (d - 1) as nat;
    let e1 = (e - 1) as nat;
    lemma_begins(a, b, x);
    let k = lemma_match_begins(a, d1);
    let l = lemma_match_begins(b, e1);
    assert(!(run(body_of(Rule::match_clause, true), a, 0, false, true, d1) is Deep));
    lemma_matching(a, b, x, d1, e1);
    let v = run(matching(), a, 6, false, true, d1);
    let w = run(matching(), b, 6, false, true, e1);
    let r = run(Peg::Call(Rule::pattern_list), a, 6, false, true, d1)->nodes[0];
    let t = run(Peg::Call(Rule::pattern_list), b, 6, false, true, e1)->nodes[0];
    let tail = v->nodes.skip(1);
    lemma_call_same(
        Rule::match_clause,
        a,
        0,
        d,
        b,
        0,
        e,
        seq![k] + v->nodes,
        seq![l] + w->nodes,
    );
    let p = run(Peg::Call(Rule::match_clause), a, 0, false, true, d)->nodes[0];
    let q = run(Peg::Call(Rule::match_clause), b, 0, false, true, e)->nodes[0];
    lemma_match_meaning(p, q, k, l, r, t, tail);
}

proof fn lemma_match_meaning(
    p: Tree,
    q: Tree,
    k: Tree,
    l: Tree,
    r: Tree,
    t: Tree,
    tail: Seq<Tree>,
)
    requires
        p.children == seen_from(seq![k] + (seq![r] + tail), 0),
        q.children == seen_from(seq![l] + (seq![t] + moved(tail, 8)), 0),
        k.rule == Rule::kw_MATCH,
        l.rule == Rule::kw_MATCH,
        r.rule == Rule::pattern_list,
        t.rule == Rule::pattern_list,
        patterns_from(r.children, 0, true) == patterns_from(t.children, 0, true),
        tail.len() == 0 || (tail.len() == 1 && tail[0].rule == Rule::match_where),
    ensures
        match_in(p, true) == match_in(q, true),
{
    reveal_with_fuel(index_from, 5);
    assert(p.children.len() == 2 + tail.len() && q.children.len() == 2 + tail.len());
    assert(p.children[0].rule == Rule::kw_MATCH && q.children[0].rule == Rule::kw_MATCH);
    assert(p.children[1].rule == Rule::pattern_list && q.children[1].rule == Rule::pattern_list);
    assert(at(p, Rule::pattern_list) == 1 && at(q, Rule::pattern_list) == 1);
    assert(p.children[1].children == r.children && q.children[1].children == t.children);
    if tail.len() == 1 {
        assert(same_node(p.children[2], tail[0]) && same_node(q.children[2], tail[0]));
        assert(at(p, Rule::match_where) == 2 && at(q, Rule::match_where) == 2);
    } else {
        assert(at(p, Rule::match_where) == -1 && at(q, Rule::match_where) == -1);
    }
    assert(at(p, Rule::optional_marker) == -1 && at(q, Rule::optional_marker) == -1);
    assert(where_in(p, true) == where_in(q, true));
}

proof fn lemma_clause(a: Seq<char>, b: Seq<char>, x: Names, d: nat, e: nat)
    requires
        are_forms(a, b, x),
        13 < d <= e,
        !(run(Peg::Call(Rule::clause), a, 0, false, true, d) is Deep),
    ensures
        ({
            let p = run(Peg::Call(Rule::clause), a, 0, false, true, d)->nodes[0];
            let q = run(Peg::Call(Rule::clause), b, 0, false, true, e)->nodes[0];
            &&& both_give(Rule::clause, a, 0, d, b, 0, e, p, q)
            &&& same_clause(p, q)
        }),
{
    let d1 = (d - 1) as nat;
    let e1 = (e - 1) as nat;
    let first = Peg::Call(Rule::match_clause);
    let body = body_of(Rule::clause, true);
    assert(body is Or && *body->Or_0 == first);
    let v = run(body, a, 0, false, true, d1);
    let w = run(body, b, 0, false, true, e1);
    assert(!(v is Deep));
    assert(!(run(first, a, 0, false, true, d1) is Deep));
    lemma_match(a, b, x, d1, e1);
    let r = run(first, a, 0, false, true, d1)->nodes[0];
    let t = run(first, b, 0, false, true, e1)->nodes[0];
    assert(v == run(first, a, 0, false, true, d1));
    assert(w == run(first, b, 0, false, true, e1));
    lemma_call_same(Rule::clause, a, 0, d, b, 0, e, seq![r], seq![t]);
    let p = run(Peg::Call(Rule::clause), a, 0, false, true, d)->nodes[0];
    let q = run(Peg::Call(Rule::clause), b, 0, false, true, e)->nodes[0];
    assert(same_node(p.children[0], r) && same_node(q.children[0], t));
    lemma_same_match(p.children[0], r);
    lemma_same_match(q.children[0], t);
}

proof fn lemma_same_match(t: Tree, u: Tree)
    requires
        same_node(t, u),
        t.rule == Rule::match_clause,
    ensures
        clause_in(t, true) == match_in(u, true),
{
    assert(match_in(t, true) == match_in(u, true)) by {
        assert(where_in(t, true) == where_in(u, true));
    }
}

proof fn lemma_statement(a: Seq<char>, b: Seq<char>, x: Names, d: nat, e: nat)
    requires
        are_forms(a, b, x),
        14 < d <= e,
        !(run(Peg::Call(Rule::statement), a, 0, false, true, d) is Deep),
    ensures
        ({
            let p = run(Peg::Call(Rule::statement), a, 0, false, true, d)->nodes[0];
            let q = run(Peg::Call(Rule::statement), b, 0, false, true, e)->nodes[0];
            &&& both_give(Rule::statement, a, 0, d, b, 0, e, p, q)
            &&& clauses_from(p.children, 0, true) == clauses_from(q.children, 0, true)
        }),
{
    let d1 = (d - 1) as nat;
    let e1 = (e - 1) as nat;
    let clause = Peg::Call(Rule::clause);
    assert(body_of(Rule::statement, true) == followed(clause, often(clause)));
    let v = run(followed(clause, often(clause)), a, 0, false, true, d1);
    let w = run(followed(clause, often(clause)), b, 0, false, true, e1);
    assert(!(v is Deep));
    assert(!(run(clause, a, 0, false, true, d1) is Deep));
    lemma_clause(a, b, x, d1, e1);
    let r = run(clause, a, 0, false, true, d1)->nodes[0];
    let t = run(clause, b, 0, false, true, e1)->nodes[0];
    let end = run(clause, a, 0, false, true, d1)->Match_end;
    lemma_blank_end(a, end);
    lemma_often_matches(clause, a, next_part(a, end, false), d1);
    lemma_then_same(Rule::clause, often(clause), a, 0, d1, b, 0, e1, r, t);
    let tail = v->nodes.skip(1);
    lemma_call_same(Rule::statement, a, 0, d, b, 0, e, v->nodes, w->nodes);
    let p = run(Peg::Call(Rule::statement), a, 0, false, true, d)->nodes[0];
    let q = run(Peg::Call(Rule::statement), b, 0, false, true, e)->nodes[0];
    assert forall|k: int| 0 <= k < p.children.len() implies same_clause(
        #[trigger] p.children[k],
        q.children[k],
    ) by {
        if k == 0 {
            assert(same_node(p.children[0], r) && same_node(q.children[0], t));
        } else {
            assert(same_node(p.children[k], tail[k - 1]));
            assert(same_node(q.children[k], tail[k - 1]));
        }
    }
    lemma_same_clauses(p.children, q.children, 0);
}

proof fn lemma_query(a: Seq<char>, b: Seq<char>, x: Names, d: nat, e: nat)
    requires
        are_forms(a, b, x),
        15 < d <= e,
        run(Peg::Call(Rule::query), a, 0, false, true, d) is Match,
    ensures
        ({
            let p = run(Peg::Call(Rule::query), a, 0, false, true, d)->nodes[0];
            let q = run(Peg::Call(Rule::query), b, 0, false, true, e)->nodes[0];
            &&& run(Peg::Call(Rule::query), b, 0, false, true, e) is Match
            &&& query_in(p, true) == query_in(q, true)
        }),
{
    let d1 = (d - 1) as nat;
    let e1 = (e - 1) as nat;
    let statement = Peg::Call(Rule::statement);
    let tail = followed(perhaps(Peg::Word(";")), Peg::End);
    let rest = followed(statement, tail);
    assert(body_of(Rule::query, true) == followed(Peg::Nothing, rest));
    lemma_begins(a, b, x);
    lemma_no_blank(a, 0);
    lemma_no_blank(b, 0);
    assert(run(Peg::Nothing, a, 0, false, true, d1) == (Step::Match {
        end: 0,
        nodes: seq![],
        far: 0,
    }));
    assert(run(Peg::Nothing, b, 0, false, true, e1) == (Step::Match {
        end: 0,
        nodes: seq![],
        far: 0,
    }));
    let v = run(followed(Peg::Nothing, rest), a, 0, false, true, d1);
    let w = run(followed(Peg::Nothing, rest), b, 0, false, true, e1);
    let v1 = run(rest, a, 0, false, true, d1);
    let w1 = run(rest, b, 0, false, true, e1);
    assert(v is Match);
    assert(v1 is Match);
    assert(run(statement, a, 0, false, true, d1) is Match);
    lemma_statement(a, b, x, d1, e1);
    let r = run(statement, a, 0, false, true, d1)->nodes[0];
    let t = run(statement, b, 0, false, true, e1)->nodes[0];
    lemma_then_same(Rule::statement, tail, a, 0, d1, b, 0, e1, r, t);
    assert(v->nodes =~= v1->nodes);
    assert(w->nodes =~= w1->nodes);
    lemma_call_same(Rule::query, a, 0, d, b, 0, e, v->nodes, w->nodes);
    let p = run(Peg::Call(Rule::query), a, 0, false, true, d)->nodes[0];
    let q = run(Peg::Call(Rule::query), b, 0, false, true, e)->nodes[0];
    assert(same_node(p.children[0], r) && same_node(q.children[0], t));
    assert(at(p, Rule::statement) == 0 && at(q, Rule::statement) == 0);
}

// ── Texts ────────────────────────────────────────────────────────────────────

/// The end of a pattern, and what follows it.
pub open spec fn ending(x: Names, rest: Seq<char>) -> Seq<char> {
    "]->("@ + (x.target + (")"@ + rest))
}

/// A node with labels behind colons, and a relationship that begins.
#[verifier::opaque]
pub open spec fn colon_labels(x: Names, rest: Seq<char>) -> Seq<char> {
    "MATCH ("@ + (x.node + (":"@ + (x.first + (":"@ + (x.second + (")-["@ + rest))))))
}

/// A relationship with a type behind a colon.
#[verifier::opaque]
pub open spec fn colon_kind(x: Names, rest: Seq<char>) -> Seq<char> {
    x.relationship + (":"@ + (x.kind + ending(x, rest)))
}

/// A node with labels behind `IS`, and a relationship that begins.
#[verifier::opaque]
pub open spec fn is_labels(x: Names, rest: Seq<char>) -> Seq<char> {
    "MATCH ("@ + (x.node + (" IS "@ + (x.first + (" & "@ + (x.second + (")-["@ + rest))))))
}

/// A relationship with a type behind `IS`.
#[verifier::opaque]
pub open spec fn is_kind(x: Names, rest: Seq<char>) -> Seq<char> {
    x.relationship + (" IS "@ + (x.kind + ending(x, rest)))
}

/// `MATCH (n:A:B)-[r:T]->(m)`, and what follows.
pub open spec fn with_colons(x: Names, rest: Seq<char>) -> Seq<char> {
    colon_labels(x, colon_kind(x, rest))
}

/// `MATCH (n IS A & B)-[r IS T]->(m)`, and what follows.
pub open spec fn with_is(x: Names, rest: Seq<char>) -> Seq<char> {
    is_labels(x, is_kind(x, rest))
}

/// Where a part stands in a text.
proof fn lemma_piece(s: Seq<char>, i: int, x: Seq<char>, rest: Seq<char>)
    requires
        0 <= i <= s.len(),
        s.skip(i) == x + rest,
    ensures
        i + x.len() <= s.len(),
        s.subrange(i, i + x.len()) == x,
        s.skip(i + x.len()) == rest,
        forall|k: int| 0 <= k < x.len() ==> char_at(s, i + k, #[trigger] x[k]),
{
    assert(s.skip(i).len() == s.len() - i);
    assert forall|k: int| 0 <= k < x.len() implies char_at(s, i + k, #[trigger] x[k]) by {
        assert(s.skip(i)[k] == s[i + k]);
    }
    assert forall|k: int| 0 <= k < x.len() implies s.subrange(i, i + x.len())[k] == x[k] by {
        assert(char_at(s, i + k, x[k]));
    }
    assert(s.subrange(i, i + x.len()) =~= x);
    assert forall|k: int| 0 <= k < rest.len() implies s.skip(i + x.len())[k] == rest[k] by {
        assert(s.skip(i)[x.len() + k] == s[i + x.len() + k]);
    }
    assert(s.skip(i + x.len()) =~= rest);
}

/// Whether a text begins with something that belongs to no name.
spec fn ends_names(r: Seq<char>) -> bool {
    r.len() > 0 && !in_class(r[0], Class::NamePart)
}

proof fn lemma_name_piece(s: Seq<char>, i: int, v: Seq<char>, rest: Seq<char>)
    requires
        0 <= i <= s.len(),
        s.skip(i) == v + rest,
        is_name(v),
        ends_names(rest),
    ensures
        name_at(s, i, v),
        i + v.len() <= s.len(),
        s.skip(i + v.len()) == rest,
{
    lemma_piece(s, i, v, rest);
    assert(s.skip(i + v.len())[0] == s[i + v.len()]);
}

proof fn lemma_signs()
    ensures
        "MATCH ("@ == seq!['M', 'A', 'T', 'C', 'H', ' ', '('],
        ":"@ == seq![':'],
        " IS "@ == seq![' ', 'I', 'S', ' '],
        " & "@ == seq![' ', '&', ' '],
        ")-["@ == seq![')', '-', '['],
        "]->("@ == seq![']', '-', '>', '('],
        ")"@ == seq![')'],
{
    reveal_strlit("MATCH (");
    reveal_strlit(":");
    reveal_strlit(" IS ");
    reveal_strlit(" & ");
    reveal_strlit(")-[");
    reveal_strlit("]->(");
    reveal_strlit(")");
    assert("MATCH ("@ =~= seq!['M', 'A', 'T', 'C', 'H', ' ', '(']);
    assert(":"@ =~= seq![':']);
    assert(" IS "@ =~= seq![' ', 'I', 'S', ' ']);
    assert(" & "@ =~= seq![' ', '&', ' ']);
    assert(")-["@ =~= seq![')', '-', '[']);
    assert("]->("@ =~= seq![']', '-', '>', '(']);
    assert(")"@ =~= seq![')']);
}

/// The beginning of both forms.
proof fn lemma_first_piece(s: Seq<char>, n: Seq<char>, rest: Seq<char>)
    requires
        s == "MATCH ("@ + (n + rest),
        is_name(n),
        ends_names(rest),
    ensures
        begins(s),
        name_at(s, 7, n),
        7 + n.len() <= s.len(),
        s.skip(7int + n.len()) == rest,
{
    lemma_signs();
    assert(s.skip(0) =~= s);
    let w = "MATCH ("@;
    lemma_piece(s, 0, w, n + rest);
    assert(w[0] == 'M' && w[1] == 'A' && w[2] == 'T' && w[3] == 'C' && w[4] == 'H' && w[5] == ' '
        && w[6] == '(');
    lemma_name_piece(s, 7, n, rest);
}

proof fn lemma_colons_piece(s: Seq<char>, i: int, a: Seq<char>, b: Seq<char>, rest: Seq<char>)
    requires
        0 <= i <= s.len(),
        s.skip(i) == ":"@ + (a + (":"@ + (b + (")-["@ + rest)))),
        is_name(a),
        is_name(b),
    ensures
        colons_at(s, i, a, b),
        i + 2 + a.len() + b.len() <= s.len(),
        s.skip(i + 2 + a.len() + b.len()) == ")-["@ + rest,
{
    lemma_signs();
    let r1 = ")-["@ + rest;
    let r2 = ":"@ + (b + r1);
    assert(":"@[0] == ':' && r1[0] == ')' && r2[0] == ':');
    let j = i + 1 + a.len();
    lemma_piece(s, i, ":"@, a + r2);
    lemma_name_piece(s, i + 1, a, r2);
    lemma_piece(s, j, ":"@, b + r1);
    lemma_name_piece(s, j + 1, b, r1);
    assert(s.skip(j + 1 + b.len())[0] == s[j + 1 + b.len()]);
}

proof fn lemma_is_piece(s: Seq<char>, i: int, a: Seq<char>, b: Seq<char>, rest: Seq<char>)
    requires
        0 <= i <= s.len(),
        s.skip(i) == " IS "@ + (a + (" & "@ + (b + (")-["@ + rest)))),
        is_name(a),
        is_name(b),
    ensures
        char_at(s, i, ' '),
        is_labels_at(s, i + 1, a, b),
        i + 7 + a.len() + b.len() <= s.len(),
        s.skip(i + 7 + a.len() + b.len()) == ")-["@ + rest,
{
    lemma_signs();
    let r1 = ")-["@ + rest;
    let r2 = " & "@ + (b + r1);
    let w = " IS "@;
    let u = " & "@;
    assert(w[0] == ' ' && w[1] == 'I' && w[2] == 'S' && w[3] == ' ');
    assert(u[0] == ' ' && u[1] == '&' && u[2] == ' ');
    assert(r1[0] == ')' && r2[0] == ' ');
    let j = i + 4 + a.len();
    lemma_piece(s, i, w, a + r2);
    lemma_name_piece(s, i + 4, a, r2);
    lemma_piece(s, j, u, b + r1);
    lemma_name_piece(s, j + 3, b, r1);
    assert(s.skip(j + 3 + b.len())[0] == s[j + 3 + b.len()]);
}

proof fn lemma_edge_piece(s: Seq<char>, i: int, r: Seq<char>, rest: Seq<char>)
    requires
        0 <= i <= s.len(),
        s.skip(i) == ")-["@ + (r + rest),
        is_name(r),
        ends_names(rest),
    ensures
        char_at(s, i + 1, '-'),
        char_at(s, i + 2, '['),
        name_at(s, i + 3, r),
        i + 3 + r.len() <= s.len(),
        s.skip(i + 3 + r.len()) == rest,
{
    lemma_signs();
    let w = ")-["@;
    assert(w[1] == '-' && w[2] == '[');
    lemma_piece(s, i, w, r + rest);
    lemma_name_piece(s, i + 3, r, rest);
}

proof fn lemma_arrow_piece(s: Seq<char>, i: int, rest: Seq<char>)
    requires
        0 <= i <= s.len(),
        s.skip(i) == "]->("@ + rest,
    ensures
        char_at(s, i, ']'),
        char_at(s, i + 1, '-'),
        char_at(s, i + 2, '>'),
        char_at(s, i + 3, '('),
        i + 4 <= s.len(),
        s.skip(i + 4) == rest,
{
    lemma_signs();
    let w = "]->("@;
    assert(w[0] == ']' && w[1] == '-' && w[2] == '>' && w[3] == '(');
    lemma_piece(s, i, w, rest);
}

proof fn lemma_target_piece(s: Seq<char>, i: int, x: Names, rest: Seq<char>)
    requires
        0 <= i <= s.len(),
        s.skip(i) == ending(x, rest),
        is_name(x.target),
    ensures
        char_at(s, i, ']'),
        char_at(s, i + 1, '-'),
        char_at(s, i + 2, '>'),
        target_at(s, i + 3, x),
{
    lemma_signs();
    let close = ")"@ + rest;
    assert(close[0] == ')');
    lemma_arrow_piece(s, i, x.target + close);
    lemma_name_piece(s, i + 4, x.target, close);
    assert(s.skip(i + 4 + x.target.len())[0] == s[i + 4 + x.target.len()]);
}

proof fn lemma_colon_type_piece(s: Seq<char>, i: int, x: Names, rest: Seq<char>)
    requires
        0 <= i <= s.len(),
        s.skip(i) == ":"@ + (x.kind + ending(x, rest)),
        is_name(x.kind),
        is_name(x.target),
    ensures
        colon_type_at(s, i, x.kind),
        char_at(s, i + 2 + x.kind.len(), '-'),
        char_at(s, i + 3 + x.kind.len(), '>'),
        target_at(s, i + 4 + x.kind.len(), x),
        s.skip(i + 1 + x.kind.len()) == ending(x, rest),
{
    lemma_signs();
    assert(":"@[0] == ':' && ending(x, rest)[0] == ']');
    lemma_piece(s, i, ":"@, x.kind + ending(x, rest));
    lemma_name_piece(s, i + 1, x.kind, ending(x, rest));
    lemma_target_piece(s, i + 1 + x.kind.len(), x, rest);
}

proof fn lemma_is_type_piece(s: Seq<char>, i: int, x: Names, rest: Seq<char>)
    requires
        0 <= i <= s.len(),
        s.skip(i) == " IS "@ + (x.kind + ending(x, rest)),
        is_name(x.kind),
        is_name(x.target),
    ensures
        char_at(s, i, ' '),
        is_type_at(s, i + 1, x.kind),
        char_at(s, i + 5 + x.kind.len(), '-'),
        char_at(s, i + 6 + x.kind.len(), '>'),
        target_at(s, i + 7 + x.kind.len(), x),
        s.skip(i + 4 + x.kind.len()) == ending(x, rest),
{
    lemma_signs();
    let w = " IS "@;
    assert(w[0] == ' ' && w[1] == 'I' && w[2] == 'S' && w[3] == ' ');
    assert(ending(x, rest)[0] == ']');
    lemma_piece(s, i, w, x.kind + ending(x, rest));
    lemma_name_piece(s, i + 4, x.kind, ending(x, rest));
    lemma_target_piece(s, i + 4 + x.kind.len(), x, rest);
}

proof fn lemma_ends_names(rest: Seq<char>)
    ensures
        ends_names(":"@ + rest),
        ends_names(" IS "@ + rest),
{
    lemma_signs();
    assert((":"@ + rest)[0] == ':');
    assert((" IS "@ + rest)[0] == ' ');
}

proof fn lemma_has_colons(s: Seq<char>, x: Names)
    requires
        begins(s),
        name_at(s, 7, x.node),
        colons_at(s, 7int + x.node.len(), x.first, x.second),
        char_at(s, middle(x), '-'),
        char_at(s, middle(x) + 1, '['),
        name_at(s, middle(x) + 2, x.relationship),
        colon_type_at(s, middle(x) + 2 + x.relationship.len(), x.kind),
        char_at(s, last(x) - 2, '-'),
        char_at(s, last(x) - 1, '>'),
        target_at(s, last(x), x),
    ensures
        has_colons(s, x),
{
    reveal(has_colons);
}

proof fn lemma_has_is(s: Seq<char>, x: Names)
    requires
        begins(s),
        name_at(s, 7, x.node),
        char_at(s, 7int + x.node.len(), ' '),
        is_labels_at(s, 8int + x.node.len(), x.first, x.second),
        char_at(s, middle(x) + 5, '-'),
        char_at(s, middle(x) + 6, '['),
        name_at(s, middle(x) + 7, x.relationship),
        char_at(s, middle(x) + 7 + x.relationship.len(), ' '),
        is_type_at(s, middle(x) + 8 + x.relationship.len(), x.kind),
        char_at(s, last(x) + 6, '-'),
        char_at(s, last(x) + 7, '>'),
    ensures
        has_is(s, x),
{
    reveal(has_is);
}

proof fn lemma_colons_front(s: Seq<char>, x: Names, rest: Seq<char>)
    requires
        are_names(x),
        s == colon_labels(x, rest),
    ensures
        begins(s),
        name_at(s, 7, x.node),
        colons_at(s, 7int + x.node.len(), x.first, x.second),
        middle(x) - 1 <= s.len(),
        s.skip(middle(x) - 1) == ")-["@ + rest,
{
    reveal(colon_labels);
    lemma_are_names(x);
    let r = x.first + (":"@ + (x.second + (")-["@ + rest)));
    lemma_ends_names(r);
    lemma_first_piece(s, x.node, ":"@ + r);
    lemma_colons_piece(s, 7int + x.node.len(), x.first, x.second, rest);
}

proof fn lemma_colons_back(s: Seq<char>, j: int, x: Names, rest: Seq<char>)
    requires
        are_names(x),
        0 <= j <= s.len(),
        s.skip(j) == ")-["@ + colon_kind(x, rest),
    ensures
        ({
            let k = j + 3 + x.relationship.len();
            &&& char_at(s, j + 1, '-')
            &&& char_at(s, j + 2, '[')
            &&& name_at(s, j + 3, x.relationship)
            &&& colon_type_at(s, k, x.kind)
            &&& char_at(s, k + 2 + x.kind.len(), '-')
            &&& char_at(s, k + 3 + x.kind.len(), '>')
            &&& target_at(s, k + 4 + x.kind.len(), x)
            &&& s.skip(k + 1 + x.kind.len()) == ending(x, rest)
        }),
{
    reveal(colon_kind);
    lemma_are_names(x);
    let r = x.kind + ending(x, rest);
    lemma_ends_names(r);
    lemma_edge_piece(s, j, x.relationship, ":"@ + r);
    lemma_colon_type_piece(s, j + 3 + x.relationship.len(), x, rest);
}

proof fn lemma_is_front(s: Seq<char>, x: Names, rest: Seq<char>)
    requires
        are_names(x),
        s == is_labels(x, rest),
    ensures
        begins(s),
        name_at(s, 7, x.node),
        char_at(s, 7int + x.node.len(), ' '),
        is_labels_at(s, 8int + x.node.len(), x.first, x.second),
        middle(x) + 4 <= s.len(),
        s.skip(middle(x) + 4) == ")-["@ + rest,
{
    reveal(is_labels);
    lemma_are_names(x);
    let r = x.first + (" & "@ + (x.second + (")-["@ + rest)));
    lemma_ends_names(r);
    lemma_first_piece(s, x.node, " IS "@ + r);
    lemma_is_piece(s, 7int + x.node.len(), x.first, x.second, rest);
}

proof fn lemma_is_back(s: Seq<char>, j: int, x: Names, rest: Seq<char>)
    requires
        are_names(x),
        0 <= j <= s.len(),
        s.skip(j) == ")-["@ + is_kind(x, rest),
    ensures
        ({
            let k = j + 3 + x.relationship.len();
            &&& char_at(s, j + 1, '-')
            &&& char_at(s, j + 2, '[')
            &&& name_at(s, j + 3, x.relationship)
            &&& char_at(s, k, ' ')
            &&& is_type_at(s, k + 1, x.kind)
            &&& char_at(s, k + 5 + x.kind.len(), '-')
            &&& char_at(s, k + 6 + x.kind.len(), '>')
            &&& s.skip(k + 4 + x.kind.len()) == ending(x, rest)
        }),
{
    reveal(is_kind);
    lemma_are_names(x);
    let r = x.kind + ending(x, rest);
    lemma_ends_names(r);
    lemma_edge_piece(s, j, x.relationship, " IS "@ + r);
    lemma_is_type_piece(s, j + 3 + x.relationship.len(), x, rest);
}

proof fn lemma_with_colons(x: Names, rest: Seq<char>)
    requires
        are_names(x),
    ensures
        has_colons(with_colons(x, rest), x),
        with_colons(x, rest).len() > last(x),
        with_colons(x, rest).skip(last(x) - 3) == ending(x, rest),
{
    let s = with_colons(x, rest);
    lemma_colons_front(s, x, colon_kind(x, rest));
    lemma_colons_back(s, middle(x) - 1, x, rest);
    lemma_has_colons(s, x);
}

proof fn lemma_with_is(x: Names, rest: Seq<char>)
    requires
        are_names(x),
    ensures
        has_is(with_is(x, rest), x),
        with_is(x, rest).len() >= last(x) + 5,
        with_is(x, rest).skip(last(x) + 5) == ending(x, rest),
{
    let s = with_is(x, rest);
    lemma_is_front(s, x, is_kind(x, rest));
    lemma_is_back(s, middle(x) + 4, x, rest);
    lemma_has_is(s, x);
}

// ── The form with colons is parsed ───────────────────────────────────────────

/// Where the pattern ends, in the form with colons.
spec fn closing(x: Names) -> int {
    last(x) + 2 + x.target.len()
}

/// Whether the form with colons is followed by `RETURN` and a variable.
#[verifier::opaque]
spec fn is_query(a: Seq<char>, x: Names) -> bool {
    &&& are_names(x)
    &&& has_colons(a, x)
    &&& char_at(a, closing(x), ' ')
    &&& returns_at(a, closing(x) + 1, x.node)
}

proof fn lemma_query_letter(a: Seq<char>, x: Names)
    requires
        is_query(a, x),
    ensures
        begins(a),
        0 <= closing(x),
        char_at(a, closing(x) + 1, 'R'),
        blank_end(a, closing(x)) == closing(x) + 1,
        blank_end(a, closing(x) + 1) == closing(x) + 1,
{
    reveal(is_query);
    reveal(has_colons);
    lemma_blank(a, closing(x));
    lemma_no_blank(a, closing(x) + 1);
}

proof fn lemma_colon_link(a: Seq<char>, x: Names, d: nat) -> (t: Tree)
    requires
        is_query(a, x),
        d > 8,
    ensures
        gives(Peg::Call(Rule::chain_link), a, middle(x), false, d, closing(x), seq![t]),
        t.rule == Rule::chain_link,
        elements_from(t.children, 0, true) is Ok,
{
    reveal(is_query);
    reveal(has_colons);
    let i = middle(x);
    let k = last(x);
    let d1 = (d - 1) as nat;
    let rel = Peg::Call(Rule::rel_pattern);
    let node = Peg::Call(Rule::node_pattern);
    assert(body_of(Rule::chain_link, true) == followed(rel, node));
    let r = lemma_colon_relationship(a, i, x.relationship, x.kind, d1);
    let n = lemma_plain_node(a, k, x.target, d1);
    lemma_no_blank(a, k);
    lemma_then(rel, node, a, i, false, d1, k, seq![r], closing(x), seq![n]);
    let nodes = seq![r] + seq![n];
    lemma_call(Rule::chain_link, a, i, false, d, closing(x), nodes);
    let t = node_for(Rule::chain_link, a, i, closing(x), nodes);
    assert(same_node(t.children[0], r) && same_node(t.children[1], n));
    lemma_same_part(t.children[0], r);
    lemma_same_part(t.children[1], n);
    lemma_elements_step(t.children, 1);
    lemma_elements_step(t.children, 0);
    assert(elements_from(t.children, 2, true) is Ok);
    t
}

proof fn lemma_no_link(a: Seq<char>, i: int, d: nat)
    requires
        char_at(a, i, 'R'),
        d > 2,
    ensures
        fails(Peg::Call(Rule::chain_link), a, i, false, d),
{
    let d1 = (d - 1) as nat;
    let d2 = (d - 2) as nat;
    let d3 = (d - 3) as nat;
    let left = Peg::Call(Rule::left_arrow);
    let dash = Peg::Call(Rule::rel_dash);
    let right = Peg::Call(Rule::right_arrow);
    let body = Peg::Call(Rule::rel_body);
    reveal_strlit("<-");
    reveal_strlit("-");
    assert(body_of(Rule::left_arrow, true) == Peg::Word("<-"));
    if word_at(a, "<-"@, i) {
        assert(lower("<-"@[0]) == lower(a[i + 0]));
    }
    lemma_word("<-", a, i, true, d3);
    lemma_call_fails(Rule::left_arrow, a, i, false, d2);
    assert(body_of(Rule::rel_dash, true) == Peg::Word("-"));
    lemma_sign(a, i, "-", '-', true, d3);
    lemma_call_fails(Rule::rel_dash, a, i, false, d2);
    let to_left = followed(left, followed(body, dash));
    let to_right = followed(dash, followed(body, right));
    let either = followed(dash, followed(body, dash));
    lemma_then_fails(left, followed(body, dash), a, i, false, d2);
    lemma_then_fails(dash, followed(body, right), a, i, false, d2);
    lemma_then_fails(dash, followed(body, dash), a, i, false, d2);
    lemma_or_fails(to_right, either, a, i, false, d2);
    lemma_or_fails(to_left, or(to_right, either), a, i, false, d2);
    assert(body_of(Rule::rel_pattern, true) == or(to_left, or(to_right, either)));
    lemma_call_fails(Rule::rel_pattern, a, i, false, d1);
    let rel = Peg::Call(Rule::rel_pattern);
    let node = Peg::Call(Rule::node_pattern);
    assert(body_of(Rule::chain_link, true) == followed(rel, node));
    lemma_then_fails(rel, node, a, i, false, d1);
    lemma_call_fails(Rule::chain_link, a, i, false, d);
}

proof fn lemma_colon_chain(a: Seq<char>, x: Names, d: nat) -> (t: Tree)
    requires
        is_query(a, x),
        d > 9,
    ensures
        gives(Peg::Call(Rule::node_pattern_chain), a, 6, false, d, closing(x), seq![t]),
        t.rule == Rule::node_pattern_chain,
        elements_from(t.children, 0, true) is Ok,
{
    let i = middle(x);
    let end = closing(x);
    let d1 = (d - 1) as nat;
    let node = Peg::Call(Rule::node_pattern);
    let link = Peg::Call(Rule::chain_link);
    assert(body_of(Rule::node_pattern_chain, true) == followed(node, often(link)));
    let l = lemma_colon_link(a, x, d1);
    lemma_query_letter(a, x);
    lemma_no_link(a, end + 1, d1);
    reveal(is_query);
    reveal(has_colons);
    let n = lemma_colon_node(a, 6, x.node, x.first, x.second, d1);
    lemma_no_blank(a, i);
    lemma_often_once(link, a, i, false, d1, end, seq![l]);
    lemma_then(node, often(link), a, 6, false, d1, i, seq![n], end, seq![l]);
    let nodes = seq![n] + seq![l];
    lemma_call(Rule::node_pattern_chain, a, 6, false, d, end, nodes);
    let t = node_for(Rule::node_pattern_chain, a, 6, end, nodes);
    assert(same_node(t.children[0], n) && same_node(t.children[1], l));
    lemma_same_part(t.children[0], n);
    lemma_same_part(t.children[1], l);
    lemma_elements_step(t.children, 1);
    lemma_elements_step(t.children, 0);
    assert(elements_from(t.children, 2, true) is Ok);
    t
}

proof fn lemma_colon_list(a: Seq<char>, x: Names, d: nat) -> (t: Tree)
    requires
        is_query(a, x),
        d > 11,
    ensures
        gives(Peg::Call(Rule::pattern_list), a, 6, false, d, closing(x) + 1, seq![t]),
        t.rule == Rule::pattern_list,
        patterns_from(t.children, 0, true) is Ok,
{
    let end = closing(x);
    let none = Seq::<Tree>::empty();
    let d1 = (d - 1) as nat;
    let d2 = (d - 2) as nat;
    let c = lemma_colon_chain(a, x, d2);
    lemma_query_letter(a, x);
    let chain = Peg::Call(Rule::node_pattern_chain);
    let variable = Peg::Call(Rule::variable);
    let named = followed(variable, Peg::Word("="));
    assert(body_of(Rule::pattern, true) == followed(perhaps(named), chain));
    lemma_no_variable(a, 6, d2);
    lemma_then_fails(variable, Peg::Word("="), a, 6, false, d2);
    lemma_perhaps_not(named, a, 6, false, d2);
    lemma_no_blank(a, 6);
    lemma_then(perhaps(named), chain, a, 6, false, d2, 6, none, end, seq![c]);
    assert(none + seq![c] =~= seq![c]);
    lemma_call(Rule::pattern, a, 6, false, d1, end, seq![c]);
    let p = node_for(Rule::pattern, a, 6, end, seq![c]);
    reveal_with_fuel(index_from, 3);
    assert(at(p, Rule::variable) == -1 && at(p, Rule::node_pattern_chain) == 0);
    assert(pattern_in(p, true) is Ok);
    let pattern = Peg::Call(Rule::pattern);
    let more = followed(Peg::Word(","), pattern);
    reveal_strlit(",");
    lemma_no_sign(a, end + 1, ",", ',', pattern, false, d1);
    lemma_often_not(more, a, end + 1, false, d1);
    assert(body_of(Rule::pattern_list, true) == followed(pattern, often(more)));
    lemma_then(pattern, often(more), a, 6, false, d1, end, seq![p], end + 1, none);
    assert(seq![p] + none =~= seq![p]);
    lemma_call(Rule::pattern_list, a, 6, false, d, end + 1, seq![p]);
    let t = node_for(Rule::pattern_list, a, 6, end + 1, seq![p]);
    assert(same_node(t.children[0], p));
    lemma_same_pattern(t.children[0], p);
    assert(patterns_from(t.children, 1, true) is Ok);
    t
}

proof fn lemma_colon_clause(a: Seq<char>, x: Names, d: nat) -> (t: Tree)
    requires
        is_query(a, x),
        d > 13,
    ensures
        gives(Peg::Call(Rule::clause), a, 0, false, d, closing(x) + 1, seq![t]),
        t.rule == Rule::clause,
        t.children.len() == 1,
        clause_in(t.children[0], true) is Ok,
{
    let end = closing(x) + 1;
    let none = Seq::<Tree>::empty();
    let d1 = (d - 1) as nat;
    let d2 = (d - 2) as nat;
    let l = lemma_colon_list(a, x, d2);
    lemma_query_letter(a, x);
    let k = lemma_match_word(a, d2);
    reveal_strlit("WHERE");
    lemma_other_keyword(Rule::kw_WHERE, "WHERE", a, end, (d - 3) as nat);
    let condition = Peg::Call(Rule::expression);
    let filter = Peg::Call(Rule::match_where);
    assert(body_of(Rule::match_where, true) == followed(Peg::Call(Rule::kw_WHERE), condition));
    lemma_then_fails(Peg::Call(Rule::kw_WHERE), condition, a, end, false, (d - 3) as nat);
    lemma_call_fails(Rule::match_where, a, end, false, d2);
    lemma_perhaps_not(filter, a, end, false, d2);
    let list = Peg::Call(Rule::pattern_list);
    lemma_then(list, perhaps(filter), a, 6, false, d2, end, seq![l], end, none);
    assert(seq![l] + none =~= seq![l]);
    let optional = perhaps(Peg::Call(Rule::optional_marker));
    let word = Peg::Call(Rule::kw_MATCH);
    assert(body_of(Rule::match_clause, true) == followed(optional, followed(word, matching())));
    lemma_not_optional(a, d2);
    lemma_no_blank(a, 0);
    lemma_then(word, matching(), a, 0, false, d2, 5, seq![k], end, seq![l]);
    let both = seq![k] + seq![l];
    lemma_then(optional, followed(word, matching()), a, 0, false, d2, 0, none, end, both);
    assert(none + both =~= both);
    lemma_call(Rule::match_clause, a, 0, false, d1, end, both);
    let p = node_for(Rule::match_clause, a, 0, end, both);
    assert(p.children =~= seen_from(seq![k, l], 0));
    reveal_with_fuel(index_from, 4);
    assert(at(p, Rule::pattern_list) == 1 && at(p, Rule::match_where) == -1);
    assert(match_in(p, true) is Ok);
    let body = body_of(Rule::clause, true);
    assert(body == or(Peg::Call(Rule::match_clause), *body->Or_1));
    lemma_or_first(Peg::Call(Rule::match_clause), *body->Or_1, a, 0, false, d1, end, seq![p]);
    lemma_call(Rule::clause, a, 0, false, d, end, seq![p]);
    let t = node_for(Rule::clause, a, 0, end, seq![p]);
    assert(same_node(t.children[0], p));
    lemma_same_match(t.children[0], p);
    t
}

proof fn lemma_colon_query(a: Seq<char>, x: Names)
    requires
        is_query(a, x),
    ensures
        whole_match(a, true) is Match,
        parsed(a, true) is Ok,
{
    let d = depth_for(a.len());
    let d1 = (d - 1) as nat;
    let d2 = (d - 2) as nat;
    let end = a.len() as int;
    let none = Seq::<Tree>::empty();
    let next = closing(x) + 1;
    let c = lemma_colon_clause(a, x, d2);
    lemma_query_letter(a, x);
    reveal(is_query);
    let r = lemma_return_clause(a, next, x.node, d2);
    let clause = Peg::Call(Rule::clause);
    lemma_often_once(clause, a, next, false, d2, end, seq![r]);
    assert(body_of(Rule::statement, true) == followed(clause, often(clause)));
    lemma_then(clause, often(clause), a, 0, false, d2, next, seq![c], end, seq![r]);
    let both = seq![c] + seq![r];
    lemma_call(Rule::statement, a, 0, false, d1, end, both);
    let t = node_for(Rule::statement, a, 0, end, both);
    assert(t.children =~= seen_from(seq![c, r], 0));
    assert(clause_in(t.children[0].children[0], true) is Ok);
    assert(clause_in(t.children[1].children[0], true) is Ok);
    assert(clauses_from(t.children, 2, true) is Ok);
    assert(clauses_from(t.children, 1, true) is Ok);
    assert(clauses_from(t.children, 0, true) is Ok);
    reveal_strlit(";");
    let semicolon = perhaps(Peg::Word(";"));
    lemma_sign(a, end, ";", ';', false, d1);
    lemma_perhaps_not(Peg::Word(";"), a, end, false, d1);
    assert(gives(Peg::End, a, end, false, d1, end, none)) by {
        reveal(gives);
    }
    assert(gives(Peg::Nothing, a, 0, false, d1, 0, none)) by {
        reveal(gives);
    }
    lemma_no_blank(a, 0);
    assert(none + none =~= none);
    lemma_then(semicolon, Peg::End, a, end, false, d1, end, none, end, none);
    let tail = followed(semicolon, Peg::End);
    let statement = Peg::Call(Rule::statement);
    lemma_then(statement, tail, a, 0, false, d1, end, seq![t], end, none);
    assert(seq![t] + none =~= seq![t]);
    lemma_then(Peg::Nothing, followed(statement, tail), a, 0, false, d1, 0, none, end, seq![t]);
    assert(none + seq![t] =~= seq![t]);
    assert(body_of(Rule::query, true) == followed(Peg::Nothing, followed(statement, tail)));
    lemma_call(Rule::query, a, 0, false, d, end, seq![t]);
    let q = node_for(Rule::query, a, 0, end, seq![t]);
    assert(at(q, Rule::statement) == 0);
    assert(query_in(q, true) is Ok);
    reveal(gives);
}

proof fn lemma_is_query(x: Names)
    requires
        are_names(x),
    ensures
        is_query(with_colons(x, " RETURN "@ + x.node), x),
{
    let rest = " RETURN "@ + x.node;
    let a = with_colons(x, rest);
    lemma_with_colons(x, rest);
    lemma_are_names(x);
    lemma_signs();
    let i = last(x) - 3;
    lemma_arrow_piece(a, i, x.target + (")"@ + rest));
    let close = ")"@ + rest;
    assert(close[0] == ')');
    lemma_name_piece(a, i + 4, x.target, close);
    let k = i + 4 + x.target.len();
    lemma_piece(a, k, ")"@, rest);
    reveal_strlit(" RETURN ");
    let w = " RETURN "@;
    lemma_piece(a, k + 1, w, x.node);
    assert(w[0] == ' ' && w[1] == 'R' && w[2] == 'E' && w[3] == 'T' && w[4] == 'U' && w[5] == 'R'
        && w[6] == 'N' && w[7] == ' ');
    assert(x.node + Seq::<char>::empty() =~= x.node);
    lemma_piece(a, k + 9, x.node, seq![]);
    assert(a.skip(k + 9 + x.node.len()).len() == 0);
    reveal(is_query);
}

/// Labels and types behind `IS` are those behind colons: whatever follows the
/// pattern, a query that the grammar matches with colons is parsed in the same
/// way with `IS`.
pub proof fn law_is_forms(x: Names, rest: Seq<char>)
    requires
        are_names(x),
        whole_match(with_colons(x, rest), true) is Match,
    ensures
        parsed(with_is(x, rest), true) == parsed(with_colons(x, rest), true),
{
    let a = with_colons(x, rest);
    let b = with_is(x, rest);
    lemma_with_colons(x, rest);
    lemma_with_is(x, rest);
    assert(same_rest(a, last(x) - 3, b, last(x) + 5));
    lemma_rest(a, last(x) - 3, b, last(x) + 5, 3);
    assert(are_forms(a, b, x)) by {
        reveal(are_forms);
    }
    let d = depth_for(a.len());
    let e = depth_for(b.len());
    assert(b.len() == a.len() + 8);
    assert(15 < d <= e);
    lemma_query(a, b, x, d, e);
}

/// A pattern with labels and a type, and a variable of it that is returned, are
/// parsed: with colons, and to the same clauses with `IS`.
pub proof fn law_is_forms_are_parsed(x: Names)
    requires
        are_names(x),
    ensures
        parsed(with_colons(x, " RETURN "@ + x.node), true) is Ok,
        parsed(with_is(x, " RETURN "@ + x.node), true) == parsed(
            with_colons(x, " RETURN "@ + x.node),
            true,
        ),
{
    lemma_is_query(x);
    lemma_colon_query(with_colons(x, " RETURN "@ + x.node), x);
    law_is_forms(x, " RETURN "@ + x.node);
}

} // verus!
