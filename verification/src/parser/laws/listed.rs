//! What lists with commas say: one thing for each of their parts, in order.
use vstd::prelude::*;

#[allow(unused_imports)]
use crate::ast::model as m;
#[allow(unused_imports)]
use crate::parser::error::Built;
#[allow(unused_imports)]
use crate::parser::grammar::body_of;
#[allow(unused_imports)]
use crate::parser::laws::keywords::rule_at;
#[allow(unused_imports)]
use crate::parser::laws::operators::{lemma_rule_of, like};
#[allow(unused_imports)]
use crate::parser::laws::places::{
    keyword_at, lemma_found_keyword, lemma_run, lemma_yields, split_both, split_called, yields,
};
#[allow(unused_imports)]
use crate::parser::laws::steps::{followed, often};
#[allow(unused_imports)]
use crate::parser::laws::{law_matches_stand_in_text, lemma_blank_end};
#[allow(unused_imports)]
use crate::parser::meaning::{clause_in, set_item_in, set_items_from, sort_item_in, sort_items_from};
#[allow(unused_imports)]
use crate::parser::peg::{blank_end, larger, run, run_more, word_at, Peg, Step};
#[allow(unused_imports)]
use crate::parser::tree::{Rule, Tree};
#[allow(unused_imports)]
use crate::text::lower;

verus! {

/// Whether a comma stands at a place.
pub open spec fn comma_at(s: Seq<char>, i: int) -> bool {
    0 <= i < s.len() && s[i] == ','
}

/// Whether the nodes from a position on are those of the parts that stand behind a
/// place, with a comma before each, and no other stands behind the last.
pub open spec fn listed_from(
    ch: Seq<Tree>,
    n: int,
    s: Seq<char>,
    i: int,
    r: Rule,
    gql: bool,
    d: nat,
) -> bool
    decreases ch.len() - n,
{
    let j = blank_end(s, i);
    let x = rule_at(r, s, blank_end(s, j + 1), gql, d);
    if n >= ch.len() {
        n == ch.len() && !(comma_at(s, j) && x is Match)
    } else {
        &&& comma_at(s, j)
        &&& x is Match
        &&& like(ch[n], x->nodes[0])
        &&& i < x->Match_end <= s.len()
        &&& listed_from(ch, n + 1, s, x->Match_end, r, gql, d)
    }
}

/// Whether nodes are those of the parts that stand from a place on, with commas
/// between them.
pub open spec fn lists(
    ch: Seq<Tree>,
    s: Seq<char>,
    i: int,
    r: Rule,
    gql: bool,
    d: nat,
) -> bool {
    let x = rule_at(r, s, i, gql, d);
    &&& ch.len() > 0
    &&& x is Match
    &&& like(ch[0], x->nodes[0])
    &&& listed_from(ch, 1, s, x->Match_end, r, gql, d)
}

spec fn next(r: Rule) -> Peg {
    followed(Peg::Word(","), Peg::Call(r))
}

spec fn list_of(r: Rule) -> Peg {
    followed(Peg::Call(r), often(next(r)))
}

proof fn lemma_comma(s: Seq<char>, i: int)
    ensures
        ","@.len() == 1,
        word_at(s, ","@, i) == comma_at(s, i),
{
    reveal_strlit(",");
    if word_at(s, ","@, i) {
        assert(lower(","@[0]) == lower(s[i + 0]));
    }
}

proof fn lemma_next(r: Rule, s: Seq<char>, i: int, gql: bool, d: nat)
    requires
        0 <= i <= s.len(),
    ensures
        ({
            let j = blank_end(s, i);
            let x = rule_at(r, s, blank_end(s, j + 1), gql, d);
            match run(next(r), s, j, false, gql, d) {
                Step::Match { end, nodes, far } => {
                    &&& comma_at(s, j)
                    &&& x is Match
                    &&& i < end <= s.len()
                    &&& end == x->Match_end
                    &&& nodes == x->nodes
                    &&& nodes.len() == 1
                },
                _ => !(comma_at(s, j) && x is Match),
            }
        }),
{
    let j = blank_end(s, i);
    lemma_blank_end(s, i);
    lemma_comma(s, j);
    let c = run(Peg::Word(","), s, j, false, gql, d);
    if comma_at(s, j) {
        let k = blank_end(s, j + 1);
        lemma_blank_end(s, j + 1);
        law_matches_stand_in_text(Peg::Call(r), s, k, false, gql, d);
        lemma_rule_of(r, s, k, gql, d);
        let x = rule_at(r, s, k, gql, d);
        if x is Match {
            assert(Seq::<Tree>::empty() + x->nodes =~= x->nodes);
        }
    }
}

proof fn lemma_more_listed(
    r: Rule,
    s: Seq<char>,
    end: int,
    done: Seq<Tree>,
    f: int,
    gql: bool,
    d: nat,
)
    requires
        0 <= end <= s.len(),
    ensures
        run_more(next(r), s, end, done, f, false, gql, d) matches Step::Match {
            end: e,
            nodes,
            far,
        } ==> done.is_prefix_of(nodes) && listed_from(
            nodes,
            done.len() as int,
            s,
            end,
            r,
            gql,
            d,
        ),
    decreases s.len() - end,
{
    let j = blank_end(s, end);
    lemma_blank_end(s, end);
    lemma_next(r, s, end, gql, d);
    let z = run(next(r), s, j, false, gql, d);
    if end < s.len() && z is Match {
        let e = z->Match_end;
        let g = larger(f, z->Match_far);
        lemma_more_listed(r, s, e, done + z->nodes, g, gql, d);
        let w = run_more(next(r), s, e, done + z->nodes, g, false, gql, d);
        if w is Match {
            let n = done.len() as int;
            assert((done + z->nodes)[n] == z->nodes[0]);
            assert(w->nodes[n] == z->nodes[0]);
            assert(done.is_prefix_of(w->nodes));
        }
    }
}

proof fn lemma_listed_moved(
    v: Seq<Tree>,
    n: int,
    w: Seq<Tree>,
    k: int,
    s: Seq<char>,
    i: int,
    r: Rule,
    gql: bool,
    d: nat,
)
    requires
        listed_from(v, n, s, i, r, gql, d),
        w.len() == v.len() + k,
        forall|a: int| 0 <= n <= a < v.len() ==> like(#[trigger] w[a + k], v[a]),
        0 <= n,
        0 <= k,
    ensures
        listed_from(w, n + k, s, i, r, gql, d),
    decreases v.len() - n,
{
    if n < v.len() {
        let x = rule_at(r, s, blank_end(s, blank_end(s, i) + 1), gql, d);
        assert(like(w[n + k], v[n]));
        lemma_listed_moved(v, n + 1, w, k, s, x->Match_end, r, gql, d);
    }
}

proof fn lemma_listed_rule(
    v: Seq<Tree>,
    n: int,
    s: Seq<char>,
    i: int,
    r: Rule,
    gql: bool,
    d: nat,
)
    requires
        listed_from(v, n, s, i, r, gql, d),
    ensures
        forall|k: int| n <= k < v.len() ==> (#[trigger] v[k]).rule == r,
    decreases v.len() - n,
{
    if n < v.len() {
        let j = blank_end(s, blank_end(s, i) + 1);
        let x = rule_at(r, s, j, gql, d);
        lemma_rule_of(r, s, j, gql, d);
        lemma_listed_rule(v, n + 1, s, x->Match_end, r, gql, d);
    }
}

/// The nodes of a list.
proof fn lemma_list(
    r: Rule,
    s: Seq<char>,
    i: int,
    gql: bool,
    d: nat,
    end: int,
    nodes: Seq<Tree>,
)
    requires
        0 <= i <= s.len(),
        yields(list_of(r), s, i, false, gql, d, end, nodes),
    ensures
        lists(nodes, s, i, r, gql, d),
        forall|k: int| 0 <= k < nodes.len() ==> (#[trigger] nodes[k]).rule == r,
{
    let first = Peg::Call(r);
    let a = split_both(first, often(next(r)), s, i, false, gql, d, end, nodes);
    lemma_yields(first, s, i, false, gql, d, a.0, a.1);
    lemma_rule_of(r, s, i, gql, d);
    law_matches_stand_in_text(first, s, i, false, gql, d);
    lemma_blank_end(s, a.0);
    let j = blank_end(s, a.0);
    lemma_yields(often(next(r)), s, j, false, gql, d, end, a.2);
    lemma_next(r, s, a.0, gql, d);
    let z = run(next(r), s, j, false, gql, d);
    if z is Match {
        lemma_more_listed(r, s, z->Match_end, z->nodes, z->Match_far, gql, d);
        assert(a.2[0] == z->nodes[0]);
    }
    assert(listed_from(a.2, 0, s, a.0, r, gql, d));
    assert forall|b: int| 0 <= b < a.2.len() implies like(#[trigger] nodes[b + 1], a.2[b]) by {
        assert(nodes[b + 1] == a.2[b]);
    }
    lemma_listed_moved(a.2, 0, nodes, 1, s, a.0, r, gql, d);
    lemma_listed_rule(nodes, 1, s, a.0, r, gql, d);
}

// ── Lists behind words ───────────────────────────────────────────────────────

proof fn lemma_set_step(ch: Seq<Tree>, n: int, gql: bool)
    requires
        0 <= n < ch.len(),
    ensures
        set_items_from(ch, n, gql) matches Ok(v) ==> (set_items_from(
            ch,
            n + 1,
            gql,
        ) matches Ok(rest) && if ch[n].rule == Rule::set_item {
            set_item_in(ch[n], gql) matches Ok(x) && v == seq![x] + rest
        } else {
            v == rest
        }),
{
}

/// An assignment for each node.
proof fn lemma_set_each(ch: Seq<Tree>, n: int, gql: bool)
    requires
        0 <= n <= ch.len(),
        forall|k: int| n <= k < ch.len() ==> (#[trigger] ch[k]).rule == Rule::set_item,
    ensures
        set_items_from(ch, n, gql) matches Ok(v) ==> v.len() == ch.len() - n && forall|k: int|
            0 <= k < v.len() ==> set_item_in(ch[n + k], gql) == Built::Ok(#[trigger] v[k]),
    decreases ch.len() - n,
{
    if n < ch.len() {
        lemma_set_step(ch, n, gql);
        lemma_set_each(ch, n + 1, gql);
        if let Ok(v) = set_items_from(ch, n, gql) {
            let rest = set_items_from(ch, n + 1, gql)->Ok_0;
            assert forall|k: int| 0 <= k < v.len() implies set_item_in(ch[n + k], gql)
                == Built::Ok(#[trigger] v[k]) by {
                if k > 0 {
                    assert(v[k] == rest[k - 1]);
                    assert(ch[n + k] == ch[n + 1 + (k - 1)]);
                }
            }
        }
    } else {
        assert(set_items_from(ch, n, gql) == Built::Ok(Seq::<m::SetItem>::empty()));
    }
}

/// A `SET` makes an assignment for each part of the list behind it, in their order.
pub proof fn law_set_is_listed(s: Seq<char>, i: int, gql: bool, d: nat) -> (ch: Seq<Tree>)
    requires
        0 <= i <= s.len(),
        rule_at(Rule::set_clause, s, i, gql, d) is Match,
    ensures
        keyword_at(s, "SET"@, i),
        lists(ch, s, blank_end(s, i + 3), Rule::set_item, gql, (d - 1) as nat),
        clause_in(rule_at(Rule::set_clause, s, i, gql, d)->nodes[0], gql) matches Ok(c) ==> c
            is SetItems && c->SetItems_0.items.len() == ch.len() && forall|k: int|
            0 <= k < ch.len() ==> set_item_in(#[trigger] ch[k], gql) == Built::Ok(
                c->SetItems_0.items[k],
            ),
{
    let r = Rule::set_clause;
    let step = rule_at(r, s, i, gql, d);
    let end = step->Match_end;
    let e = (d - 1) as nat;
    let word = Peg::Call(Rule::kw_SET);
    let list = list_of(Rule::set_item);
    assert(body_of(r, gql) == followed(word, list));
    lemma_run(Peg::Call(r), s, i, false, gql, d);
    let below = split_called(r, s, i, false, gql, d, end, step->nodes);
    let a = split_both(word, list, s, i, false, gql, e, end, below);
    lemma_found_keyword(Rule::kw_SET, "SET", s, i, gql, e, a.0, a.1);
    reveal_strlit("SET");
    lemma_blank_end(s, i + 3);
    let j = blank_end(s, i + 3);
    lemma_list(Rule::set_item, s, j, gql, e, end, a.2);
    let t = step->nodes[0];
    let ch = t.children.skip(1);
    assert forall|k: int| 0 <= k < a.2.len() implies like(#[trigger] ch[k + 0], a.2[k]) by {
        assert(below[k + 1] == a.2[k]);
    }
    assert(like(ch[0], a.2[0]));
    let x = rule_at(Rule::set_item, s, j, gql, e);
    lemma_listed_moved(a.2, 1, ch, 0, s, x->Match_end, Rule::set_item, gql, e);
    assert(below[0] == a.1[0]);
    assert forall|k: int| 1 <= k < t.children.len() implies (#[trigger] t.children[k]).rule
        == Rule::set_item by {
        assert(like(ch[(k - 1) + 0], a.2[k - 1]));
    }
    lemma_set_step(t.children, 0, gql);
    lemma_set_each(t.children, 1, gql);
    lemma_set_clause(t, gql);
    ch
}

proof fn lemma_set_clause(t: Tree, gql: bool)
    requires
        t.rule == Rule::set_clause,
    ensures
        clause_in(t, gql) matches Ok(c) ==> c is SetItems && set_items_from(t.children, 0, gql)
            == Built::Ok(c->SetItems_0.items),
{
}

proof fn lemma_sort_step(ch: Seq<Tree>, n: int, gql: bool)
    requires
        0 <= n < ch.len(),
    ensures
        sort_items_from(ch, n, gql) matches Ok(v) ==> (sort_items_from(
            ch,
            n + 1,
            gql,
        ) matches Ok(rest) && if ch[n].rule == Rule::sort_item {
            sort_item_in(ch[n], gql) matches Ok(x) && v == seq![x] + rest
        } else {
            v == rest
        }),
{
}

/// A sort item for each node.
proof fn lemma_sort_each(ch: Seq<Tree>, n: int, gql: bool)
    requires
        0 <= n <= ch.len(),
        forall|k: int| n <= k < ch.len() ==> (#[trigger] ch[k]).rule == Rule::sort_item,
    ensures
        sort_items_from(ch, n, gql) matches Ok(v) ==> v.len() == ch.len() - n && forall|k: int|
            0 <= k < v.len() ==> sort_item_in(ch[n + k], gql) == Built::Ok(#[trigger] v[k]),
    decreases ch.len() - n,
{
    if n < ch.len() {
        lemma_sort_step(ch, n, gql);
        lemma_sort_each(ch, n + 1, gql);
        if let Ok(v) = sort_items_from(ch, n, gql) {
            let rest = sort_items_from(ch, n + 1, gql)->Ok_0;
            assert forall|k: int| 0 <= k < v.len() implies sort_item_in(ch[n + k], gql)
                == Built::Ok(#[trigger] v[k]) by {
                if k > 0 {
                    assert(v[k] == rest[k - 1]);
                    assert(ch[n + k] == ch[n + 1 + (k - 1)]);
                }
            }
        }
    } else {
        assert(sort_items_from(ch, n, gql) == Built::Ok(Seq::<m::SortItem>::empty()));
    }
}

/// An `ORDER BY` has a sort item for each part of the list behind it, in their order.
pub proof fn law_order_by_is_listed(s: Seq<char>, i: int, gql: bool, d: nat) -> (ch: Seq<Tree>)
    requires
        0 <= i <= s.len(),
        rule_at(Rule::order_by_clause, s, i, gql, d) is Match,
    ensures
        keyword_at(s, "ORDER"@, i),
        keyword_at(s, "BY"@, blank_end(s, i + 5)),
        lists(
            ch,
            s,
            blank_end(s, blank_end(s, i + 5) + 2),
            Rule::sort_item,
            gql,
            (d - 1) as nat,
        ),
        sort_items_from(
            rule_at(Rule::order_by_clause, s, i, gql, d)->nodes[0].children,
            0,
            gql,
        ) matches Ok(v) ==> v.len() == ch.len() && forall|k: int|
            0 <= k < ch.len() ==> sort_item_in(#[trigger] ch[k], gql) == Built::Ok(v[k]),
{
    let r = Rule::order_by_clause;
    let step = rule_at(r, s, i, gql, d);
    let end = step->Match_end;
    let e = (d - 1) as nat;
    let order = Peg::Call(Rule::kw_ORDER);
    let by = Peg::Call(Rule::kw_BY);
    let list = list_of(Rule::sort_item);
    assert(body_of(r, gql) == followed(order, followed(by, list)));
    lemma_run(Peg::Call(r), s, i, false, gql, d);
    let below = split_called(r, s, i, false, gql, d, end, step->nodes);
    let a = split_both(order, followed(by, list), s, i, false, gql, e, end, below);
    lemma_found_keyword(Rule::kw_ORDER, "ORDER", s, i, gql, e, a.0, a.1);
    reveal_strlit("ORDER");
    reveal_strlit("BY");
    lemma_blank_end(s, i + 5);
    let p = blank_end(s, i + 5);
    let b = split_both(by, list, s, p, false, gql, e, end, a.2);
    lemma_found_keyword(Rule::kw_BY, "BY", s, p, gql, e, b.0, b.1);
    lemma_blank_end(s, p + 2);
    let j = blank_end(s, p + 2);
    lemma_list(Rule::sort_item, s, j, gql, e, end, b.2);
    let t = step->nodes[0];
    let ch = t.children.skip(2);
    assert forall|k: int| 0 <= k < b.2.len() implies like(#[trigger] ch[k + 0], b.2[k]) by {
        assert(below[k + 2] == b.2[k]);
    }
    assert(like(ch[0], b.2[0]));
    let x = rule_at(Rule::sort_item, s, j, gql, e);
    lemma_listed_moved(b.2, 1, ch, 0, s, x->Match_end, Rule::sort_item, gql, e);
    assert(below[0] == a.1[0]);
    assert(below[1] == b.1[0]);
    assert(t.children[0].rule == Rule::kw_ORDER);
    assert(t.children[1].rule == Rule::kw_BY);
    assert forall|k: int| 2 <= k < t.children.len() implies (#[trigger] t.children[k]).rule
        == Rule::sort_item by {
        assert(like(ch[(k - 2) + 0], b.2[k - 2]));
    }
    lemma_sort_step(t.children, 0, gql);
    lemma_sort_step(t.children, 1, gql);
    lemma_sort_each(t.children, 2, gql);
    ch
}

} // verus!
