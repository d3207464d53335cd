//! What keywords say of the clauses that they stand in.
use vstd::prelude::*;

#[allow(unused_imports)]
use crate::ast::model as m;
#[allow(unused_imports)]
use crate::parser::error::Built;
#[allow(unused_imports)]
use crate::parser::grammar::{body_of, is_token};
#[allow(unused_imports)]
use crate::parser::laws::{law_matches_stand_in_text, lemma_blank_end};
#[allow(unused_imports)]
use crate::parser::laws::places::{
    keyword_at, lemma_both, lemma_called, lemma_called_refuses, lemma_either, lemma_found_keyword,
    lemma_keyword, lemma_maybe, lemma_neither, lemma_one_keyword, lemma_run, lemma_yields, refuses,
    split_both, split_called, split_either, split_maybe, yields,
};
#[allow(unused_imports)]
use crate::parser::laws::steps::{followed, node_for, often, or, perhaps};
#[allow(unused_imports)]
use crate::parser::meaning::{
    child_expression_in, child_pattern_in, child_projection_in, child_set_items_in, clause_in,
    descends, expression_in, merge_actions_from, pattern_in, projection_in, set_items_from,
    sort_item_in, sort_items_from, statement_from,
};
#[allow(unused_imports)]
use crate::parser::peg::{blank_end, larger, next_part, run, run_more, Class, Peg, Step};
#[allow(unused_imports)]
use crate::parser::tree::{at, holds, index_from, seen_from, Rule, Tree};

verus! {

/// What a rule matches at a place, between its parts or behind blanks.
pub open spec fn rule_at(r: Rule, s: Seq<char>, i: int, gql: bool, d: nat) -> Step {
    run(Peg::Call(r), s, i, false, gql, d)
}

proof fn lemma_index(v: Seq<Tree>, r: Rule, i: int, k: int)
    requires
        0 <= i <= k <= v.len(),
        forall|j: int| i <= j < k ==> (#[trigger] v[j]).rule != r,
        k < v.len() ==> v[k].rule == r,
    ensures
        index_from(v, r, i) == if k < v.len() {
            k
        } else {
            -1
        },
    decreases k - i,
{
    if i < k {
        lemma_index(v, r, i + 1, k);
    }
}

/// The first child with a rule.
pub proof fn lemma_child(t: Tree, r: Rule, k: int)
    requires
        0 <= k < t.children.len(),
        forall|j: int| 0 <= j < k ==> (#[trigger] t.children[j]).rule != r,
        t.children[k].rule == r,
    ensures
        at(t, r) == k,
{
    lemma_index(t.children, r, 0, k);
}

pub proof fn lemma_no_child(t: Tree, r: Rule)
    requires
        forall|j: int| 0 <= j < t.children.len() ==> (#[trigger] t.children[j]).rule != r,
    ensures
        at(t, r) == -1,
{
    lemma_index(t.children, r, 0, t.children.len() as int);
}

// ── Actions of MERGE ─────────────────────────────────────────────────────────

/// The word behind `ON`.
pub open spec fn occasion(create: bool) -> Seq<char> {
    if create {
        "CREATE"@
    } else {
        "MATCH"@
    }
}

/// Where the assignments begin that stand behind `ON CREATE` or `ON MATCH`.
pub open spec fn behind_occasion(s: Seq<char>, i: int, create: bool) -> int {
    blank_end(s, blank_end(s, i + 2) + occasion(create).len())
}

/// Whether `ON CREATE` or `ON MATCH` stands at a place, with a `SET` behind it.
pub open spec fn action_at(s: Seq<char>, i: int, create: bool, gql: bool, d: nat) -> bool {
    &&& keyword_at(s, "ON"@, i)
    &&& keyword_at(s, occasion(create), blank_end(s, i + 2))
    &&& rule_at(Rule::set_clause, s, behind_occasion(s, i, create), gql, d) is Match
}

/// The assignments that a `SET` at a place makes.
pub open spec fn assignments_at(s: Seq<char>, i: int, gql: bool, d: nat) -> Built<
    Seq<m::SetItem>,
> {
    match clause_in(rule_at(Rule::set_clause, s, i, gql, d)->nodes[0], gql) {
        Ok(c) => Ok(c->SetItems_0.items),
        Err(f) => Err(f),
    }
}

proof fn lemma_occasions(s: Seq<char>, i: int, gql: bool, d: nat)
    requires
        d > 0,
    ensures
        "ON"@.len() == 2,
        "CREATE"@.len() == 6,
        "MATCH"@.len() == 5,
        !(keyword_at(s, "CREATE"@, i) && keyword_at(s, "MATCH"@, i)),
{
    reveal_strlit("ON");
    reveal_strlit("CREATE");
    reveal_strlit("MATCH");
    if keyword_at(s, "CREATE"@, i) {
        lemma_one_keyword(s, "CREATE"@, "MATCH"@, i);
    }
}

/// The parts of an action: `ON`, an occasion and a `SET`.
proof fn lemma_action_parts(
    s: Seq<char>,
    i: int,
    create: bool,
    gql: bool,
    d: nat,
    end: int,
    z: Seq<Tree>,
) -> (t: Tree)
    requires
        d >= 2,
        keyword_at(s, "ON"@, i),
        keyword_at(s, occasion(create), blank_end(s, i + 2)),
        yields(
            Peg::Call(Rule::set_clause),
            s,
            behind_occasion(s, i, create),
            false,
            gql,
            (d - 1) as nat,
            end,
            z,
        ),
    ensures
        yields(Peg::Call(Rule::merge_action), s, i, false, gql, d, end, seq![t]),
        is_action(t, create),
        z.len() == 1,
        z[0].rule == Rule::set_clause,
        t.children[2].children == z[0].children,
{
    let e = (d - 1) as nat;
    let on = Peg::Call(Rule::kw_ON);
    let creates = Peg::Call(Rule::kw_CREATE);
    let finds = Peg::Call(Rule::kw_MATCH);
    let when = or(finds, creates);
    let set = Peg::Call(Rule::set_clause);
    assert(body_of(Rule::merge_action, gql) == followed(on, followed(when, set)));
    let j = blank_end(s, i + 2);
    let k = behind_occasion(s, i, create);
    lemma_occasions(s, j, gql, e);
    lemma_keyword(Rule::kw_ON, "ON", s, i, gql, e);
    lemma_keyword(Rule::kw_CREATE, "CREATE", s, j, gql, e);
    lemma_keyword(Rule::kw_MATCH, "MATCH", s, j, gql, e);
    let x = node_for(Rule::kw_ON, s, i, i + 2, seq![]);
    let n = occasion(create).len();
    let r = occasion_rule(create);
    let y = node_for(r, s, j, j + n, seq![]);
    lemma_either(finds, creates, s, j, false, gql, e, j + n, seq![y]);
    lemma_both(when, set, s, j, false, gql, e, j + n, seq![y], end, z);
    let rest = seq![y] + z;
    lemma_both(on, followed(when, set), s, i, false, gql, e, i + 2, seq![x], end, rest);
    lemma_called(Rule::merge_action, s, i, false, gql, d, end, seq![x] + rest);
    let inner = split_called(Rule::set_clause, s, k, false, gql, e, end, z);
    node_for(Rule::merge_action, s, i, end, seq![x] + rest)
}

spec fn occasion_rule(create: bool) -> Rule {
    if create {
        Rule::kw_CREATE
    } else {
        Rule::kw_MATCH
    }
}

spec fn is_action(t: Tree, create: bool) -> bool {
    &&& t.rule == Rule::merge_action
    &&& t.children.len() == 3
    &&& t.children[0].rule == Rule::kw_ON
    &&& t.children[1].rule == occasion_rule(create)
    &&& t.children[2].rule == Rule::set_clause
}

proof fn lemma_set_meaning(u: Tree, gql: bool)
    requires
        u.rule == Rule::set_clause,
    ensures
        match set_items_from(u.children, 0, gql) {
            Ok(items) => clause_in(u, gql) matches Ok(c) && c is SetItems && c->SetItems_0.items
                == items,
            Err(f) => clause_in(u, gql) matches Err(g) && g == f,
        },
{
}

proof fn lemma_action_meaning(t: Tree, create: bool, gql: bool)
    requires
        is_action(t, create),
    ensures
        match set_items_from(t.children[2].children, 0, gql) {
            Ok(items) => merge_actions_from(seq![t], 0, gql) == Built::Ok(
                seq![m::MergeAction { on_create: create, items }],
            ),
            Err(f) => merge_actions_from(seq![t], 0, gql) == Built::<Seq<m::MergeAction>>::Err(f),
        },
{
    let ch = seq![t];
    lemma_child(t, Rule::set_clause, 2);
    if create {
        lemma_child(t, Rule::kw_CREATE, 1);
    } else {
        lemma_no_child(t, Rule::kw_CREATE);
    }
    let set = set_items_from(t.children[2].children, 0, gql);
    assert(child_set_items_in(t, gql) == set);
    assert(merge_actions_from(ch, 1, gql) == Built::Ok(Seq::<m::MergeAction>::empty()));
    if let Ok(items) = set {
        let a = m::MergeAction { on_create: create, items };
        assert(seq![a] + Seq::<m::MergeAction>::empty() =~= seq![a]);
    }
}

/// Wherever `ON CREATE SET` or `ON MATCH SET` stands, it is an action of a `MERGE`:
/// on creation in the one case and on a match in the other, with the assignments
/// that the `SET` makes on its own.
pub proof fn law_merge_action_is_read(
    s: Seq<char>,
    i: int,
    create: bool,
    gql: bool,
    d: nat,
)
    requires
        d >= 2,
        action_at(s, i, create, gql, (d - 1) as nat),
    ensures
        ({
            let set = behind_occasion(s, i, create);
            let x = rule_at(Rule::merge_action, s, i, gql, d);
            &&& x is Match
            &&& x->Match_end == rule_at(Rule::set_clause, s, set, gql, (d - 1) as nat)->Match_end
            &&& x->nodes.len() == 1
            &&& match assignments_at(s, set, gql, (d - 1) as nat) {
                Ok(items) => merge_actions_from(x->nodes, 0, gql) == Built::Ok(
                    seq![m::MergeAction { on_create: create, items }],
                ),
                Err(f) => merge_actions_from(x->nodes, 0, gql) == Built::<
                    Seq<m::MergeAction>,
                >::Err(f),
            }
        }),
{
    let e = (d - 1) as nat;
    let k = behind_occasion(s, i, create);
    let z = rule_at(Rule::set_clause, s, k, gql, e);
    lemma_run(Peg::Call(Rule::set_clause), s, k, false, gql, e);
    let t = lemma_action_parts(s, i, create, gql, d, z->Match_end, z->nodes);
    lemma_yields(Peg::Call(Rule::merge_action), s, i, false, gql, d, z->Match_end, seq![t]);
    lemma_action_meaning(t, create, gql);
    lemma_set_meaning(z->nodes[0], gql);
}

/// Only `ON CREATE SET` and `ON MATCH SET` are actions of a `MERGE`.
pub proof fn law_merge_action_is_written(s: Seq<char>, i: int, gql: bool, d: nat)
    requires
        rule_at(Rule::merge_action, s, i, gql, d) is Match,
    ensures
        d >= 2,
        action_at(s, i, true, gql, (d - 1) as nat) || action_at(s, i, false, gql, (d - 1) as nat),
{
    let p = Peg::Call(Rule::merge_action);
    let step = rule_at(Rule::merge_action, s, i, gql, d);
    let end = step->Match_end;
    lemma_run(p, s, i, false, gql, d);
    let x = split_called(Rule::merge_action, s, i, false, gql, d, end, step->nodes);
    let e = (d - 1) as nat;
    let on = Peg::Call(Rule::kw_ON);
    let creates = Peg::Call(Rule::kw_CREATE);
    let finds = Peg::Call(Rule::kw_MATCH);
    let when = or(finds, creates);
    let set = Peg::Call(Rule::set_clause);
    assert(body_of(Rule::merge_action, gql) == followed(on, followed(when, set)));
    let a = split_both(on, followed(when, set), s, i, false, gql, e, end, x);
    let ignored = split_called(Rule::kw_ON, s, i, false, gql, e, a.0, a.1);
    lemma_keyword(Rule::kw_ON, "ON", s, i, gql, e);
    lemma_yields(on, s, i, false, gql, e, a.0, a.1);
    if keyword_at(s, "ON"@, i) {
        lemma_yields(
            on,
            s,
            i,
            false,
            gql,
            e,
            i + "ON"@.len(),
            seq![node_for(Rule::kw_ON, s, i, i + "ON"@.len(), seq![])],
        );
    }
    let j = blank_end(s, a.0);
    lemma_occasions(s, j, gql, e);
    let b = split_both(when, set, s, j, false, gql, e, end, a.2);
    split_either(finds, creates, s, j, false, gql, e, b.0, b.1);
    lemma_keyword(Rule::kw_CREATE, "CREATE", s, j, gql, e);
    lemma_keyword(Rule::kw_MATCH, "MATCH", s, j, gql, e);
    let create = refuses(finds, s, j, false, gql, e);
    let r = if create {
        Rule::kw_CREATE
    } else {
        Rule::kw_MATCH
    };
    let word = if create {
        creates
    } else {
        finds
    };
    if yields(finds, s, j, false, gql, e, b.0, b.1) {
        lemma_yields(finds, s, j, false, gql, e, b.0, b.1);
    }
    lemma_yields(word, s, j, false, gql, e, b.0, b.1);
    let n = occasion(create).len();
    assert(keyword_at(s, occasion(create), j));
    lemma_yields(word, s, j, false, gql, e, j + n, seq![node_for(r, s, j, j + n, seq![])]);
    lemma_yields(set, s, next_part(s, b.0, false), false, gql, e, end, b.2);
    assert(action_at(s, i, create, gql, e));
}

/// Whether actions are those that stand behind a place, one behind the other, and
/// no other stands behind the last.
pub open spec fn actions_behind(s: Seq<char>, i: int, a: Seq<m::MergeAction>, d: nat) -> bool
    decreases a.len(),
{
    let j = blank_end(s, i);
    if a.len() == 0 {
        !action_at(s, j, true, false, d) && !action_at(s, j, false, false, d)
    } else {
        let set = behind_occasion(s, j, a[0].on_create);
        &&& action_at(s, j, a[0].on_create, false, d)
        &&& assignments_at(s, set, false, d) == Built::Ok(a[0].items)
        &&& actions_behind(
            s,
            rule_at(Rule::set_clause, s, set, false, d)->Match_end,
            a.skip(1),
            d,
        )
    }
}

/// What each of several nodes says, one behind the other.
proof fn lemma_actions_join(x: Seq<Tree>, y: Seq<Tree>, i: int)
    requires
        0 <= i <= x.len(),
    ensures
        merge_actions_from(x + y, i, false) == match merge_actions_from(x, i, false) {
            Err(f) => Built::Err(f),
            Ok(a) => match merge_actions_from(y, 0, false) {
                Err(f) => Built::Err(f),
                Ok(b) => Built::Ok(a + b),
            },
        },
    decreases x.len() - i,
{
    if i < x.len() {
        lemma_actions_join(x, y, i + 1);
        assert((x + y)[i] == x[i]);
        lemma_actions_step(x + y, i);
        lemma_actions_step(x, i);
        if merge_actions_from(x, i, false) is Ok && merge_actions_from(y, 0, false) is Ok {
            let b = merge_actions_from(y, 0, false)->Ok_0;
            let rest = merge_actions_from(x, i + 1, false)->Ok_0;
            let all = merge_actions_from(x, i, false)->Ok_0;
            if x[i].rule == Rule::merge_action {
                assert(all + b =~= seq![all[0]] + (rest + b));
            }
        }
    } else {
        lemma_actions_tail(x, y, 0);
        assert(merge_actions_from(x, i, false) == Built::Ok(Seq::<m::MergeAction>::empty()));
        if merge_actions_from(y, 0, false) is Ok {
            let b = merge_actions_from(y, 0, false)->Ok_0;
            assert(Seq::<m::MergeAction>::empty() + b =~= b);
        }
    }
}

proof fn lemma_actions_tail(x: Seq<Tree>, y: Seq<Tree>, i: int)
    requires
        0 <= i <= y.len(),
    ensures
        merge_actions_from(x + y, x.len() + i, false) == merge_actions_from(y, i, false),
    decreases y.len() - i,
{
    if i < y.len() {
        lemma_actions_tail(x, y, i + 1);
        assert((x + y)[x.len() + i] == y[i]);
        lemma_actions_step(x + y, x.len() + i);
        lemma_actions_step(y, i);
    }
}

/// What one node says on its own.
spec fn one_action(t: Tree) -> Built<Seq<m::MergeAction>> {
    merge_actions_from(seq![t], 0, false)
}

proof fn lemma_actions_step(x: Seq<Tree>, i: int)
    requires
        0 <= i < x.len(),
    ensures
        merge_actions_from(x, i, false) == match one_action(x[i]) {
            Err(f) => Built::Err(f),
            Ok(a) => match merge_actions_from(x, i + 1, false) {
                Err(f) => Built::Err(f),
                Ok(b) => Built::Ok(a + b),
            },
        },
        one_action(x[i]) matches Ok(a) ==> a.len() == if x[i].rule == Rule::merge_action {
            1nat
        } else {
            0nat
        },
{
    let one = seq![x[i]];
    let none = Seq::<m::MergeAction>::empty();
    assert(merge_actions_from(one, 1, false) == Built::Ok(none));
    assert(one[0] == x[i]);
    if let Ok(a) = one_action(x[i]) {
        assert(a + none =~= a);
    }
    if let Ok(b) = merge_actions_from(x, i + 1, false) {
        assert(none + b =~= b);
    }
}

/// Where a node stands does not change what it says.
proof fn lemma_actions_seen(v: Seq<Tree>, k: int, i: int)
    requires
        0 <= i <= v.len(),
    ensures
        merge_actions_from(seen_from(v, k), i, false) == merge_actions_from(v, i, false),
    decreases v.len() - i,
{
    if i < v.len() {
        lemma_actions_seen(v, k, i + 1);
        lemma_actions_step(v, i);
        lemma_actions_step(seen_from(v, k), i);
        lemma_action_seen(v[i], seen_from(v, k)[i]);
    }
}

proof fn lemma_action_seen(t: Tree, u: Tree)
    requires
        t.rule == u.rule,
        t.children == u.children,
    ensures
        one_action(t) == one_action(u),
{
    assert(child_set_items_in(t, false) == child_set_items_in(u, false));
    assert(merge_actions_from(seq![t], 1, false) == merge_actions_from(seq![u], 1, false));
}

/// An action takes up text, and ends where its `SET` does.
proof fn lemma_action_advances(s: Seq<char>, i: int, create: bool, d: nat)
    requires
        action_at(s, i, create, false, d),
        d > 0,
    ensures
        ({
            let e = rule_at(Rule::set_clause, s, behind_occasion(s, i, create), false, d)->Match_end;
            i < e <= s.len()
        }),
{
    let j = blank_end(s, i + 2);
    lemma_occasions(s, j, false, d);
    lemma_blank_end(s, i + 2);
    lemma_blank_end(s, j + occasion(create).len());
    let k = behind_occasion(s, i, create);
    law_matches_stand_in_text(Peg::Call(Rule::set_clause), s, k, false, false, d);
}

/// Whether nodes say what stands behind a place.
#[verifier::opaque]
spec fn say_what_stands(v: Seq<Tree>, s: Seq<char>, i: int, d: nat) -> bool {
    merge_actions_from(v, 0, false) matches Ok(a) ==> actions_behind(s, i, a, d)
}

proof fn lemma_no_action(s: Seq<char>, i: int, d: nat)
    requires
        d >= 2,
        !(rule_at(Rule::merge_action, s, blank_end(s, i), false, d) is Match),
    ensures
        say_what_stands(seq![], s, i, (d - 1) as nat),
{
    reveal(say_what_stands);
    let g = (d - 1) as nat;
    let j = blank_end(s, i);
    if action_at(s, j, true, false, g) {
        law_merge_action_is_read(s, j, true, false, d);
    }
    if action_at(s, j, false, false, g) {
        law_merge_action_is_read(s, j, false, false, d);
    }
    assert(merge_actions_from(Seq::<Tree>::empty(), 0, false) == Built::Ok(
        Seq::<m::MergeAction>::empty(),
    ));
}

proof fn lemma_next_action(s: Seq<char>, i: int, d: nat, rest: Seq<Tree>)
    requires
        d >= 2,
        ({
            let x = rule_at(Rule::merge_action, s, blank_end(s, i), false, d);
            x is Match && say_what_stands(rest, s, x->Match_end, (d - 1) as nat)
        }),
    ensures
        ({
            let x = rule_at(Rule::merge_action, s, blank_end(s, i), false, d);
            say_what_stands(x->nodes + rest, s, i, (d - 1) as nat)
        }),
{
    reveal(say_what_stands);
    let g = (d - 1) as nat;
    let j = blank_end(s, i);
    let x = rule_at(Rule::merge_action, s, j, false, d);
    law_merge_action_is_written(s, j, false, d);
    let create = action_at(s, j, true, false, g);
    law_merge_action_is_read(s, j, create, false, d);
    lemma_actions_join(x->nodes, rest, 0);
    if let Ok(a) = merge_actions_from(x->nodes + rest, 0, false) {
        let b = merge_actions_from(rest, 0, false)->Ok_0;
        assert(a.skip(1) =~= b);
        assert(a[0].on_create == create);
    }
}

/// An action takes up text.
proof fn lemma_action_end(s: Seq<char>, i: int, d: nat)
    requires
        d >= 2,
    ensures
        rule_at(Rule::merge_action, s, i, false, d) matches Step::Match { end, nodes, far } ==> i
            < end <= s.len(),
{
    let x = rule_at(Rule::merge_action, s, i, false, d);
    if x is Match {
        let g = (d - 1) as nat;
        law_merge_action_is_written(s, i, false, d);
        let create = action_at(s, i, true, false, g);
        lemma_action_advances(s, i, create, g);
        law_merge_action_is_read(s, i, create, false, d);
    }
}

/// Nothing stands behind the end of a text.
proof fn lemma_action_ends(s: Seq<char>, i: int, d: nat)
    requires
        d >= 2,
        i >= s.len(),
    ensures
        !(rule_at(Rule::merge_action, s, i, false, d) is Match),
{
    lemma_action_end(s, i, d);
}

/// The actions that a repetition yields.
proof fn lemma_more_actions(s: Seq<char>, end: int, done: Seq<Tree>, f: int, d: nat) -> (more: Seq<
    Tree,
>)
    requires
        d >= 2,
        0 <= end <= s.len(),
    ensures
        run_more(Peg::Call(Rule::merge_action), s, end, done, f, false, false, d) matches Step::Match {
            end: e,
            nodes,
            far,
        } ==> nodes == done + more && say_what_stands(more, s, end, (d - 1) as nat),
    decreases s.len() - end,
{
    let j = blank_end(s, end);
    let none = Seq::<Tree>::empty();
    assert(done + none =~= done);
    lemma_blank_end(s, end);
    let x = rule_at(Rule::merge_action, s, j, false, d);
    if end >= s.len() {
        lemma_action_ends(s, j, d);
    }
    if !(x is Match) {
        lemma_no_action(s, end, d);
        none
    } else {
        lemma_action_end(s, j, d);
        let e = x->Match_end;
        let rest = lemma_more_actions(s, e, done + x->nodes, larger(f, x->Match_far), d);
        assert(done + (x->nodes + rest) =~= (done + x->nodes) + rest);
        if say_what_stands(rest, s, e, (d - 1) as nat) {
            lemma_next_action(s, end, d, rest);
        }
        x->nodes + rest
    }
}

/// The actions that stand behind a place.
proof fn lemma_first_actions(s: Seq<char>, i: int, d: nat)
    requires
        d >= 2,
        0 <= i <= s.len(),
    ensures
        run(
            often(Peg::Call(Rule::merge_action)),
            s,
            blank_end(s, i),
            false,
            false,
            d,
        ) matches Step::Match { end, nodes, far } ==> say_what_stands(nodes, s, i, (d - 1) as nat),
{
    let j = blank_end(s, i);
    lemma_blank_end(s, i);
    let x = rule_at(Rule::merge_action, s, j, false, d);
    if x is Match {
        lemma_action_end(s, j, d);
        let rest = lemma_more_actions(s, x->Match_end, x->nodes, x->Match_far, d);
        if say_what_stands(rest, s, x->Match_end, (d - 1) as nat) {
            lemma_next_action(s, i, d, rest);
        }
    } else {
        lemma_no_action(s, i, d);
    }
}

/// A `MERGE` has the pattern that stands behind it, and the actions that stand
/// behind the pattern.
pub proof fn law_merge_is_read(s: Seq<char>, i: int, d: nat)
    requires
        rule_at(Rule::merge_clause, s, i, false, d) is Match,
    ensures
        ({
            let x = rule_at(Rule::merge_clause, s, i, false, d);
            let p = rule_at(Rule::pattern, s, blank_end(s, i + 5), false, (d - 1) as nat);
            &&& keyword_at(s, "MERGE"@, i)
            &&& p is Match
            &&& clause_in(x->nodes[0], false) matches Ok(c) ==> {
                &&& c is Merge
                &&& pattern_in(p->nodes[0], false) == Built::Ok(c->Merge_0.pattern)
                &&& actions_behind(s, p->Match_end, c->Merge_0.actions, (d - 2) as nat)
            }
        }),
{
    let r = Rule::merge_clause;
    let e = (d - 1) as nat;
    let step = rule_at(r, s, i, false, d);
    let end = step->Match_end;
    lemma_run(Peg::Call(r), s, i, false, false, d);
    let below = split_called(r, s, i, false, false, d, end, step->nodes);
    let merge = Peg::Call(Rule::kw_MERGE);
    let pattern = Peg::Call(Rule::pattern);
    let action = Peg::Call(Rule::merge_action);
    let rest = followed(pattern, often(action));
    assert(body_of(r, false) == followed(merge, rest));
    let a = split_both(merge, rest, s, i, false, false, e, end, below);
    lemma_found_keyword(Rule::kw_MERGE, "MERGE", s, i, false, e, a.0, a.1);
    reveal_strlit("MERGE");
    let j = blank_end(s, i + 5);
    let b = split_both(pattern, often(action), s, j, false, false, e, end, a.2);
    lemma_yields(pattern, s, j, false, false, e, b.0, b.1);
    let inner = split_called(Rule::pattern, s, j, false, false, e, b.0, b.1);
    let name = perhaps(followed(Peg::Call(Rule::variable), Peg::Word("=")));
    let part = Peg::Call(Rule::anonymous_pattern_part);
    assert(body_of(Rule::pattern, false) == followed(name, part));
    let f = (e - 1) as nat;
    let c = split_both(name, part, s, j, false, false, f, b.0, inner);
    let at_part = next_part(s, c.0, false);
    let deep = split_called(Rule::anonymous_pattern_part, s, at_part, false, false, f, b.0, c.2);
    lemma_blank_end(s, i + 5);
    law_matches_stand_in_text(pattern, s, j, false, false, e);
    let k = blank_end(s, b.0);
    lemma_yields(often(action), s, k, false, false, e, end, b.2);
    lemma_first_actions(s, b.0, e);
    let t = step->nodes[0];
    lemma_merge_meaning(t, a.1[0], b.1[0], b.2, i);
    reveal(say_what_stands);
}

proof fn lemma_merge_meaning(t: Tree, k: Tree, p: Tree, v: Seq<Tree>, i: int)
    requires
        t.rule == Rule::merge_clause,
        t.children == seen_from(seq![k] + (seq![p] + v), i),
        k.rule == Rule::kw_MERGE,
        p.rule == Rule::pattern,
    ensures
        clause_in(t, false) matches Ok(c) ==> c is Merge && pattern_in(p, false) == Built::Ok(
            c->Merge_0.pattern,
        ) && merge_actions_from(v, 0, false) == Built::Ok(c->Merge_0.actions),
{
    let all = seq![k] + (seq![p] + v);
    lemma_child(t, Rule::pattern, 1);
    lemma_actions_seen(all, i, 0);
    let head = seq![k, p];
    assert(all =~= head + v);
    lemma_actions_join(head, v, 0);
    let none = Seq::<m::MergeAction>::empty();
    assert(merge_actions_from(head, 2, false) == Built::Ok(none));
    assert(merge_actions_from(head, 1, false) == Built::Ok(none));
    assert(merge_actions_from(head, 0, false) == Built::Ok(none));
    if let Ok(a) = merge_actions_from(v, 0, false) {
        assert(none + a =~= a);
    }
    lemma_pattern_seen(t.children[1], p);
    assert(child_pattern_in(t, false) == pattern_in(p, false));
    lemma_merge_in(t);
}

proof fn lemma_merge_in(t: Tree)
    requires
        t.rule == Rule::merge_clause,
    ensures
        clause_in(t, false) == match child_pattern_in(t, false) {
            Err(f) => Built::Err(f),
            Ok(pattern) => match merge_actions_from(t.children, 0, false) {
                Err(f) => Built::Err(f),
                Ok(actions) => Built::Ok(m::Clause::Merge(m::MergeClause { pattern, actions })),
            },
        },
{
}

proof fn lemma_pattern_seen(t: Tree, u: Tree)
    requires
        t.children == u.children,
    ensures
        pattern_in(t, false) == pattern_in(u, false),
{
}

// ── Directions of ORDER BY ───────────────────────────────────────────────────

/// Whether `DESC` stands at a place, or in Cypher `DESCENDING`.
pub open spec fn says_descending(s: Seq<char>, i: int, gql: bool) -> bool {
    keyword_at(s, "DESC"@, i) || (!gql && keyword_at(s, "DESCENDING"@, i))
}

/// Whether `ASC` stands at a place, or in Cypher `ASCENDING`.
pub open spec fn says_ascending(s: Seq<char>, i: int, gql: bool) -> bool {
    keyword_at(s, "ASC"@, i) || (!gql && keyword_at(s, "ASCENDING"@, i))
}

proof fn lemma_directions(s: Seq<char>, i: int)
    ensures
        "DESC"@.len() == 4,
        "DESCENDING"@.len() == 10,
        "ASC"@.len() == 3,
        "ASCENDING"@.len() == 9,
        keyword_at(s, "DESC"@, i) || keyword_at(s, "DESCENDING"@, i) ==> !keyword_at(
            s,
            "ASC"@,
            i,
        ) && !keyword_at(s, "ASCENDING"@, i),
{
    reveal_strlit("DESC");
    reveal_strlit("DESCENDING");
    reveal_strlit("ASC");
    reveal_strlit("ASCENDING");
    if keyword_at(s, "ASC"@, i) {
        lemma_one_keyword(s, "ASC"@, "DESC"@, i);
        lemma_one_keyword(s, "ASC"@, "DESCENDING"@, i);
    }
    if keyword_at(s, "ASCENDING"@, i) {
        lemma_one_keyword(s, "ASCENDING"@, "DESC"@, i);
        lemma_one_keyword(s, "ASCENDING"@, "DESCENDING"@, i);
    }
}

/// Where a direction stands, and which.
proof fn lemma_direction_body(s: Seq<char>, i: int, gql: bool, d: nat) -> (r: (int, Tree))
    requires
        d >= 1,
    ensures
        says_descending(s, i, gql) || says_ascending(s, i, gql) ==> {
            &&& yields(body_of(Rule::sort_direction, gql), s, i, false, gql, d, r.0, seq![r.1])
            &&& says_descending(s, i, gql) ==> r.1.rule == Rule::kw_DESC || (!gql && r.1.rule
                == Rule::kw_DESCENDING)
            &&& !says_descending(s, i, gql) ==> r.1.rule == Rule::kw_ASC || (!gql && r.1.rule
                == Rule::kw_ASCENDING)
        },
        !says_descending(s, i, gql) && !says_ascending(s, i, gql) ==> refuses(
            body_of(Rule::sort_direction, gql),
            s,
            i,
            false,
            gql,
            d,
        ),
{
    lemma_directions(s, i);
    let up = Peg::Call(Rule::kw_ASC);
    let down = Peg::Call(Rule::kw_DESC);
    let x = node_for(Rule::kw_ASC, s, i, i + 3, seq![]);
    let y = node_for(Rule::kw_DESC, s, i, i + 4, seq![]);
    let short = or(up, down);
    lemma_keyword(Rule::kw_ASC, "ASC", s, i, gql, d);
    lemma_keyword(Rule::kw_DESC, "DESC", s, i, gql, d);
    let first = if keyword_at(s, "ASC"@, i) {
        (i + 3, x)
    } else {
        (i + 4, y)
    };
    if keyword_at(s, "ASC"@, i) || keyword_at(s, "DESC"@, i) {
        lemma_either(up, down, s, i, false, gql, d, first.0, seq![first.1]);
    } else {
        lemma_neither(up, down, s, i, false, gql, d);
    }
    if gql {
        assert(body_of(Rule::sort_direction, gql) == short);
        first
    } else {
        let far_up = Peg::Call(Rule::kw_ASCENDING);
        let far_down = Peg::Call(Rule::kw_DESCENDING);
        let v = node_for(Rule::kw_ASCENDING, s, i, i + 9, seq![]);
        let w = node_for(Rule::kw_DESCENDING, s, i, i + 10, seq![]);
        let rest = or(far_down, short);
        assert(body_of(Rule::sort_direction, gql) == or(far_up, rest));
        lemma_keyword(Rule::kw_ASCENDING, "ASCENDING", s, i, gql, d);
        lemma_keyword(Rule::kw_DESCENDING, "DESCENDING", s, i, gql, d);
        let second = if keyword_at(s, "DESCENDING"@, i) {
            (i + 10, w)
        } else {
            first
        };
        let third = if keyword_at(s, "ASCENDING"@, i) {
            (i + 9, v)
        } else {
            second
        };
        if keyword_at(s, "ASC"@, i) || says_descending(s, i, gql) {
            lemma_either(far_down, short, s, i, false, gql, d, second.0, seq![second.1]);
        } else {
            lemma_neither(far_down, short, s, i, false, gql, d);
        }
        if says_ascending(s, i, gql) || says_descending(s, i, gql) {
            lemma_either(far_up, rest, s, i, false, gql, d, third.0, seq![third.1]);
        } else {
            lemma_neither(far_up, rest, s, i, false, gql, d);
        }
        third
    }
}

spec fn is_sort_item(t: Tree, x: Tree, directed: bool, descending: bool, gql: bool) -> bool {
    &&& t.rule == Rule::sort_item
    &&& t.children.len() == if directed {
        2int
    } else {
        1int
    }
    &&& t.children[0].rule == Rule::expression
    &&& t.children[0].children == x.children
    &&& directed ==> t.children[1].rule == Rule::sort_direction && t.children[1].children.len()
        == 1 && (descending ==> t.children[1].children[0].rule == Rule::kw_DESC || (!gql
        && t.children[1].children[0].rule == Rule::kw_DESCENDING)) && (!descending
        ==> t.children[1].children[0].rule == Rule::kw_ASC || (!gql
        && t.children[1].children[0].rule == Rule::kw_ASCENDING))
    &&& !directed ==> !descending
}

proof fn lemma_sort_parts(
    s: Seq<char>,
    i: int,
    gql: bool,
    d: nat,
    e: int,
    x: Seq<Tree>,
) -> (r: (int, Tree))
    requires
        d >= 3,
        yields(Peg::Call(Rule::expression), s, i, false, gql, (d - 1) as nat, e, x),
    ensures
        yields(Peg::Call(Rule::sort_item), s, i, false, gql, d, r.0, seq![r.1]),
        x.len() == 1,
        is_sort_item(
            r.1,
            x[0],
            says_descending(s, blank_end(s, e), gql) || says_ascending(s, blank_end(s, e), gql),
            says_descending(s, blank_end(s, e), gql),
            gql,
        ),
{
    let f = (d - 1) as nat;
    let g = (d - 2) as nat;
    let j = blank_end(s, e);
    let what = Peg::Call(Rule::expression);
    let way = Peg::Call(Rule::sort_direction);
    assert(body_of(Rule::sort_item, gql) == followed(what, perhaps(way)));
    let inner = split_called(Rule::expression, s, i, false, gql, f, e, x);
    let w = lemma_direction_body(s, j, gql, g);
    if says_descending(s, j, gql) || says_ascending(s, j, gql) {
        lemma_called(Rule::sort_direction, s, j, false, gql, f, w.0, seq![w.1]);
        let y = seq![node_for(Rule::sort_direction, s, j, w.0, seq![w.1])];
        lemma_maybe(way, s, j, false, gql, f, w.0, y);
        lemma_both(what, perhaps(way), s, i, false, gql, f, e, x, w.0, y);
        lemma_called(Rule::sort_item, s, i, false, gql, d, w.0, x + y);
        (w.0, node_for(Rule::sort_item, s, i, w.0, x + y))
    } else {
        lemma_called_refuses(Rule::sort_direction, s, j, false, gql, f);
        let y = Seq::<Tree>::empty();
        lemma_maybe(way, s, j, false, gql, f, j, y);
        lemma_both(what, perhaps(way), s, i, false, gql, f, e, x, j, y);
        lemma_called(Rule::sort_item, s, i, false, gql, d, j, x + y);
        (j, node_for(Rule::sort_item, s, i, j, x + y))
    }
}

/// What an expression means is seen from its parts.
pub proof fn lemma_same_expression(t: Tree, x: Tree, gql: bool)
    requires
        t.children == x.children,
    ensures
        expression_in(t, gql) == expression_in(x, gql),
{
}

/// The expression among the children.
pub proof fn lemma_child_expression(t: Tree, k: int, x: Tree, gql: bool)
    requires
        0 <= k < t.children.len(),
        forall|j: int| 0 <= j < k ==> (#[trigger] t.children[j]).rule != Rule::expression,
        t.children[k].rule == Rule::expression,
        t.children[k].children == x.children,
    ensures
        child_expression_in(t, gql) == expression_in(x, gql),
{
    lemma_child(t, Rule::expression, k);
    lemma_same_expression(t.children[k], x, gql);
}

proof fn lemma_sort_direction(t: Tree, x: Tree, directed: bool, descending: bool, gql: bool)
    requires
        is_sort_item(t, x, directed, descending, gql),
    ensures
        descends(t, gql) == descending,
{
    if directed {
        lemma_child(t, Rule::sort_direction, 1);
    } else {
        lemma_no_child(t, Rule::sort_direction);
    }
}

pub proof fn lemma_one_sort_item(ch: Seq<Tree>, gql: bool)
    requires
        ch.len() == 1,
        ch[0].rule == Rule::sort_item,
    ensures
        match sort_item_in(ch[0], gql) {
            Ok(x) => sort_items_from(ch, 0, gql) == Built::Ok(seq![x]),
            Err(f) => sort_items_from(ch, 0, gql) == Built::<Seq<m::SortItem>>::Err(f),
        },
{
    let item = sort_item_in(ch[0], gql);
    let rest = sort_items_from(ch, 1, gql);
    assert(rest == Built::Ok(Seq::<m::SortItem>::empty()));
    if let Ok(x) = item {
        assert(seq![x] + Seq::<m::SortItem>::empty() =~= seq![x]);
    }
}

proof fn lemma_sort_item_in(t: Tree, x: Tree, directed: bool, descending: bool, gql: bool)
    requires
        is_sort_item(t, x, directed, descending, gql),
    ensures
        match expression_in(x, gql) {
            Ok(expression) => sort_item_in(t, gql) == Built::Ok(
                m::SortItem { expression, descending },
            ),
            Err(f) => sort_item_in(t, gql) == Built::<m::SortItem>::Err(f),
        },
{
    lemma_sort_direction(t, x, directed, descending, gql);
    lemma_child_expression(t, 0, x, gql);
}

/// In both dialects each expression is a sort item. It descends where `DESC` stands
/// behind it, or `DESCENDING` in Cypher, and ascends with `ASC` or nothing there.
pub proof fn law_sort_item_is_read(s: Seq<char>, i: int, gql: bool, d: nat)
    requires
        d >= 3,
        rule_at(Rule::expression, s, i, gql, (d - 1) as nat) is Match,
    ensures
        ({
            let e = rule_at(Rule::expression, s, i, gql, (d - 1) as nat);
            let x = rule_at(Rule::sort_item, s, i, gql, d);
            let behind = blank_end(s, e->Match_end);
            &&& x is Match
            &&& match expression_in(e->nodes[0], gql) {
                Ok(expression) => sort_items_from(x->nodes, 0, gql) == Built::Ok(
                    seq![
                        m::SortItem {
                            expression,
                            descending: keyword_at(s, "DESC"@, behind) || (!gql && keyword_at(
                                s,
                                "DESCENDING"@,
                                behind,
                            )),
                        },
                    ],
                ),
                Err(f) => sort_items_from(x->nodes, 0, gql) == Built::<Seq<m::SortItem>>::Err(f),
            }
        }),
{
    let f = (d - 1) as nat;
    let e = rule_at(Rule::expression, s, i, gql, f);
    lemma_run(Peg::Call(Rule::expression), s, i, false, gql, f);
    let r = lemma_sort_parts(s, i, gql, d, e->Match_end, e->nodes);
    lemma_yields(Peg::Call(Rule::sort_item), s, i, false, gql, d, r.0, seq![r.1]);
    let behind = blank_end(s, e->Match_end);
    let down = says_descending(s, behind, gql);
    lemma_sort_item_in(r.1, e->nodes[0], down || says_ascending(s, behind, gql), down, gql);
    lemma_one_sort_item(seq![r.1], gql);
}

/// Each sort item begins with an expression.
pub proof fn law_sort_item_is_written(s: Seq<char>, i: int, gql: bool, d: nat)
    requires
        rule_at(Rule::sort_item, s, i, gql, d) is Match,
    ensures
        d >= 3,
        rule_at(Rule::expression, s, i, gql, (d - 1) as nat) is Match,
{
    let r = Rule::sort_item;
    let step = rule_at(r, s, i, gql, d);
    let end = step->Match_end;
    let what = Peg::Call(Rule::expression);
    let way = perhaps(Peg::Call(Rule::sort_direction));
    assert(body_of(r, gql) == followed(what, way));
    lemma_run(Peg::Call(r), s, i, false, gql, d);
    let x = split_called(r, s, i, false, gql, d, end, step->nodes);
    let e = (d - 1) as nat;
    let a = split_both(what, way, s, i, false, gql, e, end, x);
    lemma_yields(what, s, i, false, gql, e, a.0, a.1);
    let y = split_called(Rule::expression, s, i, false, gql, e, a.0, a.1);
    assert(body_of(Rule::expression, gql) == Peg::Call(Rule::or_expr));
    let z = split_called(Rule::or_expr, s, i, false, gql, (e - 1) as nat, a.0, y);
}

/// A sort item that both dialects read has the same direction in both where `DESC`,
/// `ASC` or no direction at all stands behind its expression.
pub proof fn law_dialects_sort_alike(s: Seq<char>, i: int, d: nat)
    requires
        d >= 3,
        rule_at(Rule::expression, s, i, true, (d - 1) as nat) is Match,
        rule_at(Rule::expression, s, i, false, (d - 1) as nat) is Match,
        ({
            let g = rule_at(Rule::expression, s, i, true, (d - 1) as nat);
            let c = rule_at(Rule::expression, s, i, false, (d - 1) as nat);
            let behind = blank_end(s, c->Match_end);
            &&& g->Match_end == c->Match_end
            &&& expression_in(g->nodes[0], true) == expression_in(c->nodes[0], false)
            &&& !keyword_at(s, "DESCENDING"@, behind)
        }),
    ensures
        ({
            let g = rule_at(Rule::sort_item, s, i, true, d);
            let c = rule_at(Rule::sort_item, s, i, false, d);
            &&& g is Match
            &&& c is Match
            &&& sort_items_from(g->nodes, 0, true) == sort_items_from(c->nodes, 0, false)
        }),
{
    law_sort_item_is_read(s, i, true, d);
    law_sort_item_is_read(s, i, false, d);
}

// ── Markers ──────────────────────────────────────────────────────────────────

/// Whether an expression can yield a node of a rule.
pub open spec fn mentions(p: Peg, r: Rule) -> bool
    decreases p,
{
    match p {
        Peg::Call(q) => q == r,
        Peg::Then(a, b) => mentions(*a, r) || mentions(*b, r),
        Peg::Or(a, b) => mentions(*a, r) || mentions(*b, r),
        Peg::Maybe(a) => mentions(*a, r),
        Peg::Many(a) => mentions(*a, r),
        _ => false,
    }
}

pub open spec fn lacks(v: Seq<Tree>, r: Rule) -> bool {
    forall|k: int| 0 <= k < v.len() ==> (#[trigger] v[k]).rule != r
}

pub proof fn lemma_lacks(p: Peg, r: Rule, s: Seq<char>, i: int, token: bool, gql: bool, d: nat)
    requires
        !mentions(p, r),
    ensures
        run(p, s, i, token, gql, d) matches Step::Match { end, nodes, far } ==> lacks(nodes, r),
    decreases p, 0int,
{
    match p {
        Peg::Then(a, b) => {
            lemma_lacks(*a, r, s, i, token, gql, d);
            let e = run(*a, s, i, token, gql, d)->Match_end;
            lemma_lacks(*b, r, s, next_part(s, e, token), token, gql, d);
        },
        Peg::Or(a, b) => {
            lemma_lacks(*a, r, s, i, token, gql, d);
            lemma_lacks(*b, r, s, i, token, gql, d);
        },
        Peg::Maybe(a) => {
            lemma_lacks(*a, r, s, i, token, gql, d);
        },
        Peg::Many(a) => {
            lemma_lacks(*a, r, s, i, token, gql, d);
            if let Step::Match { end, nodes, far } = run(*a, s, i, token, gql, d) {
                lemma_more_lacks(*a, r, s, end, nodes, far, token, gql, d);
            }
        },
        _ => {},
    }
}

proof fn lemma_more_lacks(
    p: Peg,
    r: Rule,
    s: Seq<char>,
    end: int,
    done: Seq<Tree>,
    f: int,
    token: bool,
    gql: bool,
    d: nat,
)
    requires
        !mentions(p, r),
        lacks(done, r),
    ensures
        run_more(p, s, end, done, f, token, gql, d) matches Step::Match { end: e, nodes, far }
            ==> lacks(nodes, r),
    decreases p, 1 + s.len() - end,
{
    if 0 <= end < s.len() {
        let from = next_part(s, end, token);
        lemma_lacks(p, r, s, from, token, gql, d);
        if let Step::Match { end: e, nodes, far } = run(p, s, from, token, gql, d) {
            if end < e <= s.len() {
                assert(lacks(done + nodes, r));
                lemma_more_lacks(p, r, s, e, done + nodes, larger(f, far), token, gql, d);
            }
        }
    }
}

/// A rule that a marker may begin has the marker where its keyword stands, and
/// only there.
proof fn lemma_marker(
    r: Rule,
    marker: Rule,
    k: Rule,
    w: &'static str,
    rest: Peg,
    s: Seq<char>,
    i: int,
    gql: bool,
    d: nat,
)
    requires
        rule_at(r, s, i, gql, d) is Match,
        !is_token(r),
        !is_token(marker),
        is_token(k),
        body_of(r, gql) == followed(perhaps(Peg::Call(marker)), rest),
        body_of(marker, gql) == Peg::Call(k),
        body_of(k, gql) == followed(Peg::Word(w), Peg::Not(Box::new(Peg::One(Class::NamePart)))),
        !mentions(rest, marker),
    ensures
        rule_at(r, s, i, gql, d)->nodes.len() == 1,
        rule_at(r, s, i, gql, d)->nodes[0].rule == r,
        ({
            let t = rule_at(r, s, i, gql, d)->nodes[0];
            holds(t, at(t, marker)) == keyword_at(s, w@, i)
        }),
{
    let step = rule_at(r, s, i, gql, d);
    let end = step->Match_end;
    let e = (d - 1) as nat;
    let mark = Peg::Call(marker);
    lemma_run(Peg::Call(r), s, i, false, gql, d);
    let below = split_called(r, s, i, false, gql, d, end, step->nodes);
    let a = split_both(perhaps(mark), rest, s, i, false, gql, e, end, below);
    split_maybe(mark, s, i, false, gql, e, a.0, a.1);
    let from = next_part(s, a.0, false);
    lemma_lacks(rest, marker, s, from, false, gql, e);
    lemma_yields(rest, s, from, false, gql, e, end, a.2);
    let t = step->nodes[0];
    if yields(mark, s, i, false, gql, e, a.0, a.1) {
        let x = split_called(marker, s, i, false, gql, e, a.0, a.1);
        lemma_found_keyword(k, w, s, i, gql, (e - 1) as nat, a.0, x);
        lemma_child(t, marker, 0);
    } else {
        assert forall|j: int| 0 <= j < t.children.len() implies (#[trigger] t.children[j]).rule
            != marker by {
            assert(below =~= a.2);
            assert(t.children[j].rule == below[j].rule);
        }
        lemma_no_child(t, marker);
        if keyword_at(s, w@, i) && e >= 2 {
            let f = (e - 1) as nat;
            lemma_keyword(k, w, s, i, gql, f);
            let z = i + w@.len();
            let x = seq![node_for(k, s, i, z, seq![])];
            lemma_called(marker, s, i, false, gql, e, z, x);
            let u = node_for(marker, s, i, z, x);
            lemma_yields(mark, s, i, false, gql, e, z, seq![u]);
        }
        if e < 2 {
            reveal(refuses);
            assert(run(mark, s, i, false, gql, e) is Fail);
            if e == 1 {
                assert(run(Peg::Call(k), s, i, false, gql, 0) is Deep);
            }
        }
    }
}

/// A `MATCH` is optional where `OPTIONAL` stands in front of it, and only there.
pub proof fn law_optional_is_read(s: Seq<char>, i: int, gql: bool, d: nat)
    requires
        rule_at(Rule::match_clause, s, i, gql, d) is Match,
    ensures
        clause_in(rule_at(Rule::match_clause, s, i, gql, d)->nodes[0], gql) matches Ok(c) ==> c
            is Match && c->Match_0.optional == keyword_at(s, "OPTIONAL"@, i),
{
    let predicate = if gql {
        Rule::match_where
    } else {
        Rule::where_clause
    };
    let behind = followed(Peg::Call(Rule::pattern_list), perhaps(Peg::Call(predicate)));
    let rest = followed(Peg::Call(Rule::kw_MATCH), behind);
    assert(body_of(Rule::match_clause, gql) == followed(
        perhaps(Peg::Call(Rule::optional_marker)),
        rest,
    ));
    assert(!mentions(rest, Rule::optional_marker)) by {
        reveal_with_fuel(mentions, 5);
    }
    lemma_marker(
        Rule::match_clause,
        Rule::optional_marker,
        Rule::kw_OPTIONAL,
        "OPTIONAL",
        rest,
        s,
        i,
        gql,
        d,
    );
    lemma_match_in(rule_at(Rule::match_clause, s, i, gql, d)->nodes[0], gql);
}

proof fn lemma_match_in(t: Tree, gql: bool)
    requires
        t.rule == Rule::match_clause,
    ensures
        clause_in(t, gql) matches Ok(c) ==> c is Match && c->Match_0.optional == holds(
            t,
            at(t, Rule::optional_marker),
        ),
{
}

/// A `DELETE` detaches where `DETACH` stands in front of it, and only there.
pub proof fn law_detach_is_read(s: Seq<char>, i: int, gql: bool, d: nat)
    requires
        rule_at(Rule::delete_clause, s, i, gql, d) is Match,
    ensures
        clause_in(rule_at(Rule::delete_clause, s, i, gql, d)->nodes[0], gql) matches Ok(c) ==> c
            is Delete && c->Delete_0.detach == keyword_at(s, "DETACH"@, i),
{
    let e = Peg::Call(Rule::expression);
    let rest = followed(
        Peg::Call(Rule::kw_DELETE),
        followed(e, often(followed(Peg::Word(","), e))),
    );
    assert(body_of(Rule::delete_clause, gql) == followed(
        perhaps(Peg::Call(Rule::detach_marker)),
        rest,
    ));
    assert(!mentions(rest, Rule::detach_marker)) by {
        reveal_with_fuel(mentions, 6);
    }
    lemma_marker(
        Rule::delete_clause,
        Rule::detach_marker,
        Rule::kw_DETACH,
        "DETACH",
        rest,
        s,
        i,
        gql,
        d,
    );
    lemma_delete_in(rule_at(Rule::delete_clause, s, i, gql, d)->nodes[0], gql);
}

proof fn lemma_delete_in(t: Tree, gql: bool)
    requires
        t.rule == Rule::delete_clause,
    ensures
        clause_in(t, gql) matches Ok(c) ==> c is Delete && c->Delete_0.detach == holds(
            t,
            at(t, Rule::detach_marker),
        ),
{
}

/// The rule of what stands behind `RETURN`.
spec fn body_rule(gql: bool) -> Rule {
    if gql {
        Rule::return_body
    } else {
        Rule::projection_body
    }
}

/// A projection is distinct where it begins with `DISTINCT`, and only there.
proof fn lemma_distinct(s: Seq<char>, i: int, gql: bool, d: nat)
    requires
        rule_at(body_rule(gql), s, i, gql, d) is Match,
    ensures
        rule_at(body_rule(gql), s, i, gql, d)->nodes.len() == 1,
        rule_at(body_rule(gql), s, i, gql, d)->nodes[0].rule == body_rule(gql),
        ({
            let t = rule_at(body_rule(gql), s, i, gql, d)->nodes[0];
            holds(t, at(t, Rule::distinct_marker)) == keyword_at(s, "DISTINCT"@, i)
        }),
{
    let items = Peg::Call(Rule::return_items);
    let order = perhaps(Peg::Call(Rule::order_by_clause));
    let skip = perhaps(Peg::Call(Rule::skip_clause));
    let limit = perhaps(Peg::Call(Rule::limit_clause));
    let rest = if gql {
        items
    } else {
        followed(items, followed(order, followed(skip, limit)))
    };
    let r = body_rule(gql);
    assert(body_of(r, gql) == followed(perhaps(Peg::Call(Rule::distinct_marker)), rest));
    assert(!mentions(rest, Rule::distinct_marker)) by {
        reveal_with_fuel(mentions, 6);
    }
    lemma_marker(
        r,
        Rule::distinct_marker,
        Rule::kw_DISTINCT,
        "DISTINCT",
        rest,
        s,
        i,
        gql,
        d,
    );
}

proof fn lemma_projection_in(t: Tree, r: Rule, u: Tree, gql: bool)
    requires
        t.children.len() > 1,
        t.children[0].rule != r,
        t.children[1].rule == r,
        t.children[1].children == u.children,
    ensures
        child_projection_in(t, r, gql) matches Ok(p) ==> p.distinct == holds(
            u,
            at(u, Rule::distinct_marker),
        ),
{
    lemma_child(t, r, 1);
    assert(child_projection_in(t, r, gql) == projection_in(t.children[1], gql));
    lemma_projection(t.children[1], gql);
}

proof fn lemma_projection(t: Tree, gql: bool)
    ensures
        projection_in(t, gql) matches Ok(p) ==> p.distinct == holds(
            t,
            at(t, Rule::distinct_marker),
        ),
{
}

proof fn lemma_return_in(t: Tree, gql: bool)
    requires
        t.rule == Rule::return_clause,
    ensures
        clause_in(t, gql) matches Ok(c) ==> c is Return && (child_projection_in(
            t,
            body_rule(gql),
            gql,
        ) matches Ok(p) && c->Return_0.distinct == p.distinct),
{
}

proof fn lemma_with_in(t: Tree)
    requires
        t.rule == Rule::with_clause,
    ensures
        clause_in(t, false) matches Ok(c) ==> c is With && (child_projection_in(
            t,
            Rule::projection_body,
            false,
        ) matches Ok(p) && c->With_0.distinct == p.distinct),
{
}

/// A clause that projects what stands behind its keyword.
proof fn lemma_projects(
    r: Rule,
    k: Rule,
    w: &'static str,
    rest: Option<Peg>,
    s: Seq<char>,
    i: int,
    gql: bool,
    d: nat,
)
    requires
        rule_at(r, s, i, gql, d) is Match,
        !is_token(r),
        is_token(k),
        k != body_rule(gql),
        body_of(k, gql) == followed(Peg::Word(w), Peg::Not(Box::new(Peg::One(Class::NamePart)))),
        body_of(r, gql) == followed(
            Peg::Call(k),
            match rest {
                Some(p) => followed(Peg::Call(body_rule(gql)), p),
                None => Peg::Call(body_rule(gql)),
            },
        ),
    ensures
        rule_at(r, s, i, gql, d)->nodes.len() == 1,
        rule_at(r, s, i, gql, d)->nodes[0].rule == r,
        keyword_at(s, w@, i),
        child_projection_in(
            rule_at(r, s, i, gql, d)->nodes[0],
            body_rule(gql),
            gql,
        ) matches Ok(p) ==> p.distinct == keyword_at(s, "DISTINCT"@, blank_end(s, i + w@.len())),
{
    let step = rule_at(r, s, i, gql, d);
    let end = step->Match_end;
    let e = (d - 1) as nat;
    let first = Peg::Call(k);
    let body = Peg::Call(body_rule(gql));
    let behind = match rest {
        Some(p) => followed(body, p),
        None => body,
    };
    lemma_run(Peg::Call(r), s, i, false, gql, d);
    let below = split_called(r, s, i, false, gql, d, end, step->nodes);
    let a = split_both(first, behind, s, i, false, gql, e, end, below);
    lemma_found_keyword(k, w, s, i, gql, e, a.0, a.1);
    let j = blank_end(s, i + w@.len());
    let b = match rest {
        Some(p) => split_both(body, p, s, j, false, gql, e, end, a.2),
        None => (end, a.2, Seq::<Tree>::empty()),
    };
    lemma_yields(body, s, j, false, gql, e, b.0, b.1);
    lemma_distinct(s, j, gql, e);
    let t = step->nodes[0];
    assert(a.2 =~= b.1 + b.2);
    assert(below =~= a.1 + (b.1 + b.2));
    assert(t.children[1].rule == below[1].rule && below[1] == b.1[0]);
    assert(t.children[0].rule == below[0].rule && below[0] == a.1[0]);
    lemma_projection_in(t, body_rule(gql), b.1[0], gql);
}

/// A `RETURN` is distinct where `DISTINCT` stands behind it, and only there.
pub proof fn law_return_distinct_is_read(s: Seq<char>, i: int, gql: bool, d: nat)
    requires
        rule_at(Rule::return_clause, s, i, gql, d) is Match,
    ensures
        keyword_at(s, "RETURN"@, i),
        clause_in(rule_at(Rule::return_clause, s, i, gql, d)->nodes[0], gql) matches Ok(c) ==> c
            is Return && c->Return_0.distinct == keyword_at(s, "DISTINCT"@, blank_end(s, i + 6)),
{
    let order = perhaps(Peg::Call(Rule::order_by_clause));
    let skip = perhaps(Peg::Call(Rule::skip_clause));
    let limit = perhaps(Peg::Call(Rule::limit_clause));
    let rest = if gql {
        Some(followed(order, followed(skip, limit)))
    } else {
        None
    };
    reveal_strlit("RETURN");
    lemma_projects(Rule::return_clause, Rule::kw_RETURN, "RETURN", rest, s, i, gql, d);
    lemma_return_in(rule_at(Rule::return_clause, s, i, gql, d)->nodes[0], gql);
}

/// A `WITH` is distinct where `DISTINCT` stands behind it, and only there.
pub proof fn law_with_distinct_is_read(s: Seq<char>, i: int, d: nat)
    requires
        rule_at(Rule::with_clause, s, i, false, d) is Match,
    ensures
        keyword_at(s, "WITH"@, i),
        clause_in(rule_at(Rule::with_clause, s, i, false, d)->nodes[0], false) matches Ok(c) ==> c
            is With && c->With_0.distinct == keyword_at(s, "DISTINCT"@, blank_end(s, i + 4)),
{
    let rest = Some(perhaps(Peg::Call(Rule::where_clause)));
    reveal_strlit("WITH");
    lemma_projects(Rule::with_clause, Rule::kw_WITH, "WITH", rest, s, i, false, d);
    lemma_with_in(rule_at(Rule::with_clause, s, i, false, d)->nodes[0]);
}

/// A `UNION` keeps all rows where `ALL` stands behind it, and only there.
pub proof fn law_union_is_read(s: Seq<char>, i: int, d: nat)
    requires
        rule_at(Rule::union_marker, s, i, false, d) is Match,
    ensures
        keyword_at(s, "UNION"@, i),
        statement_from(rule_at(Rule::union_marker, s, i, false, d)->nodes, 0) == Built::Ok(
            seq![m::Clause::Union { all: keyword_at(s, "ALL"@, blank_end(s, i + 5)) }],
        ),
{
    let r = Rule::union_marker;
    let step = rule_at(r, s, i, false, d);
    let end = step->Match_end;
    let e = (d - 1) as nat;
    let first = Peg::Call(Rule::kw_UNION);
    let all = Peg::Call(Rule::kw_ALL);
    assert(body_of(r, false) == followed(first, perhaps(all)));
    lemma_run(Peg::Call(r), s, i, false, false, d);
    let below = split_called(r, s, i, false, false, d, end, step->nodes);
    let a = split_both(first, perhaps(all), s, i, false, false, e, end, below);
    lemma_found_keyword(Rule::kw_UNION, "UNION", s, i, false, e, a.0, a.1);
    let ignored = split_called(Rule::kw_UNION, s, i, false, false, e, a.0, a.1);
    reveal_strlit("UNION");
    let j = blank_end(s, i + 5);
    split_maybe(all, s, j, false, false, e, end, a.2);
    lemma_keyword(Rule::kw_ALL, "ALL", s, j, false, e);
    let t = step->nodes[0];
    if keyword_at(s, "ALL"@, j) {
        let z = j + "ALL"@.len();
        lemma_yields(all, s, j, false, false, e, z, seq![node_for(Rule::kw_ALL, s, j, z, seq![])]);
        lemma_yields(all, s, j, false, false, e, end, a.2);
        assert(t.children[0].rule == below[0].rule);
        assert(t.children[1].rule == below[1].rule);
        lemma_child(t, Rule::kw_ALL, 1);
    } else {
        if yields(all, s, j, false, false, e, end, a.2) {
            lemma_yields(all, s, j, false, false, e, end, a.2);
        }
        assert(below =~= a.1);
        assert(t.children[0].rule == below[0].rule);
        lemma_no_child(t, Rule::kw_ALL);
    }
    let u = m::Clause::Union { all: holds(t, at(t, Rule::kw_ALL)) };
    assert(statement_from(step->nodes, 1) == Built::Ok(Seq::<m::Clause>::empty()));
    assert(seq![u] + Seq::<m::Clause>::empty() =~= seq![u]);
}

} // verus!
