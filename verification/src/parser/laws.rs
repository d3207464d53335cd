//! What holds of every text that is parsed.
pub mod comparisons;
pub mod is_forms;
pub mod keywords;
pub mod labels;
pub mod listed;
pub mod operators;
pub mod paths;
pub mod places;
pub mod projections;
pub mod shift;
pub mod spelling;
pub mod standing;
pub mod steps;
pub mod tokens;
pub mod types;
pub mod variables;

use vstd::prelude::*;

#[allow(unused_imports)]
use crate::parser::grammar::{body_of, is_token};
#[allow(unused_imports)]
use crate::parser::meaning::clauses_from;
#[allow(unused_imports)]
use crate::parser::peg::{
    blank_end, comment_end, depth_for, line_end, next_part, run, run_more, spelled, Peg, Step,
};
#[allow(unused_imports)]
use crate::parser::query::{parsed, whole_match};
#[allow(unused_imports)]
use crate::parser::tree::{at, seen_from, Rule, Tree};

verus! {

// ── Where matches end ────────────────────────────────────────────────────────

proof fn lemma_line_end(s: Seq<char>, i: int)
    requires
        i <= s.len(),
    ensures
        i <= line_end(s, i) <= s.len(),
    decreases s.len() - i,
{
    if i < s.len() {
        lemma_line_end(s, i + 1);
    }
}

proof fn lemma_comment_end(s: Seq<char>, i: int)
    ensures
        comment_end(s, i) <= s.len(),
    decreases s.len() - i,
{
    if i + 2 <= s.len() {
        lemma_comment_end(s, i + 1);
    }
}

pub proof fn lemma_blank_end(s: Seq<char>, i: int)
    requires
        0 <= i <= s.len(),
    ensures
        i <= blank_end(s, i) <= s.len(),
    decreases s.len() - i,
{
    if i < s.len() {
        lemma_blank_end(s, i + 1);
        if i + 2 <= s.len() {
            lemma_line_end(s, i + 2);
            lemma_comment_end(s, i + 2);
            let e = line_end(s, i + 2);
            if i < e <= s.len() {
                lemma_blank_end(s, e);
            }
            let e = comment_end(s, i + 2);
            if i < e <= s.len() {
                lemma_blank_end(s, e);
            }
        }
    }
}

/// Whether a node has the text that stands in the query where the node begins,
/// and so has each node below it. Positions are counted from `base`.
pub open spec fn stands_in(t: Tree, s: Seq<char>, base: int) -> bool
    decreases t,
{
    let from = base + t.start;
    &&& 0 <= from
    &&& from + t.text.len() <= s.len()
    &&& t.text == spelled(t.rule, s.subrange(from, from + t.text.len()))
    &&& all_stand_in(t.children, s, from)
}

pub open spec fn all_stand_in(v: Seq<Tree>, s: Seq<char>, base: int) -> bool
    decreases v,
{
    forall|i: int| 0 <= i < v.len() ==> stands_in(#[trigger] v[i], s, base)
}

/// Whether a match goes forward and ends in the text, and its nodes have the
/// texts that stand where they begin.
pub open spec fn is_sound(step: Step, s: Seq<char>, i: int) -> bool {
    match step {
        Step::Match { end, nodes, far } => i <= end <= s.len() && all_stand_in(nodes, s, 0),
        _ => true,
    }
}

proof fn lemma_seen_from(v: Seq<Tree>, s: Seq<char>, i: int)
    requires
        all_stand_in(v, s, 0),
    ensures
        all_stand_in(seen_from(v, i), s, i),
{
    assert forall|k: int| 0 <= k < v.len() implies stands_in(
        #[trigger] seen_from(v, i)[k],
        s,
        i,
    ) by {
        assert(stands_in(v[k], s, 0));
    }
}

/// Whatever an expression matches lies in the text, and the nodes that it gives
/// have the texts that stand where they begin.
pub proof fn law_matches_stand_in_text(
    p: Peg,
    s: Seq<char>,
    i: int,
    token: bool,
    gql: bool,
    depth: nat,
)
    requires
        0 <= i <= s.len(),
    ensures
        is_sound(run(p, s, i, token, gql, depth), s, i),
    decreases depth, p, 0int,
{
    match p {
        Peg::Call(r) => {
            if depth > 0 {
                let d = (depth - 1) as nat;
                law_matches_stand_in_text(body_of(r, gql), s, i, token || is_token(r), gql, d);
                if let Step::Match { end, nodes, far } = run(
                    body_of(r, gql),
                    s,
                    i,
                    token || is_token(r),
                    gql,
                    d,
                ) {
                    let t = Tree {
                        rule: r,
                        text: spelled(r, s.subrange(i, end)),
                        start: i,
                        children: if is_token(r) {
                            seq![]
                        } else {
                            seen_from(nodes, i)
                        },
                    };
                    lemma_seen_from(nodes, s, i);
                    assert(t.text.len() == end - i);
                    assert(stands_in(t, s, 0));
                }
            }
        },
        Peg::Then(a, b) => {
            law_matches_stand_in_text(*a, s, i, token, gql, depth);
            if let Step::Match { end, nodes, far } = run(*a, s, i, token, gql, depth) {
                lemma_blank_end(s, end);
                law_matches_stand_in_text(*b, s, next_part(s, end, token), token, gql, depth);
            }
        },
        Peg::Or(a, b) => {
            law_matches_stand_in_text(*a, s, i, token, gql, depth);
            law_matches_stand_in_text(*b, s, i, token, gql, depth);
        },
        Peg::Maybe(a) => {
            law_matches_stand_in_text(*a, s, i, token, gql, depth);
        },
        Peg::Not(a) => {},
        Peg::Many(a) => {
            law_matches_stand_in_text(*a, s, i, token, gql, depth);
            if let Step::Match { end, nodes, far } = run(*a, s, i, token, gql, depth) {
                lemma_more(*a, s, end, nodes, far, token, gql, depth);
            }
        },
        _ => {},
    }
}

proof fn lemma_more(
    p: Peg,
    s: Seq<char>,
    end: int,
    done: Seq<Tree>,
    f: int,
    token: bool,
    gql: bool,
    depth: nat,
)
    requires
        0 <= end <= s.len(),
        all_stand_in(done, s, 0),
    ensures
        is_sound(run_more(p, s, end, done, f, token, gql, depth), s, end),
    decreases depth, p, 1 + s.len() - end,
{
    if end < s.len() {
        lemma_blank_end(s, end);
        let from = next_part(s, end, token);
        law_matches_stand_in_text(p, s, from, token, gql, depth);
        if let Step::Match { end: e, nodes, far } = run(p, s, from, token, gql, depth) {
            if e > end {
                assert(all_stand_in(done + nodes, s, 0));
                let g = crate::parser::peg::larger(f, far);
                lemma_more(p, s, e, done + nodes, g, token, gql, depth);
            }
        }
    }
}

// ── Whole queries ────────────────────────────────────────────────────────────

/// Where a rule comes first, its node does.
proof fn lemma_first_node(
    r: Rule,
    rest: Peg,
    s: Seq<char>,
    i: int,
    token: bool,
    gql: bool,
    depth: nat,
)
    ensures
        match run(Peg::Then(Box::new(Peg::Call(r)), Box::new(rest)), s, i, token, gql, depth) {
            Step::Match { end, nodes, far } => {
                &&& nodes.len() > 0
                &&& nodes[0].rule == r
                &&& run(Peg::Call(r), s, i, token, gql, depth) is Match
                &&& nodes[0] == run(Peg::Call(r), s, i, token, gql, depth)->nodes[0]
            },
            _ => true,
        },
{
    let first = run(Peg::Call(r), s, i, token, gql, depth);
    if let Step::Match { end, nodes, far } = first {
        let second = run(rest, s, next_part(s, end, token), token, gql, depth);
    }
}

/// The node of a rule that is no token has the nodes of the rule's body.
proof fn lemma_node(r: Rule, s: Seq<char>, i: int, token: bool, gql: bool, depth: nat)
    requires
        !is_token(r),
    ensures
        match run(Peg::Call(r), s, i, token, gql, depth) {
            Step::Match { end, nodes, far } => {
                let below = run(body_of(r, gql), s, i, token, gql, (depth - 1) as nat);
                &&& depth > 0
                &&& nodes.len() == 1
                &&& nodes[0].rule == r
                &&& below is Match
                &&& below->Match_end == end
                &&& seen_from(below->nodes, i) == nodes[0].children
            },
            _ => true,
        },
{
}

/// The node of the statement of a query. Behind it the text ends.
proof fn lemma_statement(s: Seq<char>, gql: bool)
    ensures
        match whole_match(s, gql) {
            Step::Match { end, nodes, far } => {
                let d = (depth_for(s.len()) - 1) as nat;
                let below = run(Peg::Call(Rule::statement), s, blank_end(s, 0), false, gql, d);
                &&& end >= s.len()
                &&& nodes.len() == 1
                &&& nodes[0].children.len() > 0
                &&& nodes[0].children[0].rule == Rule::statement
                &&& below is Match
                &&& nodes[0].children[0] == below->nodes[0]
            },
            _ => true,
        },
{
    let d = (depth_for(s.len()) - 1) as nat;
    lemma_node(Rule::query, s, 0, false, gql, depth_for(s.len()));
    let end = Peg::End;
    let semicolon = Peg::Maybe(Box::new(Peg::Word(";")));
    let tail = Peg::Then(Box::new(semicolon), Box::new(end));
    let rest = Peg::Then(Box::new(Peg::Call(Rule::statement)), Box::new(tail));
    let body = Peg::Then(Box::new(Peg::Nothing), Box::new(rest));
    assert(body_of(Rule::query, gql) == body);
    let b = blank_end(s, 0);
    assert(run(Peg::Nothing, s, 0, false, gql, d) == (Step::Match {
        end: 0,
        nodes: seq![],
        far: 0,
    }));
    lemma_first_node(Rule::statement, tail, s, b, false, gql, d);
    let middle = run(rest, s, b, false, gql, d);
    if let Step::Match { end: e, nodes, far } = run(body, s, 0, false, gql, d) {
        assert(middle is Match);
        assert(nodes =~= middle->nodes);
        let first = run(Peg::Call(Rule::statement), s, b, false, gql, d);
        let at_tail = next_part(s, first->Match_end, false);
        let last = run(tail, s, at_tail, false, gql, d);
        assert(last is Match);
        let before = run(semicolon, s, at_tail, false, gql, d);
        assert(before is Match);
        let at_end = next_part(s, before->Match_end, false);
        assert(run(end, s, at_end, false, gql, d) is Match);
        assert(e == at_end);
    }
}

/// A text that is parsed is read to its end.
pub proof fn law_parsing_reads_whole_text(s: Seq<char>, gql: bool)
    ensures
        whole_match(s, gql) matches Step::Match { end, nodes, far } ==> end == s.len(),
{
    lemma_statement(s, gql);
    law_matches_stand_in_text(Peg::Call(Rule::query), s, 0, false, gql, depth_for(s.len()));
}

proof fn lemma_some_clauses(ch: Seq<Tree>, gql: bool)
    requires
        ch.len() > 0,
        ch[0].rule == Rule::clause,
    ensures
        clauses_from(ch, 0, gql) matches Ok(c) ==> c.len() > 0,
{
}

/// A query that is parsed has at least one clause.
pub proof fn law_parsed_query_has_clauses(s: Seq<char>, gql: bool)
    ensures
        parsed(s, gql) matches Ok(c) ==> c.len() > 0,
{
    let d = (depth_for(s.len()) - 1) as nat;
    let b = blank_end(s, 0);
    lemma_statement(s, gql);
    lemma_node(Rule::statement, s, b, false, gql, d);
    if let Step::Match { end, nodes, far } = whole_match(s, gql) {
        let ch = nodes[0].children[0].children;
        let e = (d - 1) as nat;
        assert(at(nodes[0], Rule::statement) == 0);
        if gql {
            let more = Peg::Many(Box::new(Peg::Call(Rule::clause)));
            assert(body_of(Rule::statement, gql) == Peg::Then(
                Box::new(Peg::Call(Rule::clause)),
                Box::new(more),
            ));
            lemma_first_node(Rule::clause, more, s, b, false, gql, e);
            lemma_some_clauses(ch, gql);
        } else {
            let more = Peg::Many(
                Box::new(
                    Peg::Then(
                        Box::new(Peg::Call(Rule::union_marker)),
                        Box::new(Peg::Call(Rule::single_query)),
                    ),
                ),
            );
            assert(body_of(Rule::statement, gql) == Peg::Then(
                Box::new(Peg::Call(Rule::single_query)),
                Box::new(more),
            ));
            lemma_first_node(Rule::single_query, more, s, b, false, gql, e);
            lemma_node(Rule::single_query, s, b, false, gql, e);
            let clauses = Peg::Many(Box::new(Peg::Call(Rule::clause)));
            assert(body_of(Rule::single_query, gql) == Peg::Then(
                Box::new(Peg::Call(Rule::clause)),
                Box::new(clauses),
            ));
            lemma_first_node(Rule::clause, clauses, s, b, false, gql, (e - 1) as nat);
            lemma_some_clauses(ch[0].children, gql);
            assert(ch[0].rule == Rule::single_query);
        }
    }
}

} // verus!
