//! How the expressions of both grammars match at the places of a text.
use vstd::prelude::*;

#[allow(unused_imports)]
use crate::parser::grammar::{body_of, is_token};
#[allow(unused_imports)]
use crate::parser::laws::steps::{followed, node_for, often, or, perhaps};
#[allow(unused_imports)]
use crate::parser::peg::{
    in_class, larger, next_part, run, run_more, word_at, Class, Peg, Step,
};
#[allow(unused_imports)]
use crate::parser::tree::{Rule, Tree};
#[allow(unused_imports)]
use crate::text::{lower, lower_text, same_ignoring_case};

verus! {

/// Whether a keyword stands at a place, in whatever case, and is not the
/// beginning of a longer name.
pub open spec fn keyword_at(s: Seq<char>, w: Seq<char>, i: int) -> bool {
    let end = i + w.len();
    &&& 0 <= i
    &&& end <= s.len()
    &&& same_ignoring_case(s.subrange(i, end), w)
    &&& end < s.len() ==> !in_class(s[end], Class::NamePart)
}

/// Whether an expression matches from a place up to another, with nodes.
#[verifier::opaque]
pub open spec fn yields(
    p: Peg,
    s: Seq<char>,
    i: int,
    token: bool,
    gql: bool,
    d: nat,
    end: int,
    nodes: Seq<Tree>,
) -> bool {
    run(p, s, i, token, gql, d) matches Step::Match { end: e, nodes: n, far } && e == end && n
        == nodes
}

#[verifier::opaque]
pub open spec fn refuses(p: Peg, s: Seq<char>, i: int, token: bool, gql: bool, d: nat) -> bool {
    run(p, s, i, token, gql, d) is Fail
}

/// What an expression matches, it yields.
pub proof fn lemma_run(p: Peg, s: Seq<char>, i: int, token: bool, gql: bool, d: nat)
    ensures
        run(p, s, i, token, gql, d) matches Step::Match { end, nodes, far } ==> yields(
            p,
            s,
            i,
            token,
            gql,
            d,
            end,
            nodes,
        ),
        run(p, s, i, token, gql, d) is Fail ==> refuses(p, s, i, token, gql, d),
{
    reveal(yields);
    reveal(refuses);
}

/// What an expression yields, it matches.
pub proof fn lemma_yields(
    p: Peg,
    s: Seq<char>,
    i: int,
    token: bool,
    gql: bool,
    d: nat,
    end: int,
    nodes: Seq<Tree>,
)
    requires
        yields(p, s, i, token, gql, d, end, nodes),
    ensures
        !refuses(p, s, i, token, gql, d),
        run(p, s, i, token, gql, d) is Match,
        run(p, s, i, token, gql, d)->Match_end == end,
        run(p, s, i, token, gql, d)->nodes == nodes,
{
    reveal(yields);
    reveal(refuses);
}

// ── From the parts to the whole ──────────────────────────────────────────────

pub proof fn lemma_both(
    a: Peg,
    b: Peg,
    s: Seq<char>,
    i: int,
    token: bool,
    gql: bool,
    d: nat,
    e: int,
    x: Seq<Tree>,
    end: int,
    y: Seq<Tree>,
)
    requires
        yields(a, s, i, token, gql, d, e, x),
        yields(b, s, next_part(s, e, token), token, gql, d, end, y),
    ensures
        yields(followed(a, b), s, i, token, gql, d, end, x + y),
{
    reveal(yields);
}

pub proof fn lemma_either(
    a: Peg,
    b: Peg,
    s: Seq<char>,
    i: int,
    token: bool,
    gql: bool,
    d: nat,
    end: int,
    x: Seq<Tree>,
)
    requires
        yields(a, s, i, token, gql, d, end, x) || (refuses(a, s, i, token, gql, d) && yields(
            b,
            s,
            i,
            token,
            gql,
            d,
            end,
            x,
        )),
    ensures
        yields(or(a, b), s, i, token, gql, d, end, x),
{
    reveal(yields);
    reveal(refuses);
}

pub proof fn lemma_neither(a: Peg, b: Peg, s: Seq<char>, i: int, token: bool, gql: bool, d: nat)
    requires
        refuses(a, s, i, token, gql, d),
        refuses(b, s, i, token, gql, d),
    ensures
        refuses(or(a, b), s, i, token, gql, d),
{
    reveal(refuses);
}

pub proof fn lemma_maybe(
    a: Peg,
    s: Seq<char>,
    i: int,
    token: bool,
    gql: bool,
    d: nat,
    end: int,
    x: Seq<Tree>,
)
    requires
        yields(a, s, i, token, gql, d, end, x) || (refuses(a, s, i, token, gql, d) && end == i && x
            == Seq::<Tree>::empty()),
    ensures
        yields(perhaps(a), s, i, token, gql, d, end, x),
{
    reveal(yields);
    reveal(refuses);
}

pub proof fn lemma_called(
    r: Rule,
    s: Seq<char>,
    i: int,
    token: bool,
    gql: bool,
    d: nat,
    end: int,
    x: Seq<Tree>,
)
    requires
        d > 0,
        yields(body_of(r, gql), s, i, token || is_token(r), gql, (d - 1) as nat, end, x),
    ensures
        yields(Peg::Call(r), s, i, token, gql, d, end, seq![node_for(r, s, i, end, x)]),
{
    reveal(yields);
}

pub proof fn lemma_called_refuses(r: Rule, s: Seq<char>, i: int, token: bool, gql: bool, d: nat)
    requires
        d > 0,
        refuses(body_of(r, gql), s, i, token || is_token(r), gql, (d - 1) as nat),
    ensures
        refuses(Peg::Call(r), s, i, token, gql, d),
{
    reveal(refuses);
}

/// A repetition that matches once and no more.
pub proof fn lemma_once(
    a: Peg,
    s: Seq<char>,
    i: int,
    token: bool,
    gql: bool,
    d: nat,
    end: int,
    x: Seq<Tree>,
)
    requires
        yields(a, s, i, token, gql, d, end, x),
        end >= s.len() || refuses(a, s, next_part(s, end, token), token, gql, d),
    ensures
        yields(often(a), s, i, token, gql, d, end, x),
{
    reveal(yields);
    reveal(refuses);
    let far = run(a, s, i, token, gql, d)->Match_far;
    let more = run_more(a, s, end, x, far, token, gql, d);
    assert(run(often(a), s, i, token, gql, d) == more);
    assert(more is Match && more->Match_end == end && more->nodes == x);
}

// ── From the whole to the parts ──────────────────────────────────────────────

/// Where the first part of a sequence ends, and the nodes of both parts.
pub proof fn split_both(
    a: Peg,
    b: Peg,
    s: Seq<char>,
    i: int,
    token: bool,
    gql: bool,
    d: nat,
    end: int,
    nodes: Seq<Tree>,
) -> (r: (int, Seq<Tree>, Seq<Tree>))
    requires
        yields(followed(a, b), s, i, token, gql, d, end, nodes),
    ensures
        yields(a, s, i, token, gql, d, r.0, r.1),
        yields(b, s, next_part(s, r.0, token), token, gql, d, end, r.2),
        nodes == r.1 + r.2,
{
    reveal(yields);
    let x = run(a, s, i, token, gql, d);
    let y = run(b, s, next_part(s, x->Match_end, token), token, gql, d);
    (x->Match_end, x->nodes, y->nodes)
}

pub proof fn split_either(
    a: Peg,
    b: Peg,
    s: Seq<char>,
    i: int,
    token: bool,
    gql: bool,
    d: nat,
    end: int,
    nodes: Seq<Tree>,
)
    requires
        yields(or(a, b), s, i, token, gql, d, end, nodes),
    ensures
        yields(a, s, i, token, gql, d, end, nodes) || (refuses(a, s, i, token, gql, d) && yields(
            b,
            s,
            i,
            token,
            gql,
            d,
            end,
            nodes,
        )),
{
    reveal(yields);
    reveal(refuses);
}

pub proof fn split_maybe(
    a: Peg,
    s: Seq<char>,
    i: int,
    token: bool,
    gql: bool,
    d: nat,
    end: int,
    nodes: Seq<Tree>,
)
    requires
        yields(perhaps(a), s, i, token, gql, d, end, nodes),
    ensures
        yields(a, s, i, token, gql, d, end, nodes) || (refuses(a, s, i, token, gql, d) && end == i
            && nodes == Seq::<Tree>::empty()),
{
    reveal(yields);
    reveal(refuses);
}

/// The nodes that the body of a rule yields.
pub proof fn split_called(
    r: Rule,
    s: Seq<char>,
    i: int,
    token: bool,
    gql: bool,
    d: nat,
    end: int,
    nodes: Seq<Tree>,
) -> (x: Seq<Tree>)
    requires
        yields(Peg::Call(r), s, i, token, gql, d, end, nodes),
    ensures
        d > 0,
        yields(body_of(r, gql), s, i, token || is_token(r), gql, (d - 1) as nat, end, x),
        nodes == seq![node_for(r, s, i, end, x)],
{
    reveal(yields);
    run(body_of(r, gql), s, i, token || is_token(r), gql, (d - 1) as nat)->nodes
}

/// A repetition yields what its first turn does, and more behind it.
pub proof fn split_often(
    a: Peg,
    s: Seq<char>,
    i: int,
    token: bool,
    gql: bool,
    d: nat,
    end: int,
    nodes: Seq<Tree>,
) -> (r: (int, Seq<Tree>))
    requires
        yields(often(a), s, i, token, gql, d, end, nodes),
    ensures
        refuses(a, s, i, token, gql, d) ==> end == i && nodes == Seq::<Tree>::empty(),
        !refuses(a, s, i, token, gql, d) ==> yields(a, s, i, token, gql, d, r.0, r.1)
            && r.1.is_prefix_of(nodes),
{
    reveal(yields);
    reveal(refuses);
    let x = run(a, s, i, token, gql, d);
    if x is Match {
        lemma_more_prefix(a, s, x->Match_end, x->nodes, x->Match_far, token, gql, d);
    }
    (x->Match_end, x->nodes)
}

proof fn lemma_more_prefix(
    p: Peg,
    s: Seq<char>,
    end: int,
    done: Seq<Tree>,
    f: int,
    token: bool,
    gql: bool,
    d: nat,
)
    ensures
        run_more(p, s, end, done, f, token, gql, d) matches Step::Match { end: e, nodes, far }
            ==> done.is_prefix_of(nodes),
    decreases s.len() - end,
{
    if 0 <= end < s.len() {
        let x = run(p, s, next_part(s, end, token), token, gql, d);
        if let Step::Match { end: e, nodes, far } = x {
            if end < e <= s.len() {
                lemma_more_prefix(p, s, e, done + nodes, larger(f, far), token, gql, d);
            }
        }
    }
}

// ── Words ────────────────────────────────────────────────────────────────────

pub proof fn lemma_word_at(w: &'static str, s: Seq<char>, i: int, token: bool, gql: bool, d: nat)
    ensures
        word_at(s, w@, i) ==> yields(
            Peg::Word(w),
            s,
            i,
            token,
            gql,
            d,
            i + w@.len(),
            seq![],
        ),
        !word_at(s, w@, i) ==> refuses(Peg::Word(w), s, i, token, gql, d),
{
    reveal(yields);
    reveal(refuses);
}

/// A word stands where its letters do, in whatever case.
pub proof fn lemma_same_word(s: Seq<char>, w: Seq<char>, i: int)
    ensures
        word_at(s, w, i) == (0 <= i && i + w.len() <= s.len() && same_ignoring_case(
            s.subrange(i, i + w.len()),
            w,
        )),
{
    if 0 <= i && i + w.len() <= s.len() {
        let here = s.subrange(i, i + w.len());
        if word_at(s, w, i) {
            assert forall|k: int| 0 <= k < w.len() implies lower_text(here)[k] == lower_text(w)[k] by {
                assert(lower(w[k]) == lower(s[i + k]));
            }
            assert(lower_text(here) =~= lower_text(w));
        }
        if same_ignoring_case(here, w) {
            assert forall|k: int| 0 <= k < w.len() implies lower(#[trigger] w[k]) == lower(
                s[i + k],
            ) by {
                assert(lower_text(here)[k] == lower_text(w)[k]);
            }
        }
    }
}

/// The rule of a keyword matches where the keyword stands, and nowhere else.
pub proof fn lemma_keyword(
    r: Rule,
    w: &'static str,
    s: Seq<char>,
    i: int,
    gql: bool,
    d: nat,
)
    requires
        d > 0,
        is_token(r),
        body_of(r, gql) == followed(
            Peg::Word(w),
            Peg::Not(Box::new(Peg::One(Class::NamePart))),
        ),
    ensures
        keyword_at(s, w@, i) ==> yields(
            Peg::Call(r),
            s,
            i,
            false,
            gql,
            d,
            i + w@.len(),
            seq![node_for(r, s, i, i + w@.len(), seq![])],
        ),
        !keyword_at(s, w@, i) ==> refuses(Peg::Call(r), s, i, false, gql, d),
{
    reveal(yields);
    reveal(refuses);
    let e = (d - 1) as nat;
    let end = i + w@.len();
    let part = Peg::One(Class::NamePart);
    let behind = Peg::Not(Box::new(part));
    lemma_same_word(s, w@, i);
    let x = run(Peg::Word(w), s, i, true, gql, e);
    let y = run(part, s, end, true, gql, e);
    let z = run(behind, s, end, true, gql, e);
    assert(z is Match <==> y is Fail);
    assert(Seq::<Tree>::empty() + Seq::<Tree>::empty() =~= Seq::<Tree>::empty());
    assert(run(body_of(r, gql), s, i, true, gql, e) == match x {
        Step::Match { end: t, nodes, far } => crate::parser::peg::following(
            run(behind, s, t, true, gql, e),
            nodes,
            far,
        ),
        other => other,
    });
}

/// The rule of a keyword matches the keyword.
pub proof fn lemma_found_keyword(
    r: Rule,
    w: &'static str,
    s: Seq<char>,
    i: int,
    gql: bool,
    d: nat,
    end: int,
    x: Seq<Tree>,
)
    requires
        is_token(r),
        body_of(r, gql) == followed(
            Peg::Word(w),
            Peg::Not(Box::new(Peg::One(Class::NamePart))),
        ),
        yields(Peg::Call(r), s, i, false, gql, d, end, x),
    ensures
        keyword_at(s, w@, i),
        end == i + w@.len(),
        x == seq![node_for(r, s, i, end, seq![])],
{
    let p = Peg::Call(r);
    let ignored = split_called(r, s, i, false, gql, d, end, x);
    lemma_keyword(r, w, s, i, gql, d);
    lemma_yields(p, s, i, false, gql, d, end, x);
    if keyword_at(s, w@, i) {
        let e = i + w@.len();
        lemma_yields(p, s, i, false, gql, d, e, seq![node_for(r, s, i, e, seq![])]);
    }
}

/// Two keywords that begin with different letters do not stand at one place.
pub proof fn lemma_one_keyword(s: Seq<char>, v: Seq<char>, w: Seq<char>, i: int)
    requires
        keyword_at(s, v, i),
        v.len() > 0,
        w.len() > 0,
        lower(v[0]) != lower(w[0]),
    ensures
        !keyword_at(s, w, i),
{
    assert(lower_text(s.subrange(i, i + v.len()))[0] == lower_text(v)[0]);
    if keyword_at(s, w, i) {
        assert(lower_text(s.subrange(i, i + w.len()))[0] == lower_text(w)[0]);
    }
}

} // verus!
