//! How single expressions of the grammar of GQL match.
use vstd::prelude::*;

#[allow(unused_imports)]
use crate::parser::grammar::{body_of, is_token};
#[allow(unused_imports)]
use crate::parser::peg::{
    blank_end, in_class, next_part, run, run_more, spelled, word_at, Class, Peg, Step,
};
#[allow(unused_imports)]
use crate::parser::tree::{seen_from, Rule, Tree};
#[allow(unused_imports)]
use crate::text::{is_white, lower};

verus! {

/// Whether an expression matches up to a place, with nodes.
#[verifier::opaque]
pub open spec fn gives(
    p: Peg,
    s: Seq<char>,
    i: int,
    token: bool,
    d: nat,
    end: int,
    nodes: Seq<Tree>,
) -> bool {
    run(p, s, i, token, true, d) matches Step::Match { end: e, nodes: n, far } && e == end && n
        == nodes
}

#[verifier::opaque]
pub open spec fn fails(p: Peg, s: Seq<char>, i: int, token: bool, d: nat) -> bool {
    run(p, s, i, token, true, d) is Fail
}

/// The node of a rule.
pub open spec fn node_for(r: Rule, s: Seq<char>, i: int, end: int, nodes: Seq<Tree>) -> Tree {
    Tree {
        rule: r,
        text: spelled(r, s.subrange(i, end)),
        start: i,
        children: if is_token(r) {
            seq![]
        } else {
            seen_from(nodes, i)
        },
    }
}

pub open spec fn followed(f: Peg, g: Peg) -> Peg {
    Peg::Then(Box::new(f), Box::new(g))
}

pub open spec fn or(f: Peg, g: Peg) -> Peg {
    Peg::Or(Box::new(f), Box::new(g))
}

pub open spec fn perhaps(f: Peg) -> Peg {
    Peg::Maybe(Box::new(f))
}

pub open spec fn often(f: Peg) -> Peg {
    Peg::Many(Box::new(f))
}

pub proof fn lemma_then(
    f: Peg,
    g: Peg,
    s: Seq<char>,
    i: int,
    token: bool,
    d: nat,
    e: int,
    x: Seq<Tree>,
    end: int,
    y: Seq<Tree>,
)
    requires
        gives(f, s, i, token, d, e, x),
        gives(g, s, next_part(s, e, token), token, d, end, y),
    ensures
        gives(followed(f, g), s, i, token, d, end, x + y),
{
    reveal(gives);
    reveal(fails);
}

pub proof fn lemma_then_fails(f: Peg, g: Peg, s: Seq<char>, i: int, token: bool, d: nat)
    requires
        fails(f, s, i, token, d),
    ensures
        fails(followed(f, g), s, i, token, d),
{
    reveal(gives);
    reveal(fails);
}

pub proof fn lemma_then_fails_late(
    f: Peg,
    g: Peg,
    s: Seq<char>,
    i: int,
    token: bool,
    d: nat,
    e: int,
    x: Seq<Tree>,
)
    requires
        gives(f, s, i, token, d, e, x),
        fails(g, s, next_part(s, e, token), token, d),
    ensures
        fails(followed(f, g), s, i, token, d),
{
    reveal(gives);
    reveal(fails);
}

pub proof fn lemma_or_first(
    f: Peg,
    g: Peg,
    s: Seq<char>,
    i: int,
    token: bool,
    d: nat,
    end: int,
    x: Seq<Tree>,
)
    requires
        gives(f, s, i, token, d, end, x),
    ensures
        gives(or(f, g), s, i, token, d, end, x),
{
    reveal(gives);
    reveal(fails);
}

pub proof fn lemma_or_second(
    f: Peg,
    g: Peg,
    s: Seq<char>,
    i: int,
    token: bool,
    d: nat,
    end: int,
    x: Seq<Tree>,
)
    requires
        fails(f, s, i, token, d),
        gives(g, s, i, token, d, end, x),
    ensures
        gives(or(f, g), s, i, token, d, end, x),
{
    reveal(gives);
    reveal(fails);
}

pub proof fn lemma_or_fails(f: Peg, g: Peg, s: Seq<char>, i: int, token: bool, d: nat)
    requires
        fails(f, s, i, token, d),
        fails(g, s, i, token, d),
    ensures
        fails(or(f, g), s, i, token, d),
{
    reveal(gives);
    reveal(fails);
}

pub proof fn lemma_perhaps(
    f: Peg,
    s: Seq<char>,
    i: int,
    token: bool,
    d: nat,
    end: int,
    x: Seq<Tree>,
)
    requires
        gives(f, s, i, token, d, end, x),
    ensures
        gives(perhaps(f), s, i, token, d, end, x),
{
    reveal(gives);
    reveal(fails);
}

pub proof fn lemma_perhaps_not(f: Peg, s: Seq<char>, i: int, token: bool, d: nat)
    requires
        fails(f, s, i, token, d),
    ensures
        gives(perhaps(f), s, i, token, d, i, seq![]),
{
    reveal(gives);
    reveal(fails);
}

pub proof fn lemma_often_not(f: Peg, s: Seq<char>, i: int, token: bool, d: nat)
    requires
        fails(f, s, i, token, d),
    ensures
        gives(often(f), s, i, token, d, i, seq![]),
{
    reveal(gives);
    reveal(fails);
}

pub proof fn lemma_often_once(
    f: Peg,
    s: Seq<char>,
    i: int,
    token: bool,
    d: nat,
    end: int,
    x: Seq<Tree>,
)
    requires
        gives(f, s, i, token, d, end, x),
        fails(f, s, next_part(s, end, token), token, d),
    ensures
        gives(often(f), s, i, token, d, end, x),
{
    reveal(gives);
    reveal(fails);
    let far = run(f, s, i, token, true, d)->Match_far;
    let more = run_more(f, s, end, x, far, token, true, d);
    assert(run(often(f), s, i, token, true, d) == more);
    assert(more is Match && more->Match_end == end && more->nodes == x);
}

pub proof fn lemma_call(
    r: Rule,
    s: Seq<char>,
    i: int,
    token: bool,
    d: nat,
    end: int,
    x: Seq<Tree>,
)
    requires
        d > 0,
        gives(body_of(r, true), s, i, token || is_token(r), (d - 1) as nat, end, x),
    ensures
        gives(Peg::Call(r), s, i, token, d, end, seq![node_for(r, s, i, end, x)]),
{
    reveal(gives);
    reveal(fails);
}

pub proof fn lemma_call_fails(r: Rule, s: Seq<char>, i: int, token: bool, d: nat)
    requires
        d > 0,
        fails(body_of(r, true), s, i, token || is_token(r), (d - 1) as nat),
    ensures
        fails(Peg::Call(r), s, i, token, d),
{
    reveal(gives);
    reveal(fails);
}

pub proof fn lemma_or_failed(f: Peg, g: Peg, s: Seq<char>, i: int, token: bool, d: nat)
    requires
        fails(or(f, g), s, i, token, d),
    ensures
        fails(f, s, i, token, d),
        fails(g, s, i, token, d),
{
    reveal(fails);
}

pub proof fn lemma_not(f: Peg, s: Seq<char>, i: int, token: bool, d: nat)
    requires
        fails(f, s, i, token, d),
    ensures
        gives(Peg::Not(Box::new(f)), s, i, token, d, i, seq![]),
{
    reveal(gives);
    reveal(fails);
}

pub proof fn lemma_not_fails(
    f: Peg,
    s: Seq<char>,
    i: int,
    token: bool,
    d: nat,
    end: int,
    x: Seq<Tree>,
)
    requires
        gives(f, s, i, token, d, end, x),
    ensures
        fails(Peg::Not(Box::new(f)), s, i, token, d),
{
    reveal(gives);
    reveal(fails);
}

/// A match is no failure.
pub proof fn lemma_gives(p: Peg, s: Seq<char>, i: int, token: bool, d: nat, end: int, x: Seq<Tree>)
    requires
        gives(p, s, i, token, d, end, x),
    ensures
        !fails(p, s, i, token, d),
{
    reveal(gives);
    reveal(fails);
}

pub proof fn lemma_one(k: Class, s: Seq<char>, i: int, token: bool, d: nat)
    ensures
        0 <= i < s.len() && in_class(s[i], k) ==> gives(
            Peg::One(k),
            s,
            i,
            token,
            d,
            i + 1,
            seq![],
        ),
        !(0 <= i < s.len() && in_class(s[i], k)) ==> fails(Peg::One(k), s, i, token, d),
{
    reveal(gives);
    reveal(fails);
}

pub proof fn lemma_word(w: &'static str, s: Seq<char>, i: int, token: bool, d: nat)
    ensures
        word_at(s, w@, i) ==> gives(Peg::Word(w), s, i, token, d, i + w@.len(), seq![]),
        !word_at(s, w@, i) ==> fails(Peg::Word(w), s, i, token, d),
{
    reveal(gives);
    reveal(fails);
}

// ── Characters ───────────────────────────────────────────────────────────────

/// Whether a character stands at a place.
pub open spec fn char_at(s: Seq<char>, i: int, c: char) -> bool {
    0 <= i < s.len() && s[i] == c
}

/// Whether a character is no letter.
pub open spec fn is_sign(c: char) -> bool {
    !('a' <= c <= 'z') && !('A' <= c <= 'Z')
}

/// A word of one sign stands where the sign does.
pub proof fn lemma_sign(s: Seq<char>, i: int, w: &'static str, c: char, token: bool, d: nat)
    requires
        w@.len() == 1,
        w@[0] == c,
        is_sign(c),
        0 <= i,
    ensures
        char_at(s, i, c) ==> gives(Peg::Word(w), s, i, token, d, i + 1, seq![]),
        !char_at(s, i, c) ==> fails(Peg::Word(w), s, i, token, d),
{
    reveal(gives);
    reveal(fails);
    if char_at(s, i, c) {
        assert(word_at(s, w@, i));
    } else if i < s.len() {
        assert(lower(w@[0]) != lower(s[i + 0]));
    }
}

/// What begins with a sign fails where the sign does not stand.
pub proof fn lemma_no_sign(
    s: Seq<char>,
    i: int,
    w: &'static str,
    c: char,
    rest: Peg,
    token: bool,
    d: nat,
)
    requires
        w@.len() == 1,
        w@[0] == c,
        is_sign(c),
        0 <= i,
        !char_at(s, i, c),
    ensures
        fails(followed(Peg::Word(w), rest), s, i, token, d),
{
    lemma_sign(s, i, w, c, token, d);
    lemma_then_fails(Peg::Word(w), rest, s, i, token, d);
}

pub proof fn lemma_no_blank(s: Seq<char>, i: int)
    requires
        0 <= i < s.len(),
        !is_white(s[i]),
        s[i] != '/',
    ensures
        blank_end(s, i) == i,
{
}

pub proof fn lemma_blank(s: Seq<char>, i: int)
    requires
        char_at(s, i, ' '),
        i + 1 < s.len(),
        !is_white(s[i + 1]),
        s[i + 1] != '/',
    ensures
        blank_end(s, i) == i + 1,
{
    lemma_no_blank(s, i + 1);
}

// ── Names ────────────────────────────────────────────────────────────────────

/// Whether a text is a name.
pub open spec fn is_name(v: Seq<char>) -> bool {
    &&& v.len() > 0
    &&& in_class(v[0], Class::NameStart)
    &&& forall|k: int| 0 <= k < v.len() ==> in_class(#[trigger] v[k], Class::NamePart)
}

/// Whether a name stands at a place, with nothing behind it that could belong to
/// it.
pub open spec fn name_at(s: Seq<char>, i: int, v: Seq<char>) -> bool {
    let end = i + v.len();
    &&& is_name(v)
    &&& 0 <= i
    &&& end <= s.len()
    &&& s.subrange(i, end) == v
    &&& end < s.len() ==> !in_class(s[end], Class::NamePart)
}

pub proof fn lemma_name_char(s: Seq<char>, i: int, v: Seq<char>, k: int)
    requires
        name_at(s, i, v),
        0 <= k < v.len(),
    ensures
        s[i + k] == v[k],
        in_class(s[i + k], Class::NamePart),
{
    assert(s.subrange(i, i + v.len())[k] == s[i + k]);
}

proof fn lemma_name_rest(s: Seq<char>, i: int, v: Seq<char>, e: int, f: int, d: nat)
    requires
        name_at(s, i, v),
        i <= e <= i + v.len(),
    ensures
        run_more(Peg::One(Class::NamePart), s, e, seq![], f, true, true, d) matches Step::Match {
            end,
            nodes,
            far,
        } && end == i + v.len() && nodes == Seq::<Tree>::empty(),
    decreases i + v.len() - e,
{
    let p = Peg::One(Class::NamePart);
    if e < i + v.len() {
        lemma_name_char(s, i, v, e - i);
        let here = run(p, s, e, true, true, d);
        let g = crate::parser::peg::larger(f, here->Match_far);
        lemma_name_rest(s, i, v, e + 1, g, d);
        assert(Seq::<Tree>::empty() + Seq::<Tree>::empty() =~= Seq::<Tree>::empty());
    }
}

/// The node of a name.
pub open spec fn name_node(r: Rule, i: int, v: Seq<char>) -> Tree {
    Tree { rule: r, text: v, start: i, children: seq![] }
}

pub proof fn lemma_ident(s: Seq<char>, i: int, v: Seq<char>, token: bool, d: nat)
    requires
        name_at(s, i, v),
        d > 0,
    ensures
        gives(
            Peg::Call(Rule::ident),
            s,
            i,
            token,
            d,
            i + v.len(),
            seq![name_node(Rule::ident, i, v)],
        ),
{
    let d1 = (d - 1) as nat;
    let first = Peg::One(Class::NameStart);
    let part = Peg::One(Class::NamePart);
    assert(body_of(Rule::ident, true) == followed(first, often(part)));
    lemma_name_char(s, i, v, 0);
    lemma_one(Class::NameStart, s, i, true, d1);
    if v.len() > 1 {
        lemma_name_char(s, i, v, 1);
        let here = run(part, s, i + 1, true, true, d1);
        lemma_name_rest(s, i, v, i + 2, here->Match_far, d1);
        assert(gives(often(part), s, i + 1, true, d1, i + v.len(), seq![])) by {
            reveal(gives);
        }
    } else {
        lemma_one(Class::NamePart, s, i + 1, true, d1);
        lemma_often_not(part, s, i + 1, true, d1);
    }
    lemma_then(first, often(part), s, i, true, d1, i + 1, seq![], i + v.len(), seq![]);
    assert(Seq::<Tree>::empty() + Seq::<Tree>::empty() =~= Seq::<Tree>::empty());
    lemma_call(Rule::ident, s, i, token, d, i + v.len(), seq![]);
}

/// A name without backticks.
pub open spec fn plain_name() -> Peg {
    or(Peg::Call(Rule::ident_escaped), Peg::Call(Rule::ident))
}

pub proof fn lemma_plain_name(s: Seq<char>, i: int, v: Seq<char>, token: bool, d: nat)
    requires
        name_at(s, i, v),
        d > 0,
    ensures
        gives(plain_name(), s, i, token, d, i + v.len(), seq![name_node(Rule::ident, i, v)]),
{
    lemma_ident(s, i, v, token, d);
    lemma_name_char(s, i, v, 0);
    reveal_strlit("`");
    let inside = Peg::One(Class::InTicks);
    let rest = followed(inside, followed(often(inside), Peg::Word("`")));
    assert(body_of(Rule::ident_escaped, true) == followed(Peg::Word("`"), rest));
    lemma_no_sign(s, i, "`", '`', rest, true, (d - 1) as nat);
    lemma_call_fails(Rule::ident_escaped, s, i, token, d);
    lemma_or_second(
        Peg::Call(Rule::ident_escaped),
        Peg::Call(Rule::ident),
        s,
        i,
        token,
        d,
        i + v.len(),
        seq![name_node(Rule::ident, i, v)],
    );
}

/// A name where a rule keeps it as a token.
pub proof fn lemma_name_token(r: Rule, s: Seq<char>, i: int, v: Seq<char>, token: bool, d: nat)
    requires
        name_at(s, i, v),
        d > 1,
        r == Rule::gql_label_name || r == Rule::rel_type_elem,
    ensures
        gives(Peg::Call(r), s, i, token, d, i + v.len(), seq![name_node(r, i, v)]),
{
    assert(body_of(r, true) == plain_name());
    lemma_plain_name(s, i, v, true, (d - 1) as nat);
    lemma_call(r, s, i, token, d, i + v.len(), seq![name_node(Rule::ident, i, v)]);
}

} // verus!
