//! Relationships with a type behind a colon, or behind `IS`.
use vstd::prelude::*;

#[allow(unused_imports)]
use crate::ast::cypher::Direction;
#[allow(unused_imports)]
use crate::ast::model as m;
#[allow(unused_imports)]
use crate::parser::error::Fault;
#[allow(unused_imports)]
use crate::parser::grammar::body_of;
#[allow(unused_imports)]
use crate::parser::laws::labels::{
    is_at, is_variable, is_variable_name, lemma_is, lemma_no_properties, lemma_variable,
};
#[allow(unused_imports)]
use crate::parser::laws::steps::{
    char_at, fails, followed, gives, lemma_blank, lemma_call, lemma_call_fails, lemma_name_char,
    lemma_name_token, lemma_no_blank, lemma_no_sign, lemma_often_not, lemma_or_fails,
    lemma_or_first, lemma_or_second, lemma_perhaps, lemma_perhaps_not, lemma_sign, lemma_then,
    lemma_then_fails, lemma_word, name_at, name_node, node_for, often, or, perhaps,
};
#[allow(unused_imports)]
use crate::parser::lexical::unquoted;
#[allow(unused_imports)]
use crate::parser::meaning::{listed_types, rel_pattern_in, rel_types_in, texts_from};
#[allow(unused_imports)]
use crate::parser::peg::{next_part, word_at, Peg};
#[allow(unused_imports)]
use crate::parser::tree::{at, index_from, seen_from, Rule, Tree};
#[allow(unused_imports)]
use crate::text::{is_white, lower};

verus! {

/// Whether a type stands at a place, behind a colon.
pub open spec fn colon_type_at(s: Seq<char>, i: int, v: Seq<char>) -> bool {
    char_at(s, i, ':') && name_at(s, i + 1, v) && char_at(s, i + 1 + v.len(), ']')
}

/// Whether a type stands behind `IS` at a place.
pub open spec fn is_type_at(s: Seq<char>, i: int, v: Seq<char>) -> bool {
    is_at(s, i) && name_at(s, i + 3, v) && char_at(s, i + 3 + v.len(), ']')
}

spec fn is_type(t: Tree, v: Seq<char>) -> bool {
    t.rule == Rule::rel_type_elem && t.text == v
}

/// Whether a node lists one type.
spec fn lists_type(t: Tree, v: Seq<char>) -> bool {
    ||| t.rule == Rule::colon_type_list && t.children.len() == 1 && is_type(t.children[0], v)
    ||| t.rule == Rule::is_type_list && t.children.len() == 2 && t.children[0].rule == Rule::kw_IS
        && is_type(t.children[1], v)
}

spec fn has_type(t: Tree, v: Seq<char>) -> bool {
    t.rule == Rule::rel_type_spec && t.children.len() == 1 && lists_type(t.children[0], v)
}

spec fn colon_list() -> Peg {
    let name = Peg::Call(Rule::rel_type_elem);
    let more = followed(Peg::Word("|"), followed(perhaps(Peg::Word(":")), name));
    followed(Peg::Word(":"), followed(name, often(more)))
}

spec fn is_list() -> Peg {
    let name = Peg::Call(Rule::rel_type_elem);
    let more = followed(or(Peg::Word("|"), Peg::Word("&")), name);
    followed(Peg::Call(Rule::kw_IS), followed(name, often(more)))
}

proof fn lemma_colon_type(s: Seq<char>, i: int, v: Seq<char>, d: nat) -> (t: Tree)
    requires
        colon_type_at(s, i, v),
        d > 4,
    ensures
        gives(Peg::Call(Rule::rel_type_spec), s, i, false, d, i + 1 + v.len(), seq![t]),
        has_type(t, v),
{
    let d1 = (d - 1) as nat;
    let d2 = (d - 2) as nat;
    let end = i + 1 + v.len();
    let name = Peg::Call(Rule::rel_type_elem);
    let alternatives = followed(perhaps(Peg::Word(":")), name);
    let more = followed(Peg::Word("|"), alternatives);
    let names = followed(name, often(more));
    let none = Seq::<Tree>::empty();
    assert(body_of(Rule::colon_type_list, true) == colon_list());
    reveal_strlit(":");
    reveal_strlit("|");
    lemma_sign(s, i, ":", ':', false, d2);
    lemma_name_char(s, i + 1, v, 0);
    lemma_no_blank(s, i + 1);
    lemma_name_token(Rule::rel_type_elem, s, i + 1, v, false, d2);
    let x = name_node(Rule::rel_type_elem, i + 1, v);
    lemma_no_blank(s, end);
    lemma_no_sign(s, end, "|", '|', alternatives, false, d2);
    lemma_often_not(more, s, end, false, d2);
    lemma_then(name, often(more), s, i + 1, false, d2, end, seq![x], end, none);
    assert(seq![x] + none =~= seq![x]);
    lemma_then(Peg::Word(":"), names, s, i, false, d2, i + 1, none, end, seq![x]);
    assert(none + seq![x] =~= seq![x]);
    lemma_call(Rule::colon_type_list, s, i, false, d1, end, seq![x]);
    let l = node_for(Rule::colon_type_list, s, i, end, seq![x]);
    let colon = Peg::Call(Rule::colon_type_list);
    let is = Peg::Call(Rule::is_type_list);
    assert(body_of(Rule::rel_type_spec, true) == or(colon, is));
    lemma_or_first(colon, is, s, i, false, d1, end, seq![l]);
    lemma_call(Rule::rel_type_spec, s, i, false, d, end, seq![l]);
    node_for(Rule::rel_type_spec, s, i, end, seq![l])
}

proof fn lemma_is_type(s: Seq<char>, i: int, v: Seq<char>, d: nat) -> (t: Tree)
    requires
        is_type_at(s, i, v),
        d > 4,
    ensures
        gives(Peg::Call(Rule::rel_type_spec), s, i, false, d, i + 3 + v.len(), seq![t]),
        has_type(t, v),
{
    let d1 = (d - 1) as nat;
    let d2 = (d - 2) as nat;
    let end = i + 3 + v.len();
    let name = Peg::Call(Rule::rel_type_elem);
    let sign = or(Peg::Word("|"), Peg::Word("&"));
    let more = followed(sign, name);
    let names = followed(name, often(more));
    let none = Seq::<Tree>::empty();
    let word = Peg::Call(Rule::kw_IS);
    assert(body_of(Rule::colon_type_list, true) == colon_list());
    assert(body_of(Rule::is_type_list, true) == is_list());
    reveal_strlit(":");
    reveal_strlit("|");
    reveal_strlit("&");
    let alternatives = followed(perhaps(Peg::Word(":")), name);
    lemma_no_sign(
        s,
        i,
        ":",
        ':',
        followed(name, often(followed(Peg::Word("|"), alternatives))),
        false,
        d2,
    );
    lemma_call_fails(Rule::colon_type_list, s, i, false, d1);
    let k = lemma_is(s, i, d2);
    lemma_name_char(s, i + 3, v, 0);
    lemma_blank(s, i + 2);
    lemma_name_token(Rule::rel_type_elem, s, i + 3, v, false, d2);
    let x = name_node(Rule::rel_type_elem, i + 3, v);
    lemma_no_blank(s, end);
    lemma_sign(s, end, "|", '|', false, d2);
    lemma_sign(s, end, "&", '&', false, d2);
    lemma_or_fails(Peg::Word("|"), Peg::Word("&"), s, end, false, d2);
    lemma_then_fails(sign, name, s, end, false, d2);
    lemma_often_not(more, s, end, false, d2);
    lemma_then(name, often(more), s, i + 3, false, d2, end, seq![x], end, none);
    assert(seq![x] + none =~= seq![x]);
    lemma_then(word, names, s, i, false, d2, i + 2, seq![k], end, seq![x]);
    let both = seq![k] + seq![x];
    lemma_call(Rule::is_type_list, s, i, false, d1, end, both);
    let l = node_for(Rule::is_type_list, s, i, end, both);
    let colon = Peg::Call(Rule::colon_type_list);
    let is = Peg::Call(Rule::is_type_list);
    assert(body_of(Rule::rel_type_spec, true) == or(colon, is));
    lemma_or_second(colon, is, s, i, false, d1, end, seq![l]);
    lemma_call(Rule::rel_type_spec, s, i, false, d, end, seq![l]);
    node_for(Rule::rel_type_spec, s, i, end, seq![l])
}

// ── Relationships ────────────────────────────────────────────────────────────

/// The relationship that the type makes.
pub open spec fn typed_relationship(r: Seq<char>, v: Seq<char>) -> m::PatternElement {
    m::PatternElement::Relationship(
        m::RelationshipPattern {
            variable: Some(unquoted(r)),
            direction: Direction::Right,
            rel_types: seq![unquoted(v)],
            properties: None,
            range: None,
        },
    )
}

spec fn has_body(b: Tree, r: Seq<char>, v: Seq<char>) -> bool {
    b.rule == Rule::rel_body && b.children.len() == 2 && is_variable(b.children[0], r) && has_type(
        b.children[1],
        v,
    )
}

proof fn lemma_relationship_meaning(t: Tree, r: Seq<char>, v: Seq<char>)
    requires
        t.children.len() == 3,
        t.children[0].rule == Rule::rel_dash,
        has_body(t.children[1], r, v),
        t.children[2].rule == Rule::right_arrow,
    ensures
        rel_pattern_in(t, true) == Ok::<m::PatternElement, Fault>(typed_relationship(r, v)),
{
    let b = t.children[1];
    let y = b.children[1];
    let l = y.children[0];
    reveal_with_fuel(index_from, 5);
    assert(at(t, Rule::rel_body) == 1);
    assert(at(t, Rule::left_arrow) == -1);
    assert(at(t, Rule::right_arrow) == 2);
    assert(at(b, Rule::variable) == 0);
    assert(at(b, Rule::properties) == -1);
    assert(at(b, Rule::range_literal) == -1);
    assert(at(b, Rule::rel_type_spec) == 1);
    reveal_with_fuel(texts_from, 4);
    if l.rule == Rule::colon_type_list {
        assert(at(y, Rule::colon_type_list) == 0);
        assert(at(y, Rule::is_type_list) == -1);
        assert(listed_types(y, Rule::colon_type_list) =~= seq![unquoted(v)]);
    } else {
        assert(at(y, Rule::colon_type_list) == -1);
        assert(at(y, Rule::is_type_list) == 0);
        assert(listed_types(y, Rule::is_type_list) =~= seq![unquoted(v)]);
    }
    assert(rel_types_in(b, true) =~= seq![unquoted(v)]);
}

proof fn lemma_no_range(s: Seq<char>, i: int, d: nat)
    requires
        0 <= i,
        !char_at(s, i, '*'),
        d > 0,
    ensures
        fails(Peg::Call(Rule::range_literal), s, i, false, d),
{
    let number = perhaps(Peg::Call(Rule::integer_literal));
    let rest = followed(number, perhaps(followed(Peg::Word(".."), number)));
    assert(body_of(Rule::range_literal, true) == followed(Peg::Word("*"), rest));
    reveal_strlit("*");
    lemma_no_sign(s, i, "*", '*', rest, false, (d - 1) as nat);
    lemma_call_fails(Rule::range_literal, s, i, false, d);
}

proof fn lemma_body(
    s: Seq<char>,
    i: int,
    x: Tree,
    e1: int,
    y: Tree,
    e2: int,
    d: nat,
) -> (t: Tree)
    requires
        d > 3,
        char_at(s, i, '['),
        i + 1 < s.len(),
        !is_white(s[i + 1]),
        s[i + 1] != '/',
        gives(Peg::Call(Rule::variable), s, i + 1, false, (d - 1) as nat, e1, seq![x]),
        gives(
            Peg::Call(Rule::rel_type_spec),
            s,
            next_part(s, e1, false),
            false,
            (d - 1) as nat,
            e2,
            seq![y],
        ),
        char_at(s, e2, ']'),
    ensures
        gives(Peg::Call(Rule::rel_body), s, i, false, d, e2 + 1, seq![t]),
        t.rule == Rule::rel_body,
        t.children == seen_from(seq![x, y], i),
{
    let d1 = (d - 1) as nat;
    let open = Peg::Word("[");
    let close = Peg::Word("]");
    let variable = perhaps(Peg::Call(Rule::variable));
    let types = perhaps(Peg::Call(Rule::rel_type_spec));
    let range = perhaps(Peg::Call(Rule::range_literal));
    let properties = perhaps(Peg::Call(Rule::properties));
    let p5 = followed(properties, close);
    let p4 = followed(range, p5);
    let p3 = followed(types, p4);
    let p2 = followed(variable, p3);
    let all = followed(open, p2);
    assert(body_of(Rule::rel_body, true) == perhaps(all));
    reveal_strlit("[");
    reveal_strlit("]");
    let none = Seq::<Tree>::empty();
    lemma_sign(s, i, "[", '[', false, d1);
    lemma_no_blank(s, i + 1);
    lemma_perhaps(Peg::Call(Rule::variable), s, i + 1, false, d1, e1, seq![x]);
    let then_at = next_part(s, e1, false);
    lemma_perhaps(Peg::Call(Rule::rel_type_spec), s, then_at, false, d1, e2, seq![y]);
    lemma_no_blank(s, e2);
    lemma_no_range(s, e2, d1);
    lemma_perhaps_not(Peg::Call(Rule::range_literal), s, e2, false, d1);
    lemma_no_properties(s, e2, d1);
    lemma_perhaps_not(Peg::Call(Rule::properties), s, e2, false, d1);
    lemma_sign(s, e2, "]", ']', false, d1);
    assert(none + none =~= none);
    lemma_then(properties, close, s, e2, false, d1, e2, none, e2 + 1, none);
    lemma_then(range, p5, s, e2, false, d1, e2, none, e2 + 1, none);
    assert(seq![y] + none =~= seq![y]);
    lemma_then(types, p4, s, then_at, false, d1, e2, seq![y], e2 + 1, none);
    assert(seq![x] + seq![y] =~= seq![x, y]);
    lemma_then(variable, p3, s, i + 1, false, d1, e1, seq![x], e2 + 1, seq![y]);
    assert(none + seq![x, y] =~= seq![x, y]);
    lemma_then(open, p2, s, i, false, d1, i + 1, none, e2 + 1, seq![x, y]);
    lemma_perhaps(all, s, i, false, d1, e2 + 1, seq![x, y]);
    lemma_call(Rule::rel_body, s, i, false, d, e2 + 1, seq![x, y]);
    node_for(Rule::rel_body, s, i, e2 + 1, seq![x, y])
}

proof fn lemma_relationship(
    s: Seq<char>,
    i: int,
    b: Tree,
    e: int,
    r: Seq<char>,
    v: Seq<char>,
    d: nat,
) -> (t: Tree)
    requires
        d > 4,
        char_at(s, i, '-'),
        char_at(s, i + 1, '['),
        gives(Peg::Call(Rule::rel_body), s, i + 1, false, (d - 1) as nat, e, seq![b]),
        has_body(b, r, v),
        char_at(s, e, '-'),
        char_at(s, e + 1, '>'),
    ensures
        gives(Peg::Call(Rule::rel_pattern), s, i, false, d, e + 2, seq![t]),
        t.rule == Rule::rel_pattern,
        rel_pattern_in(t, true) == Ok::<m::PatternElement, Fault>(typed_relationship(r, v)),
{
    let d1 = (d - 1) as nat;
    let d2 = (d - 2) as nat;
    let left = Peg::Call(Rule::left_arrow);
    let dash = Peg::Call(Rule::rel_dash);
    let right = Peg::Call(Rule::right_arrow);
    let body = Peg::Call(Rule::rel_body);
    let none = Seq::<Tree>::empty();
    let to_left = followed(left, followed(body, dash));
    let to_right = followed(dash, followed(body, right));
    let either = followed(dash, followed(body, dash));
    assert(body_of(Rule::rel_pattern, true) == or(to_left, or(to_right, either)));
    reveal_strlit("<-");
    assert(body_of(Rule::left_arrow, true) == Peg::Word("<-"));
    assert(lower("<-"@[0]) != lower(s[i + 0]));
    lemma_word("<-", s, i, true, d2);
    lemma_call_fails(Rule::left_arrow, s, i, false, d1);
    lemma_then_fails(left, followed(body, dash), s, i, false, d1);
    reveal_strlit("-");
    assert(body_of(Rule::rel_dash, true) == Peg::Word("-"));
    lemma_sign(s, i, "-", '-', true, d2);
    lemma_call(Rule::rel_dash, s, i, false, d1, i + 1, none);
    let x = node_for(Rule::rel_dash, s, i, i + 1, none);
    lemma_no_blank(s, i + 1);
    lemma_no_blank(s, e);
    reveal_strlit("->");
    assert(body_of(Rule::right_arrow, true) == Peg::Word("->"));
    assert(word_at(s, "->"@, e));
    lemma_word("->", s, e, true, d2);
    lemma_call(Rule::right_arrow, s, e, false, d1, e + 2, none);
    let z = node_for(Rule::right_arrow, s, e, e + 2, none);
    lemma_then(body, right, s, i + 1, false, d1, e, seq![b], e + 2, seq![z]);
    lemma_then(dash, followed(body, right), s, i, false, d1, i + 1, seq![x], e + 2, seq![b] + seq![z]);
    let nodes = seq![x] + (seq![b] + seq![z]);
    lemma_or_first(to_right, either, s, i, false, d1, e + 2, nodes);
    lemma_or_second(to_left, or(to_right, either), s, i, false, d1, e + 2, nodes);
    lemma_call(Rule::rel_pattern, s, i, false, d, e + 2, nodes);
    let t = node_for(Rule::rel_pattern, s, i, e + 2, nodes);
    assert(t.children =~= seen_from(seq![x, b, z], i));
    lemma_relationship_meaning(t, r, v);
    t
}

pub proof fn lemma_colon_relationship(
    s: Seq<char>,
    i: int,
    r: Seq<char>,
    v: Seq<char>,
    d: nat,
) -> (t: Tree)
    requires
        d > 7,
        char_at(s, i, '-'),
        char_at(s, i + 1, '['),
        name_at(s, i + 2, r),
        is_variable_name(r),
        colon_type_at(s, i + 2 + r.len(), v),
        char_at(s, i + 4 + r.len() + v.len(), '-'),
        char_at(s, i + 5 + r.len() + v.len(), '>'),
    ensures
        gives(
            Peg::Call(Rule::rel_pattern),
            s,
            i,
            false,
            d,
            i + 6 + r.len() + v.len(),
            seq![t],
        ),
        t.rule == Rule::rel_pattern,
        rel_pattern_in(t, true) == Ok::<m::PatternElement, Fault>(typed_relationship(r, v)),
{
    let d1 = (d - 1) as nat;
    let d2 = (d - 2) as nat;
    let e1 = i + 2 + r.len();
    let e2 = e1 + 1 + v.len();
    lemma_name_char(s, i + 2, r, 0);
    let x = lemma_variable(s, i + 2, r, d2);
    lemma_no_blank(s, e1);
    let y = lemma_colon_type(s, e1, v, d2);
    let b = lemma_body(s, i + 1, x, e1, y, e2, d1);
    lemma_relationship(s, i, b, e2 + 1, r, v, d)
}

pub proof fn lemma_is_relationship(
    s: Seq<char>,
    i: int,
    r: Seq<char>,
    v: Seq<char>,
    d: nat,
) -> (t: Tree)
    requires
        d > 7,
        char_at(s, i, '-'),
        char_at(s, i + 1, '['),
        name_at(s, i + 2, r),
        is_variable_name(r),
        char_at(s, i + 2 + r.len(), ' '),
        is_type_at(s, i + 3 + r.len(), v),
        char_at(s, i + 7 + r.len() + v.len(), '-'),
        char_at(s, i + 8 + r.len() + v.len(), '>'),
    ensures
        gives(
            Peg::Call(Rule::rel_pattern),
            s,
            i,
            false,
            d,
            i + 9 + r.len() + v.len(),
            seq![t],
        ),
        t.rule == Rule::rel_pattern,
        rel_pattern_in(t, true) == Ok::<m::PatternElement, Fault>(typed_relationship(r, v)),
{
    let d1 = (d - 1) as nat;
    let d2 = (d - 2) as nat;
    let e1 = i + 2 + r.len();
    let e2 = e1 + 4 + v.len();
    lemma_name_char(s, i + 2, r, 0);
    let x = lemma_variable(s, i + 2, r, d2);
    lemma_blank(s, e1);
    let y = lemma_is_type(s, e1 + 1, v, d2);
    let b = lemma_body(s, i + 1, x, e1, y, e2, d1);
    lemma_relationship(s, i, b, e2 + 1, r, v, d)
}

} // verus!
