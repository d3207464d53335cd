//! Variables, and nodes with labels behind colons or behind `IS`.
use vstd::prelude::*;

#[allow(unused_imports)]
use crate::ast::model as m;
#[allow(unused_imports)]
use crate::parser::error::Fault;
#[allow(unused_imports)]
use crate::parser::grammar::{any6, body_of, keyword, reserved_words};
#[allow(unused_imports)]
use crate::parser::laws::spelling::lemma_same_class;
#[allow(unused_imports)]
use crate::parser::lexical::unquoted;
#[allow(unused_imports)]
use crate::parser::meaning::{
    is_labels_in, labels_from, labels_in, node_pattern_in, texts_from,
};
#[allow(unused_imports)]
use crate::parser::laws::steps::{
    char_at, fails, followed, gives, is_name, is_sign, lemma_blank, lemma_call,
    lemma_call_fails, lemma_gives, lemma_name_char, lemma_name_token, lemma_no_blank,
    lemma_no_sign, lemma_not, lemma_not_fails, lemma_often_once, lemma_one, lemma_or_failed,
    lemma_or_fails, lemma_perhaps, lemma_perhaps_not, lemma_plain_name, lemma_sign, lemma_then,
    lemma_then_fails, lemma_then_fails_late, lemma_word, name_at, name_node, node_for, often,
    or, perhaps, plain_name,
};
#[allow(unused_imports)]
use crate::parser::peg::{in_class, next_part, word_at, Class, Peg};
#[allow(unused_imports)]
use crate::parser::tree::{at, index_from, seen_from, Rule, Tree};
#[allow(unused_imports)]
use crate::text::{is_white, lower};

verus! {

// ── Variables ────────────────────────────────────────────────────────────────

/// Whether a name is no reserved word.
#[verifier::opaque]
pub open spec fn is_variable_name(v: Seq<char>) -> bool {
    is_name(v) && fails(reserved_words(), v, 0, true, 0)
}

pub open spec fn is_letters(w: Seq<char>) -> bool {
    w.len() > 0 && forall|k: int|
        0 <= k < w.len() ==> in_class(#[trigger] w[k], Class::NamePart)
}

/// Whether an expression chooses between keywords.
pub open spec fn only_keywords(p: Peg) -> bool
    decreases p,
{
    match p {
        Peg::Or(f, g) => only_keywords(*f) && only_keywords(*g),
        Peg::Then(f, g) => *f matches Peg::Word(w) && is_letters(w@) && *g == Peg::Not(
            Box::new(Peg::One(Class::NamePart)),
        ),
        _ => false,
    }
}

proof fn lemma_keyword(w: &'static str)
    requires
        is_letters(w@),
    ensures
        only_keywords(keyword(w)),
{
}

proof fn lemma_six(a: Peg, b: Peg, c: Peg, d: Peg, e: Peg, f: Peg)
    requires
        only_keywords(a),
        only_keywords(b),
        only_keywords(c),
        only_keywords(d),
        only_keywords(e),
        only_keywords(f),
    ensures
        only_keywords(any6(a, b, c, d, e, f)),
{
    let x = or(e, f);
    assert(only_keywords(x));
    let x = or(d, x);
    assert(only_keywords(x));
    let x = or(c, x);
    assert(only_keywords(x));
    let x = or(b, x);
    assert(only_keywords(x));
    let x = or(a, x);
    assert(only_keywords(x));
}

pub proof fn lemma_reserved_words()
    ensures
        only_keywords(reserved_words()),
{
    reveal_strlit("UNION");
    lemma_keyword("UNION");
    reveal_strlit("UNWIND");
    lemma_keyword("UNWIND");
    reveal_strlit("WHEN");
    lemma_keyword("WHEN");
    reveal_strlit("WHERE");
    lemma_keyword("WHERE");
    reveal_strlit("WITH");
    lemma_keyword("WITH");
    reveal_strlit("XOR");
    lemma_keyword("XOR");
    reveal_strlit("SET");
    lemma_keyword("SET");
    reveal_strlit("SKIP");
    lemma_keyword("SKIP");
    reveal_strlit("STARTS");
    lemma_keyword("STARTS");
    reveal_strlit("THEN");
    lemma_keyword("THEN");
    reveal_strlit("TRUE");
    lemma_keyword("TRUE");
    reveal_strlit("OPTIONAL");
    lemma_keyword("OPTIONAL");
    reveal_strlit("OR");
    lemma_keyword("OR");
    reveal_strlit("ORDER");
    lemma_keyword("ORDER");
    reveal_strlit("REMOVE");
    lemma_keyword("REMOVE");
    reveal_strlit("RETURN");
    lemma_keyword("RETURN");
    reveal_strlit("MATCH");
    lemma_keyword("MATCH");
    reveal_strlit("MERGE");
    lemma_keyword("MERGE");
    reveal_strlit("NOT");
    lemma_keyword("NOT");
    reveal_strlit("NULL");
    lemma_keyword("NULL");
    reveal_strlit("ON");
    lemma_keyword("ON");
    reveal_strlit("ENDS");
    lemma_keyword("ENDS");
    reveal_strlit("FALSE");
    lemma_keyword("FALSE");
    reveal_strlit("IN");
    lemma_keyword("IN");
    reveal_strlit("IS");
    lemma_keyword("IS");
    reveal_strlit("LIMIT");
    lemma_keyword("LIMIT");
    reveal_strlit("DESCENDING");
    lemma_keyword("DESCENDING");
    reveal_strlit("DETACH");
    lemma_keyword("DETACH");
    reveal_strlit("DISTINCT");
    lemma_keyword("DISTINCT");
    reveal_strlit("ELSE");
    lemma_keyword("ELSE");
    reveal_strlit("END");
    lemma_keyword("END");
    reveal_strlit("CASE");
    lemma_keyword("CASE");
    reveal_strlit("CONTAINS");
    lemma_keyword("CONTAINS");
    reveal_strlit("CREATE");
    lemma_keyword("CREATE");
    reveal_strlit("DELETE");
    lemma_keyword("DELETE");
    reveal_strlit("DESC");
    lemma_keyword("DESC");
    reveal_strlit("AND");
    lemma_keyword("AND");
    reveal_strlit("AS");
    lemma_keyword("AS");
    reveal_strlit("ASC");
    lemma_keyword("ASC");
    reveal_strlit("ASCENDING");
    lemma_keyword("ASCENDING");
    reveal_strlit("BY");
    lemma_keyword("BY");
    let p7 = any6(
        keyword("UNION"),
        keyword("UNWIND"),
        keyword("WHEN"),
        keyword("WHERE"),
        keyword("WITH"),
        keyword("XOR"),
    );
    lemma_six(
        keyword("UNION"),
        keyword("UNWIND"),
        keyword("WHEN"),
        keyword("WHERE"),
        keyword("WITH"),
        keyword("XOR"),
    );
    let p6 = any6(
        keyword("SET"),
        keyword("SKIP"),
        keyword("STARTS"),
        keyword("THEN"),
        keyword("TRUE"),
        p7,
    );
    lemma_six(
        keyword("SET"),
        keyword("SKIP"),
        keyword("STARTS"),
        keyword("THEN"),
        keyword("TRUE"),
        p7,
    );
    let p5 = any6(
        keyword("OPTIONAL"),
        keyword("OR"),
        keyword("ORDER"),
        keyword("REMOVE"),
        keyword("RETURN"),
        p6,
    );
    lemma_six(
        keyword("OPTIONAL"),
        keyword("OR"),
        keyword("ORDER"),
        keyword("REMOVE"),
        keyword("RETURN"),
        p6,
    );
    let p4 = any6(
        keyword("MATCH"),
        keyword("MERGE"),
        keyword("NOT"),
        keyword("NULL"),
        keyword("ON"),
        p5,
    );
    lemma_six(
        keyword("MATCH"),
        keyword("MERGE"),
        keyword("NOT"),
        keyword("NULL"),
        keyword("ON"),
        p5,
    );
    let p3 = any6(
        keyword("ENDS"),
        keyword("FALSE"),
        keyword("IN"),
        keyword("IS"),
        keyword("LIMIT"),
        p4,
    );
    lemma_six(
        keyword("ENDS"),
        keyword("FALSE"),
        keyword("IN"),
        keyword("IS"),
        keyword("LIMIT"),
        p4,
    );
    let p2 = any6(
        keyword("DESCENDING"),
        keyword("DETACH"),
        keyword("DISTINCT"),
        keyword("ELSE"),
        keyword("END"),
        p3,
    );
    lemma_six(
        keyword("DESCENDING"),
        keyword("DETACH"),
        keyword("DISTINCT"),
        keyword("ELSE"),
        keyword("END"),
        p3,
    );
    let p1 = any6(
        keyword("CASE"),
        keyword("CONTAINS"),
        keyword("CREATE"),
        keyword("DELETE"),
        keyword("DESC"),
        p2,
    );
    lemma_six(
        keyword("CASE"),
        keyword("CONTAINS"),
        keyword("CREATE"),
        keyword("DELETE"),
        keyword("DESC"),
        p2,
    );
    let p0 = any6(
        keyword("AND"),
        keyword("AS"),
        keyword("ASC"),
        keyword("ASCENDING"),
        keyword("BY"),
        p1,
    );
    lemma_six(
        keyword("AND"),
        keyword("AS"),
        keyword("ASC"),
        keyword("ASCENDING"),
        keyword("BY"),
        p1,
    );
    assert(p0 == reserved_words());
}

/// A keyword that is not the whole name does not stand where the name does.
pub proof fn lemma_no_keyword(p: Peg, s: Seq<char>, i: int, v: Seq<char>, d: nat)
    requires
        only_keywords(p),
        name_at(s, i, v),
        fails(p, v, 0, true, 0),
    ensures
        fails(p, s, i, true, d),
    decreases p,
{
    match p {
        Peg::Or(f, g) => {
            lemma_or_failed(*f, *g, v, 0, true, 0);
            lemma_no_keyword(*f, s, i, v, d);
            lemma_no_keyword(*g, s, i, v, d);
            lemma_or_fails(*f, *g, s, i, true, d);
        },
        Peg::Then(f, g) => {
            let t = f->Word_0;
            let w = t@;
            let n = w.len() as int;
            let end = i + v.len();
            let part = Peg::One(Class::NamePart);
            lemma_word(t, s, i, true, d);
            if word_at(s, w, i) {
                if n > v.len() {
                    assert(lower(w[v.len() as int]) == lower(s[i + v.len()]));
                    lemma_same_class(w[v.len() as int], s[end], Class::NamePart);
                    assert(in_class(w[v.len() as int], Class::NamePart));
                    assert(false);
                }
                assert(word_at(v, w, 0)) by {
                    assert forall|k: int| 0 <= k < w.len() implies lower(#[trigger] w[k]) == lower(
                        v[0 + k],
                    ) by {
                        lemma_name_char(s, i, v, k);
                    }
                }
                if n == v.len() {
                    lemma_word(t, v, 0, true, 0);
                    lemma_one(Class::NamePart, v, n, true, 0);
                    lemma_not(part, v, n, true, 0);
                    lemma_then(*f, *g, v, 0, true, 0, n, seq![], n, seq![]);
                    lemma_gives(p, v, 0, true, 0, n, seq![] + seq![]);
                } else {
                    lemma_name_char(s, i, v, n);
                    lemma_one(Class::NamePart, s, i + n, true, d);
                    lemma_not_fails(part, s, i + n, true, d, i + n + 1, seq![]);
                    lemma_then_fails_late(*f, *g, s, i, true, d, i + n, seq![]);
                }
            } else {
                lemma_then_fails(*f, *g, s, i, true, d);
            }
        },
        _ => {},
    }
}

/// No keyword stands where no name does.
proof fn lemma_no_keyword_at(p: Peg, s: Seq<char>, i: int, d: nat)
    requires
        only_keywords(p),
        0 <= i < s.len(),
        !in_class(s[i], Class::NamePart),
    ensures
        fails(p, s, i, true, d),
    decreases p,
{
    match p {
        Peg::Or(f, g) => {
            lemma_no_keyword_at(*f, s, i, d);
            lemma_no_keyword_at(*g, s, i, d);
            lemma_or_fails(*f, *g, s, i, true, d);
        },
        Peg::Then(f, g) => {
            let t = f->Word_0;
            lemma_word(t, s, i, true, d);
            if word_at(s, t@, i) {
                assert(lower(t@[0]) == lower(s[i + 0]));
                lemma_same_class(t@[0], s[i], Class::NamePart);
                assert(in_class(t@[0], Class::NamePart));
            }
            lemma_then_fails(*f, *g, s, i, true, d);
        },
        _ => {},
    }
}

/// No variable begins with a bracket.
pub proof fn lemma_no_variable(s: Seq<char>, i: int, d: nat)
    requires
        char_at(s, i, '('),
        d > 2,
    ensures
        fails(Peg::Call(Rule::variable), s, i, false, d),
{
    let d1 = (d - 1) as nat;
    let d2 = (d - 2) as nat;
    let reserved = Peg::Call(Rule::reserved_word);
    let not = Peg::Not(Box::new(reserved));
    assert(body_of(Rule::variable, true) == followed(not, plain_name()));
    assert(body_of(Rule::reserved_word, true) == reserved_words());
    lemma_reserved_words();
    lemma_no_keyword_at(reserved_words(), s, i, d2);
    lemma_call_fails(Rule::reserved_word, s, i, false, d1);
    lemma_not(reserved, s, i, false, d1);
    lemma_no_blank(s, i);
    let inside = Peg::One(Class::InTicks);
    let rest = followed(inside, followed(often(inside), Peg::Word("`")));
    assert(body_of(Rule::ident_escaped, true) == followed(Peg::Word("`"), rest));
    reveal_strlit("`");
    lemma_no_sign(s, i, "`", '`', rest, true, d2);
    lemma_call_fails(Rule::ident_escaped, s, i, false, d1);
    let first = Peg::One(Class::NameStart);
    let more = often(Peg::One(Class::NamePart));
    assert(body_of(Rule::ident, true) == followed(first, more));
    lemma_one(Class::NameStart, s, i, true, d2);
    lemma_then_fails(first, more, s, i, true, d2);
    lemma_call_fails(Rule::ident, s, i, false, d1);
    lemma_or_fails(Peg::Call(Rule::ident_escaped), Peg::Call(Rule::ident), s, i, false, d1);
    lemma_then_fails_late(not, plain_name(), s, i, false, d1, i, seq![]);
    lemma_call_fails(Rule::variable, s, i, false, d);
}

/// Whether a node is that of a variable.
pub open spec fn is_variable(t: Tree, v: Seq<char>) -> bool {
    t.rule == Rule::variable && t.children.len() == 1 && t.children[0].text == v
}

pub proof fn lemma_variable(s: Seq<char>, i: int, v: Seq<char>, d: nat) -> (t: Tree)
    requires
        name_at(s, i, v),
        is_variable_name(v),
        d > 2,
    ensures
        gives(Peg::Call(Rule::variable), s, i, false, d, i + v.len(), seq![t]),
        is_variable(t, v),
{
    let d1 = (d - 1) as nat;
    let d2 = (d - 2) as nat;
    let reserved = Peg::Call(Rule::reserved_word);
    let not = Peg::Not(Box::new(reserved));
    assert(body_of(Rule::variable, true) == followed(not, plain_name()));
    reveal(is_variable_name);
    lemma_reserved_words();
    lemma_no_keyword(reserved_words(), s, i, v, d2);
    assert(body_of(Rule::reserved_word, true) == reserved_words());
    lemma_call_fails(Rule::reserved_word, s, i, false, d1);
    lemma_not(reserved, s, i, false, d1);
    lemma_name_char(s, i, v, 0);
    lemma_no_blank(s, i);
    lemma_plain_name(s, i, v, false, d1);
    let names = seq![name_node(Rule::ident, i, v)];
    lemma_then(not, plain_name(), s, i, false, d1, i, seq![], i + v.len(), names);
    assert(Seq::<Tree>::empty() + names =~= names);
    lemma_call(Rule::variable, s, i, false, d, i + v.len(), names);
    node_for(Rule::variable, s, i, i + v.len(), names)
}

// ── Labels ───────────────────────────────────────────────────────────────────

spec fn is_label(t: Tree, v: Seq<char>) -> bool {
    t.rule == Rule::node_label && t.children.len() == 1 && t.children[0].text == v
}

proof fn lemma_label(s: Seq<char>, i: int, v: Seq<char>, d: nat) -> (t: Tree)
    requires
        char_at(s, i, ':'),
        name_at(s, i + 1, v),
        d > 1,
    ensures
        gives(Peg::Call(Rule::node_label), s, i, false, d, i + 1 + v.len(), seq![t]),
        is_label(t, v),
{
    let d1 = (d - 1) as nat;
    let colon = Peg::Word(":");
    assert(body_of(Rule::node_label, true) == followed(colon, plain_name()));
    reveal_strlit(":");
    lemma_sign(s, i, ":", ':', false, d1);
    lemma_name_char(s, i + 1, v, 0);
    lemma_no_blank(s, i + 1);
    lemma_plain_name(s, i + 1, v, false, d1);
    let names = seq![name_node(Rule::ident, i + 1, v)];
    let end = i + 1 + v.len();
    lemma_then(colon, plain_name(), s, i, false, d1, i + 1, seq![], end, names);
    assert(Seq::<Tree>::empty() + names =~= names);
    lemma_call(Rule::node_label, s, i, false, d, end, names);
    node_for(Rule::node_label, s, i, end, names)
}

proof fn lemma_no_label(s: Seq<char>, i: int, d: nat)
    requires
        0 <= i,
        !char_at(s, i, ':'),
        d > 0,
    ensures
        fails(Peg::Call(Rule::node_label), s, i, false, d),
{
    assert(body_of(Rule::node_label, true) == followed(Peg::Word(":"), plain_name()));
    reveal_strlit(":");
    lemma_no_sign(s, i, ":", ':', plain_name(), false, (d - 1) as nat);
    lemma_call_fails(Rule::node_label, s, i, false, d);
}

proof fn lemma_no_labels(s: Seq<char>, i: int, d: nat)
    requires
        0 <= i,
        !char_at(s, i, ':'),
        d > 1,
    ensures
        fails(Peg::Call(Rule::node_labels), s, i, false, d),
{
    let label = Peg::Call(Rule::node_label);
    assert(body_of(Rule::node_labels, true) == followed(label, often(label)));
    lemma_no_label(s, i, (d - 1) as nat);
    lemma_then_fails(label, often(label), s, i, false, (d - 1) as nat);
    lemma_call_fails(Rule::node_labels, s, i, false, d);
}

/// Whether two labels stand at a place, each behind a colon.
pub open spec fn colons_at(s: Seq<char>, i: int, a: Seq<char>, b: Seq<char>) -> bool {
    let j = i + 1 + a.len();
    &&& char_at(s, i, ':')
    &&& name_at(s, i + 1, a)
    &&& char_at(s, j, ':')
    &&& name_at(s, j + 1, b)
    &&& char_at(s, j + 1 + b.len(), ')')
}

spec fn has_labels(t: Tree, a: Seq<char>, b: Seq<char>) -> bool {
    ||| t.rule == Rule::node_labels && t.children.len() == 2 && is_label(t.children[0], a)
        && is_label(t.children[1], b)
    ||| t.rule == Rule::gql_is_labels && t.children.len() == 3 && t.children[0].rule == Rule::kw_IS
        && t.children[1].rule == Rule::gql_label_name && t.children[1].text == a
        && t.children[2].rule == Rule::gql_label_name && t.children[2].text == b
}

proof fn lemma_colons(s: Seq<char>, i: int, a: Seq<char>, b: Seq<char>, d: nat) -> (t: Tree)
    requires
        colons_at(s, i, a, b),
        d > 2,
    ensures
        gives(
            Peg::Call(Rule::node_labels),
            s,
            i,
            false,
            d,
            i + 2 + a.len() + b.len(),
            seq![t],
        ),
        has_labels(t, a, b),
        t.rule == Rule::node_labels,
{
    let d1 = (d - 1) as nat;
    let label = Peg::Call(Rule::node_label);
    assert(body_of(Rule::node_labels, true) == followed(label, often(label)));
    let j = i + 1 + a.len();
    let end = j + 1 + b.len();
    let x = lemma_label(s, i, a, d1);
    let y = lemma_label(s, j, b, d1);
    lemma_no_blank(s, j);
    lemma_no_blank(s, end);
    lemma_no_label(s, end, d1);
    lemma_often_once(label, s, j, false, d1, end, seq![y]);
    lemma_then(label, often(label), s, i, false, d1, j, seq![x], end, seq![y]);
    lemma_call(Rule::node_labels, s, i, false, d, end, seq![x] + seq![y]);
    node_for(Rule::node_labels, s, i, end, seq![x] + seq![y])
}

/// Whether `IS` and a blank stand at a place.
pub open spec fn is_at(s: Seq<char>, i: int) -> bool {
    char_at(s, i, 'I') && char_at(s, i + 1, 'S') && char_at(s, i + 2, ' ')
}

pub proof fn lemma_is(s: Seq<char>, i: int, d: nat) -> (t: Tree)
    requires
        is_at(s, i),
        d > 0,
    ensures
        gives(Peg::Call(Rule::kw_IS), s, i, false, d, i + 2, seq![t]),
        t.rule == Rule::kw_IS,
{
    let d1 = (d - 1) as nat;
    let word = Peg::Word("IS");
    let not = Peg::Not(Box::new(Peg::One(Class::NamePart)));
    assert(body_of(Rule::kw_IS, true) == followed(word, not));
    reveal_strlit("IS");
    assert(word_at(s, "IS"@, i));
    lemma_word("IS", s, i, true, d1);
    lemma_one(Class::NamePart, s, i + 2, true, d1);
    lemma_not(Peg::One(Class::NamePart), s, i + 2, true, d1);
    lemma_then(word, not, s, i, true, d1, i + 2, seq![], i + 2, seq![]);
    lemma_call(Rule::kw_IS, s, i, false, d, i + 2, seq![] + seq![]);
    node_for(Rule::kw_IS, s, i, i + 2, seq![] + seq![])
}

proof fn lemma_no_is(s: Seq<char>, i: int, d: nat)
    requires
        0 <= i < s.len(),
        is_sign(s[i]),
        d > 0,
    ensures
        fails(Peg::Call(Rule::kw_IS), s, i, false, d),
{
    let word = Peg::Word("IS");
    let not = Peg::Not(Box::new(Peg::One(Class::NamePart)));
    assert(body_of(Rule::kw_IS, true) == followed(word, not));
    reveal_strlit("IS");
    assert(lower("IS"@[0]) != lower(s[i + 0]));
    lemma_word("IS", s, i, true, (d - 1) as nat);
    lemma_then_fails(word, not, s, i, true, (d - 1) as nat);
    lemma_call_fails(Rule::kw_IS, s, i, false, d);
}

/// Whether two labels stand behind `IS` at a place.
pub open spec fn is_labels_at(s: Seq<char>, i: int, a: Seq<char>, b: Seq<char>) -> bool {
    let j = i + 3 + a.len();
    &&& is_at(s, i)
    &&& name_at(s, i + 3, a)
    &&& char_at(s, j, ' ')
    &&& char_at(s, j + 1, '&')
    &&& char_at(s, j + 2, ' ')
    &&& name_at(s, j + 3, b)
    &&& char_at(s, j + 3 + b.len(), ')')
}

proof fn lemma_is_labels(s: Seq<char>, i: int, a: Seq<char>, b: Seq<char>, d: nat) -> (t: Tree)
    requires
        is_labels_at(s, i, a, b),
        d > 2,
    ensures
        gives(
            Peg::Call(Rule::gql_is_labels),
            s,
            i,
            false,
            d,
            i + 6 + a.len() + b.len(),
            seq![t],
        ),
        has_labels(t, a, b),
        t.rule == Rule::gql_is_labels,
{
    let d1 = (d - 1) as nat;
    let word = Peg::Call(Rule::kw_IS);
    let name = Peg::Call(Rule::gql_label_name);
    let and = Peg::Word("&");
    let more = followed(and, name);
    let names = followed(name, often(more));
    assert(body_of(Rule::gql_is_labels, true) == followed(word, names));
    let j = i + 3 + a.len();
    let end = j + 3 + b.len();
    let k = lemma_is(s, i, d1);
    lemma_name_char(s, i + 3, a, 0);
    lemma_blank(s, i + 2);
    lemma_name_token(Rule::gql_label_name, s, i + 3, a, false, d1);
    let x = name_node(Rule::gql_label_name, i + 3, a);
    lemma_blank(s, j);
    reveal_strlit("&");
    lemma_sign(s, j + 1, "&", '&', false, d1);
    lemma_name_char(s, j + 3, b, 0);
    lemma_blank(s, j + 2);
    lemma_name_token(Rule::gql_label_name, s, j + 3, b, false, d1);
    let y = name_node(Rule::gql_label_name, j + 3, b);
    lemma_then(and, name, s, j + 1, false, d1, j + 2, seq![], end, seq![y]);
    assert(Seq::<Tree>::empty() + seq![y] =~= seq![y]);
    lemma_no_blank(s, end);
    lemma_no_sign(s, end, "&", '&', name, false, d1);
    lemma_often_once(more, s, j + 1, false, d1, end, seq![y]);
    lemma_then(name, often(more), s, i + 3, false, d1, j, seq![x], end, seq![y]);
    lemma_then(word, names, s, i, false, d1, i + 2, seq![k], end, seq![x] + seq![y]);
    let nodes = seq![k] + (seq![x] + seq![y]);
    lemma_call(Rule::gql_is_labels, s, i, false, d, end, nodes);
    node_for(Rule::gql_is_labels, s, i, end, nodes)
}

proof fn lemma_no_is_labels(s: Seq<char>, i: int, d: nat)
    requires
        0 <= i < s.len(),
        is_sign(s[i]),
        d > 1,
    ensures
        fails(Peg::Call(Rule::gql_is_labels), s, i, false, d),
{
    let name = Peg::Call(Rule::gql_label_name);
    let names = followed(name, often(followed(Peg::Word("&"), name)));
    assert(body_of(Rule::gql_is_labels, true) == followed(Peg::Call(Rule::kw_IS), names));
    lemma_no_is(s, i, (d - 1) as nat);
    lemma_then_fails(Peg::Call(Rule::kw_IS), names, s, i, false, (d - 1) as nat);
    lemma_call_fails(Rule::gql_is_labels, s, i, false, d);
}

pub proof fn lemma_no_properties(s: Seq<char>, i: int, d: nat)
    requires
        0 <= i,
        !char_at(s, i, '{'),
        d > 1,
    ensures
        fails(Peg::Call(Rule::properties), s, i, false, d),
{
    let entry = Peg::Call(Rule::map_entry);
    let entries = followed(entry, often(followed(Peg::Word(","), entry)));
    let rest = followed(perhaps(entries), Peg::Word("}"));
    assert(body_of(Rule::map_literal, true) == followed(Peg::Word("{"), rest));
    assert(body_of(Rule::properties, true) == Peg::Call(Rule::map_literal));
    reveal_strlit("{");
    lemma_no_sign(s, i, "{", '{', rest, false, (d - 2) as nat);
    lemma_call_fails(Rule::map_literal, s, i, false, (d - 1) as nat);
    lemma_call_fails(Rule::properties, s, i, false, d);
}

// ── Nodes ────────────────────────────────────────────────────────────────────

/// The node pattern that the labels make.
pub open spec fn labelled_node(n: Seq<char>, a: Seq<char>, b: Seq<char>) -> m::PatternElement {
    m::PatternElement::Node(
        m::NodePattern {
            variable: Some(unquoted(n)),
            labels: seq![unquoted(a), unquoted(b)],
            properties: None,
        },
    )
}

proof fn lemma_node_meaning(t: Tree, n: Seq<char>, a: Seq<char>, b: Seq<char>)
    requires
        t.children.len() == 2,
        is_variable(t.children[0], n),
        has_labels(t.children[1], a, b),
    ensures
        node_pattern_in(t, true) == Ok::<m::PatternElement, Fault>(labelled_node(n, a, b)),
{
    let l = t.children[1];
    reveal_with_fuel(index_from, 4);
    assert(at(t, Rule::variable) == 0);
    assert(at(t, Rule::properties) == -1);
    reveal_with_fuel(labels_from, 4);
    reveal_with_fuel(texts_from, 4);
    if l.rule == Rule::node_labels {
        assert(at(t, Rule::node_labels) == 1);
        assert(at(t, Rule::gql_is_labels) == -1);
        assert(labels_in(t, true) =~= seq![unquoted(a), unquoted(b)]);
    } else {
        assert(at(t, Rule::node_labels) == -1);
        assert(at(t, Rule::gql_is_labels) == 1);
        assert(is_labels_in(t) =~= seq![unquoted(a), unquoted(b)]);
    }
    assert(labels_in(t, true) + is_labels_in(t) =~= seq![unquoted(a), unquoted(b)]);
}

proof fn lemma_node(
    s: Seq<char>,
    i: int,
    v: Tree,
    e1: int,
    e2: int,
    x: Seq<Tree>,
    e3: int,
    y: Seq<Tree>,
    d: nat,
) -> (t: Tree)
    requires
        d > 2,
        char_at(s, i, '('),
        i + 1 < s.len(),
        !is_white(s[i + 1]),
        s[i + 1] != '/',
        gives(Peg::Call(Rule::variable), s, i + 1, false, (d - 1) as nat, e1, seq![v]),
        gives(
            perhaps(Peg::Call(Rule::node_labels)),
            s,
            next_part(s, e1, false),
            false,
            (d - 1) as nat,
            e2,
            x,
        ),
        gives(
            perhaps(Peg::Call(Rule::gql_is_labels)),
            s,
            next_part(s, e2, false),
            false,
            (d - 1) as nat,
            e3,
            y,
        ),
        char_at(s, e3, ')'),
    ensures
        gives(Peg::Call(Rule::node_pattern), s, i, false, d, e3 + 1, seq![t]),
        t.rule == Rule::node_pattern,
        t.children == seen_from(seq![v] + (x + y), i),
{
    let d1 = (d - 1) as nat;
    let open = Peg::Word("(");
    let close = Peg::Word(")");
    let variable = perhaps(Peg::Call(Rule::variable));
    let labels = perhaps(Peg::Call(Rule::node_labels));
    let is = perhaps(Peg::Call(Rule::gql_is_labels));
    let properties = perhaps(Peg::Call(Rule::properties));
    let p5 = followed(properties, close);
    let p4 = followed(is, p5);
    let p3 = followed(labels, p4);
    let p2 = followed(variable, p3);
    assert(body_of(Rule::node_pattern, true) == followed(open, p2));
    reveal_strlit("(");
    reveal_strlit(")");
    let none = Seq::<Tree>::empty();
    lemma_sign(s, i, "(", '(', false, d1);
    lemma_no_blank(s, i + 1);
    lemma_perhaps(Peg::Call(Rule::variable), s, i + 1, false, d1, e1, seq![v]);
    lemma_no_blank(s, e3);
    lemma_no_properties(s, e3, d1);
    lemma_perhaps_not(Peg::Call(Rule::properties), s, e3, false, d1);
    lemma_sign(s, e3, ")", ')', false, d1);
    lemma_then(properties, close, s, e3, false, d1, e3, none, e3 + 1, none);
    assert(none + none =~= none);
    lemma_then(is, p5, s, next_part(s, e2, false), false, d1, e3, y, e3 + 1, none);
    assert(y + none =~= y);
    lemma_then(labels, p4, s, next_part(s, e1, false), false, d1, e2, x, e3 + 1, y);
    lemma_then(variable, p3, s, i + 1, false, d1, e1, seq![v], e3 + 1, x + y);
    lemma_then(open, p2, s, i, false, d1, i + 1, none, e3 + 1, seq![v] + (x + y));
    assert(none + (seq![v] + (x + y)) =~= seq![v] + (x + y));
    lemma_call(Rule::node_pattern, s, i, false, d, e3 + 1, seq![v] + (x + y));
    node_for(Rule::node_pattern, s, i, e3 + 1, seq![v] + (x + y))
}

pub proof fn lemma_colon_node(
    s: Seq<char>,
    i: int,
    n: Seq<char>,
    a: Seq<char>,
    b: Seq<char>,
    d: nat,
) -> (t: Tree)
    requires
        d > 4,
        char_at(s, i, '('),
        name_at(s, i + 1, n),
        is_variable_name(n),
        colons_at(s, i + 1 + n.len(), a, b),
    ensures
        gives(
            Peg::Call(Rule::node_pattern),
            s,
            i,
            false,
            d,
            i + 4 + n.len() + a.len() + b.len(),
            seq![t],
        ),
        t.rule == Rule::node_pattern,
        node_pattern_in(t, true) == Ok::<m::PatternElement, Fault>(labelled_node(n, a, b)),
{
    let d1 = (d - 1) as nat;
    let e1 = i + 1 + n.len();
    let e2 = e1 + 2 + a.len() + b.len();
    lemma_name_char(s, i + 1, n, 0);
    let v = lemma_variable(s, i + 1, n, d1);
    lemma_no_blank(s, e1);
    let l = lemma_colons(s, e1, a, b, d1);
    lemma_perhaps(Peg::Call(Rule::node_labels), s, e1, false, d1, e2, seq![l]);
    lemma_no_blank(s, e2);
    lemma_no_is_labels(s, e2, d1);
    lemma_perhaps_not(Peg::Call(Rule::gql_is_labels), s, e2, false, d1);
    let t = lemma_node(s, i, v, e1, e2, seq![l], e2, seq![], d);
    assert(seq![v] + (seq![l] + Seq::<Tree>::empty()) =~= seq![v, l]);
    lemma_node_meaning(t, n, a, b);
    t
}

pub proof fn lemma_is_node(
    s: Seq<char>,
    i: int,
    n: Seq<char>,
    a: Seq<char>,
    b: Seq<char>,
    d: nat,
) -> (t: Tree)
    requires
        d > 4,
        char_at(s, i, '('),
        name_at(s, i + 1, n),
        is_variable_name(n),
        char_at(s, i + 1 + n.len(), ' '),
        is_labels_at(s, i + 2 + n.len(), a, b),
    ensures
        gives(
            Peg::Call(Rule::node_pattern),
            s,
            i,
            false,
            d,
            i + 9 + n.len() + a.len() + b.len(),
            seq![t],
        ),
        t.rule == Rule::node_pattern,
        node_pattern_in(t, true) == Ok::<m::PatternElement, Fault>(labelled_node(n, a, b)),
{
    let d1 = (d - 1) as nat;
    let e1 = i + 1 + n.len();
    let e2 = e1 + 1;
    let e3 = e2 + 6 + a.len() + b.len();
    lemma_name_char(s, i + 1, n, 0);
    let v = lemma_variable(s, i + 1, n, d1);
    lemma_blank(s, e1);
    lemma_no_labels(s, e2, d1);
    lemma_perhaps_not(Peg::Call(Rule::node_labels), s, e2, false, d1);
    lemma_no_blank(s, e2);
    let l = lemma_is_labels(s, e2, a, b, d1);
    lemma_perhaps(Peg::Call(Rule::gql_is_labels), s, e2, false, d1, e3, seq![l]);
    let t = lemma_node(s, i, v, e1, e2, seq![], e3, seq![l], d);
    assert(seq![v] + (Seq::<Tree>::empty() + seq![l]) =~= seq![v, l]);
    lemma_node_meaning(t, n, a, b);
    t
}

/// A variable in brackets is a node.
pub proof fn lemma_plain_node(s: Seq<char>, i: int, n: Seq<char>, d: nat) -> (t: Tree)
    requires
        d > 4,
        char_at(s, i, '('),
        name_at(s, i + 1, n),
        is_variable_name(n),
        char_at(s, i + 1 + n.len(), ')'),
    ensures
        gives(Peg::Call(Rule::node_pattern), s, i, false, d, i + 2 + n.len(), seq![t]),
        t.rule == Rule::node_pattern,
        node_pattern_in(t, true) is Ok,
{
    let d1 = (d - 1) as nat;
    let e = i + 1 + n.len();
    lemma_name_char(s, i + 1, n, 0);
    let v = lemma_variable(s, i + 1, n, d1);
    lemma_no_blank(s, e);
    lemma_no_labels(s, e, d1);
    lemma_perhaps_not(Peg::Call(Rule::node_labels), s, e, false, d1);
    lemma_no_is_labels(s, e, d1);
    lemma_perhaps_not(Peg::Call(Rule::gql_is_labels), s, e, false, d1);
    let t = lemma_node(s, i, v, e, e, seq![], e, seq![], d);
    assert(seq![v] + (Seq::<Tree>::empty() + Seq::<Tree>::empty()) =~= seq![v]);
    reveal_with_fuel(index_from, 3);
    assert(at(t, Rule::variable) == 0 && at(t, Rule::properties) == -1);
    t
}

} // verus!
