//! Queries that return a variable: in GQL they are parsed.
use vstd::prelude::*;

#[allow(unused_imports)]
use crate::ast::model as m;
#[allow(unused_imports)]
use crate::parser::error::Fault;
#[allow(unused_imports)]
use crate::parser::grammar::{any6, body_of, is_token, keyword, reserved_words};
#[allow(unused_imports)]
use crate::parser::laws::labels::{
    is_variable_name, lemma_no_keyword, lemma_variable, only_keywords,
};
#[allow(unused_imports)]
use crate::parser::laws::steps::{
    char_at, fails, followed, gives, lemma_blank, lemma_call, lemma_call_fails, lemma_name_char,
    lemma_no_blank, lemma_no_sign, lemma_not, lemma_not_fails, lemma_often_not, lemma_one,
    lemma_or_failed, lemma_or_fails, lemma_or_first, lemma_or_second, lemma_perhaps_not,
    lemma_sign, lemma_then, lemma_then_fails, lemma_then_fails_late, lemma_word, name_at,
    node_for, often, or, perhaps,
};
#[allow(unused_imports)]
use crate::parser::meaning::{
    arithmetic_in, atom_in, comparison_in, connected_in, expression_in, items_from, not_in,
    operand_in, postfixed_in, power_in, projection_in, return_in, return_item_in, return_items_in,
    term_in, unary_in, Arithmetic, Connective,
};
#[allow(unused_imports)]
use crate::parser::peg::{blank_end, in_class, word_at, Class, Peg};
#[allow(unused_imports)]
use crate::parser::tree::{at, index_from, seen_from, Rule, Tree};
#[allow(unused_imports)]
use crate::text::{is_white, lower};

verus! {

// ── The end of a text ────────────────────────────────────────────────────────

/// Whether an expression cannot match without a character.
pub open spec fn wants(p: Peg, d: nat) -> bool
    decreases d, p,
{
    match p {
        Peg::Word(w) => w@.len() > 0,
        Peg::One(k) => true,
        Peg::Call(r) => d > 0 && wants(body_of(r, true), (d - 1) as nat),
        Peg::Then(f, g) => wants(*f, d) || (spares(*f, d) && wants(*g, d)),
        Peg::Or(f, g) => wants(*f, d) && wants(*g, d),
        _ => false,
    }
}

/// Whether an expression matches nothing where there is nothing.
pub open spec fn spares(p: Peg, d: nat) -> bool
    decreases d, p,
{
    match p {
        Peg::Maybe(f) => wants(*f, d),
        Peg::Many(f) => wants(*f, d),
        _ => false,
    }
}

/// At the end of a text, what wants a character fails.
pub proof fn lemma_wants(p: Peg, s: Seq<char>, token: bool, d: nat)
    requires
        wants(p, d),
    ensures
        fails(p, s, s.len() as int, token, d),
    decreases d, p,
{
    let i = s.len() as int;
    match p {
        Peg::Word(w) => {
            lemma_word(w, s, i, token, d);
        },
        Peg::One(k) => {
            lemma_one(k, s, i, token, d);
        },
        Peg::Call(r) => {
            lemma_wants(body_of(r, true), s, token || is_token(r), (d - 1) as nat);
            lemma_call_fails(r, s, i, token, d);
        },
        Peg::Then(f, g) => {
            if wants(*f, d) {
                lemma_wants(*f, s, token, d);
                lemma_then_fails(*f, *g, s, i, token, d);
            } else {
                lemma_spares(*f, s, token, d);
                lemma_wants(*g, s, token, d);
                lemma_then_fails_late(*f, *g, s, i, token, d, i, seq![]);
            }
        },
        Peg::Or(f, g) => {
            lemma_wants(*f, s, token, d);
            lemma_wants(*g, s, token, d);
            lemma_or_fails(*f, *g, s, i, token, d);
        },
        _ => {},
    }
}

proof fn lemma_spares(p: Peg, s: Seq<char>, token: bool, d: nat)
    requires
        spares(p, d),
    ensures
        gives(p, s, s.len() as int, token, d, s.len() as int, seq![]),
    decreases d, p,
{
    let i = s.len() as int;
    match p {
        Peg::Maybe(f) => {
            lemma_wants(*f, s, token, d);
            lemma_perhaps_not(*f, s, i, token, d);
        },
        Peg::Many(f) => {
            lemma_wants(*f, s, token, d);
            lemma_often_not(*f, s, i, token, d);
        },
        _ => {},
    }
}

proof fn lemma_wants_keyword(r: Rule, w: &'static str, d: nat)
    requires
        body_of(r, true) == keyword(w),
        w@.len() > 0,
        d > 0,
    ensures
        wants(Peg::Call(r), d),
{
    let not = Peg::Not(Box::new(Peg::One(Class::NamePart)));
    let d1 = (d - 1) as nat;
    assert(keyword(w) == followed(Peg::Word(w), not));
    assert(wants(Peg::Word(w), d1));
    assert(wants(followed(Peg::Word(w), not), d1));
}

proof fn lemma_wants_then(f: Peg, g: Peg, d: nat)
    requires
        wants(f, d),
    ensures
        wants(followed(f, g), d),
{
}

proof fn lemma_wants_or(f: Peg, g: Peg, d: nat)
    requires
        wants(f, d),
        wants(g, d),
    ensures
        wants(or(f, g), d),
{
}

proof fn lemma_wants_call(r: Rule, d: nat)
    requires
        d > 0,
        wants(body_of(r, true), (d - 1) as nat),
    ensures
        wants(Peg::Call(r), d),
{
}

/// A rule that begins with a keyword.
proof fn lemma_wants_led(r: Rule, k: Rule, w: &'static str, rest: Peg, d: nat)
    requires
        body_of(r, true) == followed(Peg::Call(k), rest),
        body_of(k, true) == keyword(w),
        w@.len() > 0,
        d > 1,
    ensures
        wants(Peg::Call(r), d),
{
    lemma_wants_keyword(k, w, (d - 1) as nat);
    lemma_wants_then(Peg::Call(k), rest, (d - 1) as nat);
    lemma_wants_call(r, d);
}

/// A rule that begins with a keyword behind another that may be left out.
proof fn lemma_wants_marked(
    r: Rule,
    marker: Rule,
    k1: Rule,
    w1: &'static str,
    k2: Rule,
    w2: &'static str,
    rest: Peg,
    d: nat,
)
    requires
        body_of(r, true) == followed(perhaps(Peg::Call(marker)), followed(Peg::Call(k2), rest)),
        body_of(marker, true) == Peg::Call(k1),
        body_of(k1, true) == keyword(w1),
        body_of(k2, true) == keyword(w2),
        w1@.len() > 0,
        w2@.len() > 0,
        d > 2,
    ensures
        wants(Peg::Call(r), d),
{
    let d1 = (d - 1) as nat;
    lemma_wants_keyword(k1, w1, (d - 2) as nat);
    lemma_wants_call(marker, d1);
    lemma_wants_keyword(k2, w2, d1);
    lemma_wants_then(Peg::Call(k2), rest, d1);
    assert(spares(perhaps(Peg::Call(marker)), d1));
    assert(wants(body_of(r, true), d1));
    lemma_wants_call(r, d);
}

proof fn lemma_wants_clause(d: nat)
    requires
        d > 4,
    ensures
        wants(Peg::Call(Rule::clause), d),
{
    let d1 = (d - 1) as nat;
    let expression = Peg::Call(Rule::expression);
    reveal_strlit("OPTIONAL");
    reveal_strlit("MATCH");
    reveal_strlit("WHERE");
    reveal_strlit("FILTER");
    reveal_strlit("RETURN");
    reveal_strlit("NEXT");
    reveal_strlit("UNWIND");
    reveal_strlit("CREATE");
    reveal_strlit("MERGE");
    reveal_strlit("SET");
    reveal_strlit("DETACH");
    reveal_strlit("DELETE");
    reveal_strlit("REMOVE");
    reveal_strlit("CALL");
    let rest = *(*body_of(Rule::match_clause, true)->Then_1)->Then_1;
    lemma_wants_marked(
        Rule::match_clause,
        Rule::optional_marker,
        Rule::kw_OPTIONAL,
        "OPTIONAL",
        Rule::kw_MATCH,
        "MATCH",
        rest,
        d1,
    );
    lemma_wants_keyword(Rule::kw_WHERE, "WHERE", (d - 2) as nat);
    lemma_wants_keyword(Rule::kw_FILTER, "FILTER", (d - 2) as nat);
    lemma_wants_or(Peg::Call(Rule::kw_WHERE), Peg::Call(Rule::kw_FILTER), (d - 2) as nat);
    let either = or(Peg::Call(Rule::kw_WHERE), Peg::Call(Rule::kw_FILTER));
    assert(body_of(Rule::filter_clause, true) == followed(either, expression));
    lemma_wants_then(either, expression, (d - 2) as nat);
    lemma_wants_call(Rule::filter_clause, d1);
    let rest = *body_of(Rule::return_clause, true)->Then_1;
    lemma_wants_led(Rule::return_clause, Rule::kw_RETURN, "RETURN", rest, d1);
    let rest = *body_of(Rule::next_clause, true)->Then_1;
    lemma_wants_led(Rule::next_clause, Rule::kw_NEXT, "NEXT", rest, d1);
    let rest = *body_of(Rule::unwind_clause, true)->Then_1;
    lemma_wants_led(Rule::unwind_clause, Rule::kw_UNWIND, "UNWIND", rest, d1);
    let rest = *body_of(Rule::create_clause, true)->Then_1;
    lemma_wants_led(Rule::create_clause, Rule::kw_CREATE, "CREATE", rest, d1);
    let rest = *body_of(Rule::merge_clause, true)->Then_1;
    lemma_wants_led(Rule::merge_clause, Rule::kw_MERGE, "MERGE", rest, d1);
    let rest = *body_of(Rule::set_clause, true)->Then_1;
    lemma_wants_led(Rule::set_clause, Rule::kw_SET, "SET", rest, d1);
    let rest = *(*body_of(Rule::delete_clause, true)->Then_1)->Then_1;
    lemma_wants_marked(
        Rule::delete_clause,
        Rule::detach_marker,
        Rule::kw_DETACH,
        "DETACH",
        Rule::kw_DELETE,
        "DELETE",
        rest,
        d1,
    );
    let rest = *body_of(Rule::remove_clause, true)->Then_1;
    lemma_wants_led(Rule::remove_clause, Rule::kw_REMOVE, "REMOVE", rest, d1);
    let rest = *body_of(Rule::call_clause, true)->Then_1;
    lemma_wants_led(Rule::call_clause, Rule::kw_CALL, "CALL", rest, d1);
    let p = or(Peg::Call(Rule::remove_clause), Peg::Call(Rule::call_clause));
    lemma_wants_or(Peg::Call(Rule::remove_clause), Peg::Call(Rule::call_clause), d1);
    lemma_wants_or(Peg::Call(Rule::delete_clause), p, d1);
    let p = or(Peg::Call(Rule::delete_clause), p);
    lemma_wants_or(Peg::Call(Rule::set_clause), p, d1);
    let p = or(Peg::Call(Rule::set_clause), p);
    lemma_wants_or(Peg::Call(Rule::merge_clause), p, d1);
    let p = or(Peg::Call(Rule::merge_clause), p);
    lemma_wants_or(Peg::Call(Rule::create_clause), p, d1);
    let p = or(Peg::Call(Rule::create_clause), p);
    lemma_wants_or(Peg::Call(Rule::unwind_clause), p, d1);
    let p = or(Peg::Call(Rule::unwind_clause), p);
    lemma_wants_or(Peg::Call(Rule::next_clause), p, d1);
    let p = or(Peg::Call(Rule::next_clause), p);
    lemma_wants_or(Peg::Call(Rule::return_clause), p, d1);
    let p = or(Peg::Call(Rule::return_clause), p);
    lemma_wants_or(Peg::Call(Rule::filter_clause), p, d1);
    let p = or(Peg::Call(Rule::filter_clause), p);
    lemma_wants_or(Peg::Call(Rule::match_clause), p, d1);
    let p = or(Peg::Call(Rule::match_clause), p);
    assert(body_of(Rule::clause, true) == p);
    lemma_wants_call(Rule::clause, d);
}

proof fn lemma_wants_suffix(d: nat)
    requires
        d > 4,
    ensures
        wants(Peg::Call(Rule::comparison_suffix), d),
{
    let d1 = (d - 1) as nat;
    let sum = Peg::Call(Rule::add_sub_expr);
    reveal_strlit("<>");
    reveal_strlit("<=");
    reveal_strlit(">=");
    reveal_strlit("=");
    reveal_strlit("<");
    reveal_strlit(">");
    reveal_strlit("IS");
    reveal_strlit("IN");
    reveal_strlit("STARTS");
    reveal_strlit("ENDS");
    reveal_strlit("CONTAINS");
    let d2 = (d - 2) as nat;
    let p = or(Peg::Word("<"), Peg::Word(">"));
    lemma_wants_or(Peg::Word("<"), Peg::Word(">"), d2);
    lemma_wants_or(Peg::Word("="), p, d2);
    let p = or(Peg::Word("="), p);
    lemma_wants_or(Peg::Word(">="), p, d2);
    let p = or(Peg::Word(">="), p);
    lemma_wants_or(Peg::Word("<="), p, d2);
    let p = or(Peg::Word("<="), p);
    lemma_wants_or(Peg::Word("<>"), p, d2);
    let p = or(Peg::Word("<>"), p);
    assert(body_of(Rule::comp_op, true) == p);
    lemma_wants_call(Rule::comp_op, d1);
    lemma_wants_keyword(Rule::kw_IS, "IS", d1);
    lemma_wants_keyword(Rule::kw_IN, "IN", d1);
    lemma_wants_keyword(Rule::kw_STARTS, "STARTS", d1);
    lemma_wants_keyword(Rule::kw_ENDS, "ENDS", d1);
    lemma_wants_keyword(Rule::kw_CONTAINS, "CONTAINS", d1);
    let null = Peg::Call(Rule::kw_NULL);
    let with = followed(Peg::Call(Rule::kw_WITH_kw), sum);
    let not_null = followed(Peg::Call(Rule::kw_NOT), null);
    let p1 = followed(Peg::Call(Rule::comp_op), sum);
    lemma_wants_then(Peg::Call(Rule::comp_op), sum, d1);
    let p2 = followed(Peg::Call(Rule::kw_IS), not_null);
    lemma_wants_then(Peg::Call(Rule::kw_IS), not_null, d1);
    let p3 = followed(Peg::Call(Rule::kw_IS), null);
    lemma_wants_then(Peg::Call(Rule::kw_IS), null, d1);
    let p4 = followed(Peg::Call(Rule::kw_IN), sum);
    lemma_wants_then(Peg::Call(Rule::kw_IN), sum, d1);
    let p5 = followed(Peg::Call(Rule::kw_STARTS), with);
    lemma_wants_then(Peg::Call(Rule::kw_STARTS), with, d1);
    let p6 = followed(Peg::Call(Rule::kw_ENDS), with);
    lemma_wants_then(Peg::Call(Rule::kw_ENDS), with, d1);
    let p7 = followed(Peg::Call(Rule::kw_CONTAINS), sum);
    lemma_wants_then(Peg::Call(Rule::kw_CONTAINS), sum, d1);
    lemma_wants_or(p6, p7, d1);
    lemma_wants_or(p5, or(p6, p7), d1);
    lemma_wants_or(p4, or(p5, or(p6, p7)), d1);
    lemma_wants_or(p3, or(p4, or(p5, or(p6, p7))), d1);
    lemma_wants_or(p2, or(p3, or(p4, or(p5, or(p6, p7)))), d1);
    lemma_wants_or(p1, or(p2, or(p3, or(p4, or(p5, or(p6, p7))))), d1);
    assert(body_of(Rule::comparison_suffix, true) == or(
        p1,
        or(p2, or(p3, or(p4, or(p5, or(p6, p7))))),
    ));
    lemma_wants_call(Rule::comparison_suffix, d);
}

// ── A variable at the end of a text ──────────────────────────────────────────

/// Whether a variable stands at a place, and the text ends behind it.
pub open spec fn ends_with(s: Seq<char>, i: int, v: Seq<char>) -> bool {
    name_at(s, i, v) && is_variable_name(v) && i + v.len() == s.len()
}

proof fn lemma_first_char(s: Seq<char>, i: int, v: Seq<char>)
    requires
        ends_with(s, i, v),
    ensures
        0 <= i < s.len(),
        in_class(s[i], Class::NameStart),
        !is_white(s[i]),
        s[i] != '/',
{
    lemma_name_char(s, i, v, 0);
}

/// A keyword stands where a name does only if it is the whole name.
proof fn lemma_keyword_or_not(p: Peg, s: Seq<char>, i: int, v: Seq<char>, d: nat)
    requires
        only_keywords(p),
        name_at(s, i, v),
        i + v.len() == s.len(),
    ensures
        fails(p, s, i, true, d) || gives(p, s, i, true, d, s.len() as int, seq![]),
    decreases p,
{
    match p {
        Peg::Or(f, g) => {
            lemma_keyword_or_not(*f, s, i, v, d);
            lemma_keyword_or_not(*g, s, i, v, d);
            if fails(*f, s, i, true, d) {
                if fails(*g, s, i, true, d) {
                    lemma_or_fails(*f, *g, s, i, true, d);
                } else {
                    lemma_or_second(*f, *g, s, i, true, d, s.len() as int, seq![]);
                }
            } else {
                lemma_or_first(*f, *g, s, i, true, d, s.len() as int, seq![]);
            }
        },
        Peg::Then(f, g) => {
            let t = f->Word_0;
            let n = t@.len() as int;
            let part = Peg::One(Class::NamePart);
            lemma_word(t, s, i, true, d);
            if word_at(s, t@, i) {
                lemma_one(Class::NamePart, s, i + n, true, d);
                if n < v.len() {
                    lemma_name_char(s, i, v, n);
                    lemma_not_fails(part, s, i + n, true, d, i + n + 1, seq![]);
                    lemma_then_fails_late(*f, *g, s, i, true, d, i + n, seq![]);
                } else {
                    lemma_not(part, s, i + n, true, d);
                    lemma_then(*f, *g, s, i, true, d, i + n, seq![], i + n, seq![]);
                    assert(Seq::<Tree>::empty() + Seq::<Tree>::empty() =~= seq![]);
                }
            } else {
                lemma_then_fails(*f, *g, s, i, true, d);
            }
        },
        _ => {},
    }
}

proof fn lemma_six_failed(a: Peg, b: Peg, c: Peg, e: Peg, f: Peg, g: Peg, v: Seq<char>)
    requires
        fails(any6(a, b, c, e, f, g), v, 0, true, 0),
    ensures
        fails(a, v, 0, true, 0),
        fails(b, v, 0, true, 0),
        fails(c, v, 0, true, 0),
        fails(e, v, 0, true, 0),
        fails(f, v, 0, true, 0),
        fails(g, v, 0, true, 0),
{
    let p5 = or(f, g);
    let p4 = or(e, p5);
    let p3 = or(c, p4);
    let p2 = or(b, p3);
    lemma_or_failed(a, p2, v, 0, true, 0);
    lemma_or_failed(b, p3, v, 0, true, 0);
    lemma_or_failed(c, p4, v, 0, true, 0);
    lemma_or_failed(e, p5, v, 0, true, 0);
    lemma_or_failed(f, g, v, 0, true, 0);
}

/// A name that is no reserved word is none of these.
proof fn lemma_not_reserved(v: Seq<char>)
    requires
        is_variable_name(v),
    ensures
        fails(keyword("DISTINCT"), v, 0, true, 0),
        fails(keyword("FALSE"), v, 0, true, 0),
        fails(keyword("NOT"), v, 0, true, 0),
        fails(keyword("NULL"), v, 0, true, 0),
        fails(keyword("TRUE"), v, 0, true, 0),
{
    reveal(is_variable_name);
    let p7 = any6(
        keyword("UNION"),
        keyword("UNWIND"),
        keyword("WHEN"),
        keyword("WHERE"),
        keyword("WITH"),
        keyword("XOR"),
    );
    let p6 = any6(
        keyword("SET"),
        keyword("SKIP"),
        keyword("STARTS"),
        keyword("THEN"),
        keyword("TRUE"),
        p7,
    );
    let p5 = any6(
        keyword("OPTIONAL"),
        keyword("OR"),
        keyword("ORDER"),
        keyword("REMOVE"),
        keyword("RETURN"),
        p6,
    );
    let p4 = any6(
        keyword("MATCH"),
        keyword("MERGE"),
        keyword("NOT"),
        keyword("NULL"),
        keyword("ON"),
        p5,
    );
    let p3 = any6(
        keyword("ENDS"),
        keyword("FALSE"),
        keyword("IN"),
        keyword("IS"),
        keyword("LIMIT"),
        p4,
    );
    let p2 = any6(
        keyword("DESCENDING"),
        keyword("DETACH"),
        keyword("DISTINCT"),
        keyword("ELSE"),
        keyword("END"),
        p3,
    );
    let p1 = any6(
        keyword("CASE"),
        keyword("CONTAINS"),
        keyword("CREATE"),
        keyword("DELETE"),
        keyword("DESC"),
        p2,
    );
    let p0 = any6(
        keyword("AND"),
        keyword("AS"),
        keyword("ASC"),
        keyword("ASCENDING"),
        keyword("BY"),
        p1,
    );
    assert(p0 == reserved_words());
    lemma_six_failed(
        keyword("AND"),
        keyword("AS"),
        keyword("ASC"),
        keyword("ASCENDING"),
        keyword("BY"),
        p1,
        v,
    );
    lemma_six_failed(
        keyword("CASE"),
        keyword("CONTAINS"),
        keyword("CREATE"),
        keyword("DELETE"),
        keyword("DESC"),
        p2,
        v,
    );
    lemma_six_failed(
        keyword("DESCENDING"),
        keyword("DETACH"),
        keyword("DISTINCT"),
        keyword("ELSE"),
        keyword("END"),
        p3,
        v,
    );
    lemma_six_failed(
        keyword("ENDS"),
        keyword("FALSE"),
        keyword("IN"),
        keyword("IS"),
        keyword("LIMIT"),
        p4,
        v,
    );
    lemma_six_failed(
        keyword("MATCH"),
        keyword("MERGE"),
        keyword("NOT"),
        keyword("NULL"),
        keyword("ON"),
        p5,
        v,
    );
    lemma_six_failed(
        keyword("OPTIONAL"),
        keyword("OR"),
        keyword("ORDER"),
        keyword("REMOVE"),
        keyword("RETURN"),
        p6,
        v,
    );
    lemma_six_failed(
        keyword("SET"),
        keyword("SKIP"),
        keyword("STARTS"),
        keyword("THEN"),
        keyword("TRUE"),
        p7,
        v,
    );
}

/// None of these keywords stands where the variable does.
proof fn lemma_no_reserved(w: &'static str, s: Seq<char>, i: int, v: Seq<char>, d: nat)
    requires
        ends_with(s, i, v),
        w == "DISTINCT" || w == "FALSE" || w == "NOT" || w == "NULL" || w == "TRUE",
    ensures
        fails(keyword(w), s, i, true, d),
{
    lemma_not_reserved(v);
    reveal_strlit("DISTINCT");
    reveal_strlit("FALSE");
    reveal_strlit("NOT");
    reveal_strlit("NULL");
    reveal_strlit("TRUE");
    assert(only_keywords(keyword(w)));
    lemma_no_keyword(keyword(w), s, i, v, d);
}

// ── Expressions ──────────────────────────────────────────────────────────────

/// Whether a node has one node below it, apart from where that stands.
spec fn holds_only(t: Tree, r: Rule, x: Tree) -> bool {
    &&& t.rule == r
    &&& t.children.len() == 1
    &&& t.children[0].rule == x.rule
    &&& t.children[0].text == x.text
    &&& t.children[0].children == x.children
}

/// A rule with one part, and what may follow it at the end of the text.
proof fn lemma_level(
    r: Rule,
    sub: Rule,
    tail: Peg,
    s: Seq<char>,
    i: int,
    d: nat,
    x: Tree,
) -> (t: Tree)
    requires
        d > 0,
        !is_token(r),
        body_of(r, true) == followed(Peg::Call(sub), tail),
        spares(tail, (d - 1) as nat),
        gives(Peg::Call(sub), s, i, false, (d - 1) as nat, s.len() as int, seq![x]),
    ensures
        gives(Peg::Call(r), s, i, false, d, s.len() as int, seq![t]),
        holds_only(t, r, x),
{
    let d1 = (d - 1) as nat;
    let end = s.len() as int;
    lemma_spares(tail, s, false, d1);
    lemma_then(Peg::Call(sub), tail, s, i, false, d1, end, seq![x], end, seq![]);
    assert(seq![x] + Seq::<Tree>::empty() =~= seq![x]);
    lemma_call(r, s, i, false, d, end, seq![x]);
    node_for(r, s, i, end, seq![x])
}

/// A rule that is another.
proof fn lemma_wraps(r: Rule, s: Seq<char>, i: int, d: nat, x: Tree) -> (t: Tree)
    requires
        d > 0,
        !is_token(r),
        gives(body_of(r, true), s, i, false, (d - 1) as nat, s.len() as int, seq![x]),
    ensures
        gives(Peg::Call(r), s, i, false, d, s.len() as int, seq![t]),
        holds_only(t, r, x),
{
    lemma_call(r, s, i, false, d, s.len() as int, seq![x]);
    node_for(r, s, i, s.len() as int, seq![x])
}

proof fn lemma_no_numbers(s: Seq<char>, i: int, v: Seq<char>, d: nat)
    requires
        ends_with(s, i, v),
        d > 0,
    ensures
        fails(Peg::Call(Rule::float_literal), s, i, false, d),
        fails(Peg::Call(Rule::integer_literal), s, i, false, d),
        fails(Peg::Call(Rule::string_literal), s, i, false, d),
{
    let d1 = (d - 1) as nat;
    lemma_first_char(s, i, v);
    let digit = Peg::One(Class::Digit);
    lemma_one(Class::Digit, s, i, true, d1);
    let digits = followed(digit, often(digit));
    lemma_then_fails(digit, often(digit), s, i, true, d1);
    assert(body_of(Rule::integer_literal, true) == digits);
    lemma_call_fails(Rule::integer_literal, s, i, false, d);
    let body = body_of(Rule::float_literal, true);
    let first = *body->Or_0;
    let second = *body->Or_1;
    let point = *first->Then_1;
    assert(body == or(first, second));
    assert(first == followed(perhaps(digits), point));
    assert(point == followed(Peg::Word("."), *point->Then_1));
    assert(second == followed(digits, *second->Then_1));
    lemma_perhaps_not(digits, s, i, true, d1);
    reveal_strlit(".");
    lemma_no_sign(s, i, ".", '.', *point->Then_1, true, d1);
    lemma_then_fails_late(perhaps(digits), point, s, i, true, d1, i, seq![]);
    lemma_then_fails(digits, *second->Then_1, s, i, true, d1);
    lemma_or_fails(first, second, s, i, true, d1);
    lemma_call_fails(Rule::float_literal, s, i, false, d);
    let body = body_of(Rule::string_literal, true);
    let first = *body->Or_0;
    let second = *body->Or_1;
    assert(body == or(first, second));
    assert(first == followed(Peg::Word("'"), *first->Then_1));
    assert(second == followed(Peg::Word("\""), *second->Then_1));
    reveal_strlit("'");
    reveal_strlit("\"");
    lemma_no_sign(s, i, "'", '\'', *first->Then_1, true, d1);
    lemma_no_sign(s, i, "\"", '"', *second->Then_1, true, d1);
    lemma_or_fails(first, second, s, i, true, d1);
    lemma_call_fails(Rule::string_literal, s, i, false, d);
}

proof fn lemma_no_constants(s: Seq<char>, i: int, v: Seq<char>, d: nat)
    requires
        ends_with(s, i, v),
        d > 0,
    ensures
        fails(Peg::Call(Rule::boolean_literal), s, i, false, d),
        fails(Peg::Call(Rule::null_literal), s, i, false, d),
{
    let d1 = (d - 1) as nat;
    lemma_no_reserved("TRUE", s, i, v, d1);
    lemma_no_reserved("FALSE", s, i, v, d1);
    lemma_no_reserved("NULL", s, i, v, d1);
    assert(body_of(Rule::boolean_literal, true) == or(keyword("TRUE"), keyword("FALSE")));
    lemma_or_fails(keyword("TRUE"), keyword("FALSE"), s, i, true, d1);
    lemma_call_fails(Rule::boolean_literal, s, i, false, d);
    assert(body_of(Rule::null_literal, true) == keyword("NULL"));
    lemma_call_fails(Rule::null_literal, s, i, false, d);
}

/// A token of keywords, behind which a bracket is wanted, does not end a text.
proof fn lemma_no_call(k: Rule, r: Rule, rest: Peg, s: Seq<char>, i: int, v: Seq<char>, d: nat)
    requires
        ends_with(s, i, v),
        d > 1,
        is_token(k),
        !is_token(r),
        only_keywords(body_of(k, true)),
        body_of(r, true) == followed(Peg::Call(k), followed(Peg::Word("("), rest)),
    ensures
        fails(Peg::Call(r), s, i, false, d),
{
    let d1 = (d - 1) as nat;
    let d2 = (d - 2) as nat;
    let end = s.len() as int;
    let after = followed(Peg::Word("("), rest);
    lemma_keyword_or_not(body_of(k, true), s, i, v, d2);
    if fails(body_of(k, true), s, i, true, d2) {
        lemma_call_fails(k, s, i, false, d1);
        lemma_then_fails(Peg::Call(k), after, s, i, false, d1);
    } else {
        lemma_call(k, s, i, false, d1, end, seq![]);
        reveal_strlit("(");
        lemma_no_sign(s, end, "(", '(', rest, false, d1);
        let x = seq![node_for(k, s, i, end, seq![])];
        lemma_then_fails_late(Peg::Call(k), after, s, i, false, d1, end, x);
    }
    lemma_call_fails(r, s, i, false, d);
}

proof fn lemma_no_aggregate(s: Seq<char>, i: int, v: Seq<char>, d: nat)
    requires
        ends_with(s, i, v),
        d > 2,
    ensures
        fails(Peg::Call(Rule::aggregate_expr), s, i, false, d),
{
    let d1 = (d - 1) as nat;
    reveal_strlit("COUNT");
    reveal_strlit("SUM");
    reveal_strlit("AVG");
    reveal_strlit("MIN");
    reveal_strlit("MAX");
    reveal_strlit("COLLECT");
    assert(body_of(Rule::kw_COUNT, true) == keyword("COUNT"));
    assert(only_keywords(keyword("COUNT")));
    let p = or(keyword("MAX"), keyword("COLLECT"));
    assert(only_keywords(keyword("MAX")) && only_keywords(keyword("COLLECT")));
    assert(only_keywords(p));
    assert(only_keywords(keyword("MIN")));
    let p = or(keyword("MIN"), p);
    assert(only_keywords(p));
    assert(only_keywords(keyword("AVG")));
    let p = or(keyword("AVG"), p);
    assert(only_keywords(p));
    assert(only_keywords(keyword("SUM")));
    let p = or(keyword("SUM"), p);
    assert(only_keywords(p));
    assert(body_of(Rule::agg_func_name, true) == p);
    let rest = *(*body_of(Rule::count_expr, true)->Then_1)->Then_1;
    lemma_no_call(Rule::kw_COUNT, Rule::count_expr, rest, s, i, v, d1);
    let rest = *(*body_of(Rule::agg_call_expr, true)->Then_1)->Then_1;
    lemma_no_call(Rule::agg_func_name, Rule::agg_call_expr, rest, s, i, v, d1);
    let count = Peg::Call(Rule::count_expr);
    let other = Peg::Call(Rule::agg_call_expr);
    assert(body_of(Rule::aggregate_expr, true) == or(count, other));
    lemma_or_fails(count, other, s, i, false, d1);
    lemma_call_fails(Rule::aggregate_expr, s, i, false, d);
}

proof fn lemma_no_brackets(s: Seq<char>, i: int, v: Seq<char>, d: nat)
    requires
        ends_with(s, i, v),
        d > 0,
    ensures
        fails(Peg::Call(Rule::list_literal), s, i, false, d),
        fails(Peg::Call(Rule::map_literal), s, i, false, d),
        fails(
            followed(
                Peg::Word("("),
                followed(Peg::Call(Rule::expression), Peg::Word(")")),
            ),
            s,
            i,
            false,
            d,
        ),
{
    let d1 = (d - 1) as nat;
    lemma_first_char(s, i, v);
    reveal_strlit("[");
    reveal_strlit("{");
    reveal_strlit("(");
    let rest = *body_of(Rule::list_literal, true)->Then_1;
    assert(body_of(Rule::list_literal, true) == followed(Peg::Word("["), rest));
    lemma_no_sign(s, i, "[", '[', rest, false, d1);
    lemma_call_fails(Rule::list_literal, s, i, false, d);
    let rest = *body_of(Rule::map_literal, true)->Then_1;
    assert(body_of(Rule::map_literal, true) == followed(Peg::Word("{"), rest));
    lemma_no_sign(s, i, "{", '{', rest, false, d1);
    lemma_call_fails(Rule::map_literal, s, i, false, d);
    let rest = followed(Peg::Call(Rule::expression), Peg::Word(")"));
    lemma_no_sign(s, i, "(", '(', rest, false, d);
}

proof fn lemma_atom(s: Seq<char>, i: int, v: Seq<char>, d: nat) -> (t: Tree)
    requires
        ends_with(s, i, v),
        d > 4,
    ensures
        gives(Peg::Call(Rule::atom), s, i, false, d, s.len() as int, seq![t]),
        t.rule == Rule::atom,
        atom_in(t, true) is Ok,
{
    let d1 = (d - 1) as nat;
    let end = s.len() as int;
    let x = lemma_variable(s, i, v, d1);
    lemma_no_numbers(s, i, v, d1);
    lemma_no_constants(s, i, v, d1);
    lemma_no_aggregate(s, i, v, d1);
    lemma_no_brackets(s, i, v, d1);
    let variable = Peg::Call(Rule::variable);
    let inner = followed(
        Peg::Word("("),
        followed(Peg::Call(Rule::expression), Peg::Word(")")),
    );
    let p = or(inner, variable);
    lemma_or_second(inner, variable, s, i, false, d1, end, seq![x]);
    lemma_or_second(Peg::Call(Rule::map_literal), p, s, i, false, d1, end, seq![x]);
    let p = or(Peg::Call(Rule::map_literal), p);
    lemma_or_second(Peg::Call(Rule::list_literal), p, s, i, false, d1, end, seq![x]);
    let p = or(Peg::Call(Rule::list_literal), p);
    lemma_or_second(Peg::Call(Rule::aggregate_expr), p, s, i, false, d1, end, seq![x]);
    let p = or(Peg::Call(Rule::aggregate_expr), p);
    lemma_or_second(Peg::Call(Rule::null_literal), p, s, i, false, d1, end, seq![x]);
    let p = or(Peg::Call(Rule::null_literal), p);
    lemma_or_second(Peg::Call(Rule::boolean_literal), p, s, i, false, d1, end, seq![x]);
    let p = or(Peg::Call(Rule::boolean_literal), p);
    lemma_or_second(Peg::Call(Rule::string_literal), p, s, i, false, d1, end, seq![x]);
    let p = or(Peg::Call(Rule::string_literal), p);
    lemma_or_second(Peg::Call(Rule::integer_literal), p, s, i, false, d1, end, seq![x]);
    let p = or(Peg::Call(Rule::integer_literal), p);
    lemma_or_second(Peg::Call(Rule::float_literal), p, s, i, false, d1, end, seq![x]);
    let p = or(Peg::Call(Rule::float_literal), p);
    assert(body_of(Rule::atom, true) == p);
    lemma_wraps(Rule::atom, s, i, d, x)
}

proof fn lemma_unary(s: Seq<char>, i: int, v: Seq<char>, d: nat) -> (t: Tree)
    requires
        ends_with(s, i, v),
        d > 8,
    ensures
        gives(Peg::Call(Rule::unary_expr), s, i, false, d, s.len() as int, seq![t]),
        t.rule == Rule::unary_expr,
        unary_in(t, true) is Ok,
{
    let end = s.len() as int;
    let d1 = (d - 1) as nat;
    let d2 = (d - 2) as nat;
    let d3 = (d - 3) as nat;
    let a = lemma_atom(s, i, v, d3);
    reveal_strlit(".");
    let lookup = Peg::Call(Rule::property_lookup);
    lemma_wants_then(Peg::Word("."), Peg::Call(Rule::prop_name), (d - 4) as nat);
    lemma_wants_call(Rule::property_lookup, d3);
    assert(body_of(Rule::prop_expr, true) == followed(Peg::Call(Rule::atom), often(lookup)));
    let b = lemma_level(Rule::prop_expr, Rule::atom, often(lookup), s, i, d2, a);
    assert(atom_in(b.children[0], true) == atom_in(a, true));
    assert(postfixed_in(b, true) is Ok);
    reveal_strlit("^");
    let power = followed(Peg::Word("^"), Peg::Call(Rule::unary_expr));
    lemma_wants_then(Peg::Word("^"), Peg::Call(Rule::unary_expr), d2);
    assert(body_of(Rule::power_expr, true) == followed(Peg::Call(Rule::prop_expr), perhaps(power)));
    let c = lemma_level(Rule::power_expr, Rule::prop_expr, perhaps(power), s, i, d1, b);
    assert(postfixed_in(c.children[0], true) == postfixed_in(b, true));
    assert(power_in(c, true) is Ok);
    lemma_first_char(s, i, v);
    reveal_strlit("-");
    lemma_no_sign(s, i, "-", '-', Peg::Call(Rule::unary_expr), false, d2);
    assert(body_of(Rule::unary_minus, true) == followed(
        Peg::Word("-"),
        Peg::Call(Rule::unary_expr),
    ));
    lemma_call_fails(Rule::unary_minus, s, i, false, d1);
    let minus = Peg::Call(Rule::unary_minus);
    let plain = Peg::Call(Rule::power_expr);
    assert(body_of(Rule::unary_expr, true) == or(minus, plain));
    lemma_or_second(minus, plain, s, i, false, d1, end, seq![c]);
    let t = lemma_wraps(Rule::unary_expr, s, i, d, c);
    assert(power_in(t.children[0], true) == power_in(c, true));
    t
}

proof fn lemma_sum(s: Seq<char>, i: int, v: Seq<char>, d: nat) -> (t: Tree)
    requires
        ends_with(s, i, v),
        d > 10,
    ensures
        gives(Peg::Call(Rule::add_sub_expr), s, i, false, d, s.len() as int, seq![t]),
        t.rule == Rule::add_sub_expr,
        arithmetic_in(t, Arithmetic::Sum, true) is Ok,
{
    let d1 = (d - 1) as nat;
    let d2 = (d - 2) as nat;
    let d3 = (d - 3) as nat;
    let a = lemma_unary(s, i, v, d2);
    reveal_strlit("*");
    reveal_strlit("/");
    reveal_strlit("%");
    reveal_strlit("+");
    reveal_strlit("-");
    lemma_wants_or(Peg::Word("/"), Peg::Word("%"), d3);
    lemma_wants_or(Peg::Word("*"), or(Peg::Word("/"), Peg::Word("%")), d3);
    assert(body_of(Rule::mul_div_op, true) == or(
        Peg::Word("*"),
        or(Peg::Word("/"), Peg::Word("%")),
    ));
    lemma_wants_call(Rule::mul_div_op, d2);
    let unary = Peg::Call(Rule::unary_expr);
    let more = followed(Peg::Call(Rule::mul_div_op), unary);
    lemma_wants_then(Peg::Call(Rule::mul_div_op), unary, d2);
    assert(body_of(Rule::mul_div_expr, true) == followed(unary, often(more)));
    let b = lemma_level(Rule::mul_div_expr, Rule::unary_expr, often(more), s, i, d1, a);
    assert(unary_in(b.children[0], true) == unary_in(a, true));
    assert(term_in(b.children[0], Arithmetic::Product, true) is Ok);
    assert(arithmetic_in(b, Arithmetic::Product, true) is Ok);
    lemma_wants_or(Peg::Word("+"), Peg::Word("-"), d2);
    assert(body_of(Rule::add_sub_op, true) == or(Peg::Word("+"), Peg::Word("-")));
    lemma_wants_call(Rule::add_sub_op, d1);
    let product = Peg::Call(Rule::mul_div_expr);
    let more = followed(Peg::Call(Rule::add_sub_op), product);
    lemma_wants_then(Peg::Call(Rule::add_sub_op), product, d1);
    assert(body_of(Rule::add_sub_expr, true) == followed(product, often(more)));
    let t = lemma_level(Rule::add_sub_expr, Rule::mul_div_expr, often(more), s, i, d, b);
    assert(arithmetic_in(t.children[0], Arithmetic::Product, true) == arithmetic_in(
        b,
        Arithmetic::Product,
        true,
    ));
    assert(term_in(t.children[0], Arithmetic::Sum, true) is Ok);
    t
}

proof fn lemma_not_expr(s: Seq<char>, i: int, v: Seq<char>, d: nat) -> (t: Tree)
    requires
        ends_with(s, i, v),
        d > 12,
    ensures
        gives(Peg::Call(Rule::not_expr), s, i, false, d, s.len() as int, seq![t]),
        t.rule == Rule::not_expr,
        not_in(t, true) is Ok,
{
    let end = s.len() as int;
    let d1 = (d - 1) as nat;
    let d2 = (d - 2) as nat;
    let a = lemma_sum(s, i, v, d2);
    lemma_wants_suffix(d2);
    let suffix = perhaps(Peg::Call(Rule::comparison_suffix));
    assert(body_of(Rule::comparison_expr, true) == followed(
        Peg::Call(Rule::add_sub_expr),
        suffix,
    ));
    let b = lemma_level(Rule::comparison_expr, Rule::add_sub_expr, suffix, s, i, d1, a);
    assert(arithmetic_in(b.children[0], Arithmetic::Sum, true) == arithmetic_in(
        a,
        Arithmetic::Sum,
        true,
    ));
    assert(comparison_in(b, true) is Ok);
    lemma_no_reserved("NOT", s, i, v, d2);
    assert(body_of(Rule::kw_NOT, true) == keyword("NOT"));
    lemma_call_fails(Rule::kw_NOT, s, i, false, d1);
    let not = Peg::Call(Rule::kw_NOT);
    let again = Peg::Call(Rule::not_expr);
    let plain = Peg::Call(Rule::comparison_expr);
    assert(body_of(Rule::not_expr, true) == or(followed(not, again), plain));
    lemma_then_fails(not, again, s, i, false, d1);
    lemma_or_second(followed(not, again), plain, s, i, false, d1, end, seq![b]);
    let t = lemma_wraps(Rule::not_expr, s, i, d, b);
    assert(comparison_in(t.children[0], true) == comparison_in(b, true));
    t
}

proof fn lemma_connective(
    r: Rule,
    sub: Rule,
    k: Rule,
    w: &'static str,
    s: Seq<char>,
    i: int,
    d: nat,
    x: Tree,
) -> (t: Tree)
    requires
        d > 1,
        !is_token(r),
        body_of(r, true) == followed(
            Peg::Call(sub),
            often(followed(Peg::Call(k), Peg::Call(sub))),
        ),
        body_of(k, true) == keyword(w),
        w@.len() > 0,
        gives(Peg::Call(sub), s, i, false, (d - 1) as nat, s.len() as int, seq![x]),
    ensures
        gives(Peg::Call(r), s, i, false, d, s.len() as int, seq![t]),
        holds_only(t, r, x),
{
    let d1 = (d - 1) as nat;
    lemma_wants_keyword(k, w, d1);
    lemma_wants_then(Peg::Call(k), Peg::Call(sub), d1);
    lemma_level(r, sub, often(followed(Peg::Call(k), Peg::Call(sub))), s, i, d, x)
}

proof fn lemma_connected(t: Tree, c: Connective, e: m::Expression)
    requires
        t.children.len() == 1,
        t.children[0].rule == crate::parser::meaning::operand_rule(c),
        operand_in(t.children[0], c, true) == Ok::<m::Expression, Fault>(e),
    ensures
        connected_in(t.children, 0, None, c, true) is Ok,
{
    let ch = t.children;
    let acc = Some(crate::parser::meaning::joined(None, c, e));
    assert(connected_in(ch, 1, acc, c, true) is Ok);
}

proof fn lemma_expression(s: Seq<char>, i: int, v: Seq<char>, d: nat) -> (t: Tree)
    requires
        ends_with(s, i, v),
        d > 16,
    ensures
        gives(Peg::Call(Rule::expression), s, i, false, d, s.len() as int, seq![t]),
        t.rule == Rule::expression,
        expression_in(t, true) is Ok,
{
    let a = lemma_not_expr(s, i, v, (d - 4) as nat);
    reveal_strlit("AND");
    reveal_strlit("XOR");
    reveal_strlit("OR");
    let b = lemma_connective(
        Rule::and_expr,
        Rule::not_expr,
        Rule::kw_AND,
        "AND",
        s,
        i,
        (d - 3) as nat,
        a,
    );
    assert(not_in(b.children[0], true) == not_in(a, true));
    lemma_connected(b, Connective::And, not_in(a, true)->Ok_0);
    let c = lemma_connective(
        Rule::xor_expr,
        Rule::and_expr,
        Rule::kw_XOR,
        "XOR",
        s,
        i,
        (d - 2) as nat,
        b,
    );
    let e = connected_in(b.children, 0, None, Connective::And, true)->Ok_0;
    assert(operand_in(c.children[0], Connective::Xor, true) == Ok::<m::Expression, Fault>(e));
    lemma_connected(c, Connective::Xor, e);
    let f = lemma_connective(
        Rule::or_expr,
        Rule::xor_expr,
        Rule::kw_OR,
        "OR",
        s,
        i,
        (d - 1) as nat,
        c,
    );
    let e = connected_in(c.children, 0, None, Connective::Xor, true)->Ok_0;
    assert(operand_in(f.children[0], Connective::Or, true) == Ok::<m::Expression, Fault>(e));
    lemma_connected(f, Connective::Or, e);
    assert(body_of(Rule::expression, true) == Peg::Call(Rule::or_expr));
    lemma_wraps(Rule::expression, s, i, d, f)
}

// ── Results ──────────────────────────────────────────────────────────────────

proof fn lemma_items(s: Seq<char>, i: int, v: Seq<char>, d: nat) -> (t: Tree)
    requires
        ends_with(s, i, v),
        d > 19,
    ensures
        gives(Peg::Call(Rule::explicit_items), s, i, false, d, s.len() as int, seq![t]),
        t.rule == Rule::explicit_items,
        items_from(t.children, 0, true) is Ok,
{
    let d1 = (d - 1) as nat;
    let d2 = (d - 2) as nat;
    let a = lemma_expression(s, i, v, d2);
    reveal_strlit("AS");
    reveal_strlit(",");
    let name = followed(Peg::Call(Rule::kw_AS), Peg::Call(Rule::variable));
    lemma_wants_keyword(Rule::kw_AS, "AS", d2);
    lemma_wants_then(Peg::Call(Rule::kw_AS), Peg::Call(Rule::variable), d2);
    assert(body_of(Rule::return_item, true) == followed(
        Peg::Call(Rule::expression),
        perhaps(name),
    ));
    let b = lemma_level(Rule::return_item, Rule::expression, perhaps(name), s, i, d1, a);
    reveal_with_fuel(index_from, 3);
    assert(at(b, Rule::expression) == 0 && at(b, Rule::kw_AS) == -1);
    assert(expression_in(b.children[0], true) == expression_in(a, true));
    assert(return_item_in(b, true) is Ok);
    let item = Peg::Call(Rule::return_item);
    let more = followed(Peg::Word(","), item);
    lemma_wants_then(Peg::Word(","), item, d1);
    assert(body_of(Rule::explicit_items, true) == followed(item, often(more)));
    let t = lemma_level(Rule::explicit_items, Rule::return_item, often(more), s, i, d, b);
    assert(at(t.children[0], Rule::expression) == 0 && at(t.children[0], Rule::kw_AS) == -1);
    assert(return_item_in(t.children[0], true) == return_item_in(b, true));
    assert(items_from(t.children, 1, true) is Ok);
    t
}

proof fn lemma_body(s: Seq<char>, i: int, v: Seq<char>, d: nat) -> (t: Tree)
    requires
        ends_with(s, i, v),
        d > 22,
    ensures
        gives(Peg::Call(Rule::return_body), s, i, false, d, s.len() as int, seq![t]),
        t.rule == Rule::return_body,
        projection_in(t, true) is Ok,
{
    let end = s.len() as int;
    let d1 = (d - 1) as nat;
    let d2 = (d - 2) as nat;
    let d3 = (d - 3) as nat;
    lemma_first_char(s, i, v);
    let a = lemma_items(s, i, v, d2);
    let star = Peg::Call(Rule::star_projection);
    let explicit = Peg::Call(Rule::explicit_items);
    reveal_strlit("*");
    assert(body_of(Rule::star_projection, true) == Peg::Word("*"));
    lemma_sign(s, i, "*", '*', true, d3);
    lemma_call_fails(Rule::star_projection, s, i, false, d2);
    assert(body_of(Rule::return_items, true) == or(star, explicit));
    lemma_or_second(star, explicit, s, i, false, d2, end, seq![a]);
    let b = lemma_wraps(Rule::return_items, s, i, d1, a);
    lemma_no_reserved("DISTINCT", s, i, v, d3);
    assert(body_of(Rule::kw_DISTINCT, true) == keyword("DISTINCT"));
    lemma_call_fails(Rule::kw_DISTINCT, s, i, false, d2);
    assert(body_of(Rule::distinct_marker, true) == Peg::Call(Rule::kw_DISTINCT));
    lemma_call_fails(Rule::distinct_marker, s, i, false, d1);
    let distinct = Peg::Call(Rule::distinct_marker);
    let items = Peg::Call(Rule::return_items);
    lemma_perhaps_not(distinct, s, i, false, d1);
    lemma_no_blank(s, i);
    assert(body_of(Rule::return_body, true) == followed(perhaps(distinct), items));
    lemma_then(perhaps(distinct), items, s, i, false, d1, i, seq![], end, seq![b]);
    assert(Seq::<Tree>::empty() + seq![b] =~= seq![b]);
    let t = lemma_wraps(Rule::return_body, s, i, d, b);
    reveal_with_fuel(index_from, 3);
    assert(at(t, Rule::return_items) == 0);
    assert(t.children[0].children[0].children == a.children);
    assert(return_items_in(t, true) is Ok);
    assert(at(t, Rule::order_by_clause) == -1 && at(t, Rule::skip_clause) == -1 && at(
        t,
        Rule::limit_clause,
    ) == -1);
    t
}

/// Whether `RETURN` and a variable stand at a place, and the text ends behind them.
pub open spec fn returns_at(s: Seq<char>, i: int, v: Seq<char>) -> bool {
    &&& char_at(s, i, 'R') && char_at(s, i + 1, 'E') && char_at(s, i + 2, 'T')
    &&& char_at(s, i + 3, 'U') && char_at(s, i + 4, 'R') && char_at(s, i + 5, 'N')
    &&& char_at(s, i + 6, ' ')
    &&& ends_with(s, i + 7, v)
}

proof fn lemma_return_word(s: Seq<char>, i: int, v: Seq<char>, d: nat) -> (t: Tree)
    requires
        returns_at(s, i, v),
        d > 0,
    ensures
        gives(Peg::Call(Rule::kw_RETURN), s, i, false, d, i + 6, seq![t]),
        t.rule == Rule::kw_RETURN,
        blank_end(s, i + 6) == i + 7,
{
    let d1 = (d - 1) as nat;
    let word = Peg::Word("RETURN");
    let not = Peg::Not(Box::new(Peg::One(Class::NamePart)));
    assert(body_of(Rule::kw_RETURN, true) == followed(word, not));
    reveal_strlit("RETURN");
    assert(word_at(s, "RETURN"@, i)) by {
        let w = "RETURN"@;
        assert forall|k: int| 0 <= k < w.len() implies lower(#[trigger] w[k]) == lower(s[i + k]) by {
            assert(k == 0 || k == 1 || k == 2 || k == 3 || k == 4 || k == 5);
        }
    }
    lemma_word("RETURN", s, i, true, d1);
    lemma_one(Class::NamePart, s, i + 6, true, d1);
    lemma_not(Peg::One(Class::NamePart), s, i + 6, true, d1);
    lemma_then(word, not, s, i, true, d1, i + 6, seq![], i + 6, seq![]);
    lemma_call(Rule::kw_RETURN, s, i, false, d, i + 6, seq![] + seq![]);
    lemma_first_char(s, i + 7, v);
    lemma_blank(s, i + 6);
    node_for(Rule::kw_RETURN, s, i, i + 6, seq![] + seq![])
}

/// What may follow the results does not stand at the end of a text.
proof fn lemma_no_order(s: Seq<char>, d: nat)
    requires
        d > 2,
    ensures
        gives(
            followed(
                perhaps(Peg::Call(Rule::order_by_clause)),
                followed(
                    perhaps(Peg::Call(Rule::skip_clause)),
                    perhaps(Peg::Call(Rule::limit_clause)),
                ),
            ),
            s,
            s.len() as int,
            false,
            d,
            s.len() as int,
            seq![],
        ),
{
    let end = s.len() as int;
    let none = Seq::<Tree>::empty();
    reveal_strlit("ORDER");
    reveal_strlit("SKIP");
    reveal_strlit("LIMIT");
    let rest = *body_of(Rule::order_by_clause, true)->Then_1;
    lemma_wants_led(Rule::order_by_clause, Rule::kw_ORDER, "ORDER", rest, d);
    let rest = *body_of(Rule::skip_clause, true)->Then_1;
    lemma_wants_led(Rule::skip_clause, Rule::kw_SKIP, "SKIP", rest, d);
    let rest = *body_of(Rule::limit_clause, true)->Then_1;
    lemma_wants_led(Rule::limit_clause, Rule::kw_LIMIT, "LIMIT", rest, d);
    let order = perhaps(Peg::Call(Rule::order_by_clause));
    let skip = perhaps(Peg::Call(Rule::skip_clause));
    let limit = perhaps(Peg::Call(Rule::limit_clause));
    lemma_spares(order, s, false, d);
    lemma_spares(skip, s, false, d);
    lemma_spares(limit, s, false, d);
    assert(none + none =~= none);
    lemma_then(skip, limit, s, end, false, d, end, none, end, none);
    lemma_then(order, followed(skip, limit), s, end, false, d, end, none, end, none);
}

/// `RETURN` with a variable is parsed.
pub proof fn lemma_return(s: Seq<char>, i: int, v: Seq<char>, d: nat) -> (t: Tree)
    requires
        returns_at(s, i, v),
        d > 23,
    ensures
        gives(Peg::Call(Rule::return_clause), s, i, false, d, s.len() as int, seq![t]),
        t.rule == Rule::return_clause,
        return_in(t, true) is Ok,
{
    let end = s.len() as int;
    let d1 = (d - 1) as nat;
    let none = Seq::<Tree>::empty();
    let k = lemma_return_word(s, i, v, d1);
    let b = lemma_body(s, i + 7, v, d1);
    lemma_no_order(s, d1);
    let word = Peg::Call(Rule::kw_RETURN);
    let body = Peg::Call(Rule::return_body);
    let tail = followed(
        perhaps(Peg::Call(Rule::order_by_clause)),
        followed(
            perhaps(Peg::Call(Rule::skip_clause)),
            perhaps(Peg::Call(Rule::limit_clause)),
        ),
    );
    assert(body_of(Rule::return_clause, true) == followed(word, followed(body, tail)));
    lemma_then(body, tail, s, i + 7, false, d1, end, seq![b], end, none);
    assert(seq![b] + none =~= seq![b]);
    lemma_then(word, followed(body, tail), s, i, false, d1, i + 6, seq![k], end, seq![b]);
    let nodes = seq![k] + seq![b];
    lemma_call(Rule::return_clause, s, i, false, d, end, nodes);
    let t = node_for(Rule::return_clause, s, i, end, nodes);
    assert(t.children =~= seen_from(seq![k, b], i));
    reveal_with_fuel(index_from, 4);
    assert(at(t, Rule::return_body) == 1);
    assert(at(t, Rule::order_by_clause) == -1 && at(t, Rule::skip_clause) == -1 && at(
        t,
        Rule::limit_clause,
    ) == -1);
    lemma_same_projection(t.children[1], b);
    t
}

proof fn lemma_same_projection(t: Tree, u: Tree)
    requires
        t.children == u.children,
    ensures
        projection_in(t, true) == projection_in(u, true),
{
    assert(return_items_in(t, true) == return_items_in(u, true));
}

/// A rule that begins with a keyword does not stand where another letter does.
pub proof fn lemma_other_keyword(k: Rule, w: &'static str, s: Seq<char>, i: int, d: nat)
    requires
        body_of(k, true) == keyword(w),
        w@.len() > 0,
        0 <= i < s.len(),
        lower(w@[0]) != lower(s[i]),
        is_token(k),
        d > 0,
    ensures
        fails(Peg::Call(k), s, i, false, d),
{
    let d1 = (d - 1) as nat;
    let not = Peg::Not(Box::new(Peg::One(Class::NamePart)));
    if word_at(s, w@, i) {
        assert(lower(w@[0]) == lower(s[i + 0]));
    }
    lemma_word(w, s, i, true, d1);
    lemma_then_fails(Peg::Word(w), not, s, i, true, d1);
    lemma_call_fails(k, s, i, false, d);
}

/// No other clause stands where `RETURN` does, and none at the end of a text.
pub proof fn lemma_return_clause(s: Seq<char>, i: int, v: Seq<char>, d: nat) -> (t: Tree)
    requires
        returns_at(s, i, v),
        d > 24,
    ensures
        gives(Peg::Call(Rule::clause), s, i, false, d, s.len() as int, seq![t]),
        fails(Peg::Call(Rule::clause), s, s.len() as int, false, d),
        t.rule == Rule::clause,
        t.children.len() == 1,
        t.children[0].rule == Rule::return_clause,
        return_in(t.children[0], true) is Ok,
{
    let end = s.len() as int;
    let d1 = (d - 1) as nat;
    let d2 = (d - 2) as nat;
    lemma_wants_clause(d);
    lemma_wants(Peg::Call(Rule::clause), s, false, d);
    let a = lemma_return(s, i, v, d1);
    reveal_strlit("OPTIONAL");
    reveal_strlit("MATCH");
    reveal_strlit("WHERE");
    reveal_strlit("FILTER");
    lemma_other_keyword(Rule::kw_OPTIONAL, "OPTIONAL", s, i, (d - 3) as nat);
    lemma_other_keyword(Rule::kw_MATCH, "MATCH", s, i, d2);
    lemma_other_keyword(Rule::kw_WHERE, "WHERE", s, i, d2);
    lemma_other_keyword(Rule::kw_FILTER, "FILTER", s, i, d2);
    let marker = Peg::Call(Rule::optional_marker);
    let word = Peg::Call(Rule::kw_MATCH);
    let rest = *(*body_of(Rule::match_clause, true)->Then_1)->Then_1;
    assert(body_of(Rule::match_clause, true) == followed(perhaps(marker), followed(word, rest)));
    assert(body_of(Rule::optional_marker, true) == Peg::Call(Rule::kw_OPTIONAL));
    lemma_call_fails(Rule::optional_marker, s, i, false, d2);
    lemma_perhaps_not(marker, s, i, false, d2);
    lemma_no_blank(s, i);
    lemma_then_fails(word, rest, s, i, false, d2);
    lemma_then_fails_late(perhaps(marker), followed(word, rest), s, i, false, d2, i, seq![]);
    lemma_call_fails(Rule::match_clause, s, i, false, d1);
    let either = or(Peg::Call(Rule::kw_WHERE), Peg::Call(Rule::kw_FILTER));
    let expression = Peg::Call(Rule::expression);
    assert(body_of(Rule::filter_clause, true) == followed(either, expression));
    lemma_or_fails(Peg::Call(Rule::kw_WHERE), Peg::Call(Rule::kw_FILTER), s, i, false, d2);
    lemma_then_fails(either, expression, s, i, false, d2);
    lemma_call_fails(Rule::filter_clause, s, i, false, d1);
    let body = body_of(Rule::clause, true);
    let p1 = *body->Or_1;
    let p2 = *p1->Or_1;
    let p3 = *p2->Or_1;
    let first = Peg::Call(Rule::match_clause);
    let second = Peg::Call(Rule::filter_clause);
    let third = Peg::Call(Rule::return_clause);
    assert(body == or(first, p1) && p1 == or(second, p2) && p2 == or(third, p3));
    lemma_or_first(third, p3, s, i, false, d1, end, seq![a]);
    lemma_or_second(second, p2, s, i, false, d1, end, seq![a]);
    lemma_or_second(first, p1, s, i, false, d1, end, seq![a]);
    let t = lemma_wraps(Rule::clause, s, i, d, a);
    lemma_same_return(t.children[0], a);
    t
}

proof fn lemma_same_return(t: Tree, u: Tree)
    requires
        t.children == u.children,
    ensures
        return_in(t, true) == return_in(u, true),
{
}

} // verus!
