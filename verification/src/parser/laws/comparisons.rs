//! What the suffixes of comparisons say.
use vstd::prelude::*;

#[allow(unused_imports)]
use crate::ast::cypher::CompOp;
#[allow(unused_imports)]
use crate::ast::model as m;
#[allow(unused_imports)]
use crate::parser::error::Built;
#[allow(unused_imports)]
use crate::parser::grammar::{body_of, is_token};
#[allow(unused_imports)]
use crate::parser::laws::keywords::rule_at;
#[allow(unused_imports)]
use crate::parser::laws::operators::{lemma_found_sign, lemma_rule_of, like};
#[allow(unused_imports)]
use crate::parser::laws::places::{
    keyword_at, lemma_found_keyword, lemma_once, lemma_run, lemma_word_at, lemma_yields,
    refuses, split_both, split_called, split_either, split_maybe, split_often, yields,
};
#[allow(unused_imports)]
use crate::parser::laws::steps::{followed, often, or, perhaps};
#[allow(unused_imports)]
use crate::parser::meaning::{
    arithmetic_in, binary_in, chains, comp_op_in, compared_in, comparison_in, suffix_in,
    suffixes_in, Arithmetic,
};
#[allow(unused_imports)]
use crate::parser::peg::{blank_end, word_at, Class, Peg};
#[allow(unused_imports)]
use crate::parser::tree::{holds, seen_from, Rule, Tree};
#[allow(unused_imports)]
use crate::text::{lower, lower_text};

verus! {

// ── Signs ────────────────────────────────────────────────────────────────────

/// The comparison whose sign stands at a place.
pub open spec fn sign_at(s: Seq<char>, i: int) -> Option<CompOp> {
    if !(0 <= i < s.len()) {
        None
    } else {
        let more = i + 1 < s.len();
        if s[i] == '<' {
            if more && s[i + 1] == '>' {
                Some(CompOp::Ne)
            } else if more && s[i + 1] == '=' {
                Some(CompOp::Le)
            } else {
                Some(CompOp::Lt)
            }
        } else if s[i] == '>' {
            if more && s[i + 1] == '=' {
                Some(CompOp::Ge)
            } else {
                Some(CompOp::Gt)
            }
        } else if s[i] == '=' {
            Some(CompOp::Eq)
        } else {
            None
        }
    }
}

/// How long the sign of a comparison is.
pub open spec fn sign_len(op: CompOp) -> int {
    match op {
        CompOp::Ne => 2,
        CompOp::Le => 2,
        CompOp::Ge => 2,
        _ => 1,
    }
}

proof fn lemma_signs()
    ensures
        "<>"@ =~= seq!['<', '>'],
        "<="@ =~= seq!['<', '='],
        ">="@ =~= seq!['>', '='],
        "="@ =~= seq!['='],
        "<"@ =~= seq!['<'],
        ">"@ =~= seq!['>'],
        "=~"@ =~= seq!['=', '~'],
{
    reveal_strlit("<>");
    reveal_strlit("<=");
    reveal_strlit(">=");
    reveal_strlit("=");
    reveal_strlit("<");
    reveal_strlit(">");
    reveal_strlit("=~");
}

proof fn lemma_two_signs(s: Seq<char>, w: Seq<char>, i: int)
    requires
        w.len() == 2,
        !('a' <= w[0] <= 'z') && !('A' <= w[0] <= 'Z'),
        !('a' <= w[1] <= 'z') && !('A' <= w[1] <= 'Z'),
    ensures
        word_at(s, w, i) == (0 <= i && i + 1 < s.len() && s[i] == w[0] && s[i + 1] == w[1]),
{
    if word_at(s, w, i) {
        assert(lower(w[0]) == lower(s[i + 0]));
        assert(lower(w[1]) == lower(s[i + 1]));
    }
}

proof fn lemma_one_sign(s: Seq<char>, w: Seq<char>, i: int)
    requires
        w.len() == 1,
        !('a' <= w[0] <= 'z') && !('A' <= w[0] <= 'Z'),
    ensures
        word_at(s, w, i) == (0 <= i < s.len() && s[i] == w[0]),
{
    if word_at(s, w, i) {
        assert(lower(w[0]) == lower(s[i + 0]));
    }
}

/// Which sign stands where the rule of signs matches.
proof fn lemma_sign_words(s: Seq<char>, i: int, gql: bool, d: nat, end: int, x: Seq<Tree>)
    requires
        yields(body_of(Rule::comp_op, gql), s, i, true, gql, d, end, x),
    ensures
        sign_at(s, i) matches Some(op) && end == i + sign_len(op) && end <= s.len(),
{
    let ne = Peg::Word("<>");
    let le = Peg::Word("<=");
    let ge = Peg::Word(">=");
    let eq = Peg::Word("=");
    let lt = Peg::Word("<");
    let gt = Peg::Word(">");
    let p4 = or(lt, gt);
    let p3 = or(eq, p4);
    let p2 = or(ge, p3);
    let p1 = or(le, p2);
    assert(body_of(Rule::comp_op, gql) == or(ne, p1));
    lemma_signs();
    lemma_two_signs(s, "<>"@, i);
    lemma_two_signs(s, "<="@, i);
    lemma_two_signs(s, ">="@, i);
    lemma_one_sign(s, "="@, i);
    lemma_one_sign(s, "<"@, i);
    lemma_one_sign(s, ">"@, i);
    lemma_found_word("<>", s, i, gql, d, end, x);
    lemma_found_word("<=", s, i, gql, d, end, x);
    lemma_found_word(">=", s, i, gql, d, end, x);
    lemma_found_word("=", s, i, gql, d, end, x);
    lemma_found_word("<", s, i, gql, d, end, x);
    lemma_found_word(">", s, i, gql, d, end, x);
    split_either(ne, p1, s, i, true, gql, d, end, x);
    if !yields(ne, s, i, true, gql, d, end, x) {
        split_either(le, p2, s, i, true, gql, d, end, x);
        if !yields(le, s, i, true, gql, d, end, x) {
            split_either(ge, p3, s, i, true, gql, d, end, x);
            if !yields(ge, s, i, true, gql, d, end, x) {
                split_either(eq, p4, s, i, true, gql, d, end, x);
                if !yields(eq, s, i, true, gql, d, end, x) {
                    split_either(lt, gt, s, i, true, gql, d, end, x);
                }
            }
        }
    }
}

proof fn lemma_found_word(
    w: &'static str,
    s: Seq<char>,
    i: int,
    gql: bool,
    d: nat,
    end: int,
    x: Seq<Tree>,
)
    ensures
        yields(Peg::Word(w), s, i, true, gql, d, end, x) ==> word_at(s, w@, i) && end == i
            + w@.len(),
        refuses(Peg::Word(w), s, i, true, gql, d) ==> !word_at(s, w@, i),
{
    let p = Peg::Word(w);
    lemma_word_at(w, s, i, true, gql, d);
    if yields(p, s, i, true, gql, d, end, x) {
        lemma_yields(p, s, i, true, gql, d, end, x);
    }
    if word_at(s, w@, i) {
        lemma_yields(p, s, i, true, gql, d, i + w@.len(), seq![]);
    }
}

/// The sign of a comparison says which it is.
proof fn lemma_sign(s: Seq<char>, i: int, gql: bool, d: nat)
    requires
        rule_at(Rule::comp_op, s, i, gql, d) is Match,
    ensures
        ({
            let x = rule_at(Rule::comp_op, s, i, gql, d);
            sign_at(s, i) matches Some(op) && x->Match_end == i + sign_len(op) && comp_op_in(
                x->nodes[0].text,
            ) == Some(op)
        }),
{
    let r = Rule::comp_op;
    let x = rule_at(r, s, i, gql, d);
    let end = x->Match_end;
    lemma_run(Peg::Call(r), s, i, false, gql, d);
    let below = split_called(r, s, i, false, gql, d, end, x->nodes);
    lemma_sign_words(s, i, gql, (d - 1) as nat, end, below);
    lemma_signs();
    let text = x->nodes[0].text;
    let here = s.subrange(i, end);
    let op = sign_at(s, i)->Some_0;
    assert(text =~= here) by {
        assert forall|k: int| 0 <= k < here.len() implies lower_text(here)[k] == here[k] by {
            assert(here[k] == s[i + k]);
        }
    }
    assert(text.len() == sign_len(op));
    assert(text[0] == s[i]);
    assert(sign_len(op) == 2 ==> text[1] == s[i + 1]);
    assert(op == CompOp::Ne ==> text =~= "<>"@);
    assert(op == CompOp::Le ==> text =~= "<="@);
    assert(op == CompOp::Ge ==> text =~= ">="@);
    assert(op == CompOp::Eq ==> text =~= "="@);
    assert(op == CompOp::Lt ==> text =~= "<"@);
    assert(op == CompOp::Gt ==> text =~= ">"@);
    lemma_op_text(op, text);
}

proof fn lemma_op_text(op: CompOp, text: Seq<char>)
    requires
        op == CompOp::Ne ==> text == "<>"@,
        op == CompOp::Le ==> text == "<="@,
        op == CompOp::Ge ==> text == ">="@,
        op == CompOp::Eq ==> text == "="@,
        op == CompOp::Lt ==> text == "<"@,
        op == CompOp::Gt ==> text == ">"@,
        op == CompOp::Ne || op == CompOp::Le || op == CompOp::Ge || op == CompOp::Eq || op
            == CompOp::Lt || op == CompOp::Gt,
    ensures
        comp_op_in(text) == Some(op),
{
    lemma_signs();
    assert(text == "="@ ==> text.len() == 1 && text[0] == '=');
    assert(text == "<>"@ ==> text.len() == 2 && text[0] == '<' && text[1] == '>');
    assert(text == "<="@ ==> text.len() == 2 && text[0] == '<' && text[1] == '=');
    assert(text == ">="@ ==> text.len() == 2 && text[0] == '>' && text[1] == '=');
    assert(text == "<"@ ==> text.len() == 1 && text[0] == '<');
    assert(text == ">"@ ==> text.len() == 1 && text[0] == '>');
}

// ── Parts ────────────────────────────────────────────────────────────────────

/// Two rules, one behind the other.
proof fn split_two(
    a: Rule,
    b: Rule,
    s: Seq<char>,
    i: int,
    gql: bool,
    d: nat,
    end: int,
    nodes: Seq<Tree>,
)
    requires
        yields(followed(Peg::Call(a), Peg::Call(b)), s, i, false, gql, d, end, nodes),
    ensures
        ({
            let x = rule_at(a, s, i, gql, d);
            let y = rule_at(b, s, blank_end(s, x->Match_end), gql, d);
            &&& x is Match
            &&& y is Match
            &&& nodes.len() == 2
            &&& nodes[0] == x->nodes[0]
            &&& nodes[1] == y->nodes[0]
            &&& nodes[0].rule == a
            &&& nodes[1].rule == b
            &&& y->Match_end == end
            &&& d > 0
        }),
{
    let r = split_both(Peg::Call(a), Peg::Call(b), s, i, false, gql, d, end, nodes);
    lemma_yields(Peg::Call(a), s, i, false, gql, d, r.0, r.1);
    let j = blank_end(s, r.0);
    lemma_yields(Peg::Call(b), s, j, false, gql, d, end, r.2);
    lemma_rule_of(a, s, i, gql, d);
    lemma_rule_of(b, s, j, gql, d);
}

/// Three rules, one behind the other.
proof fn split_three(
    a: Rule,
    b: Rule,
    c: Rule,
    s: Seq<char>,
    i: int,
    gql: bool,
    d: nat,
    end: int,
    nodes: Seq<Tree>,
)
    requires
        yields(
            followed(Peg::Call(a), followed(Peg::Call(b), Peg::Call(c))),
            s,
            i,
            false,
            gql,
            d,
            end,
            nodes,
        ),
    ensures
        ({
            let x = rule_at(a, s, i, gql, d);
            let y = rule_at(b, s, blank_end(s, x->Match_end), gql, d);
            let z = rule_at(c, s, blank_end(s, y->Match_end), gql, d);
            &&& x is Match
            &&& y is Match
            &&& z is Match
            &&& nodes.len() == 3
            &&& nodes[0] == x->nodes[0]
            &&& nodes[1] == y->nodes[0]
            &&& nodes[2] == z->nodes[0]
            &&& nodes[0].rule == a
            &&& nodes[1].rule == b
            &&& nodes[2].rule == c
            &&& d > 0
        }),
{
    let rest = followed(Peg::Call(b), Peg::Call(c));
    let r = split_both(Peg::Call(a), rest, s, i, false, gql, d, end, nodes);
    lemma_yields(Peg::Call(a), s, i, false, gql, d, r.0, r.1);
    let j = blank_end(s, r.0);
    lemma_rule_of(a, s, i, gql, d);
    split_two(b, c, s, j, gql, d, end, r.2);
}

/// A keyword where its rule matches.
proof fn lemma_keyword_found(r: Rule, w: &'static str, s: Seq<char>, i: int, gql: bool, d: nat)
    requires
        is_token(r),
        body_of(r, gql) == followed(
            Peg::Word(w),
            Peg::Not(Box::new(Peg::One(Class::NamePart))),
        ),
        rule_at(r, s, i, gql, d) is Match,
    ensures
        keyword_at(s, w@, i),
        rule_at(r, s, i, gql, d)->Match_end == i + w@.len(),
{
    let x = rule_at(r, s, i, gql, d);
    lemma_run(Peg::Call(r), s, i, false, gql, d);
    lemma_found_keyword(r, w, s, i, gql, d, x->Match_end, x->nodes);
}

// ── What the suffixes say ────────────────────────────────────────────────────

/// Whether an expression compares `lhs` with the sum that stands at a place.
pub open spec fn compares_with(
    s: Seq<char>,
    k: int,
    lhs: m::Expression,
    op: CompOp,
    e: m::Expression,
    gql: bool,
    d: nat,
) -> bool {
    let x = rule_at(Rule::add_sub_expr, s, k, gql, d);
    &&& x is Match
    &&& arithmetic_in(x->nodes[0], Arithmetic::Sum, gql) matches Ok(b) && e
        == m::Expression::Comparison(Box::new(lhs), op, Box::new(b))
}

/// Whether an expression compares `lhs` with what stands at a place in Cypher: with
/// a sum, or, where the sum is itself compared with something by a sign, with the
/// sum and the sum with the rest.
pub open spec fn chains_with(
    s: Seq<char>,
    k: int,
    lhs: m::Expression,
    op: CompOp,
    e: m::Expression,
    d: nat,
) -> bool {
    let x = rule_at(Rule::comparison_expr, s, k, false, d);
    let y = rule_at(Rule::add_sub_expr, s, k, false, (d - 1) as nat);
    let j = blank_end(s, y->Match_end);
    let z = rule_at(Rule::comparison_suffix, s, j, false, (d - 1) as nat);
    let rest = comparison_in(x->nodes[0], false);
    let mid = arithmetic_in(y->nodes[0], Arithmetic::Sum, false);
    let plain = m::Expression::Comparison(Box::new(lhs), op, Box::new(rest->Ok_0));
    let chained = m::Expression::And(
        Box::new(m::Expression::Comparison(Box::new(lhs), op, Box::new(mid->Ok_0))),
        Box::new(rest->Ok_0),
    );
    &&& x is Match
    &&& y is Match
    &&& rest is Ok
    &&& mid is Ok
    &&& z is Match && sign_at(s, j) is Some && !word_at(s, "=~"@, j) ==> e == chained
    &&& z is Fail ==> rest == mid && e == plain
    &&& e == plain || e == chained
}

proof fn lemma_compared_in(
    lhs: m::Expression,
    op: CompOp,
    t: Tree,
    k: int,
    u: Tree,
    gql: bool,
)
    requires
        0 <= k < t.children.len(),
        like(t.children[k], u),
    ensures
        compared_in(lhs, op, t, k, gql) matches Ok(e) ==> (arithmetic_in(
            u,
            Arithmetic::Sum,
            gql,
        ) matches Ok(b) && e == m::Expression::Comparison(Box::new(lhs), op, Box::new(b))),
{
    assert(arithmetic_in(t.children[k], Arithmetic::Sum, gql) == arithmetic_in(
        u,
        Arithmetic::Sum,
        gql,
    ));
}

proof fn lemma_suffix_in(lhs: m::Expression, t: Tree, gql: bool)
    requires
        t.children.len() > 1,
    ensures
        ({
            let e = suffix_in(lhs, t, gql);
            let first = t.children[0].rule;
            &&& first == Rule::comp_op ==> (comp_op_in(t.children[0].text) matches Some(op) ==> e
                == if gql {
                compared_in(lhs, op, t, 1, gql)
            } else {
                binary_in(lhs, op, t.children[1])
            })
            &&& first == Rule::regex_op ==> e == compared_in(lhs, CompOp::RegexMatch, t, 1, gql)
            &&& first == Rule::kw_IS ==> e == if t.children[1].rule == Rule::kw_NOT {
                Built::Ok(m::Expression::IsNotNull(Box::new(lhs)))
            } else {
                Built::Ok(m::Expression::IsNull(Box::new(lhs)))
            }
            &&& first == Rule::kw_IN ==> e == compared_in(lhs, CompOp::In, t, 1, gql)
            &&& first == Rule::kw_NOT ==> e == match compared_in(lhs, CompOp::In, t, 2, gql) {
                Ok(c) => Built::Ok(m::Expression::Not(Box::new(c))),
                Err(f) => Built::Err(f),
            }
            &&& first == Rule::kw_STARTS ==> e == compared_in(lhs, CompOp::StartsWith, t, 2, gql)
            &&& first == Rule::kw_ENDS ==> e == compared_in(lhs, CompOp::EndsWith, t, 2, gql)
            &&& first == Rule::kw_CONTAINS ==> e == compared_in(lhs, CompOp::Contains, t, 1, gql)
        }),
{
}

/// Where the operand begins that stands behind two words.
pub open spec fn behind_words(s: Seq<char>, i: int, first: int, second: int) -> int {
    blank_end(s, blank_end(s, i + first) + second)
}

/// Whether an expression is what the suffix at a place makes of `lhs`.
pub open spec fn suffix_says(
    s: Seq<char>,
    i: int,
    lhs: m::Expression,
    e: m::Expression,
    gql: bool,
    d: nat,
) -> bool {
    &&& sign_at(s, i) matches Some(op) ==> {
        let k = blank_end(s, i + sign_len(op));
        ||| gql && compares_with(s, k, lhs, op, e, gql, d)
        ||| !gql && chains_with(s, k, lhs, op, e, d)
        ||| !gql && word_at(s, "=~"@, i) && compares_with(
            s,
            blank_end(s, i + 2),
            lhs,
            CompOp::RegexMatch,
            e,
            gql,
            d,
        )
    }
    &&& keyword_at(s, "IS"@, i) ==> e == if keyword_at(s, "NOT"@, blank_end(s, i + 2)) {
        m::Expression::IsNotNull(Box::new(lhs))
    } else {
        m::Expression::IsNull(Box::new(lhs))
    }
    &&& keyword_at(s, "IN"@, i) ==> compares_with(
        s,
        blank_end(s, i + 2),
        lhs,
        CompOp::In,
        e,
        gql,
        d,
    )
    &&& keyword_at(s, "NOT"@, i) ==> !gql && (e matches m::Expression::Not(c) && compares_with(
        s,
        behind_words(s, i, 3, 2),
        lhs,
        CompOp::In,
        *c,
        gql,
        d,
    ))
    &&& keyword_at(s, "STARTS"@, i) ==> compares_with(
        s,
        behind_words(s, i, 6, 4),
        lhs,
        CompOp::StartsWith,
        e,
        gql,
        d,
    )
    &&& keyword_at(s, "ENDS"@, i) ==> compares_with(
        s,
        behind_words(s, i, 4, 4),
        lhs,
        CompOp::EndsWith,
        e,
        gql,
        d,
    )
    &&& keyword_at(s, "CONTAINS"@, i) ==> compares_with(
        s,
        blank_end(s, i + 8),
        lhs,
        CompOp::Contains,
        e,
        gql,
        d,
    )
    &&& sign_at(s, i) is Some || keyword_at(s, "IS"@, i) || keyword_at(s, "IN"@, i) || keyword_at(
        s,
        "NOT"@,
        i,
    ) || keyword_at(s, "STARTS"@, i) || keyword_at(s, "ENDS"@, i) || keyword_at(
        s,
        "CONTAINS"@,
        i,
    )
}

proof fn lemma_letter(s: Seq<char>, w: Seq<char>, i: int, k: int)
    requires
        keyword_at(s, w, i),
        0 <= k < w.len(),
    ensures
        0 <= i,
        i + k < s.len(),
        lower(s[i + k]) == lower(w[k]),
{
    let here = s.subrange(i, i + w.len());
    assert(lower_text(here)[k] == lower_text(w)[k]);
    assert(here[k] == s[i + k]);
}

/// Which letters the keywords begin with.
proof fn lemma_letters(s: Seq<char>, i: int)
    ensures
        "IS"@.len() == 2,
        "IN"@.len() == 2,
        "NOT"@.len() == 3,
        "WITH"@.len() == 4,
        "STARTS"@.len() == 6,
        "ENDS"@.len() == 4,
        "CONTAINS"@.len() == 8,
        keyword_at(s, "IS"@, i) ==> lower(s[i]) == 'i' && lower(s[i + 1]) == 's',
        keyword_at(s, "IN"@, i) ==> lower(s[i]) == 'i' && lower(s[i + 1]) == 'n',
        keyword_at(s, "NOT"@, i) ==> lower(s[i]) == 'n' && lower(s[i + 1]) == 'o',
        keyword_at(s, "NULL"@, i) ==> lower(s[i]) == 'n' && lower(s[i + 1]) == 'u',
        keyword_at(s, "STARTS"@, i) ==> lower(s[i]) == 's',
        keyword_at(s, "ENDS"@, i) ==> lower(s[i]) == 'e',
        keyword_at(s, "CONTAINS"@, i) ==> lower(s[i]) == 'c',
        sign_at(s, i) is Some ==> lower(s[i]) == s[i] && (s[i] == '<' || s[i] == '>' || s[i]
            == '='),
        word_at(s, "=~"@, i) ==> sign_at(s, i) is Some,
{
    reveal_strlit("IS");
    reveal_strlit("IN");
    reveal_strlit("NOT");
    reveal_strlit("NULL");
    reveal_strlit("WITH");
    reveal_strlit("STARTS");
    reveal_strlit("ENDS");
    reveal_strlit("CONTAINS");
    if keyword_at(s, "IS"@, i) {
        lemma_letter(s, "IS"@, i, 0);
        lemma_letter(s, "IS"@, i, 1);
    }
    if keyword_at(s, "IN"@, i) {
        lemma_letter(s, "IN"@, i, 0);
        lemma_letter(s, "IN"@, i, 1);
    }
    if keyword_at(s, "NOT"@, i) {
        lemma_letter(s, "NOT"@, i, 0);
        lemma_letter(s, "NOT"@, i, 1);
    }
    if keyword_at(s, "NULL"@, i) {
        lemma_letter(s, "NULL"@, i, 0);
        lemma_letter(s, "NULL"@, i, 1);
    }
    if keyword_at(s, "STARTS"@, i) {
        lemma_letter(s, "STARTS"@, i, 0);
    }
    if keyword_at(s, "ENDS"@, i) {
        lemma_letter(s, "ENDS"@, i, 0);
    }
    if keyword_at(s, "CONTAINS"@, i) {
        lemma_letter(s, "CONTAINS"@, i, 0);
    }
    lemma_signs();
    lemma_two_signs(s, "=~"@, i);
}

/// A suffix of two rules.
spec fn two(a: Rule, b: Rule) -> Peg {
    followed(Peg::Call(a), Peg::Call(b))
}

/// A suffix of three rules.
spec fn three(a: Rule, b: Rule, c: Rule) -> Peg {
    followed(Peg::Call(a), followed(Peg::Call(b), Peg::Call(c)))
}

/// Whether a node has the parts that an expression yields.
spec fn built_of(t: Tree, p: Peg, s: Seq<char>, i: int, gql: bool, d: nat) -> bool {
    exists|end: int, x: Seq<Tree>| #[trigger]
        yields(p, s, i, false, gql, d, end, x) && t.children == seen_from(x, i)
}

proof fn lemma_is_suffix(lhs: m::Expression, t: Tree, s: Seq<char>, i: int, gql: bool, d: nat)
    requires
        built_of(t, three(Rule::kw_IS, Rule::kw_NOT, Rule::kw_NULL), s, i, gql, d) || built_of(
            t,
            two(Rule::kw_IS, Rule::kw_NULL),
            s,
            i,
            gql,
            d,
        ),
    ensures
        suffix_in(lhs, t, gql) matches Ok(e) ==> suffix_says(s, i, lhs, e, gql, d),
{
    let p = three(Rule::kw_IS, Rule::kw_NOT, Rule::kw_NULL);
    let q = two(Rule::kw_IS, Rule::kw_NULL);
    lemma_letters(s, i);
    if built_of(t, p, s, i, gql, d) {
        let (end, x) = choose|end: int, x: Seq<Tree>| #[trigger]
            yields(p, s, i, false, gql, d, end, x) && t.children == seen_from(x, i);
        split_three(Rule::kw_IS, Rule::kw_NOT, Rule::kw_NULL, s, i, gql, d, end, x);
        lemma_keyword_found(Rule::kw_IS, "IS", s, i, gql, d);
        lemma_keyword_found(Rule::kw_NOT, "NOT", s, blank_end(s, i + 2), gql, d);
        assert(t.children[0].rule == x[0].rule && t.children[1].rule == x[1].rule);
        lemma_suffix_in(lhs, t, gql);
    } else {
        let (end, x) = choose|end: int, x: Seq<Tree>| #[trigger]
            yields(q, s, i, false, gql, d, end, x) && t.children == seen_from(x, i);
        split_two(Rule::kw_IS, Rule::kw_NULL, s, i, gql, d, end, x);
        lemma_keyword_found(Rule::kw_IS, "IS", s, i, gql, d);
        lemma_keyword_found(Rule::kw_NULL, "NULL", s, blank_end(s, i + 2), gql, d);
        lemma_letters(s, blank_end(s, i + 2));
        assert(t.children[0].rule == x[0].rule && t.children[1].rule == x[1].rule);
        lemma_suffix_in(lhs, t, gql);
    }
}

/// `IN` and `CONTAINS`.
proof fn lemma_word_suffix(
    k: Rule,
    lhs: m::Expression,
    t: Tree,
    s: Seq<char>,
    i: int,
    gql: bool,
    d: nat,
)
    requires
        k == Rule::kw_IN || k == Rule::kw_CONTAINS,
        built_of(t, two(k, Rule::add_sub_expr), s, i, gql, d),
    ensures
        suffix_in(lhs, t, gql) matches Ok(e) ==> suffix_says(s, i, lhs, e, gql, d),
{
    let p = two(k, Rule::add_sub_expr);
    lemma_letters(s, i);
    let (end, x) = choose|end: int, x: Seq<Tree>| #[trigger]
        yields(p, s, i, false, gql, d, end, x) && t.children == seen_from(x, i);
    split_two(k, Rule::add_sub_expr, s, i, gql, d, end, x);
    assert(t.children[0].rule == x[0].rule && like(t.children[1], x[1]));
    lemma_suffix_in(lhs, t, gql);
    if k == Rule::kw_IN {
        lemma_keyword_found(Rule::kw_IN, "IN", s, i, gql, d);
        lemma_compared_in(lhs, CompOp::In, t, 1, x[1], gql);
    } else {
        lemma_keyword_found(Rule::kw_CONTAINS, "CONTAINS", s, i, gql, d);
        lemma_compared_in(lhs, CompOp::Contains, t, 1, x[1], gql);
    }
}

/// `STARTS WITH`, `ENDS WITH` and `NOT IN`.
proof fn lemma_words_suffix(
    k: Rule,
    n: Rule,
    lhs: m::Expression,
    t: Tree,
    s: Seq<char>,
    i: int,
    gql: bool,
    d: nat,
)
    requires
        k == Rule::kw_STARTS || k == Rule::kw_ENDS || (k == Rule::kw_NOT && !gql),
        k == Rule::kw_NOT ==> n == Rule::kw_IN,
        k != Rule::kw_NOT ==> n == Rule::kw_WITH || n == Rule::kw_WITH_kw,
        built_of(t, three(k, n, Rule::add_sub_expr), s, i, gql, d),
    ensures
        suffix_in(lhs, t, gql) matches Ok(e) ==> suffix_says(s, i, lhs, e, gql, d),
{
    let p = three(k, n, Rule::add_sub_expr);
    lemma_letters(s, i);
    let (end, x) = choose|end: int, x: Seq<Tree>| #[trigger]
        yields(p, s, i, false, gql, d, end, x) && t.children == seen_from(x, i);
    split_three(k, n, Rule::add_sub_expr, s, i, gql, d, end, x);
    assert(t.children[0].rule == x[0].rule && like(t.children[2], x[2]));
    lemma_suffix_in(lhs, t, gql);
    if k == Rule::kw_STARTS {
        lemma_keyword_found(k, "STARTS", s, i, gql, d);
        lemma_keyword_found(n, "WITH", s, blank_end(s, i + 6), gql, d);
        lemma_compared_in(lhs, CompOp::StartsWith, t, 2, x[2], gql);
    } else if k == Rule::kw_ENDS {
        lemma_keyword_found(k, "ENDS", s, i, gql, d);
        lemma_keyword_found(n, "WITH", s, blank_end(s, i + 4), gql, d);
        lemma_compared_in(lhs, CompOp::EndsWith, t, 2, x[2], gql);
    } else {
        lemma_keyword_found(k, "NOT", s, i, gql, d);
        lemma_keyword_found(n, "IN", s, blank_end(s, i + 3), gql, d);
        lemma_compared_in(lhs, CompOp::In, t, 2, x[2], gql);
    }
}

/// `=~` and, in GQL, the other signs.
proof fn lemma_sign_suffix(
    k: Rule,
    lhs: m::Expression,
    t: Tree,
    s: Seq<char>,
    i: int,
    gql: bool,
    d: nat,
)
    requires
        (k == Rule::comp_op && gql) || (k == Rule::regex_op && !gql),
        built_of(t, two(k, Rule::add_sub_expr), s, i, gql, d),
    ensures
        suffix_in(lhs, t, gql) matches Ok(e) ==> suffix_says(s, i, lhs, e, gql, d),
{
    let p = two(k, Rule::add_sub_expr);
    lemma_letters(s, i);
    lemma_signs();
    let (end, x) = choose|end: int, x: Seq<Tree>| #[trigger]
        yields(p, s, i, false, gql, d, end, x) && t.children == seen_from(x, i);
    split_two(k, Rule::add_sub_expr, s, i, gql, d, end, x);
    assert(t.children[0].rule == x[0].rule && like(t.children[1], x[1]));
    assert(t.children[0].text == x[0].text);
    lemma_suffix_in(lhs, t, gql);
    if k == Rule::comp_op {
        lemma_sign(s, i, gql, d);
        lemma_compared_in(lhs, sign_at(s, i)->Some_0, t, 1, x[1], gql);
    } else {
        let y = rule_at(k, s, i, gql, d);
        lemma_run(Peg::Call(k), s, i, false, gql, d);
        lemma_found_sign(k, "=~", s, i, gql, d, y->Match_end, y->nodes);
        lemma_compared_in(lhs, CompOp::RegexMatch, t, 1, x[1], gql);
    }
}

/// Whether a node has the parts of one of the suffixes.
spec fn is_suffix(t: Tree, s: Seq<char>, i: int, gql: bool, d: nat) -> bool {
    let sum = Rule::add_sub_expr;
    let with = if gql {
        Rule::kw_WITH_kw
    } else {
        Rule::kw_WITH
    };
    ||| gql && built_of(t, two(Rule::comp_op, sum), s, i, gql, d)
    ||| !gql && built_of(t, two(Rule::comp_op, Rule::comparison_expr), s, i, gql, d)
    ||| !gql && built_of(t, two(Rule::regex_op, sum), s, i, gql, d)
    ||| !gql && built_of(t, three(Rule::kw_NOT, Rule::kw_IN, sum), s, i, gql, d)
    ||| built_of(t, three(Rule::kw_IS, Rule::kw_NOT, Rule::kw_NULL), s, i, gql, d)
    ||| built_of(t, two(Rule::kw_IS, Rule::kw_NULL), s, i, gql, d)
    ||| built_of(t, two(Rule::kw_IN, sum), s, i, gql, d)
    ||| built_of(t, three(Rule::kw_STARTS, with, sum), s, i, gql, d)
    ||| built_of(t, three(Rule::kw_ENDS, with, sum), s, i, gql, d)
    ||| built_of(t, two(Rule::kw_CONTAINS, sum), s, i, gql, d)
}

/// One of several alternatives.
proof fn lemma_alternative(
    t: Tree,
    p: Peg,
    q: Peg,
    s: Seq<char>,
    i: int,
    gql: bool,
    d: nat,
)
    requires
        built_of(t, or(p, q), s, i, gql, d),
    ensures
        built_of(t, p, s, i, gql, d) || built_of(t, q, s, i, gql, d),
{
    let (end, x) = choose|end: int, x: Seq<Tree>| #[trigger]
        yields(or(p, q), s, i, false, gql, d, end, x) && t.children == seen_from(x, i);
    split_either(p, q, s, i, false, gql, d, end, x);
}

proof fn lemma_suffix_parts(s: Seq<char>, i: int, gql: bool, d: nat)
    requires
        rule_at(Rule::comparison_suffix, s, i, gql, d) is Match,
    ensures
        d > 0,
        rule_at(Rule::comparison_suffix, s, i, gql, d)->nodes.len() == 1,
        is_suffix(
            rule_at(Rule::comparison_suffix, s, i, gql, d)->nodes[0],
            s,
            i,
            gql,
            (d - 1) as nat,
        ),
{
    let r = Rule::comparison_suffix;
    let step = rule_at(r, s, i, gql, d);
    let end = step->Match_end;
    let e = (d - 1) as nat;
    lemma_run(Peg::Call(r), s, i, false, gql, d);
    let x = split_called(r, s, i, false, gql, d, end, step->nodes);
    let t = step->nodes[0];
    assert(built_of(t, body_of(r, gql), s, i, gql, e));
    let sum = Rule::add_sub_expr;
    let not_null = three(Rule::kw_IS, Rule::kw_NOT, Rule::kw_NULL);
    let null = two(Rule::kw_IS, Rule::kw_NULL);
    let within = two(Rule::kw_IN, sum);
    let contains = two(Rule::kw_CONTAINS, sum);
    if gql {
        let starts = three(Rule::kw_STARTS, Rule::kw_WITH_kw, sum);
        let ends = three(Rule::kw_ENDS, Rule::kw_WITH_kw, sum);
        let sign = two(Rule::comp_op, sum);
        let p5 = or(ends, contains);
        let p4 = or(starts, p5);
        let p3 = or(within, p4);
        let p2 = or(null, p3);
        let p1 = or(not_null, p2);
        assert(body_of(r, gql) == or(sign, p1));
        lemma_alternative(t, sign, p1, s, i, gql, e);
        if built_of(t, p1, s, i, gql, e) {
            lemma_alternative(t, not_null, p2, s, i, gql, e);
        }
        if built_of(t, p2, s, i, gql, e) {
            lemma_alternative(t, null, p3, s, i, gql, e);
        }
        if built_of(t, p3, s, i, gql, e) {
            lemma_alternative(t, within, p4, s, i, gql, e);
        }
        if built_of(t, p4, s, i, gql, e) {
            lemma_alternative(t, starts, p5, s, i, gql, e);
        }
        if built_of(t, p5, s, i, gql, e) {
            lemma_alternative(t, ends, contains, s, i, gql, e);
        }
    } else {
        let starts = three(Rule::kw_STARTS, Rule::kw_WITH, sum);
        let ends = three(Rule::kw_ENDS, Rule::kw_WITH, sum);
        let sign = two(Rule::comp_op, Rule::comparison_expr);
        let regex = two(Rule::regex_op, sum);
        let not_in = three(Rule::kw_NOT, Rule::kw_IN, sum);
        let p7 = or(ends, contains);
        let p6 = or(starts, p7);
        let p5 = or(not_in, p6);
        let p4 = or(within, p5);
        let p3 = or(null, p4);
        let p2 = or(not_null, p3);
        let p1 = or(sign, p2);
        assert(body_of(r, gql) == or(regex, p1));
        lemma_alternative(t, regex, p1, s, i, gql, e);
        if built_of(t, p1, s, i, gql, e) {
            lemma_alternative(t, sign, p2, s, i, gql, e);
        }
        if built_of(t, p2, s, i, gql, e) {
            lemma_alternative(t, not_null, p3, s, i, gql, e);
        }
        if built_of(t, p3, s, i, gql, e) {
            lemma_alternative(t, null, p4, s, i, gql, e);
        }
        if built_of(t, p4, s, i, gql, e) {
            lemma_alternative(t, within, p5, s, i, gql, e);
        }
        if built_of(t, p5, s, i, gql, e) {
            lemma_alternative(t, not_in, p6, s, i, gql, e);
        }
        if built_of(t, p6, s, i, gql, e) {
            lemma_alternative(t, starts, p7, s, i, gql, e);
        }
        if built_of(t, p7, s, i, gql, e) {
            lemma_alternative(t, ends, contains, s, i, gql, e);
        }
    }
}

/// What begins with a keyword does not begin with a sign.
proof fn lemma_word_first(
    k: Rule,
    w: &'static str,
    t: Tree,
    p: Peg,
    s: Seq<char>,
    i: int,
    d: nat,
)
    requires
        is_token(k),
        body_of(k, false) == followed(
            Peg::Word(w),
            Peg::Not(Box::new(Peg::One(Class::NamePart))),
        ),
        built_of(t, followed(Peg::Call(k), p), s, i, false, d),
    ensures
        keyword_at(s, w@, i),
{
    let q = followed(Peg::Call(k), p);
    let (end, x) = choose|end: int, x: Seq<Tree>| #[trigger]
        yields(q, s, i, false, false, d, end, x) && t.children == seen_from(x, i);
    let a = split_both(Peg::Call(k), p, s, i, false, false, d, end, x);
    lemma_found_keyword(k, w, s, i, false, d, a.0, a.1);
}

/// Where a sign stands, the suffix begins with it.
proof fn lemma_sign_first(t: Tree, s: Seq<char>, i: int, d: nat)
    requires
        is_suffix(t, s, i, false, d),
        sign_at(s, i) is Some,
        !word_at(s, "=~"@, i),
    ensures
        t.children.len() > 0,
        t.children[0].rule == Rule::comp_op,
{
    let sum = Peg::Call(Rule::add_sub_expr);
    let null = Peg::Call(Rule::kw_NULL);
    let not = Peg::Call(Rule::kw_NOT);
    let with = Peg::Call(Rule::kw_WITH);
    let within = Peg::Call(Rule::kw_IN);
    lemma_letters(s, i);
    if built_of(t, two(Rule::comp_op, Rule::comparison_expr), s, i, false, d) {
        let p = two(Rule::comp_op, Rule::comparison_expr);
        let (end, x) = choose|end: int, x: Seq<Tree>| #[trigger]
            yields(p, s, i, false, false, d, end, x) && t.children == seen_from(x, i);
        split_two(Rule::comp_op, Rule::comparison_expr, s, i, false, d, end, x);
        assert(t.children[0].rule == x[0].rule);
    } else if built_of(t, two(Rule::regex_op, Rule::add_sub_expr), s, i, false, d) {
        let p = two(Rule::regex_op, Rule::add_sub_expr);
        let (end, x) = choose|end: int, x: Seq<Tree>| #[trigger]
            yields(p, s, i, false, false, d, end, x) && t.children == seen_from(x, i);
        split_two(Rule::regex_op, Rule::add_sub_expr, s, i, false, d, end, x);
        let y = rule_at(Rule::regex_op, s, i, false, d);
        lemma_run(Peg::Call(Rule::regex_op), s, i, false, false, d);
        lemma_found_sign(Rule::regex_op, "=~", s, i, false, d, y->Match_end, y->nodes);
    } else if built_of(t, three(Rule::kw_NOT, Rule::kw_IN, Rule::add_sub_expr), s, i, false, d) {
        lemma_word_first(Rule::kw_NOT, "NOT", t, followed(within, sum), s, i, d);
    } else if built_of(t, three(Rule::kw_IS, Rule::kw_NOT, Rule::kw_NULL), s, i, false, d) {
        lemma_word_first(Rule::kw_IS, "IS", t, followed(not, null), s, i, d);
    } else if built_of(t, two(Rule::kw_IS, Rule::kw_NULL), s, i, false, d) {
        lemma_word_first(Rule::kw_IS, "IS", t, null, s, i, d);
    } else if built_of(t, two(Rule::kw_IN, Rule::add_sub_expr), s, i, false, d) {
        lemma_word_first(Rule::kw_IN, "IN", t, sum, s, i, d);
    } else if built_of(t, three(Rule::kw_STARTS, Rule::kw_WITH, Rule::add_sub_expr), s, i, false, d) {
        lemma_word_first(Rule::kw_STARTS, "STARTS", t, followed(with, sum), s, i, d);
    } else if built_of(t, three(Rule::kw_ENDS, Rule::kw_WITH, Rule::add_sub_expr), s, i, false, d) {
        lemma_word_first(Rule::kw_ENDS, "ENDS", t, followed(with, sum), s, i, d);
    } else {
        lemma_word_first(Rule::kw_CONTAINS, "CONTAINS", t, sum, s, i, d);
    }
}

/// The parts of a comparison in Cypher: a sum, and the suffixes behind it.
proof fn lemma_comparison_parts(s: Seq<char>, i: int, d: nat)
    requires
        rule_at(Rule::comparison_expr, s, i, false, d) is Match,
    ensures
        ({
            let u = rule_at(Rule::comparison_expr, s, i, false, d)->nodes[0];
            let y = rule_at(Rule::add_sub_expr, s, i, false, (d - 1) as nat);
            let j = blank_end(s, y->Match_end);
            let z = rule_at(Rule::comparison_suffix, s, j, false, (d - 1) as nat);
            &&& d > 0
            &&& y is Match
            &&& u.children.len() > 0
            &&& like(u.children[0], y->nodes[0])
            &&& u.children[0].rule == Rule::add_sub_expr
            &&& z is Match ==> u.children.len() > 1 && like(u.children[1], z->nodes[0])
                && u.children[1].rule == Rule::comparison_suffix
            &&& z is Fail ==> u.children.len() == 1
        }),
{
    let r = Rule::comparison_expr;
    let step = rule_at(r, s, i, false, d);
    let end = step->Match_end;
    let e = (d - 1) as nat;
    let sum = Peg::Call(Rule::add_sub_expr);
    let suffix = Peg::Call(Rule::comparison_suffix);
    assert(body_of(r, false) == followed(sum, often(suffix)));
    lemma_run(Peg::Call(r), s, i, false, false, d);
    let x = split_called(r, s, i, false, false, d, end, step->nodes);
    let a = split_both(sum, often(suffix), s, i, false, false, e, end, x);
    lemma_yields(sum, s, i, false, false, e, a.0, a.1);
    lemma_rule_of(Rule::add_sub_expr, s, i, false, e);
    let j = blank_end(s, a.0);
    let b = split_often(suffix, s, j, false, false, e, end, a.2);
    let z = rule_at(Rule::comparison_suffix, s, j, false, e);
    lemma_run(suffix, s, j, false, false, e);
    lemma_rule_of(Rule::comparison_suffix, s, j, false, e);
    let u = step->nodes[0];
    assert(x[0] == a.1[0]);
    if z is Match {
        lemma_yields(suffix, s, j, false, false, e, z->Match_end, z->nodes);
        lemma_yields(suffix, s, j, false, false, e, b.0, b.1);
        assert(a.2[0] == z->nodes[0]);
        assert(x[1] == a.2[0]);
    }
}

proof fn lemma_comparison_in(u: Tree, y: Tree)
    requires
        u.children.len() > 0,
        like(u.children[0], y),
    ensures
        comparison_in(u, false) == match arithmetic_in(y, Arithmetic::Sum, false) {
            Ok(mid) => suffixes_in(mid, u.children, 1, false),
            Err(f) => Built::Err(f),
        },
        u.children.len() == 1 ==> comparison_in(u, false) == arithmetic_in(
            y,
            Arithmetic::Sum,
            false,
        ),
{
    assert(arithmetic_in(u.children[0], Arithmetic::Sum, false) == arithmetic_in(
        y,
        Arithmetic::Sum,
        false,
    ));
}

proof fn lemma_binary_in(lhs: m::Expression, op: CompOp, u: Tree)
    requires
        u.children.len() > 0,
    ensures
        binary_in(lhs, op, u) matches Ok(e) ==> (comparison_in(u, false) matches Ok(rest) && if chains(
            u,
        ) {
            arithmetic_in(u.children[0], Arithmetic::Sum, false) matches Ok(mid) && e
                == m::Expression::And(
                Box::new(m::Expression::Comparison(Box::new(lhs), op, Box::new(mid))),
                Box::new(rest),
            )
        } else {
            e == m::Expression::Comparison(Box::new(lhs), op, Box::new(rest))
        }),
{
}

proof fn lemma_binary_like(lhs: m::Expression, op: CompOp, t: Tree, u: Tree)
    requires
        like(t, u),
    ensures
        binary_in(lhs, op, t) == binary_in(lhs, op, u),
{
    assert(chains(t) == chains(u));
    assert(comparison_in(t, false) == comparison_in(u, false)) by {
        reveal_with_fuel(comparison_in, 2);
    }
}

proof fn lemma_chain(lhs: m::Expression, op: CompOp, s: Seq<char>, k: int, d: nat)
    requires
        rule_at(Rule::comparison_expr, s, k, false, d) is Match,
    ensures
        binary_in(
            lhs,
            op,
            rule_at(Rule::comparison_expr, s, k, false, d)->nodes[0],
        ) matches Ok(e) ==> chains_with(s, k, lhs, op, e, d),
{
    let u = rule_at(Rule::comparison_expr, s, k, false, d)->nodes[0];
    let f = (d - 1) as nat;
    let y = rule_at(Rule::add_sub_expr, s, k, false, f);
    let j = blank_end(s, y->Match_end);
    let z = rule_at(Rule::comparison_suffix, s, j, false, f);
    lemma_comparison_parts(s, k, d);
    lemma_comparison_in(u, y->nodes[0]);
    lemma_binary_in(lhs, op, u);
    assert(arithmetic_in(u.children[0], Arithmetic::Sum, false) == arithmetic_in(
        y->nodes[0],
        Arithmetic::Sum,
        false,
    ));
    if z is Match && sign_at(s, j) is Some && !word_at(s, "=~"@, j) {
        lemma_suffix_parts(s, j, false, f);
        lemma_sign_first(z->nodes[0], s, j, (f - 1) as nat);
        assert(u.children[1].rule == Rule::comparison_suffix && holds(u.children[1], 0));
        assert(chains(u));
    }
}

proof fn lemma_chain_suffix(lhs: m::Expression, t: Tree, s: Seq<char>, i: int, d: nat)
    requires
        built_of(t, two(Rule::comp_op, Rule::comparison_expr), s, i, false, d),
    ensures
        suffix_in(lhs, t, false) matches Ok(e) ==> suffix_says(s, i, lhs, e, false, d),
{
    let p = two(Rule::comp_op, Rule::comparison_expr);
    lemma_letters(s, i);
    let (end, x) = choose|end: int, x: Seq<Tree>| #[trigger]
        yields(p, s, i, false, false, d, end, x) && t.children == seen_from(x, i);
    split_two(Rule::comp_op, Rule::comparison_expr, s, i, false, d, end, x);
    assert(t.children[0].rule == x[0].rule && like(t.children[1], x[1]));
    assert(t.children[0].text == x[0].text);
    lemma_suffix_in(lhs, t, false);
    lemma_sign(s, i, false, d);
    let op = sign_at(s, i)->Some_0;
    let k = blank_end(s, i + sign_len(op));
    lemma_binary_like(lhs, op, t.children[1], x[1]);
    lemma_chain(lhs, op, s, k, d);
}

/// A suffix says of what stands before it what its sign or its words say: which
/// comparison with the operand behind it, or whether it is null.
pub proof fn law_suffix_is_read(lhs: m::Expression, s: Seq<char>, i: int, gql: bool, d: nat)
    requires
        rule_at(Rule::comparison_suffix, s, i, gql, d) is Match,
    ensures
        suffix_in(
            lhs,
            rule_at(Rule::comparison_suffix, s, i, gql, d)->nodes[0],
            gql,
        ) matches Ok(e) ==> suffix_says(s, i, lhs, e, gql, (d - 1) as nat),
{
    lemma_suffix_parts(s, i, gql, d);
    let t = rule_at(Rule::comparison_suffix, s, i, gql, d)->nodes[0];
    let e = (d - 1) as nat;
    let sum = Rule::add_sub_expr;
    let with = if gql {
        Rule::kw_WITH_kw
    } else {
        Rule::kw_WITH
    };
    if built_of(t, two(Rule::comp_op, Rule::comparison_expr), s, i, gql, e) && !gql {
        lemma_chain_suffix(lhs, t, s, i, e);
    } else if built_of(t, two(Rule::comp_op, sum), s, i, gql, e) && gql {
        lemma_sign_suffix(Rule::comp_op, lhs, t, s, i, gql, e);
    } else if built_of(t, two(Rule::regex_op, sum), s, i, gql, e) && !gql {
        lemma_sign_suffix(Rule::regex_op, lhs, t, s, i, gql, e);
    } else if built_of(t, three(Rule::kw_NOT, Rule::kw_IN, sum), s, i, gql, e) && !gql {
        lemma_words_suffix(Rule::kw_NOT, Rule::kw_IN, lhs, t, s, i, gql, e);
    } else if built_of(t, two(Rule::kw_IN, sum), s, i, gql, e) {
        lemma_word_suffix(Rule::kw_IN, lhs, t, s, i, gql, e);
    } else if built_of(t, two(Rule::kw_CONTAINS, sum), s, i, gql, e) {
        lemma_word_suffix(Rule::kw_CONTAINS, lhs, t, s, i, gql, e);
    } else if built_of(t, three(Rule::kw_STARTS, with, sum), s, i, gql, e) {
        lemma_words_suffix(Rule::kw_STARTS, with, lhs, t, s, i, gql, e);
    } else if built_of(t, three(Rule::kw_ENDS, with, sum), s, i, gql, e) {
        lemma_words_suffix(Rule::kw_ENDS, with, lhs, t, s, i, gql, e);
    } else {
        lemma_is_suffix(lhs, t, s, i, gql, e);
    }
}

proof fn lemma_suffix_like(lhs: m::Expression, t: Tree, u: Tree, gql: bool)
    requires
        like(t, u),
        t.children.len() > 1,
    ensures
        suffix_in(lhs, t, gql) == suffix_in(lhs, u, gql),
{
    assert forall|op: CompOp, k: int| #[trigger]
        compared_in(lhs, op, t, k, gql) == compared_in(lhs, op, u, k, gql) by {}
}

/// The parts of a comparison in GQL: a sum, and a suffix at most.
proof fn lemma_gql_comparison_parts(s: Seq<char>, i: int, d: nat)
    requires
        rule_at(Rule::comparison_expr, s, i, true, d) is Match,
    ensures
        ({
            let u = rule_at(Rule::comparison_expr, s, i, true, d)->nodes[0];
            let y = rule_at(Rule::add_sub_expr, s, i, true, (d - 1) as nat);
            let j = blank_end(s, y->Match_end);
            let z = rule_at(Rule::comparison_suffix, s, j, true, (d - 1) as nat);
            &&& d > 0
            &&& y is Match
            &&& u.children.len() > 0
            &&& like(u.children[0], y->nodes[0])
            &&& z is Match ==> u.children.len() == 2 && like(u.children[1], z->nodes[0])
            &&& z is Fail ==> u.children.len() == 1
            &&& z is Match || z is Fail
        }),
{
    let r = Rule::comparison_expr;
    let step = rule_at(r, s, i, true, d);
    let end = step->Match_end;
    let e = (d - 1) as nat;
    let sum = Peg::Call(Rule::add_sub_expr);
    let suffix = Peg::Call(Rule::comparison_suffix);
    assert(body_of(r, true) == followed(sum, perhaps(suffix)));
    lemma_run(Peg::Call(r), s, i, false, true, d);
    let x = split_called(r, s, i, false, true, d, end, step->nodes);
    let a = split_both(sum, perhaps(suffix), s, i, false, true, e, end, x);
    lemma_yields(sum, s, i, false, true, e, a.0, a.1);
    lemma_rule_of(Rule::add_sub_expr, s, i, true, e);
    let j = blank_end(s, a.0);
    split_maybe(suffix, s, j, false, true, e, end, a.2);
    lemma_rule_of(Rule::comparison_suffix, s, j, true, e);
    assert(x[0] == a.1[0]);
    if yields(suffix, s, j, false, true, e, end, a.2) {
        lemma_yields(suffix, s, j, false, true, e, end, a.2);
        assert(x[1] == a.2[0]);
    } else {
        reveal(refuses);
    }
}

proof fn lemma_one_suffix(u: Tree, y: Tree, z: Tree, gql: bool)
    requires
        u.children.len() == 2,
        like(u.children[0], y),
        like(u.children[1], z),
        z.children.len() > 1,
    ensures
        arithmetic_in(y, Arithmetic::Sum, gql) matches Ok(a) ==> comparison_in(u, gql)
            == suffix_in(a, z, gql),
{
    assert(arithmetic_in(u.children[0], Arithmetic::Sum, gql) == arithmetic_in(
        y,
        Arithmetic::Sum,
        gql,
    ));
    if let Ok(a) = arithmetic_in(y, Arithmetic::Sum, gql) {
        lemma_suffix_like(a, u.children[1], z, gql);
        if !gql {
            let first = suffix_in(a, u.children[1], gql);
            if let Ok(e) = first {
                assert(suffixes_in(e, u.children, 2, gql) == Built::Ok(e));
            }
            assert(suffixes_in(a, u.children, 1, gql) == first);
        }
    }
}

proof fn lemma_suffix_width(t: Tree, s: Seq<char>, i: int, gql: bool, d: nat)
    requires
        is_suffix(t, s, i, gql, d),
    ensures
        t.children.len() > 1,
{
    let sum = Rule::add_sub_expr;
    let with = if gql {
        Rule::kw_WITH_kw
    } else {
        Rule::kw_WITH
    };
    lemma_two_wide(t, Rule::comp_op, sum, s, i, gql, d);
    lemma_two_wide(t, Rule::comp_op, Rule::comparison_expr, s, i, gql, d);
    lemma_two_wide(t, Rule::regex_op, sum, s, i, gql, d);
    lemma_two_wide(t, Rule::kw_IS, Rule::kw_NULL, s, i, gql, d);
    lemma_two_wide(t, Rule::kw_IN, sum, s, i, gql, d);
    lemma_two_wide(t, Rule::kw_CONTAINS, sum, s, i, gql, d);
    lemma_three_wide(t, Rule::kw_NOT, Rule::kw_IN, sum, s, i, gql, d);
    lemma_three_wide(t, Rule::kw_IS, Rule::kw_NOT, Rule::kw_NULL, s, i, gql, d);
    lemma_three_wide(t, Rule::kw_STARTS, with, sum, s, i, gql, d);
    lemma_three_wide(t, Rule::kw_ENDS, with, sum, s, i, gql, d);
}

proof fn lemma_two_wide(t: Tree, a: Rule, b: Rule, s: Seq<char>, i: int, gql: bool, d: nat)
    ensures
        built_of(t, two(a, b), s, i, gql, d) ==> t.children.len() > 1,
{
    if built_of(t, two(a, b), s, i, gql, d) {
        let (end, x) = choose|end: int, x: Seq<Tree>| #[trigger]
            yields(two(a, b), s, i, false, gql, d, end, x) && t.children == seen_from(x, i);
        split_two(a, b, s, i, gql, d, end, x);
    }
}

proof fn lemma_three_wide(
    t: Tree,
    a: Rule,
    b: Rule,
    c: Rule,
    s: Seq<char>,
    i: int,
    gql: bool,
    d: nat,
)
    ensures
        built_of(t, three(a, b, c), s, i, gql, d) ==> t.children.len() > 1,
{
    if built_of(t, three(a, b, c), s, i, gql, d) {
        let (end, x) = choose|end: int, x: Seq<Tree>| #[trigger]
            yields(three(a, b, c), s, i, false, gql, d, end, x) && t.children == seen_from(x, i);
        split_three(a, b, c, s, i, gql, d, end, x);
    }
}

/// A sum with no suffix behind it stands for itself; a sum with one suffix behind it
/// for what the suffix says of the sum.
pub proof fn law_comparison_is_read(s: Seq<char>, i: int, gql: bool, d: nat)
    requires
        rule_at(Rule::comparison_expr, s, i, gql, d) is Match,
    ensures
        ({
            let u = rule_at(Rule::comparison_expr, s, i, gql, d)->nodes[0];
            let e = (d - 1) as nat;
            let y = rule_at(Rule::add_sub_expr, s, i, gql, e);
            let j = blank_end(s, y->Match_end);
            let z = rule_at(Rule::comparison_suffix, s, j, gql, e);
            let next = rule_at(Rule::comparison_suffix, s, blank_end(s, z->Match_end), gql, e);
            let a = arithmetic_in(y->nodes[0], Arithmetic::Sum, gql);
            &&& y is Match
            &&& z is Fail ==> comparison_in(u, gql) == a
            &&& z is Match && a is Ok && (gql || z->Match_end >= s.len() || next is Fail)
                ==> comparison_in(u, gql) == suffix_in(a->Ok_0, z->nodes[0], gql)
        }),
{
    let u = rule_at(Rule::comparison_expr, s, i, gql, d)->nodes[0];
    let e = (d - 1) as nat;
    let y = rule_at(Rule::add_sub_expr, s, i, gql, e);
    let j = blank_end(s, y->Match_end);
    let z = rule_at(Rule::comparison_suffix, s, j, gql, e);
    if gql {
        lemma_gql_comparison_parts(s, i, d);
        if z is Fail {
            lemma_no_suffix(u, y->nodes[0]);
        }
    } else {
        lemma_comparison_parts(s, i, d);
        lemma_comparison_in(u, y->nodes[0]);
        if z is Match {
            lemma_single_suffix(s, i, d);
        }
    }
    if z is Match {
        lemma_suffix_parts(s, j, gql, e);
        lemma_suffix_width(z->nodes[0], s, j, gql, (e - 1) as nat);
        if u.children.len() == 2 {
            lemma_one_suffix(u, y->nodes[0], z->nodes[0], gql);
        }
    }
}

proof fn lemma_no_suffix(u: Tree, y: Tree)
    requires
        u.children.len() == 1,
        like(u.children[0], y),
    ensures
        comparison_in(u, true) == arithmetic_in(y, Arithmetic::Sum, true),
{
    assert(arithmetic_in(u.children[0], Arithmetic::Sum, true) == arithmetic_in(
        y,
        Arithmetic::Sum,
        true,
    ));
}

/// Where no other suffix stands behind the first, there is but one.
proof fn lemma_single_suffix(s: Seq<char>, i: int, d: nat)
    requires
        rule_at(Rule::comparison_expr, s, i, false, d) is Match,
    ensures
        ({
            let u = rule_at(Rule::comparison_expr, s, i, false, d)->nodes[0];
            let e = (d - 1) as nat;
            let y = rule_at(Rule::add_sub_expr, s, i, false, e);
            let z = rule_at(Rule::comparison_suffix, s, blank_end(s, y->Match_end), false, e);
            let next = rule_at(Rule::comparison_suffix, s, blank_end(s, z->Match_end), false, e);
            z is Match && (z->Match_end >= s.len() || next is Fail) ==> u.children.len() == 2
        }),
{
    let r = Rule::comparison_expr;
    let step = rule_at(r, s, i, false, d);
    let end = step->Match_end;
    let e = (d - 1) as nat;
    let sum = Peg::Call(Rule::add_sub_expr);
    let suffix = Peg::Call(Rule::comparison_suffix);
    assert(body_of(r, false) == followed(sum, often(suffix)));
    lemma_run(Peg::Call(r), s, i, false, false, d);
    let x = split_called(r, s, i, false, false, d, end, step->nodes);
    let a = split_both(sum, often(suffix), s, i, false, false, e, end, x);
    lemma_yields(sum, s, i, false, false, e, a.0, a.1);
    lemma_rule_of(Rule::add_sub_expr, s, i, false, e);
    let j = blank_end(s, a.0);
    let z = rule_at(Rule::comparison_suffix, s, j, false, e);
    let k = blank_end(s, z->Match_end);
    let next = rule_at(Rule::comparison_suffix, s, k, false, e);
    lemma_run(suffix, s, j, false, false, e);
    lemma_run(suffix, s, k, false, false, e);
    lemma_rule_of(Rule::comparison_suffix, s, j, false, e);
    if z is Match && (z->Match_end >= s.len() || next is Fail) {
        lemma_once(suffix, s, j, false, false, e, z->Match_end, z->nodes);
        lemma_yields(often(suffix), s, j, false, false, e, z->Match_end, z->nodes);
        lemma_yields(often(suffix), s, j, false, false, e, end, a.2);
        assert(a.2.len() == 1);
    }
}

} // verus!
