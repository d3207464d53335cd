//! What operators say of the expressions that they stand in.
use vstd::prelude::*;

#[allow(unused_imports)]
use crate::ast::cypher::Direction;
#[allow(unused_imports)]
use crate::ast::model as m;
#[allow(unused_imports)]
use crate::parser::error::Built;
#[allow(unused_imports)]
use crate::parser::grammar::{body_of, is_token};
#[allow(unused_imports)]
use crate::parser::laws::keywords::{lemma_child, lemma_no_child, rule_at};
#[allow(unused_imports)]
use crate::parser::laws::places::{
    keyword_at, lemma_both, lemma_called, lemma_either, lemma_found_keyword, lemma_keyword,
    lemma_neither, lemma_called_refuses, lemma_run, lemma_word_at, lemma_yields, refuses,
    split_both, split_called, split_either, yields,
};
#[allow(unused_imports)]
use crate::parser::laws::steps::{followed, node_for, often, or};
#[allow(unused_imports)]
use crate::parser::laws::{law_matches_stand_in_text, lemma_blank_end};
#[allow(unused_imports)]
use crate::parser::meaning::{
    applied, arithmetic_in, comparison_in, connected_in, direction_in, expression_in, not_in,
    operand_in, rel_pattern_in, term_in, terms_in, Arithmetic, Connective,
};
#[allow(unused_imports)]
use crate::parser::peg::{blank_end, larger, next_part, run, run_more, word_at, Class, Peg, Step};
#[allow(unused_imports)]
use crate::parser::tree::{at, holds, Rule, Tree};
#[allow(unused_imports)]
use crate::text::{lower, lower_text};

verus! {

// ── Operands with operators between them ─────────────────────────────────────

/// Whether two nodes differ in nothing but the place that they are seen from.
pub open spec fn like(t: Tree, u: Tree) -> bool {
    t.rule == u.rule && t.text == u.text && t.children == u.children
}

/// Whether the nodes from a position on are those of the operators and operands
/// that stand behind a place, and no other stand behind the last.
spec fn pairs_from(
    ch: Seq<Tree>,
    n: int,
    s: Seq<char>,
    i: int,
    o: Rule,
    t: Rule,
    gql: bool,
    d: nat,
) -> bool
    decreases ch.len() - n,
{
    let x = rule_at(o, s, blank_end(s, i), gql, d);
    let y = rule_at(t, s, blank_end(s, x->Match_end), gql, d);
    if n >= ch.len() {
        n == ch.len() && !(x is Match && y is Match)
    } else {
        &&& n + 1 < ch.len()
        &&& x is Match
        &&& y is Match
        &&& like(ch[n], x->nodes[0])
        &&& like(ch[n + 1], y->nodes[0])
        &&& i < y->Match_end <= s.len()
        &&& pairs_from(ch, n + 2, s, y->Match_end, o, t, gql, d)
    }
}

/// Whether whatever a rule matches takes up text.
spec fn takes_text(o: Rule, s: Seq<char>, gql: bool, d: nat) -> bool {
    forall|i: int|
        (#[trigger] rule_at(o, s, i, gql, d)) matches Step::Match { end, nodes, far } ==> i < end
}

proof fn lemma_pair(o: Rule, t: Rule, s: Seq<char>, i: int, gql: bool, d: nat)
    requires
        0 <= i <= s.len(),
        takes_text(o, s, gql, d),
    ensures
        ({
            let j = blank_end(s, i);
            let x = rule_at(o, s, j, gql, d);
            let y = rule_at(t, s, blank_end(s, x->Match_end), gql, d);
            match run(followed(Peg::Call(o), Peg::Call(t)), s, j, false, gql, d) {
                Step::Match { end, nodes, far } => {
                    &&& x is Match
                    &&& y is Match
                    &&& i < end <= s.len()
                    &&& end == y->Match_end
                    &&& nodes.len() == 2
                    &&& nodes[0] == x->nodes[0]
                    &&& nodes[1] == y->nodes[0]
                },
                _ => !(x is Match && y is Match),
            }
        }),
{
    let j = blank_end(s, i);
    lemma_blank_end(s, i);
    let x = rule_at(o, s, j, gql, d);
    law_matches_stand_in_text(Peg::Call(o), s, j, false, gql, d);
    if x is Match {
        let k = blank_end(s, x->Match_end);
        lemma_blank_end(s, x->Match_end);
        law_matches_stand_in_text(Peg::Call(t), s, k, false, gql, d);
        let y = rule_at(t, s, k, gql, d);
    }
}

proof fn lemma_more_pairs(
    o: Rule,
    t: Rule,
    s: Seq<char>,
    end: int,
    done: Seq<Tree>,
    f: int,
    gql: bool,
    d: nat,
)
    requires
        0 <= end <= s.len(),
        takes_text(o, s, gql, d),
    ensures
        run_more(followed(Peg::Call(o), Peg::Call(t)), s, end, done, f, false, gql, d) matches Step::Match {
            end: e,
            nodes,
            far,
        } ==> done.is_prefix_of(nodes) && pairs_from(
            nodes,
            done.len() as int,
            s,
            end,
            o,
            t,
            gql,
            d,
        ),
    decreases s.len() - end,
{
    let p = followed(Peg::Call(o), Peg::Call(t));
    let j = blank_end(s, end);
    lemma_blank_end(s, end);
    lemma_pair(o, t, s, end, gql, d);
    let z = run(p, s, j, false, gql, d);
    if end < s.len() && z is Match {
        let e = z->Match_end;
        let g = larger(f, z->Match_far);
        lemma_more_pairs(o, t, s, e, done + z->nodes, g, gql, d);
        let w = run_more(p, s, e, done + z->nodes, g, false, gql, d);
        if w is Match {
            let n = done.len() as int;
            assert((done + z->nodes)[n] == z->nodes[0]);
            assert((done + z->nodes)[n + 1] == z->nodes[1]);
            assert(w->nodes[n] == z->nodes[0]);
            assert(w->nodes[n + 1] == z->nodes[1]);
            assert(done.is_prefix_of(w->nodes));
        }
    }
}

/// The same pairs behind other nodes, seen from elsewhere.
proof fn lemma_pairs_moved(
    v: Seq<Tree>,
    n: int,
    w: Seq<Tree>,
    k: int,
    s: Seq<char>,
    i: int,
    o: Rule,
    t: Rule,
    gql: bool,
    d: nat,
)
    requires
        pairs_from(v, n, s, i, o, t, gql, d),
        w.len() == v.len() + k,
        forall|a: int| 0 <= n <= a < v.len() ==> like(#[trigger] w[a + k], v[a]),
        0 <= n,
        0 <= k,
    ensures
        pairs_from(w, n + k, s, i, o, t, gql, d),
    decreases v.len() - n,
{
    if n < v.len() {
        let x = rule_at(o, s, blank_end(s, i), gql, d);
        let y = rule_at(t, s, blank_end(s, x->Match_end), gql, d);
        assert(like(w[n + k], v[n]));
        assert(like(w[(n + 1) + k], v[n + 1]));
        lemma_pairs_moved(v, n + 2, w, k, s, y->Match_end, o, t, gql, d);
    }
}

/// The operands that a rule yields, and the operators between them.
proof fn lemma_operands(
    r: Rule,
    o: Rule,
    t: Rule,
    s: Seq<char>,
    i: int,
    gql: bool,
    d: nat,
)
    requires
        0 <= i <= s.len(),
        !is_token(r),
        rule_at(r, s, i, gql, d) is Match,
        body_of(r, gql) == followed(
            Peg::Call(t),
            often(followed(Peg::Call(o), Peg::Call(t))),
        ),
        takes_text(o, s, gql, (d - 1) as nat),
    ensures
        ({
            let u = rule_at(r, s, i, gql, d)->nodes[0];
            let x = rule_at(t, s, i, gql, (d - 1) as nat);
            &&& d > 0
            &&& rule_at(r, s, i, gql, d)->nodes.len() == 1
            &&& u.rule == r
            &&& x is Match
            &&& i <= x->Match_end <= s.len()
            &&& u.children.len() > 0
            &&& like(u.children[0], x->nodes[0])
            &&& x->nodes[0].rule == t
            &&& pairs_from(u.children, 1, s, x->Match_end, o, t, gql, (d - 1) as nat)
        }),
{
    let step = rule_at(r, s, i, gql, d);
    let end = step->Match_end;
    let e = (d - 1) as nat;
    let first = Peg::Call(t);
    let pair = followed(Peg::Call(o), first);
    lemma_run(Peg::Call(r), s, i, false, gql, d);
    let below = split_called(r, s, i, false, gql, d, end, step->nodes);
    let a = split_both(first, often(pair), s, i, false, gql, e, end, below);
    lemma_yields(first, s, i, false, gql, e, a.0, a.1);
    let ignored = split_called(t, s, i, false, gql, e, a.0, a.1);
    law_matches_stand_in_text(first, s, i, false, gql, e);
    lemma_blank_end(s, a.0);
    let j = blank_end(s, a.0);
    lemma_yields(often(pair), s, j, false, gql, e, end, a.2);
    lemma_pair(o, t, s, a.0, gql, e);
    let z = run(pair, s, j, false, gql, e);
    if z is Match {
        lemma_more_pairs(o, t, s, z->Match_end, z->nodes, z->Match_far, gql, e);
        assert(a.2[0] == z->nodes[0]);
        assert(a.2[1] == z->nodes[1]);
    }
    assert(pairs_from(a.2, 0, s, a.0, o, t, gql, e));
    let u = step->nodes[0];
    assert forall|b: int| 0 <= b < a.2.len() implies like(#[trigger] u.children[b + 1], a.2[b]) by {
        assert(below[b + 1] == a.2[b]);
    }
    assert(below[0] == a.1[0]);
    lemma_pairs_moved(a.2, 0, u.children, 1, s, a.0, o, t, gql, e);
}

// ── Arithmetic ───────────────────────────────────────────────────────────────

/// Whether a character adds, or multiplies.
pub open spec fn is_operator(c: char, level: Arithmetic) -> bool {
    match level {
        Arithmetic::Sum => c == '+' || c == '-',
        Arithmetic::Product => c == '*' || c == '/' || c == '%',
    }
}

/// What a character between two operands means.
pub open spec fn combined(c: char, a: m::Expression, b: m::Expression) -> m::Expression {
    if c == '+' {
        m::Expression::Add(Box::new(a), Box::new(b))
    } else if c == '-' {
        m::Expression::Subtract(Box::new(a), Box::new(b))
    } else if c == '*' {
        m::Expression::Multiply(Box::new(a), Box::new(b))
    } else if c == '/' {
        m::Expression::Divide(Box::new(a), Box::new(b))
    } else {
        m::Expression::Modulo(Box::new(a), Box::new(b))
    }
}

/// The rule of sums, or of products.
pub open spec fn level_rule(level: Arithmetic) -> Rule {
    match level {
        Arithmetic::Sum => Rule::add_sub_expr,
        Arithmetic::Product => Rule::mul_div_expr,
    }
}

/// The rule of the operands of sums, or of products.
pub open spec fn term_rule(level: Arithmetic, gql: bool) -> Rule {
    match level {
        Arithmetic::Sum => Rule::mul_div_expr,
        Arithmetic::Product => if gql {
            Rule::unary_expr
        } else {
            Rule::power_expr
        },
    }
}

/// Whether an expression is what comes of `acc` with the operators and operands
/// that stand behind a place, each taken with all that stands to its left.
pub open spec fn computed_behind(
    s: Seq<char>,
    i: int,
    acc: m::Expression,
    e: m::Expression,
    level: Arithmetic,
    gql: bool,
    d: nat,
) -> bool
    decreases s.len() - i,
{
    let j = blank_end(s, i);
    let x = rule_at(term_rule(level, gql), s, blank_end(s, j + 1), gql, d);
    if 0 <= j < s.len() && is_operator(s[j], level) && x is Match {
        &&& i < x->Match_end <= s.len()
        &&& term_in(x->nodes[0], level, gql) matches Ok(b) && computed_behind(
            s,
            x->Match_end,
            combined(s[j], acc, b),
            e,
            level,
            gql,
            d,
        )
    } else {
        e == acc
    }
}

spec fn operator_rule(level: Arithmetic) -> Rule {
    match level {
        Arithmetic::Sum => Rule::add_sub_op,
        Arithmetic::Product => Rule::mul_div_op,
    }
}

/// A word of one sign stands where the sign does.
pub proof fn lemma_sign_at(w: &'static str, c: char, s: Seq<char>, i: int, gql: bool, d: nat)
    requires
        w@.len() == 1,
        w@[0] == c,
        !('a' <= c <= 'z'),
        !('A' <= c <= 'Z'),
    ensures
        0 <= i < s.len() && s[i] == c ==> yields(
            Peg::Word(w),
            s,
            i,
            true,
            gql,
            d,
            i + 1,
            seq![],
        ),
        !(0 <= i < s.len() && s[i] == c) ==> refuses(Peg::Word(w), s, i, true, gql, d),
{
    lemma_word_at(w, s, i, true, gql, d);
    if 0 <= i < s.len() && s[i] == c {
        assert(word_at(s, w@, i));
    } else if word_at(s, w@, i) {
        assert(lower(w@[0]) == lower(s[i + 0]));
    }
}

proof fn lemma_operator(s: Seq<char>, i: int, level: Arithmetic, gql: bool, d: nat)
    requires
        d > 0,
    ensures
        0 <= i < s.len() && is_operator(s[i], level) ==> yields(
            Peg::Call(operator_rule(level)),
            s,
            i,
            false,
            gql,
            d,
            i + 1,
            seq![node_for(operator_rule(level), s, i, i + 1, seq![])],
        ),
        !(0 <= i < s.len() && is_operator(s[i], level)) ==> refuses(
            Peg::Call(operator_rule(level)),
            s,
            i,
            false,
            gql,
            d,
        ),
{
    let e = (d - 1) as nat;
    let r = operator_rule(level);
    let none = Seq::<Tree>::empty();
    let here = 0 <= i < s.len() && is_operator(s[i], level);
    match level {
        Arithmetic::Sum => {
            let a = Peg::Word("+");
            let b = Peg::Word("-");
            reveal_strlit("+");
            reveal_strlit("-");
            assert(body_of(r, gql) == or(a, b));
            lemma_sign_at("+", '+', s, i, gql, e);
            lemma_sign_at("-", '-', s, i, gql, e);
            if here {
                lemma_either(a, b, s, i, true, gql, e, i + 1, none);
            } else {
                lemma_neither(a, b, s, i, true, gql, e);
            }
        },
        Arithmetic::Product => {
            let a = Peg::Word("*");
            let b = Peg::Word("/");
            let c = Peg::Word("%");
            reveal_strlit("*");
            reveal_strlit("/");
            reveal_strlit("%");
            assert(body_of(r, gql) == or(a, or(b, c)));
            lemma_sign_at("*", '*', s, i, gql, e);
            lemma_sign_at("/", '/', s, i, gql, e);
            lemma_sign_at("%", '%', s, i, gql, e);
            if here {
                if s[i] != '*' {
                    lemma_either(b, c, s, i, true, gql, e, i + 1, none);
                }
                lemma_either(a, or(b, c), s, i, true, gql, e, i + 1, none);
            } else {
                lemma_neither(b, c, s, i, true, gql, e);
                lemma_neither(a, or(b, c), s, i, true, gql, e);
            }
        },
    }
    if here {
        lemma_called(r, s, i, false, gql, d, i + 1, none);
    } else {
        lemma_called_refuses(r, s, i, false, gql, d);
    }
}

/// An operator stands at a place, or nothing that its rule matches.
proof fn lemma_operator_at(s: Seq<char>, i: int, level: Arithmetic, gql: bool, d: nat)
    ensures
        ({
            let x = rule_at(operator_rule(level), s, i, gql, d);
            &&& x is Match ==> {
                &&& 0 <= i < s.len()
                &&& is_operator(s[i], level)
                &&& x->Match_end == i + 1
                &&& x->nodes[0].text == seq![s[i]]
            }
            &&& d > 0 && 0 <= i < s.len() && is_operator(s[i], level) ==> x is Match
        }),
{
    let r = operator_rule(level);
    let p = Peg::Call(r);
    if d > 0 {
        lemma_operator(s, i, level, gql, d);
        lemma_run(p, s, i, false, gql, d);
        if 0 <= i < s.len() && is_operator(s[i], level) {
            let u = node_for(r, s, i, i + 1, seq![]);
            lemma_yields(p, s, i, false, gql, d, i + 1, seq![u]);
            assert(lower_text(s.subrange(i, i + 1)) =~= seq![s[i]]);
        } else {
            let x = rule_at(r, s, i, gql, d);
            if x is Match {
                lemma_yields(p, s, i, false, gql, d, x->Match_end, x->nodes);
            }
        }
    }
}

proof fn lemma_terms_step(acc: m::Expression, ch: Seq<Tree>, n: int, level: Arithmetic, gql: bool)
    requires
        0 <= n,
        n + 1 < ch.len(),
    ensures
        terms_in(acc, ch, n, level, gql) matches Ok(e) ==> (term_in(
            ch[n + 1],
            level,
            gql,
        ) matches Ok(b) && (applied(level, ch[n].text, acc, b) matches Some(f) && terms_in(
            f,
            ch,
            n + 2,
            level,
            gql,
        ) == Built::Ok(e))),
{
}

proof fn lemma_term_like(t: Tree, u: Tree, level: Arithmetic, gql: bool)
    requires
        like(t, u),
    ensures
        term_in(t, level, gql) == term_in(u, level, gql),
{
    reveal_with_fuel(term_in, 2);
    reveal_with_fuel(arithmetic_in, 2);
    reveal_with_fuel(crate::parser::meaning::unary_in, 2);
    reveal_with_fuel(crate::parser::meaning::power_in, 2);
}

proof fn lemma_applied(c: char, level: Arithmetic, a: m::Expression, b: m::Expression)
    requires
        is_operator(c, level),
    ensures
        applied(level, seq![c], a, b) == Some(combined(c, a, b)),
{
    reveal_strlit("+");
    reveal_strlit("-");
    reveal_strlit("*");
    reveal_strlit("/");
    reveal_strlit("%");
    let t = seq![c];
    assert(c == '+' ==> t =~= "+"@);
    assert(c == '-' ==> t =~= "-"@);
    assert(c == '*' ==> t =~= "*"@);
    assert(c == '/' ==> t =~= "/"@);
    assert(c == '%' ==> t =~= "%"@);
    assert(t == "+"@ ==> t[0] == "+"@[0]);
    assert(t == "-"@ ==> t[0] == "-"@[0]);
    assert(t == "*"@ ==> t[0] == "*"@[0]);
    assert(t == "/"@ ==> t[0] == "/"@[0]);
    assert(t == "%"@ ==> t[0] == "%"@[0]);
}

proof fn lemma_computed(
    ch: Seq<Tree>,
    n: int,
    s: Seq<char>,
    i: int,
    acc: m::Expression,
    level: Arithmetic,
    gql: bool,
    d: nat,
)
    requires
        d > 0,
        0 <= n,
        0 <= i <= s.len(),
        pairs_from(ch, n, s, i, operator_rule(level), term_rule(level, gql), gql, d),
    ensures
        terms_in(acc, ch, n, level, gql) matches Ok(e) ==> computed_behind(
            s,
            i,
            acc,
            e,
            level,
            gql,
            d,
        ),
    decreases ch.len() - n,
{
    let j = blank_end(s, i);
    lemma_blank_end(s, i);
    lemma_operator_at(s, j, level, gql, d);
    let x = rule_at(operator_rule(level), s, j, gql, d);
    let y = rule_at(term_rule(level, gql), s, blank_end(s, x->Match_end), gql, d);
    if n < ch.len() {
        lemma_terms_step(acc, ch, n, level, gql);
        lemma_term_like(ch[n + 1], y->nodes[0], level, gql);
        if let Ok(b) = term_in(y->nodes[0], level, gql) {
            lemma_applied(s[j], level, acc, b);
            lemma_computed(ch, n + 2, s, y->Match_end, combined(s[j], acc, b), level, gql, d);
        }
    } else {
        assert(terms_in(acc, ch, n, level, gql) == Built::Ok(acc));
    }
}

proof fn lemma_arithmetic_in(t: Tree, level: Arithmetic, gql: bool)
    requires
        t.children.len() > 0,
    ensures
        arithmetic_in(t, level, gql) matches Ok(e) ==> (term_in(
            t.children[0],
            level,
            gql,
        ) matches Ok(a) && terms_in(a, t.children, 1, level, gql) == Built::Ok(e)),
{
}

/// A sum adds and subtracts its operands from left to right, as the signs between
/// them say, and a product multiplies, divides and takes remainders so.
pub proof fn law_arithmetic_is_read(s: Seq<char>, i: int, level: Arithmetic, gql: bool, d: nat)
    requires
        0 <= i <= s.len(),
        rule_at(level_rule(level), s, i, gql, d) is Match,
    ensures
        ({
            let t = rule_at(level_rule(level), s, i, gql, d)->nodes[0];
            let x = rule_at(term_rule(level, gql), s, i, gql, (d - 1) as nat);
            &&& x is Match
            &&& arithmetic_in(t, level, gql) matches Ok(e) ==> (term_in(
                x->nodes[0],
                level,
                gql,
            ) matches Ok(a) && computed_behind(
                s,
                x->Match_end,
                a,
                e,
                level,
                gql,
                (d - 1) as nat,
            ))
        }),
{
    let r = level_rule(level);
    let o = operator_rule(level);
    let g = term_rule(level, gql);
    let e = (d - 1) as nat;
    assert(body_of(r, gql) == followed(
        Peg::Call(g),
        often(followed(Peg::Call(o), Peg::Call(g))),
    ));
    assert forall|k: int|
        (#[trigger] rule_at(o, s, k, gql, e)) matches Step::Match { end, nodes, far } implies k
        < rule_at(o, s, k, gql, e)->Match_end by {
        lemma_operator_at(s, k, level, gql, e);
    }
    lemma_operands(r, o, g, s, i, gql, d);
    let t = rule_at(r, s, i, gql, d)->nodes[0];
    let x = rule_at(g, s, i, gql, e);
    lemma_arithmetic_in(t, level, gql);
    lemma_term_like(t.children[0], x->nodes[0], level, gql);
    if let Ok(a) = term_in(x->nodes[0], level, gql) {
        lemma_rule_of(g, s, i, gql, e);
        lemma_computed(t.children, 1, s, x->Match_end, a, level, gql, e);
    }
}

// ── Connectives ──────────────────────────────────────────────────────────────

/// The keyword of a connective.
pub open spec fn connective_word(c: Connective) -> Seq<char> {
    match c {
        Connective::Or => "OR"@,
        Connective::Xor => "XOR"@,
        Connective::And => "AND"@,
    }
}

/// What a connective between two operands means.
pub open spec fn connection(c: Connective, a: m::Expression, b: m::Expression) -> m::Expression {
    match c {
        Connective::Or => m::Expression::Or(Box::new(a), Box::new(b)),
        Connective::Xor => m::Expression::Xor(Box::new(a), Box::new(b)),
        Connective::And => m::Expression::And(Box::new(a), Box::new(b)),
    }
}

/// The rule of what a connective joins: `OR` joins what `XOR` joins, which joins
/// what `AND` joins.
pub open spec fn joined_rule(c: Connective) -> Rule {
    match c {
        Connective::Or => Rule::xor_expr,
        Connective::Xor => Rule::and_expr,
        Connective::And => Rule::not_expr,
    }
}

pub open spec fn connective_rule(c: Connective) -> Rule {
    match c {
        Connective::Or => Rule::or_expr,
        Connective::Xor => Rule::xor_expr,
        Connective::And => Rule::and_expr,
    }
}

/// Whether an expression is what comes of `acc` with the operands that stand behind
/// a place, a connective before each.
pub open spec fn connected_behind(
    s: Seq<char>,
    i: int,
    acc: m::Expression,
    e: m::Expression,
    c: Connective,
    gql: bool,
    d: nat,
) -> bool
    decreases s.len() - i,
{
    let j = blank_end(s, i);
    let k = blank_end(s, j + connective_word(c).len());
    let x = rule_at(joined_rule(c), s, k, gql, d);
    if keyword_at(s, connective_word(c), j) && x is Match {
        &&& i < x->Match_end <= s.len()
        &&& operand_in(x->nodes[0], c, gql) matches Ok(b) && connected_behind(
            s,
            x->Match_end,
            connection(c, acc, b),
            e,
            c,
            gql,
            d,
        )
    } else {
        e == acc
    }
}

spec fn keyword_rule(c: Connective) -> Rule {
    match c {
        Connective::Or => Rule::kw_OR,
        Connective::Xor => Rule::kw_XOR,
        Connective::And => Rule::kw_AND,
    }
}

proof fn lemma_connective_at(s: Seq<char>, i: int, c: Connective, gql: bool, d: nat)
    ensures
        connective_word(c).len() > 0,
        ({
            let x = rule_at(keyword_rule(c), s, i, gql, d);
            &&& x is Match ==> {
                &&& keyword_at(s, connective_word(c), i)
                &&& x->Match_end == i + connective_word(c).len()
                &&& x->nodes[0].rule == keyword_rule(c)
            }
            &&& d > 0 && keyword_at(s, connective_word(c), i) ==> x is Match
        }),
{
    let r = keyword_rule(c);
    let w = match c {
        Connective::Or => "OR",
        Connective::Xor => "XOR",
        Connective::And => "AND",
    };
    reveal_strlit("OR");
    reveal_strlit("XOR");
    reveal_strlit("AND");
    let p = Peg::Call(r);
    let x = rule_at(r, s, i, gql, d);
    lemma_run(p, s, i, false, gql, d);
    assert(body_of(r, gql) == followed(
        Peg::Word(w),
        Peg::Not(Box::new(Peg::One(Class::NamePart))),
    ));
    if x is Match {
        lemma_found_keyword(r, w, s, i, gql, d, x->Match_end, x->nodes);
    }
    if d > 0 {
        lemma_keyword(r, w, s, i, gql, d);
        if keyword_at(s, w@, i) {
            let e = i + w@.len();
            lemma_yields(p, s, i, false, gql, d, e, seq![node_for(r, s, i, e, seq![])]);
        }
    }
}

proof fn lemma_operand_step(
    ch: Seq<Tree>,
    n: int,
    acc: Option<m::Expression>,
    c: Connective,
    gql: bool,
)
    requires
        0 <= n < ch.len(),
    ensures
        ch[n].rule == joined_rule(c) ==> (connected_in(ch, n, acc, c, gql) matches Ok(e) ==> (
        operand_in(ch[n], c, gql) matches Ok(b) && connected_in(
            ch,
            n + 1,
            Some(
                match acc {
                    None => b,
                    Some(a) => connection(c, a, b),
                },
            ),
            c,
            gql,
        ) == Built::Ok(e))),
        ch[n].rule != joined_rule(c) ==> connected_in(ch, n, acc, c, gql) == connected_in(
            ch,
            n + 1,
            acc,
            c,
            gql,
        ),
{
}

proof fn lemma_operand_like(t: Tree, u: Tree, c: Connective, gql: bool)
    requires
        like(t, u),
    ensures
        operand_in(t, c, gql) == operand_in(u, c, gql),
{
    reveal_with_fuel(not_in, 2);
}

proof fn lemma_connected(
    ch: Seq<Tree>,
    n: int,
    s: Seq<char>,
    i: int,
    acc: m::Expression,
    c: Connective,
    gql: bool,
    d: nat,
)
    requires
        d > 0,
        0 <= n,
        0 <= i <= s.len(),
        pairs_from(ch, n, s, i, keyword_rule(c), joined_rule(c), gql, d),
    ensures
        connected_in(ch, n, Some(acc), c, gql) matches Ok(e) ==> connected_behind(
            s,
            i,
            acc,
            e,
            c,
            gql,
            d,
        ),
    decreases ch.len() - n,
{
    let j = blank_end(s, i);
    lemma_blank_end(s, i);
    lemma_connective_at(s, j, c, gql, d);
    let x = rule_at(keyword_rule(c), s, j, gql, d);
    let k = blank_end(s, x->Match_end);
    let y = rule_at(joined_rule(c), s, k, gql, d);
    if n < ch.len() {
        lemma_rule_of(joined_rule(c), s, k, gql, d);
        lemma_operand_step(ch, n, Some(acc), c, gql);
        lemma_operand_step(ch, n + 1, Some(acc), c, gql);
        lemma_operand_like(ch[n + 1], y->nodes[0], c, gql);
        if let Ok(b) = operand_in(y->nodes[0], c, gql) {
            lemma_connected(ch, n + 2, s, y->Match_end, connection(c, acc, b), c, gql, d);
        }
    } else {
        assert(connected_in(ch, n, Some(acc), c, gql) == Built::Ok(acc));
    }
}

/// The node of a rule has the rule.
pub proof fn lemma_rule_of(r: Rule, s: Seq<char>, i: int, gql: bool, d: nat)
    ensures
        rule_at(r, s, i, gql, d) matches Step::Match { end, nodes, far } ==> nodes.len() == 1
            && nodes[0].rule == r && nodes[0].start == i && d > 0,
{
}

/// `OR`, `XOR` and `AND` join the operands that they stand between, from left to
/// right.
pub proof fn law_connective_is_read(s: Seq<char>, i: int, c: Connective, gql: bool, d: nat)
    requires
        0 <= i <= s.len(),
        rule_at(connective_rule(c), s, i, gql, d) is Match,
    ensures
        ({
            let t = rule_at(connective_rule(c), s, i, gql, d)->nodes[0];
            let x = rule_at(joined_rule(c), s, i, gql, (d - 1) as nat);
            &&& x is Match
            &&& connected_in(t.children, 0, None, c, gql) matches Ok(e) ==> (operand_in(
                x->nodes[0],
                c,
                gql,
            ) matches Ok(a) && connected_behind(
                s,
                x->Match_end,
                a,
                e,
                c,
                gql,
                (d - 1) as nat,
            ))
        }),
{
    let r = connective_rule(c);
    let o = keyword_rule(c);
    let g = joined_rule(c);
    let e = (d - 1) as nat;
    assert(body_of(r, gql) == followed(
        Peg::Call(g),
        often(followed(Peg::Call(o), Peg::Call(g))),
    ));
    assert forall|k: int|
        (#[trigger] rule_at(o, s, k, gql, e)) matches Step::Match { end, nodes, far } implies k
        < rule_at(o, s, k, gql, e)->Match_end by {
        lemma_connective_at(s, k, c, gql, e);
    }
    lemma_operands(r, o, g, s, i, gql, d);
    let t = rule_at(r, s, i, gql, d)->nodes[0];
    let x = rule_at(g, s, i, gql, e);
    lemma_operand_step(t.children, 0, None, c, gql);
    lemma_operand_like(t.children[0], x->nodes[0], c, gql);
    if let Ok(a) = operand_in(x->nodes[0], c, gql) {
        lemma_rule_of(g, s, i, gql, e);
        lemma_connected(t.children, 1, s, x->Match_end, a, c, gql, e);
    }
}

proof fn lemma_expression_in(t: Tree, u: Tree, gql: bool)
    requires
        t.children.len() > 0,
        t.children[0].children == u.children,
    ensures
        expression_in(t, gql) == connected_in(u.children, 0, None, Connective::Or, gql),
{
}

/// An expression is the disjunction that stands in its place.
pub proof fn law_expression_is_read(s: Seq<char>, i: int, gql: bool, d: nat)
    requires
        rule_at(Rule::expression, s, i, gql, d) is Match,
    ensures
        ({
            let x = rule_at(Rule::or_expr, s, i, gql, (d - 1) as nat);
            &&& x is Match
            &&& expression_in(rule_at(Rule::expression, s, i, gql, d)->nodes[0], gql)
                == connected_in(x->nodes[0].children, 0, None, Connective::Or, gql)
        }),
{
    let r = Rule::expression;
    let step = rule_at(r, s, i, gql, d);
    let end = step->Match_end;
    assert(body_of(r, gql) == Peg::Call(Rule::or_expr));
    lemma_run(Peg::Call(r), s, i, false, gql, d);
    let below = split_called(r, s, i, false, gql, d, end, step->nodes);
    lemma_yields(Peg::Call(Rule::or_expr), s, i, false, gql, (d - 1) as nat, end, below);
    lemma_rule_of(Rule::or_expr, s, i, gql, (d - 1) as nat);
    lemma_expression_in(step->nodes[0], below[0], gql);
}

/// `NOT` denies what stands behind it; without it a comparison stands alone.
pub proof fn law_not_is_read(s: Seq<char>, i: int, gql: bool, d: nat)
    requires
        rule_at(Rule::not_expr, s, i, gql, d) is Match,
    ensures
        ({
            let t = rule_at(Rule::not_expr, s, i, gql, d)->nodes[0];
            let e = (d - 1) as nat;
            let x = rule_at(Rule::not_expr, s, blank_end(s, i + 3), gql, e);
            let y = rule_at(Rule::comparison_expr, s, i, gql, e);
            if keyword_at(s, "NOT"@, i) && x is Match {
                match not_in(x->nodes[0], gql) {
                    Ok(a) => not_in(t, gql) == Built::Ok(m::Expression::Not(Box::new(a))),
                    Err(f) => not_in(t, gql) == Built::<m::Expression>::Err(f),
                }
            } else {
                y is Match && not_in(t, gql) == comparison_in(y->nodes[0], gql)
            }
        }),
{
    let r = Rule::not_expr;
    let step = rule_at(r, s, i, gql, d);
    let end = step->Match_end;
    let e = (d - 1) as nat;
    let not = Peg::Call(Rule::kw_NOT);
    let inner = Peg::Call(Rule::not_expr);
    let plain = Peg::Call(Rule::comparison_expr);
    let denied = followed(not, inner);
    assert(body_of(r, gql) == or(denied, plain));
    lemma_run(Peg::Call(r), s, i, false, gql, d);
    let below = split_called(r, s, i, false, gql, d, end, step->nodes);
    split_either(denied, plain, s, i, false, gql, e, end, below);
    reveal_strlit("NOT");
    let t = step->nodes[0];
    if yields(denied, s, i, false, gql, e, end, below) {
        let a = split_both(not, inner, s, i, false, gql, e, end, below);
        lemma_found_keyword(Rule::kw_NOT, "NOT", s, i, gql, e, a.0, a.1);
        let k = blank_end(s, i + 3);
        lemma_yields(inner, s, k, false, gql, e, end, a.2);
        lemma_rule_of(Rule::not_expr, s, k, gql, e);
        assert(below[0] == a.1[0]);
        assert(below[1] == a.2[0]);
        assert(t.children.len() == 2);
        assert(t.children[0].rule == Rule::kw_NOT);
        lemma_not_in(t, a.2[0], gql);
    } else {
        lemma_yields(plain, s, i, false, gql, e, end, below);
        lemma_rule_of(Rule::comparison_expr, s, i, gql, e);
        assert(t.children[0].rule == Rule::comparison_expr);
        lemma_not_in(t, below[0], gql);
        let x = rule_at(Rule::not_expr, s, blank_end(s, i + 3), gql, e);
        if keyword_at(s, "NOT"@, i) && x is Match {
            lemma_keyword(Rule::kw_NOT, "NOT", s, i, gql, e);
            let k = seq![node_for(Rule::kw_NOT, s, i, i + 3, seq![])];
            let z = blank_end(s, i + 3);
            lemma_run(inner, s, z, false, gql, e);
            lemma_both(not, inner, s, i, false, gql, e, i + 3, k, x->Match_end, x->nodes);
            lemma_yields(denied, s, i, false, gql, e, x->Match_end, k + x->nodes);
        }
    }
}

proof fn lemma_not_in(t: Tree, u: Tree, gql: bool)
    ensures
        t.children.len() == 2 && t.children[0].rule == Rule::kw_NOT && t.children[1].children
            == u.children ==> match not_in(u, gql) {
            Ok(a) => not_in(t, gql) == Built::Ok(m::Expression::Not(Box::new(a))),
            Err(f) => not_in(t, gql) == Built::<m::Expression>::Err(f),
        },
        t.children.len() > 0 && t.children[0].rule == Rule::comparison_expr
            && t.children[0].children == u.children ==> not_in(t, gql) == comparison_in(u, gql),
{
    reveal_with_fuel(not_in, 3);
    reveal_with_fuel(comparison_in, 2);
}

// ── Arrows ───────────────────────────────────────────────────────────────────

/// What the rule of a sign matches.
pub proof fn lemma_found_sign(
    r: Rule,
    w: &'static str,
    s: Seq<char>,
    i: int,
    gql: bool,
    d: nat,
    end: int,
    x: Seq<Tree>,
)
    requires
        is_token(r),
        body_of(r, gql) == Peg::Word(w),
        yields(Peg::Call(r), s, i, false, gql, d, end, x),
    ensures
        word_at(s, w@, i),
        end == i + w@.len(),
        x == seq![node_for(r, s, i, end, seq![])],
{
    let below = split_called(r, s, i, false, gql, d, end, x);
    let e = (d - 1) as nat;
    lemma_word_at(w, s, i, true, gql, e);
    lemma_yields(Peg::Word(w), s, i, true, gql, e, end, below);
    if word_at(s, w@, i) {
        lemma_yields(Peg::Word(w), s, i, true, gql, e, i + w@.len(), seq![]);
    }
}

proof fn lemma_arrow_signs(s: Seq<char>, i: int)
    ensures
        "<-"@.len() == 2,
        "->"@.len() == 2,
        "-"@.len() == 1,
        "<-->"@.len() == 4,
        word_at(s, "<-"@, i) ==> s[i] == '<',
        word_at(s, "-"@, i) ==> s[i] == '-',
        word_at(s, "->"@, i) ==> s[i + 1] == '>',
        word_at(s, "<-->"@, i) ==> s[i] == '<' && s[i + 3] == '>',
{
    reveal_strlit("<-");
    reveal_strlit("->");
    reveal_strlit("-");
    reveal_strlit("<-->");
    if word_at(s, "<-"@, i) {
        assert(lower("<-"@[0]) == lower(s[i + 0]));
    }
    if word_at(s, "-"@, i) {
        assert(lower("-"@[0]) == lower(s[i + 0]));
    }
    if word_at(s, "->"@, i) {
        assert(lower("->"@[1]) == lower(s[i + 1]));
    }
    if word_at(s, "<-->"@, i) {
        assert(lower("<-->"@[0]) == lower(s[i + 0]));
        assert(lower("<-->"@[3]) == lower(s[i + 3]));
    }
}

/// A relationship between two signs.
spec fn arrow(a: Rule, b: Rule) -> Peg {
    followed(Peg::Call(a), followed(Peg::Call(Rule::rel_body), Peg::Call(b)))
}

spec fn sign_of(r: Rule) -> &'static str {
    if r == Rule::left_arrow {
        "<-"
    } else if r == Rule::right_arrow {
        "->"
    } else {
        "-"
    }
}

proof fn lemma_arrow(
    a: Rule,
    b: Rule,
    s: Seq<char>,
    i: int,
    gql: bool,
    d: nat,
    end: int,
    x: Seq<Tree>,
)
    requires
        a == Rule::left_arrow || a == Rule::rel_dash,
        b == Rule::right_arrow || b == Rule::rel_dash,
        yields(arrow(a, b), s, i, false, gql, d, end, x),
    ensures
        x.len() == 3,
        x[0].rule == a,
        x[1].rule == Rule::rel_body,
        x[2].rule == b,
        (s[i] == '<') == (a == Rule::left_arrow),
        (s[end - 1] == '>') == (b == Rule::right_arrow),
{
    let body = Peg::Call(Rule::rel_body);
    let last = Peg::Call(b);
    let u = split_both(Peg::Call(a), followed(body, last), s, i, false, gql, d, end, x);
    let v = split_both(body, last, s, next_part(s, u.0, false), false, gql, d, end, u.2);
    let ignored = split_called(
        Rule::rel_body,
        s,
        next_part(s, u.0, false),
        false,
        gql,
        d,
        v.0,
        v.1,
    );
    let k = next_part(s, v.0, false);
    lemma_found_sign(a, sign_of(a), s, i, gql, d, u.0, u.1);
    lemma_found_sign(b, sign_of(b), s, k, gql, d, end, v.2);
    lemma_arrow_signs(s, i);
    lemma_arrow_signs(s, k);
    assert(x =~= seq![u.1[0], v.1[0], v.2[0]]);
}

/// The direction of an arrow by its first and its last character.
pub open spec fn points(first: char, last: char) -> Direction {
    if first == '<' && last != '>' {
        Direction::Left
    } else if first != '<' && last == '>' {
        Direction::Right
    } else {
        Direction::Both
    }
}

proof fn lemma_arrow_direction(t: Tree, a: Rule, b: Rule)
    requires
        t.children.len() == 3,
        t.children[0].rule == a,
        t.children[1].rule == Rule::rel_body,
        t.children[2].rule == b,
        a == Rule::left_arrow || a == Rule::rel_dash,
        b == Rule::right_arrow || b == Rule::rel_dash,
    ensures
        holds(t, at(t, Rule::left_arrow)) == (a == Rule::left_arrow),
        holds(t, at(t, Rule::right_arrow)) == (b == Rule::right_arrow),
{
    if a == Rule::left_arrow {
        lemma_child(t, Rule::left_arrow, 0);
    } else {
        lemma_no_child(t, Rule::left_arrow);
    }
    if b == Rule::right_arrow {
        lemma_child(t, Rule::right_arrow, 2);
    } else {
        lemma_no_child(t, Rule::right_arrow);
    }
}

proof fn lemma_direction_of(t: Tree, gql: bool)
    ensures
        rel_pattern_in(t, gql) matches Ok(p) ==> p is Relationship && p->Relationship_0.direction
            == direction_in(t),
{
}

/// A relationship points to the left where it begins with `<`, to the right where it
/// ends with `>`, and in no direction of its own with both or neither.
pub proof fn law_direction_is_read(s: Seq<char>, i: int, gql: bool, d: nat)
    requires
        rule_at(Rule::rel_pattern, s, i, gql, d) is Match,
    ensures
        ({
            let x = rule_at(Rule::rel_pattern, s, i, gql, d);
            rel_pattern_in(x->nodes[0], gql) matches Ok(p) ==> p is Relationship
                && p->Relationship_0.direction == points(s[i], s[x->Match_end - 1])
        }),
{
    let r = Rule::rel_pattern;
    let step = rule_at(r, s, i, gql, d);
    let end = step->Match_end;
    let e = (d - 1) as nat;
    lemma_run(Peg::Call(r), s, i, false, gql, d);
    let below = split_called(r, s, i, false, gql, d, end, step->nodes);
    let t = step->nodes[0];
    lemma_direction_of(t, gql);
    let left = Rule::left_arrow;
    let right = Rule::right_arrow;
    let dash = Rule::rel_dash;
    let ld = arrow(left, dash);
    let dr = arrow(dash, right);
    let dd = arrow(dash, dash);
    let three = or(ld, or(dr, dd));
    if gql {
        assert(body_of(r, gql) == three);
    } else {
        let lr = arrow(left, right);
        let full = Peg::Call(Rule::full_arrow);
        assert(body_of(r, gql) == or(full, or(lr, three)));
        split_either(full, or(lr, three), s, i, false, gql, e, end, below);
        if yields(full, s, i, false, gql, e, end, below) {
            lemma_found_sign(Rule::full_arrow, "<-->", s, i, gql, e, end, below);
            lemma_arrow_signs(s, i);
            lemma_no_child(t, left);
            lemma_no_child(t, right);
        } else {
            split_either(lr, three, s, i, false, gql, e, end, below);
            if yields(lr, s, i, false, gql, e, end, below) {
                lemma_arrow(left, right, s, i, gql, e, end, below);
                lemma_arrow_direction(t, left, right);
            }
        }
    }
    if yields(three, s, i, false, gql, e, end, below) {
        split_either(ld, or(dr, dd), s, i, false, gql, e, end, below);
        if yields(ld, s, i, false, gql, e, end, below) {
            lemma_arrow(left, dash, s, i, gql, e, end, below);
            lemma_arrow_direction(t, left, dash);
        } else {
            split_either(dr, dd, s, i, false, gql, e, end, below);
            if yields(dr, s, i, false, gql, e, end, below) {
                lemma_arrow(dash, right, s, i, gql, e, end, below);
                lemma_arrow_direction(t, dash, right);
            } else {
                lemma_arrow(dash, dash, s, i, gql, e, end, below);
                lemma_arrow_direction(t, dash, dash);
            }
        }
    }
}

} // verus!
