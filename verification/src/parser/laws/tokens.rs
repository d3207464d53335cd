//! What single tokens say.
use vstd::prelude::*;

#[allow(unused_imports)]
use crate::ast::cypher::RangeQuantifier;
#[allow(unused_imports)]
use crate::ast::model as m;
#[allow(unused_imports)]
use crate::parser::error::Built;
#[allow(unused_imports)]
use crate::parser::grammar::body_of;
#[allow(unused_imports)]
use crate::parser::laws::keywords::rule_at;
#[allow(unused_imports)]
use crate::parser::laws::places::{
    keyword_at, lemma_one_keyword, lemma_run, lemma_same_word, lemma_word_at, lemma_yields,
    split_both, split_called, split_either, yields,
};
#[allow(unused_imports)]
use crate::parser::laws::steps::{followed, or};
#[allow(unused_imports)]
use crate::parser::lexical::{bound_in, dots_from, range_in, u64_in};
#[allow(unused_imports)]
use crate::parser::meaning::literal_in;
#[allow(unused_imports)]
use crate::parser::peg::{run, word_at, Class, Peg};
#[allow(unused_imports)]
use crate::parser::tree::{Rule, Tree};
#[allow(unused_imports)]
use crate::sparql::value::lemma_digits_read;
#[allow(unused_imports)]
use crate::text::{
    dec, digits, is_white, lower, lower_text, trim_end_spec, trim_spec, trim_start_spec,
};

verus! {

// ── Truth values ─────────────────────────────────────────────────────────────

/// A word inside a token, with no character of a name behind it.
proof fn lemma_inner_word(
    w: &'static str,
    s: Seq<char>,
    i: int,
    gql: bool,
    d: nat,
    end: int,
    x: Seq<Tree>,
)
    requires
        yields(
            followed(Peg::Word(w), Peg::Not(Box::new(Peg::One(Class::NamePart)))),
            s,
            i,
            true,
            gql,
            d,
            end,
            x,
        ),
    ensures
        keyword_at(s, w@, i),
        end == i + w@.len(),
{
    let word = Peg::Word(w);
    let part = Peg::One(Class::NamePart);
    let not = Peg::Not(Box::new(part));
    let a = split_both(word, not, s, i, true, gql, d, end, x);
    lemma_word_at(w, s, i, true, gql, d);
    lemma_yields(word, s, i, true, gql, d, a.0, a.1);
    if word_at(s, w@, i) {
        lemma_yields(word, s, i, true, gql, d, i + w@.len(), seq![]);
    }
    lemma_yields(not, s, a.0, true, gql, d, end, a.2);
    lemma_same_word(s, w@, i);
    assert(run(part, s, a.0, true, gql, d) is Fail);
}

/// `TRUE` is the one truth value, `FALSE` the other, in whatever case.
pub proof fn law_truth_value_is_read(s: Seq<char>, i: int, gql: bool, d: nat)
    requires
        rule_at(Rule::boolean_literal, s, i, gql, d) is Match,
    ensures
        literal_in(rule_at(Rule::boolean_literal, s, i, gql, d)->nodes[0], gql) == Built::Ok(
            m::Literal::Boolean(keyword_at(s, "TRUE"@, i)),
        ),
        keyword_at(s, "FALSE"@, i) == !keyword_at(s, "TRUE"@, i),
{
    let r = Rule::boolean_literal;
    let step = rule_at(r, s, i, gql, d);
    let end = step->Match_end;
    let e = (d - 1) as nat;
    let not = Peg::Not(Box::new(Peg::One(Class::NamePart)));
    let yes = followed(Peg::Word("TRUE"), not);
    let no = followed(Peg::Word("FALSE"), not);
    assert(body_of(r, gql) == or(yes, no));
    reveal_strlit("TRUE");
    reveal_strlit("FALSE");
    reveal_strlit("true");
    lemma_run(Peg::Call(r), s, i, false, gql, d);
    let x = split_called(r, s, i, false, gql, d, end, step->nodes);
    split_either(yes, no, s, i, true, gql, e, end, x);
    let text = step->nodes[0].text;
    let here = s.subrange(i, end);
    assert(text =~= lower_text(here));
    if yields(yes, s, i, true, gql, e, end, x) {
        lemma_inner_word("TRUE", s, i, gql, e, end, x);
        lemma_one_keyword(s, "TRUE"@, "FALSE"@, i);
        assert forall|k: int| 0 <= k < 4 implies lower_text(text)[k] == lower_text("true"@)[k] by {
            assert(lower_text(here)[k] == lower_text("TRUE"@)[k]);
        }
        assert(lower_text(text) =~= lower_text("true"@));
    } else {
        lemma_inner_word("FALSE", s, i, gql, e, end, x);
        lemma_one_keyword(s, "FALSE"@, "TRUE"@, i);
        assert(lower_text(text).len() == 5);
        assert(lower_text("true"@).len() == 4);
    }
}

// ── Whole numbers ────────────────────────────────────────────────────────────

proof fn lemma_all_digits(n: nat)
    ensures
        digits(n).len() > 0,
        forall|k: int| 0 <= k < digits(n).len() ==> '0' <= #[trigger] digits(n)[k] <= '9',
    decreases n,
{
    if n >= 10 {
        lemma_all_digits(n / 10);
    }
}

/// The decimal text of a number is read as the number.
pub proof fn law_whole_number_is_read(n: i64, text: Seq<char>, start: int, gql: bool)
    requires
        n >= 0,
        text == dec(n as int),
    ensures
        literal_in(
            (Tree { rule: Rule::integer_literal, text, start, children: seq![] }),
            gql,
        ) == Built::Ok(m::Literal::Integer(n)),
{
    lemma_digits_read(n as nat);
}

// ── Ranges ───────────────────────────────────────────────────────────────────

/// Whether a text begins and ends with something else than a blank.
spec fn is_tight(t: Seq<char>) -> bool {
    t.len() > 0 && !is_white(t[0]) && !is_white(t.last())
}

proof fn lemma_tight(t: Seq<char>)
    requires
        is_tight(t) || t.len() == 0,
    ensures
        trim_spec(t) == t,
{
    let white = |c: char| is_white(c);
    assert(trim_start_spec(t, white) == t);
    assert(trim_end_spec(t, white) == t);
}

proof fn lemma_star(t: Seq<char>)
    requires
        t.len() > 0 ==> t[0] != '*',
    ensures
        trim_start_spec(seq!['*'] + t, |c: char| c == '*') == t,
{
    let star = |c: char| c == '*';
    let all = seq!['*'] + t;
    assert(all.skip(1) =~= t);
    assert(trim_start_spec(t, star) == t);
}

proof fn lemma_dots(a: Seq<char>, b: Seq<char>, i: int)
    requires
        0 <= i <= a.len(),
        forall|k: int| 0 <= k < a.len() ==> '0' <= #[trigger] a[k] <= '9',
    ensures
        dots_from(a + seq!['.', '.'] + b, i) == a.len(),
    decreases a.len() - i,
{
    let all = a + seq!['.', '.'] + b;
    if i < a.len() {
        assert(all[i] == a[i]);
        lemma_dots(a, b, i + 1);
    } else {
        assert(all[i] == '.' && all[i + 1] == '.');
    }
}

proof fn lemma_no_dots(a: Seq<char>, i: int)
    requires
        0 <= i,
        forall|k: int| 0 <= k < a.len() ==> '0' <= #[trigger] a[k] <= '9',
    ensures
        dots_from(a, i) == -1,
    decreases a.len() - i,
{
    if i + 2 <= a.len() {
        assert('0' <= a[i] <= '9');
        lemma_no_dots(a, i + 1);
    }
}

/// The text of a bound; of none, no text.
pub open spec fn bound_text(b: Option<u64>) -> Seq<char> {
    match b {
        Some(n) => dec(n as int),
        None => seq![],
    }
}

proof fn lemma_bound(b: Option<u64>)
    ensures
        bound_in(bound_text(b)) == b,
        forall|k: int|
            0 <= k < bound_text(b).len() ==> '0' <= #[trigger] bound_text(b)[k] <= '9',
        b is Some ==> bound_text(b).len() > 0 && u64_in(bound_text(b), 10) == b,
{
    let t = bound_text(b);
    if let Some(n) = b {
        lemma_digits_read(n as nat);
        lemma_all_digits(n as nat);
        assert('0' <= t[0] <= '9');
        assert('0' <= t[t.len() - 1] <= '9');
    }
    lemma_tight(t);
}

/// A range `*a..b` goes from `a` to `b`, `*a..` from `a` on, `*..b` up to `b`, `*..`
/// over all lengths.
pub proof fn law_range_is_read(lower: Option<u64>, upper: Option<u64>)
    ensures
        range_in(seq!['*'] + bound_text(lower) + seq!['.', '.'] + bound_text(upper)) == (
        RangeQuantifier { lower, upper }),
{
    let a = bound_text(lower);
    let b = bound_text(upper);
    lemma_bound(lower);
    lemma_bound(upper);
    let rest = a + seq!['.', '.'] + b;
    let text = seq!['*'] + a + seq!['.', '.'] + b;
    assert(text =~= seq!['*'] + rest);
    assert(text[0] == '*');
    if b.len() > 0 {
        assert(text.last() == b[b.len() - 1]);
        assert(rest.last() == b[b.len() - 1]);
    } else {
        assert(text.last() == '.');
        assert(rest.last() == '.');
    }
    if a.len() > 0 {
        assert(rest[0] == a[0]);
    } else {
        assert(rest[0] == '.');
    }
    lemma_tight(text);
    lemma_star(rest);
    lemma_tight(rest);
    lemma_dots(a, b, 0);
    assert(rest.take(a.len() as int) =~= a);
    assert(rest.skip(a.len() as int + 2) =~= b);
}

/// A range `*n` has just the length `n`, and `*` any.
pub proof fn law_length_is_read(n: u64)
    ensures
        range_in(seq!['*'] + dec(n as int)) == (RangeQuantifier {
            lower: Some(n),
            upper: Some(n),
        }),
        range_in(seq!['*']) == (RangeQuantifier { lower: None, upper: None }),
{
    let rest = bound_text(Some(n));
    lemma_bound(Some(n));
    let text = seq!['*'] + rest;
    assert('0' <= rest[0] <= '9');
    assert(text.last() == rest[rest.len() - 1]);
    lemma_tight(text);
    lemma_star(rest);
    lemma_tight(rest);
    lemma_no_dots(rest, 0);
    let none = Seq::<char>::empty();
    lemma_tight(seq!['*']);
    lemma_star(none);
    assert(seq!['*'] + none =~= seq!['*']);
    lemma_tight(none);
}

} // verus!
