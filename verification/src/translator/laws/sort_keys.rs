//! The law of sort keys: their texts order as the values do.
use vstd::prelude::*;

#[allow(unused_imports)]
use crate::ast::cypher::{Expression, Literal};
#[allow(unused_imports)]
use crate::ast::model as m;
#[allow(unused_imports)]
use crate::number::Float;
#[allow(unused_imports)]
use crate::text::{digit, digits};
#[allow(unused_imports)]
use crate::translator::compare::{
    cypher_order, is_nan, known, list_order, order_of, rank, text_order,
};
#[allow(unused_imports)]
use crate::text::zeros;
#[allow(unused_imports)]
use crate::translator::sort_key::{double_rank, sort_key, sort_keys, twenty};

verus! {

// ── Digits ───────────────────────────────────────────────────────────────────

pub open spec fn ten_to(w: nat) -> nat
    decreases w,
{
    if w == 0 {
        1
    } else {
        10 * ten_to((w - 1) as nat)
    }
}

/// The last `w` digits of a number.
pub open spec fn fixed(n: nat, w: nat) -> Seq<char>
    decreases w,
{
    if w == 0 {
        seq![]
    } else {
        fixed(n / 10, (w - 1) as nat).push(digit((n % 10) as int))
    }
}

proof fn lemma_fixed_len(n: nat, w: nat)
    ensures
        fixed(n, w).len() == w,
    decreases w,
{
    if w > 0 {
        lemma_fixed_len(n / 10, (w - 1) as nat);
    }
}

proof fn lemma_fixed_zero(w: nat)
    ensures
        fixed(0, w) == zeros(w as int),
    decreases w,
{
    if w > 0 {
        lemma_fixed_zero((w - 1) as nat);
        assert(fixed(0, w) =~= zeros(w as int));
    } else {
        assert(fixed(0, w) =~= zeros(0));
    }
}

/// The digits of a number, with zeros before them, are its last digits.
proof fn lemma_padded(n: nat, w: nat)
    requires
        w > 0,
        n < ten_to(w),
    ensures
        digits(n).len() <= w,
        zeros(w - digits(n).len()) + digits(n) == fixed(n, w),
    decreases w,
{
    let rest = n / 10;
    if n < 10 {
        lemma_fixed_zero((w - 1) as nat);
        assert(rest == 0);
        assert(zeros(w - 1) + digits(n) =~= fixed(n, w));
    } else {
        assert(ten_to(0) == 1 && ten_to(1) == 10);
        assert(w > 1);
        lemma_padded(rest, (w - 1) as nat);
        assert(zeros(w - digits(n).len()) + digits(n) =~= fixed(n, w));
    }
}

// ── Texts ────────────────────────────────────────────────────────────────────

/// The order of two texts whose beginnings are equal is that of the rests.
proof fn lemma_after(p: Seq<char>, x: Seq<char>, y: Seq<char>, i: int)
    requires
        0 <= i,
    ensures
        text_order(p + x, p + y, p.len() + i) == text_order(x, y, i),
    decreases x.len() - i,
{
    if i < x.len() && i < y.len() {
        assert((p + x)[p.len() + i] == x[i]);
        assert((p + y)[p.len() + i] == y[i]);
        lemma_after(p, x, y, i + 1);
    }
}

proof fn lemma_skip_equal(p: Seq<char>, x: Seq<char>, y: Seq<char>, i: int)
    requires
        0 <= i <= p.len(),
    ensures
        text_order(p + x, p + y, i) == text_order(x, y, 0),
    decreases p.len() - i,
{
    if i < p.len() {
        assert((p + x)[i] == (p + y)[i]);
        lemma_skip_equal(p, x, y, i + 1);
    } else {
        lemma_after(p, x, y, 0);
    }
}

/// The order of two texts that differ at some place is the same, whatever
/// follows them.
proof fn lemma_decided(p: Seq<char>, q: Seq<char>, x: Seq<char>, y: Seq<char>, i: int, j: int)
    requires
        0 <= i <= j < p.len(),
        j < q.len(),
        p[j] != q[j],
        forall|k: int| 0 <= k < j ==> p[k] == q[k],
    ensures
        text_order(p + x, q + y, i) == order_of(p[j] as int, q[j] as int),
        text_order(p, q, i) == order_of(p[j] as int, q[j] as int),
    decreases j - i,
{
    assert((p + x)[i] == p[i]);
    assert((q + y)[i] == q[i]);
    if i < j {
        lemma_decided(p, q, x, y, i + 1, j);
    }
}

/// Whether two texts differ before either ends.
pub open spec fn part(p: Seq<char>, q: Seq<char>) -> bool {
    exists|j: int|
        0 <= j < p.len() && j < q.len() && #[trigger] p[j] != q[j] && forall|k: int|
            0 <= k < j ==> p[k] == q[k]
}

proof fn lemma_part(p: Seq<char>, q: Seq<char>, x: Seq<char>, y: Seq<char>)
    requires
        part(p, q),
    ensures
        text_order(p + x, q + y, 0) == text_order(p, q, 0),
        !(text_order(p, q, 0) is Equal),
{
    let j = choose|j: int|
        0 <= j < p.len() && j < q.len() && #[trigger] p[j] != q[j] && forall|k: int|
            0 <= k < j ==> p[k] == q[k];
    lemma_decided(p, q, x, y, 0, j);
}

/// Two texts with something before them part where they do.
proof fn lemma_part_after(p: Seq<char>, x: Seq<char>, y: Seq<char>)
    requires
        part(x, y),
    ensures
        part(p + x, p + y),
{
    let j = choose|j: int|
        0 <= j < x.len() && j < y.len() && #[trigger] x[j] != y[j] && forall|k: int|
            0 <= k < j ==> x[k] == y[k];
    let at = p.len() + j;
    assert((p + x)[at] == x[j]);
    assert((p + y)[at] == y[j]);
    assert forall|k: int| 0 <= k < at implies (p + x)[k] == (p + y)[k] by {
        if k >= p.len() {
            assert((p + x)[k] == x[k - p.len()]);
            assert((p + y)[k] == y[k - p.len()]);
        }
    }
}

// ── Numbers ──────────────────────────────────────────────────────────────────

/// Two numbers that are written with the same number of digits are in the order
/// of their texts, and these part where the numbers differ.
proof fn lemma_fixed_order(x: nat, y: nat, w: nat)
    requires
        x < ten_to(w),
        y < ten_to(w),
    ensures
        text_order(fixed(x, w), fixed(y, w), 0) == order_of(x as int, y as int),
        x != y ==> part(fixed(x, w), fixed(y, w)),
    decreases w,
{
    lemma_fixed_len(x, w);
    lemma_fixed_len(y, w);
    if w == 0 {
    } else {
        let v = (w - 1) as nat;
        let p = fixed(x / 10, v);
        let q = fixed(y / 10, v);
        let a = digit((x % 10) as int);
        let b = digit((y % 10) as int);
        lemma_fixed_len(x / 10, v);
        lemma_fixed_len(y / 10, v);
        lemma_fixed_order(x / 10, y / 10, v);
        assert(p.push(a) =~= p + seq![a]);
        assert(q.push(b) =~= q + seq![b]);
        if x / 10 != y / 10 {
            lemma_part(p, q, seq![a], seq![b]);
            let j = choose|j: int|
                0 <= j < p.len() && j < q.len() && #[trigger] p[j] != q[j] && forall|k: int|
                    0 <= k < j ==> p[k] == q[k];
            assert(p.push(a)[j] == p[j] && q.push(b)[j] == q[j]);
            assert forall|k: int| 0 <= k < j implies p.push(a)[k] == q.push(b)[k] by {
                assert(p[k] == q[k]);
            }
            assert(part(p.push(a), q.push(b)));
        } else {
            lemma_skip_equal(p, seq![a], seq![b], 0);
            assert(text_order(seq![a], seq![b], 1) is Equal);
            if x != y {
                assert(p.push(a)[v as int] != q.push(b)[v as int]);
                assert(part(p.push(a), q.push(b)));
            }
        }
    }
}

proof fn lemma_ten_to_twenty()
    ensures
        ten_to(20) == 100_000_000_000_000_000_000nat,
{
    reveal_with_fuel(ten_to, 21);
}

proof fn lemma_twenty(x: nat, y: nat)
    requires
        x <= u64::MAX,
        y <= u64::MAX,
    ensures
        text_order(twenty(x), twenty(y), 0) == order_of(x as int, y as int),
        x != y ==> part(twenty(x), twenty(y)),
{
    lemma_ten_to_twenty();
    lemma_padded(x, 20);
    lemma_padded(y, 20);
    lemma_fixed_order(x, y, 20);
}

// ── Strings ──────────────────────────────────────────────────────────────────

/// Whether no character is the mark that ends a text in a sort key, or the one
/// before it.
pub open spec fn is_markless(s: Seq<char>) -> bool {
    forall|i: int| 0 <= i < s.len() ==> '\u{1}' < #[trigger] s[i]
}

proof fn lemma_marked(s: Seq<char>, t: Seq<char>, i: int)
    requires
        is_markless(s),
        is_markless(t),
        0 <= i <= s.len(),
        i <= t.len(),
        forall|k: int| 0 <= k < i ==> s[k] == t[k],
    ensures
        ({
            let p = s + seq!['\u{1}'];
            let q = t + seq!['\u{1}'];
            &&& text_order(p, q, i) == text_order(s, t, i)
            &&& s != t ==> part(p, q)
        }),
    decreases s.len() - i,
{
    let p = s + seq!['\u{1}'];
    let q = t + seq!['\u{1}'];
    if i < s.len() && i < t.len() {
        assert(p[i] == s[i]);
        assert(q[i] == t[i]);
        if s[i] == t[i] {
            lemma_marked(s, t, i + 1);
        } else {
            assert forall|k: int| 0 <= k < i implies p[k] == q[k] by {
                assert(s[k] == t[k]);
            }
        }
    } else if i < s.len() {
        assert(p[i] == s[i]);
        assert(q[i] == '\u{1}');
        assert(p[i] != q[i]);
        assert forall|k: int| 0 <= k < i implies p[k] == q[k] by {
            assert(s[k] == t[k]);
        }
    } else if i < t.len() {
        assert(p[i] == '\u{1}');
        assert(q[i] == t[i]);
        assert(p[i] != q[i]);
        assert forall|k: int| 0 <= k < i implies p[k] == q[k] by {
            assert(s[k] == t[k]);
        }
    } else {
        assert(s =~= t);
        assert(p[i] == q[i]);
        assert(text_order(p, q, i + 1) is Equal);
    }
}

// ── Values ───────────────────────────────────────────────────────────────────

/// Null, truth values, integers, texts without the mark, and maps.
pub open spec fn is_plain(e: Expression) -> bool {
    match e {
        Expression::Literal(l) => match l {
            Literal::Float(f) => false,
            Literal::String(s) => is_markless(s@),
            _ => true,
        },
        Expression::MapLit(pairs) => true,
        _ => false,
    }
}

/// Such values, and lists of them.
pub open spec fn is_flat(e: Expression) -> bool {
    match e {
        Expression::List(items) => forall|i: int|
            0 <= i < items@.len() ==> is_plain(#[trigger] items@[i]),
        _ => is_plain(e),
    }
}

pub open spec fn key(e: Expression) -> Seq<char> {
    sort_key(m::expression_of(e))
}

proof fn lemma_key_starts(e: Expression)
    requires
        is_flat(e),
    ensures
        key(e).len() > 0,
        key(e)[0] == (match e {
            Expression::Literal(l) => match l {
                Literal::Null => 'Z',
                Literal::Boolean(b) => if b {
                    '7'
                } else {
                    '6'
                },
                Literal::String(s) => '5',
                _ => '8',
            },
            Expression::MapLit(pairs) => '0',
            _ => '3',
        }),
{
    reveal_strlit("Z");
    reveal_strlit("7");
    reveal_strlit("6");
    reveal_strlit("5");
    reveal_strlit("8");
    reveal_strlit("0");
    reveal_strlit("3");
}

proof fn lemma_types_part(a: Expression, b: Expression)
    requires
        is_flat(a),
        is_flat(b),
        rank(a) != rank(b),
    ensures
        part(key(a), key(b)),
        text_order(key(a), key(b), 0) == cypher_order(a, b),
{
    lemma_key_starts(a);
    lemma_key_starts(b);
    assert(key(a)[0] != key(b)[0]);
}

/// The keys of plain values order as the values do, and where these differ the
/// keys part.
proof fn lemma_plain(a: Expression, b: Expression)
    requires
        is_plain(a),
        is_plain(b),
    ensures
        text_order(key(a), key(b), 0) == cypher_order(a, b),
        cypher_order(a, b) is Equal ==> key(a) == key(b),
        !(cypher_order(a, b) is Equal) ==> part(key(a), key(b)),
{
    if rank(a) != rank(b) {
        lemma_types_part(a, b);
    } else {
        lemma_key_starts(a);
        lemma_key_starts(b);
        match (a, b) {
            (Expression::Literal(Literal::Integer(x)), Expression::Literal(Literal::Integer(y))) => {
                let p = twenty((x + 0x8000_0000_0000_0000) as nat);
                let q = twenty((y + 0x8000_0000_0000_0000) as nat);
                lemma_twenty(
                    (x + 0x8000_0000_0000_0000) as nat,
                    (y + 0x8000_0000_0000_0000) as nat,
                );
                lemma_skip_equal("8"@, p, q, 0);
                if x != y {
                    lemma_part_after("8"@, p, q);
                }
            },
            (Expression::Literal(Literal::String(s)), Expression::Literal(Literal::String(t))) => {
                let p = s@ + seq!['\u{1}'];
                let q = t@ + seq!['\u{1}'];
                lemma_marked(s@, t@, 0);
                lemma_skip_equal("5"@, p, q, 0);
                assert("5"@ + s@ + seq!['\u{1}'] =~= "5"@ + p);
                assert("5"@ + t@ + seq!['\u{1}'] =~= "5"@ + q);
                if s@ != t@ {
                    lemma_part_after("5"@, p, q);
                    lemma_part("5"@ + p, "5"@ + q, seq![], seq![]);
                } else {
                    lemma_same_text(s@, 0);
                }
            },
            _ => {
                lemma_same_text(key(a), 0);
            },
        }
    }
}

proof fn lemma_same_text(s: Seq<char>, i: int)
    ensures
        text_order(s, s, i) is Equal,
    decreases s.len() - i,
{
    if 0 <= i < s.len() {
        lemma_same_text(s, i + 1);
    }
}

// ── Lists ────────────────────────────────────────────────────────────────────

/// The keys of the elements from the `i`th on.
pub open spec fn keys_from(s: Seq<Expression>, i: int) -> Seq<char>
    decreases s.len() - i,
{
    if i < 0 || i >= s.len() {
        seq![]
    } else {
        key(s[i]) + keys_from(s, i + 1)
    }
}

proof fn lemma_keys_from(s: Seq<Expression>, i: int)
    requires
        0 <= i <= s.len(),
    ensures
        sort_keys(m::exprs_of(s), s.len() as int) == sort_keys(m::exprs_of(s), i)
            + keys_from(s, i),
    decreases s.len() - i,
{
    m::lemma_exprs_of(s);
    let all = m::exprs_of(s);
    if i < s.len() {
        lemma_keys_from(s, i + 1);
        assert(all[i] == m::expression_of(s[i]));
        assert(sort_keys(all, i + 1) == sort_keys(all, i) + key(s[i]));
        assert(sort_keys(all, i) + keys_from(s, i) =~= (sort_keys(all, i) + key(
            s[i],
        )) + keys_from(s, i + 1));
    } else {
        assert(sort_keys(all, i) + keys_from(s, i) =~= sort_keys(all, i));
    }
}

proof fn lemma_lists(xs: Seq<Expression>, ys: Seq<Expression>, i: int)
    requires
        0 <= i <= xs.len(),
        i <= ys.len(),
        forall|k: int| 0 <= k < xs.len() ==> is_plain(#[trigger] xs[k]),
        forall|k: int| 0 <= k < ys.len() ==> is_plain(#[trigger] ys[k]),
    ensures
        text_order(keys_from(xs, i), keys_from(ys, i), 0) == list_order(
            xs,
            ys,
            i,
        ),
    decreases xs.len() - i,
{
    if i < xs.len() && i < ys.len() {
        let p = key(xs[i]);
        let q = key(ys[i]);
        let x = keys_from(xs, i + 1);
        let y = keys_from(ys, i + 1);
        lemma_plain(xs[i], ys[i]);
        lemma_lists(xs, ys, i + 1);
        if cypher_order(xs[i], ys[i]) is Equal {
            lemma_skip_equal(p, x, y, 0);
        } else {
            lemma_part(p, q, x, y);
        }
    } else if i < xs.len() {
        lemma_key_starts(xs[i]);
    } else if i < ys.len() {
        lemma_key_starts(ys[i]);
    }
}

proof fn lemma_list_key(items: Vec<Expression>)
    ensures
        key(Expression::List(items)) == "3"@ + keys_from(items@, 0),
{
    let e = Expression::List(items);
    let all = m::exprs_of(items@);
    m::lemma_exprs_of(items@);
    assert(m::expression_of(e) == m::Expression::List(all));
    lemma_keys_from(items@, 0);
    assert(sort_keys(all, 0) + keys_from(items@, 0) =~= keys_from(items@, 0));
}

proof fn lemma_list_keys(xs: Vec<Expression>, ys: Vec<Expression>)
    requires
        is_flat(Expression::List(xs)),
        is_flat(Expression::List(ys)),
    ensures
        text_order(key(Expression::List(xs)), key(Expression::List(ys)), 0)
            == list_order(xs@, ys@, 0),
{
    lemma_list_key(xs);
    lemma_list_key(ys);
    lemma_lists(xs@, ys@, 0);
    lemma_skip_equal("3"@, keys_from(xs@, 0), keys_from(ys@, 0), 0);
}

/// The sort keys of null, truth values, integers, texts and maps, and of lists
/// of such values, order as the values do. No text may have the character that
/// ends texts in the keys, or the one before it.
pub proof fn law_sort_keys_order(a: Expression, b: Expression)
    requires
        is_flat(a),
        is_flat(b),
    ensures
        text_order(
            sort_key(m::expression_of(a)),
            sort_key(m::expression_of(b)),
            0,
        ) == cypher_order(a, b),
{
    assert(text_order(key(a), key(b), 0) == cypher_order(a, b)) by {
        if rank(a) != rank(b) {
            lemma_types_part(a, b);
        } else if let Expression::List(xs) = a {
            lemma_list_keys(xs, b->List_0);
        } else {
            lemma_plain(a, b);
        }
    }
}

/// The sort keys of doubles that are numbers order as the doubles do.
pub proof fn law_double_keys_order(f: Float, g: Float)
    requires
        known(f@) is Some,
        known(g@) is Some,
        !is_nan(known(f@).unwrap()),
        !is_nan(known(g@).unwrap()),
    ensures
        ({
            let a = Expression::Literal(Literal::Float(f));
            let b = Expression::Literal(Literal::Float(g));
            text_order(
                sort_key(m::expression_of(a)),
                sort_key(m::expression_of(b)),
                0,
            ) == cypher_order(a, b)
        }),
{
    let x = double_rank(known(f@).unwrap());
    let y = double_rank(known(g@).unwrap());
    lemma_twenty(x, y);
    lemma_skip_equal("8"@, twenty(x), twenty(y), 0);
}

} // verus!
