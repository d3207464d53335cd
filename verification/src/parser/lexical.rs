//! What the tokens of a query stand for: names, numbers and strings.
use vstd::prelude::*;

use crate::ast::cypher::RangeQuantifier;
use crate::text::{chars_of, slice_text, trim};
#[allow(unused_imports)]
use crate::text::{trim_end_spec, trim_spec, trim_start_spec};

verus! {

// ── Names ────────────────────────────────────────────────────────────────────

pub open spec fn is_tick(c: char) -> bool {
    c == '`'
}

/// The text without the backticks around it.
pub open spec fn unquoted(s: Seq<char>) -> Seq<char> {
    trim_end_spec(trim_start_spec(s, |c: char| is_tick(c)), |c: char| is_tick(c))
}

pub fn unquote(s: &str) -> (r: String)
    ensures
        r@ == unquoted(s@),
{
    let v = chars_of(s);
    let ghost drop = |c: char| is_tick(c);
    let mut a: usize = 0;
    assert(s@.skip(0) =~= s@);
    while a < v.len() && v[a] == '`'
        invariant
            v@ == s@,
            drop == (|c: char| is_tick(c)),
            a <= v@.len(),
            trim_start_spec(s@.skip(a as int), drop) == trim_start_spec(s@, drop),
        decreases v@.len() - a,
    {
        assert(s@.skip(a as int).skip(1) =~= s@.skip(a + 1));
        a = a + 1;
    }
    let ghost mid = s@.skip(a as int);
    assert(trim_start_spec(s@, drop) == mid);
    let mut b: usize = v.len();
    assert(s@.subrange(a as int, b as int) =~= mid);
    while a < b && v[b - 1] == '`'
        invariant
            v@ == s@,
            drop == (|c: char| is_tick(c)),
            a <= b <= v@.len(),
            trim_end_spec(s@.subrange(a as int, b as int), drop) == trim_end_spec(mid, drop),
        decreases b,
    {
        assert(s@.subrange(a as int, b as int).drop_last() =~= s@.subrange(a as int, b - 1));
        b = b - 1;
    }
    slice_text(&v, a, b)
}

// ── Integers ─────────────────────────────────────────────────────────────────

/// The value of a digit, of either case above nine.
pub open spec fn digit_value(c: char) -> int {
    if '0' <= c <= '9' {
        c as int - '0' as int
    } else if 'a' <= c <= 'z' {
        c as int - 'a' as int + 10
    } else if 'A' <= c <= 'Z' {
        c as int - 'A' as int + 10
    } else {
        36
    }
}

/// The number that the digits write; `None` where one of them is no digit.
pub open spec fn number_in(s: Seq<char>, radix: int) -> Option<int>
    decreases s.len(),
{
    if s.len() == 0 {
        Some(0)
    } else {
        match number_in(s.drop_last(), radix) {
            Some(n) if digit_value(s.last()) < radix => Some(n * radix + digit_value(s.last())),
            _ => None,
        }
    }
}

/// The number that at least one digit writes.
pub open spec fn magnitude_in(s: Seq<char>, radix: int) -> Option<int> {
    if s.len() == 0 {
        None
    } else {
        number_in(s, radix)
    }
}

/// An unsigned 64-bit number, with an optional plus sign.
pub open spec fn u64_in(s: Seq<char>, radix: int) -> Option<u64> {
    let digits = if s.len() > 0 && s[0] == '+' {
        s.skip(1)
    } else {
        s
    };
    match magnitude_in(digits, radix) {
        Some(n) if n <= u64::MAX => Some(n as u64),
        _ => None,
    }
}

/// A signed 64-bit number, with an optional sign.
pub open spec fn i64_in(s: Seq<char>, radix: int) -> Option<i64> {
    if s.len() > 0 && s[0] == '-' {
        match magnitude_in(s.skip(1), radix) {
            Some(n) if n <= 0x8000_0000_0000_0000 => Some((-n) as i64),
            _ => None,
        }
    } else {
        let digits = if s.len() > 0 && s[0] == '+' {
            s.skip(1)
        } else {
            s
        };
        match magnitude_in(digits, radix) {
            Some(n) if n <= i64::MAX => Some(n as i64),
            _ => None,
        }
    }
}

proof fn lemma_prefix_no_greater(s: Seq<char>, radix: int, k: int)
    requires
        0 <= k <= s.len(),
        radix >= 2,
    ensures
        number_in(s, radix) matches Some(n) ==> n >= 0 && (number_in(s.take(k), radix) matches Some(m)
            && 0 <= m <= n),
    decreases s.len(),
{
    if k == s.len() {
        assert(s.take(k) =~= s);
        if s.len() > 0 {
            lemma_prefix_no_greater(s.drop_last(), radix, k - 1);
            lemma_step(s, radix);
        }
    } else {
        lemma_prefix_no_greater(s.drop_last(), radix, k);
        assert(s.drop_last().take(k) =~= s.take(k));
        lemma_step(s, radix);
    }
}

proof fn lemma_step(s: Seq<char>, radix: int)
    requires
        s.len() > 0,
        radix >= 2,
        number_in(s.drop_last(), radix) matches Some(m) ==> m >= 0,
    ensures
        number_in(s, radix) matches Some(n) ==> (number_in(s.drop_last(), radix) matches Some(m)
            && m <= n),
{
    if let Some(m) = number_in(s.drop_last(), radix) {
        assert(m * radix >= m) by (nonlinear_arith)
            requires
                m >= 0,
                radix >= 2,
        ;
    }
}

fn digit_of(c: char) -> (d: u128)
    ensures
        d == digit_value(c),
{
    if '0' <= c && c <= '9' {
        (c as u32 - '0' as u32) as u128
    } else if 'a' <= c && c <= 'z' {
        (c as u32 - 'a' as u32) as u128 + 10
    } else if 'A' <= c && c <= 'Z' {
        (c as u32 - 'A' as u32) as u128 + 10
    } else {
        36
    }
}

/// The number that the characters between two positions write, where it has at
/// most 128 bits.
pub(crate) fn magnitude(v: &Vec<char>, from: usize, to: usize, radix: u128) -> (r: Option<u128>)
    requires
        from <= to <= v@.len(),
        2 <= radix <= 36,
    ensures
        match r {
            Some(n) => magnitude_in(v@.subrange(from as int, to as int), radix as int) == Some(
                n as int,
            ),
            None => magnitude_in(v@.subrange(from as int, to as int), radix as int) matches Some(
                n,
            ) ==> n > u128::MAX,
        },
{
    let ghost s = v@.subrange(from as int, to as int);
    if from == to {
        return None;
    }
    let mut n: u128 = 0;
    let mut i: usize = from;
    while i < to
        invariant
            from <= i <= to <= v@.len(),
            2 <= radix <= 36,
            s == v@.subrange(from as int, to as int),
            number_in(s.take(i - from), radix as int) == Some(n as int),
        decreases to - i,
    {
        let d = digit_of(v[i]);
        let ghost k = i - from;
        proof {
            lemma_prefix_no_greater(s, radix as int, k + 1);
            assert(s.take(k + 1).drop_last() =~= s.take(k));
        }
        if d >= radix {
            return None;
        }
        match n.checked_mul(radix) {
            None => {
                return None;
            },
            Some(m) => {
                match m.checked_add(d) {
                    None => {
                        return None;
                    },
                    Some(x) => {
                        n = x;
                    },
                }
            },
        }
        i = i + 1;
    }
    assert(s.take(to - from) =~= s);
    Some(n)
}

pub fn parse_u64(s: &str, radix: u128) -> (r: Option<u64>)
    requires
        2 <= radix <= 36,
    ensures
        r == u64_in(s@, radix as int),
{
    let v = chars_of(s);
    let from: usize = if v.len() > 0 && v[0] == '+' {
        1
    } else {
        0
    };
    assert(s@.subrange(from as int, s@.len() as int) =~= if from == 1 {
        s@.skip(1)
    } else {
        s@
    });
    match magnitude(&v, from, v.len(), radix) {
        Some(n) => if n <= 0xffff_ffff_ffff_ffff {
            Some(n as u64)
        } else {
            None
        },
        None => None,
    }
}

pub fn parse_i64(s: &str, radix: u128) -> (r: Option<i64>)
    requires
        2 <= radix <= 36,
    ensures
        r == i64_in(s@, radix as int),
{
    let v = chars_of(s);
    let from: usize = if v.len() > 0 && (v[0] == '+' || v[0] == '-') {
        1
    } else {
        0
    };
    assert(s@.subrange(from as int, s@.len() as int) =~= if from == 1 {
        s@.skip(1)
    } else {
        s@
    });
    match magnitude(&v, from, v.len(), radix) {
        Some(n) => if v[0] == '-' {
            if n < 0x8000_0000_0000_0000 {
                Some(-(n as i64))
            } else if n == 0x8000_0000_0000_0000 {
                Some(i64::MIN)
            } else {
                None
            }
        } else if n <= 0x7fff_ffff_ffff_ffff {
            Some(n as i64)
        } else {
            None
        },
        None => None,
    }
}

/// Whether the text is the decimal, hexadecimal or octal form of 2^63: the one
/// magnitude that fits in 64 bits only behind a minus sign.
pub open spec fn is_least_magnitude(s: Seq<char>) -> bool {
    ||| u64_in(s, 10) == Some(0x8000_0000_0000_0000u64)
    ||| s.len() >= 2 && s[0] == '0' && (s[1] == 'x' || s[1] == 'X') && u64_in(s.skip(2), 16) == Some(
        0x8000_0000_0000_0000u64,
    )
    ||| s.len() >= 2 && s[0] == '0' && (s[1] == 'o' || s[1] == 'O') && u64_in(s.skip(2), 8) == Some(
        0x8000_0000_0000_0000u64,
    )
}

pub fn least_magnitude(s: &str) -> (r: bool)
    ensures
        r == is_least_magnitude(s@),
{
    if let Some(n) = parse_u64(s, 10) {
        if n == 0x8000_0000_0000_0000 {
            return true;
        }
    }
    let v = chars_of(s);
    if v.len() < 2 || v[0] != '0' {
        return false;
    }
    let rest = slice_text(&v, 2, v.len());
    assert(rest@ =~= s@.skip(2));
    if v[1] == 'x' || v[1] == 'X' {
        match parse_u64(rest.as_str(), 16) {
            Some(n) => n == 0x8000_0000_0000_0000,
            None => false,
        }
    } else if v[1] == 'o' || v[1] == 'O' {
        match parse_u64(rest.as_str(), 8) {
            Some(n) => n == 0x8000_0000_0000_0000,
            None => false,
        }
    } else {
        false
    }
}

// ── Ranges ───────────────────────────────────────────────────────────────────

/// The position of the first `..`; -1 where there is none.
pub open spec fn dots_from(s: Seq<char>, i: int) -> int
    decreases s.len() - i,
{
    if i < 0 || i + 2 > s.len() {
        -1
    } else if s[i] == '.' && s[i + 1] == '.' {
        i
    } else {
        dots_from(s, i + 1)
    }
}

pub fn find_dots(v: &Vec<char>) -> (r: Option<usize>)
    ensures
        match r {
            Some(i) => dots_from(v@, 0) == i && i + 2 <= v@.len(),
            None => dots_from(v@, 0) == -1,
        },
{
    let n: usize = v.len();
    let mut i: usize = 0;
    while i < n && n - i >= 2
        invariant
            n == v@.len(),
            i <= n,
            dots_from(v@, 0) == dots_from(v@, i as int),
        decreases n - i,
    {
        if v[i] == '.' && v[i + 1] == '.' {
            return Some(i);
        }
        i = i + 1;
    }
    None
}

/// An end of a range: open where it is blank, zero where it is no number.
pub open spec fn bound_in(s: Seq<char>) -> Option<u64> {
    let t = trim_spec(s);
    if t.len() == 0 {
        None
    } else {
        Some(
            match u64_in(t, 10) {
                Some(n) => n,
                None => 0,
            },
        )
    }
}

/// The range that `*`, `*n`, `*lo..hi` and their open forms write.
pub open spec fn range_in(text: Seq<char>) -> RangeQuantifier {
    let rest = trim_spec(trim_start_spec(trim_spec(text), |c: char| c == '*'));
    if rest.len() == 0 {
        RangeQuantifier { lower: None, upper: None }
    } else {
        let d = dots_from(rest, 0);
        if d >= 0 {
            RangeQuantifier {
                lower: bound_in(rest.take(d)),
                upper: bound_in(rest.skip(d + 2)),
            }
        } else {
            let n = match u64_in(rest, 10) {
                Some(n) => n,
                None => 0,
            };
            RangeQuantifier { lower: Some(n), upper: Some(n) }
        }
    }
}

fn parse_bound(s: &str) -> (r: Option<u64>)
    ensures
        r == bound_in(s@),
{
    let t = trim(s);
    if t.unicode_len() == 0 {
        return None;
    }
    match parse_u64(t.as_str(), 10) {
        Some(n) => Some(n),
        None => Some(0),
    }
}

fn strip_stars(s: &str) -> (r: String)
    ensures
        r@ == trim_start_spec(s@, |c: char| c == '*'),
{
    let v = chars_of(s);
    let ghost drop = |c: char| c == '*';
    let mut a: usize = 0;
    assert(s@.skip(0) =~= s@);
    while a < v.len() && v[a] == '*'
        invariant
            v@ == s@,
            drop == (|c: char| c == '*'),
            a <= v@.len(),
            trim_start_spec(s@.skip(a as int), drop) == trim_start_spec(s@, drop),
        decreases v@.len() - a,
    {
        assert(s@.skip(a as int).skip(1) =~= s@.skip(a + 1));
        a = a + 1;
    }
    let r = slice_text(&v, a, v.len());
    assert(r@ =~= s@.skip(a as int));
    r
}

pub fn parse_range(text: &str) -> (r: RangeQuantifier)
    ensures
        r == range_in(text@),
{
    let trimmed = trim(text);
    let stripped = strip_stars(trimmed.as_str());
    let rest = trim(stripped.as_str());
    let v = chars_of(rest.as_str());
    if v.len() == 0 {
        return RangeQuantifier { lower: None, upper: None };
    }
    match find_dots(&v) {
        Some(d) => {
            let lo = slice_text(&v, 0, d);
            let hi = slice_text(&v, d + 2, v.len());
            assert(lo@ =~= rest@.take(d as int));
            assert(hi@ =~= rest@.skip(d + 2));
            RangeQuantifier { lower: parse_bound(lo.as_str()), upper: parse_bound(hi.as_str()) }
        },
        None => {
            let n: u64 = match parse_u64(rest.as_str(), 10) {
                Some(n) => n,
                None => 0,
            };
            RangeQuantifier { lower: Some(n), upper: Some(n) }
        },
    }
}

// ── Strings ──────────────────────────────────────────────────────────────────

/// What the character behind a backslash stands for.
pub open spec fn escaped(c: char) -> char {
    if c == 'n' {
        '\n'
    } else if c == 't' {
        '\t'
    } else if c == 'r' {
        '\r'
    } else {
        c
    }
}

/// The string that the text between the quotes writes.
pub open spec fn unescaped(s: Seq<char>) -> Seq<char>
    decreases s.len(),
{
    if s.len() == 0 {
        seq![]
    } else if s[0] != '\\' {
        seq![s[0]] + unescaped(s.skip(1))
    } else if s.len() == 1 {
        seq!['\\']
    } else {
        seq![escaped(s[1])] + unescaped(s.skip(2))
    }
}

pub fn unescape_string(s: &str) -> (r: String)
    ensures
        r@ == unescaped(s@),
{
    let v = chars_of(s);
    let n: usize = v.len();
    let mut out = String::new();
    let mut i: usize = 0;
    assert(s@.skip(0) =~= s@);
    while i < n
        invariant
            v@ == s@,
            n == v@.len(),
            i <= n,
            unescaped(s@) == out@ + unescaped(s@.skip(i as int)),
        decreases n - i,
    {
        let ghost rest = s@.skip(i as int);
        let ghost before = out@;
        assert(rest[0] == s@[i as int]);
        assert(rest.skip(1) =~= s@.skip(i + 1));
        if v[i] != '\\' {
            out.push(v[i]);
            i = i + 1;
        } else if n - i == 1 {
            out.push('\\');
            i = i + 1;
        } else {
            assert(rest[1] == s@[i + 1]);
            assert(rest.skip(2) =~= s@.skip(i + 2));
            let c = v[i + 1];
            if c == 'n' {
                out.push('\n');
            } else if c == 't' {
                out.push('\t');
            } else if c == 'r' {
                out.push('\r');
            } else {
                out.push(c);
            }
            i = i + 2;
        }
        assert(unescaped(rest) =~= out@.skip(before.len() as int) + unescaped(s@.skip(i as int)));
        assert(unescaped(s@) =~= out@ + unescaped(s@.skip(i as int)));
    }
    assert(out@ + unescaped(s@.skip(n as int)) =~= out@);
    out
}

} // verus!
