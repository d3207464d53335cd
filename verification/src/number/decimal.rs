//! Decimal texts, and the doubles that they are read as.
use vstd::prelude::*;

use crate::number::big::Big;
#[allow(unused_imports)]
use crate::number::big::{lemma_power_positive, lemma_power_rises, lemma_power_sum, power};
use crate::number::double::{nearest_double, Binary};
#[allow(unused_imports)]
use crate::number::double::{lemma_nearest, lemma_power_53, nearest, scale, Double, EXPONENT_END};
#[allow(unused_imports)]
use crate::number::shortest::lemma_thirds;
use crate::parser::lexical::magnitude;
#[allow(unused_imports)]
use crate::parser::lexical::magnitude_in;
use crate::text::chars_of;

verus! {

pub open spec fn is_digit(c: char) -> bool {
    '0' <= c <= '9'
}

pub open spec fn all_digits(s: Seq<char>) -> bool {
    forall|i: int| 0 <= i < s.len() ==> is_digit(#[trigger] s[i])
}

pub open spec fn is_exponent_mark(c: char) -> bool {
    c == 'e' || c == 'E'
}

/// How many characters stand before the exponent mark.
pub open spec fn mantissa_len(s: Seq<char>) -> nat
    decreases s.len(),
{
    if s.len() == 0 || is_exponent_mark(s[0]) {
        0
    } else {
        1 + mantissa_len(s.skip(1))
    }
}

/// How many characters stand before the point.
pub open spec fn whole_len(s: Seq<char>) -> nat
    decreases s.len(),
{
    if s.len() == 0 || s[0] == '.' {
        0
    } else {
        1 + whole_len(s.skip(1))
    }
}

/// A decimal number: its digits, and how many of them stand before the point
/// once the exponent has moved it.
pub struct Decimal {
    pub digits: Seq<char>,
    pub point: int,
}

/// The exponent that the text behind the mark writes.
pub open spec fn exponent_in(s: Seq<char>) -> Option<int> {
    if s.len() > 0 && s[0] == '-' {
        match magnitude_in(s.skip(1), 10) {
            Some(n) => Some(-n),
            None => None,
        }
    } else if s.len() > 0 && s[0] == '+' {
        magnitude_in(s.skip(1), 10)
    } else {
        magnitude_in(s, 10)
    }
}

/// The decimal number that a text writes: digits with an optional point among
/// them, and an optional exponent.
pub open spec fn decimal_in(s: Seq<char>) -> Option<Decimal> {
    let m = mantissa_len(s) as int;
    let mantissa = s.take(m);
    let w = whole_len(mantissa) as int;
    let whole = mantissa.take(w);
    let fraction = if w < m {
        mantissa.skip(w + 1)
    } else {
        seq![]
    };
    let exponent = if m < s.len() {
        exponent_in(s.skip(m + 1))
    } else {
        Some(0)
    };
    if whole.len() + fraction.len() == 0 || !all_digits(whole) || !all_digits(fraction)
        || exponent is None {
        None
    } else {
        Some(Decimal { digits: whole + fraction, point: w + exponent->0 })
    }
}

/// The whole number that digits write.
pub open spec fn digits_value(s: Seq<char>) -> nat
    decreases s.len(),
{
    if s.len() == 0 {
        0
    } else {
        digits_value(s.drop_last()) * 10 + digit_value(s.last())
    }
}

pub open spec fn digit_value(c: char) -> nat {
    (c as int - '0' as int) as nat
}

/// The double that is nearest to a decimal number; `None` where it is too large
/// for a finite one.
pub open spec fn double_of(d: Decimal) -> Option<Double> {
    let n = d.digits.len();
    let value = digits_value(d.digits);
    if d.point >= n {
        nearest(value * power(10, (d.point - n) as nat), 1)
    } else {
        nearest(value, power(10, (n - d.point) as nat))
    }
}

proof fn lemma_mantissa(s: Seq<char>, k: int)
    requires
        0 <= k <= s.len(),
        forall|i: int| 0 <= i < k ==> !is_exponent_mark(#[trigger] s[i]),
        k == s.len() || is_exponent_mark(s[k]),
    ensures
        mantissa_len(s) == k,
    decreases s.len(),
{
    if k > 0 {
        lemma_mantissa(s.skip(1), k - 1);
    }
}

proof fn lemma_whole(s: Seq<char>, k: int)
    requires
        0 <= k <= s.len(),
        forall|i: int| 0 <= i < k ==> #[trigger] s[i] != '.',
        k == s.len() || s[k] == '.',
    ensures
        whole_len(s) == k,
    decreases s.len(),
{
    if k > 0 {
        lemma_whole(s.skip(1), k - 1);
    }
}

/// The digits between two positions, appended to `out`; false where there is
/// something else.
fn push_digits(v: &Vec<char>, from: usize, to: usize, out: &mut Vec<char>) -> (r: bool)
    requires
        from <= to <= v@.len(),
    ensures
        r == all_digits(v@.subrange(from as int, to as int)),
        r ==> final(out)@ == old(out)@ + v@.subrange(from as int, to as int),
{
    let ghost s = v@.subrange(from as int, to as int);
    let mut i: usize = from;
    while i < to
        invariant
            from <= i <= to <= v@.len(),
            s == v@.subrange(from as int, to as int),
            out@ == old(out)@ + s.take(i - from),
            forall|k: int| 0 <= k < i - from ==> is_digit(#[trigger] s[k]),
        decreases to - i,
    {
        let c = v[i];
        assert(s[i - from] == c);
        if !('0' <= c && c <= '9') {
            return false;
        }
        out.push(c);
        assert(s.take(i + 1 - from) =~= s.take(i - from).push(c));
        i = i + 1;
    }
    assert(s.take(to - from) =~= s);
    true
}

/// A decimal number as it was read: its digits, how many of them stand before the
/// point, and the exponent, `None` where that has more than 128 bits.
struct Parts {
    digits: Vec<char>,
    whole: usize,
    negative: bool,
    exponent: Option<u128>,
}

impl Parts {
    spec fn stands_for(self, d: Decimal) -> bool {
        let e = d.point - self.whole;
        &&& self.digits@ == d.digits
        &&& all_digits(d.digits)
        &&& self.whole <= d.digits.len()
        &&& match self.exponent {
            Some(n) => e == if self.negative {
                -(n as int)
            } else {
                n as int
            },
            None => if self.negative {
                e < -(u128::MAX as int)
            } else {
                e > u128::MAX
            },
        }
    }
}

/// The decimal number that a text writes.
fn read_parts(text: &str) -> (r: Option<Parts>)
    ensures
        match r {
            None => decimal_in(text@) is None,
            Some(p) => decimal_in(text@) is Some && p.stands_for(decimal_in(text@)->0),
        },
{
    let v = chars_of(text);
    let len: usize = v.len();
    let mut m: usize = 0;
    while m < len && v[m] != 'e' && v[m] != 'E'
        invariant
            len == v@.len(),
            m <= len,
            forall|i: int| 0 <= i < m ==> !is_exponent_mark(#[trigger] v@[i]),
        decreases len - m,
    {
        m = m + 1;
    }
    proof {
        lemma_mantissa(v@, m as int);
    }
    let ghost mantissa = v@.take(m as int);
    let mut w: usize = 0;
    while w < m && v[w] != '.'
        invariant
            w <= m <= v@.len(),
            mantissa == v@.take(m as int),
            forall|i: int| 0 <= i < w ==> #[trigger] mantissa[i] != '.',
        decreases m - w,
    {
        w = w + 1;
    }
    proof {
        lemma_whole(mantissa, w as int);
    }
    let mut digits: Vec<char> = Vec::new();
    let whole_ok = push_digits(&v, 0, w, &mut digits);
    assert(v@.subrange(0, w as int) =~= mantissa.take(w as int));
    if !whole_ok {
        return None;
    }
    let ghost whole = mantissa.take(w as int);
    let from: usize = if w < m {
        w + 1
    } else {
        m
    };
    let ghost fraction = if w < m {
        mantissa.skip(w + 1)
    } else {
        seq![]
    };
    assert(v@.subrange(from as int, m as int) =~= fraction);
    let fraction_ok = push_digits(&v, from, m, &mut digits);
    if !fraction_ok {
        return None;
    }
    assert(digits@ =~= whole + fraction);
    if digits.len() == 0 {
        return None;
    }
    assert(all_digits(whole + fraction)) by {
        assert forall|i: int| 0 <= i < (whole + fraction).len() implies is_digit(
            #[trigger] (whole + fraction)[i],
        ) by {
            if i < whole.len() {
                assert(is_digit(whole[i]));
            } else {
                assert(is_digit(fraction[i - whole.len()]));
            }
        }
    }
    if m == len {
        return Some(Parts { digits, whole: w, negative: false, exponent: Some(0) });
    }
    let signed = m + 1 < len && (v[m + 1] == '-' || v[m + 1] == '+');
    let negative = signed && v[m + 1] == '-';
    let start: usize = if signed {
        m + 2
    } else {
        m + 1
    };
    let ghost tail = v@.skip(m + 1);
    assert(signed ==> tail[0] == v@[m + 1]);
    assert(tail.len() > 0 && (tail[0] == '-' || tail[0] == '+') ==> signed);
    assert(v@.subrange(start as int, len as int) =~= if signed {
        tail.skip(1)
    } else {
        tail
    });
    match exponent_digits(&v, start) {
        None => None,
        Some(exponent) => Some(Parts { digits, whole: w, negative, exponent }),
    }
}

/// The number that the digits from a position on write: `None` where they write
/// none, `Some(None)` where it has more than 128 bits.
fn exponent_digits(v: &Vec<char>, start: usize) -> (r: Option<Option<u128>>)
    requires
        start <= v@.len(),
    ensures
        match r {
            None => magnitude_in(v@.subrange(start as int, v@.len() as int), 10) is None,
            Some(None) => magnitude_in(v@.subrange(start as int, v@.len() as int), 10) matches Some(n)
                && n > u128::MAX,
            Some(Some(n)) => magnitude_in(v@.subrange(start as int, v@.len() as int), 10) == Some(
                n as int,
            ),
        },
{
    let ghost s = v@.subrange(start as int, v@.len() as int);
    let mut i: usize = start;
    while i < v.len()
        invariant
            start <= i <= v@.len(),
            s == v@.subrange(start as int, v@.len() as int),
            forall|k: int| 0 <= k < i - start ==> is_digit(#[trigger] s[k]),
        decreases v@.len() - i,
    {
        assert(s[i - start] == v@[i as int]);
        if !('0' <= v[i] && v[i] <= '9') {
            proof {
                lemma_not_digits(s, i - start);
            }
            return None;
        }
        i = i + 1;
    }
    if start == v.len() {
        return None;
    }
    proof {
        lemma_digits(s);
    }
    Some(magnitude(v, start, v.len(), 10))
}

proof fn lemma_not_digits(s: Seq<char>, k: int)
    requires
        0 <= k < s.len(),
        !is_digit(s[k]),
    ensures
        crate::parser::lexical::number_in(s, 10) is None,
    decreases s.len(),
{
    if k < s.len() - 1 {
        lemma_not_digits(s.drop_last(), k);
    }
}

proof fn lemma_digits(s: Seq<char>)
    requires
        all_digits(s),
    ensures
        crate::parser::lexical::number_in(s, 10) is Some,
    decreases s.len(),
{
    if s.len() > 0 {
        assert forall|i: int| 0 <= i < s.drop_last().len() implies is_digit(
            #[trigger] s.drop_last()[i],
        ) by {
            assert(is_digit(s[i]));
        }
        lemma_digits(s.drop_last());
        assert(is_digit(s.last()));
    }
}

// ── Doubles ──────────────────────────────────────────────────────────────────

proof fn lemma_value_below(s: Seq<char>, z: int)
    requires
        all_digits(s),
        0 <= z <= s.len(),
        forall|i: int| 0 <= i < z ==> #[trigger] s[i] == '0',
    ensures
        digits_value(s) < power(10, (s.len() - z) as nat),
    decreases s.len(),
{
    if s.len() > 0 {
        let t = s.drop_last();
        assert(is_digit(s.last()));
        assert forall|i: int| 0 <= i < t.len() implies is_digit(#[trigger] t[i]) by {
            assert(is_digit(s[i]));
        }
        if z == s.len() {
            lemma_value_below(t, z - 1);
            assert(s[z - 1] == '0');
        } else {
            lemma_value_below(t, z);
        }
    }
}

proof fn lemma_value_above(s: Seq<char>, z: int)
    requires
        all_digits(s),
        0 <= z < s.len(),
        s[z] != '0',
    ensures
        digits_value(s) >= power(10, (s.len() - z - 1) as nat),
    decreases s.len(),
{
    let t = s.drop_last();
    assert(is_digit(s.last()));
    if z < s.len() - 1 {
        assert forall|i: int| 0 <= i < t.len() implies is_digit(#[trigger] t[i]) by {
            assert(is_digit(s[i]));
        }
        lemma_value_above(t, z);
    }
}

/// What is far below every double is read as zero.
proof fn lemma_small(d: Decimal, z: int)
    requires
        all_digits(d.digits),
        0 <= z <= d.digits.len(),
        forall|i: int| 0 <= i < z ==> #[trigger] d.digits[i] == '0',
        z == d.digits.len() || d.point - z <= -400,
    ensures
        double_of(d) == Some(Double { mantissa: 0, exponent: 0 }),
{
    let n = d.digits.len();
    let value = digits_value(d.digits);
    lemma_value_below(d.digits, z);
    if d.point >= n {
        let w = power(10, (d.point - n) as nat);
        assert(value == 0);
        assert(0 * w == 0) by (nonlinear_arith);
        lemma_tiny(0, 1);
    } else {
        let den = power(10, (n - d.point) as nat);
        lemma_power_positive(10, (n - d.point) as nat);
        if value > 0 {
            let a = power(10, (n - z) as nat);
            let b = power(10, 400);
            lemma_power_sum(10, (n - z) as nat, (z - d.point) as nat);
            lemma_power_rises(10, 400, (z - d.point) as nat);
            lemma_thirds(400);
            lemma_power_rises(2, 1075, 1200);
            lemma_power_positive(10, (z - d.point) as nat);
            let c = power(10, (z - d.point) as nat);
            let two = power(2, 1074);
            assert(power(2, 1075) == 2 * two);
            assert((n - z) as nat + (z - d.point) as nat == (n - d.point) as nat);
            assert(2 * (value * two) < a * c) by (nonlinear_arith)
                requires
                    0 < value < a,
                    2 * two <= c,
                    c > 0,
            ;
        } else {
            assert(0 * power(2, 1074) == 0) by (nonlinear_arith);
        }
        lemma_tiny(value, den);
    }
}

/// A fraction below half of the least double is read as zero.
proof fn lemma_tiny(num: nat, den: nat)
    requires
        den > 0,
        2 * (num * power(2, 1074)) < den,
    ensures
        nearest(num, den) == Some(Double { mantissa: 0, exponent: 0 }),
{
    let n = num * power(2, 1074);
    lemma_power_53();
    assert(den <= den * power(2, 53)) by (nonlinear_arith)
        requires
            power(2, 53) >= 1,
    ;
    assert(power(2, 0) == 1);
    assert(den * 1 == den) by (nonlinear_arith);
    vstd::arithmetic::div_mod::lemma_fundamental_div_mod_converse(
        n as int,
        den as int,
        0,
        n as int,
    );
}

/// What is far above every finite double is read as none.
proof fn lemma_large(d: Decimal, z: int)
    requires
        all_digits(d.digits),
        0 <= z < d.digits.len(),
        d.digits[z] != '0',
        d.point - z > 400,
    ensures
        double_of(d) is None,
{
    let n = d.digits.len();
    let value = digits_value(d.digits);
    let b = power(10, 400);
    lemma_value_above(d.digits, z);
    let a = power(10, (n - z - 1) as nat);
    if d.point >= n {
        let c = power(10, (d.point - n) as nat);
        lemma_power_sum(10, (n - z - 1) as nat, (d.point - n) as nat);
        lemma_power_rises(10, 400, (d.point - z - 1) as nat);
        assert((n - z - 1) as nat + (d.point - n) as nat == (d.point - z - 1) as nat);
        assert(value * c >= a * c) by (nonlinear_arith)
            requires
                value >= a,
        ;
        assert(1 * b == b) by (nonlinear_arith);
        lemma_huge(value * c, 1);
    } else {
        let den = power(10, (n - d.point) as nat);
        let c = power(10, (d.point - z - 1) as nat);
        lemma_power_sum(10, (n - d.point) as nat, (d.point - z - 1) as nat);
        lemma_power_rises(10, 400, (d.point - z - 1) as nat);
        assert((n - d.point) as nat + (d.point - z - 1) as nat == (n - z - 1) as nat);
        assert(den * c >= den * b) by (nonlinear_arith)
            requires
                c >= b,
        ;
        lemma_huge(value, den);
    }
}

/// A fraction from 10^400 on is too large for a finite double.
proof fn lemma_huge(num: nat, den: nat)
    requires
        num >= den * power(10, 400),
    ensures
        nearest(num, den) is None,
{
    let two = power(2, 1074);
    let w = power(2, 53);
    let end = power(2, EXPONENT_END as nat);
    lemma_thirds(400);
    lemma_power_rises(2, 53 + EXPONENT_END as nat, 1074 + 1200);
    lemma_power_sum(2, 53, EXPONENT_END as nat);
    lemma_power_sum(2, 1074, 1200);
    let b = power(10, 400);
    let e = power(2, 1200);
    assert(num * two >= (den * w) * end) by (nonlinear_arith)
        requires
            num >= den * b,
            b >= e,
            two * e >= w * end,
    {
        assert(num * two >= (den * b) * two);
        assert((den * b) * two >= (den * e) * two);
        assert((den * e) * two == den * (two * e));
        assert(den * (two * e) >= den * (w * end));
        assert(den * (w * end) == (den * w) * end);
    }
    lemma_no_scale(num * two, den * w, 0);
}

proof fn lemma_no_scale(n: nat, t: nat, e: nat)
    requires
        e <= EXPONENT_END,
        n >= t * power(2, (EXPONENT_END - e) as nat),
    ensures
        scale(n, t, e) is None,
    decreases EXPONENT_END - e,
{
    if e < EXPONENT_END {
        let p = power(2, (EXPONENT_END - e - 1) as nat);
        lemma_power_positive(2, (EXPONENT_END - e) as nat);
        assert(t * (2 * p) == (2 * t) * p) by (nonlinear_arith);
        assert(t <= t * power(2, (EXPONENT_END - e) as nat)) by (nonlinear_arith)
            requires
                power(2, (EXPONENT_END - e) as nat) >= 1,
        ;
        lemma_no_scale(n, 2 * t, e + 1);
    }
}

/// The whole number that digits write.
fn read_digits(v: &Vec<char>) -> (r: Big)
    requires
        all_digits(v@),
    ensures
        r@ == digits_value(v@),
{
    let mut r = Big::small(0);
    assert(v@.take(0) =~= seq![]);
    for i in 0..v.len()
        invariant
            all_digits(v@),
            r@ == digits_value(v@.take(i as int)),
    {
        let c = v[i];
        assert(is_digit(v@[i as int]));
        r = r.times(10, (c as u32 - '0' as u32) as u64);
        assert(v@.take(i + 1).drop_last() =~= v@.take(i as int));
        assert(v@.take(i + 1).last() == c);
    }
    assert(v@.take(v@.len() as int) =~= v@);
    r
}

/// The double that is nearest to the number.
fn nearest_to(p: &Parts, Ghost(d): Ghost<Decimal>) -> (r: Option<Binary>)
    requires
        p.stands_for(d),
    ensures
        match r {
            Some(b) => double_of(d) == Some(b@),
            None => double_of(d) is None,
        },
{
    let len: usize = p.digits.len();
    let mut z: usize = 0;
    while z < len && p.digits[z] == '0'
        invariant
            len == p.digits@.len(),
            z <= len,
            forall|i: int| 0 <= i < z ==> #[trigger] p.digits@[i] == '0',
        decreases len - z,
    {
        z = z + 1;
    }
    let zero = Binary { mantissa: 0, exponent: 0 };
    if z == len {
        proof {
            lemma_small(d, z as int);
        }
        return Some(zero);
    }
    let far: u128 = 0x1_0000_0000_0000_0000_0000;
    let n = match p.exponent {
        Some(n) => n,
        None => u128::MAX,
    };
    if n >= far {
        if p.negative {
            proof {
                lemma_small(d, z as int);
            }
            return Some(zero);
        }
        proof {
            lemma_large(d, z as int);
        }
        return None;
    }
    let point: i128 = if p.negative {
        p.whole as i128 - n as i128
    } else {
        p.whole as i128 + n as i128
    };
    if point - z as i128 <= -400 {
        proof {
            lemma_small(d, z as int);
        }
        return Some(zero);
    }
    if point - z as i128 > 400 {
        proof {
            lemma_large(d, z as int);
        }
        return None;
    }
    let value = read_digits(&p.digits);
    if point >= len as i128 {
        let num = value.times_power(10, (point - len as i128) as u128);
        nearest_double(&num, &Big::small(1))
    } else {
        let den = Big::small(1).times_power(10, (len as i128 - point) as u128);
        proof {
            let w = power(10, (len - point) as nat);
            lemma_power_positive(10, (len - point) as nat);
            assert(1 * w == w) by (nonlinear_arith);
        }
        nearest_double(&value, &den)
    }
}

/// What a decimal text is read as.
#[derive(Clone, Copy, Debug)]
pub enum Magnitude {
    NotANumber,
    TooLarge,
    Finite(Binary),
}

/// The double that is nearest to the number that a text writes.
pub fn read_magnitude(text: &str) -> (r: Magnitude)
    ensures
        match r {
            Magnitude::NotANumber => decimal_in(text@) is None,
            Magnitude::TooLarge => decimal_in(text@) matches Some(d) && double_of(d) is None,
            Magnitude::Finite(b) => decimal_in(text@) matches Some(d) && double_of(d) == Some(b@)
                && b@.well_formed(),
        },
{
    match read_parts(text) {
        None => Magnitude::NotANumber,
        Some(p) => {
            let ghost d = decimal_in(text@)->0;
            proof {
                let n = d.digits.len();
                let value = digits_value(d.digits);
                lemma_nearest(value * power(10, (d.point - n) as nat), 1);
                lemma_nearest(value, power(10, (n - d.point) as nat));
            }
            match nearest_to(&p, Ghost(d)) {
                None => Magnitude::TooLarge,
                Some(b) => Magnitude::Finite(b),
            }
        },
    }
}

} // verus!
