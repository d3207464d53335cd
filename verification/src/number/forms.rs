//! The texts that stand for doubles.
use vstd::prelude::*;

use crate::number::decimal::{read_magnitude, Magnitude};
#[allow(unused_imports)]
use crate::number::decimal::{decimal_in, double_of, Decimal};
use crate::number::double::Binary;
#[allow(unused_imports)]
use crate::number::double::{bits_of, Double};
use crate::number::shortest::shortest;
#[allow(unused_imports)]
use crate::number::shortest::{last_place_of, shortest_digits};
use crate::text::{chars_of, dec_i64, digits_u64, eq_ignore_ascii_case, slice_text};
#[allow(unused_imports)]
use crate::text::{dec, digits, same_ignoring_case, starts_with_char_spec, zeros};

verus! {

/// How a double is written.
#[derive(Clone, Copy, Debug, PartialEq, Eq, Structural)]
pub enum Form {
    /// With a point and no exponent; a whole number without a point.
    Display,
    /// With a point; with an exponent from 10^16 on and below 10^-4.
    Debug,
    /// With a point; with an exponent from 10^10 on and below 10^-6.
    Cypher,
}

/// A double.
pub enum Real {
    NotANumber,
    Infinite { negative: bool },
    Finite { negative: bool, size: Double },
}

// ── Writing ──────────────────────────────────────────────────────────────────

/// The digits without the zeros at their end.
pub open spec fn without_zeros(s: Seq<char>) -> Seq<char>
    decreases s.len(),
{
    if s.len() > 0 && s.last() == '0' {
        without_zeros(s.drop_last())
    } else {
        s
    }
}

/// The decimal number of the fewest digits that is read as the double; zero has
/// no digits.
pub open spec fn shortest_decimal(v: Double) -> Decimal {
    if v.mantissa == 0 {
        Decimal { digits: seq![], point: 0 }
    } else {
        let s = digits(shortest_digits(v));
        Decimal { digits: without_zeros(s), point: s.len() + last_place_of(v) - 400 }
    }
}

/// A decimal number with a point and no exponent; a whole number without a point.
pub open spec fn positional(d: Decimal) -> Seq<char> {
    let n = d.digits.len();
    if n == 0 {
        "0"@
    } else if d.point <= 0 {
        "0."@ + zeros(-d.point) + d.digits
    } else if d.point >= n {
        d.digits + zeros(d.point - n)
    } else {
        d.digits.take(d.point) + "."@ + d.digits.skip(d.point)
    }
}

/// A decimal number with a point and no exponent.
pub open spec fn pointed(d: Decimal) -> Seq<char> {
    if d.digits.len() == 0 || d.point >= d.digits.len() {
        positional(d) + ".0"@
    } else {
        positional(d)
    }
}

/// A decimal number with one digit before the point, and an exponent.
pub open spec fn scientific(d: Decimal, form: Form) -> Seq<char> {
    let rest = d.digits.skip(1);
    let mantissa = if rest.len() > 0 {
        d.digits.take(1) + "."@ + rest
    } else if form == Form::Cypher {
        d.digits.take(1) + ".0"@
    } else {
        d.digits.take(1)
    };
    let mark = if form == Form::Cypher {
        "E"@
    } else {
        "e"@
    };
    mantissa + mark + dec(d.point - 1)
}

/// Whether the form writes the number with an exponent.
pub open spec fn has_exponent(d: Decimal, form: Form) -> bool {
    d.digits.len() > 0 && match form {
        Form::Display => false,
        Form::Debug => d.point > 16 || d.point < -3,
        Form::Cypher => d.point > 10 || d.point < -5,
    }
}

pub open spec fn decimal_text(d: Decimal, form: Form) -> Seq<char> {
    if form == Form::Display {
        positional(d)
    } else if has_exponent(d, form) {
        scientific(d, form)
    } else {
        pointed(d)
    }
}

pub open spec fn sign(negative: bool) -> Seq<char> {
    if negative {
        "-"@
    } else {
        ""@
    }
}

/// The text of a double.
pub open spec fn real_text(r: Real, form: Form) -> Seq<char> {
    match r {
        Real::NotANumber => "NaN"@,
        Real::Infinite { negative } => sign(negative) + "inf"@,
        Real::Finite { negative, size } => sign(negative) + decimal_text(
            shortest_decimal(size),
            form,
        ),
    }
}

// ── Reading ──────────────────────────────────────────────────────────────────

pub open spec fn is_signed(t: Seq<char>) -> bool {
    starts_with_char_spec(t, '-') || starts_with_char_spec(t, '+')
}

/// The double that a text is read as: a decimal number, or a word for infinity or
/// for what is no number, each with an optional sign.
pub open spec fn real_in(t: Seq<char>) -> Option<Real> {
    let negative = starts_with_char_spec(t, '-');
    let s = if is_signed(t) {
        t.skip(1)
    } else {
        t
    };
    match decimal_in(s) {
        Some(d) => match double_of(d) {
            Some(v) => Some(Real::Finite { negative, size: v }),
            None => Some(Real::Infinite { negative }),
        },
        None => if same_ignoring_case(s, "nan"@) {
            Some(Real::NotANumber)
        } else if same_ignoring_case(s, "inf"@) || same_ignoring_case(s, "infinity"@) {
            Some(Real::Infinite { negative })
        } else {
            None
        },
    }
}

/// The double with the opposite sign.
pub open spec fn opposite(r: Real) -> Real {
    match r {
        Real::NotANumber => r,
        Real::Infinite { negative } => Real::Infinite { negative: !negative },
        Real::Finite { negative, size } => Real::Finite { negative: !negative, size },
    }
}

/// The bits of a double.
pub open spec fn real_bits(r: Real) -> nat {
    match r {
        Real::NotANumber => 0x7ff8_0000_0000_0000,
        Real::Infinite { negative } => if negative {
            0xfff0_0000_0000_0000
        } else {
            0x7ff0_0000_0000_0000
        },
        Real::Finite { negative, size } => bits_of(size, negative),
    }
}

// ── The same, computed ───────────────────────────────────────────────────────

/// A double, as machine numbers.
#[derive(Clone, Copy, Debug)]
pub enum Number {
    NotANumber,
    Infinite { negative: bool },
    Finite { negative: bool, size: Binary },
}

impl View for Number {
    type V = Real;

    open spec fn view(&self) -> Real {
        match *self {
            Number::NotANumber => Real::NotANumber,
            Number::Infinite { negative } => Real::Infinite { negative },
            Number::Finite { negative, size } => Real::Finite { negative, size: size@ },
        }
    }
}

impl Number {
    pub open spec fn well_formed(self) -> bool {
        self@ matches Real::Finite { negative, size } ==> size.well_formed()
    }
}

/// The digits of a number and the place of its point.
struct Places {
    digits: Vec<char>,
    point: i64,
}

impl View for Places {
    type V = Decimal;

    closed spec fn view(&self) -> Decimal {
        Decimal { digits: self.digits@, point: self.point as int }
    }
}

proof fn lemma_digits_len(n: nat, k: nat)
    requires
        n < crate::number::big::power(10, k),
        k > 0,
    ensures
        0 < digits(n).len() <= k,
    decreases n,
{
    if n >= 10 {
        assert(k > 1) by {
            reveal_with_fuel(crate::number::big::power, 2);
        }
        lemma_digits_len(n / 10, (k - 1) as nat);
    }
}

fn shortest_places(v: Binary) -> (r: Places)
    requires
        v@.well_formed(),
    ensures
        r@ == shortest_decimal(v@),
        -400 <= r@.point <= 400,
{
    if v.mantissa == 0 {
        return Places { digits: Vec::new(), point: 0 };
    }
    let (c, k) = shortest(v);
    let text = digits_u64(c);
    let mut s = chars_of(text.as_str());
    proof {
        assert(c < crate::number::big::power(10, 20)) by {
            reveal_with_fuel(crate::number::big::power, 21);
        }
        lemma_digits_len(c as nat, 20);
    }
    let point: i64 = s.len() as i64 + k as i64 - 400;
    let ghost all = s@;
    while s.len() > 0 && s[s.len() - 1] == '0'
        invariant
            without_zeros(s@) == without_zeros(all),
        decreases s@.len(),
    {
        let ghost before = s@;
        s.pop();
        assert(s@ =~= before.drop_last());
    }
    Places { digits: s, point }
}

fn push_all(out: &mut Vec<char>, text: &str)
    ensures
        final(out)@ == old(out)@ + text@,
{
    let v = chars_of(text);
    push_range(out, &v, 0, v.len());
    assert(v@.subrange(0, v@.len() as int) =~= text@);
}

fn push_range(out: &mut Vec<char>, v: &Vec<char>, from: usize, to: usize)
    requires
        from <= to <= v@.len(),
    ensures
        final(out)@ == old(out)@ + v@.subrange(from as int, to as int),
{
    let mut i: usize = from;
    while i < to
        invariant
            from <= i <= to <= v@.len(),
            out@ == old(out)@ + v@.subrange(from as int, i as int),
        decreases to - i,
    {
        out.push(v[i]);
        assert(v@.subrange(from as int, i + 1) =~= v@.subrange(from as int, i as int).push(
            v@[i as int],
        ));
        i = i + 1;
    }
}

fn push_zeros(out: &mut Vec<char>, n: i64)
    ensures
        final(out)@ == old(out)@ + zeros(n as int),
{
    let mut i: i64 = 0;
    while i < n
        invariant
            0 <= i,
            n >= 0 ==> i <= n,
            n < 0 ==> i == 0,
            out@ == old(out)@ + zeros(i as int),
        decreases n - i,
    {
        out.push('0');
        assert(zeros(i + 1) =~= zeros(i as int).push('0'));
        i = i + 1;
    }
    assert(zeros(n as int) =~= zeros(i as int));
}

fn push_positional(out: &mut Vec<char>, d: &Places)
    requires
        -400 <= d@.point <= 400,
    ensures
        final(out)@ == old(out)@ + positional(d@),
{
    let n: usize = d.digits.len();
    if n == 0 {
        push_all(out, "0");
    } else if d.point <= 0 {
        push_all(out, "0.");
        push_zeros(out, -d.point);
        push_range(out, &d.digits, 0, n);
        assert(d.digits@.subrange(0, n as int) =~= d.digits@);
        assert(out@ =~= old(out)@ + positional(d@));
    } else if d.point as u64 >= n as u64 {
        push_range(out, &d.digits, 0, n);
        push_zeros(out, d.point - n as i64);
        assert(d.digits@.subrange(0, n as int) =~= d.digits@);
        assert(out@ =~= old(out)@ + positional(d@));
    } else {
        let p: usize = d.point as usize;
        push_range(out, &d.digits, 0, p);
        push_all(out, ".");
        push_range(out, &d.digits, p, n);
        assert(d.digits@.subrange(0, p as int) =~= d.digits@.take(p as int));
        assert(d.digits@.subrange(p as int, n as int) =~= d.digits@.skip(p as int));
        assert(out@ =~= old(out)@ + positional(d@));
    }
}

fn push_scientific(out: &mut Vec<char>, d: &Places, form: Form)
    requires
        -400 <= d@.point <= 400,
        d@.digits.len() > 0,
    ensures
        final(out)@ == old(out)@ + scientific(d@, form),
{
    let n: usize = d.digits.len();
    push_range(out, &d.digits, 0, 1);
    assert(d.digits@.subrange(0, 1) =~= d.digits@.take(1));
    if n > 1 {
        push_all(out, ".");
        push_range(out, &d.digits, 1, n);
        assert(d.digits@.subrange(1, n as int) =~= d.digits@.skip(1));
    } else if form == Form::Cypher {
        push_all(out, ".0");
    }
    if form == Form::Cypher {
        push_all(out, "E");
    } else {
        push_all(out, "e");
    }
    let e = dec_i64(d.point - 1);
    push_all(out, e.as_str());
    assert(out@ =~= old(out)@ + scientific(d@, form));
}

fn push_decimal(out: &mut Vec<char>, d: &Places, form: Form)
    requires
        -400 <= d@.point <= 400,
    ensures
        final(out)@ == old(out)@ + decimal_text(d@, form),
{
    let n: usize = d.digits.len();
    let exponent = n > 0 && match form {
        Form::Display => false,
        Form::Debug => d.point > 16 || d.point < -3,
        Form::Cypher => d.point > 10 || d.point < -5,
    };
    if form == Form::Display {
        push_positional(out, d);
    } else if exponent {
        push_scientific(out, d, form);
    } else {
        push_positional(out, d);
        if n == 0 || d.point > 0 && d.point as u64 >= n as u64 {
            push_all(out, ".0");
            assert(out@ =~= old(out)@ + pointed(d@));
        }
    }
}

/// The text of a double.
pub fn number_text(r: Number, form: Form) -> (t: String)
    requires
        r.well_formed(),
    ensures
        t@ == real_text(r@, form),
{
    let mut out: Vec<char> = Vec::new();
    match r {
        Number::NotANumber => {
            push_all(&mut out, "NaN");
        },
        Number::Infinite { negative } => {
            push_sign(&mut out, negative);
            push_all(&mut out, "inf");
        },
        Number::Finite { negative, size } => {
            push_sign(&mut out, negative);
            let d = shortest_places(size);
            push_decimal(&mut out, &d, form);
        },
    }
    assert(out@ =~= real_text(r@, form));
    let n: usize = out.len();
    assert(out@.subrange(0, n as int) =~= out@);
    slice_text(&out, 0, n)
}

fn push_sign(out: &mut Vec<char>, negative: bool)
    ensures
        final(out)@ == old(out)@ + sign(negative),
{
    if negative {
        push_all(out, "-");
    } else {
        push_all(out, "");
    }
}

/// The double that a text is read as.
pub fn read_number(text: &str) -> (r: Option<Number>)
    ensures
        match r {
            Some(n) => real_in(text@) == Some(n@) && n.well_formed(),
            None => real_in(text@) is None,
        },
{
    let v = chars_of(text);
    let len: usize = v.len();
    let negative = len > 0 && v[0] == '-';
    let from: usize = if len > 0 && (v[0] == '-' || v[0] == '+') {
        1
    } else {
        0
    };
    let s = slice_text(&v, from, len);
    assert(s@ =~= if is_signed(text@) {
        text@.skip(1)
    } else {
        text@
    });
    match read_magnitude(s.as_str()) {
        Magnitude::Finite(size) => Some(Number::Finite { negative, size }),
        Magnitude::TooLarge => Some(Number::Infinite { negative }),
        Magnitude::NotANumber => {
            if eq_ignore_ascii_case(s.as_str(), "nan") {
                Some(Number::NotANumber)
            } else if eq_ignore_ascii_case(s.as_str(), "inf") || eq_ignore_ascii_case(
                s.as_str(),
                "infinity",
            ) {
                Some(Number::Infinite { negative })
            } else {
                None
            }
        },
    }
}

/// The double with the opposite sign.
pub fn opposite_of(n: Number) -> (r: Number)
    requires
        n.well_formed(),
    ensures
        r@ == opposite(n@),
        r.well_formed(),
{
    match n {
        Number::NotANumber => Number::NotANumber,
        Number::Infinite { negative } => Number::Infinite { negative: !negative },
        Number::Finite { negative, size } => Number::Finite { negative: !negative, size },
    }
}

/// The bits of a double.
pub fn number_bits(n: Number) -> (r: u64)
    requires
        n.well_formed(),
    ensures
        r == real_bits(n@),
{
    match n {
        Number::NotANumber => 0x7ff8_0000_0000_0000,
        Number::Infinite { negative } => if negative {
            0xfff0_0000_0000_0000
        } else {
            0x7ff0_0000_0000_0000
        },
        Number::Finite { negative, size } => size.bits(negative),
    }
}

} // verus!
