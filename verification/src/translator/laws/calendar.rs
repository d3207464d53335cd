//! The laws of dates: the properties of a date are those of the calendar.
use vstd::prelude::*;

#[allow(unused_imports)]
use crate::parser::lexical::number_in;
#[allow(unused_imports)]
use crate::text::occurs_at;
#[allow(unused_imports)]
use crate::translator::formula::{
    bound, cut, decimal, floor, input, minus, num, over, plus, times, whole, Formula,
};
#[allow(unused_imports)]
use crate::translator::temporal::{
    day_step, epoch_step, offset_seconds, quarter_step, result_formula, step_at, step_count,
    Property,
};

verus! {

// ── What a formula gives ─────────────────────────────────────────────────────

/// The part of a text from a place on, counted from 1.
pub open spec fn piece(s: Seq<char>, from: int, len: int) -> Seq<char> {
    if 1 <= from && 0 <= len && from - 1 + len <= s.len() {
        s.subrange(from - 1, from - 1 + len)
    } else if 1 <= from <= s.len() {
        s.skip(from - 1)
    } else {
        seq![]
    }
}

/// The first place of a text in another, or that none is.
pub open spec fn first_at(s: Seq<char>, p: Seq<char>, i: int) -> Option<int>
    decreases s.len() - i + 1,
{
    if i > s.len() - p.len() {
        None
    } else if occurs_at(s, p, i) {
        Some(i)
    } else {
        first_at(s, p, i + 1)
    }
}

/// The text that a formula gives, for the text of a value.
pub open spec fn text_given(f: Formula, t: Seq<char>) -> Seq<char>
    decreases f,
{
    match f {
        Formula::Input => t,
        Formula::Text(s) => s@,
        Formula::Cut(a, from, len) => piece(text_given(*a, t), from as int, len as int),
        Formula::After(a, s) => match first_at(text_given(*a, t), s@, 0) {
            Some(i) => text_given(*a, t).skip(i + s@.len()),
            None => seq![],
        },
        Formula::Before(a, s) => match first_at(text_given(*a, t), s@, 0) {
            Some(i) => text_given(*a, t).take(i),
            None => seq![],
        },
        Formula::Join(a, b) => text_given(*a, t) + text_given(*b, t),
        Formula::Branch(c, a, b) => if holds_given(*c, t) {
            text_given(*a, t)
        } else {
            text_given(*b, t)
        },
        _ => seq![],
    }
}

/// Whether the condition of a branch holds.
pub open spec fn holds_given(f: Formula, t: Seq<char>) -> bool
    decreases f,
{
    match f {
        Formula::Has(a, s) => first_at(text_given(*a, t), s@, 0) is Some,
        Formula::Same(a, b) => text_given(*a, t) == text_given(*b, t),
        _ => false,
    }
}

/// The number that decimal digits spell, with a minus sign before them or none.
pub open spec fn reading(s: Seq<char>) -> int {
    if s.len() > 0 && s[0] == '-' {
        -(number_in(s.skip(1), 10)->Some_0)
    } else {
        number_in(s, 10)->Some_0
    }
}

/// Digits alone are read as they are.
pub proof fn lemma_unsigned(s: Seq<char>)
    requires
        number_in(s, 10) is Some,
    ensures
        reading(s) == number_in(s, 10).unwrap(),
    decreases s.len(),
{
    if s.len() > 1 {
        lemma_unsigned(s.drop_last());
        assert(s.drop_last()[0] == s[0]);
        if s[0] == '-' {
            lemma_signed(s.drop_last());
        }
    }
}

proof fn lemma_signed(s: Seq<char>)
    requires
        s.len() > 0,
        s[0] == '-',
    ensures
        number_in(s, 10) is None,
    decreases s.len(),
{
    if s.len() > 1 {
        assert(s.drop_last()[0] == s[0]);
        lemma_signed(s.drop_last());
    }
}

/// The number that a formula gives, over the numbers that are bound. A quotient
/// stands only where it is rounded at once.
#[verifier::opaque]
pub open spec fn number_given(f: Formula, t: Seq<char>, bound: Seq<int>) -> int
    decreases f,
{
    match f {
        Formula::Count(n) => n as int,
        Formula::Num(s) => reading(s@),
        Formula::Bound(k) => if k < bound.len() {
            bound[k as int]
        } else {
            0
        },
        Formula::Whole(a) => number_given(*a, t, bound),
        Formula::Decimal(a) => number_given(*a, t, bound),
        Formula::Floor(a) => match *a {
            Formula::Over(x, y) => number_given(*x, t, bound) / number_given(*y, t, bound),
            _ => number_given(*a, t, bound),
        },
        Formula::Ceil(a) => match *a {
            Formula::Over(x, y) => -(-number_given(*x, t, bound) / number_given(*y, t, bound)),
            _ => number_given(*a, t, bound),
        },
        Formula::Negative(a) => -number_given(*a, t, bound),
        Formula::Plus(a, b) => number_given(*a, t, bound) + number_given(*b, t, bound),
        Formula::Minus(a, b) => number_given(*a, t, bound) - number_given(*b, t, bound),
        Formula::Times(a, b) => number_given(*a, t, bound) * number_given(*b, t, bound),
        Formula::Branch(c, a, b) => if holds_given(*c, t) {
            number_given(*a, t, bound)
        } else {
            number_given(*b, t, bound)
        },
        _ => reading(text_given(f, t)),
    }
}

/// The numbers that are bound in the first `n` steps of a property.
pub open spec fn bound_numbers(p: Property, n: int, t: Seq<char>) -> Seq<int>
    decreases n,
{
    if n <= 0 {
        seq![]
    } else {
        let before = bound_numbers(p, n - 1, t);
        before.push(number_given(step_at(p, (n - 1) as usize).formula, t, before))
    }
}

/// The number that a property of a text is.
pub open spec fn property_number(p: Property, t: Seq<char>) -> int {
    number_given(result_formula(p)->Some_0, t, bound_numbers(p, step_count(p) as int, t))
}

// ── The calendar ─────────────────────────────────────────────────────────────

pub open spec fn is_leap(y: int) -> bool {
    y % 4 == 0 && (y % 100 != 0 || y % 400 == 0)
}

pub open spec fn leap_day(y: int) -> int {
    if is_leap(y) {
        1
    } else {
        0
    }
}

pub open spec fn month_length(y: int, m: int) -> int {
    if m == 2 {
        28 + leap_day(y)
    } else if m == 4 || m == 6 || m == 9 || m == 11 {
        30
    } else {
        31
    }
}

/// The days of the year before a month.
pub open spec fn month_start(y: int, m: int) -> int
    decreases m,
{
    if m <= 1 {
        0
    } else {
        month_start(y, m - 1) + month_length(y, m - 1)
    }
}

/// The days from the start of year 1 to the start of a year.
#[verifier::opaque]
pub open spec fn year_start(y: int) -> int {
    365 * (y - 1) + (y - 1) / 4 - (y - 1) / 100 + (y - 1) / 400
}

/// The days from the start of year 1 to a day.
pub open spec fn day_number(y: int, m: int, d: int) -> int {
    year_start(y) + month_start(y, m) + d - 1
}

pub open spec fn is_date(y: int, m: int, d: int) -> bool {
    &&& 0 <= y <= 9999
    &&& 1 <= m <= 12
    &&& 1 <= d <= month_length(y, m)
}

/// Whether a text begins with a date, as `2024-12-30` does.
pub open spec fn begins_with_date(t: Seq<char>, y: int, m: int, d: int) -> bool {
    &&& is_date(y, m, d)
    &&& t.len() >= 10
    &&& number_in(t.subrange(0, 4), 10) == Some(y)
    &&& number_in(t.subrange(5, 7), 10) == Some(m)
    &&& number_in(t.subrange(8, 10), 10) == Some(d)
}

/// A year is followed by the next after 365 days, and one more in a leap year.
pub proof fn law_year_lengths(y: int)
    ensures
        year_start(1) == 0,
        year_start(y + 1) == year_start(y) + 365 + leap_day(y),
        year_start(y) + month_start(y, 13) == year_start(y + 1),
{
    reveal(year_start);
    lemma_leap(y);
    reveal_with_fuel(month_start, 14);
}

proof fn lemma_leap(y: int)
    ensures
        y / 4 - y / 100 + y / 400 == (y - 1) / 4 - (y - 1) / 100 + (y - 1) / 400 + leap_day(y),
{
    assert(y / 4 == (y - 1) / 4 + (if y % 4 == 0 { 1int } else { 0 }));
    assert(y / 100 == (y - 1) / 100 + (if y % 100 == 0 { 1int } else { 0 }));
    assert(y / 400 == (y - 1) / 400 + (if y % 400 == 0 { 1int } else { 0 }));
    assert(y % 400 == 0 ==> y % 100 == 0);
    assert(y % 100 == 0 ==> y % 4 == 0);
}

// ── The steps ────────────────────────────────────────────────────────────────

proof fn lemma_numerals()
    ensures
        reading("1"@) == 1,
        reading("2"@) == 2,
        reading("3"@) == 3,
        reading("4"@) == 4,
        reading("5"@) == 5,
        reading("7"@) == 7,
        reading("10"@) == 10,
        reading("12"@) == 12,
        reading("14"@) == 14,
        reading("100"@) == 100,
        reading("153"@) == 153,
        reading("307"@) == 307,
        reading("310"@) == 310,
        reading("365"@) == 365,
        reading("400"@) == 400,
        reading("1461"@) == 1461,
        reading("4799"@) == 4799,
        reading("4800"@) == 4800,
        reading("32044"@) == 32044,
        reading("32045"@) == 32045,
        reading("146097"@) == 146097,
{
    reveal_strlit("1");
    reveal_strlit("2");
    reveal_strlit("3");
    reveal_strlit("4");
    reveal_strlit("5");
    reveal_strlit("7");
    reveal_strlit("10");
    reveal_strlit("12");
    reveal_strlit("14");
    reveal_strlit("100");
    reveal_strlit("153");
    reveal_strlit("307");
    reveal_strlit("310");
    reveal_strlit("365");
    reveal_strlit("400");
    reveal_strlit("1461");
    reveal_strlit("4799");
    reveal_strlit("4800");
    reveal_strlit("32044");
    reveal_strlit("32045");
    reveal_strlit("146097");
    reveal_with_fuel(number_in, 7);
}

/// Whether numbers are those of the first steps of a day.
#[verifier::opaque]
spec fn follow(b: Seq<int>, t: Seq<char>, n: int) -> bool {
    &&& n <= b.len()
    &&& forall|k: int|
        0 <= k < n ==> #[trigger] b[k] == number_given(
            day_step(k as usize).formula,
            t,
            b.take(k),
        )
}

/// The formulas of the steps of [`lemma_day_steps`].
proof fn lemma_day_formulas(b: Seq<int>, t: Seq<char>)
    requires
        follow(b, t, 12),
    ensures
        b.len() >= 12,
        b[0] == number_given(whole(cut(input(), 1, 4)), t, b.take(0)),
        b[1] == number_given(whole(cut(input(), 6, 2)), t, b.take(1)),
        b[2] == number_given(whole(cut(input(), 9, 2)), t, b.take(2)),
        b[3] == number_given(decimal(bound(0)), t, b.take(3)),
        b[4] == number_given(decimal(bound(1)), t, b.take(4)),
        b[5] == number_given(decimal(bound(2)), t, b.take(5)),
        b[6] == number_given(minus(num("14"), bound(4)), t, b.take(6)),
        b[7] == number_given(floor(over(bound(6), num("12"))), t, b.take(7)),
        b[8] == number_given(minus(plus(bound(3), num("4800")), bound(7)), t, b.take(8)),
        b[9] == number_given(times(num("12"), bound(7)), t, b.take(9)),
        b[10] == number_given(minus(plus(bound(4), bound(9)), num("3")), t, b.take(10)),
        b[11] == number_given(times(num("153"), bound(10)), t, b.take(11)),
{
    reveal(follow);
}

/// The steps to the month of a year that begins in March.
proof fn lemma_day_steps(b: Seq<int>, t: Seq<char>, y: int, m: int, d: int)
    requires
        follow(b, t, 12),
        begins_with_date(t, y, m, d),
    ensures
        b[0] == y,
        b[1] == m,
        b[2] == d,
        b[3] == b[0],
        b[4] == b[1],
        b[5] == b[2],
        b[6] == 14 - b[4],
        b[7] == b[6] / 12,
        b[8] == b[3] + 4800 - b[7],
        b[9] == 12 * b[7],
        b[10] == b[4] + b[9] - 3,
        b[11] == 153 * b[10],
{
    lemma_day_formulas(b, t);
    lemma_numerals();
    lemma_unsigned(t.subrange(0, 4));
    lemma_unsigned(t.subrange(5, 7));
    lemma_unsigned(t.subrange(8, 10));
    reveal_with_fuel(number_given, 6);
    reveal_with_fuel(text_given, 2);
}

/// The formulas of the steps of [`lemma_julian_steps`].
proof fn lemma_julian_formulas(b: Seq<int>, t: Seq<char>)
    requires
        follow(b, t, 23),
    ensures
        b.len() >= 23,
        b[12] == number_given(plus(bound(11), num("2")), t, b.take(12)),
        b[13] == number_given(floor(over(bound(12), num("5"))), t, b.take(13)),
        b[14] == number_given(times(num("365"), bound(8)), t, b.take(14)),
        b[15] == number_given(floor(over(bound(8), num("4"))), t, b.take(15)),
        b[16] == number_given(floor(over(bound(8), num("100"))), t, b.take(16)),
        b[17] == number_given(floor(over(bound(8), num("400"))), t, b.take(17)),
        b[18] == number_given(plus(plus(plus(plus(bound(5), bound(13)), bound(14)), bound(15)), bound(17)), t, b.take(18)),
        b[19] == number_given(plus(bound(16), num("32045")), t, b.take(19)),
        b[20] == number_given(minus(bound(18), bound(19)), t, b.take(20)),
        b[21] == number_given(floor(over(bound(20), num("7"))), t, b.take(21)),
        b[22] == number_given(minus(bound(20), times(num("7"), bound(21))), t, b.take(22)),
{
    reveal(follow);
}

/// The steps to the Julian day number.
proof fn lemma_julian_steps(b: Seq<int>, t: Seq<char>)
    requires
        follow(b, t, 23),
    ensures
        b[12] == b[11] + 2,
        b[13] == b[12] / 5,
        b[14] == 365 * b[8],
        b[15] == b[8] / 4,
        b[16] == b[8] / 100,
        b[17] == b[8] / 400,
        b[18] == b[5] + b[13] + b[14] + b[15] + b[17],
        b[19] == b[16] + 32045,
        b[20] == b[18] - b[19],
        b[21] == b[20] / 7,
        b[22] == b[20] - 7 * b[21],
{
    lemma_julian_formulas(b, t);
    lemma_numerals();
    reveal_with_fuel(number_given, 7);
}

/// The Julian day number, and the day of the week.
proof fn lemma_julian(b: Seq<int>, t: Seq<char>, y: int, m: int, d: int)
    requires
        follow(b, t, 23),
        begins_with_date(t, y, m, d),
    ensures
        b[3] == y,
        b[4] == m,
        b[20] == day_number(y, m, d) + 1721426,
        b[22] == b[20] % 7,
{
    lemma_fewer(b, t, 23, 12);
    lemma_day_steps(b, t, y, m, d);
    lemma_julian_steps(b, t);
    lemma_julian_day(y, m, d);
}

/// Fewer steps are steps too.
proof fn lemma_fewer(b: Seq<int>, t: Seq<char>, n: int, k: int)
    requires
        follow(b, t, n),
        k <= n,
    ensures
        follow(b, t, k),
{
    reveal(follow);
}

/// The Julian day number, as it is computed.
spec fn julian(y: int, m: int, d: int) -> int {
    let a = (14 - m) / 12;
    let yy = y + 4800 - a;
    let mm = m + 12 * a - 3;
    d + (153 * mm + 2) / 5 + 365 * yy + yy / 4 + yy / 400 - (yy / 100 + 32045)
}

proof fn lemma_julian_day(y: int, m: int, d: int)
    requires
        1 <= m <= 12,
    ensures
        julian(y, m, d) == day_number(y, m, d) + 1721426,
{
    reveal(year_start);
    reveal_with_fuel(month_start, 13);
    lemma_leap(y);
    let a = (14 - m) / 12;
    assert(a == if m <= 2 { 1int } else { 0 });
    assert((y + 4800) / 4 == y / 4 + 1200);
    assert((y + 4800) / 100 == y / 100 + 48);
    assert((y + 4800) / 400 == y / 400 + 12);
    assert((y + 4799) / 4 == (y - 1) / 4 + 1200);
    assert((y + 4799) / 100 == (y - 1) / 100 + 48);
    assert((y + 4799) / 400 == (y - 1) / 400 + 12);
}

/// The formulas of the steps of [`lemma_year_steps`].
proof fn lemma_year_formulas(b: Seq<int>, t: Seq<char>)
    requires
        follow(b, t, 31),
    ensures
        b.len() >= 31,
        b[23] == number_given(plus(bound(3), num("4799")), t, b.take(23)),
        b[24] == number_given(times(num("365"), bound(23)), t, b.take(24)),
        b[25] == number_given(floor(over(bound(23), num("4"))), t, b.take(25)),
        b[26] == number_given(floor(over(bound(23), num("100"))), t, b.take(26)),
        b[27] == number_given(floor(over(bound(23), num("400"))), t, b.take(27)),
        b[28] == number_given(plus(plus(plus(num("307"), bound(24)), bound(25)), bound(27)), t, b.take(28)),
        b[29] == number_given(plus(bound(26), num("32045")), t, b.take(29)),
        b[30] == number_given(minus(bound(28), bound(29)), t, b.take(30)),
{
    reveal(follow);
}

/// The steps to the first of the year.
proof fn lemma_year_steps(b: Seq<int>, t: Seq<char>)
    requires
        follow(b, t, 31),
    ensures
        b[23] == b[3] + 4799,
        b[24] == 365 * b[23],
        b[25] == b[23] / 4,
        b[26] == b[23] / 100,
        b[27] == b[23] / 400,
        b[28] == 307 + b[24] + b[25] + b[27],
        b[29] == b[26] + 32045,
        b[30] == b[28] - b[29],
{
    lemma_year_formulas(b, t);
    lemma_numerals();
    reveal_with_fuel(number_given, 6);
}

/// The Julian day number of the first of the year.
proof fn lemma_year_julian(b: Seq<int>, t: Seq<char>, y: int, m: int, d: int)
    requires
        follow(b, t, 31),
        begins_with_date(t, y, m, d),
    ensures
        b[20] == day_number(y, m, d) + 1721426,
        b[30] == year_start(y) + 1721426,
{
    lemma_fewer(b, t, 31, 23);
    lemma_julian(b, t, y, m, d);
    lemma_year_steps(b, t);
    lemma_first_day(y);
}

proof fn lemma_first_day(y: int)
    ensures
        307 + 365 * (y + 4799) + (y + 4799) / 4 + (y + 4799) / 400 - ((y + 4799) / 100 + 32045)
            == year_start(y) + 1721426,
{
    reveal(year_start);
    assert((y + 4799) / 4 == (y - 1) / 4 + 1200);
    assert((y + 4799) / 100 == (y - 1) / 100 + 48);
    assert((y + 4799) / 400 == (y - 1) / 400 + 12);
}

/// The Thursday of the week of a day.
pub open spec fn thursday(n: int) -> int {
    n - n % 7 + 3
}

/// The year of a Julian day number, as it is computed.
spec fn julian_year(n: int) -> int {
    let a = n + 32044;
    let b = (4 * a + 3) / 146097;
    let c = a - (146097 * b) / 4;
    let d = (4 * c + 3) / 1461;
    let e = c - (1461 * d) / 4;
    let m = (5 * e + 2) / 153;
    100 * b + d + m / 10 - 4800
}

proof fn lemma_julian_year(n: int)
    requires
        n + 1721426 + 32044 >= 0,
    ensures
        year_start(julian_year(n + 1721426)) <= n < year_start(julian_year(n + 1721426) + 1),
{
    reveal(year_start);
    let a = n + 1721426 + 32044;
    let b = (4 * a + 3) / 146097;
    let c = a - (146097 * b) / 4;
    let d = (4 * c + 3) / 1461;
    let e = c - (1461 * d) / 4;
    let m = (5 * e + 2) / 153;
    assert(b >= 0);
    assert((146097 * b) / 4 == 36524 * b + b / 4);
    assert(0 <= c <= 36524);
    assert(0 <= d <= 99);
    assert((1461 * d) / 4 == 365 * d + d / 4);
    assert(0 <= e <= 365);
    assert(m / 10 == if e >= 306 { 1int } else { 0 });
    let p = 100 * b + d;
    assert(p / 4 == 25 * b + d / 4);
    assert(p / 100 == b);
    assert(p / 400 == b / 4);
    assert(a == 365 * p + p / 4 - p / 100 + p / 400 + e);
    let y = p - 4800;
    assert(y / 4 == p / 4 - 1200);
    assert(y / 100 == p / 100 - 48);
    assert(y / 400 == p / 400 - 12);
    lemma_leap(y);
    lemma_leap(y + 1);
    law_year_lengths(y);
    law_year_lengths(y + 1);
}

/// The formulas of the steps of [`lemma_thursday_steps`].
proof fn lemma_thursday_formulas(b: Seq<int>, t: Seq<char>)
    requires
        follow(b, t, 42),
    ensures
        b.len() >= 42,
        b[31] == number_given(minus(plus(bound(20), num("3")), bound(22)), t, b.take(31)),
        b[32] == number_given(plus(bound(31), num("32044")), t, b.take(32)),
        b[33] == number_given(times(num("4"), bound(32)), t, b.take(33)),
        b[34] == number_given(plus(bound(33), num("3")), t, b.take(34)),
        b[35] == number_given(floor(over(bound(34), num("146097"))), t, b.take(35)),
        b[36] == number_given(times(num("146097"), bound(35)), t, b.take(36)),
        b[37] == number_given(floor(over(bound(36), num("4"))), t, b.take(37)),
        b[38] == number_given(minus(bound(32), bound(37)), t, b.take(38)),
        b[39] == number_given(times(num("4"), bound(38)), t, b.take(39)),
        b[40] == number_given(plus(bound(39), num("3")), t, b.take(40)),
        b[41] == number_given(floor(over(bound(40), num("1461"))), t, b.take(41)),
{
    reveal(follow);
}

/// The steps to the Thursday of the week, and on to its year.
proof fn lemma_thursday_steps(b: Seq<int>, t: Seq<char>)
    requires
        follow(b, t, 42),
    ensures
        b[31] == b[20] + 3 - b[22],
        b[32] == b[31] + 32044,
        b[33] == 4 * b[32],
        b[34] == b[33] + 3,
        b[35] == b[34] / 146097,
        b[36] == 146097 * b[35],
        b[37] == b[36] / 4,
        b[38] == b[32] - b[37],
        b[39] == 4 * b[38],
        b[40] == b[39] + 3,
        b[41] == b[40] / 1461,
{
    lemma_thursday_formulas(b, t);
    lemma_numerals();
    reveal_with_fuel(number_given, 6);
}

/// The formulas of the steps of [`lemma_thursday_year_steps`].
proof fn lemma_thursday_year_formulas(b: Seq<int>, t: Seq<char>)
    requires
        follow(b, t, 52),
    ensures
        b.len() >= 52,
        b[42] == number_given(times(num("1461"), bound(41)), t, b.take(42)),
        b[43] == number_given(floor(over(bound(42), num("4"))), t, b.take(43)),
        b[44] == number_given(minus(bound(38), bound(43)), t, b.take(44)),
        b[45] == number_given(times(num("5"), bound(44)), t, b.take(45)),
        b[46] == number_given(plus(bound(45), num("2")), t, b.take(46)),
        b[47] == number_given(floor(over(bound(46), num("153"))), t, b.take(47)),
        b[48] == number_given(floor(over(bound(47), num("10"))), t, b.take(48)),
        b[49] == number_given(times(num("100"), bound(35)), t, b.take(49)),
        b[50] == number_given(plus(plus(bound(49), bound(41)), bound(48)), t, b.take(50)),
        b[51] == number_given(minus(bound(50), num("4800")), t, b.take(51)),
{
    reveal(follow);
}

/// The steps to the year of the Thursday.
proof fn lemma_thursday_year_steps(b: Seq<int>, t: Seq<char>)
    requires
        follow(b, t, 52),
    ensures
        b[42] == 1461 * b[41],
        b[43] == b[42] / 4,
        b[44] == b[38] - b[43],
        b[45] == 5 * b[44],
        b[46] == b[45] + 2,
        b[47] == b[46] / 153,
        b[48] == b[47] / 10,
        b[49] == 100 * b[35],
        b[50] == b[49] + b[41] + b[48],
        b[51] == b[50] - 4800,
{
    lemma_thursday_year_formulas(b, t);
    lemma_numerals();
    reveal_with_fuel(number_given, 6);
}

/// The year of the Thursday is that of its Julian day number.
proof fn lemma_thursday_year(b: Seq<int>, t: Seq<char>)
    requires
        follow(b, t, 52),
    ensures
        b[31] == b[20] + 3 - b[22],
        b[51] == julian_year(b[31]),
{
    lemma_fewer(b, t, 52, 42);
    lemma_thursday_steps(b, t);
    lemma_thursday_year_steps(b, t);
}

/// The Thursday of the week, and its year.
proof fn lemma_thursday(b: Seq<int>, t: Seq<char>, y: int, m: int, d: int)
    requires
        follow(b, t, 52),
        begins_with_date(t, y, m, d),
    ensures
        b[31] == thursday(day_number(y, m, d)) + 1721426,
        year_start(b[51]) <= thursday(day_number(y, m, d)) < year_start(b[51] + 1),
{
    lemma_thursday_year(b, t);
    lemma_fewer(b, t, 52, 23);
    lemma_julian(b, t, y, m, d);
    lemma_thursday_number(day_number(y, m, d));
    lemma_not_long_before(y, m, d);
    lemma_julian_year(thursday(day_number(y, m, d)));
}

proof fn lemma_thursday_number(n: int)
    ensures
        n + 1721426 + 3 - (n + 1721426) % 7 == thursday(n) + 1721426,
{
    assert((n + 1721426) % 7 == n % 7);
}

proof fn lemma_not_long_before(y: int, m: int, d: int)
    requires
        is_date(y, m, d),
    ensures
        thursday(day_number(y, m, d)) >= -400,
{
    reveal(year_start);
    lemma_month_start(y, m);
}

proof fn lemma_month_start(y: int, m: int)
    requires
        1 <= m <= 12,
    ensures
        0 <= month_start(y, m) <= 335,
{
    reveal_with_fuel(month_start, 13);
}

/// The formulas of the steps of [`lemma_week_year_steps`].
proof fn lemma_week_year_formulas(b: Seq<int>, t: Seq<char>)
    requires
        follow(b, t, 59),
    ensures
        b.len() >= 59,
        b[52] == number_given(plus(decimal(bound(51)), num("4799")), t, b.take(52)),
        b[53] == number_given(times(num("365"), bound(52)), t, b.take(53)),
        b[54] == number_given(floor(over(bound(52), num("4"))), t, b.take(54)),
        b[55] == number_given(floor(over(bound(52), num("100"))), t, b.take(55)),
        b[56] == number_given(floor(over(bound(52), num("400"))), t, b.take(56)),
        b[57] == number_given(plus(plus(plus(num("310"), bound(53)), bound(54)), bound(56)), t, b.take(57)),
        b[58] == number_given(plus(bound(55), num("32045")), t, b.take(58)),
{
    reveal(follow);
}

/// The steps from the year of the Thursday to its fourth of January.
proof fn lemma_week_year_steps(b: Seq<int>, t: Seq<char>)
    requires
        follow(b, t, 59),
    ensures
        b[52] == b[51] + 4799,
        b[53] == 365 * b[52],
        b[54] == b[52] / 4,
        b[55] == b[52] / 100,
        b[56] == b[52] / 400,
        b[57] == 310 + b[53] + b[54] + b[56],
        b[58] == b[55] + 32045,
{
    lemma_week_year_formulas(b, t);
    lemma_numerals();
    reveal_with_fuel(number_given, 6);
}

/// The formulas of the steps of [`lemma_week_steps`].
proof fn lemma_week_formulas(b: Seq<int>, t: Seq<char>)
    requires
        follow(b, t, 65),
    ensures
        b.len() >= 65,
        b[59] == number_given(minus(bound(57), bound(58)), t, b.take(59)),
        b[60] == number_given(floor(over(bound(59), num("7"))), t, b.take(60)),
        b[61] == number_given(minus(bound(59), times(num("7"), bound(60))), t, b.take(61)),
        b[62] == number_given(minus(bound(59), bound(61)), t, b.take(62)),
        b[63] == number_given(minus(bound(31), bound(62)), t, b.take(63)),
        b[64] == number_given(floor(over(bound(63), num("7"))), t, b.take(64)),
{
    reveal(follow);
}

/// The steps from there to the week.
proof fn lemma_week_steps(b: Seq<int>, t: Seq<char>)
    requires
        follow(b, t, 65),
    ensures
        b[59] == b[57] - b[58],
        b[60] == b[59] / 7,
        b[61] == b[59] - 7 * b[60],
        b[62] == b[59] - b[61],
        b[63] == b[31] - b[62],
        b[64] == b[63] / 7,
{
    lemma_week_formulas(b, t);
    lemma_numerals();
    reveal_with_fuel(number_given, 6);
}

/// The weeks of a year before the week of a Thursday, as they are computed from
/// the Julian day number of the Thursday.
spec fn weeks_before(n: int, y: int) -> int {
    let yy = y + 4799;
    let fourth = 310 + 365 * yy + yy / 4 + yy / 400 - (yy / 100 + 32045);
    let monday = fourth - (fourth - 7 * (fourth / 7));
    (n - monday) / 7
}

proof fn lemma_weeks_before(n: int, y: int)
    requires
        n % 7 == 3,
    ensures
        weeks_before(n + 1721426, y) == (n - year_start(y)) / 7,
{
    lemma_first_day(y);
    lemma_weeks_between(n, year_start(y));
}

proof fn lemma_weeks_between(n: int, first: int)
    requires
        n % 7 == 3,
    ensures
        ({
            let fourth = first + 3 + 1721426;
            (n + 1721426 - (fourth - (fourth - 7 * (fourth / 7)))) / 7 == (n - first) / 7
        }),
{
    let q = (first + 3) / 7;
    let r = (first + 3) % 7;
    let k = n / 7 - q;
    let fourth = first + 3 + 1721426;
    assert(first + 3 == 7 * q + r);
    assert(fourth / 7 == q + 245918);
    assert(n + 1721426 - (fourth - (fourth - 7 * (fourth / 7))) == 7 * k + 3);
    assert((7 * k + 3) / 7 == k);
    assert(n - first == 7 * k + 6 - r);
    assert((7 * k + 6 - r) / 7 == k);
}

proof fn lemma_week_value(b: Seq<int>, t: Seq<char>)
    requires
        follow(b, t, 65),
    ensures
        b[64] == weeks_before(b[31], b[51]),
{
    lemma_fewer(b, t, 65, 59);
    lemma_week_year_steps(b, t);
    lemma_week_steps(b, t);
}

/// The weeks before the week.
proof fn lemma_weeks(b: Seq<int>, t: Seq<char>, y: int, m: int, d: int)
    requires
        follow(b, t, 65),
        begins_with_date(t, y, m, d),
    ensures
        year_start(b[51]) <= thursday(day_number(y, m, d)) < year_start(b[51] + 1),
        b[64] == (thursday(day_number(y, m, d)) - year_start(b[51])) / 7,
{
    lemma_fewer(b, t, 65, 52);
    lemma_thursday(b, t, y, m, d);
    lemma_week_value(b, t);
    lemma_weeks_before(thursday(day_number(y, m, d)), b[51]);
}

/// Each step binds one number.
pub proof fn lemma_bound_len(p: Property, n: int, t: Seq<char>)
    requires
        0 <= n,
    ensures
        bound_numbers(p, n, t).len() == n,
    decreases n,
{
    if n > 0 {
        lemma_bound_len(p, n - 1, t);
    }
}

/// Numbers that are bound are those of their steps.
proof fn lemma_bound(p: Property, n: int, t: Seq<char>)
    requires
        0 <= n,
    ensures
        bound_numbers(p, n, t).len() == n,
        forall|k: int|
            0 <= k < n ==> #[trigger] bound_numbers(p, n, t)[k] == number_given(
                step_at(p, k as usize).formula,
                t,
                bound_numbers(p, n, t).take(k),
            ),
    decreases n,
{
    if n > 0 {
        lemma_bound(p, n - 1, t);
        let before = bound_numbers(p, n - 1, t);
        let now = bound_numbers(p, n, t);
        assert forall|k: int| 0 <= k < n implies #[trigger] now[k] == number_given(
            step_at(p, k as usize).formula,
            t,
            now.take(k),
        ) by {
            assert(now.take(k) =~= before.take(k));
            assert(before.take(n - 1) =~= before);
            if k < n - 1 {
                assert(before[k] == now[k]);
            }
        }
    }
}

/// The day of the week counts the days from Monday on, of which the first day of
/// year 1 is one.
pub proof fn law_week_day(t: Seq<char>, y: int, m: int, d: int)
    requires
        begins_with_date(t, y, m, d),
    ensures
        property_number(Property::WeekDay, t) == day_number(y, m, d) % 7 + 1,
{
    let p = Property::WeekDay;
    let b = bound_numbers(p, 23, t);
    lemma_bound_len(p, 23, t);
    assert(follow(b, t, 23)) by {
        lemma_bound(p, 23, t);
        reveal(follow);
    }
    lemma_julian(b, t, y, m, d);
    assert(property_number(p, t) == b[22] + 1) by {
        lemma_numerals();
        reveal_with_fuel(number_given, 4);
    }
    assert((day_number(y, m, d) + 1721426) % 7 == day_number(y, m, d) % 7);
}

/// The ordinal day counts the days of the year.
pub proof fn law_ordinal_day(t: Seq<char>, y: int, m: int, d: int)
    requires
        begins_with_date(t, y, m, d),
    ensures
        property_number(Property::OrdinalDay, t) == day_number(y, m, d) - year_start(y) + 1,
{
    let p = Property::OrdinalDay;
    let b = bound_numbers(p, 32, t);
    lemma_bound_len(p, 32, t);
    assert(follow(b, t, 31)) by {
        lemma_bound(p, 32, t);
        reveal(follow);
    }
    lemma_year_julian(b, t, y, m, d);
    assert(property_number(p, t) == b[20] - b[30] + 1) by {
        lemma_bound(p, 32, t);
        lemma_numerals();
        reveal_with_fuel(number_given, 4);
        assert(b[31] == b[20] - b[30]);
    }
}

/// The week year is the year that the Thursday of the week is in.
pub proof fn law_week_year(t: Seq<char>, y: int, m: int, d: int)
    requires
        begins_with_date(t, y, m, d),
    ensures
        year_start(property_number(Property::WeekYear, t)) <= thursday(day_number(y, m, d))
            < year_start(property_number(Property::WeekYear, t) + 1),
{
    let p = Property::WeekYear;
    let b = bound_numbers(p, 52, t);
    lemma_bound_len(p, 52, t);
    assert(follow(b, t, 52)) by {
        lemma_bound(p, 52, t);
        reveal(follow);
    }
    lemma_thursday(b, t, y, m, d);
    reveal_with_fuel(number_given, 2);
}

/// The week counts the Thursdays of the week year.
pub proof fn law_week(t: Seq<char>, y: int, m: int, d: int)
    requires
        begins_with_date(t, y, m, d),
    ensures
        property_number(Property::Week, t) == (thursday(day_number(y, m, d)) - year_start(
            property_number(Property::WeekYear, t),
        )) / 7 + 1,
{
    law_week_year(t, y, m, d);
    let p = Property::Week;
    let b = bound_numbers(p, 65, t);
    lemma_bound_len(p, 65, t);
    assert(follow(b, t, 65)) by {
        lemma_bound(p, 65, t);
        reveal(follow);
    }
    lemma_weeks(b, t, y, m, d);
    assert(property_number(p, t) == b[64] + 1) by {
        lemma_numerals();
        reveal_with_fuel(number_given, 4);
    }
    lemma_one_year(b[51], property_number(Property::WeekYear, t), thursday(day_number(y, m, d)));
}

/// A day is in one year only.
proof fn lemma_one_year(x: int, y: int, n: int)
    requires
        year_start(x) <= n < year_start(x + 1),
        year_start(y) <= n < year_start(y + 1),
    ensures
        x == y,
{
    reveal(year_start);
}

/// The first month of the quarter of a month.
pub open spec fn quarter_month(m: int) -> int {
    3 * ((m - 1) / 3) + 1
}

/// The formulas of the steps of [`lemma_quarter_steps`].
proof fn lemma_quarter_formulas(b: Seq<int>, t: Seq<char>)
    requires
        b.len() == 84,
        forall|k: int|
            65 <= k < 84 ==> #[trigger] b[k] == number_given(
                quarter_step((k - 65) as usize).formula,
                t,
                b.take(k),
            ),
    ensures
        b.len() >= 84,
        b[65] == number_given(minus(bound(4), num("1")), t, b.take(65)),
        b[66] == number_given(floor(over(bound(65), num("3"))), t, b.take(66)),
        b[67] == number_given(plus(times(num("3"), bound(66)), num("1")), t, b.take(67)),
        b[68] == number_given(minus(num("14"), bound(67)), t, b.take(68)),
        b[69] == number_given(floor(over(bound(68), num("12"))), t, b.take(69)),
        b[70] == number_given(minus(plus(bound(3), num("4800")), bound(69)), t, b.take(70)),
        b[71] == number_given(times(num("12"), bound(69)), t, b.take(71)),
        b[72] == number_given(minus(plus(bound(67), bound(71)), num("3")), t, b.take(72)),
        b[73] == number_given(times(num("153"), bound(72)), t, b.take(73)),
        b[74] == number_given(plus(bound(73), num("2")), t, b.take(74)),
        b[75] == number_given(floor(over(bound(74), num("5"))), t, b.take(75)),
        b[76] == number_given(times(num("365"), bound(70)), t, b.take(76)),
        b[77] == number_given(floor(over(bound(70), num("4"))), t, b.take(77)),
        b[78] == number_given(floor(over(bound(70), num("100"))), t, b.take(78)),
        b[79] == number_given(floor(over(bound(70), num("400"))), t, b.take(79)),
        b[80] == number_given(plus(plus(plus(plus(num("1"), bound(75)), bound(76)), bound(77)), bound(79)), t, b.take(80)),
        b[81] == number_given(plus(bound(78), num("32045")), t, b.take(81)),
        b[82] == number_given(minus(bound(80), bound(81)), t, b.take(82)),
        b[83] == number_given(minus(bound(20), bound(82)), t, b.take(83)),
{
}

/// The steps to the first day of the quarter.
proof fn lemma_quarter_steps(b: Seq<int>, t: Seq<char>)
    requires
        b.len() == 84,
        forall|k: int|
            65 <= k < 84 ==> #[trigger] b[k] == number_given(
                quarter_step((k - 65) as usize).formula,
                t,
                b.take(k),
            ),
    ensures
        b[65] == b[4] - 1,
        b[66] == b[65] / 3,
        b[67] == 3 * b[66] + 1,
        b[68] == 14 - b[67],
        b[69] == b[68] / 12,
        b[70] == b[3] + 4800 - b[69],
        b[71] == 12 * b[69],
        b[72] == b[67] + b[71] - 3,
        b[73] == 153 * b[72],
        b[74] == b[73] + 2,
        b[75] == b[74] / 5,
        b[76] == 365 * b[70],
        b[77] == b[70] / 4,
        b[78] == b[70] / 100,
        b[79] == b[70] / 400,
        b[80] == 1 + b[75] + b[76] + b[77] + b[79],
        b[81] == b[78] + 32045,
        b[82] == b[80] - b[81],
        b[83] == b[20] - b[82],
{
    lemma_quarter_formulas(b, t);
    lemma_numerals();
    reveal_with_fuel(number_given, 6);
}

/// The day of the quarter counts the days from the first of its first month on.
pub proof fn law_day_of_quarter(t: Seq<char>, y: int, m: int, d: int)
    requires
        begins_with_date(t, y, m, d),
    ensures
        property_number(Property::DayOfQuarter, t) == day_number(y, m, d) - day_number(
            y,
            quarter_month(m),
            1,
        ) + 1,
{
    let p = Property::DayOfQuarter;
    let b = bound_numbers(p, 84, t);
    lemma_bound_len(p, 84, t);
    assert(follow(b, t, 65)) by {
        lemma_bound(p, 84, t);
        reveal(follow);
    }
    lemma_fewer(b, t, 65, 23);
    lemma_julian(b, t, y, m, d);
    assert(b[83] == b[20] - julian(b[3], quarter_month(b[4]), 1)) by {
        lemma_bound(p, 84, t);
        lemma_quarter_steps(b, t);
    }
    lemma_julian_day(y, quarter_month(m), 1);
    assert(property_number(p, t) == b[83] + 1) by {
        lemma_numerals();
        reveal_with_fuel(number_given, 4);
    }
}

/// The quarter is that of the month: each has three.
pub proof fn law_quarter(t: Seq<char>, y: int, m: int, d: int)
    requires
        begins_with_date(t, y, m, d),
    ensures
        property_number(Property::Month, t) == m,
        property_number(Property::Quarter, t) == (m - 1) / 3 + 1,
{
    lemma_unsigned(t.subrange(5, 7));
    lemma_numerals();
    reveal_with_fuel(number_given, 6);
    reveal_with_fuel(text_given, 2);
}

// ── Seconds ──────────────────────────────────────────────────────────────────

proof fn lemma_second_numerals()
    ensures
        reading("60"@) == 60,
        reading("1000"@) == 1000,
        reading("3600"@) == 3600,
        reading("86400"@) == 86400,
        reading("2440588"@) == 2440588,
{
    reveal_strlit("60");
    reveal_strlit("1000");
    reveal_strlit("3600");
    reveal_strlit("86400");
    reveal_strlit("2440588");
    reveal_with_fuel(number_in, 8);
}

/// The offset is computed from the text alone.
proof fn lemma_offset(t: Seq<char>, bound: Seq<int>)
    ensures
        number_given(offset_seconds(), t, bound) == property_number(Property::OffsetSeconds, t),
{
    reveal_with_fuel(number_given, 10);
}

/// Whether numbers are those of the steps of the seconds.
#[verifier::opaque]
spec fn follow_seconds(b: Seq<int>, t: Seq<char>, n: int) -> bool {
    &&& n <= b.len()
    &&& forall|k: int|
        65 <= k < n ==> #[trigger] b[k] == number_given(
            epoch_step((k - 65) as usize).formula,
            t,
            b.take(k),
        )
}

proof fn lemma_second_steps(b: Seq<int>, t: Seq<char>)
    requires
        follow_seconds(b, t, 73),
    ensures
        b[72] == (b[20] - 2440588) * 86400 + (property_number(Property::Hour, t) * 3600
            + property_number(Property::Minute, t) * 60 + property_number(Property::Second, t))
            - property_number(Property::OffsetSeconds, t),
{
    reveal(follow_seconds);
    lemma_second_numerals();
    lemma_offset(t, b.take(71));
    reveal_with_fuel(number_given, 6);
    assert(b[65] == b[20] - 2440588);
    assert(b[66] == b[65] * 86400);
    assert(b[67] == property_number(Property::Hour, t));
    assert(b[68] == property_number(Property::Minute, t));
    assert(b[69] == property_number(Property::Second, t));
    assert(b[70] == b[67] * 3600 + b[68] * 60 + b[69]);
    assert(b[71] == property_number(Property::OffsetSeconds, t));
    assert(b[72] == b[66] + b[70] - b[71]);
}

/// The seconds since the start of 1970 are those of the days, and of the time of
/// the day without its offset.
pub proof fn law_epoch_seconds(t: Seq<char>, y: int, m: int, d: int)
    requires
        begins_with_date(t, y, m, d),
    ensures
        property_number(Property::EpochSeconds, t) == (day_number(y, m, d) - day_number(1970, 1, 1))
            * 86400 + property_number(Property::Hour, t) * 3600 + property_number(
            Property::Minute,
            t,
        ) * 60 + property_number(Property::Second, t) - property_number(Property::OffsetSeconds, t),
{
    let p = Property::EpochSeconds;
    let b = bound_numbers(p, 73, t);
    lemma_bound_len(p, 73, t);
    assert(follow(b, t, 23)) by {
        lemma_bound(p, 73, t);
        reveal(follow);
    }
    assert(follow_seconds(b, t, 73)) by {
        lemma_bound(p, 73, t);
        reveal(follow_seconds);
    }
    lemma_julian(b, t, y, m, d);
    lemma_second_steps(b, t);
    assert(property_number(p, t) == b[72]) by {
        reveal_with_fuel(number_given, 3);
    }
    reveal_with_fuel(month_start, 2);
    assert(day_number(1970, 1, 1) == 719162) by {
        reveal(year_start);
    }
}

/// The milliseconds since the start of 1970 are a thousand for each second, and
/// those of the second.
pub proof fn law_epoch_millis(t: Seq<char>, y: int, m: int, d: int)
    requires
        begins_with_date(t, y, m, d),
    ensures
        property_number(Property::EpochMillis, t) == property_number(Property::EpochSeconds, t)
            * 1000 + property_number(Property::Millisecond, t),
{
    law_epoch_seconds(t, y, m, d);
    let p = Property::EpochMillis;
    let b = bound_numbers(p, 74, t);
    lemma_bound_len(p, 74, t);
    assert(follow(b, t, 23)) by {
        lemma_bound(p, 74, t);
        reveal(follow);
    }
    assert(follow_seconds(b, t, 74)) by {
        lemma_bound(p, 74, t);
        reveal(follow_seconds);
    }
    assert(follow_seconds(b, t, 73)) by {
        reveal(follow_seconds);
    }
    lemma_julian(b, t, y, m, d);
    lemma_second_steps(b, t);
    assert(b[73] == property_number(Property::Millisecond, t)) by {
        reveal(follow_seconds);
        reveal_with_fuel(number_given, 3);
    }
    assert(property_number(p, t) == b[72] * 1000 + b[73]) by {
        lemma_second_numerals();
        reveal_with_fuel(number_given, 4);
    }
    reveal_with_fuel(month_start, 2);
    assert(day_number(1970, 1, 1) == 719162) by {
        reveal(year_start);
    }
}

} // verus!
