//! The laws of dates and times that are written into a query: their properties
//! are the numbers that they were made of.
use vstd::prelude::*;

#[allow(unused_imports)]
use crate::ast::model as m;
#[allow(unused_imports)]
use crate::parser::lexical::number_in;
#[allow(unused_imports)]
use crate::text::{digits, has_char, occurs_at};
#[allow(unused_imports)]
use crate::text::zeros;
#[allow(unused_imports)]
use crate::translator::ground::{date_text, int_under, padded, seconds_text, time_text};
#[allow(unused_imports)]
use crate::translator::laws::calendar::{
    begins_with_date, first_at, holds_given, is_date, lemma_unsigned, number_given, piece,
    property_number, reading, text_given,
};
#[allow(unused_imports)]
use crate::translator::temporal::Property;

verus! {

// ── Numbers ──────────────────────────────────────────────────────────────────

pub proof fn lemma_digits_read(n: nat)
    ensures
        number_in(digits(n), 10) == Some(n as int),
        digits(n).len() > 0,
        forall|i: int| 0 <= i < digits(n).len() ==> '0' <= #[trigger] digits(n)[i] <= '9',
    decreases n,
{
    reveal_with_fuel(number_in, 2);
    let d = digits(n);
    if n < 10 {
        assert(d.drop_last() =~= seq![]);
        assert(d.last() as int == 48 + n);
    } else {
        lemma_digits_read(n / 10);
        assert(d.drop_last() =~= digits(n / 10));
        assert(d.last() as int == 48 + n % 10);
    }
}

proof fn lemma_zeros_read(k: int, s: Seq<char>)
    requires
        number_in(s, 10) is Some,
    ensures
        number_in(zeros(k) + s, 10) == number_in(s, 10),
    decreases k, s.len(),
{
    if k <= 0 {
        assert(zeros(k) + s =~= s);
    } else if s.len() == 0 {
        lemma_zeros_read(k - 1, s);
        assert((zeros(k) + s).drop_last() =~= zeros(k - 1) + s);
        assert((zeros(k) + s).last() == '0');
    } else {
        lemma_zeros_read(k, s.drop_last());
        assert((zeros(k) + s).drop_last() =~= zeros(k) + s.drop_last());
        assert((zeros(k) + s).last() == s.last());
    }
}

/// A number that is padded fills its place, and reads as itself.
proof fn lemma_padded(n: int, width: int)
    requires
        (width == 2 && 0 <= n <= 99) || (width == 4 && 0 <= n <= 9999),
    ensures
        padded(n, width).len() == width,
        number_in(padded(n, width), 10) == Some(n),
        forall|i: int| 0 <= i < width ==> '0' <= #[trigger] padded(n, width)[i] <= '9',
{
    lemma_digits_read(n as nat);
    lemma_zeros_read(width - digits(n as nat).len(), digits(n as nat));
    reveal_with_fuel(digits, 4);
}

// ── Dates ────────────────────────────────────────────────────────────────────

/// The text of a date begins with the date, whatever follows it.
pub proof fn law_date_text_begins_with_date(
    p: Seq<(Seq<char>, m::Expression)>,
    rest: Seq<char>,
    y: int,
    mo: int,
    d: int,
)
    requires
        int_under(p, "year"@, 0) == Some(y),
        int_under(p, "month"@, 0) == Some(mo),
        int_under(p, "day"@, 0) == Some(d),
        is_date(y, mo, d),
    ensures
        date_text(p) is Some,
        begins_with_date(date_text(p).unwrap() + rest, y, mo, d),
{
    lemma_date_text(p, rest, y, mo, d);
}

proof fn lemma_date_text(
    p: Seq<(Seq<char>, m::Expression)>,
    rest: Seq<char>,
    y: int,
    mo: int,
    d: int,
)
    requires
        int_under(p, "year"@, 0) == Some(y),
        int_under(p, "month"@, 0) == Some(mo),
        int_under(p, "day"@, 0) == Some(d),
        is_date(y, mo, d),
    ensures
        date_text(p) is Some,
        date_text(p).unwrap().len() == 10,
        !has_char(date_text(p).unwrap(), 'T'),
        begins_with_date(date_text(p).unwrap() + rest, y, mo, d),
{
    reveal_strlit("-");
    lemma_padded(y, 4);
    lemma_padded(mo, 2);
    lemma_padded(d, 2);
    let t = date_text(p).unwrap();
    let s = t + rest;
    assert(t == padded(y, 4) + "-"@ + padded(mo, 2) + "-"@ + padded(d, 2));
    assert(s.subrange(0, 4) =~= padded(y, 4));
    assert(s.subrange(5, 7) =~= padded(mo, 2));
    assert(s.subrange(8, 10) =~= padded(d, 2));
    assert forall|i: int| 0 <= i < t.len() implies #[trigger] t[i] != 'T' by {
        if i < 4 {
            assert(t[i] == padded(y, 4)[i]);
        } else if i == 4 || i == 7 {
            assert(t[i] == '-');
        } else if i < 7 {
            assert(t[i] == padded(mo, 2)[i - 5]);
        } else {
            assert(t[i] == padded(d, 2)[i - 8]);
        }
    }
}

/// The year, the month and the day of a date that is written are those that it
/// was made of.
pub proof fn law_dates_read_back(
    p: Seq<(Seq<char>, m::Expression)>,
    rest: Seq<char>,
    y: int,
    mo: int,
    d: int,
)
    requires
        int_under(p, "year"@, 0) == Some(y),
        int_under(p, "month"@, 0) == Some(mo),
        int_under(p, "day"@, 0) == Some(d),
        is_date(y, mo, d),
    ensures
        property_number(Property::Year, date_text(p).unwrap() + rest) == y,
        property_number(Property::Month, date_text(p).unwrap() + rest) == mo,
        property_number(Property::Day, date_text(p).unwrap() + rest) == d,
{
    lemma_date_text(p, rest, y, mo, d);
    let t = date_text(p).unwrap() + rest;
    lemma_unsigned(t.subrange(0, 4));
    lemma_unsigned(t.subrange(5, 7));
    lemma_unsigned(t.subrange(8, 10));
    reveal_with_fuel(number_given, 3);
    reveal_with_fuel(text_given, 3);
}

// ── Times ────────────────────────────────────────────────────────────────────

/// The first place of a character is where it stands and has not stood before.
proof fn lemma_first_at(s: Seq<char>, p: Seq<char>, i: int, k: int)
    requires
        p.len() == 1,
        0 <= i <= k < s.len(),
        s[k] == p[0],
        forall|j: int| i <= j < k ==> #[trigger] s[j] != p[0],
    ensures
        first_at(s, p, i) == Some(k),
    decreases k - i,
{
    assert(s.subrange(i, i + 1)[0] == s[i]);
    if i < k {
        assert(!occurs_at(s, p, i)) by {
            assert(s[i] != p[0]);
        }
        lemma_first_at(s, p, i + 1, k);
    } else {
        assert(s.subrange(k, k + 1) =~= p);
        assert(occurs_at(s, p, k));
    }
}

proof fn lemma_nowhere(s: Seq<char>, p: Seq<char>, i: int)
    requires
        p.len() == 1,
        0 <= i <= s.len(),
        forall|j: int| i <= j < s.len() ==> #[trigger] s[j] != p[0],
    ensures
        first_at(s, p, i) is None,
    decreases s.len() - i,
{
    if i < s.len() {
        assert(s.subrange(i, i + 1)[0] == s[i]);
        assert(!occurs_at(s, p, i)) by {
            assert(s[i] != p[0]);
        }
        lemma_nowhere(s, p, i + 1);
    }
}

/// The seconds that are written; none where there are none.
pub open spec fn written_seconds(p: Seq<(Seq<char>, m::Expression)>) -> int {
    match int_under(p, "second"@, 0) {
        Some(s) => s,
        None => 0,
    }
}

/// Whether the entries make a time of the day: hours, minutes and seconds of at
/// most two digits.
pub open spec fn makes_time(p: Seq<(Seq<char>, m::Expression)>, h: int, mi: int) -> bool {
    &&& int_under(p, "hour"@, 0) == Some(h)
    &&& int_under(p, "minute"@, 0) == Some(mi)
    &&& 0 <= h <= 99
    &&& 0 <= mi <= 99
    &&& 0 <= written_seconds(p) <= 99
}

/// How the text of a time begins.
proof fn lemma_time_text(
    p: Seq<(Seq<char>, m::Expression)>,
    rest: Seq<char>,
    h: int,
    mi: int,
)
    requires
        makes_time(p, h, mi),
    ensures
        time_text(p) is Some,
        ({
            let s = time_text(p).unwrap() + rest;
            &&& s.len() >= 8
            &&& reading(piece(s, 1, 2)) == h
            &&& reading(piece(s, 4, 2)) == mi
            &&& reading(piece(s, 7, 2)) == written_seconds(p)
        }),
{
    reveal_strlit(":");
    reveal_strlit(".");
    reveal_strlit("00");
    lemma_padded(h, 2);
    lemma_padded(mi, 2);
    let sec = written_seconds(p);
    lemma_padded(sec, 2);
    let t = time_text(p).unwrap();
    let s = t + rest;
    let x = seconds_text(p);
    assert(t == padded(h, 2) + ":"@ + padded(mi, 2) + ":"@ + x);
    assert(s.subrange(0, 2) =~= padded(h, 2));
    assert(s.subrange(3, 5) =~= padded(mi, 2));
    assert(x.len() >= 2 && number_in(x.subrange(0, 2), 10) == Some(sec)) by {
        if int_under(p, "second"@, 0) is None {
            assert(x.subrange(0, 2) =~= "00"@);
            reveal_with_fuel(number_in, 3);
        } else {
            assert(x.subrange(0, 2) =~= padded(sec, 2));
        }
    }
    assert(s.subrange(6, 8) =~= x.subrange(0, 2));
    lemma_unsigned(piece(s, 1, 2));
    lemma_unsigned(piece(s, 4, 2));
    lemma_unsigned(piece(s, 7, 2));
}

/// The parts of the time are read behind the `T`.
proof fn lemma_time_part(t: Seq<char>, time: Seq<char>)
    requires
        has_char(t, 'T') ==> exists|k: int|
            0 <= k < t.len() && t[k] == 'T' && !has_char(t.take(k), 'T') && #[trigger] t.skip(k + 1)
                == time,
        !has_char(t, 'T') ==> t == time,
    ensures
        property_number(Property::Hour, t) == reading(piece(time, 1, 2)),
        property_number(Property::Minute, t) == reading(piece(time, 4, 2)),
        property_number(Property::Second, t) == reading(piece(time, 7, 2)),
{
    reveal_strlit("T");
    let p = "T"@;
    if has_char(t, 'T') {
        let k = choose|k: int|
            0 <= k < t.len() && t[k] == 'T' && !has_char(t.take(k), 'T') && #[trigger] t.skip(k + 1)
                == time;
        assert forall|j: int| 0 <= j < k implies #[trigger] t[j] != p[0] by {
            assert(t.take(k)[j] == t[j]);
        }
        lemma_first_at(t, p, 0, k);
    } else {
        lemma_nowhere(t, p, 0);
    }
    reveal_with_fuel(number_given, 3);
    reveal_with_fuel(text_given, 4);
    reveal_with_fuel(holds_given, 2);
}

/// The hours, the minutes and the seconds of a time that is written are those
/// that it was made of, with any zone behind it that has no `T` in its name.
pub proof fn law_times_read_back(
    p: Seq<(Seq<char>, m::Expression)>,
    zone: Seq<char>,
    h: int,
    mi: int,
)
    requires
        makes_time(p, h, mi),
        !has_char(time_text(p).unwrap() + zone, 'T'),
    ensures
        property_number(Property::Hour, time_text(p).unwrap() + zone) == h,
        property_number(Property::Minute, time_text(p).unwrap() + zone) == mi,
        property_number(Property::Second, time_text(p).unwrap() + zone) == written_seconds(p),
{
    let t = time_text(p).unwrap() + zone;
    lemma_time_text(p, zone, h, mi);
    lemma_time_part(t, t);
}

/// As [`law_times_read_back`], behind a date, and with any zone.
pub proof fn law_date_times_read_back(
    p: Seq<(Seq<char>, m::Expression)>,
    zone: Seq<char>,
    y: int,
    mo: int,
    d: int,
    h: int,
    mi: int,
)
    requires
        int_under(p, "year"@, 0) == Some(y),
        int_under(p, "month"@, 0) == Some(mo),
        int_under(p, "day"@, 0) == Some(d),
        is_date(y, mo, d),
        makes_time(p, h, mi),
    ensures
        ({
            let t = date_text(p).unwrap() + "T"@ + time_text(p).unwrap() + zone;
            &&& property_number(Property::Year, t) == y
            &&& property_number(Property::Month, t) == mo
            &&& property_number(Property::Day, t) == d
            &&& property_number(Property::Hour, t) == h
            &&& property_number(Property::Minute, t) == mi
            &&& property_number(Property::Second, t) == written_seconds(p)
        }),
{
    reveal_strlit("T");
    let date = date_text(p).unwrap();
    let time = time_text(p).unwrap() + zone;
    let t = date + "T"@ + time_text(p).unwrap() + zone;
    lemma_date_text(p, "T"@ + time, y, mo, d);
    law_dates_read_back(p, "T"@ + time, y, mo, d);
    assert(date + ("T"@ + time) =~= t);
    lemma_time_text(p, zone, h, mi);
    let k: int = 10;
    assert(t[k] == 'T');
    assert(t.take(k) =~= date);
    assert(t.skip(k + 1) =~= time);
    lemma_time_part(t, time);
}

} // verus!
