//! The properties of dates, times and durations, computed from their text.
use vstd::prelude::*;

use crate::sparql::algebra as sparql;
#[allow(unused_imports)]
use crate::sparql::model as g;
use crate::text::{push_text, same_text};
#[allow(unused_imports)]
use crate::text::texts;
use crate::translator::formula::{
    after, before, bound, branch, ceil, count, cut, decimal, floor, glue, holds, input, minus,
    negative, num, over, plus, same, text, times, whole, write_formula, Formula,
};
#[allow(unused_imports)]
use crate::translator::formula::expand;
use crate::translator::scope::Output;
#[allow(unused_imports)]
use crate::translator::scope::{extends_of, fresh_name};

verus! {

/// The time: what follows `T`, or all of the text.
#[verifier::allow_in_spec]
pub fn time_part() -> Formula
    returns
        branch(holds(input(), "T"), after(input(), "T"), input()),
{
    branch(holds(input(), "T"), after(input(), "T"), input())
}

/// The digits after the point of the seconds, up to a `+`.
#[verifier::allow_in_spec]
pub fn fraction_to_plus() -> Formula
    returns
        branch(holds(after(time_part(), "."), "+"), before(after(time_part(), "."), "+"), after(time_part(), ".")),
{
    branch(holds(after(time_part(), "."), "+"), before(after(time_part(), "."), "+"), after(time_part(), "."))
}

/// Up to a `Z` too.
#[verifier::allow_in_spec]
pub fn fraction_to_z() -> Formula
    returns
        branch(holds(fraction_to_plus(), "Z"), before(fraction_to_plus(), "Z"), fraction_to_plus()),
{
    branch(holds(fraction_to_plus(), "Z"), before(fraction_to_plus(), "Z"), fraction_to_plus())
}

/// The digits after the point of the seconds, without the offset.
#[verifier::allow_in_spec]
pub fn fraction() -> Formula
    returns
        branch(holds(fraction_to_z(), "-"), before(fraction_to_z(), "-"), fraction_to_z()),
{
    branch(holds(fraction_to_z(), "-"), before(fraction_to_z(), "-"), fraction_to_z())
}

/// Nine digits after the point of the seconds.
#[verifier::allow_in_spec]
pub fn nine_digits() -> Formula
    returns
        cut(glue(fraction(), text("000000000")), 1, 9),
{
    cut(glue(fraction(), text("000000000")), 1, 9)
}

/// An offset with a `+`, and what follows it.
#[verifier::allow_in_spec]
pub fn positive_offset() -> Formula
    returns
        glue(text("+"), after(input(), "+")),
{
    glue(text("+"), after(input(), "+"))
}

/// An offset with a `+`, without the name of the zone.
#[verifier::allow_in_spec]
pub fn clean_offset() -> Formula
    returns
        branch(holds(positive_offset(), "["), before(positive_offset(), "["), positive_offset()),
{
    branch(holds(positive_offset(), "["), before(positive_offset(), "["), positive_offset())
}

/// The offset: `Z`, or hours and minutes with a `+`, or nothing.
#[verifier::allow_in_spec]
pub fn offset_text() -> Formula
    returns
        branch(holds(input(), "Z"), text("Z"), branch(holds(input(), "+"), clean_offset(), text(""))),
{
    branch(holds(input(), "Z"), text("Z"), branch(holds(input(), "+"), clean_offset(), text("")))
}

/// The name of the zone, with what follows it.
#[verifier::allow_in_spec]
pub fn zone_name() -> Formula
    returns
        branch(holds(input(), "["), after(input(), "["), text("")),
{
    branch(holds(input(), "["), after(input(), "["), text(""))
}

/// The minutes of the offset, without its sign.
#[verifier::allow_in_spec]
pub fn offset_size() -> Formula
    returns
        plus(times(decimal(whole(cut(offset_text(), 2, 2))), num("60")), decimal(whole(cut(offset_text(), 5, 2)))),
{
    plus(times(decimal(whole(cut(offset_text(), 2, 2))), num("60")), decimal(whole(cut(offset_text(), 5, 2))))
}

/// The minutes of the offset.
#[verifier::allow_in_spec]
pub fn offset_minutes() -> Formula
    returns
        branch(holds(input(), "Z"), num("0"), branch(same(cut(offset_text(), 1, 1), text("-")), negative(offset_size()), offset_size())),
{
    branch(holds(input(), "Z"), num("0"), branch(same(cut(offset_text(), 1, 1), text("-")), negative(offset_size()), offset_size()))
}

/// The seconds of the offset.
#[verifier::allow_in_spec]
pub fn offset_seconds() -> Formula
    returns
        times(offset_minutes(), num("60")),
{
    times(offset_minutes(), num("60"))
}

/// The month of a date.
#[verifier::allow_in_spec]
pub fn month() -> Formula
    returns
        whole(cut(input(), 6, 2)),
{
    whole(cut(input(), 6, 2))
}

/// A duration without the `P`.
#[verifier::allow_in_spec]
pub fn period() -> Formula
    returns
        after(input(), "P"),
{
    after(input(), "P")
}

/// The part of a duration before `T`.
#[verifier::allow_in_spec]
pub fn period_date() -> Formula
    returns
        branch(holds(period(), "T"), before(period(), "T"), period()),
{
    branch(holds(period(), "T"), before(period(), "T"), period())
}

/// The part of a duration after `T`.
#[verifier::allow_in_spec]
pub fn period_time() -> Formula
    returns
        branch(holds(input(), "T"), after(input(), "T"), text("")),
{
    branch(holds(input(), "T"), after(input(), "T"), text(""))
}

/// The years of a duration.
#[verifier::allow_in_spec]
pub fn period_years() -> Formula
    returns
        whole(branch(holds(period(), "Y"), before(period(), "Y"), text("0"))),
{
    whole(branch(holds(period(), "Y"), before(period(), "Y"), text("0")))
}

/// The date part after the years.
#[verifier::allow_in_spec]
pub fn after_years() -> Formula
    returns
        branch(holds(period_date(), "Y"), after(period_date(), "Y"), period_date()),
{
    branch(holds(period_date(), "Y"), after(period_date(), "Y"), period_date())
}

/// The date part after the months.
#[verifier::allow_in_spec]
pub fn after_months() -> Formula
    returns
        branch(holds(after_years(), "M"), after(after_years(), "M"), after_years()),
{
    branch(holds(after_years(), "M"), after(after_years(), "M"), after_years())
}

/// The months of a duration.
#[verifier::allow_in_spec]
pub fn period_months() -> Formula
    returns
        whole(branch(holds(after_years(), "M"), before(after_years(), "M"), text("0"))),
{
    whole(branch(holds(after_years(), "M"), before(after_years(), "M"), text("0")))
}

/// The days of a duration.
#[verifier::allow_in_spec]
pub fn period_days() -> Formula
    returns
        whole(branch(holds(after_months(), "D"), before(after_months(), "D"), text("0"))),
{
    whole(branch(holds(after_months(), "D"), before(after_months(), "D"), text("0")))
}

/// The hours of a duration.
#[verifier::allow_in_spec]
pub fn period_hours() -> Formula
    returns
        whole(branch(holds(period_time(), "H"), before(period_time(), "H"), text("0"))),
{
    whole(branch(holds(period_time(), "H"), before(period_time(), "H"), text("0")))
}

/// The time part after the hours.
#[verifier::allow_in_spec]
pub fn after_hours() -> Formula
    returns
        branch(holds(period_time(), "H"), after(period_time(), "H"), period_time()),
{
    branch(holds(period_time(), "H"), after(period_time(), "H"), period_time())
}

/// The minutes of a duration.
#[verifier::allow_in_spec]
pub fn period_minutes() -> Formula
    returns
        whole(branch(holds(after_hours(), "M"), before(after_hours(), "M"), text("0"))),
{
    whole(branch(holds(after_hours(), "M"), before(after_hours(), "M"), text("0")))
}

/// The time part after the minutes.
#[verifier::allow_in_spec]
pub fn after_minutes() -> Formula
    returns
        branch(holds(after_hours(), "M"), after(after_hours(), "M"), after_hours()),
{
    branch(holds(after_hours(), "M"), after(after_hours(), "M"), after_hours())
}

/// The seconds of a duration, with their fraction.
#[verifier::allow_in_spec]
pub fn second_digits() -> Formula
    returns
        branch(holds(after_minutes(), "S"), before(after_minutes(), "S"), text("0")),
{
    branch(holds(after_minutes(), "S"), before(after_minutes(), "S"), text("0"))
}

/// The seconds of a duration.
#[verifier::allow_in_spec]
pub fn period_seconds() -> Formula
    returns
        whole(branch(holds(second_digits(), "."), before(second_digits(), "."), second_digits())),
{
    whole(branch(holds(second_digits(), "."), before(second_digits(), "."), second_digits()))
}

/// The fraction of the seconds of a duration.
#[verifier::allow_in_spec]
pub fn period_fraction() -> Formula
    returns
        branch(holds(second_digits(), "."), after(second_digits(), "."), text("0")),
{
    branch(holds(second_digits(), "."), after(second_digits(), "."), text("0"))
}

/// Nine digits of that fraction.
#[verifier::allow_in_spec]
pub fn period_nine_digits() -> Formula
    returns
        cut(glue(period_fraction(), text("000000000")), 1, 9),
{
    cut(glue(period_fraction(), text("000000000")), 1, 9)
}

/// The time part of a duration in seconds.
#[verifier::allow_in_spec]
pub fn period_time_seconds() -> Formula
    returns
        plus(plus(times(period_hours(), count(3600)), times(period_minutes(), count(60))), period_seconds()),
{
    plus(plus(times(period_hours(), count(3600)), times(period_minutes(), count(60))), period_seconds())
}

/// A property of a temporal value.
#[derive(Clone, Copy, Debug, PartialEq, Eq, Structural)]
pub enum Property {
    Year,
    Month,
    Day,
    Quarter,
    Hour,
    Minute,
    Second,
    Millisecond,
    Microsecond,
    Nanosecond,
    Timezone,
    Offset,
    OffsetMinutes,
    OffsetSeconds,
    Years,
    Months,
    Quarters,
    Weeks,
    Days,
    Hours,
    Minutes,
    Seconds,
    Milliseconds,
    Microseconds,
    Nanoseconds,
    QuartersOfYear,
    MonthsOfQuarter,
    MonthsOfYear,
    DaysOfWeek,
    MinutesOfHour,
    SecondsOfMinute,
    MillisecondsOfSecond,
    MicrosecondsOfSecond,
    NanosecondsOfSecond,
    WeekDay,
    OrdinalDay,
    WeekYear,
    Week,
    DayOfQuarter,
    EpochSeconds,
    EpochMillis,
    Unknown,
}

/// The property with the name.
pub open spec fn property_named(name: Seq<char>) -> Property {
    if name == "year"@ {
        Property::Year
    } else if name == "month"@ {
        Property::Month
    } else if name == "day"@ {
        Property::Day
    } else if name == "quarter"@ {
        Property::Quarter
    } else if name == "hour"@ {
        Property::Hour
    } else if name == "minute"@ {
        Property::Minute
    } else if name == "second"@ {
        Property::Second
    } else if name == "millisecond"@ {
        Property::Millisecond
    } else if name == "microsecond"@ {
        Property::Microsecond
    } else if name == "nanosecond"@ {
        Property::Nanosecond
    } else if name == "timezone"@ {
        Property::Timezone
    } else if name == "offset"@ {
        Property::Offset
    } else if name == "offsetMinutes"@ {
        Property::OffsetMinutes
    } else if name == "offsetSeconds"@ {
        Property::OffsetSeconds
    } else if name == "years"@ {
        Property::Years
    } else if name == "months"@ {
        Property::Months
    } else if name == "quarters"@ {
        Property::Quarters
    } else if name == "weeks"@ {
        Property::Weeks
    } else if name == "days"@ {
        Property::Days
    } else if name == "hours"@ {
        Property::Hours
    } else if name == "minutes"@ {
        Property::Minutes
    } else if name == "seconds"@ {
        Property::Seconds
    } else if name == "milliseconds"@ {
        Property::Milliseconds
    } else if name == "microseconds"@ {
        Property::Microseconds
    } else if name == "nanoseconds"@ {
        Property::Nanoseconds
    } else if name == "quartersOfYear"@ {
        Property::QuartersOfYear
    } else if name == "monthsOfQuarter"@ {
        Property::MonthsOfQuarter
    } else if name == "monthsOfYear"@ {
        Property::MonthsOfYear
    } else if name == "daysOfWeek"@ {
        Property::DaysOfWeek
    } else if name == "minutesOfHour"@ {
        Property::MinutesOfHour
    } else if name == "secondsOfMinute"@ {
        Property::SecondsOfMinute
    } else if name == "millisecondsOfSecond"@ {
        Property::MillisecondsOfSecond
    } else if name == "microsecondsOfSecond"@ {
        Property::MicrosecondsOfSecond
    } else if name == "nanosecondsOfSecond"@ {
        Property::NanosecondsOfSecond
    } else if name == "weekDay"@ {
        Property::WeekDay
    } else if name == "ordinalDay"@ {
        Property::OrdinalDay
    } else if name == "weekYear"@ {
        Property::WeekYear
    } else if name == "week"@ {
        Property::Week
    } else if name == "dayOfQuarter"@ {
        Property::DayOfQuarter
    } else if name == "epochSeconds"@ {
        Property::EpochSeconds
    } else if name == "epochMillis"@ {
        Property::EpochMillis
    } else {
        Property::Unknown
    }
}

pub fn find_property(name: &str) -> (r: Property)
    ensures
        r == property_named(name@),
{
    if same_text(name, "year") {
        return Property::Year;
    }
    if same_text(name, "month") {
        return Property::Month;
    }
    if same_text(name, "day") {
        return Property::Day;
    }
    if same_text(name, "quarter") {
        return Property::Quarter;
    }
    if same_text(name, "hour") {
        return Property::Hour;
    }
    if same_text(name, "minute") {
        return Property::Minute;
    }
    if same_text(name, "second") {
        return Property::Second;
    }
    if same_text(name, "millisecond") {
        return Property::Millisecond;
    }
    if same_text(name, "microsecond") {
        return Property::Microsecond;
    }
    if same_text(name, "nanosecond") {
        return Property::Nanosecond;
    }
    if same_text(name, "timezone") {
        return Property::Timezone;
    }
    if same_text(name, "offset") {
        return Property::Offset;
    }
    if same_text(name, "offsetMinutes") {
        return Property::OffsetMinutes;
    }
    if same_text(name, "offsetSeconds") {
        return Property::OffsetSeconds;
    }
    if same_text(name, "years") {
        return Property::Years;
    }
    if same_text(name, "months") {
        return Property::Months;
    }
    if same_text(name, "quarters") {
        return Property::Quarters;
    }
    if same_text(name, "weeks") {
        return Property::Weeks;
    }
    if same_text(name, "days") {
        return Property::Days;
    }
    if same_text(name, "hours") {
        return Property::Hours;
    }
    if same_text(name, "minutes") {
        return Property::Minutes;
    }
    if same_text(name, "seconds") {
        return Property::Seconds;
    }
    if same_text(name, "milliseconds") {
        return Property::Milliseconds;
    }
    if same_text(name, "microseconds") {
        return Property::Microseconds;
    }
    if same_text(name, "nanoseconds") {
        return Property::Nanoseconds;
    }
    if same_text(name, "quartersOfYear") {
        return Property::QuartersOfYear;
    }
    if same_text(name, "monthsOfQuarter") {
        return Property::MonthsOfQuarter;
    }
    if same_text(name, "monthsOfYear") {
        return Property::MonthsOfYear;
    }
    if same_text(name, "daysOfWeek") {
        return Property::DaysOfWeek;
    }
    if same_text(name, "minutesOfHour") {
        return Property::MinutesOfHour;
    }
    if same_text(name, "secondsOfMinute") {
        return Property::SecondsOfMinute;
    }
    if same_text(name, "millisecondsOfSecond") {
        return Property::MillisecondsOfSecond;
    }
    if same_text(name, "microsecondsOfSecond") {
        return Property::MicrosecondsOfSecond;
    }
    if same_text(name, "nanosecondsOfSecond") {
        return Property::NanosecondsOfSecond;
    }
    if same_text(name, "weekDay") {
        return Property::WeekDay;
    }
    if same_text(name, "ordinalDay") {
        return Property::OrdinalDay;
    }
    if same_text(name, "weekYear") {
        return Property::WeekYear;
    }
    if same_text(name, "week") {
        return Property::Week;
    }
    if same_text(name, "dayOfQuarter") {
        return Property::DayOfQuarter;
    }
    if same_text(name, "epochSeconds") {
        return Property::EpochSeconds;
    }
    if same_text(name, "epochMillis") {
        return Property::EpochMillis;
    }
    Property::Unknown
}

/// A value to bind, and the hint for the name of its variable.
#[derive(Debug)]
pub struct Step {
    pub hint: &'static str,
    pub formula: Formula,
}

#[verifier::allow_in_spec]
pub fn step(hint: &'static str, formula: Formula) -> Step
    returns
        (Step { hint, formula }),
{
    Step { hint, formula }
}

/// The day as a number: year, month and day, the Julian day number (step 20) and
/// the day of the week (step 22); the number of the first day of the year (step
/// 30); the Thursday of the week and its year (step 51); the week (step 64).
#[verifier::allow_in_spec]
pub fn day_step(k: usize) -> Step
    returns
        match k {
            0 => step("__tp_Y", whole(cut(input(), 1, 4))),
            1 => step("__tp_M", whole(cut(input(), 6, 2))),
            2 => step("__tp_D", whole(cut(input(), 9, 2))),
            3 => step("__tp_Yd", decimal(bound(0))),
            4 => step("__tp_Md", decimal(bound(1))),
            5 => step("__tp_Dd", decimal(bound(2))),
            6 => step("__tp_14mM", minus(num("14"), bound(4))),
            7 => step("__tp_jdna", floor(over(bound(6), num("12")))),
            8 => step("__tp_jdny", minus(plus(bound(3), num("4800")), bound(7))),
            9 => step("__tp_12a", times(num("12"), bound(7))),
            10 => step("__tp_jdnm", minus(plus(bound(4), bound(9)), num("3"))),
            11 => step("__tp_153m", times(num("153"), bound(10))),
            12 => step("__tp_153m2", plus(bound(11), num("2"))),
            13 => step("__tp_f153m25", floor(over(bound(12), num("5")))),
            14 => step("__tp_365y", times(num("365"), bound(8))),
            15 => step("__tp_y4", floor(over(bound(8), num("4")))),
            16 => step("__tp_y100", floor(over(bound(8), num("100")))),
            17 => step("__tp_y400", floor(over(bound(8), num("400")))),
            18 => step("__tp_JDNp", plus(plus(plus(plus(bound(5), bound(13)), bound(14)), bound(15)), bound(17))),
            19 => step("__tp_JDNn", plus(bound(16), num("32045"))),
            20 => step("__tp_JDN", minus(bound(18), bound(19))),
            21 => step("__tp_JDN7", floor(over(bound(20), num("7")))),
            22 => step("__tp_mod7", minus(bound(20), times(num("7"), bound(21)))),
            23 => step("__tp_y4799", plus(bound(3), num("4799"))),
            24 => step("__tp_365yj1", times(num("365"), bound(23))),
            25 => step("__tp_yj1_4", floor(over(bound(23), num("4")))),
            26 => step("__tp_yj1_100", floor(over(bound(23), num("100")))),
            27 => step("__tp_yj1_400", floor(over(bound(23), num("400")))),
            28 => step("__tp_JDNj1p", plus(plus(plus(num("307"), bound(24)), bound(25)), bound(27))),
            29 => step("__tp_JDNj1n", plus(bound(26), num("32045"))),
            30 => step("__tp_JDNj1", minus(bound(28), bound(29))),
            31 => step("__tp_thujdn", minus(plus(bound(20), num("3")), bound(22))),
            32 => step("__tp_inva", plus(bound(31), num("32044"))),
            33 => step("__tp_4a", times(num("4"), bound(32))),
            34 => step("__tp_4a3", plus(bound(33), num("3"))),
            35 => step("__tp_invb", floor(over(bound(34), num("146097")))),
            36 => step("__tp_146b", times(num("146097"), bound(35))),
            37 => step("__tp_146b4", floor(over(bound(36), num("4")))),
            38 => step("__tp_invc", minus(bound(32), bound(37))),
            39 => step("__tp_4c", times(num("4"), bound(38))),
            40 => step("__tp_4c3", plus(bound(39), num("3"))),
            41 => step("__tp_invd", floor(over(bound(40), num("1461")))),
            42 => step("__tp_1461d", times(num("1461"), bound(41))),
            43 => step("__tp_1461d4", floor(over(bound(42), num("4")))),
            44 => step("__tp_inve", minus(bound(38), bound(43))),
            45 => step("__tp_5e", times(num("5"), bound(44))),
            46 => step("__tp_5e2", plus(bound(45), num("2"))),
            47 => step("__tp_invm", floor(over(bound(46), num("153")))),
            48 => step("__tp_m10", floor(over(bound(47), num("10")))),
            49 => step("__tp_100b", times(num("100"), bound(35))),
            50 => step("__tp_tyrp", plus(plus(bound(49), bound(41)), bound(48))),
            51 => step("__tp_tyr", minus(bound(50), num("4800"))),
            52 => step("__tp_ty4799", plus(decimal(bound(51)), num("4799"))),
            53 => step("__tp_365ty", times(num("365"), bound(52))),
            54 => step("__tp_ty4", floor(over(bound(52), num("4")))),
            55 => step("__tp_ty100", floor(over(bound(52), num("100")))),
            56 => step("__tp_ty400", floor(over(bound(52), num("400")))),
            57 => step("__tp_JDNtj4p", plus(plus(plus(num("310"), bound(53)), bound(54)), bound(56))),
            58 => step("__tp_JDNtj4n", plus(bound(55), num("32045"))),
            59 => step("__tp_JDNtj4", minus(bound(57), bound(58))),
            60 => step("__tp_tj47", floor(over(bound(59), num("7")))),
            61 => step("__tp_j4m7", minus(bound(59), times(num("7"), bound(60)))),
            62 => step("__tp_w1mon", minus(bound(59), bound(61))),
            63 => step("__tp_thuw1", minus(bound(31), bound(62))),
            _ => step("__tp_wraw", floor(over(bound(63), num("7")))),
        },
{
    match k {
        0 => step("__tp_Y", whole(cut(input(), 1, 4))),
        1 => step("__tp_M", whole(cut(input(), 6, 2))),
        2 => step("__tp_D", whole(cut(input(), 9, 2))),
        3 => step("__tp_Yd", decimal(bound(0))),
        4 => step("__tp_Md", decimal(bound(1))),
        5 => step("__tp_Dd", decimal(bound(2))),
        6 => step("__tp_14mM", minus(num("14"), bound(4))),
        7 => step("__tp_jdna", floor(over(bound(6), num("12")))),
        8 => step("__tp_jdny", minus(plus(bound(3), num("4800")), bound(7))),
        9 => step("__tp_12a", times(num("12"), bound(7))),
        10 => step("__tp_jdnm", minus(plus(bound(4), bound(9)), num("3"))),
        11 => step("__tp_153m", times(num("153"), bound(10))),
        12 => step("__tp_153m2", plus(bound(11), num("2"))),
        13 => step("__tp_f153m25", floor(over(bound(12), num("5")))),
        14 => step("__tp_365y", times(num("365"), bound(8))),
        15 => step("__tp_y4", floor(over(bound(8), num("4")))),
        16 => step("__tp_y100", floor(over(bound(8), num("100")))),
        17 => step("__tp_y400", floor(over(bound(8), num("400")))),
        18 => step("__tp_JDNp", plus(plus(plus(plus(bound(5), bound(13)), bound(14)), bound(15)), bound(17))),
        19 => step("__tp_JDNn", plus(bound(16), num("32045"))),
        20 => step("__tp_JDN", minus(bound(18), bound(19))),
        21 => step("__tp_JDN7", floor(over(bound(20), num("7")))),
        22 => step("__tp_mod7", minus(bound(20), times(num("7"), bound(21)))),
        23 => step("__tp_y4799", plus(bound(3), num("4799"))),
        24 => step("__tp_365yj1", times(num("365"), bound(23))),
        25 => step("__tp_yj1_4", floor(over(bound(23), num("4")))),
        26 => step("__tp_yj1_100", floor(over(bound(23), num("100")))),
        27 => step("__tp_yj1_400", floor(over(bound(23), num("400")))),
        28 => step("__tp_JDNj1p", plus(plus(plus(num("307"), bound(24)), bound(25)), bound(27))),
        29 => step("__tp_JDNj1n", plus(bound(26), num("32045"))),
        30 => step("__tp_JDNj1", minus(bound(28), bound(29))),
        31 => step("__tp_thujdn", minus(plus(bound(20), num("3")), bound(22))),
        32 => step("__tp_inva", plus(bound(31), num("32044"))),
        33 => step("__tp_4a", times(num("4"), bound(32))),
        34 => step("__tp_4a3", plus(bound(33), num("3"))),
        35 => step("__tp_invb", floor(over(bound(34), num("146097")))),
        36 => step("__tp_146b", times(num("146097"), bound(35))),
        37 => step("__tp_146b4", floor(over(bound(36), num("4")))),
        38 => step("__tp_invc", minus(bound(32), bound(37))),
        39 => step("__tp_4c", times(num("4"), bound(38))),
        40 => step("__tp_4c3", plus(bound(39), num("3"))),
        41 => step("__tp_invd", floor(over(bound(40), num("1461")))),
        42 => step("__tp_1461d", times(num("1461"), bound(41))),
        43 => step("__tp_1461d4", floor(over(bound(42), num("4")))),
        44 => step("__tp_inve", minus(bound(38), bound(43))),
        45 => step("__tp_5e", times(num("5"), bound(44))),
        46 => step("__tp_5e2", plus(bound(45), num("2"))),
        47 => step("__tp_invm", floor(over(bound(46), num("153")))),
        48 => step("__tp_m10", floor(over(bound(47), num("10")))),
        49 => step("__tp_100b", times(num("100"), bound(35))),
        50 => step("__tp_tyrp", plus(plus(bound(49), bound(41)), bound(48))),
        51 => step("__tp_tyr", minus(bound(50), num("4800"))),
        52 => step("__tp_ty4799", plus(decimal(bound(51)), num("4799"))),
        53 => step("__tp_365ty", times(num("365"), bound(52))),
        54 => step("__tp_ty4", floor(over(bound(52), num("4")))),
        55 => step("__tp_ty100", floor(over(bound(52), num("100")))),
        56 => step("__tp_ty400", floor(over(bound(52), num("400")))),
        57 => step("__tp_JDNtj4p", plus(plus(plus(num("310"), bound(53)), bound(54)), bound(56))),
        58 => step("__tp_JDNtj4n", plus(bound(55), num("32045"))),
        59 => step("__tp_JDNtj4", minus(bound(57), bound(58))),
        60 => step("__tp_tj47", floor(over(bound(59), num("7")))),
        61 => step("__tp_j4m7", minus(bound(59), times(num("7"), bound(60)))),
        62 => step("__tp_w1mon", minus(bound(59), bound(61))),
        63 => step("__tp_thuw1", minus(bound(31), bound(62))),
        _ => step("__tp_wraw", floor(over(bound(63), num("7")))),
    }
}

/// The days since the first of the year.
#[verifier::allow_in_spec]
pub fn ordinal_step() -> Step
    returns
        step("__tp_dj1", minus(bound(20), bound(30))),
{
    step("__tp_dj1", minus(bound(20), bound(30)))
}

/// The days since the first of the quarter.
#[verifier::allow_in_spec]
pub fn quarter_step(k: usize) -> Step
    returns
        match k {
            0 => step("__tp_m1", minus(bound(4), num("1"))),
            1 => step("__tp_qm3", floor(over(bound(65), num("3")))),
            2 => step("__tp_qsm", plus(times(num("3"), bound(66)), num("1"))),
            3 => step("__tp_14qs", minus(num("14"), bound(67))),
            4 => step("__tp_qsa", floor(over(bound(68), num("12")))),
            5 => step("__tp_qsy", minus(plus(bound(3), num("4800")), bound(69))),
            6 => step("__tp_12qsa", times(num("12"), bound(69))),
            7 => step("__tp_qsm2", minus(plus(bound(67), bound(71)), num("3"))),
            8 => step("__tp_153qm", times(num("153"), bound(72))),
            9 => step("__tp_153qm2", plus(bound(73), num("2"))),
            10 => step("__tp_f153q", floor(over(bound(74), num("5")))),
            11 => step("__tp_365qy", times(num("365"), bound(70))),
            12 => step("__tp_qy4", floor(over(bound(70), num("4")))),
            13 => step("__tp_qy100", floor(over(bound(70), num("100")))),
            14 => step("__tp_qy400", floor(over(bound(70), num("400")))),
            15 => step("__tp_JDNqsp", plus(plus(plus(plus(num("1"), bound(75)), bound(76)), bound(77)), bound(79))),
            16 => step("__tp_JDNqsn", plus(bound(78), num("32045"))),
            17 => step("__tp_JDNqs", minus(bound(80), bound(81))),
            _ => step("__tp_dqs", minus(bound(20), bound(82))),
        },
{
    match k {
        0 => step("__tp_m1", minus(bound(4), num("1"))),
        1 => step("__tp_qm3", floor(over(bound(65), num("3")))),
        2 => step("__tp_qsm", plus(times(num("3"), bound(66)), num("1"))),
        3 => step("__tp_14qs", minus(num("14"), bound(67))),
        4 => step("__tp_qsa", floor(over(bound(68), num("12")))),
        5 => step("__tp_qsy", minus(plus(bound(3), num("4800")), bound(69))),
        6 => step("__tp_12qsa", times(num("12"), bound(69))),
        7 => step("__tp_qsm2", minus(plus(bound(67), bound(71)), num("3"))),
        8 => step("__tp_153qm", times(num("153"), bound(72))),
        9 => step("__tp_153qm2", plus(bound(73), num("2"))),
        10 => step("__tp_f153q", floor(over(bound(74), num("5")))),
        11 => step("__tp_365qy", times(num("365"), bound(70))),
        12 => step("__tp_qy4", floor(over(bound(70), num("4")))),
        13 => step("__tp_qy100", floor(over(bound(70), num("100")))),
        14 => step("__tp_qy400", floor(over(bound(70), num("400")))),
        15 => step("__tp_JDNqsp", plus(plus(plus(plus(num("1"), bound(75)), bound(76)), bound(77)), bound(79))),
        16 => step("__tp_JDNqsn", plus(bound(78), num("32045"))),
        17 => step("__tp_JDNqs", minus(bound(80), bound(81))),
        _ => step("__tp_dqs", minus(bound(20), bound(82))),
    }
}

/// The seconds since the start of 1970, and the milliseconds of the second.
#[verifier::allow_in_spec]
pub fn epoch_step(k: usize) -> Step
    returns
        match k {
            0 => step("__tp_JDNep", minus(bound(20), num("2440588"))),
            1 => step("__tp_sd86400", times(bound(65), num("86400"))),
            2 => step("__tp_tph", decimal(whole(cut(time_part(), 1, 2)))),
            3 => step("__tp_tpm", decimal(whole(cut(time_part(), 4, 2)))),
            4 => step("__tp_tps", decimal(whole(cut(time_part(), 7, 2)))),
            5 => step("__tp_tsecs", plus(plus(times(bound(67), num("3600")), times(bound(68), num("60"))), bound(69))),
            6 => step("__tp_tzs", decimal(offset_seconds())),
            7 => step("__tp_eps", minus(plus(bound(66), bound(70)), bound(71))),
            _ => step("__tp_tpms", decimal(whole(cut(nine_digits(), 1, 3)))),
        },
{
    match k {
        0 => step("__tp_JDNep", minus(bound(20), num("2440588"))),
        1 => step("__tp_sd86400", times(bound(65), num("86400"))),
        2 => step("__tp_tph", decimal(whole(cut(time_part(), 1, 2)))),
        3 => step("__tp_tpm", decimal(whole(cut(time_part(), 4, 2)))),
        4 => step("__tp_tps", decimal(whole(cut(time_part(), 7, 2)))),
        5 => step("__tp_tsecs", plus(plus(times(bound(67), num("3600")), times(bound(68), num("60"))), bound(69))),
        6 => step("__tp_tzs", decimal(offset_seconds())),
        7 => step("__tp_eps", minus(plus(bound(66), bound(70)), bound(71))),
        _ => step("__tp_tpms", decimal(whole(cut(nine_digits(), 1, 3)))),
    }
}

/// How many values are bound for a property. Those of a property that is not
/// known are the steps up to the week.
#[verifier::allow_in_spec]
pub fn step_count(p: Property) -> usize
    returns
        match p {
            Property::Milliseconds | Property::Microseconds | Property::Nanoseconds => 1usize,
            Property::WeekDay => 23usize,
            Property::OrdinalDay => 32usize,
            Property::WeekYear => 52usize,
            Property::Week => 65usize,
            Property::DayOfQuarter => 84usize,
            Property::EpochSeconds => 73usize,
            Property::EpochMillis => 74usize,
            Property::Unknown => 65usize,
            _ => 0usize,
        },
{
    match p {
            Property::Milliseconds | Property::Microseconds | Property::Nanoseconds => 1usize,
            Property::WeekDay => 23usize,
            Property::OrdinalDay => 32usize,
            Property::WeekYear => 52usize,
            Property::Week => 65usize,
            Property::DayOfQuarter => 84usize,
            Property::EpochSeconds => 73usize,
            Property::EpochMillis => 74usize,
            Property::Unknown => 65usize,
            _ => 0usize,
        }
}

/// The value that is bound at the place.
#[verifier::allow_in_spec]
pub fn step_at(p: Property, k: usize) -> Step
    returns
        (match p {
            Property::Milliseconds | Property::Microseconds | Property::Nanoseconds => step(
                "__dur_ts",
                period_time_seconds(),
            ),
            Property::OrdinalDay => if k < 31 {
                day_step(k)
            } else {
                ordinal_step()
            },
            Property::DayOfQuarter => if k < 65 {
                day_step(k)
            } else {
                quarter_step((k - 65) as usize)
            },
            Property::EpochSeconds | Property::EpochMillis => if k < 65 {
                day_step(k)
            } else {
                epoch_step((k - 65) as usize)
            },
            _ => day_step(k),
        }),
{
    match p {
        Property::Milliseconds | Property::Microseconds | Property::Nanoseconds => step(
            "__dur_ts",
            period_time_seconds(),
        ),
        Property::OrdinalDay => if k < 31 {
            day_step(k)
        } else {
            ordinal_step()
        },
        Property::DayOfQuarter => if k < 65 {
            day_step(k)
        } else {
            quarter_step(k - 65)
        },
        Property::EpochSeconds | Property::EpochMillis => if k < 65 {
            day_step(k)
        } else {
            epoch_step(k - 65)
        },
        _ => day_step(k),
    }
}

/// What the property is, once its steps are bound.
#[verifier::allow_in_spec]
pub fn result_formula(p: Property) -> Option<Formula>
    returns
        (match p {
            Property::Year => Some(whole(cut(input(), 1, 4))),
            Property::Month => Some(month()),
            Property::Day => Some(whole(cut(input(), 9, 2))),
            Property::Quarter => Some(whole(ceil(over(decimal(month()), num("3"))))),
            Property::Hour => Some(whole(cut(time_part(), 1, 2))),
            Property::Minute => Some(whole(cut(time_part(), 4, 2))),
            Property::Second => Some(whole(cut(time_part(), 7, 2))),
            Property::Millisecond => Some(whole(cut(nine_digits(), 1, 3))),
            Property::Microsecond => Some(whole(cut(nine_digits(), 1, 6))),
            Property::Nanosecond => Some(whole(nine_digits())),
            Property::Timezone => Some(branch(holds(input(), "["), before(zone_name(), "]"), offset_text())),
            Property::Offset => Some(offset_text()),
            Property::OffsetMinutes => Some(offset_minutes()),
            Property::OffsetSeconds => Some(offset_seconds()),
            Property::Years => Some(period_years()),
            Property::Months => Some(plus(times(period_years(), count(12)), period_months())),
            Property::Quarters => Some(plus(times(period_years(), count(4)), whole(floor(over(decimal(period_months()), num("3")))))),
            Property::Weeks => Some(whole(floor(over(decimal(period_days()), num("7"))))),
            Property::Days => Some(period_days()),
            Property::Hours => Some(period_hours()),
            Property::Minutes => Some(plus(times(period_hours(), count(60)), period_minutes())),
            Property::Seconds => Some(period_time_seconds()),
            Property::Milliseconds => Some(plus(times(bound(0), count(1000)), whole(cut(period_nine_digits(), 1, 3)))),
            Property::Microseconds => Some(plus(times(bound(0), count(1000000)), whole(cut(period_nine_digits(), 1, 6)))),
            Property::Nanoseconds => Some(plus(times(bound(0), count(1000000000)), whole(period_nine_digits()))),
            Property::QuartersOfYear => Some(whole(floor(over(decimal(period_months()), num("3"))))),
            Property::MonthsOfQuarter => Some(whole(minus(period_months(), times(whole(floor(over(decimal(period_months()), num("3")))), count(3))))),
            Property::MonthsOfYear => Some(period_months()),
            Property::DaysOfWeek => Some(whole(minus(period_days(), times(whole(floor(over(decimal(period_days()), num("7")))), count(7))))),
            Property::MinutesOfHour => Some(period_minutes()),
            Property::SecondsOfMinute => Some(period_seconds()),
            Property::MillisecondsOfSecond => Some(whole(cut(period_nine_digits(), 1, 3))),
            Property::MicrosecondsOfSecond => Some(whole(cut(period_nine_digits(), 1, 6))),
            Property::NanosecondsOfSecond => Some(whole(period_nine_digits())),
            Property::WeekDay => Some(whole(plus(bound(22), num("1")))),
            Property::OrdinalDay => Some(whole(plus(bound(31), num("1")))),
            Property::WeekYear => Some(whole(bound(51))),
            Property::Week => Some(whole(plus(bound(64), num("1")))),
            Property::DayOfQuarter => Some(whole(plus(bound(83), num("1")))),
            Property::EpochSeconds => Some(whole(bound(72))),
            Property::EpochMillis => Some(whole(plus(times(bound(72), num("1000")), bound(73)))),
            Property::Unknown => None,
        }),
{
    match p {
            Property::Year => Some(whole(cut(input(), 1, 4))),
            Property::Month => Some(month()),
            Property::Day => Some(whole(cut(input(), 9, 2))),
            Property::Quarter => Some(whole(ceil(over(decimal(month()), num("3"))))),
            Property::Hour => Some(whole(cut(time_part(), 1, 2))),
            Property::Minute => Some(whole(cut(time_part(), 4, 2))),
            Property::Second => Some(whole(cut(time_part(), 7, 2))),
            Property::Millisecond => Some(whole(cut(nine_digits(), 1, 3))),
            Property::Microsecond => Some(whole(cut(nine_digits(), 1, 6))),
            Property::Nanosecond => Some(whole(nine_digits())),
            Property::Timezone => Some(branch(holds(input(), "["), before(zone_name(), "]"), offset_text())),
            Property::Offset => Some(offset_text()),
            Property::OffsetMinutes => Some(offset_minutes()),
            Property::OffsetSeconds => Some(offset_seconds()),
            Property::Years => Some(period_years()),
            Property::Months => Some(plus(times(period_years(), count(12)), period_months())),
            Property::Quarters => Some(plus(times(period_years(), count(4)), whole(floor(over(decimal(period_months()), num("3")))))),
            Property::Weeks => Some(whole(floor(over(decimal(period_days()), num("7"))))),
            Property::Days => Some(period_days()),
            Property::Hours => Some(period_hours()),
            Property::Minutes => Some(plus(times(period_hours(), count(60)), period_minutes())),
            Property::Seconds => Some(period_time_seconds()),
            Property::Milliseconds => Some(plus(times(bound(0), count(1000)), whole(cut(period_nine_digits(), 1, 3)))),
            Property::Microseconds => Some(plus(times(bound(0), count(1000000)), whole(cut(period_nine_digits(), 1, 6)))),
            Property::Nanoseconds => Some(plus(times(bound(0), count(1000000000)), whole(period_nine_digits()))),
            Property::QuartersOfYear => Some(whole(floor(over(decimal(period_months()), num("3"))))),
            Property::MonthsOfQuarter => Some(whole(minus(period_months(), times(whole(floor(over(decimal(period_months()), num("3")))), count(3))))),
            Property::MonthsOfYear => Some(period_months()),
            Property::DaysOfWeek => Some(whole(minus(period_days(), times(whole(floor(over(decimal(period_days()), num("7")))), count(7))))),
            Property::MinutesOfHour => Some(period_minutes()),
            Property::SecondsOfMinute => Some(period_seconds()),
            Property::MillisecondsOfSecond => Some(whole(cut(period_nine_digits(), 1, 3))),
            Property::MicrosecondsOfSecond => Some(whole(cut(period_nine_digits(), 1, 6))),
            Property::NanosecondsOfSecond => Some(whole(period_nine_digits())),
            Property::WeekDay => Some(whole(plus(bound(22), num("1")))),
            Property::OrdinalDay => Some(whole(plus(bound(31), num("1")))),
            Property::WeekYear => Some(whole(bound(51))),
            Property::Week => Some(whole(plus(bound(64), num("1")))),
            Property::DayOfQuarter => Some(whole(plus(bound(83), num("1")))),
            Property::EpochSeconds => Some(whole(bound(72))),
            Property::EpochMillis => Some(whole(plus(times(bound(72), num("1000")), bound(73)))),
            Property::Unknown => None,
        }
}

/// The names of the first `n` values that are bound, from the number on.
pub open spec fn step_names(p: Property, n: int, counter: int) -> Seq<Seq<char>> {
    Seq::new(n as nat, |k: int| fresh_name(step_at(p, k as usize).hint@, counter + k))
}

/// The first `n` values that are bound, each under its name; a formula speaks of
/// those before it.
pub open spec fn steps(p: Property, n: int, counter: int, value: g::Expr) -> Seq<
    (Seq<char>, g::Expr),
> {
    Seq::new(
        n as nat,
        |k: int|
            (
                fresh_name(step_at(p, k as usize).hint@, counter + k),
                expand(step_at(p, k as usize).formula, value, step_names(p, k, counter)),
            ),
    )
}

/// The property of the value, over the variables of its steps.
pub open spec fn property_value(p: Property, counter: int, value: g::Expr) -> Option<g::Expr> {
    match result_formula(p) {
        Some(f) => Some(expand(f, value, step_names(p, step_count(p) as int, counter))),
        None => None,
    }
}

impl Output {
    /// The property of a temporal value. What it takes is bound to fresh
    /// variables first; those bindings are left pending.
    pub fn temporal_prop_binds(&mut self, var_e: &sparql::Expr, prop: &str) -> (r: Option<
        sparql::Expr,
    >)
        requires
            old(self).counter + step_count(property_named(prop@)) < u64::MAX,
        ensures
            g::opt_expr(r) == property_value(
                property_named(prop@),
                old(self).counter as int,
                g::expr_of(*var_e),
            ),
            *final(self) == (Output {
                counter: final(self).counter,
                pending_pre_extends: final(self).pending_pre_extends,
                ..*old(self)
            }),
            final(self).counter == old(self).counter + step_count(property_named(prop@)),
            extends_of(final(self).pending_pre_extends@) == extends_of(
                old(self).pending_pre_extends@,
            ) + steps(
                property_named(prop@),
                step_count(property_named(prop@)) as int,
                old(self).counter as int,
                g::expr_of(*var_e),
            ),
    {
        let p = find_property(prop);
        let n: usize = step_count(p);
        let mut names: Vec<String> = Vec::new();
        let ghost state = *self;
        let ghost value = g::expr_of(*var_e);
        let ghost c = self.counter as int;
        assert(texts(names@) =~= step_names(p, 0, c));
        assert(extends_of(state.pending_pre_extends@) + steps(p, 0, c, value) =~= extends_of(
            state.pending_pre_extends@,
        ));
        #[verifier::loop_isolation(false)]
        for k in 0..n
            invariant
                *self == (Output {
                    counter: self.counter,
                    pending_pre_extends: self.pending_pre_extends,
                    ..state
                }),
                self.counter == c + k,
                texts(names@) == step_names(p, k as int, c),
                extends_of(self.pending_pre_extends@) == extends_of(state.pending_pre_extends@)
                    + steps(p, k as int, c, value),
        {
            let s = step_at(p, k);
            let e = write_formula(&s.formula, var_e, &names);
            let name = self.fresh_var(s.hint);
            let ghost before = self.pending_pre_extends@;
            self.pending_pre_extends.push((name.clone(), e));
            push_text(&mut names, name);
            assert(texts(names@) =~= step_names(p, k + 1, c));
            assert(extends_of(self.pending_pre_extends@) =~= extends_of(before).push(
                (fresh_name(s.hint@, c + k), g::expr_of(e)),
            ));
            assert(extends_of(self.pending_pre_extends@) =~= extends_of(
                state.pending_pre_extends@,
            ) + steps(p, k + 1, c, value));
        }
        match result_formula(p) {
            Some(f) => Some(write_formula(&f, var_e, &names)),
            None => None,
        }
    }
}

} // verus!
