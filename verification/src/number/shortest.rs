//! The decimal number of the fewest digits that is read as a given double.
use vstd::prelude::*;

use crate::number::big::{Big, Side};
#[allow(unused_imports)]
use crate::number::big::{lemma_power_positive, lemma_power_rises, lemma_power_sum, power};
use crate::number::double::{nearest_double, quotient, rest_against_half, Binary};
#[allow(unused_imports)]
use crate::number::double::{lemma_power_53, nearest, Double, EXPONENT_END};

verus! {

/// The power of ten by which doubles are moved so that all that counts of them
/// stands before the point.
pub const SHIFT: usize = 400;

/// No double has that many digits before the point once it was moved.
pub const PLACES_END: usize = 742;

/// The most digits that are needed to tell doubles apart.
pub const MOST_DIGITS: usize = 17;

/// The double times 10^400, as a fraction over 2^1074.
pub open spec fn shifted(v: Double) -> nat {
    v.mantissa * power(2, v.exponent) * power(10, SHIFT as nat)
}

/// How many digits `n` has before the point when `t` stands for 10^p: the first
/// count from `p` on at which `n` lies below it.
pub open spec fn places(n: nat, t: nat, p: nat) -> nat
    decreases PLACES_END - p,
{
    if p >= PLACES_END || n < t {
        p
    } else {
        places(n, 10 * t, p + 1)
    }
}

/// Whether `c` times 10^(k - 400) is read as the double.
pub open spec fn reads_as(c: nat, k: nat, v: Double) -> bool {
    nearest(c * power(10, k), power(10, SHIFT as nat)) == Some(v)
}

/// Of the two multiples of 10^(k - 400) round the double the one that is read as
/// it; where both are or none is, the one that is nearer, and the greater one of
/// two that are as near.
pub open spec fn candidate(v: Double, k: nat) -> nat {
    let unit = power(2, 1074) * power(10, k);
    let c = shifted(v) / unit;
    if reads_as(c, k, v) == reads_as(c + 1, k, v) {
        if 2 * (shifted(v) % unit) >= unit {
            c + 1
        } else {
            c
        }
    } else if reads_as(c, k, v) {
        c
    } else {
        c + 1
    }
}

/// Whether one of the two multiples of 10^(k - 400) round the double is read as
/// it.
pub open spec fn suffices(v: Double, k: nat) -> bool {
    let c = shifted(v) / (power(2, 1074) * power(10, k));
    reads_as(c, k, v) || reads_as(c + 1, k, v)
}

/// The position of the last of `n` digits where `p` stand before the point.
pub open spec fn last_of(p: nat, n: nat) -> nat {
    if p >= n {
        (p - n) as nat
    } else {
        0
    }
}

/// The position of the last digit, from `n` digits on: that of the fewest that
/// tell the double apart.
pub open spec fn last_place(v: Double, p: nat, n: nat) -> nat
    decreases MOST_DIGITS - n,
{
    let k = last_of(p, n);
    if n >= MOST_DIGITS || suffices(v, k) {
        k
    } else {
        last_place(v, p, n + 1)
    }
}

pub open spec fn last_place_of(v: Double) -> nat {
    last_place(v, places(shifted(v), power(2, 1074), 0), 1)
}

/// The digits of the shortest number, as a whole number.
pub open spec fn shortest_digits(v: Double) -> nat {
    candidate(v, last_place_of(v))
}

/// A power of two is below that power of ten that has a third of the exponent.
pub proof fn lemma_thirds(n: nat)
    ensures
        power(2, 3 * n) <= power(10, n),
    decreases n,
{
    if n > 0 {
        lemma_thirds((n - 1) as nat);
        lemma_power_sum(2, 3, (3 * n - 3) as nat);
        reveal_with_fuel(power, 4);
        assert(power(2, 3) == 8);
    }
}

proof fn lemma_places(n: nat, t: nat, p: nat)
    requires
        p <= PLACES_END,
        n < t * power(10, (PLACES_END - p) as nat),
    ensures
        p <= places(n, t, p) <= PLACES_END,
        n < t * power(10, (places(n, t, p) - p) as nat),
    decreases PLACES_END - p,
{
    if p < PLACES_END && n >= t {
        let w = power(10, (PLACES_END - p - 1) as nat);
        assert(t * (10 * w) == (10 * t) * w) by (nonlinear_arith);
        lemma_places(n, 10 * t, p + 1);
        let u = power(10, (places(n, 10 * t, p + 1) - p - 1) as nat);
        assert((10 * t) * u == t * (10 * u)) by (nonlinear_arith);
    } else {
        assert(t * 1 == t) by (nonlinear_arith);
    }
}

proof fn lemma_shifted_bound(v: Double)
    requires
        v.well_formed(),
    ensures
        shifted(v) < power(2, 1074) * power(10, PLACES_END as nat),
{
    let e = power(2, v.exponent);
    let ten = power(10, SHIFT as nat);
    let top = power(2, EXPONENT_END as nat);
    let m = v.mantissa;
    lemma_power_53();
    lemma_power_rises(2, v.exponent, EXPONENT_END as nat);
    lemma_power_positive(2, v.exponent);
    lemma_power_positive(10, SHIFT as nat);
    assert(m * e < power(2, 53) * top) by (nonlinear_arith)
        requires
            m < power(2, 53),
            0 < e <= top,
    ;
    lemma_power_sum(2, 53, EXPONENT_END as nat);
    lemma_power_rises(2, 2099, 2100);
    lemma_power_sum(2, 1074, 1026);
    lemma_thirds(342);
    lemma_power_sum(10, 342, SHIFT as nat);
    let two = power(2, 1074);
    let a = power(2, 1026);
    let b = power(10, 342);
    assert(m * e < two * a);
    assert((m * e) * ten < (two * a) * ten) by (nonlinear_arith)
        requires
            m * e < two * a,
            ten > 0,
    ;
    assert((two * a) * ten <= two * (b * ten)) by (nonlinear_arith)
        requires
            a <= b,
    ;
}

/// The quotient of a moved double is below 10^17, whatever the position.
proof fn lemma_quotient_bound(n: nat, two: nat, p: nat, k: nat)
    requires
        n < two * power(10, p),
        k + MOST_DIGITS >= p,
    ensures
        n < (two * power(10, k)) * power(2, 60),
{
    let d = power(10, MOST_DIGITS as nat);
    lemma_power_rises(10, p, k + MOST_DIGITS as nat);
    lemma_power_sum(10, k, MOST_DIGITS as nat);
    lemma_power_53();
    assert(d == 100_000_000_000_000_000) by {
        reveal_with_fuel(power, 18);
    }
    let u = power(10, k);
    let w = power(2, 60);
    assert(two * power(10, p) <= (two * u) * w) by (nonlinear_arith)
        requires
            power(10, p) <= u * d,
            d <= w,
    ;
}

/// Whether `c` times 10^(k - 400) is read as the double.
fn is_read_as(c: u64, k: usize, v: Binary) -> (r: bool)
    ensures
        r == reads_as(c as nat, k as nat, v@),
{
    let num = Big::small(c).times_power(10, k as u128);
    let den = Big::small(1).times_power(10, SHIFT as u128);
    proof {
        lemma_power_positive(10, SHIFT as nat);
        assert(1 * power(10, SHIFT as nat) == power(10, SHIFT as nat)) by (nonlinear_arith);
    }
    match nearest_double(&num, &den) {
        Some(b) => b.mantissa == v.mantissa && b.exponent == v.exponent,
        None => false,
    }
}

/// The digits of the decimal number of the fewest digits that is read as the
/// double, and the position of the last of them.
pub fn shortest(v: Binary) -> (r: (u64, usize))
    requires
        v@.well_formed(),
    ensures
        r.0 == shortest_digits(v@),
        r.1 == last_place_of(v@),
        r.1 <= PLACES_END,
{
    let n = Big::small(v.mantissa).times_power(2, v.exponent as u128).times_power(10, SHIFT as u128);
    let two = Big::small(1).times_power(2, 1074);
    let ghost size = shifted(v@);
    let ghost all = power(2, 1074);
    proof {
        assert(1 * power(2, 1074) == power(2, 1074)) by (nonlinear_arith);
        lemma_power_positive(2, 1074);
        lemma_shifted_bound(v@);
        lemma_places(size, all, 0);
    }
    let mut t = two.times(1, 0);
    let mut p: usize = 0;
    while p < PLACES_END && !n.is_below(&t)
        invariant
            p <= PLACES_END,
            n@ == size,
            places(size, all, 0) == places(size, t@, p as nat),
        decreases PLACES_END - p,
    {
        t = t.times(10, 0);
        p = p + 1;
    }
    let mut i: usize = 1;
    loop
        invariant
            1 <= i <= MOST_DIGITS,
            p <= PLACES_END,
            p == places(size, all, 0),
            v@.well_formed(),
            size == shifted(v@),
            all == power(2, 1074),
            all > 0,
            n@ == size,
            two@ == all,
            size < all * power(10, p as nat),
            last_place_of(v@) == last_place(v@, p as nat, i as nat),
        decreases MOST_DIGITS - i,
    {
        let k: usize = if p >= i {
            p - i
        } else {
            0
        };
        let unit = two.times_power(10, k as u128);
        proof {
            lemma_quotient_bound(size, all, p as nat, k as nat);
            lemma_power_positive(10, k as nat);
            lemma_power_53();
            assert(all * power(10, k as nat) > 0) by (nonlinear_arith)
                requires
                    all > 0,
                    power(10, k as nat) > 0,
            ;
        }
        let c = quotient(&n, &unit);
        let low = is_read_as(c, k, v);
        let high = is_read_as(c + 1, k, v);
        if i == MOST_DIGITS || low || high {
            let digits: u64 = if low == high {
                match rest_against_half(&n, &unit, c) {
                    Side::Below => c,
                    _ => c + 1,
                }
            } else if low {
                c
            } else {
                c + 1
            };
            return (digits, k);
        }
        i = i + 1;
    }
}

/// Where the digits tell the double apart, the shortest number is read as the
/// double that it was made from.
pub proof fn law_shortest_is_read_back(v: Double)
    requires
        suffices(v, last_place_of(v)),
    ensures
        reads_as(shortest_digits(v), last_place_of(v), v),
{
}

} // verus!
