//! Doubles: which one is nearest to a fraction, and which decimal number of the
//! fewest digits is read as a given one.
use vstd::prelude::*;

use crate::number::big::{Big, Side};
#[allow(unused_imports)]
use crate::number::big::{
    lemma_power_positive, lemma_power_rises, lemma_power_sum, power, side_of,
};

verus! {

/// The exponent that a finite double does not reach.
pub const EXPONENT_END: usize = 2046;

/// A finite double that is not negative: the mantissa, which is below 2^53,
/// times 2^(exponent - 1074).
#[verifier::ext_equal]
pub struct Double {
    pub mantissa: nat,
    pub exponent: nat,
}

impl Double {
    pub open spec fn well_formed(self) -> bool {
        self.mantissa < power(2, 53) && self.exponent < EXPONENT_END
    }
}

/// The quotient, rounded to the nearest whole number; of two that are as near,
/// to the even one.
pub open spec fn rounded(n: nat, d: nat) -> nat {
    let q = n / d;
    let r = n % d;
    if 2 * r > d || (2 * r == d && q % 2 == 1) {
        q + 1
    } else {
        q
    }
}

/// The first exponent from `e` on at which `n` lies below `t`, which doubles with
/// every exponent; `None` where the exponents of the doubles end first.
pub open spec fn scale(n: nat, t: nat, e: nat) -> Option<nat>
    decreases EXPONENT_END - e,
{
    if e >= EXPONENT_END {
        None
    } else if n < t {
        Some(e)
    } else {
        scale(n, 2 * t, e + 1)
    }
}

/// The double that is nearest to a fraction, the even one of two that are as
/// near; `None` where the fraction is too large for a finite one.
pub open spec fn nearest(num: nat, den: nat) -> Option<Double> {
    let n = num * power(2, 1074);
    match scale(n, den * power(2, 53), 0) {
        None => None,
        Some(e) => {
            let m = rounded(n, den * power(2, e));
            if m < power(2, 53) {
                Some(Double { mantissa: m, exponent: e })
            } else if e + 1 < EXPONENT_END {
                Some(Double { mantissa: power(2, 52), exponent: e + 1 })
            } else {
                None
            }
        },
    }
}

/// A double, as machine numbers.
#[derive(Clone, Copy, Debug)]
pub struct Binary {
    pub mantissa: u64,
    pub exponent: usize,
}

impl View for Binary {
    type V = Double;

    open spec fn view(&self) -> Double {
        Double { mantissa: self.mantissa as nat, exponent: self.exponent as nat }
    }
}

pub proof fn lemma_power_53()
    ensures
        power(2, 53) == 9_007_199_254_740_992,
        power(2, 52) == 4_503_599_627_370_496,
        power(2, 60) == 1_152_921_504_606_846_976,
{
    reveal_with_fuel(power, 11);
    assert(power(2, 10) == 1024);
    assert(power(2, 20) == 1_048_576);
    assert(power(2, 30) == 1_073_741_824);
    assert(power(2, 40) == 1_099_511_627_776);
    assert(power(2, 50) == 1_125_899_906_842_624);
}

/// The whole part of a quotient below 2^60.
pub fn quotient(n: &Big, d: &Big) -> (r: u64)
    requires
        d@ > 0,
        n@ < d@ * power(2, 60),
    ensures
        r == n@ / d@,
        r < power(2, 60),
{
    let mut b: usize = 60;
    let mut width: u64 = 1_152_921_504_606_846_976;
    let mut m: u64 = 0;
    proof {
        lemma_power_53();
        assert(d@ * 0 == 0 && d@ * (0 + width) == d@ * width) by (nonlinear_arith);
    }
    while b > 0
        invariant
            b <= 60,
            width == power(2, b as nat),
            d@ * m <= n@ < d@ * (m + width),
            m + width <= power(2, 60),
            power(2, 60) == 1_152_921_504_606_846_976,
        decreases b,
    {
        let half: u64 = width / 2;
        b = b - 1;
        proof {
            assert(width == 2 * half);
            lemma_power_positive(2, b as nat);
        }
        let p = d.times(m + half, 0);
        match p.against(n) {
            Side::Above => {},
            _ => {
                assert(d@ * (m + half + half) == d@ * (m + width));
                m = m + half;
            },
        }
        width = half;
    }
    proof {
        let q = n@ - d@ * m;
        assert(d@ * (m + 1) == d@ * m + d@) by (nonlinear_arith);
        assert(m * d@ == d@ * m) by (nonlinear_arith);
        vstd::arithmetic::div_mod::lemma_fundamental_div_mod_converse(
            n@ as int,
            d@ as int,
            m as int,
            q,
        );
    }
    m
}

/// Where twice the rest of a division, whose whole part is given, lies to the
/// divisor.
pub fn rest_against_half(n: &Big, d: &Big, q: u64) -> (r: Side)
    requires
        d@ > 0,
        q == n@ / d@,
        q < power(2, 60),
    ensures
        r == side_of(2 * (n@ % d@), d@),
{
    proof {
        lemma_power_53();
        vstd::arithmetic::div_mod::lemma_fundamental_div_mod(n@ as int, d@ as int);
        let rest = n@ % d@;
        assert(n@ * 2 == d@ * (2 * q + 1) + (2 * rest - d@)) by (nonlinear_arith)
            requires
                n@ == d@ * q + rest,
        ;
    }
    let twice = n.times(2, 0);
    let middle = d.times(2 * q + 1, 0);
    twice.against(&middle)
}

/// The double that is nearest to a fraction.
pub fn nearest_double(num: &Big, den: &Big) -> (r: Option<Binary>)
    requires
        den@ > 0,
    ensures
        match r {
            Some(b) => nearest(num@, den@) == Some(b@),
            None => nearest(num@, den@) is None,
        },
{
    let n = num.times_power(2, 1074);
    let mut d = den.times(1, 0);
    let mut t = den.times_power(2, 53);
    let mut e: usize = 0;
    proof {
        lemma_power_53();
        assert(den@ * 1 == den@ && den@ * power(2, 0) == den@) by {
            assert(power(2, 0) == 1);
            assert(den@ * 1 == den@) by (nonlinear_arith);
        }
        assert(den@ * power(2, 53) > 0) by (nonlinear_arith)
            requires
                den@ > 0,
                power(2, 53) > 0,
        ;
    }
    loop
        invariant
            e <= EXPONENT_END,
            n@ == num@ * power(2, 1074),
            d@ == den@ * power(2, e as nat),
            d@ > 0,
            t@ == d@ * power(2, 53),
            scale(n@, den@ * power(2, 53), 0) == scale(n@, t@, e as nat),
        ensures
            e < EXPONENT_END,
            n@ < t@,
        decreases EXPONENT_END - e,
    {
        if e == EXPONENT_END {
            return None;
        }
        if n.is_below(&t) {
            break;
        }
        proof {
            let p = power(2, e as nat);
            let w = power(2, 53);
            assert((den@ * p) * 2 == den@ * (2 * p)) by (nonlinear_arith);
            assert((d@ * w) * 2 == (d@ * 2) * w) by (nonlinear_arith);
        }
        d = d.times(2, 0);
        t = t.times(2, 0);
        e = e + 1;
    }
    proof {
        lemma_power_53();
        lemma_power_rises(2, 53, 60);
        assert(d@ * power(2, 53) <= d@ * power(2, 60)) by (nonlinear_arith)
            requires
                power(2, 53) <= power(2, 60),
        ;
    }
    let q = quotient(&n, &d);
    let up = match rest_against_half(&n, &d, q) {
        Side::Below => false,
        Side::Same => q % 2 == 1,
        Side::Above => true,
    };
    let m: u64 = if up {
        q + 1
    } else {
        q
    };
    if m < 9_007_199_254_740_992 {
        Some(Binary { mantissa: m, exponent: e })
    } else if e + 1 < EXPONENT_END {
        Some(Binary { mantissa: 4_503_599_627_370_496, exponent: e + 1 })
    } else {
        None
    }
}

pub proof fn lemma_nearest(num: nat, den: nat)
    ensures
        nearest(num, den) matches Some(v) ==> v.well_formed(),
{
    lemma_power_53();
    let n = num * power(2, 1074);
    lemma_scale(n, den * power(2, 53), 0);
}

proof fn lemma_scale(n: nat, t: nat, e: nat)
    ensures
        scale(n, t, e) matches Some(k) ==> k < EXPONENT_END,
    decreases EXPONENT_END - e,
{
    if e < EXPONENT_END && n >= t {
        lemma_scale(n, 2 * t, e + 1);
    }
}

/// The bits of a double: from the highest on the sign, the exponent and the
/// mantissa without its leading one.
pub open spec fn bits_of(v: Double, negative: bool) -> nat {
    let size = if v.mantissa < power(2, 52) {
        v.mantissa
    } else {
        v.exponent * power(2, 52) + v.mantissa
    };
    if negative {
        size + power(2, 63)
    } else {
        size
    }
}

impl Binary {
    pub fn bits(&self, negative: bool) -> (r: u64)
        requires
            self@.well_formed(),
        ensures
            r == bits_of(self@, negative),
    {
        proof {
            lemma_power_53();
            lemma_power_sum(2, 60, 3);
            assert(power(2, 3) == 8) by {
                reveal_with_fuel(power, 4);
            }
        }
        let size: u64 = if self.mantissa < 4_503_599_627_370_496 {
            self.mantissa
        } else {
            self.exponent as u64 * 4_503_599_627_370_496 + self.mantissa
        };
        if negative {
            size + 0x8000_0000_0000_0000
        } else {
            size
        }
    }
}

} // verus!
