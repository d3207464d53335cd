//! Natural numbers of any size.
use vstd::prelude::*;

verus! {

pub const BASE: u128 = 0x1_0000_0000_0000_0000;

/// The power of a number.
pub open spec fn power(b: nat, n: nat) -> nat
    decreases n,
{
    if n == 0 {
        1
    } else {
        b * power(b, (n - 1) as nat)
    }
}

/// The digit at a position; zero behind the last one.
pub open spec fn limb(s: Seq<u64>, i: int) -> nat {
    if 0 <= i < s.len() {
        s[i] as nat
    } else {
        0
    }
}

/// What the lowest `n` digits stand for.
pub open spec fn sum(s: Seq<u64>, n: nat) -> nat
    decreases n,
{
    if n == 0 {
        0
    } else {
        sum(s, (n - 1) as nat) + limb(s, n - 1) * power(BASE as nat, (n - 1) as nat)
    }
}

/// A natural number, as its digits to the base 2^64, the lowest first.
pub struct Big {
    pub limbs: Vec<u64>,
}

impl View for Big {
    type V = nat;

    open spec fn view(&self) -> nat {
        sum(self.limbs@, self.limbs@.len())
    }
}

/// Where one number lies to another.
#[derive(Clone, Copy, Debug, PartialEq, Eq, Structural)]
pub enum Side {
    Below,
    Same,
    Above,
}

pub open spec fn side_of(a: nat, b: nat) -> Side {
    if a < b {
        Side::Below
    } else if a == b {
        Side::Same
    } else {
        Side::Above
    }
}

pub proof fn lemma_power_positive(b: nat, n: nat)
    requires
        b > 0,
    ensures
        power(b, n) > 0,
    decreases n,
{
    if n > 0 {
        lemma_power_positive(b, (n - 1) as nat);
        assert(b * power(b, (n - 1) as nat) > 0) by (nonlinear_arith)
            requires
                b > 0,
                power(b, (n - 1) as nat) > 0,
        ;
    }
}

pub proof fn lemma_power_sum(b: nat, m: nat, n: nat)
    ensures
        power(b, m + n) == power(b, m) * power(b, n),
    decreases n,
{
    let p = power(b, m);
    if n == 0 {
        assert(p * 1 == p) by (nonlinear_arith);
    } else {
        let q = power(b, (n - 1) as nat);
        lemma_power_sum(b, m, (n - 1) as nat);
        assert(b * (p * q) == p * (b * q)) by (nonlinear_arith);
    }
}

pub proof fn lemma_power_order(b: nat, c: nat, n: nat)
    requires
        b <= c,
    ensures
        power(b, n) <= power(c, n),
    decreases n,
{
    if n > 0 {
        lemma_power_order(b, c, (n - 1) as nat);
        let p = power(b, (n - 1) as nat);
        let q = power(c, (n - 1) as nat);
        assert(b * p <= c * q) by (nonlinear_arith)
            requires
                b <= c,
                p <= q,
        ;
    }
}

pub proof fn lemma_power_rises(b: nat, m: nat, n: nat)
    requires
        b > 0,
        m <= n,
    ensures
        power(b, m) <= power(b, n),
{
    let d = (n - m) as nat;
    lemma_power_sum(b, m, d);
    lemma_power_positive(b, d);
    let p = power(b, m);
    let q = power(b, d);
    assert(p <= p * q) by (nonlinear_arith)
        requires
            q >= 1,
    ;
}

proof fn lemma_same_sum(s: Seq<u64>, t: Seq<u64>, n: nat)
    requires
        forall|i: int| 0 <= i < n ==> limb(s, i) == limb(t, i),
    ensures
        sum(s, n) == sum(t, n),
    decreases n,
{
    if n > 0 {
        lemma_same_sum(s, t, (n - 1) as nat);
        assert(limb(s, n - 1) == limb(t, n - 1));
    }
}

proof fn lemma_sum_end(s: Seq<u64>, n: nat)
    requires
        n >= s.len(),
    ensures
        sum(s, n) == sum(s, s.len()),
    decreases n,
{
    if n > s.len() {
        lemma_sum_end(s, (n - 1) as nat);
        assert(0 * power(BASE as nat, (n - 1) as nat) == 0) by (nonlinear_arith);
    }
}

proof fn lemma_sum_bound(s: Seq<u64>, n: nat)
    ensures
        sum(s, n) < power(BASE as nat, n),
    decreases n,
{
    if n > 0 {
        lemma_sum_bound(s, (n - 1) as nat);
        let w = power(BASE as nat, (n - 1) as nat);
        let d = limb(s, n - 1);
        assert(d < BASE);
        assert(d * w + w <= BASE * w) by (nonlinear_arith)
            requires
                d + 1 <= BASE,
        ;
    }
}

proof fn lemma_push(s: Seq<u64>, d: u64)
    ensures
        sum(s.push(d), s.len() + 1) == sum(s, s.len()) + d * power(BASE as nat, s.len()),
{
    lemma_same_sum(s.push(d), s, s.len());
}

/// The sixteenth power of a small number.
fn sixteenth(k: u64) -> (r: u64)
    requires
        k <= 10,
    ensures
        r == power(k as nat, 16),
{
    let mut r: u64 = 1;
    let mut i: usize = 0;
    while i < 16
        invariant
            i <= 16,
            k <= 10,
            r == power(k as nat, i as nat),
            r <= 10_000_000_000_000_000,
        decreases 16 - i,
    {
        proof {
            lemma_power_order(k as nat, 10, (i + 1) as nat);
            lemma_power_rises(10, (i + 1) as nat, 16);
            assert(power(10, 16) == 10_000_000_000_000_000) by {
                reveal_with_fuel(power, 17);
            }
            assert(k * r == r * k) by (nonlinear_arith);
        }
        r = r * k;
        i = i + 1;
    }
    r
}

impl Big {
    pub fn small(n: u64) -> (r: Big)
        ensures
            r@ == n,
    {
        let mut limbs: Vec<u64> = Vec::new();
        proof {
            lemma_push(limbs@, n);
            assert(n * 1 == n) by (nonlinear_arith);
        }
        limbs.push(n);
        Big { limbs }
    }

    /// The number times `k`, and `more` added.
    pub fn times(&self, k: u64, more: u64) -> (r: Big)
        ensures
            r@ == self@ * k + more,
    {
        let mut out: Vec<u64> = Vec::new();
        let mut carry: u64 = more;
        let mut i: usize = 0;
        proof {
            assert(more * 1 == more && 0 * k == 0) by (nonlinear_arith);
        }
        while i < self.limbs.len()
            invariant
                i <= self.limbs@.len(),
                out@.len() == i,
                sum(out@, i as nat) + carry * power(BASE as nat, i as nat) == sum(
                    self.limbs@,
                    i as nat,
                ) * k + more,
            decreases self.limbs@.len() - i,
        {
            let d = self.limbs[i];
            assert(d * k <= 0xffff_ffff_ffff_ffff * 0xffff_ffff_ffff_ffff) by (nonlinear_arith)
                requires
                    d <= 0xffff_ffff_ffff_ffff,
                    k <= 0xffff_ffff_ffff_ffff,
            ;
            let t: u128 = d as u128 * k as u128 + carry as u128;
            let lo: u64 = (t % BASE) as u64;
            let hi: u64 = (t / BASE) as u64;
            proof {
                let w = power(BASE as nat, i as nat);
                let o = sum(out@, i as nat);
                let s = sum(self.limbs@, i as nat);
                lemma_push(out@, lo);
                assert(t == lo + hi * BASE);
                assert(o + lo * w + hi * (BASE * w) == (s + d * w) * k + more) by (nonlinear_arith)
                    requires
                        o + carry * w == s * k + more,
                        d * k + carry == lo + hi * BASE,
                ;
            }
            out.push(lo);
            carry = hi;
            i = i + 1;
        }
        if carry != 0 {
            proof {
                lemma_push(out@, carry);
            }
            out.push(carry);
        } else {
            assert(0 * power(BASE as nat, i as nat) == 0) by (nonlinear_arith);
        }
        Big { limbs: out }
    }

    /// The number times a power of `k`.
    pub fn times_power(&self, k: u64, n: u128) -> (r: Big)
        requires
            0 < k <= 10,
        ensures
            r@ == self@ * power(k as nat, n as nat),
    {
        let k16: u64 = sixteenth(k);
        let mut r = self.times(1, 0);
        let mut i: u128 = 0;
        proof {
            assert(self@ * 1 == self@) by (nonlinear_arith);
        }
        while i < n
            invariant
                i <= n,
                k16 == power(k as nat, 16),
                r@ == self@ * power(k as nat, i as nat),
            decreases n - i,
        {
            let ghost p = power(k as nat, i as nat);
            if n - i >= 16 {
                proof {
                    lemma_power_sum(k as nat, i as nat, 16);
                    assert((self@ * p) * k16 == self@ * (p * k16)) by (nonlinear_arith);
                }
                r = r.times(k16, 0);
                i = i + 16;
            } else {
                assert((self@ * p) * k == self@ * (k * p)) by (nonlinear_arith);
                r = r.times(k, 0);
                i = i + 1;
            }
        }
        r
    }

    /// Where the number lies to another.
    pub fn against(&self, other: &Big) -> (r: Side)
        ensures
            r == side_of(self@, other@),
    {
        let a: usize = self.limbs.len();
        let b: usize = other.limbs.len();
        let mut i: usize = if a < b {
            b
        } else {
            a
        };
        proof {
            lemma_sum_end(self.limbs@, i as nat);
            lemma_sum_end(other.limbs@, i as nat);
        }
        while i > 0
            invariant
                a == self.limbs@.len(),
                b == other.limbs@.len(),
                self@ - other@ == sum(self.limbs@, i as nat) - sum(other.limbs@, i as nat),
            decreases i,
        {
            i = i - 1;
            let x: u64 = if i < a {
                self.limbs[i]
            } else {
                0
            };
            let y: u64 = if i < b {
                other.limbs[i]
            } else {
                0
            };
            let ghost w = power(BASE as nat, i as nat);
            proof {
                lemma_sum_bound(self.limbs@, i as nat);
                lemma_sum_bound(other.limbs@, i as nat);
            }
            if x < y {
                assert(x * w + w <= y * w) by (nonlinear_arith)
                    requires
                        x + 1 <= y,
                ;
                return Side::Below;
            }
            if y < x {
                assert(y * w + w <= x * w) by (nonlinear_arith)
                    requires
                        y + 1 <= x,
                ;
                return Side::Above;
            }
        }
        Side::Same
    }

    pub fn is_below(&self, other: &Big) -> (r: bool)
        ensures
            r == (self@ < other@),
    {
        match self.against(other) {
            Side::Below => true,
            _ => false,
        }
    }
}

} // verus!
