//! Binary interchange formats of IEEE 754, handled through their bit
//! patterns: rounding a decimal to the nearest value, and comparing values.

use crate::bignat::{lemma_power_add, lemma_power_positive, power, BigNat};
use vstd::prelude::*;

verus! {

/// A binary interchange format.
#[derive(Clone, Copy)]
pub struct Format {
    /// Two to the number of stored significand bits.
    pub frac: u64,
    /// The smallest positive value is two to the minus `min_exp`.
    pub min_exp: u32,
    /// Bit pattern of positive infinity.
    pub inf: u64,
}

/// The 64-bit format.
pub open spec fn binary64() -> Format {
    Format { frac: 0x10_0000_0000_0000, min_exp: 1074, inf: 0x7ff0_0000_0000_0000 }
}

/// The 32-bit format.
pub open spec fn binary32() -> Format {
    Format { frac: 0x80_0000, min_exp: 149, inf: 0x7f80_0000 }
}

/// The 64-bit format.
pub fn format64() -> (r: Format)
    ensures
        r == binary64(),
{
    Format { frac: 0x10_0000_0000_0000, min_exp: 1074, inf: 0x7ff0_0000_0000_0000 }
}

/// The 32-bit format.
pub fn format32() -> (r: Format)
    ensures
        r == binary32(),
{
    Format { frac: 0x80_0000, min_exp: 149, inf: 0x7f80_0000 }
}

impl Format {
    pub open spec fn wf(self) -> bool {
        self == binary64() || self == binary32()
    }

    /// The significand of the finite magnitude `b`, as an integer.
    pub open spec fn significand(self, b: nat) -> nat {
        if b / (self.frac as nat) == 0 {
            b % (self.frac as nat)
        } else {
            b % (self.frac as nat) + self.frac as nat
        }
    }

    /// The power of two that scales the significand of `b`, counted from
    /// the smallest.
    pub open spec fn shift(self, b: nat) -> nat {
        if b / (self.frac as nat) == 0 {
            0
        } else {
            (b / (self.frac as nat) - 1) as nat
        }
    }

    /// The value of the magnitude `b`, in units of the smallest positive
    /// value.
    pub open spec fn units(self, b: nat) -> nat {
        self.significand(b) * power(2, self.shift(b))
    }

    /// The midpoint of the magnitudes `b` and `b + 1`, in half units.
    pub open spec fn midpoint(self, b: nat) -> nat {
        (2 * self.significand(b) + 1) * power(2, self.shift(b))
    }

    /// Whether `digits / 10^scale` is rounded to `b` or to something larger.
    pub open spec fn reaches(self, digits: nat, scale: nat, b: nat) -> bool {
        let x = digits * power(2, (self.min_exp + 1) as nat);
        let m = self.midpoint((b - 1) as nat) * power(10, scale);
        x > m || (x == m && b % 2 == 0)
    }

    /// Whether `b` is the magnitude nearest to `digits / 10^scale`, the even
    /// one of two that are equally near.
    pub open spec fn is_nearest(self, digits: nat, scale: nat, b: nat) -> bool {
        &&& b <= self.inf
        &&& b > 0 ==> self.reaches(digits, scale, b)
        &&& b < self.inf ==> !self.reaches(digits, scale, b + 1)
    }

    /// The magnitude nearest to `digits / 10^scale`.
    pub open spec fn nearest(self, digits: nat, scale: nat) -> nat {
        choose|b: nat| self.is_nearest(digits, scale, b)
    }
}

/// One step up in magnitude adds the unit of the lower neighbour.
pub proof fn lemma_units_step(f: Format, b: nat)
    requires
        f.wf(),
    ensures
        f.units(b + 1) == f.units(b) + power(2, f.shift(b)),
        f.midpoint(b) == 2 * f.units(b) + power(2, f.shift(b)),
        power(2, f.shift(b)) > 0,
{
    let d = f.frac as nat;
    let q = b / d;
    let r = b % d;
    let p = power(2, f.shift(b));
    lemma_power_positive(2, f.shift(b));
    assert(b == q * d + r && r < d) by (nonlinear_arith)
        requires
            q == b / d,
            r == b % d,
            d > 0,
    ;
    let s = f.significand(b);
    assert((2 * s + 1) * p == 2 * (s * p) + p) by (nonlinear_arith);
    if r + 1 < d {
        assert((b + 1) / d == q && (b + 1) % d == r + 1) by (nonlinear_arith)
            requires
                b + 1 == q * d + (r + 1),
                r + 1 < d,
                d > 0,
                q >= 0,
                r >= 0,
        ;
        assert((s + 1) * p == s * p + p) by (nonlinear_arith);
    } else {
        assert((q + 1) * d == q * d + d) by (nonlinear_arith);
        assert((b + 1) / d == q + 1 && (b + 1) % d == 0) by (nonlinear_arith)
            requires
                b + 1 == (q + 1) * d,
                d > 0,
                q >= 0,
        {
            assert(b + 1 == d * (q + 1) + 0) by (nonlinear_arith)
                requires
                    b + 1 == (q + 1) * d,
            ;
            vstd::arithmetic::div_mod::lemma_fundamental_div_mod_converse((b + 1) as int, d as int, (q + 1) as int, 0);
        }
        if q == 0 {
            assert(d * 1 == (d - 1) * 1 + 1);
            assert(power(2, 0) == 1);
            assert(s == d - 1);
            assert(f.significand(b + 1) == d);
            assert(d * power(2, 0) == d && s * power(2, 0) == s) by (nonlinear_arith)
                requires
                    power(2, 0) == 1,
            ;
        } else {
            assert(s == 2 * d - 1);
            assert(f.significand(b + 1) == d);
            assert(f.shift(b + 1) == f.shift(b) + 1);
            assert(power(2, f.shift(b + 1)) == 2 * p);
            assert(d * (2 * p) == s * p + p) by (nonlinear_arith)
                requires
                    s == 2 * d - 1,
            ;
        }
    }
}

proof fn lemma_reaches_below(f: Format, digits: nat, scale: nat, b: nat)
    requires
        f.wf(),
        b > 0,
        f.reaches(digits, scale, b + 1),
    ensures
        f.reaches(digits, scale, b),
{
    let a = (b - 1) as nat;
    lemma_units_step(f, a);
    lemma_units_step(f, b);
    lemma_power_positive(10, scale);
    let t = power(10, scale);
    assert(f.midpoint(a) * t < f.midpoint(b) * t) by (nonlinear_arith)
        requires
            f.midpoint(a) < f.midpoint(b),
            t > 0,
    ;
    assert((b + 1 - 1) as nat == b);
}

proof fn lemma_reaches_all_below(f: Format, digits: nat, scale: nat, b: nat, c: nat)
    requires
        f.wf(),
        0 < b <= c,
        f.reaches(digits, scale, c),
    ensures
        f.reaches(digits, scale, b),
    decreases c - b,
{
    if b < c {
        lemma_reaches_all_below(f, digits, scale, b + 1, c);
        lemma_reaches_below(f, digits, scale, b);
    }
}

/// The nearest magnitude is unique.
pub proof fn lemma_nearest_unique(f: Format, digits: nat, scale: nat, b: nat, c: nat)
    requires
        f.wf(),
        f.is_nearest(digits, scale, b),
        f.is_nearest(digits, scale, c),
    ensures
        b == c,
{
    if b < c {
        lemma_reaches_all_below(f, digits, scale, b + 1, c);
    } else if c < b {
        lemma_reaches_all_below(f, digits, scale, c + 1, b);
    }
}

/// What is nearest to a decimal depends on its value alone, not on how many
/// trailing zeros it is written with.
pub proof fn lemma_nearest_rescaled(f: Format, digits: nat, scale: nat, extra: nat, b: nat)
    requires
        f.wf(),
    ensures
        f.is_nearest(digits * power(10, extra), scale + extra, b) == f.is_nearest(digits, scale, b),
{
    lemma_reaches_rescaled(f, digits, scale, extra, b);
    lemma_reaches_rescaled(f, digits, scale, extra, b + 1);
}

proof fn lemma_reaches_rescaled(f: Format, digits: nat, scale: nat, extra: nat, b: nat)
    ensures
        f.reaches(digits * power(10, extra), scale + extra, b) == f.reaches(digits, scale, b),
{
    let t = power(10, extra);
    lemma_power_positive(10, extra);
    lemma_power_add(10, scale, extra);
    let p = power(2, (f.min_exp + 1) as nat);
    let m = f.midpoint((b - 1) as nat);
    let s = power(10, scale);
    assert((digits * t) * p == (digits * p) * t) by (nonlinear_arith);
    assert(m * (s * t) == (m * s) * t) by (nonlinear_arith);
    let x = digits * p;
    let y = m * s;
    assert((x * t > y * t) == (x > y) && (x * t == y * t) == (x == y)) by (nonlinear_arith)
        requires
            t > 0,
    ;
}

/// The significand and the shift of the finite magnitude `b`.
pub fn decode(f: Format, b: u64) -> (r: (u64, u32))
    requires
        f.wf(),
        b < f.inf,
    ensures
        r.0 == f.significand(b as nat),
        r.1 == f.shift(b as nat),
        r.0 < 0x20_0000_0000_0000,
        r.1 <= 2046,
{
    let high: u64 = b / f.frac;
    let low: u64 = b % f.frac;
    assert(high <= 2047) by (nonlinear_arith)
        requires
            high == b / f.frac,
            b < f.inf,
            f.wf(),
    ;
    if high == 0 {
        (low, 0)
    } else {
        (low + f.frac, (high - 1) as u32)
    }
}

/// Whether the decimal whose digits, scaled by two to the `min_exp + 1`, are
/// `lhs` is rounded to `b` or to something larger.
fn reaches(f: Format, Ghost(digits): Ghost<nat>, lhs: &BigNat, scale: u64, b: u64) -> (r: bool)
    requires
        f.wf(),
        0 < b <= f.inf,
        lhs@ == digits * power(2, (f.min_exp + 1) as nat),
    ensures
        r == f.reaches(digits, scale as nat, b as nat),
{
    let a: u64 = b - 1;
    let (sig, shift): (u64, u32) = decode(f, a);
    let mut rhs: BigNat = BigNat::from_u64(2 * sig + 1);
    rhs.scale_power(2, shift as u64);
    assert(rhs@ == f.midpoint(a as nat));
    rhs.scale_power(10, scale);
    if b % 2 == 0 {
        !lhs.less_than(&rhs)
    } else {
        rhs.less_than(lhs)
    }
}

/// Whether `b` is the magnitude nearest to `digits / 10^scale`.
pub fn is_nearest(f: Format, digits: &BigNat, scale: u64, b: u64) -> (r: bool)
    requires
        f.wf(),
        0 < b < f.inf,
    ensures
        r == f.is_nearest(digits@, scale as nat, b as nat),
{
    let mut lhs: BigNat = digits.copy();
    lhs.scale_power(2, f.min_exp as u64 + 1);
    reaches(f, Ghost(digits@), &lhs, scale, b) && !reaches(
        f,
        Ghost(digits@),
        &lhs,
        scale,
        b + 1,
    )
}

/// The magnitude nearest to `digits / 10^scale`.
pub fn round(f: Format, digits: &BigNat, scale: u64) -> (r: u64)
    requires
        f.wf(),
    ensures
        r == f.nearest(digits@, scale as nat),
        f.is_nearest(digits@, scale as nat, r as nat),
{
    let mut lhs: BigNat = digits.copy();
    lhs.scale_power(2, f.min_exp as u64 + 1);
    let mut lo: u64 = 0;
    let mut hi: u64 = f.inf + 1;
    while hi - lo > 1
        invariant
            f.wf(),
            lo < hi <= f.inf + 1,
            lhs@ == digits@ * power(2, (f.min_exp + 1) as nat),
            lo > 0 ==> f.reaches(digits@, scale as nat, lo as nat),
            hi <= f.inf ==> !f.reaches(digits@, scale as nat, hi as nat),
        decreases hi - lo,
    {
        let mid: u64 = lo + (hi - lo) / 2;
        if reaches(f, Ghost(digits@), &lhs, scale, mid) {
            lo = mid;
        } else {
            hi = mid;
        }
    }
    proof {
        assert(f.is_nearest(digits@, scale as nat, lo as nat));
        lemma_nearest_unique(
            f,
            digits@,
            scale as nat,
            lo as nat,
            f.nearest(digits@, scale as nat),
        );
    }
    lo
}

/// Whether the sign bit of `b` is set.
pub open spec fn is_negative64(b: u64) -> bool {
    b >= 0x8000_0000_0000_0000
}

/// The bits of `b` without its sign.
pub open spec fn magnitude64(b: u64) -> nat {
    (b % 0x8000_0000_0000_0000) as nat
}

/// Whether the sign bit of `b` is set.
pub open spec fn is_negative32(b: u32) -> bool {
    b >= 0x8000_0000
}

/// The bits of `b` without its sign.
pub open spec fn magnitude32(b: u32) -> nat {
    (b % 0x8000_0000) as nat
}

// ----- Comparison -----

pub open spec fn is_nan64(b: u64) -> bool {
    magnitude64(b) > binary64().inf
}

/// A number that orders 64-bit values: both zeros are 0, and a larger
/// magnitude is farther from 0.
pub open spec fn order64(b: u64) -> int {
    if is_negative64(b) {
        -(magnitude64(b) as int)
    } else {
        magnitude64(b) as int
    }
}

/// Whether two 64-bit values are equal. NaN is equal to nothing.
pub open spec fn equal64(a: u64, b: u64) -> bool {
    !is_nan64(a) && !is_nan64(b) && order64(a) == order64(b)
}

pub open spec fn is_nan32(b: u32) -> bool {
    magnitude32(b) > binary32().inf
}

/// A number that orders 32-bit values.
pub open spec fn order32(b: u32) -> int {
    if is_negative32(b) {
        -(magnitude32(b) as int)
    } else {
        magnitude32(b) as int
    }
}

/// Whether `a >= b`. NaN compares with nothing.
pub open spec fn at_least32(a: u32, b: u32) -> bool {
    !is_nan32(a) && !is_nan32(b) && order32(a) >= order32(b)
}

/// The 64-bit value nearest to the integer `n`.
pub open spec fn from_integer(n: int) -> u64 {
    let m = binary64().nearest(
        if n < 0 {
            (-n) as nat
        } else {
            n as nat
        },
        0,
    );
    (if n < 0 {
        m + 0x8000_0000_0000_0000
    } else {
        m
    }) as u64
}

/// The value of the finite `b`, in units of the smallest positive value.
pub open spec fn signed_units64(b: u64) -> int {
    if is_negative64(b) {
        -(binary64().units(magnitude64(b)) as int)
    } else {
        binary64().units(magnitude64(b)) as int
    }
}

/// Larger magnitudes stand for larger values.
pub proof fn lemma_units_grow(f: Format, a: nat, b: nat)
    requires
        f.wf(),
        a < b,
    ensures
        f.units(a) < f.units(b),
    decreases b - a,
{
    lemma_units_step(f, (b - 1) as nat);
    if a + 1 < b {
        lemma_units_grow(f, a, (b - 1) as nat);
    }
}

/// Comparing bit patterns by `order64` compares the values that they stand
/// for.
pub proof fn law_order_of_values(a: u64, b: u64)
    requires
        magnitude64(a) < binary64().inf,
        magnitude64(b) < binary64().inf,
    ensures
        order64(a) < order64(b) <==> signed_units64(a) < signed_units64(b),
        order64(a) == order64(b) <==> signed_units64(a) == signed_units64(b),
{
    let f = binary64();
    let m = magnitude64(a);
    let n = magnitude64(b);
    if m < n {
        lemma_units_grow(f, m, n);
    }
    if n < m {
        lemma_units_grow(f, n, m);
    }
    assert(f.units(0) == 0) by {
        assert(f.significand(0) == 0);
        assert(0 * power(2, f.shift(0)) == 0);
    }
    if 0 < m {
        lemma_units_grow(f, 0, m);
    }
    if 0 < n {
        lemma_units_grow(f, 0, n);
    }
}

/// The value of the finite `b`, in units of the smallest positive value.
pub open spec fn signed_units32(b: u32) -> int {
    if is_negative32(b) {
        -(binary32().units(magnitude32(b)) as int)
    } else {
        binary32().units(magnitude32(b)) as int
    }
}

/// The same of 32-bit values and `order32`.
pub proof fn law_order_of_values32(a: u32, b: u32)
    requires
        magnitude32(a) < binary32().inf,
        magnitude32(b) < binary32().inf,
    ensures
        order32(a) < order32(b) <==> signed_units32(a) < signed_units32(b),
        order32(a) == order32(b) <==> signed_units32(a) == signed_units32(b),
{
    let f = binary32();
    let m = magnitude32(a);
    let n = magnitude32(b);
    if m < n {
        lemma_units_grow(f, m, n);
    }
    if n < m {
        lemma_units_grow(f, n, m);
    }
    assert(f.units(0) == 0) by {
        assert(f.significand(0) == 0);
        assert(0 * power(2, f.shift(0)) == 0);
    }
    if 0 < m {
        lemma_units_grow(f, 0, m);
    }
    if 0 < n {
        lemma_units_grow(f, 0, n);
    }
}

/// A number that orders 64-bit values.
pub fn exec_order64(b: u64) -> (r: i64)
    ensures
        r == order64(b),
{
    let m: u64 = b % 0x8000_0000_0000_0000;
    if b >= 0x8000_0000_0000_0000 {
        -(m as i64)
    } else {
        m as i64
    }
}

pub fn exec_is_nan64(b: u64) -> (r: bool)
    ensures
        r == is_nan64(b),
{
    b % 0x8000_0000_0000_0000 > 0x7ff0_0000_0000_0000
}

/// Whether two 64-bit values are equal.
pub fn exec_equal64(a: u64, b: u64) -> (r: bool)
    ensures
        r == equal64(a, b),
{
    !exec_is_nan64(a) && !exec_is_nan64(b) && exec_order64(a) == exec_order64(b)
}

/// A number that orders 32-bit values.
pub fn exec_order32(b: u32) -> (r: i64)
    ensures
        r == order32(b),
{
    let m: u32 = b % 0x8000_0000;
    if b >= 0x8000_0000 {
        -(m as i64)
    } else {
        m as i64
    }
}

/// Whether `a >= b`.
pub fn exec_at_least32(a: u32, b: u32) -> (r: bool)
    ensures
        r == at_least32(a, b),
{
    a % 0x8000_0000 <= 0x7f80_0000 && b % 0x8000_0000 <= 0x7f80_0000 && exec_order32(a)
        >= exec_order32(b)
}

/// The 64-bit value nearest to the integer `n`.
pub fn exec_from_integer(n: i64) -> (r: u64)
    ensures
        r == from_integer(n as int),
{
    let neg: bool = n < 0;
    let m: u64 = if n == i64::MIN {
        0x8000_0000_0000_0000
    } else if neg {
        (-n) as u64
    } else {
        n as u64
    };
    let digits: BigNat = BigNat::from_u64(m);
    let b: u64 = round(format64(), &digits, 0);
    if neg {
        b + 0x8000_0000_0000_0000
    } else {
        b
    }
}

} // verus!
