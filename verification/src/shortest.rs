//! The shortest decimal that rounds to a given binary floating-point value,
//! and its text.

use crate::bignat::{lemma_power_add, lemma_power_positive, power, BigNat};
use crate::ieee::{
    binary64, decode, is_nearest, lemma_nearest_rescaled, lemma_nearest_unique, lemma_units_step,
    Format,
};
use crate::text::{
    all_digits, lemma_numeral, lemma_numeral_value_concat, lemma_zeros_value, numeral,
    numeral_value, push_numeral, push_zeros, zeros,
};
use vstd::prelude::*;

verus! {

/// Decimals are written here as a whole number of `10^(e - SPAN)`. Every
/// exponent that a value of either format needs is then a natural number.
pub const SPAN: u32 = 400;

/// The value of the magnitude `b`, in units of `10^-SPAN` times the smallest
/// positive value.
pub open spec fn stretched(f: Format, b: nat) -> nat {
    f.units(b) * power(10, SPAN as nat)
}

/// `10^(e - SPAN)`, in the units of `stretched`.
pub open spec fn decimal_unit(f: Format, e: nat) -> nat {
    power(10, e) * power(2, f.min_exp as nat)
}

/// Whether the leading digit of the magnitude `b` has the weight
/// `10^(e - SPAN)`.
pub open spec fn leads(f: Format, b: nat, e: nat) -> bool {
    decimal_unit(f, e) <= stretched(f, b) < decimal_unit(f, e + 1)
}

/// Whether the decimal `c * 10^(e - SPAN)` rounds to the magnitude `b`.
pub open spec fn denotes(f: Format, b: nat, c: nat, e: nat) -> bool {
    f.is_nearest(c * power(10, e), SPAN as nat, b)
}

/// The multiple of `10^(e - SPAN)` that stands for `b`, if the one just below
/// or the one just above does: of two that do, the nearer, and of two equally
/// near the larger.
pub open spec fn candidate(f: Format, b: nat, e: nat) -> Option<nat> {
    let v = stretched(f, b);
    let u = decimal_unit(f, e);
    let c = v / u;
    let up = denotes(f, b, c + 1, e);
    if denotes(f, b, c, e) && !(up && 2 * (v - c * u) >= u) {
        Some(c)
    } else if up {
        Some(c + 1)
    } else {
        None
    }
}

/// The coarsest decimal with a weight of at most `10^(e - SPAN)` that rounds
/// to `b`, as a coefficient and the exponent of its unit.
pub open spec fn coarsest(f: Format, b: nat, e: nat) -> (nat, nat)
    decreases e,
{
    match candidate(f, b, e) {
        Some(c) => (c, e),
        None => if e == 0 {
            (0, 0)
        } else {
            coarsest(f, b, (e - 1) as nat)
        },
    }
}

/// `c` and `e` with the trailing zeros of `c` moved into the exponent.
pub open spec fn trimmed(c: nat, e: nat) -> (nat, nat)
    decreases c,
{
    if c > 0 && c % 10 == 0 {
        trimmed(c / 10, e + 1)
    } else {
        (c, e)
    }
}

/// The digits of `c * 10^(e - SPAN)` before the decimal point.
pub open spec fn whole_part(c: nat, e: nat) -> Seq<char> {
    let ds = numeral(c);
    if e >= SPAN {
        ds + zeros((e - SPAN) as nat)
    } else if ds.len() > SPAN - e {
        ds.take(ds.len() - (SPAN - e))
    } else {
        seq!['0']
    }
}

/// The digits of `c * 10^(e - SPAN)` after the decimal point, at least one.
pub open spec fn fraction_part(c: nat, e: nat) -> Seq<char> {
    let ds = numeral(c);
    if e >= SPAN {
        seq!['0']
    } else if ds.len() > SPAN - e {
        ds.skip(ds.len() - (SPAN - e))
    } else {
        zeros((SPAN - e - ds.len()) as nat) + ds
    }
}

/// The shortest decimal of the finite magnitude `b`.
pub open spec fn shortest(f: Format, b: nat) -> (nat, nat) {
    let e = choose|e: nat| leads(f, b, e);
    let (c, x) = coarsest(f, b, e);
    trimmed(c, x)
}

/// The digits of the finite magnitude `b` before the decimal point.
pub open spec fn magnitude_whole(f: Format, b: nat) -> Seq<char> {
    if b == 0 {
        seq!['0']
    } else {
        whole_part(shortest(f, b).0, shortest(f, b).1)
    }
}

/// The digits of the finite magnitude `b` after the decimal point.
pub open spec fn magnitude_fraction(f: Format, b: nat) -> Seq<char> {
    if b == 0 {
        seq!['0']
    } else {
        fraction_part(shortest(f, b).0, shortest(f, b).1)
    }
}

/// The text of the finite magnitude `b`.
pub open spec fn magnitude_text(f: Format, b: nat) -> Seq<char> {
    magnitude_whole(f, b) + seq!['.'] + magnitude_fraction(f, b)
}

proof fn lemma_unit_step(f: Format, e: nat)
    ensures
        decimal_unit(f, e + 1) == 10 * decimal_unit(f, e),
        decimal_unit(f, e) > 0,
{
    lemma_power_positive(10, e);
    lemma_power_positive(2, f.min_exp as nat);
    let p = power(10, e);
    let q = power(2, f.min_exp as nat);
    assert((10 * p) * q == 10 * (p * q)) by (nonlinear_arith);
    assert(p * q > 0) by (nonlinear_arith)
        requires
            p > 0,
            q > 0,
    ;
    assert(power(10, e + 1) == 10 * power(10, e));
}

proof fn lemma_unit_grows(f: Format, e: nat, d: nat)
    ensures
        decimal_unit(f, e + d) == power(10, d) * decimal_unit(f, e),
    decreases d,
{
    lemma_power_add(10, e, d);
    let p = power(10, e);
    let q = power(2, f.min_exp as nat);
    let t = power(10, d);
    assert((p * t) * q == t * (p * q)) by (nonlinear_arith);
}

proof fn lemma_leads_unique(f: Format, b: nat, d: nat, e: nat)
    requires
        leads(f, b, d),
        leads(f, b, e),
    ensures
        d == e,
{
    if d < e {
        lemma_unit_grows(f, d + 1, (e - d - 1) as nat);
        lemma_power_positive(10, (e - d - 1) as nat);
        let p = power(10, (e - d - 1) as nat);
        let u = decimal_unit(f, d + 1);
        assert(p * u >= u) by (nonlinear_arith)
            requires
                p >= 1,
        ;
    } else if e < d {
        lemma_unit_grows(f, e + 1, (d - e - 1) as nat);
        lemma_power_positive(10, (d - e - 1) as nat);
        let p = power(10, (d - e - 1) as nat);
        let u = decimal_unit(f, e + 1);
        assert(p * u >= u) by (nonlinear_arith)
            requires
                p >= 1,
        ;
    }
}

/// `denotes` in terms of `stretched` values: `c` units lie between the two
/// midpoints around `b`.
proof fn lemma_denotes(f: Format, b: nat, c: nat, e: nat)
    requires
        f.wf(),
        0 < b < f.inf,
        2 * (c * decimal_unit(f, e)) > 2 * stretched(f, b) - power(2, f.shift((b - 1) as nat))
            * power(10, SPAN as nat),
        2 * (c * decimal_unit(f, e)) < 2 * stretched(f, b) + power(2, f.shift(b)) * power(
            10,
            SPAN as nat,
        ),
    ensures
        denotes(f, b, c, e),
{
    let t = power(10, SPAN as nat);
    let p10 = power(10, e);
    let p2 = power(2, f.min_exp as nat);
    let a = (b - 1) as nat;
    lemma_units_step(f, a);
    lemma_units_step(f, b);
    assert(power(2, (f.min_exp + 1) as nat) == 2 * p2);
    assert((c * p10) * (2 * p2) == 2 * (c * (p10 * p2))) by (nonlinear_arith);
    let g = power(2, f.shift(a));
    let h = power(2, f.shift(b));
    let n = f.units(b);
    assert(f.midpoint(a) == 2 * n - g);
    assert((2 * n - g) * t == 2 * (n * t) - g * t) by (nonlinear_arith);
    assert((2 * n + h) * t == 2 * (n * t) + h * t) by (nonlinear_arith);
    assert((b + 1 - 1) as nat == b);
}

/// Seventeen digits are enough.
proof fn lemma_enough_digits(f: Format, b: nat, e: nat)
    requires
        f.wf(),
        0 < b < f.inf,
        leads(f, b, e + 16),
    ensures
        candidate(f, b, e) is Some,
{
    let u = decimal_unit(f, e);
    let v = stretched(f, b);
    let t = power(10, SPAN as nat);
    let a = (b - 1) as nat;
    let h = power(2, f.shift(b));
    let g = power(2, f.shift(a));
    let m = f.significand(b);
    let gap = h * t;
    let low = g * t;
    lemma_unit_step(f, e);
    lemma_unit_grows(f, e, 16);
    assert(power(10, 16) == 10_000_000_000_000_000) by {
        reveal_with_fuel(power, 17);
    }
    lemma_units_step(f, a);
    lemma_units_step(f, b);
    lemma_power_positive(10, SPAN as nat);
    assert(v == m * gap) by (nonlinear_arith)
        requires
            v == (m * h) * t,
            gap == h * t,
    ;
    let d = f.frac as nat;
    assert(m < 2 * d);
    assert(2 * d <= 0x20_0000_0000_0000);
    assert(gap > 0) by (nonlinear_arith)
        requires
            gap == h * t,
            h > 0,
            t > 0,
    ;
    assert(10_000_000_000_000_000 * u <= m * gap);
    assert(u < gap) by (nonlinear_arith)
        requires
            10_000_000_000_000_000 * u <= m * gap,
            m < 0x20_0000_0000_0000,
            gap > 0,
    ;
    // the gap below is as wide as the one above, or half as wide at a power of two
    assert(u < low) by {
        lemma_shift_below(f, b);
        if g == h {
        } else {
            assert(h == 2 * g);
            assert(gap == 2 * low) by (nonlinear_arith)
                requires
                    h == 2 * g,
                    gap == h * t,
                    low == g * t,
            ;
            assert(m == d);
            assert(u < low) by (nonlinear_arith)
                requires
                    10_000_000_000_000_000 * u <= m * gap,
                    m <= 0x10_0000_0000_0000,
                    gap == 2 * low,
                    low > 0,
            ;
        }
    }
    let c = v / u;
    let r = v % u;
    assert(v == c * u + r && 0 <= r < u) by (nonlinear_arith)
        requires
            u > 0,
            c == v / u,
            r == v % u,
    ;
    assert((c + 1) * u == c * u + u) by (nonlinear_arith);
    if 2 * r < u {
        lemma_denotes(f, b, c, e);
    } else {
        lemma_denotes(f, b, c + 1, e);
    }
}

/// The unit below `b` is that of `b`, or half of it where `b` is a power of
/// two.
proof fn lemma_shift_below(f: Format, b: nat)
    requires
        f.wf(),
        0 < b < f.inf,
    ensures
        power(2, f.shift((b - 1) as nat)) == power(2, f.shift(b)) || (power(2, f.shift(b)) == 2
            * power(2, f.shift((b - 1) as nat)) && f.significand(b) == f.frac),
{
    let d = f.frac as nat;
    let a = (b - 1) as nat;
    let q = b / d;
    let r = b % d;
    assert(b == q * d + r && 0 <= r < d) by (nonlinear_arith)
        requires
            q == b / d,
            r == b % d,
            d > 0,
    ;
    if r > 0 {
        assert(a / d == q) by (nonlinear_arith)
            requires
                a == q * d + (r - 1),
                0 <= r - 1 < d,
                d > 0,
                q >= 0,
        ;
    } else {
        assert(q > 0) by (nonlinear_arith)
            requires
                b == q * d,
                b > 0,
                d > 0,
        ;
        assert((q - 1) * d == q * d - d) by (nonlinear_arith);
        assert(a / d == q - 1) by (nonlinear_arith)
            requires
                a == (q - 1) * d + (d - 1),
                d > 0,
                q >= 1,
        ;
        if q == 1 {
            assert(f.shift(a) == 0 && f.shift(b) == 0);
        } else {
            assert(f.shift(b) == f.shift(a) + 1);
            assert(power(2, f.shift(b)) == 2 * power(2, f.shift(a)));
        }
    }
}

proof fn lemma_trimmed(f: Format, b: nat, c: nat, e: nat)
    requires
        denotes(f, b, c, e),
    ensures
        denotes(f, b, trimmed(c, e).0, trimmed(c, e).1),
    decreases c,
{
    if c > 0 && c % 10 == 0 {
        let d = c / 10;
        let p = power(10, e);
        assert(power(10, e + 1) == 10 * p);
        assert(d * (10 * p) == c * p) by (nonlinear_arith)
            requires
                c == 10 * d,
        ;
        lemma_trimmed(f, b, d, e + 1);
    }
}

/// The digits around the decimal point make up `c` in units of
/// `10^(e - SPAN)`.
proof fn lemma_parts(f: Format, b: nat, c: nat, e: nat)
    requires
        f.wf(),
        denotes(f, b, c, e),
    ensures
        whole_part(c, e).len() > 0,
        fraction_part(c, e).len() > 0,
        all_digits(whole_part(c, e)),
        all_digits(fraction_part(c, e)),
        f.is_nearest(
            numeral_value(whole_part(c, e) + fraction_part(c, e)),
            fraction_part(c, e).len(),
            b,
        ),
{
    let ds = numeral(c);
    let w = whole_part(c, e);
    let r = fraction_part(c, e);
    lemma_numeral(c);
    if e >= SPAN {
        let z = (e - SPAN) as nat;
        lemma_zeros_value(z);
        lemma_numeral_value_concat(ds, zeros(z));
        lemma_numeral_value_concat(w, r);
        assert(numeral_value(r) == 0) by {
            reveal_with_fuel(numeral_value, 2);
        }
        let n = c * power(10, z);
        assert(numeral_value(w) == n);
        assert(power(10, 1) == 10) by {
            reveal_with_fuel(power, 2);
        }
        lemma_nearest_rescaled(f, n, 0, 1, b);
        lemma_nearest_rescaled(f, n, 0, SPAN as nat, b);
        lemma_power_add(10, z, SPAN as nat);
        let p = power(10, z);
        let q = power(10, SPAN as nat);
        assert((c * p) * q == c * (p * q)) by (nonlinear_arith);
        assert(z + SPAN == e);
    } else {
        let k = (SPAN - e) as nat;
        lemma_nearest_rescaled(f, c, k, e, b);
        if ds.len() > k {
            assert(w + r =~= ds);
        } else {
            let z = (k - ds.len()) as nat;
            lemma_zeros_value(z);
            assert(numeral_value(w) == 0) by {
                reveal_with_fuel(numeral_value, 2);
            }
            lemma_numeral_value_concat(w, r);
            lemma_numeral_value_concat(zeros(z), ds);
            assert(0 * power(10, r.len()) == 0 && 0 * power(10, ds.len()) == 0);
        }
    }
}

proof fn lemma_coarsest(f: Format, b: nat, e: nat, d: nat)
    requires
        d <= e,
        candidate(f, b, d) is Some,
    ensures
        denotes(f, b, coarsest(f, b, e).0, coarsest(f, b, e).1),
    decreases e,
{
    if candidate(f, b, e) is None {
        lemma_coarsest(f, b, (e - 1) as nat, d);
    }
}

proof fn lemma_ten_over_eight(n: nat)
    ensures
        power(10, n) >= power(2, 3 * n),
    decreases n,
{
    if n > 0 {
        lemma_ten_over_eight((n - 1) as nat);
        let m = (n - 1) as nat;
        lemma_power_add(2, 3, 3 * m);
        assert(3 + 3 * m == 3 * n);
        assert(power(2, 3) == 8) by {
            reveal_with_fuel(power, 4);
        }
        assert(power(10, n) == 10 * power(10, m));
    }
}

proof fn lemma_power_grows(b: nat, m: nat, n: nat)
    requires
        b > 0,
        m <= n,
    ensures
        power(b, m) <= power(b, n),
{
    lemma_power_add(b, m, (n - m) as nat);
    lemma_power_positive(b, (n - m) as nat);
    lemma_power_positive(b, m);
    let x = power(b, m);
    let y = power(b, (n - m) as nat);
    assert(x * y >= x) by (nonlinear_arith)
        requires
            y >= 1,
    ;
}

proof fn lemma_two_to_53()
    ensures
        power(2, 53) == 0x20_0000_0000_0000,
{
    reveal_with_fuel(power, 54);
}

/// Every finite magnitude has a value below two to the 1200.
proof fn lemma_units_bound(f: Format, b: nat)
    requires
        f.wf(),
        b < f.inf,
    ensures
        f.units(b) < power(2, 1200 + f.min_exp as nat),
{
    let d = f.frac as nat;
    let top: nat = if f == binary64() {
        2046
    } else {
        254
    };
    let s = f.significand(b);
    let h = power(2, f.shift(b));
    if f == binary64() {
        assert(b / 0x10_0000_0000_0000 <= 2047 && b % 0x10_0000_0000_0000 < 0x10_0000_0000_0000);
    } else {
        assert(b / 0x80_0000 <= 255 && b % 0x80_0000 < 0x80_0000);
    }
    assert(s < 0x20_0000_0000_0000);
    lemma_two_to_53();
    lemma_power_grows(2, f.shift(b), top);
    lemma_power_positive(2, f.shift(b));
    lemma_power_add(2, 53, top);
    lemma_power_grows(2, 53 + top, 1200 + f.min_exp as nat);
    let x = power(2, 53);
    let y = power(2, top);
    assert(s * h < x * y) by (nonlinear_arith)
        requires
            s < x,
            0 < h <= y,
    ;
}

/// The leading digit of every positive magnitude has a weight of at least
/// `10^(17 - SPAN)`.
proof fn lemma_lead_above(f: Format, b: nat)
    requires
        f.wf(),
        0 < b < f.inf,
    ensures
        decimal_unit(f, 17) <= stretched(f, b),
{
    let t = power(10, SPAN as nat);
    let n = f.units(b);
    let p = power(2, f.min_exp as nat);
    lemma_units_step(f, (b - 1) as nat);
    lemma_power_add(10, 17, 383);
    lemma_ten_over_eight(383);
    lemma_power_grows(2, f.min_exp as nat, 1149);
    lemma_power_positive(10, 17);
    lemma_power_positive(10, SPAN as nat);
    let x = power(10, 17);
    let y = power(10, 383);
    assert(x * p <= x * y) by (nonlinear_arith)
        requires
            p <= y,
            x > 0,
    ;
    assert(t <= n * t) by (nonlinear_arith)
        requires
            n >= 1,
            t > 0,
    ;
}

/// The leading digit of every positive magnitude has a weight in range.
proof fn lemma_lead_range(f: Format, b: nat)
    requires
        f.wf(),
        0 < b < f.inf,
    ensures
        decimal_unit(f, 17) <= stretched(f, b) < decimal_unit(f, 800),
{
    lemma_lead_above(f, b);
    lemma_units_bound(f, b);
    let t = power(10, SPAN as nat);
    let n = f.units(b);
    let p = power(2, f.min_exp as nat);
    let w = power(2, 1200);
    lemma_power_positive(10, SPAN as nat);
    lemma_power_positive(2, f.min_exp as nat);
    lemma_power_add(2, 1200, f.min_exp as nat);
    lemma_ten_over_eight(400);
    lemma_power_add(10, 400, 400);
    assert(w * p <= t * p) by (nonlinear_arith)
        requires
            w <= t,
            p > 0,
    ;
    assert(n * t < (t * p) * t) by (nonlinear_arith)
        requires
            n < t * p,
            t > 0,
    ;
    assert((t * p) * t == (t * t) * p) by (nonlinear_arith);
}

/// What the text of a finite magnitude says when it is read back.
pub proof fn lemma_magnitude_reads_back(f: Format, b: nat)
    requires
        f.wf(),
        b < f.inf,
    ensures
        magnitude_whole(f, b).len() > 0,
        magnitude_fraction(f, b).len() > 0,
        all_digits(magnitude_whole(f, b)),
        all_digits(magnitude_fraction(f, b)),
        f.nearest(
            numeral_value(magnitude_whole(f, b) + magnitude_fraction(f, b)),
            magnitude_fraction(f, b).len(),
        ) == b,
{
    let w = magnitude_whole(f, b);
    let r = magnitude_fraction(f, b);
    if b == 0 {
        assert(numeral_value(w + r) == 0) by {
            reveal_with_fuel(numeral_value, 3);
        }
        lemma_power_positive(10, 1);
        lemma_units_step(f, 0);
        assert(f.midpoint(0) * power(10, 1) > 0) by (nonlinear_arith)
            requires
                f.midpoint(0) > 0,
                power(10, 1) > 0,
        ;
        assert(0 * power(2, (f.min_exp + 1) as nat) == 0);
        assert(f.is_nearest(0, 1, 0));
    } else {
        lemma_lead_range(f, b);
        lemma_lead_exists(f, b, 17);
        let e = choose|e: nat| leads(f, b, e);
        let x = choose|x: nat| 17 <= x && leads(f, b, x);
        lemma_leads_unique(f, b, e, x);
        lemma_enough_digits(f, b, (e - 16) as nat);
        lemma_coarsest(f, b, e, (e - 16) as nat);
        let (c, y) = coarsest(f, b, e);
        lemma_trimmed(f, b, c, y);
        lemma_parts(f, b, trimmed(c, y).0, trimmed(c, y).1);
    }
    let digits = numeral_value(w + r);
    lemma_nearest_unique(f, digits, r.len(), b, f.nearest(digits, r.len()));
}

proof fn lemma_lead_exists(f: Format, b: nat, e: nat)
    requires
        f.wf(),
        0 < b < f.inf,
        17 <= e <= 799,
        decimal_unit(f, e) <= stretched(f, b),
    ensures
        exists|x: nat| e <= x && #[trigger] leads(f, b, x),
    decreases 800 - e,
{
    lemma_lead_range(f, b);
    if stretched(f, b) < decimal_unit(f, e + 1) {
        assert(leads(f, b, e));
    } else {
        lemma_lead_exists(f, b, e + 1);
    }
}

/// `c * 10^(e - SPAN)`, in the units of `stretched`.
fn multiple(f: Format, c: u64, e: u32) -> (r: BigNat)
    ensures
        r@ == c * decimal_unit(f, e as nat),
{
    let mut r: BigNat = BigNat::from_u64(c);
    r.scale_power(10, e as u64);
    r.scale_power(2, f.min_exp as u64);
    proof {
        let p = power(10, e as nat);
        let q = power(2, f.min_exp as nat);
        assert((c * p) * q == c * (p * q)) by (nonlinear_arith);
    }
    r
}

/// Whether `c * 10^(e - SPAN)` rounds to the magnitude `b`.
fn check(f: Format, b: u64, c: u64, e: u32) -> (r: bool)
    requires
        f.wf(),
        0 < b < f.inf,
    ensures
        r == denotes(f, b as nat, c as nat, e as nat),
{
    let mut digits: BigNat = BigNat::from_u64(c);
    digits.scale_power(10, e as u64);
    is_nearest(f, &digits, SPAN as u64, b)
}

/// The quotient of `v` by `10^(e - SPAN)`, known to lie in `from..from + 10`.
fn quotient(f: Format, v: &BigNat, from: u64, e: u32) -> (r: u64)
    requires
        from <= 100_000_000_000_000_000,
        from * decimal_unit(f, e as nat) <= v@ < (from + 10) * decimal_unit(f, e as nat),
    ensures
        from <= r < from + 10,
        r == v@ / decimal_unit(f, e as nat),
        r * decimal_unit(f, e as nat) <= v@ < (r + 1) * decimal_unit(f, e as nat),
{
    let ghost u = decimal_unit(f, e as nat);
    let mut lo: u64 = from;
    let mut hi: u64 = from + 10;
    while hi - lo > 1
        invariant
            from <= 100_000_000_000_000_000,
            from <= lo < hi <= from + 10,
            u == decimal_unit(f, e as nat),
            lo * u <= v@ < hi * u,
        decreases hi - lo,
    {
        let mid: u64 = lo + (hi - lo) / 2;
        let m: BigNat = multiple(f, mid, e);
        if v.less_than(&m) {
            hi = mid;
        } else {
            lo = mid;
        }
    }
    proof {
        lemma_unit_step(f, e as nat);
        let r = v@ - lo * u;
        assert((lo + 1) * u == lo * u + u) by (nonlinear_arith);
        assert(v@ == u * lo + r) by (nonlinear_arith)
            requires
                r == v@ - lo * u,
        ;
        vstd::arithmetic::div_mod::lemma_fundamental_div_mod_converse(
            v@ as int,
            u as int,
            lo as int,
            r,
        );
    }
    lo
}

/// The multiple of `10^(e - SPAN)` that stands for `b`, if there is one next
/// to its value; `c` is the multiple just below.
fn try_unit(f: Format, b: u64, v: &BigNat, twice: &BigNat, c: u64, e: u32) -> (r: Option<u64>)
    requires
        f.wf(),
        0 < b < f.inf,
        v@ == stretched(f, b as nat),
        twice@ == 2 * v@,
        c == v@ / decimal_unit(f, e as nat),
        c <= 200_000_000_000_000_000,
    ensures
        match candidate(f, b as nat, e as nat) {
            Some(x) => r == Some(x as u64) && (x == c || x == c + 1),
            None => r is None,
        },
{
    let ghost u = decimal_unit(f, e as nat);
    let down: bool = check(f, b, c, e);
    let up: bool = check(f, b, c + 1, e);
    let odd: BigNat = multiple(f, 2 * c + 1, e);
    let upper_half: bool = !twice.less_than(&odd);
    assert((2 * c + 1) * u == 2 * (c * u) + u) by (nonlinear_arith);
    if down && !(up && upper_half) {
        Some(c)
    } else if up {
        Some(c + 1)
    } else {
        None
    }
}

/// The exponent of the leading digit of the magnitude `b`.
fn find_lead(f: Format, b: u64, v: &BigNat) -> (r: u32)
    requires
        f.wf(),
        0 < b < f.inf,
        v@ == stretched(f, b as nat),
    ensures
        17 <= r <= 799,
        leads(f, b as nat, r as nat),
{
    let mut lead: u32 = 17;
    let mut above: BigNat = multiple(f, 1, 18);
    proof {
        lemma_lead_range(f, b as nat);
    }
    while !v.less_than(&above)
        invariant
            f.wf(),
            0 < b < f.inf,
            17 <= lead <= 799,
            v@ == stretched(f, b as nat),
            above@ == decimal_unit(f, (lead + 1) as nat),
            decimal_unit(f, lead as nat) <= v@ < decimal_unit(f, 800),
        decreases 800 - lead,
    {
        lead = lead + 1;
        above.scale(10, 0);
        proof {
            lemma_unit_step(f, lead as nat);
        }
    }
    lead
}

/// The shortest decimal of the finite magnitude `b`, before its trailing
/// zeros are moved.
fn find_coarsest(f: Format, b: u64) -> (r: (u64, u32))
    requires
        f.wf(),
        0 < b < f.inf,
    ensures
        (r.0 as nat, r.1 as nat) == coarsest(
            f,
            b as nat,
            choose|e: nat| leads(f, b as nat, e),
        ),
        r.0 <= 100_000_000_000_000_000,
        r.1 <= 800,
{
    let (sig, shift): (u64, u32) = decode(f, b);
    let mut v: BigNat = BigNat::from_u64(sig);
    v.scale_power(2, shift as u64);
    v.scale_power(10, SPAN as u64);
    let mut twice: BigNat = v.copy();
    twice.scale(2, 0);
    let lead: u32 = find_lead(f, b, &v);
    let ghost top = choose|e: nat| leads(f, b as nat, e);
    proof {
        lemma_leads_unique(f, b as nat, lead as nat, top);
        lemma_enough_digits(f, b as nat, (lead - 16) as nat);
        let w = decimal_unit(f, (lead + 1) as nat);
        assert(v@ == stretched(f, b as nat));
        assert(0 * w == 0 && (0 + 1) * w == w) by (nonlinear_arith);
        assert(power(10, 0) == 1);
    }
    // `c` is the quotient of the value by ten of the current unit
    let mut c: u64 = 0;
    let mut e: u32 = lead;
    let mut bound: u64 = 1;
    loop
        invariant
            f.wf(),
            0 < b < f.inf,
            17 <= lead <= 799,
            lead - 16 <= e <= lead,
            bound == power(10, (lead - e) as nat),
            bound <= 10_000_000_000_000_000,
            c < bound,
            v@ == stretched(f, b as nat),
            twice@ == 2 * v@,
            c * decimal_unit(f, (e + 1) as nat) <= v@ < (c + 1) * decimal_unit(f, (e + 1) as nat),
            coarsest(f, b as nat, e as nat) == coarsest(f, b as nat, top),
            candidate(f, b as nat, (lead - 16) as nat) is Some,
            top == choose|e: nat| leads(f, b as nat, e),
        decreases e,
    {
        proof {
            let u = decimal_unit(f, e as nat);
            lemma_unit_step(f, e as nat);
            assert((c * 10) * u == c * (10 * u) && (c * 10 + 10) * u == (c + 1) * (10 * u))
                by (nonlinear_arith);
        }
        let q: u64 = quotient(f, &v, c * 10, e);
        match try_unit(f, b, &v, &twice, q, e) {
            Some(x) => {
                return (x, e);
            },
            None => {},
        }
        proof {
            let j = (lead - e) as nat;
            assert(power(10, j + 1) == 10 * power(10, j));
            assert(j < 16);
            lemma_power_grows(10, j + 1, 16);
            assert(power(10, 16) == 10_000_000_000_000_000) by {
                reveal_with_fuel(power, 17);
            }
        }
        c = q;
        e = e - 1;
        bound = bound * 10;
    }
}

/// Moves the trailing zeros of `c` into the exponent.
fn trim(c: u64, e: u32) -> (r: (u64, u32))
    requires
        c <= 100_000_000_000_000_000,
        e <= 900,
    ensures
        (r.0 as nat, r.1 as nat) == trimmed(c as nat, e as nat),
        r.1 <= 1000,
{
    let mut x: u64 = c;
    let mut y: u32 = e;
    assert(x * power(10, 0) == c) by (nonlinear_arith)
        requires
            power(10, 0) == 1,
            x == c,
    ;
    while x > 0 && x % 10 == 0
        invariant
            trimmed(x as nat, y as nat) == trimmed(c as nat, e as nat),
            c <= 100_000_000_000_000_000,
            e <= 900,
            e <= y <= e + 17,
            x * power(10, (y - e) as nat) == c,
        decreases x,
    {
        let ghost j = (y - e) as nat;
        let ghost p = power(10, j);
        proof {
            let z = x / 10;
            assert(power(10, j + 1) == 10 * p);
            assert(z * (10 * p) == x * p) by (nonlinear_arith)
                requires
                    x == 10 * z,
            ;
            if j == 17 {
                assert(power(10, 17) == 100_000_000_000_000_000) by {
                    reveal_with_fuel(power, 18);
                }
                assert(x * p > 100_000_000_000_000_000) by (nonlinear_arith)
                    requires
                        x >= 10,
                        p == 100_000_000_000_000_000,
                ;
            }
        }
        x = x / 10;
        y = y + 1;
    }
    (x, y)
}

/// Appends the text of the finite magnitude `b` to `out`.
pub fn push_magnitude(out: &mut String, f: Format, b: u64)
    requires
        f.wf(),
        b < f.inf,
    ensures
        final(out)@ == old(out)@ + magnitude_text(f, b as nat),
{
    if b == 0 {
        out.push('0');
        out.push('.');
        out.push('0');
        assert(out@ =~= old(out)@ + magnitude_text(f, b as nat));
        return;
    }
    let (c0, e0): (u64, u32) = find_coarsest(f, b);
    let (c, e): (u64, u32) = trim(c0, e0);
    let ghost ds = numeral(c as nat);
    if e >= SPAN {
        push_numeral(out, c as u128);
        push_zeros(out, e - SPAN);
        out.push('.');
        out.push('0');
        assert(out@ =~= old(out)@ + magnitude_text(f, b as nat));
    } else {
        let k: u32 = SPAN - e;
        let mut digits: String = String::new();
        push_numeral(&mut digits, c as u128);
        assert(digits@ =~= ds);
        let cs: Vec<char> = crate::text::chars_of(digits.as_str());
        let n: usize = cs.len();
        if n > k as usize {
            let mut i: usize = 0;
            while i < n
                invariant
                    i <= n,
                    n == cs.len(),
                    cs@ == ds,
                    k < n,
                    out@ =~= old(out)@ + (if i <= n - k {
                        ds.take(i as int)
                    } else {
                        ds.take(n - k) + seq!['.'] + ds.subrange(n - k, i as int)
                    }),
                decreases n - i,
            {
                if i == n - k as usize {
                    out.push('.');
                }
                out.push(cs[i]);
                i = i + 1;
            }
            assert(k > 0);
            assert(ds.subrange(n - k, n as int) =~= ds.skip(n - k));
            assert(out@ =~= old(out)@ + magnitude_text(f, b as nat));
        } else {
            out.push('0');
            out.push('.');
            push_zeros(out, k - n as u32);
            out.append(digits.as_str());
            assert(out@ =~= old(out)@ + magnitude_text(f, b as nat));
        }
    }
}

// ----- Shortness -----

/// When a decimal is rounded to `b` or more, and to more than `b`: in terms of
/// `stretched` values.
proof fn lemma_reaches(f: Format, b: nat, c: nat, e: nat)
    requires
        f.wf(),
        0 < b < f.inf,
    ensures
        ({
            let x = 2 * (c * decimal_unit(f, e));
            let v = 2 * stretched(f, b);
            let low = v - power(2, f.shift((b - 1) as nat)) * power(10, SPAN as nat);
            let high = v + power(2, f.shift(b)) * power(10, SPAN as nat);
            let d = c * power(10, e);
            &&& low < v < high
            &&& f.reaches(d, SPAN as nat, b) <==> x > low || x == low && b % 2 == 0
            &&& f.reaches(d, SPAN as nat, b + 1) <==> x > high || x == high && b % 2 == 1
        }),
{
    let t = power(10, SPAN as nat);
    let p10 = power(10, e);
    let p2 = power(2, f.min_exp as nat);
    let a = (b - 1) as nat;
    lemma_units_step(f, a);
    lemma_units_step(f, b);
    lemma_power_positive(10, SPAN as nat);
    assert(power(2, (f.min_exp + 1) as nat) == 2 * p2);
    assert((c * p10) * (2 * p2) == 2 * (c * (p10 * p2))) by (nonlinear_arith);
    let g = power(2, f.shift(a));
    let h = power(2, f.shift(b));
    let n = f.units(b);
    assert(f.midpoint(a) == 2 * n - g);
    assert((2 * n - g) * t == 2 * (n * t) - g * t) by (nonlinear_arith);
    assert((2 * n + h) * t == 2 * (n * t) + h * t) by (nonlinear_arith);
    assert(g * t > 0) by (nonlinear_arith)
        requires
            g > 0,
            t > 0,
    ;
    assert(h * t > 0) by (nonlinear_arith)
        requires
            h > 0,
            t > 0,
    ;
    assert((b + 1 - 1) as nat == b);
}

/// Where a multiple of the unit stands for `b`, so does the candidate, and no
/// such multiple is nearer to `b`.
proof fn lemma_candidate_is_nearest(f: Format, b: nat, c: nat, e: nat)
    requires
        f.wf(),
        0 < b < f.inf,
        denotes(f, b, c, e),
    ensures
        ({
            let u = decimal_unit(f, e);
            let v = stretched(f, b);
            candidate(f, b, e) matches Some(d) && distance(d * u, v) <= distance(c * u, v) && (
            distance(d * u, v) == distance(c * u, v) && c != d ==> d > c)
        }),
{
    let u = decimal_unit(f, e);
    let v = stretched(f, b);
    lemma_unit_step(f, e);
    let d = v / u;
    let r = v % u;
    assert(v == d * u + r && 0 <= r < u) by (nonlinear_arith)
        requires
            u > 0,
            d == v / u,
            r == v % u,
    ;
    assert((d + 1) * u == d * u + u) by (nonlinear_arith);
    lemma_reaches(f, b, c, e);
    lemma_reaches(f, b, d, e);
    lemma_reaches(f, b, d + 1, e);
    if c <= d {
        assert(c * u <= d * u) by (nonlinear_arith)
            requires
                c <= d,
                u > 0,
        ;
        if c < d {
            assert(c * u + u <= d * u) by (nonlinear_arith)
                requires
                    c + 1 <= d,
                    u > 0,
            ;
        }
        assert(denotes(f, b, d, e));
    } else {
        assert(c * u >= (d + 1) * u) by (nonlinear_arith)
            requires
                c >= d + 1,
                u > 0,
        ;
        if c > d + 1 {
            assert(c * u >= (d + 1) * u + u) by (nonlinear_arith)
                requires
                    c >= d + 2,
                    u > 0,
            ;
        }
        assert(denotes(f, b, d + 1, e));
    }
}

/// How far apart two numbers are.
pub open spec fn distance(x: nat, y: nat) -> int {
    if x <= y {
        y - x
    } else {
        x - y
    }
}

/// The coarsest unit with a candidate is at least as coarse as any other.
proof fn lemma_coarsest_is_coarse(f: Format, b: nat, e: nat, d: nat)
    requires
        d <= e,
        candidate(f, b, d) is Some,
    ensures
        d <= coarsest(f, b, e).1 <= e,
        candidate(f, b, coarsest(f, b, e).1) == Some(coarsest(f, b, e).0),
    decreases e,
{
    if candidate(f, b, e) is None {
        lemma_coarsest_is_coarse(f, b, (e - 1) as nat, d);
    }
}

proof fn lemma_trimmed_value(f: Format, c: nat, e: nat)
    requires
        c > 0,
    ensures
        trimmed(c, e).1 >= e,
        trimmed(c, e).0 % 10 != 0,
        trimmed(c, e).0 * decimal_unit(f, trimmed(c, e).1) == c * decimal_unit(f, e),
    decreases c,
{
    if c % 10 == 0 {
        let d = c / 10;
        lemma_trimmed_value(f, d, e + 1);
        lemma_unit_step(f, e);
        let u = decimal_unit(f, e);
        assert(d * (10 * u) == c * u) by (nonlinear_arith)
            requires
                c == 10 * d,
        ;
    }
}

/// The decimal that a value is printed as is the shortest that stands for it:
/// it ends in no zero, and no multiple of a coarser power of ten, up to the
/// value itself, stands for the value. Of those as short, none is nearer, and
/// of two equally near it is the larger.
pub proof fn law_shortest(f: Format, b: nat, c: nat, e: nat)
    requires
        f.wf(),
        0 < b < f.inf,
        denotes(f, b, c, e),
        decimal_unit(f, e) <= stretched(f, b),
    ensures
        ({
            let (d, x) = shortest(f, b);
            let v = stretched(f, b);
            &&& denotes(f, b, d, x)
            &&& d % 10 != 0
            &&& e <= x
            &&& e == x && c != d ==> {
                let u = decimal_unit(f, x);
                &&& distance(d * u, v) <= distance(c * u, v)
                &&& distance(d * u, v) == distance(c * u, v) ==> d > c
            }
        }),
{
    lemma_lead_range(f, b);
    lemma_lead_exists(f, b, 17);
    let lead = choose|l: nat| leads(f, b, l);
    if e > lead {
        lemma_unit_grows(f, lead + 1, (e - lead - 1) as nat);
        lemma_power_positive(10, (e - lead - 1) as nat);
        let p = power(10, (e - lead - 1) as nat);
        let u = decimal_unit(f, lead + 1);
        assert(p * u >= u) by (nonlinear_arith)
            requires
                p >= 1,
        ;
    }
    lemma_candidate_is_nearest(f, b, c, e);
    lemma_coarsest(f, b, lead, e);
    lemma_coarsest_is_coarse(f, b, lead, e);
    let (m, y) = coarsest(f, b, lead);
    lemma_not_zero(f, b, m, y);
    lemma_trimmed(f, b, m, y);
    lemma_trimmed_value(f, m, y);
    let (d, x) = trimmed(m, y);
    if e == x {
        // the same decimal, in the finer unit
        let k = (x - y) as nat;
        lemma_unit_grows(f, y, k);
        let t = power(10, k);
        let u = decimal_unit(f, y);
        let fine = c * t;
        assert(fine * u == c * (t * u)) by (nonlinear_arith)
            requires
                fine == c * t,
        ;
        lemma_power_add(10, y, k);
        let p = power(10, y);
        assert(fine * p == c * (p * t)) by (nonlinear_arith)
            requires
                fine == c * t,
        ;
        assert(denotes(f, b, fine, y));
        lemma_candidate_is_nearest(f, b, fine, y);
        lemma_unit_step(f, x);
        let w = decimal_unit(f, x);
        if c > d {
            assert(c * w > d * w) by (nonlinear_arith)
                requires
                    c > d,
                    w > 0,
            ;
            if fine <= m {
                assert(fine * u <= m * u) by (nonlinear_arith)
                    requires
                        fine <= m,
                ;
            }
        } else if c < d {
            assert(c * w < d * w) by (nonlinear_arith)
                requires
                    c < d,
                    w > 0,
            ;
            if fine == m {
                assert(fine * u == m * u);
            }
        }
    }
}

/// Zero stands for no positive value.
proof fn lemma_not_zero(f: Format, b: nat, c: nat, e: nat)
    requires
        f.wf(),
        0 < b < f.inf,
        denotes(f, b, c, e),
    ensures
        c > 0,
{
    if c == 0 {
        let a = (b - 1) as nat;
        lemma_units_step(f, a);
        lemma_power_positive(10, SPAN as nat);
        assert(f.midpoint(a) * power(10, SPAN as nat) > 0) by (nonlinear_arith)
            requires
                f.midpoint(a) > 0,
                power(10, SPAN as nat) > 0,
        ;
        assert(0 * power(10, e) == 0);
        assert(0 * power(2, (f.min_exp + 1) as nat) == 0);
    }
}

/// A numeral has no leading zero, but for zero itself, and ends in the last
/// digit of its number.
pub proof fn law_numerals(n: nat)
    ensures
        numeral_value(numeral(n)) == n,
        all_digits(numeral(n)),
        numeral(n).len() > 0,
        numeral(n)[0] == '0' ==> n == 0 && numeral(n).len() == 1,
        numeral(n)[numeral(n).len() - 1] == '0' <==> n % 10 == 0,
    decreases n,
{
    lemma_numeral(n);
    if n >= 10 {
        law_numerals(n / 10);
        assert(numeral(n)[0] == numeral(n / 10)[0]);
    }
}

/// A printed decimal has a digit on either side of its point, no leading zero
/// but one directly in front of the point, and no trailing zero but one
/// directly behind it.
pub proof fn law_no_idle_zeros(f: Format, b: nat)
    requires
        f.wf(),
        b < f.inf,
    ensures
        ({
            let w = magnitude_whole(f, b);
            let r = magnitude_fraction(f, b);
            &&& magnitude_text(f, b) == w + seq!['.'] + r
            &&& w.len() > 0 && r.len() > 0
            &&& w[0] == '0' ==> w.len() == 1
            &&& r[r.len() - 1] == '0' ==> r.len() == 1
        }),
{
    lemma_magnitude_reads_back(f, b);
    if b > 0 {
        lemma_lead_range(f, b);
        lemma_lead_exists(f, b, 17);
        let e = choose|e: nat| leads(f, b, e);
        let x = choose|x: nat| 17 <= x && leads(f, b, x);
        lemma_leads_unique(f, b, e, x);
        lemma_enough_digits(f, b, (e - 16) as nat);
        lemma_coarsest(f, b, e, (e - 16) as nat);
        let (c, y) = coarsest(f, b, e);
        lemma_not_zero(f, b, c, y);
        lemma_trimmed_value(f, c, y);
        let (d, z) = shortest(f, b);
        law_numerals(d);
        let ds = numeral(d);
        let r = fraction_part(d, z);
        if z < SPAN {
            assert(r[r.len() - 1] == ds[ds.len() - 1]);
        }
    }
}

} // verus!
