//! What numbers promise: bit patterns stand for values, decimals and integers
//! are read as the nearest value, and values compare as numbers do.

use crate::bignat::{lemma_power_add, lemma_power_positive, power};
use crate::grammar::{decimal32, decimal64, number_literal};
use crate::ieee::{
    binary32, binary64, from_integer, is_nan32, is_nan64, lemma_units_grow, lemma_units_step,
    magnitude32, magnitude64, order32, order64, signed_units64, Format,
};
use crate::lexer::Tok;
use crate::syntax::Literal;
use crate::text::numeral_value;
use vstd::arithmetic::power::{lemma_pow0, lemma_pow1, lemma_pow_adds, pow};
use vstd::prelude::*;

verus! {

/// How far apart two numbers are.
pub open spec fn gap(x: int, y: int) -> int {
    if x <= y {
        y - x
    } else {
        x - y
    }
}

/// Powers are those of arithmetic.
pub proof fn law_power(base: nat, n: nat)
    ensures
        power(base, n) as int == pow(base as int, n),
    decreases n,
{
    lemma_pow0(base as int);
    if n > 0 {
        law_power(base, (n - 1) as nat);
        lemma_pow_adds(base as int, 1, (n - 1) as nat);
        lemma_pow1(base as int);
    }
}

/// A numeral is read digit by digit, in base ten.
pub proof fn law_numeral_value(s: Seq<char>, c: char)
    requires
        '0' <= c <= '9',
    ensures
        numeral_value(Seq::empty()) == 0,
        numeral_value(s.push(c)) == 10 * numeral_value(s) + (c as int - '0' as int),
{
    assert(s.push(c).drop_last() =~= s);
}

/// What a 64-bit pattern without its sign stands for, in units of the
/// smallest positive value: below 2^52 the pattern itself; from there on 53
/// bits, the first of them implied, and a power of two.
pub proof fn law_units64(m: nat)
    ensures
        m < 0x10_0000_0000_0000 ==> binary64().units(m) == m,
        m >= 0x10_0000_0000_0000 ==> binary64().units(m) == (m % 0x10_0000_0000_0000
            + 0x10_0000_0000_0000) * pow(2, (m / 0x10_0000_0000_0000 - 1) as nat),
{
    let f = binary64();
    law_power(2, f.shift(m));
    lemma_pow0(2);
    if m < 0x10_0000_0000_0000 {
        assert(m % 0x10_0000_0000_0000 == m && m / 0x10_0000_0000_0000 == 0) by (nonlinear_arith)
            requires
                m < 0x10_0000_0000_0000,
        ;
        assert(m * 1 == m);
    } else {
        assert(m / 0x10_0000_0000_0000 >= 1) by (nonlinear_arith)
            requires
                m >= 0x10_0000_0000_0000,
        ;
    }
}

/// The same of 32-bit patterns, with 24 bits.
pub proof fn law_units32(m: nat)
    ensures
        m < 0x80_0000 ==> binary32().units(m) == m,
        m >= 0x80_0000 ==> binary32().units(m) == (m % 0x80_0000 + 0x80_0000) * pow(
            2,
            (m / 0x80_0000 - 1) as nat,
        ),
{
    let f = binary32();
    law_power(2, f.shift(m));
    lemma_pow0(2);
    if m < 0x80_0000 {
        assert(m % 0x80_0000 == m && m / 0x80_0000 == 0) by (nonlinear_arith)
            requires
                m < 0x80_0000,
        ;
        assert(m * 1 == m);
    } else {
        assert(m / 0x80_0000 >= 1) by (nonlinear_arith)
            requires
                m >= 0x80_0000,
        ;
    }
}

/// 64-bit values compare by sign and pattern: among values without a sign a
/// larger pattern is larger, among values with a sign it is smaller, both
/// zeros are equal, and NaN is what lies past infinity.
pub proof fn law_order64(a: u64, b: u64)
    ensures
        is_nan64(a) <==> a % 0x8000_0000_0000_0000 > 0x7ff0_0000_0000_0000,
        a < 0x8000_0000_0000_0000 && b < 0x8000_0000_0000_0000 ==> (order64(a) < order64(b) <==> a
            < b),
        a >= 0x8000_0000_0000_0000 && b >= 0x8000_0000_0000_0000 ==> (order64(a) < order64(b)
            <==> b < a),
        a >= 0x8000_0000_0000_0000 && b < 0x8000_0000_0000_0000 ==> (order64(a) < order64(b) <==> a
            > 0x8000_0000_0000_0000 || b > 0) && order64(a) <= order64(b),
        order64(a) == order64(b) <==> a == b || (a % 0x8000_0000_0000_0000 == 0 && b
            % 0x8000_0000_0000_0000 == 0),
{
}

/// The same of 32-bit values.
pub proof fn law_order32(a: u32, b: u32)
    ensures
        is_nan32(a) <==> a % 0x8000_0000 > 0x7f80_0000,
        a < 0x8000_0000 && b < 0x8000_0000 ==> (order32(a) < order32(b) <==> a < b),
        a >= 0x8000_0000 && b >= 0x8000_0000 ==> (order32(a) < order32(b) <==> b < a),
        a >= 0x8000_0000 && b < 0x8000_0000 ==> (order32(a) < order32(b) <==> a > 0x8000_0000 || b
            > 0) && order32(a) <= order32(b),
        order32(a) == order32(b) <==> a == b || (a % 0x8000_0000 == 0 && b % 0x8000_0000 == 0),
{
}

// ----- Rounding -----

proof fn lemma_find_nearest(f: Format, digits: nat, scale: nat, b: nat) -> (c: nat)
    requires
        b <= f.inf,
        b == f.inf || !f.reaches(digits, scale, b + 1),
    ensures
        f.is_nearest(digits, scale, c),
    decreases b,
{
    if b == 0 || f.reaches(digits, scale, b) {
        b
    } else {
        lemma_find_nearest(f, digits, scale, (b - 1) as nat)
    }
}

/// A decimal is read as a nearest value: where that is finite, no finite value
/// is nearer to `digits / 10^scale`, and of two that are equally near it is
/// the even one. Both sides are multiplied by `10^scale`.
pub proof fn law_nearest(f: Format, digits: nat, scale: nat, other: nat)
    requires
        f.wf(),
        other < f.inf,
        f.nearest(digits, scale) < f.inf,
    ensures
        ({
            let m = f.nearest(digits, scale);
            let t = pow(10, scale);
            let x = digits * pow(2, f.min_exp as nat);
            &&& gap(f.units(m) * t, x) <= gap(f.units(other) * t, x)
            &&& other != m && gap(f.units(m) * t, x) == gap(f.units(other) * t, x) ==> m % 2 == 0
        }),
{
    let start = lemma_find_nearest(f, digits, scale, f.inf as nat);
    let m = f.nearest(digits, scale);
    assert(f.is_nearest(digits, scale, m));
    law_power(10, scale);
    law_power(2, f.min_exp as nat);
    let t = power(10, scale);
    let e = power(2, f.min_exp as nat);
    lemma_power_positive(10, scale);
    assert(power(2, (f.min_exp + 1) as nat) == 2 * e);
    let x = digits * e;
    assert(digits * (2 * e) == 2 * x) by (nonlinear_arith)
        requires
            x == digits * e,
    ;
    let um = f.units(m) * t;
    let uo = f.units(other) * t;
    if other < m {
        let a = (m - 1) as nat;
        lemma_units_step(f, a);
        if other < a {
            lemma_units_grow(f, other, a);
        }
        let ua = f.units(a) * t;
        assert(f.midpoint(a) * t == ua + um && uo <= ua && ua < um) by (nonlinear_arith)
            requires
                f.midpoint(a) == f.units(a) + f.units(m),
                f.units(other) <= f.units(a),
                f.units(a) < f.units(m),
                ua == f.units(a) * t,
                um == f.units(m) * t,
                uo == f.units(other) * t,
                t > 0,
        ;
    } else if m < other {
        lemma_units_step(f, m);
        if m + 1 < other {
            lemma_units_grow(f, m + 1, other);
        }
        let ua = f.units(m + 1) * t;
        assert(f.midpoint(m) * t == ua + um && ua <= uo && um < ua) by (nonlinear_arith)
            requires
                f.midpoint(m) == f.units(m) + f.units(m + 1),
                f.units(m + 1) <= f.units(other),
                f.units(m) < f.units(m + 1),
                ua == f.units(m + 1) * t,
                um == f.units(m) * t,
                uo == f.units(other) * t,
                t > 0,
        ;
        assert((m + 1 - 1) as nat == m);
        assert((m + 1) % 2 == 0 || m % 2 == 0);
    }
}

/// A pattern for `s * 2^sh`, where 53 bits suffice.
proof fn lemma_pattern(s: nat, sh: nat) -> (b: nat)
    requires
        0 < s < 0x20_0000_0000_0000,
        sh <= 1074,
    ensures
        b < binary64().inf,
        binary64().units(b) == s * power(2, sh),
    decreases sh,
{
    let f = binary64();
    let d: nat = 0x10_0000_0000_0000;
    if s >= d {
        let b = ((sh + 1) * d + (s - d)) as nat;
        assert(b / d == sh + 1 && b % d == s - d) by {
            vstd::arithmetic::div_mod::lemma_fundamental_div_mod_converse(
                b as int,
                d as int,
                (sh + 1) as int,
                s - d,
            );
        }
        b
    } else if sh == 0 {
        assert(power(2, 0) == 1);
        assert(s / d == 0 && s % d == s) by (nonlinear_arith)
            requires
                s < d,
                d > 0,
        ;
        assert(s * 1 == s);
        s
    } else {
        let b = lemma_pattern(2 * s, (sh - 1) as nat);
        let p = power(2, (sh - 1) as nat);
        assert(power(2, sh) == 2 * p);
        assert((2 * s) * p == s * (2 * p)) by (nonlinear_arith);
        b
    }
}

/// An integer is rounded to a nearest value, and up to 2^53 it is that value
/// exactly. Values are in units of the smallest, of which 2^1074 are 1.
pub proof fn law_from_integer(n: i64, other: u64)
    requires
        magnitude64(other) < binary64().inf,
    ensures
        ({
            let r = from_integer(n as int);
            let x = n * pow(2, 1074);
            &&& magnitude64(r) < binary64().inf
            &&& gap(signed_units64(r), x) <= gap(signed_units64(other), x)
            &&& -0x20_0000_0000_0000 < n < 0x20_0000_0000_0000 ==> signed_units64(r) == x
        }),
{
    let f = binary64();
    let a: nat = if n < 0 {
        (-n) as nat
    } else {
        n as nat
    };
    let m = f.nearest(a, 0);
    let start = lemma_find_nearest(f, a, 0, f.inf as nat);
    assert(f.is_nearest(a, 0, m));
    // Nothing of 64 bits reaches infinity.
    lemma_power_positive(2, 1074);
    law_power(2, 1074);
    law_power(10, 0);
    lemma_pow0(10);
    let e = power(2, 1074);
    let big = lemma_pattern(0x10_0000_0000_0000, 1074);
    assert(power(2, 1075) == 2 * e);
    lemma_below_infinity(a, m);
    let r = from_integer(n as int);
    assert(m < 0x7ff0_0000_0000_0000);
    assert(magnitude64(r) == m) by {
        if n < 0 {
            assert((m + 0x8000_0000_0000_0000) as u64 % 0x8000_0000_0000_0000 == m);
        }
    }
    let x = n * pow(2, 1074);
    let y = a * pow(2, 1074);
    assert(x == if n < 0 {
        -y
    } else {
        y
    }) by (nonlinear_arith)
        requires
            x == n * pow(2, 1074),
            y == a * pow(2, 1074),
            n < 0 ==> a == -n,
            n >= 0 ==> a == n,
    ;
    assert(y >= 0) by (nonlinear_arith)
        requires
            y == a * pow(2, 1074),
            pow(2, 1074) > 0,
            a >= 0,
    ;
    let o = magnitude64(other);
    law_nearest(f, a, 0, o);
    law_nearest(f, a, 0, 0);
    assert(f.units(m) * 1 == f.units(m) && f.units(o) * 1 == f.units(o));
    // The other value may lie on the other side of zero.
    assert(f.units(0) == 0) by {
        law_units64(0);
    }
    if -0x20_0000_0000_0000 < n < 0x20_0000_0000_0000 {
        if a > 0 {
            let b = lemma_pattern(a, 1074);
            law_nearest(f, a, 0, b);
            assert(f.units(b) * 1 == f.units(b));
        } else {
            assert(0 * pow(2, 1074) == 0);
        }
    }
}

/// Integers of 64 bits are far below infinity.
proof fn lemma_below_infinity(a: nat, m: nat)
    requires
        a <= 0x8000_0000_0000_0000,
        binary64().is_nearest(a, 0, m),
    ensures
        m < binary64().inf,
{
    let f = binary64();
    if m == f.inf {
        let e = power(2, 1074);
        lemma_power_positive(2, 1074);
        assert(power(2, 1075) == 2 * e);
        let c = (f.inf - 1) as nat;
        assert(c / 0x10_0000_0000_0000 == 2046 && c % 0x10_0000_0000_0000 == 0xf_ffff_ffff_ffff);
        assert(f.shift(c) == 2045);
        lemma_power_add(2, 1075, 970);
        lemma_power_add(2, 64, 906);
        let p = power(2, 970);
        assert(power(2, 64) == 0x1_0000_0000_0000_0000) by {
            assert(power(2, 8) == 256) by {
                reveal_with_fuel(power, 9);
            }
            lemma_power_add(2, 8, 8);
            lemma_power_add(2, 16, 16);
            lemma_power_add(2, 32, 32);
            let p8 = power(2, 8);
            let p16 = power(2, 16);
            let p32 = power(2, 32);
            assert(p16 == 0x1_0000) by (nonlinear_arith)
                requires
                    p16 == p8 * p8,
                    p8 == 256,
            ;
            assert(p32 == 0x1_0000_0000) by (nonlinear_arith)
                requires
                    p32 == p16 * p16,
                    p16 == 0x1_0000,
            ;
            assert(p32 * p32 == 0x1_0000_0000_0000_0000) by (nonlinear_arith)
                requires
                    p32 == 0x1_0000_0000,
            ;
        }
        lemma_power_positive(2, 906);
        let u = power(2, 906);
        assert(p >= 0x1_0000_0000_0000_0000) by (nonlinear_arith)
            requires
                p == 0x1_0000_0000_0000_0000 * u,
                u >= 1,
        ;
        let s = f.significand(c);
        let q = power(2, 2045);
        assert(q == power(2, 1075) * p);
        assert(power(10, 0) == 1);
        assert((2 * s + 1) * q * 1 == (2 * s + 1) * q) by (nonlinear_arith);
        assert((2 * s + 1) * q > a * power(2, 1075)) by (nonlinear_arith)
            requires
                q == power(2, 1075) * p,
                p >= 0x1_0000_0000_0000_0000,
                a <= 0x8000_0000_0000_0000,
                power(2, 1075) > 0,
                s >= 0,
        ;
        assert(f.reaches(a, 0, m));
    }
}

// ----- Literals -----

/// A numeral without a decimal point is the integer it spells.
pub proof fn law_integer_literal(neg: bool, whole: Seq<char>, rest: Seq<Tok>)
    ensures
        ({
            let ts = seq![Tok::Number(neg, whole, None)] + rest;
            let n: int = if neg {
                -(numeral_value(whole) as int)
            } else {
                numeral_value(whole) as int
            };
            if -0x8000_0000_0000_0000 <= n <= 0x7fff_ffff_ffff_ffff {
                number_literal(ts) == Ok::<(Literal, Seq<Tok>), nat>(
                    (Literal::I64(n as i64), rest),
                )
            } else {
                number_literal(ts) is Err
            }
        }),
{
    let ts = seq![Tok::Number(neg, whole, None)] + rest;
    assert(ts[0] == Tok::Number(neg, whole, None));
    assert(ts.skip(1) =~= rest);
}

/// A numeral with a decimal point is a 64-bit value nearest to the number it
/// spells, with its sign.
pub proof fn law_decimal_literal(
    neg: bool,
    whole: Seq<char>,
    frac: Seq<char>,
    rest: Seq<Tok>,
    other: nat,
)
    requires
        other < binary64().inf,
    ensures
        ({
            let ts = seq![Tok::Number(neg, whole, Some(frac))] + rest;
            let bits = decimal64(neg, whole, frac);
            let t = pow(10, frac.len());
            let x = numeral_value(whole + frac) * pow(2, 1074);
            &&& number_literal(ts) == Ok::<(Literal, Seq<Tok>), nat>((Literal::F64(bits), rest))
            &&& bits >= 0x8000_0000_0000_0000 <==> neg
            &&& magnitude64(bits) <= binary64().inf
            &&& magnitude64(bits) < binary64().inf ==> gap(
                binary64().units(magnitude64(bits)) * t,
                x,
            ) <= gap(binary64().units(other) * t, x)
        }),
{
    let ts = seq![Tok::Number(neg, whole, Some(frac))] + rest;
    assert(ts[0] == Tok::Number(neg, whole, Some(frac)));
    assert(ts.skip(1) =~= rest);
    let f = binary64();
    let digits = numeral_value(whole + frac);
    let start = lemma_find_nearest(f, digits, frac.len(), f.inf as nat);
    let m = f.nearest(digits, frac.len());
    assert(f.is_nearest(digits, frac.len(), m));
    assert(magnitude64(decimal64(neg, whole, frac)) == m) by {
        if neg {
            assert((m + 0x8000_0000_0000_0000) as u64 % 0x8000_0000_0000_0000 == m);
        }
    }
    if m < f.inf {
        law_nearest(f, digits, frac.len(), other);
    }
}

/// A radius is a 32-bit value nearest to the number it spells, with its sign.
pub proof fn law_radius_literal(neg: bool, whole: Seq<char>, frac: Seq<char>, other: nat)
    requires
        other < binary32().inf,
    ensures
        ({
            let bits = decimal32(neg, whole, frac);
            let t = pow(10, frac.len());
            let x = numeral_value(whole + frac) * pow(2, 149);
            &&& bits >= 0x8000_0000 <==> neg
            &&& magnitude32(bits) <= binary32().inf
            &&& magnitude32(bits) < binary32().inf ==> gap(
                binary32().units(magnitude32(bits)) * t,
                x,
            ) <= gap(binary32().units(other) * t, x)
        }),
{
    let f = binary32();
    let digits = numeral_value(whole + frac);
    let start = lemma_find_nearest(f, digits, frac.len(), f.inf as nat);
    let m = f.nearest(digits, frac.len());
    assert(f.is_nearest(digits, frac.len(), m));
    assert(magnitude32(decimal32(neg, whole, frac)) == m) by {
        if neg {
            assert((m + 0x8000_0000) as u32 % 0x8000_0000 == m);
        }
    }
    if m < f.inf {
        law_nearest(f, digits, frac.len(), other);
    }
}

} // verus!
