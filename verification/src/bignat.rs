//! Natural numbers of any size, as little-endian 32-bit limbs.

use vstd::prelude::*;

verus! {

/// The weight of the limb at position `n`.
pub open spec fn radix(n: nat) -> nat
    decreases n,
{
    if n == 0 {
        1
    } else {
        0x1_0000_0000 * radix((n - 1) as nat)
    }
}

/// The limb at position `i`; positions past the end hold zero.
pub open spec fn limb_at(s: Seq<u32>, i: int) -> nat {
    if 0 <= i < s.len() {
        s[i] as nat
    } else {
        0
    }
}

/// The number held by the limbs below position `n`.
pub open spec fn low_value(s: Seq<u32>, n: nat) -> nat
    decreases n,
{
    if n == 0 {
        0
    } else {
        low_value(s, (n - 1) as nat) + limb_at(s, n - 1) * radix((n - 1) as nat)
    }
}

/// `b` raised to the power `n`.
pub open spec fn power(b: nat, n: nat) -> nat
    decreases n,
{
    if n == 0 {
        1
    } else {
        b * power(b, (n - 1) as nat)
    }
}

pub proof fn lemma_radix_positive(n: nat)
    ensures
        radix(n) > 0,
    decreases n,
{
    if n > 0 {
        lemma_radix_positive((n - 1) as nat);
    }
}

pub proof fn lemma_power_positive(b: nat, n: nat)
    requires
        b > 0,
    ensures
        power(b, n) > 0,
    decreases n,
{
    if n > 0 {
        lemma_power_positive(b, (n - 1) as nat);
        assert(b * power(b, (n - 1) as nat) > 0) by (nonlinear_arith)
            requires
                b > 0,
                power(b, (n - 1) as nat) > 0,
        ;
    }
}

pub proof fn lemma_power_add(b: nat, m: nat, n: nat)
    ensures
        power(b, m + n) == power(b, m) * power(b, n),
    decreases m,
{
    if m > 0 {
        lemma_power_add(b, (m - 1) as nat, n);
        assert((m + n - 1) as nat == ((m - 1) as nat) + n);
        assert(power(b, m + n) == b * power(b, (m + n - 1) as nat));
        assert(b * (power(b, (m - 1) as nat) * power(b, n)) == (b * power(b, (m - 1) as nat))
            * power(b, n)) by (nonlinear_arith);
    } else {
        assert(1 * power(b, n) == power(b, n)) by (nonlinear_arith);
        assert(power(b, 0) == 1);
    }
}

proof fn lemma_low_value_bound(s: Seq<u32>, n: nat)
    ensures
        low_value(s, n) < radix(n),
    decreases n,
{
    if n > 0 {
        lemma_low_value_bound(s, (n - 1) as nat);
        let r = radix((n - 1) as nat);
        let x = limb_at(s, n - 1);
        assert(x * r <= 0xffff_ffff * r) by (nonlinear_arith)
            requires
                x <= 0xffff_ffff,
                r >= 0,
        ;
    }
}

proof fn lemma_low_value_prefix(s: Seq<u32>, t: Seq<u32>, n: nat)
    requires
        forall|i: int| 0 <= i < n ==> limb_at(s, i) == limb_at(t, i),
    ensures
        low_value(s, n) == low_value(t, n),
    decreases n,
{
    if n > 0 {
        lemma_low_value_prefix(s, t, (n - 1) as nat);
    }
}

proof fn lemma_low_value_beyond(s: Seq<u32>, n: nat)
    requires
        n >= s.len(),
    ensures
        low_value(s, n) == low_value(s, s.len()),
    decreases n,
{
    if n > s.len() {
        lemma_low_value_beyond(s, (n - 1) as nat);
        assert(limb_at(s, n - 1) * radix((n - 1) as nat) == 0) by (nonlinear_arith)
            requires
                limb_at(s, n - 1) == 0,
        ;
    }
}

/// A natural number.
pub struct BigNat {
    limbs: Vec<u32>,
}

impl BigNat {
    /// The number itself.
    pub closed spec fn view(&self) -> nat {
        low_value(self.limbs@, self.limbs@.len())
    }

    /// The number zero.
    pub fn zero() -> (r: BigNat)
        ensures
            r@ == 0,
    {
        BigNat { limbs: Vec::new() }
    }

    /// The number `x`.
    pub fn from_u64(x: u64) -> (r: BigNat)
        ensures
            r@ == x,
    {
        let top: u32 = (x / 0x1_0000_0000) as u32;
        let bottom: u32 = (x % 0x1_0000_0000) as u32;
        let mut r: BigNat = BigNat::zero();
        r.scale(0, top);
        r.scale(0x1_0000, 0);
        r.scale(0x1_0000, bottom);
        r
    }

    /// A copy of the number.
    pub fn copy(&self) -> (r: BigNat)
        ensures
            r@ == self@,
    {
        let mut limbs: Vec<u32> = Vec::new();
        let mut i: usize = 0;
        while i < self.limbs.len()
            invariant
                i <= self.limbs.len(),
                limbs@ =~= self.limbs@.take(i as int),
            decreases self.limbs.len() - i,
        {
            limbs.push(self.limbs[i]);
            i = i + 1;
        }
        assert(limbs@ =~= self.limbs@);
        BigNat { limbs }
    }

    /// Multiplies by `m` and adds `a`.
    pub fn scale(&mut self, m: u32, a: u32)
        ensures
            final(self)@ == old(self)@ * m + a,
    {
        let n: usize = self.limbs.len();
        let ghost before = self.limbs@;
        let mut carry: u32 = a;
        let mut i: usize = 0;
        proof {
            assert(low_value(before, 0) * m == 0) by (nonlinear_arith)
                requires
                    low_value(before, 0) == 0,
            ;
            assert(carry * radix(0) == carry) by (nonlinear_arith)
                requires
                    radix(0) == 1,
            ;
        }
        while i < n
            invariant
                i <= n,
                n == self.limbs.len(),
                n == before.len(),
                forall|j: int| i <= j < n ==> self.limbs@[j] == before[j],
                low_value(self.limbs@, i as nat) + carry * radix(i as nat) == low_value(
                    before,
                    i as nat,
                ) * m + a,
            decreases n - i,
        {
            let ghost prior = self.limbs@;
            let x: u32 = self.limbs[i];
            assert(x * m + carry <= 0xffff_ffff_ffff_ffff) by (nonlinear_arith)
                requires
                    x <= 0xffff_ffff,
                    m <= 0xffff_ffff,
                    carry <= 0xffff_ffff,
            ;
            assert(x * m <= 0xffff_ffff_ffff_ffff) by (nonlinear_arith)
                requires
                    x <= 0xffff_ffff,
                    m <= 0xffff_ffff,
            ;
            let t: u64 = (x as u64) * (m as u64) + (carry as u64);
            let lo: u32 = (t % 0x1_0000_0000) as u32;
            let hi: u32 = (t / 0x1_0000_0000) as u32;
            self.limbs.set(i, lo);
            proof {
                lemma_low_value_prefix(prior, self.limbs@, i as nat);
                let r = radix(i as nat);
                let lv = low_value(before, i as nat);
                let out = low_value(prior, i as nat);
                assert(radix((i + 1) as nat) == 0x1_0000_0000 * r);
                assert(low_value(self.limbs@, (i + 1) as nat) == out + lo * r);
                assert(low_value(before, (i + 1) as nat) == lv + x * r);
                assert(out + lo * r + hi * (0x1_0000_0000 * r) == (lv + x * r) * m + a)
                    by (nonlinear_arith)
                    requires
                        x * m + carry == lo + hi * 0x1_0000_0000,
                        out + carry * r == lv * m + a,
                ;
            }
            carry = hi;
            i = i + 1;
        }
        if carry > 0 {
            let ghost prior = self.limbs@;
            self.limbs.push(carry);
            proof {
                lemma_low_value_prefix(prior, self.limbs@, n as nat);
                assert(limb_at(self.limbs@, n as int) == carry);
            }
        } else {
            assert(carry * radix(n as nat) == 0) by (nonlinear_arith)
                requires
                    carry == 0,
            ;
        }
    }

    /// Multiplies by `b` raised to the power `n`.
    pub fn scale_power(&mut self, b: u32, n: u64)
        requires
            b <= 10,
        ensures
            final(self)@ == old(self)@ * power(b as nat, n as nat),
    {
        let ghost start = self@;
        assert(b * b <= 100 && (b * b) * (b * b) <= 10_000 && ((b * b) * (b * b)) * ((b * b) * (b
            * b)) <= 100_000_000) by (nonlinear_arith)
            requires
                b <= 10,
        ;
        let b2: u32 = b * b;
        let b4: u32 = b2 * b2;
        let b8: u32 = b4 * b4;
        proof {
            let x = b as nat;
            assert(power(x, 8) == b8) by {
                reveal_with_fuel(power, 9);
                assert(x * (x * (x * (x * (x * (x * (x * (x * 1))))))) == ((x * x) * (x * x)) * ((x
                    * x) * (x * x))) by (nonlinear_arith);
            }
            assert(start * power(b as nat, 0) == start) by (nonlinear_arith)
                requires
                    power(b as nat, 0) == 1,
            ;
        }
        let mut i: u64 = 0;
        while n - i >= 8
            invariant
                i <= n,
                power(b as nat, 8) == b8,
                self@ == start * power(b as nat, i as nat),
            decreases n - i,
        {
            let ghost p = power(b as nat, i as nat);
            self.scale(b8, 0);
            proof {
                lemma_power_add(b as nat, i as nat, 8);
                assert((start * p) * b8 == start * (p * b8)) by (nonlinear_arith);
            }
            i = i + 8;
        }
        while i < n
            invariant
                i <= n,
                self@ == start * power(b as nat, i as nat),
            decreases n - i,
        {
            let ghost p = power(b as nat, i as nat);
            self.scale(b, 0);
            proof {
                assert(power(b as nat, (i + 1) as nat) == b * p);
                assert((start * p) * b == start * (b * p)) by (nonlinear_arith);
            }
            i = i + 1;
        }
    }

    /// Whether the number is smaller than `other`.
    pub fn less_than(&self, other: &BigNat) -> (r: bool)
        ensures
            r == (self@ < other@),
    {
        let la: usize = self.limbs.len();
        let lb: usize = other.limbs.len();
        let n: usize = if la < lb {
            lb
        } else {
            la
        };
        let ghost a = self.limbs@;
        let ghost b = other.limbs@;
        proof {
            lemma_low_value_beyond(a, n as nat);
            lemma_low_value_beyond(b, n as nat);
        }
        let mut i: usize = n;
        while i > 0
            invariant
                i <= n,
                la == self.limbs.len(),
                lb == other.limbs.len(),
                a == self.limbs@,
                b == other.limbs@,
                self@ == low_value(a, n as nat),
                other@ == low_value(b, n as nat),
                low_value(a, n as nat) - low_value(a, i as nat) == low_value(b, n as nat)
                    - low_value(b, i as nat),
            decreases i,
        {
            let j: usize = i - 1;
            let x: u32 = if j < la {
                self.limbs[j]
            } else {
                0
            };
            let y: u32 = if j < lb {
                other.limbs[j]
            } else {
                0
            };
            proof {
                lemma_low_value_bound(a, j as nat);
                lemma_low_value_bound(b, j as nat);
                let r = radix(j as nat);
                assert(limb_at(a, j as int) == x);
                assert(limb_at(b, j as int) == y);
                if x < y {
                    assert((x + 1) * r <= y * r) by (nonlinear_arith)
                        requires
                            x < y,
                            r >= 0,
                    ;
                    assert((x + 1) * r == x * r + r) by (nonlinear_arith);
                }
                if y < x {
                    assert((y + 1) * r <= x * r) by (nonlinear_arith)
                        requires
                            y < x,
                            r >= 0,
                    ;
                    assert((y + 1) * r == y * r + r) by (nonlinear_arith);
                }
            }
            if x < y {
                return true;
            }
            if y < x {
                return false;
            }
            i = j;
        }
        false
    }
}

} // verus!
