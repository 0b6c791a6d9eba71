//! Strings as sequences of characters, and decimal numerals.

use crate::bignat::{power, BigNat};
use vstd::prelude::*;

verus! {

/// `String::push` appends one character to the end of the string.
pub assume_specification[ std::string::String::push ](s: &mut std::string::String, c: char)
    ensures
        final(s)@ == old(s)@.push(c),
;

/// The characters of `s`.
pub fn chars_of(s: &str) -> (r: Vec<char>)
    ensures
        r@ == s@,
{
    let mut r: Vec<char> = Vec::new();
    for c in it: s.chars()
        invariant
            r@ =~= s@.take(it.index() as int),
            it.seq() == s@,
    {
        r.push(c);
    }
    assert(r@ =~= s@);
    r
}

/// The string made of `cs[from..to]`.
pub fn string_of(cs: &Vec<char>, from: usize, to: usize) -> (r: String)
    requires
        from <= to <= cs.len(),
    ensures
        r@ == cs@.subrange(from as int, to as int),
{
    let mut r: String = String::new();
    let mut i: usize = from;
    while i < to
        invariant
            from <= i <= to <= cs.len(),
            r@ =~= cs@.subrange(from as int, i as int),
        decreases to - i,
    {
        r.push(cs[i]);
        i = i + 1;
    }
    r
}

/// Whether `c` is a decimal digit.
pub open spec fn is_digit(c: char) -> bool {
    '0' <= c <= '9'
}

/// Whether every character of `s` is a decimal digit.
pub open spec fn all_digits(s: Seq<char>) -> bool {
    forall|i: int| 0 <= i < s.len() ==> is_digit(#[trigger] s[i])
}

/// The number that the digit `c` stands for.
pub open spec fn digit_value(c: char) -> nat {
    (c as int - '0' as int) as nat
}

/// The digit that stands for `d`.
pub open spec fn digit_char(d: nat) -> char {
    ('0' as int + d) as char
}

/// The number that the numeral `s` stands for.
pub open spec fn numeral_value(s: Seq<char>) -> nat
    decreases s.len(),
{
    if s.len() == 0 {
        0
    } else {
        numeral_value(s.drop_last()) * 10 + digit_value(s.last())
    }
}

/// The numeral of `n`, without leading zeros.
pub open spec fn numeral(n: nat) -> Seq<char>
    decreases n,
{
    if n < 10 {
        seq![digit_char(n)]
    } else {
        numeral(n / 10).push(digit_char(n % 10))
    }
}

/// `n` zeros.
pub open spec fn zeros(n: nat) -> Seq<char> {
    Seq::new(n, |i: int| '0')
}

pub proof fn lemma_numeral(n: nat)
    ensures
        numeral(n).len() > 0,
        all_digits(numeral(n)),
        numeral_value(numeral(n)) == n,
    decreases n,
{
    if n < 10 {
        assert(numeral(n).drop_last() =~= seq![]);
        assert(numeral_value(numeral(n).drop_last()) == 0);
    } else {
        lemma_numeral(n / 10);
        assert(numeral(n).drop_last() =~= numeral(n / 10));
    }
}

/// The value of a numeral in two parts.
pub proof fn lemma_numeral_value_concat(a: Seq<char>, b: Seq<char>)
    ensures
        numeral_value(a + b) == numeral_value(a) * power(10, b.len()) + numeral_value(b),
    decreases b.len(),
{
    if b.len() == 0 {
        assert(a + b =~= a);
        assert(numeral_value(a) * power(10, 0) == numeral_value(a)) by (nonlinear_arith)
            requires
                power(10, 0) == 1,
        ;
    } else {
        lemma_numeral_value_concat(a, b.drop_last());
        assert((a + b).drop_last() =~= a + b.drop_last());
        let p = power(10, (b.len() - 1) as nat);
        let x = numeral_value(a);
        assert(power(10, b.len()) == 10 * p);
        assert((x * p) * 10 == x * (10 * p)) by (nonlinear_arith);
    }
}

pub proof fn lemma_zeros_value(n: nat)
    ensures
        numeral_value(zeros(n)) == 0,
        all_digits(zeros(n)),
    decreases n,
{
    if n > 0 {
        lemma_zeros_value((n - 1) as nat);
        assert(zeros(n).drop_last() =~= zeros((n - 1) as nat));
    }
}

/// The digit that stands for `d`.
pub fn exec_digit_char(d: u128) -> (r: char)
    requires
        d < 10,
    ensures
        r == digit_char(d as nat),
        is_digit(r),
        digit_value(r) == d,
{
    match d {
        0 => '0',
        1 => '1',
        2 => '2',
        3 => '3',
        4 => '4',
        5 => '5',
        6 => '6',
        7 => '7',
        8 => '8',
        _ => '9',
    }
}

/// The number that the digit `c` stands for.
pub fn exec_digit_value(c: char) -> (r: u32)
    requires
        is_digit(c),
    ensures
        r == digit_value(c),
        r < 10,
{
    (c as u32) - ('0' as u32)
}

/// Appends the numeral of `n` to `out`.
pub fn push_numeral(out: &mut String, n: u128)
    ensures
        final(out)@ == old(out)@ + numeral(n as nat),
    decreases n,
{
    if n >= 10 {
        push_numeral(out, n / 10);
    }
    out.push(exec_digit_char(n % 10));
    assert(out@ =~= old(out)@ + numeral(n as nat));
}

/// Appends `n` zeros to `out`.
pub fn push_zeros(out: &mut String, n: u32)
    ensures
        final(out)@ == old(out)@ + zeros(n as nat),
{
    let mut i: u32 = 0;
    let ghost start = out@;
    while i < n
        invariant
            i <= n,
            out@ =~= start + zeros(i as nat),
        decreases n - i,
    {
        out.push('0');
        i = i + 1;
    }
}

/// The value of the numeral `cs[from..to]`, or `None` if it exceeds `max`.
pub fn numeral_up_to(cs: &Vec<char>, from: usize, to: usize, max: u64) -> (r: Option<u64>)
    requires
        from <= to <= cs.len(),
        all_digits(cs@.subrange(from as int, to as int)),
    ensures
        match r {
            Some(n) => n == numeral_value(cs@.subrange(from as int, to as int)) && n <= max,
            None => numeral_value(cs@.subrange(from as int, to as int)) > max,
        },
{
    let mut n: u64 = 0;
    let mut i: usize = from;
    let ghost whole = cs@.subrange(from as int, to as int);
    while i < to
        invariant
            from <= i <= to <= cs.len(),
            whole == cs@.subrange(from as int, to as int),
            all_digits(whole),
            n == numeral_value(cs@.subrange(from as int, i as int)),
            n <= max,
        decreases to - i,
    {
        proof {
            let part = cs@.subrange(from as int, i + 1);
            assert(part.drop_last() =~= cs@.subrange(from as int, i as int));
            assert(is_digit(whole[i - from]));
            assert(whole =~= part + cs@.subrange(i + 1, to as int));
            lemma_numeral_value_concat(part, cs@.subrange(i + 1, to as int));
            crate::bignat::lemma_power_positive(10, (to - (i + 1)) as nat);
            let p = power(10, (to - (i + 1)) as nat);
            assert(numeral_value(part) * p >= numeral_value(part)) by (nonlinear_arith)
                requires
                    p >= 1,
            ;
        }
        let d: u64 = exec_digit_value(cs[i]) as u64;
        if n > (u64::MAX - d) / 10 || n * 10 + d > max {
            return None;
        }
        n = n * 10 + d;
        i = i + 1;
    }
    Some(n)
}

/// Continues the numeral value `acc` with the digits `cs[from..to]`.
pub fn extend_big(acc: &mut BigNat, cs: &Vec<char>, from: usize, to: usize)
    requires
        from <= to <= cs.len(),
        all_digits(cs@.subrange(from as int, to as int)),
    ensures
        final(acc)@ == old(acc)@ * power(10, (to - from) as nat) + numeral_value(
            cs@.subrange(from as int, to as int),
        ),
{
    let mut i: usize = from;
    let ghost start = acc@;
    let ghost whole = cs@.subrange(from as int, to as int);
    assert(start * power(10, 0) == start) by (nonlinear_arith)
        requires
            power(10, 0) == 1,
    ;
    while i < to
        invariant
            from <= i <= to <= cs.len(),
            whole == cs@.subrange(from as int, to as int),
            all_digits(whole),
            acc@ == start * power(10, (i - from) as nat) + numeral_value(
                cs@.subrange(from as int, i as int),
            ),
        decreases to - i,
    {
        proof {
            let part = cs@.subrange(from as int, i + 1);
            assert(part.drop_last() =~= cs@.subrange(from as int, i as int));
            assert(is_digit(whole[i - from]));
            let p = power(10, (i - from) as nat);
            assert(power(10, (i + 1 - from) as nat) == 10 * p);
            let v = numeral_value(cs@.subrange(from as int, i as int));
            assert((start * p + v) * 10 == start * (10 * p) + v * 10) by (nonlinear_arith);
        }
        acc.scale(10, exec_digit_value(cs[i]));
        i = i + 1;
    }
}

} // verus!
