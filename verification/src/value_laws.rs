//! What comparing values promises.

use crate::ast::CmpOp;
use crate::eval::{literal_val, satisfies};
use crate::ieee::{from_integer, law_order_of_values, order64, signed_units64};
use crate::number_laws::law_from_integer;
use crate::syntax::Literal;
use crate::value::{
    compare_vals, equal_vals, relate_texts, relate_vals, same_val, Metadata, Relation, Val, Value,
};
use vstd::arithmetic::power::{lemma_pow_positive, pow};
use vstd::prelude::*;
use vstd::std_specs::cmp::PartialEqSpec;

verus! {

proof fn lemma_same_symmetric(a: Val, b: Val)
    requires
        same_val(a, b),
    ensures
        same_val(b, a),
    decreases a,
{
    match (a, b) {
        (Val::Array(x), Val::Array(y)) => {
            assert forall|i: int| 0 <= i < y.len() implies same_val(#[trigger] y[i], x[i]) by {
                assert(same_val(x[i], y[i]));
                lemma_same_symmetric(x[i], y[i]);
            }
        },
        (Val::Object(x), Val::Object(y)) => {
            assert forall|k: Seq<char>| y.dom().contains(k) implies same_val(
                #[trigger] y[k],
                x[k],
            ) by {
                assert(same_val(x[k], y[k]));
                lemma_same_symmetric(x[k], y[k]);
            }
        },
        _ => {},
    }
}

/// Equality goes both ways.
pub proof fn law_equality_is_symmetric(a: Val, b: Val)
    ensures
        equal_vals(a, b) == equal_vals(b, a),
{
    if same_val(a, b) {
        lemma_same_symmetric(a, b);
    }
    if same_val(b, a) {
        lemma_same_symmetric(b, a);
    }
}

/// The relation seen from the other side.
pub open spec fn reversed(r: Relation) -> Relation {
    match r {
        Relation::Less => Relation::Greater,
        Relation::Equal => Relation::Equal,
        Relation::Greater => Relation::Less,
    }
}

proof fn lemma_texts(a: Seq<char>, b: Seq<char>)
    ensures
        relate_texts(b, a) == reversed(relate_texts(a, b)),
        relate_texts(a, b) == Relation::Equal <==> a == b,
    decreases a.len(),
{
    if a.len() > 0 && b.len() > 0 {
        if a[0] == b[0] {
            lemma_texts(a.skip(1), b.skip(1));
            if a.skip(1) == b.skip(1) {
                assert(a =~= seq![a[0]] + a.skip(1));
                assert(b =~= seq![b[0]] + b.skip(1));
            }
        }
    } else if a.len() == b.len() {
        assert(a =~= b);
    }
}

/// Order is antisymmetric: swapping the sides swaps the relation.
pub proof fn law_order_is_antisymmetric(a: Val, b: Val)
    ensures
        relate_vals(b, a) == match relate_vals(a, b) {
            Some(r) => Some(reversed(r)),
            None => None,
        },
{
    if let (Val::Str(x), Val::Str(y)) = (a, b) {
        lemma_texts(x, y);
    }
}

/// Order and equality agree wherever two values can be ordered.
pub proof fn law_order_agrees_with_equality(a: Val, b: Val)
    ensures
        relate_vals(a, b) matches Some(r) ==> (r == Relation::Equal <==> equal_vals(a, b)),
{
    if let (Val::Str(x), Val::Str(y)) = (a, b) {
        lemma_texts(x, y);
    }
}

/// Each comparison is the opposite of another, wherever two values can be
/// ordered.
pub proof fn law_comparisons_pair_up(a: Val, b: Val)
    requires
        relate_vals(a, b) is Some,
    ensures
        compare_vals(a, b, CmpOp::Eq)->Some_0 != compare_vals(a, b, CmpOp::Ne)->Some_0,
        compare_vals(a, b, CmpOp::Lt)->Some_0 != compare_vals(a, b, CmpOp::Ge)->Some_0,
        compare_vals(a, b, CmpOp::Gt)->Some_0 != compare_vals(a, b, CmpOp::Le)->Some_0,
{
}

/// Nothing is ordered with `NULL`, and no text, number or boolean equals it.
pub proof fn law_null_matches_no_scalar(v: Val, op: CmpOp)
    ensures
        !satisfies(v, op, literal_val(Literal::Null)),
        !(v is Array) ==> !equal_vals(v, literal_val(Literal::Null)),
{
}

// ----- Kind by kind -----

/// Integers compare as integers.
pub proof fn law_integers_compare(x: i64, y: i64)
    ensures
        equal_vals(Val::I64(x), Val::I64(y)) <==> x == y,
        same_val(Val::I64(x), Val::I64(y)) <==> x == y,
        compare_vals(Val::I64(x), Val::I64(y), CmpOp::Lt) == Some(x < y),
        compare_vals(Val::I64(x), Val::I64(y), CmpOp::Le) == Some(x <= y),
        compare_vals(Val::I64(x), Val::I64(y), CmpOp::Gt) == Some(x > y),
        compare_vals(Val::I64(x), Val::I64(y), CmpOp::Ge) == Some(x >= y),
        compare_vals(Val::I64(x), Val::I64(y), CmpOp::Eq) == Some(x == y),
        compare_vals(Val::I64(x), Val::I64(y), CmpOp::Ne) == Some(x != y),
{
}

/// False comes before true.
pub proof fn law_booleans_compare(x: bool, y: bool)
    ensures
        equal_vals(Val::Bool(x), Val::Bool(y)) <==> x == y,
        same_val(Val::Bool(x), Val::Bool(y)) <==> x == y,
        compare_vals(Val::Bool(x), Val::Bool(y), CmpOp::Lt) == Some(!x && y),
        compare_vals(Val::Bool(x), Val::Bool(y), CmpOp::Le) == Some(!x || y),
        compare_vals(Val::Bool(x), Val::Bool(y), CmpOp::Gt) == Some(x && !y),
        compare_vals(Val::Bool(x), Val::Bool(y), CmpOp::Ge) == Some(x || !y),
        compare_vals(Val::Bool(x), Val::Bool(y), CmpOp::Eq) == Some(x == y),
        compare_vals(Val::Bool(x), Val::Bool(y), CmpOp::Ne) == Some(x != y),
{
}

/// Whether `x` comes before `y` in a dictionary: they agree up to some place,
/// and there `x` ends or has the smaller character.
pub open spec fn precedes(x: Seq<char>, y: Seq<char>) -> bool {
    exists|i: int|
        0 <= i <= x.len() && i < y.len() && #[trigger] x.take(i) == y.take(i) && (i == x.len()
            || x[i] < y[i])
}

proof fn lemma_precedes(x: Seq<char>, y: Seq<char>)
    ensures
        relate_texts(x, y) == Relation::Less <==> precedes(x, y),
    decreases x.len(),
{
    if x.len() == 0 {
        if y.len() > 0 {
            assert(x.take(0) =~= y.take(0));
        }
    } else if y.len() == 0 {
    } else if x[0] != y[0] {
        if x[0] < y[0] {
            assert(x.take(0) =~= y.take(0));
        }
        if precedes(x, y) {
            let i = choose|i: int|
                0 <= i <= x.len() && i < y.len() && #[trigger] x.take(i) == y.take(i) && (i
                    == x.len() || x[i] < y[i]);
            if i > 0 {
                assert(x.take(i)[0] == y.take(i)[0]);
            }
        }
    } else {
        let xs = x.skip(1);
        let ys = y.skip(1);
        lemma_precedes(xs, ys);
        if precedes(xs, ys) {
            let i = choose|i: int|
                0 <= i <= xs.len() && i < ys.len() && #[trigger] xs.take(i) == ys.take(i) && (i
                    == xs.len() || xs[i] < ys[i]);
            assert forall|j: int| 0 <= j < i + 1 implies x[j] == y[j] by {
                if j > 0 {
                    assert(xs.take(i)[j - 1] == ys.take(i)[j - 1]);
                }
            }
            assert(x.take(i + 1) =~= y.take(i + 1));
        }
        if precedes(x, y) {
            let i = choose|i: int|
                0 <= i <= x.len() && i < y.len() && #[trigger] x.take(i) == y.take(i) && (i
                    == x.len() || x[i] < y[i]);
            assert(i > 0);
            assert forall|j: int| 0 <= j < i - 1 implies xs[j] == ys[j] by {
                assert(x.take(i)[j + 1] == y.take(i)[j + 1]);
            }
            assert(xs.take(i - 1) =~= ys.take(i - 1));
        }
    }
}

/// Texts compare as in a dictionary, character by character.
pub proof fn law_texts_compare(x: Seq<char>, y: Seq<char>)
    ensures
        equal_vals(Val::Str(x), Val::Str(y)) <==> x == y,
        same_val(Val::Str(x), Val::Str(y)) <==> x == y,
        compare_vals(Val::Str(x), Val::Str(y), CmpOp::Lt) == Some(precedes(x, y)),
        compare_vals(Val::Str(x), Val::Str(y), CmpOp::Le) == Some(!precedes(y, x)),
        compare_vals(Val::Str(x), Val::Str(y), CmpOp::Gt) == Some(precedes(y, x)),
        compare_vals(Val::Str(x), Val::Str(y), CmpOp::Ge) == Some(!precedes(x, y)),
        compare_vals(Val::Str(x), Val::Str(y), CmpOp::Eq) == Some(x == y),
        compare_vals(Val::Str(x), Val::Str(y), CmpOp::Ne) == Some(x != y),
{
    lemma_texts(x, y);
    lemma_precedes(x, y);
    lemma_precedes(y, x);
}

/// Floating-point numbers compare by value. NaN, which lies past infinity, is
/// equal to nothing and ordered with nothing.
pub proof fn law_floats_compare(x: u64, y: u64)
    ensures
        ({
            let a = Val::F64(x);
            let b = Val::F64(y);
            let nan = x % 0x8000_0000_0000_0000 > 0x7ff0_0000_0000_0000 || y % 0x8000_0000_0000_0000
                > 0x7ff0_0000_0000_0000;
            let (p, q) = (order64(x), order64(y));
            if nan {
                &&& !equal_vals(a, b)
                &&& !same_val(a, b)
                &&& forall|op: CmpOp| (#[trigger] compare_vals(a, b, op)) is None
            } else {
                &&& equal_vals(a, b) <==> p == q
                &&& same_val(a, b) <==> p == q
                &&& compare_vals(a, b, CmpOp::Lt) == Some(p < q)
                &&& compare_vals(a, b, CmpOp::Le) == Some(p <= q)
                &&& compare_vals(a, b, CmpOp::Gt) == Some(p > q)
                &&& compare_vals(a, b, CmpOp::Ge) == Some(p >= q)
                &&& compare_vals(a, b, CmpOp::Eq) == Some(p == q)
                &&& compare_vals(a, b, CmpOp::Ne) == Some(p != q)
            }
        }),
{
}

/// An integer of at most 53 bits and a finite floating-point number compare by
/// value, on either side; 2^1074 units are 1. Any integer compares as the
/// nearest floating-point number does.
pub proof fn law_integer_with_float(n: i64, y: u64)
    ensures
        ({
            let a = Val::I64(n);
            let b = Val::F64(y);
            let r = Val::F64(from_integer(n as int));
            let (p, q) = (n * pow(2, 1074), signed_units64(y));
            &&& equal_vals(a, b) == equal_vals(r, b)
            &&& equal_vals(b, a) == equal_vals(b, r)
            &&& forall|op: CmpOp| #[trigger] compare_vals(a, b, op) == compare_vals(r, b, op)
            &&& forall|op: CmpOp| #[trigger] compare_vals(b, a, op) == compare_vals(b, r, op)
            &&& -0x20_0000_0000_0000 < n < 0x20_0000_0000_0000 && y % 0x8000_0000_0000_0000
                < 0x7ff0_0000_0000_0000 ==> {
                &&& equal_vals(a, b) <==> p == q
                &&& equal_vals(b, a) <==> p == q
                &&& compare_vals(a, b, CmpOp::Lt) == Some(p < q)
                &&& compare_vals(a, b, CmpOp::Le) == Some(p <= q)
                &&& compare_vals(a, b, CmpOp::Gt) == Some(p > q)
                &&& compare_vals(a, b, CmpOp::Ge) == Some(p >= q)
                &&& compare_vals(b, a, CmpOp::Lt) == Some(q < p)
                &&& compare_vals(b, a, CmpOp::Le) == Some(q <= p)
                &&& compare_vals(b, a, CmpOp::Gt) == Some(q > p)
                &&& compare_vals(b, a, CmpOp::Ge) == Some(q >= p)
            }
        }),
{
    law_from_integer(n, 0);
    if y % 0x8000_0000_0000_0000 < 0x7ff0_0000_0000_0000 {
        law_order_of_values(from_integer(n as int), y);
    }
}

/// Whether a value is a number.
pub open spec fn is_number(v: Val) -> bool {
    v is I64 || v is F64
}

/// Values of different kinds are unequal and not ordered, but for numbers.
/// Lists and bags are not ordered at all.
pub proof fn law_kinds_do_not_mix(a: Val, b: Val, op: CmpOp)
    ensures
        (a is Str) != (b is Str) || (a is Bool) != (b is Bool) || (a is Array) != (b is Array) || (
        a is Object) != (b is Object) || is_number(a) != is_number(b) ==> !equal_vals(a, b)
            && compare_vals(a, b, op) is None,
        a is Array || a is Object ==> compare_vals(a, b, op) is None,
        (a is I64) != (b is I64) ==> !same_val(a, b),
{
}

/// Lists are equal if they are as long and equal item by item; bags if they
/// have the same names and equal values under them.
pub proof fn law_collections_compare(
    x: Seq<Val>,
    y: Seq<Val>,
    m: Map<Seq<char>, Val>,
    n: Map<Seq<char>, Val>,
)
    ensures
        equal_vals(Val::Array(x), Val::Array(y)) <==> x.len() == y.len() && forall|i: int|
            0 <= i < x.len() ==> same_val(#[trigger] x[i], y[i]),
        same_val(Val::Array(x), Val::Array(y)) == equal_vals(Val::Array(x), Val::Array(y)),
        equal_vals(Val::Object(m), Val::Object(n)) <==> m.dom() == n.dom() && forall|k: Seq<char>|
            m.dom().contains(k) ==> same_val(#[trigger] m[k], n[k]),
        same_val(Val::Object(m), Val::Object(n)) == equal_vals(Val::Object(m), Val::Object(n)),
{
    let (a, b) = (Val::Array(x), Val::Array(y));
    let (c, d) = (Val::Object(m), Val::Object(n));
    assert(same_val(a, b) <==> x.len() == y.len() && forall|i: int|
        0 <= i < x.len() ==> same_val(#[trigger] x[i], y[i]));
    assert(same_val(c, d) <==> m.dom() == n.dom() && forall|k: Seq<char>|
        m.dom().contains(k) ==> same_val(#[trigger] m[k], n[k]));
}

proof fn lemma_rounding_grows(m: i64, n: i64)
    requires
        m <= n,
    ensures
        signed_units64(from_integer(m as int)) <= signed_units64(from_integer(n as int)),
{
    let (p, q) = (from_integer(m as int), from_integer(n as int));
    law_from_integer(m, 0);
    law_from_integer(n, 0);
    law_from_integer(m, q);
    law_from_integer(n, p);
    let one = pow(2, 1074);
    lemma_pow_positive(2, 1074);
    if m < n {
        assert(m * one < n * one) by (nonlinear_arith)
            requires
                m < n,
                one > 0,
        ;
    }
}

proof fn lemma_precedes_transitive(x: Seq<char>, y: Seq<char>, z: Seq<char>)
    requires
        precedes(x, y),
        precedes(y, z),
    ensures
        precedes(x, z),
{
    let i = choose|i: int|
        0 <= i <= x.len() && i < y.len() && #[trigger] x.take(i) == y.take(i) && (i == x.len()
            || x[i] < y[i]);
    let j = choose|j: int|
        0 <= j <= y.len() && j < z.len() && #[trigger] y.take(j) == z.take(j) && (j == y.len()
            || y[j] < z[j]);
    let k = if i < j {
        i
    } else {
        j
    };
    assert forall|l: int| 0 <= l < k implies x[l] == z[l] by {
        assert(x.take(i)[l] == y.take(i)[l]);
        assert(y.take(j)[l] == z.take(j)[l]);
    }
    assert(x.take(k) =~= z.take(k));
    if i < j {
        assert(y.take(j)[i] == z.take(j)[i]);
    } else if j < i {
        assert(x.take(i)[j] == y.take(i)[j]);
    }
}

/// Order is transitive, also across integers and floating-point numbers.
pub proof fn law_order_is_transitive(a: Val, b: Val, c: Val)
    requires
        compare_vals(a, b, CmpOp::Lt) == Some(true),
        compare_vals(b, c, CmpOp::Lt) == Some(true),
    ensures
        compare_vals(a, c, CmpOp::Lt) == Some(true),
{
    match (a, b, c) {
        (Val::Str(x), Val::Str(y), Val::Str(z)) => {
            lemma_precedes(x, y);
            lemma_precedes(y, z);
            lemma_precedes_transitive(x, y, z);
            lemma_precedes(x, z);
        },
        (Val::I64(x), Val::I64(y), Val::F64(z)) => {
            lemma_rounding_grows(x, y);
            law_from_integer(x, 0);
            law_from_integer(y, 0);
            law_order_of_values(from_integer(x as int), from_integer(y as int));
        },
        (Val::F64(x), Val::I64(y), Val::I64(z)) => {
            lemma_rounding_grows(y, z);
            law_from_integer(y, 0);
            law_from_integer(z, 0);
            law_order_of_values(from_integer(y as int), from_integer(z as int));
        },
        (Val::I64(x), Val::F64(y), Val::I64(z)) => {
            if z <= x {
                lemma_rounding_grows(z, x);
                law_from_integer(x, 0);
                law_from_integer(z, 0);
                law_order_of_values(from_integer(z as int), from_integer(x as int));
            }
        },
        (Val::I64(x), _, Val::F64(z)) => {
            law_from_integer(x, 0);
        },
        (Val::F64(x), _, Val::I64(z)) => {
            law_from_integer(z, 0);
        },
        _ => {},
    }
}

/// Two values, and two bags, are equal in code where their models are the
/// same.
pub proof fn law_equality_in_code(a: Value, b: Value, m: Metadata, n: Metadata)
    ensures
        a.eq_spec(&b) <==> same_val(a@, b@),
        m.eq_spec(&n) <==> same_val(Val::Object(m@), Val::Object(n@)),
{
}

} // verus!
