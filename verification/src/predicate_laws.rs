//! What a predicate says of a row, form by form.

use crate::assign::assigned;
use crate::ast::CmpOp;
use crate::error::Failure;
use crate::eval::{all_hold, any_holds, cond_holds, literal_val};
use crate::logical::{Cond, CondAtom};
use crate::normal_form::{pred_holds, pred_verdict, preds_verdict, row_atoms};
use crate::params::{resolve_arg, Arg, Bindings};
use crate::syntax::{Assign, Expr, Field, Literal, Param, Pred};
use crate::value::{compare_vals, equal_vals, Bag, Val};
use vstd::prelude::*;

verus! {

/// Whether a literal or a bound parameter stands for the value `w`. `NULL`
/// stands for the empty list.
pub open spec fn stands_for(e: Expr, b: Bindings, w: Val) -> bool {
    match e {
        Expr::Literal(Literal::Str(s)) => w == Val::Str(s),
        Expr::Literal(Literal::I64(n)) => w == Val::I64(n),
        Expr::Literal(Literal::F64(x)) => w == Val::F64(x),
        Expr::Literal(Literal::Bool(v)) => w == Val::Bool(v),
        Expr::Literal(Literal::Null) => w == Val::Array(Seq::empty()),
        Expr::Param(p) => {
            ||| w matches Val::Str(s) && resolve_arg(b, p) == Ok::<Arg, Failure>(Arg::Str(s))
            ||| w matches Val::I64(n) && resolve_arg(b, p) == Ok::<Arg, Failure>(Arg::I64(n))
            ||| w matches Val::F64(x) && resolve_arg(b, p) == Ok::<Arg, Failure>(Arg::F64(x))
            ||| w matches Val::Bool(v) && resolve_arg(b, p) == Ok::<Arg, Failure>(Arg::Bool(v))
            ||| w == Val::Array(Seq::empty()) && resolve_arg(b, p) == Ok::<Arg, Failure>(Arg::Null)
        },
    }
}

/// Whether a row has the value `v` in a field, or in a named entry of a field
/// that is a nested bag.
pub open spec fn has_value(bag: Bag, f: Field, v: Val) -> bool {
    match f.subscript {
        None => bag.contains_key(f.name) && bag[f.name] == v,
        Some(key) => bag.contains_key(f.name) && bag[f.name] is Object
            && bag[f.name]->Object_0.contains_key(key) && bag[f.name]->Object_0[key] == v,
    }
}

/// Whether a predicate and the atom it is bound to come to `r` on a row.
pub open spec fn comes_to(p: Pred, a: CondAtom, bag: Bag, b: Bindings, r: Result<bool, Failure>) -> bool {
    pred_holds(p, bag, b) == r && cond_holds(Cond::Atom(a), bag, b) == r
}

/// `field = value` holds where the field's value equals it.
pub proof fn law_equality_on_rows(f: Field, e: Expr, v: Val, w: Val, bag: Bag, b: Bindings)
    requires
        stands_for(e, b, w),
        has_value(bag, f, v),
    ensures
        pred_holds(Pred::Eq(f, e), bag, b) == Ok::<bool, Failure>(equal_vals(v, w)),
        pred_holds(Pred::Cmp(f, CmpOp::Eq, e), bag, b) == Ok::<bool, Failure>(equal_vals(v, w)),
        cond_holds(Cond::Atom(CondAtom::Eq(f, e)), bag, b) == Ok::<bool, Failure>(
            equal_vals(v, w),
        ),
{
}

/// `field <op> value` holds where the field's value stands in that relation to
/// it; values that are not ordered stand in none.
pub proof fn law_comparison_on_rows(
    f: Field,
    op: CmpOp,
    e: Expr,
    v: Val,
    w: Val,
    bag: Bag,
    b: Bindings,
)
    requires
        op != CmpOp::Eq,
        stands_for(e, b, w),
        has_value(bag, f, v),
    ensures
        pred_holds(Pred::Cmp(f, op, e), bag, b) == Ok::<bool, Failure>(
            compare_vals(v, w, op) == Some(true),
        ),
        cond_holds(Cond::Atom(CondAtom::Cmp(f, op, e)), bag, b) == Ok::<bool, Failure>(
            compare_vals(v, w, op) == Some(true),
        ),
{
}

/// An integer field and an integer compare as integers do.
pub proof fn law_integer_fields(f: Field, x: i64, y: i64, bag: Bag, b: Bindings)
    requires
        has_value(bag, f, Val::I64(x)),
    ensures
        ({
            let e = Expr::Literal(Literal::I64(y));
            &&& pred_holds(Pred::Eq(f, e), bag, b) == Ok::<bool, Failure>(x == y)
            &&& pred_holds(Pred::Cmp(f, CmpOp::Ne, e), bag, b) == Ok::<bool, Failure>(x != y)
            &&& pred_holds(Pred::Cmp(f, CmpOp::Lt, e), bag, b) == Ok::<bool, Failure>(x < y)
            &&& pred_holds(Pred::Cmp(f, CmpOp::Le, e), bag, b) == Ok::<bool, Failure>(x <= y)
            &&& pred_holds(Pred::Cmp(f, CmpOp::Gt, e), bag, b) == Ok::<bool, Failure>(x > y)
            &&& pred_holds(Pred::Cmp(f, CmpOp::Ge, e), bag, b) == Ok::<bool, Failure>(x >= y)
        }),
{
}

/// `field IN (...)` holds where the field's value equals one of the list.
pub proof fn law_membership_on_rows(f: Field, ls: Seq<Literal>, v: Val, bag: Bag, b: Bindings)
    requires
        has_value(bag, f, v),
    ensures
        ({
            let r = Ok::<bool, Failure>(
                exists|i: int, w: Val|
                    0 <= i < ls.len() && stands_for(Expr::Literal(#[trigger] ls[i]), b, w)
                        && #[trigger] equal_vals(v, w),
            );
            comes_to(Pred::In(f, ls), CondAtom::In(f, ls), bag, b, r)
        }),
{
    let p = Pred::In(f, ls);
    let any = exists|i: int|
        0 <= i < ls.len() && equal_vals(v, literal_val(#[trigger] ls[i]));
    let verdict = pred_holds(p, bag, b);
    assert(verdict is Ok);
    if verdict->Ok_0 {
        let i = choose|i: int|
            0 <= i < ls.len() && equal_vals(v, literal_val(#[trigger] ls[i]));
        assert(0 <= i < ls.len() && equal_vals(v, literal_val(ls[i])));
    }
    if any {
        assert(verdict->Ok_0);
    }
    assert(cond_holds(Cond::Atom(CondAtom::In(f, ls)), bag, b) == Ok::<bool, Failure>(any));
    if any {
        let i = choose|i: int|
            0 <= i < ls.len() && equal_vals(v, literal_val(#[trigger] ls[i]));
        let w = literal_val(ls[i]);
        assert(stands_for(Expr::Literal(ls[i]), b, w));
    }
    if exists|i: int, w: Val|
        0 <= i < ls.len() && stands_for(Expr::Literal(#[trigger] ls[i]), b, w)
            && #[trigger] equal_vals(v, w) {
        let (i, w) = choose|i: int, w: Val|
            0 <= i < ls.len() && stands_for(Expr::Literal(#[trigger] ls[i]), b, w)
                && #[trigger] equal_vals(v, w);
        assert(literal_val(ls[i]) == w);
    }
}

/// `field BETWEEN lo AND hi` holds where the field's value is at least `lo`
/// and at most `hi`.
pub proof fn law_between_on_rows(
    f: Field,
    lo: Literal,
    hi: Literal,
    v: Val,
    x: Val,
    y: Val,
    bag: Bag,
    b: Bindings,
)
    requires
        has_value(bag, f, v),
        stands_for(Expr::Literal(lo), b, x),
        stands_for(Expr::Literal(hi), b, y),
    ensures
        ({
            let r = Ok::<bool, Failure>(
                compare_vals(v, x, CmpOp::Ge) == Some(true) && compare_vals(v, y, CmpOp::Le)
                    == Some(true),
            );
            comes_to(Pred::Between(f, lo, hi), CondAtom::Between(f, lo, hi), bag, b, r)
        }),
{
}

/// `field @> value` holds where the field is a list with an item that equals
/// the value.
pub proof fn law_containment_on_rows(f: Field, l: Literal, v: Val, w: Val, bag: Bag, b: Bindings)
    requires
        has_value(bag, f, v),
        stands_for(Expr::Literal(l), b, w),
    ensures
        ({
            let r = Ok::<bool, Failure>(
                v is Array && exists|i: int|
                    0 <= i < v->Array_0.len() && equal_vals(#[trigger] v->Array_0[i], w),
            );
            comes_to(Pred::ArrayContains(f, l), CondAtom::ArrayContains(f, l), bag, b, r)
        }),
{
    if let Val::Array(xs) = v {
        assert(pred_holds(Pred::ArrayContains(f, l), bag, b) == Ok::<bool, Failure>(
            exists|i: int| 0 <= i < xs.len() && equal_vals(#[trigger] xs[i], w),
        ));
    }
}

/// `IS NULL` holds where the field has no value, `IS NOT NULL` where it has
/// one, whatever it is.
pub proof fn law_presence_on_rows(f: Field, v: Val, bag: Bag, b: Bindings)
    ensures
        has_value(bag, f, v) ==> pred_holds(Pred::IsNull(f, false), bag, b) == Ok::<bool, Failure>(
            false,
        ) && comes_to(
            Pred::IsNull(f, true),
            CondAtom::IsNotNull(f),
            bag,
            b,
            Ok::<bool, Failure>(true),
        ),
        (forall|x: Val| !#[trigger] has_value(bag, f, x)) ==> pred_holds(
            Pred::IsNull(f, false),
            bag,
            b,
        ) == Ok::<bool, Failure>(true) && comes_to(
            Pred::IsNull(f, true),
            CondAtom::IsNotNull(f),
            bag,
            b,
            Ok::<bool, Failure>(false),
        ),
{
    if forall|x: Val| !#[trigger] has_value(bag, f, x) {
        match f.subscript {
            None => {
                assert(!has_value(bag, f, bag[f.name]));
            },
            Some(key) => {
                assert(!has_value(bag, f, bag[f.name]->Object_0[key]));
            },
        }
    }
}

/// Of a field that has no value nothing holds.
pub proof fn law_absent_fields(
    f: Field,
    op: CmpOp,
    e: Expr,
    w: Val,
    ls: Seq<Literal>,
    lo: Literal,
    hi: Literal,
    bag: Bag,
    b: Bindings,
)
    requires
        forall|x: Val| !#[trigger] has_value(bag, f, x),
        stands_for(e, b, w),
    ensures
        pred_holds(Pred::Eq(f, e), bag, b) == Ok::<bool, Failure>(false),
        pred_holds(Pred::Cmp(f, op, e), bag, b) == Ok::<bool, Failure>(false),
        pred_holds(Pred::In(f, ls), bag, b) == Ok::<bool, Failure>(false),
        pred_holds(Pred::Between(f, lo, hi), bag, b) == Ok::<bool, Failure>(false),
        pred_holds(Pred::ArrayContains(f, lo), bag, b) == Ok::<bool, Failure>(false),
        cond_holds(Cond::Atom(CondAtom::Eq(f, e)), bag, b) == Ok::<bool, Failure>(false),
        cond_holds(Cond::Atom(CondAtom::Cmp(f, op, e)), bag, b) == Ok::<bool, Failure>(false),
{
    match f.subscript {
        None => {
            assert(!has_value(bag, f, bag[f.name]));
        },
        Some(key) => {
            assert(!has_value(bag, f, bag[f.name]->Object_0[key]));
        },
    }
}

/// A parameter that is not bound, or not to a scalar, is an error.
pub proof fn law_unusable_parameters(f: Field, op: CmpOp, p: Param, bag: Bag, b: Bindings)
    requires
        match resolve_arg(b, p) {
            Err(_) => true,
            Ok(a) => a is Id || a is Vector || a is Metadata || a is Batch,
        },
    ensures
        pred_holds(Pred::Eq(f, Expr::Param(p)), bag, b) matches Err(Failure::Execution(_)),
        pred_holds(Pred::Cmp(f, op, Expr::Param(p)), bag, b) matches Err(Failure::Execution(_)),
{
}

// ----- Combinators -----

/// `NOT` turns a verdict round and passes an error on.
pub proof fn law_not(p: Pred, c: Cond, bag: Bag, b: Bindings)
    ensures
        pred_holds(Pred::Not(Box::new(p)), bag, b) == match pred_holds(p, bag, b) {
            Ok(v) => Ok::<bool, Failure>(!v),
            Err(e) => Err(e),
        },
        cond_holds(Cond::Not(Box::new(c)), bag, b) == match cond_holds(c, bag, b) {
            Ok(v) => Ok::<bool, Failure>(!v),
            Err(e) => Err(e),
        },
{
}

/// Where all terms before `i` leave it open, the `i`-th decides.
proof fn lemma_terms(ps: Seq<Pred>, bag: Bag, b: Bindings, all: bool)
    ensures
        ({
            let v = row_atoms(bag, b);
            let r = preds_verdict(ps, v, all);
            &&& r == Ok::<bool, Failure>(all) <==> forall|i: int|
                0 <= i < ps.len() ==> #[trigger] pred_verdict(ps[i], v) == Ok::<bool, Failure>(all)
            &&& r != Ok::<bool, Failure>(all) ==> exists|i: int|
                0 <= i < ps.len() && #[trigger] pred_verdict(ps[i], v) == r && r != Ok::<
                    bool,
                    Failure,
                >(all) && forall|j: int|
                    0 <= j < i ==> #[trigger] pred_verdict(ps[j], v) == Ok::<bool, Failure>(all)
        }),
    decreases ps.len(),
{
    if ps.len() > 0 {
        let v = row_atoms(bag, b);
        let qs = ps.subrange(0, ps.len() - 1);
        lemma_terms(qs, bag, b, all);
        let q = preds_verdict(qs, v, all);
        let r = preds_verdict(ps, v, all);
        let last = ps.len() - 1;
        if q == Ok::<bool, Failure>(all) {
            assert forall|j: int| 0 <= j < last implies #[trigger] pred_verdict(ps[j], v) == Ok::<
                bool,
                Failure,
            >(all) by {
                assert(qs[j] == ps[j]);
            }
            assert(pred_verdict(ps[last], v) == r);
        } else {
            let i = choose|i: int|
                0 <= i < qs.len() && #[trigger] pred_verdict(qs[i], v) == q && q != Ok::<
                    bool,
                    Failure,
                >(all) && forall|j: int|
                    0 <= j < i ==> #[trigger] pred_verdict(qs[j], v) == Ok::<bool, Failure>(all);
            assert(ps[i] == qs[i]);
            assert(pred_verdict(ps[i], v) == r);
            assert forall|j: int| 0 <= j < i implies #[trigger] pred_verdict(ps[j], v) == Ok::<
                bool,
                Failure,
            >(all) by {
                assert(ps[j] == qs[j]);
            }
        }
    }
}

/// `AND` holds where every term does. Otherwise it comes to what the first
/// term comes to that does not hold: false, or an error.
pub proof fn law_and(ps: Seq<Pred>, bag: Bag, b: Bindings)
    ensures
        ({
            let r = pred_holds(Pred::And(ps), bag, b);
            &&& r == Ok::<bool, Failure>(true) <==> forall|i: int|
                0 <= i < ps.len() ==> #[trigger] pred_holds(ps[i], bag, b) == Ok::<bool, Failure>(
                    true,
                )
            &&& r != Ok::<bool, Failure>(true) ==> exists|i: int|
                0 <= i < ps.len() && #[trigger] pred_holds(ps[i], bag, b) == r && forall|j: int|
                    0 <= j < i ==> #[trigger] pred_holds(ps[j], bag, b) == Ok::<bool, Failure>(true)
        }),
{
    lemma_terms(ps, bag, b, true);
    let v = row_atoms(bag, b);
    let r = preds_verdict(ps, v, true);
    if r != Ok::<bool, Failure>(true) {
        let i = choose|i: int|
            0 <= i < ps.len() && #[trigger] pred_verdict(ps[i], v) == r && r != Ok::<
                bool,
                Failure,
            >(true) && forall|j: int|
                0 <= j < i ==> #[trigger] pred_verdict(ps[j], v) == Ok::<bool, Failure>(true);
        assert(pred_holds(ps[i], bag, b) == r);
        assert forall|j: int| 0 <= j < i implies #[trigger] pred_holds(ps[j], bag, b) == Ok::<
            bool,
            Failure,
        >(true) by {
            assert(pred_verdict(ps[j], v) == Ok::<bool, Failure>(true));
        }
    } else {
        assert forall|i: int| 0 <= i < ps.len() implies #[trigger] pred_holds(ps[i], bag, b)
            == Ok::<bool, Failure>(true) by {
            assert(pred_verdict(ps[i], v) == Ok::<bool, Failure>(true));
        }
    }
    if forall|i: int|
        0 <= i < ps.len() ==> #[trigger] pred_holds(ps[i], bag, b) == Ok::<bool, Failure>(true) {
        assert forall|i: int| 0 <= i < ps.len() implies #[trigger] pred_verdict(ps[i], v) == Ok::<
            bool,
            Failure,
        >(true) by {
            assert(pred_holds(ps[i], bag, b) == Ok::<bool, Failure>(true));
        }
    }
}

/// `OR` fails where every term does. Otherwise it comes to what the first term
/// comes to that does not fail: true, or an error.
pub proof fn law_or(ps: Seq<Pred>, bag: Bag, b: Bindings)
    ensures
        ({
            let r = pred_holds(Pred::Or(ps), bag, b);
            &&& r == Ok::<bool, Failure>(false) <==> forall|i: int|
                0 <= i < ps.len() ==> #[trigger] pred_holds(ps[i], bag, b) == Ok::<bool, Failure>(
                    false,
                )
            &&& r != Ok::<bool, Failure>(false) ==> exists|i: int|
                0 <= i < ps.len() && #[trigger] pred_holds(ps[i], bag, b) == r && forall|j: int|
                    0 <= j < i ==> #[trigger] pred_holds(ps[j], bag, b) == Ok::<bool, Failure>(
                        false,
                    )
        }),
{
    lemma_terms(ps, bag, b, false);
    let v = row_atoms(bag, b);
    let r = preds_verdict(ps, v, false);
    if r != Ok::<bool, Failure>(false) {
        let i = choose|i: int|
            0 <= i < ps.len() && #[trigger] pred_verdict(ps[i], v) == r && r != Ok::<
                bool,
                Failure,
            >(false) && forall|j: int|
                0 <= j < i ==> #[trigger] pred_verdict(ps[j], v) == Ok::<bool, Failure>(false);
        assert(pred_holds(ps[i], bag, b) == r);
        assert forall|j: int| 0 <= j < i implies #[trigger] pred_holds(ps[j], bag, b) == Ok::<
            bool,
            Failure,
        >(false) by {
            assert(pred_verdict(ps[j], v) == Ok::<bool, Failure>(false));
        }
    } else {
        assert forall|i: int| 0 <= i < ps.len() implies #[trigger] pred_holds(ps[i], bag, b)
            == Ok::<bool, Failure>(false) by {
            assert(pred_verdict(ps[i], v) == Ok::<bool, Failure>(false));
        }
    }
    if forall|i: int|
        0 <= i < ps.len() ==> #[trigger] pred_holds(ps[i], bag, b) == Ok::<bool, Failure>(false) {
        assert forall|i: int| 0 <= i < ps.len() implies #[trigger] pred_verdict(ps[i], v) == Ok::<
            bool,
            Failure,
        >(false) by {
            assert(pred_holds(ps[i], bag, b) == Ok::<bool, Failure>(false));
        }
    }
}

/// The same of bound conditions: `AND`.
pub proof fn law_bound_and(cs: Seq<Cond>, bag: Bag, b: Bindings)
    ensures
        ({
            let r = cond_holds(Cond::And(cs), bag, b);
            &&& r == Ok::<bool, Failure>(true) <==> forall|i: int|
                0 <= i < cs.len() ==> #[trigger] cond_holds(cs[i], bag, b) == Ok::<bool, Failure>(
                    true,
                )
            &&& r != Ok::<bool, Failure>(true) ==> exists|i: int|
                0 <= i < cs.len() && #[trigger] cond_holds(cs[i], bag, b) == r && forall|j: int|
                    0 <= j < i ==> #[trigger] cond_holds(cs[j], bag, b) == Ok::<bool, Failure>(true)
        }),
    decreases cs.len(),
{
    assert(cond_holds(Cond::And(cs), bag, b) == all_hold(cs, bag, b));
    if cs.len() > 0 {
        let rest = cs.subrange(1, cs.len() as int);
        law_bound_and(rest, bag, b);
        assert(cond_holds(Cond::And(rest), bag, b) == all_hold(rest, bag, b));
        let r = all_hold(cs, bag, b);
        if cond_holds(cs[0], bag, b) == Ok::<bool, Failure>(true) {
            assert forall|i: int| 0 <= i < rest.len() implies rest[i] == cs[i + 1] by {}
            if r != Ok::<bool, Failure>(true) {
                let i = choose|i: int|
                    0 <= i < rest.len() && #[trigger] cond_holds(rest[i], bag, b) == r && forall|
                        j: int,
                    |
                        0 <= j < i ==> #[trigger] cond_holds(rest[j], bag, b) == Ok::<
                            bool,
                            Failure,
                        >(true);
                assert(cond_holds(cs[i + 1], bag, b) == r);
                assert forall|j: int| 0 <= j < i + 1 implies #[trigger] cond_holds(cs[j], bag, b)
                    == Ok::<bool, Failure>(true) by {
                    if j > 0 {
                        assert(cond_holds(rest[j - 1], bag, b) == Ok::<bool, Failure>(true));
                    }
                }
            } else {
                assert forall|i: int| 0 <= i < cs.len() implies #[trigger] cond_holds(
                    cs[i],
                    bag,
                    b,
                ) == Ok::<bool, Failure>(true) by {
                    if i > 0 {
                        assert(cond_holds(rest[i - 1], bag, b) == Ok::<bool, Failure>(true));
                    }
                }
            }
        } else {
            assert(cond_holds(cs[0], bag, b) == r);
        }
        if forall|i: int|
            0 <= i < cs.len() ==> #[trigger] cond_holds(cs[i], bag, b) == Ok::<bool, Failure>(
                true,
            ) {
            assert(cond_holds(cs[0], bag, b) == Ok::<bool, Failure>(true));
            assert forall|i: int| 0 <= i < rest.len() implies #[trigger] cond_holds(
                rest[i],
                bag,
                b,
            ) == Ok::<bool, Failure>(true) by {
                assert(rest[i] == cs[i + 1]);
                assert(cond_holds(cs[i + 1], bag, b) == Ok::<bool, Failure>(true));
            }
        }
    }
}

/// The same of bound conditions: `OR`.
pub proof fn law_bound_or(cs: Seq<Cond>, bag: Bag, b: Bindings)
    ensures
        ({
            let r = cond_holds(Cond::Or(cs), bag, b);
            &&& r == Ok::<bool, Failure>(false) <==> forall|i: int|
                0 <= i < cs.len() ==> #[trigger] cond_holds(cs[i], bag, b) == Ok::<bool, Failure>(
                    false,
                )
            &&& r != Ok::<bool, Failure>(false) ==> exists|i: int|
                0 <= i < cs.len() && #[trigger] cond_holds(cs[i], bag, b) == r && forall|j: int|
                    0 <= j < i ==> #[trigger] cond_holds(cs[j], bag, b) == Ok::<bool, Failure>(
                        false,
                    )
        }),
    decreases cs.len(),
{
    assert(cond_holds(Cond::Or(cs), bag, b) == any_holds(cs, bag, b));
    if cs.len() > 0 {
        let rest = cs.subrange(1, cs.len() as int);
        law_bound_or(rest, bag, b);
        assert(cond_holds(Cond::Or(rest), bag, b) == any_holds(rest, bag, b));
        let r = any_holds(cs, bag, b);
        if cond_holds(cs[0], bag, b) == Ok::<bool, Failure>(false) {
            assert forall|i: int| 0 <= i < rest.len() implies rest[i] == cs[i + 1] by {}
            if r != Ok::<bool, Failure>(false) {
                let i = choose|i: int|
                    0 <= i < rest.len() && #[trigger] cond_holds(rest[i], bag, b) == r && forall|
                        j: int,
                    |
                        0 <= j < i ==> #[trigger] cond_holds(rest[j], bag, b) == Ok::<
                            bool,
                            Failure,
                        >(false);
                assert(cond_holds(cs[i + 1], bag, b) == r);
                assert forall|j: int| 0 <= j < i + 1 implies #[trigger] cond_holds(cs[j], bag, b)
                    == Ok::<bool, Failure>(false) by {
                    if j > 0 {
                        assert(cond_holds(rest[j - 1], bag, b) == Ok::<bool, Failure>(false));
                    }
                }
            } else {
                assert forall|i: int| 0 <= i < cs.len() implies #[trigger] cond_holds(
                    cs[i],
                    bag,
                    b,
                ) == Ok::<bool, Failure>(false) by {
                    if i > 0 {
                        assert(cond_holds(rest[i - 1], bag, b) == Ok::<bool, Failure>(false));
                    }
                }
            }
        } else {
            assert(cond_holds(cs[0], bag, b) == r);
        }
        if forall|i: int|
            0 <= i < cs.len() ==> #[trigger] cond_holds(cs[i], bag, b) == Ok::<bool, Failure>(
                false,
            ) {
            assert(cond_holds(cs[0], bag, b) == Ok::<bool, Failure>(false));
            assert forall|i: int| 0 <= i < rest.len() implies #[trigger] cond_holds(
                rest[i],
                bag,
                b,
            ) == Ok::<bool, Failure>(false) by {
                assert(rest[i] == cs[i + 1]);
                assert(cond_holds(cs[i + 1], bag, b) == Ok::<bool, Failure>(false));
            }
        }
    }
}

/// A constant holds everywhere or nowhere.
pub proof fn law_constants(bag: Bag, b: Bindings)
    ensures
        cond_holds(Cond::True, bag, b) == Ok::<bool, Failure>(true),
        cond_holds(Cond::False, bag, b) == Ok::<bool, Failure>(false),
{
}

// ----- Reading what was assigned -----

/// After `SET field = value`, `field = value` holds of the row, with the same
/// bindings: for every text, boolean and number but NaN.
pub proof fn law_assigned_is_equal(bag: Bag, f: Field, e: Expr, w: Val, b: Bindings, after: Bag)
    requires
        stands_for(e, b, w),
        w is Str || w is I64 || w is Bool || w is F64 && w->F64_0 % 0x8000_0000_0000_0000
            <= 0x7ff0_0000_0000_0000,
        assigned(bag, Assign { field: f.name, subscript: f.subscript, value: e }, b) == Ok::<
            Bag,
            Failure,
        >(after),
    ensures
        has_value(after, f, w),
        pred_holds(Pred::Eq(f, e), after, b) == Ok::<bool, Failure>(true),
        pred_holds(Pred::IsNull(f, false), after, b) == Ok::<bool, Failure>(false),
{
    law_equality_on_rows(f, e, w, w, after, b);
}

} // verus!
