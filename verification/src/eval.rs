//! Evaluating a predicate on one row.
//!
//! An atom about a field that the row lacks is false. `AND` and `OR` look at
//! their terms from left to right and stop at the first that decides.

use crate::ast::{views, CmpOp};
use crate::error::{Failure, KovaQueryError};
use crate::logical::{
    conds, BoundExpr, BoundLiteral, Cond, CondAtom, FieldRef, PredAtom, PredicateExpr,
};
use crate::params::{
    arg_kind, param_value_kind, resolve_arg, Arg, Bindings, ParamBindings, ParamValue,
};
use crate::syntax::{Expr, Field, Literal};
use crate::value::{
    compare_vals, equal_vals, lemma_value_model, vals, values_cmp, values_eq, Bag, Metadata, Val,
    Value,
};
use vstd::prelude::*;

verus! {

/// What a literal is compared as. `NULL` is the empty list, which no scalar
/// equals and nothing is ordered with.
pub open spec fn literal_val(l: Literal) -> Val {
    match l {
        Literal::Str(s) => Val::Str(s),
        Literal::I64(n) => Val::I64(n),
        Literal::F64(b) => Val::F64(b),
        Literal::Bool(b) => Val::Bool(b),
        Literal::Null => Val::Array(Seq::empty()),
    }
}

/// What a parameter value is compared as.
pub open spec fn arg_val(a: Arg) -> Result<Val, Failure> {
    match a {
        Arg::Str(s) => Ok(Val::Str(s)),
        Arg::I64(n) => Ok(Val::I64(n)),
        Arg::F64(b) => Ok(Val::F64(b)),
        Arg::Bool(b) => Ok(Val::Bool(b)),
        Arg::Null => Ok(Val::Array(Seq::empty())),
        _ => Err(
            Failure::Execution(
                "parameter in WHERE clause must be a literal type (String/I64/F64/Bool/Null), got "@
                    + arg_kind(a),
            ),
        ),
    }
}

/// What an expression is compared as.
pub open spec fn expr_val(e: Expr, b: Bindings) -> Result<Val, Failure> {
    match e {
        Expr::Literal(l) => Ok(literal_val(l)),
        Expr::Param(p) => match resolve_arg(b, p) {
            Ok(a) => arg_val(a),
            Err(f) => Err(f),
        },
    }
}

/// The value of a field in a row, if the row has it.
pub open spec fn field_val(f: Field, bag: Bag) -> Option<Val> {
    if bag.dom().contains(f.name) {
        match f.subscript {
            None => Some(bag[f.name]),
            Some(key) => match bag[f.name] {
                Val::Object(inner) => if inner.dom().contains(key) {
                    Some(inner[key])
                } else {
                    None
                },
                _ => None,
            },
        }
    } else {
        None
    }
}

/// Whether `v op w` holds; values that cannot be ordered satisfy nothing.
pub open spec fn satisfies(v: Val, op: CmpOp, w: Val) -> bool {
    compare_vals(v, w, op) == Some(true)
}

/// Whether an atom holds of a row.
pub open spec fn atom_holds(a: CondAtom, bag: Bag, b: Bindings) -> Result<bool, Failure> {
    match a {
        CondAtom::Eq(f, e) => match expr_val(e, b) {
            Ok(w) => Ok(field_val(f, bag) matches Some(v) && equal_vals(v, w)),
            Err(x) => Err(x),
        },
        CondAtom::Cmp(f, op, e) => match expr_val(e, b) {
            Ok(w) => Ok(field_val(f, bag) matches Some(v) && satisfies(v, op, w)),
            Err(x) => Err(x),
        },
        CondAtom::In(f, ls) => Ok(
            field_val(f, bag) matches Some(v) && exists|i: int|
                0 <= i < ls.len() && equal_vals(v, literal_val(#[trigger] ls[i])),
        ),
        CondAtom::Between(f, lo, hi) => Ok(
            field_val(f, bag) matches Some(v) && satisfies(v, CmpOp::Ge, literal_val(lo))
                && satisfies(v, CmpOp::Le, literal_val(hi)),
        ),
        CondAtom::IsNotNull(f) => Ok(field_val(f, bag) is Some),
        CondAtom::ArrayContains(f, l) => Ok(
            field_val(f, bag) matches Some(Val::Array(xs)) && exists|i: int|
                0 <= i < xs.len() && equal_vals(#[trigger] xs[i], literal_val(l)),
        ),
        CondAtom::DistanceThreshold(_, _, _) => Err(
            Failure::Execution(
                "DistanceThreshold predicate in SELECT WHERE is not supported in plan A ; use it as a radius search later"@,
            ),
        ),
    }
}

/// Whether a condition holds of a row.
pub open spec fn cond_holds(c: Cond, bag: Bag, b: Bindings) -> Result<bool, Failure>
    decreases c, 0int,
{
    match c {
        Cond::True => Ok(true),
        Cond::False => Ok(false),
        Cond::Atom(a) => atom_holds(a, bag, b),
        Cond::Not(d) => match cond_holds(*d, bag, b) {
            Ok(r) => Ok(!r),
            Err(e) => Err(e),
        },
        Cond::And(cs) => all_hold(cs, bag, b),
        Cond::Or(cs) => any_holds(cs, bag, b),
    }
}

/// Whether all of `cs` hold, up to the first that does not.
pub open spec fn all_hold(cs: Seq<Cond>, bag: Bag, b: Bindings) -> Result<bool, Failure>
    decreases cs, cs.len(),
{
    if cs.len() == 0 {
        Ok(true)
    } else {
        match cond_holds(cs[0], bag, b) {
            Ok(true) => all_hold(cs.subrange(1, cs.len() as int), bag, b),
            Ok(false) => Ok(false),
            Err(e) => Err(e),
        }
    }
}

/// Whether any of `cs` holds, up to the first that does.
pub open spec fn any_holds(cs: Seq<Cond>, bag: Bag, b: Bindings) -> Result<bool, Failure>
    decreases cs, cs.len(),
{
    if cs.len() == 0 {
        Ok(false)
    } else {
        match cond_holds(cs[0], bag, b) {
            Ok(false) => any_holds(cs.subrange(1, cs.len() as int), bag, b),
            Ok(true) => Ok(true),
            Err(e) => Err(e),
        }
    }
}

/// Whether a verdict and an error agree with `p`.
pub open spec fn agrees<T>(r: Result<T, KovaQueryError>, p: Result<T, Failure>) -> bool {
    match (r, p) {
        (Ok(x), Ok(y)) => x == y,
        (Err(e), Err(f)) => e@ == f,
        _ => false,
    }
}

/// Whether a value and an error agree with `p`.
pub open spec fn agrees_as<T: View>(r: Result<T, KovaQueryError>, p: Result<T::V, Failure>) -> bool {
    match (r, p) {
        (Ok(x), Ok(y)) => x@ == y,
        (Err(e), Err(f)) => e@ == f,
        _ => false,
    }
}

/// Whether a result holds the values, or the error, that a model says.
pub open spec fn agrees_all<T: View>(
    r: Result<Vec<T>, KovaQueryError>,
    p: Result<Seq<T::V>, Failure>,
) -> bool {
    match r {
        Ok(v) => p == Ok::<Seq<T::V>, Failure>(views(v@)),
        Err(e) => p == Err::<Seq<T::V>, Failure>(e@),
    }
}

/// What a literal is compared as.
pub fn literal_to_value(l: &BoundLiteral) -> (r: Value)
    ensures
        r@ == literal_val(l@),
{
    broadcast use lemma_value_model;

    match l {
        BoundLiteral::String(s) => Value::String(s.clone()),
        BoundLiteral::I64(n) => Value::I64(*n),
        BoundLiteral::F64(b) => Value::F64(*b),
        BoundLiteral::Bool(b) => Value::Bool(*b),
        BoundLiteral::Null => {
            let none: Vec<Value> = Vec::new();
            assert(vals(none@) =~= Seq::empty());
            Value::Array(none)
        },
    }
}

/// Turn a caller-bound [`ParamValue`] into a [`Value`] for predicate
/// comparison. Only the literal-shaped variants are valid here; vector / id /
/// metadata / batch in a WHERE position is an Execution error.
pub fn param_value_to_value(p: &ParamValue) -> (r: Result<Value, KovaQueryError>)
    ensures
        agrees_as(r, arg_val(p@)),
{
    broadcast use lemma_value_model;

    match p {
        ParamValue::String(s) => Ok(Value::String(s.clone())),
        ParamValue::I64(n) => Ok(Value::I64(*n)),
        ParamValue::F64(b) => Ok(Value::F64(*b)),
        ParamValue::Bool(b) => Ok(Value::Bool(*b)),
        ParamValue::Null => {
            let none: Vec<Value> = Vec::new();
            assert(vals(none@) =~= Seq::empty());
            Ok(Value::Array(none))
        },
        _ => Err(
            KovaQueryError::Execution(
                "parameter in WHERE clause must be a literal type (String/I64/F64/Bool/Null), got ".to_owned().concat(
                    param_value_kind(p),
                ),
            ),
        ),
    }
}

/// Resolve a [`BoundExpr`] (either a literal or a `$param`) to a concrete
/// [`Value`] for predicate comparison.
pub fn resolve_bound_value(expr: &BoundExpr, params: &ParamBindings) -> (r: Result<
    Value,
    KovaQueryError,
>)
    ensures
        agrees_as(r, expr_val(expr@, params@)),
{
    match expr {
        BoundExpr::Literal(l) => Ok(literal_to_value(l)),
        BoundExpr::Param(p) => match params.resolve(p) {
            Ok(v) => param_value_to_value(v),
            Err(e) => Err(e),
        },
    }
}

/// Resolve a [`FieldRef`] against a row's metadata bag. Bare references key
/// into the bag directly; subscripted references expect a nested bag at the
/// top-level field and key into it. `None` when any step misses.
pub fn lookup_field_value<'a>(field: &FieldRef, meta: &'a Metadata) -> (r: Option<&'a Value>)
    ensures
        match r {
            Some(v) => field_val(field@, meta@) == Some(v@),
            None => field_val(field@, meta@) is None,
        },
{
    broadcast use lemma_value_model;

    match meta.get(field.name.as_str()) {
        None => None,
        Some(top) => match &field.subscript {
            None => Some(top),
            Some(key) => match top {
                Value::Object(inner) => inner.get(key.as_str()),
                _ => None,
            },
        },
    }
}

/// `IS NOT NULL` form of [`lookup_field_value`].
pub fn field_is_present(field: &FieldRef, meta: &Metadata) -> (r: bool)
    ensures
        r == (field_val(field@, meta@) is Some),
{
    match lookup_field_value(field, meta) {
        Some(_) => true,
        None => false,
    }
}

fn is_satisfied(v: &Value, op: CmpOp, w: &Value) -> (r: bool)
    ensures
        r == satisfies(v@, op, w@),
{
    match values_cmp(v, w, op) {
        Some(b) => b,
        None => false,
    }
}

/// Whether `v` equals one of the literals.
fn is_member(v: &Value, values: &Vec<BoundLiteral>) -> (r: bool)
    ensures
        r == exists|i: int|
            0 <= i < values.len() && equal_vals(v@, literal_val(#[trigger] views(values@)[i])),
{
    let mut i: usize = 0;
    while i < values.len()
        invariant
            i <= values.len(),
            forall|j: int|
                0 <= j < i ==> !equal_vals(v@, literal_val(#[trigger] views(values@)[j])),
        decreases values.len() - i,
    {
        let w: Value = literal_to_value(&values[i]);
        if values_eq(v, &w) {
            assert(equal_vals(v@, literal_val(views(values@)[i as int])));
            return true;
        }
        i = i + 1;
    }
    false
}

/// Whether one of `xs` equals `w`.
fn contains_value(xs: &Vec<Value>, w: &Value) -> (r: bool)
    ensures
        r == exists|i: int| 0 <= i < xs.len() && equal_vals(#[trigger] vals(xs@)[i], w@),
{
    let mut i: usize = 0;
    while i < xs.len()
        invariant
            i <= xs.len(),
            forall|j: int| 0 <= j < i ==> !equal_vals(#[trigger] vals(xs@)[j], w@),
        decreases xs.len() - i,
    {
        if values_eq(&xs[i], w) {
            assert(equal_vals(vals(xs@)[i as int], w@));
            return true;
        }
        i = i + 1;
    }
    false
}

/// Walk one atom against a row.
pub fn eval_atom(atom: &PredAtom, meta: &Metadata, params: &ParamBindings) -> (r: Result<
    bool,
    KovaQueryError,
>)
    ensures
        agrees(r, atom_holds(atom@, meta@, params@)),
{
    broadcast use lemma_value_model;

    match atom {
        PredAtom::Eq { field, value } => match resolve_bound_value(value, params) {
            Ok(expected) => Ok(
                match lookup_field_value(field, meta) {
                    Some(v) => values_eq(v, &expected),
                    None => false,
                },
            ),
            Err(e) => Err(e),
        },
        PredAtom::Cmp { field, op, value } => match resolve_bound_value(value, params) {
            Ok(expected) => Ok(
                match lookup_field_value(field, meta) {
                    Some(v) => is_satisfied(v, *op, &expected),
                    None => false,
                },
            ),
            Err(e) => Err(e),
        },
        PredAtom::In { field, values } => Ok(
            match lookup_field_value(field, meta) {
                Some(v) => is_member(v, values),
                None => false,
            },
        ),
        PredAtom::Between { field, lo, hi } => Ok(
            match lookup_field_value(field, meta) {
                Some(v) => is_satisfied(v, CmpOp::Ge, &literal_to_value(lo)) && is_satisfied(
                    v,
                    CmpOp::Le,
                    &literal_to_value(hi),
                ),
                None => false,
            },
        ),
        PredAtom::IsNotNull { field } => Ok(field_is_present(field, meta)),
        PredAtom::ArrayContains { field, value } => {
            let target: Value = literal_to_value(value);
            match lookup_field_value(field, meta) {
                Some(Value::Array(xs)) => Ok(contains_value(xs, &target)),
                _ => Ok(false),
            }
        },
        PredAtom::DistanceThreshold { .. } => Err(
            KovaQueryError::Execution(
                "DistanceThreshold predicate in SELECT WHERE is not supported in plan A ; use it as a radius search later".to_owned(),
            ),
        ),
    }
}

/// Walk a predicate against a row.
pub fn eval_predicate(pred: &PredicateExpr, meta: &Metadata, params: &ParamBindings) -> (r: Result<
    bool,
    KovaQueryError,
>)
    ensures
        agrees(r, cond_holds(pred@, meta@, params@)),
    decreases pred, 0int,
{
    match pred {
        PredicateExpr::True => Ok(true),
        PredicateExpr::False => Ok(false),
        PredicateExpr::And(children) => eval_all(children, meta, params),
        PredicateExpr::Or(children) => eval_any(children, meta, params),
        PredicateExpr::Not(inner) => match eval_predicate(inner, meta, params) {
            Ok(b) => Ok(!b),
            Err(e) => Err(e),
        },
        PredicateExpr::Atom(atom) => eval_atom(atom, meta, params),
    }
}

fn eval_all(children: &Vec<PredicateExpr>, meta: &Metadata, params: &ParamBindings) -> (r: Result<
    bool,
    KovaQueryError,
>)
    ensures
        agrees(r, all_hold(conds(children@), meta@, params@)),
    decreases children, 1int,
{
    let ghost cs = conds(children@);
    let mut i: usize = 0;
    assert(cs.skip(0) =~= cs);
    while i < children.len()
        invariant
            i <= children.len(),
            cs == conds(children@),
            all_hold(cs, meta@, params@) == all_hold(cs.skip(i as int), meta@, params@),
        decreases children.len() - i,
    {
        proof {
            let s = cs.skip(i as int);
            assert(s.subrange(1, s.len() as int) =~= cs.skip(i + 1));
            assert(s[0] == children@[i as int]@);
            assert(decreases_to!(children => children@[i as int]));
        }
        match eval_predicate(&children[i], meta, params) {
            Ok(true) => {},
            Ok(false) => {
                return Ok(false);
            },
            Err(e) => {
                return Err(e);
            },
        }
        i = i + 1;
    }
    Ok(true)
}

fn eval_any(children: &Vec<PredicateExpr>, meta: &Metadata, params: &ParamBindings) -> (r: Result<
    bool,
    KovaQueryError,
>)
    ensures
        agrees(r, any_holds(conds(children@), meta@, params@)),
    decreases children, 1int,
{
    let ghost cs = conds(children@);
    let mut i: usize = 0;
    assert(cs.skip(0) =~= cs);
    while i < children.len()
        invariant
            i <= children.len(),
            cs == conds(children@),
            any_holds(cs, meta@, params@) == any_holds(cs.skip(i as int), meta@, params@),
        decreases children.len() - i,
    {
        proof {
            let s = cs.skip(i as int);
            assert(s.subrange(1, s.len() as int) =~= cs.skip(i + 1));
            assert(s[0] == children@[i as int]@);
            assert(decreases_to!(children => children@[i as int]));
        }
        match eval_predicate(&children[i], meta, params) {
            Ok(false) => {},
            Ok(true) => {
                return Ok(true);
            },
            Err(e) => {
                return Err(e);
            },
        }
        i = i + 1;
    }
    Ok(false)
}

} // verus!
