//! Applying the assignments of an `UPDATE` to a row's metadata.

use crate::ast::views;
use crate::error::{Failure, KovaQueryError};
use crate::eval::{agrees_as, arg_val, literal_to_value, literal_val, param_value_to_value};
use crate::logical::{BoundExpr, LogicalAssignment};
use crate::params::{resolve_arg, Arg, Bindings, ParamBindings, ParamValue};
use crate::syntax::{Assign, Expr, Literal, Param};
use crate::value::{lemma_value_model, Bag, Metadata, Val, Value};
use vstd::prelude::*;

verus! {

/// The value that an expression assigns. A bag of named values is assigned
/// as a nested bag.
pub open spec fn assign_val(e: Expr, b: Bindings) -> Result<Val, Failure> {
    match e {
        Expr::Literal(l) => Ok(literal_val(l)),
        Expr::Param(p) => match resolve_arg(b, p) {
            Ok(Arg::Metadata(bag)) => Ok(Val::Object(bag)),
            Ok(a) => arg_val(a),
            Err(e) => Err(e),
        },
    }
}

/// The error for a subscripted assignment to a field that is no nested bag.
pub open spec fn overwrite_refused(field: Seq<char>) -> Failure {
    Failure::Execution(
        "subscripted assignment to field '"@ + field
            + "' : expected a Map value, found a different type ; refusing to overwrite"@,
    )
}

/// A row after one assignment.
pub open spec fn assigned(bag: Bag, a: Assign, b: Bindings) -> Result<Bag, Failure> {
    match (assign_val(a.value, b), a.subscript) {
        (Err(e), _) => Err(e),
        (Ok(v), None) => Ok(bag.insert(a.field, v)),
        (Ok(v), Some(key)) => if bag.dom().contains(a.field) {
            match bag[a.field] {
                Val::Object(inner) => Ok(bag.insert(a.field, Val::Object(inner.insert(key, v)))),
                _ => Err(overwrite_refused(a.field)),
            }
        } else {
            Ok(bag.insert(a.field, Val::Object(Map::empty().insert(key, v))))
        },
    }
}

/// A row after assignments, and the error that they stopped at, if any.
pub open spec fn applied(bag: Bag, s: Seq<Assign>, b: Bindings) -> (Bag, Option<Failure>)
    decreases s.len(),
{
    if s.len() == 0 {
        (bag, None)
    } else {
        match applied(bag, s.drop_last(), b) {
            (g, None) => match assigned(g, s.last(), b) {
                Ok(h) => (h, None),
                Err(e) => (g, Some(e)),
            },
            stopped => stopped,
        }
    }
}

/// Resolve an expression on the right of an assignment. Wider than in a
/// predicate: a whole metadata bag may be bound.
pub fn resolve_bound_value_for_assignment(expr: &BoundExpr, params: &ParamBindings) -> (r: Result<
    Value,
    KovaQueryError,
>)
    ensures
        agrees_as(r, assign_val(expr@, params@)),
{
    broadcast use lemma_value_model;

    match expr {
        BoundExpr::Literal(l) => Ok(literal_to_value(l)),
        BoundExpr::Param(p) => match params.resolve(p) {
            Ok(ParamValue::Metadata(m)) => Ok(Value::Object(m.copy())),
            Ok(other) => param_value_to_value(other),
            Err(e) => Err(e),
        },
    }
}

/// Mutate `bag` in place by one assignment. If it is refused, `bag` stays as
/// it is.
fn apply_assignment(bag: &mut Metadata, a: &LogicalAssignment, params: &ParamBindings) -> (r:
    Result<(), KovaQueryError>)
    ensures
        match assigned(old(bag)@, a@, params@) {
            Ok(g) => r is Ok && final(bag)@ == g,
            Err(e) => r is Err && r->Err_0@ == e && final(bag)@ == old(bag)@,
        },
{
    broadcast use lemma_value_model;

    let value: Value = match resolve_bound_value_for_assignment(&a.value, params) {
        Ok(v) => v,
        Err(e) => {
            return Err(e);
        },
    };
    match &a.subscript {
        None => {
            bag.insert(a.field.clone(), value);
        },
        Some(key) => {
            let mut inner: Metadata = match bag.get(a.field.as_str()) {
                None => Metadata::new(),
                Some(Value::Object(m)) => m.copy(),
                Some(_) => {
                    return Err(
                        KovaQueryError::Execution(
                            "subscripted assignment to field '".to_owned().concat(
                                a.field.as_str(),
                            ).concat(
                                "' : expected a Map value, found a different type ; refusing to overwrite",
                            ),
                        ),
                    );
                },
            };
            inner.insert(key.clone(), value);
            bag.insert(a.field.clone(), Value::Object(inner));
        },
    }
    Ok(())
}

proof fn lemma_applied_stop(bag: Bag, s: Seq<Assign>, b: Bindings, i: int)
    requires
        0 <= i <= s.len(),
        applied(bag, s.take(i), b).1 is Some,
    ensures
        applied(bag, s, b) == applied(bag, s.take(i), b),
    decreases s.len() - i,
{
    if i == s.len() {
        assert(s.take(i) =~= s);
    } else {
        assert(s.take(i + 1).drop_last() =~= s.take(i));
        lemma_applied_stop(bag, s, b, i + 1);
    }
}

/// Mutate `bag` in place by applying each assignment in source order, up to
/// the first that is refused.
///
/// - `SET field = value`: puts `value` at `field`, whatever was there.
/// - `SET field['key'] = value`: puts `value` at `key` in the nested bag at
///   `field`, which is made if absent. Anything else there is not
///   overwritten: that would silently drop user data.
pub fn apply_assignments(
    bag: &mut Metadata,
    assignments: &Vec<LogicalAssignment>,
    params: &ParamBindings,
) -> (r: Result<(), KovaQueryError>)
    ensures
        match r {
            Ok(_) => applied(old(bag)@, views(assignments@), params@) == (final(bag)@, None::<
                Failure,
            >),
            Err(e) => applied(old(bag)@, views(assignments@), params@) == (final(bag)@, Some(e@)),
        },
{
    let ghost s = views(assignments@);
    let mut i: usize = 0;
    while i < assignments.len()
        invariant
            i <= assignments.len(),
            s == views(assignments@),
            applied(old(bag)@, s.take(i as int), params@) == (bag@, None::<Failure>),
        decreases assignments.len() - i,
    {
        proof {
            assert(s.take(i + 1).drop_last() =~= s.take(i as int));
            assert(s.take(i + 1).last() == assignments@[i as int]@);
        }
        match apply_assignment(bag, &assignments[i], params) {
            Ok(_) => {},
            Err(e) => {
                proof {
                    lemma_applied_stop(old(bag)@, s, params@, i + 1);
                }
                return Err(e);
            },
        }
        i = i + 1;
    }
    assert(s.take(i as int) =~= s);
    Ok(())
}

// ----- What updates leave alone -----

/// An update changes no field that it does not assign, and creates none.
pub proof fn law_other_fields_stay(bag: Bag, s: Seq<Assign>, b: Bindings, name: Seq<char>)
    requires
        forall|i: int| 0 <= i < s.len() ==> (#[trigger] s[i]).field != name,
    ensures
        applied(bag, s, b).0.dom().contains(name) == bag.dom().contains(name),
        bag.dom().contains(name) ==> applied(bag, s, b).0[name] == bag[name],
    decreases s.len(),
{
    if s.len() > 0 {
        assert(s[s.len() - 1].field != name);
        law_other_fields_stay(bag, s.drop_last(), b, name);
    }
}

/// A subscripted assignment changes no other key of its nested bag.
pub proof fn law_other_keys_stay(bag: Bag, a: Assign, b: Bindings, key: Seq<char>)
    requires
        a.subscript is Some && a.subscript->Some_0 != key,
        bag.dom().contains(a.field) && bag[a.field] is Object,
        assigned(bag, a, b) is Ok,
    ensures
        ({
            let before = bag[a.field]->Object_0;
            let after = assigned(bag, a, b)->Ok_0[a.field]->Object_0;
            &&& assigned(bag, a, b)->Ok_0[a.field] is Object
            &&& after.dom().contains(key) == before.dom().contains(key)
            &&& before.dom().contains(key) ==> after[key] == before[key]
        }),
{
}

/// What is assigned is what a read of the field gives back.
pub proof fn law_read_after_assign(bag: Bag, a: Assign, b: Bindings)
    requires
        assigned(bag, a, b) is Ok,
    ensures
        crate::eval::field_val(
            crate::syntax::Field { name: a.field, subscript: a.subscript },
            assigned(bag, a, b)->Ok_0,
        ) == Some(assign_val(a.value, b)->Ok_0),
{
}

/// What is stored is what was bound: a text, a number, a boolean or a whole
/// bag as it is, and the empty list for `NULL`. Nothing else of the row
/// changes.
pub proof fn law_assignment_stores(bag: Bag, field: Seq<char>, p: Param, x: Arg, b: Bindings)
    requires
        resolve_arg(b, p) == Ok::<Arg, Failure>(x),
    ensures
        ({
            let r = assigned(bag, Assign { field, subscript: None, value: Expr::Param(p) }, b);
            match x {
                Arg::Str(s) => r == Ok::<Bag, Failure>(bag.insert(field, Val::Str(s))),
                Arg::I64(n) => r == Ok::<Bag, Failure>(bag.insert(field, Val::I64(n))),
                Arg::F64(f) => r == Ok::<Bag, Failure>(bag.insert(field, Val::F64(f))),
                Arg::Bool(v) => r == Ok::<Bag, Failure>(bag.insert(field, Val::Bool(v))),
                Arg::Metadata(m) => r == Ok::<Bag, Failure>(bag.insert(field, Val::Object(m))),
                Arg::Null => r == Ok::<Bag, Failure>(
                    bag.insert(field, Val::Array(Seq::empty())),
                ),
                _ => r is Err,
            }
        }),
{
}

/// What is stored is what was written, likewise.
pub proof fn law_literal_assignment_stores(bag: Bag, field: Seq<char>, l: Literal, b: Bindings)
    ensures
        ({
            let r = assigned(
                bag,
                Assign { field, subscript: None, value: Expr::Literal(l) },
                b,
            );
            match l {
                Literal::Str(s) => r == Ok::<Bag, Failure>(bag.insert(field, Val::Str(s))),
                Literal::I64(n) => r == Ok::<Bag, Failure>(bag.insert(field, Val::I64(n))),
                Literal::F64(x) => r == Ok::<Bag, Failure>(bag.insert(field, Val::F64(x))),
                Literal::Bool(v) => r == Ok::<Bag, Failure>(bag.insert(field, Val::Bool(v))),
                Literal::Null => r == Ok::<Bag, Failure>(
                    bag.insert(field, Val::Array(Seq::empty())),
                ),
            }
        }),
{
}

/// A subscripted assignment stores in a nested bag what the plain assignment
/// stores in the row: in the bag that is there, or in a new one. Over any
/// other value it is refused.
pub proof fn law_subscripted_assignment(
    bag: Bag,
    field: Seq<char>,
    key: Seq<char>,
    e: Expr,
    v: Val,
    b: Bindings,
)
    requires
        assigned(bag, Assign { field, subscript: None, value: e }, b) == Ok::<Bag, Failure>(
            bag.insert(field, v),
        ),
    ensures
        ({
            let r = assigned(bag, Assign { field, subscript: Some(key), value: e }, b);
            &&& !bag.contains_key(field) ==> r == Ok::<Bag, Failure>(
                bag.insert(field, Val::Object(map![key => v])),
            )
            &&& bag.contains_key(field) && bag[field] is Object ==> r == Ok::<Bag, Failure>(
                bag.insert(field, Val::Object(bag[field]->Object_0.insert(key, v))),
            )
            &&& bag.contains_key(field) && !(bag[field] is Object) ==> r is Err
        }),
{
    let stored = assign_val(e, b)->Ok_0;
    assert(bag.insert(field, v)[field] == v);
    assert(bag.insert(field, stored)[field] == stored);
}

/// An assignment is refused, in any position, where its parameter is bound to
/// an id, a vector or a batch, or not bound.
pub proof fn law_refused_assignment(bag: Bag, a: Assign, b: Bindings)
    ensures
        (a.value matches Expr::Param(p) && match resolve_arg(b, p) {
            Ok(v) => v is Id || v is Vector || v is Batch,
            Err(_) => true,
        }) ==> assigned(bag, a, b) is Err,
        a.subscript is None && a.value is Literal ==> assigned(bag, a, b) is Ok,
{
}

/// Assignments take effect in order: each on what those before it left. The
/// first that is refused stops them and leaves what was done before.
pub proof fn law_assignments_in_order(bag: Bag, s: Seq<Assign>, a: Assign, b: Bindings)
    ensures
        applied(bag, Seq::empty(), b) == (bag, None::<Failure>),
        ({
            let (g, stop) = applied(bag, s, b);
            match (stop, assigned(g, a, b)) {
                (Some(e), _) => applied(bag, s.push(a), b) == (g, Some(e)),
                (None, Ok(h)) => applied(bag, s.push(a), b) == (h, None::<Failure>),
                (None, Err(e)) => applied(bag, s.push(a), b) == (g, Some(e)),
            }
        }),
{
    assert(s.push(a).drop_last() =~= s);
    assert(s.push(a).last() == a);
}

} // verus!
