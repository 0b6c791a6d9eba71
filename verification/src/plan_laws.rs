//! What planning promises.

use crate::ast::CmpOp;
use crate::binder::bound;
use crate::cost::PlanKind;
use crate::error::Failure;
use crate::keyword::same_ignoring_case;
use crate::logical::{BoundQuery, Column, Cond, CondAtom, Hint, Logical};
use crate::normal_form::{law_bound_query, logical_table};
use crate::physical::{Ball, Plan};
use crate::planner::{
    ball_of, count_name, expanded, filtered_knn, first_ball, has_distance, is_ball, or_rejected,
    or_with_distance, planned, remainder, workload, SelectivityEstimate,
};
use crate::syntax::{Assign, Distance, Expr, Field, Literal, Stmt};
use vstd::prelude::*;

verus! {

// ----- Radius searches -----

/// Whether a condition is true where its atoms are true as `v` says.
pub open spec fn truth(c: Cond, v: spec_fn(CondAtom) -> bool) -> bool
    decreases c,
{
    match c {
        Cond::Atom(a) => v(a),
        Cond::And(cs) => forall|i: int| 0 <= i < cs.len() ==> truth(#[trigger] cs[i], v),
        Cond::Or(cs) => exists|i: int| 0 <= i < cs.len() && truth(#[trigger] cs[i], v),
        Cond::Not(d) => !truth(*d, v),
        Cond::True => true,
        Cond::False => false,
    }
}

/// The atom that a ball stands for.
pub open spec fn ball_atom(ball: Ball) -> CondAtom {
    CondAtom::DistanceThreshold(
        ball.query,
        if ball.inclusive {
            CmpOp::Le
        } else {
            CmpOp::Lt
        },
        ball.radius,
    )
}

pub open spec fn opt_truth(c: Option<Cond>, v: spec_fn(CondAtom) -> bool) -> bool {
    match c {
        Some(d) => truth(d, v),
        None => true,
    }
}

/// The first ball is one, and there is none if there is no first.
pub proof fn lemma_first_ball_is_ball(cs: Seq<Cond>)
    ensures
        0 <= first_ball(cs) <= cs.len(),
        first_ball(cs) < cs.len() ==> is_ball(cs[first_ball(cs)]),
        first_ball(cs) == cs.len() ==> forall|i: int|
            0 <= i < cs.len() ==> !is_ball(#[trigger] cs[i]),
    decreases cs.len(),
{
    if cs.len() > 0 && !is_ball(cs[0]) {
        lemma_first_ball_is_ball(cs.skip(1));
        assert forall|i: int|
            0 <= i < cs.len() && first_ball(cs) == cs.len() implies !is_ball(#[trigger] cs[i]) by {
            if i > 0 {
                assert(cs.skip(1)[i - 1] == cs[i]);
            }
        }
    }
}

/// A radius search with what it leaves to check asks for the rows that the
/// predicate asks for: being within the ball and satisfying the rest is the
/// same as satisfying the predicate, however its atoms turn out.
pub proof fn law_ball_and_rest(c: Cond, ball: Ball, v: spec_fn(CondAtom) -> bool)
    requires
        ball_of(c) == Some(ball),
    ensures
        truth(c, v) <==> v(ball_atom(ball)) && opt_truth(ball.post_filter, v),
{
    match c {
        Cond::And(cs) => {
            lemma_first_ball_is_ball(cs);
            let k = first_ball(cs);
            let rest = cs.remove(k);
            let atom = ball_atom(ball);
            assert(cs[k] == Cond::Atom(atom));
            assert(truth(cs[k], v) == v(atom));
            let all = forall|i: int| 0 <= i < rest.len() ==> truth(#[trigger] rest[i], v);
            assert(all == opt_truth(remainder(rest), v)) by {
                if rest.len() == 1 {
                    assert(truth(rest[0], v) == all);
                } else if rest.len() > 1 {
                    assert(Cond::And(rest)->And_0 == rest);
                }
            }
            if truth(c, v) {
                assert forall|i: int| 0 <= i < rest.len() implies truth(#[trigger] rest[i], v) by {
                    assert(rest[i] == if i < k {
                        cs[i]
                    } else {
                        cs[i + 1]
                    });
                }
            }
            if v(atom) && all {
                assert forall|i: int| 0 <= i < cs.len() implies truth(#[trigger] cs[i], v) by {
                    if i < k {
                        assert(rest[i] == cs[i]);
                    } else if i > k {
                        assert(rest[i - 1] == cs[i]);
                    }
                }
            }
        },
        _ => {},
    }
}

/// Where a predicate describes no ball, no term at its top is a distance
/// threshold with `<` or `<=`.
pub proof fn law_every_ball_is_found(c: Cond)
    requires
        ball_of(c) is None,
    ensures
        !is_ball(c),
        c matches Cond::And(cs) ==> forall|i: int| 0 <= i < cs.len() ==> !is_ball(#[trigger] cs[i]),
{
    if let Cond::And(cs) = c {
        lemma_first_ball_is_ball(cs);
    }
}

// ----- What is refused -----

/// The predicate that a bound statement selects rows by without an order.
pub open spec fn row_predicate(l: Logical) -> Option<Cond> {
    match l {
        Logical::Query(q) => if q.ordering.len() == 0 && count_name(
            q.projection,
        ) is None {
            q.predicate
        } else {
            None
        },
        Logical::Update { predicate, .. } => Some(predicate),
        Logical::Delete { predicate, .. } => Some(predicate),
        _ => None,
    }
}

/// A statement that selects rows by a distance under an `OR` is refused,
/// whether it reads or writes.
pub proof fn law_or_with_distance_is_refused(s: Stmt, l: Logical, kind: PlanKind)
    requires
        bound(s) == Ok::<Logical, Failure>(l),
        row_predicate(l) matches Some(p) && or_with_distance(p),
    ensures
        planned(l, kind) == Err::<Plan, Failure>(or_rejected()),
{
}

/// A query in any order but by distance first is refused, so no ordering by a
/// field is silently lost in front of a distance. A bare count has no order.
pub proof fn law_other_orders_are_refused(q: BoundQuery, kind: PlanKind)
    requires
        count_name(q.projection) is None,
        q.ordering.len() > 0 && !(q.ordering[0] is Distance),
    ensures
        planned(Logical::Query(q), kind) matches Err(Failure::Plan(_)),
{
}

/// The condition that a plan checks row by row, where it reads all rows.
pub open spec fn scanned(p: Plan) -> Option<Cond>
    decreases p,
{
    match p {
        Plan::DeleteByPredicate { predicate, .. } => Some(predicate),
        Plan::UpdateByPredicate { predicate, .. } => Some(predicate),
        Plan::MetadataScan { predicate, .. } => Some(predicate),
        Plan::Limit { input, .. } => scanned(*input),
        Plan::Projection { input, .. } => scanned(*input),
        _ => None,
    }
}

/// No scan is planned with a distance in its condition: a scan has no
/// distances to compare.
pub proof fn law_scans_have_no_distance(l: Logical, p: Plan, kind: PlanKind)
    requires
        planned(l, kind) == Ok::<Plan, Failure>(p),
    ensures
        scanned(p) matches Some(c) ==> !has_distance(c),
{
    reveal_with_fuel(scanned, 4);
}

// ----- What is carried through -----

/// The table that a plan reads or writes, if any.
pub open spec fn plan_table(p: Plan) -> Option<Seq<char>>
    decreases p,
{
    match p {
        Plan::Checkpoint => None,
        Plan::Vacuum { table } => Some(table),
        Plan::InsertOne { table, .. } => Some(table),
        Plan::InsertMany { table, .. } => Some(table),
        Plan::DeleteById { table, .. } => Some(table),
        Plan::DeleteByParamId { table, .. } => Some(table),
        Plan::DeleteByRadius { table, .. } => Some(table),
        Plan::DeleteByPredicate { table, .. } => Some(table),
        Plan::UpdateById { table, .. } => Some(table),
        Plan::UpdateByParamId { table, .. } => Some(table),
        Plan::UpdateByRadius { table, .. } => Some(table),
        Plan::UpdateByPredicate { table, .. } => Some(table),
        Plan::CreateIndex { table, .. } => Some(table),
        Plan::DropIndex { table, .. } => Some(table),
        Plan::KnnSearch { table, .. } => Some(table),
        Plan::FilteredKnnSearch { table, .. } => Some(table),
        Plan::RadiusSearch { table, .. } => Some(table),
        Plan::MetadataScan { table, .. } => Some(table),
        Plan::ExactDistance { input, .. } => plan_table(*input),
        Plan::Limit { input, .. } => plan_table(*input),
        Plan::Projection { input, .. } => plan_table(*input),
        Plan::Count { table, .. } => Some(table),
    }
}

/// A plan works on the table that the statement names.
pub proof fn law_plan_keeps_table(l: Logical, p: Plan, kind: PlanKind)
    requires
        planned(l, kind) == Ok::<Plan, Failure>(p),
    ensures
        plan_table(p) == logical_table(l),
{
    reveal_with_fuel(plan_table, 5);
}

/// The plan of a bound query never projects a wildcard.
pub proof fn law_no_wildcard_is_planned(s: Stmt, l: Logical, p: Plan, kind: PlanKind)
    requires
        bound(s) == Ok::<Logical, Failure>(l),
        planned(l, kind) == Ok::<Plan, Failure>(p),
    ensures
        p matches Plan::Projection { columns, .. } ==> !columns.contains(Column::Wildcard),
{
    law_bound_query(s, l);
    match l {
        Logical::Query(q) => {
            let cs = expanded(q.projection);
            if cs.contains(Column::Wildcard) {
                let i = choose|i: int| 0 <= i < cs.len() && cs[i] == Column::Wildcard;
                assert(cs[i] == Column::Wildcard);
                if cs == q.projection {
                    assert(q.projection.contains(Column::Wildcard));
                }
            }
        },
        _ => {},
    }
}

/// Whether `f` names the id of a row.
pub open spec fn is_id(f: Field) -> bool {
    f.subscript is None && same_ignoring_case(f.name, "id"@)
}

/// A row is deleted by id only where the statement asks for exactly that id.
pub proof fn law_delete_by_id(s: Stmt, l: Logical, p: Plan, kind: PlanKind)
    requires
        bound(s) == Ok::<Logical, Failure>(l),
        planned(l, kind) == Ok::<Plan, Failure>(p),
    ensures
        p matches Plan::DeleteById { id, .. } ==> (l matches Logical::Delete { predicate, .. }
            && predicate matches Cond::Atom(CondAtom::Eq(f, Expr::Literal(Literal::I64(n)))) && is_id(f)
            && n == id),
        p matches Plan::DeleteByParamId { id_param, .. } ==> (l matches Logical::Delete {
            predicate,
            ..
        } && predicate matches Cond::Atom(CondAtom::Eq(f, Expr::Param(q))) && is_id(f) && q == id_param),
{
}

/// A row is updated by id only where the statement asks for exactly that id.
pub proof fn law_update_by_id(s: Stmt, l: Logical, p: Plan, kind: PlanKind)
    requires
        bound(s) == Ok::<Logical, Failure>(l),
        planned(l, kind) == Ok::<Plan, Failure>(p),
    ensures
        p matches Plan::UpdateById { id, .. } ==> (l matches Logical::Update { predicate, .. }
            && predicate matches Cond::Atom(CondAtom::Eq(f, Expr::Literal(Literal::I64(n)))) && is_id(f)
            && n == id),
        p matches Plan::UpdateByParamId { id_param, .. } ==> (l matches Logical::Update {
            predicate,
            ..
        } && predicate matches Cond::Atom(CondAtom::Eq(f, Expr::Param(q))) && is_id(f) && q == id_param),
{
}

// ----- What is planned -----

/// A distance bound with `<` or `<=`, alone or as a term of a conjunction,
/// becomes a radius search: with its own query and radius, and with rows at
/// the radius included for `<=` only. No other comparison does.
pub proof fn law_bounds_are_balls(query: Distance, op: CmpOp, radius: u32, cs: Seq<Cond>, i: int)
    requires
        0 <= i < cs.len(),
        cs[i] == Cond::Atom(CondAtom::DistanceThreshold(query, op, radius)),
    ensures
        op == CmpOp::Lt || op == CmpOp::Le ==> ball_of(cs[i]) == Some(
            Ball { query, radius, inclusive: op == CmpOp::Le, post_filter: None },
        ),
        op == CmpOp::Lt || op == CmpOp::Le ==> ball_of(Cond::And(cs)) is Some,
        op == CmpOp::Eq || op == CmpOp::Ne || op == CmpOp::Gt || op == CmpOp::Ge ==> ball_of(cs[i])
            is None,
        ball_of(Cond::And(cs)) matches Some(ball) ==> cs.contains(Cond::Atom(ball_atom(ball))),
{
    lemma_first_ball_is_ball(cs);
    if op == CmpOp::Lt || op == CmpOp::Le {
        assert(is_ball(cs[i]));
    }
    let k = first_ball(cs);
    if let Some(ball) = ball_of(Cond::And(cs)) {
        assert(cs[k] == Cond::Atom(ball_atom(ball)));
    }
}

/// Where a distance occurs in a condition, and where it occurs under an `OR`.
pub proof fn law_distance_occurs(a: CondAtom, c: Cond, cs: Seq<Cond>)
    ensures
        has_distance(Cond::Atom(a)) <==> a is DistanceThreshold,
        has_distance(Cond::Not(Box::new(c))) <==> has_distance(c),
        has_distance(Cond::And(cs)) <==> exists|i: int|
            0 <= i < cs.len() && has_distance(#[trigger] cs[i]),
        has_distance(Cond::Or(cs)) <==> exists|i: int|
            0 <= i < cs.len() && has_distance(#[trigger] cs[i]),
        !has_distance(Cond::True) && !has_distance(Cond::False),
        !or_with_distance(Cond::Atom(a)),
        or_with_distance(Cond::Not(Box::new(c))) <==> or_with_distance(c),
        or_with_distance(Cond::And(cs)) <==> exists|i: int|
            0 <= i < cs.len() && or_with_distance(#[trigger] cs[i]),
        or_with_distance(Cond::Or(cs)) <==> has_distance(Cond::Or(cs)),
        !or_with_distance(Cond::True) && !or_with_distance(Cond::False),
{
    let (all, any) = (Cond::And(cs), Cond::Or(cs));
    assert(all->And_0 == cs && any->Or_0 == cs);
    if has_distance(all) {
        let i = choose|i: int| 0 <= i < all->And_0.len() && has_distance(#[trigger] all->And_0[i]);
        assert(has_distance(cs[i]));
    }
    if has_distance(any) {
        let i = choose|i: int| 0 <= i < any->Or_0.len() && has_distance(#[trigger] any->Or_0[i]);
        assert(has_distance(cs[i]));
    }
    if or_with_distance(all) {
        let i = choose|i: int|
            0 <= i < all->And_0.len() && or_with_distance(#[trigger] all->And_0[i]);
        assert(or_with_distance(cs[i]));
    }
    if exists|i: int| 0 <= i < cs.len() && has_distance(#[trigger] cs[i]) {
        let i = choose|i: int| 0 <= i < cs.len() && has_distance(#[trigger] cs[i]);
        assert(has_distance(all->And_0[i]) && has_distance(any->Or_0[i]));
    }
    if exists|i: int| 0 <= i < cs.len() && or_with_distance(#[trigger] cs[i]) {
        let i = choose|i: int| 0 <= i < cs.len() && or_with_distance(#[trigger] cs[i]);
        assert(or_with_distance(all->And_0[i]));
    }
}

/// A lone wildcard stands for the id and the metadata; other columns stay as
/// they are.
pub proof fn law_wildcard(columns: Seq<Column>)
    ensures
        columns.len() == 1 && columns[0] is Wildcard ==> expanded(columns) == seq![
            Column::Id(None),
            Column::Metadata(None),
        ],
        columns.len() != 1 || !(columns[0] is Wildcard) ==> expanded(columns) == columns,
{
}

/// A projection is a bare count exactly where `COUNT(*)` is its only column,
/// and is named by the alias, or `count`.
pub proof fn law_bare_count(columns: Seq<Column>, alias: Option<Seq<char>>)
    ensures
        count_name(columns) is Some <==> columns.len() == 1 && columns[0] is CountStar,
        columns.len() == 1 && columns[0] == Column::CountStar(alias) ==> count_name(columns)
            == Some(
            if alias is Some {
                alias->Some_0
            } else {
                "count"@
            },
        ),
{
}

/// Which queries can be planned: a bare count; without an order, a radius
/// search, or a limited scan for a predicate without a distance; in order of
/// distance, with a limit.
pub proof fn law_queries_planned(q: BoundQuery, kind: PlanKind)
    ensures
        planned(Logical::Query(q), kind) is Ok <==> {
            ||| q.projection.len() == 1 && q.projection[0] is CountStar
            ||| q.ordering.len() == 0 && q.predicate is Some && !or_with_distance(
                q.predicate->Some_0,
            ) && (ball_of(q.predicate->Some_0) is Some || q.limit is Some && !has_distance(
                q.predicate->Some_0,
            ))
            ||| q.ordering.len() > 0 && q.ordering[0] is Distance && q.limit is Some
        },
{
}

/// Which updates and deletes can be planned: by id; by a ball; or by a
/// predicate without a distance.
pub proof fn law_writes_planned(
    t: Seq<char>,
    c: Cond,
    assignments: Seq<Assign>,
    hint: Option<Hint>,
    kind: PlanKind,
)
    ensures
        ({
            let ok = hint is Some || !or_with_distance(c) && (ball_of(c) is Some || !has_distance(
                c,
            ));
            &&& planned(Logical::Delete { table: t, predicate: c, hint }, kind) is Ok <==> ok
            &&& planned(Logical::Update { table: t, predicate: c, assignments, hint }, kind) is Ok
                <==> ok
        }),
{
}

/// A statement is planned by estimate exactly where it is a query, not a bare
/// count, in order of distance first, with a predicate and a limit; what is
/// estimated is that predicate, for that limit.
pub proof fn law_filtered_knn(q: BoundQuery)
    ensures
        filtered_knn(Logical::Query(q)) is Some <==> !(q.projection.len() == 1
            && q.projection[0] is CountStar) && q.ordering.len() > 0 && q.ordering[0] is Distance
            && q.predicate is Some && q.limit is Some,
        filtered_knn(Logical::Query(q)) matches Some((filter, limit)) ==> q.predicate == Some(
            filter,
        ) && q.limit == Some(limit),
{
}

/// What is estimated is what the choice goes by.
pub proof fn law_workload(e: SelectivityEstimate, k: usize, dim: usize)
    ensures
        ({
            let w = workload(e, k, dim);
            w.matches == e.matches && w.total_rows == e.total && w.user_k == k && w.dim == dim
        }),
{
}

/// Of several distance bounds in a conjunction the first is the ball; the
/// other terms are left to check, in order.
pub proof fn law_first_bound_is_the_ball(
    query: Distance,
    op: CmpOp,
    radius: u32,
    cs: Seq<Cond>,
    i: int,
)
    requires
        0 <= i < cs.len(),
        cs[i] == Cond::Atom(CondAtom::DistanceThreshold(query, op, radius)),
        op == CmpOp::Lt || op == CmpOp::Le,
        forall|j: int|
            0 <= j < i ==> !(#[trigger] cs[j] matches Cond::Atom(
                CondAtom::DistanceThreshold(_, CmpOp::Lt, _),
            )) && !(cs[j] matches Cond::Atom(CondAtom::DistanceThreshold(_, CmpOp::Le, _))),
    ensures
        ({
            let rest = cs.subrange(0, i) + cs.subrange(i + 1, cs.len() as int);
            ball_of(Cond::And(cs)) == Some(
                Ball {
                    query,
                    radius,
                    inclusive: op == CmpOp::Le,
                    post_filter: if rest.len() == 0 {
                        None
                    } else if rest.len() == 1 {
                        Some(rest[0])
                    } else {
                        Some(Cond::And(rest))
                    },
                },
            )
        }),
{
    let rest = cs.subrange(0, i) + cs.subrange(i + 1, cs.len() as int);
    lemma_first_ball_at(cs, i);
    assert(cs.remove(i) =~= rest);
}

proof fn lemma_first_ball_at(cs: Seq<Cond>, i: int)
    requires
        0 <= i < cs.len(),
        is_ball(cs[i]),
        forall|j: int| 0 <= j < i ==> !is_ball(#[trigger] cs[j]),
    ensures
        first_ball(cs) == i,
    decreases cs.len(),
{
    if i > 0 {
        assert(!is_ball(cs[0]));
        let rest = cs.skip(1);
        assert(rest[i - 1] == cs[i]);
        assert forall|j: int| 0 <= j < i - 1 implies !is_ball(#[trigger] rest[j]) by {
            assert(rest[j] == cs[j + 1]);
        }
        lemma_first_ball_at(rest, i - 1);
    }
}

} // verus!
