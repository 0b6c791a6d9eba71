//! What statements that select rows by distance promise.

use crate::assign::applied;
use crate::ast::CmpOp;
use crate::binder::{assigns_embedding, bound, bound_columns, normal};
use crate::cost::PlanKind;
use crate::error::Failure;
use crate::eval::{all_hold, any_holds, atom_holds, cond_holds};
use crate::exec_laws::{
    holds_rows, law_limit_holds, lemma_with_one_more, lemma_without_last, lists_ids,
};
use crate::executor::{
    ask, bound_of, ids_of, kept_rewritten, planned_and_started, read_on, read_started, resumed,
    table_error, vector_arg,
};
use crate::ieee::{is_nan32, order32};
use crate::logical::{Cond, CondAtom};
use crate::normal_form::{
    is_proper, law_normal_keeps_verdict, lemma_all_concat, lemma_single_verdict, pred_verdict,
    verdict, verdict_of_all, verdict_of_any,
};
use crate::params::Bindings;
use crate::physical::Ball;
use crate::plan_laws::{ball_atom, lemma_first_ball_is_ball};
use crate::planner::{
    ball_of, count_name, expanded, first_ball, has_distance, or_with_distance, remainder,
};
use crate::rows::{Hit, Outcome};
use crate::select::{kept, passes};
use crate::steps::{Aim, Answer, Next, Phase, Reading, StoredRowModel, Wait, Want};
use crate::syntax::{Assign, Distance, Pred, Query, Stmt};
use crate::value::{holds, relate_ints, Bag};
use vstd::prelude::*;

verus! {

// ----- Meaning -----

/// Whether a distance stands in the relation `op` to a radius. NaN is only
/// unequal.
pub open spec fn bounded(d: u32, op: CmpOp, radius: u32) -> bool {
    if is_nan32(d) || is_nan32(radius) {
        op == CmpOp::Ne
    } else {
        holds(op, relate_ints(order32(d), order32(radius)))
    }
}

/// What the row `id` says of atoms, where `near` tells its distances.
pub open spec fn atoms_near(
    id: u64,
    rows: Map<u64, Bag>,
    near: spec_fn(u64, Distance) -> u32,
    b: Bindings,
) -> spec_fn(CondAtom) -> Result<bool, Failure> {
    |a: CondAtom|
        match a {
            CondAtom::DistanceThreshold(d, op, radius) => Ok(bounded(near(id, d), op, radius)),
            _ => atom_holds(a, rows[id], b),
        }
}

/// What a predicate says of the row `id` as it is written, distances
/// included.
pub open spec fn says(
    p: Pred,
    id: u64,
    rows: Map<u64, Bag>,
    near: spec_fn(u64, Distance) -> u32,
    b: Bindings,
) -> Result<bool, Failure> {
    pred_verdict(p, atoms_near(id, rows, near, b))
}

/// The rows that a predicate asks for as it is written, distances included.
pub open spec fn asked_for_near(
    p: Pred,
    rows: Map<u64, Bag>,
    near: spec_fn(u64, Distance) -> u32,
    b: Bindings,
) -> Set<u64> {
    rows.dom().filter(|id: u64| says(p, id, rows, near, b) == Ok::<bool, Failure>(true))
}

/// Whether a predicate has a verdict on every row.
pub open spec fn decides(
    p: Pred,
    rows: Map<u64, Bag>,
    near: spec_fn(u64, Distance) -> u32,
    b: Bindings,
) -> bool {
    forall|id: u64| #[trigger] rows.dom().contains(id) ==> says(p, id, rows, near, b) is Ok
}

/// The rows within a radius, rows at the radius included.
pub open spec fn within(
    rows: Map<u64, Bag>,
    near: spec_fn(u64, Distance) -> u32,
    query: Distance,
    radius: u32,
) -> Set<u64> {
    rows.dom().filter(|id: u64| bounded(near(id, query), CmpOp::Le, radius))
}

/// Whether each of `hs` carries its distance to the query.
pub open spec fn measured_by(
    hs: Seq<Hit>,
    near: spec_fn(u64, Distance) -> u32,
    query: Distance,
) -> bool {
    forall|i: int|
        0 <= i < hs.len() ==> (#[trigger] hs[i]).distance == Some(near(hs[i].id, query))
}

/// Whether a radius search found the rows within the radius: those and no
/// others, each once, in any order, with their distances.
pub open spec fn found(
    hs: Seq<Hit>,
    rows: Map<u64, Bag>,
    near: spec_fn(u64, Distance) -> u32,
    query: Distance,
    radius: u32,
) -> bool {
    holds_rows(hs, rows, within(rows, near, query, radius)) && measured_by(hs, near, query)
}

/// Where evaluating a condition on a row gives a verdict, knowing distances
/// changes nothing; nor does it where there is no distance.
proof fn lemma_known(
    c: Cond,
    id: u64,
    rows: Map<u64, Bag>,
    near: spec_fn(u64, Distance) -> u32,
    b: Bindings,
)
    ensures
        cond_holds(c, rows[id], b) is Ok || !has_distance(c) ==> verdict(
            c,
            atoms_near(id, rows, near, b),
        ) == cond_holds(c, rows[id], b),
    decreases c, 0int,
{
    match c {
        Cond::Not(d) => lemma_known(*d, id, rows, near, b),
        Cond::And(cs) => {
            if !has_distance(c) {
                assert forall|i: int| 0 <= i < cs.len() implies !has_distance(#[trigger] cs[i]) by {}
            }
            lemma_known_terms(cs, id, rows, near, b);
        },
        Cond::Or(cs) => {
            if !has_distance(c) {
                assert forall|i: int| 0 <= i < cs.len() implies !has_distance(#[trigger] cs[i]) by {}
            }
            lemma_known_terms(cs, id, rows, near, b);
        },
        _ => {},
    }
}

proof fn lemma_known_terms(
    cs: Seq<Cond>,
    id: u64,
    rows: Map<u64, Bag>,
    near: spec_fn(u64, Distance) -> u32,
    b: Bindings,
)
    ensures
        ({
            let plain = forall|i: int| 0 <= i < cs.len() ==> !has_distance(#[trigger] cs[i]);
            let v = atoms_near(id, rows, near, b);
            let bag = rows[id];
            &&& all_hold(cs, bag, b) is Ok || plain ==> verdict_of_all(cs, v) == all_hold(cs, bag, b)
            &&& any_holds(cs, bag, b) is Ok || plain ==> verdict_of_any(cs, v) == any_holds(
                cs,
                bag,
                b,
            )
        }),
    decreases cs, cs.len(),
{
    if cs.len() > 0 {
        let rest = cs.subrange(1, cs.len() as int);
        lemma_known(cs[0], id, rows, near, b);
        lemma_known_terms(rest, id, rows, near, b);
        if forall|i: int| 0 <= i < cs.len() ==> !has_distance(#[trigger] cs[i]) {
            assert(!has_distance(cs[0]));
            assert forall|i: int| 0 <= i < rest.len() implies !has_distance(#[trigger] rest[i]) by {
                assert(rest[i] == cs[i + 1]);
            }
        }
    }
}

pub open spec fn opt_verdict(
    c: Option<Cond>,
    v: spec_fn(CondAtom) -> Result<bool, Failure>,
) -> Result<bool, Failure> {
    match c {
        Some(d) => verdict(d, v),
        None => Ok(true),
    }
}

/// Inside the ball, what is left to check says what the whole predicate says,
/// errors included; outside, the predicate does not hold.
pub proof fn law_rest_decides_inside(
    c: Cond,
    ball: Ball,
    v: spec_fn(CondAtom) -> Result<bool, Failure>,
)
    requires
        ball_of(c) == Some(ball),
    ensures
        v(ball_atom(ball)) == Ok::<bool, Failure>(true) ==> verdict(c, v) == opt_verdict(
            ball.post_filter,
            v,
        ),
        v(ball_atom(ball)) == Ok::<bool, Failure>(false) ==> verdict(c, v) != Ok::<bool, Failure>(
            true,
        ),
{
    match c {
        Cond::And(cs) => {
            lemma_first_ball_is_ball(cs);
            let k = first_ball(cs);
            let atom = Cond::Atom(ball_atom(ball));
            assert(cs[k] == atom);
            let x = cs.take(k);
            let y = cs.skip(k + 1);
            let rest = cs.remove(k);
            assert(cs =~= x + (seq![atom] + y));
            assert(rest =~= x + y);
            lemma_all_concat(x, seq![atom] + y, v);
            lemma_all_concat(seq![atom], y, v);
            lemma_all_concat(x, y, v);
            lemma_single_verdict(atom, v);
            assert(verdict(atom, v) == v(ball_atom(ball)));
            assert(verdict(c, v) == verdict_of_all(cs, v));
            assert(opt_verdict(remainder(rest), v) == verdict_of_all(rest, v)) by {
                if rest.len() == 1 {
                    lemma_single_verdict(rest[0], v);
                    assert(rest =~= seq![rest[0]]);
                } else if rest.len() > 1 {
                    assert(verdict(Cond::And(rest), v) == verdict_of_all(rest, v));
                }
            }
        },
        _ => {
            assert(c == Cond::Atom(ball_atom(ball)));
        },
    }
}

// ----- Sifting what a search found -----

/// The row `id`, with its distance.
spec fn hit_of(
    id: u64,
    rows: Map<u64, Bag>,
    near: spec_fn(u64, Distance) -> u32,
    query: Distance,
) -> Hit {
    Hit { id, distance: Some(near(id, query)), bag: rows[id] }
}

proof fn lemma_kept_measured(
    hs: Seq<Hit>,
    beyond: Option<u32>,
    filter: Option<Cond>,
    b: Bindings,
    rows: Map<u64, Bag>,
    near: spec_fn(u64, Distance) -> u32,
    query: Distance,
    s: Set<u64>,
)
    requires
        holds_rows(hs, rows, s),
        measured_by(hs, near, query),
    ensures
        kept(hs, beyond, filter, b) matches Ok(out) ==> holds_rows(
            out,
            rows,
            s.filter(
                |id: u64|
                    passes(hit_of(id, rows, near, query), beyond, filter, b) == Ok::<
                        bool,
                        Failure,
                    >(true),
            ),
        ) && measured_by(out, near, query),
        kept(hs, beyond, filter, b) is Ok <==> forall|id: u64| #[trigger]
            s.contains(id) ==> passes(hit_of(id, rows, near, query), beyond, filter, b) is Ok,
    decreases hs.len(),
{
    let f = |id: u64|
        passes(hit_of(id, rows, near, query), beyond, filter, b) == Ok::<bool, Failure>(true);
    if hs.len() == 0 {
        assert(ids_of(hs) =~= Seq::empty());
        assert(s =~= Set::empty());
        assert(s.filter(f) =~= Set::empty());
        assert(ids_of(Seq::<Hit>::empty()).to_set() =~= Set::empty());
    } else {
        let p = hs.drop_last();
        let h = hs.last();
        let t = s.remove(h.id);
        lemma_without_last(hs, rows, s);
        assert(measured_by(p, near, query)) by {
            assert forall|i: int| 0 <= i < p.len() implies (#[trigger] p[i]).distance == Some(
                near(p[i].id, query),
            ) by {
                assert(p[i] == hs[i]);
            }
        }
        lemma_kept_measured(p, beyond, filter, b, rows, near, query, t);
        assert(hs[hs.len() - 1] == h);
        assert(h == hit_of(h.id, rows, near, query));
        if let Ok(before) = kept(p, beyond, filter, b) {
            if passes(h, beyond, filter, b) == Ok::<bool, Failure>(true) {
                lemma_with_one_more(before, h, rows, t.filter(f));
                assert(s.filter(f) =~= t.filter(f).insert(h.id));
                let out = before.push(h);
                assert forall|i: int| 0 <= i < out.len() implies (#[trigger] out[i]).distance
                    == Some(near(out[i].id, query)) by {
                    if i < before.len() {
                        assert(out[i] == before[i]);
                    }
                }
            } else if passes(h, beyond, filter, b) is Ok {
                assert(s.filter(f) =~= t.filter(f));
            }
        }
        if kept(hs, beyond, filter, b) is Ok {
            assert forall|id: u64| #[trigger] s.contains(id) implies passes(
                hit_of(id, rows, near, query),
                beyond,
                filter,
                b,
            ) is Ok by {
                if id != h.id {
                    assert(t.contains(id));
                }
            }
        }
        if forall|id: u64| #[trigger]
            s.contains(id) ==> passes(hit_of(id, rows, near, query), beyond, filter, b) is Ok {
            assert(s.contains(h.id));
            assert forall|id: u64| #[trigger] t.contains(id) implies passes(
                hit_of(id, rows, near, query),
                beyond,
                filter,
                b,
            ) is Ok by {
                assert(s.contains(id));
            }
        }
    }
}

/// What one row within the radius comes to.
proof fn lemma_one_row(
    p: Pred,
    ball: Ball,
    id: u64,
    rows: Map<u64, Bag>,
    near: spec_fn(u64, Distance) -> u32,
    b: Bindings,
)
    requires
        is_proper(p),
        ball_of(normal(p, false)) == Some(ball),
    ensures
        ({
            let h = hit_of(id, rows, near, ball.query);
            let r = passes(h, bound_of(ball), ball.post_filter, b);
            let close = bounded(near(id, ball.query), CmpOp::Le, ball.radius);
            &&& close && r is Ok ==> (r == Ok::<bool, Failure>(true) <==> says(
                p,
                id,
                rows,
                near,
                b,
            ) == Ok::<bool, Failure>(true))
            &&& !close ==> says(p, id, rows, near, b) != Ok::<bool, Failure>(true)
            &&& close && (ball.post_filter matches Some(c) ==> !has_distance(c)) && says(
                p,
                id,
                rows,
                near,
                b,
            ) is Ok ==> r is Ok
        }),
{
    let c = normal(p, false);
    let v = atoms_near(id, rows, near, b);
    law_normal_keeps_verdict(p, false, v);
    law_rest_decides_inside(c, ball, v);
    if let Some(rest) = ball.post_filter {
        lemma_known(rest, id, rows, near, b);
    }
}

/// What is kept of what a radius search found are the rows that the predicate
/// asks for.
proof fn lemma_sifted(
    p: Pred,
    ball: Ball,
    hs: Seq<Hit>,
    rows: Map<u64, Bag>,
    near: spec_fn(u64, Distance) -> u32,
    b: Bindings,
)
    requires
        is_proper(p),
        ball_of(normal(p, false)) == Some(ball),
        found(hs, rows, near, ball.query, ball.radius),
    ensures
        ({
            let out = kept(hs, bound_of(ball), ball.post_filter, b);
            &&& out is Ok ==> holds_rows(out->Ok_0, rows, asked_for_near(p, rows, near, b))
                && measured_by(out->Ok_0, near, ball.query)
            &&& decides(p, rows, near, b) && (ball.post_filter matches Some(c) ==> !has_distance(c))
                ==> out is Ok
        }),
{
    let s = within(rows, near, ball.query, ball.radius);
    let beyond = bound_of(ball);
    let filter = ball.post_filter;
    lemma_kept_measured(hs, beyond, filter, b, rows, near, ball.query, s);
    let f = |id: u64|
        passes(hit_of(id, rows, near, ball.query), beyond, filter, b) == Ok::<bool, Failure>(true);
    if kept(hs, beyond, filter, b) is Ok {
        assert forall|id: u64|
            s.filter(f).contains(id) <==> #[trigger] asked_for_near(p, rows, near, b).contains(
                id,
            ) by {
            lemma_one_row(p, ball, id, rows, near, b);
            if s.contains(id) {
                assert(passes(hit_of(id, rows, near, ball.query), beyond, filter, b) is Ok);
            }
        }
        assert(s.filter(f) =~= asked_for_near(p, rows, near, b));
    }
    if decides(p, rows, near, b) && (filter matches Some(c) ==> !has_distance(c)) {
        assert forall|id: u64| #[trigger] s.contains(id) implies passes(
            hit_of(id, rows, near, ball.query),
            beyond,
            filter,
            b,
        ) is Ok by {
            assert(rows.dom().contains(id));
            lemma_one_row(p, ball, id, rows, near, b);
        }
    }
}

// ----- From the statement to the rows -----

/// `DELETE FROM t WHERE p`, where a distance bound stands at the top of `p`:
/// where the radius search finds the rows within the radius, the rows that
/// are deleted are exactly those inside the bound, strict or not, that satisfy
/// the rest of `p` as it is written. Where `p` has a verdict on every row and
/// holds no second distance, the statement does not fail on the way.
pub proof fn law_delete_by_distance(
    t: Seq<char>,
    p: Pred,
    ball: Ball,
    query: Seq<u32>,
    kind: PlanKind,
    table: Seq<char>,
    b: Bindings,
    rows: Map<u64, Bag>,
    near: spec_fn(u64, Distance) -> u32,
    hs: Seq<Hit>,
)
    requires
        is_proper(p),
        ball_of(normal(p, false)) == Some(ball),
        !or_with_distance(normal(p, false)),
        table_error(t, table) is None,
        vector_arg(b, ball.query.param, "query"@) == Ok::<Seq<u32>, Failure>(query),
        found(hs, rows, near, ball.query, ball.radius),
    ensures
        ({
            let l = bound(Stmt::Delete { table: t, predicate: p });
            let wait = Wait::Hits {
                beyond: bound_of(ball),
                filter: ball.post_filter,
                aim: Aim::Delete { table: t },
            };
            let n = resumed(wait, Answer::Hits(hs), b);
            &&& l is Ok
            &&& planned_and_started(l->Ok_0, kind, b, table) == ask(
                Want::SearchRadius { query, radius: ball.radius },
                wait,
            )
            &&& n is Ok ==> exists|ids: Seq<u64>|
                lists_ids(ids, asked_for_near(p, rows, near, b)) && n == #[trigger] ask(
                    Want::DeleteMany(ids),
                    Wait::DeleteMany { table: t },
                )
            &&& decides(p, rows, near, b) && (ball.post_filter matches Some(c) ==> !has_distance(c))
                ==> n is Ok
        }),
{
    lemma_sifted(p, ball, hs, rows, near, b);
    let wait = Wait::Hits {
        beyond: bound_of(ball),
        filter: ball.post_filter,
        aim: Aim::Delete { table: t },
    };
    let n = resumed(wait, Answer::Hits(hs), b);
    if let Ok(out) = kept(hs, bound_of(ball), ball.post_filter, b) {
        assert(n == ask(Want::DeleteMany(ids_of(out)), Wait::DeleteMany { table: t }));
    }
}

/// The ids of stored rows, in order.
pub open spec fn stored_ids(out: Seq<StoredRowModel>) -> Seq<u64> {
    out.map_values(|r: StoredRowModel| r.id)
}

/// Whether `out` are the rows with the ids in `s`, each once, rewritten by
/// all assignments.
pub open spec fn rewrites(
    out: Seq<StoredRowModel>,
    rows: Map<u64, Bag>,
    s: Set<u64>,
    assignments: Seq<Assign>,
    b: Bindings,
) -> bool {
    lists_ids(stored_ids(out), s) && forall|i: int|
        0 <= i < out.len() ==> applied(rows[(#[trigger] out[i]).id], assignments, b) == (
            out[i].bag,
            None::<Failure>,
        )
}

/// Rewriting what is kept.
proof fn lemma_kept_rewritten(
    hs: Seq<Hit>,
    beyond: Option<u32>,
    filter: Option<Cond>,
    assignments: Seq<Assign>,
    b: Bindings,
)
    ensures
        ({
            let k = kept(hs, beyond, filter, b);
            let r = kept_rewritten(hs, beyond, filter, assignments, b);
            &&& r matches Ok(out) ==> k is Ok && out.len() == k->Ok_0.len() && forall|i: int|
                0 <= i < out.len() ==> (#[trigger] out[i]).id == k->Ok_0[i].id && applied(
                    k->Ok_0[i].bag,
                    assignments,
                    b,
                ) == (out[i].bag, None::<Failure>)
            &&& k is Ok && (forall|i: int|
                0 <= i < k->Ok_0.len() ==> applied(
                    (#[trigger] k->Ok_0[i]).bag,
                    assignments,
                    b,
                ).1 is None) ==> r is Ok
        }),
    decreases hs.len(),
{
    if hs.len() > 0 {
        let p = hs.drop_last();
        lemma_kept_rewritten(p, beyond, filter, assignments, b);
        let k = kept(hs, beyond, filter, b);
        let r = kept_rewritten(hs, beyond, filter, assignments, b);
        if r is Ok {
            let out = r->Ok_0;
            let before = kept_rewritten(p, beyond, filter, assignments, b)->Ok_0;
            let kp = kept(p, beyond, filter, b)->Ok_0;
            assert forall|i: int| 0 <= i < out.len() implies (#[trigger] out[i]).id
                == k->Ok_0[i].id && applied(k->Ok_0[i].bag, assignments, b) == (
                out[i].bag,
                None::<Failure>,
            ) by {
                if i < before.len() {
                    assert(out[i] == before[i]);
                    assert(k->Ok_0[i] == kp[i]);
                }
            }
        }
        if k is Ok && (forall|i: int|
            0 <= i < k->Ok_0.len() ==> applied((#[trigger] k->Ok_0[i]).bag, assignments, b).1
                is None) {
            let kp = kept(p, beyond, filter, b)->Ok_0;
            assert forall|i: int| 0 <= i < kp.len() implies applied(
                (#[trigger] kp[i]).bag,
                assignments,
                b,
            ).1 is None by {
                assert(kp[i] == k->Ok_0[i]);
            }
            if passes(hs.last(), beyond, filter, b) == Ok::<bool, Failure>(true) {
                assert(k->Ok_0[kp.len() as int] == hs.last());
            }
        }
    }
}

/// `UPDATE t SET ... WHERE p`, where a distance bound stands at the top of
/// `p`: where the radius search finds the rows within the radius, the rows
/// that are written are exactly those inside the bound, strict or not, that
/// satisfy the rest of `p` as it is written, each with all assignments
/// applied. Where `p` has a verdict on every row and holds no second distance,
/// and no row refuses an assignment, the statement does not fail on the way.
pub proof fn law_update_by_distance(
    t: Seq<char>,
    assignments: Seq<Assign>,
    p: Pred,
    ball: Ball,
    query: Seq<u32>,
    kind: PlanKind,
    table: Seq<char>,
    b: Bindings,
    rows: Map<u64, Bag>,
    near: spec_fn(u64, Distance) -> u32,
    hs: Seq<Hit>,
)
    requires
        is_proper(p),
        !assigns_embedding(assignments),
        ball_of(normal(p, false)) == Some(ball),
        !or_with_distance(normal(p, false)),
        table_error(t, table) is None,
        vector_arg(b, ball.query.param, "query"@) == Ok::<Seq<u32>, Failure>(query),
        found(hs, rows, near, ball.query, ball.radius),
    ensures
        ({
            let l = bound(Stmt::Update { table: t, assignments, predicate: p });
            let wait = Wait::UpdateHits {
                beyond: bound_of(ball),
                filter: ball.post_filter,
                table: t,
                assignments,
            };
            let n = resumed(wait, Answer::Hits(hs), b);
            &&& l is Ok
            &&& planned_and_started(l->Ok_0, kind, b, table) == ask(
                Want::SearchRadius { query, radius: ball.radius },
                wait,
            )
            &&& n is Ok ==> exists|out: Seq<StoredRowModel>|
                rewrites(out, rows, asked_for_near(p, rows, near, b), assignments, b) && n
                    == #[trigger] ask(Want::UpdateMetadata(out), Wait::Update { table: t })
            &&& decides(p, rows, near, b) && (ball.post_filter matches Some(c) ==> !has_distance(c))
                && (forall|id: u64| #[trigger]
                rows.dom().contains(id) ==> applied(rows[id], assignments, b).1 is None) ==> n is Ok
        }),
{
    lemma_sifted(p, ball, hs, rows, near, b);
    let beyond = bound_of(ball);
    let filter = ball.post_filter;
    lemma_kept_rewritten(hs, beyond, filter, assignments, b);
    let wait = Wait::UpdateHits { beyond, filter, table: t, assignments };
    let n = resumed(wait, Answer::Hits(hs), b);
    if let Ok(out) = kept_rewritten(hs, beyond, filter, assignments, b) {
        let k = kept(hs, beyond, filter, b)->Ok_0;
        assert(stored_ids(out) =~= ids_of(k));
        assert forall|i: int| 0 <= i < out.len() implies applied(
            rows[(#[trigger] out[i]).id],
            assignments,
            b,
        ) == (out[i].bag, None::<Failure>) by {
            assert(k[i].bag == rows[k[i].id]);
        }
        assert(n == ask(Want::UpdateMetadata(out), Wait::Update { table: t }));
    }
    if let Ok(k) = kept(hs, beyond, filter, b) {
        if forall|id: u64| #[trigger]
            rows.dom().contains(id) ==> applied(rows[id], assignments, b).1 is None {
            assert forall|i: int| 0 <= i < k.len() implies applied(
                (#[trigger] k[i]).bag,
                assignments,
                b,
            ).1 is None by {
                assert(rows.dom().contains(k[i].id));
            }
        }
    }
}

/// What a query without an order does with its rows: the limit, if there is
/// one, and the projection.
pub open spec fn unordered_reading(q: Query) -> Reading {
    Reading {
        stages: match q.limit {
            Some(limit) => seq![Phase::Limit(limit)],
            None => Seq::empty(),
        },
        columns: expanded(bound_columns(q.projection)->Ok_0),
    }
}

/// `SELECT ... FROM t WHERE p`, with or without a limit and without an order,
/// where a distance bound stands at the top of `p`: where the radius search
/// finds the rows within the radius, the rows that are returned come from
/// exactly those inside the bound, strict or not, that satisfy the rest of `p`
/// as it is written, each with its distance; no more than the limit, and all
/// of them without one. Where `p` has a verdict on every row and holds no
/// second distance, the statement does not fail before the projection.
pub proof fn law_select_by_distance(
    q: Query,
    p: Pred,
    ball: Ball,
    query: Seq<u32>,
    kind: PlanKind,
    table: Seq<char>,
    b: Bindings,
    rows: Map<u64, Bag>,
    near: spec_fn(u64, Distance) -> u32,
    hs: Seq<Hit>,
)
    requires
        is_proper(p),
        q.predicate == Some(p) && q.order_by.len() == 0,
        bound(Stmt::Select(q)) is Ok,
        count_name(bound_columns(q.projection)->Ok_0) is None,
        ball_of(normal(p, false)) == Some(ball),
        !or_with_distance(normal(p, false)),
        table_error(q.from_table, table) is None,
        vector_arg(b, ball.query.param, "query"@) == Ok::<Seq<u32>, Failure>(query),
        found(hs, rows, near, ball.query, ball.radius),
    ensures
        ({
            let l = bound(Stmt::Select(q))->Ok_0;
            let reading = unordered_reading(q);
            let wait = Wait::Hits {
                beyond: bound_of(ball),
                filter: ball.post_filter,
                aim: Aim::Read(reading),
            };
            let n = resumed(wait, Answer::Hits(hs), b);
            let no_second = ball.post_filter matches Some(c) ==> !has_distance(c);
            &&& planned_and_started(l, kind, b, table) == ask(
                Want::SearchRadius { query, radius: ball.radius },
                wait,
            )
            &&& n is Ok || (decides(p, rows, near, b) && no_second) ==> exists|out: Seq<Hit>|
                holds_rows(out, rows, asked_for_near(p, rows, near, b)) && measured_by(
                    out,
                    near,
                    ball.query,
                ) && n == #[trigger] read_on(reading, out, b)
            &&& n matches Ok(Next::Done(Outcome::Rows { columns: _, rows: cells })) ==> (
            q.limit matches Some(limit) ==> cells.len() <= limit)
        }),
{
    lemma_sifted(p, ball, hs, rows, near, b);
    let reading = unordered_reading(q);
    let wait = Wait::Hits {
        beyond: bound_of(ball),
        filter: ball.post_filter,
        aim: Aim::Read(reading),
    };
    let n = resumed(wait, Answer::Hits(hs), b);
    reveal_with_fuel(read_started, 3);
    if let Some(limit) = q.limit {
        assert(Seq::<Phase>::empty().push(Phase::Limit(limit)) =~= seq![Phase::Limit(limit)]);
    }
    if let Ok(out) = kept(hs, bound_of(ball), ball.post_filter, b) {
        assert(n == read_on(reading, out, b));
        if let Ok(Next::Done(Outcome::Rows { columns, rows: cells })) = n {
            if q.limit is Some {
                law_limit_holds(reading, out, b, columns, cells);
            }
        }
    }
}

} // verus!
