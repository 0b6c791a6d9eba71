//! What the ways to answer a filtered kNN query promise of each other.

use crate::ast::OrderDir;
use crate::binder::{bound, normal, opt_normal};
use crate::binder_laws::law_select_is_kept;
use crate::cost::PlanKind;
use crate::error::Failure;
use crate::eval::cond_holds;
use crate::exec_laws::{
    asked_for, holds_rows, law_selection_succeeds, lemma_matching_is_asked_for, lists, matching,
    served,
};
use crate::executor::{
    ask, ids_of, planned_and_started, present, read_on, read_started, resumed, table_error,
    unmeasured, vector_arg,
};
use crate::ieee::order32;
use crate::index_eval::{answers_exact, asks};
use crate::keyword::same_ignoring_case;
use crate::logical::{BoundQuery, Column, Cond, Logical, SortKey};
use crate::normal_form::{is_proper, law_normal_keeps_meaning, pred_holds};
use crate::params::{resolve_arg, Arg, Bindings};
use crate::planner::{count_name, expanded, knn_key, row_count};
use crate::rows::{can_show, grid, headers, law_projection, shows, Hit, Outcome};
use crate::select::{
    ascending, by_distance, first, inserted, kept, law_by_distance, law_kept, law_measured,
    measured, nearness, passes,
};
use crate::steps::{Aim, Answer, Next, Phase, Reading, StoredRowModel, Wait, Want};
use crate::syntax::{Distance, Order, Pred, Query, Stmt};
use crate::value::Bag;
use vstd::prelude::*;

verus! {

/// Whether a row satisfies a filter.
pub open spec fn satisfied(c: Cond, b: Bindings) -> spec_fn(Hit) -> bool {
    |h: Hit| passes(h, None, Some(c), b) == Ok::<bool, Failure>(true)
}

proof fn lemma_filter_members(hs: Seq<Hit>, f: spec_fn(Hit) -> bool)
    ensures
        forall|i: int|
            0 <= i < hs.filter(f).len() ==> hs.contains(#[trigger] hs.filter(f)[i]),
    decreases hs.len(),
{
    reveal(Seq::filter);
    if hs.len() > 0 {
        let p = hs.drop_last();
        lemma_filter_members(p, f);
        assert forall|i: int| 0 <= i < hs.filter(f).len() implies hs.contains(
            #[trigger] hs.filter(f)[i],
        ) by {
            let x = hs.filter(f)[i];
            if i < p.filter(f).len() {
                assert(x == p.filter(f)[i]);
                assert(p.contains(x));
                let j = choose|j: int| 0 <= j < p.len() && p[j] == x;
                assert(hs[j] == x);
            } else {
                assert(hs[hs.len() - 1] == x);
            }
        }
    }
}

/// Filtering commutes with putting a row in its place.
proof fn lemma_inserted_filtered(hs: Seq<Hit>, h: Hit, f: spec_fn(Hit) -> bool)
    requires
        ascending(hs),
    ensures
        inserted(hs, h).filter(f) == if f(h) {
            inserted(hs.filter(f), h)
        } else {
            hs.filter(f)
        },
    decreases hs.len(),
{
    reveal(Seq::filter);
    if hs.len() == 0 || nearness(hs.last()) <= nearness(h) {
        assert(hs.push(h).drop_last() =~= hs);
        let g = hs.filter(f);
        if g.len() > 0 {
            lemma_filter_members(hs, f);
            assert(hs.contains(g[g.len() - 1]));
            let j = choose|j: int| 0 <= j < hs.len() && hs[j] == g[g.len() - 1];
            if j < hs.len() - 1 {
                assert(nearness(hs[j]) <= nearness(hs[hs.len() - 1]));
            }
        }
    } else {
        let p = hs.drop_last();
        let x = hs.last();
        assert(ascending(p));
        lemma_inserted_filtered(p, h, f);
        let q = inserted(p, h);
        assert(q.push(x).drop_last() =~= q);
        if f(x) {
            assert(p.filter(f).push(x).drop_last() =~= p.filter(f));
        }
    }
}

/// Filtering commutes with putting rows in order of distance.
pub proof fn law_filter_commutes_with_order(hs: Seq<Hit>, f: spec_fn(Hit) -> bool)
    ensures
        by_distance(hs).filter(f) == by_distance(hs.filter(f)),
    decreases hs.len(),
{
    reveal(Seq::filter);
    if hs.len() > 0 {
        let p = hs.drop_last();
        let h = hs.last();
        law_filter_commutes_with_order(p, f);
        law_by_distance(p);
        lemma_inserted_filtered(by_distance(p), h, f);
        if f(h) {
            assert(p.filter(f).push(h).drop_last() =~= p.filter(f));
        }
    }
}

proof fn lemma_filter_split(x: Seq<Hit>, y: Seq<Hit>, f: spec_fn(Hit) -> bool)
    ensures
        (x + y).filter(f) == x.filter(f) + y.filter(f),
    decreases y.len(),
{
    reveal(Seq::filter);
    if y.len() == 0 {
        assert(x + y =~= x);
        assert(x.filter(f) + y.filter(f) =~= x.filter(f));
    } else {
        assert((x + y).drop_last() =~= x + y.drop_last());
        lemma_filter_split(x, y.drop_last(), f);
        assert((x + y).filter(f) =~= x.filter(f) + y.filter(f));
    }
}

proof fn lemma_kept_is_ok(hs: Seq<Hit>, c: Cond, b: Bindings)
    requires
        forall|i: int| 0 <= i < hs.len() ==> passes(#[trigger] hs[i], None, Some(c), b) is Ok,
    ensures
        kept(hs, None, Some(c), b) is Ok,
    decreases hs.len(),
{
    if hs.len() > 0 {
        let p = hs.drop_last();
        assert forall|i: int| 0 <= i < p.len() implies passes(
            #[trigger] p[i],
            None,
            Some(c),
            b,
        ) is Ok by {
            assert(p[i] == hs[i]);
        }
        lemma_kept_is_ok(p, c, b);
        assert(passes(hs[hs.len() - 1], None, Some(c), b) is Ok);
    }
}

/// Plan A (fetch the `k` nearest rows, then filter) and plan B (filter, then
/// order by exact distance) give the same first `n` rows, in the same order,
/// wherever plan A's candidates suffice: `n` of them satisfy the filter, or
/// they are all the rows there are. `all` are the rows with their distances,
/// and the graph search is taken to be exact.
pub proof fn law_plans_a_and_b_agree(all: Seq<Hit>, c: Cond, b: Bindings, k: nat, n: nat)
    requires
        forall|i: int| 0 <= i < all.len() ==> passes(#[trigger] all[i], None, Some(c), b) is Ok,
        k >= all.len() || first(by_distance(all), k as int).filter(satisfied(c, b)).len() >= n,
    ensures
        ({
            let a = kept(first(by_distance(all), k as int), None, Some(c), b);
            let m = kept(all, None, Some(c), b);
            a is Ok && m is Ok && first(a->Ok_0, n as int) == first(
                by_distance(m->Ok_0),
                n as int,
            )
        }),
{
    let f = satisfied(c, b);
    let sorted = by_distance(all);
    let near = first(sorted, k as int);
    let far = sorted.skip(near.len() as int);
    law_by_distance(all);
    assert(near + far =~= sorted);
    assert forall|i: int| 0 <= i < near.len() implies passes(
        #[trigger] near[i],
        None,
        Some(c),
        b,
    ) is Ok by {
        broadcast use vstd::seq_lib::group_to_multiset_ensures;

        assert(near[i] == sorted[i]);
        assert(sorted.to_multiset().count(sorted[i]) > 0);
        assert(all.to_multiset().count(sorted[i]) > 0);
        assert(all.contains(sorted[i]));
        let j = choose|j: int| 0 <= j < all.len() && all[j] == sorted[i];
        assert(passes(all[j], None, Some(c), b) is Ok);
    }
    lemma_kept_is_ok(near, c, b);
    lemma_kept_is_ok(all, c, b);
    let a = kept(near, None, Some(c), b)->Ok_0;
    let m = kept(all, None, Some(c), b)->Ok_0;
    law_kept(near, None, Some(c), b, a);
    law_kept(all, None, Some(c), b, m);
    assert(a == near.filter(f));
    assert(m == all.filter(f));
    law_filter_commutes_with_order(all, f);
    lemma_filter_split(near, far, f);
    assert(by_distance(m) == a + far.filter(f));
    if k >= all.len() {
        assert(far =~= Seq::empty());
        reveal(Seq::filter);
        assert(far.filter(f) =~= Seq::empty());
        assert(by_distance(m) =~= a);
    } else {
        assert(first(a, n as int) =~= first(a + far.filter(f), n as int));
    }
}

// ----- From the statement to the rows -----

/// The distances that a shard measures for rows, where `near` tells them.
pub open spec fn distances_of(
    ids: Seq<u64>,
    near: spec_fn(u64, Distance) -> u32,
    query: Distance,
) -> Seq<Option<u32>> {
    ids.map_values(|id: u64| Some(near(id, query)))
}

/// Rows that are measured are the same rows, with their distances.
proof fn lemma_measured(
    hs: Seq<Hit>,
    ds: Seq<Option<u32>>,
    near: spec_fn(u64, Distance) -> u32,
    query: Distance,
)
    requires
        hs.len() <= ds.len(),
        forall|i: int| 0 <= i < hs.len() ==> #[trigger] ds[i] == Some(near(hs[i].id, query)),
    ensures
        measured(hs, ds).len() == hs.len(),
        forall|i: int|
            0 <= i < hs.len() ==> (#[trigger] measured(hs, ds)[i]) == (Hit {
                id: hs[i].id,
                distance: Some(near(hs[i].id, query)),
                bag: hs[i].bag,
            }),
    decreases hs.len(),
{
    if hs.len() > 0 {
        let p = hs.drop_last();
        assert forall|i: int| 0 <= i < p.len() implies #[trigger] ds[i] == Some(
            near(p[i].id, query),
        ) by {
            assert(p[i] == hs[i]);
        }
        lemma_measured(p, ds, near, query);
        assert(ds[hs.len() - 1] == Some(near(hs[hs.len() - 1].id, query)));
        assert forall|i: int| 0 <= i < hs.len() implies (#[trigger] measured(hs, ds)[i]) == (Hit {
            id: hs[i].id,
            distance: Some(near(hs[i].id, query)),
            bag: hs[i].bag,
        }) by {
            if i < p.len() {
                assert(measured(hs, ds)[i] == measured(p, ds)[i]);
            }
        }
    }
}

/// A filtered kNN query by plan B, `SELECT ... WHERE p ORDER BY embedding
/// <op> $q LIMIT n`: the rows that satisfy `p` as it is written are measured,
/// and the `n` nearest of them are projected, from near to far. It does not
/// fail before the projection where `p` has a verdict on every row.
pub proof fn law_knn_by_plan_b(
    q: Query,
    bq: BoundQuery,
    p: Pred,
    limit: u64,
    query: Distance,
    vector: Seq<u32>,
    table: Seq<char>,
    answers: Seq<Option<Set<u64>>>,
    b: Bindings,
    rows: Map<u64, Bag>,
    scan: Seq<StoredRowModel>,
    near: spec_fn(u64, Distance) -> u32,
)
    requires
        is_proper(p),
        q.predicate == Some(p) && q.limit == Some(limit),
        bound(Stmt::Select(q)) == Ok::<Logical, Failure>(Logical::Query(bq)),
        count_name(bq.projection) is None,
        knn_key(bq.ordering) == Some(query),
        table_error(q.from_table, table) is None,
        vector_arg(b, query.param, "query"@) == Ok::<Seq<u32>, Failure>(vector),
        answers_exact(asks(normal(p, false), b), answers, rows),
        lists(scan, rows),
        forall|id: u64| #[trigger] rows.dom().contains(id) ==> pred_holds(p, rows[id], b) is Ok,
    ensures
        ({
            let k = row_count(limit);
            let columns = expanded(bq.projection);
            let stages = seq![
                Phase::Limit(limit),
                Phase::ExactDistance { query: query.param, k },
            ];
            let wait = Wait::Lookup {
                predicate: normal(p, false),
                aim: Aim::Read(Reading { stages, columns }),
            };
            let n = served(resumed(wait, Answer::Answers(answers), b), rows, scan, b);
            let rest = Reading { stages: seq![Phase::Limit(limit)], columns };
            &&& planned_and_started(Logical::Query(bq), PlanKind::B, b, table) == ask(
                Want::Lookup(asks(normal(p, false), b)),
                wait,
            )
            &&& exists|hs: Seq<Hit>|
                {
                    let ds = distances_of(ids_of(hs), near, query);
                    let all = measured(hs, ds);
                    &&& holds_rows(hs, rows, asked_for(p, rows, b))
                    &&& n == #[trigger] ask(
                        Want::DistanceTo { query: vector, ids: ids_of(hs) },
                        Wait::Distances { hits: hs, k, reading: rest },
                    )
                    &&& holds_rows(all, rows, asked_for(p, rows, b))
                    &&& forall|i: int|
                        0 <= i < all.len() ==> (#[trigger] all[i]).distance == Some(
                            near(all[i].id, query),
                        )
                    &&& resumed(
                        Wait::Distances { hits: hs, k, reading: rest },
                        Answer::Distances(ds),
                        b,
                    ) == match grid(first(by_distance(all), k as int), columns) {
                        Ok(cells) => Ok::<Next, Failure>(
                            Next::Done(Outcome::Rows { columns: headers(columns), rows: cells }),
                        ),
                        Err(e) => Err(e),
                    }
                }
        }),
{
    let c = normal(p, false);
    let k = row_count(limit);
    let columns = expanded(bq.projection);
    let stages = seq![Phase::Limit(limit), Phase::ExactDistance { query: query.param, k }];
    let reading = Reading { stages, columns };
    let rest = Reading { stages: seq![Phase::Limit(limit)], columns };
    let aim = Aim::Read(reading);
    let n = served(
        resumed(Wait::Lookup { predicate: c, aim }, Answer::Answers(answers), b),
        rows,
        scan,
        b,
    );
    lemma_matching_is_asked_for(p, rows, b);
    assert forall|id: u64| #[trigger] rows.dom().contains(id) implies cond_holds(
        c,
        rows[id],
        b,
    ) is Ok by {
        law_normal_keeps_meaning(p, false, rows[id], b);
    }
    law_selection_succeeds(c, aim, answers, b, rows, scan);
    let hs = choose|hs: Seq<Hit>|
        holds_rows(hs, rows, matching(c, rows, b)) && n == #[trigger] read_on(reading, hs, b);
    let ds = distances_of(ids_of(hs), near, query);
    let all = measured(hs, ds);
    assert(stages.drop_last() =~= seq![Phase::Limit(limit)]);
    assert(n == ask(
        Want::DistanceTo { query: vector, ids: ids_of(hs) },
        Wait::Distances { hits: hs, k, reading: rest },
    ));
    lemma_measured(hs, ds, near, query);
    assert(ids_of(all) =~= ids_of(hs));
    assert forall|i: int| 0 <= i < all.len() implies rows.dom().contains((#[trigger] all[i]).id)
        && all[i].bag == rows[all[i].id] by {
        assert(rows.dom().contains(hs[i].id));
    }
    let top = first(by_distance(all), k as int);
    reveal_with_fuel(read_on, 2);
    assert(rest.stages.drop_last() =~= Seq::empty());
    law_by_distance(all);
    assert(first(top, limit as int) =~= top);
    assert(read_on(rest, top, b) == read_on(
        Reading { stages: rest.stages.drop_last(), columns },
        top,
        b,
    ));
    reveal_with_fuel(read_started, 4);
    assert(Seq::<Phase>::empty().push(Phase::Limit(limit)).push(
        Phase::ExactDistance { query: query.param, k },
    ) =~= stages);
}

// ----- Result sets -----

/// Whether a statement ended in a result set that shows the columns of `hs`,
/// one row for each hit and in the order of the hits.
pub open spec fn result_shows(
    r: Result<Next, Failure>,
    columns: Seq<Column>,
    hs: Seq<Hit>,
) -> bool {
    r matches Ok(Next::Done(Outcome::Rows { columns: names, rows })) && names == headers(columns)
        && rows.len() == hs.len() && forall|i: int|
        0 <= i < hs.len() ==> (#[trigger] rows[i]).len() == columns.len() && forall|j: int|
            0 <= j < columns.len() ==> shows(columns[j], hs[i], #[trigger] rows[i][j])
}

/// Whether every column can be shown of every hit.
pub open spec fn presentable(columns: Seq<Column>, hs: Seq<Hit>) -> bool {
    forall|i: int, j: int|
        0 <= i < hs.len() && 0 <= j < columns.len() ==> can_show(
            #[trigger] columns[j],
            #[trigger] hs[i],
        )
}

/// The distances that the rows of a result set show, in one column, never
/// decrease.
pub open spec fn shows_ascending(r: Result<Next, Failure>, column: int) -> bool {
    r matches Ok(Next::Done(Outcome::Rows { rows, .. })) ==> forall|i: int, j: int|
        0 <= i < j < rows.len() ==> rows[i][column] is Distance && rows[j][column] is Distance
            && order32((#[trigger] rows[i])[column]->Distance_0) <= order32(
            (#[trigger] rows[j])[column]->Distance_0,
        )
}

/// Hits come from near to far: each has a distance, and they never decrease.
pub open spec fn near_to_far(hs: Seq<Hit>) -> bool {
    &&& forall|i: int| 0 <= i < hs.len() ==> (#[trigger] hs[i]).distance is Some
    &&& forall|i: int, j: int|
        0 <= i < j < hs.len() ==> order32((#[trigger] hs[i]).distance->Some_0) <= order32(
            (#[trigger] hs[j]).distance->Some_0,
        )
}

/// Rows that are read without a limit are all shown, in order; under a limit
/// of `n`, the first `n` of them. There is a result set exactly where the
/// columns can be shown of these.
pub proof fn law_read(columns: Seq<Column>, hs: Seq<Hit>, n: u64, b: Bindings)
    ensures
        ({
            let all = read_on(Reading { stages: Seq::empty(), columns }, hs, b);
            let some = read_on(Reading { stages: seq![Phase::Limit(n)], columns }, hs, b);
            let top = if n < hs.len() {
                hs.subrange(0, n as int)
            } else {
                hs
            };
            &&& all is Ok <==> presentable(columns, hs)
            &&& all is Ok ==> result_shows(all, columns, hs)
            &&& some is Ok <==> presentable(columns, top)
            &&& some is Ok ==> result_shows(some, columns, top)
        }),
{
    let top = if n < hs.len() {
        hs.subrange(0, n as int)
    } else {
        hs
    };
    reveal_with_fuel(read_on, 2);
    assert(seq![Phase::Limit(n)].drop_last() =~= Seq::empty());
    assert(first(hs, n as int) =~= top);
    law_projection(hs, columns);
    law_projection(top, columns);
}

proof fn lemma_shows_ascending(
    r: Result<Next, Failure>,
    columns: Seq<Column>,
    hs: Seq<Hit>,
    column: int,
)
    requires
        result_shows(r, columns, hs),
        near_to_far(hs),
        0 <= column < columns.len() && columns[column] is Distance,
    ensures
        shows_ascending(r, column),
{
    if let Ok(Next::Done(Outcome::Rows { columns: names, rows })) = r {
        assert forall|i: int, j: int| 0 <= i < j < rows.len() implies rows[i][column] is Distance
            && rows[j][column] is Distance && order32(
            (#[trigger] rows[i])[column]->Distance_0,
        ) <= order32((#[trigger] rows[j])[column]->Distance_0) by {
            assert(shows(columns[column], hs[i], rows[i][column]));
            assert(shows(columns[column], hs[j], rows[j][column]));
            assert(hs[i].distance is Some && hs[j].distance is Some);
        }
    }
}

/// A filtered kNN query by plan C, from the statement to the result set. The
/// shard is asked for the `n` nearest rows that satisfy the predicate, and the
/// first `n` hits it gives are shown in the order it gave them: where they
/// come from near to far, so do the rows. What the shard's filter fails with,
/// the statement fails with.
pub proof fn law_knn_by_plan_c(
    q: Query,
    bq: BoundQuery,
    p: Pred,
    limit: u64,
    query: Distance,
    vector: Seq<u32>,
    table: Seq<char>,
    b: Bindings,
    hs: Seq<Hit>,
    e: Failure,
)
    requires
        q.predicate == Some(p) && q.limit == Some(limit),
        q.order_by.len() > 0 && q.order_by[0] == Order::Distance(query, OrderDir::Asc),
        bound(Stmt::Select(q)) == Ok::<Logical, Failure>(Logical::Query(bq)),
        count_name(bq.projection) is None,
        same_ignoring_case(q.from_table, table),
        resolve_arg(b, query.param) == Ok::<Arg, Failure>(Arg::Vector(vector)),
    ensures
        ({
            let columns = expanded(bq.projection);
            let k = if limit <= usize::MAX {
                limit as usize
            } else {
                usize::MAX
            };
            let wait = Wait::FilteredHits {
                reading: Reading { stages: seq![Phase::Limit(limit)], columns },
            };
            let r = resumed(wait, Answer::FilteredHits { hits: hs, error: None }, b);
            let top = if limit < hs.len() {
                hs.subrange(0, limit as int)
            } else {
                hs
            };
            &&& planned_and_started(Logical::Query(bq), PlanKind::C, b, table) == Ok::<
                Next,
                Failure,
            >(
                Next::Ask(
                    Want::SearchFiltered { query: vector, k, filter: normal(p, false) },
                    wait,
                ),
            )
            &&& r is Ok <==> presentable(columns, top)
            &&& r is Ok ==> result_shows(r, columns, top)
            &&& r is Ok && near_to_far(hs) ==> forall|j: int|
                0 <= j < columns.len() && #[trigger] columns[j] is Distance ==> shows_ascending(
                    r,
                    j,
                )
            &&& resumed(wait, Answer::FilteredHits { hits: hs, error: Some(e) }, b) == Err::<
                Next,
                Failure,
            >(e)
        }),
{
    let columns = expanded(bq.projection);
    let top = if limit < hs.len() {
        hs.subrange(0, limit as int)
    } else {
        hs
    };
    law_select_is_kept(q, Logical::Query(bq));
    assert(bq.ordering[0] == SortKey::Distance(query));
    reveal_with_fuel(read_started, 3);
    assert(Seq::<Phase>::empty().push(Phase::Limit(limit)) =~= seq![Phase::Limit(limit)]);
    law_read(columns, hs, limit, b);
    let wait = Wait::FilteredHits {
        reading: Reading { stages: seq![Phase::Limit(limit)], columns },
    };
    let r = resumed(wait, Answer::FilteredHits { hits: hs, error: None }, b);
    if r is Ok && near_to_far(hs) {
        assert(top =~= hs.subrange(0, top.len() as int));
        lemma_top_near_to_far(hs, top);
        assert forall|j: int| 0 <= j < columns.len() && #[trigger]
            columns[j] is Distance implies shows_ascending(r, j) by {
            lemma_shows_ascending(r, columns, top, j);
        }
    }
}

proof fn lemma_top_near_to_far(hs: Seq<Hit>, top: Seq<Hit>)
    requires
        near_to_far(hs),
        top.len() <= hs.len() && top == hs.subrange(0, top.len() as int),
    ensures
        near_to_far(top),
{
    assert forall|i: int| 0 <= i < top.len() implies (#[trigger] top[i]).distance is Some by {
        assert(top[i] == hs[i]);
    }
    assert forall|i: int, j: int| 0 <= i < j < top.len() implies order32(
        (#[trigger] top[i]).distance->Some_0,
    ) <= order32((#[trigger] top[j]).distance->Some_0) by {
        assert(top[i] == hs[i] && top[j] == hs[j]);
    }
}

/// Filtering keeps hits from near to far.
proof fn lemma_filter_near_to_far(hs: Seq<Hit>, f: spec_fn(Hit) -> bool)
    requires
        near_to_far(hs),
    ensures
        near_to_far(hs.filter(f)),
    decreases hs.len(),
{
    reveal(Seq::filter);
    if hs.len() > 0 {
        let p = hs.drop_last();
        assert(p =~= hs.subrange(0, p.len() as int));
        lemma_top_near_to_far(hs, p);
        lemma_filter_near_to_far(p, f);
        lemma_filter_members(p, f);
        let g = hs.filter(f);
        let last = hs.len() - 1;
        assert(hs[last].distance is Some);
        assert forall|i: int| 0 <= i < g.len() implies (#[trigger] g[i]).distance is Some by {
            if i < p.filter(f).len() {
                assert(g[i] == p.filter(f)[i]);
            }
        }
        assert forall|i: int, j: int| 0 <= i < j < g.len() implies order32(
            (#[trigger] g[i]).distance->Some_0,
        ) <= order32((#[trigger] g[j]).distance->Some_0) by {
            assert(g[i] == p.filter(f)[i]);
            if j < p.filter(f).len() {
                assert(g[j] == p.filter(f)[j]);
            } else {
                assert(p.contains(p.filter(f)[i]));
                let k = choose|k: int| 0 <= k < p.len() && p[k] == p.filter(f)[i];
                assert(hs[k] == g[i] && hs[last] == g[j]);
            }
        }
    } else {
        assert(hs.filter(f) =~= hs);
    }
}

/// The hits that satisfy a predicate, where there is one, in order.
pub open spec fn satisfying(hs: Seq<Hit>, p: Option<Pred>, b: Bindings) -> Seq<Hit> {
    match p {
        Some(p) => hs.filter(|h: Hit| pred_holds(p, h.bag, b) == Ok::<bool, Failure>(true)),
        None => hs,
    }
}

/// What a search returns is filtered by the predicate as it is written.
pub proof fn law_hits_are_filtered(hs: Seq<Hit>, p: Option<Pred>, b: Bindings)
    requires
        p is Some ==> is_proper(p->Some_0),
    ensures
        ({
            let r = kept(hs, None, opt_normal(p), b);
            &&& r is Ok ==> r->Ok_0 == satisfying(hs, p, b)
            &&& r is Ok <==> p is Some ==> forall|i: int|
                0 <= i < hs.len() ==> pred_holds(p->Some_0, (#[trigger] hs[i]).bag, b) is Ok
        }),
    decreases hs.len(),
{
    reveal(Seq::filter);
    if hs.len() > 0 {
        let before = hs.drop_last();
        let last = hs.len() - 1;
        law_hits_are_filtered(before, p, b);
        if let Some(w) = p {
            law_normal_keeps_meaning(w, false, hs[last].bag, b);
            if kept(hs, None, opt_normal(p), b) is Ok {
                assert forall|i: int| 0 <= i < hs.len() implies pred_holds(
                    w,
                    (#[trigger] hs[i]).bag,
                    b,
                ) is Ok by {
                    if i < last {
                        assert(before[i] == hs[i]);
                    }
                }
            }
            if forall|i: int|
                0 <= i < hs.len() ==> pred_holds(w, (#[trigger] hs[i]).bag, b) is Ok {
                assert forall|i: int| 0 <= i < before.len() implies pred_holds(
                    w,
                    (#[trigger] before[i]).bag,
                    b,
                ) is Ok by {
                    assert(before[i] == hs[i]);
                }
                assert(pred_holds(w, hs[last].bag, b) is Ok);
            }
        } else {
            if let Ok(out) = kept(before, None, None, b) {
                assert(before.push(hs.last()) =~= hs);
            }
        }
    }
}

/// What plan A asks for.
proof fn lemma_plan_a_starts(
    bq: BoundQuery,
    limit: u64,
    query: Distance,
    vector: Seq<u32>,
    kind: PlanKind,
    table: Seq<char>,
    b: Bindings,
)
    requires
        bq.predicate is Some ==> kind == PlanKind::A,
        bq.limit == Some(limit),
        bq.ordering.len() > 0 && bq.ordering[0] == SortKey::Distance(query),
        count_name(bq.projection) is None,
        same_ignoring_case(bq.from_table, table),
        resolve_arg(b, query.param) == Ok::<Arg, Failure>(Arg::Vector(vector)),
    ensures
        ({
            let columns = expanded(bq.projection);
            let k = if 4 * limit <= usize::MAX {
                (4 * limit) as usize
            } else {
                usize::MAX
            };
            let wait = Wait::Hits {
                beyond: None,
                filter: bq.predicate,
                aim: Aim::Read(Reading { stages: seq![Phase::Limit(limit)], columns }),
            };
            planned_and_started(Logical::Query(bq), kind, b, table) == Ok::<Next, Failure>(
                Next::Ask(Want::Search { query: vector, k }, wait),
            )
        }),
{
    reveal_with_fuel(read_started, 3);
    assert(Seq::<Phase>::empty().push(Phase::Limit(limit)) =~= seq![Phase::Limit(limit)]);
}

/// What plan A does with the hits.
proof fn lemma_plan_a_ends(
    p: Option<Pred>,
    columns: Seq<Column>,
    limit: u64,
    b: Bindings,
    hs: Seq<Hit>,
)
    requires
        p is Some ==> is_proper(p->Some_0),
    ensures
        ({
            let wait = Wait::Hits {
                beyond: None,
                filter: opt_normal(p),
                aim: Aim::Read(Reading { stages: seq![Phase::Limit(limit)], columns }),
            };
            let r = resumed(wait, Answer::Hits(hs), b);
            let good = satisfying(hs, p, b);
            let top = if limit < good.len() {
                good.subrange(0, limit as int)
            } else {
                good
            };
            let judged = forall|i: int|
                0 <= i < hs.len() ==> pred_holds(p->Some_0, (#[trigger] hs[i]).bag, b) is Ok;
            &&& r is Ok <==> (p is Some ==> judged) && presentable(columns, top)
            &&& r is Ok ==> result_shows(r, columns, top)
            &&& r is Ok && near_to_far(hs) ==> near_to_far(top)
        }),
{
    let good = satisfying(hs, p, b);
    let top = if limit < good.len() {
        good.subrange(0, limit as int)
    } else {
        good
    };
    law_hits_are_filtered(hs, p, b);
    law_read(columns, good, limit, b);
    if near_to_far(hs) {
        if let Some(w) = p {
            lemma_filter_near_to_far(
                hs,
                |h: Hit| pred_holds(w, h.bag, b) == Ok::<bool, Failure>(true),
            );
        }
        assert(top =~= good.subrange(0, top.len() as int));
        lemma_top_near_to_far(good, top);
    }
}

/// A kNN query by plan A, from the statement to the result set; also every kNN
/// query without a predicate. The shard is asked for four times as many rows
/// as the limit says, or as many as can be counted. Of the hits it gives,
/// those that satisfy the predicate as it is written are kept, and the first
/// `n` of these are shown in the order it gave them: where they come from near
/// to far, so do the rows.
pub proof fn law_knn_by_plan_a(
    q: Query,
    bq: BoundQuery,
    limit: u64,
    query: Distance,
    vector: Seq<u32>,
    kind: PlanKind,
    table: Seq<char>,
    b: Bindings,
    hs: Seq<Hit>,
)
    requires
        q.predicate is Some ==> is_proper(q.predicate->Some_0) && kind == PlanKind::A,
        q.limit == Some(limit),
        q.order_by.len() > 0 && q.order_by[0] == Order::Distance(query, OrderDir::Asc),
        bound(Stmt::Select(q)) == Ok::<Logical, Failure>(Logical::Query(bq)),
        count_name(bq.projection) is None,
        same_ignoring_case(q.from_table, table),
        resolve_arg(b, query.param) == Ok::<Arg, Failure>(Arg::Vector(vector)),
    ensures
        ({
            let columns = expanded(bq.projection);
            let k = if 4 * limit <= usize::MAX {
                (4 * limit) as usize
            } else {
                usize::MAX
            };
            let filter = match q.predicate {
                Some(p) => Some(normal(p, false)),
                None => None,
            };
            let wait = Wait::Hits {
                beyond: None,
                filter,
                aim: Aim::Read(Reading { stages: seq![Phase::Limit(limit)], columns }),
            };
            let r = resumed(wait, Answer::Hits(hs), b);
            let good = satisfying(hs, q.predicate, b);
            let top = if limit < good.len() {
                good.subrange(0, limit as int)
            } else {
                good
            };
            let judged = forall|i: int|
                0 <= i < hs.len() ==> pred_holds(
                    q.predicate->Some_0,
                    (#[trigger] hs[i]).bag,
                    b,
                ) is Ok;
            &&& planned_and_started(Logical::Query(bq), kind, b, table) == Ok::<Next, Failure>(
                Next::Ask(Want::Search { query: vector, k }, wait),
            )
            &&& r is Ok <==> (q.predicate is Some ==> judged) && presentable(columns, top)
            &&& r is Ok ==> result_shows(r, columns, top)
            &&& r is Ok && near_to_far(hs) ==> forall|j: int|
                0 <= j < columns.len() && #[trigger] columns[j] is Distance ==> shows_ascending(
                    r,
                    j,
                )
        }),
{
    let columns = expanded(bq.projection);
    let filter = opt_normal(q.predicate);
    let wait = Wait::Hits {
        beyond: None,
        filter,
        aim: Aim::Read(Reading { stages: seq![Phase::Limit(limit)], columns }),
    };
    let r = resumed(wait, Answer::Hits(hs), b);
    let good = satisfying(hs, q.predicate, b);
    let top = if limit < good.len() {
        good.subrange(0, limit as int)
    } else {
        good
    };
    law_select_is_kept(q, Logical::Query(bq));
    assert(bq.ordering[0] == SortKey::Distance(query));
    assert(bq.predicate == filter);
    lemma_plan_a_starts(bq, limit, query, vector, kind, table, b);
    lemma_plan_a_ends(q.predicate, columns, limit, b, hs);
    if r is Ok && near_to_far(hs) {
        assert forall|j: int| 0 <= j < columns.len() && #[trigger]
            columns[j] is Distance implies shows_ascending(r, j) by {
            lemma_shows_ascending(r, columns, top, j);
        }
    }
}

// ----- Scans and exact distances -----

/// What a scan brings is filtered by the predicate as it is written, in the
/// order of the scan, and the first `n` rows that satisfy it are shown.
pub proof fn law_scan_result(
    p: Pred,
    columns: Seq<Column>,
    n: u64,
    scan: Seq<StoredRowModel>,
    b: Bindings,
)
    requires
        is_proper(p),
    ensures
        ({
            let aim = Aim::Read(Reading { stages: seq![Phase::Limit(n)], columns });
            let r = resumed(
                Wait::Scan { predicate: normal(p, false), aim },
                Answer::Rows(scan),
                b,
            );
            let hs = Seq::new(
                scan.len(),
                |i: int| Hit { id: scan[i].id, distance: None, bag: scan[i].bag },
            );
            let good = satisfying(hs, Some(p), b);
            r is Ok ==> result_shows(
                r,
                columns,
                if n < good.len() {
                    good.subrange(0, n as int)
                } else {
                    good
                },
            )
        }),
{
    let hs = Seq::new(
        scan.len(),
        |i: int| Hit { id: scan[i].id, distance: None, bag: scan[i].bag },
    );
    assert(unmeasured(scan) =~= hs);
    assert(opt_normal(Some(p)) == Some(normal(p, false)));
    law_hits_are_filtered(hs, Some(p), b);
    law_read(columns, satisfying(hs, Some(p), b), n, b);
}

/// Rows that are fetched by id carry the bags at their places, in order; those
/// that are gone are left out.
pub proof fn law_fetched_rows(ids: Seq<u64>, bags: Seq<Option<Bag>>)
    requires
        ids.len() == bags.len(),
    ensures
        present(ids, bags) == Seq::new(ids.len(), |i: int| (ids[i], bags[i])).filter(
            |r: (u64, Option<Bag>)| r.1 is Some,
        ).map_values(
            |r: (u64, Option<Bag>)| Hit { id: r.0, distance: None, bag: r.1->Some_0 },
        ),
{
    lemma_fetched_rows(ids, bags);
}

proof fn lemma_fetched_rows(ids: Seq<u64>, bags: Seq<Option<Bag>>)
    requires
        ids.len() <= bags.len(),
    ensures
        present(ids, bags) == Seq::new(ids.len(), |i: int| (ids[i], bags[i])).filter(
            |r: (u64, Option<Bag>)| r.1 is Some,
        ).map_values(
            |r: (u64, Option<Bag>)| Hit { id: r.0, distance: None, bag: r.1->Some_0 },
        ),
    decreases ids.len(),
{
    reveal(Seq::filter);
    let all = Seq::new(ids.len(), |i: int| (ids[i], bags[i]));
    let f = |r: (u64, Option<Bag>)| r.1 is Some;
    let g = |r: (u64, Option<Bag>)| Hit { id: r.0, distance: None, bag: r.1->Some_0 };
    if ids.len() > 0 {
        let p = ids.drop_last();
        lemma_fetched_rows(p, bags);
        assert(all.drop_last() =~= Seq::new(p.len(), |i: int| (p[i], bags[i])));
        let before = all.drop_last().filter(f);
        if f(all.last()) {
            assert(all.filter(f) =~= before.push(all.last()));
            assert(all.filter(f).map_values(g) =~= before.map_values(g).push(g(all.last())));
        }
    } else {
        assert(all.filter(f).map_values(g) =~= Seq::empty());
    }
}

/// What exact distances lead to, with `ds` the distances of the rows `hs`: the
/// `k` nearest are shown from near to far, under the limit, each with its own
/// distance, id and bag; no row that is left out is nearer than one that is
/// shown.
pub proof fn law_exact_distances(
    hs: Seq<Hit>,
    ds: Seq<u32>,
    k: usize,
    n: u64,
    columns: Seq<Column>,
    b: Bindings,
)
    requires
        ds.len() == hs.len(),
    ensures
        ({
            let r = resumed(
                Wait::Distances {
                    hits: hs,
                    k,
                    reading: Reading { stages: seq![Phase::Limit(n)], columns },
                },
                Answer::Distances(Seq::new(ds.len(), |i: int| Some(ds[i]))),
                b,
            );
            let all = Seq::new(
                hs.len(),
                |i: int| Hit { id: hs[i].id, distance: Some(ds[i]), bag: hs[i].bag },
            );
            r is Ok ==> exists|near: Seq<Hit>, far: Seq<Hit>|
                #![trigger near + far]
                {
                    &&& result_shows(r, columns, near)
                    &&& near_to_far(near)
                    &&& near.len() <= k && near.len() <= n
                    &&& far.len() == 0 || near.len() == k || near.len() == n
                    &&& (near + far).to_multiset() == all.to_multiset()
                    &&& forall|i: int, j: int|
                        0 <= i < near.len() && 0 <= j < far.len() ==> order32(
                            (#[trigger] near[i]).distance->Some_0,
                        ) <= order32((#[trigger] far[j]).distance->Some_0)
                }
        }),
{
    broadcast use vstd::seq_lib::group_to_multiset_ensures;

    let answer = Seq::new(ds.len(), |i: int| Some(ds[i]));
    let all = Seq::new(
        hs.len(),
        |i: int| Hit { id: hs[i].id, distance: Some(ds[i]), bag: hs[i].bag },
    );
    let reading = Reading { stages: seq![Phase::Limit(n)], columns };
    let r = resumed(
        Wait::Distances { hits: hs, k, reading },
        Answer::Distances(answer),
        b,
    );
    law_measured(hs, answer);
    let zipped = Seq::new(
        hs.len(),
        |i: int| Hit { id: hs[i].id, distance: answer[i], bag: hs[i].bag },
    );
    assert(zipped =~= all);
    lemma_filter_keeps_all(all, |h: Hit| h.distance is Some);
    assert(measured(hs, answer) == all);
    law_by_distance(all);
    let sorted = by_distance(all);
    assert forall|i: int| 0 <= i < sorted.len() implies (#[trigger] sorted[i]).distance is Some by {
        assert(sorted.to_multiset().count(sorted[i]) > 0);
        assert(all.to_multiset().count(sorted[i]) > 0);
        assert(all.contains(sorted[i]));
        let j = choose|j: int| 0 <= j < all.len() && all[j] == sorted[i];
        assert(all[j].distance is Some);
    }
    assert forall|i: int, j: int| 0 <= i < j < sorted.len() implies order32(
        (#[trigger] sorted[i]).distance->Some_0,
    ) <= order32((#[trigger] sorted[j]).distance->Some_0) by {
        assert(nearness(sorted[i]) <= nearness(sorted[j]));
    }
    assert(near_to_far(sorted));
    let top = first(sorted, k as int);
    law_read(columns, top, n, b);
    let near = if n < top.len() {
        top.subrange(0, n as int)
    } else {
        top
    };
    let far = sorted.skip(near.len() as int);
    assert(near =~= sorted.subrange(0, near.len() as int));
    lemma_top_near_to_far(sorted, near);
    assert(near + far =~= sorted);
    assert forall|i: int, j: int| 0 <= i < near.len() && 0 <= j < far.len() implies order32(
        (#[trigger] near[i]).distance->Some_0,
    ) <= order32((#[trigger] far[j]).distance->Some_0) by {
        assert(near[i] == sorted[i] && far[j] == sorted[near.len() + j]);
    }
    if r is Ok {
        assert(result_shows(r, columns, near));
    }
}

proof fn lemma_filter_keeps_all(hs: Seq<Hit>, f: spec_fn(Hit) -> bool)
    requires
        forall|i: int| 0 <= i < hs.len() ==> f(#[trigger] hs[i]),
    ensures
        hs.filter(f) == hs,
    decreases hs.len(),
{
    reveal(Seq::filter);
    if hs.len() > 0 {
        let p = hs.drop_last();
        assert forall|i: int| 0 <= i < p.len() implies f(#[trigger] p[i]) by {
            assert(p[i] == hs[i]);
        }
        lemma_filter_keeps_all(p, f);
        assert(f(hs[hs.len() - 1]));
        assert(p.push(hs.last()) =~= hs);
    } else {
        assert(hs.filter(f) =~= hs);
    }
}

} // verus!
