//! Picking rows out of what a shard returns: filters, balls, the nearest.

use crate::ast::views;
use crate::error::{Failure, KovaQueryError};
use crate::eval::{agrees, agrees_all, cond_holds, eval_predicate};
use crate::ieee::{at_least32, exec_at_least32, exec_order32, order32};
use crate::logical::{opt_cond, Cond, PredicateExpr};
use crate::params::{Bindings, ParamBindings};
use crate::rows::{Hit, InternalHit};
use crate::value::Metadata;
use vstd::prelude::*;

verus! {

// ----- Filters -----

/// Whether a row is kept: it is nearer than `beyond`, where there is such a
/// bound, and satisfies `filter`, where there is one.
pub open spec fn passes(h: Hit, beyond: Option<u32>, filter: Option<Cond>, b: Bindings) -> Result<
    bool,
    Failure,
> {
    if is_beyond(h, beyond) {
        Ok(false)
    } else {
        match filter {
            Some(c) => cond_holds(c, h.bag, b),
            None => Ok(true),
        }
    }
}

/// Whether a row is at the bound or farther.
pub open spec fn is_beyond(h: Hit, beyond: Option<u32>) -> bool {
    match (h.distance, beyond) {
        (Some(d), Some(bound)) => at_least32(d, bound),
        _ => false,
    }
}

/// The rows that are kept, in order, or the first error.
pub open spec fn kept(
    hs: Seq<Hit>,
    beyond: Option<u32>,
    filter: Option<Cond>,
    b: Bindings,
) -> Result<Seq<Hit>, Failure>
    decreases hs.len(),
{
    if hs.len() == 0 {
        Ok(Seq::empty())
    } else {
        match (kept(hs.drop_last(), beyond, filter, b), passes(hs.last(), beyond, filter, b)) {
            (Err(e), _) => Err(e),
            (Ok(_), Err(e)) => Err(e),
            (Ok(before), Ok(true)) => Ok(before.push(hs.last())),
            (Ok(before), Ok(false)) => Ok(before),
        }
    }
}

proof fn lemma_kept_fail(
    hs: Seq<Hit>,
    beyond: Option<u32>,
    filter: Option<Cond>,
    b: Bindings,
    i: int,
)
    requires
        0 <= i <= hs.len(),
        kept(hs.take(i), beyond, filter, b) is Err,
    ensures
        kept(hs, beyond, filter, b) == kept(hs.take(i), beyond, filter, b),
    decreases hs.len() - i,
{
    if i == hs.len() {
        assert(hs.take(i) =~= hs);
    } else {
        assert(hs.take(i + 1).drop_last() =~= hs.take(i));
        lemma_kept_fail(hs, beyond, filter, b, i + 1);
    }
}

/// Whether a row is kept.
pub fn hit_passes(
    h: &InternalHit,
    beyond: Option<u32>,
    filter: &Option<PredicateExpr>,
    params: &ParamBindings,
) -> (r: Result<bool, KovaQueryError>)
    ensures
        agrees(r, passes(h@, beyond, opt_cond(*filter), params@)),
{
    if let Some(bound) = beyond {
        if let Some(d) = h.distance {
            if exec_at_least32(d, bound) {
                return Ok(false);
            }
        }
    }
    match filter {
        Some(pred) => eval_predicate(pred, &h.metadata, params),
        None => Ok(true),
    }
}

/// Keeps the rows that are nearer than `beyond` and satisfy `filter`, in
/// order. The first row whose evaluation fails fails the whole.
pub fn keep_hits(
    hits: Vec<InternalHit>,
    beyond: Option<u32>,
    filter: &Option<PredicateExpr>,
    params: &ParamBindings,
) -> (r: Result<Vec<InternalHit>, KovaQueryError>)
    ensures
        agrees_all(r, kept(views(hits@), beyond, opt_cond(*filter), params@)),
{
    let ghost all = hits@;
    let ghost hs = views(hits@);
    let ghost c = opt_cond(*filter);
    let mut out: Vec<InternalHit> = Vec::new();
    assert(views(out@) =~= Seq::empty());
    assert(hs.take(0) =~= Seq::empty());
    for h in iter: hits.into_iter()
        invariant
            iter.seq() == all,
            hs == views(all),
            c == opt_cond(*filter),
            kept(hs.take(iter.index() as int), beyond, c, params@) == Ok::<Seq<Hit>, Failure>(
                views(out@),
            ),
    {
        let ghost i = iter.index() as int;
        proof {
            assert(hs.take(i + 1).drop_last() =~= hs.take(i));
            assert(hs.take(i + 1).last() == h@);
        }
        match hit_passes(&h, beyond, filter, params) {
            Ok(true) => {
                let ghost before = out@;
                out.push(h);
                assert(views(out@) =~= views(before).push(h@));
            },
            Ok(false) => {},
            Err(e) => {
                proof {
                    lemma_kept_fail(hs, beyond, c, params@, i + 1);
                }
                return Err(e);
            },
        }
    }
    assert(hs.take(hs.len() as int) =~= hs);
    Ok(out)
}

/// What is kept passes, and what passes is kept, in order.
pub proof fn law_kept(
    hs: Seq<Hit>,
    beyond: Option<u32>,
    filter: Option<Cond>,
    b: Bindings,
    out: Seq<Hit>,
)
    requires
        kept(hs, beyond, filter, b) == Ok::<Seq<Hit>, Failure>(out),
    ensures
        out == hs.filter(|h: Hit| passes(h, beyond, filter, b) == Ok::<bool, Failure>(true)),
    decreases hs.len(),
{
    reveal(Seq::filter);
    if hs.len() > 0 {
        law_kept(
            hs.drop_last(),
            beyond,
            filter,
            b,
            kept(hs.drop_last(), beyond, filter, b)->Ok_0,
        );
    }
}

// ----- The nearest -----

/// What rows are ordered by.
pub open spec fn nearness(h: Hit) -> int {
    match h.distance {
        Some(d) => order32(d),
        None => 0,
    }
}

/// `hs` with `h` after everything that is as near.
pub open spec fn inserted(hs: Seq<Hit>, h: Hit) -> Seq<Hit>
    decreases hs.len(),
{
    if hs.len() == 0 || nearness(hs.last()) <= nearness(h) {
        hs.push(h)
    } else {
        inserted(hs.drop_last(), h).push(hs.last())
    }
}

/// The rows from near to far; what is equally near stays in order.
pub open spec fn by_distance(hs: Seq<Hit>) -> Seq<Hit>
    decreases hs.len(),
{
    if hs.len() == 0 {
        hs
    } else {
        inserted(by_distance(hs.drop_last()), hs.last())
    }
}

/// The first `k` rows, or all if there are fewer.
pub open spec fn first(hs: Seq<Hit>, k: int) -> Seq<Hit> {
    if k < hs.len() {
        hs.take(k)
    } else {
        hs
    }
}

/// The rows with the distances measured for them. A row for which there is
/// none is gone.
pub open spec fn measured(hs: Seq<Hit>, ds: Seq<Option<u32>>) -> Seq<Hit>
    decreases hs.len(),
{
    if hs.len() == 0 {
        Seq::empty()
    } else {
        let before = measured(hs.drop_last(), ds);
        let h = hs.last();
        match ds[hs.len() - 1] {
            Some(d) => before.push(Hit { id: h.id, distance: Some(d), bag: h.bag }),
            None => before,
        }
    }
}

pub open spec fn ascending(hs: Seq<Hit>) -> bool {
    forall|i: int, j: int|
        0 <= i < j < hs.len() ==> nearness(#[trigger] hs[i]) <= nearness(#[trigger] hs[j])
}

proof fn lemma_inserted(hs: Seq<Hit>, h: Hit)
    requires
        ascending(hs),
    ensures
        ascending(inserted(hs, h)),
        inserted(hs, h).len() == hs.len() + 1,
        inserted(hs, h).to_multiset() == hs.push(h).to_multiset(),
        forall|i: int|
            0 <= i <= hs.len() ==> nearness(#[trigger] inserted(hs, h)[i]) <= nearness(h)
                || hs.len() > 0 && nearness(inserted(hs, h)[i]) <= nearness(hs.last()),
    decreases hs.len(),
{
    broadcast use vstd::seq_lib::group_to_multiset_ensures;

    if hs.len() == 0 || nearness(hs.last()) <= nearness(h) {
        assert forall|i: int, j: int| 0 <= i < j < hs.push(h).len() implies nearness(
            #[trigger] hs.push(h)[i],
        ) <= nearness(#[trigger] hs.push(h)[j]) by {
            if j == hs.len() && i < hs.len() - 1 {
                assert(nearness(hs[i]) <= nearness(hs[hs.len() - 1]));
            }
        }
        assert forall|i: int| 0 <= i <= hs.len() implies nearness(#[trigger] hs.push(h)[i])
            <= nearness(h) by {
            if i < hs.len() - 1 {
                assert(nearness(hs[i]) <= nearness(hs[hs.len() - 1]));
            }
        }
    } else {
        let p = hs.drop_last();
        assert(ascending(p));
        lemma_inserted(p, h);
        let q = inserted(p, h);
        let r = q.push(hs.last());
        assert forall|i: int| 0 <= i < q.len() implies nearness(#[trigger] q[i]) <= nearness(
            hs.last(),
        ) by {
            if p.len() > 0 {
                assert(nearness(hs[p.len() - 1]) <= nearness(hs[hs.len() - 1]));
            }
        }
        assert forall|i: int, j: int| 0 <= i < j < r.len() implies nearness(#[trigger] r[i])
            <= nearness(#[trigger] r[j]) by {
            if j < q.len() {
                assert(r[i] == q[i] && r[j] == q[j]);
            } else {
                assert(r[i] == q[i]);
            }
        }
        assert(hs =~= p.push(hs.last()));
        assert(r.to_multiset() == q.to_multiset().insert(hs.last()));
        assert(hs.push(h).to_multiset() == p.to_multiset().insert(hs.last()).insert(h));
        assert(p.push(h).to_multiset() == p.to_multiset().insert(h));
        assert(p.to_multiset().insert(h).insert(hs.last()) =~= p.to_multiset().insert(
            hs.last(),
        ).insert(h));
    }
}

/// Rows in order of distance are the same rows, from near to far.
pub proof fn law_by_distance(hs: Seq<Hit>)
    ensures
        ascending(by_distance(hs)),
        by_distance(hs).len() == hs.len(),
        by_distance(hs).to_multiset() == hs.to_multiset(),
    decreases hs.len(),
{
    broadcast use vstd::seq_lib::group_to_multiset_ensures;

    if hs.len() > 0 {
        let p = hs.drop_last();
        law_by_distance(p);
        lemma_inserted(by_distance(p), hs.last());
        assert(hs =~= p.push(hs.last()));
        assert(by_distance(p).push(hs.last()).to_multiset() == p.push(hs.last()).to_multiset());
    }
}

/// Rows that are equally near stay in the order they came in.
pub proof fn law_by_distance_is_stable(hs: Seq<Hit>, x: int)
    ensures
        by_distance(hs).filter(|h: Hit| nearness(h) == x) == hs.filter(|h: Hit| nearness(h) == x),
    decreases hs.len(),
{
    reveal(Seq::filter);
    if hs.len() > 0 {
        let p = hs.drop_last();
        law_by_distance_is_stable(p, x);
        law_by_distance(p);
        lemma_inserted_filter(by_distance(p), hs.last(), x);
    }
}

proof fn lemma_inserted_filter(hs: Seq<Hit>, h: Hit, x: int)
    requires
        ascending(hs),
    ensures
        inserted(hs, h).filter(|g: Hit| nearness(g) == x) == if nearness(h) == x {
            hs.filter(|g: Hit| nearness(g) == x).push(h)
        } else {
            hs.filter(|g: Hit| nearness(g) == x)
        },
    decreases hs.len(),
{
    reveal(Seq::filter);
    let f = |g: Hit| nearness(g) == x;
    if hs.len() == 0 || nearness(hs.last()) <= nearness(h) {
        assert(hs.push(h).drop_last() =~= hs);
    } else {
        let p = hs.drop_last();
        assert(ascending(p));
        lemma_inserted_filter(p, h, x);
        let q = inserted(p, h);
        assert(q.push(hs.last()).drop_last() =~= q);
        if nearness(h) == x {
            assert(nearness(hs.last()) != x);
        }
    }
}

/// Only the first `k` rows so far matter for the first `k` rows.
proof fn lemma_first_inserted(hs: Seq<Hit>, h: Hit, k: int)
    requires
        ascending(hs),
        k >= 0,
    ensures
        first(inserted(first(hs, k), h), k) == first(inserted(hs, h), k),
    decreases hs.len(),
{
    if k < hs.len() {
        lemma_inserted(hs, h);
        let p = hs.drop_last();
        assert(ascending(p));
        let top = hs.take(k);
        assert(first(p, k) =~= top);
        if nearness(hs.last()) <= nearness(h) {
            assert(k > 0 ==> nearness(top.last()) <= nearness(h)) by {
                if k > 0 {
                    assert(nearness(hs[k - 1]) <= nearness(hs[hs.len() - 1]));
                }
            }
            assert(first(inserted(top, h), k) =~= top);
            assert(first(hs.push(h), k) =~= top);
        } else {
            lemma_first_inserted(p, h, k);
            lemma_inserted(p, h);
            assert(first(inserted(hs, h), k) =~= first(inserted(p, h), k));
        }
    }
}

/// The first `k` rows in order of distance are the `k` nearest: there are as
/// many as there can be, they are among the rows, and no row that is left out
/// is nearer than one of them.
pub proof fn law_first_are_nearest(hs: Seq<Hit>, k: nat)
    ensures
        ({
            let all = by_distance(hs);
            let near = first(all, k as int);
            let far = all.skip(near.len() as int);
            &&& near.len() == if k < hs.len() {
                k
            } else {
                hs.len()
            }
            &&& ascending(near)
            &&& (near + far).to_multiset() == hs.to_multiset()
            &&& forall|i: int, j: int|
                0 <= i < near.len() && 0 <= j < far.len() ==> nearness(#[trigger] near[i])
                    <= nearness(#[trigger] far[j])
        }),
{
    law_by_distance(hs);
    let all = by_distance(hs);
    let near = first(all, k as int);
    let far = all.skip(near.len() as int);
    assert(near + far =~= all);
    assert forall|i: int, j: int| 0 <= i < j < near.len() implies nearness(#[trigger] near[i])
        <= nearness(#[trigger] near[j]) by {
        assert(near[i] == all[i] && near[j] == all[j]);
    }
    assert forall|i: int, j: int| 0 <= i < near.len() && 0 <= j < far.len() implies nearness(
        #[trigger] near[i],
    ) <= nearness(#[trigger] far[j]) by {
        assert(near[i] == all[i] && far[j] == all[near.len() + j]);
    }
}

fn exec_nearness(h: &InternalHit) -> (r: i64)
    ensures
        r == nearness(h@),
{
    match h.distance {
        Some(d) => exec_order32(d),
        None => 0,
    }
}

/// Puts `h` after everything that is as near.
fn insert_hit(hits: &mut Vec<InternalHit>, h: InternalHit)
    ensures
        views(final(hits)@) == inserted(views(old(hits)@), h@),
{
    let ghost all = views(hits@);
    let key: i64 = exec_nearness(&h);
    let mut p: usize = hits.len();
    proof {
        assert(all.take(all.len() as int) =~= all);
        assert(all.skip(all.len() as int) =~= Seq::empty());
        assert(inserted(all, h@) =~= inserted(all.take(p as int), h@) + all.skip(p as int));
    }
    while p > 0 && exec_nearness(&hits[p - 1]) > key
        invariant
            p <= hits.len(),
            hits@ == old(hits)@,
            all == views(hits@),
            key == nearness(h@),
            inserted(all, h@) == inserted(all.take(p as int), h@) + all.skip(p as int),
        decreases p,
    {
        proof {
            let s = all.take(p as int);
            assert(s.last() == hits@[p - 1]@);
            assert(s.drop_last() =~= all.take(p - 1));
            assert(inserted(all.take(p - 1), h@).push(s.last()) + all.skip(p as int) =~= inserted(
                all.take(p - 1),
                h@,
            ) + all.skip(p - 1));
        }
        p = p - 1;
    }
    proof {
        if p > 0 {
            assert(all.take(p as int).last() == hits@[p - 1]@);
        }
        assert(inserted(all.take(p as int), h@) == all.take(p as int).push(h@));
    }
    hits.insert(p, h);
    assert(views(hits@) =~= inserted(all, h@));
}

/// Scores rows with the distances measured for them, drops those for which
/// there is none, and keeps the `k` nearest, from near to far.
pub fn nearest_hits(hits: Vec<InternalHit>, distances: &Vec<Option<u32>>, k: usize) -> (r: Vec<
    InternalHit,
>)
    requires
        distances.len() == hits.len(),
    ensures
        views(r@) == first(by_distance(measured(views(hits@), distances@)), k as int),
{
    let ghost all = hits@;
    let ghost hs = views(hits@);
    let mut out: Vec<InternalHit> = Vec::new();
    let mut i: usize = 0;
    assert(hs.take(0) =~= Seq::empty());
    assert(views(out@) =~= Seq::empty());
    for h in iter: hits.into_iter()
        invariant
            iter.seq() == all,
            hs == views(all),
            i == iter.index(),
            distances.len() == all.len(),
            views(out@) == first(
                by_distance(measured(hs.take(i as int), distances@)),
                k as int,
            ),
    {
        proof {
            assert(hs.take(i + 1).drop_last() =~= hs.take(i as int));
            assert(hs.take(i + 1).last() == h@);
        }
        let ghost before = measured(hs.take(i as int), distances@);
        match distances[i] {
            Some(d) => {
                let scored: InternalHit = InternalHit {
                    id: h.id,
                    distance: Some(d),
                    metadata: h.metadata,
                };
                proof {
                    assert(measured(hs.take(i + 1), distances@) == before.push(scored@));
                    assert(before.push(scored@).drop_last() =~= before);
                    law_by_distance(before);
                    lemma_first_inserted(by_distance(before), scored@, k as int);
                }
                insert_hit(&mut out, scored);
                if out.len() > k {
                    let ghost full = out@;
                    out.truncate(k);
                    assert(views(out@) =~= views(full).take(k as int));
                }
            },
            None => {},
        }
        i = i + 1;
    }
    assert(hs.take(hs.len() as int) =~= hs);
    out
}

// ----- Predicates inside a graph walk -----

/// A predicate that a graph walk consults on the rows it visits. The first
/// error is kept, and from then on no row passes.
#[derive(Debug)]
pub struct FilterProbe {
    /// The first error.
    pub error: Option<KovaQueryError>,
}

impl FilterProbe {
    /// A probe without an error.
    pub fn new() -> (r: FilterProbe)
        ensures
            r.error is None,
    {
        FilterProbe { error: None }
    }

    /// Whether the walk may return the row.
    pub fn check(&mut self, filter: &PredicateExpr, meta: &Metadata, params: &ParamBindings) -> (r:
        bool)
        ensures
            old(self).error is Some ==> !r && *final(self) == *old(self),
            old(self).error is None ==> match cond_holds(filter@, meta@, params@) {
                Ok(v) => r == v && final(self).error is None,
                Err(e) => !r && final(self).error is Some && final(self).error->Some_0@ == e,
            },
    {
        if self.error.is_some() {
            return false;
        }
        match eval_predicate(filter, meta, params) {
            Ok(v) => v,
            Err(e) => {
                self.error = Some(e);
                false
            },
        }
    }
}

/// Each row gets the distance at its place in the list, and keeps its id and
/// its bag; the rows for which there is none are left out, and the others stay
/// in order.
pub proof fn law_measured(hs: Seq<Hit>, ds: Seq<Option<u32>>)
    requires
        hs.len() <= ds.len(),
    ensures
        measured(hs, ds) == Seq::new(
            hs.len(),
            |i: int| Hit { id: hs[i].id, distance: ds[i], bag: hs[i].bag },
        ).filter(|h: Hit| h.distance is Some),
    decreases hs.len(),
{
    reveal(Seq::filter);
    let all = Seq::new(
        hs.len(),
        |i: int| Hit { id: hs[i].id, distance: ds[i], bag: hs[i].bag },
    );
    if hs.len() > 0 {
        let p = hs.drop_last();
        law_measured(p, ds);
        assert(all.drop_last() =~= Seq::new(
            p.len(),
            |i: int| Hit { id: p[i].id, distance: ds[i], bag: p[i].bag },
        ));
    }
}

/// Rows are ordered by their distance, as a number. The rows that are kept are
/// those nearer than the bound, where there is one, that satisfy the filter,
/// where there is one; a row without a distance is within every bound, and so
/// is one where the distance or the bound is NaN.
pub proof fn law_passing(h: Hit, bound: u32, c: Cond, b: Bindings)
    ensures
        h.distance is Some ==> nearness(h) == order32(h.distance->Some_0),
        passes(h, None, None, b) == Ok::<bool, Failure>(true),
        passes(h, None, Some(c), b) == cond_holds(c, h.bag, b),
        h.distance is None ==> passes(h, Some(bound), Some(c), b) == cond_holds(c, h.bag, b)
            && passes(h, Some(bound), None, b) == Ok::<bool, Failure>(true),
        h.distance is Some && h.distance->Some_0 % 0x8000_0000 <= 0x7f80_0000 && bound % 0x8000_0000
            <= 0x7f80_0000 ==> {
            let nearer = order32(h.distance->Some_0) < order32(bound);
            &&& passes(h, Some(bound), None, b) == Ok::<bool, Failure>(nearer)
            &&& nearer ==> passes(h, Some(bound), Some(c), b) == cond_holds(c, h.bag, b)
            &&& !nearer ==> passes(h, Some(bound), Some(c), b) == Ok::<bool, Failure>(false)
        },
        h.distance is Some && (h.distance->Some_0 % 0x8000_0000 > 0x7f80_0000 || bound % 0x8000_0000
            > 0x7f80_0000) ==> passes(h, Some(bound), None, b) == Ok::<bool, Failure>(true)
            && passes(h, Some(bound), Some(c), b) == cond_holds(c, h.bag, b),
{
}

/// Sifting fails exactly where one of the rows has no verdict, with the error
/// of the first such row.
pub proof fn law_sifting_fails(
    hs: Seq<Hit>,
    beyond: Option<u32>,
    filter: Option<Cond>,
    b: Bindings,
    e: Failure,
)
    ensures
        kept(hs, beyond, filter, b) == Err::<Seq<Hit>, Failure>(e) <==> exists|i: int|
            0 <= i < hs.len() && #[trigger] passes(hs[i], beyond, filter, b) == Err::<
                bool,
                Failure,
            >(e) && forall|j: int|
                0 <= j < i ==> #[trigger] passes(hs[j], beyond, filter, b) is Ok,
    decreases hs.len(),
{
    if hs.len() > 0 {
        let p = hs.drop_last();
        let last = hs.len() - 1;
        law_sifting_fails(p, beyond, filter, b, e);
        lemma_kept_is_total(p, beyond, filter, b);
        let r = kept(p, beyond, filter, b);
        if kept(hs, beyond, filter, b) == Err::<Seq<Hit>, Failure>(e) {
            if r is Err {
                let i = choose|i: int|
                    0 <= i < p.len() && #[trigger] passes(p[i], beyond, filter, b) == Err::<
                        bool,
                        Failure,
                    >(e) && forall|j: int|
                        0 <= j < i ==> #[trigger] passes(p[j], beyond, filter, b) is Ok;
                assert(passes(hs[i], beyond, filter, b) == Err::<bool, Failure>(e));
                assert forall|j: int| 0 <= j < i implies #[trigger] passes(
                    hs[j],
                    beyond,
                    filter,
                    b,
                ) is Ok by {
                    assert(passes(p[j], beyond, filter, b) is Ok);
                }
            } else {
                assert(passes(hs[last], beyond, filter, b) == Err::<bool, Failure>(e));
                assert forall|j: int| 0 <= j < last implies #[trigger] passes(
                    hs[j],
                    beyond,
                    filter,
                    b,
                ) is Ok by {
                    assert(passes(p[j], beyond, filter, b) is Ok);
                }
            }
        }
        if exists|i: int|
            0 <= i < hs.len() && #[trigger] passes(hs[i], beyond, filter, b) == Err::<
                bool,
                Failure,
            >(e) && forall|j: int|
                0 <= j < i ==> #[trigger] passes(hs[j], beyond, filter, b) is Ok {
            let i = choose|i: int|
                0 <= i < hs.len() && #[trigger] passes(hs[i], beyond, filter, b) == Err::<
                    bool,
                    Failure,
                >(e) && forall|j: int|
                    0 <= j < i ==> #[trigger] passes(hs[j], beyond, filter, b) is Ok;
            if i < last {
                assert(passes(p[i], beyond, filter, b) == Err::<bool, Failure>(e));
                assert forall|j: int| 0 <= j < i implies #[trigger] passes(
                    p[j],
                    beyond,
                    filter,
                    b,
                ) is Ok by {
                    assert(passes(hs[j], beyond, filter, b) is Ok);
                }
            } else {
                assert forall|j: int| 0 <= j < last implies #[trigger] passes(
                    p[j],
                    beyond,
                    filter,
                    b,
                ) is Ok by {
                    assert(passes(hs[j], beyond, filter, b) is Ok);
                }
            }
        }
    }
}

proof fn lemma_kept_is_total(
    hs: Seq<Hit>,
    beyond: Option<u32>,
    filter: Option<Cond>,
    b: Bindings,
)
    ensures
        kept(hs, beyond, filter, b) is Ok <==> forall|i: int|
            0 <= i < hs.len() ==> #[trigger] passes(hs[i], beyond, filter, b) is Ok,
    decreases hs.len(),
{
    if hs.len() > 0 {
        let p = hs.drop_last();
        let last = hs.len() - 1;
        lemma_kept_is_total(p, beyond, filter, b);
        if kept(hs, beyond, filter, b) is Ok {
            assert forall|i: int| 0 <= i < hs.len() implies #[trigger] passes(
                hs[i],
                beyond,
                filter,
                b,
            ) is Ok by {
                if i < last {
                    assert(passes(p[i], beyond, filter, b) is Ok);
                }
            }
        }
        if forall|i: int|
            0 <= i < hs.len() ==> #[trigger] passes(hs[i], beyond, filter, b) is Ok {
            assert forall|i: int| 0 <= i < p.len() implies #[trigger] passes(
                p[i],
                beyond,
                filter,
                b,
            ) is Ok by {
                assert(passes(hs[i], beyond, filter, b) is Ok);
            }
            assert(passes(hs[last], beyond, filter, b) is Ok);
        }
    }
}

} // verus!
