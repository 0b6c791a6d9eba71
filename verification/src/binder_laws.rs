//! What binding keeps of a `SELECT`.

use crate::ast::OrderDir;
use crate::binder::{bound, bound_keys, normal, plain_column, plain_columns};
use crate::error::Failure;
use crate::keyword::same_ignoring_case;
use crate::logical::{Column, Logical, SortKey};
use crate::syntax::{Order, Proj, Query, Stmt};
use vstd::prelude::*;

verus! {

/// Whether a column is what an item of a projection asks for. The names `id`
/// and `metadata` stand for the row's own id and bag, in any case.
pub open spec fn is_column(p: Proj, alias: Option<Seq<char>>, c: Column) -> bool {
    match p {
        Proj::Wildcard => alias is None && c == Column::Wildcard,
        Proj::CountStar => c == Column::CountStar(alias),
        Proj::Id => c == Column::Id(alias),
        Proj::Metadata => c == Column::Metadata(alias),
        Proj::DistanceExpr(d) => alias is Some && c == Column::Distance(d, alias->Some_0),
        Proj::Field(name) => {
            if same_ignoring_case(name, "id"@) {
                c == Column::Id(alias)
            } else if same_ignoring_case(name, "metadata"@) {
                c == Column::Metadata(alias)
            } else {
                c == Column::Field(name, alias)
            }
        },
        Proj::Aliased(_, _) => false,
    }
}

/// Whether a column is what an item of a projection asks for, under its alias
/// where it has one.
pub open spec fn answers_item(p: Proj, c: Column) -> bool {
    match p {
        Proj::Aliased(inner, a) => is_column(*inner, Some(a), c),
        _ => is_column(p, None, c),
    }
}

/// Whether an item can be projected: a distance only under an alias, and an
/// alias only on a single column.
pub open spec fn can_project(p: Proj) -> bool {
    match p {
        Proj::DistanceExpr(_) => false,
        Proj::Aliased(inner, _) => !(*inner is Wildcard) && !(*inner is Aliased),
        _ => true,
    }
}

proof fn lemma_columns_answer(ps: Seq<Proj>)
    ensures
        plain_columns(ps) is Ok <==> forall|i: int| 0 <= i < ps.len() ==> can_project(#[trigger] ps[i]),
        plain_columns(ps) matches Ok(cs) ==> cs.len() == ps.len() && forall|i: int|
            0 <= i < ps.len() ==> answers_item(ps[i], #[trigger] cs[i]),
    decreases ps.len(),
{
    if ps.len() > 0 {
        let before = ps.drop_last();
        lemma_columns_answer(before);
        let last = ps.len() - 1;
        assert(plain_column(ps[last]) is Ok <==> can_project(ps[last]));
        if plain_columns(ps) is Ok {
            assert forall|i: int| 0 <= i < ps.len() implies can_project(#[trigger] ps[i]) by {
                if i < last {
                    assert(before[i] == ps[i]);
                }
            }
            let cs = plain_columns(ps)->Ok_0;
            let ds = plain_columns(before)->Ok_0;
            assert forall|i: int| 0 <= i < ps.len() implies answers_item(ps[i], #[trigger] cs[i]) by {
                if i < last {
                    assert(cs[i] == ds[i]);
                    assert(before[i] == ps[i]);
                }
            }
        }
        if forall|i: int| 0 <= i < ps.len() ==> can_project(#[trigger] ps[i]) {
            assert forall|i: int| 0 <= i < before.len() implies can_project(
                #[trigger] before[i],
            ) by {
                assert(before[i] == ps[i]);
            }
            assert(can_project(ps[last]));
        }
    }
}

proof fn lemma_keys_answer(os: Seq<Order>)
    ensures
        bound_keys(os) is Ok <==> forall|i: int|
            0 <= i < os.len() ==> !(#[trigger] os[i] is Distance && os[i]->Distance_1
                == OrderDir::Desc),
        bound_keys(os) matches Ok(ks) ==> ks.len() == os.len() && forall|i: int|
            0 <= i < os.len() ==> match os[i] {
                Order::Distance(d, _) => #[trigger] ks[i] == SortKey::Distance(d),
                Order::Field(name, dir) => ks[i] == SortKey::Field(name, dir),
            },
    decreases os.len(),
{
    if os.len() > 0 {
        let before = os.drop_last();
        lemma_keys_answer(before);
        let last = os.len() - 1;
        if bound_keys(os) is Ok {
            assert forall|i: int| 0 <= i < os.len() implies !(#[trigger] os[i] is Distance
                && os[i]->Distance_1 == OrderDir::Desc) by {
                if i < last {
                    assert(before[i] == os[i]);
                }
            }
            let ks = bound_keys(os)->Ok_0;
            let js = bound_keys(before)->Ok_0;
            assert forall|i: int| 0 <= i < os.len() implies match os[i] {
                Order::Distance(d, _) => #[trigger] ks[i] == SortKey::Distance(d),
                Order::Field(name, dir) => ks[i] == SortKey::Field(name, dir),
            } by {
                if i < last {
                    assert(ks[i] == js[i]);
                    assert(before[i] == os[i]);
                }
            }
        }
        if forall|i: int|
            0 <= i < os.len() ==> !(#[trigger] os[i] is Distance && os[i]->Distance_1
                == OrderDir::Desc) {
            assert forall|i: int| 0 <= i < before.len() implies !(#[trigger] before[i] is Distance
                && before[i]->Distance_1 == OrderDir::Desc) by {
                assert(before[i] == os[i]);
            }
            assert(!(os[last] is Distance && os[last]->Distance_1 == OrderDir::Desc));
        }
    }
}

/// A bound `SELECT` keeps the table, the limit, the columns and the keys of
/// the statement, one for one and in order, and the normal form of its
/// predicate.
pub proof fn law_select_is_kept(q: Query, l: Logical)
    requires
        bound(Stmt::Select(q)) == Ok::<Logical, Failure>(l),
    ensures
        l is Query,
        ({
            let r = l->Query_0;
            &&& r.from_table == q.from_table
            &&& r.limit == q.limit
            &&& r.predicate is Some <==> q.predicate is Some
            &&& q.predicate is Some ==> r.predicate->Some_0 == normal(q.predicate->Some_0, false)
            &&& r.projection.len() == q.projection.len()
            &&& forall|i: int|
                0 <= i < q.projection.len() ==> answers_item(
                    q.projection[i],
                    #[trigger] r.projection[i],
                )
            &&& r.ordering.len() == q.order_by.len()
            &&& forall|i: int|
                0 <= i < q.order_by.len() ==> match q.order_by[i] {
                    Order::Distance(d, _) => #[trigger] r.ordering[i] == SortKey::Distance(d),
                    Order::Field(name, dir) => r.ordering[i] == SortKey::Field(name, dir),
                }
        }),
{
    lemma_columns_answer(q.projection);
    lemma_keys_answer(q.order_by);
}

/// A `SELECT` is bound exactly where every item can be projected, a wildcard
/// stands alone, no distance is ordered descending, and an order by distance
/// has a limit.
pub proof fn law_select_is_bound(q: Query)
    ensures
        bound(Stmt::Select(q)) is Ok <==> {
            &&& forall|i: int|
                0 <= i < q.projection.len() ==> can_project(#[trigger] q.projection[i])
            &&& q.projection.contains(Proj::Wildcard) ==> q.projection.len() == 1
            &&& forall|i: int|
                0 <= i < q.order_by.len() ==> !(#[trigger] q.order_by[i] is Distance
                    && q.order_by[i]->Distance_1 == OrderDir::Desc)
            &&& (exists|i: int| 0 <= i < q.order_by.len() && #[trigger] q.order_by[i] is Distance)
                ==> q.limit is Some
        },
{
    lemma_columns_answer(q.projection);
    lemma_keys_answer(q.order_by);
    if let Ok(ks) = bound_keys(q.order_by) {
        assert forall|i: int| 0 <= i < ks.len() implies (#[trigger] ks[i] is Distance
            <==> q.order_by[i] is Distance) by {}
        if exists|i: int| 0 <= i < q.order_by.len() && #[trigger] q.order_by[i] is Distance {
            let i = choose|i: int| 0 <= i < q.order_by.len() && #[trigger] q.order_by[i] is Distance;
            assert(ks[i] is Distance);
        }
    }
}

} // verus!
