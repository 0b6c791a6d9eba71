//! Choosing between the three ways to answer a filtered kNN query.
//!
//! - **Plan A**: overfetched kNN, then a post-filter. It returns what
//!   survives, without a second try.
//! - **Plan B**: scan the metadata, then exact distances on the matches.
//! - **Plan C**: a graph walk that consults the predicate as it goes.
//!
//! A cost is an estimate in nanoseconds, as the bit pattern of a 64-bit
//! floating-point value.

use crate::ieee::{exec_is_nan64, exec_order64, is_nan64, order64};
use vstd::prelude::*;

verus! {

/// How many candidates plan A fetches for each row that the query asks for,
/// so that the post-filter has headroom to drop some.
pub const KNN_OVERFETCH: usize = 4;

/// Plan dispatched by the cost model.
#[derive(Debug, Clone, Copy, PartialEq, Eq, Structural)]
pub enum PlanKind {
    /// Plan A: overfetched kNN + post-filter.
    A,
    /// Plan B: metadata scan + exact distance.
    B,
    /// Plan C: filtered graph walk.
    C,
}

/// Workload context that the choice depends on.
#[derive(Debug, Clone, Copy)]
pub struct Workload {
    /// Rows that satisfy the predicate.
    pub matches: usize,
    /// Result limit (the query's LIMIT).
    pub user_k: usize,
    /// Total live rows in the shard.
    pub total_rows: usize,
    /// Vector dimension.
    pub dim: usize,
}

/// What each plan is estimated to cost.
#[derive(Debug, Clone, Copy)]
pub struct PlanCosts {
    /// Plan A.
    pub a: u64,
    /// Plan B.
    pub b: u64,
    /// Plan C.
    pub c: u64,
}

/// Whether `x <= y`. NaN compares with nothing.
pub open spec fn at_most64(x: u64, y: u64) -> bool {
    !is_nan64(x) && !is_nan64(y) && order64(x) <= order64(y)
}

fn exec_at_most64(x: u64, y: u64) -> (r: bool)
    ensures
        r == at_most64(x, y),
{
    !exec_is_nan64(x) && !exec_is_nan64(y) && exec_order64(x) <= exec_order64(y)
}

/// The cheapest plan. Ties break A, B, C (most general first).
pub open spec fn cheapest(costs: PlanCosts) -> PlanKind {
    if at_most64(costs.a, costs.b) && at_most64(costs.a, costs.c) {
        PlanKind::A
    } else {
        cheapest_complete(costs)
    }
}

/// The cheapest of the plans that consult the predicate on every row they
/// may return.
pub open spec fn cheapest_complete(costs: PlanCosts) -> PlanKind {
    if at_most64(costs.b, costs.c) {
        PlanKind::B
    } else {
        PlanKind::C
    }
}

/// Dispatch a plan by its cost: the kind with the lowest. Ties break A, B, C.
pub fn dispatch_via_cost(costs: &PlanCosts) -> (r: PlanKind)
    ensures
        r == cheapest(*costs),
{
    if exec_at_most64(costs.a, costs.b) && exec_at_most64(costs.a, costs.c) {
        PlanKind::A
    } else if exec_at_most64(costs.b, costs.c) {
        PlanKind::B
    } else {
        PlanKind::C
    }
}

pub open spec fn at_most(x: int, y: int) -> int {
    if x <= y {
        x
    } else {
        y
    }
}

/// How many candidates plan A looks at.
pub open spec fn candidates(w: Workload) -> int {
    at_most(w.user_k * KNN_OVERFETCH, w.total_rows as int)
}

/// How many of plan A's candidates are expected to satisfy the predicate,
/// where the matches are spread evenly.
pub open spec fn survivors(w: Workload) -> int {
    if w.total_rows == 0 {
        0
    } else {
        candidates(w) * w.matches / w.total_rows as int
    }
}

/// How many rows a complete answer has.
pub open spec fn wanted(w: Workload) -> int {
    at_most(w.user_k as int, w.matches as int)
}

/// Whether plan A is expected to come close to a complete answer: at most one
/// row may be missing, and at most one row in five. An answer of fewer than
/// five rows has to be complete.
pub open spec fn nearly_complete(w: Workload) -> bool {
    survivors(w) + 1 >= wanted(w) && 5 * survivors(w) >= 4 * wanted(w)
}

/// Whether plan A is expected to come close to a complete answer. It fetches
/// a fixed number of candidates and does not retry, so where the predicate
/// rejects most rows it would return fewer rows than there are.
pub fn plan_a_can_satisfy(w: &Workload) -> (r: bool)
    ensures
        r == nearly_complete(*w),
{
    let matches: u128 = w.matches as u128;
    let total: u128 = w.total_rows as u128;
    let overfetched: u128 = w.user_k as u128 * KNN_OVERFETCH as u128;
    let fetched: u128 = if overfetched <= total {
        overfetched
    } else {
        total
    };
    let wanted: u128 = if w.user_k <= w.matches {
        w.user_k as u128
    } else {
        matches
    };
    let survivors: u128 = if total == 0 {
        0
    } else {
        assert(fetched * matches <= u64::MAX * u64::MAX) by (nonlinear_arith)
            requires
                fetched <= u64::MAX,
                matches <= u64::MAX,
        ;
        fetched * matches / total
    };
    assert(survivors <= matches) by {
        if total > 0 {
            assert(fetched * matches / (total as int) <= matches) by (nonlinear_arith)
                requires
                    fetched <= total,
                    total > 0,
                    matches >= 0,
            ;
        }
    }
    survivors + 1 >= wanted && 5 * survivors >= 4 * wanted
}

/// The plan for a workload: the cheapest, but plan A only where it is
/// expected to come close to a complete answer.
pub open spec fn chosen(w: Workload, costs: PlanCosts) -> PlanKind {
    if nearly_complete(w) {
        cheapest(costs)
    } else {
        cheapest_complete(costs)
    }
}

/// Pick the plan for a workload.
pub fn choose_plan(w: &Workload, costs: &PlanCosts) -> (r: PlanKind)
    ensures
        r == chosen(*w, *costs),
{
    let cheapest: PlanKind = dispatch_via_cost(costs);
    if cheapest != PlanKind::A || plan_a_can_satisfy(w) {
        cheapest
    } else if exec_at_most64(costs.b, costs.c) {
        PlanKind::B
    } else {
        PlanKind::C
    }
}

/// No plan that may be picked is cheaper than the one picked.
pub proof fn law_chosen_is_cheapest(w: Workload, costs: PlanCosts)
    requires
        !is_nan64(costs.a) && !is_nan64(costs.b) && !is_nan64(costs.c),
    ensures
        match chosen(w, costs) {
            PlanKind::A => order64(costs.a) <= order64(costs.b) && order64(costs.a) <= order64(
                costs.c,
            ),
            PlanKind::B => order64(costs.b) <= order64(costs.c) && (nearly_complete(w)
                ==> order64(costs.b) < order64(costs.a)),
            PlanKind::C => order64(costs.c) < order64(costs.b) && (nearly_complete(w)
                ==> order64(costs.c) < order64(costs.a)),
        },
{
}

/// However cheap it is, plan A is picked only where at most one row of a
/// complete answer is expected to be missing, and none where a complete
/// answer has fewer than five rows.
pub proof fn law_plan_a_comes_close(w: Workload, costs: PlanCosts)
    requires
        chosen(w, costs) == PlanKind::A,
    ensures
        survivors(w) >= wanted(w) - 1,
        wanted(w) < 5 ==> survivors(w) >= wanted(w),
{
}

/// The choice in full. Plan A fetches four candidates for each row asked for,
/// or all rows; where matches are spread evenly, it is expected to keep the
/// matching share of them. It is picked where this comes within one row, and
/// within one in five, of a complete answer, and no other plan is cheaper.
/// Otherwise plan B is picked, unless plan C is cheaper.
pub proof fn law_choice(w: Workload, costs: PlanCosts)
    requires
        costs.a % 0x8000_0000_0000_0000 <= 0x7ff0_0000_0000_0000,
        costs.b % 0x8000_0000_0000_0000 <= 0x7ff0_0000_0000_0000,
        costs.c % 0x8000_0000_0000_0000 <= 0x7ff0_0000_0000_0000,
    ensures
        ({
            let fetched = if 4 * w.user_k <= w.total_rows {
                4 * w.user_k
            } else {
                w.total_rows as int
            };
            let complete = if w.user_k <= w.matches {
                w.user_k as int
            } else {
                w.matches as int
            };
            let expected = if w.total_rows == 0 {
                0
            } else {
                fetched * w.matches / (w.total_rows as int)
            };
            let close = expected + 1 >= complete && 5 * expected >= 4 * complete;
            let (a, b, c) = (order64(costs.a), order64(costs.b), order64(costs.c));
            &&& chosen(w, costs) == PlanKind::A <==> close && a <= b && a <= c
            &&& chosen(w, costs) == PlanKind::B <==> !(close && a <= b && a <= c) && b <= c
        }),
{
}

/// A cost that is no number is never the lowest: plan A needs all three, and
/// plan B its own and that of plan C.
pub proof fn law_unknown_costs(w: Workload, costs: PlanCosts)
    ensures
        costs.a % 0x8000_0000_0000_0000 > 0x7ff0_0000_0000_0000 || costs.b % 0x8000_0000_0000_0000
            > 0x7ff0_0000_0000_0000 || costs.c % 0x8000_0000_0000_0000 > 0x7ff0_0000_0000_0000
            ==> chosen(w, costs) != PlanKind::A,
        costs.b % 0x8000_0000_0000_0000 > 0x7ff0_0000_0000_0000 || costs.c % 0x8000_0000_0000_0000
            > 0x7ff0_0000_0000_0000 ==> chosen(w, costs) == PlanKind::C,
{
}

} // verus!
