//! Picking the plan for a filtered kNN query.

use kova_query::cost::{
    choose_plan, dispatch_via_cost, plan_a_can_satisfy, PlanCosts, PlanKind, Workload,
};

fn bits(a: f64, b: f64, c: f64) -> PlanCosts {
    PlanCosts {
        a: a.to_bits(),
        b: b.to_bits(),
        c: c.to_bits(),
    }
}

#[test]
fn ties_break_towards_the_most_general_plan() {
    assert_eq!(dispatch_via_cost(&bits(1.0, 1.0, 1.0)), PlanKind::A);
    assert_eq!(dispatch_via_cost(&bits(2.0, 1.0, 1.0)), PlanKind::B);
    assert_eq!(dispatch_via_cost(&bits(2.0, 1.5, 1.0)), PlanKind::C);
    assert_eq!(dispatch_via_cost(&bits(0.0, -0.0, 1.0)), PlanKind::A);
    assert_eq!(
        dispatch_via_cost(&bits(1.0, 2.0, f64::INFINITY)),
        PlanKind::A
    );
    // NaN is not at most anything.
    assert_eq!(dispatch_via_cost(&bits(f64::NAN, 2.0, 3.0)), PlanKind::B);
    assert_eq!(dispatch_via_cost(&bits(1.0, 2.0, f64::NAN)), PlanKind::C);
}

fn load(matches: usize, user_k: usize, total_rows: usize) -> Workload {
    Workload {
        matches,
        user_k,
        total_rows,
        dim: 16,
    }
}

#[test]
fn plan_a_needs_enough_survivors() {
    // Four candidates per row asked for: one in four has to match.
    assert!(plan_a_can_satisfy(&load(2_500, 10, 10_000)));
    assert!(!plan_a_can_satisfy(&load(2_000, 10, 10_000)));
    assert!(plan_a_can_satisfy(&load(2_000, 5, 10_000)));
    assert!(!plan_a_can_satisfy(&load(1_999, 5, 10_000)));
    // One row in five may be missing, and never more than one.
    assert!(plan_a_can_satisfy(&load(2_250, 10, 10_000)));
    assert!(!plan_a_can_satisfy(&load(1_500, 2, 10_000)));
    assert!(!plan_a_can_satisfy(&load(2_499, 4, 10_000)));
    assert!(plan_a_can_satisfy(&load(2_500, 4, 10_000)));
    // A single match among many rows is not found by chance.
    assert!(!plan_a_can_satisfy(&load(1, 10, 10_000)));
    // Candidates that cover the shard find every match.
    assert!(plan_a_can_satisfy(&load(1, 10, 40)));
    assert!(!plan_a_can_satisfy(&load(1, 10, 41)));
    // Nothing to find.
    assert!(plan_a_can_satisfy(&load(0, 10, 10_000)));
    assert!(plan_a_can_satisfy(&load(0, 10, 0)));
    // No overflow at the largest counts.
    assert!(plan_a_can_satisfy(&load(usize::MAX, usize::MAX, usize::MAX)));
}

#[test]
fn a_starving_plan_is_passed_over_however_cheap() {
    let cheap_a = bits(1.0, 20.0, 30.0);
    assert_eq!(choose_plan(&load(5_000, 10, 10_000), &cheap_a), PlanKind::A);
    assert_eq!(choose_plan(&load(100, 10, 10_000), &cheap_a), PlanKind::B);
    assert_eq!(
        choose_plan(&load(100, 10, 10_000), &bits(1.0, 30.0, 20.0)),
        PlanKind::C
    );
    assert_eq!(choose_plan(&load(1_500, 2, 10_000), &cheap_a), PlanKind::B);
}
