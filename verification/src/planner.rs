//! From a bound statement to the plan that answers it.
//!
//! For writes and management statements, one statement gives one operator.
//! For a filtered kNN query there is a choice to make, which
//! [`crate::cost`] makes from an estimate of how many rows match.

use crate::ast::{views, CmpOp, DistanceOp, ParamRef};
use crate::cost::{chosen, choose_plan, PlanCosts, PlanKind, Workload, KNN_OVERFETCH};
use crate::error::{Failure, KovaQueryError};
use crate::eval::agrees_as;
use crate::logical::{
    conds, copy_param, opt_cond, opt_hint, BoundProjection, BoundQuery, Column, Cond, CondAtom,
    Hint, IdHint, Logical, LogicalCreateIndex, LogicalDelete, LogicalDropIndex, LogicalInsert,
    LogicalInsertSource, LogicalQuery, LogicalStatement, LogicalUpdate, LogicalVacuum,
    OrderingSpec, PredAtom, PredicateExpr, ProjectionSpec, SortKey,
};
use crate::params::ParamBindings;
use crate::physical::{ball, Ball, PhysicalPlan, Plan};
use crate::syntax::{Assign, Distance};
use vstd::prelude::*;

verus! {

/// Estimate produced by [`SelectivityEstimator::estimate`].
#[derive(Debug, Clone, Copy)]
pub struct SelectivityEstimate {
    /// Rows whose metadata satisfies the predicate.
    pub matches: usize,
    /// Total live rows in the shard.
    pub total: usize,
}

/// Estimates how many rows a predicate matches, and what answering costs.
pub trait SelectivityEstimator {
    /// Estimate selectivity of `pred`. `params` is passed through so the
    /// estimator can resolve param-bound atoms (e.g. `WHERE category = $1`).
    fn estimate(&self, pred: &PredicateExpr, params: &ParamBindings) -> SelectivityEstimate;

    /// Dimension of the stored vectors.
    fn dim(&self) -> usize;

    /// What each plan costs for a workload.
    fn plan_costs(&self, workload: Workload) -> PlanCosts;
}

/// The estimate that a count gives. An empty shard has no matches, and a
/// count that failed says so again when the statement itself runs.
pub fn estimate_of(count: Option<usize>, total: usize) -> (r: SelectivityEstimate)
    ensures
        r.total == total,
        r.matches == (if total == 0 || count is None {
            0
        } else {
            count->Some_0
        }),
{
    let matches: usize = match count {
        Some(n) => if total == 0 {
            0
        } else {
            n
        },
        None => 0,
    };
    SelectivityEstimate { matches, total }
}

// ----- Distance thresholds -----

/// Whether a comparison with a radius includes the radius; only `<` and `<=`
/// describe a ball.
pub open spec fn inclusive(op: CmpOp) -> Option<bool> {
    match op {
        CmpOp::Lt => Some(false),
        CmpOp::Le => Some(true),
        _ => None,
    }
}

/// Whether `c` is an atom that describes a ball.
pub open spec fn is_ball(c: Cond) -> bool {
    c matches Cond::Atom(CondAtom::DistanceThreshold(_, op, _)) && inclusive(op) is Some
}

/// Where the first atom that describes a ball is, or how many terms there
/// are.
pub open spec fn first_ball(cs: Seq<Cond>) -> int
    decreases cs.len(),
{
    if cs.len() == 0 || is_ball(cs[0]) {
        0
    } else {
        1 + first_ball(cs.skip(1))
    }
}

/// The conjunction of `cs`, if there is anything to say.
pub open spec fn remainder(cs: Seq<Cond>) -> Option<Cond> {
    if cs.len() == 0 {
        None
    } else if cs.len() == 1 {
        Some(cs[0])
    } else {
        Some(Cond::And(cs))
    }
}

/// The ball of one atom, with what is left to check.
pub open spec fn ball_with(c: Cond, rest: Option<Cond>) -> Option<Ball> {
    match c {
        Cond::Atom(CondAtom::DistanceThreshold(query, op, radius)) => match inclusive(op) {
            Some(inclusive) => Some(Ball { query, radius, inclusive, post_filter: rest }),
            None => None,
        },
        _ => None,
    }
}

/// The ball that a condition describes: that of the condition itself, or of
/// the first term of a conjunction that describes one, with the other terms
/// left to check.
pub open spec fn ball_of(c: Cond) -> Option<Ball> {
    match c {
        Cond::And(cs) => {
            let i = first_ball(cs);
            if i < cs.len() {
                ball_with(cs[i], remainder(cs.remove(i)))
            } else {
                None
            }
        },
        _ => ball_with(c, None),
    }
}

/// Whether a distance threshold occurs in `c`.
pub open spec fn has_distance(c: Cond) -> bool
    decreases c,
{
    match c {
        Cond::Atom(a) => a is DistanceThreshold,
        Cond::And(cs) => exists|i: int| 0 <= i < cs.len() && has_distance(#[trigger] cs[i]),
        Cond::Or(cs) => exists|i: int| 0 <= i < cs.len() && has_distance(#[trigger] cs[i]),
        Cond::Not(d) => has_distance(*d),
        _ => false,
    }
}

/// Whether a distance threshold occurs under an `OR` in `c`.
pub open spec fn or_with_distance(c: Cond) -> bool
    decreases c,
{
    match c {
        Cond::And(cs) => exists|i: int| 0 <= i < cs.len() && or_with_distance(#[trigger] cs[i]),
        Cond::Or(cs) => exists|i: int| 0 <= i < cs.len() && has_distance(#[trigger] cs[i]),
        Cond::Not(d) => or_with_distance(*d),
        _ => false,
    }
}

/// Map a comparison to `inclusive` for radius semantics. Only `<` and `<=`
/// make sense; `>`/`>=` would be "outside the ball" and `=`/`!=` are nonsense
/// for a distance bound.
pub fn cmp_to_inclusive(op: CmpOp) -> (r: Option<bool>)
    ensures
        r == inclusive(op),
{
    match op {
        CmpOp::Lt => Some(false),
        CmpOp::Le => Some(true),
        _ => None,
    }
}

/// Payload returned by [`extract_radius_atom`].
#[derive(Debug)]
pub struct ExtractedRadius {
    /// Query vector parameter.
    pub query_param: ParamRef,
    /// Distance metric.
    pub metric: DistanceOp,
    /// Distance bound, as the bit pattern of a 32-bit value.
    pub radius: u32,
    /// Whether rows at the bound itself belong.
    pub inclusive: bool,
    /// What is left to check.
    pub residue: Option<PredicateExpr>,
}

impl View for ExtractedRadius {
    type V = Ball;

    open spec fn view(&self) -> Ball {
        ball(self.query_param, self.metric, self.radius, self.inclusive, self.residue)
    }
}

pub open spec fn opt_ball(e: Option<ExtractedRadius>) -> Option<Ball> {
    match e {
        Some(x) => Some(x@),
        None => None,
    }
}

fn extract_with(c: &PredicateExpr, residue: Option<PredicateExpr>) -> (r: Option<ExtractedRadius>)
    ensures
        opt_ball(r) == ball_with(c@, opt_cond(residue)),
{
    match c {
        PredicateExpr::Atom(PredAtom::DistanceThreshold { metric, param, op, radius }) => {
            match cmp_to_inclusive(*op) {
                Some(inclusive) => Some(
                    ExtractedRadius {
                        query_param: copy_param(param),
                        metric: *metric,
                        radius: *radius,
                        inclusive,
                        residue,
                    },
                ),
                None => None,
            }
        },
        _ => None,
    }
}

fn describes_ball(c: &PredicateExpr) -> (r: bool)
    ensures
        r == is_ball(c@),
{
    match c {
        PredicateExpr::Atom(PredAtom::DistanceThreshold { op, .. }) => {
            cmp_to_inclusive(*op).is_some()
        },
        _ => false,
    }
}

proof fn lemma_first_ball(cs: Seq<Cond>, i: int)
    requires
        0 <= i <= cs.len(),
        forall|j: int| 0 <= j < i ==> !is_ball(#[trigger] cs[j]),
        i == cs.len() || is_ball(cs[i]),
    ensures
        first_ball(cs) == i,
    decreases cs.len(),
{
    if i > 0 {
        assert(!is_ball(cs[0]));
        let s = cs.skip(1);
        assert forall|j: int| 0 <= j < i - 1 implies !is_ball(#[trigger] s[j]) by {
            assert(s[j] == cs[j + 1]);
        }
        lemma_first_ball(s, i - 1);
    }
}

fn position_of_ball(children: &Vec<PredicateExpr>) -> (r: usize)
    ensures
        r == first_ball(conds(children@)),
        r <= children.len(),
{
    let ghost cs = conds(children@);
    let mut i: usize = 0;
    while i < children.len()
        invariant
            i <= children.len(),
            cs == conds(children@),
            forall|j: int| 0 <= j < i ==> !is_ball(#[trigger] cs[j]),
        decreases children.len() - i,
    {
        assert(cs[i as int] == children@[i as int]@);
        if describes_ball(&children[i]) {
            proof {
                lemma_first_ball(cs, i as int);
            }
            return i;
        }
        i = i + 1;
    }
    proof {
        lemma_first_ball(cs, i as int);
    }
    i
}

/// Copies of `children`, without the one at `pos`.
fn all_but(children: &Vec<PredicateExpr>, pos: usize) -> (r: Vec<PredicateExpr>)
    requires
        pos < children.len(),
    ensures
        conds(r@) == conds(children@).remove(pos as int),
{
    let ghost cs = conds(children@);
    let mut rest: Vec<PredicateExpr> = Vec::new();
    let mut i: usize = 0;
    while i < children.len()
        invariant
            pos < children.len(),
            i <= children.len(),
            cs == conds(children@),
            i <= pos ==> conds(rest@) =~= cs.take(i as int),
            i > pos ==> conds(rest@) =~= cs.take(i as int).remove(pos as int),
        decreases children.len() - i,
    {
        if i != pos {
            let c: PredicateExpr = children[i].copy();
            let ghost before = rest@;
            rest.push(c);
            assert(conds(before.push(c)) =~= conds(before).push(c@));
        }
        i = i + 1;
    }
    assert(cs.take(i as int) =~= cs);
    rest
}

/// Pull a top-level distance threshold out of `pred` if one exists,
/// returning its parts plus whatever predicate is left after removing it.
pub fn extract_radius_atom(pred: &PredicateExpr) -> (r: Option<ExtractedRadius>)
    ensures
        opt_ball(r) == ball_of(pred@),
{
    match pred {
        PredicateExpr::And(children) => {
            let pos: usize = position_of_ball(children);
            if pos >= children.len() {
                return None;
            }
            let mut rest: Vec<PredicateExpr> = all_but(children, pos);
            assert(conds(children@)[pos as int] == children@[pos as int]@);
            let residue: Option<PredicateExpr> = if rest.len() > 1 {
                Some(PredicateExpr::And(rest))
            } else {
                assert(rest.len() == 1 ==> conds(rest@)[0] == rest@[0]@);
                rest.pop()
            };
            assert(opt_cond(residue) == remainder(conds(children@).remove(pos as int)));
            extract_with(&children[pos], residue)
        },
        _ => extract_with(pred, None),
    }
}

/// True if `p` contains a distance threshold anywhere in its subtree.
pub fn predicate_has_distance_threshold(p: &PredicateExpr) -> (r: bool)
    ensures
        r == has_distance(p@),
    decreases p, 0int,
{
    match p {
        PredicateExpr::Atom(PredAtom::DistanceThreshold { .. }) => true,
        PredicateExpr::And(cs) => {
            assert(p@ == Cond::And(conds(cs@)));
            any_has_distance(cs)
        },
        PredicateExpr::Or(cs) => {
            assert(p@ == Cond::Or(conds(cs@)));
            any_has_distance(cs)
        },
        PredicateExpr::Not(inner) => {
            assert(p@ == Cond::Not(Box::new(inner@)));
            predicate_has_distance_threshold(inner)
        },
        _ => false,
    }
}

fn any_has_distance(ps: &Vec<PredicateExpr>) -> (r: bool)
    ensures
        r == has_distance(Cond::And(conds(ps@))),
        r == has_distance(Cond::Or(conds(ps@))),
    decreases ps, 1int,
{
    let ghost cs = conds(ps@);
    let mut i: usize = 0;
    while i < ps.len()
        invariant
            i <= ps.len(),
            cs == conds(ps@),
            forall|j: int| 0 <= j < i ==> !has_distance(#[trigger] cs[j]),
        decreases ps.len() - i,
    {
        assert(decreases_to!(ps => ps@[i as int]));
        if predicate_has_distance_threshold(&ps[i]) {
            proof {
                assert(cs.len() == ps.len());
                assert(has_distance(cs[i as int]));
                assert(Cond::And(cs)->And_0[i as int] == cs[i as int]);
                assert(Cond::Or(cs)->Or_0[i as int] == cs[i as int]);
            }
            return true;
        }
        i = i + 1;
    }
    false
}

fn has_or_with_distance(p: &PredicateExpr) -> (r: bool)
    ensures
        r == or_with_distance(p@),
    decreases p, 0int,
{
    match p {
        PredicateExpr::Or(cs) => {
            assert(p@ == Cond::Or(conds(cs@)));
            any_has_distance(cs)
        },
        PredicateExpr::And(cs) => {
            assert(p@ == Cond::And(conds(cs@)));
            any_or_with_distance(cs)
        },
        PredicateExpr::Not(inner) => {
            assert(p@ == Cond::Not(Box::new(inner@)));
            has_or_with_distance(inner)
        },
        _ => false,
    }
}

fn any_or_with_distance(ps: &Vec<PredicateExpr>) -> (r: bool)
    ensures
        r == or_with_distance(Cond::And(conds(ps@))),
    decreases ps, 1int,
{
    let ghost cs = conds(ps@);
    let mut i: usize = 0;
    while i < ps.len()
        invariant
            i <= ps.len(),
            cs == conds(ps@),
            forall|j: int| 0 <= j < i ==> !or_with_distance(#[trigger] cs[j]),
        decreases ps.len() - i,
    {
        assert(decreases_to!(ps => ps@[i as int]));
        if has_or_with_distance(&ps[i]) {
            proof {
                assert(cs.len() == ps.len());
                assert(or_with_distance(cs[i as int]));
                assert(Cond::And(cs)->And_0[i as int] == cs[i as int]);
            }
            return true;
        }
        i = i + 1;
    }
    false
}

/// The error for a distance threshold under an `OR`.
pub open spec fn or_rejected() -> Failure {
    Failure::Plan(
        "OR containing a distance-threshold atom isn't supported ; needs per-branch selectivity plus a Union operator that merges radius balls, neither of which ships yet"@,
    )
}

/// Reject `OR`s that contain a distance threshold anywhere in their subtree.
/// Falling back to an unfiltered kNN would starve the LIMIT in silence.
pub fn reject_or_with_distance_threshold(pred: &PredicateExpr) -> (r: Result<(), KovaQueryError>)
    ensures
        r is Err <==> or_with_distance(pred@),
        r matches Err(e) ==> e@ == or_rejected(),
{
    if has_or_with_distance(pred) {
        Err(
            KovaQueryError::Plan(
                "OR containing a distance-threshold atom isn't supported ; needs per-branch selectivity plus a Union operator that merges radius balls, neither of which ships yet".to_owned(),
            ),
        )
    } else {
        Ok(())
    }
}

// ----- Projections -----

/// The name of the only column of a bare `COUNT(*)`.
pub open spec fn count_name(columns: Seq<Column>) -> Option<Seq<char>> {
    if columns.len() == 1 {
        match columns[0] {
            Column::CountStar(Some(alias)) => Some(alias),
            Column::CountStar(None) => Some("count"@),
            _ => None,
        }
    } else {
        None
    }
}

/// The columns of a projection, with a lone wildcard as id and metadata.
pub open spec fn expanded(columns: Seq<Column>) -> Seq<Column> {
    if columns.len() == 1 && columns[0] is Wildcard {
        seq![Column::Id(None), Column::Metadata(None)]
    } else {
        columns
    }
}

/// If the projection is exactly `COUNT(*)`, the output column name (the alias
/// or `count`). `COUNT(*)` with other columns would need GROUP BY.
pub fn solo_count_star_name(spec: &ProjectionSpec) -> (r: Option<String>)
    ensures
        (match r {
            Some(s) => Some(s@),
            None => None,
        }) == count_name(spec@),
{
    if spec.columns.len() != 1 {
        return None;
    }
    assert(spec@[0] == spec.columns@[0]@);
    match &spec.columns[0] {
        BoundProjection::CountStar { alias } => match alias {
            Some(name) => Some(name.clone()),
            None => Some("count".to_owned()),
        },
        _ => None,
    }
}

/// If the projection is just a wildcard, expand it to id and metadata.
/// Otherwise leave it alone.
pub fn expand_wildcard(spec: ProjectionSpec) -> (r: ProjectionSpec)
    ensures
        r@ == expanded(spec@),
{
    let solo_wildcard: bool = spec.columns.len() == 1 && match &spec.columns[0] {
        BoundProjection::Wildcard => true,
        _ => false,
    };
    assert(spec.columns.len() == 1 ==> spec@[0] == spec.columns@[0]@);
    if solo_wildcard {
        let columns: Vec<BoundProjection> = vec![
            BoundProjection::Id { alias: None },
            BoundProjection::Metadata { alias: None },
        ];
        assert(views(columns@) =~= seq![Column::Id(None), Column::Metadata(None)]);
        ProjectionSpec { columns }
    } else {
        spec
    }
}

// ----- Queries -----

/// The distance that a query orders by, if that is its first key.
pub open spec fn knn_key(keys: Seq<SortKey>) -> Option<Distance> {
    if keys.len() > 0 {
        match keys[0] {
            SortKey::Distance(d) => Some(d),
            SortKey::Field(_, _) => None,
        }
    } else {
        None
    }
}

/// A limit as a count of rows.
pub open spec fn row_count(limit: u64) -> usize {
    if limit <= usize::MAX {
        limit as usize
    } else {
        usize::MAX
    }
}

/// How many candidates plan A asks for.
pub open spec fn overfetched(k: usize) -> usize {
    if k * KNN_OVERFETCH <= usize::MAX {
        (k * KNN_OVERFETCH) as usize
    } else {
        usize::MAX
    }
}

pub open spec fn limited(p: Plan, limit: u64) -> Plan {
    Plan::Limit { input: Box::new(p), limit }
}

pub open spec fn projected(p: Plan, columns: Seq<Column>) -> Plan {
    Plan::Projection { input: Box::new(p), columns: expanded(columns) }
}

/// Plan A: overfetched kNN and a post-filter.
pub open spec fn plan_a(
    table: Seq<char>,
    query: Distance,
    post_filter: Option<Cond>,
    limit: u64,
) -> Plan {
    limited(
        Plan::KnnSearch { table, query, k: overfetched(row_count(limit)), post_filter },
        limit,
    )
}

/// Plan B: scan and exact distance.
pub open spec fn plan_b(table: Seq<char>, query: Distance, predicate: Cond, limit: u64) -> Plan {
    limited(
        Plan::ExactDistance {
            input: Box::new(Plan::MetadataScan { table, predicate }),
            query,
            k: row_count(limit),
        },
        limit,
    )
}

/// Plan C: filtered graph walk.
pub open spec fn plan_c(table: Seq<char>, query: Distance, filter: Cond, limit: u64) -> Plan {
    limited(Plan::FilteredKnnSearch { table, query, k: row_count(limit), filter }, limit)
}

/// The plan for a kNN query: plan A where there is nothing to filter.
pub open spec fn knn_plan(
    table: Seq<char>,
    query: Distance,
    predicate: Option<Cond>,
    limit: u64,
    kind: PlanKind,
) -> Plan {
    match predicate {
        None => plan_a(table, query, None, limit),
        Some(p) => match kind {
            PlanKind::A => plan_a(table, query, Some(p), limit),
            PlanKind::B => plan_b(table, query, p, limit),
            PlanKind::C => plan_c(table, query, p, limit),
        },
    }
}

/// The plan for `SELECT ... WHERE ... LIMIT k` without an order.
pub open spec fn scan_plan(
    table: Seq<char>,
    predicate: Option<Cond>,
    columns: Seq<Column>,
    limit: u64,
) -> Result<Plan, Failure> {
    match predicate {
        None => Err(
            Failure::Plan(
                "LIMIT without ORDER BY requires a WHERE clause ; unbounded slice-scans aren't supported"@,
            ),
        ),
        Some(p) => if has_distance(p) {
            Err(
                Failure::Plan(
                    "distance-threshold predicate in a shape the radius planner doesn't recognise (e.g. NOT, nested OR) ; only `<distance> < r` / `<distance> <= r` at the top of the WHERE is supported"@,
                ),
            )
        } else {
            Ok(projected(limited(Plan::MetadataScan { table, predicate: p }, limit), columns))
        },
    }
}

/// The plan for rows within a distance, in no order.
pub open spec fn ball_plan(
    table: Seq<char>,
    ball: Ball,
    columns: Seq<Column>,
    limit: Option<u64>,
) -> Plan {
    let search = Plan::RadiusSearch { table, ball };
    projected(
        match limit {
            Some(n) => limited(search, n),
            None => search,
        },
        columns,
    )
}

/// The plan for a query, with `kind` the way to answer a filtered kNN. In
/// turn: a bare count; a ball; a scan with a limit; kNN.
pub open spec fn planned_query(q: BoundQuery, kind: PlanKind) -> Result<Plan, Failure> {
    let within = if q.ordering.len() == 0 {
        q.predicate
    } else {
        None
    };
    match (count_name(q.projection), within) {
        (Some(column_name), _) => Ok(
            Plan::Count { table: q.from_table, predicate: q.predicate, column_name },
        ),
        (None, Some(p)) if or_with_distance(p) => Err(or_rejected()),
        (None, Some(p)) if ball_of(p) is Some => Ok(
            ball_plan(q.from_table, ball_of(p)->Some_0, q.projection, q.limit),
        ),
        _ => match (q.ordering.len() == 0, knn_key(q.ordering), q.limit) {
            (true, _, Some(limit)) => scan_plan(q.from_table, q.predicate, q.projection, limit),
            (_, None, _) => Err(
                Failure::Plan(
                    "v1 supports only kNN SELECTs : need `ORDER BY embedding <op> $q LIMIT k`. Scan-and-filter (without distance ordering) lands when plan B ships."@,
                ),
            ),
            (_, Some(_), None) => Err(
                Failure::Plan("kNN SELECT requires LIMIT (binder should have caught this)"@),
            ),
            (_, Some(query), Some(limit)) => Ok(
                projected(
                    knn_plan(q.from_table, query, q.predicate, limit, kind),
                    q.projection,
                ),
            ),
        },
    }
}

/// Plan A: `Limit(KnnSearch(overfetched, optional post_filter))`.
pub fn build_plan_a(
    table: String,
    query: ParamRef,
    metric: DistanceOp,
    user_k: usize,
    post_filter: Option<PredicateExpr>,
    user_limit: u64,
) -> (r: PhysicalPlan)
    ensures
        r@ == limited(
            Plan::KnnSearch {
                table: table@,
                query: Distance { metric, param: query@ },
                k: overfetched(user_k),
                post_filter: opt_cond(post_filter),
            },
            user_limit,
        ),
{
    let overfetched_k: usize = match user_k.checked_mul(KNN_OVERFETCH) {
        Some(k) => k,
        None => usize::MAX,
    };
    let knn: PhysicalPlan = PhysicalPlan::KnnSearch {
        table,
        query,
        metric,
        k: overfetched_k,
        post_filter,
    };
    let r: PhysicalPlan = PhysicalPlan::Limit { input: Box::new(knn), limit: user_limit };
    proof {
        reveal_with_fuel(PhysicalPlan::model, 2);
    }
    r
}

/// Plan B: `Limit(ExactDistance(MetadataScan(predicate)))`.
pub fn build_plan_b(
    table: String,
    predicate: PredicateExpr,
    query: ParamRef,
    metric: DistanceOp,
    user_k: usize,
    user_limit: u64,
) -> (r: PhysicalPlan)
    ensures
        r@ == limited(
            Plan::ExactDistance {
                input: Box::new(Plan::MetadataScan { table: table@, predicate: predicate@ }),
                query: Distance { metric, param: query@ },
                k: user_k,
            },
            user_limit,
        ),
{
    let scan: PhysicalPlan = PhysicalPlan::MetadataScan { table, predicate };
    let exact: PhysicalPlan = PhysicalPlan::ExactDistance {
        input: Box::new(scan),
        query,
        metric,
        k: user_k,
    };
    let r: PhysicalPlan = PhysicalPlan::Limit { input: Box::new(exact), limit: user_limit };
    proof {
        reveal_with_fuel(PhysicalPlan::model, 3);
    }
    r
}

/// Plan C: `Limit(FilteredKnnSearch(filter))`. No overfetch, because
/// filtering happens during the walk.
pub fn build_plan_c(
    table: String,
    filter: PredicateExpr,
    query: ParamRef,
    metric: DistanceOp,
    user_k: usize,
    user_limit: u64,
) -> (r: PhysicalPlan)
    ensures
        r@ == limited(
            Plan::FilteredKnnSearch {
                table: table@,
                query: Distance { metric, param: query@ },
                k: user_k,
                filter: filter@,
            },
            user_limit,
        ),
{
    let knn: PhysicalPlan = PhysicalPlan::FilteredKnnSearch {
        table,
        query,
        metric,
        k: user_k,
        filter,
    };
    let r: PhysicalPlan = PhysicalPlan::Limit { input: Box::new(knn), limit: user_limit };
    proof {
        reveal_with_fuel(PhysicalPlan::model, 2);
    }
    r
}

/// Build the scan-and-limit plan for `SELECT ... WHERE pred LIMIT k` with no
/// ORDER BY. The order of returned rows is left open. Requires a predicate,
/// to avoid returning random slices of large shards, and rejects one that
/// hides a distance threshold, which the scan could not evaluate.
pub fn build_scan_and_limit(
    from_table: String,
    predicate: Option<PredicateExpr>,
    projection: ProjectionSpec,
    user_limit: u64,
) -> (r: Result<PhysicalPlan, KovaQueryError>)
    ensures
        agrees_as(r, scan_plan(from_table@, opt_cond(predicate), projection@, user_limit)),
{
    match predicate {
        None => Err(
            KovaQueryError::Plan(
                "LIMIT without ORDER BY requires a WHERE clause ; unbounded slice-scans aren't supported".to_owned(),
            ),
        ),
        Some(pred) => {
            if predicate_has_distance_threshold(&pred) {
                return Err(
                    KovaQueryError::Plan(
                        "distance-threshold predicate in a shape the radius planner doesn't recognise (e.g. NOT, nested OR) ; only `<distance> < r` / `<distance> <= r` at the top of the WHERE is supported".to_owned(),
                    ),
                );
            }
            let scan: PhysicalPlan = PhysicalPlan::MetadataScan {
                table: from_table,
                predicate: pred,
            };
            let r: PhysicalPlan = PhysicalPlan::Projection {
                input: Box::new(PhysicalPlan::Limit { input: Box::new(scan), limit: user_limit }),
                spec: expand_wildcard(projection),
            };
            proof {
                reveal_with_fuel(PhysicalPlan::model, 3);
            }
            Ok(r)
        },
    }
}

/// What the kNN plan dispatcher starts from.
#[derive(Debug)]
pub struct KnnPlanInputs {
    /// Target table.
    pub from_table: String,
    /// What a row has to satisfy.
    pub predicate: Option<PredicateExpr>,
    /// Query vector parameter.
    pub query_param: ParamRef,
    /// Distance metric.
    pub metric: DistanceOp,
    /// The query's LIMIT.
    pub user_limit: u64,
}

fn exec_row_count(limit: u64) -> (r: usize)
    ensures
        r == row_count(limit),
{
    if limit <= usize::MAX as u64 {
        limit as usize
    } else {
        usize::MAX
    }
}

/// Build plan A / B / C for a kNN SELECT. With no predicate there is nothing
/// to filter: plan A.
pub fn dispatch_knn_plan(inputs: KnnPlanInputs, kind: PlanKind) -> (r: PhysicalPlan)
    ensures
        r@ == knn_plan(
            inputs.from_table@,
            Distance { metric: inputs.metric, param: inputs.query_param@ },
            opt_cond(inputs.predicate),
            inputs.user_limit,
            kind,
        ),
{
    let KnnPlanInputs { from_table, predicate, query_param, metric, user_limit } = inputs;
    let user_k: usize = exec_row_count(user_limit);
    match predicate {
        Some(pred) => match kind {
            PlanKind::A => build_plan_a(
                from_table,
                query_param,
                metric,
                user_k,
                Some(pred),
                user_limit,
            ),
            PlanKind::B => build_plan_b(from_table, pred, query_param, metric, user_k, user_limit),
            PlanKind::C => build_plan_c(from_table, pred, query_param, metric, user_k, user_limit),
        },
        None => build_plan_a(from_table, query_param, metric, user_k, None, user_limit),
    }
}

pub open spec fn opt_distance(k: Option<(DistanceOp, ParamRef)>) -> Option<Distance> {
    match k {
        Some((metric, param)) => Some(Distance { metric, param: param@ }),
        None => None,
    }
}

/// The distance that a query orders by, if that is its first key. Behind a
/// field key it could only break ties, which no plan does.
fn find_knn_key(ordering: &Vec<OrderingSpec>) -> (r: Option<(DistanceOp, ParamRef)>)
    ensures
        opt_distance(r) == knn_key(views(ordering@)),
{
    if ordering.len() == 0 {
        return None;
    }
    assert(views(ordering@)[0] == ordering@[0]@);
    match &ordering[0] {
        OrderingSpec::Distance { metric, param } => Some((*metric, copy_param(param))),
        OrderingSpec::Field { .. } => None,
    }
}

/// Build the physical plan for a SELECT statement, with `kind` the way to
/// answer a filtered kNN.
pub fn plan_query(q: LogicalQuery, kind: PlanKind) -> (r: Result<PhysicalPlan, KovaQueryError>)
    ensures
        agrees_as(r, planned_query(q@, kind)),
{
    let LogicalQuery { from_table, projection, predicate, ordering, limit } = q;
    if let Some(column_name) = solo_count_star_name(&projection) {
        return Ok(PhysicalPlan::Count { table: from_table, predicate, column_name });
    }
    let unordered: bool = ordering.len() == 0;
    if unordered {
        if let Some(p) = &predicate {
            if let Err(e) = reject_or_with_distance_threshold(p) {
                return Err(e);
            }
            if let Some(extracted) = extract_radius_atom(p) {
                let search: PhysicalPlan = PhysicalPlan::RadiusSearch {
                    table: from_table,
                    query: extracted.query_param,
                    metric: extracted.metric,
                    radius: extracted.radius,
                    inclusive: extracted.inclusive,
                    post_filter: extracted.residue,
                };
                let capped: PhysicalPlan = match limit {
                    Some(user_limit) => PhysicalPlan::Limit {
                        input: Box::new(search),
                        limit: user_limit,
                    },
                    None => search,
                };
                let r: PhysicalPlan = PhysicalPlan::Projection {
                    input: Box::new(capped),
                    spec: expand_wildcard(projection),
                };
                proof {
                    reveal_with_fuel(PhysicalPlan::model, 3);
                }
                return Ok(r);
            }
        }
        if let Some(user_limit) = limit {
            return build_scan_and_limit(from_table, predicate, projection, user_limit);
        }
    }
    match find_knn_key(&ordering) {
        None => Err(
            KovaQueryError::Plan(
                "v1 supports only kNN SELECTs : need `ORDER BY embedding <op> $q LIMIT k`. Scan-and-filter (without distance ordering) lands when plan B ships.".to_owned(),
            ),
        ),
        Some((metric, query_param)) => match limit {
            None => Err(
                KovaQueryError::Plan(
                    "kNN SELECT requires LIMIT (binder should have caught this)".to_owned(),
                ),
            ),
            Some(user_limit) => {
                let plan: PhysicalPlan = dispatch_knn_plan(
                    KnnPlanInputs { from_table, predicate, query_param, metric, user_limit },
                    kind,
                );
                Ok(
                    PhysicalPlan::Projection {
                        input: Box::new(plan),
                        spec: expand_wildcard(projection),
                    },
                )
            },
        },
    }
}

// ----- Statements -----

/// The plan for a `DELETE`.
pub open spec fn planned_delete(
    table: Seq<char>,
    predicate: Cond,
    hint: Option<Hint>,
) -> Result<Plan, Failure> {
    match hint {
        Some(Hint::Literal(id)) => Ok(Plan::DeleteById { table, id }),
        Some(Hint::Param(id_param)) => Ok(Plan::DeleteByParamId { table, id_param }),
        None => if or_with_distance(predicate) {
            Err(or_rejected())
        } else if ball_of(predicate) is Some {
            Ok(Plan::DeleteByRadius { table, ball: ball_of(predicate)->Some_0 })
        } else if has_distance(predicate) {
            Err(
                Failure::Plan(
                    "DELETE WHERE <distance-threshold> isn't supported ; distance predicates need the radius operator, not the metadata scan"@,
                ),
            )
        } else {
            Ok(Plan::DeleteByPredicate { table, predicate })
        },
    }
}

/// The plan for an `UPDATE`.
pub open spec fn planned_update(
    table: Seq<char>,
    predicate: Cond,
    assignments: Seq<Assign>,
    hint: Option<Hint>,
) -> Result<Plan, Failure> {
    match hint {
        Some(Hint::Literal(id)) => Ok(Plan::UpdateById { table, id, assignments }),
        Some(Hint::Param(id_param)) => Ok(Plan::UpdateByParamId { table, id_param, assignments }),
        None => if or_with_distance(predicate) {
            Err(or_rejected())
        } else if ball_of(predicate) is Some {
            Ok(Plan::UpdateByRadius { table, ball: ball_of(predicate)->Some_0, assignments })
        } else if has_distance(predicate) {
            Err(
                Failure::Plan(
                    "UPDATE WHERE <distance-threshold> isn't supported ; distance predicates need the radius operator, not the metadata scan"@,
                ),
            )
        } else {
            Ok(Plan::UpdateByPredicate { table, predicate, assignments })
        },
    }
}

/// The plan for a statement, with `kind` the way to answer a filtered kNN.
pub open spec fn planned(l: Logical, kind: PlanKind) -> Result<Plan, Failure> {
    match l {
        Logical::Query(q) => planned_query(q, kind),
        Logical::InsertOne { table, id, embedding, metadata } => Ok(
            Plan::InsertOne { table, id, embedding, metadata },
        ),
        Logical::InsertMany { table, batch } => Ok(Plan::InsertMany { table, batch }),
        Logical::Update { table, predicate, assignments, hint } => planned_update(
            table,
            predicate,
            assignments,
            hint,
        ),
        Logical::Delete { table, predicate, hint } => planned_delete(table, predicate, hint),
        Logical::Vacuum { table } => Ok(Plan::Vacuum { table }),
        Logical::Checkpoint => Ok(Plan::Checkpoint),
        Logical::CreateIndex { name, table, method, field } => Ok(
            Plan::CreateIndex { table, name, method, field },
        ),
        Logical::DropIndex { name, table } => Ok(Plan::DropIndex { table, name }),
    }
}

fn plan_delete(d: LogicalDelete) -> (r: Result<PhysicalPlan, KovaQueryError>)
    ensures
        agrees_as(r, planned_delete(d.table@, d.predicate@, opt_hint(d.single_id_hint))),
{
    let LogicalDelete { table, predicate, single_id_hint } = d;
    match single_id_hint {
        Some(IdHint::Literal(id)) => Ok(PhysicalPlan::DeleteById { table, id }),
        Some(IdHint::Param(id_param)) => Ok(PhysicalPlan::DeleteByParamId { table, id_param }),
        None => {
            if let Err(e) = reject_or_with_distance_threshold(&predicate) {
                return Err(e);
            }
            if let Some(e) = extract_radius_atom(&predicate) {
                return Ok(
                    PhysicalPlan::DeleteByRadius {
                        table,
                        query: e.query_param,
                        metric: e.metric,
                        radius: e.radius,
                        inclusive: e.inclusive,
                        post_filter: e.residue,
                    },
                );
            }
            if predicate_has_distance_threshold(&predicate) {
                return Err(
                    KovaQueryError::Plan(
                        "DELETE WHERE <distance-threshold> isn't supported ; distance predicates need the radius operator, not the metadata scan".to_owned(),
                    ),
                );
            }
            Ok(PhysicalPlan::DeleteByPredicate { table, predicate })
        },
    }
}

fn plan_update(u: LogicalUpdate) -> (r: Result<PhysicalPlan, KovaQueryError>)
    ensures
        agrees_as(
            r,
            planned_update(
                u.table@,
                u.predicate@,
                views(u.assignments@),
                opt_hint(u.single_id_hint),
            ),
        ),
{
    let LogicalUpdate { table, predicate, assignments, single_id_hint } = u;
    match single_id_hint {
        Some(IdHint::Literal(id)) => Ok(PhysicalPlan::UpdateById { table, id, assignments }),
        Some(IdHint::Param(id_param)) => Ok(
            PhysicalPlan::UpdateByParamId { table, id_param, assignments },
        ),
        None => {
            if let Err(e) = reject_or_with_distance_threshold(&predicate) {
                return Err(e);
            }
            if let Some(e) = extract_radius_atom(&predicate) {
                return Ok(
                    PhysicalPlan::UpdateByRadius {
                        table,
                        query: e.query_param,
                        metric: e.metric,
                        radius: e.radius,
                        inclusive: e.inclusive,
                        post_filter: e.residue,
                        assignments,
                    },
                );
            }
            if predicate_has_distance_threshold(&predicate) {
                return Err(
                    KovaQueryError::Plan(
                        "UPDATE WHERE <distance-threshold> isn't supported ; distance predicates need the radius operator, not the metadata scan".to_owned(),
                    ),
                );
            }
            Ok(PhysicalPlan::UpdateByPredicate { table, predicate, assignments })
        },
    }
}

/// Build the physical plan for a statement, with `kind` the way to answer a
/// filtered kNN.
pub fn plan_statement(stmt: LogicalStatement, kind: PlanKind) -> (r: Result<
    PhysicalPlan,
    KovaQueryError,
>)
    ensures
        agrees_as(r, planned(stmt@, kind)),
{
    match stmt {
        LogicalStatement::Checkpoint => Ok(PhysicalPlan::Checkpoint),
        LogicalStatement::Vacuum(LogicalVacuum { table }) => Ok(PhysicalPlan::Vacuum { table }),
        LogicalStatement::Insert(LogicalInsert { table, rows }) => match rows {
            LogicalInsertSource::Single { id, embedding, metadata } => Ok(
                PhysicalPlan::InsertOne { table, id, embedding, metadata },
            ),
            LogicalInsertSource::Batch { param } => Ok(
                PhysicalPlan::InsertMany { table, batch: param },
            ),
        },
        LogicalStatement::Delete(d) => plan_delete(d),
        LogicalStatement::Update(u) => plan_update(u),
        LogicalStatement::Query(q) => plan_query(q, kind),
        LogicalStatement::CreateIndex(LogicalCreateIndex { name, table, method, field }) => Ok(
            PhysicalPlan::CreateIndex { table, name, method, field },
        ),
        LogicalStatement::DropIndex(LogicalDropIndex { name, table }) => Ok(
            PhysicalPlan::DropIndex { table, name },
        ),
    }
}

// ----- Estimates -----

/// The filter and the limit of a filtered kNN query: the one kind of
/// statement that is planned by estimate.
pub open spec fn filtered_knn(l: Logical) -> Option<(Cond, u64)> {
    match l {
        Logical::Query(q) => if count_name(q.projection) is None && knn_key(q.ordering) is Some {
            match (q.predicate, q.limit) {
                (Some(p), Some(n)) => Some((p, n)),
                _ => None,
            }
        } else {
            None
        },
        _ => None,
    }
}

/// The filter of a filtered kNN query, and how many rows it asks for.
pub fn find_filtered_knn(stmt: &LogicalStatement) -> (r: Option<(&PredicateExpr, usize)>)
    ensures
        r is Some <==> filtered_knn(stmt@) is Some,
        r matches Some((p, k)) ==> *stmt is Query && stmt->Query_0.predicate == Some(*p) && p@
            == filtered_knn(stmt@)->Some_0.0 && k == row_count(filtered_knn(stmt@)->Some_0.1),
{
    match stmt {
        LogicalStatement::Query(q) => {
            if solo_count_star_name(&q.projection).is_some() || find_knn_key(
                &q.ordering,
            ).is_none() {
                return None;
            }
            match (&q.predicate, q.limit) {
                (Some(p), Some(limit)) => Some((p, exec_row_count(limit))),
                _ => None,
            }
        },
        _ => None,
    }
}

pub open spec fn workload(e: SelectivityEstimate, k: usize, dim: usize) -> Workload {
    Workload { matches: e.matches, user_k: k, total_rows: e.total, dim }
}

/// Pick the physical plan for a [`LogicalStatement`], driving the choice for
/// a filtered kNN query with a [`SelectivityEstimator`]: its estimate for the
/// query's filter and its costs for the workload at hand.
pub fn plan_with_estimator<E: SelectivityEstimator>(
    stmt: LogicalStatement,
    estimator: &E,
    params: &ParamBindings,
) -> (r: Result<PhysicalPlan, KovaQueryError>)
    ensures
        match filtered_knn(stmt@) {
            None => forall|kind: PlanKind| agrees_as(r, #[trigger] planned(stmt@, kind)),
            Some((_, limit)) => exists|e: SelectivityEstimate, dim: usize, costs: PlanCosts|
                call_ensures(
                    E::estimate,
                    (estimator, &stmt->Query_0.predicate->Some_0, params),
                    e,
                ) && call_ensures(E::dim, (estimator,), dim) && call_ensures(
                    E::plan_costs,
                    (estimator, workload(e, row_count(limit), dim)),
                    costs,
                ) && agrees_as(
                    r,
                    #[trigger] planned(
                        stmt@,
                        chosen(workload(e, row_count(limit), dim), costs),
                    ),
                ),
        },
{
    match find_filtered_knn(&stmt) {
        Some((pred, user_k)) => {
            let e: SelectivityEstimate = estimator.estimate(pred, params);
            let dim: usize = estimator.dim();
            let w: Workload = Workload { matches: e.matches, user_k, total_rows: e.total, dim };
            let costs: PlanCosts = estimator.plan_costs(w);
            let kind: PlanKind = choose_plan(&w, &costs);
            assert(w == workload(e, row_count(filtered_knn(stmt@)->Some_0.1), dim));
            plan_statement(stmt, kind)
        },
        None => {
            assert forall|kind: PlanKind| #[trigger]
                planned(stmt@, kind) == planned(stmt@, PlanKind::A) by {
                law_estimates_decide_filtered_knn_only(stmt@, kind, PlanKind::A);
            }
            plan_statement(stmt, PlanKind::A)
        },
    }
}

/// How filtered kNN queries are answered changes the plan of no other
/// statement.
pub proof fn law_estimates_decide_filtered_knn_only(l: Logical, k1: PlanKind, k2: PlanKind)
    requires
        filtered_knn(l) is None,
    ensures
        planned(l, k1) == planned(l, k2),
{
}

} // verus!
