//! Runs a [`PhysicalPlan`] against a shard.
//!
//! [`start`] and [`resume`] make every decision; what is asked of the shard
//! in between is in [`crate::steps`].

use crate::assign::{applied, apply_assignments};
use crate::ast::{views, AstStatement, ParamRef};
use crate::binder::{bind, bound};
use crate::cost::{chosen, PlanCosts, PlanKind};
use crate::error::{Failure, KovaQueryError};
use crate::eval::{agrees, agrees_all, agrees_as};
use crate::index_eval::{
    answer_sets, asks, lookups, reduced, try_index_eval, IndexEval, Lookup, Reduced,
};
use crate::keyword::{eq_ignore_case, same_ignoring_case};
use crate::logical::{
    opt_cond, Column, Cond, Logical, LogicalAssignment, LogicalStatement, PredicateExpr,
    ProjectionSpec,
};
use crate::params::{
    arg_kind, copy_rows, param_value_kind, resolve_arg, Arg, Bindings, NewRow, NewRowModel, Vector,
};
use crate::parser::{parse_str, parse_text, syntax_error};
use crate::physical::{Ball, PhysicalPlan, Plan};
use crate::planner::{
    filtered_knn, plan_with_estimator, planned, row_count, workload, SelectivityEstimate,
    SelectivityEstimator,
};
use crate::rows::{
    grid, headers, project_hits, projection_column_names, Cell, Hit, InternalHit, Outcome,
};
use crate::select::{
    by_distance, first, hit_passes, keep_hits, kept, measured, nearest_hits, passes,
};
use crate::steps::{
    opt_bags, Aim, Answer, Goal, Next, Pending, Phase, Read, Reading, Reply, Request, Stage, Step,
    StoredRow, StoredRowModel, Wait, Want,
};
use crate::syntax::{Assign, Param};
use crate::text::{numeral, push_numeral};
use crate::treemap::{count, id_list, ids, treemap_ids};
use crate::value::{lemma_value_model, Bag, Metadata, Val, Value};
use roaring::RoaringTreemap;
use vstd::prelude::*;

pub use crate::params::{ParamBindings, ParamValue};
pub use crate::rows::{ExecutionResult, Row, RowValue};

verus! {

// ----- Tables -----

/// Only the engine's own table can be named, in any case.
pub open spec fn table_error(name: Seq<char>, table: Seq<char>) -> Option<Failure> {
    if same_ignoring_case(name, table) {
        None
    } else {
        Some(
            Failure::Execution(
                "unknown table '"@ + name + "' ; this engine is wrapping '"@ + table + "'"@,
            ),
        )
    }
}

/// Validate that a statement-supplied table name is `table`, in any case.
fn check_table(name: &str, table: &str) -> (r: Result<(), KovaQueryError>)
    ensures
        match table_error(name@, table@) {
            None => r is Ok,
            Some(e) => r is Err && r->Err_0@ == e,
        },
{
    if eq_ignore_case(name, table) {
        Ok(())
    } else {
        let mut m: String = "unknown table '".to_owned();
        m.append(name);
        m.append("' ; this engine is wrapping '");
        m.append(table);
        m.append("'");
        Err(KovaQueryError::Execution(m))
    }
}

// ----- Parameters -----

/// The error for a parameter of the wrong kind.
pub open spec fn wrong_kind(slot: Seq<char>, kind: Seq<char>, a: Arg) -> Failure {
    Failure::Execution(
        "parameter slot '"@ + slot + "' expects "@ + kind + ", got "@ + arg_kind(a),
    )
}

fn wrong_kind_error(slot: &str, kind: &str, value: &ParamValue) -> (r: KovaQueryError)
    ensures
        r@ == wrong_kind(slot@, kind@, value@),
{
    let mut m: String = "parameter slot '".to_owned();
    m.append(slot);
    m.append("' expects ");
    m.append(kind);
    m.append(", got ");
    m.append(param_value_kind(value));
    KovaQueryError::Execution(m)
}

/// An id, for the slot named.
pub open spec fn as_id(a: Arg, slot: Seq<char>) -> Result<u64, Failure> {
    match a {
        Arg::Id(id) => Ok(id),
        _ => Err(wrong_kind(slot, "Id"@, a)),
    }
}

/// A vector, for the slot named.
pub open spec fn as_vector(a: Arg, slot: Seq<char>) -> Result<Seq<u32>, Failure> {
    match a {
        Arg::Vector(v) => Ok(v),
        _ => Err(wrong_kind(slot, "Vector"@, a)),
    }
}

/// A metadata bag, for the slot named.
pub open spec fn as_metadata(a: Arg, slot: Seq<char>) -> Result<Bag, Failure> {
    match a {
        Arg::Metadata(m) => Ok(m),
        _ => Err(wrong_kind(slot, "Metadata"@, a)),
    }
}

/// A batch of rows, for the slot named.
pub open spec fn as_batch(a: Arg, slot: Seq<char>) -> Result<Seq<NewRowModel>, Failure> {
    match a {
        Arg::Batch(rows) => Ok(rows),
        _ => Err(wrong_kind(slot, "Batch"@, a)),
    }
}

/// Extract an id from a resolved parameter value.
pub fn expect_id(value: &ParamValue, slot: &str) -> (r: Result<u64, KovaQueryError>)
    ensures
        agrees(r, as_id(value@, slot@)),
{
    match value {
        ParamValue::Id(id) => Ok(*id),
        other => Err(wrong_kind_error(slot, "Id", other)),
    }
}

/// Extract a vector from a resolved parameter value.
pub fn expect_vector(value: &ParamValue, slot: &str) -> (r: Result<Vector, KovaQueryError>)
    ensures
        agrees_as(r, as_vector(value@, slot@)),
{
    match value {
        ParamValue::Vector(v) => Ok(v.copy()),
        other => Err(wrong_kind_error(slot, "Vector", other)),
    }
}

/// Extract a metadata bag from a resolved parameter value.
pub fn expect_metadata(value: &ParamValue, slot: &str) -> (r: Result<Metadata, KovaQueryError>)
    ensures
        agrees_as(r, as_metadata(value@, slot@)),
{
    match value {
        ParamValue::Metadata(m) => Ok(m.copy()),
        other => Err(wrong_kind_error(slot, "Metadata", other)),
    }
}

/// Extract a batch of rows from a resolved parameter value.
pub fn expect_batch(value: &ParamValue, slot: &str) -> (r: Result<Vec<NewRow>, KovaQueryError>)
    ensures
        agrees_all(r, as_batch(value@, slot@)),
{
    match value {
        ParamValue::Batch(rows) => Ok(copy_rows(rows)),
        other => Err(wrong_kind_error(slot, "Batch", other)),
    }
}

/// The id that a slot is bound to.
pub open spec fn id_arg(b: Bindings, p: Param, slot: Seq<char>) -> Result<u64, Failure> {
    match resolve_arg(b, p) {
        Ok(a) => as_id(a, slot),
        Err(e) => Err(e),
    }
}

/// The vector that a slot is bound to.
pub open spec fn vector_arg(b: Bindings, p: Param, slot: Seq<char>) -> Result<Seq<u32>, Failure> {
    match resolve_arg(b, p) {
        Ok(a) => as_vector(a, slot),
        Err(e) => Err(e),
    }
}

/// The metadata bag that a slot is bound to.
pub open spec fn metadata_arg(b: Bindings, p: Param, slot: Seq<char>) -> Result<Bag, Failure> {
    match resolve_arg(b, p) {
        Ok(a) => as_metadata(a, slot),
        Err(e) => Err(e),
    }
}

/// The batch that a slot is bound to.
pub open spec fn batch_arg(b: Bindings, p: Param, slot: Seq<char>) -> Result<
    Seq<NewRowModel>,
    Failure,
> {
    match resolve_arg(b, p) {
        Ok(a) => as_batch(a, slot),
        Err(e) => Err(e),
    }
}

fn bound_id(params: &ParamBindings, p: &ParamRef, slot: &str) -> (r: Result<u64, KovaQueryError>)
    ensures
        agrees(r, id_arg(params@, p@, slot@)),
{
    match params.resolve(p) {
        Ok(v) => expect_id(v, slot),
        Err(e) => Err(e),
    }
}

fn bound_vector(params: &ParamBindings, p: &ParamRef, slot: &str) -> (r: Result<
    Vector,
    KovaQueryError,
>)
    ensures
        agrees_as(r, vector_arg(params@, p@, slot@)),
{
    match params.resolve(p) {
        Ok(v) => expect_vector(v, slot),
        Err(e) => Err(e),
    }
}

// ----- Operators -----

/// The name of an operator.
pub open spec fn kind_name(p: Plan) -> Seq<char> {
    match p {
        Plan::Checkpoint => "Checkpoint"@,
        Plan::Vacuum { .. } => "Vacuum"@,
        Plan::InsertOne { .. } => "InsertOne"@,
        Plan::InsertMany { .. } => "InsertMany"@,
        Plan::DeleteById { .. } => "DeleteById"@,
        Plan::DeleteByParamId { .. } => "DeleteByParamId"@,
        Plan::DeleteByRadius { .. } => "DeleteByRadius"@,
        Plan::DeleteByPredicate { .. } => "DeleteByPredicate"@,
        Plan::UpdateById { .. } => "UpdateById"@,
        Plan::UpdateByParamId { .. } => "UpdateByParamId"@,
        Plan::UpdateByRadius { .. } => "UpdateByRadius"@,
        Plan::UpdateByPredicate { .. } => "UpdateByPredicate"@,
        Plan::CreateIndex { .. } => "CreateIndex"@,
        Plan::DropIndex { .. } => "DropIndex"@,
        Plan::KnnSearch { .. } => "KnnSearch"@,
        Plan::FilteredKnnSearch { .. } => "FilteredKnnSearch"@,
        Plan::RadiusSearch { .. } => "RadiusSearch"@,
        Plan::MetadataScan { .. } => "MetadataScan"@,
        Plan::ExactDistance { .. } => "ExactDistance"@,
        Plan::Limit { .. } => "Limit"@,
        Plan::Projection { .. } => "Projection"@,
        Plan::Count { .. } => "Count"@,
    }
}

/// Static label for a [`PhysicalPlan`] variant; used in error messages when
/// an operator shows up at the wrong place.
pub fn physical_kind(plan: &PhysicalPlan) -> (r: &'static str)
    ensures
        r@ == kind_name(plan@),
{
    match plan {
        PhysicalPlan::Checkpoint => "Checkpoint",
        PhysicalPlan::Vacuum { .. } => "Vacuum",
        PhysicalPlan::CreateIndex { .. } => "CreateIndex",
        PhysicalPlan::DropIndex { .. } => "DropIndex",
        PhysicalPlan::InsertOne { .. } => "InsertOne",
        PhysicalPlan::InsertMany { .. } => "InsertMany",
        PhysicalPlan::DeleteById { .. } => "DeleteById",
        PhysicalPlan::DeleteByParamId { .. } => "DeleteByParamId",
        PhysicalPlan::DeleteByPredicate { .. } => "DeleteByPredicate",
        PhysicalPlan::DeleteByRadius { .. } => "DeleteByRadius",
        PhysicalPlan::UpdateById { .. } => "UpdateById",
        PhysicalPlan::UpdateByParamId { .. } => "UpdateByParamId",
        PhysicalPlan::UpdateByPredicate { .. } => "UpdateByPredicate",
        PhysicalPlan::UpdateByRadius { .. } => "UpdateByRadius",
        PhysicalPlan::KnnSearch { .. } => "KnnSearch",
        PhysicalPlan::Limit { .. } => "Limit",
        PhysicalPlan::Projection { .. } => "Projection",
        PhysicalPlan::MetadataScan { .. } => "MetadataScan",
        PhysicalPlan::ExactDistance { .. } => "ExactDistance",
        PhysicalPlan::Count { .. } => "Count",
        PhysicalPlan::RadiusSearch { .. } => "RadiusSearch",
        PhysicalPlan::FilteredKnnSearch { .. } => "FilteredKnnSearch",
    }
}

// ----- Starting -----

pub open spec fn ask(want: Want, wait: Wait) -> Result<Next, Failure> {
    Ok(Next::Ask(want, wait))
}

/// `next`, if the statement names the engine's table.
pub open spec fn on_table(
    name: Seq<char>,
    table: Seq<char>,
    next: Result<Next, Failure>,
) -> Result<Next, Failure> {
    match table_error(name, table) {
        Some(e) => Err(e),
        None => next,
    }
}

/// Selecting rows by a predicate starts with the indexes.
pub open spec fn select_rows(predicate: Cond, aim: Aim, b: Bindings) -> Result<Next, Failure> {
    ask(Want::Lookup(asks(predicate, b)), Wait::Lookup { predicate, aim })
}

/// Where rows are too far to be in the ball; a search itself includes rows at
/// the radius.
pub open spec fn bound_of(ball: Ball) -> Option<u32> {
    if ball.inclusive {
        None
    } else {
        Some(ball.radius)
    }
}

/// Selecting rows by distance starts with a radius search.
pub open spec fn select_ball(ball: Ball, wait: Wait, b: Bindings) -> Result<Next, Failure> {
    match vector_arg(b, ball.query.param, "query"@) {
        Err(e) => Err(e),
        Ok(query) => ask(Want::SearchRadius { query, radius: ball.radius }, wait),
    }
}

/// How the rows of a read operator are come by.
pub open spec fn read_started(
    p: Plan,
    stages: Seq<Phase>,
    columns: Seq<Column>,
    b: Bindings,
    table: Seq<char>,
) -> Result<Next, Failure>
    decreases p,
{
    let reading = Reading { stages, columns };
    match p {
        Plan::Limit { input, limit } => read_started(
            *input,
            stages.push(Phase::Limit(limit)),
            columns,
            b,
            table,
        ),
        Plan::ExactDistance { input, query, k } => read_started(
            *input,
            stages.push(Phase::ExactDistance { query: query.param, k }),
            columns,
            b,
            table,
        ),
        Plan::KnnSearch { table: name, query, k, post_filter } => on_table(
            name,
            table,
            match vector_arg(b, query.param, "query"@) {
                Err(e) => Err(e),
                Ok(query) => ask(
                    Want::Search { query, k },
                    Wait::Hits { beyond: None, filter: post_filter, aim: Aim::Read(reading) },
                ),
            },
        ),
        Plan::FilteredKnnSearch { table: name, query, k, filter } => on_table(
            name,
            table,
            match vector_arg(b, query.param, "query"@) {
                Err(e) => Err(e),
                Ok(query) => ask(
                    Want::SearchFiltered { query, k, filter },
                    Wait::FilteredHits { reading },
                ),
            },
        ),
        Plan::RadiusSearch { table: name, ball } => on_table(
            name,
            table,
            select_ball(
                ball,
                Wait::Hits {
                    beyond: bound_of(ball),
                    filter: ball.post_filter,
                    aim: Aim::Read(reading),
                },
                b,
            ),
        ),
        Plan::MetadataScan { table: name, predicate } => on_table(
            name,
            table,
            select_rows(predicate, Aim::Read(reading), b),
        ),
        _ => Err(Failure::Plan(kind_name(p) + " is not a read-path operator"@)),
    }
}

/// How a plan starts, on the engine's `table`.
pub open spec fn started(p: Plan, b: Bindings, table: Seq<char>) -> Result<Next, Failure> {
    match p {
        Plan::Checkpoint => ask(Want::Checkpoint, Wait::Checkpoint),
        Plan::Vacuum { table: name } => on_table(
            name,
            table,
            ask(Want::Vacuum, Wait::Vacuum { table: name }),
        ),
        Plan::CreateIndex { table: t, name, method, field } => on_table(
            t,
            table,
            ask(Want::CreateIndex { name, field, method }, Wait::CreateIndex { table: t, name }),
        ),
        Plan::DropIndex { table: t, name } => on_table(
            t,
            table,
            ask(Want::DropIndex { name }, Wait::DropIndex { table: t, name }),
        ),
        Plan::InsertOne { table: name, id, embedding, metadata } => on_table(
            name,
            table,
            match (
                id_arg(b, id, "id"@),
                vector_arg(b, embedding, "embedding"@),
                metadata_arg(b, metadata, "metadata"@),
            ) {
                (Err(e), _, _) => Err(e),
                (Ok(_), Err(e), _) => Err(e),
                (Ok(_), Ok(_), Err(e)) => Err(e),
                (Ok(id), Ok(embedding), Ok(metadata)) => ask(
                    Want::Insert(NewRowModel { id, embedding, metadata }),
                    Wait::Insert { table: name, inserted: 1 },
                ),
            },
        ),
        Plan::InsertMany { table: name, batch } => on_table(
            name,
            table,
            match batch_arg(b, batch, "batch"@) {
                Err(e) => Err(e),
                Ok(rows) => ask(
                    Want::InsertMany(rows),
                    Wait::Insert { table: name, inserted: rows.len() as u64 },
                ),
            },
        ),
        Plan::DeleteById { table: name, id } => on_table(
            name,
            table,
            ask(Want::Delete(id), Wait::Delete { table: name }),
        ),
        Plan::DeleteByParamId { table: name, id_param } => on_table(
            name,
            table,
            match id_arg(b, id_param, "id"@) {
                Err(e) => Err(e),
                Ok(id) => ask(Want::Delete(id), Wait::Delete { table: name }),
            },
        ),
        Plan::DeleteByPredicate { table: name, predicate } => on_table(
            name,
            table,
            select_rows(predicate, Aim::Delete { table: name }, b),
        ),
        Plan::DeleteByRadius { table: name, ball } => on_table(
            name,
            table,
            select_ball(
                ball,
                Wait::Hits {
                    beyond: bound_of(ball),
                    filter: ball.post_filter,
                    aim: Aim::Delete { table: name },
                },
                b,
            ),
        ),
        Plan::UpdateById { table: name, id, assignments } => on_table(
            name,
            table,
            ask(Want::GetMetadata(seq![id]), Wait::Target { table: name, id, assignments }),
        ),
        Plan::UpdateByParamId { table: name, id_param, assignments } => match id_arg(
            b,
            id_param,
            "id"@,
        ) {
            Err(e) => Err(e),
            Ok(id) => on_table(
                name,
                table,
                ask(Want::GetMetadata(seq![id]), Wait::Target { table: name, id, assignments }),
            ),
        },
        Plan::UpdateByPredicate { table: name, predicate, assignments } => on_table(
            name,
            table,
            select_rows(predicate, Aim::Update { table: name, assignments }, b),
        ),
        Plan::UpdateByRadius { table: name, ball, assignments } => on_table(
            name,
            table,
            select_ball(
                ball,
                Wait::UpdateHits {
                    beyond: bound_of(ball),
                    filter: ball.post_filter,
                    table: name,
                    assignments,
                },
                b,
            ),
        ),
        Plan::Projection { input, columns } => read_started(
            *input,
            Seq::empty(),
            columns,
            b,
            table,
        ),
        Plan::Count { table: name, predicate, column_name } => on_table(
            name,
            table,
            match predicate {
                None => ask(Want::Len, Wait::Len { column_name }),
                Some(p) => select_rows(p, Aim::Count { column_name }, b),
            },
        ),
        _ => Err(
            Failure::Plan("read-path operator at top level ; planner must wrap in Projection"@),
        ),
    }
}

fn start_selection(predicate: PredicateExpr, goal: Goal, params: &ParamBindings) -> (r: Result<
    Step,
    KovaQueryError,
>)
    ensures
        agrees_as(r, select_rows(predicate@, goal@, params@)),
{
    let questions: Vec<Lookup> = lookups(&predicate, params);
    Ok(Step::Ask(Request::Lookup(questions), Pending::Lookup { predicate, goal }))
}

fn start_ball(query: &ParamRef, radius: u32, pending: Pending, params: &ParamBindings) -> (r:
    Result<Step, KovaQueryError>)
    ensures
        agrees_as(
            r,
            match vector_arg(params@, query@, "query"@) {
                Err(e) => Err(e),
                Ok(query) => ask(Want::SearchRadius { query, radius }, pending@),
            },
        ),
{
    match bound_vector(params, query, "query") {
        Err(e) => Err(e),
        Ok(query) => Ok(Step::Ask(Request::SearchRadius { query, radius }, pending)),
    }
}

fn exec_bound_of(radius: u32, inclusive: bool) -> (r: Option<u32>)
    ensures
        r == if inclusive {
            None
        } else {
            Some(radius)
        },
{
    if inclusive {
        None
    } else {
        Some(radius)
    }
}

fn start_read(
    plan: PhysicalPlan,
    stages: Vec<Stage>,
    spec: ProjectionSpec,
    params: &ParamBindings,
    engine_table: &str,
) -> (r: Result<Step, KovaQueryError>)
    ensures
        agrees_as(
            r,
            read_started(plan@, views(stages@), spec@, params@, engine_table@),
        ),
    decreases plan,
{
    let mut stages = stages;
    let ghost before = stages@;
    match plan {
        PhysicalPlan::Limit { input, limit } => {
            stages.push(Stage::Limit(limit));
            assert(views(stages@) =~= views(before).push(Phase::Limit(limit)));
            start_read(*input, stages, spec, params, engine_table)
        },
        PhysicalPlan::ExactDistance { input, query, metric: _, k } => {
            let ghost q = query@;
            stages.push(Stage::ExactDistance { query, k });
            assert(views(stages@) =~= views(before).push(Phase::ExactDistance { query: q, k }));
            start_read(*input, stages, spec, params, engine_table)
        },
        PhysicalPlan::KnnSearch { table, query, metric: _, k, post_filter } => {
            check_table(table.as_str(), engine_table)?;
            let query: Vector = bound_vector(params, &query, "query")?;
            Ok(
                Step::Ask(
                    Request::Search { query, k },
                    Pending::Hits {
                        beyond: None,
                        filter: post_filter,
                        goal: Goal::Read(Read { stages, spec }),
                    },
                ),
            )
        },
        PhysicalPlan::FilteredKnnSearch { table, query, metric: _, k, filter } => {
            check_table(table.as_str(), engine_table)?;
            let query: Vector = bound_vector(params, &query, "query")?;
            Ok(
                Step::Ask(
                    Request::SearchFiltered { query, k, filter },
                    Pending::FilteredHits { read: Read { stages, spec } },
                ),
            )
        },
        PhysicalPlan::RadiusSearch { table, query, metric: _, radius, inclusive, post_filter } => {
            check_table(table.as_str(), engine_table)?;
            let pending: Pending = Pending::Hits {
                beyond: exec_bound_of(radius, inclusive),
                filter: post_filter,
                goal: Goal::Read(Read { stages, spec }),
            };
            start_ball(&query, radius, pending, params)
        },
        PhysicalPlan::MetadataScan { table, predicate } => {
            check_table(table.as_str(), engine_table)?;
            start_selection(predicate, Goal::Read(Read { stages, spec }), params)
        },
        other => {
            let mut m: String = physical_kind(&other).to_owned();
            m.append(" is not a read-path operator");
            Err(KovaQueryError::Plan(m))
        },
    }
}

/// Start a [`PhysicalPlan`] on the engine's table: what to ask of the shard
/// first.
pub fn start(plan: PhysicalPlan, params: &ParamBindings, engine_table: &str) -> (r: Result<
    Step,
    KovaQueryError,
>)
    ensures
        agrees_as(r, started(plan@, params@, engine_table@)),
{
    match plan {
        PhysicalPlan::Checkpoint => Ok(Step::Ask(Request::Checkpoint, Pending::Checkpoint)),
        PhysicalPlan::Vacuum { table } => {
            check_table(table.as_str(), engine_table)?;
            Ok(Step::Ask(Request::Vacuum, Pending::Vacuum { table }))
        },
        PhysicalPlan::CreateIndex { table, name, method, field } => {
            check_table(table.as_str(), engine_table)?;
            let request: Request = Request::CreateIndex { name: name.clone(), field, method };
            Ok(Step::Ask(request, Pending::CreateIndex { table, name }))
        },
        PhysicalPlan::DropIndex { table, name } => {
            check_table(table.as_str(), engine_table)?;
            let request: Request = Request::DropIndex { name: name.clone() };
            Ok(Step::Ask(request, Pending::DropIndex { table, name }))
        },
        PhysicalPlan::InsertOne { table, id, embedding, metadata } => {
            check_table(table.as_str(), engine_table)?;
            start_insert_one(table, &id, &embedding, &metadata, params)
        },
        PhysicalPlan::InsertMany { table, batch } => {
            check_table(table.as_str(), engine_table)?;
            let rows: Vec<NewRow> = expect_batch(params.resolve(&batch)?, "batch")?;
            let inserted: u64 = rows.len() as u64;
            Ok(Step::Ask(Request::InsertMany(rows), Pending::Insert { table, inserted }))
        },
        PhysicalPlan::DeleteById { table, id } => {
            check_table(table.as_str(), engine_table)?;
            Ok(Step::Ask(Request::Delete(id), Pending::Delete { table }))
        },
        PhysicalPlan::DeleteByParamId { table, id_param } => {
            check_table(table.as_str(), engine_table)?;
            let id: u64 = bound_id(params, &id_param, "id")?;
            Ok(Step::Ask(Request::Delete(id), Pending::Delete { table }))
        },
        PhysicalPlan::DeleteByPredicate { table, predicate } => {
            check_table(table.as_str(), engine_table)?;
            start_selection(predicate, Goal::Delete { table }, params)
        },
        PhysicalPlan::DeleteByRadius { table, query, metric: _, radius, inclusive, post_filter } =>
        {
            check_table(table.as_str(), engine_table)?;
            let pending: Pending = Pending::Hits {
                beyond: exec_bound_of(radius, inclusive),
                filter: post_filter,
                goal: Goal::Delete { table },
            };
            start_ball(&query, radius, pending, params)
        },
        PhysicalPlan::UpdateById { table, id, assignments } => {
            check_table(table.as_str(), engine_table)?;
            Ok(start_update_of(table, id, assignments))
        },
        PhysicalPlan::UpdateByParamId { table, id_param, assignments } => {
            let id: u64 = bound_id(params, &id_param, "id")?;
            check_table(table.as_str(), engine_table)?;
            Ok(start_update_of(table, id, assignments))
        },
        PhysicalPlan::UpdateByPredicate { table, predicate, assignments } => {
            check_table(table.as_str(), engine_table)?;
            start_selection(predicate, Goal::Update { table, assignments }, params)
        },
        PhysicalPlan::UpdateByRadius {
            table,
            query,
            metric: _,
            radius,
            inclusive,
            post_filter,
            assignments,
        } => {
            check_table(table.as_str(), engine_table)?;
            let pending: Pending = Pending::UpdateHits {
                beyond: exec_bound_of(radius, inclusive),
                filter: post_filter,
                table,
                assignments,
            };
            start_ball(&query, radius, pending, params)
        },
        PhysicalPlan::Projection { input, spec } => {
            let stages: Vec<Stage> = Vec::new();
            assert(views(stages@) =~= Seq::empty());
            start_read(*input, stages, spec, params, engine_table)
        },
        PhysicalPlan::Count { table, predicate, column_name } => {
            check_table(table.as_str(), engine_table)?;
            match predicate {
                None => Ok(Step::Ask(Request::Len, Pending::Len { column_name })),
                Some(p) => start_selection(p, Goal::Count { column_name }, params),
            }
        },
        _ => Err(
            KovaQueryError::Plan(
                "read-path operator at top level ; planner must wrap in Projection".to_owned(),
            ),
        ),
    }
}

/// Single-row INSERT: resolve the three parameter slots into one row.
fn start_insert_one(
    table: String,
    id_ref: &ParamRef,
    emb_ref: &ParamRef,
    meta_ref: &ParamRef,
    params: &ParamBindings,
) -> (r: Result<Step, KovaQueryError>)
    ensures
        agrees_as(
            r,
            match (
                id_arg(params@, id_ref@, "id"@),
                vector_arg(params@, emb_ref@, "embedding"@),
                metadata_arg(params@, meta_ref@, "metadata"@),
            ) {
                (Err(e), _, _) => Err(e),
                (Ok(_), Err(e), _) => Err(e),
                (Ok(_), Ok(_), Err(e)) => Err(e),
                (Ok(id), Ok(embedding), Ok(metadata)) => ask(
                    Want::Insert(NewRowModel { id, embedding, metadata }),
                    Wait::Insert { table: table@, inserted: 1 },
                ),
            },
        ),
{
    let id: u64 = bound_id(params, id_ref, "id")?;
    let embedding: Vector = bound_vector(params, emb_ref, "embedding")?;
    let metadata: Metadata = expect_metadata(params.resolve(meta_ref)?, "metadata")?;
    Ok(
        Step::Ask(
            Request::Insert(NewRow { id, embedding, metadata }),
            Pending::Insert { table, inserted: 1 },
        ),
    )
}

fn start_update_of(table: String, id: u64, assignments: Vec<LogicalAssignment>) -> (r: Step)
    ensures
        r@ == Next::Ask(
            Want::GetMetadata(seq![id]),
            Wait::Target { table: table@, id, assignments: views(assignments@) },
        ),
{
    let wanted: Vec<u64> = vec![id];
    assert(wanted@ =~= seq![id]);
    Step::Ask(Request::GetMetadata(wanted), Pending::Target { table, id, assignments })
}

// ----- Going on -----

/// The error for a reply that does not answer the request.
pub open spec fn unexpected() -> Failure {
    Failure::Execution("the shard's reply does not answer the request"@)
}

/// A count, as the one row of a result set.
pub open spec fn counted(n: int, column_name: Seq<char>) -> Outcome {
    Outcome::Rows {
        columns: seq![column_name],
        rows: seq![
            seq![
                Cell::Field(
                    Val::I64(
                        if n <= i64::MAX {
                            n as i64
                        } else {
                            i64::MAX
                        },
                    ),
                ),
            ],
        ],
    }
}

/// The ids of rows, in order.
pub open spec fn ids_of(hs: Seq<Hit>) -> Seq<u64> {
    hs.map_values(|h: Hit| h.id)
}

/// Where rows go that have been read: through the stages, the next one last,
/// up to one that needs the shard; then to the projection.
pub open spec fn read_on(r: Reading, hs: Seq<Hit>, b: Bindings) -> Result<Next, Failure>
    decreases r.stages.len(),
{
    if r.stages.len() == 0 {
        match grid(hs, r.columns) {
            Ok(rows) => Ok(Next::Done(Outcome::Rows { columns: headers(r.columns), rows })),
            Err(e) => Err(e),
        }
    } else {
        let rest = Reading { stages: r.stages.drop_last(), columns: r.columns };
        match r.stages.last() {
            Phase::Limit(n) => read_on(rest, first(hs, n as int), b),
            Phase::ExactDistance { query, k } => match vector_arg(b, query, "query"@) {
                Err(e) => Err(e),
                Ok(query) => ask(
                    Want::DistanceTo { query, ids: ids_of(hs) },
                    Wait::Distances { hits: hs, k, reading: rest },
                ),
            },
        }
    }
}

/// What is done with the rows that were selected.
pub open spec fn selected(aim: Aim, hs: Seq<Hit>, b: Bindings) -> Result<Next, Failure> {
    match aim {
        Aim::Read(r) => read_on(r, hs, b),
        Aim::Count { column_name } => Ok(Next::Done(counted(hs.len() as int, column_name))),
        Aim::Delete { table } => ask(Want::DeleteMany(ids_of(hs)), Wait::DeleteMany { table }),
        Aim::Update { table, assignments } => ask(
            Want::GetMetadata(ids_of(hs)),
            Wait::Targets { ids: ids_of(hs), table, assignments },
        ),
    }
}

/// What is done with the rows where the indexes answered in full.
pub open spec fn selected_by_index(aim: Aim, s: Set<u64>) -> Result<Next, Failure> {
    let ids = id_list(s);
    match aim {
        Aim::Read(_) => ask(
            Want::GetMetadata(ids),
            Wait::Candidates { ids, residue: None, aim },
        ),
        Aim::Count { column_name } => Ok(
            Next::Done(
                counted(
                    if s.len() <= usize::MAX {
                        s.len() as int
                    } else {
                        usize::MAX as int
                    },
                    column_name,
                ),
            ),
        ),
        Aim::Delete { table } => ask(Want::DeleteMany(ids), Wait::DeleteMany { table }),
        Aim::Update { table, assignments } => ask(
            Want::GetMetadata(ids),
            Wait::Targets { ids, table, assignments },
        ),
    }
}

/// The rows that are there, without distances.
pub open spec fn present(ids: Seq<u64>, bags: Seq<Option<Bag>>) -> Seq<Hit>
    decreases ids.len(),
{
    if ids.len() == 0 {
        Seq::empty()
    } else {
        let before = present(ids.drop_last(), bags);
        match bags[ids.len() - 1] {
            Some(bag) => before.push(Hit { id: ids.last(), distance: None, bag }),
            None => before,
        }
    }
}

/// Stored rows, without distances.
pub open spec fn unmeasured(rows: Seq<StoredRowModel>) -> Seq<Hit> {
    rows.map_values(|r: StoredRowModel| Hit { id: r.id, distance: None, bag: r.bag })
}

/// One row with its metadata rewritten.
pub open spec fn rewritten(id: u64, bag: Bag, assignments: Seq<Assign>, b: Bindings) -> Result<
    StoredRowModel,
    Failure,
> {
    match applied(bag, assignments, b) {
        (bag, None) => Ok(StoredRowModel { id, bag }),
        (_, Some(e)) => Err(e),
    }
}

/// An id, as error messages show it.
pub open spec fn shown(id: u64) -> Seq<char> {
    "VectorId("@ + numeral(id as nat) + ")"@
}

/// Rows with their metadata rewritten, or the first error. All of them have
/// to be there.
pub open spec fn all_rewritten(
    ids: Seq<u64>,
    bags: Seq<Option<Bag>>,
    assignments: Seq<Assign>,
    b: Bindings,
) -> Result<Seq<StoredRowModel>, Failure>
    decreases ids.len(),
{
    if ids.len() == 0 {
        Ok(Seq::empty())
    } else {
        match (all_rewritten(ids.drop_last(), bags, assignments, b), bags[ids.len() - 1]) {
            (Err(e), _) => Err(e),
            (Ok(_), None) => Err(
                Failure::Execution(
                    "id "@ + shown(ids.last())
                        + " disappeared from metadata store between scan and update"@,
                ),
            ),
            (Ok(before), Some(bag)) => match rewritten(ids.last(), bag, assignments, b) {
                Ok(row) => Ok(before.push(row)),
                Err(e) => Err(e),
            },
        }
    }
}

/// The rows of a search that are kept, with their metadata rewritten, or the
/// first error row by row.
pub open spec fn kept_rewritten(
    hs: Seq<Hit>,
    beyond: Option<u32>,
    filter: Option<Cond>,
    assignments: Seq<Assign>,
    b: Bindings,
) -> Result<Seq<StoredRowModel>, Failure>
    decreases hs.len(),
{
    if hs.len() == 0 {
        Ok(Seq::empty())
    } else {
        let h = hs.last();
        match (
            kept_rewritten(hs.drop_last(), beyond, filter, assignments, b),
            passes(h, beyond, filter, b),
        ) {
            (Err(e), _) => Err(e),
            (Ok(_), Err(e)) => Err(e),
            (Ok(before), Ok(false)) => Ok(before),
            (Ok(before), Ok(true)) => match rewritten(h.id, h.bag, assignments, b) {
                Ok(row) => Ok(before.push(row)),
                Err(e) => Err(e),
            },
        }
    }
}

/// Writing rewritten rows back.
pub open spec fn write_back(table: Seq<char>, rows: Result<Seq<StoredRowModel>, Failure>) -> Result<
    Next,
    Failure,
> {
    match rows {
        Ok(rows) => ask(Want::UpdateMetadata(rows), Wait::Update { table }),
        Err(e) => Err(e),
    }
}

/// What is done with rows of which some are kept.
pub open spec fn sift(
    hs: Seq<Hit>,
    beyond: Option<u32>,
    filter: Option<Cond>,
    aim: Aim,
    b: Bindings,
) -> Result<Next, Failure> {
    match kept(hs, beyond, filter, b) {
        Ok(hs) => selected(aim, hs, b),
        Err(e) => Err(e),
    }
}

/// What the indexes' answers lead to.
pub open spec fn looked_up(
    predicate: Cond,
    aim: Aim,
    answers: Seq<Option<Set<u64>>>,
    b: Bindings,
) -> Result<Next, Failure> {
    match reduced(predicate, answers, b) {
        Reduced::Full(s) => selected_by_index(aim, s),
        Reduced::Hybrid(s, residue) => ask(
            Want::GetMetadata(id_list(s)),
            Wait::Candidates { ids: id_list(s), residue: Some(residue), aim },
        ),
        Reduced::Fallback => ask(Want::ScanMetadata, Wait::Scan { predicate, aim }),
    }
}

/// How a plan goes on when the shard has answered.
pub open spec fn resumed(w: Wait, a: Answer, b: Bindings) -> Result<Next, Failure> {
    match (w, a) {
        (_, Answer::Failed(m)) => Err(Failure::Backend(m)),
        (Wait::Checkpoint, Answer::Lsn(lsn)) => Ok(Next::Done(Outcome::Checkpoint { lsn })),
        (Wait::Vacuum { table }, Answer::Count(removed)) => Ok(
            Next::Done(Outcome::Vacuum { table, removed }),
        ),
        (Wait::CreateIndex { table, name }, Answer::Done) => Ok(
            Next::Done(Outcome::CreateIndex { table, name }),
        ),
        (Wait::DropIndex { table, name }, Answer::Done) => Ok(
            Next::Done(Outcome::DropIndex { table, name }),
        ),
        (Wait::Insert { table, inserted }, Answer::Done) => Ok(
            Next::Done(Outcome::Insert { table, inserted }),
        ),
        (Wait::Delete { table }, Answer::Done) => Ok(
            Next::Done(Outcome::Delete { table, deleted: 1 }),
        ),
        (Wait::DeleteMany { table }, Answer::Count(n)) => Ok(
            Next::Done(Outcome::Delete { table, deleted: n as u64 }),
        ),
        (Wait::Update { table }, Answer::Count(n)) => Ok(
            Next::Done(Outcome::Update { table, updated: n as u64 }),
        ),
        (Wait::Target { table, id, assignments }, Answer::Metadata(bags)) => if bags.len() != 1 {
            Err(unexpected())
        } else {
            match bags[0] {
                None => Err(
                    Failure::Execution(
                        "UPDATE target id "@ + shown(id) + " not found in metadata store"@,
                    ),
                ),
                Some(bag) => write_back(
                    table,
                    match rewritten(id, bag, assignments, b) {
                        Ok(row) => Ok(seq![row]),
                        Err(e) => Err(e),
                    },
                ),
            }
        },
        (Wait::Len { column_name }, Answer::Count(n)) => Ok(
            Next::Done(counted(n as int, column_name)),
        ),
        (Wait::Lookup { predicate, aim }, Answer::Answers(answers)) => if answers.len() != asks(
            predicate,
            b,
        ).len() {
            Err(unexpected())
        } else {
            looked_up(predicate, aim, answers, b)
        },
        (Wait::Candidates { ids, residue, aim }, Answer::Metadata(bags)) => if bags.len()
            != ids.len() {
            Err(unexpected())
        } else {
            sift(present(ids, bags), None, residue, aim, b)
        },
        (Wait::Scan { predicate, aim }, Answer::Rows(rows)) => sift(
            unmeasured(rows),
            None,
            Some(predicate),
            aim,
            b,
        ),
        (Wait::Targets { ids, table, assignments }, Answer::Metadata(bags)) => if bags.len()
            != ids.len() {
            Err(unexpected())
        } else {
            write_back(table, all_rewritten(ids, bags, assignments, b))
        },
        (Wait::Hits { beyond, filter, aim }, Answer::Hits(hs)) => sift(hs, beyond, filter, aim, b),
        (Wait::UpdateHits { beyond, filter, table, assignments }, Answer::Hits(hs)) => write_back(
            table,
            kept_rewritten(hs, beyond, filter, assignments, b),
        ),
        (Wait::FilteredHits { reading }, Answer::FilteredHits { hits, error }) => match error {
            Some(e) => Err(e),
            None => read_on(reading, hits, b),
        },
        (Wait::Distances { hits, k, reading }, Answer::Distances(ds)) => if ds.len() != hits.len() {
            Err(unexpected())
        } else {
            read_on(reading, first(by_distance(measured(hits, ds)), k as int), b)
        },
        _ => Err(unexpected()),
    }
}

fn unexpected_reply() -> (r: KovaQueryError)
    ensures
        r@ == unexpected(),
{
    KovaQueryError::Execution("the shard's reply does not answer the request".to_owned())
}

/// COUNT(*): a one-row, one-column result.
fn count_result(n: usize, column_name: String) -> (r: ExecutionResult)
    ensures
        r@ == counted(n as int, column_name@),
{
    broadcast use lemma_value_model;

    let n64: u64 = n as u64;
    let capped: i64 = if n64 <= i64::MAX as u64 {
        n64 as i64
    } else {
        i64::MAX
    };
    let cell: RowValue = RowValue::Field(Value::I64(capped));
    let ghost c = cell@;
    let row: Row = Row { values: vec![cell] };
    let ghost cs = row@;
    assert(cs =~= seq![c]);
    let columns: Vec<String> = vec![column_name];
    let rows: Vec<Row> = vec![row];
    proof {
        assert(views(columns@) =~= seq![column_name@]);
        assert(views(rows@) =~= seq![cs]);
    }
    ExecutionResult::Rows { columns, rows }
}

fn hit_ids(hits: &Vec<InternalHit>) -> (r: Vec<u64>)
    ensures
        r@ == ids_of(views(hits@)),
{
    let ghost hs = views(hits@);
    let mut out: Vec<u64> = Vec::new();
    let mut i: usize = 0;
    while i < hits.len()
        invariant
            i <= hits.len(),
            hs == views(hits@),
            out@ =~= ids_of(hs).take(i as int),
        decreases hits.len() - i,
    {
        out.push(hits[i].id);
        i = i + 1;
    }
    assert(ids_of(hs).take(i as int) =~= ids_of(hs));
    out
}

/// Take rows through the stages, up to one that needs the shard, or to the
/// end.
fn continue_read(read: Read, hits: Vec<InternalHit>, params: &ParamBindings) -> (r: Result<
    Step,
    KovaQueryError,
>)
    ensures
        agrees_as(r, read_on(read@, views(hits@), params@)),
    decreases read.stages.len(),
{
    let Read { mut stages, spec } = read;
    let mut hits = hits;
    let ghost before = views(stages@);
    let ghost hs = views(hits@);
    match stages.pop() {
        None => {
            let rows: Vec<Row> = project_hits(&hits, &spec)?;
            let columns: Vec<String> = projection_column_names(&spec);
            Ok(Step::Done(ExecutionResult::Rows { columns, rows }))
        },
        Some(stage) => {
            proof {
                assert(views(stages@) =~= before.drop_last());
                assert(before.last() == stage@);
            }
            match stage {
                Stage::Limit(n) => {
                    if n < hits.len() as u64 {
                        let ghost all = hits@;
                        hits.truncate(n as usize);
                        assert(views(hits@) =~= views(all).take(n as int));
                    }
                    assert(views(hits@) == first(hs, n as int));
                    continue_read(Read { stages, spec }, hits, params)
                },
                Stage::ExactDistance { query, k } => {
                    let query: Vector = bound_vector(params, &query, "query")?;
                    let ids: Vec<u64> = hit_ids(&hits);
                    Ok(
                        Step::Ask(
                            Request::DistanceTo { query, ids },
                            Pending::Distances { hits, k, read: Read { stages, spec } },
                        ),
                    )
                },
            }
        },
    }
}

fn copy_ids(v: &Vec<u64>) -> (r: Vec<u64>)
    ensures
        r@ == v@,
{
    let mut out: Vec<u64> = Vec::new();
    let mut i: usize = 0;
    while i < v.len()
        invariant
            i <= v.len(),
            out@ =~= v@.take(i as int),
        decreases v.len() - i,
    {
        out.push(v[i]);
        i = i + 1;
    }
    assert(out@ =~= v@);
    out
}

/// Do with the rows that were selected what they were selected for.
fn use_selected(goal: Goal, hits: Vec<InternalHit>, params: &ParamBindings) -> (r: Result<
    Step,
    KovaQueryError,
>)
    ensures
        agrees_as(r, selected(goal@, views(hits@), params@)),
{
    match goal {
        Goal::Read(read) => continue_read(read, hits, params),
        Goal::Count { column_name } => Ok(Step::Done(count_result(hits.len(), column_name))),
        Goal::Delete { table } => Ok(
            Step::Ask(Request::DeleteMany(hit_ids(&hits)), Pending::DeleteMany { table }),
        ),
        Goal::Update { table, assignments } => {
            let ids: Vec<u64> = hit_ids(&hits);
            let wanted: Vec<u64> = copy_ids(&ids);
            Ok(
                Step::Ask(
                    Request::GetMetadata(wanted),
                    Pending::Targets { ids, table, assignments },
                ),
            )
        },
    }
}

/// Do the same where the indexes answered in full.
fn use_index(goal: Goal, bitmap: RoaringTreemap) -> (r: Result<Step, KovaQueryError>)
    ensures
        agrees_as(r, selected_by_index(goal@, treemap_ids(bitmap))),
{
    match goal {
        Goal::Read(read) => {
            let list: Vec<u64> = ids(&bitmap);
            let wanted: Vec<u64> = copy_ids(&list);
            Ok(
                Step::Ask(
                    Request::GetMetadata(wanted),
                    Pending::Candidates { ids: list, residue: None, goal: Goal::Read(read) },
                ),
            )
        },
        Goal::Count { column_name } => Ok(Step::Done(count_result(count(bitmap), column_name))),
        Goal::Delete { table } => Ok(
            Step::Ask(Request::DeleteMany(ids(&bitmap)), Pending::DeleteMany { table }),
        ),
        Goal::Update { table, assignments } => {
            let list: Vec<u64> = ids(&bitmap);
            let wanted: Vec<u64> = copy_ids(&list);
            Ok(
                Step::Ask(
                    Request::GetMetadata(wanted),
                    Pending::Targets { ids: list, table, assignments },
                ),
            )
        },
    }
}

/// Rows that are there become hits.
fn present_hits(list: &Vec<u64>, bags: Vec<Option<Metadata>>) -> (r: Vec<InternalHit>)
    requires
        bags.len() == list.len(),
    ensures
        views(r@) == present(list@, opt_bags(bags@)),
{
    let ghost all = bags@;
    let ghost models = opt_bags(bags@);
    let mut out: Vec<InternalHit> = Vec::new();
    let mut i: usize = 0;
    assert(views(out@) =~= Seq::empty());
    for bag in iter: bags.into_iter()
        invariant
            iter.seq() == all,
            all.len() == list.len(),
            models == opt_bags(all),
            i == iter.index(),
            views(out@) == present(list@.take(i as int), models),
    {
        proof {
            assert(list@.take(i + 1).drop_last() =~= list@.take(i as int));
        }
        match bag {
            Some(metadata) => {
                let hit: InternalHit = InternalHit { id: list[i], distance: None, metadata };
                let ghost before = out@;
                out.push(hit);
                assert(views(out@) =~= views(before).push(hit@));
            },
            None => {},
        }
        i = i + 1;
    }
    assert(list@.take(list.len() as int) =~= list@);
    out
}

fn row_hits(rows: Vec<StoredRow>) -> (r: Vec<InternalHit>)
    ensures
        views(r@) == unmeasured(views(rows@)),
{
    let ghost all = rows@;
    let ghost hs = unmeasured(views(rows@));
    let mut out: Vec<InternalHit> = Vec::new();
    for row in iter: rows.into_iter()
        invariant
            iter.seq() == all,
            hs == unmeasured(views(all)),
            views(out@) =~= hs.take(iter.index() as int),
    {
        let hit: InternalHit = InternalHit { id: row.id, distance: None, metadata: row.metadata };
        let ghost before = out@;
        out.push(hit);
        assert(views(out@) =~= views(before).push(hit@));
    }
    assert(hs.take(hs.len() as int) =~= hs);
    out
}

fn rewrite(id: u64, bag: Metadata, assignments: &Vec<LogicalAssignment>, params: &ParamBindings) -> (r:
    Result<StoredRow, KovaQueryError>)
    ensures
        agrees_as(r, rewritten(id, bag@, views(assignments@), params@)),
{
    let mut bag = bag;
    apply_assignments(&mut bag, assignments, params)?;
    Ok(StoredRow { id, metadata: bag })
}

/// An id between two parts of an error message.
fn id_error(head: &str, id: u64, tail: &str) -> (r: KovaQueryError)
    ensures
        r@ == Failure::Execution(head@ + shown(id) + tail@),
{
    let mut m: String = head.to_owned();
    m.append("VectorId(");
    push_numeral(&mut m, id as u128);
    m.append(")");
    m.append(tail);
    assert(m@ =~= head@ + shown(id) + tail@);
    KovaQueryError::Execution(m)
}

proof fn lemma_all_rewritten_fail(
    list: Seq<u64>,
    bags: Seq<Option<Bag>>,
    assignments: Seq<Assign>,
    b: Bindings,
    i: int,
)
    requires
        0 <= i <= list.len(),
        all_rewritten(list.take(i), bags, assignments, b) is Err,
    ensures
        all_rewritten(list, bags, assignments, b) == all_rewritten(
            list.take(i),
            bags,
            assignments,
            b,
        ),
    decreases list.len() - i,
{
    if i == list.len() {
        assert(list.take(i) =~= list);
    } else {
        assert(list.take(i + 1).drop_last() =~= list.take(i));
        lemma_all_rewritten_fail(list, bags, assignments, b, i + 1);
    }
}

/// Apply `assignments` to the bag of each id. Returns the staged batch.
fn build_updates_from_ids(
    list: &Vec<u64>,
    bags: Vec<Option<Metadata>>,
    assignments: &Vec<LogicalAssignment>,
    params: &ParamBindings,
) -> (r: Result<Vec<StoredRow>, KovaQueryError>)
    requires
        bags.len() == list.len(),
    ensures
        agrees_all(r, all_rewritten(list@, opt_bags(bags@), views(assignments@), params@)),
{
    let ghost all = bags@;
    let ghost models = opt_bags(bags@);
    let ghost sets = views(assignments@);
    let mut out: Vec<StoredRow> = Vec::new();
    let mut i: usize = 0;
    assert(views(out@) =~= Seq::empty());
    for bag in iter: bags.into_iter()
        invariant
            iter.seq() == all,
            all.len() == list.len(),
            models == opt_bags(all),
            sets == views(assignments@),
            i == iter.index(),
            all_rewritten(list@.take(i as int), models, sets, params@) == Ok::<
                Seq<StoredRowModel>,
                Failure,
            >(views(out@)),
    {
        proof {
            assert(list@.take(i + 1).drop_last() =~= list@.take(i as int));
        }
        let id: u64 = list[i];
        match bag {
            Some(bag) => match rewrite(id, bag, assignments, params) {
                Ok(row) => {
                    let ghost before = out@;
                    out.push(row);
                    assert(views(out@) =~= views(before).push(row@));
                },
                Err(e) => {
                    proof {
                        lemma_all_rewritten_fail(list@, models, sets, params@, i + 1);
                    }
                    return Err(e);
                },
            },
            None => {
                proof {
                    lemma_all_rewritten_fail(list@, models, sets, params@, i + 1);
                }
                return Err(
                    id_error(
                        "id ",
                        id,
                        " disappeared from metadata store between scan and update",
                    ),
                );
            },
        }
        i = i + 1;
    }
    assert(list@.take(list.len() as int) =~= list@);
    Ok(out)
}

proof fn lemma_kept_rewritten_fail(
    hs: Seq<Hit>,
    beyond: Option<u32>,
    filter: Option<Cond>,
    assignments: Seq<Assign>,
    b: Bindings,
    i: int,
)
    requires
        0 <= i <= hs.len(),
        kept_rewritten(hs.take(i), beyond, filter, assignments, b) is Err,
    ensures
        kept_rewritten(hs, beyond, filter, assignments, b) == kept_rewritten(
            hs.take(i),
            beyond,
            filter,
            assignments,
            b,
        ),
    decreases hs.len() - i,
{
    if i == hs.len() {
        assert(hs.take(i) =~= hs);
    } else {
        assert(hs.take(i + 1).drop_last() =~= hs.take(i));
        lemma_kept_rewritten_fail(hs, beyond, filter, assignments, b, i + 1);
    }
}

/// Apply `assignments` to the bag of each hit that is kept. Reuses the bag
/// that a hit carries.
fn build_updates_from_hits(
    hits: Vec<InternalHit>,
    beyond: Option<u32>,
    filter: &Option<PredicateExpr>,
    assignments: &Vec<LogicalAssignment>,
    params: &ParamBindings,
) -> (r: Result<Vec<StoredRow>, KovaQueryError>)
    ensures
        agrees_all(
            r,
            kept_rewritten(
                views(hits@),
                beyond,
                opt_cond(*filter),
                views(assignments@),
                params@,
            ),
        ),
{
    let ghost all = hits@;
    let ghost hs = views(hits@);
    let ghost c = opt_cond(*filter);
    let ghost sets = views(assignments@);
    let mut out: Vec<StoredRow> = Vec::new();
    assert(views(out@) =~= Seq::empty());
    for h in iter: hits.into_iter()
        invariant
            iter.seq() == all,
            hs == views(all),
            c == opt_cond(*filter),
            sets == views(assignments@),
            kept_rewritten(hs.take(iter.index() as int), beyond, c, sets, params@) == Ok::<
                Seq<StoredRowModel>,
                Failure,
            >(views(out@)),
    {
        let ghost i = iter.index() as int;
        proof {
            assert(hs.take(i + 1).drop_last() =~= hs.take(i));
            assert(hs.take(i + 1).last() == h@);
        }
        match hit_passes(&h, beyond, filter, params) {
            Ok(true) => match rewrite(h.id, h.metadata, assignments, params) {
                Ok(row) => {
                    let ghost before = out@;
                    out.push(row);
                    assert(views(out@) =~= views(before).push(row@));
                },
                Err(e) => {
                    proof {
                        lemma_kept_rewritten_fail(hs, beyond, c, sets, params@, i + 1);
                    }
                    return Err(e);
                },
            },
            Ok(false) => {},
            Err(e) => {
                proof {
                    lemma_kept_rewritten_fail(hs, beyond, c, sets, params@, i + 1);
                }
                return Err(e);
            },
        }
    }
    assert(hs.take(hs.len() as int) =~= hs);
    Ok(out)
}

/// Go on with what the indexes answered.
fn resume_lookup(
    predicate: PredicateExpr,
    goal: Goal,
    answers: Vec<Option<RoaringTreemap>>,
    params: &ParamBindings,
) -> (r: Result<Step, KovaQueryError>)
    requires
        answers.len() == asks(predicate@, params@).len(),
    ensures
        agrees_as(r, looked_up(predicate@, goal@, answer_sets(answers@), params@)),
{
    match try_index_eval(&predicate, answers, params) {
        IndexEval::Full(bitmap) => use_index(goal, bitmap),
        IndexEval::Hybrid { candidates, residue } => {
            let list: Vec<u64> = ids(&candidates);
            let wanted: Vec<u64> = copy_ids(&list);
            Ok(
                Step::Ask(
                    Request::GetMetadata(wanted),
                    Pending::Candidates { ids: list, residue: Some(residue), goal },
                ),
            )
        },
        IndexEval::Fallback => Ok(
            Step::Ask(Request::ScanMetadata, Pending::Scan { predicate, goal }),
        ),
    }
}

fn sift_hits(
    hits: Vec<InternalHit>,
    beyond: Option<u32>,
    filter: Option<PredicateExpr>,
    goal: Goal,
    params: &ParamBindings,
) -> (r: Result<Step, KovaQueryError>)
    ensures
        agrees_as(r, sift(views(hits@), beyond, opt_cond(filter), goal@, params@)),
{
    let hits: Vec<InternalHit> = keep_hits(hits, beyond, &filter, params)?;
    use_selected(goal, hits, params)
}

fn write_rows(table: String, rows: Result<Vec<StoredRow>, KovaQueryError>) -> (r: Result<
    Step,
    KovaQueryError,
>)
    ensures
        forall|p: Result<Seq<StoredRowModel>, Failure>| #[trigger]
            agrees_all(rows, p) ==> agrees_as(r, write_back(table@, p)),
{
    let rows: Vec<StoredRow> = rows?;
    Ok(Step::Ask(Request::UpdateMetadata(rows), Pending::Update { table }))
}

fn resume_target(
    table: String,
    id: u64,
    assignments: Vec<LogicalAssignment>,
    bags: Vec<Option<Metadata>>,
    params: &ParamBindings,
) -> (r: Result<Step, KovaQueryError>)
    ensures
        agrees_as(
            r,
            resumed(
                Wait::Target { table: table@, id, assignments: views(assignments@) },
                Answer::Metadata(opt_bags(bags@)),
                params@,
            ),
        ),
{
    let mut bags = bags;
    if bags.len() != 1 {
        return Err(unexpected_reply());
    }
    match bags.pop() {
        Some(Some(bag)) => {
            let row: StoredRow = rewrite(id, bag, &assignments, params)?;
            let ghost model = row@;
            let rows: Vec<StoredRow> = vec![row];
            assert(views(rows@) =~= seq![model]);
            Ok(Step::Ask(Request::UpdateMetadata(rows), Pending::Update { table }))
        },
        _ => Err(id_error("UPDATE target id ", id, " not found in metadata store")),
    }
}

/// Go on with a statement when the shard has answered.
pub fn resume(pending: Pending, reply: Reply, params: &ParamBindings) -> (r: Result<
    Step,
    KovaQueryError,
>)
    ensures
        agrees_as(r, resumed(pending@, reply@, params@)),
{
    match (pending, reply) {
        (_, Reply::Failed(m)) => Err(KovaQueryError::Backend(m)),
        (Pending::Checkpoint, Reply::Lsn(lsn)) => Ok(
            Step::Done(ExecutionResult::Checkpoint { lsn }),
        ),
        (Pending::Vacuum { table }, Reply::Count(removed)) => Ok(
            Step::Done(ExecutionResult::Vacuum { table, removed }),
        ),
        (Pending::CreateIndex { table, name }, Reply::Done) => Ok(
            Step::Done(ExecutionResult::CreateIndex { table, name }),
        ),
        (Pending::DropIndex { table, name }, Reply::Done) => Ok(
            Step::Done(ExecutionResult::DropIndex { table, name }),
        ),
        (Pending::Insert { table, inserted }, Reply::Done) => Ok(
            Step::Done(ExecutionResult::Insert { table, inserted }),
        ),
        (Pending::Delete { table }, Reply::Done) => Ok(
            Step::Done(ExecutionResult::Delete { table, deleted: 1 }),
        ),
        (Pending::DeleteMany { table }, Reply::Count(n)) => Ok(
            Step::Done(ExecutionResult::Delete { table, deleted: n as u64 }),
        ),
        (Pending::Update { table }, Reply::Count(n)) => Ok(
            Step::Done(ExecutionResult::Update { table, updated: n as u64 }),
        ),
        (Pending::Target { table, id, assignments }, Reply::Metadata(bags)) => resume_target(
            table,
            id,
            assignments,
            bags,
            params,
        ),
        (Pending::Len { column_name }, Reply::Count(n)) => Ok(
            Step::Done(count_result(n, column_name)),
        ),
        (Pending::Lookup { predicate, goal }, Reply::Answers(answers)) => {
            let questions: Vec<Lookup> = lookups(&predicate, params);
            if answers.len() != questions.len() {
                return Err(unexpected_reply());
            }
            resume_lookup(predicate, goal, answers, params)
        },
        (Pending::Candidates { ids: list, residue, goal }, Reply::Metadata(bags)) => {
            if bags.len() != list.len() {
                return Err(unexpected_reply());
            }
            sift_hits(present_hits(&list, bags), None, residue, goal, params)
        },
        (Pending::Scan { predicate, goal }, Reply::Rows(rows)) => sift_hits(
            row_hits(rows),
            None,
            Some(predicate),
            goal,
            params,
        ),
        (Pending::Targets { ids: list, table, assignments }, Reply::Metadata(bags)) => {
            if bags.len() != list.len() {
                return Err(unexpected_reply());
            }
            write_rows(table, build_updates_from_ids(&list, bags, &assignments, params))
        },
        (Pending::Hits { beyond, filter, goal }, Reply::Hits(hits)) => sift_hits(
            hits,
            beyond,
            filter,
            goal,
            params,
        ),
        (Pending::UpdateHits { beyond, filter, table, assignments }, Reply::Hits(hits)) => {
            write_rows(table, build_updates_from_hits(hits, beyond, &filter, &assignments, params))
        },
        (Pending::FilteredHits { read }, Reply::FilteredHits { hits, error }) => match error {
            Some(e) => Err(e),
            None => continue_read(read, hits, params),
        },
        (Pending::Distances { hits, k, read }, Reply::Distances(ds)) => {
            if ds.len() != hits.len() {
                return Err(unexpected_reply());
            }
            continue_read(read, nearest_hits(hits, &ds, k), params)
        },
        _ => Err(unexpected_reply()),
    }
}

// ----- The engine -----

/// A shard, with the table name that statements refer to it by.
#[derive(Debug)]
pub struct Engine<S> {
    shard: S,
    table_name: String,
}

/// What a statement's text says, after binding.
pub open spec fn compiled(input: Seq<char>) -> Result<Logical, Failure> {
    match parse_text(input) {
        Ok(s) => bound(s),
        Err(pos) => Err(Failure::Parse(syntax_error(input, pos))),
    }
}

/// Parse and bind a statement. The error is that of the first stage that
/// fails.
pub fn compile(input: &str) -> (r: Result<LogicalStatement, KovaQueryError>)
    ensures
        agrees_as(r, compiled(input@)),
{
    let ast: AstStatement = parse_str(input)?;
    bind(ast)
}

/// How a bound statement starts, with `kind` the way to answer a filtered
/// kNN.
pub open spec fn planned_and_started(
    l: Logical,
    kind: PlanKind,
    b: Bindings,
    table: Seq<char>,
) -> Result<Next, Failure> {
    match planned(l, kind) {
        Ok(p) => started(p, b, table),
        Err(e) => Err(e),
    }
}

impl<S> Engine<S> {
    /// The shard.
    pub closed spec fn held(&self) -> S {
        self.shard
    }

    /// The table name.
    pub closed spec fn table(&self) -> Seq<char> {
        self.table_name@
    }

    /// Wrap a shard in an engine. `table_name` is the name KQL statements use
    /// to refer to this shard; statements that name a different table error
    /// at execute time.
    pub fn new(shard: S, table_name: &str) -> (r: Engine<S>)
        ensures
            r.held() == shard,
            r.table() == table_name@,
    {
        Engine { shard, table_name: table_name.to_owned() }
    }

    /// Borrow the underlying shard.
    pub fn shard(&self) -> (r: &S)
        ensures
            *r == self.held(),
    {
        &self.shard
    }

    /// Mutably borrow the underlying shard.
    pub fn shard_mut(&mut self) -> (r: &mut S)
        ensures
            *r == old(self).held(),
            final(self).held() == *final(r),
            final(self).table() == old(self).table(),
    {
        &mut self.shard
    }

    /// Consume the engine and return its shard, e.g. to reopen against
    /// another engine.
    pub fn into_shard(self) -> (r: S)
        ensures
            r == self.held(),
    {
        self.shard
    }

    /// Validate that a statement-supplied table name matches this engine's
    /// shard, in any case.
    pub fn assert_table(&self, name: &str) -> (r: Result<(), KovaQueryError>)
        ensures
            match table_error(name@, self.table()) {
                None => r is Ok,
                Some(e) => r is Err && r->Err_0@ == e,
            },
    {
        check_table(name, self.table_name.as_str())
    }

    /// Start a [`PhysicalPlan`] against the engine's shard.
    pub fn execute(&self, plan: PhysicalPlan, params: &ParamBindings) -> (r: Result<
        Step,
        KovaQueryError,
    >)
        ensures
            agrees_as(r, started(plan@, params@, self.table())),
    {
        start(plan, params, self.table_name.as_str())
    }

    /// Parse, bind, plan, and start a KQL statement. The error is that of the
    /// first stage that fails. [`resume`] takes it from there.
    pub fn execute_str<E: SelectivityEstimator>(
        &self,
        input: &str,
        estimator: &E,
        params: &ParamBindings,
    ) -> (r: Result<Step, KovaQueryError>)
        ensures
            match compiled(input@) {
                Err(e) => r is Err && r->Err_0@ == e,
                Ok(l) => match filtered_knn(l) {
                    None => forall|kind: PlanKind|
                        agrees_as(
                            r,
                            #[trigger] planned_and_started(l, kind, params@, self.table()),
                        ),
                    Some((filter, limit)) => exists|
                        pred: PredicateExpr,
                        e: SelectivityEstimate,
                        dim: usize,
                        costs: PlanCosts,
                    |
                        pred@ == filter && #[trigger] call_ensures(
                            E::estimate,
                            (estimator, &pred, params),
                            e,
                        ) && call_ensures(E::dim, (estimator,), dim) && call_ensures(
                            E::plan_costs,
                            (estimator, workload(e, row_count(limit), dim)),
                            costs,
                        ) && agrees_as(
                            r,
                            #[trigger] planned_and_started(
                                l,
                                chosen(workload(e, row_count(limit), dim), costs),
                                params@,
                                self.table(),
                            ),
                        ),
                },
            },
    {
        let logical: LogicalStatement = compile(input)?;
        let ghost l = logical@;
        let ghost pred = logical->Query_0.predicate->Some_0;
        let planned_plan: Result<PhysicalPlan, KovaQueryError> = plan_with_estimator(
            logical,
            estimator,
            params,
        );
        let r: Result<Step, KovaQueryError> = match planned_plan {
            Ok(plan) => self.execute(plan, params),
            Err(e) => Err(e),
        };
        proof {
            match filtered_knn(l) {
                None => {
                    assert forall|kind: PlanKind|
                        agrees_as(
                            r,
                            #[trigger] planned_and_started(l, kind, params@, self.table()),
                        ) by {
                        assert(agrees_as(planned_plan, planned(l, kind)));
                    }
                },
                Some((filter, limit)) => {
                    assert(pred@ == filter);
                    let (e, dim, costs) = choose|
                        e: SelectivityEstimate,
                        dim: usize,
                        costs: PlanCosts,
                    |
                        call_ensures(E::estimate, (estimator, &pred, params), e) && call_ensures(
                            E::dim,
                            (estimator,),
                            dim,
                        ) && call_ensures(
                            E::plan_costs,
                            (estimator, workload(e, row_count(limit), dim)),
                            costs,
                        ) && agrees_as(
                            planned_plan,
                            #[trigger] planned(
                                l,
                                chosen(workload(e, row_count(limit), dim), costs),
                            ),
                        );
                    assert(call_ensures(E::estimate, (estimator, &pred, params), e));
                    assert(agrees_as(
                        r,
                        planned_and_started(
                            l,
                            chosen(workload(e, row_count(limit), dim), costs),
                            params@,
                            self.table(),
                        ),
                    ));
                },
            }
        }
        r
    }
}

} // verus!
