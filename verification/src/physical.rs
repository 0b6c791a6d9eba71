//! Physical plan: the executor's IR.
//!
//! Where [`crate::logical::LogicalStatement`] captures *what to compute*, the
//! physical plan captures *how*: which operator runs, in what order, with
//! which parameter slots resolved at execute time.

use crate::ast::{views, DistanceOp, IndexMethod, ParamRef};
use crate::logical::{opt_cond, Column, Cond, LogicalAssignment, PredicateExpr, ProjectionSpec};
use crate::syntax::{Assign, Distance, Param};
use vstd::prelude::*;

verus! {

/// Physical operator.
#[allow(inconsistent_fields)]
#[derive(Debug)]
pub enum PhysicalPlan {
    /// Stop-the-world checkpoint. Returns the committed LSN.
    Checkpoint,
    /// Tombstone reclaim and graph repair on `table`. Returns the count of
    /// nodes physically removed.
    Vacuum {
        /// Target table name.
        table: String,
    },
    /// Single-row INSERT from three parameter slots.
    InsertOne {
        /// Target table.
        table: String,
        /// Parameter slot for the row's `id`.
        id: ParamRef,
        /// Parameter slot for the row's `embedding` vector.
        embedding: ParamRef,
        /// Parameter slot for the row's `metadata` bag.
        metadata: ParamRef,
    },
    /// Batch INSERT from one parameter slot.
    InsertMany {
        /// Target table.
        table: String,
        /// Parameter slot for the batch.
        batch: ParamRef,
    },
    /// DELETE by a single literal id.
    DeleteById {
        /// Target table.
        table: String,
        /// Id to tombstone.
        id: u64,
    },
    /// UPDATE by a single literal id.
    UpdateById {
        /// Target table.
        table: String,
        /// Id to rewrite.
        id: u64,
        /// Assignments, in source order.
        assignments: Vec<LogicalAssignment>,
    },
    /// UPDATE by a single id bound to a parameter.
    UpdateByParamId {
        /// Target table.
        table: String,
        /// Parameter slot for the id.
        id_param: ParamRef,
        /// Assignments, in source order.
        assignments: Vec<LogicalAssignment>,
    },
    /// UPDATE of every row that satisfies a predicate.
    UpdateByPredicate {
        /// Target table.
        table: String,
        /// Which rows to rewrite.
        predicate: PredicateExpr,
        /// Assignments, in source order.
        assignments: Vec<LogicalAssignment>,
    },
    /// UPDATE of every row within a distance.
    UpdateByRadius {
        /// Target table.
        table: String,
        /// Query vector parameter.
        query: ParamRef,
        /// Distance metric.
        metric: DistanceOp,
        /// Distance bound, as the bit pattern of a 32-bit value.
        radius: u32,
        /// Whether rows at the bound itself belong.
        inclusive: bool,
        /// What else a row has to satisfy.
        post_filter: Option<PredicateExpr>,
        /// Assignments, in source order.
        assignments: Vec<LogicalAssignment>,
    },
    /// DELETE by a single id bound to a parameter.
    DeleteByParamId {
        /// Target table.
        table: String,
        /// Parameter slot for the id.
        id_param: ParamRef,
    },
    /// DELETE of every row within a distance.
    DeleteByRadius {
        /// Target table.
        table: String,
        /// Query vector parameter.
        query: ParamRef,
        /// Distance metric.
        metric: DistanceOp,
        /// Distance bound, as the bit pattern of a 32-bit value.
        radius: u32,
        /// Whether rows at the bound itself belong.
        inclusive: bool,
        /// What else a row has to satisfy.
        post_filter: Option<PredicateExpr>,
    },
    /// DELETE of every row that satisfies a predicate.
    DeleteByPredicate {
        /// Target table.
        table: String,
        /// Which rows to tombstone.
        predicate: PredicateExpr,
    },
    /// Create a metadata index.
    CreateIndex {
        /// Target table.
        table: String,
        /// Index name.
        name: String,
        /// Index method.
        method: IndexMethod,
        /// Indexed field.
        field: String,
    },
    /// Drop a metadata index.
    DropIndex {
        /// Target table.
        table: String,
        /// Index name.
        name: String,
    },
    /// kNN search, with a predicate applied to the candidates afterwards.
    KnnSearch {
        /// Target table.
        table: String,
        /// Query vector parameter.
        query: ParamRef,
        /// Distance metric.
        metric: DistanceOp,
        /// How many candidates to fetch.
        k: usize,
        /// What a candidate has to satisfy.
        post_filter: Option<PredicateExpr>,
    },
    /// kNN search with the predicate threaded into the graph walk.
    FilteredKnnSearch {
        /// Target table.
        table: String,
        /// Query vector parameter.
        query: ParamRef,
        /// Distance metric.
        metric: DistanceOp,
        /// How many rows to fetch.
        k: usize,
        /// What a row has to satisfy.
        filter: PredicateExpr,
    },
    /// The first `limit` rows of `input`.
    Limit {
        /// Where rows come from.
        input: Box<PhysicalPlan>,
        /// How many rows to keep.
        limit: u64,
    },
    /// Columns of the rows of `input`.
    Projection {
        /// Where rows come from.
        input: Box<PhysicalPlan>,
        /// Output columns.
        spec: ProjectionSpec,
    },
    /// Every row that satisfies a predicate.
    MetadataScan {
        /// Target table.
        table: String,
        /// What a row has to satisfy.
        predicate: PredicateExpr,
    },
    /// The `k` rows of `input` nearest to the query, by exact distance.
    ExactDistance {
        /// Where rows come from.
        input: Box<PhysicalPlan>,
        /// Query vector parameter.
        query: ParamRef,
        /// Distance metric.
        metric: DistanceOp,
        /// How many rows to keep.
        k: usize,
    },
    /// Every row within a distance.
    RadiusSearch {
        /// Target table.
        table: String,
        /// Query vector parameter.
        query: ParamRef,
        /// Distance metric.
        metric: DistanceOp,
        /// Distance bound, as the bit pattern of a 32-bit value.
        radius: u32,
        /// Whether rows at the bound itself belong.
        inclusive: bool,
        /// What else a row has to satisfy.
        post_filter: Option<PredicateExpr>,
    },
    /// How many rows satisfy a predicate, as one row with one column.
    Count {
        /// Target table.
        table: String,
        /// What a row has to satisfy.
        predicate: Option<PredicateExpr>,
        /// Name of the column.
        column_name: String,
    },
}

// ----- Models -----

/// The rows within a distance of a query that also satisfy a condition.
pub struct Ball {
    pub query: Distance,
    pub radius: u32,
    pub inclusive: bool,
    pub post_filter: Option<Cond>,
}

/// A plan, with text as sequences of characters.
#[allow(inconsistent_fields)]
pub enum Plan {
    Checkpoint,
    Vacuum { table: Seq<char> },
    InsertOne { table: Seq<char>, id: Param, embedding: Param, metadata: Param },
    InsertMany { table: Seq<char>, batch: Param },
    DeleteById { table: Seq<char>, id: u64 },
    DeleteByParamId { table: Seq<char>, id_param: Param },
    DeleteByRadius { table: Seq<char>, ball: Ball },
    DeleteByPredicate { table: Seq<char>, predicate: Cond },
    UpdateById { table: Seq<char>, id: u64, assignments: Seq<Assign> },
    UpdateByParamId { table: Seq<char>, id_param: Param, assignments: Seq<Assign> },
    UpdateByRadius { table: Seq<char>, ball: Ball, assignments: Seq<Assign> },
    UpdateByPredicate { table: Seq<char>, predicate: Cond, assignments: Seq<Assign> },
    CreateIndex { table: Seq<char>, name: Seq<char>, method: IndexMethod, field: Seq<char> },
    DropIndex { table: Seq<char>, name: Seq<char> },
    KnnSearch { table: Seq<char>, query: Distance, k: usize, post_filter: Option<Cond> },
    FilteredKnnSearch { table: Seq<char>, query: Distance, k: usize, filter: Cond },
    RadiusSearch { table: Seq<char>, ball: Ball },
    MetadataScan { table: Seq<char>, predicate: Cond },
    ExactDistance { input: Box<Plan>, query: Distance, k: usize },
    Limit { input: Box<Plan>, limit: u64 },
    Projection { input: Box<Plan>, columns: Seq<Column> },
    Count { table: Seq<char>, predicate: Option<Cond>, column_name: Seq<char> },
}

pub open spec fn ball(
    query: ParamRef,
    metric: DistanceOp,
    radius: u32,
    inclusive: bool,
    post_filter: Option<PredicateExpr>,
) -> Ball {
    Ball {
        query: Distance { metric, param: query@ },
        radius,
        inclusive,
        post_filter: opt_cond(post_filter),
    }
}

impl PhysicalPlan {
    pub open spec fn model(&self) -> Plan
        decreases self,
    {
        match self {
            PhysicalPlan::Checkpoint => Plan::Checkpoint,
            PhysicalPlan::Vacuum { table } => Plan::Vacuum { table: table@ },
            PhysicalPlan::InsertOne { table, id, embedding, metadata } => Plan::InsertOne {
                table: table@,
                id: id@,
                embedding: embedding@,
                metadata: metadata@,
            },
            PhysicalPlan::InsertMany { table, batch } => Plan::InsertMany {
                table: table@,
                batch: batch@,
            },
            PhysicalPlan::DeleteById { table, id } => Plan::DeleteById { table: table@, id: *id },
            PhysicalPlan::UpdateById { table, id, assignments } => Plan::UpdateById {
                table: table@,
                id: *id,
                assignments: views(assignments@),
            },
            PhysicalPlan::UpdateByParamId { table, id_param, assignments } => {
                Plan::UpdateByParamId {
                    table: table@,
                    id_param: id_param@,
                    assignments: views(assignments@),
                }
            },
            PhysicalPlan::UpdateByPredicate { table, predicate, assignments } => {
                Plan::UpdateByPredicate {
                    table: table@,
                    predicate: predicate@,
                    assignments: views(assignments@),
                }
            },
            PhysicalPlan::UpdateByRadius {
                table,
                query,
                metric,
                radius,
                inclusive,
                post_filter,
                assignments,
            } => Plan::UpdateByRadius {
                table: table@,
                ball: ball(*query, *metric, *radius, *inclusive, *post_filter),
                assignments: views(assignments@),
            },
            PhysicalPlan::DeleteByParamId { table, id_param } => Plan::DeleteByParamId {
                table: table@,
                id_param: id_param@,
            },
            PhysicalPlan::DeleteByRadius {
                table,
                query,
                metric,
                radius,
                inclusive,
                post_filter,
            } => Plan::DeleteByRadius {
                table: table@,
                ball: ball(*query, *metric, *radius, *inclusive, *post_filter),
            },
            PhysicalPlan::DeleteByPredicate { table, predicate } => Plan::DeleteByPredicate {
                table: table@,
                predicate: predicate@,
            },
            PhysicalPlan::CreateIndex { table, name, method, field } => Plan::CreateIndex {
                table: table@,
                name: name@,
                method: *method,
                field: field@,
            },
            PhysicalPlan::DropIndex { table, name } => Plan::DropIndex {
                table: table@,
                name: name@,
            },
            PhysicalPlan::KnnSearch { table, query, metric, k, post_filter } => Plan::KnnSearch {
                table: table@,
                query: Distance { metric: *metric, param: query@ },
                k: *k,
                post_filter: opt_cond(*post_filter),
            },
            PhysicalPlan::FilteredKnnSearch { table, query, metric, k, filter } => {
                Plan::FilteredKnnSearch {
                    table: table@,
                    query: Distance { metric: *metric, param: query@ },
                    k: *k,
                    filter: filter@,
                }
            },
            PhysicalPlan::Limit { input, limit } => Plan::Limit {
                input: Box::new(input.model()),
                limit: *limit,
            },
            PhysicalPlan::Projection { input, spec } => Plan::Projection {
                input: Box::new(input.model()),
                columns: spec@,
            },
            PhysicalPlan::MetadataScan { table, predicate } => Plan::MetadataScan {
                table: table@,
                predicate: predicate@,
            },
            PhysicalPlan::ExactDistance { input, query, metric, k } => Plan::ExactDistance {
                input: Box::new(input.model()),
                query: Distance { metric: *metric, param: query@ },
                k: *k,
            },
            PhysicalPlan::RadiusSearch { table, query, metric, radius, inclusive, post_filter } => {
                Plan::RadiusSearch {
                    table: table@,
                    ball: ball(*query, *metric, *radius, *inclusive, *post_filter),
                }
            },
            PhysicalPlan::Count { table, predicate, column_name } => Plan::Count {
                table: table@,
                predicate: opt_cond(*predicate),
                column_name: column_name@,
            },
        }
    }
}

impl View for PhysicalPlan {
    type V = Plan;

    open spec fn view(&self) -> Plan {
        self.model()
    }
}

} // verus!
