//! What passes between the executor and a shard.
//!
//! Execution is a conversation. The executor asks the shard for one thing at
//! a time ([`Request`]), remembers why it asked ([`Pending`]), and goes on
//! when the answer is there ([`Reply`]).

use crate::ast::{views, IndexMethod, ParamRef};
use crate::error::{Failure, KovaQueryError};
use crate::index_eval::{answer_sets, Ask, Lookup};
use crate::logical::{opt_cond, Column, Cond, LogicalAssignment, PredicateExpr, ProjectionSpec};
use crate::params::{NewRow, NewRowModel, Vector};
use crate::rows::{ExecutionResult, Hit, InternalHit, Outcome};
use crate::syntax::{Assign, Param};
use crate::value::{Bag, Metadata};
use roaring::RoaringTreemap;
use vstd::prelude::*;

verus! {

/// A row without its embedding.
#[derive(Debug)]
pub struct StoredRow {
    /// The row's id.
    pub id: u64,
    /// The row's metadata.
    pub metadata: Metadata,
}

/// What the executor asks of a shard.
#[allow(inconsistent_fields)]
#[derive(Debug)]
pub enum Request {
    /// Write a checkpoint; the answer is its log position.
    Checkpoint,
    /// Reclaim tombstones; the answer is how many nodes were removed.
    Vacuum,
    /// Register an index and fill it.
    CreateIndex {
        /// Index name.
        name: String,
        /// Indexed field.
        field: String,
        /// Index method.
        method: IndexMethod,
    },
    /// Unregister an index.
    DropIndex {
        /// Index name.
        name: String,
    },
    /// Insert one row.
    Insert(NewRow),
    /// Insert rows in one commit.
    InsertMany(Vec<NewRow>),
    /// Tombstone one row.
    Delete(u64),
    /// Tombstone rows in one commit; the answer is how many.
    DeleteMany(Vec<u64>),
    /// Replace the metadata of rows in one commit; the answer is how many.
    UpdateMetadata(Vec<StoredRow>),
    /// How many live rows are there?
    Len,
    /// The metadata of rows, where they are live.
    GetMetadata(Vec<u64>),
    /// All live rows.
    ScanMetadata,
    /// Which rows satisfy what, as far as there are indexes.
    Lookup(Vec<Lookup>),
    /// The nearest rows.
    Search {
        /// Query vector.
        query: Vector,
        /// How many rows.
        k: usize,
    },
    /// The nearest rows among those that satisfy a predicate.
    SearchFiltered {
        /// Query vector.
        query: Vector,
        /// How many rows.
        k: usize,
        /// What a row has to satisfy.
        filter: PredicateExpr,
    },
    /// The rows within a radius, rows at the radius included.
    SearchRadius {
        /// Query vector.
        query: Vector,
        /// Distance bound, as the bit pattern of a 32-bit value.
        radius: u32,
    },
    /// The distances of rows, where they are live.
    DistanceTo {
        /// Query vector.
        query: Vector,
        /// Which rows.
        ids: Vec<u64>,
    },
}

/// What a shard answers.
#[allow(inconsistent_fields)]
#[derive(Debug)]
pub enum Reply {
    /// It is done.
    Done,
    /// A log position.
    Lsn(u64),
    /// How many.
    Count(usize),
    /// The metadata of each row that was asked for.
    Metadata(Vec<Option<Metadata>>),
    /// All live rows.
    Rows(Vec<StoredRow>),
    /// What a search found.
    Hits(Vec<InternalHit>),
    /// What a filtered search found, and the first error of its filter.
    FilteredHits {
        /// What was found.
        hits: Vec<InternalHit>,
        /// The first error of the filter.
        error: Option<KovaQueryError>,
    },
    /// The rows for each lookup; `None` where no index knows.
    Answers(Vec<Option<RoaringTreemap>>),
    /// The distance of each row that was asked for.
    Distances(Vec<Option<u32>>),
    /// The shard failed, for the reason given.
    Failed(String),
}

/// A read operator above the one where rows come from.
#[derive(Debug)]
pub enum Stage {
    /// Keep the first rows.
    Limit(u64),
    /// Measure distances and keep the nearest.
    ExactDistance {
        /// Query vector parameter.
        query: ParamRef,
        /// How many rows to keep.
        k: usize,
    },
}

/// What to do with rows that were read: the stages, the next one last, and
/// then the projection.
#[derive(Debug)]
pub struct Read {
    /// Stages, the next one last.
    pub stages: Vec<Stage>,
    /// Output columns.
    pub spec: ProjectionSpec,
}

/// What rows are selected for.
#[allow(inconsistent_fields)]
#[derive(Debug)]
pub enum Goal {
    /// To be read.
    Read(Read),
    /// To be counted.
    Count {
        /// Name of the column.
        column_name: String,
    },
    /// To be deleted.
    Delete {
        /// Target table.
        table: String,
    },
    /// To be rewritten.
    Update {
        /// Target table.
        table: String,
        /// Assignments, in source order.
        assignments: Vec<LogicalAssignment>,
    },
}

/// Why the executor asked.
#[allow(inconsistent_fields)]
#[derive(Debug)]
pub enum Pending {
    /// A checkpoint.
    Checkpoint,
    /// A vacuum.
    Vacuum {
        /// Target table.
        table: String,
    },
    /// An index is created.
    CreateIndex {
        /// Target table.
        table: String,
        /// Index name.
        name: String,
    },
    /// An index is dropped.
    DropIndex {
        /// Target table.
        table: String,
        /// Index name.
        name: String,
    },
    /// Rows are inserted.
    Insert {
        /// Target table.
        table: String,
        /// How many.
        inserted: u64,
    },
    /// One row is deleted.
    Delete {
        /// Target table.
        table: String,
    },
    /// Rows are deleted.
    DeleteMany {
        /// Target table.
        table: String,
    },
    /// Rows are rewritten.
    Update {
        /// Target table.
        table: String,
    },
    /// The row to rewrite is fetched.
    Target {
        /// Target table.
        table: String,
        /// Which row.
        id: u64,
        /// Assignments, in source order.
        assignments: Vec<LogicalAssignment>,
    },
    /// All rows are counted.
    Len {
        /// Name of the column.
        column_name: String,
    },
    /// The indexes are asked about a predicate.
    Lookup {
        /// What a row has to satisfy.
        predicate: PredicateExpr,
        /// What for.
        goal: Goal,
    },
    /// The indexes' candidates are fetched.
    Candidates {
        /// Which rows.
        ids: Vec<u64>,
        /// What a candidate still has to satisfy.
        residue: Option<PredicateExpr>,
        /// What for.
        goal: Goal,
    },
    /// All rows are scanned.
    Scan {
        /// What a row has to satisfy.
        predicate: PredicateExpr,
        /// What for.
        goal: Goal,
    },
    /// The rows to rewrite are fetched.
    Targets {
        /// Which rows.
        ids: Vec<u64>,
        /// Target table.
        table: String,
        /// Assignments, in source order.
        assignments: Vec<LogicalAssignment>,
    },
    /// A search runs.
    Hits {
        /// Where rows are too far, as the bit pattern of a 32-bit value.
        beyond: Option<u32>,
        /// What a row has to satisfy.
        filter: Option<PredicateExpr>,
        /// What for.
        goal: Goal,
    },
    /// A search for rows to rewrite runs.
    UpdateHits {
        /// Where rows are too far, as the bit pattern of a 32-bit value.
        beyond: Option<u32>,
        /// What a row has to satisfy.
        filter: Option<PredicateExpr>,
        /// Target table.
        table: String,
        /// Assignments, in source order.
        assignments: Vec<LogicalAssignment>,
    },
    /// A filtered search runs.
    FilteredHits {
        /// What to do with the rows.
        read: Read,
    },
    /// Distances are measured.
    Distances {
        /// The rows.
        hits: Vec<InternalHit>,
        /// How many to keep.
        k: usize,
        /// What to do with them.
        read: Read,
    },
}

/// What comes next.
#[derive(Debug)]
pub enum Step {
    /// The shard has to be asked.
    Ask(Request, Pending),
    /// The statement is done.
    Done(ExecutionResult),
}

// ----- Models -----

/// A row without its embedding, as a model.
pub struct StoredRowModel {
    pub id: u64,
    pub bag: Bag,
}

/// A request, as a model.
#[allow(inconsistent_fields)]
pub enum Want {
    Checkpoint,
    Vacuum,
    CreateIndex { name: Seq<char>, field: Seq<char>, method: IndexMethod },
    DropIndex { name: Seq<char> },
    Insert(NewRowModel),
    InsertMany(Seq<NewRowModel>),
    Delete(u64),
    DeleteMany(Seq<u64>),
    UpdateMetadata(Seq<StoredRowModel>),
    Len,
    GetMetadata(Seq<u64>),
    ScanMetadata,
    Lookup(Seq<Ask>),
    Search { query: Seq<u32>, k: usize },
    SearchFiltered { query: Seq<u32>, k: usize, filter: Cond },
    SearchRadius { query: Seq<u32>, radius: u32 },
    DistanceTo { query: Seq<u32>, ids: Seq<u64> },
}

/// A reply, as a model.
#[allow(inconsistent_fields)]
pub enum Answer {
    Done,
    Lsn(u64),
    Count(usize),
    Metadata(Seq<Option<Bag>>),
    Rows(Seq<StoredRowModel>),
    Hits(Seq<Hit>),
    FilteredHits { hits: Seq<Hit>, error: Option<Failure> },
    Answers(Seq<Option<Set<u64>>>),
    Distances(Seq<Option<u32>>),
    Failed(Seq<char>),
}

/// A stage, as a model.
pub enum Phase {
    Limit(u64),
    ExactDistance { query: Param, k: usize },
}

/// What to do with rows that were read, as a model.
pub struct Reading {
    pub stages: Seq<Phase>,
    pub columns: Seq<Column>,
}

/// What rows are selected for, as a model.
#[allow(inconsistent_fields)]
pub enum Aim {
    Read(Reading),
    Count { column_name: Seq<char> },
    Delete { table: Seq<char> },
    Update { table: Seq<char>, assignments: Seq<Assign> },
}

/// Why the executor asked, as a model.
#[allow(inconsistent_fields)]
pub enum Wait {
    Checkpoint,
    Vacuum { table: Seq<char> },
    CreateIndex { table: Seq<char>, name: Seq<char> },
    DropIndex { table: Seq<char>, name: Seq<char> },
    Insert { table: Seq<char>, inserted: u64 },
    Delete { table: Seq<char> },
    DeleteMany { table: Seq<char> },
    Update { table: Seq<char> },
    Target { table: Seq<char>, id: u64, assignments: Seq<Assign> },
    Len { column_name: Seq<char> },
    Lookup { predicate: Cond, aim: Aim },
    Candidates { ids: Seq<u64>, residue: Option<Cond>, aim: Aim },
    Scan { predicate: Cond, aim: Aim },
    Targets { ids: Seq<u64>, table: Seq<char>, assignments: Seq<Assign> },
    Hits { beyond: Option<u32>, filter: Option<Cond>, aim: Aim },
    UpdateHits {
        beyond: Option<u32>,
        filter: Option<Cond>,
        table: Seq<char>,
        assignments: Seq<Assign>,
    },
    FilteredHits { reading: Reading },
    Distances { hits: Seq<Hit>, k: usize, reading: Reading },
}

/// What comes next, as a model.
pub enum Next {
    Ask(Want, Wait),
    Done(Outcome),
}

impl View for StoredRow {
    type V = StoredRowModel;

    open spec fn view(&self) -> StoredRowModel {
        StoredRowModel { id: self.id, bag: self.metadata@ }
    }
}

impl View for Request {
    type V = Want;

    open spec fn view(&self) -> Want {
        match self {
            Request::Checkpoint => Want::Checkpoint,
            Request::Vacuum => Want::Vacuum,
            Request::CreateIndex { name, field, method } => Want::CreateIndex {
                name: name@,
                field: field@,
                method: *method,
            },
            Request::DropIndex { name } => Want::DropIndex { name: name@ },
            Request::Insert(row) => Want::Insert(row@),
            Request::InsertMany(rows) => Want::InsertMany(views(rows@)),
            Request::Delete(id) => Want::Delete(*id),
            Request::DeleteMany(ids) => Want::DeleteMany(ids@),
            Request::UpdateMetadata(rows) => Want::UpdateMetadata(views(rows@)),
            Request::Len => Want::Len,
            Request::GetMetadata(ids) => Want::GetMetadata(ids@),
            Request::ScanMetadata => Want::ScanMetadata,
            Request::Lookup(ls) => Want::Lookup(views(ls@)),
            Request::Search { query, k } => Want::Search { query: query@, k: *k },
            Request::SearchFiltered { query, k, filter } => Want::SearchFiltered {
                query: query@,
                k: *k,
                filter: filter@,
            },
            Request::SearchRadius { query, radius } => Want::SearchRadius {
                query: query@,
                radius: *radius,
            },
            Request::DistanceTo { query, ids } => Want::DistanceTo { query: query@, ids: ids@ },
        }
    }
}

pub open spec fn opt_bags(v: Seq<Option<Metadata>>) -> Seq<Option<Bag>> {
    v.map_values(
        |o: Option<Metadata>|
            match o {
                Some(m) => Some(m@),
                None => None,
            },
    )
}

impl View for Reply {
    type V = Answer;

    open spec fn view(&self) -> Answer {
        match self {
            Reply::Done => Answer::Done,
            Reply::Lsn(lsn) => Answer::Lsn(*lsn),
            Reply::Count(n) => Answer::Count(*n),
            Reply::Metadata(ms) => Answer::Metadata(opt_bags(ms@)),
            Reply::Rows(rows) => Answer::Rows(views(rows@)),
            Reply::Hits(hits) => Answer::Hits(views(hits@)),
            Reply::FilteredHits { hits, error } => Answer::FilteredHits {
                hits: views(hits@),
                error: match error {
                    Some(e) => Some(e@),
                    None => None,
                },
            },
            Reply::Answers(answers) => Answer::Answers(answer_sets(answers@)),
            Reply::Distances(ds) => Answer::Distances(ds@),
            Reply::Failed(m) => Answer::Failed(m@),
        }
    }
}

impl View for Stage {
    type V = Phase;

    open spec fn view(&self) -> Phase {
        match self {
            Stage::Limit(n) => Phase::Limit(*n),
            Stage::ExactDistance { query, k } => Phase::ExactDistance { query: query@, k: *k },
        }
    }
}

impl View for Read {
    type V = Reading;

    open spec fn view(&self) -> Reading {
        Reading { stages: views(self.stages@), columns: self.spec@ }
    }
}

impl View for Goal {
    type V = Aim;

    open spec fn view(&self) -> Aim {
        match self {
            Goal::Read(read) => Aim::Read(read@),
            Goal::Count { column_name } => Aim::Count { column_name: column_name@ },
            Goal::Delete { table } => Aim::Delete { table: table@ },
            Goal::Update { table, assignments } => Aim::Update {
                table: table@,
                assignments: views(assignments@),
            },
        }
    }
}

impl View for Pending {
    type V = Wait;

    open spec fn view(&self) -> Wait {
        match self {
            Pending::Checkpoint => Wait::Checkpoint,
            Pending::Vacuum { table } => Wait::Vacuum { table: table@ },
            Pending::CreateIndex { table, name } => Wait::CreateIndex {
                table: table@,
                name: name@,
            },
            Pending::DropIndex { table, name } => Wait::DropIndex { table: table@, name: name@ },
            Pending::Insert { table, inserted } => Wait::Insert {
                table: table@,
                inserted: *inserted,
            },
            Pending::Delete { table } => Wait::Delete { table: table@ },
            Pending::DeleteMany { table } => Wait::DeleteMany { table: table@ },
            Pending::Update { table } => Wait::Update { table: table@ },
            Pending::Target { table, id, assignments } => Wait::Target {
                table: table@,
                id: *id,
                assignments: views(assignments@),
            },
            Pending::Len { column_name } => Wait::Len { column_name: column_name@ },
            Pending::Lookup { predicate, goal } => Wait::Lookup {
                predicate: predicate@,
                aim: goal@,
            },
            Pending::Candidates { ids, residue, goal } => Wait::Candidates {
                ids: ids@,
                residue: opt_cond(*residue),
                aim: goal@,
            },
            Pending::Scan { predicate, goal } => Wait::Scan {
                predicate: predicate@,
                aim: goal@,
            },
            Pending::Targets { ids, table, assignments } => Wait::Targets {
                ids: ids@,
                table: table@,
                assignments: views(assignments@),
            },
            Pending::Hits { beyond, filter, goal } => Wait::Hits {
                beyond: *beyond,
                filter: opt_cond(*filter),
                aim: goal@,
            },
            Pending::UpdateHits { beyond, filter, table, assignments } => Wait::UpdateHits {
                beyond: *beyond,
                filter: opt_cond(*filter),
                table: table@,
                assignments: views(assignments@),
            },
            Pending::FilteredHits { read } => Wait::FilteredHits { reading: read@ },
            Pending::Distances { hits, k, read } => Wait::Distances {
                hits: views(hits@),
                k: *k,
                reading: read@,
            },
        }
    }
}

impl View for Step {
    type V = Next;

    open spec fn view(&self) -> Next {
        match self {
            Step::Ask(request, pending) => Next::Ask(request@, pending@),
            Step::Done(result) => Next::Done(result@),
        }
    }
}

} // verus!
