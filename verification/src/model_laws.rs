//! What callers hand in and get back is modelled as it is: nothing of it is
//! lost, and nothing is changed.

use crate::ast::{views, AstExpr, AstLiteral, ParamRef};
use crate::error::{message, Failure, KovaQueryError};
use crate::logical::{BoundExpr, BoundLiteral};
use crate::params::{Arg, NewRow, ParamValue, Vector};
use crate::rows::{Cell, ExecutionResult, InternalHit, Outcome, Row, RowValue};
use crate::steps::{Answer, Reply, Request, StoredRow, Want};
use crate::syntax::{Expr, Literal, Param};
use crate::treemap::treemap_ids;
use crate::value::{lemma_value_model, Val, Value};
use vstd::prelude::*;

verus! {

/// A list is modelled item by item and in order.
pub proof fn law_lists<T: View>(v: Seq<T>)
    ensures
        views(v).len() == v.len(),
        forall|i: int| 0 <= i < v.len() ==> #[trigger] views(v)[i] == v[i]@,
{
}

/// The model of a metadata value.
pub proof fn law_value_model(v: Value)
    ensures
        match v {
            Value::String(s) => v@ == Val::Str(s@),
            Value::I64(n) => v@ == Val::I64(n),
            Value::F64(x) => v@ == Val::F64(x),
            Value::Bool(t) => v@ == Val::Bool(t),
            Value::Array(xs) => v@ is Array && v@->Array_0.len() == xs@.len() && forall|i: int|
                0 <= i < xs@.len() ==> #[trigger] v@->Array_0[i] == xs@[i]@,
            Value::Object(m) => v@ == Val::Object(m@),
        },
{
    broadcast use lemma_value_model;

}

/// The model of a row to insert, and of a row that is stored.
pub proof fn law_row_models(v: Vector, n: NewRow, s: StoredRow, h: InternalHit)
    ensures
        v@ == v.components@,
        n@.id == n.id && n@.embedding == n.embedding.components@ && n@.metadata == n.metadata@,
        s@.id == s.id && s@.bag == s.metadata@,
        h@.id == h.id && h@.distance == h.distance && h@.bag == h.metadata@,
{
}

/// The model of a parameter value.
pub proof fn law_parameter_model(p: ParamValue)
    ensures
        match p {
            ParamValue::Id(n) => p@ == Arg::Id(n),
            ParamValue::Vector(v) => p@ == Arg::Vector(v.components@),
            ParamValue::Metadata(m) => p@ == Arg::Metadata(m@),
            ParamValue::Batch(rows) => p@ is Batch && p@->Batch_0.len() == rows@.len() && forall|
                i: int,
            |
                0 <= i < rows@.len() ==> #[trigger] p@->Batch_0[i] == rows@[i]@,
            ParamValue::String(s) => p@ == Arg::Str(s@),
            ParamValue::I64(n) => p@ == Arg::I64(n),
            ParamValue::F64(x) => p@ == Arg::F64(x),
            ParamValue::Bool(t) => p@ == Arg::Bool(t),
            ParamValue::Null => p@ == Arg::Null,
        },
{
}

/// The model of a literal and of a value expression, before and after binding.
pub proof fn law_literal_models(
    a: AstLiteral,
    l: BoundLiteral,
    x: AstExpr,
    y: BoundExpr,
    p: ParamRef,
)
    ensures
        match a {
            AstLiteral::String(s) => a@ == Literal::Str(s@),
            AstLiteral::I64(n) => a@ == Literal::I64(n),
            AstLiteral::F64(f) => a@ == Literal::F64(f),
            AstLiteral::Bool(t) => a@ == Literal::Bool(t),
            AstLiteral::Null => a@ == Literal::Null,
        },
        match l {
            BoundLiteral::String(s) => l@ == Literal::Str(s@),
            BoundLiteral::I64(n) => l@ == Literal::I64(n),
            BoundLiteral::F64(f) => l@ == Literal::F64(f),
            BoundLiteral::Bool(t) => l@ == Literal::Bool(t),
            BoundLiteral::Null => l@ == Literal::Null,
        },
        match x {
            AstExpr::Param(p) => x@ == Expr::Param(p@),
            AstExpr::Literal(l) => x@ == Expr::Literal(l@),
        },
        match y {
            BoundExpr::Param(p) => y@ == Expr::Param(p@),
            BoundExpr::Literal(l) => y@ == Expr::Literal(l@),
        },
        match p {
            ParamRef::Positional(n) => p@ == Param::Positional(n),
            ParamRef::Named(s) => p@ == Param::Named(s@),
        },
{
}

/// The model of a cell, and of a row of cells.
pub proof fn law_cell_model(v: RowValue, r: Row)
    ensures
        match v {
            RowValue::Id(id) => v@ == Cell::Id(id),
            RowValue::Distance(d) => v@ == Cell::Distance(d),
            RowValue::Metadata(m) => v@ == Cell::Metadata(m@),
            RowValue::Field(x) => v@ == Cell::Field(x@),
            RowValue::Null => v@ == Cell::Null,
        },
        r@.len() == r.values@.len(),
        forall|i: int| 0 <= i < r.values@.len() ==> #[trigger] r@[i] == r.values@[i]@,
{
}

/// The model of an outcome.
pub proof fn law_outcome_model(r: ExecutionResult)
    ensures
        match r {
            ExecutionResult::Checkpoint { lsn } => r@ == (Outcome::Checkpoint { lsn }),
            ExecutionResult::Vacuum { table, removed } => r@ == (Outcome::Vacuum {
                table: table@,
                removed,
            }),
            ExecutionResult::Insert { table, inserted } => r@ == (Outcome::Insert {
                table: table@,
                inserted,
            }),
            ExecutionResult::Delete { table, deleted } => r@ == (Outcome::Delete {
                table: table@,
                deleted,
            }),
            ExecutionResult::Update { table, updated } => r@ == (Outcome::Update {
                table: table@,
                updated,
            }),
            ExecutionResult::Rows { columns, rows } => r@ is Rows && r@->columns.len()
                == columns@.len() && r@->rows.len() == rows@.len() && (forall|i: int|
                0 <= i < columns@.len() ==> #[trigger] r@->columns[i] == columns@[i]@) && (forall|
                i: int,
            |
                0 <= i < rows@.len() ==> #[trigger] r@->rows[i] == rows@[i]@),
            ExecutionResult::CreateIndex { table, name } => r@ == (Outcome::CreateIndex {
                table: table@,
                name: name@,
            }),
            ExecutionResult::DropIndex { table, name } => r@ == (Outcome::DropIndex {
                table: table@,
                name: name@,
            }),
        },
{
}

/// The model of a request to the shard.
pub proof fn law_request_model(r: Request)
    ensures
        match r {
            Request::Checkpoint => r@ == Want::Checkpoint,
            Request::Vacuum => r@ == Want::Vacuum,
            Request::CreateIndex { name, field, method } => r@ == (Want::CreateIndex {
                name: name@,
                field: field@,
                method,
            }),
            Request::DropIndex { name } => r@ == (Want::DropIndex { name: name@ }),
            Request::Insert(row) => r@ == Want::Insert(row@),
            Request::InsertMany(rows) => r@ is InsertMany && r@->InsertMany_0.len() == rows@.len()
                && forall|i: int|
                0 <= i < rows@.len() ==> #[trigger] r@->InsertMany_0[i] == rows@[i]@,
            Request::Delete(id) => r@ == Want::Delete(id),
            Request::DeleteMany(ids) => r@ == Want::DeleteMany(ids@),
            Request::UpdateMetadata(rows) => r@ is UpdateMetadata && r@->UpdateMetadata_0.len()
                == rows@.len() && forall|i: int|
                0 <= i < rows@.len() ==> #[trigger] r@->UpdateMetadata_0[i] == rows@[i]@,
            Request::Len => r@ == Want::Len,
            Request::GetMetadata(ids) => r@ == Want::GetMetadata(ids@),
            Request::ScanMetadata => r@ == Want::ScanMetadata,
            Request::Lookup(ls) => r@ is Lookup && r@->Lookup_0.len() == ls@.len() && forall|i: int|
                0 <= i < ls@.len() ==> #[trigger] r@->Lookup_0[i] == ls@[i]@,
            Request::Search { query, k } => r@ == (Want::Search { query: query.components@, k }),
            Request::SearchFiltered { query, k, filter } => r@ == (Want::SearchFiltered {
                query: query.components@,
                k,
                filter: filter@,
            }),
            Request::SearchRadius { query, radius } => r@ == (Want::SearchRadius {
                query: query.components@,
                radius,
            }),
            Request::DistanceTo { query, ids } => r@ == (Want::DistanceTo {
                query: query.components@,
                ids: ids@,
            }),
        },
{
}

/// The model of a reply of the shard.
pub proof fn law_reply_model(r: Reply)
    ensures
        match r {
            Reply::Done => r@ == Answer::Done,
            Reply::Lsn(lsn) => r@ == Answer::Lsn(lsn),
            Reply::Count(n) => r@ == Answer::Count(n),
            Reply::Metadata(ms) => r@ is Metadata && r@->Metadata_0.len() == ms@.len() && forall|
                i: int,
            |
                0 <= i < ms@.len() ==> #[trigger] r@->Metadata_0[i] == match ms@[i] {
                    Some(m) => Some(m@),
                    None => None,
                },
            Reply::Rows(rows) => r@ is Rows && r@->Rows_0.len() == rows@.len() && forall|i: int|
                0 <= i < rows@.len() ==> #[trigger] r@->Rows_0[i] == rows@[i]@,
            Reply::Hits(hits) => r@ is Hits && r@->Hits_0.len() == hits@.len() && forall|i: int|
                0 <= i < hits@.len() ==> #[trigger] r@->Hits_0[i] == hits@[i]@,
            Reply::FilteredHits { hits, error } => r@ is FilteredHits && r@->hits.len()
                == hits@.len() && (forall|i: int|
                0 <= i < hits@.len() ==> #[trigger] r@->hits[i] == hits@[i]@) && r@->error
                == match error {
                Some(e) => Some(e@),
                None => None,
            },
            Reply::Answers(answers) => r@ is Answers && r@->Answers_0.len() == answers@.len()
                && forall|i: int|
                0 <= i < answers@.len() ==> #[trigger] r@->Answers_0[i] == match answers@[i] {
                    Some(t) => Some(treemap_ids(t)),
                    None => None,
                },
            Reply::Distances(ds) => r@ == Answer::Distances(ds@),
            Reply::Failed(m) => r@ == Answer::Failed(m@),
        },
{
}

/// The model of an error, and what it says to a user: which stage failed, and
/// why. What the storage layer said is not repeated.
pub proof fn law_error_model(e: KovaQueryError)
    ensures
        match e {
            KovaQueryError::Parse(m) => e@ == Failure::Parse(m@) && message(e@) == "parse error: "@
                + m@,
            KovaQueryError::Bind(m) => e@ == Failure::Bind(m@) && message(e@) == "bind error: "@
                + m@,
            KovaQueryError::Plan(m) => e@ == Failure::Plan(m@) && message(e@) == "plan error: "@
                + m@,
            KovaQueryError::Execution(m) => e@ == Failure::Execution(m@) && message(e@)
                == "execution error: "@ + m@,
            KovaQueryError::Backend(m) => e@ == Failure::Backend(m@) && message(e@)
                == "storage backend error"@,
        },
{
}

} // verus!
