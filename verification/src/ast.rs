//! Abstract syntax tree for parsed KQL input.
//!
//! The AST is the boundary between parsing and binding. It captures every
//! shape the grammar accepts, including semantically invalid ones (unknown
//! field, type mismatch). Those failures belong to the binder; keeping the
//! AST permissive keeps the parser context-free.

use crate::syntax::{
    Assign, Distance, Expr, Field, Literal, Order, Param, Pred, Proj, Query, Source, Stmt,
};
use vstd::prelude::*;

verus! {

/// Top-level parsed KQL statement.
#[derive(Debug)]
pub enum AstStatement {
    /// `SELECT ... FROM vectors ...`
    Select(AstQuery),
    /// `INSERT INTO vectors (...) VALUES ...`
    Insert(AstInsert),
    /// `UPDATE vectors SET ... WHERE ...`
    Update(AstUpdate),
    /// `DELETE FROM vectors WHERE ...`
    Delete(AstDelete),
    /// `VACUUM vectors`
    Vacuum(AstVacuum),
    /// `CHECKPOINT`
    Checkpoint,
    /// `CREATE INDEX ...`
    CreateIndex(AstCreateIndex),
    /// `DROP INDEX ...`
    DropIndex(AstDropIndex),
}

/// `SELECT` statement payload.
#[derive(Debug)]
pub struct AstQuery {
    /// Projected columns, in source order.
    pub projection: Vec<AstProjection>,
    /// Source table.
    pub from_table: String,
    /// `WHERE` clause.
    pub predicate: Option<AstPredicate>,
    /// `ORDER BY` keys, in source order.
    pub order_by: Vec<AstOrderBy>,
    /// `LIMIT` count.
    pub limit: Option<u64>,
}

/// One item of a projection list.
#[derive(Debug)]
pub enum AstProjection {
    /// `*`.
    Wildcard,
    /// `COUNT(*)`.
    CountStar,
    /// `id`, in any letter case.
    Id,
    /// `metadata`, in any letter case.
    Metadata,
    /// `embedding <op> $param`.
    DistanceExpr(AstDistance),
    /// Any other identifier.
    Field(String),
    /// `expr AS name`.
    Aliased(Box<AstProjection>, String),
}

/// One ordering key.
#[derive(Debug)]
pub enum AstOrderBy {
    /// `embedding <op> $param [ASC|DESC]`.
    Distance(AstDistance, OrderDir),
    /// `field [ASC|DESC]`.
    Field(String, OrderDir),
}

/// Ordering direction; ascending when the source leaves it out.
#[derive(Debug, Clone, Copy, PartialEq, Eq, Structural)]
pub enum OrderDir {
    /// Smallest first.
    Asc,
    /// Largest first.
    Desc,
}

/// `INSERT` statement payload.
#[derive(Debug)]
pub struct AstInsert {
    /// Target table.
    pub table: String,
    /// Column names in the explicit column list.
    pub columns: Vec<String>,
    /// Source of values to insert.
    pub source: AstInsertSource,
}

/// Where INSERT rows come from.
#[derive(Debug)]
pub enum AstInsertSource {
    /// Explicit row tuples: `VALUES (a, b, c)`. The grammar accepts the
    /// single-row form only; batches go through [`AstInsertSource::Param`].
    Rows(Vec<Vec<AstExpr>>),
    /// Batch parameter: `VALUES $1`, where `$1` is bound by the caller to an
    /// array of `(id, embedding, metadata)` tuples.
    Param(ParamRef),
}

/// Value expression. Used wherever a position can hold either a parameter
/// binding or an inline literal (INSERT row values, atom right-hand sides,
/// etc.).
#[derive(Debug)]
pub enum AstExpr {
    /// `$1` or `$name`.
    Param(ParamRef),
    /// Inline literal: string, number, boolean, null.
    Literal(AstLiteral),
}

/// Literal value parsed from KQL source. The binder type-checks these against
/// field types when applicable; the parser only guarantees the value lexed
/// cleanly as the listed variant.
#[derive(Debug, PartialEq)]
pub enum AstLiteral {
    /// Single-quoted string: `'hello'`.
    String(String),
    /// Integer literal without a decimal point.
    I64(i64),
    /// Floating-point literal containing a decimal point, as the bit pattern
    /// of the nearest 64-bit value.
    F64(u64),
    /// `TRUE` or `FALSE`, case-insensitive.
    Bool(bool),
    /// `NULL`.
    Null,
}

/// Field reference: `name` or `name['key']`.
#[derive(Debug)]
pub struct AstFieldRef {
    /// Field name.
    pub name: String,
    /// Bracketed map key.
    pub subscript: Option<String>,
}

/// WHERE-clause predicate. Built recursively from atoms and boolean
/// combinators.
#[derive(Debug)]
pub enum AstPredicate {
    /// `field = value`.
    Eq(AstFieldRef, AstExpr),
    /// `field <op> value` for ops other than `=`.
    Cmp(AstFieldRef, CmpOp, AstExpr),
    /// `field IN (lit, lit, ...)`.
    In(AstFieldRef, Vec<AstLiteral>),
    /// `field BETWEEN lo AND hi`.
    Between(AstFieldRef, AstLiteral, AstLiteral),
    /// `field IS NULL` (`false`) or `field IS NOT NULL` (`true`).
    IsNull(AstFieldRef, bool),
    /// `field @> value`: array containment.
    ArrayContains(AstFieldRef, AstLiteral),
    /// Boolean AND of two or more child predicates. Flattened:
    /// `(a AND b) AND c` parses as `And([a, b, c])`.
    And(Vec<AstPredicate>),
    /// Boolean OR of two or more child predicates. Flattened.
    Or(Vec<AstPredicate>),
    /// Boolean NOT. Single child.
    Not(Box<AstPredicate>),
    /// `embedding <op> $q <cmp> radius`. The right side is the bit pattern of
    /// the nearest 32-bit value, because the planner consumes it as a
    /// distance bound; parameter binding on the right is no syntax.
    DistanceThreshold(AstDistance, CmpOp, u32),
}

/// Distance expression: `embedding <op> $param`.
#[derive(Debug)]
pub struct AstDistance {
    /// Metric operator (`L2` / `Cosine` / `InnerProduct`).
    pub metric: DistanceOp,
    /// Query vector parameter binding.
    pub param: ParamRef,
}

/// Distance metric operator parsed from `<->` / `<=>` / `<#>`.
#[derive(Debug, Clone, Copy, PartialEq, Eq, Structural)]
pub enum DistanceOp {
    /// `<->`: Euclidean (L2) distance.
    L2,
    /// `<=>`: cosine distance.
    Cosine,
    /// `<#>`: (negated) inner product.
    InnerProduct,
}

/// Comparison operator for predicate atoms.
#[derive(Debug, Clone, Copy, PartialEq, Eq, Structural)]
pub enum CmpOp {
    /// `=` (equality; the parser also routes this to `AstPredicate::Eq`).
    Eq,
    /// `<` (strictly less than).
    Lt,
    /// `<=` (less than or equal).
    Le,
    /// `>` (strictly greater than).
    Gt,
    /// `>=` (greater than or equal).
    Ge,
    /// `!=` or `<>` (not equal).
    Ne,
}

/// Parameter reference, positional or named.
#[derive(Debug, PartialEq, Eq)]
pub enum ParamRef {
    /// `$N`: 1-based ordinal as written in the source.
    Positional(u32),
    /// `$name`.
    Named(String),
}

/// `UPDATE` statement payload.
#[derive(Debug)]
pub struct AstUpdate {
    /// Target table.
    pub table: String,
    /// `SET` assignments, in source order.
    pub assignments: Vec<AstAssignment>,
    /// Mandatory `WHERE` clause.
    pub predicate: AstPredicate,
}

/// One `SET` assignment: `field = value` or `field['key'] = value`.
#[derive(Debug)]
pub struct AstAssignment {
    /// Assigned field.
    pub field: String,
    /// Bracketed map key.
    pub subscript: Option<String>,
    /// Assigned value.
    pub value: AstExpr,
}

/// `DELETE` statement payload.
#[derive(Debug)]
pub struct AstDelete {
    /// Target table.
    pub table: String,
    /// Mandatory `WHERE` clause.
    pub predicate: AstPredicate,
}

/// `VACUUM` statement payload.
#[derive(Debug)]
pub struct AstVacuum {
    /// Name of the table to vacuum.
    pub table: String,
}

/// `CREATE INDEX` statement payload.
#[derive(Debug)]
pub struct AstCreateIndex {
    /// Index name. `None` when the source form is `CREATE INDEX ON ...`
    /// without an explicit name; the binder synthesises one later.
    pub name: Option<String>,
    /// Target table.
    pub table: String,
    /// Index method (HASH / BTREE / INVERTED).
    pub method: IndexMethod,
    /// Indexed field name.
    pub field: String,
}

/// `DROP INDEX` statement payload.
#[derive(Debug)]
pub struct AstDropIndex {
    /// Name of the index to drop.
    pub name: String,
    /// Target table.
    pub table: String,
}

/// Index method specifier.
#[derive(Debug, Clone, Copy, PartialEq, Eq, Structural)]
pub enum IndexMethod {
    /// Hash index: `=`, `IN`, existence.
    Hash,
    /// `BTree` index: `<`, `<=`, `>`, `>=`, `BETWEEN`.
    Btree,
    /// Inverted index: `@>` array containment.
    Inverted,
}

// ----- Views -----

pub open spec fn opt_text(o: Option<String>) -> Option<Seq<char>> {
    match o {
        Some(s) => Some(s@),
        None => None,
    }
}

/// The views of the elements of `v`.
pub open spec fn views<T: View>(v: Seq<T>) -> Seq<T::V> {
    Seq::new(v.len(), |i: int| v[i]@)
}

impl View for ParamRef {
    type V = Param;

    open spec fn view(&self) -> Param {
        match self {
            ParamRef::Positional(n) => Param::Positional(*n),
            ParamRef::Named(s) => Param::Named(s@),
        }
    }
}

impl View for AstLiteral {
    type V = Literal;

    open spec fn view(&self) -> Literal {
        match self {
            AstLiteral::String(s) => Literal::Str(s@),
            AstLiteral::I64(n) => Literal::I64(*n),
            AstLiteral::F64(b) => Literal::F64(*b),
            AstLiteral::Bool(b) => Literal::Bool(*b),
            AstLiteral::Null => Literal::Null,
        }
    }
}

impl View for AstExpr {
    type V = Expr;

    open spec fn view(&self) -> Expr {
        match self {
            AstExpr::Param(p) => Expr::Param(p@),
            AstExpr::Literal(l) => Expr::Literal(l@),
        }
    }
}

pub open spec fn rows(v: Seq<Vec<AstExpr>>) -> Seq<Seq<Expr>> {
    Seq::new(v.len(), |i: int| views(v[i]@))
}

impl View for AstFieldRef {
    type V = Field;

    open spec fn view(&self) -> Field {
        Field { name: self.name@, subscript: opt_text(self.subscript) }
    }
}

impl View for AstDistance {
    type V = Distance;

    open spec fn view(&self) -> Distance {
        Distance { metric: self.metric, param: self.param@ }
    }
}

impl AstPredicate {
    pub open spec fn model(&self) -> Pred
        decreases self,
    {
        match self {
            AstPredicate::Eq(f, e) => Pred::Eq(f@, e@),
            AstPredicate::Cmp(f, op, e) => Pred::Cmp(f@, *op, e@),
            AstPredicate::In(f, ls) => Pred::In(f@, views(ls@)),
            AstPredicate::Between(f, lo, hi) => Pred::Between(f@, lo@, hi@),
            AstPredicate::IsNull(f, negated) => Pred::IsNull(f@, *negated),
            AstPredicate::ArrayContains(f, l) => Pred::ArrayContains(f@, l@),
            AstPredicate::And(ps) => Pred::And(models(ps@)),
            AstPredicate::Or(ps) => Pred::Or(models(ps@)),
            AstPredicate::Not(p) => Pred::Not(Box::new(p.model())),
            AstPredicate::DistanceThreshold(d, op, radius) => Pred::DistanceThreshold(
                d@,
                *op,
                *radius,
            ),
        }
    }
}

pub open spec fn models(v: Seq<AstPredicate>) -> Seq<Pred>
    decreases v,
{
    Seq::new(
        v.len(),
        |i: int|
            if 0 <= i < v.len() {
                v[i].model()
            } else {
                arbitrary()
            },
    )
}

impl View for AstPredicate {
    type V = Pred;

    open spec fn view(&self) -> Pred {
        self.model()
    }
}

pub open spec fn opt_predicate(o: Option<AstPredicate>) -> Option<Pred> {
    match o {
        Some(p) => Some(p.model()),
        None => None,
    }
}

impl AstProjection {
    pub open spec fn model(&self) -> Proj
        decreases self,
    {
        match self {
            AstProjection::Wildcard => Proj::Wildcard,
            AstProjection::CountStar => Proj::CountStar,
            AstProjection::Id => Proj::Id,
            AstProjection::Metadata => Proj::Metadata,
            AstProjection::DistanceExpr(d) => Proj::DistanceExpr(d@),
            AstProjection::Field(s) => Proj::Field(s@),
            AstProjection::Aliased(inner, alias) => Proj::Aliased(Box::new(inner.model()), alias@),
        }
    }
}

impl View for AstProjection {
    type V = Proj;

    open spec fn view(&self) -> Proj {
        self.model()
    }
}

impl View for AstOrderBy {
    type V = Order;

    open spec fn view(&self) -> Order {
        match self {
            AstOrderBy::Distance(d, dir) => Order::Distance(d@, *dir),
            AstOrderBy::Field(s, dir) => Order::Field(s@, *dir),
        }
    }
}

impl View for AstAssignment {
    type V = Assign;

    open spec fn view(&self) -> Assign {
        Assign { field: self.field@, subscript: opt_text(self.subscript), value: self.value@ }
    }
}

impl View for AstInsertSource {
    type V = Source;

    open spec fn view(&self) -> Source {
        match self {
            AstInsertSource::Rows(rs) => Source::Rows(rows(rs@)),
            AstInsertSource::Param(p) => Source::Param(p@),
        }
    }
}

impl View for AstQuery {
    type V = Query;

    open spec fn view(&self) -> Query {
        Query {
            projection: views(self.projection@),
            from_table: self.from_table@,
            predicate: opt_predicate(self.predicate),
            order_by: views(self.order_by@),
            limit: self.limit,
        }
    }
}

impl View for AstInsert {
    type V = Stmt;

    open spec fn view(&self) -> Stmt {
        Stmt::Insert { table: self.table@, columns: views(self.columns@), source: self.source@ }
    }
}

impl View for AstUpdate {
    type V = Stmt;

    open spec fn view(&self) -> Stmt {
        Stmt::Update {
            table: self.table@,
            assignments: views(self.assignments@),
            predicate: self.predicate@,
        }
    }
}

impl View for AstDelete {
    type V = Stmt;

    open spec fn view(&self) -> Stmt {
        Stmt::Delete { table: self.table@, predicate: self.predicate@ }
    }
}

impl View for AstVacuum {
    type V = Stmt;

    open spec fn view(&self) -> Stmt {
        Stmt::Vacuum { table: self.table@ }
    }
}

impl View for AstCreateIndex {
    type V = Stmt;

    open spec fn view(&self) -> Stmt {
        Stmt::CreateIndex {
            name: opt_text(self.name),
            table: self.table@,
            method: self.method,
            field: self.field@,
        }
    }
}

impl View for AstDropIndex {
    type V = Stmt;

    open spec fn view(&self) -> Stmt {
        Stmt::DropIndex { name: self.name@, table: self.table@ }
    }
}

impl View for AstStatement {
    type V = Stmt;

    open spec fn view(&self) -> Stmt {
        match self {
            AstStatement::Select(q) => Stmt::Select(q@),
            AstStatement::Insert(i) => i@,
            AstStatement::Update(u) => u@,
            AstStatement::Delete(d) => d@,
            AstStatement::Vacuum(v) => v@,
            AstStatement::Checkpoint => Stmt::Checkpoint,
            AstStatement::CreateIndex(c) => c@,
            AstStatement::DropIndex(d) => d@,
        }
    }
}

} // verus!
