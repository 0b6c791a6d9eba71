//! The mathematical model of KQL syntax: what a parsed statement is, with
//! text as sequences of characters.

use crate::ast::{CmpOp, DistanceOp, IndexMethod, OrderDir};
use vstd::prelude::*;

verus! {

/// A parameter reference.
pub enum Param {
    Positional(u32),
    Named(Seq<char>),
}

/// A literal; a floating-point literal is its 64-bit pattern.
pub enum Literal {
    Str(Seq<char>),
    I64(i64),
    F64(u64),
    Bool(bool),
    Null,
}

/// A value expression.
pub enum Expr {
    Param(Param),
    Literal(Literal),
}

/// A metadata field, or one entry of a map-valued field.
pub struct Field {
    pub name: Seq<char>,
    pub subscript: Option<Seq<char>>,
}

/// A distance expression.
pub struct Distance {
    pub metric: DistanceOp,
    pub param: Param,
}

/// A predicate; the radius of a distance threshold is its 32-bit pattern.
pub enum Pred {
    Eq(Field, Expr),
    Cmp(Field, CmpOp, Expr),
    In(Field, Seq<Literal>),
    Between(Field, Literal, Literal),
    IsNull(Field, bool),
    ArrayContains(Field, Literal),
    And(Seq<Pred>),
    Or(Seq<Pred>),
    Not(Box<Pred>),
    DistanceThreshold(Distance, CmpOp, u32),
}

/// A projected column.
pub enum Proj {
    Wildcard,
    CountStar,
    Id,
    Metadata,
    DistanceExpr(Distance),
    Field(Seq<char>),
    Aliased(Box<Proj>, Seq<char>),
}

/// An ordering key.
pub enum Order {
    Distance(Distance, OrderDir),
    Field(Seq<char>, OrderDir),
}

/// An assignment of an `UPDATE`.
pub struct Assign {
    pub field: Seq<char>,
    pub subscript: Option<Seq<char>>,
    pub value: Expr,
}

/// Where the rows of an `INSERT` come from.
pub enum Source {
    Rows(Seq<Seq<Expr>>),
    Param(Param),
}

/// A `SELECT`.
pub struct Query {
    pub projection: Seq<Proj>,
    pub from_table: Seq<char>,
    pub predicate: Option<Pred>,
    pub order_by: Seq<Order>,
    pub limit: Option<u64>,
}

/// A statement.
#[allow(inconsistent_fields)]
pub enum Stmt {
    Select(Query),
    Insert { table: Seq<char>, columns: Seq<Seq<char>>, source: Source },
    Update { table: Seq<char>, assignments: Seq<Assign>, predicate: Pred },
    Delete { table: Seq<char>, predicate: Pred },
    Vacuum { table: Seq<char> },
    Checkpoint,
    CreateIndex {
        name: Option<Seq<char>>,
        table: Seq<char>,
        method: IndexMethod,
        field: Seq<char>,
    },
    DropIndex { name: Seq<char>, table: Seq<char> },
}

} // verus!
