//! The shape of what the grammar produces.
//!
//! Every parsed statement is shaped; a shaped statement whose floating-point
//! literals are finite is what its own canonical text stands for.

use crate::ast::CmpOp;
use crate::ieee::{binary32, binary64, magnitude32, magnitude64};
use crate::keyword::{keyword_of, same_ignoring_case};
use crate::lexer::{in_word, starts_word};
use crate::syntax::{
    Assign, Distance, Expr, Field, Literal, Order, Param, Pred, Proj, Query, Source, Stmt,
};
use vstd::prelude::*;

verus! {

/// Whether `w` is a word: word characters that do not start with a digit.
pub open spec fn is_word(w: Seq<char>) -> bool {
    &&& w.len() > 0
    &&& starts_word(w[0])
    &&& forall|i: int| 0 <= i < w.len() ==> in_word(#[trigger] w[i])
}

/// Whether `w` is an identifier: a word that is not reserved.
pub open spec fn is_identifier(w: Seq<char>) -> bool {
    is_word(w) && keyword_of(w) is None
}

/// Whether `s` can stand between single quotes.
pub open spec fn is_quotable(s: Seq<char>) -> bool {
    forall|i: int| 0 <= i < s.len() ==> #[trigger] s[i] != '\''
}

pub open spec fn shaped_param(p: Param) -> bool {
    match p {
        Param::Positional(_) => true,
        Param::Named(s) => is_identifier(s),
    }
}

pub open spec fn shaped_literal(l: Literal) -> bool {
    match l {
        Literal::Str(s) => is_quotable(s),
        Literal::F64(b) => magnitude64(b) <= binary64().inf,
        _ => true,
    }
}

pub open spec fn finite_literal(l: Literal) -> bool {
    match l {
        Literal::F64(b) => magnitude64(b) < binary64().inf,
        _ => true,
    }
}

pub open spec fn shaped_expr(e: Expr) -> bool {
    match e {
        Expr::Param(p) => shaped_param(p),
        Expr::Literal(l) => shaped_literal(l),
    }
}

pub open spec fn finite_expr(e: Expr) -> bool {
    match e {
        Expr::Param(_) => true,
        Expr::Literal(l) => finite_literal(l),
    }
}

pub open spec fn shaped_subscript(name: Seq<char>, subscript: Option<Seq<char>>) -> bool {
    is_identifier(name) && match subscript {
        Some(key) => is_quotable(key),
        None => true,
    }
}

pub open spec fn shaped_field(f: Field) -> bool {
    shaped_subscript(f.name, f.subscript)
}

pub open spec fn shaped_distance(d: Distance) -> bool {
    shaped_param(d.param)
}

/// Whether `p` is what the grammar produces: a conjunction or disjunction has
/// two or more terms, none of them of its own kind.
pub open spec fn shaped_pred(p: Pred) -> bool
    decreases p,
{
    match p {
        Pred::Eq(f, v) => shaped_field(f) && shaped_expr(v),
        Pred::Cmp(f, op, v) => shaped_field(f) && shaped_expr(v) && op != CmpOp::Eq,
        Pred::In(f, ls) => shaped_field(f) && ls.len() > 0 && forall|i: int|
            0 <= i < ls.len() ==> shaped_literal(#[trigger] ls[i]),
        Pred::Between(f, lo, hi) => shaped_field(f) && shaped_literal(lo) && shaped_literal(hi),
        Pred::IsNull(f, _) => shaped_field(f),
        Pred::ArrayContains(f, l) => shaped_field(f) && shaped_literal(l),
        Pred::And(ps) => ps.len() >= 2 && forall|i: int|
            0 <= i < ps.len() ==> shaped_pred(#[trigger] ps[i]) && !(ps[i] is And),
        Pred::Or(ps) => ps.len() >= 2 && forall|i: int|
            0 <= i < ps.len() ==> shaped_pred(#[trigger] ps[i]) && !(ps[i] is Or),
        Pred::Not(q) => shaped_pred(*q),
        Pred::DistanceThreshold(d, _, radius) => shaped_distance(d) && magnitude32(radius)
            <= binary32().inf,
    }
}

/// Whether every floating-point number in `p` is finite.
pub open spec fn finite_pred(p: Pred) -> bool
    decreases p,
{
    match p {
        Pred::Eq(_, v) => finite_expr(v),
        Pred::Cmp(_, _, v) => finite_expr(v),
        Pred::In(_, ls) => forall|i: int| 0 <= i < ls.len() ==> finite_literal(#[trigger] ls[i]),
        Pred::Between(_, lo, hi) => finite_literal(lo) && finite_literal(hi),
        Pred::IsNull(_, _) => true,
        Pred::ArrayContains(_, l) => finite_literal(l),
        Pred::And(ps) => forall|i: int| 0 <= i < ps.len() ==> finite_pred(#[trigger] ps[i]),
        Pred::Or(ps) => forall|i: int| 0 <= i < ps.len() ==> finite_pred(#[trigger] ps[i]),
        Pred::Not(q) => finite_pred(*q),
        Pred::DistanceThreshold(_, _, radius) => magnitude32(radius) < binary32().inf,
    }
}

pub open spec fn shaped_base(p: Proj) -> bool {
    match p {
        Proj::Wildcard => false,
        Proj::CountStar => true,
        Proj::Id => true,
        Proj::Metadata => true,
        Proj::DistanceExpr(d) => shaped_distance(d),
        Proj::Field(name) => is_identifier(name) && !same_ignoring_case(name, "id"@)
            && !same_ignoring_case(name, "metadata"@),
        Proj::Aliased(_, _) => false,
    }
}

pub open spec fn shaped_proj(p: Proj) -> bool {
    match p {
        Proj::Aliased(inner, alias) => shaped_base(*inner) && is_identifier(alias),
        _ => shaped_base(p),
    }
}

/// Either `*` alone or columns other than `*`.
pub open spec fn shaped_projection(ps: Seq<Proj>) -> bool {
    ||| ps == seq![Proj::Wildcard]
    ||| ps.len() > 0 && forall|i: int| 0 <= i < ps.len() ==> shaped_proj(#[trigger] ps[i])
}

pub open spec fn shaped_order(o: Order) -> bool {
    match o {
        Order::Distance(d, _) => shaped_distance(d),
        Order::Field(name, _) => is_identifier(name),
    }
}

pub open spec fn shaped_query(q: Query) -> bool {
    &&& shaped_projection(q.projection)
    &&& is_identifier(q.from_table)
    &&& match q.predicate {
        Some(p) => shaped_pred(p),
        None => true,
    }
    &&& forall|i: int| 0 <= i < q.order_by.len() ==> shaped_order(#[trigger] q.order_by[i])
}

pub open spec fn is_param_expr(e: Expr) -> bool {
    e is Param && shaped_expr(e)
}

/// One row of parameters, or a batch parameter.
pub open spec fn shaped_source(s: Source) -> bool {
    match s {
        Source::Rows(rows) => rows.len() == 1 && rows[0].len() > 0 && forall|i: int|
            0 <= i < rows[0].len() ==> is_param_expr(#[trigger] rows[0][i]),
        Source::Param(p) => shaped_param(p),
    }
}

pub open spec fn shaped_assign(a: Assign) -> bool {
    shaped_subscript(a.field, a.subscript) && shaped_expr(a.value)
}

/// Whether `s` is what the grammar produces.
pub open spec fn shaped(s: Stmt) -> bool {
    match s {
        Stmt::Select(q) => shaped_query(q),
        Stmt::Insert { table, columns, source } => {
            &&& is_identifier(table)
            &&& columns.len() > 0
            &&& forall|i: int| 0 <= i < columns.len() ==> is_identifier(#[trigger] columns[i])
            &&& shaped_source(source)
        },
        Stmt::Update { table, assignments, predicate } => {
            &&& is_identifier(table)
            &&& assignments.len() > 0
            &&& forall|i: int|
                0 <= i < assignments.len() ==> shaped_assign(#[trigger] assignments[i])
            &&& shaped_pred(predicate)
        },
        Stmt::Delete { table, predicate } => is_identifier(table) && shaped_pred(predicate),
        Stmt::Vacuum { table } => is_identifier(table),
        Stmt::Checkpoint => true,
        Stmt::CreateIndex { name, table, method, field } => {
            &&& match name {
                Some(n) => is_identifier(n),
                None => true,
            }
            &&& is_identifier(table)
            &&& is_identifier(field)
        },
        Stmt::DropIndex { name, table } => is_identifier(name) && is_identifier(table),
    }
}

/// Whether every floating-point number in `s` is finite.
pub open spec fn finite(s: Stmt) -> bool {
    match s {
        Stmt::Select(q) => match q.predicate {
            Some(p) => finite_pred(p),
            None => true,
        },
        Stmt::Update { table, assignments, predicate } => finite_pred(predicate) && forall|i: int|
            0 <= i < assignments.len() ==> finite_expr((#[trigger] assignments[i]).value),
        Stmt::Delete { table, predicate } => finite_pred(predicate),
        _ => true,
    }
}

} // verus!
