//! Logical statement IR: the binder's output, the planner's input.
//!
//! Where [`crate::ast`] captures *what the user wrote*, this module captures
//! *what the user meant* after field resolution, checks and predicate
//! normalisation. Downstream code (planner, executor) reasons about
//! [`LogicalStatement`] only; the AST exists to let the parser stay
//! context-free.
//!
//! See [`crate::binder`] for the AST to [`LogicalStatement`] conversion.

use crate::ast::{opt_text, views, CmpOp, DistanceOp, IndexMethod, ParamRef};
use crate::syntax::{Assign, Distance, Expr, Field, Literal, Param};
use vstd::prelude::*;

pub use crate::ast::OrderDir;

verus! {

/// Top-level logical statement. One variant per AST statement, with the
/// contents resolved and normalised.
#[derive(Debug)]
pub enum LogicalStatement {
    /// `SELECT ...`
    Query(LogicalQuery),
    /// `INSERT INTO vectors ...`
    Insert(LogicalInsert),
    /// `UPDATE vectors SET ... WHERE ...`
    Update(LogicalUpdate),
    /// `DELETE FROM vectors WHERE ...`
    Delete(LogicalDelete),
    /// `VACUUM <table>`
    Vacuum(LogicalVacuum),
    /// `CHECKPOINT`
    Checkpoint,
    /// `CREATE INDEX ...`
    CreateIndex(LogicalCreateIndex),
    /// `DROP INDEX ...`
    DropIndex(LogicalDropIndex),
}

/// VACUUM statement after binding. Carries the target table name through; the
/// executor matches it against the engine's table and errors on mismatch.
#[derive(Debug)]
pub struct LogicalVacuum {
    /// Target table name, preserved from the source (no case folding).
    pub table: String,
}

/// CREATE INDEX statement after binding.
#[derive(Debug)]
pub struct LogicalCreateIndex {
    /// Index name, made up from field and method where the source has none.
    pub name: String,
    /// Target table name, preserved from the source.
    pub table: String,
    /// Index method.
    pub method: IndexMethod,
    /// Indexed field.
    pub field: String,
}

/// DROP INDEX statement after binding.
#[derive(Debug)]
pub struct LogicalDropIndex {
    /// Index name.
    pub name: String,
    /// Target table name, preserved from the source.
    pub table: String,
}

/// SELECT statement after binding.
#[derive(Debug)]
pub struct LogicalQuery {
    /// Target table name from the `FROM` clause, preserved unchanged.
    pub from_table: String,
    /// Projection list. The binder enforces "wildcard cannot appear alongside
    /// other items"; downstream code can rely on that.
    pub projection: ProjectionSpec,
    /// WHERE-clause predicate in normalised form, if present.
    pub predicate: Option<PredicateExpr>,
    /// ORDER BY ordering keys, in source order. Empty when the clause is
    /// absent.
    pub ordering: Vec<OrderingSpec>,
    /// LIMIT, if present. Required for kNN queries (binder check).
    pub limit: Option<u64>,
}

/// INSERT statement after binding. The canonical `(id, embedding, metadata)`
/// column list is the only one accepted, so rows collapse to typed parameter
/// slots.
#[derive(Debug)]
pub struct LogicalInsert {
    /// Target table name, preserved from the source.
    pub table: String,
    /// Source of rows.
    pub rows: LogicalInsertSource,
}

/// Where INSERT rows come from after binding.
#[derive(Debug)]
pub enum LogicalInsertSource {
    /// One row, fields bound to parameter slots in canonical order.
    Single {
        /// Parameter for the `id` column.
        id: ParamRef,
        /// Parameter for the `embedding` column.
        embedding: ParamRef,
        /// Parameter for the `metadata` column.
        metadata: ParamRef,
    },
    /// Batch: one parameter slot carrying an array of typed tuples.
    Batch {
        /// Parameter bound to a list of `(id, embedding, metadata)` tuples.
        param: ParamRef,
    },
}

/// UPDATE statement after binding. The binder has guaranteed no embedding
/// assignment; every assignment touches metadata only.
#[derive(Debug)]
pub struct LogicalUpdate {
    /// Target table name, preserved from the source.
    pub table: String,
    /// WHERE-clause predicate (required by grammar).
    pub predicate: PredicateExpr,
    /// One or more assignments, in source order.
    pub assignments: Vec<LogicalAssignment>,
    /// `Some(...)` when `predicate` is exactly `id = <literal>` or
    /// `id = $param`; same fast-path semantics as [`LogicalDelete`].
    pub single_id_hint: Option<IdHint>,
}

/// One `field = value` (or `field['key'] = value`) assignment after binding.
#[derive(Debug)]
pub struct LogicalAssignment {
    /// Target field name.
    pub field: String,
    /// `Some("key")` for `field['key'] = value`; `None` for `field = value`.
    pub subscript: Option<String>,
    /// Right-hand side: literal or parameter.
    pub value: BoundExpr,
}

/// DELETE statement after binding. Carries an optional hint so the planner
/// can pick the trivial single-id path without re-walking the predicate tree.
#[derive(Debug)]
pub struct LogicalDelete {
    /// Target table name, preserved from the source.
    pub table: String,
    /// WHERE-clause predicate (required by grammar).
    pub predicate: PredicateExpr,
    /// `Some(...)` when `predicate` is exactly `id = <literal>` or
    /// `id = $param`.
    pub single_id_hint: Option<IdHint>,
}

/// How the binder resolved the single-id shape of a WHERE predicate.
#[derive(Debug)]
pub enum IdHint {
    /// `WHERE id = <integer-literal>`; planner knows the id directly.
    Literal(u64),
    /// `WHERE id = $param`; executor resolves the param at run time.
    Param(ParamRef),
}

/// Canonical predicate tree. Flat (no nested `And`/`Or` of the same kind),
/// with `NOT` pushed down to atoms, constants folded, and `True`/`False` only
/// at the root.
#[derive(Debug)]
pub enum PredicateExpr {
    /// Leaf: a single field comparison.
    Atom(PredAtom),
    /// Conjunction. Always at least two children after normalisation.
    And(Vec<PredicateExpr>),
    /// Disjunction. Always at least two children after normalisation.
    Or(Vec<PredicateExpr>),
    /// Negation. After NOT-push-down, always wraps an atom.
    Not(Box<PredicateExpr>),
    /// Constant true (predicate matches every row).
    True,
    /// Constant false (predicate matches no rows).
    False,
}

/// Field reference after binding: `name` or `name['key']`.
#[derive(Debug)]
pub struct FieldRef {
    /// Field name.
    pub name: String,
    /// Bracketed map key.
    pub subscript: Option<String>,
}

/// Predicate atom kinds.
#[allow(inconsistent_fields)]
#[derive(Debug)]
pub enum PredAtom {
    /// `field = value`.
    Eq {
        /// Target field.
        field: FieldRef,
        /// Right-hand side.
        value: BoundExpr,
    },
    /// `field <op> value` for ops other than `=`.
    Cmp {
        /// Target field.
        field: FieldRef,
        /// Comparison operator.
        op: CmpOp,
        /// Right-hand side.
        value: BoundExpr,
    },
    /// `field IN (lit, lit, ...)`.
    In {
        /// Target field.
        field: FieldRef,
        /// Membership set.
        values: Vec<BoundLiteral>,
    },
    /// `field BETWEEN lo AND hi`.
    Between {
        /// Target field.
        field: FieldRef,
        /// Lower bound (inclusive).
        lo: BoundLiteral,
        /// Upper bound (inclusive).
        hi: BoundLiteral,
    },
    /// `field IS NOT NULL`. The binder normalises `IS NULL` to
    /// `NOT IsNotNull(field)` so downstream code only handles one shape.
    IsNotNull {
        /// Target field.
        field: FieldRef,
    },
    /// `field @> value`: array containment.
    ArrayContains {
        /// Target field.
        field: FieldRef,
        /// Value the array must contain.
        value: BoundLiteral,
    },
    /// `embedding <metric> $param <op> radius`.
    DistanceThreshold {
        /// Distance metric operator.
        metric: DistanceOp,
        /// Query vector parameter.
        param: ParamRef,
        /// Comparison against the radius bound.
        op: CmpOp,
        /// Distance bound, as the bit pattern of a 32-bit value.
        radius: u32,
    },
}

/// Value expression after binding: either a literal or a parameter reference.
#[derive(Debug)]
pub enum BoundExpr {
    /// Inline literal.
    Literal(BoundLiteral),
    /// Parameter binding.
    Param(ParamRef),
}

/// Literal value after binding. Same variants as the AST literal.
#[derive(Debug)]
pub enum BoundLiteral {
    /// Single-quoted string.
    String(String),
    /// Integer literal.
    I64(i64),
    /// Floating-point literal, as its bit pattern.
    F64(u64),
    /// Boolean.
    Bool(bool),
    /// `NULL`.
    Null,
}

/// ORDER BY ordering after binding.
#[derive(Debug)]
pub enum OrderingSpec {
    /// Order by a distance expression: `ORDER BY embedding <-> $1`. Always
    /// ascending (binder rejects `DESC` for distance).
    Distance {
        /// Distance metric.
        metric: DistanceOp,
        /// Query vector parameter.
        param: ParamRef,
    },
    /// Order by a metadata field: `ORDER BY year DESC`.
    Field {
        /// Field name.
        name: String,
        /// Sort direction.
        dir: OrderDir,
    },
}

/// Projection list after binding.
#[derive(Debug)]
pub struct ProjectionSpec {
    /// Output columns in order.
    pub columns: Vec<BoundProjection>,
}

/// One projection column after binding. The binder has resolved magic names
/// (`id`, `metadata`) and lifted aliases into the variants that can carry
/// them.
#[allow(inconsistent_fields)]
#[derive(Debug)]
pub enum BoundProjection {
    /// `SELECT *`. Always appears alone (binder check).
    Wildcard,
    /// `COUNT(*)`. Optional alias.
    CountStar {
        /// Optional `AS alias`.
        alias: Option<String>,
    },
    /// The row primary key column.
    Id {
        /// Optional `AS alias`.
        alias: Option<String>,
    },
    /// The whole metadata bag.
    Metadata {
        /// Optional `AS alias`.
        alias: Option<String>,
    },
    /// `embedding <metric> $param AS alias`. The alias is required because
    /// there's no natural column name for a distance expression.
    Distance {
        /// Distance metric.
        metric: DistanceOp,
        /// Query vector parameter.
        param: ParamRef,
        /// Output column alias.
        alias: String,
    },
    /// A metadata field by name.
    MetadataField {
        /// Field name in the metadata bag.
        name: String,
        /// Optional `AS alias`.
        alias: Option<String>,
    },
}

// ----- Models -----

/// A condition on one row, atom by atom.
pub enum CondAtom {
    Eq(Field, Expr),
    Cmp(Field, CmpOp, Expr),
    In(Field, Seq<Literal>),
    Between(Field, Literal, Literal),
    IsNotNull(Field),
    ArrayContains(Field, Literal),
    DistanceThreshold(Distance, CmpOp, u32),
}

/// A condition on one row.
pub enum Cond {
    Atom(CondAtom),
    And(Seq<Cond>),
    Or(Seq<Cond>),
    Not(Box<Cond>),
    True,
    False,
}

/// An output column.
pub enum Column {
    Wildcard,
    CountStar(Option<Seq<char>>),
    Id(Option<Seq<char>>),
    Metadata(Option<Seq<char>>),
    Distance(Distance, Seq<char>),
    Field(Seq<char>, Option<Seq<char>>),
}

/// An ordering key.
pub enum SortKey {
    Distance(Distance),
    Field(Seq<char>, OrderDir),
}

/// The single id that a predicate asks for.
pub enum Hint {
    Literal(u64),
    Param(Param),
}

/// A bound `SELECT`.
pub struct BoundQuery {
    pub from_table: Seq<char>,
    pub projection: Seq<Column>,
    pub predicate: Option<Cond>,
    pub ordering: Seq<SortKey>,
    pub limit: Option<u64>,
}

/// A bound statement.
pub enum Logical {
    Query(BoundQuery),
    InsertOne { table: Seq<char>, id: Param, embedding: Param, metadata: Param },
    InsertMany { table: Seq<char>, batch: Param },
    Update {
        table: Seq<char>,
        predicate: Cond,
        assignments: Seq<Assign>,
        hint: Option<Hint>,
    },
    Delete { table: Seq<char>, predicate: Cond, hint: Option<Hint> },
    Vacuum { table: Seq<char> },
    Checkpoint,
    CreateIndex { name: Seq<char>, table: Seq<char>, method: IndexMethod, field: Seq<char> },
    DropIndex { name: Seq<char>, table: Seq<char> },
}

impl View for FieldRef {
    type V = Field;

    open spec fn view(&self) -> Field {
        Field { name: self.name@, subscript: opt_text(self.subscript) }
    }
}

impl View for BoundLiteral {
    type V = Literal;

    open spec fn view(&self) -> Literal {
        match self {
            BoundLiteral::String(s) => Literal::Str(s@),
            BoundLiteral::I64(n) => Literal::I64(*n),
            BoundLiteral::F64(b) => Literal::F64(*b),
            BoundLiteral::Bool(b) => Literal::Bool(*b),
            BoundLiteral::Null => Literal::Null,
        }
    }
}

impl View for BoundExpr {
    type V = Expr;

    open spec fn view(&self) -> Expr {
        match self {
            BoundExpr::Param(p) => Expr::Param(p@),
            BoundExpr::Literal(l) => Expr::Literal(l@),
        }
    }
}

impl View for PredAtom {
    type V = CondAtom;

    open spec fn view(&self) -> CondAtom {
        match self {
            PredAtom::Eq { field, value } => CondAtom::Eq(field@, value@),
            PredAtom::Cmp { field, op, value } => CondAtom::Cmp(field@, *op, value@),
            PredAtom::In { field, values } => CondAtom::In(field@, views(values@)),
            PredAtom::Between { field, lo, hi } => CondAtom::Between(field@, lo@, hi@),
            PredAtom::IsNotNull { field } => CondAtom::IsNotNull(field@),
            PredAtom::ArrayContains { field, value } => CondAtom::ArrayContains(field@, value@),
            PredAtom::DistanceThreshold { metric, param, op, radius } => {
                CondAtom::DistanceThreshold(
                    Distance { metric: *metric, param: param@ },
                    *op,
                    *radius,
                )
            },
        }
    }
}

impl PredicateExpr {
    pub open spec fn model(&self) -> Cond
        decreases self,
    {
        match self {
            PredicateExpr::Atom(a) => Cond::Atom(a@),
            PredicateExpr::And(ps) => Cond::And(conds(ps@)),
            PredicateExpr::Or(ps) => Cond::Or(conds(ps@)),
            PredicateExpr::Not(p) => Cond::Not(Box::new(p.model())),
            PredicateExpr::True => Cond::True,
            PredicateExpr::False => Cond::False,
        }
    }
}

pub open spec fn conds(v: Seq<PredicateExpr>) -> Seq<Cond>
    decreases v,
{
    Seq::new(
        v.len(),
        |i: int|
            if 0 <= i < v.len() {
                v[i].model()
            } else {
                arbitrary()
            },
    )
}

impl View for PredicateExpr {
    type V = Cond;

    open spec fn view(&self) -> Cond {
        self.model()
    }
}

pub open spec fn opt_cond(o: Option<PredicateExpr>) -> Option<Cond> {
    match o {
        Some(p) => Some(p.model()),
        None => None,
    }
}

impl View for LogicalAssignment {
    type V = Assign;

    open spec fn view(&self) -> Assign {
        Assign { field: self.field@, subscript: opt_text(self.subscript), value: self.value@ }
    }
}

impl View for OrderingSpec {
    type V = SortKey;

    open spec fn view(&self) -> SortKey {
        match self {
            OrderingSpec::Distance { metric, param } => SortKey::Distance(
                Distance { metric: *metric, param: param@ },
            ),
            OrderingSpec::Field { name, dir } => SortKey::Field(name@, *dir),
        }
    }
}

impl View for BoundProjection {
    type V = Column;

    open spec fn view(&self) -> Column {
        match self {
            BoundProjection::Wildcard => Column::Wildcard,
            BoundProjection::CountStar { alias } => Column::CountStar(opt_text(*alias)),
            BoundProjection::Id { alias } => Column::Id(opt_text(*alias)),
            BoundProjection::Metadata { alias } => Column::Metadata(opt_text(*alias)),
            BoundProjection::Distance { metric, param, alias } => Column::Distance(
                Distance { metric: *metric, param: param@ },
                alias@,
            ),
            BoundProjection::MetadataField { name, alias } => Column::Field(
                name@,
                opt_text(*alias),
            ),
        }
    }
}

impl View for ProjectionSpec {
    type V = Seq<Column>;

    open spec fn view(&self) -> Seq<Column> {
        views(self.columns@)
    }
}

impl View for IdHint {
    type V = Hint;

    open spec fn view(&self) -> Hint {
        match self {
            IdHint::Literal(n) => Hint::Literal(*n),
            IdHint::Param(p) => Hint::Param(p@),
        }
    }
}

pub open spec fn opt_hint(o: Option<IdHint>) -> Option<Hint> {
    match o {
        Some(h) => Some(h@),
        None => None,
    }
}

impl View for LogicalQuery {
    type V = BoundQuery;

    open spec fn view(&self) -> BoundQuery {
        BoundQuery {
            from_table: self.from_table@,
            projection: self.projection@,
            predicate: opt_cond(self.predicate),
            ordering: views(self.ordering@),
            limit: self.limit,
        }
    }
}

impl View for LogicalStatement {
    type V = Logical;

    open spec fn view(&self) -> Logical {
        match self {
            LogicalStatement::Query(q) => Logical::Query(q@),
            LogicalStatement::Insert(i) => match i.rows {
                LogicalInsertSource::Single { id, embedding, metadata } => Logical::InsertOne {
                    table: i.table@,
                    id: id@,
                    embedding: embedding@,
                    metadata: metadata@,
                },
                LogicalInsertSource::Batch { param } => Logical::InsertMany {
                    table: i.table@,
                    batch: param@,
                },
            },
            LogicalStatement::Update(u) => Logical::Update {
                table: u.table@,
                predicate: u.predicate@,
                assignments: views(u.assignments@),
                hint: opt_hint(u.single_id_hint),
            },
            LogicalStatement::Delete(d) => Logical::Delete {
                table: d.table@,
                predicate: d.predicate@,
                hint: opt_hint(d.single_id_hint),
            },
            LogicalStatement::Vacuum(v) => Logical::Vacuum { table: v.table@ },
            LogicalStatement::Checkpoint => Logical::Checkpoint,
            LogicalStatement::CreateIndex(c) => Logical::CreateIndex {
                name: c.name@,
                table: c.table@,
                method: c.method,
                field: c.field@,
            },
            LogicalStatement::DropIndex(d) => Logical::DropIndex { name: d.name@, table: d.table@ },
        }
    }
}

// ----- Copies -----

impl FieldRef {
    /// A field without a subscript.
    pub fn plain(name: &str) -> (r: FieldRef)
        ensures
            r@ == (Field { name: name@, subscript: None }),
    {
        FieldRef { name: name.to_owned(), subscript: None }
    }

    /// A copy of the reference.
    pub fn copy(&self) -> (r: FieldRef)
        ensures
            r@ == self@,
    {
        FieldRef { name: self.name.clone(), subscript: copy_opt(&self.subscript) }
    }
}

/// A copy of an optional text.
pub fn copy_opt(o: &Option<String>) -> (r: Option<String>)
    ensures
        opt_text(r) == opt_text(*o),
{
    match o {
        Some(s) => Some(s.clone()),
        None => None,
    }
}

/// A copy of a parameter reference.
pub fn copy_param(p: &ParamRef) -> (r: ParamRef)
    ensures
        r@ == p@,
{
    match p {
        ParamRef::Positional(n) => ParamRef::Positional(*n),
        ParamRef::Named(s) => ParamRef::Named(s.clone()),
    }
}

impl BoundLiteral {
    /// A copy of the literal.
    pub fn copy(&self) -> (r: BoundLiteral)
        ensures
            r@ == self@,
    {
        match self {
            BoundLiteral::String(s) => BoundLiteral::String(s.clone()),
            BoundLiteral::I64(n) => BoundLiteral::I64(*n),
            BoundLiteral::F64(b) => BoundLiteral::F64(*b),
            BoundLiteral::Bool(b) => BoundLiteral::Bool(*b),
            BoundLiteral::Null => BoundLiteral::Null,
        }
    }
}

impl BoundExpr {
    /// A copy of the expression.
    pub fn copy(&self) -> (r: BoundExpr)
        ensures
            r@ == self@,
    {
        match self {
            BoundExpr::Param(p) => BoundExpr::Param(copy_param(p)),
            BoundExpr::Literal(l) => BoundExpr::Literal(l.copy()),
        }
    }
}

impl PredAtom {
    /// A copy of the atom.
    pub fn copy(&self) -> (r: PredAtom)
        ensures
            r@ == self@,
    {
        match self {
            PredAtom::Eq { field, value } => PredAtom::Eq {
                field: field.copy(),
                value: value.copy(),
            },
            PredAtom::Cmp { field, op, value } => PredAtom::Cmp {
                field: field.copy(),
                op: *op,
                value: value.copy(),
            },
            PredAtom::In { field, values } => {
                let mut ls: Vec<BoundLiteral> = Vec::new();
                let mut i: usize = 0;
                while i < values.len()
                    invariant
                        i <= values.len(),
                        views(ls@) =~= views(values@).take(i as int),
                    decreases values.len() - i,
                {
                    let l: BoundLiteral = values[i].copy();
                    let ghost before = ls@;
                    ls.push(l);
                    assert(views(before.push(l)) =~= views(before).push(l@));
                    i = i + 1;
                }
                assert(views(ls@) =~= views(values@));
                PredAtom::In { field: field.copy(), values: ls }
            },
            PredAtom::Between { field, lo, hi } => PredAtom::Between {
                field: field.copy(),
                lo: lo.copy(),
                hi: hi.copy(),
            },
            PredAtom::IsNotNull { field } => PredAtom::IsNotNull { field: field.copy() },
            PredAtom::ArrayContains { field, value } => PredAtom::ArrayContains {
                field: field.copy(),
                value: value.copy(),
            },
            PredAtom::DistanceThreshold { metric, param, op, radius } => {
                PredAtom::DistanceThreshold {
                    metric: *metric,
                    param: copy_param(param),
                    op: *op,
                    radius: *radius,
                }
            },
        }
    }
}

impl PredicateExpr {
    /// A copy of the predicate.
    pub fn copy(&self) -> (r: PredicateExpr)
        ensures
            r@ == self@,
        decreases self, 0int,
    {
        match self {
            PredicateExpr::Atom(a) => PredicateExpr::Atom(a.copy()),
            PredicateExpr::And(ps) => PredicateExpr::And(copy_predicates(ps)),
            PredicateExpr::Or(ps) => PredicateExpr::Or(copy_predicates(ps)),
            PredicateExpr::Not(p) => PredicateExpr::Not(Box::new(p.copy())),
            PredicateExpr::True => PredicateExpr::True,
            PredicateExpr::False => PredicateExpr::False,
        }
    }
}

fn copy_predicates(ps: &Vec<PredicateExpr>) -> (r: Vec<PredicateExpr>)
    ensures
        conds(r@) == conds(ps@),
    decreases ps, 1int,
{
    let mut r: Vec<PredicateExpr> = Vec::new();
    let mut i: usize = 0;
    while i < ps.len()
        invariant
            i <= ps.len(),
            conds(r@) =~= conds(ps@).take(i as int),
        decreases ps.len() - i,
    {
        assert(decreases_to!(ps => ps@[i as int]));
        let p: PredicateExpr = ps[i].copy();
        let ghost before = r@;
        r.push(p);
        assert(conds(before.push(p)) =~= conds(before).push(p@));
        i = i + 1;
    }
    assert(conds(ps@).take(ps.len() as int) =~= conds(ps@));
    r
}

} // verus!
