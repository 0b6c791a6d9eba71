//! What goes wrong, in which order, and what the errors say.

use crate::assign::assigned;
use crate::ast::OrderDir;
use crate::binder::{bound, bound_columns, bound_keys, plain_columns};
use crate::cost::PlanKind;
use crate::error::{Failure, KovaQueryError};
use crate::eval::{agrees, agrees_all, agrees_as, arg_val, atom_holds};
use crate::executor::{all_rewritten, compiled, kind_name, read_started, resumed, started};
use crate::index_eval::asks;
use crate::keyword::same_ignoring_case;
use crate::logical::{BoundQuery, Column, Cond, CondAtom, Logical, SortKey};
use crate::params::{resolve_arg, Arg, Bindings};
use crate::parser::{parse_text, syntax_error};
use crate::physical::Plan;
use crate::planner::{ball_of, has_distance, or_with_distance, planned};
use crate::rows::{cell, Cell, Hit};
use crate::statement_laws::names_row;
use crate::steps::{Answer, Next, Phase, Wait};
use crate::syntax::{Assign, Distance, Expr, Order, Param, Pred, Proj, Query, Source, Stmt};
use crate::text::numeral;
use crate::value::{Bag, Val};
use vstd::prelude::*;

verus! {

// ----- Agreement -----

/// A result agrees with its model where both succeed with the same value, or
/// both fail with the same error, and nowhere else.
pub proof fn law_agreement<T: View>(
    r: Result<T, KovaQueryError>,
    p: Result<T::V, Failure>,
    s: Result<T, KovaQueryError>,
    q: Result<T, Failure>,
    v: Result<Vec<T>, KovaQueryError>,
    m: Result<Seq<T::V>, Failure>,
)
    ensures
        agrees_as(r, p) <==> (r is Ok <==> p is Ok) && (r is Ok ==> r->Ok_0@ == p->Ok_0) && (r is Err
            ==> r->Err_0@ == p->Err_0),
        agrees(s, q) <==> (s is Ok <==> q is Ok) && (s is Ok ==> s->Ok_0 == q->Ok_0) && (s is Err
            ==> s->Err_0@ == q->Err_0),
        agrees_all(v, m) ==> (v is Ok <==> m is Ok),
        agrees_all(v, m) && v is Err ==> v->Err_0@ == m->Err_0,
        agrees_all(v, m) && v is Ok ==> v->Ok_0@.len() == m->Ok_0.len() && forall|i: int|
            0 <= i < v->Ok_0@.len() ==> #[trigger] m->Ok_0[i] == v->Ok_0@[i]@,
{
}

// ----- Parameters -----

/// The label of a kind of value.
pub open spec fn label(a: Arg) -> Seq<char> {
    match a {
        Arg::Id(_) => "Id"@,
        Arg::Vector(_) => "Vector"@,
        Arg::Metadata(_) => "Metadata"@,
        Arg::Batch(_) => "Batch"@,
        Arg::Str(_) => "String"@,
        Arg::I64(_) => "I64"@,
        Arg::F64(_) => "F64"@,
        Arg::Bool(_) => "Bool"@,
        Arg::Null => "Null"@,
    }
}

/// What is said of a parameter that is not bound.
pub proof fn law_unbound_parameters(b: Bindings, n: u32, name: Seq<char>)
    ensures
        resolve_arg(b, Param::Positional(0)) == Err::<Arg, Failure>(
            Failure::Execution("positional parameter $0 is invalid (slots are 1-based)"@),
        ),
        n > b.positional.len() ==> resolve_arg(b, Param::Positional(n)) == Err::<Arg, Failure>(
            Failure::Execution(
                "positional parameter $"@ + numeral(n as nat) + " not bound (have "@ + numeral(
                    b.positional.len(),
                ) + " value(s))"@,
            ),
        ),
        !b.named.contains_key(name) ==> resolve_arg(b, Param::Named(name)) == Err::<Arg, Failure>(
            Failure::Execution("named parameter $"@ + name + " not bound"@),
        ),
{
}

/// What is said of a parameter that no row can be compared with.
pub proof fn law_unusable_in_where(a: Arg)
    requires
        a is Id || a is Vector || a is Metadata || a is Batch,
    ensures
        arg_val(a) == Err::<Val, Failure>(
            Failure::Execution(
                "parameter in WHERE clause must be a literal type (String/I64/F64/Bool/Null), got "@
                    + label(a),
            ),
        ),
{
}

/// What a slot of an `INSERT` expects, and what is said of anything else: the
/// table is looked at first, then the id, the embedding and the metadata.
pub proof fn law_insert_errors(
    t: Seq<char>,
    ps: (Param, Param, Param),
    xs: (Arg, Arg, Arg),
    batch: (Param, Arg),
    table: Seq<char>,
    b: Bindings,
)
    requires
        same_ignoring_case(t, table),
        resolve_arg(b, ps.0) == Ok::<Arg, Failure>(xs.0),
        resolve_arg(b, ps.1) == Ok::<Arg, Failure>(xs.1),
        resolve_arg(b, ps.2) == Ok::<Arg, Failure>(xs.2),
        resolve_arg(b, batch.0) == Ok::<Arg, Failure>(batch.1),
    ensures
        ({
            let r = started(
                Plan::InsertOne { table: t, id: ps.0, embedding: ps.1, metadata: ps.2 },
                b,
                table,
            );
            let many = started(Plan::InsertMany { table: t, batch: batch.0 }, b, table);
            &&& !(xs.0 is Id) ==> r == Err::<Next, Failure>(
                Failure::Execution(
                    "parameter slot '"@ + "id"@ + "' expects "@ + "Id"@ + ", got "@ + label(xs.0),
                ),
            )
            &&& xs.0 is Id && !(xs.1 is Vector) ==> r == Err::<Next, Failure>(
                Failure::Execution(
                    "parameter slot '"@ + "embedding"@ + "' expects "@ + "Vector"@ + ", got "@
                        + label(xs.1),
                ),
            )
            &&& xs.0 is Id && xs.1 is Vector && !(xs.2 is Metadata) ==> r == Err::<Next, Failure>(
                Failure::Execution(
                    "parameter slot '"@ + "metadata"@ + "' expects "@ + "Metadata"@ + ", got "@
                        + label(xs.2),
                ),
            )
            &&& !(batch.1 is Batch) ==> many == Err::<Next, Failure>(
                Failure::Execution(
                    "parameter slot '"@ + "batch"@ + "' expects "@ + "Batch"@ + ", got "@ + label(
                        batch.1,
                    ),
                ),
            )
        }),
{
}

/// A parameter that is not bound fails the statement that needs it, with the
/// error of the parameter; the first of several decides.
pub proof fn law_unbound_slots(
    t: Seq<char>,
    ps: (Param, Param, Param),
    assignments: Seq<Assign>,
    e: Failure,
    table: Seq<char>,
    b: Bindings,
)
    requires
        same_ignoring_case(t, table),
        resolve_arg(b, ps.0) == Err::<Arg, Failure>(e),
    ensures
        started(
            Plan::InsertOne { table: t, id: ps.0, embedding: ps.1, metadata: ps.2 },
            b,
            table,
        ) == Err::<Next, Failure>(e),
        started(Plan::InsertMany { table: t, batch: ps.0 }, b, table) == Err::<Next, Failure>(e),
        started(Plan::DeleteByParamId { table: t, id_param: ps.0 }, b, table) == Err::<
            Next,
            Failure,
        >(e),
        started(Plan::UpdateByParamId { table: t, id_param: ps.0, assignments }, b, table) == Err::<
            Next,
            Failure,
        >(e),
{
}

/// An update by a bound id looks at the id before it looks at the table; every
/// other statement looks at the table first.
pub proof fn law_table_comes_first(
    t: Seq<char>,
    ps: (Param, Param, Param),
    assignments: Seq<Assign>,
    e: Failure,
    id: u64,
    table: Seq<char>,
    b: Bindings,
)
    requires
        !same_ignoring_case(t, table),
    ensures
        ({
            let refusal = Err::<Next, Failure>(
                Failure::Execution(
                    "unknown table '"@ + t + "' ; this engine is wrapping '"@ + table + "'"@,
                ),
            );
            let update = started(
                Plan::UpdateByParamId { table: t, id_param: ps.0, assignments },
                b,
                table,
            );
            &&& started(
                Plan::InsertOne { table: t, id: ps.0, embedding: ps.1, metadata: ps.2 },
                b,
                table,
            ) == refusal
            &&& started(Plan::InsertMany { table: t, batch: ps.0 }, b, table) == refusal
            &&& started(Plan::DeleteById { table: t, id }, b, table) == refusal
            &&& started(Plan::DeleteByParamId { table: t, id_param: ps.0 }, b, table) == refusal
            &&& started(Plan::UpdateById { table: t, id, assignments }, b, table) == refusal
            &&& resolve_arg(b, ps.0) == Err::<Arg, Failure>(e) ==> update == Err::<Next, Failure>(e)
            &&& resolve_arg(b, ps.0) == Ok::<Arg, Failure>(Arg::Id(id)) ==> update == refusal
        }),
{
}

// ----- Rows -----

/// What is said of a row that an update does not find.
pub proof fn law_missing_rows(t: Seq<char>, assignments: Seq<Assign>, id: u64, b: Bindings)
    ensures
        resumed(Wait::Target { table: t, id, assignments }, Answer::Metadata(seq![None]), b)
            == Err::<Next, Failure>(
            Failure::Execution(
                "UPDATE target id "@ + ("VectorId("@ + numeral(id as nat) + ")"@)
                    + " not found in metadata store"@,
            ),
        ),
        resumed(
            Wait::Targets { ids: seq![id], table: t, assignments },
            Answer::Metadata(seq![None]),
            b,
        ) == Err::<Next, Failure>(
            Failure::Execution(
                "id "@ + ("VectorId("@ + numeral(id as nat) + ")"@)
                    + " disappeared from metadata store between scan and update"@,
            ),
        ),
{
    let ids = seq![id];
    reveal_with_fuel(all_rewritten, 2);
    assert(ids.drop_last() =~= Seq::empty());
}

/// What is said of a subscripted assignment to a field that is no nested bag.
pub proof fn law_refused_overwrite(bag: Bag, a: Assign, b: Bindings)
    requires
        a.subscript is Some,
        a.value is Literal,
        bag.contains_key(a.field) && !(bag[a.field] is Object),
    ensures
        assigned(bag, a, b) == Err::<Bag, Failure>(
            Failure::Execution(
                "subscripted assignment to field '"@ + a.field
                    + "' : expected a Map value, found a different type ; refusing to overwrite"@,
            ),
        ),
{
}

/// What is said of a column that cannot be shown.
pub proof fn law_hidden_columns(h: Hit, d: Column, alias: Option<Seq<char>>)
    requires
        d is Distance,
    ensures
        h.distance is None ==> cell(h, d) == Err::<Cell, Failure>(
            Failure::Plan(
                "distance projection requires a kNN ordering ; this plan didn't compute distances"@,
            ),
        ),
        cell(h, Column::Wildcard) == Err::<Cell, Failure>(
            Failure::Plan("wildcard projection should have been expanded by the planner"@),
        ),
        cell(h, Column::CountStar(alias)) == Err::<Cell, Failure>(
            Failure::Plan("COUNT(*) is not supported in plan A ; lands with aggregates later"@),
        ),
{
}

/// A row by itself knows no distance.
pub proof fn law_no_distance_in_rows(a: CondAtom, bag: Bag, b: Bindings)
    requires
        a is DistanceThreshold,
    ensures
        atom_holds(a, bag, b) == Err::<bool, Failure>(
            Failure::Execution(
                "DistanceThreshold predicate in SELECT WHERE is not supported in plan A ; use it as a radius search later"@,
            ),
        ),
{
}

// ----- Statements -----

/// A statement is compiled by parsing it, then binding it; the first of the
/// two that fails decides, and a parse error says where.
pub proof fn law_compiling(input: Seq<char>)
    ensures
        match parse_text(input) {
            Ok(s) => compiled(input) == bound(s),
            Err(pos) => compiled(input) == Err::<Logical, Failure>(
                Failure::Parse(syntax_error(input, pos)),
            ),
        },
{
}

/// Each stage fails with errors of its own kind: binding says what is wrong
/// with the statement, planning what cannot be answered.
pub proof fn law_errors_by_stage(s: Stmt, l: Logical, kind: PlanKind)
    ensures
        bound(s) matches Err(e) ==> e is Bind,
        planned(l, kind) matches Err(e) ==> e is Plan,
{
    if let Stmt::Select(q) = s {
        lemma_column_errors(q.projection);
        lemma_key_errors(q.order_by);
    }
}

proof fn lemma_column_errors(ps: Seq<Proj>)
    ensures
        plain_columns(ps) matches Err(e) ==> e is Bind,
    decreases ps.len(),
{
    if ps.len() > 0 {
        lemma_column_errors(ps.drop_last());
    }
}

proof fn lemma_key_errors(os: Seq<Order>)
    ensures
        bound_keys(os) matches Err(e) ==> e is Bind,
    decreases os.len(),
{
    if os.len() > 0 {
        lemma_key_errors(os.drop_last());
    }
}

/// What binding says is wrong.
pub proof fn law_bind_errors(
    t: Seq<char>,
    columns: Seq<Seq<char>>,
    source: Source,
    rows: Seq<Seq<Expr>>,
    assignments: Seq<Assign>,
    p: Pred,
)
    ensures
        !names_row(columns) ==> bound(Stmt::Insert { table: t, columns, source }) == Err::<
            Logical,
            Failure,
        >(Failure::Bind("INSERT takes the columns (id, embedding, metadata)"@)),
        names_row(columns) && rows.len() != 1 ==> bound(
            Stmt::Insert { table: t, columns, source: Source::Rows(rows) },
        ) == Err::<Logical, Failure>(
            Failure::Bind("INSERT takes one row of three parameters"@),
        ),
        (exists|i: int|
            0 <= i < assignments.len() && same_ignoring_case(
                (#[trigger] assignments[i]).field,
                "embedding"@,
            )) ==> bound(Stmt::Update { table: t, assignments, predicate: p }) == Err::<
            Logical,
            Failure,
        >(Failure::Bind("embeddings are immutable ; UPDATE cannot assign embedding"@)),
{
}

/// A bare count is planned as one, whatever its order and limit: over the rows
/// of its own table that satisfy its own predicate.
pub proof fn law_counts_are_planned(q: BoundQuery, name: Seq<char>, kind: PlanKind)
    requires
        q.projection.len() == 1,
        q.projection[0] == Column::CountStar(Some(name)),
    ensures
        planned(Logical::Query(q), kind) == Ok::<Plan, Failure>(
            Plan::Count { table: q.from_table, predicate: q.predicate, column_name: name },
        ),
{
}

/// The names of the operators, as errors show them.
pub proof fn law_operator_names(
    p: Plan,
    stages: Seq<Phase>,
    columns: Seq<Column>,
    b: Bindings,
    t: Seq<char>,
)
    ensures
        kind_name(p) == match p {
            Plan::Checkpoint => "Checkpoint"@,
            Plan::Vacuum { .. } => "Vacuum"@,
            Plan::InsertOne { .. } => "InsertOne"@,
            Plan::InsertMany { .. } => "InsertMany"@,
            Plan::DeleteById { .. } => "DeleteById"@,
            Plan::DeleteByParamId { .. } => "DeleteByParamId"@,
            Plan::DeleteByRadius { .. } => "DeleteByRadius"@,
            Plan::DeleteByPredicate { .. } => "DeleteByPredicate"@,
            Plan::UpdateById { .. } => "UpdateById"@,
            Plan::UpdateByParamId { .. } => "UpdateByParamId"@,
            Plan::UpdateByRadius { .. } => "UpdateByRadius"@,
            Plan::UpdateByPredicate { .. } => "UpdateByPredicate"@,
            Plan::CreateIndex { .. } => "CreateIndex"@,
            Plan::DropIndex { .. } => "DropIndex"@,
            Plan::KnnSearch { .. } => "KnnSearch"@,
            Plan::FilteredKnnSearch { .. } => "FilteredKnnSearch"@,
            Plan::RadiusSearch { .. } => "RadiusSearch"@,
            Plan::MetadataScan { .. } => "MetadataScan"@,
            Plan::ExactDistance { .. } => "ExactDistance"@,
            Plan::Limit { .. } => "Limit"@,
            Plan::Projection { .. } => "Projection"@,
            Plan::Count { .. } => "Count"@,
        },
        p is Checkpoint || p is Vacuum || p is InsertOne || p is DeleteById || p is Count
            || p is Projection ==> read_started(p, stages, columns, b, t) == Err::<Next, Failure>(
            Failure::Plan(kind_name(p) + " is not a read-path operator"@),
        ),
        p is KnnSearch || p is RadiusSearch || p is MetadataScan || p is Limit
            || p is ExactDistance || p is FilteredKnnSearch ==> started(p, b, t) == Err::<
            Next,
            Failure,
        >(
            Failure::Plan("read-path operator at top level ; planner must wrap in Projection"@),
        ),
{
}

/// What binding says of a `SELECT`: of its first column or key that is wrong,
/// the columns before the keys.
pub proof fn law_select_errors(d: Distance, p: Proj, a: Seq<char>, ps: Seq<Proj>, q: Query)
    ensures
        bound_columns(seq![Proj::DistanceExpr(d)]) == Err::<Seq<Column>, Failure>(
            Failure::Bind("a distance projection needs an alias: `embedding <op> $q AS name`"@),
        ),
        p is Wildcard || p is Aliased ==> bound_columns(seq![Proj::Aliased(Box::new(p), a)])
            == Err::<Seq<Column>, Failure>(
            Failure::Bind("only a single column can have an alias"@),
        ),
        ps.len() > 1 && ps.contains(Proj::Wildcard) ==> bound_columns(ps) == Err::<
            Seq<Column>,
            Failure,
        >(Failure::Bind("wildcard cannot appear alongside other columns"@)),
        bound_keys(seq![Order::Distance(d, OrderDir::Desc)]) == Err::<Seq<SortKey>, Failure>(
            Failure::Bind("distance ordering is ascending only ; DESC is not supported"@),
        ),
        bound_columns(q.projection) matches Err(e) ==> bound(Stmt::Select(q)) == Err::<
            Logical,
            Failure,
        >(e),
        bound_columns(q.projection) is Ok ==> (bound_keys(q.order_by) matches Err(e) ==> bound(
            Stmt::Select(q),
        ) == Err::<Logical, Failure>(e)),
        bound_columns(q.projection) is Ok && bound_keys(q.order_by) is Ok && bound(
            Stmt::Select(q),
        ) is Err ==> bound(Stmt::Select(q)) == Err::<Logical, Failure>(
            Failure::Bind("a kNN query (ORDER BY a distance) needs a LIMIT"@),
        ),
{
    reveal_with_fuel(plain_columns, 2);
    reveal_with_fuel(bound_keys, 2);
    assert(seq![Proj::DistanceExpr(d)].drop_last() =~= Seq::empty());
    assert(seq![Proj::Aliased(Box::new(p), a)].drop_last() =~= Seq::empty());
    assert(seq![Order::Distance(d, OrderDir::Desc)].drop_last() =~= Seq::empty());
}

/// What planning says cannot be answered.
pub proof fn law_plan_errors(q: BoundQuery, t: Seq<char>, c: Cond, v: Seq<Assign>, kind: PlanKind)
    requires
        q.projection.len() != 1 || !(q.projection[0] is CountStar),
    ensures
        ({
            let r = planned(Logical::Query(q), kind);
            let none = q.ordering.len() == 0;
            let p = q.predicate;
            let or_text = "OR containing a distance-threshold atom isn't supported ; needs per-branch selectivity plus a Union operator that merges radius balls, neither of which ships yet"@;
            &&& none && p is Some && or_with_distance(p->Some_0) ==> r == Err::<Plan, Failure>(
                Failure::Plan(or_text),
            )
            &&& none && p is None && q.limit is Some ==> r == Err::<Plan, Failure>(
                Failure::Plan(
                    "LIMIT without ORDER BY requires a WHERE clause ; unbounded slice-scans aren't supported"@,
                ),
            )
            &&& none && p is Some && !or_with_distance(p->Some_0) && ball_of(p->Some_0) is None
                && q.limit is Some && has_distance(p->Some_0) ==> r == Err::<Plan, Failure>(
                Failure::Plan(
                    "distance-threshold predicate in a shape the radius planner doesn't recognise (e.g. NOT, nested OR) ; only `<distance> < r` / `<distance> <= r` at the top of the WHERE is supported"@,
                ),
            )
            &&& !none && !(q.ordering[0] is Distance) ==> r == Err::<Plan, Failure>(
                Failure::Plan(
                    "v1 supports only kNN SELECTs : need `ORDER BY embedding <op> $q LIMIT k`. Scan-and-filter (without distance ordering) lands when plan B ships."@,
                ),
            )
            &&& or_with_distance(c) ==> planned(
                Logical::Delete { table: t, predicate: c, hint: None },
                kind,
            ) == Err::<Plan, Failure>(Failure::Plan(or_text)) && planned(
                Logical::Update { table: t, predicate: c, assignments: v, hint: None },
                kind,
            ) == Err::<Plan, Failure>(Failure::Plan(or_text))
            &&& !or_with_distance(c) && ball_of(c) is None && has_distance(c) ==> planned(
                Logical::Delete { table: t, predicate: c, hint: None },
                kind,
            ) == Err::<Plan, Failure>(
                Failure::Plan(
                    "DELETE WHERE <distance-threshold> isn't supported ; distance predicates need the radius operator, not the metadata scan"@,
                ),
            ) && planned(
                Logical::Update { table: t, predicate: c, assignments: v, hint: None },
                kind,
            ) == Err::<Plan, Failure>(
                Failure::Plan(
                    "UPDATE WHERE <distance-threshold> isn't supported ; distance predicates need the radius operator, not the metadata scan"@,
                ),
            )
        }),
{
}

/// Whether a reply answers what was asked: it is of the right kind, and has
/// one item for each that was asked about.
pub open spec fn fits(w: Wait, a: Answer, b: Bindings) -> bool {
    match w {
        Wait::Checkpoint => a is Lsn,
        Wait::Vacuum { .. } => a is Count,
        Wait::CreateIndex { .. } => a is Done,
        Wait::DropIndex { .. } => a is Done,
        Wait::Insert { .. } => a is Done,
        Wait::Delete { .. } => a is Done,
        Wait::DeleteMany { .. } => a is Count,
        Wait::Update { .. } => a is Count,
        Wait::Target { .. } => a is Metadata && a->Metadata_0.len() == 1,
        Wait::Len { .. } => a is Count,
        Wait::Lookup { predicate, .. } => a is Answers && a->Answers_0.len() == asks(
            predicate,
            b,
        ).len(),
        Wait::Candidates { ids, .. } => a is Metadata && a->Metadata_0.len() == ids.len(),
        Wait::Scan { .. } => a is Rows,
        Wait::Targets { ids, .. } => a is Metadata && a->Metadata_0.len() == ids.len(),
        Wait::Hits { .. } => a is Hits,
        Wait::UpdateHits { .. } => a is Hits,
        Wait::FilteredHits { .. } => a is FilteredHits,
        Wait::Distances { hits, .. } => a is Distances && a->Distances_0.len() == hits.len(),
    }
}

/// A reply that does not answer what was asked is an error, whatever was asked
/// and whatever came back.
pub proof fn law_replies_have_to_fit(w: Wait, a: Answer, b: Bindings)
    requires
        !fits(w, a, b),
        !(a is Failed),
    ensures
        resumed(w, a, b) == Err::<Next, Failure>(
            Failure::Execution("the shard's reply does not answer the request"@),
        ),
{
}

} // verus!
