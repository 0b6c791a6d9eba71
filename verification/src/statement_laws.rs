//! What each statement asks of the shard, and what comes of the reply.

use crate::assign::applied;
use crate::ast::IndexMethod;
use crate::binder::{assigns_embedding, bound, plain_columns};
use crate::cost::PlanKind;
use crate::error::Failure;
use crate::exec_laws::law_update_rewrites;
use crate::executor::{all_rewritten, counted, planned_and_started, resumed};
use crate::keyword::same_ignoring_case;
use crate::params::{resolve_arg, Arg, Bindings, NewRowModel};
use crate::rows::{Cell, Outcome};
use crate::steps::{Answer, Next, StoredRowModel, Wait, Want};
use crate::syntax::{Assign, Expr, Field, Literal, Param, Pred, Proj, Query, Source, Stmt};
use crate::text::numeral;
use crate::value::{Bag, Val};
use vstd::prelude::*;

verus! {

/// Whether a column list names the id, the embedding and the metadata, in
/// that order and in any case.
pub open spec fn names_row(columns: Seq<Seq<char>>) -> bool {
    &&& columns.len() == 3
    &&& same_ignoring_case(columns[0], "id"@)
    &&& same_ignoring_case(columns[1], "embedding"@)
    &&& same_ignoring_case(columns[2], "metadata"@)
}

// ----- INSERT -----

/// A batch `INSERT` hands the shard exactly the rows that its parameter is
/// bound to, and reports as many.
pub proof fn law_insert_batch(
    t: Seq<char>,
    columns: Seq<Seq<char>>,
    p: Param,
    x: Arg,
    kind: PlanKind,
    table: Seq<char>,
    b: Bindings,
)
    requires
        names_row(columns),
        same_ignoring_case(t, table),
        resolve_arg(b, p) == Ok::<Arg, Failure>(x),
    ensures
        ({
            let l = bound(Stmt::Insert { table: t, columns, source: Source::Param(p) });
            let r = planned_and_started(l->Ok_0, kind, b, table);
            &&& l is Ok
            &&& match x {
                Arg::Batch(rows) => {
                    let n = rows.len() as u64;
                    let wait = Wait::Insert { table: t, inserted: n };
                    &&& r == Ok::<Next, Failure>(Next::Ask(Want::InsertMany(rows), wait))
                    &&& resumed(wait, Answer::Done, b) == Ok::<Next, Failure>(
                        Next::Done(Outcome::Insert { table: t, inserted: n }),
                    )
                },
                _ => r is Err,
            }
        }),
{
}

/// An `INSERT` of one row hands the shard that row, put together from its
/// three parameters: the first is the id, the second the embedding, the third
/// the metadata. One of another kind is an error.
pub proof fn law_insert_row(
    t: Seq<char>,
    columns: Seq<Seq<char>>,
    ps: (Param, Param, Param),
    xs: (Arg, Arg, Arg),
    kind: PlanKind,
    table: Seq<char>,
    b: Bindings,
)
    requires
        names_row(columns),
        same_ignoring_case(t, table),
        resolve_arg(b, ps.0) == Ok::<Arg, Failure>(xs.0),
        resolve_arg(b, ps.1) == Ok::<Arg, Failure>(xs.1),
        resolve_arg(b, ps.2) == Ok::<Arg, Failure>(xs.2),
    ensures
        ({
            let row = seq![Expr::Param(ps.0), Expr::Param(ps.1), Expr::Param(ps.2)];
            let l = bound(Stmt::Insert { table: t, columns, source: Source::Rows(seq![row]) });
            let r = planned_and_started(l->Ok_0, kind, b, table);
            &&& l is Ok
            &&& match xs {
                (Arg::Id(id), Arg::Vector(embedding), Arg::Metadata(metadata)) => {
                    let wait = Wait::Insert { table: t, inserted: 1 };
                    &&& r == Ok::<Next, Failure>(
                        Next::Ask(Want::Insert(NewRowModel { id, embedding, metadata }), wait),
                    )
                    &&& resumed(wait, Answer::Done, b) == Ok::<Next, Failure>(
                        Next::Done(Outcome::Insert { table: t, inserted: 1 }),
                    )
                },
                _ => r is Err,
            }
        }),
{
}

/// An `INSERT` takes the columns id, embedding and metadata, and either one
/// batch or one row of three parameters; nothing else is bound.
pub proof fn law_insert_forms(t: Seq<char>, columns: Seq<Seq<char>>, source: Source)
    ensures
        bound(Stmt::Insert { table: t, columns, source }) is Ok <==> names_row(columns)
            && match source {
            Source::Param(_) => true,
            Source::Rows(rows) => rows.len() == 1 && rows[0].len() == 3 && forall|i: int|
                0 <= i < 3 ==> #[trigger] rows[0][i] is Param,
        },
{
    if let Source::Rows(rows) = source {
        if rows.len() == 1 && rows[0].len() == 3 && forall|i: int|
            0 <= i < 3 ==> #[trigger] rows[0][i] is Param {
            assert(rows[0][0] is Param && rows[0][1] is Param && rows[0][2] is Param);
        }
    }
}

// ----- DELETE and UPDATE of one row -----

/// Whether an expression stands for an id: a non-negative integer, or a
/// parameter that is bound to the id.
pub open spec fn stands_for_id(e: Expr, b: Bindings, id: u64) -> bool {
    match e {
        Expr::Literal(Literal::I64(n)) => n == id,
        Expr::Literal(_) => false,
        Expr::Param(p) => resolve_arg(b, p) == Ok::<Arg, Failure>(Arg::Id(id)),
    }
}

/// `DELETE ... WHERE id = ...` deletes the row with that id and no other.
pub proof fn law_delete_of_id(
    t: Seq<char>,
    f: Field,
    e: Expr,
    id: u64,
    kind: PlanKind,
    table: Seq<char>,
    b: Bindings,
)
    requires
        f.subscript is None && same_ignoring_case(f.name, "id"@),
        stands_for_id(e, b, id),
        same_ignoring_case(t, table),
    ensures
        ({
            let l = bound(Stmt::Delete { table: t, predicate: Pred::Eq(f, e) });
            let wait = Wait::Delete { table: t };
            &&& l is Ok
            &&& planned_and_started(l->Ok_0, kind, b, table) == Ok::<Next, Failure>(
                Next::Ask(Want::Delete(id), wait),
            )
            &&& resumed(wait, Answer::Done, b) == Ok::<Next, Failure>(
                Next::Done(Outcome::Delete { table: t, deleted: 1 }),
            )
        }),
{
}

/// `UPDATE ... WHERE id = ...` reads that row's bag, and writes back under the
/// same id the bag that the assignments leave. It fails where the row is not
/// there or an assignment is refused.
pub proof fn law_update_of_id(
    t: Seq<char>,
    assignments: Seq<Assign>,
    f: Field,
    e: Expr,
    id: u64,
    bag: Bag,
    n: usize,
    kind: PlanKind,
    table: Seq<char>,
    b: Bindings,
)
    requires
        f.subscript is None && same_ignoring_case(f.name, "id"@),
        stands_for_id(e, b, id),
        !assigns_embedding(assignments),
        same_ignoring_case(t, table),
    ensures
        ({
            let l = bound(
                Stmt::Update { table: t, assignments, predicate: Pred::Eq(f, e) },
            );
            let wait = Wait::Target { table: t, id, assignments };
            let back = Wait::Update { table: t };
            let r = resumed(wait, Answer::Metadata(seq![Some(bag)]), b);
            &&& l is Ok
            &&& planned_and_started(l->Ok_0, kind, b, table) == Ok::<Next, Failure>(
                Next::Ask(Want::GetMetadata(seq![id]), wait),
            )
            &&& match applied(bag, assignments, b) {
                (after, None) => r == Ok::<Next, Failure>(
                    Next::Ask(
                        Want::UpdateMetadata(seq![StoredRowModel { id, bag: after }]),
                        back,
                    ),
                ),
                (_, Some(e)) => r == Err::<Next, Failure>(e),
            }
            &&& resumed(wait, Answer::Metadata(seq![None]), b) is Err
            &&& resumed(back, Answer::Count(n), b) == Ok::<Next, Failure>(
                Next::Done(Outcome::Update { table: t, updated: n as u64 }),
            )
        }),
{
}

// ----- UPDATE of many rows -----

/// The rows of an update are written back one for one and in order, each under
/// its id with the bag that the assignments leave. It fails where a row is
/// gone or an assignment is refused.
pub proof fn law_update_writes_back(
    t: Seq<char>,
    assignments: Seq<Assign>,
    ids: Seq<u64>,
    bags: Seq<Option<Bag>>,
    b: Bindings,
)
    requires
        bags.len() == ids.len(),
    ensures
        ({
            let r = resumed(
                Wait::Targets { ids, table: t, assignments },
                Answer::Metadata(bags),
                b,
            );
            &&& r is Ok <==> forall|i: int|
                0 <= i < ids.len() ==> (#[trigger] bags[i]) is Some && applied(
                    bags[i]->Some_0,
                    assignments,
                    b,
                ).1 is None
            &&& r is Ok ==> (r->Ok_0 matches Next::Ask(Want::UpdateMetadata(out), wait) && wait
                == (Wait::Update { table: t }) && out.len() == ids.len() && forall|i: int|
                0 <= i < ids.len() ==> (#[trigger] out[i]).id == ids[i] && out[i].bag == applied(
                    bags[i]->Some_0,
                    assignments,
                    b,
                ).0)
        }),
{
    lemma_all_rewritten(ids, bags, assignments, b);
    if let Ok(out) = all_rewritten(ids, bags, assignments, b) {
        law_update_rewrites(ids, bags, assignments, b, out);
    }
}

proof fn lemma_all_rewritten(
    ids: Seq<u64>,
    bags: Seq<Option<Bag>>,
    assignments: Seq<Assign>,
    b: Bindings,
)
    requires
        ids.len() <= bags.len(),
    ensures
        all_rewritten(ids, bags, assignments, b) is Ok <==> forall|i: int|
            0 <= i < ids.len() ==> (#[trigger] bags[i]) is Some && applied(
                bags[i]->Some_0,
                assignments,
                b,
            ).1 is None,
    decreases ids.len(),
{
    if ids.len() > 0 {
        lemma_all_rewritten(ids.drop_last(), bags, assignments, b);
        let last = bags[ids.len() - 1];
    }
}

// ----- Outcomes -----

/// What the last reply of a statement comes to: the shard's own count, or a
/// plain acknowledgement.
pub proof fn law_outcomes(t: Seq<char>, name: Seq<char>, n: usize, lsn: u64, b: Bindings)
    ensures
        resumed(Wait::DeleteMany { table: t }, Answer::Count(n), b) == Ok::<Next, Failure>(
            Next::Done(Outcome::Delete { table: t, deleted: n as u64 }),
        ),
        resumed(Wait::Update { table: t }, Answer::Count(n), b) == Ok::<Next, Failure>(
            Next::Done(Outcome::Update { table: t, updated: n as u64 }),
        ),
        resumed(Wait::Vacuum { table: t }, Answer::Count(n), b) == Ok::<Next, Failure>(
            Next::Done(Outcome::Vacuum { table: t, removed: n }),
        ),
        resumed(Wait::Checkpoint, Answer::Lsn(lsn), b) == Ok::<Next, Failure>(
            Next::Done(Outcome::Checkpoint { lsn }),
        ),
        resumed(Wait::CreateIndex { table: t, name }, Answer::Done, b) == Ok::<Next, Failure>(
            Next::Done(Outcome::CreateIndex { table: t, name }),
        ),
        resumed(Wait::DropIndex { table: t, name }, Answer::Done, b) == Ok::<Next, Failure>(
            Next::Done(Outcome::DropIndex { table: t, name }),
        ),
{
}

/// What the shard reports as a failure is what the statement fails with,
/// whatever it was about.
pub proof fn law_shard_failures(w: Wait, m: Seq<char>, b: Bindings)
    ensures
        resumed(w, Answer::Failed(m), b) == Err::<Next, Failure>(Failure::Backend(m)),
{
}

/// The statements that keep the shard in order are asked of it as they are.
pub proof fn law_maintenance_statements(
    t: Seq<char>,
    name: Seq<char>,
    method: IndexMethod,
    field: Seq<char>,
    kind: PlanKind,
    table: Seq<char>,
    b: Bindings,
)
    requires
        same_ignoring_case(t, table),
    ensures
        ({
            let vacuum = bound(Stmt::Vacuum { table: t });
            let checkpoint = bound(Stmt::Checkpoint);
            let create = bound(
                Stmt::CreateIndex { name: Some(name), table: t, method, field },
            );
            let drop = bound(Stmt::DropIndex { name, table: t });
            &&& vacuum is Ok && checkpoint is Ok && create is Ok && drop is Ok
            &&& planned_and_started(vacuum->Ok_0, kind, b, table) == Ok::<Next, Failure>(
                Next::Ask(Want::Vacuum, Wait::Vacuum { table: t }),
            )
            &&& planned_and_started(checkpoint->Ok_0, kind, b, table) == Ok::<Next, Failure>(
                Next::Ask(Want::Checkpoint, Wait::Checkpoint),
            )
            &&& planned_and_started(create->Ok_0, kind, b, table) == Ok::<Next, Failure>(
                Next::Ask(
                    Want::CreateIndex { name, field, method },
                    Wait::CreateIndex { table: t, name },
                ),
            )
            &&& planned_and_started(drop->Ok_0, kind, b, table) == Ok::<Next, Failure>(
                Next::Ask(Want::DropIndex { name }, Wait::DropIndex { table: t, name }),
            )
        }),
{
}

/// An index that is given no name is named after its field and its method.
pub proof fn law_index_names(
    t: Seq<char>,
    method: IndexMethod,
    field: Seq<char>,
    kind: PlanKind,
    table: Seq<char>,
    b: Bindings,
)
    requires
        same_ignoring_case(t, table),
    ensures
        ({
            let l = bound(Stmt::CreateIndex { name: None, table: t, method, field });
            let name = "idx_"@ + field + match method {
                IndexMethod::Hash => "_hash"@,
                IndexMethod::Btree => "_btree"@,
                IndexMethod::Inverted => "_inverted"@,
            };
            &&& l is Ok
            &&& planned_and_started(l->Ok_0, kind, b, table) == Ok::<Next, Failure>(
                Next::Ask(
                    Want::CreateIndex { name, field, method },
                    Wait::CreateIndex { table: t, name },
                ),
            )
        }),
{
    reveal_strlit("_");
    reveal_strlit("hash");
    reveal_strlit("btree");
    reveal_strlit("inverted");
    reveal_strlit("_hash");
    reveal_strlit("_btree");
    reveal_strlit("_inverted");
    let word = match method {
        IndexMethod::Hash => "hash"@,
        IndexMethod::Btree => "btree"@,
        IndexMethod::Inverted => "inverted"@,
    };
    let tail = match method {
        IndexMethod::Hash => "_hash"@,
        IndexMethod::Btree => "_btree"@,
        IndexMethod::Inverted => "_inverted"@,
    };
    assert("_"@ + word =~= tail);
    assert("idx_"@ + field + "_"@ + word =~= "idx_"@ + field + tail);
}

// ----- Tables -----

/// A statement on a table that is not the engine's, in any case, is refused:
/// nothing is asked of the shard.
pub proof fn law_unknown_table(
    t: Seq<char>,
    columns: Seq<Seq<char>>,
    p: Param,
    pred: Pred,
    kind: PlanKind,
    table: Seq<char>,
    b: Bindings,
)
    requires
        !same_ignoring_case(t, table),
        names_row(columns),
    ensures
        ({
            let insert = bound(Stmt::Insert { table: t, columns, source: Source::Param(p) });
            let delete = bound(Stmt::Delete { table: t, predicate: pred });
            let vacuum = bound(Stmt::Vacuum { table: t });
            let refusal = Err::<Next, Failure>(
                Failure::Execution(
                    "unknown table '"@ + t + "' ; this engine is wrapping '"@ + table + "'"@,
                ),
            );
            &&& planned_and_started(insert->Ok_0, kind, b, table) == refusal
            &&& planned_and_started(delete->Ok_0, kind, b, table) is Err
            &&& planned_and_started(vacuum->Ok_0, kind, b, table) == refusal
        }),
{
}

// ----- COUNT -----

/// A count is one row of one column, an integer. One that no 64-bit integer
/// holds is reported as the greatest.
pub proof fn law_count_result(n: int, name: Seq<char>)
    requires
        n >= 0,
    ensures
        ({
            let rows = counted(n, name)->rows;
            &&& counted(n, name) is Rows
            &&& counted(n, name)->columns == seq![name]
            &&& rows.len() == 1
            &&& rows[0].len() == 1
            &&& rows[0][0] matches Cell::Field(Val::I64(m)) && (m == n || m == i64::MAX && n
                > i64::MAX)
        }),
{
}

/// `SELECT COUNT(*)` without a predicate asks the shard how many rows it has,
/// and gives that number, under `count` or the alias.
pub proof fn law_count_all(
    t: Seq<char>,
    alias: Option<Seq<char>>,
    limit: Option<u64>,
    n: usize,
    kind: PlanKind,
    table: Seq<char>,
    b: Bindings,
)
    requires
        same_ignoring_case(t, table),
        n <= i64::MAX,
    ensures
        ({
            let column = match alias {
                Some(a) => Proj::Aliased(Box::new(Proj::CountStar), a),
                None => Proj::CountStar,
            };
            let name = match alias {
                Some(a) => a,
                None => "count"@,
            };
            let l = bound(
                Stmt::Select(
                    Query {
                        projection: seq![column],
                        from_table: t,
                        predicate: None,
                        order_by: Seq::empty(),
                        limit,
                    },
                ),
            );
            let wait = Wait::Len { column_name: name };
            &&& l is Ok
            &&& planned_and_started(l->Ok_0, kind, b, table) == Ok::<Next, Failure>(
                Next::Ask(Want::Len, wait),
            )
            &&& resumed(wait, Answer::Count(n), b) == Ok::<Next, Failure>(
                Next::Done(
                    Outcome::Rows {
                        columns: seq![name],
                        rows: seq![seq![Cell::Field(Val::I64(n as i64))]],
                    },
                ),
            )
        }),
{
    let column = match alias {
        Some(a) => Proj::Aliased(Box::new(Proj::CountStar), a),
        None => Proj::CountStar,
    };
    reveal_with_fuel(plain_columns, 2);
    assert(seq![column].drop_last() =~= Seq::empty());
}

/// An update of many rows that fails, fails with the error of the first row
/// that does.
pub proof fn law_first_update_error(
    t: Seq<char>,
    assignments: Seq<Assign>,
    ids: Seq<u64>,
    bags: Seq<Option<Bag>>,
    i: int,
    b: Bindings,
)
    requires
        bags.len() == ids.len(),
        0 <= i < ids.len(),
        forall|j: int|
            0 <= j < i ==> (#[trigger] bags[j]) is Some && applied(
                bags[j]->Some_0,
                assignments,
                b,
            ).1 is None,
    ensures
        ({
            let r = resumed(
                Wait::Targets { ids, table: t, assignments },
                Answer::Metadata(bags),
                b,
            );
            &&& bags[i] is None ==> r == Err::<Next, Failure>(
                Failure::Execution(
                    "id "@ + ("VectorId("@ + numeral(ids[i] as nat) + ")"@)
                        + " disappeared from metadata store between scan and update"@,
                ),
            )
            &&& bags[i] is Some && applied(bags[i]->Some_0, assignments, b).1 is Some ==> r == Err::<
                Next,
                Failure,
            >(applied(bags[i]->Some_0, assignments, b).1->Some_0)
        }),
{
    if bags[i] is None || applied(bags[i]->Some_0, assignments, b).1 is Some {
        lemma_first_failure(ids, bags, assignments, i, b);
    }
}

proof fn lemma_first_failure(
    ids: Seq<u64>,
    bags: Seq<Option<Bag>>,
    assignments: Seq<Assign>,
    i: int,
    b: Bindings,
)
    requires
        ids.len() <= bags.len(),
        0 <= i < ids.len(),
        forall|j: int|
            0 <= j < i ==> (#[trigger] bags[j]) is Some && applied(
                bags[j]->Some_0,
                assignments,
                b,
            ).1 is None,
        bags[i] is None || applied(bags[i]->Some_0, assignments, b).1 is Some || i == ids.len() - 1,
    ensures
        bags[i] is None ==> all_rewritten(ids, bags, assignments, b) == Err::<
            Seq<StoredRowModel>,
            Failure,
        >(
            Failure::Execution(
                "id "@ + ("VectorId("@ + numeral(ids[i] as nat) + ")"@)
                    + " disappeared from metadata store between scan and update"@,
            ),
        ),
        bags[i] is Some && applied(bags[i]->Some_0, assignments, b).1 is Some ==> all_rewritten(
            ids,
            bags,
            assignments,
            b,
        ) == Err::<Seq<StoredRowModel>, Failure>(
            applied(bags[i]->Some_0, assignments, b).1->Some_0,
        ),
    decreases ids.len(),
{
    let p = ids.drop_last();
    if i == ids.len() - 1 {
        lemma_all_rewritten(p, bags, assignments, b);
    } else {
        lemma_first_failure(p, bags, assignments, i, b);
    }
}

} // verus!
