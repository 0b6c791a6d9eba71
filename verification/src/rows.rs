//! What statements return, and how rows become columns.

use crate::ast::views;
use crate::error::{Failure, KovaQueryError};
use crate::eval::{agrees_all, agrees_as};
use crate::logical::{BoundProjection, Column, ProjectionSpec};
use crate::syntax::Distance;
use crate::value::{Bag, Metadata, Val, Value};
use vstd::prelude::*;

verus! {

/// The outcome of executing a statement. One variant per operator shape.
#[allow(inconsistent_fields)]
#[derive(Debug)]
pub enum ExecutionResult {
    /// CHECKPOINT committed at `lsn`.
    Checkpoint {
        /// Log position that the new snapshot covers.
        lsn: u64,
    },
    /// VACUUM finished on `table`.
    Vacuum {
        /// Target table the operation ran against.
        table: String,
        /// Number of tombstoned nodes removed.
        removed: usize,
    },
    /// INSERT completed.
    Insert {
        /// Target table the operation ran against.
        table: String,
        /// Number of rows that landed.
        inserted: u64,
    },
    /// DELETE completed.
    Delete {
        /// Target table the operation ran against.
        table: String,
        /// Number of rows tombstoned.
        deleted: u64,
    },
    /// UPDATE completed.
    Update {
        /// Target table the operation ran against.
        table: String,
        /// Number of rows whose metadata was replaced.
        updated: u64,
    },
    /// SELECT returned a result set.
    Rows {
        /// Output column headers, in projection order.
        columns: Vec<String>,
        /// Output rows.
        rows: Vec<Row>,
    },
    /// CREATE INDEX completed.
    CreateIndex {
        /// Target table the operation ran against.
        table: String,
        /// Name the index registered under.
        name: String,
    },
    /// DROP INDEX completed.
    DropIndex {
        /// Target table the operation ran against.
        table: String,
        /// Name of the index that was dropped.
        name: String,
    },
}

/// One output row from a SELECT result. Cell values are positional; column
/// headers line up by index.
#[derive(Debug)]
pub struct Row {
    /// Cell values in column order.
    pub values: Vec<RowValue>,
}

/// Typed cell value in a [`Row`].
#[derive(Debug)]
pub enum RowValue {
    /// The row's vector id.
    Id(u64),
    /// Distance under the query's metric (smaller is closer), as the bit
    /// pattern of a 32-bit value.
    Distance(u32),
    /// Whole metadata bag.
    Metadata(Metadata),
    /// A single named metadata field value.
    Field(Value),
    /// `NULL`: a projected metadata field is absent from the row's bag.
    Null,
}

/// Row carrier between read operators. Searches fill in the distance; a scan
/// has none.
#[derive(Debug)]
pub struct InternalHit {
    /// The row's id.
    pub id: u64,
    /// Distance to the query, as the bit pattern of a 32-bit value.
    pub distance: Option<u32>,
    /// The row's metadata.
    pub metadata: Metadata,
}

// ----- Models -----

/// A cell, as a model.
pub enum Cell {
    Id(u64),
    Distance(u32),
    Metadata(Bag),
    Field(Val),
    Null,
}

/// A row between read operators, as a model.
pub struct Hit {
    pub id: u64,
    pub distance: Option<u32>,
    pub bag: Bag,
}

/// The outcome of a statement, as a model.
#[allow(inconsistent_fields)]
pub enum Outcome {
    Checkpoint { lsn: u64 },
    Vacuum { table: Seq<char>, removed: usize },
    Insert { table: Seq<char>, inserted: u64 },
    Delete { table: Seq<char>, deleted: u64 },
    Update { table: Seq<char>, updated: u64 },
    Rows { columns: Seq<Seq<char>>, rows: Seq<Seq<Cell>> },
    CreateIndex { table: Seq<char>, name: Seq<char> },
    DropIndex { table: Seq<char>, name: Seq<char> },
}

impl View for RowValue {
    type V = Cell;

    open spec fn view(&self) -> Cell {
        match self {
            RowValue::Id(id) => Cell::Id(*id),
            RowValue::Distance(d) => Cell::Distance(*d),
            RowValue::Metadata(m) => Cell::Metadata(m@),
            RowValue::Field(v) => Cell::Field(v@),
            RowValue::Null => Cell::Null,
        }
    }
}

impl View for Row {
    type V = Seq<Cell>;

    open spec fn view(&self) -> Seq<Cell> {
        views(self.values@)
    }
}

impl View for InternalHit {
    type V = Hit;

    open spec fn view(&self) -> Hit {
        Hit { id: self.id, distance: self.distance, bag: self.metadata@ }
    }
}

impl View for ExecutionResult {
    type V = Outcome;

    open spec fn view(&self) -> Outcome {
        match self {
            ExecutionResult::Checkpoint { lsn } => Outcome::Checkpoint { lsn: *lsn },
            ExecutionResult::Vacuum { table, removed } => Outcome::Vacuum {
                table: table@,
                removed: *removed,
            },
            ExecutionResult::Insert { table, inserted } => Outcome::Insert {
                table: table@,
                inserted: *inserted,
            },
            ExecutionResult::Delete { table, deleted } => Outcome::Delete {
                table: table@,
                deleted: *deleted,
            },
            ExecutionResult::Update { table, updated } => Outcome::Update {
                table: table@,
                updated: *updated,
            },
            ExecutionResult::Rows { columns, rows } => Outcome::Rows {
                columns: views(columns@),
                rows: views(rows@),
            },
            ExecutionResult::CreateIndex { table, name } => Outcome::CreateIndex {
                table: table@,
                name: name@,
            },
            ExecutionResult::DropIndex { table, name } => Outcome::DropIndex {
                table: table@,
                name: name@,
            },
        }
    }
}

// ----- Projection -----

pub open spec fn alias_or(alias: Option<Seq<char>>, name: Seq<char>) -> Seq<char> {
    match alias {
        Some(a) => a,
        None => name,
    }
}

/// The name of a column: its alias, or what it projects.
pub open spec fn header(c: Column) -> Seq<char> {
    match c {
        Column::Wildcard => "*"@,
        Column::CountStar(alias) => alias_or(alias, "count"@),
        Column::Id(alias) => alias_or(alias, "id"@),
        Column::Metadata(alias) => alias_or(alias, "metadata"@),
        Column::Distance(_, alias) => alias,
        Column::Field(name, alias) => alias_or(alias, name),
    }
}

/// The names of columns, in order.
pub open spec fn headers(cs: Seq<Column>) -> Seq<Seq<char>> {
    cs.map_values(|c: Column| header(c))
}

/// What one column of a row holds.
pub open spec fn cell(h: Hit, c: Column) -> Result<Cell, Failure> {
    match c {
        Column::Wildcard => Err(
            Failure::Plan("wildcard projection should have been expanded by the planner"@),
        ),
        Column::CountStar(_) => Err(
            Failure::Plan("COUNT(*) is not supported in plan A ; lands with aggregates later"@),
        ),
        Column::Id(_) => Ok(Cell::Id(h.id)),
        Column::Distance(_, _) => match h.distance {
            Some(d) => Ok(Cell::Distance(d)),
            None => Err(
                Failure::Plan(
                    "distance projection requires a kNN ordering ; this plan didn't compute distances"@,
                ),
            ),
        },
        Column::Metadata(_) => Ok(Cell::Metadata(h.bag)),
        Column::Field(name, _) => Ok(
            if h.bag.dom().contains(name) {
                Cell::Field(h.bag[name])
            } else {
                Cell::Null
            },
        ),
    }
}

/// What the columns of a row hold, or the first error from left to right.
pub open spec fn cells(h: Hit, cs: Seq<Column>) -> Result<Seq<Cell>, Failure>
    decreases cs.len(),
{
    if cs.len() == 0 {
        Ok(Seq::empty())
    } else {
        match cells(h, cs.drop_last()) {
            Ok(before) => match cell(h, cs.last()) {
                Ok(c) => Ok(before.push(c)),
                Err(e) => Err(e),
            },
            Err(e) => Err(e),
        }
    }
}

/// What the columns of some rows hold, or the first error row by row.
pub open spec fn grid(hs: Seq<Hit>, cs: Seq<Column>) -> Result<Seq<Seq<Cell>>, Failure>
    decreases hs.len(),
{
    if hs.len() == 0 {
        Ok(Seq::empty())
    } else {
        match grid(hs.drop_last(), cs) {
            Ok(before) => match cells(hs.last(), cs) {
                Ok(row) => Ok(before.push(row)),
                Err(e) => Err(e),
            },
            Err(e) => Err(e),
        }
    }
}

fn name_or(alias: &Option<String>, name: &str) -> (r: String)
    ensures
        r@ == alias_or(crate::ast::opt_text(*alias), name@),
{
    match alias {
        Some(a) => a.clone(),
        None => name.to_owned(),
    }
}

/// Output column name for a single projection: the alias if set, otherwise
/// the natural name (e.g. `id`, `metadata`, the field name).
pub fn column_name(col: &BoundProjection) -> (r: String)
    ensures
        r@ == header(col@),
{
    match col {
        BoundProjection::Wildcard => "*".to_owned(),
        BoundProjection::CountStar { alias } => name_or(alias, "count"),
        BoundProjection::Id { alias } => name_or(alias, "id"),
        BoundProjection::Metadata { alias } => name_or(alias, "metadata"),
        BoundProjection::Distance { alias, .. } => alias.clone(),
        BoundProjection::MetadataField { name, alias } => name_or(alias, name.as_str()),
    }
}

/// Build the column-name vector for a projection spec, in order.
pub fn projection_column_names(spec: &ProjectionSpec) -> (r: Vec<String>)
    ensures
        views(r@) == headers(spec@),
{
    let ghost cs = views(spec.columns@);
    let mut names: Vec<String> = Vec::new();
    let mut i: usize = 0;
    while i < spec.columns.len()
        invariant
            i <= spec.columns.len(),
            cs == views(spec.columns@),
            views(names@) =~= headers(cs.take(i as int)),
        decreases spec.columns.len() - i,
    {
        let name: String = column_name(&spec.columns[i]);
        let ghost before = names@;
        names.push(name);
        proof {
            assert(views(names@) =~= views(before).push(name@));
            assert(cs.take(i + 1) =~= cs.take(i as int).push(spec.columns@[i as int]@));
        }
        i = i + 1;
    }
    assert(cs.take(i as int) =~= cs);
    names
}

/// Project one column from a hit.
pub fn project_column(hit: &InternalHit, col: &BoundProjection) -> (r: Result<
    RowValue,
    KovaQueryError,
>)
    ensures
        agrees_as(r, cell(hit@, col@)),
{
    match col {
        BoundProjection::Wildcard => Err(
            KovaQueryError::Plan(
                "wildcard projection should have been expanded by the planner".to_owned(),
            ),
        ),
        BoundProjection::CountStar { .. } => Err(
            KovaQueryError::Plan(
                "COUNT(*) is not supported in plan A ; lands with aggregates later".to_owned(),
            ),
        ),
        BoundProjection::Id { .. } => Ok(RowValue::Id(hit.id)),
        BoundProjection::Distance { .. } => match hit.distance {
            Some(d) => Ok(RowValue::Distance(d)),
            None => Err(
                KovaQueryError::Plan(
                    "distance projection requires a kNN ordering ; this plan didn't compute distances".to_owned(),
                ),
            ),
        },
        BoundProjection::Metadata { .. } => Ok(RowValue::Metadata(hit.metadata.copy())),
        BoundProjection::MetadataField { name, .. } => Ok(
            match hit.metadata.get(name.as_str()) {
                Some(v) => RowValue::Field(v.copy()),
                None => RowValue::Null,
            },
        ),
    }
}

/// Once a column fails, so does the row.
proof fn lemma_cells_fail(h: Hit, cs: Seq<Column>, i: int)
    requires
        0 <= i <= cs.len(),
        cells(h, cs.take(i)) is Err,
    ensures
        cells(h, cs) == cells(h, cs.take(i)),
    decreases cs.len() - i,
{
    if i == cs.len() {
        assert(cs.take(i) =~= cs);
    } else {
        assert(cs.take(i + 1).drop_last() =~= cs.take(i));
        lemma_cells_fail(h, cs, i + 1);
    }
}

/// Convert one [`InternalHit`] to a [`Row`] under the projection spec.
pub fn project_hit(hit: &InternalHit, spec: &ProjectionSpec) -> (r: Result<Row, KovaQueryError>)
    ensures
        agrees_as(r, cells(hit@, spec@)),
{
    let ghost cs = views(spec.columns@);
    let mut values: Vec<RowValue> = Vec::new();
    let mut i: usize = 0;
    assert(views(values@) =~= Seq::empty());
    while i < spec.columns.len()
        invariant
            i <= spec.columns.len(),
            cs == views(spec.columns@),
            cells(hit@, cs.take(i as int)) == Ok::<Seq<Cell>, Failure>(views(values@)),
        decreases spec.columns.len() - i,
    {
        proof {
            assert(cs.take(i + 1).drop_last() =~= cs.take(i as int));
            assert(cs.take(i + 1).last() == spec.columns@[i as int]@);
        }
        match project_column(hit, &spec.columns[i]) {
            Ok(v) => {
                let ghost before = values@;
                values.push(v);
                assert(views(values@) =~= views(before).push(v@));
            },
            Err(e) => {
                proof {
                    lemma_cells_fail(hit@, cs, i + 1);
                }
                return Err(e);
            },
        }
        i = i + 1;
    }
    assert(cs.take(i as int) =~= cs);
    Ok(Row { values })
}

proof fn lemma_grid_fail(hs: Seq<Hit>, cs: Seq<Column>, i: int)
    requires
        0 <= i <= hs.len(),
        grid(hs.take(i), cs) is Err,
    ensures
        grid(hs, cs) == grid(hs.take(i), cs),
    decreases hs.len() - i,
{
    if i == hs.len() {
        assert(hs.take(i) =~= hs);
    } else {
        assert(hs.take(i + 1).drop_last() =~= hs.take(i));
        lemma_grid_fail(hs, cs, i + 1);
    }
}

/// Convert hits to rows under the projection spec.
pub fn project_hits(hits: &Vec<InternalHit>, spec: &ProjectionSpec) -> (r: Result<
    Vec<Row>,
    KovaQueryError,
>)
    ensures
        agrees_all(r, grid(views(hits@), spec@)),
{
    let ghost hs = views(hits@);
    let mut rows: Vec<Row> = Vec::new();
    let mut i: usize = 0;
    assert(views(rows@) =~= Seq::empty());
    while i < hits.len()
        invariant
            i <= hits.len(),
            hs == views(hits@),
            grid(hs.take(i as int), spec@) == Ok::<Seq<Seq<Cell>>, Failure>(views(rows@)),
        decreases hits.len() - i,
    {
        proof {
            assert(hs.take(i + 1).drop_last() =~= hs.take(i as int));
            assert(hs.take(i + 1).last() == hits@[i as int]@);
        }
        match project_hit(&hits[i], spec) {
            Ok(row) => {
                let ghost before = rows@;
                rows.push(row);
                assert(views(rows@) =~= views(before).push(row@));
            },
            Err(e) => {
                proof {
                    lemma_grid_fail(hs, spec@, i + 1);
                }
                return Err(e);
            },
        }
        i = i + 1;
    }
    assert(hs.take(i as int) =~= hs);
    Ok(rows)
}

/// A result set is rectangular: one row for each hit, in order, and in each
/// row one cell for each column header, holding what that column projects.
pub proof fn law_rows_line_up(hs: Seq<Hit>, cs: Seq<Column>, rows: Seq<Seq<Cell>>)
    requires
        grid(hs, cs) == Ok::<Seq<Seq<Cell>>, Failure>(rows),
    ensures
        rows.len() == hs.len(),
        forall|i: int|
            0 <= i < rows.len() ==> (#[trigger] rows[i]).len() == headers(cs).len() && forall|j: int|
                0 <= j < cs.len() ==> cell(hs[i], cs[j]) == Ok::<Cell, Failure>(
                    #[trigger] rows[i][j],
                ),
    decreases hs.len(),
{
    if hs.len() > 0 {
        let before = grid(hs.drop_last(), cs)->Ok_0;
        law_rows_line_up(hs.drop_last(), cs, before);
        lemma_cells_line_up(hs.last(), cs, rows.last());
        assert forall|i: int| 0 <= i < rows.len() implies (#[trigger] rows[i]).len() == headers(
            cs,
        ).len() && forall|j: int|
            0 <= j < cs.len() ==> cell(hs[i], cs[j]) == Ok::<Cell, Failure>(
                #[trigger] rows[i][j],
            ) by {
            if i < before.len() {
                assert(rows[i] == before[i]);
            }
        }
    }
}

proof fn lemma_cells_line_up(h: Hit, cs: Seq<Column>, row: Seq<Cell>)
    requires
        cells(h, cs) == Ok::<Seq<Cell>, Failure>(row),
    ensures
        row.len() == cs.len(),
        forall|j: int|
            0 <= j < cs.len() ==> cell(h, cs[j]) == Ok::<Cell, Failure>(#[trigger] row[j]),
    decreases cs.len(),
{
    if cs.len() > 0 {
        let before = cells(h, cs.drop_last())->Ok_0;
        assert(row.drop_last() =~= before);
        lemma_cells_line_up(h, cs.drop_last(), before);
        assert forall|j: int| 0 <= j < cs.len() implies cell(h, cs[j]) == Ok::<Cell, Failure>(
            #[trigger] row[j],
        ) by {
            if j < before.len() {
                assert(row[j] == before[j]);
            }
        }
    }
}

/// A projected metadata field is NULL exactly where the row's bag lacks it,
/// and otherwise the value in the bag, of whatever kind. The id, the distance
/// and the whole bag are shown as they are.
pub proof fn law_cells(h: Hit, name: Seq<char>, d: Distance, alias: Option<Seq<char>>, a: Seq<char>)
    ensures
        cell(h, Column::Field(name, alias)) == Ok::<Cell, Failure>(Cell::Null)
            <==> !h.bag.contains_key(name),
        h.bag.contains_key(name) ==> cell(h, Column::Field(name, alias)) == Ok::<Cell, Failure>(
            Cell::Field(h.bag[name]),
        ),
        cell(h, Column::Id(alias)) == Ok::<Cell, Failure>(Cell::Id(h.id)),
        cell(h, Column::Metadata(alias)) == Ok::<Cell, Failure>(Cell::Metadata(h.bag)),
        h.distance is Some ==> cell(h, Column::Distance(d, a)) == Ok::<Cell, Failure>(
            Cell::Distance(h.distance->Some_0),
        ),
        h.distance is None ==> cell(h, Column::Distance(d, a)) is Err,
        cell(h, Column::Wildcard) is Err,
        cell(h, Column::CountStar(alias)) is Err,
{
}

/// Whether a cell shows what a column asks of a row.
pub open spec fn shows(c: Column, h: Hit, out: Cell) -> bool {
    match c {
        Column::Id(_) => out == Cell::Id(h.id),
        Column::Metadata(_) => out == Cell::Metadata(h.bag),
        Column::Distance(_, _) => h.distance is Some && out == Cell::Distance(h.distance->Some_0),
        Column::Field(name, _) => if h.bag.contains_key(name) {
            out == Cell::Field(h.bag[name])
        } else {
            out == Cell::Null
        },
        Column::Wildcard => false,
        Column::CountStar(_) => false,
    }
}

/// Whether a column can be shown of a row.
pub open spec fn can_show(c: Column, h: Hit) -> bool {
    match c {
        Column::Id(_) => true,
        Column::Metadata(_) => true,
        Column::Field(_, _) => true,
        Column::Distance(_, _) => h.distance is Some,
        Column::Wildcard => false,
        Column::CountStar(_) => false,
    }
}

/// The rows of a result set are the hits, one for one and in order, each
/// column showing what it asks for. There is a result set exactly where every
/// column can be shown of every row.
pub proof fn law_projection(hs: Seq<Hit>, cs: Seq<Column>)
    ensures
        grid(hs, cs) is Ok <==> forall|i: int, j: int|
            0 <= i < hs.len() && 0 <= j < cs.len() ==> can_show(
                #[trigger] cs[j],
                #[trigger] hs[i],
            ),
        grid(hs, cs) matches Ok(rows) ==> rows.len() == hs.len() && forall|i: int|
            0 <= i < hs.len() ==> (#[trigger] rows[i]).len() == cs.len() && forall|j: int|
                0 <= j < cs.len() ==> shows(cs[j], hs[i], #[trigger] rows[i][j]),
    decreases hs.len(),
{
    if let Ok(rows) = grid(hs, cs) {
        law_rows_line_up(hs, cs, rows);
        assert forall|i: int| 0 <= i < hs.len() implies (#[trigger] rows[i]).len() == cs.len()
            && forall|j: int|
            0 <= j < cs.len() ==> shows(cs[j], hs[i], #[trigger] rows[i][j]) by {
            assert(rows[i].len() == headers(cs).len());
        }
        assert forall|i: int, j: int| 0 <= i < hs.len() && 0 <= j < cs.len() implies can_show(
            #[trigger] cs[j],
            #[trigger] hs[i],
        ) by {
            assert(rows[i].len() == headers(cs).len());
            assert(cell(hs[i], cs[j]) == Ok::<Cell, Failure>(rows[i][j]));
        }
    }
    if forall|i: int, j: int|
        0 <= i < hs.len() && 0 <= j < cs.len() ==> can_show(#[trigger] cs[j], #[trigger] hs[i]) {
        if hs.len() > 0 {
            let p = hs.drop_last();
            assert forall|i: int, j: int| 0 <= i < p.len() && 0 <= j < cs.len() implies can_show(
                #[trigger] cs[j],
                #[trigger] p[i],
            ) by {
                assert(p[i] == hs[i]);
            }
            law_projection(p, cs);
            assert forall|j: int| 0 <= j < cs.len() implies can_show(
                #[trigger] cs[j],
                hs.last(),
            ) by {
                assert(can_show(cs[j], hs[hs.len() - 1]));
            }
            lemma_cells_are_ok(hs.last(), cs);
        }
    }
}

proof fn lemma_cells_are_ok(h: Hit, cs: Seq<Column>)
    requires
        forall|j: int| 0 <= j < cs.len() ==> can_show(#[trigger] cs[j], h),
    ensures
        cells(h, cs) is Ok,
    decreases cs.len(),
{
    if cs.len() > 0 {
        let p = cs.drop_last();
        assert forall|j: int| 0 <= j < p.len() implies can_show(#[trigger] p[j], h) by {
            assert(p[j] == cs[j]);
        }
        lemma_cells_are_ok(h, p);
        assert(can_show(cs[cs.len() - 1], h));
    }
}

/// A column is headed by its alias, or by what it projects.
pub proof fn law_headers(cs: Seq<Column>, i: int)
    requires
        0 <= i < cs.len(),
    ensures
        headers(cs).len() == cs.len(),
        match cs[i] {
            Column::Id(alias) => headers(cs)[i] == if alias is Some {
                alias->Some_0
            } else {
                "id"@
            },
            Column::Metadata(alias) => headers(cs)[i] == if alias is Some {
                alias->Some_0
            } else {
                "metadata"@
            },
            Column::Field(name, alias) => headers(cs)[i] == if alias is Some {
                alias->Some_0
            } else {
                name
            },
            Column::CountStar(alias) => headers(cs)[i] == if alias is Some {
                alias->Some_0
            } else {
                "count"@
            },
            Column::Distance(_, alias) => headers(cs)[i] == alias,
            Column::Wildcard => headers(cs)[i] == "*"@,
        },
{
}

/// A row that cannot be shown fails with the error of its first column that
/// cannot.
pub proof fn law_first_column_error(h: Hit, cs: Seq<Column>, e: Failure)
    requires
        cells(h, cs) == Err::<Seq<Cell>, Failure>(e),
    ensures
        exists|j: int|
            0 <= j < cs.len() && #[trigger] cell(h, cs[j]) == Err::<Cell, Failure>(e) && forall|
                i: int,
            |
                0 <= i < j ==> #[trigger] cell(h, cs[i]) is Ok,
    decreases cs.len(),
{
    let p = cs.drop_last();
    let last = cs.len() - 1;
    if let Err(x) = cells(h, p) {
        law_first_column_error(h, p, e);
        let j = choose|j: int|
            0 <= j < p.len() && #[trigger] cell(h, p[j]) == Err::<Cell, Failure>(e) && forall|
                i: int,
            |
                0 <= i < j ==> #[trigger] cell(h, p[i]) is Ok;
        assert(cell(h, cs[j]) == Err::<Cell, Failure>(e));
        assert forall|i: int| 0 <= i < j implies #[trigger] cell(h, cs[i]) is Ok by {
            assert(cell(h, p[i]) is Ok);
        }
    } else {
        lemma_cells_line_up(h, p, cells(h, p)->Ok_0);
        assert(cell(h, cs[last]) == Err::<Cell, Failure>(e));
        assert forall|i: int| 0 <= i < last implies #[trigger] cell(h, cs[i]) is Ok by {
            assert(cell(h, p[i]) == Ok::<Cell, Failure>(cells(h, p)->Ok_0[i]));
        }
    }
}

/// A result set that cannot be shown fails with the error of its first row
/// that cannot.
pub proof fn law_first_row_error(hs: Seq<Hit>, cs: Seq<Column>, e: Failure)
    requires
        grid(hs, cs) == Err::<Seq<Seq<Cell>>, Failure>(e),
    ensures
        exists|j: int|
            0 <= j < hs.len() && #[trigger] cells(hs[j], cs) == Err::<Seq<Cell>, Failure>(e)
                && forall|i: int| 0 <= i < j ==> #[trigger] cells(hs[i], cs) is Ok,
    decreases hs.len(),
{
    let p = hs.drop_last();
    let last = hs.len() - 1;
    if let Err(x) = grid(p, cs) {
        law_first_row_error(p, cs, e);
        let j = choose|j: int|
            0 <= j < p.len() && #[trigger] cells(p[j], cs) == Err::<Seq<Cell>, Failure>(e)
                && forall|i: int| 0 <= i < j ==> #[trigger] cells(p[i], cs) is Ok;
        assert(cells(hs[j], cs) == Err::<Seq<Cell>, Failure>(e));
        assert forall|i: int| 0 <= i < j implies #[trigger] cells(hs[i], cs) is Ok by {
            assert(cells(p[i], cs) is Ok);
        }
    } else {
        assert(cells(hs[last], cs) == Err::<Seq<Cell>, Failure>(e));
        lemma_grid_rows(p, cs);
        assert forall|i: int| 0 <= i < last implies #[trigger] cells(hs[i], cs) is Ok by {
            assert(cells(p[i], cs) is Ok);
        }
    }
}

proof fn lemma_grid_rows(hs: Seq<Hit>, cs: Seq<Column>)
    requires
        grid(hs, cs) is Ok,
    ensures
        forall|i: int| 0 <= i < hs.len() ==> #[trigger] cells(hs[i], cs) is Ok,
    decreases hs.len(),
{
    if hs.len() > 0 {
        let p = hs.drop_last();
        lemma_grid_rows(p, cs);
        assert forall|i: int| 0 <= i < hs.len() implies #[trigger] cells(hs[i], cs) is Ok by {
            if i < p.len() {
                assert(cells(p[i], cs) is Ok);
            }
        }
    }
}

} // verus!
