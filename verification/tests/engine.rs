//! Statements run end to end, against a shard that lives in memory.

use std::cell::RefCell;
use std::cmp::Ordering;
use std::collections::{BTreeMap, BTreeSet};
use std::rc::Rc;

use kova_query::ast::{CmpOp, IndexMethod, ParamRef};
use kova_query::binder::bind;
use kova_query::cost::{dispatch_via_cost, PlanCosts, PlanKind, Workload, KNN_OVERFETCH};
use kova_query::error::KovaQueryError;
use kova_query::executor::{resume, start};
use kova_query::index_eval::{IndexAtom, IndexCmpOp, Lookup};
use kova_query::logical::{
    BoundExpr, BoundLiteral, BoundProjection, FieldRef, IdHint, LogicalAssignment, LogicalDelete,
    LogicalStatement, LogicalUpdate, PredAtom, PredicateExpr,
};
use kova_query::params::{NewRow, ParamBindings, ParamValue, Vector};
use kova_query::parser::parse_str;
use kova_query::physical::PhysicalPlan;
use kova_query::planner::{
    estimate_of, plan_with_estimator, predicate_has_distance_threshold, SelectivityEstimate,
    SelectivityEstimator,
};
use kova_query::rows::{ExecutionResult, InternalHit, RowValue};
use kova_query::select::FilterProbe;
use kova_query::steps::{Reply, Request, Step, StoredRow};
use kova_query::value::{values_cmp, values_eq, Metadata, Value};
use roaring::RoaringTreemap;

// ----- A shard in memory -----

struct L2;

struct HnswParams;

impl HnswParams {
    fn default() -> HnswParams {
        HnswParams
    }
}

struct VectorId;

impl VectorId {
    fn new(id: u64) -> u64 {
        id
    }
}

trait IdExt {
    fn get(&self) -> u64;
}

impl IdExt for u64 {
    fn get(&self) -> u64 {
        *self
    }
}

trait VectorExt {
    fn try_new(components: Vec<f32>) -> Result<Vector, String>;
}

impl VectorExt for Vector {
    fn try_new(components: Vec<f32>) -> Result<Vector, String> {
        if components.is_empty() {
            return Err("empty vector".to_string());
        }
        Ok(Vector {
            components: components.into_iter().map(f32::to_bits).collect(),
        })
    }
}

fn components(v: &Vector) -> Vec<f32> {
    v.components.iter().map(|b| f32::from_bits(*b)).collect()
}

fn distance(a: &Vector, b: &Vector) -> f32 {
    components(a)
        .iter()
        .zip(components(b))
        .map(|(x, y)| (x - y) * (x - y))
        .sum::<f32>()
        .sqrt()
}

struct Stored {
    embedding: Vector,
    metadata: Metadata,
}

#[derive(Default)]
struct Store {
    rows: BTreeMap<u64, Stored>,
    tombstones: usize,
    lsn: u64,
    indexes: BTreeMap<String, (String, IndexMethod)>,
}

/// Where a shard keeps its rows; opening it again finds them.
struct Dir(Rc<RefCell<Store>>);

impl Dir {
    fn path(&self) -> Rc<RefCell<Store>> {
        self.0.clone()
    }
}

fn tempdir() -> Result<Dir, String> {
    Ok(Dir(Rc::new(RefCell::new(Store::default()))))
}

struct Shard {
    store: Rc<RefCell<Store>>,
}

impl Shard {
    fn open(
        store: Rc<RefCell<Store>>,
        _dim: usize,
        _metric: L2,
        _params: HnswParams,
    ) -> Result<Shard, String> {
        Ok(Shard { store })
    }

    fn insert(&self, id: u64, embedding: Vector, metadata: Metadata) -> Result<(), String> {
        let mut store = self.store.borrow_mut();
        if store.rows.contains_key(&id) {
            return Err(format!("id {id} already exists"));
        }
        store.rows.insert(
            id,
            Stored {
                embedding,
                metadata,
            },
        );
        store.lsn += 1;
        Ok(())
    }

    fn delete(&self, id: u64) -> Result<(), String> {
        let mut store = self.store.borrow_mut();
        if store.rows.remove(&id).is_none() {
            return Err(format!("id {id} not found"));
        }
        store.tombstones += 1;
        store.lsn += 1;
        Ok(())
    }

    fn contains(&self, id: u64) -> bool {
        self.store.borrow().rows.contains_key(&id)
    }

    fn len(&self) -> usize {
        self.store.borrow().rows.len()
    }

    fn get_metadata(&self, id: u64) -> Option<Metadata> {
        self.store.borrow().rows.get(&id).map(|r| r.metadata.clone())
    }

    fn checkpoint(&self) -> Result<u64, String> {
        Ok(self.store.borrow().lsn)
    }

    fn add_index(&self, field: &str, method: IndexMethod) -> Result<(), String> {
        let name = format!("{field}:{method:?}");
        self.store
            .borrow_mut()
            .indexes
            .insert(name, (field.to_string(), method));
        Ok(())
    }

    fn add_hash_index(&self, field: &str) -> Result<(), String> {
        self.add_index(field, IndexMethod::Hash)
    }

    fn add_btree_index(&self, field: &str) -> Result<(), String> {
        self.add_index(field, IndexMethod::Btree)
    }

    fn add_inverted_index(&self, field: &str) -> Result<(), String> {
        self.add_index(field, IndexMethod::Inverted)
    }

    /// The rows that satisfy a lookup, if one of the indexes knows.
    fn lookup(&self, lookup: &Lookup) -> Option<RoaringTreemap> {
        let store = self.store.borrow();
        let known = store.indexes.values().any(|(field, method)| {
            *field == lookup.field
                && match lookup.atom {
                    IndexAtom::ArrayContains(_) => *method == IndexMethod::Inverted,
                    IndexAtom::Between(..) => *method == IndexMethod::Btree,
                    IndexAtom::Cmp(op, _) => {
                        *method == IndexMethod::Btree
                            || (*method == IndexMethod::Hash && op == IndexCmpOp::Ne)
                    }
                    _ => *method != IndexMethod::Inverted,
                }
        });
        if !known {
            return None;
        }
        Some(
            store
                .rows
                .iter()
                .filter(|(_, r)| match r.metadata.get(&lookup.field) {
                    Some(v) => atom_holds(v, &lookup.atom),
                    None => false,
                })
                .map(|(id, _)| *id)
                .collect(),
        )
    }

    /// All rows, nearest first.
    fn by_distance(&self, query: &Vector) -> Vec<InternalHit> {
        let mut hits: Vec<InternalHit> = self
            .store
            .borrow()
            .rows
            .iter()
            .map(|(id, r)| InternalHit {
                id: *id,
                distance: Some(distance(&r.embedding, query).to_bits()),
                metadata: r.metadata.clone(),
            })
            .collect();
        hits.sort_by(|a, b| measure(a).partial_cmp(&measure(b)).unwrap());
        hits
    }

    /// Does what the executor asks for.
    fn serve(&self, request: Request, params: &ParamBindings) -> Reply {
        match request {
            Request::Checkpoint => match self.checkpoint() {
                Ok(lsn) => Reply::Lsn(lsn),
                Err(e) => Reply::Failed(e),
            },
            Request::Vacuum => {
                let mut store = self.store.borrow_mut();
                let removed = store.tombstones;
                store.tombstones = 0;
                Reply::Count(removed)
            }
            Request::CreateIndex {
                name,
                field,
                method,
            } => {
                let mut store = self.store.borrow_mut();
                if store.indexes.contains_key(&name) {
                    return Reply::Failed(format!("index '{name}' already exists"));
                }
                store.indexes.insert(name, (field, method));
                Reply::Done
            }
            Request::DropIndex { name } => {
                match self.store.borrow_mut().indexes.remove(&name) {
                    Some(_) => Reply::Done,
                    None => Reply::Failed(format!("no index named '{name}'")),
                }
            }
            Request::Insert(row) => done(self.insert(row.id, row.embedding, row.metadata)),
            Request::InsertMany(rows) => {
                for row in rows {
                    if let Err(e) = self.insert(row.id, row.embedding, row.metadata) {
                        return Reply::Failed(e);
                    }
                }
                Reply::Done
            }
            Request::Delete(id) => done(self.delete(id)),
            Request::DeleteMany(ids) => {
                let deleted = ids.into_iter().filter(|id| self.delete(*id).is_ok()).count();
                Reply::Count(deleted)
            }
            Request::UpdateMetadata(rows) => {
                let mut store = self.store.borrow_mut();
                let mut updated = 0;
                for row in rows {
                    match store.rows.get_mut(&row.id) {
                        Some(r) => {
                            r.metadata = row.metadata;
                            updated += 1;
                        }
                        None => return Reply::Failed(format!("id {} not found", row.id)),
                    }
                }
                store.lsn += 1;
                Reply::Count(updated)
            }
            Request::Len => Reply::Count(self.len()),
            Request::GetMetadata(ids) => {
                Reply::Metadata(ids.into_iter().map(|id| self.get_metadata(id)).collect())
            }
            Request::ScanMetadata => Reply::Rows(
                self.store
                    .borrow()
                    .rows
                    .iter()
                    .map(|(id, r)| StoredRow {
                        id: *id,
                        metadata: r.metadata.clone(),
                    })
                    .collect(),
            ),
            Request::Lookup(ls) => Reply::Answers(ls.iter().map(|l| self.lookup(l)).collect()),
            Request::Search { query, k } => {
                Reply::Hits(self.by_distance(&query).into_iter().take(k).collect())
            }
            Request::SearchFiltered { query, k, filter } => {
                let mut probe = FilterProbe::new();
                let mut hits = Vec::new();
                for h in self.by_distance(&query) {
                    if hits.len() < k && probe.check(&filter, &h.metadata, params) {
                        hits.push(h);
                    }
                }
                Reply::FilteredHits {
                    hits,
                    error: probe.error,
                }
            }
            Request::SearchRadius { query, radius } => Reply::Hits(
                self.by_distance(&query)
                    .into_iter()
                    .filter(|h| measure(h) <= f32::from_bits(radius))
                    .collect(),
            ),
            Request::DistanceTo { query, ids } => {
                let store = self.store.borrow();
                Reply::Distances(
                    ids.iter()
                        .map(|id| {
                            store
                                .rows
                                .get(id)
                                .map(|r| distance(&r.embedding, &query).to_bits())
                        })
                        .collect(),
                )
            }
        }
    }
}

fn measure(h: &InternalHit) -> f32 {
    f32::from_bits(h.distance.unwrap())
}

fn done(r: Result<(), String>) -> Reply {
    match r {
        Ok(()) => Reply::Done,
        Err(e) => Reply::Failed(e),
    }
}

fn atom_holds(v: &Value, atom: &IndexAtom) -> bool {
    match atom {
        IndexAtom::Eq(w) => values_eq(v, w),
        IndexAtom::Cmp(op, w) => {
            let op = match op {
                IndexCmpOp::Lt => CmpOp::Lt,
                IndexCmpOp::Le => CmpOp::Le,
                IndexCmpOp::Gt => CmpOp::Gt,
                IndexCmpOp::Ge => CmpOp::Ge,
                IndexCmpOp::Ne => CmpOp::Ne,
            };
            values_cmp(v, w, op) == Some(true)
        }
        IndexAtom::In(ws) => ws.iter().any(|w| values_eq(v, w)),
        IndexAtom::Between(lo, hi) => {
            values_cmp(v, lo, CmpOp::Ge) == Some(true) && values_cmp(v, hi, CmpOp::Le) == Some(true)
        }
        IndexAtom::IsNotNull => true,
        IndexAtom::ArrayContains(w) => match v {
            Value::Array(xs) => xs.iter().any(|x| values_eq(x, w)),
            _ => false,
        },
    }
}

// ----- The cost model -----

fn hnsw_visits(k: usize, n: usize) -> f64 {
    if n <= 1 {
        return 1.0;
    }
    let n_f = n as f64;
    let ef = (k as f64).max(50.0).min(n_f);
    ef * n_f.log2()
}

/// Per-machine cost coefficients, in nanoseconds.
#[derive(Clone, Copy)]
struct CostCoefficients {
    c_hnsw_per_visit: f64,
    c_distance_per_dim: f64,
    c_metadata_get: f64,
    c_filter_eval: f64,
}

impl Default for CostCoefficients {
    fn default() -> CostCoefficients {
        CostCoefficients {
            c_hnsw_per_visit: 100.0,
            c_distance_per_dim: 0.15,
            c_metadata_get: 310.0,
            c_filter_eval: 70.0,
        }
    }
}

fn costs(w: &Workload, c: &CostCoefficients) -> PlanCosts {
    let n = w.total_rows as f64;
    let distance = c.c_distance_per_dim * w.dim as f64;
    let s = if w.total_rows == 0 {
        1.0
    } else {
        w.matches as f64 / n
    };
    let overfetch = ((w.user_k * KNN_OVERFETCH) as f64).min(n).max(1.0);
    let plan_a = hnsw_visits(overfetch as usize, w.total_rows) * (c.c_hnsw_per_visit + distance)
        + overfetch * (c.c_metadata_get + c.c_filter_eval);
    let plan_b = n * c.c_filter_eval + (s * n).max(1.0) * (c.c_metadata_get + distance);
    let overhead = if s <= 0.0 { f64::INFINITY } else { 1.0 / s };
    let plan_c = (hnsw_visits(w.user_k, w.total_rows) * overhead).min(n)
        * (c.c_hnsw_per_visit + distance + c.c_metadata_get + c.c_filter_eval);
    PlanCosts {
        a: plan_a.to_bits(),
        b: plan_b.to_bits(),
        c: plan_c.to_bits(),
    }
}

fn plan_costs(w: Workload) -> PlanCosts {
    costs(&w, &CostCoefficients::default())
}

struct ShardEstimator<'a> {
    shard: &'a Shard,
}

impl SelectivityEstimator for ShardEstimator<'_> {
    fn estimate(&self, pred: &PredicateExpr, params: &ParamBindings) -> SelectivityEstimate {
        let plan = PhysicalPlan::Count {
            table: "t".to_string(),
            predicate: Some(pred.copy()),
            column_name: "n".to_string(),
        };
        let count = match run(start(plan, params, "t"), self.shard, params) {
            Ok(ExecutionResult::Rows { rows, .. }) => match rows[0].values[0] {
                RowValue::Field(Value::I64(n)) => usize::try_from(n).ok(),
                _ => panic!("expected a count"),
            },
            _ => None,
        };
        estimate_of(count, self.shard.len())
    }

    fn dim(&self) -> usize {
        match self.shard.store.borrow().rows.values().next() {
            Some(r) => r.embedding.components.len(),
            None => 0,
        }
    }

    fn plan_costs(&self, workload: Workload) -> PlanCosts {
        plan_costs(workload)
    }
}

// ----- The engine -----

fn run(
    first: Result<Step, KovaQueryError>,
    shard: &Shard,
    params: &ParamBindings,
) -> Result<ExecutionResult, KovaQueryError> {
    let mut step = first?;
    loop {
        match step {
            Step::Done(result) => return Ok(result),
            Step::Ask(request, pending) => {
                let reply = shard.serve(request, params);
                step = resume(pending, reply, params)?;
            }
        }
    }
}

struct Engine {
    inner: kova_query::Engine<Shard>,
}

impl Engine {
    fn new(shard: Shard, table_name: &str) -> Engine {
        Engine {
            inner: kova_query::Engine::new(shard, table_name),
        }
    }

    fn shard(&self) -> &Shard {
        self.inner.shard()
    }

    fn shard_mut(&mut self) -> &mut Shard {
        self.inner.shard_mut()
    }

    fn execute_str(
        &mut self,
        input: &str,
        params: ParamBindings,
    ) -> Result<ExecutionResult, KovaQueryError> {
        let shard = self.inner.shard();
        let first = self
            .inner
            .execute_str(input, &ShardEstimator { shard }, &params);
        run(first, shard, &params)
    }
}

// ----- Fixtures -----

fn open_shard(store: Rc<RefCell<Store>>) -> Shard {
    Shard::open(store, 2, L2, HnswParams::default()).unwrap()
}

fn v(data: Vec<f32>) -> Vector {
    Vector::try_new(data).unwrap()
}

fn meta(pairs: &[(&str, Value)]) -> Metadata {
    let mut m = Metadata::new();
    for (k, val) in pairs {
        m.insert((*k).to_string(), val.clone());
    }
    m
}

fn s(x: &str) -> Value {
    Value::String(x.into())
}

fn i(n: i64) -> Value {
    Value::I64(n)
}

fn arr(xs: &[&str]) -> Value {
    Value::Array(xs.iter().map(|x| s(x)).collect())
}

/// What an error says, with its cause.
fn full_error(err: &KovaQueryError) -> String {
    match err {
        KovaQueryError::Backend(cause) => format!("{} :: {cause}", err.to_message()),
        _ => err.to_message(),
    }
}

// ----- Execution -----

/// End-to-end : real file-backed shard, parse + bind + plan +
/// execute CHECKPOINT, expect an LSN back.
#[test]
fn executes_checkpoint_end_to_end() {
    let dir = tempdir().expect("tempdir");
    let shard = Shard::open(dir.path(), 4, L2, HnswParams::default()).expect("Shard::open");
    let mut engine = Engine::new(shard, "vectors");
    let result = engine
        .execute_str("CHECKPOINT", ParamBindings::empty())
        .expect("execute_str");
    let ExecutionResult::Checkpoint { lsn } = result else {
        panic!("expected Checkpoint, got {result:?}");
    };
    // First checkpoint on an empty shard : WAL has no records,
    // so the captured lsn is ZERO. Just check the variant fired.
    assert_eq!(lsn, 0);
}

/// Two consecutive CHECKPOINTs return the same LSN if no writes
/// happened between them (WAL didn't advance), and both succeed.
#[test]
fn checkpoint_is_idempotent_when_no_writes_between() {
    let dir = tempdir().expect("tempdir");
    let shard = Shard::open(dir.path(), 4, L2, HnswParams::default()).expect("Shard::open");
    let mut engine = Engine::new(shard, "vectors");
    let first = engine
        .execute_str("CHECKPOINT", ParamBindings::empty())
        .unwrap();
    let second = engine
        .execute_str("CHECKPOINT", ParamBindings::empty())
        .unwrap();
    let ExecutionResult::Checkpoint { lsn: l1 } = first else {
        panic!("expected Checkpoint, got {first:?}");
    };
    let ExecutionResult::Checkpoint { lsn: l2 } = second else {
        panic!("expected Checkpoint, got {second:?}");
    };
    assert_eq!(l1, l2);
}

/// Parse errors surface from `execute_str` cleanly.
#[test]
fn execute_str_propagates_parse_error() {
    let dir = tempdir().expect("tempdir");
    let shard = Shard::open(dir.path(), 4, L2, HnswParams::default()).expect("Shard::open");
    let mut engine = Engine::new(shard, "vectors");
    let err = engine
        .execute_str("not_a_keyword", ParamBindings::empty())
        .expect_err("expected error");
    assert!(matches!(err, KovaQueryError::Parse(_)));
}

/// Bind errors surface too. UPDATE with embedding assignment is
/// the canonical bind failure.
#[test]
fn execute_str_propagates_bind_error() {
    let dir = tempdir().expect("tempdir");
    let shard = Shard::open(dir.path(), 4, L2, HnswParams::default()).expect("Shard::open");
    let mut engine = Engine::new(shard, "vectors");
    let err = engine
        .execute_str(
            "UPDATE vectors SET embedding = $1 WHERE id = $2",
            ParamBindings::empty(),
        )
        .expect_err("expected error");
    assert!(matches!(err, KovaQueryError::Bind(_)));
}

/// Plan errors propagate cleanly through `execute_str` instead of
/// panicking deeper in the pipeline. Uses `OR` containing a
/// distance-threshold as the exemplar.
#[test]
fn execute_str_propagates_plan_error_for_unimplemented() {
    let dir = tempdir().expect("tempdir");
    let shard = Shard::open(dir.path(), 4, L2, HnswParams::default()).expect("Shard::open");
    let mut engine = Engine::new(shard, "vectors");
    let q = Vector::try_new(vec![1.0, 0.0, 0.0, 0.0]).unwrap();
    let err = engine
        .execute_str(
            "DELETE FROM vectors WHERE embedding <-> $1 < 0.5 OR tag = 'docs'",
            ParamBindings::empty().with_positional(ParamValue::Vector(q)),
        )
        .expect_err("expected error");
    assert!(matches!(err, KovaQueryError::Plan(_)));
}

// ----- VACUUM -----

/// VACUUM on an empty shard returns 0 removed.
#[test]
fn executes_vacuum_on_empty_shard() {
    let dir = tempdir().expect("tempdir");
    let shard = Shard::open(dir.path(), 4, L2, HnswParams::default()).expect("Shard::open");
    let mut engine = Engine::new(shard, "vectors");
    let result = engine
        .execute_str("VACUUM vectors", ParamBindings::empty())
        .expect("execute_str");
    let ExecutionResult::Vacuum { table, removed } = result else {
        panic!("expected Vacuum, got {result:?}");
    };
    assert_eq!(table, "vectors");
    assert_eq!(removed, 0);
}

/// VACUUM after inserts + deletes physically removes the tombstoned
/// nodes. Sets up state via `shard_mut()`.
#[test]
fn executes_vacuum_after_inserts_and_deletes() {
    let dir = tempdir().expect("tempdir");
    let shard = Shard::open(dir.path(), 4, L2, HnswParams::default()).expect("Shard::open");
    let mut engine = Engine::new(shard, "vectors");

    // Insert 3 vectors directly via Shard API. `u16` keeps the
    // numeric conversions lossless : `u16 -> f32` and `u16 -> u64`
    // both fit by construction, no cast lints.
    for i in 1..=3u16 {
        engine
            .shard_mut()
            .insert(
                VectorId::new(u64::from(i)),
                Vector::try_new(vec![f32::from(i), 0.0, 0.0, 0.0]).unwrap(),
                Metadata::new(),
            )
            .expect("insert");
    }
    // Delete two of them ; deletes are tombstones, vacuum is what
    // actually reclaims them.
    engine
        .shard_mut()
        .delete(VectorId::new(1))
        .expect("delete 1");
    engine
        .shard_mut()
        .delete(VectorId::new(2))
        .expect("delete 2");

    let result = engine
        .execute_str("VACUUM vectors", ParamBindings::empty())
        .expect("vacuum");
    let ExecutionResult::Vacuum { removed, .. } = result else {
        panic!("expected Vacuum");
    };
    assert_eq!(removed, 2, "two tombstoned nodes should be reclaimed");
}

/// Statement-named table that doesn't match the engine's shard
/// reports an Execution error from the dispatcher's table check.
/// The binder accepts any name ; the executor is the layer that
/// knows what shard it has.
#[test]
fn rejects_vacuum_on_unknown_table() {
    let dir = tempdir().expect("tempdir");
    let shard = Shard::open(dir.path(), 4, L2, HnswParams::default()).expect("Shard::open");
    let mut engine = Engine::new(shard, "vectors");
    let err = engine
        .execute_str("VACUUM products", ParamBindings::empty())
        .expect_err("expected error");
    let KovaQueryError::Execution(msg) = err else {
        panic!("expected Execution, got {err:?}");
    };
    assert!(
        msg.contains("'products'") && msg.contains("'vectors'"),
        "message should mention both names : {msg}"
    );
}

/// Engine's table-name match is case-insensitive.
#[test]
fn vacuum_accepts_case_variation_in_table_name() {
    let dir = tempdir().expect("tempdir");
    let shard = Shard::open(dir.path(), 4, L2, HnswParams::default()).expect("Shard::open");
    let mut engine = Engine::new(shard, "vectors");
    let result = engine
        .execute_str("VACUUM Vectors", ParamBindings::empty())
        .expect("execute_str");
    assert!(matches!(result, ExecutionResult::Vacuum { .. }));
}

// ----- ParamBindings unit tests -----

#[test]
fn param_bindings_resolve_positional() {
    let b = ParamBindings::positional(vec![ParamValue::Id(VectorId::new(42))]);
    let v = b.resolve(&ParamRef::Positional(1)).expect("bound");
    assert!(matches!(v, ParamValue::Id(id) if id.get() == 42));
}

#[test]
fn param_bindings_resolve_named() {
    let b = ParamBindings::default().with_named("target", ParamValue::Id(VectorId::new(7)));
    let v = b.resolve(&ParamRef::Named("target".into())).expect("bound");
    assert!(matches!(v, ParamValue::Id(id) if id.get() == 7));
}

#[test]
fn param_bindings_resolve_unbound_positional_errors() {
    let b = ParamBindings::empty();
    let err = b
        .resolve(&ParamRef::Positional(1))
        .expect_err("expected error");
    let KovaQueryError::Execution(msg) = err else {
        panic!("expected Execution");
    };
    assert!(msg.contains("not bound"));
}

#[test]
fn param_bindings_resolve_unbound_named_errors() {
    let b = ParamBindings::empty();
    let err = b
        .resolve(&ParamRef::Named("missing".into()))
        .expect_err("expected error");
    assert!(matches!(err, KovaQueryError::Execution(_)));
}

#[test]
fn param_bindings_reject_zero_positional() {
    let b = ParamBindings::positional(vec![ParamValue::Id(VectorId::new(1))]);
    let err = b
        .resolve(&ParamRef::Positional(0))
        .expect_err("expected error");
    assert!(matches!(err, KovaQueryError::Execution(_)));
}

// ----- INSERT -----

fn make_engine(dir: &Dir) -> Engine {
    let shard = Shard::open(dir.path(), 4, L2, HnswParams::default()).expect("Shard::open");
    Engine::new(shard, "vectors")
}

fn unit_vec() -> Vector {
    Vector::try_new(vec![1.0, 0.0, 0.0, 0.0]).expect("non-empty")
}

#[test]
fn executes_insert_one_with_positional_params() {
    let dir = tempdir().expect("tempdir");
    let mut engine = make_engine(&dir);
    let params = ParamBindings::empty()
        .with_positional(ParamValue::Id(VectorId::new(42)))
        .with_positional(ParamValue::Vector(unit_vec()))
        .with_positional(ParamValue::Metadata(Metadata::new()));
    let result = engine
        .execute_str(
            "INSERT INTO vectors (id, embedding, metadata) VALUES ($1, $2, $3)",
            params,
        )
        .expect("execute_str");
    let ExecutionResult::Insert { table, inserted } = result else {
        panic!("expected Insert, got {result:?}");
    };
    assert_eq!(table, "vectors");
    assert_eq!(inserted, 1);
    // The shard now holds the id.
    assert!(engine.shard().contains(VectorId::new(42)));
}

#[test]
fn executes_insert_one_with_named_params() {
    let dir = tempdir().expect("tempdir");
    let mut engine = make_engine(&dir);
    let params = ParamBindings::empty()
        .with_named("id", ParamValue::Id(VectorId::new(7)))
        .with_named("vec", ParamValue::Vector(unit_vec()))
        .with_named("meta", ParamValue::Metadata(Metadata::new()));
    engine
        .execute_str(
            "INSERT INTO vectors (id, embedding, metadata) VALUES ($id, $vec, $meta)",
            params,
        )
        .expect("execute_str");
    assert!(engine.shard().contains(VectorId::new(7)));
}

#[test]
fn executes_insert_many_batch() {
    let dir = tempdir().expect("tempdir");
    let mut engine = make_engine(&dir);
    let batch: Vec<NewRow> = (1..=5u16)
        .map(|i| NewRow {
            id: VectorId::new(u64::from(i)),
            embedding: Vector::try_new(vec![f32::from(i), 0.0, 0.0, 0.0]).unwrap(),
            metadata: Metadata::new(),
        })
        .collect();
    let params = ParamBindings::empty().with_positional(ParamValue::Batch(batch));
    let result = engine
        .execute_str(
            "INSERT INTO vectors (id, embedding, metadata) VALUES $1",
            params,
        )
        .expect("execute_str");
    let ExecutionResult::Insert { inserted, .. } = result else {
        panic!("expected Insert");
    };
    assert_eq!(inserted, 5);
    for i in 1..=5u64 {
        assert!(engine.shard().contains(VectorId::new(i)));
    }
}

#[test]
fn rejects_insert_unbound_param() {
    let dir = tempdir().expect("tempdir");
    let mut engine = make_engine(&dir);
    // Only bind $1 ; $2 and $3 are missing.
    let params = ParamBindings::empty().with_positional(ParamValue::Id(VectorId::new(1)));
    let err = engine
        .execute_str(
            "INSERT INTO vectors (id, embedding, metadata) VALUES ($1, $2, $3)",
            params,
        )
        .expect_err("expected error");
    let KovaQueryError::Execution(msg) = err else {
        panic!("expected Execution, got {err:?}");
    };
    assert!(msg.contains("not bound"));
}

#[test]
fn rejects_insert_with_wrong_param_type() {
    let dir = tempdir().expect("tempdir");
    let mut engine = make_engine(&dir);
    // Bind $1 (the id slot) to a Vector ; type mismatch.
    let params = ParamBindings::empty()
        .with_positional(ParamValue::Vector(unit_vec()))
        .with_positional(ParamValue::Vector(unit_vec()))
        .with_positional(ParamValue::Metadata(Metadata::new()));
    let err = engine
        .execute_str(
            "INSERT INTO vectors (id, embedding, metadata) VALUES ($1, $2, $3)",
            params,
        )
        .expect_err("expected error");
    let KovaQueryError::Execution(msg) = err else {
        panic!("expected Execution, got {err:?}");
    };
    assert!(
        msg.contains("expects Id") && msg.contains("got Vector"),
        "message should pinpoint the type mismatch : {msg}"
    );
}

#[test]
fn rejects_insert_into_unknown_table() {
    let dir = tempdir().expect("tempdir");
    let mut engine = make_engine(&dir);
    let params = ParamBindings::empty()
        .with_positional(ParamValue::Id(VectorId::new(1)))
        .with_positional(ParamValue::Vector(unit_vec()))
        .with_positional(ParamValue::Metadata(Metadata::new()));
    let err = engine
        .execute_str(
            "INSERT INTO products (id, embedding, metadata) VALUES ($1, $2, $3)",
            params,
        )
        .expect_err("expected error");
    assert!(matches!(err, KovaQueryError::Execution(_)));
}

#[test]
fn rejects_insert_duplicate_id() {
    let dir = tempdir().expect("tempdir");
    let mut engine = make_engine(&dir);
    let bindings = || {
        ParamBindings::empty()
            .with_positional(ParamValue::Id(VectorId::new(99)))
            .with_positional(ParamValue::Vector(unit_vec()))
            .with_positional(ParamValue::Metadata(Metadata::new()))
    };
    engine
        .execute_str(
            "INSERT INTO vectors (id, embedding, metadata) VALUES ($1, $2, $3)",
            bindings(),
        )
        .expect("first insert");
    let err = engine
        .execute_str(
            "INSERT INTO vectors (id, embedding, metadata) VALUES ($1, $2, $3)",
            bindings(),
        )
        .expect_err("expected duplicate-id error");
    // The duplicate comes from the Shard, so it bubbles up as Backend.
    assert!(matches!(err, KovaQueryError::Backend(_)));
}

/// INSERT through KQL,
/// CHECKPOINT through KQL, drop the engine, reopen the shard
/// from disk, verify the insert survived. Writes work through
/// the language and survive a process boundary.
#[test]
fn end_to_end_insert_then_checkpoint_then_reopen_survives() {
    let dir = tempdir().expect("tempdir");
    {
        let mut engine = make_engine(&dir);
        engine
            .execute_str(
                "INSERT INTO vectors (id, embedding, metadata) VALUES ($1, $2, $3)",
                ParamBindings::empty()
                    .with_positional(ParamValue::Id(VectorId::new(123)))
                    .with_positional(ParamValue::Vector(unit_vec()))
                    .with_positional(ParamValue::Metadata(Metadata::new())),
            )
            .expect("insert");
        engine
            .execute_str("CHECKPOINT", ParamBindings::empty())
            .expect("checkpoint");
    } // Engine drops, Shard drops, files close.

    // Reopen the shard from the same directory ; the insert
    // should be durable.
    let shard = Shard::open(dir.path(), 4, L2, HnswParams::default()).expect("reopen");
    let engine = Engine::new(shard, "vectors");
    assert!(engine.shard().contains(VectorId::new(123)));
}

// ----- DELETE -----

/// Insert via KQL, then delete by literal id via KQL. The
/// post-delete `contains` returns false because Shard.contains
/// filters tombstones.
#[test]
fn executes_delete_by_literal_id() {
    let dir = tempdir().expect("tempdir");
    let mut engine = make_engine(&dir);
    engine
        .execute_str(
            "INSERT INTO vectors (id, embedding, metadata) VALUES ($1, $2, $3)",
            ParamBindings::empty()
                .with_positional(ParamValue::Id(VectorId::new(5)))
                .with_positional(ParamValue::Vector(unit_vec()))
                .with_positional(ParamValue::Metadata(Metadata::new())),
        )
        .expect("insert");
    let result = engine
        .execute_str("DELETE FROM vectors WHERE id = 5", ParamBindings::empty())
        .expect("delete");
    let ExecutionResult::Delete { table, deleted } = result else {
        panic!("expected Delete, got {result:?}");
    };
    assert_eq!(table, "vectors");
    assert_eq!(deleted, 1);
    assert!(!engine.shard().contains(VectorId::new(5)));
}

/// The planner makes its first real decision here : the binder
/// detected the literal-id form of the predicate and set
/// `single_id_hint = Some(5)`, so the planner emits `DeleteById`
/// without walking the predicate tree at execute time.
#[test]
fn planner_picks_delete_by_id_for_literal_predicate() {
    let dir = tempdir().expect("tempdir");
    let mut engine = make_engine(&dir);
    engine
        .execute_str(
            "INSERT INTO vectors (id, embedding, metadata) VALUES ($1, $2, $3)",
            ParamBindings::empty()
                .with_positional(ParamValue::Id(VectorId::new(10)))
                .with_positional(ParamValue::Vector(unit_vec()))
                .with_positional(ParamValue::Metadata(Metadata::new())),
        )
        .expect("insert");
    // The literal-id form lands on the fast path even though the
    // predicate is structurally identical to a more general
    // `WHERE` clause.
    engine
        .execute_str("DELETE FROM vectors WHERE id = 10", ParamBindings::empty())
        .expect("delete");
    assert!(!engine.shard().contains(VectorId::new(10)));
}

/// Param-bound id : binder sets the `Param` hint, planner emits
/// `DeleteByParamId`, executor resolves the param at run time and
/// dispatches to `Shard::delete` like the literal path. Same fast
/// path semantics : exactly one row tombstoned, no metadata scan.
#[test]
fn delete_by_param_bound_id_tombstones_the_resolved_id() {
    let dir = tempdir().expect("tempdir");
    let mut engine = make_engine(&dir);
    seed_engine(&mut engine, &[meta_of(&[]), meta_of(&[])]);
    let params = ParamBindings::empty().with_positional(ParamValue::Id(VectorId::new(1)));
    let result = engine
        .execute_str("DELETE FROM vectors WHERE id = $1", params)
        .expect("execute_str");
    let ExecutionResult::Delete { deleted, .. } = result else {
        panic!("expected Delete, got {result:?}");
    };
    assert_eq!(deleted, 1);
    assert!(!engine.shard().contains(VectorId::new(1)));
    assert!(engine.shard().contains(VectorId::new(2)));
}

/// Named-param variant of the above. Catches a bug where positional
/// vs named resolution diverges.
#[test]
fn delete_by_named_param_id() {
    let dir = tempdir().expect("tempdir");
    let mut engine = make_engine(&dir);
    seed_engine(&mut engine, &[meta_of(&[]), meta_of(&[])]);
    let params = ParamBindings::empty().with_named("target", ParamValue::Id(VectorId::new(2)));
    let result = engine
        .execute_str("DELETE FROM vectors WHERE id = $target", params)
        .expect("execute_str");
    let ExecutionResult::Delete { deleted, .. } = result else {
        panic!("expected Delete");
    };
    assert_eq!(deleted, 1);
    assert!(engine.shard().contains(VectorId::new(1)));
    assert!(!engine.shard().contains(VectorId::new(2)));
}

/// Param-bound id with a wrong-typed value surfaces a clear
/// Execution error from `expect_id`.
#[test]
fn delete_by_param_bound_id_wrong_type_errors() {
    let dir = tempdir().expect("tempdir");
    let mut engine = make_engine(&dir);
    seed_engine(&mut engine, &[meta_of(&[])]);
    let params = ParamBindings::empty().with_positional(ParamValue::I64(1));
    let err = engine
        .execute_str("DELETE FROM vectors WHERE id = $1", params)
        .expect_err("expected Execution error");
    assert!(matches!(err, KovaQueryError::Execution(_)));
}

/// Compound predicate on a metadata field routes through
/// `DeleteByPredicate` and tombstones every matching row.
#[test]
fn delete_by_compound_predicate_deletes_matching_rows() {
    let dir = tempdir().expect("tempdir");
    let mut engine = make_engine(&dir);
    seed_engine(
        &mut engine,
        &[
            meta_of(&[("category", Value::String("old".into()))]),
            meta_of(&[("category", Value::String("new".into()))]),
            meta_of(&[("category", Value::String("old".into()))]),
        ],
    );
    let result = engine
        .execute_str(
            "DELETE FROM vectors WHERE category = 'old'",
            ParamBindings::empty(),
        )
        .expect("execute_str");
    let ExecutionResult::Delete { deleted, .. } = result else {
        panic!("expected Delete, got {result:?}");
    };
    assert_eq!(deleted, 2);
    assert!(!engine.shard().contains(VectorId::new(1)));
    assert!(engine.shard().contains(VectorId::new(2)));
    assert!(!engine.shard().contains(VectorId::new(3)));
}

/// DELETE matching nothing returns `deleted = 0` cleanly.
#[test]
fn delete_by_predicate_no_matches_returns_zero() {
    let dir = tempdir().expect("tempdir");
    let mut engine = make_engine(&dir);
    seed_engine(
        &mut engine,
        &[meta_of(&[("category", Value::String("a".into()))])],
    );
    let result = engine
        .execute_str(
            "DELETE FROM vectors WHERE category = 'nonexistent'",
            ParamBindings::empty(),
        )
        .expect("execute_str");
    let ExecutionResult::Delete { deleted, .. } = result else {
        panic!("expected Delete");
    };
    assert_eq!(deleted, 0);
    assert!(engine.shard().contains(VectorId::new(1)));
}

/// `DELETE WHERE embedding <-> $q < r` routes through the radius
/// operator : every id within the ball is tombstoned, ids outside
/// it survive. Same semantics as `SELECT ... WHERE dist < r`
/// applied as a write.
#[test]
fn delete_by_radius_tombstones_in_ball() {
    let dir = tempdir().expect("tempdir");
    let mut engine = make_engine(&dir);
    // 8 axis-aligned vectors : ids 1,5 -> e_0 ; 2,6 -> e_1 ; etc.
    let metas: Vec<Metadata> = (0..8).map(|_| Metadata::new()).collect();
    seed_engine(&mut engine, &metas);

    let q = Vector::try_new(vec![1.0, 0.0, 0.0, 0.0]).unwrap();
    let result = engine
        .execute_str(
            "DELETE FROM vectors WHERE embedding <-> $1 < 0.5",
            ParamBindings::empty().with_positional(ParamValue::Vector(q)),
        )
        .expect("execute_str");
    let ExecutionResult::Delete { deleted, .. } = result else {
        panic!("expected Delete");
    };
    // Only ids 1 and 5 sit on e_0 (distance 0 to the query).
    assert_eq!(deleted, 2);
    assert!(!engine.shard().contains(VectorId::new(1)));
    assert!(!engine.shard().contains(VectorId::new(5)));
    assert!(engine.shard().contains(VectorId::new(2)));
    assert!(engine.shard().contains(VectorId::new(6)));
}

/// AND-residue on a radius DELETE peels off as a post-filter.
/// Only ids that are both in-ball AND match the residue get
/// tombstoned.
#[test]
fn delete_by_radius_with_and_residue_applies_post_filter() {
    let dir = tempdir().expect("tempdir");
    let mut engine = make_engine(&dir);
    // ids 1, 5 -> e_0. Tag id 1 as 'docs', id 5 as 'other'.
    let metas = vec![
        meta_of(&[("tag", Value::String("docs".into()))]), // id 1
        meta_of(&[("tag", Value::String("other".into()))]), // id 2
        meta_of(&[("tag", Value::String("other".into()))]), // id 3
        meta_of(&[("tag", Value::String("other".into()))]), // id 4
        meta_of(&[("tag", Value::String("other".into()))]), // id 5
    ];
    seed_engine(&mut engine, &metas);

    let q = Vector::try_new(vec![1.0, 0.0, 0.0, 0.0]).unwrap();
    let result = engine
        .execute_str(
            "DELETE FROM vectors \
             WHERE embedding <-> $1 < 0.5 AND tag = 'docs'",
            ParamBindings::empty().with_positional(ParamValue::Vector(q)),
        )
        .expect("execute_str");
    let ExecutionResult::Delete { deleted, .. } = result else {
        panic!("expected Delete");
    };
    // id 1 is in-ball AND tag='docs'. id 5 is in-ball but tag='other'.
    assert_eq!(deleted, 1);
    assert!(!engine.shard().contains(VectorId::new(1)));
    assert!(engine.shard().contains(VectorId::new(5)));
}

/// DELETE on a non-existent id surfaces the Shard's `NotFound` as
/// a Backend error.
#[test]
fn rejects_delete_of_missing_id() {
    let dir = tempdir().expect("tempdir");
    let mut engine = make_engine(&dir);
    let err = engine
        .execute_str("DELETE FROM vectors WHERE id = 999", ParamBindings::empty())
        .expect_err("expected error");
    assert!(matches!(err, KovaQueryError::Backend(_)));
}

/// DELETE on an unknown table reports an Execution error via the
/// engine's table dispatcher.
#[test]
fn rejects_delete_on_unknown_table() {
    let dir = tempdir().expect("tempdir");
    let mut engine = make_engine(&dir);
    let err = engine
        .execute_str("DELETE FROM products WHERE id = 1", ParamBindings::empty())
        .expect_err("expected error");
    assert!(matches!(err, KovaQueryError::Execution(_)));
}

// ----- UPDATE : single-id fast paths -----

/// `UPDATE ... SET field = 'literal' WHERE id = N` mutates exactly
/// the targeted row's metadata bag. Other rows untouched.
#[test]
fn update_by_literal_id_replaces_field() {
    let dir = tempdir().expect("tempdir");
    let mut engine = make_engine(&dir);
    seed_engine(
        &mut engine,
        &[
            meta_of(&[("category", Value::String("old".into()))]),
            meta_of(&[("category", Value::String("untouched".into()))]),
        ],
    );
    let result = engine
        .execute_str(
            "UPDATE vectors SET category = 'new' WHERE id = 1",
            ParamBindings::empty(),
        )
        .expect("execute_str");
    let ExecutionResult::Update { updated, .. } = result else {
        panic!("expected Update, got {result:?}");
    };
    assert_eq!(updated, 1);
    assert_eq!(
        engine
            .shard()
            .get_metadata(VectorId::new(1))
            .unwrap()
            .get("category"),
        Some(&Value::String("new".into()))
    );
    assert_eq!(
        engine
            .shard()
            .get_metadata(VectorId::new(2))
            .unwrap()
            .get("category"),
        Some(&Value::String("untouched".into()))
    );
}

/// `WHERE id = $1` resolves the param at execute time and dispatches
/// to the same fast path.
#[test]
fn update_by_param_bound_id_sets_field() {
    let dir = tempdir().expect("tempdir");
    let mut engine = make_engine(&dir);
    seed_engine(
        &mut engine,
        &[meta_of(&[("category", Value::String("old".into()))])],
    );
    let params = ParamBindings::empty().with_positional(ParamValue::Id(VectorId::new(1)));
    let result = engine
        .execute_str("UPDATE vectors SET category = 'new' WHERE id = $1", params)
        .expect("execute_str");
    let ExecutionResult::Update { updated, .. } = result else {
        panic!("expected Update");
    };
    assert_eq!(updated, 1);
    assert_eq!(
        engine
            .shard()
            .get_metadata(VectorId::new(1))
            .unwrap()
            .get("category"),
        Some(&Value::String("new".into()))
    );
}

/// UPDATE on a non-existent id surfaces as an Execution error.
#[test]
fn update_unknown_id_errors() {
    let dir = tempdir().expect("tempdir");
    let mut engine = make_engine(&dir);
    seed_engine(&mut engine, &[meta_of(&[])]);
    let err = engine
        .execute_str(
            "UPDATE vectors SET tag = 'x' WHERE id = 999",
            ParamBindings::empty(),
        )
        .expect_err("expected error");
    // No metadata bag for id 999 ; surfaces as Execution.
    assert!(matches!(err, KovaQueryError::Execution(_)));
}

/// Param-bound assignment value : `SET tag = $1`. Should resolve
/// the param to a `Value` and write it.
#[test]
fn update_with_param_bound_assignment_value() {
    let dir = tempdir().expect("tempdir");
    let mut engine = make_engine(&dir);
    seed_engine(&mut engine, &[meta_of(&[])]);
    let params =
        ParamBindings::empty().with_positional(ParamValue::String("from-param".into()));
    let result = engine
        .execute_str("UPDATE vectors SET tag = $1 WHERE id = 1", params)
        .expect("execute_str");
    let ExecutionResult::Update { updated, .. } = result else {
        panic!("expected Update");
    };
    assert_eq!(updated, 1);
    assert_eq!(
        engine
            .shard()
            .get_metadata(VectorId::new(1))
            .unwrap()
            .get("tag"),
        Some(&Value::String("from-param".into()))
    );
}

/// Multiple SET clauses : each assignment lands. Sequential
/// application order is the source order.
#[test]
fn update_with_multiple_assignments() {
    let dir = tempdir().expect("tempdir");
    let mut engine = make_engine(&dir);
    seed_engine(
        &mut engine,
        &[meta_of(&[("a", Value::I64(1)), ("b", Value::I64(2))])],
    );
    let result = engine
        .execute_str(
            "UPDATE vectors SET a = 10, b = 20, c = 30 WHERE id = 1",
            ParamBindings::empty(),
        )
        .expect("execute_str");
    let ExecutionResult::Update { updated, .. } = result else {
        panic!("expected Update");
    };
    assert_eq!(updated, 1);
    let bag = engine.shard().get_metadata(VectorId::new(1)).unwrap();
    assert_eq!(bag.get("a"), Some(&Value::I64(10)));
    assert_eq!(bag.get("b"), Some(&Value::I64(20)));
    assert_eq!(bag.get("c"), Some(&Value::I64(30)));
}

/// Predicate UPDATE : scan metadata for matching ids, apply the
/// assignments to each bag, write the batch via one
/// `Shard::update_metadata` call.
#[test]
fn update_by_predicate_rewrites_matching_rows() {
    let dir = tempdir().expect("tempdir");
    let mut engine = make_engine(&dir);
    seed_engine(
        &mut engine,
        &[
            meta_of(&[("category", Value::String("old".into()))]),
            meta_of(&[("category", Value::String("new".into()))]),
            meta_of(&[("category", Value::String("old".into()))]),
        ],
    );
    let result = engine
        .execute_str(
            "UPDATE vectors SET category = 'archived' WHERE category = 'old'",
            ParamBindings::empty(),
        )
        .expect("execute_str");
    let ExecutionResult::Update { updated, .. } = result else {
        panic!("expected Update, got {result:?}");
    };
    assert_eq!(updated, 2);
    // ids 1 and 3 had category='old' -> now 'archived' ;
    // id 2 had 'new' and stays unchanged.
    assert_eq!(
        engine
            .shard()
            .get_metadata(VectorId::new(1))
            .unwrap()
            .get("category"),
        Some(&Value::String("archived".into()))
    );
    assert_eq!(
        engine
            .shard()
            .get_metadata(VectorId::new(2))
            .unwrap()
            .get("category"),
        Some(&Value::String("new".into()))
    );
    assert_eq!(
        engine
            .shard()
            .get_metadata(VectorId::new(3))
            .unwrap()
            .get("category"),
        Some(&Value::String("archived".into()))
    );
}

/// Predicate UPDATE that matches no rows returns `updated = 0`
/// cleanly.
#[test]
fn update_by_predicate_no_matches_returns_zero() {
    let dir = tempdir().expect("tempdir");
    let mut engine = make_engine(&dir);
    seed_engine(
        &mut engine,
        &[meta_of(&[("category", Value::String("docs".into()))])],
    );
    let result = engine
        .execute_str(
            "UPDATE vectors SET category = 'archived' WHERE category = 'nonexistent'",
            ParamBindings::empty(),
        )
        .expect("execute_str");
    let ExecutionResult::Update { updated, .. } = result else {
        panic!("expected Update");
    };
    assert_eq!(updated, 0);
    // Original row untouched.
    assert_eq!(
        engine
            .shard()
            .get_metadata(VectorId::new(1))
            .unwrap()
            .get("category"),
        Some(&Value::String("docs".into()))
    );
}

/// Radius UPDATE : every id in the ball gets its assignments
/// applied. Out-of-ball rows untouched.
#[test]
fn update_by_radius_rewrites_in_ball() {
    let dir = tempdir().expect("tempdir");
    let mut engine = make_engine(&dir);
    // 8 axis-aligned ; ids 1, 5 sit on e_0.
    let metas: Vec<Metadata> = (0..8)
        .map(|_| meta_of(&[("tag", Value::String("old".into()))]))
        .collect();
    seed_engine(&mut engine, &metas);

    let q = Vector::try_new(vec![1.0, 0.0, 0.0, 0.0]).unwrap();
    let result = engine
        .execute_str(
            "UPDATE vectors SET tag = 'new' WHERE embedding <-> $1 < 0.5",
            ParamBindings::empty().with_positional(ParamValue::Vector(q)),
        )
        .expect("execute_str");
    let ExecutionResult::Update { updated, .. } = result else {
        panic!("expected Update");
    };
    assert_eq!(updated, 2);
    assert_eq!(
        engine
            .shard()
            .get_metadata(VectorId::new(1))
            .unwrap()
            .get("tag"),
        Some(&Value::String("new".into()))
    );
    assert_eq!(
        engine
            .shard()
            .get_metadata(VectorId::new(5))
            .unwrap()
            .get("tag"),
        Some(&Value::String("new".into()))
    );
    // id 2 is at e_1 (distance sqrt(2) > 0.5), should stay 'old'.
    assert_eq!(
        engine
            .shard()
            .get_metadata(VectorId::new(2))
            .unwrap()
            .get("tag"),
        Some(&Value::String("old".into()))
    );
}

/// Radius UPDATE with AND-residue : only ids that are in-ball AND
/// pass the residue get updated.
#[test]
fn update_by_radius_with_and_residue_applies_post_filter() {
    let dir = tempdir().expect("tempdir");
    let mut engine = make_engine(&dir);
    // ids 1, 5 -> e_0. id 1 tagged 'docs', id 5 tagged 'other'.
    let metas = vec![
        meta_of(&[("tag", Value::String("docs".into()))]),
        meta_of(&[("tag", Value::String("other".into()))]),
        meta_of(&[("tag", Value::String("other".into()))]),
        meta_of(&[("tag", Value::String("other".into()))]),
        meta_of(&[("tag", Value::String("other".into()))]),
    ];
    seed_engine(&mut engine, &metas);

    let q = Vector::try_new(vec![1.0, 0.0, 0.0, 0.0]).unwrap();
    let result = engine
        .execute_str(
            "UPDATE vectors SET status = 'archived' \
             WHERE embedding <-> $1 < 0.5 AND tag = 'docs'",
            ParamBindings::empty().with_positional(ParamValue::Vector(q)),
        )
        .expect("execute_str");
    let ExecutionResult::Update { updated, .. } = result else {
        panic!("expected Update");
    };
    assert_eq!(updated, 1);
    assert_eq!(
        engine
            .shard()
            .get_metadata(VectorId::new(1))
            .unwrap()
            .get("status"),
        Some(&Value::String("archived".into()))
    );
    // id 5 was in-ball but failed the residue, no 'status' added.
    assert_eq!(
        engine
            .shard()
            .get_metadata(VectorId::new(5))
            .unwrap()
            .get("status"),
        None
    );
}

/// OR containing a distance-threshold atom is rejected at the
/// planner exactly like DELETE.
#[test]
fn update_by_or_distance_is_rejected() {
    let dir = tempdir().expect("tempdir");
    let mut engine = make_engine(&dir);
    seed_engine(&mut engine, &[meta_of(&[])]);
    let q = Vector::try_new(vec![1.0, 0.0, 0.0, 0.0]).unwrap();
    let err = engine
        .execute_str(
            "UPDATE vectors SET tag = 'x' \
             WHERE embedding <-> $1 < 0.5 OR tag = 'docs'",
            ParamBindings::empty().with_positional(ParamValue::Vector(q)),
        )
        .expect_err("expected Plan error");
    assert!(matches!(err, KovaQueryError::Plan(_)));
}

/// Subscripted assignment on a field that doesn't exist yet :
/// `apply_assignments` creates an empty Map at that field and
/// then writes the keyed value into it.
#[test]
fn update_subscript_creates_map_when_field_missing() {
    let dir = tempdir().expect("tempdir");
    let mut engine = make_engine(&dir);
    seed_engine(&mut engine, &[meta_of(&[])]);
    engine
        .execute_str(
            "UPDATE vectors SET attrs['author'] = 'alice' WHERE id = 1",
            ParamBindings::empty(),
        )
        .expect("execute_str");
    let bag = engine.shard().get_metadata(VectorId::new(1)).unwrap();
    let Some(Value::Object(inner)) = bag.get("attrs") else {
        panic!("expected attrs to be a Map, got {:?}", bag.get("attrs"));
    };
    assert_eq!(inner.get("author"), Some(&Value::String("alice".into())));
}

/// Subscripted assignment on a field that's already a Map merges
/// the new key in without dropping existing keys.
#[test]
fn update_subscript_merges_into_existing_map() {
    let dir = tempdir().expect("tempdir");
    let mut engine = make_engine(&dir);
    let mut inner = Metadata::new();
    inner.insert("author".into(), Value::String("alice".into()));
    let mut bag = Metadata::new();
    bag.insert("attrs".into(), Value::Object(inner));
    seed_engine(&mut engine, &[bag]);

    engine
        .execute_str(
            "UPDATE vectors SET attrs['priority'] = 1 WHERE id = 1",
            ParamBindings::empty(),
        )
        .expect("execute_str");
    let bag = engine.shard().get_metadata(VectorId::new(1)).unwrap();
    let Some(Value::Object(map)) = bag.get("attrs") else {
        panic!("expected attrs to be a Map");
    };
    assert_eq!(map.get("author"), Some(&Value::String("alice".into())));
    assert_eq!(map.get("priority"), Some(&Value::I64(1)));
}

/// Subscripted assignment against a non-Map field errors loudly
/// rather than silently overwriting the existing value.
#[test]
fn update_subscript_on_non_map_field_errors() {
    let dir = tempdir().expect("tempdir");
    let mut engine = make_engine(&dir);
    seed_engine(
        &mut engine,
        &[meta_of(&[("attrs", Value::String("flat".into()))])],
    );
    let err = engine
        .execute_str(
            "UPDATE vectors SET attrs['key'] = 'x' WHERE id = 1",
            ParamBindings::empty(),
        )
        .expect_err("expected Execution error");
    assert!(matches!(err, KovaQueryError::Execution(_)));
    // Original value untouched.
    let bag = engine.shard().get_metadata(VectorId::new(1)).unwrap();
    assert_eq!(bag.get("attrs"), Some(&Value::String("flat".into())));
}

/// `SET attrs = $1` where `$1` is a `ParamValue::Metadata`
/// resolves to a nested bag and replaces the field.
#[test]
fn update_with_metadata_param_assigns_map() {
    let dir = tempdir().expect("tempdir");
    let mut engine = make_engine(&dir);
    seed_engine(&mut engine, &[meta_of(&[])]);
    let mut new_attrs = Metadata::new();
    new_attrs.insert("country".into(), Value::String("IN".into()));
    new_attrs.insert("verified".into(), Value::Bool(true));
    let params =
        ParamBindings::empty().with_positional(ParamValue::Metadata(new_attrs.clone()));
    engine
        .execute_str("UPDATE vectors SET attrs = $1 WHERE id = 1", params)
        .expect("execute_str");
    let bag = engine.shard().get_metadata(VectorId::new(1)).unwrap();
    let Some(Value::Object(map)) = bag.get("attrs") else {
        panic!("expected attrs to be a Map");
    };
    assert_eq!(map, &new_attrs);
}

/// A subscripted update is there when the shard is opened again.
#[test]
fn update_subscript_persists_across_reopen() {
    let dir = tempdir().expect("tempdir");
    {
        let mut engine = make_engine(&dir);
        seed_engine(&mut engine, &[meta_of(&[])]);
        engine
            .execute_str(
                "UPDATE vectors SET attrs['author'] = 'alice' WHERE id = 1",
                ParamBindings::empty(),
            )
            .expect("execute_str");
    }
    let shard = Shard::open(dir.path(), 4, L2, HnswParams::default()).expect("Shard::open");
    let bag = shard.get_metadata(VectorId::new(1)).unwrap();
    let Some(Value::Object(map)) = bag.get("attrs") else {
        panic!("expected attrs to be a Map after reopening");
    };
    assert_eq!(map.get("author"), Some(&Value::String("alice".into())));
}

// ----- subscripted-predicate end-to-end -----

/// SELECT with a subscripted predicate finds rows whose nested
/// Map value matches. Plan A's metadata post-filter runs the
/// evaluator's subscript navigation.
#[test]
fn select_with_subscripted_predicate_finds_matching_rows() {
    let dir = tempdir().expect("tempdir");
    let mut engine = make_engine(&dir);
    let mut attrs_in = Metadata::new();
    attrs_in.insert("country".into(), Value::String("IN".into()));
    let mut attrs_us = Metadata::new();
    attrs_us.insert("country".into(), Value::String("US".into()));
    seed_engine(
        &mut engine,
        &[
            meta_of(&[("attrs", Value::Object(attrs_in))]),
            meta_of(&[("attrs", Value::Object(attrs_us))]),
        ],
    );

    let q = Vector::try_new(vec![1.0, 0.0, 0.0, 0.0]).unwrap();
    let result = engine
        .execute_str(
            "SELECT id FROM vectors WHERE attrs['country'] = 'IN' \
             ORDER BY embedding <-> $1 LIMIT 5",
            ParamBindings::empty().with_positional(ParamValue::Vector(q)),
        )
        .expect("execute_str");
    let ExecutionResult::Rows { rows, .. } = result else {
        panic!("expected Rows");
    };
    let ids: Vec<u64> = rows
        .iter()
        .map(|r| match r.values[0] {
            RowValue::Id(id) => id.get(),
            _ => panic!("expected Id"),
        })
        .collect();
    assert!(ids.contains(&1), "id 1 (attrs.country=IN) should match");
    assert!(
        !ids.contains(&2),
        "id 2 (attrs.country=US) should not match"
    );
}

/// Subscripted predicate on a missing nested key returns no
/// matches, no error. Same semantics as a top-level missing field.
#[test]
fn select_with_subscripted_predicate_no_match_returns_empty() {
    let dir = tempdir().expect("tempdir");
    let mut engine = make_engine(&dir);
    let mut attrs = Metadata::new();
    attrs.insert("country".into(), Value::String("IN".into()));
    seed_engine(&mut engine, &[meta_of(&[("attrs", Value::Object(attrs))])]);

    let q = Vector::try_new(vec![1.0, 0.0, 0.0, 0.0]).unwrap();
    let result = engine
        .execute_str(
            "SELECT id FROM vectors WHERE attrs['missing'] = 'x' \
             ORDER BY embedding <-> $1 LIMIT 5",
            ParamBindings::empty().with_positional(ParamValue::Vector(q)),
        )
        .expect("execute_str");
    let ExecutionResult::Rows { rows, .. } = result else {
        panic!("expected Rows");
    };
    assert!(rows.is_empty());
}

/// Subscripted predicate against a non-Map field is treated as
/// "no match" (same as bare predicates against a missing field).
/// We don't want a runtime error here ; the row just doesn't
/// satisfy.
#[test]
fn select_with_subscripted_predicate_on_non_map_is_no_match() {
    let dir = tempdir().expect("tempdir");
    let mut engine = make_engine(&dir);
    seed_engine(
        &mut engine,
        &[meta_of(&[("attrs", Value::String("flat".into()))])],
    );
    let q = Vector::try_new(vec![1.0, 0.0, 0.0, 0.0]).unwrap();
    let result = engine
        .execute_str(
            "SELECT id FROM vectors WHERE attrs['country'] = 'IN' \
             ORDER BY embedding <-> $1 LIMIT 5",
            ParamBindings::empty().with_positional(ParamValue::Vector(q)),
        )
        .expect("execute_str");
    let ExecutionResult::Rows { rows, .. } = result else {
        panic!("expected Rows");
    };
    assert!(rows.is_empty());
}

// ----- SELECT plan A : helpers -----

/// Build a unit vector that points in the `i`th direction at
/// distance 1, padded with zeros. `i` is 1-based (matching ids),
/// so `axis_vec(1)` is `[1, 0, 0, 0]`, `axis_vec(2)` is
/// `[0, 1, 0, 0]`, etc.
fn axis_vec(i: u16) -> Vector {
    let mut v = vec![0.0_f32; 4];
    let idx = ((i as usize) - 1) % 4;
    v[idx] = 1.0;
    Vector::try_new(v).expect("non-empty")
}

fn meta_of(pairs: &[(&str, Value)]) -> Metadata {
    let mut m = Metadata::new();
    for (k, v) in pairs {
        m.insert((*k).to_string(), v.clone());
    }
    m
}

/// Seed `engine` with rows 1..=N where each row has a distinct
/// axis-aligned vector and a metadata bag.
fn seed_engine(engine: &mut Engine, metas: &[Metadata]) {
    for (i, meta) in metas.iter().enumerate() {
        let i = i as u16 + 1;
        engine
            .shard_mut()
            .insert(VectorId::new(u64::from(i)), axis_vec(i), meta.clone())
            .expect("seed insert");
    }
}

// ----- SELECT plan A : kNN happy paths -----

#[test]
fn executes_select_id_with_knn_ordering() {
    let dir = tempdir().expect("tempdir");
    let mut engine = make_engine(&dir);
    seed_engine(
        &mut engine,
        &[Metadata::new(), Metadata::new(), Metadata::new()],
    );
    // Query points at axis 0 ; id=1 has its 1.0 on axis 0, so it
    // should be the nearest.
    let q = Vector::try_new(vec![1.0, 0.0, 0.0, 0.0]).unwrap();
    let result = engine
        .execute_str(
            "SELECT id FROM vectors ORDER BY embedding <-> $1 LIMIT 2",
            ParamBindings::empty().with_positional(ParamValue::Vector(q)),
        )
        .expect("execute_str");
    let ExecutionResult::Rows { columns, rows } = result else {
        panic!("expected Rows, got {result:?}");
    };
    assert_eq!(columns, vec!["id".to_string()]);
    assert_eq!(rows.len(), 2);
    // First row is the closest match.
    let RowValue::Id(first) = rows[0].values[0] else {
        panic!("expected Id");
    };
    assert_eq!(first.get(), 1);
}

#[test]
fn executes_select_with_distance_alias() {
    let dir = tempdir().expect("tempdir");
    let mut engine = make_engine(&dir);
    seed_engine(&mut engine, &[Metadata::new(), Metadata::new()]);
    let q = Vector::try_new(vec![1.0, 0.0, 0.0, 0.0]).unwrap();
    let result = engine
        .execute_str(
            "SELECT id, embedding <-> $1 AS dist FROM vectors ORDER BY embedding <-> $1 LIMIT 2",
            ParamBindings::empty().with_positional(ParamValue::Vector(q)),
        )
        .expect("execute_str");
    let ExecutionResult::Rows { columns, rows } = result else {
        panic!("expected Rows");
    };
    assert_eq!(columns, vec!["id".to_string(), "dist".to_string()]);
    // Distance for the nearest neighbour : 0.0 (exact match).
    let RowValue::Distance(d) = rows[0].values[1] else {
        panic!("expected Distance");
    };
    let d = f32::from_bits(d);
    assert!(
        d.abs() < f32::EPSILON,
        "nearest distance should be ~0, got {d}"
    );
}

#[test]
fn executes_select_star_expands_to_id_and_metadata() {
    let dir = tempdir().expect("tempdir");
    let mut engine = make_engine(&dir);
    let m = meta_of(&[("category", Value::String("docs".into()))]);
    seed_engine(&mut engine, std::slice::from_ref(&m));
    let q = Vector::try_new(vec![1.0, 0.0, 0.0, 0.0]).unwrap();
    let result = engine
        .execute_str(
            "SELECT * FROM vectors ORDER BY embedding <-> $1 LIMIT 1",
            ParamBindings::empty().with_positional(ParamValue::Vector(q)),
        )
        .expect("execute_str");
    let ExecutionResult::Rows { columns, rows } = result else {
        panic!("expected Rows");
    };
    assert_eq!(columns, vec!["id".to_string(), "metadata".to_string()]);
    let row = &rows[0];
    assert!(matches!(row.values[0], RowValue::Id(_)));
    let RowValue::Metadata(actual) = &row.values[1] else {
        panic!("expected Metadata");
    };
    assert_eq!(actual.get("category"), Some(&Value::String("docs".into())));
}

#[test]
fn executes_select_metadata_field_projects_field_value() {
    let dir = tempdir().expect("tempdir");
    let mut engine = make_engine(&dir);
    let m = meta_of(&[("category", Value::String("docs".into()))]);
    seed_engine(&mut engine, &[m]);
    let q = Vector::try_new(vec![1.0, 0.0, 0.0, 0.0]).unwrap();
    let result = engine
        .execute_str(
            "SELECT id, category FROM vectors ORDER BY embedding <-> $1 LIMIT 1",
            ParamBindings::empty().with_positional(ParamValue::Vector(q)),
        )
        .expect("execute_str");
    let ExecutionResult::Rows { rows, .. } = result else {
        panic!("expected Rows");
    };
    let RowValue::Field(Value::String(s)) = &rows[0].values[1] else {
        panic!("expected Field(String), got {:?}", rows[0].values[1]);
    };
    assert_eq!(s, "docs");
}

#[test]
fn missing_metadata_field_projects_as_null() {
    let dir = tempdir().expect("tempdir");
    let mut engine = make_engine(&dir);
    seed_engine(&mut engine, &[Metadata::new()]);
    let q = Vector::try_new(vec![1.0, 0.0, 0.0, 0.0]).unwrap();
    let result = engine
        .execute_str(
            "SELECT id, ghost_field FROM vectors ORDER BY embedding <-> $1 LIMIT 1",
            ParamBindings::empty().with_positional(ParamValue::Vector(q)),
        )
        .expect("execute_str");
    let ExecutionResult::Rows { rows, .. } = result else {
        panic!("expected Rows");
    };
    assert!(matches!(rows[0].values[1], RowValue::Null));
}

// ----- SELECT plan A : post-filter (WHERE) -----

#[test]
fn post_filter_drops_rows_that_fail_predicate() {
    let dir = tempdir().expect("tempdir");
    let mut engine = make_engine(&dir);
    seed_engine(
        &mut engine,
        &[
            meta_of(&[("category", Value::String("docs".into()))]),
            meta_of(&[("category", Value::String("specs".into()))]),
            meta_of(&[("category", Value::String("docs".into()))]),
        ],
    );
    let q = Vector::try_new(vec![1.0, 0.0, 0.0, 0.0]).unwrap();
    let result = engine
        .execute_str(
            "SELECT id FROM vectors WHERE category = 'docs' \
             ORDER BY embedding <-> $1 LIMIT 10",
            ParamBindings::empty().with_positional(ParamValue::Vector(q)),
        )
        .expect("execute_str");
    let ExecutionResult::Rows { rows, .. } = result else {
        panic!("expected Rows");
    };
    assert_eq!(rows.len(), 2, "two 'docs' rows pass the post-filter");
    let ids: Vec<u64> = rows
        .iter()
        .map(|r| match r.values[0] {
            RowValue::Id(id) => id.get(),
            _ => unreachable!(),
        })
        .collect();
    assert!(ids.contains(&1));
    assert!(ids.contains(&3));
}

#[test]
fn post_filter_supports_and_or_combinators() {
    let dir = tempdir().expect("tempdir");
    let mut engine = make_engine(&dir);
    seed_engine(
        &mut engine,
        &[
            meta_of(&[
                ("category", Value::String("docs".into())),
                ("year", Value::I64(2024)),
            ]),
            meta_of(&[
                ("category", Value::String("docs".into())),
                ("year", Value::I64(2020)),
            ]),
            meta_of(&[
                ("category", Value::String("specs".into())),
                ("year", Value::I64(2024)),
            ]),
        ],
    );
    let q = Vector::try_new(vec![1.0, 0.0, 0.0, 0.0]).unwrap();
    let result = engine
        .execute_str(
            "SELECT id FROM vectors \
             WHERE category = 'docs' AND year >= 2024 \
             ORDER BY embedding <-> $1 LIMIT 10",
            ParamBindings::empty().with_positional(ParamValue::Vector(q)),
        )
        .expect("execute_str");
    let ExecutionResult::Rows { rows, .. } = result else {
        panic!("expected Rows");
    };
    assert_eq!(rows.len(), 1, "only id=1 matches docs AND year>=2024");
}

#[test]
fn post_filter_resolves_param_in_where() {
    let dir = tempdir().expect("tempdir");
    let mut engine = make_engine(&dir);
    seed_engine(
        &mut engine,
        &[
            meta_of(&[("category", Value::String("docs".into()))]),
            meta_of(&[("category", Value::String("specs".into()))]),
        ],
    );
    let q = Vector::try_new(vec![1.0, 0.0, 0.0, 0.0]).unwrap();
    let result = engine
        .execute_str(
            "SELECT id FROM vectors WHERE category = $cat \
             ORDER BY embedding <-> $q LIMIT 10",
            ParamBindings::empty()
                .with_named("q", ParamValue::Vector(q))
                .with_named("cat", ParamValue::String("specs".into())),
        )
        .expect("execute_str");
    let ExecutionResult::Rows { rows, .. } = result else {
        panic!("expected Rows");
    };
    assert_eq!(rows.len(), 1);
    let RowValue::Id(id) = rows[0].values[0] else {
        panic!("expected Id");
    };
    assert_eq!(id.get(), 2);
}

#[test]
fn post_filter_with_in_list() {
    let dir = tempdir().expect("tempdir");
    let mut engine = make_engine(&dir);
    seed_engine(
        &mut engine,
        &[
            meta_of(&[("category", Value::String("a".into()))]),
            meta_of(&[("category", Value::String("b".into()))]),
            meta_of(&[("category", Value::String("c".into()))]),
        ],
    );
    let q = Vector::try_new(vec![1.0, 0.0, 0.0, 0.0]).unwrap();
    let result = engine
        .execute_str(
            "SELECT id FROM vectors WHERE category IN ('a', 'c') \
             ORDER BY embedding <-> $1 LIMIT 10",
            ParamBindings::empty().with_positional(ParamValue::Vector(q)),
        )
        .expect("execute_str");
    let ExecutionResult::Rows { rows, .. } = result else {
        panic!("expected Rows");
    };
    assert_eq!(rows.len(), 2);
}

// ----- SELECT plan A : rejection paths -----

/// `SELECT WHERE pred LIMIT k` (no ORDER BY) goes through the
/// scan-and-limit bypass : MetadataScan(pred) wrapped in a Limit.
/// Order isn't promised but the predicate must be honoured.
#[test]
fn scan_and_limit_returns_predicate_matches() {
    let dir = tempdir().expect("tempdir");
    let mut engine = make_engine(&dir);
    // 3 'docs' + 7 'other'.
    let mut metas: Vec<Metadata> = (0..3)
        .map(|_| meta_of(&[("category", Value::String("docs".into()))]))
        .collect();
    for _ in 0..7 {
        metas.push(meta_of(&[("category", Value::String("other".into()))]));
    }
    seed_engine(&mut engine, &metas);

    let result = engine
        .execute_str(
            "SELECT id FROM vectors WHERE category = 'docs' LIMIT 10",
            ParamBindings::empty(),
        )
        .expect("execute_str");
    let ExecutionResult::Rows { rows, .. } = result else {
        panic!("expected Rows");
    };
    // First 3 seeded rows are the 'docs' ones (ids 1, 2, 3).
    assert!(!rows.is_empty(), "should return at least one match");
    for r in &rows {
        let RowValue::Id(id) = r.values[0] else {
            panic!("expected Id");
        };
        assert!(
            id.get() <= 3,
            "row {} doesn't carry the 'docs' tag",
            id.get()
        );
    }
}

/// `LIMIT` truncates the scan output to at most the requested
/// count, regardless of how many rows match the predicate.
#[test]
fn scan_and_limit_caps_result_size() {
    let dir = tempdir().expect("tempdir");
    let mut engine = make_engine(&dir);
    // 8 'docs' ; LIMIT 3 should cap.
    let metas: Vec<Metadata> = (0..8)
        .map(|_| meta_of(&[("category", Value::String("docs".into()))]))
        .collect();
    seed_engine(&mut engine, &metas);

    let result = engine
        .execute_str(
            "SELECT id FROM vectors WHERE category = 'docs' LIMIT 3",
            ParamBindings::empty(),
        )
        .expect("execute_str");
    let ExecutionResult::Rows { rows, .. } = result else {
        panic!("expected Rows");
    };
    assert_eq!(rows.len(), 3, "LIMIT 3 should cap result size");
}

/// `LIMIT` without WHERE is rejected : an unbounded slice-scan of
/// arbitrary rows is a foot-gun the planner refuses to serve.
#[test]
fn rejects_limit_without_where() {
    let dir = tempdir().expect("tempdir");
    let mut engine = make_engine(&dir);
    seed_engine(&mut engine, &[Metadata::new(), Metadata::new()]);
    let err = engine
        .execute_str("SELECT id FROM vectors LIMIT 5", ParamBindings::empty())
        .expect_err("expected Plan error");
    let KovaQueryError::Plan(msg) = err else {
        panic!("expected Plan, got {err:?}");
    };
    assert!(
        msg.contains("WHERE"),
        "message should mention WHERE requirement : {msg}"
    );
}

/// `SELECT` with no ORDER BY and no LIMIT and no WHERE still
/// errors : the kNN-shape path catches this case, since there's
/// nothing for the scan-and-limit bypass to grab.
#[test]
fn rejects_select_without_ordering_or_limit() {
    let dir = tempdir().expect("tempdir");
    let mut engine = make_engine(&dir);
    let err = engine
        .execute_str(
            "SELECT id FROM vectors WHERE category = 'docs'",
            ParamBindings::empty(),
        )
        .expect_err("expected Plan error");
    let KovaQueryError::Plan(msg) = err else {
        panic!("expected Plan, got {err:?}");
    };
    assert!(
        msg.contains("kNN"),
        "message should call out the kNN-only constraint : {msg}"
    );
}

#[test]
fn rejects_select_on_wrong_table() {
    let dir = tempdir().expect("tempdir");
    let mut engine = make_engine(&dir);
    let q = Vector::try_new(vec![1.0, 0.0, 0.0, 0.0]).unwrap();
    let err = engine
        .execute_str(
            "SELECT id FROM products ORDER BY embedding <-> $1 LIMIT 10",
            ParamBindings::empty().with_positional(ParamValue::Vector(q)),
        )
        .expect_err("expected error");
    assert!(matches!(err, KovaQueryError::Execution(_)));
}

// ----- SELECT plan B : scan + exact distance -----

/// Planner-shape check : a SELECT without a predicate stays on
/// plan A (`KnnSearch` with overfetch). The estimator is never
/// consulted in the no-predicate branch, so this test only needs
/// any estimator that compiles.
#[test]
fn planner_picks_plan_a_when_no_predicate() {
    let dir = tempdir().expect("tempdir");
    let engine = make_engine(&dir);
    let est = ShardEstimator {
        shard: engine.shard(),
    };
    let ast =
        parse_str("SELECT id FROM vectors ORDER BY embedding <-> $1 LIMIT 10").expect("parse");
    let logical = bind(ast).expect("bind");
    let physical = plan_with_estimator(logical, &est, &ParamBindings::empty()).expect("plan");
    let PhysicalPlan::Projection { input, .. } = physical else {
        panic!("expected Projection root");
    };
    let PhysicalPlan::Limit { input, .. } = *input else {
        panic!("expected Limit");
    };
    assert!(
        matches!(*input, PhysicalPlan::KnnSearch { .. }),
        "expected KnnSearch, got {input:?}"
    );
}

/// Plan B returns rows sorted ascending by exact distance.
/// The scan finds matching rows, `ExactDistance` ranks them.
#[test]
fn plan_b_orders_results_by_exact_distance() {
    let dir = tempdir().expect("tempdir");
    let mut engine = make_engine(&dir);
    // Three 'docs' rows + one 'specs' (which the predicate excludes).
    // Vector positions chosen so distance ordering is deterministic.
    seed_engine(
        &mut engine,
        &[
            meta_of(&[("category", Value::String("docs".into()))]), // id 1, vec [1,0,0,0]
            meta_of(&[("category", Value::String("docs".into()))]), // id 2, vec [0,1,0,0]
            meta_of(&[("category", Value::String("docs".into()))]), // id 3, vec [0,0,1,0]
            meta_of(&[("category", Value::String("specs".into()))]), // id 4, vec [0,0,0,1]
        ],
    );
    // Query at [0.9, 0.1, 0, 0] : closest 'docs' rows in order are 1, 2, 3.
    let q = Vector::try_new(vec![0.9, 0.1, 0.0, 0.0]).unwrap();
    let result = engine
        .execute_str(
            "SELECT id FROM vectors WHERE category = 'docs' \
             ORDER BY embedding <-> $1 LIMIT 3",
            ParamBindings::empty().with_positional(ParamValue::Vector(q)),
        )
        .expect("execute_str");
    let ExecutionResult::Rows { rows, .. } = result else {
        panic!("expected Rows");
    };
    assert_eq!(rows.len(), 3);
    // The 'specs' row (id 4) is excluded.
    let ids: Vec<u64> = rows
        .iter()
        .map(|r| match r.values[0] {
            RowValue::Id(id) => id.get(),
            _ => unreachable!(),
        })
        .collect();
    assert!(!ids.contains(&4), "specs row leaked through plan B");
    assert_eq!(ids[0], 1, "nearest 'docs' should be id 1");
}

/// Plan B respects LIMIT : if the scan finds more matches than k,
/// only the k nearest are returned.
#[test]
fn plan_b_caps_result_at_limit() {
    let dir = tempdir().expect("tempdir");
    let mut engine = make_engine(&dir);
    // All 4 rows match the predicate.
    seed_engine(
        &mut engine,
        &[
            meta_of(&[("tag", Value::String("a".into()))]),
            meta_of(&[("tag", Value::String("a".into()))]),
            meta_of(&[("tag", Value::String("a".into()))]),
            meta_of(&[("tag", Value::String("a".into()))]),
        ],
    );
    let q = Vector::try_new(vec![1.0, 0.0, 0.0, 0.0]).unwrap();
    let result = engine
        .execute_str(
            "SELECT id FROM vectors WHERE tag = 'a' \
             ORDER BY embedding <-> $1 LIMIT 2",
            ParamBindings::empty().with_positional(ParamValue::Vector(q)),
        )
        .expect("execute_str");
    let ExecutionResult::Rows { rows, .. } = result else {
        panic!("expected Rows");
    };
    assert_eq!(rows.len(), 2, "LIMIT 2 should cap to 2 rows");
}

/// Plan B returns zero rows when no metadata row matches the
/// predicate, without errors. Plan A would have returned k
/// candidates that all failed post-filter ; plan B never even
/// runs the kNN.
#[test]
fn plan_b_handles_empty_match_set() {
    let dir = tempdir().expect("tempdir");
    let mut engine = make_engine(&dir);
    seed_engine(
        &mut engine,
        &[meta_of(&[("category", Value::String("specs".into()))])],
    );
    let q = Vector::try_new(vec![1.0, 0.0, 0.0, 0.0]).unwrap();
    let result = engine
        .execute_str(
            "SELECT id FROM vectors WHERE category = 'docs' \
             ORDER BY embedding <-> $1 LIMIT 10",
            ParamBindings::empty().with_positional(ParamValue::Vector(q)),
        )
        .expect("execute_str");
    let ExecutionResult::Rows { rows, .. } = result else {
        panic!("expected Rows");
    };
    assert!(
        rows.is_empty(),
        "no 'docs' rows present, result should be empty"
    );
}

// ----- selectivity-driven dispatch -----

/// Low selectivity (few rows pass) flips the planner to plan B :
/// the predicate matches 1 of 10 rows, so scan + exact-distance
/// is cheaper than overfetched kNN.
#[test]
fn low_selectivity_picks_plan_b() {
    let dir = tempdir().expect("tempdir");
    let mut engine = make_engine(&dir);
    // 1 'docs' + 29 'other' : one row in thirty matches.
    let mut metas: Vec<Metadata> = vec![meta_of(&[("category", Value::String("docs".into()))])];
    for _ in 0..29 {
        metas.push(meta_of(&[("category", Value::String("other".into()))]));
    }
    seed_engine(&mut engine, &metas);

    let ast = parse_str(
        "SELECT id FROM vectors WHERE category = 'docs' \
         ORDER BY embedding <-> $1 LIMIT 5",
    )
    .expect("parse");
    let logical = bind(ast).expect("bind");
    let est = ShardEstimator {
        shard: engine.shard(),
    };
    let physical = plan_with_estimator(logical, &est, &ParamBindings::empty())
        .expect("plan");

    let PhysicalPlan::Projection { input, .. } = physical else {
        panic!("expected Projection");
    };
    let PhysicalPlan::Limit { input, .. } = *input else {
        panic!("expected Limit");
    };
    assert!(
        matches!(*input, PhysicalPlan::ExactDistance { .. }),
        "low selectivity should pick plan B (ExactDistance), got {input:?}"
    );
}

/// Decision-grid sweep : drive the planner with a deterministic
/// estimator across the full selectivity range and assert each
/// fraction maps to the expected inner operator, at n=10000, k=5,
/// dim=16. Where too few of plan A's candidates would survive,
/// plan B answers.
#[test]
fn planner_decision_grid_across_selectivity() {

    struct Const {
        sel: f64,
        total: usize,
        dim: usize,
    }
    impl SelectivityEstimator for Const {
        fn estimate(
            &self,
            _pred: &PredicateExpr,
            _params: &ParamBindings,
        ) -> SelectivityEstimate {
            let matches = (self.sel * self.total as f64) as usize;
            SelectivityEstimate {
                matches,
                total: self.total,
            }
        }
        fn dim(&self) -> usize {
            self.dim
        }
        fn plan_costs(&self, workload: Workload) -> PlanCosts {
            plan_costs(workload)
        }
    }

    #[derive(Debug)]
    enum Expect {
        PlanA,
        PlanB,
        #[allow(dead_code)] // grid below currently only exercises A and B at dim=16
        PlanC,
    }

    // n=10000, dim=16 : plan A and B handle the dispatch.
    let cases_typical: &[(f64, Expect)] = &[
        (0.001, Expect::PlanB),
        (0.04, Expect::PlanB),
        (0.10, Expect::PlanB),
        (0.13, Expect::PlanB),
        (0.20, Expect::PlanA),
        (0.50, Expect::PlanA),
        (0.80, Expect::PlanA),
        (1.00, Expect::PlanA),
    ];

    for (sel, expected) in cases_typical {
        let ast = parse_str(
            "SELECT id FROM vectors WHERE category = 'docs' \
             ORDER BY embedding <-> $1 LIMIT 5",
        )
        .expect("parse");
        let logical = bind(ast).expect("bind");
        let estimator = Const {
            sel: *sel,
            total: 10_000,
            dim: 16,
        };
        let plan =
            plan_with_estimator(logical, &estimator, &ParamBindings::empty())
                .expect("plan");
        let PhysicalPlan::Projection { input, .. } = plan else {
            panic!("expected Projection at sel={sel}");
        };
        let PhysicalPlan::Limit { input, .. } = *input else {
            panic!("expected Limit at sel={sel}");
        };
        let matches = matches!(
            (expected, input.as_ref()),
            (Expect::PlanA, PhysicalPlan::KnnSearch { .. })
                | (Expect::PlanB, PhysicalPlan::ExactDistance { .. })
                | (Expect::PlanC, PhysicalPlan::FilteredKnnSearch { .. })
        );
        assert!(
            matches,
            "typical n=10k dim=16 : selectivity {sel} expected {expected:?}, got operator {input:?}"
        );
    }
}

/// At very high dim (e.g. 1536) on a large shard plan B's scan
/// dominates, and plan A would starve: plan C.
#[test]
fn planner_picks_plan_c_at_high_dim_low_selectivity() {

    struct HighDim {
        sel: f64,
    }
    impl SelectivityEstimator for HighDim {
        fn estimate(
            &self,
            _pred: &PredicateExpr,
            _params: &ParamBindings,
        ) -> SelectivityEstimate {
            let matches = (self.sel * 1_000_000.0) as usize;
            SelectivityEstimate {
                matches,
                total: 1_000_000,
            }
        }
        fn dim(&self) -> usize {
            1536
        }
        fn plan_costs(&self, workload: Workload) -> PlanCosts {
            plan_costs(workload)
        }
    }

    let ast = parse_str(
        "SELECT id FROM vectors WHERE category = 'docs' \
         ORDER BY embedding <-> $1 LIMIT 10",
    )
    .expect("parse");
    let logical = bind(ast).expect("bind");
    let plan = plan_with_estimator(
        logical,
        &HighDim { sel: 0.02 },
        &ParamBindings::empty(),
    )
    .expect("plan");
    let PhysicalPlan::Projection { input, .. } = plan else {
        panic!("expected Projection");
    };
    let PhysicalPlan::Limit { input, .. } = *input else {
        panic!("expected Limit");
    };
    assert!(
        matches!(input.as_ref(), PhysicalPlan::FilteredKnnSearch { .. }),
        "high-dim low-sel should pick FilteredKnnSearch, got {input:?}"
    );
}

/// The returned ids actually pass the predicate.
#[test]
fn plan_c_end_to_end_returns_only_passing_ids() {
    let dir = tempdir().expect("tempdir");
    let mut engine = make_engine(&dir);
    // 3 'docs' + 7 'other' : three rows in ten match.
    let mut metas: Vec<Metadata> = (0..3)
        .map(|_| meta_of(&[("category", Value::String("docs".into()))]))
        .collect();
    for _ in 0..7 {
        metas.push(meta_of(&[("category", Value::String("other".into()))]));
    }
    seed_engine(&mut engine, &metas);

    let q = Vector::try_new(vec![1.0, 0.0, 0.0, 0.0]).unwrap();
    let result = engine
        .execute_str(
            "SELECT id FROM vectors WHERE category = 'docs' \
             ORDER BY embedding <-> $1 LIMIT 3",
            ParamBindings::empty().with_positional(ParamValue::Vector(q)),
        )
        .expect("execute");
    let ExecutionResult::Rows { rows, .. } = result else {
        panic!("expected Rows");
    };
    let ids: Vec<u64> = rows
        .iter()
        .map(|r| match r.values[0] {
            RowValue::Id(id) => id.get(),
            _ => panic!("expected Id"),
        })
        .collect();
    // First three seeded rows are the 'docs' ones (ids 1, 2, 3).
    for id in &ids {
        assert!(
            *id <= 3,
            "plan C returned id {id} which doesn't carry 'docs' tag"
        );
    }
}

/// Both plans return the same answer on the same data : at
/// selectivity ~50% both strategies are correct, so the result
/// set must match regardless of which the planner picked.
#[test]
fn plan_a_and_plan_b_return_same_ids() {
    let dir_a = tempdir().expect("tempdir A");
    let dir_b = tempdir().expect("tempdir B");
    let mut engine_a = make_engine(&dir_a);
    let mut engine_b = make_engine(&dir_b);

    // Seed both engines identically. 5 'docs' + 5 'other'.
    let metas: Vec<Metadata> = (0..10)
        .map(|i| {
            let tag = if i < 5 { "docs" } else { "other" };
            meta_of(&[("category", Value::String(tag.into()))])
        })
        .collect();
    seed_engine(&mut engine_a, &metas);
    seed_engine(&mut engine_b, &metas);

    let q = Vector::try_new(vec![1.0, 0.0, 0.0, 0.0]).unwrap();

    // Both should yield the same set of ids.
    let res_a = engine_a
        .execute_str(
            "SELECT id FROM vectors WHERE category = 'docs' \
             ORDER BY embedding <-> $1 LIMIT 5",
            ParamBindings::empty().with_positional(ParamValue::Vector(q.clone())),
        )
        .expect("A execute");
    let res_b = engine_b
        .execute_str(
            "SELECT id FROM vectors WHERE category = 'docs' \
             ORDER BY embedding <-> $1 LIMIT 5",
            ParamBindings::empty().with_positional(ParamValue::Vector(q)),
        )
        .expect("B execute");

    let extract_ids = |r: ExecutionResult| -> Vec<u64> {
        let ExecutionResult::Rows { rows, .. } = r else {
            panic!("expected Rows");
        };
        let mut ids: Vec<u64> = rows
            .iter()
            .map(|r| match r.values[0] {
                RowValue::Id(id) => id.get(),
                _ => unreachable!(),
            })
            .collect();
        ids.sort_unstable();
        ids
    };
    let ids_a = extract_ids(res_a);
    let ids_b = extract_ids(res_b);
    assert_eq!(ids_a, ids_b, "plan A and plan B disagree on the result set");
}

// ----- COUNT(*) -----

#[test]
fn count_star_on_empty_shard_returns_zero() {
    let dir = tempdir().expect("tempdir");
    let mut engine = make_engine(&dir);
    let result = engine
        .execute_str("SELECT COUNT(*) FROM vectors", ParamBindings::empty())
        .expect("execute_str");
    let ExecutionResult::Rows { columns, rows } = result else {
        panic!("expected Rows");
    };
    assert_eq!(columns, vec!["count".to_string()]);
    assert_eq!(rows.len(), 1);
    let RowValue::Field(Value::I64(n)) = &rows[0].values[0] else {
        panic!("expected I64 Field, got {:?}", rows[0].values[0]);
    };
    assert_eq!(*n, 0);
}

#[test]
fn count_star_returns_total_live_rows() {
    let dir = tempdir().expect("tempdir");
    let mut engine = make_engine(&dir);
    seed_engine(
        &mut engine,
        &[Metadata::new(), Metadata::new(), Metadata::new()],
    );
    let result = engine
        .execute_str("SELECT COUNT(*) FROM vectors", ParamBindings::empty())
        .expect("execute_str");
    let ExecutionResult::Rows { rows, .. } = result else {
        panic!("expected Rows");
    };
    let RowValue::Field(Value::I64(n)) = rows[0].values[0] else {
        panic!("expected I64");
    };
    assert_eq!(n, 3);
}

#[test]
fn count_star_with_predicate_counts_only_matching() {
    let dir = tempdir().expect("tempdir");
    let mut engine = make_engine(&dir);
    seed_engine(
        &mut engine,
        &[
            meta_of(&[("category", Value::String("docs".into()))]),
            meta_of(&[("category", Value::String("specs".into()))]),
            meta_of(&[("category", Value::String("docs".into()))]),
            meta_of(&[("category", Value::String("docs".into()))]),
        ],
    );
    let result = engine
        .execute_str(
            "SELECT COUNT(*) FROM vectors WHERE category = 'docs'",
            ParamBindings::empty(),
        )
        .expect("execute_str");
    let ExecutionResult::Rows { rows, .. } = result else {
        panic!("expected Rows");
    };
    let RowValue::Field(Value::I64(n)) = rows[0].values[0] else {
        panic!("expected I64");
    };
    assert_eq!(n, 3, "three 'docs' rows match");
}

#[test]
fn count_star_with_alias_uses_alias_as_column_name() {
    let dir = tempdir().expect("tempdir");
    let mut engine = make_engine(&dir);
    seed_engine(&mut engine, &[Metadata::new(), Metadata::new()]);
    let result = engine
        .execute_str("SELECT COUNT(*) AS n FROM vectors", ParamBindings::empty())
        .expect("execute_str");
    let ExecutionResult::Rows { columns, .. } = result else {
        panic!("expected Rows");
    };
    assert_eq!(columns, vec!["n".to_string()]);
}

#[test]
fn count_star_after_delete_excludes_tombstones() {
    let dir = tempdir().expect("tempdir");
    let mut engine = make_engine(&dir);
    seed_engine(
        &mut engine,
        &[Metadata::new(), Metadata::new(), Metadata::new()],
    );
    engine.shard_mut().delete(VectorId::new(2)).expect("delete");
    let result = engine
        .execute_str("SELECT COUNT(*) FROM vectors", ParamBindings::empty())
        .expect("execute_str");
    let ExecutionResult::Rows { rows, .. } = result else {
        panic!("expected Rows");
    };
    let RowValue::Field(Value::I64(n)) = rows[0].values[0] else {
        panic!("expected I64");
    };
    assert_eq!(n, 2, "tombstoned id 2 should not count");
}

/// Plan B fills in real distances via `Shard::distance_to`, so
/// `embedding <-> $q AS distance` projections work.
#[test]
fn plan_b_distance_projection_returns_exact_distance() {
    let dir = tempdir().expect("tempdir");
    let mut engine = make_engine(&dir);
    seed_engine(
        &mut engine,
        &[meta_of(&[("category", Value::String("docs".into()))])],
    );
    let q = Vector::try_new(vec![1.0, 0.0, 0.0, 0.0]).unwrap();
    let result = engine
        .execute_str(
            "SELECT id, embedding <-> $1 AS dist FROM vectors \
             WHERE category = 'docs' \
             ORDER BY embedding <-> $1 LIMIT 1",
            ParamBindings::empty().with_positional(ParamValue::Vector(q)),
        )
        .expect("execute_str");
    let ExecutionResult::Rows { columns, rows } = result else {
        panic!("expected Rows");
    };
    assert_eq!(columns, vec!["id".to_string(), "dist".to_string()]);
    let RowValue::Distance(d) = rows[0].values[1] else {
        panic!("expected Distance, got {:?}", rows[0].values[1]);
    };
    let d = f32::from_bits(d);
    // axis_vec(1) = [1, 0, 0, 0] equals the query exactly, distance 0.
    assert!(d.abs() < f32::EPSILON, "expected ~0, got {d}");
}

// ----- RadiusSearch -----

/// `WHERE embedding <-> $q < r` with no ORDER BY and no LIMIT
/// becomes a [`PhysicalPlan::RadiusSearch`]. Verifies the planner
/// takes the bypass and the executor runs the operator end-to-end.
#[test]
fn radius_search_returns_ids_within_radius() {
    let dir = tempdir().expect("tempdir");
    let mut engine = make_engine(&dir);
    // 8 axis-aligned vectors : ids 1,5 -> e_0 ; 2,6 -> e_1 ; etc.
    let metas: Vec<Metadata> = (0..8).map(|_| Metadata::new()).collect();
    seed_engine(&mut engine, &metas);

    // Query = e_0. Distance to e_0 ids is 0, to other-axis ids is sqrt(2).
    let q = Vector::try_new(vec![1.0, 0.0, 0.0, 0.0]).unwrap();
    let result = engine
        .execute_str(
            "SELECT id FROM vectors WHERE embedding <-> $1 < 0.5",
            ParamBindings::empty().with_positional(ParamValue::Vector(q)),
        )
        .expect("execute_str");
    let ExecutionResult::Rows { rows, .. } = result else {
        panic!("expected Rows");
    };
    let mut ids: Vec<u64> = rows
        .iter()
        .map(|r| match r.values[0] {
            RowValue::Id(id) => id.get(),
            _ => panic!("expected Id"),
        })
        .collect();
    ids.sort_unstable();
    // Only ids 1 and 5 sit on e_0.
    assert_eq!(ids, vec![1, 5]);
}

/// Strict (`<`) versus inclusive (`<=`) : the executor drops
/// boundary hits for `<` so users get the semantic they wrote.
#[test]
fn radius_search_strict_drops_boundary_hits() {
    let dir = tempdir().expect("tempdir");
    let mut engine = make_engine(&dir);
    seed_engine(&mut engine, &[Metadata::new(), Metadata::new()]);
    // id 1 at e_0, id 2 at e_1. Query at e_0 : distances 0 and sqrt(2).
    let q = Vector::try_new(vec![1.0, 0.0, 0.0, 0.0]).unwrap();

    // Inclusive : exact boundary at sqrt(2) keeps id 2.
    let inclusive = engine
        .execute_str(
            "SELECT id FROM vectors WHERE embedding <-> $1 <= 1.4142135",
            ParamBindings::empty().with_positional(ParamValue::Vector(q.clone())),
        )
        .expect("inclusive");
    let ExecutionResult::Rows { rows, .. } = inclusive else {
        panic!("expected Rows");
    };
    assert_eq!(rows.len(), 2);

    // Strict against the same boundary should drop id 2.
    let strict = engine
        .execute_str(
            "SELECT id FROM vectors WHERE embedding <-> $1 < 1.4142135",
            ParamBindings::empty().with_positional(ParamValue::Vector(q)),
        )
        .expect("strict");
    let ExecutionResult::Rows { rows, .. } = strict else {
        panic!("expected Rows");
    };
    let ids: Vec<u64> = rows
        .iter()
        .map(|r| match r.values[0] {
            RowValue::Id(id) => id.get(),
            _ => panic!("expected Id"),
        })
        .collect();
    assert_eq!(ids, vec![1]);
}

/// A non-distance atom alongside the radius gets peeled off and
/// applied as a `post_filter` after the radius walk.
#[test]
fn radius_search_with_and_residue_applies_post_filter() {
    let dir = tempdir().expect("tempdir");
    let mut engine = make_engine(&dir);
    // ids 1,5 -> e_0. Tag one 'docs', the other 'other'.
    let metas = vec![
        meta_of(&[("tag", Value::String("docs".into()))]), // id 1
        meta_of(&[("tag", Value::String("other".into()))]), // id 2
        meta_of(&[("tag", Value::String("other".into()))]), // id 3
        meta_of(&[("tag", Value::String("other".into()))]), // id 4
        meta_of(&[("tag", Value::String("other".into()))]), // id 5
    ];
    seed_engine(&mut engine, &metas);

    let q = Vector::try_new(vec![1.0, 0.0, 0.0, 0.0]).unwrap();
    let result = engine
        .execute_str(
            "SELECT id FROM vectors \
             WHERE embedding <-> $1 < 0.5 AND tag = 'docs'",
            ParamBindings::empty().with_positional(ParamValue::Vector(q)),
        )
        .expect("execute_str");
    let ExecutionResult::Rows { rows, .. } = result else {
        panic!("expected Rows");
    };
    // Without the tag filter we'd get ids 1 and 5. The post_filter
    // narrows it to id 1.
    assert_eq!(rows.len(), 1);
    let RowValue::Id(got) = rows[0].values[0] else {
        panic!("expected Id");
    };
    assert_eq!(got.get(), 1);
}

/// `embedding <-> $1 < r OR tag = 'a'` is rejected by the planner,
/// which fails loud rather than silently misinterpreting.
#[test]
fn radius_search_with_or_distance_is_rejected() {
    let dir = tempdir().expect("tempdir");
    let mut engine = make_engine(&dir);
    seed_engine(&mut engine, &[Metadata::new(), Metadata::new()]);

    let q = Vector::try_new(vec![1.0, 0.0, 0.0, 0.0]).unwrap();
    let err = engine
        .execute_str(
            "SELECT id FROM vectors \
             WHERE embedding <-> $1 < 0.5 OR tag = 'docs'",
            ParamBindings::empty().with_positional(ParamValue::Vector(q)),
        )
        .expect_err("OR-with-distance should not plan");
    assert!(
        matches!(err, KovaQueryError::Plan(ref m) if m.contains("Union") || m.contains("distance-threshold")),
        "expected Plan error mentioning the rejected radius-OR shape, got {err:?}"
    );
}

/// Full write-path round-trip : insert two ids, delete one,
/// checkpoint, reopen, verify only the surviving id is present.
#[test]
fn end_to_end_insert_delete_checkpoint_reopen() {
    let dir = tempdir().expect("tempdir");
    {
        let mut engine = make_engine(&dir);
        for id in [100, 200u64] {
            engine
                .execute_str(
                    "INSERT INTO vectors (id, embedding, metadata) VALUES ($1, $2, $3)",
                    ParamBindings::empty()
                        .with_positional(ParamValue::Id(VectorId::new(id)))
                        .with_positional(ParamValue::Vector(unit_vec()))
                        .with_positional(ParamValue::Metadata(Metadata::new())),
                )
                .expect("insert");
        }
        engine
            .execute_str("DELETE FROM vectors WHERE id = 100", ParamBindings::empty())
            .expect("delete");
        engine
            .execute_str("CHECKPOINT", ParamBindings::empty())
            .expect("checkpoint");
    } // Engine drops, files close.

    let shard = Shard::open(dir.path(), 4, L2, HnswParams::default()).expect("reopen");
    let engine = Engine::new(shard, "vectors");
    assert!(
        !engine.shard().contains(VectorId::new(100)),
        "deleted id should stay deleted across reopen"
    );
    assert!(
        engine.shard().contains(VectorId::new(200)),
        "surviving id should still be present"
    );
}

// ---- ShardEstimator behaviour ----
//
// With an index or without, the count must be the same.

fn build_predicate_category_docs() -> PredicateExpr {
    PredicateExpr::Atom(PredAtom::Eq {
        field: FieldRef::plain("category"),
        value: BoundExpr::Literal(BoundLiteral::String("docs".into())),
    })
}

fn seed_categorised_rows(engine: &mut Engine, docs_count: u16, blogs_count: u16) {
    for n in 0..docs_count {
        engine
            .execute_str(
                "INSERT INTO vectors (id, embedding, metadata) VALUES ($1, $2, $3)",
                ParamBindings::empty()
                    .with_positional(ParamValue::Id(VectorId::new(u64::from(n))))
                    .with_positional(ParamValue::Vector(
                        Vector::try_new(vec![f32::from(n), 0.0, 0.0, 0.0]).unwrap(),
                    ))
                    .with_positional(ParamValue::Metadata({
                        let mut m = Metadata::new();
                        m.insert("category".into(), Value::String("docs".into()));
                        m
                    })),
            )
            .unwrap();
    }
    for n in 0..blogs_count {
        let id = docs_count + n;
        engine
            .execute_str(
                "INSERT INTO vectors (id, embedding, metadata) VALUES ($1, $2, $3)",
                ParamBindings::empty()
                    .with_positional(ParamValue::Id(VectorId::new(u64::from(id))))
                    .with_positional(ParamValue::Vector(
                        Vector::try_new(vec![f32::from(id), 0.0, 0.0, 0.0]).unwrap(),
                    ))
                    .with_positional(ParamValue::Metadata({
                        let mut m = Metadata::new();
                        m.insert("category".into(), Value::String("blog".into()));
                        m
                    })),
            )
            .unwrap();
    }
}

#[test]
fn estimator_falls_back_to_scan_without_index() {
    let dir = tempdir().unwrap();
    let shard = Shard::open(dir.path(), 4, L2, HnswParams::default()).unwrap();
    let mut engine = Engine::new(shard, "vectors");
    seed_categorised_rows(&mut engine, 7, 3);

    let pred = build_predicate_category_docs();
    let estimator = ShardEstimator {
        shard: engine.shard(),
    };
    let est = estimator.estimate(&pred, &ParamBindings::empty());
    assert_eq!(est.total, 10);
    assert_eq!(est.matches, 7);
}

#[test]
fn estimator_uses_catalog_when_index_present() {
    let dir = tempdir().unwrap();
    let shard = Shard::open(dir.path(), 4, L2, HnswParams::default()).unwrap();
    let mut engine = Engine::new(shard, "vectors");
    seed_categorised_rows(&mut engine, 7, 3);
    engine
        .execute_str(
            "CREATE INDEX idx_cat ON vectors USING HASH (category)",
            ParamBindings::empty(),
        )
        .unwrap();

    let pred = build_predicate_category_docs();
    let estimator = ShardEstimator {
        shard: engine.shard(),
    };
    let est = estimator.estimate(&pred, &ParamBindings::empty());
    // Same count as the scan path : the estimator's correctness
    // doesn't depend on whether the index path or fallback runs.
    assert_eq!(est.total, 10);
    assert_eq!(est.matches, 7);
}

#[test]
fn estimator_returns_zero_on_unindexable_predicate_with_no_data() {
    // No rows + an unindexed field → 0/0. The unwrap_or(0) on
    // the error path is exercised when the predicate has no
    // resolvable rows at all.
    let dir = tempdir().unwrap();
    let shard = Shard::open(dir.path(), 4, L2, HnswParams::default()).unwrap();
    let engine = Engine::new(shard, "vectors");
    let pred = build_predicate_category_docs();
    let estimator = ShardEstimator {
        shard: engine.shard(),
    };
    let est = estimator.estimate(&pred, &ParamBindings::empty());
    assert_eq!(est.total, 0);
    assert_eq!(est.matches, 0);
}

#[test]
fn estimator_returns_zero_for_false_predicate() {
    let dir = tempdir().unwrap();
    let shard = Shard::open(dir.path(), 4, L2, HnswParams::default()).unwrap();
    let mut engine = Engine::new(shard, "vectors");
    seed_categorised_rows(&mut engine, 5, 5);
    engine.shard_mut().checkpoint().unwrap();

    let estimator = ShardEstimator {
        shard: engine.shard(),
    };
    let est = estimator.estimate(&PredicateExpr::False, &ParamBindings::empty());
    assert_eq!(est.matches, 0);
    assert_eq!(est.total, 10);
}

// ----- Index statements -----

/// Seed a small fixture so the catalog backfill has rows to walk.
fn seed_small(engine: &mut Engine) {
    for n in 0u64..10 {
        let category = if n % 2 == 0 { "docs" } else { "blog" };
        let year = 2020 + i64::try_from(n).unwrap();
        let tags = if n % 3 == 0 {
            arr(&["rust"])
        } else {
            arr(&["go"])
        };
        engine
            .execute_str(
                "INSERT INTO vectors (id, embedding, metadata) VALUES ($1, $2, $3)",
                ParamBindings::empty()
                    .with_positional(ParamValue::Id(VectorId::new(n)))
                    .with_positional(ParamValue::Vector(v(vec![
                        f32::from(u16::try_from(n).unwrap()),
                        0.0,
                    ])))
                    .with_positional(ParamValue::Metadata(meta(&[
                        ("category", s(category)),
                        ("year", i(year)),
                        ("tags", tags),
                    ]))),
            )
            .unwrap();
    }
}

#[test]
fn create_hash_index_returns_create_index_result() {
    let dir = tempdir().unwrap();
    let mut engine = Engine::new(open_shard(dir.path()), "vectors");
    seed_small(&mut engine);

    let result = engine
        .execute_str(
            "CREATE INDEX idx_cat ON vectors USING HASH (category)",
            ParamBindings::empty(),
        )
        .unwrap();
    let ExecutionResult::CreateIndex { table, name } = result else {
        panic!("expected CreateIndex result, got {result:?}");
    };
    assert_eq!(table, "vectors");
    assert_eq!(name, "idx_cat");
}

#[test]
fn create_index_without_name_synthesises_one() {
    let dir = tempdir().unwrap();
    let mut engine = Engine::new(open_shard(dir.path()), "vectors");
    seed_small(&mut engine);

    let result = engine
        .execute_str(
            "CREATE INDEX ON vectors USING BTREE (year)",
            ParamBindings::empty(),
        )
        .unwrap();
    let ExecutionResult::CreateIndex { name, .. } = result else {
        panic!("expected CreateIndex result");
    };
    assert_eq!(name, "idx_year_btree");
}

#[test]
fn create_then_drop_index_round_trip() {
    let dir = tempdir().unwrap();
    let mut engine = Engine::new(open_shard(dir.path()), "vectors");
    seed_small(&mut engine);

    // Create then drop.
    engine
        .execute_str(
            "CREATE INDEX idx_cat ON vectors USING HASH (category)",
            ParamBindings::empty(),
        )
        .unwrap();

    let drop_result = engine
        .execute_str("DROP INDEX idx_cat ON vectors", ParamBindings::empty())
        .unwrap();
    let ExecutionResult::DropIndex { table, name } = drop_result else {
        panic!("expected DropIndex result, got {drop_result:?}");
    };
    assert_eq!(table, "vectors");
    assert_eq!(name, "idx_cat");
}

#[test]
fn create_duplicate_name_errors() {
    let dir = tempdir().unwrap();
    let mut engine = Engine::new(open_shard(dir.path()), "vectors");
    seed_small(&mut engine);

    engine
        .execute_str(
            "CREATE INDEX idx_cat ON vectors USING HASH (category)",
            ParamBindings::empty(),
        )
        .unwrap();

    let err = engine
        .execute_str(
            "CREATE INDEX idx_cat ON vectors USING HASH (tags)",
            ParamBindings::empty(),
        )
        .unwrap_err();
    let msg = full_error(&err);
    assert!(
        msg.contains("idx_cat") && msg.contains("already exists"),
        "expected duplicate-name error, got: {msg}"
    );
}

#[test]
fn drop_unknown_name_errors() {
    let dir = tempdir().unwrap();
    let mut engine = Engine::new(open_shard(dir.path()), "vectors");
    seed_small(&mut engine);

    let err = engine
        .execute_str("DROP INDEX nope ON vectors", ParamBindings::empty())
        .unwrap_err();
    let msg = full_error(&err);
    assert!(
        msg.contains("nope") && msg.contains("no index"),
        "expected unknown-name error, got: {msg}"
    );
}

#[test]
fn ddl_against_wrong_table_errors() {
    let dir = tempdir().unwrap();
    let mut engine = Engine::new(open_shard(dir.path()), "vectors");
    seed_small(&mut engine);

    let err = engine
        .execute_str(
            "CREATE INDEX idx ON wrong_table USING HASH (category)",
            ParamBindings::empty(),
        )
        .unwrap_err();
    let msg = full_error(&err);
    assert!(
        msg.contains("table") || msg.contains("wrong_table"),
        "expected table-mismatch error, got: {msg}"
    );
}

#[test]
fn created_index_powers_subsequent_select() {
    // After CREATE INDEX, the catalog should route the SELECT through
    // the index path. We can't observe that directly, but we can
    // assert the query succeeds and returns the correct rows. The
    // round-trip tests cover the answers ; this one the glue.
    let dir = tempdir().unwrap();
    let mut engine = Engine::new(open_shard(dir.path()), "vectors");
    seed_small(&mut engine);

    engine
        .execute_str(
            "CREATE INDEX idx_cat ON vectors USING HASH (category)",
            ParamBindings::empty(),
        )
        .unwrap();

    let result = engine
        .execute_str(
            "SELECT COUNT(*) FROM vectors WHERE category = 'docs'",
            ParamBindings::empty(),
        )
        .unwrap();
    let ExecutionResult::Rows { rows, .. } = result else {
        panic!("expected Rows");
    };
    // Five `docs` rows in the fixture (even ids 0,2,4,6,8).
    let RowValue::Field(Value::I64(n)) = &rows[0].values[0] else {
        panic!("expected I64 count, got {:?}", rows[0].values[0]);
    };
    assert_eq!(*n, 5);
}

#[test]
fn create_inverted_index_then_array_contains() {
    let dir = tempdir().unwrap();
    let mut engine = Engine::new(open_shard(dir.path()), "vectors");
    seed_small(&mut engine);

    engine
        .execute_str(
            "CREATE INDEX idx_tags ON vectors USING INVERTED (tags)",
            ParamBindings::empty(),
        )
        .unwrap();

    let result = engine
        .execute_str(
            "SELECT COUNT(*) FROM vectors WHERE tags @> 'rust'",
            ParamBindings::empty(),
        )
        .unwrap();
    let ExecutionResult::Rows { rows, .. } = result else {
        panic!("expected Rows");
    };
    // Rows with n % 3 == 0 : ids 0, 3, 6, 9 → 4 matches.
    let RowValue::Field(Value::I64(n)) = &rows[0].values[0] else {
        panic!("expected I64 count");
    };
    assert_eq!(*n, 4);
}

#[test]
fn drop_then_recreate_is_supported() {
    let dir = tempdir().unwrap();
    let mut engine = Engine::new(open_shard(dir.path()), "vectors");
    seed_small(&mut engine);

    engine
        .execute_str(
            "CREATE INDEX idx_cat ON vectors USING HASH (category)",
            ParamBindings::empty(),
        )
        .unwrap();
    engine
        .execute_str("DROP INDEX idx_cat ON vectors", ParamBindings::empty())
        .unwrap();
    // Re-create under the same name : should succeed (no stale name).
    engine
        .execute_str(
            "CREATE INDEX idx_cat ON vectors USING HASH (category)",
            ParamBindings::empty(),
        )
        .unwrap();
}

// ----- Indexes and scans -----

/// Seed `engine` with the canonical fixture used across the tests
/// in this file : 20 rows, three indexable fields. Categories
/// alternate even/odd, years cycle 2020..2026, tags rotate.
fn seed_fixture(engine: &mut Engine) {
    for n in 0u64..20 {
        let category = if n % 2 == 0 { "docs" } else { "blog" };
        let year = 2020 + i64::try_from(n % 7).unwrap();
        let tags = if n % 3 == 0 {
            arr(&["rust", "async"])
        } else if n % 3 == 1 {
            arr(&["go"])
        } else {
            arr(&["python", "ml"])
        };
        engine
            .execute_str(
                "INSERT INTO vectors (id, embedding, metadata) VALUES ($1, $2, $3)",
                ParamBindings::empty()
                    .with_positional(ParamValue::Id(VectorId::new(n)))
                    .with_positional(ParamValue::Vector(v(vec![
                        f32::from(u16::try_from(n).unwrap()),
                        0.0,
                    ])))
                    .with_positional(ParamValue::Metadata(meta(&[
                        ("category", s(category)),
                        ("year", i(year)),
                        ("tags", tags),
                    ]))),
            )
            .unwrap();
    }
}

/// Extract just the id set from a `SELECT id ...` result. Order is
/// implementation-defined for the scan-and-limit path ; we compare
/// as sets.
fn id_set(result: ExecutionResult) -> BTreeSet<u64> {
    let ExecutionResult::Rows { rows, .. } = result else {
        panic!("expected Rows, got {result:?}");
    };
    rows.into_iter()
        .map(|row| {
            let RowValue::Id(id) = row.values[0] else {
                panic!("expected first column to be Id");
            };
            id.get()
        })
        .collect()
}

/// Run the same query twice : once without any indexes (scan path)
/// and once with the given indexes registered (index path). Assert
/// both produce the same id set.
fn round_trip(sql: &str, params: ParamBindings, index_setup: fn(&mut Engine)) {
    // --- Run A : no indexes (fallback path) ---
    let dir_a = tempdir().unwrap();
    let mut engine_a = Engine::new(open_shard(dir_a.path()), "vectors");
    seed_fixture(&mut engine_a);
    let a = id_set(engine_a.execute_str(sql, params.clone()).unwrap());

    // --- Run B : indexes registered (catalog path) ---
    let dir_b = tempdir().unwrap();
    let mut engine_b = Engine::new(open_shard(dir_b.path()), "vectors");
    seed_fixture(&mut engine_b);
    index_setup(&mut engine_b);
    let b = id_set(engine_b.execute_str(sql, params).unwrap());

    assert_eq!(a, b, "scan path vs index path diverged for SQL: {sql}");
    assert!(
        !a.is_empty(),
        "fixture should produce non-empty result for {sql}"
    );
}

fn install_hash_on_category(engine: &mut Engine) {
    engine.shard_mut().add_hash_index("category").unwrap();
}

fn install_btree_on_year(engine: &mut Engine) {
    engine.shard_mut().add_btree_index("year").unwrap();
}

fn install_inverted_on_tags(engine: &mut Engine) {
    engine.shard_mut().add_inverted_index("tags").unwrap();
}

fn install_all_three(engine: &mut Engine) {
    engine.shard_mut().add_hash_index("category").unwrap();
    engine.shard_mut().add_btree_index("year").unwrap();
    engine.shard_mut().add_inverted_index("tags").unwrap();
}

// ---- Pure scan-and-limit shapes (no kNN ORDER BY) ----

#[test]
fn scan_and_limit_eq_on_hash_index_matches_fallback() {
    round_trip(
        "SELECT id FROM vectors WHERE category = 'docs' LIMIT 100",
        ParamBindings::empty(),
        install_hash_on_category,
    );
}

#[test]
fn scan_and_limit_range_on_btree_index_matches_fallback() {
    round_trip(
        "SELECT id FROM vectors WHERE year > 2023 LIMIT 100",
        ParamBindings::empty(),
        install_btree_on_year,
    );
}

#[test]
fn scan_and_limit_between_on_btree_index_matches_fallback() {
    round_trip(
        "SELECT id FROM vectors WHERE year BETWEEN 2022 AND 2024 LIMIT 100",
        ParamBindings::empty(),
        install_btree_on_year,
    );
}

#[test]
fn scan_and_limit_array_contains_on_inverted_index_matches_fallback() {
    round_trip(
        "SELECT id FROM vectors WHERE tags @> 'rust' LIMIT 100",
        ParamBindings::empty(),
        install_inverted_on_tags,
    );
}

#[test]
fn scan_and_limit_in_clause_on_hash_index_matches_fallback() {
    round_trip(
        "SELECT id FROM vectors WHERE category IN ('docs', 'blog') LIMIT 100",
        ParamBindings::empty(),
        install_hash_on_category,
    );
}

#[test]
fn scan_and_limit_is_not_null_on_hash_index_matches_fallback() {
    round_trip(
        "SELECT id FROM vectors WHERE category IS NOT NULL LIMIT 100",
        ParamBindings::empty(),
        install_hash_on_category,
    );
}

#[test]
fn scan_and_limit_ne_on_hash_index_matches_fallback() {
    round_trip(
        "SELECT id FROM vectors WHERE category != 'docs' LIMIT 100",
        ParamBindings::empty(),
        install_hash_on_category,
    );
}

// ---- AND composition ----

#[test]
fn and_two_indexes_full_path_matches_fallback() {
    round_trip(
        "SELECT id FROM vectors WHERE category = 'docs' AND year >= 2023 LIMIT 100",
        ParamBindings::empty(),
        |e| {
            e.shard_mut().add_hash_index("category").unwrap();
            e.shard_mut().add_btree_index("year").unwrap();
        },
    );
}

#[test]
fn and_three_indexes_full_path_matches_fallback() {
    round_trip(
        "SELECT id FROM vectors \
         WHERE category = 'docs' AND year >= 2022 AND tags @> 'rust' \
         LIMIT 100",
        ParamBindings::empty(),
        install_all_three,
    );
}

#[test]
fn and_hybrid_indexed_plus_unindexed_matches_fallback() {
    // `year` indexed ; `category` is NOT indexed -> hybrid path
    round_trip(
        "SELECT id FROM vectors WHERE year > 2022 AND category = 'docs' LIMIT 100",
        ParamBindings::empty(),
        install_btree_on_year,
    );
}

// ---- OR composition ----

#[test]
fn or_two_indexes_full_path_matches_fallback() {
    round_trip(
        "SELECT id FROM vectors WHERE category = 'docs' OR category = 'blog' LIMIT 100",
        ParamBindings::empty(),
        install_hash_on_category,
    );
}

#[test]
fn or_with_one_unindexed_branch_falls_back_to_scan() {
    // The OR can't be index-evaluated because one branch is unindexed.
    // The fallback path must still produce the right answer.
    round_trip(
        "SELECT id FROM vectors WHERE category = 'docs' OR year > 2024 LIMIT 100",
        ParamBindings::empty(),
        install_hash_on_category,
    );
}

// ---- NOT shape (currently falls back) ----

#[test]
fn not_predicate_falls_back_to_scan() {
    round_trip(
        "SELECT id FROM vectors WHERE NOT (category = 'docs') LIMIT 100",
        ParamBindings::empty(),
        install_hash_on_category,
    );
}

// ---- DELETE-by-predicate ----

#[test]
fn delete_by_predicate_still_works_with_indexes_registered() {
    let dir = tempdir().unwrap();
    let mut engine = Engine::new(open_shard(dir.path()), "vectors");
    seed_fixture(&mut engine);
    engine.shard_mut().add_hash_index("category").unwrap();

    let result = engine
        .execute_str(
            "DELETE FROM vectors WHERE category = 'blog'",
            ParamBindings::empty(),
        )
        .unwrap();
    let ExecutionResult::Delete { deleted, .. } = result else {
        panic!("expected Delete result");
    };
    assert_eq!(deleted, 10);
}

// ---- Indexes added AFTER inserts (backfill path) ----

#[test]
fn index_registered_after_inserts_still_matches_fallback() {
    let dir = tempdir().unwrap();
    let mut engine = Engine::new(open_shard(dir.path()), "vectors");
    seed_fixture(&mut engine);
    // Register AFTER inserts ; backfill walks the metadata store.
    engine.shard_mut().add_hash_index("category").unwrap();

    let dir_b = tempdir().unwrap();
    let mut engine_b = Engine::new(open_shard(dir_b.path()), "vectors");
    seed_fixture(&mut engine_b);

    let with_idx = id_set(
        engine
            .execute_str(
                "SELECT id FROM vectors WHERE category = 'docs' LIMIT 100",
                ParamBindings::empty(),
            )
            .unwrap(),
    );
    let no_idx = id_set(
        engine_b
            .execute_str(
                "SELECT id FROM vectors WHERE category = 'docs' LIMIT 100",
                ParamBindings::empty(),
            )
            .unwrap(),
    );
    assert_eq!(with_idx, no_idx);
}

// ---- Empty / no-match cases ----

#[test]
fn no_match_on_indexed_field_returns_empty() {
    let dir = tempdir().unwrap();
    let mut engine = Engine::new(open_shard(dir.path()), "vectors");
    seed_fixture(&mut engine);
    engine.shard_mut().add_hash_index("category").unwrap();

    let result = engine
        .execute_str(
            "SELECT id FROM vectors WHERE category = 'no-such-category' LIMIT 100",
            ParamBindings::empty(),
        )
        .unwrap();
    let ExecutionResult::Rows { rows, .. } = result else {
        panic!("expected Rows");
    };
    assert!(rows.is_empty());
}

// ---- COUNT round-trip ----

/// Extract a `COUNT(*)` result as `i64`.
fn count_value(result: ExecutionResult) -> i64 {
    let ExecutionResult::Rows { rows, .. } = result else {
        panic!("expected Rows, got {result:?}");
    };
    assert_eq!(rows.len(), 1, "COUNT must return exactly one row");
    let RowValue::Field(Value::I64(n)) = rows[0].values[0] else {
        panic!("expected I64 count cell, got {:?}", rows[0].values[0]);
    };
    n
}

/// Run the same COUNT query with and without indexes registered.
/// Assert the count is identical.
fn count_round_trip(sql: &str, params: ParamBindings, index_setup: fn(&mut Engine)) {
    let dir_a = tempdir().unwrap();
    let mut engine_a = Engine::new(open_shard(dir_a.path()), "vectors");
    seed_fixture(&mut engine_a);
    let a = count_value(engine_a.execute_str(sql, params.clone()).unwrap());

    let dir_b = tempdir().unwrap();
    let mut engine_b = Engine::new(open_shard(dir_b.path()), "vectors");
    seed_fixture(&mut engine_b);
    index_setup(&mut engine_b);
    let b = count_value(engine_b.execute_str(sql, params).unwrap());

    assert_eq!(a, b, "scan path vs index path diverged for COUNT: {sql}");
    assert!(a > 0, "fixture should produce non-zero count for {sql}");
}

#[test]
fn count_eq_on_hash_index_matches_fallback() {
    count_round_trip(
        "SELECT COUNT(*) FROM vectors WHERE category = 'docs'",
        ParamBindings::empty(),
        install_hash_on_category,
    );
}

#[test]
fn count_range_on_btree_index_matches_fallback() {
    count_round_trip(
        "SELECT COUNT(*) FROM vectors WHERE year >= 2024",
        ParamBindings::empty(),
        install_btree_on_year,
    );
}

#[test]
fn count_array_contains_on_inverted_index_matches_fallback() {
    count_round_trip(
        "SELECT COUNT(*) FROM vectors WHERE tags @> 'rust'",
        ParamBindings::empty(),
        install_inverted_on_tags,
    );
}

#[test]
fn count_and_chain_full_path_matches_fallback() {
    count_round_trip(
        "SELECT COUNT(*) FROM vectors WHERE category = 'docs' AND year >= 2022 AND tags @> 'rust'",
        ParamBindings::empty(),
        install_all_three,
    );
}

#[test]
fn count_hybrid_path_matches_fallback() {
    // year indexed ; category isn't -> Hybrid in the count helper.
    count_round_trip(
        "SELECT COUNT(*) FROM vectors WHERE year > 2022 AND category = 'docs'",
        ParamBindings::empty(),
        install_btree_on_year,
    );
}

#[test]
fn count_no_predicate_unchanged_with_indexes() {
    // `COUNT(*)` with no WHERE goes through `shard.len()` directly,
    // whatever the indexes.
    count_round_trip(
        "SELECT COUNT(*) FROM vectors",
        ParamBindings::empty(),
        install_all_three,
    );
}

// ---- DELETE-by-predicate round-trip ----

/// Extract a DELETE result as the deleted count + the surviving id
/// set (via a follow-up SELECT). Returns `(deleted_count,
/// surviving_ids)`.
fn delete_and_survivors(
    engine: &mut Engine,
    delete_sql: &str,
    params: ParamBindings,
) -> (u64, BTreeSet<u64>) {
    let result = engine.execute_str(delete_sql, params).unwrap();
    let ExecutionResult::Delete { deleted, .. } = result else {
        panic!("expected Delete result, got {result:?}");
    };
    let survivors = id_set(
        engine
            .execute_str(
                "SELECT id FROM vectors WHERE id IS NOT NULL LIMIT 1000",
                ParamBindings::empty(),
            )
            .unwrap_or_else(|_| {
                // `id IS NOT NULL` isn't a thing ; use a scan-and-limit
                // bypass via a different shape. We fall back to walking
                // every id by listing all categories the fixture knows.
                engine
                    .execute_str(
                        "SELECT id FROM vectors WHERE category IN ('docs', 'blog') LIMIT 1000",
                        ParamBindings::empty(),
                    )
                    .unwrap()
            }),
    );
    (deleted, survivors)
}

fn delete_round_trip(sql: &str, params: ParamBindings, index_setup: fn(&mut Engine)) {
    let dir_a = tempdir().unwrap();
    let mut engine_a = Engine::new(open_shard(dir_a.path()), "vectors");
    seed_fixture(&mut engine_a);
    let (del_a, surv_a) = delete_and_survivors(&mut engine_a, sql, params.clone());

    let dir_b = tempdir().unwrap();
    let mut engine_b = Engine::new(open_shard(dir_b.path()), "vectors");
    seed_fixture(&mut engine_b);
    index_setup(&mut engine_b);
    let (del_b, surv_b) = delete_and_survivors(&mut engine_b, sql, params);

    assert_eq!(del_a, del_b, "delete count diverged for: {sql}");
    assert_eq!(surv_a, surv_b, "survivor set diverged for: {sql}");
    assert!(
        del_a > 0,
        "fixture should delete a non-zero count for {sql}"
    );
}

#[test]
fn delete_eq_on_hash_index_matches_fallback() {
    delete_round_trip(
        "DELETE FROM vectors WHERE category = 'docs'",
        ParamBindings::empty(),
        install_hash_on_category,
    );
}

#[test]
fn delete_range_on_btree_index_matches_fallback() {
    delete_round_trip(
        "DELETE FROM vectors WHERE year >= 2024",
        ParamBindings::empty(),
        install_btree_on_year,
    );
}

#[test]
fn delete_and_chain_full_path_matches_fallback() {
    delete_round_trip(
        "DELETE FROM vectors WHERE category = 'blog' AND year < 2023",
        ParamBindings::empty(),
        |e| {
            e.shard_mut().add_hash_index("category").unwrap();
            e.shard_mut().add_btree_index("year").unwrap();
        },
    );
}

#[test]
fn delete_hybrid_path_matches_fallback() {
    delete_round_trip(
        "DELETE FROM vectors WHERE year < 2023 AND category = 'docs'",
        ParamBindings::empty(),
        install_btree_on_year,
    );
}

// ---- UPDATE-by-predicate round-trip ----

/// After an UPDATE, query the rows where the assigned value lives
/// and return their id set. Tests that the right ids got mutated.
fn update_and_after_set(
    engine: &mut Engine,
    update_sql: &str,
    follow_up_sql: &str,
    params: ParamBindings,
) -> (u64, BTreeSet<u64>) {
    let result = engine.execute_str(update_sql, params.clone()).unwrap();
    let ExecutionResult::Update { updated, .. } = result else {
        panic!("expected Update result, got {result:?}");
    };
    let after = id_set(engine.execute_str(follow_up_sql, params).unwrap());
    (updated, after)
}

fn update_round_trip(
    update_sql: &str,
    follow_up_sql: &str,
    params: ParamBindings,
    index_setup: fn(&mut Engine),
) {
    let dir_a = tempdir().unwrap();
    let mut engine_a = Engine::new(open_shard(dir_a.path()), "vectors");
    seed_fixture(&mut engine_a);
    let (upd_a, after_a) =
        update_and_after_set(&mut engine_a, update_sql, follow_up_sql, params.clone());

    let dir_b = tempdir().unwrap();
    let mut engine_b = Engine::new(open_shard(dir_b.path()), "vectors");
    seed_fixture(&mut engine_b);
    index_setup(&mut engine_b);
    let (upd_b, after_b) = update_and_after_set(&mut engine_b, update_sql, follow_up_sql, params);

    assert_eq!(upd_a, upd_b, "update count diverged for: {update_sql}");
    assert_eq!(
        after_a, after_b,
        "post-update id set diverged for: {update_sql}"
    );
    assert!(
        upd_a > 0,
        "fixture should update a non-zero count for {update_sql}"
    );
}

#[test]
fn update_eq_on_hash_index_matches_fallback() {
    update_round_trip(
        // Update : reassign category for all blogs to a fresh value.
        "UPDATE vectors SET category = 'updated' WHERE category = 'blog'",
        // Follow-up : list ids that now have category = 'updated'.
        "SELECT id FROM vectors WHERE category = 'updated' LIMIT 100",
        ParamBindings::empty(),
        install_hash_on_category,
    );
}

#[test]
fn update_range_on_btree_index_matches_fallback() {
    update_round_trip(
        "UPDATE vectors SET priority = 9 WHERE year >= 2024",
        // priority isn't a fixture field ; use scan-and-limit via the
        // year predicate to recover the affected ids.
        "SELECT id FROM vectors WHERE year >= 2024 LIMIT 100",
        ParamBindings::empty(),
        install_btree_on_year,
    );
}

#[test]
fn update_hybrid_path_matches_fallback() {
    update_round_trip(
        "UPDATE vectors SET reviewed = 1 WHERE year >= 2023 AND category = 'docs'",
        "SELECT id FROM vectors WHERE year >= 2023 AND category = 'docs' LIMIT 100",
        ParamBindings::empty(),
        install_btree_on_year,
    );
}

// ----- Dispatch by cost -----

fn workload(selectivity: f64, user_k: usize, total_rows: usize, dim: usize) -> Workload {
    Workload {
        matches: (selectivity * total_rows as f64).round() as usize,
        user_k,
        total_rows,
        dim,
    }
}

fn dispatch(w: Workload, c: &CostCoefficients) -> PlanKind {
    dispatch_via_cost(&costs(&w, c))
}

#[test]
fn dispatch_picks_b_at_very_low_selectivity_small_shard() {
    let w = workload(0.001, 10, 1_000, 1536);
    assert_eq!(dispatch(w, &CostCoefficients::default()), PlanKind::B);
}

#[test]
fn dispatch_picks_a_at_high_selectivity() {
    let w = workload(0.9, 10, 10_000, 16);
    assert_eq!(dispatch(w, &CostCoefficients::default()), PlanKind::A);
}

#[test]
fn dispatch_picks_a_at_high_dim_low_selectivity_large_n() {
    let w = workload(0.02, 10, 1_000_000, 1536);
    assert_eq!(dispatch(w, &CostCoefficients::default()), PlanKind::A);
}

#[test]
fn dispatch_picks_b_on_tiny_shard() {
    let w = workload(0.5, 5, 100, 16);
    assert_eq!(dispatch(w, &CostCoefficients::default()), PlanKind::B);
}

#[test]
fn plan_c_is_dispatched_in_its_measured_band_when_metadata_is_borrowed() {
    let borrowing = CostCoefficients {
        c_metadata_get: 25.0,
        ..Default::default()
    };
    let w = workload(0.5, 50, 10_000, 16);
    assert_eq!(dispatch(w, &borrowing), PlanKind::C);
}

#[test]
fn dispatch_is_deterministic_at_selectivity_zero() {
    let w = workload(0.0, 10, 10_000, 16);
    let first = dispatch(w, &CostCoefficients::default());
    assert_eq!(first, dispatch(w, &CostCoefficients::default()));
}

#[test]
fn dispatch_is_deterministic_at_selectivity_one() {
    let w = workload(1.0, 10, 10_000, 16);
    let first = dispatch(w, &CostCoefficients::default());
    assert_eq!(first, dispatch(w, &CostCoefficients::default()));
}

#[test]
fn extreme_dim_can_flip_a_to_c() {
    let typical = workload(0.3, 10, 100_000, 16);
    let extreme = workload(0.3, 10, 100_000, 1536);
    let pick_typical = dispatch(typical, &CostCoefficients::default());
    let pick_extreme = dispatch(extreme, &CostCoefficients::default());
    assert!(matches!(
        pick_typical,
        PlanKind::A | PlanKind::B | PlanKind::C
    ));
    assert!(matches!(
        pick_extreme,
        PlanKind::A | PlanKind::B | PlanKind::C
    ));
}

// ----- Plan A must not starve the LIMIT -----

const DIM: usize = 8;
const N: usize = 2_000;

/// Pseudo-random numbers in `[0, 1)`.
struct Lcg(u64);

impl Lcg {
    fn next(&mut self) -> u64 {
        self.0 = self
            .0
            .wrapping_mul(6_364_136_223_846_793_005)
            .wrapping_add(1_442_695_040_888_963_407);
        self.0 >> 33
    }

    fn unit(&mut self) -> f32 {
        (self.next() % 1_000_000) as f32 / 1_000_000.0
    }

    fn below(&mut self, n: usize) -> usize {
        (self.next() as usize) % n
    }
}

const SEED: u64 = 0x5747_0000_5747_0000;

/// Build a shard of `N` rows where exactly `matching` of them satisfy
/// `bucket = 0`. Matches are scattered through insertion order.
fn engine_with_selectivity(dir: &Dir, matching: usize) -> Engine {
    let shard = Shard::open(dir.path(), DIM, L2, HnswParams::default()).expect("open");
    let engine = Engine::new(shard, "vectors");
    let mut rng = Lcg(SEED);

    // Stride coprime with N spreads the matching rows evenly.
    let stride = 7_919usize;
    for i in 0..N {
        let v: Vec<f32> = (0..DIM).map(|_| rng.unit()).collect();
        let is_match = (i * stride) % N < matching;
        let mut m = Metadata::new();
        m.insert("bucket".into(), Value::I64(i64::from(!is_match)));
        engine
            .shard()
            .insert(
                VectorId::new(i as u64),
                Vector::try_new(v).expect("vector"),
                m,
            )
            .expect("insert");
    }
    engine
}

fn knn_rows(engine: &mut Engine, limit: usize) -> usize {
    let mut rng = Lcg(SEED ^ 0xF00D);
    let q: Vec<f32> = (0..DIM).map(|_| rng.unit()).collect();
    let result = engine
        .execute_str(
            &format!(
                "SELECT id, embedding <-> $1 AS d FROM vectors \
                 WHERE bucket = 0 ORDER BY embedding <-> $1 LIMIT {limit}"
            ),
            ParamBindings::empty()
                .with_positional(ParamValue::Vector(Vector::try_new(q).expect("query"))),
        )
        .expect("query should succeed");
    match result {
        ExecutionResult::Rows { rows, .. } => rows.len(),
        other => panic!("expected Rows, got {other:?}"),
    }
}

/// The headline case : a selective filter with far more matches than
/// the LIMIT asks for. Every plan *can* answer this completely ; only
/// plan A fails to, and only because it does not retry.
#[test]
fn selective_filter_still_fills_the_limit() {
    for (matching, label) in [
        (2usize, "s=0.001"),
        (20, "s=0.01"),
        (100, "s=0.05"),
        (400, "s=0.2"),
    ] {
        let dir = tempdir().expect("tempdir");
        let mut engine = engine_with_selectivity(&dir, matching);
        let limit = 10;
        let got = knn_rows(&mut engine, limit);
        let expected = limit.min(matching);
        assert_eq!(
            got, expected,
            "{label}: {matching}/{N} rows match, LIMIT {limit} -> expected {expected} rows, got {got}."
        );
    }
}

/// When fewer rows match than the LIMIT asks for, the complete answer
/// is the match count. Plan A returns a fraction of even that.
#[test]
fn limit_larger_than_match_count_returns_every_match() {
    let matching = 20;
    let dir = tempdir().expect("tempdir");
    let mut engine = engine_with_selectivity(&dir, matching);
    let got = knn_rows(&mut engine, 500);
    assert_eq!(
        got, matching,
        "{matching}/{N} rows match and LIMIT is 500 -> all {matching} should come back, got {got}"
    );
}

/// A loose filter is plan A's home ground and must keep working : the
/// choice of plans should not push every query off plan A.
#[test]
fn loose_filter_still_fills_the_limit() {
    let dir = tempdir().expect("tempdir");
    let mut engine = engine_with_selectivity(&dir, N * 9 / 10); // s = 0.9
    assert_eq!(knn_rows(&mut engine, 10), 10);
    assert_eq!(knn_rows(&mut engine, 100), 100);
}

/// A predicate that matches nothing returns nothing, and is no error.
#[test]
fn unsatisfiable_filter_returns_empty() {
    let dir = tempdir().expect("tempdir");
    let mut engine = engine_with_selectivity(&dir, 0);
    assert_eq!(knn_rows(&mut engine, 10), 0);
}

// ----- Random statements -----

struct StdRng(Lcg);

trait Uniform: Copy {
    fn between(lo: Self, hi: Self, inclusive: bool, draw: u64) -> Self;
}

impl Uniform for i64 {
    fn between(lo: i64, hi: i64, inclusive: bool, draw: u64) -> i64 {
        let span = (hi - lo) as u64 + u64::from(inclusive);
        lo + (draw % span) as i64
    }
}

impl Uniform for i32 {
    fn between(lo: i32, hi: i32, inclusive: bool, draw: u64) -> i32 {
        i64::between(lo as i64, hi as i64, inclusive, draw) as i32
    }
}

impl Uniform for u64 {
    fn between(lo: u64, hi: u64, inclusive: bool, draw: u64) -> u64 {
        i64::between(lo as i64, hi as i64, inclusive, draw) as u64
    }
}

impl Uniform for usize {
    fn between(lo: usize, hi: usize, inclusive: bool, draw: u64) -> usize {
        i64::between(lo as i64, hi as i64, inclusive, draw) as usize
    }
}

impl Uniform for f64 {
    fn between(lo: f64, hi: f64, _inclusive: bool, draw: u64) -> f64 {
        lo + (hi - lo) * ((draw % 1_000_000) as f64 / 1_000_000.0)
    }
}

trait Draw<T> {
    fn draw(&self, draw: u64) -> T;
}

impl<T: Uniform> Draw<T> for std::ops::Range<T> {
    fn draw(&self, draw: u64) -> T {
        T::between(self.start, self.end, false, draw)
    }
}

impl<T: Uniform> Draw<T> for std::ops::RangeInclusive<T> {
    fn draw(&self, draw: u64) -> T {
        T::between(*self.start(), *self.end(), true, draw)
    }
}

impl StdRng {
    fn seed_from_u64(seed: u64) -> StdRng {
        StdRng(Lcg(seed))
    }

    fn random_range<T, R: Draw<T>>(&mut self, range: R) -> T {
        range.draw(self.0.next())
    }

    fn random_bool(&mut self, p: f64) -> bool {
        self.random_range(0.0..1.0_f64) < p
    }
}

trait Choose<T> {
    fn pick(&self, rng: &mut StdRng) -> Option<&T>;
}

impl<T> Choose<T> for [T] {
    fn pick(&self, rng: &mut StdRng) -> Option<&T> {
        self.get(rng.0.below(self.len()))
    }
}

/// Top-level metadata field names the generators draw from. Kept
/// small so generated predicates have a real chance of matching
/// generated rows.
const FIELDS: &[&str] = &["category", "score", "year", "active", "tags", "attrs"];

/// Field used as the nested-Map carrier for subscripted predicates.
/// The fixture always writes a Map at this field so subscript-side
/// fuzzing has actual data to hit.
const MAP_FIELD: &str = "attrs";

/// Subscript keys generated under [`MAP_FIELD`].
const SUB_KEYS: &[&str] = &["country", "priority", "color"];

const CATEGORIES: &[&str] = &["docs", "specs", "rfcs", "drafts", "archived"];
const COUNTRIES: &[&str] = &["IN", "US", "JP", "BR"];
const COLORS: &[&str] = &["red", "green", "blue"];

/// Vector dim used across the fixture. Small enough to keep
/// iterations cheap, large enough to exercise SIMD paths in the
/// distance metric.
const VECTOR_DIM: usize = 4;

// ----- Random shard fixture -----

/// Fixture wrapping a fresh shard pre-seeded with `n` random rows.
/// Holds a snapshot of the seeded `(id, metadata)` pairs so tests
/// can validate against a mirror without re-reading the shard.
struct Fixture {
    engine: Engine,
    rows: Vec<(u64, Metadata)>,
    _dir: Dir,
}

fn build_fixture(rng: &mut StdRng, n: usize) -> Fixture {
    let dir = tempdir().expect("tempdir");
    let shard =
        Shard::open(dir.path(), VECTOR_DIM, L2, HnswParams::default()).expect("Shard::open");
    let mut engine = Engine::new(shard, "vectors");

    let mut rows = Vec::with_capacity(n);
    for i in 1..=(n as u64) {
        let id = VectorId::new(i);
        let vec = random_vector(rng);
        let meta = random_metadata(rng);
        engine
            .shard_mut()
            .insert(id, vec, meta.clone())
            .expect("seed insert");
        rows.push((id, meta));
    }
    Fixture {
        engine,
        rows,
        _dir: dir,
    }
}

fn random_vector(rng: &mut StdRng) -> Vector {
    let data: Vec<f32> = (0..VECTOR_DIM).map(|_| rng.random_range(0.0..1.0_f64) as f32).collect();
    Vector::try_new(data).expect("non-empty vector")
}

fn random_metadata(rng: &mut StdRng) -> Metadata {
    let mut m = Metadata::new();
    // Always write `attrs` as a Map so subscripted predicates can hit.
    let mut attrs = Metadata::new();
    if rng.random_bool(0.8) {
        attrs.insert(
            "country".into(),
            Value::String((*COUNTRIES.pick(rng).expect("non-empty")).into()),
        );
    }
    if rng.random_bool(0.5) {
        attrs.insert(
            "color".into(),
            Value::String((*COLORS.pick(rng).expect("non-empty")).into()),
        );
    }
    if rng.random_bool(0.5) {
        attrs.insert("priority".into(), Value::I64(rng.random_range(1..=5)));
    }
    m.insert(MAP_FIELD.into(), Value::Object(attrs));

    // Other fields written with biased probabilities so predicates
    // on absent fields still get exercised.
    if rng.random_bool(0.9) {
        m.insert(
            "category".into(),
            Value::String((*CATEGORIES.pick(rng).expect("non-empty")).into()),
        );
    }
    if rng.random_bool(0.7) {
        m.insert("score".into(), Value::F64(rng.random_range(0.0..1.0_f64).to_bits()));
    }
    if rng.random_bool(0.8) {
        m.insert("year".into(), Value::I64(rng.random_range(2000..=2025)));
    }
    if rng.random_bool(0.6) {
        m.insert("active".into(), Value::Bool(rng.random_bool(0.5)));
    }
    if rng.random_bool(0.5) {
        let tag_count = rng.random_range(1..=3);
        let tags: Vec<Value> = (0..tag_count)
            .map(|_| Value::String((*CATEGORIES.pick(rng).expect("non-empty")).into()))
            .collect();
        m.insert("tags".into(), Value::Array(tags));
    }
    m
}

// ----- Random query strings -----

/// One generated query : the SQL string plus its parameter bindings.
struct GenQuery {
    sql: String,
    params: ParamBindings,
}

fn gen_any_query(rng: &mut StdRng) -> GenQuery {
    // Statement-kind mix tuned for coverage. SELECT dominates because
    // it has the largest internal surface (plans A/B/C/radius/scan/COUNT).
    let r = rng.random_range(0..100);
    if r < 50 {
        gen_select(rng)
    } else if r < 75 {
        gen_delete(rng)
    } else if r < 95 {
        gen_update(rng)
    } else if r < 98 {
        plain("VACUUM vectors")
    } else {
        plain("CHECKPOINT")
    }
}

fn plain(sql: &str) -> GenQuery {
    GenQuery {
        sql: sql.into(),
        params: ParamBindings::empty(),
    }
}

fn gen_select(rng: &mut StdRng) -> GenQuery {
    let r = rng.random_range(0..100);
    if r < 15 {
        // COUNT(*) with optional WHERE.
        let pred = if rng.random_bool(0.7) {
            format!(" WHERE {}", gen_predicate(rng, 2))
        } else {
            String::new()
        };
        plain(&format!("SELECT COUNT(*) FROM vectors{pred}"))
    } else if r < 30 {
        // Scan-and-limit (no ORDER BY, has LIMIT, has WHERE).
        let pred = gen_predicate(rng, 2);
        let k = rng.random_range(1..=10);
        plain(&format!("SELECT id FROM vectors WHERE {pred} LIMIT {k}"))
    } else if r < 45 {
        // Radius search.
        let radius = rng.random_range(0.1..2.0);
        let pred = if rng.random_bool(0.5) {
            format!(" AND {}", gen_predicate(rng, 1))
        } else {
            String::new()
        };
        let mut params = ParamBindings::empty();
        params = params.with_positional(ParamValue::Vector(random_vector(rng)));
        GenQuery {
            sql: format!("SELECT id FROM vectors WHERE embedding <-> $1 < {radius:.4}{pred}"),
            params,
        }
    } else {
        // kNN SELECT (plan A/B/C depending on selectivity).
        let k = rng.random_range(1..=10);
        let pred = if rng.random_bool(0.7) {
            format!(" WHERE {}", gen_predicate(rng, 2))
        } else {
            String::new()
        };
        let projection = if rng.random_bool(0.5) { "id" } else { "*" };
        let mut params = ParamBindings::empty();
        params = params.with_positional(ParamValue::Vector(random_vector(rng)));
        GenQuery {
            sql: format!(
                "SELECT {projection} FROM vectors{pred} \
                 ORDER BY embedding <-> $1 LIMIT {k}"
            ),
            params,
        }
    }
}

fn gen_delete(rng: &mut StdRng) -> GenQuery {
    let r = rng.random_range(0..100);
    if r < 30 {
        // DELETE WHERE id = <literal>
        let id = rng.random_range(1..=20);
        plain(&format!("DELETE FROM vectors WHERE id = {id}"))
    } else if r < 50 {
        // DELETE WHERE id = $1
        let id = rng.random_range(1..=20);
        let params = ParamBindings::empty().with_positional(ParamValue::Id(VectorId::new(id)));
        GenQuery {
            sql: "DELETE FROM vectors WHERE id = $1".into(),
            params,
        }
    } else if r < 80 {
        // DELETE by metadata predicate.
        let pred = gen_predicate(rng, 2);
        plain(&format!("DELETE FROM vectors WHERE {pred}"))
    } else {
        // DELETE by radius.
        let radius = rng.random_range(0.1..2.0);
        let pred = if rng.random_bool(0.4) {
            format!(" AND {}", gen_predicate(rng, 1))
        } else {
            String::new()
        };
        let params = ParamBindings::empty().with_positional(ParamValue::Vector(random_vector(rng)));
        GenQuery {
            sql: format!("DELETE FROM vectors WHERE embedding <-> $1 < {radius:.4}{pred}"),
            params,
        }
    }
}

fn gen_update(rng: &mut StdRng) -> GenQuery {
    // Build one or two SET clauses ; at least one is required.
    let n_assigns = if rng.random_bool(0.7) { 1 } else { 2 };
    let assigns: Vec<String> = (0..n_assigns).map(|_| gen_assignment(rng)).collect();
    let set_clause = assigns.join(", ");

    // WHERE shape : 40% single-id literal, 20% predicate, 20% radius,
    // 20% param-id.
    let r = rng.random_range(0..100);
    if r < 40 {
        let id = rng.random_range(1..=20);
        plain(&format!("UPDATE vectors SET {set_clause} WHERE id = {id}"))
    } else if r < 60 {
        let id = rng.random_range(1..=20);
        let params = ParamBindings::empty().with_positional(ParamValue::Id(VectorId::new(id)));
        GenQuery {
            sql: format!("UPDATE vectors SET {set_clause} WHERE id = $1"),
            params,
        }
    } else if r < 80 {
        let pred = gen_predicate(rng, 2);
        plain(&format!("UPDATE vectors SET {set_clause} WHERE {pred}"))
    } else {
        let radius = rng.random_range(0.1..2.0);
        let params = ParamBindings::empty().with_positional(ParamValue::Vector(random_vector(rng)));
        GenQuery {
            sql: format!("UPDATE vectors SET {set_clause} WHERE embedding <-> $1 < {radius:.4}"),
            params,
        }
    }
}

fn gen_assignment(rng: &mut StdRng) -> String {
    // 30% chance of a subscripted assignment on `attrs`.
    if rng.random_bool(0.3) {
        let key = *SUB_KEYS.pick(rng).expect("non-empty");
        let value = gen_atom_value(rng);
        format!("{MAP_FIELD}['{key}'] = {value}")
    } else {
        let field = pick_settable_field(rng);
        let value = gen_atom_value(rng);
        format!("{field} = {value}")
    }
}

fn pick_settable_field(rng: &mut StdRng) -> &'static str {
    // Skip `attrs` (handled by the subscript branch) and `embedding`
    // (binder rejects ; we don't want to bias the test toward errors).
    let candidates = ["category", "score", "year", "active", "tag", "status"];
    candidates.pick(rng).expect("non-empty")
}

// ----- Predicate generator -----

fn gen_predicate(rng: &mut StdRng, depth: usize) -> String {
    if depth == 0 {
        return gen_atom(rng);
    }
    let r = rng.random_range(0..100);
    if r < 20 {
        format!("NOT ({})", gen_predicate(rng, depth - 1))
    } else if r < 40 {
        format!(
            "({} AND {})",
            gen_predicate(rng, depth - 1),
            gen_predicate(rng, depth - 1),
        )
    } else if r < 55 {
        format!(
            "({} OR {})",
            gen_predicate(rng, depth - 1),
            gen_predicate(rng, depth - 1),
        )
    } else {
        gen_atom(rng)
    }
}

fn gen_atom(rng: &mut StdRng) -> String {
    let kind = rng.random_range(0..100);
    if kind < 35 {
        let field = gen_field_ref(rng);
        let value = gen_atom_value(rng);
        format!("{field} = {value}")
    } else if kind < 55 {
        let field = gen_field_ref(rng);
        let op = ["<", "<=", ">", ">=", "!=", "<>"][rng.random_range(0..6)];
        let value = gen_atom_value(rng);
        format!("{field} {op} {value}")
    } else if kind < 70 {
        // IN list of 2-3 literals.
        let field = gen_field_ref(rng);
        let n = rng.random_range(2..=3);
        let vals: Vec<String> = (0..n).map(|_| gen_literal(rng)).collect();
        format!("{field} IN ({})", vals.join(", "))
    } else if kind < 80 {
        let field = gen_field_ref(rng);
        let (lo, hi) = if rng.random_bool(0.5) {
            (rng.random_range(0..50), rng.random_range(50..100))
        } else {
            (rng.random_range(2000..2010), rng.random_range(2010..2025))
        };
        format!("{field} BETWEEN {lo} AND {hi}")
    } else if kind < 90 {
        let field = gen_field_ref(rng);
        let neg = if rng.random_bool(0.5) { "NOT " } else { "" };
        format!("{field} IS {neg}NULL")
    } else {
        // Array-contains uses a string literal target.
        let field = "tags";
        let tag = *CATEGORIES.pick(rng).expect("non-empty");
        format!("{field} @> '{tag}'")
    }
}

fn gen_field_ref(rng: &mut StdRng) -> String {
    // 25% chance of a subscripted mirror on `attrs`.
    if rng.random_bool(0.25) {
        let key = *SUB_KEYS.pick(rng).expect("non-empty");
        format!("{MAP_FIELD}['{key}']")
    } else {
        (*FIELDS.pick(rng).expect("non-empty")).into()
    }
}

fn gen_atom_value(rng: &mut StdRng) -> String {
    // For predicate RHS and assignment values.
    if rng.random_bool(0.4) {
        gen_literal(rng)
    } else if rng.random_bool(0.5) {
        // The one slot ($1) is taken by the query vector or the id.
        gen_literal(rng)
    } else {
        gen_literal(rng)
    }
}

fn gen_literal(rng: &mut StdRng) -> String {
    let kind = rng.random_range(0..100);
    if kind < 30 {
        // String literal.
        let pool = [CATEGORIES, COUNTRIES, COLORS][rng.random_range(0..3)];
        let s = *pool.pick(rng).expect("non-empty");
        format!("'{s}'")
    } else if kind < 60 {
        // Integer literal.
        let n: i64 = rng.random_range(0..3000);
        n.to_string()
    } else if kind < 80 {
        // Float literal.
        let f: f64 = rng.random_range(0.0..10.0);
        format!("{f:.3}")
    } else if kind < 95 {
        if rng.random_bool(0.5) {
            "TRUE".into()
        } else {
            "FALSE".into()
        }
    } else {
        "NULL".into()
    }
}

// ----- Fuzz harness -----

/// One fuzz iteration : generate a query, run it, assert no panic
/// and either Ok or a typed error.
fn fuzz_one(engine: &mut Engine, rng: &mut StdRng) {
    let GenQuery { sql, params } = gen_any_query(rng);
    match engine.execute_str(&sql, params) {
        Ok(_)
        | Err(
            KovaQueryError::Parse(_)
            | KovaQueryError::Bind(_)
            | KovaQueryError::Plan(_)
            | KovaQueryError::Execution(_)
            | KovaQueryError::Backend(_),
        ) => {}
    }
}

/// Drive `iterations` fuzzed queries against a freshly-seeded shard.
fn run_fuzz(seed: u64, shard_size: usize, iterations: usize) {
    let mut rng = StdRng::seed_from_u64(seed);
    let mut fx = build_fixture(&mut rng, shard_size);
    for _ in 0..iterations {
        fuzz_one(&mut fx.engine, &mut rng);
    }
}

// ----- Test entry points -----

/// Smoke run : a few hundred iterations on a small shard.
#[test]
fn fuzz_smoke_500_iterations() {
    run_fuzz(0x00C0_FFEE, 20, 500);
}

/// Different seed : catches seed-dependent panics the first one
/// happens to miss.
#[test]
fn fuzz_smoke_alt_seed() {
    run_fuzz(0xDEAD_BEEF, 20, 500);
}

/// Tiny shard : exercises the empty-result + single-row edges that
/// the larger fixture rarely hits.
#[test]
fn fuzz_smoke_tiny_shard() {
    run_fuzz(0xFEED, 3, 300);
}

/// Diagnostic : the fuzzer is only meaningful if it actually drives
/// queries through the executor. This test asserts at least 30 % of
/// generated queries succeed cleanly : guards against a regression
/// where every generated shape errors at the parser / binder and the
/// fuzzer turns into a silent-pass.
#[test]
fn fuzz_meaningful_success_rate() {
    let seed = 0xFACE_F11E;
    let mut rng = StdRng::seed_from_u64(seed);
    let mut fx = build_fixture(&mut rng, 25);
    let iterations = 1_000;
    let mut ok = 0;
    let mut errs = 0;
    for _ in 0..iterations {
        let GenQuery { sql, params } = gen_any_query(&mut rng);
        match fx.engine.execute_str(&sql, params) {
            Ok(_) => ok += 1,
            Err(_) => errs += 1,
        }
    }
    assert!(
        ok >= iterations * 30 / 100,
        "only {ok} of {iterations} queries succeeded ({errs} errors) ; \
         generator is producing too many error-only shapes"
    );
}

/// Smoke that also throws a CHECKPOINT in the middle.
#[test]
fn fuzz_with_checkpoint_midway() {
    let seed = 0xCAFE_F00D;
    let mut rng = StdRng::seed_from_u64(seed);
    let mut fx = build_fixture(&mut rng, 25);
    for iter in 0..200 {
        if iter == 100 {
            let _ = fx.engine.execute_str("CHECKPOINT", ParamBindings::empty());
        }
        fuzz_one(&mut fx.engine, &mut rng);
    }
}

// ----- Against a second evaluator -----

/// What kind of correctness check we run for a given LogicalStatement.
/// Anything not listed here is panic-only.
enum CheckKind<'a> {
    Count {
        pred: Option<&'a PredicateExpr>,
    },
    ScanAndLimit {
        pred: &'a PredicateExpr,
        limit: u64,
    },
    DeleteById(u64),
    DeleteByPredicate(&'a PredicateExpr),
    UpdateById {
        id: u64,
        assigns: &'a [LogicalAssignment],
    },
    UpdateByPredicate {
        pred: &'a PredicateExpr,
        assigns: &'a [LogicalAssignment],
    },
}

/// Inspect a [`LogicalStatement`] and decide whether we have a
/// correctness check for it. Returns `None` for shapes this harness
/// doesn't validate (kNN, radius, INSERT, VACUUM, CHECKPOINT).
fn check_kind<'a>(stmt: &'a LogicalStatement, params: &ParamBindings) -> Option<CheckKind<'a>> {
    match stmt {
        LogicalStatement::Query(q) => {
            // COUNT(*) : projection is a solo CountStar.
            if q.projection.columns.len() == 1
                && matches!(
                    q.projection.columns[0],
                    BoundProjection::CountStar { .. }
                )
            {
                return Some(CheckKind::Count {
                    pred: q.predicate.as_ref(),
                });
            }
            // Scan-and-limit : no ordering, has LIMIT, has WHERE, no
            // distance-threshold (radius takes precedence in the planner).
            if let (true, Some(limit), Some(pred)) = (q.ordering.is_empty(), q.limit, &q.predicate)
            {
                if !predicate_has_distance_threshold(pred) {
                    return Some(CheckKind::ScanAndLimit { pred, limit });
                }
            }
            None
        }
        LogicalStatement::Delete(LogicalDelete {
            single_id_hint,
            predicate,
            ..
        }) => {
            match single_id_hint {
                Some(IdHint::Literal(id)) => {
                    Some(CheckKind::DeleteById(VectorId::new(*id)))
                }
                Some(IdHint::Param(p)) => {
                    // Resolve the param to an id eagerly so the check
                    // doesn't need to look at params again.
                    let resolved = params.resolve(p).ok()?;
                    match resolved {
                        ParamValue::Id(id) => Some(CheckKind::DeleteById(*id)),
                        _ => None,
                    }
                }
                None => {
                    if predicate_has_distance_threshold(predicate) {
                        None
                    } else {
                        Some(CheckKind::DeleteByPredicate(predicate))
                    }
                }
            }
        }
        LogicalStatement::Update(LogicalUpdate {
            single_id_hint,
            predicate,
            assignments,
            ..
        }) => {
            // Subscripted assignments mutate metadata in a way that
            // depends on the engine's apply_assignments behaviour. We
            // mirror that in our mirror, but only when *all* of
            // them are plain (no subscript) : keeps the ref simple.
            if assignments.iter().any(|a| a.subscript.is_some()) {
                return None;
            }
            match single_id_hint {
                Some(IdHint::Literal(id)) => Some(CheckKind::UpdateById {
                    id: VectorId::new(*id),
                    assigns: assignments,
                }),
                Some(IdHint::Param(p)) => {
                    let resolved = params.resolve(p).ok()?;
                    match resolved {
                        ParamValue::Id(id) => Some(CheckKind::UpdateById {
                            id: *id,
                            assigns: assignments,
                        }),
                        _ => None,
                    }
                }
                None => {
                    if predicate_has_distance_threshold(predicate) {
                        None
                    } else {
                        Some(CheckKind::UpdateByPredicate {
                            pred: predicate,
                            assigns: assignments,
                        })
                    }
                }
            }
        }
        _ => None,
    }
}

/// Mirror of the engine's predicate evaluator for the test side.
/// Same semantics : null-safe, structural compare, subscript-aware.
/// Returns Err on shapes the mirror doesn't support
/// (DistanceThreshold) so the harness can skip the comparison
/// gracefully.
fn ref_eval(
    p: &PredicateExpr,
    meta: &Metadata,
    params: &ParamBindings,
) -> Result<bool, &'static str> {
    match p {
        PredicateExpr::True => Ok(true),
        PredicateExpr::False => Ok(false),
        PredicateExpr::And(cs) => {
            for c in cs {
                if !ref_eval(c, meta, params)? {
                    return Ok(false);
                }
            }
            Ok(true)
        }
        PredicateExpr::Or(cs) => {
            for c in cs {
                if ref_eval(c, meta, params)? {
                    return Ok(true);
                }
            }
            Ok(false)
        }
        PredicateExpr::Not(inner) => Ok(!ref_eval(inner, meta, params)?),
        PredicateExpr::Atom(atom) => ref_eval_atom(atom, meta, params),
    }
}

fn ref_eval_atom(
    atom: &PredAtom,
    meta: &Metadata,
    params: &ParamBindings,
) -> Result<bool, &'static str> {
    match atom {
        PredAtom::Eq { field, value } => {
            let Some(want) = ref_resolve_value(value, params) else {
                return Err("non-literal param in ref WHERE");
            };
            Ok(ref_lookup(field, meta).is_some_and(|v| ref_values_eq(v, &want)))
        }
        PredAtom::Cmp { field, op, value } => {
            let Some(want) = ref_resolve_value(value, params) else {
                return Err("non-literal param in ref WHERE");
            };
            Ok(ref_lookup(field, meta)
                .and_then(|v| ref_values_cmp(v, &want, *op))
                .unwrap_or(false))
        }
        PredAtom::In { field, values } => {
            let Some(actual) = ref_lookup(field, meta) else {
                return Ok(false);
            };
            Ok(values
                .iter()
                .map(ref_literal_to_value)
                .any(|v| ref_values_eq(actual, &v)))
        }
        PredAtom::Between { field, lo, hi } => {
            let Some(actual) = ref_lookup(field, meta) else {
                return Ok(false);
            };
            let lo_v = ref_literal_to_value(lo);
            let hi_v = ref_literal_to_value(hi);
            let ge_lo = ref_values_cmp(actual, &lo_v, CmpOp::Ge).unwrap_or(false);
            let le_hi = ref_values_cmp(actual, &hi_v, CmpOp::Le).unwrap_or(false);
            Ok(ge_lo && le_hi)
        }
        PredAtom::IsNotNull { field } => Ok(ref_lookup(field, meta).is_some()),
        PredAtom::ArrayContains { field, value } => {
            let target = ref_literal_to_value(value);
            match ref_lookup(field, meta) {
                Some(Value::Array(arr)) => Ok(arr.iter().any(|v| ref_values_eq(v, &target))),
                _ => Ok(false),
            }
        }
        PredAtom::DistanceThreshold { .. } => Err("DistanceThreshold not handled by ref"),
    }
}

fn ref_lookup<'a>(field: &FieldRef, meta: &'a Metadata) -> Option<&'a Value> {
    let top = meta.get(&field.name)?;
    match &field.subscript {
        None => Some(top),
        Some(key) => match top {
            Value::Object(inner) => inner.get(key),
            _ => None,
        },
    }
}

fn ref_resolve_value(expr: &BoundExpr, params: &ParamBindings) -> Option<Value> {
    match expr {
        BoundExpr::Literal(l) => Some(ref_literal_to_value(l)),
        BoundExpr::Param(p) => {
            let resolved = params.resolve(p).ok()?;
            match resolved {
                ParamValue::String(s) => Some(Value::String(s.clone())),
                ParamValue::I64(n) => Some(Value::I64(*n)),
                ParamValue::F64(f) => Some(Value::F64(*f)),
                ParamValue::Bool(b) => Some(Value::Bool(*b)),
                ParamValue::Null => Some(Value::Array(Vec::new())),
                ParamValue::Metadata(m) => Some(Value::Object(m.clone())),
                _ => None,
            }
        }
    }
}

fn ref_literal_to_value(l: &BoundLiteral) -> Value {
    match l {
        BoundLiteral::String(s) => Value::String(s.clone()),
        BoundLiteral::I64(n) => Value::I64(*n),
        BoundLiteral::F64(f) => Value::F64(*f),
        BoundLiteral::Bool(b) => Value::Bool(*b),
        // The engine models NULL as an unmatchable sentinel ; mirror
        // that with an empty Array since no real Array literal lands
        // there.
        BoundLiteral::Null => Value::Array(Vec::new()),
    }
}

fn ref_values_eq(a: &Value, b: &Value) -> bool {
    match (a, b) {
        (Value::String(x), Value::String(y)) => x == y,
        (Value::I64(x), Value::I64(y)) => x == y,
        (Value::F64(x), Value::F64(y)) => f64::from_bits(*x) == f64::from_bits(*y),
        (Value::Bool(x), Value::Bool(y)) => x == y,
        (Value::Array(x), Value::Array(y)) => x == y,
        (Value::Object(x), Value::Object(y)) => x == y,
        (Value::I64(x), Value::F64(y)) | (Value::F64(y), Value::I64(x)) => {
            let xf = *x as f64;
            xf == f64::from_bits(*y)
        }
        _ => false,
    }
}

fn ref_values_cmp(a: &Value, b: &Value, op: CmpOp) -> Option<bool> {
    let ordering = match (a, b) {
        (Value::String(x), Value::String(y)) => x.partial_cmp(y),
        (Value::I64(x), Value::I64(y)) => x.partial_cmp(y),
        (Value::F64(x), Value::F64(y)) => f64::from_bits(*x).partial_cmp(&f64::from_bits(*y)),
        (Value::Bool(x), Value::Bool(y)) => x.partial_cmp(y),
        (Value::I64(x), Value::F64(y)) => {
            let xf = *x as f64;
            xf.partial_cmp(&f64::from_bits(*y))
        }
        (Value::F64(x), Value::I64(y)) => {
            let yf = *y as f64;
            f64::from_bits(*x).partial_cmp(&yf)
        }
        _ => return None,
    }?;
    Some(match op {
        CmpOp::Eq => ordering == Ordering::Equal,
        CmpOp::Ne => ordering != Ordering::Equal,
        CmpOp::Lt => ordering == Ordering::Less,
        CmpOp::Le => ordering != Ordering::Greater,
        CmpOp::Gt => ordering == Ordering::Greater,
        CmpOp::Ge => ordering != Ordering::Less,
    })
}

/// Drive one iteration of the correctness fuzzer. Generates a query,
/// binds it, picks a correctness check if one applies, runs the
/// engine, asserts the mirror and engine agree, and (for DML)
/// syncs the mirror state.
fn correctness_one(fx: &mut Fixture, rng: &mut StdRng, seed: u64, iter: usize) {
    let GenQuery { sql, params } = gen_any_query(rng);

    // Bind the SQL to a LogicalStatement before running. If binding
    // fails we just run the engine for panic-coverage and skip the
    // correctness check.
    let bound = parse_str(&sql).and_then(bind);
    let stmt = if let Ok(s) = bound {
        s
    } else {
        // Parser/binder rejection : engine will reject too. Still
        // run to catch any panic.
        let _ = fx.engine.execute_str(&sql, params);
        return;
    };

    let Some(kind) = check_kind(&stmt, &params) else {
        // No correctness check for this shape. If it's a mutation we
        // can't mirror (e.g. radius DELETE / UPDATE, subscripted
        // assignment), skip it entirely so the engine and the
        // mirror state stay in sync. Non-mutations run the
        // already-generated query for panic coverage (NOT a freshly
        // generated one : that'd mutate the engine off our radar).
        if matches!(
            stmt,
            LogicalStatement::Delete(_) | LogicalStatement::Update(_)
        ) {
            return;
        }
        let _ = fx.engine.execute_str(&sql, params);
        return;
    };

    // Mirror-first : compute the expected result against the
    // mirror state BEFORE running the engine. If the mirror
    // can't handle some shape (returns Err mid-eval), skip without
    // touching the engine, so the two stay in sync.
    let expectation = match compute_expectation(&kind, &fx.rows, &params) {
        Some(exp) => exp,
        None => return, // ref can't evaluate ; skip
    };

    // Run the engine.
    let engine_params = params.clone();
    let engine_result = fx.engine.execute_str(&sql, engine_params);

    match (kind, expectation) {
        (CheckKind::Count { .. }, Expectation::Count(expected)) => {
            let Ok(ExecutionResult::Rows { rows, .. }) = engine_result else {
                return;
            };
            assert_eq!(rows.len(), 1, "COUNT should produce 1 row : `{sql}`");
            let engine_count = match rows[0].values[0] {
                RowValue::Field(Value::I64(n)) => n,
                ref other => panic!(
                    "COUNT cell isn't I64 : `{sql}` value={other:?} (seed={seed} iter={iter})"
                ),
            };
            assert_eq!(
                u64::try_from(engine_count).unwrap_or(u64::MAX),
                expected,
                "COUNT mismatch on `{sql}` (seed={seed} iter={iter})"
            );
        }
        (CheckKind::ScanAndLimit { limit, .. }, Expectation::ScanIds(expected)) => {
            let Ok(ExecutionResult::Rows { rows, .. }) = engine_result else {
                return;
            };
            assert!(
                u64::try_from(rows.len()).unwrap_or(u64::MAX) <= limit,
                "scan-and-limit returned more rows than LIMIT : `{sql}` \
                 got {} expected <= {limit} (seed={seed} iter={iter})",
                rows.len(),
            );
            for row in rows {
                let Some(RowValue::Id(id)) = row.values.first() else {
                    panic!(
                        "scan-and-limit row missing Id cell : `{sql}` \
                         (seed={seed} iter={iter})"
                    );
                };
                assert!(
                    expected.contains(id),
                    "scan-and-limit returned id {} that doesn't satisfy the predicate : \
                     `{sql}` (seed={seed} iter={iter})",
                    id.get()
                );
            }
        }
        (CheckKind::DeleteById(target), Expectation::DeleteByIdExpected(present)) => {
            match engine_result {
                Ok(ExecutionResult::Delete { deleted, .. }) => {
                    let expected = u64::from(present);
                    assert_eq!(
                        deleted, expected,
                        "delete-by-id count mismatch : `{sql}` (seed={seed} iter={iter})"
                    );
                    if deleted == 1 {
                        fx.rows.retain(|(id, _)| *id != target);
                    }
                }
                Ok(other) => panic!(
                    "DELETE returned non-Delete shape : `{sql}` result={other:?} \
                     (seed={seed} iter={iter})"
                ),
                Err(_) => { /* engine errored ; ref untouched */ }
            }
        }
        (CheckKind::DeleteByPredicate(_), Expectation::DeleteByPredicateTargets(targets)) => {
            if let Ok(ExecutionResult::Delete { deleted, .. }) = engine_result {
                let expected = u64::try_from(targets.len()).unwrap_or(u64::MAX);
                assert_eq!(
                    deleted, expected,
                    "delete-by-predicate count mismatch : `{sql}` \
                 (seed={seed} iter={iter})"
                );
                fx.rows.retain(|(id, _)| !targets.contains(id));
            } else { /* engine error : ref untouched */
            }
        }
        (CheckKind::UpdateById { id, assigns }, Expectation::UpdateByIdExpected(present)) => {
            if let Ok(ExecutionResult::Update { updated, .. }) = engine_result {
                if present {
                    assert_eq!(
                        updated, 1,
                        "update-by-id should have hit one row : `{sql}` \
                     (seed={seed} iter={iter})"
                    );
                    if let Some(i) = fx.rows.iter().position(|(rid, _)| *rid == id) {
                        let (_, bag) = &mut fx.rows[i];
                        ref_apply_assignments(bag, assigns, &params);
                    }
                } else {
                    assert_eq!(updated, 0, "update on missing id should be 0");
                }
            } else { /* engine error : ref untouched */
            }
        }
        (
            CheckKind::UpdateByPredicate { assigns, .. },
            Expectation::UpdateByPredicateTargets(targets),
        ) => {
            if let Ok(ExecutionResult::Update { updated, .. }) = engine_result {
                let expected = u64::try_from(targets.len()).unwrap_or(u64::MAX);
                assert_eq!(
                    updated, expected,
                    "update-by-predicate count mismatch : `{sql}` \
                 (seed={seed} iter={iter})"
                );
                for id in targets {
                    if let Some(i) = fx.rows.iter().position(|(rid, _)| *rid == id) {
                        let (_, bag) = &mut fx.rows[i];
                        ref_apply_assignments(bag, assigns, &params);
                    }
                }
            } else { /* engine error : ref untouched */
            }
        }
        _ => unreachable!("kind / expectation mismatch ; check_kind drift"),
    }
}

/// Mirror-side expectation paired with each [`CheckKind`].
enum Expectation {
    Count(u64),
    ScanIds(BTreeSet<u64>),
    DeleteByIdExpected(bool),
    DeleteByPredicateTargets(Vec<u64>),
    UpdateByIdExpected(bool),
    UpdateByPredicateTargets(Vec<u64>),
}

/// Walk the mirror state and compute what the engine *should*
/// produce for this kind. Returns `None` when the mirror evaluator
/// can't handle some atom in the predicate (rare ; the caller skips
/// the iteration without touching the engine).
fn compute_expectation(
    kind: &CheckKind<'_>,
    rows: &[(u64, Metadata)],
    params: &ParamBindings,
) -> Option<Expectation> {
    match kind {
        CheckKind::Count { pred } => {
            let mut n = 0_u64;
            for (_id, meta) in rows {
                let pass = match pred {
                    None => true,
                    Some(p) => ref_eval(p, meta, params).ok()?,
                };
                if pass {
                    n += 1;
                }
            }
            Some(Expectation::Count(n))
        }
        CheckKind::ScanAndLimit { pred, .. } => {
            let mut set = BTreeSet::new();
            for (id, meta) in rows {
                if ref_eval(pred, meta, params).ok()? {
                    set.insert(*id);
                }
            }
            Some(Expectation::ScanIds(set))
        }
        CheckKind::DeleteById(target) => Some(Expectation::DeleteByIdExpected(
            rows.iter().any(|(id, _)| id == target),
        )),
        CheckKind::DeleteByPredicate(pred) => {
            let mut targets = Vec::new();
            for (id, meta) in rows {
                if ref_eval(pred, meta, params).ok()? {
                    targets.push(*id);
                }
            }
            Some(Expectation::DeleteByPredicateTargets(targets))
        }
        CheckKind::UpdateById { id, .. } => Some(Expectation::UpdateByIdExpected(
            rows.iter().any(|(rid, _)| rid == id),
        )),
        CheckKind::UpdateByPredicate { pred, .. } => {
            let mut targets = Vec::new();
            for (id, meta) in rows {
                if ref_eval(pred, meta, params).ok()? {
                    targets.push(*id);
                }
            }
            Some(Expectation::UpdateByPredicateTargets(targets))
        }
    }
}

/// Mirror of the engine's `apply_assignments` for the mirror
/// state. Only handles non-subscripted assignments ; the caller's
/// `check_kind` filters subscripted ones out before reaching here.
fn ref_apply_assignments(
    bag: &mut Metadata,
    assigns: &[LogicalAssignment],
    params: &ParamBindings,
) {
    for a in assigns {
        if a.subscript.is_some() {
            // Shouldn't reach ; filtered upstream. Skip defensively.
            continue;
        }
        let Some(v) = ref_resolve_value(&a.value, params) else {
            continue;
        };
        bag.insert(a.field.clone(), v);
    }
}

/// Run the correctness fuzzer for `iterations` rounds. Each round
/// generates a query, runs it through the engine, and (where a
/// correctness check applies) asserts the engine's result matches
/// the mirror.
fn run_correctness(seed: u64, shard_size: usize, iterations: usize) {
    let mut rng = StdRng::seed_from_u64(seed);
    let mut fx = build_fixture(&mut rng, shard_size);
    for iter in 0..iterations {
        correctness_one(&mut fx, &mut rng, seed, iter);
    }
}

#[test]
fn correctness_fuzz_500_iterations() {
    run_correctness(0xFEED_BEEF, 25, 500);
}

#[test]
fn correctness_fuzz_alt_seed() {
    run_correctness(0xBADD_F00D, 25, 500);
}
