//! Predicates answered through indexes.

use kova_query::ast::CmpOp;
use kova_query::index_eval::{lookups, IndexAtom, IndexCmpOp, IndexEval, Lookup};
use kova_query::logical::{BoundExpr, BoundLiteral, FieldRef, PredAtom, PredicateExpr};
use kova_query::params::ParamBindings;
use kova_query::value::{values_cmp, values_eq, Metadata, Value};
use roaring::RoaringTreemap;

/// Indexes over rows, each on one field.
struct IndexCatalog {
    fields: Vec<String>,
    rows: Vec<(u64, Metadata)>,
}

impl IndexCatalog {
    fn new() -> IndexCatalog {
        IndexCatalog {
            fields: Vec::new(),
            rows: Vec::new(),
        }
    }

    fn add_hash_index(&mut self, field: &str) {
        self.fields.push(field.to_string());
    }

    fn add_btree_index(&mut self, field: &str) {
        self.fields.push(field.to_string());
    }

    fn on_insert(&mut self, id: u64, metadata: &Metadata) {
        self.rows.push((id, metadata.clone()));
    }

    fn lookup(&self, lookup: &Lookup) -> Option<RoaringTreemap> {
        if !self.fields.contains(&lookup.field) {
            return None;
        }
        Some(
            self.rows
                .iter()
                .filter(|(_, m)| match (m.get(&lookup.field), &lookup.atom) {
                    (Some(v), IndexAtom::Eq(w)) => values_eq(v, w),
                    (Some(v), IndexAtom::Cmp(IndexCmpOp::Ge, w)) => {
                        values_cmp(v, w, CmpOp::Ge) == Some(true)
                    }
                    (None, _) => false,
                    other => panic!("unexpected lookup {other:?}"),
                })
                .map(|(id, _)| *id)
                .collect(),
        )
    }
}

fn try_index_eval(
    pred: &PredicateExpr,
    catalog: &IndexCatalog,
    params: &ParamBindings,
) -> IndexEval {
    let answers = lookups(pred, params)
        .iter()
        .map(|l| catalog.lookup(l))
        .collect();
    kova_query::index_eval::try_index_eval(pred, answers, params)
}

fn s(x: &str) -> Value {
    Value::String(x.into())
}
fn i(n: i64) -> Value {
    Value::I64(n)
}
fn lit_s(x: &str) -> BoundExpr {
    BoundExpr::Literal(BoundLiteral::String(x.into()))
}
fn lit_i(n: i64) -> BoundExpr {
    BoundExpr::Literal(BoundLiteral::I64(n))
}
fn field(name: &str) -> FieldRef {
    FieldRef::plain(name)
}
fn eq_atom(name: &str, value: BoundExpr) -> PredicateExpr {
    PredicateExpr::Atom(PredAtom::Eq {
        field: field(name),
        value,
    })
}

fn fresh_catalog(field: &str) -> IndexCatalog {
    let mut cat = IndexCatalog::new();
    cat.add_hash_index(field);
    cat
}

fn id(n: u64) -> u64 {
    n
}

fn meta_with(pairs: &[(&str, Value)]) -> Metadata {
    let mut m = Metadata::new();
    for (k, v) in pairs {
        m.insert((*k).to_string(), v.clone());
    }
    m
}

fn populate(cat: &mut IndexCatalog) {
    cat.on_insert(id(0), &meta_with(&[("category", s("docs"))]));
    cat.on_insert(id(1), &meta_with(&[("category", s("blog"))]));
    cat.on_insert(id(2), &meta_with(&[("category", s("docs"))]));
}

#[test]
fn eq_on_indexed_field_returns_full() {
    let mut cat = fresh_catalog("category");
    populate(&mut cat);
    let pred = eq_atom("category", lit_s("docs"));
    let params = ParamBindings::empty();
    let r = try_index_eval(&pred, &cat, &params);
    match r {
        IndexEval::Full(bm) => {
            assert_eq!(bm.len(), 2);
            assert!(bm.contains(0));
            assert!(bm.contains(2));
        }
        other => panic!("expected Full, got {other:?}"),
    }
}

#[test]
fn eq_on_unindexed_field_falls_back() {
    let cat = IndexCatalog::new(); // empty catalog
    let pred = eq_atom("category", lit_s("docs"));
    let params = ParamBindings::empty();
    assert!(matches!(
        try_index_eval(&pred, &cat, &params),
        IndexEval::Fallback
    ));
}

#[test]
fn subscripted_field_falls_back() {
    let cat = fresh_catalog("attrs");
    let pred = PredicateExpr::Atom(PredAtom::Eq {
        field: FieldRef {
            name: "attrs".into(),
            subscript: Some("key".into()),
        },
        value: lit_s("docs"),
    });
    let params = ParamBindings::empty();
    assert!(matches!(
        try_index_eval(&pred, &cat, &params),
        IndexEval::Fallback
    ));
}

#[test]
fn and_of_two_indexed_atoms_is_full() {
    let mut cat = IndexCatalog::new();
    cat.add_hash_index("category");
    cat.add_btree_index("year");
    cat.on_insert(
        id(0),
        &meta_with(&[("category", s("docs")), ("year", i(2024))]),
    );
    cat.on_insert(
        id(1),
        &meta_with(&[("category", s("blog")), ("year", i(2024))]),
    );
    cat.on_insert(
        id(2),
        &meta_with(&[("category", s("docs")), ("year", i(2020))]),
    );

    let pred = PredicateExpr::And(vec![
        eq_atom("category", lit_s("docs")),
        PredicateExpr::Atom(PredAtom::Cmp {
            field: field("year"),
            op: CmpOp::Ge,
            value: lit_i(2023),
        }),
    ]);
    let params = ParamBindings::empty();
    match try_index_eval(&pred, &cat, &params) {
        IndexEval::Full(bm) => {
            assert_eq!(bm.len(), 1);
            assert!(bm.contains(0));
        }
        other => panic!("expected Full, got {other:?}"),
    }
}

#[test]
fn and_with_one_unindexed_atom_is_hybrid() {
    let mut cat = fresh_catalog("category");
    cat.on_insert(id(0), &meta_with(&[("category", s("docs"))]));
    cat.on_insert(id(1), &meta_with(&[("category", s("docs"))]));

    let pred = PredicateExpr::And(vec![
        eq_atom("category", lit_s("docs")),
        // `priority` isn't indexed.
        eq_atom("priority", lit_i(5)),
    ]);
    let params = ParamBindings::empty();
    match try_index_eval(&pred, &cat, &params) {
        IndexEval::Hybrid {
            candidates,
            residue,
        } => {
            assert_eq!(candidates.len(), 2);
            // Single residue lifts out of the And wrapper.
            match residue {
                PredicateExpr::Atom(PredAtom::Eq { field: f, .. }) => {
                    assert_eq!(f.name, "priority");
                }
                other => panic!("expected residue atom on priority, got {other:?}"),
            }
        }
        other => panic!("expected Hybrid, got {other:?}"),
    }
}

#[test]
fn and_with_all_unindexed_atoms_falls_back() {
    let cat = IndexCatalog::new();
    let pred = PredicateExpr::And(vec![eq_atom("foo", lit_s("a")), eq_atom("bar", lit_s("b"))]);
    let params = ParamBindings::empty();
    assert!(matches!(
        try_index_eval(&pred, &cat, &params),
        IndexEval::Fallback
    ));
}

#[test]
fn or_of_all_indexed_atoms_is_full() {
    let mut cat = fresh_catalog("category");
    cat.on_insert(id(0), &meta_with(&[("category", s("docs"))]));
    cat.on_insert(id(1), &meta_with(&[("category", s("blog"))]));
    cat.on_insert(id(2), &meta_with(&[("category", s("code"))]));

    let pred = PredicateExpr::Or(vec![
        eq_atom("category", lit_s("docs")),
        eq_atom("category", lit_s("code")),
    ]);
    let params = ParamBindings::empty();
    match try_index_eval(&pred, &cat, &params) {
        IndexEval::Full(bm) => {
            assert_eq!(bm.len(), 2);
            assert!(bm.contains(0));
            assert!(bm.contains(2));
            assert!(!bm.contains(1));
        }
        other => panic!("expected Full, got {other:?}"),
    }
}

#[test]
fn or_with_unindexed_branch_falls_back() {
    let mut cat = fresh_catalog("category");
    populate(&mut cat);

    let pred = PredicateExpr::Or(vec![
        eq_atom("category", lit_s("docs")),
        // priority isn't indexed
        eq_atom("priority", lit_i(5)),
    ]);
    let params = ParamBindings::empty();
    assert!(matches!(
        try_index_eval(&pred, &cat, &params),
        IndexEval::Fallback
    ));
}

#[test]
fn not_falls_back_unconditionally() {
    let mut cat = fresh_catalog("category");
    populate(&mut cat);

    let pred = PredicateExpr::Not(Box::new(eq_atom("category", lit_s("docs"))));
    let params = ParamBindings::empty();
    assert!(matches!(
        try_index_eval(&pred, &cat, &params),
        IndexEval::Fallback
    ));
}

fn listed(bm: &RoaringTreemap) -> Vec<u64> {
    bm.iter().collect()
}

fn set_of(ids: &[u64]) -> Option<RoaringTreemap> {
    Some(ids.iter().copied().collect())
}

#[test]
fn intersection_and_union_of_answers() {
    let params = ParamBindings::empty();
    let pair = || vec![eq_atom("a", lit_i(1)), eq_atom("b", lit_i(2))];
    let answers = || vec![set_of(&[1, 2, 3, 900]), set_of(&[2, 3, 5, 900])];
    match kova_query::index_eval::try_index_eval(&PredicateExpr::And(pair()), answers(), &params) {
        IndexEval::Full(bm) => assert_eq!(listed(&bm), vec![2, 3, 900]),
        other => panic!("expected Full, got {other:?}"),
    }
    match kova_query::index_eval::try_index_eval(&PredicateExpr::Or(pair()), answers(), &params) {
        IndexEval::Full(bm) => assert_eq!(listed(&bm), vec![1, 2, 3, 5, 900]),
        other => panic!("expected Full, got {other:?}"),
    }
}

#[test]
fn residues_keep_their_order() {
    let pred = PredicateExpr::And(vec![
        eq_atom("x", lit_i(1)),
        eq_atom("a", lit_i(2)),
        PredicateExpr::Not(Box::new(eq_atom("y", lit_i(3)))),
    ]);
    let params = ParamBindings::empty();
    let answers = vec![None, set_of(&[7])];
    assert_eq!(lookups(&pred, &params).len(), 2);
    match kova_query::index_eval::try_index_eval(&pred, answers, &params) {
        IndexEval::Hybrid {
            candidates,
            residue: PredicateExpr::And(rest),
        } => {
            assert_eq!(listed(&candidates), vec![7]);
            assert_eq!(rest.len(), 2);
            assert!(
                matches!(&rest[0], PredicateExpr::Atom(PredAtom::Eq { field, .. }) if field.name == "x")
            );
            assert!(matches!(&rest[1], PredicateExpr::Not(_)));
        }
        other => panic!("expected Hybrid, got {other:?}"),
    }
}

#[test]
fn answers_after_a_poisoned_or_still_line_up() {
    // The OR falls back at its first branch; the answer behind it belongs to
    // the last term.
    let pred = PredicateExpr::And(vec![
        PredicateExpr::Or(vec![eq_atom("x", lit_i(1)), eq_atom("a", lit_i(2))]),
        eq_atom("b", lit_i(3)),
    ]);
    let params = ParamBindings::empty();
    let answers = vec![None, set_of(&[1]), set_of(&[4, 6])];
    match kova_query::index_eval::try_index_eval(&pred, answers, &params) {
        IndexEval::Hybrid {
            candidates,
            residue: PredicateExpr::Or(_),
        } => assert_eq!(listed(&candidates), vec![4, 6]),
        other => panic!("expected Hybrid, got {other:?}"),
    }
}

#[test]
fn unanswerable_atoms_are_not_asked() {
    let params = ParamBindings::empty();
    let null = eq_atom("a", BoundExpr::Literal(BoundLiteral::Null));
    assert!(lookups(&null, &params).is_empty());
    let in_null = PredicateExpr::Atom(PredAtom::In {
        field: field("a"),
        values: vec![BoundLiteral::I64(1), BoundLiteral::Null],
    });
    assert!(lookups(&in_null, &params).is_empty());
    let equal = PredicateExpr::Atom(PredAtom::Cmp {
        field: field("a"),
        op: CmpOp::Eq,
        value: lit_i(1),
    });
    assert!(lookups(&equal, &params).is_empty());
    let between = PredicateExpr::Atom(PredAtom::Between {
        field: field("a"),
        lo: BoundLiteral::I64(1),
        hi: BoundLiteral::I64(9),
    });
    let asked = lookups(&between, &params);
    assert!(matches!(
        &asked[0].atom,
        IndexAtom::Between(Value::I64(1), Value::I64(9))
    ));
}
