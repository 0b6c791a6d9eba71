//! Edge cases of single stages.

use kova_query::assign::apply_assignments;
use kova_query::ast::{
    AstDelete, AstExpr, AstFieldRef, AstLiteral, AstPredicate, AstStatement, CmpOp, DistanceOp,
    OrderDir, ParamRef,
};
use kova_query::binder::bind;
use kova_query::cost::PlanKind;
use kova_query::error::KovaQueryError;
use kova_query::eval::{eval_predicate, lookup_field_value};
use kova_query::executor::{compile, resume, start, Engine};
use kova_query::logical::{
    BoundExpr, BoundLiteral, BoundProjection, FieldRef, IdHint, LogicalAssignment, LogicalQuery,
    LogicalStatement, OrderingSpec, PredAtom, PredicateExpr, ProjectionSpec,
};
use kova_query::params::{NamedValue, ParamBindings, ParamValue, Vector};
use kova_query::parser::{parse_predicate_str, parse_str};
use kova_query::physical::PhysicalPlan;
use kova_query::planner::{
    estimate_of, expand_wildcard, extract_radius_atom, plan_query, plan_statement,
    solo_count_star_name,
};
use kova_query::printer::{print, print_f32, print_f64};
use kova_query::rows::{
    column_name, project_hit, projection_column_names, ExecutionResult, InternalHit, RowValue,
};
use kova_query::select::{keep_hits, nearest_hits, FilterProbe};
use kova_query::steps::{Pending, Reply, Request, Step, StoredRow};
use kova_query::value::{values_cmp, values_eq, Metadata, Value};
use roaring::RoaringTreemap;

fn text(s: &str) -> Value {
    Value::String(s.to_string())
}

fn float(x: f64) -> Value {
    Value::F64(x.to_bits())
}

fn bag(pairs: &[(&str, Value)]) -> Metadata {
    let mut m = Metadata::new();
    for (k, v) in pairs {
        m.insert((*k).to_string(), v.clone());
    }
    m
}

fn vector(components: &[f32]) -> Vector {
    Vector {
        components: components.iter().map(|x| x.to_bits()).collect(),
    }
}

fn predicate(sql: &str) -> PredicateExpr {
    match compile(&format!("DELETE FROM vectors WHERE {sql}")).expect("compile") {
        LogicalStatement::Delete(d) => d.predicate,
        other => panic!("expected Delete, got {other:?}"),
    }
}

fn plan(sql: &str) -> Result<PhysicalPlan, KovaQueryError> {
    plan_statement(compile(sql)?, PlanKind::B)
}

fn bind_error(sql: &str) -> String {
    match compile(sql) {
        Err(KovaQueryError::Bind(m)) => m,
        other => panic!("expected a bind error, got {other:?}"),
    }
}

fn plan_error(sql: &str) -> String {
    match plan(sql) {
        Err(KovaQueryError::Plan(m)) => m,
        other => panic!("expected a plan error, got {other:?}"),
    }
}

// ----- Errors -----

#[test]
fn errors_say_which_stage_failed() {
    let m = || "x".to_string();
    assert_eq!(KovaQueryError::Parse(m()).to_message(), "parse error: x");
    assert_eq!(KovaQueryError::Bind(m()).to_message(), "bind error: x");
    assert_eq!(KovaQueryError::Plan(m()).to_message(), "plan error: x");
    assert_eq!(
        KovaQueryError::Execution(m()).to_message(),
        "execution error: x"
    );
    assert_eq!(
        KovaQueryError::Backend(m()).to_message(),
        "storage backend error"
    );
}

#[test]
fn parse_errors_carry_line_and_column() {
    let Err(KovaQueryError::Parse(m)) = parse_str("SELECT id\nFROM 5") else {
        panic!("expected a parse error");
    };
    assert_eq!(m, "line 2, column 6: unexpected input");
    let Err(KovaQueryError::Parse(m)) = parse_str("VACUUM ") else {
        panic!("expected a parse error");
    };
    assert_eq!(m, "line 1, column 8: unexpected end of input");
}

// ----- Numbers -----

#[test]
fn decimal_literals_round_to_the_nearest_value() {
    for (source, value) in [
        ("0.1", 0.1_f64),
        ("0.30000000000000004", 0.300_000_000_000_000_04),
        ("9007199254740993.0", 9_007_199_254_740_993.0),
        ("2.2250738585072011", 2.225_073_858_507_201_1),
        ("-0.0", -0.0),
        ("123456789.125", 123_456_789.125),
    ] {
        let AstPredicate::Eq(_, AstExpr::Literal(AstLiteral::F64(b))) =
            parse_predicate_str(&format!("x = {source}")).expect("parse")
        else {
            panic!("expected a float for {source}");
        };
        assert_eq!(b, value.to_bits(), "{source}");
    }
    let AstPredicate::DistanceThreshold(_, _, r) =
        parse_predicate_str("embedding <-> $1 < 1.4142135").expect("parse")
    else {
        panic!("expected a threshold");
    };
    assert_eq!(r, 1.414_213_5_f32.to_bits());
}

#[test]
fn floats_print_shortest_and_keep_a_decimal_point() {
    for x in [0.1_f64, 5.0, -2.5, 1e21, 1e-7, 0.300_000_000_000_000_04] {
        let s = print_f64(x.to_bits());
        assert!(s.contains('.'), "{s}");
        assert_eq!(s.parse::<f64>().unwrap().to_bits(), x.to_bits(), "{s}");
    }
    assert_eq!(print_f64(5.0_f64.to_bits()), "5.0");
    assert_eq!(print_f64(0.1_f64.to_bits()), "0.1");
    assert_eq!(print_f32(0.1_f32.to_bits()), "0.1");
    assert_eq!(print_f32(1.414_213_5_f32.to_bits()), "1.4142135");
}

#[test]
fn canonical_text() {
    assert_eq!(print(&parse_str("checkpoint;").unwrap()), "CHECKPOINT");
    let source = "select id, embedding<->$q as d from Vectors where not(a=1 or b<>'x') order by year desc limit 3";
    assert_eq!(
        print(&parse_str(source).unwrap()),
        "SELECT id, embedding <-> $q AS d FROM Vectors WHERE NOT (a = 1 OR b != 'x') ORDER BY year DESC LIMIT 3"
    );
}

// ----- Values -----

#[test]
fn integers_and_floats_compare_by_value() {
    assert!(values_eq(&Value::I64(5), &float(5.0)));
    assert!(values_eq(&float(5.0), &Value::I64(5)));
    assert!(!values_eq(&Value::I64(5), &float(5.5)));
    // Past 2^53 the integer is rounded first.
    assert!(values_eq(
        &Value::I64(9_007_199_254_740_993),
        &float(9_007_199_254_740_992.0)
    ));
    assert_eq!(
        values_cmp(&Value::I64(-3), &float(-2.5), CmpOp::Lt),
        Some(true)
    );
    assert_eq!(
        values_cmp(&Value::I64(i64::MIN), &float(-9.3e18), CmpOp::Gt),
        Some(true)
    );
}

#[test]
fn nan_equals_nothing_and_is_ordered_with_nothing() {
    let nan = float(f64::NAN);
    assert!(!values_eq(&nan, &nan));
    assert_eq!(values_cmp(&nan, &float(1.0), CmpOp::Lt), None);
    assert!(values_eq(&float(0.0), &float(-0.0)));
    assert_eq!(values_cmp(&float(0.0), &float(-0.0), CmpOp::Le), Some(true));
}

#[test]
fn texts_compare_by_character_and_kinds_do_not_mix() {
    assert_eq!(values_cmp(&text("ab"), &text("b"), CmpOp::Lt), Some(true));
    assert_eq!(values_cmp(&text("ab"), &text("abc"), CmpOp::Lt), Some(true));
    assert_eq!(
        values_cmp(&text("\u{ff5e}"), &text("\u{1f600}"), CmpOp::Lt),
        Some(true)
    );
    assert_eq!(values_cmp(&text("1"), &Value::I64(1), CmpOp::Eq), None);
    assert_eq!(
        values_cmp(&Value::Bool(false), &Value::Bool(true), CmpOp::Lt),
        Some(true)
    );
    assert!(!values_eq(&Value::Bool(true), &Value::I64(1)));
}

#[test]
fn bags_are_equal_whatever_their_order() {
    let a = Value::Object(bag(&[("x", Value::I64(1)), ("y", text("z"))]));
    let b = Value::Object(bag(&[("y", text("z")), ("x", Value::I64(1))]));
    assert!(values_eq(&a, &b));
    assert!(values_eq(&b, &a));
    assert!(!values_eq(&a, &Value::Object(bag(&[("x", Value::I64(1))]))));
    assert!(!values_eq(
        &Value::Array(vec![Value::I64(1), Value::I64(2)]),
        &Value::Array(vec![Value::I64(2), Value::I64(1)])
    ));
}

// ----- Parameters -----

#[test]
fn parameter_errors_name_the_slot() {
    let b = ParamBindings::empty().with_positional(ParamValue::Null);
    let message = |p: ParamRef| match b.resolve(&p) {
        Err(KovaQueryError::Execution(m)) => m,
        other => panic!("expected an error, got {other:?}"),
    };
    assert_eq!(
        message(ParamRef::Positional(3)),
        "positional parameter $3 not bound (have 1 value(s))"
    );
    assert_eq!(
        message(ParamRef::Positional(0)),
        "positional parameter $0 is invalid (slots are 1-based)"
    );
    assert_eq!(
        message(ParamRef::Named("who".into())),
        "named parameter $who not bound"
    );
}

#[test]
fn later_named_values_replace_earlier_ones() {
    let b = ParamBindings::named(vec![
        NamedValue {
            name: "a".into(),
            value: ParamValue::I64(1),
        },
        NamedValue {
            name: "a".into(),
            value: ParamValue::I64(2),
        },
    ])
    .with_named("b", ParamValue::Bool(true));
    assert!(matches!(
        b.resolve(&ParamRef::Named("a".into())),
        Ok(ParamValue::I64(2))
    ));
    let c = b.clone();
    assert!(matches!(
        c.resolve(&ParamRef::Named("b".into())),
        Ok(ParamValue::Bool(true))
    ));
}

// ----- Evaluation -----

#[test]
fn evaluation_stops_at_the_first_term_that_decides() {
    let m = bag(&[("a", Value::I64(1))]);
    let none = ParamBindings::empty();
    let run = |sql: &str| eval_predicate(&predicate(sql), &m, &none);
    assert!(matches!(run("a = 2 AND b = $1"), Ok(false)));
    assert!(matches!(run("a = 1 OR b = $1"), Ok(true)));
    assert!(matches!(
        run("a = 1 AND b = $1"),
        Err(KovaQueryError::Execution(_))
    ));
    assert!(matches!(
        run("b = $1 AND a = 2"),
        Err(KovaQueryError::Execution(_))
    ));
}

#[test]
fn absent_fields_satisfy_nothing_but_negations() {
    let m = bag(&[("a", Value::I64(1)), ("o", Value::Object(bag(&[("k", text("v"))])))]);
    let none = ParamBindings::empty();
    let run = |sql: &str| eval_predicate(&predicate(sql), &m, &none).unwrap();
    assert!(!run("b = 1"));
    assert!(!run("b != 1"));
    assert!(run("NOT b = 1"));
    assert!(run("b IS NULL"));
    assert!(!run("a IS NULL"));
    assert!(run("o['k'] = 'v'"));
    assert!(run("o['k'] IS NOT NULL"));
    assert!(run("o['x'] IS NULL"));
    assert!(run("a['x'] IS NULL"));
    assert!(run("a BETWEEN 1 AND 1"));
    assert!(run("a IN (3, 1.0)"));
    assert!(!run("a @> 1"));
    assert!(lookup_field_value(&FieldRef::plain("a"), &m).is_some());
}

#[test]
fn where_parameters_have_to_be_scalars() {
    let m = bag(&[]);
    let p = ParamBindings::empty().with_positional(ParamValue::Id(1));
    let Err(KovaQueryError::Execution(message)) = eval_predicate(&predicate("a = $1"), &m, &p)
    else {
        panic!("expected an error");
    };
    assert_eq!(
        message,
        "parameter in WHERE clause must be a literal type (String/I64/F64/Bool/Null), got Id"
    );
}

// ----- Binding -----

#[test]
fn negations_move_to_the_atoms() {
    let PredicateExpr::Or(terms) = predicate("NOT (a = 1 AND NOT b = 2)") else {
        panic!("expected Or");
    };
    assert!(
        matches!(&terms[0], PredicateExpr::Not(p) if matches!(**p, PredicateExpr::Atom(PredAtom::Eq { .. })))
    );
    assert!(matches!(
        &terms[1],
        PredicateExpr::Atom(PredAtom::Eq { .. })
    ));
}

#[test]
fn nested_combinators_of_one_kind_are_flat() {
    let PredicateExpr::And(terms) = predicate("(a = 1 AND b = 2) AND NOT (c = 3 OR d = 4)") else {
        panic!("expected And");
    };
    assert_eq!(terms.len(), 4);
    assert!(matches!(&terms[3], PredicateExpr::Not(_)));
}

#[test]
fn is_null_is_a_negation() {
    assert!(
        matches!(predicate("a IS NULL"), PredicateExpr::Not(p) if matches!(*p, PredicateExpr::Atom(PredAtom::IsNotNull { .. })))
    );
    assert!(matches!(
        predicate("NOT a IS NULL"),
        PredicateExpr::Atom(PredAtom::IsNotNull { .. })
    ));
}

#[test]
fn equality_has_one_atom() {
    let statement = AstStatement::Delete(AstDelete {
        table: "t".into(),
        predicate: AstPredicate::Cmp(
            AstFieldRef {
                name: "id".into(),
                subscript: None,
            },
            CmpOp::Eq,
            AstExpr::Literal(AstLiteral::I64(7)),
        ),
    });
    let Ok(LogicalStatement::Delete(d)) = bind(statement) else {
        panic!("expected Delete");
    };
    assert!(matches!(
        d.predicate,
        PredicateExpr::Atom(PredAtom::Eq { .. })
    ));
    assert!(matches!(d.single_id_hint, Some(IdHint::Literal(7))));
}

#[test]
fn id_hints() {
    let hint = |sql: &str| match compile(&format!("DELETE FROM t WHERE {sql}")) {
        Ok(LogicalStatement::Delete(d)) => d.single_id_hint,
        other => panic!("expected Delete, got {other:?}"),
    };
    assert!(matches!(hint("id = 7"), Some(IdHint::Literal(7))));
    assert!(matches!(hint("ID = 7"), Some(IdHint::Literal(7))));
    assert!(matches!(
        hint("id = $x"),
        Some(IdHint::Param(ParamRef::Named(_)))
    ));
    assert!(hint("id = -7").is_none());
    assert!(hint("id = 'a'").is_none());
    assert!(hint("NOT id = 7").is_none());
    assert!(hint("id = 7 AND a = 1").is_none());
}

#[test]
fn statements_that_do_not_bind() {
    assert_eq!(
        bind_error("UPDATE t SET a = 1, Embedding = $1 WHERE id = 1"),
        "embeddings are immutable ; UPDATE cannot assign embedding"
    );
    assert_eq!(
        bind_error("SELECT *, id FROM t"),
        "wildcard cannot appear alongside other columns"
    );
    assert_eq!(
        bind_error("SELECT id FROM t ORDER BY embedding <-> $1 DESC LIMIT 1"),
        "distance ordering is ascending only ; DESC is not supported"
    );
    assert_eq!(
        bind_error("SELECT id FROM t ORDER BY embedding <-> $1"),
        "a kNN query (ORDER BY a distance) needs a LIMIT"
    );
    assert_eq!(
        bind_error("SELECT embedding <-> $1 FROM t"),
        "a distance projection needs an alias: `embedding <op> $q AS name`"
    );
    assert_eq!(
        bind_error("INSERT INTO t (id, metadata) VALUES $1"),
        "INSERT takes the columns (id, embedding, metadata)"
    );
    assert_eq!(
        bind_error("INSERT INTO t (id, embedding, metadata) VALUES ($1, $2, 5)"),
        "INSERT takes one row of three parameters"
    );
}

// ----- Planning -----

#[test]
fn plans_that_are_refused() {
    let union = plan_error("SELECT id FROM t WHERE embedding <-> $1 < 0.5 OR a = 1");
    assert!(union.starts_with("OR containing a distance-threshold atom isn't supported"));
    assert!(plan_error("SELECT id FROM t WHERE NOT embedding <-> $1 < 0.5 LIMIT 3")
        .starts_with("distance-threshold predicate in a shape"));
    assert!(plan_error("SELECT id FROM t LIMIT 3").contains("WHERE"));
    assert!(plan_error("SELECT id FROM t").contains("kNN"));
    assert!(plan_error("DELETE FROM t WHERE embedding <-> $1 > 0.5").starts_with("DELETE WHERE"));
    assert!(
        plan_error("UPDATE t SET a = 1 WHERE embedding <-> $1 > 0.5").starts_with("UPDATE WHERE")
    );
    assert!(matches!(
        bind(parse_str("SELECT id FROM t ORDER BY a LIMIT 3").unwrap())
            .and_then(|l| plan_statement(l, PlanKind::A)),
        Err(KovaQueryError::Plan(_))
    ));
}

#[test]
fn estimates_from_counts() {
    let pair = |count, total| {
        let e = estimate_of(count, total);
        (e.matches, e.total)
    };
    assert_eq!(pair(Some(3), 10), (3, 10));
    assert_eq!(pair(None, 10), (0, 10));
    assert_eq!(pair(Some(3), 0), (0, 0));
}

#[test]
fn a_distance_has_to_be_the_first_key() {
    let distance = || OrderingSpec::Distance {
        metric: DistanceOp::L2,
        param: ParamRef::Positional(1),
    };
    let year = || OrderingSpec::Field {
        name: "year".into(),
        dir: OrderDir::Desc,
    };
    let query = |ordering| LogicalQuery {
        from_table: "vectors".into(),
        projection: ProjectionSpec {
            columns: vec![BoundProjection::Id { alias: None }],
        },
        predicate: None,
        ordering,
        limit: Some(5),
    };
    for kind in [PlanKind::A, PlanKind::B, PlanKind::C] {
        assert!(matches!(
            plan_query(query(vec![year(), distance()]), kind),
            Err(KovaQueryError::Plan(_))
        ));
        assert!(plan_query(query(vec![distance()]), kind).is_ok());
    }
    assert!(
        plan_error("SELECT id FROM t WHERE a = 1 ORDER BY year, embedding <-> $1 LIMIT 5")
            .contains("kNN")
    );
}

#[test]
fn the_first_ball_is_taken_out_of_a_conjunction() {
    let p = predicate("a = 1 AND embedding <=> $q <= 0.25 AND embedding <-> $1 < 2.0");
    let e = extract_radius_atom(&p).expect("a ball");
    assert_eq!(e.metric, DistanceOp::Cosine);
    assert_eq!(e.radius, 0.25_f32.to_bits());
    assert!(e.inclusive);
    assert!(matches!(e.residue, Some(PredicateExpr::And(rest)) if rest.len() == 2));
    let p = predicate("embedding <-> $1 < 2.0 AND a = 1");
    let e = extract_radius_atom(&p).expect("a ball");
    assert!(!e.inclusive);
    assert!(matches!(
        e.residue,
        Some(PredicateExpr::Atom(PredAtom::Eq { .. }))
    ));
    assert!(extract_radius_atom(&predicate("embedding <-> $1 >= 2.0")).is_none());
    assert!(extract_radius_atom(&predicate("NOT embedding <-> $1 < 2.0")).is_none());
}

#[test]
fn plan_a_fetches_more_and_the_others_do_not() {
    let sql = "SELECT id FROM t WHERE a = 1 ORDER BY embedding <-> $1 LIMIT 6";
    let inner = |kind: PlanKind| match plan_statement(compile(sql).unwrap(), kind) {
        Ok(PhysicalPlan::Projection { input, .. }) => match *input {
            PhysicalPlan::Limit { input, limit: 6 } => *input,
            other => panic!("expected Limit, got {other:?}"),
        },
        other => panic!("expected Projection, got {other:?}"),
    };
    assert!(matches!(
        inner(PlanKind::A),
        PhysicalPlan::KnnSearch {
            k: 24,
            post_filter: Some(_),
            ..
        }
    ));
    assert!(matches!(
        inner(PlanKind::B),
        PhysicalPlan::ExactDistance { k: 6, .. }
    ));
    assert!(matches!(
        inner(PlanKind::C),
        PhysicalPlan::FilteredKnnSearch { k: 6, .. }
    ));
}

#[test]
fn overfetching_saturates() {
    let sql = "SELECT id FROM t ORDER BY embedding <-> $1 LIMIT 18446744073709551615";
    let Ok(PhysicalPlan::Projection { input, .. }) = plan(sql) else {
        panic!("expected Projection");
    };
    let PhysicalPlan::Limit { input, limit } = *input else {
        panic!("expected Limit");
    };
    assert_eq!(limit, u64::MAX);
    assert!(matches!(
        *input,
        PhysicalPlan::KnnSearch { k: usize::MAX, .. }
    ));
}

#[test]
fn projections() {
    let star = expand_wildcard(ProjectionSpec {
        columns: vec![BoundProjection::Wildcard],
    });
    assert_eq!(projection_column_names(&star), vec!["id", "metadata"]);
    let count = |alias: Option<&str>| ProjectionSpec {
        columns: vec![BoundProjection::CountStar {
            alias: alias.map(str::to_string),
        }],
    };
    assert_eq!(solo_count_star_name(&count(None)).as_deref(), Some("count"));
    assert_eq!(
        solo_count_star_name(&count(Some("n"))).as_deref(),
        Some("n")
    );
    assert_eq!(solo_count_star_name(&star), None);
    assert_eq!(
        column_name(&BoundProjection::MetadataField {
            name: "year".into(),
            alias: None
        }),
        "year"
    );
}

#[test]
fn a_scan_has_no_distance_to_project() {
    let hit = InternalHit {
        id: 3,
        distance: None,
        metadata: bag(&[("a", Value::I64(1))]),
    };
    let spec = |columns| ProjectionSpec { columns };
    let Err(KovaQueryError::Plan(m)) = project_hit(
        &hit,
        &spec(vec![BoundProjection::Distance {
            metric: DistanceOp::L2,
            param: ParamRef::Positional(1),
            alias: "d".into(),
        }]),
    ) else {
        panic!("expected a plan error");
    };
    assert!(m.starts_with("distance projection requires a kNN ordering"));
    let row = project_hit(
        &hit,
        &spec(vec![
            BoundProjection::Id { alias: None },
            BoundProjection::MetadataField {
                name: "a".into(),
                alias: None,
            },
            BoundProjection::MetadataField {
                name: "b".into(),
                alias: None,
            },
        ]),
    )
    .unwrap();
    assert!(matches!(row.values[0], RowValue::Id(3)));
    assert!(matches!(row.values[1], RowValue::Field(Value::I64(1))));
    assert!(matches!(row.values[2], RowValue::Null));
}

// ----- Selection -----

fn hit(id: u64, distance: f32) -> InternalHit {
    InternalHit {
        id,
        distance: Some(distance.to_bits()),
        metadata: bag(&[("n", Value::I64(id as i64))]),
    }
}

fn ids(hits: &[InternalHit]) -> Vec<u64> {
    hits.iter().map(|h| h.id).collect()
}

#[test]
fn a_strict_ball_leaves_its_boundary_out() {
    let hits = || vec![hit(1, 0.5), hit(2, 1.0), hit(3, 1.5)];
    let none = ParamBindings::empty();
    let bound = Some(1.0_f32.to_bits());
    assert_eq!(ids(&keep_hits(hits(), bound, &None, &none).unwrap()), [1]);
    assert_eq!(
        ids(&keep_hits(hits(), None, &Some(predicate("n >= 2")), &none).unwrap()),
        [2, 3]
    );
    // A row beyond the bound is not evaluated.
    assert_eq!(
        ids(&keep_hits(hits(), Some(0.0_f32.to_bits()), &Some(predicate("n = $1")), &none).unwrap()),
        [] as [u64; 0]
    );
    assert!(keep_hits(hits(), bound, &Some(predicate("n = $1")), &none).is_err());
}

#[test]
fn the_nearest_come_first_and_ties_keep_their_order() {
    let hits = || vec![hit(1, 0.0), hit(2, 0.0), hit(3, 0.0), hit(4, 0.0), hit(5, 0.0)];
    let ds: Vec<Option<u32>> = [Some(2.0_f32), Some(1.0), None, Some(1.0), Some(-0.5)]
        .iter()
        .map(|d| d.map(f32::to_bits))
        .collect();
    assert_eq!(ids(&nearest_hits(hits(), &ds, 10)), [5, 2, 4, 1]);
    assert_eq!(ids(&nearest_hits(hits(), &ds, 2)), [5, 2]);
    assert_eq!(ids(&nearest_hits(hits(), &ds, 0)), [] as [u64; 0]);
}

#[test]
fn a_probe_keeps_the_first_error() {
    let none = ParamBindings::empty();
    let mut probe = FilterProbe::new();
    let m = bag(&[("a", Value::I64(1))]);
    assert!(probe.check(&predicate("a = 1"), &m, &none));
    assert!(!probe.check(&predicate("a = 2"), &m, &none));
    assert!(probe.error.is_none());
    assert!(!probe.check(&predicate("a = $1"), &m, &none));
    assert!(!probe.check(&predicate("a = $x"), &m, &none));
    assert!(!probe.check(&predicate("a = 1"), &m, &none));
    let Some(KovaQueryError::Execution(message)) = probe.error else {
        panic!("expected an error");
    };
    assert!(message.contains("$1"));
}

// ----- Assignments -----

fn assign(field: &str, subscript: Option<&str>, value: BoundExpr) -> LogicalAssignment {
    LogicalAssignment {
        field: field.into(),
        subscript: subscript.map(str::to_string),
        value,
    }
}

fn whole(n: i64) -> BoundExpr {
    BoundExpr::Literal(BoundLiteral::I64(n))
}

#[test]
fn assignments_apply_in_order_up_to_the_first_refused() {
    let none = ParamBindings::empty();
    let mut m = bag(&[("a", Value::I64(0)), ("s", text("flat"))]);
    let result = apply_assignments(
        &mut m,
        &vec![
            assign("a", None, whole(1)),
            assign("o", Some("k"), whole(2)),
            assign("s", Some("k"), whole(3)),
            assign("a", None, whole(4)),
        ],
        &none,
    );
    let Err(KovaQueryError::Execution(message)) = result else {
        panic!("expected an error");
    };
    assert_eq!(
        message,
        "subscripted assignment to field 's' : expected a Map value, found a different type ; refusing to overwrite"
    );
    assert_eq!(m.get("a"), Some(&Value::I64(1)));
    assert_eq!(
        m.get("o"),
        Some(&Value::Object(bag(&[("k", Value::I64(2))])))
    );
    assert_eq!(m.get("s"), Some(&text("flat")));
}

#[test]
fn null_is_stored_as_an_empty_list() {
    let mut m = bag(&[]);
    apply_assignments(
        &mut m,
        &vec![assign("a", None, BoundExpr::Literal(BoundLiteral::Null))],
        &ParamBindings::empty(),
    )
    .unwrap();
    assert_eq!(m.get("a"), Some(&Value::Array(Vec::new())));
}

// ----- Execution, step by step -----

fn begin(sql: &str, params: &ParamBindings) -> Result<Step, KovaQueryError> {
    start(plan(sql)?, params, "vectors")
}

fn asked(step: Result<Step, KovaQueryError>) -> (Request, Pending) {
    match step {
        Ok(Step::Ask(request, pending)) => (request, pending),
        other => panic!("expected a request, got {other:?}"),
    }
}

fn execution_error(step: Result<Step, KovaQueryError>) -> String {
    match step {
        Err(KovaQueryError::Execution(m)) => m,
        other => panic!("expected an execution error, got {other:?}"),
    }
}

#[test]
fn other_tables_are_refused_before_anything_is_asked() {
    let none = ParamBindings::empty();
    assert_eq!(
        execution_error(begin("VACUUM products", &none)),
        "unknown table 'products' ; this engine is wrapping 'vectors'"
    );
    assert!(begin("VACUUM VECTORS", &none).is_ok());
    let engine = Engine::new((), "T");
    assert!(engine.assert_table("t").is_ok());
    assert!(engine.assert_table("u").is_err());
    engine.into_shard();
}

#[test]
fn read_operators_have_their_place() {
    let none = ParamBindings::empty();
    let scan = PhysicalPlan::MetadataScan {
        table: "vectors".into(),
        predicate: PredicateExpr::True,
    };
    let Err(KovaQueryError::Plan(m)) = start(scan, &none, "vectors") else {
        panic!("expected a plan error");
    };
    assert_eq!(
        m,
        "read-path operator at top level ; planner must wrap in Projection"
    );
    let wrapped = PhysicalPlan::Projection {
        input: Box::new(PhysicalPlan::Limit {
            input: Box::new(PhysicalPlan::Checkpoint),
            limit: 1,
        }),
        spec: ProjectionSpec { columns: vec![] },
    };
    let Err(KovaQueryError::Plan(m)) = start(wrapped, &none, "vectors") else {
        panic!("expected a plan error");
    };
    assert_eq!(m, "Checkpoint is not a read-path operator");
}

#[test]
fn a_failing_shard_is_a_backend_error() {
    let none = ParamBindings::empty();
    let (request, pending) = asked(begin("CHECKPOINT", &none));
    assert!(matches!(request, Request::Checkpoint));
    assert!(matches!(
        resume(pending, Reply::Failed("disk full".into()), &none),
        Err(KovaQueryError::Backend(m)) if m == "disk full"
    ));
}

#[test]
fn a_reply_has_to_answer_the_request() {
    let none = ParamBindings::empty();
    let (_, pending) = asked(begin("CHECKPOINT", &none));
    assert_eq!(
        execution_error(resume(pending, Reply::Done, &none)),
        "the shard's reply does not answer the request"
    );
    let (request, pending) = asked(begin("DELETE FROM vectors WHERE a = 1", &none));
    assert!(matches!(request, Request::Lookup(ls) if ls.len() == 1));
    assert!(resume(pending, Reply::Answers(vec![]), &none).is_err());
}

#[test]
fn updates_of_missing_rows() {
    let none = ParamBindings::empty();
    let (request, pending) = asked(begin("UPDATE vectors SET a = 1 WHERE id = 5", &none));
    assert!(matches!(request, Request::GetMetadata(ids) if ids == [5]));
    assert_eq!(
        execution_error(resume(pending, Reply::Metadata(vec![None]), &none)),
        "UPDATE target id VectorId(5) not found in metadata store"
    );

    let (_, pending) = asked(begin("UPDATE vectors SET a = 1 WHERE b = 2", &none));
    let answer: RoaringTreemap = [7, 3].into_iter().collect();
    let (request, pending) = asked(resume(pending, Reply::Answers(vec![Some(answer)]), &none));
    assert!(matches!(request, Request::GetMetadata(ids) if ids == [3, 7]));
    assert_eq!(
        execution_error(resume(
            pending,
            Reply::Metadata(vec![Some(bag(&[])), None]),
            &none
        )),
        "id VectorId(7) disappeared from metadata store between scan and update"
    );
}

#[test]
fn an_index_answer_is_counted_without_reading_rows() {
    let none = ParamBindings::empty();
    let (_, pending) = asked(begin("SELECT COUNT(*) FROM vectors WHERE a = 1", &none));
    let answer: RoaringTreemap = [4, u64::MAX, 1 << 40].into_iter().collect();
    let Ok(Step::Done(ExecutionResult::Rows { rows, .. })) =
        resume(pending, Reply::Answers(vec![Some(answer)]), &none)
    else {
        panic!("expected rows");
    };
    assert!(matches!(
        rows[0].values[0],
        RowValue::Field(Value::I64(3))
    ));
}

#[test]
fn candidates_are_fetched_in_order_and_sifted() {
    let none = ParamBindings::empty();
    let (_, pending) = asked(begin("DELETE FROM vectors WHERE a = 1 AND b = 2", &none));
    let answer: RoaringTreemap = [9, 2, 5].into_iter().collect();
    let (request, pending) = asked(resume(
        pending,
        Reply::Answers(vec![Some(answer), None]),
        &none,
    ));
    assert!(matches!(request, Request::GetMetadata(ids) if ids == [2, 5, 9]));
    let row = |b: i64| Some(bag(&[("b", Value::I64(b))]));
    let (request, pending) = asked(resume(
        pending,
        Reply::Metadata(vec![row(2), None, row(3)]),
        &none,
    ));
    assert!(matches!(request, Request::DeleteMany(ids) if ids == [2]));
    assert!(matches!(
        resume(pending, Reply::Count(1), &none),
        Ok(Step::Done(ExecutionResult::Delete { deleted: 1, .. }))
    ));
}

#[test]
fn a_scan_stops_at_the_first_error() {
    let none = ParamBindings::empty();
    let (_, pending) = asked(begin("DELETE FROM vectors WHERE a = $1 OR b = $2", &none));
    let (request, pending) = asked(resume(pending, Reply::Answers(vec![]), &none));
    assert!(matches!(request, Request::ScanMetadata));
    let rows = vec![StoredRow {
        id: 1,
        metadata: bag(&[]),
    }];
    assert_eq!(
        execution_error(resume(pending, Reply::Rows(rows), &none)),
        "positional parameter $1 not bound (have 0 value(s))"
    );
}

#[test]
fn plan_b_measures_what_the_scan_found() {
    let params = ParamBindings::empty().with_positional(ParamValue::Vector(vector(&[1.0, 0.0])));
    let sql = "SELECT id, embedding <-> $1 AS d FROM vectors WHERE a = 1 ORDER BY embedding <-> $1 LIMIT 2";
    let (_, pending) = asked(begin(sql, &params));
    let (_, pending) = asked(resume(pending, Reply::Answers(vec![None]), &params));
    let rows = (1..=4)
        .map(|id| StoredRow {
            id,
            metadata: bag(&[("a", Value::I64(1))]),
        })
        .collect();
    let (request, pending) = asked(resume(pending, Reply::Rows(rows), &params));
    let Request::DistanceTo { query, ids } = request else {
        panic!("expected DistanceTo");
    };
    assert_eq!(query, vector(&[1.0, 0.0]));
    assert_eq!(ids, [1, 2, 3, 4]);
    let ds = [Some(3.0_f32), None, Some(1.0), Some(2.0)]
        .iter()
        .map(|d| d.map(f32::to_bits))
        .collect();
    let Ok(Step::Done(ExecutionResult::Rows { columns, rows })) =
        resume(pending, Reply::Distances(ds), &params)
    else {
        panic!("expected rows");
    };
    assert_eq!(columns, ["id", "d"]);
    assert_eq!(rows.len(), 2);
    assert!(matches!(rows[0].values[0], RowValue::Id(3)));
    assert!(matches!(rows[1].values[1], RowValue::Distance(d) if d == 2.0_f32.to_bits()));
}

#[test]
fn a_radius_search_is_sifted_by_bound_and_rest() {
    let params = ParamBindings::empty().with_positional(ParamValue::Vector(vector(&[1.0])));
    let found = || vec![hit(1, 0.5), hit(2, 1.0), hit(3, 0.25), hit(4, 0.75)];
    let deleted = |sql: &str| {
        let (request, pending) = asked(begin(sql, &params));
        assert!(
            matches!(request, Request::SearchRadius { radius, .. } if radius == 1.0_f32.to_bits())
        );
        match asked(resume(pending, Reply::Hits(found()), &params)).0 {
            Request::DeleteMany(ids) => ids,
            other => panic!("expected DeleteMany, got {other:?}"),
        }
    };
    let strict = "DELETE FROM vectors WHERE n != 1 AND embedding <-> $1 < 1.0 AND n <= 3";
    assert_eq!(deleted(strict), [3]);
    let inclusive = "DELETE FROM vectors WHERE n != 1 AND embedding <-> $1 <= 1.0 AND n <= 3";
    assert_eq!(deleted(inclusive), [2, 3]);

    let sql = "UPDATE vectors SET seen = TRUE WHERE embedding <-> $1 < 1.0 AND n = 4";
    let (_, pending) = asked(begin(sql, &params));
    let (request, _) = asked(resume(pending, Reply::Hits(found()), &params));
    let Request::UpdateMetadata(rows) = request else {
        panic!("expected UpdateMetadata");
    };
    assert_eq!(rows.len(), 1);
    assert_eq!(rows[0].id, 4);
    assert_eq!(rows[0].metadata.get("seen"), Some(&Value::Bool(true)));
    assert_eq!(rows[0].metadata.get("n"), Some(&Value::I64(4)));

    // A second distance cannot be checked on a row.
    let sql = "DELETE FROM vectors WHERE embedding <-> $1 < 1.0 AND embedding <=> $1 < 2.0";
    let (_, pending) = asked(begin(sql, &params));
    assert!(execution_error(resume(pending, Reply::Hits(found()), &params))
        .starts_with("DistanceThreshold predicate"));
}

#[test]
fn a_filter_error_inside_a_walk_is_reported() {
    let params = ParamBindings::empty().with_positional(ParamValue::Vector(vector(&[1.0])));
    let sql = "SELECT id FROM vectors WHERE a = 1 ORDER BY embedding <-> $1 LIMIT 2";
    let plan = plan_statement(compile(sql).unwrap(), PlanKind::C).unwrap();
    let (request, pending) = asked(start(plan, &params, "vectors"));
    assert!(matches!(request, Request::SearchFiltered { k: 2, .. }));
    let error = Some(KovaQueryError::Execution("bad filter".into()));
    assert_eq!(
        execution_error(resume(
            pending,
            Reply::FilteredHits {
                hits: vec![],
                error
            },
            &params
        )),
        "bad filter"
    );
}

#[test]
fn wrong_parameter_kinds_name_slot_and_kind() {
    let params = ParamBindings::empty().with_positional(ParamValue::I64(1));
    assert_eq!(
        execution_error(begin("DELETE FROM vectors WHERE id = $1", &params)),
        "parameter slot 'id' expects Id, got I64"
    );
    assert_eq!(
        execution_error(begin(
            "SELECT id FROM vectors ORDER BY embedding <-> $1 LIMIT 1",
            &params
        )),
        "parameter slot 'query' expects Vector, got I64"
    );
    assert_eq!(
        execution_error(begin(
            "INSERT INTO vectors (id, embedding, metadata) VALUES $1",
            &params
        )),
        "parameter slot 'batch' expects Batch, got I64"
    );
    // The id is looked at before the table.
    assert_eq!(
        execution_error(begin("UPDATE products SET a = 1 WHERE id = $1", &params)),
        "parameter slot 'id' expects Id, got I64"
    );
}
