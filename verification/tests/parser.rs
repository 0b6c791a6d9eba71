use kova_query::ast::{
    AstAssignment, AstCreateIndex, AstDelete, AstDropIndex, AstExpr, AstInsert, AstInsertSource, AstLiteral, AstOrderBy, AstPredicate, AstProjection, AstStatement, AstUpdate, AstVacuum, CmpOp, DistanceOp, IndexMethod, OrderDir, ParamRef,
};
use kova_query::error::KovaQueryError;
use kova_query::parser::{parse_predicate_str, parse_str};

#[test]
fn parses_checkpoint_uppercase() {
    assert!(matches!(
        parse_str("CHECKPOINT"),
        Ok(AstStatement::Checkpoint)
    ));
}

#[test]
fn parses_checkpoint_lowercase() {
    assert!(matches!(
        parse_str("checkpoint"),
        Ok(AstStatement::Checkpoint)
    ));
}

#[test]
fn parses_checkpoint_mixed_case() {
    assert!(matches!(
        parse_str("Checkpoint"),
        Ok(AstStatement::Checkpoint)
    ));
}

#[test]
fn parses_checkpoint_with_trailing_semicolon() {
    assert!(matches!(
        parse_str("CHECKPOINT;"),
        Ok(AstStatement::Checkpoint)
    ));
}

#[test]
fn parses_checkpoint_with_surrounding_whitespace() {
    assert!(matches!(
        parse_str("  CHECKPOINT  "),
        Ok(AstStatement::Checkpoint)
    ));
}

#[test]
fn rejects_empty_input() {
    assert!(matches!(parse_str(""), Err(KovaQueryError::Parse(_))));
}

#[test]
fn rejects_garbage_input() {
    assert!(matches!(
        parse_str("not_a_keyword"),
        Err(KovaQueryError::Parse(_))
    ));
}

#[test]
fn rejects_trailing_garbage_after_checkpoint() {
    assert!(matches!(
        parse_str("CHECKPOINT foo"),
        Err(KovaQueryError::Parse(_))
    ));
}

#[test]
fn parses_vacuum_vectors() {
    let ast = parse_str("VACUUM vectors").expect("parse Ok");
    let AstStatement::Vacuum(AstVacuum { table }) = ast else {
        panic!("expected Vacuum");
    };
    assert_eq!(table, "vectors");
}

#[test]
fn parses_vacuum_is_case_insensitive() {
    let ast = parse_str("vacuum vectors").expect("parse Ok");
    assert!(matches!(
        ast,
        AstStatement::Vacuum(AstVacuum { table }) if table == "vectors"
    ));
}

#[test]
fn parses_vacuum_with_trailing_semicolon() {
    let ast = parse_str("VACUUM vectors;").expect("parse Ok");
    assert!(matches!(ast, AstStatement::Vacuum(_)));
}

#[test]
fn parses_vacuum_preserves_identifier_case() {
    let ast = parse_str("VACUUM MyTable").expect("parse Ok");
    let AstStatement::Vacuum(AstVacuum { table }) = ast else {
        panic!("expected Vacuum");
    };
    assert_eq!(table, "MyTable");
}

#[test]
fn parses_vacuum_accepts_underscores_and_digits_in_identifier() {
    let ast = parse_str("VACUUM my_table_2").expect("parse Ok");
    let AstStatement::Vacuum(AstVacuum { table }) = ast else {
        panic!("expected Vacuum");
    };
    assert_eq!(table, "my_table_2");
}

#[test]
fn rejects_vacuum_without_table() {
    assert!(matches!(parse_str("VACUUM"), Err(KovaQueryError::Parse(_))));
}

#[test]
fn rejects_vacuum_with_digit_leading_identifier() {
    assert!(matches!(
        parse_str("VACUUM 2vectors"),
        Err(KovaQueryError::Parse(_))
    ));
}

// ----- INSERT -----

#[test]
fn parses_insert_with_positional_params() {
    let ast = parse_str("INSERT INTO vectors (id, embedding, metadata) VALUES ($1, $2, $3)")
        .expect("parse Ok");
    let AstStatement::Insert(AstInsert {
        table,
        columns,
        source,
    }) = ast
    else {
        panic!("expected Insert");
    };
    assert_eq!(table, "vectors");
    assert_eq!(columns, vec!["id", "embedding", "metadata"]);
    let AstInsertSource::Rows(rows) = source else {
        panic!("expected Rows");
    };
    assert_eq!(rows.len(), 1);
    assert_eq!(rows[0].len(), 3);
    for (i, expr) in rows[0].iter().enumerate() {
        let AstExpr::Param(ParamRef::Positional(n)) = expr else {
            panic!("expected positional param");
        };
        assert_eq!(*n, u32::try_from(i + 1).unwrap());
    }
}

#[test]
fn parses_insert_with_named_params() {
    let ast = parse_str(
        "INSERT INTO vectors (id, embedding, metadata) VALUES ($id, $embedding, $metadata)",
    )
    .expect("parse Ok");
    let AstStatement::Insert(AstInsert { source, .. }) = ast else {
        panic!("expected Insert");
    };
    let AstInsertSource::Rows(rows) = source else {
        panic!("expected Rows");
    };
    let names: Vec<_> = rows[0]
        .iter()
        .map(|e| {
            let AstExpr::Param(ParamRef::Named(s)) = e else {
                panic!("expected named param");
            };
            s.clone()
        })
        .collect();
    assert_eq!(names, vec!["id", "embedding", "metadata"]);
}

#[test]
fn parses_insert_with_mixed_param_forms() {
    let ast = parse_str("INSERT INTO vectors (id, embedding, metadata) VALUES ($1, $vec, $3)")
        .expect("parse Ok");
    let AstStatement::Insert(AstInsert { source, .. }) = ast else {
        panic!("expected Insert");
    };
    let AstInsertSource::Rows(rows) = source else {
        panic!("expected Rows");
    };
    assert!(matches!(
        rows[0][0],
        AstExpr::Param(ParamRef::Positional(1))
    ));
    assert!(matches!(rows[0][1], AstExpr::Param(ParamRef::Named(ref s)) if s == "vec"));
    assert!(matches!(
        rows[0][2],
        AstExpr::Param(ParamRef::Positional(3))
    ));
}

#[test]
fn parses_insert_batch_form() {
    let ast =
        parse_str("INSERT INTO vectors (id, embedding, metadata) VALUES $1").expect("parse Ok");
    let AstStatement::Insert(AstInsert { source, .. }) = ast else {
        panic!("expected Insert");
    };
    assert!(matches!(
        source,
        AstInsertSource::Param(ParamRef::Positional(1))
    ));
}

#[test]
fn parses_insert_batch_with_named_param() {
    let ast = parse_str("INSERT INTO vectors (id, embedding, metadata) VALUES $batch")
        .expect("parse Ok");
    let AstStatement::Insert(AstInsert { source, .. }) = ast else {
        panic!("expected Insert");
    };
    assert!(matches!(
        source,
        AstInsertSource::Param(ParamRef::Named(ref s)) if s == "batch"
    ));
}

#[test]
fn parses_insert_is_case_insensitive_on_keywords() {
    let ast =
        parse_str("insert into vectors (id, embedding) values ($1, $2)").expect("parse Ok");
    assert!(matches!(ast, AstStatement::Insert(_)));
}

#[test]
fn rejects_insert_without_values_clause() {
    assert!(matches!(
        parse_str("INSERT INTO vectors (id, embedding, metadata)"),
        Err(KovaQueryError::Parse(_))
    ));
}

#[test]
fn rejects_insert_without_column_list() {
    assert!(matches!(
        parse_str("INSERT INTO vectors VALUES ($1)"),
        Err(KovaQueryError::Parse(_))
    ));
}

#[test]
fn rejects_insert_with_whitespace_in_param() {
    // `$ 1` shouldn't parse : param is compound-atomic.
    assert!(matches!(
        parse_str("INSERT INTO vectors (id) VALUES ($ 1)"),
        Err(KovaQueryError::Parse(_))
    ));
}

// ----- CREATE INDEX -----

#[test]
fn parses_create_index_with_name() {
    let ast =
        parse_str("CREATE INDEX idx_cat ON vectors USING HASH (category)").expect("parse Ok");
    let AstStatement::CreateIndex(AstCreateIndex {
        name,
        table,
        method,
        field,
    }) = ast
    else {
        panic!("expected CreateIndex");
    };
    assert_eq!(name.as_deref(), Some("idx_cat"));
    assert_eq!(table, "vectors");
    assert_eq!(method, IndexMethod::Hash);
    assert_eq!(field, "category");
}

#[test]
fn parses_create_index_without_name() {
    let ast = parse_str("CREATE INDEX ON vectors USING BTREE (year)").expect("parse Ok");
    let AstStatement::CreateIndex(AstCreateIndex {
        name,
        table,
        method,
        field,
    }) = ast
    else {
        panic!("expected CreateIndex");
    };
    assert_eq!(name, None);
    assert_eq!(table, "vectors");
    assert_eq!(method, IndexMethod::Btree);
    assert_eq!(field, "year");
}

#[test]
fn parses_create_index_inverted() {
    let ast = parse_str("CREATE INDEX ON vectors USING INVERTED (tags)").expect("parse Ok");
    assert!(matches!(
        ast,
        AstStatement::CreateIndex(AstCreateIndex {
            method: IndexMethod::Inverted,
            ..
        })
    ));
}

#[test]
fn parses_create_index_method_is_case_insensitive() {
    let ast = parse_str("CREATE INDEX ON vectors USING hash (category)").expect("parse Ok");
    assert!(matches!(
        ast,
        AstStatement::CreateIndex(AstCreateIndex {
            method: IndexMethod::Hash,
            ..
        })
    ));
}

#[test]
fn rejects_create_index_without_using_clause() {
    assert!(matches!(
        parse_str("CREATE INDEX ON vectors (category)"),
        Err(KovaQueryError::Parse(_))
    ));
}

#[test]
fn rejects_create_index_with_unknown_method() {
    assert!(matches!(
        parse_str("CREATE INDEX ON vectors USING BLOOM (category)"),
        Err(KovaQueryError::Parse(_))
    ));
}

// ----- DROP INDEX -----

#[test]
fn parses_drop_index() {
    let ast = parse_str("DROP INDEX idx_cat ON vectors").expect("parse Ok");
    let AstStatement::DropIndex(AstDropIndex { name, table }) = ast else {
        panic!("expected DropIndex");
    };
    assert_eq!(name, "idx_cat");
    assert_eq!(table, "vectors");
}

#[test]
fn rejects_drop_index_without_name() {
    assert!(matches!(
        parse_str("DROP INDEX ON vectors"),
        Err(KovaQueryError::Parse(_))
    ));
}

// ----- Predicates : comparison_atom -----

#[test]
fn predicate_eq_with_integer_literal() {
    let p = parse_predicate_str("id = 5").expect("parse Ok");
    let AstPredicate::Eq(field, AstExpr::Literal(AstLiteral::I64(5))) = p else {
        panic!("expected Eq(id, 5), got {p:?}");
    };
    assert_eq!(field.name, "id");
    assert!(field.subscript.is_none());
}

#[test]
fn predicate_eq_with_string_literal() {
    let p = parse_predicate_str("name = 'hello'").expect("parse Ok");
    let AstPredicate::Eq(field, AstExpr::Literal(AstLiteral::String(s))) = p else {
        panic!("expected Eq with string, got {p:?}");
    };
    assert_eq!(field.name, "name");
    assert_eq!(s, "hello");
}

#[test]
fn predicate_eq_with_positional_param() {
    let p = parse_predicate_str("id = $1").expect("parse Ok");
    let AstPredicate::Eq(field, AstExpr::Param(ParamRef::Positional(1))) = p else {
        panic!("expected Eq with param, got {p:?}");
    };
    assert_eq!(field.name, "id");
}

#[test]
fn predicate_eq_with_named_param() {
    let p = parse_predicate_str("id = $target").expect("parse Ok");
    let AstPredicate::Eq(_, AstExpr::Param(ParamRef::Named(s))) = p else {
        panic!("expected Eq with named param, got {p:?}");
    };
    assert_eq!(s, "target");
}

#[test]
fn predicate_eq_with_boolean_literal() {
    let p = parse_predicate_str("pinned = TRUE").expect("parse Ok");
    let AstPredicate::Eq(_, AstExpr::Literal(AstLiteral::Bool(true))) = p else {
        panic!("expected Eq with true, got {p:?}");
    };
}

#[test]
fn predicate_eq_with_null_literal() {
    let p = parse_predicate_str("category = NULL").expect("parse Ok");
    let AstPredicate::Eq(_, AstExpr::Literal(AstLiteral::Null)) = p else {
        panic!("expected Eq with NULL, got {p:?}");
    };
}

#[test]
fn predicate_eq_with_float_literal() {
    let p = parse_predicate_str("score = 2.5").expect("parse Ok");
    let AstPredicate::Eq(_, AstExpr::Literal(AstLiteral::F64(f))) = p else {
        panic!("expected Eq with f64, got {p:?}");
    };
    let f = f64::from_bits(f);
    assert!((f - 2.5).abs() < f64::EPSILON);
}

#[test]
fn predicate_eq_with_negative_integer() {
    let p = parse_predicate_str("delta = -5").expect("parse Ok");
    let AstPredicate::Eq(_, AstExpr::Literal(AstLiteral::I64(-5))) = p else {
        panic!("expected Eq with -5, got {p:?}");
    };
}

#[test]
fn predicate_cmp_lt() {
    let p = parse_predicate_str("year < 2024").expect("parse Ok");
    assert!(matches!(p, AstPredicate::Cmp(_, CmpOp::Lt, _)));
}

#[test]
fn predicate_cmp_le() {
    let p = parse_predicate_str("year <= 2024").expect("parse Ok");
    assert!(matches!(p, AstPredicate::Cmp(_, CmpOp::Le, _)));
}

#[test]
fn predicate_cmp_gt() {
    let p = parse_predicate_str("year > 2024").expect("parse Ok");
    assert!(matches!(p, AstPredicate::Cmp(_, CmpOp::Gt, _)));
}

#[test]
fn predicate_cmp_ge() {
    let p = parse_predicate_str("year >= 2024").expect("parse Ok");
    assert!(matches!(p, AstPredicate::Cmp(_, CmpOp::Ge, _)));
}

#[test]
fn predicate_cmp_ne_bang() {
    let p = parse_predicate_str("year != 2024").expect("parse Ok");
    assert!(matches!(p, AstPredicate::Cmp(_, CmpOp::Ne, _)));
}

#[test]
fn predicate_cmp_ne_angle() {
    let p = parse_predicate_str("year <> 2024").expect("parse Ok");
    assert!(matches!(p, AstPredicate::Cmp(_, CmpOp::Ne, _)));
}

// ----- Predicates : other atom shapes -----

#[test]
fn predicate_in_list_with_strings() {
    let p = parse_predicate_str("category IN ('docs', 'specs', 'rfcs')").expect("parse Ok");
    let AstPredicate::In(field, values) = p else {
        panic!("expected In, got {p:?}");
    };
    assert_eq!(field.name, "category");
    assert_eq!(values.len(), 3);
    assert!(matches!(values[0], AstLiteral::String(ref s) if s == "docs"));
}

#[test]
fn predicate_in_list_with_integers() {
    let p = parse_predicate_str("year IN (2023, 2024, 2025)").expect("parse Ok");
    let AstPredicate::In(_, values) = p else {
        panic!("expected In, got {p:?}");
    };
    assert!(matches!(values[0], AstLiteral::I64(2023)));
}

#[test]
fn predicate_between() {
    let p = parse_predicate_str("score BETWEEN 0.5 AND 1.0").expect("parse Ok");
    let AstPredicate::Between(field, AstLiteral::F64(lo), AstLiteral::F64(hi)) = p else {
        panic!("expected Between, got {p:?}");
    };
    assert_eq!(field.name, "score");
    let (lo, hi) = (f64::from_bits(lo), f64::from_bits(hi));
    assert!((lo - 0.5).abs() < f64::EPSILON);
    assert!((hi - 1.0).abs() < f64::EPSILON);
}

#[test]
fn predicate_is_null() {
    let p = parse_predicate_str("category IS NULL").expect("parse Ok");
    let AstPredicate::IsNull(field, negated) = p else {
        panic!("expected IsNull, got {p:?}");
    };
    assert_eq!(field.name, "category");
    assert!(!negated);
}

#[test]
fn predicate_is_not_null() {
    let p = parse_predicate_str("category IS NOT NULL").expect("parse Ok");
    let AstPredicate::IsNull(_, negated) = p else {
        panic!("expected IsNull, got {p:?}");
    };
    assert!(negated);
}

#[test]
fn predicate_array_contains() {
    let p = parse_predicate_str("tags @> 'rust'").expect("parse Ok");
    let AstPredicate::ArrayContains(field, AstLiteral::String(value)) = p else {
        panic!("expected ArrayContains, got {p:?}");
    };
    assert_eq!(field.name, "tags");
    assert_eq!(value, "rust");
}

// ----- Predicates : subscripted field references -----

/// `WHERE attrs['country'] = 'IN'` parses with the subscript
/// captured on the field side.
#[test]
fn predicate_eq_with_subscripted_field() {
    let p = parse_predicate_str("attrs['country'] = 'IN'").expect("parse Ok");
    let AstPredicate::Eq(field, AstExpr::Literal(AstLiteral::String(s))) = p else {
        panic!("expected Eq, got {p:?}");
    };
    assert_eq!(field.name, "attrs");
    assert_eq!(field.subscript.as_deref(), Some("country"));
    assert_eq!(s, "IN");
}

/// Subscripts work on every atom kind, not just `Eq`. Spot-check
/// `Cmp`, `In`, `Between`, `IsNull`, `@>`.
#[test]
fn predicate_subscripts_work_across_all_atoms() {
    let cases = [
        "attrs['score'] > 0.5",
        "attrs['cat'] IN ('a', 'b')",
        "attrs['year'] BETWEEN 2000 AND 2024",
        "attrs['phone'] IS NOT NULL",
        "attrs['tags'] @> 'rust'",
    ];
    for q in cases {
        let p =
            parse_predicate_str(q).unwrap_or_else(|e| panic!("parse failed for `{q}` : {e:?}"));
        let (AstPredicate::Cmp(field, _, _)
        | AstPredicate::In(field, _)
        | AstPredicate::Between(field, _, _)
        | AstPredicate::IsNull(field, _)
        | AstPredicate::ArrayContains(field, _)) = &p
        else {
            panic!("unexpected variant for `{q}` : {p:?}");
        };
        assert_eq!(field.name, "attrs", "wrong name for `{q}`");
        assert!(
            field.subscript.is_some(),
            "subscript dropped for `{q}` : {p:?}"
        );
    }
}

// ----- Predicates : distance threshold -----

#[test]
fn predicate_distance_threshold_l2() {
    let p = parse_predicate_str("embedding <-> $1 < 0.5").expect("parse Ok");
    let AstPredicate::DistanceThreshold(dist, op, radius) = p else {
        panic!("expected DistanceThreshold, got {p:?}");
    };
    assert_eq!(dist.metric, DistanceOp::L2);
    assert!(matches!(dist.param, ParamRef::Positional(1)));
    assert_eq!(op, CmpOp::Lt);
    let radius = f32::from_bits(radius);
    assert!((radius - 0.5).abs() < f32::EPSILON);
}

#[test]
fn predicate_distance_threshold_cosine() {
    let p = parse_predicate_str("embedding <=> $query <= 0.3").expect("parse Ok");
    let AstPredicate::DistanceThreshold(dist, _, _) = p else {
        panic!("expected DistanceThreshold, got {p:?}");
    };
    assert_eq!(dist.metric, DistanceOp::Cosine);
    assert!(matches!(dist.param, ParamRef::Named(ref s) if s == "query"));
}

#[test]
fn predicate_distance_threshold_inner_product() {
    let p = parse_predicate_str("embedding <#> $1 > -0.1").expect("parse Ok");
    let AstPredicate::DistanceThreshold(dist, _, radius) = p else {
        panic!("expected DistanceThreshold, got {p:?}");
    };
    assert_eq!(dist.metric, DistanceOp::InnerProduct);
    let radius = f32::from_bits(radius);
    assert!((radius - (-0.1)).abs() < f32::EPSILON);
}

// ----- Predicates : boolean combinators -----

#[test]
fn predicate_and_two_terms() {
    let p = parse_predicate_str("a = 1 AND b = 2").expect("parse Ok");
    let AstPredicate::And(children) = p else {
        panic!("expected And, got {p:?}");
    };
    assert_eq!(children.len(), 2);
}

#[test]
fn predicate_or_two_terms() {
    let p = parse_predicate_str("a = 1 OR b = 2").expect("parse Ok");
    let AstPredicate::Or(children) = p else {
        panic!("expected Or, got {p:?}");
    };
    assert_eq!(children.len(), 2);
}

#[test]
fn predicate_and_flattens_three_terms() {
    let p = parse_predicate_str("a = 1 AND b = 2 AND c = 3").expect("parse Ok");
    let AstPredicate::And(children) = p else {
        panic!("expected And, got {p:?}");
    };
    assert_eq!(children.len(), 3, "AND chain should flatten");
}

#[test]
fn predicate_not_single_atom() {
    let p = parse_predicate_str("NOT a = 1").expect("parse Ok");
    let AstPredicate::Not(inner) = p else {
        panic!("expected Not, got {p:?}");
    };
    assert!(matches!(*inner, AstPredicate::Eq(_, _)));
}

#[test]
fn predicate_double_negation() {
    let p = parse_predicate_str("NOT NOT a = 1").expect("parse Ok");
    let AstPredicate::Not(outer) = p else {
        panic!("expected outer Not, got {p:?}");
    };
    assert!(matches!(*outer, AstPredicate::Not(_)));
}

#[test]
fn predicate_precedence_and_binds_tighter_than_or() {
    // `a = 1 AND b = 2 OR c = 3` parses as `(a AND b) OR c`.
    let p = parse_predicate_str("a = 1 AND b = 2 OR c = 3").expect("parse Ok");
    let AstPredicate::Or(children) = p else {
        panic!("expected top-level Or, got {p:?}");
    };
    assert_eq!(children.len(), 2);
    assert!(
        matches!(children[0], AstPredicate::And(_)),
        "left of OR should be the AND group"
    );
    assert!(matches!(children[1], AstPredicate::Eq(_, _)));
}

#[test]
fn predicate_parens_override_precedence() {
    // `(a = 1 OR b = 2) AND c = 3` parses as And(Or, Eq).
    let p = parse_predicate_str("(a = 1 OR b = 2) AND c = 3").expect("parse Ok");
    let AstPredicate::And(children) = p else {
        panic!("expected top-level And, got {p:?}");
    };
    assert!(matches!(children[0], AstPredicate::Or(_)));
    assert!(matches!(children[1], AstPredicate::Eq(_, _)));
}

#[test]
fn predicate_single_atom_does_not_wrap_in_combinators() {
    // A bare atom should NOT come out as `And([atom])` or `Or([atom])`.
    let p = parse_predicate_str("x = 1").expect("parse Ok");
    assert!(matches!(p, AstPredicate::Eq(_, _)));
}

// ----- Predicates : error paths -----

#[test]
fn rejects_predicate_missing_operator() {
    assert!(matches!(
        parse_predicate_str("x"),
        Err(KovaQueryError::Parse(_))
    ));
}

#[test]
fn rejects_predicate_unbalanced_parens() {
    assert!(matches!(
        parse_predicate_str("(x = 1"),
        Err(KovaQueryError::Parse(_))
    ));
}

#[test]
fn rejects_keyword_as_field_name() {
    // `AND` is a reserved keyword ; can't be an identifier.
    assert!(matches!(
        parse_predicate_str("AND = 1"),
        Err(KovaQueryError::Parse(_))
    ));
}

// ----- DELETE -----

#[test]
fn parses_delete_by_id_equality() {
    let ast = parse_str("DELETE FROM vectors WHERE id = $1").expect("parse Ok");
    let AstStatement::Delete(AstDelete { table, predicate }) = ast else {
        panic!("expected Delete");
    };
    assert_eq!(table, "vectors");
    let AstPredicate::Eq(field, AstExpr::Param(ParamRef::Positional(1))) = predicate else {
        panic!("expected Eq(id, $1), got {predicate:?}");
    };
    assert_eq!(field.name, "id");
}

#[test]
fn parses_delete_with_compound_predicate() {
    let ast = parse_str("DELETE FROM vectors WHERE category = 'archived' AND year < 2020")
        .expect("parse Ok");
    let AstStatement::Delete(AstDelete { predicate, .. }) = ast else {
        panic!("expected Delete");
    };
    let AstPredicate::And(children) = predicate else {
        panic!("expected And, got {predicate:?}");
    };
    assert_eq!(children.len(), 2);
}

#[test]
fn parses_delete_with_in_list() {
    let ast =
        parse_str("DELETE FROM vectors WHERE category IN ('old', 'archived', 'deprecated')")
            .expect("parse Ok");
    let AstStatement::Delete(AstDelete { predicate, .. }) = ast else {
        panic!("expected Delete");
    };
    let AstPredicate::In(field, values) = predicate else {
        panic!("expected In, got {predicate:?}");
    };
    assert_eq!(field.name, "category");
    assert_eq!(values.len(), 3);
}

#[test]
fn parses_delete_with_is_not_null() {
    let ast = parse_str("DELETE FROM vectors WHERE deleted_at IS NOT NULL").expect("parse Ok");
    let AstStatement::Delete(AstDelete { predicate, .. }) = ast else {
        panic!("expected Delete");
    };
    assert!(matches!(predicate, AstPredicate::IsNull(_, true)));
}

#[test]
fn parses_delete_with_trailing_semicolon() {
    let ast = parse_str("DELETE FROM vectors WHERE id = $1;").expect("parse Ok");
    assert!(matches!(ast, AstStatement::Delete(_)));
}

#[test]
fn parses_delete_is_case_insensitive_on_keywords() {
    let ast = parse_str("delete from vectors where id = $1").expect("parse Ok");
    assert!(matches!(ast, AstStatement::Delete(_)));
}

#[test]
fn rejects_delete_without_where_clause() {
    // Mandatory-WHERE is the safety guard against accidental
    // table-wide deletes.
    assert!(matches!(
        parse_str("DELETE FROM vectors"),
        Err(KovaQueryError::Parse(_))
    ));
}

#[test]
fn rejects_delete_without_from_keyword() {
    assert!(matches!(
        parse_str("DELETE vectors WHERE id = $1"),
        Err(KovaQueryError::Parse(_))
    ));
}

#[test]
fn rejects_delete_without_table() {
    assert!(matches!(
        parse_str("DELETE FROM WHERE id = $1"),
        Err(KovaQueryError::Parse(_))
    ));
}

// ----- UPDATE -----

#[test]
fn parses_update_whole_metadata_replace() {
    let ast = parse_str("UPDATE vectors SET metadata = $1 WHERE id = $2").expect("parse Ok");
    let AstStatement::Update(AstUpdate {
        table,
        assignments,
        predicate,
    }) = ast
    else {
        panic!("expected Update");
    };
    assert_eq!(table, "vectors");
    assert_eq!(assignments.len(), 1);
    let AstAssignment {
        field,
        subscript,
        value,
    } = &assignments[0];
    assert_eq!(field, "metadata");
    assert_eq!(subscript.as_deref(), None);
    assert!(matches!(value, AstExpr::Param(ParamRef::Positional(1))));
    assert!(matches!(predicate, AstPredicate::Eq(_, _)));
}

#[test]
fn parses_update_with_subscript_patch() {
    let ast = parse_str("UPDATE vectors SET metadata['priority'] = 'high' WHERE id = $1")
        .expect("parse Ok");
    let AstStatement::Update(AstUpdate { assignments, .. }) = ast else {
        panic!("expected Update");
    };
    let AstAssignment {
        field,
        subscript,
        value,
    } = &assignments[0];
    assert_eq!(field, "metadata");
    assert_eq!(subscript.as_deref(), Some("priority"));
    assert!(matches!(
        value,
        AstExpr::Literal(AstLiteral::String(s)) if s == "high"
    ));
}

#[test]
fn parses_update_with_multiple_assignments() {
    let ast =
        parse_str("UPDATE vectors SET metadata['a'] = 'x', metadata['b'] = 'y' WHERE id = $1")
            .expect("parse Ok");
    let AstStatement::Update(AstUpdate { assignments, .. }) = ast else {
        panic!("expected Update");
    };
    assert_eq!(assignments.len(), 2);
    assert_eq!(assignments[0].subscript.as_deref(), Some("a"));
    assert_eq!(assignments[1].subscript.as_deref(), Some("b"));
}

#[test]
fn parses_update_is_case_insensitive_on_keywords() {
    let ast = parse_str("update vectors set metadata = $1 where id = $2").expect("parse Ok");
    assert!(matches!(ast, AstStatement::Update(_)));
}

#[test]
fn rejects_update_without_set_clause() {
    assert!(matches!(
        parse_str("UPDATE vectors WHERE id = $1"),
        Err(KovaQueryError::Parse(_))
    ));
}

#[test]
fn rejects_update_without_where_clause() {
    assert!(matches!(
        parse_str("UPDATE vectors SET metadata = $1"),
        Err(KovaQueryError::Parse(_))
    ));
}

#[test]
fn rejects_update_with_empty_set_list() {
    assert!(matches!(
        parse_str("UPDATE vectors SET WHERE id = $1"),
        Err(KovaQueryError::Parse(_))
    ));
}

// ----- SELECT -----

#[test]
fn parses_select_star() {
    let ast = parse_str("SELECT * FROM vectors").expect("parse Ok");
    let AstStatement::Select(q) = ast else {
        panic!("expected Select");
    };
    assert_eq!(q.projection.len(), 1);
    assert!(matches!(q.projection[0], AstProjection::Wildcard));
    assert_eq!(q.from_table, "vectors");
    assert!(q.predicate.is_none());
    assert!(q.order_by.is_empty());
    assert_eq!(q.limit, None);
}

#[test]
fn parses_select_id_and_metadata_route_to_typed_variants() {
    let ast = parse_str("SELECT id, metadata FROM vectors").expect("parse Ok");
    let AstStatement::Select(q) = ast else {
        panic!("expected Select");
    };
    assert!(matches!(q.projection[0], AstProjection::Id));
    assert!(matches!(q.projection[1], AstProjection::Metadata));
}

#[test]
fn parses_select_regular_field_uses_field_variant() {
    let ast = parse_str("SELECT category, year FROM vectors").expect("parse Ok");
    let AstStatement::Select(q) = ast else {
        panic!("expected Select");
    };
    let names: Vec<String> = q
        .projection
        .iter()
        .map(|p| match p {
            AstProjection::Field(s) => s.clone(),
            other => panic!("expected Field, got {other:?}"),
        })
        .collect();
    assert_eq!(names, vec!["category", "year"]);
}

#[test]
fn parses_select_distance_expression_with_alias() {
    let ast =
        parse_str("SELECT embedding <-> $query AS distance FROM vectors").expect("parse Ok");
    let AstStatement::Select(q) = ast else {
        panic!("expected Select");
    };
    let AstProjection::Aliased(inner, alias) = &q.projection[0] else {
        panic!("expected Aliased");
    };
    assert_eq!(alias, "distance");
    let AstProjection::DistanceExpr(dist) = inner.as_ref() else {
        panic!("expected DistanceExpr inside Aliased");
    };
    assert_eq!(dist.metric, DistanceOp::L2);
    assert!(matches!(dist.param, ParamRef::Named(ref s) if s == "query"));
}

#[test]
fn parses_select_count_star() {
    let ast =
        parse_str("SELECT COUNT(*) FROM vectors WHERE category = 'docs'").expect("parse Ok");
    let AstStatement::Select(q) = ast else {
        panic!("expected Select");
    };
    assert!(matches!(q.projection[0], AstProjection::CountStar));
    assert!(q.predicate.is_some());
}

#[test]
fn parses_select_with_where_clause() {
    let ast = parse_str("SELECT id FROM vectors WHERE id = $1").expect("parse Ok");
    let AstStatement::Select(q) = ast else {
        panic!("expected Select");
    };
    assert!(matches!(q.predicate, Some(AstPredicate::Eq(_, _))));
}

#[test]
fn parses_select_with_order_by_field_desc() {
    let ast = parse_str("SELECT id FROM vectors ORDER BY year DESC").expect("parse Ok");
    let AstStatement::Select(q) = ast else {
        panic!("expected Select");
    };
    assert_eq!(q.order_by.len(), 1);
    let AstOrderBy::Field(name, dir) = &q.order_by[0] else {
        panic!("expected Field ordering");
    };
    assert_eq!(name, "year");
    assert_eq!(*dir, OrderDir::Desc);
}

#[test]
fn parses_select_with_order_by_distance_default_asc() {
    let ast = parse_str("SELECT id FROM vectors ORDER BY embedding <-> $1").expect("parse Ok");
    let AstStatement::Select(q) = ast else {
        panic!("expected Select");
    };
    let AstOrderBy::Distance(dist, dir) = &q.order_by[0] else {
        panic!("expected Distance ordering");
    };
    assert_eq!(dist.metric, DistanceOp::L2);
    assert_eq!(*dir, OrderDir::Asc, "missing direction defaults to Asc");
}

#[test]
fn parses_select_with_multiple_order_by_items() {
    let ast =
        parse_str("SELECT id FROM vectors ORDER BY year DESC, score ASC").expect("parse Ok");
    let AstStatement::Select(q) = ast else {
        panic!("expected Select");
    };
    assert_eq!(q.order_by.len(), 2);
}

#[test]
fn parses_select_with_limit() {
    let ast = parse_str("SELECT id FROM vectors LIMIT 100").expect("parse Ok");
    let AstStatement::Select(q) = ast else {
        panic!("expected Select");
    };
    assert_eq!(q.limit, Some(100));
}

#[test]
fn parses_select_full_hybrid_query() {
    // The canonical hybrid kNN + predicate + ranking query.
    let ast = parse_str(
        "SELECT id, embedding <-> $1 AS distance, metadata FROM vectors \
         WHERE category = 'docs' AND year >= 2024 \
         ORDER BY embedding <-> $1 LIMIT 10",
    )
    .expect("parse Ok");
    let AstStatement::Select(q) = ast else {
        panic!("expected Select");
    };
    assert_eq!(q.projection.len(), 3);
    assert!(matches!(q.projection[0], AstProjection::Id));
    assert!(matches!(q.projection[1], AstProjection::Aliased(_, _)));
    assert!(matches!(q.projection[2], AstProjection::Metadata));
    assert_eq!(q.from_table, "vectors");
    assert!(matches!(q.predicate, Some(AstPredicate::And(_))));
    assert_eq!(q.order_by.len(), 1);
    assert_eq!(q.limit, Some(10));
}

#[test]
fn parses_select_is_case_insensitive_on_keywords() {
    let ast = parse_str("select id from vectors where id = $1 order by year desc limit 5")
        .expect("parse Ok");
    assert!(matches!(ast, AstStatement::Select(_)));
}

#[test]
fn rejects_select_without_from_clause() {
    assert!(matches!(
        parse_str("SELECT id"),
        Err(KovaQueryError::Parse(_))
    ));
}

#[test]
fn rejects_select_with_empty_projection() {
    assert!(matches!(
        parse_str("SELECT FROM vectors"),
        Err(KovaQueryError::Parse(_))
    ));
}

#[test]
fn rejects_select_with_non_integer_limit() {
    assert!(matches!(
        parse_str("SELECT id FROM vectors LIMIT 1.5"),
        Err(KovaQueryError::Parse(_))
    ));
}
