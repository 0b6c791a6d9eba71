use kova_query::parser::parse_str;
use kova_query::printer::print;

/// Idempotency check : parse, print, re-parse, print again ;
/// the two printed strings must match. This catches lossy
/// printers (info dropped between AST and string), ambiguous
/// grammars (different ASTs printing the same string), and
/// non-canonical print output (parens grow each round).
fn assert_roundtrip(input: &str) {
    let ast1 = parse_str(input).expect("first parse");
    let s1 = print(&ast1);
    let ast2 =
        parse_str(&s1).unwrap_or_else(|e| panic!("re-parse of printed output {s1:?}: {}", e.to_message()));
    let s2 = print(&ast2);
    assert_eq!(s1, s2, "print is not idempotent under round-trip");
}

// ----- Statement-level -----

#[test]
fn roundtrip_checkpoint() {
    assert_roundtrip("CHECKPOINT");
}

#[test]
fn roundtrip_vacuum() {
    assert_roundtrip("VACUUM vectors");
}

#[test]
fn roundtrip_insert_with_positional_params() {
    assert_roundtrip("INSERT INTO vectors (id, embedding, metadata) VALUES ($1, $2, $3)");
}

#[test]
fn roundtrip_insert_with_named_params() {
    assert_roundtrip(
        "INSERT INTO vectors (id, embedding, metadata) VALUES ($id, $embed, $meta)",
    );
}

#[test]
fn roundtrip_insert_batch_form() {
    assert_roundtrip("INSERT INTO vectors (id, embedding, metadata) VALUES $1");
}

#[test]
fn roundtrip_update_simple() {
    assert_roundtrip("UPDATE vectors SET metadata = $1 WHERE id = $2");
}

#[test]
fn roundtrip_update_with_subscript() {
    assert_roundtrip("UPDATE vectors SET metadata['priority'] = 'high' WHERE id = $1");
}

#[test]
fn roundtrip_update_with_multiple_assignments() {
    assert_roundtrip(
        "UPDATE vectors SET metadata['a'] = 'x', metadata['b'] = 'y' WHERE id = $1",
    );
}

#[test]
fn roundtrip_delete_by_id() {
    assert_roundtrip("DELETE FROM vectors WHERE id = $1");
}

#[test]
fn roundtrip_delete_with_compound_predicate() {
    assert_roundtrip("DELETE FROM vectors WHERE category = 'archived' AND year < 2020");
}

#[test]
fn roundtrip_select_star() {
    assert_roundtrip("SELECT * FROM vectors");
}

#[test]
fn roundtrip_select_basic_projection() {
    assert_roundtrip("SELECT id, metadata FROM vectors");
}

#[test]
fn roundtrip_select_with_field_projection() {
    assert_roundtrip("SELECT category, year FROM vectors");
}

#[test]
fn roundtrip_select_with_alias() {
    assert_roundtrip("SELECT embedding <-> $query AS distance FROM vectors");
}

#[test]
fn roundtrip_select_count_star() {
    assert_roundtrip("SELECT COUNT(*) FROM vectors WHERE category = 'docs'");
}

#[test]
fn roundtrip_select_with_order_by_field_desc() {
    assert_roundtrip("SELECT id FROM vectors ORDER BY year DESC");
}

#[test]
fn roundtrip_select_with_order_by_distance_asc() {
    assert_roundtrip("SELECT id FROM vectors ORDER BY embedding <-> $1 ASC");
}

#[test]
fn roundtrip_select_with_limit() {
    assert_roundtrip("SELECT id FROM vectors LIMIT 100");
}

#[test]
fn roundtrip_select_full_hybrid_query() {
    assert_roundtrip(
        "SELECT id, embedding <-> $1 AS distance, metadata FROM vectors \
         WHERE category = 'docs' AND year >= 2024 \
         ORDER BY embedding <-> $1 ASC LIMIT 10",
    );
}

#[test]
fn roundtrip_create_index_with_name() {
    assert_roundtrip("CREATE INDEX idx_cat ON vectors USING HASH (category)");
}

#[test]
fn roundtrip_create_index_without_name() {
    assert_roundtrip("CREATE INDEX ON vectors USING BTREE (year)");
}

#[test]
fn roundtrip_drop_index() {
    assert_roundtrip("DROP INDEX idx_cat ON vectors");
}

// ----- Predicate shapes -----

#[test]
fn roundtrip_predicate_in_list() {
    assert_roundtrip("DELETE FROM vectors WHERE category IN ('a', 'b', 'c')");
}

#[test]
fn roundtrip_predicate_between() {
    assert_roundtrip("DELETE FROM vectors WHERE score BETWEEN 0.5 AND 1.0");
}

#[test]
fn roundtrip_predicate_is_null() {
    assert_roundtrip("DELETE FROM vectors WHERE category IS NULL");
}

#[test]
fn roundtrip_predicate_is_not_null() {
    assert_roundtrip("DELETE FROM vectors WHERE category IS NOT NULL");
}

#[test]
fn roundtrip_predicate_array_contains() {
    assert_roundtrip("DELETE FROM vectors WHERE tags @> 'rust'");
}

#[test]
fn roundtrip_predicate_distance_threshold() {
    assert_roundtrip("DELETE FROM vectors WHERE embedding <-> $1 < 0.5");
}

// ----- Predicate combinators + precedence -----

#[test]
fn roundtrip_predicate_simple_and() {
    assert_roundtrip("DELETE FROM vectors WHERE a = 1 AND b = 2");
}

#[test]
fn roundtrip_predicate_simple_or() {
    assert_roundtrip("DELETE FROM vectors WHERE a = 1 OR b = 2");
}

#[test]
fn roundtrip_predicate_not_atom() {
    assert_roundtrip("DELETE FROM vectors WHERE NOT a = 1");
}

#[test]
fn roundtrip_predicate_and_inside_or_no_parens() {
    // Natural precedence : `a AND b OR c` parses as `(a AND b) OR c`,
    // print preserves the same precedence WITHOUT adding parens.
    assert_roundtrip("DELETE FROM vectors WHERE a = 1 AND b = 2 OR c = 3");
}

#[test]
fn roundtrip_predicate_or_inside_and_needs_parens() {
    // The printer MUST add parens here : without them, the meaning
    // would flip from `(OR) AND c` to `a AND (OR)`. The round-trip
    // check is the canary.
    assert_roundtrip("DELETE FROM vectors WHERE (a = 1 OR b = 2) AND c = 3");
}

#[test]
fn roundtrip_predicate_not_around_combinator_needs_parens() {
    assert_roundtrip("DELETE FROM vectors WHERE NOT (a = 1 AND b = 2)");
}

#[test]
fn roundtrip_predicate_three_term_and_flattens() {
    assert_roundtrip("DELETE FROM vectors WHERE a = 1 AND b = 2 AND c = 3");
}

// ----- Literals -----

#[test]
fn roundtrip_literal_negative_integer() {
    assert_roundtrip("DELETE FROM vectors WHERE delta = -5");
}

#[test]
fn roundtrip_literal_float() {
    assert_roundtrip("DELETE FROM vectors WHERE score = 2.5");
}

#[test]
fn roundtrip_literal_whole_float_keeps_decimal() {
    // 5.0 as f64 must print with the `.0` suffix so re-parse
    // doesn't degrade it to i64.
    assert_roundtrip("DELETE FROM vectors WHERE score = 5.0");
}

#[test]
fn roundtrip_literal_boolean() {
    assert_roundtrip("DELETE FROM vectors WHERE pinned = TRUE");
}

#[test]
fn roundtrip_literal_null() {
    assert_roundtrip("DELETE FROM vectors WHERE category = NULL");
}
