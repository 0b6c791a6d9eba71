//! What printed statements look like.

use crate::ast::{CmpOp, DistanceOp, IndexMethod, OrderDir};
use crate::canon::{
    assign_text, assign_texts, bare_text, comparison_text, distance_text, expr_text, expr_texts,
    f32_text, field_text, join, lemma_join_push, limit_text, literal_text, literal_texts,
    order_by_text, order_text, order_texts, param_text, pred_text, pred_texts, proj_text,
    proj_texts, row_texts, spaced, stmt_text, where_text,
};
use crate::ieee::binary64;
use crate::keyword::{keyword_text, Keyword};
use crate::shortest::{magnitude_fraction, magnitude_whole};
use crate::syntax::{
    Assign, Distance, Expr, Field, Literal, Order, Param, Pred, Proj, Query, Source, Stmt,
};
use crate::text::numeral;
use vstd::prelude::*;

verus! {

proof fn lemma_marks()
    ensures
        " "@ == seq![' '],
        ", "@ == seq![',', ' '],
        "("@ == seq!['('],
        ")"@ == seq![')'],
        "["@ == seq!['['],
        "]"@ == seq![']'],
        "'"@ == seq!['\''],
        "$"@ == seq!['$'],
        "-"@ == seq!['-'],
{
    reveal_strlit(" ");
    reveal_strlit(", ");
    reveal_strlit("(");
    reveal_strlit(")");
    reveal_strlit("[");
    reveal_strlit("]");
    reveal_strlit("'");
    reveal_strlit("$");
    reveal_strlit("-");
    assert(" "@ =~= seq![' ']);
    assert(", "@ =~= seq![',', ' ']);
    assert("("@ =~= seq!['(']);
    assert(")"@ =~= seq![')']);
    assert("["@ =~= seq!['[']);
    assert("]"@ =~= seq![']']);
    assert("'"@ =~= seq!['\'']);
    assert("$"@ =~= seq!['$']);
    assert("-"@ =~= seq!['-']);
}

/// Items are printed one after the other, with the separator between them and
/// nowhere else.
pub proof fn law_joined<T>(xs: Seq<Seq<T>>, x: Seq<T>, sep: Seq<T>)
    ensures
        join(Seq::<Seq<T>>::empty(), sep) == Seq::<T>::empty(),
        join(seq![x], sep) == x,
        xs.len() > 0 ==> join(xs.push(x), sep) == join(xs, sep) + sep + x,
{
    if xs.len() > 0 {
        lemma_join_push(xs, x, sep);
    }
}

// ----- Values -----

/// How parameters and literals are printed.
pub proof fn law_printed_values(n: u32, i: i64, s: Seq<char>)
    ensures
        param_text(Param::Positional(n)) == "$"@ + numeral(n as nat),
        param_text(Param::Named(s)) == "$"@ + s,
        literal_text(Literal::Str(s)) == "'"@ + s + "'"@,
        i >= 0 ==> literal_text(Literal::I64(i)) == numeral(i as nat),
        i < 0 ==> literal_text(Literal::I64(i)) == "-"@ + numeral((-i) as nat),
        literal_text(Literal::Bool(true)) == "TRUE"@,
        literal_text(Literal::Bool(false)) == "FALSE"@,
        literal_text(Literal::Null) == "NULL"@,
        expr_text(Expr::Param(Param::Named(s))) == "$"@ + s,
        expr_text(Expr::Literal(Literal::Str(s))) == "'"@ + s + "'"@,
{
    lemma_marks();
    if i >= 0 {
        assert(literal_text(Literal::I64(i)) =~= numeral(i as nat));
    }
}

/// How fields and distances are printed.
pub proof fn law_printed_fields(name: Seq<char>, key: Seq<char>, d: Distance)
    ensures
        field_text(Field { name, subscript: None }) == name,
        field_text(Field { name, subscript: Some(key) }) == name + "['"@ + key + "']"@,
        distance_text(d) == match d.metric {
            DistanceOp::L2 => "embedding <-> "@,
            DistanceOp::Cosine => "embedding <=> "@,
            DistanceOp::InnerProduct => "embedding <#> "@,
        } + param_text(d.param),
{
    lemma_marks();
    reveal_strlit("['");
    reveal_strlit("']");
    assert("['"@ =~= seq!['['] + seq!['\'']);
    assert("']"@ =~= seq!['\''] + seq![']']);
    assert(field_text(Field { name, subscript: Some(key) }) =~= name + "['"@ + key + "']"@);
    reveal_strlit("embedding");
    reveal_strlit("<->");
    reveal_strlit("<=>");
    reveal_strlit("<#>");
    reveal_strlit("embedding <-> ");
    reveal_strlit("embedding <=> ");
    reveal_strlit("embedding <#> ");
    assert("embedding <-> "@ =~= "embedding"@ + seq![' '] + "<->"@ + seq![' ']);
    assert("embedding <=> "@ =~= "embedding"@ + seq![' '] + "<=>"@ + seq![' ']);
    assert("embedding <#> "@ =~= "embedding"@ + seq![' '] + "<#>"@ + seq![' ']);
}

// ----- Predicates -----

proof fn lemma_operator(op: CmpOp)
    ensures
        seq![' '] + comparison_text(op) + seq![' '] == match op {
            CmpOp::Eq => " = "@,
            CmpOp::Lt => " < "@,
            CmpOp::Le => " <= "@,
            CmpOp::Gt => " > "@,
            CmpOp::Ge => " >= "@,
            CmpOp::Ne => " != "@,
        },
{
    reveal_strlit("=");
    reveal_strlit("<");
    reveal_strlit("<=");
    reveal_strlit(">");
    reveal_strlit(">=");
    reveal_strlit("!=");
    reveal_strlit(" = ");
    reveal_strlit(" < ");
    reveal_strlit(" <= ");
    reveal_strlit(" > ");
    reveal_strlit(" >= ");
    reveal_strlit(" != ");
    assert(" = "@ =~= seq![' '] + "="@ + seq![' ']);
    assert(" < "@ =~= seq![' '] + "<"@ + seq![' ']);
    assert(" <= "@ =~= seq![' '] + "<="@ + seq![' ']);
    assert(" > "@ =~= seq![' '] + ">"@ + seq![' ']);
    assert(" >= "@ =~= seq![' '] + ">="@ + seq![' ']);
    assert(" != "@ =~= seq![' '] + "!="@ + seq![' ']);
}

proof fn lemma_words()
    ensures
        spaced(Keyword::In) == " IN "@,
        spaced(Keyword::Between) == " BETWEEN "@,
        spaced(Keyword::And) == " AND "@,
        spaced(Keyword::Or) == " OR "@,
        spaced(Keyword::Is) == " IS "@,
        spaced(Keyword::As) == " AS "@,
        spaced(Keyword::From) == " FROM "@,
        spaced(Keyword::Where) == " WHERE "@,
        spaced(Keyword::Order) == " ORDER "@,
        spaced(Keyword::Limit) == " LIMIT "@,
        spaced(Keyword::On) == " ON "@,
        spaced(Keyword::Using) == " USING "@,
        spaced(Keyword::Assign) == " SET "@,
        spaced(Keyword::Values) == " VALUES "@,
        spaced(Keyword::Into) == " INTO "@,
        spaced(Keyword::Index) == " INDEX "@,
{
    reveal_strlit("IN");
    reveal_strlit(" IN ");
    reveal_strlit("BETWEEN");
    reveal_strlit(" BETWEEN ");
    reveal_strlit("AND");
    reveal_strlit(" AND ");
    reveal_strlit("OR");
    reveal_strlit(" OR ");
    reveal_strlit("IS");
    reveal_strlit(" IS ");
    reveal_strlit("AS");
    reveal_strlit(" AS ");
    reveal_strlit("FROM");
    reveal_strlit(" FROM ");
    reveal_strlit("WHERE");
    reveal_strlit(" WHERE ");
    reveal_strlit("ORDER");
    reveal_strlit(" ORDER ");
    reveal_strlit("LIMIT");
    reveal_strlit(" LIMIT ");
    reveal_strlit("ON");
    reveal_strlit(" ON ");
    reveal_strlit("USING");
    reveal_strlit(" USING ");
    reveal_strlit("SET");
    reveal_strlit(" SET ");
    reveal_strlit("VALUES");
    reveal_strlit(" VALUES ");
    reveal_strlit("INTO");
    reveal_strlit(" INTO ");
    reveal_strlit("INDEX");
    reveal_strlit(" INDEX ");
    assert(spaced(Keyword::In) =~= " IN "@);
    assert(spaced(Keyword::Between) =~= " BETWEEN "@);
    assert(spaced(Keyword::And) =~= " AND "@);
    assert(spaced(Keyword::Or) =~= " OR "@);
    assert(spaced(Keyword::Is) =~= " IS "@);
    assert(spaced(Keyword::As) =~= " AS "@);
    assert(spaced(Keyword::From) =~= " FROM "@);
    assert(spaced(Keyword::Where) =~= " WHERE "@);
    assert(spaced(Keyword::Order) =~= " ORDER "@);
    assert(spaced(Keyword::Limit) =~= " LIMIT "@);
    assert(spaced(Keyword::On) =~= " ON "@);
    assert(spaced(Keyword::Using) =~= " USING "@);
    assert(spaced(Keyword::Assign) =~= " SET "@);
    assert(spaced(Keyword::Values) =~= " VALUES "@);
    assert(spaced(Keyword::Into) =~= " INTO "@);
    assert(spaced(Keyword::Index) =~= " INDEX "@);
}

/// How the atoms of a predicate are printed: without parentheses, wherever
/// they stand.
pub proof fn law_printed_atoms(
    f: Field,
    op: CmpOp,
    e: Expr,
    ls: Seq<Literal>,
    lo: Literal,
    hi: Literal,
    d: Distance,
    radius: u32,
    outer: int,
)
    requires
        outer <= 3,
    ensures
        ({
            let sign = match op {
                CmpOp::Eq => " = "@,
                CmpOp::Lt => " < "@,
                CmpOp::Le => " <= "@,
                CmpOp::Gt => " > "@,
                CmpOp::Ge => " >= "@,
                CmpOp::Ne => " != "@,
            };
            &&& pred_text(Pred::Eq(f, e), outer) == field_text(f) + " = "@ + expr_text(e)
            &&& pred_text(Pred::Cmp(f, op, e), outer) == field_text(f) + sign + expr_text(e)
            &&& pred_text(Pred::In(f, ls), outer) == field_text(f) + " IN ("@ + join(
                literal_texts(ls),
                ", "@,
            ) + ")"@
            &&& pred_text(Pred::Between(f, lo, hi), outer) == field_text(f) + " BETWEEN "@
                + literal_text(lo) + " AND "@ + literal_text(hi)
            &&& pred_text(Pred::IsNull(f, false), outer) == field_text(f) + " IS NULL"@
            &&& pred_text(Pred::IsNull(f, true), outer) == field_text(f) + " IS NOT NULL"@
            &&& pred_text(Pred::ArrayContains(f, lo), outer) == field_text(f) + " @> "@
                + literal_text(lo)
            &&& pred_text(Pred::DistanceThreshold(d, op, radius), outer) == distance_text(d) + sign
                + f32_text(radius)
        }),
{
    lemma_marks();
    lemma_words();
    lemma_operator(op);
    lemma_operator(CmpOp::Eq);
    let name = field_text(f);
    reveal_strlit(" IN (");
    reveal_strlit(" IN ");
    assert(" IN ("@ =~= " IN "@ + seq!['(']);
    reveal_strlit("@>");
    reveal_strlit(" @> ");
    assert(" @> "@ =~= seq![' '] + "@>"@ + seq![' ']);
    reveal_strlit("NULL");
    reveal_strlit("NOT");
    reveal_strlit(" IS ");
    reveal_strlit(" IS NULL");
    reveal_strlit(" IS NOT NULL");
    assert(" IS NULL"@ =~= " IS "@ + "NULL"@);
    assert(" IS NOT NULL"@ =~= " IS "@ + "NOT"@ + seq![' '] + "NULL"@);
    assert(bare_text(Pred::Eq(f, e)) =~= name + " = "@ + expr_text(e));
    assert(bare_text(Pred::IsNull(f, false)) =~= name + " IS NULL"@);
    assert(bare_text(Pred::IsNull(f, true)) =~= name + " IS NOT NULL"@);
    assert(bare_text(Pred::ArrayContains(f, lo)) =~= name + " @> "@ + literal_text(lo));
    assert(bare_text(Pred::In(f, ls)) =~= name + " IN ("@ + join(literal_texts(ls), ", "@) + ")"@);
    lemma_compared(f, op, e, d, radius);
}

proof fn lemma_compared(f: Field, op: CmpOp, e: Expr, d: Distance, radius: u32)
    ensures
        ({
            let sign = seq![' '] + comparison_text(op) + seq![' '];
            &&& bare_text(Pred::Cmp(f, op, e)) == field_text(f) + sign + expr_text(e)
            &&& bare_text(Pred::DistanceThreshold(d, op, radius)) == distance_text(d) + sign
                + f32_text(radius)
        }),
{
    let sign = seq![' '] + comparison_text(op) + seq![' '];
    assert(bare_text(Pred::Cmp(f, op, e)) =~= field_text(f) + sign + expr_text(e));
    assert(bare_text(Pred::DistanceThreshold(d, op, radius)) =~= distance_text(d) + sign
        + f32_text(radius));
}

/// How combined predicates are printed: parentheses stand around an `OR` under
/// an `AND` or a `NOT`, and around an `AND` under a `NOT`, and nowhere else.
pub proof fn law_printed_combinators(ps: Seq<Pred>, q: Pred)
    ensures
        pred_text(Pred::Or(ps), 0) == join(pred_texts(ps, 0), " OR "@),
        pred_text(Pred::Or(ps), 1) == "("@ + join(pred_texts(ps, 0), " OR "@) + ")"@,
        pred_text(Pred::Or(ps), 2) == "("@ + join(pred_texts(ps, 0), " OR "@) + ")"@,
        pred_text(Pred::And(ps), 0) == join(pred_texts(ps, 1), " AND "@),
        pred_text(Pred::And(ps), 1) == join(pred_texts(ps, 1), " AND "@),
        pred_text(Pred::And(ps), 2) == "("@ + join(pred_texts(ps, 1), " AND "@) + ")"@,
        pred_text(Pred::Not(Box::new(q)), 0) == "NOT "@ + pred_text(q, 2),
        pred_text(Pred::Not(Box::new(q)), 1) == "NOT "@ + pred_text(q, 2),
        pred_text(Pred::Not(Box::new(q)), 2) == "NOT "@ + pred_text(q, 2),
        forall|outer: int, i: int|
            0 <= i < ps.len() ==> pred_texts(ps, outer).len() == ps.len() && #[trigger] pred_texts(
                ps,
                outer,
            )[i] == pred_text(ps[i], outer),
{
    lemma_marks();
    lemma_words();
    reveal_strlit("NOT");
    reveal_strlit("NOT ");
    assert("NOT "@ =~= "NOT"@ + seq![' ']);
}

// ----- Statements -----

/// How the items of a projection and the keys of an order are printed.
pub proof fn law_printed_items(p: Proj, a: Seq<char>, d: Distance, dir: OrderDir)
    ensures
        proj_text(Proj::Wildcard) == "*"@,
        proj_text(Proj::CountStar) == "COUNT(*)"@,
        proj_text(Proj::Id) == "id"@,
        proj_text(Proj::Metadata) == "metadata"@,
        proj_text(Proj::DistanceExpr(d)) == distance_text(d),
        proj_text(Proj::Field(a)) == a,
        proj_text(Proj::Aliased(Box::new(p), a)) == proj_text(p) + " AS "@ + a,
        order_text(Order::Distance(d, dir)) == distance_text(d) + match dir {
            OrderDir::Asc => " ASC"@,
            OrderDir::Desc => " DESC"@,
        },
        order_text(Order::Field(a, dir)) == a + match dir {
            OrderDir::Asc => " ASC"@,
            OrderDir::Desc => " DESC"@,
        },
{
    lemma_words();
    reveal_strlit("ASC");
    reveal_strlit("DESC");
    reveal_strlit(" ASC");
    reveal_strlit(" DESC");
    assert(" ASC"@ =~= seq![' '] + "ASC"@);
    assert(" DESC"@ =~= seq![' '] + "DESC"@);
    let tail = match dir {
        OrderDir::Asc => " ASC"@,
        OrderDir::Desc => " DESC"@,
    };
    assert(order_text(Order::Distance(d, dir)) =~= distance_text(d) + tail);
    assert(order_text(Order::Field(a, dir)) =~= a + tail);
}

/// How a `SELECT` is printed.
pub proof fn law_printed_select(q: Query)
    ensures
        stmt_text(Stmt::Select(q)) == "SELECT "@ + join(proj_texts(q.projection), ", "@) + " FROM "@
            + q.from_table + match q.predicate {
            Some(p) => " WHERE "@ + pred_text(p, 0),
            None => Seq::empty(),
        } + (if q.order_by.len() > 0 {
            " ORDER BY "@ + join(order_texts(q.order_by), ", "@)
        } else {
            Seq::empty()
        }) + match q.limit {
            Some(n) => " LIMIT "@ + numeral(n as nat),
            None => Seq::empty(),
        },
        proj_texts(q.projection).len() == q.projection.len(),
        forall|i: int|
            0 <= i < q.projection.len() ==> #[trigger] proj_texts(q.projection)[i] == proj_text(
                q.projection[i],
            ),
        order_texts(q.order_by).len() == q.order_by.len(),
        forall|i: int|
            0 <= i < q.order_by.len() ==> #[trigger] order_texts(q.order_by)[i] == order_text(
                q.order_by[i],
            ),
{
    lemma_marks();
    lemma_words();
    reveal_strlit("SELECT");
    reveal_strlit("SELECT ");
    assert("SELECT "@ =~= "SELECT"@ + seq![' ']);
    reveal_strlit(" ORDER ");
    reveal_strlit("BY");
    reveal_strlit(" ORDER BY ");
    assert(" ORDER BY "@ =~= " ORDER "@ + "BY"@ + seq![' ']);
    let keys = join(order_texts(q.order_by), ", "@);
    assert(" ORDER BY "@ + keys =~= " ORDER "@ + "BY"@ + seq![' '] + keys);
    let items = join(proj_texts(q.projection), ", "@);
    let head = "SELECT "@ + items + " FROM "@ + q.from_table;
    assert(keyword_text(Keyword::Select) + seq![' '] + items + spaced(Keyword::From) + q.from_table
        =~= head);
    assert(stmt_text(Stmt::Select(q)) =~= head + where_text(q.predicate) + order_by_text(q.order_by)
        + limit_text(q.limit));
}

/// How writing statements are printed.
pub proof fn law_printed_writes(
    t: Seq<char>,
    columns: Seq<Seq<char>>,
    p: Param,
    row: Seq<Expr>,
    assignments: Seq<Assign>,
    pred: Pred,
    a: Assign,
)
    ensures
        stmt_text(Stmt::Insert { table: t, columns, source: Source::Param(p) }) == "INSERT INTO "@
            + t + " ("@ + join(columns, ", "@) + ") VALUES "@ + param_text(p),
        stmt_text(Stmt::Insert { table: t, columns, source: Source::Rows(seq![row]) })
            == "INSERT INTO "@ + t + " ("@ + join(columns, ", "@) + ") VALUES ("@ + join(
            expr_texts(row),
            ", "@,
        ) + ")"@,
        stmt_text(Stmt::Delete { table: t, predicate: pred }) == "DELETE FROM "@ + t + " WHERE "@
            + pred_text(pred, 0),
        stmt_text(Stmt::Update { table: t, assignments, predicate: pred }) == "UPDATE "@ + t
            + " SET "@ + join(assign_texts(assignments), ", "@) + " WHERE "@ + pred_text(pred, 0),
        assign_text(a) == field_text(Field { name: a.field, subscript: a.subscript }) + " = "@
            + expr_text(a.value),
{
    lemma_marks();
    lemma_words();
    lemma_operator(CmpOp::Eq);
    reveal_strlit("INSERT");
    reveal_strlit(" INTO ");
    reveal_strlit("INSERT INTO ");
    assert("INSERT INTO "@ =~= "INSERT"@ + " INTO "@);
    reveal_strlit(" (");
    assert(" ("@ =~= seq![' '] + seq!['(']);
    reveal_strlit(" VALUES ");
    reveal_strlit(") VALUES ");
    reveal_strlit(") VALUES (");
    assert(") VALUES "@ =~= seq![')'] + " VALUES "@);
    assert(") VALUES ("@ =~= seq![')'] + " VALUES "@ + seq!['(']);
    let names = join(columns, ", "@);
    let x = stmt_text(Stmt::Insert { table: t, columns, source: Source::Param(p) });
    assert(x =~= "INSERT INTO "@ + t + " ("@ + names + ") VALUES "@ + param_text(p));
    let y = stmt_text(Stmt::Insert { table: t, columns, source: Source::Rows(seq![row]) });
    let values = join(expr_texts(row), ", "@);
    assert(row_texts(seq![row]) =~= seq![seq!['('] + values + seq![')']]);
    assert(y =~= "INSERT INTO "@ + t + " ("@ + names + ") VALUES ("@ + values + ")"@);
    reveal_strlit("DELETE");
    reveal_strlit(" FROM ");
    reveal_strlit("DELETE FROM ");
    assert("DELETE FROM "@ =~= "DELETE"@ + " FROM "@);
    reveal_strlit("UPDATE");
    reveal_strlit("UPDATE ");
    assert("UPDATE "@ =~= "UPDATE"@ + seq![' ']);
    assert(assign_text(a) =~= field_text(Field { name: a.field, subscript: a.subscript }) + (
    seq![' '] + comparison_text(CmpOp::Eq) + seq![' ']) + expr_text(a.value));
}

/// How the other statements are printed.
pub proof fn law_printed_maintenance(
    t: Seq<char>,
    name: Seq<char>,
    method: IndexMethod,
    field: Seq<char>,
)
    ensures
        ({
            let on = " ON "@ + t + match method {
                IndexMethod::Hash => " USING HASH ("@,
                IndexMethod::Btree => " USING BTREE ("@,
                IndexMethod::Inverted => " USING INVERTED ("@,
            } + field + ")"@;
            &&& stmt_text(Stmt::Checkpoint) == "CHECKPOINT"@
            &&& stmt_text(Stmt::Vacuum { table: t }) == "VACUUM "@ + t
            &&& stmt_text(Stmt::DropIndex { name, table: t }) == "DROP INDEX "@ + name + " ON "@ + t
            &&& stmt_text(Stmt::CreateIndex { name: None, table: t, method, field })
                == "CREATE INDEX"@ + on
            &&& stmt_text(Stmt::CreateIndex { name: Some(name), table: t, method, field })
                == "CREATE INDEX "@ + name + on
        }),
{
    lemma_marks();
    lemma_words();
    reveal_strlit("VACUUM");
    reveal_strlit("VACUUM ");
    assert("VACUUM "@ =~= "VACUUM"@ + seq![' ']);
    reveal_strlit("DROP");
    reveal_strlit(" INDEX ");
    reveal_strlit("DROP INDEX ");
    assert("DROP INDEX "@ =~= "DROP"@ + " INDEX "@);
    reveal_strlit("CREATE");
    reveal_strlit("INDEX");
    reveal_strlit("CREATE INDEX");
    reveal_strlit("CREATE INDEX ");
    assert("CREATE INDEX"@ =~= "CREATE"@ + seq![' '] + "INDEX"@);
    assert("CREATE INDEX "@ =~= "CREATE INDEX"@ + seq![' ']);
    reveal_strlit(" USING ");
    reveal_strlit("HASH");
    reveal_strlit("BTREE");
    reveal_strlit("INVERTED");
    reveal_strlit(" USING HASH (");
    reveal_strlit(" USING BTREE (");
    reveal_strlit(" USING INVERTED (");
    assert(" USING HASH ("@ =~= " USING "@ + "HASH"@ + seq![' '] + seq!['(']);
    assert(" USING BTREE ("@ =~= " USING "@ + "BTREE"@ + seq![' '] + seq!['(']);
    assert(" USING INVERTED ("@ =~= " USING "@ + "INVERTED"@ + seq![' '] + seq!['(']);
    let using = match method {
        IndexMethod::Hash => " USING HASH ("@,
        IndexMethod::Btree => " USING BTREE ("@,
        IndexMethod::Inverted => " USING INVERTED ("@,
    };
    let on = " ON "@ + t + using + field + ")"@;
    let x = stmt_text(Stmt::CreateIndex { name: None, table: t, method, field });
    assert(x =~= "CREATE INDEX"@ + on);
    let y = stmt_text(Stmt::CreateIndex { name: Some(name), table: t, method, field });
    assert(y =~= "CREATE INDEX "@ + name + on);
}

/// How floating-point numbers are printed: always with a point; infinity and
/// NaN have no digits.
pub proof fn law_printed_floats(x: u64)
    ensures
        ({
            let m = (x % 0x8000_0000_0000_0000) as nat;
            let text = literal_text(Literal::F64(x));
            let digits = magnitude_whole(binary64(), m) + "."@ + magnitude_fraction(binary64(), m);
            &&& m < 0x7ff0_0000_0000_0000 && x < 0x8000_0000_0000_0000 ==> text == digits
            &&& m < 0x7ff0_0000_0000_0000 && x >= 0x8000_0000_0000_0000 ==> text == "-"@ + digits
            &&& m == 0x7ff0_0000_0000_0000 && x < 0x8000_0000_0000_0000 ==> text == "inf"@
            &&& m == 0x7ff0_0000_0000_0000 && x >= 0x8000_0000_0000_0000 ==> text == "-inf"@
            &&& m > 0x7ff0_0000_0000_0000 ==> text == "NaN"@
        }),
{
    lemma_marks();
    reveal_strlit(".");
    reveal_strlit("inf");
    reveal_strlit("-inf");
    reveal_strlit("NaN");
    let m = (x % 0x8000_0000_0000_0000) as nat;
    let text = literal_text(Literal::F64(x));
    let digits = magnitude_whole(binary64(), m) + "."@ + magnitude_fraction(binary64(), m);
    assert("."@ =~= seq!['.']);
    assert("inf"@ =~= seq!['i', 'n', 'f']);
    assert("-inf"@ =~= seq!['-'] + seq!['i', 'n', 'f']);
    assert("NaN"@ =~= seq!['N', 'a', 'N']);
    if m < 0x7ff0_0000_0000_0000 && x < 0x8000_0000_0000_0000 {
        assert(text =~= digits);
    }
    if m == 0x7ff0_0000_0000_0000 && x < 0x8000_0000_0000_0000 {
        assert(text =~= "inf"@);
    }
}

} // verus!
