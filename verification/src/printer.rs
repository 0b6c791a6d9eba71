//! AST to KQL pretty-printer.
//!
//! Output is canonical: keywords uppercase, identifiers preserved as-written,
//! single-line, minimal whitespace. Parsing what was printed gives back the
//! same statement, so printing again gives back the same text.
//!
//! Predicate parenthesization is precedence-aware: combinators are
//! parenthesized only when a parent operator binds tighter. So
//! `a = 1 AND b = 2` round-trips without growing parens each time.

use crate::ast::{
    models, rows, views, AstAssignment, AstCreateIndex, AstDelete, AstDistance, AstDropIndex,
    AstExpr, AstFieldRef, AstInsert, AstInsertSource, AstLiteral, AstOrderBy, AstPredicate,
    AstProjection, AstQuery, AstStatement, AstUpdate, AstVacuum, CmpOp, DistanceOp, IndexMethod,
    OrderDir, ParamRef,
};
use crate::canon::{
    assign_text, assign_texts, bare_text, comma, comparison_text, create_index_text, delete_text,
    direction_keyword, distance_text, drop_index_text, expr_text, expr_texts, f32_text, f64_text,
    field_text, float_text, insert_text, integer_text, join, lemma_join_push, literal_text,
    literal_texts, method_text, metric_text, order_by_text, order_text, order_texts, param_text,
    precedence, pred_text, pred_texts, proj_text, proj_texts, query_text, quoted_text, row_text,
    row_texts, space, spaced, stmt_text, subscript_text, update_text, where_text,
};
use crate::ieee::{format32, format64, Format};
use crate::keyword::{keyword_text, Keyword};
use crate::shortest::push_magnitude;
use crate::text::push_numeral;
use vstd::prelude::*;

verus! {

/// The canonical spelling of a reserved word.
fn keyword_str(k: Keyword) -> (r: &'static str)
    ensures
        r@ == keyword_text(k),
{
    match k {
        Keyword::Select => "SELECT",
        Keyword::From => "FROM",
        Keyword::Where => "WHERE",
        Keyword::Order => "ORDER",
        Keyword::By => "BY",
        Keyword::Limit => "LIMIT",
        Keyword::Asc => "ASC",
        Keyword::Desc => "DESC",
        Keyword::Insert => "INSERT",
        Keyword::Into => "INTO",
        Keyword::Values => "VALUES",
        Keyword::Update => "UPDATE",
        Keyword::Assign => "SET",
        Keyword::Delete => "DELETE",
        Keyword::Vacuum => "VACUUM",
        Keyword::Checkpoint => "CHECKPOINT",
        Keyword::Create => "CREATE",
        Keyword::Drop => "DROP",
        Keyword::Index => "INDEX",
        Keyword::On => "ON",
        Keyword::Using => "USING",
        Keyword::And => "AND",
        Keyword::Or => "OR",
        Keyword::Not => "NOT",
        Keyword::In => "IN",
        Keyword::Between => "BETWEEN",
        Keyword::Is => "IS",
        Keyword::Null => "NULL",
        Keyword::True => "TRUE",
        Keyword::False => "FALSE",
        Keyword::As => "AS",
    }
}

/// Appends `k` between two spaces.
fn push_spaced(out: &mut String, k: Keyword)
    ensures
        final(out)@ == old(out)@ + spaced(k),
{
    out.push(' ');
    out.append(keyword_str(k));
    out.push(' ');
    assert(out@ =~= old(out)@ + spaced(k));
}

/// The texts of `v`, with `sep` in between.
fn join_strings(v: &Vec<String>, sep: &str) -> (r: String)
    ensures
        r@ == join(views(v@), sep@),
{
    let mut r: String = String::new();
    let mut i: usize = 0;
    proof {
        assert(views(v@).take(0) =~= Seq::empty());
    }
    while i < v.len()
        invariant
            i <= v.len(),
            r@ == join(views(v@).take(i as int), sep@),
        decreases v.len() - i,
    {
        proof {
            let before = views(v@).take(i as int);
            assert(views(v@).take(i + 1) =~= before.push(v@[i as int]@));
            if i > 0 {
                lemma_join_push(before, v@[i as int]@, sep@);
            } else {
                assert(before.push(v@[0]@) =~= seq![v@[0]@]);
                assert(join(before, sep@) =~= Seq::empty());
            }
        }
        if i > 0 {
            r.append(sep);
        }
        r.append(v[i].as_str());
        i = i + 1;
    }
    assert(views(v@).take(v.len() as int) =~= views(v@));
    r
}

/// The texts of `v`, separated by commas.
fn join_commas(v: &Vec<String>) -> (r: String)
    ensures
        r@ == join(views(v@), comma()),
{
    proof {
        reveal_strlit(", ");
        assert(", "@ =~= comma());
    }
    join_strings(v, ", ")
}

/// `$N` or `$name`.
pub fn print_param(p: &ParamRef) -> (r: String)
    ensures
        r@ == param_text(p@),
{
    let mut r: String = String::new();
    r.push('$');
    match p {
        ParamRef::Positional(n) => push_numeral(&mut r, *n as u128),
        ParamRef::Named(s) => r.append(s.as_str()),
    }
    assert(r@ =~= param_text(p@));
    r
}

/// An integer in decimal.
fn print_integer(n: i64) -> (r: String)
    ensures
        r@ == integer_text(n as int),
{
    let mut r: String = String::new();
    if n < 0 {
        r.push('-');
        push_numeral(&mut r, (-(n as i128)) as u128);
    } else {
        push_numeral(&mut r, n as u128);
    }
    assert(r@ =~= integer_text(n as int));
    r
}

/// The value with magnitude `m` in the format `f`.
fn print_float(f: Format, neg: bool, m: u64) -> (r: String)
    requires
        f.wf(),
    ensures
        r@ == float_text(f, neg, m as nat),
{
    let mut r: String = String::new();
    if m > f.inf {
        r.push('N');
        r.push('a');
        r.push('N');
    } else {
        if neg {
            r.push('-');
        }
        if m == f.inf {
            r.push('i');
            r.push('n');
            r.push('f');
        } else {
            push_magnitude(&mut r, f, m);
        }
    }
    assert(r@ =~= float_text(f, neg, m as nat));
    r
}

/// Emits the 64-bit floating-point value with the bits `b` in a form that
/// round-trips back to [`AstLiteral::F64`] (not [`AstLiteral::I64`]).
/// Whole-number floats need an explicit `.0` because the grammar splits
/// literals on the decimal point.
pub fn print_f64(b: u64) -> (r: String)
    ensures
        r@ == f64_text(b),
{
    print_float(format64(), b >= 0x8000_0000_0000_0000, b % 0x8000_0000_0000_0000)
}

/// Same as [`print_f64`] but for the 32-bit distance threshold radius.
pub fn print_f32(b: u32) -> (r: String)
    ensures
        r@ == f32_text(b),
{
    print_float(format32(), b >= 0x8000_0000, (b % 0x8000_0000) as u64)
}

/// `s` between single quotes.
fn print_quoted(s: &str) -> (r: String)
    ensures
        r@ == quoted_text(s@),
{
    let mut r: String = String::new();
    r.push('\'');
    r.append(s);
    r.push('\'');
    assert(r@ =~= quoted_text(s@));
    r
}

/// An inline literal.
pub fn print_literal(l: &AstLiteral) -> (r: String)
    ensures
        r@ == literal_text(l@),
{
    match l {
        AstLiteral::String(s) => print_quoted(s.as_str()),
        AstLiteral::I64(n) => print_integer(*n),
        AstLiteral::F64(b) => print_f64(*b),
        AstLiteral::Bool(true) => keyword_str(Keyword::True).to_owned(),
        AstLiteral::Bool(false) => keyword_str(Keyword::False).to_owned(),
        AstLiteral::Null => keyword_str(Keyword::Null).to_owned(),
    }
}

/// A parameter or a literal.
pub fn print_expr(e: &AstExpr) -> (r: String)
    ensures
        r@ == expr_text(e@),
{
    match e {
        AstExpr::Param(p) => print_param(p),
        AstExpr::Literal(l) => print_literal(l),
    }
}

/// The sign of a metric.
pub fn print_distance_op(op: DistanceOp) -> (r: &'static str)
    ensures
        r@ == metric_text(op),
{
    match op {
        DistanceOp::L2 => "<->",
        DistanceOp::Cosine => "<=>",
        DistanceOp::InnerProduct => "<#>",
    }
}

/// The sign of a comparison.
pub fn print_cmp_op(op: CmpOp) -> (r: &'static str)
    ensures
        r@ == comparison_text(op),
{
    match op {
        CmpOp::Eq => "=",
        CmpOp::Lt => "<",
        CmpOp::Le => "<=",
        CmpOp::Gt => ">",
        CmpOp::Ge => ">=",
        CmpOp::Ne => "!=",
    }
}

/// `embedding <op> $param`.
pub fn print_distance_expr(d: &AstDistance) -> (r: String)
    ensures
        r@ == distance_text(d@),
{
    let mut r: String = "embedding".to_owned();
    r.push(' ');
    r.append(print_distance_op(d.metric));
    r.push(' ');
    r.append(print_param(&d.param).as_str());
    assert(r@ =~= distance_text(d@));
    r
}

/// `name` or `name['key']`.
fn print_subscripted(name: &String, subscript: &Option<String>) -> (r: String)
    ensures
        r@ == subscript_text(name@, crate::ast::opt_text(*subscript)),
{
    match subscript {
        Some(key) => {
            let mut r: String = name.clone();
            r.push('[');
            r.append(print_quoted(key.as_str()).as_str());
            r.push(']');
            assert(r@ =~= name@ + seq!['['] + quoted_text(key@) + seq![']']);
            r
        },
        None => name.clone(),
    }
}

fn print_field_ref(f: &AstFieldRef) -> (r: String)
    ensures
        r@ == field_text(f@),
{
    print_subscripted(&f.name, &f.subscript)
}

fn print_literals(v: &Vec<AstLiteral>) -> (r: String)
    ensures
        r@ == join(literal_texts(views(v@)), comma()),
{
    let mut parts: Vec<String> = Vec::new();
    let mut i: usize = 0;
    while i < v.len()
        invariant
            i <= v.len(),
            views(parts@) =~= literal_texts(views(v@)).take(i as int),
        decreases v.len() - i,
    {
        let part: String = print_literal(&v[i]);
        proof {
            let before = parts@;
            assert(views(before.push(part)) =~= views(before).push(part@));
        }
        parts.push(part);
        i = i + 1;
    }
    assert(literal_texts(views(v@)).take(v.len() as int) =~= literal_texts(views(v@)));
    join_commas(&parts)
}

// ----- Predicate printing with precedence-aware parens -----

/// Binding precedence: higher = tighter. Used to decide when a child predicate
/// needs parens.
pub fn predicate_prec(p: &AstPredicate) -> (r: u8)
    ensures
        r == precedence(p@),
{
    match p {
        AstPredicate::Or(_) => 0,
        AstPredicate::And(_) => 1,
        AstPredicate::Not(_) => 2,
        _ => 3,
    }
}

/// Prints a predicate with no surrounding context.
pub fn print_predicate(p: &AstPredicate) -> (r: String)
    ensures
        r@ == pred_text(p@, 0),
{
    print_predicate_at(p, 0)
}

/// Prints `p` with surrounding context at precedence `parent_prec`. Wraps in
/// parens iff `p`'s own precedence is lower than the parent's (i.e. removing
/// the parens would change associativity).
pub fn print_predicate_at(p: &AstPredicate, parent_prec: u8) -> (r: String)
    ensures
        r@ == pred_text(p@, parent_prec as int),
    decreases p, 1int,
{
    let body: String = print_bare(p);
    if predicate_prec(p) < parent_prec {
        let mut r: String = String::new();
        r.push('(');
        r.append(body.as_str());
        r.push(')');
        assert(r@ =~= seq!['('] + bare_text(p@) + seq![')']);
        r
    } else {
        body
    }
}

/// The texts of `ps` at precedence `prec`.
fn print_terms(ps: &Vec<AstPredicate>, prec: u8) -> (r: Vec<String>)
    ensures
        views(r@) == pred_texts(models(ps@), prec as int),
    decreases ps, 2int,
{
    let mut r: Vec<String> = Vec::new();
    let mut i: usize = 0;
    while i < ps.len()
        invariant
            i <= ps.len(),
            views(r@) =~= pred_texts(models(ps@), prec as int).take(i as int),
        decreases ps.len() - i,
    {
        assert(decreases_to!(ps => ps@[i as int]));
        let part: String = print_predicate_at(&ps[i], prec);
        proof {
            assert(models(ps@)[i as int] == ps@[i as int]@);
            let before = r@;
            assert(views(before.push(part)) =~= views(before).push(part@));
        }
        r.push(part);
        i = i + 1;
    }
    assert(pred_texts(models(ps@), prec as int).take(ps.len() as int) =~= pred_texts(
        models(ps@),
        prec as int,
    ));
    r
}

fn print_comparison(f: &AstFieldRef, op: CmpOp, v: &AstExpr) -> (r: String)
    ensures
        r@ == field_text(f@) + space() + comparison_text(op) + space() + expr_text(v@),
{
    let mut r: String = print_field_ref(f);
    r.push(' ');
    r.append(print_cmp_op(op));
    r.push(' ');
    r.append(print_expr(v).as_str());
    assert(r@ =~= field_text(f@) + space() + comparison_text(op) + space() + expr_text(v@));
    r
}

fn print_threshold(d: &AstDistance, op: CmpOp, radius: u32) -> (r: String)
    ensures
        r@ == distance_text(d@) + space() + comparison_text(op) + space() + f32_text(radius),
{
    let mut r: String = print_distance_expr(d);
    r.push(' ');
    r.append(print_cmp_op(op));
    r.push(' ');
    r.append(print_f32(radius).as_str());
    assert(r@ =~= distance_text(d@) + space() + comparison_text(op) + space() + f32_text(radius));
    r
}

/// The text of `p` without parentheses of its own.
fn print_bare(p: &AstPredicate) -> (r: String)
    ensures
        r@ == bare_text(p@),
    decreases p, 0int,
{
    let mut r: String = String::new();
    match p {
        AstPredicate::Or(children) => {
            let parts: Vec<String> = print_terms(children, 0);
            let mut sep: String = String::new();
            push_spaced(&mut sep, Keyword::Or);
            assert(sep@ =~= spaced(Keyword::Or));
            return join_strings(&parts, sep.as_str());
        },
        AstPredicate::And(children) => {
            let parts: Vec<String> = print_terms(children, 1);
            let mut sep: String = String::new();
            push_spaced(&mut sep, Keyword::And);
            assert(sep@ =~= spaced(Keyword::And));
            return join_strings(&parts, sep.as_str());
        },
        AstPredicate::Not(inner) => {
            r.append(keyword_str(Keyword::Not));
            r.push(' ');
            r.append(print_predicate_at(inner, 2).as_str());
        },
        AstPredicate::Eq(f, v) => {
            return print_comparison(f, CmpOp::Eq, v);
        },
        AstPredicate::Cmp(f, op, v) => {
            return print_comparison(f, *op, v);
        },
        AstPredicate::In(f, values) => {
            r.append(print_field_ref(f).as_str());
            push_spaced(&mut r, Keyword::In);
            r.push('(');
            r.append(print_literals(values).as_str());
            r.push(')');
        },
        AstPredicate::Between(f, lo, hi) => {
            r.append(print_field_ref(f).as_str());
            push_spaced(&mut r, Keyword::Between);
            r.append(print_literal(lo).as_str());
            push_spaced(&mut r, Keyword::And);
            r.append(print_literal(hi).as_str());
        },
        AstPredicate::IsNull(f, negated) => {
            r.append(print_field_ref(f).as_str());
            push_spaced(&mut r, Keyword::Is);
            if *negated {
                r.append(keyword_str(Keyword::Not));
                r.push(' ');
            }
            r.append(keyword_str(Keyword::Null));
        },
        AstPredicate::ArrayContains(f, l) => {
            r.append(print_field_ref(f).as_str());
            r.push(' ');
            r.append("@>");
            r.push(' ');
            r.append(print_literal(l).as_str());
        },
        AstPredicate::DistanceThreshold(d, op, radius) => {
            return print_threshold(d, *op, *radius);
        },
    }
    assert(r@ =~= bare_text(p@));
    r
}

// ----- Statements -----

/// One projected column.
pub fn print_projection(p: &AstProjection) -> (r: String)
    ensures
        r@ == proj_text(p@),
    decreases p,
{
    match p {
        AstProjection::Wildcard => "*".to_owned(),
        AstProjection::CountStar => "COUNT(*)".to_owned(),
        AstProjection::Id => "id".to_owned(),
        AstProjection::Metadata => "metadata".to_owned(),
        AstProjection::DistanceExpr(d) => print_distance_expr(d),
        AstProjection::Field(s) => s.clone(),
        AstProjection::Aliased(inner, alias) => {
            let mut r: String = print_projection(inner);
            push_spaced(&mut r, Keyword::As);
            r.append(alias.as_str());
            r
        },
    }
}

fn print_projections(v: &Vec<AstProjection>) -> (r: String)
    ensures
        r@ == join(proj_texts(views(v@)), comma()),
{
    let mut parts: Vec<String> = Vec::new();
    let mut i: usize = 0;
    while i < v.len()
        invariant
            i <= v.len(),
            views(parts@) =~= proj_texts(views(v@)).take(i as int),
        decreases v.len() - i,
    {
        let part: String = print_projection(&v[i]);
        proof {
            let before = parts@;
            assert(views(before.push(part)) =~= views(before).push(part@));
        }
        parts.push(part);
        i = i + 1;
    }
    assert(proj_texts(views(v@)).take(v.len() as int) =~= proj_texts(views(v@)));
    join_commas(&parts)
}

/// The spelling of a direction.
pub fn print_dir(d: OrderDir) -> (r: &'static str)
    ensures
        r@ == keyword_text(direction_keyword(d)),
{
    match d {
        OrderDir::Asc => "ASC",
        OrderDir::Desc => "DESC",
    }
}

/// One ordering key, always with its direction.
pub fn print_order_by_item(o: &AstOrderBy) -> (r: String)
    ensures
        r@ == order_text(o@),
{
    match o {
        AstOrderBy::Distance(d, dir) => {
            let mut r: String = print_distance_expr(d);
            r.push(' ');
            r.append(print_dir(*dir));
            assert(r@ =~= order_text(o@));
            r
        },
        AstOrderBy::Field(name, dir) => {
            let mut r: String = name.clone();
            r.push(' ');
            r.append(print_dir(*dir));
            assert(r@ =~= order_text(o@));
            r
        },
    }
}

fn print_order_by_items(v: &Vec<AstOrderBy>) -> (r: String)
    ensures
        r@ == join(order_texts(views(v@)), comma()),
{
    let mut parts: Vec<String> = Vec::new();
    let mut i: usize = 0;
    while i < v.len()
        invariant
            i <= v.len(),
            views(parts@) =~= order_texts(views(v@)).take(i as int),
        decreases v.len() - i,
    {
        let part: String = print_order_by_item(&v[i]);
        proof {
            let before = parts@;
            assert(views(before.push(part)) =~= views(before).push(part@));
        }
        parts.push(part);
        i = i + 1;
    }
    assert(order_texts(views(v@)).take(v.len() as int) =~= order_texts(views(v@)));
    join_commas(&parts)
}

/// A `SELECT` statement.
pub fn print_select(s: &AstQuery) -> (r: String)
    ensures
        r@ == query_text(s@),
{
    let mut out: String = String::new();
    out.append(keyword_str(Keyword::Select));
    out.push(' ');
    out.append(print_projections(&s.projection).as_str());
    push_spaced(&mut out, Keyword::From);
    out.append(s.from_table.as_str());
    let ghost head = out@;
    assert(head =~= keyword_text(Keyword::Select) + space() + join(
        proj_texts(s@.projection),
        comma(),
    ) + spaced(Keyword::From) + s@.from_table);
    match &s.predicate {
        Some(p) => {
            push_spaced(&mut out, Keyword::Where);
            out.append(print_predicate(p).as_str());
        },
        None => {},
    }
    assert(out@ =~= head + where_text(s@.predicate));
    if s.order_by.len() > 0 {
        push_spaced(&mut out, Keyword::Order);
        out.append(keyword_str(Keyword::By));
        out.push(' ');
        out.append(print_order_by_items(&s.order_by).as_str());
    }
    assert(out@ =~= head + where_text(s@.predicate) + order_by_text(s@.order_by));
    match s.limit {
        Some(n) => {
            push_spaced(&mut out, Keyword::Limit);
            push_numeral(&mut out, n as u128);
        },
        None => {},
    }
    assert(out@ =~= query_text(s@));
    out
}

fn print_exprs(v: &Vec<AstExpr>) -> (r: String)
    ensures
        r@ == join(expr_texts(views(v@)), comma()),
{
    let mut parts: Vec<String> = Vec::new();
    let mut i: usize = 0;
    while i < v.len()
        invariant
            i <= v.len(),
            views(parts@) =~= expr_texts(views(v@)).take(i as int),
        decreases v.len() - i,
    {
        let part: String = print_expr(&v[i]);
        proof {
            let before = parts@;
            assert(views(before.push(part)) =~= views(before).push(part@));
        }
        parts.push(part);
        i = i + 1;
    }
    assert(expr_texts(views(v@)).take(v.len() as int) =~= expr_texts(views(v@)));
    join_commas(&parts)
}

fn print_row(row: &Vec<AstExpr>) -> (r: String)
    ensures
        r@ == row_text(views(row@)),
{
    let mut r: String = String::new();
    r.push('(');
    r.append(print_exprs(row).as_str());
    r.push(')');
    assert(r@ =~= row_text(views(row@)));
    r
}

fn print_rows(v: &Vec<Vec<AstExpr>>) -> (r: String)
    ensures
        r@ == join(row_texts(rows(v@)), comma()),
{
    let mut parts: Vec<String> = Vec::new();
    let mut i: usize = 0;
    while i < v.len()
        invariant
            i <= v.len(),
            views(parts@) =~= row_texts(rows(v@)).take(i as int),
        decreases v.len() - i,
    {
        let part: String = print_row(&v[i]);
        proof {
            let before = parts@;
            assert(views(before.push(part)) =~= views(before).push(part@));
        }
        parts.push(part);
        i = i + 1;
    }
    assert(row_texts(rows(v@)).take(v.len() as int) =~= row_texts(rows(v@)));
    join_commas(&parts)
}

/// An `INSERT` statement.
pub fn print_insert(i: &AstInsert) -> (r: String)
    ensures
        r@ == insert_text(i.table@, views(i.columns@), i.source@),
{
    let mut r: String = String::new();
    r.append(keyword_str(Keyword::Insert));
    push_spaced(&mut r, Keyword::Into);
    r.append(i.table.as_str());
    r.push(' ');
    r.push('(');
    r.append(join_commas(&i.columns).as_str());
    r.push(')');
    push_spaced(&mut r, Keyword::Values);
    match &i.source {
        AstInsertSource::Rows(rs) => r.append(print_rows(rs).as_str()),
        AstInsertSource::Param(p) => r.append(print_param(p).as_str()),
    }
    assert(r@ =~= insert_text(i.table@, views(i.columns@), i.source@));
    r
}

/// One `SET` assignment.
pub fn print_assignment(a: &AstAssignment) -> (r: String)
    ensures
        r@ == assign_text(a@),
{
    let mut r: String = print_subscripted(&a.field, &a.subscript);
    r.push(' ');
    r.append(print_cmp_op(CmpOp::Eq));
    r.push(' ');
    r.append(print_expr(&a.value).as_str());
    assert(r@ =~= assign_text(a@));
    r
}

fn print_assignments(v: &Vec<AstAssignment>) -> (r: String)
    ensures
        r@ == join(assign_texts(views(v@)), comma()),
{
    let mut parts: Vec<String> = Vec::new();
    let mut i: usize = 0;
    while i < v.len()
        invariant
            i <= v.len(),
            views(parts@) =~= assign_texts(views(v@)).take(i as int),
        decreases v.len() - i,
    {
        let part: String = print_assignment(&v[i]);
        proof {
            let before = parts@;
            assert(views(before.push(part)) =~= views(before).push(part@));
        }
        parts.push(part);
        i = i + 1;
    }
    assert(assign_texts(views(v@)).take(v.len() as int) =~= assign_texts(views(v@)));
    join_commas(&parts)
}

/// An `UPDATE` statement.
pub fn print_update(u: &AstUpdate) -> (r: String)
    ensures
        r@ == update_text(u.table@, views(u.assignments@), u.predicate@),
{
    let mut r: String = String::new();
    r.append(keyword_str(Keyword::Update));
    r.push(' ');
    r.append(u.table.as_str());
    push_spaced(&mut r, Keyword::Assign);
    r.append(print_assignments(&u.assignments).as_str());
    push_spaced(&mut r, Keyword::Where);
    r.append(print_predicate(&u.predicate).as_str());
    assert(r@ =~= update_text(u.table@, views(u.assignments@), u.predicate@));
    r
}

/// A `DELETE` statement.
pub fn print_delete(d: &AstDelete) -> (r: String)
    ensures
        r@ == delete_text(d.table@, d.predicate@),
{
    let mut r: String = String::new();
    r.append(keyword_str(Keyword::Delete));
    push_spaced(&mut r, Keyword::From);
    r.append(d.table.as_str());
    push_spaced(&mut r, Keyword::Where);
    r.append(print_predicate(&d.predicate).as_str());
    assert(r@ =~= delete_text(d.table@, d.predicate@));
    r
}

/// A `VACUUM` statement.
pub fn print_vacuum(v: &AstVacuum) -> (r: String)
    ensures
        r@ == keyword_text(Keyword::Vacuum) + space() + v.table@,
{
    let mut r: String = keyword_str(Keyword::Vacuum).to_owned();
    r.push(' ');
    r.append(v.table.as_str());
    assert(r@ =~= keyword_text(Keyword::Vacuum) + space() + v.table@);
    r
}

/// The spelling of an index method.
pub fn print_index_method(m: IndexMethod) -> (r: &'static str)
    ensures
        r@ == method_text(m),
{
    match m {
        IndexMethod::Hash => "HASH",
        IndexMethod::Btree => "BTREE",
        IndexMethod::Inverted => "INVERTED",
    }
}

/// A `CREATE INDEX` statement.
pub fn print_create_index(c: &AstCreateIndex) -> (r: String)
    ensures
        r@ == create_index_text(crate::ast::opt_text(c.name), c.table@, c.method, c.field@),
{
    let mut r: String = keyword_str(Keyword::Create).to_owned();
    r.push(' ');
    r.append(keyword_str(Keyword::Index));
    match &c.name {
        Some(n) => {
            r.push(' ');
            r.append(n.as_str());
        },
        None => {},
    }
    push_spaced(&mut r, Keyword::On);
    r.append(c.table.as_str());
    push_spaced(&mut r, Keyword::Using);
    r.append(print_index_method(c.method));
    r.push(' ');
    r.push('(');
    r.append(c.field.as_str());
    r.push(')');
    assert(r@ =~= create_index_text(crate::ast::opt_text(c.name), c.table@, c.method, c.field@));
    r
}

/// A `DROP INDEX` statement.
pub fn print_drop_index(d: &AstDropIndex) -> (r: String)
    ensures
        r@ == drop_index_text(d.name@, d.table@),
{
    let mut r: String = keyword_str(Keyword::Drop).to_owned();
    push_spaced(&mut r, Keyword::Index);
    r.append(d.name.as_str());
    push_spaced(&mut r, Keyword::On);
    r.append(d.table.as_str());
    assert(r@ =~= drop_index_text(d.name@, d.table@));
    r
}

/// Pretty-prints a top-level KQL statement to canonical form.
pub fn print(stmt: &AstStatement) -> (r: String)
    ensures
        r@ == stmt_text(stmt@),
{
    match stmt {
        AstStatement::Checkpoint => keyword_str(Keyword::Checkpoint).to_owned(),
        AstStatement::Vacuum(v) => print_vacuum(v),
        AstStatement::Insert(i) => print_insert(i),
        AstStatement::Update(u) => print_update(u),
        AstStatement::Delete(d) => print_delete(d),
        AstStatement::Select(s) => print_select(s),
        AstStatement::CreateIndex(c) => print_create_index(c),
        AstStatement::DropIndex(d) => print_drop_index(d),
    }
}

} // verus!
