//! The canonical text of a statement, and its tokens.
//!
//! Keywords are in upper case, identifiers stand as written, everything is on
//! one line. A predicate is parenthesised only where its parent binds
//! tighter.

use crate::ast::{CmpOp, DistanceOp, IndexMethod, OrderDir};
use crate::ieee::{
    binary32, binary64, is_negative32, is_negative64, magnitude32, magnitude64, Format,
};
use crate::keyword::{keyword_text, Keyword};
use crate::lexer::{Symbol, Tok};
use crate::shortest::{magnitude_fraction, magnitude_text, magnitude_whole};
use crate::syntax::{
    Assign, Distance, Expr, Field, Literal, Order, Param, Pred, Proj, Query, Source, Stmt,
};
use crate::text::numeral;
use vstd::prelude::*;

verus! {

/// `xs` one after the other, with `sep` in between.
pub open spec fn join<T>(xs: Seq<Seq<T>>, sep: Seq<T>) -> Seq<T>
    decreases xs.len(),
{
    if xs.len() == 0 {
        Seq::empty()
    } else if xs.len() == 1 {
        xs[0]
    } else {
        xs[0] + sep + join(xs.skip(1), sep)
    }
}

pub open spec fn space() -> Seq<char> {
    seq![' ']
}

pub open spec fn comma() -> Seq<char> {
    seq![',', ' ']
}

pub open spec fn comma_toks() -> Seq<Tok> {
    seq![Tok::Symbol(Symbol::Comma)]
}

/// A keyword between two spaces.
pub open spec fn spaced(k: Keyword) -> Seq<char> {
    space() + keyword_text(k) + space()
}

pub open spec fn keyword_toks(k: Keyword) -> Seq<Tok> {
    seq![Tok::Keyword(k)]
}

pub open spec fn symbol_toks(s: Symbol) -> Seq<Tok> {
    seq![Tok::Symbol(s)]
}

pub open spec fn word_toks(w: Seq<char>) -> Seq<Tok> {
    seq![Tok::Ident(w)]
}

// ----- Literals and parameters -----

pub open spec fn param_text(p: Param) -> Seq<char> {
    match p {
        Param::Positional(n) => seq!['$'] + numeral(n as nat),
        Param::Named(s) => seq!['$'] + s,
    }
}

pub open spec fn param_toks(p: Param) -> Seq<Tok> {
    match p {
        Param::Positional(n) => seq![Tok::Ordinal(numeral(n as nat))],
        Param::Named(s) => seq![Tok::Name(s)],
    }
}

/// The absolute value of `n`.
pub open spec fn magnitude(n: int) -> nat {
    if n < 0 {
        (-n) as nat
    } else {
        n as nat
    }
}

pub open spec fn sign_text(neg: bool) -> Seq<char> {
    if neg {
        seq!['-']
    } else {
        Seq::empty()
    }
}

pub open spec fn integer_text(n: int) -> Seq<char> {
    sign_text(n < 0) + numeral(magnitude(n))
}

/// The text of the value with magnitude `m`: the shortest decimal that stands
/// for it, always with a decimal point.
pub open spec fn float_text(f: Format, neg: bool, m: nat) -> Seq<char> {
    if m < f.inf {
        sign_text(neg) + magnitude_text(f, m)
    } else if m == f.inf {
        sign_text(neg) + seq!['i', 'n', 'f']
    } else {
        seq!['N', 'a', 'N']
    }
}

pub open spec fn f64_text(b: u64) -> Seq<char> {
    float_text(binary64(), is_negative64(b), magnitude64(b))
}

pub open spec fn f32_text(b: u32) -> Seq<char> {
    float_text(binary32(), is_negative32(b), magnitude32(b))
}

pub open spec fn float_toks(f: Format, neg: bool, m: nat) -> Seq<Tok> {
    seq![Tok::Number(neg, magnitude_whole(f, m), Some(magnitude_fraction(f, m)))]
}

pub open spec fn f64_toks(b: u64) -> Seq<Tok> {
    float_toks(binary64(), is_negative64(b), magnitude64(b))
}

pub open spec fn f32_toks(b: u32) -> Seq<Tok> {
    float_toks(binary32(), is_negative32(b), magnitude32(b))
}

pub open spec fn quoted_text(s: Seq<char>) -> Seq<char> {
    seq!['\''] + s + seq!['\'']
}

pub open spec fn literal_text(l: Literal) -> Seq<char> {
    match l {
        Literal::Str(s) => quoted_text(s),
        Literal::I64(n) => integer_text(n as int),
        Literal::F64(b) => f64_text(b),
        Literal::Bool(true) => keyword_text(Keyword::True),
        Literal::Bool(false) => keyword_text(Keyword::False),
        Literal::Null => keyword_text(Keyword::Null),
    }
}

pub open spec fn literal_toks(l: Literal) -> Seq<Tok> {
    match l {
        Literal::Str(s) => seq![Tok::Quoted(s)],
        Literal::I64(n) => seq![Tok::Number(n < 0, numeral(magnitude(n as int)), None)],
        Literal::F64(b) => f64_toks(b),
        Literal::Bool(true) => keyword_toks(Keyword::True),
        Literal::Bool(false) => keyword_toks(Keyword::False),
        Literal::Null => keyword_toks(Keyword::Null),
    }
}

pub open spec fn literal_texts(ls: Seq<Literal>) -> Seq<Seq<char>> {
    Seq::new(ls.len(), |i: int| literal_text(ls[i]))
}

pub open spec fn literal_toks_all(ls: Seq<Literal>) -> Seq<Seq<Tok>> {
    Seq::new(ls.len(), |i: int| literal_toks(ls[i]))
}

pub open spec fn expr_text(e: Expr) -> Seq<char> {
    match e {
        Expr::Param(p) => param_text(p),
        Expr::Literal(l) => literal_text(l),
    }
}

pub open spec fn expr_toks(e: Expr) -> Seq<Tok> {
    match e {
        Expr::Param(p) => param_toks(p),
        Expr::Literal(l) => literal_toks(l),
    }
}

// ----- Operators and distances -----

pub open spec fn comparison_text(op: CmpOp) -> Seq<char> {
    match op {
        CmpOp::Eq => "="@,
        CmpOp::Lt => "<"@,
        CmpOp::Le => "<="@,
        CmpOp::Gt => ">"@,
        CmpOp::Ge => ">="@,
        CmpOp::Ne => "!="@,
    }
}

pub open spec fn comparison_toks(op: CmpOp) -> Seq<Tok> {
    seq![Tok::Cmp(op)]
}

pub open spec fn metric_text(op: DistanceOp) -> Seq<char> {
    match op {
        DistanceOp::L2 => "<->"@,
        DistanceOp::Cosine => "<=>"@,
        DistanceOp::InnerProduct => "<#>"@,
    }
}

pub open spec fn distance_text(d: Distance) -> Seq<char> {
    "embedding"@ + space() + metric_text(d.metric) + space() + param_text(d.param)
}

pub open spec fn distance_toks(d: Distance) -> Seq<Tok> {
    word_toks("embedding"@) + seq![Tok::Metric(d.metric)] + param_toks(d.param)
}

// ----- Predicates -----

pub open spec fn subscript_text(name: Seq<char>, subscript: Option<Seq<char>>) -> Seq<char> {
    match subscript {
        Some(key) => name + seq!['['] + quoted_text(key) + seq![']'],
        None => name,
    }
}

pub open spec fn subscript_toks(name: Seq<char>, subscript: Option<Seq<char>>) -> Seq<Tok> {
    match subscript {
        Some(key) => word_toks(name) + symbol_toks(Symbol::LeftBracket) + seq![Tok::Quoted(key)]
            + symbol_toks(Symbol::RightBracket),
        None => word_toks(name),
    }
}

pub open spec fn field_text(f: Field) -> Seq<char> {
    subscript_text(f.name, f.subscript)
}

pub open spec fn field_toks(f: Field) -> Seq<Tok> {
    subscript_toks(f.name, f.subscript)
}

/// How tightly the outermost operator of `p` binds.
pub open spec fn precedence(p: Pred) -> int {
    match p {
        Pred::Or(_) => 0,
        Pred::And(_) => 1,
        Pred::Not(_) => 2,
        _ => 3,
    }
}

/// The text of `p` under an operator of precedence `outer`.
pub open spec fn pred_text(p: Pred, outer: int) -> Seq<char>
    decreases p, 1int,
{
    if precedence(p) < outer {
        seq!['('] + bare_text(p) + seq![')']
    } else {
        bare_text(p)
    }
}

/// The text of `p` without parentheses of its own.
pub open spec fn bare_text(p: Pred) -> Seq<char>
    decreases p, 0int,
{
    match p {
        Pred::Or(ps) => join(pred_texts(ps, 0), spaced(Keyword::Or)),
        Pred::And(ps) => join(pred_texts(ps, 1), spaced(Keyword::And)),
        Pred::Not(q) => keyword_text(Keyword::Not) + space() + pred_text(*q, 2),
        Pred::Eq(f, v) => field_text(f) + space() + comparison_text(CmpOp::Eq) + space()
            + expr_text(v),
        Pred::Cmp(f, op, v) => field_text(f) + space() + comparison_text(op) + space()
            + expr_text(v),
        Pred::In(f, ls) => field_text(f) + spaced(Keyword::In) + seq!['('] + join(
            literal_texts(ls),
            comma(),
        ) + seq![')'],
        Pred::Between(f, lo, hi) => field_text(f) + spaced(Keyword::Between) + literal_text(lo)
            + spaced(Keyword::And) + literal_text(hi),
        Pred::IsNull(f, true) => field_text(f) + spaced(Keyword::Is) + keyword_text(Keyword::Not)
            + space() + keyword_text(Keyword::Null),
        Pred::IsNull(f, false) => field_text(f) + spaced(Keyword::Is) + keyword_text(
            Keyword::Null,
        ),
        Pred::ArrayContains(f, l) => field_text(f) + space() + "@>"@ + space() + literal_text(l),
        Pred::DistanceThreshold(d, op, radius) => distance_text(d) + space() + comparison_text(op)
            + space() + f32_text(radius),
    }
}

/// The texts of `ps` under an operator of precedence `outer`.
pub open spec fn pred_texts(ps: Seq<Pred>, outer: int) -> Seq<Seq<char>>
    decreases ps, 2int,
{
    Seq::new(
        ps.len(),
        |i: int|
            if 0 <= i < ps.len() {
                pred_text(ps[i], outer)
            } else {
                Seq::empty()
            },
    )
}

pub open spec fn pred_toks(p: Pred, outer: int) -> Seq<Tok>
    decreases p, 1int,
{
    if precedence(p) < outer {
        symbol_toks(Symbol::LeftParen) + bare_toks(p) + symbol_toks(Symbol::RightParen)
    } else {
        bare_toks(p)
    }
}

pub open spec fn bare_toks(p: Pred) -> Seq<Tok>
    decreases p, 0int,
{
    match p {
        Pred::Or(ps) => join(pred_toks_all(ps, 0), keyword_toks(Keyword::Or)),
        Pred::And(ps) => join(pred_toks_all(ps, 1), keyword_toks(Keyword::And)),
        Pred::Not(q) => keyword_toks(Keyword::Not) + pred_toks(*q, 2),
        Pred::Eq(f, v) => field_toks(f) + comparison_toks(CmpOp::Eq) + expr_toks(v),
        Pred::Cmp(f, op, v) => field_toks(f) + comparison_toks(op) + expr_toks(v),
        Pred::In(f, ls) => field_toks(f) + keyword_toks(Keyword::In) + symbol_toks(
            Symbol::LeftParen,
        ) + join(literal_toks_all(ls), comma_toks()) + symbol_toks(Symbol::RightParen),
        Pred::Between(f, lo, hi) => field_toks(f) + keyword_toks(Keyword::Between) + literal_toks(
            lo,
        ) + keyword_toks(Keyword::And) + literal_toks(hi),
        Pred::IsNull(f, true) => field_toks(f) + keyword_toks(Keyword::Is) + keyword_toks(
            Keyword::Not,
        ) + keyword_toks(Keyword::Null),
        Pred::IsNull(f, false) => field_toks(f) + keyword_toks(Keyword::Is) + keyword_toks(
            Keyword::Null,
        ),
        Pred::ArrayContains(f, l) => field_toks(f) + symbol_toks(Symbol::Contains) + literal_toks(
            l,
        ),
        Pred::DistanceThreshold(d, op, radius) => distance_toks(d) + comparison_toks(op)
            + f32_toks(radius),
    }
}

pub open spec fn pred_toks_all(ps: Seq<Pred>, outer: int) -> Seq<Seq<Tok>>
    decreases ps, 2int,
{
    Seq::new(
        ps.len(),
        |i: int|
            if 0 <= i < ps.len() {
                pred_toks(ps[i], outer)
            } else {
                Seq::empty()
            },
    )
}

// ----- SELECT -----

pub open spec fn proj_text(p: Proj) -> Seq<char>
    decreases p,
{
    match p {
        Proj::Wildcard => "*"@,
        Proj::CountStar => "COUNT(*)"@,
        Proj::Id => "id"@,
        Proj::Metadata => "metadata"@,
        Proj::DistanceExpr(d) => distance_text(d),
        Proj::Field(name) => name,
        Proj::Aliased(inner, alias) => proj_text(*inner) + spaced(Keyword::As) + alias,
    }
}

pub open spec fn proj_toks(p: Proj) -> Seq<Tok>
    decreases p,
{
    match p {
        Proj::Wildcard => symbol_toks(Symbol::Star),
        Proj::CountStar => word_toks("COUNT"@) + symbol_toks(Symbol::LeftParen) + symbol_toks(
            Symbol::Star,
        ) + symbol_toks(Symbol::RightParen),
        Proj::Id => word_toks("id"@),
        Proj::Metadata => word_toks("metadata"@),
        Proj::DistanceExpr(d) => distance_toks(d),
        Proj::Field(name) => word_toks(name),
        Proj::Aliased(inner, alias) => proj_toks(*inner) + keyword_toks(Keyword::As) + word_toks(
            alias,
        ),
    }
}

pub open spec fn proj_texts(ps: Seq<Proj>) -> Seq<Seq<char>> {
    Seq::new(ps.len(), |i: int| proj_text(ps[i]))
}

pub open spec fn proj_toks_all(ps: Seq<Proj>) -> Seq<Seq<Tok>> {
    Seq::new(ps.len(), |i: int| proj_toks(ps[i]))
}

pub open spec fn direction_keyword(d: OrderDir) -> Keyword {
    match d {
        OrderDir::Asc => Keyword::Asc,
        OrderDir::Desc => Keyword::Desc,
    }
}

pub open spec fn order_text(o: Order) -> Seq<char> {
    match o {
        Order::Distance(d, dir) => distance_text(d) + space() + keyword_text(
            direction_keyword(dir),
        ),
        Order::Field(name, dir) => name + space() + keyword_text(direction_keyword(dir)),
    }
}

pub open spec fn order_toks(o: Order) -> Seq<Tok> {
    match o {
        Order::Distance(d, dir) => distance_toks(d) + keyword_toks(direction_keyword(dir)),
        Order::Field(name, dir) => word_toks(name) + keyword_toks(direction_keyword(dir)),
    }
}

pub open spec fn order_texts(os: Seq<Order>) -> Seq<Seq<char>> {
    Seq::new(os.len(), |i: int| order_text(os[i]))
}

pub open spec fn order_toks_all(os: Seq<Order>) -> Seq<Seq<Tok>> {
    Seq::new(os.len(), |i: int| order_toks(os[i]))
}

pub open spec fn where_text(p: Option<Pred>) -> Seq<char> {
    match p {
        Some(q) => spaced(Keyword::Where) + pred_text(q, 0),
        None => Seq::empty(),
    }
}

pub open spec fn where_toks(p: Option<Pred>) -> Seq<Tok> {
    match p {
        Some(q) => keyword_toks(Keyword::Where) + pred_toks(q, 0),
        None => Seq::empty(),
    }
}

pub open spec fn order_by_text(os: Seq<Order>) -> Seq<char> {
    if os.len() == 0 {
        Seq::empty()
    } else {
        spaced(Keyword::Order) + keyword_text(Keyword::By) + space() + join(
            order_texts(os),
            comma(),
        )
    }
}

pub open spec fn order_by_toks(os: Seq<Order>) -> Seq<Tok> {
    if os.len() == 0 {
        Seq::empty()
    } else {
        keyword_toks(Keyword::Order) + keyword_toks(Keyword::By) + join(
            order_toks_all(os),
            comma_toks(),
        )
    }
}

pub open spec fn limit_text(n: Option<u64>) -> Seq<char> {
    match n {
        Some(k) => spaced(Keyword::Limit) + numeral(k as nat),
        None => Seq::empty(),
    }
}

pub open spec fn limit_toks(n: Option<u64>) -> Seq<Tok> {
    match n {
        Some(k) => keyword_toks(Keyword::Limit) + seq![Tok::Number(false, numeral(k as nat), None)],
        None => Seq::empty(),
    }
}

pub open spec fn query_text(q: Query) -> Seq<char> {
    keyword_text(Keyword::Select) + space() + join(proj_texts(q.projection), comma()) + spaced(
        Keyword::From,
    ) + q.from_table + where_text(q.predicate) + order_by_text(q.order_by) + limit_text(q.limit)
}

pub open spec fn query_toks(q: Query) -> Seq<Tok> {
    keyword_toks(Keyword::Select) + join(proj_toks_all(q.projection), comma_toks()) + keyword_toks(
        Keyword::From,
    ) + word_toks(q.from_table) + where_toks(q.predicate) + order_by_toks(q.order_by) + limit_toks(
        q.limit,
    )
}

// ----- Other statements -----

pub open spec fn expr_texts(es: Seq<Expr>) -> Seq<Seq<char>> {
    Seq::new(es.len(), |i: int| expr_text(es[i]))
}

pub open spec fn expr_toks_all(es: Seq<Expr>) -> Seq<Seq<Tok>> {
    Seq::new(es.len(), |i: int| expr_toks(es[i]))
}

pub open spec fn row_text(row: Seq<Expr>) -> Seq<char> {
    seq!['('] + join(expr_texts(row), comma()) + seq![')']
}

pub open spec fn row_toks(row: Seq<Expr>) -> Seq<Tok> {
    symbol_toks(Symbol::LeftParen) + join(expr_toks_all(row), comma_toks()) + symbol_toks(
        Symbol::RightParen,
    )
}

pub open spec fn row_texts(rows: Seq<Seq<Expr>>) -> Seq<Seq<char>> {
    Seq::new(rows.len(), |i: int| row_text(rows[i]))
}

pub open spec fn row_toks_all(rows: Seq<Seq<Expr>>) -> Seq<Seq<Tok>> {
    Seq::new(rows.len(), |i: int| row_toks(rows[i]))
}

pub open spec fn source_text(s: Source) -> Seq<char> {
    match s {
        Source::Rows(rows) => join(row_texts(rows), comma()),
        Source::Param(p) => param_text(p),
    }
}

pub open spec fn source_toks(s: Source) -> Seq<Tok> {
    match s {
        Source::Rows(rows) => join(row_toks_all(rows), comma_toks()),
        Source::Param(p) => param_toks(p),
    }
}

pub open spec fn insert_text(table: Seq<char>, columns: Seq<Seq<char>>, source: Source) -> Seq<
    char,
> {
    keyword_text(Keyword::Insert) + spaced(Keyword::Into) + table + space() + seq!['('] + join(
        columns,
        comma(),
    ) + seq![')'] + spaced(Keyword::Values) + source_text(source)
}

pub open spec fn column_toks(columns: Seq<Seq<char>>) -> Seq<Seq<Tok>> {
    Seq::new(columns.len(), |i: int| word_toks(columns[i]))
}

pub open spec fn insert_toks(table: Seq<char>, columns: Seq<Seq<char>>, source: Source) -> Seq<
    Tok,
> {
    keyword_toks(Keyword::Insert) + keyword_toks(Keyword::Into) + word_toks(table) + symbol_toks(
        Symbol::LeftParen,
    ) + join(column_toks(columns), comma_toks()) + symbol_toks(Symbol::RightParen) + keyword_toks(
        Keyword::Values,
    ) + source_toks(source)
}

pub open spec fn assign_text(a: Assign) -> Seq<char> {
    subscript_text(a.field, a.subscript) + space() + comparison_text(CmpOp::Eq) + space()
        + expr_text(a.value)
}

pub open spec fn assign_toks(a: Assign) -> Seq<Tok> {
    subscript_toks(a.field, a.subscript) + comparison_toks(CmpOp::Eq) + expr_toks(a.value)
}

pub open spec fn assign_texts(v: Seq<Assign>) -> Seq<Seq<char>> {
    Seq::new(v.len(), |i: int| assign_text(v[i]))
}

pub open spec fn assign_toks_all(v: Seq<Assign>) -> Seq<Seq<Tok>> {
    Seq::new(v.len(), |i: int| assign_toks(v[i]))
}

pub open spec fn update_text(table: Seq<char>, v: Seq<Assign>, p: Pred) -> Seq<char> {
    keyword_text(Keyword::Update) + space() + table + spaced(Keyword::Assign) + join(
        assign_texts(v),
        comma(),
    ) + spaced(Keyword::Where) + pred_text(p, 0)
}

pub open spec fn update_toks(table: Seq<char>, v: Seq<Assign>, p: Pred) -> Seq<Tok> {
    keyword_toks(Keyword::Update) + word_toks(table) + keyword_toks(Keyword::Assign) + join(
        assign_toks_all(v),
        comma_toks(),
    ) + keyword_toks(Keyword::Where) + pred_toks(p, 0)
}

pub open spec fn delete_text(table: Seq<char>, p: Pred) -> Seq<char> {
    keyword_text(Keyword::Delete) + spaced(Keyword::From) + table + spaced(Keyword::Where)
        + pred_text(p, 0)
}

pub open spec fn delete_toks(table: Seq<char>, p: Pred) -> Seq<Tok> {
    keyword_toks(Keyword::Delete) + keyword_toks(Keyword::From) + word_toks(table) + keyword_toks(
        Keyword::Where,
    ) + pred_toks(p, 0)
}

pub open spec fn method_text(m: IndexMethod) -> Seq<char> {
    match m {
        IndexMethod::Hash => "HASH"@,
        IndexMethod::Btree => "BTREE"@,
        IndexMethod::Inverted => "INVERTED"@,
    }
}

pub open spec fn name_text(name: Option<Seq<char>>) -> Seq<char> {
    match name {
        Some(n) => space() + n,
        None => Seq::empty(),
    }
}

pub open spec fn name_toks(name: Option<Seq<char>>) -> Seq<Tok> {
    match name {
        Some(n) => word_toks(n),
        None => Seq::empty(),
    }
}

pub open spec fn create_index_text(
    name: Option<Seq<char>>,
    table: Seq<char>,
    method: IndexMethod,
    field: Seq<char>,
) -> Seq<char> {
    keyword_text(Keyword::Create) + space() + keyword_text(Keyword::Index) + name_text(name)
        + spaced(Keyword::On) + table + spaced(Keyword::Using) + method_text(method) + space()
        + seq!['('] + field + seq![')']
}

pub open spec fn create_index_toks(
    name: Option<Seq<char>>,
    table: Seq<char>,
    method: IndexMethod,
    field: Seq<char>,
) -> Seq<Tok> {
    keyword_toks(Keyword::Create) + keyword_toks(Keyword::Index) + name_toks(name) + keyword_toks(
        Keyword::On,
    ) + word_toks(table) + keyword_toks(Keyword::Using) + word_toks(method_text(method))
        + symbol_toks(Symbol::LeftParen) + word_toks(field) + symbol_toks(Symbol::RightParen)
}

pub open spec fn drop_index_text(name: Seq<char>, table: Seq<char>) -> Seq<char> {
    keyword_text(Keyword::Drop) + spaced(Keyword::Index) + name + spaced(Keyword::On) + table
}

pub open spec fn drop_index_toks(name: Seq<char>, table: Seq<char>) -> Seq<Tok> {
    keyword_toks(Keyword::Drop) + keyword_toks(Keyword::Index) + word_toks(name) + keyword_toks(
        Keyword::On,
    ) + word_toks(table)
}

/// The canonical text of a statement.
pub open spec fn stmt_text(s: Stmt) -> Seq<char> {
    match s {
        Stmt::Select(q) => query_text(q),
        Stmt::Insert { table, columns, source } => insert_text(table, columns, source),
        Stmt::Update { table, assignments, predicate } => update_text(
            table,
            assignments,
            predicate,
        ),
        Stmt::Delete { table, predicate } => delete_text(table, predicate),
        Stmt::Vacuum { table } => keyword_text(Keyword::Vacuum) + space() + table,
        Stmt::Checkpoint => keyword_text(Keyword::Checkpoint),
        Stmt::CreateIndex { name, table, method, field } => create_index_text(
            name,
            table,
            method,
            field,
        ),
        Stmt::DropIndex { name, table } => drop_index_text(name, table),
    }
}

/// The tokens of the canonical text of a statement.
pub open spec fn stmt_toks(s: Stmt) -> Seq<Tok> {
    match s {
        Stmt::Select(q) => query_toks(q),
        Stmt::Insert { table, columns, source } => insert_toks(table, columns, source),
        Stmt::Update { table, assignments, predicate } => update_toks(
            table,
            assignments,
            predicate,
        ),
        Stmt::Delete { table, predicate } => delete_toks(table, predicate),
        Stmt::Vacuum { table } => keyword_toks(Keyword::Vacuum) + word_toks(table),
        Stmt::Checkpoint => keyword_toks(Keyword::Checkpoint),
        Stmt::CreateIndex { name, table, method, field } => create_index_toks(
            name,
            table,
            method,
            field,
        ),
        Stmt::DropIndex { name, table } => drop_index_toks(name, table),
    }
}

/// One more item at the end of a joined sequence.
pub proof fn lemma_join_push<T>(xs: Seq<Seq<T>>, x: Seq<T>, sep: Seq<T>)
    requires
        xs.len() > 0,
    ensures
        join(xs.push(x), sep) == join(xs, sep) + sep + x,
    decreases xs.len(),
{
    let ys = xs.push(x);
    assert(ys.skip(1) =~= xs.skip(1).push(x));
    if xs.len() == 1 {
        assert(ys.skip(1) =~= seq![x]);
        assert(join(ys.skip(1), sep) == x);
    } else {
        lemma_join_push(xs.skip(1), x, sep);
        assert(xs[0] + sep + (join(xs.skip(1), sep) + sep + x) =~= (xs[0] + sep + join(
            xs.skip(1),
            sep,
        )) + sep + x);
    }
}

} // verus!
