//! The grammar of KQL over tokens.
//!
//! Each function says what the front of a token sequence stands for and which
//! tokens follow it. Where the front does not fit, the error is the number of
//! tokens from the offending one on.

use crate::ast::{CmpOp, IndexMethod, OrderDir};
use crate::ieee::{binary32, binary64};
use crate::keyword::{same_ignoring_case, Keyword};
use crate::lexer::{Symbol, Tok};
use crate::syntax::{
    Assign, Distance, Expr, Field, Literal, Order, Param, Pred, Proj, Query, Source, Stmt,
};
use crate::text::numeral_value;
use vstd::prelude::*;

verus! {

/// What was read, and what follows it.
pub type Parsed<X> = Result<(X, Seq<Tok>), nat>;

/// What follows a token that carries nothing.
pub type Rest = Result<Seq<Tok>, nat>;

pub open spec fn at_keyword(ts: Seq<Tok>, k: Keyword) -> bool {
    ts.len() > 0 && ts[0] == Tok::Keyword(k)
}

pub open spec fn at_symbol(ts: Seq<Tok>, s: Symbol) -> bool {
    ts.len() > 0 && ts[0] == Tok::Symbol(s)
}

/// `k`
pub open spec fn keyword(ts: Seq<Tok>, k: Keyword) -> Rest {
    if at_keyword(ts, k) {
        Ok(ts.skip(1))
    } else {
        Err(ts.len())
    }
}

/// `s`
pub open spec fn symbol(ts: Seq<Tok>, s: Symbol) -> Rest {
    if at_symbol(ts, s) {
        Ok(ts.skip(1))
    } else {
        Err(ts.len())
    }
}

/// `identifier`
pub open spec fn identifier(ts: Seq<Tok>) -> Parsed<Seq<char>> {
    if ts.len() > 0 && ts[0] is Ident {
        Ok((ts[0]->Ident_0, ts.skip(1)))
    } else {
        Err(ts.len())
    }
}

/// Whether an identifier that is `word` up to letter case comes first.
pub open spec fn at_word(ts: Seq<Tok>, word: Seq<char>) -> bool {
    ts.len() > 0 && ts[0] is Ident && same_ignoring_case(ts[0]->Ident_0, word)
}

/// `param = "$" (integer | identifier)`
pub open spec fn param(ts: Seq<Tok>) -> Parsed<Param> {
    if ts.len() > 0 && ts[0] is Ordinal && numeral_value(ts[0]->Ordinal_0) <= u32::MAX {
        Ok((Param::Positional(numeral_value(ts[0]->Ordinal_0) as u32), ts.skip(1)))
    } else if ts.len() > 0 && ts[0] is Name {
        Ok((Param::Named(ts[0]->Name_0), ts.skip(1)))
    } else {
        Err(ts.len())
    }
}

/// `string_literal`
pub open spec fn string_literal(ts: Seq<Tok>) -> Parsed<Seq<char>> {
    if ts.len() > 0 && ts[0] is Quoted {
        Ok((ts[0]->Quoted_0, ts.skip(1)))
    } else {
        Err(ts.len())
    }
}

/// The bit pattern of the 64-bit value nearest to a signed decimal.
pub open spec fn decimal64(neg: bool, whole: Seq<char>, frac: Seq<char>) -> u64 {
    let m = binary64().nearest(numeral_value(whole + frac), frac.len());
    (if neg {
        m + 0x8000_0000_0000_0000
    } else {
        m
    }) as u64
}

/// The bit pattern of the 32-bit value nearest to a signed decimal.
pub open spec fn decimal32(neg: bool, whole: Seq<char>, frac: Seq<char>) -> u32 {
    let m = binary32().nearest(numeral_value(whole + frac), frac.len());
    (if neg {
        m + 0x8000_0000
    } else {
        m
    }) as u32
}

/// The integer that a signed numeral stands for.
pub open spec fn signed_value(neg: bool, whole: Seq<char>) -> int {
    if neg {
        -(numeral_value(whole) as int)
    } else {
        numeral_value(whole) as int
    }
}

/// `number_literal`: a decimal point makes it a floating-point number, and an
/// integer has to fit in 64 bits.
pub open spec fn number_literal(ts: Seq<Tok>) -> Parsed<Literal> {
    if ts.len() > 0 {
        match ts[0] {
            Tok::Number(neg, whole, Some(frac)) => Ok(
                (Literal::F64(decimal64(neg, whole, frac)), ts.skip(1)),
            ),
            Tok::Number(neg, whole, None) => if i64::MIN <= signed_value(neg, whole)
                <= i64::MAX {
                Ok((Literal::I64(signed_value(neg, whole) as i64), ts.skip(1)))
            } else {
                Err(ts.len())
            },
            _ => Err(ts.len()),
        }
    } else {
        Err(ts.len())
    }
}

/// `literal = string_literal | number_literal | TRUE | FALSE | NULL`
pub open spec fn literal(ts: Seq<Tok>) -> Parsed<Literal> {
    if ts.len() > 0 && ts[0] is Quoted {
        Ok((Literal::Str(ts[0]->Quoted_0), ts.skip(1)))
    } else if at_keyword(ts, Keyword::True) {
        Ok((Literal::Bool(true), ts.skip(1)))
    } else if at_keyword(ts, Keyword::False) {
        Ok((Literal::Bool(false), ts.skip(1)))
    } else if at_keyword(ts, Keyword::Null) {
        Ok((Literal::Null, ts.skip(1)))
    } else {
        number_literal(ts)
    }
}

/// Whether a parameter comes first.
pub open spec fn at_param(ts: Seq<Tok>) -> bool {
    ts.len() > 0 && (ts[0] is Ordinal || ts[0] is Name)
}

/// `atom_value = literal | param`
pub open spec fn atom_value(ts: Seq<Tok>) -> Parsed<Expr> {
    if at_param(ts) {
        match param(ts) {
            Ok((p, r)) => Ok((Expr::Param(p), r)),
            Err(e) => Err(e),
        }
    } else {
        match literal(ts) {
            Ok((l, r)) => Ok((Expr::Literal(l), r)),
            Err(e) => Err(e),
        }
    }
}

/// Whether a distance expression comes first.
pub open spec fn at_distance(ts: Seq<Tok>) -> bool {
    at_word(ts, "EMBEDDING"@) && ts.len() > 1 && ts[1] is Metric
}

/// `distance_expr = "embedding" distance_op param`
pub open spec fn distance_expr(ts: Seq<Tok>) -> Parsed<Distance>
    recommends
        at_distance(ts),
{
    match param(ts.skip(2)) {
        Ok((p, r)) => Ok((Distance { metric: ts[1]->Metric_0, param: p }, r)),
        Err(e) => Err(e),
    }
}

// ----- Comma-separated lists -----

pub open spec fn prepend_item<X>(x: X, p: Parsed<Seq<X>>) -> Parsed<Seq<X>> {
    match p {
        Ok((xs, r)) => Ok((seq![x] + xs, r)),
        Err(e) => Err(e),
    }
}

/// `("," item)*`
pub open spec fn more_items<X>(item: spec_fn(Seq<Tok>) -> Parsed<X>, ts: Seq<Tok>) -> Parsed<
    Seq<X>,
>
    decreases ts.len(),
{
    if at_symbol(ts, Symbol::Comma) {
        match item(ts.skip(1)) {
            Ok((x, r)) => if r.len() < ts.len() {
                prepend_item(x, more_items(item, r))
            } else {
                Err(ts.len())
            },
            Err(e) => Err(e),
        }
    } else {
        Ok((Seq::empty(), ts))
    }
}

/// `item ("," item)*`
pub open spec fn items<X>(item: spec_fn(Seq<Tok>) -> Parsed<X>, ts: Seq<Tok>) -> Parsed<Seq<X>> {
    match item(ts) {
        Ok((x, r)) => prepend_item(x, more_items(item, r)),
        Err(e) => Err(e),
    }
}

pub open spec fn identifiers() -> spec_fn(Seq<Tok>) -> Parsed<Seq<char>> {
    |ts: Seq<Tok>| identifier(ts)
}

pub open spec fn literals() -> spec_fn(Seq<Tok>) -> Parsed<Literal> {
    |ts: Seq<Tok>| literal(ts)
}

// ----- Predicates -----

/// `field_ref = identifier ("[" string_literal "]")?`
pub open spec fn field_ref(ts: Seq<Tok>) -> Parsed<Field> {
    match identifier(ts) {
        Ok((name, r)) => if at_symbol(r, Symbol::LeftBracket) {
            match string_literal(r.skip(1)) {
                Ok((key, r2)) => match symbol(r2, Symbol::RightBracket) {
                    Ok(r3) => Ok((Field { name, subscript: Some(key) }, r3)),
                    Err(e) => Err(e),
                },
                Err(e) => Err(e),
            }
        } else {
            Ok((Field { name, subscript: None }, r))
        },
        Err(e) => Err(e),
    }
}

/// `distance_threshold = distance_expr comparison_op number_literal`
pub open spec fn distance_threshold(ts: Seq<Tok>) -> Parsed<Pred> {
    match distance_expr(ts) {
        Ok((d, r)) => if r.len() > 0 && r[0] is Cmp {
            if r.len() > 1 && r[1] is Number {
                let neg = r[1]->Number_0;
                let whole = r[1]->Number_1;
                let frac = match r[1]->Number_2 {
                    Some(f) => f,
                    None => Seq::empty(),
                };
                Ok((Pred::DistanceThreshold(d, r[0]->Cmp_0, decimal32(neg, whole, frac)), r.skip(2)))
            } else {
                Err((r.len() - 1) as nat)
            }
        } else {
            Err(r.len())
        },
        Err(e) => Err(e),
    }
}

/// `between_atom`, behind its field: `BETWEEN literal AND literal`
pub open spec fn between_atom(f: Field, ts: Seq<Tok>) -> Parsed<Pred> {
    match literal(ts.skip(1)) {
        Ok((lo, r)) => match keyword(r, Keyword::And) {
            Ok(r2) => match literal(r2) {
                Ok((hi, r3)) => Ok((Pred::Between(f, lo, hi), r3)),
                Err(e) => Err(e),
            },
            Err(e) => Err(e),
        },
        Err(e) => Err(e),
    }
}

/// `in_atom`, behind its field: `IN "(" literal ("," literal)* ")"`
pub open spec fn in_atom(f: Field, ts: Seq<Tok>) -> Parsed<Pred> {
    match symbol(ts.skip(1), Symbol::LeftParen) {
        Ok(r) => match items(literals(), r) {
            Ok((ls, r2)) => match symbol(r2, Symbol::RightParen) {
                Ok(r3) => Ok((Pred::In(f, ls), r3)),
                Err(e) => Err(e),
            },
            Err(e) => Err(e),
        },
        Err(e) => Err(e),
    }
}

/// `is_null_atom`, behind its field: `IS NOT? NULL`
pub open spec fn is_null_atom(f: Field, ts: Seq<Tok>) -> Parsed<Pred> {
    let negated = at_keyword(ts.skip(1), Keyword::Not);
    let r = if negated {
        ts.skip(2)
    } else {
        ts.skip(1)
    };
    match keyword(r, Keyword::Null) {
        Ok(r2) => Ok((Pred::IsNull(f, negated), r2)),
        Err(e) => Err(e),
    }
}

/// `array_contains_atom`, behind its field: `"@>" literal`
pub open spec fn array_contains_atom(f: Field, ts: Seq<Tok>) -> Parsed<Pred> {
    match literal(ts.skip(1)) {
        Ok((l, r)) => Ok((Pred::ArrayContains(f, l), r)),
        Err(e) => Err(e),
    }
}

/// `comparison_atom`, behind its field: `comparison_op atom_value`
pub open spec fn comparison_atom(f: Field, ts: Seq<Tok>) -> Parsed<Pred> {
    if ts.len() > 0 && ts[0] is Cmp {
        match atom_value(ts.skip(1)) {
            Ok((v, r)) => if ts[0]->Cmp_0 == CmpOp::Eq {
                Ok((Pred::Eq(f, v), r))
            } else {
                Ok((Pred::Cmp(f, ts[0]->Cmp_0, v), r))
            },
            Err(e) => Err(e),
        }
    } else {
        Err(ts.len())
    }
}

/// `atom = distance_threshold | between_atom | in_atom | is_null_atom
/// | array_contains_atom | comparison_atom`
pub open spec fn atom(ts: Seq<Tok>) -> Parsed<Pred> {
    if at_distance(ts) {
        distance_threshold(ts)
    } else {
        match field_ref(ts) {
            Ok((f, r)) => if at_keyword(r, Keyword::Between) {
                between_atom(f, r)
            } else if at_keyword(r, Keyword::In) {
                in_atom(f, r)
            } else if at_keyword(r, Keyword::Is) {
                is_null_atom(f, r)
            } else if at_symbol(r, Symbol::Contains) {
                array_contains_atom(f, r)
            } else {
                comparison_atom(f, r)
            },
            Err(e) => Err(e),
        }
    }
}

/// The terms of a conjunction; anything else is its own only term.
pub open spec fn conjuncts(p: Pred) -> Seq<Pred> {
    match p {
        Pred::And(ps) => ps,
        _ => seq![p],
    }
}

/// The terms of a disjunction; anything else is its own only term.
pub open spec fn disjuncts(p: Pred) -> Seq<Pred> {
    match p {
        Pred::Or(ps) => ps,
        _ => seq![p],
    }
}

pub open spec fn conjunction(ps: Seq<Pred>) -> Pred {
    if ps.len() == 1 {
        ps[0]
    } else {
        Pred::And(ps)
    }
}

pub open spec fn disjunction(ps: Seq<Pred>) -> Pred {
    if ps.len() == 1 {
        ps[0]
    } else {
        Pred::Or(ps)
    }
}

pub open spec fn prepend_items<X>(x: Seq<X>, p: Parsed<Seq<X>>) -> Parsed<Seq<X>> {
    match p {
        Ok((xs, r)) => Ok((x + xs, r)),
        Err(e) => Err(e),
    }
}

/// `predicate = or_expr`, `or_expr = and_expr (OR and_expr)*`; nested
/// disjunctions are flattened.
pub open spec fn or_expr(ts: Seq<Tok>) -> Parsed<Pred>
    decreases ts.len(), 5int,
{
    match and_expr(ts) {
        Ok((p, r)) => if r.len() < ts.len() {
            match prepend_items(disjuncts(p), or_tail(r)) {
                Ok((ps, r2)) => Ok((disjunction(ps), r2)),
                Err(e) => Err(e),
            }
        } else {
            Err(ts.len())
        },
        Err(e) => Err(e),
    }
}

/// `(OR and_expr)*`
pub open spec fn or_tail(ts: Seq<Tok>) -> Parsed<Seq<Pred>>
    decreases ts.len(), 4int,
{
    if at_keyword(ts, Keyword::Or) {
        match and_expr(ts.skip(1)) {
            Ok((p, r)) => if r.len() < ts.len() {
                prepend_items(disjuncts(p), or_tail(r))
            } else {
                Err(ts.len())
            },
            Err(e) => Err(e),
        }
    } else {
        Ok((Seq::empty(), ts))
    }
}

/// `and_expr = not_expr (AND not_expr)*`; nested conjunctions are flattened.
pub open spec fn and_expr(ts: Seq<Tok>) -> Parsed<Pred>
    decreases ts.len(), 3int,
{
    match not_expr(ts) {
        Ok((p, r)) => if r.len() < ts.len() {
            match prepend_items(conjuncts(p), and_tail(r)) {
                Ok((ps, r2)) => Ok((conjunction(ps), r2)),
                Err(e) => Err(e),
            }
        } else {
            Err(ts.len())
        },
        Err(e) => Err(e),
    }
}

/// `(AND not_expr)*`
pub open spec fn and_tail(ts: Seq<Tok>) -> Parsed<Seq<Pred>>
    decreases ts.len(), 2int,
{
    if at_keyword(ts, Keyword::And) {
        match not_expr(ts.skip(1)) {
            Ok((p, r)) => if r.len() < ts.len() {
                prepend_items(conjuncts(p), and_tail(r))
            } else {
                Err(ts.len())
            },
            Err(e) => Err(e),
        }
    } else {
        Ok((Seq::empty(), ts))
    }
}

/// `not_expr = NOT not_expr | atom_or_parens`
pub open spec fn not_expr(ts: Seq<Tok>) -> Parsed<Pred>
    decreases ts.len(), 1int,
{
    if at_keyword(ts, Keyword::Not) {
        match not_expr(ts.skip(1)) {
            Ok((p, r)) => Ok((Pred::Not(Box::new(p)), r)),
            Err(e) => Err(e),
        }
    } else {
        atom_or_parens(ts)
    }
}

/// `atom_or_parens = "(" predicate ")" | atom`
pub open spec fn atom_or_parens(ts: Seq<Tok>) -> Parsed<Pred>
    decreases ts.len(), 0int,
{
    if at_symbol(ts, Symbol::LeftParen) {
        match or_expr(ts.skip(1)) {
            Ok((p, r)) => match symbol(r, Symbol::RightParen) {
                Ok(r2) => Ok((p, r2)),
                Err(e) => Err(e),
            },
            Err(e) => Err(e),
        }
    } else {
        atom(ts)
    }
}

// ----- SELECT -----

/// The magic column names stand for the typed columns.
pub open spec fn field_projection(name: Seq<char>) -> Proj {
    if same_ignoring_case(name, "id"@) {
        Proj::Id
    } else if same_ignoring_case(name, "metadata"@) {
        Proj::Metadata
    } else {
        Proj::Field(name)
    }
}

/// Whether `COUNT "("` comes first.
pub open spec fn at_count(ts: Seq<Tok>) -> bool {
    at_word(ts, "COUNT"@) && at_symbol(ts.skip(1), Symbol::LeftParen)
}

/// `distance_expr | COUNT "(" "*" ")" | identifier`
pub open spec fn base_projection(ts: Seq<Tok>) -> Parsed<Proj> {
    if at_distance(ts) {
        match distance_expr(ts) {
            Ok((d, r)) => Ok((Proj::DistanceExpr(d), r)),
            Err(e) => Err(e),
        }
    } else if at_count(ts) {
        match symbol(ts.skip(2), Symbol::Star) {
            Ok(r) => match symbol(r, Symbol::RightParen) {
                Ok(r2) => Ok((Proj::CountStar, r2)),
                Err(e) => Err(e),
            },
            Err(e) => Err(e),
        }
    } else {
        match identifier(ts) {
            Ok((name, r)) => Ok((field_projection(name), r)),
            Err(e) => Err(e),
        }
    }
}

/// `select_item = (distance_expr | count_star | identifier) (AS identifier)?`
pub open spec fn select_item(ts: Seq<Tok>) -> Parsed<Proj> {
    match base_projection(ts) {
        Ok((p, r)) => if at_keyword(r, Keyword::As) {
            match identifier(r.skip(1)) {
                Ok((alias, r2)) => Ok((Proj::Aliased(Box::new(p), alias), r2)),
                Err(e) => Err(e),
            }
        } else {
            Ok((p, r))
        },
        Err(e) => Err(e),
    }
}

pub open spec fn select_items() -> spec_fn(Seq<Tok>) -> Parsed<Proj> {
    |ts: Seq<Tok>| select_item(ts)
}

/// `select_list = "*" | select_item ("," select_item)*`
pub open spec fn select_list(ts: Seq<Tok>) -> Parsed<Seq<Proj>> {
    if at_symbol(ts, Symbol::Star) {
        Ok((seq![Proj::Wildcard], ts.skip(1)))
    } else {
        items(select_items(), ts)
    }
}

/// `(ASC | DESC)?`
pub open spec fn direction(ts: Seq<Tok>) -> (OrderDir, Seq<Tok>) {
    if at_keyword(ts, Keyword::Desc) {
        (OrderDir::Desc, ts.skip(1))
    } else if at_keyword(ts, Keyword::Asc) {
        (OrderDir::Asc, ts.skip(1))
    } else {
        (OrderDir::Asc, ts)
    }
}

/// `order_by_item = (distance_expr | identifier) (ASC | DESC)?`
pub open spec fn order_by_item(ts: Seq<Tok>) -> Parsed<Order> {
    if at_distance(ts) {
        match distance_expr(ts) {
            Ok((d, r)) => Ok((Order::Distance(d, direction(r).0), direction(r).1)),
            Err(e) => Err(e),
        }
    } else {
        match identifier(ts) {
            Ok((name, r)) => Ok((Order::Field(name, direction(r).0), direction(r).1)),
            Err(e) => Err(e),
        }
    }
}

pub open spec fn order_by_items() -> spec_fn(Seq<Tok>) -> Parsed<Order> {
    |ts: Seq<Tok>| order_by_item(ts)
}

/// `(ORDER BY order_by_item ("," order_by_item)*)?`
pub open spec fn order_by_clause(ts: Seq<Tok>) -> Parsed<Seq<Order>> {
    if at_keyword(ts, Keyword::Order) {
        match keyword(ts.skip(1), Keyword::By) {
            Ok(r) => items(order_by_items(), r),
            Err(e) => Err(e),
        }
    } else {
        Ok((Seq::empty(), ts))
    }
}

/// `(LIMIT integer)?`; the integer has to fit in 64 bits.
pub open spec fn limit_clause(ts: Seq<Tok>) -> Parsed<Option<u64>> {
    if at_keyword(ts, Keyword::Limit) {
        let r = ts.skip(1);
        if r.len() > 0 {
            match r[0] {
                Tok::Number(false, ds, None) => if numeral_value(ds) <= u64::MAX {
                    Ok((Some(numeral_value(ds) as u64), r.skip(1)))
                } else {
                    Err(r.len())
                },
                _ => Err(r.len()),
            }
        } else {
            Err(r.len())
        }
    } else {
        Ok((None, ts))
    }
}

/// `(WHERE predicate)?`
pub open spec fn where_clause(ts: Seq<Tok>) -> Parsed<Option<Pred>> {
    if at_keyword(ts, Keyword::Where) {
        match or_expr(ts.skip(1)) {
            Ok((p, r)) => Ok((Some(p), r)),
            Err(e) => Err(e),
        }
    } else {
        Ok((None, ts))
    }
}

/// The clauses behind the table of a `select_stmt`.
pub open spec fn select_clauses(projection: Seq<Proj>, from_table: Seq<char>, ts: Seq<Tok>) -> Parsed<
    Stmt,
> {
    match where_clause(ts) {
        Ok((predicate, r)) => match order_by_clause(r) {
            Ok((order_by, r2)) => match limit_clause(r2) {
                Ok((limit, r3)) => Ok(
                    (
                        Stmt::Select(Query { projection, from_table, predicate, order_by, limit }),
                        r3,
                    ),
                ),
                Err(e) => Err(e),
            },
            Err(e) => Err(e),
        },
        Err(e) => Err(e),
    }
}

/// `select_stmt = SELECT select_list FROM table_ref (WHERE predicate)?
/// order_by_clause? limit_clause?`, behind its first keyword
pub open spec fn select_stmt(ts: Seq<Tok>) -> Parsed<Stmt> {
    match select_list(ts) {
        Ok((projection, r)) => match keyword(r, Keyword::From) {
            Ok(r2) => match identifier(r2) {
                Ok((from_table, r3)) => select_clauses(projection, from_table, r3),
                Err(e) => Err(e),
            },
            Err(e) => Err(e),
        },
        Err(e) => Err(e),
    }
}

// ----- Other statements -----

/// `row_value = param`
pub open spec fn row_value(ts: Seq<Tok>) -> Parsed<Expr> {
    match param(ts) {
        Ok((p, r)) => Ok((Expr::Param(p), r)),
        Err(e) => Err(e),
    }
}

pub open spec fn row_values() -> spec_fn(Seq<Tok>) -> Parsed<Expr> {
    |ts: Seq<Tok>| row_value(ts)
}

/// `values_clause = "(" row_value ("," row_value)* ")" | param`
pub open spec fn values_clause(ts: Seq<Tok>) -> Parsed<Source> {
    if at_symbol(ts, Symbol::LeftParen) {
        match items(row_values(), ts.skip(1)) {
            Ok((row, r)) => match symbol(r, Symbol::RightParen) {
                Ok(r2) => Ok((Source::Rows(seq![row]), r2)),
                Err(e) => Err(e),
            },
            Err(e) => Err(e),
        }
    } else {
        match param(ts) {
            Ok((p, r)) => Ok((Source::Param(p), r)),
            Err(e) => Err(e),
        }
    }
}

/// `"(" identifier ("," identifier)* ")"`
pub open spec fn column_list(ts: Seq<Tok>) -> Parsed<Seq<Seq<char>>> {
    match symbol(ts, Symbol::LeftParen) {
        Ok(r) => match items(identifiers(), r) {
            Ok((columns, r2)) => match symbol(r2, Symbol::RightParen) {
                Ok(r3) => Ok((columns, r3)),
                Err(e) => Err(e),
            },
            Err(e) => Err(e),
        },
        Err(e) => Err(e),
    }
}

/// `insert_stmt = INSERT INTO table_ref "(" column_list ")" VALUES
/// values_clause`, behind its first keyword
pub open spec fn insert_stmt(ts: Seq<Tok>) -> Parsed<Stmt> {
    match keyword(ts, Keyword::Into) {
        Ok(r) => match identifier(r) {
            Ok((table, r2)) => match column_list(r2) {
                Ok((columns, r3)) => match keyword(r3, Keyword::Values) {
                    Ok(r4) => match values_clause(r4) {
                        Ok((source, r5)) => Ok((Stmt::Insert { table, columns, source }, r5)),
                        Err(e) => Err(e),
                    },
                    Err(e) => Err(e),
                },
                Err(e) => Err(e),
            },
            Err(e) => Err(e),
        },
        Err(e) => Err(e),
    }
}

/// `set_assignment = identifier ("[" string_literal "]")? "=" atom_value`
pub open spec fn set_assignment(ts: Seq<Tok>) -> Parsed<Assign> {
    match field_ref(ts) {
        Ok((f, r)) => if r.len() > 0 && r[0] == Tok::Cmp(CmpOp::Eq) {
            match atom_value(r.skip(1)) {
                Ok((value, r2)) => Ok(
                    (Assign { field: f.name, subscript: f.subscript, value }, r2),
                ),
                Err(e) => Err(e),
            }
        } else {
            Err(r.len())
        },
        Err(e) => Err(e),
    }
}

pub open spec fn set_assignments() -> spec_fn(Seq<Tok>) -> Parsed<Assign> {
    |ts: Seq<Tok>| set_assignment(ts)
}

/// `update_stmt = UPDATE table_ref SET set_assignment ("," set_assignment)*
/// WHERE predicate`, behind its first keyword
pub open spec fn update_stmt(ts: Seq<Tok>) -> Parsed<Stmt> {
    match identifier(ts) {
        Ok((table, r)) => match keyword(r, Keyword::Assign) {
            Ok(r2) => match items(set_assignments(), r2) {
                Ok((assignments, r3)) => match keyword(r3, Keyword::Where) {
                    Ok(r4) => match or_expr(r4) {
                        Ok((predicate, r5)) => Ok(
                            (Stmt::Update { table, assignments, predicate }, r5),
                        ),
                        Err(e) => Err(e),
                    },
                    Err(e) => Err(e),
                },
                Err(e) => Err(e),
            },
            Err(e) => Err(e),
        },
        Err(e) => Err(e),
    }
}

/// `delete_stmt = DELETE FROM table_ref WHERE predicate`, behind its first
/// keyword
pub open spec fn delete_stmt(ts: Seq<Tok>) -> Parsed<Stmt> {
    match keyword(ts, Keyword::From) {
        Ok(r) => match identifier(r) {
            Ok((table, r2)) => match keyword(r2, Keyword::Where) {
                Ok(r3) => match or_expr(r3) {
                    Ok((predicate, r4)) => Ok((Stmt::Delete { table, predicate }, r4)),
                    Err(e) => Err(e),
                },
                Err(e) => Err(e),
            },
            Err(e) => Err(e),
        },
        Err(e) => Err(e),
    }
}

/// `vacuum_stmt = VACUUM table_ref`, behind its first keyword
pub open spec fn vacuum_stmt(ts: Seq<Tok>) -> Parsed<Stmt> {
    match identifier(ts) {
        Ok((table, r)) => Ok((Stmt::Vacuum { table }, r)),
        Err(e) => Err(e),
    }
}

/// `index_method = HASH | BTREE | INVERTED`
pub open spec fn index_method(ts: Seq<Tok>) -> Parsed<IndexMethod> {
    if at_word(ts, "HASH"@) {
        Ok((IndexMethod::Hash, ts.skip(1)))
    } else if at_word(ts, "BTREE"@) {
        Ok((IndexMethod::Btree, ts.skip(1)))
    } else if at_word(ts, "INVERTED"@) {
        Ok((IndexMethod::Inverted, ts.skip(1)))
    } else {
        Err(ts.len())
    }
}

/// `identifier?`
pub open spec fn optional_name(ts: Seq<Tok>) -> (Option<Seq<char>>, Seq<Tok>) {
    match identifier(ts) {
        Ok((name, r)) => (Some(name), r),
        Err(_) => (None, ts),
    }
}

/// `index_method "(" identifier ")"`
pub open spec fn indexed_field(ts: Seq<Tok>) -> Parsed<(IndexMethod, Seq<char>)> {
    match index_method(ts) {
        Ok((method, r)) => match symbol(r, Symbol::LeftParen) {
            Ok(r2) => match identifier(r2) {
                Ok((field, r3)) => match symbol(r3, Symbol::RightParen) {
                    Ok(r4) => Ok(((method, field), r4)),
                    Err(e) => Err(e),
                },
                Err(e) => Err(e),
            },
            Err(e) => Err(e),
        },
        Err(e) => Err(e),
    }
}

/// `create_index_stmt = CREATE INDEX identifier? ON table_ref USING
/// index_method "(" identifier ")"`, behind its first keyword
pub open spec fn create_index_stmt(ts: Seq<Tok>) -> Parsed<Stmt> {
    match keyword(ts, Keyword::Index) {
        Ok(r) => {
            let (name, r2) = optional_name(r);
            match keyword(r2, Keyword::On) {
                Ok(r3) => match identifier(r3) {
                    Ok((table, r4)) => match keyword(r4, Keyword::Using) {
                        Ok(r5) => match indexed_field(r5) {
                            Ok(((method, field), r6)) => Ok(
                                (Stmt::CreateIndex { name, table, method, field }, r6),
                            ),
                            Err(e) => Err(e),
                        },
                        Err(e) => Err(e),
                    },
                    Err(e) => Err(e),
                },
                Err(e) => Err(e),
            }
        },
        Err(e) => Err(e),
    }
}

/// `drop_index_stmt = DROP INDEX identifier ON table_ref`, behind its first
/// keyword
pub open spec fn drop_index_stmt(ts: Seq<Tok>) -> Parsed<Stmt> {
    match keyword(ts, Keyword::Index) {
        Ok(r) => match identifier(r) {
            Ok((name, r2)) => match keyword(r2, Keyword::On) {
                Ok(r3) => match identifier(r3) {
                    Ok((table, r4)) => Ok((Stmt::DropIndex { name, table }, r4)),
                    Err(e) => Err(e),
                },
                Err(e) => Err(e),
            },
            Err(e) => Err(e),
        },
        Err(e) => Err(e),
    }
}

/// `statement`: one of the eight kinds, told apart by its first keyword
#[verifier::opaque]
pub open spec fn statement(ts: Seq<Tok>) -> Parsed<Stmt> {
    if at_keyword(ts, Keyword::Checkpoint) {
        Ok((Stmt::Checkpoint, ts.skip(1)))
    } else if at_keyword(ts, Keyword::Vacuum) {
        vacuum_stmt(ts.skip(1))
    } else if at_keyword(ts, Keyword::Insert) {
        insert_stmt(ts.skip(1))
    } else if at_keyword(ts, Keyword::Update) {
        update_stmt(ts.skip(1))
    } else if at_keyword(ts, Keyword::Delete) {
        delete_stmt(ts.skip(1))
    } else if at_keyword(ts, Keyword::Select) {
        select_stmt(ts.skip(1))
    } else if at_keyword(ts, Keyword::Create) {
        create_index_stmt(ts.skip(1))
    } else if at_keyword(ts, Keyword::Drop) {
        drop_index_stmt(ts.skip(1))
    } else {
        Err(ts.len())
    }
}

/// `program = statement ";"?`, with nothing behind it
pub open spec fn program(ts: Seq<Tok>) -> Result<Stmt, nat> {
    match statement(ts) {
        Ok((s, r)) => {
            let r2 = if at_symbol(r, Symbol::Semicolon) {
                r.skip(1)
            } else {
                r
            };
            if r2.len() == 0 {
                Ok(s)
            } else {
                Err(r2.len())
            }
        },
        Err(e) => Err(e),
    }
}

/// A predicate with nothing behind it.
pub open spec fn lone_predicate(ts: Seq<Tok>) -> Result<Pred, nat> {
    match or_expr(ts) {
        Ok((p, r)) => if r.len() == 0 {
            Ok(p)
        } else {
            Err(r.len())
        },
        Err(e) => Err(e),
    }
}

} // verus!
