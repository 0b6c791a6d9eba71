//! What the grammar accepts, production by production: exactly which tokens,
//! and what they stand for.

use crate::ast::CmpOp;
use crate::grammar::{
    and_expr, and_tail, array_contains_atom, at_count, at_distance, atom, atom_or_parens,
    atom_value, base_projection, between_atom, comparison_atom, conjuncts, create_index_stmt,
    decimal32, delete_stmt, direction, disjuncts, distance_expr, distance_threshold,
    drop_index_stmt, field_projection, field_ref, identifier, identifiers, in_atom, index_method,
    indexed_field, insert_stmt, is_null_atom, items, keyword, limit_clause, literal, literals,
    more_items, not_expr, or_expr, or_tail, order_by_clause, order_by_item, order_by_items, param,
    row_value, row_values, select_item, select_items, select_list, select_stmt, set_assignment,
    set_assignments, statement, string_literal, symbol, update_stmt, vacuum_stmt, values_clause,
    where_clause, Parsed,
};
use crate::keyword::Keyword;
use crate::lexer::{Symbol, Tok};
use crate::syntax::{Assign, Distance, Expr, Field, Order, Param, Pred, Proj, Query, Source, Stmt};
use vstd::prelude::*;

verus! {

/// Whether the token at `i` is a keyword.
pub open spec fn has_keyword(ts: Seq<Tok>, i: int, k: Keyword) -> bool {
    0 <= i < ts.len() && ts[i] == Tok::Keyword(k)
}

/// Whether the token at `i` is a punctuation mark.
pub open spec fn has_symbol(ts: Seq<Tok>, i: int, s: Symbol) -> bool {
    0 <= i < ts.len() && ts[i] == Tok::Symbol(s)
}

/// Whether the token at `i` is an identifier.
pub open spec fn has_name(ts: Seq<Tok>, i: int) -> bool {
    0 <= i < ts.len() && ts[i] is Ident
}

// ----- Tokens -----

/// A keyword, a mark, an identifier and a string are each one token, and
/// nothing else will do. Where it is missing, the error is at that place.
pub proof fn law_single_tokens(ts: Seq<Tok>, k: Keyword, s: Symbol)
    ensures
        keyword(ts, k) == if has_keyword(ts, 0, k) {
            Ok::<Seq<Tok>, nat>(ts.skip(1))
        } else {
            Err(ts.len())
        },
        symbol(ts, s) == if has_symbol(ts, 0, s) {
            Ok::<Seq<Tok>, nat>(ts.skip(1))
        } else {
            Err(ts.len())
        },
        identifier(ts) == if has_name(ts, 0) {
            Ok::<(Seq<char>, Seq<Tok>), nat>((ts[0]->Ident_0, ts.skip(1)))
        } else {
            Err(ts.len())
        },
        string_literal(ts) == if ts.len() > 0 && ts[0] is Quoted {
            Ok::<(Seq<char>, Seq<Tok>), nat>((ts[0]->Quoted_0, ts.skip(1)))
        } else {
            Err(ts.len())
        },
{
}

/// A list is an item, and then a comma and another item as often as there is a
/// comma. An item that fails fails the list.
pub proof fn law_lists<X>(item: spec_fn(Seq<Tok>) -> Parsed<X>, ts: Seq<Tok>)
    ensures
        item(ts) matches Err(e) ==> items(item, ts) == Err::<(Seq<X>, Seq<Tok>), nat>(e),
        item(ts) matches Ok((x, r)) ==> items(item, ts) == match more_items(item, r) {
            Ok((xs, rest)) => Ok::<(Seq<X>, Seq<Tok>), nat>((seq![x] + xs, rest)),
            Err(e) => Err(e),
        },
        !has_symbol(ts, 0, Symbol::Comma) ==> more_items(item, ts) == Ok::<
            (Seq<X>, Seq<Tok>),
            nat,
        >((Seq::empty(), ts)),
        has_symbol(ts, 0, Symbol::Comma) && item(ts.skip(1)) is Err ==> more_items(item, ts) is Err,
        has_symbol(ts, 0, Symbol::Comma) ==> (item(ts.skip(1)) matches Ok((x, r)) ==> r.len()
            < ts.len() ==> more_items(item, ts) == match more_items(item, r) {
            Ok((xs, rest)) => Ok::<(Seq<X>, Seq<Tok>), nat>((seq![x] + xs, rest)),
            Err(e) => Err(e),
        }),
{
}

/// What the lists of the grammar hold.
pub proof fn law_list_items(ts: Seq<Tok>)
    ensures
        identifiers()(ts) == identifier(ts),
        literals()(ts) == literal(ts),
        select_items()(ts) == select_item(ts),
        order_by_items()(ts) == order_by_item(ts),
        row_values()(ts) == row_value(ts),
        set_assignments()(ts) == set_assignment(ts),
{
}

/// A value is a parameter where a parameter comes first, and otherwise a
/// literal. The values of a row are parameters.
pub proof fn law_values(ts: Seq<Tok>)
    ensures
        atom_value(ts) == if ts.len() > 0 && (ts[0] is Ordinal || ts[0] is Name) {
            match param(ts) {
                Ok((p, r)) => Ok::<(Expr, Seq<Tok>), nat>((Expr::Param(p), r)),
                Err(e) => Err(e),
            }
        } else {
            match literal(ts) {
                Ok((l, r)) => Ok::<(Expr, Seq<Tok>), nat>((Expr::Literal(l), r)),
                Err(e) => Err(e),
            }
        },
        row_value(ts) == match param(ts) {
            Ok((p, r)) => Ok::<(Expr, Seq<Tok>), nat>((Expr::Param(p), r)),
            Err(e) => Err(e),
        },
        param(ts) is Ok ==> ts.len() > 0 && (ts[0] is Ordinal || ts[0] is Name),
        param(ts) matches Ok((_, r)) ==> r == ts.skip(1),
        literal(ts) matches Ok((_, r)) ==> ts.len() > 0 && r == ts.skip(1),
{
}

// ----- Predicates -----

/// A field is an identifier, with a quoted key in brackets if a bracket
/// follows.
pub proof fn law_fields(ts: Seq<Tok>)
    ensures
        has_name(ts, 0) && !has_symbol(ts, 1, Symbol::LeftBracket) ==> field_ref(ts) == Ok::<
            (Field, Seq<Tok>),
            nat,
        >((Field { name: ts[0]->Ident_0, subscript: None }, ts.skip(1))),
        has_name(ts, 0) && has_symbol(ts, 1, Symbol::LeftBracket) && ts.len() > 3 && ts[2] is Quoted
            && has_symbol(ts, 3, Symbol::RightBracket) ==> field_ref(ts) == Ok::<
            (Field, Seq<Tok>),
            nat,
        >((Field { name: ts[0]->Ident_0, subscript: Some(ts[2]->Quoted_0) }, ts.skip(4))),
        field_ref(ts) is Ok ==> has_name(ts, 0) && (has_symbol(ts, 1, Symbol::LeftBracket)
            ==> ts.len() > 3 && ts[2] is Quoted && has_symbol(ts, 3, Symbol::RightBracket)),
{
    if ts.len() > 0 {
        let r = ts.skip(1);
        if r.len() > 0 {
            assert(r[0] == ts[1]);
            assert(r.skip(1) =~= ts.skip(2));
            if r.len() > 1 {
                assert(ts.skip(2)[0] == ts[2]);
                assert(ts.skip(2).skip(1) =~= ts.skip(3));
                if r.len() > 2 {
                    assert(ts.skip(3)[0] == ts[3]);
                    assert(ts.skip(3).skip(1) =~= ts.skip(4));
                }
            }
        }
    }
}

/// A distance is `embedding`, a metric and a parameter.
pub proof fn law_distances(ts: Seq<Tok>)
    requires
        at_distance(ts),
    ensures
        distance_expr(ts) == match param(ts.skip(2)) {
            Ok((p, r)) => Ok::<(Distance, Seq<Tok>), nat>(
                (Distance { metric: ts[1]->Metric_0, param: p }, r),
            ),
            Err(e) => Err(e),
        },
{
}

/// The atoms with a keyword: a range between two literals, a list of literals
/// in parentheses, and whether a field is there.
pub proof fn law_keyword_atoms(f: Field, ts: Seq<Tok>)
    requires
        ts.len() > 0,
    ensures
        ({
            let lo = literal(ts.skip(1));
            let hi = literal(lo->Ok_0.1.skip(1));
            &&& between_atom(f, ts) is Ok <==> lo is Ok && has_keyword(
                lo->Ok_0.1,
                0,
                Keyword::And,
            ) && hi is Ok
            &&& between_atom(f, ts) is Ok ==> between_atom(f, ts)->Ok_0 == (
                Pred::Between(f, lo->Ok_0.0, hi->Ok_0.0),
                hi->Ok_0.1,
            )
        }),
        ({
            let ls = items(literals(), ts.skip(2));
            &&& in_atom(f, ts) is Ok <==> has_symbol(ts, 1, Symbol::LeftParen) && ls is Ok
                && has_symbol(ls->Ok_0.1, 0, Symbol::RightParen)
            &&& in_atom(f, ts) is Ok ==> in_atom(f, ts)->Ok_0 == (
                Pred::In(f, ls->Ok_0.0),
                ls->Ok_0.1.skip(1),
            )
        }),
        is_null_atom(f, ts) is Ok <==> has_keyword(ts, 1, Keyword::Null) || has_keyword(
            ts,
            1,
            Keyword::Not,
        ) && has_keyword(ts, 2, Keyword::Null),
        has_keyword(ts, 1, Keyword::Null) ==> is_null_atom(f, ts) == Ok::<(Pred, Seq<Tok>), nat>(
            (Pred::IsNull(f, false), ts.skip(2)),
        ),
        has_keyword(ts, 1, Keyword::Not) && has_keyword(ts, 2, Keyword::Null) ==> is_null_atom(
            f,
            ts,
        ) == Ok::<(Pred, Seq<Tok>), nat>((Pred::IsNull(f, true), ts.skip(3))),
{
    let r = ts.skip(1);
    if r.len() > 0 {
        assert(r[0] == ts[1]);
        assert(r.skip(1) =~= ts.skip(2));
        if r.len() > 1 {
            assert(ts.skip(2)[0] == ts[2]);
            assert(ts.skip(2).skip(1) =~= ts.skip(3));
        }
    }
}

/// The atoms with an operator: containment of a literal, comparison with a
/// value, and of a distance with a number.
pub proof fn law_operator_atoms(f: Field, ts: Seq<Tok>)
    requires
        ts.len() > 0,
    ensures
        array_contains_atom(f, ts) == match literal(ts.skip(1)) {
            Ok((l, r)) => Ok::<(Pred, Seq<Tok>), nat>((Pred::ArrayContains(f, l), r)),
            Err(e) => Err(e),
        },
        comparison_atom(f, ts) is Ok <==> ts[0] is Cmp && atom_value(ts.skip(1)) is Ok,
        comparison_atom(f, ts) matches Ok((p, r)) ==> r == atom_value(ts.skip(1))->Ok_0.1 && p
            == if ts[0] == Tok::Cmp(CmpOp::Eq) {
            Pred::Eq(f, atom_value(ts.skip(1))->Ok_0.0)
        } else {
            Pred::Cmp(f, ts[0]->Cmp_0, atom_value(ts.skip(1))->Ok_0.0)
        },
        ({
            let d = distance_expr(ts);
            let r = d->Ok_0.1;
            &&& distance_threshold(ts) is Ok <==> d is Ok && r.len() > 1 && r[0] is Cmp
                && r[1] is Number
            &&& distance_threshold(ts) is Ok ==> distance_threshold(ts)->Ok_0 == (
                Pred::DistanceThreshold(
                    d->Ok_0.0,
                    r[0]->Cmp_0,
                    decimal32(
                        r[1]->Number_0,
                        r[1]->Number_1,
                        if r[1]->Number_2 is Some {
                            r[1]->Number_2->Some_0
                        } else {
                            Seq::empty()
                        },
                    ),
                ),
                r.skip(2),
            )
        }),
{
}

/// Which atom it is, the token behind the field says.
pub proof fn law_atoms(ts: Seq<Tok>)
    ensures
        at_distance(ts) ==> atom(ts) == distance_threshold(ts),
        !at_distance(ts) && field_ref(ts) is Err ==> atom(ts) is Err,
        !at_distance(ts) ==> (field_ref(ts) matches Ok((f, r)) ==> atom(ts) == if has_keyword(
            r,
            0,
            Keyword::Between,
        ) {
            between_atom(f, r)
        } else if has_keyword(r, 0, Keyword::In) {
            in_atom(f, r)
        } else if has_keyword(r, 0, Keyword::Is) {
            is_null_atom(f, r)
        } else if has_symbol(r, 0, Symbol::Contains) {
            array_contains_atom(f, r)
        } else {
            comparison_atom(f, r)
        }),
{
}

/// `NOT` binds tighter than `AND`, and `AND` tighter than `OR`. Terms that are
/// conjunctions, or disjunctions, themselves are not nested.
pub proof fn law_binding(ts: Seq<Tok>)
    ensures
        has_keyword(ts, 0, Keyword::Not) ==> not_expr(ts) == match not_expr(ts.skip(1)) {
            Ok((p, r)) => Ok::<(Pred, Seq<Tok>), nat>((Pred::Not(Box::new(p)), r)),
            Err(e) => Err(e),
        },
        !has_keyword(ts, 0, Keyword::Not) ==> not_expr(ts) == atom_or_parens(ts),
        !has_symbol(ts, 0, Symbol::LeftParen) ==> atom_or_parens(ts) == atom(ts),
        has_symbol(ts, 0, Symbol::LeftParen) ==> (atom_or_parens(ts) is Ok <==> or_expr(
            ts.skip(1),
        ) is Ok && has_symbol(or_expr(ts.skip(1))->Ok_0.1, 0, Symbol::RightParen)),
        !has_keyword(ts, 0, Keyword::And) ==> and_tail(ts) == Ok::<(Seq<Pred>, Seq<Tok>), nat>(
            (Seq::empty(), ts),
        ),
        !has_keyword(ts, 0, Keyword::Or) ==> or_tail(ts) == Ok::<(Seq<Pred>, Seq<Tok>), nat>(
            (Seq::empty(), ts),
        ),
        has_keyword(ts, 0, Keyword::And) && not_expr(ts.skip(1)) is Err ==> and_tail(ts) is Err,
        has_keyword(ts, 0, Keyword::Or) && and_expr(ts.skip(1)) is Err ==> or_tail(ts) is Err,
        not_expr(ts) is Err ==> and_expr(ts) is Err,
        and_expr(ts) is Err ==> or_expr(ts) is Err,
        not_expr(ts) matches Ok((p, r)) ==> r.len() < ts.len() ==> (and_expr(ts) is Ok
            <==> and_tail(r) is Ok),
        not_expr(ts) matches Ok((p, r)) ==> r.len() < ts.len() ==> and_tail(r) is Ok ==> ({
            let terms = conjuncts(p) + and_tail(r)->Ok_0.0;
            and_expr(ts)->Ok_0 == (
                if terms.len() == 1 {
                    terms[0]
                } else {
                    Pred::And(terms)
                },
                and_tail(r)->Ok_0.1,
            )
        }),
        and_expr(ts) matches Ok((p, r)) ==> r.len() < ts.len() ==> (or_expr(ts) is Ok <==> or_tail(
            r,
        ) is Ok),
        and_expr(ts) matches Ok((p, r)) ==> r.len() < ts.len() ==> or_tail(r) is Ok ==> ({
            let terms = disjuncts(p) + or_tail(r)->Ok_0.0;
            or_expr(ts)->Ok_0 == (
                if terms.len() == 1 {
                    terms[0]
                } else {
                    Pred::Or(terms)
                },
                or_tail(r)->Ok_0.1,
            )
        }),
{
    reveal_with_fuel(not_expr, 2);
}

/// The terms of a predicate: those of a conjunction, or disjunction, and
/// otherwise the predicate itself.
pub proof fn law_terms(p: Pred, ps: Seq<Pred>)
    ensures
        conjuncts(Pred::And(ps)) == ps,
        disjuncts(Pred::Or(ps)) == ps,
        !(p is And) ==> conjuncts(p) == seq![p],
        !(p is Or) ==> disjuncts(p) == seq![p],
{
}

// ----- SELECT -----

/// What is projected: a distance, `COUNT(*)` or a name, and an alias behind
/// `AS`. A lone star stands for everything.
pub proof fn law_projections(ts: Seq<Tok>)
    ensures
        at_distance(ts) ==> base_projection(ts) == match distance_expr(ts) {
            Ok((d, r)) => Ok::<(Proj, Seq<Tok>), nat>((Proj::DistanceExpr(d), r)),
            Err(e) => Err(e),
        },
        at_count(ts) ==> (base_projection(ts) is Ok <==> has_symbol(
            ts,
            2,
            Symbol::Star,
        ) && has_symbol(ts, 3, Symbol::RightParen)),
        at_count(ts) && base_projection(ts) is Ok ==> base_projection(ts)->Ok_0 == (
            Proj::CountStar,
            ts.skip(4),
        ),
        !at_distance(ts) && !at_count(ts) ==> base_projection(ts) == if has_name(
            ts,
            0,
        ) {
            Ok::<(Proj, Seq<Tok>), nat>((field_projection(ts[0]->Ident_0), ts.skip(1)))
        } else {
            Err(ts.len())
        },
        base_projection(ts) is Err ==> select_item(ts) is Err,
        base_projection(ts) matches Ok((p, r)) ==> !has_keyword(r, 0, Keyword::As) ==> select_item(
            ts,
        ) == Ok::<(Proj, Seq<Tok>), nat>((p, r)),
        base_projection(ts) matches Ok((p, r)) ==> has_keyword(r, 0, Keyword::As) ==> (select_item(
            ts,
        ) is Ok <==> has_name(r, 1)),
        base_projection(ts) matches Ok((p, r)) ==> has_keyword(r, 0, Keyword::As) && has_name(r, 1)
            ==> select_item(ts) == Ok::<(Proj, Seq<Tok>), nat>(
            (Proj::Aliased(Box::new(p), r[1]->Ident_0), r.skip(2)),
        ),
        has_symbol(ts, 0, Symbol::Star) ==> select_list(ts) == Ok::<(Seq<Proj>, Seq<Tok>), nat>(
            (seq![Proj::Wildcard], ts.skip(1)),
        ),
        !has_symbol(ts, 0, Symbol::Star) ==> select_list(ts) == items(select_items(), ts),
{
    if ts.len() > 2 {
        assert(ts.skip(2)[0] == ts[2]);
        assert(ts.skip(2).skip(1) =~= ts.skip(3));
        if ts.len() > 3 {
            assert(ts.skip(3)[0] == ts[3]);
            assert(ts.skip(3).skip(1) =~= ts.skip(4));
        }
    }
    if let Ok((p, r)) = base_projection(ts) {
        if r.len() > 1 {
            assert(r.skip(1)[0] == r[1]);
            assert(r.skip(1).skip(1) =~= r.skip(2));
        }
    }
}

/// What the clauses of a `SELECT` read, each where its keyword comes first and
/// otherwise nothing.
pub proof fn law_clauses(ts: Seq<Tok>)
    ensures
        has_keyword(ts, 0, Keyword::Where) ==> where_clause(ts) == match or_expr(ts.skip(1)) {
            Ok((p, r)) => Ok::<(Option<Pred>, Seq<Tok>), nat>((Some(p), r)),
            Err(e) => Err(e),
        },
        !has_keyword(ts, 0, Keyword::Where) ==> where_clause(ts) == Ok::<
            (Option<Pred>, Seq<Tok>),
            nat,
        >((None, ts)),
        !has_keyword(ts, 0, Keyword::Order) ==> order_by_clause(ts) == Ok::<
            (Seq<Order>, Seq<Tok>),
            nat,
        >((Seq::empty(), ts)),
        has_keyword(ts, 0, Keyword::Order) && !has_keyword(ts, 1, Keyword::By) ==> order_by_clause(
            ts,
        ) is Err,
        has_keyword(ts, 0, Keyword::Order) && has_keyword(ts, 1, Keyword::By) ==> order_by_clause(
            ts,
        ) == items(order_by_items(), ts.skip(2)),
        at_distance(ts) ==> order_by_item(ts) == match distance_expr(ts) {
            Ok((d, r)) => Ok::<(Order, Seq<Tok>), nat>(
                (Order::Distance(d, direction(r).0), direction(r).1),
            ),
            Err(e) => Err(e),
        },
        !at_distance(ts) ==> order_by_item(ts) == if has_name(ts, 0) {
            Ok::<(Order, Seq<Tok>), nat>(
                (
                    Order::Field(ts[0]->Ident_0, direction(ts.skip(1)).0),
                    direction(ts.skip(1)).1,
                ),
            )
        } else {
            Err(ts.len())
        },
        has_keyword(ts, 0, Keyword::Limit) && ts.len() < 2 ==> limit_clause(ts) is Err,
{
    if ts.len() > 1 {
        assert(ts.skip(1)[0] == ts[1]);
        assert(ts.skip(1).skip(1) =~= ts.skip(2));
    }
}

/// A `SELECT` is its list, `FROM` and a table, and then the clauses, in this
/// order; it stands for just what they read.
pub proof fn law_selects(ts: Seq<Tok>, q: Query, rest: Seq<Tok>)
    ensures
        select_stmt(ts) == Ok::<(Stmt, Seq<Tok>), nat>((Stmt::Select(q), rest)) <==> {
            let r = select_list(ts)->Ok_0.1;
            let a = where_clause(r.skip(2));
            let b = order_by_clause(a->Ok_0.1);
            let c = limit_clause(b->Ok_0.1);
            &&& select_list(ts) is Ok && has_keyword(r, 0, Keyword::From) && has_name(r, 1)
            &&& a is Ok && b is Ok && c is Ok
            &&& rest == c->Ok_0.1
            &&& q.projection == select_list(ts)->Ok_0.0
            &&& q.from_table == r[1]->Ident_0
            &&& q.predicate == a->Ok_0.0
            &&& q.order_by == b->Ok_0.0
            &&& q.limit == c->Ok_0.0
        },
{
    if let Ok((p, r)) = select_list(ts) {
        if r.len() > 1 {
            assert(r.skip(1)[0] == r[1]);
            assert(r.skip(1).skip(1) =~= r.skip(2));
        }
    }
}

// ----- Other statements -----

/// An `INSERT` is `INTO`, a table, its columns in parentheses, `VALUES`, and
/// one row of parameters in parentheses or one parameter.
pub proof fn law_inserts(ts: Seq<Tok>)
    ensures
        ({
            let columns = items(identifiers(), ts.skip(3));
            let r = columns->Ok_0.1;
            let source = values_clause(r.skip(2));
            &&& insert_stmt(ts) is Ok <==> has_keyword(ts, 0, Keyword::Into) && has_name(ts, 1)
                && has_symbol(ts, 2, Symbol::LeftParen) && columns is Ok && has_symbol(
                r,
                0,
                Symbol::RightParen,
            ) && has_keyword(r, 1, Keyword::Values) && source is Ok
            &&& insert_stmt(ts) is Ok ==> insert_stmt(ts)->Ok_0 == (
                Stmt::Insert {
                    table: ts[1]->Ident_0,
                    columns: columns->Ok_0.0,
                    source: source->Ok_0.0,
                },
                source->Ok_0.1,
            )
        }),
        ({
            let row = items(row_values(), ts.skip(1));
            &&& has_symbol(ts, 0, Symbol::LeftParen) ==> (values_clause(ts) is Ok <==> row is Ok
                && has_symbol(row->Ok_0.1, 0, Symbol::RightParen))
            &&& has_symbol(ts, 0, Symbol::LeftParen) && values_clause(ts) is Ok ==> values_clause(
                ts,
            )->Ok_0 == (Source::Rows(seq![row->Ok_0.0]), row->Ok_0.1.skip(1))
            &&& !has_symbol(ts, 0, Symbol::LeftParen) ==> values_clause(ts) == match param(ts) {
                Ok((p, r)) => Ok::<(Source, Seq<Tok>), nat>((Source::Param(p), r)),
                Err(e) => Err(e),
            }
        }),
{
    if ts.len() > 1 {
        assert(ts.skip(1)[0] == ts[1]);
        assert(ts.skip(1).skip(1) =~= ts.skip(2));
        if ts.len() > 2 {
            assert(ts.skip(2)[0] == ts[2]);
            assert(ts.skip(2).skip(1) =~= ts.skip(3));
        }
    }
    if let Ok((columns, r)) = items(identifiers(), ts.skip(3)) {
        if r.len() > 1 {
            assert(r.skip(1)[0] == r[1]);
            assert(r.skip(1).skip(1) =~= r.skip(2));
        }
    }
}

/// An `UPDATE` is a table, `SET` and assignments, `WHERE` and a predicate; a
/// `DELETE` is `FROM` and a table, `WHERE` and a predicate. Neither goes
/// without a predicate.
pub proof fn law_updates_and_deletes(ts: Seq<Tok>)
    ensures
        ({
            let set = items(set_assignments(), ts.skip(2));
            let p = or_expr(set->Ok_0.1.skip(1));
            &&& update_stmt(ts) is Ok <==> has_name(ts, 0) && has_keyword(ts, 1, Keyword::Assign)
                && set is Ok && has_keyword(set->Ok_0.1, 0, Keyword::Where) && p is Ok
            &&& update_stmt(ts) is Ok ==> update_stmt(ts)->Ok_0 == (
                Stmt::Update {
                    table: ts[0]->Ident_0,
                    assignments: set->Ok_0.0,
                    predicate: p->Ok_0.0,
                },
                p->Ok_0.1,
            )
        }),
        ({
            let p = or_expr(ts.skip(3));
            &&& delete_stmt(ts) is Ok <==> has_keyword(ts, 0, Keyword::From) && has_name(ts, 1)
                && has_keyword(ts, 2, Keyword::Where) && p is Ok
            &&& delete_stmt(ts) is Ok ==> delete_stmt(ts)->Ok_0 == (
                Stmt::Delete { table: ts[1]->Ident_0, predicate: p->Ok_0.0 },
                p->Ok_0.1,
            )
        }),
        ({
            let f = field_ref(ts);
            let v = atom_value(f->Ok_0.1.skip(1));
            &&& set_assignment(ts) is Ok <==> f is Ok && f->Ok_0.1.len() > 0 && f->Ok_0.1[0]
                == Tok::Cmp(CmpOp::Eq) && v is Ok
            &&& set_assignment(ts) is Ok ==> set_assignment(ts)->Ok_0 == (
                Assign {
                    field: f->Ok_0.0.name,
                    subscript: f->Ok_0.0.subscript,
                    value: v->Ok_0.0,
                },
                v->Ok_0.1,
            )
        }),
{
    if ts.len() > 1 {
        assert(ts.skip(1)[0] == ts[1]);
        assert(ts.skip(1).skip(1) =~= ts.skip(2));
        if ts.len() > 2 {
            assert(ts.skip(2)[0] == ts[2]);
            assert(ts.skip(2).skip(1) =~= ts.skip(3));
        }
    }
}

/// The statements on tables and indexes, token by token.
pub proof fn law_short_statements(ts: Seq<Tok>)
    ensures
        vacuum_stmt(ts) == if has_name(ts, 0) {
            Ok::<(Stmt, Seq<Tok>), nat>((Stmt::Vacuum { table: ts[0]->Ident_0 }, ts.skip(1)))
        } else {
            Err(ts.len())
        },
        drop_index_stmt(ts) is Ok <==> has_keyword(ts, 0, Keyword::Index) && has_name(ts, 1)
            && has_keyword(ts, 2, Keyword::On) && has_name(ts, 3),
        drop_index_stmt(ts) is Ok ==> drop_index_stmt(ts)->Ok_0 == (
            Stmt::DropIndex { name: ts[1]->Ident_0, table: ts[3]->Ident_0 },
            ts.skip(4),
        ),
        ({
            let m = index_method(ts);
            let r = m->Ok_0.1;
            &&& indexed_field(ts) is Ok <==> m is Ok && has_symbol(r, 0, Symbol::LeftParen)
                && has_name(r, 1) && has_symbol(r, 2, Symbol::RightParen)
            &&& indexed_field(ts) is Ok ==> indexed_field(ts)->Ok_0 == (
                (m->Ok_0.0, r[1]->Ident_0),
                r.skip(3),
            )
        }),
        create_index_stmt(ts) is Ok ==> has_keyword(ts, 0, Keyword::Index),
        ({
            let x = indexed_field(ts.skip(4));
            has_keyword(ts, 0, Keyword::Index) && !has_name(ts, 1) ==> {
                &&& create_index_stmt(ts) is Ok <==> has_keyword(ts, 1, Keyword::On) && has_name(
                    ts,
                    2,
                ) && has_keyword(ts, 3, Keyword::Using) && x is Ok
                &&& create_index_stmt(ts) is Ok ==> create_index_stmt(ts)->Ok_0 == (
                    Stmt::CreateIndex {
                        name: None,
                        table: ts[2]->Ident_0,
                        method: x->Ok_0.0.0,
                        field: x->Ok_0.0.1,
                    },
                    x->Ok_0.1,
                )
            }
        }),
        ({
            let x = indexed_field(ts.skip(5));
            has_keyword(ts, 0, Keyword::Index) && has_name(ts, 1) ==> {
                &&& create_index_stmt(ts) is Ok <==> has_keyword(ts, 2, Keyword::On) && has_name(
                    ts,
                    3,
                ) && has_keyword(ts, 4, Keyword::Using) && x is Ok
                &&& create_index_stmt(ts) is Ok ==> create_index_stmt(ts)->Ok_0 == (
                    Stmt::CreateIndex {
                        name: Some(ts[1]->Ident_0),
                        table: ts[3]->Ident_0,
                        method: x->Ok_0.0.0,
                        field: x->Ok_0.0.1,
                    },
                    x->Ok_0.1,
                )
            }
        }),
{
    lemma_skips(ts);
    if let Ok((m, r)) = index_method(ts) {
        lemma_skips(r);
    }
}

proof fn lemma_skips(ts: Seq<Tok>)
    ensures
        ts.len() > 1 ==> ts.skip(1)[0] == ts[1] && ts.skip(1).skip(1) == ts.skip(2),
        ts.len() > 2 ==> ts.skip(2)[0] == ts[2] && ts.skip(2).skip(1) == ts.skip(3),
        ts.len() > 3 ==> ts.skip(3)[0] == ts[3] && ts.skip(3).skip(1) == ts.skip(4),
        ts.len() > 4 ==> ts.skip(4)[0] == ts[4] && ts.skip(4).skip(1) == ts.skip(5),
        ts.len() > 0 ==> ts.skip(1).len() == ts.len() - 1,
        ts.len() > 1 ==> ts.skip(2).len() == ts.len() - 2,
        ts.len() > 2 ==> ts.skip(3).len() == ts.len() - 3,
        ts.len() > 3 ==> ts.skip(4).len() == ts.len() - 4,
{
    if ts.len() > 1 {
        assert(ts.skip(1).skip(1) =~= ts.skip(2));
    }
    if ts.len() > 2 {
        assert(ts.skip(2).skip(1) =~= ts.skip(3));
    }
    if ts.len() > 3 {
        assert(ts.skip(3).skip(1) =~= ts.skip(4));
    }
    if ts.len() > 4 {
        assert(ts.skip(4).skip(1) =~= ts.skip(5));
    }
}

/// Which statement it is, the first keyword says.
pub proof fn law_statements(ts: Seq<Tok>)
    ensures
        has_keyword(ts, 0, Keyword::Checkpoint) ==> statement(ts) == Ok::<(Stmt, Seq<Tok>), nat>(
            (Stmt::Checkpoint, ts.skip(1)),
        ),
        has_keyword(ts, 0, Keyword::Vacuum) ==> statement(ts) == vacuum_stmt(ts.skip(1)),
        has_keyword(ts, 0, Keyword::Insert) ==> statement(ts) == insert_stmt(ts.skip(1)),
        has_keyword(ts, 0, Keyword::Update) ==> statement(ts) == update_stmt(ts.skip(1)),
        has_keyword(ts, 0, Keyword::Delete) ==> statement(ts) == delete_stmt(ts.skip(1)),
        has_keyword(ts, 0, Keyword::Select) ==> statement(ts) == select_stmt(ts.skip(1)),
        has_keyword(ts, 0, Keyword::Create) ==> statement(ts) == create_index_stmt(ts.skip(1)),
        has_keyword(ts, 0, Keyword::Drop) ==> statement(ts) == drop_index_stmt(ts.skip(1)),
        statement(ts) is Ok ==> ts.len() > 0 && ts[0] is Keyword && {
            let k = ts[0]->Keyword_0;
            ||| k == Keyword::Checkpoint || k == Keyword::Vacuum || k == Keyword::Insert
            ||| k == Keyword::Update || k == Keyword::Delete || k == Keyword::Select
            ||| k == Keyword::Create || k == Keyword::Drop
        },
{
    reveal(statement);
}

} // verus!
