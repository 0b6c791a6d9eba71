//! The canonical tokens of a statement stand for the statement.

use crate::ast::{CmpOp, IndexMethod, OrderDir};
use crate::canon::{
    assign_toks, assign_toks_all, bare_toks, column_toks, comma_toks, comparison_toks,
    create_index_toks, delete_toks, direction_keyword, distance_toks, drop_index_toks, expr_toks,
    expr_toks_all, f32_toks, field_toks, insert_toks, join, keyword_toks, limit_toks, literal_toks,
    literal_toks_all, magnitude, method_text, name_toks, order_by_toks, order_toks, order_toks_all,
    param_toks, precedence, pred_toks, pred_toks_all, proj_toks, proj_toks_all, query_toks,
    row_toks, source_toks, stmt_toks, subscript_toks, symbol_toks, update_toks, where_toks,
    word_toks,
};
use crate::grammar::{
    and_expr, and_tail, at_distance, at_keyword, at_symbol, atom, atom_or_parens, atom_value,
    base_projection, conjunction, conjuncts, decimal32, decimal64, direction, disjunction,
    disjuncts, distance_expr, field_ref, identifiers, index_method, items, limit_clause, literal,
    literals, more_items, not_expr, optional_name, or_expr, or_tail, order_by_clause,
    order_by_item, order_by_items, param, prepend_items, program, row_values, select_item,
    select_items, select_list, set_assignment, set_assignments, signed_value, statement,
    values_clause, where_clause, Parsed,
};
use crate::ieee::{binary32, binary64, is_negative32, is_negative64, magnitude32, magnitude64};
use crate::keyword::{same_ignoring_case, upper, Keyword};
use crate::lexer::{Symbol, Tok};
use crate::shape::{
    finite, finite_expr, finite_literal, finite_pred, is_param_expr, shaped, shaped_base,
    shaped_pred, shaped_proj, shaped_projection, shaped_query, shaped_source,
};
use crate::shortest::{lemma_magnitude_reads_back, magnitude_fraction, magnitude_whole};
use crate::syntax::{
    Assign, Distance, Expr, Field, Literal, Order, Param, Pred, Proj, Query, Source, Stmt,
};
use crate::text::{lemma_numeral, numeral};
use vstd::prelude::*;

verus! {

/// The first token of a sequence, and what follows it.
proof fn first(t: Tok, rest: Seq<Tok>)
    ensures
        (seq![t] + rest).len() == rest.len() + 1,
        (seq![t] + rest)[0] == t,
        (seq![t] + rest).skip(1) == rest,
{
    assert((seq![t] + rest).skip(1) =~= rest);
}

proof fn reads_param(p: Param, rest: Seq<Tok>)
    ensures
        param(param_toks(p) + rest) == Ok::<(Param, Seq<Tok>), nat>((p, rest)),
        param_toks(p).len() == 1,
{
    match p {
        Param::Positional(n) => {
            lemma_numeral(n as nat);
            first(Tok::Ordinal(numeral(n as nat)), rest);
        },
        Param::Named(s) => {
            first(Tok::Name(s), rest);
        },
    }
}

proof fn lemma_decimal64(b: u64)
    requires
        magnitude64(b) < binary64().inf,
    ensures
        decimal64(
            is_negative64(b),
            magnitude_whole(binary64(), magnitude64(b)),
            magnitude_fraction(binary64(), magnitude64(b)),
        ) == b,
{
    lemma_magnitude_reads_back(binary64(), magnitude64(b));
}

proof fn lemma_decimal32(b: u32)
    requires
        magnitude32(b) < binary32().inf,
    ensures
        decimal32(
            is_negative32(b),
            magnitude_whole(binary32(), magnitude32(b)),
            magnitude_fraction(binary32(), magnitude32(b)),
        ) == b,
{
    lemma_magnitude_reads_back(binary32(), magnitude32(b));
}

proof fn reads_literal(l: Literal, rest: Seq<Tok>)
    requires
        finite_literal(l),
    ensures
        literal(literal_toks(l) + rest) == Ok::<(Literal, Seq<Tok>), nat>((l, rest)),
        literal_toks(l).len() == 1,
        !(literal_toks(l)[0] is Ordinal || literal_toks(l)[0] is Name),
{
    first(literal_toks(l)[0], rest);
    assert(literal_toks(l) =~= seq![literal_toks(l)[0]]);
    match l {
        Literal::I64(n) => {
            lemma_numeral(magnitude(n as int));
            assert(signed_value(n < 0, numeral(magnitude(n as int))) == n);
        },
        Literal::F64(b) => {
            lemma_decimal64(b);
        },
        _ => {},
    }
}

proof fn reads_expr(e: Expr, rest: Seq<Tok>)
    requires
        finite_expr(e),
    ensures
        atom_value(expr_toks(e) + rest) == Ok::<(Expr, Seq<Tok>), nat>((e, rest)),
        expr_toks(e).len() == 1,
{
    match e {
        Expr::Param(p) => reads_param(p, rest),
        Expr::Literal(l) => {
            reads_literal(l, rest);
            assert((literal_toks(l) + rest)[0] == literal_toks(l)[0]);
        },
    }
}

// ----- Lists -----

/// Whether `item` reads each of `xs` from its tokens, whatever follows that
/// satisfies `ok`.
#[verifier::opaque]
spec fn reads_each<X>(
    item: spec_fn(Seq<Tok>) -> Parsed<X>,
    xs: Seq<X>,
    ts: Seq<Seq<Tok>>,
    ok: spec_fn(Seq<Tok>) -> bool,
) -> bool {
    &&& xs.len() == ts.len()
    &&& forall|i: int, r: Seq<Tok>|
        0 <= i < xs.len() && ok(r) ==> #[trigger] item(ts[i] + r) == Ok::<(X, Seq<Tok>), nat>(
            (xs[i], r),
        )
}

/// A list read by `item` from its tokens, separated by commas.
proof fn reads_items<X>(
    item: spec_fn(Seq<Tok>) -> Parsed<X>,
    xs: Seq<X>,
    ts: Seq<Seq<Tok>>,
    ok: spec_fn(Seq<Tok>) -> bool,
    rest: Seq<Tok>,
)
    requires
        reads_each(item, xs, ts, ok),
        xs.len() > 0,
        ok(rest),
        !at_symbol(rest, Symbol::Comma),
        forall|r: Seq<Tok>| at_symbol(r, Symbol::Comma) ==> #[trigger] ok(r),
    ensures
        items(item, join(ts, comma_toks()) + rest) == Ok::<(Seq<X>, Seq<Tok>), nat>((xs, rest)),
    decreases xs.len(),
{
    reveal(reads_each);
    if xs.len() == 1 {
        assert(item(ts[0] + rest) == Ok::<(X, Seq<Tok>), nat>((xs[0], rest)));
        assert(seq![xs[0]] + Seq::empty() =~= xs);
    } else {
        let tail = join(ts.skip(1), comma_toks()) + rest;
        let more = comma_toks() + tail;
        first(Tok::Symbol(Symbol::Comma), tail);
        assert(join(ts, comma_toks()) + rest =~= ts[0] + more);
        assert(ok(more));
        assert(item(ts[0] + more) == Ok::<(X, Seq<Tok>), nat>((xs[0], more)));
        assert(reads_each(item, xs.skip(1), ts.skip(1), ok)) by {
            assert forall|i: int, r: Seq<Tok>|
                0 <= i < xs.skip(1).len() && ok(r) implies #[trigger] item(ts.skip(1)[i] + r)
                == Ok::<(X, Seq<Tok>), nat>((xs.skip(1)[i], r)) by {
                assert(item(ts[i + 1] + r) == Ok::<(X, Seq<Tok>), nat>((xs[i + 1], r)));
            }
        }
        reads_items(item, xs.skip(1), ts.skip(1), ok, rest);
        assert(item(tail) is Ok && item(tail)->Ok_0.1.len() <= tail.len()) by {
            if xs.len() == 2 {
                assert(item(ts[1] + rest) == Ok::<(X, Seq<Tok>), nat>((xs[1], rest)));
            } else {
                let last = join(ts.skip(1).skip(1), comma_toks()) + rest;
                let r = comma_toks() + last;
                first(Tok::Symbol(Symbol::Comma), last);
                assert(tail =~= ts[1] + r);
                assert(ok(r));
                assert(item(ts[1] + r) == Ok::<(X, Seq<Tok>), nat>((xs[1], r)));
            }
        }
        lemma_items_progress(item, tail);
        assert(seq![xs[0]] + xs.skip(1) =~= xs);
    }
}

/// A list behind a comma is the list.
proof fn lemma_items_progress<X>(item: spec_fn(Seq<Tok>) -> Parsed<X>, tail: Seq<Tok>)
    requires
        items(item, tail) is Ok,
        item(tail) is Ok ==> item(tail)->Ok_0.1.len() <= tail.len(),
    ensures
        more_items(item, comma_toks() + tail) == items(item, tail),
{
    first(Tok::Symbol(Symbol::Comma), tail);
}

spec fn anything() -> spec_fn(Seq<Tok>) -> bool {
    |r: Seq<Tok>| true
}

proof fn reads_literals(ls: Seq<Literal>, rest: Seq<Tok>)
    requires
        ls.len() > 0,
        forall|i: int| 0 <= i < ls.len() ==> finite_literal(#[trigger] ls[i]),
        !at_symbol(rest, Symbol::Comma),
    ensures
        items(literals(), join(literal_toks_all(ls), comma_toks()) + rest) == Ok::<
            (Seq<Literal>, Seq<Tok>),
            nat,
        >((ls, rest)),
{
    let ts = literal_toks_all(ls);
    assert(reads_each(literals(), ls, ts, anything())) by {
        reveal(reads_each);
        assert forall|i: int, r: Seq<Tok>|
            0 <= i < ls.len() && anything()(r) implies #[trigger] literals()(ts[i] + r) == Ok::<
            (Literal, Seq<Tok>),
            nat,
        >((ls[i], r)) by {
            reads_literal(ls[i], r);
        }
    }
    reads_items(literals(), ls, ts, anything(), rest);
}

proof fn reads_identifiers(ws: Seq<Seq<char>>, rest: Seq<Tok>)
    requires
        ws.len() > 0,
        !at_symbol(rest, Symbol::Comma),
    ensures
        items(identifiers(), join(column_toks(ws), comma_toks()) + rest) == Ok::<
            (Seq<Seq<char>>, Seq<Tok>),
            nat,
        >((ws, rest)),
{
    let ts = column_toks(ws);
    assert(reads_each(identifiers(), ws, ts, anything())) by {
        reveal(reads_each);
        assert forall|i: int, r: Seq<Tok>|
            0 <= i < ws.len() && anything()(r) implies #[trigger] identifiers()(ts[i] + r) == Ok::<
            (Seq<char>, Seq<Tok>),
            nat,
        >((ws[i], r)) by {
            first(Tok::Ident(ws[i]), r);
        }
    }
    reads_items(identifiers(), ws, ts, anything(), rest);
}

// ----- Predicates -----

proof fn reads_subscript(name: Seq<char>, subscript: Option<Seq<char>>, rest: Seq<Tok>)
    requires
        !at_symbol(rest, Symbol::LeftBracket),
    ensures
        field_ref(subscript_toks(name, subscript) + rest) == Ok::<(Field, Seq<Tok>), nat>(
            (Field { name, subscript }, rest),
        ),
        subscript_toks(name, subscript).len() > 0,
        subscript_toks(name, subscript)[0] == Tok::Ident(name),
        subscript_toks(name, subscript).len() > 1 ==> subscript_toks(name, subscript)[1]
            == Tok::Symbol(Symbol::LeftBracket),
{
    match subscript {
        Some(key) => {
            let r3 = symbol_toks(Symbol::RightBracket) + rest;
            let r2 = seq![Tok::Quoted(key)] + r3;
            let r1 = symbol_toks(Symbol::LeftBracket) + r2;
            assert(subscript_toks(name, subscript) + rest =~= word_toks(name) + r1);
            first(Tok::Ident(name), r1);
            first(Tok::Symbol(Symbol::LeftBracket), r2);
            first(Tok::Quoted(key), r3);
            first(Tok::Symbol(Symbol::RightBracket), rest);
        },
        None => {
            first(Tok::Ident(name), rest);
        },
    }
}

proof fn lemma_embedding_word()
    ensures
        same_ignoring_case("embedding"@, "EMBEDDING"@),
{
    reveal_strlit("embedding");
    reveal_strlit("EMBEDDING");
    assert(upper("embedding"@) =~= upper("EMBEDDING"@));
}

proof fn reads_distance(d: Distance, rest: Seq<Tok>)
    ensures
        at_distance(distance_toks(d) + rest),
        distance_expr(distance_toks(d) + rest) == Ok::<(Distance, Seq<Tok>), nat>((d, rest)),
{
    lemma_embedding_word();
    let ts = distance_toks(d) + rest;
    reads_param(d.param, rest);
    assert(ts.skip(2) =~= param_toks(d.param) + rest);
    assert(ts[0] == Tok::Ident("embedding"@));
    assert(ts[1] == Tok::Metric(d.metric));
}

/// The front of an atom over a field: no distance, and the field is read.
proof fn reads_field(f: Field, ts: Seq<Tok>)
    requires
        ts.len() > 0,
        !(ts[0] is Metric),
        !at_symbol(ts, Symbol::LeftBracket),
    ensures
        field_ref(field_toks(f) + ts) == Ok::<(Field, Seq<Tok>), nat>((f, ts)),
        !at_distance(field_toks(f) + ts),
        (field_toks(f) + ts)[0] is Ident,
{
    reads_subscript(f.name, f.subscript, ts);
    let all = field_toks(f) + ts;
    assert(all[0] == field_toks(f)[0]);
    if field_toks(f).len() > 1 {
        assert(all[1] == field_toks(f)[1]);
    } else {
        assert(all[1] == ts[0]);
    }
}

proof fn reads_comparison(f: Field, op: CmpOp, v: Expr, rest: Seq<Tok>)
    requires
        finite_expr(v),
    ensures
        atom(field_toks(f) + comparison_toks(op) + expr_toks(v) + rest) == Ok::<
            (Pred, Seq<Tok>),
            nat,
        >(
            (
                if op == CmpOp::Eq {
                    Pred::Eq(f, v)
                } else {
                    Pred::Cmp(f, op, v)
                },
                rest,
            ),
        ),
        (field_toks(f) + comparison_toks(op) + expr_toks(v) + rest)[0] is Ident,
{
    let r2 = expr_toks(v) + rest;
    let r1 = comparison_toks(op) + r2;
    assert(field_toks(f) + comparison_toks(op) + expr_toks(v) + rest =~= field_toks(f) + r1);
    first(Tok::Cmp(op), r2);
    reads_field(f, r1);
    reads_expr(v, rest);
}

proof fn reads_in(f: Field, ls: Seq<Literal>, rest: Seq<Tok>)
    requires
        ls.len() > 0,
        forall|i: int| 0 <= i < ls.len() ==> finite_literal(#[trigger] ls[i]),
    ensures
        atom(bare_toks(Pred::In(f, ls)) + rest) == Ok::<(Pred, Seq<Tok>), nat>(
            (Pred::In(f, ls), rest),
        ),
        (bare_toks(Pred::In(f, ls)) + rest)[0] is Ident,
{
    let l = join(literal_toks_all(ls), comma_toks());
    let r4 = symbol_toks(Symbol::RightParen) + rest;
    let r3 = l + r4;
    let r2 = symbol_toks(Symbol::LeftParen) + r3;
    let r1 = keyword_toks(Keyword::In) + r2;
    assert(bare_toks(Pred::In(f, ls)) + rest =~= field_toks(f) + r1);
    first(Tok::Keyword(Keyword::In), r2);
    first(Tok::Symbol(Symbol::LeftParen), r3);
    first(Tok::Symbol(Symbol::RightParen), rest);
    reads_field(f, r1);
    reads_literals(ls, r4);
}

proof fn reads_between(f: Field, lo: Literal, hi: Literal, rest: Seq<Tok>)
    requires
        finite_literal(lo),
        finite_literal(hi),
    ensures
        atom(bare_toks(Pred::Between(f, lo, hi)) + rest) == Ok::<(Pred, Seq<Tok>), nat>(
            (Pred::Between(f, lo, hi), rest),
        ),
        (bare_toks(Pred::Between(f, lo, hi)) + rest)[0] is Ident,
{
    let r4 = literal_toks(hi) + rest;
    let r3 = keyword_toks(Keyword::And) + r4;
    let r2 = literal_toks(lo) + r3;
    let r1 = keyword_toks(Keyword::Between) + r2;
    assert(bare_toks(Pred::Between(f, lo, hi)) + rest =~= field_toks(f) + r1);
    first(Tok::Keyword(Keyword::Between), r2);
    first(Tok::Keyword(Keyword::And), r4);
    reads_field(f, r1);
    reads_literal(lo, r3);
    reads_literal(hi, rest);
}

proof fn reads_is_null(f: Field, negated: bool, rest: Seq<Tok>)
    ensures
        atom(bare_toks(Pred::IsNull(f, negated)) + rest) == Ok::<(Pred, Seq<Tok>), nat>(
            (Pred::IsNull(f, negated), rest),
        ),
        (bare_toks(Pred::IsNull(f, negated)) + rest)[0] is Ident,
{
    let r3 = keyword_toks(Keyword::Null) + rest;
    let r2 = if negated {
        keyword_toks(Keyword::Not) + r3
    } else {
        r3
    };
    let r1 = keyword_toks(Keyword::Is) + r2;
    assert(bare_toks(Pred::IsNull(f, negated)) + rest =~= field_toks(f) + r1);
    first(Tok::Keyword(Keyword::Is), r2);
    first(Tok::Keyword(Keyword::Not), r3);
    first(Tok::Keyword(Keyword::Null), rest);
    assert(r1.skip(2) =~= r2.skip(1));
    reads_field(f, r1);
}

proof fn reads_array_contains(f: Field, l: Literal, rest: Seq<Tok>)
    requires
        finite_literal(l),
    ensures
        atom(bare_toks(Pred::ArrayContains(f, l)) + rest) == Ok::<(Pred, Seq<Tok>), nat>(
            (Pred::ArrayContains(f, l), rest),
        ),
        (bare_toks(Pred::ArrayContains(f, l)) + rest)[0] is Ident,
{
    let r2 = literal_toks(l) + rest;
    let r1 = symbol_toks(Symbol::Contains) + r2;
    assert(bare_toks(Pred::ArrayContains(f, l)) + rest =~= field_toks(f) + r1);
    first(Tok::Symbol(Symbol::Contains), r2);
    reads_field(f, r1);
    reads_literal(l, rest);
}

proof fn reads_threshold(d: Distance, op: CmpOp, radius: u32, rest: Seq<Tok>)
    requires
        magnitude32(radius) < binary32().inf,
    ensures
        atom(bare_toks(Pred::DistanceThreshold(d, op, radius)) + rest) == Ok::<
            (Pred, Seq<Tok>),
            nat,
        >((Pred::DistanceThreshold(d, op, radius), rest)),
        (bare_toks(Pred::DistanceThreshold(d, op, radius)) + rest)[0] is Ident,
{
    let r2 = f32_toks(radius) + rest;
    let r1 = comparison_toks(op) + r2;
    let all = bare_toks(Pred::DistanceThreshold(d, op, radius)) + rest;
    assert(all =~= distance_toks(d) + r1);
    reads_distance(d, r1);
    lemma_decimal32(radius);
    assert(r1.skip(2) =~= rest);
    assert(r1[0] == Tok::Cmp(op));
    assert(r1[1] == f32_toks(radius)[0]);
    assert(all[0] == distance_toks(d)[0]);
}

spec fn is_atom(p: Pred) -> bool {
    precedence(p) == 3
}

proof fn reads_atom(p: Pred, rest: Seq<Tok>)
    requires
        shaped_pred(p),
        finite_pred(p),
        is_atom(p),
    ensures
        atom(bare_toks(p) + rest) == Ok::<(Pred, Seq<Tok>), nat>((p, rest)),
        (bare_toks(p) + rest).len() > 0,
        (bare_toks(p) + rest)[0] is Ident,
{
    match p {
        Pred::Eq(f, v) => reads_comparison(f, CmpOp::Eq, v, rest),
        Pred::Cmp(f, op, v) => reads_comparison(f, op, v, rest),
        Pred::In(f, ls) => reads_in(f, ls, rest),
        Pred::Between(f, lo, hi) => reads_between(f, lo, hi, rest),
        Pred::IsNull(f, negated) => reads_is_null(f, negated, rest),
        Pred::ArrayContains(f, l) => reads_array_contains(f, l, rest),
        Pred::DistanceThreshold(d, op, radius) => reads_threshold(d, op, radius, rest),
        _ => {},
    }
}

/// Whether no conjunction or disjunction goes on in `rest`.
spec fn ends_chain(rest: Seq<Tok>) -> bool {
    !at_keyword(rest, Keyword::And) && !at_keyword(rest, Keyword::Or)
}

/// What `or_expr` makes of the terms `ps` is what it makes of the first of
/// them and those behind it.
spec fn or_list(ts: Seq<Tok>) -> Parsed<Seq<Pred>> {
    match and_expr(ts) {
        Ok((p, r)) => if r.len() < ts.len() {
            prepend_items(disjuncts(p), or_tail(r))
        } else {
            Err(ts.len())
        },
        Err(e) => Err(e),
    }
}

spec fn and_list(ts: Seq<Tok>) -> Parsed<Seq<Pred>> {
    match not_expr(ts) {
        Ok((p, r)) => if r.len() < ts.len() {
            prepend_items(conjuncts(p), and_tail(r))
        } else {
            Err(ts.len())
        },
        Err(e) => Err(e),
    }
}

proof fn lemma_or_list(ts: Seq<Tok>)
    ensures
        or_expr(ts) == match or_list(ts) {
            Ok((ps, r)) => Ok::<(Pred, Seq<Tok>), nat>((disjunction(ps), r)),
            Err(e) => Err(e),
        },
        or_list(ts) is Ok ==> or_tail(keyword_toks(Keyword::Or) + ts) == or_list(ts),
{
    first(Tok::Keyword(Keyword::Or), ts);
}

proof fn lemma_and_list(ts: Seq<Tok>)
    ensures
        and_expr(ts) == match and_list(ts) {
            Ok((ps, r)) => Ok::<(Pred, Seq<Tok>), nat>((conjunction(ps), r)),
            Err(e) => Err(e),
        },
        and_list(ts) is Ok ==> and_tail(keyword_toks(Keyword::And) + ts) == and_list(ts),
{
    first(Tok::Keyword(Keyword::And), ts);
}

/// The order in which the three readings of a predicate rest on each other.
spec fn rank(p: Pred, level: int) -> int {
    match p {
        Pred::And(_) => if level == 0 {
            2
        } else if level == 1 {
            1
        } else {
            3
        },
        Pred::Or(_) => if level == 0 {
            1
        } else if level == 1 {
            3
        } else {
            2
        },
        _ => 3 - level,
    }
}

proof fn lemma_toks_nonempty(p: Pred, outer: int)
    requires
        shaped_pred(p),
        finite_pred(p),
    ensures
        pred_toks(p, outer).len() > 0,
        bare_toks(p).len() > 0,
    decreases p,
{
    match p {
        Pred::Or(ps) => {
            assert(shaped_pred(ps[0]) && finite_pred(ps[0]));
            lemma_toks_nonempty(ps[0], 0);
            assert(pred_toks_all(ps, 0)[0] == pred_toks(ps[0], 0));
        },
        Pred::And(ps) => {
            assert(shaped_pred(ps[0]) && finite_pred(ps[0]));
            lemma_toks_nonempty(ps[0], 1);
            assert(pred_toks_all(ps, 1)[0] == pred_toks(ps[0], 1));
        },
        Pred::Not(q) => {},
        _ => {
            reads_atom(p, Seq::empty());
            assert(bare_toks(p) + Seq::empty() =~= bare_toks(p));
        },
    }
}

proof fn reads_or(p: Pred, rest: Seq<Tok>)
    requires
        shaped_pred(p),
        finite_pred(p),
        ends_chain(rest),
    ensures
        or_expr(pred_toks(p, 0) + rest) == Ok::<(Pred, Seq<Tok>), nat>((p, rest)),
    decreases p, rank(p, 0),
{
    let ts = pred_toks(p, 0) + rest;
    lemma_or_list(ts);
    match p {
        Pred::Or(ps) => {
            reads_disjuncts(ps, rest);
        },
        _ => {
            reads_and(p, rest);
            lemma_toks_nonempty(p, 0);
            assert(pred_toks(p, 0) == pred_toks(p, 1));
            assert(or_tail(rest) == Ok::<(Seq<Pred>, Seq<Tok>), nat>((Seq::empty(), rest)));
            assert(seq![p] + Seq::empty() =~= seq![p]);
        },
    }
}

proof fn reads_disjuncts(ps: Seq<Pred>, rest: Seq<Tok>)
    requires
        ps.len() > 0,
        forall|i: int|
            0 <= i < ps.len() ==> shaped_pred(#[trigger] ps[i]) && finite_pred(ps[i]) && !(
            ps[i] is Or),
        ends_chain(rest),
    ensures
        or_list(join(pred_toks_all(ps, 0), keyword_toks(Keyword::Or)) + rest) == Ok::<
            (Seq<Pred>, Seq<Tok>),
            nat,
        >((ps, rest)),
    decreases ps, ps.len(),
{
    let ts = pred_toks_all(ps, 0);
    let sep = keyword_toks(Keyword::Or);
    let p = ps[0];
    lemma_toks_nonempty(p, 0);
    assert(ts[0] == pred_toks(p, 0));
    assert(pred_toks(p, 0) == pred_toks(p, 1));
    if ps.len() == 1 {
        reads_and(p, rest);
        assert(or_tail(rest) == Ok::<(Seq<Pred>, Seq<Tok>), nat>((Seq::empty(), rest)));
        assert(seq![p] + Seq::empty() =~= ps);
    } else {
        let others = ps.skip(1);
        let tail = join(ts.skip(1), sep) + rest;
        assert(ts.skip(1) =~= pred_toks_all(others, 0));
        assert(join(ts, sep) + rest =~= ts[0] + (sep + tail));
        first(Tok::Keyword(Keyword::Or), tail);
        reads_and(p, sep + tail);
        assert forall|i: int| 0 <= i < others.len() implies shaped_pred(#[trigger] others[i])
            && finite_pred(others[i]) && !(others[i] is Or) by {
            assert(others[i] == ps[i + 1]);
        }
        reads_disjuncts(others, rest);
        lemma_or_list(tail);
        assert(seq![p] + others =~= ps);
    }
}

proof fn reads_and(p: Pred, rest: Seq<Tok>)
    requires
        shaped_pred(p),
        finite_pred(p),
        !at_keyword(rest, Keyword::And),
    ensures
        and_expr(pred_toks(p, 1) + rest) == Ok::<(Pred, Seq<Tok>), nat>((p, rest)),
    decreases p, rank(p, 1),
{
    let ts = pred_toks(p, 1) + rest;
    lemma_and_list(ts);
    match p {
        Pred::And(ps) => {
            reads_conjuncts(ps, rest);
        },
        _ => {
            reads_not(p, rest);
            lemma_toks_nonempty(p, 1);
            assert(pred_toks(p, 1) == pred_toks(p, 2));
            assert(and_tail(rest) == Ok::<(Seq<Pred>, Seq<Tok>), nat>((Seq::empty(), rest)));
            assert(seq![p] + Seq::empty() =~= seq![p]);
        },
    }
}

proof fn reads_conjuncts(ps: Seq<Pred>, rest: Seq<Tok>)
    requires
        ps.len() > 0,
        forall|i: int|
            0 <= i < ps.len() ==> shaped_pred(#[trigger] ps[i]) && finite_pred(ps[i]) && !(
            ps[i] is And),
        !at_keyword(rest, Keyword::And),
    ensures
        and_list(join(pred_toks_all(ps, 1), keyword_toks(Keyword::And)) + rest) == Ok::<
            (Seq<Pred>, Seq<Tok>),
            nat,
        >((ps, rest)),
    decreases ps, ps.len(),
{
    let ts = pred_toks_all(ps, 1);
    let sep = keyword_toks(Keyword::And);
    let p = ps[0];
    lemma_toks_nonempty(p, 1);
    assert(ts[0] == pred_toks(p, 1));
    assert(pred_toks(p, 1) == pred_toks(p, 2));
    if ps.len() == 1 {
        reads_not(p, rest);
        assert(and_tail(rest) == Ok::<(Seq<Pred>, Seq<Tok>), nat>((Seq::empty(), rest)));
        assert(seq![p] + Seq::empty() =~= ps);
    } else {
        let others = ps.skip(1);
        let tail = join(ts.skip(1), sep) + rest;
        assert(ts.skip(1) =~= pred_toks_all(others, 1));
        assert(join(ts, sep) + rest =~= ts[0] + (sep + tail));
        first(Tok::Keyword(Keyword::And), tail);
        reads_not(p, sep + tail);
        assert forall|i: int| 0 <= i < others.len() implies shaped_pred(#[trigger] others[i])
            && finite_pred(others[i]) && !(others[i] is And) by {
            assert(others[i] == ps[i + 1]);
        }
        reads_conjuncts(others, rest);
        lemma_and_list(tail);
        assert(seq![p] + others =~= ps);
    }
}

proof fn reads_not(p: Pred, rest: Seq<Tok>)
    requires
        shaped_pred(p),
        finite_pred(p),
    ensures
        not_expr(pred_toks(p, 2) + rest) == Ok::<(Pred, Seq<Tok>), nat>((p, rest)),
    decreases p, rank(p, 2),
{
    reveal_with_fuel(not_expr, 2);
    reveal_with_fuel(atom_or_parens, 2);
    let ts = pred_toks(p, 2) + rest;
    match p {
        Pred::Not(q) => {
            let r = pred_toks(*q, 2) + rest;
            assert(ts =~= keyword_toks(Keyword::Not) + r);
            first(Tok::Keyword(Keyword::Not), r);
            reads_not(*q, rest);
        },
        _ => {
            if precedence(p) < 2 {
                let close = symbol_toks(Symbol::RightParen) + rest;
                let r = pred_toks(p, 0) + close;
                assert(pred_toks(p, 0) == bare_toks(p));
                assert(ts =~= symbol_toks(Symbol::LeftParen) + r);
                first(Tok::Symbol(Symbol::LeftParen), r);
                first(Tok::Symbol(Symbol::RightParen), rest);
                reads_or(p, close);
            } else {
                assert(ts == bare_toks(p) + rest);
                reads_atom(p, rest);
            }
        },
    }
}

// ----- SELECT -----

/// Whether `r` may follow a projected column.
spec fn ends_item() -> spec_fn(Seq<Tok>) -> bool {
    |r: Seq<Tok>| at_symbol(r, Symbol::Comma) || at_keyword(r, Keyword::From)
}

/// Whether `r` may follow a column without its alias.
spec fn ends_base(r: Seq<Tok>) -> bool {
    at_symbol(r, Symbol::Comma) || at_keyword(r, Keyword::From) || at_keyword(r, Keyword::As)
}

proof fn reads_base(p: Proj, rest: Seq<Tok>)
    requires
        shaped_base(p),
        ends_base(rest),
    ensures
        base_projection(proj_toks(p) + rest) == Ok::<(Proj, Seq<Tok>), nat>((p, rest)),
{
    let ts = proj_toks(p) + rest;
    match p {
        Proj::CountStar => {
            let r3 = symbol_toks(Symbol::RightParen) + rest;
            let r2 = symbol_toks(Symbol::Star) + r3;
            let r1 = symbol_toks(Symbol::LeftParen) + r2;
            assert(ts =~= word_toks("COUNT"@) + r1);
            first(Tok::Ident("COUNT"@), r1);
            first(Tok::Symbol(Symbol::LeftParen), r2);
            first(Tok::Symbol(Symbol::Star), r3);
            first(Tok::Symbol(Symbol::RightParen), rest);
            assert(ts.skip(2) =~= r2);
            assert(!at_distance(ts)) by {
                assert(ts[1] == r1[0]);
            }
        },
        Proj::DistanceExpr(d) => {
            reads_distance(d, rest);
        },
        Proj::Id => {
            first(Tok::Ident("id"@), rest);
            assert(ts[1] == rest[0]);
        },
        Proj::Metadata => {
            first(Tok::Ident("metadata"@), rest);
            assert(ts[1] == rest[0]);
            assert(!same_ignoring_case("metadata"@, "id"@)) by {
                reveal_strlit("metadata");
                reveal_strlit("id");
                assert(upper("metadata"@).len() != upper("id"@).len());
            }
        },
        Proj::Field(name) => {
            first(Tok::Ident(name), rest);
            assert(ts[1] == rest[0]);
        },
        _ => {},
    }
}

proof fn reads_proj(p: Proj, rest: Seq<Tok>)
    requires
        shaped_proj(p),
        ends_item()(rest),
    ensures
        select_item(proj_toks(p) + rest) == Ok::<(Proj, Seq<Tok>), nat>((p, rest)),
{
    match p {
        Proj::Aliased(inner, alias) => {
            let r2 = word_toks(alias) + rest;
            let r1 = keyword_toks(Keyword::As) + r2;
            assert(proj_toks(p) + rest =~= proj_toks(*inner) + r1);
            first(Tok::Keyword(Keyword::As), r2);
            first(Tok::Ident(alias), rest);
            reads_base(*inner, r1);
        },
        _ => {
            reads_base(p, rest);
        },
    }
}

proof fn lemma_proj_front(p: Proj, rest: Seq<Tok>)
    requires
        shaped_proj(p),
    ensures
        proj_toks(p).len() > 0,
        (proj_toks(p) + rest)[0] is Ident,
{
    match p {
        Proj::Aliased(inner, alias) => {
            let t = proj_toks(*inner);
            assert(t.len() > 0 && t[0] is Ident);
            assert((proj_toks(p) + rest)[0] == t[0]);
        },
        _ => {
            assert((proj_toks(p) + rest)[0] == proj_toks(p)[0]);
        },
    }
}

proof fn reads_projection(ps: Seq<Proj>, rest: Seq<Tok>)
    requires
        shaped_projection(ps),
        at_keyword(rest, Keyword::From),
    ensures
        select_list(join(proj_toks_all(ps), comma_toks()) + rest) == Ok::<
            (Seq<Proj>, Seq<Tok>),
            nat,
        >((ps, rest)),
{
    let ts = proj_toks_all(ps);
    if ps == seq![Proj::Wildcard] {
        assert(join(ts, comma_toks()) == symbol_toks(Symbol::Star));
        first(Tok::Symbol(Symbol::Star), rest);
    } else {
        assert(reads_each(select_items(), ps, ts, ends_item())) by {
            reveal(reads_each);
            assert forall|i: int, r: Seq<Tok>|
                0 <= i < ps.len() && ends_item()(r) implies #[trigger] select_items()(ts[i] + r)
                == Ok::<(Proj, Seq<Tok>), nat>((ps[i], r)) by {
                reads_proj(ps[i], r);
            }
        }
        reads_items(select_items(), ps, ts, ends_item(), rest);
        assert(shaped_proj(ps[0]));
        lemma_proj_front(ps[0], Seq::empty());
        assert(ts[0] + Seq::empty() =~= ts[0]);
        let all = join(ts, comma_toks()) + rest;
        assert(all[0] == ts[0][0]);
    }
}

proof fn reads_direction(d: OrderDir, rest: Seq<Tok>)
    ensures
        direction(keyword_toks(direction_keyword(d)) + rest) == (d, rest),
{
    first(Tok::Keyword(direction_keyword(d)), rest);
}

proof fn reads_order(o: Order, rest: Seq<Tok>)
    ensures
        order_by_item(order_toks(o) + rest) == Ok::<(Order, Seq<Tok>), nat>((o, rest)),
{
    match o {
        Order::Distance(d, dir) => {
            let r1 = keyword_toks(direction_keyword(dir)) + rest;
            assert(order_toks(o) + rest =~= distance_toks(d) + r1);
            reads_distance(d, r1);
            reads_direction(dir, rest);
        },
        Order::Field(name, dir) => {
            let r1 = keyword_toks(direction_keyword(dir)) + rest;
            assert(order_toks(o) + rest =~= word_toks(name) + r1);
            first(Tok::Ident(name), r1);
            reads_direction(dir, rest);
            assert((order_toks(o) + rest)[1] == r1[0]);
        },
    }
}

proof fn reads_order_by(os: Seq<Order>, rest: Seq<Tok>)
    requires
        !at_symbol(rest, Symbol::Comma),
        !at_keyword(rest, Keyword::Order),
    ensures
        order_by_clause(order_by_toks(os) + rest) == Ok::<(Seq<Order>, Seq<Tok>), nat>((os, rest)),
{
    if os.len() == 0 {
        assert(order_by_toks(os) + rest =~= rest);
        assert(os =~= Seq::empty());
    } else {
        let ts = order_toks_all(os);
        let r2 = join(ts, comma_toks()) + rest;
        let r1 = keyword_toks(Keyword::By) + r2;
        assert(order_by_toks(os) + rest =~= keyword_toks(Keyword::Order) + r1);
        first(Tok::Keyword(Keyword::Order), r1);
        first(Tok::Keyword(Keyword::By), r2);
        assert(reads_each(order_by_items(), os, ts, anything())) by {
            reveal(reads_each);
            assert forall|i: int, r: Seq<Tok>|
                0 <= i < os.len() && anything()(r) implies #[trigger] order_by_items()(ts[i] + r)
                == Ok::<(Order, Seq<Tok>), nat>((os[i], r)) by {
                reads_order(os[i], r);
            }
        }
        reads_items(order_by_items(), os, ts, anything(), rest);
    }
}

proof fn reads_limit(n: Option<u64>)
    ensures
        limit_clause(limit_toks(n)) == Ok::<(Option<u64>, Seq<Tok>), nat>((n, Seq::empty())),
        !at_symbol(limit_toks(n), Symbol::Comma),
        !at_keyword(limit_toks(n), Keyword::Order),
        !at_keyword(limit_toks(n), Keyword::Where),
        ends_chain(limit_toks(n)),
{
    match n {
        Some(k) => {
            lemma_numeral(k as nat);
            let t = Tok::Number(false, numeral(k as nat), None);
            first(Tok::Keyword(Keyword::Limit), seq![t]);
            assert(seq![t].skip(1) =~= Seq::empty());
        },
        None => {},
    }
}

proof fn reads_query(q: Query)
    requires
        shaped_query(q),
        finite(Stmt::Select(q)),
    ensures
        statement(query_toks(q)) == Ok::<(Stmt, Seq<Tok>), nat>((Stmt::Select(q), Seq::empty())),
{
    reveal(statement);
    let r5 = limit_toks(q.limit);
    let r4 = order_by_toks(q.order_by) + r5;
    let r3 = where_toks(q.predicate) + r4;
    let r2 = word_toks(q.from_table) + r3;
    let r1 = keyword_toks(Keyword::From) + r2;
    let r0 = join(proj_toks_all(q.projection), comma_toks()) + r1;
    assert(query_toks(q) =~= keyword_toks(Keyword::Select) + r0);
    first(Tok::Keyword(Keyword::Select), r0);
    first(Tok::Keyword(Keyword::From), r2);
    first(Tok::Ident(q.from_table), r3);
    reads_projection(q.projection, r1);
    reads_limit(q.limit);
    reads_order_by(q.order_by, r5);
    if q.order_by.len() > 0 {
        assert(r4[0] == Tok::Keyword(Keyword::Order));
    } else {
        assert(r4 =~= r5);
    }
    match q.predicate {
        Some(p) => {
            let r = pred_toks(p, 0) + r4;
            assert(r3 =~= keyword_toks(Keyword::Where) + r);
            first(Tok::Keyword(Keyword::Where), r);
            reads_or(p, r4);
        },
        None => {
            assert(r3 =~= r4);
        },
    }
    assert(where_clause(r3) == Ok::<(Option<Pred>, Seq<Tok>), nat>((q.predicate, r4)));
}

// ----- Other statements -----

proof fn reads_source(src: Source)
    requires
        shaped_source(src),
    ensures
        values_clause(source_toks(src)) == Ok::<(Source, Seq<Tok>), nat>((src, Seq::empty())),
{
    let none: Seq<Tok> = Seq::empty();
    match src {
        Source::Rows(rows) => {
            let es = rows[0];
            let ts = expr_toks_all(es);
            let r2 = symbol_toks(Symbol::RightParen) + none;
            let r1 = join(ts, comma_toks()) + r2;
            assert(source_toks(src) == row_toks(es));
            assert(row_toks(es) =~= symbol_toks(Symbol::LeftParen) + r1);
            first(Tok::Symbol(Symbol::LeftParen), r1);
            first(Tok::Symbol(Symbol::RightParen), none);
            assert(reads_each(row_values(), es, ts, anything())) by {
                reveal(reads_each);
                assert forall|i: int, r: Seq<Tok>|
                    0 <= i < es.len() && anything()(r) implies #[trigger] row_values()(ts[i] + r)
                    == Ok::<(Expr, Seq<Tok>), nat>((es[i], r)) by {
                    assert(is_param_expr(es[i]));
                    reads_param(es[i]->Param_0, r);
                }
            }
            reads_items(row_values(), es, ts, anything(), r2);
            assert(rows =~= seq![es]);
        },
        Source::Param(p) => {
            reads_param(p, none);
            assert(param_toks(p) + none =~= param_toks(p));
        },
    }
}

proof fn reads_insert(table: Seq<char>, columns: Seq<Seq<char>>, source: Source)
    requires
        shaped(Stmt::Insert { table, columns, source }),
    ensures
        statement(insert_toks(table, columns, source)) == Ok::<(Stmt, Seq<Tok>), nat>(
            (Stmt::Insert { table, columns, source }, Seq::empty()),
        ),
{
    reveal(statement);
    let r6 = source_toks(source);
    let r5 = keyword_toks(Keyword::Values) + r6;
    let r4 = symbol_toks(Symbol::RightParen) + r5;
    let r3 = join(column_toks(columns), comma_toks()) + r4;
    let r2 = symbol_toks(Symbol::LeftParen) + r3;
    let r1 = word_toks(table) + r2;
    let r0 = keyword_toks(Keyword::Into) + r1;
    assert(insert_toks(table, columns, source) =~= keyword_toks(Keyword::Insert) + r0);
    first(Tok::Keyword(Keyword::Insert), r0);
    first(Tok::Keyword(Keyword::Into), r1);
    first(Tok::Ident(table), r2);
    first(Tok::Symbol(Symbol::LeftParen), r3);
    first(Tok::Symbol(Symbol::RightParen), r5);
    first(Tok::Keyword(Keyword::Values), r6);
    reads_identifiers(columns, r4);
    reads_source(source);
}

proof fn reads_assign(a: Assign, rest: Seq<Tok>)
    requires
        finite_expr(a.value),
    ensures
        set_assignment(assign_toks(a) + rest) == Ok::<(Assign, Seq<Tok>), nat>((a, rest)),
{
    let r2 = expr_toks(a.value) + rest;
    let r1 = comparison_toks(CmpOp::Eq) + r2;
    assert(assign_toks(a) + rest =~= subscript_toks(a.field, a.subscript) + r1);
    first(Tok::Cmp(CmpOp::Eq), r2);
    reads_subscript(a.field, a.subscript, r1);
    reads_expr(a.value, rest);
}

proof fn reads_update(table: Seq<char>, v: Seq<Assign>, p: Pred)
    requires
        shaped(Stmt::Update { table, assignments: v, predicate: p }),
        finite(Stmt::Update { table, assignments: v, predicate: p }),
    ensures
        statement(update_toks(table, v, p)) == Ok::<(Stmt, Seq<Tok>), nat>(
            (Stmt::Update { table, assignments: v, predicate: p }, Seq::empty()),
        ),
{
    reveal(statement);
    let none: Seq<Tok> = Seq::empty();
    let ts = assign_toks_all(v);
    let r4 = pred_toks(p, 0) + none;
    let r3 = keyword_toks(Keyword::Where) + r4;
    let r2 = join(ts, comma_toks()) + r3;
    let r1 = keyword_toks(Keyword::Assign) + r2;
    let r0 = word_toks(table) + r1;
    assert(update_toks(table, v, p) =~= keyword_toks(Keyword::Update) + r0);
    first(Tok::Keyword(Keyword::Update), r0);
    first(Tok::Ident(table), r1);
    first(Tok::Keyword(Keyword::Assign), r2);
    first(Tok::Keyword(Keyword::Where), r4);
    assert(reads_each(set_assignments(), v, ts, anything())) by {
        reveal(reads_each);
        assert forall|i: int, r: Seq<Tok>|
            0 <= i < v.len() && anything()(r) implies #[trigger] set_assignments()(ts[i] + r)
            == Ok::<(Assign, Seq<Tok>), nat>((v[i], r)) by {
            assert(finite_expr(v[i].value));
            reads_assign(v[i], r);
        }
    }
    reads_items(set_assignments(), v, ts, anything(), r3);
    reads_or(p, none);
}

proof fn reads_delete(table: Seq<char>, p: Pred)
    requires
        shaped_pred(p),
        finite_pred(p),
    ensures
        statement(delete_toks(table, p)) == Ok::<(Stmt, Seq<Tok>), nat>(
            (Stmt::Delete { table, predicate: p }, Seq::empty()),
        ),
{
    reveal(statement);
    let none: Seq<Tok> = Seq::empty();
    let r3 = pred_toks(p, 0) + none;
    let r2 = keyword_toks(Keyword::Where) + r3;
    let r1 = word_toks(table) + r2;
    let r0 = keyword_toks(Keyword::From) + r1;
    assert(delete_toks(table, p) =~= keyword_toks(Keyword::Delete) + r0);
    first(Tok::Keyword(Keyword::Delete), r0);
    first(Tok::Keyword(Keyword::From), r1);
    first(Tok::Ident(table), r2);
    first(Tok::Keyword(Keyword::Where), r3);
    reads_or(p, none);
}

proof fn reads_method(m: IndexMethod, rest: Seq<Tok>)
    ensures
        index_method(word_toks(method_text(m)) + rest) == Ok::<(IndexMethod, Seq<Tok>), nat>(
            (m, rest),
        ),
{
    first(Tok::Ident(method_text(m)), rest);
    reveal_strlit("HASH");
    reveal_strlit("BTREE");
    reveal_strlit("INVERTED");
    assert(upper("HASH"@).len() == 4 && upper("BTREE"@).len() == 5 && upper("INVERTED"@).len()
        == 8);
}

proof fn reads_create_index(
    name: Option<Seq<char>>,
    table: Seq<char>,
    method: IndexMethod,
    field: Seq<char>,
)
    ensures
        statement(create_index_toks(name, table, method, field)) == Ok::<(Stmt, Seq<Tok>), nat>(
            (Stmt::CreateIndex { name, table, method, field }, Seq::empty()),
        ),
{
    reveal(statement);
    let none: Seq<Tok> = Seq::empty();
    let r8 = symbol_toks(Symbol::RightParen) + none;
    let r7 = word_toks(field) + r8;
    let r6 = symbol_toks(Symbol::LeftParen) + r7;
    let r5 = word_toks(method_text(method)) + r6;
    let r4 = keyword_toks(Keyword::Using) + r5;
    let r3 = word_toks(table) + r4;
    let r2 = keyword_toks(Keyword::On) + r3;
    let r1 = name_toks(name) + r2;
    let r0 = keyword_toks(Keyword::Index) + r1;
    assert(create_index_toks(name, table, method, field) =~= keyword_toks(Keyword::Create) + r0);
    first(Tok::Keyword(Keyword::Create), r0);
    first(Tok::Keyword(Keyword::Index), r1);
    first(Tok::Keyword(Keyword::On), r3);
    first(Tok::Ident(table), r4);
    first(Tok::Keyword(Keyword::Using), r5);
    first(Tok::Symbol(Symbol::LeftParen), r7);
    first(Tok::Ident(field), r8);
    first(Tok::Symbol(Symbol::RightParen), none);
    reads_method(method, r6);
    assert(optional_name(r1) == (name, r2)) by {
        match name {
            Some(n) => {
                first(Tok::Ident(n), r2);
            },
            None => {
                assert(r1 =~= r2);
            },
        }
    }
}

proof fn reads_drop_index(name: Seq<char>, table: Seq<char>)
    ensures
        statement(drop_index_toks(name, table)) == Ok::<(Stmt, Seq<Tok>), nat>(
            (Stmt::DropIndex { name, table }, Seq::empty()),
        ),
{
    reveal(statement);
    let none: Seq<Tok> = Seq::empty();
    let r3 = word_toks(table) + none;
    let r2 = keyword_toks(Keyword::On) + r3;
    let r1 = word_toks(name) + r2;
    let r0 = keyword_toks(Keyword::Index) + r1;
    assert(drop_index_toks(name, table) =~= keyword_toks(Keyword::Drop) + r0);
    first(Tok::Keyword(Keyword::Drop), r0);
    first(Tok::Keyword(Keyword::Index), r1);
    first(Tok::Ident(name), r2);
    first(Tok::Keyword(Keyword::On), r3);
    first(Tok::Ident(table), none);
}

/// The canonical tokens of a statement stand for the statement.
pub proof fn lemma_reparse(s: Stmt)
    requires
        shaped(s),
        finite(s),
    ensures
        program(stmt_toks(s)) == Ok::<Stmt, nat>(s),
{
    let none: Seq<Tok> = Seq::empty();
    match s {
        Stmt::Select(q) => reads_query(q),
        Stmt::Insert { table, columns, source } => reads_insert(table, columns, source),
        Stmt::Update { table, assignments, predicate } => reads_update(
            table,
            assignments,
            predicate,
        ),
        Stmt::Delete { table, predicate } => reads_delete(table, predicate),
        Stmt::Vacuum { table } => {
            reveal(statement);
            let r0 = word_toks(table) + none;
            assert(stmt_toks(s) =~= keyword_toks(Keyword::Vacuum) + r0);
            first(Tok::Keyword(Keyword::Vacuum), r0);
            first(Tok::Ident(table), none);
        },
        Stmt::Checkpoint => {
            reveal(statement);
            first(Tok::Keyword(Keyword::Checkpoint), none);
            assert(stmt_toks(s) =~= keyword_toks(Keyword::Checkpoint) + none);
        },
        Stmt::CreateIndex { name, table, method, field } => reads_create_index(
            name,
            table,
            method,
            field,
        ),
        Stmt::DropIndex { name, table } => reads_drop_index(name, table),
    }
}

} // verus!
