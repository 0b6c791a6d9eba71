//! Every parsed statement is shaped.

use crate::grammar::{
    and_expr, and_tail, at_distance, at_keyword, at_symbol, atom, atom_or_parens, atom_value,
    base_projection, column_list, conjuncts, create_index_stmt, decimal32, decimal64, delete_stmt,
    disjuncts, distance_expr, drop_index_stmt, field_ref, identifier, identifiers, insert_stmt,
    items, literal, literals, lone_predicate, more_items, not_expr, optional_name, or_expr,
    or_tail, order_by_item, order_by_items, param, program, row_value, row_values, select_item,
    select_items, select_list, select_stmt, set_assignment, set_assignments, statement,
    update_stmt, values_clause, where_clause, Parsed,
};
use crate::ieee::{binary32, binary64, magnitude32, magnitude64, Format};
use crate::keyword::Keyword;
use crate::lexer::{
    in_word, is_space, lemma_quoted_run, lemma_word_run, lex, quoted_run, starts_word, token_at,
    word_run, Symbol, Tok,
};
use crate::shape::{
    is_identifier, is_param_expr, is_quotable, is_word, shaped, shaped_assign, shaped_base,
    shaped_expr, shaped_field, shaped_literal, shaped_order, shaped_param, shaped_pred,
    shaped_proj, shaped_projection, shaped_source,
};
use crate::syntax::{Assign, Expr, Literal, Order, Pred, Proj};
use crate::text::numeral_value;
use vstd::prelude::*;

verus! {

/// Whether the text in a token is what its kind allows.
pub open spec fn tok_valid(t: Tok) -> bool {
    match t {
        Tok::Ident(w) => is_identifier(w),
        Tok::Name(w) => is_identifier(w),
        Tok::Quoted(s) => is_quotable(s),
        _ => true,
    }
}

pub open spec fn valid(ts: Seq<Tok>) -> bool {
    forall|i: int| 0 <= i < ts.len() ==> tok_valid(#[trigger] ts[i])
}

proof fn lemma_word_taken(s: Seq<char>)
    requires
        s.len() > 0,
        starts_word(s[0]),
    ensures
        is_word(s.take(word_run(s) as int)),
{
    lemma_word_run(s);
    let w = s.take(word_run(s) as int);
    assert forall|i: int| 0 <= i < w.len() implies in_word(#[trigger] w[i]) by {
        assert(w[i] == s[i]);
    }
}

proof fn lemma_token_valid(s: Seq<char>)
    requires
        s.len() > 0,
    ensures
        match token_at(s) {
            Some((t, n)) => tok_valid(t),
            None => true,
        },
{
    if starts_word(s[0]) {
        lemma_word_taken(s);
    } else if s[0] == '$' {
        let rest = s.skip(1);
        if rest.len() > 0 && starts_word(rest[0]) {
            lemma_word_taken(rest);
        }
    } else if s[0] == '\'' {
        let rest = s.skip(1);
        lemma_quoted_run(rest);
        let q = rest.take(quoted_run(rest) as int);
        assert forall|i: int| 0 <= i < q.len() implies #[trigger] q[i] != '\'' by {
            assert(q[i] == rest[i]);
        }
    }
}

/// The tokens of a text are valid.
pub proof fn lemma_lex_valid(s: Seq<char>)
    ensures
        match lex(s) {
            Ok(ts) => valid(ts),
            Err(_) => true,
        },
    decreases s.len(),
{
    if s.len() > 0 {
        if is_space(s[0]) {
            lemma_lex_valid(s.skip(1));
        } else {
            match token_at(s) {
                Some((t, n)) => if 0 < n <= s.len() {
                    lemma_token_valid(s);
                    lemma_lex_valid(s.skip(n as int));
                },
                None => {},
            }
        }
    }
}

/// There is a magnitude nearest to every decimal.
proof fn lemma_nearest_exists(f: Format, digits: nat, scale: nat, b: nat)
    requires
        b <= f.inf,
        b < f.inf ==> !f.reaches(digits, scale, b + 1),
    ensures
        f.is_nearest(digits, scale, f.nearest(digits, scale)),
    decreases b,
{
    if b == 0 || f.reaches(digits, scale, b) {
        assert(f.is_nearest(digits, scale, b));
    } else {
        lemma_nearest_exists(f, digits, scale, (b - 1) as nat);
    }
}

proof fn lemma_decimal64_shaped(neg: bool, whole: Seq<char>, frac: Seq<char>)
    ensures
        magnitude64(decimal64(neg, whole, frac)) <= binary64().inf,
{
    lemma_nearest_exists(
        binary64(),
        numeral_value(whole + frac),
        frac.len(),
        binary64().inf as nat,
    );
}

proof fn lemma_decimal32_shaped(neg: bool, whole: Seq<char>, frac: Seq<char>)
    ensures
        magnitude32(decimal32(neg, whole, frac)) <= binary32().inf,
{
    lemma_nearest_exists(
        binary32(),
        numeral_value(whole + frac),
        frac.len(),
        binary32().inf as nat,
    );
}

proof fn yields_literal(ts: Seq<Tok>)
    requires
        valid(ts),
    ensures
        match literal(ts) {
            Ok((l, r)) => shaped_literal(l) && valid(r),
            Err(_) => true,
        },
{
    if ts.len() > 0 {
        assert(tok_valid(ts[0]));
        match ts[0] {
            Tok::Number(neg, whole, Some(frac)) => lemma_decimal64_shaped(neg, whole, frac),
            _ => {},
        }
    }
}

proof fn yields_param(ts: Seq<Tok>)
    requires
        valid(ts),
    ensures
        match param(ts) {
            Ok((p, r)) => shaped_param(p) && valid(r),
            Err(_) => true,
        },
{
    if ts.len() > 0 {
        assert(tok_valid(ts[0]));
    }
}

proof fn yields_value(ts: Seq<Tok>)
    requires
        valid(ts),
    ensures
        match atom_value(ts) {
            Ok((v, r)) => shaped_expr(v) && valid(r),
            Err(_) => true,
        },
{
    yields_param(ts);
    yields_literal(ts);
}

proof fn yields_identifier(ts: Seq<Tok>)
    requires
        valid(ts),
    ensures
        match identifier(ts) {
            Ok((w, r)) => is_identifier(w) && valid(r),
            Err(_) => true,
        },
{
    if ts.len() > 0 {
        assert(tok_valid(ts[0]));
    }
}

proof fn yields_distance(ts: Seq<Tok>)
    requires
        valid(ts),
        at_distance(ts),
    ensures
        match distance_expr(ts) {
            Ok((d, r)) => shaped_param(d.param) && valid(r),
            Err(_) => true,
        },
{
    yields_param(ts.skip(2));
}

proof fn yields_field(ts: Seq<Tok>)
    requires
        valid(ts),
    ensures
        match field_ref(ts) {
            Ok((f, r)) => shaped_field(f) && valid(r),
            Err(_) => true,
        },
{
    yields_identifier(ts);
    match identifier(ts) {
        Ok((name, r)) => if at_symbol(r, Symbol::LeftBracket) {
            let r1 = r.skip(1);
            if r1.len() > 0 {
                assert(tok_valid(r1[0]));
            }
        },
        Err(_) => {},
    }
}

// ----- Lists -----

/// Whether everything that `item` reads from valid tokens is `good`.
#[verifier::opaque]
spec fn yields_good<X>(item: spec_fn(Seq<Tok>) -> Parsed<X>, good: spec_fn(X) -> bool) -> bool {
    forall|ts: Seq<Tok>|
        valid(ts) ==> match #[trigger] item(ts) {
            Ok((x, r)) => good(x) && valid(r),
            Err(_) => true,
        }
}

proof fn yields_more<X>(
    item: spec_fn(Seq<Tok>) -> Parsed<X>,
    good: spec_fn(X) -> bool,
    ts: Seq<Tok>,
)
    requires
        yields_good(item, good),
        valid(ts),
    ensures
        match more_items(item, ts) {
            Ok((xs, r)) => valid(r) && forall|i: int|
                0 <= i < xs.len() ==> good(#[trigger] xs[i]),
            Err(_) => true,
        },
    decreases ts.len(),
{
    if at_symbol(ts, Symbol::Comma) {
        assert(valid(ts.skip(1)));
        assert(match item(ts.skip(1)) {
            Ok((x, r)) => good(x) && valid(r),
            Err(_) => true,
        }) by {
            reveal(yields_good);
        }
        match item(ts.skip(1)) {
            Ok((x, r)) => if r.len() < ts.len() {
                yields_more(item, good, r);
            },
            Err(_) => {},
        }
    }
}

proof fn yields_items<X>(
    item: spec_fn(Seq<Tok>) -> Parsed<X>,
    good: spec_fn(X) -> bool,
    ts: Seq<Tok>,
)
    requires
        yields_good(item, good),
        valid(ts),
    ensures
        match items(item, ts) {
            Ok((xs, r)) => xs.len() > 0 && valid(r) && forall|i: int|
                0 <= i < xs.len() ==> good(#[trigger] xs[i]),
            Err(_) => true,
        },
{
    assert(match item(ts) {
        Ok((x, r)) => good(x) && valid(r),
        Err(_) => true,
    }) by {
        reveal(yields_good);
    }
    match item(ts) {
        Ok((x, r)) => yields_more(item, good, r),
        Err(_) => {},
    }
}

proof fn yields_literals(ts: Seq<Tok>)
    requires
        valid(ts),
    ensures
        match items(literals(), ts) {
            Ok((ls, r)) => ls.len() > 0 && valid(r) && forall|i: int|
                0 <= i < ls.len() ==> shaped_literal(#[trigger] ls[i]),
            Err(_) => true,
        },
{
    let good = |l: Literal| shaped_literal(l);
    assert(yields_good(literals(), good)) by {
        reveal(yields_good);
        assert forall|ts: Seq<Tok>| valid(ts) implies match #[trigger] literals()(ts) {
            Ok((x, r)) => good(x) && valid(r),
            Err(_) => true,
        } by {
            yields_literal(ts);
        }
    }
    yields_items(literals(), good, ts);
    match items(literals(), ts) {
        Ok((ls, r)) => {
            assert forall|i: int| 0 <= i < ls.len() implies shaped_literal(#[trigger] ls[i]) by {
                assert(good(ls[i]));
            }
        },
        Err(_) => {},
    }
}

// ----- Predicates -----

proof fn yields_atom(ts: Seq<Tok>)
    requires
        valid(ts),
    ensures
        match atom(ts) {
            Ok((p, r)) => shaped_pred(p) && valid(r),
            Err(_) => true,
        },
{
    if at_distance(ts) {
        yields_distance(ts);
        match distance_expr(ts) {
            Ok((d, r)) => if r.len() > 1 && r[1] is Number {
                let frac = match r[1]->Number_2 {
                    Some(f) => f,
                    None => Seq::empty(),
                };
                lemma_decimal32_shaped(r[1]->Number_0, r[1]->Number_1, frac);
            },
            Err(_) => {},
        }
    } else {
        yields_field(ts);
        match field_ref(ts) {
            Ok((f, r)) => if r.len() > 0 {
                let r1 = r.skip(1);
                yields_literal(r1);
                yields_value(r1);
                if at_keyword(r, Keyword::Between) {
                    match literal(r1) {
                        Ok((lo, r2)) => if r2.len() > 0 {
                            yields_literal(r2.skip(1));
                        },
                        Err(_) => {},
                    }
                } else if at_keyword(r, Keyword::In) && r1.len() > 0 {
                    yields_literals(r1.skip(1));
                }
            },
            Err(_) => {},
        }
    }
}

/// Whether the terms `ps` are shaped and none is a conjunction.
spec fn conjunct_terms(ps: Seq<Pred>) -> bool {
    forall|i: int| 0 <= i < ps.len() ==> shaped_pred(#[trigger] ps[i]) && !(ps[i] is And)
}

/// Whether the terms `ps` are shaped and none is a disjunction.
spec fn disjunct_terms(ps: Seq<Pred>) -> bool {
    forall|i: int| 0 <= i < ps.len() ==> shaped_pred(#[trigger] ps[i]) && !(ps[i] is Or)
}

proof fn yields_or(ts: Seq<Tok>)
    requires
        valid(ts),
    ensures
        match or_expr(ts) {
            Ok((p, r)) => shaped_pred(p) && valid(r),
            Err(_) => true,
        },
    decreases ts.len(), 5int,
{
    yields_and(ts);
    match and_expr(ts) {
        Ok((p, r)) => if r.len() < ts.len() {
            yields_or_tail(r);
            assert(disjunct_terms(disjuncts(p)) && disjuncts(p).len() >= 1);
            match or_tail(r) {
                Ok((qs, r2)) => {
                    let ps = disjuncts(p) + qs;
                    assert(disjunct_terms(ps));
                    assert(ps.len() >= 1);
                    if ps.len() == 1 {
                        assert(shaped_pred(ps[0]));
                    }
                },
                Err(_) => {},
            }
        },
        Err(_) => {},
    }
}

proof fn yields_or_tail(ts: Seq<Tok>)
    requires
        valid(ts),
    ensures
        match or_tail(ts) {
            Ok((ps, r)) => disjunct_terms(ps) && valid(r),
            Err(_) => true,
        },
    decreases ts.len(), 4int,
{
    if at_keyword(ts, Keyword::Or) {
        yields_and(ts.skip(1));
        match and_expr(ts.skip(1)) {
            Ok((p, r)) => if r.len() < ts.len() {
                yields_or_tail(r);
                assert(disjunct_terms(disjuncts(p)));
            },
            Err(_) => {},
        }
    }
}

proof fn yields_and(ts: Seq<Tok>)
    requires
        valid(ts),
    ensures
        match and_expr(ts) {
            Ok((p, r)) => shaped_pred(p) && valid(r),
            Err(_) => true,
        },
    decreases ts.len(), 3int,
{
    yields_not(ts);
    match not_expr(ts) {
        Ok((p, r)) => if r.len() < ts.len() {
            yields_and_tail(r);
            assert(conjunct_terms(conjuncts(p)) && conjuncts(p).len() >= 1);
            match and_tail(r) {
                Ok((qs, r2)) => {
                    let ps = conjuncts(p) + qs;
                    assert(conjunct_terms(ps));
                    assert(ps.len() >= 1);
                    if ps.len() == 1 {
                        assert(shaped_pred(ps[0]));
                    }
                },
                Err(_) => {},
            }
        },
        Err(_) => {},
    }
}

proof fn yields_and_tail(ts: Seq<Tok>)
    requires
        valid(ts),
    ensures
        match and_tail(ts) {
            Ok((ps, r)) => conjunct_terms(ps) && valid(r),
            Err(_) => true,
        },
    decreases ts.len(), 2int,
{
    if at_keyword(ts, Keyword::And) {
        yields_not(ts.skip(1));
        match not_expr(ts.skip(1)) {
            Ok((p, r)) => if r.len() < ts.len() {
                yields_and_tail(r);
                assert(conjunct_terms(conjuncts(p)));
            },
            Err(_) => {},
        }
    }
}

proof fn yields_not(ts: Seq<Tok>)
    requires
        valid(ts),
    ensures
        match not_expr(ts) {
            Ok((p, r)) => shaped_pred(p) && valid(r),
            Err(_) => true,
        },
    decreases ts.len(), 1int,
{
    reveal_with_fuel(not_expr, 2);
    reveal_with_fuel(atom_or_parens, 2);
    if at_keyword(ts, Keyword::Not) {
        yields_not(ts.skip(1));
    } else if at_symbol(ts, Symbol::LeftParen) {
        yields_or(ts.skip(1));
    } else {
        yields_atom(ts);
    }
}

/// A parsed predicate is shaped.
pub proof fn lemma_predicate_shaped(ts: Seq<Tok>)
    requires
        valid(ts),
    ensures
        match lone_predicate(ts) {
            Ok(p) => shaped_pred(p),
            Err(_) => true,
        },
{
    yields_or(ts);
}

// ----- Statements -----

proof fn yields_base(ts: Seq<Tok>)
    requires
        valid(ts),
    ensures
        match base_projection(ts) {
            Ok((p, r)) => shaped_base(p) && valid(r),
            Err(_) => true,
        },
{
    if at_distance(ts) {
        yields_distance(ts);
    } else {
        yields_identifier(ts);
    }
}

proof fn yields_select_item(ts: Seq<Tok>)
    requires
        valid(ts),
    ensures
        match select_item(ts) {
            Ok((p, r)) => shaped_proj(p) && valid(r),
            Err(_) => true,
        },
{
    yields_base(ts);
    match base_projection(ts) {
        Ok((p, r)) => if at_keyword(r, Keyword::As) {
            yields_identifier(r.skip(1));
        },
        Err(_) => {},
    }
}

proof fn yields_order_by_item(ts: Seq<Tok>)
    requires
        valid(ts),
    ensures
        match order_by_item(ts) {
            Ok((o, r)) => shaped_order(o) && valid(r),
            Err(_) => true,
        },
{
    if at_distance(ts) {
        yields_distance(ts);
    } else {
        yields_identifier(ts);
    }
}

proof fn yields_row_value(ts: Seq<Tok>)
    requires
        valid(ts),
    ensures
        match row_value(ts) {
            Ok((v, r)) => is_param_expr(v) && valid(r),
            Err(_) => true,
        },
{
    yields_param(ts);
}

proof fn yields_set_assignment(ts: Seq<Tok>)
    requires
        valid(ts),
    ensures
        match set_assignment(ts) {
            Ok((a, r)) => shaped_assign(a) && valid(r),
            Err(_) => true,
        },
{
    yields_field(ts);
    match field_ref(ts) {
        Ok((f, r)) => if r.len() > 0 {
            yields_value(r.skip(1));
        },
        Err(_) => {},
    }
}

proof fn yields_select_items(ts: Seq<Tok>)
    requires
        valid(ts),
    ensures
        match items(select_items(), ts) {
            Ok((xs, r)) => xs.len() > 0 && valid(r) && forall|i: int|
                0 <= i < xs.len() ==> shaped_proj(#[trigger] xs[i]),
            Err(_) => true,
        },
{
    let good = |x: Proj| shaped_proj(x);
    assert(yields_good(select_items(), good)) by {
        reveal(yields_good);
        assert forall|ts: Seq<Tok>| valid(ts) implies match #[trigger] select_items()(ts) {
            Ok((x, r)) => good(x) && valid(r),
            Err(_) => true,
        } by {
            yields_select_item(ts);
        }
    }
    yields_items(select_items(), good, ts);
    match items(select_items(), ts) {
        Ok((xs, r)) => {
            assert forall|i: int| 0 <= i < xs.len() implies shaped_proj(#[trigger] xs[i]) by {
                assert(good(xs[i]));
            }
        },
        Err(_) => {},
    }
}

proof fn yields_order_by_items(ts: Seq<Tok>)
    requires
        valid(ts),
    ensures
        match items(order_by_items(), ts) {
            Ok((xs, r)) => xs.len() > 0 && valid(r) && forall|i: int|
                0 <= i < xs.len() ==> shaped_order(#[trigger] xs[i]),
            Err(_) => true,
        },
{
    let good = |x: Order| shaped_order(x);
    assert(yields_good(order_by_items(), good)) by {
        reveal(yields_good);
        assert forall|ts: Seq<Tok>| valid(ts) implies match #[trigger] order_by_items()(ts) {
            Ok((x, r)) => good(x) && valid(r),
            Err(_) => true,
        } by {
            yields_order_by_item(ts);
        }
    }
    yields_items(order_by_items(), good, ts);
    match items(order_by_items(), ts) {
        Ok((xs, r)) => {
            assert forall|i: int| 0 <= i < xs.len() implies shaped_order(#[trigger] xs[i]) by {
                assert(good(xs[i]));
            }
        },
        Err(_) => {},
    }
}

proof fn yields_row_values(ts: Seq<Tok>)
    requires
        valid(ts),
    ensures
        match items(row_values(), ts) {
            Ok((xs, r)) => xs.len() > 0 && valid(r) && forall|i: int|
                0 <= i < xs.len() ==> is_param_expr(#[trigger] xs[i]),
            Err(_) => true,
        },
{
    let good = |x: Expr| is_param_expr(x);
    assert(yields_good(row_values(), good)) by {
        reveal(yields_good);
        assert forall|ts: Seq<Tok>| valid(ts) implies match #[trigger] row_values()(ts) {
            Ok((x, r)) => good(x) && valid(r),
            Err(_) => true,
        } by {
            yields_row_value(ts);
        }
    }
    yields_items(row_values(), good, ts);
    match items(row_values(), ts) {
        Ok((xs, r)) => {
            assert forall|i: int| 0 <= i < xs.len() implies is_param_expr(#[trigger] xs[i]) by {
                assert(good(xs[i]));
            }
        },
        Err(_) => {},
    }
}

proof fn yields_set_assignments(ts: Seq<Tok>)
    requires
        valid(ts),
    ensures
        match items(set_assignments(), ts) {
            Ok((xs, r)) => xs.len() > 0 && valid(r) && forall|i: int|
                0 <= i < xs.len() ==> shaped_assign(#[trigger] xs[i]),
            Err(_) => true,
        },
{
    let good = |x: Assign| shaped_assign(x);
    assert(yields_good(set_assignments(), good)) by {
        reveal(yields_good);
        assert forall|ts: Seq<Tok>| valid(ts) implies match #[trigger] set_assignments()(ts) {
            Ok((x, r)) => good(x) && valid(r),
            Err(_) => true,
        } by {
            yields_set_assignment(ts);
        }
    }
    yields_items(set_assignments(), good, ts);
    match items(set_assignments(), ts) {
        Ok((xs, r)) => {
            assert forall|i: int| 0 <= i < xs.len() implies shaped_assign(#[trigger] xs[i]) by {
                assert(good(xs[i]));
            }
        },
        Err(_) => {},
    }
}

proof fn yields_identifiers(ts: Seq<Tok>)
    requires
        valid(ts),
    ensures
        match items(identifiers(), ts) {
            Ok((xs, r)) => xs.len() > 0 && valid(r) && forall|i: int|
                0 <= i < xs.len() ==> is_identifier(#[trigger] xs[i]),
            Err(_) => true,
        },
{
    let good = |x: Seq<char>| is_identifier(x);
    assert(yields_good(identifiers(), good)) by {
        reveal(yields_good);
        assert forall|ts: Seq<Tok>| valid(ts) implies match #[trigger] identifiers()(ts) {
            Ok((x, r)) => good(x) && valid(r),
            Err(_) => true,
        } by {
            yields_identifier(ts);
        }
    }
    yields_items(identifiers(), good, ts);
    match items(identifiers(), ts) {
        Ok((xs, r)) => {
            assert forall|i: int| 0 <= i < xs.len() implies is_identifier(#[trigger] xs[i]) by {
                assert(good(xs[i]));
            }
        },
        Err(_) => {},
    }
}

proof fn yields_select(ts: Seq<Tok>)
    requires
        valid(ts),
    ensures
        match select_stmt(ts) {
            Ok((s, r)) => shaped(s),
            Err(_) => true,
        },
{
    if !at_symbol(ts, Symbol::Star) {
        yields_select_items(ts);
    }
    match select_list(ts) {
        Ok((projection, r)) => if r.len() > 0 {
            assert(shaped_projection(projection));
            yields_identifier(r.skip(1));
            match identifier(r.skip(1)) {
                Ok((table, r3)) => {
                    if at_keyword(r3, Keyword::Where) {
                        yields_or(r3.skip(1));
                    }
                    match where_clause(r3) {
                        Ok((predicate, r4)) => {
                            if at_keyword(r4, Keyword::Order) && r4.len() > 1 {
                                yields_order_by_items(r4.skip(1).skip(1));
                            }
                        },
                        Err(_) => {},
                    }
                },
                Err(_) => {},
            }
        },
        Err(_) => {},
    }
}

proof fn yields_values(ts: Seq<Tok>)
    requires
        valid(ts),
    ensures
        match values_clause(ts) {
            Ok((s, r)) => shaped_source(s),
            Err(_) => true,
        },
{
    if at_symbol(ts, Symbol::LeftParen) {
        yields_row_values(ts.skip(1));
    } else {
        yields_param(ts);
    }
}

proof fn yields_insert(ts: Seq<Tok>)
    requires
        valid(ts),
    ensures
        match insert_stmt(ts) {
            Ok((s, r)) => shaped(s),
            Err(_) => true,
        },
{
    if at_keyword(ts, Keyword::Into) {
        let r = ts.skip(1);
        yields_identifier(r);
        match identifier(r) {
            Ok((table, r2)) => if at_symbol(r2, Symbol::LeftParen) {
                yields_identifiers(r2.skip(1));
                match column_list(r2) {
                    Ok((columns, r3)) => if r3.len() > 0 {
                        yields_values(r3.skip(1));
                    },
                    Err(_) => {},
                }
            },
            Err(_) => {},
        }
    }
}

proof fn yields_update(ts: Seq<Tok>)
    requires
        valid(ts),
    ensures
        match update_stmt(ts) {
            Ok((s, r)) => shaped(s),
            Err(_) => true,
        },
{
    yields_identifier(ts);
    match identifier(ts) {
        Ok((table, r)) => if r.len() > 0 {
            yields_set_assignments(r.skip(1));
            match items(set_assignments(), r.skip(1)) {
                Ok((v, r3)) => if r3.len() > 0 {
                    yields_or(r3.skip(1));
                },
                Err(_) => {},
            }
        },
        Err(_) => {},
    }
}

proof fn yields_delete(ts: Seq<Tok>)
    requires
        valid(ts),
    ensures
        match delete_stmt(ts) {
            Ok((s, r)) => shaped(s),
            Err(_) => true,
        },
{
    if ts.len() > 0 {
        let r = ts.skip(1);
        yields_identifier(r);
        match identifier(r) {
            Ok((table, r2)) => if r2.len() > 0 {
                yields_or(r2.skip(1));
            },
            Err(_) => {},
        }
    }
}

proof fn yields_create_index(ts: Seq<Tok>)
    requires
        valid(ts),
    ensures
        match create_index_stmt(ts) {
            Ok((s, r)) => shaped(s),
            Err(_) => true,
        },
{
    if ts.len() > 0 {
        let r = ts.skip(1);
        yields_identifier(r);
        let r2 = optional_name(r).1;
        if r2.len() > 0 {
            let r3 = r2.skip(1);
            yields_identifier(r3);
            match identifier(r3) {
                Ok((table, r4)) => if r4.len() > 2 {
                    let r6 = r4.skip(1).skip(1);
                    assert(valid(r6));
                    yields_identifier(r6.skip(1));
                },
                Err(_) => {},
            }
        }
    }
}

proof fn yields_drop_index(ts: Seq<Tok>)
    requires
        valid(ts),
    ensures
        match drop_index_stmt(ts) {
            Ok((s, r)) => shaped(s),
            Err(_) => true,
        },
{
    if ts.len() > 0 {
        let r = ts.skip(1);
        yields_identifier(r);
        match identifier(r) {
            Ok((name, r2)) => if r2.len() > 0 {
                yields_identifier(r2.skip(1));
            },
            Err(_) => {},
        }
    }
}

/// A parsed statement is shaped.
pub proof fn lemma_program_shaped(ts: Seq<Tok>)
    requires
        valid(ts),
    ensures
        match program(ts) {
            Ok(s) => shaped(s),
            Err(_) => true,
        },
{
    reveal(statement);
    if ts.len() > 0 {
        let r = ts.skip(1);
        yields_identifier(r);
        if at_keyword(ts, Keyword::Insert) {
            yields_insert(r);
        } else if at_keyword(ts, Keyword::Update) {
            yields_update(r);
        } else if at_keyword(ts, Keyword::Delete) {
            yields_delete(r);
        } else if at_keyword(ts, Keyword::Select) {
            yields_select(r);
        } else if at_keyword(ts, Keyword::Create) {
            yields_create_index(r);
        } else if at_keyword(ts, Keyword::Drop) {
            yields_drop_index(r);
        }
    }
}

} // verus!
