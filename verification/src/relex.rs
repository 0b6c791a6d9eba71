//! The canonical text of a statement has the canonical tokens.

use crate::ast::{CmpOp, DistanceOp, IndexMethod};
use crate::canon::{
    assign_texts, assign_toks_all, bare_text, bare_toks, column_toks, comma, comma_toks,
    comparison_text, comparison_toks, create_index_text, create_index_toks, delete_text,
    delete_toks, direction_keyword, distance_text, distance_toks, drop_index_text, drop_index_toks,
    expr_text, expr_texts, expr_toks, expr_toks_all, f32_text, f32_toks, field_text, field_toks,
    float_text, float_toks, insert_text, insert_toks, integer_text, join, keyword_toks, limit_text,
    limit_toks, literal_text, literal_texts, literal_toks, literal_toks_all, magnitude,
    method_text, metric_text, name_text, name_toks, order_by_text, order_by_toks, order_texts,
    order_toks_all, param_text, param_toks, precedence, pred_text, pred_texts, pred_toks,
    pred_toks_all, proj_text, proj_texts, proj_toks, proj_toks_all, query_text, query_toks,
    quoted_text, row_text, row_toks, sign_text, source_text, source_toks, space, spaced, stmt_text,
    stmt_toks, subscript_text, subscript_toks, symbol_toks, update_text, update_toks, where_text,
    where_toks, word_toks,
};
use crate::ieee::{
    binary32, binary64, is_negative32, is_negative64, magnitude32, magnitude64, Format,
};
use crate::keyword::{keyword_text, lemma_keyword_text, lemma_plain_words, Keyword};
use crate::lexer::{
    digit_run, in_word, is_space, lemma_digit_run, lemma_quoted_run, lemma_word_run, lex,
    number_at, prepend, quoted_run, token_at, word_run, Symbol, Tok,
};
use crate::shape::{
    finite, finite_expr, finite_literal, finite_pred, is_identifier, is_quotable, is_word, shaped,
    shaped_assign, shaped_base, shaped_distance, shaped_expr, shaped_field, shaped_literal,
    shaped_order, shaped_param, shaped_pred, shaped_proj, shaped_query, shaped_source,
    shaped_subscript,
};
use crate::shortest::{
    lemma_magnitude_reads_back, magnitude_fraction, magnitude_text, magnitude_whole,
};
use crate::syntax::{
    Assign, Distance, Expr, Field, Literal, Order, Param, Pred, Proj, Query, Source, Stmt,
};
use crate::text::{all_digits, is_digit, lemma_numeral, numeral};
use vstd::prelude::*;

verus! {

/// Whether no token that ends before `c` could also contain `c`.
pub open spec fn breaks(c: char) -> bool {
    c == ' ' || c == '(' || c == ')' || c == ',' || c == '[' || c == ']'
}

/// Whether `rest` starts with a character that ends any token before it.
pub open spec fn clear(rest: Seq<char>) -> bool {
    rest.len() == 0 || breaks(rest[0])
}

/// Whether `a` has the tokens `ts` when a break follows it.
#[verifier::opaque]
pub open spec fn lexes(a: Seq<char>, ts: Seq<Tok>) -> bool {
    forall|rest: Seq<char>| clear(rest) ==> #[trigger] lex(a + rest) == prepend(ts, lex(rest))
}

/// Whether `a` has the tokens `ts` whatever follows it.
#[verifier::opaque]
pub open spec fn closed(a: Seq<char>, ts: Seq<Tok>) -> bool {
    forall|rest: Seq<char>| #[trigger] lex(a + rest) == prepend(ts, lex(rest))
}

proof fn closed_lexes(a: Seq<char>, ts: Seq<Tok>)
    requires
        closed(a, ts),
    ensures
        lexes(a, ts),
{
    reveal(closed);
    reveal(lexes);
}

proof fn lemma_prepend_prepend(a: Seq<Tok>, b: Seq<Tok>, r: Result<Seq<Tok>, nat>)
    ensures
        prepend(a, prepend(b, r)) == prepend(a + b, r),
{
    match r {
        Ok(ts) => {
            assert(a + (b + ts) =~= (a + b) + ts);
        },
        Err(_) => {},
    }
}

/// Nothing has no tokens.
proof fn nothing()
    ensures
        closed(Seq::empty(), Seq::empty()),
        lexes(Seq::empty(), Seq::empty()),
{
    reveal(closed);
    assert forall|rest: Seq<char>|
        #[trigger] lex(Seq::empty() + rest) == prepend(Seq::empty(), lex(rest)) by {
        assert(Seq::empty() + rest =~= rest);
        match lex(rest) {
            Ok(ts) => {
                assert(Seq::<Tok>::empty() + ts =~= ts);
            },
            Err(_) => {},
        }
    }
    closed_lexes(Seq::empty(), Seq::empty());
}

proof fn then_text(a: Seq<char>, ta: Seq<Tok>, b: Seq<char>, tb: Seq<Tok>)
    requires
        closed(a, ta),
        lexes(b, tb),
    ensures
        lexes(a + b, ta + tb),
{
    reveal(closed);
    reveal(lexes);
    assert forall|rest: Seq<char>| clear(rest) implies #[trigger] lex((a + b) + rest) == prepend(
        ta + tb,
        lex(rest),
    ) by {
        assert((a + b) + rest =~= a + (b + rest));
        lemma_prepend_prepend(ta, tb, lex(rest));
    }
}

proof fn then_space(a: Seq<char>, ta: Seq<Tok>)
    requires
        lexes(a, ta),
    ensures
        closed(a + space(), ta),
{
    reveal(closed);
    reveal(lexes);
    assert forall|rest: Seq<char>|
        #[trigger] lex((a + space()) + rest) == prepend(ta, lex(rest)) by {
        assert((a + space()) + rest =~= a + (space() + rest));
        assert((space() + rest).skip(1) =~= rest);
        assert(lex(space() + rest) == lex(rest));
    }
}

/// The mark that `c` stands for.
spec fn mark(c: char) -> Symbol {
    if c == '(' {
        Symbol::LeftParen
    } else if c == ')' {
        Symbol::RightParen
    } else if c == '[' {
        Symbol::LeftBracket
    } else if c == ']' {
        Symbol::RightBracket
    } else {
        Symbol::Comma
    }
}

proof fn then_mark(a: Seq<char>, ta: Seq<Tok>, c: char)
    requires
        lexes(a, ta),
        c == '(' || c == ')' || c == '[' || c == ']' || c == ',',
    ensures
        closed(a + seq![c], ta + symbol_toks(mark(c))),
{
    reveal(closed);
    reveal(lexes);
    let t = symbol_toks(mark(c));
    assert forall|rest: Seq<char>|
        #[trigger] lex((a + seq![c]) + rest) == prepend(ta + t, lex(rest)) by {
        let s = seq![c] + rest;
        assert((a + seq![c]) + rest =~= a + s);
        assert(s.skip(1) =~= rest);
        assert(token_at(s) == Some((Tok::Symbol(mark(c)), 1nat)));
        assert(lex(s) == prepend(t, lex(rest)));
        lemma_prepend_prepend(ta, t, lex(rest));
    }
}

proof fn then_keyword(a: Seq<char>, ta: Seq<Tok>, k: Keyword)
    requires
        lexes(a, ta),
    ensures
        closed(a + spaced(k), ta + keyword_toks(k)),
{
    then_space(a, ta);
    lexes_keyword(k);
    then_text(a + space(), ta, keyword_text(k), keyword_toks(k));
    then_space(a + space() + keyword_text(k), ta + keyword_toks(k));
    assert(a + space() + keyword_text(k) + space() =~= a + spaced(k));
}

/// A text that is one token whatever break follows it.
proof fn lexes_token(a: Seq<char>, t: Tok)
    requires
        a.len() > 0,
        !is_space(a[0]),
        forall|rest: Seq<char>|
            clear(rest) ==> #[trigger] token_at(a + rest) == Some((t, a.len())),
    ensures
        lexes(a, seq![t]),
{
    reveal(lexes);
    assert forall|rest: Seq<char>| clear(rest) implies #[trigger] lex(a + rest) == prepend(
        seq![t],
        lex(rest),
    ) by {
        let s = a + rest;
        assert(s[0] == a[0]);
        assert(token_at(s) == Some((t, a.len())));
        assert(s.skip(a.len() as int) =~= rest);
    }
}

proof fn lemma_word_run_is(s: Seq<char>, n: nat)
    requires
        n <= s.len(),
        forall|i: int| 0 <= i < n ==> in_word(#[trigger] s[i]),
        n < s.len() ==> !in_word(s[n as int]),
    ensures
        word_run(s) == n,
{
    lemma_word_run(s);
}

proof fn lemma_digit_run_is(s: Seq<char>, n: nat)
    requires
        n <= s.len(),
        forall|i: int| 0 <= i < n ==> is_digit(#[trigger] s[i]),
        n < s.len() ==> !is_digit(s[n as int]),
    ensures
        digit_run(s) == n,
{
    lemma_digit_run(s);
}

proof fn lemma_quoted_run_is(s: Seq<char>, n: nat)
    requires
        n < s.len(),
        forall|i: int| 0 <= i < n ==> #[trigger] s[i] != '\'',
        s[n as int] == '\'',
    ensures
        quoted_run(s) == n,
{
    lemma_quoted_run(s);
}

proof fn lemma_word_prefix(w: Seq<char>, rest: Seq<char>)
    requires
        is_word(w),
        clear(rest),
    ensures
        word_run(w + rest) == w.len(),
        (w + rest).take(w.len() as int) == w,
{
    let s = w + rest;
    assert forall|i: int| 0 <= i < w.len() implies in_word(#[trigger] s[i]) by {
        assert(s[i] == w[i]);
    }
    if w.len() < s.len() {
        assert(s[w.len() as int] == rest[0]);
    }
    lemma_word_run_is(s, w.len());
    assert(s.take(w.len() as int) =~= w);
}

proof fn lexes_word(w: Seq<char>)
    requires
        is_identifier(w),
    ensures
        lexes(w, word_toks(w)),
{
    assert forall|rest: Seq<char>| clear(rest) implies #[trigger] token_at(w + rest) == Some(
        (Tok::Ident(w), w.len()),
    ) by {
        lemma_word_prefix(w, rest);
        assert((w + rest)[0] == w[0]);
    }
    lexes_token(w, Tok::Ident(w));
}

proof fn lemma_keyword_is_word(k: Keyword)
    ensures
        is_word(keyword_text(k)),
{
    reveal_strlit("SELECT");
    reveal_strlit("FROM");
    reveal_strlit("WHERE");
    reveal_strlit("ORDER");
    reveal_strlit("BY");
    reveal_strlit("LIMIT");
    reveal_strlit("ASC");
    reveal_strlit("DESC");
    reveal_strlit("INSERT");
    reveal_strlit("INTO");
    reveal_strlit("VALUES");
    reveal_strlit("UPDATE");
    reveal_strlit("SET");
    reveal_strlit("DELETE");
    reveal_strlit("VACUUM");
    reveal_strlit("CHECKPOINT");
    reveal_strlit("CREATE");
    reveal_strlit("DROP");
    reveal_strlit("INDEX");
    reveal_strlit("ON");
    reveal_strlit("USING");
    reveal_strlit("AND");
    reveal_strlit("OR");
    reveal_strlit("NOT");
    reveal_strlit("IN");
    reveal_strlit("BETWEEN");
    reveal_strlit("IS");
    reveal_strlit("NULL");
    reveal_strlit("TRUE");
    reveal_strlit("FALSE");
    reveal_strlit("AS");
}

proof fn lexes_keyword(k: Keyword)
    ensures
        lexes(keyword_text(k), keyword_toks(k)),
{
    let w = keyword_text(k);
    lemma_keyword_is_word(k);
    lemma_keyword_text(k);
    assert forall|rest: Seq<char>| clear(rest) implies #[trigger] token_at(w + rest) == Some(
        (Tok::Keyword(k), w.len()),
    ) by {
        lemma_word_prefix(w, rest);
        assert((w + rest)[0] == w[0]);
    }
    lexes_token(w, Tok::Keyword(k));
}

proof fn lexes_quoted(s: Seq<char>)
    requires
        is_quotable(s),
    ensures
        lexes(quoted_text(s), seq![Tok::Quoted(s)]),
{
    let q = quoted_text(s);
    assert forall|rest: Seq<char>| clear(rest) implies #[trigger] token_at(q + rest) == Some(
        (Tok::Quoted(s), q.len()),
    ) by {
        let t = (q + rest).skip(1);
        assert((q + rest)[0] == '\'');
        assert forall|i: int| 0 <= i < s.len() implies #[trigger] t[i] != '\'' by {
            assert(t[i] == s[i]);
        }
        assert(t[s.len() as int] == '\'');
        lemma_quoted_run_is(t, s.len());
        assert(t.take(s.len() as int) =~= s);
    }
    lexes_token(q, Tok::Quoted(s));
}

proof fn lemma_digits_prefix(ds: Seq<char>, rest: Seq<char>)
    requires
        all_digits(ds),
        rest.len() == 0 || !is_digit(rest[0]),
    ensures
        digit_run(ds + rest) == ds.len(),
        (ds + rest).take(ds.len() as int) == ds,
        (ds + rest).skip(ds.len() as int) == rest,
{
    let s = ds + rest;
    assert forall|i: int| 0 <= i < ds.len() implies is_digit(#[trigger] s[i]) by {
        assert(s[i] == ds[i]);
    }
    if ds.len() < s.len() {
        assert(s[ds.len() as int] == rest[0]);
    }
    lemma_digit_run_is(s, ds.len());
    assert(s.take(ds.len() as int) =~= ds);
    assert(s.skip(ds.len() as int) =~= rest);
}

proof fn lexes_param(p: Param)
    requires
        shaped_param(p),
    ensures
        lexes(param_text(p), param_toks(p)),
{
    match p {
        Param::Positional(n) => {
            let ds = numeral(n as nat);
            lemma_numeral(n as nat);
            let a = seq!['$'] + ds;
            assert forall|rest: Seq<char>| clear(rest) implies #[trigger] token_at(a + rest)
                == Some((Tok::Ordinal(ds), a.len())) by {
                assert((a + rest).skip(1) =~= ds + rest);
                assert((ds + rest)[0] == ds[0]);
                lemma_digits_prefix(ds, rest);
            }
            lexes_token(a, Tok::Ordinal(ds));
        },
        Param::Named(w) => {
            let a = seq!['$'] + w;
            assert forall|rest: Seq<char>| clear(rest) implies #[trigger] token_at(a + rest)
                == Some((Tok::Name(w), a.len())) by {
                assert((a + rest).skip(1) =~= w + rest);
                assert((w + rest)[0] == w[0]);
                lemma_word_prefix(w, rest);
            }
            lexes_token(a, Tok::Name(w));
        },
    }
}

proof fn lemma_integer_at(ds: Seq<char>, neg: bool, rest: Seq<char>)
    requires
        all_digits(ds),
        ds.len() > 0,
        clear(rest),
    ensures
        number_at(ds + rest, neg) == (Tok::Number(neg, ds, None), ds.len()),
{
    lemma_digits_prefix(ds, rest);
}

proof fn lemma_decimal_at(whole: Seq<char>, frac: Seq<char>, neg: bool, rest: Seq<char>)
    requires
        all_digits(whole),
        all_digits(frac),
        whole.len() > 0,
        frac.len() > 0,
        clear(rest),
    ensures
        number_at(whole + seq!['.'] + frac + rest, neg) == (
            Tok::Number(neg, whole, Some(frac)),
            whole.len() + 1 + frac.len(),
        ),
{
    let behind = seq!['.'] + frac + rest;
    assert(whole + seq!['.'] + frac + rest =~= whole + behind);
    lemma_digits_prefix(whole, behind);
    assert(behind.skip(1) =~= frac + rest);
    assert(behind[1] == frac[0]);
    lemma_digits_prefix(frac, rest);
}

/// A number: an optional sign and the digits `ds`, which lex as `t`.
proof fn lexes_signed(ds: Seq<char>, neg: bool, t: Tok)
    requires
        ds.len() > 0,
        is_digit(ds[0]),
        forall|rest: Seq<char>|
            clear(rest) ==> #[trigger] number_at(ds + rest, neg) == (t, ds.len()),
    ensures
        lexes(sign_text(neg) + ds, seq![t]),
{
    let a = sign_text(neg) + ds;
    assert forall|rest: Seq<char>| clear(rest) implies #[trigger] token_at(a + rest) == Some(
        (t, a.len()),
    ) by {
        let s = a + rest;
        assert(number_at(ds + rest, neg) == (t, ds.len()));
        if neg {
            assert(s[0] == '-');
            assert(s.skip(1) =~= ds + rest);
            assert(s[1] == ds[0]);
        } else {
            assert(s =~= ds + rest);
            assert(s[0] == ds[0]);
        }
    }
    lexes_token(a, t);
}

proof fn lexes_integer(n: int)
    ensures
        lexes(integer_text(n), seq![Tok::Number(n < 0, numeral(magnitude(n)), None)]),
{
    let ds = numeral(magnitude(n));
    lemma_numeral(magnitude(n));
    assert(is_digit(ds[0]));
    let neg = n < 0;
    let t = Tok::Number(neg, ds, None);
    assert forall|rest: Seq<char>| clear(rest) implies #[trigger] number_at(ds + rest, neg) == (
        t,
        ds.len(),
    ) by {
        lemma_integer_at(ds, neg, rest);
    }
    lexes_signed(ds, neg, t);
}

proof fn lexes_float(f: Format, neg: bool, m: nat)
    requires
        f.wf(),
        m < f.inf,
    ensures
        lexes(float_text(f, neg, m), float_toks(f, neg, m)),
{
    let w = magnitude_whole(f, m);
    let r = magnitude_fraction(f, m);
    lemma_magnitude_reads_back(f, m);
    let ds = magnitude_text(f, m);
    let t = Tok::Number(neg, w, Some(r));
    assert(ds[0] == w[0] && is_digit(w[0]));
    assert forall|rest: Seq<char>| clear(rest) implies #[trigger] number_at(ds + rest, neg) == (
        t,
        ds.len(),
    ) by {
        lemma_decimal_at(w, r, neg, rest);
    }
    lexes_signed(ds, neg, t);
}

proof fn lexes_literal(l: Literal)
    requires
        shaped_literal(l),
        finite_literal(l),
    ensures
        lexes(literal_text(l), literal_toks(l)),
{
    match l {
        Literal::Str(s) => lexes_quoted(s),
        Literal::I64(n) => lexes_integer(n as int),
        Literal::F64(b) => lexes_float(
            binary64(),
            is_negative64(b),
            magnitude64(b),
        ),
        Literal::Bool(true) => lexes_keyword(Keyword::True),
        Literal::Bool(false) => lexes_keyword(Keyword::False),
        Literal::Null => lexes_keyword(Keyword::Null),
    }
}

proof fn lexes_expr(e: Expr)
    requires
        shaped_expr(e),
        finite_expr(e),
    ensures
        lexes(expr_text(e), expr_toks(e)),
{
    match e {
        Expr::Param(p) => lexes_param(p),
        Expr::Literal(l) => lexes_literal(l),
    }
}

proof fn lexes_comparison(op: CmpOp)
    ensures
        lexes(comparison_text(op), comparison_toks(op)),
{
    reveal_strlit("=");
    reveal_strlit("<");
    reveal_strlit("<=");
    reveal_strlit(">");
    reveal_strlit(">=");
    reveal_strlit("!=");
    let a = comparison_text(op);
    assert forall|rest: Seq<char>| clear(rest) implies #[trigger] token_at(a + rest) == Some(
        (Tok::Cmp(op), a.len()),
    ) by {
        let s = a + rest;
        assert(s[0] == a[0]);
        if a.len() > 1 {
            assert(s[1] == a[1]);
        } else if s.len() > 1 {
            assert(s[1] == rest[0]);
        }
        if a.len() == 2 && s.len() > 2 {
            assert(s[2] == rest[0]);
        }
    }
    lexes_token(a, Tok::Cmp(op));
}

proof fn lexes_metric(op: DistanceOp)
    ensures
        lexes(metric_text(op), seq![Tok::Metric(op)]),
{
    reveal_strlit("<->");
    reveal_strlit("<=>");
    reveal_strlit("<#>");
    let a = metric_text(op);
    assert forall|rest: Seq<char>| clear(rest) implies #[trigger] token_at(a + rest) == Some(
        (Tok::Metric(op), a.len()),
    ) by {
        let s = a + rest;
        assert(s[0] == a[0] && s[1] == a[1] && s[2] == a[2]);
    }
    lexes_token(a, Tok::Metric(op));
}

proof fn lexes_contains()
    ensures
        lexes("@>"@, symbol_toks(Symbol::Contains)),
{
    reveal_strlit("@>");
    let a = "@>"@;
    assert forall|rest: Seq<char>| clear(rest) implies #[trigger] token_at(a + rest) == Some(
        (Tok::Symbol(Symbol::Contains), a.len()),
    ) by {
        let s = a + rest;
        assert(s[0] == a[0] && s[1] == a[1]);
    }
    lexes_token(a, Tok::Symbol(Symbol::Contains));
}

proof fn lexes_star()
    ensures
        lexes("*"@, symbol_toks(Symbol::Star)),
{
    reveal_strlit("*");
    let a = "*"@;
    assert forall|rest: Seq<char>| clear(rest) implies #[trigger] token_at(a + rest) == Some(
        (Tok::Symbol(Symbol::Star), a.len()),
    ) by {
        assert((a + rest)[0] == a[0]);
    }
    lexes_token(a, Tok::Symbol(Symbol::Star));
}

// ----- Lists -----

/// Whether each of `xs` has the tokens in `ts`.
spec fn lex_each(xs: Seq<Seq<char>>, ts: Seq<Seq<Tok>>) -> bool {
    xs.len() == ts.len() && forall|i: int| 0 <= i < xs.len() ==> lexes(#[trigger] xs[i], ts[i])
}

proof fn lemma_lex_each_skip(xs: Seq<Seq<char>>, ts: Seq<Seq<Tok>>)
    requires
        lex_each(xs, ts),
        xs.len() > 0,
    ensures
        lex_each(xs.skip(1), ts.skip(1)),
        lexes(xs[0], ts[0]),
{
    assert forall|i: int| 0 <= i < xs.skip(1).len() implies lexes(
        #[trigger] xs.skip(1)[i],
        ts.skip(1)[i],
    ) by {
        assert(lexes(xs[i + 1], ts[i + 1]));
    }
}

proof fn lexes_commas(xs: Seq<Seq<char>>, ts: Seq<Seq<Tok>>)
    requires
        lex_each(xs, ts),
    ensures
        lexes(join(xs, comma()), join(ts, comma_toks())),
    decreases xs.len(),
{
    if xs.len() == 0 {
        nothing();
        assert(join(xs, comma()) =~= Seq::empty());
        assert(join(ts, comma_toks()) =~= Seq::empty());
    } else {
        lemma_lex_each_skip(xs, ts);
        if xs.len() > 1 {
            lexes_commas(xs.skip(1), ts.skip(1));
            then_mark(xs[0], ts[0], ',');
            closed_lexes(xs[0] + seq![','], ts[0] + comma_toks());
            then_space(xs[0] + seq![','], ts[0] + comma_toks());
            assert(xs[0] + seq![','] + space() =~= xs[0] + comma());
            then_text(
                xs[0] + comma(),
                ts[0] + comma_toks(),
                join(xs.skip(1), comma()),
                join(ts.skip(1), comma_toks()),
            );
        }
    }
}

proof fn lexes_chain(xs: Seq<Seq<char>>, ts: Seq<Seq<Tok>>, k: Keyword)
    requires
        lex_each(xs, ts),
    ensures
        lexes(join(xs, spaced(k)), join(ts, keyword_toks(k))),
    decreases xs.len(),
{
    if xs.len() == 0 {
        nothing();
        assert(join(xs, spaced(k)) =~= Seq::empty());
        assert(join(ts, keyword_toks(k)) =~= Seq::empty());
    } else {
        lemma_lex_each_skip(xs, ts);
        if xs.len() > 1 {
            lexes_chain(xs.skip(1), ts.skip(1), k);
            then_keyword(xs[0], ts[0], k);
            then_text(
                xs[0] + spaced(k),
                ts[0] + keyword_toks(k),
                join(xs.skip(1), spaced(k)),
                join(ts.skip(1), keyword_toks(k)),
            );
        }
    }
}

// ----- Predicates -----

/// Two texts with a space in between.
proof fn lexes_pair(a: Seq<char>, ta: Seq<Tok>, b: Seq<char>, tb: Seq<Tok>)
    requires
        lexes(a, ta),
        lexes(b, tb),
    ensures
        lexes(a + space() + b, ta + tb),
{
    then_space(a, ta);
    then_text(a + space(), ta, b, tb);
}

/// Two texts with a keyword in between.
proof fn lexes_joint(a: Seq<char>, ta: Seq<Tok>, k: Keyword, b: Seq<char>, tb: Seq<Tok>)
    requires
        lexes(a, ta),
        lexes(b, tb),
    ensures
        lexes(a + spaced(k) + b, ta + keyword_toks(k) + tb),
{
    then_keyword(a, ta, k);
    then_text(a + spaced(k), ta + keyword_toks(k), b, tb);
}

/// `b` in parentheses behind `a`.
proof fn lexes_parens(a: Seq<char>, ta: Seq<Tok>, b: Seq<char>, tb: Seq<Tok>)
    requires
        lexes(a, ta),
        lexes(b, tb),
    ensures
        lexes(
            a + seq!['('] + b + seq![')'],
            ta + symbol_toks(Symbol::LeftParen) + tb + symbol_toks(Symbol::RightParen),
        ),
{
    then_mark(a, ta, '(');
    let x = a + seq!['('];
    let tx = ta + symbol_toks(Symbol::LeftParen);
    then_text(x, tx, b, tb);
    then_mark(x + b, tx + tb, ')');
    closed_lexes(x + b + seq![')'], tx + tb + symbol_toks(Symbol::RightParen));
}

proof fn lemma_embedding()
    ensures
        is_identifier("embedding"@),
{
    reveal_strlit("embedding");
    lemma_plain_words();
}

proof fn lexes_distance(d: Distance)
    requires
        shaped_distance(d),
    ensures
        lexes(distance_text(d), distance_toks(d)),
{
    lemma_embedding();
    lexes_word("embedding"@);
    lexes_metric(d.metric);
    lexes_param(d.param);
    let a = "embedding"@;
    let ta = word_toks(a);
    let b = metric_text(d.metric);
    let tb = seq![Tok::Metric(d.metric)];
    lexes_pair(a, ta, b, tb);
    lexes_pair(a + space() + b, ta + tb, param_text(d.param), param_toks(d.param));
}

proof fn lexes_subscript(name: Seq<char>, subscript: Option<Seq<char>>)
    requires
        shaped_subscript(name, subscript),
    ensures
        lexes(subscript_text(name, subscript), subscript_toks(name, subscript)),
{
    lexes_word(name);
    match subscript {
        Some(key) => {
            lexes_quoted(key);
            let a = name + seq!['['];
            let ta = word_toks(name) + symbol_toks(Symbol::LeftBracket);
            then_mark(name, word_toks(name), '[');
            then_text(a, ta, quoted_text(key), seq![Tok::Quoted(key)]);
            let b = a + quoted_text(key);
            let tb = ta + seq![Tok::Quoted(key)];
            then_mark(b, tb, ']');
            closed_lexes(b + seq![']'], tb + symbol_toks(Symbol::RightBracket));
        },
        None => {},
    }
}

proof fn lexes_literals(ls: Seq<Literal>)
    requires
        forall|i: int|
            0 <= i < ls.len() ==> shaped_literal(#[trigger] ls[i]) && finite_literal(ls[i]),
    ensures
        lexes(join(literal_texts(ls), comma()), join(literal_toks_all(ls), comma_toks())),
{
    let xs = literal_texts(ls);
    let ts = literal_toks_all(ls);
    assert forall|i: int| 0 <= i < xs.len() implies lexes(#[trigger] xs[i], ts[i]) by {
        lexes_literal(ls[i]);
    }
    lexes_commas(xs, ts);
}

proof fn lexes_pred(p: Pred, outer: int)
    requires
        shaped_pred(p),
        finite_pred(p),
    ensures
        lexes(pred_text(p, outer), pred_toks(p, outer)),
    decreases p, 1int,
{
    lexes_bare(p);
    if precedence(p) < outer {
        nothing();
        let b = bare_text(p);
        lexes_parens(Seq::empty(), Seq::empty(), b, bare_toks(p));
        assert(Seq::empty() + seq!['('] + b + seq![')'] =~= pred_text(p, outer));
        assert(Seq::empty() + symbol_toks(Symbol::LeftParen) + bare_toks(p) + symbol_toks(
            Symbol::RightParen,
        ) =~= pred_toks(p, outer));
    }
}

proof fn lexes_terms(ps: Seq<Pred>, outer: int, k: Keyword)
    requires
        forall|i: int| 0 <= i < ps.len() ==> shaped_pred(#[trigger] ps[i]) && finite_pred(ps[i]),
    ensures
        lexes(join(pred_texts(ps, outer), spaced(k)), join(pred_toks_all(ps, outer), keyword_toks(k))),
    decreases ps, 2int,
{
    let xs = pred_texts(ps, outer);
    let ts = pred_toks_all(ps, outer);
    assert forall|i: int| 0 <= i < xs.len() implies lexes(#[trigger] xs[i], ts[i]) by {
        assert(shaped_pred(ps[i]) && finite_pred(ps[i]));
        lexes_pred(ps[i], outer);
    }
    lexes_chain(xs, ts, k);
}

proof fn lexes_atom(f: Field, op: CmpOp, b: Seq<char>, tb: Seq<Tok>)
    requires
        shaped_field(f),
        lexes(b, tb),
    ensures
        lexes(
            field_text(f) + space() + comparison_text(op) + space() + b,
            field_toks(f) + comparison_toks(op) + tb,
        ),
{
    lexes_subscript(f.name, f.subscript);
    lexes_comparison(op);
    lexes_pair(field_text(f), field_toks(f), comparison_text(op), comparison_toks(op));
    lexes_pair(
        field_text(f) + space() + comparison_text(op),
        field_toks(f) + comparison_toks(op),
        b,
        tb,
    );
}

proof fn lexes_in(f: Field, ls: Seq<Literal>)
    requires
        shaped_pred(Pred::In(f, ls)),
        finite_pred(Pred::In(f, ls)),
    ensures
        lexes(bare_text(Pred::In(f, ls)), bare_toks(Pred::In(f, ls))),
{
    lexes_subscript(f.name, f.subscript);
    lexes_literals(ls);
    then_keyword(field_text(f), field_toks(f), Keyword::In);
    let a = field_text(f) + spaced(Keyword::In);
    let ta = field_toks(f) + keyword_toks(Keyword::In);
    closed_lexes(a, ta);
    lexes_parens(
        a,
        ta,
        join(literal_texts(ls), comma()),
        join(literal_toks_all(ls), comma_toks()),
    );
}

proof fn lexes_between(f: Field, lo: Literal, hi: Literal)
    requires
        shaped_field(f),
        shaped_literal(lo),
        shaped_literal(hi),
        finite_literal(lo),
        finite_literal(hi),
    ensures
        lexes(bare_text(Pred::Between(f, lo, hi)), bare_toks(Pred::Between(f, lo, hi))),
{
    lexes_subscript(f.name, f.subscript);
    lexes_literal(lo);
    lexes_literal(hi);
    lexes_joint(field_text(f), field_toks(f), Keyword::Between, literal_text(lo), literal_toks(lo));
    lexes_joint(
        field_text(f) + spaced(Keyword::Between) + literal_text(lo),
        field_toks(f) + keyword_toks(Keyword::Between) + literal_toks(lo),
        Keyword::And,
        literal_text(hi),
        literal_toks(hi),
    );
}

proof fn lexes_is_null(f: Field, negated: bool)
    requires
        shaped_field(f),
    ensures
        lexes(bare_text(Pred::IsNull(f, negated)), bare_toks(Pred::IsNull(f, negated))),
{
    lexes_subscript(f.name, f.subscript);
    lexes_keyword(Keyword::Null);
    lexes_keyword(Keyword::Not);
    let a = field_text(f);
    let ta = field_toks(f);
    if negated {
        lexes_joint(a, ta, Keyword::Is, keyword_text(Keyword::Not), keyword_toks(Keyword::Not));
        lexes_pair(
            a + spaced(Keyword::Is) + keyword_text(Keyword::Not),
            ta + keyword_toks(Keyword::Is) + keyword_toks(Keyword::Not),
            keyword_text(Keyword::Null),
            keyword_toks(Keyword::Null),
        );
    } else {
        lexes_joint(a, ta, Keyword::Is, keyword_text(Keyword::Null), keyword_toks(Keyword::Null));
    }
}

proof fn lexes_threshold(d: Distance, op: CmpOp, radius: u32)
    requires
        shaped_distance(d),
        magnitude32(radius) < binary32().inf,
    ensures
        lexes(
            distance_text(d) + space() + comparison_text(op) + space() + f32_text(radius),
            distance_toks(d) + comparison_toks(op) + f32_toks(radius),
        ),
{
    lexes_distance(d);
    lexes_comparison(op);
    lexes_float(
        binary32(),
        is_negative32(radius),
        magnitude32(radius),
    );
    lexes_pair(distance_text(d), distance_toks(d), comparison_text(op), comparison_toks(op));
    lexes_pair(
        distance_text(d) + space() + comparison_text(op),
        distance_toks(d) + comparison_toks(op),
        f32_text(radius),
        f32_toks(radius),
    );
}

proof fn lexes_bare(p: Pred)
    requires
        shaped_pred(p),
        finite_pred(p),
    ensures
        lexes(bare_text(p), bare_toks(p)),
    decreases p, 0int,
{
    match p {
        Pred::Or(ps) => lexes_terms(ps, 0, Keyword::Or),
        Pred::And(ps) => lexes_terms(ps, 1, Keyword::And),
        Pred::Not(q) => {
            lexes_pred(*q, 2);
            lexes_keyword(Keyword::Not);
            lexes_pair(
                keyword_text(Keyword::Not),
                keyword_toks(Keyword::Not),
                pred_text(*q, 2),
                pred_toks(*q, 2),
            );
        },
        Pred::Eq(f, v) => {
            lexes_expr(v);
            lexes_atom(f, CmpOp::Eq, expr_text(v), expr_toks(v));
        },
        Pred::Cmp(f, op, v) => {
            lexes_expr(v);
            lexes_atom(f, op, expr_text(v), expr_toks(v));
        },
        Pred::In(f, ls) => lexes_in(f, ls),
        Pred::Between(f, lo, hi) => lexes_between(f, lo, hi),
        Pred::IsNull(f, negated) => lexes_is_null(f, negated),
        Pred::ArrayContains(f, l) => {
            lexes_subscript(f.name, f.subscript);
            lexes_contains();
            lexes_literal(l);
            lexes_pair(field_text(f), field_toks(f), "@>"@, symbol_toks(Symbol::Contains));
            lexes_pair(
                field_text(f) + space() + "@>"@,
                field_toks(f) + symbol_toks(Symbol::Contains),
                literal_text(l),
                literal_toks(l),
            );
        },
        Pred::DistanceThreshold(d, op, radius) => lexes_threshold(d, op, radius),
    }
}

// ----- Statements -----

proof fn lexes_base(p: Proj)
    requires
        shaped_base(p),
    ensures
        lexes(proj_text(p), proj_toks(p)),
{
    lemma_plain_words();
    match p {
        Proj::CountStar => {
            reveal_strlit("COUNT");
            reveal_strlit("COUNT(*)");
            reveal_strlit("*");
            lexes_word("COUNT"@);
            lexes_star();
            lexes_parens("COUNT"@, word_toks("COUNT"@), "*"@, symbol_toks(Symbol::Star));
            assert("COUNT"@ + seq!['('] + "*"@ + seq![')'] =~= "COUNT(*)"@);
        },
        Proj::Id => {
            reveal_strlit("id");
            lexes_word("id"@);
        },
        Proj::Metadata => {
            reveal_strlit("metadata");
            lexes_word("metadata"@);
        },
        Proj::DistanceExpr(d) => lexes_distance(d),
        Proj::Field(name) => lexes_word(name),
        _ => {},
    }
}

proof fn lexes_proj(p: Proj)
    requires
        shaped_proj(p),
    ensures
        lexes(proj_text(p), proj_toks(p)),
{
    match p {
        Proj::Aliased(inner, alias) => {
            lexes_base(*inner);
            lexes_word(alias);
            lexes_joint(
                proj_text(*inner),
                proj_toks(*inner),
                Keyword::As,
                alias,
                word_toks(alias),
            );
        },
        _ => lexes_base(p),
    }
}

proof fn lexes_projection(ps: Seq<Proj>)
    requires
        crate::shape::shaped_projection(ps),
    ensures
        lexes(join(proj_texts(ps), comma()), join(proj_toks_all(ps), comma_toks())),
{
    let xs = proj_texts(ps);
    let ts = proj_toks_all(ps);
    assert forall|i: int| 0 <= i < xs.len() implies lexes(#[trigger] xs[i], ts[i]) by {
        if ps == seq![Proj::Wildcard] {
            lexes_star();
        } else {
            lexes_proj(ps[i]);
        }
    }
    lexes_commas(xs, ts);
}

proof fn lexes_orders(os: Seq<Order>)
    requires
        forall|i: int| 0 <= i < os.len() ==> shaped_order(#[trigger] os[i]),
    ensures
        lexes(join(order_texts(os), comma()), join(order_toks_all(os), comma_toks())),
{
    let xs = order_texts(os);
    let ts = order_toks_all(os);
    assert forall|i: int| 0 <= i < xs.len() implies lexes(#[trigger] xs[i], ts[i]) by {
        assert(shaped_order(os[i]));
        match os[i] {
            Order::Distance(d, dir) => {
                let k = direction_keyword(dir);
                lexes_distance(d);
                lexes_keyword(k);
                lexes_pair(distance_text(d), distance_toks(d), keyword_text(k), keyword_toks(k));
            },
            Order::Field(name, dir) => {
                let k = direction_keyword(dir);
                lexes_word(name);
                lexes_keyword(k);
                lexes_pair(name, word_toks(name), keyword_text(k), keyword_toks(k));
            },
        }
    }
    lexes_commas(xs, ts);
}

proof fn lexes_where(a: Seq<char>, ta: Seq<Tok>, p: Option<Pred>)
    requires
        lexes(a, ta),
        p matches Some(q) ==> shaped_pred(q) && finite_pred(q),
    ensures
        lexes(a + where_text(p), ta + where_toks(p)),
{
    match p {
        Some(q) => {
            lexes_pred(q, 0);
            lexes_joint(a, ta, Keyword::Where, pred_text(q, 0), pred_toks(q, 0));
            assert(a + spaced(Keyword::Where) + pred_text(q, 0) =~= a + where_text(p));
            assert(ta + keyword_toks(Keyword::Where) + pred_toks(q, 0) =~= ta + where_toks(p));
        },
        None => {
            assert(a + where_text(p) =~= a);
            assert(ta + where_toks(p) =~= ta);
        },
    }
}

proof fn lexes_order_by(a: Seq<char>, ta: Seq<Tok>, os: Seq<Order>)
    requires
        lexes(a, ta),
        forall|i: int| 0 <= i < os.len() ==> shaped_order(#[trigger] os[i]),
    ensures
        lexes(a + order_by_text(os), ta + order_by_toks(os)),
{
    if os.len() == 0 {
        assert(a + order_by_text(os) =~= a);
        assert(ta + order_by_toks(os) =~= ta);
    } else {
        let by = keyword_text(Keyword::By);
        let tby = keyword_toks(Keyword::By);
        let l = join(order_texts(os), comma());
        let tl = join(order_toks_all(os), comma_toks());
        lexes_orders(os);
        lexes_keyword(Keyword::By);
        lexes_joint(a, ta, Keyword::Order, by, tby);
        lexes_pair(
            a + spaced(Keyword::Order) + by,
            ta + keyword_toks(Keyword::Order) + tby,
            l,
            tl,
        );
        assert(a + spaced(Keyword::Order) + by + space() + l =~= a + order_by_text(os));
        assert(ta + keyword_toks(Keyword::Order) + tby + tl =~= ta + order_by_toks(os));
    }
}

proof fn lexes_limit(a: Seq<char>, ta: Seq<Tok>, n: Option<u64>)
    requires
        lexes(a, ta),
    ensures
        lexes(a + limit_text(n), ta + limit_toks(n)),
{
    match n {
        Some(k) => {
            lexes_integer(k as int);
            assert(integer_text(k as int) =~= numeral(k as nat));
            let b = numeral(k as nat);
            let tb = seq![Tok::Number(false, numeral(k as nat), None)];
            lexes_joint(a, ta, Keyword::Limit, b, tb);
            assert(a + spaced(Keyword::Limit) + b =~= a + limit_text(n));
            assert(ta + keyword_toks(Keyword::Limit) + tb =~= ta + limit_toks(n));
        },
        None => {
            assert(a + limit_text(n) =~= a);
            assert(ta + limit_toks(n) =~= ta);
        },
    }
}

proof fn lexes_query(q: Query)
    requires
        shaped_query(q),
        finite(Stmt::Select(q)),
    ensures
        lexes(query_text(q), query_toks(q)),
{
    let s = keyword_text(Keyword::Select);
    let ts = keyword_toks(Keyword::Select);
    let l = join(proj_texts(q.projection), comma());
    let tl = join(proj_toks_all(q.projection), comma_toks());
    lexes_keyword(Keyword::Select);
    lexes_projection(q.projection);
    lexes_word(q.from_table);
    lexes_pair(s, ts, l, tl);
    lexes_joint(s + space() + l, ts + tl, Keyword::From, q.from_table, word_toks(q.from_table));
    let a = s + space() + l + spaced(Keyword::From) + q.from_table;
    let ta = ts + tl + keyword_toks(Keyword::From) + word_toks(q.from_table);
    lexes_where(a, ta, q.predicate);
    let b = a + where_text(q.predicate);
    let tb = ta + where_toks(q.predicate);
    lexes_order_by(b, tb, q.order_by);
    lexes_limit(b + order_by_text(q.order_by), tb + order_by_toks(q.order_by), q.limit);
}

proof fn lexes_source(src: Source)
    requires
        shaped_source(src),
    ensures
        lexes(source_text(src), source_toks(src)),
{
    match src {
        Source::Rows(rows) => {
            let es = rows[0];
            let xs = expr_texts(es);
            let ts = expr_toks_all(es);
            assert forall|i: int| 0 <= i < xs.len() implies lexes(#[trigger] xs[i], ts[i]) by {
                assert(crate::shape::is_param_expr(es[i]));
                lexes_expr(es[i]);
            }
            lexes_commas(xs, ts);
            nothing();
            let l = join(xs, comma());
            let tl = join(ts, comma_toks());
            lexes_parens(Seq::empty(), Seq::empty(), l, tl);
            assert(Seq::empty() + seq!['('] + l + seq![')'] =~= row_text(es));
            assert(Seq::empty() + symbol_toks(Symbol::LeftParen) + tl + symbol_toks(
                Symbol::RightParen,
            ) =~= row_toks(es));
            assert(source_text(src) == row_text(es));
            assert(source_toks(src) == row_toks(es));
        },
        Source::Param(p) => lexes_param(p),
    }
}

proof fn lexes_insert(table: Seq<char>, columns: Seq<Seq<char>>, source: Source)
    requires
        shaped(Stmt::Insert { table, columns, source }),
    ensures
        lexes(insert_text(table, columns, source), insert_toks(table, columns, source)),
{
    lexes_keyword(Keyword::Insert);
    lexes_word(table);
    let a = keyword_text(Keyword::Insert);
    let ta = keyword_toks(Keyword::Insert);
    lexes_joint(a, ta, Keyword::Into, table, word_toks(table));
    let b = a + spaced(Keyword::Into) + table;
    let tb = ta + keyword_toks(Keyword::Into) + word_toks(table);
    then_space(b, tb);
    closed_lexes(b + space(), tb);
    let ts = column_toks(columns);
    assert forall|i: int| 0 <= i < columns.len() implies lexes(#[trigger] columns[i], ts[i]) by {
        lexes_word(columns[i]);
    }
    lexes_commas(columns, ts);
    let l = join(columns, comma());
    let tl = join(ts, comma_toks());
    lexes_parens(b + space(), tb, l, tl);
    lexes_source(source);
    lexes_joint(
        b + space() + seq!['('] + l + seq![')'],
        tb + symbol_toks(Symbol::LeftParen) + tl + symbol_toks(Symbol::RightParen),
        Keyword::Values,
        source_text(source),
        source_toks(source),
    );
}

proof fn lexes_update(table: Seq<char>, v: Seq<Assign>, p: Pred)
    requires
        shaped(Stmt::Update { table, assignments: v, predicate: p }),
        finite(Stmt::Update { table, assignments: v, predicate: p }),
    ensures
        lexes(update_text(table, v, p), update_toks(table, v, p)),
{
    lexes_keyword(Keyword::Update);
    lexes_word(table);
    let a = keyword_text(Keyword::Update);
    let ta = keyword_toks(Keyword::Update);
    lexes_pair(a, ta, table, word_toks(table));
    let b = a + space() + table;
    let tb = ta + word_toks(table);
    let xs = assign_texts(v);
    let ts = assign_toks_all(v);
    assert forall|i: int| 0 <= i < xs.len() implies lexes(#[trigger] xs[i], ts[i]) by {
        assert(shaped_assign(v[i]) && finite_expr(v[i].value));
        lexes_expr(v[i].value);
        lexes_atom(
            Field { name: v[i].field, subscript: v[i].subscript },
            CmpOp::Eq,
            expr_text(v[i].value),
            expr_toks(v[i].value),
        );
    }
    lexes_commas(xs, ts);
    let l = join(xs, comma());
    let tl = join(ts, comma_toks());
    lexes_joint(b, tb, Keyword::Assign, l, tl);
    lexes_pred(p, 0);
    lexes_joint(
        b + spaced(Keyword::Assign) + l,
        tb + keyword_toks(Keyword::Assign) + tl,
        Keyword::Where,
        pred_text(p, 0),
        pred_toks(p, 0),
    );
}

proof fn lexes_delete(table: Seq<char>, p: Pred)
    requires
        is_identifier(table),
        shaped_pred(p),
        finite_pred(p),
    ensures
        lexes(delete_text(table, p), delete_toks(table, p)),
{
    lexes_keyword(Keyword::Delete);
    lexes_word(table);
    lexes_pred(p, 0);
    let a = keyword_text(Keyword::Delete);
    let ta = keyword_toks(Keyword::Delete);
    lexes_joint(a, ta, Keyword::From, table, word_toks(table));
    lexes_joint(
        a + spaced(Keyword::From) + table,
        ta + keyword_toks(Keyword::From) + word_toks(table),
        Keyword::Where,
        pred_text(p, 0),
        pred_toks(p, 0),
    );
}

proof fn lemma_method_word(m: IndexMethod)
    ensures
        is_identifier(method_text(m)),
{
    lemma_plain_words();
    reveal_strlit("HASH");
    reveal_strlit("BTREE");
    reveal_strlit("INVERTED");
}

proof fn lexes_create_index(
    name: Option<Seq<char>>,
    table: Seq<char>,
    method: IndexMethod,
    field: Seq<char>,
)
    requires
        shaped(Stmt::CreateIndex { name, table, method, field }),
    ensures
        lexes(
            create_index_text(name, table, method, field),
            create_index_toks(name, table, method, field),
        ),
{
    lexes_keyword(Keyword::Create);
    lexes_keyword(Keyword::Index);
    lexes_word(table);
    lexes_word(field);
    lemma_method_word(method);
    lexes_word(method_text(method));
    let a = keyword_text(Keyword::Create);
    let ta = keyword_toks(Keyword::Create);
    let b = a + space() + keyword_text(Keyword::Index);
    let tb = ta + keyword_toks(Keyword::Index);
    lexes_pair(a, ta, keyword_text(Keyword::Index), keyword_toks(Keyword::Index));
    let c = b + name_text(name);
    let tc = tb + name_toks(name);
    assert(lexes(c, tc)) by {
        match name {
            Some(n) => {
                lexes_word(n);
                lexes_pair(b, tb, n, word_toks(n));
                assert(b + space() + n =~= c);
            },
            None => {
                assert(c =~= b);
                assert(tc =~= tb);
            },
        }
    }
    lexes_joint(c, tc, Keyword::On, table, word_toks(table));
    let d = c + spaced(Keyword::On) + table;
    let td = tc + keyword_toks(Keyword::On) + word_toks(table);
    lexes_joint(d, td, Keyword::Using, method_text(method), word_toks(method_text(method)));
    let e = d + spaced(Keyword::Using) + method_text(method);
    let te = td + keyword_toks(Keyword::Using) + word_toks(method_text(method));
    then_space(e, te);
    closed_lexes(e + space(), te);
    lexes_parens(e + space(), te, field, word_toks(field));
}

proof fn lexes_drop_index(name: Seq<char>, table: Seq<char>)
    requires
        is_identifier(name),
        is_identifier(table),
    ensures
        lexes(drop_index_text(name, table), drop_index_toks(name, table)),
{
    lexes_keyword(Keyword::Drop);
    lexes_word(name);
    lexes_word(table);
    let a = keyword_text(Keyword::Drop);
    let ta = keyword_toks(Keyword::Drop);
    lexes_joint(a, ta, Keyword::Index, name, word_toks(name));
    lexes_joint(
        a + spaced(Keyword::Index) + name,
        ta + keyword_toks(Keyword::Index) + word_toks(name),
        Keyword::On,
        table,
        word_toks(table),
    );
}

/// The canonical text of a statement has the canonical tokens.
pub proof fn lemma_relex(s: Stmt)
    requires
        shaped(s),
        finite(s),
    ensures
        lex(stmt_text(s)) == Ok::<Seq<Tok>, nat>(stmt_toks(s)),
{
    match s {
        Stmt::Select(q) => lexes_query(q),
        Stmt::Insert { table, columns, source } => lexes_insert(table, columns, source),
        Stmt::Update { table, assignments, predicate } => lexes_update(
            table,
            assignments,
            predicate,
        ),
        Stmt::Delete { table, predicate } => lexes_delete(table, predicate),
        Stmt::Vacuum { table } => {
            lexes_keyword(Keyword::Vacuum);
            lexes_word(table);
            lexes_pair(
                keyword_text(Keyword::Vacuum),
                keyword_toks(Keyword::Vacuum),
                table,
                word_toks(table),
            );
        },
        Stmt::Checkpoint => lexes_keyword(Keyword::Checkpoint),
        Stmt::CreateIndex { name, table, method, field } => lexes_create_index(
            name,
            table,
            method,
            field,
        ),
        Stmt::DropIndex { name, table } => lexes_drop_index(name, table),
    }
    reveal(lexes);
    let none: Seq<char> = Seq::empty();
    assert(stmt_text(s) + none =~= stmt_text(s));
    assert(lex(stmt_text(s) + none) == prepend(stmt_toks(s), lex(none)));
    assert(stmt_toks(s) + Seq::empty() =~= stmt_toks(s));
}

} // verus!
