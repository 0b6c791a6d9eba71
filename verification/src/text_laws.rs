//! What source text means, piece by piece, and how errors in it are reported.

use crate::ast::{CmpOp, DistanceOp, IndexMethod, OrderDir};
use crate::grammar::{
    at_count, at_distance, atom_or_parens, direction, distance_expr, field_projection,
    index_method, limit_clause, literal, lone_predicate, or_expr, param, program, statement,
};
use crate::keyword::{
    keyword_of, keyword_text, law_keywords_ignore_case, lemma_keyword_text, same_ignoring_case,
    upper, Keyword,
};
use crate::lexer::{
    digit_run, in_word, is_space, lemma_digit_run, lemma_quoted_run, lemma_word_run, lex,
    quoted_run, starts_word, tail, token_at, word_run, Symbol, Tok,
};
use crate::parser::{column_of, line_of, parse_text, syntax_error};
use crate::syntax::{Distance, Literal, Param, Pred, Proj, Stmt};
use crate::text::{is_digit, numeral, numeral_value};
use vstd::prelude::*;

verus! {

/// The tokens of a text that starts with one token: that token, and those of
/// the rest.
pub open spec fn starts_with(s: Seq<char>, t: Tok, rest: Seq<char>) -> bool {
    lex(s) == match lex(rest) {
        Ok(more) => Ok::<Seq<Tok>, nat>(seq![t] + more),
        Err(e) => Err(e),
    }
}

// ----- Characters -----

/// Which characters are spaces, digits and letters: by their codes.
pub proof fn law_characters(c: char)
    ensures
        is_space(c) <==> c as int == 32 || c as int == 9 || c as int == 13 || c as int == 10,
        is_digit(c) <==> 48 <= c as int <= 57,
        starts_word(c) <==> 65 <= c as int <= 90 || 97 <= c as int <= 122 || c as int == 95,
        in_word(c) <==> 65 <= c as int <= 90 || 97 <= c as int <= 122 || c as int == 95 || 48
            <= c as int <= 57,
{
}

/// Spaces, tabs and line ends mean nothing in front of a token.
pub proof fn law_space_is_skipped(c: char, s: Seq<char>)
    requires
        c == ' ' || c == '\t' || c == '\r' || c == '\n',
    ensures
        lex(seq![c] + s) == lex(s),
{
    assert((seq![c] + s).skip(1) =~= s);
}

// ----- Words -----

/// The reserved words, in any letter case.
pub proof fn law_reserved_words(k: Keyword, w: Seq<char>)
    ensures
        keyword_of(w) == Some(k) <==> same_ignoring_case(
            w,
            match k {
                Keyword::Select => "SELECT"@,
                Keyword::From => "FROM"@,
                Keyword::Where => "WHERE"@,
                Keyword::Order => "ORDER"@,
                Keyword::By => "BY"@,
                Keyword::Limit => "LIMIT"@,
                Keyword::Asc => "ASC"@,
                Keyword::Desc => "DESC"@,
                Keyword::Insert => "INSERT"@,
                Keyword::Into => "INTO"@,
                Keyword::Values => "VALUES"@,
                Keyword::Update => "UPDATE"@,
                Keyword::Assign => "SET"@,
                Keyword::Delete => "DELETE"@,
                Keyword::Vacuum => "VACUUM"@,
                Keyword::Checkpoint => "CHECKPOINT"@,
                Keyword::Create => "CREATE"@,
                Keyword::Drop => "DROP"@,
                Keyword::Index => "INDEX"@,
                Keyword::On => "ON"@,
                Keyword::Using => "USING"@,
                Keyword::And => "AND"@,
                Keyword::Or => "OR"@,
                Keyword::Not => "NOT"@,
                Keyword::In => "IN"@,
                Keyword::Between => "BETWEEN"@,
                Keyword::Is => "IS"@,
                Keyword::Null => "NULL"@,
                Keyword::True => "TRUE"@,
                Keyword::False => "FALSE"@,
                Keyword::As => "AS"@,
            },
        ),
{
    lemma_keyword_text(k);
    if same_ignoring_case(w, keyword_text(k)) {
        law_keywords_ignore_case(w, keyword_text(k));
    }
}

/// A run of letters, digits and underscores that does not start with a digit
/// is one token: a reserved word, or an identifier as it is spelled.
pub proof fn law_words(w: Seq<char>, rest: Seq<char>)
    requires
        w.len() > 0 && !is_digit(w[0]),
        forall|i: int| 0 <= i < w.len() ==> in_word(#[trigger] w[i]),
        rest.len() > 0 ==> !in_word(rest[0]),
    ensures
        starts_with(
            w + rest,
            match keyword_of(w) {
                Some(k) => Tok::Keyword(k),
                None => Tok::Ident(w),
            },
            rest,
        ),
        starts_with(w + rest, Tok::Ident(w), rest) || keyword_of(w) is Some,
        keyword_of(w) is None ==> starts_with(seq!['$'] + w + rest, Tok::Name(w), rest),
        keyword_of(w) is Some ==> lex(seq!['$'] + w + rest) is Err,
{
    let s = w + rest;
    lemma_word_of(w, rest);
    assert(s[0] == w[0]);
    assert(s.skip(w.len() as int) =~= rest);
    let p = seq!['$'] + w + rest;
    assert(p.skip(1) =~= s);
    assert(p.skip(1 + w.len() as int) =~= rest);
}

proof fn lemma_word_of(w: Seq<char>, rest: Seq<char>)
    requires
        forall|i: int| 0 <= i < w.len() ==> in_word(#[trigger] w[i]),
        rest.len() > 0 ==> !in_word(rest[0]),
    ensures
        word_run(w + rest) == w.len(),
        (w + rest).take(w.len() as int) == w,
{
    let s = w + rest;
    lemma_word_run(s);
    let n = word_run(s) as int;
    if n < w.len() {
        assert(s[n] == w[n]);
    }
    if n > w.len() {
        assert(s[w.len() as int] == rest[0]);
    }
    assert(s.take(w.len() as int) =~= w);
}

// ----- Strings and numbers -----

/// What stands between two single quotes is one token, taken as it is. A quote
/// that nothing closes is an error.
pub proof fn law_strings(s: Seq<char>, rest: Seq<char>)
    requires
        forall|i: int| 0 <= i < s.len() ==> #[trigger] s[i] != '\'',
    ensures
        starts_with(seq!['\''] + s + seq!['\''] + rest, Tok::Quoted(s), rest),
        lex(seq!['\''] + s) == Err::<Seq<Tok>, nat>(1 + s.len()),
{
    let a = seq!['\''] + s + seq!['\''] + rest;
    let t = a.skip(1);
    assert(t =~= s + seq!['\''] + rest);
    lemma_quoted_run(t);
    let n = quoted_run(t) as int;
    if n < s.len() {
        assert(t[n] == s[n]);
    }
    if n > s.len() {
        assert(t[s.len() as int] == '\'');
    }
    assert(t.take(s.len() as int) =~= s);
    assert(a.skip(2 + s.len() as int) =~= rest);
    let b = seq!['\''] + s;
    assert(b.skip(1) =~= s);
    lemma_quoted_run(s);
    let m = quoted_run(s) as int;
    if m < s.len() {
        assert(s[m] == '\'');
    }
}

proof fn lemma_digits_of(ds: Seq<char>, rest: Seq<char>)
    requires
        forall|i: int| 0 <= i < ds.len() ==> is_digit(#[trigger] ds[i]),
        rest.len() > 0 ==> !is_digit(rest[0]),
    ensures
        digit_run(ds + rest) == ds.len(),
        (ds + rest).take(ds.len() as int) == ds,
        (ds + rest).skip(ds.len() as int) == rest,
{
    let s = ds + rest;
    lemma_digit_run(s);
    let n = digit_run(s) as int;
    if n < ds.len() {
        assert(s[n] == ds[n]);
    }
    if n > ds.len() {
        assert(s[ds.len() as int] == rest[0]);
    }
    assert(s.take(ds.len() as int) =~= ds);
    assert(s.skip(ds.len() as int) =~= rest);
}

/// A run of digits that no point with more digits follows is one token, with a
/// minus sign directly in front if there is one; behind `$`, it is the number
/// of a parameter.
pub proof fn law_integers(ds: Seq<char>, rest: Seq<char>)
    requires
        ds.len() > 0,
        forall|i: int| 0 <= i < ds.len() ==> is_digit(#[trigger] ds[i]),
        rest.len() > 0 ==> !is_digit(rest[0]),
        rest.len() > 1 && rest[0] == '.' ==> !is_digit(rest[1]),
    ensures
        starts_with(ds + rest, Tok::Number(false, ds, None), rest),
        starts_with(seq!['-'] + ds + rest, Tok::Number(true, ds, None), rest),
        starts_with(seq!['$'] + ds + rest, Tok::Ordinal(ds), rest),
{
    let s = ds + rest;
    lemma_digits_of(ds, rest);
    assert(s[0] == ds[0]);
    let m = seq!['-'] + ds + rest;
    assert(m.skip(1) =~= s);
    assert(m.skip(1 + ds.len() as int) =~= rest);
    assert(m[1] == ds[0]);
    let p = seq!['$'] + ds + rest;
    assert(p.skip(1) =~= s);
    assert(p.skip(1 + ds.len() as int) =~= rest);
}

/// Digits, a point and more digits are one token, with a minus sign directly
/// in front if there is one.
pub proof fn law_decimals(whole: Seq<char>, frac: Seq<char>, rest: Seq<char>)
    requires
        whole.len() > 0 && frac.len() > 0,
        forall|i: int| 0 <= i < whole.len() ==> is_digit(#[trigger] whole[i]),
        forall|i: int| 0 <= i < frac.len() ==> is_digit(#[trigger] frac[i]),
        rest.len() > 0 ==> !is_digit(rest[0]),
    ensures
        starts_with(
            whole + seq!['.'] + frac + rest,
            Tok::Number(false, whole, Some(frac)),
            rest,
        ),
        starts_with(
            seq!['-'] + (whole + seq!['.'] + frac + rest),
            Tok::Number(true, whole, Some(frac)),
            rest,
        ),
{
    let s = whole + seq!['.'] + frac + rest;
    let behind = seq!['.'] + frac + rest;
    assert(s =~= whole + behind);
    lemma_digits_of(whole, behind);
    assert(behind.skip(1) =~= frac + rest);
    lemma_digits_of(frac, rest);
    assert(behind[1] == frac[0]);
    assert(s[0] == whole[0]);
    let n = whole.len() + 1 + frac.len();
    assert(s.skip(n as int) =~= rest);
    let m = seq!['-'] + s;
    assert(m.skip(1) =~= s);
    assert(m.skip(n as int + 1) =~= rest);
}

// ----- Marks -----

/// The punctuation marks and operators, the longest first.
pub proof fn law_marks(rest: Seq<char>)
    ensures
        starts_with(seq!['('] + rest, Tok::Symbol(Symbol::LeftParen), rest),
        starts_with(seq![')'] + rest, Tok::Symbol(Symbol::RightParen), rest),
        starts_with(seq!['['] + rest, Tok::Symbol(Symbol::LeftBracket), rest),
        starts_with(seq![']'] + rest, Tok::Symbol(Symbol::RightBracket), rest),
        starts_with(seq![','] + rest, Tok::Symbol(Symbol::Comma), rest),
        starts_with(seq![';'] + rest, Tok::Symbol(Symbol::Semicolon), rest),
        starts_with(seq!['*'] + rest, Tok::Symbol(Symbol::Star), rest),
        starts_with(seq!['@', '>'] + rest, Tok::Symbol(Symbol::Contains), rest),
        starts_with(seq!['='] + rest, Tok::Cmp(CmpOp::Eq), rest),
        starts_with(seq!['!', '='] + rest, Tok::Cmp(CmpOp::Ne), rest),
        starts_with(seq!['<', '>'] + rest, Tok::Cmp(CmpOp::Ne), rest),
        starts_with(seq!['>', '='] + rest, Tok::Cmp(CmpOp::Ge), rest),
        starts_with(seq!['<', '-', '>'] + rest, Tok::Metric(DistanceOp::L2), rest),
        starts_with(seq!['<', '=', '>'] + rest, Tok::Metric(DistanceOp::Cosine), rest),
        starts_with(seq!['<', '#', '>'] + rest, Tok::Metric(DistanceOp::InnerProduct), rest),
        rest.len() == 0 || rest[0] != '>' ==> starts_with(
            seq!['<', '='] + rest,
            Tok::Cmp(CmpOp::Le),
            rest,
        ),
        rest.len() == 0 || rest[0] != '=' ==> starts_with(
            seq!['>'] + rest,
            Tok::Cmp(CmpOp::Gt),
            rest,
        ),
        rest.len() == 0 || rest[0] != '=' && rest[0] != '>' && rest[0] != '-' && rest[0] != '#'
            ==> starts_with(seq!['<'] + rest, Tok::Cmp(CmpOp::Lt), rest),
{
    assert((seq!['('] + rest).skip(1) =~= rest);
    assert((seq![')'] + rest).skip(1) =~= rest);
    assert((seq!['['] + rest).skip(1) =~= rest);
    assert((seq![']'] + rest).skip(1) =~= rest);
    assert((seq![','] + rest).skip(1) =~= rest);
    assert((seq![';'] + rest).skip(1) =~= rest);
    assert((seq!['*'] + rest).skip(1) =~= rest);
    assert((seq!['='] + rest).skip(1) =~= rest);
    assert((seq!['>'] + rest).skip(1) =~= rest);
    assert((seq!['<'] + rest).skip(1) =~= rest);
    assert((seq!['@', '>'] + rest).skip(2) =~= rest);
    assert((seq!['!', '='] + rest).skip(2) =~= rest);
    assert((seq!['<', '>'] + rest).skip(2) =~= rest);
    assert((seq!['>', '='] + rest).skip(2) =~= rest);
    assert((seq!['<', '='] + rest).skip(2) =~= rest);
    assert((seq!['<', '-', '>'] + rest).skip(3) =~= rest);
    assert((seq!['<', '=', '>'] + rest).skip(3) =~= rest);
    assert((seq!['<', '#', '>'] + rest).skip(3) =~= rest);
}

/// A sign that starts a token and is not followed by the rest of it is an
/// error, at the sign.
pub proof fn law_broken_tokens(rest: Seq<char>)
    ensures
        rest.len() == 0 || !is_digit(rest[0]) ==> lex(seq!['-'] + rest) == Err::<Seq<Tok>, nat>(
            1 + rest.len(),
        ),
        rest.len() == 0 || !in_word(rest[0]) ==> lex(seq!['$'] + rest) == Err::<Seq<Tok>, nat>(
            1 + rest.len(),
        ),
        rest.len() == 0 || rest[0] != '>' ==> lex(seq!['@'] + rest) == Err::<Seq<Tok>, nat>(
            1 + rest.len(),
        ),
        rest.len() == 0 || rest[0] != '=' ==> lex(seq!['!'] + rest) == Err::<Seq<Tok>, nat>(
            1 + rest.len(),
        ),
{
    let p = seq!['$'] + rest;
    assert(p.skip(1) =~= rest);
    if rest.len() > 0 {
        assert((seq!['-'] + rest)[1] == rest[0]);
        assert((seq!['@'] + rest)[1] == rest[0]);
        assert((seq!['!'] + rest)[1] == rest[0]);
    }
}

// ----- What may be left out, or put in -----

/// Parentheses around a predicate change nothing.
pub proof fn law_parentheses(ts: Seq<Tok>, p: Pred, rest: Seq<Tok>)
    requires
        or_expr(ts) == Ok::<(Pred, Seq<Tok>), nat>(
            (p, seq![Tok::Symbol(Symbol::RightParen)] + rest),
        ),
    ensures
        atom_or_parens(seq![Tok::Symbol(Symbol::LeftParen)] + ts) == Ok::<(Pred, Seq<Tok>), nat>(
            (p, rest),
        ),
{
    let s = seq![Tok::Symbol(Symbol::LeftParen)] + ts;
    assert(s.skip(1) =~= ts);
    assert((seq![Tok::Symbol(Symbol::RightParen)] + rest).skip(1) =~= rest);
}

/// An order is ascending unless it says `DESC`.
pub proof fn law_directions(ts: Seq<Tok>)
    ensures
        direction(seq![Tok::Keyword(Keyword::Asc)] + ts) == (OrderDir::Asc, ts),
        direction(seq![Tok::Keyword(Keyword::Desc)] + ts) == (OrderDir::Desc, ts),
        ts.len() == 0 || ts[0] != Tok::Keyword(Keyword::Asc) && ts[0] != Tok::Keyword(Keyword::Desc)
            ==> direction(ts) == (OrderDir::Asc, ts),
{
    assert((seq![Tok::Keyword(Keyword::Asc)] + ts).skip(1) =~= ts);
    assert((seq![Tok::Keyword(Keyword::Desc)] + ts).skip(1) =~= ts);
}

/// A limit is a whole number without a sign that fits in 64 bits.
pub proof fn law_limits(neg: bool, ds: Seq<char>, frac: Option<Seq<char>>, ts: Seq<Tok>)
    ensures
        ({
            let r = limit_clause(
                seq![Tok::Keyword(Keyword::Limit), Tok::Number(neg, ds, frac)] + ts,
            );
            &&& r is Ok <==> !neg && frac is None && numeral_value(ds) <= u64::MAX
            &&& r matches Ok((limit, rest)) ==> rest == ts && limit is Some && limit->Some_0
                == numeral_value(ds)
        }),
        ts.len() == 0 || ts[0] != Tok::Keyword(Keyword::Limit) ==> limit_clause(ts) == Ok::<
            (Option<u64>, Seq<Tok>),
            nat,
        >((None, ts)),
{
    let s = seq![Tok::Keyword(Keyword::Limit), Tok::Number(neg, ds, frac)] + ts;
    assert(s.skip(1).skip(1) =~= ts);
    assert(s.skip(1)[0] == Tok::Number(neg, ds, frac));
}

/// In a projection, `id` and `metadata` stand for the row's own, in any case;
/// any other name stands for the field as it is spelled.
pub proof fn law_magic_columns(name: Seq<char>)
    ensures
        same_ignoring_case(name, "id"@) ==> field_projection(name) == Proj::Id,
        same_ignoring_case(name, "metadata"@) ==> field_projection(name) == Proj::Metadata,
        !same_ignoring_case(name, "id"@) && !same_ignoring_case(name, "metadata"@)
            ==> field_projection(name) == Proj::Field(name),
{
    if same_ignoring_case(name, "id"@) && same_ignoring_case(name, "metadata"@) {
        reveal_strlit("id");
        reveal_strlit("metadata");
        assert(upper("id"@).len() == 2);
        assert(upper("metadata"@).len() == 8);
    }
}

/// A text is one statement, with nothing behind it but a semicolon, or not
/// even that.
pub proof fn law_one_statement(ts: Seq<Tok>, s: Stmt)
    ensures
        program(ts) == Ok::<Stmt, nat>(s) <==> {
            ||| statement(ts) == Ok::<(Stmt, Seq<Tok>), nat>((s, Seq::empty()))
            ||| statement(ts) == Ok::<(Stmt, Seq<Tok>), nat>(
                (s, seq![Tok::Symbol(Symbol::Semicolon)]),
            )
        },
{
    if let Ok((x, r)) = statement(ts) {
        if r.len() == 0 {
            assert(r =~= Seq::empty());
        }
        if r.len() == 1 && r[0] == Tok::Symbol(Symbol::Semicolon) {
            assert(r =~= seq![Tok::Symbol(Symbol::Semicolon)]);
        }
    }
}

// ----- Errors -----

/// The line of a position is one more than the number of line ends before it.
pub proof fn law_lines(s: Seq<char>, pos: nat)
    requires
        pos <= s.len(),
    ensures
        line_of(s, pos) == 1 + s.take(pos as int).filter(|c: char| c == '\n').len(),
    decreases pos,
{
    reveal(Seq::filter);
    if pos > 0 {
        law_lines(s, (pos - 1) as nat);
        assert(s.take(pos as int).drop_last() =~= s.take(pos - 1));
    } else {
        assert(s.take(0).filter(|c: char| c == '\n') =~= Seq::empty());
    }
}

/// The column of a position is one more than the number of characters between
/// it and the start of its line.
pub proof fn law_columns(s: Seq<char>, start: nat, pos: nat)
    requires
        start <= pos <= s.len(),
        start == 0 || s[start - 1] == '\n',
        forall|i: int| start <= i < pos ==> #[trigger] s[i] != '\n',
    ensures
        column_of(s, pos) == 1 + (pos - start),
    decreases pos,
{
    if pos > start {
        assert(s[pos - 1] != '\n');
        law_columns(s, start, (pos - 1) as nat);
    }
}

/// A syntax error says where it is: the line and the column, and whether the
/// text ended there.
pub proof fn law_syntax_errors(s: Seq<char>, pos: nat)
    ensures
        pos < s.len() ==> syntax_error(s, pos) == "line "@ + numeral(line_of(s, pos)) + ", column "@
            + numeral(column_of(s, pos)) + ": unexpected input"@,
        pos >= s.len() ==> syntax_error(s, pos) == "line "@ + numeral(line_of(s, pos))
            + ", column "@ + numeral(column_of(s, pos)) + ": unexpected end of input"@,
{
}

/// A character that starts no token is where the error is, whatever comes
/// behind it.
pub proof fn law_stray_characters(c: char, rest: Seq<char>)
    requires
        !is_space(c) && !in_word(c),
        c != '-' && c != '$' && c != '\'' && c != '(' && c != ')' && c != '[' && c != ']',
        c != ',' && c != ';' && c != '*' && c != '=' && c != '@' && c != '!' && c != '>' && c
            != '<',
    ensures
        parse_text(seq![c] + rest) == Err::<Stmt, nat>(0),
{
    let s = seq![c] + rest;
    assert(s[0] == c);
    assert(token_at(s) is None);
    assert(lex(s) == Err::<Seq<Tok>, nat>(s.len()));
}

/// Where the grammar fails with `n` tokens left, the error is where those `n`
/// tokens start: what follows the position are exactly they, and no space
/// comes first.
pub proof fn law_error_position(s: Seq<char>, ts: Seq<Tok>, n: nat)
    requires
        lex(s) == Ok::<Seq<Tok>, nat>(ts),
        program(ts) == Err::<Stmt, nat>(n),
        n <= ts.len(),
    ensures
        parse_text(s) matches Err(pos) && pos <= s.len() && lex(s.skip(pos as int)) == Ok::<
            Seq<Tok>,
            nat,
        >(ts.skip(ts.len() - n)) && (pos == s.len() || !is_space(s[pos as int])),
{
    let k = (ts.len() - n) as nat;
    lemma_tail(s, k);
    let t = tail(s, k);
    let pos = s.len() - t.len();
    assert(s.skip(pos) == t);
    if t.len() > 0 {
        assert(s[pos] == t[0]);
    }
}

proof fn lemma_first_token(s: Seq<char>, k: nat) -> (r: (Tok, nat))
    requires
        s.len() > 0 && !is_space(s[0]),
        lex(s) is Ok,
        k > 0,
    ensures
        0 < r.1 <= s.len(),
        lex(s.skip(r.1 as int)) is Ok,
        lex(s)->Ok_0 == seq![r.0] + lex(s.skip(r.1 as int))->Ok_0,
        tail(s, k) == tail(s.skip(r.1 as int), (k - 1) as nat),
{
    token_at(s)->Some_0
}

proof fn lemma_tail(s: Seq<char>, k: nat)
    requires
        lex(s) is Ok,
        k <= lex(s)->Ok_0.len(),
    ensures
        tail(s, k).len() <= s.len(),
        tail(s, k) == s.skip(s.len() - tail(s, k).len()),
        lex(tail(s, k)) == Ok::<Seq<Tok>, nat>(lex(s)->Ok_0.skip(k as int)),
        tail(s, k).len() > 0 ==> !is_space(tail(s, k)[0]),
    decreases s.len(),
{
    let t = tail(s, k);
    let ts = lex(s)->Ok_0;
    if s.len() == 0 {
        assert(ts.skip(k as int) =~= ts);
        assert(s.skip(0) =~= s);
    } else if is_space(s[0]) {
        let rest = s.skip(1);
        assert(lex(s) == lex(rest) && tail(s, k) == tail(rest, k));
        lemma_tail(rest, k);
        assert(rest.skip(rest.len() - t.len()) =~= s.skip(s.len() - t.len()));
    } else if k == 0 {
        assert(ts.skip(0) =~= ts);
        assert(s.skip(0) =~= s);
    } else {
        let (tok, n) = lemma_first_token(s, k);
        let rest = s.skip(n as int);
        lemma_tail(rest, (k - 1) as nat);
        assert(rest.skip(rest.len() - t.len()) =~= s.skip(s.len() - t.len()));
        assert(ts.skip(k as int) =~= lex(rest)->Ok_0.skip(k - 1));
    }
}

/// A parameter is its name, or its number, which has to fit in 32 bits.
pub proof fn law_parameters(ds: Seq<char>, name: Seq<char>, ts: Seq<Tok>)
    ensures
        numeral_value(ds) <= u32::MAX ==> param(seq![Tok::Ordinal(ds)] + ts) == Ok::<
            (Param, Seq<Tok>),
            nat,
        >((Param::Positional(numeral_value(ds) as u32), ts)),
        numeral_value(ds) > u32::MAX ==> param(seq![Tok::Ordinal(ds)] + ts) is Err,
        param(seq![Tok::Name(name)] + ts) == Ok::<(Param, Seq<Tok>), nat>(
            (Param::Named(name), ts),
        ),
{
    assert((seq![Tok::Ordinal(ds)] + ts).skip(1) =~= ts);
    assert((seq![Tok::Name(name)] + ts).skip(1) =~= ts);
}

/// A literal is the text between quotes, a truth value or `NULL`; numbers are
/// told apart by their point.
pub proof fn law_literals(s: Seq<char>, neg: bool, ds: Seq<char>, frac: Seq<char>, ts: Seq<Tok>)
    ensures
        literal(seq![Tok::Quoted(s)] + ts) == Ok::<(Literal, Seq<Tok>), nat>(
            (Literal::Str(s), ts),
        ),
        literal(seq![Tok::Keyword(Keyword::True)] + ts) == Ok::<(Literal, Seq<Tok>), nat>(
            (Literal::Bool(true), ts),
        ),
        literal(seq![Tok::Keyword(Keyword::False)] + ts) == Ok::<(Literal, Seq<Tok>), nat>(
            (Literal::Bool(false), ts),
        ),
        literal(seq![Tok::Keyword(Keyword::Null)] + ts) == Ok::<(Literal, Seq<Tok>), nat>(
            (Literal::Null, ts),
        ),
        literal(seq![Tok::Number(neg, ds, None)] + ts) matches Ok((l, r)) ==> l is I64 && r == ts,
        literal(seq![Tok::Number(neg, ds, Some(frac))] + ts) matches Ok((l, r)) && l is F64 && r
            == ts,
        literal(seq![Tok::Ident(s)] + ts) is Err,
{
    assert((seq![Tok::Quoted(s)] + ts).skip(1) =~= ts);
    assert((seq![Tok::Keyword(Keyword::True)] + ts).skip(1) =~= ts);
    assert((seq![Tok::Keyword(Keyword::False)] + ts).skip(1) =~= ts);
    assert((seq![Tok::Keyword(Keyword::Null)] + ts).skip(1) =~= ts);
    assert((seq![Tok::Number(neg, ds, None)] + ts).skip(1) =~= ts);
    assert((seq![Tok::Number(neg, ds, Some(frac))] + ts).skip(1) =~= ts);
}

/// The words that are not reserved and yet mean something do so in any case:
/// `embedding` in front of a metric, `count` in front of a parenthesis, and
/// the methods of an index.
pub proof fn law_plain_words(w: Seq<char>, metric: DistanceOp, name: Seq<char>, ts: Seq<Tok>)
    ensures
        at_distance(seq![Tok::Ident(w), Tok::Metric(metric)] + ts) <==> same_ignoring_case(
            w,
            "embedding"@,
        ),
        same_ignoring_case(w, "embedding"@) ==> distance_expr(
            seq![Tok::Ident(w), Tok::Metric(metric), Tok::Name(name)] + ts,
        ) == Ok::<(Distance, Seq<Tok>), nat>(
            (Distance { metric, param: Param::Named(name) }, ts),
        ),
        at_count(seq![Tok::Ident(w), Tok::Symbol(Symbol::LeftParen)] + ts) <==> same_ignoring_case(
            w,
            "count"@,
        ),
        same_ignoring_case(w, "hash"@) ==> index_method(seq![Tok::Ident(w)] + ts) == Ok::<
            (IndexMethod, Seq<Tok>),
            nat,
        >((IndexMethod::Hash, ts)),
        same_ignoring_case(w, "btree"@) ==> index_method(seq![Tok::Ident(w)] + ts) == Ok::<
            (IndexMethod, Seq<Tok>),
            nat,
        >((IndexMethod::Btree, ts)),
        same_ignoring_case(w, "inverted"@) ==> index_method(seq![Tok::Ident(w)] + ts) == Ok::<
            (IndexMethod, Seq<Tok>),
            nat,
        >((IndexMethod::Inverted, ts)),
        !same_ignoring_case(w, "hash"@) && !same_ignoring_case(w, "btree"@) && !same_ignoring_case(
            w,
            "inverted"@,
        ) ==> index_method(seq![Tok::Ident(w)] + ts) is Err,
{
    reveal_strlit("embedding");
    reveal_strlit("EMBEDDING");
    reveal_strlit("count");
    reveal_strlit("COUNT");
    reveal_strlit("hash");
    reveal_strlit("HASH");
    reveal_strlit("btree");
    reveal_strlit("BTREE");
    reveal_strlit("inverted");
    reveal_strlit("INVERTED");
    assert(upper("embedding"@) =~= upper("EMBEDDING"@));
    assert(upper("count"@) =~= upper("COUNT"@));
    assert(upper("hash"@) =~= upper("HASH"@));
    assert(upper("btree"@) =~= upper("BTREE"@));
    assert(upper("inverted"@) =~= upper("INVERTED"@));
    assert(upper("hash"@).len() == 4 && upper("btree"@).len() == 5 && upper("inverted"@).len() == 8);
    assert((seq![Tok::Ident(w)] + ts).skip(1) =~= ts);
    let s = seq![Tok::Ident(w), Tok::Symbol(Symbol::LeftParen)] + ts;
    assert(s.skip(1)[0] == Tok::Symbol(Symbol::LeftParen));
    let d = seq![Tok::Ident(w), Tok::Metric(metric), Tok::Name(name)] + ts;
    assert(d.skip(2)[0] == Tok::Name(name));
    assert(d.skip(2).skip(1) =~= ts);
}

/// A bare predicate is a predicate with nothing behind it.
pub proof fn law_one_predicate(ts: Seq<Tok>, p: Pred)
    ensures
        lone_predicate(ts) == Ok::<Pred, nat>(p) <==> or_expr(ts) == Ok::<(Pred, Seq<Tok>), nat>(
            (p, Seq::empty()),
        ),
{
    if let Ok((q, r)) = or_expr(ts) {
        if r.len() == 0 {
            assert(r =~= Seq::empty());
        }
    }
}

} // verus!
