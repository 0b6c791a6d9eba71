//! Tokens of KQL.
//!
//! Whitespace separates tokens and means nothing else. A word is a maximal
//! run of ASCII letters, digits and underscores that does not start with a
//! digit; it is a keyword if it spells a reserved word in any letter case,
//! and an identifier otherwise.

use crate::ast::{CmpOp, DistanceOp};
use crate::keyword::{find_keyword, keyword_of, Keyword};
use crate::text::{all_digits, is_digit, string_of};
use vstd::prelude::*;

verus! {

/// A punctuation mark.
#[derive(Debug, Clone, Copy, PartialEq, Eq, Structural)]
pub enum Symbol {
    LeftParen,
    RightParen,
    LeftBracket,
    RightBracket,
    Comma,
    Semicolon,
    Star,
    Contains,
}

/// A token, as produced from source text.
#[derive(Debug)]
pub enum Token {
    Keyword(Keyword),
    Ident(String),
    /// `$` and digits; the digits are kept.
    Ordinal(Vec<char>),
    /// `$` and an identifier; the identifier is kept.
    Name(String),
    /// An optional sign, digits, and optionally a point and more digits.
    Number(bool, Vec<char>, Option<Vec<char>>),
    /// The characters between two single quotes.
    Quoted(String),
    Cmp(CmpOp),
    Metric(DistanceOp),
    Symbol(Symbol),
}

/// A token, with text as sequences of characters.
pub enum Tok {
    Keyword(Keyword),
    Ident(Seq<char>),
    Ordinal(Seq<char>),
    Name(Seq<char>),
    Number(bool, Seq<char>, Option<Seq<char>>),
    Quoted(Seq<char>),
    Cmp(CmpOp),
    Metric(DistanceOp),
    Symbol(Symbol),
}

impl Token {
    pub open spec fn view(&self) -> Tok {
        match self {
            Token::Keyword(k) => Tok::Keyword(*k),
            Token::Ident(s) => Tok::Ident(s@),
            Token::Ordinal(s) => Tok::Ordinal(s@),
            Token::Name(s) => Tok::Name(s@),
            Token::Number(neg, whole, frac) => Tok::Number(
                *neg,
                whole@,
                match frac {
                    Some(f) => Some(f@),
                    None => None,
                },
            ),
            Token::Quoted(s) => Tok::Quoted(s@),
            Token::Cmp(op) => Tok::Cmp(*op),
            Token::Metric(op) => Tok::Metric(*op),
            Token::Symbol(s) => Tok::Symbol(*s),
        }
    }
}

pub open spec fn toks(v: Seq<Token>) -> Seq<Tok> {
    Seq::new(v.len(), |i: int| v[i]@)
}

/// Whether the parts of a token that stand for digits are digits.
pub open spec fn tok_wf(t: Tok) -> bool {
    match t {
        Tok::Ordinal(ds) => all_digits(ds),
        Tok::Number(_, whole, Some(frac)) => all_digits(whole) && all_digits(frac),
        Tok::Number(_, whole, None) => all_digits(whole),
        _ => true,
    }
}

pub open spec fn is_space(c: char) -> bool {
    c == ' ' || c == '\t' || c == '\r' || c == '\n'
}

pub open spec fn starts_word(c: char) -> bool {
    'a' <= c <= 'z' || 'A' <= c <= 'Z' || c == '_'
}

pub open spec fn in_word(c: char) -> bool {
    starts_word(c) || is_digit(c)
}

/// Length of the longest prefix made of word characters.
pub open spec fn word_run(s: Seq<char>) -> nat
    decreases s.len(),
{
    if s.len() > 0 && in_word(s[0]) {
        1 + word_run(s.skip(1))
    } else {
        0
    }
}

/// Length of the longest prefix made of digits.
pub open spec fn digit_run(s: Seq<char>) -> nat
    decreases s.len(),
{
    if s.len() > 0 && is_digit(s[0]) {
        1 + digit_run(s.skip(1))
    } else {
        0
    }
}

/// Length of the longest prefix without a single quote.
pub open spec fn quoted_run(s: Seq<char>) -> nat
    decreases s.len(),
{
    if s.len() > 0 && s[0] != '\'' {
        1 + quoted_run(s.skip(1))
    } else {
        0
    }
}

/// The character at position `i`, if there is one.
pub open spec fn char_at(s: Seq<char>, i: int) -> Option<char> {
    if 0 <= i < s.len() {
        Some(s[i])
    } else {
        None
    }
}

/// Whether there is a digit at position `i`.
pub open spec fn digit_at(s: Seq<char>, i: int) -> bool {
    0 <= i < s.len() && is_digit(s[i])
}

/// The unsigned number at the start of `s`, and its length.
pub open spec fn number_at(s: Seq<char>, neg: bool) -> (Tok, nat) {
    let n = digit_run(s);
    let rest = s.skip(n as int);
    if char_at(rest, 0) == Some('.') && digit_at(rest, 1) {
        let m = digit_run(rest.skip(1));
        (
            Tok::Number(neg, s.take(n as int), Some(rest.skip(1).take(m as int))),
            n + 1 + m,
        )
    } else {
        (Tok::Number(neg, s.take(n as int), None), n)
    }
}

/// The token of one, two or three punctuation characters at the start of `s`,
/// and its length; the longest wins.
pub open spec fn mark_at(s: Seq<char>) -> Option<(Tok, nat)> {
    let b = char_at(s, 1);
    let c = char_at(s, 2);
    if s[0] == '(' {
        Some((Tok::Symbol(Symbol::LeftParen), 1))
    } else if s[0] == ')' {
        Some((Tok::Symbol(Symbol::RightParen), 1))
    } else if s[0] == '[' {
        Some((Tok::Symbol(Symbol::LeftBracket), 1))
    } else if s[0] == ']' {
        Some((Tok::Symbol(Symbol::RightBracket), 1))
    } else if s[0] == ',' {
        Some((Tok::Symbol(Symbol::Comma), 1))
    } else if s[0] == ';' {
        Some((Tok::Symbol(Symbol::Semicolon), 1))
    } else if s[0] == '*' {
        Some((Tok::Symbol(Symbol::Star), 1))
    } else if s[0] == '=' {
        Some((Tok::Cmp(CmpOp::Eq), 1))
    } else if s[0] == '@' && b == Some('>') {
        Some((Tok::Symbol(Symbol::Contains), 2))
    } else if s[0] == '!' && b == Some('=') {
        Some((Tok::Cmp(CmpOp::Ne), 2))
    } else if s[0] == '>' {
        if b == Some('=') {
            Some((Tok::Cmp(CmpOp::Ge), 2))
        } else {
            Some((Tok::Cmp(CmpOp::Gt), 1))
        }
    } else if s[0] == '<' {
        if b == Some('-') && c == Some('>') {
            Some((Tok::Metric(DistanceOp::L2), 3))
        } else if b == Some('=') && c == Some('>') {
            Some((Tok::Metric(DistanceOp::Cosine), 3))
        } else if b == Some('#') && c == Some('>') {
            Some((Tok::Metric(DistanceOp::InnerProduct), 3))
        } else if b == Some('=') {
            Some((Tok::Cmp(CmpOp::Le), 2))
        } else if b == Some('>') {
            Some((Tok::Cmp(CmpOp::Ne), 2))
        } else {
            Some((Tok::Cmp(CmpOp::Lt), 1))
        }
    } else {
        None
    }
}

/// The token at the start of `s`, which is neither empty nor starts with
/// whitespace, and its length.
pub open spec fn token_at(s: Seq<char>) -> Option<(Tok, nat)> {
    if starts_word(s[0]) {
        let n = word_run(s);
        let w = s.take(n as int);
        match keyword_of(w) {
            Some(k) => Some((Tok::Keyword(k), n)),
            None => Some((Tok::Ident(w), n)),
        }
    } else if is_digit(s[0]) {
        Some(number_at(s, false))
    } else if s[0] == '-' {
        if digit_at(s, 1) {
            let (t, n) = number_at(s.skip(1), true);
            Some((t, n + 1))
        } else {
            None
        }
    } else if s[0] == '$' {
        let rest = s.skip(1);
        if digit_at(rest, 0) {
            let n = digit_run(rest);
            Some((Tok::Ordinal(rest.take(n as int)), n + 1))
        } else if rest.len() > 0 && starts_word(rest[0]) {
            let n = word_run(rest);
            let w = rest.take(n as int);
            if keyword_of(w) is None {
                Some((Tok::Name(w), n + 1))
            } else {
                None
            }
        } else {
            None
        }
    } else if s[0] == '\'' {
        let n = quoted_run(s.skip(1));
        if n + 1 < s.len() {
            Some((Tok::Quoted(s.skip(1).take(n as int)), n + 2))
        } else {
            None
        }
    } else {
        mark_at(s)
    }
}

/// `ts` in front of the tokens of `r`.
pub open spec fn prepend(ts: Seq<Tok>, r: Result<Seq<Tok>, nat>) -> Result<Seq<Tok>, nat> {
    match r {
        Ok(more) => Ok(ts + more),
        Err(e) => Err(e),
    }
}

/// The tokens of the source text `s`. Where a position holds neither a token
/// nor whitespace, the error is the number of characters from there on.
pub open spec fn lex(s: Seq<char>) -> Result<Seq<Tok>, nat>
    decreases s.len(),
{
    if s.len() == 0 {
        Ok(Seq::empty())
    } else if is_space(s[0]) {
        lex(s.skip(1))
    } else {
        match token_at(s) {
            Some((t, n)) => if 0 < n <= s.len() {
                prepend(seq![t], lex(s.skip(n as int)))
            } else {
                Err(s.len())
            },
            None => Err(s.len()),
        }
    }
}

/// What is left of `s` from its `n`-th token on, counted from zero.
pub open spec fn tail(s: Seq<char>, n: nat) -> Seq<char>
    decreases s.len(),
{
    if s.len() == 0 {
        s
    } else if is_space(s[0]) {
        tail(s.skip(1), n)
    } else if n == 0 {
        s
    } else {
        match token_at(s) {
            Some((t, k)) => if 0 < k <= s.len() {
                tail(s.skip(k as int), (n - 1) as nat)
            } else {
                s
            },
            None => s,
        }
    }
}

pub proof fn lemma_word_run(s: Seq<char>)
    ensures
        word_run(s) <= s.len(),
        forall|i: int| 0 <= i < word_run(s) ==> in_word(#[trigger] s[i]),
        word_run(s) < s.len() ==> !in_word(s[word_run(s) as int]),
    decreases s.len(),
{
    if s.len() > 0 && in_word(s[0]) {
        lemma_word_run(s.skip(1));
        assert forall|i: int| 0 <= i < word_run(s) implies in_word(#[trigger] s[i]) by {
            if i > 0 {
                assert(s[i] == s.skip(1)[i - 1]);
            }
        }
    }
}

pub proof fn lemma_digit_run(s: Seq<char>)
    ensures
        digit_run(s) <= s.len(),
        forall|i: int| 0 <= i < digit_run(s) ==> is_digit(#[trigger] s[i]),
        digit_run(s) < s.len() ==> !is_digit(s[digit_run(s) as int]),
    decreases s.len(),
{
    if s.len() > 0 && is_digit(s[0]) {
        lemma_digit_run(s.skip(1));
        assert forall|i: int| 0 <= i < digit_run(s) implies is_digit(#[trigger] s[i]) by {
            if i > 0 {
                assert(s[i] == s.skip(1)[i - 1]);
            }
        }
    }
}

pub proof fn lemma_quoted_run(s: Seq<char>)
    ensures
        quoted_run(s) <= s.len(),
        forall|i: int| 0 <= i < quoted_run(s) ==> #[trigger] s[i] != '\'',
        quoted_run(s) < s.len() ==> s[quoted_run(s) as int] == '\'',
    decreases s.len(),
{
    if s.len() > 0 && s[0] != '\'' {
        lemma_quoted_run(s.skip(1));
        assert forall|i: int| 0 <= i < quoted_run(s) implies #[trigger] s[i] != '\'' by {
            if i > 0 {
                assert(s[i] == s.skip(1)[i - 1]);
            }
        }
    }
}

proof fn lemma_number_wf(s: Seq<char>, neg: bool)
    ensures
        tok_wf(number_at(s, neg).0),
{
    lemma_digit_run(s);
    let rest = s.skip(digit_run(s) as int);
    lemma_digit_run(rest.skip(1));
}

proof fn lemma_token_wf(s: Seq<char>)
    requires
        s.len() > 0,
    ensures
        match token_at(s) {
            Some((t, n)) => tok_wf(t),
            None => true,
        },
{
    lemma_number_wf(s, false);
    lemma_number_wf(s.skip(1), true);
    lemma_digit_run(s.skip(1));
}

fn exec_is_space(c: char) -> (r: bool)
    ensures
        r == is_space(c),
{
    c == ' ' || c == '\t' || c == '\r' || c == '\n'
}

fn exec_starts_word(c: char) -> (r: bool)
    ensures
        r == starts_word(c),
{
    ('a' <= c && c <= 'z') || ('A' <= c && c <= 'Z') || c == '_'
}

fn exec_is_digit(c: char) -> (r: bool)
    ensures
        r == is_digit(c),
{
    '0' <= c && c <= '9'
}

/// The end of the run of word characters that starts at `from`.
fn word_end(cs: &Vec<char>, from: usize) -> (r: usize)
    requires
        from <= cs.len(),
    ensures
        from <= r <= cs.len(),
        r - from == word_run(cs@.skip(from as int)),
{
    let mut i: usize = from;
    while i < cs.len() && (exec_starts_word(cs[i]) || exec_is_digit(cs[i]))
        invariant
            from <= i <= cs.len(),
            word_run(cs@.skip(from as int)) == i - from + word_run(cs@.skip(i as int)),
        decreases cs.len() - i,
    {
        assert(cs@.skip(i as int).skip(1) =~= cs@.skip(i + 1));
        i = i + 1;
    }
    i
}

/// The end of the run of digits that starts at `from`.
fn digits_end(cs: &Vec<char>, from: usize) -> (r: usize)
    requires
        from <= cs.len(),
    ensures
        from <= r <= cs.len(),
        r - from == digit_run(cs@.skip(from as int)),
{
    let mut i: usize = from;
    while i < cs.len() && exec_is_digit(cs[i])
        invariant
            from <= i <= cs.len(),
            digit_run(cs@.skip(from as int)) == i - from + digit_run(cs@.skip(i as int)),
        decreases cs.len() - i,
    {
        assert(cs@.skip(i as int).skip(1) =~= cs@.skip(i + 1));
        i = i + 1;
    }
    i
}

/// The end of the run of characters other than a quote that starts at `from`.
fn quote_end(cs: &Vec<char>, from: usize) -> (r: usize)
    requires
        from <= cs.len(),
    ensures
        from <= r <= cs.len(),
        r - from == quoted_run(cs@.skip(from as int)),
{
    let mut i: usize = from;
    while i < cs.len() && cs[i] != '\''
        invariant
            from <= i <= cs.len(),
            quoted_run(cs@.skip(from as int)) == i - from + quoted_run(cs@.skip(i as int)),
        decreases cs.len() - i,
    {
        assert(cs@.skip(i as int).skip(1) =~= cs@.skip(i + 1));
        i = i + 1;
    }
    i
}

/// A copy of `cs[from..to]`.
fn slice_of(cs: &Vec<char>, from: usize, to: usize) -> (r: Vec<char>)
    requires
        from <= to <= cs.len(),
    ensures
        r@ == cs@.subrange(from as int, to as int),
{
    let mut r: Vec<char> = Vec::new();
    let mut i: usize = from;
    while i < to
        invariant
            from <= i <= to <= cs.len(),
            r@ =~= cs@.subrange(from as int, i as int),
        decreases to - i,
    {
        r.push(cs[i]);
        i = i + 1;
    }
    r
}

/// The unsigned number at position `i`, and the position behind it.
fn exec_number_at(cs: &Vec<char>, i: usize, neg: bool) -> (r: (Token, usize))
    requires
        i < cs.len(),
        is_digit(cs@[i as int]),
    ensures
        i < r.1 <= cs.len(),
        (r.0@, (r.1 - i) as nat) == number_at(cs@.skip(i as int), neg),
{
    let ghost s = cs@.skip(i as int);
    let e: usize = digits_end(cs, i);
    let ghost rest = s.skip(e - i);
    assert(rest =~= cs@.skip(e as int));
    let whole: Vec<char> = slice_of(cs, i, e);
    assert(whole@ =~= s.take(e - i));
    if e < cs.len() && cs[e] == '.' && e + 1 < cs.len() && exec_is_digit(cs[e + 1]) {
        let f: usize = digits_end(cs, e + 1);
        assert(rest.skip(1) =~= cs@.skip(e + 1));
        let frac: Vec<char> = slice_of(cs, e + 1, f);
        assert(frac@ =~= rest.skip(1).take(f - e - 1));
        (Token::Number(neg, whole, Some(frac)), f)
    } else {
        (Token::Number(neg, whole, None), e)
    }
}

/// The punctuation token at position `i`, and the position behind it.
fn exec_mark_at(cs: &Vec<char>, i: usize) -> (r: Option<(Token, usize)>)
    requires
        i < cs.len(),
    ensures
        match (r, mark_at(cs@.skip(i as int))) {
            (Some((t, e)), Some((u, n))) => t@ == u && e == i + n && i < e <= cs.len(),
            (None, None) => true,
            _ => false,
        },
{
    let ghost s = cs@.skip(i as int);
    let a: char = cs[i];
    let b: Option<char> = if i < cs.len() - 1 {
        Some(cs[i + 1])
    } else {
        None
    };
    let c: Option<char> = if cs.len() >= 2 && i < cs.len() - 2 {
        Some(cs[i + 2])
    } else {
        None
    };
    assert(b == char_at(s, 1) && c == char_at(s, 2));
    if a == '(' {
        Some((Token::Symbol(Symbol::LeftParen), i + 1))
    } else if a == ')' {
        Some((Token::Symbol(Symbol::RightParen), i + 1))
    } else if a == '[' {
        Some((Token::Symbol(Symbol::LeftBracket), i + 1))
    } else if a == ']' {
        Some((Token::Symbol(Symbol::RightBracket), i + 1))
    } else if a == ',' {
        Some((Token::Symbol(Symbol::Comma), i + 1))
    } else if a == ';' {
        Some((Token::Symbol(Symbol::Semicolon), i + 1))
    } else if a == '*' {
        Some((Token::Symbol(Symbol::Star), i + 1))
    } else if a == '=' {
        Some((Token::Cmp(CmpOp::Eq), i + 1))
    } else if a == '@' && b == Some('>') {
        Some((Token::Symbol(Symbol::Contains), i + 2))
    } else if a == '!' && b == Some('=') {
        Some((Token::Cmp(CmpOp::Ne), i + 2))
    } else if a == '>' {
        if b == Some('=') {
            Some((Token::Cmp(CmpOp::Ge), i + 2))
        } else {
            Some((Token::Cmp(CmpOp::Gt), i + 1))
        }
    } else if a == '<' {
        if b == Some('-') && c == Some('>') {
            Some((Token::Metric(DistanceOp::L2), i + 3))
        } else if b == Some('=') && c == Some('>') {
            Some((Token::Metric(DistanceOp::Cosine), i + 3))
        } else if b == Some('#') && c == Some('>') {
            Some((Token::Metric(DistanceOp::InnerProduct), i + 3))
        } else if b == Some('=') {
            Some((Token::Cmp(CmpOp::Le), i + 2))
        } else if b == Some('>') {
            Some((Token::Cmp(CmpOp::Ne), i + 2))
        } else {
            Some((Token::Cmp(CmpOp::Lt), i + 1))
        }
    } else {
        None
    }
}

/// The token at position `i`, and the position behind it.
fn exec_token_at(cs: &Vec<char>, i: usize) -> (r: Option<(Token, usize)>)
    requires
        i < cs.len(),
    ensures
        match (r, token_at(cs@.skip(i as int))) {
            (Some((t, e)), Some((u, n))) => t@ == u && e == i + n && i < e <= cs.len(),
            (None, None) => true,
            _ => false,
        },
{
    let ghost s = cs@.skip(i as int);
    let c: char = cs[i];
    if exec_starts_word(c) {
        let e: usize = word_end(cs, i);
        let w: String = string_of(cs, i, e);
        assert(w@ =~= s.take(e - i));
        match find_keyword(w.as_str()) {
            Some(k) => Some((Token::Keyword(k), e)),
            None => Some((Token::Ident(w), e)),
        }
    } else if exec_is_digit(c) {
        Some(exec_number_at(cs, i, false))
    } else if c == '-' {
        if i + 1 < cs.len() && exec_is_digit(cs[i + 1]) {
            assert(s.skip(1) =~= cs@.skip(i + 1));
            Some(exec_number_at(cs, i + 1, true))
        } else {
            None
        }
    } else if c == '$' {
        assert(s.skip(1) =~= cs@.skip(i + 1));
        if i + 1 < cs.len() && exec_is_digit(cs[i + 1]) {
            let e: usize = digits_end(cs, i + 1);
            let ds: Vec<char> = slice_of(cs, i + 1, e);
            assert(ds@ =~= s.skip(1).take(e - i - 1));
            Some((Token::Ordinal(ds), e))
        } else if i + 1 < cs.len() && exec_starts_word(cs[i + 1]) {
            let e: usize = word_end(cs, i + 1);
            let w: String = string_of(cs, i + 1, e);
            assert(w@ =~= s.skip(1).take(e - i - 1));
            match find_keyword(w.as_str()) {
                Some(_) => None,
                None => Some((Token::Name(w), e)),
            }
        } else {
            None
        }
    } else if c == '\'' {
        assert(s.skip(1) =~= cs@.skip(i + 1));
        let e: usize = quote_end(cs, i + 1);
        if e < cs.len() {
            let w: String = string_of(cs, i + 1, e);
            assert(w@ =~= s.skip(1).take(e - i - 1));
            Some((Token::Quoted(w), e + 1))
        } else {
            None
        }
    } else {
        exec_mark_at(cs, i)
    }
}

/// The tokens of a source text, and where each starts; the last entry of
/// `starts` is the end of the text.
pub struct Lexed {
    pub tokens: Vec<Token>,
    pub starts: Vec<usize>,
}

/// Splits the source text `cs` into tokens. The error is the position of the
/// first character that starts no token.
pub fn tokenize(cs: &Vec<char>) -> (r: Result<Lexed, usize>)
    ensures
        match r {
            Ok(l) => {
                &&& lex(cs@) == Ok::<Seq<Tok>, nat>(toks(l.tokens@))
                &&& l.starts.len() == l.tokens.len() + 1
                &&& forall|n: int| 0 <= n < l.tokens.len() ==> tok_wf((#[trigger] l.tokens@[n])@)
                &&& forall|n: int|
                    0 <= n <= l.tokens.len() ==> #[trigger] l.starts@[n] + tail(cs@, n as nat).len()
                        == cs.len()
            },
            Err(e) => e < cs.len() && lex(cs@) == Err::<Seq<Tok>, nat>((cs.len() - e) as nat),
        },
{
    let mut tokens: Vec<Token> = Vec::new();
    let mut starts: Vec<usize> = Vec::new();
    let mut i: usize = 0;
    let ghost s = cs@;
    assert(s.skip(0) =~= s);
    assert(toks(tokens@) =~= Seq::<Tok>::empty());
    proof {
        match lex(s) {
            Ok(more) => {
                assert(Seq::<Tok>::empty() + more =~= more);
            },
            Err(_) => {},
        }
    }
    while i < cs.len()
        invariant
            s == cs@,
            i <= cs.len(),
            starts.len() == tokens.len(),
            forall|n: int| 0 <= n < tokens.len() ==> tok_wf((#[trigger] tokens@[n])@),
            lex(s) == prepend(toks(tokens@), lex(s.skip(i as int))),
            forall|m: nat|
                tail(s, tokens@.len() + m) == #[trigger] tail(s.skip(i as int), m),
            forall|n: int|
                0 <= n < tokens.len() ==> #[trigger] starts@[n] + tail(s, n as nat).len() == s.len(),
        decreases cs.len() - i,
    {
        let ghost rest = s.skip(i as int);
        if exec_is_space(cs[i]) {
            proof {
                assert(rest.skip(1) =~= s.skip(i + 1));
                assert forall|m: nat|
                    tail(s, tokens@.len() + m) == #[trigger] tail(s.skip(i + 1), m) by {
                    assert(tail(rest, m) == tail(s.skip(i + 1), m));
                }
            }
            i = i + 1;
        } else {
            match exec_token_at(cs, i) {
                Some((t, e)) => {
                    let ghost before = tokens@;
                    proof {
                        lemma_token_wf(rest);
                        assert(tail(rest, 0) == rest);
                        assert(rest.skip(e - i) =~= s.skip(e as int));
                        match lex(s.skip(e as int)) {
                            Ok(more) => {
                                assert(toks(before) + (seq![t@] + more) =~= toks(before.push(t))
                                    + more);
                            },
                            Err(_) => {},
                        }
                        assert forall|m: nat|
                            tail(s, before.len() + 1 + m) == #[trigger] tail(
                                s.skip(e as int),
                                m,
                            ) by {
                            assert(tail(rest, m + 1) == tail(s.skip(e as int), m));
                            assert(before.len() + (m + 1) == before.len() + 1 + m);
                        }
                    }
                    starts.push(i);
                    tokens.push(t);
                    i = e;
                },
                None => {
                    return Err(i);
                },
            }
        }
    }
    starts.push(i);
    proof {
        assert(s.skip(i as int) =~= Seq::<char>::empty());
        assert(toks(tokens@) + Seq::<Tok>::empty() =~= toks(tokens@));
        assert(tail(s.skip(i as int), 0).len() == 0);
        assert(tail(s, tokens@.len() + 0nat) == tail(s.skip(i as int), 0));
    }
    Ok(Lexed { tokens, starts })
}

} // verus!
