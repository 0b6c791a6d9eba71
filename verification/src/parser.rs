//! Parser: source text to [`AstStatement`].

use crate::ast::{
    opt_predicate, views, AstAssignment, AstCreateIndex, AstDelete, AstDistance, AstDropIndex,
    AstExpr, AstFieldRef, AstInsert, AstInsertSource, AstLiteral, AstOrderBy, AstPredicate,
    AstProjection, AstQuery, AstStatement, AstUpdate, AstVacuum, CmpOp, DistanceOp, IndexMethod,
    OrderDir, ParamRef,
};
use crate::bignat::BigNat;
use crate::grammar::{
    and_expr, and_tail, array_contains_atom, at_distance, at_keyword, at_param, at_symbol, at_word,
    atom, atom_or_parens, atom_value, base_projection, between_atom, column_list, comparison_atom,
    conjunction, conjuncts, create_index_stmt, decimal32, decimal64, delete_stmt, direction,
    disjunction, disjuncts, distance_expr, distance_threshold, drop_index_stmt, field_projection,
    field_ref, identifier, identifiers, in_atom, index_method, indexed_field, insert_stmt,
    is_null_atom, items, keyword, limit_clause, literal, literals, lone_predicate, more_items,
    not_expr, number_literal, or_expr, or_tail, order_by_clause, order_by_item, order_by_items,
    param, prepend_item, prepend_items, program, row_value, row_values, select_item, select_items,
    select_list, select_stmt, set_assignment, set_assignments, signed_value, statement,
    string_literal, symbol, update_stmt, vacuum_stmt, values_clause, where_clause, Parsed, Rest,
};
use crate::error::{Failure, KovaQueryError};
use crate::ieee::{format32, format64, round};
use crate::keyword::{eq_ignore_case, Keyword};
use crate::lexer::{lex, tail, tok_wf, tokenize, toks, Lexed, Symbol, Tok, Token};
use crate::syntax::{Literal, Pred, Proj, Stmt};
use crate::text::{
    all_digits, chars_of, extend_big, numeral, numeral_up_to, numeral_value, push_numeral,
};
use vstd::prelude::*;

verus! {

/// The tokens of one source text.
pub struct KqlParser {
    tokens: Vec<Token>,
}

impl KqlParser {
    /// All tokens.
    pub closed spec fn all(&self) -> Seq<Tok> {
        toks(self.tokens@)
    }

    /// The tokens from position `i` on.
    pub open spec fn rest(&self, i: int) -> Seq<Tok> {
        self.all().skip(i)
    }

    /// Digits where digits are expected.
    pub open spec fn wf(&self) -> bool {
        forall|i: int| 0 <= i < self.all().len() ==> tok_wf(#[trigger] self.all()[i])
    }

    /// Whether a position and the tokens that follow agree with `p`; a failed
    /// step names the offending position.
    pub open spec fn follows(&self, r: Result<usize, usize>, p: Rest) -> bool {
        match (r, p) {
            (Ok(j), Ok(ts)) => j <= self.all().len() && ts == self.rest(j as int),
            (Err(e), Err(n)) => e <= self.all().len() && n + e == self.all().len(),
            _ => false,
        }
    }

    /// Whether what was read, seen through `f`, agrees with `p`.
    pub open spec fn agrees_as<T, X>(
        &self,
        r: Result<(T, usize), usize>,
        f: spec_fn(T) -> X,
        p: Parsed<X>,
    ) -> bool {
        match (r, p) {
            (Ok((x, j)), Ok((y, ts))) => f(x) == y && j <= self.all().len() && ts == self.rest(
                j as int,
            ),
            (Err(e), Err(n)) => e <= self.all().len() && n + e == self.all().len(),
            _ => false,
        }
    }

    /// Whether what was read agrees with `p`.
    pub open spec fn agrees<T: View>(&self, r: Result<(T, usize), usize>, p: Parsed<T::V>) -> bool {
        match (r, p) {
            (Ok((x, j)), Ok((y, ts))) => x@ == y && j <= self.all().len() && ts == self.rest(
                j as int,
            ),
            (Err(e), Err(n)) => e <= self.all().len() && n + e == self.all().len(),
            _ => false,
        }
    }

    /// Whether the list that was read agrees with `p`.
    pub open spec fn agrees_all<T: View>(
        &self,
        r: Result<(Vec<T>, usize), usize>,
        p: Parsed<Seq<T::V>>,
    ) -> bool {
        match (r, p) {
            (Ok((x, j)), Ok((y, ts))) => views(x@) == y && j <= self.all().len() && ts
                == self.rest(j as int),
            (Err(e), Err(n)) => e <= self.all().len() && n + e == self.all().len(),
            _ => false,
        }
    }

    proof fn lemma_rest(&self, i: int)
        requires
            0 <= i <= self.all().len(),
        ensures
            self.rest(i).len() == self.all().len() - i,
            self.all().len() == self.tokens.len(),
            i < self.all().len() ==> self.rest(i)[0] == self.tokens@[i]@ && self.rest(i).skip(1)
                == self.rest(i + 1) && self.rest(i)[0] == self.all()[i],
            i + 1 < self.all().len() ==> self.rest(i)[1] == self.tokens@[i + 1]@ && self.rest(
                i,
            ).skip(2) == self.rest(i + 2) && self.rest(i)[1] == self.all()[i + 1],
    {
        if i < self.all().len() {
            assert(self.rest(i).skip(1) =~= self.rest(i + 1));
        }
        if i + 1 < self.all().len() {
            assert(self.rest(i).skip(2) =~= self.rest(i + 2));
        }
    }

    fn is_keyword(&self, i: usize, k: Keyword) -> (r: bool)
        requires
            i <= self.all().len(),
        ensures
            r == at_keyword(self.rest(i as int), k),
            r ==> i < self.all().len() <= usize::MAX && self.rest(i as int).skip(1) == self.rest(i + 1),
            self.rest(i as int).len() == self.all().len() - i,
    {
        proof {
            self.lemma_rest(i as int);
        }
        i < self.tokens.len() && match &self.tokens[i] {
            Token::Keyword(j) => *j == k,
            _ => false,
        }
    }

    fn is_symbol(&self, i: usize, s: Symbol) -> (r: bool)
        requires
            i <= self.all().len(),
        ensures
            r == at_symbol(self.rest(i as int), s),
            r ==> i < self.all().len() <= usize::MAX && self.rest(i as int).skip(1) == self.rest(i + 1),
            self.rest(i as int).len() == self.all().len() - i,
    {
        proof {
            self.lemma_rest(i as int);
        }
        i < self.tokens.len() && match &self.tokens[i] {
            Token::Symbol(t) => *t == s,
            _ => false,
        }
    }

    /// Whether an identifier that is `word` up to letter case stands at `i`.
    fn is_word(&self, i: usize, word: &str) -> (r: bool)
        requires
            i <= self.all().len(),
        ensures
            r == at_word(self.rest(i as int), word@),
            r ==> i < self.all().len() <= usize::MAX && self.rest(i as int).skip(1) == self.rest(i + 1),
            self.rest(i as int).len() == self.all().len() - i,
    {
        proof {
            self.lemma_rest(i as int);
        }
        i < self.tokens.len() && match &self.tokens[i] {
            Token::Ident(w) => eq_ignore_case(w.as_str(), word),
            _ => false,
        }
    }

    fn is_distance(&self, i: usize) -> (r: bool)
        requires
            i <= self.all().len(),
        ensures
            r == at_distance(self.rest(i as int)),
            r ==> i + 1 < self.all().len(),
            self.rest(i as int).len() == self.all().len() - i,
    {
        proof {
            self.lemma_rest(i as int);
        }
        self.is_word(i, "EMBEDDING") && i + 1 < self.tokens.len() && match &self.tokens[i + 1] {
            Token::Metric(_) => true,
            _ => false,
        }
    }

    /// Steps over the keyword `k`.
    fn eat_keyword(&self, i: usize, k: Keyword) -> (r: Result<usize, usize>)
        requires
            i <= self.all().len(),
        ensures
            self.follows(r, keyword(self.rest(i as int), k)),
    {
        if self.is_keyword(i, k) {
            Ok(i + 1)
        } else {
            Err(i)
        }
    }

    /// Steps over the punctuation mark `s`.
    fn eat_symbol(&self, i: usize, s: Symbol) -> (r: Result<usize, usize>)
        requires
            i <= self.all().len(),
        ensures
            self.follows(r, symbol(self.rest(i as int), s)),
    {
        if self.is_symbol(i, s) {
            Ok(i + 1)
        } else {
            Err(i)
        }
    }

    /// `identifier`
    fn parse_identifier(&self, i: usize) -> (r: Result<(String, usize), usize>)
        requires
            i <= self.all().len(),
        ensures
            self.agrees(r, identifier(self.rest(i as int))),
    {
        proof {
            self.lemma_rest(i as int);
        }
        if i < self.tokens.len() {
            match &self.tokens[i] {
                Token::Ident(w) => {
                    return Ok((w.clone(), i + 1));
                },
                _ => {},
            }
        }
        Err(i)
    }

    /// `table_ref = identifier`
    pub fn parse_table_ref(&self, i: usize) -> (r: Result<(String, usize), usize>)
        requires
            i <= self.all().len(),
        ensures
            self.agrees(r, identifier(self.rest(i as int))),
    {
        self.parse_identifier(i)
    }

    /// `param`, positional or named.
    pub fn parse_param(&self, i: usize) -> (r: Result<(ParamRef, usize), usize>)
        requires
            i <= self.all().len(),
            self.wf(),
        ensures
            self.agrees(r, param(self.rest(i as int))),
    {
        proof {
            self.lemma_rest(i as int);
        }
        if i < self.tokens.len() {
            match &self.tokens[i] {
                Token::Ordinal(ds) => {
                    proof {
                        assert(tok_wf(self.all()[i as int]));
                        assert(ds@.subrange(0, ds.len() as int) =~= ds@);
                    }
                    match numeral_up_to(ds, 0, ds.len(), 0xffff_ffff) {
                        Some(n) => {
                            return Ok((ParamRef::Positional(n as u32), i + 1));
                        },
                        None => {},
                    }
                },
                Token::Name(w) => {
                    return Ok((ParamRef::Named(w.clone()), i + 1));
                },
                _ => {},
            }
        }
        Err(i)
    }

    /// The characters between the quotes of a `string_literal`.
    pub fn parse_string_literal(&self, i: usize) -> (r: Result<(String, usize), usize>)
        requires
            i <= self.all().len(),
        ensures
            self.agrees(r, string_literal(self.rest(i as int))),
    {
        proof {
            self.lemma_rest(i as int);
        }
        if i < self.tokens.len() {
            match &self.tokens[i] {
                Token::Quoted(w) => {
                    return Ok((w.clone(), i + 1));
                },
                _ => {},
            }
        }
        Err(i)
    }

    /// A `number_literal`: presence of a decimal point splits
    /// [`AstLiteral::F64`] from [`AstLiteral::I64`].
    pub fn parse_number_literal(&self, i: usize) -> (r: Result<(AstLiteral, usize), usize>)
        requires
            i <= self.all().len(),
            self.wf(),
        ensures
            self.agrees(r, number_literal(self.rest(i as int))),
    {
        proof {
            self.lemma_rest(i as int);
        }
        if i < self.tokens.len() {
            assert(tok_wf(self.all()[i as int]));
            match &self.tokens[i] {
                Token::Number(neg, whole, Some(frac)) => {
                    return Ok((AstLiteral::F64(exec_decimal64(*neg, whole, frac)), i + 1));
                },
                Token::Number(neg, whole, None) => {
                    match exec_signed(*neg, whole) {
                        Some(n) => {
                            return Ok((AstLiteral::I64(n), i + 1));
                        },
                        None => {},
                    }
                },
                _ => {},
            }
        }
        Err(i)
    }

    /// Case-insensitive boolean.
    pub fn parse_boolean_literal(&self, i: usize) -> (r: Option<bool>)
        requires
            i <= self.all().len(),
        ensures
            match r {
                Some(b) => at_keyword(
                    self.rest(i as int),
                    if b {
                        Keyword::True
                    } else {
                        Keyword::False
                    },
                ),
                None => !at_keyword(self.rest(i as int), Keyword::True) && !at_keyword(
                    self.rest(i as int),
                    Keyword::False,
                ),
            },
    {
        if self.is_keyword(i, Keyword::True) {
            Some(true)
        } else if self.is_keyword(i, Keyword::False) {
            Some(false)
        } else {
            None
        }
    }

    /// `literal = string_literal | number_literal | boolean_literal |
    /// null_literal`
    pub fn parse_literal(&self, i: usize) -> (r: Result<(AstLiteral, usize), usize>)
        requires
            i <= self.all().len(),
            self.wf(),
        ensures
            self.agrees(r, literal(self.rest(i as int))),
    {
        proof {
            self.lemma_rest(i as int);
        }
        match self.parse_string_literal(i) {
            Ok((s, j)) => {
                return Ok((AstLiteral::String(s), j));
            },
            Err(_) => {},
        }
        match self.parse_boolean_literal(i) {
            Some(b) => {
                return Ok((AstLiteral::Bool(b), i + 1));
            },
            None => {},
        }
        if self.is_keyword(i, Keyword::Null) {
            return Ok((AstLiteral::Null, i + 1));
        }
        self.parse_number_literal(i)
    }

    /// Whether a parameter stands at `i`.
    fn is_param(&self, i: usize) -> (r: bool)
        requires
            i <= self.all().len(),
        ensures
            r == at_param(self.rest(i as int)),
    {
        proof {
            self.lemma_rest(i as int);
        }
        i < self.tokens.len() && match &self.tokens[i] {
            Token::Ordinal(_) => true,
            Token::Name(_) => true,
            _ => false,
        }
    }

    /// `atom_value = literal | param`
    pub fn parse_atom_value(&self, i: usize) -> (r: Result<(AstExpr, usize), usize>)
        requires
            i <= self.all().len(),
            self.wf(),
        ensures
            self.agrees(r, atom_value(self.rest(i as int))),
    {
        if self.is_param(i) {
            match self.parse_param(i) {
                Ok((p, j)) => Ok((AstExpr::Param(p), j)),
                Err(e) => Err(e),
            }
        } else {
            match self.parse_literal(i) {
                Ok((l, j)) => Ok((AstExpr::Literal(l), j)),
                Err(e) => Err(e),
            }
        }
    }

    /// The metric at `i`, if one stands there.
    pub fn parse_distance_op(&self, i: usize) -> (r: Option<DistanceOp>)
        requires
            i < self.all().len(),
        ensures
            match r {
                Some(op) => self.all()[i as int] == Tok::Metric(op),
                None => !(self.all()[i as int] is Metric),
            },
    {
        proof {
            self.lemma_rest(i as int);
        }
        match &self.tokens[i] {
            Token::Metric(op) => Some(*op),
            _ => None,
        }
    }

    /// `distance_expr = "embedding" distance_op param`
    pub fn parse_distance_expr(&self, i: usize) -> (r: Result<(AstDistance, usize), usize>)
        requires
            i <= self.all().len(),
            self.wf(),
            at_distance(self.rest(i as int)),
        ensures
            self.agrees(r, distance_expr(self.rest(i as int))),
    {
        proof {
            self.lemma_rest(i as int);
        }
        match self.parse_distance_op(i + 1) {
            Some(metric) => match self.parse_param(i + 2) {
                Ok((param, j)) => Ok((AstDistance { metric, param }, j)),
                Err(e) => Err(e),
            },
            None => Err(i),
        }
    }

    /// `field_ref = identifier ("[" string_literal "]")?`
    pub fn parse_field_ref(&self, i: usize) -> (r: Result<(AstFieldRef, usize), usize>)
        requires
            i <= self.all().len(),
        ensures
            self.agrees(r, field_ref(self.rest(i as int))),
    {
        match self.parse_identifier(i) {
            Ok((name, j)) => if self.is_symbol(j, Symbol::LeftBracket) {
                match self.parse_string_literal(j + 1) {
                    Ok((key, k)) => match self.eat_symbol(k, Symbol::RightBracket) {
                        Ok(l) => Ok((AstFieldRef { name, subscript: Some(key) }, l)),
                        Err(e) => Err(e),
                    },
                    Err(e) => Err(e),
                }
            } else {
                Ok((AstFieldRef { name, subscript: None }, j))
            },
            Err(e) => Err(e),
        }
    }

    /// `identifier ("," identifier)*`
    fn parse_identifiers(&self, i: usize) -> (r: Result<(Vec<String>, usize), usize>)
        requires
            i <= self.all().len(),
            self.wf(),
        ensures
            self.agrees_all(r, items(identifiers(), self.rest(i as int))),
    {
        let (first, start): (String, usize) = match self.parse_identifier(i) {
            Ok(x) => x,
            Err(e) => {
                return Err(e);
            },
        };
        let mut found: Vec<String> = Vec::new();
        let ghost x = first@;
        found.push(first);
        let mut j: usize = start;
        proof {
            assert(views(found@) =~= seq![x]);
        }
        while self.is_symbol(j, Symbol::Comma)
            invariant
                j <= self.all().len(),
                self.wf(),
                items(identifiers(), self.rest(i as int)) == prepend_items(
                    views(found@),
                    more_items(identifiers(), self.rest(j as int)),
                ),
            decreases self.all().len() - j,
        {
            let ghost before = found@;
            let (next, k): (String, usize) = match self.parse_identifier(j + 1) {
                Ok(x) => x,
                Err(e) => {
                    return Err(e);
                },
            };
            proof {
                self.lemma_rest(j as int);
                self.lemma_rest(k as int);
                lemma_progress_identifiers(self.rest(j + 1));
                lemma_prepend(views(before), next@, more_items(identifiers(), self.rest(k as int)));
                assert(views(before.push(next)) =~= views(before).push(next@));
            }
            found.push(next);
            j = k;
        }
        proof {
            assert(views(found@) + Seq::empty() =~= views(found@));
        }
        Ok((found, j))
    }

    /// `literal ("," literal)*`
    fn parse_literals(&self, i: usize) -> (r: Result<(Vec<AstLiteral>, usize), usize>)
        requires
            i <= self.all().len(),
            self.wf(),
        ensures
            self.agrees_all(r, items(literals(), self.rest(i as int))),
    {
        let (first, start): (AstLiteral, usize) = match self.parse_literal(i) {
            Ok(x) => x,
            Err(e) => {
                return Err(e);
            },
        };
        let mut found: Vec<AstLiteral> = Vec::new();
        let ghost x = first@;
        found.push(first);
        let mut j: usize = start;
        proof {
            assert(views(found@) =~= seq![x]);
        }
        while self.is_symbol(j, Symbol::Comma)
            invariant
                j <= self.all().len(),
                self.wf(),
                items(literals(), self.rest(i as int)) == prepend_items(
                    views(found@),
                    more_items(literals(), self.rest(j as int)),
                ),
            decreases self.all().len() - j,
        {
            let ghost before = found@;
            let (next, k): (AstLiteral, usize) = match self.parse_literal(j + 1) {
                Ok(x) => x,
                Err(e) => {
                    return Err(e);
                },
            };
            proof {
                self.lemma_rest(j as int);
                self.lemma_rest(k as int);
                lemma_progress_literals(self.rest(j + 1));
                lemma_prepend(views(before), next@, more_items(literals(), self.rest(k as int)));
                assert(views(before.push(next)) =~= views(before).push(next@));
            }
            found.push(next);
            j = k;
        }
        proof {
            assert(views(found@) + Seq::empty() =~= views(found@));
        }
        Ok((found, j))
    }

    /// The token at position `i`.
    pub open spec fn at(&self, i: usize) -> Tok {
        self.all()[i as int]
    }

    /// The comparison operator at `i`, if one stands there.
    pub fn parse_comparison_op(&self, i: usize) -> (r: Option<CmpOp>)
        requires
            i <= self.all().len(),
        ensures
            match r {
                Some(op) => i < self.all().len() && self.at(i) == Tok::Cmp(op),
                None => i == self.all().len() || !(self.at(i) is Cmp),
            },
    {
        proof {
            self.lemma_rest(i as int);
        }
        if i < self.tokens.len() {
            match &self.tokens[i] {
                Token::Cmp(op) => {
                    return Some(*op);
                },
                _ => {},
            }
        }
        None
    }

    /// The 32-bit value nearest to the number at `i`, if one stands there.
    fn parse_radius(&self, i: usize) -> (r: Option<u32>)
        requires
            i <= self.all().len(),
            self.wf(),
        ensures
            match r {
                Some(b) => {
                    &&& i < self.all().len()
                    &&& self.at(i) is Number
                    &&& b == decimal32(
                        self.at(i)->Number_0,
                        self.at(i)->Number_1,
                        match self.at(i)->Number_2 {
                            Some(f) => f,
                            None => Seq::empty(),
                        },
                    )
                },
                None => i == self.all().len() || !(self.at(i) is Number),
            },
    {
        proof {
            self.lemma_rest(i as int);
        }
        if i < self.tokens.len() {
            assert(tok_wf(self.all()[i as int]));
            match &self.tokens[i] {
                Token::Number(neg, whole, Some(frac)) => {
                    return Some(exec_decimal32(*neg, whole, frac));
                },
                Token::Number(neg, whole, None) => {
                    let none: Vec<char> = Vec::new();
                    return Some(exec_decimal32(*neg, whole, &none));
                },
                _ => {},
            }
        }
        None
    }

    /// `distance_threshold = distance_expr comparison_op number_literal`
    pub fn parse_distance_threshold(&self, i: usize) -> (r: Result<(AstPredicate, usize), usize>)
        requires
            i <= self.all().len(),
            self.wf(),
            at_distance(self.rest(i as int)),
        ensures
            self.agrees(r, distance_threshold(self.rest(i as int))),
    {
        match self.parse_distance_expr(i) {
            Ok((d, j)) => {
                proof {
                    self.lemma_rest(j as int);
                }
                match self.parse_comparison_op(j) {
                    Some(op) => match self.parse_radius(j + 1) {
                        Some(radius) => Ok(
                            (AstPredicate::DistanceThreshold(d, op, radius), j + 2),
                        ),
                        None => Err(j + 1),
                    },
                    None => Err(j),
                }
            },
            Err(e) => Err(e),
        }
    }

    /// `between_atom`, from its keyword at `i` on.
    pub fn parse_between_atom(&self, field: AstFieldRef, i: usize) -> (r: Result<
        (AstPredicate, usize),
        usize,
    >)
        requires
            at_keyword(self.rest(i as int), Keyword::Between),
            i < self.all().len(),
            self.wf(),
        ensures
            self.agrees(r, between_atom(field@, self.rest(i as int))),
    {
        proof {
            self.lemma_rest(i as int);
        }
        match self.parse_literal(i + 1) {
            Ok((lo, j)) => match self.eat_keyword(j, Keyword::And) {
                Ok(k) => match self.parse_literal(k) {
                    Ok((hi, l)) => Ok((AstPredicate::Between(field, lo, hi), l)),
                    Err(e) => Err(e),
                },
                Err(e) => Err(e),
            },
            Err(e) => Err(e),
        }
    }

    /// `in_atom`, from its keyword at `i` on.
    pub fn parse_in_atom(&self, field: AstFieldRef, i: usize) -> (r: Result<
        (AstPredicate, usize),
        usize,
    >)
        requires
            at_keyword(self.rest(i as int), Keyword::In),
            i < self.all().len(),
            self.wf(),
        ensures
            self.agrees(r, in_atom(field@, self.rest(i as int))),
    {
        proof {
            self.lemma_rest(i as int);
        }
        match self.eat_symbol(i + 1, Symbol::LeftParen) {
            Ok(j) => match self.parse_literals(j) {
                Ok((values, k)) => match self.eat_symbol(k, Symbol::RightParen) {
                    Ok(l) => Ok((AstPredicate::In(field, values), l)),
                    Err(e) => Err(e),
                },
                Err(e) => Err(e),
            },
            Err(e) => Err(e),
        }
    }

    /// `is_null_atom`, from its keyword at `i` on.
    pub fn parse_is_null_atom(&self, field: AstFieldRef, i: usize) -> (r: Result<
        (AstPredicate, usize),
        usize,
    >)
        requires
            at_keyword(self.rest(i as int), Keyword::Is),
            i < self.all().len(),
        ensures
            self.agrees(r, is_null_atom(field@, self.rest(i as int))),
    {
        proof {
            self.lemma_rest(i as int);
        }
        let negated: bool = self.is_keyword(i + 1, Keyword::Not);
        let j: usize = if negated {
            i + 2
        } else {
            i + 1
        };
        match self.eat_keyword(j, Keyword::Null) {
            Ok(k) => Ok((AstPredicate::IsNull(field, negated), k)),
            Err(e) => Err(e),
        }
    }

    /// `array_contains_atom`, from its operator at `i` on.
    pub fn parse_array_contains_atom(&self, field: AstFieldRef, i: usize) -> (r: Result<
        (AstPredicate, usize),
        usize,
    >)
        requires
            at_symbol(self.rest(i as int), Symbol::Contains),
            i < self.all().len(),
            self.wf(),
        ensures
            self.agrees(r, array_contains_atom(field@, self.rest(i as int))),
    {
        proof {
            self.lemma_rest(i as int);
        }
        match self.parse_literal(i + 1) {
            Ok((value, j)) => Ok((AstPredicate::ArrayContains(field, value), j)),
            Err(e) => Err(e),
        }
    }

    /// `comparison_atom`, from its operator at `i` on. `=` makes an
    /// [`AstPredicate::Eq`]; all other operators an [`AstPredicate::Cmp`].
    pub fn parse_comparison_atom(&self, field: AstFieldRef, i: usize) -> (r: Result<
        (AstPredicate, usize),
        usize,
    >)
        requires
            i <= self.all().len(),
            self.wf(),
        ensures
            self.agrees(r, comparison_atom(field@, self.rest(i as int))),
    {
        proof {
            self.lemma_rest(i as int);
        }
        match self.parse_comparison_op(i) {
            Some(op) => match self.parse_atom_value(i + 1) {
                Ok((value, j)) => match op {
                    CmpOp::Eq => Ok((AstPredicate::Eq(field, value), j)),
                    _ => Ok((AstPredicate::Cmp(field, op, value), j)),
                },
                Err(e) => Err(e),
            },
            None => Err(i),
        }
    }

    /// `atom = distance_threshold | between_atom | in_atom | is_null_atom |
    /// array_contains_atom | comparison_atom`
    pub fn parse_atom(&self, i: usize) -> (r: Result<(AstPredicate, usize), usize>)
        requires
            i <= self.all().len(),
            self.wf(),
        ensures
            self.agrees(r, atom(self.rest(i as int))),
    {
        if self.is_distance(i) {
            self.parse_distance_threshold(i)
        } else {
            match self.parse_field_ref(i) {
                Ok((field, j)) => if self.is_keyword(j, Keyword::Between) {
                    self.parse_between_atom(field, j)
                } else if self.is_keyword(j, Keyword::In) {
                    self.parse_in_atom(field, j)
                } else if self.is_keyword(j, Keyword::Is) {
                    self.parse_is_null_atom(field, j)
                } else if self.is_symbol(j, Symbol::Contains) {
                    self.parse_array_contains_atom(field, j)
                } else {
                    self.parse_comparison_atom(field, j)
                },
                Err(e) => Err(e),
            }
        }
    }

    /// `predicate = or_expr`
    pub fn parse_predicate(&self, i: usize) -> (r: Result<(AstPredicate, usize), usize>)
        requires
            i <= self.all().len(),
            self.wf(),
        ensures
            self.agrees(r, or_expr(self.rest(i as int))),
        decreases self.all().len() - i, 6int,
    {
        self.parse_or_expr(i)
    }

    /// `or_expr = and_expr (OR and_expr)*`. Several terms produce an
    /// [`AstPredicate::Or`]; a single term collapses through.
    pub fn parse_or_expr(&self, i: usize) -> (r: Result<(AstPredicate, usize), usize>)
        requires
            i <= self.all().len(),
            self.wf(),
        ensures
            self.agrees(r, or_expr(self.rest(i as int))),
        decreases self.all().len() - i, 5int,
    {
        let (first, start): (AstPredicate, usize) = match self.parse_and_expr(i) {
            Ok(x) => x,
            Err(e) => {
                return Err(e);
            },
        };
        let mut terms: Vec<AstPredicate> = disjunct_list(first);
        let mut j: usize = start;
        proof {
            lemma_progress_and(self.rest(i as int));
            self.lemma_rest(i as int);
            self.lemma_rest(j as int);
        }
        while self.is_keyword(j, Keyword::Or)
            invariant
                i < j <= self.all().len(),
                self.wf(),
                or_expr(self.rest(i as int)) == disjunction_of(
                    prepend_items(views(terms@), or_tail(self.rest(j as int))),
                ),
            decreases self.all().len() - j,
        {
            let ghost before = terms@;
            let (next, k): (AstPredicate, usize) = match self.parse_and_expr(j + 1) {
                Ok(x) => x,
                Err(e) => {
                    return Err(e);
                },
            };
            let ghost p = next@;
            let mut more: Vec<AstPredicate> = disjunct_list(next);
            proof {
                lemma_progress_and(self.rest(j + 1));
                self.lemma_rest(j as int);
                self.lemma_rest(k as int);
                lemma_prepend_more(
                    views(before),
                    disjuncts(p),
                    or_tail(self.rest(k as int)),
                );
                assert(views(before + more@) =~= views(before) + views(more@));
            }
            terms.append(&mut more);
            j = k;
        }
        proof {
            assert(views(terms@) + Seq::empty() =~= views(terms@));
        }
        Ok((disjunction_ast(terms), j))
    }

    /// `and_expr = not_expr (AND not_expr)*`. Several terms produce an
    /// [`AstPredicate::And`]; a single term collapses through.
    pub fn parse_and_expr(&self, i: usize) -> (r: Result<(AstPredicate, usize), usize>)
        requires
            i <= self.all().len(),
            self.wf(),
        ensures
            self.agrees(r, and_expr(self.rest(i as int))),
        decreases self.all().len() - i, 3int,
    {
        let (first, start): (AstPredicate, usize) = match self.parse_not_expr(i) {
            Ok(x) => x,
            Err(e) => {
                return Err(e);
            },
        };
        let mut terms: Vec<AstPredicate> = conjunct_list(first);
        let mut j: usize = start;
        proof {
            lemma_progress_not(self.rest(i as int));
            self.lemma_rest(i as int);
            self.lemma_rest(j as int);
        }
        while self.is_keyword(j, Keyword::And)
            invariant
                i < j <= self.all().len(),
                self.wf(),
                and_expr(self.rest(i as int)) == conjunction_of(
                    prepend_items(views(terms@), and_tail(self.rest(j as int))),
                ),
            decreases self.all().len() - j,
        {
            let ghost before = terms@;
            let (next, k): (AstPredicate, usize) = match self.parse_not_expr(j + 1) {
                Ok(x) => x,
                Err(e) => {
                    return Err(e);
                },
            };
            let ghost p = next@;
            let mut more: Vec<AstPredicate> = conjunct_list(next);
            proof {
                lemma_progress_not(self.rest(j + 1));
                self.lemma_rest(j as int);
                self.lemma_rest(k as int);
                lemma_prepend_more(
                    views(before),
                    conjuncts(p),
                    and_tail(self.rest(k as int)),
                );
                assert(views(before + more@) =~= views(before) + views(more@));
            }
            terms.append(&mut more);
            j = k;
        }
        proof {
            assert(views(terms@) + Seq::empty() =~= views(terms@));
        }
        Ok((conjunction_ast(terms), j))
    }

    /// `not_expr = NOT not_expr | atom_or_parens`
    pub fn parse_not_expr(&self, i: usize) -> (r: Result<(AstPredicate, usize), usize>)
        requires
            i <= self.all().len(),
            self.wf(),
        ensures
            self.agrees(r, not_expr(self.rest(i as int))),
        decreases self.all().len() - i, 1int,
    {
        if self.is_keyword(i, Keyword::Not) {
            match self.parse_not_expr(i + 1) {
                Ok((p, j)) => Ok((AstPredicate::Not(Box::new(p)), j)),
                Err(e) => Err(e),
            }
        } else {
            self.parse_atom_or_parens(i)
        }
    }

    /// `atom_or_parens = "(" predicate ")" | atom`
    pub fn parse_atom_or_parens(&self, i: usize) -> (r: Result<(AstPredicate, usize), usize>)
        requires
            i <= self.all().len(),
            self.wf(),
        ensures
            self.agrees(r, atom_or_parens(self.rest(i as int))),
        decreases self.all().len() - i, 0int,
    {
        if self.is_symbol(i, Symbol::LeftParen) {
            match self.parse_predicate(i + 1) {
                Ok((p, j)) => match self.eat_symbol(j, Symbol::RightParen) {
                    Ok(k) => Ok((p, k)),
                    Err(e) => Err(e),
                },
                Err(e) => Err(e),
            }
        } else {
            self.parse_atom(i)
        }
    }

    /// `distance_expr | COUNT "(" "*" ")" | identifier`
    fn parse_base_projection(&self, i: usize) -> (r: Result<(AstProjection, usize), usize>)
        requires
            i <= self.all().len(),
            self.wf(),
        ensures
            self.agrees(r, base_projection(self.rest(i as int))),
    {
        if self.is_distance(i) {
            match self.parse_distance_expr(i) {
                Ok((d, j)) => Ok((AstProjection::DistanceExpr(d), j)),
                Err(e) => Err(e),
            }
        } else if self.is_word(i, "COUNT") && self.is_symbol(i + 1, Symbol::LeftParen) {
            proof {
                self.lemma_rest(i as int);
            }
            match self.eat_symbol(i + 2, Symbol::Star) {
                Ok(j) => match self.eat_symbol(j, Symbol::RightParen) {
                    Ok(k) => Ok((AstProjection::CountStar, k)),
                    Err(e) => Err(e),
                },
                Err(e) => Err(e),
            }
        } else {
            match self.parse_identifier(i) {
                Ok((name, j)) => Ok((classify_field_projection(name.as_str()), j)),
                Err(e) => Err(e),
            }
        }
    }

    /// `select_item = (distance_expr | count_star | identifier) (AS
    /// identifier)?`
    pub fn parse_select_item(&self, i: usize) -> (r: Result<(AstProjection, usize), usize>)
        requires
            i <= self.all().len(),
            self.wf(),
        ensures
            self.agrees(r, select_item(self.rest(i as int))),
    {
        match self.parse_base_projection(i) {
            Ok((p, j)) => if self.is_keyword(j, Keyword::As) {
                match self.parse_identifier(j + 1) {
                    Ok((alias, k)) => Ok((AstProjection::Aliased(Box::new(p), alias), k)),
                    Err(e) => Err(e),
                }
            } else {
                Ok((p, j))
            },
            Err(e) => Err(e),
        }
    }

    /// `select_item ("," select_item)*`
    fn parse_select_items(&self, i: usize) -> (r: Result<(Vec<AstProjection>, usize), usize>)
        requires
            i <= self.all().len(),
            self.wf(),
        ensures
            self.agrees_all(r, items(select_items(), self.rest(i as int))),
    {
        let (first, start): (AstProjection, usize) = match self.parse_select_item(i) {
            Ok(x) => x,
            Err(e) => {
                return Err(e);
            },
        };
        let mut found: Vec<AstProjection> = Vec::new();
        let ghost x = first@;
        found.push(first);
        let mut j: usize = start;
        proof {
            assert(views(found@) =~= seq![x]);
        }
        while self.is_symbol(j, Symbol::Comma)
            invariant
                j <= self.all().len(),
                self.wf(),
                items(select_items(), self.rest(i as int)) == prepend_items(
                    views(found@),
                    more_items(select_items(), self.rest(j as int)),
                ),
            decreases self.all().len() - j,
        {
            let ghost before = found@;
            let (next, k): (AstProjection, usize) = match self.parse_select_item(j + 1) {
                Ok(x) => x,
                Err(e) => {
                    return Err(e);
                },
            };
            proof {
                self.lemma_rest(j as int);
                self.lemma_rest(k as int);
                lemma_progress_select_items(self.rest(j + 1));
                lemma_prepend(views(before), next@, more_items(select_items(), self.rest(k as int)));
                assert(views(before.push(next)) =~= views(before).push(next@));
            }
            found.push(next);
            j = k;
        }
        proof {
            assert(views(found@) + Seq::empty() =~= views(found@));
        }
        Ok((found, j))
    }

    /// `select_list = "*" | select_item ("," select_item)*`
    pub fn parse_select_list(&self, i: usize) -> (r: Result<(Vec<AstProjection>, usize), usize>)
        requires
            i <= self.all().len(),
            self.wf(),
        ensures
            self.agrees_all(r, select_list(self.rest(i as int))),
    {
        if self.is_symbol(i, Symbol::Star) {
            let mut found: Vec<AstProjection> = Vec::new();
            found.push(AstProjection::Wildcard);
            assert(views(found@) =~= seq![Proj::Wildcard]);
            Ok((found, i + 1))
        } else {
            self.parse_select_items(i)
        }
    }

    /// `(ASC | DESC)?`; ascending when left out.
    fn parse_direction(&self, i: usize) -> (r: (OrderDir, usize))
        requires
            i <= self.all().len(),
        ensures
            r.0 == direction(self.rest(i as int)).0,
            r.1 <= self.all().len(),
            self.rest(r.1 as int) == direction(self.rest(i as int)).1,
    {
        if self.is_keyword(i, Keyword::Desc) {
            (OrderDir::Desc, i + 1)
        } else if self.is_keyword(i, Keyword::Asc) {
            (OrderDir::Asc, i + 1)
        } else {
            (OrderDir::Asc, i)
        }
    }

    /// `order_by_item = (distance_expr | identifier) (ASC | DESC)?`
    pub fn parse_order_by_item(&self, i: usize) -> (r: Result<(AstOrderBy, usize), usize>)
        requires
            i <= self.all().len(),
            self.wf(),
        ensures
            self.agrees(r, order_by_item(self.rest(i as int))),
    {
        if self.is_distance(i) {
            match self.parse_distance_expr(i) {
                Ok((d, j)) => {
                    let (dir, k): (OrderDir, usize) = self.parse_direction(j);
                    Ok((AstOrderBy::Distance(d, dir), k))
                },
                Err(e) => Err(e),
            }
        } else {
            match self.parse_identifier(i) {
                Ok((name, j)) => {
                    let (dir, k): (OrderDir, usize) = self.parse_direction(j);
                    Ok((AstOrderBy::Field(name, dir), k))
                },
                Err(e) => Err(e),
            }
        }
    }

    /// `order_by_item ("," order_by_item)*`
    fn parse_order_by_items(&self, i: usize) -> (r: Result<(Vec<AstOrderBy>, usize), usize>)
        requires
            i <= self.all().len(),
            self.wf(),
        ensures
            self.agrees_all(r, items(order_by_items(), self.rest(i as int))),
    {
        let (first, start): (AstOrderBy, usize) = match self.parse_order_by_item(i) {
            Ok(x) => x,
            Err(e) => {
                return Err(e);
            },
        };
        let mut found: Vec<AstOrderBy> = Vec::new();
        let ghost x = first@;
        found.push(first);
        let mut j: usize = start;
        proof {
            assert(views(found@) =~= seq![x]);
        }
        while self.is_symbol(j, Symbol::Comma)
            invariant
                j <= self.all().len(),
                self.wf(),
                items(order_by_items(), self.rest(i as int)) == prepend_items(
                    views(found@),
                    more_items(order_by_items(), self.rest(j as int)),
                ),
            decreases self.all().len() - j,
        {
            let ghost before = found@;
            let (next, k): (AstOrderBy, usize) = match self.parse_order_by_item(j + 1) {
                Ok(x) => x,
                Err(e) => {
                    return Err(e);
                },
            };
            proof {
                self.lemma_rest(j as int);
                self.lemma_rest(k as int);
                lemma_progress_order_by_items(self.rest(j + 1));
                lemma_prepend(views(before), next@, more_items(order_by_items(), self.rest(k as int)));
                assert(views(before.push(next)) =~= views(before).push(next@));
            }
            found.push(next);
            j = k;
        }
        proof {
            assert(views(found@) + Seq::empty() =~= views(found@));
        }
        Ok((found, j))
    }

    /// `(ORDER BY order_by_item ("," order_by_item)*)?`
    pub fn parse_order_by_clause(&self, i: usize) -> (r: Result<(Vec<AstOrderBy>, usize), usize>)
        requires
            i <= self.all().len(),
            self.wf(),
        ensures
            self.agrees_all(r, order_by_clause(self.rest(i as int))),
    {
        if self.is_keyword(i, Keyword::Order) {
            match self.eat_keyword(i + 1, Keyword::By) {
                Ok(j) => self.parse_order_by_items(j),
                Err(e) => Err(e),
            }
        } else {
            let none: Vec<AstOrderBy> = Vec::new();
            assert(views(none@) =~= Seq::empty());
            Ok((none, i))
        }
    }

    /// `(LIMIT integer)?`
    pub fn parse_limit_clause(&self, i: usize) -> (r: Result<(Option<u64>, usize), usize>)
        requires
            i <= self.all().len(),
            self.wf(),
        ensures
            self.agrees_as(r, |n: Option<u64>| n, limit_clause(self.rest(i as int))),
    {
        if self.is_keyword(i, Keyword::Limit) {
            let j: usize = i + 1;
            proof {
                self.lemma_rest(j as int);
            }
            if j < self.tokens.len() {
                assert(tok_wf(self.all()[j as int]));
                match &self.tokens[j] {
                    Token::Number(false, ds, None) => {
                        assert(ds@.subrange(0, ds.len() as int) =~= ds@);
                        match numeral_up_to(ds, 0, ds.len(), u64::MAX) {
                            Some(n) => {
                                return Ok((Some(n), j + 1));
                            },
                            None => {},
                        }
                    },
                    _ => {},
                }
            }
            Err(j)
        } else {
            Ok((None, i))
        }
    }

    /// `(WHERE predicate)?`
    fn parse_where_clause(&self, i: usize) -> (r: Result<(Option<AstPredicate>, usize), usize>)
        requires
            i <= self.all().len(),
            self.wf(),
        ensures
            self.agrees_as(
                r,
                |p: Option<AstPredicate>| opt_predicate(p),
                where_clause(self.rest(i as int)),
            ),
    {
        if self.is_keyword(i, Keyword::Where) {
            match self.parse_predicate(i + 1) {
                Ok((p, j)) => Ok((Some(p), j)),
                Err(e) => Err(e),
            }
        } else {
            Ok((None, i))
        }
    }

    /// `select_stmt`, behind its first keyword.
    pub fn parse_select(&self, i: usize) -> (r: Result<(AstQuery, usize), usize>)
        requires
            i <= self.all().len(),
            self.wf(),
        ensures
            self.agrees_as(r, |q: AstQuery| Stmt::Select(q@), select_stmt(self.rest(i as int))),
    {
        match self.parse_select_list(i) {
            Ok((projection, j)) => match self.eat_keyword(j, Keyword::From) {
                Ok(k) => match self.parse_table_ref(k) {
                    Ok((from_table, l)) => match self.parse_where_clause(l) {
                        Ok((predicate, m)) => match self.parse_order_by_clause(m) {
                            Ok((order_by, n)) => match self.parse_limit_clause(n) {
                                Ok((limit, o)) => Ok(
                                    (
                                        AstQuery {
                                            projection,
                                            from_table,
                                            predicate,
                                            order_by,
                                            limit,
                                        },
                                        o,
                                    ),
                                ),
                                Err(e) => Err(e),
                            },
                            Err(e) => Err(e),
                        },
                        Err(e) => Err(e),
                    },
                    Err(e) => Err(e),
                },
                Err(e) => Err(e),
            },
            Err(e) => Err(e),
        }
    }

    /// `row_value = param`
    pub fn parse_row_value(&self, i: usize) -> (r: Result<(AstExpr, usize), usize>)
        requires
            i <= self.all().len(),
            self.wf(),
        ensures
            self.agrees(r, row_value(self.rest(i as int))),
    {
        match self.parse_param(i) {
            Ok((p, j)) => Ok((AstExpr::Param(p), j)),
            Err(e) => Err(e),
        }
    }

    /// `row_value ("," row_value)*`, between the parentheses of a row.
    pub fn parse_row_tuple(&self, i: usize) -> (r: Result<(Vec<AstExpr>, usize), usize>)
        requires
            i <= self.all().len(),
            self.wf(),
        ensures
            self.agrees_all(r, items(row_values(), self.rest(i as int))),
    {
        let (first, start): (AstExpr, usize) = match self.parse_row_value(i) {
            Ok(x) => x,
            Err(e) => {
                return Err(e);
            },
        };
        let mut found: Vec<AstExpr> = Vec::new();
        let ghost x = first@;
        found.push(first);
        let mut j: usize = start;
        proof {
            assert(views(found@) =~= seq![x]);
        }
        while self.is_symbol(j, Symbol::Comma)
            invariant
                j <= self.all().len(),
                self.wf(),
                items(row_values(), self.rest(i as int)) == prepend_items(
                    views(found@),
                    more_items(row_values(), self.rest(j as int)),
                ),
            decreases self.all().len() - j,
        {
            let ghost before = found@;
            let (next, k): (AstExpr, usize) = match self.parse_row_value(j + 1) {
                Ok(x) => x,
                Err(e) => {
                    return Err(e);
                },
            };
            proof {
                self.lemma_rest(j as int);
                self.lemma_rest(k as int);
                lemma_progress_row_values(self.rest(j + 1));
                lemma_prepend(views(before), next@, more_items(row_values(), self.rest(k as int)));
                assert(views(before.push(next)) =~= views(before).push(next@));
            }
            found.push(next);
            j = k;
        }
        proof {
            assert(views(found@) + Seq::empty() =~= views(found@));
        }
        Ok((found, j))
    }

    /// `values_clause = "(" row_value ("," row_value)* ")" | param`
    pub fn parse_values_clause(&self, i: usize) -> (r: Result<(AstInsertSource, usize), usize>)
        requires
            i <= self.all().len(),
            self.wf(),
        ensures
            self.agrees(r, values_clause(self.rest(i as int))),
    {
        if self.is_symbol(i, Symbol::LeftParen) {
            match self.parse_row_tuple(i + 1) {
                Ok((row, j)) => match self.eat_symbol(j, Symbol::RightParen) {
                    Ok(k) => {
                        let ghost values = views(row@);
                        let mut rows: Vec<Vec<AstExpr>> = Vec::new();
                        rows.push(row);
                        assert(crate::ast::rows(rows@) =~= seq![values]);
                        Ok((AstInsertSource::Rows(rows), k))
                    },
                    Err(e) => Err(e),
                },
                Err(e) => Err(e),
            }
        } else {
            match self.parse_param(i) {
                Ok((p, j)) => Ok((AstInsertSource::Param(p), j)),
                Err(e) => Err(e),
            }
        }
    }

    /// `"(" identifier ("," identifier)* ")"`
    pub fn parse_column_list(&self, i: usize) -> (r: Result<(Vec<String>, usize), usize>)
        requires
            i <= self.all().len(),
            self.wf(),
        ensures
            self.agrees_all(r, column_list(self.rest(i as int))),
    {
        match self.eat_symbol(i, Symbol::LeftParen) {
            Ok(j) => match self.parse_identifiers(j) {
                Ok((columns, k)) => match self.eat_symbol(k, Symbol::RightParen) {
                    Ok(l) => Ok((columns, l)),
                    Err(e) => Err(e),
                },
                Err(e) => Err(e),
            },
            Err(e) => Err(e),
        }
    }

    /// `insert_stmt`, behind its first keyword.
    pub fn parse_insert(&self, i: usize) -> (r: Result<(AstInsert, usize), usize>)
        requires
            i <= self.all().len(),
            self.wf(),
        ensures
            self.agrees(r, insert_stmt(self.rest(i as int))),
    {
        match self.eat_keyword(i, Keyword::Into) {
            Ok(j) => match self.parse_table_ref(j) {
                Ok((table, k)) => match self.parse_column_list(k) {
                    Ok((columns, l)) => match self.eat_keyword(l, Keyword::Values) {
                        Ok(m) => match self.parse_values_clause(m) {
                            Ok((source, n)) => Ok((AstInsert { table, columns, source }, n)),
                            Err(e) => Err(e),
                        },
                        Err(e) => Err(e),
                    },
                    Err(e) => Err(e),
                },
                Err(e) => Err(e),
            },
            Err(e) => Err(e),
        }
    }

    /// `set_assignment = identifier ("[" string_literal "]")? "="
    /// atom_value`
    pub fn parse_set_assignment(&self, i: usize) -> (r: Result<(AstAssignment, usize), usize>)
        requires
            i <= self.all().len(),
            self.wf(),
        ensures
            self.agrees(r, set_assignment(self.rest(i as int))),
    {
        match self.parse_field_ref(i) {
            Ok((f, j)) => {
                proof {
                    self.lemma_rest(j as int);
                }
                match self.parse_comparison_op(j) {
                    Some(CmpOp::Eq) => match self.parse_atom_value(j + 1) {
                        Ok((value, k)) => Ok(
                            (AstAssignment { field: f.name, subscript: f.subscript, value }, k),
                        ),
                        Err(e) => Err(e),
                    },
                    _ => Err(j),
                }
            },
            Err(e) => Err(e),
        }
    }

    /// `set_assignment ("," set_assignment)*`
    fn parse_set_assignments(&self, i: usize) -> (r: Result<(Vec<AstAssignment>, usize), usize>)
        requires
            i <= self.all().len(),
            self.wf(),
        ensures
            self.agrees_all(r, items(set_assignments(), self.rest(i as int))),
    {
        let (first, start): (AstAssignment, usize) = match self.parse_set_assignment(i) {
            Ok(x) => x,
            Err(e) => {
                return Err(e);
            },
        };
        let mut found: Vec<AstAssignment> = Vec::new();
        let ghost x = first@;
        found.push(first);
        let mut j: usize = start;
        proof {
            assert(views(found@) =~= seq![x]);
        }
        while self.is_symbol(j, Symbol::Comma)
            invariant
                j <= self.all().len(),
                self.wf(),
                items(set_assignments(), self.rest(i as int)) == prepend_items(
                    views(found@),
                    more_items(set_assignments(), self.rest(j as int)),
                ),
            decreases self.all().len() - j,
        {
            let ghost before = found@;
            let (next, k): (AstAssignment, usize) = match self.parse_set_assignment(j + 1) {
                Ok(x) => x,
                Err(e) => {
                    return Err(e);
                },
            };
            proof {
                self.lemma_rest(j as int);
                self.lemma_rest(k as int);
                lemma_progress_set_assignments(self.rest(j + 1));
                lemma_prepend(views(before), next@, more_items(set_assignments(), self.rest(k as int)));
                assert(views(before.push(next)) =~= views(before).push(next@));
            }
            found.push(next);
            j = k;
        }
        proof {
            assert(views(found@) + Seq::empty() =~= views(found@));
        }
        Ok((found, j))
    }

    /// `update_stmt`, behind its first keyword.
    pub fn parse_update(&self, i: usize) -> (r: Result<(AstUpdate, usize), usize>)
        requires
            i <= self.all().len(),
            self.wf(),
        ensures
            self.agrees(r, update_stmt(self.rest(i as int))),
    {
        match self.parse_table_ref(i) {
            Ok((table, j)) => match self.eat_keyword(j, Keyword::Assign) {
                Ok(k) => match self.parse_set_assignments(k) {
                    Ok((assignments, l)) => match self.eat_keyword(l, Keyword::Where) {
                        Ok(m) => match self.parse_predicate(m) {
                            Ok((predicate, n)) => Ok(
                                (AstUpdate { table, assignments, predicate }, n),
                            ),
                            Err(e) => Err(e),
                        },
                        Err(e) => Err(e),
                    },
                    Err(e) => Err(e),
                },
                Err(e) => Err(e),
            },
            Err(e) => Err(e),
        }
    }

    /// `delete_stmt`, behind its first keyword.
    pub fn parse_delete(&self, i: usize) -> (r: Result<(AstDelete, usize), usize>)
        requires
            i <= self.all().len(),
            self.wf(),
        ensures
            self.agrees(r, delete_stmt(self.rest(i as int))),
    {
        match self.eat_keyword(i, Keyword::From) {
            Ok(j) => match self.parse_table_ref(j) {
                Ok((table, k)) => match self.eat_keyword(k, Keyword::Where) {
                    Ok(l) => match self.parse_predicate(l) {
                        Ok((predicate, m)) => Ok((AstDelete { table, predicate }, m)),
                        Err(e) => Err(e),
                    },
                    Err(e) => Err(e),
                },
                Err(e) => Err(e),
            },
            Err(e) => Err(e),
        }
    }

    /// `vacuum_stmt`, behind its first keyword.
    pub fn parse_vacuum(&self, i: usize) -> (r: Result<(AstVacuum, usize), usize>)
        requires
            i <= self.all().len(),
            self.wf(),
        ensures
            self.agrees(r, vacuum_stmt(self.rest(i as int))),
    {
        match self.parse_table_ref(i) {
            Ok((table, j)) => Ok((AstVacuum { table }, j)),
            Err(e) => Err(e),
        }
    }

    /// `index_method = HASH | BTREE | INVERTED`
    pub fn parse_index_method(&self, i: usize) -> (r: Result<(IndexMethod, usize), usize>)
        requires
            i <= self.all().len(),
        ensures
            self.agrees_as(r, |m: IndexMethod| m, index_method(self.rest(i as int))),
    {
        if self.is_word(i, "HASH") {
            Ok((IndexMethod::Hash, i + 1))
        } else if self.is_word(i, "BTREE") {
            Ok((IndexMethod::Btree, i + 1))
        } else if self.is_word(i, "INVERTED") {
            Ok((IndexMethod::Inverted, i + 1))
        } else {
            Err(i)
        }
    }

    /// `index_method "(" identifier ")"`
    fn parse_indexed_field(&self, i: usize) -> (r: Result<((IndexMethod, String), usize), usize>)
        requires
            i <= self.all().len(),
        ensures
            self.agrees_as(
                r,
                |x: (IndexMethod, String)| (x.0, x.1@),
                indexed_field(self.rest(i as int)),
            ),
    {
        match self.parse_index_method(i) {
            Ok((method, j)) => match self.eat_symbol(j, Symbol::LeftParen) {
                Ok(k) => match self.parse_identifier(k) {
                    Ok((field, l)) => match self.eat_symbol(l, Symbol::RightParen) {
                        Ok(m) => Ok(((method, field), m)),
                        Err(e) => Err(e),
                    },
                    Err(e) => Err(e),
                },
                Err(e) => Err(e),
            },
            Err(e) => Err(e),
        }
    }

    /// `create_index_stmt`, behind its first keyword.
    pub fn parse_create_index(&self, i: usize) -> (r: Result<(AstCreateIndex, usize), usize>)
        requires
            i <= self.all().len(),
            self.wf(),
        ensures
            self.agrees(r, create_index_stmt(self.rest(i as int))),
    {
        match self.eat_keyword(i, Keyword::Index) {
            Ok(j) => {
                let (name, k): (Option<String>, usize) = match self.parse_identifier(j) {
                    Ok((name, k)) => (Some(name), k),
                    Err(_) => (None, j),
                };
                match self.eat_keyword(k, Keyword::On) {
                    Ok(l) => match self.parse_table_ref(l) {
                        Ok((table, m)) => match self.eat_keyword(m, Keyword::Using) {
                            Ok(n) => match self.parse_indexed_field(n) {
                                Ok(((method, field), o)) => Ok(
                                    (AstCreateIndex { name, table, method, field }, o),
                                ),
                                Err(e) => Err(e),
                            },
                            Err(e) => Err(e),
                        },
                        Err(e) => Err(e),
                    },
                    Err(e) => Err(e),
                }
            },
            Err(e) => Err(e),
        }
    }

    /// `drop_index_stmt`, behind its first keyword.
    pub fn parse_drop_index(&self, i: usize) -> (r: Result<(AstDropIndex, usize), usize>)
        requires
            i <= self.all().len(),
            self.wf(),
        ensures
            self.agrees(r, drop_index_stmt(self.rest(i as int))),
    {
        match self.eat_keyword(i, Keyword::Index) {
            Ok(j) => match self.parse_identifier(j) {
                Ok((name, k)) => match self.eat_keyword(k, Keyword::On) {
                    Ok(l) => match self.parse_table_ref(l) {
                        Ok((table, m)) => Ok((AstDropIndex { name, table }, m)),
                        Err(e) => Err(e),
                    },
                    Err(e) => Err(e),
                },
                Err(e) => Err(e),
            },
            Err(e) => Err(e),
        }
    }

    /// `statement`, told apart by its first keyword.
    fn parse_statement(&self) -> (r: Result<(AstStatement, usize), usize>)
        requires
            self.wf(),
        ensures
            self.agrees(r, statement(self.rest(0))),
    {
        reveal(statement);
        if self.is_keyword(0, Keyword::Checkpoint) {
            return Ok((AstStatement::Checkpoint, 1));
        }
        if self.is_keyword(0, Keyword::Vacuum) {
            return match self.parse_vacuum(1) {
                Ok((s, j)) => Ok((AstStatement::Vacuum(s), j)),
                Err(e) => Err(e),
            };
        }
        if self.is_keyword(0, Keyword::Insert) {
            return match self.parse_insert(1) {
                Ok((s, j)) => Ok((AstStatement::Insert(s), j)),
                Err(e) => Err(e),
            };
        }
        if self.is_keyword(0, Keyword::Update) {
            return match self.parse_update(1) {
                Ok((s, j)) => Ok((AstStatement::Update(s), j)),
                Err(e) => Err(e),
            };
        }
        if self.is_keyword(0, Keyword::Delete) {
            return match self.parse_delete(1) {
                Ok((s, j)) => Ok((AstStatement::Delete(s), j)),
                Err(e) => Err(e),
            };
        }
        if self.is_keyword(0, Keyword::Select) {
            return match self.parse_select(1) {
                Ok((s, j)) => Ok((AstStatement::Select(s), j)),
                Err(e) => Err(e),
            };
        }
        if self.is_keyword(0, Keyword::Create) {
            return match self.parse_create_index(1) {
                Ok((s, j)) => Ok((AstStatement::CreateIndex(s), j)),
                Err(e) => Err(e),
            };
        }
        if self.is_keyword(0, Keyword::Drop) {
            return match self.parse_drop_index(1) {
                Ok((s, j)) => Ok((AstStatement::DropIndex(s), j)),
                Err(e) => Err(e),
            };
        }
        Err(0)
    }
}

/// The bit pattern of the 64-bit value nearest to a signed decimal.
pub fn exec_decimal64(neg: bool, whole: &Vec<char>, frac: &Vec<char>) -> (r: u64)
    requires
        all_digits(whole@),
        all_digits(frac@),
    ensures
        r == decimal64(neg, whole@, frac@),
{
    let digits: BigNat = decimal_digits(whole, frac);
    let m: u64 = round(format64(), &digits, frac.len() as u64);
    if neg {
        m + 0x8000_0000_0000_0000
    } else {
        m
    }
}

/// The bit pattern of the 32-bit value nearest to a signed decimal.
pub fn exec_decimal32(neg: bool, whole: &Vec<char>, frac: &Vec<char>) -> (r: u32)
    requires
        all_digits(whole@),
        all_digits(frac@),
    ensures
        r == decimal32(neg, whole@, frac@),
{
    let digits: BigNat = decimal_digits(whole, frac);
    let m: u64 = round(format32(), &digits, frac.len() as u64);
    if neg {
        (m + 0x8000_0000) as u32
    } else {
        m as u32
    }
}

/// The number that the digits of a decimal make up without their point.
fn decimal_digits(whole: &Vec<char>, frac: &Vec<char>) -> (r: BigNat)
    requires
        all_digits(whole@),
        all_digits(frac@),
    ensures
        r@ == numeral_value(whole@ + frac@),
{
    let mut r: BigNat = BigNat::zero();
    proof {
        assert(whole@.subrange(0, whole.len() as int) =~= whole@);
        assert(frac@.subrange(0, frac.len() as int) =~= frac@);
        crate::text::lemma_numeral_value_concat(whole@, frac@);
        assert(0 * crate::bignat::power(10, whole@.len()) == 0);
    }
    extend_big(&mut r, whole, 0, whole.len());
    extend_big(&mut r, frac, 0, frac.len());
    r
}

/// The integer that a signed numeral stands for, if it fits in 64 bits.
fn exec_signed(neg: bool, whole: &Vec<char>) -> (r: Option<i64>)
    requires
        all_digits(whole@),
    ensures
        match r {
            Some(n) => n == signed_value(neg, whole@),
            None => !(i64::MIN <= signed_value(neg, whole@) <= i64::MAX),
        },
{
    assert(whole@.subrange(0, whole.len() as int) =~= whole@);
    if neg {
        match numeral_up_to(whole, 0, whole.len(), 0x8000_0000_0000_0000) {
            Some(n) => if n == 0x8000_0000_0000_0000 {
                Some(i64::MIN)
            } else {
                Some(-(n as i64))
            },
            None => None,
        }
    } else {
        match numeral_up_to(whole, 0, whole.len(), 0x7fff_ffff_ffff_ffff) {
            Some(n) => Some(n as i64),
            None => None,
        }
    }
}

proof fn lemma_prepend<X>(xs: Seq<X>, x: X, p: Parsed<Seq<X>>)
    ensures
        prepend_items(xs, prepend_item(x, p)) == prepend_items(xs.push(x), p),
{
    match p {
        Ok((ys, r)) => {
            assert(xs + (seq![x] + ys) =~= xs.push(x) + ys);
        },
        Err(_) => {},
    }
}

proof fn lemma_progress_identifiers(ts: Seq<Tok>)
    ensures
        match identifiers()(ts) {
            Ok((x, r)) => r.len() < ts.len(),
            Err(_) => true,
        },
{
}

proof fn lemma_progress_literals(ts: Seq<Tok>)
    ensures
        match literals()(ts) {
            Ok((x, r)) => r.len() < ts.len(),
            Err(_) => true,
        },
{
}

/// What a chain of conjuncts stands for.
pub open spec fn conjunction_of(p: Parsed<Seq<Pred>>) -> Parsed<Pred> {
    match p {
        Ok((ps, r)) => Ok((conjunction(ps), r)),
        Err(e) => Err(e),
    }
}

/// What a chain of disjuncts stands for.
pub open spec fn disjunction_of(p: Parsed<Seq<Pred>>) -> Parsed<Pred> {
    match p {
        Ok((ps, r)) => Ok((disjunction(ps), r)),
        Err(e) => Err(e),
    }
}

/// The terms of a conjunction; anything else is its own only term.
fn conjunct_list(p: AstPredicate) -> (r: Vec<AstPredicate>)
    ensures
        views(r@) == conjuncts(p@),
{
    let ghost m = p@;
    match p {
        AstPredicate::And(ps) => {
            assert(crate::ast::models(ps@) =~= views(ps@));
            ps
        },
        _ => {
            let mut r: Vec<AstPredicate> = Vec::new();
            r.push(p);
            assert(views(r@) =~= seq![m]);
            r
        },
    }
}

/// The terms of a disjunction; anything else is its own only term.
fn disjunct_list(p: AstPredicate) -> (r: Vec<AstPredicate>)
    ensures
        views(r@) == disjuncts(p@),
{
    let ghost m = p@;
    match p {
        AstPredicate::Or(ps) => {
            assert(crate::ast::models(ps@) =~= views(ps@));
            ps
        },
        _ => {
            let mut r: Vec<AstPredicate> = Vec::new();
            r.push(p);
            assert(views(r@) =~= seq![m]);
            r
        },
    }
}

/// The conjunction of `terms`.
fn conjunction_ast(terms: Vec<AstPredicate>) -> (r: AstPredicate)
    ensures
        r@ == conjunction(views(terms@)),
{
    let mut terms = terms;
    if terms.len() == 1 {
        terms.swap_remove(0)
    } else {
        assert(crate::ast::models(terms@) =~= views(terms@));
        AstPredicate::And(terms)
    }
}

/// The disjunction of `terms`.
fn disjunction_ast(terms: Vec<AstPredicate>) -> (r: AstPredicate)
    ensures
        r@ == disjunction(views(terms@)),
{
    let mut terms = terms;
    if terms.len() == 1 {
        terms.swap_remove(0)
    } else {
        assert(crate::ast::models(terms@) =~= views(terms@));
        AstPredicate::Or(terms)
    }
}

proof fn lemma_prepend_more<X>(xs: Seq<X>, ys: Seq<X>, p: Parsed<Seq<X>>)
    ensures
        prepend_items(xs, prepend_items(ys, p)) == prepend_items(xs + ys, p),
{
    match p {
        Ok((zs, r)) => {
            assert(xs + (ys + zs) =~= (xs + ys) + zs);
        },
        Err(_) => {},
    }
}

proof fn lemma_progress_more<X>(item: spec_fn(Seq<Tok>) -> Parsed<X>, ts: Seq<Tok>)
    ensures
        match more_items(item, ts) {
            Ok((x, r)) => r.len() <= ts.len(),
            Err(_) => true,
        },
    decreases ts.len(),
{
    if at_symbol(ts, Symbol::Comma) {
        match item(ts.skip(1)) {
            Ok((x, r)) => if r.len() < ts.len() {
                lemma_progress_more(item, r);
            },
            Err(_) => {},
        }
    }
}

proof fn lemma_progress_atom(ts: Seq<Tok>)
    ensures
        match atom(ts) {
            Ok((p, r)) => r.len() < ts.len(),
            Err(_) => true,
        },
{
    if !at_distance(ts) {
        match field_ref(ts) {
            Ok((f, r)) => if at_keyword(r, Keyword::In) {
                let open = r.skip(1).skip(1);
                match literals()(open) {
                    Ok((l, more)) => lemma_progress_more(literals(), more),
                    Err(_) => {},
                }
            },
            Err(_) => {},
        }
    }
}

proof fn lemma_progress_or_tail(ts: Seq<Tok>)
    ensures
        match or_tail(ts) {
            Ok((p, r)) => r.len() <= ts.len(),
            Err(_) => true,
        },
    decreases ts.len(),
{
    if at_keyword(ts, Keyword::Or) {
        match and_expr(ts.skip(1)) {
            Ok((p, r)) => if r.len() < ts.len() {
                lemma_progress_or_tail(r);
            },
            Err(_) => {},
        }
    }
}

proof fn lemma_progress_and_tail(ts: Seq<Tok>)
    ensures
        match and_tail(ts) {
            Ok((p, r)) => r.len() <= ts.len(),
            Err(_) => true,
        },
    decreases ts.len(),
{
    if at_keyword(ts, Keyword::And) {
        match not_expr(ts.skip(1)) {
            Ok((p, r)) => if r.len() < ts.len() {
                lemma_progress_and_tail(r);
            },
            Err(_) => {},
        }
    }
}

proof fn lemma_progress_or(ts: Seq<Tok>)
    ensures
        match or_expr(ts) {
            Ok((p, r)) => r.len() < ts.len(),
            Err(_) => true,
        },
{
    match and_expr(ts) {
        Ok((p, r)) => lemma_progress_or_tail(r),
        Err(_) => {},
    }
}

proof fn lemma_progress_and(ts: Seq<Tok>)
    ensures
        match and_expr(ts) {
            Ok((p, r)) => r.len() < ts.len(),
            Err(_) => true,
        },
{
    match not_expr(ts) {
        Ok((p, r)) => lemma_progress_and_tail(r),
        Err(_) => {},
    }
}

proof fn lemma_progress_not(ts: Seq<Tok>)
    ensures
        match not_expr(ts) {
            Ok((p, r)) => r.len() < ts.len(),
            Err(_) => true,
        },
    decreases ts.len(),
{
    reveal_with_fuel(not_expr, 2);
    reveal_with_fuel(atom_or_parens, 2);
    if at_keyword(ts, Keyword::Not) {
        lemma_progress_not(ts.skip(1));
    } else if at_symbol(ts, Symbol::LeftParen) {
        lemma_progress_or(ts.skip(1));
    } else {
        lemma_progress_atom(ts);
    }
}

/// Routes bare identifiers to the typed [`AstProjection`] variants for the
/// magic column names. Case-insensitive: `id`, `ID`, `Id` all become
/// [`AstProjection::Id`]. Same for `metadata`.
pub fn classify_field_projection(name: &str) -> (r: AstProjection)
    ensures
        r@ == field_projection(name@),
{
    if eq_ignore_case(name, "id") {
        AstProjection::Id
    } else if eq_ignore_case(name, "metadata") {
        AstProjection::Metadata
    } else {
        AstProjection::Field(name.to_owned())
    }
}

proof fn lemma_progress_select_items(ts: Seq<Tok>)
    ensures
        match select_items()(ts) {
            Ok((x, r)) => r.len() < ts.len(),
            Err(_) => true,
        },
{
}

proof fn lemma_progress_order_by_items(ts: Seq<Tok>)
    ensures
        match order_by_items()(ts) {
            Ok((x, r)) => r.len() < ts.len(),
            Err(_) => true,
        },
{
}

proof fn lemma_progress_row_values(ts: Seq<Tok>)
    ensures
        match row_values()(ts) {
            Ok((x, r)) => r.len() < ts.len(),
            Err(_) => true,
        },
{
}

proof fn lemma_progress_set_assignments(ts: Seq<Tok>)
    ensures
        match set_assignments()(ts) {
            Ok((x, r)) => r.len() < ts.len(),
            Err(_) => true,
        },
{
}

/// The line of position `pos` of `s`, counted from one.
pub open spec fn line_of(s: Seq<char>, pos: nat) -> nat
    decreases pos,
{
    if pos == 0 {
        1
    } else if s[pos - 1] == '\n' {
        line_of(s, (pos - 1) as nat) + 1
    } else {
        line_of(s, (pos - 1) as nat)
    }
}

/// The column of position `pos` of `s`, counted from one.
pub open spec fn column_of(s: Seq<char>, pos: nat) -> nat
    decreases pos,
{
    if pos == 0 || s[pos - 1] == '\n' {
        1
    } else {
        column_of(s, (pos - 1) as nat) + 1
    }
}

/// The message of a syntax error at position `pos` of `s`.
pub open spec fn syntax_error(s: Seq<char>, pos: nat) -> Seq<char> {
    "line "@ + numeral(line_of(s, pos)) + ", column "@ + numeral(column_of(s, pos)) + (if pos
        < s.len() {
        ": unexpected input"@
    } else {
        ": unexpected end of input"@
    })
}

fn exec_syntax_error(cs: &Vec<char>, pos: usize) -> (r: KovaQueryError)
    requires
        pos <= cs.len(),
    ensures
        r@ == Failure::Parse(syntax_error(cs@, pos as nat)),
{
    let mut line: u128 = 1;
    let mut column: u128 = 1;
    let mut i: usize = 0;
    while i < pos
        invariant
            i <= pos <= cs.len(),
            line == line_of(cs@, i as nat),
            column == column_of(cs@, i as nat),
            line <= i + 1,
            column <= i + 1,
        decreases pos - i,
    {
        if cs[i] == '\n' {
            line = line + 1;
            column = 1;
        } else {
            column = column + 1;
        }
        i = i + 1;
    }
    let mut m: String = String::new();
    m.append("line ");
    push_numeral(&mut m, line);
    m.append(", column ");
    push_numeral(&mut m, column);
    if pos < cs.len() {
        m.append(": unexpected input");
    } else {
        m.append(": unexpected end of input");
    }
    assert(m@ =~= syntax_error(cs@, pos as nat));
    KovaQueryError::Parse(m)
}

/// The position of the `n`-th token from the end of the tokens of `s`.
pub open spec fn position_of(s: Seq<char>, tokens: nat, n: nat) -> nat {
    (s.len() - tail(s, (tokens - n) as nat).len()) as nat
}

/// What the source text `s` means when its tokens are read by `read`: a value,
/// or the position of the first offending character.
pub open spec fn read_text<X>(s: Seq<char>, read: spec_fn(Seq<Tok>) -> Result<X, nat>) -> Result<
    X,
    nat,
> {
    match lex(s) {
        Ok(ts) => match read(ts) {
            Ok(x) => Ok(x),
            Err(n) => Err(position_of(s, ts.len(), n)),
        },
        Err(n) => Err((s.len() - n) as nat),
    }
}

/// The statement that the source text `s` stands for.
pub open spec fn parse_text(s: Seq<char>) -> Result<Stmt, nat> {
    read_text(s, |ts: Seq<Tok>| program(ts))
}

/// The predicate that the source text `s` stands for.
pub open spec fn parse_predicate_text(s: Seq<char>) -> Result<Pred, nat> {
    read_text(s, |ts: Seq<Tok>| lone_predicate(ts))
}

/// Parses a single KQL statement from a string into its AST.
///
/// Semantic failures (unknown field, type mismatch, etc.) are not detected
/// here; they belong to the binder. The error is [`KovaQueryError::Parse`]
/// with line and column for any input the grammar rejects.
pub fn parse_str(input: &str) -> (r: Result<AstStatement, KovaQueryError>)
    ensures
        match parse_text(input@) {
            Ok(s) => r is Ok && r->Ok_0@ == s,
            Err(pos) => r is Err && r->Err_0@ == Failure::Parse(syntax_error(input@, pos)),
        },
{
    let cs: Vec<char> = chars_of(input);
    let lexed: Lexed = match tokenize(&cs) {
        Ok(l) => l,
        Err(e) => {
            return Err(exec_syntax_error(&cs, e));
        },
    };
    let p: KqlParser = KqlParser { tokens: lexed.tokens };
    proof {
        assert(p.rest(0) =~= p.all());
        assert forall|i: int| 0 <= i < p.all().len() implies tok_wf(#[trigger] p.all()[i]) by {
            assert(p.all()[i] == p.tokens@[i]@);
        }
    }
    match p.parse_statement() {
        Ok((s, j)) => {
            let k: usize = if p.is_symbol(j, Symbol::Semicolon) {
                j + 1
            } else {
                j
            };
            if k == p.tokens.len() {
                Ok(s)
            } else {
                Err(exec_syntax_error(&cs, lexed.starts[k]))
            }
        },
        Err(e) => Err(exec_syntax_error(&cs, lexed.starts[e])),
    }
}

/// Parses a bare predicate.
pub fn parse_predicate_str(input: &str) -> (r: Result<AstPredicate, KovaQueryError>)
    ensures
        match parse_predicate_text(input@) {
            Ok(p) => r is Ok && r->Ok_0@ == p,
            Err(pos) => r is Err && r->Err_0@ == Failure::Parse(syntax_error(input@, pos)),
        },
{
    let cs: Vec<char> = chars_of(input);
    let lexed: Lexed = match tokenize(&cs) {
        Ok(l) => l,
        Err(e) => {
            return Err(exec_syntax_error(&cs, e));
        },
    };
    let p: KqlParser = KqlParser { tokens: lexed.tokens };
    proof {
        assert(p.rest(0) =~= p.all());
        assert forall|i: int| 0 <= i < p.all().len() implies tok_wf(#[trigger] p.all()[i]) by {
            assert(p.all()[i] == p.tokens@[i]@);
        }
    }
    match p.parse_predicate(0) {
        Ok((s, j)) => if j == p.tokens.len() {
            Ok(s)
        } else {
            Err(exec_syntax_error(&cs, lexed.starts[j]))
        },
        Err(e) => Err(exec_syntax_error(&cs, lexed.starts[e])),
    }
}

} // verus!
