//! What printing and parsing promise of each other.

use crate::canon::stmt_text;
use crate::lexer::lex;
use crate::parser::{parse_predicate_text, parse_text};
use crate::relex::lemma_relex;
use crate::reparse::lemma_reparse;
use crate::shape::{finite, shaped, shaped_pred};
use crate::syntax::Stmt;
use crate::yields::{lemma_lex_valid, lemma_predicate_shaped, lemma_program_shaped};
use vstd::prelude::*;

verus! {

/// Parsing the printed form of a statement gives back the statement.
pub proof fn law_parse_of_print(s: Stmt)
    requires
        shaped(s),
        finite(s),
    ensures
        parse_text(stmt_text(s)) == Ok::<Stmt, nat>(s),
{
    lemma_relex(s);
    lemma_reparse(s);
}

/// Whatever parses has the shape that the grammar produces.
pub proof fn law_parsed_is_shaped(source: Seq<char>)
    ensures
        match parse_text(source) {
            Ok(s) => shaped(s),
            Err(_) => true,
        },
{
    lemma_lex_valid(source);
    match lex(source) {
        Ok(ts) => lemma_program_shaped(ts),
        Err(_) => {},
    }
}

/// The same of a bare predicate.
pub proof fn law_parsed_predicate_is_shaped(source: Seq<char>)
    ensures
        match parse_predicate_text(source) {
            Ok(p) => shaped_pred(p),
            Err(_) => true,
        },
{
    lemma_lex_valid(source);
    match lex(source) {
        Ok(ts) => lemma_predicate_shaped(ts),
        Err(_) => {},
    }
}

/// Parse, print, parse again: the statement is the same, so printing it again
/// gives the same text. A literal that is too large for a finite 64-bit value
/// has no canonical text that parses.
pub proof fn law_roundtrip(source: Seq<char>, s: Stmt)
    requires
        parse_text(source) == Ok::<Stmt, nat>(s),
        finite(s),
    ensures
        parse_text(stmt_text(s)) == Ok::<Stmt, nat>(s),
{
    law_parsed_is_shaped(source);
    law_parse_of_print(s);
}

/// Different statements print differently.
pub proof fn law_print_is_injective(s: Stmt, t: Stmt)
    requires
        shaped(s),
        finite(s),
        shaped(t),
        finite(t),
        stmt_text(s) == stmt_text(t),
    ensures
        s == t,
{
    law_parse_of_print(s);
    law_parse_of_print(t);
}

} // verus!
