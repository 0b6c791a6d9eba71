//! Predicate evaluation through the secondary indexes.
//!
//! Can the indexes answer a WHERE clause without walking every metadata bag?
//! [`lookups`] lists what to ask them, and [`try_index_eval`] puts their
//! answers together. Three outcomes:
//!
//! - [`IndexEval::Full`]: the whole predicate was answered; the bitmap *is*
//!   the result.
//! - [`IndexEval::Hybrid`]: indexes shrank the candidate set, and a residue
//!   still has to be evaluated on each candidate.
//! - [`IndexEval::Fallback`]: the indexes cannot help.
//!
//! An **atom** is one question. An **AND** intersects what was answered and
//! keeps the rest as residue. In an **OR** every branch must be answered in
//! full, or rows of the branch that was not would be missing. **NOT** and
//! constants are left to a scan.

use crate::ast::{views, CmpOp};
use crate::error::Failure;
use crate::eval::{
    all_hold, any_holds, atom_holds, cond_holds, expr_val, field_val, literal_val, satisfies,
};
use crate::logical::{
    conds, BoundExpr, BoundLiteral, Cond, CondAtom, FieldRef, PredAtom, PredicateExpr,
};
use crate::normal_form::{lemma_all_hold_concat, lemma_any_holds_concat, lemma_single_term};
use crate::params::{resolve_arg, Arg, Bindings, ParamBindings, ParamValue};
use crate::syntax::{Expr, Field, Literal};
use crate::treemap::{intersection, treemap_ids, union};
use crate::value::{compare_vals, equal_vals, lemma_value_model, vals, Bag, Val, Value};
use roaring::RoaringTreemap;
use vstd::prelude::*;

verus! {

/// Comparison operators that an index answers.
#[derive(Debug, Clone, Copy, PartialEq, Eq, Structural)]
pub enum IndexCmpOp {
    /// `<`
    Lt,
    /// `<=`
    Le,
    /// `>`
    Gt,
    /// `>=`
    Ge,
    /// `!=`
    Ne,
}

/// What an index is asked about its field.
#[derive(Debug)]
pub enum IndexAtom {
    /// Equal to the value.
    Eq(Value),
    /// In that relation to the value.
    Cmp(IndexCmpOp, Value),
    /// Equal to one of the values.
    In(Vec<Value>),
    /// Between the two values, both included.
    Between(Value, Value),
    /// Present.
    IsNotNull,
    /// A list with the value in it.
    ArrayContains(Value),
}

/// One question to the indexes: which rows satisfy `atom` in `field`?
#[derive(Debug)]
pub struct Lookup {
    /// Field name.
    pub field: String,
    /// What its value has to satisfy.
    pub atom: IndexAtom,
}

/// Result of asking the indexes about a predicate.
#[derive(Debug)]
pub enum IndexEval {
    /// Every atom in the predicate was answered by an index.
    Full(RoaringTreemap),
    /// Indexes shrank the candidate set.
    Hybrid {
        /// Candidate ids produced by the indexable atoms.
        candidates: RoaringTreemap,
        /// What still has to be evaluated on each candidate.
        residue: PredicateExpr,
    },
    /// The indexes cannot help.
    Fallback,
}

// ----- Models -----

/// What an index is asked, with text as sequences of characters.
pub enum Key {
    Eq(Val),
    Cmp(IndexCmpOp, Val),
    In(Seq<Val>),
    Between(Val, Val),
    IsNotNull,
    ArrayContains(Val),
}

/// A question to the indexes.
pub struct Ask {
    pub field: Seq<char>,
    pub key: Key,
}

/// What the indexes make of a condition.
pub enum Reduced {
    Full(Set<u64>),
    Hybrid(Set<u64>, Cond),
    Fallback,
}

impl View for IndexAtom {
    type V = Key;

    open spec fn view(&self) -> Key {
        match self {
            IndexAtom::Eq(v) => Key::Eq(v@),
            IndexAtom::Cmp(op, v) => Key::Cmp(*op, v@),
            IndexAtom::In(vs) => Key::In(vals(vs@)),
            IndexAtom::Between(lo, hi) => Key::Between(lo@, hi@),
            IndexAtom::IsNotNull => Key::IsNotNull,
            IndexAtom::ArrayContains(v) => Key::ArrayContains(v@),
        }
    }
}

impl View for Lookup {
    type V = Ask;

    open spec fn view(&self) -> Ask {
        Ask { field: self.field@, key: self.atom@ }
    }
}

impl View for IndexEval {
    type V = Reduced;

    open spec fn view(&self) -> Reduced {
        match self {
            IndexEval::Full(t) => Reduced::Full(treemap_ids(*t)),
            IndexEval::Hybrid { candidates, residue } => Reduced::Hybrid(
                treemap_ids(*candidates),
                residue@,
            ),
            IndexEval::Fallback => Reduced::Fallback,
        }
    }
}

/// The ids in each answer; no index, no answer.
pub open spec fn answer_sets(v: Seq<Option<RoaringTreemap>>) -> Seq<Option<Set<u64>>> {
    v.map_values(
        |o: Option<RoaringTreemap>|
            match o {
                Some(t) => Some(treemap_ids(t)),
                None => None,
            },
    )
}

/// The operator that an index operator stands for.
pub open spec fn plain_op(op: IndexCmpOp) -> CmpOp {
    match op {
        IndexCmpOp::Lt => CmpOp::Lt,
        IndexCmpOp::Le => CmpOp::Le,
        IndexCmpOp::Gt => CmpOp::Gt,
        IndexCmpOp::Ge => CmpOp::Ge,
        IndexCmpOp::Ne => CmpOp::Ne,
    }
}

/// Whether a row satisfies what an index is asked.
pub open spec fn key_holds(ask: Ask, bag: Bag) -> bool {
    bag.dom().contains(ask.field) && {
        let v = bag[ask.field];
        match ask.key {
            Key::Eq(w) => equal_vals(v, w),
            Key::Cmp(op, w) => satisfies(v, plain_op(op), w),
            Key::In(ws) => exists|i: int| 0 <= i < ws.len() && equal_vals(v, #[trigger] ws[i]),
            Key::Between(lo, hi) => satisfies(v, CmpOp::Ge, lo) && satisfies(v, CmpOp::Le, hi),
            Key::IsNotNull => true,
            Key::ArrayContains(w) => v matches Val::Array(xs) && exists|i: int|
                0 <= i < xs.len() && equal_vals(#[trigger] xs[i], w),
        }
    }
}

// ----- From atoms to questions -----

/// The index operator for an operator. Equality is an atom of its own.
pub open spec fn index_op(op: CmpOp) -> Option<IndexCmpOp> {
    match op {
        CmpOp::Eq => None,
        CmpOp::Lt => Some(IndexCmpOp::Lt),
        CmpOp::Le => Some(IndexCmpOp::Le),
        CmpOp::Gt => Some(IndexCmpOp::Gt),
        CmpOp::Ge => Some(IndexCmpOp::Ge),
        CmpOp::Ne => Some(IndexCmpOp::Ne),
    }
}

/// What a literal is in an index. `NULL` is not in any.
pub open spec fn literal_key(l: Literal) -> Option<Val> {
    if l is Null {
        None
    } else {
        Some(literal_val(l))
    }
}

/// What a parameter value is in an index.
pub open spec fn arg_key(a: Arg) -> Option<Val> {
    match a {
        Arg::Str(s) => Some(Val::Str(s)),
        Arg::I64(n) => Some(Val::I64(n)),
        Arg::F64(b) => Some(Val::F64(b)),
        Arg::Bool(b) => Some(Val::Bool(b)),
        _ => None,
    }
}

/// What an expression is in an index.
pub open spec fn expr_key(e: Expr, b: Bindings) -> Option<Val> {
    match e {
        Expr::Literal(l) => literal_key(l),
        Expr::Param(p) => match resolve_arg(b, p) {
            Ok(a) => arg_key(a),
            Err(_) => None,
        },
    }
}

/// What a list of literals is in an index.
pub open spec fn literal_keys(ls: Seq<Literal>) -> Option<Seq<Val>> {
    if exists|i: int| 0 <= i < ls.len() && #[trigger] ls[i] is Null {
        None
    } else {
        Some(ls.map_values(|l: Literal| literal_val(l)))
    }
}

/// The question that an atom comes down to, if there is one: not for
/// subscripted fields, `NULL`, parameters of a wrong type, or distances.
pub open spec fn ask_of(a: CondAtom, b: Bindings) -> Option<Ask> {
    match a {
        CondAtom::Eq(f, e) => match (f.subscript, expr_key(e, b)) {
            (None, Some(v)) => Some(Ask { field: f.name, key: Key::Eq(v) }),
            _ => None,
        },
        CondAtom::Cmp(f, op, e) => match (f.subscript, expr_key(e, b), index_op(op)) {
            (None, Some(v), Some(o)) => Some(Ask { field: f.name, key: Key::Cmp(o, v) }),
            _ => None,
        },
        CondAtom::In(f, ls) => match (f.subscript, literal_keys(ls)) {
            (None, Some(vs)) => Some(Ask { field: f.name, key: Key::In(vs) }),
            _ => None,
        },
        CondAtom::Between(f, lo, hi) => match (f.subscript, literal_key(lo), literal_key(hi)) {
            (None, Some(v), Some(w)) => Some(Ask { field: f.name, key: Key::Between(v, w) }),
            _ => None,
        },
        CondAtom::IsNotNull(f) => match f.subscript {
            None => Some(Ask { field: f.name, key: Key::IsNotNull }),
            Some(_) => None,
        },
        CondAtom::ArrayContains(f, l) => match (f.subscript, literal_key(l)) {
            (None, Some(v)) => Some(Ask { field: f.name, key: Key::ArrayContains(v) }),
            _ => None,
        },
        CondAtom::DistanceThreshold(_, _, _) => None,
    }
}

pub open spec fn opt_val(o: Option<Value>) -> Option<Val> {
    match o {
        Some(v) => Some(v@),
        None => None,
    }
}

/// Map a comparison to the operator an index knows.
pub fn translate_cmp_op(op: CmpOp) -> (r: Option<IndexCmpOp>)
    ensures
        r == index_op(op),
{
    match op {
        CmpOp::Eq => None,
        CmpOp::Lt => Some(IndexCmpOp::Lt),
        CmpOp::Le => Some(IndexCmpOp::Le),
        CmpOp::Gt => Some(IndexCmpOp::Gt),
        CmpOp::Ge => Some(IndexCmpOp::Ge),
        CmpOp::Ne => Some(IndexCmpOp::Ne),
    }
}

/// The value of a literal in an index.
pub fn literal_to_value(l: &BoundLiteral) -> (r: Option<Value>)
    ensures
        opt_val(r) == literal_key(l@),
{
    broadcast use lemma_value_model;

    match l {
        BoundLiteral::String(s) => Some(Value::String(s.clone())),
        BoundLiteral::I64(n) => Some(Value::I64(*n)),
        BoundLiteral::F64(b) => Some(Value::F64(*b)),
        BoundLiteral::Bool(b) => Some(Value::Bool(*b)),
        BoundLiteral::Null => None,
    }
}

/// The value of a parameter in an index.
pub fn param_to_value(p: &ParamValue) -> (r: Option<Value>)
    ensures
        opt_val(r) == arg_key(p@),
{
    broadcast use lemma_value_model;

    match p {
        ParamValue::String(s) => Some(Value::String(s.clone())),
        ParamValue::I64(n) => Some(Value::I64(*n)),
        ParamValue::F64(b) => Some(Value::F64(*b)),
        ParamValue::Bool(b) => Some(Value::Bool(*b)),
        _ => None,
    }
}

/// The value of an expression in an index.
pub fn resolve_to_value(expr: &BoundExpr, params: &ParamBindings) -> (r: Option<Value>)
    ensures
        opt_val(r) == expr_key(expr@, params@),
{
    match expr {
        BoundExpr::Literal(l) => literal_to_value(l),
        BoundExpr::Param(p) => match params.resolve(p) {
            Ok(v) => param_to_value(v),
            Err(_) => None,
        },
    }
}

fn literals_to_values(ls: &Vec<BoundLiteral>) -> (r: Option<Vec<Value>>)
    ensures
        match r {
            Some(vs) => literal_keys(views(ls@)) == Some(vals(vs@)),
            None => literal_keys(views(ls@)) is None,
        },
{
    let ghost ms = views(ls@);
    let mut vs: Vec<Value> = Vec::new();
    let mut i: usize = 0;
    while i < ls.len()
        invariant
            i <= ls.len(),
            ms == views(ls@),
            vs.len() == i,
            forall|j: int| 0 <= j < i ==> !(#[trigger] ms[j] is Null),
            forall|j: int|
                0 <= j < i ==> (#[trigger] vals(vs@)[j]) == literal_val(ms[j]),
        decreases ls.len() - i,
    {
        assert(ms[i as int] == ls@[i as int]@);
        match literal_to_value(&ls[i]) {
            Some(v) => {
                let ghost before = vs@;
                vs.push(v);
                assert(vals(vs@) =~= vals(before).push(v@));
            },
            None => {
                assert(ms[i as int] is Null);
                return None;
            },
        }
        i = i + 1;
    }
    assert(vals(vs@) =~= ms.map_values(|l: Literal| literal_val(l)));
    Some(vs)
}

pub open spec fn opt_lookup(o: Option<Lookup>) -> Option<Ask> {
    match o {
        Some(l) => Some(l@),
        None => None,
    }
}

fn lookup_on(field: &FieldRef, atom: Option<IndexAtom>) -> (r: Option<Lookup>)
    ensures
        opt_lookup(r) == match (field@.subscript, atom) {
            (None, Some(a)) => Some(Ask { field: field@.name, key: a@ }),
            _ => None,
        },
{
    match (&field.subscript, atom) {
        (None, Some(atom)) => Some(Lookup { field: field.name.clone(), atom }),
        _ => None,
    }
}

/// Translate an atom into a question the indexes can answer, if it is of a
/// shape that they ever can.
pub fn translate_atom(a: &PredAtom, params: &ParamBindings) -> (r: Option<Lookup>)
    ensures
        opt_lookup(r) == ask_of(a@, params@),
{
    match a {
        PredAtom::Eq { field, value } => lookup_on(
            field,
            match resolve_to_value(value, params) {
                Some(v) => Some(IndexAtom::Eq(v)),
                None => None,
            },
        ),
        PredAtom::Cmp { field, op, value } => lookup_on(
            field,
            match (resolve_to_value(value, params), translate_cmp_op(*op)) {
                (Some(v), Some(idx_op)) => Some(IndexAtom::Cmp(idx_op, v)),
                _ => None,
            },
        ),
        PredAtom::In { field, values } => lookup_on(
            field,
            match literals_to_values(values) {
                Some(vs) => Some(IndexAtom::In(vs)),
                None => None,
            },
        ),
        PredAtom::Between { field, lo, hi } => lookup_on(
            field,
            match (literal_to_value(lo), literal_to_value(hi)) {
                (Some(lo), Some(hi)) => Some(IndexAtom::Between(lo, hi)),
                _ => None,
            },
        ),
        PredAtom::IsNotNull { field } => lookup_on(field, Some(IndexAtom::IsNotNull)),
        PredAtom::ArrayContains { field, value } => lookup_on(
            field,
            match literal_to_value(value) {
                Some(v) => Some(IndexAtom::ArrayContains(v)),
                None => None,
            },
        ),
        PredAtom::DistanceThreshold { .. } => None,
    }
}

// ----- What to ask -----

/// The questions of a condition, from left to right.
pub open spec fn asks(c: Cond, b: Bindings) -> Seq<Ask>
    decreases c, 0int,
{
    match c {
        Cond::Atom(a) => match ask_of(a, b) {
            Some(q) => seq![q],
            None => Seq::empty(),
        },
        Cond::And(cs) => asks_of_all(cs, b),
        Cond::Or(cs) => asks_of_all(cs, b),
        _ => Seq::empty(),
    }
}

/// The questions of some conditions, from left to right.
pub open spec fn asks_of_all(cs: Seq<Cond>, b: Bindings) -> Seq<Ask>
    decreases cs, cs.len(),
{
    if cs.len() == 0 {
        Seq::empty()
    } else {
        asks_of_all(cs.subrange(0, cs.len() - 1), b) + asks(cs[cs.len() - 1], b)
    }
}

/// What to ask the indexes about `pred`.
pub fn lookups(pred: &PredicateExpr, params: &ParamBindings) -> (r: Vec<Lookup>)
    ensures
        views(r@) == asks(pred@, params@),
{
    let mut out: Vec<Lookup> = Vec::new();
    add_lookups(&mut out, pred, params);
    assert(views(out@) =~= asks(pred@, params@));
    out
}

fn add_lookups(out: &mut Vec<Lookup>, pred: &PredicateExpr, params: &ParamBindings)
    ensures
        views(final(out)@) == views(old(out)@) + asks(pred@, params@),
    decreases pred, 0int,
{
    match pred {
        PredicateExpr::Atom(a) => {
            match translate_atom(a, params) {
                Some(l) => {
                    let ghost before = out@;
                    out.push(l);
                    assert(views(out@) =~= views(before) + seq![l@]);
                },
                None => {
                    assert(views(out@) =~= views(out@) + Seq::<Ask>::empty());
                },
            }
        },
        PredicateExpr::And(children) => add_all_lookups(out, children, params),
        PredicateExpr::Or(children) => add_all_lookups(out, children, params),
        _ => {
            assert(views(out@) =~= views(out@) + Seq::<Ask>::empty());
        },
    }
}

fn add_all_lookups(out: &mut Vec<Lookup>, children: &Vec<PredicateExpr>, params: &ParamBindings)
    ensures
        views(final(out)@) == views(old(out)@) + asks_of_all(conds(children@), params@),
    decreases children, 1int,
{
    let ghost cs = conds(children@);
    let mut i: usize = 0;
    assert(cs.take(0) =~= Seq::empty());
    assert(views(out@) =~= views(old(out)@) + asks_of_all(cs.take(0), params@));
    while i < children.len()
        invariant
            i <= children.len(),
            cs == conds(children@),
            views(out@) == views(old(out)@) + asks_of_all(cs.take(i as int), params@),
        decreases children.len() - i,
    {
        proof {
            let s = cs.take(i + 1);
            assert(s.subrange(0, s.len() - 1) =~= cs.take(i as int));
            assert(s[i as int] == children@[i as int]@);
            assert(decreases_to!(children => children@[i as int]));
        }
        add_lookups(out, &children[i], params);
        assert(views(out@) =~= views(old(out)@) + asks_of_all(cs.take(i + 1), params@));
        i = i + 1;
    }
    assert(cs.take(i as int) =~= cs);
}

/// How many questions there are about `pred`.
fn lookup_count(pred: &PredicateExpr, params: &ParamBindings) -> (r: usize)
    requires
        asks(pred@, params@).len() <= usize::MAX,
    ensures
        r == asks(pred@, params@).len(),
    decreases pred, 0int,
{
    match pred {
        PredicateExpr::Atom(a) => if translate_atom(a, params).is_some() {
            1
        } else {
            0
        },
        PredicateExpr::And(children) => lookup_count_of_all(children, params),
        PredicateExpr::Or(children) => lookup_count_of_all(children, params),
        _ => 0,
    }
}

proof fn lemma_asks_prefix(cs: Seq<Cond>, i: int, b: Bindings)
    requires
        0 <= i <= cs.len(),
    ensures
        asks_of_all(cs.take(i), b).len() <= asks_of_all(cs, b).len(),
        i < cs.len() ==> asks_of_all(cs.take(i + 1), b) == asks_of_all(cs.take(i), b) + asks(
            cs[i],
            b,
        ),
    decreases cs.len() - i,
{
    if i < cs.len() {
        let s = cs.take(i + 1);
        assert(s.subrange(0, s.len() - 1) =~= cs.take(i));
        lemma_asks_prefix(cs, i + 1, b);
    } else {
        assert(cs.take(i) =~= cs);
    }
}

fn lookup_count_of_all(children: &Vec<PredicateExpr>, params: &ParamBindings) -> (r: usize)
    requires
        asks_of_all(conds(children@), params@).len() <= usize::MAX,
    ensures
        r == asks_of_all(conds(children@), params@).len(),
    decreases children, 1int,
{
    let ghost cs = conds(children@);
    let mut n: usize = 0;
    let mut i: usize = 0;
    assert(cs.take(0) =~= Seq::empty());
    while i < children.len()
        invariant
            i <= children.len(),
            cs == conds(children@),
            asks_of_all(cs, params@).len() <= usize::MAX,
            n == asks_of_all(cs.take(i as int), params@).len(),
        decreases children.len() - i,
    {
        proof {
            lemma_asks_prefix(cs, i as int, params@);
            lemma_asks_prefix(cs, i + 1, params@);
            assert(cs[i as int] == children@[i as int]@);
            assert(decreases_to!(children => children@[i as int]));
        }
        n = n + lookup_count(&children[i], params);
        i = i + 1;
    }
    assert(cs.take(i as int) =~= cs);
    n
}

// ----- Putting answers together -----

/// What became of the terms of a conjunction: the candidates, if any term
/// was answered, and what was not.
pub struct Partial {
    pub candidates: Option<Set<u64>>,
    pub residue: Seq<Cond>,
}

/// The candidates, as far as `s` has them too.
pub open spec fn narrowed(candidates: Option<Set<u64>>, s: Set<u64>) -> Set<u64> {
    match candidates {
        Some(c) => c.intersect(s),
        None => s,
    }
}

/// What the indexes make of a condition, given their answers to its
/// questions.
pub open spec fn reduced(c: Cond, answers: Seq<Option<Set<u64>>>, b: Bindings) -> Reduced
    decreases c, 0int,
{
    match c {
        Cond::Atom(a) => match ask_of(a, b) {
            Some(_) => match answers[0] {
                Some(s) => Reduced::Full(s),
                None => Reduced::Fallback,
            },
            None => Reduced::Fallback,
        },
        Cond::And(cs) => {
            let p = parted(cs, answers, b);
            match p.candidates {
                None => Reduced::Fallback,
                Some(s) => if p.residue.len() == 0 {
                    Reduced::Full(s)
                } else if p.residue.len() == 1 {
                    Reduced::Hybrid(s, p.residue[0])
                } else {
                    Reduced::Hybrid(s, Cond::And(p.residue))
                },
            }
        },
        Cond::Or(cs) => match united(cs, answers, b) {
            Some(s) => if cs.len() > 0 {
                Reduced::Full(s)
            } else {
                Reduced::Fallback
            },
            None => Reduced::Fallback,
        },
        _ => Reduced::Fallback,
    }
}

/// What became of the terms of a conjunction.
pub open spec fn parted(cs: Seq<Cond>, answers: Seq<Option<Set<u64>>>, b: Bindings) -> Partial
    decreases cs, cs.len(),
{
    if cs.len() == 0 {
        Partial { candidates: None, residue: Seq::empty() }
    } else {
        let before = cs.subrange(0, cs.len() - 1);
        let last = cs[cs.len() - 1];
        let n = asks_of_all(before, b).len() as int;
        let p = parted(before, answers.take(n), b);
        match reduced(last, answers.skip(n), b) {
            Reduced::Full(s) => Partial {
                candidates: Some(narrowed(p.candidates, s)),
                residue: p.residue,
            },
            Reduced::Hybrid(s, r) => Partial {
                candidates: Some(narrowed(p.candidates, s)),
                residue: p.residue.push(r),
            },
            Reduced::Fallback => Partial {
                candidates: p.candidates,
                residue: p.residue.push(last),
            },
        }
    }
}

/// The rows of all terms of a disjunction, if every term was answered in
/// full.
pub open spec fn united(cs: Seq<Cond>, answers: Seq<Option<Set<u64>>>, b: Bindings) -> Option<
    Set<u64>,
>
    decreases cs, cs.len(),
{
    if cs.len() == 0 {
        Some(Set::empty())
    } else {
        let before = cs.subrange(0, cs.len() - 1);
        let n = asks_of_all(before, b).len() as int;
        match (
            united(before, answers.take(n), b),
            reduced(cs[cs.len() - 1], answers.skip(n), b),
        ) {
            (Some(s), Reduced::Full(t)) => Some(s.union(t)),
            _ => None,
        }
    }
}

/// Answers to the questions about a predicate, taken out one by one.
struct Answers {
    slots: Vec<Option<RoaringTreemap>>,
    next: usize,
}

impl Answers {
    spec fn wf(self) -> bool {
        self.next <= self.slots.len()
    }

    /// The answers that have not been taken.
    spec fn rest(self) -> Seq<Option<Set<u64>>> {
        answer_sets(self.slots@).skip(self.next as int)
    }

    /// Takes the next answer.
    fn take(&mut self) -> (r: Option<RoaringTreemap>)
        requires
            old(self).wf(),
            old(self).rest().len() > 0,
        ensures
            final(self).wf(),
            final(self).rest() == old(self).rest().skip(1),
            old(self).rest()[0] == (match r {
                Some(t) => Some(treemap_ids(t)),
                None => None,
            }),
    {
        let ghost before = self.rest();
        let mut slot: Option<RoaringTreemap> = None;
        std::mem::swap(&mut self.slots[self.next], &mut slot);
        self.next = self.next + 1;
        assert(self.rest() =~= before.skip(1));
        slot
    }

    /// Leaves out the next `n` answers.
    fn pass(&mut self, n: usize)
        requires
            old(self).wf(),
            n <= old(self).rest().len(),
        ensures
            final(self).wf(),
            final(self).rest() == old(self).rest().skip(n as int),
    {
        let ghost before = self.rest();
        self.next = self.next + n;
        assert(self.rest() =~= before.skip(n as int));
    }
}

fn intersect(prev: Option<RoaringTreemap>, next: RoaringTreemap) -> (r: RoaringTreemap)
    ensures
        treemap_ids(r) == narrowed(opt_ids(prev), treemap_ids(next)),
{
    match prev {
        Some(p) => intersection(p, &next),
        None => next,
    }
}

spec fn opt_ids(o: Option<RoaringTreemap>) -> Option<Set<u64>> {
    match o {
        Some(t) => Some(treemap_ids(t)),
        None => None,
    }
}

/// Puts the indexes' answers about `pred` together. There is one answer for
/// each of its [`lookups`]; `None` where no index knows.
pub fn try_index_eval(
    pred: &PredicateExpr,
    answers: Vec<Option<RoaringTreemap>>,
    params: &ParamBindings,
) -> (r: IndexEval)
    requires
        answers.len() == asks(pred@, params@).len(),
    ensures
        r@ == reduced(pred@, answer_sets(answers@), params@),
{
    let ghost sets = answer_sets(answers@);
    let mut left: Answers = Answers { slots: answers, next: 0 };
    assert(left.rest() =~= sets);
    assert(sets.take(sets.len() as int) =~= sets);
    eval_next(pred, &mut left, params)
}

/// What the next answers make of `pred`.
fn eval_next(pred: &PredicateExpr, answers: &mut Answers, params: &ParamBindings) -> (r: IndexEval)
    requires
        old(answers).wf(),
        asks(pred@, params@).len() <= old(answers).rest().len(),
    ensures
        final(answers).wf(),
        final(answers).rest() == old(answers).rest().skip(asks(pred@, params@).len() as int),
        r@ == reduced(
            pred@,
            old(answers).rest().take(asks(pred@, params@).len() as int),
            params@,
        ),
    decreases pred, 0int,
{
    let ghost before = answers.rest();
    match pred {
        PredicateExpr::Atom(a) => atom_eval(a, answers, params),
        PredicateExpr::And(children) => and_eval(children, answers, params),
        PredicateExpr::Or(children) => or_eval(children, answers, params),
        _ => {
            assert(before.skip(0) =~= before);
            IndexEval::Fallback
        },
    }
}

fn atom_eval(a: &PredAtom, answers: &mut Answers, params: &ParamBindings) -> (r: IndexEval)
    requires
        old(answers).wf(),
        asks(Cond::Atom(a@), params@).len() <= old(answers).rest().len(),
    ensures
        final(answers).wf(),
        final(answers).rest() == old(answers).rest().skip(
            asks(Cond::Atom(a@), params@).len() as int,
        ),
        r@ == reduced(
            Cond::Atom(a@),
            old(answers).rest().take(asks(Cond::Atom(a@), params@).len() as int),
            params@,
        ),
{
    let ghost before = answers.rest();
    if translate_atom(a, params).is_none() {
        assert(before.skip(0) =~= before);
        return IndexEval::Fallback;
    }
    match answers.take() {
        Some(bitmap) => IndexEval::Full(bitmap),
        None => IndexEval::Fallback,
    }
}

/// Moving on by one term.
proof fn lemma_step(cs: Seq<Cond>, i: int, answers: Seq<Option<Set<u64>>>, b: Bindings)
    requires
        0 <= i < cs.len(),
        asks_of_all(cs, b).len() <= answers.len(),
    ensures
        ({
            let m = asks_of_all(cs.take(i), b).len() as int;
            let k = asks(cs[i], b).len() as int;
            let n = asks_of_all(cs.take(i + 1), b).len() as int;
            let s = cs.take(i + 1);
            &&& n == m + k
            &&& n <= asks_of_all(cs, b).len()
            &&& s.len() == i + 1
            &&& s.subrange(0, i) == cs.take(i)
            &&& s[i] == cs[i]
            &&& answers.take(n).take(m) == answers.take(m)
            &&& answers.take(n).skip(m) == answers.skip(m).take(k)
            &&& answers.skip(m).skip(k) == answers.skip(n)
        }),
{
    lemma_asks_prefix(cs, i, b);
    lemma_asks_prefix(cs, i + 1, b);
    let m = asks_of_all(cs.take(i), b).len() as int;
    let k = asks(cs[i], b).len() as int;
    let n = asks_of_all(cs.take(i + 1), b).len() as int;
    let s = cs.take(i + 1);
    assert(s.subrange(0, i) =~= cs.take(i));
    assert(answers.take(n).take(m) =~= answers.take(m));
    assert(answers.take(n).skip(m) =~= answers.skip(m).take(k));
    assert(answers.skip(m).skip(k) =~= answers.skip(n));
}

fn and_eval(children: &Vec<PredicateExpr>, answers: &mut Answers, params: &ParamBindings) -> (r:
    IndexEval)
    requires
        old(answers).wf(),
        asks(Cond::And(conds(children@)), params@).len() <= old(answers).rest().len(),
    ensures
        final(answers).wf(),
        final(answers).rest() == old(answers).rest().skip(
            asks(Cond::And(conds(children@)), params@).len() as int,
        ),
        r@ == reduced(
            Cond::And(conds(children@)),
            old(answers).rest().take(asks(Cond::And(conds(children@)), params@).len() as int),
            params@,
        ),
    decreases children, 1int,
{
    let ghost cs = conds(children@);
    let ghost all = answers.rest();
    let ghost b = params@;
    let mut candidates: Option<RoaringTreemap> = None;
    let mut residue: Vec<PredicateExpr> = Vec::new();
    let mut i: usize = 0;
    proof {
        assert(cs.take(0) =~= Seq::empty());
        assert(all.skip(0) =~= all);
        assert(conds(residue@) =~= Seq::empty());
        assert(asks(Cond::And(cs), b) == asks_of_all(cs, b));
    }
    while i < children.len()
        invariant
            i <= children.len(),
            cs == conds(children@),
            b == params@,
            asks_of_all(cs, b).len() <= all.len(),
            answers.wf(),
            answers.rest() == all.skip(asks_of_all(cs.take(i as int), b).len() as int),
            parted(
                cs.take(i as int),
                all.take(asks_of_all(cs.take(i as int), b).len() as int),
                b,
            ) == (Partial { candidates: opt_ids(candidates), residue: conds(residue@) }),
        decreases children.len() - i,
    {
        let child: &PredicateExpr = &children[i];
        let ghost earlier = residue@;
        proof {
            lemma_step(cs, i as int, all, b);
            assert(cs[i as int] == child@);
            assert(decreases_to!(children => children@[i as int]));
        }
        match eval_next(child, answers, params) {
            IndexEval::Full(bm) => {
                candidates = Some(intersect(candidates, bm));
            },
            IndexEval::Hybrid { candidates: bm, residue: r } => {
                candidates = Some(intersect(candidates, bm));
                residue.push(r);
                assert(conds(residue@) =~= conds(earlier).push(r@));
            },
            IndexEval::Fallback => {
                let r: PredicateExpr = child.copy();
                residue.push(r);
                assert(conds(residue@) =~= conds(earlier).push(r@));
            },
        }
        i = i + 1;
    }
    assert(cs.take(i as int) =~= cs);
    match candidates {
        None => IndexEval::Fallback,
        Some(bm) => {
            if residue.len() > 1 {
                IndexEval::Hybrid { candidates: bm, residue: PredicateExpr::And(residue) }
            } else {
                assert(residue.len() == 1 ==> conds(residue@)[0] == residue@[0]@);
                match residue.pop() {
                    Some(r) => IndexEval::Hybrid { candidates: bm, residue: r },
                    None => IndexEval::Full(bm),
                }
            }
        },
    }
}

fn or_eval(children: &Vec<PredicateExpr>, answers: &mut Answers, params: &ParamBindings) -> (r:
    IndexEval)
    requires
        old(answers).wf(),
        asks(Cond::Or(conds(children@)), params@).len() <= old(answers).rest().len(),
    ensures
        final(answers).wf(),
        final(answers).rest() == old(answers).rest().skip(
            asks(Cond::Or(conds(children@)), params@).len() as int,
        ),
        r@ == reduced(
            Cond::Or(conds(children@)),
            old(answers).rest().take(asks(Cond::Or(conds(children@)), params@).len() as int),
            params@,
        ),
    decreases children, 1int,
{
    let ghost cs = conds(children@);
    let ghost all = answers.rest();
    let ghost b = params@;
    let mut acc: Option<RoaringTreemap> = None;
    let mut i: usize = 0;
    proof {
        assert(cs.take(0) =~= Seq::empty());
        assert(all.skip(0) =~= all);
        assert(asks(Cond::Or(cs), b) == asks_of_all(cs, b));
    }
    while i < children.len()
        invariant
            i <= children.len(),
            cs == conds(children@),
            b == params@,
            all == old(answers).rest(),
            asks(Cond::Or(cs), b) == asks_of_all(cs, b),
            asks_of_all(cs, b).len() <= all.len(),
            all.len() <= usize::MAX,
            answers.wf(),
            answers.rest() == all.skip(asks_of_all(cs.take(i as int), b).len() as int),
            acc is Some <==> i > 0,
            united(
                cs.take(i as int),
                all.take(asks_of_all(cs.take(i as int), b).len() as int),
                b,
            ) == Some(
                match opt_ids(acc) {
                    Some(s) => s,
                    None => Set::empty(),
                },
            ),
        decreases children.len() - i,
    {
        let child: &PredicateExpr = &children[i];
        proof {
            lemma_step(cs, i as int, all, b);
            assert(cs[i as int] == child@);
            assert(decreases_to!(children => children@[i as int]));
        }
        match eval_next(child, answers, params) {
            IndexEval::Full(bm) => {
                acc = Some(
                    match acc {
                        Some(prev) => union(prev, &bm),
                        None => {
                            assert(Set::<u64>::empty().union(treemap_ids(bm)) =~= treemap_ids(bm));
                            bm
                        },
                    },
                );
            },
            _ => {
                proof {
                    lemma_not_united(cs, i + 1, all, b);
                    assert(cs.take(i + 1).len() == i + 1);
                }
                let mut j: usize = i + 1;
                while j < children.len()
                    invariant
                        j <= children.len(),
                        cs == conds(children@),
                        b == params@,
                        all == old(answers).rest(),
                        asks(Cond::Or(cs), b) == asks_of_all(cs, b),
                        united(cs, all.take(asks_of_all(cs, b).len() as int), b) is None,
                        asks_of_all(cs, b).len() <= all.len(),
                        all.len() <= usize::MAX,
                        answers.wf(),
                        answers.rest() == all.skip(
                            asks_of_all(cs.take(j as int), b).len() as int,
                        ),
                    decreases children.len() - j,
                {
                    proof {
                        lemma_step(cs, j as int, all, b);
                        assert(cs[j as int] == children@[j as int]@);
                    }
                    answers.pass(lookup_count(&children[j], params));
                    j = j + 1;
                }
                assert(cs.take(j as int) =~= cs);
                return IndexEval::Fallback;
            },
        }
        i = i + 1;
    }
    assert(cs.take(i as int) =~= cs);
    match acc {
        Some(bm) => IndexEval::Full(bm),
        None => IndexEval::Fallback,
    }
}

/// A term that was not answered in full stays missing.
proof fn lemma_not_united(cs: Seq<Cond>, i: int, answers: Seq<Option<Set<u64>>>, b: Bindings)
    requires
        0 <= i <= cs.len(),
        asks_of_all(cs, b).len() <= answers.len(),
        united(cs.take(i), answers.take(asks_of_all(cs.take(i), b).len() as int), b) is None,
    ensures
        united(cs, answers.take(asks_of_all(cs, b).len() as int), b) is None,
    decreases cs.len() - i,
{
    if i == cs.len() {
        assert(cs.take(i) =~= cs);
    } else {
        lemma_step(cs, i, answers, b);
        lemma_not_united(cs, i + 1, answers, b);
    }
}

// ----- Indexes and scans agree -----

/// Whether the answers that there are say of one row what is true of it.
pub open spec fn answers_fit(
    questions: Seq<Ask>,
    answers: Seq<Option<Set<u64>>>,
    id: u64,
    bag: Bag,
) -> bool {
    questions.len() == answers.len() && forall|j: int|
        0 <= j < answers.len() ==> (#[trigger] answers[j] matches Some(s) ==> s.contains(id)
            == key_holds(questions[j], bag))
}

/// Whether the answers that there are list the rows that satisfy the
/// questions: those and no others.
pub open spec fn answers_exact(
    questions: Seq<Ask>,
    answers: Seq<Option<Set<u64>>>,
    rows: Map<u64, Bag>,
) -> bool {
    questions.len() == answers.len() && forall|j: int, id: u64|
        0 <= j < answers.len() && answers[j] is Some ==> (
        #[trigger] answers[j]->Some_0.contains(id) <==> rows.dom().contains(id) && key_holds(
            questions[j],
            rows[id],
        ))
}

/// The list of an `IN` question is the list of its atom.
proof fn lemma_ask_in(ls: Seq<Literal>, v: Val)
    requires
        literal_keys(ls) is Some,
    ensures
        (exists|i: int| 0 <= i < ls.len() && equal_vals(v, literal_val(#[trigger] ls[i]))) == (
        exists|i: int|
            0 <= i < literal_keys(ls)->Some_0.len() && equal_vals(
                v,
                #[trigger] literal_keys(ls)->Some_0[i],
            )),
{
    let ws = literal_keys(ls)->Some_0;
    assert forall|i: int| 0 <= i < ls.len() implies equal_vals(v, literal_val(#[trigger] ls[i]))
        == equal_vals(v, ws[i]) by {
        assert(ws[i] == literal_val(ls[i]));
    }
    if exists|i: int| 0 <= i < ls.len() && equal_vals(v, literal_val(#[trigger] ls[i])) {
        let i = choose|i: int|
            0 <= i < ls.len() && equal_vals(v, literal_val(#[trigger] ls[i]));
        assert(equal_vals(v, ws[i]));
    }
    if exists|i: int| 0 <= i < ws.len() && equal_vals(v, #[trigger] ws[i]) {
        let i = choose|i: int| 0 <= i < ws.len() && equal_vals(v, #[trigger] ws[i]);
        assert(equal_vals(v, literal_val(ls[i])));
    }
}

/// A question about an expression asks for its value.
proof fn lemma_expr_key(e: Expr, b: Bindings)
    ensures
        expr_key(e, b) matches Some(v) ==> expr_val(e, b) == Ok::<Val, Failure>(v),
{
}

/// A question asks what its atom asks.
proof fn lemma_ask(a: CondAtom, b: Bindings, bag: Bag)
    requires
        ask_of(a, b) is Some,
    ensures
        atom_holds(a, bag, b) == Ok::<bool, Failure>(key_holds(ask_of(a, b)->Some_0, bag)),
{
    match a {
        CondAtom::Eq(_, e) => lemma_expr_key(e, b),
        CondAtom::Cmp(_, op, e) => {
            lemma_expr_key(e, b);
            assert(plain_op(index_op(op)->Some_0) == op);
        },
        CondAtom::In(f, ls) => {
            if let Some(v) = field_val(f, bag) {
                lemma_ask_in(ls, v);
                let ws = literal_keys(ls)->Some_0;
                let q = ask_of(a, b)->Some_0;
                assert(q.key == Key::In(ws));
                assert(v == bag[q.field]);
                if exists|i: int| 0 <= i < ws.len() && equal_vals(v, #[trigger] ws[i]) {
                    let i = choose|i: int| 0 <= i < ws.len() && equal_vals(v, #[trigger] ws[i]);
                    assert(equal_vals(v, q.key->In_0[i]));
                }
            }
        },
        _ => {},
    }
}

/// What the indexes make of a condition says of one row what the condition
/// says.
proof fn lemma_reduced(
    c: Cond,
    answers: Seq<Option<Set<u64>>>,
    b: Bindings,
    id: u64,
    bag: Bag,
)
    requires
        answers_fit(asks(c, b), answers, id, bag),
    ensures
        match reduced(c, answers, b) {
            Reduced::Full(s) => cond_holds(c, bag, b) == Ok::<bool, Failure>(s.contains(id)),
            Reduced::Hybrid(s, r) => if s.contains(id) {
                cond_holds(c, bag, b) == cond_holds(r, bag, b)
            } else {
                cond_holds(c, bag, b) != Ok::<bool, Failure>(true)
            },
            Reduced::Fallback => true,
        },
    decreases c, 0int,
{
    match c {
        Cond::Atom(a) => {
            if ask_of(a, b) is Some {
                lemma_ask(a, b, bag);
                assert(answers[0] matches Some(s) ==> s.contains(id) == key_holds(
                    asks(c, b)[0],
                    bag,
                ));
            }
        },
        Cond::And(cs) => {
            lemma_parted(cs, answers, b, id, bag);
            let p = parted(cs, answers, b);
            if p.residue.len() == 1 {
                lemma_single_term(p.residue[0], bag, b);
                assert(p.residue =~= seq![p.residue[0]]);
            }
            assert(cond_holds(c, bag, b) == all_hold(cs, bag, b));
            assert(cond_holds(Cond::And(p.residue), bag, b) == all_hold(p.residue, bag, b));
        },
        Cond::Or(cs) => {
            lemma_united(cs, answers, b, id, bag);
        },
        _ => {},
    }
}

proof fn lemma_split_answers(
    cs: Seq<Cond>,
    answers: Seq<Option<Set<u64>>>,
    b: Bindings,
    id: u64,
    bag: Bag,
)
    requires
        cs.len() > 0,
        answers_fit(asks_of_all(cs, b), answers, id, bag),
    ensures
        ({
            let before = cs.subrange(0, cs.len() - 1);
            let last = cs[cs.len() - 1];
            let n = asks_of_all(before, b).len() as int;
            &&& answers_fit(asks_of_all(before, b), answers.take(n), id, bag)
            &&& answers_fit(asks(last, b), answers.skip(n), id, bag)
            &&& cs == before + seq![last]
        }),
{
    let before = cs.subrange(0, cs.len() - 1);
    let last = cs[cs.len() - 1];
    let n = asks_of_all(before, b).len() as int;
    let all = asks_of_all(cs, b);
    assert(all == asks_of_all(before, b) + asks(last, b));
    let left = answers.take(n);
    let right = answers.skip(n);
    assert forall|j: int| 0 <= j < left.len() implies (#[trigger] left[j] matches Some(s)
        ==> s.contains(id) == key_holds(asks_of_all(before, b)[j], bag)) by {
        assert(left[j] == answers[j]);
        assert(all[j] == asks_of_all(before, b)[j]);
    }
    assert forall|j: int| 0 <= j < right.len() implies (#[trigger] right[j] matches Some(s)
        ==> s.contains(id) == key_holds(asks(last, b)[j], bag)) by {
        assert(right[j] == answers[n + j]);
        assert(all[n + j] == asks(last, b)[j]);
    }
    assert(cs =~= before + seq![last]);
}

proof fn lemma_parted(
    cs: Seq<Cond>,
    answers: Seq<Option<Set<u64>>>,
    b: Bindings,
    id: u64,
    bag: Bag,
)
    requires
        answers_fit(asks_of_all(cs, b), answers, id, bag),
    ensures
        ({
            let p = parted(cs, answers, b);
            let in_all = p.candidates matches Some(s) ==> s.contains(id);
            &&& in_all ==> all_hold(cs, bag, b) == all_hold(p.residue, bag, b)
            &&& !in_all ==> all_hold(cs, bag, b) != Ok::<bool, Failure>(true)
            &&& p.residue.len() == 0 ==> all_hold(cs, bag, b) == Ok::<bool, Failure>(in_all)
        }),
    decreases cs, cs.len(),
{
    if cs.len() > 0 {
        let before = cs.subrange(0, cs.len() - 1);
        let last = cs[cs.len() - 1];
        let n = asks_of_all(before, b).len() as int;
        lemma_split_answers(cs, answers, b, id, bag);
        lemma_parted(before, answers.take(n), b, id, bag);
        lemma_reduced(last, answers.skip(n), b, id, bag);
        lemma_all_hold_concat(before, seq![last], bag, b);
        lemma_single_term(last, bag, b);
        let p = parted(before, answers.take(n), b);
        match reduced(last, answers.skip(n), b) {
            Reduced::Full(_) => {},
            Reduced::Hybrid(_, r) => {
                assert(p.residue.push(r) =~= p.residue + seq![r]);
                lemma_all_hold_concat(p.residue, seq![r], bag, b);
                lemma_single_term(r, bag, b);
            },
            Reduced::Fallback => {
                assert(p.residue.push(last) =~= p.residue + seq![last]);
                lemma_all_hold_concat(p.residue, seq![last], bag, b);
            },
        }
    }
}

proof fn lemma_united(
    cs: Seq<Cond>,
    answers: Seq<Option<Set<u64>>>,
    b: Bindings,
    id: u64,
    bag: Bag,
)
    requires
        answers_fit(asks_of_all(cs, b), answers, id, bag),
    ensures
        united(cs, answers, b) matches Some(s) ==> any_holds(cs, bag, b) == Ok::<bool, Failure>(
            s.contains(id),
        ),
    decreases cs, cs.len(),
{
    if cs.len() > 0 {
        let before = cs.subrange(0, cs.len() - 1);
        let last = cs[cs.len() - 1];
        let n = asks_of_all(before, b).len() as int;
        lemma_split_answers(cs, answers, b, id, bag);
        lemma_united(before, answers.take(n), b, id, bag);
        lemma_reduced(last, answers.skip(n), b, id, bag);
        lemma_any_holds_concat(before, seq![last], bag, b);
        lemma_single_term(last, bag, b);
    }
}

/// Where the indexes' answers are exact, the indexes and a scan agree on
/// every row:
///
/// - a full answer lists exactly the rows that satisfy the predicate, and the
///   predicate has a verdict on every row;
/// - every row that satisfies the predicate is a candidate, and on a
///   candidate the residue says what the predicate says, errors included.
pub proof fn law_indexes_agree_with_scan(
    c: Cond,
    answers: Seq<Option<Set<u64>>>,
    b: Bindings,
    rows: Map<u64, Bag>,
)
    requires
        answers_exact(asks(c, b), answers, rows),
    ensures
        match reduced(c, answers, b) {
            Reduced::Full(s) => forall|id: u64| #[trigger]
                rows.dom().contains(id) ==> cond_holds(c, rows[id], b) == Ok::<bool, Failure>(
                    s.contains(id),
                ),
            Reduced::Hybrid(s, r) => forall|id: u64| #[trigger]
                rows.dom().contains(id) ==> if s.contains(id) {
                    cond_holds(c, rows[id], b) == cond_holds(r, rows[id], b)
                } else {
                    cond_holds(c, rows[id], b) != Ok::<bool, Failure>(true)
                },
            Reduced::Fallback => true,
        },
{
    assert forall|id: u64| #[trigger] rows.dom().contains(id) implies answers_fit(
        asks(c, b),
        answers,
        id,
        rows[id],
    ) by {
        assert forall|j: int| 0 <= j < answers.len() implies (#[trigger] answers[j] matches Some(s)
            ==> s.contains(id) == key_holds(asks(c, b)[j], rows[id])) by {
            if answers[j] is Some {
                assert(answers[j]->Some_0.contains(id) <==> rows.dom().contains(id) && key_holds(
                    asks(c, b)[j],
                    rows[id],
                ));
            }
        }
    }
    assert forall|id: u64| #[trigger] rows.dom().contains(id) implies match reduced(c, answers, b) {
        Reduced::Full(s) => cond_holds(c, rows[id], b) == Ok::<bool, Failure>(s.contains(id)),
        Reduced::Hybrid(s, r) => if s.contains(id) {
            cond_holds(c, rows[id], b) == cond_holds(r, rows[id], b)
        } else {
            cond_holds(c, rows[id], b) != Ok::<bool, Failure>(true)
        },
        Reduced::Fallback => true,
    } by {
        lemma_reduced(c, answers, b, id, rows[id]);
    }
}

/// What an index is asked: about the field of the atom, which is not
/// subscripted, for the value that it is compared with, where that is a text,
/// a number or a boolean.
pub proof fn law_questions(f: Field, op: CmpOp, e: Expr, v: Val, b: Bindings, bag: Bag)
    requires
        f.subscript is None,
        match e {
            Expr::Literal(Literal::Str(s)) => v == Val::Str(s),
            Expr::Literal(Literal::I64(n)) => v == Val::I64(n),
            Expr::Literal(Literal::F64(x)) => v == Val::F64(x),
            Expr::Literal(Literal::Bool(t)) => v == Val::Bool(t),
            Expr::Literal(Literal::Null) => false,
            Expr::Param(p) => {
                ||| v is Str && resolve_arg(b, p) == Ok::<Arg, Failure>(Arg::Str(v->Str_0))
                ||| v is I64 && resolve_arg(b, p) == Ok::<Arg, Failure>(Arg::I64(v->I64_0))
                ||| v is F64 && resolve_arg(b, p) == Ok::<Arg, Failure>(Arg::F64(v->F64_0))
                ||| v is Bool && resolve_arg(b, p) == Ok::<Arg, Failure>(Arg::Bool(v->Bool_0))
            },
        },
        op != CmpOp::Eq,
    ensures
        asks(Cond::Atom(CondAtom::Eq(f, e)), b) == seq![Ask { field: f.name, key: Key::Eq(v) }],
        asks(Cond::Atom(CondAtom::IsNotNull(f)), b) == seq![
            Ask { field: f.name, key: Key::IsNotNull },
        ],
        key_holds(Ask { field: f.name, key: Key::Eq(v) }, bag) <==> bag.contains_key(f.name)
            && equal_vals(bag[f.name], v),
        key_holds(Ask { field: f.name, key: Key::IsNotNull }, bag) <==> bag.contains_key(f.name),
        asks(Cond::Atom(CondAtom::Cmp(f, op, e)), b).len() == 1,
        ({
            let q = asks(Cond::Atom(CondAtom::Cmp(f, op, e)), b)[0];
            &&& q.field == f.name
            &&& key_holds(q, bag) <==> bag.contains_key(f.name) && compare_vals(
                bag[f.name],
                v,
                op,
            ) == Some(true)
        }),
{
}

/// What each question asks of a row: nothing holds of a row that lacks the
/// field; an equality, a comparison, a list, a range and a containment hold as
/// they do in a predicate.
pub proof fn law_keys(field: Seq<char>, v: Val, w: Val, ws: Seq<Val>, bag: Bag)
    ensures
        forall|key: Key|
            !bag.contains_key(field) ==> !#[trigger] key_holds(Ask { field, key }, bag),
        bag.contains_key(field) ==> {
            let x = bag[field];
            &&& key_holds(Ask { field, key: Key::Eq(v) }, bag) <==> equal_vals(x, v)
            &&& key_holds(Ask { field, key: Key::Cmp(IndexCmpOp::Lt, v) }, bag) <==> compare_vals(
                x,
                v,
                CmpOp::Lt,
            ) == Some(true)
            &&& key_holds(Ask { field, key: Key::Cmp(IndexCmpOp::Le, v) }, bag) <==> compare_vals(
                x,
                v,
                CmpOp::Le,
            ) == Some(true)
            &&& key_holds(Ask { field, key: Key::Cmp(IndexCmpOp::Gt, v) }, bag) <==> compare_vals(
                x,
                v,
                CmpOp::Gt,
            ) == Some(true)
            &&& key_holds(Ask { field, key: Key::Cmp(IndexCmpOp::Ge, v) }, bag) <==> compare_vals(
                x,
                v,
                CmpOp::Ge,
            ) == Some(true)
            &&& key_holds(Ask { field, key: Key::Cmp(IndexCmpOp::Ne, v) }, bag) <==> compare_vals(
                x,
                v,
                CmpOp::Ne,
            ) == Some(true)
            &&& key_holds(Ask { field, key: Key::Between(v, w) }, bag) <==> compare_vals(
                x,
                v,
                CmpOp::Ge,
            ) == Some(true) && compare_vals(x, w, CmpOp::Le) == Some(true)
            &&& key_holds(Ask { field, key: Key::IsNotNull }, bag)
            &&& key_holds(Ask { field, key: Key::In(ws) }, bag) <==> exists|i: int|
                0 <= i < ws.len() && equal_vals(x, #[trigger] ws[i])
            &&& key_holds(Ask { field, key: Key::ArrayContains(v) }, bag) <==> x is Array && exists|
                i: int,
            |
                0 <= i < x->Array_0.len() && equal_vals(#[trigger] x->Array_0[i], v)
        },
{
    let x = bag[field];
    let q = Ask { field, key: Key::In(ws) };
    assert(q.key->In_0 == ws);
    if key_holds(q, bag) {
        let i = choose|i: int| 0 <= i < ws.len() && equal_vals(x, #[trigger] q.key->In_0[i]);
        assert(equal_vals(x, ws[i]));
    }
    if bag.contains_key(field) && exists|i: int|
        0 <= i < ws.len() && equal_vals(x, #[trigger] ws[i]) {
        let i = choose|i: int| 0 <= i < ws.len() && equal_vals(x, #[trigger] ws[i]);
        assert(equal_vals(x, q.key->In_0[i]));
    }
    if let Val::Array(xs) = x {
        assert(x->Array_0 == xs);
    }
}

/// A question asks what its atom asks: an index that lists the rows for which
/// the answer is yes lists those of which the atom holds.
pub proof fn law_question(a: CondAtom, b: Bindings, bag: Bag)
    requires
        ask_of(a, b) is Some,
    ensures
        atom_holds(a, bag, b) == Ok::<bool, Failure>(key_holds(ask_of(a, b)->Some_0, bag)),
{
    lemma_ask(a, b, bag);
}

} // verus!
