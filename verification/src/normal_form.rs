//! What binding promises: normal forms, and that they mean what was written.

use crate::ast::CmpOp;
use crate::binder::{
    all_and_terms, all_or_terms, and_terms, assigns_embedding, bound, comparison, conjunction,
    disjunction, is_knn, normal, normals, or_terms, plain_columns,
};
use crate::error::Failure;
use crate::eval::{all_hold, any_holds, atom_holds, cond_holds};
use crate::keyword::same_ignoring_case;
use crate::logical::{Column, Cond, CondAtom, Logical};
use crate::params::Bindings;
use crate::syntax::{Assign, Pred, Proj, Stmt};
use crate::value::Bag;
use vstd::prelude::*;

verus! {

/// Whether `c` is a tree without constants: flat, with `NOT` on atoms only.
pub open spec fn is_tree(c: Cond) -> bool
    decreases c,
{
    match c {
        Cond::Atom(_) => true,
        Cond::Not(d) => *d is Atom,
        Cond::And(cs) => cs.len() >= 2 && forall|i: int|
            0 <= i < cs.len() ==> is_tree(#[trigger] cs[i]) && !(cs[i] is And),
        Cond::Or(cs) => cs.len() >= 2 && forall|i: int|
            0 <= i < cs.len() ==> is_tree(#[trigger] cs[i]) && !(cs[i] is Or),
        Cond::True => false,
        Cond::False => false,
    }
}

/// Whether `c` is canonical: a constant, or a tree without constants.
pub open spec fn is_canonical(c: Cond) -> bool {
    c is True || c is False || is_tree(c)
}

/// Whether every combinator in `p` has a term.
pub open spec fn is_proper(p: Pred) -> bool
    decreases p,
{
    match p {
        Pred::And(ps) => ps.len() > 0 && forall|i: int|
            0 <= i < ps.len() ==> is_proper(#[trigger] ps[i]),
        Pred::Or(ps) => ps.len() > 0 && forall|i: int|
            0 <= i < ps.len() ==> is_proper(#[trigger] ps[i]),
        Pred::Not(q) => is_proper(*q),
        _ => true,
    }
}

spec fn and_ready(cs: Seq<Cond>) -> bool {
    forall|i: int| 0 <= i < cs.len() ==> is_tree(#[trigger] cs[i]) && !(cs[i] is And)
}

spec fn or_ready(cs: Seq<Cond>) -> bool {
    forall|i: int| 0 <= i < cs.len() ==> is_tree(#[trigger] cs[i]) && !(cs[i] is Or)
}

proof fn lemma_and_terms(cs: Seq<Cond>)
    requires
        forall|i: int| 0 <= i < cs.len() ==> is_canonical(#[trigger] cs[i]),
        !cs.contains(Cond::False),
    ensures
        and_ready(all_and_terms(cs)),
        (exists|i: int| 0 <= i < cs.len() && is_tree(#[trigger] cs[i])) ==> all_and_terms(cs).len()
            > 0,
    decreases cs.len(),
{
    if cs.len() > 0 {
        let p = cs.drop_last();
        assert forall|i: int| 0 <= i < p.len() implies is_canonical(#[trigger] p[i]) by {
            assert(p[i] == cs[i]);
        }
        assert(!p.contains(Cond::False)) by {
            if p.contains(Cond::False) {
                let i = choose|i: int| 0 <= i < p.len() && p[i] == Cond::False;
                assert(cs[i] == Cond::False);
            }
        }
        lemma_and_terms(p);
        let c = cs.last();
        assert(is_canonical(cs[cs.len() - 1]));
        assert(c != Cond::False) by {
            assert(cs[cs.len() - 1] == c);
        }
        assert(and_ready(and_terms(c)));
        if exists|i: int| 0 <= i < cs.len() && is_tree(#[trigger] cs[i]) {
            let i = choose|i: int| 0 <= i < cs.len() && is_tree(#[trigger] cs[i]);
            if i < p.len() {
                assert(is_tree(p[i]));
            }
        }
    }
}

proof fn lemma_or_terms(cs: Seq<Cond>)
    requires
        forall|i: int| 0 <= i < cs.len() ==> is_canonical(#[trigger] cs[i]),
        !cs.contains(Cond::True),
    ensures
        or_ready(all_or_terms(cs)),
        (exists|i: int| 0 <= i < cs.len() && is_tree(#[trigger] cs[i])) ==> all_or_terms(cs).len()
            > 0,
    decreases cs.len(),
{
    if cs.len() > 0 {
        let p = cs.drop_last();
        assert forall|i: int| 0 <= i < p.len() implies is_canonical(#[trigger] p[i]) by {
            assert(p[i] == cs[i]);
        }
        assert(!p.contains(Cond::True)) by {
            if p.contains(Cond::True) {
                let i = choose|i: int| 0 <= i < p.len() && p[i] == Cond::True;
                assert(cs[i] == Cond::True);
            }
        }
        lemma_or_terms(p);
        let c = cs.last();
        assert(is_canonical(cs[cs.len() - 1]));
        assert(c != Cond::True) by {
            assert(cs[cs.len() - 1] == c);
        }
        assert(or_ready(or_terms(c)));
        if exists|i: int| 0 <= i < cs.len() && is_tree(#[trigger] cs[i]) {
            let i = choose|i: int| 0 <= i < cs.len() && is_tree(#[trigger] cs[i]);
            if i < p.len() {
                assert(is_tree(p[i]));
            }
        }
    }
}

proof fn lemma_conjunction(cs: Seq<Cond>)
    requires
        forall|i: int| 0 <= i < cs.len() ==> is_canonical(#[trigger] cs[i]),
    ensures
        is_canonical(conjunction(cs)),
        cs.len() > 0 && (forall|i: int| 0 <= i < cs.len() ==> is_tree(#[trigger] cs[i]))
            ==> is_tree(conjunction(cs)) && !cs.contains(Cond::False),
{
    if cs.len() > 0 && (forall|i: int| 0 <= i < cs.len() ==> is_tree(#[trigger] cs[i])) {
        assert(!cs.contains(Cond::False)) by {
            if cs.contains(Cond::False) {
                let i = choose|i: int| 0 <= i < cs.len() && cs[i] == Cond::False;
                assert(is_tree(cs[i]));
            }
        }
        assert(is_tree(cs[0]));
    }
    if !cs.contains(Cond::False) {
        lemma_and_terms(cs);
        let terms = all_and_terms(cs);
        if terms.len() == 1 {
            assert(is_tree(terms[0]));
        }
    }
}

proof fn lemma_disjunction(cs: Seq<Cond>)
    requires
        forall|i: int| 0 <= i < cs.len() ==> is_canonical(#[trigger] cs[i]),
    ensures
        is_canonical(disjunction(cs)),
        cs.len() > 0 && (forall|i: int| 0 <= i < cs.len() ==> is_tree(#[trigger] cs[i]))
            ==> is_tree(disjunction(cs)) && !cs.contains(Cond::True),
{
    if cs.len() > 0 && (forall|i: int| 0 <= i < cs.len() ==> is_tree(#[trigger] cs[i])) {
        assert(!cs.contains(Cond::True)) by {
            if cs.contains(Cond::True) {
                let i = choose|i: int| 0 <= i < cs.len() && cs[i] == Cond::True;
                assert(is_tree(cs[i]));
            }
        }
        assert(is_tree(cs[0]));
    }
    if !cs.contains(Cond::True) {
        lemma_or_terms(cs);
        let terms = all_or_terms(cs);
        if terms.len() == 1 {
            assert(is_tree(terms[0]));
        }
    }
}

/// A bound predicate is canonical: flat, with `NOT` pushed down to the atoms,
/// constants folded, and constants at the root only. Where every combinator
/// has a term there is no constant at all.
pub proof fn law_normal_is_canonical(p: Pred, neg: bool)
    ensures
        is_canonical(normal(p, neg)),
        is_proper(p) ==> is_tree(normal(p, neg)),
    decreases p,
{
    match p {
        Pred::Not(q) => law_normal_is_canonical(*q, !neg),
        Pred::And(ps) => {
            let cs = normals(ps, neg);
            assert forall|i: int| 0 <= i < cs.len() implies is_canonical(#[trigger] cs[i]) && (
            is_proper(p) ==> is_tree(cs[i])) by {
                law_normal_is_canonical(ps[i], neg);
                if is_proper(p) {
                    assert(is_proper(ps[i]));
                }
            }
            lemma_conjunction(cs);
            lemma_disjunction(cs);
        },
        Pred::Or(ps) => {
            let cs = normals(ps, neg);
            assert forall|i: int| 0 <= i < cs.len() implies is_canonical(#[trigger] cs[i]) && (
            is_proper(p) ==> is_tree(cs[i])) by {
                law_normal_is_canonical(ps[i], neg);
                if is_proper(p) {
                    assert(is_proper(ps[i]));
                }
            }
            lemma_conjunction(cs);
            lemma_disjunction(cs);
        },
        _ => {},
    }
}

/// Whether no atom of `c` compares for equality but the atom for equality.
pub open spec fn equality_is_routed(c: Cond) -> bool
    decreases c,
{
    match c {
        Cond::Atom(CondAtom::Cmp(_, op, _)) => op != CmpOp::Eq,
        Cond::And(cs) => forall|i: int| 0 <= i < cs.len() ==> equality_is_routed(#[trigger] cs[i]),
        Cond::Or(cs) => forall|i: int| 0 <= i < cs.len() ==> equality_is_routed(#[trigger] cs[i]),
        Cond::Not(d) => equality_is_routed(*d),
        _ => true,
    }
}

proof fn lemma_routed_terms(cs: Seq<Cond>)
    requires
        forall|i: int| 0 <= i < cs.len() ==> equality_is_routed(#[trigger] cs[i]),
    ensures
        forall|i: int|
            0 <= i < all_and_terms(cs).len() ==> equality_is_routed(
                #[trigger] all_and_terms(cs)[i],
            ),
        forall|i: int|
            0 <= i < all_or_terms(cs).len() ==> equality_is_routed(#[trigger] all_or_terms(cs)[i]),
    decreases cs.len(),
{
    if cs.len() > 0 {
        let p = cs.drop_last();
        assert forall|i: int| 0 <= i < p.len() implies equality_is_routed(#[trigger] p[i]) by {
            assert(p[i] == cs[i]);
        }
        lemma_routed_terms(p);
        assert(equality_is_routed(cs[cs.len() - 1]));
        let a = and_terms(cs.last());
        let o = or_terms(cs.last());
        assert(forall|i: int| 0 <= i < a.len() ==> equality_is_routed(#[trigger] a[i]));
        assert(forall|i: int| 0 <= i < o.len() ==> equality_is_routed(#[trigger] o[i]));
        let x = all_and_terms(p);
        let y = all_or_terms(p);
        assert(all_and_terms(cs) == x + a);
        assert(all_or_terms(cs) == y + o);
        assert forall|i: int| 0 <= i < (x + a).len() implies equality_is_routed(
            #[trigger] (x + a)[i],
        ) by {
            assert((x + a)[i] == if i < x.len() {
                x[i]
            } else {
                a[i - x.len()]
            });
        }
        assert forall|i: int| 0 <= i < (y + o).len() implies equality_is_routed(
            #[trigger] (y + o)[i],
        ) by {
            assert((y + o)[i] == if i < y.len() {
                y[i]
            } else {
                o[i - y.len()]
            });
        }
    }
}

proof fn lemma_routed_combinators(cs: Seq<Cond>)
    requires
        forall|i: int| 0 <= i < cs.len() ==> equality_is_routed(#[trigger] cs[i]),
    ensures
        equality_is_routed(conjunction(cs)),
        equality_is_routed(disjunction(cs)),
{
    lemma_routed_terms(cs);
    let a = all_and_terms(cs);
    let o = all_or_terms(cs);
    assert(equality_is_routed(Cond::And(a)));
    assert(equality_is_routed(Cond::Or(o)));
    assert(a.len() == 1 ==> equality_is_routed(a[0]));
    assert(o.len() == 1 ==> equality_is_routed(o[0]));
}

/// Binding routes every comparison for equality to the atom for equality.
pub proof fn law_equality_is_routed(p: Pred, neg: bool)
    ensures
        equality_is_routed(normal(p, neg)),
    decreases p,
{
    reveal_with_fuel(equality_is_routed, 2);
    match p {
        Pred::Not(q) => law_equality_is_routed(*q, !neg),
        Pred::And(ps) => {
            let cs = normals(ps, neg);
            assert forall|i: int| 0 <= i < cs.len() implies equality_is_routed(#[trigger] cs[i]) by {
                law_equality_is_routed(ps[i], neg);
            }
            lemma_routed_combinators(cs);
        },
        Pred::Or(ps) => {
            let cs = normals(ps, neg);
            assert forall|i: int| 0 <= i < cs.len() implies equality_is_routed(#[trigger] cs[i]) by {
                law_equality_is_routed(ps[i], neg);
            }
            lemma_routed_combinators(cs);
        },
        _ => {},
    }
}

// ----- Meaning -----

/// What a row says of atoms.
pub open spec fn row_atoms(bag: Bag, b: Bindings) -> spec_fn(CondAtom) -> Result<bool, Failure> {
    |a: CondAtom| atom_holds(a, bag, b)
}

/// What a predicate comes to, as it is written, where its atoms come to what
/// `v` says: terms are looked at from left to right, up to the first that
/// decides.
pub open spec fn pred_verdict(
    p: Pred,
    v: spec_fn(CondAtom) -> Result<bool, Failure>,
) -> Result<bool, Failure>
    decreases p, 0int,
{
    match p {
        Pred::Eq(f, e) => v(CondAtom::Eq(f, e)),
        Pred::Cmp(f, op, e) => v(comparison(f, op, e)),
        Pred::In(f, ls) => v(CondAtom::In(f, ls)),
        Pred::Between(f, lo, hi) => v(CondAtom::Between(f, lo, hi)),
        Pred::IsNull(f, negated) => flip(v(CondAtom::IsNotNull(f)), !negated),
        Pred::ArrayContains(f, l) => v(CondAtom::ArrayContains(f, l)),
        Pred::DistanceThreshold(d, op, radius) => v(CondAtom::DistanceThreshold(d, op, radius)),
        Pred::Not(q) => flip(pred_verdict(*q, v), true),
        Pred::And(ps) => preds_verdict(ps, v, true),
        Pred::Or(ps) => preds_verdict(ps, v, false),
    }
}

/// Whether all of `ps` hold (or any, if not `all`): what those before the
/// last say, and the last where they leave it open.
pub open spec fn preds_verdict(
    ps: Seq<Pred>,
    v: spec_fn(CondAtom) -> Result<bool, Failure>,
    all: bool,
) -> Result<bool, Failure>
    decreases ps, ps.len(),
{
    if ps.len() == 0 {
        Ok(all)
    } else {
        match preds_verdict(ps.subrange(0, ps.len() - 1), v, all) {
            Ok(r) => if r == all {
                pred_verdict(ps[ps.len() - 1], v)
            } else {
                Ok(r)
            },
            Err(e) => Err(e),
        }
    }
}

/// Whether a predicate holds of a row, as it is written. A row by itself
/// knows no distance.
pub open spec fn pred_holds(p: Pred, bag: Bag, b: Bindings) -> Result<bool, Failure> {
    pred_verdict(p, row_atoms(bag, b))
}

/// What a condition comes to where its atoms come to what `v` says.
pub open spec fn verdict(
    c: Cond,
    v: spec_fn(CondAtom) -> Result<bool, Failure>,
) -> Result<bool, Failure>
    decreases c, 0int,
{
    match c {
        Cond::True => Ok(true),
        Cond::False => Ok(false),
        Cond::Atom(a) => v(a),
        Cond::Not(d) => flip(verdict(*d, v), true),
        Cond::And(cs) => verdict_of_all(cs, v),
        Cond::Or(cs) => verdict_of_any(cs, v),
    }
}

/// Whether all of `cs` hold, up to the first that does not.
pub open spec fn verdict_of_all(
    cs: Seq<Cond>,
    v: spec_fn(CondAtom) -> Result<bool, Failure>,
) -> Result<bool, Failure>
    decreases cs, cs.len(),
{
    if cs.len() == 0 {
        Ok(true)
    } else {
        match verdict(cs[0], v) {
            Ok(true) => verdict_of_all(cs.subrange(1, cs.len() as int), v),
            Ok(false) => Ok(false),
            Err(e) => Err(e),
        }
    }
}

/// Whether any of `cs` holds, up to the first that does.
pub open spec fn verdict_of_any(
    cs: Seq<Cond>,
    v: spec_fn(CondAtom) -> Result<bool, Failure>,
) -> Result<bool, Failure>
    decreases cs, cs.len(),
{
    if cs.len() == 0 {
        Ok(false)
    } else {
        match verdict(cs[0], v) {
            Ok(false) => verdict_of_any(cs.subrange(1, cs.len() as int), v),
            Ok(true) => Ok(true),
            Err(e) => Err(e),
        }
    }
}

/// A verdict, or its negation.
pub open spec fn flip(r: Result<bool, Failure>, neg: bool) -> Result<bool, Failure> {
    match r {
        Ok(v) => Ok(v != neg),
        Err(e) => Err(e),
    }
}

/// Evaluating a condition on a row is its verdict on what the row says.
pub proof fn lemma_cond_holds(c: Cond, bag: Bag, b: Bindings)
    ensures
        cond_holds(c, bag, b) == verdict(c, row_atoms(bag, b)),
    decreases c, 0int,
{
    match c {
        Cond::Not(d) => lemma_cond_holds(*d, bag, b),
        Cond::And(cs) => lemma_all_hold(cs, bag, b),
        Cond::Or(cs) => lemma_any_holds(cs, bag, b),
        _ => {},
    }
}

proof fn lemma_all_hold(cs: Seq<Cond>, bag: Bag, b: Bindings)
    ensures
        all_hold(cs, bag, b) == verdict_of_all(cs, row_atoms(bag, b)),
    decreases cs, cs.len(),
{
    if cs.len() > 0 {
        lemma_cond_holds(cs[0], bag, b);
        lemma_all_hold(cs.subrange(1, cs.len() as int), bag, b);
    }
}

proof fn lemma_any_holds(cs: Seq<Cond>, bag: Bag, b: Bindings)
    ensures
        any_holds(cs, bag, b) == verdict_of_any(cs, row_atoms(bag, b)),
    decreases cs, cs.len(),
{
    if cs.len() > 0 {
        lemma_cond_holds(cs[0], bag, b);
        lemma_any_holds(cs.subrange(1, cs.len() as int), bag, b);
    }
}

/// All of two lists of terms hold: the first list decides, or the second.
pub proof fn lemma_all_concat(
    x: Seq<Cond>,
    y: Seq<Cond>,
    v: spec_fn(CondAtom) -> Result<bool, Failure>,
)
    ensures
        verdict_of_all(x + y, v) == (match verdict_of_all(x, v) {
            Ok(true) => verdict_of_all(y, v),
            Ok(false) => Ok::<bool, Failure>(false),
            Err(e) => Err(e),
        }),
    decreases x.len(),
{
    if x.len() == 0 {
        assert(x + y =~= y);
    } else {
        assert((x + y).subrange(1, (x + y).len() as int) =~= x.subrange(1, x.len() as int) + y);
        lemma_all_concat(x.subrange(1, x.len() as int), y, v);
    }
}

/// One of two lists of terms holds: the first list decides, or the second.
pub proof fn lemma_any_concat(
    x: Seq<Cond>,
    y: Seq<Cond>,
    v: spec_fn(CondAtom) -> Result<bool, Failure>,
)
    ensures
        verdict_of_any(x + y, v) == (match verdict_of_any(x, v) {
            Ok(false) => verdict_of_any(y, v),
            Ok(true) => Ok::<bool, Failure>(true),
            Err(e) => Err(e),
        }),
    decreases x.len(),
{
    if x.len() == 0 {
        assert(x + y =~= y);
    } else {
        assert((x + y).subrange(1, (x + y).len() as int) =~= x.subrange(1, x.len() as int) + y);
        lemma_any_concat(x.subrange(1, x.len() as int), y, v);
    }
}

/// One term alone decides.
pub proof fn lemma_single_verdict(c: Cond, v: spec_fn(CondAtom) -> Result<bool, Failure>)
    ensures
        verdict_of_all(seq![c], v) == verdict(c, v),
        verdict_of_any(seq![c], v) == verdict(c, v),
{
    let s = seq![c];
    assert(s.subrange(1, 1) =~= Seq::empty());
    reveal_with_fuel(verdict_of_all, 2);
    reveal_with_fuel(verdict_of_any, 2);
    assert(verdict_of_all(Seq::<Cond>::empty(), v) == Ok::<bool, Failure>(true));
    assert(verdict_of_any(Seq::<Cond>::empty(), v) == Ok::<bool, Failure>(false));
}

/// All of two lists of terms hold of a row.
pub proof fn lemma_all_hold_concat(x: Seq<Cond>, y: Seq<Cond>, bag: Bag, b: Bindings)
    ensures
        all_hold(x + y, bag, b) == (match all_hold(x, bag, b) {
            Ok(true) => all_hold(y, bag, b),
            Ok(false) => Ok::<bool, Failure>(false),
            Err(e) => Err(e),
        }),
{
    lemma_all_hold(x, bag, b);
    lemma_all_hold(y, bag, b);
    lemma_all_hold(x + y, bag, b);
    lemma_all_concat(x, y, row_atoms(bag, b));
}

/// One of two lists of terms holds of a row.
pub proof fn lemma_any_holds_concat(x: Seq<Cond>, y: Seq<Cond>, bag: Bag, b: Bindings)
    ensures
        any_holds(x + y, bag, b) == (match any_holds(x, bag, b) {
            Ok(false) => any_holds(y, bag, b),
            Ok(true) => Ok::<bool, Failure>(true),
            Err(e) => Err(e),
        }),
{
    lemma_any_holds(x, bag, b);
    lemma_any_holds(y, bag, b);
    lemma_any_holds(x + y, bag, b);
    lemma_any_concat(x, y, row_atoms(bag, b));
}

/// One term alone decides on a row.
pub proof fn lemma_single_term(c: Cond, bag: Bag, b: Bindings)
    ensures
        all_hold(seq![c], bag, b) == cond_holds(c, bag, b),
        any_holds(seq![c], bag, b) == cond_holds(c, bag, b),
{
    lemma_cond_holds(c, bag, b);
    lemma_all_hold(seq![c], bag, b);
    lemma_any_holds(seq![c], bag, b);
    lemma_single_verdict(c, row_atoms(bag, b));
}

proof fn lemma_conjunction_meaning(cs: Seq<Cond>, v: spec_fn(CondAtom) -> Result<bool, Failure>)
    requires
        cs.len() > 0,
        forall|i: int| 0 <= i < cs.len() ==> is_tree(#[trigger] cs[i]),
    ensures
        verdict(conjunction(cs), v) == verdict_of_all(all_and_terms(cs), v),
{
    lemma_conjunction(cs);
    lemma_and_terms(cs);
    assert(is_tree(cs[0]));
    let terms = all_and_terms(cs);
    if terms.len() == 1 {
        lemma_single_verdict(terms[0], v);
        assert(terms =~= seq![terms[0]]);
    }
}

proof fn lemma_disjunction_meaning(cs: Seq<Cond>, v: spec_fn(CondAtom) -> Result<bool, Failure>)
    requires
        cs.len() > 0,
        forall|i: int| 0 <= i < cs.len() ==> is_tree(#[trigger] cs[i]),
    ensures
        verdict(disjunction(cs), v) == verdict_of_any(all_or_terms(cs), v),
{
    lemma_disjunction(cs);
    lemma_or_terms(cs);
    assert(is_tree(cs[0]));
    let terms = all_or_terms(cs);
    if terms.len() == 1 {
        lemma_single_verdict(terms[0], v);
        assert(terms =~= seq![terms[0]]);
    }
}

/// The terms of `ps`, or of their negations, say together what `ps` say.
proof fn lemma_terms_meaning(
    ps: Seq<Pred>,
    neg: bool,
    all: bool,
    v: spec_fn(CondAtom) -> Result<bool, Failure>,
)
    requires
        forall|i: int| 0 <= i < ps.len() ==> is_proper(#[trigger] ps[i]),
    ensures
        ({
            let cs = normals(ps, neg);
            let r = flip(preds_verdict(ps, v, all), neg);
            if all != neg {
                verdict_of_all(all_and_terms(cs), v) == r
            } else {
                verdict_of_any(all_or_terms(cs), v) == r
            }
        }),
    decreases ps, ps.len(),
{
    let cs = normals(ps, neg);
    if ps.len() > 0 {
        let qs = ps.subrange(0, ps.len() - 1);
        let p = ps[ps.len() - 1];
        assert forall|i: int| 0 <= i < qs.len() implies is_proper(#[trigger] qs[i]) by {
            assert(qs[i] == ps[i]);
        }
        lemma_terms_meaning(qs, neg, all, v);
        assert(cs.drop_last() =~= normals(qs, neg));
        assert(cs.last() == normal(p, neg));
        law_normal_keeps_verdict(p, neg, v);
        law_normal_is_canonical(p, neg);
        let c = normal(p, neg);
        lemma_single_verdict(c, v);
        lemma_all_concat(all_and_terms(cs.drop_last()), and_terms(c), v);
        lemma_any_concat(all_or_terms(cs.drop_last()), or_terms(c), v);
        assert(verdict_of_all(and_terms(c), v) == verdict(c, v));
        assert(verdict_of_any(or_terms(c), v) == verdict(c, v));
    } else {
        assert(verdict_of_all(Seq::<Cond>::empty(), v) == Ok::<bool, Failure>(true));
        assert(verdict_of_any(Seq::<Cond>::empty(), v) == Ok::<bool, Failure>(false));
    }
}

/// Binding keeps the meaning of a predicate however its atoms turn out, with
/// its verdict and its first error: the normal form of a predicate (or of its
/// negation) holds where the predicate does (or does not).
pub proof fn law_normal_keeps_verdict(
    p: Pred,
    neg: bool,
    v: spec_fn(CondAtom) -> Result<bool, Failure>,
)
    requires
        is_proper(p),
    ensures
        verdict(normal(p, neg), v) == flip(pred_verdict(p, v), neg),
    decreases p, 0int,
{
    reveal_with_fuel(verdict, 2);
    match p {
        Pred::Not(q) => law_normal_keeps_verdict(*q, !neg, v),
        Pred::And(ps) => {
            lemma_terms_meaning(ps, neg, true, v);
            lemma_normals_are_trees(ps, neg);
            if neg {
                lemma_disjunction_meaning(normals(ps, neg), v);
            } else {
                lemma_conjunction_meaning(normals(ps, neg), v);
            }
        },
        Pred::Or(ps) => {
            lemma_terms_meaning(ps, neg, false, v);
            lemma_normals_are_trees(ps, neg);
            if neg {
                lemma_conjunction_meaning(normals(ps, neg), v);
            } else {
                lemma_disjunction_meaning(normals(ps, neg), v);
            }
        },
        _ => {},
    }
}

/// Binding keeps what a predicate says of every row, errors included.
pub proof fn law_normal_keeps_meaning(p: Pred, neg: bool, bag: Bag, b: Bindings)
    requires
        is_proper(p),
    ensures
        cond_holds(normal(p, neg), bag, b) == flip(pred_holds(p, bag, b), neg),
{
    lemma_cond_holds(normal(p, neg), bag, b);
    law_normal_keeps_verdict(p, neg, row_atoms(bag, b));
}

proof fn lemma_normals_are_trees(ps: Seq<Pred>, neg: bool)
    requires
        forall|i: int| 0 <= i < ps.len() ==> is_proper(#[trigger] ps[i]),
    ensures
        forall|i: int| 0 <= i < ps.len() ==> is_tree(#[trigger] normals(ps, neg)[i]),
{
    assert forall|i: int| 0 <= i < ps.len() implies is_tree(#[trigger] normals(ps, neg)[i]) by {
        law_normal_is_canonical(ps[i], neg);
    }
}

/// The predicates that the grammar produces are proper.
pub proof fn law_shaped_is_proper(p: Pred)
    requires
        crate::shape::shaped_pred(p),
    ensures
        is_proper(p),
    decreases p,
{
    match p {
        Pred::And(ps) => {
            assert forall|i: int| 0 <= i < ps.len() implies is_proper(#[trigger] ps[i]) by {
                law_shaped_is_proper(ps[i]);
            }
        },
        Pred::Or(ps) => {
            assert forall|i: int| 0 <= i < ps.len() implies is_proper(#[trigger] ps[i]) by {
                law_shaped_is_proper(ps[i]);
            }
        },
        Pred::Not(q) => law_shaped_is_proper(*q),
        _ => {},
    }
}

// ----- Statements -----

/// The table that a statement names, if it names one.
pub open spec fn table_of(s: Stmt) -> Option<Seq<char>> {
    match s {
        Stmt::Select(q) => Some(q.from_table),
        Stmt::Insert { table, .. } => Some(table),
        Stmt::Update { table, .. } => Some(table),
        Stmt::Delete { table, .. } => Some(table),
        Stmt::Vacuum { table } => Some(table),
        Stmt::Checkpoint => None,
        Stmt::CreateIndex { table, .. } => Some(table),
        Stmt::DropIndex { table, .. } => Some(table),
    }
}

/// The table that a bound statement names, if it names one.
pub open spec fn logical_table(l: Logical) -> Option<Seq<char>> {
    match l {
        Logical::Query(q) => Some(q.from_table),
        Logical::InsertOne { table, .. } => Some(table),
        Logical::InsertMany { table, .. } => Some(table),
        Logical::Update { table, .. } => Some(table),
        Logical::Delete { table, .. } => Some(table),
        Logical::Vacuum { table } => Some(table),
        Logical::Checkpoint => None,
        Logical::CreateIndex { table, .. } => Some(table),
        Logical::DropIndex { table, .. } => Some(table),
    }
}

/// Binding carries the table name through unchanged, whatever it is.
pub proof fn law_table_is_carried(s: Stmt, l: Logical)
    requires
        bound(s) == Ok::<Logical, Failure>(l),
    ensures
        logical_table(l) == table_of(s),
{
}

/// No bound update assigns the embedding.
pub proof fn law_embedding_is_immutable(s: Stmt, l: Logical)
    requires
        bound(s) == Ok::<Logical, Failure>(l),
    ensures
        l matches Logical::Update { assignments, .. } ==> !assigns_embedding(assignments),
{
}

/// Every bound query that orders by distance has a limit, and a wildcard
/// stands alone in its projection.
pub proof fn law_bound_query(s: Stmt, l: Logical)
    requires
        bound(s) == Ok::<Logical, Failure>(l),
    ensures
        l matches Logical::Query(q) ==> (is_knn(q.ordering) ==> q.limit is Some) && (
        q.projection.contains(Column::Wildcard) ==> q.projection.len() == 1),
{
    match s {
        Stmt::Select(q) => {
            lemma_columns(q.projection);
        },
        _ => {},
    }
}

/// Columns line up with what was projected, and only a wildcard gives a
/// wildcard.
proof fn lemma_columns(ps: Seq<Proj>)
    ensures
        match plain_columns(ps) {
            Ok(cs) => cs.len() == ps.len() && forall|i: int|
                0 <= i < cs.len() ==> (#[trigger] cs[i] is Wildcard ==> ps[i] is Wildcard),
            Err(_) => true,
        },
    decreases ps.len(),
{
    if ps.len() > 0 {
        lemma_columns(ps.drop_last());
    }
}

/// An `UPDATE` is refused exactly where one of its assignments is to the
/// embedding, in any case. Otherwise it and every `DELETE` are bound, with the
/// table and the assignments as they are and the predicate in normal form.
pub proof fn law_writes_are_bound(t: Seq<char>, assignments: Seq<Assign>, p: Pred)
    ensures
        ({
            let update = bound(Stmt::Update { table: t, assignments, predicate: p });
            let delete = bound(Stmt::Delete { table: t, predicate: p });
            &&& update is Err <==> exists|i: int|
                0 <= i < assignments.len() && same_ignoring_case(
                    (#[trigger] assignments[i]).field,
                    "embedding"@,
                )
            &&& update matches Ok(l) ==> (l matches Logical::Update {
                table,
                predicate,
                assignments: kept,
                ..
            } && table == t && predicate == normal(p, false) && kept == assignments)
            &&& delete matches Ok(l) && l matches Logical::Delete { table, predicate, .. } && table
                == t && predicate == normal(p, false)
        }),
{
}

} // verus!
