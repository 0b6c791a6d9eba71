//! AST to [`LogicalStatement`]: name resolution, predicate normalisation, and
//! the hard semantic rejects (embedding update, distance ordering direction,
//! kNN without a limit, and so on).
//!
//! The binder is stateless, because the schema is inferred. It carries the
//! table name through unchanged: which tables exist is known at run time only.

use crate::ast::{
    models, views, AstAssignment, AstCreateIndex, AstExpr, AstFieldRef, AstInsert, AstInsertSource,
    AstLiteral, AstOrderBy, AstPredicate, AstProjection, AstQuery, AstStatement, CmpOp,
    IndexMethod, OrderDir,
};
use crate::error::{Failure, KovaQueryError};
use crate::eval::agrees_as;
use crate::keyword::{eq_ignore_case, same_ignoring_case};
use crate::logical::{
    conds, copy_opt, copy_param, opt_hint, BoundExpr, BoundLiteral, BoundProjection, BoundQuery,
    Column, Cond, CondAtom, FieldRef, Hint, IdHint, Logical, LogicalAssignment, LogicalCreateIndex,
    LogicalDelete, LogicalDropIndex, LogicalInsert, LogicalInsertSource, LogicalQuery,
    LogicalStatement, LogicalUpdate, LogicalVacuum, OrderingSpec, PredAtom, PredicateExpr,
    ProjectionSpec, SortKey,
};
use crate::syntax::{Assign, Expr, Field, Order, Param, Pred, Proj, Query, Source, Stmt};
use vstd::prelude::*;

verus! {

// ----- Predicates -----

/// An atom, or its negation.
pub open spec fn signed(a: CondAtom, neg: bool) -> Cond {
    if neg {
        Cond::Not(Box::new(Cond::Atom(a)))
    } else {
        Cond::Atom(a)
    }
}

/// What a condition contributes to a conjunction.
pub open spec fn and_terms(c: Cond) -> Seq<Cond> {
    match c {
        Cond::And(cs) => cs,
        Cond::True => Seq::empty(),
        _ => seq![c],
    }
}

/// What a condition contributes to a disjunction.
pub open spec fn or_terms(c: Cond) -> Seq<Cond> {
    match c {
        Cond::Or(cs) => cs,
        Cond::False => Seq::empty(),
        _ => seq![c],
    }
}

/// The terms of the conjunction of `cs`.
pub open spec fn all_and_terms(cs: Seq<Cond>) -> Seq<Cond>
    decreases cs.len(),
{
    if cs.len() == 0 {
        Seq::empty()
    } else {
        all_and_terms(cs.drop_last()) + and_terms(cs.last())
    }
}

/// The terms of the disjunction of `cs`.
pub open spec fn all_or_terms(cs: Seq<Cond>) -> Seq<Cond>
    decreases cs.len(),
{
    if cs.len() == 0 {
        Seq::empty()
    } else {
        all_or_terms(cs.drop_last()) + or_terms(cs.last())
    }
}

/// The conjunction of `cs`: flat, with constants folded.
pub open spec fn conjunction(cs: Seq<Cond>) -> Cond {
    let terms = all_and_terms(cs);
    if cs.contains(Cond::False) {
        Cond::False
    } else if terms.len() == 0 {
        Cond::True
    } else if terms.len() == 1 {
        terms[0]
    } else {
        Cond::And(terms)
    }
}

/// The disjunction of `cs`: flat, with constants folded.
pub open spec fn disjunction(cs: Seq<Cond>) -> Cond {
    let terms = all_or_terms(cs);
    if cs.contains(Cond::True) {
        Cond::True
    } else if terms.len() == 0 {
        Cond::False
    } else if terms.len() == 1 {
        terms[0]
    } else {
        Cond::Or(terms)
    }
}

/// The atom for a comparison. Equality has an atom of its own.
pub open spec fn comparison(f: Field, op: CmpOp, v: Expr) -> CondAtom {
    if op == CmpOp::Eq {
        CondAtom::Eq(f, v)
    } else {
        CondAtom::Cmp(f, op, v)
    }
}

/// The normal form of a predicate, or of its negation: `NOT` is pushed down
/// to the atoms, and `IS NULL` is the negation of `IS NOT NULL`.
pub open spec fn normal(p: Pred, neg: bool) -> Cond
    decreases p, 0int,
{
    match p {
        Pred::Eq(f, v) => signed(CondAtom::Eq(f, v), neg),
        Pred::Cmp(f, op, v) => signed(comparison(f, op, v), neg),
        Pred::In(f, ls) => signed(CondAtom::In(f, ls), neg),
        Pred::Between(f, lo, hi) => signed(CondAtom::Between(f, lo, hi), neg),
        Pred::IsNull(f, negated) => signed(CondAtom::IsNotNull(f), neg == negated),
        Pred::ArrayContains(f, l) => signed(CondAtom::ArrayContains(f, l), neg),
        Pred::DistanceThreshold(d, op, radius) => signed(
            CondAtom::DistanceThreshold(d, op, radius),
            neg,
        ),
        Pred::Not(q) => normal(*q, !neg),
        Pred::And(ps) => if neg {
            disjunction(normals(ps, neg))
        } else {
            conjunction(normals(ps, neg))
        },
        Pred::Or(ps) => if neg {
            conjunction(normals(ps, neg))
        } else {
            disjunction(normals(ps, neg))
        },
    }
}

/// The normal forms of `ps`, in order.
pub open spec fn normals(ps: Seq<Pred>, neg: bool) -> Seq<Cond>
    decreases ps, 1int,
{
    Seq::new(
        ps.len(),
        |i: int|
            if 0 <= i < ps.len() {
                normal(ps[i], neg)
            } else {
                Cond::True
            },
    )
}

/// The single id that a condition asks for: `id = <non-negative integer>` or
/// `id = $param`.
pub open spec fn hint_of(c: Cond) -> Option<Hint> {
    match c {
        Cond::Atom(CondAtom::Eq(f, v)) => if f.subscript is None && same_ignoring_case(
            f.name,
            "id"@,
        ) {
            match v {
                Expr::Literal(crate::syntax::Literal::I64(n)) => if n >= 0 {
                    Some(Hint::Literal(n as u64))
                } else {
                    None
                },
                Expr::Literal(_) => None,
                Expr::Param(p) => Some(Hint::Param(p)),
            }
        } else {
            None
        },
        _ => None,
    }
}

fn bind_literal(l: &AstLiteral) -> (r: BoundLiteral)
    ensures
        r@ == l@,
{
    match l {
        AstLiteral::String(s) => BoundLiteral::String(s.clone()),
        AstLiteral::I64(n) => BoundLiteral::I64(*n),
        AstLiteral::F64(b) => BoundLiteral::F64(*b),
        AstLiteral::Bool(b) => BoundLiteral::Bool(*b),
        AstLiteral::Null => BoundLiteral::Null,
    }
}

fn bind_expr(e: &AstExpr) -> (r: BoundExpr)
    ensures
        r@ == e@,
{
    match e {
        AstExpr::Param(p) => BoundExpr::Param(copy_param(p)),
        AstExpr::Literal(l) => BoundExpr::Literal(bind_literal(l)),
    }
}

fn bind_field(f: &AstFieldRef) -> (r: FieldRef)
    ensures
        r@ == f@,
{
    FieldRef { name: f.name.clone(), subscript: copy_opt(&f.subscript) }
}

fn bind_literals(ls: &Vec<AstLiteral>) -> (r: Vec<BoundLiteral>)
    ensures
        views(r@) == views(ls@),
{
    let mut r: Vec<BoundLiteral> = Vec::new();
    let mut i: usize = 0;
    while i < ls.len()
        invariant
            i <= ls.len(),
            views(r@) =~= views(ls@).take(i as int),
        decreases ls.len() - i,
    {
        let l: BoundLiteral = bind_literal(&ls[i]);
        let ghost before = r@;
        r.push(l);
        assert(views(before.push(l)) =~= views(before).push(l@));
        i = i + 1;
    }
    assert(views(ls@).take(ls.len() as int) =~= views(ls@));
    r
}

/// The terms that `p` contributes to a conjunction.
fn exec_and_terms(p: PredicateExpr) -> (r: Vec<PredicateExpr>)
    ensures
        conds(r@) == and_terms(p@),
{
    let ghost c = p@;
    match p {
        PredicateExpr::And(ps) => ps,
        PredicateExpr::True => {
            let r: Vec<PredicateExpr> = Vec::new();
            assert(conds(r@) =~= Seq::empty());
            r
        },
        _ => {
            let mut r: Vec<PredicateExpr> = Vec::new();
            r.push(p);
            assert(conds(r@) =~= seq![c]);
            r
        },
    }
}

/// The terms that `p` contributes to a disjunction.
fn exec_or_terms(p: PredicateExpr) -> (r: Vec<PredicateExpr>)
    ensures
        conds(r@) == or_terms(p@),
{
    let ghost c = p@;
    match p {
        PredicateExpr::Or(ps) => ps,
        PredicateExpr::False => {
            let r: Vec<PredicateExpr> = Vec::new();
            assert(conds(r@) =~= Seq::empty());
            r
        },
        _ => {
            let mut r: Vec<PredicateExpr> = Vec::new();
            r.push(p);
            assert(conds(r@) =~= seq![c]);
            r
        },
    }
}

fn is_true(p: &PredicateExpr) -> (r: bool)
    ensures
        r == (p@ == Cond::True),
{
    match p {
        PredicateExpr::True => true,
        _ => false,
    }
}

fn is_false(p: &PredicateExpr) -> (r: bool)
    ensures
        r == (p@ == Cond::False),
{
    match p {
        PredicateExpr::False => true,
        _ => false,
    }
}

/// The normal form of the conjunction (or disjunction, if `either`) of the
/// normal forms of `ps`.
fn bind_terms(ps: &Vec<AstPredicate>, neg: bool, either: bool) -> (r: PredicateExpr)
    ensures
        r@ == if either {
            disjunction(normals(models(ps@), neg))
        } else {
            conjunction(normals(models(ps@), neg))
        },
    decreases ps, 1int,
{
    let ghost cs = normals(models(ps@), neg);
    let mut terms: Vec<PredicateExpr> = Vec::new();
    let mut decided: bool = false;
    let mut i: usize = 0;
    proof {
        assert(conds(terms@) =~= Seq::empty());
        assert(cs.take(0) =~= Seq::empty());
    }
    while i < ps.len()
        invariant
            i <= ps.len(),
            cs == normals(models(ps@), neg),
            conds(terms@) == if either {
                all_or_terms(cs.take(i as int))
            } else {
                all_and_terms(cs.take(i as int))
            },
            decided == exists|j: int|
                0 <= j < i && #[trigger] cs[j] == if either {
                    Cond::True
                } else {
                    Cond::False
                },
        decreases ps.len() - i,
    {
        assert(decreases_to!(ps => ps@[i as int]));
        let p: PredicateExpr = bind_predicate(&ps[i], neg);
        proof {
            assert(models(ps@)[i as int] == ps@[i as int]@);
            assert(p@ == cs[i as int]);
            assert(cs.take(i + 1).drop_last() =~= cs.take(i as int));
            assert(cs.take(i + 1).last() == cs[i as int]);
        }
        let ghost before = terms@;
        if either {
            if is_true(&p) {
                decided = true;
            }
            let mut more: Vec<PredicateExpr> = exec_or_terms(p);
            assert(conds(before + more@) =~= conds(before) + conds(more@));
            terms.append(&mut more);
        } else {
            if is_false(&p) {
                decided = true;
            }
            let mut more: Vec<PredicateExpr> = exec_and_terms(p);
            assert(conds(before + more@) =~= conds(before) + conds(more@));
            terms.append(&mut more);
        }
        i = i + 1;
    }
    proof {
        assert(cs.take(i as int) =~= cs);
        assert(decided == cs.contains(
            if either {
                Cond::True
            } else {
                Cond::False
            },
        ));
    }
    if decided {
        if either {
            PredicateExpr::True
        } else {
            PredicateExpr::False
        }
    } else if terms.len() == 0 {
        if either {
            PredicateExpr::False
        } else {
            PredicateExpr::True
        }
    } else if terms.len() == 1 {
        terms.swap_remove(0)
    } else if either {
        PredicateExpr::Or(terms)
    } else {
        PredicateExpr::And(terms)
    }
}

fn exec_signed(a: PredAtom, neg: bool) -> (r: PredicateExpr)
    ensures
        r@ == signed(a@, neg),
{
    reveal_with_fuel(PredicateExpr::model, 2);
    if neg {
        PredicateExpr::Not(Box::new(PredicateExpr::Atom(a)))
    } else {
        PredicateExpr::Atom(a)
    }
}

/// The normal form of a predicate, or of its negation.
pub fn bind_predicate(p: &AstPredicate, neg: bool) -> (r: PredicateExpr)
    ensures
        r@ == normal(p@, neg),
    decreases p, 0int,
{
    match p {
        AstPredicate::Eq(f, v) => exec_signed(
            PredAtom::Eq { field: bind_field(f), value: bind_expr(v) },
            neg,
        ),
        AstPredicate::Cmp(f, op, v) => exec_signed(
            if *op == CmpOp::Eq {
                PredAtom::Eq { field: bind_field(f), value: bind_expr(v) }
            } else {
                PredAtom::Cmp { field: bind_field(f), op: *op, value: bind_expr(v) }
            },
            neg,
        ),
        AstPredicate::In(f, ls) => exec_signed(
            PredAtom::In { field: bind_field(f), values: bind_literals(ls) },
            neg,
        ),
        AstPredicate::Between(f, lo, hi) => exec_signed(
            PredAtom::Between {
                field: bind_field(f),
                lo: bind_literal(lo),
                hi: bind_literal(hi),
            },
            neg,
        ),
        AstPredicate::IsNull(f, negated) => exec_signed(
            PredAtom::IsNotNull { field: bind_field(f) },
            neg == *negated,
        ),
        AstPredicate::ArrayContains(f, l) => exec_signed(
            PredAtom::ArrayContains { field: bind_field(f), value: bind_literal(l) },
            neg,
        ),
        AstPredicate::DistanceThreshold(d, op, radius) => exec_signed(
            PredAtom::DistanceThreshold {
                metric: d.metric,
                param: copy_param(&d.param),
                op: *op,
                radius: *radius,
            },
            neg,
        ),
        AstPredicate::Not(q) => bind_predicate(q, !neg),
        AstPredicate::And(ps) => bind_terms(ps, neg, neg),
        AstPredicate::Or(ps) => bind_terms(ps, neg, !neg),
    }
}

/// The single id that a predicate asks for.
pub fn single_id_hint(p: &PredicateExpr) -> (r: Option<IdHint>)
    ensures
        opt_hint(r) == hint_of(p@),
{
    match p {
        PredicateExpr::Atom(PredAtom::Eq { field, value }) => {
            if field.subscript.is_none() && eq_ignore_case(field.name.as_str(), "id") {
                match value {
                    BoundExpr::Literal(BoundLiteral::I64(n)) => if *n >= 0 {
                        Some(IdHint::Literal(*n as u64))
                    } else {
                        None
                    },
                    BoundExpr::Literal(_) => None,
                    BoundExpr::Param(q) => Some(IdHint::Param(copy_param(q))),
                }
            } else {
                None
            }
        },
        _ => None,
    }
}

// ----- Projections and orderings -----

/// A column by its name; the magic names stand for the typed columns.
pub open spec fn named_column(name: Seq<char>, alias: Option<Seq<char>>) -> Column {
    if same_ignoring_case(name, "id"@) {
        Column::Id(alias)
    } else if same_ignoring_case(name, "metadata"@) {
        Column::Metadata(alias)
    } else {
        Column::Field(name, alias)
    }
}

/// A projected column without an alias. A distance needs one.
pub open spec fn plain_column(p: Proj) -> Result<Column, Failure> {
    match p {
        Proj::Wildcard => Ok(Column::Wildcard),
        Proj::CountStar => Ok(Column::CountStar(None)),
        Proj::Id => Ok(Column::Id(None)),
        Proj::Metadata => Ok(Column::Metadata(None)),
        Proj::DistanceExpr(_) => Err(
            Failure::Bind("a distance projection needs an alias: `embedding <op> $q AS name`"@),
        ),
        Proj::Field(name) => Ok(named_column(name, None)),
        Proj::Aliased(inner, alias) => match *inner {
            Proj::CountStar => Ok(Column::CountStar(Some(alias))),
            Proj::Id => Ok(Column::Id(Some(alias))),
            Proj::Metadata => Ok(Column::Metadata(Some(alias))),
            Proj::DistanceExpr(d) => Ok(Column::Distance(d, alias)),
            Proj::Field(name) => Ok(named_column(name, Some(alias))),
            _ => Err(Failure::Bind("only a single column can have an alias"@)),
        },
    }
}

/// The columns of a list, or the error of the first that has one.
pub open spec fn plain_columns(ps: Seq<Proj>) -> Result<Seq<Column>, Failure>
    decreases ps.len(),
{
    if ps.len() == 0 {
        Ok(Seq::empty())
    } else {
        match plain_columns(ps.drop_last()) {
            Ok(cs) => match plain_column(ps.last()) {
                Ok(c) => Ok(cs.push(c)),
                Err(e) => Err(e),
            },
            Err(e) => Err(e),
        }
    }
}

/// The columns of a projection. A wildcard stands alone.
pub open spec fn bound_columns(ps: Seq<Proj>) -> Result<Seq<Column>, Failure> {
    if ps.len() > 1 && ps.contains(Proj::Wildcard) {
        Err(Failure::Bind("wildcard cannot appear alongside other columns"@))
    } else {
        plain_columns(ps)
    }
}

/// An ordering key. Distances are ordered ascending only.
pub open spec fn bound_key(o: Order) -> Result<SortKey, Failure> {
    match o {
        Order::Distance(d, OrderDir::Asc) => Ok(SortKey::Distance(d)),
        Order::Distance(_, OrderDir::Desc) => Err(
            Failure::Bind("distance ordering is ascending only ; DESC is not supported"@),
        ),
        Order::Field(name, dir) => Ok(SortKey::Field(name, dir)),
    }
}

pub open spec fn bound_keys(os: Seq<Order>) -> Result<Seq<SortKey>, Failure>
    decreases os.len(),
{
    if os.len() == 0 {
        Ok(Seq::empty())
    } else {
        match bound_keys(os.drop_last()) {
            Ok(ks) => match bound_key(os.last()) {
                Ok(k) => Ok(ks.push(k)),
                Err(e) => Err(e),
            },
            Err(e) => Err(e),
        }
    }
}

/// Whether one of the keys is a distance.
pub open spec fn is_knn(ks: Seq<SortKey>) -> bool {
    exists|i: int| 0 <= i < ks.len() && #[trigger] ks[i] is Distance
}

/// The condition of an optional predicate.
pub open spec fn opt_normal(p: Option<Pred>) -> Option<Cond> {
    match p {
        Some(q) => Some(normal(q, false)),
        None => None,
    }
}

/// A bound `SELECT`. Ordering by distance needs a limit.
pub open spec fn bound_query(q: Query) -> Result<Logical, Failure> {
    match bound_columns(q.projection) {
        Ok(projection) => match bound_keys(q.order_by) {
            Ok(ordering) => if is_knn(ordering) && q.limit is None {
                Err(
                    Failure::Bind("a kNN query (ORDER BY a distance) needs a LIMIT"@),
                )
            } else {
                Ok(
                    Logical::Query(
                        BoundQuery {
                            from_table: q.from_table,
                            projection,
                            predicate: opt_normal(q.predicate),
                            ordering,
                            limit: q.limit,
                        },
                    ),
                )
            },
            Err(e) => Err(e),
        },
        Err(e) => Err(e),
    }
}

fn exec_named_column(name: &String, alias: Option<String>) -> (r: BoundProjection)
    ensures
        r@ == named_column(name@, crate::ast::opt_text(alias)),
{
    if eq_ignore_case(name.as_str(), "id") {
        BoundProjection::Id { alias }
    } else if eq_ignore_case(name.as_str(), "metadata") {
        BoundProjection::Metadata { alias }
    } else {
        BoundProjection::MetadataField { name: name.clone(), alias }
    }
}

fn bind_projection(p: &AstProjection) -> (r: Result<BoundProjection, KovaQueryError>)
    ensures
        agrees_as(r, plain_column(p@)),
{
    reveal_with_fuel(AstProjection::model, 2);
    match p {
        AstProjection::Wildcard => Ok(BoundProjection::Wildcard),
        AstProjection::CountStar => Ok(BoundProjection::CountStar { alias: None }),
        AstProjection::Id => Ok(BoundProjection::Id { alias: None }),
        AstProjection::Metadata => Ok(BoundProjection::Metadata { alias: None }),
        AstProjection::DistanceExpr(_) => Err(
            KovaQueryError::Bind(
                "a distance projection needs an alias: `embedding <op> $q AS name`".to_owned(),
            ),
        ),
        AstProjection::Field(name) => Ok(exec_named_column(name, None)),
        AstProjection::Aliased(inner, alias) => match &**inner {
            AstProjection::CountStar => Ok(
                BoundProjection::CountStar { alias: Some(alias.clone()) },
            ),
            AstProjection::Id => Ok(BoundProjection::Id { alias: Some(alias.clone()) }),
            AstProjection::Metadata => Ok(BoundProjection::Metadata { alias: Some(alias.clone()) }),
            AstProjection::DistanceExpr(d) => Ok(
                BoundProjection::Distance {
                    metric: d.metric,
                    param: copy_param(&d.param),
                    alias: alias.clone(),
                },
            ),
            AstProjection::Field(name) => Ok(exec_named_column(name, Some(alias.clone()))),
            _ => Err(KovaQueryError::Bind("only a single column can have an alias".to_owned())),
        },
    }
}

fn has_wildcard(ps: &Vec<AstProjection>) -> (r: bool)
    ensures
        r == views(ps@).contains(Proj::Wildcard),
{
    let mut i: usize = 0;
    while i < ps.len()
        invariant
            i <= ps.len(),
            forall|j: int| 0 <= j < i ==> #[trigger] views(ps@)[j] != Proj::Wildcard,
        decreases ps.len() - i,
    {
        match &ps[i] {
            AstProjection::Wildcard => {
                assert(views(ps@)[i as int] == Proj::Wildcard);
                return true;
            },
            _ => {},
        }
        i = i + 1;
    }
    false
}

fn bind_columns(ps: &Vec<AstProjection>) -> (r: Result<ProjectionSpec, KovaQueryError>)
    ensures
        agrees_as(r, bound_columns(views(ps@))),
{
    if ps.len() > 1 && has_wildcard(ps) {
        return Err(
            KovaQueryError::Bind("wildcard cannot appear alongside other columns".to_owned()),
        );
    }
    let mut columns: Vec<BoundProjection> = Vec::new();
    let ghost all = views(ps@);
    let mut i: usize = 0;
    proof {
        assert(all.take(0) =~= Seq::empty());
        assert(views(columns@) =~= Seq::empty());
    }
    while i < ps.len()
        invariant
            i <= ps.len(),
            all == views(ps@),
            plain_columns(all.take(i as int)) == Ok::<Seq<Column>, Failure>(views(columns@)),
            !(all.len() > 1 && all.contains(Proj::Wildcard)),
        decreases ps.len() - i,
    {
        proof {
            assert(all.take(i + 1).drop_last() =~= all.take(i as int));
            assert(all.take(i + 1).last() == all[i as int]);
        }
        match bind_projection(&ps[i]) {
            Ok(c) => {
                let ghost before = columns@;
                columns.push(c);
                assert(views(before.push(c)) =~= views(before).push(c@));
            },
            Err(e) => {
                proof {
                    lemma_columns_error(all, i + 1);
                }
                return Err(e);
            },
        }
        i = i + 1;
    }
    assert(all.take(i as int) =~= all);
    Ok(ProjectionSpec { columns })
}

/// The first error of a list is the error of the list.
proof fn lemma_columns_error(ps: Seq<Proj>, n: int)
    requires
        0 <= n <= ps.len(),
        plain_columns(ps.take(n)) is Err,
    ensures
        plain_columns(ps) == plain_columns(ps.take(n)),
    decreases ps.len() - n,
{
    if n < ps.len() {
        assert(ps.take(n + 1).drop_last() =~= ps.take(n));
        lemma_columns_error(ps, n + 1);
    } else {
        assert(ps.take(n) =~= ps);
    }
}

proof fn lemma_keys_error(os: Seq<Order>, n: int)
    requires
        0 <= n <= os.len(),
        bound_keys(os.take(n)) is Err,
    ensures
        bound_keys(os) == bound_keys(os.take(n)),
    decreases os.len() - n,
{
    if n < os.len() {
        assert(os.take(n + 1).drop_last() =~= os.take(n));
        lemma_keys_error(os, n + 1);
    } else {
        assert(os.take(n) =~= os);
    }
}

fn bind_key(o: &AstOrderBy) -> (r: Result<OrderingSpec, KovaQueryError>)
    ensures
        agrees_as(r, bound_key(o@)),
{
    match o {
        AstOrderBy::Distance(d, OrderDir::Asc) => Ok(
            OrderingSpec::Distance { metric: d.metric, param: copy_param(&d.param) },
        ),
        AstOrderBy::Distance(_, OrderDir::Desc) => Err(
            KovaQueryError::Bind(
                "distance ordering is ascending only ; DESC is not supported".to_owned(),
            ),
        ),
        AstOrderBy::Field(name, dir) => Ok(OrderingSpec::Field { name: name.clone(), dir: *dir }),
    }
}

fn bind_keys(os: &Vec<AstOrderBy>) -> (r: Result<Vec<OrderingSpec>, KovaQueryError>)
    ensures
        match (r, bound_keys(views(os@))) {
            (Ok(x), Ok(y)) => views(x@) == y,
            (Err(e), Err(f)) => e@ == f,
            _ => false,
        },
{
    let mut keys: Vec<OrderingSpec> = Vec::new();
    let ghost all = views(os@);
    let mut i: usize = 0;
    proof {
        assert(all.take(0) =~= Seq::empty());
        assert(views(keys@) =~= Seq::empty());
    }
    while i < os.len()
        invariant
            i <= os.len(),
            all == views(os@),
            bound_keys(all.take(i as int)) == Ok::<Seq<SortKey>, Failure>(views(keys@)),
        decreases os.len() - i,
    {
        proof {
            assert(all.take(i + 1).drop_last() =~= all.take(i as int));
            assert(all.take(i + 1).last() == all[i as int]);
        }
        match bind_key(&os[i]) {
            Ok(k) => {
                let ghost before = keys@;
                keys.push(k);
                assert(views(before.push(k)) =~= views(before).push(k@));
            },
            Err(e) => {
                proof {
                    lemma_keys_error(all, i + 1);
                }
                return Err(e);
            },
        }
        i = i + 1;
    }
    assert(all.take(i as int) =~= all);
    Ok(keys)
}

fn exec_is_knn(ks: &Vec<OrderingSpec>) -> (r: bool)
    ensures
        r == is_knn(views(ks@)),
{
    let mut i: usize = 0;
    while i < ks.len()
        invariant
            i <= ks.len(),
            forall|j: int| 0 <= j < i ==> !(#[trigger] views(ks@)[j] is Distance),
        decreases ks.len() - i,
    {
        match &ks[i] {
            OrderingSpec::Distance { .. } => {
                assert(views(ks@)[i as int] is Distance);
                return true;
            },
            _ => {},
        }
        i = i + 1;
    }
    false
}

fn bind_query(q: AstQuery) -> (r: Result<LogicalStatement, KovaQueryError>)
    ensures
        agrees_as(r, bound_query(q@)),
{
    let projection: ProjectionSpec = match bind_columns(&q.projection) {
        Ok(p) => p,
        Err(e) => {
            return Err(e);
        },
    };
    let ordering: Vec<OrderingSpec> = match bind_keys(&q.order_by) {
        Ok(k) => k,
        Err(e) => {
            return Err(e);
        },
    };
    if exec_is_knn(&ordering) && q.limit.is_none() {
        return Err(
            KovaQueryError::Bind("a kNN query (ORDER BY a distance) needs a LIMIT".to_owned()),
        );
    }
    let predicate: Option<PredicateExpr> = match &q.predicate {
        Some(p) => Some(bind_predicate(p, false)),
        None => None,
    };
    Ok(
        LogicalStatement::Query(
            LogicalQuery {
                from_table: q.from_table,
                projection,
                predicate,
                ordering,
                limit: q.limit,
            },
        ),
    )
}

// ----- Statements -----

/// Whether the column list is `(id, embedding, metadata)`.
pub open spec fn canonical_columns(columns: Seq<Seq<char>>) -> bool {
    columns.len() == 3 && same_ignoring_case(columns[0], "id"@) && same_ignoring_case(
        columns[1],
        "embedding"@,
    ) && same_ignoring_case(columns[2], "metadata"@)
}

/// A bound `INSERT`: the canonical columns, and one row of three parameters
/// or one batch parameter.
pub open spec fn bound_insert(
    table: Seq<char>,
    columns: Seq<Seq<char>>,
    source: Source,
) -> Result<Logical, Failure> {
    if !canonical_columns(columns) {
        Err(Failure::Bind("INSERT takes the columns (id, embedding, metadata)"@))
    } else {
        match source {
            Source::Param(batch) => Ok(Logical::InsertMany { table, batch }),
            Source::Rows(rows) => if rows.len() == 1 && rows[0].len() == 3 && rows[0][0] is Param
                && rows[0][1] is Param && rows[0][2] is Param {
                Ok(
                    Logical::InsertOne {
                        table,
                        id: rows[0][0]->Param_0,
                        embedding: rows[0][1]->Param_0,
                        metadata: rows[0][2]->Param_0,
                    },
                )
            } else {
                Err(Failure::Bind("INSERT takes one row of three parameters"@))
            },
        }
    }
}

/// Whether an assignment is to the embedding.
pub open spec fn assigns_embedding(v: Seq<Assign>) -> bool {
    exists|i: int|
        0 <= i < v.len() && same_ignoring_case((#[trigger] v[i]).field, "embedding"@)
}

/// The name of a method in lower case.
pub open spec fn method_word(m: IndexMethod) -> Seq<char> {
    match m {
        IndexMethod::Hash => "hash"@,
        IndexMethod::Btree => "btree"@,
        IndexMethod::Inverted => "inverted"@,
    }
}

/// The name of an index, made up from field and method where none is given.
pub open spec fn index_name(
    name: Option<Seq<char>>,
    method: IndexMethod,
    field: Seq<char>,
) -> Seq<char> {
    match name {
        Some(n) => n,
        None => "idx_"@ + field + "_"@ + method_word(method),
    }
}

/// What a statement means, or why it is rejected.
pub open spec fn bound(s: Stmt) -> Result<Logical, Failure> {
    match s {
        Stmt::Select(q) => bound_query(q),
        Stmt::Insert { table, columns, source } => bound_insert(table, columns, source),
        Stmt::Update { table, assignments, predicate } => if assigns_embedding(assignments) {
            Err(Failure::Bind("embeddings are immutable ; UPDATE cannot assign embedding"@))
        } else {
            let c = normal(predicate, false);
            Ok(Logical::Update { table, predicate: c, assignments, hint: hint_of(c) })
        },
        Stmt::Delete { table, predicate } => {
            let c = normal(predicate, false);
            Ok(Logical::Delete { table, predicate: c, hint: hint_of(c) })
        },
        Stmt::Vacuum { table } => Ok(Logical::Vacuum { table }),
        Stmt::Checkpoint => Ok(Logical::Checkpoint),
        Stmt::CreateIndex { name, table, method, field } => Ok(
            Logical::CreateIndex { name: index_name(name, method, field), table, method, field },
        ),
        Stmt::DropIndex { name, table } => Ok(Logical::DropIndex { name, table }),
    }
}

fn exec_canonical_columns(columns: &Vec<String>) -> (r: bool)
    ensures
        r == canonical_columns(views(columns@)),
{
    columns.len() == 3 && eq_ignore_case(columns[0].as_str(), "id") && eq_ignore_case(
        columns[1].as_str(),
        "embedding",
    ) && eq_ignore_case(columns[2].as_str(), "metadata")
}

fn bind_insert(i: AstInsert) -> (r: Result<LogicalStatement, KovaQueryError>)
    ensures
        agrees_as(r, bound_insert(i.table@, views(i.columns@), i.source@)),
{
    if !exec_canonical_columns(&i.columns) {
        return Err(
            KovaQueryError::Bind("INSERT takes the columns (id, embedding, metadata)".to_owned()),
        );
    }
    match &i.source {
        AstInsertSource::Param(batch) => Ok(
            LogicalStatement::Insert(
                LogicalInsert {
                    table: i.table,
                    rows: LogicalInsertSource::Batch { param: copy_param(batch) },
                },
            ),
        ),
        AstInsertSource::Rows(rows) => {
            if rows.len() == 1 && rows[0].len() == 3 {
                match (&rows[0][0], &rows[0][1], &rows[0][2]) {
                    (AstExpr::Param(id), AstExpr::Param(embedding), AstExpr::Param(metadata)) => {
                        return Ok(
                            LogicalStatement::Insert(
                                LogicalInsert {
                                    table: i.table,
                                    rows: LogicalInsertSource::Single {
                                        id: copy_param(id),
                                        embedding: copy_param(embedding),
                                        metadata: copy_param(metadata),
                                    },
                                },
                            ),
                        );
                    },
                    _ => {},
                }
            }
            Err(KovaQueryError::Bind("INSERT takes one row of three parameters".to_owned()))
        },
    }
}

fn exec_assigns_embedding(v: &Vec<AstAssignment>) -> (r: bool)
    ensures
        r == assigns_embedding(views(v@)),
{
    let mut i: usize = 0;
    while i < v.len()
        invariant
            i <= v.len(),
            forall|j: int|
                0 <= j < i ==> !same_ignoring_case(
                    (#[trigger] views(v@)[j]).field,
                    "embedding"@,
                ),
        decreases v.len() - i,
    {
        if eq_ignore_case(v[i].field.as_str(), "embedding") {
            assert(same_ignoring_case(views(v@)[i as int].field, "embedding"@));
            return true;
        }
        i = i + 1;
    }
    false
}

fn bind_assignments(v: &Vec<AstAssignment>) -> (r: Vec<LogicalAssignment>)
    ensures
        views(r@) == views(v@),
{
    let mut r: Vec<LogicalAssignment> = Vec::new();
    let mut i: usize = 0;
    while i < v.len()
        invariant
            i <= v.len(),
            views(r@) =~= views(v@).take(i as int),
        decreases v.len() - i,
    {
        let a: LogicalAssignment = LogicalAssignment {
            field: v[i].field.clone(),
            subscript: copy_opt(&v[i].subscript),
            value: bind_expr(&v[i].value),
        };
        let ghost before = r@;
        r.push(a);
        assert(views(before.push(a)) =~= views(before).push(a@));
        i = i + 1;
    }
    assert(views(v@).take(v.len() as int) =~= views(v@));
    r
}

fn exec_index_name(c: &AstCreateIndex) -> (r: String)
    ensures
        r@ == index_name(crate::ast::opt_text(c.name), c.method, c.field@),
{
    match &c.name {
        Some(n) => n.clone(),
        None => {
            let mut r: String = "idx_".to_owned();
            r.append(c.field.as_str());
            r.append("_");
            match c.method {
                IndexMethod::Hash => r.append("hash"),
                IndexMethod::Btree => r.append("btree"),
                IndexMethod::Inverted => r.append("inverted"),
            }
            r
        },
    }
}

/// Bind an [`AstStatement`] into a [`LogicalStatement`]. The error is
/// [`KovaQueryError::Bind`] for any semantic violation: embedding update,
/// distance ordering with `DESC`, kNN without a limit, wildcard in a list,
/// and so on.
pub fn bind(ast: AstStatement) -> (r: Result<LogicalStatement, KovaQueryError>)
    ensures
        agrees_as(r, bound(ast@)),
{
    match ast {
        AstStatement::Select(q) => bind_query(q),
        AstStatement::Insert(i) => bind_insert(i),
        AstStatement::Update(u) => {
            if exec_assigns_embedding(&u.assignments) {
                return Err(
                    KovaQueryError::Bind(
                        "embeddings are immutable ; UPDATE cannot assign embedding".to_owned(),
                    ),
                );
            }
            let predicate: PredicateExpr = bind_predicate(&u.predicate, false);
            let single_id_hint: Option<IdHint> = single_id_hint(&predicate);
            let assignments: Vec<LogicalAssignment> = bind_assignments(&u.assignments);
            Ok(
                LogicalStatement::Update(
                    LogicalUpdate { table: u.table, predicate, assignments, single_id_hint },
                ),
            )
        },
        AstStatement::Delete(d) => {
            let predicate: PredicateExpr = bind_predicate(&d.predicate, false);
            let single_id_hint: Option<IdHint> = single_id_hint(&predicate);
            Ok(
                LogicalStatement::Delete(
                    LogicalDelete { table: d.table, predicate, single_id_hint },
                ),
            )
        },
        AstStatement::Vacuum(v) => Ok(LogicalStatement::Vacuum(LogicalVacuum { table: v.table })),
        AstStatement::Checkpoint => Ok(LogicalStatement::Checkpoint),
        AstStatement::CreateIndex(c) => {
            let name: String = exec_index_name(&c);
            Ok(
                LogicalStatement::CreateIndex(
                    LogicalCreateIndex { name, table: c.table, method: c.method, field: c.field },
                ),
            )
        },
        AstStatement::DropIndex(d) => Ok(
            LogicalStatement::DropIndex(LogicalDropIndex { name: d.name, table: d.table }),
        ),
    }
}

} // verus!
