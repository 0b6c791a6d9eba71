//! What execution promises.

use crate::assign::applied;
use crate::binder::{assigns_embedding, bound, bound_columns, hint_of, normal, plain_columns};
use crate::canon::stmt_text;
use crate::cost::PlanKind;
use crate::error::Failure;
use crate::eval::cond_holds;
use crate::executor::{
    all_rewritten, ask, compiled, counted, ids_of, looked_up, planned_and_started, present,
    read_on, read_started, resumed, selected, started, table_error, unmeasured,
};
use crate::ieee::at_least32;
use crate::index_eval::{
    answers_exact, asks, asks_of_all, ask_of, law_indexes_agree_with_scan, parted, reduced, united,
    Reduced,
};
use crate::logical::{Column, Cond, CondAtom};
use crate::normal_form::{is_proper, law_normal_keeps_meaning, pred_holds};
use crate::params::Bindings;
use crate::physical::Plan;
use crate::plan_laws::{lemma_first_ball_is_ball, plan_table};
use crate::planner::{ball_of, count_name, expanded, has_distance, is_ball, or_with_distance};
use crate::roundtrip::law_parse_of_print;
use crate::rows::{law_rows_line_up, Cell, Hit, Outcome};
use crate::select::{first, kept, passes};
use crate::shape::{finite, shaped};
use crate::steps::{Aim, Answer, Next, Phase, Reading, StoredRowModel, Wait, Want};
use crate::syntax::{Assign, Pred, Proj, Query, Stmt};
use crate::treemap::{ascends, id_list, lemma_id_list};
use crate::value::Bag;
use vstd::prelude::*;

verus! {

// ----- Tables -----

/// No statement that names another table reaches the shard.
pub proof fn law_other_tables_are_refused(p: Plan, b: Bindings, table: Seq<char>)
    requires
        plan_table(p) matches Some(name) && table_error(name, table) is Some,
    ensures
        started(p, b, table) is Err,
{
    match p {
        Plan::Projection { input, columns } => {
            lemma_reads_are_refused(*input, Seq::empty(), columns, b, table);
        },
        _ => {},
    }
}

proof fn lemma_reads_are_refused(
    p: Plan,
    stages: Seq<Phase>,
    columns: Seq<Column>,
    b: Bindings,
    table: Seq<char>,
)
    requires
        plan_table(p) matches Some(name) && table_error(name, table) is Some,
    ensures
        read_started(p, stages, columns, b, table) is Err,
    decreases p,
{
    match p {
        Plan::Limit { input, limit } => {
            lemma_reads_are_refused(*input, stages.push(Phase::Limit(limit)), columns, b, table);
        },
        Plan::ExactDistance { input, query, k } => {
            lemma_reads_are_refused(
                *input,
                stages.push(Phase::ExactDistance { query: query.param, k }),
                columns,
                b,
                table,
            );
        },
        _ => {},
    }
}

// ----- Selecting rows by a predicate -----

/// The rows that satisfy a predicate.
pub open spec fn matching(c: Cond, rows: Map<u64, Bag>, b: Bindings) -> Set<u64> {
    rows.dom().filter(|id: u64| cond_holds(c, rows[id], b) == Ok::<bool, Failure>(true))
}

/// What a shard with these rows answers when it is asked for metadata.
pub open spec fn fetched(rows: Map<u64, Bag>, ids: Seq<u64>) -> Seq<Option<Bag>> {
    ids.map_values(
        |id: u64|
            if rows.dom().contains(id) {
                Some(rows[id])
            } else {
                None
            },
    )
}

/// Whether `scan` lists these rows, each once, in any order.
pub open spec fn lists(scan: Seq<StoredRowModel>, rows: Map<u64, Bag>) -> bool {
    &&& forall|i: int, j: int|
        0 <= i < j < scan.len() ==> (#[trigger] scan[i]).id != (#[trigger] scan[j]).id
    &&& forall|i: int|
        0 <= i < scan.len() ==> rows.dom().contains((#[trigger] scan[i]).id) && rows[scan[i].id]
            == scan[i].bag
    &&& forall|id: u64| #[trigger]
        rows.dom().contains(id) ==> exists|i: int| 0 <= i < scan.len() && (#[trigger] scan[i]).id
            == id
}

/// Whether `hs` are the rows with the ids in `s`, each once.
pub open spec fn holds_rows(hs: Seq<Hit>, rows: Map<u64, Bag>, s: Set<u64>) -> bool {
    &&& ids_of(hs).no_duplicates()
    &&& ids_of(hs).to_set() == s
    &&& forall|i: int|
        0 <= i < hs.len() ==> rows.dom().contains((#[trigger] hs[i]).id) && hs[i].bag
            == rows[hs[i].id]
}

/// What becomes of a selection once the shard has served the rows it asks
/// for.
pub open spec fn served(
    n: Result<Next, Failure>,
    rows: Map<u64, Bag>,
    scan: Seq<StoredRowModel>,
    b: Bindings,
) -> Result<Next, Failure> {
    match n {
        Ok(Next::Ask(Want::GetMetadata(ids), Wait::Candidates { ids: kept, residue, aim })) => {
            resumed(
                Wait::Candidates { ids: kept, residue, aim },
                Answer::Metadata(fetched(rows, ids)),
                b,
            )
        },
        Ok(Next::Ask(Want::ScanMetadata, wait)) => resumed(wait, Answer::Rows(scan), b),
        _ => n,
    }
}

proof fn lemma_ids_of_push(hs: Seq<Hit>, h: Hit)
    ensures
        ids_of(hs.push(h)) == ids_of(hs).push(h.id),
        ids_of(hs.push(h)).to_set() == ids_of(hs).to_set().insert(h.id),
{
    assert(ids_of(hs.push(h)) =~= ids_of(hs).push(h.id));
    let s = ids_of(hs);
    let t = s.push(h.id);
    assert(t.to_set() =~= s.to_set().insert(h.id)) by {
        assert forall|x: u64| #[trigger] t.to_set().contains(x) <==> s.to_set().insert(
            h.id,
        ).contains(x) by {
            if s.contains(x) {
                let i = choose|i: int| 0 <= i < s.len() && s[i] == x;
                assert(t[i] == x);
            }
            if t.contains(x) {
                let i = choose|i: int| 0 <= i < t.len() && t[i] == x;
                if i < s.len() {
                    assert(s[i] == x);
                }
            }
            assert(t[s.len() as int] == h.id);
        }
    }
}

/// Taking the last row off.
pub proof fn lemma_without_last(hs: Seq<Hit>, rows: Map<u64, Bag>, s: Set<u64>)
    requires
        hs.len() > 0,
        holds_rows(hs, rows, s),
    ensures
        holds_rows(hs.drop_last(), rows, s.remove(hs.last().id)),
        s.contains(hs.last().id),
{
    let p = hs.drop_last();
    let x = hs.last().id;
    assert(hs =~= p.push(hs.last()));
    lemma_ids_of_push(p, hs.last());
    let q = ids_of(p);
    assert(ids_of(hs) == q.push(x));
    assert(q.no_duplicates()) by {
        assert forall|i: int, j: int| 0 <= i < q.len() && 0 <= j < q.len() && i != j implies q[i]
            != q[j] by {
            assert(ids_of(hs)[i] == q[i] && ids_of(hs)[j] == q[j]);
        }
    }
    assert(!q.contains(x)) by {
        if q.contains(x) {
            let i = choose|i: int| 0 <= i < q.len() && q[i] == x;
            assert(ids_of(hs)[i] == ids_of(hs)[q.len() as int]);
        }
    }
    assert(q.to_set() =~= s.remove(x));
    assert forall|i: int| 0 <= i < p.len() implies rows.dom().contains((#[trigger] p[i]).id)
        && p[i].bag == rows[p[i].id] by {
        assert(p[i] == hs[i]);
    }
}

/// Putting one more row on.
pub proof fn lemma_with_one_more(hs: Seq<Hit>, h: Hit, rows: Map<u64, Bag>, s: Set<u64>)
    requires
        holds_rows(hs, rows, s),
        !s.contains(h.id),
        rows.dom().contains(h.id),
        h.bag == rows[h.id],
    ensures
        holds_rows(hs.push(h), rows, s.insert(h.id)),
{
    lemma_ids_of_push(hs, h);
    let q = ids_of(hs);
    let t = q.push(h.id);
    assert(t.no_duplicates()) by {
        assert forall|i: int, j: int| 0 <= i < t.len() && 0 <= j < t.len() && i != j implies t[i]
            != t[j] by {
            if i < q.len() {
                assert(q.to_set().contains(q[i]));
            }
            if j < q.len() {
                assert(q.to_set().contains(q[j]));
            }
        }
    }
}

/// The ids among `s` that pass a filter.
spec fn passing(s: Set<u64>, filter: Option<Cond>, rows: Map<u64, Bag>, b: Bindings) -> Set<u64> {
    s.filter(
        |id: u64|
            filter matches Some(c) ==> cond_holds(c, rows[id], b) == Ok::<bool, Failure>(true),
    )
}

proof fn lemma_kept_rows(
    hs: Seq<Hit>,
    filter: Option<Cond>,
    b: Bindings,
    rows: Map<u64, Bag>,
    s: Set<u64>,
)
    requires
        holds_rows(hs, rows, s),
    ensures
        kept(hs, None, filter, b) matches Ok(out) ==> holds_rows(
            out,
            rows,
            passing(s, filter, rows, b),
        ),
        (forall|id: u64| #[trigger]
            s.contains(id) ==> (filter matches Some(c) ==> cond_holds(c, rows[id], b) is Ok))
            ==> kept(hs, None, filter, b) is Ok,
    decreases hs.len(),
{
    if hs.len() == 0 {
        assert(ids_of(hs) =~= Seq::empty());
        assert(s =~= Set::empty());
        assert(passing(s, filter, rows, b) =~= Set::empty());
        assert(ids_of(Seq::<Hit>::empty()).to_set() =~= Set::empty());
    } else {
        let p = hs.drop_last();
        let h = hs.last();
        let t = s.remove(h.id);
        lemma_without_last(hs, rows, s);
        lemma_kept_rows(p, filter, b, rows, t);
        assert(rows[hs[hs.len() - 1].id] == hs[hs.len() - 1].bag);
        if let Ok(before) = kept(p, None, filter, b) {
            if passes(h, None, filter, b) == Ok::<bool, Failure>(true) {
                lemma_with_one_more(before, h, rows, passing(t, filter, rows, b));
                assert(passing(s, filter, rows, b) =~= passing(t, filter, rows, b).insert(h.id));
            } else {
                assert(passes(h, None, filter, b) is Ok ==> passing(s, filter, rows, b)
                    =~= passing(t, filter, rows, b));
            }
        }
    }
}

/// The rows that are there among some ids.
proof fn lemma_present_rows(ids: Seq<u64>, all: Seq<u64>, rows: Map<u64, Bag>)
    requires
        ids.no_duplicates(),
        ids.len() <= all.len(),
        ids == all.take(ids.len() as int),
    ensures
        holds_rows(
            present(ids, fetched(rows, all)),
            rows,
            ids.to_set().intersect(rows.dom()),
        ),
    decreases ids.len(),
{
    if ids.len() == 0 {
        assert(ids_of(Seq::<Hit>::empty()).to_set() =~= ids.to_set().intersect(rows.dom()));
    } else {
        let p = ids.drop_last();
        let x = ids.last();
        assert(p.no_duplicates());
        assert(p =~= all.take(p.len() as int));
        lemma_present_rows(p, all, rows);
        assert(all[ids.len() - 1] == x);
        assert(ids =~= p.push(x));
        assert(!p.contains(x));
        assert(ids.to_set() =~= p.to_set().insert(x)) by {
            assert forall|y: u64| #[trigger] ids.to_set().contains(y) <==> p.to_set().insert(
                x,
            ).contains(y) by {
                if p.contains(y) {
                    let i = choose|i: int| 0 <= i < p.len() && p[i] == y;
                    assert(ids[i] == y);
                }
                if ids.contains(y) {
                    let i = choose|i: int| 0 <= i < ids.len() && ids[i] == y;
                    if i < p.len() {
                        assert(p[i] == y);
                    }
                }
                assert(ids[p.len() as int] == x);
            }
        }
        let before = p.to_set().intersect(rows.dom());
        let after = ids.to_set().intersect(rows.dom());
        if rows.dom().contains(x) {
            let h = Hit { id: x, distance: None, bag: rows[x] };
            lemma_with_one_more(present(p, fetched(rows, all)), h, rows, before);
            assert(after =~= before.insert(x));
        } else {
            assert(after =~= before);
        }
    }
}

proof fn lemma_listed_rows(scan: Seq<StoredRowModel>, rows: Map<u64, Bag>)
    requires
        lists(scan, rows),
    ensures
        holds_rows(unmeasured(scan), rows, rows.dom()),
{
    let hs = unmeasured(scan);
    let q = ids_of(hs);
    assert forall|i: int, j: int| 0 <= i < q.len() && 0 <= j < q.len() && i != j implies q[i]
        != q[j] by {
        assert(q[i] == scan[i].id && q[j] == scan[j].id);
        if i < j {
            assert(scan[i].id != scan[j].id);
        } else {
            assert(scan[j].id != scan[i].id);
        }
    }
    assert(q.to_set() =~= rows.dom()) by {
        assert forall|id: u64| #[trigger] q.to_set().contains(id) <==> rows.dom().contains(id) by {
            if q.contains(id) {
                let i = choose|i: int| 0 <= i < q.len() && q[i] == id;
                assert(scan[i].id == id);
            }
            if rows.dom().contains(id) {
                let i = choose|i: int| 0 <= i < scan.len() && (#[trigger] scan[i]).id == id;
                assert(q[i] == id);
            }
        }
    }
    assert forall|i: int| 0 <= i < hs.len() implies rows.dom().contains((#[trigger] hs[i]).id)
        && hs[i].bag == rows[hs[i].id] by {
        assert(rows.dom().contains(scan[i].id));
    }
}

/// What the indexes list lies among the rows, if what they answer does.
proof fn lemma_reduced_within(
    c: Cond,
    answers: Seq<Option<Set<u64>>>,
    b: Bindings,
    dom: Set<u64>,
)
    requires
        answers.len() == asks(c, b).len(),
        forall|j: int|
            0 <= j < answers.len() ==> (#[trigger] answers[j] matches Some(s) ==> s.subset_of(dom)),
    ensures
        match reduced(c, answers, b) {
            Reduced::Full(s) => s.subset_of(dom),
            Reduced::Hybrid(s, _) => s.subset_of(dom),
            Reduced::Fallback => true,
        },
    decreases c, 0int,
{
    match c {
        Cond::Atom(a) => {
            if ask_of(a, b) is Some {
                assert(answers[0] matches Some(s) ==> s.subset_of(dom));
            }
        },
        Cond::And(cs) => lemma_parted_within(cs, answers, b, dom),
        Cond::Or(cs) => lemma_united_within(cs, answers, b, dom),
        _ => {},
    }
}

proof fn lemma_parted_within(
    cs: Seq<Cond>,
    answers: Seq<Option<Set<u64>>>,
    b: Bindings,
    dom: Set<u64>,
)
    requires
        answers.len() == asks_of_all(cs, b).len(),
        forall|j: int|
            0 <= j < answers.len() ==> (#[trigger] answers[j] matches Some(s) ==> s.subset_of(dom)),
    ensures
        parted(cs, answers, b).candidates matches Some(s) ==> s.subset_of(dom),
    decreases cs, cs.len(),
{
    if cs.len() > 0 {
        let before = cs.subrange(0, cs.len() - 1);
        let last = cs[cs.len() - 1];
        let n = asks_of_all(before, b).len() as int;
        assert(asks_of_all(cs, b) == asks_of_all(before, b) + asks(last, b));
        lemma_split_within(answers, n, dom);
        lemma_parted_within(before, answers.take(n), b, dom);
        lemma_reduced_within(last, answers.skip(n), b, dom);
    }
}

proof fn lemma_split_within(answers: Seq<Option<Set<u64>>>, n: int, dom: Set<u64>)
    requires
        0 <= n <= answers.len(),
        forall|j: int|
            0 <= j < answers.len() ==> (#[trigger] answers[j] matches Some(s) ==> s.subset_of(dom)),
    ensures
        forall|j: int|
            0 <= j < n ==> (#[trigger] answers.take(n)[j] matches Some(s) ==> s.subset_of(dom)),
        forall|j: int|
            0 <= j < answers.len() - n ==> (#[trigger] answers.skip(n)[j] matches Some(s)
                ==> s.subset_of(dom)),
{
    assert forall|j: int| 0 <= j < answers.len() - n implies (
    #[trigger] answers.skip(n)[j] matches Some(s) ==> s.subset_of(dom)) by {
        assert(answers.skip(n)[j] == answers[n + j]);
    }
}

proof fn lemma_united_within(
    cs: Seq<Cond>,
    answers: Seq<Option<Set<u64>>>,
    b: Bindings,
    dom: Set<u64>,
)
    requires
        answers.len() == asks_of_all(cs, b).len(),
        forall|j: int|
            0 <= j < answers.len() ==> (#[trigger] answers[j] matches Some(s) ==> s.subset_of(dom)),
    ensures
        united(cs, answers, b) matches Some(s) ==> s.subset_of(dom),
    decreases cs, cs.len(),
{
    if cs.len() > 0 {
        let before = cs.subrange(0, cs.len() - 1);
        let last = cs[cs.len() - 1];
        let n = asks_of_all(before, b).len() as int;
        assert(asks_of_all(cs, b) == asks_of_all(before, b) + asks(last, b));
        lemma_split_within(answers, n, dom);
        lemma_united_within(before, answers.take(n), b, dom);
        lemma_reduced_within(last, answers.skip(n), b, dom);
    }
}

proof fn lemma_answers_within(
    c: Cond,
    answers: Seq<Option<Set<u64>>>,
    b: Bindings,
    rows: Map<u64, Bag>,
)
    requires
        answers_exact(asks(c, b), answers, rows),
    ensures
        forall|j: int|
            0 <= j < answers.len() ==> (#[trigger] answers[j] matches Some(s) ==> s.subset_of(
                rows.dom(),
            )),
{
    assert forall|j: int| 0 <= j < answers.len() implies (#[trigger] answers[j] matches Some(s)
        ==> s.subset_of(rows.dom())) by {
        if answers[j] is Some {
            let s = answers[j]->Some_0;
            assert forall|id: u64| s.contains(id) implies rows.dom().contains(id) by {
                assert(answers[j]->Some_0.contains(id));
            }
        }
    }
}

/// The rows that a selection ends up with, by whichever of the three ways.
proof fn lemma_selection(
    c: Cond,
    answers: Seq<Option<Set<u64>>>,
    b: Bindings,
    rows: Map<u64, Bag>,
    scan: Seq<StoredRowModel>,
)
    requires
        answers_exact(asks(c, b), answers, rows),
        lists(scan, rows),
    ensures
        ({
            let total = forall|id: u64| #[trigger]
                rows.dom().contains(id) ==> cond_holds(c, rows[id], b) is Ok;
            let m = matching(c, rows, b);
            match reduced(c, answers, b) {
                Reduced::Full(s) => {
                    let hs = present(id_list(s), fetched(rows, id_list(s)));
                    &&& s == m
                    &&& kept(hs, None, None, b) is Ok
                    &&& holds_rows(kept(hs, None, None, b)->Ok_0, rows, m)
                },
                Reduced::Hybrid(s, r) => {
                    let out = kept(
                        present(id_list(s), fetched(rows, id_list(s))),
                        None,
                        Some(r),
                        b,
                    );
                    &&& out is Ok ==> holds_rows(out->Ok_0, rows, m)
                    &&& total ==> out is Ok
                },
                Reduced::Fallback => {
                    let out = kept(unmeasured(scan), None, Some(c), b);
                    &&& out is Ok ==> holds_rows(out->Ok_0, rows, m)
                    &&& total ==> out is Ok
                },
            }
        }),
{
    law_indexes_agree_with_scan(c, answers, b, rows);
    lemma_answers_within(c, answers, b, rows);
    lemma_reduced_within(c, answers, b, rows.dom());
    let m = matching(c, rows, b);
    match reduced(c, answers, b) {
        Reduced::Full(s) => {
            assert(s =~= m);
            lemma_id_list(s);
            lemma_no_duplicates(id_list(s));
            assert(id_list(s).take(id_list(s).len() as int) =~= id_list(s));
            lemma_present_rows(id_list(s), id_list(s), rows);
            let hs = present(id_list(s), fetched(rows, id_list(s)));
            lemma_kept_rows(hs, None, b, rows, id_list(s).to_set().intersect(rows.dom()));
            assert(passing(id_list(s).to_set().intersect(rows.dom()), None, rows, b) =~= m);
        },
        Reduced::Hybrid(s, r) => {
            lemma_id_list(s);
            lemma_no_duplicates(id_list(s));
            assert(id_list(s).take(id_list(s).len() as int) =~= id_list(s));
            lemma_present_rows(id_list(s), id_list(s), rows);
            let hs = present(id_list(s), fetched(rows, id_list(s)));
            let among = id_list(s).to_set().intersect(rows.dom());
            lemma_kept_rows(hs, Some(r), b, rows, among);
            assert(passing(among, Some(r), rows, b) =~= m);
        },
        Reduced::Fallback => {
            lemma_listed_rows(scan, rows);
            lemma_kept_rows(unmeasured(scan), Some(c), b, rows, rows.dom());
            assert(passing(rows.dom(), Some(c), rows, b) =~= m);
        },
    }
}

proof fn lemma_no_duplicates(q: Seq<u64>)
    requires
        ascends(q),
    ensures
        q.no_duplicates(),
{
    assert forall|i: int, j: int| 0 <= i < q.len() && 0 <= j < q.len() && i != j implies q[i]
        != q[j] by {
        if i < j {
            assert(q[i] < q[j]);
        } else {
            assert(q[j] < q[i]);
        }
    }
}

/// Whether `ids` are the ids in `s`, each once.
pub open spec fn lists_ids(ids: Seq<u64>, s: Set<u64>) -> bool {
    ids.no_duplicates() && ids.to_set() == s
}

/// A selection by a predicate is exact. Whatever part of it the indexes
/// answer, as long as what they answer is true of the rows: a delete deletes,
/// an update rewrites, a count counts and a read returns exactly the rows
/// that satisfy the predicate, each once.
pub proof fn law_selection_is_exact(
    c: Cond,
    aim: Aim,
    answers: Seq<Option<Set<u64>>>,
    b: Bindings,
    rows: Map<u64, Bag>,
    scan: Seq<StoredRowModel>,
)
    requires
        answers_exact(asks(c, b), answers, rows),
        lists(scan, rows),
    ensures
        ({
            let n = served(
                resumed(Wait::Lookup { predicate: c, aim }, Answer::Answers(answers), b),
                rows,
                scan,
                b,
            );
            let m = matching(c, rows, b);
            match aim {
                Aim::Delete { table } => n is Ok ==> exists|ids: Seq<u64>|
                    lists_ids(ids, m) && n == #[trigger] ask(
                        Want::DeleteMany(ids),
                        Wait::DeleteMany { table },
                    ),
                Aim::Update { table, assignments } => n is Ok ==> exists|ids: Seq<u64>|
                    lists_ids(ids, m) && n == #[trigger] ask(
                        Want::GetMetadata(ids),
                        Wait::Targets { ids, table, assignments },
                    ),
                Aim::Count { column_name } => n is Ok && m.len() <= usize::MAX ==> n == Ok::<
                    Next,
                    Failure,
                >(Next::Done(counted(m.len() as int, column_name))),
                Aim::Read(r) => n is Ok ==> exists|hs: Seq<Hit>|
                    holds_rows(hs, rows, m) && n == #[trigger] read_on(r, hs, b),
            }
        }),
{
    lemma_selection(c, answers, b, rows, scan);
    let n = served(
        resumed(Wait::Lookup { predicate: c, aim }, Answer::Answers(answers), b),
        rows,
        scan,
        b,
    );
    let m = matching(c, rows, b);
    match reduced(c, answers, b) {
        Reduced::Full(s) => {
            lemma_id_list(s);
            lemma_no_duplicates(id_list(s));
            let hs = kept(present(id_list(s), fetched(rows, id_list(s))), None, None, b)->Ok_0;
            match aim {
                Aim::Delete { table } => {
                    assert(n == ask(Want::DeleteMany(id_list(s)), Wait::DeleteMany { table }));
                },
                Aim::Update { table, assignments } => {
                    assert(n == ask(
                        Want::GetMetadata(id_list(s)),
                        Wait::Targets { ids: id_list(s), table, assignments },
                    ));
                },
                Aim::Count { .. } => {},
                Aim::Read(r) => {
                    assert(n == read_on(r, hs, b));
                },
            }
        },
        Reduced::Hybrid(s, r) => {
            let out = kept(present(id_list(s), fetched(rows, id_list(s))), None, Some(r), b);
            if let Ok(hs) = out {
                lemma_use(aim, hs, n, rows, m, b);
            }
        },
        Reduced::Fallback => {
            let out = kept(unmeasured(scan), None, Some(c), b);
            if let Ok(hs) = out {
                lemma_use(aim, hs, n, rows, m, b);
            }
        },
    }
}

proof fn lemma_use(
    aim: Aim,
    hs: Seq<Hit>,
    n: Result<Next, Failure>,
    rows: Map<u64, Bag>,
    m: Set<u64>,
    b: Bindings,
)
    requires
        n == selected(aim, hs, b),
        holds_rows(hs, rows, m),
    ensures
        match aim {
            Aim::Delete { table } => exists|ids: Seq<u64>|
                lists_ids(ids, m) && n == #[trigger] ask(
                    Want::DeleteMany(ids),
                    Wait::DeleteMany { table },
                ),
            Aim::Update { table, assignments } => exists|ids: Seq<u64>|
                lists_ids(ids, m) && n == #[trigger] ask(
                    Want::GetMetadata(ids),
                    Wait::Targets { ids, table, assignments },
                ),
            Aim::Count { column_name } => n == Ok::<Next, Failure>(
                Next::Done(counted(m.len() as int, column_name)),
            ),
            Aim::Read(r) => exists|hs: Seq<Hit>|
                holds_rows(hs, rows, m) && n == #[trigger] read_on(r, hs, b),
        },
{
    let ids = ids_of(hs);
    match aim {
        Aim::Delete { table } => {
            assert(n == ask(Want::DeleteMany(ids), Wait::DeleteMany { table }));
        },
        Aim::Update { table, assignments } => {
            assert(n == ask(
                Want::GetMetadata(ids),
                Wait::Targets { ids, table, assignments },
            ));
        },
        Aim::Count { .. } => {
            ids.unique_seq_to_set();
        },
        Aim::Read(r) => {
            assert(n == read_on(r, hs, b));
        },
    }
}

/// A selection by a predicate that has a verdict on every row does not fail:
/// a delete, an update and a count come through, and a read goes on with
/// exactly the rows that satisfy the predicate.
pub proof fn law_selection_succeeds(
    c: Cond,
    aim: Aim,
    answers: Seq<Option<Set<u64>>>,
    b: Bindings,
    rows: Map<u64, Bag>,
    scan: Seq<StoredRowModel>,
)
    requires
        answers_exact(asks(c, b), answers, rows),
        lists(scan, rows),
        forall|id: u64| #[trigger] rows.dom().contains(id) ==> cond_holds(c, rows[id], b) is Ok,
    ensures
        ({
            let n = served(
                resumed(Wait::Lookup { predicate: c, aim }, Answer::Answers(answers), b),
                rows,
                scan,
                b,
            );
            match aim {
                Aim::Read(r) => exists|hs: Seq<Hit>|
                    holds_rows(hs, rows, matching(c, rows, b)) && n == #[trigger] read_on(
                        r,
                        hs,
                        b,
                    ),
                _ => n is Ok,
            }
        }),
{
    lemma_selection(c, answers, b, rows, scan);
    let n = served(
        resumed(Wait::Lookup { predicate: c, aim }, Answer::Answers(answers), b),
        rows,
        scan,
        b,
    );
    if let Aim::Read(r) = aim {
        let out = match reduced(c, answers, b) {
            Reduced::Full(s) => kept(
                present(id_list(s), fetched(rows, id_list(s))),
                None,
                None,
                b,
            ),
            Reduced::Hybrid(s, residue) => kept(
                present(id_list(s), fetched(rows, id_list(s))),
                None,
                Some(residue),
                b,
            ),
            Reduced::Fallback => kept(unmeasured(scan), None, Some(c), b),
        };
        assert(n == read_on(r, out->Ok_0, b));
    }
}

// ----- Searches -----

/// Whatever a search found: the rows that are returned or written satisfy
/// the filter, and none is at the bound of a strict ball or beyond.
pub proof fn law_search_results_pass(
    hs: Seq<Hit>,
    beyond: Option<u32>,
    filter: Option<Cond>,
    b: Bindings,
    out: Seq<Hit>,
)
    requires
        kept(hs, beyond, filter, b) == Ok::<Seq<Hit>, Failure>(out),
    ensures
        forall|i: int|
            0 <= i < out.len() ==> {
                let h = #[trigger] out[i];
                &&& hs.contains(h)
                &&& filter matches Some(c) ==> cond_holds(c, h.bag, b) == Ok::<bool, Failure>(true)
                &&& (h.distance matches Some(d) ==> (beyond matches Some(r) ==> !at_least32(d, r)))
            },
    decreases hs.len(),
{
    if hs.len() > 0 {
        let before = kept(hs.drop_last(), beyond, filter, b)->Ok_0;
        law_search_results_pass(hs.drop_last(), beyond, filter, b, before);
        assert forall|i: int| 0 <= i < out.len() implies {
            let h = #[trigger] out[i];
            &&& hs.contains(h)
            &&& filter matches Some(c) ==> cond_holds(c, h.bag, b) == Ok::<bool, Failure>(true)
            &&& (h.distance matches Some(d) ==> (beyond matches Some(r) ==> !at_least32(d, r)))
        } by {
            if i < before.len() {
                assert(out[i] == before[i]);
                assert(hs.drop_last().contains(out[i]));
                let j = choose|j: int|
                    0 <= j < hs.drop_last().len() && hs.drop_last()[j] == out[i];
                assert(hs[j] == out[i]);
            } else {
                assert(out[i] == hs.last());
                assert(hs[hs.len() - 1] == out[i]);
            }
        }
    }
}

/// A read under a limit returns no more rows than the limit.
pub proof fn law_limit_holds(
    r: Reading,
    hs: Seq<Hit>,
    b: Bindings,
    columns: Seq<Seq<char>>,
    rows: Seq<Seq<Cell>>,
)
    requires
        read_on(r, hs, b) == Ok::<Next, Failure>(Next::Done(Outcome::Rows { columns, rows })),
        r.stages.len() > 0 && r.stages[0] is Limit,
    ensures
        rows.len() <= r.stages[0]->Limit_0,
    decreases r.stages.len(),
{
    let rest = Reading { stages: r.stages.drop_last(), columns: r.columns };
    match r.stages.last() {
        Phase::Limit(n) => {
            let cut = first(hs, n as int);
            assert(read_on(rest, cut, b) == read_on(r, hs, b));
            if rest.stages.len() == 0 {
                law_rows_line_up(cut, r.columns, rows);
            } else {
                assert(rest.stages[0] == r.stages[0]);
                law_limit_holds(rest, cut, b, columns, rows);
            }
        },
        _ => {},
    }
}

// ----- Updates -----

/// An update rewrites the rows it was asked to, one for one and in order,
/// each by all assignments.
pub proof fn law_update_rewrites(
    ids: Seq<u64>,
    bags: Seq<Option<Bag>>,
    assignments: Seq<Assign>,
    b: Bindings,
    out: Seq<StoredRowModel>,
)
    requires
        ids.len() <= bags.len(),
        all_rewritten(ids, bags, assignments, b) == Ok::<Seq<StoredRowModel>, Failure>(out),
    ensures
        out.len() == ids.len(),
        forall|i: int|
            0 <= i < out.len() ==> (#[trigger] out[i]).id == ids[i] && bags[i] is Some && applied(
                bags[i]->Some_0,
                assignments,
                b,
            ) == (out[i].bag, None::<Failure>),
    decreases ids.len(),
{
    if ids.len() > 0 {
        let before = all_rewritten(ids.drop_last(), bags, assignments, b)->Ok_0;
        law_update_rewrites(ids.drop_last(), bags, assignments, b, before);
        assert forall|i: int| 0 <= i < out.len() implies (#[trigger] out[i]).id == ids[i]
            && bags[i] is Some && applied(bags[i]->Some_0, assignments, b) == (
            out[i].bag,
            None::<Failure>,
        ) by {
            if i < before.len() {
                assert(out[i] == before[i]);
            }
        }
    }
}

// ----- From the statement to the rows -----

/// The rows that a predicate asks for, as it is written.
pub open spec fn asked_for(p: Pred, rows: Map<u64, Bag>, b: Bindings) -> Set<u64> {
    rows.dom().filter(|id: u64| pred_holds(p, rows[id], b) == Ok::<bool, Failure>(true))
}

proof fn lemma_no_distance(c: Cond)
    requires
        !has_distance(c),
    ensures
        !or_with_distance(c),
        ball_of(c) is None,
    decreases c,
{
    match c {
        Cond::And(cs) => {
            assert forall|i: int| 0 <= i < cs.len() implies !or_with_distance(#[trigger] cs[i])
                && !is_ball(cs[i]) by {
                assert(!has_distance(cs[i]));
                lemma_no_distance(cs[i]);
            }
            lemma_first_ball_is_ball(cs);
        },
        Cond::Not(d) => lemma_no_distance(*d),
        _ => {},
    }
}

/// The rows that a bound predicate selects are those that it asks for as it
/// is written.
pub proof fn lemma_matching_is_asked_for(p: Pred, rows: Map<u64, Bag>, b: Bindings)
    requires
        is_proper(p),
    ensures
        matching(normal(p, false), rows, b) == asked_for(p, rows, b),
{
    assert forall|id: u64| rows.dom().contains(id) implies cond_holds(
        normal(p, false),
        rows[id],
        b,
    ) == #[trigger] pred_holds(p, rows[id], b) by {
        law_normal_keeps_meaning(p, false, rows[id], b);
    }
    assert(matching(normal(p, false), rows, b) =~= asked_for(p, rows, b));
}

/// `DELETE FROM t WHERE p` deletes the rows that satisfy `p` as it is
/// written, and no others.
pub proof fn law_delete_statement(
    t: Seq<char>,
    p: Pred,
    kind: PlanKind,
    table: Seq<char>,
    answers: Seq<Option<Set<u64>>>,
    b: Bindings,
    rows: Map<u64, Bag>,
    scan: Seq<StoredRowModel>,
)
    requires
        is_proper(p),
        hint_of(normal(p, false)) is None,
        !has_distance(normal(p, false)),
        table_error(t, table) is None,
        answers_exact(asks(normal(p, false), b), answers, rows),
        lists(scan, rows),
    ensures
        ({
            let l = bound(Stmt::Delete { table: t, predicate: p });
            let wait = Wait::Lookup { predicate: normal(p, false), aim: Aim::Delete { table: t } };
            let n = served(resumed(wait, Answer::Answers(answers), b), rows, scan, b);
            &&& l is Ok
            &&& planned_and_started(l->Ok_0, kind, b, table) == ask(
                Want::Lookup(asks(normal(p, false), b)),
                wait,
            )
            &&& n is Ok ==> exists|ids: Seq<u64>|
                lists_ids(ids, asked_for(p, rows, b)) && n == #[trigger] ask(
                    Want::DeleteMany(ids),
                    Wait::DeleteMany { table: t },
                )
            &&& (forall|id: u64| #[trigger]
                rows.dom().contains(id) ==> pred_holds(p, rows[id], b) is Ok) ==> n is Ok
        }),
{
    let c = normal(p, false);
    let aim = Aim::Delete { table: t };
    lemma_no_distance(c);
    lemma_matching_is_asked_for(p, rows, b);
    law_selection_is_exact(c, aim, answers, b, rows, scan);
    if forall|id: u64| #[trigger]
        rows.dom().contains(id) ==> pred_holds(p, rows[id], b) is Ok {
        assert forall|id: u64| #[trigger] rows.dom().contains(id) implies cond_holds(
            c,
            rows[id],
            b,
        ) is Ok by {
            law_normal_keeps_meaning(p, false, rows[id], b);
        }
        law_selection_succeeds(c, aim, answers, b, rows, scan);
    }
}

/// `SELECT COUNT(*) FROM t WHERE p` counts the rows that satisfy `p` as it
/// is written. A count measures no distances: it fails on a row whose verdict
/// hangs on one.
pub proof fn law_count_statement(
    t: Seq<char>,
    p: Pred,
    kind: PlanKind,
    table: Seq<char>,
    answers: Seq<Option<Set<u64>>>,
    b: Bindings,
    rows: Map<u64, Bag>,
    scan: Seq<StoredRowModel>,
)
    requires
        is_proper(p),
        table_error(t, table) is None,
        answers_exact(asks(normal(p, false), b), answers, rows),
        lists(scan, rows),
        asked_for(p, rows, b).len() <= usize::MAX,
    ensures
        ({
            let q = Query {
                projection: seq![Proj::CountStar],
                from_table: t,
                predicate: Some(p),
                order_by: Seq::empty(),
                limit: None,
            };
            let l = bound(Stmt::Select(q));
            let wait = Wait::Lookup {
                predicate: normal(p, false),
                aim: Aim::Count { column_name: "count"@ },
            };
            let n = served(resumed(wait, Answer::Answers(answers), b), rows, scan, b);
            &&& l is Ok
            &&& planned_and_started(l->Ok_0, kind, b, table) == ask(
                Want::Lookup(asks(normal(p, false), b)),
                wait,
            )
            &&& n is Ok ==> n == Ok::<Next, Failure>(
                Next::Done(counted(asked_for(p, rows, b).len() as int, "count"@)),
            )
            &&& (forall|id: u64| #[trigger]
                rows.dom().contains(id) ==> pred_holds(p, rows[id], b) is Ok) ==> n is Ok
        }),
{
    let c = normal(p, false);
    let aim = Aim::Count { column_name: "count"@ };
    lemma_matching_is_asked_for(p, rows, b);
    law_selection_is_exact(c, aim, answers, b, rows, scan);
    if forall|id: u64| #[trigger]
        rows.dom().contains(id) ==> pred_holds(p, rows[id], b) is Ok {
        assert forall|id: u64| #[trigger] rows.dom().contains(id) implies cond_holds(
            c,
            rows[id],
            b,
        ) is Ok by {
            law_normal_keeps_meaning(p, false, rows[id], b);
        }
        law_selection_succeeds(c, aim, answers, b, rows, scan);
    }
    let ps = seq![Proj::CountStar];
    let q = Query {
        projection: ps,
        from_table: t,
        predicate: Some(p),
        order_by: Seq::empty(),
        limit: None,
    };
    reveal_with_fuel(plain_columns, 2);
    assert(ps.drop_last() =~= Seq::empty());
    assert(plain_columns(ps) == Ok::<Seq<Column>, Failure>(Seq::empty().push(Column::CountStar(None))));
    assert(bound(Stmt::Select(q)) is Ok);
}

/// `UPDATE t SET ... WHERE p` rewrites the rows that satisfy `p` as it is
/// written, and no others.
pub proof fn law_update_statement(
    t: Seq<char>,
    assignments: Seq<Assign>,
    p: Pred,
    kind: PlanKind,
    table: Seq<char>,
    answers: Seq<Option<Set<u64>>>,
    b: Bindings,
    rows: Map<u64, Bag>,
    scan: Seq<StoredRowModel>,
)
    requires
        is_proper(p),
        !assigns_embedding(assignments),
        hint_of(normal(p, false)) is None,
        !has_distance(normal(p, false)),
        table_error(t, table) is None,
        answers_exact(asks(normal(p, false), b), answers, rows),
        lists(scan, rows),
    ensures
        ({
            let l = bound(Stmt::Update { table: t, assignments, predicate: p });
            let wait = Wait::Lookup {
                predicate: normal(p, false),
                aim: Aim::Update { table: t, assignments },
            };
            let n = served(resumed(wait, Answer::Answers(answers), b), rows, scan, b);
            &&& l is Ok
            &&& planned_and_started(l->Ok_0, kind, b, table) == ask(
                Want::Lookup(asks(normal(p, false), b)),
                wait,
            )
            &&& n is Ok ==> exists|ids: Seq<u64>|
                lists_ids(ids, asked_for(p, rows, b)) && n == #[trigger] ask(
                    Want::GetMetadata(ids),
                    Wait::Targets { ids, table: t, assignments },
                )
            &&& (forall|id: u64| #[trigger]
                rows.dom().contains(id) ==> pred_holds(p, rows[id], b) is Ok) ==> n is Ok
        }),
{
    let c = normal(p, false);
    lemma_no_distance(c);
    lemma_matching_is_asked_for(p, rows, b);
    let aim = Aim::Update { table: t, assignments };
    law_selection_is_exact(c, aim, answers, b, rows, scan);
    if forall|id: u64| #[trigger]
        rows.dom().contains(id) ==> pred_holds(p, rows[id], b) is Ok {
        assert forall|id: u64| #[trigger] rows.dom().contains(id) implies cond_holds(
            c,
            rows[id],
            b,
        ) is Ok by {
            law_normal_keeps_meaning(p, false, rows[id], b);
        }
        law_selection_succeeds(c, aim, answers, b, rows, scan);
    }
}

/// `SELECT ... FROM t WHERE p LIMIT n` returns rows that satisfy `p` as it is
/// written, and no more than `n` of them. It does not fail before the
/// projection where `p` has a verdict on every row.
pub proof fn law_scan_statement(
    q: Query,
    p: Pred,
    limit: u64,
    kind: PlanKind,
    table: Seq<char>,
    answers: Seq<Option<Set<u64>>>,
    b: Bindings,
    rows: Map<u64, Bag>,
    scan: Seq<StoredRowModel>,
)
    requires
        is_proper(p),
        q.predicate == Some(p) && q.limit == Some(limit) && q.order_by.len() == 0,
        bound(Stmt::Select(q)) is Ok,
        count_name(bound_columns(q.projection)->Ok_0) is None,
        !has_distance(normal(p, false)),
        table_error(q.from_table, table) is None,
        answers_exact(asks(normal(p, false), b), answers, rows),
        lists(scan, rows),
    ensures
        ({
            let l = bound(Stmt::Select(q))->Ok_0;
            let reading = Reading {
                stages: seq![Phase::Limit(limit)],
                columns: expanded(bound_columns(q.projection)->Ok_0),
            };
            let wait = Wait::Lookup { predicate: normal(p, false), aim: Aim::Read(reading) };
            let n = served(resumed(wait, Answer::Answers(answers), b), rows, scan, b);
            &&& planned_and_started(l, kind, b, table) == ask(
                Want::Lookup(asks(normal(p, false), b)),
                wait,
            )
            &&& n matches Ok(Next::Done(Outcome::Rows { columns: _, rows: out })) ==> out.len()
                <= limit
            &&& n is Ok || (forall|id: u64| #[trigger]
                rows.dom().contains(id) ==> pred_holds(p, rows[id], b) is Ok) ==> exists|
                hs: Seq<Hit>,
            |
                holds_rows(hs, rows, asked_for(p, rows, b)) && n == #[trigger] read_on(
                    reading,
                    hs,
                    b,
                )
        }),
{
    let c = normal(p, false);
    let reading = Reading {
        stages: seq![Phase::Limit(limit)],
        columns: expanded(bound_columns(q.projection)->Ok_0),
    };
    let aim = Aim::Read(reading);
    lemma_no_distance(c);
    lemma_matching_is_asked_for(p, rows, b);
    law_selection_is_exact(c, aim, answers, b, rows, scan);
    if forall|id: u64| #[trigger]
        rows.dom().contains(id) ==> pred_holds(p, rows[id], b) is Ok {
        assert forall|id: u64| #[trigger] rows.dom().contains(id) implies cond_holds(
            c,
            rows[id],
            b,
        ) is Ok by {
            law_normal_keeps_meaning(p, false, rows[id], b);
        }
        law_selection_succeeds(c, aim, answers, b, rows, scan);
    }
    reveal_with_fuel(read_started, 3);
    assert(Seq::<Phase>::empty().push(Phase::Limit(limit)) =~= seq![Phase::Limit(limit)]);
    let n = served(
        resumed(Wait::Lookup { predicate: c, aim }, Answer::Answers(answers), b),
        rows,
        scan,
        b,
    );
    if let Ok(Next::Done(Outcome::Rows { columns, rows: out })) = n {
        let hs = choose|hs: Seq<Hit>|
            holds_rows(hs, rows, matching(c, rows, b)) && n == #[trigger] read_on(reading, hs, b);
        law_limit_holds(reading, hs, b, columns, out);
    }
}

/// Printing a statement and compiling the text gives what binding the
/// statement gives.
pub proof fn law_printed_statement_compiles_alike(s: Stmt)
    requires
        shaped(s),
        finite(s),
    ensures
        compiled(stmt_text(s)) == bound(s),
{
    law_parse_of_print(s);
}

/// Where the indexes answer, rows are fetched and deleted in the order of
/// their ids, each once.
pub proof fn law_indexed_rows_ascend(
    c: Cond,
    aim: Aim,
    answers: Seq<Option<Set<u64>>>,
    b: Bindings,
)
    ensures
        match looked_up(c, aim, answers, b) {
            Ok(Next::Ask(Want::GetMetadata(ids), Wait::Candidates { ids: kept, .. })) => kept == ids
                && forall|i: int, j: int| 0 <= i < j < ids.len() ==> ids[i] < ids[j],
            Ok(Next::Ask(Want::GetMetadata(ids), Wait::Targets { ids: kept, .. })) => kept == ids
                && forall|i: int, j: int| 0 <= i < j < ids.len() ==> ids[i] < ids[j],
            Ok(Next::Ask(Want::DeleteMany(ids), _)) => forall|i: int, j: int|
                0 <= i < j < ids.len() ==> ids[i] < ids[j],
            _ => true,
        },
{
    match reduced(c, answers, b) {
        Reduced::Full(s) => lemma_id_list(s),
        Reduced::Hybrid(s, _) => lemma_id_list(s),
        Reduced::Fallback => {},
    }
}

/// An index that answers the whole of a predicate is enough: no row is read to
/// count or to delete what it lists. Without an answer, every row is read.
pub proof fn law_one_question(a: CondAtom, s: Set<u64>, aim: Aim, b: Bindings)
    requires
        asks(Cond::Atom(a), b).len() == 1,
    ensures
        ({
            let wait = Wait::Lookup { predicate: Cond::Atom(a), aim };
            let yes = resumed(wait, Answer::Answers(seq![Some(s)]), b);
            let no = resumed(wait, Answer::Answers(seq![None]), b);
            &&& match aim {
                Aim::Count { column_name } => s.len() <= usize::MAX ==> yes == Ok::<Next, Failure>(
                    Next::Done(counted(s.len() as int, column_name)),
                ),
                Aim::Delete { table } => yes matches Ok(Next::Ask(Want::DeleteMany(ids), w))
                    && lists_ids(ids, s) && w == (Wait::DeleteMany { table }),
                Aim::Update { .. } => yes matches Ok(Next::Ask(Want::GetMetadata(ids), _))
                    && lists_ids(ids, s),
                Aim::Read(_) => yes matches Ok(Next::Ask(Want::GetMetadata(ids), _)) && lists_ids(
                    ids,
                    s,
                ),
            }
            &&& no == Ok::<Next, Failure>(
                Next::Ask(Want::ScanMetadata, Wait::Scan { predicate: Cond::Atom(a), aim }),
            )
        }),
{
    lemma_id_list(s);
    let ids = id_list(s);
    assert(ids.no_duplicates()) by {
        assert forall|i: int, j: int|
            0 <= i < ids.len() && 0 <= j < ids.len() && i != j implies ids[i] != ids[j] by {
            if i < j {
                assert(ids[i] < ids[j]);
            } else {
                assert(ids[j] < ids[i]);
            }
        }
    }
}

} // verus!
