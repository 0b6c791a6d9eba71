//! Sets of row ids, kept in the compressed bitmaps of the `roaring` crate.

use roaring::RoaringTreemap;
use vstd::prelude::*;
use vstd::set_lib::{lemma_int_range, lemma_set_subset_finite, set_int_range};

verus! {

/// `roaring::RoaringTreemap`: a set of 64-bit integers.
#[verifier::external_type_specification]
#[verifier::external_body]
pub struct ExRoaringTreemap(roaring::RoaringTreemap);

/// The integers that a `roaring::RoaringTreemap` holds.
pub uninterp spec fn treemap_ids(t: roaring::RoaringTreemap) -> Set<u64>;

/// `&` of `roaring::RoaringTreemap`, with the right operand by reference:
/// what it returns holds the integers that both operands hold.
#[verifier::external_body]
pub(crate) fn intersection(a: RoaringTreemap, b: &RoaringTreemap) -> (r: RoaringTreemap)
    ensures
        treemap_ids(r) == treemap_ids(a).intersect(treemap_ids(*b)),
{
    a & b
}

/// `|` of `roaring::RoaringTreemap`, with the right operand by reference:
/// what it returns holds the integers that one of the operands holds.
#[verifier::external_body]
pub(crate) fn union(a: RoaringTreemap, b: &RoaringTreemap) -> (r: RoaringTreemap)
    ensures
        treemap_ids(r) == treemap_ids(a).union(treemap_ids(*b)),
{
    a | b
}

/// `roaring::RoaringTreemap::remove`: takes an integer out of the set, and
/// returns whether it was there.
#[verifier::external_body]
fn remove(t: &mut RoaringTreemap, id: u64) -> (r: bool)
    ensures
        treemap_ids(*final(t)) == treemap_ids(*old(t)).remove(id),
        r == treemap_ids(*old(t)).contains(id),
{
    t.remove(id)
}

/// `roaring::RoaringTreemap::len`: how many integers the set holds. It adds
/// up 64-bit counts, so a set of all 64-bit integers is left out.
#[verifier::external_body]
fn len(t: &RoaringTreemap) -> (r: u64)
    requires
        exists|id: u64| !treemap_ids(*t).contains(id),
    ensures
        r == treemap_ids(*t).len(),
{
    t.len()
}

/// `roaring::RoaringTreemap::iter`, collected: the integers of the set, each
/// once, in ascending order.
#[verifier::external_body]
fn iter(t: &RoaringTreemap) -> (r: Vec<u64>)
    ensures
        r@.to_set() == treemap_ids(*t),
        ascends(r@),
{
    t.iter().collect()
}

/// Whether each id is larger than the one before.
pub open spec fn ascends(q: Seq<u64>) -> bool {
    forall|i: int, j: int| 0 <= i < j < q.len() ==> #[trigger] q[i] < #[trigger] q[j]
}

/// The ids of a set, in ascending order.
pub open spec fn id_list(s: Set<u64>) -> Seq<u64> {
    choose|q: Seq<u64>| ascends(q) && #[trigger] q.to_set() == s
}

/// There is one way to list a set in ascending order.
proof fn lemma_one_list(a: Seq<u64>, b: Seq<u64>)
    requires
        ascends(a),
        ascends(b),
        a.to_set() == b.to_set(),
    ensures
        a == b,
    decreases a.len(),
{
    if a.len() == 0 {
        if b.len() > 0 {
            assert(b.to_set().contains(b[0]));
            assert(a.to_set().contains(b[0]));
        }
        assert(a =~= b);
    } else {
        let x = a[a.len() - 1];
        assert(a.to_set().contains(x));
        assert(b.contains(x));
        let j = choose|j: int| 0 <= j < b.len() && b[j] == x;
        let y = b[b.len() - 1];
        assert(b.to_set().contains(y));
        assert(a.contains(y));
        let i = choose|i: int| 0 <= i < a.len() && a[i] == y;
        assert(x == y) by {
            if i < a.len() - 1 {
                assert(a[i] < a[a.len() - 1]);
            }
            if j < b.len() - 1 {
                assert(b[j] < b[b.len() - 1]);
            }
        }
        let p = a.drop_last();
        let q = b.drop_last();
        assert(p.to_set() =~= q.to_set()) by {
            assert forall|z: u64| #[trigger] p.to_set().contains(z) <==> q.to_set().contains(z) by {
                if p.to_set().contains(z) {
                    let k = choose|k: int| 0 <= k < p.len() && p[k] == z;
                    assert(a[k] < a[a.len() - 1]);
                    assert(a.to_set().contains(a[k]));
                    assert(b.contains(z));
                    let l = choose|l: int| 0 <= l < b.len() && b[l] == z;
                    assert(q[l] == z);
                }
                if q.to_set().contains(z) {
                    let k = choose|k: int| 0 <= k < q.len() && q[k] == z;
                    assert(b[k] < b[b.len() - 1]);
                    assert(b.to_set().contains(b[k]));
                    assert(a.contains(z));
                    let l = choose|l: int| 0 <= l < a.len() && a[l] == z;
                    assert(p[l] == z);
                }
            }
        }
        lemma_one_list(p, q);
        assert(a =~= p.push(x));
        assert(b =~= q.push(y));
    }
}

/// The ids of `s` below `n`, in ascending order.
proof fn lemma_list_below(s: Set<u64>, n: int) -> (q: Seq<u64>)
    requires
        0 <= n <= u64::MAX + 1,
    ensures
        ascends(q),
        q.to_set() == s.filter(|x: u64| x < n),
    decreases n,
{
    if n == 0 {
        let q = Seq::<u64>::empty();
        assert(q.to_set() =~= s.filter(|x: u64| x < n));
        q
    } else {
        let p = lemma_list_below(s, n - 1);
        let x = (n - 1) as u64;
        assert forall|i: int| 0 <= i < p.len() implies #[trigger] p[i] < n - 1 by {
            assert(p.to_set().contains(p[i]));
        }
        if s.contains(x) {
            let q = p.push(x);
            assert(q.to_set() =~= s.filter(|y: u64| y < n)) by {
                assert forall|y: u64| #[trigger] q.to_set().contains(y) <==> s.contains(y) && y
                    < n by {
                    if q.to_set().contains(y) {
                        let i = choose|i: int| 0 <= i < q.len() && q[i] == y;
                        if i < p.len() {
                            assert(p.to_set().contains(p[i]));
                        }
                    }
                    if s.contains(y) && y < n {
                        if y < n - 1 {
                            assert(p.to_set().contains(y));
                            let i = choose|i: int| 0 <= i < p.len() && p[i] == y;
                            assert(q[i] == y);
                        } else {
                            assert(q[p.len() as int] == y);
                        }
                    }
                }
            }
            q
        } else {
            assert(p.to_set() =~= s.filter(|y: u64| y < n)) by {
                assert forall|y: u64| #[trigger] p.to_set().contains(y) <==> s.contains(y) && y
                    < n by {}
            }
            p
        }
    }
}

/// Every set of ids has its list.
pub proof fn lemma_id_list(s: Set<u64>)
    ensures
        ascends(id_list(s)),
        id_list(s).to_set() == s,
{
    let q = lemma_list_below(s, u64::MAX + 1);
    assert(q.to_set() =~= s);
}

/// The ids that `t` holds, in ascending order.
pub(crate) fn ids(t: &RoaringTreemap) -> (r: Vec<u64>)
    ensures
        r@ == id_list(treemap_ids(*t)),
        r@.to_set() == treemap_ids(*t),
        ascends(r@),
{
    let r: Vec<u64> = iter(t);
    proof {
        let s = treemap_ids(*t);
        assert(ascends(r@) && r@.to_set() == s);
        lemma_one_list(r@, id_list(s));
    }
    r
}

/// There are finitely many ids.
pub proof fn lemma_finite(s: Set<u64>)
    ensures
        s.finite(),
{
    let all = set_int_range(0, u64::MAX + 1);
    let f = |i: int| i as u64;
    lemma_int_range(0, u64::MAX + 1);
    all.lemma_map_finite(f);
    assert(s.subset_of(all.map(f))) by {
        assert forall|id: u64| s.contains(id) implies all.map(f).contains(id) by {
            assert(all.contains(id as int) && f(id as int) == id);
        }
    }
    lemma_set_subset_finite(all.map(f), s);
}

/// How many ids `t` holds, as far as a `usize` can say.
pub(crate) fn count(t: RoaringTreemap) -> (r: usize)
    ensures
        r == if treemap_ids(t).len() <= usize::MAX {
            treemap_ids(t).len()
        } else {
            usize::MAX as nat
        },
{
    let ghost all = treemap_ids(t);
    let mut t = t;
    let last: bool = remove(&mut t, u64::MAX);
    assert(!treemap_ids(t).contains(u64::MAX));
    let n: u64 = len(&t);
    proof {
        lemma_finite(all);
        if !last {
            assert(all.remove(u64::MAX) =~= all);
        }
    }
    let max: u64 = usize::MAX as u64;
    if n > max || (last && n == max) {
        usize::MAX
    } else if last {
        (n + 1) as usize
    } else {
        n as usize
    }
}

} // verus!
