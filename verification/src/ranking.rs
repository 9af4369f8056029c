//! Stable sorting as a ranking: the positions of a list in the order in which
//! its items come.
use vstd::prelude::*;

verus! {

/// Items with an order in which two of them may share a rank.
pub trait Ranked: Sized {
    /// `self` may stand before `other`.
    spec fn le(&self, other: &Self) -> bool;

    proof fn le_total(a: &Self, b: &Self)
        ensures
            a.le(b) || b.le(a),
    ;

    proof fn le_transitive(a: &Self, b: &Self, c: &Self)
        requires
            a.le(b),
            b.le(c),
        ensures
            a.le(c),
    ;

    fn may_precede(&self, other: &Self) -> (r: bool)
        ensures
            r == self.le(other),
    ;
}

/// The item at `a` comes before the one at `b`: it ranks higher, or they share a
/// rank and it stands first in the list.
pub open spec fn comes_first<T: Ranked>(v: Seq<T>, a: int, b: int) -> bool {
    v[a].le(&v[b]) && (v[b].le(&v[a]) ==> a < b)
}

/// `order` holds each position from `lo` up to `hi` once, in the order in which
/// the items come.
pub open spec fn ranks<T: Ranked>(v: Seq<T>, order: Seq<usize>, lo: int, hi: int) -> bool {
    &&& order.len() == hi - lo
    &&& forall|i: int| 0 <= i < order.len() ==> lo <= #[trigger] order[i] < hi
    &&& forall|i: int, j: int|
        0 <= i < j < order.len() ==> comes_first(v, #[trigger] order[i] as int, #[trigger] order[j] as int)
            && order[i] != order[j]
}

/// `order` ranks the whole list.
pub open spec fn is_ranking<T: Ranked>(v: Seq<T>, order: Seq<usize>) -> bool {
    ranks(v, order, 0, v.len() as int)
}

proof fn lemma_comes_first_transitive<T: Ranked>(v: Seq<T>, a: int, b: int, c: int)
    requires
        comes_first(v, a, b),
        comes_first(v, b, c),
    ensures
        comes_first(v, a, c),
{
    T::le_transitive(&v[a], &v[b], &v[c]);
    if v[c].le(&v[a]) {
        T::le_transitive(&v[b], &v[c], &v[a]);
        T::le_transitive(&v[c], &v[a], &v[b]);
    }
}

/// Merges the rankings of two neighbouring stretches.
fn merge<T: Ranked>(v: &Vec<T>, a: &Vec<usize>, b: &Vec<usize>, lo: usize, mid: usize, hi: usize) -> (r:
    Vec<usize>)
    requires
        lo <= mid <= hi <= v.len(),
        ranks(v@, a@, lo as int, mid as int),
        ranks(v@, b@, mid as int, hi as int),
    ensures
        ranks(v@, r@, lo as int, hi as int),
{
    let mut out: Vec<usize> = Vec::new();
    let mut i: usize = 0;
    let mut j: usize = 0;
    while i < a.len() || j < b.len()
        invariant
            lo <= mid <= hi <= v.len(),
            ranks(v@, a@, lo as int, mid as int),
            ranks(v@, b@, mid as int, hi as int),
            i <= a.len(),
            j <= b.len(),
            out.len() == i + j,
            forall|k: int| 0 <= k < out.len() ==> lo <= #[trigger] out@[k] < hi,
            forall|k: int, l: int|
                0 <= k < l < out.len() ==> comes_first(
                    v@,
                    #[trigger] out@[k] as int,
                    #[trigger] out@[l] as int,
                ) && out@[k] != out@[l],
            forall|k: int, l: int|
                0 <= k < out.len() && i <= l < a.len() ==> comes_first(
                    v@,
                    #[trigger] out@[k] as int,
                    #[trigger] a@[l] as int,
                ) && out@[k] != a@[l],
            forall|k: int, l: int|
                0 <= k < out.len() && j <= l < b.len() ==> comes_first(
                    v@,
                    #[trigger] out@[k] as int,
                    #[trigger] b@[l] as int,
                ) && out@[k] != b@[l],
        decreases a.len() - i + b.len() - j,
    {
        let take_a = if i == a.len() {
            false
        } else if j == b.len() {
            true
        } else {
            v[a[i]].may_precede(&v[b[j]])
        };
        let ghost before = out@;
        if take_a {
            proof {
                if j < b.len() {
                    assert(comes_first(v@, a@[i as int] as int, b@[j as int] as int));
                }
                assert forall|l: int| j <= l < b.len() implies comes_first(
                    v@,
                    a@[i as int] as int,
                    #[trigger] b@[l] as int,
                ) by {
                    if l > j {
                        assert(comes_first(v@, b@[j as int] as int, b@[l] as int));
                        lemma_comes_first_transitive(
                            v@,
                            a@[i as int] as int,
                            b@[j as int] as int,
                            b@[l] as int,
                        );
                    }
                }
            }
            out.push(a[i]);
            i = i + 1;
        } else {
            proof {
                if i < a.len() {
                    T::le_total(&v@[a@[i as int] as int], &v@[b@[j as int] as int]);
                    assert(comes_first(v@, b@[j as int] as int, a@[i as int] as int));
                }
                assert forall|l: int| i <= l < a.len() implies comes_first(
                    v@,
                    b@[j as int] as int,
                    #[trigger] a@[l] as int,
                ) by {
                    if l > i {
                        assert(comes_first(v@, a@[i as int] as int, a@[l] as int));
                        lemma_comes_first_transitive(
                            v@,
                            b@[j as int] as int,
                            a@[i as int] as int,
                            a@[l] as int,
                        );
                    }
                }
            }
            out.push(b[j]);
            j = j + 1;
        }
    }
    out
}

fn rank_stretch<T: Ranked>(v: &Vec<T>, lo: usize, hi: usize) -> (r: Vec<usize>)
    requires
        lo <= hi <= v.len(),
    ensures
        ranks(v@, r@, lo as int, hi as int),
    decreases hi - lo,
{
    if hi - lo <= 1 {
        let mut r: Vec<usize> = Vec::new();
        if hi - lo == 1 {
            r.push(lo);
        }
        return r;
    }
    let mid = lo + (hi - lo) / 2;
    let a = rank_stretch(v, lo, mid);
    let b = rank_stretch(v, mid, hi);
    merge(v, &a, &b, lo, mid, hi)
}

/// The positions of the items in the order in which they come.
pub fn rank<T: Ranked>(v: &Vec<T>) -> (r: Vec<usize>)
    ensures
        is_ranking(v@, r@),
{
    rank_stretch(v, 0, v.len())
}

/// `order` holds each position below `n` once, each before those that it comes
/// first of.
pub open spec fn is_order(n: nat, order: Seq<usize>, first: spec_fn(int, int) -> bool) -> bool {
    &&& order.len() == n
    &&& forall|i: int| 0 <= i < order.len() ==> 0 <= #[trigger] order[i] < n
    &&& forall|i: int, j: int|
        0 <= i < j < order.len() ==> first(#[trigger] order[i] as int, #[trigger] order[j] as int)
            && order[i] != order[j]
}

/// There is one such order only.
pub proof fn law_order_is_unique(
    n: nat,
    p: Seq<usize>,
    q: Seq<usize>,
    first: spec_fn(int, int) -> bool,
)
    requires
        is_order(n, p, first),
        is_order(n, q, first),
        forall|a: int, b: int| a != b && #[trigger] first(a, b) ==> !first(b, a),
    ensures
        p == q,
{
    assert forall|i: int| 0 <= i < p.len() implies p[i] == q[i] by {
        lemma_same_at(n, p, q, first, i);
    }
    assert(p =~= q);
}

/// A list has one ranking only.
pub proof fn law_ranking_is_unique<T: Ranked>(v: Seq<T>, p: Seq<usize>, q: Seq<usize>)
    requires
        is_ranking(v, p),
        is_ranking(v, q),
    ensures
        p == q,
{
    let first = |a: int, b: int| comes_first(v, a, b);
    assert(is_order(v.len(), p, first));
    assert(is_order(v.len(), q, first));
    law_order_is_unique(v.len(), p, q, first);
}

/// Every position occurs in an order.
pub proof fn lemma_order_complete(
    n: nat,
    p: Seq<usize>,
    first: spec_fn(int, int) -> bool,
    x: usize,
)
    requires
        is_order(n, p, first),
        x < n,
    ensures
        p.contains(x),
{
    let n = n as int;
    let all = Set::<int>::new(|k: int| 0 <= k < n);
    let ints = p.map_values(|k: usize| k as int);
    vstd::set_lib::lemma_int_range(0, n);
    assert(vstd::set_lib::set_int_range(0, n) =~= all);
    assert(ints.no_duplicates()) by {
        assert forall|i: int, j: int| 0 <= i < ints.len() && 0 <= j < ints.len() && i != j implies ints[i]
            != ints[j] by {
            if i < j {
                assert(p[i] != p[j]);
            } else {
                assert(p[j] != p[i]);
            }
        }
    }
    ints.unique_seq_to_set();
    assert(ints.to_set().subset_of(all)) by {
        assert forall|k: int| ints.to_set().contains(k) implies all.contains(k) by {
            let i = choose|i: int| 0 <= i < ints.len() && ints[i] == k;
            assert(p[i] as int == k);
        }
    }
    vstd::set_lib::lemma_subset_equality(ints.to_set(), all);
    assert(all.contains(x as int));
    assert(ints.to_set().contains(x as int));
    let i = choose|i: int| 0 <= i < ints.len() && ints[i] == x as int;
    assert(p[i] == x);
}

/// Every position occurs in a ranking.
pub proof fn lemma_ranking_complete<T: Ranked>(v: Seq<T>, p: Seq<usize>, x: usize)
    requires
        is_ranking(v, p),
        x < v.len(),
    ensures
        p.contains(x),
{
    let first = |a: int, b: int| comes_first(v, a, b);
    assert(is_order(v.len(), p, first));
    lemma_order_complete(v.len(), p, first, x);
}

proof fn lemma_same_at(
    n: nat,
    p: Seq<usize>,
    q: Seq<usize>,
    first: spec_fn(int, int) -> bool,
    i: int,
)
    requires
        is_order(n, p, first),
        is_order(n, q, first),
        forall|a: int, b: int| a != b && #[trigger] first(a, b) ==> !first(b, a),
        0 <= i < p.len(),
    ensures
        p[i] == q[i],
    decreases i,
{
    assert forall|k: int| 0 <= k < i implies p[k] == q[k] by {
        lemma_same_at(n, p, q, first, k);
    }
    if p[i] != q[i] {
        lemma_order_complete(n, q, first, p[i]);
        lemma_order_complete(n, p, first, q[i]);
        let j = choose|j: int| 0 <= j < q.len() && q[j] == p[i];
        let k = choose|k: int| 0 <= k < p.len() && p[k] == q[i];
        if j < i {
            assert(p[j] == q[j]);
        }
        if k < i {
            assert(p[k] == q[k]);
        }
        assert(first(q[i] as int, q[j] as int));
        assert(first(p[i] as int, p[k] as int));
    }
}

/// `r` holds the positions marked in `keep`, in the order of the ranking; where
/// there are more than `limit`, the first `limit` of them.
pub open spec fn is_pick<T: Ranked>(v: Seq<T>, keep: Seq<bool>, limit: nat, r: Seq<usize>) -> bool {
    &&& r.len() <= limit
    &&& forall|i: int| 0 <= i < r.len() ==> 0 <= #[trigger] r[i] < v.len() && keep[r[i] as int]
    &&& forall|i: int, j: int|
        0 <= i < j < r.len() ==> comes_first(v, #[trigger] r[i] as int, #[trigger] r[j] as int)
            && r[i] != r[j]
    &&& forall|x: int|
        0 <= x < v.len() && #[trigger] keep[x] ==> r.contains(x as usize) || (r.len() == limit
            && all_come_first(v, r, x))
}

/// Every position of `r` comes before `x`.
pub open spec fn all_come_first<T: Ranked>(v: Seq<T>, r: Seq<usize>, x: int) -> bool {
    forall|i: int| 0 <= i < r.len() ==> comes_first(v, #[trigger] r[i] as int, x)
}

/// Picks marked items in the order of the ranking.
pub fn pick<T: Ranked>(v: &Vec<T>, keep: &Vec<bool>, limit: usize) -> (r: Vec<usize>)
    requires
        keep.len() == v.len(),
    ensures
        is_pick(v@, keep@, limit as nat, r@),
{
    let order = rank(v);
    let mut r: Vec<usize> = Vec::new();
    let mut i: usize = 0;
    while i < order.len() && r.len() < limit
        invariant
            keep.len() == v.len(),
            is_ranking(v@, order@),
            i <= order.len(),
            r.len() <= limit,
            forall|k: int|
                0 <= k < r.len() ==> 0 <= #[trigger] r@[k] < v.len() && keep@[r@[k] as int],
            forall|k: int, l: int|
                0 <= k < l < r.len() ==> comes_first(
                    v@,
                    #[trigger] r@[k] as int,
                    #[trigger] r@[l] as int,
                ) && r@[k] != r@[l],
            forall|k: int, l: int|
                0 <= k < r.len() && i <= l < order.len() ==> comes_first(
                    v@,
                    #[trigger] r@[k] as int,
                    #[trigger] order@[l] as int,
                ) && r@[k] != order@[l],
            forall|l: int|
                0 <= l < i && keep@[#[trigger] order@[l] as int] ==> r@.contains(order@[l]),
        decreases order.len() - i,
    {
        let ghost before = r@;
        if keep[order[i]] {
            r.push(order[i]);
            assert(r@[r@.len() - 1] == order@[i as int]);
        }
        proof {
            assert forall|l: int| 0 <= l < i + 1 && keep@[#[trigger] order@[l] as int] implies r@.contains(
                order@[l],
            ) by {
                if l < i {
                    let k = choose|k: int| 0 <= k < before.len() && before[k] == order@[l];
                    assert(r@[k] == order@[l]);
                }
            }
        }
        i = i + 1;
    }
    proof {
        assert forall|x: int| 0 <= x < v@.len() && #[trigger] keep@[x] implies r@.contains(x as usize)
            || (r@.len() == limit && all_come_first(v@, r@, x)) by {
            lemma_ranking_complete(v@, order@, x as usize);
            let l = choose|l: int| 0 <= l < order@.len() && order@[l] == x as usize;
            if l >= i {
                assert forall|k: int| 0 <= k < r@.len() implies comes_first(
                    v@,
                    #[trigger] r@[k] as int,
                    x,
                ) by {
                    assert(comes_first(v@, r@[k] as int, order@[l] as int));
                }
            }
        }
    }
    r
}

/// A number, ranked with the largest first.
pub struct Largest {
    pub value: u64,
}

impl Ranked for Largest {
    open spec fn le(&self, other: &Largest) -> bool {
        self.value >= other.value
    }

    proof fn le_total(a: &Largest, b: &Largest) {
    }

    proof fn le_transitive(a: &Largest, b: &Largest, c: &Largest) {
    }

    fn may_precede(&self, other: &Largest) -> (r: bool) {
        self.value >= other.value
    }
}

/// The positions of a list of numbers, largest first; equal ones keep their
/// order.
pub open spec fn is_descending(keys: Seq<u64>, r: Seq<usize>) -> bool {
    &&& r.len() == keys.len()
    &&& forall|i: int| 0 <= i < r.len() ==> 0 <= #[trigger] r[i] < keys.len()
    &&& forall|i: int, j: int|
        0 <= i < j < r.len() ==> keys[#[trigger] r[i] as int] > keys[#[trigger] r[j] as int] || (
        keys[r[i] as int] == keys[r[j] as int] && r[i] < r[j])
}

/// Ranks numbers, largest first.
pub fn descending(keys: &Vec<u64>) -> (r: Vec<usize>)
    ensures
        is_descending(keys@, r@),
{
    let mut items: Vec<Largest> = Vec::new();
    let mut i: usize = 0;
    while i < keys.len()
        invariant
            i <= keys.len(),
            items.len() == i,
            forall|k: int| 0 <= k < i ==> (#[trigger] items@[k]).value == keys@[k],
        decreases keys.len() - i,
    {
        items.push(Largest { value: keys[i] });
        i = i + 1;
    }
    let r = rank(&items);
    proof {
        assert forall|i: int, j: int| 0 <= i < j < r@.len() implies keys@[#[trigger] r@[i] as int]
            > keys@[#[trigger] r@[j] as int] || (keys@[r@[i] as int] == keys@[r@[j] as int] && r@[i]
            < r@[j]) by {
            assert(comes_first(items@, r@[i] as int, r@[j] as int));
            assert(items@[r@[i] as int].value == keys@[r@[i] as int]);
            assert(items@[r@[j] as int].value == keys@[r@[j] as int]);
        }
    }
    r
}

/// A ranking holds every item once; what stands earlier may stand there, and items of
/// one rank keep the order of the list.
pub proof fn law_ranking_is_a_stable_sort<T: Ranked>(v: Seq<T>, p: Seq<usize>)
    requires
        is_ranking(v, p),
        v.len() <= usize::MAX,
    ensures
        p.len() == v.len(),
        p.no_duplicates(),
        forall|x: int| 0 <= x < v.len() ==> #[trigger] p.contains(x as usize),
        forall|i: int, j: int|
            0 <= i < j < p.len() ==> v[#[trigger] p[i] as int].le(&v[#[trigger] p[j] as int]),
        forall|i: int, j: int|
            0 <= i < j < p.len() && v[p[j] as int].le(&v[p[i] as int]) ==> #[trigger] p[i]
                < #[trigger] p[j],
{
    assert forall|x: int| 0 <= x < v.len() implies #[trigger] p.contains(x as usize) by {
        lemma_ranking_complete(v, p, x as usize);
    }
}

/// A descending order starts at the largest key and never rises; equal keys keep the
/// order of the list.
pub proof fn law_descending_never_rises(keys: Seq<u64>, r: Seq<usize>)
    requires
        is_descending(keys, r),
    ensures
        r.len() == keys.len(),
        r.no_duplicates(),
        forall|i: int, j: int|
            0 <= i < j < r.len() ==> keys[#[trigger] r[i] as int] >= keys[#[trigger] r[j] as int],
        forall|i: int, j: int|
            0 <= i < j < r.len() && keys[r[i] as int] == keys[r[j] as int] ==> #[trigger] r[i]
                < #[trigger] r[j],
{
}

} // verus!
