//! Merge sort of index lists under a strict total order on the indices.

use vstd::prelude::*;
use vstd::multiset::Multiset;

verus! {

broadcast use vstd::seq_lib::group_to_multiset_ensures;

/// A strict total order on the indices `0..count()`, with a way to decide it.
pub trait IndexOrder {
    /// How many indices the order ranges over.
    spec fn count(&self) -> nat;

    /// Index `i` comes strictly before index `j`.
    spec fn before(&self, i: int, j: int) -> bool;

    /// `before` is irreflexive, transitive and total.
    proof fn lemma_strict_total(&self)
        ensures
            forall|i: int| !#[trigger] self.before(i, i),
            forall|i: int, j: int, k: int|
                #[trigger] self.before(i, j) && #[trigger] self.before(j, k) ==> self.before(i, k),
            forall|i: int, j: int| #![trigger self.before(i, j)] i != j ==> self.before(i, j) || self.before(j, i),
    ;

    /// Decides `before` on two indices in range.
    fn precedes(&self, i: usize, j: usize) -> (r: bool)
        requires
            (i as int) < self.count(),
            (j as int) < self.count(),
        ensures
            r == self.before(i as int, j as int),
    ;
}

/// No later element of `s` comes before an earlier one.
pub open spec fn sorted_under<O: IndexOrder>(o: &O, s: Seq<usize>) -> bool {
    forall|a: int, b: int| 0 <= a < b < s.len() ==> !o.before(s[b] as int, s[a] as int)
}

/// Every element of `s` is an index of the order.
pub open spec fn in_range<O: IndexOrder>(o: &O, s: Seq<usize>) -> bool {
    forall|a: int| 0 <= a < s.len() ==> (#[trigger] s[a] as int) < o.count()
}

/// Merges two sorted index lists.
fn merge<O: IndexOrder>(o: &O, a: &Vec<usize>, b: &Vec<usize>) -> (r: Vec<usize>)
    requires
        sorted_under(o, a@),
        sorted_under(o, b@),
        in_range(o, a@),
        in_range(o, b@),
    ensures
        r@.to_multiset() == a@.to_multiset().add(b@.to_multiset()),
        sorted_under(o, r@),
        in_range(o, r@),
        r@.len() == a@.len() + b@.len(),
{
    proof {
        o.lemma_strict_total();
    }
    let mut r: Vec<usize> = Vec::new();
    let mut i: usize = 0;
    let mut j: usize = 0;
    assert(a@.take(0).to_multiset() =~= Multiset::empty());
    assert(b@.take(0).to_multiset() =~= Multiset::empty());
    while i < a.len() || j < b.len()
        invariant
            i <= a@.len(),
            j <= b@.len(),
            r@.len() == i + j,
            sorted_under(o, a@),
            sorted_under(o, b@),
            in_range(o, a@),
            in_range(o, b@),
            in_range(o, r@),
            sorted_under(o, r@),
            r@.to_multiset() == a@.take(i as int).to_multiset().add(b@.take(j as int).to_multiset()),
            r@.len() > 0 ==> forall|k: int| i <= k < a@.len() ==> !o.before(a@[k] as int, r@.last() as int),
            r@.len() > 0 ==> forall|k: int| j <= k < b@.len() ==> !o.before(b@[k] as int, r@.last() as int),
            forall|x: int| !#[trigger] o.before(x, x),
            forall|x: int, y: int, z: int|
                #[trigger] o.before(x, y) && #[trigger] o.before(y, z) ==> o.before(x, z),
            forall|x: int, y: int| #![trigger o.before(x, y)] x != y ==> o.before(x, y) || o.before(y, x),
        decreases a@.len() + b@.len() - i - j,
    {
        let take_a = if j >= b.len() {
            true
        } else if i < a.len() {
            !o.precedes(b[j], a[i])
        } else {
            false
        };
        let ghost old_r = r@;
        if take_a {
            let x = a[i];
            r.push(x);
            proof {
                assert(a@.take(i + 1) =~= a@.take(i as int).push(x));
                assert forall|k: int| i + 1 <= k < a@.len() implies !o.before(a@[k] as int, x as int) by {
                    assert(!o.before(a@[k] as int, a@[i as int] as int));
                }
                assert forall|k: int| j <= k < b@.len() implies !o.before(b@[k] as int, x as int) by {
                    if o.before(b@[k] as int, x as int) {
                        assert(!o.before(b@[j as int] as int, x as int));
                        if k > j {
                            assert(!o.before(b@[k] as int, b@[j as int] as int));
                            if b@[k] != b@[j as int] {
                                assert(o.before(b@[j as int] as int, b@[k] as int));
                            }
                        }
                    }
                }
                assert forall|p: int, q: int| 0 <= p < q < r@.len() implies !o.before(r@[q] as int, r@[p] as int) by {
                    if q == r@.len() - 1 && p < q {
                        if o.before(x as int, r@[p] as int) {
                            assert(!o.before(x as int, old_r.last() as int));
                            if p < old_r.len() - 1 {
                                assert(!o.before(old_r.last() as int, old_r[p] as int));
                                if old_r.last() != old_r[p] {
                                    assert(o.before(old_r[p] as int, old_r.last() as int));
                                }
                            }
                            if x != old_r.last() {
                                assert(o.before(old_r.last() as int, x as int));
                            }
                        }
                    } else {
                        assert(r@[q] == old_r[q] && r@[p] == old_r[p]);
                    }
                }
            }
            i += 1;
        } else {
            let x = b[j];
            r.push(x);
            proof {
                assert(b@.take(j + 1) =~= b@.take(j as int).push(x));
                assert forall|k: int| j + 1 <= k < b@.len() implies !o.before(b@[k] as int, x as int) by {
                    assert(!o.before(b@[k] as int, b@[j as int] as int));
                }
                assert forall|k: int| i <= k < a@.len() implies !o.before(a@[k] as int, x as int) by {
                    assert(o.before(b@[j as int] as int, a@[i as int] as int));
                    if k > i {
                        assert(!o.before(a@[k] as int, a@[i as int] as int));
                        if a@[k] != a@[i as int] {
                            assert(o.before(a@[i as int] as int, a@[k] as int));
                        }
                    }
                    if o.before(a@[k] as int, x as int) {
                        assert(o.before(a@[k] as int, a@[k] as int));
                    }
                }
                assert forall|p: int, q: int| 0 <= p < q < r@.len() implies !o.before(r@[q] as int, r@[p] as int) by {
                    if q == r@.len() - 1 && p < q {
                        if o.before(x as int, r@[p] as int) {
                            assert(!o.before(x as int, old_r.last() as int));
                            if p < old_r.len() - 1 {
                                assert(!o.before(old_r.last() as int, old_r[p] as int));
                                if old_r.last() != old_r[p] {
                                    assert(o.before(old_r[p] as int, old_r.last() as int));
                                }
                            }
                            if x != old_r.last() {
                                assert(o.before(old_r.last() as int, x as int));
                            }
                        }
                    } else {
                        assert(r@[q] == old_r[q] && r@[p] == old_r[p]);
                    }
                }
            }
            j += 1;
        }
    }
    assert(a@.take(a@.len() as int) =~= a@);
    assert(b@.take(b@.len() as int) =~= b@);
    r
}

/// Sorts a list of indices under the order `o`; the result is a
/// rearrangement of the input.
pub fn merge_sort<O: IndexOrder>(o: &O, v: &[usize]) -> (r: Vec<usize>)
    requires
        in_range(o, v@),
    ensures
        r@.to_multiset() == v@.to_multiset(),
        sorted_under(o, r@),
        in_range(o, r@),
        r@.len() == v@.len(),
    decreases v@.len(),
{
    if v.len() <= 1 {
        return vstd::slice::slice_to_vec(v);
    }
    let mid = v.len() / 2;
    let lo = vstd::slice::slice_subrange(v, 0, mid);
    let hi = vstd::slice::slice_subrange(v, mid, v.len());
    let left = merge_sort(o, lo);
    let right = merge_sort(o, hi);
    proof {
        assert(v@ =~= lo@ + hi@);
        vstd::seq_lib::lemma_multiset_commutative(lo@, hi@);
    }
    merge(o, &left, &right)
}

/// The indices `0..n` in increasing order.
pub fn identity_indices(n: usize) -> (r: Vec<usize>)
    ensures
        r@.len() == n,
        forall|i: int| 0 <= i < n ==> #[trigger] r@[i] == i,
        r@ == range_seq(n as nat),
{
    let mut r: Vec<usize> = Vec::new();
    let mut i: usize = 0;
    while i < n
        invariant
            i <= n,
            r@.len() == i,
            forall|k: int| 0 <= k < i ==> #[trigger] r@[k] == k,
        decreases n - i,
    {
        r.push(i);
        i += 1;
    }
    assert(r@ =~= range_seq(n as nat));
    r
}

/// The indices `0..n` as a sequence.
pub open spec fn range_seq(n: nat) -> Seq<usize> {
    Seq::new(n, |i: int| i as usize)
}

/// A rearrangement of `0..n` holds each index of `0..n` exactly once.
pub proof fn lemma_permutation_of_range(r: Seq<usize>, n: nat)
    requires
        r.to_multiset() == range_seq(n).to_multiset(),
        n <= usize::MAX + 1,
    ensures
        r.len() == n,
        forall|k: usize| (k as int) < n ==> #[trigger] r.contains(k),
        forall|a: int, b: int| 0 <= a < b < r.len() ==> r[a] != r[b],
        forall|a: int| 0 <= a < r.len() ==> (r[a] as int) < n,
{
    let id = range_seq(n);
    assert(r.to_multiset().len() == r.len());
    assert(id.to_multiset().len() == id.len());
    assert(r.len() == id.len());
    assert forall|k: usize| (k as int) < n implies #[trigger] r.contains(k) by {
        assert(id[k as int] == k);
        assert(id.contains(k));
        assert(id.to_multiset().count(k) > 0);
        assert(r.to_multiset().count(k) > 0);
    }
    assert forall|a: int| 0 <= a < r.len() implies (r[a] as int) < n by {
        assert(r.contains(r[a]));
        assert(r.to_multiset().count(r[a]) > 0);
        assert(id.to_multiset().count(r[a]) > 0);
        assert(id.contains(r[a]));
    }
    lemma_range_unique(n);
    assert forall|a: int, b: int| 0 <= a < b < r.len() implies r[a] != r[b] by {
        if r[a] == r[b] {
            lemma_two_copies(r, a, b);
            assert(id.to_multiset().count(r[a]) >= 2);
        }
    }
}

proof fn lemma_range_unique(n: nat)
    requires
        n <= usize::MAX + 1,
    ensures
        forall|x: usize| #[trigger] range_seq(n).to_multiset().count(x) <= 1,
    decreases n,
{
    let id = range_seq(n);
    if n > 0 {
        let prev = range_seq((n - 1) as nat);
        lemma_range_unique((n - 1) as nat);
        assert(id =~= prev.push((n - 1) as usize));
        assert forall|x: usize| #[trigger] id.to_multiset().count(x) <= 1 by {
            if x == (n - 1) as usize {
                assert(!prev.contains(x)) by {
                    if prev.contains(x) {
                        let k = choose|k: int| 0 <= k < prev.len() && prev[k] == x;
                        assert(prev[k] == k as usize);
                    }
                }
            }
        }
    } else {
        assert(id.to_multiset() =~= Multiset::empty());
    }
}

proof fn lemma_two_copies(r: Seq<usize>, a: int, b: int)
    requires
        0 <= a < b < r.len(),
        r[a] == r[b],
    ensures
        r.to_multiset().count(r[a]) >= 2,
{
    broadcast use vstd::multiset::group_multiset_axioms;
    let x = r[a];
    let r1 = r.remove(b);
    assert(r1[a] == x);
    assert(r1.contains(x));
    assert(r1.to_multiset().count(x) > 0);
    assert(r1.to_multiset() == r.to_multiset().remove(x));
    assert(r.contains(x));
    assert(r.to_multiset().count(x) > 0);
}

} // verus!
