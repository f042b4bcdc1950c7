//! The searchable key index of a parsed container: the headwords sorted by
//! their lower-case form, and the end of each record, taken from the record
//! that follows it.

use vstd::prelude::*;
use crate::keys::KeyEntry;
use crate::sort::{
    IndexOrder,
    identity_indices,
    in_range,
    lemma_permutation_of_range,
    merge_sort,
    range_seq,
    sorted_under,
};
use crate::text::{
    chars_eq,
    chars_lt,
    lemma_seq_lt_irreflexive,
    lemma_seq_lt_total,
    lemma_seq_lt_transitive,
    seq_lt,
};

verus! {

/// Entry `i` sorts before entry `j`: by lower-case headword, then by their
/// position in the file.
pub open spec fn name_before(entries: Seq<KeyEntry>, i: int, j: int) -> bool {
    let a = entries[i].headword_lower@;
    let b = entries[j].headword_lower@;
    seq_lt(a, b) || (a == b && i < j)
}

/// The order of entries by name.
pub struct NameOrder<'a> {
    pub entries: &'a Vec<KeyEntry>,
}

impl<'a> IndexOrder for NameOrder<'a> {
    open spec fn count(&self) -> nat {
        self.entries@.len()
    }

    open spec fn before(&self, i: int, j: int) -> bool {
        name_before(self.entries@, i, j)
    }

    proof fn lemma_strict_total(&self) {
        let e = self.entries@;
        assert forall|i: int| !#[trigger] name_before(e, i, i) by {
            lemma_seq_lt_irreflexive(e[i].headword_lower@);
        }
        assert forall|i: int, j: int, k: int|
            #[trigger] name_before(e, i, j) && #[trigger] name_before(e, j, k) implies name_before(
            e,
            i,
            k,
        ) by {
            let a = e[i].headword_lower@;
            let b = e[j].headword_lower@;
            let c = e[k].headword_lower@;
            if seq_lt(a, b) && seq_lt(b, c) {
                lemma_seq_lt_transitive(a, b, c);
            }
        }
        assert forall|i: int, j: int| #![trigger name_before(e, i, j)] i != j implies name_before(
            e,
            i,
            j,
        ) || name_before(e, j, i) by {
            lemma_seq_lt_total(e[i].headword_lower@, e[j].headword_lower@);
        }
    }

    fn precedes(&self, i: usize, j: usize) -> (r: bool) {
        let a = self.entries[i].headword_lower.as_slice();
        let b = self.entries[j].headword_lower.as_slice();
        chars_lt(a, b) || (chars_eq(a, b) && i < j)
    }
}

/// `order` lists each of the indices `0..n` once.
pub open spec fn is_permutation(order: Seq<usize>, n: nat) -> bool {
    order.to_multiset() == range_seq(n).to_multiset()
}

/// Sorts the entries by lower-case headword (ties kept in file order) and
/// returns their indices in that order.
pub fn sort_by_name(entries: &Vec<KeyEntry>) -> (r: Vec<usize>)
    ensures
        is_permutation(r@, entries@.len()),
        forall|a: int, b: int|
            0 <= a < b < r@.len() ==> !name_before(entries@, r@[b] as int, r@[a] as int),
{
    let o = NameOrder { entries };
    let ids = identity_indices(entries.len());
    assert(in_range(&o, ids@));
    let r = merge_sort(&o, ids.as_slice());
    assert forall|a: int, b: int|
        0 <= a < b < r@.len() implies !name_before(entries@, r@[b] as int, r@[a] as int) by {
        assert(!o.before(r@[b] as int, r@[a] as int));
    }
    r
}

/// Entry `i`'s record comes before entry `j`'s: by record start, then in
/// name order (the order the index is kept in).
pub open spec fn record_before(entries: Seq<KeyEntry>, i: int, j: int) -> bool {
    entries[i].record_start < entries[j].record_start || (entries[i].record_start
        == entries[j].record_start && name_before(entries, i, j))
}

/// The order of entries by where their records start.
pub struct RecordOrder<'a> {
    pub entries: &'a Vec<KeyEntry>,
}

impl<'a> IndexOrder for RecordOrder<'a> {
    open spec fn count(&self) -> nat {
        self.entries@.len()
    }

    open spec fn before(&self, i: int, j: int) -> bool {
        record_before(self.entries@, i, j)
    }

    proof fn lemma_strict_total(&self) {
        let no = NameOrder { entries: self.entries };
        no.lemma_strict_total();
        let e = self.entries@;
        assert forall|i: int, j: int, k: int|
            #[trigger] record_before(e, i, j) && #[trigger] record_before(e, j, k) implies record_before(
            e,
            i,
            k,
        ) by {
            if e[i].record_start == e[j].record_start && e[j].record_start == e[k].record_start {
                assert(no.before(i, j) && no.before(j, k));
            }
        }
        assert forall|i: int, j: int| #![trigger record_before(e, i, j)] i != j implies record_before(
            e,
            i,
            j,
        ) || record_before(e, j, i) by {
            assert(no.before(i, j) || no.before(j, i));
        }
        assert forall|i: int| !#[trigger] record_before(e, i, i) by {
            assert(!no.before(i, i));
        }
    }

    fn precedes(&self, i: usize, j: usize) -> (r: bool) {
        let si = self.entries[i].record_start;
        let sj = self.entries[j].record_start;
        if si != sj {
            si < sj
        } else {
            let no = NameOrder { entries: self.entries };
            no.precedes(i, j)
        }
    }
}

/// `end` is the record end of index `p` under the order `o`: the start of
/// the index that immediately follows `p`, or `u64::MAX` when none does.
pub open spec fn end_follows<O: IndexOrder>(o: &O, starts: Seq<u64>, end: u64, p: int) -> bool {
    ||| end == u64::MAX && forall|q: int| 0 <= q < starts.len() ==> !o.before(p, q)
    ||| exists|q: int|
        0 <= q < starts.len() && o.before(p, q) && end == starts[q] && forall|q2: int|
            0 <= q2 < starts.len() && o.before(p, q2) ==> !o.before(q2, q)
}

/// Chains the record ends: each index ends where the record of the index
/// that follows it under `o` starts; the last one ends at `u64::MAX`.
pub fn fill_record_ends<O: IndexOrder>(o: &O, starts: &Vec<u64>) -> (ends: Vec<u64>)
    requires
        o.count() == starts@.len(),
    ensures
        ends@.len() == starts@.len(),
        forall|p: int| 0 <= p < starts@.len() ==> #[trigger] end_follows(o, starts@, ends@[p], p),
{
    let n = starts.len();
    let ids = identity_indices(n);
    let order = merge_sort(o, ids.as_slice());
    proof {
        lemma_permutation_of_range(order@, n as nat);
        o.lemma_strict_total();
    }
    let mut ends: Vec<u64> = vec![0u64; n];
    let mut w: usize = 0;
    while w < n
        invariant
            n == starts@.len(),
            o.count() == n,
            order@.len() == n,
            ends@.len() == n,
            w <= n,
            sorted_under(o, order@),
            forall|k: usize| (k as int) < n ==> #[trigger] order@.contains(k),
            forall|a: int, b: int| 0 <= a < b < order@.len() ==> order@[a] != order@[b],
            forall|a: int| 0 <= a < order@.len() ==> (order@[a] as int) < n,
            forall|x: int| !#[trigger] o.before(x, x),
            forall|x: int, y: int| #![trigger o.before(x, y)] x != y ==> o.before(x, y) || o.before(y, x),
            forall|v: int|
                0 <= v < w ==> end_follows(o, starts@, #[trigger] ends@[order@[v] as int], order@[v] as int),
        decreases n - w,
    {
        let p = order[w];
        let value = if w + 1 < n {
            starts[order[w + 1]]
        } else {
            u64::MAX
        };
        proof {
            assert forall|q: int| 0 <= q < n && o.before(p as int, q) implies exists|w2: int|
                w < w2 < n && order@[w2] == q by {
                assert(order@.contains(q as usize));
                let w2 = choose|w2: int| 0 <= w2 < order@.len() && order@[w2] == q as usize;
                if w2 < w {
                    assert(!o.before(order@[w as int] as int, order@[w2] as int));
                }
            }
            if w + 1 < n {
                let s = order@[w + 1] as int;
                assert(!o.before(s, p as int));
                assert(p as int != s);
                assert(o.before(p as int, s));
                assert forall|q2: int|
                    0 <= q2 < n && o.before(p as int, q2) implies !o.before(q2, s) by {
                    let w2 = choose|w2: int| w < w2 < n && order@[w2] == q2;
                    if w2 > w + 1 {
                        assert(!o.before(order@[w2] as int, order@[w + 1] as int));
                    }
                }
                assert(end_follows(o, starts@, value, p as int));
            } else {
                assert forall|q: int| 0 <= q < n implies !o.before(p as int, q) by {
                    if o.before(p as int, q) {
                        let w2 = choose|w2: int| w < w2 < n && order@[w2] == q;
                    }
                }
            }
        }
        let ghost prev = ends@;
        ends.set(p, value);
        proof {
            assert forall|v: int| 0 <= v < w + 1 implies end_follows(
                o,
                starts@,
                #[trigger] ends@[order@[v] as int],
                order@[v] as int,
            ) by {
                if v < w {
                    assert(order@[v] != order@[w as int]);
                    assert(ends@[order@[v] as int] == prev[order@[v] as int]);
                }
            }
        }
        w += 1;
    }
    proof {
        assert forall|p: int| 0 <= p < starts@.len() implies #[trigger] end_follows(
            o,
            starts@,
            ends@[p],
            p,
        ) by {
            assert(order@.contains(p as usize));
            let v = choose|v: int| 0 <= v < order@.len() && order@[v] == p as usize;
            assert(end_follows(o, starts@, ends@[order@[v] as int], order@[v] as int));
        }
    }
    ends
}

} // verus!
