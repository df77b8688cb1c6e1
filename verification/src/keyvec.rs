//! A sorted key column: the ordered key-value table underlying each index
//! column family. Values are empty, so a column is just a strictly sorted
//! vector of four-term keys; prefix scans filter on a whole-term prefix.

use crate::encoded::{
    lemma_term_lt_trans, lemma_term_order_total, term_compare, term_lt, EncodedTerm, TermOrder,
};
use vstd::prelude::*;

verus! {

/// An index key: the concatenation of four whole terms, in the slot order of
/// the index it belongs to. Indices over triples pad the unused trailing
/// slots with the default-graph marker.
#[derive(Clone, Copy, PartialEq, Eq, Structural, Debug)]
pub struct IndexKey {
    pub t0: EncodedTerm,
    pub t1: EncodedTerm,
    pub t2: EncodedTerm,
    pub t3: EncodedTerm,
}

pub open spec fn key_slot(k: IndexKey, i: int) -> EncodedTerm {
    if i == 0 {
        k.t0
    } else if i == 1 {
        k.t1
    } else if i == 2 {
        k.t2
    } else {
        k.t3
    }
}

/// Strict total order on keys: lexicographic over the four term slots.
pub open spec fn key_lt(x: IndexKey, y: IndexKey) -> bool {
    term_lt(x.t0, y.t0) || (x.t0 == y.t0 && (term_lt(x.t1, y.t1) || (x.t1 == y.t1 && (term_lt(
        x.t2,
        y.t2,
    ) || (x.t2 == y.t2 && term_lt(x.t3, y.t3))))))
}

pub proof fn lemma_key_order_total(x: IndexKey, y: IndexKey)
    ensures
        key_lt(x, y) || key_lt(y, x) || x == y,
        !(key_lt(x, y) && key_lt(y, x)),
        !(key_lt(x, y) && x == y),
{
    lemma_term_order_total(x.t0, y.t0);
    lemma_term_order_total(x.t1, y.t1);
    lemma_term_order_total(x.t2, y.t2);
    lemma_term_order_total(x.t3, y.t3);
}

pub proof fn lemma_key_lt_trans(x: IndexKey, y: IndexKey, z: IndexKey)
    requires
        key_lt(x, y),
        key_lt(y, z),
    ensures
        key_lt(x, z),
{
    lemma_term_order_total(x.t0, y.t0);
    lemma_term_order_total(y.t0, z.t0);
    lemma_term_order_total(x.t1, y.t1);
    lemma_term_order_total(y.t1, z.t1);
    lemma_term_order_total(x.t2, y.t2);
    lemma_term_order_total(y.t2, z.t2);
    if term_lt(x.t0, y.t0) && term_lt(y.t0, z.t0) {
        lemma_term_lt_trans(x.t0, y.t0, z.t0);
    }
    if x.t0 == y.t0 && y.t0 == z.t0 {
        if term_lt(x.t1, y.t1) && term_lt(y.t1, z.t1) {
            lemma_term_lt_trans(x.t1, y.t1, z.t1);
        }
        if x.t1 == y.t1 && y.t1 == z.t1 {
            if term_lt(x.t2, y.t2) && term_lt(y.t2, z.t2) {
                lemma_term_lt_trans(x.t2, y.t2, z.t2);
            }
            if x.t2 == y.t2 && y.t2 == z.t2 {
                if term_lt(x.t3, y.t3) && term_lt(y.t3, z.t3) {
                    lemma_term_lt_trans(x.t3, y.t3, z.t3);
                }
            }
        }
    }
}

/// Compares two keys in the column order.
pub fn key_compare(x: &IndexKey, y: &IndexKey) -> (r: TermOrder)
    ensures
        r == TermOrder::Less <==> key_lt(*x, *y),
        r == TermOrder::Greater <==> key_lt(*y, *x),
        r == TermOrder::Equal <==> *x == *y,
{
    proof {
        lemma_key_order_total(*x, *y);
    }
    match term_compare(&x.t0, &y.t0) {
        TermOrder::Less => TermOrder::Less,
        TermOrder::Greater => TermOrder::Greater,
        TermOrder::Equal => match term_compare(&x.t1, &y.t1) {
            TermOrder::Less => TermOrder::Less,
            TermOrder::Greater => TermOrder::Greater,
            TermOrder::Equal => match term_compare(&x.t2, &y.t2) {
                TermOrder::Less => TermOrder::Less,
                TermOrder::Greater => TermOrder::Greater,
                TermOrder::Equal => term_compare(&x.t3, &y.t3),
            },
        },
    }
}

/// Strictly ascending in the key order; in particular, free of duplicates.
pub open spec fn sorted(s: Seq<IndexKey>) -> bool {
    forall|i: int, j: int| 0 <= i < j < s.len() ==> key_lt(#[trigger] s[i], #[trigger] s[j])
}

/// Whether the first `prefix.len()` slots of `k` equal `prefix`.
pub open spec fn key_matches_prefix(k: IndexKey, prefix: Seq<EncodedTerm>) -> bool {
    forall|i: int| 0 <= i < prefix.len() ==> key_slot(k, i) == #[trigger] prefix[i]
}

/// The subsequence of `s` whose keys begin with `prefix`.
pub open spec fn filtered_prefix(s: Seq<IndexKey>, prefix: Seq<EncodedTerm>) -> Seq<IndexKey>
    decreases s.len(),
{
    if s.len() == 0 {
        Seq::empty()
    } else {
        let rest = filtered_prefix(s.drop_last(), prefix);
        if key_matches_prefix(s.last(), prefix) {
            rest.push(s.last())
        } else {
            rest
        }
    }
}

/// One index column family: a strictly sorted vector of keys.
pub struct KeyVec {
    v: Vec<IndexKey>,
}

impl View for KeyVec {
    type V = Seq<IndexKey>;

    closed spec fn view(&self) -> Seq<IndexKey> {
        self.v@
    }
}

impl KeyVec {
    pub open spec fn wf(&self) -> bool {
        sorted(self@)
    }

    pub fn new() -> (r: Self)
        ensures
            r.wf(),
            r@ == Seq::<IndexKey>::empty(),
    {
        KeyVec { v: Vec::new() }
    }

    pub fn len(&self) -> (r: usize)
        ensures
            r == self@.len(),
    {
        self.v.len()
    }

    pub fn is_empty(&self) -> (r: bool)
        ensures
            r == (self@.len() == 0),
    {
        self.v.len() == 0
    }

    /// Point lookup of a whole key.
    pub fn contains_key(&self, k: &IndexKey) -> (r: bool)
        ensures
            r == self@.contains(*k),
    {
        let n = self.v.len();
        let mut i: usize = 0;
        while i < n
            invariant
                n == self@.len(),
                0 <= i <= n,
                forall|j: int| 0 <= j < i ==> self@[j] != *k,
            decreases n - i,
        {
            if key_compare(&self.v[i], k) == TermOrder::Equal {
                assert(self@[i as int] == *k);
                return true;
            }
            i = i + 1;
        }
        assert(forall|j: int| 0 <= j < self@.len() ==> self@[j] != *k);
        false
    }

    /// Inserts `k` at its sorted position; returns whether it was absent.
    pub fn insert(&mut self, k: IndexKey) -> (fresh: bool)
        requires
            old(self).wf(),
        ensures
            final(self).wf(),
            fresh == !old(self)@.contains(k),
            forall|x: IndexKey| final(self)@.contains(x) <==> old(self)@.contains(x) || x == k,
            final(self)@.to_set() == old(self)@.to_set().insert(k),
            final(self)@.len() == old(self)@.len() + if fresh {
                1int
            } else {
                0int
            },
            !fresh ==> final(self)@ == old(self)@,
    {
        let n = self.v.len();
        let mut i: usize = 0;
        while i < n && key_compare(&self.v[i], &k) == TermOrder::Less
            invariant
                *self == *old(self),
                self.wf(),
                n == self@.len(),
                0 <= i <= n,
                forall|j: int| 0 <= j < i ==> key_lt(#[trigger] self@[j], k),
            decreases n - i,
        {
            i = i + 1;
        }
        if i < n && key_compare(&self.v[i], &k) == TermOrder::Equal {
            assert(self@.contains(k)) by {
                assert(self@[i as int] == k);
            }
            proof {
                assert(self@.to_set() =~= self@.to_set().insert(k));
            }
            return false;
        }
        // Every key before position i is below k, and the key at i (if any)
        // is above k, so the insertion keeps the column sorted and k is new.
        proof {
            let s = self@;
            if i < n {
                lemma_key_order_total(s[i as int], k);
            }
            assert(i < n ==> key_lt(k, s[i as int]));
            assert forall|j: int| 0 <= j < s.len() && j >= i implies key_lt(k, s[j]) by {
                if j > i {
                    assert(key_lt(s[i as int], s[j]));
                    lemma_key_lt_trans(k, s[i as int], s[j]);
                }
            }
            assert forall|j: int| 0 <= j < s.len() implies s[j] != k by {
                if j < i {
                    lemma_key_order_total(s[j], k);
                } else {
                    lemma_key_order_total(k, s[j]);
                }
            }
            assert(!s.contains(k));
        }
        self.v.insert(i, k);
        proof {
            let olds = old(self)@;
            let news = self@;
            assert forall|p: int, q: int| 0 <= p < q < news.len() implies key_lt(
                news[p],
                news[q],
            ) by {
                if p < i && q < i {
                    assert(news[p] == olds[p] && news[q] == olds[q]);
                } else if p < i && q == i {
                    assert(news[p] == olds[p] && news[q] == k);
                } else if p < i && q > i {
                    assert(news[p] == olds[p] && news[q] == olds[q - 1]);
                } else if p == i {
                    assert(news[p] == k && news[q] == olds[q - 1]);
                } else {
                    assert(news[p] == olds[p - 1] && news[q] == olds[q - 1]);
                }
            }
            assert forall|x: IndexKey| news.contains(x) <==> olds.contains(x) || x == k by {
                if news.contains(x) {
                    let w = choose|w: int| 0 <= w < news.len() && news[w] == x;
                    if w < i {
                        assert(olds[w] == x);
                        assert(olds.contains(x));
                    } else if w == i {
                    } else {
                        assert(olds[w - 1] == x);
                        assert(olds.contains(x));
                    }
                }
                if olds.contains(x) {
                    let w = choose|w: int| 0 <= w < olds.len() && olds[w] == x;
                    if w < i {
                        assert(news[w] == x);
                    } else {
                        assert(news[w + 1] == x);
                    }
                    assert(news.contains(x));
                }
                if x == k {
                    assert(news[i as int] == x);
                    assert(news.contains(x));
                }
            }
            assert(news.to_set() =~= olds.to_set().insert(k));
        }
        true
    }

    /// Removes `k` if present; returns whether it was present.
    pub fn remove(&mut self, k: &IndexKey) -> (removed: bool)
        requires
            old(self).wf(),
        ensures
            final(self).wf(),
            removed == old(self)@.contains(*k),
            forall|x: IndexKey| final(self)@.contains(x) <==> old(self)@.contains(x) && x != *k,
            final(self)@.to_set() == old(self)@.to_set().remove(*k),
            final(self)@.len() == old(self)@.len() - if removed {
                1int
            } else {
                0int
            },
            !removed ==> final(self)@ == old(self)@,
    {
        let n = self.v.len();
        let mut i: usize = 0;
        while i < n
            invariant
                *self == *old(self),
                self.wf(),
                n == self@.len(),
                0 <= i <= n,
                forall|j: int| 0 <= j < i ==> self@[j] != *k,
            decreases n - i,
        {
            if key_compare(&self.v[i], k) == TermOrder::Equal {
                assert(self@[i as int] == *k);
                proof {
                    // The column is strictly sorted, so k occurs only at i.
                    assert forall|j: int| 0 <= j < self@.len() && j != i implies self@[j]
                        != *k by {
                        if j < i {
                        } else {
                            assert(key_lt(self@[i as int], self@[j]));
                            lemma_key_order_total(self@[i as int], self@[j]);
                        }
                    }
                }
                self.v.remove(i);
                proof {
                    let olds = old(self)@;
                    let news = self@;
                    assert forall|p: int, q: int| 0 <= p < q < news.len() implies key_lt(
                        news[p],
                        news[q],
                    ) by {
                        if q < i {
                        } else if p < i {
                            assert(news[p] == olds[p] && news[q] == olds[q + 1]);
                        } else {
                            assert(news[p] == olds[p + 1] && news[q] == olds[q + 1]);
                        }
                    }
                    assert forall|x: IndexKey| news.contains(x) <==> olds.contains(x) && x
                        != *k by {
                        if news.contains(x) {
                            let w = choose|w: int| 0 <= w < news.len() && news[w] == x;
                            if w < i {
                                assert(olds[w] == x);
                            } else {
                                assert(olds[w + 1] == x);
                            }
                            assert(olds.contains(x));
                        }
                        if olds.contains(x) && x != *k {
                            let w = choose|w: int| 0 <= w < olds.len() && olds[w] == x;
                            if w < i {
                                assert(news[w] == x);
                            } else {
                                assert(w != i);
                                assert(news[w - 1] == x);
                            }
                            assert(news.contains(x));
                        }
                    }
                    assert(news.to_set() =~= olds.to_set().remove(*k));
                    assert(olds.contains(*k));
                }
                return true;
            }
            i = i + 1;
        }
        assert(forall|j: int| 0 <= j < self@.len() ==> self@[j] != *k);
        proof {
            assert(self@.to_set() =~= self@.to_set().remove(*k));
        }
        false
    }

    /// A copy holding the same keys.
    pub fn duplicate(&self) -> (r: Self)
        ensures
            r@ == self@,
    {
        let n = self.v.len();
        let mut v: Vec<IndexKey> = Vec::new();
        let mut i: usize = 0;
        while i < n
            invariant
                n == self.v@.len(),
                0 <= i <= n,
                v@ == self.v@.take(i as int),
            decreases n - i,
        {
            v.push(self.v[i]);
            proof {
                assert(self.v@.take(i + 1) =~= self.v@.take(i as int).push(self.v@[i as int]));
            }
            i = i + 1;
        }
        proof {
            assert(self.v@.take(n as int) =~= self.v@);
        }
        KeyVec { v }
    }

    /// All keys whose leading whole-term slots equal `prefix`, in key order.
    pub fn scan_prefix(&self, prefix: &Vec<EncodedTerm>) -> (r: Vec<IndexKey>)
        requires
            self.wf(),
            prefix@.len() <= 4,
        ensures
            r@ == filtered_prefix(self@, prefix@),
            sorted(r@),
            forall|x: IndexKey|
                r@.contains(x) <==> self@.contains(x) && key_matches_prefix(x, prefix@),
    {
        let n = self.v.len();
        let mut r: Vec<IndexKey> = Vec::new();
        let mut i: usize = 0;
        proof {
            assert(self@.take(0) =~= Seq::<IndexKey>::empty());
        }
        while i < n
            invariant
                n == self@.len(),
                0 <= i <= n,
                prefix@.len() <= 4,
                r@ == filtered_prefix(self@.take(i as int), prefix@),
            decreases n - i,
        {
            let cur = self.v[i];
            let matched = key_has_prefix(&cur, prefix);
            proof {
                let s = self@;
                assert(s.take(i + 1).drop_last() =~= s.take(i as int));
                assert(s.take(i + 1).last() == s[i as int]);
            }
            if matched {
                r.push(cur);
            }
            i = i + 1;
        }
        proof {
            assert(self@.take(n as int) =~= self@);
            lemma_filtered_prefix_of_sorted(self@, prefix@);
        }
        r
    }
}

/// Checks the leading slots of `k` against `prefix`.
pub fn key_has_prefix(k: &IndexKey, prefix: &Vec<EncodedTerm>) -> (r: bool)
    requires
        prefix@.len() <= 4,
    ensures
        r == key_matches_prefix(*k, prefix@),
{
    let n = prefix.len();
    let mut i: usize = 0;
    while i < n
        invariant
            n == prefix@.len() <= 4,
            0 <= i <= n,
            forall|j: int| 0 <= j < i ==> key_slot(*k, j) == #[trigger] prefix@[j],
        decreases n - i,
    {
        let slot = if i == 0 {
            &k.t0
        } else if i == 1 {
            &k.t1
        } else if i == 2 {
            &k.t2
        } else {
            &k.t3
        };
        if !(term_compare(slot, &prefix[i]) == TermOrder::Equal) {
            assert(key_slot(*k, i as int) != prefix@[i as int]);
            return false;
        }
        assert(key_slot(*k, i as int) == prefix@[i as int]);
        i = i + 1;
    }
    true
}

/// A prefix filter of a strictly sorted sequence is strictly sorted, and its
/// members are exactly the members that match the prefix.
pub proof fn lemma_filtered_prefix_of_sorted(s: Seq<IndexKey>, prefix: Seq<EncodedTerm>)
    requires
        sorted(s),
    ensures
        sorted(filtered_prefix(s, prefix)),
        forall|x: IndexKey|
            filtered_prefix(s, prefix).contains(x) <==> s.contains(x) && key_matches_prefix(
                x,
                prefix,
            ),
    decreases s.len(),
{
    let f = filtered_prefix(s, prefix);
    if s.len() == 0 {
        assert forall|x: IndexKey|
            f.contains(x) <==> s.contains(x) && key_matches_prefix(x, prefix) by {
            if s.contains(x) {
                let w = choose|w: int| 0 <= w < s.len() && s[w] == x;
            }
        }
    } else {
        let butlast = s.drop_last();
        assert(sorted(butlast)) by {
            assert(forall|i: int| 0 <= i < butlast.len() ==> butlast[i] == s[i]);
        }
        lemma_filtered_prefix_of_sorted(butlast, prefix);
        let fb = filtered_prefix(butlast, prefix);
        // Every filtered member of the front part is below the last element.
        assert forall|x: IndexKey| fb.contains(x) implies key_lt(x, s.last()) by {
            assert(butlast.contains(x));
            let w = choose|w: int| 0 <= w < butlast.len() && butlast[w] == x;
            assert(s[w] == x);
            assert(key_lt(s[w], s[s.len() - 1]));
        }
        assert forall|x: IndexKey| butlast.contains(x) implies s.contains(x) by {
            let w = choose|w: int| 0 <= w < butlast.len() && butlast[w] == x;
            assert(s[w] == x);
        }
        if key_matches_prefix(s.last(), prefix) {
            assert(f == fb.push(s.last()));
            assert forall|i: int, j: int| 0 <= i < j < f.len() implies key_lt(f[i], f[j]) by {
                if j < f.len() - 1 {
                    assert(f[i] == fb[i] && f[j] == fb[j]);
                } else {
                    assert(f[j] == s.last());
                    assert(f[i] == fb[i]);
                    assert(fb.contains(fb[i]));
                }
            }
            assert forall|x: IndexKey|
                f.contains(x) <==> s.contains(x) && key_matches_prefix(x, prefix) by {
                if f.contains(x) {
                    let w = choose|w: int| 0 <= w < f.len() && f[w] == x;
                    if w < f.len() - 1 {
                        assert(fb[w] == x);
                        assert(fb.contains(x));
                    } else {
                        assert(x == s.last());
                        assert(s[s.len() - 1] == x);
                        assert(s.contains(x));
                    }
                }
                if s.contains(x) && key_matches_prefix(x, prefix) {
                    let w = choose|w: int| 0 <= w < s.len() && s[w] == x;
                    if w < s.len() - 1 {
                        assert(butlast[w] == x);
                        assert(butlast.contains(x));
                        assert(fb.contains(x));
                        let u = choose|u: int| 0 <= u < fb.len() && fb[u] == x;
                        assert(f[u] == x);
                        assert(f.contains(x));
                    } else {
                        assert(x == s.last());
                        assert(f[f.len() - 1] == x);
                        assert(f.contains(x));
                    }
                }
            }
        } else {
            assert(f == fb);
            assert forall|x: IndexKey|
                f.contains(x) <==> s.contains(x) && key_matches_prefix(x, prefix) by {
                if s.contains(x) && key_matches_prefix(x, prefix) {
                    let w = choose|w: int| 0 <= w < s.len() && s[w] == x;
                    if w < s.len() - 1 {
                        assert(butlast[w] == x);
                        assert(butlast.contains(x));
                    } else {
                        assert(x == s.last());
                        assert(false);
                    }
                }
            }
        }
    }
}

/// A strictly sorted sequence has no duplicates, so its length equals the
/// cardinality of its member set.
pub proof fn lemma_sorted_len_is_set_len(s: Seq<IndexKey>)
    requires
        sorted(s),
    ensures
        s.no_duplicates(),
        s.to_set().len() == s.len(),
        s.to_set().finite(),
{
    assert forall|i: int, j: int| 0 <= i < s.len() && 0 <= j < s.len() && i != j implies s[i]
        != s[j] by {
        if i < j {
            lemma_key_order_total(s[i], s[j]);
        } else {
            lemma_key_order_total(s[j], s[i]);
        }
    }
    s.unique_seq_to_set();
}

} // verus!
