//! The `id2str` side table: an append-only log of (hash, lexical form)
//! pairs, read as a map in which a later entry for a hash wins. The column
//! needs no iteration and no key order, so the log is not sorted.

use crate::encoded::StrHash;
use vstd::prelude::*;

verus! {

/// One side-table row.
pub struct StrEntry {
    pub hash: StrHash,
    pub value: String,
}

/// The map denoted by a log of rows: later rows overwrite earlier ones.
pub open spec fn map_of(s: Seq<StrEntry>) -> Map<u128, Seq<char>>
    decreases s.len(),
{
    if s.len() == 0 {
        Map::empty()
    } else {
        map_of(s.drop_last()).insert(s.last().hash.value, s.last().value@)
    }
}

/// Rows at positions `i` and beyond never mention `h`, so the whole log and
/// its first `i` rows agree about `h`.
pub proof fn lemma_map_of_no_key_after(s: Seq<StrEntry>, h: u128, i: int)
    requires
        0 <= i <= s.len(),
        forall|j: int| i <= j < s.len() ==> (#[trigger] s[j]).hash.value != h,
    ensures
        map_of(s).contains_key(h) == map_of(s.take(i)).contains_key(h),
        map_of(s).contains_key(h) ==> map_of(s)[h] == map_of(s.take(i))[h],
    decreases s.len() - i,
{
    if i == s.len() {
        assert(s.take(i) =~= s);
    } else {
        let butlast = s.drop_last();
        assert(s[s.len() - 1].hash.value != h);
        lemma_map_of_no_key_after(butlast, h, i);
        assert(butlast.take(i) =~= s.take(i));
    }
}

/// A string side table.
pub struct StrMap {
    entries: Vec<StrEntry>,
}

impl View for StrMap {
    type V = Map<u128, Seq<char>>;

    closed spec fn view(&self) -> Map<u128, Seq<char>> {
        map_of(self.entries@)
    }
}

impl StrMap {
    pub fn new() -> (r: Self)
        ensures
            r@ == Map::<u128, Seq<char>>::empty(),
    {
        StrMap { entries: Vec::new() }
    }

    /// Binds `value` to `hash`, overwriting any earlier binding.
    pub fn insert(&mut self, hash: StrHash, value: &str)
        ensures
            final(self)@ == old(self)@.insert(hash.value, value@),
    {
        let entry = StrEntry { hash, value: value.to_owned() };
        self.entries.push(entry);
        proof {
            let olds = old(self).entries@;
            let news = self.entries@;
            assert(news.drop_last() =~= olds);
        }
    }

    /// Looks a hash up; the latest binding wins.
    pub fn get(&self, hash: &StrHash) -> (r: Option<String>)
        ensures
            r is Some <==> self@.contains_key(hash.value),
            r is Some ==> r->Some_0@ == self@[hash.value],
    {
        let h = hash.value;
        let mut i: usize = self.entries.len();
        while i > 0
            invariant
                h == hash.value,
                0 <= i <= self.entries@.len(),
                forall|j: int|
                    i <= j < self.entries@.len() ==> (#[trigger] self.entries@[j]).hash.value != h,
            decreases i,
        {
            i = i - 1;
            if self.entries[i].hash.value == h {
                proof {
                    let s = self.entries@;
                    lemma_map_of_no_key_after(s, h, i + 1);
                    assert(s.take(i + 1).drop_last() =~= s.take(i as int));
                    assert(s.take(i + 1).last() == s[i as int]);
                }
                return Some(self.entries[i].value.clone());
            }
        }
        proof {
            let s = self.entries@;
            lemma_map_of_no_key_after(s, h, 0);
            assert(s.take(0) =~= Seq::<StrEntry>::empty());
        }
        None
    }

    /// Whether a binding for `hash` exists.
    pub fn contains(&self, hash: &StrHash) -> (r: bool)
        ensures
            r == self@.contains_key(hash.value),
    {
        let h = hash.value;
        let mut i: usize = self.entries.len();
        while i > 0
            invariant
                h == hash.value,
                0 <= i <= self.entries@.len(),
                forall|j: int|
                    i <= j < self.entries@.len() ==> (#[trigger] self.entries@[j]).hash.value != h,
            decreases i,
        {
            i = i - 1;
            if self.entries[i].hash.value == h {
                proof {
                    let s = self.entries@;
                    lemma_map_of_no_key_after(s, h, i + 1);
                    assert(s.take(i + 1).drop_last() =~= s.take(i as int));
                    assert(s.take(i + 1).last() == s[i as int]);
                }
                return true;
            }
        }
        proof {
            let s = self.entries@;
            lemma_map_of_no_key_after(s, h, 0);
            assert(s.take(0) =~= Seq::<StrEntry>::empty());
        }
        false
    }

    /// A deep copy denoting the same map.
    pub fn duplicate(&self) -> (r: Self)
        ensures
            r@ == self@,
    {
        let n = self.entries.len();
        let mut v: Vec<StrEntry> = Vec::new();
        let mut i: usize = 0;
        while i < n
            invariant
                n == self.entries@.len(),
                0 <= i <= n,
                v@.len() == i,
                forall|j: int|
                    0 <= j < i ==> (#[trigger] v@[j]).hash == self.entries@[j].hash && v@[j].value@
                        == self.entries@[j].value@,
            decreases n - i,
        {
            let e = StrEntry { hash: self.entries[i].hash, value: self.entries[i].value.clone() };
            v.push(e);
            i = i + 1;
        }
        let r = StrMap { entries: v };
        proof {
            lemma_map_of_congruent(r.entries@, self.entries@);
        }
        r
    }
}

/// Two logs with the same hashes and the same lexical forms row by row
/// denote the same map.
pub proof fn lemma_map_of_congruent(s1: Seq<StrEntry>, s2: Seq<StrEntry>)
    requires
        s1.len() == s2.len(),
        forall|j: int|
            0 <= j < s1.len() ==> (#[trigger] s1[j]).hash == s2[j].hash && s1[j].value@
                == s2[j].value@,
    ensures
        map_of(s1) == map_of(s2),
    decreases s1.len(),
{
    if s1.len() == 0 {
        assert(map_of(s1) =~= map_of(s2));
    } else {
        let b1 = s1.drop_last();
        let b2 = s2.drop_last();
        assert(forall|j: int|
            0 <= j < b1.len() ==> (#[trigger] b1[j]).hash == b2[j].hash && b1[j].value@
                == b2[j].value@);
        lemma_map_of_congruent(b1, b2);
        assert(s1[s1.len() - 1].hash == s2[s2.len() - 1].hash);
        assert(s1[s1.len() - 1].value@ == s2[s2.len() - 1].value@);
        assert(map_of(s1) =~= map_of(s2));
    }
}

} // verus!
