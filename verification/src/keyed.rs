//! A small map from strings to values, kept as a vector of entries in which
//! no key occurs twice.

use crate::text::str_eq;
use vstd::prelude::*;

verus! {

/// The entries as a map: a later entry for a key wins.
pub open spec fn pairs_map<V>(s: Seq<(String, V)>) -> Map<Seq<char>, V>
    decreases s.len(),
{
    if s.len() == 0 {
        Map::empty()
    } else {
        pairs_map(s.drop_last()).insert(s.last().0@, s.last().1)
    }
}

/// The entries whose key is not `k`.
pub open spec fn pairs_without<V>(s: Seq<(String, V)>, k: Seq<char>) -> Seq<(String, V)>
    decreases s.len(),
{
    if s.len() == 0 {
        s
    } else if s.last().0@ == k {
        pairs_without(s.drop_last(), k)
    } else {
        pairs_without(s.drop_last(), k).push(s.last())
    }
}

/// No key occurs twice.
pub open spec fn unique_keys<V>(s: Seq<(String, V)>) -> bool {
    forall|i: int, j: int| 0 <= i < j < s.len() ==> (#[trigger] s[i]).0@ != (#[trigger] s[j]).0@
}

/// Whether a key is other than `k`.
pub open spec fn other_than(k: Seq<char>) -> spec_fn(Seq<char>) -> bool {
    |x: Seq<char>| x != k
}

/// The keys of the entries, in order.
pub open spec fn keys_of<V>(s: Seq<(String, V)>) -> Seq<Seq<char>> {
    Seq::new(s.len(), |i: int| s[i].0@)
}

/// With unique keys, an entry gives the map's value for its key, and a key
/// that is no entry's is not in the map.
pub proof fn lemma_pairs_map<V>(s: Seq<(String, V)>)
    requires
        unique_keys(s),
    ensures
        forall|i: int| 0 <= i < s.len() ==> pairs_map(s).contains_key(#[trigger] s[i].0@) && pairs_map(s)[s[i].0@] == s[i].1,
        forall|k: Seq<char>| #[trigger] pairs_map(s).contains_key(k) ==> exists|i: int| 0 <= i < s.len() && s[i].0@ == k,
    decreases s.len(),
{
    if s.len() > 0 {
        let d = s.drop_last();
        assert(unique_keys(d)) by {
            assert forall|i: int, j: int| 0 <= i < j < d.len() implies (#[trigger] d[i]).0@ != (#[trigger] d[j]).0@ by {
                assert(d[i] == s[i] && d[j] == s[j]);
            }
        }
        lemma_pairs_map(d);
        assert forall|i: int| 0 <= i < s.len() implies pairs_map(s).contains_key(#[trigger] s[i].0@) && pairs_map(s)[s[i].0@] == s[i].1 by {
            if i < s.len() - 1 {
                assert(d[i] == s[i]);
                assert(s[i].0@ != s[s.len() - 1].0@);
            }
        }
        assert forall|k: Seq<char>| #[trigger] pairs_map(s).contains_key(k) implies exists|i: int| 0 <= i < s.len() && s[i].0@ == k by {
            if k != s.last().0@ {
                assert(pairs_map(d).contains_key(k));
                let i = choose|i: int| 0 <= i < d.len() && d[i].0@ == k;
                assert(s[i] == d[i]);
            } else {
                assert(s[s.len() - 1].0@ == k);
            }
        }
    }
}

proof fn lemma_without<V>(s: Seq<(String, V)>, k: Seq<char>)
    ensures
        pairs_map(pairs_without(s, k)) == pairs_map(s).remove(k),
    decreases s.len(),
{
    if s.len() > 0 {
        let d = s.drop_last();
        lemma_without(d, k);
        let w = pairs_without(d, k);
        if s.last().0@ == k {
            assert(pairs_map(s).remove(k) =~= pairs_map(d).remove(k));
        } else {
            assert(w.push(s.last()).drop_last() =~= w);
            assert(pairs_map(s).remove(k) =~= pairs_map(d).remove(k).insert(s.last().0@, s.last().1));
        }
    }
}

/// Strings mapped to values, each key once.
#[derive(Debug)]
pub struct KeyedMap<V> {
    entries: Vec<(String, V)>,
}

impl<V> KeyedMap<V> {
    /// The map.
    pub closed spec fn view(&self) -> Map<Seq<char>, V> {
        pairs_map(self.entries@)
    }

    /// The keys, in the order they are kept; each key of the map once.
    pub closed spec fn keys(&self) -> Seq<Seq<char>> {
        keys_of(self.entries@)
    }

    /// The well-formedness of the map: no key is kept twice.
    pub closed spec fn wf(&self) -> bool {
        unique_keys(self.entries@)
    }

    /// The keys are those of the map, each once.
    pub proof fn lemma_keys(&self)
        requires
            self.wf(),
        ensures
            self.keys().no_duplicates(),
            forall|k: Seq<char>| self.view().contains_key(k) <==> self.keys().contains(k),
    {
        lemma_pairs_map(self.entries@);
        let s = self.entries@;
        assert forall|k: Seq<char>| self.view().contains_key(k) <==> self.keys().contains(k) by {
            if self.view().contains_key(k) {
                let i = choose|i: int| 0 <= i < s.len() && s[i].0@ == k;
                assert(self.keys()[i] == k);
            }
            if self.keys().contains(k) {
                let i = choose|i: int| 0 <= i < self.keys().len() && self.keys()[i] == k;
                assert(s[i].0@ == k);
            }
        }
        assert forall|i: int, j: int| 0 <= i < self.keys().len() && 0 <= j < self.keys().len() && i != j implies self.keys()[i] != self.keys()[j] by {
            if i < j {
                assert(s[i].0@ != s[j].0@);
            } else {
                assert(s[j].0@ != s[i].0@);
            }
        }
    }

    /// An empty map.
    pub fn new() -> (r: KeyedMap<V>)
        ensures
            r.wf(),
            r.view() == Map::<Seq<char>, V>::empty(),
            r.keys() == Seq::<Seq<char>>::empty(),
    {
        let r = KeyedMap { entries: Vec::new() };
        assert(r.keys() =~= Seq::<Seq<char>>::empty());
        r
    }

    /// The number of keys.
    pub fn len(&self) -> (r: usize)
        ensures
            r == self.keys().len(),
    {
        self.entries.len()
    }

    /// The key at position `i` of the kept order.
    pub fn key_at(&self, i: usize) -> (r: &String)
        requires
            i < self.keys().len(),
        ensures
            r@ == self.keys()[i as int],
    {
        &self.entries[i].0
    }

    fn find(&self, key: &str) -> (r: Option<usize>)
        requires
            self.wf(),
        ensures
            match r {
                Some(i) => i < self.entries@.len() && self.entries@[i as int].0@ == key@,
                None => !self.view().contains_key(key@),
            },
    {
        proof {
            lemma_pairs_map(self.entries@);
        }
        let mut i: usize = 0;
        while i < self.entries.len()
            invariant
                i <= self.entries@.len(),
                forall|j: int| 0 <= j < i ==> self.entries@[j].0@ != key@,
            decreases self.entries.len() - i,
        {
            if str_eq(self.entries[i].0.as_str(), key) {
                return Some(i);
            }
            i += 1;
        }
        None
    }

    /// The value of `key`, if it has one.
    pub fn get(&self, key: &str) -> (r: Option<&V>)
        requires
            self.wf(),
        ensures
            r is Some <==> self.view().contains_key(key@),
            r matches Some(v) ==> *v == self.view()[key@],
    {
        proof {
            lemma_pairs_map(self.entries@);
        }
        match self.find(key) {
            Some(i) => Some(&self.entries[i].1),
            None => None,
        }
    }

    /// Takes the value of `key` out of the map, if it has one.
    pub fn remove(&mut self, key: &str) -> (r: Option<V>)
        requires
            old(self).wf(),
        ensures
            final(self).wf(),
            final(self).view() == old(self).view().remove(key@),
            r is Some <==> old(self).view().contains_key(key@),
            r matches Some(v) ==> v == old(self).view()[key@],
            final(self).keys() == old(self).keys().filter(other_than(key@)),
    {
        proof {
            lemma_pairs_map(self.entries@);
        }
        match self.find(key) {
            None => {
                proof {
                    assert(self.view().remove(key@) =~= self.view());
                    assert forall|i: int| 0 <= i < self.keys().len() implies self.keys()[i] != key@ by {
                        assert(self.view().contains_key(self.entries@[i].0@));
                    }
                    lemma_filter_none(self.keys(), key@);
                }
                None
            },
            Some(i) => {
                let ghost s = self.entries@;
                let e = self.entries.remove(i);
                proof {
                    lemma_remove_unique(s, i as int);
                }
                Some(e.1)
            },
        }
    }

    /// Sets the value of `key`.
    pub fn insert(&mut self, key: String, value: V)
        requires
            old(self).wf(),
        ensures
            final(self).wf(),
            final(self).view() == old(self).view().insert(key@, value),
            final(self).keys() == old(self).keys().filter(other_than(key@)).push(key@),
    {
        let _ = self.remove(key.as_str());
        let ghost s = self.entries@;
        proof {
            lemma_pairs_map(s);
        }
        self.entries.push((key, value));
        proof {
            let t = self.entries@;
            assert(t.drop_last() =~= s);
            assert forall|i: int, j: int| 0 <= i < j < t.len() implies (#[trigger] t[i]).0@ != (#[trigger] t[j]).0@ by {
                if j == t.len() - 1 {
                    assert(t[i] == s[i]);
                    assert(pairs_map(s).contains_key(s[i].0@));
                } else {
                    assert(t[i] == s[i] && t[j] == s[j]);
                }
            }
            assert(keys_of(t) =~= keys_of(s).push(key@));
        }
    }
}

proof fn lemma_filter_none(s: Seq<Seq<char>>, k: Seq<char>)
    requires
        forall|i: int| 0 <= i < s.len() ==> s[i] != k,
    ensures
        s.filter(other_than(k)) == s,
    decreases s.len(),
{
    if s.len() > 0 {
        lemma_filter_none(s.drop_last(), k);
        assert(s.drop_last().push(s.last()) =~= s);
        assert(s.filter(other_than(k)) =~= s.drop_last().filter(other_than(k)).push(s.last())) by {
            reveal(Seq::filter);
        }
    }
}

proof fn lemma_remove_unique<V>(s: Seq<(String, V)>, i: int)
    requires
        unique_keys(s),
        0 <= i < s.len(),
    ensures
        unique_keys(s.remove(i)),
        pairs_map(s.remove(i)) == pairs_map(s).remove(s[i].0@),
        keys_of(s.remove(i)) == keys_of(s).filter(other_than(s[i].0@)),
    decreases s.len(),
{
    let k = s[i].0@;
    let r = s.remove(i);
    assert forall|a: int, b: int| 0 <= a < b < r.len() implies (#[trigger] r[a]).0@ != (#[trigger] r[b]).0@ by {
        let a2 = if a < i { a } else { a + 1 };
        let b2 = if b < i { b } else { b + 1 };
        assert(r[a] == s[a2] && r[b] == s[b2]);
    }
    // r is s without its entries for k
    lemma_without_unique(s, i);
    lemma_without(s, k);
    lemma_keys_without(s, k);
}

proof fn lemma_without_unique<V>(s: Seq<(String, V)>, i: int)
    requires
        unique_keys(s),
        0 <= i < s.len(),
    ensures
        pairs_without(s, s[i].0@) == s.remove(i),
    decreases s.len(),
{
    let k = s[i].0@;
    let d = s.drop_last();
    if i == s.len() - 1 {
        assert forall|j: int| 0 <= j < d.len() implies d[j].0@ != k by {
            assert(d[j] == s[j]);
        }
        lemma_without_absent(d, k);
        assert(s.remove(i) =~= d);
    } else {
        assert(unique_keys(d)) by {
            assert forall|a: int, b: int| 0 <= a < b < d.len() implies (#[trigger] d[a]).0@ != (#[trigger] d[b]).0@ by {
                assert(d[a] == s[a] && d[b] == s[b]);
            }
        }
        assert(d[i] == s[i]);
        lemma_without_unique(d, i);
        assert(s.last().0@ != k);
        assert(s.remove(i) =~= d.remove(i).push(s.last()));
    }
}

proof fn lemma_without_absent<V>(s: Seq<(String, V)>, k: Seq<char>)
    requires
        forall|j: int| 0 <= j < s.len() ==> s[j].0@ != k,
    ensures
        pairs_without(s, k) == s,
    decreases s.len(),
{
    if s.len() > 0 {
        let d = s.drop_last();
        assert forall|j: int| 0 <= j < d.len() implies d[j].0@ != k by {
            assert(d[j] == s[j]);
        }
        lemma_without_absent(d, k);
        assert(d.push(s.last()) =~= s);
    }
}

proof fn lemma_keys_without<V>(s: Seq<(String, V)>, k: Seq<char>)
    ensures
        keys_of(pairs_without(s, k)) == keys_of(s).filter(other_than(k)),
    decreases s.len(),
{
    reveal(Seq::filter);
    if s.len() > 0 {
        let d = s.drop_last();
        lemma_keys_without(d, k);
        assert(keys_of(s).drop_last() =~= keys_of(d));
        assert(keys_of(s).last() == s.last().0@);
        if s.last().0@ != k {
            let w = pairs_without(d, k);
            assert(keys_of(w.push(s.last())) =~= keys_of(w).push(s.last().0@));
        }
    }
}

} // verus!
