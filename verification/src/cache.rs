//! A cache of values computed from files, each kept with the timestamp of
//! the file it was computed from.

use crate::text::str_eq;
use vstd::prelude::*;

verus! {

/// The cache as a map: a later entry for a path wins.
pub open spec fn cache_map<T>(s: Seq<(String, u64, T)>) -> Map<Seq<char>, (u64, T)>
    decreases s.len(),
{
    if s.len() == 0 {
        Map::empty()
    } else {
        cache_map(s.drop_last()).insert(s.last().0@, (s.last().1, s.last().2))
    }
}

/// The index of the last entry for path `k`.
pub open spec fn last_entry<T>(s: Seq<(String, u64, T)>, k: Seq<char>) -> Option<int>
    decreases s.len(),
{
    if s.len() == 0 {
        None
    } else if s.last().0@ == k {
        Some(s.len() - 1)
    } else {
        last_entry(s.drop_last(), k)
    }
}

proof fn lemma_last_entry<T>(s: Seq<(String, u64, T)>, k: Seq<char>)
    ensures
        last_entry(s, k) matches Some(i) ==> 0 <= i < s.len() && s[i].0@ == k && cache_map(s).contains_key(k)
            && cache_map(s)[k] == (s[i].1, s[i].2) && forall|j: int| i < j < s.len() ==> s[j].0@ != k,
        last_entry(s, k) is None ==> !cache_map(s).contains_key(k) && forall|j: int| 0 <= j < s.len() ==> s[j].0@ != k,
    decreases s.len(),
{
    if s.len() > 0 {
        lemma_last_entry(s.drop_last(), k);
        if s.last().0@ != k {
            assert forall|j: int| 0 <= j < s.len() - 1 implies s[j] == s.drop_last()[j] by {}
        }
    }
}

proof fn lemma_update_entry<T>(s: Seq<(String, u64, T)>, i: int, e: (String, u64, T))
    requires
        0 <= i < s.len(),
        e.0@ == s[i].0@,
        forall|j: int| i < j < s.len() ==> s[j].0@ != e.0@,
    ensures
        cache_map(s.update(i, e)) == cache_map(s).insert(e.0@, (e.1, e.2)),
    decreases s.len(),
{
    let u = s.update(i, e);
    if i == s.len() - 1 {
        assert(u.drop_last() =~= s.drop_last());
        assert(cache_map(s).insert(e.0@, (e.1, e.2)) =~= cache_map(s.drop_last()).insert(e.0@, (e.1, e.2)));
    } else {
        lemma_update_entry(s.drop_last(), i, e);
        assert(u.drop_last() =~= s.drop_last().update(i, e));
        assert(cache_map(u) =~= cache_map(s).insert(e.0@, (e.1, e.2)));
    }
}

/// A cache of values by file path and timestamp.
pub struct FileCacher<T> {
    cache: Vec<(String, u64, T)>,
}

impl<T> FileCacher<T> {
    /// The cache: each path mapped to its timestamp and value.
    pub closed spec fn view(&self) -> Map<Seq<char>, (u64, T)> {
        cache_map(self.cache@)
    }

    /// An empty cache.
    pub fn new() -> (r: FileCacher<T>)
        ensures
            r.view() == Map::<Seq<char>, (u64, T)>::empty(),
    {
        FileCacher { cache: Vec::new() }
    }

    fn find(&self, path: &str) -> (r: Option<usize>)
        ensures
            match r {
                Some(i) => last_entry(self.cache@, path@) == Some(i as int),
                None => last_entry(self.cache@, path@) is None,
            },
    {
        let mut i = self.cache.len();
        assert(self.cache@.subrange(0, i as int) =~= self.cache@);
        while i > 0
            invariant
                i <= self.cache@.len(),
                last_entry(self.cache@, path@) == last_entry(self.cache@.subrange(0, i as int), path@),
            decreases i,
        {
            let ghost sub = self.cache@.subrange(0, i as int);
            assert(sub.drop_last() =~= self.cache@.subrange(0, i - 1));
            if str_eq(self.cache[i - 1].0.as_str(), path) {
                return Some(i - 1);
            }
            i -= 1;
        }
        None
    }

    /// The value cached for `path`, if it was computed at `timestamp`.
    pub fn get(&self, path: &str, timestamp: u64) -> (r: Option<&T>)
        ensures
            r is Some <==> (self.view().contains_key(path@) && self.view()[path@].0 == timestamp),
            r matches Some(v) ==> *v == self.view()[path@].1,
    {
        proof {
            assert(self.cache@.subrange(0, self.cache@.len() as int) =~= self.cache@);
            lemma_last_entry(self.cache@, path@);
        }
        match self.find(path) {
            Some(i) => {
                if self.cache[i].1 == timestamp {
                    Some(&self.cache[i].2)
                } else {
                    None
                }
            },
            None => None,
        }
    }

    /// Caches `value` for `path` at `timestamp`, giving back the value
    /// cached for it before.
    pub fn insert(&mut self, path: String, timestamp: u64, value: T) -> (r: Option<T>)
        ensures
            final(self).view() == old(self).view().insert(path@, (timestamp, value)),
            r is Some <==> old(self).view().contains_key(path@),
            r matches Some(v) ==> v == old(self).view()[path@].1,
    {
        proof {
            assert(self.cache@.subrange(0, self.cache@.len() as int) =~= self.cache@);
            lemma_last_entry(self.cache@, path@);
        }
        let ghost s = self.cache@;
        let ghost e = (path, timestamp, value);
        match self.find(path.as_str()) {
            Some(i) => {
                let old_entry = self.cache.remove(i);
                self.cache.insert(i, (path, timestamp, value));
                proof {
                    assert(self.cache@ =~= s.update(i as int, e));
                    lemma_update_entry(s, i as int, e);
                }
                Some(old_entry.2)
            },
            None => {
                self.cache.push((path, timestamp, value));
                proof {
                    assert(self.cache@.drop_last() =~= s);
                }
                None
            },
        }
    }
}


/// A value cached for a path at a timestamp is found at that timestamp, and
/// only at that one.
pub proof fn law_cached_value_found<T>(m: Map<Seq<char>, (u64, T)>, path: Seq<char>, ts: u64, v: T, ts2: u64)
    ensures
        m.insert(path, (ts, v)).contains_key(path),
        m.insert(path, (ts, v))[path] == (ts, v),
        ts2 != ts ==> m.insert(path, (ts, v))[path].0 != ts2,
{
}

/// The cache after inserting each of `ops` (path, timestamp, value) in
/// turn into an empty one.
pub open spec fn cache_after<T>(ops: Seq<(Seq<char>, u64, T)>) -> Map<Seq<char>, (u64, T)>
    decreases ops.len(),
{
    if ops.len() == 0 {
        Map::empty()
    } else {
        cache_after(ops.drop_last()).insert(ops.last().0, (ops.last().1, ops.last().2))
    }
}

/// The last of `ops` for path `p`, if any.
pub open spec fn last_op<T>(ops: Seq<(Seq<char>, u64, T)>, p: Seq<char>) -> Option<int>
    decreases ops.len(),
{
    if ops.len() == 0 {
        None
    } else if ops.last().0 == p {
        Some(ops.len() - 1)
    } else {
        last_op(ops.drop_last(), p)
    }
}

/// After any inserts into an empty cache, a path is found at a timestamp
/// exactly when its last insert was at that timestamp, with that insert's
/// value; a path never inserted is not found, and a stale entry never is.
pub proof fn law_cache_after_inserts<T>(ops: Seq<(Seq<char>, u64, T)>, p: Seq<char>, t: u64)
    ensures
        match last_op(ops, p) {
            Some(i) => 0 <= i < ops.len() && ops[i].0 == p && cache_after(ops).contains_key(p)
                && cache_after(ops)[p] == (ops[i].1, ops[i].2)
                && forall|j: int| i < j < ops.len() ==> ops[j].0 != p,
            None => !cache_after(ops).contains_key(p),
        },
        (cache_after(ops).contains_key(p) && cache_after(ops)[p].0 == t) <==> (last_op(ops, p) matches Some(i)
            && ops[i].1 == t),
    decreases ops.len(),
{
    if ops.len() > 0 {
        law_cache_after_inserts(ops.drop_last(), p, t);
        match last_op(ops.drop_last(), p) {
            Some(i) => {
                if ops.last().0 != p {
                    assert(ops[i] == ops.drop_last()[i]);
                    assert forall|j: int| i < j < ops.len() implies ops[j].0 != p by {
                        if j < ops.len() - 1 {
                            assert(ops[j] == ops.drop_last()[j]);
                        }
                    }
                }
            },
            None => {},
        }
    }
}

} // verus!
