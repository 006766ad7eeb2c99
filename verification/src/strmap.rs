//! A string-keyed association map with a deterministic entry order.
//!
//! The resolved device and resource collections are held in this
//! map: keys are unique and entries keep their insertion order, so a
//! run over identical input walks them identically.

use vstd::prelude::*;

use crate::strutil::str_eq;

verus! {

/// A mapping from string identifiers to values, with unique keys and
/// stable entry order.
#[derive(Clone, Debug)]
pub struct StringMap<T> {
    pub entries: Vec<(String, T)>,
}

/// The value the entry sequence associates with a key: the value of
/// the first entry whose key matches, if any.
pub open spec fn spec_lookup<T>(entries: Seq<(String, T)>, key: Seq<char>) -> Option<T>
    decreases entries.len(),
{
    if entries.len() == 0 {
        None
    } else if entries[0].0@ == key {
        Some(entries[0].1)
    } else {
        spec_lookup(entries.drop_first(), key)
    }
}

impl<T> StringMap<T> {
    /// Keys are pairwise distinct.
    pub open spec fn wf(self) -> bool {
        forall|i: int, j: int|
            0 <= i < j < self.entries@.len() ==> self.entries@[i].0@ != self.entries@[j].0@
    }

    /// The value associated with a key.
    pub open spec fn spec_get(self, key: Seq<char>) -> Option<T> {
        spec_lookup(self.entries@, key)
    }

    /// An empty map.
    pub fn new() -> (r: StringMap<T>)
        ensures
            r.wf(),
            r.entries@.len() == 0,
            forall|k: Seq<char>| r.spec_get(k).is_none(),
    {
        StringMap { entries: Vec::new() }
    }

    /// The number of entries.
    pub fn len(&self) -> (r: usize)
        ensures
            r == self.entries@.len(),
    {
        self.entries.len()
    }

    /// Looks a key up.
    pub fn get(&self, key: &str) -> (r: Option<&T>)
        ensures
            match r {
                Some(v) => self.spec_get(key@) == Some(*v),
                None => self.spec_get(key@).is_none(),
            },
    {
        let n = self.entries.len();
        let mut i: usize = 0;
        proof {
            assert(self.entries@.skip(0) =~= self.entries@);
        }
        while i < n
            invariant
                i <= n,
                n == self.entries@.len(),
                spec_lookup(self.entries@.skip(i as int), key@) == spec_lookup(
                    self.entries@,
                    key@,
                ),
            decreases n - i,
        {
            proof {
                assert(self.entries@.skip(i as int)[0] == self.entries@[i as int]);
                assert(self.entries@.skip(i as int).drop_first() =~= self.entries@.skip(
                    i as int + 1,
                ));
            }
            if str_eq(self.entries[i].0.as_str(), key) {
                return Some(&self.entries[i].1);
            }
            i += 1;
        }
        proof {
            assert(self.entries@.skip(n as int) =~= Seq::<(String, T)>::empty());
        }
        None
    }

    /// Adds an entry under a key not yet present.
    pub fn insert(&mut self, key: String, value: T)
        requires
            old(self).wf(),
            old(self).spec_get(key@).is_none(),
        ensures
            final(self).wf(),
            final(self).entries@ == old(self).entries@.push((key, value)),
            final(self).spec_get(key@) == Some(value),
            forall|k: Seq<char>|
                k != key@ ==> final(self).spec_get(k) == old(self).spec_get(k),
    {
        proof {
            lemma_lookup_none_no_key(self.entries@, key@);
        }
        self.entries.push((key, value));
        proof {
            let entries = self.entries@;
            assert forall|k: Seq<char>| #![auto] true implies spec_lookup(entries, k) == (
            if k == key@ {
                Some(value)
            } else {
                spec_lookup(old(self).entries@, k)
            }) by {
                lemma_lookup_push(old(self).entries@, key, value, k);
            }
        }
    }

    /// The values of all entries, in entry order.
    pub fn into_values(self) -> (r: Vec<T>)
        ensures
            r@ == self.entries@.map_values(|e: (String, T)| e.1),
    {
        let mut out: Vec<T> = Vec::new();
        let mut rest = self.entries;
        let ghost all = rest@;
        // consume from the front by reversing twice: popping from
        // the reversed vector gives front-to-back order
        let mut rev: Vec<(String, T)> = Vec::new();
        while rest.len() > 0
            invariant
                rev@.len() + rest@.len() == all.len(),
                forall|j: int|
                    0 <= j < rev@.len() ==> rev@[j] == all[all.len() - 1 - j],
                forall|j: int| 0 <= j < rest@.len() ==> rest@[j] == all[j],
            decreases rest@.len(),
        {
            let e = rest.pop().unwrap();
            rev.push(e);
        }
        while rev.len() > 0
            invariant
                rev@.len() <= all.len(),
                forall|j: int|
                    0 <= j < rev@.len() ==> rev@[j] == all[all.len() - 1 - j],
                out@ == all.take(all.len() - rev@.len()).map_values(|e: (String, T)| e.1),
            decreases rev@.len(),
        {
            let ghost before = rev@.len() as int;
            let e = rev.pop().unwrap();
            out.push(e.1);
            proof {
                let m = |e: (String, T)| e.1;
                assert(all.take(all.len() - before + 1) =~= all.take(all.len() - before).push(
                    all[all.len() - before],
                ));
                assert(all.take(all.len() - before + 1).map_values(m) =~= all.take(
                    all.len() - before,
                ).map_values(m).push(m(all[all.len() - before])));
            }
        }
        proof {
            assert(all.take(all.len() as int) =~= all);
        }
        out
    }
}

/// If a key is absent from the map, no entry carries it.
proof fn lemma_lookup_none_no_key<T>(entries: Seq<(String, T)>, key: Seq<char>)
    requires
        spec_lookup(entries, key).is_none(),
    ensures
        forall|i: int| 0 <= i < entries.len() ==> entries[i].0@ != key,
    decreases entries.len(),
{
    if entries.len() > 0 {
        lemma_lookup_none_no_key(entries.drop_first(), key);
        assert forall|i: int| 0 <= i < entries.len() implies entries[i].0@ != key by {
            if i > 0 {
                assert(entries.drop_first()[i - 1] == entries[i]);
            }
        }
    }
}

/// Appending an entry only changes the lookup of its own key, and
/// only when that key was absent.
proof fn lemma_lookup_push<T>(entries: Seq<(String, T)>, key: String, value: T, k: Seq<char>)
    requires
        spec_lookup(entries, key@).is_none(),
    ensures
        spec_lookup(entries.push((key, value)), k) == (if k == key@ {
            Some(value)
        } else {
            spec_lookup(entries, k)
        }),
    decreases entries.len(),
{
    let pushed = entries.push((key, value));
    if entries.len() == 0 {
        assert(pushed[0] == (key, value));
        assert(pushed.drop_first() =~= Seq::<(String, T)>::empty());
        if k != key@ {
            assert(spec_lookup(pushed, k) == spec_lookup(pushed.drop_first(), k));
        }
    } else {
        assert(pushed[0] == entries[0]);
        assert(pushed.drop_first() =~= entries.drop_first().push((key, value)));
        lemma_lookup_push(entries.drop_first(), key, value, k);
    }
}

/// The values of a map, in entry order.
pub fn values<T>(map: StringMap<T>) -> (r: Vec<T>)
    ensures
        r@ == map.entries@.map_values(|e: (String, T)| e.1),
{
    map.into_values()
}

} // verus!
