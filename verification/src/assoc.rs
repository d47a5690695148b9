//! A map from strings, kept as a list of entries.
use crate::text::str_eq;
use vstd::prelude::*;

verus! {

#[derive(Clone, Debug, PartialEq)]
pub struct Assoc<V> {
    pub entries: Vec<(String, V)>,
}

/// Where the entry for `key` stands, at `i` or behind it.
pub open spec fn position_from<V>(entries: Seq<(String, V)>, key: Seq<char>, i: int) -> Option<int>
    decreases entries.len() - i,
{
    if i < 0 || i >= entries.len() {
        None
    } else if entries[i].0@ == key {
        Some(i)
    } else {
        position_from(entries, key, i + 1)
    }
}

/// The value for `key`.
pub open spec fn lookup<V>(entries: Seq<(String, V)>, key: Seq<char>) -> Option<V> {
    match position_from(entries, key, 0) {
        Some(i) => Some(entries[i].1),
        None => None,
    }
}

/// No key has two entries.
pub open spec fn distinct_keys<V>(entries: Seq<(String, V)>) -> bool {
    forall|i: int, j: int|
        0 <= i < j < entries.len() ==> (#[trigger] entries[i]).0@ != (#[trigger] entries[j]).0@
}

pub proof fn lemma_position<V>(entries: Seq<(String, V)>, key: Seq<char>, i: int)
    requires
        0 <= i,
    ensures
        match position_from(entries, key, i) {
            Some(k) => i <= k < entries.len() && entries[k].0@ == key && forall|j: int|
                i <= j < k ==> (#[trigger] entries[j]).0@ != key,
            None => forall|j: int| i <= j < entries.len() ==> (#[trigger] entries[j]).0@ != key,
        },
    decreases entries.len() - i,
{
    if i < entries.len() && entries[i].0@ != key {
        lemma_position(entries, key, i + 1);
    }
}

/// The first entry that has the key is the one that is found.
pub proof fn lemma_position_is<V>(entries: Seq<(String, V)>, key: Seq<char>, k: int)
    requires
        0 <= k < entries.len(),
        entries[k].0@ == key,
        forall|j: int| 0 <= j < k ==> (#[trigger] entries[j]).0@ != key,
    ensures
        position_from(entries, key, 0) == Some(k),
{
    lemma_position(entries, key, 0);
    let p = position_from(entries, key, 0);
    if p is None {
        assert(entries[k].0@ != key);
    } else if p->0 < k {
        assert(entries[p->0].0@ != key);
    }
}

impl<V> Assoc<V> {
    pub open spec fn get_spec(&self, key: Seq<char>) -> Option<V> {
        lookup(self.entries@, key)
    }

    pub open spec fn distinct(&self) -> bool {
        distinct_keys(self.entries@)
    }

    pub fn new() -> (r: Self)
        ensures
            r.entries@ == Seq::<(String, V)>::empty(),
            forall|k: Seq<char>| #[trigger] r.get_spec(k) is None,
            r.distinct(),
    {
        Assoc { entries: Vec::new() }
    }

    pub fn position(&self, key: &str) -> (r: Option<usize>)
        ensures
            match r {
                Some(i) => i < self.entries@.len() && position_from(self.entries@, key@, 0)
                    == Some(i as int),
                None => position_from(self.entries@, key@, 0) is None,
            },
    {
        let mut i: usize = 0;
        while i < self.entries.len()
            invariant
                i <= self.entries@.len(),
                position_from(self.entries@, key@, i as int) == position_from(
                    self.entries@,
                    key@,
                    0,
                ),
            decreases self.entries@.len() - i,
        {
            if str_eq(self.entries[i].0.as_str(), key) {
                return Some(i);
            }
            i = i + 1;
        }
        None
    }

    pub fn get(&self, key: &str) -> (r: Option<&V>)
        ensures
            match r {
                Some(v) => self.get_spec(key@) == Some(*v),
                None => self.get_spec(key@) is None,
            },
    {
        match self.position(key) {
            Some(i) => Some(&self.entries[i].1),
            None => None,
        }
    }

    /// Gives `key` a value, in place of the one that it has.
    pub fn insert(&mut self, key: &str, value: V)
        ensures
            final(self).get_spec(key@) == Some(value),
            forall|k: Seq<char>|
                k != key@ ==> #[trigger] final(self).get_spec(k) == old(self).get_spec(k),
            old(self).distinct() ==> final(self).distinct(),
    {
        let ghost before = self.entries@;
        match self.position(key) {
            Some(i) => {
                proof {
                    lemma_position(before, key@, 0);
                }
                self.entries.set(i, (key.to_string(), value));
            },
            None => {
                proof {
                    lemma_position(before, key@, 0);
                }
                self.entries.push((key.to_string(), value));
            },
        }
        proof {
            let after = self.entries@;
            let at = match position_from(before, key@, 0) {
                Some(i) => i,
                None => before.len() as int,
            };
            lemma_position_is(after, key@, at);
            assert forall|k: Seq<char>| k != key@ implies #[trigger] lookup(after, k) == lookup(
                before,
                k,
            ) by {
                lemma_position(before, k, 0);
                match position_from(before, k, 0) {
                    Some(j) => {
                        lemma_position_is(after, k, j);
                    },
                    None => {
                        lemma_position(after, k, 0);
                    },
                }
            }
        }
    }
}

} // verus!
