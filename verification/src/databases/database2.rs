use std::collections::{BTreeMap, BTreeSet};

use vstd::prelude::*;

verus! {

/// Where the value taken out of a database is: in the pending writes, or in
/// the database itself, to be read there by the caller.
#[derive(Debug, Clone, Copy, PartialEq, Eq)]
pub enum Taken<V> {
    Cached(V),
    FromDatabase,
}

/// The writes to a database that are pending until it is exported: values
/// put by key, and keys deleted.
#[derive(Debug)]
pub struct Database2<V> {
    cached_puts: BTreeMap<u64, V>,
    cached_dels: BTreeSet<u64>,
}

impl<V: Copy> Database2<V> {
    /// The values put, by key.
    pub closed spec fn puts(&self) -> Map<u64, V> {
        self.cached_puts@
    }

    /// The keys deleted.
    pub closed spec fn dels(&self) -> Set<u64> {
        self.cached_dels@
    }

    /// What reading `key` gives when the database itself holds `stored`: a
    /// pending put, else nothing for a pending delete, else what is stored.
    pub open spec fn read(&self, key: u64, stored: Option<V>) -> Option<V> {
        if self.puts().contains_key(key) {
            Some(self.puts()[key])
        } else if self.dels().contains(key) {
            None
        } else {
            stored
        }
    }

    /// Nothing pending.
    pub fn new() -> (res: Self)
        ensures
            res.puts() == Map::<u64, V>::empty(),
            res.dels() == Set::<u64>::empty(),
    {
        Database2 { cached_puts: BTreeMap::new(), cached_dels: BTreeSet::new() }
    }

    /// The value put for `key`, if one is pending.
    pub fn get_from_puts(&self, key: &u64) -> (res: Option<&V>)
        ensures
            match res {
                Some(v) => self.puts().contains_key(*key) && *v == self.puts()[*key],
                None => !self.puts().contains_key(*key),
            },
    {
        self.cached_puts.get(key)
    }

    /// Takes the value of `key` out: a pending put is given back and
    /// forgotten; otherwise the key is deleted, and the value is to be read
    /// in the database. A key cannot be taken twice.
    pub fn take(&mut self, key: &u64) -> (res: Taken<V>)
        requires
            !old(self).dels().contains(*key),
        ensures
            old(self).puts().contains_key(*key) ==> {
                &&& res == Taken::Cached(old(self).puts()[*key])
                &&& final(self).puts() == old(self).puts().remove(*key)
                &&& final(self).dels() == old(self).dels()
            },
            !old(self).puts().contains_key(*key) ==> {
                &&& res == Taken::<V>::FromDatabase
                &&& final(self).puts() == old(self).puts()
                &&& final(self).dels() == old(self).dels().insert(*key)
                &&& forall|stored: Option<V>| #[trigger] final(self).read(*key, stored) is None
            },
    {
        match self.remove_from_puts(key) {
            Some(value) => Taken::Cached(value),
            None => {
                self.cached_dels.insert(*key);
                Taken::FromDatabase
            },
        }
    }

    /// Removes `key`: a pending put is forgotten; otherwise the key is
    /// deleted.
    pub fn remove(&mut self, key: &u64)
        ensures
            final(self).puts() == old(self).puts().remove(*key),
            old(self).puts().contains_key(*key) ==> final(self).dels() == old(self).dels(),
            !old(self).puts().contains_key(*key) ==> final(self).dels() == old(self).dels().insert(
                *key,
            ),
    {
        if self.remove_from_puts(key).is_none() {
            self.cached_dels.insert(*key);
        }
    }

    /// Forgets the pending put of `key`, and gives it back.
    pub fn remove_from_puts(&mut self, key: &u64) -> (res: Option<V>)
        ensures
            final(self).puts() == old(self).puts().remove(*key),
            final(self).dels() == old(self).dels(),
            res == (if old(self).puts().contains_key(*key) {
                Some(old(self).puts()[*key])
            } else {
                None
            }),
    {
        self.cached_puts.remove(key)
    }

    /// Puts `value` for `key`, which is no longer deleted, and gives back the
    /// value put before, if one was pending.
    pub fn insert(&mut self, key: u64, value: V) -> (res: Option<V>)
        ensures
            final(self).puts() == old(self).puts().insert(key, value),
            final(self).dels() == old(self).dels().remove(key),
            res == (if old(self).puts().contains_key(key) {
                Some(old(self).puts()[key])
            } else {
                None
            }),
            forall|k: u64, stored: Option<V>|
                #[trigger] final(self).read(k, stored) == if k == key {
                    Some(value)
                } else {
                    old(self).read(k, stored)
                },
    {
        self.cached_dels.remove(&key);
        self.cached_puts.insert(key, value)
    }

    /// Whether nothing is pending, in which case exporting has nothing to
    /// write.
    pub fn is_clean(&self) -> (res: bool)
        ensures
            res == (self.puts().is_empty() && self.dels().is_empty()),
    {
        let res = self.cached_dels.is_empty() && self.cached_puts.is_empty();
        proof {
            if !self.puts().is_empty() {
                let k = choose|k: u64| self.puts().contains_key(k);
                assert(self.puts().dom().contains(k));
            }
            if !self.dels().is_empty() {
                let k = choose|k: u64| self.dels().contains(k);
                assert(self.dels().contains(k));
            }
        }
        res
    }
}

} // verus!
