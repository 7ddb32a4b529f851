//! A minimal picture of the resource-store collaborator: singleton values
//! keyed by resource type, each with a hold state that records how the
//! store is currently lent out across the running stage.  The hold state is
//! what lets a unit's fetch fail loudly when the scheduler mis-schedules.

use vstd::prelude::*;

verus! {

/// How a resource is currently held by other units of the running stage.
#[derive(Clone, Copy, PartialEq, Eq, Structural, Debug)]
pub enum Hold {
    Free,
    Shared,
    Exclusive,
}

/// One resource declaration of a unit: the type key, and whether the unit
/// writes it.
#[derive(Clone, Copy, PartialEq, Eq, Structural, Debug)]
pub struct ResourceDecl {
    pub key: u64,
    pub write: bool,
}

#[derive(Clone, Copy, PartialEq, Eq, Structural, Debug)]
struct Entry {
    key: u64,
    value: u64,
    hold: Hold,
}

/// First entry with the given key, scanning from position `i`.
spec fn find_from(s: Seq<Entry>, key: u64, i: int) -> Option<Entry>
    decreases s.len() - i when 0 <= i <= s.len()
{
    if i >= s.len() {
        None
    } else if s[i].key == key {
        Some(s[i])
    } else {
        find_from(s, key, i + 1)
    }
}

/// Updating an entry in place, at the only position that carries its key,
/// changes exactly the lookups of that key.
proof fn lemma_find_from_update(s: Seq<Entry>, i: int, e: Entry, key: u64, j: int)
    requires
        0 <= j <= s.len(),
        0 <= i < s.len(),
        e.key == s[i].key,
        forall|p: int| 0 <= p < s.len() && p != i ==> (#[trigger] s[p]).key != s[i].key,
    ensures
        find_from(s.update(i, e), key, j) == if key == e.key && j <= i {
            Some(e)
        } else {
            find_from(s, key, j)
        },
    decreases s.len() - j,
{
    if j < s.len() {
        lemma_find_from_update(s, i, e, key, j + 1);
    }
}

/// Appending an entry leaves every present key's lookup unchanged and
/// resolves the new key to the new entry.
proof fn lemma_find_from_push(s: Seq<Entry>, e: Entry, key: u64, j: int)
    requires
        0 <= j <= s.len(),
    ensures
        find_from(s.push(e), key, j) == if find_from(s, key, j) is Some {
            find_from(s, key, j)
        } else if key == e.key {
            Some(e)
        } else {
            None
        },
    decreases s.len() - j,
{
    assert(s.push(e).len() == s.len() + 1);
    assert(s.push(e)[s.len() as int] == e);
    if j < s.len() {
        assert(s.push(e)[j] == s[j]);
        lemma_find_from_push(s, e, key, j + 1);
    }
}

/// The resource store: type-keyed singleton values with hold states.
pub struct Resources {
    entries: Vec<Entry>,
}

impl Resources {
    spec fn spec_find(self, key: u64) -> Option<Entry> {
        find_from(self.entries@, key, 0)
    }

    /// No resource key appears twice.
    pub closed spec fn wf(self) -> bool {
        forall|p: int, q: int|
            0 <= p < self.entries@.len() && 0 <= q < self.entries@.len() && p != q ==> (
            #[trigger] self.entries@[p]).key != (#[trigger] self.entries@[q]).key
    }

    /// Whether a resource of type `key` is present.
    pub closed spec fn contains_key(self, key: u64) -> bool {
        self.spec_find(key) is Some
    }

    /// The value stored under `key`.
    pub closed spec fn value_of(self, key: u64) -> u64
        recommends
            self.contains_key(key),
    {
        self.spec_find(key)->Some_0.value
    }

    /// The hold state of the resource under `key`.
    pub closed spec fn hold_of(self, key: u64) -> Hold
        recommends
            self.contains_key(key),
    {
        self.spec_find(key)->Some_0.hold
    }

    pub fn new() -> (r: Self)
        ensures
            r.wf(),
            forall|k: u64| !r.contains_key(k),
    {
        let r = Resources { entries: Vec::new() };
        proof {
            assert forall|k: u64| !r.contains_key(k) by {
                assert(find_from(r.entries@, k, 0) is None);
            }
        }
        r
    }

    /// Position of the entry with `key`, if present.
    fn find_index(&self, key: u64) -> (r: Option<usize>)
        ensures
            match r {
                Some(i) => i < self.entries@.len() && self.entries@[i as int].key == key
                    && self.spec_find(key) == Some(self.entries@[i as int]),
                None => !self.contains_key(key),
            },
    {
        let mut i: usize = 0;
        while i < self.entries.len()
            invariant
                i <= self.entries@.len(),
                find_from(self.entries@, key, 0) == find_from(self.entries@, key, i as int),
                forall|j: int| 0 <= j < i ==> (#[trigger] self.entries@[j]).key != key,
            decreases self.entries@.len() - i,
        {
            if self.entries[i].key == key {
                return Some(i);
            }
            i += 1;
        }
        None
    }

    /// Inserts or overwrites the value under `key`.  A fresh resource
    /// starts out free; overwriting keeps the current hold state.
    pub fn insert(&mut self, key: u64, value: u64)
        requires
            old(self).wf(),
        ensures
            final(self).wf(),
            final(self).contains_key(key),
            final(self).value_of(key) == value,
            final(self).hold_of(key) == if old(self).contains_key(key) {
                old(self).hold_of(key)
            } else {
                Hold::Free
            },
            forall|k: u64|
                k != key ==> #[trigger] final(self).contains_key(k) == old(self).contains_key(k),
            forall|k: u64|
                k != key && old(self).contains_key(k) ==> #[trigger] final(self).value_of(k) == old(self).value_of(k) && final(self).hold_of(k) == old(self).hold_of(k),
    {
        match self.find_index(key) {
            Some(i) => {
                let ghost pre = self.entries@;
                let hold = self.entries[i].hold;
                let e = Entry { key, value, hold };
                self.entries.set(i, e);
                proof {
                    assert(self.entries@ == pre.update(i as int, e));
                    assert forall|k: u64| true implies find_from(self.entries@, k, 0) == if k == key
                        {
                        Some(e)
                    } else {
                        find_from(pre, k, 0)
                    } by {
                        lemma_find_from_update(pre, i as int, e, k, 0);
                    }
                }
            },
            None => {
                let ghost pre = self.entries@;
                let e = Entry { key, value, hold: Hold::Free };
                self.entries.push(e);
                proof {
                    assert forall|k: u64| true implies find_from(self.entries@, k, 0) == if
                        find_from(pre, k, 0) is Some {
                        find_from(pre, k, 0)
                    } else if k == key {
                        Some(e)
                    } else {
                        None
                    } by {
                        lemma_find_from_push(pre, e, k, 0);
                    }
                    assert forall|p: int, q: int|
                        0 <= p < self.entries@.len() && 0 <= q < self.entries@.len() && p
                            != q implies (#[trigger] self.entries@[p]).key != (
                    #[trigger] self.entries@[q]).key by {
                        if q == pre.len() {
                            if self.entries@[p].key == key {
                                assert(find_from(pre, key, 0) is Some) by {
                                    lemma_find_present(pre, key, p);
                                }
                            }
                        } else if p == pre.len() {
                            if self.entries@[q].key == key {
                                assert(find_from(pre, key, 0) is Some) by {
                                    lemma_find_present(pre, key, q);
                                }
                            }
                        }
                    }
                }
            },
        }
    }

    /// The value under `key`, if the resource is present.
    pub fn get(&self, key: u64) -> (r: Option<u64>)
        ensures
            r == if self.contains_key(key) {
                Some(self.value_of(key))
            } else {
                None::<u64>
            },
    {
        match self.find_index(key) {
            Some(i) => Some(self.entries[i].value),
            None => None,
        }
    }

    /// The hold state under `key`, if the resource is present.
    pub fn get_hold(&self, key: u64) -> (r: Option<Hold>)
        ensures
            r == if self.contains_key(key) {
                Some(self.hold_of(key))
            } else {
                None::<Hold>
            },
    {
        match self.find_index(key) {
            Some(i) => Some(self.entries[i].hold),
            None => None,
        }
    }

    /// Marks how the stage currently holds the resource under `key`;
    /// reports whether the resource exists.
    pub fn set_hold(&mut self, key: u64, hold: Hold) -> (r: bool)
        requires
            old(self).wf(),
        ensures
            final(self).wf(),
            r == old(self).contains_key(key),
            forall|k: u64| #[trigger]
                final(self).contains_key(k) == old(self).contains_key(k),
            old(self).contains_key(key) ==> final(self).hold_of(key) == hold && final(self).value_of(key) == old(self).value_of(key),
            forall|k: u64|
                k != key && old(self).contains_key(k) ==> #[trigger] final(self).value_of(k) == old(self).value_of(k) && final(self).hold_of(k) == old(self).hold_of(k),
    {
        match self.find_index(key) {
            Some(i) => {
                let ghost pre = self.entries@;
                let value = self.entries[i].value;
                let e = Entry { key, value, hold };
                self.entries.set(i, e);
                proof {
                    assert forall|k: u64| true implies find_from(self.entries@, k, 0) == if k == key
                        {
                        Some(e)
                    } else {
                        find_from(pre, k, 0)
                    } by {
                        lemma_find_from_update(pre, i as int, e, k, 0);
                    }
                }
                true
            },
            None => false,
        }
    }
}

/// A key standing at some position is found by the scan.
proof fn lemma_find_present(s: Seq<Entry>, key: u64, p: int)
    requires
        0 <= p < s.len(),
        s[p].key == key,
    ensures
        find_from(s, key, 0) is Some,
{
    lemma_find_present_from(s, key, p, 0);
}

proof fn lemma_find_present_from(s: Seq<Entry>, key: u64, p: int, j: int)
    requires
        0 <= j <= p < s.len(),
        s[p].key == key,
    ensures
        find_from(s, key, j) is Some,
    decreases p - j,
{
    if j < p && s[j].key != key {
        lemma_find_present_from(s, key, p, j + 1);
    }
}

} // verus!
