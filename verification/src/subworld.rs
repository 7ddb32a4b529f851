//! The restricted world view a unit's logic receives while it runs: access
//! checks limited to the declared component permissions and, for a
//! `Filtered` unit, to the archetype indices cached at the last `prepare`.

use crate::permissions::Permissions;
use vstd::prelude::*;

verus! {

/// A declaration-matching window onto the world.  Component access outside
/// the declared permission set, or archetypes outside the cached filter,
/// are rejected.
pub struct SubWorld {
    components: Permissions,
    filter: Option<Vec<usize>>,
}

impl SubWorld {
    /// Component keys readable through this view.
    pub open spec fn spec_readable(self) -> Set<u64> {
        self.spec_components().read_set() + self.spec_components().write_set()
    }

    /// Component keys writable through this view.
    pub open spec fn spec_writable(self) -> Set<u64> {
        self.spec_components().write_set()
    }

    pub closed spec fn spec_components(self) -> Permissions {
        self.components
    }

    /// The archetype filter: `None` stands for unrestricted access.
    pub closed spec fn spec_filter(self) -> Option<Seq<usize>> {
        match self.filter {
            Some(v) => Some(v@),
            None => None,
        }
    }

    pub fn new(components: Permissions, filter: Option<Vec<usize>>) -> (r: Self)
        ensures
            r.spec_components() == components,
            r.spec_filter() == match filter {
                Some(v) => Some(v@),
                None => None::<Seq<usize>>,
            },
    {
        SubWorld { components, filter }
    }

    /// Whether the logic may read component `key` through this view; a
    /// declared write grants read access too.
    pub fn can_read(&self, key: u64) -> (r: bool)
        ensures
            r == self.spec_readable().contains(key),
    {
        self.components.allows_read(key)
    }

    /// Whether the logic may write component `key` through this view.
    pub fn can_write(&self, key: u64) -> (r: bool)
        ensures
            r == self.spec_writable().contains(key),
    {
        self.components.allows_write(key)
    }

    /// Whether archetype `index` is visible through this view.
    pub fn archetype_visible(&self, index: usize) -> (r: bool)
        ensures
            r == match self.spec_filter() {
                None => true,
                Some(s) => s.contains(index),
            },
    {
        match &self.filter {
            None => true,
            Some(v) => {
                let mut i: usize = 0;
                while i < v.len()
                    invariant
                        self.spec_filter() == Some(v@),
                        i <= v@.len(),
                        forall|j: int| 0 <= j < i ==> v@[j] != index,
                    decreases v@.len() - i,
                {
                    if v[i] == index {
                        proof {
                            assert(v@[i as int] == index);
                            assert(v@.contains(index));
                        }
                        return true;
                    }
                    i += 1;
                }
                false
            },
        }
    }
}

} // verus!
