//! A minimal picture of the storage collaborator: a world has an identity
//! and a current archetype layout.  An archetype is a partition of entities
//! that share an identical set of component types; the layout is what a
//! unit's queries are resolved against at each tick.

use vstd::prelude::*;

verus! {

/// One archetype: the set of component type keys its entities share.
pub struct Archetype {
    components: Vec<u64>,
}

impl Archetype {
    /// The component type keys of this archetype.
    pub closed spec fn component_set(self) -> Set<u64> {
        self.components@.to_set()
    }

    pub fn new(components: Vec<u64>) -> (r: Self)
        ensures
            r.component_set() == components@.to_set(),
    {
        Archetype { components }
    }

    /// Whether entities of this archetype carry component `key`.
    pub fn has_component(&self, key: u64) -> (r: bool)
        ensures
            r == self.component_set().contains(key),
    {
        crate::permissions::vec_contains_u64(&self.components, key)
    }
}

/// The world a unit is run against: an identity that deferred edits are
/// keyed by, and the archetype layout current at this tick.
pub struct World {
    id: u64,
    archetypes: Vec<Archetype>,
}

impl World {
    /// The world's identity.
    pub closed spec fn spec_id(self) -> u64 {
        self.id
    }

    /// The current archetype layout, by index.
    pub closed spec fn spec_archetypes(self) -> Seq<Archetype> {
        self.archetypes@
    }

    pub fn new(id: u64) -> (r: Self)
        ensures
            r.spec_id() == id,
            r.spec_archetypes() == Seq::<Archetype>::empty(),
    {
        World { id, archetypes: Vec::new() }
    }

    pub fn id(&self) -> (r: u64)
        ensures
            r == self.spec_id(),
    {
        self.id
    }

    pub fn archetype_count(&self) -> (r: usize)
        ensures
            r == self.spec_archetypes().len(),
    {
        self.archetypes.len()
    }

    /// Adds an archetype holding the given component types; returns its index.
    pub fn push_archetype(&mut self, components: Vec<u64>) -> (r: usize)
        ensures
            final(self).spec_id() == old(self).spec_id(),
            final(self).spec_archetypes().len() == old(self).spec_archetypes().len() + 1,
            final(self).spec_archetypes() == old(self).spec_archetypes().push(
                final(self).spec_archetypes().last(),
            ),
            final(self).spec_archetypes().last().component_set() == components@.to_set(),
            r == old(self).spec_archetypes().len(),
    {
        let r = self.archetypes.len();
        self.archetypes.push(Archetype::new(components));
        r
    }

    /// The archetype at `index`.
    pub fn archetype(&self, index: usize) -> (r: &Archetype)
        requires
            index < self.spec_archetypes().len(),
        ensures
            *r == self.spec_archetypes()[index as int],
    {
        &self.archetypes[index]
    }
}

} // verus!
