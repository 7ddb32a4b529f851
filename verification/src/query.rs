//! Query declarations.  A query states, at declaration time, which
//! component types it reads and which it writes; at run time it resolves to
//! the set of archetypes that carry every component it touches.

use crate::permissions::Permissions;
use crate::world::Archetype;
use crate::world::World;
use vstd::prelude::*;

verus! {

/// A declarative query: the component types it reads and writes.  Both
/// lists feed the owning unit's component permission set; their union is
/// the requirement an archetype must satisfy to match.
pub struct QueryDecl {
    reads: Vec<u64>,
    writes: Vec<u64>,
}

impl QueryDecl {
    /// Component types the query reads.
    pub closed spec fn read_seq(self) -> Seq<u64> {
        self.reads@
    }

    /// Component types the query writes.
    pub closed spec fn write_seq(self) -> Seq<u64> {
        self.writes@
    }

    pub fn new(reads: Vec<u64>, writes: Vec<u64>) -> (r: Self)
        ensures
            r.read_seq() == reads@,
            r.write_seq() == writes@,
    {
        QueryDecl { reads, writes }
    }

    /// Whether `archetype` carries every component this query touches.
    pub open spec fn spec_matches(self, archetype: Archetype) -> bool {
        (forall|i: int|
            0 <= i < self.read_seq().len() ==> archetype.component_set().contains(
                #[trigger] self.read_seq()[i],
            )) && (forall|i: int|
            0 <= i < self.write_seq().len() ==> archetype.component_set().contains(
                #[trigger] self.write_seq()[i],
            ))
    }

    /// Resolves the query against one archetype of the current layout.
    pub fn matches(&self, archetype: &Archetype) -> (r: bool)
        ensures
            r == self.spec_matches(*archetype),
    {
        let mut i: usize = 0;
        while i < self.reads.len()
            invariant
                i <= self.reads@.len(),
                forall|j: int|
                    0 <= j < i ==> archetype.component_set().contains(#[trigger] self.reads@[j]),
            decreases self.reads@.len() - i,
        {
            if !archetype.has_component(self.reads[i]) {
                proof {
                    assert(!archetype.component_set().contains(self.read_seq()[i as int]));
                }
                return false;
            }
            i += 1;
        }
        let mut j: usize = 0;
        while j < self.writes.len()
            invariant
                j <= self.writes@.len(),
                forall|m: int|
                    0 <= m < j ==> archetype.component_set().contains(#[trigger] self.writes@[m]),
                forall|m: int|
                    0 <= m < self.reads@.len() ==> archetype.component_set().contains(
                        #[trigger] self.reads@[m],
                    ),
            decreases self.writes@.len() - j,
        {
            if !archetype.has_component(self.writes[j]) {
                proof {
                    assert(!archetype.component_set().contains(self.write_seq()[j as int]));
                }
                return false;
            }
            j += 1;
        }
        true
    }

    /// The component permissions this query requires of its owning unit.
    pub fn requires_permissions(&self) -> (r: Permissions)
        ensures
            r.wf(),
            r.write_set() == self.write_seq().to_set(),
            r.read_set() == self.read_seq().to_set() - self.write_seq().to_set(),
    {
        let mut p = Permissions::new();
        let mut i: usize = 0;
        while i < self.writes.len()
            invariant
                p.wf(),
                i <= self.writes@.len(),
                p.write_set() == self.writes@.take(i as int).to_set(),
                p.read_set() == Set::<u64>::empty(),
            decreases self.writes@.len() - i,
        {
            p.declare_write(self.writes[i]);
            proof {
                crate::permissions::lemma_take_succ_to_set(self.writes@, i as int);
                assert(p.write_set() =~= self.writes@.take(i + 1).to_set());
                assert(p.read_set() =~= Set::<u64>::empty());
            }
            i += 1;
        }
        proof {
            assert(self.writes@.take(self.writes@.len() as int) == self.writes@);
        }
        let ghost w = p.write_set();
        let mut j: usize = 0;
        while j < self.reads.len()
            invariant
                p.wf(),
                j <= self.reads@.len(),
                p.write_set() == w,
                p.read_set() == self.reads@.take(j as int).to_set() - w,
            decreases self.reads@.len() - j,
        {
            p.declare_read(self.reads[j]);
            proof {
                crate::permissions::lemma_take_succ_to_set(self.reads@, j as int);
                assert(p.read_set() =~= self.reads@.take(j + 1).to_set() - w);
            }
            j += 1;
        }
        proof {
            assert(self.reads@.take(self.reads@.len() as int) == self.reads@);
            assert(p.read_set() =~= self.read_seq().to_set() - self.write_seq().to_set());
        }
        p
    }
}

/// The archetype indices of `world` that at least one query in `queries`
/// matches: what a `Filtered` access cache holds right after a refresh.
pub open spec fn spec_matched_indices(queries: Seq<QueryDecl>, world: World) -> Set<usize> {
    Set::new(
        |i: usize|
            i < world.spec_archetypes().len() && exists|q: int|
                0 <= q < queries.len() && #[trigger] queries[q].spec_matches(
                    world.spec_archetypes()[i as int],
                ),
    )
}

} // verus!
