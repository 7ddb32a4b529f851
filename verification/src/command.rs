//! Deferred structural edits.  A unit never changes the world while it
//! runs; it records edits into a buffer scoped to one world, and the
//! command-application collaborator drains that buffer after the stage
//! completes.

use crate::world::World;
use vstd::prelude::*;

verus! {

/// One deferred structural edit, by entity and component type key.
#[derive(Clone, Copy, PartialEq, Eq, Structural, Debug)]
pub enum Edit {
    CreateEntity(u64),
    RemoveEntity(u64),
    SetComponent(u64, u64),
    RemoveComponent(u64, u64),
}

/// An ordered buffer of deferred edits, bound to the identity of the world
/// they were recorded for.
pub struct CommandBuffer {
    world_id: u64,
    edits: Vec<Edit>,
}

impl CommandBuffer {
    /// The identity of the world this buffer belongs to.
    pub closed spec fn spec_world_id(self) -> u64 {
        self.world_id
    }

    /// The recorded edits, oldest first.
    pub closed spec fn spec_edits(self) -> Seq<Edit> {
        self.edits@
    }

    pub fn new(world: &World) -> (r: Self)
        ensures
            r.spec_world_id() == world.spec_id(),
            r.spec_edits() == Seq::<Edit>::empty(),
    {
        CommandBuffer { world_id: world.id(), edits: Vec::new() }
    }

    pub fn world_id(&self) -> (r: u64)
        ensures
            r == self.spec_world_id(),
    {
        self.world_id
    }

    /// Records one edit; nothing is applied until the buffer is drained.
    pub fn push(&mut self, edit: Edit)
        ensures
            final(self).spec_world_id() == old(self).spec_world_id(),
            final(self).spec_edits() == old(self).spec_edits().push(edit),
    {
        self.edits.push(edit);
    }

    pub fn len(&self) -> (r: usize)
        ensures
            r == self.spec_edits().len(),
    {
        self.edits.len()
    }

    pub fn edit_at(&self, i: usize) -> (r: Edit)
        requires
            i < self.spec_edits().len(),
        ensures
            r == self.spec_edits()[i as int],
    {
        self.edits[i]
    }

    /// A copy of the recorded edits, oldest first.
    pub fn copy_edits(&self) -> (r: Vec<Edit>)
        ensures
            r@ == self.spec_edits(),
    {
        let mut out: Vec<Edit> = Vec::new();
        let mut i: usize = 0;
        while i < self.edits.len()
            invariant
                i <= self.edits@.len(),
                out@ == self.edits@.take(i as int),
            decreases self.edits@.len() - i,
        {
            out.push(self.edits[i]);
            proof {
                assert(out@ =~= self.edits@.take(i + 1));
            }
            i += 1;
        }
        proof {
            assert(out@ =~= self.edits@);
        }
        out
    }

    /// An independent buffer with the same world identity and edits.
    pub fn duplicate(&self) -> (r: Self)
        ensures
            r.spec_world_id() == self.spec_world_id(),
            r.spec_edits() == self.spec_edits(),
    {
        CommandBuffer { world_id: self.world_id, edits: self.copy_edits() }
    }

    /// An empty buffer for the same world.
    pub fn cleared(&self) -> (r: Self)
        ensures
            r.spec_world_id() == self.spec_world_id(),
            r.spec_edits() == Seq::<Edit>::empty(),
    {
        CommandBuffer { world_id: self.world_id, edits: Vec::new() }
    }

    /// Hands the recorded edits, in recorded order, to the collaborator
    /// that applies them, leaving the buffer empty.
    pub fn drain(&mut self) -> (r: Vec<Edit>)
        ensures
            r@ == old(self).spec_edits(),
            final(self).spec_world_id() == old(self).spec_world_id(),
            final(self).spec_edits() == Seq::<Edit>::empty(),
    {
        let mut out: Vec<Edit> = Vec::new();
        let mut i: usize = 0;
        while i < self.edits.len()
            invariant
                self == old(self),
                i <= self.edits@.len(),
                out@ == self.edits@.take(i as int),
            decreases self.edits@.len() - i,
        {
            out.push(self.edits[i]);
            proof {
                assert(out@ =~= self.edits@.take(i + 1));
            }
            i += 1;
        }
        proof {
            assert(out@ =~= self.edits@);
        }
        self.edits.clear();
        out
    }
}

} // verus!
