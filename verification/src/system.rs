//! The runtime unit: finalized declarations, the user logic, one-shot
//! lifecycle hooks, and per-world deferred-edit buffers.  The scheduler
//! drives a unit through init, then repeated prepare/run pairs, then
//! dispose.

use crate::archetypes::bitset_elems;
use crate::archetypes::bitset_insert;
use crate::archetypes::bitset_make_empty;
use crate::archetypes::bitset_indices;
use crate::archetypes::ArchetypeAccess;
use crate::command::CommandBuffer;
use crate::command::Edit;
use crate::permissions::sets_conflict;
use crate::permissions::Permissions;
use crate::query::spec_matched_indices;
use crate::query::QueryDecl;
use crate::resources::Hold;
use crate::resources::ResourceDecl;
use crate::resources::Resources;
use crate::subworld::SubWorld;
use crate::world::World;
use vstd::prelude::*;

verus! {

/// The resource and component access a unit has declared, one permission
/// set per keyspace.
pub struct SystemAccess {
    resources: Permissions,
    components: Permissions,
}

impl SystemAccess {
    pub closed spec fn spec_resources(self) -> Permissions {
        self.resources
    }

    pub closed spec fn spec_components(self) -> Permissions {
        self.components
    }

    pub open spec fn wf(self) -> bool {
        self.spec_resources().wf() && self.spec_components().wf()
    }

    pub fn new(resources: Permissions, components: Permissions) -> (r: Self)
        ensures
            r.spec_resources() == resources,
            r.spec_components() == components,
    {
        SystemAccess { resources, components }
    }

    /// The resource keyspace permissions.
    pub fn resources(&self) -> (r: &Permissions)
        ensures
            *r == self.spec_resources(),
    {
        &self.resources
    }

    /// The component keyspace permissions.
    pub fn components(&self) -> (r: &Permissions)
        ensures
            *r == self.spec_components(),
    {
        &self.components
    }

    /// The scheduler's test: two units conflict when either keyspace
    /// conflicts.
    pub fn conflicts_with(&self, other: &SystemAccess) -> (r: bool)
        ensures
            r == (sets_conflict(
                self.spec_resources().read_set(),
                self.spec_resources().write_set(),
                other.spec_resources().read_set(),
                other.spec_resources().write_set(),
            ) || sets_conflict(
                self.spec_components().read_set(),
                self.spec_components().write_set(),
                other.spec_components().read_set(),
                other.spec_components().write_set(),
            )),
    {
        self.resources.conflicts_with(&other.resources) || self.components.conflicts_with(
            &other.components,
        )
    }
}

/// A diagnostic identifier for a unit; it plays no correctness role.
#[derive(Clone, Debug)]
pub struct SystemId {
    name: String,
}

impl SystemId {
    pub closed spec fn spec_name(self) -> Seq<char> {
        self.name@
    }

    /// The unit's display name.
    pub fn name(&self) -> (r: &String)
        ensures
            r@ == self.spec_name(),
    {
        &self.name
    }
}

impl From<String> for SystemId {
    fn from(name: String) -> (r: SystemId) {
        SystemId { name }
    }
}

impl vstd::std_specs::convert::FromSpecImpl<String> for SystemId {
    open spec fn obeys_from_spec() -> bool {
        true
    }

    closed spec fn from_spec(name: String) -> SystemId {
        SystemId { name }
    }
}

/// An identifier made from a name carries exactly that name.
pub proof fn lemma_system_id_from(name: String)
    ensures
        (<SystemId as vstd::std_specs::convert::FromSpec<String>>::from_spec(
            name,
        )).spec_name() == name@,
{
}

/// The body of a unit: the scheduler invokes it through `System::run`,
/// handing it the deferred-edit buffer for the current world, the
/// restricted world view, the fetched resource values in declaration
/// order, and the cached query declarations in declaration order.
///
/// The spec functions are ghost observations of the invocation history:
/// how often the logic has executed, and what the latest execution was
/// handed and left behind.  `run`'s contract keeps them current, so the
/// contract of `System::run` can state that the logic executed exactly
/// once per successful run, with exactly the declared arguments.  An
/// implementation verified with Verus overrides them with ghost state of
/// its own; the defaults merely describe a body that has never run.
///
/// The logic records edits into the buffer it was given; the buffer stays
/// bound to the world the run was scoped to.
pub trait SystemFn: Sized {
    /// How often the logic has executed.
    open spec fn spec_calls(self) -> nat {
        0
    }

    /// The identity of the world whose edit channel the latest execution
    /// was handed.
    open spec fn spec_last_world_id(self) -> u64 {
        0
    }

    /// The edits already in the channel when the latest execution began.
    open spec fn spec_last_commands_in(self) -> Seq<Edit> {
        Seq::empty()
    }

    /// The edits in the channel when the latest execution returned.
    open spec fn spec_last_commands(self) -> Seq<Edit> {
        Seq::empty()
    }

    /// The restricted world view the latest execution was handed.
    open spec fn spec_last_view(self) -> SubWorld {
        vstd::pervasive::arbitrary()
    }

    /// The fetched resource values the latest execution was handed, in
    /// declaration order.
    open spec fn spec_last_resources_in(self) -> Seq<u64> {
        Seq::empty()
    }

    /// The resource values as the latest execution left them.
    open spec fn spec_last_resources_out(self) -> Seq<u64> {
        Seq::empty()
    }

    /// The query declarations the latest execution was handed.
    open spec fn spec_last_queries(self) -> Seq<QueryDecl> {
        Seq::empty()
    }

    fn run(
        &mut self,
        commands: &mut CommandBuffer,
        world: &mut SubWorld,
        resources: &mut Vec<u64>,
        queries: &Vec<QueryDecl>,
    )
        ensures
            final(self).spec_calls() == old(self).spec_calls() + 1,
            final(self).spec_last_world_id() == old(commands).spec_world_id(),
            final(self).spec_last_commands_in() == old(commands).spec_edits(),
            final(self).spec_last_commands() == final(commands).spec_edits(),
            final(self).spec_last_view() == *old(world),
            final(self).spec_last_resources_in() == old(resources)@,
            final(self).spec_last_resources_out() == final(resources)@,
            final(self).spec_last_queries() == queries@,
            final(commands).spec_world_id() == old(commands).spec_world_id(),
    ;
}

/// A one-shot lifecycle hook with exclusive access to the world and the
/// resource store; consumed on first invocation.
pub trait LifecycleFn: Sized {
    fn call_once(self, world: &mut World, resources: &mut Resources);
}

/// The absent hook.
pub struct NoHook;

impl LifecycleFn for NoHook {
    fn call_once(self, _world: &mut World, _resources: &mut Resources) {
    }
}

/// Why a `run` was aborted at the fetch step.
#[derive(Clone, Copy, PartialEq, Eq, Structural, Debug)]
pub enum RunError {
    /// A declared resource is not in the store.
    MissingResource(u64),
    /// The store cannot satisfy the declared access mode: the resource is
    /// held in a way that excludes it.
    ResourceHeld(u64),
}

/// The first fetch violation among the declarations from position `i` on,
/// if any: a missing resource, a write against a resource not free, or a
/// read against a resource held exclusively.
pub open spec fn fetch_error_from(decls: Seq<ResourceDecl>, res: Resources, i: int) -> Option<
    RunError,
>
    decreases decls.len() - i when 0 <= i <= decls.len()
{
    if i >= decls.len() {
        None
    } else {
        let d = decls[i];
        if !res.contains_key(d.key) {
            Some(RunError::MissingResource(d.key))
        } else if d.write && !(res.hold_of(d.key) is Free) {
            Some(RunError::ResourceHeld(d.key))
        } else if !d.write && res.hold_of(d.key) is Exclusive {
            Some(RunError::ResourceHeld(d.key))
        } else {
            fetch_error_from(decls, res, i + 1)
        }
    }
}

/// The first fetch violation of a declaration list against a store.
pub open spec fn spec_fetch_error(decls: Seq<ResourceDecl>, res: Resources) -> Option<RunError> {
    fetch_error_from(decls, res, 0)
}

/// Whether the store can satisfy one declaration in its declared mode.
pub open spec fn decl_satisfied(res: Resources, d: ResourceDecl) -> bool {
    &&& res.contains_key(d.key)
    &&& d.write ==> res.hold_of(d.key) is Free
    &&& !d.write ==> !(res.hold_of(d.key) is Exclusive)
}

/// The scan reports no violation exactly when every declaration from `i`
/// on is satisfied.
proof fn lemma_fetch_error_none_iff(decls: Seq<ResourceDecl>, res: Resources, i: int)
    requires
        0 <= i <= decls.len(),
    ensures
        (fetch_error_from(decls, res, i) is None) <==> (forall|j: int|
            i <= j < decls.len() ==> decl_satisfied(res, #[trigger] decls[j])),
    decreases decls.len() - i,
{
    if i < decls.len() {
        lemma_fetch_error_none_iff(decls, res, i + 1);
    }
}

/// The value under `k` after the first `n` declarations have written the
/// bundle back: the bundle value at the last write declaration of `k` that
/// the bundle still covers, or `orig` when there is none.
pub open spec fn written_from(
    decls: Seq<ResourceDecl>,
    out: Seq<u64>,
    k: u64,
    orig: u64,
    n: int,
) -> u64
    decreases n when 0 <= n <= decls.len()
{
    if n <= 0 {
        orig
    } else if decls[n - 1].write && n - 1 < out.len() && decls[n - 1].key == k {
        out[n - 1]
    } else {
        written_from(decls, out, k, orig, n - 1)
    }
}

/// The value under `k` after a full write-back of bundle `out` against the
/// declaration list.
pub open spec fn written_value(decls: Seq<ResourceDecl>, out: Seq<u64>, k: u64, orig: u64) -> u64 {
    written_from(decls, out, k, orig, decls.len() as int)
}

/// A fetch that reports no violation has every declared resource present.
proof fn lemma_fetch_ok_present(decls: Seq<ResourceDecl>, res: Resources, i: int)
    requires
        0 <= i <= decls.len(),
        fetch_error_from(decls, res, i) is None,
    ensures
        forall|j: int| i <= j < decls.len() ==> res.contains_key((#[trigger] decls[j]).key),
    decreases decls.len() - i,
{
    if i < decls.len() {
        lemma_fetch_ok_present(decls, res, i + 1);
    }
}

/// The edits buffered for world `id`, scanning the buffer list from
/// position `i`.
pub open spec fn find_buffer_from(s: Seq<CommandBuffer>, id: u64, i: int) -> Option<Seq<Edit>>
    decreases s.len() - i when 0 <= i <= s.len()
{
    if i >= s.len() {
        None
    } else if s[i].spec_world_id() == id {
        Some(s[i].spec_edits())
    } else {
        find_buffer_from(s, id, i + 1)
    }
}

/// The edits a unit has buffered for world `id`, if it ever ran there.
pub open spec fn spec_buffer(s: Seq<CommandBuffer>, id: u64) -> Option<Seq<Edit>> {
    find_buffer_from(s, id, 0)
}

proof fn lemma_buffer_update(s: Seq<CommandBuffer>, i: int, b: CommandBuffer, id: u64, j: int)
    requires
        0 <= j <= s.len(),
        0 <= i < s.len(),
        b.spec_world_id() == s[i].spec_world_id(),
        forall|p: int|
            0 <= p < s.len() && p != i ==> (#[trigger] s[p]).spec_world_id()
                != s[i].spec_world_id(),
    ensures
        find_buffer_from(s.update(i, b), id, j) == if id == b.spec_world_id() && j <= i {
            Some(b.spec_edits())
        } else {
            find_buffer_from(s, id, j)
        },
    decreases s.len() - j,
{
    if j < s.len() {
        lemma_buffer_update(s, i, b, id, j + 1);
    }
}

proof fn lemma_buffer_push(s: Seq<CommandBuffer>, b: CommandBuffer, id: u64, j: int)
    requires
        0 <= j <= s.len(),
    ensures
        find_buffer_from(s.push(b), id, j) == if find_buffer_from(s, id, j) is Some {
            find_buffer_from(s, id, j)
        } else if id == b.spec_world_id() {
            Some(b.spec_edits())
        } else {
            None
        },
    decreases s.len() - j,
{
    assert(s.push(b)[s.len() as int] == b);
    if j < s.len() {
        assert(s.push(b)[j] == s[j]);
        lemma_buffer_push(s, b, id, j + 1);
    }
}

/// One lifecycle entry: if the hook is still pending it runs, once.
pub open spec fn lifecycle_step(pending: bool, runs: nat) -> (bool, nat) {
    if pending {
        (false, (runs + 1) as nat)
    } else {
        (pending, runs)
    }
}

/// `n` lifecycle entries in a row.
pub open spec fn lifecycle_steps(n: nat, pending: bool, runs: nat) -> (bool, nat)
    decreases n,
{
    if n == 0 {
        (pending, runs)
    } else {
        let (p, r) = lifecycle_steps((n - 1) as nat, pending, runs);
        lifecycle_step(p, r)
    }
}

/// Law: entering the lifecycle entry point any positive number of times
/// executes the hook exactly once when one was set, and never otherwise.
pub proof fn lemma_hook_runs_exactly_once(n: nat, pending: bool)
    requires
        n >= 1,
    ensures
        lifecycle_steps(n, pending, 0) == (false, if pending {
            1nat
        } else {
            0nat
        }),
    decreases n,
{
    if n == 1 {
        assert(lifecycle_steps(0, pending, 0) == (pending, 0nat));
        assert(lifecycle_steps(1, pending, 0) == lifecycle_step(pending, 0));
    } else {
        lemma_hook_runs_exactly_once((n - 1) as nat, pending);
        assert(lifecycle_steps(n, pending, 0) == lifecycle_step(false, if pending {
            1nat
        } else {
            0nat
        }));
    }
}

/// Archetype indices matched after the first `qn` queries were fully
/// resolved and query `qn` was resolved against the first `an` archetypes.
pub open spec fn matched_upto(queries: Seq<QueryDecl>, world: World, qn: int, an: int) -> Set<
    usize,
> {
    Set::new(
        |x: usize|
            x < world.spec_archetypes().len() && ((exists|q: int|
                0 <= q < qn && #[trigger] queries[q].spec_matches(
                    world.spec_archetypes()[x as int],
                )) || (0 <= qn < queries.len() && x < an && queries[qn].spec_matches(
                world.spec_archetypes()[x as int],
            ))),
    )
}

/// The unit a builder finalizes into: immutable declarations, the user
/// logic, at-most-once lifecycle hooks, and one deferred-edit buffer per
/// world the unit has run against.
pub struct System<F, I, D> {
    name: SystemId,
    queries: Vec<QueryDecl>,
    resource_decls: Vec<ResourceDecl>,
    run_fn: F,
    init_fn: Option<I>,
    dispose_fn: Option<D>,
    archetypes: ArchetypeAccess,
    access: SystemAccess,
    buffers: Vec<CommandBuffer>,
    init_runs: Ghost<nat>,
    dispose_runs: Ghost<nat>,
}

impl<F: SystemFn, I: LifecycleFn, D: LifecycleFn> System<F, I, D> {
    pub closed spec fn spec_name(self) -> SystemId {
        self.name
    }

    pub closed spec fn spec_queries(self) -> Seq<QueryDecl> {
        self.queries@
    }

    pub closed spec fn spec_resource_decls(self) -> Seq<ResourceDecl> {
        self.resource_decls@
    }

    pub closed spec fn spec_access(self) -> SystemAccess {
        self.access
    }

    pub closed spec fn spec_archetype_access(self) -> ArchetypeAccess {
        self.archetypes
    }

    pub closed spec fn spec_buffers(self) -> Seq<CommandBuffer> {
        self.buffers@
    }

    /// The user logic, with its ghost invocation history.
    pub closed spec fn spec_logic(self) -> F {
        self.run_fn
    }

    /// How often the user logic has executed.
    pub open spec fn spec_run_calls(self) -> nat {
        self.spec_logic().spec_calls()
    }

    /// Whether the init hook has not run yet.
    pub closed spec fn spec_init_pending(self) -> bool {
        self.init_fn is Some
    }

    /// How often the init hook has executed.
    pub closed spec fn spec_init_runs(self) -> nat {
        self.init_runs@
    }

    pub closed spec fn spec_dispose_pending(self) -> bool {
        self.dispose_fn is Some
    }

    pub closed spec fn spec_dispose_runs(self) -> nat {
        self.dispose_runs@
    }

    /// Validity: permissions well formed, every resource declaration
    /// covered by the resource permission set, one buffer per world, and
    /// each hook pending only while it has never run.
    pub closed spec fn wf(self) -> bool {
        &&& self.access.wf()
        &&& forall|i: int|
            0 <= i < self.resource_decls@.len() ==> {
                let d = #[trigger] self.resource_decls@[i];
                if d.write {
                    self.access.spec_resources().write_set().contains(d.key)
                } else {
                    self.access.spec_resources().read_set().contains(d.key)
                        || self.access.spec_resources().write_set().contains(d.key)
                }
            }
        &&& forall|p: int, q: int|
            0 <= p < self.buffers@.len() && 0 <= q < self.buffers@.len() && p != q ==> (
            #[trigger] self.buffers@[p]).spec_world_id() != (
            #[trigger] self.buffers@[q]).spec_world_id()
        &&& (self.init_fn is Some ==> self.init_runs@ == 0)
        &&& self.init_runs@ <= 1
        &&& (self.dispose_fn is Some ==> self.dispose_runs@ == 0)
        &&& self.dispose_runs@ <= 1
    }

    /// Used by the builder alone.
    pub(crate) fn assemble(
        name: SystemId,
        queries: Vec<QueryDecl>,
        resource_decls: Vec<ResourceDecl>,
        run_fn: F,
        init_fn: Option<I>,
        dispose_fn: Option<D>,
        archetypes: ArchetypeAccess,
        access: SystemAccess,
    ) -> (r: Self)
        requires
            access.wf(),
            forall|i: int|
                0 <= i < resource_decls@.len() ==> {
                    let d = #[trigger] resource_decls@[i];
                    if d.write {
                        access.spec_resources().write_set().contains(d.key)
                    } else {
                        access.spec_resources().read_set().contains(d.key)
                            || access.spec_resources().write_set().contains(d.key)
                    }
                },
        ensures
            r.wf(),
            r.spec_name() == name,
            r.spec_queries() == queries@,
            r.spec_resource_decls() == resource_decls@,
            r.spec_access() == access,
            r.spec_archetype_access() == archetypes,
            r.spec_buffers() == Seq::<CommandBuffer>::empty(),
            r.spec_init_pending() == (init_fn is Some),
            r.spec_dispose_pending() == (dispose_fn is Some),
            r.spec_init_runs() == 0,
            r.spec_dispose_runs() == 0,
    {
        System {
            name,
            queries,
            resource_decls,
            run_fn,
            init_fn,
            dispose_fn,
            archetypes,
            access,
            buffers: Vec::new(),
            init_runs: Ghost(0),
            dispose_runs: Ghost(0),
        }
    }

    /// The unit's diagnostic identifier.
    pub fn name(&self) -> (r: &SystemId)
        ensures
            *r == self.spec_name(),
    {
        &self.name
    }

    /// The declared read keys: resources first, components second.
    pub fn reads(&self) -> (r: (&Vec<u64>, &Vec<u64>))
        ensures
            r.0@.to_set() == self.spec_access().spec_resources().read_set(),
            r.1@.to_set() == self.spec_access().spec_components().read_set(),
    {
        (self.access.resources().reads(), self.access.components().reads())
    }

    /// The declared write keys: resources first, components second.
    pub fn writes(&self) -> (r: (&Vec<u64>, &Vec<u64>))
        ensures
            r.0@.to_set() == self.spec_access().spec_resources().write_set(),
            r.1@.to_set() == self.spec_access().spec_components().write_set(),
    {
        (self.access.resources().writes(), self.access.components().writes())
    }

    /// The full declared access, for the scheduler's conflict graph.
    pub fn access(&self) -> (r: &SystemAccess)
        ensures
            *r == self.spec_access(),
    {
        &self.access
    }

    /// The unit's current archetype-access state.
    pub fn accesses_archetypes(&self) -> (r: &ArchetypeAccess)
        ensures
            *r == self.spec_archetype_access(),
    {
        &self.archetypes
    }

    pub fn has_init_hook(&self) -> (r: bool)
        ensures
            r == self.spec_init_pending(),
    {
        self.init_fn.is_some()
    }

    pub fn has_dispose_hook(&self) -> (r: bool)
        ensures
            r == self.spec_dispose_pending(),
    {
        self.dispose_fn.is_some()
    }

    /// Runs the init hook exactly once across any number of calls.
    pub fn init(&mut self, world: &mut World, resources: &mut Resources)
        requires
            old(self).wf(),
        ensures
            final(self).wf(),
            (final(self).spec_init_pending(), final(self).spec_init_runs()) == lifecycle_step(
                old(self).spec_init_pending(),
                old(self).spec_init_runs(),
            ),
            !final(self).spec_init_pending(),
            final(self).spec_name() == old(self).spec_name(),
            final(self).spec_queries() == old(self).spec_queries(),
            final(self).spec_resource_decls() == old(self).spec_resource_decls(),
            final(self).spec_access() == old(self).spec_access(),
            final(self).spec_archetype_access() == old(self).spec_archetype_access(),
            final(self).spec_buffers() == old(self).spec_buffers(),
            final(self).spec_dispose_pending() == old(self).spec_dispose_pending(),
            final(self).spec_dispose_runs() == old(self).spec_dispose_runs(),
            final(self).spec_run_calls() == old(self).spec_run_calls(),
            !old(self).spec_init_pending() ==> *final(world) == *old(world) && *final(resources)
                == *old(resources),
    {
        let hook = self.init_fn.take();
        match hook {
            Some(h) => {
                self.init_runs = Ghost(self.init_runs@ + 1);
                h.call_once(world, resources);
            },
            None => {},
        }
    }

    /// Runs the dispose hook exactly once across any number of calls.
    pub fn dispose(&mut self, world: &mut World, resources: &mut Resources)
        requires
            old(self).wf(),
        ensures
            final(self).wf(),
            (final(self).spec_dispose_pending(), final(self).spec_dispose_runs())
                == lifecycle_step(
                old(self).spec_dispose_pending(),
                old(self).spec_dispose_runs(),
            ),
            !final(self).spec_dispose_pending(),
            final(self).spec_name() == old(self).spec_name(),
            final(self).spec_queries() == old(self).spec_queries(),
            final(self).spec_resource_decls() == old(self).spec_resource_decls(),
            final(self).spec_access() == old(self).spec_access(),
            final(self).spec_archetype_access() == old(self).spec_archetype_access(),
            final(self).spec_buffers() == old(self).spec_buffers(),
            final(self).spec_init_pending() == old(self).spec_init_pending(),
            final(self).spec_init_runs() == old(self).spec_init_runs(),
            final(self).spec_run_calls() == old(self).spec_run_calls(),
            !old(self).spec_dispose_pending() ==> *final(world) == *old(world) && *final(resources)
                == *old(resources),
    {
        let hook = self.dispose_fn.take();
        match hook {
            Some(h) => {
                self.dispose_runs = Ghost(self.dispose_runs@ + 1);
                h.call_once(world, resources);
            },
            None => {},
        }
    }

    /// The per-tick refresh of the archetype-access cache: a no-op for an
    /// `All` unit; for a `Filtered` unit the cache is cleared and replaced
    /// with exactly the union of the declared queries' current matches.
    pub fn prepare(&mut self, world: &World)
        requires
            old(self).wf(),
        ensures
            final(self).wf(),
            old(self).spec_archetype_access() is All ==> *final(self) == *old(self),
            old(self).spec_archetype_access() is Filtered ==> final(self).spec_archetype_access()
                is Filtered && final(self).spec_archetype_access().spec_cached()
                == spec_matched_indices(old(self).spec_queries(), *world),
            final(self).spec_name() == old(self).spec_name(),
            final(self).spec_queries() == old(self).spec_queries(),
            final(self).spec_resource_decls() == old(self).spec_resource_decls(),
            final(self).spec_access() == old(self).spec_access(),
            final(self).spec_buffers() == old(self).spec_buffers(),
            final(self).spec_init_pending() == old(self).spec_init_pending(),
            final(self).spec_init_runs() == old(self).spec_init_runs(),
            final(self).spec_dispose_pending() == old(self).spec_dispose_pending(),
            final(self).spec_dispose_runs() == old(self).spec_dispose_runs(),
            final(self).spec_run_calls() == old(self).spec_run_calls(),
    {
        let mut acc = ArchetypeAccess::All;
        core::mem::swap(&mut acc, &mut self.archetypes);
        match acc {
            ArchetypeAccess::All => {
                self.archetypes = ArchetypeAccess::All;
            },
            ArchetypeAccess::Filtered(mut bs) => {
                bitset_make_empty(&mut bs);
                let n = world.archetype_count();
                let mut qi: usize = 0;
                proof {
                    assert(bitset_elems(bs) =~= matched_upto(self.queries@, *world, 0, 0));
                }
                while qi < self.queries.len()
                    invariant
                        qi <= self.queries@.len(),
                        n == world.spec_archetypes().len(),
                        bitset_elems(bs) == matched_upto(self.queries@, *world, qi as int, 0),
                    decreases self.queries@.len() - qi,
                {
                    let mut ai: usize = 0;
                    while ai < n
                        invariant
                            qi < self.queries@.len(),
                            ai <= n,
                            n == world.spec_archetypes().len(),
                            bitset_elems(bs) == matched_upto(
                                self.queries@,
                                *world,
                                qi as int,
                                ai as int,
                            ),
                        decreases n - ai,
                    {
                        let q = &self.queries[qi];
                        if q.matches(world.archetype(ai)) {
                            bitset_insert(&mut bs, ai);
                            proof {
                                assert(bitset_elems(bs) =~= matched_upto(
                                    self.queries@,
                                    *world,
                                    qi as int,
                                    ai + 1,
                                ));
                            }
                        } else {
                            proof {
                                assert(bitset_elems(bs) =~= matched_upto(
                                    self.queries@,
                                    *world,
                                    qi as int,
                                    ai + 1,
                                ));
                            }
                        }
                        ai += 1;
                    }
                    proof {
                        assert(matched_upto(self.queries@, *world, qi as int, n as int)
                            =~= matched_upto(self.queries@, *world, qi + 1, 0)) by {
                            assert forall|x: usize|
                                matched_upto(self.queries@, *world, qi + 1, 0).contains(
                                    x,
                                ) implies matched_upto(
                                self.queries@,
                                *world,
                                qi as int,
                                n as int,
                            ).contains(x) by {
                                let q0 = choose|q0: int|
                                    0 <= q0 < qi + 1 && #[trigger] self.queries@[q0].spec_matches(
                                        world.spec_archetypes()[x as int],
                                    );
                                if q0 < qi {
                                    assert(matched_upto(
                                        self.queries@,
                                        *world,
                                        qi as int,
                                        n as int,
                                    ).contains(x));
                                }
                            }
                        }
                    }
                    qi += 1;
                }
                proof {
                    assert(matched_upto(self.queries@, *world, self.queries@.len() as int, 0)
                        =~= spec_matched_indices(self.queries@, *world));
                }
                self.archetypes = ArchetypeAccess::Filtered(bs);
            },
        }
    }

    /// The edits this unit has buffered for the world with identity
    /// `world_id`, in recorded order, without draining them.
    pub fn buffered_edits(&self, world_id: u64) -> (r: Option<Vec<Edit>>)
        ensures
            match r {
                Some(v) => spec_buffer(self.spec_buffers(), world_id) == Some(v@),
                None => spec_buffer(self.spec_buffers(), world_id) is None,
            },
    {
        match find_buffer_index(&self.buffers, world_id) {
            Some(i) => Some(self.buffers[i].copy_edits()),
            None => None,
        }
    }

    /// Drains the buffer this unit keeps for world `world_id`, handing the
    /// recorded edits to the command-application collaborator.
    pub fn drain_command_buffer(&mut self, world_id: u64) -> (r: Option<Vec<Edit>>)
        requires
            old(self).wf(),
        ensures
            final(self).wf(),
            match r {
                Some(v) => spec_buffer(old(self).spec_buffers(), world_id) == Some(v@)
                    && spec_buffer(final(self).spec_buffers(), world_id) == Some(
                    Seq::<Edit>::empty(),
                ),
                None => spec_buffer(old(self).spec_buffers(), world_id) is None && *final(self)
                    == *old(self),
            },
            forall|id: u64|
                id != world_id ==> #[trigger] spec_buffer(final(self).spec_buffers(), id)
                    == spec_buffer(old(self).spec_buffers(), id),
            final(self).spec_name() == old(self).spec_name(),
            final(self).spec_queries() == old(self).spec_queries(),
            final(self).spec_resource_decls() == old(self).spec_resource_decls(),
            final(self).spec_access() == old(self).spec_access(),
            final(self).spec_archetype_access() == old(self).spec_archetype_access(),
            final(self).spec_init_pending() == old(self).spec_init_pending(),
            final(self).spec_init_runs() == old(self).spec_init_runs(),
            final(self).spec_dispose_pending() == old(self).spec_dispose_pending(),
            final(self).spec_dispose_runs() == old(self).spec_dispose_runs(),
            final(self).spec_run_calls() == old(self).spec_run_calls(),
    {
        match find_buffer_index(&self.buffers, world_id) {
            Some(i) => {
                let ghost pre = self.buffers@;
                let edits = self.buffers[i].copy_edits();
                let emptied = self.buffers[i].cleared();
                self.buffers.set(i, emptied);
                proof {
                    assert forall|id: u64| true implies find_buffer_from(self.buffers@, id, 0)
                        == if id == world_id {
                        Some(Seq::<Edit>::empty())
                    } else {
                        find_buffer_from(pre, id, 0)
                    } by {
                        lemma_buffer_update(pre, i as int, self.buffers@[i as int], id, 0);
                    }
                }
                Some(edits)
            },
            None => None,
        }
    }

    /// One tick's execution: fetch the declared resources (failing loudly
    /// when the store cannot satisfy a declared access mode), restrict the
    /// world view to the declared component permissions and cached
    /// archetypes, resolve the edit buffer scoped to this world (created on
    /// first use), invoke the logic once with buffer, view, fetched values
    /// and queries in declaration order, and defer the recorded edits.
    ///
    /// On success the store changes only at declared resource write keys;
    /// buffers of every other world are untouched.
    pub fn run(&mut self, world: &World, resources: &mut Resources) -> (r: Result<(), RunError>)
        requires
            old(self).wf(),
            old(resources).wf(),
        ensures
            final(self).wf(),
            final(resources).wf(),
            r is Err <==> spec_fetch_error(old(self).spec_resource_decls(), *old(resources))
                is Some,
            r is Ok <==> (forall|j: int|
                0 <= j < old(self).spec_resource_decls().len() ==> decl_satisfied(
                    *old(resources),
                    #[trigger] old(self).spec_resource_decls()[j],
                )),
            r is Err ==> r->Err_0 == spec_fetch_error(
                old(self).spec_resource_decls(),
                *old(resources),
            )->Some_0 && *final(self) == *old(self) && *final(resources) == *old(resources),
            forall|k: u64| #[trigger]
                final(resources).contains_key(k) == old(resources).contains_key(k),
            forall|k: u64|
                old(resources).contains_key(k) ==> #[trigger] final(resources).hold_of(k) == old(
                    resources,
                ).hold_of(k),
            forall|k: u64|
                old(resources).contains_key(k) && !old(self).spec_access().spec_resources().write_set().contains(k)
                    ==> #[trigger] final(resources).value_of(k) == old(resources).value_of(k),
            forall|id: u64|
                id != world.spec_id() ==> #[trigger] spec_buffer(final(self).spec_buffers(), id)
                    == spec_buffer(old(self).spec_buffers(), id),
            r is Ok ==> final(self).spec_run_calls() == old(self).spec_run_calls() + 1,
            r is Err ==> final(self).spec_run_calls() == old(self).spec_run_calls(),
            r is Ok ==> final(self).spec_logic().spec_last_queries() == old(self).spec_queries(),
            r is Ok ==> final(self).spec_logic().spec_last_world_id() == world.spec_id(),
            r is Ok ==> final(self).spec_logic().spec_last_commands_in() == (
            match spec_buffer(old(self).spec_buffers(), world.spec_id()) {
                Some(e) => e,
                None => Seq::<Edit>::empty(),
            }),
            r is Ok ==> spec_buffer(final(self).spec_buffers(), world.spec_id()) == Some(
                final(self).spec_logic().spec_last_commands(),
            ),
            r is Ok && spec_buffer(old(self).spec_buffers(), world.spec_id()) is Some ==> final(self).spec_buffers().len() == old(self).spec_buffers().len(),
            r is Ok && spec_buffer(old(self).spec_buffers(), world.spec_id()) is None ==> final(self).spec_buffers().len() == old(self).spec_buffers().len() + 1,
            r is Ok ==> final(self).spec_logic().spec_last_resources_in() == Seq::new(
                old(self).spec_resource_decls().len(),
                |j: int| old(resources).value_of(old(self).spec_resource_decls()[j].key),
            ),
            r is Ok ==> final(self).spec_logic().spec_last_view().spec_readable() == old(self).spec_access().spec_components().read_set() + old(self).spec_access().spec_components().write_set(),
            r is Ok ==> final(self).spec_logic().spec_last_view().spec_writable() == old(self).spec_access().spec_components().write_set(),
            r is Ok && old(self).spec_archetype_access() is All ==> final(self).spec_logic().spec_last_view().spec_filter() is None,
            r is Ok && old(self).spec_archetype_access() is Filtered ==> final(self).spec_logic().spec_last_view().spec_filter() is Some && (forall|x: usize|
                final(self).spec_logic().spec_last_view().spec_filter()->Some_0.contains(x)
                    <==> old(self).spec_archetype_access().spec_cached().contains(x)),
            r is Ok ==> (forall|k: u64|
                old(resources).contains_key(k) ==> #[trigger] final(resources).value_of(k)
                    == written_value(
                    old(self).spec_resource_decls(),
                    final(self).spec_logic().spec_last_resources_out(),
                    k,
                    old(resources).value_of(k),
                )),
            r is Ok ==> spec_buffer(final(self).spec_buffers(), world.spec_id()) is Some,
            final(self).spec_name() == old(self).spec_name(),
            final(self).spec_queries() == old(self).spec_queries(),
            final(self).spec_resource_decls() == old(self).spec_resource_decls(),
            final(self).spec_access() == old(self).spec_access(),
            final(self).spec_archetype_access() == old(self).spec_archetype_access(),
            final(self).spec_init_pending() == old(self).spec_init_pending(),
            final(self).spec_init_runs() == old(self).spec_init_runs(),
            final(self).spec_dispose_pending() == old(self).spec_dispose_pending(),
            final(self).spec_dispose_runs() == old(self).spec_dispose_runs(),
    {
        let ghost decls = self.resource_decls@;
        let mut bundle: Vec<u64> = Vec::new();
        let mut i: usize = 0;
        while i < self.resource_decls.len()
            invariant
                self == old(self),
                resources == old(resources),
                self.wf(),
                i <= decls.len(),
                decls == self.resource_decls@,
                bundle@.len() == i,
                resources.wf(),
                forall|j: int|
                    0 <= j < i ==> resources.contains_key((#[trigger] decls[j]).key)
                        && bundle@[j] == resources.value_of(decls[j].key),
                fetch_error_from(decls, *resources, 0) == fetch_error_from(
                    decls,
                    *resources,
                    i as int,
                ),
            decreases decls.len() - i,
        {
            let d = self.resource_decls[i];
            match resources.get_hold(d.key) {
                None => {
                    proof {
                        assert(fetch_error_from(decls, *resources, i as int) == Some(
                            RunError::MissingResource(d.key),
                        ));
                        lemma_fetch_error_none_iff(decls, *resources, 0);
                    }
                    return Err(RunError::MissingResource(d.key));
                },
                Some(h) => {
                    let denied = if d.write {
                        !matches!(h, Hold::Free)
                    } else {
                        matches!(h, Hold::Exclusive)
                    };
                    if denied {
                        proof {
                            assert(fetch_error_from(decls, *resources, i as int) == Some(
                                RunError::ResourceHeld(d.key),
                            ));
                            lemma_fetch_error_none_iff(decls, *resources, 0);
                        }
                        return Err(RunError::ResourceHeld(d.key));
                    }
                    match resources.get(d.key) {
                        Some(v) => {
                            bundle.push(v);
                        },
                        None => {
                            proof {
                                assert(false);
                            }
                        },
                    }
                },
            }
            i += 1;
        }
        proof {
            assert(fetch_error_from(decls, *resources, decls.len() as int) is None);
            assert(spec_fetch_error(decls, *resources) is None);
            lemma_fetch_ok_present(decls, *resources, 0);
            lemma_fetch_error_none_iff(decls, *resources, 0);
        }
        let filter: Option<Vec<usize>> = match &self.archetypes {
            ArchetypeAccess::All => None,
            ArchetypeAccess::Filtered(b) => Some(bitset_indices(b)),
        };
        let mut view = SubWorld::new(self.access.components().duplicate(), filter);
        proof {
            assert(bundle@ =~= Seq::new(
                decls.len(),
                |j: int| old(resources).value_of(decls[j].key),
            ));
            if self.archetypes is Filtered {
                assert(view.spec_filter() is Some);
            } else {
                assert(view.spec_filter() is None);
            }
        }
        let wid = world.id();
        let ghost pre_buffers = self.buffers@;
        let found = find_buffer_index(&self.buffers, wid);
        let mut cmd: CommandBuffer = match found {
            Some(bi) => self.buffers[bi].duplicate(),
            None => CommandBuffer::new(world),
        };
        self.run_fn.run(&mut cmd, &mut view, &mut bundle, &self.queries);
        let ghost out_g = bundle@;
        match found {
            Some(bi) => {
                self.buffers.set(bi, cmd);
                proof {
                    assert forall|id: u64| true implies find_buffer_from(self.buffers@, id, 0)
                        == if id == wid {
                        Some(self.buffers@[bi as int].spec_edits())
                    } else {
                        find_buffer_from(pre_buffers, id, 0)
                    } by {
                        lemma_buffer_update(pre_buffers, bi as int, self.buffers@[bi as int], id, 0);
                    }
                }
            },
            None => {
                self.buffers.push(cmd);
                proof {
                    assert forall|id: u64| true implies find_buffer_from(self.buffers@, id, 0)
                        == if find_buffer_from(pre_buffers, id, 0) is Some {
                        find_buffer_from(pre_buffers, id, 0)
                    } else if id == wid {
                        Some(self.buffers@.last().spec_edits())
                    } else {
                        None
                    } by {
                        lemma_buffer_push(pre_buffers, self.buffers@.last(), id, 0);
                    }
                    assert forall|p: int, q: int|
                        0 <= p < self.buffers@.len() && 0 <= q < self.buffers@.len() && p
                            != q implies (#[trigger] self.buffers@[p]).spec_world_id() != (
                    #[trigger] self.buffers@[q]).spec_world_id() by {
                        if q == pre_buffers.len() {
                            if self.buffers@[p].spec_world_id() == wid {
                                lemma_buffer_present(pre_buffers, wid, p);
                            }
                        } else if p == pre_buffers.len() {
                            if self.buffers@[q].spec_world_id() == wid {
                                lemma_buffer_present(pre_buffers, wid, q);
                            }
                        }
                    }
                }
            },
        }
        let ghost mid_res = *resources;
        let mut j: usize = 0;
        while j < self.resource_decls.len()
            invariant
                j <= decls.len(),
                decls == self.resource_decls@,
                self.wf(),
                decls == self.spec_resource_decls(),
                resources.wf(),
                forall|k: u64| #[trigger] resources.contains_key(k) == mid_res.contains_key(k),
                forall|k: u64|
                    mid_res.contains_key(k) ==> #[trigger] resources.hold_of(k) == mid_res.hold_of(
                        k,
                    ),
                forall|k: u64|
                    mid_res.contains_key(k) && !self.spec_access().spec_resources().write_set().contains(
                        k,
                    ) ==> #[trigger] resources.value_of(k) == mid_res.value_of(k),
                forall|m: int| 0 <= m < decls.len() ==> mid_res.contains_key((#[trigger] decls[m]).key),
                bundle@ == out_g,
                forall|k: u64|
                    mid_res.contains_key(k) ==> #[trigger] resources.value_of(k) == written_from(
                        decls,
                        out_g,
                        k,
                        mid_res.value_of(k),
                        j as int,
                    ),
            decreases decls.len() - j,
        {
            let d = self.resource_decls[j];
            let ghost step_r = *resources;
            if d.write && j < bundle.len() {
                proof {
                    assert(mid_res.contains_key(d.key));
                    assert(resources.contains_key(d.key));
                    assert(self.spec_access().spec_resources().write_set().contains(d.key));
                }
                let ghost pre_r = *resources;
                resources.insert(d.key, bundle[j]);
                proof {
                    assert forall|k: u64| mid_res.contains_key(k) implies #[trigger] resources.hold_of(
                        k,
                    ) == mid_res.hold_of(k) by {
                        assert(pre_r.hold_of(k) == mid_res.hold_of(k));
                        assert(pre_r.contains_key(k));
                        if k == d.key {
                            assert(resources.hold_of(k) == pre_r.hold_of(k));
                        } else {
                            assert(resources.value_of(k) == pre_r.value_of(k));
                            assert(resources.hold_of(k) == pre_r.hold_of(k));
                        }
                    }
                }
            }
            proof {
                assert forall|k: u64| mid_res.contains_key(k) implies #[trigger] resources.value_of(
                    k,
                ) == written_from(decls, out_g, k, mid_res.value_of(k), j + 1) by {
                    if decls[j as int].write && j < out_g.len() && decls[j as int].key == k {
                        assert(resources.value_of(k) == out_g[j as int]);
                    } else {
                        assert(written_from(decls, out_g, k, mid_res.value_of(k), j + 1)
                            == written_from(decls, out_g, k, mid_res.value_of(k), j as int));
                        if decls[j as int].write && j < out_g.len() {
                            assert(resources.value_of(k) == step_r.value_of(k));
                        }
                    }
                }
            }
            j += 1;
        }
        Ok(())
    }
}

/// A world identity standing at some buffer position is found by the scan.
proof fn lemma_buffer_present(s: Seq<CommandBuffer>, id: u64, p: int)
    requires
        0 <= p < s.len(),
        s[p].spec_world_id() == id,
    ensures
        find_buffer_from(s, id, 0) is Some,
{
    lemma_buffer_present_from(s, id, p, 0);
}

proof fn lemma_buffer_present_from(s: Seq<CommandBuffer>, id: u64, p: int, j: int)
    requires
        0 <= j <= p < s.len(),
        s[p].spec_world_id() == id,
    ensures
        find_buffer_from(s, id, j) is Some,
    decreases p - j,
{
    if j < p && s[j].spec_world_id() != id {
        lemma_buffer_present_from(s, id, p, j + 1);
    }
}

/// Position of the buffer scoped to `id`, if the unit has one.
fn find_buffer_index(buffers: &Vec<CommandBuffer>, id: u64) -> (r: Option<usize>)
    ensures
        match r {
            Some(i) => i < buffers@.len() && buffers@[i as int].spec_world_id() == id
                && find_buffer_from(buffers@, id, 0) == Some(buffers@[i as int].spec_edits()),
            None => find_buffer_from(buffers@, id, 0) is None,
        },
{
    let mut i: usize = 0;
    while i < buffers.len()
        invariant
            i <= buffers@.len(),
            find_buffer_from(buffers@, id, 0) == find_buffer_from(buffers@, id, i as int),
            forall|j: int| 0 <= j < i ==> (#[trigger] buffers@[j]).spec_world_id() != id,
        decreases buffers@.len() - i,
    {
        if buffers[i].world_id() == id {
            return Some(i);
        }
        i += 1;
    }
    None
}

} // verus!
