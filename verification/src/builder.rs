//! The incremental, type-erased unit builder: an append-only accumulator
//! of query and resource declarations that maintains the permission sets
//! as it goes, and finalizes into an immutable runtime unit.

use crate::archetypes::bitset_new;
use crate::archetypes::ArchetypeAccess;
use crate::permissions::spec_declare_read;
use crate::permissions::spec_declare_write;
use crate::permissions::Permissions;
use crate::query::QueryDecl;
use crate::resources::ResourceDecl;
use crate::system::LifecycleFn;
use crate::system::NoHook;
use crate::system::System;
use crate::system::SystemAccess;
use crate::system::SystemFn;
use crate::system::SystemId;
use vstd::prelude::*;

verus! {

/// Accumulates a unit's declarations in caller order.  Each query folds
/// its component permissions in; each resource declaration is tagged read
/// or write; direct component declarations promote the archetype access to
/// `All` for good.  `build` consumes the builder.
pub struct SystemBuilder<I, D> {
    name: SystemId,
    queries: Vec<QueryDecl>,
    resources: Vec<ResourceDecl>,
    resource_access: Permissions,
    component_access: Permissions,
    access_all_archetypes: bool,
    init_fn: Option<I>,
    dispose_fn: Option<D>,
}

impl SystemBuilder<NoHook, NoHook> {
    /// A fresh builder; the name serves debugging alone.
    pub fn new(name: SystemId) -> (r: Self)
        ensures
            r.wf(),
            r.spec_name() == name,
            r.spec_queries() == Seq::<QueryDecl>::empty(),
            r.spec_resources() == Seq::<ResourceDecl>::empty(),
            r.spec_resource_access().read_set() == Set::<u64>::empty(),
            r.spec_resource_access().write_set() == Set::<u64>::empty(),
            r.spec_component_access().read_set() == Set::<u64>::empty(),
            r.spec_component_access().write_set() == Set::<u64>::empty(),
            !r.spec_all_archetypes(),
            r.spec_init_fn() is None,
            r.spec_dispose_fn() is None,
    {
        SystemBuilder {
            name,
            queries: Vec::new(),
            resources: Vec::new(),
            resource_access: Permissions::new(),
            component_access: Permissions::new(),
            access_all_archetypes: false,
            init_fn: None,
            dispose_fn: None,
        }
    }
}

impl<I: LifecycleFn, D: LifecycleFn> SystemBuilder<I, D> {
    pub closed spec fn spec_name(self) -> SystemId {
        self.name
    }

    pub closed spec fn spec_queries(self) -> Seq<QueryDecl> {
        self.queries@
    }

    pub closed spec fn spec_resources(self) -> Seq<ResourceDecl> {
        self.resources@
    }

    pub closed spec fn spec_resource_access(self) -> Permissions {
        self.resource_access
    }

    pub closed spec fn spec_component_access(self) -> Permissions {
        self.component_access
    }

    pub closed spec fn spec_all_archetypes(self) -> bool {
        self.access_all_archetypes
    }

    pub closed spec fn spec_init_fn(self) -> Option<I> {
        self.init_fn
    }

    pub closed spec fn spec_dispose_fn(self) -> Option<D> {
        self.dispose_fn
    }

    /// Permission sets well formed, and every resource declaration covered
    /// by the resource permission set.
    pub closed spec fn wf(self) -> bool {
        &&& self.resource_access.wf()
        &&& self.component_access.wf()
        &&& forall|i: int|
            0 <= i < self.resources@.len() ==> {
                let d = #[trigger] self.resources@[i];
                if d.write {
                    self.resource_access.write_set().contains(d.key)
                } else {
                    self.resource_access.read_set().contains(d.key)
                        || self.resource_access.write_set().contains(d.key)
                }
            }
    }

    /// Appends a query declaration and folds its required component
    /// permissions into the component keyspace.  Order is preserved: the
    /// logic receives queries exactly as declared.
    pub fn with_query(self, query: QueryDecl) -> (r: Self)
        requires
            self.wf(),
        ensures
            r.wf(),
            r.spec_queries() == self.spec_queries().push(query),
            r.spec_component_access().write_set() == self.spec_component_access().write_set()
                + query.write_seq().to_set(),
            r.spec_component_access().read_set() == (self.spec_component_access().read_set()
                + query.read_seq().to_set()) - r.spec_component_access().write_set(),
            r.spec_name() == self.spec_name(),
            r.spec_resources() == self.spec_resources(),
            r.spec_resource_access() == self.spec_resource_access(),
            r.spec_all_archetypes() == self.spec_all_archetypes(),
            r.spec_init_fn() == self.spec_init_fn(),
            r.spec_dispose_fn() == self.spec_dispose_fn(),
    {
        let mut out = self;
        let perms = query.requires_permissions();
        out.component_access.merge(&perms);
        out.queries.push(query);
        proof {
            assert(out.component_access.read_set() =~= (self.spec_component_access().read_set()
                + query.read_seq().to_set()) - out.component_access.write_set());
        }
        out
    }

    /// Declares a resource as read by this unit.
    pub fn read_resource(self, key: u64) -> (r: Self)
        requires
            self.wf(),
        ensures
            r.wf(),
            r.spec_resources() == self.spec_resources().push(
                ResourceDecl { key, write: false },
            ),
            (r.spec_resource_access().read_set(), r.spec_resource_access().write_set())
                == spec_declare_read(
                self.spec_resource_access().read_set(),
                self.spec_resource_access().write_set(),
                key,
            ),
            r.spec_name() == self.spec_name(),
            r.spec_queries() == self.spec_queries(),
            r.spec_component_access() == self.spec_component_access(),
            r.spec_all_archetypes() == self.spec_all_archetypes(),
            r.spec_init_fn() == self.spec_init_fn(),
            r.spec_dispose_fn() == self.spec_dispose_fn(),
    {
        let mut out = self;
        out.resource_access.declare_read(key);
        out.resources.push(ResourceDecl { key, write: false });
        out
    }

    /// Declares a resource as written by this unit; a write subsumes any
    /// read declared on the same key, in either order.
    pub fn write_resource(self, key: u64) -> (r: Self)
        requires
            self.wf(),
        ensures
            r.wf(),
            r.spec_resources() == self.spec_resources().push(ResourceDecl { key, write: true }),
            (r.spec_resource_access().read_set(), r.spec_resource_access().write_set())
                == spec_declare_write(
                self.spec_resource_access().read_set(),
                self.spec_resource_access().write_set(),
                key,
            ),
            r.spec_name() == self.spec_name(),
            r.spec_queries() == self.spec_queries(),
            r.spec_component_access() == self.spec_component_access(),
            r.spec_all_archetypes() == self.spec_all_archetypes(),
            r.spec_init_fn() == self.spec_init_fn(),
            r.spec_dispose_fn() == self.spec_dispose_fn(),
    {
        let mut out = self;
        out.resource_access.declare_write(key);
        out.resources.push(ResourceDecl { key, write: true });
        out
    }

    /// Declares a direct, non-query read of a component type, promoting
    /// the archetype access to `All` for good.
    pub fn read_component(self, key: u64) -> (r: Self)
        requires
            self.wf(),
        ensures
            r.wf(),
            (r.spec_component_access().read_set(), r.spec_component_access().write_set())
                == spec_declare_read(
                self.spec_component_access().read_set(),
                self.spec_component_access().write_set(),
                key,
            ),
            r.spec_all_archetypes(),
            r.spec_name() == self.spec_name(),
            r.spec_queries() == self.spec_queries(),
            r.spec_resources() == self.spec_resources(),
            r.spec_resource_access() == self.spec_resource_access(),
            r.spec_init_fn() == self.spec_init_fn(),
            r.spec_dispose_fn() == self.spec_dispose_fn(),
    {
        let mut out = self;
        out.component_access.declare_read(key);
        out.access_all_archetypes = true;
        out
    }

    /// Declares a direct, non-query write of a component type, promoting
    /// the archetype access to `All` for good.
    pub fn write_component(self, key: u64) -> (r: Self)
        requires
            self.wf(),
        ensures
            r.wf(),
            (r.spec_component_access().read_set(), r.spec_component_access().write_set())
                == spec_declare_write(
                self.spec_component_access().read_set(),
                self.spec_component_access().write_set(),
                key,
            ),
            r.spec_all_archetypes(),
            r.spec_name() == self.spec_name(),
            r.spec_queries() == self.spec_queries(),
            r.spec_resources() == self.spec_resources(),
            r.spec_resource_access() == self.spec_resource_access(),
            r.spec_init_fn() == self.spec_init_fn(),
            r.spec_dispose_fn() == self.spec_dispose_fn(),
    {
        let mut out = self;
        out.component_access.declare_write(key);
        out.access_all_archetypes = true;
        out
    }

    /// Sets the init hook; a later call replaces an earlier hook, it does
    /// not add to it.
    pub fn with_init<I2: LifecycleFn>(self, hook: I2) -> (r: SystemBuilder<I2, D>)
        requires
            self.wf(),
        ensures
            r.wf(),
            r.spec_init_fn() == Some(hook),
            r.spec_name() == self.spec_name(),
            r.spec_queries() == self.spec_queries(),
            r.spec_resources() == self.spec_resources(),
            r.spec_resource_access() == self.spec_resource_access(),
            r.spec_component_access() == self.spec_component_access(),
            r.spec_all_archetypes() == self.spec_all_archetypes(),
            r.spec_dispose_fn() == self.spec_dispose_fn(),
    {
        SystemBuilder {
            name: self.name,
            queries: self.queries,
            resources: self.resources,
            resource_access: self.resource_access,
            component_access: self.component_access,
            access_all_archetypes: self.access_all_archetypes,
            init_fn: Some(hook),
            dispose_fn: self.dispose_fn,
        }
    }

    /// Sets the dispose hook; a later call replaces an earlier hook.
    pub fn with_dispose<D2: LifecycleFn>(self, hook: D2) -> (r: SystemBuilder<I, D2>)
        requires
            self.wf(),
        ensures
            r.wf(),
            r.spec_dispose_fn() == Some(hook),
            r.spec_name() == self.spec_name(),
            r.spec_queries() == self.spec_queries(),
            r.spec_resources() == self.spec_resources(),
            r.spec_resource_access() == self.spec_resource_access(),
            r.spec_component_access() == self.spec_component_access(),
            r.spec_all_archetypes() == self.spec_all_archetypes(),
            r.spec_init_fn() == self.spec_init_fn(),
    {
        SystemBuilder {
            name: self.name,
            queries: self.queries,
            resources: self.resources,
            resource_access: self.resource_access,
            component_access: self.component_access,
            access_all_archetypes: self.access_all_archetypes,
            init_fn: self.init_fn,
            dispose_fn: Some(hook),
        }
    }

    /// Consumes the builder and finalizes the unit: declarations become
    /// immutable, in the order they were appended, and the archetype
    /// access starts as `All` when any direct component declaration was
    /// made, else as an empty `Filtered` cache.
    pub fn build<F: SystemFn>(self, run_fn: F) -> (r: System<F, I, D>)
        requires
            self.wf(),
        ensures
            r.wf(),
            r.spec_name() == self.spec_name(),
            r.spec_queries() == self.spec_queries(),
            r.spec_resource_decls() == self.spec_resources(),
            r.spec_access().spec_resources() == self.spec_resource_access(),
            r.spec_access().spec_components() == self.spec_component_access(),
            r.spec_access().wf(),
            (r.spec_archetype_access() is All) == self.spec_all_archetypes(),
            !self.spec_all_archetypes() ==> r.spec_archetype_access() is Filtered
                && r.spec_archetype_access().spec_cached() == Set::<usize>::empty(),
            r.spec_buffers() == Seq::<crate::command::CommandBuffer>::empty(),
            r.spec_init_pending() == (self.spec_init_fn() is Some),
            r.spec_dispose_pending() == (self.spec_dispose_fn() is Some),
            r.spec_init_runs() == 0,
            r.spec_dispose_runs() == 0,
    {
        let archetypes = if self.access_all_archetypes {
            ArchetypeAccess::All
        } else {
            ArchetypeAccess::Filtered(bitset_new())
        };
        let access = SystemAccess::new(self.resource_access, self.component_access);
        System::assemble(
            self.name,
            self.queries,
            self.resources,
            run_fn,
            self.init_fn,
            self.dispose_fn,
            archetypes,
            access,
        )
    }
}

} // verus!
