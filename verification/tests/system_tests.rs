use std::cell::RefCell;
use std::rc::Rc;
use system_core::builder::SystemBuilder;
use system_core::command::CommandBuffer;
use system_core::command::Edit;
use system_core::query::QueryDecl;
use system_core::resources::Hold;
use system_core::resources::Resources;
use system_core::subworld::SubWorld;
use system_core::system::LifecycleFn;
use system_core::system::RunError;
use system_core::system::SystemFn;
use system_core::system::SystemId;
use system_core::world::World;

struct NopFn;

impl SystemFn for NopFn {
    fn run(
        &mut self,
        _commands: &mut CommandBuffer,
        _world: &mut SubWorld,
        _resources: &mut Vec<u64>,
        _queries: &Vec<QueryDecl>,
    ) {
    }
}

fn named(n: &str) -> SystemId {
    SystemId::from(n.to_string())
}

#[test]
fn prepare_replaces_filtered_cache_with_current_matches() {
    // Query reads component 1: archetypes 0 ({1}) and 1 ({1, 2}) match,
    // archetype 2 ({2}) does not.
    let mut world = World::new(1);
    world.push_archetype(vec![1]);
    world.push_archetype(vec![1, 2]);
    world.push_archetype(vec![2]);
    let mut s = SystemBuilder::new(named("unit"))
        .with_query(QueryDecl::new(vec![1], vec![]))
        .build(NopFn);
    s.prepare(&world);
    assert_eq!(s.accesses_archetypes().cached_indices().unwrap(), vec![0, 1]);

    // The archetype layout grew since the last tick: the refresh must
    // re-resolve from scratch.
    world.push_archetype(vec![1, 3]);
    s.prepare(&world);
    assert_eq!(s.accesses_archetypes().cached_indices().unwrap(), vec![0, 1, 3]);

    // Against a world where nothing matches, the prior contents are
    // discarded, not kept.
    let empty_world = World::new(2);
    s.prepare(&empty_world);
    assert!(s.accesses_archetypes().cached_indices().unwrap().is_empty());
}

#[test]
fn prepare_unions_matches_of_all_queries() {
    let mut world = World::new(1);
    world.push_archetype(vec![1]);
    world.push_archetype(vec![2]);
    world.push_archetype(vec![3]);
    let mut s = SystemBuilder::new(named("unit"))
        .with_query(QueryDecl::new(vec![1], vec![]))
        .with_query(QueryDecl::new(vec![], vec![3]))
        .build(NopFn);
    s.prepare(&world);
    assert_eq!(s.accesses_archetypes().cached_indices().unwrap(), vec![0, 2]);
    assert!(s.accesses_archetypes().may_touch(0));
    assert!(!s.accesses_archetypes().may_touch(1));
    assert!(s.accesses_archetypes().may_touch(2));
}

struct AddHook {
    key: u64,
}

impl LifecycleFn for AddHook {
    fn call_once(self, _world: &mut World, resources: &mut Resources) {
        let cur = resources.get(self.key).unwrap_or(0);
        resources.insert(self.key, cur + 1);
    }
}

#[test]
fn init_runs_hook_exactly_once_across_repeated_calls() {
    let mut s = SystemBuilder::new(named("unit")).with_init(AddHook { key: 9 }).build(NopFn);
    let mut world = World::new(1);
    let mut res = Resources::new();
    assert!(s.has_init_hook());
    s.init(&mut world, &mut res);
    s.init(&mut world, &mut res);
    s.init(&mut world, &mut res);
    assert_eq!(res.get(9), Some(1));
    assert!(!s.has_init_hook());
}

#[test]
fn dispose_runs_hook_exactly_once_across_repeated_calls() {
    let mut s = SystemBuilder::new(named("unit")).with_dispose(AddHook { key: 9 }).build(NopFn);
    let mut world = World::new(1);
    let mut res = Resources::new();
    s.dispose(&mut world, &mut res);
    s.dispose(&mut world, &mut res);
    assert_eq!(res.get(9), Some(1));
    assert!(!s.has_dispose_hook());
}

struct PushEdit {
    next: u64,
}

impl SystemFn for PushEdit {
    fn run(
        &mut self,
        commands: &mut CommandBuffer,
        _world: &mut SubWorld,
        _resources: &mut Vec<u64>,
        _queries: &Vec<QueryDecl>,
    ) {
        commands.push(Edit::CreateEntity(self.next));
        self.next += 1;
    }
}

#[test]
fn distinct_worlds_get_independent_edit_buffers() {
    let world_a = World::new(10);
    let world_b = World::new(20);
    let mut res = Resources::new();
    let mut s = SystemBuilder::new(named("unit")).build(PushEdit { next: 0 });

    s.run(&world_a, &mut res).unwrap();
    assert_eq!(s.buffered_edits(10).unwrap(), vec![Edit::CreateEntity(0)]);
    assert!(s.buffered_edits(20).is_none());

    s.run(&world_b, &mut res).unwrap();
    // The edit recorded against world B never shows up in A's buffer.
    assert_eq!(s.buffered_edits(10).unwrap(), vec![Edit::CreateEntity(0)]);
    assert_eq!(s.buffered_edits(20).unwrap(), vec![Edit::CreateEntity(1)]);

    // The buffer for world A is reused across ticks, in recorded order.
    s.run(&world_a, &mut res).unwrap();
    assert_eq!(
        s.buffered_edits(10).unwrap(),
        vec![Edit::CreateEntity(0), Edit::CreateEntity(2)]
    );
    assert_eq!(s.buffered_edits(20).unwrap(), vec![Edit::CreateEntity(1)]);
}

#[test]
fn drain_empties_one_buffer_only() {
    let world_a = World::new(10);
    let world_b = World::new(20);
    let mut res = Resources::new();
    let mut s = SystemBuilder::new(named("unit")).build(PushEdit { next: 0 });
    s.run(&world_a, &mut res).unwrap();
    s.run(&world_b, &mut res).unwrap();

    let drained = s.drain_command_buffer(10).unwrap();
    assert_eq!(drained, vec![Edit::CreateEntity(0)]);
    assert_eq!(s.buffered_edits(10).unwrap(), vec![]);
    assert_eq!(s.buffered_edits(20).unwrap(), vec![Edit::CreateEntity(1)]);
    assert!(s.drain_command_buffer(30).is_none());
}

#[derive(Default)]
struct Observed {
    calls: u64,
    bundle: Vec<u64>,
    can_read_a: bool,
    can_write_b: bool,
    can_write_a: bool,
    can_read_c: bool,
    queries_len: usize,
    arch0_visible: bool,
    arch1_visible: bool,
    buffered: usize,
    first_edit: Option<Edit>,
}

struct Probe {
    seen: Rc<RefCell<Observed>>,
}

impl SystemFn for Probe {
    fn run(
        &mut self,
        commands: &mut CommandBuffer,
        world: &mut SubWorld,
        resources: &mut Vec<u64>,
        queries: &Vec<QueryDecl>,
    ) {
        let mut o = self.seen.borrow_mut();
        o.calls += 1;
        o.bundle = resources.clone();
        o.can_read_a = world.can_read(1);
        o.can_write_b = world.can_write(2);
        o.can_write_a = world.can_write(1);
        o.can_read_c = world.can_read(3);
        o.queries_len = queries.len();
        o.arch0_visible = world.archetype_visible(0);
        o.arch1_visible = world.archetype_visible(1);
        commands.push(Edit::SetComponent(8, 2));
        o.buffered = commands.len();
        o.first_edit = Some(commands.edit_at(0));
    }
}

#[test]
fn run_invokes_logic_once_with_restricted_view() {
    // Unit: one resource read (5 -> 42) and one query reading component A
    // (1) and writing component B (2).  Archetype 0 ({1, 2}) matches the
    // query; archetype 1 ({3}) does not.
    let mut world = World::new(7);
    world.push_archetype(vec![1, 2]);
    world.push_archetype(vec![3]);
    let mut res = Resources::new();
    res.insert(5, 42);

    let seen = Rc::new(RefCell::new(Observed::default()));
    let mut s = SystemBuilder::new(named("unit"))
        .read_resource(5)
        .with_query(QueryDecl::new(vec![1], vec![2]))
        .build(Probe { seen: seen.clone() });

    s.prepare(&world);
    s.run(&world, &mut res).unwrap();

    let o = seen.borrow();
    assert_eq!(o.calls, 1);
    assert_eq!(o.bundle, vec![42]);
    assert!(o.can_read_a);
    assert!(o.can_write_b);
    assert!(!o.can_write_a);
    assert!(!o.can_read_c);
    assert_eq!(o.queries_len, 1);
    assert!(o.arch0_visible);
    assert!(!o.arch1_visible);
    assert_eq!(o.buffered, 1);
    assert_eq!(o.first_edit, Some(Edit::SetComponent(8, 2)));
    drop(o);
    assert_eq!(s.buffered_edits(7).unwrap(), vec![Edit::SetComponent(8, 2)]);
}

struct CountCalls {
    seen: Rc<RefCell<Observed>>,
}

impl SystemFn for CountCalls {
    fn run(
        &mut self,
        _commands: &mut CommandBuffer,
        _world: &mut SubWorld,
        _resources: &mut Vec<u64>,
        _queries: &Vec<QueryDecl>,
    ) {
        self.seen.borrow_mut().calls += 1;
    }
}

#[test]
fn run_aborts_on_missing_resource() {
    let world = World::new(1);
    let mut res = Resources::new();
    let seen = Rc::new(RefCell::new(Observed::default()));
    let mut s = SystemBuilder::new(named("unit"))
        .read_resource(5)
        .build(CountCalls { seen: seen.clone() });
    assert_eq!(s.run(&world, &mut res), Err(RunError::MissingResource(5)));
    // The run was aborted: the logic never executed.
    assert_eq!(seen.borrow().calls, 0);
}

#[test]
fn run_aborts_when_read_is_exclusively_held() {
    let world = World::new(1);
    let mut res = Resources::new();
    res.insert(5, 1);
    res.set_hold(5, Hold::Exclusive);
    assert_eq!(res.get_hold(5), Some(Hold::Exclusive));
    let seen = Rc::new(RefCell::new(Observed::default()));
    let mut s = SystemBuilder::new(named("unit"))
        .read_resource(5)
        .build(CountCalls { seen: seen.clone() });
    assert_eq!(s.run(&world, &mut res), Err(RunError::ResourceHeld(5)));
    assert_eq!(seen.borrow().calls, 0);
}

#[test]
fn run_aborts_when_write_target_is_shared() {
    let world = World::new(1);
    let mut res = Resources::new();
    res.insert(5, 1);
    res.set_hold(5, Hold::Shared);
    let seen = Rc::new(RefCell::new(Observed::default()));
    let mut s = SystemBuilder::new(named("unit"))
        .write_resource(5)
        .build(CountCalls { seen: seen.clone() });
    assert_eq!(s.run(&world, &mut res), Err(RunError::ResourceHeld(5)));
    assert_eq!(seen.borrow().calls, 0);
}

#[test]
fn shared_hold_still_allows_reads() {
    let world = World::new(1);
    let mut res = Resources::new();
    res.insert(5, 33);
    res.set_hold(5, Hold::Shared);
    let seen = Rc::new(RefCell::new(Observed::default()));
    let mut s = SystemBuilder::new(named("unit"))
        .read_resource(5)
        .build(CountCalls { seen: seen.clone() });
    assert_eq!(s.run(&world, &mut res), Ok(()));
    assert_eq!(seen.borrow().calls, 1);
}

struct WriteBack;

impl SystemFn for WriteBack {
    fn run(
        &mut self,
        _commands: &mut CommandBuffer,
        _world: &mut SubWorld,
        resources: &mut Vec<u64>,
        _queries: &Vec<QueryDecl>,
    ) {
        // Position 0 is the declared write; position 1 the declared read.
        resources[0] += 1;
        resources[1] += 1;
    }
}

#[test]
fn run_writes_back_declared_writes_only() {
    let world = World::new(1);
    let mut res = Resources::new();
    res.insert(5, 10);
    res.insert(6, 100);
    let mut s = SystemBuilder::new(named("unit"))
        .write_resource(5)
        .read_resource(6)
        .build(WriteBack);
    assert_eq!(s.run(&world, &mut res), Ok(()));
    // The written resource carries the logic's value; the read one is
    // untouched, whatever the logic did to its fetched copy.
    assert_eq!(res.get(5), Some(11));
    assert_eq!(res.get(6), Some(100));
}

#[test]
fn command_buffer_drains_in_recorded_order() {
    let world = World::new(3);
    let mut cb = CommandBuffer::new(&world);
    assert_eq!(cb.world_id(), 3);
    cb.push(Edit::CreateEntity(1));
    cb.push(Edit::RemoveComponent(1, 2));
    assert_eq!(cb.len(), 2);
    let drained = cb.drain();
    assert_eq!(drained, vec![Edit::CreateEntity(1), Edit::RemoveComponent(1, 2)]);
    assert_eq!(cb.len(), 0);
    assert_eq!(cb.world_id(), 3);
}

#[test]
fn conflicting_units_are_detected_across_keyspaces() {
    let a = SystemBuilder::new(named("a")).write_resource(5).build(NopFn);
    let b = SystemBuilder::new(named("b")).read_resource(5).build(NopFn);
    let c = SystemBuilder::new(named("c"))
        .with_query(QueryDecl::new(vec![1], vec![]))
        .build(NopFn);
    let d = SystemBuilder::new(named("d")).write_component(1).build(NopFn);
    assert!(a.access().conflicts_with(b.access()));
    assert!(!a.access().conflicts_with(c.access()));
    assert!(c.access().conflicts_with(d.access()));
    assert!(!b.access().conflicts_with(d.access()));
}
