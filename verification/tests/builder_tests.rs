use system_core::builder::SystemBuilder;
use system_core::command::CommandBuffer;
use system_core::query::QueryDecl;
use system_core::resources::Resources;
use system_core::subworld::SubWorld;
use system_core::system::LifecycleFn;
use system_core::system::SystemFn;
use system_core::system::SystemId;
use system_core::world::World;

struct NopFn;

impl SystemFn for NopFn {
    fn run(
        &mut self,
        _commands: &mut CommandBuffer,
        _world: &mut SubWorld,
        _resources: &mut Vec<u64>,
        _queries: &Vec<QueryDecl>,
    ) {
    }
}

fn sorted(v: &Vec<u64>) -> Vec<u64> {
    let mut out = v.clone();
    out.sort();
    out
}

#[test]
fn declared_permissions_are_reported() {
    // One resource read, one query that reads component A (1) and writes
    // component B (2).
    let s = SystemBuilder::new(SystemId::from("unit".to_string()))
        .read_resource(5)
        .with_query(QueryDecl::new(vec![1], vec![2]))
        .build(NopFn);
    let (res_reads, comp_reads) = s.reads();
    assert_eq!(res_reads.as_slice(), &[5]);
    assert_eq!(comp_reads.as_slice(), &[1]);
    let (res_writes, comp_writes) = s.writes();
    assert!(res_writes.is_empty());
    assert_eq!(comp_writes.as_slice(), &[2]);
}

#[test]
fn query_write_subsumes_query_read() {
    let s = SystemBuilder::new(SystemId::from("unit".to_string()))
        .with_query(QueryDecl::new(vec![1, 2], vec![2, 3]))
        .build(NopFn);
    let (_, comp_reads) = s.reads();
    let (_, comp_writes) = s.writes();
    assert_eq!(sorted(comp_reads), vec![1]);
    assert_eq!(sorted(comp_writes), vec![2, 3]);
}

#[test]
fn direct_component_write_marks_all_archetypes() {
    // Even if at run time only one archetype carries component C (3), the
    // archetype access must report All.
    let mut world = World::new(1);
    world.push_archetype(vec![3]);
    let mut s = SystemBuilder::new(SystemId::from("unit".to_string()))
        .write_component(3)
        .build(NopFn);
    assert!(s.accesses_archetypes().is_all());
    s.prepare(&world);
    assert!(s.accesses_archetypes().is_all());
    assert!(s.accesses_archetypes().cached_indices().is_none());
}

#[test]
fn direct_component_read_marks_all_archetypes() {
    let s = SystemBuilder::new(SystemId::from("unit".to_string()))
        .read_component(3)
        .build(NopFn);
    assert!(s.accesses_archetypes().is_all());
}

#[test]
fn query_only_unit_starts_filtered_and_empty() {
    let s = SystemBuilder::new(SystemId::from("unit".to_string()))
        .with_query(QueryDecl::new(vec![1], vec![]))
        .build(NopFn);
    assert!(!s.accesses_archetypes().is_all());
    let cached = s.accesses_archetypes().cached_indices().unwrap();
    assert!(cached.is_empty());
}

#[test]
fn unit_name_is_kept() {
    let s = SystemBuilder::new(SystemId::from("motion".to_string())).build(NopFn);
    assert_eq!(s.name().name(), "motion");
}

struct AddHook {
    key: u64,
    amount: u64,
}

impl LifecycleFn for AddHook {
    fn call_once(self, _world: &mut World, resources: &mut Resources) {
        let cur = resources.get(self.key).unwrap_or(0);
        resources.insert(self.key, cur + self.amount);
    }
}

#[test]
fn later_init_hook_replaces_earlier() {
    let mut s = SystemBuilder::new(SystemId::from("unit".to_string()))
        .with_init(AddHook { key: 9, amount: 1 })
        .with_init(AddHook { key: 9, amount: 10 })
        .build(NopFn);
    let mut world = World::new(1);
    let mut res = Resources::new();
    s.init(&mut world, &mut res);
    // The first hook never ran; only the replacement did, once.
    assert_eq!(res.get(9), Some(10));
}

#[test]
fn later_dispose_hook_replaces_earlier() {
    let mut s = SystemBuilder::new(SystemId::from("unit".to_string()))
        .with_dispose(AddHook { key: 9, amount: 2 })
        .with_dispose(AddHook { key: 9, amount: 20 })
        .build(NopFn);
    let mut world = World::new(1);
    let mut res = Resources::new();
    s.dispose(&mut world, &mut res);
    assert_eq!(res.get(9), Some(20));
}
