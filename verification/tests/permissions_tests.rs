use system_core::permissions::Permissions;

fn sorted(v: &Vec<u64>) -> Vec<u64> {
    let mut out = v.clone();
    out.sort();
    out
}

#[test]
fn read_then_write_yields_write_only() {
    let mut p = Permissions::new();
    p.declare_read(7);
    p.declare_write(7);
    assert_eq!(p.writes().as_slice(), &[7]);
    assert!(p.reads().is_empty());
}

#[test]
fn write_then_read_yields_write_only() {
    let mut p = Permissions::new();
    p.declare_write(7);
    p.declare_read(7);
    assert_eq!(p.writes().as_slice(), &[7]);
    assert!(p.reads().is_empty());
}

#[test]
fn repeated_declarations_are_absorbed() {
    let mut p = Permissions::new();
    p.declare_read(1);
    p.declare_read(1);
    p.declare_write(2);
    p.declare_write(2);
    assert_eq!(p.reads().as_slice(), &[1]);
    assert_eq!(p.writes().as_slice(), &[2]);
}

#[test]
fn conflict_when_write_meets_read() {
    let mut a = Permissions::new();
    a.declare_write(3);
    let mut b = Permissions::new();
    b.declare_read(3);
    assert!(a.conflicts_with(&b));
    assert!(b.conflicts_with(&a));
}

#[test]
fn conflict_when_writes_collide() {
    let mut a = Permissions::new();
    a.declare_write(3);
    let mut b = Permissions::new();
    b.declare_write(3);
    assert!(a.conflicts_with(&b));
}

#[test]
fn no_conflict_on_shared_reads() {
    let mut a = Permissions::new();
    a.declare_read(3);
    a.declare_read(4);
    let mut b = Permissions::new();
    b.declare_read(3);
    b.declare_write(9);
    assert!(!a.conflicts_with(&b));
    assert!(!b.conflicts_with(&a));
}

#[test]
fn no_conflict_on_disjoint_keys() {
    let mut a = Permissions::new();
    a.declare_write(1);
    a.declare_read(2);
    let mut b = Permissions::new();
    b.declare_write(3);
    b.declare_read(4);
    assert!(!a.conflicts_with(&b));
}

#[test]
fn merge_folds_writes_over_reads() {
    let mut a = Permissions::new();
    a.declare_read(1);
    a.declare_read(2);
    let mut b = Permissions::new();
    b.declare_write(2);
    b.declare_read(5);
    a.merge(&b);
    assert_eq!(sorted(a.reads()), vec![1, 5]);
    assert_eq!(a.writes().as_slice(), &[2]);
}
