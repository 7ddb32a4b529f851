//! Declared read/write access over one keyspace of type keys, and the
//! conflict rule a scheduler applies to decide which units may run together.

use vstd::prelude::*;

verus! {

broadcast use vstd::seq_lib::lemma_seq_contains_after_push;

/// The outcome of declaring a read: the key joins the read set unless it is
/// already in the write set (a write subsumes a read).
pub open spec fn spec_declare_read(reads: Set<u64>, writes: Set<u64>, key: u64) -> (Set<u64>, Set<
    u64,
>) {
    if writes.contains(key) {
        (reads, writes)
    } else {
        (reads.insert(key), writes)
    }
}

/// The outcome of declaring a write: the key joins the write set and leaves
/// the read set, whatever was declared before.
pub open spec fn spec_declare_write(reads: Set<u64>, writes: Set<u64>, key: u64) -> (Set<u64>, Set<
    u64,
>) {
    (reads.remove(key), writes.insert(key))
}

/// Two access declarations conflict when either writes a key the other
/// reads or writes.
pub open spec fn sets_conflict(
    a_reads: Set<u64>,
    a_writes: Set<u64>,
    b_reads: Set<u64>,
    b_writes: Set<u64>,
) -> bool {
    ||| exists|k: u64| #[trigger]
        a_writes.contains(k) && (b_reads.contains(k) || b_writes.contains(k))
    ||| exists|k: u64| #[trigger]
        b_writes.contains(k) && (a_reads.contains(k) || a_writes.contains(k))
}

/// A prefix one element longer gathers exactly one more key.
pub proof fn lemma_take_succ_to_set(s: Seq<u64>, i: int)
    requires
        0 <= i < s.len(),
    ensures
        s.take(i + 1).to_set() == s.take(i).to_set().insert(s[i]),
{
    assert(s.take(i + 1) =~= s.take(i).push(s[i]));
    assert(s.take(i).push(s[i]).to_set() =~= s.take(i).to_set().insert(s[i]));
}

/// Tracks the reads and writes a unit has declared over one keyspace
/// (shared resources, or entity component types).  A key never stands in
/// both sets: declaring a write removes the key from the read set for good.
pub struct Permissions {
    reads: Vec<u64>,
    writes: Vec<u64>,
}

impl Permissions {
    /// The set of keys declared read-only.
    pub closed spec fn read_set(self) -> Set<u64> {
        self.reads@.to_set()
    }

    /// The set of keys declared written.
    pub closed spec fn write_set(self) -> Set<u64> {
        self.writes@.to_set()
    }

    /// Internal consistency: no key is listed twice, and no key is both
    /// read and written.
    pub closed spec fn wf(self) -> bool {
        &&& self.reads@.no_duplicates()
        &&& self.writes@.no_duplicates()
        &&& forall|k: u64| #[trigger] self.reads@.contains(k) ==> !self.writes@.contains(k)
    }

    pub fn new() -> (r: Self)
        ensures
            r.wf(),
            r.read_set() == Set::<u64>::empty(),
            r.write_set() == Set::<u64>::empty(),
    {
        let r = Permissions { reads: Vec::new(), writes: Vec::new() };
        proof {
            assert(r.read_set() =~= Set::<u64>::empty());
            assert(r.write_set() =~= Set::<u64>::empty());
        }
        r
    }

    /// Declare a read of `key`.  A prior write on the same key wins: the
    /// declaration is then absorbed without effect.
    pub fn declare_read(&mut self, key: u64)
        requires
            old(self).wf(),
        ensures
            final(self).wf(),
            (final(self).read_set(), final(self).write_set()) == spec_declare_read(
                old(self).read_set(),
                old(self).write_set(),
                key,
            ),
    {
        let in_writes = vec_contains_u64(&self.writes, key);
        if !in_writes {
            let in_reads = vec_contains_u64(&self.reads, key);
            if !in_reads {
                self.reads.push(key);
                proof {
                    assert(self.read_set() =~= old(self).read_set().insert(key));
                }
            } else {
                proof {
                    assert(self.read_set() =~= old(self).read_set().insert(key));
                }
            }
        }
    }

    /// Declare a write of `key`.  The key moves to the write set and is
    /// removed from the read set, whatever order the declarations came in.
    pub fn declare_write(&mut self, key: u64)
        requires
            old(self).wf(),
        ensures
            final(self).wf(),
            (final(self).read_set(), final(self).write_set()) == spec_declare_write(
                old(self).read_set(),
                old(self).write_set(),
                key,
            ),
    {
        vec_remove_value_u64(&mut self.reads, key);
        let in_writes = vec_contains_u64(&self.writes, key);
        if !in_writes {
            let ghost before = self.writes@;
            self.writes.push(key);
            proof {
                assert(self.write_set() =~= old(self).write_set().insert(key));
                assert forall|p: int, q: int|
                    0 <= p < q < self.writes@.len() implies self.writes@[p] != self.writes@[q] by {
                    if q == before.len() {
                        assert(self.writes@[p] == before[p]);
                        if before[p] == key {
                            assert(before.contains(key));
                        }
                    } else {
                        assert(self.writes@[p] == before[p] && self.writes@[q] == before[q]);
                    }
                }
            }
        } else {
            proof {
                assert(self.write_set() =~= old(self).write_set().insert(key));
            }
        }
        proof {
            assert forall|k: u64| #[trigger]
                self.reads@.contains(k) implies !self.writes@.contains(k) by {
                assert(self.read_set().contains(k));
                assert(old(self).read_set().remove(key).contains(k));
                assert(old(self).reads@.contains(k) && k != key);
                assert(!old(self).writes@.contains(k));
                assert(self.write_set() == old(self).write_set().insert(key));
                if self.writes@.contains(k) {
                    assert(self.write_set().contains(k));
                    assert(old(self).write_set().contains(k) || k == key);
                    assert(old(self).writes@.contains(k));
                }
            }
        }
    }

    /// Fold every declaration of `other` into `self`: writes first, then
    /// reads, so that a write on either side subsumes a read on the other.
    pub fn merge(&mut self, other: &Permissions)
        requires
            old(self).wf(),
        ensures
            final(self).wf(),
            final(self).write_set() == old(self).write_set() + other.write_set(),
            final(self).read_set() == (old(self).read_set() + other.read_set()) - final(self).write_set(),
    {
        let mut i: usize = 0;
        while i < other.writes.len()
            invariant
                self.wf(),
                i <= other.writes@.len(),
                self.write_set() == old(self).write_set() + other.writes@.take(i as int).to_set(),
                self.read_set() == old(self).read_set() - self.write_set(),
            decreases other.writes@.len() - i,
        {
            let k = other.writes[i];
            self.declare_write(k);
            proof {
                lemma_take_succ_to_set(other.writes@, i as int);
                assert(self.write_set() =~= old(self).write_set() + other.writes@.take(
                    i + 1,
                ).to_set());
                assert(self.read_set() =~= old(self).read_set() - self.write_set());
            }
            i += 1;
        }
        proof {
            assert(other.writes@.take(other.writes@.len() as int) == other.writes@);
            assert(self.write_set() =~= old(self).write_set() + other.write_set());
        }
        let ghost mid_r = self.read_set();
        let ghost w = self.write_set();
        let mut j: usize = 0;
        while j < other.reads.len()
            invariant
                self.wf(),
                j <= other.reads@.len(),
                self.write_set() == w,
                self.read_set() == mid_r + (other.reads@.take(j as int).to_set() - w),
            decreases other.reads@.len() - j,
        {
            let k = other.reads[j];
            self.declare_read(k);
            proof {
                lemma_take_succ_to_set(other.reads@, j as int);
                assert(self.read_set() =~= mid_r + (other.reads@.take(j + 1).to_set() - w));
            }
            j += 1;
        }
        proof {
            assert(other.reads@.take(other.reads@.len() as int) == other.reads@);
            assert(self.read_set() =~= (old(self).read_set() + other.read_set())
                - self.write_set()) by {
                assert(mid_r =~= old(self).read_set() - w);
            }
        }
    }

    /// The declared read-only keys, each listed once.
    pub fn reads(&self) -> (r: &Vec<u64>)
        ensures
            r@.to_set() == self.read_set(),
            r@.no_duplicates() <== self.wf(),
    {
        &self.reads
    }

    /// The declared written keys, each listed once.
    pub fn writes(&self) -> (r: &Vec<u64>)
        ensures
            r@.to_set() == self.write_set(),
            r@.no_duplicates() <== self.wf(),
    {
        &self.writes
    }

    /// Whether `key` may be read through this permission set (a declared
    /// write grants read access as well).
    pub fn allows_read(&self, key: u64) -> (r: bool)
        ensures
            r == (self.read_set().contains(key) || self.write_set().contains(key)),
    {
        vec_contains_u64(&self.reads, key) || vec_contains_u64(&self.writes, key)
    }

    /// Whether `key` may be written through this permission set.
    pub fn allows_write(&self, key: u64) -> (r: bool)
        ensures
            r == self.write_set().contains(key),
    {
        vec_contains_u64(&self.writes, key)
    }

    /// An independent copy holding the same declared sets.
    pub fn duplicate(&self) -> (r: Permissions)
        ensures
            r.read_set() == self.read_set(),
            r.write_set() == self.write_set(),
            self.wf() ==> r.wf(),
    {
        Permissions { reads: clone_vec_u64(&self.reads), writes: clone_vec_u64(&self.writes) }
    }

    /// The scheduler's conflict test: true when one side writes a key the
    /// other reads or writes.
    pub fn conflicts_with(&self, other: &Permissions) -> (r: bool)
        ensures
            r == sets_conflict(
                self.read_set(),
                self.write_set(),
                other.read_set(),
                other.write_set(),
            ),
    {
        let mut i: usize = 0;
        while i < self.writes.len()
            invariant
                i <= self.writes@.len(),
                forall|j: int|
                    0 <= j < i ==> !(other.read_set().contains(#[trigger] self.writes@[j])
                        || other.write_set().contains(self.writes@[j])),
            decreases self.writes@.len() - i,
        {
            let k = self.writes[i];
            let in_r = vec_contains_u64(&other.reads, k);
            let in_w = vec_contains_u64(&other.writes, k);
            if in_r || in_w {
                proof {
                    assert(self.writes@[i as int] == k);
                    assert(self.writes@.contains(k));
                    assert(self.write_set().contains(k));
                    if in_r {
                        assert(other.read_set().contains(k));
                    } else {
                        assert(other.write_set().contains(k));
                    }
                }
                return true;
            }
            i += 1;
        }
        let mut j: usize = 0;
        while j < other.writes.len()
            invariant
                j <= other.writes@.len(),
                forall|m: int|
                    0 <= m < j ==> !(self.read_set().contains(#[trigger] other.writes@[m])
                        || self.write_set().contains(other.writes@[m])),
                forall|m: int|
                    0 <= m < self.writes@.len() ==> !(other.read_set().contains(
                        #[trigger] self.writes@[m],
                    ) || other.write_set().contains(self.writes@[m])),
            decreases other.writes@.len() - j,
        {
            let k = other.writes[j];
            let in_r = vec_contains_u64(&self.reads, k);
            let in_w = vec_contains_u64(&self.writes, k);
            if in_r || in_w {
                proof {
                    assert(other.writes@[j as int] == k);
                    assert(other.writes@.contains(k));
                    assert(other.write_set().contains(k));
                    if in_r {
                        assert(self.read_set().contains(k));
                    } else {
                        assert(self.write_set().contains(k));
                    }
                }
                return true;
            }
            j += 1;
        }
        proof {
            if exists|k: u64| #[trigger]
                self.write_set().contains(k) && (other.read_set().contains(k)
                    || other.write_set().contains(k)) {
                let k = choose|k: u64| #[trigger]
                    self.write_set().contains(k) && (other.read_set().contains(k)
                        || other.write_set().contains(k));
                assert(self.writes@.contains(k));
                let m = choose|m: int| 0 <= m < self.writes@.len() && self.writes@[m] == k;
                assert(false);
            }
            if exists|k: u64| #[trigger]
                other.write_set().contains(k) && (self.read_set().contains(k)
                    || self.write_set().contains(k)) {
                let k = choose|k: u64| #[trigger]
                    other.write_set().contains(k) && (self.read_set().contains(k)
                        || self.write_set().contains(k));
                assert(other.writes@.contains(k));
                let m = choose|m: int| 0 <= m < other.writes@.len() && other.writes@[m] == k;
                assert(false);
            }
        }
        false
    }
}

/// A well-formed permission set never reports a key as both read and
/// written: the read and write sets are disjoint.
pub proof fn lemma_wf_disjoint(p: Permissions)
    requires
        p.wf(),
    ensures
        p.read_set().disjoint(p.write_set()),
{
    assert forall|k: u64| p.read_set().contains(k) implies !p.write_set().contains(k) by {
        assert(p.reads@.contains(k));
    }
}

/// Law: a read and a write declared on the same key yield, in either order,
/// the very same permission state, with the key solely in the write set.
pub proof fn lemma_write_wins(reads: Set<u64>, writes: Set<u64>, key: u64)
    ensures
        ({
            let (r1, w1) = spec_declare_read(reads, writes, key);
            spec_declare_write(r1, w1, key)
        }) == ({
            let (r2, w2) = spec_declare_write(reads, writes, key);
            spec_declare_read(r2, w2, key)
        }),
        ({
            let (r1, w1) = spec_declare_read(reads, writes, key);
            spec_declare_write(r1, w1, key)
        }) == (reads.remove(key), writes.insert(key)),
        !(reads.remove(key)).contains(key),
        writes.insert(key).contains(key),
{
    if !writes.contains(key) {
        assert(reads.insert(key).remove(key) =~= reads.remove(key));
    }
}

/// Law: units whose permission sets do not conflict cannot disturb one
/// another.  Each unit's deferred effect is a map of new values for keys it
/// declared written; when the sets do not conflict the two effects commute,
/// and neither effect changes any key the other unit reads or writes.
pub proof fn lemma_no_conflict_runs_commute(
    a_reads: Set<u64>,
    a_writes: Set<u64>,
    b_reads: Set<u64>,
    b_writes: Set<u64>,
    store: Map<u64, u64>,
    effect_a: Map<u64, u64>,
    effect_b: Map<u64, u64>,
)
    requires
        !sets_conflict(a_reads, a_writes, b_reads, b_writes),
        effect_a.dom().subset_of(a_writes),
        effect_b.dom().subset_of(b_writes),
    ensures
        store.union_prefer_right(effect_a).union_prefer_right(effect_b)
            == store.union_prefer_right(effect_b).union_prefer_right(effect_a),
        forall|k: u64|
            (a_reads.contains(k) || a_writes.contains(k)) && store.dom().contains(k)
                ==> #[trigger] store.union_prefer_right(effect_b)[k] == store[k],
        forall|k: u64|
            (b_reads.contains(k) || b_writes.contains(k)) && store.dom().contains(k)
                ==> #[trigger] store.union_prefer_right(effect_a)[k] == store[k],
{
    assert forall|k: u64|
        (a_reads.contains(k) || a_writes.contains(k)) && store.dom().contains(
            k,
        ) implies #[trigger] store.union_prefer_right(effect_b)[k] == store[k] by {
        assert(!(b_writes.contains(k) && (a_reads.contains(k) || a_writes.contains(k))));
        assert(!effect_b.dom().contains(k));
    }
    assert forall|k: u64|
        (b_reads.contains(k) || b_writes.contains(k)) && store.dom().contains(
            k,
        ) implies #[trigger] store.union_prefer_right(effect_a)[k] == store[k] by {
        assert(!(a_writes.contains(k) && (b_reads.contains(k) || b_writes.contains(k))));
        assert(!effect_a.dom().contains(k));
    }
    assert(store.union_prefer_right(effect_a).union_prefer_right(effect_b)
        =~= store.union_prefer_right(effect_b).union_prefer_right(effect_a)) by {
        assert forall|k: u64| !(effect_a.dom().contains(k) && effect_b.dom().contains(k)) by {
            if effect_a.dom().contains(k) && effect_b.dom().contains(k) {
                assert(a_writes.contains(k) && b_writes.contains(k));
            }
        }
    }
}

fn clone_vec_u64(v: &Vec<u64>) -> (r: Vec<u64>)
    ensures
        r@ == v@,
{
    let mut out: Vec<u64> = Vec::new();
    let mut i: usize = 0;
    while i < v.len()
        invariant
            i <= v@.len(),
            out@ == v@.take(i as int),
        decreases v@.len() - i,
    {
        out.push(v[i]);
        proof {
            assert(out@ =~= v@.take(i + 1));
        }
        i += 1;
    }
    proof {
        assert(out@ =~= v@);
    }
    out
}

/// Membership test on a vector of keys.
pub fn vec_contains_u64(v: &Vec<u64>, key: u64) -> (r: bool)
    ensures
        r == v@.contains(key),
{
    let mut i: usize = 0;
    while i < v.len()
        invariant
            i <= v@.len(),
            forall|j: int| 0 <= j < i ==> v@[j] != key,
        decreases v@.len() - i,
    {
        if v[i] == key {
            proof {
                assert(v@[i as int] == key);
            }
            return true;
        }
        i += 1;
    }
    false
}

/// Removes the one occurrence of `key`, if any, from a duplicate-free
/// vector of keys.
fn vec_remove_value_u64(v: &mut Vec<u64>, key: u64)
    requires
        old(v)@.no_duplicates(),
    ensures
        final(v)@.no_duplicates(),
        final(v)@.to_set() == old(v)@.to_set().remove(key),
{
    let mut i: usize = 0;
    while i < v.len()
        invariant
            i <= v@.len(),
            v@ == old(v)@,
            old(v)@.no_duplicates(),
            forall|j: int| 0 <= j < i ==> v@[j] != key,
        decreases v@.len() - i,
    {
        if v[i] == key {
            let ghost pre = v@;
            v.remove(i);
            proof {
                assert(v@ == pre.remove(i as int));
                assert(pre[i as int] == key);
                assert(pre.no_duplicates());
                assert(forall|p: int, q: int|
                    0 <= p < pre.len() && 0 <= q < pre.len() && p != q ==> pre[p] != pre[q]);
                pre.remove_ensures(i as int);
                assert forall|x: u64| #[trigger] v@.contains(x) implies pre.contains(x) && x
                    != key by {
                    let j = choose|j: int| 0 <= j < v@.len() && v@[j] == x;
                    assert(pre.remove(i as int)[j] == x);
                    if j < i {
                        assert(pre.remove(i as int)[j] == pre[j]);
                        assert(pre[j] == x);
                        assert(pre[j] != key);
                    } else {
                        assert(pre.remove(i as int)[j] == pre[j + 1]);
                        assert(pre[j + 1] == x);
                        assert(pre[j + 1] != pre[i as int]);
                    }
                }
                assert forall|x: u64| pre.contains(x) && x != key implies #[trigger] v@.contains(
                    x,
                ) by {
                    let j = choose|j: int| 0 <= j < pre.len() && pre[j] == x;
                    if j < i {
                        assert(pre.remove(i as int)[j] == pre[j]);
                        assert(v@[j] == x);
                    } else {
                        assert(j != i);
                        assert(pre.remove(i as int)[j - 1] == pre[j]);
                        assert(v@[j - 1] == x);
                    }
                }
                assert(v@.to_set() =~= old(v)@.to_set().remove(key));
                assert forall|j: int, m: int| 0 <= j < m < v@.len() implies v@[j] != v@[m] by {
                    if m < i {
                        assert(pre.remove(i as int)[j] == pre[j]);
                        assert(pre.remove(i as int)[m] == pre[m]);
                    } else if j < i {
                        assert(pre.remove(i as int)[j] == pre[j]);
                        assert(pre.remove(i as int)[m] == pre[m + 1]);
                    } else {
                        assert(pre.remove(i as int)[j] == pre[j + 1]);
                        assert(pre.remove(i as int)[m] == pre[m + 1]);
                    }
                }
            }
            return ;
        }
        i += 1;
    }
    proof {
        assert(!v@.contains(key));
        assert(v@.to_set() =~= old(v)@.to_set().remove(key));
    }
}

} // verus!
