//! The per-unit archetype-access cache.  A unit built only from queries
//! tracks the precise set of archetype indices those queries match, held in
//! a `bit_set::BitSet`; a unit with any direct, non-query component
//! declaration is marked `All` for good and treated as touching every
//! archetype that carries the component.

use vstd::prelude::*;

verus! {

/// The index cache, backed by a `bit_set::BitSet`.  The struct is opaque
/// to the verifier; everything known of it flows through the contracts of
/// the wrappers below, held against the bit-set crate's source.
#[verifier::external_body]
pub struct IndexSet {
    inner: bit_set::BitSet,
}

/// The set of indices an `IndexSet` holds.
pub uninterp spec fn bitset_elems(b: IndexSet) -> Set<usize>;

/// Relies on bit_set::BitSet::new: a freshly created set holds nothing.
#[verifier::external_body]
pub(crate) fn bitset_new() -> (r: IndexSet)
    ensures
        bitset_elems(r) == Set::<usize>::empty(),
{
    IndexSet { inner: bit_set::BitSet::new() }
}

/// Relies on bit_set::BitSet::insert: adds one value to the set and
/// reports whether it was absent before.  The largest index is excluded:
/// growing the backing bit vector to hold it would overflow its length.
#[verifier::external_body]
pub(crate) fn bitset_insert(b: &mut IndexSet, value: usize) -> (r: bool)
    requires
        value < usize::MAX,
    ensures
        bitset_elems(*final(b)) == bitset_elems(*old(b)).insert(value),
        r == !bitset_elems(*old(b)).contains(value),
{
    b.inner.insert(value)
}

/// Relies on bit_set::BitSet::contains.
#[verifier::external_body]
pub(crate) fn bitset_contains(b: &IndexSet, value: usize) -> (r: bool)
    ensures
        r == bitset_elems(*b).contains(value),
{
    b.inner.contains(value)
}

/// Relies on bit_set::BitSet::make_empty: removes every element.
#[verifier::external_body]
pub(crate) fn bitset_make_empty(b: &mut IndexSet)
    ensures
        bitset_elems(*final(b)) == Set::<usize>::empty(),
{
    b.inner.make_empty()
}

/// Relies on bit_set::BitSet::iter: yields each held index once, in
/// ascending order.
#[verifier::external_body]
pub(crate) fn bitset_indices(b: &IndexSet) -> (r: Vec<usize>)
    ensures
        forall|x: usize| r@.contains(x) <==> bitset_elems(*b).contains(x),
        forall|i: int, j: int| 0 <= i < j < r@.len() ==> r@[i] < r@[j],
{
    b.inner.iter().collect()
}

/// Which archetypes a unit must be assumed to touch.
pub enum ArchetypeAccess {
    /// Conservative: every archetype carrying a declared component.
    All,
    /// Precise: exactly the cached indices, recomputed each tick.
    Filtered(IndexSet),
}

impl ArchetypeAccess {
    /// The cached index set of a `Filtered` access.
    pub open spec fn spec_cached(self) -> Set<usize>
        recommends
            self is Filtered,
    {
        bitset_elems(self->Filtered_0)
    }

    pub fn is_all(&self) -> (r: bool)
        ensures
            r == (*self is All),
    {
        match self {
            ArchetypeAccess::All => true,
            ArchetypeAccess::Filtered(_) => false,
        }
    }

    /// Whether the unit must be assumed to touch archetype `index`.
    pub fn may_touch(&self, index: usize) -> (r: bool)
        ensures
            *self is All ==> r,
            *self is Filtered ==> r == self.spec_cached().contains(index),
    {
        match self {
            ArchetypeAccess::All => true,
            ArchetypeAccess::Filtered(b) => bitset_contains(b, index),
        }
    }

    /// The cached indices of a `Filtered` access, ascending; `None` for `All`.
    pub fn cached_indices(&self) -> (r: Option<Vec<usize>>)
        ensures
            match r {
                None => *self is All,
                Some(v) => *self is Filtered && (forall|x: usize|
                    v@.contains(x) <==> self.spec_cached().contains(x)) && (forall|i: int, j: int|
                    0 <= i < j < v@.len() ==> v@[i] < v@[j]),
            },
    {
        match self {
            ArchetypeAccess::All => None,
            ArchetypeAccess::Filtered(b) => Some(bitset_indices(b)),
        }
    }
}

} // verus!
