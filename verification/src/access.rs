//! Declared read/write footprints over storage keys, with the
//! compatibility and conflict tests used to schedule units of work.
//!
//! A key is a `u64`: either an encoded component-in-archetype slot or a
//! resource key.  Two footprints are compatible when no key is written by
//! one and read or written by the other.

use vstd::prelude::*;

verus! {

/// Spec-level mirror of a [`TypeAccess`]: the declared reads and writes,
/// in declaration order.
#[verifier::ext_equal]
pub struct TypeAccessData {
    pub reads: Seq<u64>,
    pub writes: Seq<u64>,
}

impl TypeAccessData {
    /// The footprint with nothing declared.
    pub open spec fn empty() -> TypeAccessData {
        TypeAccessData { reads: Seq::empty(), writes: Seq::empty() }
    }

    /// The key is declared, whether as a read or as a write.
    pub open spec fn sees(self, k: u64) -> bool {
        self.reads.contains(k) || self.writes.contains(k)
    }

    /// No key is written by one side and read or written by the other.
    pub open spec fn compatible_with(self, other: TypeAccessData) -> bool {
        &&& forall|k: u64| #[trigger] self.writes.contains(k) ==> !other.sees(k)
        &&& forall|k: u64| #[trigger] other.writes.contains(k) ==> !self.sees(k)
    }

    /// Both footprints merged.
    pub open spec fn union_with(self, other: TypeAccessData) -> TypeAccessData {
        TypeAccessData { reads: self.reads + other.reads, writes: self.writes + other.writes }
    }
}

/// The first key of `keys`, scanning from position `i`, that `other` sees.
pub open spec fn first_seen_from(keys: Seq<u64>, other: TypeAccessData, i: int) -> Option<u64>
    decreases keys.len() - i,
{
    if i < 0 || i >= keys.len() {
        None
    } else if other.sees(keys[i]) {
        Some(keys[i])
    } else {
        first_seen_from(keys, other, i + 1)
    }
}

/// The first colliding key between two footprints: the first of `a`'s
/// writes that `b` sees, else the first of `b`'s writes that `a` sees.
pub open spec fn first_conflict(a: TypeAccessData, b: TypeAccessData) -> Option<u64> {
    match first_seen_from(a.writes, b, 0) {
        Some(k) => Some(k),
        None => first_seen_from(b.writes, a, 0),
    }
}

proof fn lemma_first_seen_from_none(keys: Seq<u64>, other: TypeAccessData, i: int)
    requires
        0 <= i <= keys.len(),
    ensures
        first_seen_from(keys, other, i) is None <==> forall|j: int|
            i <= j < keys.len() ==> !other.sees(#[trigger] keys[j]),
    decreases keys.len() - i,
{
    if i < keys.len() {
        lemma_first_seen_from_none(keys, other, i + 1);
    }
}

/// A conflict exists exactly when the two footprints are incompatible.
pub proof fn lemma_first_conflict_iff_incompatible(a: TypeAccessData, b: TypeAccessData)
    ensures
        first_conflict(a, b) is None <==> a.compatible_with(b),
{
    lemma_first_seen_from_none(a.writes, b, 0);
    lemma_first_seen_from_none(b.writes, a, 0);
    if first_conflict(a, b) is None {
        assert forall|k: u64| #[trigger] a.writes.contains(k) implies !b.sees(k) by {
            let j = choose|j: int| 0 <= j < a.writes.len() && a.writes[j] == k;
            assert(!b.sees(a.writes[j]));
        }
        assert forall|k: u64| #[trigger] b.writes.contains(k) implies !a.sees(k) by {
            let j = choose|j: int| 0 <= j < b.writes.len() && b.writes[j] == k;
            assert(!a.sees(b.writes[j]));
        }
    }
    if a.compatible_with(b) {
        assert forall|j: int| 0 <= j < a.writes.len() implies !b.sees(#[trigger] a.writes[j]) by {
            assert(a.writes.contains(a.writes[j]));
        }
        assert forall|j: int| 0 <= j < b.writes.len() implies !a.sees(#[trigger] b.writes[j]) by {
            assert(b.writes.contains(b.writes[j]));
        }
    }
}

/// A declared read/write footprint over `u64` keys.
pub struct TypeAccess {
    reads: Vec<u64>,
    writes: Vec<u64>,
}

impl View for TypeAccess {
    type V = TypeAccessData;

    closed spec fn view(&self) -> TypeAccessData {
        TypeAccessData { reads: self.reads@, writes: self.writes@ }
    }
}

/// Whether `v` holds `k`.
pub(crate) fn slice_contains(v: &Vec<u64>, k: u64) -> (r: bool)
    ensures
        r == v@.contains(k),
{
    let mut i: usize = 0;
    while i < v.len()
        invariant
            0 <= i <= v@.len(),
            forall|j: int| 0 <= j < i ==> v@[j] != k,
        decreases v@.len() - i,
    {
        if v[i] == k {
            return true;
        }
        i += 1;
    }
    false
}

impl TypeAccess {
    /// A footprint with nothing declared.
    pub fn new() -> (r: TypeAccess)
        ensures
            r@ == TypeAccessData::empty(),
    {
        let r = TypeAccess { reads: Vec::new(), writes: Vec::new() };
        proof {
            assert(r@.reads =~= Seq::<u64>::empty());
            assert(r@.writes =~= Seq::<u64>::empty());
        }
        r
    }

    /// Declare a read of `k`.
    pub fn add_read(&mut self, k: u64)
        ensures
            final(self)@.reads == old(self)@.reads.push(k),
            final(self)@.writes == old(self)@.writes,
    {
        self.reads.push(k);
    }

    /// Declare a write of `k`.
    pub fn add_write(&mut self, k: u64)
        ensures
            final(self)@.reads == old(self)@.reads,
            final(self)@.writes == old(self)@.writes.push(k),
    {
        self.writes.push(k);
    }

    /// Forget everything declared.
    pub fn clear(&mut self)
        ensures
            final(self)@ == TypeAccessData::empty(),
    {
        self.reads.clear();
        self.writes.clear();
        proof {
            assert(final(self)@.reads =~= Seq::<u64>::empty());
            assert(final(self)@.writes =~= Seq::<u64>::empty());
        }
    }

    /// Whether `k` is declared, as a read or as a write.
    pub fn sees(&self, k: u64) -> (r: bool)
        ensures
            r == self@.sees(k),
    {
        slice_contains(&self.reads, k) || slice_contains(&self.writes, k)
    }

    /// Whether `k` is declared as a write.
    pub fn is_write(&self, k: u64) -> (r: bool)
        ensures
            r == self@.writes.contains(k),
    {
        slice_contains(&self.writes, k)
    }

    /// Merge every key of `other` into this footprint.
    pub fn union(&mut self, other: &TypeAccess)
        ensures
            final(self)@ == old(self)@.union_with(other@),
    {
        let mut i: usize = 0;
        while i < other.reads.len()
            invariant
                0 <= i <= other@.reads.len(),
                self@.reads == old(self)@.reads + other@.reads.take(i as int),
                self@.writes == old(self)@.writes,
            decreases other@.reads.len() - i,
        {
            let k = other.reads[i];
            self.reads.push(k);
            proof {
                assert(other@.reads.take(i + 1) =~= other@.reads.take(i as int).push(k));
                assert(self@.reads =~= old(self)@.reads + other@.reads.take(i + 1));
            }
            i += 1;
        }
        let mut j: usize = 0;
        while j < other.writes.len()
            invariant
                0 <= j <= other@.writes.len(),
                self@.reads == old(self)@.reads + other@.reads.take(other@.reads.len() as int),
                self@.writes == old(self)@.writes + other@.writes.take(j as int),
            decreases other@.writes.len() - j,
        {
            let k = other.writes[j];
            self.writes.push(k);
            proof {
                assert(other@.writes.take(j + 1) =~= other@.writes.take(j as int).push(k));
                assert(self@.writes =~= old(self)@.writes + other@.writes.take(j + 1));
            }
            j += 1;
        }
        proof {
            assert(other@.reads.take(other@.reads.len() as int) =~= other@.reads);
            assert(other@.writes.take(other@.writes.len() as int) =~= other@.writes);
            assert(self@.reads =~= old(self)@.reads + other@.reads);
            assert(self@.writes =~= old(self)@.writes + other@.writes);
        }
    }

    /// The first colliding key with `other`, if any.
    pub fn get_conflict(&self, other: &TypeAccess) -> (r: Option<u64>)
        ensures
            r == first_conflict(self@, other@),
    {
        let mut i: usize = 0;
        while i < self.writes.len()
            invariant
                0 <= i <= self@.writes.len(),
                first_seen_from(self@.writes, other@, 0) == first_seen_from(
                    self@.writes,
                    other@,
                    i as int,
                ),
            decreases self@.writes.len() - i,
        {
            let k = self.writes[i];
            if other.sees(k) {
                return Some(k);
            }
            i += 1;
        }
        let mut j: usize = 0;
        while j < other.writes.len()
            invariant
                0 <= j <= other@.writes.len(),
                first_seen_from(self@.writes, other@, 0) is None,
                first_seen_from(other@.writes, self@, 0) == first_seen_from(
                    other@.writes,
                    self@,
                    j as int,
                ),
            decreases other@.writes.len() - j,
        {
            let k = other.writes[j];
            if self.sees(k) {
                return Some(k);
            }
            j += 1;
        }
        None
    }

    /// Whether this footprint and `other` may touch storage concurrently.
    pub fn is_compatible(&self, other: &TypeAccess) -> (r: bool)
        ensures
            r == self@.compatible_with(other@),
    {
        proof {
            lemma_first_conflict_iff_incompatible(self@, other@);
        }
        match self.get_conflict(other) {
            Some(_) => false,
            None => true,
        }
    }
}

} // verus!
