//! A minimal component store: entities grouped into archetypes by their
//! exact component layout, with integer component keys and values.
//!
//! Units of work never touch this store beyond what their declared access
//! footprint permits; the footprint is computed per archetype through
//! [`slot_key`], which packs an archetype index and a component key into
//! one storage-slot key.

use vstd::prelude::*;
use crate::access::TypeAccess;

verus! {

/// Component keys live below this bound so that a slot key can pack an
/// archetype index and a component key into one `u64`.
pub const COMPONENT_KEY_LIMIT: u64 = 0x1_0000_0000;

/// The storage-slot key of component `comp` inside archetype `arch`.
pub open spec fn slot_key(arch: int, comp: u64) -> u64 {
    (arch * 0x1_0000_0000 + comp) as u64
}

/// Packing is injective while indexes and keys stay in bounds.
pub proof fn lemma_slot_key_injective(a1: int, c1: u64, a2: int, c2: u64)
    requires
        0 <= a1 < 0x1_0000_0000,
        0 <= a2 < 0x1_0000_0000,
        c1 < COMPONENT_KEY_LIMIT,
        c2 < COMPONENT_KEY_LIMIT,
        slot_key(a1, c1) == slot_key(a2, c2),
    ensures
        a1 == a2,
        c1 == c2,
{
    assert(a1 * 0x1_0000_0000 + c1 == a2 * 0x1_0000_0000 + c2) by (nonlinear_arith)
        requires
            0 <= a1 < 0x1_0000_0000,
            0 <= a2 < 0x1_0000_0000,
            c1 < 0x1_0000_0000,
            c2 < 0x1_0000_0000,
            slot_key(a1, c1) == slot_key(a2, c2),
    {
        assert(0 <= a1 * 0x1_0000_0000 + c1 < 0x1_0000_0000_0000_0000);
        assert(0 <= a2 * 0x1_0000_0000 + c2 < 0x1_0000_0000_0000_0000);
    }
    assert(a1 == a2 && c1 == c2) by (nonlinear_arith)
        requires
            0 <= a1 < 0x1_0000_0000,
            0 <= a2 < 0x1_0000_0000,
            c1 < 0x1_0000_0000,
            c2 < 0x1_0000_0000,
            a1 * 0x1_0000_0000 + c1 == a2 * 0x1_0000_0000 + c2,
    ;
}

/// Computes the slot key of `comp` in archetype `arch`.
pub fn slot_key_exec(arch: usize, comp: u64) -> (r: u64)
    requires
        arch < 0x1_0000_0000,
        comp < COMPONENT_KEY_LIMIT,
    ensures
        r == slot_key(arch as int, comp),
{
    (arch as u64) * 0x1_0000_0000u64 + comp
}

/// The keys are strictly increasing.
pub open spec fn strictly_sorted(s: Seq<u64>) -> bool {
    forall|i: int, j: int| 0 <= i < j < s.len() ==> s[i] < s[j]
}

/// Every key is below [`COMPONENT_KEY_LIMIT`].
pub open spec fn keys_bounded(s: Seq<u64>) -> bool {
    forall|i: int| 0 <= i < s.len() ==> s[i] < COMPONENT_KEY_LIMIT
}

/// Spec-level mirror of a [`QueryShape`].
#[verifier::ext_equal]
pub struct QueryShapeData {
    pub filter: Seq<u64>,
    pub reads: Seq<u64>,
    pub writes: Seq<u64>,
}

impl QueryShapeData {
    /// Every component key the shape demands of a matching archetype.
    pub open spec fn required(self) -> Seq<u64> {
        self.filter + self.reads + self.writes
    }

    /// The shape only names keys a slot key can carry.
    pub open spec fn wf(self) -> bool {
        keys_bounded(self.required())
    }

    /// An archetype with this layout holds every component the shape
    /// filters on, reads or writes.
    pub open spec fn matches(self, layout: Seq<u64>) -> bool {
        forall|i: int| 0 <= i < self.required().len() ==> layout.contains(
            #[trigger] self.required()[i],
        )
    }
}

/// A declared query pattern: components that must be present, components
/// read, and components written.
pub struct QueryShape {
    /// Components that must be present but are not accessed.
    pub filter: Vec<u64>,
    /// Components read by the query.
    pub reads: Vec<u64>,
    /// Components written by the query.
    pub writes: Vec<u64>,
}

impl View for QueryShape {
    type V = QueryShapeData;

    open spec fn view(&self) -> QueryShapeData {
        QueryShapeData { filter: self.filter@, reads: self.reads@, writes: self.writes@ }
    }
}

/// Whether every key of `needles` occurs in `hay`.
pub(crate) fn all_in(needles: &Vec<u64>, hay: &Vec<u64>) -> (r: bool)
    ensures
        r == forall|i: int| 0 <= i < needles@.len() ==> hay@.contains(#[trigger] needles@[i]),
{
    let mut i: usize = 0;
    while i < needles.len()
        invariant
            0 <= i <= needles@.len(),
            forall|j: int| 0 <= j < i ==> hay@.contains(#[trigger] needles@[j]),
        decreases needles@.len() - i,
    {
        if !crate::access::slice_contains(hay, needles[i]) {
            return false;
        }
        i += 1;
    }
    true
}

impl QueryShape {
    /// A shape with no filter and no accessed components.
    pub fn new() -> (r: QueryShape)
        ensures
            r@.filter == Seq::<u64>::empty(),
            r@.reads == Seq::<u64>::empty(),
            r@.writes == Seq::<u64>::empty(),
    {
        QueryShape { filter: Vec::new(), reads: Vec::new(), writes: Vec::new() }
    }

    /// Whether an archetype with this layout is matched by the shape.
    pub fn matches_layout(&self, layout: &Vec<u64>) -> (r: bool)
        ensures
            r == self@.matches(layout@),
    {
        let r = all_in(&self.filter, layout) && all_in(&self.reads, layout) && all_in(
            &self.writes,
            layout,
        );
        proof {
            let req = self@.required();
            if r {
                assert forall|i: int| 0 <= i < req.len() implies layout@.contains(
                    #[trigger] req[i],
                ) by {
                    let nf = self@.filter.len() as int;
                    let nr = self@.reads.len() as int;
                    if i < nf {
                        assert(req[i] == self@.filter[i]);
                    } else if i < nf + nr {
                        assert(req[i] == self@.reads[i - nf]);
                    } else {
                        assert(req[i] == self@.writes[i - nf - nr]);
                    }
                }
            } else {
                let nf = self@.filter.len() as int;
                let nr = self@.reads.len() as int;
                if !all_in_holds(self@.filter, layout@) {
                    let i = choose|i: int| 0 <= i < self@.filter.len() && !layout@.contains(
                        #[trigger] self@.filter[i],
                    );
                    assert(req[i] == self@.filter[i]);
                    assert(!self@.matches(layout@));
                } else if !all_in_holds(self@.reads, layout@) {
                    let i = choose|i: int| 0 <= i < self@.reads.len() && !layout@.contains(
                        #[trigger] self@.reads[i],
                    );
                    assert(req[nf + i] == self@.reads[i]);
                    assert(!self@.matches(layout@));
                } else {
                    let i = choose|i: int| 0 <= i < self@.writes.len() && !layout@.contains(
                        #[trigger] self@.writes[i],
                    );
                    assert(req[nf + nr + i] == self@.writes[i]);
                    assert(!self@.matches(layout@));
                }
            }
        }
        r
    }
}

/// Whether every key of `needles` occurs in `hay` (spec form).
pub open spec fn all_in_holds(needles: Seq<u64>, hay: Seq<u64>) -> bool {
    forall|i: int| 0 <= i < needles.len() ==> hay.contains(#[trigger] needles[i])
}

/// Spec-level mirror of a [`Row`].
#[verifier::ext_equal]
pub struct RowData {
    pub entity: u64,
    pub vals: Seq<i64>,
}

/// Spec-level mirror of an [`Archetype`].
#[verifier::ext_equal]
pub struct ArchetypeData {
    pub layout: Seq<u64>,
    pub rows: Seq<RowData>,
}

impl ArchetypeData {
    /// Sorted bounded layout; every row has one value per component.
    pub open spec fn wf(self) -> bool {
        &&& strictly_sorted(self.layout)
        &&& keys_bounded(self.layout)
        &&& forall|i: int| 0 <= i < self.rows.len() ==> (#[trigger] self.rows[i]).vals.len()
            == self.layout.len()
    }
}

/// Spec-level mirror of a [`World`].
#[verifier::ext_equal]
pub struct WorldData {
    pub archetypes: Seq<ArchetypeData>,
    pub next_entity: u64,
}

impl WorldData {
    /// Every archetype is well formed and the table fits the slot-key
    /// encoding.
    pub open spec fn wf(self) -> bool {
        &&& self.archetypes.len() <= 0x1_0000_0000
        &&& forall|i: int| 0 <= i < self.archetypes.len() ==> (
        #[trigger] self.archetypes[i]).wf()
    }
}

/// One entity inside an archetype: its identifier and one value per
/// component of the archetype's layout.
pub struct Row {
    /// The entity identifier.
    pub entity: u64,
    /// The component values, parallel to the archetype layout.
    pub vals: Vec<i64>,
}

impl View for Row {
    type V = RowData;

    open spec fn view(&self) -> RowData {
        RowData { entity: self.entity, vals: self.vals@ }
    }
}

/// A group of entities sharing one exact component layout.
pub struct Archetype {
    /// The strictly increasing component keys of the group.
    pub layout: Vec<u64>,
    /// The entities of the group.
    pub rows: Vec<Row>,
}

impl View for Archetype {
    type V = ArchetypeData;

    open spec fn view(&self) -> ArchetypeData {
        ArchetypeData { layout: self.layout@, rows: self.rows@.map_values(|r: Row| r@) }
    }
}

/// The component store: archetypes plus the next entity identifier.
pub struct World {
    archetypes: Vec<Archetype>,
    next_entity: u64,
}

impl View for World {
    type V = WorldData;

    closed spec fn view(&self) -> WorldData {
        WorldData {
            archetypes: self.archetypes@.map_values(|a: Archetype| a@),
            next_entity: self.next_entity,
        }
    }
}

/// The component keys of a component list.
pub open spec fn layout_of(comps: Seq<(u64, i64)>) -> Seq<u64> {
    comps.map_values(|p: (u64, i64)| p.0)
}

/// The component values of a component list.
pub open spec fn vals_of(comps: Seq<(u64, i64)>) -> Seq<i64> {
    comps.map_values(|p: (u64, i64)| p.1)
}

/// A component list fit for spawning: strictly increasing, bounded keys.
pub open spec fn components_wf(comps: Seq<(u64, i64)>) -> bool {
    strictly_sorted(layout_of(comps)) && keys_bounded(layout_of(comps))
}

/// The first archetype at or after `i` whose layout is exactly `layout`.
pub open spec fn find_archetype(archs: Seq<ArchetypeData>, layout: Seq<u64>, i: int) -> Option<int>
    decreases archs.len() - i,
{
    if i < 0 || i >= archs.len() {
        None
    } else if archs[i].layout == layout {
        Some(i)
    } else {
        find_archetype(archs, layout, i + 1)
    }
}

/// What spawning does: the new entity takes the next identifier, and its
/// row lands in the archetype with exactly the spawned layout, a fresh
/// archetype if none exists and the table has room.
pub open spec fn spawn_spec(w: WorldData, comps: Seq<(u64, i64)>) -> (WorldData, u64) {
    let id = w.next_entity;
    let next = if id == u64::MAX {
        id
    } else {
        (id + 1) as u64
    };
    let row = RowData { entity: id, vals: vals_of(comps) };
    match find_archetype(w.archetypes, layout_of(comps), 0) {
        Some(i) => (
            WorldData {
                archetypes: w.archetypes.update(
                    i,
                    ArchetypeData {
                        layout: w.archetypes[i].layout,
                        rows: w.archetypes[i].rows.push(row),
                    },
                ),
                next_entity: next,
            },
            id,
        ),
        None => if w.archetypes.len() < 0x1_0000_0000 {
            (
                WorldData {
                    archetypes: w.archetypes.push(
                        ArchetypeData { layout: layout_of(comps), rows: seq![row] },
                    ),
                    next_entity: next,
                },
                id,
            )
        } else {
            (WorldData { archetypes: w.archetypes, next_entity: next }, id)
        },
    }
}

/// Whether the seqs of two `u64` vectors are equal.
pub(crate) fn layout_eq(a: &Vec<u64>, b: &Vec<u64>) -> (r: bool)
    ensures
        r == (a@ == b@),
{
    if a.len() != b.len() {
        return false;
    }
    let mut i: usize = 0;
    while i < a.len()
        invariant
            0 <= i <= a@.len(),
            a@.len() == b@.len(),
            forall|j: int| 0 <= j < i ==> a@[j] == b@[j],
        decreases a@.len() - i,
    {
        if a[i] != b[i] {
            assert(a@ != b@);
            return false;
        }
        i += 1;
    }
    proof {
        assert(a@ =~= b@);
    }
    true
}

/// The first row at or after `j` carrying `entity`.
pub open spec fn find_row(rows: Seq<RowData>, entity: u64, j: int) -> Option<RowData>
    decreases rows.len() - j,
{
    if j < 0 || j >= rows.len() {
        None
    } else if rows[j].entity == entity {
        Some(rows[j])
    } else {
        find_row(rows, entity, j + 1)
    }
}

/// The first position at or after `i` where `k` occurs in `s`.
pub open spec fn first_index(s: Seq<u64>, k: u64, i: int) -> Option<int>
    decreases s.len() - i,
{
    if i < 0 || i >= s.len() {
        None
    } else if s[i] == k {
        Some(i)
    } else {
        first_index(s, k, i + 1)
    }
}

/// A found position is in range and carries the key looked for.
pub proof fn lemma_first_index_found(s: Seq<u64>, k: u64, i: int)
    requires
        first_index(s, k, i) is Some,
    ensures
        i <= first_index(s, k, i)->Some_0 < s.len(),
        s[first_index(s, k, i)->Some_0] == k,
    decreases s.len() - i,
{
    if !(i < 0 || i >= s.len()) && s[i] != k {
        lemma_first_index_found(s, k, i + 1);
    }
}

/// The value of component `comp` on `entity` in one archetype, if the
/// archetype carries both.
pub open spec fn arch_get(a: ArchetypeData, entity: u64, comp: u64) -> Option<i64> {
    match first_index(a.layout, comp, 0) {
        None => None,
        Some(c) => match find_row(a.rows, entity, 0) {
            None => None,
            Some(r) => Some(r.vals[c]),
        },
    }
}

/// The value of component `comp` on `entity`: the first archetype holding
/// both decides.
pub open spec fn world_get_from(
    archs: Seq<ArchetypeData>,
    entity: u64,
    comp: u64,
    i: int,
) -> Option<i64>
    decreases archs.len() - i,
{
    if i < 0 || i >= archs.len() {
        None
    } else {
        match arch_get(archs[i], entity, comp) {
            Some(v) => Some(v),
            None => world_get_from(archs, entity, comp, i + 1),
        }
    }
}

/// Finds the first position of `k` in `v`, if any.
pub(crate) fn find_index_exec(v: &Vec<u64>, k: u64) -> (r: Option<usize>)
    ensures
        match r {
            Some(i) => first_index(v@, k, 0) == Some(i as int),
            None => first_index(v@, k, 0) is None,
        },
{
    let mut i: usize = 0;
    while i < v.len()
        invariant
            0 <= i <= v@.len(),
            first_index(v@, k, 0) == first_index(v@, k, i as int),
        decreases v@.len() - i,
    {
        if v[i] == k {
            return Some(i);
        }
        i += 1;
    }
    None
}

impl World {
    /// An empty store: no archetypes, identifiers starting at zero.
    pub fn new() -> (r: World)
        ensures
            r@.archetypes == Seq::<ArchetypeData>::empty(),
            r@.next_entity == 0,
            r@.wf(),
    {
        let r = World { archetypes: Vec::new(), next_entity: 0 };
        proof {
            assert(r@.archetypes =~= Seq::<ArchetypeData>::empty());
        }
        r
    }

    /// Creates an entity carrying `components` and returns its
    /// identifier.
    pub fn spawn(&mut self, components: Vec<(u64, i64)>) -> (id: u64)
        requires
            old(self)@.wf(),
            components_wf(components@),
        ensures
            final(self)@ == spawn_spec(old(self)@, components@).0,
            id == spawn_spec(old(self)@, components@).1,
            final(self)@.wf(),
    {
        let ghost w0 = self@;
        let id = self.next_entity;
        if id < u64::MAX {
            self.next_entity = id + 1;
        }
        let mut layout: Vec<u64> = Vec::new();
        let mut vals: Vec<i64> = Vec::new();
        let mut k: usize = 0;
        while k < components.len()
            invariant
                0 <= k <= components@.len(),
                layout@ == layout_of(components@.take(k as int)),
                vals@ == vals_of(components@.take(k as int)),
            decreases components@.len() - k,
        {
            layout.push(components[k].0);
            vals.push(components[k].1);
            proof {
                assert(components@.take(k + 1) =~= components@.take(k as int).push(
                    components@[k as int],
                ));
                assert(layout_of(components@.take(k + 1)) =~= layout_of(
                    components@.take(k as int),
                ).push(components@[k as int].0));
                assert(vals_of(components@.take(k + 1)) =~= vals_of(
                    components@.take(k as int),
                ).push(components@[k as int].1));
            }
            k += 1;
        }
        proof {
            assert(components@.take(components@.len() as int) =~= components@);
        }
        let row = Row { entity: id, vals };
        let ghost rowv = row@;
        let mut i: usize = 0;
        while i < self.archetypes.len()
            invariant
                0 <= i <= self.archetypes.len(),
                w0 == old(self)@,
                id == spawn_spec(w0, components@).1,
                self@.archetypes == w0.archetypes,
                self@.next_entity == spawn_spec(w0, components@).0.next_entity,
                layout@ == layout_of(components@),
                find_archetype(w0.archetypes, layout@, 0) == find_archetype(
                    w0.archetypes,
                    layout@,
                    i as int,
                ),
                row@ == rowv,
                rowv == (RowData { entity: spawn_spec(w0, components@).1, vals: vals_of(components@) }),
                w0.wf(),
            decreases self.archetypes.len() - i,
        {
            if layout_eq(&self.archetypes[i].layout, &layout) {
                self.archetypes[i].rows.push(row);
                proof {
                    assert(find_archetype(w0.archetypes, layout@, i as int) == Some(i as int));
                    let target = spawn_spec(w0, components@).0;
                    assert(self@.archetypes.len() == target.archetypes.len());
                    assert(self@.archetypes[i as int].rows =~= w0.archetypes[i as int].rows.push(
                        rowv,
                    ));
                    assert(self@.archetypes[i as int] =~= target.archetypes[i as int]);
                    assert forall|n: int|
                        0 <= n < self@.archetypes.len() implies self@.archetypes[n]
                        == #[trigger] target.archetypes[n] by {
                        if n != i {
                            assert(self@.archetypes[n] == w0.archetypes[n]);
                        }
                    }
                    assert(self@.archetypes =~= target.archetypes);
                    assert(self@ =~= target);
                    assert forall|n: int| 0 <= n < self@.archetypes.len() implies (
                    #[trigger] self@.archetypes[n]).wf() by {
                        assert(w0.archetypes[n].wf());
                    }
                }
                return id;
            }
            proof {
                assert(find_archetype(w0.archetypes, layout@, i as int) == find_archetype(
                    w0.archetypes,
                    layout@,
                    i + 1,
                ));
            }
            i += 1;
        }
        proof {
            assert(find_archetype(w0.archetypes, layout@, self.archetypes.len() as int) is None);
        }
        if (self.archetypes.len() as u64) < 0x1_0000_0000u64 {
            let mut rows: Vec<Row> = Vec::new();
            rows.push(row);
            let arch = Archetype { layout, rows };
            proof {
                assert(arch@.rows =~= seq![rowv]);
                assert(arch@.wf());
            }
            self.archetypes.push(arch);
            proof {
                assert(self@.archetypes =~= spawn_spec(w0, components@).0.archetypes);
                assert(self@ =~= spawn_spec(w0, components@).0);
                assert forall|n: int| 0 <= n < self@.archetypes.len() implies (
                #[trigger] self@.archetypes[n]).wf() by {
                    if n < w0.archetypes.len() {
                        assert(w0.archetypes[n].wf());
                    }
                }
            }
        } else {
            proof {
                assert(self@ =~= spawn_spec(w0, components@).0);
            }
        }
        id
    }

    /// The value of component `comp` on `entity`, if present.
    pub fn get(&self, entity: u64, comp: u64) -> (r: Option<i64>)
        requires
            self@.wf(),
        ensures
            r == world_get_from(self@.archetypes, entity, comp, 0),
    {
        let mut i: usize = 0;
        while i < self.archetypes.len()
            invariant
                0 <= i <= self.archetypes.len(),
                self@.wf(),
                world_get_from(self@.archetypes, entity, comp, 0) == world_get_from(
                    self@.archetypes,
                    entity,
                    comp,
                    i as int,
                ),
            decreases self.archetypes.len() - i,
        {
            let a = &self.archetypes[i];
            match find_index_exec(&a.layout, comp) {
                Some(c) => {
                    proof {
                        lemma_first_index_found(a@.layout, comp, 0);
                        assert(a@ == self@.archetypes[i as int]);
                        assert(a@.wf());
                    }
                    let mut j: usize = 0;
                    while j < a.rows.len()
                        invariant
                            0 <= j <= a.rows.len(),
                            c < a.layout.len(),
                            a@ == self@.archetypes[i as int],
                            a@.wf(),
                            i < self.archetypes.len(),
                            world_get_from(self@.archetypes, entity, comp, 0) == world_get_from(
                                self@.archetypes,
                                entity,
                                comp,
                                i as int,
                            ),
                            first_index(a@.layout, comp, 0) == Some(c as int),
                            find_row(a@.rows, entity, 0) == find_row(a@.rows, entity, j as int),
                        decreases a.rows.len() - j,
                    {
                        if a.rows[j].entity == entity {
                            proof {
                                assert(find_row(a@.rows, entity, j as int) == Some(
                                    a@.rows[j as int],
                                ));
                                assert(arch_get(a@, entity, comp) == Some(
                                    a@.rows[j as int].vals[c as int],
                                ));
                                assert(world_get_from(self@.archetypes, entity, comp, i as int)
                                    == Some(a@.rows[j as int].vals[c as int]));
                            }
                            return Some(a.rows[j].vals[c]);
                        }
                        j += 1;
                    }
                    proof {
                        assert(find_row(a@.rows, entity, a@.rows.len() as int) is None);
                        assert(arch_get(self@.archetypes[i as int], entity, comp) is None);
                        assert(world_get_from(self@.archetypes, entity, comp, i as int)
                            == world_get_from(self@.archetypes, entity, comp, i + 1));
                    }
                },
                None => {
                    proof {
                        assert(arch_get(self@.archetypes[i as int], entity, comp) is None);
                        assert(world_get_from(self@.archetypes, entity, comp, i as int)
                            == world_get_from(self@.archetypes, entity, comp, i + 1));
                    }
                },
            }
            i += 1;
        }
        proof {
            assert(world_get_from(self@.archetypes, entity, comp, self@.archetypes.len() as int)
                is None);
        }
        None
    }
}

/// The rows that survive removing `e`, keeping their order.
pub open spec fn keep_rows(rows: Seq<RowData>, e: u64) -> Seq<RowData>
    decreases rows.len(),
{
    if rows.len() == 0 {
        Seq::empty()
    } else if rows.last().entity == e {
        keep_rows(rows.drop_last(), e)
    } else {
        keep_rows(rows.drop_last(), e).push(rows.last())
    }
}

/// What destroying an entity does: its rows leave every archetype;
/// layouts and the identifier counter stay.
pub open spec fn despawn_spec(w: WorldData, e: u64) -> WorldData {
    WorldData {
        archetypes: w.archetypes.map_values(
            |a: ArchetypeData| ArchetypeData { layout: a.layout, rows: keep_rows(a.rows, e) },
        ),
        next_entity: w.next_entity,
    }
}

proof fn lemma_keep_rows_take_step(rows: Seq<RowData>, e: u64, n: int)
    requires
        0 <= n < rows.len(),
    ensures
        keep_rows(rows.take(n + 1), e) == if rows[n].entity == e {
            keep_rows(rows.take(n), e)
        } else {
            keep_rows(rows.take(n), e).push(rows[n])
        },
{
    assert(rows.take(n + 1).drop_last() =~= rows.take(n));
    assert(rows.take(n + 1).last() == rows[n]);
}

proof fn lemma_keep_rows_len(rows: Seq<RowData>, e: u64)
    ensures
        keep_rows(rows, e).len() <= rows.len(),
    decreases rows.len(),
{
    if rows.len() > 0 {
        lemma_keep_rows_len(rows.drop_last(), e);
    }
}

proof fn lemma_keep_rows_wf(rows: Seq<RowData>, e: u64, width: int)
    requires
        forall|i: int| 0 <= i < rows.len() ==> (#[trigger] rows[i]).vals.len() == width,
    ensures
        forall|i: int| 0 <= i < keep_rows(rows, e).len() ==> (#[trigger] keep_rows(rows, e)[i])
            .vals.len() == width,
    decreases rows.len(),
{
    if rows.len() > 0 {
        let d = rows.drop_last();
        assert forall|i: int| 0 <= i < d.len() implies (#[trigger] d[i]).vals.len() == width by {
            assert(d[i] == rows[i]);
        }
        lemma_keep_rows_wf(d, e, width);
        if rows.last().entity != e {
            assert(rows[rows.len() - 1].vals.len() == width);
            let k = keep_rows(rows, e);
            assert forall|i: int| 0 <= i < k.len() implies (#[trigger] k[i]).vals.len()
                == width by {
                if i < keep_rows(d, e).len() {
                    assert(k[i] == keep_rows(d, e)[i]);
                } else {
                    assert(k[i] == rows.last());
                }
            }
        }
    }
}

impl World {
    /// Removes every row of `entity` from the store.
    pub fn despawn(&mut self, entity: u64)
        requires
            old(self)@.wf(),
        ensures
            final(self)@ == despawn_spec(old(self)@, entity),
            final(self)@.wf(),
    {
        let ghost w0 = self@;
        let ghost target = despawn_spec(w0, entity);
        let mut i: usize = 0;
        while i < self.archetypes.len()
            invariant
                w0 == old(self)@,
                w0.wf(),
                target == despawn_spec(w0, entity),
                0 <= i <= self.archetypes.len(),
                self@.archetypes.len() == w0.archetypes.len(),
                self@.next_entity == w0.next_entity,
                forall|n: int| 0 <= n < i ==> self@.archetypes[n] == #[trigger] target.archetypes[
                    n],
                forall|n: int| i <= n < self@.archetypes.len() ==> self@.archetypes[n]
                    == #[trigger] w0.archetypes[n],
            decreases self.archetypes.len() - i,
        {
            let ghost orig = self@.archetypes[i as int].rows;
            let ghost width = self@.archetypes[i as int].layout.len() as int;
            let mut j: usize = 0;
            let ghost mut scanned: int = 0;
            proof {
                assert(orig.take(0) =~= Seq::<RowData>::empty());
                assert(orig.skip(0) =~= orig);
            }
            while j < self.archetypes[i].rows.len()
                invariant
                    w0 == old(self)@,
                    w0.wf(),
                    target == despawn_spec(w0, entity),
                    0 <= (i as int) < self@.archetypes.len(),
                    self@.archetypes.len() == w0.archetypes.len(),
                    self@.next_entity == w0.next_entity,
                    orig == w0.archetypes[i as int].rows,
                    0 <= scanned <= orig.len(),
                    j == keep_rows(orig.take(scanned), entity).len(),
                    self@.archetypes[i as int].layout == w0.archetypes[i as int].layout,
                    self@.archetypes[i as int].rows == keep_rows(orig.take(scanned), entity)
                        + orig.skip(scanned),
                    forall|n: int| 0 <= n < i ==> self@.archetypes[n]
                        == #[trigger] target.archetypes[n],
                    forall|n: int| i < n < self@.archetypes.len() ==> self@.archetypes[n]
                        == #[trigger] w0.archetypes[n],
                decreases orig.len() - scanned,
            {
                proof {
                    lemma_keep_rows_len(orig.take(scanned), entity);
                    assert(scanned < orig.len());
                    assert(self@.archetypes[i as int].rows[j as int] == orig[scanned]);
                    lemma_keep_rows_take_step(orig, entity, scanned);
                }
                if self.archetypes[i].rows[j].entity == entity {
                    let ghost before = self@.archetypes[i as int].rows;
                    let _dropped = self.archetypes[i].rows.remove(j);
                    proof {
                        scanned = scanned + 1;
                        assert(self@.archetypes[i as int].rows == before.remove(j as int));
                        assert(orig.skip(scanned - 1) =~= seq![orig[scanned - 1]] + orig.skip(
                            scanned,
                        ));
                        assert(self@.archetypes[i as int].rows =~= keep_rows(
                            orig.take(scanned),
                            entity,
                        ) + orig.skip(scanned));
                    }
                } else {
                    j += 1;
                    proof {
                        scanned = scanned + 1;
                        assert(keep_rows(orig.take(scanned), entity) + orig.skip(scanned) =~= keep_rows(
                            orig.take(scanned - 1),
                            entity,
                        ) + orig.skip(scanned - 1));
                    }
                }
            }
            proof {
                assert(orig.skip(scanned).len() == 0);
                assert(scanned == orig.len());
                assert(orig.take(scanned) =~= orig);
                assert(self@.archetypes[i as int].rows =~= keep_rows(orig, entity));
                assert(self@.archetypes[i as int] =~= target.archetypes[i as int]);
            }
            i += 1;
        }
        proof {
            assert(self@.archetypes =~= target.archetypes);
            assert(self@ =~= target);
            assert forall|n: int| 0 <= n < self@.archetypes.len() implies (
            #[trigger] self@.archetypes[n]).wf() by {
                assert(w0.archetypes[n].wf());
                lemma_keep_rows_wf(
                    w0.archetypes[n].rows,
                    entity,
                    w0.archetypes[n].layout.len() as int,
                );
            }
        }
    }
}

/// A found archetype position is in range and has the layout sought.
pub proof fn lemma_find_archetype_found(archs: Seq<ArchetypeData>, layout: Seq<u64>, i: int)
    requires
        find_archetype(archs, layout, i) is Some,
    ensures
        i <= find_archetype(archs, layout, i)->Some_0 < archs.len(),
        archs[find_archetype(archs, layout, i)->Some_0].layout == layout,
    decreases archs.len() - i,
{
    if !(i < 0 || i >= archs.len()) && archs[i].layout != layout {
        lemma_find_archetype_found(archs, layout, i + 1);
    }
}

/// Spawning preserves the store invariant.
pub proof fn lemma_spawn_spec_wf(w: WorldData, comps: Seq<(u64, i64)>)
    requires
        w.wf(),
        components_wf(comps),
    ensures
        spawn_spec(w, comps).0.wf(),
{
    let out = spawn_spec(w, comps).0;
    match find_archetype(w.archetypes, layout_of(comps), 0) {
        Some(i) => {
            lemma_find_archetype_found(w.archetypes, layout_of(comps), 0);
            assert forall|n: int| 0 <= n < out.archetypes.len() implies (
            #[trigger] out.archetypes[n]).wf() by {
                assert(w.archetypes[n].wf());
                if n == i {
                    let a = out.archetypes[n];
                    assert forall|m: int| 0 <= m < a.rows.len() implies (#[trigger] a.rows[m])
                        .vals.len() == a.layout.len() by {
                        if m < w.archetypes[n].rows.len() {
                            assert(w.archetypes[n].rows[m].vals.len() == w.archetypes[
                                n].layout.len());
                        }
                    }
                }
            }
        },
        None => {
            assert forall|n: int| 0 <= n < out.archetypes.len() implies (
            #[trigger] out.archetypes[n]).wf() by {
                if n < w.archetypes.len() {
                    assert(w.archetypes[n].wf());
                }
            }
        },
    }
}

/// Destroying an entity preserves the store invariant.
pub proof fn lemma_despawn_spec_wf(w: WorldData, e: u64)
    requires
        w.wf(),
    ensures
        despawn_spec(w, e).wf(),
{
    let out = despawn_spec(w, e);
    assert forall|n: int| 0 <= n < out.archetypes.len() implies (#[trigger] out.archetypes[n]).wf()
        by {
        assert(w.archetypes[n].wf());
        lemma_keep_rows_wf(w.archetypes[n].rows, e, w.archetypes[n].layout.len() as int);
    }
}

/// A value after a wrapping addition.
pub open spec fn wrap_add64(v: i64, d: i64) -> i64 {
    vstd::wrapping::i64_specs::wrapping_add(v, d)
}

/// One row after adding `d`, wrapping, to the component at position `c`.
pub open spec fn bump_row(r: RowData, c: int, d: i64) -> RowData {
    RowData { entity: r.entity, vals: r.vals.update(c, wrap_add64(r.vals[c], d)) }
}

/// One archetype after a query-write of `comp += d` over `shape`: every
/// row is bumped when the archetype matches and carries `comp`.
pub open spec fn query_add_arch(
    a: ArchetypeData,
    shape: QueryShapeData,
    comp: u64,
    d: i64,
) -> ArchetypeData {
    if shape.matches(a.layout) {
        match first_index(a.layout, comp, 0) {
            Some(c) => ArchetypeData {
                layout: a.layout,
                rows: a.rows.map_values(|r: RowData| bump_row(r, c, d)),
            },
            None => a,
        }
    } else {
        a
    }
}

/// What a query-write does to the whole store.
pub open spec fn query_add_spec(
    w: WorldData,
    shape: QueryShapeData,
    comp: u64,
    d: i64,
) -> WorldData {
    WorldData {
        archetypes: w.archetypes.map_values(
            |a: ArchetypeData| query_add_arch(a, shape, comp, d),
        ),
        next_entity: w.next_entity,
    }
}

/// A query-write preserves the store invariant.
pub proof fn lemma_query_add_spec_wf(w: WorldData, shape: QueryShapeData, comp: u64, d: i64)
    requires
        w.wf(),
    ensures
        query_add_spec(w, shape, comp, d).wf(),
{
    let out = query_add_spec(w, shape, comp, d);
    assert forall|n: int| 0 <= n < out.archetypes.len() implies (#[trigger] out.archetypes[n]).wf()
        by {
        assert(w.archetypes[n].wf());
        lemma_query_add_arch_wf(w.archetypes[n], shape, comp, d);
        assert(out.archetypes[n] == query_add_arch(w.archetypes[n], shape, comp, d));
    }
}

/// How many rows the archetypes before position `n` contribute to a
/// query over `shape`.
pub open spec fn count_prefix(archs: Seq<ArchetypeData>, shape: QueryShapeData, n: int) -> int
    decreases n,
{
    if n <= 0 {
        0
    } else {
        count_prefix(archs, shape, n - 1) + if shape.matches(archs[n - 1].layout) {
            archs[n - 1].rows.len() as int
        } else {
            0
        }
    }
}

proof fn lemma_query_add_arch_wf(a: ArchetypeData, shape: QueryShapeData, comp: u64, d: i64)
    requires
        a.wf(),
    ensures
        query_add_arch(a, shape, comp, d).wf(),
{
    let out = query_add_arch(a, shape, comp, d);
    assert forall|m: int| 0 <= m < out.rows.len() implies (#[trigger] out.rows[m]).vals.len()
        == out.layout.len() by {
        assert(a.rows[m].vals.len() == a.layout.len());
        if shape.matches(a.layout) && first_index(a.layout, comp, 0) is Some {
            let c = first_index(a.layout, comp, 0)->Some_0;
            lemma_first_index_found(a.layout, comp, 0);
            assert(out.rows[m] == bump_row(a.rows[m], c, d));
            assert(out.rows[m].vals.len() == a.rows[m].vals.len());
        }
    }
}

proof fn lemma_count_prefix_nonneg(archs: Seq<ArchetypeData>, shape: QueryShapeData, n: int)
    ensures
        count_prefix(archs, shape, n) >= 0,
    decreases n,
{
    if n > 0 {
        lemma_count_prefix_nonneg(archs, shape, n - 1);
    }
}

impl World {
    /// Adds `delta`, wrapping, to component `comp` of every entity the
    /// shape matches.
    pub fn query_add(&mut self, shape: &QueryShape, comp: u64, delta: i64)
        requires
            old(self)@.wf(),
        ensures
            final(self)@ == query_add_spec(old(self)@, shape@, comp, delta),
            final(self)@.wf(),
    {
        let ghost w0 = self@;
        let ghost target = query_add_spec(w0, shape@, comp, delta);
        let mut i: usize = 0;
        while i < self.archetypes.len()
            invariant
                w0 == old(self)@,
                w0.wf(),
                target == query_add_spec(w0, shape@, comp, delta),
                0 <= i <= self.archetypes.len(),
                self@.archetypes.len() == w0.archetypes.len(),
                self@.next_entity == w0.next_entity,
                forall|n: int| 0 <= n < i ==> self@.archetypes[n] == #[trigger] target.archetypes[
                    n],
                forall|n: int| i <= n < self@.archetypes.len() ==> self@.archetypes[n]
                    == #[trigger] w0.archetypes[n],
            decreases self.archetypes.len() - i,
        {
            let ghost a0 = w0.archetypes[i as int];
            let matched = shape.matches_layout(&self.archetypes[i].layout);
            if matched {
                match find_index_exec(&self.archetypes[i].layout, comp) {
                    Some(c) => {
                        proof {
                            lemma_first_index_found(a0.layout, comp, 0);
                            assert(a0.wf());
                        }
                        let mut j: usize = 0;
                        while j < self.archetypes[i].rows.len()
                            invariant
                                w0 == old(self)@,
                                w0.wf(),
                                target == query_add_spec(w0, shape@, comp, delta),
                                0 <= (i as int) < self@.archetypes.len(),
                                self@.archetypes.len() == w0.archetypes.len(),
                                self@.next_entity == w0.next_entity,
                                a0 == w0.archetypes[i as int],
                                a0.wf(),
                                first_index(a0.layout, comp, 0) == Some(c as int),
                                c < a0.layout.len(),
                                0 <= j <= self@.archetypes[i as int].rows.len(),
                                self@.archetypes[i as int].layout == a0.layout,
                                self@.archetypes[i as int].rows.len() == a0.rows.len(),
                                forall|m: int| 0 <= m < j ==> self@.archetypes[i as int].rows[m]
                                    == bump_row(#[trigger] a0.rows[m], c as int, delta),
                                forall|m: int| j <= m < a0.rows.len() ==> self@.archetypes[
                                    i as int].rows[m] == #[trigger] a0.rows[m],
                                forall|n: int| 0 <= n < i ==> self@.archetypes[n]
                                    == #[trigger] target.archetypes[n],
                                forall|n: int| i < n < self@.archetypes.len() ==> self@.archetypes[
                                    n] == #[trigger] w0.archetypes[n],
                            decreases a0.rows.len() - j,
                        {
                            proof {
                                assert(self@.archetypes[i as int].rows[j as int] == a0.rows[
                                    j as int]);
                                assert(a0.rows[j as int].vals.len() == a0.layout.len());
                            }
                            let cur = self.archetypes[i].rows[j].vals[c];
                            let nv = cur.wrapping_add(delta);
                            self.archetypes[i].rows[j].vals[c] = nv;
                            proof {
                                assert(self@.archetypes[i as int].rows[j as int] =~= bump_row(
                                    a0.rows[j as int],
                                    c as int,
                                    delta,
                                ));
                            }
                            j += 1;
                        }
                        proof {
                            assert(query_add_arch(a0, shape@, comp, delta).rows == a0.rows
                                .map_values(|r: RowData| bump_row(r, c as int, delta)));
                            assert(self@.archetypes[i as int] =~= query_add_arch(
                                a0,
                                shape@,
                                comp,
                                delta,
                            ));
                            assert(self@.archetypes[i as int] == target.archetypes[i as int]);
                        }
                    },
                    None => {
                        proof {
                            assert(query_add_arch(a0, shape@, comp, delta) == a0);
                            assert(self@.archetypes[i as int] == target.archetypes[i as int]);
                        }
                    },
                }
            } else {
                proof {
                    assert(query_add_arch(a0, shape@, comp, delta) == a0);
                    assert(self@.archetypes[i as int] == target.archetypes[i as int]);
                }
            }
            i += 1;
        }
        proof {
            assert(self@.archetypes =~= target.archetypes);
            assert(self@ =~= target);
            assert forall|n: int| 0 <= n < self@.archetypes.len() implies (
            #[trigger] self@.archetypes[n]).wf() by {
                assert(w0.archetypes[n].wf());
                lemma_query_add_arch_wf(w0.archetypes[n], shape@, comp, delta);
                assert(self@.archetypes[n] == query_add_arch(
                    w0.archetypes[n],
                    shape@,
                    comp,
                    delta,
                ));
            }
        }
    }

    /// How many entities the shape currently matches, saturating at
    /// `usize::MAX`.
    pub fn query_count(&self, shape: &QueryShape) -> (r: usize)
        ensures
            r as int == if count_prefix(self@.archetypes, shape@, self@.archetypes.len() as int)
                > usize::MAX {
                usize::MAX as int
            } else {
                count_prefix(self@.archetypes, shape@, self@.archetypes.len() as int)
            },
    {
        let mut total: usize = 0;
        let mut i: usize = 0;
        while i < self.archetypes.len()
            invariant
                0 <= i <= self.archetypes.len(),
                total as int == if count_prefix(self@.archetypes, shape@, i as int) > usize::MAX {
                    usize::MAX as int
                } else {
                    count_prefix(self@.archetypes, shape@, i as int)
                },
            decreases self.archetypes.len() - i,
        {
            proof {
                lemma_count_prefix_nonneg(self@.archetypes, shape@, i as int);
            }
            if shape.matches_layout(&self.archetypes[i].layout) {
                total = total.saturating_add(self.archetypes[i].rows.len());
            }
            i += 1;
        }
        total
    }
}

/// The slot keys that a matching archetype contributes as reads.
pub open spec fn arch_read_slots(i: int, shape: QueryShapeData) -> Seq<u64> {
    shape.reads.map_values(|c: u64| slot_key(i, c))
}

/// The slot keys that a matching archetype contributes as writes.
pub open spec fn arch_write_slots(i: int, shape: QueryShapeData) -> Seq<u64> {
    shape.writes.map_values(|c: u64| slot_key(i, c))
}

/// The read slot keys of the archetypes before position `n`.
pub open spec fn read_slots_prefix(archs: Seq<ArchetypeData>, shape: QueryShapeData, n: int) -> Seq<
    u64,
>
    decreases n,
{
    if n <= 0 {
        Seq::empty()
    } else {
        read_slots_prefix(archs, shape, n - 1) + if shape.matches(archs[n - 1].layout) {
            arch_read_slots(n - 1, shape)
        } else {
            Seq::empty()
        }
    }
}

/// The write slot keys of the archetypes before position `n`.
pub open spec fn write_slots_prefix(
    archs: Seq<ArchetypeData>,
    shape: QueryShapeData,
    n: int,
) -> Seq<u64>
    decreases n,
{
    if n <= 0 {
        Seq::empty()
    } else {
        write_slots_prefix(archs, shape, n - 1) + if shape.matches(archs[n - 1].layout) {
            arch_write_slots(n - 1, shape)
        } else {
            Seq::empty()
        }
    }
}

/// The full read footprint of a shape over a store.
pub open spec fn shape_read_slots(w: WorldData, shape: QueryShapeData) -> Seq<u64> {
    read_slots_prefix(w.archetypes, shape, w.archetypes.len() as int)
}

/// The full write footprint of a shape over a store.
pub open spec fn shape_write_slots(w: WorldData, shape: QueryShapeData) -> Seq<u64> {
    write_slots_prefix(w.archetypes, shape, w.archetypes.len() as int)
}

impl World {
    /// Registers into `acc` every storage slot the shape currently
    /// touches: one read or write per accessed component per matching
    /// archetype.
    pub fn add_query_slots(&self, shape: &QueryShape, acc: &mut TypeAccess)
        requires
            self@.wf(),
            shape@.wf(),
        ensures
            final(acc)@.reads == old(acc)@.reads + shape_read_slots(self@, shape@),
            final(acc)@.writes == old(acc)@.writes + shape_write_slots(self@, shape@),
    {
        let mut i: usize = 0;
        while i < self.archetypes.len()
            invariant
                0 <= i <= self.archetypes.len(),
                self@.wf(),
                shape@.wf(),
                acc@.reads == old(acc)@.reads + read_slots_prefix(
                    self@.archetypes,
                    shape@,
                    i as int,
                ),
                acc@.writes == old(acc)@.writes + write_slots_prefix(
                    self@.archetypes,
                    shape@,
                    i as int,
                ),
            decreases self.archetypes.len() - i,
        {
            if shape.matches_layout(&self.archetypes[i].layout) {
                let ghost base_r = acc@.reads;
                let ghost base_w = acc@.writes;
                let mut k: usize = 0;
                while k < shape.reads.len()
                    invariant
                        0 <= k <= shape@.reads.len(),
                        (i as int) < self@.archetypes.len() <= 0x1_0000_0000,
                        shape@.wf(),
                        acc@.reads == base_r + arch_read_slots(i as int, shape@).take(k as int),
                        acc@.writes == base_w,
                    decreases shape@.reads.len() - k,
                {
                    let c = shape.reads[k];
                    proof {
                        assert(shape@.required()[shape@.filter.len() + k] == c);
                    }
                    acc.add_read(slot_key_exec(i, c));
                    proof {
                        assert(arch_read_slots(i as int, shape@).take(k + 1) =~= arch_read_slots(
                            i as int,
                            shape@,
                        ).take(k as int).push(slot_key(i as int, c)));
                        assert(acc@.reads =~= base_r + arch_read_slots(i as int, shape@).take(
                            k + 1,
                        ));
                    }
                    k += 1;
                }
                let mut m: usize = 0;
                while m < shape.writes.len()
                    invariant
                        0 <= m <= shape@.writes.len(),
                        (i as int) < self@.archetypes.len() <= 0x1_0000_0000,
                        shape@.wf(),
                        acc@.reads == base_r + arch_read_slots(i as int, shape@).take(
                            shape@.reads.len() as int,
                        ),
                        acc@.writes == base_w + arch_write_slots(i as int, shape@).take(m as int),
                    decreases shape@.writes.len() - m,
                {
                    let c = shape.writes[m];
                    proof {
                        assert(shape@.required()[shape@.filter.len() + shape@.reads.len() + m]
                            == c);
                    }
                    acc.add_write(slot_key_exec(i, c));
                    proof {
                        assert(arch_write_slots(i as int, shape@).take(m + 1) =~= arch_write_slots(
                            i as int,
                            shape@,
                        ).take(m as int).push(slot_key(i as int, c)));
                        assert(acc@.writes =~= base_w + arch_write_slots(i as int, shape@).take(
                            m + 1,
                        ));
                    }
                    m += 1;
                }
                proof {
                    assert(arch_read_slots(i as int, shape@).take(shape@.reads.len() as int)
                        =~= arch_read_slots(i as int, shape@));
                    assert(arch_write_slots(i as int, shape@).take(shape@.writes.len() as int)
                        =~= arch_write_slots(i as int, shape@));
                    assert(acc@.reads =~= old(acc)@.reads + read_slots_prefix(
                        self@.archetypes,
                        shape@,
                        i + 1,
                    ));
                    assert(acc@.writes =~= old(acc)@.writes + write_slots_prefix(
                        self@.archetypes,
                        shape@,
                        i + 1,
                    ));
                }
            } else {
                proof {
                    assert(acc@.reads =~= old(acc)@.reads + read_slots_prefix(
                        self@.archetypes,
                        shape@,
                        i + 1,
                    ));
                    assert(acc@.writes =~= old(acc)@.writes + write_slots_prefix(
                        self@.archetypes,
                        shape@,
                        i + 1,
                    ));
                }
            }
            i += 1;
        }
    }
}

} // verus!
