//! The schedule: an ordered sequence of named stages, each ticked once
//! per run in caller-fixed order, with the resource change marks
//! cleared at the end of a completed tick.

use vstd::prelude::*;
use crate::any_event_stage::{AnyEventStage, AnyEventStageData};
use crate::event_stage::{EventStage, EventStageData};
use crate::resources::{Resources, ResourcesData};
use crate::stage::{stage_run_spec, Stage, StageError, SystemStage, SystemStageData};
use crate::system::{ConflictData, ConflictError, System, SystemData, SystemId};
use crate::world::{World, WorldData};

verus! {

/// Why a schedule operation was rejected.
#[derive(Debug, Copy, Clone, PartialEq, Eq, Structural)]
pub enum ScheduleError {
    /// A stage with that name already exists.
    StageAlreadyExists,
    /// No stage with that name exists.
    StageNotFound,
    /// A unit with the same identifier is already in the stage.
    SystemAlreadyExists(SystemId),
    /// The unit's descriptor was rejected at build time.
    InvalidSystem,
}

/// Spec-level mirror of a [`StageVariant`].
pub enum StageVariantData {
    /// A plain stage.
    Systems(SystemStageData),
    /// A single-stream event stage.
    Event(EventStageData),
    /// A joint three-stream event stage.
    AnyEvent(AnyEventStageData),
}

/// One of the known stage kinds a schedule can hold.
pub enum StageVariant {
    /// A plain stage.
    Systems(SystemStage),
    /// A single-stream event stage.
    Event(EventStage),
    /// A joint three-stream event stage.
    AnyEvent(AnyEventStage),
}

impl View for StageVariant {
    type V = StageVariantData;

    open spec fn view(&self) -> StageVariantData {
        match self {
            StageVariant::Systems(s) => StageVariantData::Systems(s@),
            StageVariant::Event(s) => StageVariantData::Event(s@),
            StageVariant::AnyEvent(s) => StageVariantData::AnyEvent(s@),
        }
    }
}

/// The wrapped stage's unit collection.
pub open spec fn variant_inner(v: StageVariantData) -> SystemStageData {
    match v {
        StageVariantData::Systems(s) => s,
        StageVariantData::Event(e) => e.inner,
        StageVariantData::AnyEvent(a) => a.inner,
    }
}

/// The wrapped stage is well formed.
pub open spec fn variant_wf(v: StageVariantData) -> bool {
    variant_inner(v).wf()
}

/// What appending one unit does to a stage of any kind: the wrapped
/// collection gains exactly one unit at the end — the given one on a
/// plain stage, the given one behind its stage's pump on an event
/// stage — with the kind, the stream keys and everything else kept.
pub open spec fn variant_added(v0: StageVariantData, v1: StageVariantData, s: SystemData) -> bool {
    match v0 {
        StageVariantData::Systems(a) => v1 is Systems && v1->Systems_0 == (SystemStageData {
            systems: a.systems.push(s),
            system_ids: a.system_ids.push(s.sid()),
            changed_systems: a.changed_systems.push(a.systems.len() as usize),
            ..a
        }),
        StageVariantData::Event(a) => v1 is Event && v1->Event_0.channel == a.channel && v1
            ->Event_0.inner == (SystemStageData {
            systems: a.inner.systems.push(v1->Event_0.inner.systems.last()),
            system_ids: a.inner.system_ids.push(v1->Event_0.inner.systems.last().sid()),
            changed_systems: a.inner.changed_systems.push(a.inner.systems.len() as usize),
            ..a.inner
        }) && crate::event_stage::pumped_unit(
            v1->Event_0.inner.systems.last(),
            a.channel,
            s,
        ),
        StageVariantData::AnyEvent(a) => v1 is AnyEvent && v1->AnyEvent_0.channels == a.channels
            && v1->AnyEvent_0.inner == (SystemStageData {
            systems: a.inner.systems.push(v1->AnyEvent_0.inner.systems.last()),
            system_ids: a.inner.system_ids.push(v1->AnyEvent_0.inner.systems.last().sid()),
            changed_systems: a.inner.changed_systems.push(a.inner.systems.len() as usize),
            ..a.inner
        }) && crate::any_event_stage::joint_pumped_unit(
            v1->AnyEvent_0.inner.systems.last(),
            a.channels,
            s,
        ),
    }
}

/// What a successful append to the named stage does to the whole
/// schedule: exactly the found entry's stage grows by the unit.
pub open spec fn schedule_added(
    d0: ScheduleData,
    d1: ScheduleData,
    name: Seq<char>,
    s: SystemData,
) -> bool {
    let pos = d0.find_from(name, 0)->Some_0;
    &&& d1.entries == d0.entries.update(
        pos,
        ScheduleEntryData { name: d0.entries[pos].name, stage: d1.entries[pos].stage },
    )
    &&& variant_added(d0.entries[pos].stage, d1.entries[pos].stage, s)
}

/// The named stage is a plain stage already holding the identifier.
pub open spec fn plain_stage_holds_id(d: ScheduleData, name: Seq<char>, s: SystemData) -> bool {
    match d.entries[d.find_from(name, 0)->Some_0].stage {
        StageVariantData::Systems(st) => st.system_ids.contains(s.sid()),
        _ => false,
    }
}

/// What one tick does to a stage of any kind: the wrapped unit
/// collection runs; the kind and its stream keys stay.
pub open spec fn variant_run_spec(v: StageVariantData, w: WorldData, r: ResourcesData) -> (
    StageVariantData,
    WorldData,
    ResourcesData,
    Option<ConflictData>,
) {
    match v {
        StageVariantData::Systems(s) => {
            let sr = stage_run_spec(s, w, r);
            (StageVariantData::Systems(sr.0), sr.1, sr.2, sr.3)
        },
        StageVariantData::Event(e) => {
            let sr = stage_run_spec(e.inner, w, r);
            (
                StageVariantData::Event(EventStageData { inner: sr.0, channel: e.channel }),
                sr.1,
                sr.2,
                sr.3,
            )
        },
        StageVariantData::AnyEvent(a) => {
            let sr = stage_run_spec(a.inner, w, r);
            (
                StageVariantData::AnyEvent(
                    AnyEventStageData { inner: sr.0, channels: a.channels },
                ),
                sr.1,
                sr.2,
                sr.3,
            )
        },
    }
}

impl Stage for StageVariant {
    open spec fn inv(&self) -> bool {
        variant_wf(self@)
    }

    /// Ticks the wrapped stage.
    fn run(&mut self, world: &mut World, resources: &mut Resources) -> (r: Result<
        (),
        ConflictError,
    >)
        ensures
            final(self)@ == variant_run_spec(old(self)@, old(world)@, old(resources)@).0,
            final(world)@ == variant_run_spec(old(self)@, old(world)@, old(resources)@).1,
            final(resources)@ == variant_run_spec(old(self)@, old(world)@, old(resources)@).2,
            match r {
                Ok(()) => variant_run_spec(old(self)@, old(world)@, old(resources)@).3 is None,
                Err(e) => variant_run_spec(old(self)@, old(world)@, old(resources)@).3 == Some(
                    e@,
                ),
            },
    {
        match self {
            StageVariant::Systems(s) => s.run(world, resources),
            StageVariant::Event(e) => e.run(world, resources),
            StageVariant::AnyEvent(a) => a.run(world, resources),
        }
    }
}

/// Spec-level mirror of a [`ScheduleEntry`].
#[verifier::ext_equal]
pub struct ScheduleEntryData {
    pub name: Seq<char>,
    pub stage: StageVariantData,
}

/// One named stage of a schedule.
pub struct ScheduleEntry {
    /// The stage's name.
    pub name: String,
    /// The stage.
    pub stage: StageVariant,
}

impl View for ScheduleEntry {
    type V = ScheduleEntryData;

    open spec fn view(&self) -> ScheduleEntryData {
        ScheduleEntryData { name: self.name@, stage: self.stage@ }
    }
}

/// Spec-level mirror of a [`Schedule`].
#[verifier::ext_equal]
pub struct ScheduleData {
    pub entries: Seq<ScheduleEntryData>,
}

impl ScheduleData {
    /// Every stage is well formed.
    pub open spec fn wf(self) -> bool {
        forall|i: int| 0 <= i < self.entries.len() ==> variant_wf(
            (#[trigger] self.entries[i]).stage,
        )
    }

    /// The first entry position at or after `i` with the given name.
    pub open spec fn find_from(self, name: Seq<char>, i: int) -> Option<int>
        decreases self.entries.len() - i,
    {
        if i < 0 || i >= self.entries.len() {
            None
        } else if self.entries[i].name == name {
            Some(i)
        } else {
            self.find_from(name, i + 1)
        }
    }

    /// Whether a stage with the given name exists.
    pub open spec fn has_stage(self, name: Seq<char>) -> bool {
        self.find_from(name, 0) is Some
    }
}

/// The state after ticking the first `n` stages in order; the first
/// configuration error stops the walk.
pub open spec fn schedule_run_prefix(
    entries: Seq<ScheduleEntryData>,
    w: WorldData,
    r: ResourcesData,
    n: int,
) -> (Seq<ScheduleEntryData>, WorldData, ResourcesData, Option<ConflictData>)
    decreases n,
{
    if n <= 0 {
        (entries, w, r, None)
    } else {
        let p = schedule_run_prefix(entries, w, r, n - 1);
        if p.3 is Some {
            p
        } else {
            let vr = variant_run_spec(p.0[n - 1].stage, p.1, p.2);
            (
                p.0.update(n - 1, ScheduleEntryData { name: p.0[n - 1].name, stage: vr.0 }),
                vr.1,
                vr.2,
                vr.3,
            )
        }
    }
}

/// What one full tick of a schedule does: every stage in order, then,
/// when every stage completed, the change marks are cleared.
pub open spec fn schedule_run_spec(sch: ScheduleData, w: WorldData, r: ResourcesData) -> (
    ScheduleData,
    WorldData,
    ResourcesData,
    Option<ConflictData>,
) {
    let p = schedule_run_prefix(sch.entries, w, r, sch.entries.len() as int);
    if p.3 is Some {
        (ScheduleData { entries: p.0 }, p.1, p.2, p.3)
    } else {
        (ScheduleData { entries: p.0 }, p.1, p.2.clear_trackers(), None)
    }
}

/// An ordered sequence of named stages, ticked in caller-fixed order.
pub struct Schedule {
    entries: Vec<ScheduleEntry>,
}

impl View for Schedule {
    type V = ScheduleData;

    closed spec fn view(&self) -> ScheduleData {
        ScheduleData { entries: self.entries@.map_values(|e: ScheduleEntry| e@) }
    }
}

/// Appending an entry finds old names at their old positions and the
/// new name, if fresh, at the end.
pub proof fn lemma_find_from_push(d: ScheduleData, e: ScheduleEntryData, name: Seq<char>, j: int)
    requires
        0 <= j <= d.entries.len(),
    ensures
        (ScheduleData { entries: d.entries.push(e) }).find_from(name, j) == (match d.find_from(
            name,
            j,
        ) {
            Some(i) => Some(i),
            None => if e.name == name {
                Some(d.entries.len() as int)
            } else {
                None
            },
        }),
    decreases d.entries.len() - j,
{
    let big = ScheduleData { entries: d.entries.push(e) };
    if j < d.entries.len() {
        assert(big.entries[j] == d.entries[j]);
        lemma_find_from_push(d, e, name, j + 1);
    } else {
        assert(big.entries[j] == e);
        assert(big.find_from(name, j + 1) is None);
    }
}

/// A name carried by no entry is not found.
pub proof fn lemma_find_from_absent(d: ScheduleData, name: Seq<char>, j: int)
    requires
        0 <= j <= d.entries.len(),
        forall|i: int| j <= i < d.entries.len() ==> (#[trigger] d.entries[i]).name != name,
    ensures
        d.find_from(name, j) is None,
    decreases d.entries.len() - j,
{
    if j < d.entries.len() {
        lemma_find_from_absent(d, name, j + 1);
    }
}

/// Whether a name exists after appending an entry.
pub proof fn lemma_has_stage_push(d: ScheduleData, e: ScheduleEntryData, name: Seq<char>)
    ensures
        (ScheduleData { entries: d.entries.push(e) }).has_stage(name) <==> d.has_stage(name)
            || e.name == name,
{
    lemma_find_from_push(d, e, name, 0);
}

proof fn lemma_find_from_found(sch: ScheduleData, name: Seq<char>, i: int)
    requires
        sch.find_from(name, i) is Some,
    ensures
        i <= sch.find_from(name, i)->Some_0 < sch.entries.len(),
        sch.entries[sch.find_from(name, i)->Some_0].name == name,
    decreases sch.entries.len() - i,
{
    if !(i < 0 || i >= sch.entries.len()) && sch.entries[i].name != name {
        lemma_find_from_found(sch, name, i + 1);
    }
}

impl Schedule {
    /// An empty schedule.
    pub fn new() -> (r: Schedule)
        ensures
            r@.entries == Seq::<ScheduleEntryData>::empty(),
            r@.wf(),
    {
        let r = Schedule { entries: Vec::new() };
        proof {
            assert(r@.entries =~= Seq::<ScheduleEntryData>::empty());
        }
        r
    }

    /// Finds the position of the stage with the given name.
    fn find_entry(&self, name: &String) -> (r: Option<usize>)
        ensures
            match r {
                Some(i) => self@.find_from(name@, 0) == Some(i as int),
                None => self@.find_from(name@, 0) is None,
            },
    {
        let mut i: usize = 0;
        while i < self.entries.len()
            invariant
                0 <= i <= self.entries.len(),
                self@.find_from(name@, 0) == self@.find_from(name@, i as int),
            decreases self.entries.len() - i,
        {
            if self.entries[i].name == *name {
                proof {
                    assert(self@.entries[i as int].name == name@);
                }
                return Some(i);
            }
            proof {
                assert(self@.entries[i as int].name != name@);
            }
            i += 1;
        }
        None
    }

    /// Appends a named stage; a duplicate name is rejected and leaves
    /// the schedule untouched.
    pub fn add_stage(&mut self, name: &str, stage: StageVariant) -> (r: Result<(), ScheduleError>)
        ensures
            old(self)@.has_stage(name@) ==> r == Err::<(), ScheduleError>(
                ScheduleError::StageAlreadyExists,
            ) && final(self)@ == old(self)@,
            !old(self)@.has_stage(name@) ==> r is Ok && final(self)@.entries == old(
                self,
            )@.entries.push(ScheduleEntryData { name: name@, stage: stage@ }),
            old(self)@.wf() && variant_wf(stage@) ==> final(self)@.wf(),
    {
        let owned = name.to_owned();
        if let Some(_) = self.find_entry(&owned) {
            return Err(ScheduleError::StageAlreadyExists);
        }
        let ghost sv = stage@;
        self.entries.push(ScheduleEntry { name: owned, stage });
        proof {
            assert(self@.entries =~= old(self)@.entries.push(
                ScheduleEntryData { name: name@, stage: sv },
            ));
            if old(self)@.wf() && variant_wf(sv) {
                assert forall|i: int| 0 <= i < self@.entries.len() implies variant_wf(
                    (#[trigger] self@.entries[i]).stage,
                ) by {
                    if i < old(self)@.entries.len() {
                        assert(variant_wf(old(self)@.entries[i].stage));
                    }
                }
            }
        }
        Ok(())
    }

    /// Inserts a named stage right after the target stage.
    pub fn add_stage_after(&mut self, target: &str, name: &str, stage: StageVariant) -> (r: Result<
        (),
        ScheduleError,
    >)
        ensures
            r is Err ==> final(self)@ == old(self)@,
            old(self)@.has_stage(name@) ==> r == Err::<(), ScheduleError>(
                ScheduleError::StageAlreadyExists,
            ),
            !old(self)@.has_stage(name@) && !old(self)@.has_stage(target@) ==> r == Err::<
                (),
                ScheduleError,
            >(ScheduleError::StageNotFound),
            !old(self)@.has_stage(name@) && old(self)@.has_stage(target@) ==> r is Ok && final(self)@.entries == old(self)@.entries.insert(
                old(self)@.find_from(target@, 0)->Some_0 + 1,
                ScheduleEntryData { name: name@, stage: stage@ },
            ),
            old(self)@.wf() && variant_wf(stage@) ==> final(self)@.wf(),
    {
        let owned = name.to_owned();
        if let Some(_) = self.find_entry(&owned) {
            return Err(ScheduleError::StageAlreadyExists);
        }
        let towned = target.to_owned();
        match self.find_entry(&towned) {
            None => Err(ScheduleError::StageNotFound),
            Some(pos) => {
                let nlen = self.entries.len();
                proof {
                    lemma_find_from_found(self@, target@, 0);
                    assert((pos as int) < self@.entries.len());
                    assert(pos < nlen);
                }
                let ghost sv = stage@;
                self.entries.insert(pos + 1, ScheduleEntry { name: owned, stage });
                proof {
                    assert(self@.entries =~= old(self)@.entries.insert(
                        pos + 1,
                        ScheduleEntryData { name: name@, stage: sv },
                    ));
                    if old(self)@.wf() && variant_wf(sv) {
                        assert forall|i: int| 0 <= i < self@.entries.len() implies variant_wf(
                            (#[trigger] self@.entries[i]).stage,
                        ) by {
                            if i < pos + 1 {
                                assert(self@.entries[i] == old(self)@.entries[i]);
                                assert(variant_wf(old(self)@.entries[i].stage));
                            } else if i > pos + 1 {
                                assert(self@.entries[i] == old(self)@.entries[i - 1]);
                                assert(variant_wf(old(self)@.entries[i - 1].stage));
                            }
                        }
                    }
                }
                Ok(())
            },
        }
    }

    /// Inserts a named stage right before the target stage.
    pub fn add_stage_before(&mut self, target: &str, name: &str, stage: StageVariant) -> (r:
        Result<(), ScheduleError>)
        ensures
            r is Err ==> final(self)@ == old(self)@,
            old(self)@.has_stage(name@) ==> r == Err::<(), ScheduleError>(
                ScheduleError::StageAlreadyExists,
            ),
            !old(self)@.has_stage(name@) && !old(self)@.has_stage(target@) ==> r == Err::<
                (),
                ScheduleError,
            >(ScheduleError::StageNotFound),
            !old(self)@.has_stage(name@) && old(self)@.has_stage(target@) ==> r is Ok && final(self)@.entries == old(self)@.entries.insert(
                old(self)@.find_from(target@, 0)->Some_0,
                ScheduleEntryData { name: name@, stage: stage@ },
            ),
            old(self)@.wf() && variant_wf(stage@) ==> final(self)@.wf(),
    {
        let owned = name.to_owned();
        if let Some(_) = self.find_entry(&owned) {
            return Err(ScheduleError::StageAlreadyExists);
        }
        let towned = target.to_owned();
        match self.find_entry(&towned) {
            None => Err(ScheduleError::StageNotFound),
            Some(pos) => {
                proof {
                    lemma_find_from_found(self@, target@, 0);
                    assert((pos as int) < self@.entries.len());
                    assert(self.entries@.len() == self@.entries.len());
                }
                let ghost sv = stage@;
                self.entries.insert(pos, ScheduleEntry { name: owned, stage });
                proof {
                    assert(self@.entries =~= old(self)@.entries.insert(
                        pos as int,
                        ScheduleEntryData { name: name@, stage: sv },
                    ));
                    if old(self)@.wf() && variant_wf(sv) {
                        assert forall|i: int| 0 <= i < self@.entries.len() implies variant_wf(
                            (#[trigger] self@.entries[i]).stage,
                        ) by {
                            if i < pos {
                                assert(self@.entries[i] == old(self)@.entries[i]);
                                assert(variant_wf(old(self)@.entries[i].stage));
                            } else if i > pos {
                                assert(self@.entries[i] == old(self)@.entries[i - 1]);
                                assert(variant_wf(old(self)@.entries[i - 1].stage));
                            }
                        }
                    }
                }
                Ok(())
            },
        }
    }

    /// Appends a built unit to the named stage: a plain stage takes it
    /// as is; an event stage prefixes it with its pump.  A missing
    /// stage name is the error, exactly; any rejection leaves the
    /// schedule untouched.
    pub fn add_system_to_stage(&mut self, stage_name: &str, system: System) -> (r: Result<
        (),
        ScheduleError,
    >)
        requires
            system@.wf(),
        ensures
            !old(self)@.has_stage(stage_name@) <==> r == Err::<(), ScheduleError>(
                ScheduleError::StageNotFound,
            ),
            r is Err ==> final(self)@ == old(self)@,
            r is Ok ==> schedule_added(old(self)@, final(self)@, stage_name@, system@),
            old(self)@.has_stage(stage_name@) && old(self)@.entries[old(self)@.find_from(
                stage_name@,
                0,
            )->Some_0].stage is Systems ==> (r == Err::<(), ScheduleError>(
                ScheduleError::SystemAlreadyExists(system@.sid()),
            ) <==> plain_stage_holds_id(old(self)@, stage_name@, system@)),
            old(self)@.wf() ==> final(self)@.wf(),
    {
        let owned = stage_name.to_owned();
        match self.find_entry(&owned) {
            None => Err(ScheduleError::StageNotFound),
            Some(pos) => {
                proof {
                    lemma_find_from_found(self@, stage_name@, 0);
                    assert(self.entries@[pos as int]@ == self@.entries[pos as int]);
                    if old(self)@.wf() {
                        assert(variant_wf(self@.entries[pos as int].stage));
                    }
                }
                let ghost v0 = self@.entries[pos as int].stage;
                let res: Result<(), StageError> = match &mut self.entries[pos].stage {
                    StageVariant::Systems(s) => s.add_system_boxed(system),
                    StageVariant::Event(e) => e.add_system(system),
                    StageVariant::AnyEvent(a) => a.add_system(system),
                };
                proof {
                    assert(self@.entries =~= old(self)@.entries.update(
                        pos as int,
                        ScheduleEntryData {
                            name: old(self)@.entries[pos as int].name,
                            stage: self@.entries[pos as int].stage,
                        },
                    ));
                    if res is Err {
                        assert(self@.entries[pos as int].stage == v0);
                        assert(self@.entries =~= old(self)@.entries);
                    }
                    if res is Ok {
                        assert(variant_added(v0, self@.entries[pos as int].stage, system@));
                    }
                    if old(self)@.wf() {
                        assert forall|i: int| 0 <= i < self@.entries.len() implies variant_wf(
                            (#[trigger] self@.entries[i]).stage,
                        ) by {
                            if i != pos {
                                assert(self@.entries[i] == old(self)@.entries[i]);
                                assert(variant_wf(old(self)@.entries[i].stage));
                            }
                        }
                    }
                }
                match res {
                    Ok(()) => Ok(()),
                    Err(StageError::SystemAlreadyExists(id)) => Err(
                        ScheduleError::SystemAlreadyExists(id),
                    ),
                    Err(StageError::InvalidSystem) => Err(ScheduleError::InvalidSystem),
                }
            },
        }
    }

    /// Ticks every stage once, in order, then clears the change marks.
    pub fn run(&mut self, world: &mut World, resources: &mut Resources) -> (r: Result<
        (),
        ConflictError,
    >)
        requires
            old(self)@.wf(),
            old(world)@.wf(),
        ensures
            final(self)@ == schedule_run_spec(old(self)@, old(world)@, old(resources)@).0,
            final(world)@ == schedule_run_spec(old(self)@, old(world)@, old(resources)@).1,
            final(resources)@ == schedule_run_spec(old(self)@, old(world)@, old(resources)@).2,
            match r {
                Ok(()) => schedule_run_spec(old(self)@, old(world)@, old(resources)@).3 is None,
                Err(e) => schedule_run_spec(old(self)@, old(world)@, old(resources)@).3 == Some(
                    e@,
                ),
            },
            final(self)@.wf(),
            final(world)@.wf(),
    {
        let ghost es0 = self@.entries;
        let ghost w0 = world@;
        let ghost r0 = resources@;
        let n = self.entries.len();
        let mut i: usize = 0;
        while i < n
            invariant
                es0 == old(self)@.entries,
                w0 == old(world)@,
                r0 == old(resources)@,
                n == es0.len(),
                self.entries@.len() == n,
                0 <= i <= n,
                schedule_run_prefix(es0, w0, r0, i as int).3 is None,
                self@.entries == schedule_run_prefix(es0, w0, r0, i as int).0,
                world@ == schedule_run_prefix(es0, w0, r0, i as int).1,
                resources@ == schedule_run_prefix(es0, w0, r0, i as int).2,
                forall|j: int| 0 <= j < n ==> variant_wf((#[trigger] self@.entries[j]).stage),
                world@.wf(),
            decreases n - i,
        {
            let ghost pre = self@.entries;
            proof {
                assert(self.entries@[i as int]@ == pre[i as int]);
                assert(variant_wf(pre[i as int].stage));
            }
            let step = self.entries[i].stage.run(world, resources);
            proof {
                let vr = variant_run_spec(
                    pre[i as int].stage,
                    schedule_run_prefix(es0, w0, r0, i as int).1,
                    schedule_run_prefix(es0, w0, r0, i as int).2,
                );
                assert(self@.entries =~= pre.update(
                    i as int,
                    ScheduleEntryData { name: pre[i as int].name, stage: vr.0 },
                ));
                assert(self@.entries == schedule_run_prefix(es0, w0, r0, i + 1).0);
                assert forall|j: int| 0 <= j < n implies variant_wf(
                    (#[trigger] self@.entries[j]).stage,
                ) by {
                    if j != i {
                        assert(self@.entries[j] == pre[j]);
                    }
                }
            }
            match step {
                Err(e) => {
                    proof {
                        lemma_schedule_prefix_stops(es0, w0, r0, i + 1, n as int);
                    }
                    return Err(e);
                },
                Ok(()) => {},
            }
            i += 1;
        }
        resources.clear_trackers();
        Ok(())
    }
}

proof fn lemma_schedule_prefix_stops(
    entries: Seq<ScheduleEntryData>,
    w: WorldData,
    r: ResourcesData,
    i: int,
    n: int,
)
    requires
        0 <= i <= n,
        schedule_run_prefix(entries, w, r, i).3 is Some,
    ensures
        schedule_run_prefix(entries, w, r, n) == schedule_run_prefix(entries, w, r, i),
    decreases n - i,
{
    if i < n {
        lemma_schedule_prefix_stops(entries, w, r, i + 1, n);
    }
}

impl Default for Schedule {
    /// An empty schedule.
    fn default() -> (r: Schedule)
        ensures
            r@.entries == Seq::<ScheduleEntryData>::empty(),
            r@.wf(),
    {
        Schedule::new()
    }
}

} // verus!
