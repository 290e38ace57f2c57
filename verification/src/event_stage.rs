//! A stage specialization that consumes one event stream: its
//! repeat-predicate keeps the stage looping while the stream holds an
//! unread item, and every contained unit is prefixed with a pump that
//! pulls the next unread item as the unit's input.

use vstd::prelude::*;
use crate::access::{TypeAccess, TypeAccessData};
use crate::resources::Resources;
use crate::stage::{stage_run_spec, ExecutorKind, Stage, StageError, SystemStage, SystemStageData};
use crate::system::{
    AsChainSystem, ConflictError, EventCursorSystem, EventRole, System, SystemData, SystemId,
};
use crate::world::World;

verus! {

/// The unit is an event-cursor unit in the given role over the given
/// streams, with fresh cursors and empty footprints.
pub open spec fn event_cursor_shape(c: SystemData, role: EventRole, chs: Seq<u64>) -> bool {
    &&& c is EventCursor
    &&& c->EventCursor_0.role == role
    &&& c->EventCursor_0.channels == chs
    &&& c->EventCursor_0.cursors == Seq::new(chs.len(), |i: int| 0usize)
    &&& !c->EventCursor_0.initialized
    &&& c->EventCursor_0.archetype_component_access == TypeAccessData::empty()
    &&& c->EventCursor_0.resource_access == TypeAccessData::empty()
}

fn cursor_system(role: EventRole, channels: Vec<u64>, name: &str) -> (r: System)
    ensures
        event_cursor_shape(r@, role, channels@),
        r@.sname() == name@,
        (match role {
            EventRole::Criteria => channels@.len() >= 1,
            EventRole::PumpSingle => channels@.len() == 1,
            EventRole::PumpJoint => channels@.len() == 3,
        }) ==> r@.wf(),
{
    let n = channels.len();
    let mut cursors: Vec<usize> = Vec::new();
    let mut i: usize = 0;
    while i < n
        invariant
            0 <= i <= n,
            cursors@ == Seq::new(i as nat, |j: int| 0usize),
        decreases n - i,
    {
        cursors.push(0);
        proof {
            assert(cursors@ =~= Seq::new((i + 1) as nat, |j: int| 0usize));
        }
        i += 1;
    }
    proof {
        assert(cursors@ =~= Seq::new(channels@.len(), |j: int| 0usize));
    }
    System::EventCursor(
        EventCursorSystem {
            id: SystemId::new(),
            name: name.to_owned(),
            initialized: false,
            archetype_component_access: TypeAccess::new(),
            resource_access: TypeAccess::new(),
            role,
            channels,
            cursors,
        },
    )
}

/// The repeat-predicate of a single-stream event stage: consume one
/// unread item of the stream's log and ask to run and loop while one
/// was there.
pub fn event_stage_run_criteria(channel: u64) -> (r: System)
    ensures
        event_cursor_shape(r@, EventRole::Criteria, seq![channel]),
        r@.wf(),
{
    let mut channels: Vec<u64> = Vec::new();
    channels.push(channel);
    proof {
        assert(channels@ =~= seq![channel]);
    }
    cursor_system(EventRole::Criteria, channels, "event_stage_run_criteria")
}

/// The pump chained before every unit of a single-stream event stage:
/// pull the next unread item and hand it on as the unit's input.  The
/// stage's predicate has just confirmed an item is pending.
pub fn next_event_system(channel: u64) -> (r: System)
    ensures
        event_cursor_shape(r@, EventRole::PumpSingle, seq![channel]),
        r@.wf(),
{
    let mut channels: Vec<u64> = Vec::new();
    channels.push(channel);
    proof {
        assert(channels@ =~= seq![channel]);
    }
    cursor_system(EventRole::PumpSingle, channels, "next_event_system")
}

/// Spec-level mirror of an [`EventStage`].
#[verifier::ext_equal]
pub struct EventStageData {
    pub inner: SystemStageData,
    pub channel: u64,
}

/// The chained unit an event stage wraps around a contained unit.
pub open spec fn pumped_unit(c: SystemData, channel: u64, unit: SystemData) -> bool {
    &&& c is Chain
    &&& event_cursor_shape(*c->Chain_0.a, EventRole::PumpSingle, seq![channel])
    &&& *c->Chain_0.b == unit
}

/// A stage consuming one event stream.
pub struct EventStage {
    inner: SystemStage,
    channel: u64,
}

impl View for EventStage {
    type V = EventStageData;

    closed spec fn view(&self) -> EventStageData {
        EventStageData { inner: self.inner@, channel: self.channel }
    }
}

impl EventStage {
    /// Gates `system_stage` behind the stream's repeat-predicate.
    pub fn new(system_stage: SystemStage, channel: u64) -> (r: EventStage)
        ensures
            r@.channel == channel,
            r@.inner.systems == system_stage@.systems,
            r@.inner.system_ids == system_stage@.system_ids,
            r@.inner.executor == system_stage@.executor,
            r@.inner.changed_systems == system_stage@.changed_systems,
            !r@.inner.initialized_should_run,
            r@.inner.should_run is Some,
            event_cursor_shape(r@.inner.should_run->0, EventRole::Criteria, seq![channel]),
            system_stage@.wf() ==> r@.inner.wf(),
    {
        let criteria = event_stage_run_criteria(channel);
        let inner = system_stage.with_run_criteria(criteria);
        EventStage { inner, channel }
    }

    /// An empty single-stream event stage with the serial executor.
    pub fn serial(channel: u64) -> (r: EventStage)
        ensures
            r@.channel == channel,
            r@.inner.systems == Seq::<SystemData>::empty(),
            r@.inner.executor == ExecutorKind::Serial,
            r@.inner.should_run is Some,
            event_cursor_shape(r@.inner.should_run->0, EventRole::Criteria, seq![channel]),
            r@.inner.wf(),
    {
        EventStage::new(SystemStage::serial(), channel)
    }

    /// An empty single-stream event stage with the parallel executor.
    pub fn parallel(channel: u64) -> (r: EventStage)
        ensures
            r@.channel == channel,
            r@.inner.systems == Seq::<SystemData>::empty(),
            r@.inner.executor == ExecutorKind::Parallel,
            r@.inner.should_run is Some,
            event_cursor_shape(r@.inner.should_run->0, EventRole::Criteria, seq![channel]),
            r@.inner.wf(),
    {
        EventStage::new(SystemStage::parallel(), channel)
    }

    /// Appends a unit, prefixed with the stream's pump so that each
    /// invocation receives the next unread item as input.
    pub fn add_system(&mut self, system: System) -> (r: Result<(), StageError>)
        requires
            system@.wf(),
        ensures
            r is Ok ==> final(self)@.inner == (SystemStageData {
                systems: old(self)@.inner.systems.push(final(self)@.inner.systems.last()),
                system_ids: old(self)@.inner.system_ids.push(
                    final(self)@.inner.systems.last().sid(),
                ),
                changed_systems: old(self)@.inner.changed_systems.push(
                    old(self)@.inner.systems.len() as usize,
                ),
                ..old(self)@.inner
            }) && pumped_unit(
                final(self)@.inner.systems.last(),
                old(self)@.channel,
                system@,
            ),
            r is Err ==> final(self)@ == old(self)@ && r->Err_0 is SystemAlreadyExists,
            final(self)@.channel == old(self)@.channel,
            old(self)@.inner.wf() ==> final(self)@.inner.wf(),
    {
        let ghost sv = system@;
        let pump = next_event_system(self.channel);
        let chained = pump.chain(system);
        proof {
            assert(pumped_unit(chained@, self.channel, sv));
        }
        let res = self.inner.add_system_boxed(chained);
        match res {
            Ok(()) => {
                proof {
                    assert(final(self)@.inner =~= (SystemStageData {
                        systems: old(self)@.inner.systems.push(
                            final(self)@.inner.systems.last(),
                        ),
                        system_ids: old(self)@.inner.system_ids.push(
                            final(self)@.inner.systems.last().sid(),
                        ),
                        changed_systems: old(self)@.inner.changed_systems.push(
                            old(self)@.inner.systems.len() as usize,
                        ),
                        ..old(self)@.inner
                    }));
                }
                Ok(())
            },
            Err(e) => Err(e),
        }
    }

    /// The builder form of [`EventStage::add_system`].
    pub fn with_system(self, system: System) -> (r: Result<EventStage, StageError>)
        requires
            system@.wf(),
        ensures
            r is Ok ==> (r->Ok_0)@.channel == self@.channel && (r->Ok_0)@.inner == (
            SystemStageData {
                systems: self@.inner.systems.push((r->Ok_0)@.inner.systems.last()),
                system_ids: self@.inner.system_ids.push((r->Ok_0)@.inner.systems.last().sid()),
                changed_systems: self@.inner.changed_systems.push(
                    self@.inner.systems.len() as usize,
                ),
                ..self@.inner
            }) && pumped_unit((r->Ok_0)@.inner.systems.last(), self@.channel, system@),
            r is Err ==> r->Err_0 is SystemAlreadyExists,
            self@.inner.wf() ==> (match r {
                Ok(s) => s@.inner.wf(),
                Err(_) => true,
            }),
    {
        let mut this = self;
        match this.add_system(system) {
            Ok(()) => Ok(this),
            Err(e) => Err(e),
        }
    }
}

impl Stage for EventStage {
    open spec fn inv(&self) -> bool {
        self@.inner.wf()
    }

    /// One tick of the wrapped stage: loops while the stream holds
    /// unread items, pumping one item per pass into each unit.
    fn run(&mut self, world: &mut World, resources: &mut Resources) -> (r: Result<
        (),
        ConflictError,
    >)
        ensures
            final(self)@.inner == stage_run_spec(
                old(self)@.inner,
                old(world)@,
                old(resources)@,
            ).0,
            final(world)@ == stage_run_spec(old(self)@.inner, old(world)@, old(resources)@).1,
            final(resources)@ == stage_run_spec(old(self)@.inner, old(world)@, old(resources)@).2,
            match r {
                Ok(()) => stage_run_spec(old(self)@.inner, old(world)@, old(resources)@).3
                    is None,
                Err(e) => stage_run_spec(old(self)@.inner, old(world)@, old(resources)@).3
                    == Some(e@),
            },
            final(self)@.channel == old(self)@.channel,
    {
        self.inner.run(world, resources)
    }
}

} // verus!
