//! A stage specialization that jointly consumes three event streams:
//! its repeat-predicate keeps the stage looping while any stream holds
//! an unread item, and every contained unit is prefixed with a pump
//! that pulls the next unread item of each stream independently,
//! defaulting to absent where a stream has nothing new.

use vstd::prelude::*;
use crate::event_stage::event_cursor_shape;
use crate::resources::Resources;
use crate::stage::{stage_run_spec, ExecutorKind, Stage, StageError, SystemStage, SystemStageData};
use crate::system::{
    AsChainSystem, ConflictError, EventCursorSystem, EventRole, System, SystemData, SystemId,
};
use crate::access::TypeAccess;
use crate::world::World;

verus! {

fn three_channels(a: u64, b: u64, c: u64) -> (r: Vec<u64>)
    ensures
        r@ == seq![a, b, c],
{
    let mut v: Vec<u64> = Vec::new();
    v.push(a);
    v.push(b);
    v.push(c);
    proof {
        assert(v@ =~= seq![a, b, c]);
    }
    v
}

fn three_cursors() -> (r: Vec<usize>)
    ensures
        r@ == Seq::new(3, |i: int| 0usize),
{
    let mut v: Vec<usize> = Vec::new();
    v.push(0);
    v.push(0);
    v.push(0);
    proof {
        assert(v@ =~= Seq::new(3, |i: int| 0usize));
    }
    v
}

/// The repeat-predicate of a joint three-stream event stage: consume
/// one unread item per stream and ask to run and loop while any stream
/// had one.
pub fn any_event_stage_run_criteria(a: u64, b: u64, c: u64) -> (r: System)
    ensures
        event_cursor_shape(r@, EventRole::Criteria, seq![a, b, c]),
        r@.wf(),
{
    System::EventCursor(
        EventCursorSystem {
            id: SystemId::new(),
            name: "any_event_stage_run_criteria".to_owned(),
            initialized: false,
            archetype_component_access: TypeAccess::new(),
            resource_access: TypeAccess::new(),
            role: EventRole::Criteria,
            channels: three_channels(a, b, c),
            cursors: three_cursors(),
        },
    )
}

/// The pump chained before every unit of a joint event stage: pull the
/// next unread item of each stream, absent where a stream has nothing
/// new, and hand the triple on as the unit's input.
pub fn any_event_system(a: u64, b: u64, c: u64) -> (r: System)
    ensures
        event_cursor_shape(r@, EventRole::PumpJoint, seq![a, b, c]),
        r@.wf(),
{
    System::EventCursor(
        EventCursorSystem {
            id: SystemId::new(),
            name: "any_event_system".to_owned(),
            initialized: false,
            archetype_component_access: TypeAccess::new(),
            resource_access: TypeAccess::new(),
            role: EventRole::PumpJoint,
            channels: three_channels(a, b, c),
            cursors: three_cursors(),
        },
    )
}

/// Spec-level mirror of an [`AnyEventStage`].
#[verifier::ext_equal]
pub struct AnyEventStageData {
    pub inner: SystemStageData,
    pub channels: Seq<u64>,
}

/// The chained unit a joint event stage wraps around a contained unit.
pub open spec fn joint_pumped_unit(c: SystemData, chs: Seq<u64>, unit: SystemData) -> bool {
    &&& c is Chain
    &&& event_cursor_shape(*c->Chain_0.a, EventRole::PumpJoint, chs)
    &&& *c->Chain_0.b == unit
}

/// A stage jointly consuming three event streams.
pub struct AnyEventStage {
    inner: SystemStage,
    channels: Vec<u64>,
}

impl View for AnyEventStage {
    type V = AnyEventStageData;

    closed spec fn view(&self) -> AnyEventStageData {
        AnyEventStageData { inner: self.inner@, channels: self.channels@ }
    }
}

impl AnyEventStage {
    /// Gates `system_stage` behind the joint repeat-predicate.
    pub fn new(system_stage: SystemStage, a: u64, b: u64, c: u64) -> (r: AnyEventStage)
        ensures
            r@.channels == seq![a, b, c],
            r@.inner.systems == system_stage@.systems,
            r@.inner.system_ids == system_stage@.system_ids,
            r@.inner.executor == system_stage@.executor,
            r@.inner.changed_systems == system_stage@.changed_systems,
            !r@.inner.initialized_should_run,
            r@.inner.should_run is Some,
            event_cursor_shape(r@.inner.should_run->0, EventRole::Criteria, seq![a, b, c]),
            system_stage@.wf() ==> r@.inner.wf(),
    {
        let criteria = any_event_stage_run_criteria(a, b, c);
        let inner = system_stage.with_run_criteria(criteria);
        AnyEventStage { inner, channels: three_channels(a, b, c) }
    }

    /// An empty joint event stage with the serial executor.
    pub fn serial(a: u64, b: u64, c: u64) -> (r: AnyEventStage)
        ensures
            r@.channels == seq![a, b, c],
            r@.inner.systems == Seq::<SystemData>::empty(),
            r@.inner.executor == ExecutorKind::Serial,
            r@.inner.should_run is Some,
            event_cursor_shape(r@.inner.should_run->0, EventRole::Criteria, seq![a, b, c]),
            r@.inner.wf(),
    {
        AnyEventStage::new(SystemStage::serial(), a, b, c)
    }

    /// An empty joint event stage with the parallel executor.
    pub fn parallel(a: u64, b: u64, c: u64) -> (r: AnyEventStage)
        ensures
            r@.channels == seq![a, b, c],
            r@.inner.systems == Seq::<SystemData>::empty(),
            r@.inner.executor == ExecutorKind::Parallel,
            r@.inner.should_run is Some,
            event_cursor_shape(r@.inner.should_run->0, EventRole::Criteria, seq![a, b, c]),
            r@.inner.wf(),
    {
        AnyEventStage::new(SystemStage::parallel(), a, b, c)
    }

    /// Appends a unit, prefixed with the joint pump so that each
    /// invocation receives one optional item per stream as input.
    pub fn add_system(&mut self, system: System) -> (r: Result<(), StageError>)
        requires
            system@.wf(),
        ensures
            r is Ok ==> final(self)@.inner == (SystemStageData {
                systems: old(self)@.inner.systems.push(final(self)@.inner.systems.last()),
                system_ids: old(self)@.inner.system_ids.push(
                    final(self)@.inner.systems.last().sid(),
                ),
                changed_systems: old(self)@.inner.changed_systems.push(
                    old(self)@.inner.systems.len() as usize,
                ),
                ..old(self)@.inner
            }) && joint_pumped_unit(
                final(self)@.inner.systems.last(),
                old(self)@.channels,
                system@,
            ),
            r is Err ==> final(self)@ == old(self)@ && (r->Err_0 is SystemAlreadyExists || (r
                == Err::<(), StageError>(StageError::InvalidSystem) && old(self)@.channels.len()
                != 3)),
            final(self)@.channels == old(self)@.channels,
            old(self)@.inner.wf() ==> final(self)@.inner.wf(),
    {
        let ghost sv = system@;
        if self.channels.len() != 3 {
            return Err(StageError::InvalidSystem);
        }
        let pump = any_event_system(self.channels[0], self.channels[1], self.channels[2]);
        proof {
            assert(self.channels@ =~= seq![
                self.channels@[0],
                self.channels@[1],
                self.channels@[2],
            ]);
        }
        let chained = pump.chain(system);
        proof {
            assert(joint_pumped_unit(chained@, self.channels@, sv));
        }
        let res = self.inner.add_system_boxed(chained);
        match res {
            Ok(()) => {
                proof {
                    assert(final(self)@.inner =~= (SystemStageData {
                        systems: old(self)@.inner.systems.push(
                            final(self)@.inner.systems.last(),
                        ),
                        system_ids: old(self)@.inner.system_ids.push(
                            final(self)@.inner.systems.last().sid(),
                        ),
                        changed_systems: old(self)@.inner.changed_systems.push(
                            old(self)@.inner.systems.len() as usize,
                        ),
                        ..old(self)@.inner
                    }));
                }
                Ok(())
            },
            Err(e) => Err(e),
        }
    }

    /// The builder form of [`AnyEventStage::add_system`].
    pub fn with_system(self, system: System) -> (r: Result<AnyEventStage, StageError>)
        requires
            system@.wf(),
        ensures
            r is Ok ==> (r->Ok_0)@.channels == self@.channels && (r->Ok_0)@.inner == (
            SystemStageData {
                systems: self@.inner.systems.push((r->Ok_0)@.inner.systems.last()),
                system_ids: self@.inner.system_ids.push((r->Ok_0)@.inner.systems.last().sid()),
                changed_systems: self@.inner.changed_systems.push(
                    self@.inner.systems.len() as usize,
                ),
                ..self@.inner
            }) && joint_pumped_unit((r->Ok_0)@.inner.systems.last(), self@.channels, system@),
            r is Err ==> r->Err_0 is SystemAlreadyExists || (r == Err::<
                AnyEventStage,
                StageError,
            >(StageError::InvalidSystem) && self@.channels.len() != 3),
            self@.inner.wf() ==> (match r {
                Ok(s) => s@.inner.wf(),
                Err(_) => true,
            }),
    {
        let mut this = self;
        match this.add_system(system) {
            Ok(()) => Ok(this),
            Err(e) => Err(e),
        }
    }
}

impl Stage for AnyEventStage {
    open spec fn inv(&self) -> bool {
        self@.inner.wf()
    }

    /// One tick of the wrapped stage: loops while any stream holds
    /// unread items, pumping one optional item per stream per pass into
    /// each unit.
    fn run(&mut self, world: &mut World, resources: &mut Resources) -> (r: Result<
        (),
        ConflictError,
    >)
        ensures
            final(self)@.inner == stage_run_spec(
                old(self)@.inner,
                old(world)@,
                old(resources)@,
            ).0,
            final(world)@ == stage_run_spec(old(self)@.inner, old(world)@, old(resources)@).1,
            final(resources)@ == stage_run_spec(old(self)@.inner, old(world)@, old(resources)@).2,
            match r {
                Ok(()) => stage_run_spec(old(self)@.inner, old(world)@, old(resources)@).3
                    is None,
                Err(e) => stage_run_spec(old(self)@.inner, old(world)@, old(resources)@).3
                    == Some(e@),
            },
            final(self)@.channels == old(self)@.channels,
    {
        self.inner.run(world, resources)
    }
}

} // verus!
