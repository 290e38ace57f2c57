//! Units of work ("systems"): named, uniquely identified runnables with
//! declared access footprints, an initialization step, a run step and a
//! serialized thread-local flush step.
//!
//! The known kinds form a tagged union: data-driven units built from
//! parameter descriptors, sequential chains, input-curried units, the
//! event-cursor units of the event-driven stages, and exclusive
//! thread-local units.

use vstd::prelude::*;
use vstd::string::StringExecFns;
use crate::access::{TypeAccess, TypeAccessData};
use crate::commands::{apply_all, CommandData};
use crate::into_system::{
    func_init_spec, func_run_spec, func_update_spec, FuncSystem, FuncSystemData,
};
use crate::resources::{Resources, ResourcesData};
use crate::world::{World, WorldData};

verus! {

/// A process-unique token identifying one unit of work.
#[derive(Debug, Copy, Clone, Eq, PartialEq, Hash, Structural)]
pub struct SystemId(pub usize);

/// Relies on `rand::random`: a process-random value; nothing is
/// promised of it.
#[verifier::external_body]
fn random_usize() -> usize {
    rand::random::<u64>() as usize
}

impl SystemId {
    /// A freshly drawn identifier.
    pub fn new() -> SystemId {
        SystemId(random_usize())
    }
}

/// When a unit's thread-local step runs: right after its own run, or at
/// the next serialized flush point.
#[derive(Debug, Copy, Clone, Eq, PartialEq, Structural)]
pub enum ThreadLocalExecution {
    /// Immediately after the unit's data-access step.
    Immediate,
    /// At the stage's next serialized flush.
    NextFlush,
}

/// What a repeat-predicate tells its stage.
#[derive(Debug, Copy, Clone, Eq, PartialEq, Structural)]
pub enum ShouldRun {
    /// Skip the stage this tick.
    No,
    /// Run the units once.
    Yes,
    /// Run the units, then evaluate the predicate again.
    YesAndLoop,
}

/// A value flowing between chained units: nothing, a plain integer, a
/// repeat-predicate verdict, or a joint triple of optional events.
#[derive(Debug, Copy, Clone)]
pub enum Value {
    /// No payload.
    Unit,
    /// A plain integer.
    Int(i64),
    /// A repeat-predicate verdict.
    Should(ShouldRun),
    /// One optional event per joint stream.
    Triple(Option<i64>, Option<i64>, Option<i64>),
}

/// Spec-level mirror of a [`ConflictError`].
#[verifier::ext_equal]
pub struct ConflictData {
    pub system_name: Seq<char>,
    pub query: Seq<char>,
    pub prior_query: Seq<char>,
    pub key: u64,
}

/// A configuration error: two query declarations of one unit collide on
/// a storage slot.  Both declarations are named.
#[derive(Debug)]
pub struct ConflictError {
    /// The unit whose declarations collide.
    pub system_name: String,
    /// The query found incompatible.
    pub query: String,
    /// The earlier query it collides with.
    pub prior_query: String,
    /// The colliding storage-slot key.
    pub key: u64,
}

impl View for ConflictError {
    type V = ConflictData;

    open spec fn view(&self) -> ConflictData {
        ConflictData {
            system_name: self.system_name@,
            query: self.query@,
            prior_query: self.prior_query@,
            key: self.key,
        }
    }
}

/// Spec-level mirror of a [`ChainSystem`].
#[verifier::ext_equal]
pub struct ChainSystemData {
    pub a: Box<SystemData>,
    pub b: Box<SystemData>,
    pub name: Seq<char>,
    pub id: SystemId,
    pub archetype_component_access: TypeAccessData,
    pub resource_access: TypeAccessData,
}

/// Spec-level mirror of a [`FilledInputSystem`].
#[verifier::ext_equal]
pub struct FilledInputSystemData {
    pub system: Box<SystemData>,
    pub input: Value,
}

/// What an event-cursor unit does for its stage.
#[derive(Debug, Copy, Clone, Eq, PartialEq, Structural)]
pub enum EventRole {
    /// The repeat-predicate: consume one unread item per log and report
    /// whether any stream still had one.
    Criteria,
    /// Pull the next unread item of a single stream as the chain input.
    PumpSingle,
    /// Pull the next unread item of each of three streams, absent when a
    /// stream has nothing new.
    PumpJoint,
}

/// Spec-level mirror of an [`EventCursorSystem`].
#[verifier::ext_equal]
pub struct EventCursorSystemData {
    pub id: SystemId,
    pub name: Seq<char>,
    pub initialized: bool,
    pub archetype_component_access: TypeAccessData,
    pub resource_access: TypeAccessData,
    pub role: EventRole,
    pub channels: Seq<u64>,
    pub cursors: Seq<usize>,
}

/// A unit owning one read cursor per consumed event log.
pub struct EventCursorSystem {
    /// The unit's identifier.
    pub id: SystemId,
    /// The unit's display name.
    pub name: String,
    /// Whether one-time setup ran.
    pub initialized: bool,
    /// The component-slot footprint (none).
    pub archetype_component_access: TypeAccess,
    /// The resource footprint: each consumed log, read.
    pub resource_access: TypeAccess,
    /// What the cursors are used for.
    pub role: EventRole,
    /// The consumed event-log keys.
    pub channels: Vec<u64>,
    /// One read position per log; advances monotonically.
    pub cursors: Vec<usize>,
}

impl View for EventCursorSystem {
    type V = EventCursorSystemData;

    open spec fn view(&self) -> EventCursorSystemData {
        EventCursorSystemData {
            id: self.id,
            name: self.name@,
            initialized: self.initialized,
            archetype_component_access: self.archetype_component_access@,
            resource_access: self.resource_access@,
            role: self.role,
            channels: self.channels@,
            cursors: self.cursors@,
        }
    }
}

/// The work of an exclusive thread-local unit.
#[derive(Debug, Copy, Clone, Eq, PartialEq, Structural)]
pub enum ThreadLocalKind {
    /// Clear every change mark of the resource table.
    ClearTrackers,
}

/// Spec-level mirror of a [`ThreadLocalSystem`].
#[verifier::ext_equal]
pub struct ThreadLocalSystemData {
    pub id: SystemId,
    pub name: Seq<char>,
    pub initialized: bool,
    pub archetype_component_access: TypeAccessData,
    pub resource_access: TypeAccessData,
    pub kind: ThreadLocalKind,
}

/// A unit that only has an exclusive thread-local step.
pub struct ThreadLocalSystem {
    /// The unit's identifier.
    pub id: SystemId,
    /// The unit's display name.
    pub name: String,
    /// Whether one-time setup ran.
    pub initialized: bool,
    /// The component-slot footprint (none: the step is exclusive).
    pub archetype_component_access: TypeAccess,
    /// The resource footprint (none: the step is exclusive).
    pub resource_access: TypeAccess,
    /// The exclusive work performed at the flush point.
    pub kind: ThreadLocalKind,
}

impl View for ThreadLocalSystem {
    type V = ThreadLocalSystemData;

    open spec fn view(&self) -> ThreadLocalSystemData {
        ThreadLocalSystemData {
            id: self.id,
            name: self.name@,
            initialized: self.initialized,
            archetype_component_access: self.archetype_component_access@,
            resource_access: self.resource_access@,
            kind: self.kind,
        }
    }
}

/// Two units run in sequence, the first one's output piped into the
/// second one's input; the access footprints are merged.
pub struct ChainSystem {
    /// The first unit.
    pub a: Box<System>,
    /// The second unit, fed the first one's output.
    pub b: Box<System>,
    /// The chain's display name.
    pub name: String,
    /// The chain's own identifier.
    pub id: SystemId,
    /// The merged component-slot footprint.
    pub archetype_component_access: TypeAccess,
    /// The merged resource footprint.
    pub resource_access: TypeAccess,
}

/// A unit with its input fixed to a constant, leaving a unit that needs
/// no input.
pub struct FilledInputSystem {
    /// The underlying unit.
    pub system: Box<System>,
    /// The constant supplied on every invocation.
    pub input: Value,
}

/// Spec-level mirror of a [`System`].
pub enum SystemData {
    /// A data-driven unit.
    Func(FuncSystemData),
    /// A sequential chain.
    Chain(ChainSystemData),
    /// An input-curried unit.
    Filled(FilledInputSystemData),
    /// An event-cursor unit.
    EventCursor(EventCursorSystemData),
    /// An exclusive thread-local unit.
    ThreadLocal(ThreadLocalSystemData),
}

/// One unit of work of any known kind.
pub enum System {
    /// A data-driven unit.
    Func(FuncSystem),
    /// A sequential chain.
    Chain(ChainSystem),
    /// An input-curried unit.
    Filled(FilledInputSystem),
    /// An event-cursor unit.
    EventCursor(EventCursorSystem),
    /// An exclusive thread-local unit.
    ThreadLocal(ThreadLocalSystem),
}

/// The spec-level value of a unit, recursively.
pub open spec fn sys_view(s: System) -> SystemData
    decreases s,
{
    match s {
        System::Func(f) => SystemData::Func(f@),
        System::Chain(c) => SystemData::Chain(
            ChainSystemData {
                a: Box::new(sys_view(*c.a)),
                b: Box::new(sys_view(*c.b)),
                name: c.name@,
                id: c.id,
                archetype_component_access: c.archetype_component_access@,
                resource_access: c.resource_access@,
            },
        ),
        System::Filled(f) => SystemData::Filled(
            FilledInputSystemData { system: Box::new(sys_view(*f.system)), input: f.input },
        ),
        System::EventCursor(e) => SystemData::EventCursor(e@),
        System::ThreadLocal(t) => SystemData::ThreadLocal(t@),
    }
}

impl View for System {
    type V = SystemData;

    open spec fn view(&self) -> SystemData {
        sys_view(*self)
    }
}

impl SystemData {
    /// The unit's identifier.
    pub open spec fn sid(self) -> SystemId
        decreases self,
    {
        match self {
            SystemData::Func(f) => f.state.id,
            SystemData::Chain(c) => c.id,
            SystemData::Filled(f) => f.system.sid(),
            SystemData::EventCursor(e) => e.id,
            SystemData::ThreadLocal(t) => t.id,
        }
    }

    /// The unit's display name.
    pub open spec fn sname(self) -> Seq<char>
        decreases self,
    {
        match self {
            SystemData::Func(f) => f.state.name,
            SystemData::Chain(c) => c.name,
            SystemData::Filled(f) => f.system.sname(),
            SystemData::EventCursor(e) => e.name,
            SystemData::ThreadLocal(t) => t.name,
        }
    }

    /// Whether one-time setup ran.
    pub open spec fn initialized(self) -> bool
        decreases self,
    {
        match self {
            SystemData::Func(f) => f.state.is_initialized,
            SystemData::Chain(c) => c.a.initialized() && c.b.initialized(),
            SystemData::Filled(f) => f.system.initialized(),
            SystemData::EventCursor(e) => e.initialized,
            SystemData::ThreadLocal(t) => t.initialized,
        }
    }

    /// The unit's component-slot footprint.
    pub open spec fn arch_access(self) -> TypeAccessData
        decreases self,
    {
        match self {
            SystemData::Func(f) => f.state.archetype_component_access,
            SystemData::Chain(c) => c.archetype_component_access,
            SystemData::Filled(f) => f.system.arch_access(),
            SystemData::EventCursor(e) => e.archetype_component_access,
            SystemData::ThreadLocal(t) => t.archetype_component_access,
        }
    }

    /// The unit's resource footprint.
    pub open spec fn res_access(self) -> TypeAccessData
        decreases self,
    {
        match self {
            SystemData::Func(f) => f.state.resource_access,
            SystemData::Chain(c) => c.resource_access,
            SystemData::Filled(f) => f.system.res_access(),
            SystemData::EventCursor(e) => e.resource_access,
            SystemData::ThreadLocal(t) => t.resource_access,
        }
    }

    /// When the unit's thread-local step runs.
    pub open spec fn tle(self) -> ThreadLocalExecution
        decreases self,
    {
        match self {
            SystemData::Func(_) => ThreadLocalExecution::NextFlush,
            SystemData::Chain(_) => ThreadLocalExecution::NextFlush,
            SystemData::Filled(f) => f.system.tle(),
            SystemData::EventCursor(_) => ThreadLocalExecution::NextFlush,
            SystemData::ThreadLocal(_) => ThreadLocalExecution::Immediate,
        }
    }

    /// The unit's pieces agree with each other.
    pub open spec fn wf(self) -> bool
        decreases self,
    {
        match self {
            SystemData::Func(f) => f.wf(),
            SystemData::Chain(c) => c.a.wf() && c.b.wf(),
            SystemData::Filled(f) => f.system.wf(),
            SystemData::EventCursor(e) => {
                &&& e.channels.len() == e.cursors.len()
                &&& match e.role {
                    EventRole::Criteria => e.channels.len() >= 1,
                    EventRole::PumpSingle => e.channels.len() == 1,
                    EventRole::PumpJoint => e.channels.len() == 3,
                }
            },
            SystemData::ThreadLocal(_) => true,
        }
    }
}

/// Everything one run of a unit produces: the unit afterwards, the store
/// and table afterwards, and the output, absent when the unit skipped.
#[verifier::ext_equal]
pub struct RunOut {
    pub sys: SystemData,
    pub world: WorldData,
    pub resources: ResourcesData,
    pub out: Option<Value>,
}

/// The cursors after one pull: each advances exactly when its log still
/// held an unread item.
pub open spec fn cursors_after(chs: Seq<u64>, curs: Seq<usize>, r: ResourcesData) -> Seq<usize> {
    Seq::new(
        curs.len(),
        |i: int| if (curs[i] as int) < r.events_of(chs[i]).len() {
            (curs[i] + 1) as usize
        } else {
            curs[i]
        },
    )
}

/// Whether any consumed log still holds an unread item.
pub open spec fn any_unread(chs: Seq<u64>, curs: Seq<usize>, r: ResourcesData) -> bool {
    exists|i: int|
        0 <= i < chs.len() && (#[trigger] curs[i] as int) < r.events_of(chs[i]).len()
}

/// The next unread item of stream `i`, if one is pending.
pub open spec fn pull_item(chs: Seq<u64>, curs: Seq<usize>, r: ResourcesData, i: int) -> Option<
    i64,
> {
    if (curs[i] as int) < r.events_of(chs[i]).len() {
        Some(r.events_of(chs[i])[curs[i] as int])
    } else {
        None
    }
}

/// What running an event-cursor unit does to itself, to the table and
/// to its output; the caller leaves the world untouched.
pub open spec fn event_cursor_run_spec(e: EventCursorSystemData, w: WorldData, r: ResourcesData) -> RunOut {
    RunOut {
        sys: SystemData::EventCursor(
            EventCursorSystemData {
                id: e.id,
                name: e.name,
                initialized: e.initialized,
                archetype_component_access: e.archetype_component_access,
                resource_access: e.resource_access,
                role: e.role,
                channels: e.channels,
                cursors: match e.role {
                    EventRole::Criteria => cursors_after(e.channels, e.cursors, r),
                    EventRole::PumpSingle => cursors_after(e.channels, e.cursors, r),
                    EventRole::PumpJoint => cursors_after(e.channels, e.cursors, r),
                },
            },
        ),
        world: w,
        resources: r,
        out: match e.role {
            EventRole::Criteria => Some(
                Value::Should(
                    if any_unread(e.channels, e.cursors, r) {
                        ShouldRun::YesAndLoop
                    } else {
                        ShouldRun::No
                    },
                ),
            ),
            EventRole::PumpSingle => match pull_item(e.channels, e.cursors, r, 0) {
                Some(v) => Some(Value::Int(v)),
                None => None,
            },
            EventRole::PumpJoint => Some(
                Value::Triple(
                    pull_item(e.channels, e.cursors, r, 0),
                    pull_item(e.channels, e.cursors, r, 1),
                    pull_item(e.channels, e.cursors, r, 2),
                ),
            ),
        },
    }
}

/// What running a unit does, for every kind.
pub open spec fn run_spec(s: SystemData, input: Value, w: WorldData, r: ResourcesData) -> RunOut
    decreases s,
{
    match s {
        SystemData::Func(f) => func_run_spec(f, input, w, r),
        SystemData::Chain(c) => {
            let ra = run_spec(*c.a, input, w, r);
            match ra.out {
                None => RunOut {
                    sys: SystemData::Chain(
                        ChainSystemData {
                            a: Box::new(ra.sys),
                            b: c.b,
                            name: c.name,
                            id: c.id,
                            archetype_component_access: c.archetype_component_access,
                            resource_access: c.resource_access,
                        },
                    ),
                    world: ra.world,
                    resources: ra.resources,
                    out: None,
                },
                Some(v) => {
                    let rb = run_spec(*c.b, v, ra.world, ra.resources);
                    RunOut {
                        sys: SystemData::Chain(
                            ChainSystemData {
                                a: Box::new(ra.sys),
                                b: Box::new(rb.sys),
                                name: c.name,
                                id: c.id,
                                archetype_component_access: c.archetype_component_access,
                                resource_access: c.resource_access,
                            },
                        ),
                        world: rb.world,
                        resources: rb.resources,
                        out: rb.out,
                    }
                },
            }
        },
        SystemData::Filled(f) => {
            let ri = run_spec(*f.system, f.input, w, r);
            RunOut {
                sys: SystemData::Filled(
                    FilledInputSystemData { system: Box::new(ri.sys), input: f.input },
                ),
                world: ri.world,
                resources: ri.resources,
                out: ri.out,
            }
        },
        SystemData::EventCursor(e) => event_cursor_run_spec(e, w, r),
        SystemData::ThreadLocal(t) => RunOut {
            sys: SystemData::ThreadLocal(t),
            world: w,
            resources: r,
            out: Some(Value::Unit),
        },
    }
}

/// What a unit's serialized thread-local step does, for every kind.
pub open spec fn flush_spec(s: SystemData, w: WorldData, r: ResourcesData) -> (
    SystemData,
    WorldData,
    ResourcesData,
)
    decreases s,
{
    match s {
        SystemData::Func(f) => {
            let applied = apply_all(f.state.commands.queue, w, r);
            (
                SystemData::Func(
                    FuncSystemData {
                        state: crate::into_system::SystemStateData {
                            commands: crate::commands::CommandsData {
                                queue: Seq::<CommandData>::empty(),
                            },
                            ..f.state
                        },
                        params: f.params,
                        query_names: f.query_names,
                        actions: f.actions,
                    },
                ),
                applied.0,
                applied.1,
            )
        },
        SystemData::Chain(c) => {
            let fa = flush_spec(*c.a, w, r);
            let fb = flush_spec(*c.b, fa.1, fa.2);
            (
                SystemData::Chain(
                    ChainSystemData {
                        a: Box::new(fa.0),
                        b: Box::new(fb.0),
                        name: c.name,
                        id: c.id,
                        archetype_component_access: c.archetype_component_access,
                        resource_access: c.resource_access,
                    },
                ),
                fb.1,
                fb.2,
            )
        },
        SystemData::Filled(f) => {
            let fi = flush_spec(*f.system, w, r);
            (
                SystemData::Filled(
                    FilledInputSystemData { system: Box::new(fi.0), input: f.input },
                ),
                fi.1,
                fi.2,
            )
        },
        SystemData::EventCursor(e) => (SystemData::EventCursor(e), w, r),
        SystemData::ThreadLocal(t) => match t.kind {
            ThreadLocalKind::ClearTrackers => (
                SystemData::ThreadLocal(t),
                w,
                r.clear_trackers(),
            ),
        },
    }
}

/// What one-time setup does, for every kind.
pub open spec fn init_spec(s: SystemData, r: ResourcesData) -> (SystemData, ResourcesData)
    decreases s,
{
    match s {
        SystemData::Func(f) => {
            let fr = func_init_spec(f, r);
            (SystemData::Func(fr.0), fr.1)
        },
        SystemData::Chain(c) => {
            let ia = init_spec(*c.a, r);
            let ib = init_spec(*c.b, ia.1);
            (
                SystemData::Chain(
                    ChainSystemData {
                        a: Box::new(ia.0),
                        b: Box::new(ib.0),
                        name: c.name,
                        id: c.id,
                        archetype_component_access: c.archetype_component_access,
                        resource_access: c.resource_access,
                    },
                ),
                ib.1,
            )
        },
        SystemData::Filled(f) => {
            let ii = init_spec(*f.system, r);
            (
                SystemData::Filled(
                    FilledInputSystemData { system: Box::new(ii.0), input: f.input },
                ),
                ii.1,
            )
        },
        SystemData::EventCursor(e) => (
            SystemData::EventCursor(
                EventCursorSystemData {
                    id: e.id,
                    name: e.name,
                    initialized: true,
                    archetype_component_access: e.archetype_component_access,
                    resource_access: TypeAccessData {
                        reads: e.resource_access.reads + e.channels,
                        writes: e.resource_access.writes,
                    },
                    role: e.role,
                    channels: e.channels,
                    cursors: e.cursors,
                },
            ),
            ensure_events_all(e.channels, r, e.channels.len() as int),
        ),
        SystemData::ThreadLocal(t) => (
            SystemData::ThreadLocal(
                ThreadLocalSystemData {
                    id: t.id,
                    name: t.name,
                    initialized: true,
                    archetype_component_access: t.archetype_component_access,
                    resource_access: t.resource_access,
                    kind: t.kind,
                },
            ),
            r,
        ),
    }
}

/// The table after making sure the first `n` channel logs exist.
pub open spec fn ensure_events_all(chs: Seq<u64>, r: ResourcesData, n: int) -> ResourcesData
    decreases n,
{
    if n <= 0 {
        r
    } else {
        ensure_events_all(chs, r, n - 1).ensure_events(chs[n - 1])
    }
}

/// What recomputing a unit's footprint against the current store does,
/// for every kind: the updated unit, plus a configuration error when a
/// unit's own query declarations collide.
pub open spec fn update_spec(s: SystemData, w: WorldData) -> (SystemData, Option<ConflictData>)
    decreases s,
{
    match s {
        SystemData::Func(f) => {
            let fu = func_update_spec(f, w);
            (SystemData::Func(fu.0), fu.1)
        },
        SystemData::Chain(c) => {
            let ua = update_spec(*c.a, w);
            match ua.1 {
                Some(e) => (
                    SystemData::Chain(
                        ChainSystemData {
                            a: Box::new(ua.0),
                            b: c.b,
                            name: c.name,
                            id: c.id,
                            archetype_component_access: c.archetype_component_access,
                            resource_access: c.resource_access,
                        },
                    ),
                    Some(e),
                ),
                None => {
                    let ub = update_spec(*c.b, w);
                    match ub.1 {
                        Some(e) => (
                            SystemData::Chain(
                                ChainSystemData {
                                    a: Box::new(ua.0),
                                    b: Box::new(ub.0),
                                    name: c.name,
                                    id: c.id,
                                    archetype_component_access: c.archetype_component_access,
                                    resource_access: c.resource_access,
                                },
                            ),
                            Some(e),
                        ),
                        None => (
                            SystemData::Chain(
                                ChainSystemData {
                                    a: Box::new(ua.0),
                                    b: Box::new(ub.0),
                                    name: c.name,
                                    id: c.id,
                                    archetype_component_access: ua.0.arch_access().union_with(
                                        ub.0.arch_access(),
                                    ),
                                    resource_access: ua.0.res_access().union_with(
                                        ub.0.res_access(),
                                    ),
                                },
                            ),
                            None,
                        ),
                    }
                },
            }
        },
        SystemData::Filled(f) => {
            let ui = update_spec(*f.system, w);
            (
                SystemData::Filled(
                    FilledInputSystemData { system: Box::new(ui.0), input: f.input },
                ),
                ui.1,
            )
        },
        SystemData::EventCursor(e) => (SystemData::EventCursor(e), None),
        SystemData::ThreadLocal(t) => (SystemData::ThreadLocal(t), None),
    }
}

impl System {
    /// The unit's display name.
    pub fn name(&self) -> (r: String)
        ensures
            r@ == self@.sname(),
        decreases self,
    {
        match self {
            System::Func(f) => f.state.name.clone(),
            System::Chain(c) => c.name.clone(),
            System::Filled(f) => f.system.name(),
            System::EventCursor(e) => e.name.clone(),
            System::ThreadLocal(t) => t.name.clone(),
        }
    }

    /// The unit's identifier, stable for its lifetime.
    pub fn id(&self) -> (r: SystemId)
        ensures
            r == self@.sid(),
        decreases self,
    {
        match self {
            System::Func(f) => f.state.id,
            System::Chain(c) => c.id,
            System::Filled(f) => f.system.id(),
            System::EventCursor(e) => e.id,
            System::ThreadLocal(t) => t.id,
        }
    }

    /// Whether one-time setup ran.
    pub fn is_initialized(&self) -> (r: bool)
        ensures
            r == self@.initialized(),
        decreases self,
    {
        match self {
            System::Func(f) => f.state.is_initialized,
            System::Chain(c) => c.a.is_initialized() && c.b.is_initialized(),
            System::Filled(f) => f.system.is_initialized(),
            System::EventCursor(e) => e.initialized,
            System::ThreadLocal(t) => t.initialized,
        }
    }

    /// The unit's component-slot footprint.
    pub fn archetype_component_access(&self) -> (r: &TypeAccess)
        ensures
            r@ == self@.arch_access(),
        decreases self,
    {
        match self {
            System::Func(f) => &f.state.archetype_component_access,
            System::Chain(c) => &c.archetype_component_access,
            System::Filled(f) => f.system.archetype_component_access(),
            System::EventCursor(e) => &e.archetype_component_access,
            System::ThreadLocal(t) => &t.archetype_component_access,
        }
    }

    /// The unit's resource footprint.
    pub fn resource_access(&self) -> (r: &TypeAccess)
        ensures
            r@ == self@.res_access(),
        decreases self,
    {
        match self {
            System::Func(f) => &f.state.resource_access,
            System::Chain(c) => &c.resource_access,
            System::Filled(f) => f.system.resource_access(),
            System::EventCursor(e) => &e.resource_access,
            System::ThreadLocal(t) => &t.resource_access,
        }
    }

    /// When the unit's thread-local step runs.
    pub fn thread_local_execution(&self) -> (r: ThreadLocalExecution)
        ensures
            r == self@.tle(),
        decreases self,
    {
        match self {
            System::Func(_) => ThreadLocalExecution::NextFlush,
            System::Chain(_) => ThreadLocalExecution::NextFlush,
            System::Filled(f) => f.system.thread_local_execution(),
            System::EventCursor(_) => ThreadLocalExecution::NextFlush,
            System::ThreadLocal(_) => ThreadLocalExecution::Immediate,
        }
    }

    /// Runs the unit's data-access step: effects reach only the storage
    /// its parameters imply, structural change is deferred into its
    /// buffer, and a skipped unit returns no output.
    pub fn run(&mut self, input: Value, world: &mut World, resources: &mut Resources) -> (r:
        Option<Value>)
        requires
            old(self)@.wf(),
            old(world)@.wf(),
        ensures
            final(self)@ == run_spec(old(self)@, input, old(world)@, old(resources)@).sys,
            final(world)@ == run_spec(old(self)@, input, old(world)@, old(resources)@).world,
            final(resources)@ == run_spec(old(self)@, input, old(world)@, old(resources)@).resources,
            r == run_spec(old(self)@, input, old(world)@, old(resources)@).out,
            final(self)@.wf(),
            final(world)@.wf(),
        decreases *old(self),
    {
        match self {
            System::Func(f) => f.run(input, world, resources),
            System::Chain(c) => {
                let oa = c.a.run(input, world, resources);
                match oa {
                    None => None,
                    Some(v) => c.b.run(v, world, resources),
                }
            },
            System::Filled(f) => {
                let inp = f.input;
                f.system.run(inp, world, resources)
            },
            System::EventCursor(e) => {
                let ghost e0 = e@;
                let ghost rr0 = resources@;
                match e.role {
                    EventRole::Criteria => {
                        let n = e.channels.len();
                        let mut any = false;
                        let mut i: usize = 0;
                        while i < n
                            invariant
                                e0.channels.len() == e0.cursors.len(),
                                n == e0.channels.len(),
                                rr0 == resources@,
                                e@.id == e0.id,
                                e@.name == e0.name,
                                e@.initialized == e0.initialized,
                                e@.archetype_component_access == e0.archetype_component_access,
                                e@.resource_access == e0.resource_access,
                                e@.role == e0.role,
                                e@.channels == e0.channels,
                                e@.cursors.len() == e0.cursors.len(),
                                e.channels.len() == n,
                                e.cursors.len() == n,
                                0 <= i <= n,
                                forall|j: int| 0 <= j < i ==> e@.cursors[j] == cursors_after(
                                    e0.channels,
                                    e0.cursors,
                                    rr0,
                                )[j],
                                forall|j: int| i <= j < n ==> e@.cursors[j] == e0.cursors[j],
                                any == exists|j: int|
                                    0 <= j < i && (#[trigger] e0.cursors[j] as int)
                                        < rr0.events_of(e0.channels[j]).len(),
                            decreases n - i,
                        {
                            let len = resources.events_len(e.channels[i]);
                            if e.cursors[i] < len {
                                let cur = e.cursors[i];
                                e.cursors[i] = cur + 1;
                                any = true;
                                proof {
                                    assert((e0.cursors[i as int] as int) < rr0.events_of(
                                        e0.channels[i as int],
                                    ).len());
                                }
                            }
                            i += 1;
                        }
                        proof {
                            assert(e@.cursors =~= cursors_after(e0.channels, e0.cursors, rr0));
                            assert(any == any_unread(e0.channels, e0.cursors, rr0));
                            assert(e@ =~= event_cursor_run_spec(e0, old(world)@, rr0).sys
                                ->EventCursor_0);
                        }
                        if any {
                            Some(Value::Should(ShouldRun::YesAndLoop))
                        } else {
                            Some(Value::Should(ShouldRun::No))
                        }
                    },
                    EventRole::PumpSingle => {
                        let ch = e.channels[0];
                        let cur = e.cursors[0];
                        let l = resources.events_len(ch);
                        match resources.event_at(ch, cur) {
                            Some(v) => {
                                proof {
                                    assert(cur < l);
                                }
                                e.cursors[0] = cur + 1;
                                proof {
                                    assert(e@.cursors =~= cursors_after(
                                        e0.channels,
                                        e0.cursors,
                                        rr0,
                                    ));
                                    assert(e@ =~= event_cursor_run_spec(
                                        e0,
                                        old(world)@,
                                        rr0,
                                    ).sys->EventCursor_0);
                                }
                                Some(Value::Int(v))
                            },
                            None => {
                                proof {
                                    assert(e@.cursors =~= cursors_after(
                                        e0.channels,
                                        e0.cursors,
                                        rr0,
                                    ));
                                    assert(e@ =~= event_cursor_run_spec(
                                        e0,
                                        old(world)@,
                                        rr0,
                                    ).sys->EventCursor_0);
                                }
                                None
                            },
                        }
                    },
                    EventRole::PumpJoint => {
                        let l0 = resources.events_len(e.channels[0]);
                        let a = match resources.event_at(e.channels[0], e.cursors[0]) {
                            Some(v) => {
                                let cur = e.cursors[0];
                                proof {
                                    assert(cur < l0);
                                }
                                e.cursors[0] = cur + 1;
                                Some(v)
                            },
                            None => None,
                        };
                        let l1 = resources.events_len(e.channels[1]);
                        let b = match resources.event_at(e.channels[1], e.cursors[1]) {
                            Some(v) => {
                                let cur = e.cursors[1];
                                proof {
                                    assert(cur < l1);
                                }
                                e.cursors[1] = cur + 1;
                                Some(v)
                            },
                            None => None,
                        };
                        let l2 = resources.events_len(e.channels[2]);
                        let c = match resources.event_at(e.channels[2], e.cursors[2]) {
                            Some(v) => {
                                let cur = e.cursors[2];
                                proof {
                                    assert(cur < l2);
                                }
                                e.cursors[2] = cur + 1;
                                Some(v)
                            },
                            None => None,
                        };
                        proof {
                            assert(e@.cursors =~= cursors_after(e0.channels, e0.cursors, rr0));
                            assert(a == pull_item(e0.channels, e0.cursors, rr0, 0));
                            assert(b == pull_item(e0.channels, e0.cursors, rr0, 1));
                            assert(c == pull_item(e0.channels, e0.cursors, rr0, 2));
                            assert(e@ =~= event_cursor_run_spec(e0, old(world)@, rr0).sys
                                ->EventCursor_0);
                        }
                        Some(Value::Triple(a, b, c))
                    },
                }
            },
            System::ThreadLocal(_) => Some(Value::Unit),
        }
    }

    /// Applies the unit's exclusive thread-local step: the deferred
    /// buffer drains into the world in submission order.
    pub fn run_thread_local(&mut self, world: &mut World, resources: &mut Resources)
        requires
            old(self)@.wf(),
            old(world)@.wf(),
        ensures
            final(self)@ == flush_spec(old(self)@, old(world)@, old(resources)@).0,
            final(world)@ == flush_spec(old(self)@, old(world)@, old(resources)@).1,
            final(resources)@ == flush_spec(old(self)@, old(world)@, old(resources)@).2,
            final(self)@.wf(),
            final(world)@.wf(),
        decreases *old(self),
    {
        match self {
            System::Func(f) => {
                f.state.commands.apply(world, resources);
                proof {
                    assert(f@.state.commands =~= (crate::commands::CommandsData {
                        queue: Seq::<CommandData>::empty(),
                    }));
                    assert(f@.state =~= flush_spec(
                        SystemData::Func(old(self)@->Func_0),
                        old(world)@,
                        old(resources)@,
                    ).0->Func_0.state);
                    assert(f@ =~= flush_spec(
                        SystemData::Func(old(self)@->Func_0),
                        old(world)@,
                        old(resources)@,
                    ).0->Func_0);
                }
            },
            System::Chain(c) => {
                c.a.run_thread_local(world, resources);
                c.b.run_thread_local(world, resources);
            },
            System::Filled(f) => {
                f.system.run_thread_local(world, resources);
            },
            System::EventCursor(_) => {},
            System::ThreadLocal(t) => {
                match t.kind {
                    ThreadLocalKind::ClearTrackers => {
                        resources.clear_trackers();
                    },
                }
            },
        }
    }

    /// One-time setup before the first run: parameters register their
    /// footprints, consumed logs are made present.
    pub fn initialize(&mut self, world: &World, resources: &mut Resources)
        requires
            old(self)@.wf(),
        ensures
            final(self)@ == init_spec(old(self)@, old(resources)@).0,
            final(resources)@ == init_spec(old(self)@, old(resources)@).1,
            final(self)@.wf(),
        decreases *old(self),
    {
        match self {
            System::Func(f) => {
                f.initialize(resources);
            },
            System::Chain(c) => {
                c.a.initialize(world, resources);
                c.b.initialize(world, resources);
            },
            System::Filled(f) => {
                f.system.initialize(world, resources);
            },
            System::EventCursor(e) => {
                let ghost e0 = e@;
                let ghost r0 = resources@;
                let n = e.channels.len();
                let mut i: usize = 0;
                while i < n
                    invariant
                        n == e0.channels.len(),
                        e0.channels.len() == e0.cursors.len(),
                        e.channels.len() == n,
                        e@.id == e0.id,
                        e@.name == e0.name,
                        e@.initialized == e0.initialized,
                        e@.archetype_component_access == e0.archetype_component_access,
                        e@.role == e0.role,
                        e@.channels == e0.channels,
                        e@.cursors == e0.cursors,
                        e@.resource_access.reads == e0.resource_access.reads + e0.channels.take(
                            i as int,
                        ),
                        e@.resource_access.writes == e0.resource_access.writes,
                        0 <= i <= n,
                        resources@ == ensure_events_all(e0.channels, r0, i as int),
                    decreases n - i,
                {
                    let ch = e.channels[i];
                    resources.ensure_events(ch);
                    e.resource_access.add_read(ch);
                    proof {
                        assert(e0.channels.take(i + 1) =~= e0.channels.take(i as int).push(ch));
                        assert(e@.resource_access.reads =~= e0.resource_access.reads
                            + e0.channels.take(i + 1));
                    }
                    i += 1;
                }
                e.initialized = true;
                proof {
                    assert(e0.channels.take(n as int) =~= e0.channels);
                    assert(e@ =~= init_spec(SystemData::EventCursor(e0), r0).0->EventCursor_0);
                }
            },
            System::ThreadLocal(t) => {
                t.initialized = true;
            },
        }
    }

    /// Recomputes the unit's access footprint against the current store
    /// shape; colliding query declarations of one unit are reported as
    /// a configuration error naming both.
    pub fn update(&mut self, world: &World) -> (r: Result<(), ConflictError>)
        requires
            old(self)@.wf(),
            world@.wf(),
        ensures
            final(self)@ == update_spec(old(self)@, world@).0,
            match r {
                Ok(()) => update_spec(old(self)@, world@).1 is None,
                Err(e) => update_spec(old(self)@, world@).1 == Some(e@),
            },
            final(self)@.wf(),
        decreases *old(self),
    {
        match self {
            System::Func(f) => {
                let ret = f.state.update(world);
                proof {
                    assert(f@ =~= update_spec(SystemData::Func(old(self)@->Func_0), world@).0
                        ->Func_0);
                }
                ret
            },
            System::Chain(c) => {
                match c.a.update(world) {
                    Err(e) => Err(e),
                    Ok(()) => {
                        match c.b.update(world) {
                            Err(e) => Err(e),
                            Ok(()) => {
                                c.archetype_component_access.clear();
                                c.archetype_component_access.union(
                                    c.a.archetype_component_access(),
                                );
                                c.archetype_component_access.union(
                                    c.b.archetype_component_access(),
                                );
                                c.resource_access.clear();
                                c.resource_access.union(c.a.resource_access());
                                c.resource_access.union(c.b.resource_access());
                                proof {
                                    let ua = update_spec(*old(self)@->Chain_0.a, world@);
                                    let ub = update_spec(*old(self)@->Chain_0.b, world@);
                                    assert(c.archetype_component_access@ =~= ua.0.arch_access()
                                        .union_with(ub.0.arch_access()));
                                    assert(c.resource_access@ =~= ua.0.res_access().union_with(
                                        ub.0.res_access(),
                                    ));
                                }
                                Ok(())
                            },
                        }
                    },
                }
            },
            System::Filled(f) => f.system.update(world),
            System::EventCursor(_) => Ok(()),
            System::ThreadLocal(_) => Ok(()),
        }
    }
}

/// Sequential composition: feed this unit's output into another unit.
pub trait AsChainSystem: Sized {
    /// The chained unit: runs `self`, pipes its output into `other`.
    fn chain(self, other: System) -> System;
}

impl AsChainSystem for System {
    /// Builds the chain with empty footprints and a fresh identifier;
    /// the merged footprints appear at the first update.
    fn chain(self, other: System) -> (r: System)
        ensures
            r@ is Chain,
            *r@->Chain_0.a == self@,
            *r@->Chain_0.b == other@,
            r@->Chain_0.name == "Chain("@ + self@.sname() + ", "@ + other@.sname() + ")"@,
            r@->Chain_0.archetype_component_access == TypeAccessData::empty(),
            r@->Chain_0.resource_access == TypeAccessData::empty(),
            self@.wf() && other@.wf() ==> r@.wf(),
    {
        let mut name = "Chain(".to_owned();
        let an = self.name();
        name.append(an.as_str());
        name.append(", ");
        let bn = other.name();
        name.append(bn.as_str());
        name.append(")");
        System::Chain(
            ChainSystem {
                a: Box::new(self),
                b: Box::new(other),
                name,
                id: SystemId::new(),
                archetype_component_access: TypeAccess::new(),
                resource_access: TypeAccess::new(),
            },
        )
    }
}

/// Input currying: fix a unit's input to a constant, leaving a unit
/// that needs none.
pub trait FillSystemInput: Sized {
    /// The unit with `input` supplied on every invocation.
    fn input(self, input: Value) -> System;
}

impl FillSystemInput for System {
    fn input(self, input: Value) -> (r: System)
        ensures
            r@ == SystemData::Filled(
                FilledInputSystemData { system: Box::new(self@), input },
            ),
            self@.wf() ==> r@.wf(),
    {
        System::Filled(FilledInputSystem { system: Box::new(self), input })
    }
}

} // verus!
