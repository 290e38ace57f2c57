//! Stages: ordered collections of units of work sharing one executor
//! and an optional repeat-predicate.
//!
//! The serial executor runs every unit in registration order, flushing
//! each unit right after its data-access step.  The parallel executor
//! batches units whose access footprints are pairwise compatible, runs a
//! batch's data-access steps with the store effectively shared read-only
//! (structural change deferred), then flushes the batch serially in
//! registration order.

use vstd::prelude::*;
use crate::resources::{Resources, ResourcesData};
use crate::system::{
    init_spec, run_spec, update_spec, ConflictData, ConflictError, EventRole, ShouldRun, System,
    SystemData, SystemId, ThreadLocalExecution, Value,
};
use crate::into_system::IntoSystem;
use crate::world::{World, WorldData};

verus! {

/// Why a unit could not be appended to a stage.
#[derive(Debug, Copy, Clone, PartialEq, Eq, Structural)]
pub enum StageError {
    /// A unit with the same identifier is already registered.
    SystemAlreadyExists(SystemId),
    /// The unit's descriptor was rejected at build time.
    InvalidSystem,
}

/// The execution strategy of a stage.
#[derive(Debug, Copy, Clone, PartialEq, Eq, Structural)]
pub enum ExecutorKind {
    /// Strict registration order, one unit at a time.
    Serial,
    /// Compatible units batched for concurrent execution.
    Parallel,
}

/// Two units may run concurrently: no slot or resource is written by
/// one and seen by the other.
pub open spec fn sys_compatible(a: SystemData, b: SystemData) -> bool {
    a.arch_access().compatible_with(b.arch_access()) && a.res_access().compatible_with(
        b.res_access(),
    )
}

// ---------------------------------------------------------------------
// Serial executor semantics
// ---------------------------------------------------------------------

/// The state after the serial executor has handled the first `n` units:
/// each in turn is updated, run, and flushed immediately; the first
/// configuration error stops the walk with later units untouched.
pub open spec fn serial_prefix(ss: Seq<SystemData>, w: WorldData, r: ResourcesData, n: int) -> (
    Seq<SystemData>,
    WorldData,
    ResourcesData,
    Option<ConflictData>,
)
    decreases n,
{
    if n <= 0 {
        (ss, w, r, None)
    } else {
        let p = serial_prefix(ss, w, r, n - 1);
        if p.3 is Some {
            p
        } else {
            let up = update_spec(p.0[n - 1], p.1);
            if up.1 is Some {
                (p.0.update(n - 1, up.0), p.1, p.2, up.1)
            } else {
                let ro = run_spec(up.0, Value::Unit, p.1, p.2);
                let fl = crate::system::flush_spec(ro.sys, ro.world, ro.resources);
                (p.0.update(n - 1, fl.0), fl.1, fl.2, None)
            }
        }
    }
}

// ---------------------------------------------------------------------
// Parallel executor semantics
// ---------------------------------------------------------------------

/// The units after the parallel executor's update pass over the first
/// `n`: the first configuration error stops the walk.
pub open spec fn update_all_prefix(ss: Seq<SystemData>, w: WorldData, n: int) -> (
    Seq<SystemData>,
    Option<ConflictData>,
)
    decreases n,
{
    if n <= 0 {
        (ss, None)
    } else {
        let p = update_all_prefix(ss, w, n - 1);
        if p.1 is Some {
            p
        } else {
            let up = update_spec(p.0[n - 1], w);
            (p.0.update(n - 1, up.0), up.1)
        }
    }
}

/// Where the batch starting at `i` ends: the scan from `j` stops at the
/// first unit that conflicts with an earlier batch member or demands
/// immediate thread-local execution.
pub open spec fn batch_scan(ss: Seq<SystemData>, i: int, j: int) -> int
    decreases ss.len() - j,
{
    if j < 0 || j >= ss.len() {
        ss.len() as int
    } else if ss[j].tle() is Immediate {
        j
    } else if exists|k: int| i <= k < j && !sys_compatible(#[trigger] ss[k], ss[j]) {
        j
    } else {
        batch_scan(ss, i, j + 1)
    }
}

/// The end of the batch starting at `i`: a unit demanding immediate
/// execution runs alone; otherwise greedily extend while compatible.
pub open spec fn batch_extent(ss: Seq<SystemData>, i: int) -> int {
    if 0 <= i < ss.len() && ss[i].tle() is Immediate {
        i + 1
    } else {
        batch_scan(ss, i, i + 1)
    }
}

/// The state after the data-access steps of units `[i, n)`, in order,
/// with no flushing.
pub open spec fn run_batch_prefix(
    ss: Seq<SystemData>,
    w: WorldData,
    r: ResourcesData,
    i: int,
    n: int,
) -> (Seq<SystemData>, WorldData, ResourcesData)
    decreases n - i,
{
    if n <= i {
        (ss, w, r)
    } else {
        let p = run_batch_prefix(ss, w, r, i, n - 1);
        let ro = run_spec(p.0[n - 1], Value::Unit, p.1, p.2);
        (p.0.update(n - 1, ro.sys), ro.world, ro.resources)
    }
}

/// The state after the serialized thread-local flushes of units
/// `[i, n)`, in registration order.
pub open spec fn flush_batch_prefix(
    ss: Seq<SystemData>,
    w: WorldData,
    r: ResourcesData,
    i: int,
    n: int,
) -> (Seq<SystemData>, WorldData, ResourcesData)
    decreases n - i,
{
    if n <= i {
        (ss, w, r)
    } else {
        let p = flush_batch_prefix(ss, w, r, i, n - 1);
        let fl = crate::system::flush_spec(p.0[n - 1], p.1, p.2);
        (p.0.update(n - 1, fl.0), fl.1, fl.2)
    }
}

/// The state after the parallel executor has run every batch from
/// position `i` on: each batch's data-access steps in order, then its
/// flushes in registration order.  `fuel` only bounds the recursion;
/// every batch is nonempty, so `ss.len()` passes suffice.
pub open spec fn run_batches_from(
    ss: Seq<SystemData>,
    w: WorldData,
    r: ResourcesData,
    i: int,
    fuel: nat,
) -> (Seq<SystemData>, WorldData, ResourcesData)
    decreases fuel,
{
    if fuel == 0 || i < 0 || i >= ss.len() {
        (ss, w, r)
    } else {
        let e0 = batch_extent(ss, i);
        let e = if e0 <= i {
            i + 1
        } else {
            e0
        };
        let d = run_batch_prefix(ss, w, r, i, e);
        let f = flush_batch_prefix(d.0, d.1, d.2, i, e);
        run_batches_from(f.0, f.1, f.2, e, (fuel - 1) as nat)
    }
}

/// One full pass of a stage's units through its executor.
pub open spec fn exec_pass(
    ss: Seq<SystemData>,
    w: WorldData,
    r: ResourcesData,
    ex: ExecutorKind,
) -> (Seq<SystemData>, WorldData, ResourcesData, Option<ConflictData>) {
    match ex {
        ExecutorKind::Serial => serial_prefix(ss, w, r, ss.len() as int),
        ExecutorKind::Parallel => {
            let up = update_all_prefix(ss, w, ss.len() as int);
            if up.1 is Some {
                (up.0, w, r, up.1)
            } else {
                let rb = run_batches_from(up.0, w, r, 0, up.0.len() as nat);
                (rb.0, rb.1, rb.2, None)
            }
        },
    }
}

// ---------------------------------------------------------------------
// Repeat-predicate and stage semantics
// ---------------------------------------------------------------------

/// How a predicate's output is read: an explicit verdict counts; a unit
/// that ran without one means "run once"; a skipped unit means "skip".
pub open spec fn verdict_of(out: Option<Value>) -> ShouldRun {
    match out {
        Some(v) => match v {
            Value::Should(s) => s,
            _ => ShouldRun::Yes,
        },
        None => ShouldRun::No,
    }
}

/// One evaluation of the optional repeat-predicate; a stage without one
/// always runs once.
pub open spec fn eval_criteria(c: Option<SystemData>, w: WorldData, r: ResourcesData) -> (
    Option<SystemData>,
    WorldData,
    ResourcesData,
    ShouldRun,
) {
    match c {
        None => (None::<SystemData>, w, r, ShouldRun::Yes),
        Some(cs) => {
            let ro = run_spec(cs, Value::Unit, w, r);
            (Some(ro.sys), ro.world, ro.resources, verdict_of(ro.out))
        },
    }
}

/// The stage's per-tick loop: evaluate the predicate; skip, run once,
/// or run and evaluate again, for at most `fuel` further rounds.
pub open spec fn stage_loop_spec(
    fuel: nat,
    ss: Seq<SystemData>,
    c: Option<SystemData>,
    ex: ExecutorKind,
    w: WorldData,
    r: ResourcesData,
) -> (Seq<SystemData>, Option<SystemData>, WorldData, ResourcesData, Option<ConflictData>)
    decreases fuel,
{
    let ev = eval_criteria(c, w, r);
    match ev.3 {
        ShouldRun::No => (ss, ev.0, ev.1, ev.2, None::<ConflictData>),
        ShouldRun::Yes => {
            let p = exec_pass(ss, ev.1, ev.2, ex);
            (p.0, ev.0, p.1, p.2, p.3)
        },
        ShouldRun::YesAndLoop => {
            let p = exec_pass(ss, ev.1, ev.2, ex);
            if p.3 is Some {
                (p.0, ev.0, p.1, p.2, p.3)
            } else if fuel == 0 {
                (p.0, ev.0, p.1, p.2, None::<ConflictData>)
            } else {
                stage_loop_spec((fuel - 1) as nat, p.0, ev.0, ex, p.1, p.2)
            }
        },
    }
}

/// How many unread items the first `n` cursors leave in their logs.
pub open spec fn unread_total(chs: Seq<u64>, curs: Seq<usize>, r: ResourcesData, n: int) -> int
    decreases n,
{
    if n <= 0 {
        0
    } else {
        unread_total(chs, curs, r, n - 1) + if (curs[n - 1] as int) < r.events_of(
            chs[n - 1],
        ).len() {
            r.events_of(chs[n - 1]).len() - curs[n - 1]
        } else {
            0
        }
    }
}

/// How many repeat rounds a stage allows: an event-cursor predicate is
/// bounded by its pending items; any other predicate loops at most
/// once, since only the event-cursor predicate's verdicts shrink with
/// consumption.
pub open spec fn stage_fuel(c: Option<SystemData>, r: ResourcesData) -> nat {
    match c {
        Some(cs) => match cs {
            SystemData::EventCursor(e) => {
                if e.role is Criteria {
                    let t = unread_total(e.channels, e.cursors, r, e.channels.len() as int);
                    if t > usize::MAX {
                        usize::MAX as nat
                    } else if t < 0 {
                        0
                    } else {
                        t as nat
                    }
                } else {
                    1
                }
            },
            _ => 1,
        },
        None => 1,
    }
}

/// The units after initializing those appended since the previous run.
pub open spec fn init_changed_prefix(
    ss: Seq<SystemData>,
    changed: Seq<usize>,
    r: ResourcesData,
    n: int,
) -> (Seq<SystemData>, ResourcesData)
    decreases n,
{
    if n <= 0 {
        (ss, r)
    } else {
        let p = init_changed_prefix(ss, changed, r, n - 1);
        let idx = changed[n - 1] as int;
        if 0 <= idx < p.0.len() {
            let ir = init_spec(p.0[idx], p.1);
            (p.0.update(idx, ir.0), ir.1)
        } else {
            p
        }
    }
}

/// The predicate after its one-time initialization.
pub open spec fn criteria_init(c: Option<SystemData>, inited: bool, r: ResourcesData) -> (
    Option<SystemData>,
    ResourcesData,
) {
    if inited {
        (c, r)
    } else {
        match c {
            None => (c, r),
            Some(cs) => {
                let ir = init_spec(cs, r);
                (Some(ir.0), ir.1)
            },
        }
    }
}

/// Spec-level mirror of a [`SystemStage`].
#[verifier::ext_equal]
pub struct SystemStageData {
    pub systems: Seq<SystemData>,
    pub system_ids: Seq<SystemId>,
    pub executor: ExecutorKind,
    pub should_run: Option<SystemData>,
    pub changed_systems: Seq<usize>,
    pub initialized_should_run: bool,
}

impl SystemStageData {
    /// Every held unit is well formed.
    pub open spec fn wf(self) -> bool {
        &&& forall|i: int| 0 <= i < self.systems.len() ==> (#[trigger] self.systems[i]).wf()
        &&& match self.should_run {
            Some(c) => c.wf(),
            None => true,
        }
    }
}

/// What one tick of a stage does: initialize the predicate once,
/// initialize newly appended units, then run the per-tick loop; the
/// changed list is cleared.
pub open spec fn stage_run_spec(st: SystemStageData, w: WorldData, r: ResourcesData) -> (
    SystemStageData,
    WorldData,
    ResourcesData,
    Option<ConflictData>,
) {
    let ci = criteria_init(st.should_run, st.initialized_should_run, r);
    let ic = init_changed_prefix(st.systems, st.changed_systems, ci.1, st.changed_systems.len() as int);
    let fuel = stage_fuel(ci.0, ic.1);
    let lp = stage_loop_spec(fuel, ic.0, ci.0, st.executor, w, ic.1);
    (
        SystemStageData {
            systems: lp.0,
            system_ids: st.system_ids,
            executor: st.executor,
            should_run: lp.1,
            changed_systems: Seq::empty(),
            initialized_should_run: true,
        },
        lp.2,
        lp.3,
        lp.4,
    )
}

/// An ordered, independently schedulable group of units sharing one
/// executor and one optional repeat-predicate.
pub struct SystemStage {
    systems: Vec<System>,
    system_ids: Vec<SystemId>,
    executor: ExecutorKind,
    should_run: Option<System>,
    changed_systems: Vec<usize>,
    initialized_should_run: bool,
}

impl View for SystemStage {
    type V = SystemStageData;

    closed spec fn view(&self) -> SystemStageData {
        SystemStageData {
            systems: self.systems@.map_values(|s: System| s@),
            system_ids: self.system_ids@,
            executor: self.executor,
            should_run: match self.should_run {
                Some(c) => Some(c@),
                None => None,
            },
            changed_systems: self.changed_systems@,
            initialized_should_run: self.initialized_should_run,
        }
    }
}

/// Anything a schedule can tick: a group of units runnable against the
/// store and the resource table.
pub trait Stage {
    /// The stage's own well-formedness, preserved by every tick.
    spec fn inv(&self) -> bool;

    /// Runs the stage once for this tick.
    fn run(&mut self, world: &mut World, resources: &mut Resources) -> (r: Result<
        (),
        ConflictError,
    >)
        requires
            old(self).inv(),
            old(world)@.wf(),
        ensures
            final(self).inv(),
            final(world)@.wf(),
    ;
}

// ---------------------------------------------------------------------
// Executable layer
// ---------------------------------------------------------------------

/// Whether an identifier is already registered.
fn contains_id(ids: &Vec<SystemId>, id: SystemId) -> (r: bool)
    ensures
        r == ids@.contains(id),
{
    let mut i: usize = 0;
    while i < ids.len()
        invariant
            0 <= i <= ids@.len(),
            forall|j: int| 0 <= j < i ==> ids@[j] != id,
        decreases ids@.len() - i,
    {
        if ids[i] == id {
            return true;
        }
        i += 1;
    }
    false
}

/// Whether unit `j` is compatible with every unit in `[i, j)`.
fn compatible_with_prior(systems: &Vec<System>, i: usize, j: usize) -> (r: bool)
    requires
        i <= j < systems@.len(),
    ensures
        r == forall|k: int|
            i <= k < j ==> sys_compatible((#[trigger] systems@[k])@, systems@[j as int]@),
{
    let mut k: usize = i;
    while k < j
        invariant
            i <= k <= j < systems@.len(),
            forall|m: int| i <= m < k ==> sys_compatible((#[trigger] systems@[m])@, systems@[
                j as int]@),
        decreases j - k,
    {
        let ok_arch = systems[k].archetype_component_access().is_compatible(
            systems[j].archetype_component_access(),
        );
        let ok_res = systems[k].resource_access().is_compatible(systems[j].resource_access());
        if !(ok_arch && ok_res) {
            proof {
                assert(!sys_compatible(systems@[k as int]@, systems@[j as int]@));
            }
            return false;
        }
        proof {
            assert(sys_compatible(systems@[k as int]@, systems@[j as int]@));
        }
        k += 1;
    }
    true
}

/// Runs every unit in registration order, flushing each immediately.
fn execute_serial(systems: &mut Vec<System>, world: &mut World, resources: &mut Resources) -> (r:
    Option<ConflictError>)
    requires
        forall|j: int| 0 <= j < old(systems)@.len() ==> (#[trigger] old(systems)@[j])@.wf(),
        old(world)@.wf(),
    ensures
        ({
            let sp = serial_prefix(
                old(systems)@.map_values(|s: System| s@),
                old(world)@,
                old(resources)@,
                old(systems)@.len() as int,
            );
            &&& final(systems)@.map_values(|s: System| s@) == sp.0
            &&& final(world)@ == sp.1
            &&& final(resources)@ == sp.2
            &&& (match r {
                Some(e) => sp.3 == Some(e@),
                None => sp.3 is None,
            })
        }),
        final(systems)@.len() == old(systems)@.len(),
        forall|j: int| 0 <= j < final(systems)@.len() ==> (#[trigger] final(systems)@[j])@.wf(),
        final(world)@.wf(),
{
    let ghost ss0 = systems@.map_values(|s: System| s@);
    let ghost w0 = world@;
    let ghost r0 = resources@;
    let n = systems.len();
    let mut i: usize = 0;
    while i < n
        invariant
            ss0 == old(systems)@.map_values(|s: System| s@),
            w0 == old(world)@,
            r0 == old(resources)@,
            n == ss0.len(),
            systems@.len() == n,
            0 <= i <= n,
            serial_prefix(ss0, w0, r0, i as int).3 is None,
            systems@.map_values(|s: System| s@) == serial_prefix(ss0, w0, r0, i as int).0,
            world@ == serial_prefix(ss0, w0, r0, i as int).1,
            resources@ == serial_prefix(ss0, w0, r0, i as int).2,
            forall|j: int| 0 <= j < n ==> (#[trigger] systems@[j])@.wf(),
            world@.wf(),
        decreases n - i,
    {
        let ghost pre = systems@.map_values(|s: System| s@);
        proof {
            assert(systems@[i as int]@ == pre[i as int]);
            assert(pre[i as int].wf());
        }
        match systems[i].update(world) {
            Err(e) => {
                proof {
                    assert(systems@.map_values(|s: System| s@) =~= pre.update(
                        i as int,
                        update_spec(pre[i as int], world@).0,
                    ));
                    assert(serial_prefix(ss0, w0, r0, i + 1).3 == Some(e@));
                    assert(systems@.map_values(|s: System| s@) == serial_prefix(
                        ss0,
                        w0,
                        r0,
                        i + 1,
                    ).0);
                    lemma_serial_prefix_stops(ss0, w0, r0, i + 1, n as int);
                    assert(serial_prefix(ss0, w0, r0, n as int) == serial_prefix(
                        ss0,
                        w0,
                        r0,
                        i + 1,
                    ));
                    assert(serial_prefix(ss0, w0, r0, n as int).3 == Some(e@));
                    assert forall|j: int| 0 <= j < n implies (#[trigger] systems@[j])@.wf() by {
                        if j != i {
                            assert(systems@[j]@ == pre[j]);
                            assert(pre[j].wf());
                        }
                    }
                }
                return Some(e);
            },
            Ok(()) => {},
        }
        let ghost mid = systems@.map_values(|s: System| s@);
        let _out = systems[i].run(Value::Unit, world, resources);
        let ghost mid2 = systems@.map_values(|s: System| s@);
        systems[i].run_thread_local(world, resources);
        proof {
            let up = update_spec(pre[i as int], serial_prefix(ss0, w0, r0, i as int).1);
            assert(mid =~= pre.update(i as int, up.0));
            let ro = run_spec(
                up.0,
                Value::Unit,
                serial_prefix(ss0, w0, r0, i as int).1,
                serial_prefix(ss0, w0, r0, i as int).2,
            );
            assert(mid[i as int] == up.0);
            assert(mid2 =~= mid.update(i as int, ro.sys));
            let fl = crate::system::flush_spec(ro.sys, ro.world, ro.resources);
            assert(mid2[i as int] == ro.sys);
            assert(systems@.map_values(|s: System| s@) =~= mid2.update(i as int, fl.0));
            assert(systems@.map_values(|s: System| s@) =~= pre.update(i as int, fl.0));
            assert(systems@.map_values(|s: System| s@) == serial_prefix(ss0, w0, r0, i + 1).0);
            assert(world@ == serial_prefix(ss0, w0, r0, i + 1).1);
            assert(resources@ == serial_prefix(ss0, w0, r0, i + 1).2);
            assert forall|j: int| 0 <= j < n implies (#[trigger] systems@[j])@.wf() by {
                if j != i {
                    assert(systems@[j]@ == pre[j]);
                    assert(pre[j].wf());
                }
            }
        }
        i += 1;
    }
    None
}

/// A stopped serial walk stays stopped.
proof fn lemma_serial_prefix_stops(ss: Seq<SystemData>, w: WorldData, r: ResourcesData, i: int, n: int)
    requires
        0 <= i <= n,
        serial_prefix(ss, w, r, i).3 is Some,
    ensures
        serial_prefix(ss, w, r, n) == serial_prefix(ss, w, r, i),
    decreases n - i,
{
    if i < n {
        lemma_serial_prefix_stops(ss, w, r, i + 1, n);
    }
}

/// Runs every unit through the parallel strategy: update all, then run
/// batch after batch of pairwise-compatible units, flushing each batch
/// serially in registration order.
fn execute_parallel(systems: &mut Vec<System>, world: &mut World, resources: &mut Resources) -> (r:
    Option<ConflictError>)
    requires
        forall|j: int| 0 <= j < old(systems)@.len() ==> (#[trigger] old(systems)@[j])@.wf(),
        old(world)@.wf(),
    ensures
        ({
            let ps = exec_pass(
                old(systems)@.map_values(|s: System| s@),
                old(world)@,
                old(resources)@,
                ExecutorKind::Parallel,
            );
            &&& final(systems)@.map_values(|s: System| s@) == ps.0
            &&& final(world)@ == ps.1
            &&& final(resources)@ == ps.2
            &&& (match r {
                Some(e) => ps.3 == Some(e@),
                None => ps.3 is None,
            })
        }),
        final(systems)@.len() == old(systems)@.len(),
        forall|j: int| 0 <= j < final(systems)@.len() ==> (#[trigger] final(systems)@[j])@.wf(),
        final(world)@.wf(),
{
    let ghost ss0 = systems@.map_values(|s: System| s@);
    let ghost w0 = world@;
    let ghost r0 = resources@;
    let n = systems.len();
    let mut i: usize = 0;
    while i < n
        invariant
            ss0 == old(systems)@.map_values(|s: System| s@),
            w0 == old(world)@,
            r0 == old(resources)@,
            n == ss0.len(),
            systems@.len() == n,
            0 <= i <= n,
            world@ == w0,
            resources@ == r0,
            update_all_prefix(ss0, w0, i as int).1 is None,
            systems@.map_values(|s: System| s@) == update_all_prefix(ss0, w0, i as int).0,
            forall|j: int| 0 <= j < n ==> (#[trigger] systems@[j])@.wf(),
            world@.wf(),
        decreases n - i,
    {
        let ghost pre = systems@.map_values(|s: System| s@);
        proof {
            assert(systems@[i as int]@ == pre[i as int]);
            assert(pre[i as int].wf());
        }
        match systems[i].update(world) {
            Err(e) => {
                proof {
                    assert(systems@.map_values(|s: System| s@) =~= pre.update(
                        i as int,
                        update_spec(pre[i as int], w0).0,
                    ));
                    assert(update_all_prefix(ss0, w0, i + 1).1 == Some(e@));
                    assert(systems@.map_values(|s: System| s@) == update_all_prefix(
                        ss0,
                        w0,
                        i + 1,
                    ).0);
                    lemma_update_all_stops(ss0, w0, i + 1, n as int);
                    assert forall|j: int| 0 <= j < n implies (#[trigger] systems@[j])@.wf() by {
                        if j != i {
                            assert(systems@[j]@ == pre[j]);
                            assert(pre[j].wf());
                        }
                    }
                }
                return Some(e);
            },
            Ok(()) => {
                proof {
                    assert(systems@.map_values(|s: System| s@) =~= pre.update(
                        i as int,
                        update_spec(pre[i as int], w0).0,
                    ));
                }
            },
        }
        i += 1;
    }
    let ghost upd = systems@.map_values(|s: System| s@);
    proof {
        assert(upd == update_all_prefix(ss0, w0, n as int).0);
        assert(upd.len() == n);
    }
    let ghost target = run_batches_from(upd, w0, r0, 0, upd.len() as nat);
    let mut b: usize = 0;
    let ghost mut fuel_left: nat = upd.len() as nat;
    while b < n
        invariant
            n == systems@.len(),
            0 <= b <= n,
            fuel_left >= n - b,
            world@.wf(),
            target == run_batches_from(
                systems@.map_values(|s: System| s@),
                world@,
                resources@,
                b as int,
                fuel_left,
            ),
            forall|j: int| 0 <= j < n ==> (#[trigger] systems@[j])@.wf(),
        decreases n - b,
    {
        let ghost cur = systems@.map_values(|s: System| s@);
        let ghost bw = world@;
        let ghost br = resources@;
        // find the batch end
        let e: usize = if matches!(
            systems[b].thread_local_execution(),
            ThreadLocalExecution::Immediate,
        ) {
            proof {
                assert(systems@[b as int]@ == cur[b as int]);
                assert(cur[b as int].tle() is Immediate);
                assert(batch_extent(cur, b as int) == b + 1);
            }
            b + 1
        } else {
            proof {
                assert(systems@[b as int]@ == cur[b as int]);
                assert(!(cur[b as int].tle() is Immediate));
            }
            let mut j: usize = b + 1;
            while j < n
                invariant
                    b < j <= n,
                    n == systems@.len(),
                    cur == systems@.map_values(|s: System| s@),
                    batch_scan(cur, b as int, b + 1) == batch_scan(cur, b as int, j as int),
                ensures
                    b < j <= n,
                    batch_scan(cur, b as int, b + 1) == j as int,
                    cur == systems@.map_values(|s: System| s@),
                decreases n - j,
            {
                if matches!(
                    systems[j].thread_local_execution(),
                    ThreadLocalExecution::Immediate,
                ) {
                    proof {
                        assert(systems@[j as int]@ == cur[j as int]);
                        assert(cur[j as int].tle() is Immediate);
                        assert(batch_scan(cur, b as int, j as int) == j);
                    }
                    break;
                }
                if !compatible_with_prior(systems, b, j) {
                    proof {
                        let bad = choose|k: int|
                            b <= k < j && !sys_compatible((#[trigger] systems@[k])@, systems@[
                                j as int]@);
                        assert(cur[bad] == systems@[bad]@);
                        assert(cur[j as int] == systems@[j as int]@);
                        assert(!sys_compatible(cur[bad], cur[j as int]));
                        assert(batch_scan(cur, b as int, j as int) == j);
                    }
                    break;
                }
                proof {
                    assert(systems@[j as int]@ == cur[j as int]);
                    assert(!(cur[j as int].tle() is Immediate));
                    assert forall|k: int| b <= k < j implies sys_compatible(
                        #[trigger] cur[k],
                        cur[j as int],
                    ) by {
                        assert(cur[k] == systems@[k]@);
                        assert(sys_compatible(systems@[k]@, systems@[j as int]@));
                    }
                    assert(batch_scan(cur, b as int, j as int) == batch_scan(
                        cur,
                        b as int,
                        j + 1,
                    ));
                }
                j += 1;
            }
            proof {
                assert(batch_extent(cur, b as int) == batch_scan(cur, b as int, b + 1));
            }
            j
        };
        let ghost espec = batch_extent(cur, b as int);
        proof {
            assert(b < e <= n);
            assert(e as int == (if espec <= b as int {
                b + 1
            } else {
                espec
            }));
        }
        // data-access phase of the batch, registration order
        let mut k: usize = b;
        while k < e
            invariant
                b <= k <= e <= n,
                n == systems@.len(),
                world@.wf(),
                systems@.map_values(|s: System| s@) == run_batch_prefix(
                    cur,
                    bw,
                    br,
                    b as int,
                    k as int,
                ).0,
                world@ == run_batch_prefix(cur, bw, br, b as int, k as int).1,
                resources@ == run_batch_prefix(cur, bw, br, b as int, k as int).2,
                forall|j: int| 0 <= j < n ==> (#[trigger] systems@[j])@.wf(),
            decreases e - k,
        {
            let ghost pre = systems@.map_values(|s: System| s@);
            proof {
                assert(systems@[k as int]@ == pre[k as int]);
                assert(pre[k as int].wf());
            }
            let _out = systems[k].run(Value::Unit, world, resources);
            proof {
                let ro = run_spec(
                    pre[k as int],
                    Value::Unit,
                    run_batch_prefix(cur, bw, br, b as int, k as int).1,
                    run_batch_prefix(cur, bw, br, b as int, k as int).2,
                );
                assert(systems@.map_values(|s: System| s@) =~= pre.update(k as int, ro.sys));
                assert(systems@.map_values(|s: System| s@) == run_batch_prefix(
                    cur,
                    bw,
                    br,
                    b as int,
                    k + 1,
                ).0);
                assert forall|j: int| 0 <= j < n implies (#[trigger] systems@[j])@.wf() by {
                    if j != k {
                        assert(systems@[j]@ == pre[j]);
                        assert(pre[j].wf());
                    }
                }
            }
            k += 1;
        }
        // serialized thread-local flush of the batch, registration order
        let ghost dcur = systems@.map_values(|s: System| s@);
        let ghost dw = world@;
        let ghost dr = resources@;
        let mut m: usize = b;
        while m < e
            invariant
                b <= m <= e <= n,
                n == systems@.len(),
                world@.wf(),
                systems@.map_values(|s: System| s@) == flush_batch_prefix(
                    dcur,
                    dw,
                    dr,
                    b as int,
                    m as int,
                ).0,
                world@ == flush_batch_prefix(dcur, dw, dr, b as int, m as int).1,
                resources@ == flush_batch_prefix(dcur, dw, dr, b as int, m as int).2,
                forall|j: int| 0 <= j < n ==> (#[trigger] systems@[j])@.wf(),
            decreases e - m,
        {
            let ghost pre = systems@.map_values(|s: System| s@);
            proof {
                assert(systems@[m as int]@ == pre[m as int]);
                assert(pre[m as int].wf());
            }
            systems[m].run_thread_local(world, resources);
            proof {
                let fl = crate::system::flush_spec(
                    pre[m as int],
                    flush_batch_prefix(dcur, dw, dr, b as int, m as int).1,
                    flush_batch_prefix(dcur, dw, dr, b as int, m as int).2,
                );
                assert(systems@.map_values(|s: System| s@) =~= pre.update(m as int, fl.0));
                assert(systems@.map_values(|s: System| s@) == flush_batch_prefix(
                    dcur,
                    dw,
                    dr,
                    b as int,
                    m + 1,
                ).0);
                assert forall|j: int| 0 <= j < n implies (#[trigger] systems@[j])@.wf() by {
                    if j != m {
                        assert(systems@[j]@ == pre[j]);
                        assert(pre[j].wf());
                    }
                }
            }
            m += 1;
        }
        proof {
            assert(fuel_left > 0);
            assert(dcur == run_batch_prefix(cur, bw, br, b as int, e as int).0);
            assert(dw == run_batch_prefix(cur, bw, br, b as int, e as int).1);
            assert(dr == run_batch_prefix(cur, bw, br, b as int, e as int).2);
            assert(systems@.map_values(|s: System| s@) == flush_batch_prefix(
                dcur,
                dw,
                dr,
                b as int,
                e as int,
            ).0);
            assert(run_batches_from(cur, bw, br, b as int, fuel_left) == run_batches_from(
                systems@.map_values(|s: System| s@),
                world@,
                resources@,
                e as int,
                (fuel_left - 1) as nat,
            ));
            fuel_left = (fuel_left - 1) as nat;
        }
        b = e;
    }
    proof {
        assert(run_batches_from(
            systems@.map_values(|s: System| s@),
            world@,
            resources@,
            b as int,
            fuel_left,
        ) == (systems@.map_values(|s: System| s@), world@, resources@));
    }
    None
}

/// A stopped update walk stays stopped.
proof fn lemma_update_all_stops(ss: Seq<SystemData>, w: WorldData, i: int, n: int)
    requires
        0 <= i <= n,
        update_all_prefix(ss, w, i).1 is Some,
    ensures
        update_all_prefix(ss, w, n) == update_all_prefix(ss, w, i),
    decreases n - i,
{
    if i < n {
        lemma_update_all_stops(ss, w, i + 1, n);
    }
}

proof fn lemma_unread_total_nonneg(chs: Seq<u64>, curs: Seq<usize>, r: ResourcesData, n: int)
    ensures
        unread_total(chs, curs, r, n) >= 0,
    decreases n,
{
    if n > 0 {
        lemma_unread_total_nonneg(chs, curs, r, n - 1);
    }
}

/// Runs one executor pass over the units.
fn execute_pass_exec(
    systems: &mut Vec<System>,
    executor: ExecutorKind,
    world: &mut World,
    resources: &mut Resources,
) -> (r: Option<ConflictError>)
    requires
        forall|j: int| 0 <= j < old(systems)@.len() ==> (#[trigger] old(systems)@[j])@.wf(),
        old(world)@.wf(),
    ensures
        ({
            let ps = exec_pass(
                old(systems)@.map_values(|s: System| s@),
                old(world)@,
                old(resources)@,
                executor,
            );
            &&& final(systems)@.map_values(|s: System| s@) == ps.0
            &&& final(world)@ == ps.1
            &&& final(resources)@ == ps.2
            &&& (match r {
                Some(e) => ps.3 == Some(e@),
                None => ps.3 is None,
            })
        }),
        final(systems)@.len() == old(systems)@.len(),
        forall|j: int| 0 <= j < final(systems)@.len() ==> (#[trigger] final(systems)@[j])@.wf(),
        final(world)@.wf(),
{
    match executor {
        ExecutorKind::Serial => execute_serial(systems, world, resources),
        ExecutorKind::Parallel => execute_parallel(systems, world, resources),
    }
}

impl SystemStage {
    /// An empty stage under the given execution strategy.
    pub fn new(executor: ExecutorKind) -> (r: SystemStage)
        ensures
            r@.systems == Seq::<SystemData>::empty(),
            r@.system_ids == Seq::<SystemId>::empty(),
            r@.executor == executor,
            r@.should_run is None,
            r@.changed_systems == Seq::<usize>::empty(),
            !r@.initialized_should_run,
            r@.wf(),
    {
        let r = SystemStage {
            systems: Vec::new(),
            system_ids: Vec::new(),
            executor,
            should_run: None,
            changed_systems: Vec::new(),
            initialized_should_run: false,
        };
        proof {
            assert(r@.systems =~= Seq::<SystemData>::empty());
            assert(r@.system_ids =~= Seq::<SystemId>::empty());
            assert(r@.changed_systems =~= Seq::<usize>::empty());
        }
        r
    }

    /// An empty stage with the serial executor.
    pub fn serial() -> (r: SystemStage)
        ensures
            r@.systems == Seq::<SystemData>::empty(),
            r@.system_ids == Seq::<SystemId>::empty(),
            r@.executor == ExecutorKind::Serial,
            r@.should_run is None,
            r@.changed_systems == Seq::<usize>::empty(),
            !r@.initialized_should_run,
            r@.wf(),
    {
        SystemStage::new(ExecutorKind::Serial)
    }

    /// An empty stage with the parallel executor.
    pub fn parallel() -> (r: SystemStage)
        ensures
            r@.systems == Seq::<SystemData>::empty(),
            r@.system_ids == Seq::<SystemId>::empty(),
            r@.executor == ExecutorKind::Parallel,
            r@.should_run is None,
            r@.changed_systems == Seq::<usize>::empty(),
            !r@.initialized_should_run,
            r@.wf(),
    {
        SystemStage::new(ExecutorKind::Parallel)
    }

    /// The stage's execution strategy.
    pub fn get_executor(&self) -> (r: ExecutorKind)
        ensures
            r == self@.executor,
    {
        self.executor
    }

    /// The same stage gated behind a repeat-predicate, to be
    /// initialized once on the stage's first run.
    pub fn with_run_criteria(self, criteria: System) -> (r: SystemStage)
        ensures
            r@ == (SystemStageData {
                should_run: Some(criteria@),
                initialized_should_run: false,
                ..self@
            }),
    {
        SystemStage {
            systems: self.systems,
            system_ids: self.system_ids,
            executor: self.executor,
            should_run: Some(criteria),
            changed_systems: self.changed_systems,
            initialized_should_run: false,
        }
    }

    /// Appends a built unit.  A duplicate identifier is rejected at
    /// append time, before anything runs, and leaves the stage
    /// untouched; otherwise the unit joins the order and is marked for
    /// initialization on the next run.
    pub fn add_system_boxed(&mut self, system: System) -> (r: Result<(), StageError>)
        requires
            system@.wf(),
        ensures
            old(self)@.system_ids.contains(system@.sid()) ==> r == Err::<(), StageError>(
                StageError::SystemAlreadyExists(system@.sid()),
            ) && final(self)@ == old(self)@,
            !old(self)@.system_ids.contains(system@.sid()) ==> r is Ok && final(self)@ == (SystemStageData {
                systems: old(self)@.systems.push(system@),
                system_ids: old(self)@.system_ids.push(system@.sid()),
                changed_systems: old(self)@.changed_systems.push(
                    old(self)@.systems.len() as usize,
                ),
                ..old(self)@
            }),
            old(self)@.wf() ==> final(self)@.wf(),
    {
        let id = system.id();
        if contains_id(&self.system_ids, id) {
            return Err(StageError::SystemAlreadyExists(id));
        }
        let ghost sv = system@;
        let idx = self.systems.len();
        self.system_ids.push(id);
        self.changed_systems.push(idx);
        self.systems.push(system);
        proof {
            assert(self@.systems =~= old(self)@.systems.push(sv));
            assert(self@.system_ids =~= old(self)@.system_ids.push(sv.sid()));
            assert(self@.changed_systems =~= old(self)@.changed_systems.push(idx));
            assert(self@ =~= (SystemStageData {
                systems: old(self)@.systems.push(sv),
                system_ids: old(self)@.system_ids.push(sv.sid()),
                changed_systems: old(self)@.changed_systems.push(idx),
                ..old(self)@
            }));
            if old(self)@.wf() {
                assert forall|i: int| 0 <= i < self@.systems.len() implies (
                #[trigger] self@.systems[i]).wf() by {
                    if i < old(self)@.systems.len() {
                        assert(old(self)@.systems[i].wf());
                    }
                }
            }
        }
        Ok(())
    }

    /// Builds and appends a unit in one step.  What unit the build
    /// yields is the `IntoSystem` impl's to say; this stage either
    /// rejects it, leaving everything untouched, or appends exactly it.
    pub fn add_system<IntoS: IntoSystem>(&mut self, system: IntoS) -> (r: Result<(), StageError>)
        ensures
            r is Err ==> final(self)@ == old(self)@,
            r is Ok ==> final(self)@ == (SystemStageData {
                systems: old(self)@.systems.push(final(self)@.systems.last()),
                system_ids: old(self)@.system_ids.push(final(self)@.systems.last().sid()),
                changed_systems: old(self)@.changed_systems.push(
                    old(self)@.systems.len() as usize,
                ),
                ..old(self)@
            }) && final(self)@.systems.last().wf(),
            old(self)@.wf() ==> final(self)@.wf(),
    {
        match system.system() {
            Err(_) => Err(StageError::InvalidSystem),
            Ok(s) => {
                let ghost sv = s@;
                let res = self.add_system_boxed(s);
                proof {
                    if res is Ok {
                        assert(final(self)@ =~= (SystemStageData {
                            systems: old(self)@.systems.push(final(self)@.systems.last()),
                            system_ids: old(self)@.system_ids.push(
                                final(self)@.systems.last().sid(),
                            ),
                            changed_systems: old(self)@.changed_systems.push(
                                old(self)@.systems.len() as usize,
                            ),
                            ..old(self)@
                        }));
                    }
                }
                res
            },
        }
    }

    /// How many repeat rounds this tick may take.
    fn compute_fuel(&self, resources: &Resources) -> (r: usize)
        requires
            self@.wf(),
        ensures
            r as nat == stage_fuel(self@.should_run, resources@),
    {
        match &self.should_run {
            None => 1,
            Some(c) => match c {
                System::EventCursor(e) => match e.role {
                    EventRole::Criteria => {
                        let ghost chs = e@.channels;
                        let ghost curs = e@.cursors;
                        let n = e.channels.len();
                        let mut total: usize = 0;
                        let mut i: usize = 0;
                        while i < n
                            invariant
                                chs == e@.channels,
                                curs == e@.cursors,
                                n == chs.len(),
                                chs.len() == curs.len(),
                                e.channels@.len() == n,
                                e.cursors@.len() == n,
                                0 <= i <= n,
                                total as int == (if unread_total(chs, curs, resources@, i as int)
                                    > usize::MAX {
                                    usize::MAX as int
                                } else {
                                    unread_total(chs, curs, resources@, i as int)
                                }),
                            decreases n - i,
                        {
                            proof {
                                lemma_unread_total_nonneg(chs, curs, resources@, i as int);
                            }
                            let l = resources.events_len(e.channels[i]);
                            if e.cursors[i] < l {
                                total = total.saturating_add(l - e.cursors[i]);
                            }
                            i += 1;
                        }
                        proof {
                            lemma_unread_total_nonneg(chs, curs, resources@, n as int);
                        }
                        total
                    },
                    _ => 1,
                },
                _ => 1,
            },
        }
    }
}

impl Stage for SystemStage {
    open spec fn inv(&self) -> bool {
        self@.wf()
    }

    /// One tick: initialize the repeat-predicate once, initialize the
    /// units appended since the previous run, then evaluate the
    /// predicate and run the units through the stage's executor,
    /// re-looping while the predicate keeps asking for it.
    fn run(&mut self, world: &mut World, resources: &mut Resources) -> (r: Result<
        (),
        ConflictError,
    >)
        ensures
            final(self)@ == stage_run_spec(old(self)@, old(world)@, old(resources)@).0,
            final(world)@ == stage_run_spec(old(self)@, old(world)@, old(resources)@).1,
            final(resources)@ == stage_run_spec(old(self)@, old(world)@, old(resources)@).2,
            match r {
                Ok(()) => stage_run_spec(old(self)@, old(world)@, old(resources)@).3 is None,
                Err(e) => stage_run_spec(old(self)@, old(world)@, old(resources)@).3 == Some(e@),
            },
            final(self)@.wf(),
            final(world)@.wf(),
    {
        let ghost st0 = self@;
        let ghost w0 = world@;
        let ghost r0 = resources@;
        let ghost ci = criteria_init(st0.should_run, st0.initialized_should_run, r0);
        // one-time initialization of the repeat-predicate
        if !self.initialized_should_run {
            match &mut self.should_run {
                Some(sr) => {
                    proof {
                        assert(sr@.wf());
                    }
                    sr.initialize(world, resources);
                },
                None => {},
            }
            self.initialized_should_run = true;
        }
        proof {
            assert(self@.should_run == ci.0);
            assert(resources@ == ci.1);
            assert(self@.systems == st0.systems);
            assert(world@ == w0);
            assert(match self@.should_run {
                Some(c) => c.wf(),
                None => true,
            });
        }
        // initialize units appended since the previous run
        let ghost ic = init_changed_prefix(
            st0.systems,
            st0.changed_systems,
            ci.1,
            st0.changed_systems.len() as int,
        );
        let cn = self.changed_systems.len();
        let mut cidx: usize = 0;
        while cidx < cn
            invariant
                st0 == old(self)@,
                w0 == old(world)@,
                st0.wf(),
                w0.wf(),
                ci == criteria_init(st0.should_run, st0.initialized_should_run, r0),
                cn == st0.changed_systems.len(),
                self@.changed_systems == st0.changed_systems,
                self.changed_systems@.len() == cn,
                0 <= cidx <= cn,
                self@.systems == init_changed_prefix(
                    st0.systems,
                    st0.changed_systems,
                    ci.1,
                    cidx as int,
                ).0,
                resources@ == init_changed_prefix(
                    st0.systems,
                    st0.changed_systems,
                    ci.1,
                    cidx as int,
                ).1,
                self@.should_run == ci.0,
                self@.system_ids == st0.system_ids,
                self@.executor == st0.executor,
                self@.initialized_should_run,
                world@ == w0,
                forall|j: int| 0 <= j < self@.systems.len() ==> (#[trigger] self@.systems[j]).wf(),
                match self@.should_run {
                    Some(c) => c.wf(),
                    None => true,
                },
            decreases cn - cidx,
        {
            let ghost pre = self@.systems;
            let idx = self.changed_systems[cidx];
            if idx < self.systems.len() {
                proof {
                    assert(self.systems@[idx as int]@ == pre[idx as int]);
                    assert(pre[idx as int].wf());
                }
                self.systems[idx].initialize(world, resources);
                proof {
                    let ir = init_spec(
                        pre[idx as int],
                        init_changed_prefix(
                            st0.systems,
                            st0.changed_systems,
                            ci.1,
                            cidx as int,
                        ).1,
                    );
                    assert(self@.systems =~= pre.update(idx as int, ir.0));
                    assert(self@.systems == init_changed_prefix(
                        st0.systems,
                        st0.changed_systems,
                        ci.1,
                        cidx + 1,
                    ).0);
                    assert forall|j: int|
                        0 <= j < self@.systems.len() implies (#[trigger] self@.systems[j]).wf()
                        by {
                        if j != idx {
                            assert(self@.systems[j] == pre[j]);
                        }
                    }
                }
            } else {
                proof {
                    assert(st0.changed_systems[cidx as int] == idx);
                    assert(self@.systems == init_changed_prefix(
                        st0.systems,
                        st0.changed_systems,
                        ci.1,
                        cidx + 1,
                    ).0);
                }
            }
            cidx += 1;
        }
        self.changed_systems.clear();
        proof {
            assert(self@.changed_systems =~= Seq::<usize>::empty());
            assert(self@.systems == ic.0);
            assert(resources@ == ic.1);
        }
        // the repeat loop, bounded by the predicate's pending items
        let fuel = self.compute_fuel(resources);
        let ghost target = stage_loop_spec(fuel as nat, ic.0, ci.0, st0.executor, w0, ic.1);
        let mut fuel_left: usize = fuel;
        let mut result: Result<(), ConflictError> = Ok(());
        let mut done = false;
        while !done
            invariant
                st0 == old(self)@,
                w0 == old(world)@,
                r0 == old(resources)@,
                target == stage_loop_spec(
                    stage_fuel(ci.0, ic.1),
                    ic.0,
                    ci.0,
                    st0.executor,
                    w0,
                    ic.1,
                ),
                ci == criteria_init(st0.should_run, st0.initialized_should_run, r0),
                ic == init_changed_prefix(
                    st0.systems,
                    st0.changed_systems,
                    ci.1,
                    st0.changed_systems.len() as int,
                ),
                self@.system_ids == st0.system_ids,
                self@.executor == st0.executor,
                self@.changed_systems == Seq::<usize>::empty(),
                self@.initialized_should_run,
                world@.wf(),
                forall|j: int| 0 <= j < self@.systems.len() ==> (#[trigger] self@.systems[j]).wf(),
                match self@.should_run {
                    Some(c) => c.wf(),
                    None => true,
                },
                !done ==> target == stage_loop_spec(
                    fuel_left as nat,
                    self@.systems,
                    self@.should_run,
                    st0.executor,
                    world@,
                    resources@,
                ),
                done ==> self@.systems == target.0,
                done ==> self@.should_run == target.1,
                done ==> world@ == target.2,
                done ==> resources@ == target.3,
                done ==> (match result {
                    Ok(()) => target.4 is None,
                    Err(e) => target.4 == Some(e@),
                }),
            decreases (if done { 0int } else { 1int }), fuel_left,
        {
            let ghost ssb = self@.systems;
            let ghost cb = self@.should_run;
            let ghost wb = world@;
            let ghost rb = resources@;
            let ghost ev = eval_criteria(cb, wb, rb);
            let verdict = match &mut self.should_run {
                None => ShouldRun::Yes,
                Some(c) => {
                    proof {
                        assert(c@.wf());
                    }
                    match c.run(Value::Unit, world, resources) {
                        Some(v) => match v {
                            Value::Should(sv) => sv,
                            _ => ShouldRun::Yes,
                        },
                        None => ShouldRun::No,
                    }
                },
            };
            proof {
                assert(self@.should_run == ev.0);
                assert(world@ == ev.1);
                assert(resources@ == ev.2);
                assert(verdict == ev.3);
                assert(self@.systems == ssb);
            }
            match verdict {
                ShouldRun::No => {
                    result = Ok(());
                    done = true;
                    proof {
                        assert(target == (ssb, ev.0, ev.1, ev.2, None::<ConflictData>));
                    }
                },
                ShouldRun::Yes => {
                    proof {
                        assert forall|j: int|
                            0 <= j < self.systems@.len() implies (
                        #[trigger] self.systems@[j])@.wf() by {
                            assert(self@.systems[j] == self.systems@[j]@);
                        }
                    }
                    let err = execute_pass_exec(&mut self.systems, self.executor, world, resources);
                    proof {
                        assert forall|j: int|
                            0 <= j < self@.systems.len() implies (#[trigger] self@.systems[
                        j]).wf() by {
                            assert(self@.systems[j] == self.systems@[j]@);
                        }
                    }
                    match err {
                        Some(e) => {
                            proof {
                                let p = exec_pass(ssb, ev.1, ev.2, st0.executor);
                                assert(target == (p.0, ev.0, p.1, p.2, p.3));
                            }
                            result = Err(e);
                        },
                        None => {
                            proof {
                                let p = exec_pass(ssb, ev.1, ev.2, st0.executor);
                                assert(target == (p.0, ev.0, p.1, p.2, p.3));
                            }
                            result = Ok(());
                        },
                    }
                    done = true;
                },
                ShouldRun::YesAndLoop => {
                    proof {
                        assert forall|j: int|
                            0 <= j < self.systems@.len() implies (
                        #[trigger] self.systems@[j])@.wf() by {
                            assert(self@.systems[j] == self.systems@[j]@);
                        }
                    }
                    let err = execute_pass_exec(&mut self.systems, self.executor, world, resources);
                    proof {
                        assert forall|j: int|
                            0 <= j < self@.systems.len() implies (#[trigger] self@.systems[
                        j]).wf() by {
                            assert(self@.systems[j] == self.systems@[j]@);
                        }
                    }
                    match err {
                        Some(e) => {
                            proof {
                                let p = exec_pass(ssb, ev.1, ev.2, st0.executor);
                                assert(target == (p.0, ev.0, p.1, p.2, p.3));
                            }
                            result = Err(e);
                            done = true;
                        },
                        None => {
                            if fuel_left == 0 {
                                proof {
                                    let p = exec_pass(ssb, ev.1, ev.2, st0.executor);
                                    assert(target == (p.0, ev.0, p.1, p.2, None::<ConflictData>));
                                }
                                result = Ok(());
                                done = true;
                            } else {
                                proof {
                                    let p = exec_pass(ssb, ev.1, ev.2, st0.executor);
                                    assert(target == stage_loop_spec(
                                        (fuel_left - 1) as nat,
                                        p.0,
                                        ev.0,
                                        st0.executor,
                                        p.1,
                                        p.2,
                                    ));
                                }
                                fuel_left = fuel_left - 1;
                            }
                        },
                    }
                },
            }
        }
        proof {
            assert(self@ =~= stage_run_spec(st0, w0, r0).0);
        }
        result
    }
}

} // verus!
