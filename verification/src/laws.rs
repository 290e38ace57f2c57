//! The guarantees the scheduler gives, stated and proved once over the
//! semantics of stages and units: batch compatibility, executor
//! agreement on resource-only work, order-independence of deferred
//! structural mutation, confinement of resource and component writes
//! to the declared footprints, visibility of deferred spawns exactly
//! at the flush, and the event stages draining exactly their pending
//! items.

use vstd::prelude::*;
use crate::commands::CommandsData;
use crate::into_system::{
    acts_prefix, func_init_spec, func_run_spec, init_prefix, ActionData, FuncStep, FuncSystemData,
    ParamDescData,
};
use crate::resources::{find_key, ResourcesData};
use crate::stage::{batch_extent, batch_scan, sys_compatible};
use crate::system::{run_spec, SystemData, Value};
use crate::world::WorldData;

verus! {

// ---------------------------------------------------------------------
// Batches only hold pairwise-compatible units
// ---------------------------------------------------------------------

proof fn lemma_scan_members(ss: Seq<SystemData>, i: int, j: int, k2: int)
    requires
        0 <= i < j,
        j <= k2,
        k2 < batch_scan(ss, i, j),
    ensures
        forall|k: int| i <= k < k2 ==> sys_compatible(#[trigger] ss[k], ss[k2]),
    decreases k2 - j,
{
    if k2 == j {
        assert(batch_scan(ss, i, j) != j);
        assert(!(exists|k: int| i <= k < j && !sys_compatible(#[trigger] ss[k], ss[j])));
    } else {
        assert(batch_scan(ss, i, j) == batch_scan(ss, i, j + 1));
        lemma_scan_members(ss, i, j + 1, k2);
    }
}

/// For every batch the parallel executor forms, every pair of units
/// within the batch has compatible access footprints: no storage slot
/// or resource is written by one and read or written by the other.
pub proof fn lemma_parallel_batch_compatible(ss: Seq<SystemData>, i: int, k1: int, k2: int)
    requires
        0 <= i < ss.len(),
        i <= k1 < k2,
        k2 < batch_extent(ss, i),
    ensures
        sys_compatible(ss[k1], ss[k2]),
{
    if ss[i].tle() is Immediate {
        assert(batch_extent(ss, i) == i + 1);
        assert(false);
    } else {
        lemma_scan_members(ss, i, i + 1, k2);
    }
}

// ---------------------------------------------------------------------
// Resource writes stay within the declared footprint
// ---------------------------------------------------------------------

/// Every exclusive-borrow parameter's key is registered in the unit's
/// declared resource writes; initialization establishes this.
pub open spec fn access_registered(f: FuncSystemData) -> bool {
    forall|i: int|
        0 <= i < f.params.len() ==> ((#[trigger] f.params[i]) is ResMut
            ==> f.state.resource_access.writes.contains(f.params[i]->ResMut_0))
}

proof fn lemma_find_key_update_same_key(
    entries: Seq<crate::resources::ResEntryData>,
    i: int,
    e: crate::resources::ResEntryData,
    k: u64,
    j: int,
)
    requires
        0 <= i < entries.len(),
        e.key == entries[i].key,
        e.key != k,
    ensures
        find_key(entries.update(i, e), k, j) == find_key(entries, k, j),
    decreases entries.len() - j,
{
    if !(j < 0 || j >= entries.len()) {
        lemma_find_key_update_same_key(entries, i, e, k, j + 1);
    }
}

proof fn lemma_find_key_push_other(
    entries: Seq<crate::resources::ResEntryData>,
    e: crate::resources::ResEntryData,
    k: u64,
    j: int,
)
    requires
        e.key != k,
        0 <= j <= entries.len(),
    ensures
        find_key(entries.push(e), k, j) == find_key(entries, k, j),
    decreases entries.len() - j,
{
    if j < entries.len() {
        lemma_find_key_push_other(entries, e, k, j + 1);
    } else {
        assert(entries.push(e)[j] == e);
        assert(find_key(entries.push(e), k, j) == find_key(entries.push(e), k, j + 1));
    }
}

/// Storing under one key leaves every other key's entry alone.
pub proof fn lemma_insert_preserves_other(r: ResourcesData, key: u64, v: i64, local: bool, k: u64)
    requires
        k != key,
    ensures
        r.insert_int(key, v, local).lookup(k) == r.lookup(k),
{
    match find_key(r.entries, key, 0) {
        Some(i) => {
            crate::resources::lemma_find_key_found(r.entries, key, 0);
            let e = crate::resources::ResEntryData {
                key,
                val: crate::resources::ResValData::Int(v),
                changed: true,
                local: r.entries[i].local,
            };
            lemma_find_key_update_same_key(r.entries, i, e, k, 0);
            match find_key(r.entries, k, 0) {
                Some(m) => {
                    crate::resources::lemma_find_key_found(r.entries, k, 0);
                    assert(r.entries.update(i, e)[m] == r.entries[m]);
                },
                None => {},
            }
        },
        None => {
            let e = crate::resources::ResEntryData {
                key,
                val: crate::resources::ResValData::Int(v),
                changed: true,
                local,
            };
            lemma_find_key_push_other(r.entries, e, k, 0);
            match find_key(r.entries, k, 0) {
                Some(m) => {
                    crate::resources::lemma_find_key_found(r.entries, k, 0);
                    assert(r.entries.push(e)[m] == r.entries[m]);
                },
                None => {},
            }
        },
    }
}

proof fn lemma_acts_respect_access(
    actions: Seq<ActionData>,
    params: Seq<ParamDescData>,
    writes: Seq<u64>,
    input: Value,
    st0: FuncStep,
    n: int,
    k: u64,
)
    requires
        forall|i: int|
            0 <= i < params.len() ==> ((#[trigger] params[i]) is ResMut ==> writes.contains(
                params[i]->ResMut_0,
            )),
        !writes.contains(k),
        0 <= n <= actions.len(),
    ensures
        acts_prefix(actions, params, input, st0, n).resources.lookup(k) == st0.resources.lookup(
            k,
        ),
    decreases n,
{
    if n > 0 {
        lemma_acts_respect_access(actions, params, writes, input, st0, n - 1, k);
        let pre = acts_prefix(actions, params, input, st0, n - 1);
        let a = actions[n - 1];
        match a {
            ActionData::SetRes { slot, value } => {
                lemma_write_res_respects(params, writes, slot, value, pre, k);
            },
            ActionData::AddRes { slot, delta } => {
                if 0 <= slot < params.len() {
                    match params[slot] {
                        ParamDescData::ResMut(kk) => {
                            lemma_write_res_respects(
                                params,
                                writes,
                                slot,
                                crate::world::wrap_add64(
                                    crate::into_system::opt_or(pre.resources.int_of(kk), 0),
                                    delta,
                                ),
                                pre,
                                k,
                            );
                        },
                        _ => {},
                    }
                }
            },
            ActionData::CopyInput { part, slot, missing } => {
                lemma_write_res_respects(
                    params,
                    writes,
                    slot,
                    crate::into_system::input_part(input, part, missing),
                    pre,
                    k,
                );
            },
            ActionData::QueryCountTo { slot, sub, target } => {
                match crate::into_system::param_shape(params, slot, sub) {
                    Some(shape) => {
                        lemma_write_res_respects(
                            params,
                            writes,
                            target,
                            crate::into_system::clamp_count(
                                crate::world::count_prefix(
                                    pre.world.archetypes,
                                    shape,
                                    pre.world.archetypes.len() as int,
                                ),
                            ),
                            pre,
                            k,
                        );
                    },
                    None => {},
                }
            },
            _ => {},
        }
    }
}

proof fn lemma_write_res_respects(
    params: Seq<ParamDescData>,
    writes: Seq<u64>,
    slot: int,
    v: i64,
    st: FuncStep,
    k: u64,
)
    requires
        forall|i: int|
            0 <= i < params.len() ==> ((#[trigger] params[i]) is ResMut ==> writes.contains(
                params[i]->ResMut_0,
            )),
        !writes.contains(k),
    ensures
        crate::into_system::write_res(params, slot, v, st).resources.lookup(k)
            == st.resources.lookup(k),
{
    if 0 <= slot < params.len() {
        match params[slot] {
            ParamDescData::ResMut(kk) => {
                assert(writes.contains(kk));
                assert(kk != k);
                lemma_insert_preserves_other(st.resources, kk, v, false, k);
            },
            _ => {},
        }
    }
}

/// A unit of work never writes a resource outside its declared
/// footprint: running a unit whose exclusive borrows are registered in
/// its resource writes leaves every undeclared key's entry exactly as
/// it was.
pub proof fn lemma_run_within_resource_access(
    f: FuncSystemData,
    input: Value,
    w: WorldData,
    r: ResourcesData,
    k: u64,
)
    requires
        access_registered(f),
        !f.state.resource_access.writes.contains(k),
    ensures
        func_run_spec(f, input, w, r).resources.lookup(k) == r.lookup(k),
{
    if !crate::into_system::func_gated(f.params, r) {
        let st0 = FuncStep { cmds: f.state.commands, world: w, resources: r };
        lemma_acts_respect_access(
            f.actions,
            f.params,
            f.state.resource_access.writes,
            input,
            st0,
            f.actions.len() as int,
            k,
        );
    }
}

/// One-time setup registers every exclusive borrow in the declared
/// resource writes, so the confinement law applies from the first run.
pub proof fn lemma_init_registers_access(f: FuncSystemData, r: ResourcesData)
    ensures
        access_registered(func_init_spec(f, r).0),
{
    lemma_init_prefix_registers(f.params, f.query_names, f.state, r, f.params.len() as int);
}

proof fn lemma_init_prefix_registers(
    params: Seq<ParamDescData>,
    names: Seq<Seq<char>>,
    st0: crate::into_system::SystemStateData,
    r0: ResourcesData,
    n: int,
)
    requires
        0 <= n <= params.len(),
    ensures
        forall|i: int|
            0 <= i < n ==> ((#[trigger] params[i]) is ResMut ==> init_prefix(
                params,
                names,
                st0,
                r0,
                n,
            ).0.resource_access.writes.contains(params[i]->ResMut_0)),
        forall|k: u64|
            st0.resource_access.writes.contains(k) ==> init_prefix(
                params,
                names,
                st0,
                r0,
                n,
            ).0.resource_access.writes.contains(k),
    decreases n,
{
    if n > 0 {
        lemma_init_prefix_registers(params, names, st0, r0, n - 1);
        let pre = init_prefix(params, names, st0, r0, n - 1).0;
        let post = init_prefix(params, names, st0, r0, n).0;
        assert forall|k: u64|
            pre.resource_access.writes.contains(k) implies post.resource_access.writes.contains(
            k,
        ) by {
            let m = choose|m: int|
                0 <= m < pre.resource_access.writes.len() && pre.resource_access.writes[m] == k;
            match params[n - 1] {
                ParamDescData::ResMut(_) => {
                    assert(post.resource_access.writes[m] == k);
                },
                _ => {},
            }
        }
        match params[n - 1] {
            ParamDescData::ResMut(kk) => {
                assert(post.resource_access.writes.last() == kk);
            },
            _ => {},
        }
    }
}

// ---------------------------------------------------------------------
// Deferred structural mutation is order-independent within a batch
// ---------------------------------------------------------------------

/// A unit whose body only records entity creations into its deferred
/// buffer.
pub open spec fn spawn_only(s: SystemData) -> bool {
    s is Func && (forall|i: int|
        0 <= i < s->Func_0.actions.len() ==> (#[trigger] s->Func_0.actions[i]) is Spawn)
}

proof fn lemma_spawn_acts_keep_world(
    actions: Seq<ActionData>,
    params: Seq<ParamDescData>,
    input: Value,
    st0: FuncStep,
    n: int,
)
    requires
        forall|i: int| 0 <= i < actions.len() ==> (#[trigger] actions[i]) is Spawn,
        0 <= n <= actions.len(),
    ensures
        acts_prefix(actions, params, input, st0, n).world == st0.world,
        acts_prefix(actions, params, input, st0, n).resources == st0.resources,
    decreases n,
{
    if n > 0 {
        lemma_spawn_acts_keep_world(actions, params, input, st0, n - 1);
    }
}

/// Running a spawn-only unit records into its own buffer and nothing
/// else: the store and the table are untouched, so no query running in
/// the same batch can observe the created entities.
pub proof fn lemma_spawn_only_run_effects(s: SystemData, input: Value, w: WorldData, r: ResourcesData)
    requires
        spawn_only(s),
    ensures
        run_spec(s, input, w, r).world == w,
        run_spec(s, input, w, r).resources == r,
{
    let f = s->Func_0;
    if !crate::into_system::func_gated(f.params, r) {
        let st0 = FuncStep { cmds: f.state.commands, world: w, resources: r };
        lemma_spawn_acts_keep_world(f.actions, f.params, input, st0, f.actions.len() as int);
    }
}

/// The state after running the units picked out by the first `n`
/// positions of `ord`, in that order, each fed no input.
pub open spec fn run_in_order(
    ss: Seq<SystemData>,
    ord: Seq<int>,
    w: WorldData,
    r: ResourcesData,
    n: int,
) -> (Seq<SystemData>, WorldData, ResourcesData)
    decreases n,
{
    if n <= 0 {
        (ss, w, r)
    } else {
        let p = run_in_order(ss, ord, w, r, n - 1);
        let idx = ord[n - 1];
        if 0 <= idx < p.0.len() {
            let ro = run_spec(p.0[idx], Value::Unit, p.1, p.2);
            (p.0.update(idx, ro.sys), ro.world, ro.resources)
        } else {
            p
        }
    }
}

/// Whether position `i` occurs among the first `n` entries of `ord`.
pub open spec fn touched(ord: Seq<int>, n: int, i: int) -> bool {
    exists|t: int| 0 <= t < n && ord[t] == i
}

/// Running spawn-only units of a batch in any order yields one and the
/// same outcome: each touched unit ends in the state its own run
/// against the pre-batch store produces, and the store and table stay
/// exactly as they were.  Which order a batch's units ran in therefore
/// cannot be observed.
pub proof fn lemma_spawn_only_order_irrelevant(
    ss: Seq<SystemData>,
    ord: Seq<int>,
    w: WorldData,
    r: ResourcesData,
    n: int,
)
    requires
        forall|i: int| 0 <= i < ss.len() ==> spawn_only(#[trigger] ss[i]),
        forall|t: int| 0 <= t < n ==> 0 <= #[trigger] ord[t] < ss.len(),
        forall|t1: int, t2: int| 0 <= t1 < t2 < n ==> ord[t1] != ord[t2],
        0 <= n <= ord.len(),
    ensures
        run_in_order(ss, ord, w, r, n) == (
            Seq::new(
                ss.len(),
                |i: int| if touched(ord, n, i) {
                    run_spec(ss[i], Value::Unit, w, r).sys
                } else {
                    ss[i]
                },
            ),
            w,
            r,
        ),
    decreases n,
{
    let canon = Seq::new(
        ss.len(),
        |i: int| if touched(ord, n, i) {
            run_spec(ss[i], Value::Unit, w, r).sys
        } else {
            ss[i]
        },
    );
    if n == 0 {
        assert(canon =~= ss);
    } else {
        lemma_spawn_only_order_irrelevant(ss, ord, w, r, n - 1);
        let prev = Seq::new(
            ss.len(),
            |i: int| if touched(ord, n - 1, i) {
                run_spec(ss[i], Value::Unit, w, r).sys
            } else {
                ss[i]
            },
        );
        let idx = ord[n - 1];
        assert(!touched(ord, n - 1, idx));
        assert(prev[idx] == ss[idx]);
        lemma_spawn_only_run_effects(ss[idx], Value::Unit, w, r);
        assert forall|i: int| 0 <= i < ss.len() implies prev.update(idx, run_spec(
            ss[idx],
            Value::Unit,
            w,
            r,
        ).sys)[i] == canon[i] by {
            if i == idx {
                assert(touched(ord, n, i));
            } else {
                assert(touched(ord, n, i) == touched(ord, n - 1, i)) by {
                    if touched(ord, n, i) {
                        let t = choose|t: int| 0 <= t < n && ord[t] == i;
                        assert(t < n - 1);
                    }
                }
            }
        }
        assert(prev.update(idx, run_spec(ss[idx], Value::Unit, w, r).sys) =~= canon);
    }
}

// ---------------------------------------------------------------------
// Serial and parallel execution agree on resource-only work
// ---------------------------------------------------------------------

/// A unit whose body only writes resources through its exclusive
/// borrows: no queries, nothing deferred.
pub open spec fn resource_only(s: SystemData) -> bool {
    s is Func && {
        let f = s->Func_0;
        &&& forall|i: int|
            0 <= i < f.actions.len() ==> (((#[trigger] f.actions[i]) is SetRes) || (f.actions[i]
                is AddRes) || (f.actions[i] is CopyInput))
        &&& f.state.commands.queue.len() == 0
        &&& f.state.query_accesses.len() == 0
    }
}

/// The declared resource writes of two units never meet.
pub open spec fn disjoint_writes(a: SystemData, b: SystemData) -> bool {
    forall|k: u64|
        #[trigger] a.res_access().writes.contains(k) ==> !b.res_access().writes.contains(k)
}

proof fn lemma_res_acts_keep(
    actions: Seq<ActionData>,
    params: Seq<ParamDescData>,
    input: Value,
    st0: FuncStep,
    n: int,
)
    requires
        forall|i: int|
            0 <= i < actions.len() ==> (((#[trigger] actions[i]) is SetRes) || (actions[i]
                is AddRes) || (actions[i] is CopyInput)),
        0 <= n <= actions.len(),
    ensures
        acts_prefix(actions, params, input, st0, n).world == st0.world,
        acts_prefix(actions, params, input, st0, n).cmds == st0.cmds,
    decreases n,
{
    if n > 0 {
        lemma_res_acts_keep(actions, params, input, st0, n - 1);
    }
}

/// Running a resource-only unit leaves the unit and the store exactly
/// as they were; only the resource table moves.
pub proof fn lemma_resource_only_run(s: SystemData, input: Value, w: WorldData, r: ResourcesData)
    requires
        resource_only(s),
    ensures
        run_spec(s, input, w, r).sys == s,
        run_spec(s, input, w, r).world == w,
{
    let f = s->Func_0;
    if !crate::into_system::func_gated(f.params, r) {
        let st0 = FuncStep { cmds: f.state.commands, world: w, resources: r };
        lemma_res_acts_keep(f.actions, f.params, input, st0, f.actions.len() as int);
        let fin = acts_prefix(f.actions, f.params, input, st0, f.actions.len() as int);
        assert(fin.cmds == f.state.commands);
        assert(run_spec(s, input, w, r).sys->Func_0 =~= f);
    }
}

/// Flushing a unit with an empty buffer changes nothing.
pub proof fn lemma_empty_flush(s: SystemData, w: WorldData, r: ResourcesData)
    requires
        s is Func,
        s->Func_0.state.commands.queue.len() == 0,
    ensures
        crate::system::flush_spec(s, w, r) == (s, w, r),
{
    let f = s->Func_0;
    assert(crate::commands::apply_all(f.state.commands.queue, w, r) == (w, r));
    assert((CommandsData { queue: Seq::<crate::commands::CommandData>::empty() })
        =~= f.state.commands);
    assert(crate::system::flush_spec(s, w, r).0->Func_0 =~= f);
}

/// Recomputing a resource-only unit's footprint never fails and keeps
/// the unit resource-only with the same declared accesses and body.
pub proof fn lemma_resource_only_update(s: SystemData, w: WorldData)
    requires
        resource_only(s),
    ensures
        crate::system::update_spec(s, w).1 is None,
        resource_only(crate::system::update_spec(s, w).0),
        crate::system::update_spec(s, w).0->Func_0.actions == s->Func_0.actions,
        crate::system::update_spec(s, w).0->Func_0.params == s->Func_0.params,
        crate::system::update_spec(s, w).0->Func_0.state.commands == s->Func_0.state.commands,
{
    let f = s->Func_0;
    assert(crate::into_system::first_bad_from(f.state, w, 0) is None);
}

/// The units with the first `n` footprints recomputed.
pub open spec fn useq(ss: Seq<SystemData>, w: WorldData, n: int) -> Seq<SystemData> {
    Seq::new(
        ss.len(),
        |i: int| if i < n {
            crate::system::update_spec(ss[i], w).0
        } else {
            ss[i]
        },
    )
}

/// The table after the first `n` recomputed units ran in registration
/// order against a fixed store.
pub open spec fn rfold(ss: Seq<SystemData>, w: WorldData, r: ResourcesData, n: int) -> ResourcesData
    decreases n,
{
    if n <= 0 {
        r
    } else {
        run_spec(
            crate::system::update_spec(ss[n - 1], w).0,
            Value::Unit,
            w,
            rfold(ss, w, r, n - 1),
        ).resources
    }
}

proof fn lemma_serial_is_rfold(ss: Seq<SystemData>, w: WorldData, r: ResourcesData, n: int)
    requires
        forall|i: int| 0 <= i < ss.len() ==> resource_only(#[trigger] ss[i]),
        0 <= n <= ss.len(),
    ensures
        crate::stage::serial_prefix(ss, w, r, n) == (
            useq(ss, w, n),
            w,
            rfold(ss, w, r, n),
            None::<crate::system::ConflictData>,
        ),
    decreases n,
{
    if n == 0 {
        assert(useq(ss, w, 0) =~= ss);
    } else {
        lemma_serial_is_rfold(ss, w, r, n - 1);
        let p = crate::stage::serial_prefix(ss, w, r, n - 1);
        assert(p.0[n - 1] == ss[n - 1]);
        lemma_resource_only_update(ss[n - 1], w);
        let u = crate::system::update_spec(ss[n - 1], w).0;
        lemma_resource_only_run(u, Value::Unit, w, rfold(ss, w, r, n - 1));
        let ro = run_spec(u, Value::Unit, w, rfold(ss, w, r, n - 1));
        lemma_empty_flush(ro.sys, ro.world, ro.resources);
        assert(useq(ss, w, n - 1).update(n - 1, u) =~= useq(ss, w, n));
    }
}

proof fn lemma_update_all_is_useq(ss: Seq<SystemData>, w: WorldData, n: int)
    requires
        forall|i: int| 0 <= i < ss.len() ==> resource_only(#[trigger] ss[i]),
        0 <= n <= ss.len(),
    ensures
        crate::stage::update_all_prefix(ss, w, n) == (
            useq(ss, w, n),
            None::<crate::system::ConflictData>,
        ),
    decreases n,
{
    if n == 0 {
        assert(useq(ss, w, 0) =~= ss);
    } else {
        lemma_update_all_is_useq(ss, w, n - 1);
        assert(crate::stage::update_all_prefix(ss, w, n - 1).0[n - 1] == ss[n - 1]);
        lemma_resource_only_update(ss[n - 1], w);
        assert(useq(ss, w, n - 1).update(
            n - 1,
            crate::system::update_spec(ss[n - 1], w).0,
        ) =~= useq(ss, w, n));
    }
}

proof fn lemma_batch_run_is_rfold(
    us: Seq<SystemData>,
    ss: Seq<SystemData>,
    w: WorldData,
    r: ResourcesData,
    i: int,
    n: int,
)
    requires
        forall|j: int| 0 <= j < ss.len() ==> resource_only(#[trigger] ss[j]),
        us == useq(ss, w, ss.len() as int),
        0 <= i <= n <= ss.len(),
    ensures
        crate::stage::run_batch_prefix(us, w, rfold(ss, w, r, i), i, n) == (
            us,
            w,
            rfold(ss, w, r, n),
        ),
    decreases n - i,
{
    if n > i {
        lemma_batch_run_is_rfold(us, ss, w, r, i, n - 1);
        lemma_resource_only_update(ss[n - 1], w);
        let u = crate::system::update_spec(ss[n - 1], w).0;
        assert(us[n - 1] == u);
        lemma_resource_only_run(u, Value::Unit, w, rfold(ss, w, r, n - 1));
        assert(us.update(n - 1, u) =~= us);
    }
}

proof fn lemma_batch_flush_is_noop(
    us: Seq<SystemData>,
    ss: Seq<SystemData>,
    w: WorldData,
    r: ResourcesData,
    i: int,
    n: int,
)
    requires
        forall|j: int| 0 <= j < ss.len() ==> resource_only(#[trigger] ss[j]),
        us == useq(ss, w, ss.len() as int),
        0 <= i <= n <= ss.len(),
    ensures
        crate::stage::flush_batch_prefix(us, w, r, i, n) == (us, w, r),
    decreases n - i,
{
    if n > i {
        lemma_batch_flush_is_noop(us, ss, w, r, i, n - 1);
        lemma_resource_only_update(ss[n - 1], w);
        let u = crate::system::update_spec(ss[n - 1], w).0;
        assert(us[n - 1] == u);
        lemma_empty_flush(u, w, r);
        assert(us.update(n - 1, u) =~= us);
    }
}

proof fn lemma_batches_are_rfold(
    us: Seq<SystemData>,
    ss: Seq<SystemData>,
    w: WorldData,
    r: ResourcesData,
    i: int,
    fuel: nat,
)
    requires
        forall|j: int| 0 <= j < ss.len() ==> resource_only(#[trigger] ss[j]),
        us == useq(ss, w, ss.len() as int),
        0 <= i <= ss.len(),
        fuel >= ss.len() - i,
    ensures
        crate::stage::run_batches_from(us, w, rfold(ss, w, r, i), i, fuel) == (
            us,
            w,
            rfold(ss, w, r, ss.len() as int),
        ),
    decreases fuel,
{
    if i >= ss.len() {
        assert(i == ss.len());
    } else {
        assert(fuel > 0);
        let e0 = crate::stage::batch_extent(us, i);
        let e = if e0 <= i {
            i + 1
        } else {
            e0
        };
        lemma_batch_extent_in_range(us, i);
        assert(i < e <= ss.len());
        lemma_batch_run_is_rfold(us, ss, w, r, i, e);
        lemma_batch_flush_is_noop(us, ss, w, rfold(ss, w, r, e), i, e);
        lemma_batches_are_rfold(us, ss, w, r, e, (fuel - 1) as nat);
    }
}

proof fn lemma_batch_scan_in_range(ss: Seq<SystemData>, i: int, j: int)
    requires
        0 <= j,
    ensures
        batch_scan(ss, i, j) <= ss.len(),
        j <= ss.len() ==> j <= batch_scan(ss, i, j),
    decreases ss.len() - j,
{
    if !(j < 0 || j >= ss.len()) {
        if !(ss[j].tle() is Immediate) && !(exists|k: int|
            i <= k < j && !sys_compatible(#[trigger] ss[k], ss[j]))
        {
            lemma_batch_scan_in_range(ss, i, j + 1);
        }
    }
}

proof fn lemma_batch_extent_in_range(ss: Seq<SystemData>, i: int)
    requires
        0 <= i < ss.len(),
    ensures
        i < batch_extent(ss, i) <= ss.len(),
{
    lemma_batch_scan_in_range(ss, i, i + 1);
}

/// Units whose bodies only perform resource writes reach one and the
/// same final state through the serial and the parallel executor: the
/// units, the store, the table and the verdict all agree.  Stated for
/// bodies with pairwise disjoint declared writes, as the batching
/// hypothesis supplies.
pub proof fn lemma_serial_parallel_agree(ss: Seq<SystemData>, w: WorldData, r: ResourcesData)
    requires
        forall|i: int| 0 <= i < ss.len() ==> resource_only(#[trigger] ss[i]),
        forall|i: int, j: int|
            0 <= i < ss.len() && 0 <= j < ss.len() && i != j ==> disjoint_writes(
                #[trigger] ss[i],
                #[trigger] ss[j],
            ),
    ensures
        crate::stage::exec_pass(ss, w, r, crate::stage::ExecutorKind::Serial)
            == crate::stage::exec_pass(ss, w, r, crate::stage::ExecutorKind::Parallel),
{
    let n = ss.len() as int;
    lemma_serial_is_rfold(ss, w, r, n);
    lemma_update_all_is_useq(ss, w, n);
    let us = useq(ss, w, n);
    assert(us.len() == ss.len());
    assert(rfold(ss, w, r, 0) == r);
    lemma_batches_are_rfold(us, ss, w, r, 0, us.len() as nat);
}

// ---------------------------------------------------------------------
// Structural mutation is confined to the flush point
// ---------------------------------------------------------------------

/// The structural skeleton of a store: which archetypes exist, which
/// entities sit in them, and the identifier counter — everything but
/// component values.
pub open spec fn world_shape(w: WorldData) -> (Seq<(Seq<u64>, Seq<u64>)>, u64) {
    (
        Seq::new(
            w.archetypes.len(),
            |i: int| (
                w.archetypes[i].layout,
                Seq::new(w.archetypes[i].rows.len(), |j: int| w.archetypes[i].rows[j].entity),
            ),
        ),
        w.next_entity,
    )
}

proof fn lemma_query_add_keeps_shape(w: WorldData, shape: crate::world::QueryShapeData, comp: u64, d: i64)
    ensures
        world_shape(crate::world::query_add_spec(w, shape, comp, d)) == world_shape(w),
{
    let w2 = crate::world::query_add_spec(w, shape, comp, d);
    let s1 = world_shape(w).0;
    let s2 = world_shape(w2).0;
    assert forall|i: int| 0 <= i < s1.len() implies s2[i] == s1[i] by {
        assert(w2.archetypes[i] == crate::world::query_add_arch(w.archetypes[i], shape, comp, d));
        assert(w2.archetypes[i].layout == w.archetypes[i].layout);
        assert(w2.archetypes[i].rows.len() == w.archetypes[i].rows.len());
        assert forall|j: int|
            0 <= j < w.archetypes[i].rows.len() implies w2.archetypes[i].rows[j].entity
            == w.archetypes[i].rows[j].entity by {
        }
        assert(s2[i].1 =~= s1[i].1);
        assert(s2[i] =~= s1[i]);
    }
    assert(s2 =~= s1);
}

proof fn lemma_acts_keep_shape(
    actions: Seq<ActionData>,
    params: Seq<ParamDescData>,
    input: Value,
    st0: FuncStep,
    n: int,
)
    requires
        0 <= n <= actions.len(),
    ensures
        world_shape(acts_prefix(actions, params, input, st0, n).world) == world_shape(st0.world),
    decreases n,
{
    if n > 0 {
        lemma_acts_keep_shape(actions, params, input, st0, n - 1);
        let pre = acts_prefix(actions, params, input, st0, n - 1);
        match actions[n - 1] {
            ActionData::QueryAdd { slot, sub, comp, delta } => {
                match crate::into_system::param_shape(params, slot, sub) {
                    Some(shape) => {
                        lemma_query_add_keeps_shape(pre.world, shape, comp, delta);
                    },
                    None => {},
                }
            },
            _ => {},
        }
    }
}

/// No data-access step can mutate the store's structure: whatever any
/// unit of work does in its run phase, which archetypes exist, which
/// entities they hold and the identifier counter stay exactly as they
/// were.  Only the serialized thread-local flush applies structural
/// change, so entities created in a batch become visible no earlier
/// than the batch's flush.
pub proof fn lemma_run_keeps_world_shape(s: SystemData, input: Value, w: WorldData, r: ResourcesData)
    ensures
        world_shape(run_spec(s, input, w, r).world) == world_shape(w),
    decreases s,
{
    match s {
        SystemData::Func(f) => {
            if !crate::into_system::func_gated(f.params, r) {
                let st0 = FuncStep { cmds: f.state.commands, world: w, resources: r };
                lemma_acts_keep_shape(f.actions, f.params, input, st0, f.actions.len() as int);
            }
        },
        SystemData::Chain(c) => {
            let ra = run_spec(*c.a, input, w, r);
            lemma_run_keeps_world_shape(*c.a, input, w, r);
            match ra.out {
                None => {},
                Some(v) => {
                    lemma_run_keeps_world_shape(*c.b, v, ra.world, ra.resources);
                },
            }
        },
        SystemData::Filled(f) => {
            lemma_run_keeps_world_shape(*f.system, f.input, w, r);
        },
        SystemData::EventCursor(_) => {},
        SystemData::ThreadLocal(_) => {},
    }
}

// ---------------------------------------------------------------------
// Component writes stay within the declared footprint
// ---------------------------------------------------------------------

/// The value of component `c` on row `j` of archetype `a`.
pub open spec fn comp_val(w: WorldData, a: int, c: u64, j: int) -> Option<i64> {
    if 0 <= a < w.archetypes.len() {
        match crate::world::first_index(w.archetypes[a].layout, c, 0) {
            Some(ci) => if 0 <= j < w.archetypes[a].rows.len() {
                Some(w.archetypes[a].rows[j].vals[ci])
            } else {
                None
            },
            None => None,
        }
    } else {
        None
    }
}

/// Every query-write action's shape currently has all its write slots
/// inside the unit's declared component footprint — what a successful
/// footprint recomputation establishes for an initialized unit.
pub open spec fn qa_covered(f: FuncSystemData, w: WorldData) -> bool {
    forall|i: int|
        0 <= i < f.actions.len() ==> match #[trigger] f.actions[i] {
            ActionData::QueryAdd { slot, sub, comp: _, delta: _ } => match
                crate::into_system::param_shape(f.params, slot, sub) {
                Some(sh) => forall|m: int|
                    0 <= m < crate::world::shape_write_slots(w, sh).len()
                        ==> f.state.archetype_component_access.writes.contains(
                        #[trigger] crate::world::shape_write_slots(w, sh)[m],
                    ),
                None => true,
            },
            _ => true,
        }
}

proof fn lemma_write_slots_prefix_contains(
    archs: Seq<crate::world::ArchetypeData>,
    sh: crate::world::QueryShapeData,
    a: int,
    n: int,
    x: u64,
)
    requires
        0 <= a < n <= archs.len(),
        sh.matches(archs[a].layout),
        crate::world::arch_write_slots(a, sh).contains(x),
    ensures
        crate::world::write_slots_prefix(archs, sh, n).contains(x),
    decreases n,
{
    let pre = crate::world::write_slots_prefix(archs, sh, n - 1);
    if a == n - 1 {
        let k = choose|k: int|
            0 <= k < crate::world::arch_write_slots(a, sh).len()
                && crate::world::arch_write_slots(a, sh)[k] == x;
        assert(crate::world::write_slots_prefix(archs, sh, n)[pre.len() + k] == x);
    } else {
        lemma_write_slots_prefix_contains(archs, sh, a, n - 1, x);
        let k = choose|k: int| 0 <= k < pre.len() && pre[k] == x;
        assert(crate::world::write_slots_prefix(archs, sh, n)[k] == x);
    }
}

proof fn lemma_query_add_confined(
    w: WorldData,
    sh: crate::world::QueryShapeData,
    comp: u64,
    d: i64,
    a: int,
    c: u64,
    j: int,
)
    requires
        w.wf(),
        sh.writes.contains(comp),
        !crate::world::shape_write_slots(w, sh).contains(crate::world::slot_key(a, c)),
    ensures
        comp_val(crate::world::query_add_spec(w, sh, comp, d), a, c, j) == comp_val(w, a, c, j),
{
    let w2 = crate::world::query_add_spec(w, sh, comp, d);
    if 0 <= a < w.archetypes.len() {
        assert(w2.archetypes[a] == crate::world::query_add_arch(w.archetypes[a], sh, comp, d));
        let layout = w.archetypes[a].layout;
        if sh.matches(layout) && crate::world::first_index(layout, comp, 0) is Some {
            let ci = crate::world::first_index(layout, comp, 0)->Some_0;
            crate::world::lemma_first_index_found(layout, comp, 0);
            // the written slot is declared by the shape over this store
            let k = choose|k: int| 0 <= k < sh.writes.len() && sh.writes[k] == comp;
            assert(crate::world::arch_write_slots(a, sh)[k] == crate::world::slot_key(a, comp));
            assert(crate::world::arch_write_slots(a, sh).contains(crate::world::slot_key(a, comp)));
            lemma_write_slots_prefix_contains(
                w.archetypes,
                sh,
                a,
                w.archetypes.len() as int,
                crate::world::slot_key(a, comp),
            );
            assert(c != comp);
            match crate::world::first_index(layout, c, 0) {
                Some(ci2) => {
                    crate::world::lemma_first_index_found(layout, c, 0);
                    assert(ci2 != ci);
                    if 0 <= j < w.archetypes[a].rows.len() {
                        assert(w.archetypes[a].wf());
                        assert(w.archetypes[a].rows[j].vals.len() == layout.len());
                        assert(w2.archetypes[a].rows[j] == crate::world::bump_row(
                            w.archetypes[a].rows[j],
                            ci,
                            d,
                        ));
                        assert(w2.archetypes[a].rows[j].vals[ci2] == w.archetypes[a].rows[
                            j].vals[ci2]);
                    }
                },
                None => {},
            }
        }
    }
}

proof fn lemma_world_shape_keeps_slots(
    w1: WorldData,
    w2: WorldData,
    sh: crate::world::QueryShapeData,
    n: int,
)
    requires
        world_shape(w1) == world_shape(w2),
        0 <= n <= w1.archetypes.len(),
    ensures
        crate::world::write_slots_prefix(w1.archetypes, sh, n) == crate::world::write_slots_prefix(
            w2.archetypes,
            sh,
            n,
        ),
    decreases n,
{
    assert(world_shape(w1).0 == world_shape(w2).0);
    assert(world_shape(w1).0.len() == w1.archetypes.len());
    assert(world_shape(w2).0.len() == w2.archetypes.len());
    if n > 0 {
        lemma_world_shape_keeps_slots(w1, w2, sh, n - 1);
        assert(world_shape(w1).0[n - 1] == world_shape(w2).0[n - 1]);
        assert(w1.archetypes[n - 1].layout == w2.archetypes[n - 1].layout);
    }
}

proof fn lemma_acts_keep_world_wf(
    actions: Seq<ActionData>,
    params: Seq<ParamDescData>,
    input: Value,
    st0: FuncStep,
    n: int,
)
    requires
        st0.world.wf(),
        0 <= n <= actions.len(),
    ensures
        acts_prefix(actions, params, input, st0, n).world.wf(),
    decreases n,
{
    if n > 0 {
        lemma_acts_keep_world_wf(actions, params, input, st0, n - 1);
        let pre = acts_prefix(actions, params, input, st0, n - 1);
        match actions[n - 1] {
            ActionData::QueryAdd { slot, sub, comp, delta } => {
                match crate::into_system::param_shape(params, slot, sub) {
                    Some(sh) => {
                        crate::world::lemma_query_add_spec_wf(pre.world, sh, comp, delta);
                    },
                    None => {},
                }
            },
            _ => {},
        }
    }
}

proof fn lemma_acts_respect_component_access(
    f: FuncSystemData,
    input: Value,
    st0: FuncStep,
    n: int,
    a: int,
    c: u64,
    j: int,
)
    requires
        f.wf(),
        st0.world.wf(),
        qa_covered(f, st0.world),
        !f.state.archetype_component_access.writes.contains(crate::world::slot_key(a, c)),
        0 <= n <= f.actions.len(),
    ensures
        comp_val(acts_prefix(f.actions, f.params, input, st0, n).world, a, c, j) == comp_val(
            st0.world,
            a,
            c,
            j,
        ),
    decreases n,
{
    if n > 0 {
        lemma_acts_respect_component_access(f, input, st0, n - 1, a, c, j);
        let pre = acts_prefix(f.actions, f.params, input, st0, n - 1);
        lemma_acts_keep_shape(f.actions, f.params, input, st0, n - 1);
        match f.actions[n - 1] {
            ActionData::QueryAdd { slot, sub, comp, delta } => {
                match crate::into_system::param_shape(f.params, slot, sub) {
                    Some(sh) => {
                        assert(world_shape(pre.world) == world_shape(st0.world));
                        assert(pre.world.archetypes.len() == st0.world.archetypes.len()) by {
                            assert(world_shape(pre.world).0.len() == world_shape(
                                st0.world,
                            ).0.len());
                        }
                        lemma_world_shape_keeps_slots(
                            pre.world,
                            st0.world,
                            sh,
                            pre.world.archetypes.len() as int,
                        );
                        assert(crate::world::shape_write_slots(pre.world, sh)
                            == crate::world::shape_write_slots(st0.world, sh));
                        assert(!crate::world::shape_write_slots(pre.world, sh).contains(
                            crate::world::slot_key(a, c),
                        )) by {
                            if crate::world::shape_write_slots(pre.world, sh).contains(
                                crate::world::slot_key(a, c),
                            ) {
                                assert(f.state.archetype_component_access.writes.contains(
                                    crate::world::slot_key(a, c),
                                ));
                            }
                        }
                        assert(crate::into_system::action_wf(f.actions[n - 1], f.params));
                        assert(sh.writes.contains(comp));
                        lemma_acts_keep_world_wf(f.actions, f.params, input, st0, n - 1);
                        lemma_query_add_confined(pre.world, sh, comp, delta, a, c, j);
                    },
                    None => {},
                }
            },
            _ => {},
        }
    }
}

/// A unit of work never writes a component slot outside its declared
/// footprint: running a unit whose query-write slots are covered by its
/// declared component writes leaves the value of every undeclared slot
/// exactly as it was.
pub proof fn lemma_run_within_component_access(
    f: FuncSystemData,
    input: Value,
    w: WorldData,
    r: ResourcesData,
    a: int,
    c: u64,
    j: int,
)
    requires
        f.wf(),
        w.wf(),
        qa_covered(f, w),
        !f.state.archetype_component_access.writes.contains(crate::world::slot_key(a, c)),
    ensures
        comp_val(func_run_spec(f, input, w, r).world, a, c, j) == comp_val(w, a, c, j),
{
    if !crate::into_system::func_gated(f.params, r) {
        let st0 = FuncStep { cmds: f.state.commands, world: w, resources: r };
        lemma_acts_respect_component_access(f, input, st0, f.actions.len() as int, a, c, j);
    }
}

// ---------------------------------------------------------------------
// Deferred spawns become visible exactly at the flush
// ---------------------------------------------------------------------

/// Every entity the store holds took an identifier below the counter,
/// as the store's own spawns hand them out.
pub open spec fn ids_below_next(w: WorldData) -> bool {
    forall|a: int, j: int|
        0 <= a < w.archetypes.len() && 0 <= j < w.archetypes[a].rows.len()
            ==> (#[trigger] w.archetypes[a].rows[j]).entity < w.next_entity
}

proof fn lemma_find_row_absent(rows: Seq<crate::world::RowData>, e: u64, j: int)
    requires
        forall|i: int| j <= i < rows.len() ==> (#[trigger] rows[i]).entity != e,
    ensures
        crate::world::find_row(rows, e, j) is None,
    decreases rows.len() - j,
{
    if !(j < 0 || j >= rows.len()) {
        lemma_find_row_absent(rows, e, j + 1);
    }
}

proof fn lemma_find_row_push(
    rows: Seq<crate::world::RowData>,
    nr: crate::world::RowData,
    e: u64,
    j: int,
)
    requires
        0 <= j <= rows.len(),
    ensures
        crate::world::find_row(rows.push(nr), e, j) == (match crate::world::find_row(rows, e, j) {
            Some(x) => Some(x),
            None => if nr.entity == e {
                Some(nr)
            } else {
                None
            },
        }),
    decreases rows.len() - j,
{
    if j < rows.len() {
        assert(rows.push(nr)[j] == rows[j]);
        lemma_find_row_push(rows, nr, e, j + 1);
    } else {
        assert(rows.push(nr)[j] == nr);
        assert(crate::world::find_row(rows.push(nr), e, j + 1) is None);
    }
}

proof fn lemma_first_index_at(layout: Seq<u64>, k: u64, t: int, j: int)
    requires
        0 <= j <= t < layout.len(),
        layout[t] == k,
        forall|m: int| 0 <= m < t ==> layout[m] != k,
    ensures
        crate::world::first_index(layout, k, j) == Some(t),
    decreases t - j,
{
    if j < t {
        lemma_first_index_at(layout, k, t, j + 1);
    }
}

proof fn lemma_world_get_congruence(
    a1: Seq<crate::world::ArchetypeData>,
    a2: Seq<crate::world::ArchetypeData>,
    e: u64,
    k: u64,
    j: int,
)
    requires
        a1.len() == a2.len(),
        forall|a: int|
            0 <= a < a1.len() ==> crate::world::arch_get(#[trigger] a1[a], e, k)
                == crate::world::arch_get(a2[a], e, k),
    ensures
        crate::world::world_get_from(a1, e, k, j) == crate::world::world_get_from(a2, e, k, j),
    decreases a1.len() - j,
{
    if !(j < 0 || j >= a1.len()) {
        lemma_world_get_congruence(a1, a2, e, k, j + 1);
    }
}

proof fn lemma_world_get_push(
    archs: Seq<crate::world::ArchetypeData>,
    na: crate::world::ArchetypeData,
    e: u64,
    k: u64,
    j: int,
)
    requires
        0 <= j <= archs.len(),
    ensures
        crate::world::world_get_from(archs.push(na), e, k, j) == (
        match crate::world::world_get_from(archs, e, k, j) {
            Some(v) => Some(v),
            None => crate::world::arch_get(na, e, k),
        }),
    decreases archs.len() - j,
{
    if j < archs.len() {
        assert(archs.push(na)[j] == archs[j]);
        lemma_world_get_push(archs, na, e, k, j + 1);
    } else {
        assert(archs.push(na)[j] == na);
        assert(crate::world::world_get_from(archs.push(na), e, k, j + 1) is None);
    }
}

proof fn lemma_world_get_skip_none(
    archs: Seq<crate::world::ArchetypeData>,
    e: u64,
    k: u64,
    j: int,
    i: int,
)
    requires
        0 <= j <= i <= archs.len(),
        forall|a: int| j <= a < i ==> crate::world::arch_get(#[trigger] archs[a], e, k) is None,
    ensures
        crate::world::world_get_from(archs, e, k, j) == crate::world::world_get_from(
            archs,
            e,
            k,
            i,
        ),
    decreases i - j,
{
    if j < i {
        lemma_world_get_skip_none(archs, e, k, j + 1, i);
    }
}

/// One spawn makes every spawned component observable on the fresh
/// identifier.
pub proof fn lemma_spawn_makes_visible(w: WorldData, comps: Seq<(u64, i64)>, t: int)
    requires
        w.wf(),
        crate::world::components_wf(comps),
        ids_below_next(w),
        w.next_entity < u64::MAX,
        w.archetypes.len() < 0x1_0000_0000,
        0 <= t < comps.len(),
    ensures
        crate::world::world_get_from(
            crate::world::spawn_spec(w, comps).0.archetypes,
            w.next_entity,
            comps[t].0,
            0,
        ) == Some(comps[t].1),
{
    let id = w.next_entity;
    let k = comps[t].0;
    let layout = crate::world::layout_of(comps);
    let vals = crate::world::vals_of(comps);
    let row = crate::world::RowData { entity: id, vals };
    assert(layout[t] == k);
    assert forall|m: int| 0 <= m < t implies layout[m] != k by {
        assert(layout[m] < layout[t]);
    }
    lemma_first_index_at(layout, k, t, 0);
    let w2 = crate::world::spawn_spec(w, comps).0;
    match crate::world::find_archetype(w.archetypes, layout, 0) {
        Some(i) => {
            crate::world::lemma_find_archetype_found(w.archetypes, layout, 0);
            assert forall|a: int|
                0 <= a < w2.archetypes.len() && a != i implies crate::world::arch_get(
                #[trigger] w2.archetypes[a],
                id,
                k,
            ) is None by {
                assert(w2.archetypes[a] == w.archetypes[a]);
                assert forall|j: int|
                    0 <= j < w.archetypes[a].rows.len() implies (#[trigger] w.archetypes[a].rows[
                j]).entity != id by {}
                lemma_find_row_absent(w.archetypes[a].rows, id, 0);
            }
            assert(crate::world::arch_get(w2.archetypes[i], id, k) == Some(comps[t].1)) by {
                assert(w2.archetypes[i].layout == layout);
                assert(w2.archetypes[i].rows == w.archetypes[i].rows.push(row));
                assert forall|j: int|
                    0 <= j < w.archetypes[i].rows.len() implies (#[trigger] w.archetypes[i].rows[
                j]).entity != id by {}
                lemma_find_row_absent(w.archetypes[i].rows, id, 0);
                lemma_find_row_push(w.archetypes[i].rows, row, id, 0);
                assert(crate::world::find_row(w2.archetypes[i].rows, id, 0) == Some(row));
                assert(vals[t] == comps[t].1);
            }
            lemma_world_get_skip_none(w2.archetypes, id, k, 0, i);
        },
        None => {
            let na = crate::world::ArchetypeData { layout, rows: seq![row] };
            assert(w2.archetypes == w.archetypes.push(na));
            assert(crate::world::world_get_from(w.archetypes, id, k, 0) is None) by {
                assert forall|a: int|
                    0 <= a < w.archetypes.len() implies crate::world::arch_get(
                    #[trigger] w.archetypes[a],
                    id,
                    k,
                ) is None by {
                    assert forall|j: int|
                        0 <= j < w.archetypes[a].rows.len() implies (
                    #[trigger] w.archetypes[a].rows[j]).entity != id by {}
                    lemma_find_row_absent(w.archetypes[a].rows, id, 0);
                }
                lemma_world_get_skip_none(w.archetypes, id, k, 0, w.archetypes.len() as int);
            }
            lemma_world_get_push(w.archetypes, na, id, k, 0);
            assert(crate::world::arch_get(na, id, k) == Some(comps[t].1)) by {
                assert(crate::world::find_row(na.rows, id, 0) == Some(row));
                assert(vals[t] == comps[t].1);
            }
        },
    }
}

/// A spawn leaves every existing entity's components exactly as they
/// were.
pub proof fn lemma_spawn_preserves_existing(w: WorldData, comps: Seq<(u64, i64)>, e: u64, k: u64)
    requires
        ids_below_next(w),
        e < w.next_entity,
    ensures
        crate::world::world_get_from(
            crate::world::spawn_spec(w, comps).0.archetypes,
            e,
            k,
            0,
        ) == crate::world::world_get_from(w.archetypes, e, k, 0),
{
    let id = w.next_entity;
    let layout = crate::world::layout_of(comps);
    let vals = crate::world::vals_of(comps);
    let row = crate::world::RowData { entity: id, vals };
    let w2 = crate::world::spawn_spec(w, comps).0;
    match crate::world::find_archetype(w.archetypes, layout, 0) {
        Some(i) => {
            crate::world::lemma_find_archetype_found(w.archetypes, layout, 0);
            assert forall|a: int|
                0 <= a < w2.archetypes.len() implies crate::world::arch_get(
                #[trigger] w2.archetypes[a],
                e,
                k,
            ) == crate::world::arch_get(w.archetypes[a], e, k) by {
                if a == i {
                    lemma_find_row_push(w.archetypes[i].rows, row, e, 0);
                }
            }
            lemma_world_get_congruence(w2.archetypes, w.archetypes, e, k, 0);
        },
        None => {
            if w.archetypes.len() < 0x1_0000_0000 {
                let na = crate::world::ArchetypeData { layout, rows: seq![row] };
                assert(w2.archetypes == w.archetypes.push(na));
                lemma_world_get_push(w.archetypes, na, e, k, 0);
                assert(crate::world::arch_get(na, e, k) is None) by {
                    lemma_find_row_absent(na.rows, e, 0);
                }
                match crate::world::world_get_from(w.archetypes, e, k, 0) {
                    Some(_) => {},
                    None => {},
                }
            }
        },
    }
}

/// A spawn keeps identifiers fresh and advances the counter by one.
pub proof fn lemma_spawn_keeps_freshness(w: WorldData, comps: Seq<(u64, i64)>)
    requires
        ids_below_next(w),
        w.next_entity < u64::MAX,
    ensures
        ids_below_next(crate::world::spawn_spec(w, comps).0),
        crate::world::spawn_spec(w, comps).0.next_entity == w.next_entity + 1,
        crate::world::spawn_spec(w, comps).1 == w.next_entity,
{
    let w2 = crate::world::spawn_spec(w, comps).0;
    assert forall|a: int, j: int|
        0 <= a < w2.archetypes.len() && 0 <= j < w2.archetypes[a].rows.len() implies (
    #[trigger] w2.archetypes[a].rows[j]).entity < w2.next_entity by {
        match crate::world::find_archetype(w.archetypes, crate::world::layout_of(comps), 0) {
            Some(i) => {
                crate::world::lemma_find_archetype_found(
                    w.archetypes,
                    crate::world::layout_of(comps),
                    0,
                );
                if a == i && j == w.archetypes[i].rows.len() {
                } else {
                    assert(w2.archetypes[a].rows[j] == w.archetypes[a].rows[j]);
                }
            },
            None => {
                if a < w.archetypes.len() {
                    assert(w2.archetypes[a].rows[j] == w.archetypes[a].rows[j]);
                }
            },
        }
    }
}

proof fn lemma_spawn_len(w: WorldData, comps: Seq<(u64, i64)>)
    ensures
        crate::world::spawn_spec(w, comps).0.archetypes.len() <= w.archetypes.len() + 1,
{
    let id = w.next_entity;
    let next = if id == u64::MAX {
        id
    } else {
        (id + 1) as u64
    };
    let row = crate::world::RowData { entity: id, vals: crate::world::vals_of(comps) };
    let layout = crate::world::layout_of(comps);
    match crate::world::find_archetype(w.archetypes, layout, 0) {
        Some(i) => {
            crate::world::lemma_find_archetype_found(w.archetypes, layout, 0);
            assert(crate::world::spawn_spec(w, comps).0.archetypes == w.archetypes.update(
                i,
                crate::world::ArchetypeData {
                    layout: w.archetypes[i].layout,
                    rows: w.archetypes[i].rows.push(row),
                },
            ));
            assert(crate::world::spawn_spec(w, comps).0.archetypes.len()
                == w.archetypes.len());
        },
        None => {
            if w.archetypes.len() < 0x1_0000_0000 {
                assert(crate::world::spawn_spec(w, comps).0.archetypes == w.archetypes.push(
                    crate::world::ArchetypeData { layout, rows: seq![row] },
                ));
                assert(crate::world::spawn_spec(w, comps).0.archetypes.len()
                    == w.archetypes.len() + 1);
            } else {
                assert(crate::world::spawn_spec(w, comps).0.archetypes == w.archetypes);
                assert(crate::world::spawn_spec(w, comps).0.archetypes.len()
                    == w.archetypes.len());
            }
        },
    }
}

/// Two units spawn one entity each inside one batch, registered first
/// `xc` then `yc`: after the batch's serialized flush — the spawns
/// applied in registration order, whatever order the batch ran in —
/// both entities exist, carrying exactly their spawned components,
/// under consecutive fresh identifiers.
pub proof fn lemma_batch_spawns_exist_after_flush(
    w: WorldData,
    xc: Seq<(u64, i64)>,
    yc: Seq<(u64, i64)>,
    tx: int,
    ty: int,
)
    requires
        w.wf(),
        crate::world::components_wf(xc),
        crate::world::components_wf(yc),
        ids_below_next(w),
        w.next_entity + 1 < u64::MAX,
        w.archetypes.len() + 1 < 0x1_0000_0000,
        0 <= tx < xc.len(),
        0 <= ty < yc.len(),
    ensures
        crate::world::world_get_from(
            crate::world::spawn_spec(crate::world::spawn_spec(w, xc).0, yc).0.archetypes,
            w.next_entity,
            xc[tx].0,
            0,
        ) == Some(xc[tx].1),
        crate::world::world_get_from(
            crate::world::spawn_spec(crate::world::spawn_spec(w, xc).0, yc).0.archetypes,
            (w.next_entity + 1) as u64,
            yc[ty].0,
            0,
        ) == Some(yc[ty].1),
{
    let w1 = crate::world::spawn_spec(w, xc).0;
    lemma_spawn_makes_visible(w, xc, tx);
    lemma_spawn_keeps_freshness(w, xc);
    crate::world::lemma_spawn_spec_wf(w, xc);
    lemma_spawn_preserves_existing(w1, yc, w.next_entity, xc[tx].0);
    lemma_spawn_len(w, xc);
    lemma_spawn_makes_visible(w1, yc, ty);
}

// ---------------------------------------------------------------------
// A single-stream event stage drains exactly its pending items
// ---------------------------------------------------------------------

/// A freshly shaped resource-only unit: empty component footprint and
/// no recomputed per-parameter slots, as the builder produces.
pub open spec fn fresh_resource_only(h: FuncSystemData) -> bool {
    &&& resource_only(SystemData::Func(h))
    &&& h.state.archetype_component_access == crate::access::TypeAccessData::empty()
    &&& h.state.query_archetype_component_accesses == Seq::<
        crate::access::TypeAccessData,
    >::empty()
}

/// The pump-chained unit of a single-stream event stage, carrying the
/// given merged access footprints.
pub open spec fn drain_chain(
    pump: crate::system::EventCursorSystemData,
    h: FuncSystemData,
    name: Seq<char>,
    id: crate::system::SystemId,
    aa: crate::access::TypeAccessData,
    ra: crate::access::TypeAccessData,
) -> SystemData {
    SystemData::Chain(
        crate::system::ChainSystemData {
            a: Box::new(SystemData::EventCursor(pump)),
            b: Box::new(SystemData::Func(h)),
            name,
            id,
            archetype_component_access: aa,
            resource_access: ra,
        },
    )
}

/// The component footprint a footprint recomputation leaves on the
/// pumped chain: the union of two empty footprints.
pub open spec fn drained_arch() -> crate::access::TypeAccessData {
    crate::access::TypeAccessData::empty().union_with(crate::access::TypeAccessData::empty())
}

/// The resource footprint a footprint recomputation leaves on the
/// pumped chain: the pump's empty footprint merged with the unit's.
pub open spec fn drained_res(h: FuncSystemData) -> crate::access::TypeAccessData {
    crate::access::TypeAccessData::empty().union_with(h.state.resource_access)
}

/// A single-stream pump over `ch` with empty footprints.
pub open spec fn pump_at(p: crate::system::EventCursorSystemData, ch: u64, c: usize) -> bool {
    &&& p.role == crate::system::EventRole::PumpSingle
    &&& p.channels == seq![ch]
    &&& p.cursors == seq![c]
    &&& p.archetype_component_access == crate::access::TypeAccessData::empty()
    &&& p.resource_access == crate::access::TypeAccessData::empty()
}

/// The stage's repeat-predicate over `ch`.
pub open spec fn criteria_at(p: crate::system::EventCursorSystemData, ch: u64, c: usize) -> bool {
    &&& p.role == crate::system::EventRole::Criteria
    &&& p.channels == seq![ch]
    &&& p.cursors == seq![c]
}

proof fn lemma_drain_update(
    pump: crate::system::EventCursorSystemData,
    h: FuncSystemData,
    name: Seq<char>,
    id: crate::system::SystemId,
    aa: crate::access::TypeAccessData,
    ra: crate::access::TypeAccessData,
    w: WorldData,
)
    requires
        pump.archetype_component_access == crate::access::TypeAccessData::empty(),
        pump.resource_access == crate::access::TypeAccessData::empty(),
        fresh_resource_only(h),
    ensures
        crate::system::update_spec(drain_chain(pump, h, name, id, aa, ra), w) == (
            drain_chain(pump, h, name, id, drained_arch(), drained_res(h)),
            None::<crate::system::ConflictData>,
        ),
{
    let hs = SystemData::Func(h);
    lemma_resource_only_update(hs, w);
    let hu = crate::system::update_spec(hs, w).0;
    assert(crate::into_system::state_update_spec(h.state, w).0 =~= h.state);
    assert(hu->Func_0 =~= h);
    assert(hu == hs);
    assert(crate::system::update_spec(SystemData::EventCursor(pump), w) == (
        SystemData::EventCursor(pump),
        None::<crate::system::ConflictData>,
    ));
    assert(crate::system::update_spec(hs, w) == (hs, None::<crate::system::ConflictData>)) by {
        assert(crate::system::update_spec(hs, w).0 == hu && hu == hs);
        assert(crate::system::update_spec(hs, w).1 is None);
    }
    let cu = crate::system::update_spec(drain_chain(pump, h, name, id, aa, ra), w);
    assert(cu.1 is None);
    assert(*cu.0->Chain_0.a == SystemData::EventCursor(pump));
    assert(*cu.0->Chain_0.b == SystemData::Func(h));
    assert(cu.0->Chain_0.archetype_component_access =~= drained_arch());
    assert(cu.0->Chain_0.resource_access =~= drained_res(h));
    assert(cu.0->Chain_0.name == name);
    assert(cu.0->Chain_0.id == id);
    assert(cu.0->Chain_0 =~= drain_chain(
        pump,
        h,
        name,
        id,
        drained_arch(),
        drained_res(h),
    )->Chain_0);
}

proof fn lemma_drain_flush(
    pump: crate::system::EventCursorSystemData,
    h: FuncSystemData,
    name: Seq<char>,
    id: crate::system::SystemId,
    aa: crate::access::TypeAccessData,
    ra: crate::access::TypeAccessData,
    w: WorldData,
    r: ResourcesData,
)
    requires
        fresh_resource_only(h),
    ensures
        crate::system::flush_spec(drain_chain(pump, h, name, id, aa, ra), w, r) == (
            drain_chain(pump, h, name, id, aa, ra),
            w,
            r,
        ),
{
    lemma_empty_flush(SystemData::Func(h), w, r);
    assert(crate::system::flush_spec(SystemData::EventCursor(pump), w, r) == (
        SystemData::EventCursor(pump),
        w,
        r,
    ));
    let fl = crate::system::flush_spec(drain_chain(pump, h, name, id, aa, ra), w, r);
    assert(fl.0->Chain_0 =~= drain_chain(pump, h, name, id, aa, ra)->Chain_0);
}

/// The per-tick loop of a single-stream event stage holding one
/// pumped, stream-silent, resource-only unit: with `n` items pending
/// beyond the shared cursor, the loop runs exactly `n` passes — the
/// pump hands its unit one pending item per pass, in arrival order —
/// and then the predicate stops it.  Afterwards both cursors sit at
/// the end of the log, the store is untouched, and the log itself
/// still holds the same items.
pub proof fn lemma_event_stage_drains(
    fuel: nat,
    ch: u64,
    crit: crate::system::EventCursorSystemData,
    pump: crate::system::EventCursorSystemData,
    h: FuncSystemData,
    name: Seq<char>,
    id: crate::system::SystemId,
    aa: crate::access::TypeAccessData,
    ra: crate::access::TypeAccessData,
    w: WorldData,
    r: ResourcesData,
)
    requires
        criteria_at(crit, ch, crit.cursors[0]),
        pump_at(pump, ch, pump.cursors[0]),
        pump.cursors[0] == crit.cursors[0],
        (crit.cursors[0] as int) <= r.events_of(ch).len(),
        r.events_of(ch).len() < usize::MAX,
        fuel >= r.events_of(ch).len() - crit.cursors[0],
        fresh_resource_only(h),
        access_registered(h),
        !h.state.resource_access.writes.contains(ch),
    ensures
        ({
            let out = crate::stage::stage_loop_spec(
                fuel,
                seq![drain_chain(pump, h, name, id, aa, ra)],
                Some(SystemData::EventCursor(crit)),
                crate::stage::ExecutorKind::Serial,
                w,
                r,
            );
            &&& out.4 is None
            &&& out.2 == w
            &&& out.3.events_of(ch) == r.events_of(ch)
            &&& out.1 == Some(
                SystemData::EventCursor(
                    crate::system::EventCursorSystemData {
                        cursors: seq![r.events_of(ch).len() as usize],
                        ..crit
                    },
                ),
            )
            &&& ((crit.cursors[0] as int) < r.events_of(ch).len() ==> out.0 == seq![
                drain_chain(
                    crate::system::EventCursorSystemData {
                        cursors: seq![r.events_of(ch).len() as usize],
                        ..pump
                    },
                    h,
                    name,
                    id,
                    drained_arch(),
                    drained_res(h),
                ),
            ])
            &&& ((crit.cursors[0] as int) == r.events_of(ch).len() ==> out.0 == seq![
                drain_chain(pump, h, name, id, aa, ra),
            ])
        }),
    decreases fuel,
{
    let c = crit.cursors[0];
    let big_l = r.events_of(ch).len();
    let cs = Some(SystemData::EventCursor(crit));
    let chain0 = drain_chain(pump, h, name, id, aa, ra);
    let ev = crate::stage::eval_criteria(cs, w, r);
    assert(crate::system::run_spec(SystemData::EventCursor(crit), Value::Unit, w, r)
        == crate::system::event_cursor_run_spec(crit, w, r));
    assert(crate::system::cursors_after(seq![ch], seq![c], r) =~= (if (c as int) < big_l {
        seq![(c + 1) as usize]
    } else {
        seq![c]
    })) by {
        assert(seq![c][0] == c && seq![ch][0] == ch);
    }
    if (c as int) == big_l {
        assert(!crate::system::any_unread(seq![ch], seq![c], r)) by {
            assert forall|i: int|
                !(0 <= i < 1 && (#[trigger] seq![c][i] as int) < r.events_of(
                    seq![ch][i],
                ).len()) by {
                if i == 0 {
                    assert(seq![c][0] == c);
                }
            }
        }
        assert(ev.3 == crate::system::ShouldRun::No);
        assert(ev.0->Some_0->EventCursor_0 =~= (crate::system::EventCursorSystemData {
            cursors: seq![big_l as usize],
            ..crit
        }));
    } else {
        assert((c as int) < big_l);
        assert(crate::system::any_unread(seq![ch], seq![c], r)) by {
            assert(seq![c][0] == c && seq![ch][0] == ch);
            assert((seq![c][0] as int) < r.events_of(seq![ch][0]).len());
        }
        assert(ev.3 == crate::system::ShouldRun::YesAndLoop);
        let crit1 = crate::system::EventCursorSystemData { cursors: seq![(c + 1) as usize], ..crit };
        assert(ev.0->Some_0->EventCursor_0 =~= crit1);
        assert(ev.1 == w && ev.2 == r);
        // one serial pass over the single unit
        lemma_drain_update(pump, h, name, id, aa, ra, w);
        let chain_u = drain_chain(pump, h, name, id, drained_arch(), drained_res(h));
        let rr = crate::system::run_spec(chain_u, Value::Unit, w, r);
        assert(crate::system::pull_item(seq![ch], seq![c], r, 0) == Some(
            r.events_of(ch)[c as int],
        )) by {
            assert(seq![c][0] == c && seq![ch][0] == ch);
        }
        let pump1 = crate::system::EventCursorSystemData { cursors: seq![(c + 1) as usize], ..pump };
        let pr = crate::system::run_spec(SystemData::EventCursor(pump), Value::Unit, w, r);
        assert(pr.sys->EventCursor_0 =~= pump1);
        assert(pr.out == Some(Value::Int(r.events_of(ch)[c as int])));
        let item = r.events_of(ch)[c as int];
        let hr = crate::into_system::func_run_spec(h, Value::Int(item), w, r);
        assert(crate::system::run_spec(SystemData::Func(h), Value::Int(item), w, r) == hr);
        lemma_resource_only_run(SystemData::Func(h), Value::Int(item), w, r);
        lemma_run_within_resource_access(h, Value::Int(item), w, r, ch);
        assert(hr.resources.events_of(ch) == r.events_of(ch));
        assert(rr.sys =~= drain_chain(pump1, h, name, id, drained_arch(), drained_res(h)));
        assert(rr.world == w);
        assert(rr.resources == hr.resources);
        lemma_drain_flush(pump1, h, name, id, drained_arch(), drained_res(h), w, hr.resources);
        assert(crate::stage::serial_prefix(seq![chain0], w, r, 0) == (
            seq![chain0],
            w,
            r,
            None::<crate::system::ConflictData>,
        ));
        assert(seq![chain0][0] == chain0);
        let sp = crate::stage::serial_prefix(seq![chain0], w, r, 1);
        assert(sp.0 =~= seq![drain_chain(pump1, h, name, id, drained_arch(), drained_res(h))]);
        assert(sp.1 == w);
        assert(sp.2 == hr.resources);
        assert(sp.3 is None);
        assert(crate::stage::exec_pass(
            seq![chain0],
            w,
            r,
            crate::stage::ExecutorKind::Serial,
        ) == (sp.0, sp.1, sp.2, sp.3));
        assert(fuel > 0);
        lemma_event_stage_drains(
            (fuel - 1) as nat,
            ch,
            crit1,
            pump1,
            h,
            name,
            id,
            drained_arch(),
            drained_res(h),
            w,
            hr.resources,
        );
        assert((crit1.cursors[0] as int) == c + 1);
        if c + 1 == big_l {
            assert(crate::stage::stage_loop_spec(
                fuel,
                seq![chain0],
                cs,
                crate::stage::ExecutorKind::Serial,
                w,
                r,
            ).0 == seq![drain_chain(pump1, h, name, id, drained_arch(), drained_res(h))]);
        }
    }
}

// ---------------------------------------------------------------------
// A joint event stage delivers a lone pending item exactly once
// ---------------------------------------------------------------------

/// A joint three-stream pump with empty footprints.
pub open spec fn joint_pump_at(
    p: crate::system::EventCursorSystemData,
    chs: Seq<u64>,
    curs: Seq<usize>,
) -> bool {
    &&& p.role == crate::system::EventRole::PumpJoint
    &&& p.channels == chs
    &&& p.cursors == curs
    &&& p.archetype_component_access == crate::access::TypeAccessData::empty()
    &&& p.resource_access == crate::access::TypeAccessData::empty()
}

/// The per-tick loop of a joint three-stream event stage holding one
/// pumped, stream-silent, resource-only unit, with streams A and C
/// fully read and exactly one item pending on stream B: the loop runs
/// exactly one pass, the pump hands the unit the input
/// (absent, present, absent) carrying B's pending item — the final
/// table is exactly one run of the unit on that input — and then the
/// predicate stops the stage.  Stream B's cursors advance by one; A's
/// and C's stay; the store and all three logs are untouched.
#[verifier::rlimit(30)]
pub proof fn lemma_joint_stage_delivers_once(
    fuel: nat,
    cha: u64,
    chb: u64,
    chc: u64,
    crit: crate::system::EventCursorSystemData,
    pump: crate::system::EventCursorSystemData,
    h: FuncSystemData,
    name: Seq<char>,
    id: crate::system::SystemId,
    aa: crate::access::TypeAccessData,
    ra: crate::access::TypeAccessData,
    w: WorldData,
    r: ResourcesData,
)
    requires
        crit.role == crate::system::EventRole::Criteria,
        crit.channels == seq![cha, chb, chc],
        joint_pump_at(pump, seq![cha, chb, chc], crit.cursors),
        crit.cursors.len() == 3,
        (crit.cursors[0] as int) == r.events_of(cha).len(),
        (crit.cursors[1] as int) + 1 == r.events_of(chb).len(),
        (crit.cursors[2] as int) == r.events_of(chc).len(),
        r.events_of(chb).len() < usize::MAX,
        fuel >= 1,
        fresh_resource_only(h),
        access_registered(h),
        !h.state.resource_access.writes.contains(cha),
        !h.state.resource_access.writes.contains(chb),
        !h.state.resource_access.writes.contains(chc),
    ensures
        ({
            let out = crate::stage::stage_loop_spec(
                fuel,
                seq![drain_chain(pump, h, name, id, aa, ra)],
                Some(SystemData::EventCursor(crit)),
                crate::stage::ExecutorKind::Serial,
                w,
                r,
            );
            let item = r.events_of(chb)[crit.cursors[1] as int];
            let curs1 = seq![
                crit.cursors[0],
                (crit.cursors[1] + 1) as usize,
                crit.cursors[2],
            ];
            &&& out.4 is None
            &&& out.2 == w
            &&& out.3 == crate::into_system::func_run_spec(
                h,
                Value::Triple(None, Some(item), None),
                w,
                r,
            ).resources
            &&& out.3.events_of(cha) == r.events_of(cha)
            &&& out.3.events_of(chb) == r.events_of(chb)
            &&& out.3.events_of(chc) == r.events_of(chc)
            &&& out.1 == Some(
                SystemData::EventCursor(
                    crate::system::EventCursorSystemData { cursors: curs1, ..crit },
                ),
            )
            &&& out.0 == seq![
                drain_chain(
                    crate::system::EventCursorSystemData { cursors: curs1, ..pump },
                    h,
                    name,
                    id,
                    drained_arch(),
                    drained_res(h),
                ),
            ]
        }),
{
    let chs = seq![cha, chb, chc];
    let curs = crit.cursors;
    let ca = curs[0];
    let cb = curs[1];
    let cc = curs[2];
    let item = r.events_of(chb)[cb as int];
    let curs1 = seq![ca, (cb + 1) as usize, cc];
    let cs = Some(SystemData::EventCursor(crit));
    let chain0 = drain_chain(pump, h, name, id, aa, ra);
    // round one: stream B still holds an item
    let ev = crate::stage::eval_criteria(cs, w, r);
    assert(crate::system::run_spec(SystemData::EventCursor(crit), Value::Unit, w, r)
        == crate::system::event_cursor_run_spec(crit, w, r));
    assert(crate::system::cursors_after(chs, curs, r) =~= curs1) by {
        assert(chs[0] == cha && chs[1] == chb && chs[2] == chc);
        assert(curs[0] == ca && curs[1] == cb && curs[2] == cc);
    }
    assert(crate::system::any_unread(chs, curs, r)) by {
        assert(chs[1] == chb && curs[1] == cb);
        assert((curs[1] as int) < r.events_of(chs[1]).len());
    }
    assert(ev.3 == crate::system::ShouldRun::YesAndLoop);
    let crit1 = crate::system::EventCursorSystemData { cursors: curs1, ..crit };
    assert(ev.0->Some_0->EventCursor_0 =~= crit1);
    assert(ev.1 == w && ev.2 == r);
    // the pass: pump pulls (absent, present, absent), the unit runs once
    lemma_drain_update(pump, h, name, id, aa, ra, w);
    let chain_u = drain_chain(pump, h, name, id, drained_arch(), drained_res(h));
    let pr = crate::system::run_spec(SystemData::EventCursor(pump), Value::Unit, w, r);
    assert(crate::system::pull_item(chs, curs, r, 0) is None) by {
        assert(chs[0] == cha && curs[0] == ca);
    }
    assert(crate::system::pull_item(chs, curs, r, 1) == Some(item)) by {
        assert(chs[1] == chb && curs[1] == cb);
    }
    assert(crate::system::pull_item(chs, curs, r, 2) is None) by {
        assert(chs[2] == chc && curs[2] == cc);
    }
    let pump1 = crate::system::EventCursorSystemData { cursors: curs1, ..pump };
    assert(pr.sys->EventCursor_0 =~= pump1);
    assert(pr.out == Some(Value::Triple(None, Some(item), None)));
    let hr = crate::into_system::func_run_spec(h, Value::Triple(None, Some(item), None), w, r);
    assert(crate::system::run_spec(
        SystemData::Func(h),
        Value::Triple(None, Some(item), None),
        w,
        r,
    ) == hr);
    lemma_resource_only_run(SystemData::Func(h), Value::Triple(None, Some(item), None), w, r);
    lemma_run_within_resource_access(h, Value::Triple(None, Some(item), None), w, r, cha);
    lemma_run_within_resource_access(h, Value::Triple(None, Some(item), None), w, r, chb);
    lemma_run_within_resource_access(h, Value::Triple(None, Some(item), None), w, r, chc);
    assert(hr.resources.events_of(cha) == r.events_of(cha));
    assert(hr.resources.events_of(chb) == r.events_of(chb));
    assert(hr.resources.events_of(chc) == r.events_of(chc));
    let rr = crate::system::run_spec(chain_u, Value::Unit, w, r);
    assert(rr.sys =~= drain_chain(pump1, h, name, id, drained_arch(), drained_res(h)));
    assert(rr.world == w);
    assert(rr.resources == hr.resources);
    lemma_drain_flush(pump1, h, name, id, drained_arch(), drained_res(h), w, hr.resources);
    assert(crate::stage::serial_prefix(seq![chain0], w, r, 0) == (
        seq![chain0],
        w,
        r,
        None::<crate::system::ConflictData>,
    ));
    assert(seq![chain0][0] == chain0);
    let sp = crate::stage::serial_prefix(seq![chain0], w, r, 1);
    let chain1 = drain_chain(pump1, h, name, id, drained_arch(), drained_res(h));
    assert(sp.0 =~= seq![chain1]);
    assert(sp.1 == w);
    assert(sp.2 == hr.resources);
    assert(sp.3 is None);
    assert(crate::stage::exec_pass(seq![chain0], w, r, crate::stage::ExecutorKind::Serial) == (
        sp.0,
        sp.1,
        sp.2,
        sp.3,
    ));
    assert(fuel > 0);
    // round two: nothing is pending anywhere, the predicate stops
    let r1 = hr.resources;
    let ev2 = crate::stage::eval_criteria(
        Some(SystemData::EventCursor(crit1)),
        w,
        r1,
    );
    assert(crate::system::run_spec(SystemData::EventCursor(crit1), Value::Unit, w, r1)
        == crate::system::event_cursor_run_spec(crit1, w, r1));
    assert(!crate::system::any_unread(chs, curs1, r1)) by {
        assert forall|i: int|
            !(0 <= i < 3 && (#[trigger] curs1[i] as int) < r1.events_of(chs[i]).len()) by {
            if i == 0 {
                assert(chs[0] == cha && curs1[0] == ca);
            } else if i == 1 {
                assert(chs[1] == chb && (curs1[1] as int) == cb + 1);
            } else if i == 2 {
                assert(chs[2] == chc && curs1[2] == cc);
            }
        }
    }
    assert(crate::system::cursors_after(chs, curs1, r1) =~= curs1) by {
        assert forall|i: int| 0 <= i < 3 implies crate::system::cursors_after(chs, curs1, r1)[i]
            == curs1[i] by {
            if i == 0 {
                assert(chs[0] == cha && curs1[0] == ca);
            } else if i == 1 {
                assert(chs[1] == chb && (curs1[1] as int) == cb + 1);
            } else if i == 2 {
                assert(chs[2] == chc && curs1[2] == cc);
            }
        }
    }
    assert(ev2.3 == crate::system::ShouldRun::No);
    assert(ev2.0->Some_0->EventCursor_0 =~= crit1);
    assert(crate::stage::stage_loop_spec(
        (fuel - 1) as nat,
        seq![chain1],
        Some(SystemData::EventCursor(crit1)),
        crate::stage::ExecutorKind::Serial,
        w,
        r1,
    ) == (
        seq![chain1],
        ev2.0,
        w,
        r1,
        None::<crate::system::ConflictData>,
    ));
}

} // verus!