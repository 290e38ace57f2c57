//! Building a unit of work from data: an ordered list of parameter
//! descriptors (capability requests) plus a body of interpreted actions
//! over the values those parameters materialize.
//!
//! Each parameter kind contributes its footprint to the unit's access
//! sets at initialization; the body can only reach storage through a
//! parameter, so a run never exceeds the declared footprint.

use vstd::prelude::*;
use crate::access::{first_conflict, TypeAccess, TypeAccessData};
use crate::commands::{Commands, CommandsData, CommandData};
use crate::resources::{Resources, ResourcesData};
use crate::system::{ConflictData, ConflictError, RunOut, System, SystemData, SystemId, Value};
use crate::world::{
    components_wf, count_prefix, query_add_spec, shape_read_slots, shape_write_slots, QueryShape,
    QueryShapeData, World, WorldData,
};

verus! {

/// Spec-level mirror of a [`ParamDesc`].
pub enum ParamDescData {
    /// One query over entities matching a shape.
    Query(QueryShapeData),
    /// Several independently indexed query shapes behind one parameter.
    QuerySet(Seq<QueryShapeData>),
    /// A shared borrow of the resource under the key.
    Res(u64),
    /// An exclusive borrow of the resource under the key.
    ResMut(u64),
    /// A shared borrow that gates the run on the change mark.
    ChangedRes(u64),
    /// A handle on the unit's deferred-mutation buffer.
    Commands,
}

/// One capability request of a unit of work.
pub enum ParamDesc {
    /// One query over entities matching a shape.
    Query(QueryShape),
    /// Several independently indexed query shapes behind one parameter.
    QuerySet(Vec<QueryShape>),
    /// A shared borrow of the resource under the key.
    Res(u64),
    /// An exclusive borrow of the resource under the key.
    ResMut(u64),
    /// A shared borrow that gates the run on the change mark.
    ChangedRes(u64),
    /// A handle on the unit's deferred-mutation buffer.
    Commands,
}

impl View for ParamDesc {
    type V = ParamDescData;

    open spec fn view(&self) -> ParamDescData {
        match self {
            ParamDesc::Query(s) => ParamDescData::Query(s@),
            ParamDesc::QuerySet(ss) => ParamDescData::QuerySet(
                ss@.map_values(|s: QueryShape| s@),
            ),
            ParamDesc::Res(k) => ParamDescData::Res(*k),
            ParamDesc::ResMut(k) => ParamDescData::ResMut(*k),
            ParamDesc::ChangedRes(k) => ParamDescData::ChangedRes(*k),
            ParamDesc::Commands => ParamDescData::Commands,
        }
    }
}

/// Spec-level mirror of an [`Action`].
pub enum ActionData {
    /// Store a constant into the resource behind an exclusive borrow.
    SetRes { slot: int, value: i64 },
    /// Add a constant, wrapping, to the resource behind an exclusive
    /// borrow.
    AddRes { slot: int, delta: i64 },
    /// Store one part of the unit's input into a resource, with a
    /// fallback for an absent part.
    CopyInput { part: int, slot: int, missing: i64 },
    /// Add a constant, wrapping, to a component of every entity a query
    /// matches.
    QueryAdd { slot: int, sub: int, comp: u64, delta: i64 },
    /// Count the entities a query matches into a resource.
    QueryCountTo { slot: int, sub: int, target: int },
    /// Record an entity creation in the deferred buffer.
    Spawn { slot: int, components: Seq<(u64, i64)> },
    /// Record an entity destruction in the deferred buffer.
    Despawn { slot: int, entity: u64 },
    /// Record a resource insertion in the deferred buffer.
    InsertResourceCmd { slot: int, key: u64, value: i64 },
    /// Record a resource removal in the deferred buffer.
    RemoveResourceCmd { slot: int, key: u64 },
}

/// One interpreted step of a unit's body.  A `slot` indexes the unit's
/// parameter list; the parameter kind decides what the step may touch.
pub enum Action {
    /// Store a constant into the resource behind an exclusive borrow.
    SetRes { slot: usize, value: i64 },
    /// Add a constant, wrapping, to the resource behind an exclusive
    /// borrow.
    AddRes { slot: usize, delta: i64 },
    /// Store one part of the unit's input into a resource, with a
    /// fallback for an absent part.
    CopyInput { part: usize, slot: usize, missing: i64 },
    /// Add a constant, wrapping, to a component of every entity a query
    /// matches.
    QueryAdd { slot: usize, sub: usize, comp: u64, delta: i64 },
    /// Count the entities a query matches into a resource.
    QueryCountTo { slot: usize, sub: usize, target: usize },
    /// Record an entity creation in the deferred buffer.
    Spawn { slot: usize, components: Vec<(u64, i64)> },
    /// Record an entity destruction in the deferred buffer.
    Despawn { slot: usize, entity: u64 },
    /// Record a resource insertion in the deferred buffer.
    InsertResourceCmd { slot: usize, key: u64, value: i64 },
    /// Record a resource removal in the deferred buffer.
    RemoveResourceCmd { slot: usize, key: u64 },
}

impl View for Action {
    type V = ActionData;

    open spec fn view(&self) -> ActionData {
        match self {
            Action::SetRes { slot, value } => ActionData::SetRes {
                slot: *slot as int,
                value: *value,
            },
            Action::AddRes { slot, delta } => ActionData::AddRes {
                slot: *slot as int,
                delta: *delta,
            },
            Action::CopyInput { part, slot, missing } => ActionData::CopyInput {
                part: *part as int,
                slot: *slot as int,
                missing: *missing,
            },
            Action::QueryAdd { slot, sub, comp, delta } => ActionData::QueryAdd {
                slot: *slot as int,
                sub: *sub as int,
                comp: *comp,
                delta: *delta,
            },
            Action::QueryCountTo { slot, sub, target } => ActionData::QueryCountTo {
                slot: *slot as int,
                sub: *sub as int,
                target: *target as int,
            },
            Action::Spawn { slot, components } => ActionData::Spawn {
                slot: *slot as int,
                components: components@,
            },
            Action::Despawn { slot, entity } => ActionData::Despawn {
                slot: *slot as int,
                entity: *entity,
            },
            Action::InsertResourceCmd { slot, key, value } => ActionData::InsertResourceCmd {
                slot: *slot as int,
                key: *key,
                value: *value,
            },
            Action::RemoveResourceCmd { slot, key } => ActionData::RemoveResourceCmd {
                slot: *slot as int,
                key: *key,
            },
        }
    }
}

/// Spec-level mirror of a [`SystemState`].
#[verifier::ext_equal]
pub struct SystemStateData {
    pub id: SystemId,
    pub name: Seq<char>,
    pub is_initialized: bool,
    pub archetype_component_access: TypeAccessData,
    pub resource_access: TypeAccessData,
    pub query_archetype_component_accesses: Seq<TypeAccessData>,
    pub query_accesses: Seq<Seq<QueryShapeData>>,
    pub query_type_names: Seq<Seq<char>>,
    pub commands: CommandsData,
}

/// Per-unit mutable bookkeeping: identity, access sets, per-parameter
/// sub-access sets, and the deferred-mutation buffer.
pub struct SystemState {
    /// The unit's identifier.
    pub id: SystemId,
    /// The unit's display name.
    pub name: String,
    /// Whether one-time setup ran.
    pub is_initialized: bool,
    /// The merged component-slot footprint.
    pub archetype_component_access: TypeAccess,
    /// The resource footprint.
    pub resource_access: TypeAccess,
    /// One recomputed slot footprint per query parameter.
    pub query_archetype_component_accesses: Vec<TypeAccess>,
    /// The declared shapes of each query parameter.
    pub query_accesses: Vec<Vec<QueryShape>>,
    /// A label per query parameter, for conflict diagnostics.
    pub query_type_names: Vec<String>,
    /// The deferred-mutation buffer.
    pub commands: Commands,
}

impl View for SystemState {
    type V = SystemStateData;

    open spec fn view(&self) -> SystemStateData {
        SystemStateData {
            id: self.id,
            name: self.name@,
            is_initialized: self.is_initialized,
            archetype_component_access: self.archetype_component_access@,
            resource_access: self.resource_access@,
            query_archetype_component_accesses: self.query_archetype_component_accesses@
                .map_values(|t: TypeAccess| t@),
            query_accesses: self.query_accesses@.map_values(
                |v: Vec<QueryShape>| v.view().map_values(|s: QueryShape| s@),
            ),
            query_type_names: self.query_type_names@.map_values(|n: String| n@),
            commands: self.commands@,
        }
    }
}

/// Spec-level mirror of a [`FuncSystem`].
#[verifier::ext_equal]
pub struct FuncSystemData {
    pub state: SystemStateData,
    pub params: Seq<ParamDescData>,
    pub query_names: Seq<Seq<char>>,
    pub actions: Seq<ActionData>,
}

/// A data-driven unit of work: parameter descriptors plus an interpreted
/// body.
pub struct FuncSystem {
    /// The unit's bookkeeping.
    pub state: SystemState,
    /// The capability requests, in declaration order.
    pub params: Vec<ParamDesc>,
    /// A label per parameter; only query parameters use theirs.
    pub query_names: Vec<String>,
    /// The interpreted body, run in order each invocation.
    pub actions: Vec<Action>,
}

impl View for FuncSystem {
    type V = FuncSystemData;

    open spec fn view(&self) -> FuncSystemData {
        FuncSystemData {
            state: self.state@,
            params: self.params@.map_values(|p: ParamDesc| p@),
            query_names: self.query_names@.map_values(|n: String| n@),
            actions: self.actions@.map_values(|a: Action| a@),
        }
    }
}

// ---------------------------------------------------------------------
// Well-formedness
// ---------------------------------------------------------------------

/// Whether one action is valid against the parameter list: slots in
/// range, kinds matching, spawned components canonical.
pub open spec fn action_wf(a: ActionData, params: Seq<ParamDescData>) -> bool {
    match a {
        ActionData::SetRes { slot, value: _ } => 0 <= slot < params.len() && params[slot]
            is ResMut,
        ActionData::AddRes { slot, delta: _ } => 0 <= slot < params.len() && params[slot]
            is ResMut,
        ActionData::CopyInput { part: _, slot, missing: _ } => 0 <= slot < params.len()
            && params[slot] is ResMut,
        ActionData::QueryAdd { slot, sub, comp, delta: _ } => match param_shape(
            params,
            slot,
            sub,
        ) {
            Some(sh) => sh.writes.contains(comp),
            None => false,
        },
        ActionData::QueryCountTo { slot, sub, target } => param_shape(params, slot, sub) is Some
            && 0 <= target < params.len() && params[target] is ResMut,
        ActionData::Spawn { slot, components } => 0 <= slot < params.len() && params[slot]
            is Commands && components_wf(components),
        ActionData::Despawn { slot, entity: _ } => 0 <= slot < params.len() && params[slot]
            is Commands,
        ActionData::InsertResourceCmd { slot, key: _, value: _ } => 0 <= slot < params.len()
            && params[slot] is Commands,
        ActionData::RemoveResourceCmd { slot, key: _ } => 0 <= slot < params.len() && params[slot]
            is Commands,
    }
}

/// The query shape a (slot, sub) pair addresses, if the slot is a query
/// parameter and `sub` indexes one of its shapes.
pub open spec fn param_shape(params: Seq<ParamDescData>, slot: int, sub: int) -> Option<
    QueryShapeData,
> {
    if 0 <= slot < params.len() {
        match params[slot] {
            ParamDescData::Query(s) => if sub == 0 {
                Some(s)
            } else {
                None
            },
            ParamDescData::QuerySet(ss) => if 0 <= sub < ss.len() {
                Some(ss[sub])
            } else {
                None
            },
            _ => None,
        }
    } else {
        None
    }
}

/// Every shape a parameter declares is well formed.
pub open spec fn param_wf(p: ParamDescData) -> bool {
    match p {
        ParamDescData::Query(s) => s.wf(),
        ParamDescData::QuerySet(ss) => forall|i: int| 0 <= i < ss.len() ==> (#[trigger] ss[i]).wf(),
        _ => true,
    }
}

impl SystemStateData {
    /// The bookkeeping's pieces agree: one recomputed footprint and one
    /// label per query parameter, and every declared shape well formed.
    pub open spec fn swf(self) -> bool {
        &&& self.query_accesses.len() == self.query_type_names.len()
        &&& self.query_accesses.len() == self.query_archetype_component_accesses.len()
        &&& forall|i: int, j: int|
            0 <= i < self.query_accesses.len() && 0 <= j < self.query_accesses[i].len() ==> (
            #[trigger] self.query_accesses[i][j]).wf()
        &&& self.commands.wf()
    }
}

impl FuncSystemData {
    /// The unit's descriptors, bookkeeping and body agree with each
    /// other.
    pub open spec fn wf(self) -> bool {
        &&& self.params.len() == self.query_names.len()
        &&& forall|i: int| 0 <= i < self.params.len() ==> param_wf(#[trigger] self.params[i])
        &&& forall|i: int| 0 <= i < self.actions.len() ==> action_wf(
            #[trigger] self.actions[i],
            self.params,
        )
        &&& self.state.swf()
    }
}

// ---------------------------------------------------------------------
// Run semantics
// ---------------------------------------------------------------------

/// `o`, or `d` where `o` is absent.
pub open spec fn opt_or(o: Option<i64>, d: i64) -> i64 {
    match o {
        Some(v) => v,
        None => d,
    }
}

/// The part of an input value an action reads: part 0 of a plain value,
/// parts 0 to 2 of a joint triple, the fallback otherwise.
pub open spec fn input_part(input: Value, part: int, missing: i64) -> i64 {
    match input {
        Value::Int(v) => if part == 0 {
            v
        } else {
            missing
        },
        Value::Triple(a, b, c) => if part == 0 {
            opt_or(a, missing)
        } else if part == 1 {
            opt_or(b, missing)
        } else if part == 2 {
            opt_or(c, missing)
        } else {
            missing
        },
        _ => missing,
    }
}

/// A match count clamped into an `i64`, through the saturating `usize`
/// count the executable path takes.
pub open spec fn clamp_count(c: int) -> i64 {
    let s = if c > usize::MAX {
        usize::MAX as int
    } else {
        c
    };
    if s > i64::MAX {
        i64::MAX
    } else {
        s as i64
    }
}

/// The mutable state one body step works on.
#[verifier::ext_equal]
pub struct FuncStep {
    pub cmds: CommandsData,
    pub world: WorldData,
    pub resources: ResourcesData,
}

/// The state after writing `v` through the exclusive-borrow parameter at
/// `slot`; an invalid slot writes nothing.
pub open spec fn write_res(
    params: Seq<ParamDescData>,
    slot: int,
    v: i64,
    st: FuncStep,
) -> FuncStep {
    if 0 <= slot < params.len() {
        match params[slot] {
            ParamDescData::ResMut(k) => FuncStep {
                cmds: st.cmds,
                world: st.world,
                resources: st.resources.insert_int(k, v, false),
            },
            _ => st,
        }
    } else {
        st
    }
}

/// Whether `slot` addresses a deferred-buffer parameter.
pub open spec fn commands_param(params: Seq<ParamDescData>, slot: int) -> bool {
    0 <= slot < params.len() && params[slot] is Commands
}

/// The state after queuing `c`, if `slot` addresses the buffer.
pub open spec fn queue_cmd(
    params: Seq<ParamDescData>,
    slot: int,
    c: CommandData,
    st: FuncStep,
) -> FuncStep {
    if commands_param(params, slot) {
        FuncStep {
            cmds: CommandsData { queue: st.cmds.queue.push(c) },
            world: st.world,
            resources: st.resources,
        }
    } else {
        st
    }
}

/// What one body step does.
pub open spec fn act_step(
    a: ActionData,
    params: Seq<ParamDescData>,
    input: Value,
    st: FuncStep,
) -> FuncStep {
    match a {
        ActionData::SetRes { slot, value } => write_res(params, slot, value, st),
        ActionData::AddRes { slot, delta } => {
            if 0 <= slot < params.len() {
                match params[slot] {
                    ParamDescData::ResMut(k) => write_res(
                        params,
                        slot,
                        crate::world::wrap_add64(opt_or(st.resources.int_of(k), 0), delta),
                        st,
                    ),
                    _ => st,
                }
            } else {
                st
            }
        },
        ActionData::CopyInput { part, slot, missing } => write_res(
            params,
            slot,
            input_part(input, part, missing),
            st,
        ),
        ActionData::QueryAdd { slot, sub, comp, delta } => {
            match param_shape(params, slot, sub) {
                Some(shape) => FuncStep {
                    cmds: st.cmds,
                    world: query_add_spec(st.world, shape, comp, delta),
                    resources: st.resources,
                },
                None => st,
            }
        },
        ActionData::QueryCountTo { slot, sub, target } => {
            match param_shape(params, slot, sub) {
                Some(shape) => write_res(
                    params,
                    target,
                    clamp_count(
                        count_prefix(
                            st.world.archetypes,
                            shape,
                            st.world.archetypes.len() as int,
                        ),
                    ),
                    st,
                ),
                None => st,
            }
        },
        ActionData::Spawn { slot, components } => queue_cmd(
            params,
            slot,
            CommandData::Spawn(components),
            st,
        ),
        ActionData::Despawn { slot, entity } => queue_cmd(
            params,
            slot,
            CommandData::Despawn(entity),
            st,
        ),
        ActionData::InsertResourceCmd { slot, key, value } => queue_cmd(
            params,
            slot,
            CommandData::InsertResource(key, value),
            st,
        ),
        ActionData::RemoveResourceCmd { slot, key } => queue_cmd(
            params,
            slot,
            CommandData::RemoveResource(key),
            st,
        ),
    }
}

/// The state after the first `n` body steps.
pub open spec fn acts_prefix(
    actions: Seq<ActionData>,
    params: Seq<ParamDescData>,
    input: Value,
    st0: FuncStep,
    n: int,
) -> FuncStep
    decreases n,
{
    if n <= 0 {
        st0
    } else {
        act_step(actions[n - 1], params, input, acts_prefix(actions, params, input, st0, n - 1))
    }
}

/// A change-gated parameter whose resource is unchanged skips the run.
pub open spec fn func_gated(params: Seq<ParamDescData>, r: ResourcesData) -> bool {
    exists|i: int|
        0 <= i < params.len() && (#[trigger] params[i]) is ChangedRes && !r.changed(
            params[i]->ChangedRes_0,
        )
}

/// What running a data-driven unit does: a gated unit is skipped; an
/// ungated one runs its body in order and reports completion.
pub open spec fn func_run_spec(
    f: FuncSystemData,
    input: Value,
    w: WorldData,
    r: ResourcesData,
) -> RunOut {
    if func_gated(f.params, r) {
        RunOut { sys: SystemData::Func(f), world: w, resources: r, out: None }
    } else {
        let st0 = FuncStep { cmds: f.state.commands, world: w, resources: r };
        let fin = acts_prefix(f.actions, f.params, input, st0, f.actions.len() as int);
        RunOut {
            sys: SystemData::Func(
                FuncSystemData {
                    state: SystemStateData {
                        id: f.state.id,
                        name: f.state.name,
                        is_initialized: f.state.is_initialized,
                        archetype_component_access: f.state.archetype_component_access,
                        resource_access: f.state.resource_access,
                        query_archetype_component_accesses: f.state
                            .query_archetype_component_accesses,
                        query_accesses: f.state.query_accesses,
                        query_type_names: f.state.query_type_names,
                        commands: fin.cmds,
                    },
                    params: f.params,
                    query_names: f.query_names,
                    actions: f.actions,
                },
            ),
            world: fin.world,
            resources: fin.resources,
            out: Some(Value::Unit),
        }
    }
}

// ---------------------------------------------------------------------
// Initialization semantics
// ---------------------------------------------------------------------

/// What initializing one parameter does: borrows register their key and
/// make the resource present; queries allocate a per-parameter slot.
pub open spec fn init_step(
    p: ParamDescData,
    name: Seq<char>,
    st: SystemStateData,
    r: ResourcesData,
) -> (SystemStateData, ResourcesData) {
    match p {
        ParamDescData::Res(k) => (
            SystemStateData {
                resource_access: TypeAccessData {
                    reads: st.resource_access.reads.push(k),
                    writes: st.resource_access.writes,
                },
                ..st
            },
            r.ensure_int(k),
        ),
        ParamDescData::ChangedRes(k) => (
            SystemStateData {
                resource_access: TypeAccessData {
                    reads: st.resource_access.reads.push(k),
                    writes: st.resource_access.writes,
                },
                ..st
            },
            r.ensure_int(k),
        ),
        ParamDescData::ResMut(k) => (
            SystemStateData {
                resource_access: TypeAccessData {
                    reads: st.resource_access.reads,
                    writes: st.resource_access.writes.push(k),
                },
                ..st
            },
            r.ensure_int(k),
        ),
        ParamDescData::Query(s) => (
            SystemStateData {
                query_archetype_component_accesses: st.query_archetype_component_accesses.push(
                    TypeAccessData::empty(),
                ),
                query_accesses: st.query_accesses.push(seq![s]),
                query_type_names: st.query_type_names.push(name),
                ..st
            },
            r,
        ),
        ParamDescData::QuerySet(ss) => (
            SystemStateData {
                query_archetype_component_accesses: st.query_archetype_component_accesses.push(
                    TypeAccessData::empty(),
                ),
                query_accesses: st.query_accesses.push(ss),
                query_type_names: st.query_type_names.push(name),
                ..st
            },
            r,
        ),
        ParamDescData::Commands => (st, r),
    }
}

/// The state after initializing the first `n` parameters.
pub open spec fn init_prefix(
    params: Seq<ParamDescData>,
    names: Seq<Seq<char>>,
    st0: SystemStateData,
    r0: ResourcesData,
    n: int,
) -> (SystemStateData, ResourcesData)
    decreases n,
{
    if n <= 0 {
        (st0, r0)
    } else {
        init_step(
            params[n - 1],
            if 0 <= n - 1 < names.len() {
                names[n - 1]
            } else {
                Seq::empty()
            },
            init_prefix(params, names, st0, r0, n - 1).0,
            init_prefix(params, names, st0, r0, n - 1).1,
        )
    }
}

/// What one-time setup of a data-driven unit does: every parameter
/// registers its footprint, then the unit is marked initialized.
pub open spec fn func_init_spec(f: FuncSystemData, r: ResourcesData) -> (
    FuncSystemData,
    ResourcesData,
) {
    let st1 = init_prefix(f.params, f.query_names, f.state, r, f.params.len() as int).0;
    let r1 = init_prefix(f.params, f.query_names, f.state, r, f.params.len() as int).1;
    (
        FuncSystemData {
            state: SystemStateData { is_initialized: true, ..st1 },
            params: f.params,
            query_names: f.query_names,
            actions: f.actions,
        },
        r1,
    )
}

// ---------------------------------------------------------------------
// Access-recomputation (update) semantics
// ---------------------------------------------------------------------

/// The concrete footprint one shape has over the current store.
pub open spec fn shape_acc(w: WorldData, sh: QueryShapeData) -> TypeAccessData {
    TypeAccessData { reads: shape_read_slots(w, sh), writes: shape_write_slots(w, sh) }
}

/// The merged footprint of a list of shapes over the current store.
pub open spec fn shapes_access_prefix(w: WorldData, shapes: Seq<QueryShapeData>, n: int) -> TypeAccessData
    decreases n,
{
    if n <= 0 {
        TypeAccessData::empty()
    } else {
        shapes_access_prefix(w, shapes, n - 1).union_with(shape_acc(w, shapes[n - 1]))
    }
}

/// The first sub-query of a bundled parameter, at or after `s`, whose
/// footprint collides with the merge of the sub-queries before it.
pub open spec fn set_bad_from(qss: Seq<QueryShapeData>, w: WorldData, s: int) -> Option<int>
    decreases qss.len() - s,
{
    if s < 0 || s >= qss.len() {
        None
    } else if !shape_acc(w, qss[s]).compatible_with(shapes_access_prefix(w, qss, s)) {
        Some(s)
    } else {
        set_bad_from(qss, w, s + 1)
    }
}

/// The footprint one query parameter currently has.
pub open spec fn slot_acc(st: SystemStateData, w: WorldData, i: int) -> TypeAccessData {
    shapes_access_prefix(w, st.query_accesses[i], st.query_accesses[i].len() as int)
}

/// The merged footprint of the first `n` query parameters.
pub open spec fn acc_prefix(st: SystemStateData, w: WorldData, n: int) -> TypeAccessData
    decreases n,
{
    if n <= 0 {
        TypeAccessData::empty()
    } else {
        acc_prefix(st, w, n - 1).union_with(slot_acc(st, w, n - 1))
    }
}

/// The query parameter at position `i` is in conflict: two of its own
/// bundled sub-queries collide, or its footprint collides with the
/// merged footprint of the parameters before it.
pub open spec fn slot_bad(st: SystemStateData, w: WorldData, i: int) -> bool {
    set_bad_from(st.query_accesses[i], w, 0) is Some || !slot_acc(st, w, i).compatible_with(
        acc_prefix(st, w, i),
    )
}

/// The first query parameter, at or after `i`, found in conflict.
pub open spec fn first_bad_from(st: SystemStateData, w: WorldData, i: int) -> Option<int>
    decreases st.query_accesses.len() - i,
{
    if i < 0 || i >= st.query_accesses.len() {
        None
    } else if slot_bad(st, w, i) {
        Some(i)
    } else {
        first_bad_from(st, w, i + 1)
    }
}

/// The last query parameter before `j` that individually collides with
/// parameter `i`.
pub open spec fn last_bad_prior(st: SystemStateData, w: WorldData, i: int, j: int) -> Option<int>
    decreases j,
{
    if j <= 0 {
        None
    } else if !slot_acc(st, w, j - 1).compatible_with(slot_acc(st, w, i)) {
        Some(j - 1)
    } else {
        last_bad_prior(st, w, i, j - 1)
    }
}

/// What recomputing the footprint does to the bookkeeping alone: each
/// query parameter's slots are recomputed against the current store,
/// every pair of a bundled parameter's own sub-queries is validated
/// compatible, and each parameter is validated against the merge of its
/// predecessors.  The first parameter found in conflict is a
/// configuration error, reported with both colliding declarations'
/// labels, and leaves the bookkeeping untouched.
pub open spec fn state_update_spec(st: SystemStateData, w: WorldData) -> (
    SystemStateData,
    Option<ConflictData>,
) {
    let n = st.query_accesses.len() as int;
    match first_bad_from(st, w, 0) {
        None => (
            SystemStateData {
                archetype_component_access: acc_prefix(st, w, n),
                query_archetype_component_accesses: Seq::new(
                    st.query_accesses.len(),
                    |i: int| slot_acc(st, w, i),
                ),
                ..st
            },
            None,
        ),
        Some(i) => (
            st,
            Some(
                match set_bad_from(st.query_accesses[i], w, 0) {
                    Some(s) => ConflictData {
                        system_name: st.name,
                        query: st.query_type_names[i],
                        prior_query: st.query_type_names[i],
                        key: match first_conflict(
                            shape_acc(w, st.query_accesses[i][s]),
                            shapes_access_prefix(w, st.query_accesses[i], s),
                        ) {
                            Some(k) => k,
                            None => 0,
                        },
                    },
                    None => ConflictData {
                        system_name: st.name,
                        query: st.query_type_names[i],
                        prior_query: match last_bad_prior(st, w, i, i) {
                            Some(j) => st.query_type_names[j],
                            None => "Unknown"@,
                        },
                        key: match first_conflict(slot_acc(st, w, i), acc_prefix(st, w, i)) {
                            Some(k) => k,
                            None => 0,
                        },
                    },
                },
            ),
        ),
    }
}

/// What recomputing a data-driven unit's footprint does.
pub open spec fn func_update_spec(f: FuncSystemData, w: WorldData) -> (
    FuncSystemData,
    Option<ConflictData>,
) {
    (
        FuncSystemData {
            state: state_update_spec(f.state, w).0,
            params: f.params,
            query_names: f.query_names,
            actions: f.actions,
        },
        state_update_spec(f.state, w).1,
    )
}

// ---------------------------------------------------------------------
// Executable layer
// ---------------------------------------------------------------------

fn clone_u64_vec(v: &Vec<u64>) -> (r: Vec<u64>)
    ensures
        r@ == v@,
{
    let mut r: Vec<u64> = Vec::new();
    let mut i: usize = 0;
    while i < v.len()
        invariant
            0 <= i <= v@.len(),
            r@ == v@.take(i as int),
        decreases v@.len() - i,
    {
        r.push(v[i]);
        proof {
            assert(v@.take(i + 1) =~= v@.take(i as int).push(v@[i as int]));
        }
        i += 1;
    }
    proof {
        assert(v@.take(v@.len() as int) =~= v@);
    }
    r
}

fn clone_pairs(v: &Vec<(u64, i64)>) -> (r: Vec<(u64, i64)>)
    ensures
        r@ == v@,
{
    let mut r: Vec<(u64, i64)> = Vec::new();
    let mut i: usize = 0;
    while i < v.len()
        invariant
            0 <= i <= v@.len(),
            r@ == v@.take(i as int),
        decreases v@.len() - i,
    {
        r.push((v[i].0, v[i].1));
        proof {
            assert(v@[i as int] == (v@[i as int].0, v@[i as int].1));
            assert(v@.take(i + 1) =~= v@.take(i as int).push(v@[i as int]));
        }
        i += 1;
    }
    proof {
        assert(v@.take(v@.len() as int) =~= v@);
    }
    r
}

/// Copies a query shape.
pub fn clone_shape(s: &QueryShape) -> (r: QueryShape)
    ensures
        r@ == s@,
{
    QueryShape {
        filter: clone_u64_vec(&s.filter),
        reads: clone_u64_vec(&s.reads),
        writes: clone_u64_vec(&s.writes),
    }
}

fn clone_shapes(v: &Vec<QueryShape>) -> (r: Vec<QueryShape>)
    ensures
        r@.len() == v@.len(),
        forall|m: int| 0 <= m < v@.len() ==> (#[trigger] r@[m])@ == v@[m]@,
{
    let mut r: Vec<QueryShape> = Vec::new();
    let mut i: usize = 0;
    while i < v.len()
        invariant
            0 <= i <= v@.len(),
            r@.len() == i,
            forall|m: int| 0 <= m < i ==> (#[trigger] r@[m])@ == v@[m]@,
        decreases v@.len() - i,
    {
        let c = clone_shape(&v[i]);
        r.push(c);
        i += 1;
    }
    r
}

fn action_clone(a: &Action) -> (r: Action)
    ensures
        r@ == a@,
{
    match a {
        Action::SetRes { slot, value } => Action::SetRes { slot: *slot, value: *value },
        Action::AddRes { slot, delta } => Action::AddRes { slot: *slot, delta: *delta },
        Action::CopyInput { part, slot, missing } => Action::CopyInput {
            part: *part,
            slot: *slot,
            missing: *missing,
        },
        Action::QueryAdd { slot, sub, comp, delta } => Action::QueryAdd {
            slot: *slot,
            sub: *sub,
            comp: *comp,
            delta: *delta,
        },
        Action::QueryCountTo { slot, sub, target } => Action::QueryCountTo {
            slot: *slot,
            sub: *sub,
            target: *target,
        },
        Action::Spawn { slot, components } => Action::Spawn {
            slot: *slot,
            components: clone_pairs(components),
        },
        Action::Despawn { slot, entity } => Action::Despawn { slot: *slot, entity: *entity },
        Action::InsertResourceCmd { slot, key, value } => Action::InsertResourceCmd {
            slot: *slot,
            key: *key,
            value: *value,
        },
        Action::RemoveResourceCmd { slot, key } => Action::RemoveResourceCmd {
            slot: *slot,
            key: *key,
        },
    }
}

/// Computes the part of an input value an action reads.
fn input_part_exec(input: Value, part: usize, missing: i64) -> (r: i64)
    ensures
        r == input_part(input, part as int, missing),
{
    match input {
        Value::Int(v) => if part == 0 {
            v
        } else {
            missing
        },
        Value::Triple(a, b, c) => {
            if part == 0 {
                match a {
                    Some(v) => v,
                    None => missing,
                }
            } else if part == 1 {
                match b {
                    Some(v) => v,
                    None => missing,
                }
            } else if part == 2 {
                match c {
                    Some(v) => v,
                    None => missing,
                }
            } else {
                missing
            }
        },
        _ => missing,
    }
}

impl SystemState {
    /// Recomputes the per-parameter and merged footprints against the
    /// current store shape.  Two colliding query declarations of this
    /// one unit are a configuration error, reported fast with both
    /// declarations named; the bookkeeping is then left untouched.
    pub fn update(&mut self, world: &World) -> (r: Result<(), ConflictError>)
        requires
            old(self)@.swf(),
            world@.wf(),
        ensures
            final(self)@ == state_update_spec(old(self)@, world@).0,
            match r {
                Ok(()) => state_update_spec(old(self)@, world@).1 is None,
                Err(e) => state_update_spec(old(self)@, world@).1 == Some(e@),
            },
            final(self)@.swf(),
    {
        let ghost st0 = self@;
        let ghost wv = world@;
        let n = self.query_accesses.len();
        let mut new_accs: Vec<TypeAccess> = Vec::new();
        let mut acc = TypeAccess::new();
        let mut i: usize = 0;
        while i < n
            invariant
                st0 == old(self)@,
                wv == world@,
                st0.swf(),
                wv.wf(),
                self@ == st0,
                n == st0.query_accesses.len(),
                0 <= i <= n,
                acc@ == acc_prefix(st0, wv, i as int),
                new_accs@.len() == i,
                forall|j: int| 0 <= j < i ==> (#[trigger] new_accs@[j])@ == slot_acc(st0, wv, j),
                first_bad_from(st0, wv, 0) == first_bad_from(st0, wv, i as int),
            decreases n - i,
        {
            let mut qa = TypeAccess::new();
            let m = self.query_accesses[i].len();
            let mut k: usize = 0;
            while k < m
                invariant
                    st0 == old(self)@,
                    wv == world@,
                    st0.swf(),
                    wv.wf(),
                    self@ == st0,
                    0 <= (i as int) < st0.query_accesses.len(),
                    i < self.query_accesses.len(),
                    m == st0.query_accesses[i as int].len(),
                    0 <= k <= m,
                    qa@ == shapes_access_prefix(wv, st0.query_accesses[i as int], k as int),
                    set_bad_from(st0.query_accesses[i as int], wv, 0) == set_bad_from(
                        st0.query_accesses[i as int],
                        wv,
                        k as int,
                    ),
                    first_bad_from(st0, wv, 0) == first_bad_from(st0, wv, i as int),
                decreases m - k,
            {
                proof {
                    assert(self.query_accesses@[i as int]@[k as int]@ == st0.query_accesses[
                        i as int][k as int]);
                    assert(st0.query_accesses[i as int][k as int].wf());
                }
                let mut sa = TypeAccess::new();
                world.add_query_slots(&self.query_accesses[i][k], &mut sa);
                proof {
                    assert(sa@.reads =~= shape_acc(
                        wv,
                        st0.query_accesses[i as int][k as int],
                    ).reads);
                    assert(sa@.writes =~= shape_acc(
                        wv,
                        st0.query_accesses[i as int][k as int],
                    ).writes);
                    assert(sa@ =~= shape_acc(wv, st0.query_accesses[i as int][k as int]));
                }
                if !sa.is_compatible(&qa) {
                    // two sub-queries of this one bundled parameter collide
                    proof {
                        assert(set_bad_from(st0.query_accesses[i as int], wv, k as int) == Some(
                            k as int,
                        ));
                        assert(slot_bad(st0, wv, i as int));
                        assert(first_bad_from(st0, wv, i as int) == Some(i as int));
                    }
                    let key = match sa.get_conflict(&qa) {
                        Some(kk) => kk,
                        None => 0,
                    };
                    proof {
                        assert(set_bad_from(st0.query_accesses[i as int], wv, 0) == Some(
                            k as int,
                        ));
                    }
                    return Err(
                        ConflictError {
                            system_name: self.name.clone(),
                            query: self.query_type_names[i].clone(),
                            prior_query: self.query_type_names[i].clone(),
                            key,
                        },
                    );
                }
                qa.union(&sa);
                proof {
                    assert(qa@ == shapes_access_prefix(wv, st0.query_accesses[i as int], k + 1));
                    assert(set_bad_from(st0.query_accesses[i as int], wv, k as int)
                        == set_bad_from(st0.query_accesses[i as int], wv, k + 1));
                }
                k += 1;
            }
            proof {
                assert(qa@ == slot_acc(st0, wv, i as int));
                assert(set_bad_from(st0.query_accesses[i as int], wv, 0) is None);
            }
            if !qa.is_compatible(&acc) {
                proof {
                    assert(slot_bad(st0, wv, i as int));
                    assert(first_bad_from(st0, wv, i as int) == Some(i as int));
                }
                let key = match qa.get_conflict(&acc) {
                    Some(k) => k,
                    None => 0,
                };
                let mut jj: usize = i;
                while jj > 0
                    invariant
                        st0 == old(self)@,
                        wv == world@,
                        st0.swf(),
                        self@ == st0,
                        0 <= (i as int) < st0.query_accesses.len(),
                        i < self.query_accesses.len(),
                        0 <= jj <= i,
                        qa@ == slot_acc(st0, wv, i as int),
                        set_bad_from(st0.query_accesses[i as int], wv, 0) is None,
                        new_accs@.len() == i,
                        forall|j: int| 0 <= j < i ==> (#[trigger] new_accs@[j])@ == slot_acc(
                            st0,
                            wv,
                            j,
                        ),
                        first_bad_from(st0, wv, 0) == Some(i as int),
                        key == (match crate::access::first_conflict(
                            slot_acc(st0, wv, i as int),
                            acc_prefix(st0, wv, i as int),
                        ) {
                            Some(k) => k,
                            None => 0,
                        }),
                        last_bad_prior(st0, wv, i as int, i as int) == last_bad_prior(
                            st0,
                            wv,
                            i as int,
                            jj as int,
                        ),
                    decreases jj,
                {
                    if !new_accs[jj - 1].is_compatible(&qa) {
                        proof {
                            assert((new_accs@[jj - 1])@ == slot_acc(st0, wv, jj - 1));
                            assert(last_bad_prior(st0, wv, i as int, jj as int) == Some(jj - 1));
                        }
                        return Err(
                            ConflictError {
                                system_name: self.name.clone(),
                                query: self.query_type_names[i].clone(),
                                prior_query: self.query_type_names[jj - 1].clone(),
                                key,
                            },
                        );
                    }
                    proof {
                        assert((new_accs@[jj - 1])@ == slot_acc(st0, wv, jj - 1));
                        assert(last_bad_prior(st0, wv, i as int, jj as int) == last_bad_prior(
                            st0,
                            wv,
                            i as int,
                            jj - 1,
                        ));
                    }
                    jj -= 1;
                }
                proof {
                    assert(last_bad_prior(st0, wv, i as int, i as int) is None);
                }
                return Err(
                    ConflictError {
                        system_name: self.name.clone(),
                        query: self.query_type_names[i].clone(),
                        prior_query: "Unknown".to_owned(),
                        key,
                    },
                );
            }
            acc.union(&qa);
            new_accs.push(qa);
            proof {
                assert(acc@ == acc_prefix(st0, wv, i + 1));
                assert(!slot_bad(st0, wv, i as int));
                assert(first_bad_from(st0, wv, i as int) == first_bad_from(st0, wv, i + 1));
            }
            i += 1;
        }
        self.archetype_component_access = acc;
        self.query_archetype_component_accesses = new_accs;
        proof {
            assert(first_bad_from(st0, wv, 0) is None);
            assert(self@.query_archetype_component_accesses =~= Seq::new(
                st0.query_accesses.len(),
                |j: int| slot_acc(st0, wv, j),
            ));
            assert(self@ =~= state_update_spec(st0, wv).0);
        }
        Ok(())
    }
}

impl FuncSystem {
    /// Runs the unit: a change-gated unit whose resource is unmarked is
    /// skipped; otherwise the body runs in order, touching only what
    /// the parameters reach.
    pub fn run(&mut self, input: Value, world: &mut World, resources: &mut Resources) -> (r:
        Option<Value>)
        requires
            old(self)@.wf(),
            old(world)@.wf(),
        ensures
            final(self)@ == func_run_spec(old(self)@, input, old(world)@, old(resources)@).sys
                ->Func_0,
            final(world)@ == func_run_spec(old(self)@, input, old(world)@, old(resources)@).world,
            final(resources)@ == func_run_spec(
                old(self)@,
                input,
                old(world)@,
                old(resources)@,
            ).resources,
            r == func_run_spec(old(self)@, input, old(world)@, old(resources)@).out,
            final(self)@.wf(),
            final(world)@.wf(),
    {
        let ghost f0 = self@;
        let ghost w0 = world@;
        let ghost r0 = resources@;
        let mut gi: usize = 0;
        while gi < self.params.len()
            invariant
                f0 == old(self)@,
                w0 == old(world)@,
                r0 == old(resources)@,
                self@ == f0,
                world@ == w0,
                resources@ == r0,
                f0.wf(),
                w0.wf(),
                0 <= gi <= f0.params.len(),
                self.params@.len() == f0.params.len(),
                forall|j: int|
                    0 <= j < gi ==> ((#[trigger] f0.params[j]) is ChangedRes ==> r0.changed(
                        f0.params[j]->ChangedRes_0,
                    )),
            decreases f0.params.len() - gi,
        {
            let gated = match &self.params[gi] {
                ParamDesc::ChangedRes(k) => !resources.is_changed(*k),
                _ => false,
            };
            if gated {
                proof {
                    assert(f0.params[gi as int] is ChangedRes && !r0.changed(
                        f0.params[gi as int]->ChangedRes_0,
                    ));
                    assert(func_gated(f0.params, r0));
                }
                return None;
            }
            gi += 1;
        }
        proof {
            assert(!func_gated(f0.params, r0)) by {
                if func_gated(f0.params, r0) {
                    let i = choose|i: int|
                        0 <= i < f0.params.len() && (#[trigger] f0.params[i]) is ChangedRes
                            && !r0.changed(f0.params[i]->ChangedRes_0);
                    assert(r0.changed(f0.params[i]->ChangedRes_0));
                }
            }
        }
        let ghost st0 = FuncStep { cmds: f0.state.commands, world: w0, resources: r0 };
        let mut ai: usize = 0;
        while ai < self.actions.len()
            invariant
                f0 == old(self)@,
                w0 == old(world)@,
                r0 == old(resources)@,
                f0.wf(),
                w0.wf(),
                st0 == (FuncStep { cmds: f0.state.commands, world: w0, resources: r0 }),
                !func_gated(f0.params, r0),
                0 <= ai <= f0.actions.len(),
                self.actions@.len() == f0.actions.len(),
                self@.params == f0.params,
                self@.query_names == f0.query_names,
                self@.actions == f0.actions,
                self@.state.id == f0.state.id,
                self@.state.name == f0.state.name,
                self@.state.is_initialized == f0.state.is_initialized,
                self@.state.archetype_component_access == f0.state.archetype_component_access,
                self@.state.resource_access == f0.state.resource_access,
                self@.state.query_archetype_component_accesses == f0.state
                    .query_archetype_component_accesses,
                self@.state.query_accesses == f0.state.query_accesses,
                self@.state.query_type_names == f0.state.query_type_names,
                (FuncStep { cmds: self@.state.commands, world: world@, resources: resources@ })
                    == acts_prefix(f0.actions, f0.params, input, st0, ai as int),
                world@.wf(),
                self@.state.commands.wf(),
            decreases f0.actions.len() - ai,
        {
            let ghost pre = acts_prefix(f0.actions, f0.params, input, st0, ai as int);
            let a = action_clone(&self.actions[ai]);
            proof {
                assert(a@ == f0.actions[ai as int]);
                assert(action_wf(f0.actions[ai as int], f0.params));
                assert(self.params@.len() == f0.params.len());
                assert(forall|j: int|
                    0 <= j < f0.params.len() ==> (#[trigger] self.params@[j])@ == f0.params[j]);
            }
            match a {
                Action::SetRes { slot, value } => {
                    match &self.params[slot] {
                        ParamDesc::ResMut(k) => {
                            resources.insert_int(*k, value);
                        },
                        _ => {
                            proof {
                                assert(false);
                            }
                        },
                    }
                },
                Action::AddRes { slot, delta } => {
                    match &self.params[slot] {
                        ParamDesc::ResMut(k) => {
                            let cur = match resources.get_int(*k) {
                                Some(v) => v,
                                None => 0,
                            };
                            resources.insert_int(*k, cur.wrapping_add(delta));
                        },
                        _ => {
                            proof {
                                assert(false);
                            }
                        },
                    }
                },
                Action::CopyInput { part, slot, missing } => {
                    let v = input_part_exec(input, part, missing);
                    match &self.params[slot] {
                        ParamDesc::ResMut(k) => {
                            resources.insert_int(*k, v);
                        },
                        _ => {
                            proof {
                                assert(false);
                            }
                        },
                    }
                },
                Action::QueryAdd { slot, sub, comp, delta } => {
                    match &self.params[slot] {
                        ParamDesc::Query(s) => {
                            proof {
                                assert(param_wf(f0.params[slot as int]));
                                assert(s@ == f0.params[slot as int]->Query_0);
                                assert(sub == 0);
                                assert(s@.wf());
                            }
                            world.query_add(s, comp, delta);
                        },
                        ParamDesc::QuerySet(ss) => {
                            proof {
                                assert(param_wf(f0.params[slot as int]));
                                assert(ss@.map_values(|q: QueryShape| q@) == f0.params[
                                    slot as int]->QuerySet_0);
                                assert((sub as int) < ss@.len());
                                assert(ss@[sub as int]@ == f0.params[
                                    slot as int]->QuerySet_0[sub as int]);
                                assert(ss@[sub as int]@.wf());
                            }
                            world.query_add(&ss[sub], comp, delta);
                        },
                        _ => {
                            proof {
                                assert(false);
                            }
                        },
                    }
                },
                Action::QueryCountTo { slot, sub, target } => {
                    let cnt = match &self.params[slot] {
                        ParamDesc::Query(s) => {
                            proof {
                                assert(param_wf(f0.params[slot as int]));
                                assert(s@ == f0.params[slot as int]->Query_0);
                                assert(sub == 0);
                            }
                            world.query_count(s)
                        },
                        ParamDesc::QuerySet(ss) => {
                            proof {
                                assert(param_wf(f0.params[slot as int]));
                                assert(ss@.map_values(|q: QueryShape| q@) == f0.params[
                                    slot as int]->QuerySet_0);
                                assert((sub as int) < ss@.len());
                                assert(ss@[sub as int]@ == f0.params[
                                    slot as int]->QuerySet_0[sub as int]);
                            }
                            world.query_count(&ss[sub])
                        },
                        _ => {
                            proof {
                                assert(false);
                            }
                            0
                        },
                    };
                    let v: i64 = if (cnt as u64) > 0x7fff_ffff_ffff_ffffu64 {
                        i64::MAX
                    } else {
                        cnt as i64
                    };
                    match &self.params[target] {
                        ParamDesc::ResMut(k) => {
                            resources.insert_int(*k, v);
                        },
                        _ => {
                            proof {
                                assert(false);
                            }
                        },
                    }
                },
                Action::Spawn { slot, components } => {
                    match &self.params[slot] {
                        ParamDesc::Commands => {
                            self.state.commands.spawn(components);
                        },
                        _ => {
                            proof {
                                assert(false);
                            }
                        },
                    }
                },
                Action::Despawn { slot, entity } => {
                    match &self.params[slot] {
                        ParamDesc::Commands => {
                            self.state.commands.despawn(entity);
                        },
                        _ => {
                            proof {
                                assert(false);
                            }
                        },
                    }
                },
                Action::InsertResourceCmd { slot, key, value } => {
                    match &self.params[slot] {
                        ParamDesc::Commands => {
                            self.state.commands.insert_resource(key, value);
                        },
                        _ => {
                            proof {
                                assert(false);
                            }
                        },
                    }
                },
                Action::RemoveResourceCmd { slot, key } => {
                    match &self.params[slot] {
                        ParamDesc::Commands => {
                            self.state.commands.remove_resource(key);
                        },
                        _ => {
                            proof {
                                assert(false);
                            }
                        },
                    }
                },
            }
            proof {
                assert((FuncStep {
                    cmds: self@.state.commands,
                    world: world@,
                    resources: resources@,
                }) =~= act_step(f0.actions[ai as int], f0.params, input, pre));
                assert((FuncStep {
                    cmds: self@.state.commands,
                    world: world@,
                    resources: resources@,
                }) == acts_prefix(f0.actions, f0.params, input, st0, ai + 1));
            }
            ai += 1;
        }
        proof {
            let fin = acts_prefix(f0.actions, f0.params, input, st0, f0.actions.len() as int);
            assert(self@.state =~= (SystemStateData { commands: fin.cmds, ..f0.state }));
            assert(self@ =~= func_run_spec(f0, input, w0, r0).sys->Func_0);
        }
        Some(Value::Unit)
    }

    /// One-time setup: every parameter registers its footprint and
    /// makes its resource present, then the unit is marked initialized.
    pub fn initialize(&mut self, resources: &mut Resources)
        requires
            old(self)@.wf(),
        ensures
            final(self)@ == func_init_spec(old(self)@, old(resources)@).0,
            final(resources)@ == func_init_spec(old(self)@, old(resources)@).1,
            final(self)@.wf(),
            final(self)@.state.is_initialized,
    {
        let ghost f0 = self@;
        let ghost r0 = resources@;
        let mut i: usize = 0;
        while i < self.params.len()
            invariant
                f0 == old(self)@,
                r0 == old(resources)@,
                f0.wf(),
                0 <= i <= f0.params.len(),
                self.params@.len() == f0.params.len(),
                self@.params == f0.params,
                self@.query_names == f0.query_names,
                self@.actions == f0.actions,
                self@.state == init_prefix(f0.params, f0.query_names, f0.state, r0, i as int).0,
                resources@ == init_prefix(f0.params, f0.query_names, f0.state, r0, i as int).1,
            decreases f0.params.len() - i,
        {
            let ghost stp = init_prefix(f0.params, f0.query_names, f0.state, r0, i as int).0;
            let ghost rp = init_prefix(f0.params, f0.query_names, f0.state, r0, i as int).1;
            let ghost nm = if 0 <= (i as int) < f0.query_names.len() {
                f0.query_names[i as int]
            } else {
                Seq::<char>::empty()
            };
            proof {
                assert(self.params@.len() == f0.params.len());
                assert(self.params@[i as int]@ == f0.params[i as int]);
                assert(self.query_names@.len() == f0.query_names.len());
            }
            match &self.params[i] {
                ParamDesc::Res(k) => {
                    resources.ensure_int(*k);
                    self.state.resource_access.add_read(*k);
                },
                ParamDesc::ChangedRes(k) => {
                    resources.ensure_int(*k);
                    self.state.resource_access.add_read(*k);
                },
                ParamDesc::ResMut(k) => {
                    resources.ensure_int(*k);
                    self.state.resource_access.add_write(*k);
                },
                ParamDesc::Query(s) => {
                    let sc = clone_shape(s);
                    let ghost scv = sc@;
                    self.state.query_archetype_component_accesses.push(TypeAccess::new());
                    let mut one: Vec<QueryShape> = Vec::new();
                    one.push(sc);
                    proof {
                        assert(scv == f0.params[i as int]->Query_0);
                        assert(one@.map_values(|q: QueryShape| q@) =~= seq![scv]);
                    }
                    self.state.query_accesses.push(one);
                    let nm_e = if i < self.query_names.len() {
                        self.query_names[i].clone()
                    } else {
                        String::new()
                    };
                    proof {
                        assert(nm_e@ == nm);
                    }
                    self.state.query_type_names.push(nm_e);
                },
                ParamDesc::QuerySet(ss) => {
                    let sc = clone_shapes(ss);
                    let ghost scv = sc@.map_values(|q: QueryShape| q@);
                    proof {
                        assert(scv =~= ss@.map_values(|q: QueryShape| q@));
                        assert(scv == f0.params[i as int]->QuerySet_0);
                    }
                    self.state.query_archetype_component_accesses.push(TypeAccess::new());
                    self.state.query_accesses.push(sc);
                    let nm_e = if i < self.query_names.len() {
                        self.query_names[i].clone()
                    } else {
                        String::new()
                    };
                    proof {
                        assert(nm_e@ == nm);
                    }
                    self.state.query_type_names.push(nm_e);
                },
                ParamDesc::Commands => {},
            }
            proof {
                let stepped = init_step(f0.params[i as int], nm, stp, rp);
                assert(self@.state =~= stepped.0);
                assert(resources@ =~= stepped.1);
                assert(self@.state == init_prefix(
                    f0.params,
                    f0.query_names,
                    f0.state,
                    r0,
                    i + 1,
                ).0);
                assert(resources@ == init_prefix(
                    f0.params,
                    f0.query_names,
                    f0.state,
                    r0,
                    i + 1,
                ).1);
            }
            i += 1;
        }
        self.state.is_initialized = true;
        proof {
            assert(self@ =~= func_init_spec(f0, r0).0);
            lemma_init_prefix_swf(f0.params, f0.query_names, f0.state, r0, f0.params.len() as int);
        }
    }
}

/// Initialization keeps the bookkeeping invariant.
proof fn lemma_init_prefix_swf(
    params: Seq<ParamDescData>,
    names: Seq<Seq<char>>,
    st0: SystemStateData,
    r0: ResourcesData,
    n: int,
)
    requires
        st0.swf(),
        forall|i: int| 0 <= i < params.len() ==> param_wf(#[trigger] params[i]),
        n <= params.len(),
    ensures
        init_prefix(params, names, st0, r0, n).0.swf(),
    decreases n,
{
    if n > 0 {
        lemma_init_prefix_swf(params, names, st0, r0, n - 1);
        let stp = init_prefix(params, names, st0, r0, n - 1).0;
        let stn = init_prefix(params, names, st0, r0, n).0;
        match params[n - 1] {
            ParamDescData::Query(s) => {
                assert forall|i: int, j: int|
                    0 <= i < stn.query_accesses.len() && 0 <= j < stn.query_accesses[i].len()
                        implies (#[trigger] stn.query_accesses[i][j]).wf() by {
                    if i < stp.query_accesses.len() {
                        assert(stn.query_accesses[i] == stp.query_accesses[i]);
                        assert(stp.query_accesses[i][j].wf());
                    } else {
                        assert(stn.query_accesses[i] == seq![s]);
                        assert(param_wf(params[n - 1]));
                    }
                }
            },
            ParamDescData::QuerySet(ss) => {
                assert forall|i: int, j: int|
                    0 <= i < stn.query_accesses.len() && 0 <= j < stn.query_accesses[i].len()
                        implies (#[trigger] stn.query_accesses[i][j]).wf() by {
                    if i < stp.query_accesses.len() {
                        assert(stn.query_accesses[i] == stp.query_accesses[i]);
                        assert(stp.query_accesses[i][j].wf());
                    } else {
                        assert(stn.query_accesses[i] == ss);
                        assert(param_wf(params[n - 1]));
                    }
                }
            },
            _ => {},
        }
    }
}


// ---------------------------------------------------------------------
// Building units from descriptors
// ---------------------------------------------------------------------

/// Why a descriptor was rejected.
#[derive(Debug, Copy, Clone, PartialEq, Eq, Structural)]
pub enum BuildError {
    /// A label is missing, a shape names an unencodable key, or an
    /// action does not fit its parameter.
    InvalidDescriptor,
}

/// Spec-level mirror of a [`SystemDesc`].
#[verifier::ext_equal]
pub struct SystemDescData {
    pub name: Seq<char>,
    pub id: SystemId,
    pub params: Seq<ParamDescData>,
    pub query_names: Seq<Seq<char>>,
    pub actions: Seq<ActionData>,
}

/// An authored unit of work, before validation: a name, an identifier,
/// parameter descriptors with one label each, and a body.
pub struct SystemDesc {
    /// The unit's display name.
    pub name: String,
    /// The unit's identifier.
    pub id: SystemId,
    /// The capability requests, in declaration order.
    pub params: Vec<ParamDesc>,
    /// One label per parameter, used by query diagnostics.
    pub query_names: Vec<String>,
    /// The interpreted body.
    pub actions: Vec<Action>,
}

impl View for SystemDesc {
    type V = SystemDescData;

    open spec fn view(&self) -> SystemDescData {
        SystemDescData {
            name: self.name@,
            id: self.id,
            params: self.params@.map_values(|p: ParamDesc| p@),
            query_names: self.query_names@.map_values(|n: String| n@),
            actions: self.actions@.map_values(|a: Action| a@),
        }
    }
}

/// A descriptor that yields a well-formed unit: labels aligned, shapes
/// well formed, every action fitting its parameter.
pub open spec fn desc_valid(d: SystemDescData) -> bool {
    &&& d.params.len() == d.query_names.len()
    &&& forall|i: int| 0 <= i < d.params.len() ==> param_wf(#[trigger] d.params[i])
    &&& forall|i: int| 0 <= i < d.actions.len() ==> action_wf(#[trigger] d.actions[i], d.params)
}

/// The freshly built unit a valid descriptor yields.
pub open spec fn built_func(d: SystemDescData) -> FuncSystemData {
    FuncSystemData {
        state: SystemStateData {
            id: d.id,
            name: d.name,
            is_initialized: false,
            archetype_component_access: TypeAccessData::empty(),
            resource_access: TypeAccessData::empty(),
            query_archetype_component_accesses: Seq::empty(),
            query_accesses: Seq::empty(),
            query_type_names: Seq::empty(),
            commands: CommandsData { queue: Seq::empty() },
        },
        params: d.params,
        query_names: d.query_names,
        actions: d.actions,
    }
}

/// Whether every key of `v` is below the slot-key bound.
fn keys_below(v: &Vec<u64>) -> (r: bool)
    ensures
        r == crate::world::keys_bounded(v@),
{
    let mut i: usize = 0;
    while i < v.len()
        invariant
            0 <= i <= v@.len(),
            forall|j: int| 0 <= j < i ==> v@[j] < crate::world::COMPONENT_KEY_LIMIT,
        decreases v@.len() - i,
    {
        if v[i] >= crate::world::COMPONENT_KEY_LIMIT {
            return false;
        }
        i += 1;
    }
    true
}

/// Checks that a shape only names encodable keys.
pub fn shape_ok(s: &QueryShape) -> (r: bool)
    ensures
        r == s@.wf(),
{
    let r = keys_below(&s.filter) && keys_below(&s.reads) && keys_below(&s.writes);
    proof {
        let req = s@.required();
        let nf = s@.filter.len() as int;
        let nr = s@.reads.len() as int;
        if r {
            assert forall|i: int| 0 <= i < req.len() implies (#[trigger] req[i])
                < crate::world::COMPONENT_KEY_LIMIT by {
                if i < nf {
                    assert(req[i] == s@.filter[i]);
                } else if i < nf + nr {
                    assert(req[i] == s@.reads[i - nf]);
                } else {
                    assert(req[i] == s@.writes[i - nf - nr]);
                }
            }
        } else {
            if !crate::world::keys_bounded(s@.filter) {
                let i = choose|i: int| 0 <= i < s@.filter.len() && !((#[trigger] s@.filter[i])
                    < crate::world::COMPONENT_KEY_LIMIT);
                assert(req[i] == s@.filter[i]);
                assert(!s@.wf());
            } else if !crate::world::keys_bounded(s@.reads) {
                let i = choose|i: int| 0 <= i < s@.reads.len() && !((#[trigger] s@.reads[i])
                    < crate::world::COMPONENT_KEY_LIMIT);
                assert(req[nf + i] == s@.reads[i]);
                assert(!s@.wf());
            } else {
                let i = choose|i: int| 0 <= i < s@.writes.len() && !((#[trigger] s@.writes[i])
                    < crate::world::COMPONENT_KEY_LIMIT);
                assert(req[nf + nr + i] == s@.writes[i]);
                assert(!s@.wf());
            }
        }
    }
    r
}

proof fn lemma_adjacent_lt(s: Seq<u64>, i: int, j: int)
    requires
        forall|m: int| 0 <= m < s.len() - 1 ==> (#[trigger] s[m]) < s[m + 1],
        0 <= i < j < s.len(),
    ensures
        s[i] < s[j],
    decreases j - i,
{
    if j > i + 1 {
        lemma_adjacent_lt(s, i, j - 1);
        assert(s[j - 1] < s[j]);
    } else {
        assert(s[i] < s[i + 1]);
    }
}

/// Checks that a component list is canonical: strictly increasing,
/// bounded keys.
pub fn components_ok(v: &Vec<(u64, i64)>) -> (r: bool)
    ensures
        r == components_wf(v@),
{
    let ghost keys = crate::world::layout_of(v@);
    let mut i: usize = 0;
    while i < v.len()
        invariant
            keys == crate::world::layout_of(v@),
            keys.len() == v@.len(),
            0 <= i <= v@.len(),
            forall|j: int| 0 <= j < i ==> (#[trigger] keys[j]) < crate::world::COMPONENT_KEY_LIMIT,
            forall|j: int| 0 <= j < i && j < v@.len() - 1 ==> (#[trigger] keys[j]) < keys[j + 1],
        decreases v@.len() - i,
    {
        if v[i].0 >= crate::world::COMPONENT_KEY_LIMIT {
            proof {
                assert(keys[i as int] == v@[i as int].0);
                assert(!crate::world::keys_bounded(keys));
            }
            return false;
        }
        if i + 1 < v.len() {
            if v[i].0 >= v[i + 1].0 {
                proof {
                    assert(keys[i as int] == v@[i as int].0);
                    assert(keys[i + 1] == v@[i + 1].0);
                    assert(!crate::world::strictly_sorted(keys));
                }
                return false;
            }
        }
        proof {
            assert(keys[i as int] == v@[i as int].0);
            if (i as int) < v@.len() - 1 {
                assert(keys[i + 1] == v@[i + 1].0);
            }
        }
        i += 1;
    }
    proof {
        assert forall|m: int, n: int| 0 <= m < n < keys.len() implies (#[trigger] keys[m])
            < #[trigger] keys[n] by {
            lemma_adjacent_lt(keys, m, n);
        }
    }
    true
}

/// Checks one action against the parameter list.
pub fn action_ok(a: &Action, params: &Vec<ParamDesc>) -> (r: bool)
    ensures
        r == action_wf(a@, params@.map_values(|p: ParamDesc| p@)),
{
    let ghost pv = params@.map_values(|p: ParamDesc| p@);
    proof {
        assert(pv.len() == params@.len());
        assert(forall|j: int| 0 <= j < params@.len() ==> (#[trigger] params@[j])@ == pv[j]);
    }
    match a {
        Action::SetRes { slot, value: _ } => is_res_mut(params, *slot),
        Action::AddRes { slot, delta: _ } => is_res_mut(params, *slot),
        Action::CopyInput { part: _, slot, missing: _ } => is_res_mut(params, *slot),
        Action::QueryAdd { slot, sub, comp, delta: _ } => shape_writes_comp(
            params,
            *slot,
            *sub,
            *comp,
        ),
        Action::QueryCountTo { slot, sub, target } => has_shape(params, *slot, *sub)
            && is_res_mut(params, *target),
        Action::Spawn { slot, components } => is_commands(params, *slot) && components_ok(
            components,
        ),
        Action::Despawn { slot, entity: _ } => is_commands(params, *slot),
        Action::InsertResourceCmd { slot, key: _, value: _ } => is_commands(params, *slot),
        Action::RemoveResourceCmd { slot, key: _ } => is_commands(params, *slot),
    }
}

/// Whether `slot` addresses an exclusive resource borrow.
fn is_res_mut(params: &Vec<ParamDesc>, slot: usize) -> (r: bool)
    ensures
        r == (0 <= (slot as int) < params@.len() && params@.map_values(|p: ParamDesc| p@)[
            slot as int] is ResMut),
{
    if slot < params.len() {
        match &params[slot] {
            ParamDesc::ResMut(_) => true,
            _ => false,
        }
    } else {
        false
    }
}

/// Whether `slot` addresses the deferred buffer.
fn is_commands(params: &Vec<ParamDesc>, slot: usize) -> (r: bool)
    ensures
        r == (0 <= (slot as int) < params@.len() && params@.map_values(|p: ParamDesc| p@)[
            slot as int] is Commands),
{
    if slot < params.len() {
        match &params[slot] {
            ParamDesc::Commands => true,
            _ => false,
        }
    } else {
        false
    }
}

/// Whether (slot, sub) addresses a declared query shape that declares
/// a write of `comp`.
fn shape_writes_comp(params: &Vec<ParamDesc>, slot: usize, sub: usize, comp: u64) -> (r: bool)
    ensures
        r == match param_shape(params@.map_values(|p: ParamDesc| p@), slot as int, sub as int) {
            Some(sh) => sh.writes.contains(comp),
            None => false,
        },
{
    if slot < params.len() {
        match &params[slot] {
            ParamDesc::Query(s) => {
                if sub == 0 {
                    crate::access::slice_contains(&s.writes, comp)
                } else {
                    false
                }
            },
            ParamDesc::QuerySet(ss) => {
                if sub < ss.len() {
                    proof {
                        let mapped = params@.map_values(|p: ParamDesc| p@);
                        assert(params@[slot as int]@ == mapped[slot as int]);
                        assert(ss@[sub as int]@ == mapped[slot as int]->QuerySet_0[sub as int]);
                    }
                    crate::access::slice_contains(&ss[sub].writes, comp)
                } else {
                    false
                }
            },
            _ => false,
        }
    } else {
        false
    }
}

/// Whether (slot, sub) addresses a declared query shape.
fn has_shape(params: &Vec<ParamDesc>, slot: usize, sub: usize) -> (r: bool)
    ensures
        r == param_shape(params@.map_values(|p: ParamDesc| p@), slot as int, sub as int) is Some,
{
    if slot < params.len() {
        match &params[slot] {
            ParamDesc::Query(_) => sub == 0,
            ParamDesc::QuerySet(ss) => sub < ss.len(),
            _ => false,
        }
    } else {
        false
    }
}

/// Checks one parameter's shapes.
fn param_ok(p: &ParamDesc) -> (r: bool)
    ensures
        r == param_wf(p@),
{
    match p {
        ParamDesc::Query(s) => shape_ok(s),
        ParamDesc::QuerySet(ss) => {
            let mut i: usize = 0;
            while i < ss.len()
                invariant
                    0 <= i <= ss@.len(),
                    p@ == ParamDescData::QuerySet(ss@.map_values(|s: QueryShape| s@)),
                    forall|j: int| 0 <= j < i ==> (#[trigger] ss@[j])@.wf(),
                decreases ss@.len() - i,
            {
                if !shape_ok(&ss[i]) {
                    proof {
                        let mapped = p@->QuerySet_0;
                        assert(mapped[i as int] == ss@[i as int]@);
                        assert(!mapped[i as int].wf());
                        assert(!param_wf(p@));
                    }
                    return false;
                }
                i += 1;
            }
            proof {
                let mapped = p@->QuerySet_0;
                assert forall|j: int| 0 <= j < mapped.len() implies (#[trigger] mapped[j]).wf() by {
                    assert(mapped[j] == ss@[j]@);
                    assert(ss@[j]@.wf());
                }
            }
            true
        },
        _ => true,
    }
}

/// Anything that can be turned into a runnable unit of work.
pub trait IntoSystem: Sized {
    /// Builds the unit, rejecting a descriptor whose pieces do not fit
    /// together.  A built unit is well formed.
    fn system(self) -> (r: Result<System, BuildError>)
        ensures
            r is Ok ==> (r->Ok_0)@.wf(),
    ;
}

impl SystemDesc {
    /// A descriptor with a freshly drawn identifier and no parameters.
    pub fn new(name: &str) -> (r: SystemDesc)
        ensures
            r@.name == name@,
            r@.params == Seq::<ParamDescData>::empty(),
            r@.query_names == Seq::<Seq<char>>::empty(),
            r@.actions == Seq::<ActionData>::empty(),
    {
        let r = SystemDesc {
            name: name.to_owned(),
            id: SystemId::new(),
            params: Vec::new(),
            query_names: Vec::new(),
            actions: Vec::new(),
        };
        proof {
            assert(r@.params =~= Seq::<ParamDescData>::empty());
            assert(r@.query_names =~= Seq::<Seq<char>>::empty());
            assert(r@.actions =~= Seq::<ActionData>::empty());
        }
        r
    }

    /// The same descriptor under a chosen identifier.
    pub fn with_id(self, id: SystemId) -> (r: SystemDesc)
        ensures
            r@ == (SystemDescData { id, ..self@ }),
    {
        SystemDesc {
            name: self.name,
            id,
            params: self.params,
            query_names: self.query_names,
            actions: self.actions,
        }
    }

    fn push_param(self, p: ParamDesc, label: String) -> (r: SystemDesc)
        ensures
            r@ == (SystemDescData {
                params: self@.params.push(p@),
                query_names: self@.query_names.push(label@),
                ..self@
            }),
    {
        let ghost pv = p@;
        let ghost lv = label@;
        let mut params = self.params;
        let mut query_names = self.query_names;
        params.push(p);
        query_names.push(label);
        let r = SystemDesc {
            name: self.name,
            id: self.id,
            params,
            query_names,
            actions: self.actions,
        };
        proof {
            assert(r@.params =~= self@.params.push(pv));
            assert(r@.query_names =~= self@.query_names.push(lv));
        }
        r
    }

    /// Adds a shared resource borrow.
    pub fn res(self, key: u64) -> (r: SystemDesc)
        ensures
            r@ == (SystemDescData {
                params: self@.params.push(ParamDescData::Res(key)),
                query_names: self@.query_names.push(Seq::<char>::empty()),
                ..self@
            }),
    {
        self.push_param(ParamDesc::Res(key), String::new())
    }

    /// Adds an exclusive resource borrow.
    pub fn res_mut(self, key: u64) -> (r: SystemDesc)
        ensures
            r@ == (SystemDescData {
                params: self@.params.push(ParamDescData::ResMut(key)),
                query_names: self@.query_names.push(Seq::<char>::empty()),
                ..self@
            }),
    {
        self.push_param(ParamDesc::ResMut(key), String::new())
    }

    /// Adds a change-gated shared resource borrow.
    pub fn changed_res(self, key: u64) -> (r: SystemDesc)
        ensures
            r@ == (SystemDescData {
                params: self@.params.push(ParamDescData::ChangedRes(key)),
                query_names: self@.query_names.push(Seq::<char>::empty()),
                ..self@
            }),
    {
        self.push_param(ParamDesc::ChangedRes(key), String::new())
    }

    /// Adds a deferred-mutation buffer handle.
    pub fn commands(self) -> (r: SystemDesc)
        ensures
            r@ == (SystemDescData {
                params: self@.params.push(ParamDescData::Commands),
                query_names: self@.query_names.push(Seq::<char>::empty()),
                ..self@
            }),
    {
        self.push_param(ParamDesc::Commands, String::new())
    }

    /// Adds a labeled query over one shape.
    pub fn query(self, shape: QueryShape, label: &str) -> (r: SystemDesc)
        ensures
            r@ == (SystemDescData {
                params: self@.params.push(ParamDescData::Query(shape@)),
                query_names: self@.query_names.push(label@),
                ..self@
            }),
    {
        self.push_param(ParamDesc::Query(shape), label.to_owned())
    }

    /// Adds a labeled bundle of query shapes behind one parameter.
    pub fn query_set(self, shapes: Vec<QueryShape>, label: &str) -> (r: SystemDesc)
        ensures
            r@ == (SystemDescData {
                params: self@.params.push(
                    ParamDescData::QuerySet(shapes@.map_values(|s: QueryShape| s@)),
                ),
                query_names: self@.query_names.push(label@),
                ..self@
            }),
    {
        self.push_param(ParamDesc::QuerySet(shapes), label.to_owned())
    }

    /// Appends one body step.
    pub fn action(self, a: Action) -> (r: SystemDesc)
        ensures
            r@ == (SystemDescData { actions: self@.actions.push(a@), ..self@ }),
    {
        let ghost av = a@;
        let mut actions = self.actions;
        actions.push(a);
        let r = SystemDesc {
            name: self.name,
            id: self.id,
            params: self.params,
            query_names: self.query_names,
            actions,
        };
        proof {
            assert(r@.actions =~= self@.actions.push(av));
        }
        r
    }
}

impl IntoSystem for SystemDesc {
    /// Builds the unit.  A descriptor is rejected, never silently
    /// repaired, exactly when a label is missing, a shape names an
    /// unencodable key, or an action does not fit its parameter.
    fn system(self) -> (r: Result<System, BuildError>)
        ensures
            r is Ok <==> desc_valid(self@),
            r is Ok ==> (r->Ok_0)@ == SystemData::Func(built_func(self@)),
            r is Ok ==> (r->Ok_0)@.wf(),
            r is Err ==> r->Err_0 == BuildError::InvalidDescriptor,
    {
        if self.params.len() != self.query_names.len() {
            return Err(BuildError::InvalidDescriptor);
        }
        let mut i: usize = 0;
        while i < self.params.len()
            invariant
                0 <= i <= self@.params.len(),
                self.params@.len() == self@.params.len(),
                forall|j: int| 0 <= j < i ==> param_wf(#[trigger] self@.params[j]),
            decreases self@.params.len() - i,
        {
            if !param_ok(&self.params[i]) {
                proof {
                    assert(!param_wf(self@.params[i as int]));
                }
                return Err(BuildError::InvalidDescriptor);
            }
            proof {
                assert(self.params@[i as int]@ == self@.params[i as int]);
            }
            i += 1;
        }
        let mut k: usize = 0;
        while k < self.actions.len()
            invariant
                0 <= k <= self@.actions.len(),
                self.actions@.len() == self@.actions.len(),
                forall|j: int| 0 <= j < k ==> action_wf(#[trigger] self@.actions[j], self@.params),
            decreases self@.actions.len() - k,
        {
            if !action_ok(&self.actions[k], &self.params) {
                proof {
                    assert(!action_wf(self@.actions[k as int], self@.params));
                }
                return Err(BuildError::InvalidDescriptor);
            }
            proof {
                assert(self.actions@[k as int]@ == self@.actions[k as int]);
            }
            k += 1;
        }
        let state = SystemState {
            id: self.id,
            name: self.name,
            is_initialized: false,
            archetype_component_access: TypeAccess::new(),
            resource_access: TypeAccess::new(),
            query_archetype_component_accesses: Vec::new(),
            query_accesses: Vec::new(),
            query_type_names: Vec::new(),
            commands: Commands::new(),
        };
        let func = FuncSystem {
            state,
            params: self.params,
            query_names: self.query_names,
            actions: self.actions,
        };
        proof {
            assert(func@.state.query_archetype_component_accesses =~= Seq::<
                TypeAccessData,
            >::empty());
            assert(func@.state.query_accesses =~= Seq::<Seq<QueryShapeData>>::empty());
            assert(func@.state.query_type_names =~= Seq::<Seq<char>>::empty());
            assert(func@ =~= built_func(
                SystemDescData {
                    name: func@.state.name,
                    id: func@.state.id,
                    params: func@.params,
                    query_names: func@.query_names,
                    actions: func@.actions,
                },
            ));
        }
        Ok(System::Func(func))
    }
}

} // verus!
