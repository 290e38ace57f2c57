//! The deferred-mutation buffer: an ordered log of structural changes a
//! unit of work records during its data-access phase.  The buffer is
//! drained exactly once, in submission order, at the unit's thread-local
//! flush point — the only place structural state is ever mutated.

use vstd::prelude::*;
use crate::resources::{Resources, ResourcesData};
use crate::world::{components_wf, despawn_spec, spawn_spec, World, WorldData};

verus! {

/// Spec-level mirror of a [`Command`].
pub enum CommandData {
    /// Create an entity carrying the given components.
    Spawn(Seq<(u64, i64)>),
    /// Destroy the entity.
    Despawn(u64),
    /// Store a plain resource value.
    InsertResource(u64, i64),
    /// Drop the resource entry.
    RemoveResource(u64),
}

impl CommandData {
    /// Spawned component lists are canonical: sorted, bounded keys.
    pub open spec fn wf(self) -> bool {
        match self {
            CommandData::Spawn(comps) => components_wf(comps),
            _ => true,
        }
    }
}

/// One recorded structural mutation.
pub enum Command {
    /// Create an entity carrying the given components.
    Spawn(Vec<(u64, i64)>),
    /// Destroy the entity.
    Despawn(u64),
    /// Store a plain resource value.
    InsertResource(u64, i64),
    /// Drop the resource entry.
    RemoveResource(u64),
}

impl View for Command {
    type V = CommandData;

    open spec fn view(&self) -> CommandData {
        match self {
            Command::Spawn(comps) => CommandData::Spawn(comps@),
            Command::Despawn(e) => CommandData::Despawn(*e),
            Command::InsertResource(k, v) => CommandData::InsertResource(*k, *v),
            Command::RemoveResource(k) => CommandData::RemoveResource(*k),
        }
    }
}

/// Spec-level mirror of a [`Commands`] buffer.
#[verifier::ext_equal]
pub struct CommandsData {
    pub queue: Seq<CommandData>,
}

impl CommandsData {
    /// Every queued command is well formed.
    pub open spec fn wf(self) -> bool {
        forall|i: int| 0 <= i < self.queue.len() ==> (#[trigger] self.queue[i]).wf()
    }
}

/// What one command does to the world and the resource table.
pub open spec fn apply_one(c: CommandData, w: WorldData, r: ResourcesData) -> (
    WorldData,
    ResourcesData,
) {
    match c {
        CommandData::Spawn(comps) => (spawn_spec(w, comps).0, r),
        CommandData::Despawn(e) => (despawn_spec(w, e), r),
        CommandData::InsertResource(k, v) => (w, r.insert_int(k, v, false)),
        CommandData::RemoveResource(k) => (w, r.remove(k)),
    }
}

/// The state after applying the first `n` queued commands in order.
pub open spec fn apply_prefix(q: Seq<CommandData>, w: WorldData, r: ResourcesData, n: int) -> (
    WorldData,
    ResourcesData,
)
    decreases n,
{
    if n <= 0 {
        (w, r)
    } else {
        apply_one(
            q[n - 1],
            apply_prefix(q, w, r, n - 1).0,
            apply_prefix(q, w, r, n - 1).1,
        )
    }
}

/// The state after applying every queued command in order.
pub open spec fn apply_all(q: Seq<CommandData>, w: WorldData, r: ResourcesData) -> (
    WorldData,
    ResourcesData,
) {
    apply_prefix(q, w, r, q.len() as int)
}

/// Applying well-formed commands preserves the store invariant.
pub proof fn lemma_apply_prefix_wf(q: Seq<CommandData>, w: WorldData, r: ResourcesData, n: int)
    requires
        w.wf(),
        forall|i: int| 0 <= i < q.len() ==> (#[trigger] q[i]).wf(),
        n <= q.len(),
    ensures
        apply_prefix(q, w, r, n).0.wf(),
    decreases n,
{
    if n > 0 {
        lemma_apply_prefix_wf(q, w, r, n - 1);
        let w1 = apply_prefix(q, w, r, n - 1).0;
        match q[n - 1] {
            CommandData::Spawn(comps) => {
                crate::world::lemma_spawn_spec_wf(w1, comps);
            },
            CommandData::Despawn(e) => {
                crate::world::lemma_despawn_spec_wf(w1, e);
            },
            _ => {},
        }
    }
}

/// The deferred-mutation buffer of one unit of work.
pub struct Commands {
    queue: Vec<Command>,
}

impl View for Commands {
    type V = CommandsData;

    closed spec fn view(&self) -> CommandsData {
        CommandsData { queue: self.queue@.map_values(|c: Command| c@) }
    }
}

impl Commands {
    /// An empty buffer.
    pub fn new() -> (r: Commands)
        ensures
            r@.queue == Seq::<CommandData>::empty(),
    {
        let r = Commands { queue: Vec::new() };
        proof {
            assert(r@.queue =~= Seq::<CommandData>::empty());
        }
        r
    }

    /// How many mutations are queued.
    pub fn len(&self) -> (r: usize)
        ensures
            r == self@.queue.len(),
    {
        self.queue.len()
    }

    /// Records an entity creation.
    pub fn spawn(&mut self, components: Vec<(u64, i64)>)
        requires
            components_wf(components@),
        ensures
            final(self)@.queue == old(self)@.queue.push(CommandData::Spawn(components@)),
    {
        let ghost cv = components@;
        self.queue.push(Command::Spawn(components));
        proof {
            assert(self@.queue =~= old(self)@.queue.push(CommandData::Spawn(cv)));
        }
    }

    /// Records an entity destruction.
    pub fn despawn(&mut self, entity: u64)
        ensures
            final(self)@.queue == old(self)@.queue.push(CommandData::Despawn(entity)),
    {
        self.queue.push(Command::Despawn(entity));
        proof {
            assert(self@.queue =~= old(self)@.queue.push(CommandData::Despawn(entity)));
        }
    }

    /// Records a resource insertion.
    pub fn insert_resource(&mut self, key: u64, v: i64)
        ensures
            final(self)@.queue == old(self)@.queue.push(CommandData::InsertResource(key, v)),
    {
        self.queue.push(Command::InsertResource(key, v));
        proof {
            assert(self@.queue =~= old(self)@.queue.push(CommandData::InsertResource(key, v)));
        }
    }

    /// Records a resource removal.
    pub fn remove_resource(&mut self, key: u64)
        ensures
            final(self)@.queue == old(self)@.queue.push(CommandData::RemoveResource(key)),
    {
        self.queue.push(Command::RemoveResource(key));
        proof {
            assert(self@.queue =~= old(self)@.queue.push(CommandData::RemoveResource(key)));
        }
    }

    /// Drains the buffer, applying every queued mutation to the world
    /// and the resource table in submission order.
    pub fn apply(&mut self, world: &mut World, resources: &mut Resources)
        requires
            old(world)@.wf(),
            old(self)@.wf(),
        ensures
            final(world)@ == apply_all(old(self)@.queue, old(world)@, old(resources)@).0,
            final(resources)@ == apply_all(old(self)@.queue, old(world)@, old(resources)@).1,
            final(self)@.queue == Seq::<CommandData>::empty(),
            final(world)@.wf(),
    {
        let ghost q0 = self@.queue;
        let ghost w0 = world@;
        let ghost r0 = resources@;
        let ghost mut done: int = 0;
        while self.queue.len() > 0
            invariant
                q0.len() == done + self@.queue.len(),
                0 <= done <= q0.len(),
                w0.wf(),
                forall|i: int| 0 <= i < q0.len() ==> (#[trigger] q0[i]).wf(),
                self@.queue == q0.skip(done),
                world@ == apply_prefix(q0, w0, r0, done).0,
                resources@ == apply_prefix(q0, w0, r0, done).1,
                world@.wf(),
                w0 == old(world)@,
                r0 == old(resources)@,
                q0 == old(self)@.queue,
            decreases self@.queue.len(),
        {
            let ghost before = self@.queue;
            let c = self.queue.remove(0);
            proof {
                assert(before[0] == q0.skip(done)[0]);
                assert(q0.skip(done)[0] == q0[done]);
                assert(c@ == before[0]);
                assert(self@.queue =~= before.remove(0));
                assert(self@.queue =~= q0.skip(done + 1));
                assert(q0[done].wf());
            }
            match c {
                Command::Spawn(components) => {
                    let _ = world.spawn(components);
                },
                Command::Despawn(entity) => {
                    world.despawn(entity);
                },
                Command::InsertResource(key, v) => {
                    resources.insert_int(key, v);
                },
                Command::RemoveResource(key) => {
                    resources.remove(key);
                },
            }
            proof {
                done = done + 1;
            }
        }
        proof {
            assert(q0.skip(done).len() == 0);
            assert(done == q0.len());
            assert(self@.queue =~= Seq::<CommandData>::empty());
        }
    }
}

} // verus!
