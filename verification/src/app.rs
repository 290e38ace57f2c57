//! The application shell: a world, a resource table, a startup schedule
//! run once, a main schedule run per tick, and a builder configuring
//! them.

use vstd::prelude::*;
use crate::resources::{Resources, ResourcesData};
use crate::schedule::{
    schedule_run_spec, Schedule, ScheduleData, ScheduleError, StageVariant,
};
use crate::stage::SystemStage;
use crate::system::{
    ConflictData, ConflictError, System, SystemData, SystemId, ThreadLocalKind,
    ThreadLocalSystem,
};
use crate::access::TypeAccess;
use crate::world::{World, WorldData};

verus! {

/// The name of the first stage of a tick.
pub const STAGE_FIRST: &'static str = "first";

/// The name of the stage before event upkeep.
pub const STAGE_PRE_EVENT: &'static str = "pre_event";

/// The name of the event-upkeep stage.
pub const STAGE_EVENT: &'static str = "event";

/// The name of the stage before the main update.
pub const STAGE_PRE_UPDATE: &'static str = "pre_update";

/// The name of the main update stage.
pub const STAGE_UPDATE: &'static str = "update";

/// The name of the stage after the main update.
pub const STAGE_POST_UPDATE: &'static str = "post_update";

/// The name of the last stage of a tick.
pub const STAGE_LAST: &'static str = "last";

/// The name of the stage before startup.
pub const STARTUP_STAGE_PRE_STARTUP: &'static str = "pre_startup";

/// The name of the startup stage.
pub const STARTUP_STAGE_STARTUP: &'static str = "startup";

/// The name of the stage after startup.
pub const STARTUP_STAGE_POST_STARTUP: &'static str = "post_startup";

/// The event-log key of the application-exit event.
pub const APP_EXIT_EVENT: u64 = 0xffff_ffff_ffff_0000;

/// A unit that clears the resource change marks at its thread-local
/// flush point.
pub fn clear_trackers_system() -> (r: System)
    ensures
        r@ is ThreadLocal,
        r@->ThreadLocal_0.kind == ThreadLocalKind::ClearTrackers,
        !r@->ThreadLocal_0.initialized,
        r@.wf(),
{
    System::ThreadLocal(
        ThreadLocalSystem {
            id: SystemId::new(),
            name: "clear_trackers".to_owned(),
            initialized: false,
            archetype_component_access: TypeAccess::new(),
            resource_access: TypeAccess::new(),
            kind: ThreadLocalKind::ClearTrackers,
        },
    )
}

/// How the application drives its main schedule.
#[derive(Debug, Copy, Clone, PartialEq, Eq, Structural)]
pub enum Runner {
    /// One tick.
    Once,
    /// A fixed number of ticks.
    Times(u32),
}

/// Spec-level mirror of an [`App`].
#[verifier::ext_equal]
pub struct AppData {
    pub world: WorldData,
    pub resources: ResourcesData,
    pub schedule: ScheduleData,
    pub startup_schedule: ScheduleData,
    pub runner: Runner,
}

impl AppData {
    /// Schedules and store are well formed.
    pub open spec fn wf(self) -> bool {
        self.world.wf() && self.schedule.wf() && self.startup_schedule.wf()
    }
}

/// The state after `n` further ticks of the main schedule; the first
/// configuration error stops the run.
pub open spec fn app_ticks_spec(a: AppData, n: nat) -> (AppData, Option<ConflictData>)
    decreases n,
{
    if n == 0 {
        (a, None)
    } else {
        let t = schedule_run_spec(a.schedule, a.world, a.resources);
        let a1 = AppData {
            world: t.1,
            resources: t.2,
            schedule: t.0,
            startup_schedule: a.startup_schedule,
            runner: a.runner,
        };
        if t.3 is Some {
            (a1, t.3)
        } else {
            app_ticks_spec(a1, (n - 1) as nat)
        }
    }
}

/// What running the application does: the startup schedule once, then
/// the main schedule as many ticks as the runner asks.
pub open spec fn app_run_spec(a: AppData) -> (AppData, Option<ConflictData>) {
    let s = schedule_run_spec(a.startup_schedule, a.world, a.resources);
    let a1 = AppData {
        world: s.1,
        resources: s.2,
        schedule: a.schedule,
        startup_schedule: s.0,
        runner: a.runner,
    };
    if s.3 is Some {
        (a1, s.3)
    } else {
        app_ticks_spec(
            a1,
            match a.runner {
                Runner::Once => 1nat,
                Runner::Times(k) => k as nat,
            },
        )
    }
}

/// A container of the world, the resource table and the schedules.
pub struct App {
    /// The component store.
    pub world: World,
    /// The shared resource table.
    pub resources: Resources,
    /// The per-tick schedule.
    pub schedule: Schedule,
    /// The schedule run once before the first tick.
    pub startup_schedule: Schedule,
    /// How the main schedule is driven.
    pub runner: Runner,
}

impl View for App {
    type V = AppData;

    open spec fn view(&self) -> AppData {
        AppData {
            world: self.world@,
            resources: self.resources@,
            schedule: self.schedule@,
            startup_schedule: self.startup_schedule@,
            runner: self.runner,
        }
    }
}

impl App {
    /// An empty application: fresh store and table, empty schedules,
    /// one tick per run.
    pub fn new() -> (r: App)
        ensures
            r@.world.archetypes == Seq::<crate::world::ArchetypeData>::empty(),
            r@.world.next_entity == 0,
            r@.resources.entries == Seq::<crate::resources::ResEntryData>::empty(),
            r@.schedule.entries == Seq::<crate::schedule::ScheduleEntryData>::empty(),
            r@.startup_schedule.entries == Seq::<crate::schedule::ScheduleEntryData>::empty(),
            r@.runner == Runner::Once,
            r@.wf(),
    {
        App {
            world: World::new(),
            resources: Resources::new(),
            schedule: Schedule::new(),
            startup_schedule: Schedule::new(),
            runner: Runner::Once,
        }
    }

    /// Runs the startup schedule once, then the main schedule as many
    /// ticks as the runner asks, stopping at the first configuration
    /// error.
    #[verifier::rlimit(50)]
    #[verifier::spinoff_prover]
    pub fn run(&mut self) -> (r: Result<(), ConflictError>)
        requires
            old(self)@.wf(),
        ensures
            final(self)@ == app_run_spec(old(self)@).0,
            match r {
                Ok(()) => app_run_spec(old(self)@).1 is None,
                Err(e) => app_run_spec(old(self)@).1 == Some(e@),
            },
            final(self)@.wf(),
    {
        let ghost a0 = self@;
        match self.startup_schedule.run(&mut self.world, &mut self.resources) {
            Err(e) => {
                proof {
                    let s = schedule_run_spec(a0.startup_schedule, a0.world, a0.resources);
                    assert(self@ =~= (AppData {
                        world: s.1,
                        resources: s.2,
                        schedule: a0.schedule,
                        startup_schedule: s.0,
                        runner: a0.runner,
                    }));
                    assert(app_run_spec(a0) == (self@, Some(e@)));
                }
                return Err(e);
            },
            Ok(()) => {},
        }
        proof {
            let s = schedule_run_spec(a0.startup_schedule, a0.world, a0.resources);
            assert(self@ =~= (AppData {
                world: s.1,
                resources: s.2,
                schedule: a0.schedule,
                startup_schedule: s.0,
                runner: a0.runner,
            }));
        }
        let ticks: u32 = match self.runner {
            Runner::Once => 1,
            Runner::Times(k) => k,
        };
        proof {
            assert(app_run_spec(a0) == app_ticks_spec(self@, ticks as nat));
        }
        let mut t: u32 = 0;
        while t < ticks
            invariant
                0 <= t <= ticks,
                self@.wf(),
                app_run_spec(old(self)@) == app_ticks_spec(self@, (ticks - t) as nat),
            decreases ticks - t,
        {
            let ghost pre = self@;
            let step = self.schedule.run(&mut self.world, &mut self.resources);
            proof {
                let st = schedule_run_spec(pre.schedule, pre.world, pre.resources);
                assert(self@ =~= (AppData {
                    world: st.1,
                    resources: st.2,
                    schedule: st.0,
                    startup_schedule: pre.startup_schedule,
                    runner: pre.runner,
                }));
            }
            match step {
                Err(e) => {
                    proof {
                        assert(app_ticks_spec(pre, (ticks - t) as nat) == (self@, Some(e@)));
                    }
                    return Err(e);
                },
                Ok(()) => {
                    proof {
                        assert(app_ticks_spec(pre, (ticks - t) as nat) == app_ticks_spec(
                            self@,
                            (ticks - t - 1) as nat,
                        ));
                    }
                },
            }
            t += 1;
        }
        proof {
            assert(app_ticks_spec(self@, 0nat) == (self@, None::<ConflictData>));
        }
        Ok(())
    }
}

impl Default for App {
    /// An empty application.
    fn default() -> (r: App)
        ensures
            r@.schedule.entries == Seq::<crate::schedule::ScheduleEntryData>::empty(),
            r@.startup_schedule.entries == Seq::<crate::schedule::ScheduleEntryData>::empty(),
            r@.runner == Runner::Once,
            r@.wf(),
    {
        App::new()
    }
}

/// Spec-level mirror of an [`AppBuilder`].
#[verifier::ext_equal]
pub struct AppBuilderData {
    pub app: AppData,
}

/// A builder is usable while its application is well formed.
pub open spec fn builder_wf(b: AppBuilderData) -> bool {
    b.app.wf()
}

/// A freshly built parallel plain stage.
pub open spec fn fresh_parallel_stage() -> crate::schedule::StageVariantData {
    crate::schedule::StageVariantData::Systems(
        crate::stage::SystemStageData {
            systems: Seq::empty(),
            system_ids: Seq::empty(),
            executor: crate::stage::ExecutorKind::Parallel,
            should_run: None,
            changed_systems: Seq::empty(),
            initialized_should_run: false,
        },
    )
}

/// The conventional startup stages, in order.
pub open spec fn default_startup_entries() -> Seq<crate::schedule::ScheduleEntryData> {
    seq![
        crate::schedule::ScheduleEntryData {
            name: STARTUP_STAGE_PRE_STARTUP@,
            stage: fresh_parallel_stage(),
        },
        crate::schedule::ScheduleEntryData {
            name: STARTUP_STAGE_STARTUP@,
            stage: fresh_parallel_stage(),
        },
        crate::schedule::ScheduleEntryData {
            name: STARTUP_STAGE_POST_STARTUP@,
            stage: fresh_parallel_stage(),
        },
    ]
}

/// The conventional per-tick stages, in order.
pub open spec fn default_tick_entries() -> Seq<crate::schedule::ScheduleEntryData> {
    seq![
        crate::schedule::ScheduleEntryData { name: STAGE_FIRST@, stage: fresh_parallel_stage() },
        crate::schedule::ScheduleEntryData {
            name: STAGE_PRE_EVENT@,
            stage: fresh_parallel_stage(),
        },
        crate::schedule::ScheduleEntryData { name: STAGE_EVENT@, stage: fresh_parallel_stage() },
        crate::schedule::ScheduleEntryData {
            name: STAGE_PRE_UPDATE@,
            stage: fresh_parallel_stage(),
        },
        crate::schedule::ScheduleEntryData { name: STAGE_UPDATE@, stage: fresh_parallel_stage() },
        crate::schedule::ScheduleEntryData {
            name: STAGE_POST_UPDATE@,
            stage: fresh_parallel_stage(),
        },
        crate::schedule::ScheduleEntryData { name: STAGE_LAST@, stage: fresh_parallel_stage() },
    ]
}

/// Configures an [`App`] step by step.
pub struct AppBuilder {
    /// The application under construction.
    pub app: App,
}

impl View for AppBuilder {
    type V = AppBuilderData;

    open spec fn view(&self) -> AppBuilderData {
        AppBuilderData { app: self.app@ }
    }
}

/// A reusable piece of configuration, applied to a builder by its
/// implementor.
pub trait Plugin {
    /// Applies this plugin's configuration.
    fn build(&self, app: &mut AppBuilder)
        requires
            builder_wf(old(app)@),
        ensures
            builder_wf(final(app)@),
    ;
}

impl AppBuilder {
    /// A builder around an empty application, with no stages at all.
    pub fn empty() -> (r: AppBuilder)
        ensures
            r@.app.schedule.entries == Seq::<crate::schedule::ScheduleEntryData>::empty(),
            r@.app.startup_schedule.entries == Seq::<
                crate::schedule::ScheduleEntryData,
            >::empty(),
            r@.app.runner == Runner::Once,
            builder_wf(r@),
    {
        AppBuilder { app: App::new() }
    }

    /// The resource table under construction.
    pub fn resources(&self) -> (r: &Resources)
        ensures
            r@ == self@.app.resources,
    {
        &self.app.resources
    }

    /// The resource table under construction, exclusively.
    pub fn resources_mut(&mut self) -> (r: &mut Resources)
        ensures
            *r == old(self).app.resources,
            final(self).app.resources == *final(r),
            final(self).app.world == old(self).app.world,
            final(self).app.schedule == old(self).app.schedule,
            final(self).app.startup_schedule == old(self).app.startup_schedule,
            final(self).app.runner == old(self).app.runner,
    {
        &mut self.app.resources
    }

    /// Runs the application.
    pub fn run(&mut self) -> (r: Result<(), ConflictError>)
        requires
            builder_wf(old(self)@),
        ensures
            final(self)@.app == app_run_spec(old(self)@.app).0,
            match r {
                Ok(()) => app_run_spec(old(self)@.app).1 is None,
                Err(e) => app_run_spec(old(self)@.app).1 == Some(e@),
            },
            builder_wf(final(self)@),
    {
        self.app.run()
    }

    /// Replaces the component store.
    pub fn set_world(&mut self, world: World) -> (r: Result<(), ScheduleError>)
        requires
            world@.wf(),
        ensures
            final(self)@.app == (AppData { world: world@, ..old(self)@.app }),
            r is Ok,
            builder_wf(old(self)@) ==> builder_wf(final(self)@),
    {
        self.app.world = world;
        Ok(())
    }

    /// Appends a named stage to the per-tick schedule.
    pub fn add_stage(&mut self, name: &str, stage: StageVariant) -> (r: Result<
        (),
        ScheduleError,
    >)
        ensures
            old(self)@.app.schedule.has_stage(name@) ==> r == Err::<(), ScheduleError>(
                ScheduleError::StageAlreadyExists,
            ) && final(self)@ == old(self)@,
            !old(self)@.app.schedule.has_stage(name@) ==> r is Ok && final(self)@.app.schedule
                .entries == old(self)@.app.schedule.entries.push(
                crate::schedule::ScheduleEntryData { name: name@, stage: stage@ },
            ) && final(self)@.app.world == old(self)@.app.world && final(self)@.app.resources
                == old(self)@.app.resources && final(self)@.app.startup_schedule == old(self)@.app.startup_schedule,
            final(self)@.app.runner == old(self)@.app.runner,
            builder_wf(old(self)@) && crate::schedule::variant_wf(stage@) ==> builder_wf(final(self)@),
    {
        self.app.schedule.add_stage(name, stage)
    }

    /// Inserts a named stage immediately after the target in the
    /// per-tick schedule, keeping every existing stage's relative
    /// order; a duplicate name or a missing target is the error,
    /// exactly, and changes nothing.
    pub fn add_stage_after(&mut self, target: &str, name: &str, stage: StageVariant) -> (r:
        Result<(), ScheduleError>)
        ensures
            r is Err ==> final(self)@ == old(self)@,
            old(self)@.app.schedule.has_stage(name@) ==> r == Err::<(), ScheduleError>(
                ScheduleError::StageAlreadyExists,
            ),
            !old(self)@.app.schedule.has_stage(name@) && !old(self)@.app.schedule.has_stage(
                target@,
            ) ==> r == Err::<(), ScheduleError>(ScheduleError::StageNotFound),
            !old(self)@.app.schedule.has_stage(name@) && old(self)@.app.schedule.has_stage(
                target@,
            ) ==> r is Ok && final(self)@.app.schedule.entries == old(self)@.app.schedule.entries.insert(
                old(self)@.app.schedule.find_from(target@, 0)->Some_0 + 1,
                crate::schedule::ScheduleEntryData { name: name@, stage: stage@ },
            ),
            final(self)@.app == (AppData { schedule: final(self)@.app.schedule, ..old(self)@.app }),
            builder_wf(old(self)@) && crate::schedule::variant_wf(stage@) ==> builder_wf(final(self)@),
    {
        self.app.schedule.add_stage_after(target, name, stage)
    }

    /// Inserts a named stage immediately before the target in the
    /// per-tick schedule, keeping every existing stage's relative
    /// order; a duplicate name or a missing target is the error,
    /// exactly, and changes nothing.
    pub fn add_stage_before(&mut self, target: &str, name: &str, stage: StageVariant) -> (r:
        Result<(), ScheduleError>)
        ensures
            r is Err ==> final(self)@ == old(self)@,
            old(self)@.app.schedule.has_stage(name@) ==> r == Err::<(), ScheduleError>(
                ScheduleError::StageAlreadyExists,
            ),
            !old(self)@.app.schedule.has_stage(name@) && !old(self)@.app.schedule.has_stage(
                target@,
            ) ==> r == Err::<(), ScheduleError>(ScheduleError::StageNotFound),
            !old(self)@.app.schedule.has_stage(name@) && old(self)@.app.schedule.has_stage(
                target@,
            ) ==> r is Ok && final(self)@.app.schedule.entries == old(self)@.app.schedule.entries.insert(
                old(self)@.app.schedule.find_from(target@, 0)->Some_0,
                crate::schedule::ScheduleEntryData { name: name@, stage: stage@ },
            ),
            final(self)@.app == (AppData { schedule: final(self)@.app.schedule, ..old(self)@.app }),
            builder_wf(old(self)@) && crate::schedule::variant_wf(stage@) ==> builder_wf(final(self)@),
    {
        self.app.schedule.add_stage_before(target, name, stage)
    }

    /// Appends a named stage to the startup schedule.
    pub fn add_startup_stage(&mut self, name: &str, stage: StageVariant) -> (r: Result<
        (),
        ScheduleError,
    >)
        ensures
            old(self)@.app.startup_schedule.has_stage(name@) ==> r == Err::<(), ScheduleError>(
                ScheduleError::StageAlreadyExists,
            ) && final(self)@ == old(self)@,
            !old(self)@.app.startup_schedule.has_stage(name@) ==> r is Ok && final(self)@.app.startup_schedule.entries == old(self)@.app.startup_schedule.entries.push(
                crate::schedule::ScheduleEntryData { name: name@, stage: stage@ },
            ) && final(self)@.app.world == old(self)@.app.world && final(self)@.app.resources
                == old(self)@.app.resources && final(self)@.app.schedule == old(self)@.app.schedule,
            final(self)@.app.runner == old(self)@.app.runner,
            builder_wf(old(self)@) && crate::schedule::variant_wf(stage@) ==> builder_wf(final(self)@),
    {
        self.app.startup_schedule.add_stage(name, stage)
    }

    /// Inserts a named stage immediately after the target in the
    /// startup schedule, keeping every existing stage's relative order;
    /// a duplicate name or a missing target is the error, exactly, and
    /// changes nothing.
    pub fn add_startup_stage_after(&mut self, target: &str, name: &str, stage: StageVariant) -> (
        r: Result<(), ScheduleError>)
        ensures
            r is Err ==> final(self)@ == old(self)@,
            old(self)@.app.startup_schedule.has_stage(name@) ==> r == Err::<(), ScheduleError>(
                ScheduleError::StageAlreadyExists,
            ),
            !old(self)@.app.startup_schedule.has_stage(name@) && !old(self)@.app.startup_schedule.has_stage(target@) ==> r == Err::<(), ScheduleError>(
                ScheduleError::StageNotFound,
            ),
            !old(self)@.app.startup_schedule.has_stage(name@) && old(self)@.app.startup_schedule.has_stage(target@) ==> r is Ok && final(self)@.app.startup_schedule.entries == old(self)@.app.startup_schedule.entries.insert(
                old(self)@.app.startup_schedule.find_from(target@, 0)->Some_0 + 1,
                crate::schedule::ScheduleEntryData { name: name@, stage: stage@ },
            ),
            final(self)@.app == (AppData {
                startup_schedule: final(self)@.app.startup_schedule,
                ..old(self)@.app
            }),
            builder_wf(old(self)@) && crate::schedule::variant_wf(stage@) ==> builder_wf(final(self)@),
    {
        self.app.startup_schedule.add_stage_after(target, name, stage)
    }

    /// Inserts a named stage immediately before the target in the
    /// startup schedule, keeping every existing stage's relative order;
    /// a duplicate name or a missing target is the error, exactly, and
    /// changes nothing.
    pub fn add_startup_stage_before(&mut self, target: &str, name: &str, stage: StageVariant) -> (
        r: Result<(), ScheduleError>)
        ensures
            r is Err ==> final(self)@ == old(self)@,
            old(self)@.app.startup_schedule.has_stage(name@) ==> r == Err::<(), ScheduleError>(
                ScheduleError::StageAlreadyExists,
            ),
            !old(self)@.app.startup_schedule.has_stage(name@) && !old(self)@.app.startup_schedule.has_stage(target@) ==> r == Err::<(), ScheduleError>(
                ScheduleError::StageNotFound,
            ),
            !old(self)@.app.startup_schedule.has_stage(name@) && old(self)@.app.startup_schedule.has_stage(target@) ==> r is Ok && final(self)@.app.startup_schedule.entries == old(self)@.app.startup_schedule.entries.insert(
                old(self)@.app.startup_schedule.find_from(target@, 0)->Some_0,
                crate::schedule::ScheduleEntryData { name: name@, stage: stage@ },
            ),
            final(self)@.app == (AppData {
                startup_schedule: final(self)@.app.startup_schedule,
                ..old(self)@.app
            }),
            builder_wf(old(self)@) && crate::schedule::variant_wf(stage@) ==> builder_wf(final(self)@),
    {
        self.app.startup_schedule.add_stage_before(target, name, stage)
    }

    /// Appends a unit to the named per-tick stage: exactly that stage
    /// grows by the unit (behind its pump on an event stage); a missing
    /// name is the error, exactly, and any rejection changes nothing.
    pub fn add_system_to_stage(&mut self, stage_name: &str, system: System) -> (r: Result<
        (),
        ScheduleError,
    >)
        requires
            system@.wf(),
        ensures
            !old(self)@.app.schedule.has_stage(stage_name@) <==> r == Err::<(), ScheduleError>(
                ScheduleError::StageNotFound,
            ),
            r is Err ==> final(self)@ == old(self)@,
            r is Ok ==> crate::schedule::schedule_added(
                old(self)@.app.schedule,
                final(self)@.app.schedule,
                stage_name@,
                system@,
            ),
            final(self)@.app == (AppData { schedule: final(self)@.app.schedule, ..old(self)@.app }),
            builder_wf(old(self)@) ==> builder_wf(final(self)@),
    {
        self.app.schedule.add_system_to_stage(stage_name, system)
    }

    /// Appends a unit to the main update stage; exactly the effect of
    /// [`AppBuilder::add_system_to_stage`] on [`STAGE_UPDATE`].
    pub fn add_system(&mut self, system: System) -> (r: Result<(), ScheduleError>)
        requires
            system@.wf(),
        ensures
            !old(self)@.app.schedule.has_stage(STAGE_UPDATE@) <==> r == Err::<(), ScheduleError>(
                ScheduleError::StageNotFound,
            ),
            r is Err ==> final(self)@ == old(self)@,
            r is Ok ==> crate::schedule::schedule_added(
                old(self)@.app.schedule,
                final(self)@.app.schedule,
                STAGE_UPDATE@,
                system@,
            ),
            final(self)@.app == (AppData { schedule: final(self)@.app.schedule, ..old(self)@.app }),
            builder_wf(old(self)@) ==> builder_wf(final(self)@),
    {
        self.add_system_to_stage(STAGE_UPDATE, system)
    }

    /// Appends a unit to the named startup stage: exactly that startup
    /// stage grows by the unit; a missing name is the error, exactly,
    /// and any rejection changes nothing.
    pub fn add_startup_system_to_stage(&mut self, stage_name: &str, system: System) -> (r:
        Result<(), ScheduleError>)
        requires
            system@.wf(),
        ensures
            !old(self)@.app.startup_schedule.has_stage(stage_name@) <==> r == Err::<
                (),
                ScheduleError,
            >(ScheduleError::StageNotFound),
            r is Err ==> final(self)@ == old(self)@,
            r is Ok ==> crate::schedule::schedule_added(
                old(self)@.app.startup_schedule,
                final(self)@.app.startup_schedule,
                stage_name@,
                system@,
            ),
            final(self)@.app == (AppData {
                startup_schedule: final(self)@.app.startup_schedule,
                ..old(self)@.app
            }),
            builder_wf(old(self)@) ==> builder_wf(final(self)@),
    {
        self.app.startup_schedule.add_system_to_stage(stage_name, system)
    }

    /// Appends a unit to the startup stage; exactly the effect of
    /// [`AppBuilder::add_startup_system_to_stage`] on
    /// [`STARTUP_STAGE_STARTUP`].
    pub fn add_startup_system(&mut self, system: System) -> (r: Result<(), ScheduleError>)
        requires
            system@.wf(),
        ensures
            !old(self)@.app.startup_schedule.has_stage(STARTUP_STAGE_STARTUP@) <==> r == Err::<
                (),
                ScheduleError,
            >(ScheduleError::StageNotFound),
            r is Err ==> final(self)@ == old(self)@,
            r is Ok ==> crate::schedule::schedule_added(
                old(self)@.app.startup_schedule,
                final(self)@.app.startup_schedule,
                STARTUP_STAGE_STARTUP@,
                system@,
            ),
            final(self)@.app == (AppData {
                startup_schedule: final(self)@.app.startup_schedule,
                ..old(self)@.app
            }),
            builder_wf(old(self)@) ==> builder_wf(final(self)@),
    {
        self.add_startup_system_to_stage(STARTUP_STAGE_STARTUP, system)
    }

    /// Installs the conventional stages: the three startup stages, then
    /// the seven per-tick stages, every one a fresh parallel plain
    /// stage.  On empty schedules this succeeds and yields exactly
    /// those stage lists, in order.
    pub fn add_default_stages(&mut self) -> (r: Result<(), ScheduleError>)
        ensures
            final(self)@.app == (AppData {
                schedule: final(self)@.app.schedule,
                startup_schedule: final(self)@.app.startup_schedule,
                ..old(self)@.app
            }),
            old(self)@.app.startup_schedule.entries.len() == 0 && old(self)@.app.schedule.entries.len() == 0 ==> r is Ok && final(self)@.app.startup_schedule.entries == default_startup_entries() && final(self)@.app.schedule.entries == default_tick_entries(),
            builder_wf(old(self)@) ==> builder_wf(final(self)@),
    {
        proof {
            reveal_strlit("pre_startup");
            reveal_strlit("startup");
            reveal_strlit("post_startup");
            reveal_strlit("first");
            reveal_strlit("pre_event");
            reveal_strlit("event");
            reveal_strlit("pre_update");
            reveal_strlit("update");
            reveal_strlit("post_update");
            reveal_strlit("last");
            assert("first"@ != "event"@) by {
                assert("first"@[0] == 'f');
                assert("event"@[0] == 'e');
            }
        }
        let ghost fresh0 = old(self)@.app.startup_schedule.entries.len() == 0 && old(self)@.app.schedule.entries.len() == 0;
        proof {
            if fresh0 {
                assert forall|i: int|
                    0 <= i < self@.app.startup_schedule.entries.len() implies (
                #[trigger] self@.app.startup_schedule.entries[i]).name != STARTUP_STAGE_PRE_STARTUP@ by {
                }
                crate::schedule::lemma_find_from_absent(
                    self@.app.startup_schedule,
                    STARTUP_STAGE_PRE_STARTUP@,
                    0,
                );
            }
        }
        let r1 = self.add_startup_stage(
            STARTUP_STAGE_PRE_STARTUP,
            StageVariant::Systems(SystemStage::parallel()),
        );
        proof {
            if fresh0 {
                assert(self@.app.startup_schedule.entries[0 as int].stage->Systems_0
                    =~= fresh_parallel_stage()->Systems_0);
                assert(self@.app.startup_schedule.entries =~= default_startup_entries().take(
                    1,
                ));
            }
        }
        if let Err(e) = r1 {
            proof {
                if fresh0 {
                    assert(false);
                }
            }
            return Err(e);
        }
        proof {
            if fresh0 {
                assert forall|i: int|
                    0 <= i < self@.app.startup_schedule.entries.len() implies (
                #[trigger] self@.app.startup_schedule.entries[i]).name != STARTUP_STAGE_STARTUP@ by {
                    if i == 0 {
                        assert(self@.app.startup_schedule.entries[0]
                            == default_startup_entries()[0]);
                        assert(default_startup_entries()[0].name == STARTUP_STAGE_PRE_STARTUP@);
                    }
                }
                crate::schedule::lemma_find_from_absent(
                    self@.app.startup_schedule,
                    STARTUP_STAGE_STARTUP@,
                    0,
                );
            }
        }
        let r2 = self.add_startup_stage(
            STARTUP_STAGE_STARTUP,
            StageVariant::Systems(SystemStage::parallel()),
        );
        proof {
            if fresh0 {
                assert(self@.app.startup_schedule.entries[1 as int].stage->Systems_0
                    =~= fresh_parallel_stage()->Systems_0);
                assert(self@.app.startup_schedule.entries =~= default_startup_entries().take(
                    2,
                ));
            }
        }
        if let Err(e) = r2 {
            proof {
                if fresh0 {
                    assert(false);
                }
            }
            return Err(e);
        }
        proof {
            if fresh0 {
                assert forall|i: int|
                    0 <= i < self@.app.startup_schedule.entries.len() implies (
                #[trigger] self@.app.startup_schedule.entries[i]).name != STARTUP_STAGE_POST_STARTUP@ by {
                    assert(self@.app.startup_schedule.entries.len() == 2);
                    assert(STARTUP_STAGE_POST_STARTUP@ == "post_startup"@);
                    assert("post_startup"@.len() == 12);
                    if i == 0 {
                        assert(self@.app.startup_schedule.entries[0]
                            == default_startup_entries()[0]);
                        assert(default_startup_entries()[0].name == STARTUP_STAGE_PRE_STARTUP@);
                        assert("pre_startup"@.len() == 11);
                    }
                    if i == 1 {
                        assert(self@.app.startup_schedule.entries[1]
                            == default_startup_entries()[1]);
                        assert(default_startup_entries()[1].name == STARTUP_STAGE_STARTUP@);
                        assert("startup"@.len() == 7);
                    }
                }
                crate::schedule::lemma_find_from_absent(
                    self@.app.startup_schedule,
                    STARTUP_STAGE_POST_STARTUP@,
                    0,
                );
            }
        }
        let r3 = self.add_startup_stage(
            STARTUP_STAGE_POST_STARTUP,
            StageVariant::Systems(SystemStage::parallel()),
        );
        proof {
            if fresh0 {
                assert(self@.app.startup_schedule.entries[2 as int].stage->Systems_0
                    =~= fresh_parallel_stage()->Systems_0);
                assert(self@.app.startup_schedule.entries =~= default_startup_entries().take(
                    3,
                ));
            }
        }
        if let Err(e) = r3 {
            proof {
                if fresh0 {
                    assert(false);
                }
            }
            return Err(e);
        }
        proof {
            if fresh0 {
                assert forall|i: int|
                    0 <= i < self@.app.schedule.entries.len() implies (
                #[trigger] self@.app.schedule.entries[i]).name != STAGE_FIRST@ by {
                }
                crate::schedule::lemma_find_from_absent(self@.app.schedule, STAGE_FIRST@, 0);
            }
        }
        let r4 = self.add_stage(STAGE_FIRST, StageVariant::Systems(SystemStage::parallel()));
        proof {
            if fresh0 {
                assert(self@.app.schedule.entries[0 as int].stage->Systems_0
                    =~= fresh_parallel_stage()->Systems_0);
                assert(self@.app.schedule.entries =~= default_tick_entries().take(1));
            }
        }
        if let Err(e) = r4 {
            proof {
                if fresh0 {
                    assert(false);
                }
            }
            return Err(e);
        }
        proof {
            if fresh0 {
                assert forall|i: int|
                    0 <= i < self@.app.schedule.entries.len() implies (
                #[trigger] self@.app.schedule.entries[i]).name != STAGE_PRE_EVENT@ by {
                    if i == 0 {
                        assert(self@.app.schedule.entries[0] == default_tick_entries()[0]);
                        assert(default_tick_entries()[0].name == STAGE_FIRST@);
                    }
                }
                crate::schedule::lemma_find_from_absent(self@.app.schedule, STAGE_PRE_EVENT@, 0);
            }
        }
        let r5 = self.add_stage(STAGE_PRE_EVENT, StageVariant::Systems(SystemStage::parallel()));
        proof {
            if fresh0 {
                assert(self@.app.schedule.entries[1 as int].stage->Systems_0
                    =~= fresh_parallel_stage()->Systems_0);
                assert(self@.app.schedule.entries =~= default_tick_entries().take(2));
            }
        }
        if let Err(e) = r5 {
            proof {
                if fresh0 {
                    assert(false);
                }
            }
            return Err(e);
        }
        proof {
            if fresh0 {
                assert forall|i: int|
                    0 <= i < self@.app.schedule.entries.len() implies (
                #[trigger] self@.app.schedule.entries[i]).name != STAGE_EVENT@ by {
                    if i == 0 {
                        assert(self@.app.schedule.entries[0] == default_tick_entries()[0]);
                        assert(default_tick_entries()[0].name == STAGE_FIRST@);
                    }
                    if i == 1 {
                        assert(self@.app.schedule.entries[1] == default_tick_entries()[1]);
                        assert(default_tick_entries()[1].name == STAGE_PRE_EVENT@);
                    }
                }
                crate::schedule::lemma_find_from_absent(self@.app.schedule, STAGE_EVENT@, 0);
            }
        }
        let r6 = self.add_stage(STAGE_EVENT, StageVariant::Systems(SystemStage::parallel()));
        proof {
            if fresh0 {
                assert(self@.app.schedule.entries[2 as int].stage->Systems_0
                    =~= fresh_parallel_stage()->Systems_0);
                assert(self@.app.schedule.entries =~= default_tick_entries().take(3));
            }
        }
        if let Err(e) = r6 {
            proof {
                if fresh0 {
                    assert(false);
                }
            }
            return Err(e);
        }
        proof {
            if fresh0 {
                assert forall|i: int|
                    0 <= i < self@.app.schedule.entries.len() implies (
                #[trigger] self@.app.schedule.entries[i]).name != STAGE_PRE_UPDATE@ by {
                    assert(self@.app.schedule.entries.len() == 3);
                    assert(STAGE_PRE_UPDATE@ == "pre_update"@);
                    assert("pre_update"@.len() == 10);
                    if i == 0 {
                        assert(self@.app.schedule.entries[0] == default_tick_entries()[0]);
                        assert(default_tick_entries()[0].name == STAGE_FIRST@);
                        assert("first"@.len() == 5);
                    }
                    if i == 1 {
                        assert(self@.app.schedule.entries[1] == default_tick_entries()[1]);
                        assert(default_tick_entries()[1].name == STAGE_PRE_EVENT@);
                        assert("pre_event"@.len() == 9);
                    }
                    if i == 2 {
                        assert(self@.app.schedule.entries[2] == default_tick_entries()[2]);
                        assert(default_tick_entries()[2].name == STAGE_EVENT@);
                        assert("event"@.len() == 5);
                    }
                }
                crate::schedule::lemma_find_from_absent(self@.app.schedule, STAGE_PRE_UPDATE@, 0);
            }
        }
        let r7 = self.add_stage(STAGE_PRE_UPDATE, StageVariant::Systems(SystemStage::parallel()));
        proof {
            if fresh0 {
                assert(self@.app.schedule.entries[3 as int].stage->Systems_0
                    =~= fresh_parallel_stage()->Systems_0);
                assert(self@.app.schedule.entries =~= default_tick_entries().take(4));
            }
        }
        if let Err(e) = r7 {
            proof {
                if fresh0 {
                    assert(false);
                }
            }
            return Err(e);
        }
        proof {
            if fresh0 {
                assert forall|i: int|
                    0 <= i < self@.app.schedule.entries.len() implies (
                #[trigger] self@.app.schedule.entries[i]).name != STAGE_UPDATE@ by {
                    assert(self@.app.schedule.entries.len() == 4);
                    assert(STAGE_UPDATE@ == "update"@);
                    assert("update"@.len() == 6);
                    if i == 0 {
                        assert(self@.app.schedule.entries[0] == default_tick_entries()[0]);
                        assert(default_tick_entries()[0].name == STAGE_FIRST@);
                        assert("first"@.len() == 5);
                    }
                    if i == 1 {
                        assert(self@.app.schedule.entries[1] == default_tick_entries()[1]);
                        assert(default_tick_entries()[1].name == STAGE_PRE_EVENT@);
                        assert("pre_event"@.len() == 9);
                    }
                    if i == 2 {
                        assert(self@.app.schedule.entries[2] == default_tick_entries()[2]);
                        assert(default_tick_entries()[2].name == STAGE_EVENT@);
                        assert("event"@.len() == 5);
                    }
                    if i == 3 {
                        assert(self@.app.schedule.entries[3] == default_tick_entries()[3]);
                        assert(default_tick_entries()[3].name == STAGE_PRE_UPDATE@);
                        assert("pre_update"@.len() == 10);
                    }
                }
                crate::schedule::lemma_find_from_absent(self@.app.schedule, STAGE_UPDATE@, 0);
            }
        }
        let r8 = self.add_stage(STAGE_UPDATE, StageVariant::Systems(SystemStage::parallel()));
        proof {
            if fresh0 {
                assert(self@.app.schedule.entries[4 as int].stage->Systems_0
                    =~= fresh_parallel_stage()->Systems_0);
                assert(self@.app.schedule.entries =~= default_tick_entries().take(5));
            }
        }
        if let Err(e) = r8 {
            proof {
                if fresh0 {
                    assert(false);
                }
            }
            return Err(e);
        }
        proof {
            if fresh0 {
                assert forall|i: int|
                    0 <= i < self@.app.schedule.entries.len() implies (
                #[trigger] self@.app.schedule.entries[i]).name != STAGE_POST_UPDATE@ by {
                    assert(self@.app.schedule.entries.len() == 5);
                    assert(STAGE_POST_UPDATE@ == "post_update"@);
                    assert("post_update"@.len() == 11);
                    if i == 0 {
                        assert(self@.app.schedule.entries[0] == default_tick_entries()[0]);
                        assert(default_tick_entries()[0].name == STAGE_FIRST@);
                        assert("first"@.len() == 5);
                    }
                    if i == 1 {
                        assert(self@.app.schedule.entries[1] == default_tick_entries()[1]);
                        assert(default_tick_entries()[1].name == STAGE_PRE_EVENT@);
                        assert("pre_event"@.len() == 9);
                    }
                    if i == 2 {
                        assert(self@.app.schedule.entries[2] == default_tick_entries()[2]);
                        assert(default_tick_entries()[2].name == STAGE_EVENT@);
                        assert("event"@.len() == 5);
                    }
                    if i == 3 {
                        assert(self@.app.schedule.entries[3] == default_tick_entries()[3]);
                        assert(default_tick_entries()[3].name == STAGE_PRE_UPDATE@);
                        assert("pre_update"@.len() == 10);
                    }
                    if i == 4 {
                        assert(self@.app.schedule.entries[4] == default_tick_entries()[4]);
                        assert(default_tick_entries()[4].name == STAGE_UPDATE@);
                        assert("update"@.len() == 6);
                    }
                }
                crate::schedule::lemma_find_from_absent(self@.app.schedule, STAGE_POST_UPDATE@, 0);
            }
        }
        let r9 = self.add_stage(STAGE_POST_UPDATE, StageVariant::Systems(SystemStage::parallel()));
        proof {
            if fresh0 {
                assert(self@.app.schedule.entries[5 as int].stage->Systems_0
                    =~= fresh_parallel_stage()->Systems_0);
                assert(self@.app.schedule.entries =~= default_tick_entries().take(6));
            }
        }
        if let Err(e) = r9 {
            proof {
                if fresh0 {
                    assert(false);
                }
            }
            return Err(e);
        }
        proof {
            if fresh0 {
                assert forall|i: int|
                    0 <= i < self@.app.schedule.entries.len() implies (
                #[trigger] self@.app.schedule.entries[i]).name != STAGE_LAST@ by {
                    assert(self@.app.schedule.entries.len() == 6);
                    assert(STAGE_LAST@ == "last"@);
                    assert("last"@.len() == 4);
                    if i == 0 {
                        assert(self@.app.schedule.entries[0] == default_tick_entries()[0]);
                        assert(default_tick_entries()[0].name == STAGE_FIRST@);
                        assert("first"@.len() == 5);
                    }
                    if i == 1 {
                        assert(self@.app.schedule.entries[1] == default_tick_entries()[1]);
                        assert(default_tick_entries()[1].name == STAGE_PRE_EVENT@);
                        assert("pre_event"@.len() == 9);
                    }
                    if i == 2 {
                        assert(self@.app.schedule.entries[2] == default_tick_entries()[2]);
                        assert(default_tick_entries()[2].name == STAGE_EVENT@);
                        assert("event"@.len() == 5);
                    }
                    if i == 3 {
                        assert(self@.app.schedule.entries[3] == default_tick_entries()[3]);
                        assert(default_tick_entries()[3].name == STAGE_PRE_UPDATE@);
                        assert("pre_update"@.len() == 10);
                    }
                    if i == 4 {
                        assert(self@.app.schedule.entries[4] == default_tick_entries()[4]);
                        assert(default_tick_entries()[4].name == STAGE_UPDATE@);
                        assert("update"@.len() == 6);
                    }
                    if i == 5 {
                        assert(self@.app.schedule.entries[5] == default_tick_entries()[5]);
                        assert(default_tick_entries()[5].name == STAGE_POST_UPDATE@);
                        assert("post_update"@.len() == 11);
                    }
                }
                crate::schedule::lemma_find_from_absent(self@.app.schedule, STAGE_LAST@, 0);
            }
        }
        let r10 = self.add_stage(STAGE_LAST, StageVariant::Systems(SystemStage::parallel()));
        proof {
            if fresh0 {
                assert(self@.app.schedule.entries[6 as int].stage->Systems_0
                    =~= fresh_parallel_stage()->Systems_0);
                assert(self@.app.schedule.entries =~= default_tick_entries().take(7));
            }
        }
        if let Err(e) = r10 {
            proof {
                if fresh0 {
                    assert(false);
                }
            }
            return Err(e);
        }
        proof {
            if fresh0 {
                assert(self@.app.startup_schedule.entries =~= default_startup_entries());
                assert(self@.app.schedule.entries =~= default_tick_entries());
            }
        }
        Ok(())
    }

    /// Registers an event stream: its log becomes present in the table.
    pub fn add_event(&mut self, channel: u64) -> (r: Result<(), ScheduleError>)
        ensures
            final(self)@.app.resources == old(self)@.app.resources.ensure_events(channel),
            final(self)@.app.world == old(self)@.app.world,
            final(self)@.app.schedule == old(self)@.app.schedule,
            final(self)@.app.startup_schedule == old(self)@.app.startup_schedule,
            final(self)@.app.runner == old(self)@.app.runner,
            r is Ok,
            builder_wf(old(self)@) ==> builder_wf(final(self)@),
    {
        self.app.resources.ensure_events(channel);
        Ok(())
    }

    /// Stores a resource value, overwriting any previous one.
    pub fn add_resource(&mut self, key: u64, value: i64) -> (r: Result<(), ScheduleError>)
        ensures
            final(self)@.app.resources == old(self)@.app.resources.insert_int(key, value, false),
            final(self)@.app.world == old(self)@.app.world,
            final(self)@.app.schedule == old(self)@.app.schedule,
            final(self)@.app.startup_schedule == old(self)@.app.startup_schedule,
            final(self)@.app.runner == old(self)@.app.runner,
            r is Ok,
            builder_wf(old(self)@) ==> builder_wf(final(self)@),
    {
        self.app.resources.insert_int(key, value);
        Ok(())
    }

    /// Stores a thread-pinned resource value.
    pub fn add_thread_local_resource(&mut self, key: u64, value: i64) -> (r: Result<
        (),
        ScheduleError,
    >)
        ensures
            final(self)@.app.resources == old(self)@.app.resources.insert_int(key, value, true),
            final(self)@.app.world == old(self)@.app.world,
            final(self)@.app.schedule == old(self)@.app.schedule,
            final(self)@.app.startup_schedule == old(self)@.app.startup_schedule,
            final(self)@.app.runner == old(self)@.app.runner,
            r is Ok,
            builder_wf(old(self)@) ==> builder_wf(final(self)@),
    {
        self.app.resources.insert_local_int(key, value);
        Ok(())
    }

    /// Stores the resource's built-from-resources value — the model's
    /// zero — overwriting any existing entry and marking it changed.
    pub fn init_resource(&mut self, key: u64) -> (r: Result<(), ScheduleError>)
        ensures
            final(self)@.app.resources == old(self)@.app.resources.insert_int(key, 0, false),
            final(self)@.app.world == old(self)@.app.world,
            final(self)@.app.schedule == old(self)@.app.schedule,
            final(self)@.app.startup_schedule == old(self)@.app.startup_schedule,
            final(self)@.app.runner == old(self)@.app.runner,
            r is Ok,
            builder_wf(old(self)@) ==> builder_wf(final(self)@),
    {
        self.app.resources.insert_int(key, 0);
        Ok(())
    }

    /// Stores the thread-pinned resource's built-from-resources value —
    /// the model's zero — overwriting any existing entry and marking it
    /// changed.
    pub fn init_thread_local_resource(&mut self, key: u64) -> (r: Result<(), ScheduleError>)
        ensures
            final(self)@.app.resources == old(self)@.app.resources.insert_int(key, 0, true),
            final(self)@.app.world == old(self)@.app.world,
            final(self)@.app.schedule == old(self)@.app.schedule,
            final(self)@.app.startup_schedule == old(self)@.app.startup_schedule,
            final(self)@.app.runner == old(self)@.app.runner,
            r is Ok,
            builder_wf(old(self)@) ==> builder_wf(final(self)@),
    {
        self.app.resources.insert_local_int(key, 0);
        Ok(())
    }

    /// Chooses how the application drives its main schedule.
    pub fn set_runner(&mut self, runner: Runner) -> (r: Result<(), ScheduleError>)
        ensures
            final(self)@.app == (AppData { runner, ..old(self)@.app }),
            r is Ok,
            builder_wf(old(self)@) ==> builder_wf(final(self)@),
    {
        self.app.runner = runner;
        Ok(())
    }

    /// Applies a plugin's configuration.
    pub fn add_plugin<T: Plugin>(&mut self, plugin: T) -> (r: Result<(), ScheduleError>)
        requires
            builder_wf(old(self)@),
        ensures
            builder_wf(final(self)@),
            r is Ok,
    {
        plugin.build(self);
        Ok(())
    }
}

impl Default for AppBuilder {
    /// A builder with the conventional stages installed, the
    /// application-exit event registered, and the change marks cleared
    /// at the end of each tick.
    fn default() -> (r: AppBuilder)
        ensures
            builder_wf(r@),
            r@.app.runner == Runner::Once,
    {
        let mut b = AppBuilder::empty();
        let _ = b.add_default_stages();
        let _ = b.add_event(APP_EXIT_EVENT);
        let _ = b.add_system_to_stage(STAGE_LAST, clear_trackers_system());
        b
    }
}

} // verus!
