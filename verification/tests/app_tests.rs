use ecs_core::app::{
    clear_trackers_system, AppBuilder, Runner, STAGE_LAST, STAGE_UPDATE,
};
use ecs_core::into_system::{Action, IntoSystem, SystemDesc};
use ecs_core::resources::Resources;
use ecs_core::schedule::{Schedule, ScheduleError, StageVariant};
use ecs_core::stage::SystemStage;
use ecs_core::system::AsChainSystem;
use ecs_core::world::World;

fn adder(name: &str, key: u64, delta: i64) -> ecs_core::system::System {
    SystemDesc::new(name)
        .res_mut(key)
        .action(Action::AddRes { slot: 0, delta })
        .system()
        .unwrap()
}

fn setter(name: &str, key: u64, value: i64) -> ecs_core::system::System {
    SystemDesc::new(name)
        .res_mut(key)
        .action(Action::SetRes { slot: 0, value })
        .system()
        .unwrap()
}

#[test]
fn schedule_runs_stages_in_insertion_order() {
    let key: u64 = 1;
    let mut schedule = Schedule::new();
    schedule
        .add_stage("second", StageVariant::Systems(SystemStage::serial()))
        .unwrap();
    schedule
        .add_stage_before("second", "first", StageVariant::Systems(SystemStage::serial()))
        .unwrap();
    schedule
        .add_stage_after("second", "third", StageVariant::Systems(SystemStage::serial()))
        .unwrap();

    schedule.add_system_to_stage("first", setter("s1", key, 1)).unwrap();
    schedule.add_system_to_stage("second", setter("s2", key, 2)).unwrap();
    schedule.add_system_to_stage("third", setter("s3", key, 3)).unwrap();

    let mut world = World::new();
    let mut resources = Resources::new();
    schedule.run(&mut world, &mut resources).unwrap();
    // the last stage in order wrote last
    assert_eq!(resources.get_int(key), Some(3));
}

#[test]
fn schedule_rejects_duplicate_and_unknown_names() {
    let mut schedule = Schedule::new();
    schedule
        .add_stage("update", StageVariant::Systems(SystemStage::parallel()))
        .unwrap();
    let dup = schedule.add_stage("update", StageVariant::Systems(SystemStage::parallel()));
    assert_eq!(dup.unwrap_err(), ScheduleError::StageAlreadyExists);

    let missing = schedule.add_system_to_stage("absent", setter("s", 1, 1));
    assert_eq!(missing.unwrap_err(), ScheduleError::StageNotFound);
}

#[test]
fn app_builder_runs_startup_then_updates() {
    let counter: u64 = 10;
    let startup_mark: u64 = 11;

    let mut builder = AppBuilder::default();
    builder.add_resource(counter, 0).unwrap();
    builder.add_startup_system(setter("mark", startup_mark, 123)).unwrap();
    builder.add_system(adder("tick", counter, 1)).unwrap();
    builder.set_runner(Runner::Times(3)).unwrap();

    builder.run().unwrap();

    // startup ran once, the update stage ran once per tick
    assert_eq!(builder.resources().get_int(startup_mark), Some(123));
    assert_eq!(builder.resources().get_int(counter), Some(3));
}

#[test]
fn change_marks_clear_each_tick() {
    let flag: u64 = 20;
    let gated_count: u64 = 21;

    let gated = |key| {
        SystemDesc::new("gated")
            .changed_res(flag)
            .res_mut(key)
            .action(Action::AddRes { slot: 1, delta: 1 })
            .system()
            .unwrap()
    };

    // a unit writing the flag during each tick keeps the change-gated
    // unit running every tick
    let mut builder = AppBuilder::default();
    builder.add_resource(flag, 0).unwrap();
    builder
        .add_system_to_stage(ecs_core::app::STAGE_FIRST, setter("writer", flag, 7))
        .unwrap();
    builder.add_system(gated(gated_count)).unwrap();
    builder.set_runner(Runner::Times(3)).unwrap();
    builder.run().unwrap();
    assert_eq!(builder.resources().get_int(gated_count), Some(3));

    // without an in-tick writer, marks set before the run are cleared
    // by the preceding schedule pass and the gated unit never fires
    let mut quiet = AppBuilder::default();
    quiet.add_resource(flag, 0).unwrap();
    quiet.add_system(gated(gated_count)).unwrap();
    quiet.set_runner(Runner::Times(3)).unwrap();
    quiet.run().unwrap();
    assert_eq!(quiet.resources().get_int(gated_count), Some(0));
}

#[test]
fn builder_stage_helpers() {
    let key: u64 = 30;
    let mut builder = AppBuilder::empty();
    builder.add_default_stages().unwrap();
    builder
        .add_system_to_stage(STAGE_UPDATE, setter("in_update", key, 1))
        .unwrap();
    builder
        .add_system_to_stage(STAGE_LAST, adder("in_last", key, 10))
        .unwrap();
    builder.run().unwrap();
    assert_eq!(builder.resources().get_int(key), Some(11));
}

#[test]
fn explicit_clear_trackers_unit() {
    let flag: u64 = 40;
    let seen: u64 = 41;

    let gated = SystemDesc::new("gated")
        .changed_res(flag)
        .res_mut(seen)
        .action(Action::AddRes { slot: 1, delta: 1 })
        .system()
        .unwrap();

    let mut schedule = Schedule::new();
    schedule
        .add_stage("update", StageVariant::Systems(SystemStage::serial()))
        .unwrap();
    schedule
        .add_stage("cleanup", StageVariant::Systems(SystemStage::serial()))
        .unwrap();
    schedule.add_system_to_stage("update", gated).unwrap();
    schedule
        .add_system_to_stage("cleanup", clear_trackers_system())
        .unwrap();

    let mut world = World::new();
    let mut resources = Resources::new();
    resources.insert_int(flag, 0);
    schedule.run(&mut world, &mut resources).unwrap();
    schedule.run(&mut world, &mut resources).unwrap();
    assert_eq!(resources.get_int(seen), Some(1));
}

#[test]
fn chained_units_share_one_invocation() {
    let key: u64 = 50;
    let a = setter("first_link", key, 5);
    let b = adder("second_link", key, 2);
    let chained = a.chain(b);
    assert!(chained.name().starts_with("Chain("));

    let mut stage = SystemStage::serial();
    stage.add_system_boxed(chained).unwrap();
    let mut world = World::new();
    let mut resources = Resources::new();
    ecs_core::stage::Stage::run(&mut stage, &mut world, &mut resources).unwrap();
    assert_eq!(resources.get_int(key), Some(7));
}

#[test]
fn init_resource_overwrites() {
    // initializing a resource stores the freshly built value even over
    // an existing entry
    let key: u64 = 60;
    let mut builder = AppBuilder::empty();
    builder.add_resource(key, 5).unwrap();
    builder.init_resource(key).unwrap();
    assert_eq!(builder.resources().get_int(key), Some(0));

    let absent: u64 = 61;
    builder.init_resource(absent).unwrap();
    assert_eq!(builder.resources().get_int(absent), Some(0));
}
