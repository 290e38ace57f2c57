use ecs_core::into_system::{Action, IntoSystem, SystemDesc};
use ecs_core::resources::Resources;
use ecs_core::schedule::{Schedule, StageVariant};
use ecs_core::stage::{Stage, StageError, SystemStage};
use ecs_core::system::{FillSystemInput, System, SystemId, Value};
use ecs_core::world::{QueryShape, World};

fn shape(filter: Vec<u64>, reads: Vec<u64>, writes: Vec<u64>) -> QueryShape {
    QueryShape { filter, reads, writes }
}

fn build(desc: SystemDesc) -> System {
    desc.system().unwrap()
}

#[test]
fn changed_resource_system() {
    // A unit gated on a changed resource adds one to every matching
    // component; the run skips once the tick clears the marks.
    let flip: u64 = 10;
    let comp: u64 = 1;
    let mut world = World::new();
    let mut resources = Resources::new();
    resources.insert_int(flip, 0);
    let ent = world.spawn(vec![(comp, 0)]);

    let incr_e_on_flip = build(
        SystemDesc::new("incr_e_on_flip")
            .changed_res(flip)
            .query(shape(Vec::new(), Vec::new(), vec![comp]), "mut_query")
            .action(Action::QueryAdd { slot: 1, sub: 0, comp, delta: 1 }),
    );

    let mut schedule = Schedule::new();
    schedule
        .add_stage("update", StageVariant::Systems(SystemStage::parallel()))
        .unwrap();
    schedule.add_system_to_stage("update", incr_e_on_flip).unwrap();

    schedule.run(&mut world, &mut resources).unwrap();
    assert_eq!(world.get(ent, comp), Some(1));

    schedule.run(&mut world, &mut resources).unwrap();
    assert_eq!(world.get(ent, comp), Some(1));

    resources.insert_int(flip, 1);
    schedule.run(&mut world, &mut resources).unwrap();
    assert_eq!(world.get(ent, comp), Some(2));
}

#[test]
#[should_panic]
fn conflicting_query_mut_system() {
    let a: u64 = 1;
    let mut world = World::new();
    let mut resources = Resources::new();
    world.spawn(vec![(a, 0)]);

    let sys = build(
        SystemDesc::new("sys")
            .query(shape(Vec::new(), Vec::new(), vec![a]), "q1")
            .query(shape(Vec::new(), Vec::new(), vec![a]), "q2"),
    );

    let mut schedule = Schedule::new();
    schedule
        .add_stage("update", StageVariant::Systems(SystemStage::parallel()))
        .unwrap();
    schedule.add_system_to_stage("update", sys).unwrap();

    schedule.run(&mut world, &mut resources).unwrap();
}

#[test]
#[should_panic]
fn conflicting_query_immut_system() {
    let a: u64 = 1;
    let mut world = World::new();
    let mut resources = Resources::new();
    world.spawn(vec![(a, 0)]);

    let sys = build(
        SystemDesc::new("sys")
            .query(shape(Vec::new(), vec![a], Vec::new()), "q1")
            .query(shape(Vec::new(), Vec::new(), vec![a]), "q2"),
    );

    let mut schedule = Schedule::new();
    schedule
        .add_stage("update", StageVariant::Systems(SystemStage::parallel()))
        .unwrap();
    schedule.add_system_to_stage("update", sys).unwrap();

    schedule.run(&mut world, &mut resources).unwrap();
}

#[test]
fn query_set_system() {
    // A bundled parameter's shapes are validated pairwise too; these
    // two do not collide on any slot the store has.
    let a: u64 = 1;
    let b: u64 = 2;
    let mut world = World::new();
    let mut resources = Resources::new();
    world.spawn(vec![(a, 0)]);

    let sys = build(
        SystemDesc::new("sys").query_set(
            vec![
                shape(Vec::new(), Vec::new(), vec![a]),
                shape(Vec::new(), vec![b], Vec::new()),
            ],
            "set",
        ),
    );

    let mut schedule = Schedule::new();
    schedule
        .add_stage("update", StageVariant::Systems(SystemStage::parallel()))
        .unwrap();
    schedule.add_system_to_stage("update", sys).unwrap();

    schedule.run(&mut world, &mut resources).unwrap();
}

#[test]
#[should_panic]
fn conflicting_query_with_query_set_system() {
    let a: u64 = 1;
    let b: u64 = 2;
    let mut world = World::new();
    let mut resources = Resources::new();
    world.spawn(vec![(a, 0)]);

    let sys = build(
        SystemDesc::new("sys")
            .query(shape(Vec::new(), Vec::new(), vec![a]), "query")
            .query_set(
                vec![
                    shape(Vec::new(), Vec::new(), vec![a]),
                    shape(Vec::new(), vec![b], Vec::new()),
                ],
                "set",
            ),
    );

    let mut schedule = Schedule::new();
    schedule
        .add_stage("update", StageVariant::Systems(SystemStage::parallel()))
        .unwrap();
    schedule.add_system_to_stage("update", sys).unwrap();

    schedule.run(&mut world, &mut resources).unwrap();
}

#[test]
#[should_panic]
fn conflicting_query_sets_system() {
    let a: u64 = 1;
    let b: u64 = 2;
    let mut world = World::new();
    let mut resources = Resources::new();
    world.spawn(vec![(a, 0)]);

    let sys = build(
        SystemDesc::new("sys")
            .query_set(vec![shape(Vec::new(), Vec::new(), vec![a])], "set_1")
            .query_set(
                vec![
                    shape(Vec::new(), Vec::new(), vec![a]),
                    shape(Vec::new(), vec![b], Vec::new()),
                ],
                "set_2",
            ),
    );

    let mut schedule = Schedule::new();
    schedule
        .add_stage("update", StageVariant::Systems(SystemStage::parallel()))
        .unwrap();
    schedule.add_system_to_stage("update", sys).unwrap();

    schedule.run(&mut world, &mut resources).unwrap();
}

#[test]
fn conflict_error_names_both_queries() {
    // A unit with two mutually exclusive write-queries over one shape
    // fails at its first initialization pass, citing both declarations
    // by their labels.
    let a: u64 = 1;
    let mut world = World::new();
    let mut resources = Resources::new();
    world.spawn(vec![(a, 0)]);

    let sys = build(
        SystemDesc::new("clashing")
            .query(shape(Vec::new(), Vec::new(), vec![a]), "first_writer")
            .query(shape(Vec::new(), Vec::new(), vec![a]), "second_writer"),
    );

    let mut stage = SystemStage::serial();
    stage.add_system_boxed(sys).unwrap();
    let err = stage.run(&mut world, &mut resources).unwrap_err();
    assert_eq!(err.system_name, "clashing");
    assert_eq!(err.query, "second_writer");
    assert_eq!(err.prior_query, "first_writer");
}

#[test]
fn no_conflict_without_matching_archetype() {
    // Two write-queries over one shape collide only on slots the store
    // actually has; an empty store has none.
    let a: u64 = 1;
    let mut world = World::new();
    let mut resources = Resources::new();

    let sys = build(
        SystemDesc::new("sys")
            .query(shape(Vec::new(), Vec::new(), vec![a]), "q1")
            .query(shape(Vec::new(), Vec::new(), vec![a]), "q2"),
    );

    let mut stage = SystemStage::parallel();
    stage.add_system_boxed(sys).unwrap();
    stage.run(&mut world, &mut resources).unwrap();
}

#[test]
fn duplicate_identifier_rejected_at_append() {
    // The second unit carrying an already-registered identifier is
    // rejected when appended, before anything runs, naming the
    // identifier.
    let first = SystemDesc::new("first").with_id(SystemId(42)).system().unwrap();
    let second = SystemDesc::new("second").with_id(SystemId(42)).system().unwrap();

    let mut stage = SystemStage::parallel();
    stage.add_system_boxed(first).unwrap();
    let err = stage.add_system_boxed(second).unwrap_err();
    assert_eq!(err, StageError::SystemAlreadyExists(SystemId(42)));
}

#[test]
fn serial_and_parallel_agree_on_disjoint_writes() {
    // Units whose bodies write disjoint resources end in the same
    // final resource state under either executor.
    let k1: u64 = 100;
    let k2: u64 = 200;

    let run_with = |mut stage: SystemStage| -> (Option<i64>, Option<i64>) {
        let u1 = build(
            SystemDesc::new("writer_one").res_mut(k1).action(Action::SetRes {
                slot: 0,
                value: 10,
            }),
        );
        let u2 = build(
            SystemDesc::new("writer_two").res_mut(k2).action(Action::AddRes {
                slot: 0,
                delta: 20,
            }),
        );
        stage.add_system_boxed(u1).unwrap();
        stage.add_system_boxed(u2).unwrap();
        let mut world = World::new();
        let mut resources = Resources::new();
        stage.run(&mut world, &mut resources).unwrap();
        (resources.get_int(k1), resources.get_int(k2))
    };

    let serial = run_with(SystemStage::serial());
    let parallel = run_with(SystemStage::parallel());
    assert_eq!(serial, parallel);
    assert_eq!(serial, (Some(10), Some(20)));
}

#[test]
fn batch_spawns_flush_after_batch_in_registration_order() {
    // Two units spawn one entity each inside one batch; a counting
    // unit in the same batch observes neither, a later stage observes
    // both, and the flush applies in registration order whatever order
    // the batch ran in.
    let comp: u64 = 7;
    let during: u64 = 300;
    let after: u64 = 301;

    let spawn_x = build(
        SystemDesc::new("spawn_x").commands().action(Action::Spawn {
            slot: 0,
            components: vec![(comp, 111)],
        }),
    );
    let spawn_y = build(
        SystemDesc::new("spawn_y").commands().action(Action::Spawn {
            slot: 0,
            components: vec![(comp, 222)],
        }),
    );
    let count_during = build(
        SystemDesc::new("count_during")
            .query(shape(vec![comp], Vec::new(), Vec::new()), "count_query")
            .res_mut(during)
            .action(Action::QueryCountTo { slot: 0, sub: 0, target: 1 }),
    );
    let count_after = build(
        SystemDesc::new("count_after")
            .query(shape(vec![comp], Vec::new(), Vec::new()), "count_query")
            .res_mut(after)
            .action(Action::QueryCountTo { slot: 0, sub: 0, target: 1 }),
    );

    let mut world = World::new();
    let mut resources = Resources::new();

    let mut schedule = Schedule::new();
    schedule
        .add_stage("spawners", StageVariant::Systems(SystemStage::parallel()))
        .unwrap();
    schedule
        .add_stage("observers", StageVariant::Systems(SystemStage::parallel()))
        .unwrap();
    schedule.add_system_to_stage("spawners", spawn_x).unwrap();
    schedule.add_system_to_stage("spawners", spawn_y).unwrap();
    schedule.add_system_to_stage("spawners", count_during).unwrap();
    schedule.add_system_to_stage("observers", count_after).unwrap();

    schedule.run(&mut world, &mut resources).unwrap();

    // no query during the batch observed the spawns
    assert_eq!(resources.get_int(during), Some(0));
    // a later stage observes both
    assert_eq!(resources.get_int(after), Some(2));
    // the flush ran in registration order: x took the first identifier
    assert_eq!(world.get(0, comp), Some(111));
    assert_eq!(world.get(1, comp), Some(222));
}

#[test]
fn deferred_commands_apply_at_flush() {
    // Every deferred-mutation kind reaches the store exactly once, in
    // submission order, at the unit's flush point.
    let comp: u64 = 3;
    let res_in: u64 = 400;
    let res_out: u64 = 401;

    let mut world = World::new();
    let mut resources = Resources::new();
    resources.insert_int(res_out, 5);
    let doomed = world.spawn(vec![(comp, 9)]);

    let unit = build(
        SystemDesc::new("mutator")
            .commands()
            .action(Action::Spawn { slot: 0, components: vec![(comp, 1)] })
            .action(Action::Despawn { slot: 0, entity: doomed })
            .action(Action::InsertResourceCmd { slot: 0, key: res_in, value: 77 })
            .action(Action::RemoveResourceCmd { slot: 0, key: res_out }),
    );

    let mut stage = SystemStage::serial();
    stage.add_system_boxed(unit).unwrap();
    stage.run(&mut world, &mut resources).unwrap();

    assert_eq!(world.get(doomed, comp), None);
    assert_eq!(world.get(1, comp), Some(1));
    assert_eq!(resources.get_int(res_in), Some(77));
    assert_eq!(resources.get_int(res_out), None);
}

#[test]
fn invalid_descriptor_rejected() {
    // An action addressing a parameter of the wrong kind never becomes
    // a unit.
    let desc = SystemDesc::new("broken").res(1).action(Action::SetRes { slot: 0, value: 1 });
    assert!(desc.system().is_err());

    let desc = SystemDesc::new("broken").action(Action::Despawn { slot: 0, entity: 0 });
    assert!(desc.system().is_err());

    let unsorted = SystemDesc::new("broken").commands().action(Action::Spawn {
        slot: 0,
        components: vec![(2, 0), (1, 0)],
    });
    assert!(unsorted.system().is_err());
}

#[test]
fn curried_input_reaches_the_body() {
    let target: u64 = 500;
    let handler = build(
        SystemDesc::new("handler").res_mut(target).action(Action::CopyInput {
            part: 0,
            slot: 0,
            missing: -1,
        }),
    );
    let curried = handler.input(Value::Int(99));

    let mut stage = SystemStage::serial();
    stage.add_system_boxed(curried).unwrap();
    let mut world = World::new();
    let mut resources = Resources::new();
    stage.run(&mut world, &mut resources).unwrap();
    assert_eq!(resources.get_int(target), Some(99));
}

#[test]
fn invalid_and_duplicate_units_are_rejected_everywhere() {
    // the generic append path builds and validates in one step
    let mut stage = SystemStage::parallel();
    let broken = SystemDesc::new("broken").res(1).action(Action::SetRes { slot: 0, value: 1 });
    assert_eq!(stage.add_system(broken).unwrap_err(), StageError::InvalidSystem);

    // a duplicate identifier surfaces through the schedule as well
    let mut schedule = Schedule::new();
    schedule
        .add_stage("update", StageVariant::Systems(SystemStage::parallel()))
        .unwrap();
    let d1 = SystemDesc::new("one").with_id(SystemId(9)).system().unwrap();
    let d2 = SystemDesc::new("two").with_id(SystemId(9)).system().unwrap();
    schedule.add_system_to_stage("update", d1).unwrap();
    let err = schedule.add_system_to_stage("update", d2).unwrap_err();
    assert_eq!(
        err,
        ecs_core::schedule::ScheduleError::SystemAlreadyExists(SystemId(9))
    );
}

#[test]
fn conflicting_queries_within_one_set() {
    // Two mutually exclusive write-queries inside one bundled
    // parameter fail at the first initialization pass, citing the
    // parameter's declaration for both sides.
    let a: u64 = 1;
    let mut world = World::new();
    let mut resources = Resources::new();
    world.spawn(vec![(a, 0)]);

    let sys = build(
        SystemDesc::new("bundled").query_set(
            vec![
                shape(Vec::new(), Vec::new(), vec![a]),
                shape(Vec::new(), Vec::new(), vec![a]),
            ],
            "clashing_set",
        ),
    );

    let mut stage = SystemStage::serial();
    stage.add_system_boxed(sys).unwrap();
    let err = stage.run(&mut world, &mut resources).unwrap_err();
    assert_eq!(err.system_name, "bundled");
    assert_eq!(err.query, "clashing_set");
    assert_eq!(err.prior_query, "clashing_set");
}
