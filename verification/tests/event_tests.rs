use ecs_core::any_event_stage::AnyEventStage;
use ecs_core::event_stage::EventStage;
use ecs_core::into_system::{Action, IntoSystem, SystemDesc};
use ecs_core::resources::Resources;
use ecs_core::stage::Stage;
use ecs_core::world::World;

#[test]
fn single_stream_stage_drains_three_items() {
    // A single-stream event stage pre-loaded with three unread items
    // invokes its contained unit exactly three times in one pass, then
    // stops looping.
    let channel: u64 = 5;
    let counter: u64 = 100;
    let last_seen: u64 = 101;

    let mut world = World::new();
    let mut resources = Resources::new();
    resources.append_event(channel, 11);
    resources.append_event(channel, 22);
    resources.append_event(channel, 33);

    let handler = SystemDesc::new("handler")
        .res_mut(counter)
        .res_mut(last_seen)
        .action(Action::AddRes { slot: 0, delta: 1 })
        .action(Action::CopyInput { part: 0, slot: 1, missing: -1 })
        .system()
        .unwrap();

    let mut stage = EventStage::serial(channel);
    stage.add_system(handler).unwrap();

    stage.run(&mut world, &mut resources).unwrap();
    assert_eq!(resources.get_int(counter), Some(3));
    assert_eq!(resources.get_int(last_seen), Some(33));

    // nothing is left unread: another tick invokes nothing
    stage.run(&mut world, &mut resources).unwrap();
    assert_eq!(resources.get_int(counter), Some(3));
}

#[test]
fn single_stream_items_arrive_in_order() {
    let channel: u64 = 6;
    let sum: u64 = 110;
    let last_seen: u64 = 111;

    let mut world = World::new();
    let mut resources = Resources::new();
    resources.append_event(channel, 1);
    resources.append_event(channel, 2);

    let handler = SystemDesc::new("handler")
        .res_mut(sum)
        .res_mut(last_seen)
        .action(Action::AddRes { slot: 0, delta: 1 })
        .action(Action::CopyInput { part: 0, slot: 1, missing: -1 })
        .system()
        .unwrap();

    let mut stage = EventStage::parallel(channel);
    stage.add_system(handler).unwrap();
    stage.run(&mut world, &mut resources).unwrap();

    // two passes ran; the second item was delivered last
    assert_eq!(resources.get_int(sum), Some(2));
    assert_eq!(resources.get_int(last_seen), Some(2));

    // a later arrival is picked up from the stage's own cursor
    resources.append_event(channel, 9);
    stage.run(&mut world, &mut resources).unwrap();
    assert_eq!(resources.get_int(sum), Some(3));
    assert_eq!(resources.get_int(last_seen), Some(9));
}

#[test]
fn joint_stage_delivers_only_pending_stream() {
    // A joint three-stream stage with only stream B holding one
    // pending item delivers (absent, present, absent) exactly once,
    // then stops.
    let (ca, cb, cc): (u64, u64, u64) = (20, 21, 22);
    let counter: u64 = 200;
    let got_a: u64 = 201;
    let got_b: u64 = 202;
    let got_c: u64 = 203;
    let missing: i64 = -999;

    let mut world = World::new();
    let mut resources = Resources::new();
    resources.append_event(cb, 7);

    let handler = SystemDesc::new("handler")
        .res_mut(counter)
        .res_mut(got_a)
        .res_mut(got_b)
        .res_mut(got_c)
        .action(Action::AddRes { slot: 0, delta: 1 })
        .action(Action::CopyInput { part: 0, slot: 1, missing })
        .action(Action::CopyInput { part: 1, slot: 2, missing })
        .action(Action::CopyInput { part: 2, slot: 3, missing })
        .system()
        .unwrap();

    let mut stage = AnyEventStage::serial(ca, cb, cc);
    stage.add_system(handler).unwrap();

    stage.run(&mut world, &mut resources).unwrap();
    assert_eq!(resources.get_int(counter), Some(1));
    assert_eq!(resources.get_int(got_a), Some(missing));
    assert_eq!(resources.get_int(got_b), Some(7));
    assert_eq!(resources.get_int(got_c), Some(missing));

    stage.run(&mut world, &mut resources).unwrap();
    assert_eq!(resources.get_int(counter), Some(1));
}

#[test]
fn joint_stage_loops_until_all_streams_drain() {
    let (ca, cb, cc): (u64, u64, u64) = (30, 31, 32);
    let counter: u64 = 210;

    let mut world = World::new();
    let mut resources = Resources::new();
    resources.append_event(ca, 1);
    resources.append_event(ca, 2);
    resources.append_event(cc, 3);

    let handler = SystemDesc::new("handler")
        .res_mut(counter)
        .action(Action::AddRes { slot: 0, delta: 1 })
        .system()
        .unwrap();

    let mut stage = AnyEventStage::serial(ca, cb, cc);
    stage.add_system(handler).unwrap();
    stage.run(&mut world, &mut resources).unwrap();

    // stream A held two items, so two passes ran
    assert_eq!(resources.get_int(counter), Some(2));
}

#[test]
fn independent_cursors_per_stage() {
    // Two stages consume the same log from independent read positions.
    let channel: u64 = 40;
    let c1: u64 = 220;
    let c2: u64 = 221;

    let mut world = World::new();
    let mut resources = Resources::new();
    resources.append_event(channel, 5);

    let h1 = SystemDesc::new("h1")
        .res_mut(c1)
        .action(Action::AddRes { slot: 0, delta: 1 })
        .system()
        .unwrap();
    let h2 = SystemDesc::new("h2")
        .res_mut(c2)
        .action(Action::AddRes { slot: 0, delta: 1 })
        .system()
        .unwrap();

    let mut s1 = EventStage::serial(channel);
    s1.add_system(h1).unwrap();
    let mut s2 = EventStage::serial(channel);
    s2.add_system(h2).unwrap();

    s1.run(&mut world, &mut resources).unwrap();
    s2.run(&mut world, &mut resources).unwrap();

    assert_eq!(resources.get_int(c1), Some(1));
    assert_eq!(resources.get_int(c2), Some(1));
}
