use ecs_core::access::TypeAccess;
use ecs_core::commands::Commands;
use ecs_core::resources::Resources;
use ecs_core::world::{QueryShape, World};

#[test]
fn access_compatibility() {
    let mut a = TypeAccess::new();
    let mut b = TypeAccess::new();
    a.add_read(1);
    b.add_read(1);
    assert!(a.is_compatible(&b));

    b.add_write(1);
    assert!(!a.is_compatible(&b));
    assert_eq!(a.get_conflict(&b), Some(1));

    let mut c = TypeAccess::new();
    c.add_write(2);
    assert!(a.is_compatible(&c));
    assert_eq!(a.get_conflict(&c), None);

    let mut d = TypeAccess::new();
    d.add_write(7);
    d.add_write(1);
    // the first colliding key of the writer's list is reported
    assert_eq!(d.get_conflict(&b), Some(1));
}

#[test]
fn access_union_merges() {
    let mut a = TypeAccess::new();
    a.add_read(1);
    let mut b = TypeAccess::new();
    b.add_write(2);
    a.union(&b);
    let mut w = TypeAccess::new();
    w.add_read(2);
    assert!(!a.is_compatible(&w));
}

#[test]
fn world_spawn_get_despawn() {
    let mut world = World::new();
    let e0 = world.spawn(vec![(1, 10), (2, 20)]);
    let e1 = world.spawn(vec![(1, 11)]);
    assert_eq!(e0, 0);
    assert_eq!(e1, 1);
    assert_eq!(world.get(e0, 1), Some(10));
    assert_eq!(world.get(e0, 2), Some(20));
    assert_eq!(world.get(e1, 1), Some(11));
    assert_eq!(world.get(e1, 2), None);

    world.despawn(e0);
    assert_eq!(world.get(e0, 1), None);
    assert_eq!(world.get(e1, 1), Some(11));
}

#[test]
fn world_query_add_and_count() {
    let mut world = World::new();
    world.spawn(vec![(1, 0)]);
    world.spawn(vec![(1, 5), (2, 0)]);
    world.spawn(vec![(3, 9)]);

    let has_one = QueryShape { filter: vec![1], reads: Vec::new(), writes: Vec::new() };
    assert_eq!(world.query_count(&has_one), 2);

    let bump = QueryShape { filter: Vec::new(), reads: Vec::new(), writes: vec![1] };
    world.query_add(&bump, 1, 100);
    assert_eq!(world.get(0, 1), Some(100));
    assert_eq!(world.get(1, 1), Some(105));
    assert_eq!(world.get(2, 3), Some(9));
}

#[test]
fn resources_tracking() {
    let mut r = Resources::new();
    assert_eq!(r.get_int(1), None);
    assert!(!r.contains(1));

    r.insert_int(1, 42);
    assert!(r.contains(1));
    assert_eq!(r.get_int(1), Some(42));
    assert!(r.is_changed(1));

    r.clear_trackers();
    assert!(!r.is_changed(1));
    assert_eq!(r.get_int(1), Some(42));

    r.insert_int(1, 43);
    assert!(r.is_changed(1));

    r.remove(1);
    assert!(!r.contains(1));
}

#[test]
fn resources_event_logs() {
    let mut r = Resources::new();
    assert_eq!(r.events_len(9), 0);
    r.append_event(9, 5);
    r.append_event(9, 6);
    assert_eq!(r.events_len(9), 2);
    assert_eq!(r.event_at(9, 0), Some(5));
    assert_eq!(r.event_at(9, 1), Some(6));
    assert_eq!(r.event_at(9, 2), None);

    r.ensure_events(9);
    assert_eq!(r.events_len(9), 2);
}

#[test]
fn commands_apply_in_submission_order() {
    let mut world = World::new();
    let mut resources = Resources::new();
    let mut commands = Commands::new();
    commands.spawn(vec![(1, 7)]);
    commands.insert_resource(5, 50);
    commands.spawn(vec![(1, 8)]);
    assert_eq!(commands.len(), 3);

    commands.apply(&mut world, &mut resources);
    assert_eq!(commands.len(), 0);
    assert_eq!(world.get(0, 1), Some(7));
    assert_eq!(world.get(1, 1), Some(8));
    assert_eq!(resources.get_int(5), Some(50));
}

#[test]
fn saturating_component_arithmetic() {
    let mut world = World::new();
    let ent = world.spawn(vec![(1, i64::MAX)]);
    let bump = QueryShape { filter: Vec::new(), reads: Vec::new(), writes: vec![1] };
    world.query_add(&bump, 1, 1);
    // the write wraps rather than aborting the tick
    assert_eq!(world.get(ent, 1), Some(i64::MIN));
}
