use bevy::ecs::entity::Entity;
use bevy::ecs::world::World;
use queue_delete::queue_delete_system;
use queue_delete::ref_delete::free_unused_entities;
use queue_delete::ref_delete::mark_unused_entities;
use queue_delete::ref_delete::Disconnected;
use queue_delete::ref_delete::Received;
use queue_delete::ref_delete::RefChange;
use queue_delete::ref_delete::RefEntityHandle;
use queue_delete::ref_delete::RefEntityPlugin;
use queue_delete::ref_delete::RefEntityServer;
use queue_delete::run_tick;
use queue_delete::BevyQueueDeletePlugin;
use queue_delete::FrameCountDelete;
use queue_delete::Phase;
use queue_delete::QueueDelete;
use queue_delete::TimerDelete;

fn tagged(world: &World, entity: Entity) -> bool {
    world.get::<QueueDelete>(entity).is_some()
}

fn alive(world: &World, entity: Entity) -> bool {
    world.get_entity(entity).is_some()
}

#[test]
fn new_server_knows_nothing() {
    let server = RefEntityServer::new();
    assert_eq!(server.ref_count(1), 0);
    assert!(server.pending().is_empty());
    let other = RefEntityServer::default();
    assert_eq!(other.ref_count(1), 0);
    assert!(other.pending().is_empty());
}

#[test]
fn increments_and_decrements_move_the_count() {
    let mut server = RefEntityServer::new();
    server.apply(RefChange::Increment(7));
    assert_eq!(server.ref_count(7), 1);
    server.apply(RefChange::Increment(7));
    server.apply(RefChange::Increment(8));
    assert_eq!(server.ref_count(7), 2);
    assert_eq!(server.ref_count(8), 1);
    server.apply(RefChange::Decrement(7));
    assert_eq!(server.ref_count(7), 1);
    assert!(server.pending().is_empty());
    server.apply(RefChange::Decrement(7));
    assert_eq!(server.ref_count(7), 0);
    assert_eq!(server.pending(), &vec![7]);
    assert_eq!(server.ref_count(8), 1);
}

#[test]
fn decrement_without_a_count_puts_the_object_down_as_pending() {
    let mut server = RefEntityServer::new();
    server.apply(RefChange::Decrement(3));
    assert_eq!(server.ref_count(3), 0);
    assert_eq!(server.pending(), &vec![3]);
    server.apply(RefChange::Increment(3));
    assert_eq!(server.ref_count(3), 1);
    server.apply(RefChange::Decrement(3));
    assert_eq!(server.pending(), &vec![3, 3]);
}

#[test]
fn apply_all_applies_in_order() {
    let mut server = RefEntityServer::new();
    server.apply_all(&vec![
        RefChange::Increment(1),
        RefChange::Increment(2),
        RefChange::Decrement(2),
        RefChange::Increment(2),
        RefChange::Decrement(1),
    ]);
    assert_eq!(server.ref_count(1), 0);
    assert_eq!(server.ref_count(2), 1);
    assert_eq!(server.pending(), &vec![2, 1]);
    server.apply_all(&Vec::new());
    assert_eq!(server.ref_count(2), 1);
    assert_eq!(server.pending(), &vec![2, 1]);
}

#[test]
fn weak_handle_sends_nothing() {
    let mut server = RefEntityServer::new();
    let weak = RefEntityHandle::weak(5);
    assert!(weak.is_weak());
    assert!(!weak.is_strong());
    assert_eq!(weak.entity(), 5);
    let copy = weak.try_clone().unwrap();
    assert!(copy.is_weak());
    assert_eq!(copy.entity(), 5);
    let again = weak.clone_weak();
    assert!(again.is_weak());
    let third = weak.as_weak();
    assert!(third.is_weak());
    assert_eq!(third.entity(), 5);
    assert_eq!(weak.release(), None);
    assert_eq!(copy.release(), None);
    assert_eq!(again.release(), None);
    assert_eq!(third.release(), None);
    assert_eq!(mark_unused_entities(&mut server), Ok(0));
    assert_eq!(server.ref_count(5), 0);
    assert!(server.pending().is_empty());
}

#[test]
fn default_handle_is_weak_and_points_nowhere() {
    let handle = RefEntityHandle::default();
    assert!(handle.is_weak());
    assert_eq!(handle.entity(), Entity::from_raw(u32::MAX).to_bits());
    assert_eq!(handle.release(), None);
}

#[test]
fn strong_handle_counts_once_it_is_drained() {
    let mut server = RefEntityServer::new();
    let handle = server.get_handle(5).unwrap();
    assert!(handle.is_strong());
    assert!(!handle.is_weak());
    assert_eq!(handle.entity(), 5);
    assert_eq!(server.ref_count(5), 0);
    assert_eq!(mark_unused_entities(&mut server), Ok(1));
    assert_eq!(server.ref_count(5), 1);
    let copy = handle.try_clone().unwrap();
    assert!(copy.is_strong());
    assert_eq!(copy.entity(), 5);
    assert_eq!(mark_unused_entities(&mut server), Ok(1));
    assert_eq!(server.ref_count(5), 2);
    assert_eq!(handle.release(), Some(RefChange::Decrement(5)));
    assert_eq!(mark_unused_entities(&mut server), Ok(1));
    assert_eq!(server.ref_count(5), 1);
    assert!(server.pending().is_empty());
    assert_eq!(copy.release(), Some(RefChange::Decrement(5)));
    assert_eq!(mark_unused_entities(&mut server), Ok(1));
    assert_eq!(server.ref_count(5), 0);
    assert_eq!(server.pending(), &vec![5]);
    assert_eq!(mark_unused_entities(&mut server), Ok(0));
}

#[test]
fn weak_views_of_a_strong_handle_leave_its_count() {
    let mut server = RefEntityServer::new();
    let handle = server.get_handle(9).unwrap();
    let weak = handle.as_weak();
    let other = handle.clone_weak();
    assert!(weak.is_weak());
    assert!(other.is_weak());
    assert_eq!(weak.entity(), 9);
    assert_eq!(other.entity(), 9);
    assert!(handle.is_strong());
    assert_eq!(weak.release(), None);
    assert_eq!(other.release(), None);
    assert_eq!(mark_unused_entities(&mut server), Ok(1));
    assert_eq!(server.ref_count(9), 1);
    assert!(server.pending().is_empty());
}

#[test]
fn handle_that_goes_out_of_scope_sends_its_decrement() {
    let mut world = World::new();
    let o = world.spawn().id();
    let mut server = RefEntityServer::new();
    {
        let _held = server.get_handle(o.to_bits()).unwrap();
        let _weak = RefEntityHandle::weak(o.to_bits());
        assert_eq!(mark_unused_entities(&mut server), Ok(1));
        assert_eq!(server.ref_count(o.to_bits()), 1);
    }
    assert_eq!(mark_unused_entities(&mut server), Ok(1));
    assert_eq!(server.ref_count(o.to_bits()), 0);
    assert_eq!(server.pending(), &vec![o.to_bits()]);
    free_unused_entities(&mut server, &mut world);
    assert!(tagged(&world, o));
}

#[test]
fn handle_kept_on_an_object_is_released_with_it() {
    let mut world = World::new();
    let target = world.spawn().id();
    let mut server = RefEntityServer::new();
    let handle = server.get_handle(target.to_bits()).unwrap();
    let holder = world.spawn().insert(handle).id();
    assert_eq!(mark_unused_entities(&mut server), Ok(1));
    assert_eq!(server.ref_count(target.to_bits()), 1);
    assert!(world.despawn(holder));
    assert_eq!(mark_unused_entities(&mut server), Ok(1));
    assert_eq!(server.ref_count(target.to_bits()), 0);
    free_unused_entities(&mut server, &mut world);
    assert!(tagged(&world, target));
}

#[test]
fn disconnected_says_what_went_wrong() {
    assert_eq!(Disconnected.message(), "RefChange channel disconnected.");
}

#[test]
fn upgrade_counts_once() {
    let mut server = RefEntityServer::new();
    let mut handle = RefEntityHandle::weak(4);
    assert_eq!(handle.make_strong(&server), Ok(Some(RefChange::Increment(4))));
    assert!(handle.is_strong());
    assert_eq!(handle.entity(), 4);
    assert_eq!(handle.make_strong(&server), Ok(None));
    assert!(handle.is_strong());
    assert_eq!(mark_unused_entities(&mut server), Ok(1));
    assert_eq!(server.ref_count(4), 1);
    assert_eq!(handle.release(), Some(RefChange::Decrement(4)));
    assert_eq!(mark_unused_entities(&mut server), Ok(1));
    assert_eq!(server.ref_count(4), 0);
}

#[test]
fn handles_that_outlive_the_server_fail_to_count() {
    let server = RefEntityServer::new();
    let handle = server.get_handle(4).unwrap();
    let mut weak = handle.as_weak();
    let other = RefEntityServer::new();
    drop(server);
    assert_eq!(handle.try_clone().err(), Some(Disconnected));
    assert_eq!(handle.release(), Some(RefChange::Decrement(4)));
    assert_eq!(weak.make_strong(&other), Ok(Some(RefChange::Increment(4))));
    drop(other);
    assert!(weak.try_clone().is_err());
}

#[test]
fn two_handles_released_before_the_drain_free_the_object() {
    let mut world = World::new();
    let o = world.spawn().id();
    let keep = world.spawn().id();
    let mut server = RefEntityServer::new();
    let first = server.get_handle(o.to_bits()).unwrap();
    let second = server.get_handle(o.to_bits()).unwrap();
    let kept = server.get_handle(keep.to_bits()).unwrap();
    assert_eq!(first.release(), Some(RefChange::Decrement(o.to_bits())));
    assert_eq!(second.release(), Some(RefChange::Decrement(o.to_bits())));
    assert_eq!(mark_unused_entities(&mut server), Ok(5));
    assert_eq!(server.ref_count(o.to_bits()), 0);
    assert_eq!(server.ref_count(keep.to_bits()), 1);
    free_unused_entities(&mut server, &mut world);
    assert!(server.pending().is_empty());
    assert!(tagged(&world, o));
    assert!(!tagged(&world, keep));
    queue_delete_system(&mut world);
    assert!(!alive(&world, o));
    assert!(alive(&world, keep));
    assert!(kept.is_strong());
}

#[test]
fn handle_made_after_a_release_keeps_the_object() {
    let mut world = World::new();
    let o = world.spawn().id();
    let mut server = RefEntityServer::new();
    let first = server.get_handle(o.to_bits()).unwrap();
    assert_eq!(mark_unused_entities(&mut server), Ok(1));
    assert_eq!(server.ref_count(o.to_bits()), 1);
    assert_eq!(first.release(), Some(RefChange::Decrement(o.to_bits())));
    let second = server.get_handle(o.to_bits()).unwrap();
    assert_eq!(mark_unused_entities(&mut server), Ok(2));
    assert_eq!(server.ref_count(o.to_bits()), 1);
    assert_eq!(server.pending(), &vec![o.to_bits()]);
    free_unused_entities(&mut server, &mut world);
    assert!(server.pending().is_empty());
    assert!(!tagged(&world, o));
    queue_delete_system(&mut world);
    assert!(alive(&world, o));
    assert!(second.is_strong());
}

#[test]
fn balanced_handles_free_the_object_and_one_more_keeps_it() {
    for extra in [false, true] {
        let mut world = World::new();
        let o = world.spawn().id();
        let mut server = RefEntityServer::new();
        let mut handles = Vec::new();
        for _ in 0..4 {
            handles.push(server.get_handle(o.to_bits()).unwrap());
        }
        let copy = handles[0].try_clone().unwrap();
        handles.push(copy);
        let spare = if extra { Some(server.get_handle(o.to_bits()).unwrap()) } else { None };
        for handle in handles {
            assert_eq!(handle.release(), Some(RefChange::Decrement(o.to_bits())));
        }
        assert_eq!(mark_unused_entities(&mut server), Ok(if extra { 11 } else { 10 }));
        assert_eq!(server.ref_count(o.to_bits()), if extra { 1 } else { 0 });
        free_unused_entities(&mut server, &mut world);
        assert_eq!(tagged(&world, o), !extra);
        assert!(spare.is_some() == extra);
    }
}

#[test]
fn object_that_is_gone_is_passed_over() {
    let mut world = World::new();
    let o = world.spawn().id();
    let other = world.spawn().id();
    let mut server = RefEntityServer::new();
    let handle = server.get_handle(o.to_bits()).unwrap();
    assert_eq!(handle.release(), Some(RefChange::Decrement(o.to_bits())));
    assert!(world.despawn(o));
    assert_eq!(mark_unused_entities(&mut server), Ok(2));
    free_unused_entities(&mut server, &mut world);
    assert!(server.pending().is_empty());
    assert!(!alive(&world, o));
    assert!(alive(&world, other));
    assert!(!tagged(&world, other));
}

#[test]
fn free_mark_without_candidates_changes_nothing() {
    let mut world = World::new();
    let o = world.spawn().id();
    let mut server = RefEntityServer::new();
    free_unused_entities(&mut server, &mut world);
    assert!(!tagged(&world, o));
    assert!(server.pending().is_empty());
}

#[test]
fn plugins_give_the_phases_in_order() {
    assert_eq!(
        BevyQueueDeletePlugin.build(),
        vec![
            Phase::TimerDelete,
            Phase::FrameCountDelete,
            Phase::MarkUnused,
            Phase::FreeUnused,
            Phase::QueueDelete,
        ]
    );
    let (server, phases) = RefEntityPlugin.build();
    assert_eq!(phases, vec![Phase::MarkUnused, Phase::FreeUnused]);
    assert_eq!(server.ref_count(0), 0);
    assert!(server.pending().is_empty());
}

#[test]
fn whole_tick_runs_drivers_then_counts_then_deletion() {
    let mut world = World::new();
    let timed = world.spawn().insert(TimerDelete::new(10)).id();
    let counted = world.spawn().insert(FrameCountDelete(2)).id();
    let held = world.spawn().id();
    let plain = world.spawn().id();
    let mut server = RefEntityServer::new();
    let handle = server.get_handle(held.to_bits()).unwrap();
    assert_eq!(run_tick(&mut world, &mut server, 4), Ok(1));
    assert!(alive(&world, timed));
    assert!(alive(&world, counted));
    assert!(alive(&world, held));
    assert_eq!(server.ref_count(held.to_bits()), 1);
    assert_eq!(handle.release(), Some(RefChange::Decrement(held.to_bits())));
    assert_eq!(run_tick(&mut world, &mut server, 6), Ok(1));
    assert!(!alive(&world, timed));
    assert!(!alive(&world, counted));
    assert!(!alive(&world, held));
    assert!(alive(&world, plain));
    assert!(!tagged(&world, plain));
    assert_eq!(server.ref_count(held.to_bits()), 0);
    assert!(server.pending().is_empty());
    assert_eq!(run_tick(&mut world, &mut server, 6), Ok(0));
    assert!(alive(&world, plain));
}

#[test]
fn messages_are_what_the_handles_send() {
    assert_eq!(RefEntityHandle::creation_message(6), RefChange::Increment(6));
    let server = RefEntityServer::new();
    let mut handle = RefEntityHandle::weak(6);
    assert_eq!(handle.upgrade_message(), Some(RefChange::Increment(6)));
    assert_eq!(handle.release_message(), None);
    assert_eq!(handle.make_strong(&server), Ok(Some(RefChange::Increment(6))));
    assert_eq!(handle.upgrade_message(), None);
    assert_eq!(handle.release_message(), Some(RefChange::Decrement(6)));
    let strong = server.get_handle(7).unwrap();
    assert_eq!(strong.upgrade_message(), None);
    assert_eq!(strong.release_message(), Some(RefChange::Decrement(7)));
}

#[test]
fn creation_and_copy_send_one_increment_each() {
    let mut server = RefEntityServer::new();
    let handle = server.get_handle(7).unwrap();
    assert_eq!(mark_unused_entities(&mut server), Ok(1));
    assert_eq!(server.ref_count(7), 1);
    assert_eq!(server.ref_count(0), 0);
    let copy = handle.try_clone().unwrap();
    assert_eq!(mark_unused_entities(&mut server), Ok(1));
    assert_eq!(server.ref_count(7), 2);
    assert!(server.pending().is_empty());
    assert!(copy.is_strong());
    assert!(handle.is_strong());
}

#[test]
fn try_release_sends_one_decrement_and_no_more() {
    let mut server = RefEntityServer::new();
    let first = server.get_handle(7).unwrap();
    let second = server.get_handle(7).unwrap();
    assert_eq!(mark_unused_entities(&mut server), Ok(2));
    assert_eq!(first.try_release(), Ok(Some(RefChange::Decrement(7))));
    assert_eq!(mark_unused_entities(&mut server), Ok(1));
    assert_eq!(server.ref_count(7), 1);
    assert!(server.pending().is_empty());
    assert_eq!(second.release(), Some(RefChange::Decrement(7)));
    assert_eq!(mark_unused_entities(&mut server), Ok(1));
    assert_eq!(server.ref_count(7), 0);
    assert_eq!(server.pending(), &vec![7]);
    assert_eq!(mark_unused_entities(&mut server), Ok(0));
}

#[test]
fn try_release_of_a_weak_handle_sends_nothing() {
    let mut server = RefEntityServer::new();
    let strong = server.get_handle(7).unwrap();
    assert_eq!(strong.as_weak().try_release(), Ok(None));
    assert_eq!(RefEntityHandle::weak(7).try_release(), Ok(None));
    assert_eq!(RefEntityHandle::default().try_release(), Ok(None));
    assert_eq!(mark_unused_entities(&mut server), Ok(1));
    assert_eq!(server.ref_count(7), 1);
    assert!(server.pending().is_empty());
}

#[test]
fn try_release_after_the_server_is_gone_fails() {
    let server = RefEntityServer::new();
    let handle = server.get_handle(4).unwrap();
    let weak = handle.as_weak();
    drop(server);
    assert_eq!(handle.try_release(), Err(Disconnected));
    assert_eq!(weak.try_release(), Ok(None));
}

#[test]
fn drain_step_tells_empty_from_closed() {
    let mut server = RefEntityServer::new();
    assert_eq!(server.drain_step(Received::Change(RefChange::Increment(3))), None);
    assert_eq!(server.ref_count(3), 1);
    assert_eq!(server.drain_step(Received::Empty), Some(Ok(())));
    assert_eq!(server.ref_count(3), 1);
    assert!(server.pending().is_empty());
    assert_eq!(server.drain_step(Received::Disconnected), Some(Err(Disconnected)));
    assert_eq!(server.ref_count(3), 1);
    assert!(server.pending().is_empty());
    assert_eq!(server.drain_step(Received::Change(RefChange::Decrement(3))), None);
    assert_eq!(server.ref_count(3), 0);
    assert_eq!(server.pending(), &vec![3]);
}

#[test]
fn as_many_releases_as_handles_leave_no_entry() {
    let mut server = RefEntityServer::new();
    server.apply_all(&vec![
        RefChange::Increment(9),
        RefChange::Increment(9),
        RefChange::Decrement(9),
        RefChange::Increment(9),
        RefChange::Increment(2),
        RefChange::Decrement(9),
        RefChange::Decrement(9),
    ]);
    assert_eq!(server.ref_count(9), 0);
    assert_eq!(server.ref_count(2), 1);
    assert_eq!(server.pending(), &vec![9]);
}

#[test]
fn drain_takes_what_waits_and_sees_the_channel_empty() {
    let mut server = RefEntityServer::new();
    assert_eq!(mark_unused_entities(&mut server), Ok(0));
    let first = server.get_handle(1).unwrap();
    let second = server.get_handle(2).unwrap();
    let third = server.get_handle(1).unwrap();
    assert_eq!(mark_unused_entities(&mut server), Ok(3));
    assert_eq!(mark_unused_entities(&mut server), Ok(0));
    assert_eq!(server.ref_count(1), 2);
    assert_eq!(server.ref_count(2), 1);
    drop(first);
    drop(second);
    drop(third);
    assert_eq!(mark_unused_entities(&mut server), Ok(3));
    assert_eq!(server.pending(), &vec![2, 1]);
}
