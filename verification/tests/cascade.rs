use bevy::ecs::entity::Entity;
use bevy::ecs::schedule::SystemLabel;
use bevy::ecs::world::World;
use bevy::hierarchy::BuildWorldChildren;
use queue_delete::queue_delete_system;
use queue_delete::queue_despawn_with_children_recursive;
use queue_delete::recursive::depth_within_limit;
use queue_delete::recursive::queue_despawn_children;
use queue_delete::recursive::try_queue_despawn_children;
use queue_delete::recursive::try_queue_despawn_with_children_recursive;
use queue_delete::tag_for_deletion;
use queue_delete::QueueDelete;
use queue_delete::QueueDespawnRecursiveExt;

fn tagged(world: &World, entity: Entity) -> bool {
    world.get::<QueueDelete>(entity).is_some()
}

fn alive(world: &World, entity: Entity) -> bool {
    world.get_entity(entity).is_some()
}

/// R has the children A and B, A has the child C; O stands apart.
fn family(world: &mut World) -> (Entity, Entity, Entity, Entity, Entity) {
    let r = world.spawn().id();
    let a = world.spawn().id();
    let b = world.spawn().id();
    let c = world.spawn().id();
    let o = world.spawn().id();
    world.entity_mut(r).push_children(&[a, b]);
    world.entity_mut(a).push_children(&[c]);
    (r, a, b, c, o)
}

#[test]
fn cascade_from_root_tags_whole_family_and_processor_removes_it() {
    let mut world = World::new();
    let (r, a, b, c, o) = family(&mut world);
    queue_despawn_with_children_recursive(&mut world, r.to_bits());
    assert!(tagged(&world, r));
    assert!(tagged(&world, a));
    assert!(tagged(&world, b));
    assert!(tagged(&world, c));
    assert!(!tagged(&world, o));
    queue_delete_system(&mut world);
    assert!(!alive(&world, r));
    assert!(!alive(&world, a));
    assert!(!alive(&world, b));
    assert!(!alive(&world, c));
    assert!(alive(&world, o));
    assert!(!tagged(&world, o));
}

#[test]
fn cascade_from_inner_node_leaves_parent_and_sibling() {
    let mut world = World::new();
    let (r, a, b, c, o) = family(&mut world);
    queue_despawn_with_children_recursive(&mut world, a.to_bits());
    assert!(!tagged(&world, r));
    assert!(tagged(&world, a));
    assert!(!tagged(&world, b));
    assert!(tagged(&world, c));
    assert!(!tagged(&world, o));
}

#[test]
fn cascade_below_root_never_tags_root() {
    let mut world = World::new();
    let (r, a, b, c, o) = family(&mut world);
    queue_despawn_children(&mut world, r.to_bits());
    assert!(!tagged(&world, r));
    assert!(tagged(&world, a));
    assert!(tagged(&world, b));
    assert!(tagged(&world, c));
    assert!(!tagged(&world, o));
    queue_delete_system(&mut world);
    assert!(alive(&world, r));
    assert!(!alive(&world, a));
    assert!(!alive(&world, b));
    assert!(!alive(&world, c));
}

#[test]
fn cascade_on_leaf_tags_only_leaf() {
    let mut world = World::new();
    let (r, a, b, c, _) = family(&mut world);
    queue_despawn_with_children_recursive(&mut world, c.to_bits());
    assert!(tagged(&world, c));
    assert!(!tagged(&world, a));
    assert!(!tagged(&world, b));
    assert!(!tagged(&world, r));
    queue_despawn_children(&mut world, b.to_bits());
    assert!(!tagged(&world, b));
}

#[test]
fn cascade_skips_children_that_are_gone() {
    let mut world = World::new();
    let (r, a, b, c, _) = family(&mut world);
    assert!(world.despawn(a));
    queue_despawn_with_children_recursive(&mut world, r.to_bits());
    assert!(tagged(&world, r));
    assert!(tagged(&world, b));
    assert!(!tagged(&world, c));
    assert!(!alive(&world, a));
}

#[test]
fn cascade_on_dead_object_changes_nothing() {
    let mut world = World::new();
    let (r, a, b, c, o) = family(&mut world);
    assert!(world.despawn(o));
    queue_despawn_with_children_recursive(&mut world, o.to_bits());
    queue_despawn_children(&mut world, o.to_bits());
    for e in [r, a, b, c] {
        assert!(alive(&world, e));
        assert!(!tagged(&world, e));
    }
}

#[test]
fn extension_methods_do_as_the_functions() {
    let mut world = World::new();
    let (r, a, b, c, o) = family(&mut world);
    world.queue_despawn_descendants(a.to_bits());
    assert!(tagged(&world, c));
    assert!(!tagged(&world, a));
    world.queue_despawn_recursive(r.to_bits());
    assert!(tagged(&world, r));
    assert!(tagged(&world, a));
    assert!(tagged(&world, b));
    assert!(!tagged(&world, o));
}

#[test]
fn depth_limit_is_exact() {
    let mut world = World::new();
    let (r, a, b, c, o) = family(&mut world);
    assert!(!depth_within_limit(&world, r.to_bits(), 0));
    assert!(!depth_within_limit(&world, r.to_bits(), 1));
    assert!(depth_within_limit(&world, r.to_bits(), 2));
    assert!(depth_within_limit(&world, r.to_bits(), 3));
    assert!(!depth_within_limit(&world, a.to_bits(), 0));
    assert!(depth_within_limit(&world, a.to_bits(), 1));
    assert!(depth_within_limit(&world, b.to_bits(), 0));
    assert!(depth_within_limit(&world, c.to_bits(), 0));
    assert!(depth_within_limit(&world, o.to_bits(), 0));
}

#[test]
fn checked_cascade_refuses_a_cycle() {
    let mut world = World::new();
    let x = world.spawn().id();
    let y = world.spawn().id();
    world.entity_mut(x).push_children(&[y]);
    world.entity_mut(y).push_children(&[x]);
    assert!(!depth_within_limit(&world, x.to_bits(), 64));
    assert!(!try_queue_despawn_with_children_recursive(&mut world, x.to_bits(), 64));
    assert!(!try_queue_despawn_children(&mut world, x.to_bits(), 64));
    assert!(!tagged(&world, x));
    assert!(!tagged(&world, y));
}

#[test]
fn checked_cascade_tags_where_the_depth_fits() {
    let mut world = World::new();
    let (r, a, b, c, o) = family(&mut world);
    assert!(!try_queue_despawn_with_children_recursive(&mut world, r.to_bits(), 1));
    assert!(!tagged(&world, r));
    assert!(!tagged(&world, c));
    assert!(try_queue_despawn_children(&mut world, r.to_bits(), 2));
    assert!(!tagged(&world, r));
    assert!(tagged(&world, a));
    assert!(tagged(&world, b));
    assert!(tagged(&world, c));
    assert!(try_queue_despawn_with_children_recursive(&mut world, r.to_bits(), 2));
    assert!(tagged(&world, r));
    assert!(!tagged(&world, o));
}

#[test]
fn tag_for_deletion_tags_one_live_object() {
    let mut world = World::new();
    let (r, a, _, _, o) = family(&mut world);
    assert!(tag_for_deletion(&mut world, a.to_bits()));
    assert!(tagged(&world, a));
    assert!(!tagged(&world, r));
    assert!(tag_for_deletion(&mut world, a.to_bits()));
    assert!(tagged(&world, a));
    assert!(world.despawn(o));
    assert!(!tag_for_deletion(&mut world, o.to_bits()));
    assert!(!alive(&world, o));
}

#[test]
fn processor_destroys_tagged_objects_once_and_only_them() {
    let mut world = World::new();
    let (r, a, b, c, o) = family(&mut world);
    assert!(tag_for_deletion(&mut world, b.to_bits()));
    assert!(tag_for_deletion(&mut world, b.to_bits()));
    assert!(tag_for_deletion(&mut world, o.to_bits()));
    queue_delete_system(&mut world);
    assert!(!alive(&world, b));
    assert!(!alive(&world, o));
    assert!(alive(&world, r));
    assert!(alive(&world, a));
    assert!(alive(&world, c));
    queue_delete_system(&mut world);
    assert!(alive(&world, r));
    assert!(alive(&world, a));
    assert!(alive(&world, c));
}

#[test]
fn tag_is_also_the_label_of_the_deletion() {
    assert_eq!(QueueDelete.as_str(), "QueueDelete");
    assert_eq!(QueueDelete, QueueDelete::default());
}

#[test]
fn deletion_gives_reserved_ids_their_place() {
    let mut world = World::new();
    let (r, a, b, c, o) = family(&mut world);
    let reserved = world.entities().reserve_entity();
    assert!(!alive(&world, reserved));
    queue_delete_system(&mut world);
    assert!(!alive(&world, reserved));
    assert!(tag_for_deletion(&mut world, b.to_bits()));
    assert!(tag_for_deletion(&mut world, o.to_bits()));
    assert!(!tag_for_deletion(&mut world, reserved.to_bits()));
    queue_delete_system(&mut world);
    assert!(!alive(&world, b));
    assert!(!alive(&world, o));
    assert!(alive(&world, reserved));
    assert!(!tagged(&world, reserved));
    assert!(alive(&world, r));
    assert!(alive(&world, a));
    assert!(alive(&world, c));
    assert!(tag_for_deletion(&mut world, reserved.to_bits()));
    queue_delete_system(&mut world);
    assert!(!alive(&world, reserved));
    assert!(alive(&world, r));
}

#[test]
fn object_of_the_last_generation_is_passed_over() {
    let mut world = World::new();
    let (r, _, b, _, _) = family(&mut world);
    let last = Entity::from_bits(0xFFFF_FFFF_0000_0040);
    assert!(world.get_or_spawn(last).is_some());
    assert!(alive(&world, last));
    assert!(tag_for_deletion(&mut world, last.to_bits()));
    queue_delete_system(&mut world);
    assert!(alive(&world, last));
    assert!(tagged(&world, last));
    assert!(tag_for_deletion(&mut world, b.to_bits()));
    queue_delete_system(&mut world);
    assert!(!alive(&world, b));
    assert!(alive(&world, last));
    assert!(tagged(&world, last));
    assert!(alive(&world, r));
    let near = Entity::from_bits(0xFFFF_FFFE_0000_0041);
    assert!(world.get_or_spawn(near).is_some());
    assert!(tag_for_deletion(&mut world, near.to_bits()));
    queue_delete_system(&mut world);
    assert!(!alive(&world, near));
    assert!(alive(&world, last));
}
