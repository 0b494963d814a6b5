//! The host registry: a `World`, read and changed through a handful of calls
//! whose effect is stated over [`world_objects`].

use crate::frame_count::FrameCountDelete;
use crate::ref_delete::RefEntityHandle;
use crate::registry::children;
use crate::registry::frame_counts_of;
use crate::registry::is_queued;
use crate::registry::lists;
use crate::registry::tagged;
use crate::registry::timers_of;
use crate::registry::with_frame_count;
use crate::registry::with_reserved;
use crate::registry::LAST_GENERATION;
use crate::registry::with_timer;
use crate::registry::Object;
use crate::timer::TimerDelete;
use bevy::ecs::component::Component;
use bevy::ecs::component::SparseStorage;
use bevy::ecs::component::TableStorage;
use bevy::ecs::entity::Entity;
use bevy::ecs::query::With;
use bevy::ecs::schedule::SystemLabel;
use bevy::ecs::world::World;
use bevy::hierarchy::Children;
use vstd::prelude::*;

verus! {

/// Bevy's `World`. Nothing of its inside is known here but what
/// [`world_objects`] names.
#[verifier::external_type_specification]
#[verifier::external_body]
pub struct ExWorld(World);

/// Bevy's `SparseStorage`, the storage that [`QueueDelete`] asks for.
#[verifier::external_type_specification]
#[verifier::external_body]
pub struct ExSparseStorage(SparseStorage);

/// Bevy's `TableStorage`, the storage that the drivers and the handles ask for.
#[verifier::external_type_specification]
#[verifier::external_body]
pub struct ExTableStorage(TableStorage);

/// Marker attached to an object that is to be destroyed at the end of the current tick.
#[derive(Clone, Copy, Debug, Default, PartialEq, Eq, Hash)]
pub struct QueueDelete;

impl Component for QueueDelete {
    type Storage = SparseStorage;
}

impl SystemLabel for QueueDelete {
    /// The name under which the system that destroys what is tagged is known
    /// to the schedule, so that other systems can be put before it.
    fn as_str(&self) -> (name: &'static str)
        ensures
            name@ == "QueueDelete"@,
    {
        "QueueDelete"
    }
}

impl Component for FrameCountDelete {
    type Storage = TableStorage;
}

impl Component for TimerDelete {
    type Storage = TableStorage;
}

impl Component for RefEntityHandle {
    type Storage = TableStorage;
}

/// What a world holds: its live objects by id (an `Entity` as `to_bits` gives
/// it), each with its `Children`, and whether it carries a [`QueueDelete`], a
/// [`FrameCountDelete`] and a [`TimerDelete`].
pub uninterp spec fn world_objects(world: World) -> Map<u64, Object>;

/// The ids that a world has handed out and not yet given a place:
/// `Entities::reserve_entity` hands them out, and they are no live objects
/// until the world is flushed.
pub uninterp spec fn world_reserved(world: World) -> Set<u64>;

/// `World::get_entity`: whether the object is alive.
#[verifier::external_body]
pub(crate) fn contains(world: &World, entity: u64) -> (alive: bool)
    ensures
        alive == world_objects(*world).contains_key(entity),
{
    world.get_entity(Entity::from_bits(entity)).is_some()
}

/// `World::get` of the `Children` component: the ids of the object's children
/// in order, none where the object is dead or has no such component.
#[verifier::external_body]
pub(crate) fn children_of(world: &World, entity: u64) -> (ids: Vec<u64>)
    ensures
        ids@ == children(world_objects(*world), entity),
{
    let children = world.get::<Children>(Entity::from_bits(entity));
    children.into_iter().flat_map(|children| children.iter()).map(|child| child.to_bits()).collect()
}

/// `World::get` of the `QueueDelete` component: whether the object is alive
/// and carries the tag.
#[verifier::external_body]
pub(crate) fn has_queue_delete(world: &World, entity: u64) -> (tagged: bool)
    ensures
        tagged == is_queued(world_objects(*world), entity),
{
    world.get::<QueueDelete>(Entity::from_bits(entity)).is_some()
}

/// `World::entity_mut` and `EntityMut::insert` of a `QueueDelete`: the object
/// carries the tag afterwards and nothing else has changed. The object must be
/// alive, as `entity_mut` panics on a dead one.
#[verifier::external_body]
pub(crate) fn insert_queue_delete(world: &mut World, entity: u64)
    requires
        world_objects(*old(world)).contains_key(entity),
    ensures
        world_objects(*final(world)) == world_objects(*old(world)).insert(
            entity,
            tagged(world_objects(*old(world))[entity]),
        ),
{
    world.entity_mut(Entity::from_bits(entity)).insert(QueueDelete);
}

/// `World::query_filtered` with `With<QueueDelete>` and `QueryState::iter`:
/// the ids of the objects that carry the tag. The world's objects are as
/// before, and so are the ids that wait for their place.
#[verifier::external_body]
pub(crate) fn queued_entities(world: &mut World) -> (ids: Vec<u64>)
    ensures
        world_objects(*final(world)) == world_objects(*old(world)),
        world_reserved(*final(world)) == world_reserved(*old(world)),
        forall|id: u64| ids@.contains(id) <==> is_queued(world_objects(*old(world)), id),
{
    let mut query = world.query_filtered::<Entity, With<QueueDelete>>();
    query.iter(world).map(|entity| entity.to_bits()).collect()
}

/// `World::despawn`: says whether the object was alive. A dead one leaves the
/// world as it is. A live one is gone afterwards with all it carried; before
/// it goes, `EntityMut::despawn` flushes the world, which gives every id that
/// waited for its place a bare object, so that none waits afterwards. Every
/// other object is as before. The id must not be of the last generation:
/// `Entities::free` adds one to the generation of the slot, which has 32 bits.
#[verifier::external_body]
pub(crate) fn despawn(world: &mut World, entity: u64) -> (existed: bool)
    requires
        entity < LAST_GENERATION,
    ensures
        existed == world_objects(*old(world)).contains_key(entity),
        existed ==> world_objects(*final(world)) == with_reserved(
            world_objects(*old(world)),
            world_reserved(*old(world)),
        ).remove(entity),
        existed ==> world_reserved(*final(world)) == Set::<u64>::empty(),
        !existed ==> world_objects(*final(world)) == world_objects(*old(world)),
        !existed ==> world_reserved(*final(world)) == world_reserved(*old(world)),
{
    world.despawn(Entity::from_bits(entity))
}

/// `World::query` over `(Entity, &FrameCountDelete)` and `QueryState::iter`:
/// every tick-count driver with the id of its object, each once. The world's
/// objects are as before.
#[verifier::external_body]
pub(crate) fn frame_counts(world: &mut World) -> (items: Vec<(u64, FrameCountDelete)>)
    ensures
        world_objects(*final(world)) == world_objects(*old(world)),
        lists(items@, frame_counts_of(world_objects(*old(world)))),
{
    let mut query = world.query::<(Entity, &FrameCountDelete)>();
    query.iter(world).map(|(entity, count)| (entity.to_bits(), *count)).collect()
}

/// `World::entity_mut` and `EntityMut::insert` of a `FrameCountDelete`: the
/// object has `count` as its tick-count driver afterwards, in place of an
/// earlier one, and nothing else has changed. The object must be alive, as
/// `entity_mut` panics on a dead one.
#[verifier::external_body]
pub(crate) fn insert_frame_count(world: &mut World, entity: u64, count: FrameCountDelete)
    requires
        world_objects(*old(world)).contains_key(entity),
    ensures
        world_objects(*final(world)) == world_objects(*old(world)).insert(
            entity,
            with_frame_count(world_objects(*old(world))[entity], count),
        ),
{
    world.entity_mut(Entity::from_bits(entity)).insert(count);
}

/// `World::query` over `(Entity, &TimerDelete)` and `QueryState::iter`: every
/// timer driver with the id of its object, each once. The world's objects are
/// as before.
#[verifier::external_body]
pub(crate) fn timers(world: &mut World) -> (items: Vec<(u64, TimerDelete)>)
    ensures
        world_objects(*final(world)) == world_objects(*old(world)),
        lists(items@, timers_of(world_objects(*old(world)))),
{
    let mut query = world.query::<(Entity, &TimerDelete)>();
    query.iter(world).map(|(entity, timer)| (entity.to_bits(), *timer)).collect()
}

/// `World::entity_mut` and `EntityMut::insert` of a `TimerDelete`: the object
/// has `timer` as its timer driver afterwards, in place of an earlier one, and
/// nothing else has changed. The object must be alive, as `entity_mut` panics
/// on a dead one.
#[verifier::external_body]
pub(crate) fn insert_timer(world: &mut World, entity: u64, timer: TimerDelete)
    requires
        world_objects(*old(world)).contains_key(entity),
    ensures
        world_objects(*final(world)) == world_objects(*old(world)).insert(
            entity,
            with_timer(world_objects(*old(world))[entity], timer),
        ),
{
    world.entity_mut(Entity::from_bits(entity)).insert(timer);
}

} // verus!
