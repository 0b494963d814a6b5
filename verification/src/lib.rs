//! Deferred deletion of objects that live in a host-owned registry.
//!
//! Objects are never destroyed on the spot. They are tagged with
//! [`QueueDelete`], by hand, by a timer, by a tick counter, by a cascade down
//! the hierarchy or because nobody holds a strong handle to them any more, and
//! [`queue_delete_system`] destroys what is tagged at the end of the tick.

use bevy::ecs::world::World;
use vstd::prelude::*;

mod channel;
mod counts;
pub mod frame_count;
pub mod recursive;
pub mod ref_delete;
pub mod registry;
pub mod timer;
pub mod world;

pub use frame_count::attach_tick_count_deletion;
pub use frame_count::frame_count_delete_system;
pub use frame_count::FrameCountDelete;
pub use recursive::queue_despawn_with_children_recursive;
pub use recursive::QueueDespawnRecursiveExt;
pub use timer::attach_timer_deletion;
pub use timer::timer_delete_system;
pub use timer::TimerDelete;
pub use world::QueueDelete;

use frame_count::after_frame_count_tick;
use ref_delete::drained;
use ref_delete::free_unused_entities;
use ref_delete::mark_unused_entities;
use ref_delete::unused;
use ref_delete::Disconnected;
use ref_delete::RefChange;
use ref_delete::RefEntityServer;
use ref_delete::Tracker;
use registry::queued;
use registry::tag_all;
use registry::after_deletion;
use registry::any_doomed;
use registry::doomed;
use registry::is_doomed;
use registry::LAST_GENERATION;
use registry::bare_object;
use registry::is_queued;
use registry::with_reserved;
use registry::Object;
use timer::after_timer_tick;
use world::world_objects;
use world::world_reserved;

verus! {

/// One of the phases of a tick.
#[derive(Clone, Copy, Debug, PartialEq, Eq)]
pub enum Phase {
    /// The timer drivers get their tick ([`timer_delete_system`]).
    TimerDelete,
    /// The tick-count drivers get their tick ([`frame_count_delete_system`]).
    FrameCountDelete,
    /// The reference changes that are waiting are applied to the counts
    /// ([`ref_delete::mark_unused_entities`]).
    MarkUnused,
    /// The objects that nobody holds any more are tagged
    /// ([`ref_delete::free_unused_entities`]).
    FreeUnused,
    /// What is tagged is destroyed ([`queue_delete_system`]).
    QueueDelete,
}

/// The plugin that installs the deferred deletion phases.
#[derive(Clone, Copy, Debug, Default)]
pub struct BevyQueueDeletePlugin;

impl BevyQueueDeletePlugin {
    /// The phases of a tick in the order in which the scheduler is to run
    /// them: the drivers, then the two phases of reference counting, and the
    /// deletion of what was tagged last. What else attaches tags in a tick
    /// runs before the last of them.
    pub fn build(&self) -> (phases: Vec<Phase>)
        ensures
            phases@ == seq![
                Phase::TimerDelete,
                Phase::FrameCountDelete,
                Phase::MarkUnused,
                Phase::FreeUnused,
                Phase::QueueDelete,
            ],
    {
        let mut phases = Vec::new();
        phases.push(Phase::TimerDelete);
        phases.push(Phase::FrameCountDelete);
        phases.push(Phase::MarkUnused);
        phases.push(Phase::FreeUnused);
        phases.push(Phase::QueueDelete);
        phases
    }
}

/// The registry after a whole tick in which `delta` went by, the changes that
/// were waiting left the counts as `tracker` holds them, and the ids in
/// `reserved` waited for their place when what was tagged was destroyed.
pub open spec fn after_tick(
    objects: Map<u64, Object>,
    delta: u128,
    tracker: Tracker,
    reserved: Set<u64>,
) -> Map<u64, Object> {
    after_deletion(
        tag_all(after_frame_count_tick(after_timer_tick(objects, delta)), unused(tracker)),
        reserved,
    )
}

/// A tag that is attached stays attached until what is tagged is destroyed:
/// no cascade, no driver and no reference count takes a tag off an object.
/// The deletion takes every object that carries a tag out of the registry,
/// but for one of the last generation, and leaves every other object as it
/// was; what is there afterwards and was not there before is a bare object
/// under an id that waited for its place; and what carries a tag after it is
/// of the last generation and carried it before.
pub proof fn lemma_tags_stay_until_deletion(
    objects: Map<u64, Object>,
    ids: Set<u64>,
    delta: u128,
    reserved: Set<u64>,
)
    ensures
        queued(objects).subset_of(queued(tag_all(objects, ids))),
        queued(objects).subset_of(queued(after_frame_count_tick(objects))),
        queued(objects).subset_of(queued(after_timer_tick(objects, delta))),
        forall|id: u64|
            is_queued(objects, id) && id < LAST_GENERATION ==> !after_deletion(
                objects,
                reserved,
            ).contains_key(id),
        forall|id: u64|
            objects.contains_key(id) && !is_doomed(objects, id) ==> #[trigger] after_deletion(
                objects,
                reserved,
            ).contains_key(id) && after_deletion(objects, reserved)[id] == objects[id],
        forall|id: u64| #[trigger]
            after_deletion(objects, reserved).contains_key(id) && !objects.contains_key(id)
                ==> reserved.contains(id) && after_deletion(objects, reserved)[id]
                == bare_object(),
        forall|id: u64|
            is_queued(after_deletion(objects, reserved), id) ==> is_queued(objects, id) && id
                >= LAST_GENERATION,
{
    assert forall|id: u64| is_queued(objects, id) && id < LAST_GENERATION implies !after_deletion(
        objects,
        reserved,
    ).contains_key(id) by {
        assert(is_doomed(objects, id));
    }
}

/// Runs the phases of one tick in their order, with `delta` nanoseconds gone
/// by since the last one, and says how many reference changes were applied.
/// Where the channel of the server turns out to be closed the tick ends after
/// the drain: nothing is tagged for want of handles and nothing is destroyed.
pub fn run_tick(world: &mut World, server: &mut RefEntityServer, delta: u128) -> (taken: Result<
    usize,
    Disconnected,
>)
    ensures
        exists|changes: Seq<RefChange>, reserved: Set<u64>|
            #![trigger after_tick(
                world_objects(*old(world)),
                delta,
                drained(old(server)@, changes),
                reserved,
            )]
            match taken {
                Ok(n) => {
                    &&& n == changes.len()
                    &&& final(server)@ == (Tracker {
                        counts: drained(old(server)@, changes).counts,
                        pending: Seq::empty(),
                    })
                    &&& world_objects(*final(world)) == after_tick(
                        world_objects(*old(world)),
                        delta,
                        drained(old(server)@, changes),
                        reserved,
                    )
                },
                Err(_) => {
                    &&& final(server)@ == drained(old(server)@, changes)
                    &&& world_objects(*final(world)) == after_frame_count_tick(
                        after_timer_tick(world_objects(*old(world)), delta),
                    )
                },
            },
{
    timer_delete_system(world, delta);
    frame_count_delete_system(world);
    let taken = mark_unused_entities(server);
    let ghost changes = choose|changes: Seq<RefChange>|
        {
            &&& server@ == #[trigger] drained(old(server)@, changes)
            &&& taken matches Ok(n) ==> n == changes.len()
        };
    match taken {
        Ok(n) => {
            free_unused_entities(server, world);
            let ghost reserved = world_reserved(*world);
            queue_delete_system(world);
            assert(server@ == (Tracker {
                counts: drained(old(server)@, changes).counts,
                pending: Seq::empty(),
            }));
            assert(world_objects(*world) == after_tick(
                world_objects(*old(world)),
                delta,
                drained(old(server)@, changes),
                reserved,
            ));
            Ok(n)
        },
        Err(closed) => {
            assert(server@ == drained(old(server)@, changes));
            assert(after_tick(
                world_objects(*old(world)),
                delta,
                drained(old(server)@, changes),
                Set::empty(),
            ) == after_tick(
                world_objects(*old(world)),
                delta,
                drained(old(server)@, changes),
                Set::empty(),
            ));
            Err(closed)
        },
    }
}

/// Attaches the deletion tag to `entity` and says whether the object is alive.
/// On a dead object nothing happens.
pub fn tag_for_deletion(world: &mut World, entity: u64) -> (alive: bool)
    ensures
        alive == world_objects(*old(world)).contains_key(entity),
        world_objects(*final(world)) == tag_all(world_objects(*old(world)), set![entity]),
{
    let alive = world::contains(world, entity);
    if alive {
        world::insert_queue_delete(world, entity);
    }
    assert(world_objects(*world) =~= tag_all(world_objects(*old(world)), set![entity]));
    alive
}

/// Destroys every object that carries the deletion tag. It is meant to run
/// last in the tick, after everything that may attach a tag. An object that
/// carries the tag is destroyed once, however many asked for it. An object of
/// the last generation is passed over and keeps its tag: the registry cannot
/// destroy it. Where something is destroyed, the ids that waited for their
/// place get it.
pub fn queue_delete_system(world: &mut World)
    ensures
        world_objects(*final(world)) == after_deletion(
            world_objects(*old(world)),
            world_reserved(*old(world)),
        ),
        world_reserved(*final(world)) == if any_doomed(world_objects(*old(world))) {
            Set::<u64>::empty()
        } else {
            world_reserved(*old(world))
        },
{
    let ids = world::queued_entities(world);
    let ghost before = world_objects(*world);
    let ghost reserved = world_reserved(*world);
    let ghost placed = with_reserved(before, reserved);
    let ghost mut first: Option<u64> = None;
    let mut i: usize = 0;
    while i < ids.len()
        invariant
            0 <= i <= ids.len(),
            placed == with_reserved(before, reserved),
            forall|id: u64| ids@.contains(id) <==> is_queued(before, id),
            first matches Some(id) ==> is_doomed(before, id),
            first is None ==> world_objects(*world) == before && world_reserved(*world)
                == reserved && destroyed_among(ids@, i as int) == Set::<u64>::empty(),
            first is Some ==> world_objects(*world) == placed.remove_keys(
                destroyed_among(ids@, i as int),
            ) && world_reserved(*world) == Set::<u64>::empty(),
        decreases ids.len() - i,
    {
        let id = ids[i];
        let ghost now = world_objects(*world);
        let ghost gone = destroyed_among(ids@, i as int);
        assert(ids@.contains(id));
        assert(is_queued(before, id));
        proof {
            assert forall|x: u64|
                destroyed_among(ids@, i + 1).contains(x) == (gone.contains(x) || (x == id && id
                    < LAST_GENERATION)) by {
                if destroyed_among(ids@, i + 1).contains(x) {
                    let j = choose|j: int| 0 <= j < i + 1 && j < ids@.len() && ids@[j] == x;
                    if j < i {
                        assert(gone.contains(x));
                    }
                }
                if gone.contains(x) {
                    let j = choose|j: int| 0 <= j < i && j < ids@.len() && ids@[j] == x;
                    assert(0 <= j < i + 1 && ids@[j] == x);
                }
                if x == id && id < LAST_GENERATION {
                    assert(ids@[i as int] == x);
                }
            }
        }
        if id < LAST_GENERATION {
            let existed = world::despawn(world, id);
            proof {
                assert(destroyed_among(ids@, i + 1) =~= gone.insert(id));
                if first is None {
                    assert(existed);
                    assert(placed.remove(id) =~= placed.remove_keys(gone.insert(id)));
                    first = Some(id);
                } else if existed {
                    assert(with_reserved(now, Set::<u64>::empty()) =~= now);
                    assert(now.remove(id) =~= placed.remove_keys(gone.insert(id)));
                } else {
                    assert(now =~= placed.remove_keys(gone.insert(id)));
                }
            }
        } else {
            assert(destroyed_among(ids@, i + 1) =~= gone);
        }
        i += 1;
    }
    proof {
        assert(destroyed_among(ids@, ids@.len() as int) =~= doomed(before)) by {
            assert forall|x: u64|
                destroyed_among(ids@, ids@.len() as int).contains(x) == doomed(before).contains(
                    x,
                ) by {
                if destroyed_among(ids@, ids@.len() as int).contains(x) {
                    let j = choose|j: int| 0 <= j < ids@.len() && ids@[j] == x;
                    assert(ids@.contains(x));
                }
                if doomed(before).contains(x) {
                    assert(ids@.contains(x));
                    let j = choose|j: int| 0 <= j < ids@.len() && ids@[j] == x;
                    assert(0 <= j < ids@.len() && j < ids@.len() && ids@[j] == x);
                }
            }
        }
        if first is None {
            if any_doomed(before) {
                let id = choose|id: u64| is_doomed(before, id);
                assert(doomed(before).contains(id));
            }
        }
    }
}

/// The ids among the first `n` that were destroyed: those that are not of the
/// last generation.
spec fn destroyed_among(ids: Seq<u64>, n: int) -> Set<u64> {
    Set::new(
        |id: u64|
            id < LAST_GENERATION && exists|j: int| 0 <= j < n && j < ids.len() && ids[j] == id,
    )
}

} // verus!
