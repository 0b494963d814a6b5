//! Tick-count driven tagging: an object is tagged once its counter has run down.

use crate::registry::listed_before;
use crate::registry::lists;
use crate::registry::frame_counts_of;
use crate::registry::with_frame_count;
use crate::registry::Object;
use crate::world::contains;
use crate::world::frame_counts;
use crate::world::insert_frame_count;
use crate::world::insert_queue_delete;
use crate::world::world_objects;
use bevy::ecs::world::World;
use vstd::prelude::*;

verus! {

/// Counts the ticks that are left before the object it is attached to is tagged.
#[derive(Clone, Copy, Debug)]
pub struct FrameCountDelete(pub u64);

impl Default for FrameCountDelete {
    /// A counter that has run down.
    fn default() -> (count: Self)
        ensures
            count.0 == 0,
    {
        FrameCountDelete(0)
    }
}

impl FrameCountDelete {
    /// The counter after one more tick: one less, and never below zero.
    pub open spec fn spec_after_tick(self) -> FrameCountDelete {
        FrameCountDelete(if self.0 == 0 { 0u64 } else { (self.0 - 1) as u64 })
    }

    /// Whether a tick on this counter asks for the tag: the counter stands at
    /// zero afterwards. A counter that has run down asks again at every tick.
    pub open spec fn spec_fires(self) -> bool {
        self.0 <= 1
    }

    /// The counter after `ticks` more ticks.
    pub open spec fn spec_after_ticks(self, ticks: nat) -> FrameCountDelete
        decreases ticks,
    {
        if ticks == 0 {
            self
        } else {
            self.spec_after_ticks((ticks - 1) as nat).spec_after_tick()
        }
    }

    /// Advances the counter by one tick and says whether the object is to be tagged now.
    pub fn tick(&mut self) -> (fired: bool)
        ensures
            *final(self) == old(self).spec_after_tick(),
            fired == old(self).spec_fires(),
    {
        self.0 = self.0.saturating_sub(1);
        self.0 == 0
    }

    /// A counter set to `K` stands at `K - n` after `n` ticks and never below
    /// zero, and the tick that follows them asks for the tag if and only if it
    /// is the `K`th tick or a later one: the tag comes at the `K`th tick and
    /// never before.
    pub proof fn lemma_fires_at_kth_tick(self, ticks: nat)
        ensures
            self.spec_after_ticks(ticks).0 == if ticks >= self.0 {
                0
            } else {
                self.0 - ticks
            },
            self.spec_after_ticks(ticks).spec_fires() <==> ticks + 1 >= self.0,
        decreases ticks,
    {
        if ticks > 0 {
            self.lemma_fires_at_kth_tick((ticks - 1) as nat);
        }
    }
}

/// What one tick of the tick-count drivers does to an object: its counter, if
/// it has one, goes down by one, and the object is tagged where the counter
/// stands at zero then.
pub open spec fn frame_count_ticked(object: Object) -> Object {
    match object.frame_count {
        Some(count) => Object {
            children: object.children,
            queued: object.queued || count.spec_fires(),
            frame_count: Some(count.spec_after_tick()),
            timer: object.timer,
        },
        None => object,
    }
}

/// The registry after one tick of the tick-count drivers.
pub open spec fn after_frame_count_tick(objects: Map<u64, Object>) -> Map<u64, Object> {
    Map::new(|id: u64| objects.contains_key(id), |id: u64| frame_count_ticked(objects[id]))
}

/// The registry while the tick is under way: the objects of the first `n`
/// items have had their tick.
spec fn frame_count_tick_under_way(
    objects: Map<u64, Object>,
    items: Seq<(u64, FrameCountDelete)>,
    n: int,
) -> Map<u64, Object> {
    Map::new(
        |id: u64| objects.contains_key(id),
        |id: u64|
            if listed_before(items, n, id) {
                frame_count_ticked(objects[id])
            } else {
                objects[id]
            },
    )
}

/// Attaches a tick-count driver set to `count` to `entity`, in place of an
/// earlier one, and says whether the object is alive. On a dead object nothing
/// happens.
pub fn attach_tick_count_deletion(world: &mut World, entity: u64, count: u64) -> (alive: bool)
    ensures
        alive == world_objects(*old(world)).contains_key(entity),
        alive ==> world_objects(*final(world)) == world_objects(*old(world)).insert(
            entity,
            with_frame_count(world_objects(*old(world))[entity], FrameCountDelete(count)),
        ),
        !alive ==> world_objects(*final(world)) == world_objects(*old(world)),
{
    let alive = contains(world, entity);
    if alive {
        insert_frame_count(world, entity, FrameCountDelete(count));
    }
    alive
}

/// Gives every tick-count driver its tick: each counter goes down by one,
/// never below zero, and the objects whose counter stands at zero then are
/// tagged.
pub fn frame_count_delete_system(world: &mut World)
    ensures
        world_objects(*final(world)) == after_frame_count_tick(world_objects(*old(world))),
{
    let items = frame_counts(world);
    let ghost before = world_objects(*world);
    assert(world_objects(*world) =~= frame_count_tick_under_way(before, items@, 0));
    let mut i: usize = 0;
    while i < items.len()
        invariant
            0 <= i <= items.len(),
            lists(items@, frame_counts_of(before)),
            world_objects(*world) == frame_count_tick_under_way(before, items@, i as int),
        decreases items.len() - i,
    {
        let id = items[i].0;
        let mut count = items[i].1;
        let ghost item = items@[i as int];
        assert(frame_counts_of(before).contains_key(item.0));
        assert(!listed_before(items@, i as int, id));
        let fired = count.tick();
        insert_frame_count(world, id, count);
        if fired {
            insert_queue_delete(world, id);
        }
        proof {
            assert forall|other: u64| listed_before(items@, i + 1, other) == (listed_before(
                items@,
                i as int,
                other,
            ) || other == id) by {
                if listed_before(items@, i + 1, other) {
                    let j = choose|j: int|
                        0 <= j < i + 1 && j < items@.len() && (#[trigger] items@[j]).0 == other;
                    if j < i {
                        assert(listed_before(items@, i as int, other));
                    }
                }
                if listed_before(items@, i as int, other) {
                    let j = choose|j: int|
                        0 <= j < i && j < items@.len() && (#[trigger] items@[j]).0 == other;
                    assert(0 <= j < i + 1 && items@[j].0 == other);
                }
                if other == id {
                    assert(items@[i as int].0 == other);
                }
            }
            assert(world_objects(*world) =~= frame_count_tick_under_way(before, items@, i + 1));
        }
        i += 1;
    }
    proof {
        assert forall|id: u64| before.contains_key(id) implies #[trigger] frame_count_tick_under_way(
            before,
            items@,
            items@.len() as int,
        )[id] == frame_count_ticked(before[id]) by {
            if !listed_before(items@, items@.len() as int, id) {
                assert(!frame_counts_of(before).contains_key(id));
            }
        }
        assert(world_objects(*world) =~= after_frame_count_tick(before));
    }
}

} // verus!
