//! Timer driven tagging: an object is tagged once its countdown has run out.

use crate::registry::listed_before;
use crate::registry::lists;
use crate::registry::timers_of;
use crate::registry::with_timer;
use crate::registry::Object;
use crate::world::contains;
use crate::world::has_queue_delete;
use crate::world::insert_queue_delete;
use crate::world::insert_timer;
use crate::world::timers;
use crate::world::world_objects;
use bevy::ecs::world::World;
use vstd::prelude::*;

verus! {

/// Counts the time that is left before the object it is attached to is tagged.
/// Durations are whole nanoseconds.
#[derive(Clone, Copy, Debug)]
pub struct TimerDelete {
    duration: u128,
    elapsed: u128,
    finished: bool,
}

impl Default for TimerDelete {
    /// A fresh countdown of no duration: it runs out at its first tick.
    fn default() -> (timer: Self)
        ensures
            timer == Self::spec_new(0),
    {
        TimerDelete::new(0)
    }
}

/// The sum of the given spans of time.
pub open spec fn total(deltas: Seq<u128>) -> nat
    decreases deltas.len(),
{
    if deltas.len() == 0 {
        0
    } else {
        total(deltas.drop_last()) + deltas.last() as nat
    }
}

impl TimerDelete {
    /// The time after which the tag is attached.
    pub closed spec fn spec_duration(self) -> u128 {
        self.duration
    }

    /// The time that has gone by since the countdown began.
    pub closed spec fn spec_elapsed(self) -> u128 {
        self.elapsed
    }

    /// Whether the countdown has run out.
    pub closed spec fn spec_finished(self) -> bool {
        self.finished
    }

    /// A fresh countdown of the given duration.
    pub closed spec fn spec_new(duration: u128) -> TimerDelete {
        TimerDelete { duration, elapsed: 0, finished: false }
    }

    /// Whether a tick of `delta` makes the countdown run out: it has not run
    /// out before, and with `delta` the time gone by reaches the duration.
    pub closed spec fn spec_fires(self, delta: u128) -> bool {
        !self.finished && self.elapsed + delta >= self.duration
    }

    /// The countdown after a tick of `delta`. One that has run out stays as it is.
    pub closed spec fn spec_after_tick(self, delta: u128) -> TimerDelete {
        if self.finished {
            self
        } else if self.elapsed + delta >= self.duration {
            TimerDelete { duration: self.duration, elapsed: self.duration, finished: true }
        } else {
            TimerDelete {
                duration: self.duration,
                elapsed: (self.elapsed + delta) as u128,
                finished: false,
            }
        }
    }

    /// The countdown after one tick for each of `deltas`, in order.
    pub open spec fn spec_after_ticks(self, deltas: Seq<u128>) -> TimerDelete
        decreases deltas.len(),
    {
        if deltas.len() == 0 {
            self
        } else {
            self.spec_after_ticks(deltas.drop_last()).spec_after_tick(deltas.last())
        }
    }

    /// Starts a countdown of `duration` nanoseconds, with no time gone by.
    pub fn new(duration: u128) -> (timer: Self)
        ensures
            timer == Self::spec_new(duration),
            timer.spec_duration() == duration,
            timer.spec_elapsed() == 0,
            !timer.spec_finished(),
    {
        TimerDelete { duration, elapsed: 0, finished: false }
    }

    /// The time after which the tag is attached.
    pub fn duration(&self) -> (duration: u128)
        ensures
            duration == self.spec_duration(),
    {
        self.duration
    }

    /// The time that has gone by since the countdown began.
    pub fn elapsed(&self) -> (elapsed: u128)
        ensures
            elapsed == self.spec_elapsed(),
    {
        self.elapsed
    }

    /// Whether the countdown has run out.
    pub fn finished(&self) -> (finished: bool)
        ensures
            finished == self.spec_finished(),
    {
        self.finished
    }

    /// Advances the countdown by `delta` nanoseconds and says whether it has
    /// run out just now. It says so once: later ticks change nothing.
    pub fn tick(&mut self, delta: u128) -> (fired: bool)
        ensures
            *final(self) == old(self).spec_after_tick(delta),
            fired == old(self).spec_fires(delta),
            fired <==> {
                &&& !old(self).spec_finished()
                &&& old(self).spec_elapsed() + delta >= old(self).spec_duration()
            },
            final(self).spec_duration() == old(self).spec_duration(),
            final(self).spec_finished() <==> old(self).spec_finished() || fired,
            final(self).spec_elapsed() == if old(self).spec_finished() {
                old(self).spec_elapsed() as int
            } else if fired {
                old(self).spec_duration() as int
            } else {
                old(self).spec_elapsed() + delta
            },
    {
        if self.finished {
            return false;
        }
        if self.elapsed >= self.duration || delta >= self.duration - self.elapsed {
            self.elapsed = self.duration;
            self.finished = true;
            true
        } else {
            self.elapsed = self.elapsed + delta;
            false
        }
    }

    /// What a tick does, said of the three things a countdown holds.
    pub proof fn lemma_tick_unfolds(self, delta: u128)
        ensures
            self.spec_fires(delta) <==> !self.spec_finished() && self.spec_elapsed() + delta
                >= self.spec_duration(),
            self.spec_after_tick(delta).spec_duration() == self.spec_duration(),
            self.spec_after_tick(delta).spec_finished() <==> self.spec_finished()
                || self.spec_fires(delta),
            self.spec_after_tick(delta).spec_elapsed() == if self.spec_finished() {
                self.spec_elapsed() as int
            } else if self.spec_fires(delta) {
                self.spec_duration() as int
            } else {
                self.spec_elapsed() + delta
            },
    {
    }

    /// What ticks do to a fresh countdown of duration `D`. While the time gone
    /// by is less than `D` the countdown goes on and holds that time. The tick
    /// with which the time gone by reaches `D` makes it run out, and no tick
    /// before or after does: the tag comes once, at the first tick at which
    /// the time gone by is `D` or more.
    pub proof fn lemma_fires_once_when_due(duration: u128, deltas: Seq<u128>, delta: u128)
        ensures
            ({
                let timer = Self::spec_new(duration).spec_after_ticks(deltas);
                &&& timer.spec_duration() == duration
                &&& timer.spec_finished() <==> deltas.len() > 0 && total(deltas) >= duration
                &&& !timer.spec_finished() ==> timer.spec_elapsed() == total(deltas)
                &&& timer.spec_fires(delta) <==> total(deltas.push(delta)) >= duration && (
                deltas.len() == 0 || total(deltas) < duration)
            }),
        decreases deltas.len(),
    {
        assert(deltas.push(delta).drop_last() == deltas);
        if deltas.len() > 0 {
            Self::lemma_fires_once_when_due(duration, deltas.drop_last(), deltas.last());
            assert(deltas.drop_last().push(deltas.last()) == deltas);
        }
    }
}

/// What one tick of the timer drivers does to an object: its countdown, if it
/// has one, goes on by `delta`, and the object is tagged where the countdown
/// runs out with it. An object that carries the tag already is left as it is.
pub open spec fn timer_ticked(object: Object, delta: u128) -> Object {
    match object.timer {
        Some(timer) => if object.queued {
            object
        } else {
            Object {
                children: object.children,
                queued: timer.spec_fires(delta),
                frame_count: object.frame_count,
                timer: Some(timer.spec_after_tick(delta)),
            }
        },
        None => object,
    }
}

/// The registry after one tick of `delta` of the timer drivers.
pub open spec fn after_timer_tick(objects: Map<u64, Object>, delta: u128) -> Map<u64, Object> {
    Map::new(|id: u64| objects.contains_key(id), |id: u64| timer_ticked(objects[id], delta))
}

/// The registry while the tick is under way: the objects of the first `n`
/// items have had their tick.
spec fn timer_tick_under_way(
    objects: Map<u64, Object>,
    delta: u128,
    items: Seq<(u64, TimerDelete)>,
    n: int,
) -> Map<u64, Object> {
    Map::new(
        |id: u64| objects.contains_key(id),
        |id: u64|
            if listed_before(items, n, id) {
                timer_ticked(objects[id], delta)
            } else {
                objects[id]
            },
    )
}

/// Attaches a timer driver of `duration` nanoseconds to `entity`, with no time
/// gone by, in place of an earlier one, and says whether the object is alive.
/// On a dead object nothing happens.
pub fn attach_timer_deletion(world: &mut World, entity: u64, duration: u128) -> (alive: bool)
    ensures
        alive == world_objects(*old(world)).contains_key(entity),
        alive ==> world_objects(*final(world)) == world_objects(*old(world)).insert(
            entity,
            with_timer(world_objects(*old(world))[entity], TimerDelete::spec_new(duration)),
        ),
        !alive ==> world_objects(*final(world)) == world_objects(*old(world)),
{
    let alive = contains(world, entity);
    if alive {
        insert_timer(world, entity, TimerDelete::new(duration));
    }
    alive
}

/// Gives every timer driver a tick of `delta` nanoseconds: each countdown goes
/// on by `delta`, and the objects whose countdown runs out with it are tagged.
/// Objects that carry the tag already are passed over.
pub fn timer_delete_system(world: &mut World, delta: u128)
    ensures
        world_objects(*final(world)) == after_timer_tick(world_objects(*old(world)), delta),
{
    let items = timers(world);
    let ghost before = world_objects(*world);
    assert(world_objects(*world) =~= timer_tick_under_way(before, delta, items@, 0));
    let mut i: usize = 0;
    while i < items.len()
        invariant
            0 <= i <= items.len(),
            lists(items@, timers_of(before)),
            world_objects(*world) == timer_tick_under_way(before, delta, items@, i as int),
        decreases items.len() - i,
    {
        let id = items[i].0;
        let mut timer = items[i].1;
        let ghost item = items@[i as int];
        assert(timers_of(before).contains_key(item.0));
        assert(!listed_before(items@, i as int, id));
        if !has_queue_delete(world, id) {
            let fired = timer.tick(delta);
            insert_timer(world, id, timer);
            if fired {
                insert_queue_delete(world, id);
            }
        }
        proof {
            assert forall|other: u64| listed_before(items@, i + 1, other) == (listed_before(
                items@,
                i as int,
                other,
            ) || other == id) by {
                if listed_before(items@, i + 1, other) {
                    let j = choose|j: int|
                        0 <= j < i + 1 && j < items@.len() && (#[trigger] items@[j]).0 == other;
                    if j < i {
                        assert(listed_before(items@, i as int, other));
                    }
                }
                if listed_before(items@, i as int, other) {
                    let j = choose|j: int|
                        0 <= j < i && j < items@.len() && (#[trigger] items@[j]).0 == other;
                    assert(0 <= j < i + 1 && items@[j].0 == other);
                }
                if other == id {
                    assert(items@[i as int].0 == other);
                }
            }
            assert(world_objects(*world) =~= timer_tick_under_way(before, delta, items@, i + 1));
        }
        i += 1;
    }
    proof {
        assert forall|id: u64| before.contains_key(id) implies #[trigger] timer_tick_under_way(
            before,
            delta,
            items@,
            items@.len() as int,
        )[id] == timer_ticked(before[id], delta) by {
            if !listed_before(items@, items@.len() as int, id) {
                assert(!timers_of(before).contains_key(id));
            }
        }
        assert(world_objects(*world) =~= after_timer_tick(before, delta));
    }
}

} // verus!
