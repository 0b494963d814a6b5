//! The cascade: tagging an object together with everything below it in the hierarchy.

use crate::registry::below_first;
use crate::registry::children;
use crate::registry::depth_within;
use crate::registry::descendants;
use crate::registry::in_subtree;
use crate::registry::is_queued;
use crate::registry::lemma_depth_by_links;
use crate::registry::lemma_root_not_below_itself;
use crate::registry::lemma_subtree_by_links;
use crate::registry::lemma_subtree_unfolds;
use crate::registry::lemma_tag_all_keeps_links;
use crate::registry::lemma_tag_all_keeps_well_founded;
use crate::registry::lemma_tag_all_twice;
use crate::registry::subtree;
use crate::registry::tag_all;
use crate::registry::well_founded_below;
use crate::registry::Object;
use crate::world::children_of;
use crate::world::contains;
use crate::world::insert_queue_delete;
use crate::world::world_objects;
use bevy::ecs::world::World;
use vstd::prelude::*;

verus! {

/// Attaches the deletion tag to `entity` and to every transitive descendant of
/// it, and to no other object. Children are tagged before their parent. What
/// is listed as a child but is alive no longer is passed over. The hierarchy
/// below `entity` must be free of cycles.
pub fn queue_despawn_with_children_recursive(world: &mut World, entity: u64)
    requires
        well_founded_below(world_objects(*old(world)), entity),
    ensures
        world_objects(*final(world)) == tag_all(
            world_objects(*old(world)),
            subtree(world_objects(*old(world)), entity),
        ),
        well_founded_below(world_objects(*final(world)), entity),
{
    let ghost before = world_objects(*world);
    let ghost depth = choose|depth: nat| depth_within(before, entity, depth);
    queue_despawn_with_children_recursive_inner(world, entity, Ghost(depth));
    proof {
        lemma_tag_all_keeps_well_founded(before, subtree(before, entity), entity);
    }
}

/// Attaches the deletion tag to every transitive descendant of `entity`, and to
/// no other object: `entity` itself is left as it is. What is listed as a
/// child but is alive no longer is passed over. The hierarchy below `entity`
/// must be free of cycles.
pub fn queue_despawn_children(world: &mut World, entity: u64)
    requires
        well_founded_below(world_objects(*old(world)), entity),
    ensures
        world_objects(*final(world)) == tag_all(
            world_objects(*old(world)),
            descendants(world_objects(*old(world)), entity),
        ),
        is_queued(world_objects(*final(world)), entity) == is_queued(
            world_objects(*old(world)),
            entity,
        ),
        well_founded_below(world_objects(*final(world)), entity),
{
    let ghost before = world_objects(*world);
    let ghost depth = choose|depth: nat| depth_within(before, entity, depth);
    proof {
        lemma_root_not_below_itself(before, entity, depth);
        lemma_tag_all_keeps_well_founded(before, descendants(before, entity), entity);
    }
    queue_despawn_children_inner(world, entity, Ghost(depth));
}

/// Whether every path that leads down from `entity` has at most `limit` steps.
/// Where it says so for some `limit`, the hierarchy below `entity` is free of
/// cycles.
pub fn depth_within_limit(world: &World, entity: u64, limit: usize) -> (within: bool)
    ensures
        within == depth_within(world_objects(*world), entity, limit as nat),
        within ==> well_founded_below(world_objects(*world), entity),
    decreases limit,
{
    let ids = children_of(world, entity);
    if ids.len() == 0 {
        assert(depth_within(world_objects(*world), entity, limit as nat));
        return true;
    }
    if limit == 0 {
        return false;
    }
    let mut i: usize = 0;
    while i < ids.len()
        invariant
            0 <= i <= ids.len(),
            limit > 0,
            ids@ == children(world_objects(*world), entity),
            forall|j: int|
                0 <= j < i ==> depth_within(
                    world_objects(*world),
                    #[trigger] children(world_objects(*world), entity)[j],
                    (limit - 1) as nat,
                ),
        decreases ids.len() - i,
    {
        if !depth_within_limit(world, ids[i], limit - 1) {
            assert(!depth_within(
                world_objects(*world),
                children(world_objects(*world), entity)[i as int],
                (limit - 1) as nat,
            ));
            return false;
        }
        i += 1;
    }
    assert(depth_within(world_objects(*world), entity, limit as nat));
    true
}

/// As [`queue_despawn_with_children_recursive`], but for any hierarchy: where
/// a path that leads down from `entity` has more than `limit` steps, nothing is
/// tagged and the answer is `false`.
pub fn try_queue_despawn_with_children_recursive(world: &mut World, entity: u64, limit: usize) -> (done:
    bool)
    ensures
        done == depth_within(world_objects(*old(world)), entity, limit as nat),
        done ==> world_objects(*final(world)) == tag_all(
            world_objects(*old(world)),
            subtree(world_objects(*old(world)), entity),
        ),
        !done ==> world_objects(*final(world)) == world_objects(*old(world)),
{
    if depth_within_limit(world, entity, limit) {
        queue_despawn_with_children_recursive(world, entity);
        true
    } else {
        false
    }
}

/// As [`queue_despawn_children`], but for any hierarchy: where a path that
/// leads down from `entity` has more than `limit` steps, nothing is tagged and
/// the answer is `false`.
pub fn try_queue_despawn_children(world: &mut World, entity: u64, limit: usize) -> (done: bool)
    ensures
        done == depth_within(world_objects(*old(world)), entity, limit as nat),
        done ==> world_objects(*final(world)) == tag_all(
            world_objects(*old(world)),
            descendants(world_objects(*old(world)), entity),
        ),
        !done ==> world_objects(*final(world)) == world_objects(*old(world)),
{
    if depth_within_limit(world, entity, limit) {
        queue_despawn_children(world, entity);
        true
    } else {
        false
    }
}

fn queue_despawn_with_children_recursive_inner(
    world: &mut World,
    entity: u64,
    Ghost(depth): Ghost<nat>,
)
    requires
        depth_within(world_objects(*old(world)), entity, depth),
    ensures
        world_objects(*final(world)) == tag_all(
            world_objects(*old(world)),
            subtree(world_objects(*old(world)), entity),
        ),
    decreases depth, 1nat,
{
    let ghost before = world_objects(*world);
    queue_despawn_children_inner(world, entity, Ghost(depth));
    if contains(world, entity) {
        insert_queue_delete(world, entity);
    }
    proof {
        lemma_subtree_unfolds(before, entity);
        lemma_tag_all_twice(before, descendants(before, entity), set![entity]);
        assert(descendants(before, entity).union(set![entity]) =~= descendants(
            before,
            entity,
        ).insert(entity));
        assert(world_objects(*world) =~= tag_all(
            tag_all(before, descendants(before, entity)),
            set![entity],
        ));
    }
}

fn queue_despawn_children_inner(world: &mut World, entity: u64, Ghost(depth): Ghost<nat>)
    requires
        depth_within(world_objects(*old(world)), entity, depth),
    ensures
        world_objects(*final(world)) == tag_all(
            world_objects(*old(world)),
            descendants(world_objects(*old(world)), entity),
        ),
    decreases depth, 0nat,
{
    let ids = children_of(world, entity);
    let ghost before = world_objects(*world);
    assert(world_objects(*world) =~= tag_all(before, below_first(before, entity, 0)));
    let mut i: usize = 0;
    while i < ids.len()
        invariant
            0 <= i <= ids.len(),
            ids@ == children(before, entity),
            depth_within(before, entity, depth),
            world_objects(*world) == tag_all(before, below_first(before, entity, i as int)),
        decreases ids.len() - i,
    {
        let ghost now = world_objects(*world);
        let ghost done = below_first(before, entity, i as int);
        let child = ids[i];
        proof {
            lemma_tag_all_keeps_links(before, done);
            assert(depth_within(before, children(before, entity)[i as int], (depth - 1) as nat));
            lemma_depth_by_links(before, now, child, (depth - 1) as nat);
        }
        queue_despawn_with_children_recursive_inner(world, child, Ghost((depth - 1) as nat));
        proof {
            lemma_subtree_by_links(before, now, child);
            lemma_tag_all_twice(before, done, subtree(before, child));
            lemma_below_first_grows(before, entity, i as int);
        }
        i += 1;
    }
}

/// The subtrees of the first `n + 1` children are those of the first `n` and
/// that of the next one.
proof fn lemma_below_first_grows(objects: Map<u64, Object>, root: u64, n: int)
    requires
        0 <= n < children(objects, root).len(),
    ensures
        below_first(objects, root, n + 1) == below_first(objects, root, n).union(
            subtree(objects, children(objects, root)[n]),
        ),
{
    let kids = children(objects, root);
    assert forall|id: u64|
        below_first(objects, root, n + 1).contains(id) == below_first(objects, root, n).union(
            subtree(objects, kids[n]),
        ).contains(id) by {
        if below_first(objects, root, n + 1).contains(id) {
            let i = choose|i: int|
                0 <= i < n + 1 && i < children(objects, root).len() && in_subtree(
                    objects,
                    #[trigger] children(objects, root)[i],
                    id,
                );
            if i < n {
                assert(below_first(objects, root, n).contains(id));
            }
        }
        if below_first(objects, root, n).contains(id) {
            let i = choose|i: int|
                0 <= i < n && i < children(objects, root).len() && in_subtree(
                    objects,
                    #[trigger] children(objects, root)[i],
                    id,
                );
            assert(0 <= i < n + 1 && in_subtree(objects, children(objects, root)[i], id));
        }
        if subtree(objects, kids[n]).contains(id) {
            assert(in_subtree(objects, children(objects, root)[n], id));
        }
    }
    assert(below_first(objects, root, n + 1) =~= below_first(objects, root, n).union(
        subtree(objects, kids[n]),
    ));
}

/// Tagging down the hierarchy, as an extension of the registry.
pub trait QueueDespawnRecursiveExt {
    /// What the registry holds.
    spec fn objects(&self) -> Map<u64, Object>;

    /// Attaches the deletion tag to `entity` and to every transitive descendant
    /// of it, and to no other object.
    fn queue_despawn_recursive(&mut self, entity: u64)
        requires
            well_founded_below(old(self).objects(), entity),
        ensures
            final(self).objects() == tag_all(
                old(self).objects(),
                subtree(old(self).objects(), entity),
            ),
    ;

    /// Attaches the deletion tag to every transitive descendant of `entity`,
    /// and to no other object.
    fn queue_despawn_descendants(&mut self, entity: u64)
        requires
            well_founded_below(old(self).objects(), entity),
        ensures
            final(self).objects() == tag_all(
                old(self).objects(),
                descendants(old(self).objects(), entity),
            ),
    ;
}

impl QueueDespawnRecursiveExt for World {
    open spec fn objects(&self) -> Map<u64, Object> {
        world_objects(*self)
    }

    fn queue_despawn_recursive(&mut self, entity: u64) {
        queue_despawn_with_children_recursive(self, entity);
    }

    fn queue_despawn_descendants(&mut self, entity: u64) {
        queue_despawn_children(self, entity);
    }
}

} // verus!
