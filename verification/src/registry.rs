//! What this library reads of the host registry, as mathematics.
//!
//! A registry is a map from the ids of the live objects to what each of them
//! carries. The executable code works on a `World`; every contract is stated
//! over this map.

use crate::frame_count::FrameCountDelete;
use crate::timer::TimerDelete;
use vstd::prelude::*;

verus! {

/// What one live object carries, as far as deferred deletion is concerned.
pub struct Object {
    /// The ids of the object's children, in the order the registry keeps them.
    pub children: Seq<u64>,
    /// Whether the deletion tag is attached.
    pub queued: bool,
    /// The tick-count driver attached to the object, if any.
    pub frame_count: Option<FrameCountDelete>,
    /// The timer driver attached to the object, if any.
    pub timer: Option<TimerDelete>,
}

/// The children of `id`: none where the object does not exist.
pub open spec fn children(objects: Map<u64, Object>, id: u64) -> Seq<u64> {
    if objects.contains_key(id) {
        objects[id].children
    } else {
        Seq::empty()
    }
}

/// Whether `id` is a live object that carries the deletion tag.
pub open spec fn is_queued(objects: Map<u64, Object>, id: u64) -> bool {
    objects.contains_key(id) && objects[id].queued
}

/// The objects that carry the deletion tag.
pub open spec fn queued(objects: Map<u64, Object>) -> Set<u64> {
    Set::new(|id: u64| is_queued(objects, id))
}

/// The object with the deletion tag attached.
pub open spec fn tagged(object: Object) -> Object {
    Object {
        children: object.children,
        queued: true,
        frame_count: object.frame_count,
        timer: object.timer,
    }
}

/// The object with `count` as its tick-count driver.
pub open spec fn with_frame_count(object: Object, count: FrameCountDelete) -> Object {
    Object {
        children: object.children,
        queued: object.queued,
        frame_count: Some(count),
        timer: object.timer,
    }
}

/// The object with `timer` as its timer driver.
pub open spec fn with_timer(object: Object, timer: TimerDelete) -> Object {
    Object {
        children: object.children,
        queued: object.queued,
        frame_count: object.frame_count,
        timer: Some(timer),
    }
}

/// The tick-count drivers of a registry, by the object each is attached to.
pub open spec fn frame_counts_of(objects: Map<u64, Object>) -> Map<u64, FrameCountDelete> {
    Map::new(
        |id: u64| objects.contains_key(id) && objects[id].frame_count is Some,
        |id: u64| objects[id].frame_count->0,
    )
}

/// The timer drivers of a registry, by the object each is attached to.
pub open spec fn timers_of(objects: Map<u64, Object>) -> Map<u64, TimerDelete> {
    Map::new(
        |id: u64| objects.contains_key(id) && objects[id].timer is Some,
        |id: u64| objects[id].timer->0,
    )
}

/// Whether `items` lists every entry of `components` exactly once.
pub open spec fn lists<T>(items: Seq<(u64, T)>, components: Map<u64, T>) -> bool {
    &&& forall|i: int, j: int|
        0 <= i < j < items.len() ==> (#[trigger] items[i]).0 != (#[trigger] items[j]).0
    &&& forall|i: int|
        0 <= i < items.len() ==> components.contains_key((#[trigger] items[i]).0)
            && components[items[i].0] == items[i].1
    &&& forall|id: u64| #[trigger]
        components.contains_key(id) ==> listed_before(items, items.len() as int, id)
}

/// Whether one of the first `n` items is about `id`.
pub open spec fn listed_before<T>(items: Seq<(u64, T)>, n: int, id: u64) -> bool {
    exists|j: int| 0 <= j < n && j < items.len() && (#[trigger] items[j]).0 == id
}

/// The registry after the deletion tag was attached to every live object in `ids`.
/// Nothing else changes, and objects that already carry the tag keep it.
pub open spec fn tag_all(objects: Map<u64, Object>, ids: Set<u64>) -> Map<u64, Object> {
    Map::new(
        |id: u64| objects.contains_key(id),
        |id: u64|
            if ids.contains(id) {
                tagged(objects[id])
            } else {
                objects[id]
            },
    )
}

/// An object that has a place in the registry and carries nothing: no
/// children, no tag and no driver.
pub open spec fn bare_object() -> Object {
    Object { children: Seq::empty(), queued: false, frame_count: None, timer: None }
}

/// The registry after every id in `reserved` was given its place. The objects
/// that were there are as they were, and each of the others is a bare object.
pub open spec fn with_reserved(objects: Map<u64, Object>, reserved: Set<u64>) -> Map<u64, Object> {
    Map::new(
        |id: u64| objects.contains_key(id) || reserved.contains(id),
        |id: u64|
            if objects.contains_key(id) {
                objects[id]
            } else {
                bare_object()
            },
    )
}

/// The first id of the last generation. An id holds the generation of its
/// slot in its upper half; from here up that generation is the largest there
/// is, so the slot cannot be counted on, and the registry cannot destroy the
/// object.
pub const LAST_GENERATION: u64 = 0xFFFF_FFFF_0000_0000;

/// Whether `id` is a live object that carries the deletion tag and can be
/// destroyed: its generation is not the last one.
pub open spec fn is_doomed(objects: Map<u64, Object>, id: u64) -> bool {
    is_queued(objects, id) && id < LAST_GENERATION
}

/// The objects that carry the deletion tag and can be destroyed.
pub open spec fn doomed(objects: Map<u64, Object>) -> Set<u64> {
    Set::new(|id: u64| is_doomed(objects, id))
}

/// Whether some object carries the deletion tag and can be destroyed.
pub open spec fn any_doomed(objects: Map<u64, Object>) -> bool {
    exists|id: u64| is_doomed(objects, id)
}

/// The registry after every object that carries the deletion tag was
/// destroyed. An object of the last generation is passed over and keeps its
/// tag. Destroying an object first gives the ids in `reserved`, those that
/// were handed out and had no place yet, their place. Where nothing is to be
/// destroyed nothing changes.
pub open spec fn after_deletion(objects: Map<u64, Object>, reserved: Set<u64>) -> Map<u64, Object> {
    if any_doomed(objects) {
        with_reserved(objects, reserved).remove_keys(doomed(objects))
    } else {
        objects
    }
}

/// Whether `to` can be reached from `from` by going from an object to one of
/// its children at most `steps` times.
pub open spec fn reaches_within(objects: Map<u64, Object>, from: u64, to: u64, steps: nat) -> bool
    decreases steps,
{
    from == to || (steps > 0 && exists|i: int|
        0 <= i < children(objects, from).len() && reaches_within(
            objects,
            #[trigger] children(objects, from)[i],
            to,
            (steps - 1) as nat,
        ))
}

/// Whether `id` is `root` or one of its transitive descendants.
pub open spec fn in_subtree(objects: Map<u64, Object>, root: u64, id: u64) -> bool {
    exists|steps: nat| reaches_within(objects, root, id, steps)
}

/// `root` together with all its transitive descendants.
pub open spec fn subtree(objects: Map<u64, Object>, root: u64) -> Set<u64> {
    Set::new(|id: u64| in_subtree(objects, root, id))
}

/// What lies in the subtrees of the first `n` children of `root`.
pub open spec fn below_first(objects: Map<u64, Object>, root: u64, n: int) -> Set<u64> {
    Set::new(
        |id: u64|
            exists|i: int|
                0 <= i < n && i < children(objects, root).len() && in_subtree(
                    objects,
                    #[trigger] children(objects, root)[i],
                    id,
                ),
    )
}

/// The transitive descendants of `root`: what lies in the subtree of one of its children.
pub open spec fn descendants(objects: Map<u64, Object>, root: u64) -> Set<u64> {
    below_first(objects, root, children(objects, root).len() as int)
}

/// Whether every path that leads down from `root` has at most `depth` steps.
pub open spec fn depth_within(objects: Map<u64, Object>, root: u64, depth: nat) -> bool
    decreases depth,
{
    children(objects, root).len() == 0 || (depth > 0 && forall|i: int|
        0 <= i < children(objects, root).len() ==> depth_within(
            objects,
            #[trigger] children(objects, root)[i],
            (depth - 1) as nat,
        ))
}

/// Whether the hierarchy below `root` is free of cycles: no path that leads
/// down from `root` goes on for ever.
pub open spec fn well_founded_below(objects: Map<u64, Object>, root: u64) -> bool {
    exists|depth: nat| depth_within(objects, root, depth)
}

/// Whether two registries hold the same parent-to-children links.
pub open spec fn same_links(a: Map<u64, Object>, b: Map<u64, Object>) -> bool {
    forall|id: u64| #[trigger] children(a, id) == children(b, id)
}

/// The subtree of an object is the object itself and its descendants.
pub proof fn lemma_subtree_unfolds(objects: Map<u64, Object>, root: u64)
    ensures
        subtree(objects, root) == descendants(objects, root).insert(root),
{
    assert forall|id: u64|
        subtree(objects, root).contains(id) == descendants(objects, root).insert(root).contains(
            id,
        ) by {
        if in_subtree(objects, root, id) && id != root {
            let steps = choose|steps: nat| reaches_within(objects, root, id, steps);
            let i = choose|i: int|
                0 <= i < children(objects, root).len() && reaches_within(
                    objects,
                    #[trigger] children(objects, root)[i],
                    id,
                    (steps - 1) as nat,
                );
            assert(in_subtree(objects, children(objects, root)[i], id));
        }
        if descendants(objects, root).contains(id) {
            let i = choose|i: int|
                0 <= i < children(objects, root).len() && in_subtree(
                    objects,
                    #[trigger] children(objects, root)[i],
                    id,
                );
            let steps = choose|steps: nat|
                reaches_within(objects, children(objects, root)[i], id, steps);
            assert(reaches_within(objects, root, id, steps + 1));
        }
        if id == root {
            assert(reaches_within(objects, root, id, 0));
        }
    }
    assert(subtree(objects, root) =~= descendants(objects, root).insert(root));
}

/// Reachability depends on the links alone.
pub proof fn lemma_reaches_by_links(
    a: Map<u64, Object>,
    b: Map<u64, Object>,
    from: u64,
    to: u64,
    steps: nat,
)
    requires
        same_links(a, b),
    ensures
        reaches_within(a, from, to, steps) == reaches_within(b, from, to, steps),
    decreases steps,
{
    assert(children(a, from) == children(b, from));
    if steps > 0 {
        assert forall|i: int| 0 <= i < children(a, from).len() implies reaches_within(
            a,
            #[trigger] children(a, from)[i],
            to,
            (steps - 1) as nat,
        ) == reaches_within(b, children(b, from)[i], to, (steps - 1) as nat) by {
            lemma_reaches_by_links(a, b, children(a, from)[i], to, (steps - 1) as nat);
        }
    }
}

/// Subtrees depend on the links alone.
pub proof fn lemma_subtree_by_links(a: Map<u64, Object>, b: Map<u64, Object>, root: u64)
    requires
        same_links(a, b),
    ensures
        subtree(a, root) == subtree(b, root),
{
    assert forall|id: u64| in_subtree(a, root, id) == in_subtree(b, root, id) by {
        if in_subtree(a, root, id) {
            let steps = choose|steps: nat| reaches_within(a, root, id, steps);
            lemma_reaches_by_links(a, b, root, id, steps);
        }
        if in_subtree(b, root, id) {
            let steps = choose|steps: nat| reaches_within(b, root, id, steps);
            lemma_reaches_by_links(a, b, root, id, steps);
        }
    }
    assert(subtree(a, root) =~= subtree(b, root));
}

/// The depth below an object depends on the links alone.
pub proof fn lemma_depth_by_links(a: Map<u64, Object>, b: Map<u64, Object>, root: u64, depth: nat)
    requires
        same_links(a, b),
    ensures
        depth_within(a, root, depth) == depth_within(b, root, depth),
    decreases depth,
{
    let kids = children(a, root);
    assert(kids == children(b, root));
    if depth > 0 {
        assert forall|i: int| 0 <= i < kids.len() implies depth_within(
            a,
            #[trigger] children(a, root)[i],
            (depth - 1) as nat,
        ) == depth_within(b, children(b, root)[i], (depth - 1) as nat) by {
            lemma_depth_by_links(a, b, kids[i], (depth - 1) as nat);
        }
    }
}

/// Attaching tags leaves the links as they are.
pub proof fn lemma_tag_all_keeps_links(objects: Map<u64, Object>, ids: Set<u64>)
    ensures
        same_links(objects, tag_all(objects, ids)),
{
}

/// Attaching tags leaves a hierarchy free of cycles where it was.
pub proof fn lemma_tag_all_keeps_well_founded(objects: Map<u64, Object>, ids: Set<u64>, root: u64)
    requires
        well_founded_below(objects, root),
    ensures
        well_founded_below(tag_all(objects, ids), root),
{
    let depth = choose|depth: nat| depth_within(objects, root, depth);
    lemma_depth_by_links(objects, tag_all(objects, ids), root, depth);
}

/// Tagging one set of objects and then another tags their union.
pub proof fn lemma_tag_all_twice(objects: Map<u64, Object>, first: Set<u64>, second: Set<u64>)
    ensures
        tag_all(tag_all(objects, first), second) == tag_all(objects, first.union(second)),
{
    assert(tag_all(tag_all(objects, first), second) =~= tag_all(objects, first.union(second)));
}

/// Attaching the tag is idempotent and commutative: tagging a set of objects
/// twice is tagging it once, and the order in which two sets are tagged makes
/// no difference.
pub proof fn lemma_tag_all_order_free(objects: Map<u64, Object>, first: Set<u64>, second: Set<u64>)
    ensures
        tag_all(tag_all(objects, first), first) == tag_all(objects, first),
        tag_all(tag_all(objects, first), second) == tag_all(tag_all(objects, second), first),
{
    assert(tag_all(tag_all(objects, first), first) =~= tag_all(objects, first));
    assert(tag_all(tag_all(objects, first), second) =~= tag_all(
        tag_all(objects, second),
        first,
    ));
}

/// A bound on the depth below an object holds of every larger bound too.
pub proof fn lemma_depth_grows(objects: Map<u64, Object>, root: u64, depth: nat, more: nat)
    requires
        depth_within(objects, root, depth),
        depth <= more,
    ensures
        depth_within(objects, root, more),
    decreases depth,
{
    if children(objects, root).len() > 0 {
        assert forall|i: int| 0 <= i < children(objects, root).len() implies depth_within(
            objects,
            #[trigger] children(objects, root)[i],
            (more - 1) as nat,
        ) by {
            lemma_depth_grows(
                objects,
                children(objects, root)[i],
                (depth - 1) as nat,
                (more - 1) as nat,
            );
        }
    }
}

/// A bound on the depth below an object holds below everything in its subtree.
pub proof fn lemma_depth_below_reached(
    objects: Map<u64, Object>,
    from: u64,
    to: u64,
    steps: nat,
    depth: nat,
)
    requires
        depth_within(objects, from, depth),
        reaches_within(objects, from, to, steps),
    ensures
        depth_within(objects, to, depth),
    decreases steps,
{
    if from != to {
        let i = choose|i: int|
            0 <= i < children(objects, from).len() && reaches_within(
                objects,
                #[trigger] children(objects, from)[i],
                to,
                (steps - 1) as nat,
            );
        let next = children(objects, from)[i];
        assert(depth_within(objects, next, (depth - 1) as nat));
        lemma_depth_below_reached(objects, next, to, (steps - 1) as nat, (depth - 1) as nat);
        lemma_depth_grows(objects, to, (depth - 1) as nat, depth);
    }
}

/// Where the hierarchy below an object is free of cycles, the object is not
/// among its own descendants.
pub proof fn lemma_root_not_below_itself(objects: Map<u64, Object>, root: u64, depth: nat)
    requires
        depth_within(objects, root, depth),
    ensures
        !descendants(objects, root).contains(root),
    decreases depth,
{
    if descendants(objects, root).contains(root) {
        let i = choose|i: int|
            0 <= i < children(objects, root).len() && in_subtree(
                objects,
                #[trigger] children(objects, root)[i],
                root,
            );
        let child = children(objects, root)[i];
        let steps = choose|steps: nat| reaches_within(objects, child, root, steps);
        assert(depth_within(objects, child, (depth - 1) as nat));
        lemma_depth_below_reached(objects, child, root, steps, (depth - 1) as nat);
        lemma_root_not_below_itself(objects, root, (depth - 1) as nat);
    }
}

} // verus!
