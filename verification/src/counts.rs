//! The table of counts: bevy's `HashMap`, keyed by the id of the object.

use bevy::utils::HashMap;
use vstd::prelude::*;

verus! {

/// The counts by object, in a `bevy::utils::HashMap<u64, usize>`. Nothing of
/// its inside is known here but what [`counts_held`] names.
#[verifier::external_body]
pub struct RefCounts {
    map: HashMap<u64, usize>,
}

/// What the table holds: the count of every object that has an entry.
pub uninterp spec fn counts_held(counts: RefCounts) -> Map<u64, usize>;

/// The counts of a table without entries.
pub open spec fn no_counts() -> Map<u64, usize> {
    Map::empty()
}

/// `HashMap::default`: a table without entries.
#[verifier::external_body]
pub(crate) fn new_counts() -> (table: RefCounts)
    ensures
        counts_held(table) == no_counts(),
{
    RefCounts { map: HashMap::default() }
}

/// `HashMap::get`: the count under `id`, if there is an entry.
#[verifier::external_body]
pub(crate) fn get_count(counts: &RefCounts, id: u64) -> (count: Option<usize>)
    ensures
        count == if counts_held(*counts).contains_key(id) {
            Some(counts_held(*counts)[id])
        } else {
            None
        },
{
    counts.map.get(&id).copied()
}

/// `HashMap::insert`: `id` has the entry `count` afterwards, in place of an
/// earlier one, and every other entry is as before.
#[verifier::external_body]
pub(crate) fn insert_count(counts: &mut RefCounts, id: u64, count: usize)
    ensures
        counts_held(*final(counts)) == counts_held(*old(counts)).insert(id, count),
{
    counts.map.insert(id, count);
}

/// `HashMap::remove`: `id` has no entry afterwards, and every other entry is
/// as before.
#[verifier::external_body]
pub(crate) fn remove_count(counts: &mut RefCounts, id: u64)
    ensures
        counts_held(*final(counts)) == counts_held(*old(counts)).remove(id),
{
    counts.map.remove(&id);
}

} // verus!
