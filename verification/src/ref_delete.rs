//! Reference counted handles: an object is tagged for deletion once no strong
//! handle to it is left.
//!
//! Handles send a [`RefChange`] when they are made strong and when they are
//! released. Once in a tick the server takes these changes off the channel and
//! applies them to its table of counts ([`mark_unused_entities`]), then tags
//! the objects whose count has gone to zero ([`free_unused_entities`]).

use crate::channel::clone_sender;
use crate::channel::send_change;
use crate::channel::try_recv_change;
use crate::channel::unbounded_channel;
use crate::channel::waiting_changes;
use crate::counts::counts_held;
use crate::counts::get_count;
use crate::counts::insert_count;
use crate::counts::new_counts;
use crate::counts::remove_count;
use crate::counts::RefCounts;
use crate::registry::tag_all;
use crate::tag_for_deletion;
use crate::Phase;
use crate::world::world_objects;
use bevy::ecs::world::World;
use crossbeam_channel::Receiver;
use crossbeam_channel::Sender;
use vstd::prelude::*;

verus! {

/// The plugin that installs the reference counting phases.
#[derive(Clone, Copy, Debug, Default)]
pub struct RefEntityPlugin;

impl RefEntityPlugin {
    /// A new server, and the two phases of reference counting in the order in
    /// which the scheduler is to run them, once in a tick and before what is
    /// tagged is destroyed.
    pub fn build(&self) -> (installed: (RefEntityServer, Vec<Phase>))
        ensures
            installed.0@ == (Tracker { counts: Map::empty(), pending: Seq::empty() }),
            installed.1@ == seq![Phase::MarkUnused, Phase::FreeUnused],
    {
        let mut phases = Vec::new();
        phases.push(Phase::MarkUnused);
        phases.push(Phase::FreeUnused);
        (RefEntityServer::new(), phases)
    }
}

/// A change to the number of strong handles to an object.
#[derive(Clone, Copy, Debug, PartialEq, Eq)]
pub enum RefChange {
    /// A strong handle to the object was made.
    Increment(u64),
    /// A strong handle to the object was released.
    Decrement(u64),
}

/// What one attempt to take a change off the channel came to.
#[derive(Clone, Copy, Debug, PartialEq, Eq)]
pub enum Received {
    /// A change was waiting.
    Change(RefChange),
    /// Nothing is waiting.
    Empty,
    /// Nothing is waiting and no sender is left.
    Disconnected,
}

/// The channel is closed: its other end is gone.
#[derive(Clone, Copy, Debug, PartialEq, Eq)]
pub struct Disconnected;

impl Disconnected {
    /// What went wrong, in words.
    pub fn message(&self) -> (text: &'static str)
        ensures
            text@ == "RefChange channel disconnected."@,
    {
        "RefChange channel disconnected."
    }
}

/// What the server keeps: the count of every object that has strong handles,
/// and the objects whose count went to zero since they were last looked at.
pub struct Tracker {
    /// The number of strong handles by object. An object without an entry has none.
    pub counts: Map<u64, usize>,
    /// The objects whose count went to zero, in the order in which it did.
    pub pending: Seq<u64>,
}

/// The number of strong handles to `id`.
pub open spec fn count_of(counts: Map<u64, usize>, id: u64) -> nat {
    if counts.contains_key(id) {
        counts[id] as nat
    } else {
        0
    }
}

/// The tracker after one change. An increment adds one to the object's count,
/// which stops at `usize::MAX`. A decrement takes one off; where that leaves
/// none, the entry goes and the object is put down as pending.
pub open spec fn applied(tracker: Tracker, change: RefChange) -> Tracker {
    match change {
        RefChange::Increment(id) => Tracker {
            counts: tracker.counts.insert(
                id,
                if count_of(tracker.counts, id) >= usize::MAX {
                    usize::MAX
                } else {
                    (count_of(tracker.counts, id) + 1) as usize
                },
            ),
            pending: tracker.pending,
        },
        RefChange::Decrement(id) => if count_of(tracker.counts, id) <= 1 {
            Tracker { counts: tracker.counts.remove(id), pending: tracker.pending.push(id) }
        } else {
            Tracker {
                counts: tracker.counts.insert(id, (count_of(tracker.counts, id) - 1) as usize),
                pending: tracker.pending,
            }
        },
    }
}

/// The tracker after the given changes, applied in order.
pub open spec fn drained(tracker: Tracker, changes: Seq<RefChange>) -> Tracker
    decreases changes.len(),
{
    if changes.len() == 0 {
        tracker
    } else {
        applied(drained(tracker, changes.drop_last()), changes.last())
    }
}

/// The objects that are to be tagged: those put down as pending that have no
/// strong handle now.
pub open spec fn unused(tracker: Tracker) -> Set<u64> {
    Set::new(|id: u64| tracker.pending.contains(id) && count_of(tracker.counts, id) == 0)
}

/// How many of the changes are increments for `id`.
pub open spec fn increments(changes: Seq<RefChange>, id: u64) -> nat
    decreases changes.len(),
{
    if changes.len() == 0 {
        0
    } else {
        increments(changes.drop_last(), id) + if changes.last() == RefChange::Increment(id) {
            1nat
        } else {
            0nat
        }
    }
}

/// How many of the changes are decrements for `id`.
pub open spec fn decrements(changes: Seq<RefChange>, id: u64) -> nat
    decreases changes.len(),
{
    if changes.len() == 0 {
        0
    } else {
        decrements(changes.drop_last(), id) + if changes.last() == RefChange::Decrement(id) {
            1nat
        } else {
            0nat
        }
    }
}

/// Whether every release of a handle to `id` follows the making of that
/// handle: at no point in `changes` have more handles been released than
/// `start` and the increments up to there account for.
pub open spec fn releases_follow_creations(start: nat, changes: Seq<RefChange>, id: u64) -> bool {
    forall|n: int|
        0 <= n <= changes.len() ==> start + increments(#[trigger] changes.take(n), id)
            >= decrements(changes.take(n), id)
}

/// The count of an object after a run of changes is its net count: what it was,
/// plus the increments, less the decrements. The object is to be tagged after
/// them if and only if that net count is zero and a handle to it was released
/// (or the object was pending from the start): an increment that arrives before
/// the objects are looked at keeps the object alive. No run of changes leaves
/// an entry of zero where there was none: an object without handles has no
/// entry.
pub proof fn lemma_net_count_decides(tracker: Tracker, changes: Seq<RefChange>, id: u64)
    requires
        releases_follow_creations(count_of(tracker.counts, id), changes, id),
        count_of(tracker.counts, id) + increments(changes, id) <= usize::MAX,
    ensures
        count_of(drained(tracker, changes).counts, id) == count_of(tracker.counts, id)
            + increments(changes, id) - decrements(changes, id),
        drained(tracker, changes).pending.contains(id) ==> decrements(changes, id) > 0
            || tracker.pending.contains(id),
        tracker.pending.contains(id) ==> drained(tracker, changes).pending.contains(id),
        unused(drained(tracker, changes)).contains(id) <==> count_of(tracker.counts, id)
            + increments(changes, id) == decrements(changes, id) && (decrements(changes, id) > 0
            || tracker.pending.contains(id)),
        count_of(tracker.counts, id) > 0 || !tracker.counts.contains_key(id) ==> count_of(
            drained(tracker, changes).counts,
            id,
        ) > 0 || !drained(tracker, changes).counts.contains_key(id),
    decreases changes.len(),
{
    let start = count_of(tracker.counts, id);
    assert(changes.take(changes.len() as int) == changes);
    if changes.len() > 0 {
        let before = changes.drop_last();
        let last = changes.last();
        assert forall|n: int| 0 <= n <= before.len() implies start + increments(
            #[trigger] before.take(n),
            id,
        ) >= decrements(before.take(n), id) by {
            assert(before.take(n) == changes.take(n));
        }
        lemma_net_count_decides(tracker, before, id);
        let mid = drained(tracker, before);
        assert(before.take(before.len() as int) == before);
        assert(changes.take(before.len() as int) == before);
        if let RefChange::Decrement(other) = last {
            if mid.pending.contains(id) {
                let i = choose|i: int| 0 <= i < mid.pending.len() && mid.pending[i] == id;
                assert(mid.pending.push(other)[i] == id);
            }
            if other == id {
                assert(mid.pending.push(id).last() == id);
            }
        }
    }
}

/// As many handles made as released, for an object without an entry, leave
/// it without an entry and put it down as pending: with nobody holding it the
/// object is a candidate for the tag.
pub proof fn lemma_balanced_handles_leave_no_entry(
    tracker: Tracker,
    changes: Seq<RefChange>,
    id: u64,
)
    requires
        !tracker.counts.contains_key(id),
        releases_follow_creations(0, changes, id),
        increments(changes, id) == decrements(changes, id),
        1 <= increments(changes, id) <= usize::MAX,
    ensures
        !drained(tracker, changes).counts.contains_key(id),
        drained(tracker, changes).pending.contains(id),
        unused(drained(tracker, changes)).contains(id),
{
    lemma_net_count_decides(tracker, changes, id);
}

/// The two ends of the channel that carries the changes.
struct RefChangeChannel {
    sender: Sender<RefChange>,
    receiver: Receiver<RefChange>,
}

impl RefChangeChannel {
    /// A channel of its own, without a bound on what it holds.
    fn new() -> (channel: Self) {
        let (sender, receiver) = unbounded_channel();
        RefChangeChannel { sender, receiver }
    }
}

/// Keeps the count of strong handles of every object, and hands out handles.
pub struct RefEntityServer {
    channel: RefChangeChannel,
    ref_counts: RefCounts,
    mark_unused_assets: Vec<u64>,
}

impl View for RefEntityServer {
    type V = Tracker;

    closed spec fn view(&self) -> Tracker {
        Tracker { counts: counts_held(self.ref_counts), pending: self.mark_unused_assets@ }
    }
}

impl RefEntityServer {
    /// A server with no counts and nothing pending, and a channel of its own.
    pub fn new() -> (server: Self)
        ensures
            server@ == (Tracker { counts: Map::empty(), pending: Seq::empty() }),
    {
        RefEntityServer {
            channel: RefChangeChannel::new(),
            ref_counts: new_counts(),
            mark_unused_assets: Vec::new(),
        }
    }

    /// A strong handle to `id`. Making it sends one increment for `id`. It
    /// fails where the channel is closed.
    pub fn get_handle(&self, id: u64) -> (handle: Result<RefEntityHandle, Disconnected>)
        ensures
            handle matches Ok(h) ==> h.spec_entity() == id && h.spec_is_strong(),
    {
        let sender = clone_sender(&self.channel.sender);
        RefEntityHandle::strong(id, sender)
    }

    /// The number of strong handles to `id` that the server knows of.
    pub fn ref_count(&self, id: u64) -> (count: usize)
        ensures
            count == count_of(self@.counts, id),
    {
        match get_count(&self.ref_counts, id) {
            Some(count) => count,
            None => 0,
        }
    }

    /// The objects whose count went to zero since they were last looked at.
    pub fn pending(&self) -> (ids: &Vec<u64>)
        ensures
            ids@ == self@.pending,
    {
        &self.mark_unused_assets
    }

    /// Applies one change to the counts.
    pub fn apply(&mut self, change: RefChange)
        ensures
            final(self)@ == applied(old(self)@, change),
    {
        match change {
            RefChange::Increment(id) => {
                let count = self.ref_count(id);
                let more = if count == usize::MAX {
                    usize::MAX
                } else {
                    count + 1
                };
                insert_count(&mut self.ref_counts, id, more);
            },
            RefChange::Decrement(id) => {
                let count = self.ref_count(id);
                if count <= 1 {
                    remove_count(&mut self.ref_counts, id);
                    self.mark_unused_assets.push(id);
                } else {
                    insert_count(&mut self.ref_counts, id, count - 1);
                }
            },
        }
    }

    /// One step of the drain, on what the channel gave. A change is applied
    /// and the drain goes on. An empty channel ends the drain in good order.
    /// A closed channel ends it with a failure and is never taken for an
    /// empty one. In both cases the counts are as they were.
    pub fn drain_step(&mut self, received: Received) -> (next: Option<Result<(), Disconnected>>)
        ensures
            match received {
                Received::Change(change) => final(self)@ == applied(old(self)@, change)
                    && next is None,
                Received::Empty => final(self)@ == old(self)@ && next == Some(
                    Ok::<(), Disconnected>(()),
                ),
                Received::Disconnected => final(self)@ == old(self)@ && next == Some(
                    Err::<(), Disconnected>(Disconnected),
                ),
            },
    {
        match received {
            Received::Change(change) => {
                self.apply(change);
                None
            },
            Received::Empty => Some(Ok(())),
            Received::Disconnected => Some(Err(Disconnected)),
        }
    }

    /// Applies the given changes to the counts, in order.
    pub fn apply_all(&mut self, changes: &Vec<RefChange>)
        ensures
            final(self)@ == drained(old(self)@, changes@),
    {
        let ghost start = self@;
        let mut i: usize = 0;
        while i < changes.len()
            invariant
                0 <= i <= changes.len(),
                self@ == drained(start, changes@.take(i as int)),
            decreases changes.len() - i,
        {
            self.apply(changes[i]);
            proof {
                assert(changes@.take(i + 1).drop_last() == changes@.take(i as int));
            }
            i += 1;
        }
        proof {
            assert(changes@.take(changes.len() as int) == changes@);
        }
    }
}

impl Default for RefEntityServer {
    fn default() -> (server: Self)
        ensures
            server@ == (Tracker { counts: Map::empty(), pending: Seq::empty() }),
    {
        RefEntityServer::new()
    }
}

/// The drain phase: takes the changes that are waiting off the channel and
/// applies them to the counts, in the order in which they come. Says how many
/// there were. The channel is asked once more than changes were waiting when
/// the drain began, so that an empty channel and a closed one are seen for
/// what they are. Where the channel turns out to be closed, what was taken off
/// before has been applied.
pub fn mark_unused_entities(server: &mut RefEntityServer) -> (taken: Result<usize, Disconnected>)
    ensures
        exists|changes: Seq<RefChange>|
            {
                &&& final(server)@ == #[trigger] drained(old(server)@, changes)
                &&& taken matches Ok(n) ==> n == changes.len()
            },
{
    let waiting = waiting_changes(&server.channel.receiver);
    let asked = if waiting < usize::MAX {
        waiting + 1
    } else {
        waiting
    };
    let ghost start = server@;
    let ghost mut changes: Seq<RefChange> = Seq::empty();
    let mut n: usize = 0;
    while n < asked
        invariant
            0 <= n <= asked,
            n == changes.len(),
            start == old(server)@,
            server@ == drained(start, changes),
        decreases asked - n,
    {
        let received = try_recv_change(&server.channel.receiver);
        match server.drain_step(received) {
            None => {
                proof {
                    let change = received->Change_0;
                    assert(changes.push(change).drop_last() == changes);
                    changes = changes.push(change);
                }
            },
            Some(Ok(_)) => {
                return Ok(n);
            },
            Some(Err(closed)) => {
                return Err(closed);
            },
        }
        n += 1;
    }
    Ok(n)
}

/// The free-mark phase: tags every object that was put down as pending and has
/// no strong handle now, if it is still alive, and clears the list of pending
/// objects. An object that has a strong handle again is passed over, and so
/// is one that is gone.
pub fn free_unused_entities(server: &mut RefEntityServer, world: &mut World)
    ensures
        final(server)@ == (Tracker { counts: old(server)@.counts, pending: Seq::empty() }),
        world_objects(*final(world)) == tag_all(world_objects(*old(world)), unused(old(server)@)),
{
    let ghost tracker = server@;
    let ghost before = world_objects(*world);
    assert(world_objects(*world) =~= tag_all(before, unused_among(tracker, 0)));
    let mut i: usize = 0;
    while i < server.mark_unused_assets.len()
        invariant
            0 <= i <= server.mark_unused_assets.len(),
            server@ == tracker,
            world_objects(*world) == tag_all(before, unused_among(tracker, i as int)),
        decreases server.mark_unused_assets.len() - i,
    {
        let id = server.mark_unused_assets[i];
        let ghost now = world_objects(*world);
        if server.ref_count(id) == 0 {
            tag_for_deletion(world, id);
        }
        proof {
            let more = if count_of(tracker.counts, id) == 0 {
                set![id]
            } else {
                Set::<u64>::empty()
            };
            assert(world_objects(*world) =~= tag_all(now, more));
            assert(unused_among(tracker, i + 1) =~= unused_among(tracker, i as int).union(more))
                by {
                assert forall|x: u64|
                    unused_among(tracker, i + 1).contains(x) == unused_among(
                        tracker,
                        i as int,
                    ).union(more).contains(x) by {
                    if unused_among(tracker, i + 1).contains(x) {
                        let j = choose|j: int|
                            0 <= j < i + 1 && j < tracker.pending.len() && tracker.pending[j] == x;
                        if j < i {
                            assert(unused_among(tracker, i as int).contains(x));
                        }
                    }
                    if unused_among(tracker, i as int).contains(x) {
                        let j = choose|j: int|
                            0 <= j < i && j < tracker.pending.len() && tracker.pending[j] == x;
                        assert(0 <= j < i + 1 && tracker.pending[j] == x);
                    }
                    if more.contains(x) {
                        assert(tracker.pending[i as int] == x);
                    }
                }
            }
            crate::registry::lemma_tag_all_twice(before, unused_among(tracker, i as int), more);
        }
        i += 1;
    }
    proof {
        assert(unused_among(tracker, tracker.pending.len() as int) =~= unused(tracker));
    }
    server.mark_unused_assets.clear();
}

/// The objects to be tagged among the first `n` pending ones.
spec fn unused_among(tracker: Tracker, n: int) -> Set<u64> {
    Set::new(
        |id: u64|
            count_of(tracker.counts, id) == 0 && exists|j: int|
                0 <= j < n && j < tracker.pending.len() && tracker.pending[j] == id,
    )
}

/// Whether a handle counts towards the life of its object.
#[derive(Debug)]
enum RefCompHandleType {
    Weak,
    Strong(Sender<RefChange>),
}

impl Default for RefCompHandleType {
    fn default() -> (kind: Self)
        ensures
            kind is Weak,
    {
        RefCompHandleType::Weak
    }
}

/// A reference to an object. A strong handle is one unit of the object's
/// count: an increment was sent when it was made, and a decrement is sent when
/// it is released. A weak handle sends nothing and keeps nothing alive.
#[derive(Debug)]
pub struct RefEntityHandle {
    entity: u64,
    handle_type: RefCompHandleType,
}

impl RefEntityHandle {
    /// The object that the handle refers to.
    pub closed spec fn spec_entity(&self) -> u64 {
        self.entity
    }

    /// Whether the handle is strong.
    pub closed spec fn spec_is_strong(&self) -> bool {
        self.handle_type is Strong
    }

    /// Whether the handle is weak.
    pub open spec fn spec_is_weak(&self) -> bool {
        !self.spec_is_strong()
    }

    /// What making a strong handle to `entity` sends: one increment for it.
    pub open spec fn spec_creation_message(entity: u64) -> RefChange {
        RefChange::Increment(entity)
    }

    /// What making the handle strong sends: an increment if it is weak,
    /// nothing if it is strong already.
    pub open spec fn spec_upgrade_message(&self) -> Option<RefChange> {
        if self.spec_is_strong() {
            None
        } else {
            Some(Self::spec_creation_message(self.spec_entity()))
        }
    }

    /// What releasing the handle sends: a decrement if it is strong, nothing
    /// if it is weak.
    pub open spec fn spec_release_message(&self) -> Option<RefChange> {
        if self.spec_is_strong() {
            Some(RefChange::Decrement(self.spec_entity()))
        } else {
            None
        }
    }

    /// What making a strong handle to `entity` sends: one increment for it.
    pub fn creation_message(entity: u64) -> (message: RefChange)
        ensures
            message == Self::spec_creation_message(entity),
    {
        RefChange::Increment(entity)
    }

    /// What making this handle strong sends: an increment if it is weak,
    /// nothing if it is strong already.
    pub fn upgrade_message(&self) -> (message: Option<RefChange>)
        ensures
            message == self.spec_upgrade_message(),
    {
        if self.is_strong() {
            None
        } else {
            Some(RefEntityHandle::creation_message(self.entity))
        }
    }

    /// What giving this handle up sends: a decrement if it is strong, nothing
    /// if it is weak.
    pub fn release_message(&self) -> (message: Option<RefChange>)
        ensures
            message == self.spec_release_message(),
        opens_invariants none
        no_unwind
    {
        match &self.handle_type {
            RefCompHandleType::Strong(_) => Some(RefChange::Decrement(self.entity)),
            RefCompHandleType::Weak => None,
        }
    }

    /// A strong handle to `entity` that sends through `ref_change_sender`.
    /// Sends what [`Self::creation_message`] gives, once, and fails where the
    /// channel is closed.
    fn strong(entity: u64, ref_change_sender: Sender<RefChange>) -> (handle: Result<
        Self,
        Disconnected,
    >)
        ensures
            handle matches Ok(h) ==> h.spec_entity() == entity && h.spec_is_strong(),
    {
        let message = RefEntityHandle::creation_message(entity);
        let sent = send_change(&ref_change_sender, message);
        RefEntityHandle::counted(entity, ref_change_sender, sent)
    }

    /// What making a strong handle comes to once its increment was handed to
    /// the channel: the handle where the increment was sent, and a failure
    /// where the channel was closed.
    fn counted(entity: u64, sender: Sender<RefChange>, sent: bool) -> (handle: Result<
        Self,
        Disconnected,
    >)
        ensures
            sent ==> (handle matches Ok(h) && h.spec_entity() == entity && h.spec_is_strong()),
            !sent ==> handle is Err,
    {
        if sent {
            Ok(RefEntityHandle { entity, handle_type: RefCompHandleType::Strong(sender) })
        } else {
            Err(Disconnected)
        }
    }

    /// What making a weak handle strong comes to once `message` was handed to
    /// the channel: where it was sent the handle is strong and the answer is
    /// that message; where the channel was closed the handle is as it was and
    /// the answer is a failure.
    fn upgraded(&mut self, sender: Sender<RefChange>, message: RefChange, sent: bool) -> (answer:
        Result<Option<RefChange>, Disconnected>)
        requires
            old(self).spec_is_weak(),
        ensures
            final(self).spec_entity() == old(self).spec_entity(),
            sent ==> {
                &&& answer == Ok::<Option<RefChange>, Disconnected>(Some(message))
                &&& final(self).spec_is_strong()
            },
            !sent ==> answer is Err && *final(self) == *old(self),
    {
        if sent {
            self.handle_type = RefCompHandleType::Strong(sender);
            Ok(Some(message))
        } else {
            Err(Disconnected)
        }
    }

    /// What giving a handle up comes to once `message` was handed to the
    /// channel: the message where it was sent, a failure where the channel
    /// was closed.
    fn released(message: RefChange, sent: bool) -> (answer: Result<
        Option<RefChange>,
        Disconnected,
    >)
        ensures
            sent ==> answer == Ok::<Option<RefChange>, Disconnected>(Some(message)),
            !sent ==> answer == Err::<Option<RefChange>, Disconnected>(Disconnected),
    {
        if sent {
            Ok(Some(message))
        } else {
            Err(Disconnected)
        }
    }

    /// A weak handle to `entity`. Nothing is sent.
    pub fn weak(entity: u64) -> (handle: Self)
        ensures
            handle.spec_entity() == entity,
            handle.spec_is_weak(),
    {
        RefEntityHandle { entity, handle_type: RefCompHandleType::Weak }
    }

    /// A weak handle to the same object. Nothing is sent, and this handle is
    /// as it was.
    pub fn as_weak(&self) -> (handle: RefEntityHandle)
        ensures
            handle.spec_entity() == self.spec_entity(),
            handle.spec_is_weak(),
    {
        RefEntityHandle { entity: self.entity, handle_type: RefCompHandleType::Weak }
    }

    /// The object that the handle refers to.
    pub fn entity(&self) -> (entity: u64)
        ensures
            entity == self.spec_entity(),
    {
        self.entity
    }

    /// Whether the handle is weak.
    pub fn is_weak(&self) -> (weak: bool)
        ensures
            weak == self.spec_is_weak(),
    {
        match self.handle_type {
            RefCompHandleType::Weak => true,
            RefCompHandleType::Strong(_) => false,
        }
    }

    /// Whether the handle is strong.
    pub fn is_strong(&self) -> (strong: bool)
        ensures
            strong == self.spec_is_strong(),
    {
        match self.handle_type {
            RefCompHandleType::Weak => false,
            RefCompHandleType::Strong(_) => true,
        }
    }

    /// Makes the handle strong if it is not. A weak handle sends one increment
    /// and is strong afterwards; where the channel is closed it stays weak and
    /// the call fails. A strong handle is left as it is and nothing is sent.
    /// The answer is what was sent.
    pub fn make_strong(&mut self, server: &RefEntityServer) -> (sent: Result<
        Option<RefChange>,
        Disconnected,
    >)
        ensures
            final(self).spec_entity() == old(self).spec_entity(),
            old(self).spec_is_strong() ==> sent == Ok::<Option<RefChange>, Disconnected>(None)
                && *final(self) == *old(self),
            old(self).spec_is_weak() ==> match sent {
                Ok(message) => {
                    &&& message == old(self).spec_upgrade_message()
                    &&& final(self).spec_is_strong()
                },
                Err(_) => *final(self) == *old(self),
            },
    {
        match self.upgrade_message() {
            None => Ok(None),
            Some(message) => {
                let sender = clone_sender(&server.channel.sender);
                let sent = send_change(&sender, message);
                self.upgraded(sender, message, sent)
            },
        }
    }

    /// A weak handle to the same object. Nothing is sent.
    pub fn clone_weak(&self) -> (handle: Self)
        ensures
            handle.spec_entity() == self.spec_entity(),
            handle.spec_is_weak(),
    {
        RefEntityHandle::weak(self.entity)
    }

    /// Another handle of the same kind to the same object. The copy of a
    /// strong handle sends one increment of its own, and making it fails where
    /// the channel is closed; the copy of a weak handle sends nothing.
    pub fn try_clone(&self) -> (handle: Result<Self, Disconnected>)
        ensures
            handle matches Ok(h) ==> h.spec_entity() == self.spec_entity() && h.spec_is_strong()
                == self.spec_is_strong(),
            self.spec_is_weak() ==> handle is Ok,
    {
        match &self.handle_type {
            RefCompHandleType::Strong(sender) => RefEntityHandle::strong(
                self.entity,
                clone_sender(sender),
            ),
            RefCompHandleType::Weak => Ok(RefEntityHandle::weak(self.entity)),
        }
    }

    /// Gives the handle up and says what came of it. A strong handle sends
    /// what [`Self::release_message`] gives, one decrement, and the answer is
    /// that message; where the channel is closed, because the server is gone,
    /// the answer is a failure. A weak handle sends nothing. Once this has
    /// returned the handle sends nothing more.
    pub fn try_release(self) -> (sent: Result<Option<RefChange>, Disconnected>)
        ensures
            self.spec_is_weak() ==> sent == Ok::<Option<RefChange>, Disconnected>(None),
            sent matches Ok(message) ==> message == self.spec_release_message(),
    {
        let message = self.release_message();
        let mut handle = self;
        let mut kind = RefCompHandleType::Weak;
        core::mem::swap(&mut handle.handle_type, &mut kind);
        match kind {
            RefCompHandleType::Strong(sender) => match message {
                Some(change) => {
                    let sent = send_change(&sender, change);
                    RefEntityHandle::released(change, sent)
                },
                None => Ok(None),
            },
            RefCompHandleType::Weak => Ok(None),
        }
    }

    /// Gives the handle up as letting it go out of use does: a strong handle
    /// sends one decrement, whether or not anybody is left to receive it, and
    /// a weak handle sends nothing. The answer is what was handed to the
    /// channel. Use [`Self::try_release`] to learn of a closed channel.
    pub fn release(self) -> (sent: Option<RefChange>)
        ensures
            sent == self.spec_release_message(),
    {
        let message = self.release_message();
        let _ = self.try_release();
        message
    }

    /// A handle that was made strong sends nothing when it is made strong
    /// again: no object is counted twice for one handle.
    pub proof fn lemma_upgrade_counts_once(before: RefEntityHandle, after: RefEntityHandle)
        requires
            before.spec_is_weak(),
            after.spec_is_strong(),
        ensures
            before.spec_upgrade_message() == Some(RefChange::Increment(before.spec_entity())),
            after.spec_upgrade_message() is None,
    {
    }

    /// Weak handles send nothing when they are given up, however many there
    /// are, so the counts stay as they are: no count changes and nothing is
    /// put down as pending.
    pub proof fn lemma_weak_handles_change_no_count(handles: Seq<RefEntityHandle>, tracker: Tracker)
        requires
            forall|i: int| 0 <= i < handles.len() ==> (#[trigger] handles[i]).spec_is_weak(),
        ensures
            release_messages(handles) == Seq::<RefChange>::empty(),
            drained(tracker, release_messages(handles)) == tracker,
        decreases handles.len(),
    {
        if handles.len() > 0 {
            Self::lemma_weak_handles_change_no_count(handles.drop_last(), tracker);
            assert(handles.last().spec_is_weak());
        }
    }
}

/// What giving up each of the handles sends, in the order of the handles.
pub open spec fn release_messages(handles: Seq<RefEntityHandle>) -> Seq<RefChange>
    decreases handles.len(),
{
    if handles.len() == 0 {
        Seq::empty()
    } else {
        match handles.last().spec_release_message() {
            Some(change) => release_messages(handles.drop_last()).push(change),
            None => release_messages(handles.drop_last()),
        }
    }
}

impl Drop for RefEntityHandle {
    /// A strong handle that goes out of use sends what
    /// [`RefEntityHandle::release_message`] gives, one decrement, whether or
    /// not anybody is left to receive it; a weak handle sends nothing. The
    /// handle itself is as it was.
    fn drop(&mut self)
        ensures
            final(self).spec_entity() == old(self).spec_entity(),
            final(self).spec_is_strong() == old(self).spec_is_strong(),
        opens_invariants none
        no_unwind
    {
        let message = self.release_message();
        match &self.handle_type {
            RefCompHandleType::Strong(sender) => match message {
                Some(change) => {
                    let _ = send_change(sender, change);
                },
                None => {},
            },
            RefCompHandleType::Weak => {},
        }
    }
}

impl Default for RefEntityHandle {
    /// A weak handle to the object with index `u32::MAX` and generation zero.
    fn default() -> (handle: Self)
        ensures
            handle.spec_entity() == 0xFFFF_FFFFu64,
            handle.spec_is_weak(),
    {
        RefEntityHandle::weak(0xFFFF_FFFFu64)
    }
}

} // verus!
