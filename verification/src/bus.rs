//! The event bus: one point of publication, any number of subscribers.
//!
//! The bus is described by a log of every event ever published and, for each
//! subscriber, a cursor into that log. A subscriber's delivery queue holds the
//! events from its cursor to the end of the log, and is bounded: a subscriber
//! whose queue is full when an event is published is disconnected, so that a
//! gap never appears in what a subscriber receives and publication never waits.

use crate::messages::{Event, LogMessage};
use std::collections::VecDeque;
use vstd::prelude::*;

verus! {

/// The place of one subscriber in the log of published events.
pub struct Cursor {
    /// The length of the log when the subscriber joined.
    pub joined: nat,
    /// The index in the log of the next event that the subscriber receives.
    pub next: nat,
}

/// The mathematical state of an event bus.
#[verifier::ext_equal]
pub struct BusState {
    /// The bound on each subscriber's delivery queue.
    pub capacity: nat,
    /// Every event published so far, in publish order.
    pub log: Seq<Event>,
    /// The subscribers that are connected, by handle.
    pub cursors: Map<u64, Cursor>,
    /// The number of handles given out so far, which is the next handle.
    pub issued: nat,
}

impl BusState {
    /// A bus on which nothing was published and to which nobody subscribed.
    pub open spec fn empty(capacity: nat) -> Self {
        BusState { capacity, log: Seq::empty(), cursors: Map::empty(), issued: 0 }
    }

    /// Every cursor lies inside the log, behind it by no more than the
    /// capacity, and belongs to a handle that was given out.
    pub open spec fn wf(self) -> bool {
        &&& self.issued <= u64::MAX
        &&& forall|id: u64| #[trigger]
            self.cursors.contains_key(id) ==> {
                &&& id < self.issued
                &&& self.cursors[id].joined <= self.cursors[id].next <= self.log.len()
                &&& self.log.len() - self.cursors[id].next <= self.capacity
            }
    }

    pub open spec fn subscribed(self, id: u64) -> bool {
        self.cursors.contains_key(id)
    }

    /// The events in the delivery queue of `id`: published, not yet received.
    pub open spec fn pending(self, id: u64) -> Seq<Event> {
        self.log.subrange(self.cursors[id].next as int, self.log.len() as int)
    }

    /// The events that `id` has received so far.
    pub open spec fn delivered(self, id: u64) -> Seq<Event> {
        self.log.subrange(self.cursors[id].joined as int, self.cursors[id].next as int)
    }

    /// The events that `id` has received or will receive from its queue.
    pub open spec fn observed(self, id: u64) -> Seq<Event> {
        self.log.subrange(self.cursors[id].joined as int, self.log.len() as int)
    }

    /// Whether the queue of `id` has room for one more event.
    pub open spec fn keeps_up(self, id: u64) -> bool {
        self.subscribed(id) && self.pending(id).len() < self.capacity
    }

    /// The subscribers whose queue has room for one more event.
    pub open spec fn keeping_up(self) -> Map<u64, Cursor> {
        Map::new(|id: u64| self.keeps_up(id), |id: u64| self.cursors[id])
    }

    /// The bus after `event` is published: the log grows by the event, and the
    /// subscribers whose queue was full are disconnected.
    pub open spec fn publish(self, event: Event) -> Self {
        BusState { log: self.log.push(event), cursors: self.keeping_up(), ..self }
    }

    /// The bus after `events` are published one after the other.
    pub open spec fn publish_all(self, events: Seq<Event>) -> Self
        decreases events.len(),
    {
        if events.len() == 0 {
            self
        } else {
            self.publish_all(events.drop_last()).publish(events.last())
        }
    }

    /// The bus after a subscriber joined under the next handle, with an empty
    /// queue at the end of the log.
    pub open spec fn subscribe(self) -> Self {
        BusState {
            cursors: self.cursors.insert(
                self.issued as u64,
                Cursor { joined: self.log.len(), next: self.log.len() },
            ),
            issued: self.issued + 1,
            ..self
        }
    }

    /// The bus after `id` left it.
    pub open spec fn unsubscribe(self, id: u64) -> Self {
        BusState { cursors: self.cursors.remove(id), ..self }
    }

    /// The bus after `id` took the first event of its queue.
    pub open spec fn receive(self, id: u64) -> Self {
        BusState {
            cursors: self.cursors.insert(
                id,
                Cursor { joined: self.cursors[id].joined, next: self.cursors[id].next + 1 },
            ),
            ..self
        }
    }
}

/// Why a subscriber got no message.
#[derive(Debug, Clone, Copy, PartialEq, Eq)]
pub enum TryRecvError {
    /// The subscriber is connected and its queue is empty.
    Empty,
    /// The handle belongs to no connected subscriber.
    Closed,
}

/// One registered delivery queue.
struct Subscriber {
    id: u64,
    queue: VecDeque<LogMessage>,
    cursor: Ghost<Cursor>,
}

/// The event bus.
pub struct EventBus {
    capacity: usize,
    next_id: u64,
    subscribers: Vec<Subscriber>,
    log: Ghost<Seq<Event>>,
}

spec fn has_id(subs: Seq<Subscriber>, id: u64) -> bool {
    exists|i: int| 0 <= i < subs.len() && (#[trigger] subs[i]).id == id
}

spec fn index_of(subs: Seq<Subscriber>, id: u64) -> int {
    choose|i: int| 0 <= i < subs.len() && (#[trigger] subs[i]).id == id
}

spec fn ascending(subs: Seq<Subscriber>) -> bool {
    forall|i: int, j: int|
        0 <= i < j < subs.len() ==> (#[trigger] subs[i]).id < (#[trigger] subs[j]).id
}

spec fn cursors_of(subs: Seq<Subscriber>) -> Map<u64, Cursor> {
    Map::new(|id: u64| has_id(subs, id), |id: u64| subs[index_of(subs, id)].cursor@)
}

/// The queue of `sub` holds the log from the subscriber's cursor on, and no
/// more than `capacity` events.
spec fn queue_matches(sub: Subscriber, log: Seq<Event>, capacity: usize) -> bool {
    &&& sub.cursor@.joined <= sub.cursor@.next <= log.len()
    &&& sub.queue@.len() == log.len() - sub.cursor@.next
    &&& sub.queue@.len() <= capacity
    &&& forall|k: int|
        0 <= k < sub.queue@.len() ==> (#[trigger] sub.queue@[k])@ == log[sub.cursor@.next + k]
}

proof fn lemma_index_of(subs: Seq<Subscriber>, i: int)
    requires
        ascending(subs),
        0 <= i < subs.len(),
    ensures
        has_id(subs, subs[i].id),
        index_of(subs, subs[i].id) == i,
{
    let id = subs[i].id;
    let j = index_of(subs, id);
    assert(subs[i].id == id);
    if j < i {
        assert(subs[j].id < subs[i].id);
    } else if i < j {
        assert(subs[i].id < subs[j].id);
    }
}

impl View for EventBus {
    type V = BusState;

    closed spec fn view(&self) -> BusState {
        BusState {
            capacity: self.capacity as nat,
            log: self.log@,
            cursors: cursors_of(self.subscribers@),
            issued: self.next_id as nat,
        }
    }
}

impl EventBus {
    /// The invariant of the bus: the subscribers stand in the order in which
    /// they joined, and each queue holds what its cursor says.
    pub closed spec fn wf(&self) -> bool {
        &&& ascending(self.subscribers@)
        &&& forall|i: int|
            0 <= i < self.subscribers@.len() ==> {
                &&& (#[trigger] self.subscribers@[i]).id < self.next_id
                &&& queue_matches(self.subscribers@[i], self.log@, self.capacity)
            }
    }

    /// A well-formed bus has a well-formed state.
    pub proof fn lemma_wf_state(&self)
        requires
            self.wf(),
        ensures
            self@.wf(),
    {
        let subs = self.subscribers@;
        assert forall|id: u64| #[trigger] self@.cursors.contains_key(id) implies {
            &&& id < self@.issued
            &&& self@.cursors[id].joined <= self@.cursors[id].next <= self@.log.len()
            &&& self@.log.len() - self@.cursors[id].next <= self@.capacity
        } by {
            let i = index_of(subs, id);
            assert(subs[i].id == id);
            assert(queue_matches(subs[i], self.log@, self.capacity));
        }
    }

    /// A bus with no subscriber and an empty log, whose queues will hold up to
    /// `capacity` messages each.
    pub fn new(capacity: usize) -> (bus: Self)
        ensures
            bus.wf(),
            bus@ == BusState::empty(capacity as nat),
    {
        let bus = EventBus {
            capacity,
            next_id: 0,
            subscribers: Vec::new(),
            log: Ghost(Seq::empty()),
        };
        assert(bus@.cursors =~= Map::empty());
        bus
    }

    /// The bound on each subscriber's queue.
    pub fn capacity(&self) -> (capacity: usize)
        ensures
            capacity == self@.capacity,
    {
        self.capacity
    }

    /// The position of the subscriber `id` among the subscribers.
    fn find(&self, id: u64) -> (found: Option<usize>)
        requires
            self.wf(),
        ensures
            match found {
                Some(i) => i < self.subscribers@.len() && self.subscribers@[i as int].id == id
                    && has_id(self.subscribers@, id) && index_of(self.subscribers@, id) == i,
                None => !has_id(self.subscribers@, id),
            },
    {
        let mut i: usize = 0;
        while i < self.subscribers.len()
            invariant
                i <= self.subscribers@.len(),
                ascending(self.subscribers@),
                forall|j: int| 0 <= j < i ==> (#[trigger] self.subscribers@[j]).id != id,
            decreases self.subscribers@.len() - i,
        {
            if self.subscribers[i].id == id {
                proof {
                    lemma_index_of(self.subscribers@, i as int);
                }
                return Some(i);
            }
            i += 1;
        }
        None
    }

    /// Whether `id` is the handle of a connected subscriber.
    pub fn is_subscribed(&self, id: u64) -> (subscribed: bool)
        requires
            self.wf(),
        ensures
            subscribed == self@.subscribed(id),
    {
        self.find(id).is_some()
    }

    /// The number of messages waiting in the queue of `id`, if it is connected.
    pub fn pending_count(&self, id: u64) -> (count: Option<usize>)
        requires
            self.wf(),
        ensures
            match count {
                Some(n) => self@.subscribed(id) && n == self@.pending(id).len(),
                None => !self@.subscribed(id),
            },
    {
        match self.find(id) {
            Some(i) => {
                assert(queue_matches(self.subscribers@[i as int], self.log@, self.capacity));
                Some(self.subscribers[i].queue.len())
            },
            None => None,
        }
    }

    /// Registers a new delivery queue and returns its handle. The subscriber
    /// receives the events published after this call, and none from before.
    /// Handles are given out in ascending order and never twice; `None` is
    /// returned, and nothing changes, once all of them are used up.
    pub fn subscribe(&mut self) -> (handle: Option<u64>)
        requires
            old(self).wf(),
        ensures
            final(self).wf(),
            match handle {
                Some(id) => {
                    &&& old(self)@.issued < u64::MAX
                    &&& id == old(self)@.issued
                    &&& final(self)@ == old(self)@.subscribe()
                },
                None => old(self)@.issued == u64::MAX && final(self)@ == old(self)@,
            },
    {
        if self.next_id == u64::MAX {
            return None;
        }
        let id = self.next_id;
        let ghost before = self.subscribers@;
        let ghost cursor = Cursor { joined: self.log@.len(), next: self.log@.len() };
        self.subscribers.push(Subscriber { id, queue: VecDeque::new(), cursor: Ghost(cursor) });
        self.next_id = id + 1;
        proof {
            let after = self.subscribers@;
            assert(after.len() == before.len() + 1);
            assert(after[before.len() as int].id == id);
            assert forall|i: int| 0 <= i < before.len() implies after[i] == before[i] by {}
            assert(ascending(after)) by {
                assert forall|i: int, j: int| 0 <= i < j < after.len() implies (#[trigger] after[i]).id
                    < (#[trigger] after[j]).id by {
                    if j < before.len() {
                        assert(before[i].id < before[j].id);
                    } else {
                        assert(before[i].id < id);
                    }
                }
            }
            assert forall|i: int| 0 <= i < after.len() implies {
                &&& (#[trigger] after[i]).id < self.next_id
                &&& queue_matches(after[i], self.log@, self.capacity)
            } by {
                if i < before.len() {
                    assert(before[i].id < id);
                    assert(queue_matches(before[i], self.log@, self.capacity));
                }
            }
            assert forall|k: u64| #[trigger]
                self@.cursors.contains_key(k) <==> old(self)@.subscribe().cursors.contains_key(
                    k,
                ) by {
                if has_id(after, k) {
                    let i = index_of(after, k);
                    if i < before.len() {
                        assert(before[i].id == k);
                    }
                }
                if has_id(before, k) {
                    let i = index_of(before, k);
                    assert(after[i].id == k);
                }
            }
            assert forall|k: u64| #[trigger] self@.cursors.contains_key(k) implies self@.cursors[k]
                == old(self)@.subscribe().cursors[k] by {
                let i = index_of(after, k);
                lemma_index_of(after, i);
                if i < before.len() {
                    lemma_index_of(before, i);
                }
            }
            assert(self@.cursors =~= old(self)@.subscribe().cursors);
        }
        Some(id)
    }

    /// Removes the subscriber `id` and releases its queue. A handle that
    /// belongs to no connected subscriber changes nothing.
    pub fn unsubscribe(&mut self, id: u64)
        requires
            old(self).wf(),
        ensures
            final(self).wf(),
            final(self)@ == old(self)@.unsubscribe(id),
    {
        match self.find(id) {
            Some(i) => {
                let ghost before = self.subscribers@;
                self.subscribers.remove(i);
                proof {
                    let after = self.subscribers@;
                    lemma_removed(before, i as int);
                    assert forall|j: int| 0 <= j < after.len() implies {
                        &&& (#[trigger] after[j]).id < self.next_id
                        &&& queue_matches(after[j], self.log@, self.capacity)
                    } by {
                        let m = if j < i { j } else { j + 1 };
                        assert(after[j] == before[m]);
                        assert(before[m].id < self.next_id);
                    }
                    assert(self@.cursors =~= old(self)@.unsubscribe(id).cursors);
                }
            },
            None => {
                assert(self@.cursors =~= old(self)@.unsubscribe(id).cursors);
            },
        }
    }

    /// Disconnects every subscriber whose queue is full.
    fn disconnect_full(&mut self)
        requires
            old(self).wf(),
        ensures
            final(self).wf(),
            final(self).capacity == old(self).capacity,
            final(self).next_id == old(self).next_id,
            final(self).log@ == old(self).log@,
            final(self)@.cursors =~= old(self)@.keeping_up(),
            forall|i: int|
                0 <= i < final(self).subscribers@.len() ==> (
                #[trigger] final(self).subscribers@[i]).queue@.len() < final(self).capacity,
    {
        let ghost before = self.subscribers@;
        let mut i: usize = 0;
        while i < self.subscribers.len()
            invariant
                self.wf(),
                ascending(before),
                self.capacity == old(self).capacity,
                self.next_id == old(self).next_id,
                self.log@ == old(self).log@,
                i <= self.subscribers@.len(),
                forall|j: int|
                    0 <= j < i ==> (#[trigger] self.subscribers@[j]).queue@.len() < self.capacity,
                forall|j: int|
                    0 <= j < self.subscribers@.len() ==> has_id(
                        before,
                        (#[trigger] self.subscribers@[j]).id,
                    ) && before[index_of(before, self.subscribers@[j].id)] == self.subscribers@[j],
                forall|m: int|
                    0 <= m < before.len() && (#[trigger] before[m]).queue@.len() < self.capacity
                        ==> has_id(self.subscribers@, before[m].id),
            decreases self.subscribers@.len() - i,
        {
            if self.subscribers[i].queue.len() < self.capacity {
                i += 1;
            } else {
                let ghost current = self.subscribers@;
                self.subscribers.remove(i);
                proof {
                    let after = self.subscribers@;
                    lemma_removed(current, i as int);
                    assert forall|j: int| 0 <= j < after.len() implies {
                        &&& (#[trigger] after[j]).id < self.next_id
                        &&& queue_matches(after[j], self.log@, self.capacity)
                        &&& has_id(before, after[j].id)
                        &&& before[index_of(before, after[j].id)] == after[j]
                    } by {
                        let m = if j < i { j } else { j + 1 };
                        assert(after[j] == current[m]);
                        assert(current[m].id < self.next_id);
                    }
                    assert forall|j: int| 0 <= j < i implies (#[trigger] after[j]).queue@.len()
                        < self.capacity by {
                        assert(after[j] == current[j]);
                    }
                    assert forall|m: int|
                        0 <= m < before.len() && (#[trigger] before[m]).queue@.len()
                            < self.capacity implies has_id(after, before[m].id) by {
                        let c = index_of(current, before[m].id);
                        assert(current[c].id == before[m].id);
                        lemma_index_of(before, m);
                        assert(current[c] == before[m]);
                        assert(c != i);
                        let a = if c < i { c } else { c - 1 };
                        assert(after[a] == current[c]);
                    }
                }
            }
        }
        proof {
            let after = self.subscribers@;
            let target = old(self)@.keeping_up();
            assert forall|k: u64| #[trigger] self@.cursors.contains_key(k) <==> target.contains_key(
                k,
            ) by {
                if has_id(after, k) {
                    let j = index_of(after, k);
                    assert(after[j].id == k);
                    let m = index_of(before, k);
                    assert(before[m] == after[j]);
                    assert(queue_matches(before[m], self.log@, self.capacity));
                }
                if old(self)@.keeps_up(k) {
                    let m = index_of(before, k);
                    assert(before[m].id == k);
                    assert(queue_matches(before[m], self.log@, self.capacity));
                }
            }
            assert forall|k: u64| #[trigger] self@.cursors.contains_key(k) implies self@.cursors[k]
                == target[k] by {
                let j = index_of(after, k);
                assert(after[j].id == k);
            }
        }
    }

    /// Puts a copy of `message` at the end of every queue.
    fn enqueue(&mut self, message: &LogMessage)
        requires
            forall|i: int|
                0 <= i < old(self).subscribers@.len() ==> (
                #[trigger] old(self).subscribers@[i]).queue@.len() < old(self).capacity,
        ensures
            final(self).capacity == old(self).capacity,
            final(self).next_id == old(self).next_id,
            final(self).log@ == old(self).log@,
            final(self).subscribers@.len() == old(self).subscribers@.len(),
            forall|i: int|
                0 <= i < final(self).subscribers@.len() ==> {
                    &&& (#[trigger] final(self).subscribers@[i]).id == old(self).subscribers@[i].id
                    &&& final(self).subscribers@[i].cursor == old(self).subscribers@[i].cursor
                    &&& final(self).subscribers@[i].queue@ == old(self).subscribers@[i].queue@.push(
                        *message,
                    )
                },
    {
        let ghost before = self.subscribers@;
        let mut i: usize = 0;
        while i < self.subscribers.len()
            invariant
                self.capacity == old(self).capacity,
                self.next_id == old(self).next_id,
                self.log@ == old(self).log@,
                self.subscribers@.len() == before.len(),
                i <= before.len(),
                forall|j: int|
                    0 <= j < i ==> {
                        &&& (#[trigger] self.subscribers@[j]).id == before[j].id
                        &&& self.subscribers@[j].cursor == before[j].cursor
                        &&& self.subscribers@[j].queue@ == before[j].queue@.push(*message)
                    },
                forall|j: int| i <= j < before.len() ==> #[trigger] self.subscribers@[j] == before[j],
            decreases before.len() - i,
        {
            let copy = message.clone();
            self.subscribers[i].queue.push_back(copy);
            i += 1;
        }
    }

    /// Appends `message` to the log and hands a copy to the queue of every
    /// subscriber. A subscriber whose queue is full is disconnected instead:
    /// its queue is released and its handle is closed. Publishing never waits
    /// and never fails, with or without subscribers.
    pub fn publish(&mut self, message: LogMessage)
        requires
            old(self).wf(),
        ensures
            final(self).wf(),
            final(self)@ == old(self)@.publish(message@),
    {
        self.disconnect_full();
        let ghost kept = self.subscribers@;
        let ghost log = self.log@;
        self.enqueue(&message);
        self.log = Ghost(log.push(message@));
        proof {
            let after = self.subscribers@;
            lemma_same_cursors(kept, after);
            assert forall|i: int| 0 <= i < after.len() implies {
                &&& (#[trigger] after[i]).id < self.next_id
                &&& queue_matches(after[i], self.log@, self.capacity)
            } by {
                assert(kept[i].id < self.next_id);
                assert(queue_matches(kept[i], log, self.capacity));
                assert forall|k: int| 0 <= k < after[i].queue@.len() implies (
                #[trigger] after[i].queue@[k])@ == self.log@[after[i].cursor@.next + k] by {
                    if k < kept[i].queue@.len() {
                        assert(after[i].queue@[k] == kept[i].queue@[k]);
                    }
                }
            }
            assert(self@.cursors =~= old(self)@.publish(message@).cursors);
        }
    }

    /// Takes the next message out of the queue of `id`. A connected subscriber
    /// gets its messages in publish order, each once; `Empty` says that all
    /// that was published since it joined has been taken, and `Closed` that
    /// the handle is not, or no longer, connected.
    pub fn try_recv(&mut self, id: u64) -> (result: Result<LogMessage, TryRecvError>)
        requires
            old(self).wf(),
        ensures
            final(self).wf(),
            match result {
                Ok(message) => {
                    &&& old(self)@.subscribed(id)
                    &&& old(self)@.pending(id).len() > 0
                    &&& message@ == old(self)@.pending(id)[0]
                    &&& final(self)@ == old(self)@.receive(id)
                },
                Err(TryRecvError::Empty) => {
                    &&& old(self)@.subscribed(id)
                    &&& old(self)@.pending(id).len() == 0
                    &&& final(self)@ == old(self)@
                },
                Err(TryRecvError::Closed) => {
                    &&& !old(self)@.subscribed(id)
                    &&& final(self)@ == old(self)@
                },
            },
    {
        let i = match self.find(id) {
            Some(i) => i,
            None => {
                return Err(TryRecvError::Closed);
            },
        };
        let ghost before = self.subscribers@;
        assert(queue_matches(before[i as int], self.log@, self.capacity));
        match self.subscribers[i].queue.pop_front() {
            Some(message) => {
                let ghost cursor = Cursor {
                    joined: before[i as int].cursor@.joined,
                    next: before[i as int].cursor@.next + 1,
                };
                self.subscribers[i].cursor = Ghost(cursor);
                proof {
                    let after = self.subscribers@;
                    assert(message == before[i as int].queue@[0]);
                    assert forall|a: int, b: int| 0 <= a < b < after.len() implies (
                    #[trigger] after[a]).id < (#[trigger] after[b]).id by {
                        assert(before[a].id < before[b].id);
                    }
                    assert forall|j: int| 0 <= j < after.len() implies {
                        &&& (#[trigger] after[j]).id < self.next_id
                        &&& queue_matches(after[j], self.log@, self.capacity)
                    } by {
                        assert(before[j].id < self.next_id);
                        assert(queue_matches(before[j], self.log@, self.capacity));
                        if j == i {
                            assert forall|k: int| 0 <= k < after[j].queue@.len() implies (
                            #[trigger] after[j].queue@[k])@ == self.log@[after[j].cursor@.next
                                + k] by {
                                assert(after[j].queue@[k] == before[j].queue@[k + 1]);
                            }
                        }
                    }
                    let target = old(self)@.receive(id).cursors;
                    assert forall|k: u64| #[trigger] self@.cursors.contains_key(k)
                        <==> target.contains_key(k) by {
                        if has_id(after, k) {
                            let j = index_of(after, k);
                            assert(before[j].id == k);
                        }
                        if has_id(before, k) {
                            let j = index_of(before, k);
                            assert(after[j].id == k);
                        }
                    }
                    assert forall|k: u64| #[trigger] self@.cursors.contains_key(k) implies self@.cursors[k]
                        == target[k] by {
                        let j = index_of(after, k);
                        lemma_index_of(after, j);
                        lemma_index_of(before, j);
                    }
                    assert(self@.cursors =~= target);
                }
                Ok(message)
            },
            None => {
                proof {
                    let after = self.subscribers@;
                    lemma_same_cursors(before, after);
                    assert forall|j: int| 0 <= j < after.len() implies {
                        &&& (#[trigger] after[j]).id < self.next_id
                        &&& queue_matches(after[j], self.log@, self.capacity)
                    } by {
                        assert(before[j].id < self.next_id);
                        assert(queue_matches(before[j], self.log@, self.capacity));
                    }
                }
                Err(TryRecvError::Empty)
            },
        }
    }
}

/// Two lists that agree on handles and cursors, place by place, stand for
/// the same subscribers.
proof fn lemma_same_cursors(a: Seq<Subscriber>, b: Seq<Subscriber>)
    requires
        ascending(a),
        a.len() == b.len(),
        forall|i: int|
            0 <= i < a.len() ==> (#[trigger] a[i]).id == b[i].id && a[i].cursor == b[i].cursor,
    ensures
        ascending(b),
        cursors_of(a) =~= cursors_of(b),
{
    assert forall|i: int, j: int| 0 <= i < j < b.len() implies (#[trigger] b[i]).id < (
    #[trigger] b[j]).id by {
        assert(a[i].id < a[j].id);
    }
    assert forall|k: u64| has_id(a, k) <==> has_id(b, k) by {
        if has_id(a, k) {
            let i = index_of(a, k);
            assert(b[i].id == k);
        }
        if has_id(b, k) {
            let i = index_of(b, k);
            assert(a[i].id == k);
        }
    }
    assert forall|k: u64| has_id(a, k) implies cursors_of(a)[k] == cursors_of(b)[k] by {
        let i = index_of(a, k);
        lemma_index_of(a, i);
        lemma_index_of(b, i);
    }
}

/// Taking the subscriber at `i` out of an ascending list leaves an ascending
/// list with the same cursors but that of the subscriber taken out.
proof fn lemma_removed(before: Seq<Subscriber>, i: int)
    requires
        ascending(before),
        0 <= i < before.len(),
    ensures
        ascending(before.remove(i)),
        cursors_of(before.remove(i)) =~= cursors_of(before).remove(before[i].id),
        forall|j: int|
            0 <= j < before.remove(i).len() ==> #[trigger] before.remove(i)[j] == before[if j
                < i {
                j
            } else {
                j + 1
            }],
{
    let after = before.remove(i);
    let id = before[i].id;
    assert forall|j: int| 0 <= j < after.len() implies #[trigger] after[j] == before[if j < i {
        j
    } else {
        j + 1
    }] by {}
    assert forall|a: int, b: int| 0 <= a < b < after.len() implies (#[trigger] after[a]).id < (
    #[trigger] after[b]).id by {
        let ma = if a < i { a } else { a + 1 };
        let mb = if b < i { b } else { b + 1 };
        assert(after[a] == before[ma]);
        assert(after[b] == before[mb]);
        assert(before[ma].id < before[mb].id);
    }
    assert forall|k: u64| #[trigger]
        cursors_of(after).contains_key(k) <==> cursors_of(before).remove(id).contains_key(k) by {
        if has_id(after, k) {
            let j = index_of(after, k);
            let m = if j < i { j } else { j + 1 };
            assert(after[j] == before[m]);
            assert(before[m].id == k);
            if m < i {
                assert(before[m].id < before[i].id);
            } else {
                assert(before[i].id < before[m].id);
            }
        }
        if has_id(before, k) && k != id {
            let m = index_of(before, k);
            let j = if m < i { m } else { m - 1 };
            assert(after[j] == before[m]);
            assert(after[j].id == k);
        }
    }
    assert forall|k: u64| #[trigger] cursors_of(after).contains_key(k) implies cursors_of(after)[k]
        == cursors_of(before).remove(id)[k] by {
        let j = index_of(after, k);
        let m = if j < i { j } else { j + 1 };
        assert(after[j] == before[m]);
        lemma_index_of(after, j);
        lemma_index_of(before, m);
    }
}

} // verus!
