//! What holds of the event feed, whatever the calls that led to a state.
//!
//! The laws speak of the mathematical state of the bus. The functions of
//! `EventBus`, `WatchSession` and `UuidService` are specified by the same
//! transitions, so each law holds of every run of the executable code.

use crate::bus::BusState;
use crate::messages::Event;
use vstd::prelude::*;

verus! {

/// One completed issuance: the request and the identifier it was answered
/// with.
pub struct Issuance {
    pub prefix: Seq<char>,
    pub entity: Seq<char>,
    pub uuid: Seq<char>,
}

impl Issuance {
    /// The event that the arrival of the request is.
    pub open spec fn request(self) -> Event {
        Event::Request { prefix: self.prefix, entity: self.entity }
    }

    /// The event that the production of the response is.
    pub open spec fn response(self) -> Event {
        Event::Response { uuid: self.uuid }
    }
}

/// The events of a series of issuances: for each, in order, its request and
/// then its response.
pub open spec fn feed(issuances: Seq<Issuance>) -> Seq<Event>
    decreases issuances.len(),
{
    if issuances.len() == 0 {
        Seq::empty()
    } else {
        feed(issuances.drop_last()).push(issuances.last().request()).push(
            issuances.last().response(),
        )
    }
}

/// The bus after each of the issuances was published as the service
/// publishes it: the request, then the response.
pub open spec fn issue_all(bus: BusState, issuances: Seq<Issuance>) -> BusState
    decreases issuances.len(),
{
    if issuances.len() == 0 {
        bus
    } else {
        issue_all(bus, issuances.drop_last()).publish(issuances.last().request()).publish(
            issuances.last().response(),
        )
    }
}

/// Publishing keeps a bus well formed.
pub proof fn lemma_publish_wf(bus: BusState, event: Event)
    requires
        bus.wf(),
    ensures
        bus.publish(event).wf(),
{
    let after = bus.publish(event);
    assert forall|id: u64| #[trigger] after.cursors.contains_key(id) implies {
        &&& id < after.issued
        &&& after.cursors[id].joined <= after.cursors[id].next <= after.log.len()
        &&& after.log.len() - after.cursors[id].next <= after.capacity
    } by {
        assert(bus.cursors.contains_key(id));
        assert(bus.pending(id).len() < bus.capacity);
    }
}

/// Subscribing keeps a bus well formed, as long as a handle is left.
pub proof fn lemma_subscribe_wf(bus: BusState)
    requires
        bus.wf(),
        bus.issued < u64::MAX,
    ensures
        bus.subscribe().wf(),
        bus.subscribe().subscribed(bus.issued as u64),
        !bus.subscribed(bus.issued as u64),
        bus.subscribe().observed(bus.issued as u64) == Seq::<Event>::empty(),
{
    let after = bus.subscribe();
    let fresh = bus.issued as u64;
    assert forall|id: u64| #[trigger] after.cursors.contains_key(id) implies {
        &&& id < after.issued
        &&& after.cursors[id].joined <= after.cursors[id].next <= after.log.len()
        &&& after.log.len() - after.cursors[id].next <= after.capacity
    } by {
        if id != fresh {
            assert(bus.cursors.contains_key(id));
        }
    }
    if bus.cursors.contains_key(fresh) {
        assert(fresh < bus.issued);
    }
    assert(after.observed(fresh) =~= Seq::<Event>::empty());
}

/// Unsubscribing keeps a bus well formed and is idempotent: a handle that is
/// not connected changes nothing.
pub proof fn lemma_unsubscribe(bus: BusState, id: u64)
    requires
        bus.wf(),
    ensures
        bus.unsubscribe(id).wf(),
        !bus.unsubscribe(id).subscribed(id),
        bus.unsubscribe(id).unsubscribe(id) == bus.unsubscribe(id),
        !bus.subscribed(id) ==> bus.unsubscribe(id) == bus,
        forall|other: u64|
            other != id ==> bus.unsubscribe(id).subscribed(other) == bus.subscribed(other)
                && bus.unsubscribe(id).cursors[other] == bus.cursors[other],
{
    let after = bus.unsubscribe(id);
    assert forall|k: u64| #[trigger] after.cursors.contains_key(k) implies {
        &&& k < after.issued
        &&& after.cursors[k].joined <= after.cursors[k].next <= after.log.len()
        &&& after.log.len() - after.cursors[k].next <= after.capacity
    } by {
        assert(bus.cursors.contains_key(k));
    }
    assert(after.unsubscribe(id).cursors =~= after.cursors);
    if !bus.subscribed(id) {
        assert(after.cursors =~= bus.cursors);
    }
}

/// Taking a message moves the head of the queue to what was delivered and
/// leaves every other subscriber, the log and what the subscriber observes
/// as they were. The message taken was published after the subscriber joined.
pub proof fn lemma_receive(bus: BusState, id: u64)
    requires
        bus.wf(),
        bus.subscribed(id),
        bus.pending(id).len() > 0,
    ensures
        bus.receive(id).wf(),
        bus.receive(id).subscribed(id),
        bus.receive(id).log == bus.log,
        bus.pending(id)[0] == bus.log[bus.cursors[id].next as int],
        bus.cursors[id].joined <= bus.cursors[id].next,
        bus.receive(id).delivered(id) == bus.delivered(id).push(bus.pending(id)[0]),
        bus.receive(id).pending(id) == bus.pending(id).drop_first(),
        bus.receive(id).observed(id) == bus.observed(id),
        forall|other: u64|
            other != id ==> bus.receive(id).subscribed(other) == bus.subscribed(other)
                && bus.receive(id).cursors[other] == bus.cursors[other],
{
    let after = bus.receive(id);
    assert forall|k: u64| #[trigger] after.cursors.contains_key(k) implies {
        &&& k < after.issued
        &&& after.cursors[k].joined <= after.cursors[k].next <= after.log.len()
        &&& after.log.len() - after.cursors[k].next <= after.capacity
    } by {
        assert(bus.cursors.contains_key(k));
    }
    assert(after.delivered(id) =~= bus.delivered(id).push(bus.pending(id)[0]));
    assert(after.pending(id) =~= bus.pending(id).drop_first());
}

/// A subscriber whose queue has room for `events` stays connected while they
/// are published, and its queue grows by exactly these events, in publish
/// order: none is dropped, none comes twice, none is reordered.
pub proof fn lemma_publish_all(bus: BusState, id: u64, events: Seq<Event>)
    requires
        bus.wf(),
        bus.subscribed(id),
        bus.pending(id).len() + events.len() <= bus.capacity,
    ensures
        bus.publish_all(events).wf(),
        bus.publish_all(events).capacity == bus.capacity,
        bus.publish_all(events).log == bus.log + events,
        bus.publish_all(events).subscribed(id),
        bus.publish_all(events).cursors[id] == bus.cursors[id],
        bus.publish_all(events).pending(id) == bus.pending(id) + events,
        bus.publish_all(events).observed(id) == bus.observed(id) + events,
    decreases events.len(),
{
    let after = bus.publish_all(events);
    if events.len() == 0 {
        assert(after.log =~= bus.log + events);
        assert(after.pending(id) =~= bus.pending(id) + events);
        assert(after.observed(id) =~= bus.observed(id) + events);
    } else {
        let before = bus.publish_all(events.drop_last());
        lemma_publish_all(bus, id, events.drop_last());
        lemma_publish_wf(before, events.last());
        assert(before.keeps_up(id));
        assert(after.log =~= bus.log + events);
        assert(after.pending(id) =~= bus.pending(id) + events);
        assert(after.observed(id) =~= bus.observed(id) + events);
    }
}

/// Publishing a series of events appends them to the log, whoever is
/// subscribed: publication never depends on a subscriber.
pub proof fn lemma_publish_all_log(bus: BusState, events: Seq<Event>)
    requires
        bus.wf(),
    ensures
        bus.publish_all(events).wf(),
        bus.publish_all(events).log == bus.log + events,
        bus.publish_all(events).issued == bus.issued,
        bus.publish_all(events).capacity == bus.capacity,
    decreases events.len(),
{
    if events.len() == 0 {
        assert(bus.log =~= bus.log + events);
    } else {
        lemma_publish_all_log(bus, events.drop_last());
        lemma_publish_wf(bus.publish_all(events.drop_last()), events.last());
        assert(bus.publish_all(events).log =~= bus.log + events);
    }
}

/// The feed of a series of issuances holds two events for each, and the
/// request of an issuance stands directly before its response.
pub proof fn lemma_feed_pairs(issuances: Seq<Issuance>)
    ensures
        feed(issuances).len() == 2 * issuances.len(),
        forall|k: int|
            0 <= k < issuances.len() ==> {
                &&& feed(issuances)[2 * k] == (#[trigger] issuances[k]).request()
                &&& feed(issuances)[2 * k + 1] == issuances[k].response()
            },
    decreases issuances.len(),
{
    if issuances.len() > 0 {
        let earlier = issuances.drop_last();
        lemma_feed_pairs(earlier);
        assert forall|k: int| 0 <= k < issuances.len() implies {
            &&& feed(issuances)[2 * k] == (#[trigger] issuances[k]).request()
            &&& feed(issuances)[2 * k + 1] == issuances[k].response()
        } by {
            if k < earlier.len() {
                assert(earlier[k] == issuances[k]);
            }
        }
    }
}

/// Publishing issuances one by one is publishing their feed.
pub proof fn lemma_issue_all(bus: BusState, issuances: Seq<Issuance>)
    ensures
        issue_all(bus, issuances) == bus.publish_all(feed(issuances)),
    decreases issuances.len(),
{
    if issuances.len() > 0 {
        let earlier = issuances.drop_last();
        let last = issuances.last();
        lemma_issue_all(bus, earlier);
        let events = feed(issuances);
        assert(events.drop_last() =~= feed(earlier).push(last.request()));
        assert(events.drop_last().drop_last() =~= feed(earlier));
        assert(events.last() == last.response());
        assert(events.drop_last().last() == last.request());
        assert(bus.publish_all(events) == bus.publish_all(events.drop_last()).publish(
            last.response(),
        ));
        assert(bus.publish_all(events.drop_last()) == bus.publish_all(feed(earlier)).publish(
            last.request(),
        ));
    }
}

/// A watcher that is connected while a series of issuances is published, and
/// whose queue has room for them, observes exactly their feed after what it
/// had observed before: for each issuance, in publish order, the request and
/// then the response.
pub proof fn lemma_watcher_observes_issuances(bus: BusState, id: u64, issuances: Seq<Issuance>)
    requires
        bus.wf(),
        bus.subscribed(id),
        bus.pending(id).len() + 2 * issuances.len() <= bus.capacity,
    ensures
        issue_all(bus, issuances).wf(),
        issue_all(bus, issuances).subscribed(id),
        issue_all(bus, issuances).observed(id) == bus.observed(id) + feed(issuances),
        issue_all(bus, issuances).pending(id) == bus.pending(id) + feed(issuances),
        feed(issuances).len() == 2 * issuances.len(),
        forall|k: int|
            0 <= k < issuances.len() ==> {
                &&& feed(issuances)[2 * k] == (#[trigger] issuances[k]).request()
                &&& feed(issuances)[2 * k + 1] == issuances[k].response()
            },
{
    lemma_feed_pairs(issuances);
    lemma_issue_all(bus, issuances);
    lemma_publish_all(bus, id, feed(issuances));
}

/// No replay: a subscriber that joins after `earlier` was published observes
/// none of it. Of what is published later it observes all, as far as its
/// queue has room.
pub proof fn lemma_no_replay(bus: BusState, earlier: Seq<Event>, later: Seq<Event>)
    requires
        bus.wf(),
        bus.issued < u64::MAX,
        later.len() <= bus.capacity,
    ensures
        ({
            let id = bus.issued as u64;
            let joined = bus.publish_all(earlier).subscribe();
            let after = joined.publish_all(later);
            &&& joined.subscribed(id)
            &&& joined.observed(id) == Seq::<Event>::empty()
            &&& after.subscribed(id)
            &&& after.cursors[id].joined == bus.log.len() + earlier.len()
            &&& after.observed(id) == later
            &&& after.log == bus.log + earlier + later
        }),
{
    let id = bus.issued as u64;
    let before = bus.publish_all(earlier);
    lemma_publish_all_log(bus, earlier);
    let joined = before.subscribe();
    lemma_subscribe_wf(before);
    assert(joined.pending(id) =~= Seq::<Event>::empty());
    lemma_publish_all(joined, id, later);
    let after = joined.publish_all(later);
    assert(after.observed(id) =~= later);
}

/// What a subscriber observes is the log from the place where it joined:
/// it never observes an event published before, and misses none published
/// after.
pub proof fn lemma_observed(bus: BusState, id: u64)
    requires
        bus.wf(),
        bus.subscribed(id),
    ensures
        bus.observed(id) == bus.delivered(id) + bus.pending(id),
        bus.observed(id).len() == bus.log.len() - bus.cursors[id].joined,
        forall|k: int|
            0 <= k < bus.observed(id).len() ==> #[trigger] bus.observed(id)[k] == bus.log[
                bus.cursors[id].joined + k],
{
    assert(bus.observed(id) =~= bus.delivered(id) + bus.pending(id));
}

/// Total order: of two connected subscribers, the one that joined later
/// observes a tail of what the other observes. The events that both observe
/// are the same and come in the same order.
pub proof fn lemma_total_order(bus: BusState, first: u64, second: u64)
    requires
        bus.wf(),
        bus.subscribed(first),
        bus.subscribed(second),
        bus.cursors[first].joined <= bus.cursors[second].joined,
    ensures
        bus.observed(second) == bus.observed(first).subrange(
            bus.cursors[second].joined - bus.cursors[first].joined,
            bus.observed(first).len() as int,
        ),
{
    assert(bus.observed(second) =~= bus.observed(first).subrange(
        bus.cursors[second].joined - bus.cursors[first].joined,
        bus.observed(first).len() as int,
    ));
}

/// One call on the bus, as the bus sees it.
pub enum Call {
    /// An event is published.
    Publish { event: Event },
    /// Somebody subscribes.
    Subscribe,
    /// The subscriber `id` leaves, or is taken off by its session.
    Unsubscribe { id: u64 },
    /// The subscriber `id` asks for its next message.
    Receive { id: u64 },
}

/// The bus after one call. A subscription where no handle is left, and a
/// request for a message where none is queued or the handle is not
/// connected, change nothing.
pub open spec fn apply(bus: BusState, call: Call) -> BusState {
    match call {
        Call::Publish { event } => bus.publish(event),
        Call::Subscribe => if bus.issued < u64::MAX {
            bus.subscribe()
        } else {
            bus
        },
        Call::Unsubscribe { id } => bus.unsubscribe(id),
        Call::Receive { id } => if bus.subscribed(id) && bus.pending(id).len() > 0 {
            bus.receive(id)
        } else {
            bus
        },
    }
}

/// The bus after a series of calls, in any mixture and from any callers.
pub open spec fn run(bus: BusState, calls: Seq<Call>) -> BusState
    decreases calls.len(),
{
    if calls.len() == 0 {
        bus
    } else {
        apply(run(bus, calls.drop_last()), calls.last())
    }
}

/// The events that a series of calls publishes, in order.
pub open spec fn published(calls: Seq<Call>) -> Seq<Event>
    decreases calls.len(),
{
    if calls.len() == 0 {
        Seq::empty()
    } else {
        match calls.last() {
            Call::Publish { event } => published(calls.drop_last()).push(event),
            _ => published(calls.drop_last()),
        }
    }
}

/// What one call may change: it keeps the bus well formed and its capacity,
/// gives out handles in ascending order, appends to the log or leaves it, and
/// neither reconnects a handle that was given out before nor moves the place
/// where a subscriber joined.
pub proof fn lemma_apply(bus: BusState, call: Call)
    requires
        bus.wf(),
    ensures
        apply(bus, call).wf(),
        apply(bus, call).capacity == bus.capacity,
        apply(bus, call).issued >= bus.issued,
        apply(bus, call).log == bus.log + published(seq![call]),
        forall|id: u64|
            id < bus.issued && #[trigger] apply(bus, call).subscribed(id) ==> bus.subscribed(id)
                && apply(bus, call).cursors[id].joined == bus.cursors[id].joined,
{
    let calls = seq![call];
    assert(calls.drop_last() =~= Seq::<Call>::empty());
    assert(calls.last() == call);
    assert(published(calls.drop_last()) =~= Seq::<Event>::empty());
    match call {
        Call::Publish { event } => {
            lemma_publish_wf(bus, event);
            assert(bus.log.push(event) =~= bus.log + published(calls));
        },
        Call::Subscribe => {
            if bus.issued < u64::MAX {
                lemma_subscribe_wf(bus);
            }
            assert(bus.log =~= bus.log + published(calls));
        },
        Call::Unsubscribe { id } => {
            lemma_unsubscribe(bus, id);
            assert(bus.log =~= bus.log + published(calls));
        },
        Call::Receive { id } => {
            if bus.subscribed(id) && bus.pending(id).len() > 0 {
                lemma_receive(bus, id);
            }
            assert(bus.log =~= bus.log + published(calls));
        },
    }
}

/// Whatever the calls, the log afterwards is the log before and then every
/// published event, in publish order. No subscriber, however slow, and no
/// call of a subscriber keeps a publication from taking place.
pub proof fn lemma_run(bus: BusState, calls: Seq<Call>)
    requires
        bus.wf(),
    ensures
        run(bus, calls).wf(),
        run(bus, calls).capacity == bus.capacity,
        run(bus, calls).issued >= bus.issued,
        run(bus, calls).log == bus.log + published(calls),
    decreases calls.len(),
{
    if calls.len() == 0 {
        assert(bus.log =~= bus.log + published(calls));
    } else {
        let before = run(bus, calls.drop_last());
        lemma_run(bus, calls.drop_last());
        lemma_apply(before, calls.last());
        let one = seq![calls.last()];
        assert(one.drop_last() =~= Seq::<Call>::empty());
        assert(published(one.drop_last()) =~= Seq::<Event>::empty());
        assert(published(calls) =~= published(calls.drop_last()) + published(one));
        assert(run(bus, calls).log =~= bus.log + published(calls));
    }
}

/// A subscriber that is connected before and after a series of calls has
/// observed, in addition to what it had observed before, exactly the events
/// that were published in between, in publish order: whatever else happened
/// on the bus, whoever joined or left, and whenever it took its messages.
pub proof fn lemma_observes_what_is_published(bus: BusState, id: u64, calls: Seq<Call>)
    requires
        bus.wf(),
        bus.subscribed(id),
        run(bus, calls).subscribed(id),
    ensures
        run(bus, calls).cursors[id].joined == bus.cursors[id].joined,
        run(bus, calls).observed(id) == bus.observed(id) + published(calls),
        run(bus, calls).observed(id) == run(bus, calls).delivered(id) + run(bus, calls).pending(
            id,
        ),
    decreases calls.len(),
{
    lemma_run(bus, calls);
    if calls.len() > 0 {
        let before = run(bus, calls.drop_last());
        lemma_run(bus, calls.drop_last());
        lemma_apply(before, calls.last());
        assert(id < bus.issued);
        assert(apply(before, calls.last()).subscribed(id));
        lemma_observes_what_is_published(bus, id, calls.drop_last());
    }
    let after = run(bus, calls);
    lemma_observed(after, id);
    assert(after.observed(id) =~= bus.observed(id) + published(calls));
}

/// No replay, in general: a subscriber that joins after some calls and is
/// still connected after some more has observed exactly what the later calls
/// published, and nothing of what was published before it joined.
pub proof fn lemma_joins_later(bus: BusState, earlier: Seq<Call>, later: Seq<Call>)
    requires
        bus.wf(),
        run(bus, earlier).issued < u64::MAX,
        run(run(bus, earlier).subscribe(), later).subscribed(run(bus, earlier).issued as u64),
    ensures
        ({
            let id = run(bus, earlier).issued as u64;
            let after = run(run(bus, earlier).subscribe(), later);
            &&& after.observed(id) == published(later)
            &&& after.cursors[id].joined == bus.log.len() + published(earlier).len()
            &&& after.log == bus.log + published(earlier) + published(later)
        }),
{
    let before = run(bus, earlier);
    lemma_run(bus, earlier);
    let joined = before.subscribe();
    lemma_subscribe_wf(before);
    let id = before.issued as u64;
    lemma_run(joined, later);
    lemma_observes_what_is_published(joined, id, later);
    assert(run(joined, later).observed(id) =~= published(later));
}

/// A subscriber whose queue is full is disconnected by the next publication.
/// The publication itself takes place, and every subscriber whose queue has
/// room receives the event.
pub proof fn lemma_overflow(bus: BusState, slow: u64, event: Event)
    requires
        bus.wf(),
        bus.subscribed(slow),
        bus.pending(slow).len() == bus.capacity,
    ensures
        bus.publish(event).wf(),
        bus.publish(event).log == bus.log.push(event),
        !bus.publish(event).subscribed(slow),
        forall|other: u64| #[trigger]
            bus.keeps_up(other) ==> {
                &&& bus.publish(event).subscribed(other)
                &&& bus.publish(event).cursors[other] == bus.cursors[other]
                &&& bus.publish(event).pending(other) == bus.pending(other).push(event)
            },
{
    lemma_publish_wf(bus, event);
    assert forall|other: u64| #[trigger] bus.keeps_up(other) implies {
        &&& bus.publish(event).subscribed(other)
        &&& bus.publish(event).cursors[other] == bus.cursors[other]
        &&& bus.publish(event).pending(other) == bus.pending(other).push(event)
    } by {
        assert(bus.publish(event).pending(other) =~= bus.pending(other).push(event));
    }
}

/// A subscriber that is gone stays gone: publishing connects nobody.
pub proof fn lemma_stays_disconnected(bus: BusState, id: u64, events: Seq<Event>)
    requires
        !bus.subscribed(id),
    ensures
        !bus.publish_all(events).subscribed(id),
    decreases events.len(),
{
    if events.len() > 0 {
        lemma_stays_disconnected(bus, id, events.drop_last());
    }
}

/// A subscriber that never takes a message is disconnected once more is
/// published than its queue holds, and the log holds every publication all
/// the same.
pub proof fn lemma_never_drained(bus: BusState, slow: u64, events: Seq<Event>)
    requires
        bus.wf(),
        bus.subscribed(slow),
        bus.pending(slow).len() + events.len() > bus.capacity,
    ensures
        !bus.publish_all(events).subscribed(slow),
        bus.publish_all(events).wf(),
        bus.publish_all(events).log == bus.log + events,
    decreases events.len(),
{
    lemma_publish_all_log(bus, events);
    let before = bus.publish_all(events.drop_last());
    if bus.pending(slow).len() + events.len() - 1 > bus.capacity {
        lemma_never_drained(bus, slow, events.drop_last());
    } else {
        lemma_publish_all(bus, slow, events.drop_last());
        assert(before.pending(slow).len() == bus.capacity);
    }
}

} // verus!
