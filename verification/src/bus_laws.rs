//! What holds of a bus over time.
//!
//! The contracts of [`EventBus`](crate::bus::EventBus) say what one call
//! does to the value of the bus. The statements here follow a bus through
//! any number of calls.

use crate::bus::{one_more, BusModel, DeliveryModel};
use crate::event::EventModel;
use vstd::prelude::*;

verus! {

/// `part` can be had from `whole` by leaving events out: the events of
/// `part` stand in `whole`, in the same order.
pub open spec fn is_subsequence(part: Seq<EventModel>, whole: Seq<EventModel>) -> bool {
    exists|places: Seq<int>| places_of(part, whole, places)
}

/// `places` says where in `whole` each event of `part` stands.
pub open spec fn places_of(part: Seq<EventModel>, whole: Seq<EventModel>, places: Seq<int>) -> bool {
    &&& places.len() == part.len()
    &&& forall|i: int|
        0 <= i < part.len() ==> 0 <= #[trigger] places[i] < whole.len() && whole[places[i]]
            == part[i]
    &&& forall|i: int, j: int|
        0 <= i < j < part.len() ==> #[trigger] places[i] < #[trigger] places[j]
}

/// What happens on a bus: an event is published, a subscriber reads, one
/// more subscriber is registered, or a registration ends.
pub enum BusStep {
    Publish(EventModel),
    Receive(u64),
    Subscribe,
    Unsubscribe(u64),
}

/// The registration of the subscriber `id` does not end during `steps`.
pub open spec fn stays(steps: Seq<BusStep>, id: u64) -> bool {
    forall|i: int| 0 <= i < steps.len() ==> #[trigger] steps[i] != BusStep::Unsubscribe(id)
}

/// The bus after `steps`.
pub open spec fn run(bus: BusModel, steps: Seq<BusStep>) -> BusModel
    decreases steps.len(),
{
    if steps.len() == 0 {
        bus
    } else {
        let mid = run(bus, steps.drop_last());
        match steps.last() {
            BusStep::Publish(event) => mid.publish(event),
            BusStep::Receive(id) => mid.advance(id),
            BusStep::Subscribe => if mid.issued < u64::MAX {
                mid.subscribe()
            } else {
                mid
            },
            BusStep::Unsubscribe(id) => mid.unsubscribe(id),
        }
    }
}

/// The events that `steps` publish, in the order of publication.
pub open spec fn published(steps: Seq<BusStep>) -> Seq<EventModel>
    decreases steps.len(),
{
    if steps.len() == 0 {
        Seq::empty()
    } else {
        match steps.last() {
            BusStep::Publish(event) => published(steps.drop_last()).push(event),
            _ => published(steps.drop_last()),
        }
    }
}

/// The events that the subscriber `id` reads during `steps`, in the order in
/// which it reads them.
pub open spec fn delivered(bus: BusModel, steps: Seq<BusStep>, id: u64) -> Seq<EventModel>
    decreases steps.len(),
{
    if steps.len() == 0 {
        Seq::empty()
    } else {
        let mid = run(bus, steps.drop_last());
        let so_far = delivered(bus, steps.drop_last(), id);
        match steps.last() {
            BusStep::Receive(reader) => if reader == id {
                match mid.next(id) {
                    DeliveryModel::Event(event) => so_far.push(event),
                    _ => so_far,
                }
            } else {
                so_far
            },
            _ => so_far,
        }
    }
}

/// How many events give way in the queue of the subscriber `id` during
/// `steps`.
pub open spec fn lost(bus: BusModel, steps: Seq<BusStep>, id: u64) -> nat
    decreases steps.len(),
{
    if steps.len() == 0 {
        0
    } else {
        let mid = run(bus, steps.drop_last());
        let so_far = lost(bus, steps.drop_last(), id);
        match steps.last() {
            BusStep::Publish(_) => if mid.subscribers[id].queue.len() >= mid.capacity {
                so_far + 1
            } else {
                so_far
            },
            _ => so_far,
        }
    }
}

/// Publishing where nobody subscribes changes nothing, however often it is
/// done.
pub proof fn lemma_publish_without_subscribers(bus: BusModel, event: EventModel)
    requires
        bus.subscribers.dom() == Set::<u64>::empty(),
    ensures
        bus.publish(event) == bus,
        bus.publish(event).publish(event) == bus.publish(event),
{
    assert(bus.publish(event).subscribers =~= bus.subscribers);
}

/// Where the queue of one subscriber is full, a publication costs that
/// subscriber its oldest event, and nobody else anything: every other
/// subscriber is offered the event as if the first did not exist.
pub proof fn lemma_overflow_is_local(bus: BusModel, full: u64, other: u64, event: EventModel)
    requires
        bus.wf(),
        !bus.closed,
        bus.subscribers.contains_key(full),
        bus.subscribers[full].queue.len() == bus.capacity,
        bus.subscribers.contains_key(other),
        other != full,
    ensures
        bus.publish(event).subscribers[full].queue == bus.subscribers[full].queue.skip(1).push(
            event,
        ),
        bus.publish(event).subscribers[full].missed == one_more(bus.subscribers[full].missed),
        bus.publish(event).subscribers[other] == bus.subscribers[other].offer(event, bus.capacity),
        bus.publish(event).subscribers[other] == bus.unsubscribe(full).publish(
            event,
        ).subscribers[other],
{
}

/// How each step changes the number of subscribers: a subscription adds
/// one, the end of a registration takes that one away again, and publishing
/// and reading leave the number alone.
pub proof fn lemma_subscriber_count(bus: BusModel, id: u64, event: EventModel)
    requires
        bus.wf(),
    ensures
        BusModel::empty(bus.capacity).subscribers.len() == 0,
        bus.subscribe().subscribers.len() == bus.subscribers.len() + 1,
        bus.subscribe().unsubscribe(bus.issued as u64).subscribers == bus.subscribers,
        bus.unsubscribe(id).subscribers.len() == if bus.subscribers.contains_key(id) {
            bus.subscribers.len() - 1
        } else {
            bus.subscribers.len() as int
        },
        bus.publish(event).subscribers.len() == bus.subscribers.len(),
        bus.advance(id).subscribers.len() == bus.subscribers.len(),
{
    assert(BusModel::empty(bus.capacity).subscribers.dom() =~= Set::<u64>::empty());
    assert(!bus.subscribers.contains_key(bus.issued as u64));
    assert(bus.subscribe().subscribers.dom() =~= bus.subscribers.dom().insert(bus.issued as u64));
    assert(bus.subscribe().unsubscribe(bus.issued as u64).subscribers =~= bus.subscribers);
    assert(bus.unsubscribe(id).subscribers.dom() =~= bus.subscribers.dom().remove(id));
    assert(bus.publish(event).subscribers.dom() =~= bus.subscribers.dom());
    assert(bus.advance(id).subscribers.dom() =~= bus.subscribers.dom());
}

/// Whatever happens on a bus, it stays in order and open, its queues keep
/// their room, and a subscriber whose registration does not end stays
/// registered.
pub proof fn lemma_run_keeps(bus: BusModel, steps: Seq<BusStep>, id: u64)
    requires
        bus.wf(),
        !bus.closed,
    ensures
        run(bus, steps).wf(),
        !run(bus, steps).closed,
        run(bus, steps).capacity == bus.capacity,
        bus.subscribers.contains_key(id) && stays(steps, id) ==> run(
            bus,
            steps,
        ).subscribers.contains_key(id),
    decreases steps.len(),
{
    if steps.len() > 0 {
        let earlier = steps.drop_last();
        let mid = run(bus, earlier);
        lemma_run_keeps(bus, earlier, id);
        let end = run(bus, steps);
        if stays(steps, id) {
            assert forall|i: int| 0 <= i < earlier.len() implies #[trigger] earlier[i]
                != BusStep::Unsubscribe(id) by {
                assert(earlier[i] == steps[i]);
            }
            assert(steps[steps.len() - 1] != BusStep::Unsubscribe(id));
        }
        match steps.last() {
            BusStep::Publish(event) => {
                assert(end.subscribers.dom() =~= mid.subscribers.dom());
            },
            BusStep::Receive(reader) => {
                assert(end.subscribers.dom() =~= mid.subscribers.dom());
            },
            BusStep::Subscribe => {},
            BusStep::Unsubscribe(leaver) => {},
        }
        assert forall|k: u64| #[trigger] end.subscribers.contains_key(k) implies k < end.issued
            && end.subscribers[k].queue.len() <= end.capacity by {
            if mid.subscribers.contains_key(k) {
            }
        }
    }
}

proof fn lemma_subsequence_itself(s: Seq<EventModel>)
    ensures
        is_subsequence(s, s),
{
    let places = Seq::new(s.len(), |i: int| i);
    assert(places_of(s, s, places));
}

proof fn lemma_subsequence_push(part: Seq<EventModel>, whole: Seq<EventModel>, event: EventModel)
    requires
        is_subsequence(part, whole),
    ensures
        is_subsequence(part.push(event), whole.push(event)),
{
    let places = choose|places: Seq<int>| places_of(part, whole, places);
    let more = places.push(whole.len() as int);
    assert(places_of(part.push(event), whole.push(event), more));
}

proof fn lemma_subsequence_grow(part: Seq<EventModel>, whole: Seq<EventModel>, event: EventModel)
    requires
        is_subsequence(part, whole),
    ensures
        is_subsequence(part, whole.push(event)),
{
    let places = choose|places: Seq<int>| places_of(part, whole, places);
    assert(places_of(part, whole.push(event), places));
}

proof fn lemma_subsequence_remove(part: Seq<EventModel>, whole: Seq<EventModel>, k: int)
    requires
        is_subsequence(part, whole),
        0 <= k < part.len(),
    ensures
        is_subsequence(part.remove(k), whole),
{
    let places = choose|places: Seq<int>| places_of(part, whole, places);
    let fewer = places.remove(k);
    let rest = part.remove(k);
    assert forall|i: int| 0 <= i < rest.len() implies 0 <= #[trigger] fewer[i] < whole.len()
        && whole[fewer[i]] == rest[i] by {
        if i < k {
            assert(fewer[i] == places[i]);
        } else {
            assert(fewer[i] == places[i + 1]);
        }
    }
    assert forall|i: int, j: int| 0 <= i < j < rest.len() implies #[trigger] fewer[i]
        < #[trigger] fewer[j] by {
        let i0 = if i < k { i } else { i + 1 };
        let j0 = if j < k { j } else { j + 1 };
        assert(fewer[i] == places[i0] && fewer[j] == places[j0]);
    }
    assert(places_of(rest, whole, fewer));
}

/// Places that rise leave no room below them.
proof fn lemma_places_low(places: Seq<int>, i: int)
    requires
        forall|a: int| 0 <= a < places.len() ==> 0 <= #[trigger] places[a],
        forall|a: int, b: int|
            0 <= a < b < places.len() ==> #[trigger] places[a] < #[trigger] places[b],
        0 <= i < places.len(),
    ensures
        places[i] >= i,
    decreases i,
{
    if i > 0 {
        lemma_places_low(places, i - 1);
        assert(places[i - 1] < places[i]);
    }
}

/// Places that rise leave no room above them.
proof fn lemma_places_high(places: Seq<int>, bound: int, i: int)
    requires
        forall|a: int| 0 <= a < places.len() ==> #[trigger] places[a] < bound,
        forall|a: int, b: int|
            0 <= a < b < places.len() ==> #[trigger] places[a] < #[trigger] places[b],
        0 <= i < places.len(),
    ensures
        places[i] <= bound - (places.len() - i),
    decreases places.len() - i,
{
    if i < places.len() - 1 {
        lemma_places_high(places, bound, i + 1);
        assert(places[i] < places[i + 1]);
    }
}

/// A subsequence that leaves nothing out is the whole.
proof fn lemma_subsequence_whole(part: Seq<EventModel>, whole: Seq<EventModel>)
    requires
        is_subsequence(part, whole),
        part.len() == whole.len(),
    ensures
        part == whole,
{
    let places = choose|places: Seq<int>| places_of(part, whole, places);
    assert forall|i: int| 0 <= i < part.len() implies part[i] == whole[i] by {
        lemma_places_low(places, i);
        lemma_places_high(places, whole.len() as int, i);
        assert(places[i] == i);
    }
    assert(part =~= whole);
}

/// Every subscriber reads the published events in the order of publication.
///
/// Take a bus that is open, any sequence of publications, reads, new
/// subscriptions and ended registrations, and a subscriber that is
/// registered throughout. What the subscriber has read,
/// followed by what still waits for it, is what waited at the start followed
/// by what was published, less the events that gave way in its full queue:
/// no event is read twice, none out of order, and none is missing but those.
/// Where nothing gave way, nothing is missing.
pub proof fn lemma_delivery_order(bus: BusModel, steps: Seq<BusStep>, id: u64)
    requires
        bus.wf(),
        !bus.closed,
        bus.subscribers.contains_key(id),
        stays(steps, id),
    ensures
        is_subsequence(
            delivered(bus, steps, id) + run(bus, steps).subscribers[id].queue,
            bus.subscribers[id].queue + published(steps),
        ),
        delivered(bus, steps, id).len() + run(bus, steps).subscribers[id].queue.len() + lost(
            bus,
            steps,
            id,
        ) == bus.subscribers[id].queue.len() + published(steps).len(),
        lost(bus, steps, id) == 0 ==> delivered(bus, steps, id) + run(
            bus,
            steps,
        ).subscribers[id].queue == bus.subscribers[id].queue + published(steps),
    decreases steps.len(),
{
    let start = bus.subscribers[id].queue;
    let end = run(bus, steps);
    let got = delivered(bus, steps, id) + end.subscribers[id].queue;
    let all = start + published(steps);
    if steps.len() == 0 {
        assert(got =~= start);
        assert(all =~= start);
        lemma_subsequence_itself(start);
    } else {
        let earlier = steps.drop_last();
        assert forall|i: int| 0 <= i < earlier.len() implies #[trigger] earlier[i]
            != BusStep::Unsubscribe(id) by {
            assert(earlier[i] == steps[i]);
        }
        assert(steps[steps.len() - 1] != BusStep::Unsubscribe(id));
        lemma_delivery_order(bus, earlier, id);
        lemma_run_keeps(bus, earlier, id);
        let mid = run(bus, earlier);
        let read = delivered(bus, earlier, id);
        let queue = mid.subscribers[id].queue;
        let before = read + queue;
        let all_before = start + published(earlier);
        assert(mid.subscribers.contains_key(id));
        match steps.last() {
            BusStep::Publish(event) => {
                assert(all =~= all_before.push(event));
                if queue.len() < mid.capacity {
                    assert(got =~= before.push(event));
                    lemma_subsequence_push(before, all_before, event);
                } else {
                    let k = read.len() as int;
                    assert(queue.len() >= 1);
                    assert(got =~= before.remove(k).push(event));
                    lemma_subsequence_remove(before, all_before, k);
                    lemma_subsequence_push(before.remove(k), all_before, event);
                }
            },
            BusStep::Receive(reader) => {
                assert(all == all_before);
                if reader == id {
                    assert(got =~= before);
                } else {
                    assert(got == before);
                }
            },
            BusStep::Subscribe => {
                assert(all == all_before);
                assert(got == before);
            },
            BusStep::Unsubscribe(leaver) => {
                assert(all == all_before);
                assert(got == before);
            },
        }
    }
    if lost(bus, steps, id) == 0 {
        lemma_subsequence_whole(got, all);
    }
}

} // verus!
