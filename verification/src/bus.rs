//! The event bus: publish and subscribe inside one process.
//!
//! A bus hands every published event to every subscriber that is registered
//! at that moment. Each subscriber has a queue of its own with room for a
//! fixed number of events. A publisher never waits: where a queue is full,
//! its oldest event gives way to the new one, and the subscriber is told at
//! its next read how many events it has missed.
//!
//! The bus is a plain value. Where several tasks share it, they take turns:
//! whoever holds it publishes or reads, and hands it back.

use crate::event::{Event, EventModel};
use std::collections::VecDeque;
use vstd::prelude::*;

verus! {

/// Room in the queue of a subscription, unless another is asked for.
pub const DEFAULT_CAPACITY: usize = 100;

/// One more missed event, counted up to the largest number that fits.
pub open spec fn one_more(missed: u64) -> u64 {
    if missed < u64::MAX {
        (missed + 1) as u64
    } else {
        missed
    }
}

/// What waits for one subscriber.
pub struct SubscriberModel {
    /// The events that were published and not yet read, oldest first.
    pub queue: Seq<EventModel>,
    /// How many events gave way since the subscriber was last told.
    pub missed: u64,
}

impl SubscriberModel {
    /// A subscriber for whom nothing waits.
    pub open spec fn fresh() -> SubscriberModel {
        SubscriberModel { queue: Seq::empty(), missed: 0 }
    }

    /// The subscriber after `event` was published, with room for `capacity`
    /// events: the event joins the queue at its end, and where the queue was
    /// full, the oldest event leaves and is counted as missed.
    pub open spec fn offer(self, event: EventModel, capacity: nat) -> SubscriberModel {
        if self.queue.len() < capacity {
            SubscriberModel { queue: self.queue.push(event), missed: self.missed }
        } else {
            SubscriberModel {
                queue: self.queue.skip(1).push(event),
                missed: one_more(self.missed),
            }
        }
    }

    /// What the subscriber reads next, on a bus that is closed or not.
    pub open spec fn next(self, closed: bool) -> DeliveryModel {
        if self.missed > 0 {
            DeliveryModel::Lagged(self.missed)
        } else if self.queue.len() > 0 {
            DeliveryModel::Event(self.queue[0])
        } else if closed {
            DeliveryModel::Closed
        } else {
            DeliveryModel::Empty
        }
    }

    /// The subscriber after it has read once: told of what it missed, or
    /// else without the oldest event.
    pub open spec fn advance(self) -> SubscriberModel {
        if self.missed > 0 {
            SubscriberModel { queue: self.queue, missed: 0 }
        } else if self.queue.len() > 0 {
            SubscriberModel { queue: self.queue.skip(1), missed: 0 }
        } else {
            self
        }
    }
}

/// The mathematical value of a [`Delivery`].
pub enum DeliveryModel {
    Event(EventModel),
    Lagged(u64),
    Empty,
    Closed,
}

/// What a subscriber gets when it reads.
#[derive(Debug, PartialEq, Eq)]
pub enum Delivery {
    /// The oldest event that waited.
    Event(Event),
    /// So many events gave way before they were read. This is no failure:
    /// the events that still wait are read next.
    Lagged(u64),
    /// Nothing waits at the moment.
    Empty,
    /// Nothing waits and nothing will come: the bus is closed, or the
    /// subscription is not registered with it.
    Closed,
}

impl View for Delivery {
    type V = DeliveryModel;

    open spec fn view(&self) -> DeliveryModel {
        match self {
            Delivery::Event(event) => DeliveryModel::Event(event@),
            Delivery::Lagged(missed) => DeliveryModel::Lagged(*missed),
            Delivery::Empty => DeliveryModel::Empty,
            Delivery::Closed => DeliveryModel::Closed,
        }
    }
}

/// The mathematical value of an [`EventBus`].
pub struct BusModel {
    /// Room in the queue of each subscriber.
    pub capacity: nat,
    /// Whether the bus was closed.
    pub closed: bool,
    /// How many subscriptions were handed out so far. A subscription is
    /// known by the number it was handed out under.
    pub issued: nat,
    /// What waits for each registered subscriber.
    pub subscribers: Map<u64, SubscriberModel>,
}

impl BusModel {
    /// A bus without subscribers.
    pub open spec fn empty(capacity: nat) -> BusModel {
        BusModel { capacity, closed: false, issued: 0, subscribers: Map::empty() }
    }

    /// A queue has room for at least one event and never holds more than it
    /// has room for; only numbers that were handed out are registered.
    pub open spec fn wf(self) -> bool {
        &&& self.capacity >= 1
        &&& self.issued <= u64::MAX
        &&& self.subscribers.dom().finite()
        &&& forall|id: u64| #[trigger]
            self.subscribers.contains_key(id) ==> id < self.issued
                && self.subscribers[id].queue.len() <= self.capacity
    }

    /// The bus after one more subscription was handed out.
    pub open spec fn subscribe(self) -> BusModel {
        BusModel {
            issued: self.issued + 1,
            subscribers: self.subscribers.insert(self.issued as u64, SubscriberModel::fresh()),
            ..self
        }
    }

    /// The bus without the subscriber `id`.
    pub open spec fn unsubscribe(self, id: u64) -> BusModel {
        BusModel { subscribers: self.subscribers.remove(id), ..self }
    }

    /// The bus after `event` was published: every registered subscriber was
    /// offered it. A closed bus takes nothing.
    pub open spec fn publish(self, event: EventModel) -> BusModel {
        if self.closed {
            self
        } else {
            BusModel {
                subscribers: Map::new(
                    |id: u64| self.subscribers.contains_key(id),
                    |id: u64| self.subscribers[id].offer(event, self.capacity),
                ),
                ..self
            }
        }
    }

    /// What the subscriber `id` reads next.
    pub open spec fn next(self, id: u64) -> DeliveryModel {
        if self.subscribers.contains_key(id) {
            self.subscribers[id].next(self.closed)
        } else {
            DeliveryModel::Closed
        }
    }

    /// The bus after the subscriber `id` has read once.
    pub open spec fn advance(self, id: u64) -> BusModel {
        if self.subscribers.contains_key(id) {
            BusModel {
                subscribers: self.subscribers.insert(id, self.subscribers[id].advance()),
                ..self
            }
        } else {
            self
        }
    }

    /// The bus after it was closed.
    pub open spec fn close(self) -> BusModel {
        BusModel { closed: true, ..self }
    }
}

/// One subscriber's registration with a bus.
///
/// The handle belongs to whoever subscribed. It is given back to the bus to
/// end the registration.
#[derive(Debug, PartialEq, Eq)]
pub struct Subscription {
    id: u64,
}

impl View for Subscription {
    type V = u64;

    closed spec fn view(&self) -> u64 {
        self.id
    }
}

impl Subscription {
    /// The number under which the subscription was handed out.
    pub fn id(&self) -> (id: u64)
        ensures
            id == self@,
    {
        self.id
    }
}

struct Slot {
    id: u64,
    queue: VecDeque<Event>,
    missed: u64,
}

impl View for Slot {
    type V = SubscriberModel;

    closed spec fn view(&self) -> SubscriberModel {
        SubscriberModel { queue: self.queue@.map_values(|e: Event| e@), missed: self.missed }
    }
}

/// Where the slot of `id` stands.
spec fn slot_of(slots: Seq<Slot>, id: u64) -> int {
    choose|i: int| 0 <= i < slots.len() && slots[i].id == id
}

spec fn has_slot(slots: Seq<Slot>, id: u64) -> bool {
    exists|i: int| 0 <= i < slots.len() && slots[i].id == id
}

spec fn distinct(slots: Seq<Slot>) -> bool {
    forall|i: int, j: int| 0 <= i < j < slots.len() ==> slots[i].id != slots[j].id
}

spec fn registered(slots: Seq<Slot>) -> Map<u64, SubscriberModel> {
    Map::new(|id: u64| has_slot(slots, id), |id: u64| slots[slot_of(slots, id)]@)
}

/// Each slot is found under its number.
proof fn lemma_registered(slots: Seq<Slot>)
    requires
        distinct(slots),
    ensures
        forall|i: int|
            0 <= i < slots.len() ==> has_slot(slots, #[trigger] slots[i].id) && slot_of(
                slots,
                slots[i].id,
            ) == i,
        forall|id: u64|
            has_slot(slots, id) ==> 0 <= #[trigger] slot_of(slots, id) < slots.len() && slots[slot_of(
                slots,
                id,
            )].id == id,
{
}

/// As many subscribers are registered as there are slots.
proof fn lemma_registered_len(slots: Seq<Slot>)
    requires
        distinct(slots),
    ensures
        registered(slots).dom().finite(),
        registered(slots).dom().len() == slots.len(),
    decreases slots.len(),
{
    if slots.len() == 0 {
        assert(registered(slots).dom() =~= Set::<u64>::empty());
    } else {
        let init = slots.drop_last();
        let last = slots.last();
        lemma_registered_len(init);
        assert forall|id: u64| registered(slots).dom().contains(id) <==> registered(
            init,
        ).dom().insert(last.id).contains(id) by {
            if has_slot(slots, id) {
                let i = slot_of(slots, id);
                if i < init.len() {
                    assert(init[i].id == id);
                }
            }
            if has_slot(init, id) {
                let i = slot_of(init, id);
                assert(slots[i].id == id);
            }
            if id == last.id {
                assert(slots[slots.len() - 1].id == id);
            }
        }
        assert(registered(slots).dom() =~= registered(init).dom().insert(last.id));
        if has_slot(init, last.id) {
            let i = slot_of(init, last.id);
            assert(slots[i].id == slots[slots.len() - 1].id);
        }
    }
}

/// An in-process publish and subscribe channel for [`Event`]s.
pub struct EventBus {
    capacity: usize,
    closed: bool,
    issued: u64,
    slots: Vec<Slot>,
}

impl View for EventBus {
    type V = BusModel;

    closed spec fn view(&self) -> BusModel {
        BusModel {
            capacity: self.capacity as nat,
            closed: self.closed,
            issued: self.issued as nat,
            subscribers: registered(self.slots@),
        }
    }
}

impl EventBus {
    /// The slots hold distinct numbers.
    pub closed spec fn inv(&self) -> bool {
        distinct(self.slots@)
    }

    /// The bus is in order: so is its value, and so is what holds it.
    pub open spec fn wf(&self) -> bool {
        self.inv() && self@.wf()
    }

    /// A bus without subscribers, with room for [`DEFAULT_CAPACITY`] events
    /// in each queue.
    pub fn new() -> (bus: EventBus)
        ensures
            bus.wf(),
            bus@ == BusModel::empty(DEFAULT_CAPACITY as nat),
    {
        let bus = EventBus { capacity: DEFAULT_CAPACITY, closed: false, issued: 0, slots: Vec::new() };
        proof {
            assert(registered(bus.slots@) =~= Map::<u64, SubscriberModel>::empty());
        }
        bus
    }

    /// A bus without subscribers, with room for `capacity` events in each
    /// queue. A queue without room is refused.
    pub fn with_capacity(capacity: usize) -> (bus: Option<EventBus>)
        ensures
            match bus {
                Some(b) => capacity >= 1 && b.wf() && b@ == BusModel::empty(capacity as nat),
                None => capacity == 0,
            },
    {
        if capacity == 0 {
            return None;
        }
        let bus = EventBus { capacity, closed: false, issued: 0, slots: Vec::new() };
        proof {
            assert(registered(bus.slots@) =~= Map::<u64, SubscriberModel>::empty());
        }
        Some(bus)
    }

    /// Room in the queue of each subscriber.
    pub fn capacity(&self) -> (capacity: usize)
        ensures
            capacity == self@.capacity,
    {
        self.capacity
    }

    /// Whether the bus was closed.
    pub fn is_closed(&self) -> (closed: bool)
        ensures
            closed == self@.closed,
    {
        self.closed
    }

    /// How many subscribers are registered.
    pub fn subscriber_count(&self) -> (count: usize)
        requires
            self.wf(),
        ensures
            count == self@.subscribers.len(),
    {
        proof {
            lemma_registered_len(self.slots@);
        }
        self.slots.len()
    }

    /// Closes the bus: nothing is published from now on, and a subscriber
    /// that has read what waited for it is told so.
    pub fn close(&mut self)
        requires
            old(self).wf(),
        ensures
            final(self).wf(),
            final(self)@ == old(self)@.close(),
    {
        self.closed = true;
    }

    fn position(&self, id: u64) -> (found: Option<usize>)
        ensures
            match found {
                Some(i) => i < self.slots.len() && self.slots[i as int].id == id,
                None => !has_slot(self.slots@, id),
            },
    {
        let mut i: usize = 0;
        while i < self.slots.len()
            invariant
                i <= self.slots.len(),
                forall|j: int| 0 <= j < i ==> self.slots[j].id != id,
            decreases self.slots.len() - i,
        {
            if self.slots[i].id == id {
                return Some(i);
            }
            i += 1;
        }
        None
    }

    /// Registers one more subscriber, for whom nothing waits yet. Every
    /// event published from now on is offered to it. The numbers to hand
    /// subscriptions out under are the only limit.
    pub fn subscribe(&mut self) -> (subscription: Option<Subscription>)
        requires
            old(self).wf(),
        ensures
            final(self).wf(),
            match subscription {
                Some(s) => {
                    &&& old(self)@.issued < u64::MAX
                    &&& s@ == old(self)@.issued
                    &&& final(self)@ == old(self)@.subscribe()
                },
                None => old(self)@.issued == u64::MAX && final(self)@ == old(self)@,
            },
    {
        if self.issued == u64::MAX {
            return None;
        }
        let id = self.issued;
        let ghost before = self.slots@;
        proof {
            lemma_registered(before);
        }
        self.slots.push(Slot { id, queue: VecDeque::new(), missed: 0 });
        self.issued = id + 1;
        proof {
            let after = self.slots@;
            let fresh = after[after.len() - 1];
            assert(fresh@.queue =~= Seq::<EventModel>::empty());
            assert forall|i: int, j: int| 0 <= i < j < after.len() implies after[i].id
                != after[j].id by {
                if j == after.len() - 1 {
                    assert(before[i].id == after[i].id);
                    assert(has_slot(before, before[i].id));
                    assert(old(self)@.subscribers.contains_key(before[i].id));
                } else {
                    assert(before[i].id == after[i].id && before[j].id == after[j].id);
                }
            }
            lemma_registered(after);
            assert forall|k: u64| has_slot(after, k) <==> (has_slot(before, k) || k == id) by {
                if has_slot(after, k) {
                    let i = slot_of(after, k);
                    if i < before.len() {
                        assert(before[i].id == k);
                    }
                }
                if has_slot(before, k) {
                    let i = slot_of(before, k);
                    assert(after[i].id == k);
                }
                if k == id {
                    assert(after[after.len() - 1].id == k);
                }
            }
            assert forall|k: u64| has_slot(after, k) implies registered(after)[k] == registered(
                before,
            ).insert(id, SubscriberModel::fresh())[k] by {
                let i = slot_of(after, k);
                if i < before.len() {
                    assert(before[i] == after[i]);
                    assert(before[i].id == k);
                    assert(slot_of(before, k) == i);
                }
            }
            assert(registered(after) =~= registered(before).insert(id, SubscriberModel::fresh()));
        }
        Some(Subscription { id })
    }
}


/// Slots that keep their numbers keep the same subscribers registered.
proof fn lemma_same_numbers(before: Seq<Slot>, after: Seq<Slot>)
    requires
        distinct(before),
        after.len() == before.len(),
        forall|j: int| 0 <= j < before.len() ==> after[j].id == before[j].id,
    ensures
        distinct(after),
        forall|id: u64| has_slot(after, id) == has_slot(before, id),
        forall|id: u64| has_slot(before, id) ==> slot_of(after, id) == slot_of(before, id),
{
    assert forall|id: u64| has_slot(after, id) == has_slot(before, id) by {
        if has_slot(after, id) {
            let i = slot_of(after, id);
            assert(before[i].id == id);
        }
        if has_slot(before, id) {
            let i = slot_of(before, id);
            assert(after[i].id == id);
        }
    }
    lemma_registered(before);
    lemma_registered(after);
    assert forall|id: u64| has_slot(before, id) implies slot_of(after, id) == slot_of(
        before,
        id,
    ) by {
        let i = slot_of(before, id);
        assert(after[i].id == id);
    }
}

/// Where one slot changes and keeps its number, its subscriber changes and
/// no other.
proof fn lemma_one_changed(before: Seq<Slot>, after: Seq<Slot>, i: int)
    requires
        distinct(before),
        0 <= i < before.len(),
        after.len() == before.len(),
        forall|j: int| 0 <= j < before.len() ==> after[j].id == before[j].id,
        forall|j: int| 0 <= j < before.len() && j != i ==> after[j]@ == before[j]@,
    ensures
        distinct(after),
        registered(after) == registered(before).insert(before[i].id, after[i]@),
{
    lemma_same_numbers(before, after);
    lemma_registered(before);
    assert(registered(after) =~= registered(before).insert(before[i].id, after[i]@));
}

impl EventBus {
    /// Ends a registration. What still waited for the subscriber is dropped;
    /// no other subscriber is touched.
    pub fn unsubscribe(&mut self, subscription: Subscription)
        requires
            old(self).wf(),
        ensures
            final(self).wf(),
            final(self)@ == old(self)@.unsubscribe(subscription@),
    {
        let id = subscription.id;
        let ghost before = self.slots@;
        proof {
            lemma_registered(before);
        }
        match self.position(id) {
            Some(i) => {
                let _ = self.slots.remove(i);
                proof {
                    let after = self.slots@;
                    assert forall|k: u64| has_slot(after, k) <==> (has_slot(before, k) && k
                        != id) by {
                        if has_slot(after, k) {
                            let j = slot_of(after, k);
                            if j < i {
                                assert(before[j].id == k);
                            } else {
                                assert(before[j + 1].id == k);
                            }
                        }
                        if has_slot(before, k) && k != id {
                            let j = slot_of(before, k);
                            if j < i {
                                assert(after[j].id == k);
                            } else {
                                assert(after[j - 1].id == k);
                            }
                        }
                    }
                    assert(distinct(after)) by {
                        assert forall|a: int, b: int| 0 <= a < b < after.len() implies after[a].id
                            != after[b].id by {
                            let a0 = if a < i { a } else { a + 1 };
                            let b0 = if b < i { b } else { b + 1 };
                            assert(after[a] == before[a0] && after[b] == before[b0]);
                        }
                    }
                    lemma_registered(after);
                    assert forall|k: u64| has_slot(after, k) implies registered(after)[k]
                        == registered(before)[k] by {
                        let j = slot_of(after, k);
                        let j0 = if j < i { j } else { j + 1 };
                        assert(after[j] == before[j0]);
                        assert(before[j0].id == k);
                    }
                    assert(registered(after) =~= registered(before).remove(id));
                }
            },
            None => {
                proof {
                    assert(registered(before).remove(id) =~= registered(before));
                }
            },
        }
    }

    /// Hands `event` to every registered subscriber and returns how many
    /// there are. The publisher never waits: a full queue drops its oldest
    /// event. A closed bus takes nothing and returns zero.
    pub fn publish(&mut self, event: &Event) -> (receivers: usize)
        requires
            old(self).wf(),
        ensures
            final(self).wf(),
            final(self)@ == old(self)@.publish(event@),
            receivers == if old(self)@.closed {
                0
            } else {
                old(self)@.subscribers.len()
            },
    {
        if self.closed {
            return 0;
        }
        let count = self.slots.len();
        let ghost before = self.slots@;
        proof {
            lemma_registered(before);
            lemma_registered_len(before);
            assert forall|j: int| 0 <= j < before.len() implies (#[trigger] before[j])@.queue.len()
                <= self.capacity by {
                assert(old(self)@.subscribers.contains_key(before[j].id));
            }
        }
        let mut i: usize = 0;
        while i < count
            invariant
                i <= count,
                count == before.len(),
                self.slots.len() == count,
                self.capacity == old(self).capacity,
                self.closed == old(self).closed,
                self.issued == old(self).issued,
                self.capacity >= 1,
                forall|j: int| 0 <= j < count ==> (#[trigger] self.slots[j]).id == before[j].id,
                forall|j: int|
                    0 <= j < i ==> (#[trigger] self.slots[j])@ == before[j]@.offer(
                        event@,
                        self.capacity as nat,
                    ),
                forall|j: int| i <= j < count ==> (#[trigger] self.slots[j])@ == before[j]@,
                forall|j: int|
                    0 <= j < count ==> (#[trigger] before[j])@.queue.len() <= self.capacity,
            decreases count - i,
        {
            let ghost slot = self.slots[i as int];
            assert(slot@ == before[i as int]@);
            if self.slots[i].queue.len() >= self.capacity {
                let _ = self.slots[i].queue.pop_front();
                let missed = self.slots[i].missed;
                self.slots[i].missed = if missed < u64::MAX {
                    missed + 1
                } else {
                    missed
                };
            }
            self.slots[i].queue.push_back(event.duplicate());
            proof {
                let now = self.slots[i as int];
                let want = before[i as int]@.offer(event@, self.capacity as nat);
                assert(now@.queue =~= want.queue);
            }
            i += 1;
        }
        proof {
            let after = self.slots@;
            lemma_same_numbers(before, after);
            assert(registered(after) =~= old(self)@.publish(event@).subscribers);
            assert(registered(after).dom() =~= registered(before).dom());
            assert forall|id: u64| #[trigger]
                self@.subscribers.contains_key(id) implies id < self@.issued
                && self@.subscribers[id].queue.len() <= self@.capacity by {
                assert(old(self)@.subscribers.contains_key(id));
            }
        }
        count
    }

    /// Whether a read would give the subscriber anything but `Empty`.
    pub fn has_news(&self, subscription: &Subscription) -> (news: bool)
        requires
            self.wf(),
        ensures
            news == !(self@.next(subscription@) is Empty),
    {
        proof {
            lemma_registered(self.slots@);
        }
        match self.position(subscription.id) {
            Some(i) => self.slots[i].missed > 0 || self.slots[i].queue.len() > 0 || self.closed,
            None => true,
        }
    }

    /// Reads once for a subscriber: what it missed, if anything; else the
    /// oldest event that waits for it; else that nothing waits, or that
    /// nothing will come.
    pub fn receive(&mut self, subscription: &Subscription) -> (delivery: Delivery)
        requires
            old(self).wf(),
        ensures
            final(self).wf(),
            delivery@ == old(self)@.next(subscription@),
            final(self)@ == old(self)@.advance(subscription@),
    {
        let id = subscription.id;
        let ghost before = self.slots@;
        proof {
            lemma_registered(before);
        }
        let i = match self.position(id) {
            Some(i) => i,
            None => {
                return Delivery::Closed;
            },
        };
        let delivery = if self.slots[i].missed > 0 {
            let missed = self.slots[i].missed;
            self.slots[i].missed = 0;
            Delivery::Lagged(missed)
        } else {
            match self.slots[i].queue.pop_front() {
                Some(event) => Delivery::Event(event),
                None => if self.closed {
                    Delivery::Closed
                } else {
                    Delivery::Empty
                },
            }
        };
        proof {
            let after = self.slots@;
            assert(after[i as int]@.queue =~= before[i as int]@.advance().queue);
            lemma_one_changed(before, after, i as int);
            assert(old(self)@.subscribers.contains_key(id));
            if before[i as int]@.missed == 0 && before[i as int]@.queue.len() == 0 {
                assert(after[i as int]@ == before[i as int]@);
                assert(registered(before).insert(id, before[i as int]@) =~= registered(before));
            }
        }
        delivery
    }
}

} // verus!
