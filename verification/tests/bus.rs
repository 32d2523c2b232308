use splitcast::bus::{Delivery, EventBus, DEFAULT_CAPACITY};
use splitcast::event::Event;

fn numbered(n: u64) -> Event {
    Event::Heartbeat { timestamp: n }
}

#[test]
fn publishing_to_nobody_is_a_no_op() {
    let mut bus = EventBus::new();
    for n in 0..1000u64 {
        assert_eq!(bus.publish(&numbered(n)), 0);
    }
    assert_eq!(bus.subscriber_count(), 0);
    let late = bus.subscribe().unwrap();
    assert_eq!(bus.receive(&late), Delivery::Empty);
}

#[test]
fn a_new_subscription_has_no_backlog() {
    let mut bus = EventBus::new();
    bus.publish(&numbered(1));
    let sub = bus.subscribe().unwrap();
    assert_eq!(bus.receive(&sub), Delivery::Empty);
    bus.publish(&numbered(2));
    assert_eq!(bus.receive(&sub), Delivery::Event(numbered(2)));
    assert_eq!(bus.receive(&sub), Delivery::Empty);
}

#[test]
fn every_subscriber_reads_in_publication_order() {
    let mut bus = EventBus::new();
    let a = bus.subscribe().unwrap();
    let b = bus.subscribe().unwrap();
    let events = vec![
        Event::Started { timestamp: 1 },
        Event::Split { index: 0, name: "One".to_string(), timestamp: 2 },
        Event::Paused { timestamp: 3 },
        Event::Resumed { timestamp: 4 },
        Event::Split { index: 1, name: "Two".to_string(), timestamp: 5 },
        Event::Reset { timestamp: 6 },
    ];
    for event in &events {
        assert_eq!(bus.publish(event), 2);
    }
    for event in &events {
        assert_eq!(bus.receive(&a), Delivery::Event(event.clone()));
    }
    for event in &events {
        assert_eq!(bus.receive(&b), Delivery::Event(event.clone()));
    }
    assert_eq!(bus.receive(&a), Delivery::Empty);
    assert_eq!(bus.receive(&b), Delivery::Empty);
}

#[test]
fn reads_and_publications_may_alternate() {
    let mut bus = EventBus::with_capacity(4).unwrap();
    let sub = bus.subscribe().unwrap();
    bus.publish(&numbered(1));
    bus.publish(&numbered(2));
    assert_eq!(bus.receive(&sub), Delivery::Event(numbered(1)));
    bus.publish(&numbered(3));
    assert_eq!(bus.receive(&sub), Delivery::Event(numbered(2)));
    assert_eq!(bus.receive(&sub), Delivery::Event(numbered(3)));
    assert_eq!(bus.receive(&sub), Delivery::Empty);
}

#[test]
fn a_full_queue_drops_its_oldest_event() {
    let mut bus = EventBus::with_capacity(3).unwrap();
    let slow = bus.subscribe().unwrap();
    for n in 1..=4u64 {
        bus.publish(&numbered(n));
    }
    assert_eq!(bus.receive(&slow), Delivery::Lagged(1));
    assert_eq!(bus.receive(&slow), Delivery::Event(numbered(2)));
    assert_eq!(bus.receive(&slow), Delivery::Event(numbered(3)));
    assert_eq!(bus.receive(&slow), Delivery::Event(numbered(4)));
    assert_eq!(bus.receive(&slow), Delivery::Empty);
}

#[test]
fn missed_events_are_counted() {
    let mut bus = EventBus::with_capacity(2).unwrap();
    let slow = bus.subscribe().unwrap();
    for n in 1..=7u64 {
        bus.publish(&numbered(n));
    }
    assert_eq!(bus.receive(&slow), Delivery::Lagged(5));
    assert_eq!(bus.receive(&slow), Delivery::Event(numbered(6)));
    bus.publish(&numbered(8));
    assert_eq!(bus.receive(&slow), Delivery::Event(numbered(7)));
    assert_eq!(bus.receive(&slow), Delivery::Event(numbered(8)));
    assert_eq!(bus.receive(&slow), Delivery::Empty);
}

#[test]
fn overflow_of_one_subscriber_leaves_the_others_alone() {
    let mut bus = EventBus::with_capacity(2).unwrap();
    let slow = bus.subscribe().unwrap();
    let quick = bus.subscribe().unwrap();
    for n in 1..=5u64 {
        assert_eq!(bus.publish(&numbered(n)), 2);
        assert_eq!(bus.receive(&quick), Delivery::Event(numbered(n)));
    }
    assert_eq!(bus.receive(&quick), Delivery::Empty);
    assert_eq!(bus.receive(&slow), Delivery::Lagged(3));
    assert_eq!(bus.receive(&slow), Delivery::Event(numbered(4)));
    assert_eq!(bus.receive(&slow), Delivery::Event(numbered(5)));
    assert_eq!(bus.receive(&slow), Delivery::Empty);
}

#[test]
fn the_default_queue_holds_a_hundred_events() {
    assert_eq!(DEFAULT_CAPACITY, 100);
    let mut bus = EventBus::new();
    assert_eq!(bus.capacity(), 100);
    let sub = bus.subscribe().unwrap();
    for n in 0..100u64 {
        bus.publish(&numbered(n));
    }
    assert_eq!(bus.receive(&sub), Delivery::Event(numbered(0)));
    for n in 100..102u64 {
        bus.publish(&numbered(n));
    }
    assert_eq!(bus.receive(&sub), Delivery::Lagged(1));
    for n in 2..102u64 {
        assert_eq!(bus.receive(&sub), Delivery::Event(numbered(n)));
    }
    assert_eq!(bus.receive(&sub), Delivery::Empty);
}

#[test]
fn a_queue_without_room_is_refused() {
    assert!(EventBus::with_capacity(0).is_none());
    let bus = EventBus::with_capacity(1).unwrap();
    assert_eq!(bus.capacity(), 1);
    assert!(!bus.is_closed());
}

#[test]
fn a_queue_of_one_keeps_the_newest_event() {
    let mut bus = EventBus::with_capacity(1).unwrap();
    let sub = bus.subscribe().unwrap();
    bus.publish(&numbered(1));
    bus.publish(&numbered(2));
    assert_eq!(bus.receive(&sub), Delivery::Lagged(1));
    assert_eq!(bus.receive(&sub), Delivery::Event(numbered(2)));
}

#[test]
fn subscriptions_are_numbered_in_turn() {
    let mut bus = EventBus::new();
    let a = bus.subscribe().unwrap();
    let b = bus.subscribe().unwrap();
    assert_eq!(a.id(), 0);
    assert_eq!(b.id(), 1);
    bus.unsubscribe(a);
    let c = bus.subscribe().unwrap();
    assert_eq!(c.id(), 2);
    assert_eq!(bus.subscriber_count(), 2);
}

#[test]
fn unsubscribing_gives_the_count_back() {
    let mut bus = EventBus::new();
    let stays = bus.subscribe().unwrap();
    let before = bus.subscriber_count();
    let leaves = bus.subscribe().unwrap();
    assert_eq!(bus.subscriber_count(), before + 1);
    bus.publish(&numbered(1));
    bus.unsubscribe(leaves);
    assert_eq!(bus.subscriber_count(), before);
    assert_eq!(bus.publish(&numbered(2)), 1);
    assert_eq!(bus.receive(&stays), Delivery::Event(numbered(1)));
    assert_eq!(bus.receive(&stays), Delivery::Event(numbered(2)));
}

#[test]
fn a_stranger_reads_nothing() {
    let mut bus = EventBus::new();
    let mut other = EventBus::new();
    let _first = other.subscribe().unwrap();
    let stranger = other.subscribe().unwrap();
    let own = bus.subscribe().unwrap();
    bus.publish(&numbered(1));
    assert_eq!(bus.receive(&stranger), Delivery::Closed);
    assert_eq!(bus.receive(&own), Delivery::Event(numbered(1)));
    assert_eq!(bus.subscriber_count(), 1);
}

#[test]
fn a_closed_bus_is_read_to_the_end() {
    let mut bus = EventBus::new();
    let sub = bus.subscribe().unwrap();
    bus.publish(&numbered(1));
    bus.close();
    assert!(bus.is_closed());
    assert_eq!(bus.publish(&numbered(2)), 0);
    assert_eq!(bus.receive(&sub), Delivery::Event(numbered(1)));
    assert_eq!(bus.receive(&sub), Delivery::Closed);
    assert_eq!(bus.receive(&sub), Delivery::Closed);
}

#[test]
fn news_is_anything_but_an_empty_queue() {
    let mut bus = EventBus::with_capacity(1).unwrap();
    let mut other = EventBus::new();
    let _first = other.subscribe().unwrap();
    let stranger = other.subscribe().unwrap();
    let sub = bus.subscribe().unwrap();
    assert!(!bus.has_news(&sub));
    assert!(bus.has_news(&stranger));
    bus.publish(&numbered(1));
    assert!(bus.has_news(&sub));
    bus.publish(&numbered(2));
    assert_eq!(bus.receive(&sub), Delivery::Lagged(1));
    assert!(bus.has_news(&sub));
    assert_eq!(bus.receive(&sub), Delivery::Event(numbered(2)));
    assert!(!bus.has_news(&sub));
    bus.close();
    assert!(bus.has_news(&sub));
}

#[test]
fn order_holds_while_others_come_and_go() {
    let mut bus = EventBus::with_capacity(8).unwrap();
    let stays = bus.subscribe().unwrap();
    bus.publish(&numbered(1));
    let guest = bus.subscribe().unwrap();
    bus.publish(&numbered(2));
    assert_eq!(bus.receive(&stays), Delivery::Event(numbered(1)));
    assert_eq!(bus.receive(&guest), Delivery::Event(numbered(2)));
    bus.unsubscribe(guest);
    bus.publish(&numbered(3));
    let late = bus.subscribe().unwrap();
    bus.publish(&numbered(4));
    assert_eq!(bus.receive(&stays), Delivery::Event(numbered(2)));
    assert_eq!(bus.receive(&stays), Delivery::Event(numbered(3)));
    assert_eq!(bus.receive(&stays), Delivery::Event(numbered(4)));
    assert_eq!(bus.receive(&stays), Delivery::Empty);
    assert_eq!(bus.receive(&late), Delivery::Event(numbered(4)));
    assert_eq!(bus.receive(&late), Delivery::Empty);
}
