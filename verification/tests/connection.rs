use splitcast::acceptor::{loopback_address, Acceptor};
use splitcast::bus::EventBus;
use splitcast::connection::{Action, Connection, Inbound, Input, Phase, KEEP_ALIVE_SECONDS};
use splitcast::event::Event;
use splitcast::wire::{decode, encode};

fn active(bus: &mut EventBus, peer: &str, now: u64) -> Connection {
    let mut connection = Connection::new(peer.to_string());
    let greeting = connection.step(bus, Input::Upgraded { now });
    assert_eq!(greeting, Action::Send(encode(&Event::Heartbeat { timestamp: now })));
    assert_eq!(connection.step(bus, Input::Written), Action::Idle);
    assert_eq!(connection.phase(), Phase::Active);
    connection
}

fn sent(action: Action) -> Event {
    match action {
        Action::Send(text) => decode(&text).unwrap(),
        other => panic!("no frame: {:?}", other),
    }
}

#[test]
fn a_client_is_greeted_with_one_heartbeat() {
    let mut bus = EventBus::new();
    let mut connection = Connection::new("127.0.0.1:50000".to_string());
    assert_eq!(connection.peer(), "127.0.0.1:50000");
    assert_eq!(connection.phase(), Phase::Handshaking);
    assert_eq!(connection.subscription_id(), None);
    assert_eq!(connection.step(&mut bus, Input::Tick { now: 1 }), Action::Idle);
    assert_eq!(connection.step(&mut bus, Input::Relay), Action::Idle);

    bus.publish(&Event::Started { timestamp: 10 });
    let greeting = connection.step(&mut bus, Input::Upgraded { now: 1700000000123 });
    assert_eq!(
        greeting,
        Action::Send("{\"type\":\"heartbeat\",\"timestamp\":1700000000123}".to_string())
    );
    assert_eq!(connection.phase(), Phase::Handshaking);
    assert_eq!(bus.subscriber_count(), 1);
    bus.publish(&Event::Paused { timestamp: 11 });
    assert_eq!(connection.step(&mut bus, Input::Relay), Action::Idle);
    assert_eq!(connection.step(&mut bus, Input::Upgraded { now: 5 }), Action::Idle);

    assert_eq!(connection.step(&mut bus, Input::Written), Action::Idle);
    assert_eq!(connection.phase(), Phase::Active);
    assert_eq!(sent(connection.step(&mut bus, Input::Relay)), Event::Paused { timestamp: 11 });
    assert_eq!(connection.step(&mut bus, Input::Relay), Action::Idle);
}

#[test]
fn a_failed_upgrade_is_discarded() {
    let mut bus = EventBus::new();
    let other = active(&mut bus, "a", 1);
    let mut connection = Connection::new("b".to_string());
    assert_eq!(connection.step(&mut bus, Input::UpgradeFailed), Action::Discard);
    assert_eq!(connection.phase(), Phase::Closed);
    assert_eq!(bus.subscriber_count(), 1);
    assert_eq!(connection.step(&mut bus, Input::Upgraded { now: 2 }), Action::Idle);
    assert_eq!(connection.step(&mut bus, Input::Finished), Action::Idle);
    assert_eq!(connection.phase(), Phase::Closed);
    assert_eq!(other.phase(), Phase::Active);
}

#[test]
fn a_greeting_that_cannot_be_written_closes_at_once() {
    let mut bus = EventBus::new();
    let mut connection = Connection::new("c".to_string());
    let _ = connection.step(&mut bus, Input::Upgraded { now: 3 });
    assert_eq!(bus.subscriber_count(), 1);
    assert_eq!(connection.step(&mut bus, Input::WriteFailed), Action::Discard);
    assert_eq!(connection.phase(), Phase::Closed);
    assert_eq!(connection.subscription_id(), None);
    assert_eq!(bus.subscriber_count(), 0);
    assert_eq!(connection.step(&mut bus, Input::Tick { now: 4 }), Action::Idle);
}

#[test]
fn every_tick_sends_a_heartbeat() {
    let mut bus = EventBus::new();
    let mut connection = active(&mut bus, "d", 0);
    for now in [30000u64, 60000, 90000] {
        assert_eq!(
            connection.step(&mut bus, Input::Tick { now }),
            Action::Send(encode(&Event::Heartbeat { timestamp: now }))
        );
        assert_eq!(connection.step(&mut bus, Input::Written), Action::Idle);
    }
    assert_eq!(connection.phase(), Phase::Active);
}

#[test]
fn events_are_relayed_in_order() {
    let mut bus = EventBus::new();
    let mut connection = active(&mut bus, "e", 0);
    let events = vec![
        Event::Started { timestamp: 1 },
        Event::Split { index: 0, name: "Tutorial \"1\"".to_string(), timestamp: 2 },
        Event::SplitUndone { timestamp: 3 },
        Event::SplitSkipped { timestamp: 4 },
        Event::Reset { timestamp: 5 },
    ];
    for event in &events {
        bus.publish(event);
    }
    for event in &events {
        assert_eq!(connection.step(&mut bus, Input::Relay), Action::Send(encode(event)));
    }
    assert_eq!(connection.step(&mut bus, Input::Relay), Action::Idle);
}

#[test]
fn what_the_client_sends_is_ignored() {
    let mut bus = EventBus::new();
    let mut connection = active(&mut bus, "f", 0);
    assert_eq!(connection.step(&mut bus, Input::Received(Inbound::Text)), Action::Idle);
    assert_eq!(connection.step(&mut bus, Input::Received(Inbound::Other)), Action::Idle);
    assert_eq!(connection.phase(), Phase::Active);
    assert_eq!(bus.subscriber_count(), 1);
}

#[test]
fn a_failed_write_tears_the_connection_down() {
    let mut bus = EventBus::new();
    let mut connection = active(&mut bus, "g", 0);
    let _ = connection.step(&mut bus, Input::Tick { now: 30000 });
    assert_eq!(connection.step(&mut bus, Input::WriteFailed), Action::Shutdown);
    assert_eq!(connection.phase(), Phase::Closing);
    assert_eq!(bus.subscriber_count(), 0);

    bus.publish(&Event::Started { timestamp: 1 });
    let later = [
        Input::Tick { now: 60000 },
        Input::Relay,
        Input::WriteFailed,
        Input::Written,
        Input::Received(Inbound::Close),
        Input::Received(Inbound::Failed),
        Input::Upgraded { now: 7 },
        Input::UpgradeFailed,
    ];
    for input in later {
        assert_eq!(connection.step(&mut bus, input), Action::Idle);
        assert_eq!(connection.phase(), Phase::Closing);
    }
    assert_eq!(connection.step(&mut bus, Input::Finished), Action::Idle);
    assert_eq!(connection.phase(), Phase::Closed);
    for input in later {
        assert_eq!(connection.step(&mut bus, input), Action::Idle);
        assert_eq!(connection.phase(), Phase::Closed);
    }
}

#[test]
fn a_disconnect_gives_the_subscription_back() {
    let mut bus = EventBus::new();
    let mut stays = active(&mut bus, "h", 0);
    let before = bus.subscriber_count();
    let mut leaves = active(&mut bus, "i", 0);
    assert_eq!(bus.subscriber_count(), before + 1);
    assert_eq!(leaves.step(&mut bus, Input::Received(Inbound::Close)), Action::Shutdown);
    assert_eq!(bus.subscriber_count(), before);
    assert_eq!(leaves.step(&mut bus, Input::Finished), Action::Idle);
    assert_eq!(leaves.phase(), Phase::Closed);
    assert_eq!(bus.subscriber_count(), before);

    assert_eq!(bus.publish(&Event::Resumed { timestamp: 9 }), 1);
    assert_eq!(sent(stays.step(&mut bus, Input::Relay)), Event::Resumed { timestamp: 9 });
    assert_eq!(leaves.step(&mut bus, Input::Relay), Action::Idle);
}

#[test]
fn a_read_failure_ends_the_session() {
    let mut bus = EventBus::new();
    let mut connection = active(&mut bus, "j", 0);
    assert_eq!(connection.step(&mut bus, Input::Received(Inbound::Failed)), Action::Shutdown);
    assert_eq!(connection.phase(), Phase::Closing);
    assert_eq!(connection.step(&mut bus, Input::Received(Inbound::Failed)), Action::Idle);
}

#[test]
fn a_closed_bus_ends_the_relay() {
    let mut bus = EventBus::new();
    let mut connection = active(&mut bus, "k", 0);
    bus.publish(&Event::Started { timestamp: 1 });
    bus.close();
    assert_eq!(sent(connection.step(&mut bus, Input::Relay)), Event::Started { timestamp: 1 });
    assert_eq!(connection.step(&mut bus, Input::Relay), Action::Shutdown);
    assert_eq!(connection.phase(), Phase::Closing);
}

#[test]
fn a_slow_client_loses_events_and_nobody_else_does() {
    let mut bus = EventBus::with_capacity(3).unwrap();
    let mut slow = active(&mut bus, "slow", 0);
    let mut quick = active(&mut bus, "quick", 0);
    for n in 1..=10u64 {
        bus.publish(&Event::Heartbeat { timestamp: n });
        assert_eq!(sent(quick.step(&mut bus, Input::Relay)), Event::Heartbeat { timestamp: n });
    }
    assert_eq!(quick.step(&mut bus, Input::Relay), Action::Idle);

    assert_eq!(slow.step(&mut bus, Input::Relay), Action::Idle);
    assert_eq!(slow.phase(), Phase::Active);
    for n in 8..=10u64 {
        assert_eq!(sent(slow.step(&mut bus, Input::Relay)), Event::Heartbeat { timestamp: n });
    }
    assert_eq!(slow.step(&mut bus, Input::Relay), Action::Idle);
    assert_eq!(bus.subscriber_count(), 2);
}

#[test]
fn the_server_answers_with_its_address() {
    let started = Acceptor::start(0, Ok(54321)).unwrap();
    assert_eq!(started.port(), 54321);
    assert_eq!(started.address(), "127.0.0.1:54321");
    assert_eq!(started.confirmation(), "WebSocket server listening on ws://127.0.0.1:54321");
    assert!(started.confirmation().contains("54321"));
    assert!(started.is_accepting());
}

#[test]
fn a_port_in_use_is_a_bind_error() {
    let first = Acceptor::start(8080, Ok(8080));
    assert!(first.is_ok());
    let second = Acceptor::start(8080, Err("Address already in use (os error 98)".to_string()));
    let error = second.unwrap_err();
    assert_eq!(error.address(), "127.0.0.1:8080");
    assert_eq!(error.cause(), "Address already in use (os error 98)");
    assert_eq!(
        error.message(),
        "cannot listen on 127.0.0.1:8080: Address already in use (os error 98)"
    );
    assert!(first.unwrap().is_accepting());
}

#[test]
fn the_loopback_address_names_the_port() {
    assert_eq!(loopback_address(0), "127.0.0.1:0");
    assert_eq!(loopback_address(9), "127.0.0.1:9");
    assert_eq!(loopback_address(80), "127.0.0.1:80");
    assert_eq!(loopback_address(65535), "127.0.0.1:65535");
}

#[test]
fn every_client_gets_a_connection_of_its_own() {
    let mut bus = EventBus::new();
    let mut acceptor = Acceptor::start(9000, Ok(9000)).unwrap();
    let mut bad = acceptor.accept("127.0.0.1:1".to_string()).unwrap();
    let mut good = acceptor.accept("127.0.0.1:2".to_string()).unwrap();
    assert_eq!(bad.peer(), "127.0.0.1:1");
    assert_eq!(good.peer(), "127.0.0.1:2");
    assert_eq!(bad.step(&mut bus, Input::UpgradeFailed), Action::Discard);
    assert!(acceptor.is_accepting());
    assert_eq!(
        good.step(&mut bus, Input::Upgraded { now: 1 }),
        Action::Send(encode(&Event::Heartbeat { timestamp: 1 }))
    );

    acceptor.listener_failed();
    assert!(!acceptor.is_accepting());
    assert_eq!(acceptor.port(), 9000);
    assert!(acceptor.accept("127.0.0.1:3".to_string()).is_none());
    assert_eq!(good.step(&mut bus, Input::Written), Action::Idle);
    assert_eq!(good.phase(), Phase::Active);
}

#[test]
fn heartbeats_come_every_thirty_seconds() {
    assert_eq!(KEEP_ALIVE_SECONDS, 30);
}

#[test]
fn a_relay_has_work_while_something_waits() {
    let mut bus = EventBus::with_capacity(2).unwrap();
    let mut connection = Connection::new("l".to_string());
    assert!(!connection.has_work(&bus));
    let _ = connection.step(&mut bus, Input::Upgraded { now: 0 });
    bus.publish(&Event::Started { timestamp: 1 });
    assert!(!connection.has_work(&bus));
    let _ = connection.step(&mut bus, Input::Written);
    assert!(connection.has_work(&bus));
    let _ = connection.step(&mut bus, Input::Relay);
    assert!(!connection.has_work(&bus));
    for n in 2..=4u64 {
        bus.publish(&Event::Heartbeat { timestamp: n });
    }
    assert!(connection.has_work(&bus));
    assert_eq!(connection.step(&mut bus, Input::Relay), Action::Idle);
    assert!(connection.has_work(&bus));
    let _ = connection.step(&mut bus, Input::Relay);
    let _ = connection.step(&mut bus, Input::Relay);
    assert!(!connection.has_work(&bus));
    bus.close();
    assert!(connection.has_work(&bus));
    assert_eq!(connection.step(&mut bus, Input::Relay), Action::Shutdown);
    assert!(!connection.has_work(&bus));
}
