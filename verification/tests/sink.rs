use splitcast::bus::{Delivery, EventBus};
use splitcast::command::{Command, TimeSpan, TimingMethod};
use splitcast::connection::{Action, Connection, Input};
use splitcast::event::Event;
use splitcast::sink::{event_for, CommandSink};

fn client(bus: &mut EventBus, peer: &str) -> Connection {
    let mut connection = Connection::new(peer.to_string());
    let _ = connection.step(bus, Input::Upgraded { now: 0 });
    let _ = connection.step(bus, Input::Written);
    connection
}

#[test]
fn start_reaches_every_client_once() {
    let mut bus = EventBus::new();
    let mut first = client(&mut bus, "a");
    let mut second = client(&mut bus, "b");
    let sink = CommandSink::new(true);
    let done = sink.start(&mut bus, 1700000000000);
    assert_eq!(done.notification, Command::Start);
    assert_eq!(done.receivers, 2);
    for connection in [&mut first, &mut second] {
        assert_eq!(
            connection.step(&mut bus, Input::Relay),
            Action::Send("{\"type\":\"start\",\"timestamp\":1700000000000}".to_string())
        );
        assert_eq!(connection.step(&mut bus, Input::Relay), Action::Idle);
    }
}

#[test]
fn a_split_carries_its_index_and_name() {
    let mut bus = EventBus::new();
    let sub = bus.subscribe().unwrap();
    let sink = CommandSink::new(true);
    let done = sink.split(&mut bus, 3, "Lava Cave", 77);
    assert_eq!(done.notification, Command::Split);
    assert_eq!(done.receivers, 1);
    let done = sink.split_or_start(&mut bus, 4, "Final Boss", 78);
    assert_eq!(done.notification, Command::SplitOrStart);
    assert_eq!(
        bus.receive(&sub),
        Delivery::Event(Event::Split { index: 3, name: "Lava Cave".to_string(), timestamp: 77 })
    );
    assert_eq!(
        bus.receive(&sub),
        Delivery::Event(Event::Split { index: 4, name: "Final Boss".to_string(), timestamp: 78 })
    );
    assert_eq!(bus.receive(&sub), Delivery::Empty);
}

#[test]
fn each_transition_has_its_event() {
    let mut bus = EventBus::new();
    let sub = bus.subscribe().unwrap();
    let sink = CommandSink::new(true);
    assert_eq!(sink.reset(&mut bus, Some(true), 1).notification, Command::Reset { save_attempt: Some(true) });
    assert_eq!(sink.reset(&mut bus, None, 2).notification, Command::Reset { save_attempt: None });
    assert_eq!(sink.undo_split(&mut bus, 3).notification, Command::UndoSplit);
    assert_eq!(sink.skip_split(&mut bus, 4).notification, Command::SkipSplit);
    assert_eq!(sink.pause(&mut bus, 5).notification, Command::Pause);
    assert_eq!(sink.resume(&mut bus, 6).notification, Command::Resume);
    let expected = [
        Event::Reset { timestamp: 1 },
        Event::Reset { timestamp: 2 },
        Event::SplitUndone { timestamp: 3 },
        Event::SplitSkipped { timestamp: 4 },
        Event::Paused { timestamp: 5 },
        Event::Resumed { timestamp: 6 },
    ];
    for event in expected {
        assert_eq!(bus.receive(&sub), Delivery::Event(event));
    }
    assert_eq!(bus.receive(&sub), Delivery::Empty);
}

#[test]
fn other_actions_only_notify() {
    let sink = CommandSink::new(true);
    let time = TimeSpan { seconds: 12, nanoseconds: 500 };
    assert_eq!(sink.toggle_pause_or_start(), Command::TogglePauseOrStart);
    assert_eq!(sink.undo_all_pauses(), Command::UndoAllPauses);
    assert_eq!(sink.switch_to_previous_comparison(), Command::SwitchToPreviousComparison);
    assert_eq!(sink.switch_to_next_comparison(), Command::SwitchToNextComparison);
    assert_eq!(
        sink.set_current_comparison("Personal Best"),
        Command::SetCurrentComparison { comparison: "Personal Best".to_string() }
    );
    assert_eq!(sink.toggle_timing_method(), Command::ToggleTimingMethod);
    assert_eq!(
        sink.set_current_timing_method(TimingMethod::GameTime),
        Command::SetCurrentTimingMethod { timing_method: TimingMethod::GameTime }
    );
    assert_eq!(sink.initialize_game_time(), Command::InitializeGameTime);
    assert_eq!(sink.set_game_time(time), Command::SetGameTime { time });
    assert_eq!(sink.pause_game_time(), Command::PauseGameTime);
    assert_eq!(sink.resume_game_time(), Command::ResumeGameTime);
    assert_eq!(sink.set_loading_times(time), Command::SetLoadingTimes { time });
    assert_eq!(
        sink.set_custom_variable("deaths", "3"),
        Command::SetCustomVariable { key: "deaths".to_string(), value: "3".to_string() }
    );
}

#[test]
fn dispatch_publishes_nothing_for_actions_without_an_event() {
    let mut bus = EventBus::new();
    let sub = bus.subscribe().unwrap();
    let sink = CommandSink::new(true);
    let quiet = vec![
        Command::TogglePauseOrStart,
        Command::UndoAllPauses,
        Command::SwitchToPreviousComparison,
        Command::SwitchToNextComparison,
        Command::SetCurrentComparison { comparison: "x".to_string() },
        Command::ToggleTimingMethod,
        Command::SetCurrentTimingMethod { timing_method: TimingMethod::RealTime },
        Command::InitializeGameTime,
        Command::SetGameTime { time: TimeSpan { seconds: 1, nanoseconds: 0 } },
        Command::PauseGameTime,
        Command::ResumeGameTime,
        Command::SetLoadingTimes { time: TimeSpan { seconds: -1, nanoseconds: 0 } },
        Command::SetCustomVariable { key: "k".to_string(), value: "v".to_string() },
    ];
    for command in quiet {
        assert_eq!(event_for(&command, 1, "name", 5), None);
        let done = sink.dispatch(&mut bus, command.clone(), 1, "name", 5);
        assert_eq!(done.notification, command);
        assert_eq!(done.receivers, 0);
        assert_eq!(bus.receive(&sub), Delivery::Empty);
    }
}

#[test]
fn the_event_of_each_command() {
    assert_eq!(event_for(&Command::Start, 1, "n", 9), Some(Event::Started { timestamp: 9 }));
    assert_eq!(
        event_for(&Command::Split, 1, "n", 9),
        Some(Event::Split { index: 1, name: "n".to_string(), timestamp: 9 })
    );
    assert_eq!(
        event_for(&Command::SplitOrStart, 2, "m", 9),
        Some(Event::Split { index: 2, name: "m".to_string(), timestamp: 9 })
    );
    assert_eq!(
        event_for(&Command::Reset { save_attempt: Some(false) }, 1, "n", 9),
        Some(Event::Reset { timestamp: 9 })
    );
    assert_eq!(event_for(&Command::UndoSplit, 1, "n", 9), Some(Event::SplitUndone { timestamp: 9 }));
    assert_eq!(event_for(&Command::SkipSplit, 1, "n", 9), Some(Event::SplitSkipped { timestamp: 9 }));
    assert_eq!(event_for(&Command::Pause, 1, "n", 9), Some(Event::Paused { timestamp: 9 }));
    assert_eq!(event_for(&Command::Resume, 1, "n", 9), Some(Event::Resumed { timestamp: 9 }));
}

#[test]
fn a_sink_without_broadcast_only_notifies() {
    let mut bus = EventBus::new();
    let sub = bus.subscribe().unwrap();
    let sink = CommandSink::new(false);
    assert!(!sink.is_broadcasting());
    assert!(CommandSink::new(true).is_broadcasting());
    let done = sink.start(&mut bus, 1);
    assert_eq!(done.notification, Command::Start);
    assert_eq!(done.receivers, 0);
    let done = sink.split(&mut bus, 0, "One", 2);
    assert_eq!(done.notification, Command::Split);
    assert_eq!(done.receivers, 0);
    assert_eq!(bus.receive(&sub), Delivery::Empty);
}

#[test]
fn start_without_clients_succeeds() {
    let mut bus = EventBus::new();
    let sink = CommandSink::new(true);
    let done = sink.start(&mut bus, 1);
    assert_eq!(done.notification, Command::Start);
    assert_eq!(done.receivers, 0);
    assert_eq!(bus.subscriber_count(), 0);
}
