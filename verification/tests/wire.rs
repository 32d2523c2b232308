use splitcast::event::{Event, EventKind};
use splitcast::wire::{decode, encode, kind_tag};

fn all_plain(timestamp: u64) -> Vec<Event> {
    vec![
        Event::Heartbeat { timestamp },
        Event::Started { timestamp },
        Event::Reset { timestamp },
        Event::Paused { timestamp },
        Event::Resumed { timestamp },
        Event::SplitUndone { timestamp },
        Event::SplitSkipped { timestamp },
    ]
}

#[test]
fn heartbeat_frame_is_exact() {
    let text = encode(&Event::Heartbeat { timestamp: 1700000000000 });
    assert_eq!(text, "{\"type\":\"heartbeat\",\"timestamp\":1700000000000}");
}

#[test]
fn split_frame_is_exact() {
    let event = Event::Split { index: 2, name: "Boss".to_string(), timestamp: 42 };
    assert_eq!(
        encode(&event),
        "{\"type\":\"split\",\"split_index\":2,\"split_name\":\"Boss\",\"timestamp\":42}"
    );
}

#[test]
fn every_kind_has_its_tag() {
    assert_eq!(encode(&Event::Started { timestamp: 0 }), "{\"type\":\"start\",\"timestamp\":0}");
    assert_eq!(encode(&Event::Reset { timestamp: 1 }), "{\"type\":\"reset\",\"timestamp\":1}");
    assert_eq!(encode(&Event::Paused { timestamp: 2 }), "{\"type\":\"pause\",\"timestamp\":2}");
    assert_eq!(encode(&Event::Resumed { timestamp: 3 }), "{\"type\":\"resume\",\"timestamp\":3}");
    assert_eq!(
        encode(&Event::SplitUndone { timestamp: 4 }),
        "{\"type\":\"undo_split\",\"timestamp\":4}"
    );
    assert_eq!(
        encode(&Event::SplitSkipped { timestamp: 5 }),
        "{\"type\":\"skip_split\",\"timestamp\":5}"
    );
    assert_eq!(kind_tag(EventKind::Heartbeat), "heartbeat");
    assert_eq!(kind_tag(EventKind::Split), "split");
}

#[test]
fn largest_numbers_are_written_in_full() {
    let event = Event::Split { index: u32::MAX, name: String::new(), timestamp: u64::MAX };
    assert_eq!(
        encode(&event),
        "{\"type\":\"split\",\"split_index\":4294967295,\"split_name\":\"\",\"timestamp\":18446744073709551615}"
    );
    assert_eq!(decode(&encode(&event)), Some(event));
}

#[test]
fn special_characters_are_escaped() {
    let name = "a\"b\\c\n\r\t\u{8}\u{c}\u{0}\u{1b}\u{1f}\u{7f}é✓".to_string();
    let event = Event::Split { index: 0, name, timestamp: 7 };
    assert_eq!(
        encode(&event),
        "{\"type\":\"split\",\"split_index\":0,\"split_name\":\"a\\\"b\\\\c\\n\\r\\t\\b\\f\\u0000\\u001b\\u001f\u{7f}é✓\",\"timestamp\":7}"
    );
}

#[test]
fn round_trip_of_every_plain_kind() {
    for timestamp in [0u64, 1, 9, 10, 99, 100, 1700000000000, u64::MAX] {
        for event in all_plain(timestamp) {
            assert_eq!(decode(&encode(&event)), Some(event));
        }
    }
}

#[test]
fn round_trip_of_splits() {
    let names = ["", "Boss", "a\"b", "back\\slash", "line\nbreak", "\u{0}\u{1}\u{1f}", "日本語", "\"", "\\u0041"];
    for name in names {
        for index in [0u32, 1, 10, 4294967295] {
            let event = Event::Split { index, name: name.to_string(), timestamp: 1234567890123 };
            assert_eq!(decode(&encode(&event)), Some(event));
        }
    }
}

#[test]
fn other_texts_are_refused() {
    let refused = [
        "",
        "{}",
        "{\"type\":\"heartbeat\"}",
        "{\"type\":\"heartbeat\",\"timestamp\":}",
        "{\"type\":\"heartbeat\",\"timestamp\":01}",
        "{\"type\":\"heartbeat\",\"timestamp\":18446744073709551616}",
        "{\"type\":\"heartbeat\",\"timestamp\":1} ",
        " {\"type\":\"heartbeat\",\"timestamp\":1}",
        "{\"type\":\"heartbeat\", \"timestamp\":1}",
        "{\"timestamp\":1,\"type\":\"heartbeat\"}",
        "{\"type\":\"unknown\",\"timestamp\":1}",
        "{\"type\":\"split\",\"timestamp\":1}",
        "{\"type\":\"split\",\"split_index\":4294967296,\"split_name\":\"x\",\"timestamp\":1}",
        "{\"type\":\"split\",\"split_index\":1,\"split_name\":\"x,\"timestamp\":1}",
        "{\"type\":\"split\",\"split_index\":1,\"split_name\":\"\\u0041\",\"timestamp\":1}",
        "{\"type\":\"split\",\"split_index\":1,\"split_name\":\"\\u000a\",\"timestamp\":1}",
        "{\"type\":\"split\",\"split_index\":1,\"split_name\":\"\\u001F\",\"timestamp\":1}",
        "{\"type\":\"split\",\"split_index\":1,\"split_name\":\"a\nb\",\"timestamp\":1}",
        "{\"type\":\"split\",\"split_index\":1,\"split_name\":\"\\/\",\"timestamp\":1}",
        "{\"type\":\"start\",\"split_index\":1,\"split_name\":\"x\",\"timestamp\":1}",
    ];
    for text in refused {
        assert_eq!(decode(text), None);
    }
}

#[test]
fn decode_reads_a_written_frame() {
    assert_eq!(
        decode("{\"type\":\"split\",\"split_index\":3,\"split_name\":\"Any% \\\"final\\\"\",\"timestamp\":99}"),
        Some(Event::Split { index: 3, name: "Any% \"final\"".to_string(), timestamp: 99 })
    );
    assert_eq!(
        decode("{\"type\":\"undo_split\",\"timestamp\":5}"),
        Some(Event::SplitUndone { timestamp: 5 })
    );
}
