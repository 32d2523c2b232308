use serde_json::Value;
use splitcast::event::Event;
use splitcast::wire::encode;

fn parsed(event: &Event) -> Value {
    serde_json::from_str(&encode(event)).unwrap()
}

#[test]
fn a_plain_frame_is_a_json_object_of_two_fields() {
    let kinds = [
        (Event::Heartbeat { timestamp: 1700000000000 }, "heartbeat"),
        (Event::Started { timestamp: 1700000000000 }, "start"),
        (Event::Reset { timestamp: 1700000000000 }, "reset"),
        (Event::Paused { timestamp: 1700000000000 }, "pause"),
        (Event::Resumed { timestamp: 1700000000000 }, "resume"),
        (Event::SplitUndone { timestamp: 1700000000000 }, "undo_split"),
        (Event::SplitSkipped { timestamp: 1700000000000 }, "skip_split"),
    ];
    for (event, tag) in kinds {
        let value = parsed(&event);
        let object = value.as_object().unwrap();
        assert_eq!(object.len(), 2);
        assert_eq!(object["type"].as_str(), Some(tag));
        assert_eq!(object["timestamp"].as_u64(), Some(1700000000000));
    }
}

#[test]
fn a_split_frame_is_a_json_object_of_four_fields() {
    let event = Event::Split { index: 4294967295, name: "Any% \"glitched\"".to_string(), timestamp: u64::MAX };
    let value = parsed(&event);
    let object = value.as_object().unwrap();
    assert_eq!(object.len(), 4);
    assert_eq!(object["type"].as_str(), Some("split"));
    assert_eq!(object["split_index"].as_u64(), Some(4294967295));
    assert_eq!(object["split_name"].as_str(), Some("Any% \"glitched\""));
    assert_eq!(object["timestamp"].as_u64(), Some(u64::MAX));
}

#[test]
fn every_character_is_escaped_as_json_asks() {
    let mut codes: Vec<u32> = (0..0x100).collect();
    codes.extend([0x2028, 0x2029, 0xD7FF, 0xE000, 0xFFFD, 0xFFFF, 0x1F600, 0x10FFFF]);
    for code in codes {
        let c = char::from_u32(code).unwrap();
        let name: String = [c, 'x', c].iter().collect();
        let event = Event::Split { index: 1, name: name.clone(), timestamp: 2 };
        let text = encode(&event);
        let value: Value = serde_json::from_str(&text).unwrap();
        assert_eq!(value["split_name"].as_str(), Some(name.as_str()));
        let quoted = serde_json::to_string(&name).unwrap();
        let expected = format!(
            "{{\"type\":\"split\",\"split_index\":1,\"split_name\":{},\"timestamp\":2}}",
            quoted
        );
        assert_eq!(text, expected);
    }
}
