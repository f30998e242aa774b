use syncread::protocol::{SyncEvent, SyncMessage, UserState};
use syncread::wire::{decode_message, encode_message};

fn sample_user(id: &str) -> UserState {
    let mut u = UserState::new(id.to_string());
    u.update_from_mpv(4, 62_500, false, Some("/clips/a.mp4".to_string()), 1_700_000_000);
    u
}

#[test]
fn test_round_trip_user_joined() {
    let m = SyncMessage::user_joined("alice".to_string(), sample_user("alice"), 1);
    let line = encode_message(&m).unwrap();
    assert_eq!(decode_message(&line), Some(m));
}

#[test]
fn test_round_trip_user_left() {
    let m = SyncMessage::user_left("bob".to_string(), 2);
    let line = encode_message(&m).unwrap();
    assert_eq!(decode_message(&line), Some(m));
}

#[test]
fn test_round_trip_state_update() {
    let m = SyncMessage::state_update(sample_user("carol"), 3);
    let line = encode_message(&m).unwrap();
    assert_eq!(decode_message(&line), Some(m));
}

#[test]
fn test_round_trip_user_action() {
    let m = SyncMessage::new(
        SyncEvent::UserAction {
            user_id: "dan".to_string(),
            action: "seek".to_string(),
            value: Some(-30_000),
        },
        4,
    );
    let line = encode_message(&m).unwrap();
    assert_eq!(decode_message(&line), Some(m));

    let none = SyncMessage::new(
        SyncEvent::UserAction {
            user_id: "dan".to_string(),
            action: "pause".to_string(),
            value: None,
        },
        5,
    );
    let line2 = encode_message(&none).unwrap();
    assert_eq!(decode_message(&line2), Some(none));
}

#[test]
fn test_round_trip_heartbeat() {
    let m = SyncMessage::heartbeat("eve".to_string(), 1_700_000_123, 6);
    let line = encode_message(&m).unwrap();
    assert_eq!(decode_message(&line), Some(m));
}

#[test]
fn test_encoded_text_is_exact() {
    let m = SyncMessage::user_left("bob".to_string(), 41);
    let line = encode_message(&m).unwrap();
    assert_eq!(
        line,
        "{\"event\":{\"UserLeft\":{\"user_id\":\"bob\"}},\"sequence\":41}"
    );
}

#[test]
fn test_state_update_wire_text() {
    let mut u = UserState::new("a".to_string());
    u.update_from_mpv(-1, 1_500, true, None, 9);
    let m = SyncMessage::state_update(u, 7);
    let line = encode_message(&m).unwrap();
    assert_eq!(
        line,
        "{\"event\":{\"StateUpdate\":{\"user_state\":{\"user_id\":\"a\",\
         \"playlist_position\":-1,\"current_file\":null,\"current_file_name\":null,\
         \"playback_time\":1.500,\"is_paused\":true,\"timestamp\":9}}},\"sequence\":7}"
    );
}

#[test]
fn test_decode_rejects_malformed() {
    assert_eq!(decode_message(""), None);
    assert_eq!(decode_message("not json"), None);
    assert_eq!(decode_message("{\"event\":{\"UserLeft\":{\"user_id\":\"bob\"}}"), None);
    // Trailing garbage after a complete message is refused: a line is the
    // unit of framing.
    assert_eq!(
        decode_message("{\"event\":{\"UserLeft\":{\"user_id\":\"bob\"}},\"sequence\":41}x"),
        None
    );
}

#[test]
fn test_encode_refuses_control_characters() {
    let m = SyncMessage::user_left("bo\nb".to_string(), 1);
    assert_eq!(encode_message(&m), None);
    let t = SyncMessage::user_left("bo\tb".to_string(), 1);
    assert_eq!(encode_message(&t), None);
}

#[test]
fn test_quotes_and_backslashes_are_escaped() {
    let m = SyncMessage::user_left("a\"b\\c".to_string(), 1);
    let line = encode_message(&m).unwrap();
    assert_eq!(
        line,
        "{\"event\":{\"UserLeft\":{\"user_id\":\"a\\\"b\\\\c\"}},\"sequence\":1}"
    );
    assert_eq!(decode_message(&line), Some(m));

    let mut u = UserState::new("quoty\"user".to_string());
    u.update_from_mpv(1, 0, true, Some("/films/odd\"name\\take2.mp4".to_string()), 5);
    let m2 = SyncMessage::state_update(u, 9);
    let line2 = encode_message(&m2).unwrap();
    assert_eq!(decode_message(&line2), Some(m2));
}

#[test]
fn test_decode_rejects_bad_escapes() {
    // An unknown escape and an unterminated payload are refused.
    assert_eq!(
        decode_message("{\"event\":{\"UserLeft\":{\"user_id\":\"a\\nb\"}},\"sequence\":1}"),
        None
    );
    assert_eq!(
        decode_message("{\"event\":{\"UserLeft\":{\"user_id\":\"a\\"),
        None
    );
}

#[test]
fn test_round_trip_extreme_values() {
    let mut u = UserState::new("z".to_string());
    u.playlist_position = i32::MIN;
    u.playback_time_ms = i64::MAX as u64;
    u.timestamp = u64::MAX;
    let m = SyncMessage::state_update(u, u64::MAX);
    let line = encode_message(&m).unwrap();
    assert_eq!(decode_message(&line), Some(m));

    let mut v = UserState::new("".to_string());
    v.playlist_position = i32::MAX;
    let m2 = SyncMessage::state_update(v, 0);
    let line2 = encode_message(&m2).unwrap();
    assert_eq!(decode_message(&line2), Some(m2));
}
