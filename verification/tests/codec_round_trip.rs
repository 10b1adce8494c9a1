use chatty::codec::{decode_join, decode_message, encode_join, encode_message};
use chatty::message::WsMessage;

#[test]
fn message_round_trip_plain() {
    let m = WsMessage {
        id: 0xdeadbeef_00112233_44556677_8899aabb,
        sender: String::from("alice"),
        text: String::from("hello, world"),
        time: 1_700_000_000_123,
    };
    let frame = encode_message(&m);
    let back = decode_message(&frame).expect("frame must decode");
    assert_eq!(back.id, m.id);
    assert_eq!(back.sender, m.sender);
    assert_eq!(back.text, m.text);
    assert_eq!(back.time, m.time);
}

#[test]
fn message_round_trip_negative_time_and_empty_fields() {
    let m = WsMessage {
        id: 0,
        sender: String::new(),
        text: String::new(),
        time: -42,
    };
    let frame = encode_message(&m);
    let back = decode_message(&frame).expect("frame must decode");
    assert_eq!(back.id, 0);
    assert_eq!(back.sender, "");
    assert_eq!(back.text, "");
    assert_eq!(back.time, -42);
}

#[test]
fn message_round_trip_extreme_times() {
    for t in [i64::MIN, i64::MAX, 0, -1, 1] {
        let m = WsMessage {
            id: u128::MAX,
            sender: String::from("s"),
            text: String::from("t"),
            time: t,
        };
        let back = decode_message(&encode_message(&m)).expect("frame must decode");
        assert_eq!(back.time, t);
        assert_eq!(back.id, u128::MAX);
    }
}

#[test]
fn message_frame_exact_layout() {
    let m = WsMessage {
        id: 1,
        sender: String::from("a"),
        text: String::from("b"),
        time: 0,
    };
    let frame = encode_message(&m);
    assert_eq!(
        frame,
        "00000000000000000000000000000001+00000000000000000000000000000001ab"
    );
}

#[test]
fn message_decode_rejects_malformed() {
    assert!(decode_message("").is_none());
    assert!(decode_message("too short").is_none());
    // long enough but the id field holds a non-digit
    let bad = format!("zz000000000000000000000000000001+00000000000000000000000000000001ab");
    assert!(decode_message(&bad).is_none());
    // bad sign character
    let bad_sign = format!("00000000000000000000000000000001x00000000000000000000000000000001ab");
    assert!(decode_message(&bad_sign).is_none());
    // sender length larger than what the frame holds
    let bad_len = format!("00000000000000000000000000000001+0000000000000000000000000000ffffab");
    assert!(decode_message(&bad_len).is_none());
}

#[test]
fn join_round_trip() {
    let frame = encode_join(42, "alice");
    let (room_id, username) = decode_join(&frame).expect("join frame must decode");
    assert_eq!(room_id, 42);
    assert_eq!(username, "alice");
}

#[test]
fn join_frame_exact_layout() {
    assert_eq!(
        encode_join(0xab, "bob"),
        "000000000000000000000000000000abbob"
    );
}

#[test]
fn join_decode_rejects_malformed() {
    assert!(decode_join("short").is_none());
    assert!(decode_join("g0000000000000000000000000000000alice").is_none());
}

#[test]
fn sender_with_multibyte_characters_survives() {
    let m = WsMessage {
        id: 7,
        sender: String::from("ありす"),
        text: String::from("héllo ✓"),
        time: 5,
    };
    let back = decode_message(&encode_message(&m)).expect("frame must decode");
    assert_eq!(back.sender, "ありす");
    assert_eq!(back.text, "héllo ✓");
}
