use shell_protocol::message::{decode_message, from_cbor, parse_message, to_cbor, Message};

#[test]
fn create_parse_stdout_message() {
    let channel_id = 13;
    let data = "hello world";

    let raw = to_cbor(channel_id, Some(data)).unwrap();
    let parsed = parse_message(&raw).unwrap();
    let msg = from_cbor(&parsed);

    assert_eq!(
        msg.unwrap(),
        Message::Stdout {
            channel_id,
            data: Some(data.as_bytes().to_vec()),
        }
    );
}

#[test]
fn stdout_wire_bytes_match_packed_cbor() {
    // A peer that serializes the (channel, name, payload) triple with an
    // independent compact-form encoder must produce the same bytes.
    let raw = to_cbor(13, Some("hello world")).unwrap();
    let reference =
        serde_cbor::ser::to_vec_packed(&(13u32, "stdout", Some("hello world"))).unwrap();
    assert_eq!(raw, reference);
}

#[test]
fn absent_payload_wire_bytes_match_packed_cbor() {
    let raw = to_cbor(5, None).unwrap();
    let reference =
        serde_cbor::ser::to_vec_packed(&(5u32, "stdout", Option::<&str>::None)).unwrap();
    assert_eq!(raw, reference);
}

#[test]
fn decode_accepts_peer_encoded_bytes() {
    let reference = serde_cbor::ser::to_vec_packed(&(7u32, "stderr", Some("oops"))).unwrap();
    let msg = decode_message(&reference).unwrap();
    assert_eq!(
        msg,
        Message::Stderr {
            channel_id: 7,
            data: Some(b"oops".to_vec()),
        }
    );
}

#[test]
fn stdout_channel_thirteen_round_trip() {
    // Encode, decode back, and check no field is lost.
    let raw = to_cbor(13, Some("hello world")).unwrap();
    let msg = decode_message(&raw).unwrap();
    assert_eq!(
        msg,
        Message::Stdout {
            channel_id: 13,
            data: Some(b"hello world".to_vec()),
        }
    );
}

#[test]
fn absent_payload_is_distinct_from_empty_payload() {
    let raw_none = to_cbor(5, None).unwrap();
    let raw_empty = to_cbor(5, Some("")).unwrap();
    assert_ne!(raw_none, raw_empty);

    let none_msg = decode_message(&raw_none).unwrap();
    let empty_msg = decode_message(&raw_empty).unwrap();
    assert_eq!(
        none_msg,
        Message::Stdout {
            channel_id: 5,
            data: None,
        }
    );
    assert_eq!(
        empty_msg,
        Message::Stdout {
            channel_id: 5,
            data: Some(Vec::new()),
        }
    );
    assert_ne!(none_msg, empty_msg);
}
