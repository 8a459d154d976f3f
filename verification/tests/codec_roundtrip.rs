use shell_protocol::message::{decode_message, encode_message, Message, ProtocolError};

fn round_trip(m: Message) {
    let bytes = encode_message(&m).unwrap();
    let back = decode_message(&bytes).unwrap();
    assert_eq!(back, m);
}

#[test]
fn round_trip_spawn() {
    round_trip(Message::Spawn {
        channel_id: 1,
        command: b"echo".to_vec(),
        args: vec![b"hello".to_vec(), b"world".to_vec()],
    });
    round_trip(Message::Spawn {
        channel_id: 0,
        command: Vec::new(),
        args: Vec::new(),
    });
}

#[test]
fn round_trip_stream_variants() {
    round_trip(Message::Stdin {
        channel_id: 2,
        data: Some(b"abc".to_vec()),
    });
    round_trip(Message::Stdin {
        channel_id: 2,
        data: None,
    });
    round_trip(Message::Stdout {
        channel_id: 3,
        data: Some(Vec::new()),
    });
    round_trip(Message::Stderr {
        channel_id: u32::MAX,
        data: Some(b"boom".to_vec()),
    });
}

#[test]
fn round_trip_control_variants() {
    round_trip(Message::Eof { channel_id: 4 });
    round_trip(Message::Ack { channel_id: 5 });
    round_trip(Message::Error {
        channel_id: 6,
        message: b"process failed".to_vec(),
    });
}

#[test]
fn round_trip_file_transfer_variants() {
    round_trip(Message::ExportRequest {
        channel_id: 7,
        path: b"/data/out.bin".to_vec(),
    });
    round_trip(Message::ImportRequest {
        channel_id: 8,
        path: b"/data/in.bin".to_vec(),
    });
    round_trip(Message::FileChunk {
        channel_id: 9,
        offset: 0,
        data: b"chunk-bytes".to_vec(),
    });
    round_trip(Message::FileChunk {
        channel_id: 9,
        offset: u64::MAX,
        data: Vec::new(),
    });
    round_trip(Message::FileComplete {
        channel_id: 10,
        checksum: 0xdead_beef,
    });
}

#[test]
fn round_trip_large_payload_length_headers() {
    // Payload lengths that need one-, two- and four-byte length headers.
    for len in [23usize, 24, 255, 256, 65535, 65536] {
        round_trip(Message::Stdout {
            channel_id: 11,
            data: Some(vec![0xabu8; len]),
        });
    }
}

#[test]
fn malformed_bytes_yield_parse_error() {
    // Empty input.
    assert!(matches!(
        decode_message(&Vec::new()),
        Err(ProtocolError::ParseError { .. })
    ));
    // Truncated input.
    let mut bytes = encode_message(&Message::Stdout {
        channel_id: 13,
        data: Some(b"hello world".to_vec()),
    })
    .unwrap();
    bytes.truncate(bytes.len() / 2);
    assert!(matches!(
        decode_message(&bytes),
        Err(ProtocolError::ParseError { .. })
    ));
    // Trailing garbage after a well-formed message.
    let mut padded = encode_message(&Message::Eof { channel_id: 1 }).unwrap();
    padded.push(0);
    assert!(matches!(
        decode_message(&padded),
        Err(ProtocolError::ParseError { .. })
    ));
    // Not an array at all.
    assert!(matches!(
        decode_message(&vec![0x17u8]),
        Err(ProtocolError::ParseError { .. })
    ));
}

#[test]
fn unknown_shapes_yield_message_parse_error() {
    // A well-formed envelope with an operation name no variant claims.
    let unknown = serde_cbor::ser::to_vec_packed(&(1u32, "reboot", Option::<&str>::None)).unwrap();
    assert!(matches!(
        decode_message(&unknown),
        Err(ProtocolError::MessageParseError { .. })
    ));
    // A stream message whose payload is a number instead of text or null.
    let bad_payload = serde_cbor::ser::to_vec_packed(&(1u32, "stdout", 42u32)).unwrap();
    assert!(matches!(
        decode_message(&bad_payload),
        Err(ProtocolError::MessageParseError { .. })
    ));
    // A completion whose checksum does not fit the checksum field.
    let wide = serde_cbor::ser::to_vec_packed(&(1u32, "complete", u64::MAX)).unwrap();
    assert!(matches!(
        decode_message(&wide),
        Err(ProtocolError::MessageParseError { .. })
    ));
    // An end-of-stream marker carrying an unexpected payload.
    let noisy_eof = serde_cbor::ser::to_vec_packed(&(1u32, "eof", 1u32)).unwrap();
    assert!(matches!(
        decode_message(&noisy_eof),
        Err(ProtocolError::MessageParseError { .. })
    ));
}

#[test]
fn spawn_wire_form_is_flat_text_items() {
    // The spawn encoding is the channel, the name, the command, then one
    // text item per argument.
    let bytes = encode_message(&Message::Spawn {
        channel_id: 1,
        command: b"ls".to_vec(),
        args: vec![b"-l".to_vec()],
    })
    .unwrap();
    let reference = serde_cbor::ser::to_vec_packed(&(1u32, "spawn", "ls", "-l")).unwrap();
    assert_eq!(bytes, reference);
}

#[test]
fn encoding_is_deterministic() {
    let m = Message::FileChunk {
        channel_id: 3,
        offset: 1024,
        data: b"block".to_vec(),
    };
    assert_eq!(encode_message(&m).unwrap(), encode_message(&m).unwrap());
}
