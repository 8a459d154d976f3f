use shell_protocol::message::{Message, ProtocolError};
use shell_protocol::session::{checksum_of, OperationKind, Session, SessionStatus};

#[test]
fn shell_session_full_lifecycle() {
    // Open a channel, spawn a command, receive its output and the end of
    // stream: AwaitingSpawn -> Running -> Draining -> Closed.
    let mut s = Session::new(9);
    assert_eq!(s.status(), SessionStatus::AwaitingSpawn);

    s.handle_message(&Message::Spawn {
        channel_id: 9,
        command: b"echo hello".to_vec(),
        args: Vec::new(),
    })
    .unwrap();
    assert_eq!(s.status(), SessionStatus::Running);
    assert_eq!(s.operation(), Some(OperationKind::Shell));

    s.handle_message(&Message::Stdout {
        channel_id: 9,
        data: Some(b"hello\n".to_vec()),
    })
    .unwrap();
    assert_eq!(s.status(), SessionStatus::Running);

    s.handle_message(&Message::Eof { channel_id: 9 }).unwrap();
    assert_eq!(s.status(), SessionStatus::Draining);

    assert_eq!(s.take_output(), b"hello\n".to_vec());
    assert_eq!(s.status(), SessionStatus::Closed);
}

#[test]
fn closed_session_rejects_everything_unchanged() {
    let mut s = Session::new(1);
    s.handle_message(&Message::Spawn {
        channel_id: 1,
        command: b"cat".to_vec(),
        args: Vec::new(),
    })
    .unwrap();
    s.handle_message(&Message::Error {
        channel_id: 1,
        message: b"killed".to_vec(),
    })
    .unwrap();
    assert_eq!(s.status(), SessionStatus::Closed);

    let probes = vec![
        Message::Spawn {
            channel_id: 1,
            command: b"cat".to_vec(),
            args: Vec::new(),
        },
        Message::Stdout {
            channel_id: 1,
            data: Some(b"late".to_vec()),
        },
        Message::Eof { channel_id: 1 },
        Message::Ack { channel_id: 1 },
        Message::FileChunk {
            channel_id: 1,
            offset: 0,
            data: b"x".to_vec(),
        },
        Message::FileComplete {
            channel_id: 1,
            checksum: 0,
        },
        Message::Error {
            channel_id: 1,
            message: b"again".to_vec(),
        },
    ];
    for m in probes {
        let r = s.handle_message(&m);
        assert!(matches!(r, Err(ProtocolError::ProtocolStateError { .. })));
        assert_eq!(s.status(), SessionStatus::Closed);
        assert_eq!(s.operation(), Some(OperationKind::Shell));
    }
    assert_eq!(s.take_output(), Vec::<u8>::new());
}

#[test]
fn second_spawn_is_rejected_without_state_change() {
    let mut s = Session::new(2);
    s.handle_message(&Message::Spawn {
        channel_id: 2,
        command: b"top".to_vec(),
        args: Vec::new(),
    })
    .unwrap();
    s.handle_message(&Message::Stdout {
        channel_id: 2,
        data: Some(b"out".to_vec()),
    })
    .unwrap();

    let r = s.handle_message(&Message::Spawn {
        channel_id: 2,
        command: b"top".to_vec(),
        args: Vec::new(),
    });
    assert!(matches!(r, Err(ProtocolError::ProtocolStateError { .. })));
    // The spawn-class rejection does not alter state: still running, with
    // the buffered output intact.
    assert_eq!(s.status(), SessionStatus::Running);
    assert_eq!(s.take_output(), b"out".to_vec());
}

fn import_session(channel: u32) -> Session {
    let mut s = Session::new(channel);
    s.handle_message(&Message::ImportRequest {
        channel_id: channel,
        path: b"/tmp/f".to_vec(),
    })
    .unwrap();
    assert_eq!(s.operation(), Some(OperationKind::FileImport));
    s
}

#[test]
fn in_order_chunks_reassemble_exactly() {
    let mut s = import_session(3);
    s.handle_message(&Message::FileChunk {
        channel_id: 3,
        offset: 0,
        data: b"abc".to_vec(),
    })
    .unwrap();
    s.handle_message(&Message::FileChunk {
        channel_id: 3,
        offset: 3,
        data: b"def".to_vec(),
    })
    .unwrap();
    s.handle_message(&Message::FileChunk {
        channel_id: 3,
        offset: 6,
        data: b"g".to_vec(),
    })
    .unwrap();
    let whole = b"abcdefg".to_vec();
    s.handle_message(&Message::FileComplete {
        channel_id: 3,
        checksum: checksum_of(&whole),
    })
    .unwrap();
    assert_eq!(s.status(), SessionStatus::Draining);
    assert_eq!(s.take_output(), whole);
    assert_eq!(s.status(), SessionStatus::Closed);
}

#[test]
fn out_of_order_chunk_is_rejected_not_misassembled() {
    let mut s = import_session(4);
    s.handle_message(&Message::FileChunk {
        channel_id: 4,
        offset: 0,
        data: b"abc".to_vec(),
    })
    .unwrap();
    // A gap: offset 5 instead of the accumulated 3.
    let r = s.handle_message(&Message::FileChunk {
        channel_id: 4,
        offset: 5,
        data: b"def".to_vec(),
    });
    assert!(matches!(r, Err(ProtocolError::ProtocolStateError { .. })));
    assert_eq!(s.status(), SessionStatus::Closed);
    assert_eq!(s.take_output(), Vec::<u8>::new());
}

#[test]
fn checksum_mismatch_discards_the_file() {
    let mut s = import_session(5);
    s.handle_message(&Message::FileChunk {
        channel_id: 5,
        offset: 0,
        data: b"payload".to_vec(),
    })
    .unwrap();
    let good = checksum_of(&b"payload".to_vec());
    let r = s.handle_message(&Message::FileComplete {
        channel_id: 5,
        checksum: good.wrapping_add(1),
    });
    assert!(matches!(r, Err(ProtocolError::ChecksumMismatchError { .. })));
    assert_eq!(s.status(), SessionStatus::Closed);
    // No completed file is visible to the caller.
    assert_eq!(s.take_output(), Vec::<u8>::new());
}

#[test]
fn checksum_is_order_sensitive() {
    assert_ne!(
        checksum_of(&b"ab".to_vec()),
        checksum_of(&b"ba".to_vec())
    );
    assert_eq!(checksum_of(&Vec::new()), 0);
    // One byte folds to its own value.
    assert_eq!(checksum_of(&vec![7u8]), 7);
    // Two bytes fold as a base-31 polynomial.
    assert_eq!(checksum_of(&vec![2u8, 1u8]), 2 * 31 + 1);
}

#[test]
fn error_closes_and_discards_buffered_data() {
    let mut s = Session::new(6);
    s.handle_message(&Message::Spawn {
        channel_id: 6,
        command: b"yes".to_vec(),
        args: Vec::new(),
    })
    .unwrap();
    s.handle_message(&Message::Stdout {
        channel_id: 6,
        data: Some(b"yyyy".to_vec()),
    })
    .unwrap();
    s.handle_message(&Message::Error {
        channel_id: 6,
        message: b"remote fault".to_vec(),
    })
    .unwrap();
    assert_eq!(s.status(), SessionStatus::Closed);
    assert_eq!(s.take_output(), Vec::<u8>::new());
}

#[test]
fn absent_stream_payload_appends_nothing() {
    let mut s = Session::new(7);
    s.handle_message(&Message::Spawn {
        channel_id: 7,
        command: b"true".to_vec(),
        args: Vec::new(),
    })
    .unwrap();
    s.handle_message(&Message::Stdout {
        channel_id: 7,
        data: None,
    })
    .unwrap();
    assert_eq!(s.status(), SessionStatus::Running);
    assert_eq!(s.take_output(), Vec::<u8>::new());
}

#[test]
fn ack_is_advisory_only() {
    let mut s = Session::new(8);
    s.handle_message(&Message::Spawn {
        channel_id: 8,
        command: b"sleep".to_vec(),
        args: vec![b"1".to_vec()],
    })
    .unwrap();
    s.handle_message(&Message::Ack { channel_id: 8 }).unwrap();
    assert_eq!(s.status(), SessionStatus::Running);
}

#[test]
fn stream_data_before_spawn_closes_the_session() {
    let mut s = Session::new(10);
    let r = s.handle_message(&Message::Stdout {
        channel_id: 10,
        data: Some(b"early".to_vec()),
    });
    assert!(matches!(r, Err(ProtocolError::ProtocolStateError { .. })));
    assert_eq!(s.status(), SessionStatus::Closed);
}

#[test]
fn force_close_releases_the_session() {
    let mut s = Session::new(11);
    s.handle_message(&Message::Spawn {
        channel_id: 11,
        command: b"cat".to_vec(),
        args: Vec::new(),
    })
    .unwrap();
    s.handle_message(&Message::Stdout {
        channel_id: 11,
        data: Some(b"data".to_vec()),
    })
    .unwrap();
    s.force_close();
    assert_eq!(s.status(), SessionStatus::Closed);
    assert_eq!(s.take_output(), Vec::<u8>::new());
}
