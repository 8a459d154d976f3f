use shell_protocol::driver::ProtocolDriver;
use shell_protocol::message::{decode_message, Message, ProtocolError};
use shell_protocol::session::SessionStatus;

fn spawn_msg(channel_id: u32, command: &str) -> Message {
    Message::Spawn {
        channel_id,
        command: command.as_bytes().to_vec(),
        args: Vec::new(),
    }
}

#[test]
fn interleaved_channels_stay_independent() {
    // Two sessions interleave their messages over one driver; neither
    // channel's state machine observes the other's messages.
    let mut d = ProtocolDriver::new();
    d.deliver(&spawn_msg(1, "alpha")).unwrap();
    d.deliver(&spawn_msg(2, "beta")).unwrap();
    d.deliver(&Message::Stdout {
        channel_id: 1,
        data: Some(b"one".to_vec()),
    })
    .unwrap();
    d.deliver(&Message::Stdout {
        channel_id: 2,
        data: Some(b"two".to_vec()),
    })
    .unwrap();
    d.deliver(&Message::Eof { channel_id: 2 }).unwrap();
    d.deliver(&Message::Stdout {
        channel_id: 1,
        data: Some(b"!".to_vec()),
    })
    .unwrap();

    // Channel 2 finished; channel 1 still runs and kept only its own data.
    assert_eq!(d.session_status(1), Some(SessionStatus::Running));
    assert_eq!(d.session_status(2), Some(SessionStatus::Draining));
    assert_eq!(d.read_output(1).unwrap(), b"one!".to_vec());
    assert_eq!(d.read_output(2).unwrap(), b"two".to_vec());
    assert_eq!(d.session_status(2), Some(SessionStatus::Closed));
}

#[test]
fn message_for_unknown_channel_is_a_protocol_error() {
    let mut d = ProtocolDriver::new();
    let r = d.deliver(&Message::Stdout {
        channel_id: 42,
        data: Some(b"nobody home".to_vec()),
    });
    assert!(matches!(r, Err(ProtocolError::ProtocolStateError { .. })));
    assert_eq!(d.session_status(42), None);
}

#[test]
fn spawn_for_new_channel_opens_a_session() {
    let mut d = ProtocolDriver::new();
    d.deliver(&spawn_msg(3, "sh")).unwrap();
    assert_eq!(d.session_status(3), Some(SessionStatus::Running));
}

#[test]
fn channel_reuse_is_rejected_while_state_is_retained() {
    let mut d = ProtocolDriver::new();
    d.open_session(&spawn_msg(4, "first")).unwrap();
    let r = d.open_session(&spawn_msg(4, "second"));
    assert!(matches!(r, Err(ProtocolError::ProtocolStateError { .. })));
    // The original session is untouched.
    assert_eq!(d.session_status(4), Some(SessionStatus::Running));
}

#[test]
fn open_session_returns_the_wire_bytes_of_the_request() {
    let mut d = ProtocolDriver::new();
    let bytes = d.open_session(&spawn_msg(5, "uname")).unwrap();
    let decoded = decode_message(&bytes).unwrap();
    assert_eq!(decoded, spawn_msg(5, "uname"));
}

#[test]
fn write_stdin_builds_bytes_only_for_running_sessions() {
    let mut d = ProtocolDriver::new();
    assert!(matches!(
        d.write_stdin(6, Some(&b"hi".to_vec())),
        Err(ProtocolError::ProtocolStateError { .. })
    ));
    d.open_session(&spawn_msg(6, "cat")).unwrap();
    let bytes = d.write_stdin(6, Some(&b"hi".to_vec())).unwrap();
    assert_eq!(
        decode_message(&bytes).unwrap(),
        Message::Stdin {
            channel_id: 6,
            data: Some(b"hi".to_vec()),
        }
    );
}

#[test]
fn close_session_builds_the_end_of_stream_marker() {
    let mut d = ProtocolDriver::new();
    d.open_session(&spawn_msg(7, "cat")).unwrap();
    let bytes = d.close_session(7).unwrap();
    assert_eq!(
        decode_message(&bytes).unwrap(),
        Message::Eof { channel_id: 7 }
    );
}

#[test]
fn force_close_is_the_local_cancellation_hook() {
    let mut d = ProtocolDriver::new();
    d.open_session(&spawn_msg(8, "cat")).unwrap();
    d.deliver(&Message::Stdout {
        channel_id: 8,
        data: Some(b"pending".to_vec()),
    })
    .unwrap();
    d.force_close(8).unwrap();
    assert_eq!(d.session_status(8), Some(SessionStatus::Closed));
    assert_eq!(d.read_output(8).unwrap(), Vec::<u8>::new());
}

#[test]
fn receive_bytes_decodes_and_routes() {
    let mut d = ProtocolDriver::new();
    let spawn_bytes =
        serde_cbor::ser::to_vec_packed(&(9u32, "spawn", "echo", "hi")).unwrap();
    d.receive_bytes(&spawn_bytes).unwrap();
    assert_eq!(d.session_status(9), Some(SessionStatus::Running));

    let out_bytes =
        serde_cbor::ser::to_vec_packed(&(9u32, "stdout", Some("hi\n"))).unwrap();
    d.receive_bytes(&out_bytes).unwrap();
    assert_eq!(d.read_output(9).unwrap(), b"hi\n".to_vec());

    // Malformed bytes are reported and no session changes.
    assert!(d.receive_bytes(&vec![0xffu8, 0x00]).is_err());
    assert_eq!(d.session_status(9), Some(SessionStatus::Running));
}

#[test]
fn driver_shell_scenario_end_to_end() {
    // The caller's view of scenario one, through the driver: spawn, output,
    // end of stream, drain, closed.
    let mut d = ProtocolDriver::new();
    let request = d
        .open_session(&Message::Spawn {
            channel_id: 12,
            command: b"echo hello".to_vec(),
            args: Vec::new(),
        })
        .unwrap();
    assert!(decode_message(&request).is_ok());
    assert_eq!(d.session_status(12), Some(SessionStatus::Running));

    d.deliver(&Message::Stdout {
        channel_id: 12,
        data: Some(b"hello\n".to_vec()),
    })
    .unwrap();
    d.deliver(&Message::Eof { channel_id: 12 }).unwrap();
    assert_eq!(d.session_status(12), Some(SessionStatus::Draining));
    assert_eq!(d.read_output(12).unwrap(), b"hello\n".to_vec());
    assert_eq!(d.session_status(12), Some(SessionStatus::Closed));
}
