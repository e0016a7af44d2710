//! Greeting serialization and handshake decisions.

use zedmq::handshake::{
    check_greeting_remainder, check_partial_greeting, ready_command, ready_command_for,
    ready_peer_socket_type, socket_types_compatible,
};
use zedmq::{Greeting, Pull, SocketType, ZmtpError};

#[test]
fn greeting_bytes() {
    let greeting = Greeting::build();
    let raw = greeting.as_bytes();
    assert_eq!(raw.len(), 64);
    assert_eq!(
        &raw[..=11],
        &[0xFFu8, 0, 0, 0, 0, 0, 0, 0, 0, 0x7F, 3, 0]
    );
    assert_eq!(&raw[12..=15], b"NULL");
    assert_eq!(raw[32], 0x00);
    for (i, b) in raw.iter().enumerate() {
        if ![0usize, 9, 10, 12, 13, 14, 15].contains(&i) {
            assert_eq!(*b, 0, "byte {} should be zero", i);
        }
    }
}

#[test]
fn greeting_as_server_flag() {
    let mut greeting = Greeting::build();
    greeting.as_server(true);
    let raw = greeting.as_bytes();
    assert_eq!(raw[32], 0x01);
    assert_eq!(raw[10], 3);
}

#[test]
fn greeting_into_parts() {
    let greeting = Greeting::build();
    let (partial, remaining) = greeting.into_parts();
    assert_eq!(partial.len(), 12);
    assert_eq!(remaining.len(), 52);
    assert_eq!(partial, vec![0xFFu8, 0, 0, 0, 0, 0, 0, 0, 0, 0x7F, 3, 0]);
    assert_eq!(&remaining[..4], b"NULL");
}

#[test]
fn own_greeting_passes_checks() {
    let (partial, remaining) = Greeting::build().into_parts();
    assert_eq!(check_partial_greeting(&partial), Ok((3, 0)));
    assert_eq!(check_greeting_remainder(&remaining), Ok(()));
}

#[test]
fn partial_greeting_bad_signature() {
    let mut partial = vec![0xFFu8, 0, 0, 0, 0, 0, 0, 0, 0, 0x7F, 3, 0];
    partial[0] = 0x00;
    assert_eq!(
        check_partial_greeting(&partial),
        Err(ZmtpError::ProtocolViolation)
    );
    let short = [0xFFu8; 5];
    assert_eq!(
        check_partial_greeting(&short),
        Err(ZmtpError::ProtocolViolation)
    );
}

#[test]
fn partial_greeting_version_mismatch() {
    let partial = vec![0xFFu8, 0, 0, 0, 0, 0, 0, 0, 0, 0x7F, 2, 0];
    assert_eq!(
        check_partial_greeting(&partial),
        Err(ZmtpError::VersionMismatch)
    );
}

#[test]
fn partial_greeting_higher_minor_tolerated() {
    // A ZMTP 3.1 peer interoperates at 3.0 semantics.
    let partial = vec![0xFFu8, 0, 0, 0, 0, 0, 0, 0, 0, 0x7F, 3, 1];
    assert_eq!(check_partial_greeting(&partial), Ok((3, 1)));
}

#[test]
fn remainder_rejects_other_mechanisms() {
    let mut remainder = vec![0u8; 52];
    remainder[..5].copy_from_slice(b"PLAIN");
    assert_eq!(
        check_greeting_remainder(&remainder),
        Err(ZmtpError::ProtocolViolation)
    );
    assert_eq!(
        check_greeting_remainder(&[0u8; 10]),
        Err(ZmtpError::ProtocolViolation)
    );
}

#[test]
fn ready_command_bytes() {
    let frame = ready_command(b"PULL");
    let expected: &[u8] = &[
        0x04, 0x1A, 0x05, 0x52, 0x45, 0x41, 0x44, 0x59, 0x0B, 0x53, 0x6F, 0x63, 0x6B, 0x65,
        0x74, 0x2D, 0x54, 0x79, 0x70, 0x65, 0x00, 0x00, 0x00, 0x04, 0x50, 0x55, 0x4C, 0x4C,
    ];
    assert_eq!(frame.as_bytes(), expected);
}

#[test]
fn ready_command_for_socket_type() {
    let frame = ready_command_for::<Pull>().expect("short name");
    assert_eq!(frame.as_bytes(), ready_command(b"PULL").as_bytes());
    assert_eq!(Pull::name(), b"PULL".to_vec());
}

#[test]
fn peer_ready_socket_type_extracted() {
    let frame = ready_command(b"PUSH");
    let cmd = frame.as_frame().try_into_command().expect("command");
    let peer = ready_peer_socket_type(&cmd).expect("well-formed READY");
    assert_eq!(peer, Some(b"PUSH".to_vec()));
}

#[test]
fn peer_ready_without_socket_type() {
    let frame = zedmq::FrameBuf::short_command(b"READY", None);
    let cmd = frame.as_frame().try_into_command().expect("command");
    assert_eq!(ready_peer_socket_type(&cmd), Ok(None));
}

#[test]
fn peer_non_ready_command_is_violation() {
    let frame = zedmq::FrameBuf::short_command(b"PING", None);
    let cmd = frame.as_frame().try_into_command().expect("command");
    assert_eq!(
        ready_peer_socket_type(&cmd),
        Err(ZmtpError::ProtocolViolation)
    );
}

#[test]
fn socket_type_pairs() {
    assert!(socket_types_compatible(b"PULL", b"PUSH"));
    assert!(socket_types_compatible(b"PUSH", b"PULL"));
    assert!(socket_types_compatible(b"REQ", b"REP"));
    assert!(socket_types_compatible(b"REP", b"REQ"));
    assert!(socket_types_compatible(b"SUB", b"PUB"));
    assert!(socket_types_compatible(b"PUB", b"SUB"));
    assert!(!socket_types_compatible(b"PULL", b"PULL"));
    assert!(!socket_types_compatible(b"REQ", b"PUSH"));
    assert!(!socket_types_compatible(b"DEALER", b"ROUTER"));
}
