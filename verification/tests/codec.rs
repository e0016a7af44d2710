//! Frame and command codec behaviour on concrete bytes.

use zedmq::frame::{declared_body_len, length_field_len};
use zedmq::{Command, Frame, FrameBuf, FrameKind, OwnedFrame, ZmtpError};

#[test]
fn classify_short_last_message() {
    let bytes = [0x00u8, 0x03, 0x41, 0x42, 0x43];
    let frame = Frame::new(&bytes);
    assert_eq!(frame.kind(), Some(FrameKind::MessageTail));
    assert_eq!(frame.size(), Some(3));
    assert!(frame.check());
    let msg = frame.try_into_message().expect("well-formed message frame");
    assert!(msg.is_last());
    assert_eq!(msg.body(), b"ABC");
}

#[test]
fn classify_short_more_message() {
    let bytes = [0x01u8, 0x01, 0xFF];
    let frame = Frame::new(&bytes);
    assert_eq!(frame.kind(), Some(FrameKind::MessagePart));
    let msg = frame.try_into_message().expect("well-formed message frame");
    assert!(!msg.is_last());
    assert_eq!(msg.body(), &[0xFFu8]);
}

#[test]
fn classify_short_command() {
    let bytes = [0x04u8, 0x02, 0x01, 0x58];
    let frame = Frame::new(&bytes);
    assert_eq!(frame.kind(), Some(FrameKind::Command));
    let cmd = frame.try_into_command().expect("well-formed command frame");
    assert_eq!(cmd.name().expect("name"), b"X");
}

#[test]
fn classify_invalid_tag() {
    let bytes = [0x05u8, 0x01, 0x00];
    let frame = Frame::new(&bytes);
    assert_eq!(frame.kind(), None);
    assert_eq!(frame.size(), None);
    assert!(!frame.check());
    assert!(Frame::new(&bytes).try_into_message().is_none());
    assert!(Frame::new(&bytes).try_into_command().is_none());
}

#[test]
fn classify_long_frames() {
    // Long last-message frame: 8-byte big-endian length.
    let mut bytes = vec![0x02u8, 0, 0, 0, 0, 0, 0, 1, 0x04];
    bytes.extend_from_slice(&[0xAB; 260]);
    let frame = Frame::new(&bytes);
    assert_eq!(frame.kind(), Some(FrameKind::MessageTail));
    assert_eq!(frame.size(), Some(260));
    assert!(frame.check());
    let msg = frame.try_into_message().expect("long message frame");
    assert!(msg.is_last());
    assert_eq!(msg.body().len(), 260);
}

#[test]
fn truncated_frame_is_rejected() {
    // Declares 5 body bytes but carries 2.
    let bytes = [0x00u8, 0x05, 0x41, 0x42];
    assert!(!Frame::new(&bytes).check());
    // Long frame with incomplete length field.
    let bytes = [0x02u8, 0x00, 0x00];
    assert_eq!(Frame::new(&bytes).size(), None);
    assert!(!Frame::new(&bytes).check());
}

#[test]
fn from_parts_rebuilds_the_wire_frame() {
    let frame = FrameBuf::from_parts(0x01, &[0xDE, 0xAD]).expect("valid tag");
    assert_eq!(frame.as_bytes(), &[0x01, 0x02, 0xDE, 0xAD]);

    let body = [0x55u8; 300];
    let frame = FrameBuf::from_parts(0x02, &body).expect("long frame");
    let raw = frame.as_bytes();
    assert_eq!(raw[0], 0x02);
    assert_eq!(&raw[1..9], &[0, 0, 0, 0, 0, 0, 1, 44]);
    assert_eq!(&raw[9..], &body[..]);

    // Parsing then re-serializing is bitwise identity.
    let reparsed = Frame::new(raw);
    let tag = raw[0];
    let msg = reparsed.try_into_message().expect("message");
    let rebuilt = FrameBuf::from_parts(tag, msg.body()).expect("rebuild");
    assert_eq!(rebuilt.as_bytes(), raw);
}

#[test]
fn from_parts_rejects_bad_input() {
    assert_eq!(FrameBuf::from_parts(0x05, &[]), Err(ZmtpError::MalformedFrame));
    let body = [0u8; 256];
    assert_eq!(FrameBuf::from_parts(0x00, &body), Err(ZmtpError::MalformedFrame));
}

#[test]
fn length_field_len_by_tag() {
    assert_eq!(length_field_len(0x00), Ok(1));
    assert_eq!(length_field_len(0x01), Ok(1));
    assert_eq!(length_field_len(0x04), Ok(1));
    assert_eq!(length_field_len(0x02), Ok(8));
    assert_eq!(length_field_len(0x03), Ok(8));
    assert_eq!(length_field_len(0x06), Ok(8));
    assert_eq!(length_field_len(0x05), Err(ZmtpError::MalformedFrame));
    assert_eq!(length_field_len(0xFF), Err(ZmtpError::MalformedFrame));
}

#[test]
fn declared_body_len_decodes_big_endian() {
    assert_eq!(declared_body_len(0x00, &[7]), 7);
    assert_eq!(declared_body_len(0x02, &[0, 0, 0, 0, 0, 0, 1, 44]), 300);
    assert_eq!(
        declared_body_len(0x06, &[0x01, 0x02, 0x03, 0x04, 0x05, 0x06, 0x07, 0x08]),
        0x0102_0304_0506_0708
    );
}

#[test]
fn short_command_ready_bytes() {
    let props = vec![(b"Socket-Type".to_vec(), b"PULL".to_vec())];
    let cmd = FrameBuf::short_command(b"READY", Some(&props));
    let expected: &[u8] = &[
        0x04, 0x1A, 0x05, 0x52, 0x45, 0x41, 0x44, 0x59, 0x0B, 0x53, 0x6F, 0x63, 0x6B, 0x65,
        0x74, 0x2D, 0x54, 0x79, 0x70, 0x65, 0x00, 0x00, 0x00, 0x04, 0x50, 0x55, 0x4C, 0x4C,
    ];
    assert_eq!(cmd.as_bytes(), expected);
}

#[test]
fn short_command_round_trip() {
    let props = vec![
        (b"Socket-Type".to_vec(), b"PULL".to_vec()),
        (b"Identity".to_vec(), b"peer-7".to_vec()),
    ];
    let buf = FrameBuf::short_command(b"READY", Some(&props));
    let cmd = buf.as_frame().try_into_command().expect("command frame");
    assert_eq!(cmd.name().expect("name"), b"READY");
    let parsed = cmd.properties().expect("well-formed properties");
    assert_eq!(parsed, props);
}

#[test]
fn short_command_without_properties() {
    let buf = FrameBuf::short_command(b"PING", None);
    assert_eq!(buf.as_bytes(), &[0x04, 0x05, 0x04, 0x50, 0x49, 0x4E, 0x47]);
    let cmd = buf.as_frame().try_into_command().expect("command frame");
    assert_eq!(cmd.name().expect("name"), b"PING");
    assert!(cmd.properties().expect("empty list").is_empty());
}

#[test]
fn properties_reject_truncated_entries() {
    // Command "X" followed by a property whose value length overruns.
    let bytes = vec![0x04u8, 0x08, 0x01, 0x58, 0x01, 0x41, 0x00, 0x00, 0x00, 0x09];
    let cmd = Frame::new(&bytes).try_into_command().expect("command frame");
    assert_eq!(cmd.properties(), Err(ZmtpError::MalformedCommand));
}

#[test]
fn name_rejects_overrun() {
    // Name length 9 but body holds 1 more byte only.
    let bytes = vec![0x04u8, 0x02, 0x09, 0x41];
    let cmd = Frame::new(&bytes).try_into_command().expect("command frame");
    assert_eq!(cmd.name(), Err(ZmtpError::MalformedCommand));
    assert_eq!(cmd.properties(), Err(ZmtpError::MalformedCommand));
}

#[test]
fn null_ready_properties_only_for_ready() {
    let props = vec![(b"Socket-Type".to_vec(), b"REP".to_vec())];
    let buf = FrameBuf::short_command(b"READY", Some(&props));
    let cmd = buf.as_frame().try_into_command().expect("command");
    let parsed = cmd
        .null_ready_properties()
        .expect("is READY")
        .expect("well-formed");
    assert_eq!(parsed, props);

    let other = FrameBuf::short_command(b"PING", None);
    let cmd = other.as_frame().try_into_command().expect("command");
    assert!(cmd.null_ready_properties().is_none());
}

#[test]
fn command_new_wraps_frame() {
    let bytes = [0x04u8, 0x02, 0x01, 0x58];
    let cmd = Command::new(Frame::new(&bytes));
    assert_eq!(cmd.name().expect("name"), b"X");
}

#[test]
fn owned_frame_view() {
    let frame = OwnedFrame::new(vec![0x00, 0x01, 0x2A]);
    let view = frame.as_ref();
    assert_eq!(view.kind(), Some(FrameKind::MessageTail));
    assert_eq!(view.size(), Some(1));
}

#[test]
fn frame_buf_new_and_into_vec() {
    let raw = vec![0x00u8, 0x01, 0x2A];
    let buf = FrameBuf::new(raw.clone());
    assert_eq!(buf.as_frame().size(), Some(1));
    assert_eq!(buf.into_vec(), raw);
}
