//! Socket pattern behaviour: multipart send, PULL assembly, SUB
//! filtering, and the REQ/REP alternation.

use zedmq::{
    FrameBuf, Pub, Pull, Push, Rep, RepStep, Req, ReqStep, SocketType, Sub, ZmtpError,
};

fn frame_bytes(frames: &[FrameBuf]) -> Vec<Vec<u8>> {
    frames.iter().map(|f| f.as_bytes().to_vec()).collect()
}

#[test]
fn push_multipart_frames() {
    let push = Push::new();
    let parts = vec![vec![0xAA], vec![0xBB, 0xCC], vec![0xDD]];
    let frames = push.send(&parts).expect("non-empty payload");
    assert_eq!(
        frame_bytes(&frames),
        vec![
            vec![0x01, 0x01, 0xAA],
            vec![0x01, 0x02, 0xBB, 0xCC],
            vec![0x00, 0x01, 0xDD],
        ]
    );
}

#[test]
fn push_empty_payload_is_invalid() {
    let push = Push::new();
    assert_eq!(push.send(&vec![]).unwrap_err(), ZmtpError::InvalidInput);
}

#[test]
fn push_long_part_uses_long_frame() {
    let push = Push::new();
    let big = vec![0x77u8; 300];
    let frames = push.send(&vec![big.clone()]).expect("payload");
    let raw = frames[0].as_bytes();
    assert_eq!(raw[0], 0x02);
    assert_eq!(&raw[1..9], &[0, 0, 0, 0, 0, 0, 1, 44]);
    assert_eq!(&raw[9..], &big[..]);
}

#[test]
fn pub_send_matches_push() {
    let parts = vec![vec![1, 2], vec![3]];
    let a = Push::new().send(&parts).expect("push frames");
    let b = Pub::new().send(&parts).expect("pub frames");
    assert_eq!(frame_bytes(&a), frame_bytes(&b));
}

#[test]
fn push_pull_loopback() {
    // A send followed by a recv yields exactly the payload.
    let parts = vec![vec![0x01], vec![], vec![0x02, 0x03]];
    let frames = Push::new().send(&parts).expect("frames");
    let mut pull = Pull::new();
    let mut delivered = None;
    for frame in &frames {
        let step = pull.recv(frame).expect("message frames");
        if let Some(msg) = step {
            assert!(delivered.is_none());
            delivered = Some(msg);
        }
    }
    assert_eq!(delivered.expect("completed payload"), parts);
}

#[test]
fn pull_rejects_command_frames() {
    let mut pull = Pull::new();
    let cmd = FrameBuf::short_command(b"READY", None);
    assert_eq!(pull.recv(&cmd).unwrap_err(), ZmtpError::ProtocolViolation);
    let junk = FrameBuf::new(vec![0x05, 0x00]);
    assert_eq!(pull.recv(&junk).unwrap_err(), ZmtpError::MalformedFrame);
}

#[test]
fn socket_type_names() {
    assert_eq!(Pull::name(), b"PULL".to_vec());
    assert_eq!(Push::name(), b"PUSH".to_vec());
    assert_eq!(Sub::name(), b"SUB".to_vec());
    assert_eq!(Req::name(), b"REQ".to_vec());
    assert_eq!(Rep::name(), b"REP".to_vec());
}

fn last_frame(body: &[u8]) -> FrameBuf {
    FrameBuf::from_parts(0x00, body).expect("short last frame")
}

fn more_frame(body: &[u8]) -> FrameBuf {
    FrameBuf::from_parts(0x01, body).expect("short more frame")
}

#[test]
fn sub_subscribe_frame_bytes() {
    let mut sub = Sub::new();
    let frame = sub.subscribe(&[0xDE]).expect("short topic");
    assert_eq!(frame.as_bytes(), &[0x00, 0x02, 0x01, 0xDE]);
}

#[test]
fn sub_cancel_frame_bytes() {
    let mut sub = Sub::new();
    sub.subscribe(b"topic").expect("subscribe");
    let frame = sub.cancel(b"topic").expect("cancel");
    assert_eq!(&frame.as_bytes()[..3], &[0x00, 0x06, 0x00]);
    assert_eq!(&frame.as_bytes()[3..], b"topic");
}

#[test]
fn sub_prefix_filter() {
    let mut sub = Sub::new();
    sub.subscribe(&[0xDE]).expect("subscribe");

    // Matching prefix: delivered.
    let delivered = sub
        .recv(&last_frame(&[0xDE, 0xAD, 0xBE, 0xEF]))
        .expect("frame ok");
    assert_eq!(delivered, Some(vec![vec![0xDE, 0xAD, 0xBE, 0xEF]]));

    // Non-matching: silently dropped.
    let dropped = sub.recv(&last_frame(&[0xAB, 0xCD])).expect("frame ok");
    assert_eq!(dropped, None);

    // Exactly the topic: delivered.
    let exact = sub.recv(&last_frame(&[0xDE])).expect("frame ok");
    assert_eq!(exact, Some(vec![vec![0xDE]]));
}

#[test]
fn sub_empty_topic_receives_everything() {
    let mut sub = Sub::new();
    sub.subscribe(&[]).expect("empty topic");
    let a = sub.recv(&last_frame(&[0x01, 0x02])).expect("ok");
    assert_eq!(a, Some(vec![vec![0x01, 0x02]]));
    let b = sub.recv(&last_frame(&[])).expect("ok");
    assert_eq!(b, Some(vec![vec![]]));
}

#[test]
fn sub_no_subscriptions_receive_nothing() {
    let mut sub = Sub::new();
    assert_eq!(sub.recv(&last_frame(&[0x01])).expect("ok"), None);
    assert_eq!(sub.recv(&last_frame(b"anything")).expect("ok"), None);
}

#[test]
fn sub_long_topic_hashed_prefix() {
    let mut sub = Sub::new();
    let topic = b"long-topic-prefix";
    assert!(topic.len() > 8);
    sub.subscribe(topic).expect("subscribe");
    let mut body = topic.to_vec();
    body.extend_from_slice(b"/rest");
    assert_eq!(
        sub.recv(&last_frame(&body)).expect("ok"),
        Some(vec![body.clone()])
    );
    assert_eq!(sub.recv(&last_frame(b"other-long-prefix/x")).expect("ok"), None);
    // A body shorter than the topic cannot match it.
    assert_eq!(sub.recv(&last_frame(b"long-top")).expect("ok"), None);
}

#[test]
fn sub_multipart_assembly_and_discard() {
    let mut sub = Sub::new();
    sub.subscribe(&[0x10]).expect("subscribe");

    // Matched multipart is collected across frames.
    assert_eq!(sub.recv(&more_frame(&[0x10, 0xAA])).expect("ok"), None);
    assert_eq!(sub.recv(&more_frame(&[0xBB])).expect("ok"), None);
    let msg = sub.recv(&last_frame(&[0xCC])).expect("ok");
    assert_eq!(
        msg,
        Some(vec![vec![0x10, 0xAA], vec![0xBB], vec![0xCC]])
    );

    // Rejected multipart is consumed and fully discarded.
    assert_eq!(sub.recv(&more_frame(&[0x99, 0x01])).expect("ok"), None);
    assert_eq!(sub.recv(&more_frame(&[0x02])).expect("ok"), None);
    assert_eq!(sub.recv(&last_frame(&[0x03])).expect("ok"), None);

    // The socket is back in step for the next message.
    assert_eq!(
        sub.recv(&last_frame(&[0x10])).expect("ok"),
        Some(vec![vec![0x10]])
    );
}

#[test]
fn sub_commands_are_skipped() {
    let mut sub = Sub::new();
    sub.subscribe(&[]).expect("subscribe all");
    let cmd = FrameBuf::short_command(b"READY", None);
    assert_eq!(sub.recv(&cmd).expect("skipped"), None);
    // Even in the middle of a multipart message.
    assert_eq!(sub.recv(&more_frame(&[0x01])).expect("ok"), None);
    assert_eq!(sub.recv(&cmd).expect("skipped"), None);
    let msg = sub.recv(&last_frame(&[0x02])).expect("ok");
    assert_eq!(msg, Some(vec![vec![0x01], vec![0x02]]));
}

#[test]
fn sub_cancel_removes_subscription() {
    let mut sub = Sub::new();
    sub.subscribe(&[0xDE]).expect("subscribe");
    assert_eq!(
        sub.recv(&last_frame(&[0xDE, 0x01])).expect("ok"),
        Some(vec![vec![0xDE, 0x01]])
    );
    sub.cancel(&[0xDE]).expect("cancel");
    assert_eq!(sub.recv(&last_frame(&[0xDE, 0x01])).expect("ok"), None);
}

#[test]
fn sub_topic_too_long_is_invalid() {
    let mut sub = Sub::new();
    let topic = vec![0x41u8; 256];
    assert_eq!(sub.subscribe(&topic).unwrap_err(), ZmtpError::InvalidInput);
    assert_eq!(sub.cancel(&topic).unwrap_err(), ZmtpError::InvalidInput);
}

#[test]
fn sub_recv_unchecked_ignores_topics() {
    let mut sub = Sub::new();
    // No subscriptions, yet everything is delivered unchecked.
    assert_eq!(sub.recv_unchecked(&more_frame(&[0x01])).expect("ok"), None);
    let msg = sub.recv_unchecked(&last_frame(&[0x02])).expect("ok");
    assert_eq!(msg, Some(vec![vec![0x01], vec![0x02]]));
    // But a command frame is a protocol error on this path.
    let cmd = FrameBuf::short_command(b"READY", None);
    assert_eq!(
        sub.recv_unchecked(&cmd).unwrap_err(),
        ZmtpError::ProtocolViolation
    );
}

#[test]
fn req_rep_round_trip() {
    // REQ sends [[0x01]]; REP receives it and replies [[0x02]].
    let req = Req::new();
    let (request_frames, req_pending) = req.send(&vec![vec![0x01]]).expect("request");
    assert_eq!(frame_bytes(&request_frames), vec![vec![0x00, 0x01, 0x01]]);

    let mut rep = Rep::new();
    let mut rep_pending = None;
    for frame in &request_frames {
        match rep.recv(frame).expect("request frame") {
            RepStep::Pending(next) => rep = next,
            RepStep::Done(msg, pending) => {
                assert_eq!(msg, vec![vec![0x01]]);
                rep_pending = Some(pending);
                break;
            }
        }
    }
    let rep_pending = rep_pending.expect("request completed");

    let (reply_frames, _rep) = rep_pending.send(&vec![vec![0x02]]).expect("reply");

    let mut req_side = req_pending;
    let mut delivered = None;
    for frame in &reply_frames {
        match req_side.recv(frame).expect("reply frame") {
            ReqStep::Pending(next) => req_side = next,
            ReqStep::Done(msg, req_again) => {
                delivered = Some(msg);
                // The returned Req can immediately send again.
                let _ = req_again.send(&vec![vec![0x03]]).expect("next request");
                break;
            }
        }
    }
    assert_eq!(delivered.expect("reply delivered"), vec![vec![0x02]]);
}

#[test]
fn req_empty_payload_is_invalid() {
    let req = Req::new();
    assert_eq!(req.send(&vec![]).unwrap_err(), ZmtpError::InvalidInput);
}

#[test]
fn req_multipart_reply() {
    let req = Req::new();
    let (_frames, pending) = req.send(&vec![vec![0x01]]).expect("request");
    let step = pending.recv(&more_frame(&[0x0A])).expect("part");
    let pending = match step {
        ReqStep::Pending(p) => p,
        ReqStep::Done(..) => panic!("a MORE frame must not complete the reply"),
    };
    let step = pending.recv(&last_frame(&[0x0B])).expect("tail");
    match step {
        ReqStep::Done(msg, _req) => assert_eq!(msg, vec![vec![0x0A], vec![0x0B]]),
        ReqStep::Pending(_) => panic!("a LAST frame completes the reply"),
    }
}

#[test]
fn rep_rejects_commands() {
    let rep = Rep::new();
    let cmd = FrameBuf::short_command(b"READY", None);
    assert_eq!(rep.recv(&cmd).unwrap_err(), ZmtpError::ProtocolViolation);
}
