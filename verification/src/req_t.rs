//! The REQ pattern: strict send/receive alternation, enforced by the
//! type system.
//!
//! A [`Req`] exposes only `send`, which consumes it and yields a
//! [`ReqPending`]; a `ReqPending` exposes only `recv`, which consumes it
//! and — once the reply is complete — yields the payload and a fresh
//! `Req`.  Sending twice without receiving does not type-check.

use crate::error::ZmtpError;
use crate::frame::{frame_body, frame_wf, spec_tag_command, spec_tag_more, FrameBuf};
use crate::multipart::{encode_multipart, spec_encode_multipart, Assembler};
use crate::socket_type::{spec_req_name, SocketType};
use vstd::prelude::*;

verus! {

/// A REQ socket that owes a request: only `send` is available.
#[derive(Debug)]
pub struct Req {
}

/// A REQ socket awaiting its reply: only `recv` is available.
#[derive(Debug)]
pub struct ReqPending {
    assembler: Assembler,
}

/// What one receive step on a [`ReqPending`] yields.
#[derive(Debug)]
pub enum ReqStep {
    /// More reply frames are owed.
    Pending(ReqPending),
    /// The complete reply payload, and the socket back in its send state.
    Done(Vec<Vec<u8>>, Req),
}

impl Req {
    /// A REQ socket ready to send.
    pub fn new() -> Req {
        Req {  }
    }

    /// Encodes the request payload into the frames to write, in order,
    /// and moves the socket into its awaiting-reply state.  An empty
    /// payload is invalid input.
    pub fn send(self, parts: &Vec<Vec<u8>>) -> (r: Result<(Vec<FrameBuf>, ReqPending), ZmtpError>)
        ensures
            match r {
                Ok(sent) => {
                    &&& parts@.len() >= 1
                    &&& sent.0@.len() == parts@.len()
                    &&& forall|i: int|
                        0 <= i < sent.0@.len() ==> (#[trigger] sent.0@[i])@
                            == spec_encode_multipart(parts.deep_view())[i]
                    &&& sent.1.spec_parts() == Seq::<Seq<u8>>::empty()
                },
                Err(e) => e == ZmtpError::InvalidInput && parts@.len() == 0,
            },
    {
        let frames = match encode_multipart(parts) {
            Ok(frames) => frames,
            Err(e) => {
                return Err(e);
            },
        };
        Ok((frames, ReqPending { assembler: Assembler::new() }))
    }
}

impl ReqPending {
    /// The reply parts collected so far.
    pub closed spec fn spec_parts(self) -> Seq<Seq<u8>> {
        self.assembler.spec_parts()
    }

    /// Consumes one received frame of the reply.  A LAST frame completes
    /// the reply and hands the socket back in its send state.  A command
    /// frame is out of place on REQ after the handshake.
    pub fn recv(self, frame: &FrameBuf) -> (r: Result<ReqStep, ZmtpError>)
        ensures
            match r {
                Ok(step) => {
                    &&& frame_wf(frame@)
                    &&& !spec_tag_command(frame@[0])
                    &&& match step {
                        ReqStep::Pending(p) => spec_tag_more(frame@[0]) && p.spec_parts()
                            == self.spec_parts().push(frame_body(frame@)),
                        ReqStep::Done(msg, _) => !spec_tag_more(frame@[0]) && msg.deep_view()
                            == self.spec_parts().push(frame_body(frame@)),
                    }
                },
                Err(e) => if !frame_wf(frame@) {
                    e == ZmtpError::MalformedFrame
                } else {
                    spec_tag_command(frame@[0]) && e == ZmtpError::ProtocolViolation
                },
            },
    {
        let mut assembler = self.assembler;
        match assembler.push_frame(frame) {
            Ok(Some(msg)) => Ok(ReqStep::Done(msg, Req {  })),
            Ok(None) => Ok(ReqStep::Pending(ReqPending { assembler })),
            Err(e) => Err(e),
        }
    }
}

impl SocketType for Req {
    open spec fn spec_name() -> Seq<u8> {
        spec_req_name()
    }

    fn name() -> (r: Vec<u8>) {
        let mut v: Vec<u8> = Vec::new();
        v.push(0x52);
        v.push(0x45);
        v.push(0x51);
        proof {
            assert(v@ =~= spec_req_name());
        }
        v
    }
}

} // verus!
