//! The REP pattern: strict receive/send alternation, enforced by the
//! type system, mirroring REQ.
//!
//! A [`Rep`] exposes only `recv`, which consumes it and — once the
//! request is complete — yields the payload and a [`RepPending`]; a
//! `RepPending` exposes only `send`, which consumes it and yields a
//! fresh `Rep`.

use crate::error::ZmtpError;
use crate::frame::{frame_body, frame_wf, spec_tag_command, spec_tag_more, FrameBuf};
use crate::multipart::{encode_multipart, spec_encode_multipart, Assembler};
use crate::socket_type::{spec_rep_name, SocketType};
use vstd::prelude::*;

verus! {

/// A REP socket awaiting a request: only `recv` is available.
#[derive(Debug)]
pub struct Rep {
    assembler: Assembler,
}

/// A REP socket that owes its reply: only `send` is available.
#[derive(Debug)]
pub struct RepPending {
}

/// What one receive step on a [`Rep`] yields.
#[derive(Debug)]
pub enum RepStep {
    /// More request frames are owed.
    Pending(Rep),
    /// The complete request payload, and the socket owing its reply.
    Done(Vec<Vec<u8>>, RepPending),
}

impl Rep {
    /// The request parts collected so far.
    pub closed spec fn spec_parts(self) -> Seq<Seq<u8>> {
        self.assembler.spec_parts()
    }

    /// A REP socket ready to receive.
    pub fn new() -> (r: Rep)
        ensures
            r.spec_parts() == Seq::<Seq<u8>>::empty(),
    {
        Rep { assembler: Assembler::new() }
    }

    /// Consumes one received frame of the request.  A LAST frame
    /// completes the request and hands the socket over in its owing-reply
    /// state.  A command frame is out of place on REP after the
    /// handshake.
    pub fn recv(self, frame: &FrameBuf) -> (r: Result<RepStep, ZmtpError>)
        ensures
            match r {
                Ok(step) => {
                    &&& frame_wf(frame@)
                    &&& !spec_tag_command(frame@[0])
                    &&& match step {
                        RepStep::Pending(p) => spec_tag_more(frame@[0]) && p.spec_parts()
                            == self.spec_parts().push(frame_body(frame@)),
                        RepStep::Done(msg, _) => !spec_tag_more(frame@[0]) && msg.deep_view()
                            == self.spec_parts().push(frame_body(frame@)),
                    }
                },
                Err(e) => if !frame_wf(frame@) {
                    e == ZmtpError::MalformedFrame
                } else {
                    spec_tag_command(frame@[0]) && e == ZmtpError::ProtocolViolation
                },
            },
    {
        let mut assembler = self.assembler;
        match assembler.push_frame(frame) {
            Ok(Some(msg)) => Ok(RepStep::Done(msg, RepPending {  })),
            Ok(None) => Ok(RepStep::Pending(Rep { assembler })),
            Err(e) => Err(e),
        }
    }
}

impl RepPending {
    /// Encodes the reply payload into the frames to write, in order, and
    /// hands the socket back in its receive state.  An empty payload is
    /// invalid input.
    pub fn send(self, parts: &Vec<Vec<u8>>) -> (r: Result<(Vec<FrameBuf>, Rep), ZmtpError>)
        ensures
            match r {
                Ok(sent) => {
                    &&& parts@.len() >= 1
                    &&& sent.0@.len() == parts@.len()
                    &&& forall|i: int|
                        0 <= i < sent.0@.len() ==> (#[trigger] sent.0@[i])@
                            == spec_encode_multipart(parts.deep_view())[i]
                    &&& sent.1.spec_parts() == Seq::<Seq<u8>>::empty()
                },
                Err(e) => e == ZmtpError::InvalidInput && parts@.len() == 0,
            },
    {
        let frames = match encode_multipart(parts) {
            Ok(frames) => frames,
            Err(e) => {
                return Err(e);
            },
        };
        Ok((frames, Rep::new()))
    }
}

impl SocketType for Rep {
    open spec fn spec_name() -> Seq<u8> {
        spec_rep_name()
    }

    fn name() -> (r: Vec<u8>) {
        let mut v: Vec<u8> = Vec::new();
        v.push(0x52);
        v.push(0x45);
        v.push(0x50);
        proof {
            assert(v@ =~= spec_rep_name());
        }
        v
    }
}

} // verus!
