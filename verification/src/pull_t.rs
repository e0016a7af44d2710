//! The PULL pattern: receive-only fair consumer.
//!
//! PULL never sends user data.  Frames are fed in as they arrive from the
//! wire; a command frame after the handshake is a protocol error on a
//! PULL socket.

use crate::error::ZmtpError;
use crate::frame::{frame_body, frame_wf, spec_tag_command, spec_tag_more, FrameBuf};
use crate::multipart::Assembler;
use crate::socket_type::{spec_pull_name, SocketType};
use vstd::prelude::*;

verus! {

/// A PULL socket's protocol state: the partial multipart message
/// assembled so far.
#[derive(Debug)]
pub struct Pull {
    assembler: Assembler,
}

impl Pull {
    /// The message parts collected since the last complete payload.
    pub closed spec fn spec_parts(self) -> Seq<Seq<u8>> {
        self.assembler.spec_parts()
    }

    /// A PULL socket with nothing collected.
    pub fn new() -> (r: Self)
        ensures
            r.spec_parts() == Seq::<Seq<u8>>::empty(),
    {
        Pull { assembler: Assembler::new() }
    }

    /// Consumes one received frame.  Returns the completed payload as an
    /// ordered list of part bodies once the LAST frame arrives; `None`
    /// while more frames are owed.  A command frame is fatal on PULL.
    pub fn recv(&mut self, frame: &FrameBuf) -> (r: Result<Option<Vec<Vec<u8>>>, ZmtpError>)
        ensures
            match r {
                Ok(Some(msg)) => {
                    &&& frame_wf(frame@)
                    &&& !spec_tag_command(frame@[0])
                    &&& !spec_tag_more(frame@[0])
                    &&& msg.deep_view() == old(self).spec_parts().push(frame_body(frame@))
                    &&& final(self).spec_parts() == Seq::<Seq<u8>>::empty()
                },
                Ok(None) => {
                    &&& frame_wf(frame@)
                    &&& !spec_tag_command(frame@[0])
                    &&& spec_tag_more(frame@[0])
                    &&& final(self).spec_parts() == old(self).spec_parts().push(
                        frame_body(frame@),
                    )
                },
                Err(e) => {
                    &&& final(self).spec_parts() == old(self).spec_parts()
                    &&& if !frame_wf(frame@) {
                        e == ZmtpError::MalformedFrame
                    } else {
                        spec_tag_command(frame@[0]) && e == ZmtpError::ProtocolViolation
                    }
                },
            },
    {
        self.assembler.push_frame(frame)
    }
}

impl SocketType for Pull {
    open spec fn spec_name() -> Seq<u8> {
        spec_pull_name()
    }

    fn name() -> (r: Vec<u8>) {
        let mut v: Vec<u8> = Vec::new();
        v.push(0x50);
        v.push(0x55);
        v.push(0x4C);
        v.push(0x4C);
        proof {
            assert(v@ =~= spec_pull_name());
        }
        v
    }
}

} // verus!
