//! The PUSH pattern: send-only fair distributor.
//!
//! PUSH never receives user data.  `send` turns a multipart payload into
//! the frames to write, in order.

use crate::error::ZmtpError;
use crate::frame::FrameBuf;
use crate::multipart::{encode_multipart, spec_encode_multipart};
use crate::socket_type::{spec_push_name, SocketType};
use vstd::prelude::*;

verus! {

/// A PUSH socket; it keeps no protocol state of its own.
#[derive(Debug)]
pub struct Push {
}

impl Push {
    /// A fresh PUSH socket.
    pub fn new() -> Push {
        Push {  }
    }

    /// Encodes a multipart payload into the frames to write, in order:
    /// every part but the last as a MORE frame, the last as a LAST frame.
    /// An empty payload is invalid input.
    pub fn send(&self, parts: &Vec<Vec<u8>>) -> (r: Result<Vec<FrameBuf>, ZmtpError>)
        ensures
            match r {
                Ok(frames) => {
                    &&& parts@.len() >= 1
                    &&& frames@.len() == parts@.len()
                    &&& forall|i: int|
                        0 <= i < frames@.len() ==> (#[trigger] frames@[i])@
                            == spec_encode_multipart(parts.deep_view())[i]
                },
                Err(e) => e == ZmtpError::InvalidInput && parts@.len() == 0,
            },
    {
        encode_multipart(parts)
    }
}

impl SocketType for Push {
    open spec fn spec_name() -> Seq<u8> {
        spec_push_name()
    }

    fn name() -> (r: Vec<u8>) {
        let mut v: Vec<u8> = Vec::new();
        v.push(0x50);
        v.push(0x55);
        v.push(0x53);
        v.push(0x48);
        proof {
            assert(v@ =~= spec_push_name());
        }
        v
    }
}

} // verus!
