//! The PUB pattern, connect side: send-only publisher.
//!
//! On the connect side of a TCP session topic filtering is delegated to
//! the subscribing peer, so `send` is plain multipart encoding; nothing
//! is filtered locally.

use crate::error::ZmtpError;
use crate::frame::FrameBuf;
use crate::multipart::{encode_multipart, spec_encode_multipart};
use vstd::prelude::*;

verus! {

/// A PUB socket; it keeps no protocol state of its own.
#[derive(Debug)]
pub struct Pub {
}

impl Pub {
    /// A fresh PUB socket.
    pub fn new() -> Pub {
        Pub {  }
    }

    /// Encodes a multipart payload into the frames to write, in order.
    /// The subscribing peer filters; nothing is dropped here.  An empty
    /// payload is invalid input.
    pub fn send(&self, parts: &Vec<Vec<u8>>) -> (r: Result<Vec<FrameBuf>, ZmtpError>)
        ensures
            match r {
                Ok(frames) => {
                    &&& parts@.len() >= 1
                    &&& frames@.len() == parts@.len()
                    &&& forall|i: int|
                        0 <= i < frames@.len() ==> (#[trigger] frames@[i])@
                            == spec_encode_multipart(parts.deep_view())[i]
                },
                Err(e) => e == ZmtpError::InvalidInput && parts@.len() == 0,
            },
    {
        encode_multipart(parts)
    }
}

} // verus!
