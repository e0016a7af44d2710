//! The socket-type names and the trait tying each socket pattern to the
//! uppercase wire name it advertises in its `READY` command.

use vstd::prelude::*;

verus! {

/// `"PULL"` as bytes.
pub open spec fn spec_pull_name() -> Seq<u8> {
    seq![0x50u8, 0x55, 0x4C, 0x4C]
}

/// `"PUSH"` as bytes.
pub open spec fn spec_push_name() -> Seq<u8> {
    seq![0x50u8, 0x55, 0x53, 0x48]
}

/// `"PUB"` as bytes.
pub open spec fn spec_pub_name() -> Seq<u8> {
    seq![0x50u8, 0x55, 0x42]
}

/// `"SUB"` as bytes.
pub open spec fn spec_sub_name() -> Seq<u8> {
    seq![0x53u8, 0x55, 0x42]
}

/// `"REQ"` as bytes.
pub open spec fn spec_req_name() -> Seq<u8> {
    seq![0x52u8, 0x45, 0x51]
}

/// `"REP"` as bytes.
pub open spec fn spec_rep_name() -> Seq<u8> {
    seq![0x52u8, 0x45, 0x50]
}

/// A socket pattern with a fixed wire name.
pub trait SocketType {
    /// The uppercase name this pattern advertises as its `Socket-Type`.
    spec fn spec_name() -> Seq<u8>;

    /// The wire name, as the bytes the handshake sends.
    fn name() -> (r: Vec<u8>)
        ensures
            r@ == Self::spec_name(),
    ;
}

} // verus!
