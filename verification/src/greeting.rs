//! The fixed 64-byte ZMTP greeting, sent in two halves: a 12-byte
//! signature-and-version partial and a 52-byte remainder carrying the
//! security mechanism and the as-server flag.

use vstd::pervasive::VecAdditionalExecFns;
use vstd::prelude::*;
use vstd::slice::slice_subrange;

verus! {

/// The 64 greeting bytes: signature `FF .. 7F`, version 3.0, mechanism
/// `"NULL"` NUL-padded to 20 bytes, the as-server flag, then filler.
pub open spec fn spec_greeting(as_server: bool) -> Seq<u8> {
    Seq::new(
        64,
        |i: int|
            if i == 0 {
                0xFFu8
            } else if i == 9 {
                0x7F
            } else if i == 10 {
                3
            } else if i == 12 {
                0x4E
            } else if i == 13 {
                0x55
            } else if i == 14 {
                0x4C
            } else if i == 15 {
                0x4C
            } else if i == 32 {
                if as_server {
                    1
                } else {
                    0
                }
            } else {
                0
            },
    )
}

/// The greeting's first twelve bytes never vary: the signature frames
/// eight zero bytes, and the version is always 3.0.
pub proof fn lemma_greeting_signature(as_server: bool)
    ensures
        spec_greeting(as_server).subrange(0, 12) == seq![
            0xFFu8,
            0,
            0,
            0,
            0,
            0,
            0,
            0,
            0,
            0x7F,
            3,
            0,
        ],
{
    assert(spec_greeting(as_server).subrange(0, 12) =~= seq![
        0xFFu8,
        0,
        0,
        0,
        0,
        0,
        0,
        0,
        0,
        0x7F,
        3,
        0,
    ]);
}

/// A builder for the greeting; only the as-server flag is configurable,
/// and the security mechanism is fixed at NULL.
#[derive(Debug, Clone, Copy)]
pub struct Greeting {
    as_server: bool,
}

impl Greeting {
    /// The as-server flag this greeting will carry.
    pub closed spec fn spec_as_server(self) -> bool {
        self.as_server
    }

    /// A greeting with the as-server flag clear.
    pub fn build() -> (r: Self)
        ensures
            !r.spec_as_server(),
    {
        Greeting { as_server: false }
    }

    /// Sets the as-server flag of the greeting.
    pub fn as_server(&mut self, as_server: bool)
        ensures
            final(self).spec_as_server() == as_server,
    {
        self.as_server = as_server;
    }

    /// Serializes the greeting into its raw 64 bytes.
    pub fn as_bytes(&self) -> (r: Vec<u8>)
        ensures
            r@ == spec_greeting(self.spec_as_server()),
            r@.len() == 64,
    {
        let mut raw: Vec<u8> = Vec::new();
        let mut i: usize = 0;
        while i < 64
            invariant
                i <= 64,
                raw@.len() == i,
                forall|j: int| 0 <= j < i ==> raw@[j] == 0u8,
            decreases 64 - i,
        {
            raw.push(0u8);
            i = i + 1;
        }
        raw.set(0, 0xFF);
        raw.set(9, 0x7F);
        raw.set(10, 3);
        raw.set(12, 0x4E);
        raw.set(13, 0x55);
        raw.set(14, 0x4C);
        raw.set(15, 0x4C);
        if self.as_server {
            raw.set(32, 1);
        }
        proof {
            assert(raw@ =~= spec_greeting(self.spec_as_server()));
        }
        raw
    }

    /// The greeting split into the 12-byte partial sent first and the
    /// 52-byte remainder sent after the peer's partial arrives.
    pub fn into_parts(&self) -> (r: (Vec<u8>, Vec<u8>))
        ensures
            r.0@ == spec_greeting(self.spec_as_server()).subrange(0, 12),
            r.1@ == spec_greeting(self.spec_as_server()).subrange(12, 64),
            r.0@.len() == 12,
            r.1@.len() == 52,
    {
        let raw = self.as_bytes();
        let partial = crate::frame::copy_slice(slice_subrange(raw.as_slice(), 0, 12));
        let remaining = crate::frame::copy_slice(slice_subrange(raw.as_slice(), 12, 64));
        (partial, remaining)
    }
}

} // verus!
