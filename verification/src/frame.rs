//! The ZMTP frame: a tag byte, a 1- or 8-byte big-endian length, and a
//! body of exactly that length.
//!
//! Tag values: `0x00` short last-message, `0x01` short more-message,
//! `0x02` long last-message, `0x03` long more-message, `0x04` short
//! command, `0x06` long command.  Every other tag is invalid.

use crate::endian::{
    be_decode_u64, be_encode_u64, lemma_be_bytes_len, lemma_be_bytes_of_val, lemma_be_val_bound,
    lemma_be_val_of_bytes, pow256, spec_be_bytes, spec_be_val,
};
use crate::error::ZmtpError;
use vstd::prelude::*;
use vstd::slice::{slice_subrange, slice_to_vec};

verus! {

/// The six tag values the wire format defines.
pub open spec fn spec_tag_valid(t: u8) -> bool {
    t == 0x00 || t == 0x01 || t == 0x02 || t == 0x03 || t == 0x04 || t == 0x06
}

/// Tags whose length field is 8 bytes rather than 1.
pub open spec fn spec_tag_long(t: u8) -> bool {
    t == 0x02 || t == 0x03 || t == 0x06
}

/// Tags that mark a command frame rather than a message frame.
pub open spec fn spec_tag_command(t: u8) -> bool {
    t == 0x04 || t == 0x06
}

/// Tags of message frames that announce a further frame (MORE).
pub open spec fn spec_tag_more(t: u8) -> bool {
    t == 0x01 || t == 0x03
}

/// How many bytes tag and length field occupy together.
pub open spec fn spec_header_len(t: u8) -> int {
    if spec_tag_long(t) {
        9
    } else {
        2
    }
}

/// The body length a frame declares in its length field.
pub open spec fn spec_declared_len(b: Seq<u8>) -> int
    recommends
        b.len() >= 1,
        b.len() >= spec_header_len(b[0]),
{
    if spec_tag_long(b[0]) {
        spec_be_val(b.subrange(1, 9))
    } else {
        b[1] as int
    }
}

/// A well-formed frame: a valid tag, a complete length field, and a body
/// of exactly the declared length.
pub open spec fn frame_wf(b: Seq<u8>) -> bool {
    &&& b.len() >= 1
    &&& spec_tag_valid(b[0])
    &&& b.len() >= spec_header_len(b[0])
    &&& b.len() == spec_header_len(b[0]) + spec_declared_len(b)
}

/// The body of a well-formed frame: everything after the length field.
pub open spec fn frame_body(b: Seq<u8>) -> Seq<u8>
    recommends
        frame_wf(b),
{
    b.subrange(spec_header_len(b[0]), b.len() as int)
}

/// The serialization of a frame with tag `tag` and body `body`.
pub open spec fn spec_frame(tag: u8, body: Seq<u8>) -> Seq<u8> {
    if spec_tag_long(tag) {
        seq![tag] + spec_be_bytes(body.len() as int, 8) + body
    } else {
        seq![tag, body.len() as u8] + body
    }
}

/// Parsing then re-serializing is the identity: a well-formed frame is
/// exactly the frame built back from its tag and its body.
pub proof fn lemma_frame_round_trip(b: Seq<u8>)
    requires
        frame_wf(b),
    ensures
        spec_frame(b[0], frame_body(b)) == b,
{
    let t = b[0];
    let body = frame_body(b);
    if spec_tag_long(t) {
        let lenb = b.subrange(1, 9);
        lemma_be_val_bound(lenb);
        lemma_be_bytes_of_val(lenb);
        assert(spec_frame(t, body) =~= b);
    } else {
        assert(spec_frame(t, body) =~= b);
    }
}

/// A serialized frame is well formed and gives back its tag and body,
/// provided a short tag's body fits its one-byte length field.
pub proof fn lemma_spec_frame_wf(tag: u8, body: Seq<u8>)
    requires
        spec_tag_valid(tag),
        body.len() < pow256(8),
        !spec_tag_long(tag) ==> body.len() <= 255,
    ensures
        frame_wf(spec_frame(tag, body)),
        spec_frame(tag, body)[0] == tag,
        frame_body(spec_frame(tag, body)) == body,
        spec_frame(tag, body).len() == spec_header_len(tag) + body.len(),
{
    let f = spec_frame(tag, body);
    if spec_tag_long(tag) {
        lemma_be_bytes_len(body.len() as int, 8);
        assert(f.subrange(1, 9) =~= spec_be_bytes(body.len() as int, 8));
        lemma_be_val_of_bytes(body.len() as int, 8);
        assert(frame_body(f) =~= body);
    } else {
        assert(frame_body(f) =~= body);
    }
}

/// The various types a frame can be.
#[derive(Clone, Copy, Debug, PartialEq, Eq, Structural)]
pub enum FrameKind {
    /// A command frame.
    Command,
    /// A single part (frame) of a multipart message, with more to follow.
    MessagePart,
    /// The last frame of a multipart message, or the only frame of a
    /// single-part one.
    MessageTail,
}

/// The classification a tag byte carries, if it is valid.
pub open spec fn spec_kind_of(t: u8) -> Option<FrameKind> {
    if t == 0x00 || t == 0x02 {
        Some(FrameKind::MessageTail)
    } else if t == 0x01 || t == 0x03 {
        Some(FrameKind::MessagePart)
    } else if t == 0x04 || t == 0x06 {
        Some(FrameKind::Command)
    } else {
        None
    }
}

/// Appends all of `src` to `dst`.
pub(crate) fn push_all(dst: &mut Vec<u8>, src: &[u8])
    ensures
        final(dst)@ == old(dst)@ + src@,
{
    dst.extend_from_slice(src);
    assert(dst@ =~= old(dst)@ + src@);
}

// -- FrameBuf

/// An owned, growable byte buffer holding one frame.
#[derive(Debug, PartialEq)]
pub struct FrameBuf {
    bytes: Vec<u8>,
}

impl View for FrameBuf {
    type V = Seq<u8>;

    closed spec fn view(&self) -> Seq<u8> {
        self.bytes@
    }
}

impl FrameBuf {
    /// Wraps raw bytes without inspecting them.
    pub fn new(bytes: Vec<u8>) -> (r: Self)
        ensures
            r@ == bytes@,
    {
        FrameBuf { bytes }
    }

    /// Rebuilds the raw frame from a received tag and body, exactly as the
    /// peer framed it: the declared length is the body's length.
    pub fn from_parts(tag: u8, body: &[u8]) -> (r: Result<Self, ZmtpError>)
        ensures
            match r {
                Ok(f) => {
                    &&& spec_tag_valid(tag)
                    &&& spec_tag_long(tag) || body@.len() <= 255
                    &&& f@ == spec_frame(tag, body@)
                    &&& frame_wf(f@)
                },
                Err(e) => {
                    &&& e == ZmtpError::MalformedFrame
                    &&& !spec_tag_valid(tag) || (!spec_tag_long(tag) && body@.len() > 255)
                },
            },
    {
        let valid = tag == 0x00 || tag == 0x01 || tag == 0x02 || tag == 0x03 || tag == 0x04
            || tag == 0x06;
        if !valid {
            return Err(ZmtpError::MalformedFrame);
        }
        let long = tag == 0x02 || tag == 0x03 || tag == 0x06;
        let mut bytes: Vec<u8> = Vec::new();
        bytes.push(tag);
        if long {
            let mut len_bytes = be_encode_u64(body.len() as u64);
            bytes.append(&mut len_bytes);
        } else {
            if body.len() > 255 {
                return Err(ZmtpError::MalformedFrame);
            }
            bytes.push(body.len() as u8);
        }
        push_all(&mut bytes, body);
        proof {
            crate::endian::lemma_pow256_values();
            assert(bytes@ =~= spec_frame(tag, body@));
            lemma_spec_frame_wf(tag, body@);
        }
        Ok(FrameBuf { bytes })
    }

    /// Borrows the frame as a [`Frame`] view.
    pub fn as_frame<'a>(&'a self) -> (r: Frame<'a>)
        ensures
            r@ == self@,
    {
        Frame { bytes: self.bytes.as_slice() }
    }

    /// The raw bytes, ready to be written to the wire.
    pub fn as_bytes(&self) -> (r: &[u8])
        ensures
            r@ == self@,
    {
        self.bytes.as_slice()
    }

    /// Gives up the buffer, yielding the raw bytes.
    pub fn into_vec(self) -> (r: Vec<u8>)
        ensures
            r@ == self@,
    {
        self.bytes
    }
}

// -- Frame<'a>

/// A borrowed view of one frame (akin to `str` against `String`).
#[derive(Debug, PartialEq)]
pub struct Frame<'a> {
    pub(crate) bytes: &'a [u8],
}

impl<'a> View for Frame<'a> {
    type V = Seq<u8>;

    closed spec fn view(&self) -> Seq<u8> {
        self.bytes@
    }
}

impl<'a> Frame<'a> {
    /// Wraps a byte slice without inspecting it.
    pub fn new(bytes: &'a [u8]) -> (r: Self)
        ensures
            r@ == bytes@,
    {
        Frame { bytes }
    }

    /// The type of frame, by its tag byte; `None` on an invalid tag or an
    /// empty slice.
    pub fn kind(&self) -> (r: Option<FrameKind>)
        ensures
            r == if self@.len() == 0 {
                None::<FrameKind>
            } else {
                spec_kind_of(self@[0])
            },
    {
        if self.bytes.len() == 0 {
            return None;
        }
        let t = self.bytes[0];
        if t == 0x00 || t == 0x02 {
            Some(FrameKind::MessageTail)
        } else if t == 0x01 || t == 0x03 {
            Some(FrameKind::MessagePart)
        } else if t == 0x04 || t == 0x06 {
            Some(FrameKind::Command)
        } else {
            None
        }
    }

    /// The body length the frame declares; `None` when the tag is invalid,
    /// the length field is incomplete, or the value does not fit `usize`.
    pub fn size(&self) -> (r: Option<usize>)
        ensures
            match r {
                Some(n) => {
                    &&& self@.len() >= 1
                    &&& spec_tag_valid(self@[0])
                    &&& self@.len() >= spec_header_len(self@[0])
                    &&& n as int == spec_declared_len(self@)
                },
                None => self@.len() == 0 || !spec_tag_valid(self@[0]) || self@.len()
                    < spec_header_len(self@[0]) || spec_declared_len(self@) > usize::MAX,
            },
    {
        if self.bytes.len() == 0 {
            return None;
        }
        let t = self.bytes[0];
        if t == 0x00 || t == 0x01 || t == 0x04 {
            if self.bytes.len() < 2 {
                return None;
            }
            Some(self.bytes[1] as usize)
        } else if t == 0x02 || t == 0x03 || t == 0x06 {
            if self.bytes.len() < 9 {
                return None;
            }
            let len_field = slice_subrange(self.bytes, 1, 9);
            let v = be_decode_u64(len_field);
            if v > usize::MAX as u64 {
                return None;
            }
            Some(v as usize)
        } else {
            None
        }
    }

    /// Whether the slice is a complete, well-formed frame.
    pub fn check(&self) -> (r: bool)
        ensures
            r == frame_wf(self@),
    {
        if self.bytes.len() == 0 {
            return false;
        }
        let t = self.bytes[0];
        if t == 0x00 || t == 0x01 || t == 0x04 {
            self.bytes.len() >= 2 && (self.bytes[1] as usize) == self.bytes.len() - 2
        } else if t == 0x02 || t == 0x03 || t == 0x06 {
            if self.bytes.len() < 9 {
                return false;
            }
            let len_field = slice_subrange(self.bytes, 1, 9);
            let v = be_decode_u64(len_field);
            proof {
                lemma_be_val_bound(self@.subrange(1, 9));
            }
            v == (self.bytes.len() - 9) as u64
        } else {
            false
        }
    }

    /// Reclassifies the frame as a command, when it is a well-formed
    /// command frame.
    pub fn try_into_command(self) -> (r: Option<Command<'a>>)
        ensures
            match r {
                Some(c) => {
                    &&& frame_wf(self@)
                    &&& spec_tag_command(self@[0])
                    &&& c@ == self@
                },
                None => !(frame_wf(self@) && spec_tag_command(self@[0])),
            },
    {
        if !self.check() {
            return None;
        }
        let t = self.bytes[0];
        if t == 0x04 || t == 0x06 {
            Some(Command { frame: self })
        } else {
            None
        }
    }

    /// Reclassifies the frame as a message part, when it is a well-formed
    /// message frame.
    pub fn try_into_message(self) -> (r: Option<Message<'a>>)
        ensures
            match r {
                Some(m) => {
                    &&& frame_wf(self@)
                    &&& !spec_tag_command(self@[0])
                    &&& m@ == self@
                    &&& m.spec_is_last() == !spec_tag_more(self@[0])
                },
                None => !(frame_wf(self@) && !spec_tag_command(self@[0])),
            },
    {
        if !self.check() {
            return None;
        }
        let t = self.bytes[0];
        if t == 0x00 || t == 0x02 {
            Some(Message { frame: self, is_last: true })
        } else if t == 0x01 || t == 0x03 {
            Some(Message { frame: self, is_last: false })
        } else {
            None
        }
    }
}

// -- Message<'a>

/// A view over a well-formed message frame.
pub struct Message<'a> {
    frame: Frame<'a>,
    is_last: bool,
}

impl<'a> View for Message<'a> {
    type V = Seq<u8>;

    closed spec fn view(&self) -> Seq<u8> {
        self.frame@
    }
}

impl<'a> Message<'a> {
    /// Whether this frame ends its multipart message.
    pub closed spec fn spec_is_last(&self) -> bool {
        self.is_last
    }

    /// Whether this frame ends its multipart message.
    pub fn is_last(&self) -> (r: bool)
        ensures
            r == self.spec_is_last(),
    {
        self.is_last
    }

    /// The frame's body: the user payload this part carries.
    pub fn body(&self) -> (r: &'a [u8])
        requires
            frame_wf(self@),
        ensures
            r@ == frame_body(self@),
    {
        let t = self.frame.bytes[0];
        let start: usize = if t == 0x00 || t == 0x01 || t == 0x04 {
            2
        } else {
            9
        };
        slice_subrange(self.frame.bytes, start, self.frame.bytes.len())
    }
}

// -- OwnedFrame

/// An owned frame whose bytes have been validated on construction.
#[derive(Debug, PartialEq)]
pub struct OwnedFrame {
    bytes: Vec<u8>,
}

impl View for OwnedFrame {
    type V = Seq<u8>;

    closed spec fn view(&self) -> Seq<u8> {
        self.bytes@
    }
}

impl OwnedFrame {
    #[verifier::type_invariant]
    closed spec fn inv(self) -> bool {
        frame_wf(self.bytes@)
    }

    /// Takes ownership of an already validated frame.
    pub fn new(bytes: Vec<u8>) -> (r: Self)
        requires
            frame_wf(bytes@),
        ensures
            r@ == bytes@,
    {
        OwnedFrame { bytes }
    }

    /// Borrows the validated frame.
    pub fn as_ref<'a>(&'a self) -> (r: Frame<'a>)
        ensures
            r@ == self@,
            frame_wf(r@),
    {
        proof {
            use_type_invariant(self);
        }
        Frame { bytes: self.bytes.as_slice() }
    }
}

// -- Command<'a>

/// A view over a well-formed command frame.
pub struct Command<'a> {
    pub(crate) frame: Frame<'a>,
}

impl<'a> View for Command<'a> {
    type V = Seq<u8>;

    closed spec fn view(&self) -> Seq<u8> {
        self.frame@
    }
}

impl<'a> Command<'a> {
    /// Wraps a frame, trusting the caller that it is a command frame.
    pub fn new(frame: Frame<'a>) -> (r: Self)
        ensures
            r@ == frame@,
    {
        Command { frame }
    }

    /// The command's raw frame bytes.
    pub(crate) fn raw(&self) -> (r: &'a [u8])
        ensures
            r@ == self@,
    {
        self.frame.bytes
    }
}

/// How many length bytes follow a frame's tag on the wire: one for a
/// short tag, eight for a long one.  An invalid tag is a malformed
/// frame.
pub fn length_field_len(tag: u8) -> (r: Result<usize, ZmtpError>)
    ensures
        match r {
            Ok(n) => spec_tag_valid(tag) && n as int == spec_header_len(tag) - 1,
            Err(e) => e == ZmtpError::MalformedFrame && !spec_tag_valid(tag),
        },
{
    if tag == 0x00 || tag == 0x01 || tag == 0x04 {
        Ok(1)
    } else if tag == 0x02 || tag == 0x03 || tag == 0x06 {
        Ok(8)
    } else {
        Err(ZmtpError::MalformedFrame)
    }
}

/// The body length a frame's length field declares.
pub fn declared_body_len(tag: u8, len_bytes: &[u8]) -> (r: u64)
    requires
        spec_tag_valid(tag),
        len_bytes@.len() == spec_header_len(tag) - 1,
    ensures
        r as int == if spec_tag_long(tag) {
            spec_be_val(len_bytes@)
        } else {
            len_bytes@[0] as int
        },
{
    if tag == 0x02 || tag == 0x03 || tag == 0x06 {
        be_decode_u64(len_bytes)
    } else {
        len_bytes[0] as u64
    }
}

/// Compares two byte slices for equality.
pub(crate) fn bytes_eq(a: &[u8], b: &[u8]) -> (r: bool)
    ensures
        r == (a@ == b@),
{
    if a.len() != b.len() {
        return false;
    }
    let mut i: usize = 0;
    while i < a.len()
        invariant
            a@.len() == b@.len(),
            i <= a@.len(),
            forall|j: int| 0 <= j < i ==> a@[j] == b@[j],
        decreases a@.len() - i,
    {
        if a[i] != b[i] {
            return false;
        }
        i = i + 1;
    }
    proof {
        assert(a@ =~= b@);
    }
    true
}

/// Copies a borrowed byte slice into an owned vector.
pub(crate) fn copy_slice(src: &[u8]) -> (r: Vec<u8>)
    ensures
        r@ == src@,
{
    let r = slice_to_vec(src);
    assert(r@ =~= src@);
    r
}

} // verus!
