//! Multipart messages: the send path encodes an ordered, non-empty list
//! of payload parts into frames (every part but the last marked MORE);
//! the receive path assembles frames back into the payload list.

use crate::endian::pow256;
use crate::error::ZmtpError;
use crate::frame::{
    frame_body, frame_wf, lemma_spec_frame_wf, spec_frame, spec_tag_command, spec_tag_more,
    FrameBuf,
};
use vstd::prelude::*;

verus! {

/// The tag a message part carries: short or long by the body size, MORE
/// or LAST by position.
pub open spec fn spec_part_tag(body: Seq<u8>, last: bool) -> u8 {
    if body.len() <= 255 {
        if last {
            0x00
        } else {
            0x01
        }
    } else {
        if last {
            0x02
        } else {
            0x03
        }
    }
}

/// The serialized frame of one message part.
pub open spec fn spec_encode_part(body: Seq<u8>, last: bool) -> Seq<u8> {
    spec_frame(spec_part_tag(body, last), body)
}

/// The frames of a multipart payload, in order: every part except the
/// last is a MORE frame, the last is a LAST frame.
pub open spec fn spec_encode_multipart(parts: Seq<Seq<u8>>) -> Seq<Seq<u8>> {
    Seq::new(parts.len(), |i: int| spec_encode_part(parts[i], i == parts.len() - 1))
}

/// Encodes a multipart payload into the frames to write, in order.  An
/// empty payload is invalid input.
pub fn encode_multipart(parts: &Vec<Vec<u8>>) -> (r: Result<Vec<FrameBuf>, ZmtpError>)
    ensures
        match r {
            Ok(frames) => {
                &&& parts@.len() >= 1
                &&& frames@.len() == parts@.len()
                &&& forall|i: int|
                    0 <= i < frames@.len() ==> (#[trigger] frames@[i])@ == spec_encode_multipart(
                        parts.deep_view(),
                    )[i]
            },
            Err(e) => e == ZmtpError::InvalidInput && parts@.len() == 0,
        },
{
    if parts.len() == 0 {
        return Err(ZmtpError::InvalidInput);
    }
    let n = parts.len();
    let mut frames: Vec<FrameBuf> = Vec::new();
    let mut i: usize = 0;
    while i < n
        invariant
            n == parts@.len(),
            n >= 1,
            i <= n,
            frames@.len() == i,
            forall|j: int|
                0 <= j < i ==> (#[trigger] frames@[j])@ == spec_encode_multipart(
                    parts.deep_view(),
                )[j],
        decreases n - i,
    {
        let body: &Vec<u8> = &parts[i];
        let last = i == n - 1;
        let tag: u8 = if body.len() <= 255 {
            if last {
                0x00
            } else {
                0x01
            }
        } else {
            if last {
                0x02
            } else {
                0x03
            }
        };
        let frame = match FrameBuf::from_parts(tag, body.as_slice()) {
            Ok(f) => f,
            Err(_) => {
                proof {
                    assert(false);
                }
                vstd::pervasive::unreached()
            },
        };
        proof {
            assert(parts.deep_view()[i as int] =~= body@);
            assert(frame@ == spec_encode_part(parts.deep_view()[i as int], last));
        }
        frames.push(frame);
        i = i + 1;
    }
    Ok(frames)
}

/// What feeding `frames` one at a time into a multipart assembler that
/// already collected `acc` yields: the full payload when the frames are
/// well-formed message frames ending in exactly one LAST frame, nothing
/// otherwise.
pub open spec fn spec_recv_multipart(acc: Seq<Seq<u8>>, frames: Seq<Seq<u8>>) -> Option<
    Seq<Seq<u8>>,
>
    decreases frames.len(),
{
    if frames.len() == 0 {
        None
    } else {
        let f = frames[0];
        if !frame_wf(f) || spec_tag_command(f[0]) {
            None
        } else if !spec_tag_more(f[0]) {
            if frames.len() == 1 {
                Some(acc.push(frame_body(f)))
            } else {
                None
            }
        } else {
            spec_recv_multipart(acc.push(frame_body(f)), frames.drop_first())
        }
    }
}

/// Collects message frames until a LAST frame completes the multipart
/// payload.  One step of this assembler is one step of
/// [`spec_recv_multipart`]: a MORE frame extends the collected parts, a
/// LAST frame yields them, a command frame is a protocol error here.
#[derive(Debug)]
pub struct Assembler {
    parts: Vec<Vec<u8>>,
}

impl Assembler {
    /// The message parts collected so far.
    pub closed spec fn spec_parts(self) -> Seq<Seq<u8>> {
        self.parts.deep_view()
    }

    /// An assembler with nothing collected.
    pub fn new() -> (r: Self)
        ensures
            r.spec_parts() == Seq::<Seq<u8>>::empty(),
    {
        let r = Assembler { parts: Vec::new() };
        proof {
            assert(r.spec_parts() =~= Seq::<Seq<u8>>::empty());
        }
        r
    }

    /// Feeds one received frame.  Returns the completed payload once the
    /// LAST frame arrives, `None` while more frames are owed.  A command
    /// frame is out of place in a multipart message; the collected state
    /// is kept so the caller decides what to do.
    pub fn push_frame(&mut self, frame: &FrameBuf) -> (r: Result<
        Option<Vec<Vec<u8>>>,
        ZmtpError,
    >)
        ensures
            match r {
                Ok(Some(msg)) => {
                    &&& frame_wf(frame@)
                    &&& !spec_tag_command(frame@[0])
                    &&& !spec_tag_more(frame@[0])
                    &&& msg.deep_view() == old(self).spec_parts().push(frame_body(frame@))
                    &&& final(self).spec_parts() == Seq::<Seq<u8>>::empty()
                },
                Ok(None) => {
                    &&& frame_wf(frame@)
                    &&& !spec_tag_command(frame@[0])
                    &&& spec_tag_more(frame@[0])
                    &&& final(self).spec_parts() == old(self).spec_parts().push(
                        frame_body(frame@),
                    )
                },
                Err(e) => {
                    &&& final(self).spec_parts() == old(self).spec_parts()
                    &&& if !frame_wf(frame@) {
                        e == ZmtpError::MalformedFrame
                    } else {
                        spec_tag_command(frame@[0]) && e == ZmtpError::ProtocolViolation
                    }
                },
            },
    {
        let f = frame.as_frame();
        if !f.check() {
            return Err(ZmtpError::MalformedFrame);
        }
        match f.try_into_message() {
            None => Err(ZmtpError::ProtocolViolation),
            Some(m) => {
                let body = crate::frame::copy_slice(m.body());
                if m.is_last() {
                    let ghost parts_old = self.spec_parts();
                    self.parts.push(body);
                    proof {
                        assert(self.spec_parts() =~~= parts_old.push(frame_body(frame@)));
                    }
                    let mut msg: Vec<Vec<u8>> = Vec::new();
                    core::mem::swap(&mut msg, &mut self.parts);
                    proof {
                        assert(self.spec_parts() =~= Seq::<Seq<u8>>::empty());
                    }
                    Ok(Some(msg))
                } else {
                    let ghost parts_old = self.spec_parts();
                    self.parts.push(body);
                    proof {
                        assert(self.spec_parts() =~~= parts_old.push(frame_body(frame@)));
                    }
                    Ok(None)
                }
            },
        }
    }
}

/// A send followed by a receive is the identity: assembling the frames
/// of an encoded multipart payload yields exactly that payload, for any
/// non-empty payload whose parts fit the wire's 8-byte length fields.
pub proof fn lemma_multipart_round_trip(parts: Seq<Seq<u8>>)
    requires
        parts.len() >= 1,
        forall|i: int| 0 <= i < parts.len() ==> (#[trigger] parts[i]).len() < pow256(8),
    ensures
        spec_recv_multipart(Seq::empty(), spec_encode_multipart(parts)) == Some(parts),
{
    lemma_recv_encoded(Seq::empty(), parts);
    assert(Seq::<Seq<u8>>::empty() + parts =~= parts);
}

/// The inductive core of the round trip, generalized over the frames
/// already assembled.
proof fn lemma_recv_encoded(acc: Seq<Seq<u8>>, parts: Seq<Seq<u8>>)
    requires
        parts.len() >= 1,
        forall|i: int| 0 <= i < parts.len() ==> (#[trigger] parts[i]).len() < pow256(8),
    ensures
        spec_recv_multipart(acc, spec_encode_multipart(parts)) == Some(acc + parts),
    decreases parts.len(),
{
    let frames = spec_encode_multipart(parts);
    let last = parts.len() == 1;
    let tag = spec_part_tag(parts[0], last);
    let f = frames[0];
    lemma_spec_frame_wf(tag, parts[0]);
    assert(f == spec_frame(tag, parts[0]));
    assert(frame_wf(f) && !spec_tag_command(f[0]) && frame_body(f) == parts[0]);
    if last {
        assert(!spec_tag_more(f[0]));
        assert(acc.push(parts[0]) =~= acc + parts);
    } else {
        assert(spec_tag_more(f[0]));
        assert(frames.drop_first() =~= spec_encode_multipart(parts.drop_first()));
        lemma_recv_encoded(acc.push(parts[0]), parts.drop_first());
        assert(acc.push(parts[0]) + parts.drop_first() =~= acc + parts);
    }
}

} // verus!
