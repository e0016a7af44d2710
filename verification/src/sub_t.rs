//! The SUB pattern: receive-only subscriber with topic filtering.
//!
//! `subscribe` records the topic locally and yields the legacy subscribe
//! frame to send: a LAST message frame whose body is `0x01` followed by
//! the topic (`0x00` for `cancel`).  On receive, the first frame of each
//! incoming message is matched against every recorded subscription; a
//! match delivers the whole multipart payload, a miss consumes and
//! discards it.  Command frames between messages are silently skipped.

use crate::error::ZmtpError;
use crate::frame::{
    copy_slice, frame_body, frame_wf, push_all, spec_tag_command, spec_tag_more, FrameBuf,
};
use crate::multipart::spec_encode_part;
use crate::socket_type::{spec_sub_name, SocketType};
use crate::subscription::{
    make_topic_entry, spec_topic_entry, spec_topics_match, topics_match, SubTopic, TopicModel,
};
use vstd::prelude::*;

verus! {

/// Where a SUB socket stands between messages.
#[derive(Clone, Copy, Debug, PartialEq, Eq, Structural)]
pub enum SubMode {
    /// Awaiting the first frame of the next message.
    Idle,
    /// Collecting the remaining frames of a matched message.
    Collecting,
    /// Consuming the remaining frames of a rejected message.
    Discarding,
}

/// The frame sent to subscribe to `topic`.
pub open spec fn spec_subscribe_frame(topic: Seq<u8>) -> Seq<u8> {
    spec_encode_part(seq![0x01u8] + topic, true)
}

/// The frame sent to cancel a subscription to `topic`.
pub open spec fn spec_cancel_frame(topic: Seq<u8>) -> Seq<u8> {
    spec_encode_part(seq![0x00u8] + topic, true)
}

/// A SUB socket's protocol state: its subscriptions and the progress of
/// the message being received.
#[derive(Debug)]
pub struct Sub {
    topics: Vec<SubTopic>,
    mode: SubMode,
    parts: Vec<Vec<u8>>,
}

impl Sub {
    /// A SUB socket in a consistent state: between messages (idle or
    /// discarding) nothing is collected.
    pub closed spec fn wf(self) -> bool {
        (self.mode == SubMode::Idle || self.mode == SubMode::Discarding) ==> self.parts@.len()
            == 0
    }

    /// The recorded subscription entries, in subscription order.
    pub closed spec fn spec_topics(self) -> Seq<TopicModel> {
        self.topics.deep_view()
    }

    /// Where the socket stands between messages.
    pub closed spec fn spec_mode(self) -> SubMode {
        self.mode
    }

    /// The parts of the matched message collected so far.
    pub closed spec fn spec_parts(self) -> Seq<Seq<u8>> {
        self.parts.deep_view()
    }

    /// A SUB socket with no subscriptions.
    pub fn new() -> (r: Self)
        ensures
            r.wf(),
            r.spec_topics() == Seq::<TopicModel>::empty(),
            r.spec_mode() == SubMode::Idle,
            r.spec_parts() == Seq::<Seq<u8>>::empty(),
    {
        let r = Sub { topics: Vec::new(), mode: SubMode::Idle, parts: Vec::new() };
        proof {
            assert(r.spec_topics() =~= Seq::<TopicModel>::empty());
            assert(r.spec_parts() =~= Seq::<Seq<u8>>::empty());
        }
        r
    }

    /// Records a subscription and yields the legacy subscribe frame to
    /// send.  Topics longer than 255 bytes are invalid input.
    pub fn subscribe(&mut self, topic: &[u8]) -> (r: Result<FrameBuf, ZmtpError>)
        requires
            old(self).wf(),
        ensures
            final(self).wf(),
            match r {
                Ok(frame) => {
                    &&& topic@.len() <= 255
                    &&& frame@ == spec_subscribe_frame(topic@)
                    &&& frame_wf(frame@)
                    &&& final(self).spec_topics() == old(self).spec_topics().push(
                        spec_topic_entry(topic@),
                    )
                    &&& final(self).spec_mode() == old(self).spec_mode()
                    &&& final(self).spec_parts() == old(self).spec_parts()
                },
                Err(e) => {
                    &&& e == ZmtpError::InvalidInput
                    &&& topic@.len() > 255
                    &&& *final(self) == *old(self)
                },
            },
    {
        if topic.len() > 255 {
            return Err(ZmtpError::InvalidInput);
        }
        let entry = make_topic_entry(topic);
        let ghost topics_old = self.spec_topics();
        self.topics.push(entry);
        proof {
            assert(self.spec_topics() =~~= topics_old.push(spec_topic_entry(topic@)));
        }
        let frame = control_frame(0x01, topic);
        Ok(frame)
    }

    /// Removes every subscription recorded for `topic` and yields the
    /// legacy cancel frame to send.  Topics longer than 255 bytes are
    /// invalid input.
    pub fn cancel(&mut self, topic: &[u8]) -> (r: Result<FrameBuf, ZmtpError>)
        requires
            old(self).wf(),
        ensures
            final(self).wf(),
            match r {
                Ok(frame) => {
                    &&& topic@.len() <= 255
                    &&& frame@ == spec_cancel_frame(topic@)
                    &&& frame_wf(frame@)
                    &&& final(self).spec_topics() == old(self).spec_topics().filter(
                        |t: TopicModel| t != spec_topic_entry(topic@),
                    )
                    &&& final(self).spec_mode() == old(self).spec_mode()
                    &&& final(self).spec_parts() == old(self).spec_parts()
                },
                Err(e) => {
                    &&& e == ZmtpError::InvalidInput
                    &&& topic@.len() > 255
                    &&& *final(self) == *old(self)
                },
            },
    {
        if topic.len() > 255 {
            return Err(ZmtpError::InvalidInput);
        }
        let entry = make_topic_entry(topic);
        let ghost pred = |t: TopicModel| t != spec_topic_entry(topic@);
        let mut pending: Vec<SubTopic> = Vec::new();
        core::mem::swap(&mut pending, &mut self.topics);
        let ghost orig = pending.deep_view();
        proof {
            assert(orig =~~= old(self).spec_topics());
            assert(orig.take(0) =~= Seq::<TopicModel>::empty());
            reveal(Seq::filter);
            assert(self.spec_topics() =~= orig.take(0).filter(pred));
        }
        while pending.len() > 0
            invariant
                forall|tm: TopicModel| #[trigger] pred(tm) == (tm != spec_topic_entry(topic@)),
                entry@ == spec_topic_entry(topic@),
                orig == old(self).spec_topics(),
                pending.deep_view().len() == pending@.len(),
                pending@.len() <= orig.len(),
                pending.deep_view() == orig.subrange(
                    orig.len() - pending@.len(),
                    orig.len() as int,
                ),
                self.spec_topics() == orig.take(orig.len() - pending@.len()).filter(pred),
                self.spec_mode() == old(self).spec_mode(),
                self.spec_parts() == old(self).spec_parts(),
            decreases pending@.len(),
        {
            let ghost i = orig.len() - pending@.len();
            let ghost pend_old = pending.deep_view();
            let t = pending.remove(0);
            proof {
                assert(t.deep_view() == pend_old[0]);
                assert(pend_old[0] == orig[i]);
                assert(pending.deep_view() =~~= pend_old.drop_first());
                assert(pend_old.drop_first() =~= orig.subrange(i + 1, orig.len() as int));
            }
            let keep = !crate::subscription::sub_topic_eq(&t, &entry);
            let ghost kept_old = self.spec_topics();
            if keep {
                self.topics.push(t);
                proof {
                    assert(self.spec_topics() =~~= kept_old.push(orig[i]));
                }
            }
            proof {
                reveal(Seq::filter);
                assert(t@ == t.deep_view());
                assert(t@ == orig[i]);
                assert(keep == pred(orig[i]));
                assert(orig.take(i + 1).drop_last() =~= orig.take(i));
                assert(orig.take(i + 1).last() == orig[i]);
                assert(orig.take(i + 1).len() == i + 1);
                assert(orig.take(i + 1).filter(pred) == (if pred(orig[i]) {
                    orig.take(i).filter(pred).push(orig[i])
                } else {
                    orig.take(i).filter(pred)
                }));
                assert(self.spec_topics() =~= orig.take(i + 1).filter(pred));
            }
        }
        proof {
            assert(orig.take(orig.len() as int) =~= orig);
            assert(pred =~= (|t: TopicModel| t != spec_topic_entry(topic@)));
        }
        let frame = control_frame(0x00, topic);
        Ok(frame)
    }

    /// Consumes one received frame, filtering by the recorded
    /// subscriptions.  Returns a delivered payload when the LAST frame of
    /// a matched message arrives; `None` otherwise.  Command frames are
    /// silently skipped; only a malformed frame is an error.
    pub fn recv(&mut self, frame: &FrameBuf) -> (r: Result<Option<Vec<Vec<u8>>>, ZmtpError>)
        requires
            old(self).wf(),
        ensures
            final(self).wf(),
            final(self).spec_topics() == old(self).spec_topics(),
            match r {
                Err(e) => {
                    &&& e == ZmtpError::MalformedFrame
                    &&& !frame_wf(frame@)
                    &&& *final(self) == *old(self)
                },
                Ok(opt) => {
                    &&& frame_wf(frame@)
                    &&& if spec_tag_command(frame@[0]) {
                        &&& opt is None
                        &&& final(self).spec_mode() == old(self).spec_mode()
                        &&& final(self).spec_parts() == old(self).spec_parts()
                    } else {
                        let body = frame_body(frame@);
                        let last = !spec_tag_more(frame@[0]);
                        match old(self).spec_mode() {
                            SubMode::Idle => {
                                if spec_topics_match(old(self).spec_topics(), body) {
                                    if last {
                                        &&& (match opt {
                                            Some(msg) => msg.deep_view() == seq![body],
                                            None => false,
                                        })
                                        &&& final(self).spec_mode() == SubMode::Idle
                                        &&& final(self).spec_parts() == Seq::<Seq<u8>>::empty()
                                    } else {
                                        &&& opt is None
                                        &&& final(self).spec_mode() == SubMode::Collecting
                                        &&& final(self).spec_parts() == seq![body]
                                    }
                                } else {
                                    &&& opt is None
                                    &&& final(self).spec_parts() == Seq::<Seq<u8>>::empty()
                                    &&& final(self).spec_mode() == (if last {
                                        SubMode::Idle
                                    } else {
                                        SubMode::Discarding
                                    })
                                }
                            },
                            SubMode::Collecting => {
                                if last {
                                    &&& (match opt {
                                        Some(msg) => msg.deep_view() == old(
                                            self,
                                        ).spec_parts().push(body),
                                        None => false,
                                    })
                                    &&& final(self).spec_mode() == SubMode::Idle
                                    &&& final(self).spec_parts() == Seq::<Seq<u8>>::empty()
                                } else {
                                    &&& opt is None
                                    &&& final(self).spec_mode() == SubMode::Collecting
                                    &&& final(self).spec_parts() == old(self).spec_parts().push(
                                        body,
                                    )
                                }
                            },
                            SubMode::Discarding => {
                                &&& opt is None
                                &&& final(self).spec_parts() == Seq::<Seq<u8>>::empty()
                                &&& final(self).spec_mode() == (if last {
                                    SubMode::Idle
                                } else {
                                    SubMode::Discarding
                                })
                            },
                        }
                    }
                },
            },
    {
        let f = frame.as_frame();
        if !f.check() {
            return Err(ZmtpError::MalformedFrame);
        }
        let m = match f.try_into_message() {
            None => {
                return Ok(None);
            },
            Some(m) => m,
        };
        let body_slice = m.body();
        let last = m.is_last();
        match self.mode {
            SubMode::Idle => {
                if topics_match(&self.topics, body_slice) {
                    let body = copy_slice(body_slice);
                    if last {
                        let mut msg: Vec<Vec<u8>> = Vec::new();
                        msg.push(body);
                        proof {
                            assert(msg.deep_view() =~~= seq![frame_body(frame@)]);
                        }
                        Ok(Some(msg))
                    } else {
                        let ghost parts_old = self.spec_parts();
                        self.parts.push(body);
                        self.mode = SubMode::Collecting;
                        proof {
                            assert(self.spec_parts() =~~= seq![frame_body(frame@)]);
                        }
                        Ok(None)
                    }
                } else {
                    if !last {
                        self.mode = SubMode::Discarding;
                    }
                    Ok(None)
                }
            },
            SubMode::Collecting => {
                let body = copy_slice(body_slice);
                let ghost parts_old = self.spec_parts();
                self.parts.push(body);
                proof {
                    assert(self.spec_parts() =~~= parts_old.push(frame_body(frame@)));
                }
                if last {
                    let mut msg: Vec<Vec<u8>> = Vec::new();
                    core::mem::swap(&mut msg, &mut self.parts);
                    self.mode = SubMode::Idle;
                    proof {
                        assert(self.spec_parts() =~= Seq::<Seq<u8>>::empty());
                    }
                    Ok(Some(msg))
                } else {
                    Ok(None)
                }
            },
            SubMode::Discarding => {
                if last {
                    self.mode = SubMode::Idle;
                }
                Ok(None)
            },
        }
    }

    /// Consumes one received frame without any topic check, as a plain
    /// multipart receive: a command frame is a protocol error here.
    pub fn recv_unchecked(&mut self, frame: &FrameBuf) -> (r: Result<
        Option<Vec<Vec<u8>>>,
        ZmtpError,
    >)
        requires
            old(self).wf(),
        ensures
            final(self).wf(),
            final(self).spec_topics() == old(self).spec_topics(),
            match r {
                Ok(Some(msg)) => {
                    &&& frame_wf(frame@)
                    &&& !spec_tag_command(frame@[0])
                    &&& !spec_tag_more(frame@[0])
                    &&& msg.deep_view() == old(self).spec_parts().push(frame_body(frame@))
                    &&& final(self).spec_parts() == Seq::<Seq<u8>>::empty()
                    &&& final(self).spec_mode() == SubMode::Idle
                },
                Ok(None) => {
                    &&& frame_wf(frame@)
                    &&& !spec_tag_command(frame@[0])
                    &&& spec_tag_more(frame@[0])
                    &&& final(self).spec_parts() == old(self).spec_parts().push(
                        frame_body(frame@),
                    )
                    &&& final(self).spec_mode() == SubMode::Collecting
                },
                Err(e) => {
                    &&& final(self).spec_parts() == old(self).spec_parts()
                    &&& final(self).spec_mode() == old(self).spec_mode()
                    &&& if !frame_wf(frame@) {
                        e == ZmtpError::MalformedFrame
                    } else {
                        spec_tag_command(frame@[0]) && e == ZmtpError::ProtocolViolation
                    }
                },
            },
    {
        let f = frame.as_frame();
        if !f.check() {
            return Err(ZmtpError::MalformedFrame);
        }
        let m = match f.try_into_message() {
            None => {
                return Err(ZmtpError::ProtocolViolation);
            },
            Some(m) => m,
        };
        let body = copy_slice(m.body());
        let ghost parts_old = self.spec_parts();
        self.parts.push(body);
        proof {
            assert(self.spec_parts() =~~= parts_old.push(frame_body(frame@)));
        }
        if m.is_last() {
            let mut msg: Vec<Vec<u8>> = Vec::new();
            core::mem::swap(&mut msg, &mut self.parts);
            self.mode = SubMode::Idle;
            proof {
                assert(self.spec_parts() =~= Seq::<Seq<u8>>::empty());
            }
            Ok(Some(msg))
        } else {
            self.mode = SubMode::Collecting;
            Ok(None)
        }
    }
}

/// Builds a legacy subscription control frame: a LAST message frame whose
/// body is the marker byte followed by the topic.
fn control_frame(marker: u8, topic: &[u8]) -> (r: FrameBuf)
    requires
        topic@.len() <= 255,
    ensures
        r@ == spec_encode_part(seq![marker] + topic@, true),
        frame_wf(r@),
{
    let mut body: Vec<u8> = Vec::new();
    body.push(marker);
    push_all(&mut body, topic);
    let tag: u8 = if body.len() <= 255 {
        0x00
    } else {
        0x02
    };
    let frame = match FrameBuf::from_parts(tag, body.as_slice()) {
        Ok(f) => f,
        Err(_) => {
            proof {
                assert(false);
            }
            vstd::pervasive::unreached()
        },
    };
    proof {
        assert(body@ == seq![marker] + topic@);
        assert(frame@ == spec_encode_part(seq![marker] + topic@, true));
    }
    frame
}

impl SocketType for Sub {
    open spec fn spec_name() -> Seq<u8> {
        spec_sub_name()
    }

    fn name() -> (r: Vec<u8>) {
        let mut v: Vec<u8> = Vec::new();
        v.push(0x53);
        v.push(0x55);
        v.push(0x42);
        proof {
            assert(v@ =~= spec_sub_name());
        }
        v
    }
}

} // verus!
