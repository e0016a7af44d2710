//! SUB-side topic subscriptions and prefix matching.
//!
//! An entry is kept in one of three forms, by the topic's size: the empty
//! topic (matches everything), a short literal kept verbatim, or — for
//! topics longer than eight bytes — a 64-bit hash of the topic together
//! with its length.  The hashed form trades exactness for space: a hash
//! collision delivers a message the subscriber did not ask for, which is
//! harmless because the publisher's side filters authoritatively.

use crate::frame::bytes_eq;
use vstd::prelude::*;
use vstd::slice::slice_subrange;

verus! {

/// The FNV-1a offset basis.
pub open spec fn spec_hash_basis() -> u64 {
    0xcbf2_9ce4_8422_2325u64
}

/// The FNV-1a prime.
pub open spec fn spec_hash_prime() -> u64 {
    0x100_0000_01b3u64
}

/// The 64-bit FNV-1a hash of `s`: deterministic, so the hash recorded at
/// subscription time can be compared against hashes of incoming prefixes.
pub open spec fn spec_topic_hash(s: Seq<u8>) -> u64
    decreases s.len(),
{
    if s.len() == 0 {
        spec_hash_basis()
    } else {
        vstd::wrapping::u64_specs::wrapping_mul(
            spec_topic_hash(s.drop_last()) ^ (s.last() as u64),
            spec_hash_prime(),
        )
    }
}

/// Computes [`spec_topic_hash`] over a byte slice.
pub fn topic_hash(bytes: &[u8]) -> (h: u64)
    ensures
        h == spec_topic_hash(bytes@),
{
    let mut h: u64 = 0xcbf2_9ce4_8422_2325;
    let mut i: usize = 0;
    while i < bytes.len()
        invariant
            i <= bytes@.len(),
            h == spec_topic_hash(bytes@.subrange(0, i as int)),
        decreases bytes@.len() - i,
    {
        h = (h ^ (bytes[i] as u64)).wrapping_mul(0x100_0000_01b3);
        proof {
            assert(bytes@.subrange(0, i + 1).drop_last() =~= bytes@.subrange(0, i as int));
            assert(bytes@.subrange(0, i + 1).last() == bytes@[i as int]);
        }
        i = i + 1;
    }
    proof {
        assert(bytes@.subrange(0, bytes@.len() as int) =~= bytes@);
    }
    h
}

/// The mathematical shape of one subscription entry.
pub enum TopicModel {
    /// The empty topic: matches every message.
    Empty,
    /// A short topic kept verbatim; matches bodies it prefixes.
    Literal(Seq<u8>),
    /// A longer topic kept as hash and length; matches bodies whose
    /// prefix of that length has that hash.
    Hashed { value: u64, length: nat },
}

/// One subscription entry as a SUB socket stores it.
#[derive(Debug, Clone)]
pub enum SubTopic {
    /// The empty topic.
    Empty,
    /// A topic of one to eight bytes, kept verbatim.
    Literal(Vec<u8>),
    /// A topic longer than eight bytes, kept as the hash of its bytes
    /// together with its length.
    Hashed {
        /// The topic's [`spec_topic_hash`].
        value: u64,
        /// The topic's length in bytes.
        length: u8,
    },
}

impl View for SubTopic {
    type V = TopicModel;

    open spec fn view(&self) -> TopicModel {
        match self {
            SubTopic::Empty => TopicModel::Empty,
            SubTopic::Literal(p) => TopicModel::Literal(p@),
            SubTopic::Hashed { value, length } => TopicModel::Hashed {
                value: *value,
                length: *length as nat,
            },
        }
    }
}

impl DeepView for SubTopic {
    type V = TopicModel;

    open spec fn deep_view(&self) -> TopicModel {
        self.view()
    }
}

/// The entry recorded when subscribing to `topic`: empty, literal, or
/// hashed, by the topic's size.
pub open spec fn spec_topic_entry(topic: Seq<u8>) -> TopicModel {
    if topic.len() == 0 {
        TopicModel::Empty
    } else if topic.len() <= 8 {
        TopicModel::Literal(topic)
    } else {
        TopicModel::Hashed { value: spec_topic_hash(topic), length: topic.len() }
    }
}

/// Builds the stored entry for `topic`.
pub fn make_topic_entry(topic: &[u8]) -> (r: SubTopic)
    requires
        topic@.len() <= 255,
    ensures
        r@ == spec_topic_entry(topic@),
{
    if topic.len() == 0 {
        SubTopic::Empty
    } else if topic.len() <= 8 {
        SubTopic::Literal(crate::frame::copy_slice(topic))
    } else {
        SubTopic::Hashed { value: topic_hash(topic), length: topic.len() as u8 }
    }
}

/// Whether one entry matches a message whose first frame's body is
/// `body`.
pub open spec fn spec_topic_matches(t: TopicModel, body: Seq<u8>) -> bool {
    match t {
        TopicModel::Empty => true,
        TopicModel::Literal(p) => body.len() >= p.len() && body.subrange(0, p.len() as int) == p,
        TopicModel::Hashed { value, length } => body.len() >= length && spec_topic_hash(
            body.subrange(0, length as int),
        ) == value,
    }
}

/// Whether any entry of `topics` matches `body`: the subscription set is
/// a logical OR.
pub open spec fn spec_topics_match(topics: Seq<TopicModel>, body: Seq<u8>) -> bool {
    exists|i: int| 0 <= i < topics.len() && spec_topic_matches(topics[i], body)
}

/// A subscription set holding only the empty topic matches every message
/// body.
pub proof fn lemma_empty_topic_matches_all(body: Seq<u8>)
    ensures
        spec_topics_match(seq![TopicModel::Empty], body),
{
    let topics = seq![TopicModel::Empty];
    assert(spec_topic_matches(topics[0], body));
}

/// An empty subscription set matches no message body.
pub proof fn lemma_no_topics_match_nothing(body: Seq<u8>)
    ensures
        !spec_topics_match(Seq::empty(), body),
{
}

/// A subscribed topic's entry matches every body that the topic itself
/// prefixes; in particular, a body equal to the topic.
pub proof fn lemma_subscribed_prefix_matches(topic: Seq<u8>, body: Seq<u8>)
    requires
        body.len() >= topic.len(),
        body.subrange(0, topic.len() as int) == topic,
    ensures
        spec_topic_matches(spec_topic_entry(topic), body),
{
}

/// Compares two stored entries for equality of what they denote.
pub(crate) fn sub_topic_eq(a: &SubTopic, b: &SubTopic) -> (r: bool)
    ensures
        r == (a@ == b@),
{
    match (a, b) {
        (SubTopic::Empty, SubTopic::Empty) => true,
        (SubTopic::Literal(p), SubTopic::Literal(q)) => bytes_eq(p.as_slice(), q.as_slice()),
        (
            SubTopic::Hashed { value: v1, length: l1 },
            SubTopic::Hashed { value: v2, length: l2 },
        ) => *v1 == *v2 && *l1 == *l2,
        _ => false,
    }
}

/// Decides [`spec_topic_matches`] for one stored entry.
pub fn topic_matches(t: &SubTopic, body: &[u8]) -> (r: bool)
    ensures
        r == spec_topic_matches(t@, body@),
{
    match t {
        SubTopic::Empty => true,
        SubTopic::Literal(p) => {
            if body.len() >= p.len() {
                bytes_eq(slice_subrange(body, 0, p.len()), p.as_slice())
            } else {
                false
            }
        },
        SubTopic::Hashed { value, length } => {
            let len = *length as usize;
            if body.len() >= len {
                topic_hash(slice_subrange(body, 0, len)) == *value
            } else {
                false
            }
        },
    }
}

/// Decides [`spec_topics_match`] for a stored subscription set.
pub fn topics_match(topics: &Vec<SubTopic>, body: &[u8]) -> (r: bool)
    ensures
        r == spec_topics_match(topics.deep_view(), body@),
{
    let mut i: usize = 0;
    while i < topics.len()
        invariant
            i <= topics@.len(),
            topics.deep_view().len() == topics@.len(),
            forall|j: int|
                0 <= j < i ==> !spec_topic_matches(#[trigger] topics.deep_view()[j], body@),
        decreases topics@.len() - i,
    {
        if topic_matches(&topics[i], body) {
            proof {
                assert(spec_topic_matches(topics.deep_view()[i as int], body@));
            }
            return true;
        }
        i = i + 1;
    }
    false
}

} // verus!
