//! The subscription hash and entry matching, directly on the
//! subscription module's public functions.

use zedmq::subscription::{make_topic_entry, topic_hash, topic_matches, topics_match, SubTopic};

#[test]
fn topic_hash_known_values() {
    // FNV-1a, 64 bit: offset basis for the empty input, then one
    // xor-multiply round per byte.
    assert_eq!(topic_hash(&[]), 0xcbf2_9ce4_8422_2325);
    assert_eq!(topic_hash(b"a"), 0xaf63_dc4c_8601_ec8c);
    assert_eq!(topic_hash(b"foobar"), 0x8594_4171_f739_67e8);
}

#[test]
fn topic_hash_is_deterministic() {
    let topic = b"some-long-topic-name";
    assert_eq!(topic_hash(topic), topic_hash(topic));
}

#[test]
fn entry_forms_by_size() {
    assert!(matches!(make_topic_entry(&[]), SubTopic::Empty));
    assert!(matches!(make_topic_entry(&[1, 2, 3]), SubTopic::Literal(_)));
    assert!(matches!(make_topic_entry(&[9u8; 8]), SubTopic::Literal(_)));
    match make_topic_entry(b"nine-bytes") {
        SubTopic::Hashed { value, length } => {
            assert_eq!(length, 10);
            assert_eq!(value, topic_hash(b"nine-bytes"));
        }
        other => panic!("ten-byte topic should hash, got {:?}", other),
    }
}

#[test]
fn empty_entry_matches_all_bodies() {
    let entry = make_topic_entry(&[]);
    assert!(topic_matches(&entry, &[]));
    assert!(topic_matches(&entry, b"anything at all"));
}

#[test]
fn literal_entry_is_a_prefix_test() {
    let entry = make_topic_entry(&[0xDE, 0xAD]);
    assert!(topic_matches(&entry, &[0xDE, 0xAD]));
    assert!(topic_matches(&entry, &[0xDE, 0xAD, 0xBE]));
    assert!(!topic_matches(&entry, &[0xDE]));
    assert!(!topic_matches(&entry, &[0xAD, 0xDE, 0xAD]));
}

#[test]
fn hashed_entry_matches_its_prefix_length() {
    let topic = b"long-enough-topic";
    let entry = make_topic_entry(topic);
    let mut body = topic.to_vec();
    assert!(topic_matches(&entry, &body));
    body.push(0xFF);
    assert!(topic_matches(&entry, &body));
    assert!(!topic_matches(&entry, &body[..topic.len() - 1]));
}

#[test]
fn topic_set_is_an_or() {
    let topics = vec![make_topic_entry(&[0x01]), make_topic_entry(&[0x02])];
    assert!(topics_match(&topics, &[0x01, 0xAA]));
    assert!(topics_match(&topics, &[0x02]));
    assert!(!topics_match(&topics, &[0x03]));
    assert!(!topics_match(&vec![], &[0x01]));
}
