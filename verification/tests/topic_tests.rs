//! Topic derivation and the topic-to-logs registry.

use delta_core::bytesfmt::bytes_to_hex;
use delta_core::topics::{
    topic_id_for_discovery, topic_id_for_dm, topic_id_for_org, topic_id_for_room, TopicLogMap,
};

#[test]
fn org_topic_is_deterministic() {
    let id = "abc123";
    assert_eq!(topic_id_for_org(id), topic_id_for_org(id));
}

#[test]
fn room_topic_differs_from_org_topic() {
    let id = "abc123";
    assert_ne!(topic_id_for_org(id), topic_id_for_room(id));
}

#[test]
fn dm_topic_is_symmetric() {
    let a = "aaaa";
    let b = "bbbb";
    assert_eq!(topic_id_for_dm(a, b), topic_id_for_dm(b, a));
}

#[test]
fn dm_topic_differs_for_different_pairs() {
    assert_ne!(topic_id_for_dm("aaaa", "bbbb"), topic_id_for_dm("aaaa", "cccc"));
}

#[test]
fn discovery_topic_is_case_insensitive() {
    assert_eq!(topic_id_for_discovery("Rustaceans"), topic_id_for_discovery("rustaceans"));
}

#[test]
fn topic_matches_external_hasher() {
    // The derivation is BLAKE3 over a domain-separated scope string.
    let expected = *p2panda_core::Hash::digest(b"delta:org:abc123").as_bytes();
    assert_eq!(topic_id_for_org("abc123"), expected);
}

#[test]
fn topic_hex_roundtrip() {
    let topic: [u8; 32] = [0xab; 32];
    let hex = bytes_to_hex(&topic);
    assert_eq!(hex.len(), 64);
    assert!(hex.chars().all(|c| c.is_ascii_hexdigit()));
    assert!(hex.starts_with("ab"));
}

#[test]
fn topic_map_unknown_topic_returns_empty_logs() {
    let map = TopicLogMap::new();
    let unknown = [0u8; 32];
    let logs = map.get(&unknown);
    assert!(logs.is_empty());
}

#[test]
fn topic_map_insert_and_retrieve() {
    let mut map = TopicLogMap::new();
    let topic = topic_id_for_room("room-1");
    map.insert(&topic, "author-a", "1");

    let logs = map.get(&topic);
    assert_eq!(logs.len(), 1);
    assert_eq!(logs[0].0, "author-a");
    assert_eq!(logs[0].1, "1");
}

#[test]
fn topic_map_accumulates_logs_for_same_author() {
    let mut map = TopicLogMap::new();
    let topic = topic_id_for_room("room-2");
    map.insert(&topic, "author-a", "1");
    map.insert(&topic, "author-a", "2");

    let logs = map.get(&topic);
    let mut ids: Vec<String> = logs.into_iter().map(|(_, l)| l).collect();
    ids.sort();
    assert_eq!(ids, vec!["1".to_string(), "2".to_string()]);
}

#[test]
fn topic_map_insert_is_idempotent() {
    let mut map = TopicLogMap::new();
    let topic = topic_id_for_room("room-4");
    map.insert(&topic, "author-a", "1");
    map.insert(&topic, "author-a", "1");
    assert_eq!(map.get(&topic).len(), 1);
}

#[test]
fn topic_map_remove_clears_topic() {
    let mut map = TopicLogMap::new();
    let topic = topic_id_for_room("room-3");
    map.insert(&topic, "author-a", "1");
    map.remove(&topic);

    let logs = map.get(&topic);
    assert!(logs.is_empty());
}
