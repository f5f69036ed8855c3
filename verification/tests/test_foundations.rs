use chaincraft::error::{ChaincraftError, NetworkError};
use chaincraft::json::{canonical_json, compute_digest, to_json_text, JsonNumber, JsonValue};
use chaincraft::json_map::JsonMap;
use chaincraft::nat_traversal::NatTraversalConfig;
use chaincraft::net::NetAddr;
use chaincraft::node::{
    clear_local_registry, digest_sync_step, gossip_round, unregister_local_node, ChaincraftNodeBuilder, LocalNodeRegistry,
    MemoryStorage, NodeConfig, PeerBook, PeerInfo, SyncAction,
};
use chaincraft::shared::{MessageType, PeerId, SharedMessage, StateDigest};
use chaincraft::state_memento::normalize_state_memento;
use chaincraft::storage::StorageMode;

fn text(t: &str) -> JsonValue {
    JsonValue::Str(t.to_string())
}

fn obj(entries: Vec<(&str, JsonValue)>) -> JsonValue {
    JsonValue::Object(entries.into_iter().map(|(k, v)| (k.to_string(), v)).collect())
}

fn addr(last: u8, port: u16) -> NetAddr {
    NetAddr::V4 { ip: u32::from_be_bytes([10, 0, 0, last]), port }
}

#[test]
fn test_json_text_and_canonical_form() {
    let v = obj(vec![
        ("b", JsonValue::Array(vec![JsonValue::Null, JsonValue::Bool(true)])),
        ("a", JsonValue::Number(JsonNumber::NegInt(-3))),
        ("c", text("q\"\n")),
    ]);
    assert_eq!(to_json_text(&v), "{\"b\":[null,true],\"a\":-3,\"c\":\"q\\\"\\n\"}");
    assert_eq!(to_json_text(&canonical_json(&v)), "{\"a\":-3,\"b\":[null,true],\"c\":\"q\\\"\\n\"}");
    assert_eq!(compute_digest(&obj(vec![("a", JsonValue::Number(JsonNumber::PosInt(1)))])).len(), 64);
}

#[test]
fn test_normalize_state_memento() {
    let m = normalize_state_memento("c", Some(vec!["b".to_string(), "a".to_string(), "b".to_string()]));
    assert_eq!(m.canonical_digest, "c");
    assert_eq!(m.frontier_digests, vec!["a".to_string(), "b".to_string(), "c".to_string()]);
    assert_eq!(m.revision, 0);
}

#[test]
fn test_message_type_names() {
    assert_eq!(MessageType::from_wire_name("SET").wire_name(), "SET");
    assert_eq!(MessageType::from_data_type("REQUEST_DIGEST"), MessageType::Custom("REQUEST_DIGEST".to_string()));
    assert_eq!(MessageType::from_data_type("GET"), MessageType::Get);
    assert_eq!(MessageType::Custom("hello".to_string()).wire_name(), "hello");
}

#[test]
fn test_message_hash_verifies() {
    let mut m = SharedMessage::new(MessageType::Custom("t".to_string()), text("x"));
    assert!(m.verify_hash());
    assert_eq!(m.hash.len(), 64);
    m.hash = "0".repeat(64);
    assert!(!m.verify_hash());
}

#[test]
fn test_state_digest_from_messages() {
    let m1 = SharedMessage::new(MessageType::Custom("t".to_string()), text("x"));
    let m2 = SharedMessage::new(MessageType::Custom("t".to_string()), text("y"));
    let d = StateDigest::from_messages(&[m1, m2]);
    assert_eq!(d.message_count, 2);
    assert_eq!(d.hash.len(), 64);
    let empty = StateDigest::from_messages(&[]);
    assert_eq!(empty.hash, "e3b0c44298fc1c149afbf4c8996fb92427ae41e4649b934ca495991b7852b855");
}

#[test]
fn test_json_map_and_storage_mode() {
    let mut m = JsonMap::new();
    m.insert("k".to_string(), text("v1"));
    m.insert("k".to_string(), text("v2"));
    assert_eq!(m.len(), 1);
    assert_eq!(m.get("k"), Some(&text("v2")));
    assert_eq!(m.remove("k"), Some(text("v2")));
    assert!(m.is_empty());
    assert_eq!(StorageMode::from_str("storage"), StorageMode::Storage);
    assert_eq!(StorageMode::from_str("memory"), StorageMode::Memory);
    assert_eq!(StorageMode::from_str("anything"), StorageMode::Memory);
}

#[test]
fn test_node_builder() {
    let id = PeerId::from_u128(42);
    let parts = ChaincraftNodeBuilder::new()
        .with_id(id)
        .port(0)
        .host("0.0.0.0")
        .local_discovery(false)
        .persist_peers(false)
        .max_peers(3)
        .nat_traversal(false)
        .with_persistent_storage(true)
        .build();
    assert_eq!(parts.id, id);
    assert_eq!(parts.config.port, 0);
    assert_eq!(parts.config.host, "0.0.0.0");
    assert!(!parts.config.local_discovery);
    assert!(!parts.config.persist_peers);
    assert_eq!(parts.config.max_peers, 3);
    assert!(!parts.config.nat_traversal.enabled);
    assert_eq!(parts.storage.len(), 0);

    let defaults = NodeConfig::default();
    assert_eq!(defaults.max_peers, 10);
    assert_eq!(defaults.port, 8080);
    assert_eq!(defaults.host, "127.0.0.1");

    let mut storage = MemoryStorage::new();
    storage.put("a", vec![1, 2]);
    let custom = NatTraversalConfig { hole_punch_attempts: 9, ..NatTraversalConfig::default() };
    let parts = ChaincraftNodeBuilder::new()
        .with_storage(storage)
        .with_config(NodeConfig::default())
        .with_nat_traversal_config(custom)
        .build();
    assert_eq!(parts.storage.get("a"), Some(&vec![1, 2]));
    assert_eq!(parts.config.nat_traversal.hole_punch_attempts, 9);
}

#[test]
fn test_local_registry() {
    let mut reg = LocalNodeRegistry::new();
    let a = PeerId::from_u128(1);
    let b = PeerId::from_u128(2);
    reg.register(a, addr(1, 100));
    reg.register(b, addr(2, 200));
    reg.register(a, addr(1, 101));
    assert_eq!(reg.snapshot(), vec![(b, addr(2, 200)), (a, addr(1, 101))]);
    unregister_local_node(&mut reg, &b);
    assert_eq!(reg.snapshot(), vec![(a, addr(1, 101))]);
    clear_local_registry(&mut reg);
    assert!(reg.snapshot().is_empty());
}

#[test]
fn test_peer_book() {
    let mut book = PeerBook::new();
    let p = PeerInfo::new(PeerId::from_u128(5), addr(5, 500));
    book.add_peer(p, 0).unwrap();
    assert!(book.has_peer_at(addr(5, 500)));
    book.ban_peer(addr(6, 600), i64::MAX);
    assert!(book.is_banned(addr(6, 600)));
    let banned = PeerInfo::new(PeerId::from_u128(6), addr(6, 600));
    match book.add_peer(banned, 7) {
        Err(ChaincraftError::Network(NetworkError::PeerBanned { addr: a, expires_at })) => {
            assert_eq!(a, addr(6, 600));
            assert_eq!(expires_at, 7 + 315_360_000_000_000_000);
        },
        _ => panic!("expected PeerBanned"),
    }
    book.record_sender(addr(7, 700), PeerId::from_u128(7));
    book.record_sender(addr(7, 700), PeerId::from_u128(8));
    assert_eq!(book.peers().len(), 2);
    let mut targets = book.broadcast_targets();
    targets.sort_by_key(|a| a.port());
    assert_eq!(targets, vec![addr(5, 500), addr(7, 700)]);
    book.unban_peer(addr(6, 600));
    assert!(!book.is_banned(addr(6, 600)));
    book.merge_local_nodes(PeerId::from_u128(1), &vec![(PeerId::from_u128(1), addr(1, 100)), (PeerId::from_u128(9), addr(9, 900))]);
    assert!(book.has_peer_at(addr(9, 900)));
    assert!(!book.has_peer_at(addr(1, 100)));
    book.remove_peer(&PeerId::from_u128(9));
    assert!(!book.has_peer_at(addr(9, 900)));
}

#[test]
fn test_digest_sync_step() {
    let request = obj(vec![("type", text("REQUEST_DIGEST"))]);
    match digest_sync_step(&request, "abc") {
        SyncAction::Reply(j) => assert_eq!(j, obj(vec![("digest", text("abc")), ("type", text("DIGEST_RESPONSE"))])),
        _ => panic!("expected a reply"),
    }
    let same = obj(vec![("type", text("DIGEST_RESPONSE")), ("digest", text("abc"))]);
    assert!(matches!(digest_sync_step(&same, "abc"), SyncAction::Handled));
    let differs = obj(vec![("type", text("DIGEST_RESPONSE")), ("digest", text("xyz"))]);
    match digest_sync_step(&differs, "abc") {
        SyncAction::Reply(j) => assert_eq!(j, obj(vec![("digest", text("abc")), ("type", text("REQUEST_MESSAGES_SINCE"))])),
        _ => panic!("expected a reply"),
    }
    let since = obj(vec![("type", text("REQUEST_MESSAGES_SINCE"))]);
    match digest_sync_step(&since, "abc") {
        SyncAction::SendMessagesSince(d) => assert_eq!(d, ""),
        _ => panic!("expected a request for messages"),
    }
    assert!(matches!(digest_sync_step(&obj(vec![("type", text("MESSAGES_RESPONSE"))]), ""), SyncAction::IngestMessages));
    assert!(matches!(digest_sync_step(&obj(vec![("type", text("OTHER"))]), ""), SyncAction::NotControl));
    assert!(matches!(digest_sync_step(&text("x"), ""), SyncAction::NotControl));
}

#[test]
fn test_peer_book_banned_list() {
    let mut book = PeerBook::new();
    assert!(book.banned().is_empty());
    book.ban_peer(addr(1, 1000), 50);
    book.ban_peer(addr(2, 2000), 200);
    book.ban_peer(addr(1, 1000), 100);
    assert_eq!(book.banned(), vec![(addr(1, 1000), 100), (addr(2, 2000), 200)]);
    book.unban_peer(addr(1, 1000));
    assert_eq!(book.banned(), vec![(addr(2, 2000), 200)]);
    book.ban_peer(addr(3, 3000), 150);
    book.expire_bans(150);
    assert_eq!(book.banned(), vec![(addr(2, 2000), 200)]);
    assert!(!book.is_banned(addr(3, 3000)));
    book.expire_bans(200);
    assert!(book.banned().is_empty());
    assert!(!book.is_banned(addr(2, 2000)));
}

#[test]
fn test_memento_reorg_detection() {
    let old_tip = normalize_state_memento("a", None);
    let replaced = normalize_state_memento("b", Some(vec!["b".to_string()]));
    let kept = normalize_state_memento("b", Some(vec!["a".to_string(), "b".to_string()]));
    assert!(!replaced.indicates_reorg_against(None));
    assert!(replaced.indicates_reorg_against(Some(&old_tip)));
    assert!(!kept.indicates_reorg_against(Some(&old_tip)));
    assert!(!old_tip.indicates_reorg_against(Some(&old_tip)));
    let empty = normalize_state_memento("", None);
    assert!(!replaced.indicates_reorg_against(Some(&empty)));
}

#[test]
fn test_message_with_target() {
    let target = chaincraft::shared::SharedObjectId::from_u128(42);
    let m = SharedMessage::new_with_target(MessageType::Get, target, text("k"));
    assert_eq!(m.target_id, Some(target));
    assert!(m.verify_hash());
    assert_eq!(m.hash, m.calculate_hash());
}

fn fixed_message(id: u128, data: JsonValue) -> SharedMessage {
    SharedMessage {
        id: chaincraft::shared::SharedObjectId(id),
        message_type: MessageType::Get,
        target_id: None,
        data,
        timestamp: 0,
        signature: None,
        hash: String::new(),
    }
}

#[test]
fn test_message_hash_known_values() {
    let m = fixed_message(0x0102030405060708090a0b0c0d0e0f10, JsonValue::Null);
    assert_eq!(m.calculate_hash(), "52da4aec43d6ed2e0f535dcd8250d1f7a31fcc4aeb339d09744da604655a8a56");
    let num = |v: u64| JsonValue::Number(JsonNumber::PosInt(v));
    let sorted = fixed_message(0, obj(vec![("a", num(1)), ("b", num(2))]));
    let unsorted = fixed_message(0, obj(vec![("b", num(2)), ("a", num(1))]));
    assert_eq!(sorted.calculate_hash(), "b9b2abd028238b51a80337df61322f1aa6afd3daf124f57dc36cd99557aee212");
    assert_eq!(unsorted.calculate_hash(), sorted.calculate_hash());
}

#[test]
fn test_fresh_ids_are_version_4() {
    let a = chaincraft::shared::SharedObjectId::new().0;
    let p = PeerId::new().0;
    for v in [a, p] {
        assert_eq!((v >> 76) & 0xf, 4);
        assert_eq!((v >> 62) & 0x3, 2);
    }
}

#[test]
fn test_gossip_round_payloads_and_target() {
    let mut storage = MemoryStorage::new();
    storage.put("h1", b"one".to_vec());
    storage.put("h3", b"three".to_vec());
    let known = vec!["h1".to_string(), "h2".to_string(), "h3".to_string()];
    let mut book = PeerBook::new();
    let (payloads, target) = gossip_round(&book, &storage, &known);
    assert_eq!(payloads, vec![b"one".to_vec(), b"three".to_vec()]);
    assert_eq!(target, None);
    book.add_peer(PeerInfo::new(PeerId::from_u128(7), addr(7, 700)), 0).unwrap();
    let (_, target) = gossip_round(&book, &storage, &known);
    assert_eq!(target, Some(addr(7, 700)));
}

#[test]
fn test_ban_expiry_rule() {
    assert_eq!(chaincraft::node::ban_expiry(1_000, Some(chaincraft::net::TimeSpan::from_nanos(500))), 1_500);
    assert_eq!(chaincraft::node::ban_expiry(0, None), 315_360_000_000_000_000);
    assert_eq!(chaincraft::node::ban_expiry(i64::MAX - 1, Some(chaincraft::net::TimeSpan::from_nanos(10))), i64::MAX);
    let built = ChaincraftNodeBuilder::new().build();
    assert_eq!((built.id.0 >> 76) & 0xf, 4);
}

#[test]
fn test_time_span_parts() {
    use_span(chaincraft::net::TimeSpan::new(u64::MAX, 999_999_999), u64::MAX, 999_999_999);
    use_span(chaincraft::net::TimeSpan::new(1, 2_500_000_000), 3, 500_000_000);
    use_span(chaincraft::net::TimeSpan::from_millis(1_234), 1, 234_000_000);
    use_span(chaincraft::net::TimeSpan::from_nanos(5_000_000_007), 5, 7);
    use_span(chaincraft::net::TimeSpan::from_secs(u64::MAX), u64::MAX, 0);
    assert_eq!(chaincraft::net::TimeSpan::from_secs(2).as_nanos(), 2_000_000_000);
}

fn use_span(t: chaincraft::net::TimeSpan, secs: u64, nanos: u32) {
    assert_eq!(t.as_secs(), secs);
    assert_eq!(t.subsec_nanos(), nanos);
    assert_eq!(t.as_nanos(), secs as u128 * 1_000_000_000 + nanos as u128);
}
