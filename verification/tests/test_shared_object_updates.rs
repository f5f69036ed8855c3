use chaincraft::net::NetAddr;
use chaincraft::node::{accept_incoming_message, commit_local_message, ingest_synced_message, MemoryStorage, PeerBook};
use chaincraft::json::{JsonNumber, JsonValue};
use chaincraft::shared::{MessageType, PeerId, SharedMessage, SharedObjectId};
use chaincraft::shared_object::{
    ApplicationObject, ApplicationObjectRegistry, MerkelizedChain, MessageChain, SimpleSharedNumber,
};

fn text(t: &str) -> JsonValue {
    JsonValue::Str(t.to_string())
}

fn num(v: i64) -> JsonValue {
    if v >= 0 {
        JsonValue::Number(JsonNumber::PosInt(v as u64))
    } else {
        JsonValue::Number(JsonNumber::NegInt(v))
    }
}

fn chain_msg(data: JsonValue) -> SharedMessage {
    SharedMessage::new(MessageType::Custom("chain_update".to_string()), data)
}

#[test]
fn test_merkelized_chain_basic() {
    let mut chain = MerkelizedChain::new();
    assert_eq!(chain.chain_length(), 1);
    assert!(!chain.genesis_hash().is_empty());
    assert_eq!(chain.genesis_hash(), "aeebad4a796fcc2e15dc4c6061b45ed9b373f26adfc798ca7d2d8cc58182718e");
    chain.add_next_hash();
    chain.add_next_hash();
    chain.add_next_hash();
    assert_eq!(chain.chain_length(), 4);
}

#[test]
fn test_chain_hash_validation() {
    let chain = MerkelizedChain::new();
    let next_hash = MerkelizedChain::calculate_next_hash(chain.latest_hash());
    assert!(chain.is_valid(&chain_msg(text(&next_hash))).unwrap(), "Should accept valid next hash");
    assert!(!chain.is_valid(&chain_msg(text("invalid_hash_not_following_chain"))).unwrap());
    assert!(!chain.is_valid(&chain_msg(num(3))).unwrap());
}

#[test]
fn test_deduplication() {
    let mut chain = MerkelizedChain::new();
    chain.add_next_hash();
    let len_before = chain.chain_length();
    let existing_hash = chain.latest_hash().to_string();
    chain.add_message(chain_msg(text(&existing_hash)), None).unwrap();
    assert_eq!(chain.chain_length(), len_before, "Duplicate hash should not increase chain length");
}

#[test]
fn test_chain_sync_between_copies() {
    let mut a = MerkelizedChain::new();
    let mut b = MerkelizedChain::new();
    a.add_next_hash();
    a.add_next_hash();
    let genesis = a.genesis_hash().to_string();
    let updates = a.gossip_messages(Some(&genesis)).unwrap();
    assert_eq!(updates.len(), 2);
    for m in updates {
        assert!(b.is_valid(&m).unwrap());
        b.add_message(m, None).unwrap();
    }
    assert_eq!(b.chain(), a.chain());
    assert!(a.gossip_messages(Some("unknown")).unwrap().is_empty());
    assert_eq!(a.gossip_messages(None).unwrap().len(), 2);
    assert_eq!(a.find_hash_index(&genesis), Some(0));
    assert!(a.try_add_hash("not a successor") == false);
}

#[test]
fn test_simple_shared_number_dedup() {
    let mut number = SimpleSharedNumber::new();
    let m1 = SharedMessage::new(MessageType::Custom("n".to_string()), num(5));
    let m2 = SharedMessage::new(MessageType::Custom("n".to_string()), num(5));
    let emitted = number.add_message(m1, None).unwrap();
    assert!(emitted.is_some());
    assert_eq!(emitted.unwrap().canonical_digest, "5");
    assert!(number.add_message(m2, None).unwrap().is_none());
    assert_eq!(number.get_number(), 5);
    number.add_message(SharedMessage::new(MessageType::Custom("n".to_string()), num(-2)), None).unwrap();
    assert_eq!(number.get_number(), 3);
    assert_eq!(number.get_messages().len(), 2);
    assert_eq!(number.get_latest_digest().unwrap(), "3");
}

#[test]
fn test_simple_shared_number_overflow_is_rejected() {
    let mut number = SimpleSharedNumber::new();
    number.add_message(SharedMessage::new(MessageType::Custom("n".to_string()), num(i64::MAX)), None).unwrap();
    let r = number.add_message(SharedMessage::new(MessageType::Custom("n".to_string()), num(1)), None);
    assert!(r.is_err());
    assert_eq!(number.get_number(), i64::MAX);
}

#[test]
fn test_message_chain_log() {
    let mut log = MessageChain::new();
    let m = SharedMessage::new(MessageType::Custom("x".to_string()), text("a"));
    let hash = m.hash.clone();
    assert!(log.is_valid(&m).unwrap());
    log.add_message(m.copy(), None).unwrap();
    log.add_message(m, None).unwrap();
    assert_eq!(log.len(), 1);
    assert_eq!(log.get_latest_digest().unwrap(), hash);
    assert!(log.has_digest(&hash).unwrap());
    assert!(log.is_valid_digest("genesis").unwrap());
    assert_eq!(log.gossip_messages(Some(&hash)).unwrap().len(), 0);
    assert_eq!(log.gossip_messages(Some("genesis")).unwrap().len(), 1);
    assert!(!log.is_valid(&SharedMessage::new(MessageType::Custom("x".to_string()), JsonValue::Null)).unwrap());
}

#[test]
fn test_pipeline_rejects_message_when_any_object_invalid() {
    let mut registry = ApplicationObjectRegistry::new();
    registry.register(MessageChain::new());
    registry.register(MessageChain::new());
    let result = registry.process_message(SharedMessage::new(MessageType::Custom("x".to_string()), JsonValue::Null));
    assert!(result.is_err());
    for o in registry.objects() {
        assert_eq!(o.len(), 0);
    }
}

#[test]
fn test_pipeline_applies_in_registration_order() {
    let mut registry = ApplicationObjectRegistry::new();
    let first = registry.register(SimpleSharedNumber::new());
    let second = registry.register(SimpleSharedNumber::new());
    let ids = registry
        .process_message(SharedMessage::new(MessageType::Custom("n".to_string()), num(4)))
        .unwrap();
    assert_eq!(ids, vec![first, second]);
    assert_eq!(registry.get(&second).unwrap().get_number(), 4);
    assert_eq!(registry.get_by_type("SimpleSharedNumber").len(), 2);
    assert!(registry.remove(&first).is_some());
    assert_eq!(registry.ids(), vec![second]);
    assert!(registry.get(&SharedObjectId::from_u128(7)).is_none());
}

#[test]
fn test_chain_hash_at_positions() {
    let mut chain = MerkelizedChain::new();
    let genesis = chain.genesis_hash().to_string();
    let next = chain.add_next_hash();
    assert_eq!(chain.hash_at(0), Some(genesis.as_str()));
    assert_eq!(chain.hash_at(1), Some(next.as_str()));
    assert_eq!(chain.hash_at(2), None);
    assert_eq!(next, MerkelizedChain::calculate_next_hash(&genesis));
}

#[test]
fn test_local_message_flow_with_empty_registry() {
    let mut reg: ApplicationObjectRegistry<SimpleSharedNumber> = ApplicationObjectRegistry::new();
    let mut storage = MemoryStorage::new();
    let message = SharedMessage::new(MessageType::Custom("x".to_string()), num(3));
    let hash = message.hash.clone();
    let stored = commit_local_message(&mut reg, &mut storage, message, b"m1".to_vec()).unwrap();
    assert_eq!(stored, hash);
    assert_eq!(storage.get(&hash), Some(&b"m1".to_vec()));

    let mut known: Vec<String> = Vec::new();
    let synced = SharedMessage::new(MessageType::Custom("x".to_string()), num(4));
    let synced_hash = synced.hash.clone();
    assert!(ingest_synced_message(&mut reg, &mut storage, &mut known, synced, b"m2".to_vec()));
    assert_eq!(known, vec![synced_hash]);
    assert!(reg.process_message(SharedMessage::new(MessageType::Get, num(1))).unwrap().is_empty());
}

#[test]
fn test_rejected_message_is_not_stored() {
    let mut reg: ApplicationObjectRegistry<SimpleSharedNumber> = ApplicationObjectRegistry::new();
    reg.register(SimpleSharedNumber::new());
    let mut storage = MemoryStorage::new();
    let rejected = SharedMessage::new(MessageType::Custom("x".to_string()), text("not a number"));
    let r = commit_local_message(&mut reg, &mut storage, rejected, b"m".to_vec());
    match r {
        Err(chaincraft::error::ChaincraftError::Validation(msg)) => {
            assert_eq!(msg, "message rejected by at least one application object")
        },
        _ => panic!("expected a validation error"),
    }
    assert_eq!(storage.len(), 0);

    let mut known: Vec<String> = Vec::new();
    let synced = SharedMessage::new(MessageType::Custom("x".to_string()), text("still not"));
    assert!(!ingest_synced_message(&mut reg, &mut storage, &mut known, synced, b"s".to_vec()));
    assert!(known.is_empty());
    assert_eq!(storage.len(), 0);

    let accepted = SharedMessage::new(MessageType::Custom("x".to_string()), num(5));
    let hash = accepted.hash.clone();
    assert_eq!(commit_local_message(&mut reg, &mut storage, accepted, b"ok".to_vec()).unwrap(), hash);
    assert_eq!(reg.objects()[0].get_number(), 5);

    let mut book = PeerBook::new();
    let sender = NetAddr::V4 { ip: 0x0a00_0001, port: 9000 };
    let inbound = SharedMessage::new(MessageType::Custom("x".to_string()), text("nope"));
    let r = accept_incoming_message(&mut book, &mut reg, &mut storage, sender, PeerId::from_u128(1), inbound, b"i".to_vec());
    assert!(matches!(r, Err(chaincraft::error::ChaincraftError::Validation(_))));
    assert_eq!(storage.len(), 1);
    let inbound = SharedMessage::new(MessageType::Custom("x".to_string()), num(2));
    let r = accept_incoming_message(&mut book, &mut reg, &mut storage, sender, PeerId::from_u128(1), inbound, b"j".to_vec());
    assert_eq!(r, Ok(true));
    assert_eq!(storage.len(), 2);
    assert_eq!(reg.objects()[0].get_number(), 7);
}

#[test]
fn test_chain_rejects_candidates_of_wrong_length() {
    let mut chain = MerkelizedChain::new();
    let next = MerkelizedChain::calculate_next_hash(chain.latest_hash());
    assert_eq!(next.len(), 64);
    let update = |h: &str| SharedMessage::new(MessageType::Custom("chain_update".to_string()), text(h));
    assert!(chain.is_valid(&update(&next)).unwrap());
    assert!(!chain.is_valid(&update("invalid_hash_not_following_chain")).unwrap());
    assert!(!chain.try_add_hash("short"));
    assert_eq!(chain.chain_length(), 1);
}
