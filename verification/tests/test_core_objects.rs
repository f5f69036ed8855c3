use chaincraft::core_objects::{
    Blockchain, CacheObject, CoreSharedObject, DAGObject, DocumentCache, Mempool, MerkelizedObject,
    NonMerkelizedObject, TransactionChain, UTXOLedger,
};
use chaincraft::json::{JsonNumber, JsonValue};
use chaincraft::node::{first_merkleized_digest, first_merkleized_messages_since};
use chaincraft::shared::{MessageType, SharedMessage};
use chaincraft::shared_object::{ApplicationObject, ApplicationObjectRegistry};

fn s(t: &str) -> JsonValue {
    JsonValue::Str(t.to_string())
}

fn n(v: u64) -> JsonValue {
    JsonValue::Number(JsonNumber::PosInt(v))
}

fn obj(entries: Vec<(&str, JsonValue)>) -> JsonValue {
    JsonValue::Object(entries.into_iter().map(|(k, v)| (k.to_string(), v)).collect())
}

fn msg(data: JsonValue) -> SharedMessage {
    SharedMessage::new(MessageType::Custom("test".to_string()), data)
}

fn check_stub<T: ApplicationObject>(obj: &mut T) {
    assert!(!obj.is_merkleized());
    assert_eq!(obj.get_latest_digest().unwrap(), "");
    assert!(!obj.has_digest("abc").unwrap());
    assert!(!obj.is_valid_digest("abc").unwrap());
    assert!(!obj.add_digest("abc".to_string()).unwrap());
    assert!(obj.gossip_messages(Some("abc")).unwrap().is_empty());
    assert!(obj.get_messages_since_digest("abc").unwrap().is_empty());
}

#[test]
fn test_core_digest_stability() {
    let a = obj(vec![("b", n(2)), ("a", n(1))]);
    let b = obj(vec![("a", n(1)), ("b", n(2))]);
    assert_eq!(CoreSharedObject::compute_digest(&a), CoreSharedObject::compute_digest(&b));
}

#[test]
fn test_core_digest_known_value() {
    // SHA-256 of the text {"a":1}
    let a = obj(vec![("a", n(1))]);
    assert_eq!(
        CoreSharedObject::compute_digest(&a),
        "015abd7f5cc57a2dd94b7590f04ad8084273905ee33ec5cebeae62276a97f862"
    );
}

#[test]
fn test_non_merkelized_stubs() {
    check_stub(&mut NonMerkelizedObject::new());
    check_stub(&mut CacheObject::new());
    check_stub(&mut Mempool::new());
    check_stub(&mut DocumentCache::new());
}

#[test]
fn test_merkelized_object_basic_digest_flow() {
    let mut o = MerkelizedObject::new();
    o.add_message(msg(obj(vec![("i", n(1))])), None).unwrap();
    let d1 = o.get_latest_digest().unwrap();
    o.add_message(msg(obj(vec![("i", n(2))])), None).unwrap();
    let d2 = o.get_latest_digest().unwrap();
    assert_ne!(d1, "");
    assert_ne!(d1, d2);
    assert_eq!(o.get_messages_since_digest(&d1).unwrap().len(), 1);
}

#[test]
fn test_merkelized_object_dedup_and_heads() {
    let mut o = MerkelizedObject::new();
    o.add_message(msg(obj(vec![("i", n(1))])), None).unwrap();
    o.add_message(msg(obj(vec![("i", n(1))])), None).unwrap();
    assert_eq!(o.gossip_messages(None).unwrap().len(), 1);
    let d1 = o.get_latest_digest().unwrap();
    o.add_message(msg(obj(vec![("previous_digest", s(&d1)), ("i", n(2))])), None).unwrap();
    let d2 = o.get_latest_digest().unwrap();
    let state = o.get_state().unwrap();
    let heads = state.get("head_digests").unwrap();
    assert_eq!(heads, &JsonValue::Array(vec![s(&d2)]));
    assert!(o.has_digest(&d1).unwrap());
    assert!(o.add_digest("zzz".to_string()).unwrap());
    assert!(!o.add_digest("zzz".to_string()).unwrap());
}

#[test]
fn test_utxo_add_spend_flow() {
    let mut ledger = UTXOLedger::new();
    let add = msg(obj(vec![("action", s("utxo_add")), ("utxo_id", s("u1")), ("amount", n(5)), ("owner", s("alice"))]));
    assert!(ledger.is_valid(&add).unwrap());
    ledger.add_message(add, None).unwrap();
    assert!(ledger.utxos().contains_key("u1"));

    let spend = msg(obj(vec![("action", s("utxo_spend")), ("utxo_id", s("u1"))]));
    assert!(ledger.is_valid(&spend).unwrap());
    ledger.add_message(spend, None).unwrap();
    assert!(!ledger.utxos().contains_key("u1"));
}

#[test]
fn test_utxo_entry_shape_and_rejections() {
    let mut ledger = UTXOLedger::new();
    let add = msg(obj(vec![("action", s("utxo_add")), ("utxo_id", s("u2")), ("amount", n(7)), ("owner", s("bob"))]));
    ledger.add_message(add, None).unwrap();
    let entry = ledger.utxos().get("u2").unwrap();
    assert_eq!(entry, &obj(vec![("amount", n(7)), ("meta", obj(vec![])), ("owner", s("bob"))]));
    let missing_owner = msg(obj(vec![("action", s("utxo_add")), ("utxo_id", s("u3")), ("amount", n(1))]));
    assert!(!ledger.is_valid(&missing_owner).unwrap());
    let unknown_spend = msg(obj(vec![("action", s("utxo_spend")), ("utxo_id", s("nope"))]));
    assert!(!ledger.is_valid(&unknown_spend).unwrap());
    assert!(!ledger.is_valid(&msg(s("text"))).unwrap());
}

#[test]
fn test_blockchain_previous_digest_rules() {
    let mut chain = Blockchain::new();
    let genesis = msg(obj(vec![("previous_digest", s("genesis")), ("height", n(1))]));
    assert!(chain.is_valid(&genesis).unwrap());
    chain.add_message(genesis, None).unwrap();
    let prev = chain.blocks()[0].get_str("digest").unwrap().clone();
    let next = msg(obj(vec![("previous_digest", s(&prev)), ("height", n(2))]));
    assert!(chain.is_valid(&next).unwrap());
    let wrong = msg(obj(vec![("previous_digest", s("elsewhere")), ("height", n(2))]));
    assert!(!chain.is_valid(&wrong).unwrap());
}

#[test]
fn test_dag_frontier_and_since_digest() {
    let mut dag = DAGObject::new();
    dag.add_message(msg(obj(vec![("parents", JsonValue::Array(vec![])), ("payload", s("root"))])), None).unwrap();
    let root = dag.get_head_digests()[0].clone();
    dag.add_message(msg(obj(vec![("parents", JsonValue::Array(vec![s(&root)])), ("payload", s("child"))])), None)
        .unwrap();
    let checkpoint = dag.get_latest_digest().unwrap();
    let head = dag.get_head_digests()[0].clone();
    dag.add_message(msg(obj(vec![("parents", JsonValue::Array(vec![s(&head)])), ("payload", s("child-2"))])), None)
        .unwrap();
    let delta = dag.get_messages_since_digest(&checkpoint).unwrap();
    assert_eq!(delta.len(), 1);
}

#[test]
fn test_dag_validity_rules() {
    let mut dag = DAGObject::new();
    let unknown_parent = msg(obj(vec![("parents", JsonValue::Array(vec![s("missing")]))]));
    assert!(!dag.is_valid(&unknown_parent).unwrap());
    dag.add_message(msg(obj(vec![("parents", JsonValue::Array(vec![])), ("payload", s("a"))])), None).unwrap();
    let a = dag.get_head_digests()[0].clone();
    dag.add_message(msg(obj(vec![("parents", JsonValue::Array(vec![s(&a)])), ("payload", s("b"))])), None).unwrap();
    // `a` is a known node but no longer a head.
    let stale = msg(obj(vec![("parents", JsonValue::Array(vec![s(&a)]))]));
    assert!(!dag.is_valid(&stale).unwrap());
    assert_eq!(dag.nodes().len(), 2);
}

#[test]
fn test_transaction_chain_tracks_order() {
    let mut chain = TransactionChain::new();
    chain.add_message(msg(obj(vec![("tx_id", s("a")), ("amount", n(1))])), None).unwrap();
    let d1 = chain.get_latest_digest().unwrap();
    chain.add_message(msg(obj(vec![("tx_id", s("b")), ("amount", n(2))])), None).unwrap();
    assert_eq!(chain.transactions().len(), 2);
    assert_eq!(chain.get_messages_since_digest(&d1).unwrap().len(), 1);
}

#[test]
fn test_mempool_and_document_cache_ops() {
    let mut mempool = Mempool::new();
    mempool.add_message(msg(obj(vec![("from", s("a")), ("to", s("b")), ("amount", n(1))])), None).unwrap();
    assert_eq!(mempool.transactions().len(), 1);
    let tx_id = mempool.transactions().keys()[0].clone();
    mempool.add_message(msg(obj(vec![("tx_id", s(&tx_id)), ("action", s("remove"))])), None).unwrap();
    assert!(mempool.transactions().is_empty());

    let mut docs = DocumentCache::new();
    docs.add_message(msg(obj(vec![("document_id", s("d1")), ("value", obj(vec![("title", s("hello"))]))])), None)
        .unwrap();
    assert_eq!(docs.documents().get("d1").unwrap().get_str("title").unwrap(), "hello");
}

#[test]
fn test_cache_object_set_and_delete() {
    let mut cache = CacheObject::new();
    cache.add_message(msg(obj(vec![("key", s("k")), ("value", n(3))])), None).unwrap();
    assert_eq!(cache.cache().get("k"), Some(&n(3)));
    cache.add_message(msg(obj(vec![("key", s("k")), ("action", s("delete"))])), None).unwrap();
    assert!(cache.cache().get("k").is_none());
}

#[test]
fn test_first_merkleized_object_answers_sync() {
    let mut empty: ApplicationObjectRegistry<MerkelizedObject> = ApplicationObjectRegistry::new();
    assert_eq!(first_merkleized_digest(&empty), "");
    assert!(first_merkleized_messages_since(&empty, "").is_empty());
    empty.clear();

    let mut reg: ApplicationObjectRegistry<MerkelizedObject> = ApplicationObjectRegistry::new();
    reg.register(MerkelizedObject::new());
    reg.process_message(msg(obj(vec![("i", n(1))]))).unwrap();
    let d1 = first_merkleized_digest(&reg);
    reg.process_message(msg(obj(vec![("i", n(2))]))).unwrap();
    let d2 = first_merkleized_digest(&reg);
    assert_ne!(d1, "");
    assert_ne!(d1, d2);
    assert_eq!(first_merkleized_messages_since(&reg, "").len(), 2);
    let after_first = first_merkleized_messages_since(&reg, &d1);
    assert_eq!(after_first.len(), 1);
    assert_eq!(after_first[0].data, obj(vec![("i", n(2))]));
    assert!(first_merkleized_messages_since(&reg, &d2).is_empty());
}
