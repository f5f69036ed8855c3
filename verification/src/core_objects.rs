//! The core shared objects: merkleized logs (plain, UTXO ledger, blockchain,
//! DAG, transaction chain) and keyed caches (cache, mempool, documents).

use vstd::prelude::*;
use crate::error::ChaincraftError;
use crate::json::{
    JsonValue, Json, NumModel, json_get, json_get_str, clone_json, digest_of, compute_digest, json_object, lookup,
    json_uint, json_string, json_string_array, entry_models_of, lemma_entry_models_of,
};
use crate::json_map::JsonMap;
use crate::merkle_state::{
    MerkelizedState, StateModel, log_after, store_after_log, latest_of, messages_since, record_if_new,
    sorted_heads, extract_parents, parents_of_value, normalize_parent_digests_from_value, normalize_parents,
};
use crate::shared::{SharedMessage, SharedObjectId, MessageModel};
use crate::shared_object::{ApplicationObject, message_models};
use crate::state_memento::{StateMemento, MementoModel};
use crate::storage::{CoreStorage, StorageMode};
use crate::text::{copy_str, push_str, str_equal, views_of, contains_str, strictly_sorted};

verus! {

broadcast use vstd::string::group_string_axioms;

// ---------------------------------------------------------------------------
// Helpers
// ---------------------------------------------------------------------------

/// `prefix` followed by `s`.
fn prefixed(prefix: &str, s: &str) -> (r: String)
    ensures
        r@ == prefix@ + s@,
{
    let mut r = copy_str(prefix);
    push_str(&mut r, s);
    r
}

/// The member `key` of `data`, or `default` when it has none.
pub open spec fn member_or(data: Json, key: Seq<char>, default: Json) -> Json {
    match json_get(data, key) {
        Some(v) => v,
        None => default,
    }
}

fn get_or(data: &JsonValue, key: &str, default: JsonValue) -> (r: JsonValue)
    ensures
        r.model() == member_or(data.model(), key@, default.model()),
{
    match data.get(key) {
        Some(v) => clone_json(v),
        None => default,
    }
}

fn obj1(k1: &str, v1: JsonValue) -> (r: JsonValue)
    ensures
        r.model() == Json::Obj(seq![(k1@, v1.model())]),
{
    let mut entries: Vec<(String, JsonValue)> = Vec::new();
    entries.push((copy_str(k1), v1));
    proof {
        lemma_entry_models_of(entries@);
        assert(entry_models_of(entries@) =~= seq![(k1@, entries@[0].1.model())]);
    }
    json_object(entries)
}

fn obj2(k1: &str, v1: JsonValue, k2: &str, v2: JsonValue) -> (r: JsonValue)
    ensures
        r.model() == Json::Obj(seq![(k1@, v1.model()), (k2@, v2.model())]),
{
    let ghost m1 = v1.model();
    let ghost m2 = v2.model();
    let mut entries: Vec<(String, JsonValue)> = Vec::new();
    entries.push((copy_str(k1), v1));
    entries.push((copy_str(k2), v2));
    proof {
        lemma_entry_models_of(entries@);
        assert(entry_models_of(entries@) =~= seq![(k1@, m1), (k2@, m2)]);
    }
    json_object(entries)
}

fn obj3(k1: &str, v1: JsonValue, k2: &str, v2: JsonValue, k3: &str, v3: JsonValue) -> (r: JsonValue)
    ensures
        r.model() == Json::Obj(seq![(k1@, v1.model()), (k2@, v2.model()), (k3@, v3.model())]),
{
    let ghost m1 = v1.model();
    let ghost m2 = v2.model();
    let ghost m3 = v3.model();
    let mut entries: Vec<(String, JsonValue)> = Vec::new();
    entries.push((copy_str(k1), v1));
    entries.push((copy_str(k2), v2));
    entries.push((copy_str(k3), v3));
    proof {
        lemma_entry_models_of(entries@);
        assert(entry_models_of(entries@) =~= seq![(k1@, m1), (k2@, m2), (k3@, m3)]);
    }
    json_object(entries)
}

/// A JSON array of texts.
pub open spec fn text_array(items: Seq<Seq<char>>) -> Json {
    Json::Arr(Seq::new(items.len(), |i: int| Json::Str(items[i])))
}

fn texts_json(items: &Vec<String>) -> (r: JsonValue)
    ensures
        r.model() == text_array(views_of(items@)),
{
    let r = json_string_array(items);
    proof {
        assert(Seq::new(items@.len(), |i: int| Json::Str(items@[i]@)) =~= Seq::new(views_of(items@).len(), |i: int| Json::Str(views_of(items@)[i])));
    }
    r
}

fn count_json(n: usize) -> (r: JsonValue)
    ensures
        r.model() == Json::Num(NumModel::PosInt(n as u64)),
{
    json_uint(n as u64)
}

/// A JSON count.
pub open spec fn count(n: nat) -> Json {
    Json::Num(NumModel::PosInt(n as u64))
}

fn empty_messages() -> (v: Vec<SharedMessage>)
    ensures
        v@.len() == 0,
{
    Vec::new()
}

fn no_digests() -> (v: Vec<String>)
    ensures
        views_of(v@) == Seq::<Seq<char>>::empty(),
{
    let v: Vec<String> = Vec::new();
    proof {
        assert(views_of(v@) =~= Seq::<Seq<char>>::empty());
    }
    v
}

fn fresh_storage() -> (s: CoreStorage)
    ensures
        s.wf(),
        s.spec_mode() == StorageMode::Memory,
        s.spec_store() == Map::<Seq<char>, Json>::empty(),
{
    CoreStorage::new(false, StorageMode::Memory, None, true, 1024)
}

// ---------------------------------------------------------------------------
// CoreSharedObject
// ---------------------------------------------------------------------------

/// A shared object with its own storage.
pub struct CoreSharedObject {
    id: SharedObjectId,
    storage: CoreStorage,
}

impl CoreSharedObject {
    pub closed spec fn spec_storage(&self) -> CoreStorage {
        self.storage
    }

    /// An object whose storage is in the mode named by `storage_mode`
    /// (`storage` or memory), over `storage_backend` when given.
    pub fn new(
        persistent: bool,
        storage_mode: &str,
        storage_backend: Option<JsonMap>,
        enable_memory_cache: bool,
        memory_cache_size: usize,
    ) -> (o: CoreSharedObject)
        requires
            storage_backend matches Some(b) ==> b.wf(),
        ensures
            o.spec_storage().wf(),
            o.spec_storage().spec_mode() == (if storage_mode@ == "storage"@ { StorageMode::Storage } else { StorageMode::Memory }),
            o.spec_storage().spec_persistent() == persistent,
            o.spec_storage().spec_cache_enabled() == enable_memory_cache,
            o.spec_storage().spec_memory() == Map::<Seq<char>, Json>::empty(),
            o.spec_storage().spec_backend() == match storage_backend {
                Some(b) => b@,
                None => Map::<Seq<char>, Json>::empty(),
            },
    {
        CoreSharedObject {
            id: SharedObjectId::new(),
            storage: CoreStorage::new(
                persistent,
                StorageMode::from_str(storage_mode),
                storage_backend,
                enable_memory_cache,
                memory_cache_size,
            ),
        }
    }

    /// The content digest of a JSON value: SHA-256 of its canonical compact
    /// text (object keys sorted), in lowercase hex.
    pub fn compute_digest(data: &JsonValue) -> (d: String)
        ensures
            d@ == digest_of(data.model()),
            d@.len() == 64,
    {
        compute_digest(data)
    }
}

impl Default for CoreSharedObject {
    fn default() -> (o: CoreSharedObject)
        ensures
            o.spec_storage().wf(),
            o.spec_storage().spec_mode() == StorageMode::Memory,
            !o.spec_storage().spec_persistent(),
            o.spec_storage().spec_cache_enabled(),
            o.spec_storage().spec_memory() == Map::<Seq<char>, Json>::empty(),
    {
        proof {
            reveal_strlit("memory");
            reveal_strlit("storage");
            assert("memory"@.len() == 6);
            assert("storage"@.len() == 7);
            assert("memory"@ != "storage"@);
        }
        CoreSharedObject::new(false, "memory", None, true, 1024)
    }
}

/// The same object under its other name.
pub type NativeSharedObject = CoreSharedObject;

// ---------------------------------------------------------------------------
// NonMerkelizedObject
// ---------------------------------------------------------------------------

/// An object that accepts every message and keeps no digests.
pub struct NonMerkelizedObject {
    id: SharedObjectId,
    storage: CoreStorage,
}

impl NonMerkelizedObject {
    pub closed spec fn spec_id_of(&self) -> SharedObjectId {
        self.id
    }

    pub fn new() -> (o: NonMerkelizedObject)
        ensures
            o.inv(),
    {
        NonMerkelizedObject { id: SharedObjectId::new(), storage: fresh_storage() }
    }
}

impl ApplicationObject for NonMerkelizedObject {
    open spec fn add_errs(&self, m: MessageModel, frontier: Option<MementoModel>) -> bool {
        false
    }

    open spec fn latest_digest_errs(&self) -> bool {
        false
    }

    open spec fn validation_errs(&self, m: MessageModel) -> bool {
        false
    }

    open spec fn digest_offered(&self, after: &Self, digest: Seq<char>, added: bool) -> bool {
        &&& !added
        &&& *after == *self
    }

    open spec fn reset_spec(&self, after: &Self) -> bool {
        &&& *after == *self
    }

    open spec fn state_spec(&self) -> Json {
        Json::Obj(seq![("merkleized"@, Json::Bool(false))])
    }

    open spec fn has_digest_spec(&self, digest: Seq<char>) -> bool {
        false
    }

    open spec fn valid_digest_spec(&self, digest: Seq<char>) -> bool {
        false
    }

    open spec fn messages_since_ok(&self, digest: Seq<char>, out: Seq<SharedMessage>) -> bool {
        out.len() == 0
    }

    open spec fn gossip_ok(&self, digest: Option<Seq<char>>, out: Seq<SharedMessage>) -> bool {
        out.len() == 0
    }

    open spec fn merkleized_spec(&self) -> bool {
        false
    }

    closed spec fn inv(&self) -> bool {
        self.storage.wf()
    }

    open spec fn spec_id(&self) -> SharedObjectId {
        self.spec_id_of()
    }

    open spec fn spec_object_type(&self) -> Seq<char> {
        "NonMerkelizedObject"@
    }

    open spec fn valid_for(&self, m: MessageModel) -> bool {
        true
    }

    open spec fn latest_digest_spec(&self) -> Seq<char> {
        Seq::empty()
    }

    open spec fn state_digests_spec(&self) -> Seq<Seq<char>> {
        Seq::empty()
    }

    /// Nothing changes and nothing is emitted.
    open spec fn applied(&self, after: &Self, m: MessageModel, frontier: Option<MementoModel>, emitted: Option<MementoModel>) -> bool {
        &&& emitted is None
        &&& after == self
    }

    fn id(&self) -> (r: SharedObjectId) {
        self.id
    }

    fn object_type(&self) -> (r: &'static str) {
        "NonMerkelizedObject"
    }

    fn is_valid(&self, message: &SharedMessage) -> (r: Result<bool, ChaincraftError>)
        ensures
            r is Ok,
    {
        Ok(true)
    }

    fn add_message(&mut self, message: SharedMessage, frontier_state: Option<StateMemento>) -> (r: Result<Option<StateMemento>, ChaincraftError>)
        ensures
            r == Ok::<Option<StateMemento>, ChaincraftError>(None),
    {
        Ok(None)
    }

    fn is_merkleized(&self) -> (r: bool)
        ensures
            !r,
    {
        false
    }

    fn get_latest_digest(&self) -> (r: Result<String, ChaincraftError>)
        ensures
            r is Ok,
    {
        Ok(String::new())
    }

    fn has_digest(&self, digest: &str) -> (r: Result<bool, ChaincraftError>)
        ensures
            r == Ok::<bool, ChaincraftError>(false),
    {
        Ok(false)
    }

    fn is_valid_digest(&self, digest: &str) -> (r: Result<bool, ChaincraftError>)
        ensures
            r == Ok::<bool, ChaincraftError>(false),
    {
        Ok(false)
    }

    fn add_digest(&mut self, digest: String) -> (r: Result<bool, ChaincraftError>)
        ensures
            r == Ok::<bool, ChaincraftError>(false),
            *final(self) == *old(self),
    {
        Ok(false)
    }

    fn gossip_messages(&self, digest: Option<&str>) -> (r: Result<Vec<SharedMessage>, ChaincraftError>)
        ensures
            r matches Ok(v) && v@.len() == 0,
    {
        Ok(empty_messages())
    }

    fn get_messages_since_digest(&self, digest: &str) -> (r: Result<Vec<SharedMessage>, ChaincraftError>)
        ensures
            r matches Ok(v) && v@.len() == 0,
    {
        Ok(empty_messages())
    }

    fn get_state_digests(&self) -> (r: Vec<String>) {
        no_digests()
    }

    /// `{"merkleized": false}`.
    fn get_state(&self) -> (r: Result<JsonValue, ChaincraftError>)
        ensures
            r matches Ok(j) && j.model() == Json::Obj(seq![("merkleized"@, Json::Bool(false))]),
    {
        Ok(obj1("merkleized", JsonValue::Bool(false)))
    }

    fn reset(&mut self) -> (r: Result<(), ChaincraftError>)
        ensures
            r is Ok,
            *final(self) == *old(self),
    {
        Ok(())
    }
}

// ---------------------------------------------------------------------------
// MerkelizedObject
// ---------------------------------------------------------------------------

/// A digest-indexed log of every distinct payload it receives.
pub struct MerkelizedObject {
    id: SharedObjectId,
    storage: CoreStorage,
    state: MerkelizedState,
}

/// The same object under its other spelling.
pub type MerkleizedObject = MerkelizedObject;

impl MerkelizedObject {
    pub closed spec fn spec_id_of(&self) -> SharedObjectId {
        self.id
    }

    /// The log.
    pub closed spec fn spec_state(&self) -> StateModel {
        self.state@
    }

    /// What the object has stored.
    pub closed spec fn spec_store(&self) -> Map<Seq<char>, Json> {
        self.storage.spec_store()
    }

    pub fn new() -> (o: MerkelizedObject)
        ensures
            o.inv(),
            o.spec_state().messages.len() == 0,
            o.spec_state().digests.len() == 0,
            o.spec_state().heads == Set::<Seq<char>>::empty(),
            o.spec_store() == Map::<Seq<char>, Json>::empty(),
    {
        MerkelizedObject { id: SharedObjectId::new(), storage: fresh_storage(), state: MerkelizedState::new() }
    }
}

impl ApplicationObject for MerkelizedObject {
    open spec fn add_errs(&self, m: MessageModel, frontier: Option<MementoModel>) -> bool {
        false
    }

    open spec fn latest_digest_errs(&self) -> bool {
        false
    }

    open spec fn validation_errs(&self, m: MessageModel) -> bool {
        false
    }

    open spec fn digest_offered(&self, after: &Self, digest: Seq<char>, added: bool) -> bool {
        &&& added == (!self.spec_state().digests.contains(digest))
        &&& after.spec_state().digests == (if self.spec_state().digests.contains(digest) { self.spec_state().digests } else { self.spec_state().digests.push(digest) })
        &&& after.spec_state().messages == self.spec_state().messages
        &&& after.spec_state().heads == self.spec_state().heads
        &&& after.spec_store() == self.spec_store()
    }

    open spec fn reset_spec(&self, after: &Self) -> bool {
        &&& after.spec_state().messages.len() == 0
        &&& after.spec_state().digests.len() == 0
        &&& after.spec_state().heads == Set::<Seq<char>>::empty()
        &&& after.spec_store() == self.spec_store()
    }

    open spec fn state_spec(&self) -> Json {
        Json::Obj(seq![
            ("digests"@, count(self.spec_state().digests.len())),
            ("head_digests"@, text_array(sorted_heads(self.spec_state().heads))),
            ("messages"@, count(self.spec_state().messages.len())),
        ])
    }

    open spec fn has_digest_spec(&self, digest: Seq<char>) -> bool {
        self.spec_state().digests.contains(digest)
    }

    open spec fn valid_digest_spec(&self, digest: Seq<char>) -> bool {
        self.spec_state().digests.contains(digest)
    }

    open spec fn messages_since_ok(&self, digest: Seq<char>, out: Seq<SharedMessage>) -> bool {
        message_models(out) == messages_since(self.spec_state(), digest)
    }

    open spec fn gossip_ok(&self, digest: Option<Seq<char>>, out: Seq<SharedMessage>) -> bool {
        message_models(out) == messages_since(self.spec_state(), match digest { Some(d) => d, None => Seq::empty() })
    }

    open spec fn merkleized_spec(&self) -> bool {
        true
    }

    closed spec fn inv(&self) -> bool {
        self.storage.wf() && self.state.wf()
    }

    open spec fn spec_id(&self) -> SharedObjectId {
        self.spec_id_of()
    }

    open spec fn spec_object_type(&self) -> Seq<char> {
        "MerkelizedObject"@
    }

    open spec fn valid_for(&self, m: MessageModel) -> bool {
        true
    }

    open spec fn latest_digest_spec(&self) -> Seq<char> {
        latest_of(self.spec_state())
    }

    open spec fn state_digests_spec(&self) -> Seq<Seq<char>> {
        Seq::empty()
    }

    /// The message is logged (see `log_after`); nothing is emitted.
    open spec fn applied(&self, after: &Self, m: MessageModel, frontier: Option<MementoModel>, emitted: Option<MementoModel>) -> bool {
        &&& emitted is None
        &&& after.spec_state() == log_after(self.spec_state(), m)
        &&& after.spec_store() == store_after_log(self.spec_store(), self.spec_state(), m)
    }

    fn id(&self) -> (r: SharedObjectId) {
        self.id
    }

    fn object_type(&self) -> (r: &'static str) {
        "MerkelizedObject"
    }

    fn is_valid(&self, message: &SharedMessage) -> (r: Result<bool, ChaincraftError>)
        ensures
            r is Ok,
    {
        Ok(true)
    }

    fn add_message(&mut self, message: SharedMessage, frontier_state: Option<StateMemento>) -> (r: Result<Option<StateMemento>, ChaincraftError>)
        ensures
            r == Ok::<Option<StateMemento>, ChaincraftError>(None),
    {
        record_if_new(&mut self.state, &mut self.storage, message);
        Ok(None)
    }

    fn is_merkleized(&self) -> (r: bool)
        ensures
            r,
    {
        true
    }

    fn get_latest_digest(&self) -> (r: Result<String, ChaincraftError>)
        ensures
            r is Ok,
    {
        Ok(self.state.latest_digest())
    }

    fn has_digest(&self, digest: &str) -> (r: Result<bool, ChaincraftError>)
        ensures
            r == Ok::<bool, ChaincraftError>(self.spec_state().digests.contains(digest@)),
    {
        Ok(self.state.contains_digest(digest))
    }

    fn is_valid_digest(&self, digest: &str) -> (r: Result<bool, ChaincraftError>)
        ensures
            r == Ok::<bool, ChaincraftError>(self.spec_state().digests.contains(digest@)),
    {
        Ok(self.state.contains_digest(digest))
    }

    fn add_digest(&mut self, digest: String) -> (r: Result<bool, ChaincraftError>)
        ensures
            r == Ok::<bool, ChaincraftError>(!old(self).spec_state().digests.contains(digest@)),
            final(self).spec_state().digests == (if old(self).spec_state().digests.contains(digest@) {
                old(self).spec_state().digests
            } else {
                old(self).spec_state().digests.push(digest@)
            }),
            final(self).spec_state().messages == old(self).spec_state().messages,
            final(self).spec_state().heads == old(self).spec_state().heads,
            final(self).spec_store() == old(self).spec_store(),
    {
        Ok(self.state.add_digest(digest))
    }

    /// The messages after `digest` (all of them without one).
    fn gossip_messages(&self, digest: Option<&str>) -> (r: Result<Vec<SharedMessage>, ChaincraftError>)
        ensures
            r matches Ok(v) && message_models(v@) == messages_since(
                self.spec_state(),
                match digest { Some(d) => d@, None => Seq::empty() },
            ),
    {
        proof {
            reveal_strlit("");
            assert(""@ =~= Seq::<char>::empty());
        }
        match digest {
            Some(d) => Ok(self.state.messages_since_digest(d)),
            None => Ok(self.state.messages_since_digest("")),
        }
    }

    fn get_messages_since_digest(&self, digest: &str) -> (r: Result<Vec<SharedMessage>, ChaincraftError>)
        ensures
            r matches Ok(v) && message_models(v@) == messages_since(self.spec_state(), digest@),
    {
        Ok(self.state.messages_since_digest(digest))
    }

    fn get_state_digests(&self) -> (r: Vec<String>) {
        no_digests()
    }

    /// `{"digests": .., "head_digests": [..], "messages": ..}`.
    fn get_state(&self) -> (r: Result<JsonValue, ChaincraftError>)
        ensures
            r matches Ok(j) && j.model() == Json::Obj(seq![
                ("digests"@, count(self.spec_state().digests.len())),
                ("head_digests"@, text_array(sorted_heads(self.spec_state().heads))),
                ("messages"@, count(self.spec_state().messages.len())),
            ]),
    {
        let heads = self.state.head_digest_list();
        Ok(obj3(
            "digests",
            count_json(self.state.digest_count()),
            "head_digests",
            texts_json(&heads),
            "messages",
            count_json(self.state.message_count()),
        ))
    }

    fn reset(&mut self) -> (r: Result<(), ChaincraftError>)
        ensures
            r is Ok,
            final(self).spec_state().messages.len() == 0,
            final(self).spec_state().digests.len() == 0,
            final(self).spec_state().heads == Set::<Seq<char>>::empty(),
            final(self).spec_store() == old(self).spec_store(),
    {
        self.state = MerkelizedState::new();
        Ok(())
    }
}

fn empty_object() -> (r: JsonValue)
    ensures
        r.model() == Json::Obj(Seq::empty()),
{
    let entries: Vec<(String, JsonValue)> = Vec::new();
    proof {
        lemma_entry_models_of(entries@);
        assert(entry_models_of(entries@) =~= Seq::<(Seq<char>, Json)>::empty());
    }
    json_object(entries)
}

/// The `action` text of a payload, or the empty text.
pub open spec fn action_of(data: Json) -> Seq<char> {
    match json_get_str(data, "action"@) {
        Some(a) => a,
        None => Seq::empty(),
    }
}

fn action_text(data: &JsonValue) -> (r: &str)
    ensures
        r@ == action_of(data.model()),
{
    match data.get_str("action") {
        Some(a) => a.as_str(),
        None => {
            proof {
                reveal_strlit("");
                assert(""@ =~= Seq::<char>::empty());
            }
            ""
        },
    }
}

// ---------------------------------------------------------------------------
// UTXOLedger
// ---------------------------------------------------------------------------

/// The output recorded for a `utxo_add` payload.
pub open spec fn utxo_entry(data: Json) -> Json {
    Json::Obj(seq![
        ("amount"@, member_or(data, "amount"@, Json::Null)),
        ("meta"@, member_or(data, "meta"@, Json::Obj(Seq::empty()))),
        ("owner"@, member_or(data, "owner"@, Json::Null)),
    ])
}

/// The unspent outputs after a new payload: `utxo_add` records the output
/// under its `utxo_id`, `utxo_spend` removes it.
pub open spec fn utxos_after(utxos: Map<Seq<char>, Json>, data: Json) -> Map<Seq<char>, Json> {
    if action_of(data) == "utxo_add"@ {
        match json_get_str(data, "utxo_id"@) {
            Some(id) => utxos.insert(id, utxo_entry(data)),
            None => utxos,
        }
    } else if action_of(data) == "utxo_spend"@ {
        match json_get_str(data, "utxo_id"@) {
            Some(id) => utxos.remove(id),
            None => utxos,
        }
    } else {
        utxos
    }
}

/// The store after a new payload: outputs live under `utxo:<id>`.
pub open spec fn utxo_store_after(store: Map<Seq<char>, Json>, data: Json) -> Map<Seq<char>, Json> {
    if action_of(data) == "utxo_add"@ {
        match json_get_str(data, "utxo_id"@) {
            Some(id) => store.insert("utxo:"@ + id, utxo_entry(data)),
            None => store,
        }
    } else if action_of(data) == "utxo_spend"@ {
        match json_get_str(data, "utxo_id"@) {
            Some(id) => store.remove("utxo:"@ + id),
            None => store,
        }
    } else {
        store
    }
}

/// A ledger of unspent outputs over a digest-indexed log.
pub struct UTXOLedger {
    id: SharedObjectId,
    storage: CoreStorage,
    state: MerkelizedState,
    utxos: JsonMap,
}

impl UTXOLedger {
    pub closed spec fn spec_id_of(&self) -> SharedObjectId {
        self.id
    }

    pub closed spec fn spec_state(&self) -> StateModel {
        self.state@
    }

    pub closed spec fn spec_store(&self) -> Map<Seq<char>, Json> {
        self.storage.spec_store()
    }

    /// The unspent outputs by identifier.
    pub closed spec fn spec_utxos(&self) -> Map<Seq<char>, Json> {
        self.utxos@
    }

    pub fn new() -> (o: UTXOLedger)
        ensures
            o.inv(),
            o.spec_state().messages.len() == 0,
            o.spec_state().digests.len() == 0,
            o.spec_utxos() == Map::<Seq<char>, Json>::empty(),
    {
        UTXOLedger { id: SharedObjectId::new(), storage: fresh_storage(), state: MerkelizedState::new(), utxos: JsonMap::new() }
    }

    /// The unspent outputs.
    pub fn utxos(&self) -> (m: &JsonMap)
        requires
            self.inv(),
        ensures
            m.wf(),
            m@ == self.spec_utxos(),
    {
        &self.utxos
    }
}

impl ApplicationObject for UTXOLedger {
    open spec fn add_errs(&self, m: MessageModel, frontier: Option<MementoModel>) -> bool {
        false
    }

    open spec fn latest_digest_errs(&self) -> bool {
        false
    }

    open spec fn validation_errs(&self, m: MessageModel) -> bool {
        false
    }

    open spec fn digest_offered(&self, after: &Self, digest: Seq<char>, added: bool) -> bool {
        &&& added == (!self.spec_state().digests.contains(digest))
        &&& after.spec_state().digests == (if self.spec_state().digests.contains(digest) { self.spec_state().digests } else { self.spec_state().digests.push(digest) })
        &&& after.spec_state().messages == self.spec_state().messages
        &&& after.spec_state().heads == self.spec_state().heads
        &&& after.spec_store() == self.spec_store()
    }

    open spec fn reset_spec(&self, after: &Self) -> bool {
        &&& after.spec_state().messages.len() == 0
        &&& after.spec_state().digests.len() == 0
        &&& after.spec_utxos() == Map::<Seq<char>, Json>::empty()
        &&& after.spec_store() == self.spec_store()
    }

    open spec fn state_spec(&self) -> Json {
        Json::Obj(seq![("utxo_count"@, count(self.spec_utxos().dom().len()))])
    }

    open spec fn has_digest_spec(&self, digest: Seq<char>) -> bool {
        self.spec_state().digests.contains(digest)
    }

    open spec fn valid_digest_spec(&self, digest: Seq<char>) -> bool {
        self.spec_state().digests.contains(digest)
    }

    open spec fn messages_since_ok(&self, digest: Seq<char>, out: Seq<SharedMessage>) -> bool {
        message_models(out) == messages_since(self.spec_state(), digest)
    }

    open spec fn gossip_ok(&self, digest: Option<Seq<char>>, out: Seq<SharedMessage>) -> bool {
        message_models(out) == messages_since(self.spec_state(), match digest { Some(d) => d, None => Seq::empty() })
    }

    open spec fn merkleized_spec(&self) -> bool {
        true
    }

    closed spec fn inv(&self) -> bool {
        self.storage.wf() && self.state.wf() && self.utxos.wf()
    }

    open spec fn spec_id(&self) -> SharedObjectId {
        self.spec_id_of()
    }

    open spec fn spec_object_type(&self) -> Seq<char> {
        "UTXOLedger"@
    }

    /// An object payload that adds an output with `utxo_id`, `amount` and
    /// `owner`, or spends a known `utxo_id`.
    open spec fn valid_for(&self, m: MessageModel) -> bool {
        &&& m.data is Obj
        &&& if json_get_str(m.data, "action"@) == Some("utxo_add"@) {
            &&& json_get(m.data, "utxo_id"@) is Some
            &&& json_get(m.data, "amount"@) is Some
            &&& json_get(m.data, "owner"@) is Some
        } else if json_get_str(m.data, "action"@) == Some("utxo_spend"@) {
            match json_get_str(m.data, "utxo_id"@) {
                Some(id) => self.spec_utxos().dom().contains(id),
                None => false,
            }
        } else {
            false
        }
    }

    open spec fn latest_digest_spec(&self) -> Seq<char> {
        latest_of(self.spec_state())
    }

    open spec fn state_digests_spec(&self) -> Seq<Seq<char>> {
        Seq::empty()
    }

    /// A payload with a new digest is logged and its action applied; a
    /// known one changes nothing. Nothing is emitted.
    open spec fn applied(&self, after: &Self, m: MessageModel, frontier: Option<MementoModel>, emitted: Option<MementoModel>) -> bool {
        let fresh = !self.spec_state().digests.contains(digest_of(m.data));
        &&& emitted is None
        &&& after.spec_state() == log_after(self.spec_state(), m)
        &&& after.spec_utxos() == if fresh { utxos_after(self.spec_utxos(), m.data) } else { self.spec_utxos() }
        &&& after.spec_store() == if fresh {
            utxo_store_after(store_after_log(self.spec_store(), self.spec_state(), m), m.data)
        } else {
            self.spec_store()
        }
    }

    fn id(&self) -> (r: SharedObjectId) {
        self.id
    }

    fn object_type(&self) -> (r: &'static str) {
        "UTXOLedger"
    }

    fn is_valid(&self, message: &SharedMessage) -> (r: Result<bool, ChaincraftError>)
        ensures
            r is Ok,
    {
        let data = &message.data;
        if !data.is_object() {
            return Ok(false);
        }
        match data.get_str("action") {
            Some(a) => {
                if str_equal(a.as_str(), "utxo_add") {
                    Ok(data.contains_key("utxo_id") && data.contains_key("amount") && data.contains_key("owner"))
                } else if str_equal(a.as_str(), "utxo_spend") {
                    match data.get_str("utxo_id") {
                        Some(id) => Ok(self.utxos.contains_key(id.as_str())),
                        None => Ok(false),
                    }
                } else {
                    Ok(false)
                }
            },
            None => Ok(false),
        }
    }

    fn add_message(&mut self, message: SharedMessage, frontier_state: Option<StateMemento>) -> (r: Result<Option<StateMemento>, ChaincraftError>)
        ensures
            r == Ok::<Option<StateMemento>, ChaincraftError>(None),
    {
        let data = clone_json(&message.data);
        let (digest, fresh) = record_if_new(&mut self.state, &mut self.storage, message);
        if !fresh {
            return Ok(None);
        }
        let action = action_text(&data);
        if str_equal(action, "utxo_add") {
            match data.get_str("utxo_id") {
                Some(id) => {
                    let entry = obj3(
                        "amount",
                        get_or(&data, "amount", JsonValue::Null),
                        "meta",
                        get_or(&data, "meta", empty_object()),
                        "owner",
                        get_or(&data, "owner", JsonValue::Null),
                    );
                    self.utxos.insert(copy_str(id.as_str()), clone_json(&entry));
                    let key = prefixed("utxo:", id.as_str());
                    self.storage.write(key.as_str(), entry);
                },
                None => {},
            }
        } else if str_equal(action, "utxo_spend") {
            match data.get_str("utxo_id") {
                Some(id) => {
                    self.utxos.remove(id.as_str());
                    let key = prefixed("utxo:", id.as_str());
                    self.storage.delete(key.as_str());
                },
                None => {},
            }
        }
        Ok(None)
    }

    fn is_merkleized(&self) -> (r: bool)
        ensures
            r,
    {
        true
    }

    fn get_latest_digest(&self) -> (r: Result<String, ChaincraftError>)
        ensures
            r is Ok,
    {
        Ok(self.state.latest_digest())
    }

    fn has_digest(&self, digest: &str) -> (r: Result<bool, ChaincraftError>)
        ensures
            r == Ok::<bool, ChaincraftError>(self.spec_state().digests.contains(digest@)),
    {
        Ok(self.state.contains_digest(digest))
    }

    fn is_valid_digest(&self, digest: &str) -> (r: Result<bool, ChaincraftError>)
        ensures
            r == Ok::<bool, ChaincraftError>(self.spec_state().digests.contains(digest@)),
    {
        Ok(self.state.contains_digest(digest))
    }

    fn add_digest(&mut self, digest: String) -> (r: Result<bool, ChaincraftError>)
        ensures
            r == Ok::<bool, ChaincraftError>(!old(self).spec_state().digests.contains(digest@)),
            final(self).spec_state().digests == (if old(self).spec_state().digests.contains(digest@) {
                old(self).spec_state().digests
            } else {
                old(self).spec_state().digests.push(digest@)
            }),
            final(self).spec_state().messages == old(self).spec_state().messages,
            final(self).spec_state().heads == old(self).spec_state().heads,
            final(self).spec_store() == old(self).spec_store(),
    {
        Ok(self.state.add_digest(digest))
    }

    /// The messages after `digest` (all of them without one).
    fn gossip_messages(&self, digest: Option<&str>) -> (r: Result<Vec<SharedMessage>, ChaincraftError>)
        ensures
            r matches Ok(v) && message_models(v@) == messages_since(
                self.spec_state(),
                match digest { Some(d) => d@, None => Seq::empty() },
            ),
    {
        proof {
            reveal_strlit("");
            assert(""@ =~= Seq::<char>::empty());
        }
        match digest {
            Some(d) => Ok(self.state.messages_since_digest(d)),
            None => Ok(self.state.messages_since_digest("")),
        }
    }

    fn get_messages_since_digest(&self, digest: &str) -> (r: Result<Vec<SharedMessage>, ChaincraftError>)
        ensures
            r matches Ok(v) && message_models(v@) == messages_since(self.spec_state(), digest@),
    {
        Ok(self.state.messages_since_digest(digest))
    }

    fn get_state_digests(&self) -> (r: Vec<String>) {
        no_digests()
    }

    /// `{"utxo_count": n}`.
    fn get_state(&self) -> (r: Result<JsonValue, ChaincraftError>)
        ensures
            r matches Ok(j) && j.model() == Json::Obj(seq![("utxo_count"@, count(self.spec_utxos().dom().len()))]),
    {
        Ok(obj1("utxo_count", count_json(self.utxos.len())))
    }

    fn reset(&mut self) -> (r: Result<(), ChaincraftError>)
        ensures
            r is Ok,
            final(self).spec_state().messages.len() == 0,
            final(self).spec_state().digests.len() == 0,
            final(self).spec_utxos() == Map::<Seq<char>, Json>::empty(),
            final(self).spec_store() == old(self).spec_store(),
    {
        self.state = MerkelizedState::new();
        self.utxos.clear();
        Ok(())
    }
}

// ---------------------------------------------------------------------------
// Blockchain
// ---------------------------------------------------------------------------

/// The block recorded for a payload with digest `d`.
pub open spec fn block_json(d: Seq<char>, data: Json) -> Json {
    Json::Obj(seq![("digest"@, Json::Str(d)), ("payload"@, data)])
}

/// The `digest` text of a block, or the empty text.
pub open spec fn block_digest(b: Json) -> Seq<char> {
    match json_get_str(b, "digest"@) {
        Some(d) => d,
        None => Seq::empty(),
    }
}

/// The models of a sequence of JSON values.
pub open spec fn json_models(v: Seq<JsonValue>) -> Seq<Json> {
    Seq::new(v.len(), |i: int| v[i].model())
}

/// A chain of blocks, each naming the digest of the one before.
pub struct Blockchain {
    id: SharedObjectId,
    storage: CoreStorage,
    state: MerkelizedState,
    blocks: Vec<JsonValue>,
}

impl Blockchain {
    pub closed spec fn spec_id_of(&self) -> SharedObjectId {
        self.id
    }

    pub closed spec fn spec_state(&self) -> StateModel {
        self.state@
    }

    pub closed spec fn spec_store(&self) -> Map<Seq<char>, Json> {
        self.storage.spec_store()
    }

    /// The blocks, oldest first.
    pub closed spec fn spec_blocks(&self) -> Seq<Json> {
        json_models(self.blocks@)
    }

    pub fn new() -> (o: Blockchain)
        ensures
            o.inv(),
            o.spec_state().messages.len() == 0,
            o.spec_state().digests.len() == 0,
            o.spec_blocks().len() == 0,
    {
        Blockchain { id: SharedObjectId::new(), storage: fresh_storage(), state: MerkelizedState::new(), blocks: Vec::new() }
    }

    /// The blocks, oldest first.
    pub fn blocks(&self) -> (b: &[JsonValue])
        ensures
            json_models(b@) == self.spec_blocks(),
    {
        self.blocks.as_slice()
    }
}

impl ApplicationObject for Blockchain {
    open spec fn add_errs(&self, m: MessageModel, frontier: Option<MementoModel>) -> bool {
        false
    }

    open spec fn latest_digest_errs(&self) -> bool {
        false
    }

    open spec fn validation_errs(&self, m: MessageModel) -> bool {
        false
    }

    open spec fn digest_offered(&self, after: &Self, digest: Seq<char>, added: bool) -> bool {
        &&& added == (!self.spec_state().digests.contains(digest))
        &&& after.spec_state().digests == (if self.spec_state().digests.contains(digest) { self.spec_state().digests } else { self.spec_state().digests.push(digest) })
        &&& after.spec_state().messages == self.spec_state().messages
        &&& after.spec_state().heads == self.spec_state().heads
        &&& after.spec_store() == self.spec_store()
    }

    open spec fn reset_spec(&self, after: &Self) -> bool {
        &&& after.spec_state().messages.len() == 0
        &&& after.spec_state().digests.len() == 0
        &&& after.spec_blocks().len() == 0
        &&& after.spec_store() == self.spec_store()
    }

    open spec fn state_spec(&self) -> Json {
        Json::Obj(seq![("block_count"@, count(self.spec_blocks().len()))])
    }

    open spec fn has_digest_spec(&self, digest: Seq<char>) -> bool {
        self.spec_state().digests.contains(digest)
    }

    open spec fn valid_digest_spec(&self, digest: Seq<char>) -> bool {
        self.spec_state().digests.contains(digest)
    }

    open spec fn messages_since_ok(&self, digest: Seq<char>, out: Seq<SharedMessage>) -> bool {
        message_models(out) == messages_since(self.spec_state(), digest)
    }

    open spec fn gossip_ok(&self, digest: Option<Seq<char>>, out: Seq<SharedMessage>) -> bool {
        message_models(out) == messages_since(self.spec_state(), match digest { Some(d) => d, None => Seq::empty() })
    }

    open spec fn merkleized_spec(&self) -> bool {
        true
    }

    closed spec fn inv(&self) -> bool {
        self.storage.wf() && self.state.wf()
    }

    open spec fn spec_id(&self) -> SharedObjectId {
        self.spec_id_of()
    }

    open spec fn spec_object_type(&self) -> Seq<char> {
        "Blockchain"@
    }

    /// An object payload whose `previous_digest` (empty when absent) is the
    /// digest of the last block, or empty or `genesis` before the first.
    open spec fn valid_for(&self, m: MessageModel) -> bool {
        let prev = match json_get_str(m.data, "previous_digest"@) {
            Some(p) => p,
            None => Seq::empty(),
        };
        &&& m.data is Obj
        &&& if self.spec_blocks().len() == 0 {
            prev.len() == 0 || prev == "genesis"@
        } else {
            prev == block_digest(self.spec_blocks().last())
        }
    }

    open spec fn latest_digest_spec(&self) -> Seq<char> {
        latest_of(self.spec_state())
    }

    open spec fn state_digests_spec(&self) -> Seq<Seq<char>> {
        Seq::empty()
    }

    /// A payload with a new digest is logged and appended as a block; a
    /// known one changes nothing. Nothing is emitted.
    open spec fn applied(&self, after: &Self, m: MessageModel, frontier: Option<MementoModel>, emitted: Option<MementoModel>) -> bool {
        let d = digest_of(m.data);
        let fresh = !self.spec_state().digests.contains(d);
        &&& emitted is None
        &&& after.spec_state() == log_after(self.spec_state(), m)
        &&& after.spec_blocks() == if fresh { self.spec_blocks().push(block_json(d, m.data)) } else { self.spec_blocks() }
        &&& after.spec_store() == if fresh {
            store_after_log(self.spec_store(), self.spec_state(), m).insert("block:"@ + d, block_json(d, m.data))
        } else {
            self.spec_store()
        }
    }

    fn id(&self) -> (r: SharedObjectId) {
        self.id
    }

    fn object_type(&self) -> (r: &'static str) {
        "Blockchain"
    }

    fn is_valid(&self, message: &SharedMessage) -> (r: Result<bool, ChaincraftError>)
        ensures
            r is Ok,
    {
        let data = &message.data;
        if !data.is_object() {
            return Ok(false);
        }
        proof {
            reveal_strlit("");
            assert(""@ =~= Seq::<char>::empty());
        }
        let prev: &str = match data.get_str("previous_digest") {
            Some(p) => p.as_str(),
            None => "",
        };
        let n = self.blocks.len();
        if n == 0 {
            proof {
                if prev@.len() == 0 {
                    assert(prev@ =~= ""@);
                }
            }
            return Ok(str_equal(prev, "") || str_equal(prev, "genesis"));
        }
        let last: &str = match self.blocks[n - 1].get_str("digest") {
            Some(d) => d.as_str(),
            None => "",
        };
        Ok(str_equal(prev, last))
    }

    fn add_message(&mut self, message: SharedMessage, frontier_state: Option<StateMemento>) -> (r: Result<Option<StateMemento>, ChaincraftError>)
        ensures
            r == Ok::<Option<StateMemento>, ChaincraftError>(None),
    {
        let data = clone_json(&message.data);
        let (digest, fresh) = record_if_new(&mut self.state, &mut self.storage, message);
        if !fresh {
            return Ok(None);
        }
        let block = obj2("digest", json_string(digest.as_str()), "payload", data);
        let ghost before = self.blocks@;
        self.blocks.push(clone_json(&block));
        proof {
            assert(json_models(self.blocks@) =~= json_models(before).push(block.model()));
        }
        let key = prefixed("block:", digest.as_str());
        self.storage.write(key.as_str(), block);
        Ok(None)
    }

    fn is_merkleized(&self) -> (r: bool)
        ensures
            r,
    {
        true
    }

    fn get_latest_digest(&self) -> (r: Result<String, ChaincraftError>)
        ensures
            r is Ok,
    {
        Ok(self.state.latest_digest())
    }

    fn has_digest(&self, digest: &str) -> (r: Result<bool, ChaincraftError>)
        ensures
            r == Ok::<bool, ChaincraftError>(self.spec_state().digests.contains(digest@)),
    {
        Ok(self.state.contains_digest(digest))
    }

    fn is_valid_digest(&self, digest: &str) -> (r: Result<bool, ChaincraftError>)
        ensures
            r == Ok::<bool, ChaincraftError>(self.spec_state().digests.contains(digest@)),
    {
        Ok(self.state.contains_digest(digest))
    }

    fn add_digest(&mut self, digest: String) -> (r: Result<bool, ChaincraftError>)
        ensures
            r == Ok::<bool, ChaincraftError>(!old(self).spec_state().digests.contains(digest@)),
            final(self).spec_state().digests == (if old(self).spec_state().digests.contains(digest@) {
                old(self).spec_state().digests
            } else {
                old(self).spec_state().digests.push(digest@)
            }),
            final(self).spec_state().messages == old(self).spec_state().messages,
            final(self).spec_state().heads == old(self).spec_state().heads,
            final(self).spec_store() == old(self).spec_store(),
    {
        Ok(self.state.add_digest(digest))
    }

    /// The messages after `digest` (all of them without one).
    fn gossip_messages(&self, digest: Option<&str>) -> (r: Result<Vec<SharedMessage>, ChaincraftError>)
        ensures
            r matches Ok(v) && message_models(v@) == messages_since(
                self.spec_state(),
                match digest { Some(d) => d@, None => Seq::empty() },
            ),
    {
        proof {
            reveal_strlit("");
            assert(""@ =~= Seq::<char>::empty());
        }
        match digest {
            Some(d) => Ok(self.state.messages_since_digest(d)),
            None => Ok(self.state.messages_since_digest("")),
        }
    }

    fn get_messages_since_digest(&self, digest: &str) -> (r: Result<Vec<SharedMessage>, ChaincraftError>)
        ensures
            r matches Ok(v) && message_models(v@) == messages_since(self.spec_state(), digest@),
    {
        Ok(self.state.messages_since_digest(digest))
    }

    fn get_state_digests(&self) -> (r: Vec<String>) {
        no_digests()
    }

    /// `{"block_count": n}`.
    fn get_state(&self) -> (r: Result<JsonValue, ChaincraftError>)
        ensures
            r matches Ok(j) && j.model() == Json::Obj(seq![("block_count"@, count(self.spec_blocks().len()))]),
    {
        Ok(obj1("block_count", count_json(self.blocks.len())))
    }

    fn reset(&mut self) -> (r: Result<(), ChaincraftError>)
        ensures
            r is Ok,
            final(self).spec_state().messages.len() == 0,
            final(self).spec_state().digests.len() == 0,
            final(self).spec_blocks().len() == 0,
            final(self).spec_store() == old(self).spec_store(),
    {
        self.state = MerkelizedState::new();
        self.blocks.clear();
        Ok(())
    }
}

// ---------------------------------------------------------------------------
// TransactionChain
// ---------------------------------------------------------------------------

/// The transaction recorded for a payload with digest `d`.
pub open spec fn tx_json(d: Seq<char>, data: Json) -> Json {
    Json::Obj(seq![("payload"@, data), ("tx_digest"@, Json::Str(d))])
}

/// An ordered log of transactions.
pub struct TransactionChain {
    id: SharedObjectId,
    storage: CoreStorage,
    state: MerkelizedState,
    transactions: Vec<JsonValue>,
}

impl TransactionChain {
    pub closed spec fn spec_id_of(&self) -> SharedObjectId {
        self.id
    }

    pub closed spec fn spec_state(&self) -> StateModel {
        self.state@
    }

    pub closed spec fn spec_store(&self) -> Map<Seq<char>, Json> {
        self.storage.spec_store()
    }

    /// The transactions, oldest first.
    pub closed spec fn spec_transactions(&self) -> Seq<Json> {
        json_models(self.transactions@)
    }

    pub fn new() -> (o: TransactionChain)
        ensures
            o.inv(),
            o.spec_state().messages.len() == 0,
            o.spec_state().digests.len() == 0,
            o.spec_transactions().len() == 0,
    {
        TransactionChain { id: SharedObjectId::new(), storage: fresh_storage(), state: MerkelizedState::new(), transactions: Vec::new() }
    }

    /// The transactions, oldest first.
    pub fn transactions(&self) -> (t: &[JsonValue])
        ensures
            json_models(t@) == self.spec_transactions(),
    {
        self.transactions.as_slice()
    }
}

impl ApplicationObject for TransactionChain {
    open spec fn add_errs(&self, m: MessageModel, frontier: Option<MementoModel>) -> bool {
        false
    }

    open spec fn latest_digest_errs(&self) -> bool {
        false
    }

    open spec fn validation_errs(&self, m: MessageModel) -> bool {
        false
    }

    open spec fn digest_offered(&self, after: &Self, digest: Seq<char>, added: bool) -> bool {
        &&& added == (!self.spec_state().digests.contains(digest))
        &&& after.spec_state().digests == (if self.spec_state().digests.contains(digest) { self.spec_state().digests } else { self.spec_state().digests.push(digest) })
        &&& after.spec_state().messages == self.spec_state().messages
        &&& after.spec_state().heads == self.spec_state().heads
        &&& after.spec_store() == self.spec_store()
    }

    open spec fn reset_spec(&self, after: &Self) -> bool {
        &&& after.spec_state().messages.len() == 0
        &&& after.spec_state().digests.len() == 0
        &&& after.spec_transactions().len() == 0
        &&& after.spec_store() == self.spec_store()
    }

    open spec fn state_spec(&self) -> Json {
        Json::Obj(seq![("transaction_count"@, count(self.spec_transactions().len()))])
    }

    open spec fn has_digest_spec(&self, digest: Seq<char>) -> bool {
        self.spec_state().digests.contains(digest)
    }

    open spec fn valid_digest_spec(&self, digest: Seq<char>) -> bool {
        self.spec_state().digests.contains(digest)
    }

    open spec fn messages_since_ok(&self, digest: Seq<char>, out: Seq<SharedMessage>) -> bool {
        message_models(out) == messages_since(self.spec_state(), digest)
    }

    open spec fn gossip_ok(&self, digest: Option<Seq<char>>, out: Seq<SharedMessage>) -> bool {
        message_models(out) == messages_since(self.spec_state(), match digest { Some(d) => d, None => Seq::empty() })
    }

    open spec fn merkleized_spec(&self) -> bool {
        true
    }

    closed spec fn inv(&self) -> bool {
        self.storage.wf() && self.state.wf()
    }

    open spec fn spec_id(&self) -> SharedObjectId {
        self.spec_id_of()
    }

    open spec fn spec_object_type(&self) -> Seq<char> {
        "TransactionChain"@
    }

    /// Any object payload.
    open spec fn valid_for(&self, m: MessageModel) -> bool {
        m.data is Obj
    }

    open spec fn latest_digest_spec(&self) -> Seq<char> {
        latest_of(self.spec_state())
    }

    open spec fn state_digests_spec(&self) -> Seq<Seq<char>> {
        Seq::empty()
    }

    /// A payload with a new digest is logged and appended as a transaction;
    /// a known one changes nothing. Nothing is emitted.
    open spec fn applied(&self, after: &Self, m: MessageModel, frontier: Option<MementoModel>, emitted: Option<MementoModel>) -> bool {
        let d = digest_of(m.data);
        let fresh = !self.spec_state().digests.contains(d);
        &&& emitted is None
        &&& after.spec_state() == log_after(self.spec_state(), m)
        &&& after.spec_transactions() == if fresh { self.spec_transactions().push(tx_json(d, m.data)) } else { self.spec_transactions() }
        &&& after.spec_store() == if fresh {
            store_after_log(self.spec_store(), self.spec_state(), m).insert("tx:"@ + d, tx_json(d, m.data))
        } else {
            self.spec_store()
        }
    }

    fn id(&self) -> (r: SharedObjectId) {
        self.id
    }

    fn object_type(&self) -> (r: &'static str) {
        "TransactionChain"
    }

    fn is_valid(&self, message: &SharedMessage) -> (r: Result<bool, ChaincraftError>)
        ensures
            r is Ok,
    {
        Ok(message.data.is_object())
    }

    fn add_message(&mut self, message: SharedMessage, frontier_state: Option<StateMemento>) -> (r: Result<Option<StateMemento>, ChaincraftError>)
        ensures
            r == Ok::<Option<StateMemento>, ChaincraftError>(None),
    {
        let data = clone_json(&message.data);
        let (digest, fresh) = record_if_new(&mut self.state, &mut self.storage, message);
        if !fresh {
            return Ok(None);
        }
        let tx = obj2("payload", data, "tx_digest", json_string(digest.as_str()));
        let ghost before = self.transactions@;
        self.transactions.push(clone_json(&tx));
        proof {
            assert(json_models(self.transactions@) =~= json_models(before).push(tx.model()));
        }
        let key = prefixed("tx:", digest.as_str());
        self.storage.write(key.as_str(), tx);
        Ok(None)
    }

    fn is_merkleized(&self) -> (r: bool)
        ensures
            r,
    {
        true
    }

    fn get_latest_digest(&self) -> (r: Result<String, ChaincraftError>)
        ensures
            r is Ok,
    {
        Ok(self.state.latest_digest())
    }

    fn has_digest(&self, digest: &str) -> (r: Result<bool, ChaincraftError>)
        ensures
            r == Ok::<bool, ChaincraftError>(self.spec_state().digests.contains(digest@)),
    {
        Ok(self.state.contains_digest(digest))
    }

    fn is_valid_digest(&self, digest: &str) -> (r: Result<bool, ChaincraftError>)
        ensures
            r == Ok::<bool, ChaincraftError>(self.spec_state().digests.contains(digest@)),
    {
        Ok(self.state.contains_digest(digest))
    }

    fn add_digest(&mut self, digest: String) -> (r: Result<bool, ChaincraftError>)
        ensures
            r == Ok::<bool, ChaincraftError>(!old(self).spec_state().digests.contains(digest@)),
            final(self).spec_state().digests == (if old(self).spec_state().digests.contains(digest@) {
                old(self).spec_state().digests
            } else {
                old(self).spec_state().digests.push(digest@)
            }),
            final(self).spec_state().messages == old(self).spec_state().messages,
            final(self).spec_state().heads == old(self).spec_state().heads,
            final(self).spec_store() == old(self).spec_store(),
    {
        Ok(self.state.add_digest(digest))
    }

    /// The messages after `digest` (all of them without one).
    fn gossip_messages(&self, digest: Option<&str>) -> (r: Result<Vec<SharedMessage>, ChaincraftError>)
        ensures
            r matches Ok(v) && message_models(v@) == messages_since(
                self.spec_state(),
                match digest { Some(d) => d@, None => Seq::empty() },
            ),
    {
        proof {
            reveal_strlit("");
            assert(""@ =~= Seq::<char>::empty());
        }
        match digest {
            Some(d) => Ok(self.state.messages_since_digest(d)),
            None => Ok(self.state.messages_since_digest("")),
        }
    }

    fn get_messages_since_digest(&self, digest: &str) -> (r: Result<Vec<SharedMessage>, ChaincraftError>)
        ensures
            r matches Ok(v) && message_models(v@) == messages_since(self.spec_state(), digest@),
    {
        Ok(self.state.messages_since_digest(digest))
    }

    fn get_state_digests(&self) -> (r: Vec<String>) {
        no_digests()
    }

    /// `{"transaction_count": n}`.
    fn get_state(&self) -> (r: Result<JsonValue, ChaincraftError>)
        ensures
            r matches Ok(j) && j.model() == Json::Obj(seq![("transaction_count"@, count(self.spec_transactions().len()))]),
    {
        Ok(obj1("transaction_count", count_json(self.transactions.len())))
    }

    fn reset(&mut self) -> (r: Result<(), ChaincraftError>)
        ensures
            r is Ok,
            final(self).spec_state().messages.len() == 0,
            final(self).spec_state().digests.len() == 0,
            final(self).spec_transactions().len() == 0,
            final(self).spec_store() == old(self).spec_store(),
    {
        self.state = MerkelizedState::new();
        self.transactions.clear();
        Ok(())
    }
}

// ---------------------------------------------------------------------------
// DAGObject
// ---------------------------------------------------------------------------

/// The node recorded for a payload with digest `d` and parents `ps`.
pub open spec fn dag_node(d: Seq<char>, ps: Seq<Seq<char>>, data: Json) -> Json {
    Json::Obj(seq![("data"@, data), ("digest"@, Json::Str(d)), ("parents"@, text_array(ps))])
}

/// The digest of a frontier: the content digest of
/// `{"frontier_heads": [heads in ascending order], "v": version}`, or the
/// empty text when there are no heads.
pub open spec fn frontier_digest(heads: Set<Seq<char>>, version: u32) -> Seq<char> {
    if sorted_heads(heads).len() == 0 {
        Seq::empty()
    } else {
        digest_of(Json::Obj(seq![
            ("frontier_heads"@, text_array(sorted_heads(heads))),
            ("v"@, Json::Num(NumModel::PosInt(version as u64))),
        ]))
    }
}

/// The position recorded in a frontier index entry.
pub open spec fn position_of(j: Json) -> int {
    match j {
        Json::Num(NumModel::PosInt(u)) => u as int,
        Json::Num(NumModel::NegInt(i)) => i as int,
        _ => 0,
    }
}

/// The messages of a DAG after `d`: as for a log, but a digest that is not
/// a message digest may be a frontier digest, after whose last message the
/// result starts.
pub open spec fn dag_since(s: StateModel, frontier: Map<Seq<char>, int>, d: Seq<char>) -> Seq<MessageModel> {
    if s.messages.len() == 0 || d.len() == 0 || s.digests.contains(d) {
        messages_since(s, d)
    } else if frontier.dom().contains(d) {
        let start = if frontier[d] + 1 < 0 { 0 } else { frontier[d] + 1 };
        s.messages.subrange(start, s.messages.len() as int)
    } else {
        Seq::empty()
    }
}

/// A DAG of payloads, each naming its parents among the current heads.
pub struct DAGObject {
    id: SharedObjectId,
    storage: CoreStorage,
    state: MerkelizedState,
    nodes: JsonMap,
    frontier_state_index: JsonMap,
    frontier_digest_version: u32,
}

impl DAGObject {
    pub closed spec fn spec_id_of(&self) -> SharedObjectId {
        self.id
    }

    pub closed spec fn spec_state(&self) -> StateModel {
        self.state@
    }

    pub closed spec fn spec_store(&self) -> Map<Seq<char>, Json> {
        self.storage.spec_store()
    }

    /// The nodes by digest.
    pub closed spec fn spec_nodes(&self) -> Map<Seq<char>, Json> {
        self.nodes@
    }

    /// For each frontier digest seen, the position of the last message at
    /// that frontier (-1 for the empty frontier).
    pub closed spec fn spec_frontier_index(&self) -> Map<Seq<char>, int> {
        Map::new(
            |k: Seq<char>| self.frontier_state_index@.dom().contains(k),
            |k: Seq<char>| position_of(self.frontier_state_index@[k]),
        )
    }

    fn initial_index() -> (m: JsonMap)
        ensures
            m.wf(),
            m@ == Map::<Seq<char>, Json>::empty().insert(Seq::empty(), Json::Num(NumModel::NegInt(-1i64))),
    {
        let mut m = JsonMap::new();
        m.insert(String::new(), JsonValue::Number(crate::json::JsonNumber::NegInt(-1)));
        m
    }

    pub fn new() -> (o: DAGObject)
        ensures
            o.inv(),
            o.spec_state().messages.len() == 0,
            o.spec_state().digests.len() == 0,
            o.spec_nodes() == Map::<Seq<char>, Json>::empty(),
            o.spec_frontier_index() == Map::<Seq<char>, int>::empty().insert(Seq::empty(), -1),
            o.spec_version() == 1,
    {
        let o = DAGObject {
            id: SharedObjectId::new(),
            storage: fresh_storage(),
            state: MerkelizedState::new(),
            nodes: JsonMap::new(),
            frontier_state_index: Self::initial_index(),
            frontier_digest_version: 1,
        };
        proof {
            assert(o.spec_frontier_index() =~= Map::<Seq<char>, int>::empty().insert(Seq::empty(), -1));
        }
        o
    }

    /// The version written into frontier digests.
    pub closed spec fn spec_version(&self) -> u32 {
        self.frontier_digest_version
    }

    /// The version written into frontier digests.
    pub fn frontier_digest_version(&self) -> (v: u32)
        ensures
            v == self.spec_version(),
    {
        self.frontier_digest_version
    }

    /// The heads, in ascending order.
    pub fn get_head_digests(&self) -> (h: Vec<String>)
        requires
            self.inv(),
        ensures
            views_of(h@) == sorted_heads(self.spec_state().heads),
    {
        self.state.head_digest_list()
    }

    /// The digest of the current frontier.
    fn current_frontier_digest(&self) -> (d: String)
        requires
            self.inv(),
        ensures
            d@ == frontier_digest(self.spec_state().heads, self.spec_version()),
    {
        let heads = self.get_head_digests();
        if heads.len() == 0 {
            return String::new();
        }
        let v = obj2("frontier_heads", texts_json(&heads), "v", json_uint(self.frontier_digest_version as u64));
        compute_digest(&v)
    }

    /// The nodes by digest.
    pub fn nodes(&self) -> (m: &JsonMap)
        requires
            self.inv(),
        ensures
            m.wf(),
            m@ == self.spec_nodes(),
    {
        &self.nodes
    }

    /// The messages after `digest` (see `dag_since`).
    fn messages_after(&self, digest: &str) -> (v: Vec<SharedMessage>)
        requires
            self.inv(),
        ensures
            message_models(v@) == dag_since(self.spec_state(), self.spec_frontier_index(), digest@),
    {
        proof {
            reveal_strlit("");
            assert(""@ =~= Seq::<char>::empty());
        }
        if self.state.message_count() == 0 || str_equal(digest, "") || self.state.contains_digest(digest) {
            proof {
                if digest@ == ""@ {
                    assert(digest@.len() == 0);
                }
            }
            return self.state.messages_since_digest(digest);
        }
        proof {
            if digest@.len() == 0 {
                assert(digest@ =~= ""@);
            }
        }
        match self.frontier_state_index.get(digest) {
            Some(v) => {
                proof {
                    assert(self.frontier_state_index@.dom().contains(digest@));
                }
                let n = self.state.message_count();
                let start: usize = match v {
                    JsonValue::Number(crate::json::JsonNumber::PosInt(u)) => {
                        assert(*u < n);
                        (*u as usize) + 1
                    },
                    _ => 0,
                };
                self.state.messages_from(start)
            },
            None => empty_messages(),
        }
    }
}

impl ApplicationObject for DAGObject {
    open spec fn add_errs(&self, m: MessageModel, frontier: Option<MementoModel>) -> bool {
        false
    }

    open spec fn latest_digest_errs(&self) -> bool {
        false
    }

    open spec fn validation_errs(&self, m: MessageModel) -> bool {
        false
    }

    open spec fn digest_offered(&self, after: &Self, digest: Seq<char>, added: bool) -> bool {
        &&& added == (!self.spec_state().digests.contains(digest))
        &&& after.spec_state().digests == (if self.spec_state().digests.contains(digest) { self.spec_state().digests } else { self.spec_state().digests.push(digest) })
        &&& after.spec_state().messages == self.spec_state().messages
        &&& after.spec_state().heads == self.spec_state().heads
        &&& after.spec_nodes() == self.spec_nodes()
        &&& after.spec_frontier_index() == self.spec_frontier_index()
    }

    open spec fn reset_spec(&self, after: &Self) -> bool {
        &&& after.spec_state().messages.len() == 0
        &&& after.spec_state().digests.len() == 0
        &&& after.spec_nodes() == Map::<Seq<char>, Json>::empty()
        &&& after.spec_frontier_index() == Map::<Seq<char>, int>::empty().insert(Seq::empty(), -1)
        &&& after.spec_store() == self.spec_store()
    }

    open spec fn state_spec(&self) -> Json {
        Json::Obj(seq![
            ("heads"@, text_array(sorted_heads(self.spec_state().heads))),
            ("node_count"@, count(self.spec_nodes().dom().len())),
        ])
    }

    open spec fn has_digest_spec(&self, digest: Seq<char>) -> bool {
        self.spec_state().digests.contains(digest) || self.spec_frontier_index().dom().contains(digest)
    }

    open spec fn valid_digest_spec(&self, digest: Seq<char>) -> bool {
        self.spec_state().digests.contains(digest) || self.spec_frontier_index().dom().contains(digest)
    }

    open spec fn messages_since_ok(&self, digest: Seq<char>, out: Seq<SharedMessage>) -> bool {
        message_models(out) == dag_since(self.spec_state(), self.spec_frontier_index(), digest)
    }

    open spec fn gossip_ok(&self, digest: Option<Seq<char>>, out: Seq<SharedMessage>) -> bool {
        message_models(out) == dag_since(self.spec_state(), self.spec_frontier_index(), match digest { Some(d) => d, None => Seq::empty() })
    }

    open spec fn merkleized_spec(&self) -> bool {
        true
    }

    closed spec fn inv(&self) -> bool {
        &&& self.storage.wf()
        &&& self.state.wf()
        &&& self.nodes.wf()
        &&& self.frontier_state_index.wf()
        &&& forall|k: Seq<char>| #[trigger] self.frontier_state_index@.dom().contains(k) ==> {
            let v = self.frontier_state_index@[k];
            ||| v == Json::Num(NumModel::NegInt(-1i64))
            ||| (v matches Json::Num(NumModel::PosInt(u)) && u < self.state@.messages.len())
        }
    }

    open spec fn spec_id(&self) -> SharedObjectId {
        self.spec_id_of()
    }

    open spec fn spec_object_type(&self) -> Seq<char> {
        "DAGObject"@
    }

    /// An object payload whose `parents` are all known nodes and, when there
    /// are any, all current heads.
    open spec fn valid_for(&self, m: MessageModel) -> bool {
        let ps = parents_of_value(json_get(m.data, "parents"@));
        &&& m.data is Obj
        &&& forall|i: int| 0 <= i < ps.len() ==> self.spec_nodes().dom().contains(#[trigger] ps[i])
        &&& ps.len() > 0 ==> forall|i: int| 0 <= i < ps.len() ==> self.spec_state().heads.contains(#[trigger] ps[i])
    }

    open spec fn latest_digest_spec(&self) -> Seq<char> {
        frontier_digest(self.spec_state().heads, self.spec_version())
    }

    open spec fn state_digests_spec(&self) -> Seq<Seq<char>> {
        Seq::empty()
    }

    /// A payload with a new digest is logged and recorded as a node, and the
    /// new frontier is indexed at the last message; a known one changes
    /// nothing. Nothing is emitted.
    open spec fn applied(&self, after: &Self, m: MessageModel, frontier: Option<MementoModel>, emitted: Option<MementoModel>) -> bool {
        let d = digest_of(m.data);
        let ps = extract_parents(m.data);
        let fresh = !self.spec_state().digests.contains(d);
        &&& emitted is None
        &&& after.spec_version() == self.spec_version()
        &&& after.spec_state() == log_after(self.spec_state(), m)
        &&& after.spec_nodes() == if fresh { self.spec_nodes().insert(d, dag_node(d, ps, m.data)) } else { self.spec_nodes() }
        &&& after.spec_store() == if fresh {
            store_after_log(self.spec_store(), self.spec_state(), m).insert("dag:"@ + d, dag_node(d, ps, m.data))
        } else {
            self.spec_store()
        }
        &&& after.spec_frontier_index() == if fresh {
            self.spec_frontier_index().insert(
                frontier_digest(after.spec_state().heads, self.spec_version()),
                after.spec_state().messages.len() - 1,
            )
        } else {
            self.spec_frontier_index()
        }
    }

    fn id(&self) -> (r: SharedObjectId) {
        self.id
    }

    fn object_type(&self) -> (r: &'static str) {
        "DAGObject"
    }

    fn is_valid(&self, message: &SharedMessage) -> (r: Result<bool, ChaincraftError>)
        ensures
            r is Ok,
    {
        let data = &message.data;
        if !data.is_object() {
            return Ok(false);
        }
        let parents = normalize_parent_digests_from_value(data.get("parents"));
        let ghost ps = views_of(parents@);
        let mut i: usize = 0;
        while i < parents.len()
            invariant
                i <= parents@.len(),
                self.inv(),
                ps == views_of(parents@),
                ps == parents_of_value(json_get(message@.data, "parents"@)),
                message@.data is Obj,
                forall|j: int| 0 <= j < i ==> self.spec_nodes().dom().contains(#[trigger] ps[j]),
            decreases parents@.len() - i,
        {
            if !self.nodes.contains_key(parents[i].as_str()) {
                proof {
                    assert(!self.spec_nodes().dom().contains(ps[i as int]));
                }
                return Ok(false);
            }
            i += 1;
        }
        if parents.len() > 0 {
            let heads = self.state.head_digest_list();
            let mut j: usize = 0;
            while j < parents.len()
                invariant
                    j <= parents@.len(),
                    self.inv(),
                    ps == views_of(parents@),
                    ps == parents_of_value(json_get(message@.data, "parents"@)),
                    message@.data is Obj,
                    forall|k: int| 0 <= k < ps.len() ==> self.spec_nodes().dom().contains(#[trigger] ps[k]),
                    forall|t: Seq<char>| #[trigger] views_of(heads@).contains(t) <==> self.spec_state().heads.contains(t),
                    forall|k: int| 0 <= k < j ==> self.spec_state().heads.contains(#[trigger] ps[k]),
                decreases parents@.len() - j,
            {
                if !contains_str(&heads, parents[j].as_str()) {
                    proof {
                        assert(!self.spec_state().heads.contains(ps[j as int]));
                    }
                    return Ok(false);
                }
                j += 1;
            }
        }
        Ok(true)
    }

    fn add_message(&mut self, message: SharedMessage, frontier_state: Option<StateMemento>) -> (r: Result<Option<StateMemento>, ChaincraftError>)
        ensures
            r == Ok::<Option<StateMemento>, ChaincraftError>(None),
    {
        let data = clone_json(&message.data);
        let ghost old_index = self.frontier_state_index@;
        let (digest, fresh) = record_if_new(&mut self.state, &mut self.storage, message);
        if !fresh {
            return Ok(None);
        }
        let parents = crate::merkle_state::extract_parent_digests(&data);
        let node = obj3("data", data, "digest", json_string(digest.as_str()), "parents", texts_json(&parents));
        self.nodes.insert(copy_str(digest.as_str()), clone_json(&node));
        let key = prefixed("dag:", digest.as_str());
        self.storage.write(key.as_str(), node);
        let frontier = self.current_frontier_digest();
        let n = self.state.message_count();
        assert(n >= 1);
        self.frontier_state_index.insert(frontier, json_uint((n - 1) as u64));
        proof {
            assert(self.spec_frontier_index() =~= old(self).spec_frontier_index().insert(
                frontier_digest(self.spec_state().heads, self.spec_version()),
                self.spec_state().messages.len() - 1,
            ));
        }
        Ok(None)
    }

    fn is_merkleized(&self) -> (r: bool)
        ensures
            r,
    {
        true
    }

    fn get_latest_digest(&self) -> (r: Result<String, ChaincraftError>)
        ensures
            r is Ok,
    {
        Ok(self.current_frontier_digest())
    }

    fn has_digest(&self, digest: &str) -> (r: Result<bool, ChaincraftError>)
        ensures
            r == Ok::<bool, ChaincraftError>(
                self.spec_state().digests.contains(digest@) || self.spec_frontier_index().dom().contains(digest@),
            ),
    {
        Ok(self.state.contains_digest(digest) || self.frontier_state_index.contains_key(digest))
    }

    fn is_valid_digest(&self, digest: &str) -> (r: Result<bool, ChaincraftError>)
        ensures
            r == Ok::<bool, ChaincraftError>(
                self.spec_state().digests.contains(digest@) || self.spec_frontier_index().dom().contains(digest@),
            ),
    {
        self.has_digest(digest)
    }

    fn add_digest(&mut self, digest: String) -> (r: Result<bool, ChaincraftError>)
        ensures
            r == Ok::<bool, ChaincraftError>(!old(self).spec_state().digests.contains(digest@)),
            final(self).spec_state().digests == (if old(self).spec_state().digests.contains(digest@) {
                old(self).spec_state().digests
            } else {
                old(self).spec_state().digests.push(digest@)
            }),
            final(self).spec_state().messages == old(self).spec_state().messages,
            final(self).spec_state().heads == old(self).spec_state().heads,
            final(self).spec_nodes() == old(self).spec_nodes(),
            final(self).spec_frontier_index() == old(self).spec_frontier_index(),
    {
        Ok(self.state.add_digest(digest))
    }

    /// The messages after `digest` (all of them without one).
    fn gossip_messages(&self, digest: Option<&str>) -> (r: Result<Vec<SharedMessage>, ChaincraftError>)
        ensures
            r matches Ok(v) && message_models(v@) == dag_since(
                self.spec_state(),
                self.spec_frontier_index(),
                match digest { Some(d) => d@, None => Seq::empty() },
            ),
    {
        proof {
            reveal_strlit("");
            assert(""@ =~= Seq::<char>::empty());
        }
        match digest {
            Some(d) => self.get_messages_since_digest(d),
            None => self.get_messages_since_digest(""),
        }
    }

    fn get_messages_since_digest(&self, digest: &str) -> (r: Result<Vec<SharedMessage>, ChaincraftError>)
        ensures
            r matches Ok(v) && message_models(v@) == dag_since(self.spec_state(), self.spec_frontier_index(), digest@),
    {
        Ok(self.messages_after(digest))
    }

    fn get_state_digests(&self) -> (r: Vec<String>) {
        no_digests()
    }

    /// `{"heads": [..], "node_count": n}`.
    fn get_state(&self) -> (r: Result<JsonValue, ChaincraftError>)
        ensures
            r matches Ok(j) && j.model() == Json::Obj(seq![
                ("heads"@, text_array(sorted_heads(self.spec_state().heads))),
                ("node_count"@, count(self.spec_nodes().dom().len())),
            ]),
    {
        let heads = self.get_head_digests();
        Ok(obj2("heads", texts_json(&heads), "node_count", count_json(self.nodes.len())))
    }

    fn reset(&mut self) -> (r: Result<(), ChaincraftError>)
        ensures
            r is Ok,
            final(self).spec_state().messages.len() == 0,
            final(self).spec_state().digests.len() == 0,
            final(self).spec_nodes() == Map::<Seq<char>, Json>::empty(),
            final(self).spec_frontier_index() == Map::<Seq<char>, int>::empty().insert(Seq::empty(), -1),
            final(self).spec_store() == old(self).spec_store(),
    {
        self.state = MerkelizedState::new();
        self.nodes.clear();
        self.frontier_state_index = Self::initial_index();
        proof {
            assert(self.spec_frontier_index() =~= Map::<Seq<char>, int>::empty().insert(Seq::empty(), -1));
        }
        Ok(())
    }
}

/// The text under `key` in a payload, or else the payload's digest.
pub open spec fn key_or_digest(data: Json, key: Seq<char>) -> Seq<char> {
    match json_get_str(data, key) {
        Some(k) => k,
        None => digest_of(data),
    }
}

fn text_or_digest(data: &JsonValue, key: &str) -> (r: String)
    ensures
        r@ == key_or_digest(data.model(), key@),
{
    match data.get_str(key) {
        Some(k) => copy_str(k.as_str()),
        None => compute_digest(data),
    }
}

/// The payload as an object: itself when it is one, else the empty object.
pub open spec fn as_object(data: Json) -> Json {
    match data {
        Json::Obj(_) => data,
        _ => Json::Obj(Seq::empty()),
    }
}

fn object_or_empty(data: &JsonValue) -> (r: JsonValue)
    ensures
        r.model() == as_object(data.model()),
{
    if data.is_object() {
        clone_json(data)
    } else {
        empty_object()
    }
}

// ---------------------------------------------------------------------------
// CacheObject
// ---------------------------------------------------------------------------

/// A key/value cache: a payload sets its `value` (or itself) under its `key`
/// (or its digest); `"action": "delete"` removes the key.
pub struct CacheObject {
    id: SharedObjectId,
    storage: CoreStorage,
    cache: JsonMap,
}

impl CacheObject {
    pub closed spec fn spec_id_of(&self) -> SharedObjectId {
        self.id
    }

    pub closed spec fn spec_store(&self) -> Map<Seq<char>, Json> {
        self.storage.spec_store()
    }

    pub closed spec fn spec_cache(&self) -> Map<Seq<char>, Json> {
        self.cache@
    }

    pub fn new() -> (o: CacheObject)
        ensures
            o.inv(),
            o.spec_cache() == Map::<Seq<char>, Json>::empty(),
    {
        CacheObject { id: SharedObjectId::new(), storage: fresh_storage(), cache: JsonMap::new() }
    }

    /// The cached entries.
    pub fn cache(&self) -> (m: &JsonMap)
        requires
            self.inv(),
        ensures
            m.wf(),
            m@ == self.spec_cache(),
    {
        &self.cache
    }
}

impl ApplicationObject for CacheObject {
    open spec fn add_errs(&self, m: MessageModel, frontier: Option<MementoModel>) -> bool {
        false
    }

    open spec fn latest_digest_errs(&self) -> bool {
        false
    }

    open spec fn validation_errs(&self, m: MessageModel) -> bool {
        false
    }

    open spec fn digest_offered(&self, after: &Self, digest: Seq<char>, added: bool) -> bool {
        &&& !added
        &&& *after == *self
    }

    open spec fn reset_spec(&self, after: &Self) -> bool {
        &&& after.spec_cache() == Map::<Seq<char>, Json>::empty()
        &&& after.spec_store() == self.spec_store()
    }

    open spec fn state_spec(&self) -> Json {
        Json::Obj(seq![("cache_size"@, count(self.spec_cache().dom().len()))])
    }

    open spec fn has_digest_spec(&self, digest: Seq<char>) -> bool {
        false
    }

    open spec fn valid_digest_spec(&self, digest: Seq<char>) -> bool {
        false
    }

    open spec fn messages_since_ok(&self, digest: Seq<char>, out: Seq<SharedMessage>) -> bool {
        out.len() == 0
    }

    open spec fn gossip_ok(&self, digest: Option<Seq<char>>, out: Seq<SharedMessage>) -> bool {
        out.len() == 0
    }

    open spec fn merkleized_spec(&self) -> bool {
        false
    }

    closed spec fn inv(&self) -> bool {
        self.storage.wf() && self.cache.wf()
    }

    open spec fn spec_id(&self) -> SharedObjectId {
        self.spec_id_of()
    }

    open spec fn spec_object_type(&self) -> Seq<char> {
        "CacheObject"@
    }

    /// Any object payload.
    open spec fn valid_for(&self, m: MessageModel) -> bool {
        m.data is Obj
    }

    open spec fn latest_digest_spec(&self) -> Seq<char> {
        Seq::empty()
    }

    open spec fn state_digests_spec(&self) -> Seq<Seq<char>> {
        Seq::empty()
    }

    open spec fn applied(&self, after: &Self, m: MessageModel, frontier: Option<MementoModel>, emitted: Option<MementoModel>) -> bool {
        let key = key_or_digest(m.data, "key"@);
        let value = member_or(m.data, "value"@, m.data);
        &&& emitted is None
        &&& if json_get_str(m.data, "action"@) == Some("delete"@) {
            &&& after.spec_cache() == self.spec_cache().remove(key)
            &&& after.spec_store() == self.spec_store().remove(key)
        } else {
            &&& after.spec_cache() == self.spec_cache().insert(key, value)
            &&& after.spec_store() == self.spec_store().insert(key, value)
        }
    }

    fn id(&self) -> (r: SharedObjectId) {
        self.id
    }

    fn object_type(&self) -> (r: &'static str) {
        "CacheObject"
    }

    fn is_valid(&self, message: &SharedMessage) -> (r: Result<bool, ChaincraftError>)
        ensures
            r is Ok,
    {
        Ok(message.data.is_object())
    }

    fn add_message(&mut self, message: SharedMessage, frontier_state: Option<StateMemento>) -> (r: Result<Option<StateMemento>, ChaincraftError>)
        ensures
            r == Ok::<Option<StateMemento>, ChaincraftError>(None),
    {
        let key = text_or_digest(&message.data, "key");
        let is_delete = match message.data.get_str("action") {
            Some(a) => str_equal(a.as_str(), "delete"),
            None => false,
        };
        if is_delete {
            self.cache.remove(key.as_str());
            self.storage.delete(key.as_str());
            return Ok(None);
        }
        let value = get_or(&message.data, "value", clone_json(&message.data));
        self.cache.insert(copy_str(key.as_str()), clone_json(&value));
        self.storage.write(key.as_str(), value);
        Ok(None)
    }

    fn is_merkleized(&self) -> (r: bool)
        ensures
            !r,
    {
        false
    }

    fn get_latest_digest(&self) -> (r: Result<String, ChaincraftError>)
        ensures
            r is Ok,
    {
        Ok(String::new())
    }

    fn has_digest(&self, digest: &str) -> (r: Result<bool, ChaincraftError>)
        ensures
            r == Ok::<bool, ChaincraftError>(false),
    {
        Ok(false)
    }

    fn is_valid_digest(&self, digest: &str) -> (r: Result<bool, ChaincraftError>)
        ensures
            r == Ok::<bool, ChaincraftError>(false),
    {
        Ok(false)
    }

    fn add_digest(&mut self, digest: String) -> (r: Result<bool, ChaincraftError>)
        ensures
            r == Ok::<bool, ChaincraftError>(false),
            *final(self) == *old(self),
    {
        Ok(false)
    }

    fn gossip_messages(&self, digest: Option<&str>) -> (r: Result<Vec<SharedMessage>, ChaincraftError>)
        ensures
            r matches Ok(v) && v@.len() == 0,
    {
        Ok(empty_messages())
    }

    fn get_messages_since_digest(&self, digest: &str) -> (r: Result<Vec<SharedMessage>, ChaincraftError>)
        ensures
            r matches Ok(v) && v@.len() == 0,
    {
        Ok(empty_messages())
    }

    fn get_state_digests(&self) -> (r: Vec<String>) {
        no_digests()
    }

    /// `{"cache_size": n}`.
    fn get_state(&self) -> (r: Result<JsonValue, ChaincraftError>)
        ensures
            r matches Ok(j) && j.model() == Json::Obj(seq![("cache_size"@, count(self.spec_cache().dom().len()))]),
    {
        Ok(obj1("cache_size", count_json(self.cache.len())))
    }

    fn reset(&mut self) -> (r: Result<(), ChaincraftError>)
        ensures
            r is Ok,
            final(self).spec_cache() == Map::<Seq<char>, Json>::empty(),
            final(self).spec_store() == old(self).spec_store(),
    {
        self.cache.clear();
        Ok(())
    }
}

// ---------------------------------------------------------------------------
// Mempool
// ---------------------------------------------------------------------------

/// Pending transactions: a payload is kept (as an object) under its `tx_id`
/// (or its digest); `"action": "remove"` drops the identifier.
pub struct Mempool {
    id: SharedObjectId,
    storage: CoreStorage,
    cache: JsonMap,
    transactions: JsonMap,
}

impl Mempool {
    pub closed spec fn spec_id_of(&self) -> SharedObjectId {
        self.id
    }

    pub closed spec fn spec_store(&self) -> Map<Seq<char>, Json> {
        self.storage.spec_store()
    }

    pub closed spec fn spec_cache(&self) -> Map<Seq<char>, Json> {
        self.cache@
    }

    pub closed spec fn spec_transactions(&self) -> Map<Seq<char>, Json> {
        self.transactions@
    }

    pub fn new() -> (o: Mempool)
        ensures
            o.inv(),
            o.spec_cache() == Map::<Seq<char>, Json>::empty(),
            o.spec_transactions() == Map::<Seq<char>, Json>::empty(),
    {
        Mempool { id: SharedObjectId::new(), storage: fresh_storage(), cache: JsonMap::new(), transactions: JsonMap::new() }
    }

    /// The pending transactions by identifier.
    pub fn transactions(&self) -> (m: &JsonMap)
        requires
            self.inv(),
        ensures
            m.wf(),
            m@ == self.spec_transactions(),
    {
        &self.transactions
    }

    /// The cached transactions by identifier.
    pub fn cache(&self) -> (m: &JsonMap)
        requires
            self.inv(),
        ensures
            m.wf(),
            m@ == self.spec_cache(),
    {
        &self.cache
    }
}

impl ApplicationObject for Mempool {
    open spec fn add_errs(&self, m: MessageModel, frontier: Option<MementoModel>) -> bool {
        false
    }

    open spec fn latest_digest_errs(&self) -> bool {
        false
    }

    open spec fn validation_errs(&self, m: MessageModel) -> bool {
        false
    }

    open spec fn digest_offered(&self, after: &Self, digest: Seq<char>, added: bool) -> bool {
        &&& !added
        &&& *after == *self
    }

    open spec fn reset_spec(&self, after: &Self) -> bool {
        &&& after.spec_cache() == Map::<Seq<char>, Json>::empty()
        &&& after.spec_transactions() == Map::<Seq<char>, Json>::empty()
        &&& after.spec_store() == self.spec_store()
    }

    open spec fn state_spec(&self) -> Json {
        Json::Obj(seq![("tx_count"@, count(self.spec_transactions().dom().len()))])
    }

    open spec fn has_digest_spec(&self, digest: Seq<char>) -> bool {
        false
    }

    open spec fn valid_digest_spec(&self, digest: Seq<char>) -> bool {
        false
    }

    open spec fn messages_since_ok(&self, digest: Seq<char>, out: Seq<SharedMessage>) -> bool {
        out.len() == 0
    }

    open spec fn gossip_ok(&self, digest: Option<Seq<char>>, out: Seq<SharedMessage>) -> bool {
        out.len() == 0
    }

    open spec fn merkleized_spec(&self) -> bool {
        false
    }

    closed spec fn inv(&self) -> bool {
        self.storage.wf() && self.cache.wf() && self.transactions.wf()
    }

    open spec fn spec_id(&self) -> SharedObjectId {
        self.spec_id_of()
    }

    open spec fn spec_object_type(&self) -> Seq<char> {
        "Mempool"@
    }

    /// Any object payload.
    open spec fn valid_for(&self, m: MessageModel) -> bool {
        m.data is Obj
    }

    open spec fn latest_digest_spec(&self) -> Seq<char> {
        Seq::empty()
    }

    open spec fn state_digests_spec(&self) -> Seq<Seq<char>> {
        Seq::empty()
    }

    open spec fn applied(&self, after: &Self, m: MessageModel, frontier: Option<MementoModel>, emitted: Option<MementoModel>) -> bool {
        let id = key_or_digest(m.data, "tx_id"@);
        let tx = as_object(m.data);
        &&& emitted is None
        &&& if json_get_str(m.data, "action"@) == Some("remove"@) {
            &&& after.spec_transactions() == self.spec_transactions().remove(id)
            &&& after.spec_cache() == self.spec_cache().remove(id)
            &&& after.spec_store() == self.spec_store().remove("mempool:"@ + id)
        } else {
            &&& after.spec_transactions() == self.spec_transactions().insert(id, tx)
            &&& after.spec_cache() == self.spec_cache().insert(id, tx)
            &&& after.spec_store() == self.spec_store().insert("mempool:"@ + id, tx)
        }
    }

    fn id(&self) -> (r: SharedObjectId) {
        self.id
    }

    fn object_type(&self) -> (r: &'static str) {
        "Mempool"
    }

    fn is_valid(&self, message: &SharedMessage) -> (r: Result<bool, ChaincraftError>)
        ensures
            r is Ok,
    {
        Ok(message.data.is_object())
    }

    fn add_message(&mut self, message: SharedMessage, frontier_state: Option<StateMemento>) -> (r: Result<Option<StateMemento>, ChaincraftError>)
        ensures
            r == Ok::<Option<StateMemento>, ChaincraftError>(None),
    {
        let tx_id = text_or_digest(&message.data, "tx_id");
        let is_remove = match message.data.get_str("action") {
            Some(a) => str_equal(a.as_str(), "remove"),
            None => false,
        };
        let key = prefixed("mempool:", tx_id.as_str());
        if is_remove {
            self.transactions.remove(tx_id.as_str());
            self.cache.remove(tx_id.as_str());
            self.storage.delete(key.as_str());
            return Ok(None);
        }
        let tx = object_or_empty(&message.data);
        self.transactions.insert(copy_str(tx_id.as_str()), clone_json(&tx));
        self.cache.insert(copy_str(tx_id.as_str()), clone_json(&tx));
        self.storage.write(key.as_str(), tx);
        Ok(None)
    }

    fn is_merkleized(&self) -> (r: bool)
        ensures
            !r,
    {
        false
    }

    fn get_latest_digest(&self) -> (r: Result<String, ChaincraftError>)
        ensures
            r is Ok,
    {
        Ok(String::new())
    }

    fn has_digest(&self, digest: &str) -> (r: Result<bool, ChaincraftError>)
        ensures
            r == Ok::<bool, ChaincraftError>(false),
    {
        Ok(false)
    }

    fn is_valid_digest(&self, digest: &str) -> (r: Result<bool, ChaincraftError>)
        ensures
            r == Ok::<bool, ChaincraftError>(false),
    {
        Ok(false)
    }

    fn add_digest(&mut self, digest: String) -> (r: Result<bool, ChaincraftError>)
        ensures
            r == Ok::<bool, ChaincraftError>(false),
            *final(self) == *old(self),
    {
        Ok(false)
    }

    fn gossip_messages(&self, digest: Option<&str>) -> (r: Result<Vec<SharedMessage>, ChaincraftError>)
        ensures
            r matches Ok(v) && v@.len() == 0,
    {
        Ok(empty_messages())
    }

    fn get_messages_since_digest(&self, digest: &str) -> (r: Result<Vec<SharedMessage>, ChaincraftError>)
        ensures
            r matches Ok(v) && v@.len() == 0,
    {
        Ok(empty_messages())
    }

    fn get_state_digests(&self) -> (r: Vec<String>) {
        no_digests()
    }

    /// `{"tx_count": n}`.
    fn get_state(&self) -> (r: Result<JsonValue, ChaincraftError>)
        ensures
            r matches Ok(j) && j.model() == Json::Obj(seq![("tx_count"@, count(self.spec_transactions().dom().len()))]),
    {
        Ok(obj1("tx_count", count_json(self.transactions.len())))
    }

    fn reset(&mut self) -> (r: Result<(), ChaincraftError>)
        ensures
            r is Ok,
            final(self).spec_cache() == Map::<Seq<char>, Json>::empty(),
            final(self).spec_transactions() == Map::<Seq<char>, Json>::empty(),
            final(self).spec_store() == old(self).spec_store(),
    {
        self.cache.clear();
        self.transactions.clear();
        Ok(())
    }
}

// ---------------------------------------------------------------------------
// DocumentCache
// ---------------------------------------------------------------------------

/// The member that names a document: `doc_id`, else `document_id`, else
/// `key`, whichever is present first.
pub open spec fn doc_id_member(data: Json) -> Option<Json> {
    match json_get(data, "doc_id"@) {
        Some(v) => Some(v),
        None => match json_get(data, "document_id"@) {
            Some(v) => Some(v),
            None => json_get(data, "key"@),
        },
    }
}

/// A document's identifier: the naming member when it is a text, else the
/// payload's digest.
pub open spec fn doc_id_of(data: Json) -> Seq<char> {
    match doc_id_member(data) {
        Some(Json::Str(s)) => s,
        _ => digest_of(data),
    }
}

/// A document's content: the `document` member, else the `value` member,
/// else the payload as an object.
pub open spec fn doc_payload(data: Json) -> Json {
    match json_get(data, "document"@) {
        Some(v) => v,
        None => match json_get(data, "value"@) {
            Some(v) => v,
            None => as_object(data),
        },
    }
}

/// A document store with a cache of the same documents.
pub struct DocumentCache {
    id: SharedObjectId,
    storage: CoreStorage,
    cache: JsonMap,
    documents: JsonMap,
}

impl DocumentCache {
    pub closed spec fn spec_id_of(&self) -> SharedObjectId {
        self.id
    }

    pub closed spec fn spec_store(&self) -> Map<Seq<char>, Json> {
        self.storage.spec_store()
    }

    pub closed spec fn spec_cache(&self) -> Map<Seq<char>, Json> {
        self.cache@
    }

    pub closed spec fn spec_documents(&self) -> Map<Seq<char>, Json> {
        self.documents@
    }

    pub fn new() -> (o: DocumentCache)
        ensures
            o.inv(),
            o.spec_cache() == Map::<Seq<char>, Json>::empty(),
            o.spec_documents() == Map::<Seq<char>, Json>::empty(),
    {
        DocumentCache { id: SharedObjectId::new(), storage: fresh_storage(), cache: JsonMap::new(), documents: JsonMap::new() }
    }

    /// The documents by identifier.
    pub fn documents(&self) -> (m: &JsonMap)
        requires
            self.inv(),
        ensures
            m.wf(),
            m@ == self.spec_documents(),
    {
        &self.documents
    }

    /// The cached documents by identifier.
    pub fn cache(&self) -> (m: &JsonMap)
        requires
            self.inv(),
        ensures
            m.wf(),
            m@ == self.spec_cache(),
    {
        &self.cache
    }

    fn doc_id(data: &JsonValue) -> (r: String)
        ensures
            r@ == doc_id_of(data.model()),
    {
        let member = match data.get("doc_id") {
            Some(v) => Some(v),
            None => match data.get("document_id") {
                Some(v) => Some(v),
                None => data.get("key"),
            },
        };
        match member {
            Some(JsonValue::Str(s)) => copy_str(s.as_str()),
            _ => compute_digest(data),
        }
    }

    fn payload(data: &JsonValue) -> (r: JsonValue)
        ensures
            r.model() == doc_payload(data.model()),
    {
        match data.get("document") {
            Some(v) => clone_json(v),
            None => match data.get("value") {
                Some(v) => clone_json(v),
                None => object_or_empty(data),
            },
        }
    }
}

impl ApplicationObject for DocumentCache {
    open spec fn add_errs(&self, m: MessageModel, frontier: Option<MementoModel>) -> bool {
        false
    }

    open spec fn latest_digest_errs(&self) -> bool {
        false
    }

    open spec fn validation_errs(&self, m: MessageModel) -> bool {
        false
    }

    open spec fn digest_offered(&self, after: &Self, digest: Seq<char>, added: bool) -> bool {
        &&& !added
        &&& *after == *self
    }

    open spec fn reset_spec(&self, after: &Self) -> bool {
        &&& after.spec_cache() == Map::<Seq<char>, Json>::empty()
        &&& after.spec_documents() == Map::<Seq<char>, Json>::empty()
        &&& after.spec_store() == self.spec_store()
    }

    open spec fn state_spec(&self) -> Json {
        Json::Obj(seq![("document_count"@, count(self.spec_documents().dom().len()))])
    }

    open spec fn has_digest_spec(&self, digest: Seq<char>) -> bool {
        false
    }

    open spec fn valid_digest_spec(&self, digest: Seq<char>) -> bool {
        false
    }

    open spec fn messages_since_ok(&self, digest: Seq<char>, out: Seq<SharedMessage>) -> bool {
        out.len() == 0
    }

    open spec fn gossip_ok(&self, digest: Option<Seq<char>>, out: Seq<SharedMessage>) -> bool {
        out.len() == 0
    }

    open spec fn merkleized_spec(&self) -> bool {
        false
    }

    closed spec fn inv(&self) -> bool {
        self.storage.wf() && self.cache.wf() && self.documents.wf()
    }

    open spec fn spec_id(&self) -> SharedObjectId {
        self.spec_id_of()
    }

    open spec fn spec_object_type(&self) -> Seq<char> {
        "DocumentCache"@
    }

    /// Any object payload.
    open spec fn valid_for(&self, m: MessageModel) -> bool {
        m.data is Obj
    }

    open spec fn latest_digest_spec(&self) -> Seq<char> {
        Seq::empty()
    }

    open spec fn state_digests_spec(&self) -> Seq<Seq<char>> {
        Seq::empty()
    }

    open spec fn applied(&self, after: &Self, m: MessageModel, frontier: Option<MementoModel>, emitted: Option<MementoModel>) -> bool {
        let id = doc_id_of(m.data);
        let doc = doc_payload(m.data);
        &&& emitted is None
        &&& if json_get_str(m.data, "action"@) == Some("delete"@) {
            &&& after.spec_documents() == self.spec_documents().remove(id)
            &&& after.spec_cache() == self.spec_cache().remove(id)
            &&& after.spec_store() == self.spec_store().remove("doc:"@ + id)
        } else {
            &&& after.spec_documents() == self.spec_documents().insert(id, doc)
            &&& after.spec_cache() == self.spec_cache().insert(id, doc)
            &&& after.spec_store() == self.spec_store().insert("doc:"@ + id, doc)
        }
    }

    fn id(&self) -> (r: SharedObjectId) {
        self.id
    }

    fn object_type(&self) -> (r: &'static str) {
        "DocumentCache"
    }

    fn is_valid(&self, message: &SharedMessage) -> (r: Result<bool, ChaincraftError>)
        ensures
            r is Ok,
    {
        Ok(message.data.is_object())
    }

    fn add_message(&mut self, message: SharedMessage, frontier_state: Option<StateMemento>) -> (r: Result<Option<StateMemento>, ChaincraftError>)
        ensures
            r == Ok::<Option<StateMemento>, ChaincraftError>(None),
    {
        let doc_id = Self::doc_id(&message.data);
        let is_delete = match message.data.get_str("action") {
            Some(a) => str_equal(a.as_str(), "delete"),
            None => false,
        };
        let key = prefixed("doc:", doc_id.as_str());
        if is_delete {
            self.documents.remove(doc_id.as_str());
            self.cache.remove(doc_id.as_str());
            self.storage.delete(key.as_str());
            return Ok(None);
        }
        let payload = Self::payload(&message.data);
        self.documents.insert(copy_str(doc_id.as_str()), clone_json(&payload));
        self.cache.insert(copy_str(doc_id.as_str()), clone_json(&payload));
        self.storage.write(key.as_str(), payload);
        Ok(None)
    }

    fn is_merkleized(&self) -> (r: bool)
        ensures
            !r,
    {
        false
    }

    fn get_latest_digest(&self) -> (r: Result<String, ChaincraftError>)
        ensures
            r is Ok,
    {
        Ok(String::new())
    }

    fn has_digest(&self, digest: &str) -> (r: Result<bool, ChaincraftError>)
        ensures
            r == Ok::<bool, ChaincraftError>(false),
    {
        Ok(false)
    }

    fn is_valid_digest(&self, digest: &str) -> (r: Result<bool, ChaincraftError>)
        ensures
            r == Ok::<bool, ChaincraftError>(false),
    {
        Ok(false)
    }

    fn add_digest(&mut self, digest: String) -> (r: Result<bool, ChaincraftError>)
        ensures
            r == Ok::<bool, ChaincraftError>(false),
            *final(self) == *old(self),
    {
        Ok(false)
    }

    fn gossip_messages(&self, digest: Option<&str>) -> (r: Result<Vec<SharedMessage>, ChaincraftError>)
        ensures
            r matches Ok(v) && v@.len() == 0,
    {
        Ok(empty_messages())
    }

    fn get_messages_since_digest(&self, digest: &str) -> (r: Result<Vec<SharedMessage>, ChaincraftError>)
        ensures
            r matches Ok(v) && v@.len() == 0,
    {
        Ok(empty_messages())
    }

    fn get_state_digests(&self) -> (r: Vec<String>) {
        no_digests()
    }

    /// `{"document_count": n}`.
    fn get_state(&self) -> (r: Result<JsonValue, ChaincraftError>)
        ensures
            r matches Ok(j) && j.model() == Json::Obj(seq![("document_count"@, count(self.spec_documents().dom().len()))]),
    {
        Ok(obj1("document_count", count_json(self.documents.len())))
    }

    fn reset(&mut self) -> (r: Result<(), ChaincraftError>)
        ensures
            r is Ok,
            final(self).spec_cache() == Map::<Seq<char>, Json>::empty(),
            final(self).spec_documents() == Map::<Seq<char>, Json>::empty(),
            final(self).spec_store() == old(self).spec_store(),
    {
        self.cache.clear();
        self.documents.clear();
        Ok(())
    }
}


/// The head digests of a DAG are strictly ascending, and are exactly the
/// recorded digests that no message recorded after them names as a parent:
/// recording a message removes its parents from the heads and adds itself.
pub proof fn lemma_dag_head_digests(dag: &DAGObject)
    requires
        dag.inv(),
    ensures
        strictly_sorted(sorted_heads(dag.spec_state().heads)),
        forall|t: Seq<char>| #[trigger] sorted_heads(dag.spec_state().heads).contains(t) <==> exists|i: int|
            0 <= i < dag.spec_state().parents.len() && #[trigger] dag.spec_state().parents[i].0 == t
                && forall|j: int| i < j < dag.spec_state().parents.len() ==> !(#[trigger] dag.spec_state().parents[j].1.contains(t)),
{
    dag.state.lemma_sorted_heads_of();
    dag.state.lemma_heads();
}


/// A block that names the digest of the block appended last is accepted,
/// and no other: after a payload with a new digest `d` is added to a chain,
/// a block payload is valid exactly when its `previous_digest` is `d`.
pub proof fn lemma_blockchain_links_to_latest(
    before: Blockchain,
    after: Blockchain,
    m: MessageModel,
    frontier: Option<MementoModel>,
    emitted: Option<MementoModel>,
    next: MessageModel,
)
    requires
        before.applied(&after, m, frontier, emitted),
        !before.spec_state().digests.contains(digest_of(m.data)),
        next.data is Obj,
    ensures
        after.valid_for(next) <==> (match json_get_str(next.data, "previous_digest"@) {
            Some(p) => p,
            None => Seq::empty(),
        }) == digest_of(m.data),
{
    let d = digest_of(m.data);
    let b = Json::Obj(seq![("digest"@, Json::Str(d)), ("payload"@, m.data)]);
    assert(after.spec_blocks().last() == b);
    assert(json_get_str(b, "digest"@) == Some(d));
}

/// The first block of an empty chain must name no previous digest, or
/// `genesis`.
pub proof fn lemma_blockchain_first_block(chain: Blockchain, next: MessageModel)
    requires
        chain.spec_blocks().len() == 0,
        next.data is Obj,
    ensures
        chain.valid_for(next) <==> (json_get_str(next.data, "previous_digest"@) matches Some(p) ==> (p.len() == 0 || p == "genesis"@)),
{
}

/// Adding an output touches only its own identifier: after a new
/// `utxo_add` payload for `id`, `id` is unspent with the payload's amount
/// (when it names one) and every other output is as before.
pub proof fn lemma_utxo_add_frame(
    before: UTXOLedger,
    after: UTXOLedger,
    m: MessageModel,
    frontier: Option<MementoModel>,
    emitted: Option<MementoModel>,
    id: Seq<char>,
    k: Seq<char>,
)
    requires
        before.applied(&after, m, frontier, emitted),
        !before.spec_state().digests.contains(digest_of(m.data)),
        json_get_str(m.data, "action"@) == Some("utxo_add"@),
        json_get_str(m.data, "utxo_id"@) == Some(id),
    ensures
        after.spec_utxos().contains_key(id),
        json_get(m.data, "amount"@) matches Some(a) ==> json_get(after.spec_utxos()[id], "amount"@) == Some(a),
        json_get(m.data, "owner"@) matches Some(o) ==> json_get(after.spec_utxos()[id], "owner"@) == Some(o),
        k != id ==> (after.spec_utxos().contains_key(k) == before.spec_utxos().contains_key(k)),
        k != id && before.spec_utxos().contains_key(k) ==> after.spec_utxos()[k] == before.spec_utxos()[k],
{
    let entry = after.spec_utxos()[id];
    assert(json_get(entry, "amount"@) == Some(match json_get(m.data, "amount"@) {
        Some(v) => v,
        None => Json::Null,
    }));
    reveal_strlit("owner");
    reveal_strlit("amount");
    reveal_strlit("meta");
    assert("owner"@[0] != "amount"@[0]);
    assert("owner"@[0] != "meta"@[0]);
    let es = seq![
        ("amount"@, member_or(m.data, "amount"@, Json::Null)),
        ("meta"@, member_or(m.data, "meta"@, Json::Obj(Seq::empty()))),
        ("owner"@, member_or(m.data, "owner"@, Json::Null)),
    ];
    assert(entry == Json::Obj(es));
    assert(es.drop_first()[0].0 == "meta"@);
    assert(es.drop_first().drop_first() =~= seq![("owner"@, member_or(m.data, "owner"@, Json::Null))]);
    assert(lookup(es.drop_first().drop_first(), "owner"@) == Some(member_or(m.data, "owner"@, Json::Null)));
    assert(lookup(es.drop_first(), "owner"@) == lookup(es.drop_first().drop_first(), "owner"@));
    assert(lookup(es, "owner"@) == lookup(es.drop_first(), "owner"@));
    assert(json_get(entry, "owner"@) == Some(match json_get(m.data, "owner"@) {
        Some(v) => v,
        None => Json::Null,
    }));
}

/// Spending an output removes it and nothing else: after a new
/// `utxo_spend` payload for `id`, `id` is no longer unspent and every other
/// output is as before.
pub proof fn lemma_utxo_spend_frame(
    before: UTXOLedger,
    after: UTXOLedger,
    m: MessageModel,
    frontier: Option<MementoModel>,
    emitted: Option<MementoModel>,
    id: Seq<char>,
    k: Seq<char>,
)
    requires
        before.applied(&after, m, frontier, emitted),
        !before.spec_state().digests.contains(digest_of(m.data)),
        json_get_str(m.data, "action"@) == Some("utxo_spend"@),
        json_get_str(m.data, "utxo_id"@) == Some(id),
    ensures
        !after.spec_utxos().contains_key(id),
        k != id ==> (after.spec_utxos().contains_key(k) == before.spec_utxos().contains_key(k)),
        k != id && before.spec_utxos().contains_key(k) ==> after.spec_utxos()[k] == before.spec_utxos()[k],
{
    reveal_strlit("utxo_add");
    reveal_strlit("utxo_spend");
    assert("utxo_spend"@[5] != "utxo_add"@[5]);
}

/// Every text listed in a `parents` array, other than the empty text and
/// `genesis`, is among the parents read from it.
proof fn lemma_listed_parent_read(items: Seq<Json>, i: int, p: Seq<char>)
    requires
        0 <= i < items.len(),
        items[i] == Json::Str(p),
        p.len() > 0,
        p != "genesis"@,
    ensures
        normalize_parents(items).contains(p),
    decreases items.len(),
{
    let r = normalize_parents(items.drop_last());
    if i == items.len() - 1 {
        if !r.contains(p) {
            assert(normalize_parents(items) == r.push(p));
            assert(r.push(p)[r.len() as int] == p);
        }
    } else {
        assert(items.drop_last()[i] == items[i]);
        lemma_listed_parent_read(items.drop_last(), i, p);
        let k = choose|k: int| 0 <= k < r.len() && r[k] == p;
        match items.last() {
            Json::Str(q) => {
                if q.len() > 0 && q != "genesis"@ && !r.contains(q) {
                    assert(r.push(q)[k] == p);
                }
            },
            _ => {},
        }
    }
}

/// A DAG node is accepted only when every parent it names is a current
/// head: if a payload is valid, each non-empty, non-`genesis` text in its
/// `parents` array is a head.
pub proof fn lemma_dag_parents_are_heads(dag: DAGObject, m: MessageModel, items: Seq<Json>, i: int, p: Seq<char>)
    requires
        dag.valid_for(m),
        json_get(m.data, "parents"@) == Some(Json::Arr(items)),
        0 <= i < items.len(),
        items[i] == Json::Str(p),
        p.len() > 0,
        p != "genesis"@,
    ensures
        dag.spec_state().heads.contains(p),
{
    lemma_listed_parent_read(items, i, p);
    let ps = normalize_parents(items);
    assert(ps == parents_of_value(json_get(m.data, "parents"@)));
    let k = choose|k: int| 0 <= k < ps.len() && ps[k] == p;
    assert(ps.len() > 0);
    assert(dag.spec_state().heads.contains(ps[k]));
}

/// A document is stored as its `document` member: after a payload that
/// names `id` as its `doc_id` and carries a `document`, and is not a
/// deletion, the documents hold that member under `id`, and the other
/// documents are as before.
pub proof fn lemma_document_stored(
    before: DocumentCache,
    after: DocumentCache,
    m: MessageModel,
    frontier: Option<MementoModel>,
    emitted: Option<MementoModel>,
    id: Seq<char>,
    doc: Json,
    k: Seq<char>,
)
    requires
        before.applied(&after, m, frontier, emitted),
        json_get(m.data, "doc_id"@) == Some(Json::Str(id)),
        json_get(m.data, "document"@) == Some(doc),
        json_get_str(m.data, "action"@) != Some("delete"@),
    ensures
        after.spec_documents().contains_key(id),
        after.spec_documents()[id] == doc,
        k != id ==> (after.spec_documents().contains_key(k) == before.spec_documents().contains_key(k)),
        k != id && before.spec_documents().contains_key(k) ==> after.spec_documents()[k] == before.spec_documents()[k],
{
}


/// A cache entry is set by key and deleted by key, touching no other key:
/// a payload naming `key` stores its `value` member (the payload itself
/// without one) under `key`, and a `delete` payload removes `key`.
pub proof fn lemma_cache_entry_by_key(
    before: CacheObject,
    after: CacheObject,
    m: MessageModel,
    frontier: Option<MementoModel>,
    emitted: Option<MementoModel>,
    key: Seq<char>,
    k: Seq<char>,
)
    requires
        before.applied(&after, m, frontier, emitted),
        json_get_str(m.data, "key"@) == Some(key),
    ensures
        json_get_str(m.data, "action"@) == Some("delete"@) ==> !after.spec_cache().contains_key(key),
        json_get_str(m.data, "action"@) != Some("delete"@) ==> {
            &&& after.spec_cache().contains_key(key)
            &&& after.spec_cache()[key] == match json_get(m.data, "value"@) {
                Some(v) => v,
                None => m.data,
            }
        },
        k != key ==> (after.spec_cache().contains_key(k) == before.spec_cache().contains_key(k)),
        k != key && before.spec_cache().contains_key(k) ==> after.spec_cache()[k] == before.spec_cache()[k],
{
}

/// A transaction enters the mempool under its `tx_id` as sent and leaves it
/// on `remove`, touching no other transaction.
pub proof fn lemma_mempool_by_id(
    before: Mempool,
    after: Mempool,
    m: MessageModel,
    frontier: Option<MementoModel>,
    emitted: Option<MementoModel>,
    id: Seq<char>,
    k: Seq<char>,
)
    requires
        before.applied(&after, m, frontier, emitted),
        json_get_str(m.data, "tx_id"@) == Some(id),
    ensures
        json_get_str(m.data, "action"@) == Some("remove"@) ==> !after.spec_transactions().contains_key(id),
        json_get_str(m.data, "action"@) != Some("remove"@) ==> {
            &&& after.spec_transactions().contains_key(id)
            &&& after.spec_transactions()[id] == m.data
        },
        k != id ==> (after.spec_transactions().contains_key(k) == before.spec_transactions().contains_key(k)),
        k != id && before.spec_transactions().contains_key(k) ==> after.spec_transactions()[k] == before.spec_transactions()[k],
{
}

/// A `delete` payload naming `id` as its `doc_id` removes that document and
/// no other.
pub proof fn lemma_document_deleted(
    before: DocumentCache,
    after: DocumentCache,
    m: MessageModel,
    frontier: Option<MementoModel>,
    emitted: Option<MementoModel>,
    id: Seq<char>,
    k: Seq<char>,
)
    requires
        before.applied(&after, m, frontier, emitted),
        json_get(m.data, "doc_id"@) == Some(Json::Str(id)),
        json_get_str(m.data, "action"@) == Some("delete"@),
    ensures
        !after.spec_documents().contains_key(id),
        k != id ==> (after.spec_documents().contains_key(k) == before.spec_documents().contains_key(k)),
        k != id && before.spec_documents().contains_key(k) ==> after.spec_documents()[k] == before.spec_documents()[k],
{
}


/// Transactions are kept in arrival order: a payload with a new digest
/// adds one transaction at the end, carrying the payload, and leaves the
/// earlier ones as they were; a payload seen before changes nothing.
pub proof fn lemma_transactions_in_order(
    before: TransactionChain,
    after: TransactionChain,
    m: MessageModel,
    frontier: Option<MementoModel>,
    emitted: Option<MementoModel>,
)
    requires
        before.applied(&after, m, frontier, emitted),
    ensures
        !before.spec_state().digests.contains(digest_of(m.data)) ==> {
            &&& after.spec_transactions().len() == before.spec_transactions().len() + 1
            &&& after.spec_transactions().take(before.spec_transactions().len() as int) == before.spec_transactions()
            &&& json_get(after.spec_transactions().last(), "payload"@) == Some(m.data)
        },
        before.spec_state().digests.contains(digest_of(m.data)) ==> after.spec_transactions() == before.spec_transactions(),
{
    if !before.spec_state().digests.contains(digest_of(m.data)) {
        assert(after.spec_transactions().take(before.spec_transactions().len() as int) =~= before.spec_transactions());
    }
}

/// Blocks are kept in arrival order: a payload with a new digest adds one
/// block at the end, carrying the payload, and leaves the earlier ones as
/// they were; a payload seen before changes nothing.
pub proof fn lemma_blocks_in_order(
    before: Blockchain,
    after: Blockchain,
    m: MessageModel,
    frontier: Option<MementoModel>,
    emitted: Option<MementoModel>,
)
    requires
        before.applied(&after, m, frontier, emitted),
    ensures
        !before.spec_state().digests.contains(digest_of(m.data)) ==> {
            &&& after.spec_blocks().len() == before.spec_blocks().len() + 1
            &&& after.spec_blocks().take(before.spec_blocks().len() as int) == before.spec_blocks()
            &&& json_get_str(after.spec_blocks().last(), "digest"@) == Some(digest_of(m.data))
        },
        before.spec_state().digests.contains(digest_of(m.data)) ==> after.spec_blocks() == before.spec_blocks(),
{
    if !before.spec_state().digests.contains(digest_of(m.data)) {
        assert(after.spec_blocks().take(before.spec_blocks().len() as int) =~= before.spec_blocks());
    }
}

} // verus!
