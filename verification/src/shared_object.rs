//! Application objects: the protocol logic that a node runs every message
//! through, and the registry that runs the validation-then-apply pipeline.

use vstd::prelude::*;
use crate::error::ChaincraftError;
use crate::hashing::{sha256_hex, sha256_hex_of};
use crate::json::{
    JsonValue, Json, NumModel, json_as_i64, json_str, json_text, int_text, to_json_text,
    clone_json, int_to_string, json_string, json_object, json_uint, json_int, entry_models_of,
    lemma_entry_models_of,
};
use crate::shared::{MessageType, MessageKind, MessageModel, SharedMessage, SharedObjectId, current_timestamp};
use crate::state_memento::{StateMemento, MementoModel, normalize_state_memento, is_normal_frontier};
use crate::text::{
    copy_str, contains_str, index_of_str, str_equal, views_of, has_view, first_index_of,
};

verus! {

broadcast use vstd::string::group_string_axioms;

/// The model of an optional snapshot.
pub open spec fn opt_model(o: Option<StateMemento>) -> Option<MementoModel> {
    match o {
        Some(m) => Some(m@),
        None => None,
    }
}

/// Whether `m` is the normalized snapshot of an object whose latest digest is
/// `latest` and whose frontier digests are `frontier`.
pub open spec fn is_memento_for(latest: Seq<char>, frontier: Seq<Seq<char>>, m: MementoModel) -> bool {
    &&& m.canonical == latest
    &&& is_normal_frontier(latest, frontier, m.frontier)
    &&& m.revision == 0
    &&& m.metadata.len() == 0
}

/// The hashes of a sequence of messages.
pub open spec fn hashes_of(msgs: Seq<SharedMessage>) -> Seq<Seq<char>> {
    Seq::new(msgs.len(), |i: int| msgs[i].hash@)
}

/// The protocol contract of an object that a node runs messages through.
pub trait ApplicationObject: Sized {
    /// The object's internal invariant, which every operation keeps.
    spec fn inv(&self) -> bool;

    /// The object's identifier; it never changes.
    spec fn spec_id(&self) -> SharedObjectId;

    /// The object's type name.
    spec fn spec_object_type(&self) -> Seq<char>;

    /// Whether the object accepts `m`.
    spec fn valid_for(&self, m: MessageModel) -> bool;

    /// The object's latest state digest.
    spec fn latest_digest_spec(&self) -> Seq<char>;

    /// The frontier digests of the object (heads of multi-head structures).
    spec fn state_digests_spec(&self) -> Seq<Seq<char>>;

    /// Whether adding `m`, with `frontier` handed in, takes the object from
    /// `self` to `after` and emits `emitted`.
    spec fn applied(
        &self,
        after: &Self,
        m: MessageModel,
        frontier: Option<MementoModel>,
        emitted: Option<MementoModel>,
    ) -> bool;

    fn id(&self) -> (r: SharedObjectId)
        requires
            self.inv(),
        ensures
            r == self.spec_id(),
    ;

    fn object_type(&self) -> (r: &'static str)
        requires
            self.inv(),
        ensures
            r@ == self.spec_object_type(),
    ;

    /// Whether validating `m` fails with an error (rather than answering).
    spec fn validation_errs(&self, m: MessageModel) -> bool;

    /// Validates `message` against the object; side-effect free.
    fn is_valid(&self, message: &SharedMessage) -> (r: Result<bool, ChaincraftError>)
        requires
            self.inv(),
        ensures
            r is Err <==> self.validation_errs(message@),
            r matches Ok(b) ==> b == self.valid_for(message@),
    ;

    /// Adds a validated message, with the snapshot emitted upstream in the
    /// pipeline, and optionally emits a new snapshot.
    /// Whether adding `m`, with `frontier` handed in, fails with an error.
    spec fn add_errs(&self, m: MessageModel, frontier: Option<MementoModel>) -> bool;

    fn add_message(&mut self, message: SharedMessage, frontier_state: Option<StateMemento>) -> (r: Result<Option<StateMemento>, ChaincraftError>)
        requires
            old(self).inv(),
        ensures
            final(self).inv(),
            final(self).spec_id() == old(self).spec_id(),
            final(self).spec_object_type() == old(self).spec_object_type(),
            r is Err <==> old(self).add_errs(message@, opt_model(frontier_state)),
            r matches Ok(e) ==> old(self).applied(&*final(self), message@, opt_model(frontier_state), opt_model(e)),
    ;

    /// Whether the object supports digest-based synchronization.
    spec fn merkleized_spec(&self) -> bool;

    /// Whether the object supports digest-based synchronization.
    fn is_merkleized(&self) -> (r: bool)
        requires
            self.inv(),
        ensures
            r == self.merkleized_spec(),
    ;

    /// Whether asking for the latest digest fails with an error.
    spec fn latest_digest_errs(&self) -> bool;

    fn get_latest_digest(&self) -> (r: Result<String, ChaincraftError>)
        requires
            self.inv(),
        ensures
            r is Err <==> self.latest_digest_errs(),
            r matches Ok(d) ==> d@ == self.latest_digest_spec(),
    ;

    /// Whether the object knows `digest`.
    spec fn has_digest_spec(&self, digest: Seq<char>) -> bool;

    /// Whether the object accepts `digest` as a digest of its state.
    spec fn valid_digest_spec(&self, digest: Seq<char>) -> bool;

    /// Whether `out` is what the object hands out after `digest`.
    spec fn messages_since_ok(&self, digest: Seq<char>, out: Seq<SharedMessage>) -> bool;

    /// Whether `out` is what the object gossips for `digest`.
    spec fn gossip_ok(&self, digest: Option<Seq<char>>, out: Seq<SharedMessage>) -> bool;

    fn has_digest(&self, digest: &str) -> (r: Result<bool, ChaincraftError>)
        requires
            self.inv(),
        ensures
            r matches Ok(b) ==> b == self.has_digest_spec(digest@),
    ;

    fn is_valid_digest(&self, digest: &str) -> (r: Result<bool, ChaincraftError>)
        requires
            self.inv(),
        ensures
            r matches Ok(b) ==> b == self.valid_digest_spec(digest@),
    ;

    /// Whether offering `digest` takes the object from `self` to `after`
    /// and answers `added`.
    spec fn digest_offered(&self, after: &Self, digest: Seq<char>, added: bool) -> bool;

    fn add_digest(&mut self, digest: String) -> (r: Result<bool, ChaincraftError>)
        requires
            old(self).inv(),
        ensures
            final(self).inv(),
            final(self).spec_id() == old(self).spec_id(),
            final(self).spec_object_type() == old(self).spec_object_type(),
            r matches Ok(b) ==> old(self).digest_offered(&*final(self), digest@, b),
    ;

    fn gossip_messages(&self, digest: Option<&str>) -> (r: Result<Vec<SharedMessage>, ChaincraftError>)
        requires
            self.inv(),
        ensures
            r matches Ok(v) ==> self.gossip_ok(
                match digest {
                    Some(d) => Some(d@),
                    None => None,
                },
                v@,
            ),
    ;

    fn get_messages_since_digest(&self, digest: &str) -> (r: Result<Vec<SharedMessage>, ChaincraftError>)
        requires
            self.inv(),
        ensures
            r matches Ok(v) ==> self.messages_since_ok(digest@, v@),
    ;

    fn get_state_digests(&self) -> (r: Vec<String>)
        requires
            self.inv(),
        ensures
            views_of(r@) == self.state_digests_spec(),
    ;

    /// The normalized snapshot of the object's latest digest and frontier.
    fn emit_state_memento(&self) -> (r: Result<StateMemento, ChaincraftError>)
        requires
            self.inv(),
        ensures
            r is Err <==> self.latest_digest_errs(),
            r matches Ok(m) ==> is_memento_for(self.latest_digest_spec(), self.state_digests_spec(), m@),
    {
        let latest = match self.get_latest_digest() {
            Ok(d) => d,
            Err(e) => {
                return Err(e);
            },
        };
        let frontier = self.get_state_digests();
        Ok(normalize_state_memento(latest.as_str(), Some(frontier)))
    }

    /// The object's state as JSON.
    spec fn state_spec(&self) -> Json;

    fn get_state(&self) -> (r: Result<JsonValue, ChaincraftError>)
        requires
            self.inv(),
        ensures
            r matches Ok(j) ==> j.model() == self.state_spec(),
    ;

    /// Whether resetting takes the object from `self` to `after`.
    spec fn reset_spec(&self, after: &Self) -> bool;

    fn reset(&mut self) -> (r: Result<(), ChaincraftError>)
        requires
            old(self).inv(),
        ensures
            final(self).inv(),
            final(self).spec_id() == old(self).spec_id(),
            final(self).spec_object_type() == old(self).spec_object_type(),
            r is Ok ==> old(self).reset_spec(&*final(self)),
    ;
}

// ---------------------------------------------------------------------------
// SimpleSharedNumber
// ---------------------------------------------------------------------------

/// The dedup hash of a number message: lowercase hex SHA-256 of the compact
/// text of `{"content": data}`.
pub open spec fn number_content_hash(data: Json) -> Seq<char> {
    sha256_hex_of(json_text(Json::Obj(seq![("content"@, data)])))
}

/// Whether adding a payload `data` to a number at `number` that has seen
/// the payload hashes `seen` overflows: the payload is new and its integer
/// value takes the sum out of the range of `i64`.
pub open spec fn number_overflows(seen: Seq<Seq<char>>, number: i64, data: Json) -> bool {
    &&& !seen.contains(number_content_hash(data))
    &&& match json_as_i64(data) {
        Some(v) => !(i64::MIN <= number + v <= i64::MAX),
        None => false,
    }
}

/// A shared integer that sums the integers it receives, each distinct
/// payload once.
pub struct SimpleSharedNumber {
    id: SharedObjectId,
    number: i64,
    created_at: i64,
    updated_at: i64,
    locked: bool,
    messages: Vec<SharedMessage>,
    seen_hashes: Vec<String>,
    digests: Vec<String>,
}

impl SimpleSharedNumber {
    pub closed spec fn spec_number(&self) -> i64 {
        self.number
    }

    pub closed spec fn spec_messages(&self) -> Seq<Seq<char>> {
        hashes_of(self.messages@)
    }

    pub closed spec fn spec_seen(&self) -> Seq<Seq<char>> {
        views_of(self.seen_hashes@)
    }

    pub closed spec fn spec_digests(&self) -> Seq<Seq<char>> {
        views_of(self.digests@)
    }

    pub closed spec fn spec_id_of(&self) -> SharedObjectId {
        self.id
    }

    /// A number at 0 with nothing received.
    pub fn new() -> (s: SimpleSharedNumber)
        ensures
            s.spec_number() == 0,
            s.spec_messages().len() == 0,
            s.spec_seen().len() == 0,
            s.spec_digests().len() == 0,
    {
        let now = current_timestamp();
        let s = SimpleSharedNumber {
            id: SharedObjectId::new(),
            number: 0,
            created_at: now,
            updated_at: now,
            locked: false,
            messages: Vec::new(),
            seen_hashes: Vec::new(),
            digests: Vec::new(),
        };
        proof {
            assert(hashes_of(s.messages@) =~= Seq::<Seq<char>>::empty());
            assert(views_of(s.seen_hashes@) =~= Seq::<Seq<char>>::empty());
            assert(views_of(s.digests@) =~= Seq::<Seq<char>>::empty());
        }
        s
    }

    pub fn get_number(&self) -> (n: i64)
        ensures
            n == self.spec_number(),
    {
        self.number
    }

    pub fn get_messages(&self) -> (m: &[SharedMessage])
        ensures
            hashes_of(m@) == self.spec_messages(),
    {
        self.messages.as_slice()
    }

    fn calculate_message_hash(data: &JsonValue) -> (h: String)
        ensures
            h@ == number_content_hash(data.model()),
    {
        let mut entries: Vec<(String, JsonValue)> = Vec::new();
        entries.push((copy_str("content"), clone_json(data)));
        let wrapped = json_object(entries);
        proof {
            lemma_entry_models_of(entries@);
            assert(entry_models_of(entries@) =~= seq![("content"@, data.model())]);
        }
        let text = to_json_text(&wrapped);
        sha256_hex(text.as_str())
    }
}

impl ApplicationObject for SimpleSharedNumber {
    open spec fn add_errs(&self, m: MessageModel, frontier: Option<MementoModel>) -> bool {
        number_overflows(self.spec_seen(), self.spec_number(), m.data)
    }

    open spec fn latest_digest_errs(&self) -> bool {
        false
    }

    open spec fn validation_errs(&self, m: MessageModel) -> bool {
        false
    }

    open spec fn digest_offered(&self, after: &Self, digest: Seq<char>, added: bool) -> bool {
        &&& added
        &&& after.spec_digests() == self.spec_digests().push(digest)
        &&& after.spec_number() == self.spec_number()
        &&& after.spec_seen() == self.spec_seen()
        &&& after.spec_messages() == self.spec_messages()
    }

    open spec fn reset_spec(&self, after: &Self) -> bool {
        &&& after.spec_number() == 0
        &&& after.spec_messages().len() == 0
        &&& after.spec_seen().len() == 0
        &&& after.spec_digests().len() == 0
    }

    open spec fn state_spec(&self) -> Json {
        Json::Obj(seq![
            ("message_count"@, Json::Num(NumModel::PosInt(self.spec_messages().len() as u64))),
            ("number"@, if self.spec_number() >= 0 { Json::Num(NumModel::PosInt(self.spec_number() as u64)) } else { Json::Num(NumModel::NegInt(self.spec_number())) }),
            ("seen_hashes_count"@, Json::Num(NumModel::PosInt(self.spec_seen().len() as u64))),
        ])
    }

    open spec fn has_digest_spec(&self, digest: Seq<char>) -> bool {
        self.spec_digests().contains(digest)
    }

    open spec fn valid_digest_spec(&self, digest: Seq<char>) -> bool {
        true
    }

    open spec fn messages_since_ok(&self, digest: Seq<char>, out: Seq<SharedMessage>) -> bool {
        out.len() == 0
    }

    open spec fn gossip_ok(&self, digest: Option<Seq<char>>, out: Seq<SharedMessage>) -> bool {
        out.len() == 0
    }

    open spec fn merkleized_spec(&self) -> bool {
        false
    }

    open spec fn inv(&self) -> bool {
        true
    }

    open spec fn spec_id(&self) -> SharedObjectId {
        self.spec_id_of()
    }

    open spec fn spec_object_type(&self) -> Seq<char> {
        "SimpleSharedNumber"@
    }

    open spec fn valid_for(&self, m: MessageModel) -> bool {
        json_as_i64(m.data) is Some
    }

    open spec fn latest_digest_spec(&self) -> Seq<char> {
        int_text(self.spec_number() as int)
    }

    open spec fn state_digests_spec(&self) -> Seq<Seq<char>> {
        seq![int_text(self.spec_number() as int)]
    }

    /// A payload seen before changes nothing and emits nothing; a new one is
    /// recorded, its integer value (if any) is added to the number and the
    /// message kept, and the object's snapshot is emitted.
    open spec fn applied(
        &self,
        after: &Self,
        m: MessageModel,
        frontier: Option<MementoModel>,
        emitted: Option<MementoModel>,
    ) -> bool {
        let h = number_content_hash(m.data);
        if self.spec_seen().contains(h) {
            &&& after.spec_number() == self.spec_number()
            &&& after.spec_messages() == self.spec_messages()
            &&& after.spec_seen() == self.spec_seen()
            &&& after.spec_digests() == self.spec_digests()
            &&& emitted is None
        } else {
            &&& after.spec_seen() == self.spec_seen().push(h)
            &&& after.spec_digests() == self.spec_digests()
            &&& match json_as_i64(m.data) {
                Some(v) => after.spec_number() == self.spec_number() + v
                    && after.spec_messages() == self.spec_messages().push(m.hash),
                None => after.spec_number() == self.spec_number()
                    && after.spec_messages() == self.spec_messages(),
            }
            &&& emitted matches Some(e) && is_memento_for(after.latest_digest_spec(), after.state_digests_spec(), e)
        }
    }

    fn id(&self) -> (r: SharedObjectId) {
        self.id
    }

    fn object_type(&self) -> (r: &'static str) {
        "SimpleSharedNumber"
    }

    fn is_valid(&self, message: &SharedMessage) -> (r: Result<bool, ChaincraftError>)
        ensures
            r == Ok::<bool, ChaincraftError>(json_as_i64(message@.data) is Some),
    {
        Ok(message.data.as_i64().is_some())
    }

    /// Fails with a validation error, changing nothing, when the sum would
    /// leave the range of `i64`.
    fn add_message(&mut self, message: SharedMessage, frontier_state: Option<StateMemento>) -> (r: Result<Option<StateMemento>, ChaincraftError>)
        ensures
            r is Err <==> number_overflows(old(self).spec_seen(), old(self).spec_number(), message@.data),
            r is Err ==> {
                &&& r matches Err(ChaincraftError::Validation(msg)) && msg@ == "number overflow"@
                &&& final(self).spec_number() == old(self).spec_number()
                &&& final(self).spec_messages() == old(self).spec_messages()
                &&& final(self).spec_seen() == old(self).spec_seen()
                &&& final(self).spec_digests() == old(self).spec_digests()
            },
    {
        let msg_hash = Self::calculate_message_hash(&message.data);
        if contains_str(&self.seen_hashes, msg_hash.as_str()) {
            return Ok(None);
        }
        let value = message.data.as_i64();
        let new_number = match value {
            Some(v) => match self.number.checked_add(v) {
                Some(n) => n,
                None => {
                    return Err(ChaincraftError::validation("number overflow"));
                },
            },
            None => self.number,
        };
        let ghost old_self = *self;
        self.seen_hashes.push(msg_hash);
        self.number = new_number;
        if value.is_some() {
            self.messages.push(message);
        }
        proof {
            assert(views_of(self.seen_hashes@) =~= views_of(old_self.seen_hashes@).push(msg_hash@));
            assert(hashes_of(self.messages@) =~= (if value.is_some() { hashes_of(old_self.messages@).push(message.hash@) } else { hashes_of(old_self.messages@) }));
        }
        let latest = int_to_string(self.number);
        let frontier = self.get_state_digests();
        Ok(Some(normalize_state_memento(latest.as_str(), Some(frontier))))
    }

    fn is_merkleized(&self) -> bool {
        false
    }

    fn get_latest_digest(&self) -> (r: Result<String, ChaincraftError>)
        ensures
            r is Ok,
    {
        Ok(int_to_string(self.number))
    }

    fn has_digest(&self, digest: &str) -> (r: Result<bool, ChaincraftError>)
        ensures
            r == Ok::<bool, ChaincraftError>(self.spec_digests().contains(digest@)),
    {
        Ok(contains_str(&self.digests, digest))
    }

    fn is_valid_digest(&self, digest: &str) -> (r: Result<bool, ChaincraftError>)
        ensures
            r == Ok::<bool, ChaincraftError>(true),
    {
        Ok(true)
    }

    fn add_digest(&mut self, digest: String) -> (r: Result<bool, ChaincraftError>)
        ensures
            r == Ok::<bool, ChaincraftError>(true),
            final(self).spec_digests() == old(self).spec_digests().push(digest@),
            final(self).spec_number() == old(self).spec_number(),
            final(self).spec_seen() == old(self).spec_seen(),
            final(self).spec_messages() == old(self).spec_messages(),
    {
        let ghost d = digest@;
        self.digests.push(digest);
        proof {
            assert(views_of(self.digests@) =~= views_of(old(self).digests@).push(d));
        }
        Ok(true)
    }

    fn gossip_messages(&self, digest: Option<&str>) -> (r: Result<Vec<SharedMessage>, ChaincraftError>)
        ensures
            r matches Ok(v) && v@.len() == 0,
    {
        Ok(Vec::new())
    }

    fn get_messages_since_digest(&self, digest: &str) -> (r: Result<Vec<SharedMessage>, ChaincraftError>)
        ensures
            r matches Ok(v) && v@.len() == 0,
    {
        Ok(Vec::new())
    }

    fn get_state_digests(&self) -> (r: Vec<String>) {
        let mut v: Vec<String> = Vec::new();
        v.push(int_to_string(self.number));
        proof {
            assert(views_of(v@) =~= seq![int_text(self.number as int)]);
        }
        v
    }

    /// `{"message_count": .., "number": .., "seen_hashes_count": ..}`.
    fn get_state(&self) -> (r: Result<JsonValue, ChaincraftError>)
        ensures
            r matches Ok(j) && j.model() == Json::Obj(seq![
                ("message_count"@, Json::Num(NumModel::PosInt(self.spec_messages().len() as u64))),
                ("number"@, if self.spec_number() >= 0 { Json::Num(NumModel::PosInt(self.spec_number() as u64)) } else { Json::Num(NumModel::NegInt(self.spec_number())) }),
                ("seen_hashes_count"@, Json::Num(NumModel::PosInt(self.spec_seen().len() as u64))),
            ]),
    {
        let mut entries: Vec<(String, JsonValue)> = Vec::new();
        entries.push((copy_str("message_count"), json_uint(self.messages.len() as u64)));
        entries.push((copy_str("number"), json_int(self.number)));
        entries.push((copy_str("seen_hashes_count"), json_uint(self.seen_hashes.len() as u64)));
        proof {
            lemma_entry_models_of(entries@);
        }
        let j = json_object(entries);
        proof {
            assert(entry_models_of(entries@) =~= seq![
                ("message_count"@, Json::Num(NumModel::PosInt(self.spec_messages().len() as u64))),
                ("number"@, if self.spec_number() >= 0 { Json::Num(NumModel::PosInt(self.spec_number() as u64)) } else { Json::Num(NumModel::NegInt(self.spec_number())) }),
                ("seen_hashes_count"@, Json::Num(NumModel::PosInt(self.spec_seen().len() as u64))),
            ]);
        }
        Ok(j)
    }

    fn reset(&mut self) -> (r: Result<(), ChaincraftError>)
        ensures
            r is Ok,
            final(self).spec_number() == 0,
            final(self).spec_messages().len() == 0,
            final(self).spec_seen().len() == 0,
            final(self).spec_digests().len() == 0,
    {
        self.number = 0;
        self.messages.clear();
        self.seen_hashes.clear();
        self.digests.clear();
        proof {
            assert(hashes_of(self.messages@) =~= Seq::<Seq<char>>::empty());
            assert(views_of(self.seen_hashes@) =~= Seq::<Seq<char>>::empty());
            assert(views_of(self.digests@) =~= Seq::<Seq<char>>::empty());
        }
        Ok(())
    }
}

// ---------------------------------------------------------------------------
// MerkelizedChain
// ---------------------------------------------------------------------------

/// The genesis hash of every chain: the SHA-256 hex digest of `genesis`.
pub open spec fn genesis_digest() -> Seq<char> {
    sha256_hex_of("genesis"@)
}

/// Whether `h` is the hash of some element of `chain`.
pub open spec fn follows_some(chain: Seq<Seq<char>>, h: Seq<char>) -> bool {
    exists|j: int| 0 <= j < chain.len() && sha256_hex_of(#[trigger] chain[j]) == h
}

/// A well-formed hash chain: it starts at the genesis hash, and every later
/// element is the hash of an element before it.
pub open spec fn chain_wf(chain: Seq<Seq<char>>) -> bool {
    &&& chain.len() >= 1
    &&& chain[0] == genesis_digest()
    &&& forall|k: int| 1 <= k < chain.len() ==> follows_some(chain.take(k), #[trigger] chain[k])
}

/// The chain after offering `h` to it: `h` is appended when it is new and
/// follows some element; otherwise the chain is unchanged.
pub open spec fn chain_after_offer(chain: Seq<Seq<char>>, h: Seq<char>) -> Seq<Seq<char>> {
    if !chain.contains(h) && follows_some(chain, h) {
        chain.push(h)
    } else {
        chain
    }
}

/// `m` is a fresh `chain_update` message carrying `h`.
pub open spec fn is_chain_update(m: SharedMessage, h: Seq<char>) -> bool {
    &&& m.message_type@ == MessageKind::Custom("chain_update"@)
    &&& m.data.model() == Json::Str(h)
    &&& m.target_id is None
    &&& m.hash@ == m.content_hash()
}

/// `v` holds one `chain_update` message for each element of `chain` from
/// position `start` on, in order.
pub open spec fn chain_updates_from(v: Seq<SharedMessage>, chain: Seq<Seq<char>>, start: int) -> bool {
    &&& v.len() == chain.len() - start
    &&& forall|k: int| 0 <= k < v.len() ==> is_chain_update(#[trigger] v[k], chain[start + k])
}

/// Where gossip starts in `chain`: after the genesis without a digest, after
/// the first occurrence of a known digest, and at the end for an unknown one.
pub open spec fn chain_gossip_start(chain: Seq<Seq<char>>, digest: Option<Seq<char>>) -> int {
    match digest {
        None => 1,
        Some(d) => if chain.contains(d) {
            first_index_of(chain, d) + 1
        } else {
            chain.len() as int
        },
    }
}

/// Every entry is 64 characters long, as a SHA-256 hex digest is.
pub open spec fn entries_hex64(chain: Seq<Seq<char>>) -> bool {
    forall|k: int| 0 <= k < chain.len() ==> (#[trigger] chain[k]).len() == 64
}

pub proof fn lemma_chain_wf_push(chain: Seq<Seq<char>>, h: Seq<char>)
    requires
        chain_wf(chain),
        follows_some(chain, h),
    ensures
        chain_wf(chain.push(h)),
{
    let c2 = chain.push(h);
    assert(c2.take(chain.len() as int) =~= chain);
    assert forall|k: int| 1 <= k < c2.len() implies follows_some(c2.take(k), #[trigger] c2[k]) by {
        if k < chain.len() {
            assert(c2.take(k) =~= chain.take(k));
            assert(follows_some(chain.take(k), chain[k]));
        }
    }
}

/// An append-only chain of SHA-256 hashes, each derived from an earlier one,
/// starting at the genesis hash; supports digest-based synchronization.
pub struct MerkelizedChain {
    id: SharedObjectId,
    chain: Vec<String>,
    messages: Vec<SharedMessage>,
    created_at: i64,
}

impl MerkelizedChain {
    /// The chain of hashes, genesis first.
    pub closed spec fn spec_chain(&self) -> Seq<Seq<char>> {
        views_of(self.chain@)
    }

    pub closed spec fn spec_id_of(&self) -> SharedObjectId {
        self.id
    }

    pub closed spec fn wf(&self) -> bool {
        &&& chain_wf(self.spec_chain())
        &&& self.messages@.len() == self.chain@.len()
        &&& entries_hex64(self.spec_chain())
    }

    /// Every entry of a well-formed chain is a 64-character hash.
    pub proof fn lemma_entries_hex64(&self)
        requires
            self.wf(),
        ensures
            entries_hex64(self.spec_chain()),
    {
    }

    fn genesis_message() -> (m: SharedMessage)
        ensures
            m.message_type@ == MessageKind::Custom("genesis"@),
            m.data.model() == Json::Str("genesis"@),
    {
        SharedMessage::new(MessageType::Custom(copy_str("genesis")), json_string("genesis"))
    }

    fn chain_update_message(hash: &str) -> (m: SharedMessage)
        ensures
            is_chain_update(m, hash@),
    {
        SharedMessage::new(MessageType::Custom(copy_str("chain_update")), json_string(hash))
    }

    /// A chain holding only the genesis hash.
    pub fn new() -> (c: MerkelizedChain)
        ensures
            c.wf(),
            c.spec_chain() == seq![genesis_digest()],
    {
        let genesis = Self::calculate_hash("genesis");
        let mut chain: Vec<String> = Vec::new();
        chain.push(genesis);
        let mut messages: Vec<SharedMessage> = Vec::new();
        messages.push(Self::genesis_message());
        let c = MerkelizedChain { id: SharedObjectId::new(), chain, messages, created_at: current_timestamp() };
        proof {
            assert(views_of(c.chain@) =~= seq![genesis_digest()]);
        }
        c
    }

    /// The SHA-256 hex digest of `data`.
    pub fn calculate_hash(data: &str) -> (h: String)
        ensures
            h@ == sha256_hex_of(data@),
            h@.len() == 64,
    {
        sha256_hex(data)
    }

    /// The hash that follows `prev_hash`.
    pub fn calculate_next_hash(prev_hash: &str) -> (h: String)
        ensures
            h@ == sha256_hex_of(prev_hash@),
            h@.len() == 64,
    {
        Self::calculate_hash(prev_hash)
    }

    /// The number of hashes, genesis included.
    pub fn chain_length(&self) -> (n: usize)
        ensures
            n == self.spec_chain().len(),
    {
        self.chain.len()
    }

    pub fn genesis_hash(&self) -> (h: &str)
        requires
            self.wf(),
        ensures
            h@ == self.spec_chain()[0],
            h@ == genesis_digest(),
    {
        self.chain[0].as_str()
    }

    /// The tip of the chain.
    pub fn latest_hash(&self) -> (h: &str)
        requires
            self.wf(),
        ensures
            h@ == self.spec_chain().last(),
    {
        self.chain[self.chain.len() - 1].as_str()
    }

    pub fn hash_at(&self, index: usize) -> (h: Option<&str>)
        ensures
            match h {
                Some(s) => index < self.spec_chain().len() && s@ == self.spec_chain()[index as int],
                None => index >= self.spec_chain().len(),
            },
    {
        if index < self.chain.len() {
            Some(self.chain[index].as_str())
        } else {
            None
        }
    }

    /// Whether `hash` is the hash of the tip.
    pub fn is_valid_next_hash(&self, hash: &str) -> (r: bool)
        requires
            self.wf(),
        ensures
            r == (hash@ == sha256_hex_of(self.spec_chain().last())),
    {
        let expected = Self::calculate_next_hash(self.latest_hash());
        str_equal(hash, expected.as_str())
    }

    fn push_entry(&mut self, hash: &str)
        requires
            old(self).wf(),
            follows_some(old(self).spec_chain(), hash@),
            hash@.len() == 64,
        ensures
            final(self).wf(),
            final(self).spec_chain() == old(self).spec_chain().push(hash@),
            final(self).id == old(self).id,
    {
        proof {
            lemma_chain_wf_push(self.spec_chain(), hash@);
        }
        let ghost before = self.spec_chain();
        self.chain.push(copy_str(hash));
        self.messages.push(Self::chain_update_message(hash));
        proof {
            assert(views_of(self.chain@) =~= before.push(hash@));
        }
    }

    /// Appends the hash of the tip and returns it.
    pub fn add_next_hash(&mut self) -> (h: String)
        requires
            old(self).wf(),
        ensures
            final(self).wf(),
            h@ == sha256_hex_of(old(self).spec_chain().last()),
            final(self).spec_chain() == old(self).spec_chain().push(h@),
            final(self).spec_id_of() == old(self).spec_id_of(),
    {
        let next = Self::calculate_next_hash(self.latest_hash());
        proof {
            let c = self.spec_chain();
            assert(sha256_hex_of(c[c.len() - 1]) == next@);
        }
        self.push_entry(next.as_str());
        next
    }

    /// The first position whose hash is `hash`.
    fn find_parent(&self, hash: &str) -> (r: Option<usize>)
        ensures
            match r {
                Some(j) => j < self.spec_chain().len() && sha256_hex_of(self.spec_chain()[j as int]) == hash@
                    && hash@.len() == 64,
                None => !follows_some(self.spec_chain(), hash@),
            },
    {
        let mut i: usize = 0;
        while i < self.chain.len()
            invariant
                i <= self.chain@.len(),
                forall|j: int| 0 <= j < i ==> sha256_hex_of(#[trigger] self.spec_chain()[j]) != hash@,
            decreases self.chain@.len() - i,
        {
            let expected = Self::calculate_next_hash(self.chain[i].as_str());
            if str_equal(hash, expected.as_str()) {
                return Some(i);
            }
            i += 1;
        }
        None
    }

    /// Offers `hash` (received from a peer): it is appended when it is new
    /// and is the hash of some element; returns whether it was appended.
    pub fn try_add_hash(&mut self, hash: &str) -> (added: bool)
        requires
            old(self).wf(),
        ensures
            final(self).wf(),
            added == (!old(self).spec_chain().contains(hash@) && follows_some(old(self).spec_chain(), hash@)),
            hash@.len() != 64 ==> !added,
            final(self).spec_chain() == chain_after_offer(old(self).spec_chain(), hash@),
            final(self).spec_id_of() == old(self).spec_id_of(),
    {
        if contains_str(&self.chain, hash) {
            return false;
        }
        match self.find_parent(hash) {
            Some(j) => {
                proof {
                    assert(follows_some(self.spec_chain(), hash@));
                }
                self.push_entry(hash);
                true
            },
            None => false,
        }
    }

    /// The hashes, genesis first.
    pub fn chain(&self) -> (c: &[String])
        ensures
            views_of(c@) == self.spec_chain(),
    {
        self.chain.as_slice()
    }

    /// The first position of `hash` in the chain.
    pub fn find_hash_index(&self, hash: &str) -> (r: Option<usize>)
        ensures
            match r {
                Some(i) => i == first_index_of(self.spec_chain(), hash@) && i < self.spec_chain().len()
                    && self.spec_chain().contains(hash@),
                None => !self.spec_chain().contains(hash@),
            },
    {
        let r = index_of_str(&self.chain, hash);
        proof {
            if let Some(i) = r {
                assert(self.spec_chain()[i as int] == hash@);
            }
        }
        r
    }

    fn updates_from(&self, start: usize) -> (v: Vec<SharedMessage>)
        requires
            start <= self.spec_chain().len(),
        ensures
            chain_updates_from(v@, self.spec_chain(), start as int),
    {
        let mut v: Vec<SharedMessage> = Vec::new();
        let mut i: usize = start;
        while i < self.chain.len()
            invariant
                start <= i <= self.chain@.len(),
                chain_updates_from(v@, self.spec_chain().take(i as int), start as int),
            decreases self.chain@.len() - i,
        {
            let m = Self::chain_update_message(self.chain[i].as_str());
            let ghost before = v@;
            v.push(m);
            proof {
                assert forall|k: int| 0 <= k < v@.len() implies is_chain_update(#[trigger] v@[k], self.spec_chain().take(i + 1)[start + k]) by {
                    if k < before.len() {
                        assert(before[k] == v@[k]);
                        assert(self.spec_chain().take(i as int)[start + k] == self.spec_chain().take(i + 1)[start + k]);
                    }
                }
            }
            i += 1;
        }
        proof {
            assert(self.spec_chain().take(i as int) =~= self.spec_chain());
        }
        v
    }
}

impl ApplicationObject for MerkelizedChain {
    open spec fn add_errs(&self, m: MessageModel, frontier: Option<MementoModel>) -> bool {
        false
    }

    open spec fn latest_digest_errs(&self) -> bool {
        false
    }

    open spec fn validation_errs(&self, m: MessageModel) -> bool {
        false
    }

    open spec fn digest_offered(&self, after: &Self, digest: Seq<char>, added: bool) -> bool {
        &&& added == (!self.spec_chain().contains(digest) && follows_some(self.spec_chain(), digest))
        &&& after.spec_chain() == chain_after_offer(self.spec_chain(), digest)
    }

    open spec fn reset_spec(&self, after: &Self) -> bool {
        &&& after.spec_chain() == seq![genesis_digest()]
    }

    open spec fn state_spec(&self) -> Json {
        Json::Obj(seq![
            ("chain_length"@, Json::Num(NumModel::PosInt(self.spec_chain().len() as u64))),
            ("genesis_hash"@, Json::Str(self.spec_chain()[0])),
            ("latest_hash"@, Json::Str(self.spec_chain().last())),
        ])
    }

    open spec fn has_digest_spec(&self, digest: Seq<char>) -> bool {
        self.spec_chain().contains(digest)
    }

    open spec fn valid_digest_spec(&self, digest: Seq<char>) -> bool {
        self.spec_chain().contains(digest) || digest == sha256_hex_of(self.spec_chain().last())
    }

    open spec fn messages_since_ok(&self, digest: Seq<char>, out: Seq<SharedMessage>) -> bool {
        chain_updates_from(out, self.spec_chain(), chain_gossip_start(self.spec_chain(), Some(digest)))
    }

    open spec fn gossip_ok(&self, digest: Option<Seq<char>>, out: Seq<SharedMessage>) -> bool {
        chain_updates_from(out, self.spec_chain(), chain_gossip_start(self.spec_chain(), digest))
    }

    open spec fn merkleized_spec(&self) -> bool {
        true
    }

    open spec fn inv(&self) -> bool {
        self.wf()
    }

    open spec fn spec_id(&self) -> SharedObjectId {
        self.spec_id_of()
    }

    open spec fn spec_object_type(&self) -> Seq<char> {
        "MerkelizedChain"@
    }

    /// A text payload is accepted when it is already in the chain or is the
    /// hash of some element.
    open spec fn valid_for(&self, m: MessageModel) -> bool {
        match json_str(m.data) {
            Some(h) => self.spec_chain().contains(h) || follows_some(self.spec_chain(), h),
            None => false,
        }
    }

    open spec fn latest_digest_spec(&self) -> Seq<char> {
        self.spec_chain().last()
    }

    open spec fn state_digests_spec(&self) -> Seq<Seq<char>> {
        Seq::empty()
    }

    /// A text payload is offered to the chain; nothing is emitted.
    open spec fn applied(
        &self,
        after: &Self,
        m: MessageModel,
        frontier: Option<MementoModel>,
        emitted: Option<MementoModel>,
    ) -> bool {
        &&& emitted is None
        &&& after.spec_chain() == match json_str(m.data) {
            Some(h) => chain_after_offer(self.spec_chain(), h),
            None => self.spec_chain(),
        }
    }

    fn id(&self) -> (r: SharedObjectId) {
        self.id
    }

    fn object_type(&self) -> (r: &'static str) {
        "MerkelizedChain"
    }

    /// A candidate that is not a 64-character text is rejected.
    fn is_valid(&self, message: &SharedMessage) -> (r: Result<bool, ChaincraftError>)
        ensures
            r is Ok,
            (json_str(message@.data) matches Some(h) && h.len() != 64) ==> r == Ok::<bool, ChaincraftError>(false),
    {
        let hash = match message.data.as_str() {
            Some(h) => h,
            None => {
                return Ok(false);
            },
        };
        if contains_str(&self.chain, hash.as_str()) {
            proof {
                let k = choose|k: int| 0 <= k < self.spec_chain().len() && self.spec_chain()[k] == hash@;
                assert(self.spec_chain()[k].len() == 64);
            }
            return Ok(true);
        }
        match self.find_parent(hash.as_str()) {
            Some(j) => {
                proof {
                    assert(follows_some(self.spec_chain(), hash@));
                }
                Ok(true)
            },
            None => Ok(false),
        }
    }

    fn add_message(&mut self, message: SharedMessage, frontier_state: Option<StateMemento>) -> (r: Result<Option<StateMemento>, ChaincraftError>)
        ensures
            r == Ok::<Option<StateMemento>, ChaincraftError>(None),
    {
        let hash = match message.data.as_str() {
            Some(h) => h,
            None => {
                return Ok(None);
            },
        };
        if contains_str(&self.chain, hash.as_str()) {
            return Ok(None);
        }
        self.try_add_hash(hash.as_str());
        Ok(None)
    }

    fn is_merkleized(&self) -> (r: bool)
        ensures
            r,
    {
        true
    }

    fn get_latest_digest(&self) -> (r: Result<String, ChaincraftError>)
        ensures
            r is Ok,
    {
        Ok(copy_str(self.latest_hash()))
    }

    fn has_digest(&self, digest: &str) -> (r: Result<bool, ChaincraftError>)
        ensures
            r == Ok::<bool, ChaincraftError>(self.spec_chain().contains(digest@)),
    {
        Ok(contains_str(&self.chain, digest))
    }

    fn is_valid_digest(&self, digest: &str) -> (r: Result<bool, ChaincraftError>)
        ensures
            r == Ok::<bool, ChaincraftError>(
                self.spec_chain().contains(digest@) || digest@ == sha256_hex_of(self.spec_chain().last()),
            ),
    {
        Ok(contains_str(&self.chain, digest) || self.is_valid_next_hash(digest))
    }

    fn add_digest(&mut self, digest: String) -> (r: Result<bool, ChaincraftError>)
        ensures
            r == Ok::<bool, ChaincraftError>(
                !old(self).spec_chain().contains(digest@) && follows_some(old(self).spec_chain(), digest@),
            ),
            final(self).spec_chain() == chain_after_offer(old(self).spec_chain(), digest@),
    {
        Ok(self.try_add_hash(digest.as_str()))
    }

    /// Fresh `chain_update` messages for the hashes after `digest` (after the
    /// genesis when there is none; none at all for an unknown digest).
    fn gossip_messages(&self, digest: Option<&str>) -> (r: Result<Vec<SharedMessage>, ChaincraftError>)
        ensures
            r matches Ok(v) && chain_updates_from(
                v@,
                self.spec_chain(),
                chain_gossip_start(self.spec_chain(), match digest { Some(d) => Some(d@), None => None }),
            ),
    {
        let n = self.chain.len();
        let start: usize = match digest {
            Some(hash) => match self.find_hash_index(hash) {
                Some(idx) => {
                    assert(idx < n);
                    idx + 1
                },
                None => self.chain.len(),
            },
            None => 1,
        };
        Ok(self.updates_from(start))
    }

    fn get_messages_since_digest(&self, digest: &str) -> (r: Result<Vec<SharedMessage>, ChaincraftError>)
        ensures
            r matches Ok(v) && chain_updates_from(
                v@,
                self.spec_chain(),
                chain_gossip_start(self.spec_chain(), Some(digest@)),
            ),
    {
        self.gossip_messages(Some(digest))
    }

    fn get_state_digests(&self) -> (r: Vec<String>) {
        let v: Vec<String> = Vec::new();
        proof {
            assert(views_of(v@) =~= Seq::<Seq<char>>::empty());
        }
        v
    }

    /// `{"chain_length": .., "genesis_hash": .., "latest_hash": ..}`.
    #[verifier::rlimit(40)]
    fn get_state(&self) -> (r: Result<JsonValue, ChaincraftError>)
        ensures
            r matches Ok(j) && j.model() == Json::Obj(seq![
                ("chain_length"@, Json::Num(NumModel::PosInt(self.spec_chain().len() as u64))),
                ("genesis_hash"@, Json::Str(self.spec_chain()[0])),
                ("latest_hash"@, Json::Str(self.spec_chain().last())),
            ]),
    {
        let mut entries: Vec<(String, JsonValue)> = Vec::new();
        entries.push((copy_str("chain_length"), json_uint(self.chain.len() as u64)));
        entries.push((copy_str("genesis_hash"), json_string(self.genesis_hash())));
        entries.push((copy_str("latest_hash"), json_string(self.latest_hash())));
        proof {
            lemma_entry_models_of(entries@);
        }
        let j = json_object(entries);
        proof {
            assert(entry_models_of(entries@) =~= seq![
                ("chain_length"@, Json::Num(NumModel::PosInt(self.spec_chain().len() as u64))),
                ("genesis_hash"@, Json::Str(self.spec_chain()[0])),
                ("latest_hash"@, Json::Str(self.spec_chain().last())),
            ]);
        }
        Ok(j)
    }

    fn reset(&mut self) -> (r: Result<(), ChaincraftError>)
        ensures
            r is Ok,
            final(self).spec_chain() == seq![genesis_digest()],
    {
        let genesis = Self::calculate_hash("genesis");
        let mut chain: Vec<String> = Vec::new();
        chain.push(genesis);
        let mut messages: Vec<SharedMessage> = Vec::new();
        messages.push(Self::genesis_message());
        self.chain = chain;
        self.messages = messages;
        proof {
            assert(views_of(self.chain@) =~= seq![genesis_digest()]);
        }
        Ok(())
    }
}

// ---------------------------------------------------------------------------
// MessageChain
// ---------------------------------------------------------------------------

/// The models of a sequence of messages.
pub open spec fn message_models(msgs: Seq<SharedMessage>) -> Seq<MessageModel> {
    Seq::new(msgs.len(), |i: int| msgs[i]@)
}

/// The hashes in a sequence of message models.
pub open spec fn model_hashes(log: Seq<MessageModel>) -> Seq<Seq<char>> {
    Seq::new(log.len(), |i: int| log[i].hash)
}

/// Where gossip starts in a message log: after the first message whose hash
/// is `digest`, and at the start for no digest, for `genesis` and for an
/// unknown digest.
pub open spec fn log_gossip_start(log: Seq<MessageModel>, digest: Option<Seq<char>>) -> int {
    match digest {
        Some(d) => if d != "genesis"@ {
            first_index_of(model_hashes(log), d) + 1
        } else {
            0
        },
        None => 0,
    }
}

/// An append-only ordered log of messages, one per distinct message hash,
/// with digest-based synchronization.
pub struct MessageChain {
    id: SharedObjectId,
    messages: Vec<SharedMessage>,
    seen_hashes: Vec<String>,
    digests: Vec<String>,
}

impl MessageChain {
    /// The messages in the order they were added.
    pub closed spec fn spec_log(&self) -> Seq<MessageModel> {
        message_models(self.messages@)
    }

    pub closed spec fn spec_digests(&self) -> Seq<Seq<char>> {
        views_of(self.digests@)
    }

    pub closed spec fn spec_id_of(&self) -> SharedObjectId {
        self.id
    }

    pub closed spec fn wf(&self) -> bool {
        views_of(self.seen_hashes@) == model_hashes(self.spec_log())
    }

    /// An empty log.
    pub fn new() -> (c: MessageChain)
        ensures
            c.wf(),
            c.spec_log().len() == 0,
            c.spec_digests().len() == 0,
    {
        let c = MessageChain {
            id: SharedObjectId::new(),
            messages: Vec::new(),
            seen_hashes: Vec::new(),
            digests: Vec::new(),
        };
        proof {
            assert(views_of(c.seen_hashes@) =~= model_hashes(c.spec_log()));
            assert(views_of(c.digests@) =~= Seq::<Seq<char>>::empty());
        }
        c
    }

    pub fn len(&self) -> (n: usize)
        ensures
            n == self.spec_log().len(),
    {
        self.messages.len()
    }

    pub fn is_empty(&self) -> (b: bool)
        ensures
            b == (self.spec_log().len() == 0),
    {
        self.messages.len() == 0
    }

    pub fn messages(&self) -> (m: &[SharedMessage])
        ensures
            message_models(m@) == self.spec_log(),
    {
        self.messages.as_slice()
    }

    fn copies_from(&self, start: usize) -> (v: Vec<SharedMessage>)
        requires
            start <= self.spec_log().len(),
        ensures
            message_models(v@) == self.spec_log().subrange(start as int, self.spec_log().len() as int),
    {
        let mut v: Vec<SharedMessage> = Vec::new();
        let mut i: usize = start;
        while i < self.messages.len()
            invariant
                start <= i <= self.messages@.len(),
                message_models(v@) == self.spec_log().subrange(start as int, i as int),
            decreases self.messages@.len() - i,
        {
            let m = self.messages[i].copy();
            let ghost before = v@;
            v.push(m);
            proof {
                assert(message_models(v@) =~= message_models(before).push(self.messages@[i as int]@));
                assert(self.spec_log().subrange(start as int, i + 1) =~= self.spec_log().subrange(start as int, i as int).push(self.spec_log()[i as int]));
            }
            i += 1;
        }
        v
    }
}

impl ApplicationObject for MessageChain {
    open spec fn add_errs(&self, m: MessageModel, frontier: Option<MementoModel>) -> bool {
        false
    }

    open spec fn latest_digest_errs(&self) -> bool {
        false
    }

    open spec fn validation_errs(&self, m: MessageModel) -> bool {
        false
    }

    open spec fn digest_offered(&self, after: &Self, digest: Seq<char>, added: bool) -> bool {
        &&& !added
        &&& *after == *self
    }

    open spec fn reset_spec(&self, after: &Self) -> bool {
        &&& after.spec_log().len() == 0
        &&& after.spec_digests().len() == 0
    }

    open spec fn state_spec(&self) -> Json {
        Json::Obj(seq![
            ("length"@, Json::Num(NumModel::PosInt(self.spec_log().len() as u64))),
            ("message_count"@, Json::Num(NumModel::PosInt(self.spec_log().len() as u64))),
        ])
    }

    open spec fn has_digest_spec(&self, digest: Seq<char>) -> bool {
        self.spec_digests().contains(digest) || model_hashes(self.spec_log()).contains(digest)
    }

    open spec fn valid_digest_spec(&self, digest: Seq<char>) -> bool {
        self.spec_digests().contains(digest) || model_hashes(self.spec_log()).contains(digest) || digest == "genesis"@
    }

    open spec fn messages_since_ok(&self, digest: Seq<char>, out: Seq<SharedMessage>) -> bool {
        message_models(out) == self.spec_log().subrange(log_gossip_start(self.spec_log(), Some(digest)), self.spec_log().len() as int)
    }

    open spec fn gossip_ok(&self, digest: Option<Seq<char>>, out: Seq<SharedMessage>) -> bool {
        message_models(out) == self.spec_log().subrange(log_gossip_start(self.spec_log(), digest), self.spec_log().len() as int)
    }

    open spec fn merkleized_spec(&self) -> bool {
        true
    }

    open spec fn inv(&self) -> bool {
        self.wf()
    }

    open spec fn spec_id(&self) -> SharedObjectId {
        self.spec_id_of()
    }

    open spec fn spec_object_type(&self) -> Seq<char> {
        "MessageChain"@
    }

    /// Any message with a non-null payload is accepted.
    open spec fn valid_for(&self, m: MessageModel) -> bool {
        !(m.data is Null)
    }

    /// The hash of the last message, or `genesis` for an empty log.
    open spec fn latest_digest_spec(&self) -> Seq<char> {
        if self.spec_log().len() == 0 {
            "genesis"@
        } else {
            self.spec_log().last().hash
        }
    }

    open spec fn state_digests_spec(&self) -> Seq<Seq<char>> {
        Seq::empty()
    }

    /// A message whose hash is new is appended; nothing is emitted.
    open spec fn applied(
        &self,
        after: &Self,
        m: MessageModel,
        frontier: Option<MementoModel>,
        emitted: Option<MementoModel>,
    ) -> bool {
        &&& emitted is None
        &&& after.spec_digests() == self.spec_digests()
        &&& after.spec_log() == if model_hashes(self.spec_log()).contains(m.hash) {
            self.spec_log()
        } else {
            self.spec_log().push(m)
        }
    }

    fn id(&self) -> (r: SharedObjectId) {
        self.id
    }

    fn object_type(&self) -> (r: &'static str) {
        "MessageChain"
    }

    fn is_valid(&self, message: &SharedMessage) -> (r: Result<bool, ChaincraftError>)
        ensures
            r is Ok,
    {
        Ok(!message.data.is_null())
    }

    fn add_message(&mut self, message: SharedMessage, frontier_state: Option<StateMemento>) -> (r: Result<Option<StateMemento>, ChaincraftError>)
        ensures
            r == Ok::<Option<StateMemento>, ChaincraftError>(None),
    {
        if contains_str(&self.seen_hashes, message.hash.as_str()) {
            return Ok(None);
        }
        let ghost old_log = self.spec_log();
        let ghost old_seen = views_of(self.seen_hashes@);
        let ghost m = message@;
        self.seen_hashes.push(copy_str(message.hash.as_str()));
        self.messages.push(message);
        proof {
            assert(self.spec_log() =~= old_log.push(m));
            assert(views_of(self.seen_hashes@) =~= old_seen.push(m.hash));
            assert(model_hashes(old_log.push(m)) =~= model_hashes(old_log).push(m.hash));
            assert(views_of(self.seen_hashes@) =~= model_hashes(self.spec_log()));
            assert(self.spec_digests() =~= views_of(old(self).digests@));
        }
        Ok(None)
    }

    fn is_merkleized(&self) -> (r: bool)
        ensures
            r,
    {
        true
    }

    fn get_latest_digest(&self) -> (r: Result<String, ChaincraftError>)
        ensures
            r is Ok,
    {
        let n = self.messages.len();
        if n == 0 {
            Ok(copy_str("genesis"))
        } else {
            Ok(copy_str(self.messages[n - 1].hash.as_str()))
        }
    }

    fn has_digest(&self, digest: &str) -> (r: Result<bool, ChaincraftError>)
        ensures
            r == Ok::<bool, ChaincraftError>(
                self.spec_digests().contains(digest@) || model_hashes(self.spec_log()).contains(digest@),
            ),
    {
        Ok(contains_str(&self.digests, digest) || contains_str(&self.seen_hashes, digest))
    }

    fn is_valid_digest(&self, digest: &str) -> (r: Result<bool, ChaincraftError>)
        ensures
            r == Ok::<bool, ChaincraftError>(
                self.spec_digests().contains(digest@) || model_hashes(self.spec_log()).contains(digest@)
                    || digest@ == "genesis"@,
            ),
    {
        let known = match self.has_digest(digest) {
            Ok(b) => b,
            Err(e) => {
                return Err(e);
            },
        };
        Ok(known || str_equal(digest, "genesis") || contains_str(&self.seen_hashes, digest))
    }

    fn add_digest(&mut self, digest: String) -> (r: Result<bool, ChaincraftError>)
        ensures
            r == Ok::<bool, ChaincraftError>(false),
            *final(self) == *old(self),
    {
        Ok(false)
    }

    /// Copies of the messages after the first one whose hash is `digest`
    /// (all of them for no digest, `genesis` or an unknown digest).
    fn gossip_messages(&self, digest: Option<&str>) -> (r: Result<Vec<SharedMessage>, ChaincraftError>)
        ensures
            r matches Ok(v) && message_models(v@) == self.spec_log().subrange(
                log_gossip_start(self.spec_log(), match digest { Some(d) => Some(d@), None => None }),
                self.spec_log().len() as int,
            ),
    {
        let n = self.seen_hashes.len();
        let start: usize = match digest {
            Some(d) => {
                if str_equal(d, "genesis") {
                    0
                } else {
                    match index_of_str(&self.seen_hashes, d) {
                        Some(i) => {
                            assert(i < n);
                            i + 1
                        },
                        None => 0,
                    }
                }
            },
            None => 0,
        };
        Ok(self.copies_from(start))
    }

    fn get_messages_since_digest(&self, digest: &str) -> (r: Result<Vec<SharedMessage>, ChaincraftError>)
        ensures
            r matches Ok(v) && message_models(v@) == self.spec_log().subrange(
                log_gossip_start(self.spec_log(), Some(digest@)),
                self.spec_log().len() as int,
            ),
    {
        self.gossip_messages(Some(digest))
    }

    fn get_state_digests(&self) -> (r: Vec<String>) {
        let v: Vec<String> = Vec::new();
        proof {
            assert(views_of(v@) =~= Seq::<Seq<char>>::empty());
        }
        v
    }

    /// `{"length": n, "message_count": n}` for a log of `n` messages.
    fn get_state(&self) -> (r: Result<JsonValue, ChaincraftError>)
        ensures
            r matches Ok(j) && j.model() == Json::Obj(seq![
                ("length"@, Json::Num(NumModel::PosInt(self.spec_log().len() as u64))),
                ("message_count"@, Json::Num(NumModel::PosInt(self.spec_log().len() as u64))),
            ]),
    {
        let mut entries: Vec<(String, JsonValue)> = Vec::new();
        entries.push((copy_str("length"), json_uint(self.messages.len() as u64)));
        entries.push((copy_str("message_count"), json_uint(self.messages.len() as u64)));
        proof {
            lemma_entry_models_of(entries@);
        }
        let j = json_object(entries);
        proof {
            assert(entry_models_of(entries@) =~= seq![
                ("length"@, Json::Num(NumModel::PosInt(self.spec_log().len() as u64))),
                ("message_count"@, Json::Num(NumModel::PosInt(self.spec_log().len() as u64))),
            ]);
        }
        Ok(j)
    }

    fn reset(&mut self) -> (r: Result<(), ChaincraftError>)
        ensures
            r is Ok,
            final(self).spec_log().len() == 0,
            final(self).spec_digests().len() == 0,
    {
        self.messages.clear();
        self.seen_hashes.clear();
        self.digests.clear();
        proof {
            assert(views_of(self.seen_hashes@) =~= model_hashes(self.spec_log()));
            assert(views_of(self.digests@) =~= Seq::<Seq<char>>::empty());
        }
        Ok(())
    }
}

// ---------------------------------------------------------------------------
// ApplicationObjectRegistry
// ---------------------------------------------------------------------------

/// The identifiers of a sequence of objects.
pub open spec fn ids_of<T: ApplicationObject>(objs: Seq<T>) -> Seq<SharedObjectId> {
    Seq::new(objs.len(), |i: int| objs[i].spec_id())
}

/// No two objects share an identifier.
pub open spec fn ids_distinct<T: ApplicationObject>(objs: Seq<T>) -> bool {
    forall|i: int, j: int|
        0 <= i < objs.len() && 0 <= j < objs.len() && i != j ==> #[trigger] objs[i].spec_id() != #[trigger] objs[j].spec_id()
}

/// Some object has identifier `id`.
pub open spec fn has_id<T: ApplicationObject>(objs: Seq<T>, id: SharedObjectId) -> bool {
    exists|i: int| 0 <= i < objs.len() && #[trigger] objs[i].spec_id() == id
}

/// What the pipeline hands to the next object: the snapshot an object
/// emitted, or else that object's own normalized snapshot.
pub open spec fn hands_on<T: ApplicationObject>(after: T, emitted: Option<MementoModel>, next: Option<MementoModel>) -> bool {
    match emitted {
        Some(e) => next == Some(e),
        None => next matches Some(x) && is_memento_for(after.latest_digest_spec(), after.state_digests_spec(), x),
    }
}

/// The first `upto` objects took message `m` in order, going from `before`
/// to `after`: the first was handed no snapshot, and each later one was
/// handed what `hands_on` gives for the one before it.
pub open spec fn pipeline_run<T: ApplicationObject>(
    before: Seq<T>,
    after: Seq<T>,
    m: MessageModel,
    handed: Seq<Option<MementoModel>>,
    emitted: Seq<Option<MementoModel>>,
    upto: int,
) -> bool {
    &&& 0 <= upto <= before.len()
    &&& after.len() == before.len()
    &&& handed.len() == upto
    &&& emitted.len() == upto
    &&& (upto > 0 ==> handed[0] is None)
    &&& forall|k: int| 0 <= k < upto ==> #[trigger] before[k].applied(&after[k], m, handed[k], emitted[k])
    &&& forall|k: int| 0 <= k < upto - 1 ==> hands_on(after[k], emitted[k], #[trigger] handed[k + 1])
}

/// Object `k` is the first that does not accept `m`, and it answers (rather
/// than failing) that it rejects it.
pub open spec fn rejected_at<T: ApplicationObject>(objs: Seq<T>, m: MessageModel, k: int) -> bool {
    &&& 0 <= k < objs.len()
    &&& !objs[k].validation_errs(m)
    &&& !objs[k].valid_for(m)
    &&& forall|j: int| 0 <= j < k ==> !(#[trigger] objs[j]).validation_errs(m) && objs[j].valid_for(m)
}

/// No object fails with an error while validating `m`.
pub open spec fn none_errs_validating<T: ApplicationObject>(objs: Seq<T>, m: MessageModel) -> bool {
    forall|i: int| 0 <= i < objs.len() ==> !(#[trigger] objs[i]).validation_errs(m)
}

/// `h` is what the pipeline hands to object `k`: nothing for the first
/// object, and what `hands_on` gives for the object before it otherwise.
pub open spec fn handed_to<T: ApplicationObject>(after: Seq<T>, emitted: Seq<Option<MementoModel>>, k: int, h: Option<MementoModel>) -> bool {
    if k == 0 {
        h is None
    } else {
        hands_on(after[k - 1], emitted[k - 1], h)
    }
}

/// Object `k`, handed `h`, fails on `m`: adding fails, or adding emits no
/// snapshot and asking the object (in state `after_k`) for its own fails.
pub open spec fn fails_at<T: ApplicationObject>(before_k: T, after_k: T, m: MessageModel, h: Option<MementoModel>) -> bool {
    ||| before_k.add_errs(m, h)
    ||| (!before_k.add_errs(m, h) && before_k.applied(&after_k, m, h, None) && after_k.latest_digest_errs())
}

/// Every object accepts `m`.
pub open spec fn all_accept<T: ApplicationObject>(objs: Seq<T>, m: MessageModel) -> bool {
    forall|i: int| 0 <= i < objs.len() ==> #[trigger] objs[i].valid_for(m)
}

/// The objects that a node runs messages through, in registration order.
pub struct ApplicationObjectRegistry<T: ApplicationObject> {
    objects: Vec<T>,
}

impl<T: ApplicationObject> ApplicationObjectRegistry<T> {
    /// The registered objects, in registration order.
    pub closed spec fn spec_objects(&self) -> Seq<T> {
        self.objects@
    }

    pub closed spec fn wf(&self) -> bool {
        &&& ids_distinct(self.objects@)
        &&& forall|i: int| 0 <= i < self.objects@.len() ==> #[trigger] self.objects@[i].inv()
    }

    /// An empty registry.
    pub fn new() -> (r: Self)
        ensures
            r.wf(),
            r.spec_objects().len() == 0,
    {
        ApplicationObjectRegistry { objects: Vec::new() }
    }

    fn position(&self, id: &SharedObjectId) -> (r: Option<usize>)
        requires
            self.wf(),
        ensures
            match r {
                Some(i) => i < self.spec_objects().len() && self.spec_objects()[i as int].spec_id() == *id,
                None => !has_id(self.spec_objects(), *id),
            },
    {
        let mut i: usize = 0;
        while i < self.objects.len()
            invariant
                self.wf(),
                i <= self.objects@.len(),
                forall|k: int| 0 <= k < i ==> #[trigger] self.objects@[k].spec_id() != *id,
            decreases self.objects@.len() - i,
        {
            let oid = self.objects[i].id();
            if oid.0 == id.0 {
                return Some(i);
            }
            i += 1;
        }
        None
    }

    /// Registers `object` and returns its identifier; an object registered
    /// under the same identifier before is replaced in place.
    pub fn register(&mut self, object: T) -> (id: SharedObjectId)
        requires
            old(self).wf(),
            object.inv(),
        ensures
            final(self).wf(),
            id == object.spec_id(),
            has_id(old(self).spec_objects(), id) ==> exists|i: int|
                0 <= i < old(self).spec_objects().len() && old(self).spec_objects()[i].spec_id() == id
                    && final(self).spec_objects() == old(self).spec_objects().update(i, object),
            !has_id(old(self).spec_objects(), id) ==> final(self).spec_objects() == old(self).spec_objects().push(object),
    {
        let id = object.id();
        match self.position(&id) {
            Some(i) => {
                let ghost before = self.objects@;
                self.objects.remove(i);
                self.objects.insert(i, object);
                proof {
                    assert(self.objects@ =~= before.update(i as int, object));
                }
            },
            None => {
                self.objects.push(object);
            },
        }
        id
    }

    /// The object registered under `id`.
    pub fn get(&self, id: &SharedObjectId) -> (r: Option<&T>)
        requires
            self.wf(),
        ensures
            match r {
                Some(o) => exists|i: int| 0 <= i < self.spec_objects().len() && *o == self.spec_objects()[i] && o.spec_id() == *id,
                None => !has_id(self.spec_objects(), *id),
            },
    {
        match self.position(id) {
            Some(i) => Some(&self.objects[i]),
            None => None,
        }
    }

    /// The objects whose type name is `kind_name`, in registration order.
    pub fn get_by_type(&self, kind_name: &str) -> (r: Vec<&T>)
        requires
            self.wf(),
        ensures
            r@.len() == self.spec_objects().filter(|o: T| o.spec_object_type() == kind_name@).len(),
            forall|k: int| 0 <= k < r@.len() ==> *r@[k] == self.spec_objects().filter(|o: T| o.spec_object_type() == kind_name@)[k],
    {
        let ghost pred = |o: T| o.spec_object_type() == kind_name@;
        let mut out: Vec<&T> = Vec::new();
        let mut i: usize = 0;
        while i < self.objects.len()
            invariant
                self.wf(),
                i <= self.objects@.len(),
                pred == (|o: T| o.spec_object_type() == kind_name@),
                out@.len() == self.objects@.take(i as int).filter(pred).len(),
                forall|k: int| 0 <= k < out@.len() ==> *out@[k] == self.objects@.take(i as int).filter(pred)[k],
            decreases self.objects@.len() - i,
        {
            let ghost prefix = self.objects@.take(i as int);
            let ghost next = self.objects@.take(i + 1);
            proof {
                assert(next.drop_last() =~= prefix);
                assert(next.last() == self.objects@[i as int]);
                reveal(Seq::filter);
            }
            let t = self.objects[i].object_type();
            if str_equal(t, kind_name) {
                out.push(&self.objects[i]);
            }
            i += 1;
        }
        proof {
            assert(self.objects@.take(i as int) =~= self.objects@);
        }
        out
    }

    /// Removes and returns the object registered under `id`.
    pub fn remove(&mut self, id: &SharedObjectId) -> (r: Option<T>)
        requires
            old(self).wf(),
        ensures
            final(self).wf(),
            match r {
                Some(o) => exists|i: int|
                    0 <= i < old(self).spec_objects().len() && o == old(self).spec_objects()[i] && o.spec_id() == *id
                        && final(self).spec_objects() == old(self).spec_objects().remove(i),
                None => !has_id(old(self).spec_objects(), *id) && final(self).spec_objects() == old(self).spec_objects(),
            },
    {
        match self.position(id) {
            Some(i) => {
                let ghost before = self.objects@;
                let o = self.objects.remove(i);
                proof {
                    assert forall|a: int, b: int|
                        0 <= a < self.objects@.len() && 0 <= b < self.objects@.len() && a != b implies
                        #[trigger] self.objects@[a].spec_id() != #[trigger] self.objects@[b].spec_id() by {
                        let a2 = if a < i { a } else { a + 1 };
                        let b2 = if b < i { b } else { b + 1 };
                        assert(self.objects@[a] == before[a2]);
                        assert(self.objects@[b] == before[b2]);
                    }
                    assert forall|a: int| 0 <= a < self.objects@.len() implies #[trigger] self.objects@[a].inv() by {
                        let a2 = if a < i { a } else { a + 1 };
                        assert(self.objects@[a] == before[a2]);
                    }
                }
                Some(o)
            },
            None => None,
        }
    }

    /// The identifiers, in registration order.
    pub fn ids(&self) -> (r: Vec<SharedObjectId>)
        requires
            self.wf(),
        ensures
            r@ == ids_of(self.spec_objects()),
    {
        let mut out: Vec<SharedObjectId> = Vec::new();
        let mut i: usize = 0;
        while i < self.objects.len()
            invariant
                self.wf(),
                i <= self.objects@.len(),
                out@ == ids_of(self.objects@).take(i as int),
            decreases self.objects@.len() - i,
        {
            out.push(self.objects[i].id());
            proof {
                assert(ids_of(self.objects@).take(i + 1) =~= ids_of(self.objects@).take(i as int).push(self.objects@[i as int].spec_id()));
            }
            i += 1;
        }
        proof {
            assert(ids_of(self.objects@).take(i as int) =~= ids_of(self.objects@));
        }
        out
    }

    pub fn len(&self) -> (n: usize)
        ensures
            n == self.spec_objects().len(),
    {
        self.objects.len()
    }

    /// Every registered object keeps its invariant.
    pub proof fn lemma_inv_at(&self, i: int)
        requires
            self.wf(),
            0 <= i < self.spec_objects().len(),
        ensures
            self.spec_objects()[i].inv(),
    {
    }

    /// The registered objects, in registration order.
    pub fn objects(&self) -> (r: &Vec<T>)
        ensures
            r@ == self.spec_objects(),
    {
        &self.objects
    }

    pub fn is_empty(&self) -> (b: bool)
        ensures
            b == (self.spec_objects().len() == 0),
    {
        self.objects.len() == 0
    }

    pub fn clear(&mut self)
        ensures
            final(self).wf(),
            final(self).spec_objects().len() == 0,
    {
        self.objects.clear();
    }

    /// Runs `message` through every object: first every object validates it
    /// (if any object rejects it, nothing changes and an error is returned);
    /// then each object, in registration order, adds it with the snapshot
    /// handed on from the object before. Returns the identifiers of the
    /// objects that took the message.
    pub fn process_message(&mut self, message: SharedMessage) -> (r: Result<Vec<SharedObjectId>, ChaincraftError>)
        requires
            old(self).wf(),
        ensures
            final(self).wf(),
            ids_of(final(self).spec_objects()) == ids_of(old(self).spec_objects()),
            old(self).spec_objects().len() == 0 ==> (r matches Ok(ids) && ids@.len() == 0),
            !all_accept(old(self).spec_objects(), message@) ==> r is Err && final(self).spec_objects() == old(self).spec_objects(),
            (exists|k: int| rejected_at(old(self).spec_objects(), message@, k)) ==> (r matches Err(ChaincraftError::Validation(s))
                && s@ == "message rejected by at least one application object"@),
            r is Err && all_accept(old(self).spec_objects(), message@) && none_errs_validating(old(self).spec_objects(), message@) ==>
                exists|handed: Seq<Option<MementoModel>>, emitted: Seq<Option<MementoModel>>, k: int, h: Option<MementoModel>| {
                    &&& 0 <= k < old(self).spec_objects().len()
                    &&& pipeline_run(old(self).spec_objects(), final(self).spec_objects(), message@, handed, emitted, k)
                    &&& handed_to(final(self).spec_objects(), emitted, k, h)
                    &&& fails_at(old(self).spec_objects()[k], final(self).spec_objects()[k], message@, h)
                },
            r matches Ok(ids) ==> {
                &&& ids@ == ids_of(old(self).spec_objects())
                &&& all_accept(old(self).spec_objects(), message@)
                &&& exists|handed: Seq<Option<MementoModel>>, emitted: Seq<Option<MementoModel>>|
                    pipeline_run(old(self).spec_objects(), final(self).spec_objects(), message@, handed, emitted, old(self).spec_objects().len() as int)
            },
    {
        let n = self.objects.len();
        let mut i: usize = 0;
        while i < n
            invariant
                self.wf(),
                self.objects@ == old(self).objects@,
                n == self.objects@.len(),
                i <= n,
                forall|k: int| 0 <= k < i ==> #[trigger] self.objects@[k].valid_for(message@),
                forall|k: int| 0 <= k < i ==> !(#[trigger] self.objects@[k]).validation_errs(message@),
            decreases n - i,
        {
            match self.objects[i].is_valid(&message) {
                Ok(true) => {},
                Ok(false) => {
                    proof {
                        assert(rejected_at(self.objects@, message@, i as int));
                        assert forall|k: int| rejected_at(self.objects@, message@, k) implies k == i by {
                            if k > i {
                                assert(self.objects@[i as int].valid_for(message@));
                            }
                        }
                    }
                    return Err(ChaincraftError::validation("message rejected by at least one application object"));
                },
                Err(e) => {
                    proof {
                        assert forall|k: int| !rejected_at(self.objects@, message@, k) by {
                            if rejected_at(self.objects@, message@, k) && k > i {
                                assert(!self.objects@[i as int].validation_errs(message@));
                            }
                        }
                    }
                    return Err(e);
                },
            }
            i += 1;
        }
        let ghost before = self.objects@;
        let ghost mut handed: Seq<Option<MementoModel>> = Seq::empty();
        let ghost mut emitted_seq: Seq<Option<MementoModel>> = Seq::empty();
        let mut frontier: Option<StateMemento> = None;
        let mut processed: Vec<SharedObjectId> = Vec::new();
        let mut i: usize = 0;
        while i < n
            invariant
                n == self.objects@.len(),
                n == before.len(),
                before == old(self).objects@,
                i <= n,
                ids_distinct(before),
                forall|k: int| 0 <= k < n ==> #[trigger] before[k].inv(),
                forall|k: int| 0 <= k < n ==> #[trigger] before[k].valid_for(message@),
                forall|k: int| i <= k < n ==> self.objects@[k] == before[k],
                forall|k: int| 0 <= k < n ==> #[trigger] self.objects@[k].inv(),
                forall|k: int| 0 <= k < n ==> #[trigger] self.objects@[k].spec_id() == before[k].spec_id(),
                pipeline_run(before, self.objects@, message@, handed, emitted_seq, i as int),
                i == 0 ==> frontier is None,
                i > 0 ==> hands_on(self.objects@[i - 1], emitted_seq[i - 1], opt_model(frontier)),
                processed@ == ids_of(before).take(i as int),
            decreases n - i,
        {
            let ghost cur = self.objects@;
            let mut o = self.objects.remove(i);
            let ghost handed_in = opt_model(frontier);
            let m = message.copy();
            let result = o.add_message(m, frontier);
            match result {
                Ok(emitted) => {
                    let next = match emitted {
                        Some(e) => Some(e),
                        None => match o.emit_state_memento() {
                            Ok(e) => Some(e),
                            Err(err) => {
                                self.objects.insert(i, o);
                                proof {
                                    assert(self.objects@ =~= cur.update(i as int, self.objects@[i as int]));
                                    assert(pipeline_run(before, self.objects@, message@, handed, emitted_seq, i as int)) by {
                                        assert forall|k: int| 0 <= k < i implies #[trigger] before[k].applied(&self.objects@[k], message@, handed[k], emitted_seq[k]) by {
                                            assert(self.objects@[k] == cur[k]);
                                        }
                                        assert forall|k: int| 0 <= k < i - 1 implies hands_on(self.objects@[k], emitted_seq[k], #[trigger] handed[k + 1]) by {
                                            assert(self.objects@[k] == cur[k]);
                                        }
                                    }
                                    if i > 0 {
                                        assert(self.objects@[i - 1] == cur[i - 1]);
                                    }
                                    assert(handed_to(self.objects@, emitted_seq, i as int, handed_in));
                                    assert(fails_at(before[i as int], self.objects@[i as int], message@, handed_in));
                                    assert(old(self).spec_objects() == before);
                                    assert(self.spec_objects() == self.objects@);
                                    assert(0 <= i < old(self).spec_objects().len()
                                        && pipeline_run(old(self).spec_objects(), self.spec_objects(), message@, handed, emitted_seq, i as int)
                                        && handed_to(self.spec_objects(), emitted_seq, i as int, handed_in)
                                        && fails_at(old(self).spec_objects()[i as int], self.spec_objects()[i as int], message@, handed_in));
                                    assert(ids_distinct(self.objects@)) by {
                                        assert forall|a: int, b: int|
                                            0 <= a < n && 0 <= b < n && a != b implies
                                            #[trigger] self.objects@[a].spec_id() != #[trigger] self.objects@[b].spec_id() by {
                                            assert(self.objects@[a].spec_id() == before[a].spec_id());
                                            assert(self.objects@[b].spec_id() == before[b].spec_id());
                                        }
                                    }
                                    assert(ids_of(self.objects@) =~= ids_of(before));
                                }
                                return Err(err);
                            },
                        },
                    };
                    let oid = o.id();
                    self.objects.insert(i, o);
                    processed.push(oid);
                    proof {
                        let after_i = self.objects@[i as int];
                        assert(self.objects@ =~= cur.update(i as int, after_i));
                        assert(before[i as int].applied(&after_i, message@, handed_in, opt_model(emitted)));
                        let handed2 = handed.push(handed_in);
                        let emitted2 = emitted_seq.push(opt_model(emitted));
                        assert forall|k: int| 0 <= k < i + 1 implies #[trigger] before[k].applied(&self.objects@[k], message@, handed2[k], emitted2[k]) by {
                            if k < i {
                                assert(before[k].applied(&cur[k], message@, handed[k], emitted_seq[k]));
                            }
                        }
                        assert forall|k: int| 0 <= k < i implies hands_on(self.objects@[k], emitted2[k], #[trigger] handed2[k + 1]) by {
                            if k < i - 1 {
                                assert(hands_on(cur[k], emitted_seq[k], handed[k + 1]));
                            } else {
                                assert(k == i - 1);
                                assert(handed2[k + 1] == handed_in);
                            }
                        }
                        handed = handed2;
                        emitted_seq = emitted2;
                        assert(ids_of(before).take(i + 1) =~= ids_of(before).take(i as int).push(before[i as int].spec_id()));
                    }
                    frontier = next;
                },
                Err(err) => {
                    self.objects.insert(i, o);
                    proof {
                        assert(self.objects@ =~= cur.update(i as int, self.objects@[i as int]));
                        assert(pipeline_run(before, self.objects@, message@, handed, emitted_seq, i as int)) by {
                            assert forall|k: int| 0 <= k < i implies #[trigger] before[k].applied(&self.objects@[k], message@, handed[k], emitted_seq[k]) by {
                                assert(self.objects@[k] == cur[k]);
                            }
                            assert forall|k: int| 0 <= k < i - 1 implies hands_on(self.objects@[k], emitted_seq[k], #[trigger] handed[k + 1]) by {
                                assert(self.objects@[k] == cur[k]);
                            }
                        }
                        if i > 0 {
                            assert(self.objects@[i - 1] == cur[i - 1]);
                        }
                        assert(handed_to(self.objects@, emitted_seq, i as int, handed_in));
                        assert(fails_at(before[i as int], self.objects@[i as int], message@, handed_in));
                        assert(old(self).spec_objects() == before);
                        assert(self.spec_objects() == self.objects@);
                        assert(0 <= i < old(self).spec_objects().len()
                            && pipeline_run(old(self).spec_objects(), self.spec_objects(), message@, handed, emitted_seq, i as int)
                            && handed_to(self.spec_objects(), emitted_seq, i as int, handed_in)
                            && fails_at(old(self).spec_objects()[i as int], self.spec_objects()[i as int], message@, handed_in));
                        assert(ids_distinct(self.objects@)) by {
                            assert forall|a: int, b: int|
                                0 <= a < n && 0 <= b < n && a != b implies
                                #[trigger] self.objects@[a].spec_id() != #[trigger] self.objects@[b].spec_id() by {
                                assert(self.objects@[a].spec_id() == before[a].spec_id());
                                assert(self.objects@[b].spec_id() == before[b].spec_id());
                            }
                        }
                        assert(ids_of(self.objects@) =~= ids_of(before));
                    }
                    return Err(err);
                },
            }
            i += 1;
        }
        proof {
            assert(ids_distinct(self.objects@)) by {
                assert forall|a: int, b: int|
                    0 <= a < n && 0 <= b < n && a != b implies
                    #[trigger] self.objects@[a].spec_id() != #[trigger] self.objects@[b].spec_id() by {
                    assert(self.objects@[a].spec_id() == before[a].spec_id());
                    assert(self.objects@[b].spec_id() == before[b].spec_id());
                }
            }
            assert(ids_of(self.objects@) =~= ids_of(before));
            assert(ids_of(before).take(n as int) =~= ids_of(before));
            assert(pipeline_run(before, self.objects@, message@, handed, emitted_seq, n as int));
            assert(pipeline_run(old(self).spec_objects(), self.spec_objects(), message@, handed, emitted_seq, old(self).spec_objects().len() as int));
            assert forall|k: int| 0 <= k < old(self).spec_objects().len() implies #[trigger] old(self).spec_objects()[k].valid_for(message@) by {
                assert(before[k].valid_for(message@));
            }
        }
        Ok(processed)
    }
}


// ---------------------------------------------------------------------------
// Laws
// ---------------------------------------------------------------------------

/// Offering a hash keeps a chain well formed, and offering it again changes
/// nothing.
pub proof fn lemma_chain_offer(chain: Seq<Seq<char>>, h: Seq<char>)
    requires
        chain_wf(chain),
    ensures
        chain_wf(chain_after_offer(chain, h)),
        chain_after_offer(chain_after_offer(chain, h), h) == chain_after_offer(chain, h),
{
    if !chain.contains(h) && follows_some(chain, h) {
        lemma_chain_wf_push(chain, h);
        assert(chain.push(h)[chain.len() as int] == h);
        assert(chain.push(h).contains(h));
    }
}

/// The hash of a chain's tip is always accepted: it is appended unless it
/// is in the chain already.
pub proof fn lemma_tip_successor_accepted(chain: Seq<Seq<char>>)
    requires
        chain_wf(chain),
    ensures
        follows_some(chain, sha256_hex_of(chain.last())),
        chain_after_offer(chain, sha256_hex_of(chain.last())) == (if chain.contains(sha256_hex_of(chain.last())) {
            chain
        } else {
            chain.push(sha256_hex_of(chain.last()))
        }),
{
    assert(sha256_hex_of(chain[chain.len() - 1]) == sha256_hex_of(chain.last()));
}

/// A number that receives the same payload twice adds its value once: the
/// second arrival changes nothing and emits nothing.
pub proof fn lemma_number_dedup(
    a: SimpleSharedNumber,
    b: SimpleSharedNumber,
    c: SimpleSharedNumber,
    m1: MessageModel,
    m2: MessageModel,
    f1: Option<MementoModel>,
    f2: Option<MementoModel>,
    e1: Option<MementoModel>,
    e2: Option<MementoModel>,
)
    requires
        a.applied(&b, m1, f1, e1),
        b.applied(&c, m2, f2, e2),
        m2.data == m1.data,
    ensures
        c.spec_number() == b.spec_number(),
        c.spec_messages() == b.spec_messages(),
        e2 is None,
{
    let h = number_content_hash(m1.data);
    if !a.spec_seen().contains(h) {
        assert(b.spec_seen()[b.spec_seen().len() - 1] == h);
    }
    assert(b.spec_seen().contains(h));
}

/// A message log that receives the same message twice keeps it once.
pub proof fn lemma_message_log_dedup(
    a: MessageChain,
    b: MessageChain,
    c: MessageChain,
    m: MessageModel,
    f1: Option<MementoModel>,
    f2: Option<MementoModel>,
    e1: Option<MementoModel>,
    e2: Option<MementoModel>,
)
    requires
        a.applied(&b, m, f1, e1),
        b.applied(&c, m, f2, e2),
    ensures
        c.spec_log() == b.spec_log(),
{
    if !model_hashes(a.spec_log()).contains(m.hash) {
        let l = b.spec_log();
        assert(model_hashes(l)[l.len() - 1] == m.hash);
        assert(model_hashes(l).contains(m.hash));
    }
}

} // verus!
