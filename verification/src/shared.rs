//! Identifiers, message types and the message envelope exchanged between
//! nodes.

use vstd::prelude::*;
use vstd::utf8::encode_utf8;
use crate::hashing::{append_bytes, sha256_hex_bytes, sha256_hex_of_bytes, hex_lower, sha256_spec};
use crate::json::{JsonValue, Json, json_text, to_json_text, clone_json, canonical, canonical_json};
use crate::text::{copy_str, compare_str, TextOrder};
use crate::error::{ChaincraftError, CryptoError};

verus! {

broadcast use vstd::string::group_string_axioms;

// ---------------------------------------------------------------------------
// Identifiers
// ---------------------------------------------------------------------------

/// Whether `v` carries the version and variant bits of a random (version 4,
/// RFC 4122 variant) UUID: version nibble 4, variant bits `10`.
pub open spec fn is_v4_uuid(v: u128) -> bool {
    &&& (v >> 76u128) & 0xfu128 == 4u128
    &&& (v >> 62u128) & 0x3u128 == 2u128
}

/// A fresh random (version 4) UUID, as its 128-bit value.
///
/// Trusted: calls `uuid::Uuid::new_v4` and `Uuid::as_u128`. The value is
/// random; what holds of every outcome is that `new_v4` sets the version and
/// variant bits.
#[verifier::external_body]
fn random_uuid_value() -> (r: u128)
    ensures
        is_v4_uuid(r),
{
    uuid::Uuid::new_v4().as_u128()
}

/// The last `n` bytes of `v`, most significant first.
pub open spec fn be_bytes(v: nat, n: nat) -> Seq<u8>
    decreases n,
{
    if n == 0 {
        Seq::empty()
    } else {
        be_bytes(v / 256, (n - 1) as nat).push((v % 256) as u8)
    }
}

/// The bincode encoding of a UUID: its 16 bytes as a byte string, that is
/// the length 16 as a little-endian `u64`, then the bytes, most significant
/// first.
pub open spec fn uuid_bincode_bytes(id: u128) -> Seq<u8> {
    seq![16u8, 0u8, 0u8, 0u8, 0u8, 0u8, 0u8, 0u8] + be_bytes(id as nat, 16)
}

/// Encodes the UUID with value `id` with bincode.
///
/// Trusted: calls `uuid::Uuid::from_u128` and `bincode::serialize`. A UUID
/// serializes as a byte string in binary formats, which bincode's default
/// (fixed-width, little-endian) encoding writes as its length and its bytes;
/// writing into a `Vec` with no size limit does not fail.
#[verifier::external_body]
fn uuid_bincode(id: u128) -> (r: Option<Vec<u8>>)
    ensures
        r is Some,
        r.unwrap()@ == uuid_bincode_bytes(id),
{
    bincode::serialize(&uuid::Uuid::from_u128(id)).ok()
}

/// Unique identifier for shared objects and messages (a UUID).
#[derive(PartialEq, Eq, Structural, Clone, Copy, Debug)]
pub struct SharedObjectId(pub u128);

impl SharedObjectId {
    /// A fresh random identifier (a version 4 UUID).
    pub fn new() -> (id: SharedObjectId)
        ensures
            is_v4_uuid(id.0),
    {
        SharedObjectId(random_uuid_value())
    }

    /// The 128-bit value of the UUID.
    pub fn as_u128(&self) -> (v: u128)
        ensures
            v == self.0,
    {
        self.0
    }

    /// The identifier with the given 128-bit UUID value.
    pub fn from_u128(v: u128) -> (id: SharedObjectId)
        ensures
            id.0 == v,
    {
        SharedObjectId(v)
    }

    /// The UUID of this identifier.
    ///
    /// Trusted: calls `uuid::Uuid::from_u128`.
    #[verifier::external_body]
    pub fn as_uuid(&self) -> uuid::Uuid {
        uuid::Uuid::from_u128(self.0)
    }

    /// The UUID of this identifier.
    ///
    /// Trusted: calls `uuid::Uuid::from_u128`.
    #[verifier::external_body]
    pub fn into_uuid(self) -> uuid::Uuid {
        uuid::Uuid::from_u128(self.0)
    }

    /// The identifier of `uuid`.
    ///
    /// Trusted: calls `uuid::Uuid::as_u128`.
    #[verifier::external_body]
    pub fn from_uuid(uuid: uuid::Uuid) -> SharedObjectId {
        SharedObjectId(uuid.as_u128())
    }
}

/// The `uuid::Uuid` type, carried opaquely.
#[verifier::external_type_specification]
#[verifier::external_body]
pub struct ExUuid(uuid::Uuid);

/// Unique identifier of a node (a UUID).
#[derive(PartialEq, Eq, Structural, Clone, Copy, Debug)]
pub struct PeerId(pub u128);

impl PeerId {
    /// A fresh random identifier (a version 4 UUID).
    pub fn new() -> (id: PeerId)
        ensures
            is_v4_uuid(id.0),
    {
        PeerId(random_uuid_value())
    }

    /// The identifier with the given 128-bit UUID value.
    pub fn from_u128(v: u128) -> (id: PeerId)
        ensures
            id.0 == v,
    {
        PeerId(v)
    }
}

// ---------------------------------------------------------------------------
// Message types
// ---------------------------------------------------------------------------

/// Message types for inter-node communication.
#[derive(Debug, Clone, PartialEq, Eq)]
pub enum MessageType {
    PeerDiscovery,
    RequestLocalPeers,
    LocalPeers,
    RequestSharedObjectUpdate,
    SharedObjectUpdate,
    Get,
    SetValue,
    Delete,
    Response,
    Notification,
    Heartbeat,
    Error,
    RequestDigest,
    RequestMessagesSince,
    DigestResponse,
    MessagesResponse,
    Custom(String),
}

/// Mathematical model of a `MessageType`.
pub enum MessageKind {
    PeerDiscovery,
    RequestLocalPeers,
    LocalPeers,
    RequestSharedObjectUpdate,
    SharedObjectUpdate,
    Get,
    SetValue,
    Delete,
    Response,
    Notification,
    Heartbeat,
    Error,
    RequestDigest,
    RequestMessagesSince,
    DigestResponse,
    MessagesResponse,
    Custom(Seq<char>),
}

impl View for MessageType {
    type V = MessageKind;

    open spec fn view(&self) -> MessageKind {
        match self {
            MessageType::PeerDiscovery => MessageKind::PeerDiscovery,
            MessageType::RequestLocalPeers => MessageKind::RequestLocalPeers,
            MessageType::LocalPeers => MessageKind::LocalPeers,
            MessageType::RequestSharedObjectUpdate => MessageKind::RequestSharedObjectUpdate,
            MessageType::SharedObjectUpdate => MessageKind::SharedObjectUpdate,
            MessageType::Get => MessageKind::Get,
            MessageType::SetValue => MessageKind::SetValue,
            MessageType::Delete => MessageKind::Delete,
            MessageType::Response => MessageKind::Response,
            MessageType::Notification => MessageKind::Notification,
            MessageType::Heartbeat => MessageKind::Heartbeat,
            MessageType::Error => MessageKind::Error,
            MessageType::RequestDigest => MessageKind::RequestDigest,
            MessageType::RequestMessagesSince => MessageKind::RequestMessagesSince,
            MessageType::DigestResponse => MessageKind::DigestResponse,
            MessageType::MessagesResponse => MessageKind::MessagesResponse,
            MessageType::Custom(s) => MessageKind::Custom(s@),
        }
    }
}

/// The wire name of a message type (its display text).
pub open spec fn wire_name(k: MessageKind) -> Seq<char> {
    match k {
        MessageKind::PeerDiscovery => "PEER_DISCOVERY"@,
        MessageKind::RequestLocalPeers => "REQUEST_LOCAL_PEERS"@,
        MessageKind::LocalPeers => "LOCAL_PEERS"@,
        MessageKind::RequestSharedObjectUpdate => "REQUEST_SHARED_OBJECT_UPDATE"@,
        MessageKind::SharedObjectUpdate => "SHARED_OBJECT_UPDATE"@,
        MessageKind::Get => "GET"@,
        MessageKind::SetValue => "SET"@,
        MessageKind::Delete => "DELETE"@,
        MessageKind::Response => "RESPONSE"@,
        MessageKind::Notification => "NOTIFICATION"@,
        MessageKind::Heartbeat => "HEARTBEAT"@,
        MessageKind::Error => "ERROR"@,
        MessageKind::RequestDigest => "REQUEST_DIGEST"@,
        MessageKind::RequestMessagesSince => "REQUEST_MESSAGES_SINCE"@,
        MessageKind::DigestResponse => "DIGEST_RESPONSE"@,
        MessageKind::MessagesResponse => "MESSAGES_RESPONSE"@,
        MessageKind::Custom(s) => s,
    }
}

/// The message type named by wire text `s`; any name that is not one of the
/// predefined ones is a custom type.
pub open spec fn kind_from_wire(s: Seq<char>) -> MessageKind {
    if s == "PEER_DISCOVERY"@ { MessageKind::PeerDiscovery }
    else if s == "REQUEST_LOCAL_PEERS"@ { MessageKind::RequestLocalPeers }
    else if s == "LOCAL_PEERS"@ { MessageKind::LocalPeers }
    else if s == "REQUEST_SHARED_OBJECT_UPDATE"@ { MessageKind::RequestSharedObjectUpdate }
    else if s == "SHARED_OBJECT_UPDATE"@ { MessageKind::SharedObjectUpdate }
    else if s == "GET"@ { MessageKind::Get }
    else if s == "SET"@ { MessageKind::SetValue }
    else if s == "DELETE"@ { MessageKind::Delete }
    else if s == "RESPONSE"@ { MessageKind::Response }
    else if s == "NOTIFICATION"@ { MessageKind::Notification }
    else if s == "HEARTBEAT"@ { MessageKind::Heartbeat }
    else if s == "ERROR"@ { MessageKind::Error }
    else if s == "REQUEST_DIGEST"@ { MessageKind::RequestDigest }
    else if s == "REQUEST_MESSAGES_SINCE"@ { MessageKind::RequestMessagesSince }
    else if s == "DIGEST_RESPONSE"@ { MessageKind::DigestResponse }
    else if s == "MESSAGES_RESPONSE"@ { MessageKind::MessagesResponse }
    else { MessageKind::Custom(s) }
}

/// The message type for the `"type"` field of data handed to a node: the
/// twelve general-purpose names map to their types, any other text
/// (the digest-sync names included) is a custom type.
pub open spec fn kind_from_data_type(s: Seq<char>) -> MessageKind {
    if s == "REQUEST_DIGEST"@ || s == "REQUEST_MESSAGES_SINCE"@ || s == "DIGEST_RESPONSE"@
        || s == "MESSAGES_RESPONSE"@ {
        MessageKind::Custom(s)
    } else {
        kind_from_wire(s)
    }
}

/// Whether `s` is the wire name of a predefined message type.
pub open spec fn is_reserved_name(s: Seq<char>) -> bool {
    !(kind_from_wire(s) is Custom)
}

fn str_eq(a: &str, b: &str) -> (r: bool)
    ensures
        r == (a@ == b@),
{
    compare_str(a, b) == TextOrder::Equal
}

impl MessageType {
    /// The wire name of this message type.
    pub fn wire_name(&self) -> (s: String)
        ensures
            s@ == wire_name(self@),
    {
        match self {
            MessageType::PeerDiscovery => copy_str("PEER_DISCOVERY"),
            MessageType::RequestLocalPeers => copy_str("REQUEST_LOCAL_PEERS"),
            MessageType::LocalPeers => copy_str("LOCAL_PEERS"),
            MessageType::RequestSharedObjectUpdate => copy_str("REQUEST_SHARED_OBJECT_UPDATE"),
            MessageType::SharedObjectUpdate => copy_str("SHARED_OBJECT_UPDATE"),
            MessageType::Get => copy_str("GET"),
            MessageType::SetValue => copy_str("SET"),
            MessageType::Delete => copy_str("DELETE"),
            MessageType::Response => copy_str("RESPONSE"),
            MessageType::Notification => copy_str("NOTIFICATION"),
            MessageType::Heartbeat => copy_str("HEARTBEAT"),
            MessageType::Error => copy_str("ERROR"),
            MessageType::RequestDigest => copy_str("REQUEST_DIGEST"),
            MessageType::RequestMessagesSince => copy_str("REQUEST_MESSAGES_SINCE"),
            MessageType::DigestResponse => copy_str("DIGEST_RESPONSE"),
            MessageType::MessagesResponse => copy_str("MESSAGES_RESPONSE"),
            MessageType::Custom(s) => copy_str(s.as_str()),
        }
    }

    /// The message type with wire name `s` (custom for unknown names).
    pub fn from_wire_name(s: &str) -> (t: MessageType)
        ensures
            t@ == kind_from_wire(s@),
    {
        if str_eq(s, "PEER_DISCOVERY") { MessageType::PeerDiscovery }
        else if str_eq(s, "REQUEST_LOCAL_PEERS") { MessageType::RequestLocalPeers }
        else if str_eq(s, "LOCAL_PEERS") { MessageType::LocalPeers }
        else if str_eq(s, "REQUEST_SHARED_OBJECT_UPDATE") { MessageType::RequestSharedObjectUpdate }
        else if str_eq(s, "SHARED_OBJECT_UPDATE") { MessageType::SharedObjectUpdate }
        else if str_eq(s, "GET") { MessageType::Get }
        else if str_eq(s, "SET") { MessageType::SetValue }
        else if str_eq(s, "DELETE") { MessageType::Delete }
        else if str_eq(s, "RESPONSE") { MessageType::Response }
        else if str_eq(s, "NOTIFICATION") { MessageType::Notification }
        else if str_eq(s, "HEARTBEAT") { MessageType::Heartbeat }
        else if str_eq(s, "ERROR") { MessageType::Error }
        else if str_eq(s, "REQUEST_DIGEST") { MessageType::RequestDigest }
        else if str_eq(s, "REQUEST_MESSAGES_SINCE") { MessageType::RequestMessagesSince }
        else if str_eq(s, "DIGEST_RESPONSE") { MessageType::DigestResponse }
        else if str_eq(s, "MESSAGES_RESPONSE") { MessageType::MessagesResponse }
        else { MessageType::Custom(copy_str(s)) }
    }

    /// The message type for the `"type"` field of data handed to a node.
    pub fn from_data_type(s: &str) -> (t: MessageType)
        ensures
            t@ == kind_from_data_type(s@),
    {
        if str_eq(s, "REQUEST_DIGEST") || str_eq(s, "REQUEST_MESSAGES_SINCE") || str_eq(
            s,
            "DIGEST_RESPONSE",
        ) || str_eq(s, "MESSAGES_RESPONSE") {
            MessageType::Custom(copy_str(s))
        } else {
            MessageType::from_wire_name(s)
        }
    }

    /// A copy of this message type.
    pub fn copy(&self) -> (t: MessageType)
        ensures
            t@ == self@,
    {
        match self {
            MessageType::Custom(s) => MessageType::Custom(copy_str(s.as_str())),
            _ => {
                proof {
                    lemma_wire_name_roundtrip(self@);
                }
                MessageType::from_wire_name(self.wire_name().as_str())
            },
        }
    }
}

proof fn lemma_wire_names_distinct()
    ensures
        "PEER_DISCOVERY"@.len() == 14 && "PEER_DISCOVERY"@[0] == 'P',
        "REQUEST_LOCAL_PEERS"@.len() == 19 && "REQUEST_LOCAL_PEERS"@[0] == 'R',
        "LOCAL_PEERS"@.len() == 11 && "LOCAL_PEERS"@[0] == 'L',
        "REQUEST_SHARED_OBJECT_UPDATE"@.len() == 28 && "REQUEST_SHARED_OBJECT_UPDATE"@[0] == 'R',
        "SHARED_OBJECT_UPDATE"@.len() == 20 && "SHARED_OBJECT_UPDATE"@[0] == 'S',
        "GET"@.len() == 3 && "GET"@[0] == 'G',
        "SET"@.len() == 3 && "SET"@[0] == 'S',
        "DELETE"@.len() == 6 && "DELETE"@[0] == 'D',
        "RESPONSE"@.len() == 8 && "RESPONSE"@[0] == 'R',
        "NOTIFICATION"@.len() == 12 && "NOTIFICATION"@[0] == 'N',
        "HEARTBEAT"@.len() == 9 && "HEARTBEAT"@[0] == 'H',
        "ERROR"@.len() == 5 && "ERROR"@[0] == 'E',
        "REQUEST_DIGEST"@.len() == 14 && "REQUEST_DIGEST"@[0] == 'R',
        "REQUEST_MESSAGES_SINCE"@.len() == 22 && "REQUEST_MESSAGES_SINCE"@[0] == 'R',
        "DIGEST_RESPONSE"@.len() == 15 && "DIGEST_RESPONSE"@[0] == 'D',
        "MESSAGES_RESPONSE"@.len() == 17 && "MESSAGES_RESPONSE"@[0] == 'M',
{
    reveal_strlit("PEER_DISCOVERY");
    assert("PEER_DISCOVERY"@.len() == 14 && "PEER_DISCOVERY"@[0] == 'P');
    reveal_strlit("REQUEST_LOCAL_PEERS");
    assert("REQUEST_LOCAL_PEERS"@.len() == 19 && "REQUEST_LOCAL_PEERS"@[0] == 'R');
    reveal_strlit("LOCAL_PEERS");
    assert("LOCAL_PEERS"@.len() == 11 && "LOCAL_PEERS"@[0] == 'L');
    reveal_strlit("REQUEST_SHARED_OBJECT_UPDATE");
    assert("REQUEST_SHARED_OBJECT_UPDATE"@.len() == 28 && "REQUEST_SHARED_OBJECT_UPDATE"@[0] == 'R');
    reveal_strlit("SHARED_OBJECT_UPDATE");
    assert("SHARED_OBJECT_UPDATE"@.len() == 20 && "SHARED_OBJECT_UPDATE"@[0] == 'S');
    reveal_strlit("GET");
    assert("GET"@.len() == 3 && "GET"@[0] == 'G');
    reveal_strlit("SET");
    assert("SET"@.len() == 3 && "SET"@[0] == 'S');
    reveal_strlit("DELETE");
    assert("DELETE"@.len() == 6 && "DELETE"@[0] == 'D');
    reveal_strlit("RESPONSE");
    assert("RESPONSE"@.len() == 8 && "RESPONSE"@[0] == 'R');
    reveal_strlit("NOTIFICATION");
    assert("NOTIFICATION"@.len() == 12 && "NOTIFICATION"@[0] == 'N');
    reveal_strlit("HEARTBEAT");
    assert("HEARTBEAT"@.len() == 9 && "HEARTBEAT"@[0] == 'H');
    reveal_strlit("ERROR");
    assert("ERROR"@.len() == 5 && "ERROR"@[0] == 'E');
    reveal_strlit("REQUEST_DIGEST");
    assert("REQUEST_DIGEST"@.len() == 14 && "REQUEST_DIGEST"@[0] == 'R');
    reveal_strlit("REQUEST_MESSAGES_SINCE");
    assert("REQUEST_MESSAGES_SINCE"@.len() == 22 && "REQUEST_MESSAGES_SINCE"@[0] == 'R');
    reveal_strlit("DIGEST_RESPONSE");
    assert("DIGEST_RESPONSE"@.len() == 15 && "DIGEST_RESPONSE"@[0] == 'D');
    reveal_strlit("MESSAGES_RESPONSE");
    assert("MESSAGES_RESPONSE"@.len() == 17 && "MESSAGES_RESPONSE"@[0] == 'M');
}

/// Parsing the wire name of any message type gives that type back, unless it
/// is a custom type whose name is a predefined wire name.
pub proof fn lemma_wire_name_roundtrip(k: MessageKind)
    requires
        !(k matches MessageKind::Custom(n) && is_reserved_name(n)),
    ensures
        kind_from_wire(wire_name(k)) == k,
{
    lemma_wire_names_distinct();
}

/// The wire name of the type parsed from any text is that text.
pub proof fn lemma_parse_wire_name(s: Seq<char>)
    ensures
        wire_name(kind_from_wire(s)) == s,
{
}

// ---------------------------------------------------------------------------
// Time
// ---------------------------------------------------------------------------

/// The current time in nanoseconds since the Unix epoch, or `None` outside
/// the range of `i64`.
///
/// Trusted: calls `chrono::Utc::now` and `DateTime::timestamp_nanos_opt`.
/// The clock is read; nothing is stated of the value.
#[verifier::external_body]
fn now_nanos() -> Option<i64> {
    chrono::Utc::now().timestamp_nanos_opt()
}

/// The current time in nanoseconds since the Unix epoch (0 if the clock is
/// outside the range of `i64`).
pub fn current_timestamp() -> i64 {
    match now_nanos() {
        Some(t) => t,
        None => 0,
    }
}

/// The RFC 3339 text of the UTC instant `nanos` nanoseconds after the Unix
/// epoch.
pub uninterp spec fn rfc3339_spec(nanos: i64) -> Seq<char>;

/// RFC 3339 text of a UTC instant.
///
/// Trusted: calls `chrono::DateTime::from_timestamp_nanos` and
/// `DateTime::<Utc>::to_rfc3339`; the result is named `rfc3339_spec` of the
/// instant.
#[verifier::external_body]
pub(crate) fn rfc3339_text(nanos: i64) -> (s: String)
    ensures
        s@ == rfc3339_spec(nanos),
{
    chrono::DateTime::from_timestamp_nanos(nanos).to_rfc3339()
}

// ---------------------------------------------------------------------------
// Messages
// ---------------------------------------------------------------------------

/// A message that can be shared between nodes.
#[derive(Debug)]
pub struct SharedMessage {
    /// Unique message identifier.
    pub id: SharedObjectId,
    pub message_type: MessageType,
    /// Target object (if any).
    pub target_id: Option<SharedObjectId>,
    /// Message payload.
    pub data: JsonValue,
    /// Creation time, in nanoseconds since the Unix epoch (UTC).
    pub timestamp: i64,
    /// Optional signature for authenticated messages.
    pub signature: Option<Vec<u8>>,
    /// Hash of the message content.
    pub hash: String,
}

/// Mathematical model of a `SharedMessage`.
pub struct MessageModel {
    pub id: u128,
    pub kind: MessageKind,
    pub target: Option<u128>,
    pub data: Json,
    pub timestamp: i64,
    pub signature: Option<Seq<u8>>,
    pub hash: Seq<char>,
}

impl View for SharedMessage {
    type V = MessageModel;

    open spec fn view(&self) -> MessageModel {
        MessageModel {
            id: self.id.0,
            kind: self.message_type@,
            target: match self.target_id {
                Some(t) => Some(t.0),
                None => None,
            },
            data: self.data.model(),
            timestamp: self.timestamp,
            signature: match self.signature {
                Some(s) => Some(s@),
                None => None,
            },
            hash: self.hash@,
        }
    }
}

/// The bytes hashed for a message: the bincode encoding of its identifier,
/// then the UTF-8 text of its type name, of its data in canonical form
/// (object keys sorted, each once) and of its timestamp.
pub open spec fn message_hash_input(id: u128, kind: MessageKind, data: Json, timestamp: i64) -> Seq<u8> {
    uuid_bincode_bytes(id) + encode_utf8(wire_name(kind)) + encode_utf8(json_text(canonical(data))) + encode_utf8(
        rfc3339_spec(timestamp),
    )
}

/// The content hash of a message (lowercase hex SHA-256).
pub open spec fn message_hash(id: u128, kind: MessageKind, data: Json, timestamp: i64) -> Seq<char> {
    sha256_hex_bytes(message_hash_input(id, kind, data, timestamp))
}

impl SharedMessage {
    /// The hash that this message's content gives.
    pub open spec fn content_hash(&self) -> Seq<char> {
        message_hash(self.id.0, self.message_type@, self.data.model(), self.timestamp)
    }

    /// A new message of type `message_type` with payload `data`, a fresh
    /// identifier, the current time, no target, no signature, and its hash.
    pub fn new(message_type: MessageType, data: JsonValue) -> (m: SharedMessage)
        ensures
            m.message_type@ == message_type@,
            m.data.model() == data.model(),
            m.target_id is None,
            m.signature is None,
            m.hash@ == m.content_hash(),
    {
        let mut message = SharedMessage {
            id: SharedObjectId::new(),
            message_type,
            target_id: None,
            data,
            timestamp: current_timestamp(),
            signature: None,
            hash: String::new(),
        };
        message.hash = message.calculate_hash();
        message
    }

    /// A new message like `new`, aimed at `target_id`.
    pub fn new_with_target(message_type: MessageType, target_id: SharedObjectId, data: JsonValue) -> (m: SharedMessage)
        ensures
            m.message_type@ == message_type@,
            m.data.model() == data.model(),
            m.target_id == Some(target_id),
            m.signature is None,
            m.hash@ == m.content_hash(),
    {
        let mut message = SharedMessage {
            id: SharedObjectId::new(),
            message_type,
            target_id: Some(target_id),
            data,
            timestamp: current_timestamp(),
            signature: None,
            hash: String::new(),
        };
        message.hash = message.calculate_hash();
        message
    }

    /// A new message of the custom type named `message_type`.
    pub fn custom(message_type: &str, data: JsonValue) -> (m: SharedMessage)
        ensures
            m.message_type@ == MessageKind::Custom(message_type@),
            m.data.model() == data.model(),
            m.target_id is None,
            m.signature is None,
            m.hash@ == m.content_hash(),
    {
        SharedMessage::new(MessageType::Custom(copy_str(message_type)), data)
    }

    /// The hash of this message's content.
    pub fn calculate_hash(&self) -> (h: String)
        ensures
            h@ == self.content_hash(),
            h@.len() == 64,
    {
        let mut bytes: Vec<u8> = Vec::new();
        match uuid_bincode(self.id.0) {
            Some(b) => append_bytes(&mut bytes, b.as_slice()),
            None => {},
        }
        let name = self.message_type.wire_name();
        append_bytes(&mut bytes, name.as_str().as_bytes());
        let data_text = to_json_text(&canonical_json(&self.data));
        append_bytes(&mut bytes, data_text.as_str().as_bytes());
        let time_text = rfc3339_text(self.timestamp);
        append_bytes(&mut bytes, time_text.as_str().as_bytes());
        proof {
            assert(bytes@ =~= message_hash_input(self.id.0, self.message_type@, self.data.model(), self.timestamp));
        }
        sha256_hex_of_bytes(bytes.as_slice())
    }

    /// Whether the stored hash matches the content.
    pub fn verify_hash(&self) -> (r: bool)
        ensures
            r == (self.hash@ == self.content_hash()),
    {
        let h = self.calculate_hash();
        compare_str(self.hash.as_str(), h.as_str()) == TextOrder::Equal
    }

    /// A copy of this message.
    pub fn copy(&self) -> (m: SharedMessage)
        ensures
            m.id == self.id,
            m.message_type@ == self.message_type@,
            m.target_id == self.target_id,
            m.data.model() == self.data.model(),
            m.timestamp == self.timestamp,
            m.signature.is_some() == self.signature.is_some(),
            m.signature matches Some(s) ==> s@ == self.signature.unwrap()@,
            m.hash@ == self.hash@,
            m@ == self@,
    {
        let signature = match &self.signature {
            Some(s) => Some(copy_bytes(s.as_slice())),
            None => None,
        };
        SharedMessage {
            id: self.id,
            message_type: self.message_type.copy(),
            target_id: self.target_id,
            data: clone_json(&self.data),
            timestamp: self.timestamp,
            signature,
            hash: copy_str(self.hash.as_str()),
        }
    }
}

/// A copy of a byte slice.
pub fn copy_bytes(s: &[u8]) -> (v: Vec<u8>)
    ensures
        v@ == s@,
{
    let mut v: Vec<u8> = Vec::new();
    append_bytes(&mut v, s);
    proof {
        assert(Seq::<u8>::empty() + s@ =~= s@);
    }
    v
}

// ---------------------------------------------------------------------------
// State digests
// ---------------------------------------------------------------------------

/// The bytes hashed for a digest of messages: the UTF-8 text of their
/// hashes, one after another.
pub open spec fn hashes_bytes(hashes: Seq<Seq<char>>) -> Seq<u8>
    decreases hashes.len(),
{
    if hashes.len() == 0 {
        Seq::empty()
    } else {
        hashes_bytes(hashes.drop_last()) + encode_utf8(hashes.last())
    }
}

/// A digest of a state: a hash, when it was taken, and how many messages it
/// covers.
#[derive(Debug, PartialEq)]
pub struct StateDigest {
    pub hash: String,
    /// Nanoseconds since the Unix epoch (UTC).
    pub timestamp: i64,
    pub message_count: u64,
}

impl StateDigest {
    /// A digest with `hash` covering `message_count` messages, taken now.
    pub fn new(hash: String, message_count: u64) -> (d: StateDigest)
        ensures
            d.hash@ == hash@,
            d.message_count == message_count,
    {
        StateDigest { hash, timestamp: current_timestamp(), message_count }
    }

    /// The digest of `messages`: the SHA-256 hex digest of their hashes'
    /// text, one after another, covering all of them.
    pub fn from_messages(messages: &[SharedMessage]) -> (d: StateDigest)
        ensures
            d.hash@ == sha256_hex_bytes(hashes_bytes(Seq::new(messages@.len(), |i: int| messages@[i].hash@))),
            d.message_count == messages@.len(),
    {
        let ghost hs = Seq::new(messages@.len(), |i: int| messages@[i].hash@);
        let mut bytes: Vec<u8> = Vec::new();
        let mut i: usize = 0;
        while i < messages.len()
            invariant
                i <= messages@.len(),
                hs == Seq::new(messages@.len(), |i: int| messages@[i].hash@),
                bytes@ == hashes_bytes(hs.take(i as int)),
            decreases messages@.len() - i,
        {
            append_bytes(&mut bytes, messages[i].hash.as_str().as_bytes());
            proof {
                assert(hs.take(i + 1).drop_last() =~= hs.take(i as int));
                assert(hs.take(i + 1).last() == messages@[i as int].hash@);
            }
            i += 1;
        }
        proof {
            assert(hs.take(i as int) =~= hs);
        }
        let hash = sha256_hex_of_bytes(bytes.as_slice());
        StateDigest::new(hash, messages.len() as u64)
    }
}

} // verus!
