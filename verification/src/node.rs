//! The decisions of a node: its configuration and builder, its peer book
//! (peers and banned addresses), the in-process registry of local nodes, and
//! what it does with each message that arrives or is created. Sockets,
//! timers and serialization belong to the caller, which performs the actions
//! returned here.

use vstd::prelude::*;
use std::collections::HashMap;
use vstd::std_specs::iter::IteratorSpec;
use crate::byte_map::ByteMap;
use crate::error::{ChaincraftError, NetworkError};
use crate::json::{JsonValue, Json, json_get_str, json_string, entry_models_of, lemma_entry_models_of, json_object};
use crate::nat_traversal::NatTraversalConfig;
use crate::net::{NetAddr, TimeSpan};
use crate::shared::{MessageType, MessageKind, SharedMessage, PeerId, kind_from_data_type, copy_bytes, is_v4_uuid};
use crate::shared_object::{ApplicationObject, ApplicationObjectRegistry, ids_of, all_accept, rejected_at, pipeline_run};
use crate::state_memento::MementoModel;
use crate::text::{copy_str, str_equal, contains_str, views_of};

verus! {

broadcast use vstd::string::group_string_axioms;

// ---------------------------------------------------------------------------
// Configuration and builder
// ---------------------------------------------------------------------------

/// Default network port of a node.
pub const DEFAULT_PORT: u16 = 8080;

/// Most peers a node connects to by default.
pub const DEFAULT_MAX_PEERS: usize = 10;

/// Default interval between gossip rounds, in milliseconds.
pub const DEFAULT_GOSSIP_INTERVAL_MS: u64 = 500;

/// The settings of a node.
pub struct NodeConfig {
    /// The most peers to connect to.
    pub max_peers: usize,
    /// The port to listen on.
    pub port: u16,
    /// The host to bind on.
    pub host: String,
    /// Whether the node takes part in consensus.
    pub consensus_enabled: bool,
    /// Whether peers in the same process are discovered.
    pub local_discovery: bool,
    /// Whether peers are saved to storage and loaded on start.
    pub persist_peers: bool,
    /// The NAT traversal settings.
    pub nat_traversal: NatTraversalConfig,
}

impl NodeConfig {
    /// Whether this is the default configuration: 10 peers, port 8080, host
    /// 127.0.0.1, consensus, local discovery and peer persistence on, and
    /// the default NAT traversal settings.
    pub open spec fn is_default(&self) -> bool {
        &&& self.max_peers == DEFAULT_MAX_PEERS
        &&& self.port == DEFAULT_PORT
        &&& self.host@ == "127.0.0.1"@
        &&& self.consensus_enabled
        &&& self.local_discovery
        &&& self.persist_peers
        &&& self.nat_traversal.discovery_timeout.total_nanos() == 5_000_000_000
        &&& self.nat_traversal.hole_punch_timeout.total_nanos() == 10_000_000_000
        &&& self.nat_traversal.keep_alive_interval.total_nanos() == 25_000_000_000
        &&& self.nat_traversal.hole_punch_attempts == 5
        &&& self.nat_traversal.enabled
    }
}

impl Default for NodeConfig {
    fn default() -> (c: NodeConfig)
        ensures
            c.is_default(),
    {
        NodeConfig {
            max_peers: DEFAULT_MAX_PEERS,
            port: DEFAULT_PORT,
            host: copy_str("127.0.0.1"),
            consensus_enabled: true,
            local_discovery: true,
            persist_peers: true,
            nat_traversal: NatTraversalConfig::default(),
        }
    }
}

/// A node's byte store in memory.
pub struct MemoryStorage {
    entries: ByteMap,
}

impl View for MemoryStorage {
    type V = Map<Seq<char>, Seq<u8>>;

    closed spec fn view(&self) -> Map<Seq<char>, Seq<u8>> {
        self.entries@
    }
}

impl MemoryStorage {
    pub closed spec fn wf(&self) -> bool {
        self.entries.wf()
    }

    /// An empty store.
    pub fn new() -> (s: MemoryStorage)
        ensures
            s.wf(),
            s@ == Map::<Seq<char>, Seq<u8>>::empty(),
    {
        MemoryStorage { entries: ByteMap::new() }
    }

    /// The bytes under `key`.
    pub fn get(&self, key: &str) -> (r: Option<&Vec<u8>>)
        requires
            self.wf(),
        ensures
            match r {
                Some(v) => self@.dom().contains(key@) && self@[key@] == v@,
                None => !self@.dom().contains(key@),
            },
    {
        self.entries.get(key)
    }

    /// Stores `value` under `key`.
    pub fn put(&mut self, key: &str, value: Vec<u8>)
        requires
            old(self).wf(),
        ensures
            final(self).wf(),
            final(self)@ == old(self)@.insert(key@, value@),
    {
        self.entries.insert(copy_str(key), value);
    }

    pub fn contains(&self, key: &str) -> (r: bool)
        requires
            self.wf(),
        ensures
            r == self@.dom().contains(key@),
    {
        self.entries.contains_key(key)
    }

    pub fn delete(&mut self, key: &str)
        requires
            old(self).wf(),
        ensures
            final(self).wf(),
            final(self)@ == old(self)@.remove(key@),
    {
        self.entries.remove(key);
    }

    /// The number of keys.
    pub fn len(&self) -> (n: usize)
        requires
            self.wf(),
        ensures
            n == self@.dom().len(),
    {
        self.entries.len()
    }
}

/// What a builder produces: the node's identifier, store and settings.
pub struct NodeParts {
    pub id: PeerId,
    pub storage: MemoryStorage,
    pub config: NodeConfig,
}

/// Builds a node's identifier, store and settings step by step.
pub struct ChaincraftNodeBuilder {
    id: Option<PeerId>,
    storage: Option<MemoryStorage>,
    config: NodeConfig,
    persistent: bool,
}

impl ChaincraftNodeBuilder {
    pub closed spec fn spec_id(&self) -> Option<PeerId> {
        self.id
    }

    pub closed spec fn spec_storage(&self) -> Option<MemoryStorage> {
        self.storage
    }

    pub closed spec fn spec_config(&self) -> NodeConfig {
        self.config
    }

    pub closed spec fn spec_persistent(&self) -> bool {
        self.persistent
    }

    /// A builder with no identifier or store chosen, the default settings
    /// and no persistence.
    pub fn new() -> (b: ChaincraftNodeBuilder)
        ensures
            b.spec_id() is None,
            b.spec_storage() is None,
            b.spec_config().is_default(),
            !b.spec_persistent(),
    {
        ChaincraftNodeBuilder { id: None, storage: None, config: NodeConfig::default(), persistent: false }
    }

    pub fn with_id(self, id: PeerId) -> (b: ChaincraftNodeBuilder)
        ensures
            b.spec_id() == Some(id),
            b.spec_storage() == self.spec_storage(),
            b.spec_config() == self.spec_config(),
            b.spec_persistent() == self.spec_persistent(),
    {
        ChaincraftNodeBuilder { id: Some(id), ..self }
    }

    pub fn with_storage(self, storage: MemoryStorage) -> (b: ChaincraftNodeBuilder)
        ensures
            b.spec_id() == self.spec_id(),
            b.spec_storage() == Some(storage),
            b.spec_config() == self.spec_config(),
            b.spec_persistent() == self.spec_persistent(),
    {
        ChaincraftNodeBuilder { storage: Some(storage), ..self }
    }

    pub fn with_persistent_storage(self, persistent: bool) -> (b: ChaincraftNodeBuilder)
        ensures
            b.spec_id() == self.spec_id(),
            b.spec_storage() == self.spec_storage(),
            b.spec_config() == self.spec_config(),
            b.spec_persistent() == persistent,
    {
        ChaincraftNodeBuilder { persistent, ..self }
    }

    pub fn with_config(self, config: NodeConfig) -> (b: ChaincraftNodeBuilder)
        ensures
            b.spec_id() == self.spec_id(),
            b.spec_storage() == self.spec_storage(),
            b.spec_config() == config,
            b.spec_persistent() == self.spec_persistent(),
    {
        ChaincraftNodeBuilder { config, ..self }
    }

    pub fn port(self, port: u16) -> (b: ChaincraftNodeBuilder)
        ensures
            b.spec_id() == self.spec_id(),
            b.spec_storage() == self.spec_storage(),
            b.spec_config() == (NodeConfig { port, ..self.spec_config() }),
            b.spec_persistent() == self.spec_persistent(),
    {
        let mut b = self;
        b.config.port = port;
        b
    }

    pub fn host(self, host: &str) -> (b: ChaincraftNodeBuilder)
        ensures
            b.spec_id() == self.spec_id(),
            b.spec_storage() == self.spec_storage(),
            b.spec_config().host@ == host@,
            b.spec_config().port == self.spec_config().port,
            b.spec_config().max_peers == self.spec_config().max_peers,
            b.spec_config().consensus_enabled == self.spec_config().consensus_enabled,
            b.spec_config().local_discovery == self.spec_config().local_discovery,
            b.spec_config().persist_peers == self.spec_config().persist_peers,
            b.spec_config().nat_traversal == self.spec_config().nat_traversal,
            b.spec_persistent() == self.spec_persistent(),
    {
        let mut b = self;
        b.config.host = copy_str(host);
        b
    }

    pub fn local_discovery(self, enabled: bool) -> (b: ChaincraftNodeBuilder)
        ensures
            b.spec_id() == self.spec_id(),
            b.spec_storage() == self.spec_storage(),
            b.spec_config() == (NodeConfig { local_discovery: enabled, ..self.spec_config() }),
            b.spec_persistent() == self.spec_persistent(),
    {
        let mut b = self;
        b.config.local_discovery = enabled;
        b
    }

    pub fn persist_peers(self, enabled: bool) -> (b: ChaincraftNodeBuilder)
        ensures
            b.spec_id() == self.spec_id(),
            b.spec_storage() == self.spec_storage(),
            b.spec_config() == (NodeConfig { persist_peers: enabled, ..self.spec_config() }),
            b.spec_persistent() == self.spec_persistent(),
    {
        let mut b = self;
        b.config.persist_peers = enabled;
        b
    }

    pub fn max_peers(self, max_peers: usize) -> (b: ChaincraftNodeBuilder)
        ensures
            b.spec_id() == self.spec_id(),
            b.spec_storage() == self.spec_storage(),
            b.spec_config() == (NodeConfig { max_peers, ..self.spec_config() }),
            b.spec_persistent() == self.spec_persistent(),
    {
        let mut b = self;
        b.config.max_peers = max_peers;
        b
    }

    pub fn nat_traversal(self, enabled: bool) -> (b: ChaincraftNodeBuilder)
        ensures
            b.spec_id() == self.spec_id(),
            b.spec_storage() == self.spec_storage(),
            b.spec_config() == (NodeConfig {
                nat_traversal: NatTraversalConfig { enabled, ..self.spec_config().nat_traversal },
                ..self.spec_config()
            }),
            b.spec_persistent() == self.spec_persistent(),
    {
        let mut b = self;
        b.config.nat_traversal.enabled = enabled;
        b
    }

    pub fn with_nat_traversal_config(self, config: NatTraversalConfig) -> (b: ChaincraftNodeBuilder)
        ensures
            b.spec_id() == self.spec_id(),
            b.spec_storage() == self.spec_storage(),
            b.spec_config() == (NodeConfig { nat_traversal: config, ..self.spec_config() }),
            b.spec_persistent() == self.spec_persistent(),
    {
        let mut b = self;
        b.config.nat_traversal = config;
        b
    }

    /// The node's parts: the chosen identifier (a fresh random one when
    /// none was chosen), the chosen store (an empty in-memory one when none
    /// was chosen; persistence also uses memory), and the settings.
    pub fn build(self) -> (p: NodeParts)
        requires
            self.spec_storage() matches Some(s) ==> s.wf(),
        ensures
            self.spec_id() matches Some(id) ==> p.id == id,
            self.spec_id() is None ==> is_v4_uuid(p.id.0),
            p.storage.wf(),
            p.storage@ == match self.spec_storage() {
                Some(s) => s@,
                None => Map::<Seq<char>, Seq<u8>>::empty(),
            },
            p.config == self.spec_config(),
    {
        let id = match self.id {
            Some(id) => id,
            None => PeerId::new(),
        };
        let storage = match self.storage {
            Some(s) => s,
            None => MemoryStorage::new(),
        };
        NodeParts { id, storage, config: self.config }
    }
}

impl Default for ChaincraftNodeBuilder {
    fn default() -> (b: ChaincraftNodeBuilder)
        ensures
            b.spec_id() is None,
            b.spec_storage() is None,
            b.spec_config().is_default(),
            !b.spec_persistent(),
    {
        ChaincraftNodeBuilder::new()
    }
}

// ---------------------------------------------------------------------------
// Local discovery registry
// ---------------------------------------------------------------------------

/// The nodes running in this process, by identifier.
pub struct LocalNodeRegistry {
    entries: Vec<(PeerId, NetAddr)>,
}

impl View for LocalNodeRegistry {
    type V = Seq<(PeerId, NetAddr)>;

    closed spec fn view(&self) -> Seq<(PeerId, NetAddr)> {
        self.entries@
    }
}

/// No identifier is registered twice.
pub open spec fn local_ids_unique(s: Seq<(PeerId, NetAddr)>) -> bool {
    forall|i: int, j: int| 0 <= i < s.len() && 0 <= j < s.len() && i != j ==> #[trigger] s[i].0 != #[trigger] s[j].0
}

/// The entries other than those of `id`.
pub open spec fn without_id(s: Seq<(PeerId, NetAddr)>, id: PeerId) -> Seq<(PeerId, NetAddr)> {
    s.filter(|e: (PeerId, NetAddr)| e.0 != id)
}

impl LocalNodeRegistry {
    pub fn new() -> (r: LocalNodeRegistry)
        ensures
            r@ == Seq::<(PeerId, NetAddr)>::empty(),
    {
        LocalNodeRegistry { entries: Vec::new() }
    }

    fn remove_id(&mut self, id: PeerId)
        ensures
            final(self)@ == without_id(old(self)@, id),
            local_ids_unique(old(self)@) ==> local_ids_unique(final(self)@),
    {
        let ghost before = self.entries@;
        let mut kept: Vec<(PeerId, NetAddr)> = Vec::new();
        let mut i: usize = 0;
        while i < self.entries.len()
            invariant
                i <= self.entries@.len(),
                self.entries@ == before,
                kept@ == without_id(before.take(i as int), id),
            decreases self.entries@.len() - i,
        {
            proof {
                assert(before.take(i + 1).drop_last() =~= before.take(i as int));
                reveal(Seq::filter);
            }
            let e = self.entries[i];
            if e.0.0 != id.0 {
                kept.push(e);
            }
            i += 1;
        }
        proof {
            assert(before.take(i as int) =~= before);
            if local_ids_unique(before) {
                lemma_without_id_unique(before, id);
            }
        }
        self.entries = kept;
    }

    /// Registers (or moves) the node `id` at `addr`.
    pub fn register(&mut self, id: PeerId, addr: NetAddr)
        requires
            local_ids_unique(old(self)@),
        ensures
            local_ids_unique(final(self)@),
            final(self)@ == without_id(old(self)@, id).push((id, addr)),
    {
        self.remove_id(id);
        let ghost mid = self.entries@;
        self.entries.push((id, addr));
        proof {
            lemma_without_id_unique(old(self)@, id);
            assert forall|i: int, j: int| 0 <= i < self.entries@.len() && 0 <= j < self.entries@.len() && i != j
                implies #[trigger] self.entries@[i].0 != #[trigger] self.entries@[j].0 by {
                if i < mid.len() && j < mid.len() {
                } else if i < mid.len() {
                    assert(mid.contains(mid[i]));
                } else {
                    assert(mid.contains(mid[j]));
                }
            }
        }
    }

    /// A copy of the entries.
    pub fn snapshot(&self) -> (v: Vec<(PeerId, NetAddr)>)
        ensures
            v@ == self@,
    {
        let mut out: Vec<(PeerId, NetAddr)> = Vec::new();
        let mut i: usize = 0;
        while i < self.entries.len()
            invariant
                i <= self.entries@.len(),
                out@ == self.entries@.take(i as int),
            decreases self.entries@.len() - i,
        {
            out.push(self.entries[i]);
            proof {
                assert(self.entries@.take(i + 1) =~= self.entries@.take(i as int).push(self.entries@[i as int]));
            }
            i += 1;
        }
        proof {
            assert(self.entries@.take(i as int) =~= self.entries@);
        }
        out
    }
}

proof fn lemma_without_id_unique(s: Seq<(PeerId, NetAddr)>, id: PeerId)
    requires
        local_ids_unique(s),
    ensures
        local_ids_unique(without_id(s, id)),
        forall|e: (PeerId, NetAddr)| #[trigger] without_id(s, id).contains(e) ==> s.contains(e) && e.0 != id,
    decreases s.len(),
{
    reveal(Seq::filter);
    if s.len() > 0 {
        let t = s.drop_last();
        assert(local_ids_unique(t)) by {
            assert forall|i: int, j: int| 0 <= i < t.len() && 0 <= j < t.len() && i != j implies #[trigger] t[i].0 != #[trigger] t[j].0 by {
                assert(t[i] == s[i]);
                assert(t[j] == s[j]);
            }
        }
        lemma_without_id_unique(t, id);
        let f = without_id(t, id);
        assert forall|e: (PeerId, NetAddr)| #[trigger] without_id(s, id).contains(e) implies s.contains(e) && e.0 != id by {
            if f.contains(e) {
                let m = choose|m: int| 0 <= m < t.len() && #[trigger] t[m] == e;
                assert(s[m] == e);
            } else {
                let k = choose|k: int| 0 <= k < without_id(s, id).len() && without_id(s, id)[k] == e;
                assert(s[s.len() - 1] == e);
            }
        }
        if s.last().0 != id {
            let g = f.push(s.last());
            assert forall|i: int, j: int| 0 <= i < g.len() && 0 <= j < g.len() && i != j implies #[trigger] g[i].0 != #[trigger] g[j].0 by {
                if i == g.len() - 1 || j == g.len() - 1 {
                    let k = if i == g.len() - 1 { j } else { i };
                    assert(f.contains(f[k]));
                    let m = choose|m: int| 0 <= m < t.len() && #[trigger] t[m] == f[k];
                    assert(s[m] == t[m]);
                }
            }
        }
    }
}

/// Removes the node `id` from the local registry.
pub fn unregister_local_node(registry: &mut LocalNodeRegistry, id: &PeerId)
    ensures
        final(registry)@ == without_id(old(registry)@, *id),
        local_ids_unique(old(registry)@) ==> local_ids_unique(final(registry)@),
{
    registry.remove_id(*id);
}

/// Removes every node from the local registry.
pub fn clear_local_registry(registry: &mut LocalNodeRegistry)
    ensures
        final(registry)@ == Seq::<(PeerId, NetAddr)>::empty(),
{
    registry.entries.clear();
}

// ---------------------------------------------------------------------------
// Peer book
// ---------------------------------------------------------------------------

/// A known peer.
#[derive(PartialEq, Eq, Structural, Clone, Copy, Debug)]
pub struct PeerInfo {
    pub id: PeerId,
    pub address: NetAddr,
}

impl PeerInfo {
    pub fn new(id: PeerId, address: NetAddr) -> (p: PeerInfo)
        ensures
            p.id == id,
            p.address == address,
    {
        PeerInfo { id, address }
    }
}

/// How long a ban reported in an error lasts: ten years of 365 days, in
/// nanoseconds.
pub open spec fn ban_span() -> int {
    315_360_000_000_000_000int
}

/// Some peer has address `addr`.
pub open spec fn has_address(peers: Map<u128, PeerInfo>, addr: NetAddr) -> bool {
    exists|k: u128| #[trigger] peers.contains_key(k) && peers[k].address == addr
}

/// The peers after a sender at `addr` is recorded under `fresh` (unless a
/// peer with that address is known).
pub open spec fn with_sender(peers: Map<u128, PeerInfo>, addr: NetAddr, fresh: PeerId) -> Map<u128, PeerInfo> {
    if has_address(peers, addr) {
        peers
    } else {
        peers.insert(fresh.0, PeerInfo { id: fresh, address: addr })
    }
}

/// The bans as a map from each banned address to when its ban expires.
pub open spec fn bans_map(s: Seq<(NetAddr, i64)>) -> Map<NetAddr, i64> {
    Map::new(
        |a: NetAddr| exists|i: int| 0 <= i < s.len() && (#[trigger] s[i]).0 == a,
        |a: NetAddr| s[choose|i: int| 0 <= i < s.len() && (#[trigger] s[i]).0 == a].1,
    )
}

/// No address is listed twice.
pub open spec fn addrs_unique(s: Seq<(NetAddr, i64)>) -> bool {
    forall|i: int, j: int| 0 <= i < s.len() && 0 <= j < s.len() && i != j ==> (#[trigger] s[i]).0 != (#[trigger] s[j]).0
}

/// The bans that outlast `now`: those expiring after it.
pub open spec fn bans_after(bans: Map<NetAddr, i64>, now: i64) -> Map<NetAddr, i64> {
    Map::new(|a: NetAddr| bans.contains_key(a) && bans[a] > now, |a: NetAddr| bans[a])
}

/// Whether a ban entry stays: it is not for `addr` (when given) and expires
/// after `now` (when given).
pub open spec fn ban_kept(e: (NetAddr, i64), addr: Option<NetAddr>, now: Option<i64>) -> bool {
    &&& !(addr == Some(e.0))
    &&& match now {
        Some(t) => e.1 > t,
        None => true,
    }
}

proof fn lemma_bans_map_at(s: Seq<(NetAddr, i64)>, i: int)
    requires
        addrs_unique(s),
        0 <= i < s.len(),
    ensures
        bans_map(s).contains_key(s[i].0),
        bans_map(s)[s[i].0] == s[i].1,
{
    let a = s[i].0;
    assert(exists|j: int| 0 <= j < s.len() && (#[trigger] s[j]).0 == a);
    let j = choose|j: int| 0 <= j < s.len() && (#[trigger] s[j]).0 == a;
    if j != i {
        assert(s[j].0 != s[i].0);
    }
}

/// Entry `e` is one of the first `i` entries of `v` and is kept.
pub open spec fn kept_before(v: Seq<(NetAddr, i64)>, e: (NetAddr, i64), i: int, addr: Option<NetAddr>, now: Option<i64>) -> bool {
    exists|j: int| 0 <= j < i && #[trigger] v[j] == e && ban_kept(e, addr, now)
}

/// Entry `e` occurs in `out`.
pub open spec fn listed(out: Seq<(NetAddr, i64)>, e: (NetAddr, i64)) -> bool {
    exists|k: int| 0 <= k < out.len() && #[trigger] out[k] == e
}

/// The entries of `v` that `ban_kept` keeps, in order.
fn keep_bans(v: &Vec<(NetAddr, i64)>, addr: Option<NetAddr>, now: Option<i64>) -> (out: Vec<(NetAddr, i64)>)
    requires
        addrs_unique(v@),
    ensures
        addrs_unique(out@),
        bans_map(out@) == Map::new(
            |a: NetAddr| bans_map(v@).contains_key(a) && ban_kept((a, bans_map(v@)[a]), addr, now),
            |a: NetAddr| bans_map(v@)[a],
        ),
{
    let mut out: Vec<(NetAddr, i64)> = Vec::new();
    let mut i: usize = 0;
    while i < v.len()
        invariant
            i <= v@.len(),
            addrs_unique(v@),
            addrs_unique(out@),
            forall|k: int| 0 <= k < out@.len() ==> #[trigger] kept_before(v@, out@[k], i as int, addr, now),
            forall|j: int| 0 <= j < i && ban_kept(v@[j], addr, now) ==> #[trigger] listed(out@, v@[j]),
        decreases v@.len() - i,
    {
        let e = v[i];
        let keep_addr: bool = match addr {
            Some(a) => !(a == e.0),
            None => true,
        };
        let keep_time: bool = match now {
            Some(t) => e.1 > t,
            None => true,
        };
        let ghost o = out@;
        if keep_addr && keep_time {
            out.push(e);
            proof {
                assert(ban_kept(e, addr, now));
                assert forall|p: int, q: int| 0 <= p < out@.len() && 0 <= q < out@.len() && p != q implies (#[trigger] out@[p]).0 != (#[trigger] out@[q]).0 by {
                    if p < o.len() && q < o.len() {
                        assert(o[p] == out@[p] && o[q] == out@[q]);
                    } else if p < o.len() {
                        assert(kept_before(v@, o[p], i as int, addr, now));
                        let j = choose|j: int| 0 <= j < i && #[trigger] v@[j] == o[p] && ban_kept(o[p], addr, now);
                        assert(v@[j].0 != v@[i as int].0);
                    } else {
                        assert(kept_before(v@, o[q], i as int, addr, now));
                        let j = choose|j: int| 0 <= j < i && #[trigger] v@[j] == o[q] && ban_kept(o[q], addr, now);
                        assert(v@[j].0 != v@[i as int].0);
                    }
                }
                assert forall|k: int| 0 <= k < out@.len() implies #[trigger] kept_before(v@, out@[k], i + 1, addr, now) by {
                    if k < o.len() {
                        assert(o[k] == out@[k]);
                        assert(kept_before(v@, o[k], i as int, addr, now));
                        let j = choose|j: int| 0 <= j < i && #[trigger] v@[j] == o[k] && ban_kept(o[k], addr, now);
                        assert(v@[j] == out@[k]);
                    } else {
                        assert(v@[i as int] == out@[k]);
                    }
                }
                assert forall|j: int| 0 <= j < i + 1 && ban_kept(v@[j], addr, now) implies #[trigger] listed(out@, v@[j]) by {
                    if j < i {
                        assert(listed(o, v@[j]));
                        let k = choose|k: int| 0 <= k < o.len() && #[trigger] o[k] == v@[j];
                        assert(out@[k] == o[k]);
                    } else {
                        assert(out@[o.len() as int] == v@[j]);
                    }
                }
            }
        } else {
            proof {
                assert(!ban_kept(e, addr, now));
                assert forall|k: int| 0 <= k < out@.len() implies #[trigger] kept_before(v@, out@[k], i + 1, addr, now) by {
                    assert(kept_before(v@, out@[k], i as int, addr, now));
                    let j = choose|j: int| 0 <= j < i && #[trigger] v@[j] == out@[k] && ban_kept(out@[k], addr, now);
                }
            }
        }
        i += 1;
    }
    proof {
        let target = Map::new(
            |a: NetAddr| bans_map(v@).contains_key(a) && ban_kept((a, bans_map(v@)[a]), addr, now),
            |a: NetAddr| bans_map(v@)[a],
        );
        assert forall|a: NetAddr| #[trigger] bans_map(out@).contains_key(a) <==> target.contains_key(a) by {
            if bans_map(out@).contains_key(a) {
                let k = choose|k: int| 0 <= k < out@.len() && (#[trigger] out@[k]).0 == a;
                assert(kept_before(v@, out@[k], v@.len() as int, addr, now));
                let j = choose|j: int| 0 <= j < v@.len() && #[trigger] v@[j] == out@[k] && ban_kept(out@[k], addr, now);
                lemma_bans_map_at(v@, j);
            }
            if target.contains_key(a) {
                let j = choose|j: int| 0 <= j < v@.len() && (#[trigger] v@[j]).0 == a;
                lemma_bans_map_at(v@, j);
                assert(listed(out@, v@[j]));
                let k = choose|k: int| 0 <= k < out@.len() && #[trigger] out@[k] == v@[j];
                assert(out@[k].0 == a);
            }
        }
        assert forall|a: NetAddr| #[trigger] bans_map(out@).contains_key(a) implies bans_map(out@)[a] == target[a] by {
            let k = choose|k: int| 0 <= k < out@.len() && (#[trigger] out@[k]).0 == a;
            lemma_bans_map_at(out@, k);
            assert(kept_before(v@, out@[k], v@.len() as int, addr, now));
            let j = choose|j: int| 0 <= j < v@.len() && #[trigger] v@[j] == out@[k] && ban_kept(out@[k], addr, now);
            lemma_bans_map_at(v@, j);
        }
        assert(bans_map(out@) =~= target);
    }
    out
}

/// When a ban made at `now` (nanoseconds since the Unix epoch) for
/// `duration` ends: `now + duration`, or ten years on without a duration,
/// saturating at the largest time.
pub open spec fn ban_end(now: i64, duration: Option<TimeSpan>) -> int {
    let span: int = match duration {
        Some(d) => d.total_nanos(),
        None => ban_span(),
    };
    if now + span <= i64::MAX { now + span } else { i64::MAX as int }
}

/// Computes `ban_end(now, duration)`.
pub fn ban_expiry(now: i64, duration: Option<TimeSpan>) -> (e: i64)
    ensures
        e == ban_end(now, duration),
{
    let span: u128 = match duration {
        Some(d) => d.as_nanos(),
        None => 315_360_000_000_000_000u128,
    };
    let room: u128 = ((i64::MAX as i128) - (now as i128)) as u128;
    if span <= room {
        ((now as i128) + (span as i128)) as i64
    } else {
        i64::MAX
    }
}

/// The peers of a node by identifier, and the addresses it has banned,
/// each with when its ban expires (nanoseconds since the Unix epoch).
pub struct PeerBook {
    peers: HashMap<u128, PeerInfo>,
    bans: Vec<(NetAddr, i64)>,
}

impl PeerBook {
    /// The peers by identifier value.
    pub closed spec fn spec_peers(&self) -> Map<u128, PeerInfo> {
        self.peers@
    }

    /// The bans: each banned address with when its ban expires.
    pub closed spec fn spec_bans(&self) -> Map<NetAddr, i64> {
        bans_map(self.bans@)
    }

    /// The banned addresses.
    pub open spec fn spec_banned(&self) -> Set<NetAddr> {
        self.spec_bans().dom()
    }

    /// Every peer is stored under its own identifier, and no address is
    /// banned twice.
    pub closed spec fn wf(&self) -> bool {
        &&& forall|k: u128| #[trigger] self.peers@.contains_key(k) ==> self.peers@[k].id.0 == k
        &&& addrs_unique(self.bans@)
    }

    /// An empty book.
    pub fn new() -> (b: PeerBook)
        ensures
            b.wf(),
            b.spec_peers() == Map::<u128, PeerInfo>::empty(),
            b.spec_banned() == Set::<NetAddr>::empty(),
    {
        let b = PeerBook { peers: HashMap::new(), bans: Vec::new() };
        proof {
            assert(bans_map(b.bans@).dom() =~= Set::<NetAddr>::empty());
        }
        b
    }

    /// Whether `addr` is banned.
    pub fn is_banned(&self, addr: NetAddr) -> (r: bool)
        requires
            self.wf(),
        ensures
            r == self.spec_banned().contains(addr),
    {
        match self.ban_position(addr) {
            Some(_) => true,
            None => false,
        }
    }

    /// Where `addr` stands in the ban list.
    fn ban_position(&self, addr: NetAddr) -> (r: Option<usize>)
        requires
            self.wf(),
        ensures
            match r {
                Some(i) => i < self.bans@.len() && self.bans@[i as int].0 == addr && self.spec_bans().contains_key(addr)
                    && self.spec_bans()[addr] == self.bans@[i as int].1,
                None => !self.spec_bans().contains_key(addr),
            },
    {
        let mut i: usize = 0;
        while i < self.bans.len()
            invariant
                i <= self.bans@.len(),
                self.wf(),
                forall|j: int| 0 <= j < i ==> (#[trigger] self.bans@[j]).0 != addr,
            decreases self.bans@.len() - i,
        {
            if self.bans[i].0 == addr {
                proof {
                    lemma_bans_map_at(self.bans@, i as int);
                }
                return Some(i);
            }
            i += 1;
        }
        None
    }

    /// Adds `peer`, replacing the peer with its identifier; fails, changing
    /// nothing, when its address is banned (the error reports a ban of ten
    /// years from `now`, nanoseconds since the Unix epoch).
    pub fn add_peer(&mut self, peer: PeerInfo, now: i64) -> (r: Result<(), ChaincraftError>)
        requires
            old(self).wf(),
        ensures
            final(self).wf(),
            final(self).spec_banned() == old(self).spec_banned(),
            old(self).spec_banned().contains(peer.address) ==> {
                &&& r matches Err(ChaincraftError::Network(NetworkError::PeerBanned { addr, expires_at }))
                    && addr == peer.address
                    && expires_at == (if now + ban_span() <= i64::MAX { now + ban_span() } else { i64::MAX as int })
                &&& final(self).spec_peers() == old(self).spec_peers()
            },
            !old(self).spec_banned().contains(peer.address) ==> {
                &&& r is Ok
                &&& final(self).spec_peers() == old(self).spec_peers().insert(peer.id.0, peer)
            },
    {
        if self.is_banned(peer.address) {
            let expires_at: i64 = if now <= i64::MAX - 315_360_000_000_000_000i64 {
                now + 315_360_000_000_000_000i64
            } else {
                i64::MAX
            };
            return Err(ChaincraftError::Network(NetworkError::PeerBanned { addr: peer.address, expires_at }));
        }
        self.peers.insert(peer.id.0, peer);
        Ok(())
    }

    /// Removes the peer `id`.
    pub fn remove_peer(&mut self, id: &PeerId)
        requires
            old(self).wf(),
        ensures
            final(self).wf(),
            final(self).spec_peers() == old(self).spec_peers().remove(id.0),
            final(self).spec_banned() == old(self).spec_banned(),
    {
        self.peers.remove(&id.0);
    }

    /// Bans `addr` until `expires_at` (a ban already there gets the new
    /// expiry).
    pub fn ban_peer(&mut self, addr: NetAddr, expires_at: i64)
        requires
            old(self).wf(),
        ensures
            final(self).wf(),
            final(self).spec_bans() == old(self).spec_bans().insert(addr, expires_at),
            final(self).spec_peers() == old(self).spec_peers(),
    {
        let ghost before = self.bans@;
        match self.ban_position(addr) {
            Some(i) => {
                self.bans.set(i, (addr, expires_at));
                proof {
                    let after = self.bans@;
                    assert(addrs_unique(after)) by {
                        assert forall|p: int, q: int| 0 <= p < after.len() && 0 <= q < after.len() && p != q implies (#[trigger] after[p]).0 != (#[trigger] after[q]).0 by {
                            assert(before[p].0 != before[q].0);
                        }
                    }
                    assert forall|x: NetAddr| #[trigger] bans_map(after).contains_key(x) <==> bans_map(before).insert(addr, expires_at).contains_key(x) by {
                        if bans_map(after).contains_key(x) {
                            let k = choose|k: int| 0 <= k < after.len() && (#[trigger] after[k]).0 == x;
                            if k != i {
                                lemma_bans_map_at(before, k);
                            }
                        }
                        if bans_map(before).contains_key(x) && x != addr {
                            let k = choose|k: int| 0 <= k < before.len() && (#[trigger] before[k]).0 == x;
                            assert(after[k].0 == x);
                        }
                        if x == addr {
                            assert(after[i as int].0 == x);
                        }
                    }
                    assert forall|x: NetAddr| #[trigger] bans_map(after).contains_key(x) implies bans_map(after)[x] == bans_map(before).insert(addr, expires_at)[x] by {
                        let k = choose|k: int| 0 <= k < after.len() && (#[trigger] after[k]).0 == x;
                        lemma_bans_map_at(after, k);
                        if k != i {
                            lemma_bans_map_at(before, k);
                        }
                    }
                    assert(bans_map(after) =~= bans_map(before).insert(addr, expires_at));
                }
            },
            None => {
                self.bans.push((addr, expires_at));
                proof {
                    let after = self.bans@;
                    let n = before.len() as int;
                    assert(addrs_unique(after)) by {
                        assert forall|p: int, q: int| 0 <= p < after.len() && 0 <= q < after.len() && p != q implies (#[trigger] after[p]).0 != (#[trigger] after[q]).0 by {
                            if p < n && q < n {
                                assert(before[p].0 != before[q].0);
                            } else if p < n {
                                lemma_bans_map_at(before, p);
                            } else {
                                lemma_bans_map_at(before, q);
                            }
                        }
                    }
                    assert forall|x: NetAddr| #[trigger] bans_map(after).contains_key(x) <==> bans_map(before).insert(addr, expires_at).contains_key(x) by {
                        if bans_map(after).contains_key(x) {
                            let k = choose|k: int| 0 <= k < after.len() && (#[trigger] after[k]).0 == x;
                            if k < n {
                                lemma_bans_map_at(before, k);
                            }
                        }
                        if bans_map(before).contains_key(x) {
                            let k = choose|k: int| 0 <= k < before.len() && (#[trigger] before[k]).0 == x;
                            assert(after[k].0 == x);
                        }
                        if x == addr {
                            assert(after[n].0 == x);
                        }
                    }
                    assert forall|x: NetAddr| #[trigger] bans_map(after).contains_key(x) implies bans_map(after)[x] == bans_map(before).insert(addr, expires_at)[x] by {
                        let k = choose|k: int| 0 <= k < after.len() && (#[trigger] after[k]).0 == x;
                        lemma_bans_map_at(after, k);
                        if k < n {
                            lemma_bans_map_at(before, k);
                        }
                    }
                    assert(bans_map(after) =~= bans_map(before).insert(addr, expires_at));
                }
            },
        }
    }

    /// Lifts the ban on `addr`.
    pub fn unban_peer(&mut self, addr: NetAddr)
        requires
            old(self).wf(),
        ensures
            final(self).wf(),
            final(self).spec_bans() == old(self).spec_bans().remove(addr),
            final(self).spec_peers() == old(self).spec_peers(),
    {
        let kept = keep_bans(&self.bans, Some(addr), None);
        proof {
            assert(bans_map(kept@) =~= bans_map(self.bans@).remove(addr));
        }
        self.bans = kept;
    }

    /// Drops the bans that have expired at `now`.
    pub fn expire_bans(&mut self, now: i64)
        requires
            old(self).wf(),
        ensures
            final(self).wf(),
            final(self).spec_bans() == bans_after(old(self).spec_bans(), now),
            final(self).spec_peers() == old(self).spec_peers(),
    {
        let kept = keep_bans(&self.bans, None, Some(now));
        proof {
            assert(bans_map(kept@) =~= bans_after(bans_map(self.bans@), now));
        }
        self.bans = kept;
    }

    /// Whether some peer has address `addr`.
    pub fn has_peer_at(&self, addr: NetAddr) -> (r: bool)
        requires
            self.wf(),
        ensures
            r == has_address(self.spec_peers(), addr),
    {
        let ghost r = vstd::std_specs::hash::spec_hash_map_iter(&self.peers).remaining();
        let mut found = false;
        for kv in it: self.peers.iter()
            invariant
                it.seq() == r,
                forall|i: int| 0 <= i < r.len() ==> self.peers@.contains_key(*r[i].0) && self.peers@[*r[i].0] == *r[i].1,
                forall|k: u128| #[trigger] self.peers@.contains_key(k) ==> r.contains((&k, &self.peers@[k])),
                found ==> has_address(self.peers@, addr),
                !found ==> forall|i: int| 0 <= i < it.index() ==> (*r[i].1).address != addr,
        {
            let (k, v) = kv;
            if v.address == addr {
                proof {
                    assert(self.peers@.contains_key(*k));
                }
                found = true;
            }
        }
        proof {
            if !found && has_address(self.peers@, addr) {
                let k = choose|k: u128| #[trigger] self.peers@.contains_key(k) && self.peers@[k].address == addr;
                assert(r.contains((&k, &self.peers@[k])));
                let i = choose|i: int| 0 <= i < r.len() && #[trigger] r[i] == (&k, &self.peers@[k]);
                assert((*r[i].1).address == addr);
            }
        }
        found
    }

    /// Records a sender at `addr` under `fresh` unless a peer with that
    /// address is known.
    pub fn record_sender(&mut self, addr: NetAddr, fresh: PeerId)
        requires
            old(self).wf(),
        ensures
            final(self).wf(),
            final(self).spec_peers() == with_sender(old(self).spec_peers(), addr, fresh),
            final(self).spec_banned() == old(self).spec_banned(),
    {
        if !self.has_peer_at(addr) {
            self.peers.insert(fresh.0, PeerInfo { id: fresh, address: addr });
        }
    }

    /// The peers, each once, in no particular order.
    pub fn peers(&self) -> (v: Vec<PeerInfo>)
        ensures
            v@.len() == self.spec_peers().dom().len(),
            v@.to_set() == self.spec_peers().values(),
    {
        let ghost r = vstd::std_specs::hash::spec_values_iter(&self.peers).remaining();
        let mut out: Vec<PeerInfo> = Vec::new();
        for p in it: self.peers.values()
            invariant
                it.seq() == r,
                out@.len() == it.index(),
                forall|i: int| 0 <= i < it.index() ==> out@[i] == *r[i],
        {
            out.push(*p);
        }
        proof {
            assert(out@ =~= r.unref());
        }
        out
    }

    /// The bans, each address once with its expiry, in the order they
    /// were made.
    pub fn banned(&self) -> (v: Vec<(NetAddr, i64)>)
        requires
            self.wf(),
        ensures
            addrs_unique(v@),
            bans_map(v@) == self.spec_bans(),
    {
        let mut out: Vec<(NetAddr, i64)> = Vec::new();
        let mut i: usize = 0;
        while i < self.bans.len()
            invariant
                i <= self.bans@.len(),
                out@ == self.bans@.take(i as int),
            decreases self.bans@.len() - i,
        {
            out.push(self.bans[i]);
            proof {
                assert(self.bans@.take(i + 1) =~= self.bans@.take(i as int).push(self.bans@[i as int]));
            }
            i += 1;
        }
        proof {
            assert(self.bans@.take(i as int) =~= self.bans@);
        }
        out
    }

    /// The addresses to broadcast to: those of the peers, unless banned.
    pub fn broadcast_targets(&self) -> (v: Vec<NetAddr>)
        requires
            self.wf(),
        ensures
            forall|a: NetAddr| #[trigger] v@.contains(a) <==> (has_address(self.spec_peers(), a) && !self.spec_banned().contains(a)),
    {
        let peers = self.peers();
        let mut out: Vec<NetAddr> = Vec::new();
        let mut i: usize = 0;
        while i < peers.len()
            invariant
                i <= peers@.len(),
                peers@.to_set() == self.spec_peers().values(),
                self.wf(),
                forall|a: NetAddr| #[trigger] out@.contains(a) <==> (exists|j: int| 0 <= j < i && peers@[j].address == a) && !self.spec_banned().contains(a),
            decreases peers@.len() - i,
        {
            let a = peers[i].address;
            if !self.is_banned(a) {
                let ghost o = out@;
                out.push(a);
                proof {
                    assert forall|x: NetAddr| #[trigger] out@.contains(x) <==> (exists|j: int| 0 <= j < i + 1 && peers@[j].address == x) && !self.spec_banned().contains(x) by {
                        if out@.contains(x) && x != a {
                            let k = choose|k: int| 0 <= k < out@.len() && #[trigger] out@[k] == x;
                            assert(o[k] == x);
                        }
                        if o.contains(x) {
                            let k = choose|k: int| 0 <= k < o.len() && #[trigger] o[k] == x;
                            assert(out@[k] == x);
                        }
                        if x == a {
                            assert(out@[o.len() as int] == x);
                        }
                    }
                }
            } else {
                proof {
                    assert forall|x: NetAddr| #[trigger] out@.contains(x) <==> (exists|j: int| 0 <= j < i + 1 && peers@[j].address == x) && !self.spec_banned().contains(x) by {
                        if (exists|j: int| 0 <= j < i + 1 && peers@[j].address == x) && !self.spec_banned().contains(x) {
                            let j = choose|j: int| 0 <= j < i + 1 && #[trigger] peers@[j].address == x;
                            assert(j < i);
                        }
                    }
                }
            }
            i += 1;
        }
        proof {
            assert forall|a: NetAddr| #[trigger] out@.contains(a) <==> (has_address(self.spec_peers(), a) && !self.spec_banned().contains(a)) by {
                if exists|j: int| 0 <= j < i && peers@[j].address == a {
                    let j = choose|j: int| 0 <= j < i && #[trigger] peers@[j].address == a;
                    assert(peers@.to_set().contains(peers@[j]));
                    assert(self.spec_peers().values().contains(peers@[j]));
                    let k = choose|k: u128| #[trigger] self.spec_peers().contains_key(k) && self.spec_peers()[k] == peers@[j];
                    assert(self.spec_peers().contains_key(k) && self.spec_peers()[k].address == a);
                }
                if has_address(self.spec_peers(), a) {
                    let k = choose|k: u128| #[trigger] self.spec_peers().contains_key(k) && self.spec_peers()[k].address == a;
                    assert(self.spec_peers().values().contains(self.spec_peers()[k]));
                    assert(peers@.to_set().contains(self.spec_peers()[k]));
                    let j = choose|j: int| 0 <= j < peers@.len() && #[trigger] peers@[j] == self.spec_peers()[k];
                    assert(peers@[j].address == a);
                }
            }
        }
        out
    }

    /// Adds the nodes registered in this process, in order, except
    /// `self_id`, banned addresses, and addresses of known peers.
    pub fn merge_local_nodes(&mut self, self_id: PeerId, local: &Vec<(PeerId, NetAddr)>)
        requires
            old(self).wf(),
        ensures
            final(self).wf(),
            final(self).spec_banned() == old(self).spec_banned(),
            final(self).spec_peers() == merged(old(self).spec_peers(), old(self).spec_banned(), self_id, local@),
    {
        let mut i: usize = 0;
        while i < local.len()
            invariant
                i <= local@.len(),
                self.wf(),
                self.spec_banned() == old(self).spec_banned(),
                self.spec_peers() == merged(old(self).spec_peers(), old(self).spec_banned(), self_id, local@.take(i as int)),
            decreases local@.len() - i,
        {
            proof {
                assert(local@.take(i + 1).drop_last() =~= local@.take(i as int));
                assert(local@.take(i + 1).last() == local@[i as int]);
            }
            let (peer_id, addr) = local[i];
            if peer_id.0 != self_id.0 && !self.is_banned(addr) && !self.has_peer_at(addr) {
                self.peers.insert(peer_id.0, PeerInfo { id: peer_id, address: addr });
            }
            i += 1;
        }
        proof {
            assert(local@.take(i as int) =~= local@);
        }
    }
}

/// The peers after the local nodes `local` are merged in, in order.
pub open spec fn merged(peers: Map<u128, PeerInfo>, banned: Set<NetAddr>, self_id: PeerId, local: Seq<(PeerId, NetAddr)>) -> Map<u128, PeerInfo>
    decreases local.len(),
{
    if local.len() == 0 {
        peers
    } else {
        let m = merged(peers, banned, self_id, local.drop_last());
        let (id, addr) = local.last();
        if id != self_id && !banned.contains(addr) && !has_address(m, addr) {
            m.insert(id.0, PeerInfo { id, address: addr })
        } else {
            m
        }
    }
}

// ---------------------------------------------------------------------------
// Message flow
// ---------------------------------------------------------------------------

/// What to do with a digest-sync control message.
pub enum SyncAction {
    /// The datagram is not a digest-sync control message.
    NotControl,
    /// Handled; nothing to send.
    Handled,
    /// Send this JSON value back to the sender.
    Reply(JsonValue),
    /// Send back, in a `MESSAGES_RESPONSE`, the messages after this digest.
    SendMessagesSince(String),
    /// Take in the messages of this `MESSAGES_RESPONSE`.
    IngestMessages,
}

/// `{"digest": d, "type": t}`.
pub open spec fn typed_digest(t: Seq<char>, d: Seq<char>) -> Json {
    Json::Obj(seq![("digest"@, Json::Str(d)), ("type"@, Json::Str(t))])
}

/// The `digest` text of a control message, or the empty text.
pub open spec fn control_digest(j: Json) -> Seq<char> {
    match json_get_str(j, "digest"@) {
        Some(d) => d,
        None => Seq::empty(),
    }
}

fn typed_digest_json(t: &str, d: &str) -> (r: JsonValue)
    ensures
        r.model() == typed_digest(t@, d@),
{
    let mut entries: Vec<(String, JsonValue)> = Vec::new();
    entries.push((copy_str("digest"), json_string(d)));
    entries.push((copy_str("type"), json_string(t)));
    proof {
        lemma_entry_models_of(entries@);
        assert(entry_models_of(entries@) =~= seq![("digest"@, Json::Str(d@)), ("type"@, Json::Str(t@))]);
    }
    json_object(entries)
}

fn digest_field(control: &JsonValue) -> (r: &str)
    ensures
        r@ == control_digest(control.model()),
{
    match control.get_str("digest") {
        Some(d) => d.as_str(),
        None => {
            proof {
                reveal_strlit("");
                assert(""@ =~= Seq::<char>::empty());
            }
            ""
        },
    }
}

/// The action for a control message, given the digest this node reports
/// (that of its first merkleized object): a digest request is answered
/// with `DIGEST_RESPONSE`; a request for messages since a digest asks for
/// those messages to be sent; a digest response that differs from ours is
/// answered with a request for the messages since ours; a messages response
/// is to be taken in; anything else is not a control message.
pub fn digest_sync_step(control: &JsonValue, our_digest: &str) -> (a: SyncAction)
    ensures
        json_get_str(control.model(), "type"@) == Some("REQUEST_DIGEST"@) ==>
            (a matches SyncAction::Reply(j) && j.model() == typed_digest("DIGEST_RESPONSE"@, our_digest@)),
        json_get_str(control.model(), "type"@) == Some("REQUEST_MESSAGES_SINCE"@) ==>
            (a matches SyncAction::SendMessagesSince(d) && d@ == control_digest(control.model())),
        json_get_str(control.model(), "type"@) == Some("DIGEST_RESPONSE"@) ==> if control_digest(control.model()) != our_digest@ {
            a matches SyncAction::Reply(j) && j.model() == typed_digest("REQUEST_MESSAGES_SINCE"@, our_digest@)
        } else {
            a is Handled
        },
        json_get_str(control.model(), "type"@) == Some("MESSAGES_RESPONSE"@) ==> a is IngestMessages,
        !(json_get_str(control.model(), "type"@) == Some("REQUEST_DIGEST"@)
            || json_get_str(control.model(), "type"@) == Some("REQUEST_MESSAGES_SINCE"@)
            || json_get_str(control.model(), "type"@) == Some("DIGEST_RESPONSE"@)
            || json_get_str(control.model(), "type"@) == Some("MESSAGES_RESPONSE"@)) ==> a is NotControl,
{
    proof {
        reveal_strlit("REQUEST_DIGEST");
        reveal_strlit("REQUEST_MESSAGES_SINCE");
        reveal_strlit("DIGEST_RESPONSE");
        reveal_strlit("MESSAGES_RESPONSE");
        assert("REQUEST_DIGEST"@.len() == 14);
        assert("REQUEST_MESSAGES_SINCE"@.len() == 22);
        assert("DIGEST_RESPONSE"@.len() == 15);
        assert("MESSAGES_RESPONSE"@.len() == 17);
    }
    let t = match control.get_str("type") {
        Some(t) => t,
        None => {
            return SyncAction::NotControl;
        },
    };
    if str_equal(t.as_str(), "REQUEST_DIGEST") {
        SyncAction::Reply(typed_digest_json("DIGEST_RESPONSE", our_digest))
    } else if str_equal(t.as_str(), "REQUEST_MESSAGES_SINCE") {
        SyncAction::SendMessagesSince(copy_str(digest_field(control)))
    } else if str_equal(t.as_str(), "DIGEST_RESPONSE") {
        if !str_equal(digest_field(control), our_digest) {
            SyncAction::Reply(typed_digest_json("REQUEST_MESSAGES_SINCE", our_digest))
        } else {
            SyncAction::Handled
        }
    } else if str_equal(t.as_str(), "MESSAGES_RESPONSE") {
        SyncAction::IngestMessages
    } else {
        SyncAction::NotControl
    }
}

/// The position of the first merkleized object, or -1.
pub open spec fn first_merkleized<T: ApplicationObject>(objs: Seq<T>) -> int
    decreases objs.len(),
{
    if objs.len() == 0 {
        -1
    } else if objs[0].merkleized_spec() {
        0
    } else {
        let r = first_merkleized(objs.drop_first());
        if r < 0 { -1 } else { r + 1 }
    }
}

/// The digest a node reports: the latest digest of its first merkleized
/// object (the empty text when there is none, or when that object fails to
/// give one).
pub fn first_merkleized_digest<T: ApplicationObject>(registry: &ApplicationObjectRegistry<T>) -> (d: String)
    requires
        registry.wf(),
    ensures
        first_merkleized(registry.spec_objects()) < 0 ==> d@.len() == 0,
        first_merkleized(registry.spec_objects()) >= 0 ==> (d@ == registry.spec_objects()[first_merkleized(registry.spec_objects())].latest_digest_spec()
            || d@.len() == 0),
{
    let objs = registry.objects();
    proof {
        assert(objs@.subrange(0, objs@.len() as int) =~= objs@);
    }
    let mut i: usize = 0;
    while i < objs.len()
        invariant
            i <= objs@.len(),
            objs@ == registry.spec_objects(),
            registry.wf(),
            forall|j: int| 0 <= j < i ==> !(#[trigger] objs@[j]).merkleized_spec(),
            first_merkleized(objs@) == first_merkleized(objs@.subrange(i as int, objs@.len() as int)) + (if first_merkleized(objs@.subrange(i as int, objs@.len() as int)) < 0 { 0 } else { i as int }) ,
        decreases objs@.len() - i,
    {
        proof {
            registry.lemma_inv_at(i as int);
        }
        if objs[i].is_merkleized() {
            proof {
                let rest = objs@.subrange(i as int, objs@.len() as int);
                assert(rest[0] == objs@[i as int]);
            }
            return match objs[i].get_latest_digest() {
                Ok(d) => d,
                Err(_) => String::new(),
            };
        }
        proof {
            let rest = objs@.subrange(i as int, objs@.len() as int);
            assert(rest.drop_first() =~= objs@.subrange(i + 1, objs@.len() as int));
        }
        i += 1;
    }
    proof {
        assert(objs@.subrange(i as int, objs@.len() as int).len() == 0);
    }
    String::new()
}

/// The messages after `since` of the first merkleized object (none when
/// there is none, or when that object fails to give them).
pub fn first_merkleized_messages_since<T: ApplicationObject>(registry: &ApplicationObjectRegistry<T>, since: &str) -> (v: Vec<SharedMessage>)
    requires
        registry.wf(),
    ensures
        first_merkleized(registry.spec_objects()) < 0 ==> v@.len() == 0,
        first_merkleized(registry.spec_objects()) >= 0 ==> (registry.spec_objects()[first_merkleized(registry.spec_objects())].messages_since_ok(since@, v@)
            || v@.len() == 0),
{
    let objs = registry.objects();
    proof {
        assert(objs@.subrange(0, objs@.len() as int) =~= objs@);
    }
    let mut i: usize = 0;
    while i < objs.len()
        invariant
            i <= objs@.len(),
            objs@ == registry.spec_objects(),
            registry.wf(),
            first_merkleized(objs@) == first_merkleized(objs@.subrange(i as int, objs@.len() as int)) + (if first_merkleized(objs@.subrange(i as int, objs@.len() as int)) < 0 { 0 } else { i as int }) ,
        decreases objs@.len() - i,
    {
        proof {
            registry.lemma_inv_at(i as int);
        }
        if objs[i].is_merkleized() {
            proof {
                let rest = objs@.subrange(i as int, objs@.len() as int);
                assert(rest[0] == objs@[i as int]);
            }
            return match objs[i].get_messages_since_digest(since) {
                Ok(v) => v,
                Err(_) => Vec::new(),
            };
        }
        proof {
            let rest = objs@.subrange(i as int, objs@.len() as int);
            assert(rest.drop_first() =~= objs@.subrange(i + 1, objs@.len() as int));
        }
        i += 1;
    }
    proof {
        assert(objs@.subrange(i as int, objs@.len() as int).len() == 0);
    }
    Vec::new()
}

/// Takes in a message received during digest sync, with its stored text
/// `json`: a message whose hash is stored already is skipped; otherwise it
/// runs through the objects and, when they take it, is stored under its
/// hash and its hash becomes known. Returns whether it was taken (the
/// caller then broadcasts it).
pub fn ingest_synced_message<T: ApplicationObject>(
    registry: &mut ApplicationObjectRegistry<T>,
    storage: &mut MemoryStorage,
    known_hashes: &mut Vec<String>,
    message: SharedMessage,
    json: Vec<u8>,
) -> (taken: bool)
    requires
        old(registry).wf(),
        old(storage).wf(),
    ensures
        final(registry).wf(),
        final(storage).wf(),
        old(storage)@.dom().contains(message.hash@) ==> !taken && final(registry).spec_objects() == old(registry).spec_objects(),
        !old(storage)@.dom().contains(message.hash@) && old(registry).spec_objects().len() == 0 ==> taken,
        !all_accept(old(registry).spec_objects(), message@) ==> !taken && final(registry).spec_objects() == old(registry).spec_objects(),
        taken ==> {
            &&& all_accept(old(registry).spec_objects(), message@)
            &&& exists|handed: Seq<Option<MementoModel>>, emitted: Seq<Option<MementoModel>>|
                pipeline_run(old(registry).spec_objects(), final(registry).spec_objects(), message@, handed, emitted, old(registry).spec_objects().len() as int)
        },
        taken ==> final(storage)@ == old(storage)@.insert(message.hash@, json@)
            && views_of(final(known_hashes)@).contains(message.hash@),
        !taken ==> final(storage)@ == old(storage)@ && final(known_hashes)@ == old(known_hashes)@,
        ids_of(final(registry).spec_objects()) == ids_of(old(registry).spec_objects()),
{
    if storage.contains(message.hash.as_str()) {
        return false;
    }
    let hash = copy_str(message.hash.as_str());
    match registry.process_message(message) {
        Ok(_) => {},
        Err(_) => {
            return false;
        },
    }
    storage.put(hash.as_str(), json);
    if !contains_str(known_hashes, hash.as_str()) {
        let ghost before = views_of(known_hashes@);
        let ghost h = hash@;
        known_hashes.push(hash);
        proof {
            assert(views_of(known_hashes@)[known_hashes@.len() - 1] == h);
        }
    }
    true
}

/// Takes in a message received from `sender`, with its stored text `json`:
/// traffic from a banned address and messages stored already are ignored
/// (`Ok(false)`); otherwise the sender is recorded as a peer (under `fresh`
/// unless known), the message runs through the objects (their error is
/// returned), and then it is stored under its hash (`Ok(true)`: the caller
/// broadcasts it).
pub fn accept_incoming_message<T: ApplicationObject>(
    book: &mut PeerBook,
    registry: &mut ApplicationObjectRegistry<T>,
    storage: &mut MemoryStorage,
    sender: NetAddr,
    fresh: PeerId,
    message: SharedMessage,
    json: Vec<u8>,
) -> (r: Result<bool, ChaincraftError>)
    requires
        old(book).wf(),
        old(registry).wf(),
        old(storage).wf(),
    ensures
        final(book).wf(),
        final(registry).wf(),
        final(storage).wf(),
        final(book).spec_banned() == old(book).spec_banned(),
        ids_of(final(registry).spec_objects()) == ids_of(old(registry).spec_objects()),
        old(book).spec_banned().contains(sender) ==> {
            &&& r == Ok::<bool, ChaincraftError>(false)
            &&& final(book).spec_peers() == old(book).spec_peers()
            &&& final(registry).spec_objects() == old(registry).spec_objects()
            &&& final(storage)@ == old(storage)@
        },
        !old(book).spec_banned().contains(sender) && old(storage)@.dom().contains(message.hash@) ==> {
            &&& r == Ok::<bool, ChaincraftError>(false)
            &&& final(book).spec_peers() == old(book).spec_peers()
            &&& final(registry).spec_objects() == old(registry).spec_objects()
            &&& final(storage)@ == old(storage)@
        },
        !old(book).spec_banned().contains(sender) && !old(storage)@.dom().contains(message.hash@) ==> {
            &&& final(book).spec_peers() == with_sender(old(book).spec_peers(), sender, fresh)
            &&& r matches Ok(b) ==> b && final(storage)@ == old(storage)@.insert(message.hash@, json@)
            &&& r is Err ==> final(storage)@ == old(storage)@
            &&& old(registry).spec_objects().len() == 0 ==> r == Ok::<bool, ChaincraftError>(true)
            &&& !all_accept(old(registry).spec_objects(), message@) ==> r is Err && final(registry).spec_objects() == old(registry).spec_objects()
            &&& (exists|k: int| rejected_at(old(registry).spec_objects(), message@, k)) ==> (r matches Err(ChaincraftError::Validation(s))
                && s@ == "message rejected by at least one application object"@)
        },
        r == Ok::<bool, ChaincraftError>(true) ==> {
            &&& all_accept(old(registry).spec_objects(), message@)
            &&& exists|handed: Seq<Option<MementoModel>>, emitted: Seq<Option<MementoModel>>|
                pipeline_run(old(registry).spec_objects(), final(registry).spec_objects(), message@, handed, emitted, old(registry).spec_objects().len() as int)
        },
{
    if book.is_banned(sender) {
        return Ok(false);
    }
    if storage.contains(message.hash.as_str()) {
        return Ok(false);
    }
    book.record_sender(sender, fresh);
    let hash = copy_str(message.hash.as_str());
    match registry.process_message(message) {
        Ok(_) => {},
        Err(e) => {
            return Err(e);
        },
    }
    storage.put(hash.as_str(), json);
    Ok(true)
}

/// The stored payload of each hash of `hashes` that `store` holds, in the
/// order of `hashes`.
pub open spec fn stored_payloads(store: Map<Seq<char>, Seq<u8>>, hashes: Seq<Seq<char>>) -> Seq<Seq<u8>>
    decreases hashes.len(),
{
    if hashes.len() == 0 {
        Seq::empty()
    } else {
        let rest = stored_payloads(store, hashes.drop_last());
        if store.dom().contains(hashes.last()) {
            rest.push(store[hashes.last()])
        } else {
            rest
        }
    }
}

/// The contents of a sequence of byte vectors.
pub open spec fn byte_views(v: Seq<Vec<u8>>) -> Seq<Seq<u8>> {
    Seq::new(v.len(), |i: int| v[i]@)
}

/// One gossip round: the stored payloads of the known hashes, to be sent
/// again to every peer, and the address of a peer to ask for its digest
/// (none without peers).
pub fn gossip_round(book: &PeerBook, storage: &MemoryStorage, known_hashes: &Vec<String>) -> (r: (Vec<Vec<u8>>, Option<NetAddr>))
    requires
        book.wf(),
        storage.wf(),
    ensures
        byte_views(r.0@) == stored_payloads(storage@, views_of(known_hashes@)),
        r.1 is None <==> book.spec_peers().dom().len() == 0,
        r.1 matches Some(a) ==> has_address(book.spec_peers(), a),
{
    let ghost hs = views_of(known_hashes@);
    let mut out: Vec<Vec<u8>> = Vec::new();
    let mut i: usize = 0;
    while i < known_hashes.len()
        invariant
            i <= known_hashes@.len(),
            hs == views_of(known_hashes@),
            storage.wf(),
            byte_views(out@) == stored_payloads(storage@, hs.take(i as int)),
        decreases known_hashes@.len() - i,
    {
        let ghost before = out@;
        match storage.get(known_hashes[i].as_str()) {
            Some(b) => {
                out.push(copy_bytes(b.as_slice()));
            },
            None => {},
        }
        proof {
            assert(hs.take(i + 1).drop_last() =~= hs.take(i as int));
            assert(hs.take(i + 1).last() == known_hashes@[i as int]@);
            if out@.len() > before.len() {
                assert(byte_views(out@) =~= byte_views(before).push(out@.last()@));
            } else {
                assert(byte_views(out@) =~= byte_views(before));
            }
        }
        i += 1;
    }
    proof {
        assert(hs.take(i as int) =~= hs);
    }
    let peers = book.peers();
    let target = if peers.len() == 0 {
        None
    } else {
        let p = peers[0];
        proof {
            assert(peers@.to_set().contains(p));
            assert(book.spec_peers().values().contains(p));
            let k = choose|k: u128| #[trigger] book.spec_peers().contains_key(k) && book.spec_peers()[k] == p;
            assert(book.spec_peers().contains_key(k) && book.spec_peers()[k].address == p.address);
        }
        Some(p.address)
    };
    (out, target)
}

/// The message a node creates for `data`: of the type named by its
/// `"type"` text (see `kind_from_data_type`), else of the custom type
/// `user_message`.
pub fn prepare_local_message(data: JsonValue) -> (m: SharedMessage)
    ensures
        m.message_type@ == match json_get_str(data.model(), "type"@) {
            Some(t) => kind_from_data_type(t),
            None => MessageKind::Custom("user_message"@),
        },
        m.data.model() == data.model(),
        m.hash@ == m.content_hash(),
{
    let message_type = match data.get_str("type") {
        Some(t) => MessageType::from_data_type(t.as_str()),
        None => MessageType::Custom(copy_str("user_message")),
    };
    SharedMessage::new(message_type, data)
}

/// Runs a message the node created through its objects and, when they
/// take it, stores its text `json` under its hash and returns the hash;
/// their error is returned otherwise, with nothing stored.
pub fn commit_local_message<T: ApplicationObject>(
    registry: &mut ApplicationObjectRegistry<T>,
    storage: &mut MemoryStorage,
    message: SharedMessage,
    json: Vec<u8>,
) -> (r: Result<String, ChaincraftError>)
    requires
        old(registry).wf(),
        old(storage).wf(),
    ensures
        final(registry).wf(),
        final(storage).wf(),
        ids_of(final(registry).spec_objects()) == ids_of(old(registry).spec_objects()),
        old(registry).spec_objects().len() == 0 ==> r is Ok,
        r matches Ok(h) ==> h@ == message.hash@ && final(storage)@ == old(storage)@.insert(message.hash@, json@),
        r is Err ==> final(storage)@ == old(storage)@,
        !all_accept(old(registry).spec_objects(), message@) ==> r is Err && final(registry).spec_objects() == old(registry).spec_objects(),
        (exists|k: int| rejected_at(old(registry).spec_objects(), message@, k)) ==> (r matches Err(ChaincraftError::Validation(s))
            && s@ == "message rejected by at least one application object"@),
        r is Ok ==> {
            &&& all_accept(old(registry).spec_objects(), message@)
            &&& exists|handed: Seq<Option<MementoModel>>, emitted: Seq<Option<MementoModel>>|
                pipeline_run(old(registry).spec_objects(), final(registry).spec_objects(), message@, handed, emitted, old(registry).spec_objects().len() as int)
        },
{
    let hash = copy_str(message.hash.as_str());
    match registry.process_message(message) {
        Ok(_) => {},
        Err(e) => {
            return Err(e);
        },
    }
    storage.put(hash.as_str(), json);
    Ok(hash)
}


/// After a node is registered and then unregistered, the registry holds no
/// entry for it and the other entries are as before.
pub proof fn lemma_register_unregister(s: Seq<(PeerId, NetAddr)>, id: PeerId, addr: NetAddr)
    ensures
        without_id(without_id(s, id).push((id, addr)), id) == without_id(s, id),
{
    reveal(Seq::filter);
    let w = without_id(s, id);
    assert(without_id(s, id).push((id, addr)).drop_last() =~= w);
    lemma_without_id_again(s, id);
}

proof fn lemma_without_id_again(s: Seq<(PeerId, NetAddr)>, id: PeerId)
    ensures
        without_id(without_id(s, id), id) == without_id(s, id),
    decreases s.len(),
{
    reveal(Seq::filter);
    if s.len() > 0 {
        lemma_without_id_again(s.drop_last(), id);
        let w = without_id(s.drop_last(), id);
        if s.last().0 != id {
            assert(w.push(s.last()).drop_last() =~= w);
        }
    }
}


/// Banning an address that was not banned and then lifting the ban gives
/// the bans back as they were.
pub proof fn lemma_ban_unban(bans: Map<NetAddr, i64>, addr: NetAddr, expires_at: i64)
    requires
        !bans.contains_key(addr),
    ensures
        bans.insert(addr, expires_at).remove(addr) == bans,
{
    assert(bans.insert(addr, expires_at).remove(addr) =~= bans);
}

/// A ban lasts until its expiry: after expired bans are dropped at `now`,
/// an address banned until `expires_at` is still banned exactly when
/// `expires_at` is after `now`, and the other bans are as `bans_after` says.
pub proof fn lemma_ban_lasts(bans: Map<NetAddr, i64>, addr: NetAddr, expires_at: i64, now: i64)
    ensures
        bans_after(bans.insert(addr, expires_at), now).contains_key(addr) <==> expires_at > now,
        bans_after(bans.insert(addr, expires_at), now).remove(addr) == bans_after(bans.remove(addr), now),
{
    assert(bans_after(bans.insert(addr, expires_at), now).remove(addr) =~= bans_after(bans.remove(addr), now));
}

} // verus!
