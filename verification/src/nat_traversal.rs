//! NAT traversal: NAT type classification, public address discovery, UDP
//! hole punching and keep-alive, as the decisions a node makes on each
//! message and reply. Sockets, timers and clocks belong to the caller, which
//! hands in what it received and the current time, and sends what comes back.

use vstd::prelude::*;
use std::collections::HashMap;
use vstd::std_specs::iter::IteratorSpec;
use crate::error::{ChaincraftError, NetworkError};
use crate::net::{NetAddr, TimeSpan};
use crate::text::copy_str;

verus! {

broadcast use vstd::std_specs::hash::group_hash_axioms;

/// Classification of the NAT router in front of a node, easiest to
/// traverse first.
#[derive(PartialEq, Eq, Structural, Clone, Copy, Debug)]
pub enum NatType {
    /// No NAT: the node is directly reachable.
    Open,
    /// Once a mapping exists, any external host can reach the node.
    FullCone,
    /// An external host can reply once the node has sent to its address.
    RestrictedCone,
    /// Like `RestrictedCone`, also restricted by the external port.
    PortRestrictedCone,
    /// A different external port for every destination.
    Symmetric,
    /// Could not be determined.
    Unknown,
}

/// The display name of a NAT type.
pub open spec fn nat_type_name(t: NatType) -> Seq<char> {
    match t {
        NatType::Open => "Open"@,
        NatType::FullCone => "FullCone"@,
        NatType::RestrictedCone => "RestrictedCone"@,
        NatType::PortRestrictedCone => "PortRestrictedCone"@,
        NatType::Symmetric => "Symmetric"@,
        NatType::Unknown => "Unknown"@,
    }
}

impl NatType {
    /// The display name of this NAT type.
    pub fn to_string(&self) -> (s: String)
        ensures
            s@ == nat_type_name(*self),
    {
        match self {
            NatType::Open => copy_str("Open"),
            NatType::FullCone => copy_str("FullCone"),
            NatType::RestrictedCone => copy_str("RestrictedCone"),
            NatType::PortRestrictedCone => copy_str("PortRestrictedCone"),
            NatType::Symmetric => copy_str("Symmetric"),
            NatType::Unknown => copy_str("Unknown"),
        }
    }
}

/// The messages of the NAT traversal protocol.
#[derive(PartialEq, Eq, Structural, Clone, Copy, Debug)]
pub enum HolePunchMessage {
    /// Asks a reflector to report the sender's observed address.
    DiscoverRequest { nonce: u64 },
    /// The reflector's answer, echoing the request's nonce.
    DiscoverResponse { nonce: u64, observed_addr: NetAddr },
    /// Tells both peers of a session to start punching.
    CoordinateHolePunch { peer_a_addr: NetAddr, peer_b_addr: NetAddr, session_id: u64 },
    /// A probe sent directly between the peers.
    HolePunchProbe { session_id: u64, sender_addr: NetAddr },
    /// Confirms a received probe.
    HolePunchAck { session_id: u64, sender_addr: NetAddr },
    /// Keeps a NAT mapping alive; the timestamp is in Unix seconds.
    KeepAlive { sender_addr: NetAddr, timestamp: u64 },
}

/// Settings of the NAT traversal subsystem.
#[derive(PartialEq, Eq, Structural, Clone, Copy, Debug)]
pub struct NatTraversalConfig {
    /// How long to wait for a discovery response.
    pub discovery_timeout: TimeSpan,
    /// How long to wait for a hole-punch acknowledgement.
    pub hole_punch_timeout: TimeSpan,
    /// Interval between keep-alive rounds.
    pub keep_alive_interval: TimeSpan,
    /// Probe packets per hole-punch attempt.
    pub hole_punch_attempts: u32,
    /// Whether NAT traversal is enabled.
    pub enabled: bool,
}

impl Default for NatTraversalConfig {
    /// Discovery timeout 5 s, hole-punch timeout 10 s, keep-alive every
    /// 25 s, 5 probes per attempt, enabled.
    fn default() -> (c: NatTraversalConfig)
        ensures
            c.discovery_timeout.total_nanos() == 5_000_000_000,
            c.hole_punch_timeout.total_nanos() == 10_000_000_000,
            c.keep_alive_interval.total_nanos() == 25_000_000_000,
            c.hole_punch_attempts == 5,
            c.enabled,
    {
        NatTraversalConfig {
            discovery_timeout: TimeSpan::from_secs(5),
            hole_punch_timeout: TimeSpan::from_secs(10),
            keep_alive_interval: TimeSpan::from_secs(25),
            hole_punch_attempts: 5,
            enabled: true,
        }
    }
}

/// What a node knows of its network situation; times are in the caller's
/// monotonic clock (nanoseconds).
#[derive(PartialEq, Eq, Structural, Clone, Copy, Debug)]
pub struct NatInfo {
    /// The public address as seen from outside, if known.
    pub public_addr: Option<NetAddr>,
    /// The detected NAT type.
    pub nat_type: NatType,
    /// When this was last refreshed.
    pub last_updated: u64,
}

impl NatInfo {
    /// Nothing known yet.
    pub fn unknown(now: u64) -> (i: NatInfo)
        ensures
            i.public_addr is None,
            i.nat_type == NatType::Unknown,
            i.last_updated == now,
    {
        NatInfo { public_addr: None, nat_type: NatType::Unknown, last_updated: now }
    }
}

/// An in-progress hole-punch session.
#[derive(PartialEq, Eq, Structural, Clone, Copy, Debug)]
pub struct HolePunchSession {
    pub session_id: u64,
    /// The peer being punched towards.
    pub remote_addr: NetAddr,
    /// Whether an acknowledgement or probe confirmed the punch.
    pub confirmed: bool,
    /// When the session started (caller's monotonic clock, nanoseconds).
    pub started_at: u64,
}

/// The NAT type that two reflectors' observations indicate: the same
/// address from both means a cone NAT (reported as restricted cone),
/// different ones a symmetric NAT, and anything less is unknown.
pub open spec fn classify_nat_spec(observed1: Option<NetAddr>, observed2: Option<NetAddr>) -> NatType {
    match (observed1, observed2) {
        (Some(a), Some(b)) => if a == b { NatType::RestrictedCone } else { NatType::Symmetric },
        _ => NatType::Unknown,
    }
}

/// Classifies the NAT from two reflectors' observations.
pub fn classify_nat(observed1: Option<NetAddr>, observed2: Option<NetAddr>) -> (t: NatType)
    ensures
        t == classify_nat_spec(observed1, observed2),
{
    match (observed1, observed2) {
        (Some(a), Some(b)) => if a == b { NatType::RestrictedCone } else { NatType::Symmetric },
        _ => NatType::Unknown,
    }
}

/// Takes in a reply received while probing two reflectors with nonces
/// `nonce1` and `nonce2`: a discover response fills the observation of the
/// matching nonce (the first one when both match); anything else changes
/// nothing.
pub fn observe_probe_reply(
    nonce1: u64,
    nonce2: u64,
    observed: (Option<NetAddr>, Option<NetAddr>),
    reply: HolePunchMessage,
) -> (r: (Option<NetAddr>, Option<NetAddr>))
    ensures
        r == match reply {
            HolePunchMessage::DiscoverResponse { nonce, observed_addr } => if nonce == nonce1 {
                (Some(observed_addr), observed.1)
            } else if nonce == nonce2 {
                (observed.0, Some(observed_addr))
            } else {
                observed
            },
            _ => observed,
        },
{
    match reply {
        HolePunchMessage::DiscoverResponse { nonce, observed_addr } => {
            if nonce == nonce1 {
                (Some(observed_addr), observed.1)
            } else if nonce == nonce2 {
                (observed.0, Some(observed_addr))
            } else {
                observed
            }
        },
        _ => observed,
    }
}

/// The reflector's answer to a request: a discover response echoing the
/// nonce and reporting `observed_addr`, for a discover request only.
pub fn discover_response_for(request: HolePunchMessage, observed_addr: NetAddr) -> (r: Option<HolePunchMessage>)
    ensures
        r == match request {
            HolePunchMessage::DiscoverRequest { nonce } => Some(HolePunchMessage::DiscoverResponse { nonce, observed_addr }),
            _ => None,
        },
{
    match request {
        HolePunchMessage::DiscoverRequest { nonce } => Some(HolePunchMessage::DiscoverResponse { nonce, observed_addr }),
        _ => None,
    }
}

/// The text of a time span as `Duration`'s debug form writes it.
pub uninterp spec fn duration_debug_spec(secs: u64, subsec_nanos: u32) -> Seq<char>;

/// `format!("{:?}", Duration::new(secs, subsec_nanos))`.
#[verifier::external_body]
fn duration_debug_text(secs: u64, subsec_nanos: u32) -> (s: String)
    requires
        subsec_nanos < 1_000_000_000,
    ensures
        s@ == duration_debug_spec(secs, subsec_nanos),
{
    format!("{:?}", std::time::Duration::new(secs, subsec_nanos))
}

fn text_of(prefix: &str, rest: &str) -> (r: String)
    ensures
        r@ == prefix@ + rest@,
{
    let mut r = copy_str(prefix);
    crate::text::push_str(&mut r, rest);
    r
}

/// The sessions with `now - started_at < max_age` (elapsed time saturating
/// at zero).
pub open spec fn fresh_sessions(s: Map<u64, HolePunchSession>, max_age: int, now: u64) -> Map<u64, HolePunchSession> {
    Map::new(
        |k: u64| s.dom().contains(k) && (if now >= s[k].started_at { (now - s[k].started_at) as int } else { 0int }) < max_age,
        |k: u64| s[k],
    )
}

/// The keep-alive list after `addr` is registered: unchanged when present,
/// else `addr` appended.
pub open spec fn with_peer(peers: Seq<NetAddr>, addr: NetAddr) -> Seq<NetAddr> {
    if peers.contains(addr) {
        peers
    } else {
        peers.push(addr)
    }
}

/// The sessions after a probe for `sid` arrives from `sender` at `now`: an
/// existing session is confirmed, else a confirmed one towards `sender` is
/// started.
pub open spec fn probed(s: Map<u64, HolePunchSession>, sid: u64, sender: NetAddr, now: u64) -> Map<u64, HolePunchSession> {
    if s.dom().contains(sid) {
        s.insert(sid, HolePunchSession { confirmed: true, ..s[sid] })
    } else {
        s.insert(sid, HolePunchSession { session_id: sid, remote_addr: sender, confirmed: true, started_at: now })
    }
}

/// The sessions after an acknowledgement for `sid`: confirmed when known.
pub open spec fn acked(s: Map<u64, HolePunchSession>, sid: u64) -> Map<u64, HolePunchSession> {
    if s.dom().contains(sid) {
        s.insert(sid, HolePunchSession { confirmed: true, ..s[sid] })
    } else {
        s
    }
}

/// The NAT traversal state of a node: its address and settings, what it
/// knows of its NAT, the hole-punch sessions by identifier, and the peers it
/// keeps NAT mappings alive with.
pub struct NatTraversalManager {
    local_addr: NetAddr,
    config: NatTraversalConfig,
    nat_info: NatInfo,
    sessions: HashMap<u64, HolePunchSession>,
    keep_alive_peers: Vec<NetAddr>,
}

impl NatTraversalManager {
    pub closed spec fn spec_local_addr(&self) -> NetAddr {
        self.local_addr
    }

    pub closed spec fn spec_config(&self) -> NatTraversalConfig {
        self.config
    }

    pub closed spec fn spec_nat_info(&self) -> NatInfo {
        self.nat_info
    }

    /// The sessions by identifier.
    pub closed spec fn spec_sessions(&self) -> Map<u64, HolePunchSession> {
        self.sessions@
    }

    /// The keep-alive peers, in the order they were added.
    pub closed spec fn spec_keep_alive(&self) -> Seq<NetAddr> {
        self.keep_alive_peers@
    }

    /// Every session is stored under its own identifier, and no keep-alive
    /// peer is listed twice.
    pub closed spec fn wf(&self) -> bool {
        &&& forall|k: u64| #[trigger] self.sessions@.dom().contains(k) ==> self.sessions@[k].session_id == k
        &&& self.keep_alive_peers@.no_duplicates()
    }

    /// In a well-formed manager every session is stored under its own
    /// identifier and no keep-alive peer is listed twice.
    pub proof fn lemma_wf_facts(&self)
        requires
            self.wf(),
        ensures
            forall|k: u64| #[trigger] self.spec_sessions().dom().contains(k) ==> self.spec_sessions()[k].session_id == k,
            self.spec_keep_alive().no_duplicates(),
    {
    }

    /// A manager for a node at `local_addr`, knowing nothing yet.
    pub fn new(local_addr: NetAddr, config: NatTraversalConfig, now: u64) -> (m: NatTraversalManager)
        ensures
            m.wf(),
            m.spec_local_addr() == local_addr,
            m.spec_config() == config,
            m.spec_nat_info() == (NatInfo { public_addr: None, nat_type: NatType::Unknown, last_updated: now }),
            m.spec_sessions() == Map::<u64, HolePunchSession>::empty(),
            m.spec_keep_alive() == Seq::<NetAddr>::empty(),
    {
        let m = NatTraversalManager {
            local_addr,
            config,
            nat_info: NatInfo::unknown(now),
            sessions: HashMap::new(),
            keep_alive_peers: Vec::new(),
        };
        proof {
            assert(m.keep_alive_peers@ =~= Seq::<NetAddr>::empty());
        }
        m
    }

    pub fn local_addr(&self) -> (a: NetAddr)
        ensures
            a == self.spec_local_addr(),
    {
        self.local_addr
    }

    pub fn config(&self) -> (c: &NatTraversalConfig)
        ensures
            *c == self.spec_config(),
    {
        &self.config
    }

    /// What the node knows of its NAT.
    pub fn nat_info(&self) -> (i: NatInfo)
        ensures
            i == self.spec_nat_info(),
    {
        self.nat_info
    }

    /// The cached NAT information (without reflectors nothing is probed).
    pub fn probe_nat_type(&self) -> (i: NatInfo)
        ensures
            i == self.spec_nat_info(),
    {
        self.nat_info
    }

    /// The keep-alive peers.
    pub fn keep_alive_peers(&self) -> (p: Vec<NetAddr>)
        ensures
            p@ == self.spec_keep_alive(),
            self.wf() ==> p@.no_duplicates(),
    {
        let mut out: Vec<NetAddr> = Vec::new();
        let mut i: usize = 0;
        while i < self.keep_alive_peers.len()
            invariant
                i <= self.keep_alive_peers@.len(),
                out@ == self.keep_alive_peers@.take(i as int),
            decreases self.keep_alive_peers@.len() - i,
        {
            out.push(self.keep_alive_peers[i]);
            proof {
                assert(self.keep_alive_peers@.take(i + 1) =~= self.keep_alive_peers@.take(i as int).push(self.keep_alive_peers@[i as int]));
            }
            i += 1;
        }
        proof {
            assert(self.keep_alive_peers@.take(i as int) =~= self.keep_alive_peers@);
        }
        out
    }

    fn has_keep_alive(&self, addr: NetAddr) -> (r: bool)
        ensures
            r == self.keep_alive_peers@.contains(addr),
    {
        let mut i: usize = 0;
        while i < self.keep_alive_peers.len()
            invariant
                i <= self.keep_alive_peers@.len(),
                forall|j: int| 0 <= j < i ==> self.keep_alive_peers@[j] != addr,
            decreases self.keep_alive_peers@.len() - i,
        {
            if self.keep_alive_peers[i] == addr {
                return true;
            }
            i += 1;
        }
        false
    }

    /// Registers `addr` for keep-alive packets (once).
    pub fn add_keep_alive_peer(&mut self, addr: NetAddr)
        requires
            old(self).wf(),
        ensures
            final(self).wf(),
            final(self).spec_keep_alive() == with_peer(old(self).spec_keep_alive(), addr),
            final(self).spec_sessions() == old(self).spec_sessions(),
            final(self).spec_nat_info() == old(self).spec_nat_info(),
            final(self).spec_config() == old(self).spec_config(),
            final(self).spec_local_addr() == old(self).spec_local_addr(),
    {
        if !self.has_keep_alive(addr) {
            self.keep_alive_peers.push(addr);
            proof {
                let s = self.keep_alive_peers@;
                assert forall|i: int, j: int| 0 <= i < s.len() && 0 <= j < s.len() && i != j implies s[i] != s[j] by {
                    if i < s.len() - 1 && j < s.len() - 1 {
                        assert(old(self).keep_alive_peers@[i] == s[i]);
                        assert(old(self).keep_alive_peers@[j] == s[j]);
                    } else if i == s.len() - 1 {
                        assert(old(self).keep_alive_peers@[j] == s[j]);
                    } else {
                        assert(old(self).keep_alive_peers@[i] == s[i]);
                    }
                }
            }
        }
    }

    /// Removes `addr` from the keep-alive list.
    pub fn remove_keep_alive_peer(&mut self, addr: &NetAddr)
        requires
            old(self).wf(),
        ensures
            final(self).wf(),
            final(self).spec_keep_alive() == old(self).spec_keep_alive().filter(|a: NetAddr| a != *addr),
            final(self).spec_sessions() == old(self).spec_sessions(),
            final(self).spec_nat_info() == old(self).spec_nat_info(),
            final(self).spec_config() == old(self).spec_config(),
            final(self).spec_local_addr() == old(self).spec_local_addr(),
    {
        let ghost pred = |a: NetAddr| a != *addr;
        let ghost old_peers = self.keep_alive_peers@;
        let mut kept: Vec<NetAddr> = Vec::new();
        let mut i: usize = 0;
        while i < self.keep_alive_peers.len()
            invariant
                i <= self.keep_alive_peers@.len(),
                self.keep_alive_peers@ == old_peers,
                old_peers.no_duplicates(),
                pred == (|a: NetAddr| a != *addr),
                kept@ == old_peers.take(i as int).filter(pred),
            decreases self.keep_alive_peers@.len() - i,
        {
            proof {
                assert(old_peers.take(i + 1).drop_last() =~= old_peers.take(i as int));
                reveal(Seq::filter);
            }
            if self.keep_alive_peers[i] != *addr {
                kept.push(self.keep_alive_peers[i]);
            }
            i += 1;
        }
        proof {
            assert(old_peers.take(i as int) =~= old_peers);
            broadcast use vstd::seq_lib::group_filter_ensures;
            assert forall|a: int, b: int| 0 <= a < kept@.len() && 0 <= b < kept@.len() && a != b implies kept@[a] != kept@[b] by {
                lemma_filter_no_duplicates(old_peers, pred);
            }
        }
        self.keep_alive_peers = kept;
    }

    /// The sessions, each once, in no particular order.
    pub fn get_sessions(&self) -> (v: Vec<HolePunchSession>)
        ensures
            v@.len() == self.spec_sessions().dom().len(),
            v@.to_set() == self.spec_sessions().values(),
    {
        let ghost r = vstd::std_specs::hash::spec_values_iter(&self.sessions).remaining();
        let mut out: Vec<HolePunchSession> = Vec::new();
        for s in it: self.sessions.values()
            invariant
                it.seq() == r,
                out@.len() == it.index(),
                forall|i: int| 0 <= i < it.index() ==> out@[i] == *r[i],
        {
            out.push(*s);
        }
        proof {
            assert(out@ =~= r.unref());
        }
        out
    }
}

impl NatTraversalManager {
    /// Keeps only the sessions younger than `max_age` at time `now`.
    pub fn cleanup_old_sessions(&mut self, max_age: TimeSpan, now: u64)
        requires
            old(self).wf(),
        ensures
            final(self).wf(),
            final(self).spec_sessions() == fresh_sessions(old(self).spec_sessions(), max_age.total_nanos(), now),
            final(self).spec_keep_alive() == old(self).spec_keep_alive(),
            final(self).spec_nat_info() == old(self).spec_nat_info(),
            final(self).spec_config() == old(self).spec_config(),
            final(self).spec_local_addr() == old(self).spec_local_addr(),
    {
        let ghost old_map = self.sessions@;
        let ghost r = vstd::std_specs::hash::spec_hash_map_iter(&self.sessions).remaining();
        let limit: u128 = max_age.as_nanos();
        let mut kept: HashMap<u64, HolePunchSession> = HashMap::new();
        for kv in it: self.sessions.iter()
            invariant
                it.seq() == r,
                self.sessions@ == old_map,
                limit == max_age.total_nanos(),
                r.len() == old_map.dom().len(),
                forall|i: int| 0 <= i < r.len() ==> old_map.contains_key(*r[i].0) && old_map[*r[i].0] == *r[i].1,
                forall|key: u64| #[trigger] kept@.contains_key(key) ==> old_map.contains_key(key) && kept@[key] == old_map[key]
                    && fresh_sessions(old_map, max_age.total_nanos(), now).contains_key(key),
                forall|i: int| 0 <= i < it.index() && fresh_sessions(old_map, max_age.total_nanos(), now).contains_key(*r[i].0)
                    ==> #[trigger] kept@.contains_key(*r[i].0),
        {
            let (k, v) = kv;
            let elapsed: u64 = if now >= v.started_at { now - v.started_at } else { 0 };
            if (elapsed as u128) < limit {
                kept.insert(*k, *v);
            }
        }
        proof {
            let f = fresh_sessions(old_map, max_age.total_nanos(), now);
            assert forall|key: u64| f.contains_key(key) implies #[trigger] kept@.contains_key(key) by {
                assert(r.contains((&key, &old_map[key])));
                let i = choose|i: int| 0 <= i < r.len() && r[i] == (&key, &old_map[key]);
                assert(*r[i].0 == key);
            }
            assert(kept@ =~= f);
        }
        self.sessions = kept;
    }

    fn add_peer_once(&mut self, addr: NetAddr)
        requires
            old(self).wf(),
        ensures
            final(self).wf(),
            final(self).spec_keep_alive() == with_peer(old(self).spec_keep_alive(), addr),
            final(self).spec_sessions() == old(self).spec_sessions(),
            final(self).spec_nat_info() == old(self).spec_nat_info(),
            final(self).spec_config() == old(self).spec_config(),
            final(self).spec_local_addr() == old(self).spec_local_addr(),
    {
        self.add_keep_alive_peer(addr);
    }

    /// Handles a protocol message from `sender_addr` received at `now`, and
    /// returns the message to send back, if any:
    /// - a discover request is answered with the sender's observed address;
    /// - a coordination message starts an unconfirmed session towards the
    ///   other peer and is answered with a probe;
    /// - a probe confirms (or starts, confirmed, towards the sender) its
    ///   session, registers the sender for keep-alive and is acknowledged;
    /// - an acknowledgement confirms a known session;
    /// - a keep-alive registers the sender for keep-alive.
    pub fn handle_message(&mut self, message: HolePunchMessage, sender_addr: NetAddr, now: u64) -> (reply: Option<HolePunchMessage>)
        requires
            old(self).wf(),
        ensures
            final(self).wf(),
            final(self).spec_nat_info() == old(self).spec_nat_info(),
            final(self).spec_config() == old(self).spec_config(),
            final(self).spec_local_addr() == old(self).spec_local_addr(),
            match message {
                HolePunchMessage::DiscoverRequest { nonce } => {
                    &&& reply == Some(HolePunchMessage::DiscoverResponse { nonce, observed_addr: sender_addr })
                    &&& final(self).spec_sessions() == old(self).spec_sessions()
                    &&& final(self).spec_keep_alive() == old(self).spec_keep_alive()
                },
                HolePunchMessage::DiscoverResponse { .. } => {
                    &&& reply is None
                    &&& final(self).spec_sessions() == old(self).spec_sessions()
                    &&& final(self).spec_keep_alive() == old(self).spec_keep_alive()
                },
                HolePunchMessage::CoordinateHolePunch { peer_a_addr, peer_b_addr, session_id } => {
                    let target = if sender_addr == peer_a_addr { peer_b_addr } else { peer_a_addr };
                    &&& reply == Some(HolePunchMessage::HolePunchProbe { session_id, sender_addr: old(self).spec_local_addr() })
                    &&& final(self).spec_sessions() == old(self).spec_sessions().insert(
                        session_id,
                        HolePunchSession { session_id, remote_addr: target, confirmed: false, started_at: now },
                    )
                    &&& final(self).spec_keep_alive() == old(self).spec_keep_alive()
                },
                HolePunchMessage::HolePunchProbe { session_id, .. } => {
                    &&& reply == Some(HolePunchMessage::HolePunchAck { session_id, sender_addr: old(self).spec_local_addr() })
                    &&& final(self).spec_sessions() == probed(old(self).spec_sessions(), session_id, sender_addr, now)
                    &&& final(self).spec_keep_alive() == with_peer(old(self).spec_keep_alive(), sender_addr)
                },
                HolePunchMessage::HolePunchAck { session_id, .. } => {
                    &&& reply is None
                    &&& final(self).spec_sessions() == acked(old(self).spec_sessions(), session_id)
                    &&& final(self).spec_keep_alive() == old(self).spec_keep_alive()
                },
                HolePunchMessage::KeepAlive { .. } => {
                    &&& reply is None
                    &&& final(self).spec_sessions() == old(self).spec_sessions()
                    &&& final(self).spec_keep_alive() == with_peer(old(self).spec_keep_alive(), sender_addr)
                },
            },
    {
        match message {
            HolePunchMessage::DiscoverRequest { nonce } => {
                Some(HolePunchMessage::DiscoverResponse { nonce, observed_addr: sender_addr })
            },
            HolePunchMessage::DiscoverResponse { .. } => None,
            HolePunchMessage::CoordinateHolePunch { peer_a_addr, peer_b_addr, session_id } => {
                let target = if sender_addr == peer_a_addr { peer_b_addr } else { peer_a_addr };
                self.sessions.insert(
                    session_id,
                    HolePunchSession { session_id, remote_addr: target, confirmed: false, started_at: now },
                );
                Some(HolePunchMessage::HolePunchProbe { session_id, sender_addr: self.local_addr })
            },
            HolePunchMessage::HolePunchProbe { session_id, .. } => {
                let updated = match self.sessions.get(&session_id) {
                    Some(s) => HolePunchSession { confirmed: true, ..*s },
                    None => HolePunchSession { session_id, remote_addr: sender_addr, confirmed: true, started_at: now },
                };
                self.sessions.insert(session_id, updated);
                self.add_peer_once(sender_addr);
                Some(HolePunchMessage::HolePunchAck { session_id, sender_addr: self.local_addr })
            },
            HolePunchMessage::HolePunchAck { session_id, .. } => {
                self.confirm_session(session_id);
                None
            },
            HolePunchMessage::KeepAlive { .. } => {
                self.add_peer_once(sender_addr);
                None
            },
        }
    }

    fn confirm_session(&mut self, session_id: u64)
        requires
            old(self).wf(),
        ensures
            final(self).wf(),
            final(self).spec_sessions() == acked(old(self).spec_sessions(), session_id),
            final(self).spec_keep_alive() == old(self).spec_keep_alive(),
            final(self).spec_nat_info() == old(self).spec_nat_info(),
            final(self).spec_config() == old(self).spec_config(),
            final(self).spec_local_addr() == old(self).spec_local_addr(),
    {
        let found = match self.sessions.get(&session_id) {
            Some(s) => Some(HolePunchSession { confirmed: true, ..*s }),
            None => None,
        };
        match found {
            Some(updated) => {
                self.sessions.insert(session_id, updated);
            },
            None => {},
        }
    }

    /// Starts a hole punch towards `remote_addr` under `session_id` at
    /// `now`, returning the probe to send; fails, changing nothing, when NAT
    /// traversal is disabled.
    pub fn start_hole_punch(&mut self, session_id: u64, remote_addr: NetAddr, now: u64) -> (r: Result<HolePunchMessage, ChaincraftError>)
        requires
            old(self).wf(),
        ensures
            final(self).wf(),
            final(self).spec_keep_alive() == old(self).spec_keep_alive(),
            final(self).spec_nat_info() == old(self).spec_nat_info(),
            final(self).spec_config() == old(self).spec_config(),
            final(self).spec_local_addr() == old(self).spec_local_addr(),
            !old(self).spec_config().enabled ==> {
                &&& r matches Err(ChaincraftError::Network(NetworkError::HolePunchFailed { addr, reason }))
                    && addr == remote_addr && reason@ == "NAT traversal is disabled"@
                &&& final(self).spec_sessions() == old(self).spec_sessions()
            },
            old(self).spec_config().enabled ==> {
                &&& r == Ok::<HolePunchMessage, ChaincraftError>(HolePunchMessage::HolePunchProbe { session_id, sender_addr: old(self).spec_local_addr() })
                &&& final(self).spec_sessions() == old(self).spec_sessions().insert(
                    session_id,
                    HolePunchSession { session_id, remote_addr, confirmed: false, started_at: now },
                )
            },
    {
        if !self.config.enabled {
            return Err(ChaincraftError::Network(NetworkError::HolePunchFailed {
                addr: remote_addr,
                reason: copy_str("NAT traversal is disabled"),
            }));
        }
        self.sessions.insert(session_id, HolePunchSession { session_id, remote_addr, confirmed: false, started_at: now });
        Ok(HolePunchMessage::HolePunchProbe { session_id, sender_addr: self.local_addr })
    }

    /// Whether `reply`, received from `src`, acknowledges the punch of
    /// `session_id` towards `remote_addr`.
    pub fn is_hole_punch_ack(session_id: u64, remote_addr: NetAddr, src: NetAddr, reply: HolePunchMessage) -> (b: bool)
        ensures
            b == (src == remote_addr && (match reply {
                HolePunchMessage::HolePunchAck { session_id: sid, .. } => sid == session_id,
                _ => false,
            })),
    {
        if src != remote_addr {
            return false;
        }
        match reply {
            HolePunchMessage::HolePunchAck { session_id: sid, .. } => sid == session_id,
            _ => false,
        }
    }

    /// Records a successful punch: the session is confirmed and the peer is
    /// kept alive.
    pub fn confirm_hole_punch(&mut self, session_id: u64, remote_addr: NetAddr)
        requires
            old(self).wf(),
        ensures
            final(self).wf(),
            final(self).spec_sessions() == acked(old(self).spec_sessions(), session_id),
            final(self).spec_keep_alive() == with_peer(old(self).spec_keep_alive(), remote_addr),
            final(self).spec_nat_info() == old(self).spec_nat_info(),
            final(self).spec_config() == old(self).spec_config(),
            final(self).spec_local_addr() == old(self).spec_local_addr(),
    {
        self.confirm_session(session_id);
        self.add_peer_once(remote_addr);
    }

    /// Records a punch that got no acknowledgement in time: the session is
    /// dropped; returns the error to report.
    pub fn abandon_hole_punch(&mut self, session_id: u64, remote_addr: NetAddr) -> (e: ChaincraftError)
        requires
            old(self).wf(),
        ensures
            final(self).wf(),
            final(self).spec_sessions() == old(self).spec_sessions().remove(session_id),
            final(self).spec_keep_alive() == old(self).spec_keep_alive(),
            final(self).spec_nat_info() == old(self).spec_nat_info(),
            final(self).spec_config() == old(self).spec_config(),
            final(self).spec_local_addr() == old(self).spec_local_addr(),
            e matches ChaincraftError::Network(NetworkError::HolePunchFailed { addr, reason })
                && addr == remote_addr
                && reason@ == "no ack received within "@ + duration_debug_spec(
                    old(self).spec_config().hole_punch_timeout.spec_secs(),
                    old(self).spec_config().hole_punch_timeout.spec_subsec(),
                ),
    {
        self.sessions.remove(&session_id);
        let timeout = self.config.hole_punch_timeout;
        let t = duration_debug_text(timeout.as_secs(), timeout.subsec_nanos());
        ChaincraftError::Network(NetworkError::HolePunchFailed {
            addr: remote_addr,
            reason: text_of("no ack received within ", t.as_str()),
        })
    }

    /// Whether public address discovery may start: an error when NAT
    /// traversal is disabled.
    pub fn check_discovery_enabled(&self) -> (r: Result<(), ChaincraftError>)
        ensures
            self.spec_config().enabled ==> r is Ok,
            !self.spec_config().enabled ==> (r matches Err(ChaincraftError::Network(NetworkError::NatDiscoveryFailed { reason }))
                && reason@ == "NAT traversal is disabled"@),
    {
        if !self.config.enabled {
            return Err(ChaincraftError::Network(NetworkError::NatDiscoveryFailed {
                reason: copy_str("NAT traversal is disabled"),
            }));
        }
        Ok(())
    }

    /// Takes in the reply to a discover request sent with `nonce`: a
    /// response with that nonce records the observed address as the public
    /// address (refreshed at `now`) and returns it; anything else is an
    /// error and changes nothing.
    pub fn accept_discover_reply(&mut self, nonce: u64, reply: HolePunchMessage, now: u64) -> (r: Result<NetAddr, ChaincraftError>)
        requires
            old(self).wf(),
        ensures
            final(self).wf(),
            final(self).spec_sessions() == old(self).spec_sessions(),
            final(self).spec_keep_alive() == old(self).spec_keep_alive(),
            final(self).spec_config() == old(self).spec_config(),
            final(self).spec_local_addr() == old(self).spec_local_addr(),
            match accepted_addr(nonce, reply) {
                Some(observed_addr) => {
                    &&& r == Ok::<NetAddr, ChaincraftError>(observed_addr)
                    &&& final(self).spec_nat_info() == (NatInfo {
                        public_addr: Some(observed_addr),
                        last_updated: now,
                        ..old(self).spec_nat_info()
                    })
                },
                None => {
                    &&& r matches Err(ChaincraftError::Network(NetworkError::NatDiscoveryFailed { reason }))
                        && reason@ == "Unexpected response to DiscoverRequest"@
                    &&& final(self).spec_nat_info() == old(self).spec_nat_info()
                },
            },
    {
        match reply {
            HolePunchMessage::DiscoverResponse { nonce: n, observed_addr } => {
                if n == nonce {
                    self.nat_info = NatInfo { public_addr: Some(observed_addr), last_updated: now, ..self.nat_info };
                    return Ok(observed_addr);
                }
            },
            _ => {},
        }
        Err(ChaincraftError::Network(NetworkError::NatDiscoveryFailed {
            reason: copy_str("Unexpected response to DiscoverRequest"),
        }))
    }

    /// The error for a discovery that got no reply within the timeout.
    pub fn discovery_timeout_error(&self) -> (e: ChaincraftError)
        ensures
            e == ChaincraftError::Network(NetworkError::Timeout { duration: self.spec_config().discovery_timeout }),
    {
        ChaincraftError::Network(NetworkError::Timeout { duration: self.config.discovery_timeout })
    }

    /// Records the outcome of probing two reflectors at `now`: the NAT type
    /// they indicate and the first address observed; returns the new info.
    pub fn record_probe(&mut self, observed1: Option<NetAddr>, observed2: Option<NetAddr>, now: u64) -> (i: NatInfo)
        requires
            old(self).wf(),
        ensures
            final(self).wf(),
            i == (NatInfo {
                public_addr: if observed1 is Some { observed1 } else { observed2 },
                nat_type: classify_nat_spec(observed1, observed2),
                last_updated: now,
            }),
            final(self).spec_nat_info() == i,
            final(self).spec_sessions() == old(self).spec_sessions(),
            final(self).spec_keep_alive() == old(self).spec_keep_alive(),
            final(self).spec_config() == old(self).spec_config(),
            final(self).spec_local_addr() == old(self).spec_local_addr(),
    {
        let public_addr = match observed1 {
            Some(a) => Some(a),
            None => observed2,
        };
        let info = NatInfo { public_addr, nat_type: classify_nat(observed1, observed2), last_updated: now };
        self.nat_info = info;
        info
    }

    /// The keep-alive message to send to every keep-alive peer at Unix time
    /// `timestamp` (seconds); none when NAT traversal is disabled.
    pub fn keep_alive_message(&self, timestamp: u64) -> (m: Option<HolePunchMessage>)
        ensures
            self.spec_config().enabled ==> m == Some(HolePunchMessage::KeepAlive { sender_addr: self.spec_local_addr(), timestamp }),
            !self.spec_config().enabled ==> m is None,
    {
        if !self.config.enabled {
            return None;
        }
        Some(HolePunchMessage::KeepAlive { sender_addr: self.local_addr, timestamp })
    }
}

proof fn lemma_filter_no_duplicates(s: Seq<NetAddr>, pred: spec_fn(NetAddr) -> bool)
    requires
        s.no_duplicates(),
    ensures
        s.filter(pred).no_duplicates(),
    decreases s.len(),
{
    reveal(Seq::filter);
    if s.len() > 0 {
        let t = s.drop_last();
        assert(t.no_duplicates()) by {
            assert forall|i: int, j: int| 0 <= i < t.len() && 0 <= j < t.len() && i != j implies t[i] != t[j] by {
                assert(t[i] == s[i]);
                assert(t[j] == s[j]);
            }
        }
        lemma_filter_no_duplicates(t, pred);
        if pred(s.last()) {
            broadcast use vstd::seq_lib::group_filter_ensures;
            let f = t.filter(pred);
            assert(!f.contains(s.last())) by {
                if f.contains(s.last()) {
                    t.lemma_filter_contains_rev(pred, s.last());
                    let m = choose|m: int| 0 <= m < t.len() && t[m] == s.last();
                    assert(s[m] == s[s.len() - 1]);
                }
            }
            let g = f.push(s.last());
            assert forall|i: int, j: int| 0 <= i < g.len() && 0 <= j < g.len() && i != j implies g[i] != g[j] by {
                if i == g.len() - 1 {
                    assert(f.contains(g[j]));
                } else if j == g.len() - 1 {
                    assert(f.contains(g[i]));
                }
            }
        }
    }
}


/// The address accepted from a reply to a discover request sent with
/// `nonce`: the observed address of a response with that nonce.
pub open spec fn accepted_addr(nonce: u64, reply: HolePunchMessage) -> Option<NetAddr> {
    match reply {
        HolePunchMessage::DiscoverResponse { nonce: n, observed_addr } => if n == nonce {
            Some(observed_addr)
        } else {
            None
        },
        _ => None,
    }
}

/// A reflector's answer to a discover request is accepted by the
/// requester, and reports the address the reflector saw it send from.
pub proof fn lemma_discovery_roundtrip(nonce: u64, observed: NetAddr)
    ensures
        accepted_addr(nonce, HolePunchMessage::DiscoverResponse { nonce, observed_addr: observed }) == Some(observed),
{
}

/// Registering a keep-alive peer twice is the same as once; and after it is
/// removed it is no longer listed, while a list without it is back as it
/// was.
pub proof fn lemma_keep_alive_add_remove(peers: Seq<NetAddr>, addr: NetAddr)
    requires
        peers.no_duplicates(),
    ensures
        with_peer(with_peer(peers, addr), addr) == with_peer(peers, addr),
        with_peer(peers, addr).contains(addr),
        !with_peer(peers, addr).filter(|a: NetAddr| a != addr).contains(addr),
        !peers.contains(addr) ==> with_peer(peers, addr).filter(|a: NetAddr| a != addr) == peers,
{
    let w = with_peer(peers, addr);
    if !peers.contains(addr) {
        assert(w[peers.len() as int] == addr);
    }
    assert(w.contains(addr));
    broadcast use vstd::seq_lib::group_filter_ensures;
    let pred = |a: NetAddr| a != addr;
    if w.filter(pred).contains(addr) {
        w.lemma_filter_contains_rev(pred, addr);
        let k = choose|k: int| 0 <= k < w.filter(pred).len() && w.filter(pred)[k] == addr;
        assert(pred(w.filter(pred)[k]));
    }
    if !peers.contains(addr) {
        reveal(Seq::filter);
        assert(w.drop_last() =~= peers);
        lemma_filter_all(peers, pred);
    }
}

proof fn lemma_filter_all(s: Seq<NetAddr>, pred: spec_fn(NetAddr) -> bool)
    requires
        forall|i: int| 0 <= i < s.len() ==> pred(#[trigger] s[i]),
    ensures
        s.filter(pred) == s,
    decreases s.len(),
{
    reveal(Seq::filter);
    if s.len() > 0 {
        assert forall|i: int| 0 <= i < s.drop_last().len() implies pred(#[trigger] s.drop_last()[i]) by {
            assert(s.drop_last()[i] == s[i]);
        }
        lemma_filter_all(s.drop_last(), pred);
        assert(pred(s[s.len() - 1]));
        assert(s.drop_last().push(s.last()) =~= s);
    }
}

} // verus!
