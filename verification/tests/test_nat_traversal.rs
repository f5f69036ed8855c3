use chaincraft::error::{ChaincraftError, NetworkError};
use chaincraft::nat_traversal::{
    classify_nat, discover_response_for, observe_probe_reply, HolePunchMessage, NatInfo, NatTraversalConfig,
    NatTraversalManager, NatType,
};
use chaincraft::net::{NetAddr, TimeSpan};

fn addr(a: u8, b: u8, c: u8, d: u8, port: u16) -> NetAddr {
    NetAddr::V4 { ip: u32::from_be_bytes([a, b, c, d]), port }
}

fn local_config() -> NatTraversalConfig {
    NatTraversalConfig {
        discovery_timeout: TimeSpan::from_secs(2),
        hole_punch_timeout: TimeSpan::from_secs(3),
        keep_alive_interval: TimeSpan::from_secs(5),
        hole_punch_attempts: 3,
        enabled: true,
    }
}

fn disabled_config() -> NatTraversalConfig {
    NatTraversalConfig { enabled: false, ..NatTraversalConfig::default() }
}

#[test]
fn test_nat_type_display() {
    assert_eq!(NatType::Open.to_string(), "Open");
    assert_eq!(NatType::FullCone.to_string(), "FullCone");
    assert_eq!(NatType::RestrictedCone.to_string(), "RestrictedCone");
    assert_eq!(NatType::PortRestrictedCone.to_string(), "PortRestrictedCone");
    assert_eq!(NatType::Symmetric.to_string(), "Symmetric");
    assert_eq!(NatType::Unknown.to_string(), "Unknown");
}

#[test]
fn test_nat_type_equality() {
    assert_eq!(NatType::Open, NatType::Open);
    assert_ne!(NatType::Open, NatType::Symmetric);
}

#[test]
fn test_make_discover_response() {
    let req = HolePunchMessage::DiscoverRequest { nonce: 99 };
    let observed = addr(1, 2, 3, 4, 5678);
    let resp = discover_response_for(req, observed).unwrap();
    if let HolePunchMessage::DiscoverResponse { nonce, observed_addr } = resp {
        assert_eq!(nonce, 99);
        assert_eq!(observed_addr, observed);
    } else {
        panic!("wrong variant");
    }
}

#[test]
fn test_discover_response_only_for_requests() {
    let observed = addr(1, 2, 3, 4, 5678);
    let other = HolePunchMessage::KeepAlive { sender_addr: observed, timestamp: 1 };
    assert!(discover_response_for(other, observed).is_none());
}

#[test]
fn test_manager_creation() {
    let a = addr(127, 0, 0, 1, 0);
    let manager = NatTraversalManager::new(a, local_config(), 0);
    assert_eq!(manager.local_addr(), a);
    assert!(manager.config().enabled);
}

#[test]
fn test_probe_nat_type_returns_unknown_without_reflectors() {
    let manager = NatTraversalManager::new(addr(127, 0, 0, 1, 0), local_config(), 0);
    let info = manager.probe_nat_type();
    assert_eq!(info.nat_type, NatType::Unknown);
    assert!(info.public_addr.is_none());
}

#[test]
fn test_add_remove_keep_alive_peer() {
    let mut manager = NatTraversalManager::new(addr(127, 0, 0, 1, 0), local_config(), 0);
    let peer = addr(127, 0, 0, 1, 9999);
    manager.add_keep_alive_peer(peer);
    assert_eq!(manager.keep_alive_peers().len(), 1);
    manager.add_keep_alive_peer(peer);
    assert_eq!(manager.keep_alive_peers().len(), 1);
    manager.remove_keep_alive_peer(&peer);
    assert_eq!(manager.keep_alive_peers().len(), 0);
}

#[test]
fn test_handle_discover_request() {
    let local = addr(127, 0, 0, 1, 8888);
    let mut manager = NatTraversalManager::new(local, local_config(), 0);
    let sender = addr(1, 2, 3, 4, 5678);
    let resp = manager.handle_message(HolePunchMessage::DiscoverRequest { nonce: 123 }, sender, 10);
    if let Some(HolePunchMessage::DiscoverResponse { nonce, observed_addr }) = resp {
        assert_eq!(nonce, 123);
        assert_eq!(observed_addr, sender);
    } else {
        panic!("expected DiscoverResponse");
    }
}

#[test]
fn test_handle_hole_punch_probe_creates_ack() {
    let local = addr(127, 0, 0, 1, 8888);
    let mut manager = NatTraversalManager::new(local, local_config(), 0);
    let sender = addr(1, 2, 3, 4, 5678);
    let msg = HolePunchMessage::HolePunchProbe { session_id: 77, sender_addr: sender };
    let resp = manager.handle_message(msg, sender, 10);
    if let Some(HolePunchMessage::HolePunchAck { session_id, sender_addr }) = resp {
        assert_eq!(session_id, 77);
        assert_eq!(sender_addr, local);
    } else {
        panic!("expected HolePunchAck");
    }
    assert!(manager.keep_alive_peers().contains(&sender));
    let sessions = manager.get_sessions();
    assert_eq!(sessions.len(), 1);
    assert!(sessions[0].confirmed);
    assert_eq!(sessions[0].remote_addr, sender);
}

#[test]
fn test_coordinate_starts_session_towards_other_peer() {
    let local = addr(10, 0, 0, 1, 1000);
    let mut manager = NatTraversalManager::new(local, local_config(), 0);
    let a = addr(10, 0, 0, 2, 2000);
    let b = addr(10, 0, 0, 3, 3000);
    let msg = HolePunchMessage::CoordinateHolePunch { peer_a_addr: a, peer_b_addr: b, session_id: 5 };
    let resp = manager.handle_message(msg, a, 42);
    assert_eq!(resp, Some(HolePunchMessage::HolePunchProbe { session_id: 5, sender_addr: local }));
    let sessions = manager.get_sessions();
    assert_eq!(sessions.len(), 1);
    assert_eq!(sessions[0].remote_addr, b);
    assert!(!sessions[0].confirmed);
    assert_eq!(sessions[0].started_at, 42);
    // The acknowledgement confirms it.
    assert!(manager.handle_message(HolePunchMessage::HolePunchAck { session_id: 5, sender_addr: b }, b, 50).is_none());
    assert!(manager.get_sessions()[0].confirmed);
}

#[test]
fn test_cleanup_old_sessions() {
    let mut manager = NatTraversalManager::new(addr(127, 0, 0, 1, 0), local_config(), 0);
    let now: u64 = 1_000_000_000_000;
    manager.start_hole_punch(1, addr(127, 0, 0, 1, 9000), now).unwrap();
    assert_eq!(manager.get_sessions().len(), 1);
    manager.cleanup_old_sessions(TimeSpan::from_secs(60), now);
    assert_eq!(manager.get_sessions().len(), 1);
    manager.cleanup_old_sessions(TimeSpan::from_nanos(0), now);
    assert_eq!(manager.get_sessions().len(), 0);
}

#[test]
fn test_discover_public_addr_disabled() {
    let manager = NatTraversalManager::new(addr(127, 0, 0, 1, 0), disabled_config(), 0);
    let result = manager.check_discovery_enabled();
    assert!(result.is_err());
    match result {
        Err(ChaincraftError::Network(NetworkError::NatDiscoveryFailed { reason })) => {
            assert_eq!(reason, "NAT traversal is disabled")
        },
        _ => panic!("expected NatDiscoveryFailed"),
    }
}

#[test]
fn test_initiate_hole_punch_disabled() {
    let mut manager = NatTraversalManager::new(addr(127, 0, 0, 1, 0), disabled_config(), 0);
    let result = manager.start_hole_punch(7, addr(127, 0, 0, 1, 9999), 0);
    assert!(result.is_err());
    assert_eq!(manager.get_sessions().len(), 0);
}

#[test]
fn test_hole_punch_confirm_and_abandon() {
    let local = addr(127, 0, 0, 1, 4000);
    let remote = addr(127, 0, 0, 1, 5000);
    let mut manager = NatTraversalManager::new(local, local_config(), 0);
    let probe = manager.start_hole_punch(9, remote, 1).unwrap();
    assert_eq!(probe, HolePunchMessage::HolePunchProbe { session_id: 9, sender_addr: local });
    let ack = HolePunchMessage::HolePunchAck { session_id: 9, sender_addr: remote };
    assert!(NatTraversalManager::is_hole_punch_ack(9, remote, remote, ack));
    assert!(!NatTraversalManager::is_hole_punch_ack(8, remote, remote, ack));
    assert!(!NatTraversalManager::is_hole_punch_ack(9, remote, local, ack));
    manager.confirm_hole_punch(9, remote);
    assert!(manager.get_sessions()[0].confirmed);
    assert_eq!(manager.keep_alive_peers(), vec![remote]);

    manager.start_hole_punch(10, remote, 2).unwrap();
    let err = manager.abandon_hole_punch(10, remote);
    match err {
        ChaincraftError::Network(NetworkError::HolePunchFailed { addr: a, reason }) => {
            assert_eq!(a, remote);
            assert_eq!(reason, "no ack received within 3s");
        },
        _ => panic!("expected HolePunchFailed"),
    }
    assert_eq!(manager.get_sessions().len(), 1);
}

#[test]
fn test_probe_nat_type_with_same_reflector_same_addr() {
    let mut prober = NatTraversalManager::new(addr(127, 0, 0, 1, 0), local_config(), 0);
    let seen = addr(127, 0, 0, 1, 40000);
    let mut observed = (None, None);
    observed = observe_probe_reply(11, 22, observed, HolePunchMessage::DiscoverResponse { nonce: 11, observed_addr: seen });
    observed = observe_probe_reply(11, 22, observed, HolePunchMessage::DiscoverResponse { nonce: 22, observed_addr: seen });
    let info = prober.record_probe(observed.0, observed.1, 5);
    assert_eq!(info.nat_type, NatType::RestrictedCone);
    assert!(info.public_addr.is_some());
    assert_eq!(prober.nat_info().nat_type, NatType::RestrictedCone);
}

#[test]
fn test_classify_nat_cases() {
    let a = addr(8, 8, 8, 8, 1);
    let b = addr(8, 8, 4, 4, 1);
    assert_eq!(classify_nat(Some(a), Some(a)), NatType::RestrictedCone);
    assert_eq!(classify_nat(Some(a), Some(b)), NatType::Symmetric);
    assert_eq!(classify_nat(Some(a), None), NatType::Unknown);
    assert_eq!(classify_nat(None, Some(b)), NatType::Unknown);
    assert_eq!(classify_nat(None, None), NatType::Unknown);
}

#[test]
fn test_accept_discover_reply() {
    let mut manager = NatTraversalManager::new(addr(127, 0, 0, 1, 0), local_config(), 0);
    let seen = addr(203, 0, 113, 7, 6000);
    let wrong = manager.accept_discover_reply(5, HolePunchMessage::DiscoverResponse { nonce: 6, observed_addr: seen }, 1);
    assert!(wrong.is_err());
    assert!(manager.nat_info().public_addr.is_none());
    let ok = manager.accept_discover_reply(5, HolePunchMessage::DiscoverResponse { nonce: 5, observed_addr: seen }, 2);
    assert_eq!(ok.unwrap(), seen);
    assert_eq!(manager.nat_info().public_addr, Some(seen));
    assert_eq!(manager.nat_info().last_updated, 2);
    match manager.discovery_timeout_error() {
        ChaincraftError::Network(NetworkError::Timeout { duration }) => assert_eq!(duration.as_nanos(), 2_000_000_000),
        _ => panic!("expected Timeout"),
    }
}

#[test]
fn test_keep_alive_message() {
    let local = addr(127, 0, 0, 1, 7000);
    let manager = NatTraversalManager::new(local, local_config(), 0);
    assert_eq!(manager.keep_alive_message(99), Some(HolePunchMessage::KeepAlive { sender_addr: local, timestamp: 99 }));
    let disabled = NatTraversalManager::new(local, disabled_config(), 0);
    assert_eq!(disabled.keep_alive_message(99), None);
}

#[test]
fn test_nat_traversal_config_default() {
    let config = NatTraversalConfig::default();
    assert!(config.enabled);
    assert_eq!(config.hole_punch_attempts, 5);
    assert_eq!(config.keep_alive_interval, TimeSpan::from_secs(25));
}

#[test]
fn test_nat_info_unknown_default() {
    let info = NatInfo::unknown(0);
    assert_eq!(info.nat_type, NatType::Unknown);
    assert!(info.public_addr.is_none());
}
