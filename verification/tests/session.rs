use halo::crypto::pairing::pairing_code;
use halo::crypto::store::PeerId;
use halo::net::SocketAddr;
use halo::service::pairing::{
    PairingError, PairingEventKind, PlatformPairingChannelState, EVENT_LIMIT,
    MAX_AUTHENTICATED_SESSIONS, MAX_PLATFORM_CHANNELS,
};
use halo::service::session::{
    connect_failure_event, failed_event, initiator_candidates, new_event, pairing_code_text,
    parse_peer_handle, peer_fingerprint, peer_handle, platform_control_error,
    remaining_addresses, try_next_candidate, check_peer_reference, select_connect_addresses, AttemptTracker, ChannelRegistry, PairingEventLog,
    SessionAdmission, SessionRegistry,
};
use halo::time::Duration;
use halo::transport::frame_io::FrameIoError;
use halo::transport::pairing_flow::PairingFlowError;
use halo::transport::platform_control::PlatformControlError;
use halo::transport::race::ConnectErrorKind;

fn peer(byte: u8) -> PeerId {
    PeerId::from_bytes([byte; 16])
}

#[test]
fn fingerprints_and_handles_are_stable_text() {
    let id = PeerId::from_bytes([
        0x0a, 0xbc, 0xde, 0xf0, 0x12, 0x34, 0x56, 0x78, 0, 0, 0, 0, 0, 0, 0, 0xff,
    ]);
    assert_eq!(peer_fingerprint(&id), "0A:BC:DE:F0:12:34");
    let handle = peer_handle(&id);
    assert_eq!(handle, "0abcdef01234567800000000000000ff");
    assert_eq!(parse_peer_handle(&handle), Some(id));
    assert_eq!(parse_peer_handle(&handle.to_uppercase()), Some(id));
    assert_eq!(parse_peer_handle("not-a-handle"), None);
    assert_eq!(parse_peer_handle(&handle[..30]), None);
}

#[test]
fn pairing_codes_keep_leading_zeros() {
    for seed in 0u8..16 {
        let code = pairing_code(&[seed; 32]).unwrap();
        let text = pairing_code_text(code);
        assert_eq!(text, format!("{:06}", code.value()));
        assert_eq!(text.len(), 6);
    }
}

#[test]
fn events_carry_stable_categories() {
    let event = new_event(
        PairingEventKind::CodeAvailable,
        Some("ref".to_owned()),
        Some("AA:BB".to_owned()),
        Some("123456".to_owned()),
    );
    assert_eq!(event.event_id, 0);
    assert_eq!(event.kind, PairingEventKind::CodeAvailable);
    assert_eq!(event.short_code.as_deref(), Some("123456"));
    let failed = failed_event(None, "store");
    assert_eq!(failed.kind, PairingEventKind::Failed);
    assert_eq!(failed.detail.as_deref(), Some("store"));
    let timeout = connect_failure_event(Some("x".to_owned()), ConnectErrorKind::Timeout);
    assert_eq!(timeout.kind, PairingEventKind::TimedOut);
    assert_eq!(timeout.detail.as_deref(), Some("connect_timeout"));
    let changed = connect_failure_event(None, ConnectErrorKind::IdentityChanged);
    assert_eq!(changed.kind, PairingEventKind::IdentityChanged);
    assert_eq!(changed.detail.as_deref(), Some("connect_identity_changed"));
    let unreachable = connect_failure_event(None, ConnectErrorKind::Unreachable);
    assert_eq!(unreachable.kind, PairingEventKind::Failed);
    assert_eq!(
        platform_control_error(PlatformControlError::QueueFull),
        PairingError::PlatformChannelBackpressure
    );
}

#[test]
fn one_session_per_peer_and_bounded_registry() {
    let mut registry = SessionRegistry::new();
    assert_eq!(registry.insert(peer(1), Some("one".to_owned())), Ok(SessionAdmission::Inserted(1)));
    assert_eq!(registry.insert(peer(1), None), Ok(SessionAdmission::Existing(1)));
    assert_eq!(registry.insert(peer(2), None), Ok(SessionAdmission::Inserted(2)));
    assert_eq!(registry.session_for_peer(&peer(2)), Some(2));
    assert_eq!(registry.peer_of_session(1), Some(peer(1)));
    let infos = registry.infos();
    assert_eq!(infos.len(), 2);
    assert_eq!(infos[0].session_id, 1);
    assert_eq!(infos[0].peer_reference.as_deref(), Some("one"));
    assert_eq!(registry.remove(1).map(|entry| entry.peer_id), Some(peer(1)));
    assert_eq!(registry.remove(1), None);
    for byte in 10..(10 + MAX_AUTHENTICATED_SESSIONS as u8 - 1) {
        assert!(matches!(registry.insert(peer(byte), None), Ok(SessionAdmission::Inserted(_))));
    }
    assert!(registry.insert(peer(200), None).is_err());
    registry.clear();
    assert_eq!(registry.session_for_peer(&peer(2)), None);
}

#[test]
fn platform_channels_are_bounded_and_tracked() {
    let mut channels = ChannelRegistry::new();
    let first = channels.insert().unwrap();
    assert_eq!(channels.state(first), Ok(PlatformPairingChannelState::Pending));
    channels.set_state(first, PlatformPairingChannelState::Authenticated);
    assert_eq!(channels.state(first), Ok(PlatformPairingChannelState::Authenticated));
    for _ in 1..MAX_PLATFORM_CHANNELS {
        channels.insert().unwrap();
    }
    assert_eq!(channels.insert(), Err(PairingError::Busy));
    assert_eq!(channels.remove(first), Ok(()));
    assert_eq!(channels.remove(first), Err(PairingError::PlatformChannelNotFound));
    assert_eq!(channels.state(first), Err(PairingError::PlatformChannelNotFound));
}

#[test]
fn event_log_numbers_and_keeps_the_latest() {
    let mut log = PairingEventLog::new();
    for _ in 0..(EVENT_LIMIT + 2) {
        assert!(log.has_room());
        log.push(new_event(PairingEventKind::Connecting, None, None, None));
    }
    let all = log.after(0);
    assert_eq!(all.len(), EVENT_LIMIT);
    assert_eq!(all[0].event_id, 3);
    assert_eq!(all[EVENT_LIMIT - 1].event_id, (EVENT_LIMIT + 2) as u64);
    let recent = log.after((EVENT_LIMIT as u64) + 1);
    assert_eq!(recent.len(), 1);
}

#[test]
fn attempts_are_exclusive_and_rate_limited() {
    let mut tracker = AttemptTracker::new();
    let cooldown = Duration::from_secs(5);
    let key = tracker
        .reserve(Some("Peer-A"), Duration::from_secs(10), cooldown)
        .unwrap()
        .unwrap();
    assert_eq!(
        tracker.reserve(Some("peer-a"), Duration::from_secs(10), cooldown),
        Err(PairingError::Busy)
    );
    tracker.release(&key, Duration::from_secs(11));
    assert_eq!(
        tracker.reserve(Some("PEER-A"), Duration::from_secs(12), cooldown),
        Err(PairingError::RateLimited)
    );
    assert!(tracker.reserve(Some("peer-a"), Duration::from_secs(17), cooldown).unwrap().is_some());
    assert_eq!(tracker.reserve(None, Duration::from_secs(17), cooldown), Ok(None));
}

#[test]
fn candidates_are_staggered_and_retried_in_order() {
    let a = SocketAddr::V4 { ip: [192, 168, 1, 2], port: 4433 };
    let b = SocketAddr::V4 { ip: [192, 168, 1, 3], port: 4433 };
    let c = SocketAddr::V6 { ip: [0xfe; 16], port: 4433, flowinfo: 0, scope_id: 2 };
    let addresses = vec![a, b, c];
    let candidates = initiator_candidates(&addresses);
    assert_eq!(candidates.len(), 3);
    assert_eq!(candidates[0].start_delay, Duration::from_millis(0));
    assert_eq!(candidates[2].start_delay, Duration::from_millis(300));
    assert_eq!(candidates[1].endpoint, b);
    assert_eq!(remaining_addresses(&addresses, &b), vec![a, c]);
    assert!(try_next_candidate(&PairingFlowError::Io(FrameIoError::Read), true, false));
    assert!(!try_next_candidate(&PairingFlowError::Io(FrameIoError::Read), false, false));
    assert!(!try_next_candidate(&PairingFlowError::Io(FrameIoError::Read), true, true));
    assert!(!try_next_candidate(&PairingFlowError::IdentityChanged, true, false));
}

#[test]
fn connect_targets_are_local_unique_and_bounded() {
    assert_eq!(check_peer_reference(""), Err(PairingError::InvalidPeerReference));
    assert_eq!(check_peer_reference(&"x".repeat(65)), Err(PairingError::InvalidPeerReference));
    assert_eq!(check_peer_reference(&"x".repeat(64)), Ok(()));
    let a = SocketAddr::V4 { ip: [192, 168, 1, 2], port: 4433 };
    let b = SocketAddr::V4 { ip: [8, 8, 8, 8], port: 4433 };
    let c = SocketAddr::V4 { ip: [192, 168, 1, 3], port: 4433 };
    assert_eq!(
        select_connect_addresses(&vec![a, b, a, c], &vec![true, false, true, true]),
        Ok(vec![a, c])
    );
    assert_eq!(
        select_connect_addresses(&vec![b], &vec![false]),
        Err(PairingError::NoEndpoints)
    );
    let many: Vec<SocketAddr> = (0..12u8).map(|i| SocketAddr::V4 { ip: [10, 0, 0, i], port: 1 }).collect();
    assert_eq!(select_connect_addresses(&many, &vec![true; 12]).unwrap().len(), 8);
}
