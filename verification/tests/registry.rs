use halo::discovery::error::{DiscoveryError, ProviderError};
use halo::discovery::manager::{provider_exit_state, validate_provider_ids};
use halo::discovery::model::{
    Capabilities, ConnectionFailure, ConnectionOutcome, DiscoveryConfig, DiscoveryEvent,
    Endpoint, LocalPresence, Observation, PeerSnapshot, PresenceId, ProtocolRange, ProviderId,
    ProviderKind, ProviderState,
};
use halo::discovery::registry::{normalize_endpoints, PeerTable};
use halo::net::SocketAddr;
use halo::time::Duration;

fn protocol() -> ProtocolRange {
    ProtocolRange::new(1, 2).unwrap_or_else(|error| panic!("test range: {error:?}"))
}

fn local() -> LocalPresence {
    LocalPresence::new(
        PresenceId::from_bytes([1; 16]),
        protocol(),
        Capabilities::default(),
        4433,
    )
    .unwrap_or_else(|error| panic!("test local: {error:?}"))
}

fn provider(kind: ProviderKind, name: &str) -> ProviderId {
    ProviderId::new(kind, name).unwrap_or_else(|error| panic!("test provider: {error:?}"))
}

fn endpoint(last: u8) -> Endpoint {
    Endpoint::quic(SocketAddr::V4 { ip: [192, 0, 2, last], port: 4433 })
        .unwrap_or_else(|error| panic!("test endpoint: {error:?}"))
}

fn observation(
    presence_id: PresenceId,
    provider: ProviderId,
    endpoint: Option<Endpoint>,
    ttl: Duration,
) -> Observation {
    Observation {
        provider,
        presence_id,
        protocol: protocol(),
        capabilities: Capabilities::default(),
        sequence: 1,
        endpoints: endpoint.into_iter().collect(),
        ttl,
        round_trip_time: None,
    }
}

fn snapshot(table: &PeerTable) -> Vec<PeerSnapshot> {
    table.snapshot_all(local().protocol)
}

fn observe(table: &mut PeerTable, config: &DiscoveryConfig, now: Duration, seen: Observation) {
    let event = table.apply_observation(seen, &local(), config, now);
    assert!(event.is_some());
}

fn report(table: &mut PeerTable, remote: PresenceId, address: Endpoint, outcome: ConnectionOutcome) {
    let events = table.apply_connection_result(&remote, &address, outcome, &local());
    assert!(!events.is_empty());
}

#[test]
fn merges_sources_and_expires_them_independently() {
    let config = DiscoveryConfig {
        min_observation_ttl: Duration::from_secs(1),
        max_observation_ttl: Duration::from_secs(30),
        expiry_interval: Duration::from_millis(100),
        ..DiscoveryConfig::default()
    };
    let mut table = PeerTable::new();
    let remote = PresenceId::from_bytes([2; 16]);
    let address = endpoint(10);
    let start = Duration::from_secs(0);

    observe(
        &mut table,
        &config,
        start,
        observation(remote, provider(ProviderKind::Mdns, "mdns"), Some(address), Duration::from_secs(2)),
    );
    observe(
        &mut table,
        &config,
        start,
        observation(
            remote,
            provider(ProviderKind::PresenceV4, "lan-v4"),
            Some(address),
            Duration::from_secs(10),
        ),
    );

    let peers = snapshot(&table);
    assert_eq!(peers.len(), 1);
    assert_eq!(peers[0].sources.len(), 2);
    assert_eq!(peers[0].candidates[0].sources.len(), 2);

    let events = table.expire_stale(Duration::from_secs(3), &local());
    assert_eq!(events.len(), 1);
    assert!(matches!(events[0], DiscoveryEvent::PeerChanged(_)));
    let peers = snapshot(&table);
    assert_eq!(peers.len(), 1);
    assert_eq!(peers[0].sources.len(), 1);
    assert_eq!(peers[0].candidates[0].sources.len(), 1);

    let events = table.expire_stale(Duration::from_secs(11), &local());
    assert_eq!(events.len(), 1);
    assert!(matches!(events[0], DiscoveryEvent::PeerExpired(id) if id == remote));
    assert!(snapshot(&table).is_empty());
}

#[test]
fn actual_connection_results_change_best_endpoint() {
    let config = DiscoveryConfig::default();
    let mut table = PeerTable::new();
    let remote = PresenceId::from_bytes([3; 16]);
    let first = endpoint(1);
    let second = endpoint(2);
    let source = provider(ProviderKind::Mdns, "mdns");
    let mut seen = observation(remote, source, Some(first), Duration::from_secs(10));
    seen.endpoints.push(second);
    observe(&mut table, &config, Duration::from_secs(0), seen);

    report(
        &mut table,
        remote,
        second,
        ConnectionOutcome::Success { handshake_time: Duration::from_millis(15) },
    );
    let peers = snapshot(&table);
    assert_eq!(peers[0].best_endpoint, Some(second));
}

#[test]
fn successful_endpoint_is_sticky_until_repeated_failure() {
    let config = DiscoveryConfig::default();
    let mut table = PeerTable::new();
    let remote = PresenceId::from_bytes([9; 16]);
    let first = endpoint(1);
    let second = endpoint(2);
    let mut seen = observation(
        remote,
        provider(ProviderKind::Mdns, "mdns"),
        Some(first),
        Duration::from_secs(10),
    );
    seen.endpoints.push(second);
    observe(&mut table, &config, Duration::from_secs(0), seen);
    report(
        &mut table,
        remote,
        second,
        ConnectionOutcome::Success { handshake_time: Duration::from_millis(20) },
    );

    observe(
        &mut table,
        &config,
        Duration::from_secs(0),
        observation(
            remote,
            provider(ProviderKind::Direct, "direct"),
            Some(first),
            Duration::from_secs(10),
        ),
    );
    let peers = snapshot(&table);
    assert_eq!(peers[0].best_endpoint, Some(second));

    for _ in 0..2 {
        report(&mut table, remote, second, ConnectionOutcome::Failure(ConnectionFailure::Timeout));
    }
    let peers = snapshot(&table);
    assert_eq!(peers[0].best_endpoint, Some(first));
}

#[test]
fn authentication_failure_quarantines_whole_presence() {
    let config = DiscoveryConfig::default();
    let mut table = PeerTable::new();
    let remote = PresenceId::from_bytes([4; 16]);
    let address = endpoint(4);
    observe(
        &mut table,
        &config,
        Duration::from_secs(0),
        observation(
            remote,
            provider(ProviderKind::Direct, "direct"),
            Some(address),
            Duration::from_secs(10),
        ),
    );
    let events = table.apply_connection_result(
        &remote,
        &address,
        ConnectionOutcome::Failure(ConnectionFailure::AuthenticationFailed),
        &local(),
    );
    assert_eq!(events.len(), 2);
    assert!(matches!(events[0], DiscoveryEvent::PeerQuarantined(id) if id == remote));
    let peers = snapshot(&table);
    assert!(peers[0].quarantined);
    assert_eq!(peers[0].best_endpoint, None);
}

#[test]
fn own_presence_and_zero_ttl_observations_are_ignored() {
    let config = DiscoveryConfig::default();
    let mut table = PeerTable::new();
    let echo = observation(
        local().presence_id,
        provider(ProviderKind::Mdns, "mdns"),
        Some(endpoint(1)),
        Duration::from_secs(10),
    );
    assert!(table.apply_observation(echo, &local(), &config, Duration::from_secs(0)).is_none());
    let expired = observation(
        PresenceId::from_bytes([5; 16]),
        provider(ProviderKind::Mdns, "mdns"),
        Some(endpoint(1)),
        Duration::from_secs(0),
    );
    assert!(table.apply_observation(expired, &local(), &config, Duration::from_secs(0)).is_none());
    assert_eq!(table.len(), 0);
}

#[test]
fn peer_limit_drops_new_presences_but_updates_known_ones() {
    let config = DiscoveryConfig { max_peers: 1, ..DiscoveryConfig::default() };
    let mut table = PeerTable::new();
    let first = PresenceId::from_bytes([6; 16]);
    let second = PresenceId::from_bytes([7; 16]);
    let source = provider(ProviderKind::Mdns, "mdns");
    let appeared = table.apply_observation(
        observation(first, source.clone(), Some(endpoint(1)), Duration::from_secs(10)),
        &local(),
        &config,
        Duration::from_secs(0),
    );
    assert!(matches!(appeared, Some(DiscoveryEvent::PeerAppeared(_))));
    let dropped = table.apply_observation(
        observation(second, source.clone(), Some(endpoint(2)), Duration::from_secs(10)),
        &local(),
        &config,
        Duration::from_secs(0),
    );
    assert!(dropped.is_none());
    let changed = table.apply_observation(
        observation(first, source, Some(endpoint(3)), Duration::from_secs(10)),
        &local(),
        &config,
        Duration::from_secs(1),
    );
    assert!(matches!(changed, Some(DiscoveryEvent::PeerChanged(_))));
    let peers = snapshot(&table);
    assert_eq!(peers.len(), 1);
    assert_eq!(peers[0].candidates.len(), 2);
}

#[test]
fn snapshots_are_ordered_by_presence_id() {
    let config = DiscoveryConfig::default();
    let mut table = PeerTable::new();
    for byte in [9u8, 3, 7] {
        observe(
            &mut table,
            &config,
            Duration::from_secs(0),
            observation(
                PresenceId::from_bytes([byte; 16]),
                provider(ProviderKind::Mdns, "mdns"),
                Some(endpoint(byte)),
                Duration::from_secs(10),
            ),
        );
    }
    let ids: Vec<u8> = snapshot(&table).iter().map(|peer| peer.presence_id.0[0]).collect();
    assert_eq!(ids, vec![3, 7, 9]);
}

#[test]
fn withdrawal_removes_only_that_providers_evidence() {
    let config = DiscoveryConfig::default();
    let mut table = PeerTable::new();
    let remote = PresenceId::from_bytes([8; 16]);
    let mdns = provider(ProviderKind::Mdns, "mdns");
    let direct = provider(ProviderKind::Direct, "direct");
    observe(
        &mut table,
        &config,
        Duration::from_secs(0),
        observation(remote, mdns.clone(), Some(endpoint(1)), Duration::from_secs(10)),
    );
    observe(
        &mut table,
        &config,
        Duration::from_secs(0),
        observation(remote, direct.clone(), Some(endpoint(2)), Duration::from_secs(10)),
    );
    let event = table.withdraw_provider(&mdns, &remote, &local());
    assert!(matches!(event, Some(DiscoveryEvent::PeerChanged(_))));
    let peers = snapshot(&table);
    assert_eq!(peers[0].sources.len(), 1);
    assert_eq!(peers[0].candidates.len(), 1);
    assert_eq!(peers[0].candidates[0].endpoint, endpoint(2));

    let event = table.withdraw_provider(&direct, &remote, &local());
    assert!(matches!(event, Some(DiscoveryEvent::PeerExpired(id)) if id == remote));
    assert_eq!(table.len(), 0);
    assert!(table.withdraw_provider(&direct, &remote, &local()).is_none());
}

#[test]
fn incompatible_peer_has_no_best_endpoint() {
    let config = DiscoveryConfig::default();
    let mut table = PeerTable::new();
    let remote = PresenceId::from_bytes([10; 16]);
    let mut seen = observation(
        remote,
        provider(ProviderKind::Mdns, "mdns"),
        Some(endpoint(1)),
        Duration::from_secs(10),
    );
    seen.protocol = ProtocolRange::new(5, 6).unwrap_or_else(|error| panic!("range: {error:?}"));
    observe(&mut table, &config, Duration::from_secs(0), seen);
    let peers = snapshot(&table);
    assert!(!peers[0].compatible);
    assert_eq!(peers[0].best_endpoint, None);
    assert_eq!(peers[0].candidates[0].score, i32::MIN);
}

#[test]
fn endpoints_are_sorted_deduplicated_and_capped() {
    let input = vec![endpoint(9), endpoint(3), endpoint(9), endpoint(5), endpoint(1)];
    let out = normalize_endpoints(&input, 3);
    assert_eq!(out, vec![endpoint(1), endpoint(3), endpoint(5)]);
    let v6 = Endpoint::quic(SocketAddr::V6 { ip: [0x20; 16], port: 1, flowinfo: 0, scope_id: 0 })
        .unwrap_or_else(|error| panic!("v6: {error:?}"));
    let mixed = normalize_endpoints(&vec![v6, endpoint(200)], 8);
    assert_eq!(mixed, vec![endpoint(200), v6]);
}

#[test]
fn connection_rtt_is_averaged() {
    let config = DiscoveryConfig::default();
    let mut table = PeerTable::new();
    let remote = PresenceId::from_bytes([11; 16]);
    let address = endpoint(1);
    observe(
        &mut table,
        &config,
        Duration::from_secs(0),
        observation(remote, provider(ProviderKind::Mdns, "mdns"), Some(address), Duration::from_secs(10)),
    );
    report(&mut table, remote, address, ConnectionOutcome::Success { handshake_time: Duration::from_millis(10) });
    report(&mut table, remote, address, ConnectionOutcome::Success { handshake_time: Duration::from_millis(30) });
    let peers = snapshot(&table);
    assert_eq!(peers[0].candidates[0].round_trip_time, Some(Duration::from_millis(20)));
    assert_eq!(peers[0].candidates[0].successful_connections, 2);
}

#[test]
fn duplicate_provider_ids_are_rejected() {
    let ids = vec![
        provider(ProviderKind::Mdns, "mdns"),
        provider(ProviderKind::Direct, "direct"),
        provider(ProviderKind::Mdns, "mdns"),
    ];
    match validate_provider_ids(&ids) {
        Err(DiscoveryError::InvalidConfig(message)) => {
            assert_eq!(message, "duplicate provider id 'mdns'");
        }
        other => panic!("unexpected: {other:?}"),
    }
    assert!(validate_provider_ids(&ids[..2].to_vec()).is_ok());
}

#[test]
fn provider_exit_state_reflects_cancellation_and_errors() {
    assert_eq!(provider_exit_state(Ok(()), true), ProviderState::Stopped);
    assert_eq!(
        provider_exit_state(Ok(()), false),
        ProviderState::Failed { recoverable: true, reason: "provider stopped unexpectedly".to_owned() }
    );
    assert_eq!(
        provider_exit_state(Err(ProviderError::Network("down".to_owned())), true),
        ProviderState::Failed { recoverable: true, reason: "network operation failed: down".to_owned() }
    );
    assert_eq!(ProviderError::EventStreamClosed.message(), "provider event stream closed");
}
