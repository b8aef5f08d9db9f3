use halo::discovery::ble::{decode_presence, encode_presence, BleDescriptorError};
use halo::discovery::error::{DiscoveryError, ProviderError};
use halo::discovery::model::{
    Capabilities, DeviceType, DiscoveryConfig, Endpoint, LocalPresence, PresenceId,
    ProtocolRange, ProviderId, ProviderKind,
};
use halo::discovery::providers::direct::{
    probe_observation, random_nonce as direct_random_nonce, response_matches, DirectProbeConfig,
    DirectProbeProvider, KnownEndpoint,
};
use halo::discovery::providers::mdns::{validate_service_type, MdnsConfig, HALO_SERVICE_TYPE};
use halo::discovery::providers::presence::{
    endpoint_from_source, is_probably_tunnel, random_nonce as presence_random_nonce,
    response_target, validate_v4_config, DatagramAction, PresenceLoop, PresenceV4Config,
    PresenceV6Config, PRESENCE_PORT,
};
use halo::discovery::ranking::{
    score_candidate, source_weight, EndpointEvidence, EndpointRecord,
};
use halo::discovery::wire::{MessageKind, PresenceMessage, WireError, PACKET_LEN};
use halo::net::SocketAddr;
use halo::time::Duration;

fn v4(octets: [u8; 4], port: u16) -> SocketAddr {
    SocketAddr::V4 { ip: octets, port }
}

fn local() -> LocalPresence {
    LocalPresence::new(
        PresenceId::from_bytes([0x11; 16]),
        ProtocolRange::new(1, 3).unwrap_or_else(|error| panic!("test range: {error:?}")),
        Capabilities::from_bits(0x0102_0304_0506_0708),
        4433,
    )
    .unwrap_or_else(|error| panic!("test presence: {error:?}"))
}

#[test]
fn device_type_round_trips_without_changing_feature_bits() {
    let features = Capabilities::from_bits(0x0123_4567_89ab_cdef);
    let android = features.with_device_type(DeviceType::Android);
    assert_eq!(android.device_type(), DeviceType::Android);
    assert_eq!(
        android.bits() & 0x0fff_ffff_ffff_ffff,
        0x0123_4567_89ab_cdef
    );
    assert_eq!(
        android.with_device_type(DeviceType::Macos).device_type(),
        DeviceType::Macos
    );
}

#[test]
fn unset_or_unknown_device_type_is_unknown() {
    assert_eq!(Capabilities::default().device_type(), DeviceType::Unknown);
    assert_eq!(
        Capabilities::from_bits(0xf000_0000_0000_0000).device_type(),
        DeviceType::Unknown
    );
}

#[test]
fn device_type_nibble_has_exact_bits() {
    let bits = Capabilities::from_bits(u64::MAX)
        .with_device_type(DeviceType::Linux)
        .bits();
    assert_eq!(bits, 0x5fff_ffff_ffff_ffff);
}

#[test]
fn golden_query_vector_is_stable() {
    let encoded = PresenceMessage::from_local(
        &local(),
        MessageKind::Query,
        0x1112_1314_1516_1718,
        0x2122_2324_2526_2728,
    )
    .with_reply_port(44721)
    .encode();

    assert_eq!(encoded.len(), PACKET_LEN);
    assert_eq!(&encoded[..12], b"HALODSC1\x01\x01\xae\xb1");
    assert_eq!(&encoded[12..28], &[0x11; 16]);
    assert_eq!(&encoded[28..34], &[0x11, 0x51, 0, 1, 0, 3]);
    assert_eq!(&encoded[34..42], &[1, 2, 3, 4, 5, 6, 7, 8]);
    assert_eq!(
        PresenceMessage::decode(&encoded),
        Ok(PresenceMessage::from_local(
            &local(),
            MessageKind::Query,
            0x1112_1314_1516_1718,
            0x2122_2324_2526_2728,
        )
        .with_reply_port(44721))
    );
}

#[test]
fn rejects_every_truncated_length() {
    let encoded = PresenceMessage::from_local(&local(), MessageKind::Announce, 1, 0).encode();
    for length in 0..PACKET_LEN {
        assert_eq!(
            PresenceMessage::decode(&encoded[..length]),
            Err(WireError::InvalidLength(length))
        );
    }
}

#[test]
fn rejects_reserved_bytes_and_invalid_fields() {
    let base = PresenceMessage::from_local(&local(), MessageKind::Announce, 1, 0).encode();

    let mut invalid = base;
    invalid[10..12].copy_from_slice(&1_u16.to_be_bytes());
    assert_eq!(
        PresenceMessage::decode(&invalid),
        Err(WireError::InvalidReplyPort)
    );

    let invalid = PresenceMessage::from_local(&local(), MessageKind::Query, 1, 2).encode();
    assert_eq!(
        PresenceMessage::decode(&invalid),
        Err(WireError::InvalidReplyPort)
    );

    let mut invalid = base;
    invalid[28..30].copy_from_slice(&0_u16.to_be_bytes());
    assert_eq!(
        PresenceMessage::decode(&invalid),
        Err(WireError::InvalidPort)
    );

    let mut invalid = base;
    invalid[30..32].copy_from_slice(&4_u16.to_be_bytes());
    invalid[32..34].copy_from_slice(&3_u16.to_be_bytes());
    assert_eq!(
        PresenceMessage::decode(&invalid),
        Err(WireError::InvalidProtocolRange)
    );
}

#[test]
fn presence_header_errors_come_in_order() {
    let base = PresenceMessage::from_local(&local(), MessageKind::Announce, 1, 0).encode();
    let mut invalid = base;
    invalid[0] = b'X';
    assert_eq!(PresenceMessage::decode(&invalid), Err(WireError::InvalidMagic));
    let mut invalid = base;
    invalid[8] = 2;
    assert_eq!(
        PresenceMessage::decode(&invalid),
        Err(WireError::UnsupportedVersion(2))
    );
    let mut invalid = base;
    invalid[9] = 9;
    assert_eq!(PresenceMessage::decode(&invalid), Err(WireError::UnknownKind(9)));
    let mut longer = base.to_vec();
    longer.push(0);
    assert_eq!(
        PresenceMessage::decode(&longer),
        Err(WireError::InvalidLength(PACKET_LEN + 1))
    );
}

#[test]
fn every_message_kind_round_trips() {
    for kind in [
        MessageKind::Response,
        MessageKind::Announce,
        MessageKind::Goodbye,
    ] {
        let message = PresenceMessage::from_local(&local(), kind, 77, 88);
        assert_eq!(PresenceMessage::decode(&message.encode()), Ok(message));
    }
}

#[test]
fn ble_presence_uses_shared_strict_codec() {
    let local = LocalPresence::new(
        PresenceId::from_bytes([0x22; 16]),
        ProtocolRange::new(1, 2).unwrap_or_else(|error| panic!("range: {error:?}")),
        Capabilities::from_bits(7),
        4433,
    )
    .unwrap_or_else(|error| panic!("local: {error:?}"));
    let provider = ProviderId::new(ProviderKind::Ble, "ble-ios")
        .unwrap_or_else(|error| panic!("provider: {error:?}"));
    let observation = decode_presence(
        &encode_presence(&local, 42),
        provider.clone(),
        Duration::from_secs(10),
    )
    .unwrap_or_else(|error| panic!("decode: {error:?}"));

    assert_eq!(observation.provider, provider);
    assert_eq!(observation.presence_id, local.presence_id);
    assert_eq!(observation.sequence, 42);
    assert!(observation.endpoints.is_empty());
}

#[test]
fn ble_presence_rejects_zero_ttl_and_other_kinds() {
    let provider = ProviderId::new(ProviderKind::Ble, "ble-android")
        .unwrap_or_else(|error| panic!("provider: {error:?}"));
    let packet = encode_presence(&local(), 1);
    assert_eq!(
        decode_presence(&packet, provider.clone(), Duration::from_secs(0)).map(|o| o.sequence),
        Err(BleDescriptorError::ZeroTtl)
    );
    let response = PresenceMessage::from_local(&local(), MessageKind::Response, 1, 0).encode();
    assert_eq!(
        decode_presence(&response, provider.clone(), Duration::from_secs(1)).map(|o| o.sequence),
        Err(BleDescriptorError::UnexpectedKind(MessageKind::Response))
    );
    assert_eq!(
        decode_presence(&packet[..10], provider, Duration::from_secs(1)).map(|o| o.sequence),
        Err(BleDescriptorError::Wire(WireError::InvalidLength(10)))
    );
}

#[test]
fn protocol_ranges_overlap_and_intersect() {
    let a = ProtocolRange::new(1, 3).unwrap_or_else(|error| panic!("{error:?}"));
    let b = ProtocolRange::new(3, 5).unwrap_or_else(|error| panic!("{error:?}"));
    let c = ProtocolRange::new(4, 6).unwrap_or_else(|error| panic!("{error:?}"));
    assert!(a.overlaps(b));
    assert!(!a.overlaps(c));
    let shared = a
        .intersection(b)
        .unwrap_or_else(|| panic!("shared version"));
    assert_eq!((shared.min(), shared.max()), (3, 3));
    assert_eq!(a.intersection(c), None);
    assert!(matches!(
        ProtocolRange::new(0, 1),
        Err(DiscoveryError::InvalidConfig(_))
    ));
    assert!(matches!(
        ProtocolRange::new(2, 1),
        Err(DiscoveryError::InvalidConfig(_))
    ));
}

#[test]
fn provider_names_are_short_and_plain() {
    assert!(ProviderId::new(ProviderKind::Custom, "wifi_aware-1").is_ok());
    assert!(ProviderId::new(ProviderKind::Custom, "").is_err());
    assert!(ProviderId::new(ProviderKind::Custom, "has space").is_err());
    assert!(ProviderId::new(ProviderKind::Custom, &"a".repeat(48)).is_ok());
    assert!(ProviderId::new(ProviderKind::Custom, &"a".repeat(49)).is_err());
    let id = ProviderId::new(ProviderKind::Mdns, "mdns").unwrap_or_else(|e| panic!("{e:?}"));
    assert_eq!(id.name(), "mdns");
    assert_eq!(*id.kind(), ProviderKind::Mdns);
}

#[test]
fn quic_endpoints_reject_unusable_addresses() {
    assert!(Endpoint::quic(v4([192, 0, 2, 1], 4433)).is_ok());
    assert!(Endpoint::quic(v4([192, 0, 2, 1], 0)).is_err());
    assert!(Endpoint::quic(v4([0, 0, 0, 0], 4433)).is_err());
    assert!(Endpoint::quic(v4([239, 1, 2, 3], 4433)).is_err());
    let mut link_local = [0_u8; 16];
    link_local[0] = 0xfe;
    link_local[1] = 0x80;
    link_local[15] = 1;
    let unscoped = SocketAddr::V6 {
        ip: link_local,
        port: 4433,
        flowinfo: 0,
        scope_id: 0,
    };
    assert!(Endpoint::quic(unscoped).is_err());
    let scoped = SocketAddr::V6 {
        ip: link_local,
        port: 4433,
        flowinfo: 0,
        scope_id: 3,
    };
    assert!(Endpoint::quic(scoped).is_ok());
}

#[test]
fn local_presence_requires_a_port_and_config_limits_are_checked() {
    assert!(LocalPresence::new(
        PresenceId::from_bytes([1; 16]),
        ProtocolRange::new(1, 1).unwrap_or_else(|error| panic!("{error:?}")),
        Capabilities::default(),
        0
    )
    .is_err());
    assert!(DiscoveryConfig::default().validate().is_ok());
    let config = DiscoveryConfig {
        max_peers: 0,
        ..DiscoveryConfig::default()
    };
    assert!(config.validate().is_err());
    let config = DiscoveryConfig {
        min_observation_ttl: Duration::from_secs(200),
        ..DiscoveryConfig::default()
    };
    assert!(config.validate().is_err());
}

#[test]
fn short_hex_is_first_six_bytes() {
    let id = PresenceId::from_bytes([
        0x01, 0x23, 0x45, 0x67, 0x89, 0xab, 0xcd, 0xef, 0, 0, 0, 0, 0, 0, 0, 0,
    ]);
    assert_eq!(id.short_hex(), "0123456789ab");
}

#[test]
fn random_presence_ids_are_version_four() {
    let id = PresenceId::random().expect("the generator works here");
    assert_eq!(id.as_bytes()[6] >> 4, 4);
    assert_eq!(id.as_bytes()[8] >> 6, 2);
    assert_ne!(PresenceId::random(), PresenceId::random());
}

#[test]
fn rejects_unbounded_target_list() {
    let endpoint = KnownEndpoint {
        expected_presence: Some(PresenceId::from_bytes([1; 16])),
        discovery_address: v4([192, 0, 2, 1], 44721),
    };
    let config = DirectProbeConfig {
        endpoints: vec![endpoint, endpoint],
        max_endpoints: 1,
        ..DirectProbeConfig::default()
    };
    assert!(DirectProbeProvider::new(config).is_err());
}

#[test]
fn direct_probe_rejects_port_zero_and_zero_timing() {
    let endpoint = KnownEndpoint {
        expected_presence: None,
        discovery_address: v4([192, 0, 2, 1], 0),
    };
    let config = DirectProbeConfig {
        endpoints: vec![endpoint],
        ..DirectProbeConfig::default()
    };
    assert_eq!(
        DirectProbeProvider::new(config).err(),
        Some(ProviderError::InvalidConfig(
            "remembered discovery endpoints must use a non-zero port".to_owned()
        ))
    );
    let config = DirectProbeConfig {
        probe_interval: Duration::from_secs(0),
        ..DirectProbeConfig::default()
    };
    assert!(DirectProbeProvider::new(config).is_err());
    assert!(DirectProbeProvider::new(DirectProbeConfig::default()).is_ok());
}

#[test]
fn direct_nonce_is_randomized() {
    let a = direct_random_nonce().expect("the generator works here");
    let b = direct_random_nonce().expect("the generator works here");
    assert_ne!(a, b);
    assert_eq!(a >> 62, 2);
}

#[test]
fn direct_probe_accepts_only_its_own_response() {
    let known = KnownEndpoint {
        expected_presence: Some(PresenceId::from_bytes([0x11; 16])),
        discovery_address: v4([192, 0, 2, 1], 44721),
    };
    let response = PresenceMessage::from_local(&local(), MessageKind::Response, 3, 99);
    assert!(response_matches(&response, 99, &known, &v4([192, 0, 2, 1], 5000)));
    assert!(!response_matches(&response, 98, &known, &v4([192, 0, 2, 1], 5000)));
    assert!(!response_matches(&response, 99, &known, &v4([192, 0, 2, 2], 5000)));
    let announce = PresenceMessage::from_local(&local(), MessageKind::Announce, 3, 99);
    assert!(!response_matches(&announce, 99, &known, &v4([192, 0, 2, 1], 5000)));

    let provider = ProviderId::new(ProviderKind::Direct, "direct")
        .unwrap_or_else(|error| panic!("{error:?}"));
    let observation = probe_observation(
        &provider,
        &response,
        v4([192, 0, 2, 1], 5000),
        Duration::from_secs(20),
        Duration::from_millis(7),
    )
    .unwrap_or_else(|| panic!("observation"));
    assert_eq!(observation.endpoints[0].address(), v4([192, 0, 2, 1], 4433));
    assert_eq!(observation.round_trip_time, Some(Duration::from_millis(7)));
}

#[test]
fn rejects_invalid_service_type() {
    assert!(validate_service_type("halo.local.").is_err());
    assert!(validate_service_type(HALO_SERVICE_TYPE).is_ok());
    assert!(validate_service_type("_halo._tcp.local.").is_ok());
    assert!(validate_service_type("_halo._udp.local").is_err());
    assert_eq!(MdnsConfig::default().service_type, HALO_SERVICE_TYPE);
}

#[test]
fn tunnel_name_filter_is_conservative() {
    assert!(is_probably_tunnel("utun4"));
    assert!(is_probably_tunnel("WireGuard0"));
    assert!(is_probably_tunnel("awdl0"));
    assert!(!is_probably_tunnel("en0"));
    assert!(!is_probably_tunnel("wlan0"));
}

#[test]
fn presence_nonce_is_randomized() {
    let a = presence_random_nonce().expect("the generator works here");
    let b = presence_random_nonce().expect("the generator works here");
    assert_ne!(a, b);
    assert_eq!((a >> 12) & 0xf, 4);
}

#[test]
fn source_address_controls_endpoint_ip() {
    let source = v4([192, 0, 2, 9], PRESENCE_PORT);
    let endpoint =
        endpoint_from_source(source, 4433).unwrap_or_else(|| panic!("source should produce endpoint"));
    assert_eq!(endpoint.address(), v4([192, 0, 2, 9], 4433));
    assert_eq!(response_target(source, 5555), v4([192, 0, 2, 9], 5555));
}

#[test]
fn presence_configs_need_multicast_groups() {
    assert!(validate_v4_config(&PresenceV4Config::default()).is_ok());
    let config = PresenceV4Config {
        group: [192, 168, 1, 1],
        ..PresenceV4Config::default()
    };
    assert!(validate_v4_config(&config).is_err());
    assert_eq!(PresenceV6Config::default().group[0], 0xff);
}

#[test]
fn presence_loop_queries_first_then_announces() {
    let mut state = PresenceLoop::new();
    let first = state.on_tick(&local(), 5, Duration::from_secs(1));
    assert_eq!(first.kind, MessageKind::Query);
    assert_eq!(first.sequence, 1);
    let second = state.on_tick(&local(), 6, Duration::from_secs(2));
    assert_eq!(second.kind, MessageKind::Announce);
    assert_eq!(second.sequence, 2);
}

#[test]
fn presence_loop_answers_queries_and_times_responses() {
    let mut state = PresenceLoop::new();
    let _ = state.on_tick(&local(), 41, Duration::from_millis(1000));
    let provider = ProviderId::new(ProviderKind::PresenceV4, "presence-v4")
        .unwrap_or_else(|error| panic!("{error:?}"));
    let remote = LocalPresence::new(
        PresenceId::from_bytes([0x33; 16]),
        ProtocolRange::new(1, 1).unwrap_or_else(|error| panic!("{error:?}")),
        Capabilities::default(),
        5000,
    )
    .unwrap_or_else(|error| panic!("{error:?}"));

    let own = PresenceMessage::from_local(&local(), MessageKind::Announce, 1, 0).encode();
    assert!(matches!(
        state.on_datagram(&local(), &provider, &own, v4([192, 0, 2, 1], 1), Duration::from_secs(12), Duration::from_secs(2)),
        DatagramAction::Ignore
    ));

    let goodbye = PresenceMessage::from_local(&remote, MessageKind::Goodbye, 1, 0).encode();
    match state.on_datagram(&local(), &provider, &goodbye, v4([192, 0, 2, 7], 1), Duration::from_secs(12), Duration::from_secs(2)) {
        DatagramAction::Withdraw(id) => assert_eq!(id, remote.presence_id),
        _ => panic!("goodbye should withdraw"),
    }

    let query = PresenceMessage::from_local(&remote, MessageKind::Query, 1, 77)
        .with_reply_port(6000)
        .encode();
    match state.on_datagram(&local(), &provider, &query, v4([192, 0, 2, 7], 44721), Duration::from_secs(12), Duration::from_secs(2)) {
        DatagramAction::Handle { reply, observation } => {
            let (packet, target) = reply.unwrap_or_else(|| panic!("query needs a reply"));
            assert_eq!(target, v4([192, 0, 2, 7], 6000));
            let decoded = PresenceMessage::decode(&packet).unwrap_or_else(|e| panic!("{e:?}"));
            assert_eq!(decoded.kind, MessageKind::Response);
            assert_eq!(decoded.nonce, 77);
            let observation = observation.unwrap_or_else(|| panic!("observation"));
            assert_eq!(observation.endpoints[0].address(), v4([192, 0, 2, 7], 5000));
            assert_eq!(observation.round_trip_time, None);
        }
        _ => panic!("query should be handled"),
    }

    let response = PresenceMessage::from_local(&remote, MessageKind::Response, 1, 41).encode();
    match state.on_datagram(&local(), &provider, &response, v4([192, 0, 2, 7], 44721), Duration::from_secs(12), Duration::from_millis(1250)) {
        DatagramAction::Handle { reply, observation } => {
            assert!(reply.is_none());
            let observation = observation.unwrap_or_else(|| panic!("observation"));
            assert_eq!(observation.round_trip_time, Some(Duration::from_millis(250)));
        }
        _ => panic!("response should be handled"),
    }

    let message = PresenceMessage::from_local(&remote, MessageKind::Response, 1, 41);
    let probe = state
        .on_probe_response(&local(), &provider, &message, v4([192, 0, 2, 7], 9), Duration::from_secs(12), Duration::from_millis(1100))
        .unwrap_or_else(|| panic!("probe response"));
    assert_eq!(probe.round_trip_time, Some(Duration::from_millis(100)));
    let unknown = PresenceMessage::from_local(&remote, MessageKind::Response, 1, 42);
    assert!(state
        .on_probe_response(&local(), &provider, &unknown, v4([192, 0, 2, 7], 9), Duration::from_secs(12), Duration::from_millis(1100))
        .is_none());
}

#[test]
fn presence_loop_forgets_queries_after_ten_seconds() {
    let mut state = PresenceLoop::new();
    let _ = state.on_tick(&local(), 41, Duration::from_secs(1));
    let _ = state.on_tick(&local(), 42, Duration::from_secs(12));
    let provider = ProviderId::new(ProviderKind::PresenceV4, "presence-v4")
        .unwrap_or_else(|error| panic!("{error:?}"));
    let remote = PresenceMessage {
        presence_id: PresenceId::from_bytes([0x33; 16]),
        ..PresenceMessage::from_local(&local(), MessageKind::Response, 1, 41)
    };
    assert!(state
        .on_probe_response(&local(), &provider, &remote, v4([192, 0, 2, 7], 9), Duration::from_secs(12), Duration::from_secs(12))
        .is_none());
}

fn evidence(kind: ProviderKind) -> EndpointEvidence {
    EndpointEvidence {
        provider: ProviderId::new(kind, "test").unwrap_or_else(|error| panic!("provider: {error:?}")),
        expires_at: Duration::from_secs(10),
        round_trip_time: None,
        observations: 1,
    }
}

fn endpoint() -> Endpoint {
    Endpoint::quic(v4([192, 168, 2, 1], 4433)).unwrap_or_else(|error| panic!("test endpoint: {error:?}"))
}

#[test]
fn corroboration_and_success_improve_score() {
    let mut record = EndpointRecord::new();
    record.evidence.push(evidence(ProviderKind::Mdns));
    let first = record.candidate(endpoint(), true).score;

    record.evidence.push(evidence(ProviderKind::PresenceV4));
    let corroborated = record.candidate(endpoint(), true).score;
    assert!(corroborated > first);

    record.successful_connections = 1;
    record.connection_rtt = Some(Duration::from_millis(10));
    assert!(record.candidate(endpoint(), true).score > corroborated);
}

#[test]
fn repeated_failures_demote_candidate() {
    let mut record = EndpointRecord::new();
    record.evidence.push(evidence(ProviderKind::Direct));
    let healthy = record.candidate(endpoint(), true).score;
    record.consecutive_failures = 3;
    record.total_failures = 3;
    assert!(record.candidate(endpoint(), true).score < healthy);
}

#[test]
fn incompatible_candidate_cannot_win() {
    let mut record = EndpointRecord::new();
    record.evidence.push(evidence(ProviderKind::Direct));
    assert_eq!(record.candidate(endpoint(), false).score, i32::MIN);
}

#[test]
fn score_has_exact_components() {
    let mut record = EndpointRecord::new();
    record.evidence.push(evidence(ProviderKind::Mdns));
    record.evidence.push(evidence(ProviderKind::Direct));
    // 100 + 45 + 75 + one corroborating source (35) + two observations (6)
    // + a 50 ms round trip (40) + one success (80) - one recent failure (90)
    // - one failure in total (8)
    record.successful_connections = 1;
    record.consecutive_failures = 1;
    record.total_failures = 1;
    assert_eq!(
        score_candidate(&record, true, Some(Duration::from_millis(50))),
        100 + 45 + 75 + 35 + 6 + 40 + 80 - 90 - 8
    );
    assert_eq!(source_weight(&ProviderKind::Ble), 20);
}

#[test]
fn candidate_uses_fastest_observed_round_trip() {
    let mut record = EndpointRecord::new();
    let mut slow = evidence(ProviderKind::Mdns);
    slow.round_trip_time = Some(Duration::from_millis(300));
    let mut fast = evidence(ProviderKind::Direct);
    fast.round_trip_time = Some(Duration::from_millis(15));
    record.evidence.push(slow);
    record.evidence.push(fast);
    let candidate = record.candidate(endpoint(), true);
    assert_eq!(candidate.round_trip_time, Some(Duration::from_millis(15)));
    assert_eq!(candidate.sources.len(), 2);
}
