use halo::discovery::model::{DeviceType as PresenceDeviceType, PresenceId, ProviderKind};
use halo::protocol::transfer::{ManifestFile, TransferManifest, MAX_BATCH_FILES, MAX_FILE_SIZE};
use halo::service::discovery::{
    ble_provider_id, local_presence, next_ble_sequence, provider_kind_name, DeviceType,
    DiscoveryConfig, DiscoveryError,
};
use halo::service::pairing::{
    PairingError, PairingPolicy, MAX_CONFIRMATION_SECS, MAX_CONNECT_ATTEMPT_SECS,
};
use halo::service::transfer::{
    TransferPolicy, TransferServiceError, MAX_DECISION_SECS, MIN_PROGRESS_EVENT_STEP,
};
use halo::time::Duration;

#[test]
fn pairing_policy_rejects_unbounded_or_zero_timing() {
    for policy in [
        PairingPolicy {
            connect_attempt_timeout: Duration::from_secs(0),
            ..PairingPolicy::default()
        },
        PairingPolicy {
            connect_attempt_timeout: Duration::from_secs(MAX_CONNECT_ATTEMPT_SECS + 1),
            ..PairingPolicy::default()
        },
        PairingPolicy {
            confirmation_timeout: Duration::from_secs(1),
            ..PairingPolicy::default()
        },
        PairingPolicy {
            confirmation_timeout: Duration::from_secs(MAX_CONFIRMATION_SECS + 1),
            ..PairingPolicy::default()
        },
        PairingPolicy {
            retry_cooldown: Duration::from_secs(0),
            ..PairingPolicy::default()
        },
    ] {
        assert!(matches!(
            policy.validate(),
            Err(PairingError::InvalidPairingPolicy)
        ));
    }
    assert_eq!(
        PairingPolicy::default()
            .validate()
            .unwrap_or_else(|error| panic!("default policy: {error:?}")),
        PairingPolicy::default()
    );
}

#[test]
fn pairing_policy_bounds_are_inclusive() {
    let policy = PairingPolicy {
        connect_attempt_timeout: Duration::from_secs(MAX_CONNECT_ATTEMPT_SECS),
        confirmation_timeout: Duration::from_secs(10),
        retry_cooldown: Duration::from_secs(60),
    };
    assert_eq!(policy.validate(), Ok(policy));
    let policy = PairingPolicy {
        retry_cooldown: Duration::from_millis(60_001),
        ..policy
    };
    assert_eq!(policy.validate(), Err(PairingError::InvalidPairingPolicy));
}

#[test]
fn transfer_policy_is_bounded_and_applies_admission_limit() {
    let policy = TransferPolicy {
        maximum_file_size: 1024,
        receive_decision_timeout: Duration::from_secs(30),
        progress_event_step: MIN_PROGRESS_EVENT_STEP,
        ..TransferPolicy::default()
    }
    .validate()
    .unwrap_or_else(|error| panic!("valid policy: {error:?}"));
    assert!(policy.accepts_file_size(1024));
    assert!(!policy.accepts_file_size(1025));
    assert!(policy.has_available_space(1024 + policy.minimum_free_space_reserve, 1024));
    assert!(!policy.has_available_space(1024 + policy.minimum_free_space_reserve - 1, 1024));

    for invalid in [
        TransferPolicy {
            maximum_file_size: 0,
            ..TransferPolicy::default()
        },
        TransferPolicy {
            maximum_file_size: MAX_FILE_SIZE + 1,
            ..TransferPolicy::default()
        },
        TransferPolicy {
            maximum_aggregate_size: 0,
            ..TransferPolicy::default()
        },
        TransferPolicy {
            maximum_file_count: MAX_BATCH_FILES + 1,
            ..TransferPolicy::default()
        },
        TransferPolicy {
            minimum_free_space_reserve: MAX_FILE_SIZE + 1,
            ..TransferPolicy::default()
        },
        TransferPolicy {
            receive_decision_timeout: Duration::from_secs(0),
            ..TransferPolicy::default()
        },
        TransferPolicy {
            receive_decision_timeout: Duration::from_secs(MAX_DECISION_SECS + 1),
            ..TransferPolicy::default()
        },
        TransferPolicy {
            progress_event_step: MIN_PROGRESS_EVENT_STEP - 1,
            ..TransferPolicy::default()
        },
    ] {
        assert!(matches!(
            invalid.validate(),
            Err(TransferServiceError::InvalidPolicy)
        ));
    }
}

#[test]
fn manifests_are_admitted_within_every_limit() {
    let policy = TransferPolicy {
        maximum_file_size: 100,
        maximum_aggregate_size: 150,
        maximum_file_count: 2,
        ..TransferPolicy::default()
    };
    let file = |size: u64, name: &str| {
        ManifestFile::new(size, [1; 32], name.to_owned()).unwrap_or_else(|e| panic!("{e:?}"))
    };
    let small = TransferManifest::new([1; 16], 1024, vec![file(60, "a"), file(60, "b")])
        .unwrap_or_else(|e| panic!("{e:?}"));
    assert!(policy.accepts_manifest(&small));
    let too_big = TransferManifest::new([1; 16], 1024, vec![file(101, "a")])
        .unwrap_or_else(|e| panic!("{e:?}"));
    assert!(!policy.accepts_manifest(&too_big));
    let aggregate = TransferManifest::new([1; 16], 1024, vec![file(80, "a"), file(80, "b")])
        .unwrap_or_else(|e| panic!("{e:?}"));
    assert!(!policy.accepts_manifest(&aggregate));
    let many = TransferManifest::new(
        [1; 16],
        1024,
        vec![file(1, "a"), file(1, "b"), file(1, "c")],
    )
    .unwrap_or_else(|e| panic!("{e:?}"));
    assert!(!policy.accepts_manifest(&many));
    assert!(policy.has_available_space(u64::MAX, u64::MAX));
}

#[test]
fn device_types_convert_both_ways() {
    for device in [
        DeviceType::Unknown,
        DeviceType::Android,
        DeviceType::Ios,
        DeviceType::Macos,
        DeviceType::Windows,
        DeviceType::Linux,
    ] {
        let presence: PresenceDeviceType = device.into();
        assert_eq!(DeviceType::from(presence), device);
    }
}

#[test]
fn facade_presence_carries_device_type() {
    let config = DiscoveryConfig::new(44_330, DeviceType::Macos).with_lan(false);
    assert!(!config.enable_lan());
    let local = local_presence(&config, PresenceId::from_bytes([3; 16]))
        .unwrap_or_else(|error| panic!("{error:?}"));
    assert_eq!(local.capabilities.device_type(), PresenceDeviceType::Macos);
    assert_eq!((local.protocol.min(), local.protocol.max()), (1, 1));
    assert_eq!(local.quic_port, 44_330);
    assert!(local_presence(&DiscoveryConfig::new(0, DeviceType::Ios), PresenceId::from_bytes([3; 16])).is_err());
    assert_eq!(next_ble_sequence(1), 2);
    assert_eq!(next_ble_sequence(u64::MAX), u64::MAX);
}

#[test]
fn ble_providers_are_named_per_platform() {
    let id = ble_provider_id("android").unwrap_or_else(|error| panic!("{error:?}"));
    assert_eq!(id.name(), "ble-android");
    assert_eq!(*id.kind(), ProviderKind::Ble);
    assert_eq!(
        ble_provider_id("windows").map(|id| id.name().to_owned()),
        Ok("ble-windows".to_owned())
    );
    assert_eq!(
        ble_provider_id("linux").map(|id| id.name().to_owned()),
        Err(DiscoveryError::UnknownPlatform)
    );
    assert_eq!(provider_kind_name(&ProviderKind::PresenceV6), "presence_v6");
}
