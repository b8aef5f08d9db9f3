use halo::discovery::model::PresenceId;
use halo::protocol::pairing::{PairingMessage, ProtocolError, MAX_FRAME_LEN};
use halo::protocol::transfer::DATA_RECORD_HEADER_LEN;
use halo::time::Duration;
use halo::transport::data_channel::{
    admit_offered, candidate_eligible, candidate_score, ends_race, no_candidate_error,
    order_candidates, path_accepted, race_plan, validate_broker, DataChannelCandidate, DataChannelCandidateId, DataChannelCandidateProperties,
    DataChannelCost, DataChannelError, DataChannelKind, DataChannelPathClass, DataChannelPeer,
    DataChannelPolicy, EstablishedPathProperties,
};
use halo::transport::data_io::{data_record_header_length, data_record_length, DataIoError};
use halo::transport::frame_io::{message_from_frame, FrameIoError};
use halo::transport::race::{ConnectErrorKind, ConnectionRacer};

fn properties(path: DataChannelPathClass) -> DataChannelCandidateProperties {
    DataChannelCandidateProperties {
        path_class: path,
        cost: DataChannelCost::Unmetered,
        already_available: true,
        requires_user_action: false,
        estimated_round_trip_time: None,
    }
}

#[test]
fn prohibited_paths_are_rejected_before_the_broker() {
    let peer = DataChannelPeer::from_bytes([1; 16]);
    for path in [
        DataChannelPathClass::Cellular,
        DataChannelPathClass::Internet,
        DataChannelPathClass::Unknown,
    ] {
        assert_eq!(
            DataChannelCandidate::new(
                DataChannelCandidateId::from_bytes([2; 16]),
                peer,
                DataChannelKind::Lan,
                properties(path),
            ),
            Err(DataChannelError::ProhibitedPath)
        );
    }
}

fn candidate(id: u8, path: DataChannelPathClass, available: bool) -> DataChannelCandidate {
    let mut props = properties(path);
    props.already_available = available;
    DataChannelCandidate::new(
        DataChannelCandidateId::from_bytes([id; 16]),
        DataChannelPeer::from_bytes([1; 16]),
        DataChannelKind::Lan,
        props,
    )
    .unwrap_or_else(|error| panic!("candidate: {error:?}"))
}

#[test]
fn candidate_score_prefers_local_available_paths() {
    let local = candidate(1, DataChannelPathClass::LocalNetwork, true);
    let p2p = candidate(2, DataChannelPathClass::PeerToPeer, false);
    assert_eq!(candidate_score(&local), 300 + 200 + 50 + 30);
    assert_eq!(candidate_score(&p2p), 250 + 50 + 30);
}

#[test]
fn candidates_are_raced_best_first_with_id_tiebreak() {
    let ordered = order_candidates(vec![
        candidate(9, DataChannelPathClass::PeerToPeer, false),
        candidate(5, DataChannelPathClass::LocalNetwork, true),
        candidate(3, DataChannelPathClass::LocalNetwork, true),
    ]);
    let ids: Vec<u8> = ordered.iter().map(|c| c.id().as_bytes()[0]).collect();
    assert_eq!(ids, vec![3, 5, 9]);
}

#[test]
fn default_policy_refuses_metered_and_unbound_paths() {
    let policy = DataChannelPolicy::default();
    let peer = DataChannelPeer::from_bytes([1; 16]);
    let mut props = properties(DataChannelPathClass::LocalNetwork);
    props.cost = DataChannelCost::Metered;
    let metered = DataChannelCandidate::new(
        DataChannelCandidateId::from_bytes([4; 16]),
        peer,
        DataChannelKind::Lan,
        props,
    )
    .unwrap_or_else(|error| panic!("{error:?}"));
    assert!(!candidate_eligible(&policy, &peer, DataChannelKind::Lan, &metered));
    let good = candidate(5, DataChannelPathClass::LocalNetwork, true);
    assert!(candidate_eligible(&policy, &peer, DataChannelKind::Lan, &good));
    assert!(!candidate_eligible(&policy, &peer, DataChannelKind::WifiAware, &good));
    let unbound = EstablishedPathProperties {
        path_class: DataChannelPathClass::LocalNetwork,
        cost: DataChannelCost::Unmetered,
        interface_bound: false,
    };
    assert!(!path_accepted(&policy, &good, DataChannelKind::Lan, &peer, &unbound));
    let bound = EstablishedPathProperties {
        interface_bound: true,
        ..unbound
    };
    assert!(path_accepted(&policy, &good, DataChannelKind::Lan, &peer, &bound));
}

#[test]
fn policy_and_broker_limits_are_validated() {
    let policy = DataChannelPolicy {
        max_system_prompt_attempts: 5,
        ..DataChannelPolicy::default()
    };
    assert_eq!(policy.validate(), Err(DataChannelError::InvalidConfiguration));
    assert!(DataChannelPolicy::default().validate().is_ok());
    assert!(validate_broker(0, Duration::from_secs(1)).is_err());
    assert!(validate_broker(9, Duration::from_secs(1)).is_err());
    assert!(validate_broker(1, Duration::from_secs(0)).is_err());
    assert!(validate_broker(8, Duration::from_secs(1)).is_ok());
    assert!(ends_race(&DataChannelError::UserRejected));
    assert!(!ends_race(&DataChannelError::Timeout));
}

#[test]
fn record_framing_is_bounded_before_payload_allocation() {
    let mut header = [0_u8; DATA_RECORD_HEADER_LEN];
    header[..4].copy_from_slice(b"HDF1");
    header[28..32].copy_from_slice(&1_u32.to_be_bytes());
    assert_eq!(data_record_length(&header), Ok(DATA_RECORD_HEADER_LEN + 1));

    header[28..32].copy_from_slice(&0_u32.to_be_bytes());
    assert!(matches!(
        data_record_length(&header),
        Err(DataIoError::RecordTooLarge(DATA_RECORD_HEADER_LEN))
    ));
    header[28..32].copy_from_slice(&(256_u32 * 1024 + 1).to_be_bytes());
    assert!(matches!(
        data_record_length(&header),
        Err(DataIoError::RecordTooLarge(_))
    ));
    assert_eq!(
        data_record_length(&header[..DATA_RECORD_HEADER_LEN - 1]),
        Err(DataIoError::Truncated)
    );
    assert_eq!(
        data_record_header_length(b"NOPE"),
        Err(DataIoError::InvalidMagic)
    );
}

#[test]
fn largest_record_is_one_full_chunk() {
    let mut header = [0_u8; DATA_RECORD_HEADER_LEN];
    header[..4].copy_from_slice(b"HDF1");
    header[28..32].copy_from_slice(&(256_u32 * 1024).to_be_bytes());
    assert_eq!(
        data_record_length(&header),
        Ok(DATA_RECORD_HEADER_LEN + 256 * 1024)
    );
    assert_eq!(data_record_length(b"HD"), Err(DataIoError::Truncated));
}

#[test]
fn oversized_frame_is_rejected_before_protocol_decode() {
    let frame = vec![0_u8; MAX_FRAME_LEN + 1];
    assert_eq!(
        message_from_frame(&frame).map(|_| ()),
        Err(FrameIoError::FrameTooLarge(MAX_FRAME_LEN + 1))
    );
    assert_eq!(
        message_from_frame(b"HALO").map(|_| ()),
        Err(FrameIoError::Protocol(ProtocolError::TruncatedHeader(4)))
    );
    let _: Option<PairingMessage> = None;
}

#[test]
fn racer_limits_candidates_and_timeout() {
    assert_eq!(
        ConnectionRacer::new(Duration::from_secs(0), 1).err().map(|e| e.kind),
        Some(ConnectErrorKind::InvalidConfiguration)
    );
    assert!(ConnectionRacer::new(Duration::from_secs(1), 0).is_err());
    assert!(ConnectionRacer::new(Duration::from_secs(1), 9).is_err());
    let racer = ConnectionRacer::new(Duration::from_secs(1), 2)
        .unwrap_or_else(|error| panic!("{error:?}"));
    assert!(racer.check_candidate_count(0).is_err());
    assert!(racer.check_candidate_count(2).is_ok());
    assert!(racer.check_candidate_count(3).is_err());
    let _ = PresenceId::from_bytes([0; 16]);
}

fn prompt_candidate(id: u8, prompt: bool) -> DataChannelCandidate {
    let mut props = properties(DataChannelPathClass::LocalNetwork);
    props.requires_user_action = prompt;
    DataChannelCandidate::new(
        DataChannelCandidateId::from_bytes([id; 16]),
        DataChannelPeer::from_bytes([1; 16]),
        DataChannelKind::Lan,
        props,
    )
    .unwrap_or_else(|error| panic!("candidate: {error:?}"))
}

#[test]
fn offers_are_capped_deduplicated_and_filtered() {
    let policy = DataChannelPolicy::default();
    let peer = DataChannelPeer::from_bytes([1; 16]);
    let mut collected = Vec::new();
    let offered: Vec<DataChannelCandidate> = (1..=10).map(|id| prompt_candidate(id, false)).collect();
    admit_offered(&policy, &peer, DataChannelKind::Lan, &offered, &mut collected);
    assert_eq!(collected.len(), 8);
    admit_offered(&policy, &peer, DataChannelKind::Lan, &offered, &mut collected);
    assert_eq!(collected.len(), 8);
    let mut other_kind = Vec::new();
    admit_offered(&policy, &peer, DataChannelKind::WifiAware, &offered, &mut other_kind);
    assert!(other_kind.is_empty());
    assert_eq!(no_candidate_error(None), DataChannelError::NoCandidates);
    assert_eq!(no_candidate_error(Some(DataChannelError::Timeout)), DataChannelError::Timeout);
}

#[test]
fn prompted_candidates_race_after_automatic_ones_and_are_limited() {
    let ordered = vec![
        prompt_candidate(1, true),
        prompt_candidate(2, false),
        prompt_candidate(3, true),
        prompt_candidate(4, false),
    ];
    let (automatic, prompted) = race_plan(&ordered, 1);
    assert_eq!(automatic, vec![ordered[1], ordered[3]]);
    assert_eq!(prompted, vec![ordered[0]]);
    let (_, none) = race_plan(&ordered, 0);
    assert!(none.is_empty());
}
