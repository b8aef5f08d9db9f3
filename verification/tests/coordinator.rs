use halo::discovery::model::{PresenceId, ProviderState};
use halo::protocol::pairing::{HEADER_LEN, MAX_FRAME_LEN};
use halo::protocol::transfer::{
    BatchCancelReason, BatchPauseReason, ManifestFile, TransferManifest, DEFAULT_CHUNK_SIZE,
};
use halo::service::coordinator::{
    admit_incoming, batch_cancel_reason, batch_error_category, batch_interruption, batch_outcome,
    batch_progress_bytes, check_receive_decision, check_retry_peer, check_source_count,
    coordinator_settings, discards_resume_state, event_for_manifest, parse_transfer_id,
    progress_due, progress_event, resolve_receive_decision, sender_job_retryable,
    transfer_id_text, IncomingRejection, ReceiveResolution, ReceiveTransferDecision,
    TRANSFER_ACTION_CANCEL, TRANSFER_ACTION_PAUSE, TRANSFER_ACTION_RUNNING,
};
use halo::service::discovery::{
    ble_provider_id, normalize_provider_state, presence_id_text, provider_status,
    PlatformProviderState, MAX_STATE_DETAIL_CHARS,
};
use halo::service::transfer::{
    TransferDirection, TransferEventKind, TransferPolicy, TransferServiceError,
};
use halo::transfer::batch::BatchTransferError;
use halo::transport::platform_control::{
    check_drain_limit, validate_frame_length, PlatformControlError, FRAME_QUEUE_CAPACITY,
};

fn manifest() -> TransferManifest {
    TransferManifest::new(
        [0xa5; 16],
        DEFAULT_CHUNK_SIZE,
        vec![
            ManifestFile::new(100, [1; 32], "a.txt".to_owned()).unwrap(),
            ManifestFile::new(50, [2; 32], "b.txt".to_owned()).unwrap(),
        ],
    )
    .unwrap()
}

#[test]
fn transfer_ids_are_lower_case_hex_and_parse_back() {
    let text = transfer_id_text(&[0xa5; 16]);
    assert_eq!(text, "a5".repeat(16));
    assert_eq!(parse_transfer_id(&text), Some([0xa5; 16]));
    assert_eq!(parse_transfer_id(&"A5".repeat(16)), Some([0xa5; 16]));
    assert_eq!(parse_transfer_id("a5"), None);
    assert_eq!(parse_transfer_id(&"g5".repeat(16)), None);
}

#[test]
fn interruptions_and_errors_are_classified() {
    assert_eq!(batch_interruption(TRANSFER_ACTION_CANCEL), BatchTransferError::Cancelled);
    assert_eq!(
        batch_interruption(TRANSFER_ACTION_PAUSE),
        BatchTransferError::LocalPaused(BatchPauseReason::User)
    );
    assert_eq!(
        batch_interruption(TRANSFER_ACTION_RUNNING),
        BatchTransferError::LocalPaused(BatchPauseReason::RouteLost)
    );
    assert_eq!(batch_cancel_reason(&BatchTransferError::Cancelled), Some(BatchCancelReason::User));
    assert_eq!(
        batch_cancel_reason(&BatchTransferError::Integrity),
        Some(BatchCancelReason::Integrity)
    );
    assert_eq!(batch_cancel_reason(&BatchTransferError::SendJob), Some(BatchCancelReason::Storage));
    assert_eq!(batch_cancel_reason(&BatchTransferError::Paused), None);
    assert_eq!(batch_error_category(&BatchTransferError::DuplicateFileName), "duplicate_file_name");
    assert!(sender_job_retryable(&BatchTransferError::Paused));
    assert!(!sender_job_retryable(&BatchTransferError::Integrity));
    assert!(discards_resume_state(&BatchTransferError::Integrity));
    assert!(!discards_resume_state(&BatchTransferError::Paused));
}

#[test]
fn batch_outcomes_name_the_event_kind() {
    assert_eq!(batch_outcome(None), (TransferEventKind::Completed, None));
    assert_eq!(
        batch_outcome(Some(&BatchTransferError::Rejected)),
        (TransferEventKind::Rejected, Some("rejected".to_owned()))
    );
    assert_eq!(
        batch_outcome(Some(&BatchTransferError::RemotePaused(BatchPauseReason::User))),
        (TransferEventKind::Paused, Some("paused".to_owned()))
    );
    assert_eq!(
        batch_outcome(Some(&BatchTransferError::RemoteCancelled(BatchCancelReason::User))),
        (TransferEventKind::Cancelled, Some("cancelled".to_owned()))
    );
    assert_eq!(
        batch_outcome(Some(&BatchTransferError::Storage)).0,
        TransferEventKind::Failed
    );
}

#[test]
fn manifest_events_and_progress_follow_file_order() {
    let m = manifest();
    let event = event_for_manifest(7, &m, TransferDirection::Sending, TransferEventKind::AwaitingDecision);
    assert_eq!(event.authenticated_session_id, 7);
    assert_eq!(event.transfer_id, "a5".repeat(16));
    assert_eq!(event.file_name, "a.txt");
    assert_eq!(event.file_names, vec!["a.txt".to_owned(), "b.txt".to_owned()]);
    assert_eq!(event.file_sizes, vec![100, 50]);
    assert_eq!(event.file_size, 150);
    assert_eq!(event.transferred_bytes, 0);
    assert_eq!(batch_progress_bytes(&m, 1, 20), 120);
    assert_eq!(batch_progress_bytes(&m, 0, 20), 20);
    let progress = progress_event(7, &m, TransferDirection::Receiving, 0, 100);
    assert_eq!(progress.kind, TransferEventKind::Transferring);
    assert_eq!(progress.completed_files, 1);
    assert_eq!(progress.current_file_index, Some(0));
    let capped = progress_event(7, &m, TransferDirection::Receiving, 1, 1000);
    assert_eq!(capped.transferred_bytes, 150);
    assert_eq!(capped.completed_files, 2);
    assert_eq!(capped.file_names, vec!["a.txt".to_owned(), "b.txt".to_owned()]);
    assert_eq!(capped.file_sizes, vec![100, 50]);
    assert_eq!(capped.file_name, "a.txt");
    assert!(capped.resumable);
    assert_eq!(capped.event_id, 0);
    assert_eq!(capped.request_id, None);
    assert_eq!(capped.final_path, None);
    assert_eq!(capped.detail, None);
    assert!(progress_due(150, 149, 1000, &m));
    assert!(progress_due(1100, 0, 1000, &m));
    assert!(!progress_due(999, 0, 1000, &m));
}

#[test]
fn admission_and_answers_follow_the_policy() {
    let policy = TransferPolicy::default();
    let m = manifest();
    assert_eq!(admit_incoming(&policy, &m, true), Ok(()));
    assert_eq!(admit_incoming(&policy, &m, false), Err(IncomingRejection::SessionBusy));
    let strict = TransferPolicy { maximum_file_size: 60, ..TransferPolicy::default() };
    assert_eq!(admit_incoming(&strict, &m, true), Err(IncomingRejection::ManifestPolicy));
    assert_eq!(IncomingRejection::ManifestPolicy.detail(), "manifest_policy");
    assert_eq!(check_source_count(&policy, 0), Err(TransferServiceError::InvalidSourceCount));
    assert_eq!(check_source_count(&policy, 1), Ok(()));
    assert_eq!(
        coordinator_settings(policy, false),
        Err(TransferServiceError::InvalidPolicy)
    );
    assert_eq!(coordinator_settings(policy, true), Ok(policy));

    let accepted = ReceiveTransferDecision {
        accepted: true,
        staging_directory: Some("/stage".to_owned()),
        destination_directory: Some("/dest".to_owned()),
        available_bytes: Some(u64::MAX),
    };
    assert_eq!(check_receive_decision(&accepted), Ok(()));
    let missing = ReceiveTransferDecision { destination_directory: None, ..accepted.clone() };
    assert_eq!(check_receive_decision(&missing), Err(TransferServiceError::MissingDestination));
    assert_eq!(
        resolve_receive_decision(&policy, &m, &Some(accepted.clone()), false, TRANSFER_ACTION_RUNNING),
        ReceiveResolution::Receive
    );
    let tight = ReceiveTransferDecision { available_bytes: Some(150), ..accepted.clone() };
    assert_eq!(
        resolve_receive_decision(&policy, &m, &Some(tight), false, TRANSFER_ACTION_RUNNING),
        ReceiveResolution::InsufficientSpace
    );
    assert_eq!(
        resolve_receive_decision(&policy, &m, &None, true, TRANSFER_ACTION_CANCEL),
        ReceiveResolution::Interrupted(BatchTransferError::Cancelled)
    );
    assert_eq!(
        resolve_receive_decision(&policy, &m, &None, false, TRANSFER_ACTION_RUNNING),
        ReceiveResolution::Decline
    );
    assert_eq!(check_retry_peer(&[1; 32], &[1; 32]), Ok(()));
    assert_eq!(check_retry_peer(&[1; 32], &[2; 32]), Err(TransferServiceError::PeerMismatch));
}

#[test]
fn platform_bridge_bounds_frames_and_drains() {
    assert_eq!(
        validate_frame_length(HEADER_LEN - 1),
        Err(PlatformControlError::InvalidFrameLength(HEADER_LEN - 1))
    );
    assert_eq!(
        validate_frame_length(MAX_FRAME_LEN + 1),
        Err(PlatformControlError::InvalidFrameLength(MAX_FRAME_LEN + 1))
    );
    assert_eq!(validate_frame_length(HEADER_LEN), Ok(()));
    assert_eq!(validate_frame_length(MAX_FRAME_LEN), Ok(()));
    assert_eq!(check_drain_limit(0), Err(PlatformControlError::InvalidDrainLimit));
    assert_eq!(check_drain_limit(FRAME_QUEUE_CAPACITY), Ok(()));
    assert_eq!(
        check_drain_limit(FRAME_QUEUE_CAPACITY + 1),
        Err(PlatformControlError::InvalidDrainLimit)
    );
}

#[test]
fn provider_health_is_reported_with_stable_names() {
    let id = ble_provider_id("ios").unwrap();
    let denied = normalize_provider_state(
        PlatformProviderState::PermissionDenied,
        Some("denied by user".to_owned()),
    );
    let status = provider_status(&id, &denied);
    assert_eq!(status.name, "ble-ios");
    assert_eq!(status.kind, "ble");
    assert_eq!(status.state, "permission_denied");
    assert_eq!(status.detail.as_deref(), Some("denied by user"));
    let long = normalize_provider_state(PlatformProviderState::Degraded, Some("x".repeat(500)));
    match long {
        ProviderState::Degraded(detail) => assert_eq!(detail.chars().count(), MAX_STATE_DETAIL_CHARS),
        other => panic!("unexpected state {other:?}"),
    }
    let ready = provider_status(&id, &normalize_provider_state(PlatformProviderState::Ready, None));
    assert_eq!(ready.state, "ready");
    assert_eq!(ready.detail, None);
    assert!(ble_provider_id("linux").is_err());
    let text = presence_id_text(&PresenceId([0x12; 16]));
    assert_eq!(text, "12121212-1212-1212-1212-121212121212");
}
