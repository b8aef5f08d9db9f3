use halo::protocol::transfer::{
    BatchCancelReason, BatchPauseReason, ManifestFile, ResumePosition, TransferManifest,
    DEFAULT_CHUNK_SIZE,
};
use halo::service::coordinator::{
    failure_message, FailureMessage, IncomingRejection, ReceiveTransferDecision,
};
use halo::service::incoming::{IncomingBatch, IncomingEvent, IncomingStep, PeerNotice};
use halo::service::transfer::{TransferEventKind, TransferPolicy};
use halo::transfer::batch::BatchTransferError;

fn manifest() -> TransferManifest {
    TransferManifest::new(
        [0xa5; 16],
        DEFAULT_CHUNK_SIZE,
        vec![ManifestFile::new(100, [1; 32], "a.txt".to_owned()).unwrap()],
    )
    .unwrap()
}

fn accept(available: u64) -> ReceiveTransferDecision {
    ReceiveTransferDecision {
        accepted: true,
        staging_directory: None,
        destination_directory: Some("/tmp/in".to_owned()),
        available_bytes: Some(available),
    }
}

#[test]
fn an_accepted_batch_runs_offer_positions_decision_and_data_in_order() {
    let (mut flow, step) = IncomingBatch::start(TransferPolicy::default(), 7);
    assert!(matches!(step, IncomingStep::ReceiveManifest));
    assert!(matches!(flow.step(IncomingEvent::Manifest(Some(manifest()))), IncomingStep::ClaimSession));
    match flow.step(IncomingEvent::Session { idle: true, registered: true }) {
        IncomingStep::Offer(event) => {
            assert_eq!(event.kind, TransferEventKind::OfferReceived);
            assert_eq!(event.authenticated_session_id, 7);
        }
        _ => panic!("expected the offer"),
    }
    let answer = IncomingEvent::Answer { decision: Some(accept(u64::MAX)), cancelled: false, action: 0 };
    assert!(matches!(flow.step(answer), IncomingStep::LoadPositions));
    let positions = vec![ResumePosition { file_index: 0, next_chunk_index: 0 }];
    match flow.step(IncomingEvent::Positions(Ok(positions.clone()))) {
        IncomingStep::SendDecision(sent) => assert_eq!(sent, positions),
        _ => panic!("expected the decision"),
    }
    assert!(matches!(flow.step(IncomingEvent::DecisionSent(true)), IncomingStep::Receive(_)));
    match flow.step(IncomingEvent::Received(Err(BatchTransferError::Integrity))) {
        IncomingStep::Finish { notice, result, discard } => {
            assert_eq!(notice, PeerNotice::Nothing);
            assert_eq!(result, Err(BatchTransferError::Integrity));
            assert!(discard);
        }
        _ => panic!("expected the end"),
    }
}

#[test]
fn refusals_and_declines_end_the_batch_early() {
    let strict = TransferPolicy { maximum_file_size: 10, ..TransferPolicy::default() };
    let (mut flow, _) = IncomingBatch::start(strict, 1);
    match flow.step(IncomingEvent::Manifest(Some(manifest()))) {
        IncomingStep::Refuse(rejection, event) => {
            assert_eq!(rejection, IncomingRejection::ManifestPolicy);
            assert_eq!(event.kind, TransferEventKind::Rejected);
            assert_eq!(event.detail.as_deref(), Some("manifest_policy"));
        }
        _ => panic!("expected a refusal"),
    }
    let (mut busy, _) = IncomingBatch::start(TransferPolicy::default(), 1);
    busy.step(IncomingEvent::Manifest(Some(manifest())));
    match busy.step(IncomingEvent::Session { idle: false, registered: false }) {
        IncomingStep::Refuse(rejection, event) => {
            assert_eq!(rejection, IncomingRejection::SessionBusy);
            assert_eq!(event.detail.as_deref(), Some("session_busy"));
        }
        _ => panic!("expected a refusal"),
    }
    let (mut full, _) = IncomingBatch::start(TransferPolicy::default(), 1);
    full.step(IncomingEvent::Manifest(Some(manifest())));
    full.step(IncomingEvent::Session { idle: true, registered: true });
    match full.step(IncomingEvent::Answer { decision: Some(accept(0)), cancelled: false, action: 0 }) {
        IncomingStep::Finish { notice, result, discard } => {
            assert_eq!(notice, PeerNotice::Cancel(BatchCancelReason::Storage));
            assert_eq!(result, Err(BatchTransferError::InsufficientSpace));
            assert!(!discard);
        }
        _ => panic!("expected the end"),
    }
    let (mut declined, _) = IncomingBatch::start(TransferPolicy::default(), 1);
    declined.step(IncomingEvent::Manifest(Some(manifest())));
    declined.step(IncomingEvent::Session { idle: true, registered: true });
    match declined.step(IncomingEvent::Answer { decision: None, cancelled: false, action: 0 }) {
        IncomingStep::Finish { notice, result, .. } => {
            assert_eq!(notice, PeerNotice::Decline);
            assert_eq!(result, Err(BatchTransferError::Rejected));
        }
        _ => panic!("expected the end"),
    }
    let (mut broken, _) = IncomingBatch::start(TransferPolicy::default(), 1);
    assert!(matches!(broken.step(IncomingEvent::Manifest(None)), IncomingStep::Close));
    assert_eq!(
        failure_message(&BatchTransferError::LocalPaused(BatchPauseReason::User)),
        Some(FailureMessage::Pause(BatchPauseReason::User))
    );
    assert_eq!(
        failure_message(&BatchTransferError::Paused),
        Some(FailureMessage::Pause(BatchPauseReason::AppLifecycle))
    );
    assert_eq!(failure_message(&BatchTransferError::Cancelled), Some(FailureMessage::Cancel(BatchCancelReason::User)));
}
