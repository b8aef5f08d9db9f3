use std::collections::VecDeque;

use halo::crypto::identity::DeviceIdentity;
use halo::crypto::pairing::{PairingCryptoError, TlsChannelBinding};
use halo::crypto::store::{derive_peer_id, TrustedPeer};
use halo::protocol::pairing::{Capabilities, ProtocolRange};
use halo::transport::frame_io::message_from_frame;
use halo::transport::pairing_flow::{
    is_recoverable_candidate_failure, pairing_error_category, recognize_peer, responder_accepts,
    FlowEvent, FlowStep, InitiatorFlow, PairingFlowError, PairingOutcome, ResponderFlow,
};

fn range() -> ProtocolRange {
    ProtocolRange::new(1, 1).unwrap()
}

/// Answers one step the way a driver with an in-memory trust store and a
/// user who always answers `answer` would. Returns `None` while a frame is
/// awaited that has not arrived yet.
fn answer(
    step: &FlowStep,
    inbox: &mut VecDeque<Vec<u8>>,
    outbox: &mut VecDeque<Vec<u8>>,
    store: &mut Vec<TrustedPeer>,
    codes: &mut Vec<u32>,
    user: bool,
) -> Option<FlowEvent> {
    match step {
        FlowStep::Send(frame) => {
            outbox.push_back(frame.clone());
            Some(FlowEvent::Sent(Ok(())))
        }
        FlowStep::Receive => inbox
            .pop_front()
            .map(|frame| FlowEvent::Received(message_from_frame(&frame))),
        FlowStep::Lookup(peer_id) => Some(FlowEvent::Looked(Ok(store
            .iter()
            .find(|peer| peer.peer_id() == *peer_id)
            .copied()))),
        FlowStep::Present(prompt) => {
            codes.push(prompt.code.value());
            Some(FlowEvent::Answered(Ok(user)))
        }
        FlowStep::Save(peer) => {
            store.retain(|stored| stored.peer_id() != peer.peer_id());
            store.push(*peer);
            Some(FlowEvent::Saved(Ok(())))
        }
        FlowStep::Finished(_) => None,
    }
}

struct Run {
    initiator: Result<PairingOutcome, PairingFlowError>,
    responder: Result<PairingOutcome, PairingFlowError>,
    initiator_codes: Vec<u32>,
    responder_codes: Vec<u32>,
}

fn pair(
    initiator_identity: &DeviceIdentity,
    responder_identity: &DeviceIdentity,
    initiator_store: &mut Vec<TrustedPeer>,
    responder_store: &mut Vec<TrustedPeer>,
    initiator_user: bool,
    responder_user: bool,
) -> Run {
    let binding = TlsChannelBinding::new([0x42; 32]);
    let caps = Capabilities::from_bits(0b11);
    let (mut initiator, mut initiator_step) =
        InitiatorFlow::start(initiator_identity, range(), caps, binding, None);
    let (mut responder, mut responder_step) = ResponderFlow::start(range(), caps, binding, None);
    let mut to_responder = VecDeque::new();
    let mut to_initiator = VecDeque::new();
    let mut initiator_codes = Vec::new();
    let mut responder_codes = Vec::new();
    for _ in 0..64 {
        let mut progressed = false;
        if let Some(event) = answer(
            &initiator_step,
            &mut to_initiator,
            &mut to_responder,
            initiator_store,
            &mut initiator_codes,
            initiator_user,
        ) {
            initiator_step = initiator.step(initiator_identity, event);
            progressed = true;
        }
        if let Some(event) = answer(
            &responder_step,
            &mut to_responder,
            &mut to_initiator,
            responder_store,
            &mut responder_codes,
            responder_user,
        ) {
            responder_step = responder.step(responder_identity, event);
            progressed = true;
        }
        if !progressed {
            break;
        }
    }
    let initiator = match initiator_step {
        FlowStep::Finished(result) => result,
        other => panic!("initiator stuck at {other:?}"),
    };
    let responder = match responder_step {
        FlowStep::Finished(result) => result,
        other => panic!("responder stuck at {other:?}"),
    };
    Run { initiator, responder, initiator_codes, responder_codes }
}

#[test]
fn first_contact_codes_match_and_both_sides_trust() {
    let a = DeviceIdentity::generate().unwrap();
    let b = DeviceIdentity::generate().unwrap();
    let mut a_store = Vec::new();
    let mut b_store = Vec::new();
    let run = pair(&a, &b, &mut a_store, &mut b_store, true, true);
    let initiator = run.initiator.unwrap();
    let responder = run.responder.unwrap();
    assert!(!initiator.already_trusted);
    assert!(!responder.already_trusted);
    assert_eq!(initiator.peer.peer_id(), derive_peer_id(&b.public_key()));
    assert_eq!(responder.peer.peer_id(), derive_peer_id(&a.public_key()));
    assert_eq!(run.initiator_codes.len(), 1);
    assert_eq!(run.initiator_codes, run.responder_codes);
    assert_eq!(a_store.len(), 1);
    assert_eq!(b_store.len(), 1);

    let again = pair(&a, &b, &mut a_store, &mut b_store, true, true);
    assert!(again.initiator.unwrap().already_trusted);
    assert!(again.responder.unwrap().already_trusted);
}

#[test]
fn responder_refusal_is_reported_to_both_sides() {
    let a = DeviceIdentity::generate().unwrap();
    let b = DeviceIdentity::generate().unwrap();
    let run = pair(&a, &b, &mut Vec::new(), &mut Vec::new(), true, false);
    assert_eq!(
        run.initiator.err(),
        Some(PairingFlowError::Crypto(PairingCryptoError::Rejected))
    );
    assert_eq!(run.responder.err(), Some(PairingFlowError::Rejected));
}

#[test]
fn recognition_refuses_changed_identities() {
    let a = DeviceIdentity::generate().unwrap();
    let b = DeviceIdentity::generate().unwrap();
    let peer_a = TrustedPeer { identity_key: a.public_key(), protocol_version: 1 };
    let (trusted, already) = recognize_peer(a.public_key(), 1, None, None).unwrap();
    assert!(!already);
    assert_eq!(trusted.peer_id(), peer_a.peer_id());
    let (_, already) = recognize_peer(a.public_key(), 1, Some(&peer_a), Some(peer_a)).unwrap();
    assert!(already);
    assert_eq!(
        recognize_peer(b.public_key(), 1, Some(&peer_a), None).err(),
        Some(PairingFlowError::IdentityChanged)
    );
    assert!(responder_accepts(true, false));
    assert!(responder_accepts(false, true));
    assert!(!responder_accepts(false, false));
    assert!(is_recoverable_candidate_failure(&PairingFlowError::UnexpectedMessage));
    assert!(!is_recoverable_candidate_failure(&PairingFlowError::Rejected));
    assert_eq!(pairing_error_category(&PairingFlowError::IdentityChanged), "identity_changed");
    assert_eq!(pairing_error_category(&PairingFlowError::UserCancelled), "cancelled");
}
