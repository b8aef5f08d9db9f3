//! The rules of the pairing conversation that do not depend on the wire:
//! how a presented identity is recognized, what the user is shown, and how
//! a failed pairing is reported.

use vstd::prelude::*;

use crate::crypto::identity::{ecdsa_sign, p256_public_point, DeviceIdentity, IdentityError, IdentityPublicKey};
use crate::crypto::pairing::{
    client_hello_made, client_hello_unsignable, code_from_okm, code_info, code_salt, commit_error, create_client_hello, create_commit,
    create_decision, create_server_hello, decision_error, hkdf_sha256, pairing_code,
    server_hello_error, server_hello_made, server_hello_unsignable, signed_error, spec_signature_input, spec_transcript_hash, transcript_hash,
    verify_client_hello, verify_commit, verify_decision, verify_server_hello, PairingCode,
    PairingCryptoError, SignedMessage, TlsChannelBinding, CODE_OKM_LEN,
};
use crate::crypto::digest::digest32;
use crate::crypto::store::{spec_peer_id, PeerId, StoreError, TrustedPeer};
use crate::protocol::pairing::{
    client_hello_unsigned, control_frame, encoded_message, server_hello_unsigned, Capabilities,
    ClientHello, PairingCommit, PairingDecision, PairingMessage, ProtocolRange, ServerHello,
    NONCE_LEN, PAIRING_COMMIT_KIND, PAIRING_DECISION_KIND, TRANSCRIPT_HASH_LEN,
};
use crate::transport::frame_io::FrameIoError;

verus! {

/// What the user is shown: the peer, the short code, and whether an answer
/// is required before pairing may go on.
#[derive(Clone, Copy, Debug, PartialEq, Eq)]
pub struct PairingPrompt {
    pub peer_id: PeerId,
    pub code: PairingCode,
    pub confirmation_required: bool,
}

/// A completed pairing.
#[derive(Clone, Copy, Debug, PartialEq, Eq)]
pub struct PairingOutcome {
    pub peer: TrustedPeer,
    pub already_trusted: bool,
}

#[derive(Clone, Debug, PartialEq, Eq)]
pub enum PairingFlowError {
    Io(FrameIoError),
    Crypto(PairingCryptoError),
    Store(StoreError),
    UnexpectedMessage,
    IdentityChanged,
    Rejected,
    UserCancelled,
    UserInterface,
}

/// How a presented identity is recognized. A key other than the one this
/// address was remembered with is a changed identity; so is a key whose
/// stored record holds another key, and an unknown key where one was
/// expected. A key stored as it is was already trusted; otherwise the peer
/// is new.
pub open spec fn spec_recognize(
    identity_key: IdentityPublicKey,
    protocol_version: u16,
    expected: Option<TrustedPeer>,
    stored: Option<TrustedPeer>,
) -> Result<(TrustedPeer, bool), PairingFlowError> {
    let peer = TrustedPeer { identity_key, protocol_version };
    if expected matches Some(e) && e.identity_key@ != identity_key@ {
        Err(PairingFlowError::IdentityChanged)
    } else {
        match stored {
            Some(s) => if s.identity_key@ == identity_key@ {
                Ok((peer, true))
            } else {
                Err(PairingFlowError::IdentityChanged)
            },
            None => if expected is Some {
                Err(PairingFlowError::IdentityChanged)
            } else {
                Ok((peer, false))
            },
        }
    }
}

fn same_key(a: &IdentityPublicKey, b: &IdentityPublicKey) -> (r: bool)
    ensures
        r == (a@ == b@),
{
    crate::be_bytes::bytes_equal(a.as_bytes().as_slice(), b.as_bytes().as_slice())
}

/// Recognizes the identity a peer presented, given what this address was
/// remembered with and what the trust store holds for the key's peer id.
pub fn recognize_peer(
    identity_key: IdentityPublicKey,
    protocol_version: u16,
    expected: Option<&TrustedPeer>,
    stored: Option<TrustedPeer>,
) -> (r: Result<(TrustedPeer, bool), PairingFlowError>)
    ensures
        r == spec_recognize(
            identity_key,
            protocol_version,
            match expected {
                Some(e) => Some(*e),
                None => None,
            },
            stored,
        ),
{
    if let Some(e) = expected {
        if !same_key(&e.identity_key, &identity_key) {
            return Err(PairingFlowError::IdentityChanged);
        }
    }
    let peer = TrustedPeer { identity_key, protocol_version };
    match stored {
        Some(s) => if same_key(&s.identity_key, &identity_key) {
            Ok((peer, true))
        } else {
            Err(PairingFlowError::IdentityChanged)
        },
        None => if expected.is_some() {
            Err(PairingFlowError::IdentityChanged)
        } else {
            Ok((peer, false))
        },
    }
}

/// A remembered peer that presents another key is never trusted, whatever
/// the store holds.
pub proof fn lemma_changed_identity_is_refused(
    identity_key: IdentityPublicKey,
    protocol_version: u16,
    expected: TrustedPeer,
    stored: Option<TrustedPeer>,
)
    requires
        expected.identity_key@ != identity_key@,
    ensures
        spec_recognize(identity_key, protocol_version, Some(expected), stored) == Err::<
            (TrustedPeer, bool),
            PairingFlowError,
        >(PairingFlowError::IdentityChanged),
{
}

/// A peer counts as already trusted exactly when the store holds its key.
pub proof fn lemma_trusted_only_when_stored(
    identity_key: IdentityPublicKey,
    protocol_version: u16,
    expected: Option<TrustedPeer>,
    stored: Option<TrustedPeer>,
)
    ensures
        spec_recognize(identity_key, protocol_version, expected, stored) matches Ok((_, true))
            ==> stored matches Some(s) && s.identity_key@ == identity_key@,
        spec_recognize(identity_key, protocol_version, expected, stored) matches Ok((p, _))
            ==> p.identity_key == identity_key && p.protocol_version == protocol_version,
{
}

/// The responder goes on with a pairing only when the peer was already
/// trusted or its user accepted.
pub fn responder_accepts(already_trusted: bool, user_accepted: bool) -> (r: bool)
    ensures
        r == (already_trusted || user_accepted),
{
    already_trusted || user_accepted
}

/// A failure with one candidate address that another address may not
/// repeat: a broken control stream, a failed authentication, or a message
/// out of turn.
pub open spec fn spec_recoverable(e: PairingFlowError) -> bool {
    e is Io || e is Crypto || e is UnexpectedMessage
}

pub fn is_recoverable_candidate_failure(error: &PairingFlowError) -> (r: bool)
    ensures
        r == spec_recoverable(*error),
{
    match error {
        PairingFlowError::Io(_) | PairingFlowError::Crypto(_) | PairingFlowError::UnexpectedMessage => true,
        _ => false,
    }
}

/// The stable category a failed pairing reports.
pub open spec fn flow_error_category(e: PairingFlowError) -> Seq<char> {
    match e {
        PairingFlowError::Io(_) => "control_io"@,
        PairingFlowError::Crypto(_) => "authentication"@,
        PairingFlowError::Store(_) => "persistence"@,
        PairingFlowError::UnexpectedMessage => "protocol"@,
        PairingFlowError::IdentityChanged => "identity_changed"@,
        PairingFlowError::Rejected => "rejected"@,
        PairingFlowError::UserCancelled => "cancelled"@,
        PairingFlowError::UserInterface => "user_interface"@,
    }
}

pub fn pairing_error_category(error: &PairingFlowError) -> (r: &'static str)
    ensures
        r@ == flow_error_category(*error),
{
    match error {
        PairingFlowError::Io(_) => "control_io",
        PairingFlowError::Crypto(_) => "authentication",
        PairingFlowError::Store(_) => "persistence",
        PairingFlowError::UnexpectedMessage => "protocol",
        PairingFlowError::IdentityChanged => "identity_changed",
        PairingFlowError::Rejected => "rejected",
        PairingFlowError::UserCancelled => "cancelled",
        PairingFlowError::UserInterface => "user_interface",
    }
}

// ---------------------------------------------------------------------------
// The conversation, one step at a time
// ---------------------------------------------------------------------------

/// What a pairing conversation needs from its driver next.
#[derive(Debug)]
pub enum FlowStep {
    /// Write this frame to the control stream, then report `Sent`.
    Send(Vec<u8>),
    /// Read the next message, then report `Received`.
    Receive,
    /// Look the peer up in the trust store, then report `Looked`.
    Lookup(PeerId),
    /// Show the prompt to the user, then report `Answered`.
    Present(PairingPrompt),
    /// Remember the peer in the trust store, then report `Saved`.
    Save(TrustedPeer),
    /// The conversation is over.
    Finished(Result<PairingOutcome, PairingFlowError>),
}

/// What the driver reports back after doing what a step asked.
#[derive(Debug)]
pub enum FlowEvent {
    Sent(Result<(), FrameIoError>),
    Received(Result<PairingMessage, FrameIoError>),
    Looked(Result<Option<TrustedPeer>, StoreError>),
    Answered(Result<bool, PairingFlowError>),
    Saved(Result<(), StoreError>),
}

fn copy_client_hello(c: &ClientHello) -> (r: ClientHello)
    ensures
        r == *c,
{
    ClientHello {
        versions: c.versions,
        capabilities: c.capabilities,
        nonce: c.nonce,
        identity_key: c.identity_key,
        signature: c.signature,
    }
}

/// The error a step reports for an event its phase does not expect: a
/// failed write or read, a failed trust store, or a message out of turn.
pub open spec fn flow_failure(event: FlowEvent) -> PairingFlowError {
    match event {
        FlowEvent::Sent(Err(e)) => PairingFlowError::Io(e),
        FlowEvent::Received(Err(e)) => PairingFlowError::Io(e),
        FlowEvent::Looked(Err(e)) => PairingFlowError::Store(e),
        FlowEvent::Saved(Err(e)) => PairingFlowError::Store(e),
        _ => PairingFlowError::UnexpectedMessage,
    }
}

/// The six-digit code a transcript hash gives, if the key material allows one.
pub open spec fn transcript_code(transcript: Seq<u8>) -> Option<u32> {
    code_from_okm(hkdf_sha256(code_salt(), transcript, code_info(), CODE_OKM_LEN as nat), 0)
}

/// The step asks to look up the peer that holds this key.
pub open spec fn looks_up(r: FlowStep, key: Seq<u8>) -> bool {
    r matches FlowStep::Lookup(id) && id.0@ == spec_peer_id(key)
}

/// The step shows the user this peer and code.
pub open spec fn presents(r: FlowStep, peer: TrustedPeer, code: u32, confirmation_required: bool) -> bool {
    r matches FlowStep::Present(p) && p.peer_id.0@ == spec_peer_id(peer.identity_key@)
        && p.code.spec_value() == code && p.confirmation_required == confirmation_required
}

/// The step writes exactly this frame.
pub open spec fn sends(r: FlowStep, frame: Seq<u8>) -> bool {
    r matches FlowStep::Send(f) && f@ == frame
}

/// The frame of a commit to a transcript with this signature.
pub open spec fn commit_frame(transcript: Seq<u8>, signature: Seq<u8>) -> Seq<u8> {
    control_frame(PAIRING_COMMIT_KIND, transcript + signature)
}

/// The frame of a decision on a transcript with this signature.
pub open spec fn decision_frame(transcript: Seq<u8>, accepted: bool, signature: Seq<u8>) -> Seq<u8> {
    control_frame(
        PAIRING_DECISION_KIND,
        transcript + seq![if accepted { 1u8 } else { 0u8 }] + signature,
    )
}

/// What an initiator has seen so far; it exists only for the proof.
pub ghost struct InitiatorTrail {
    pub client: ClientHello,
    pub server: ServerHello,
    pub stored: Option<TrustedPeer>,
    pub displayed: bool,
    pub decision: PairingDecision,
}

/// The transcript both sides hash: the binding and the two hello frames.
pub open spec fn trail_transcript(client: ClientHello, server: ServerHello, binding: Seq<u8>) -> Seq<u8> {
    spec_transcript_hash(
        binding,
        encoded_message(PairingMessage::ClientHello(client)),
        encoded_message(PairingMessage::ServerHello(server)),
    )
}

/// The server hello answered our hello on this channel with a valid
/// signature and the version both sides should use.
pub open spec fn server_verified(t: InitiatorTrail, binding: Seq<u8>) -> bool {
    server_hello_error(
        encoded_message(PairingMessage::ClientHello(t.client)),
        t.client,
        t.server,
        binding,
    ) is None
}

/// The initiator's peer was recognized from the verified server hello.
pub open spec fn initiator_recognized(
    t: InitiatorTrail,
    o: PairingOutcome,
    binding: Seq<u8>,
    expected: Option<TrustedPeer>,
) -> bool {
    &&& server_verified(t, binding)
    &&& o.peer.identity_key.spec_array() == t.server.identity_key
    &&& spec_recognize(o.peer.identity_key, o.peer.protocol_version, expected, t.stored) == Ok::<
        (TrustedPeer, bool),
        PairingFlowError,
    >((o.peer, o.already_trusted))
    &&& o.peer.protocol_version == t.server.selected_version
}

/// Everything an initiator checked before it trusts a peer: the server's
/// hello, the peer's identity against what was remembered, the user saw
/// the code of a new peer, and the peer's signed acceptance of this very
/// transcript.
pub open spec fn initiator_verified(
    t: InitiatorTrail,
    o: PairingOutcome,
    binding: Seq<u8>,
    expected: Option<TrustedPeer>,
) -> bool {
    &&& initiator_recognized(t, o, binding, expected)
    &&& o.already_trusted || t.displayed
    &&& decision_error(
        o.peer.identity_key@,
        t.decision,
        trail_transcript(t.client, t.server, binding),
        binding,
    ) is None
}

enum InitiatorState {
    HelloSent { client: ClientHello },
    AwaitServer { client: ClientHello },
    Recognize { key: IdentityPublicKey, version: u16, transcript: [u8; TRANSCRIPT_HASH_LEN] },
    Display { outcome: PairingOutcome, transcript: [u8; TRANSCRIPT_HASH_LEN] },
    AwaitDecision { outcome: PairingOutcome, transcript: [u8; TRANSCRIPT_HASH_LEN] },
    CommitSent { outcome: PairingOutcome },
    Saving { outcome: PairingOutcome },
    Done,
}

/// Where an initiator's conversation stands, as its driver sees it.
pub enum InitiatorPhase {
    HelloSent,
    AwaitServer,
    Recognize,
    Display { outcome: PairingOutcome },
    AwaitDecision { outcome: PairingOutcome },
    CommitSent { outcome: PairingOutcome },
    Saving { outcome: PairingOutcome },
    Done,
}

/// The conversation ends with this error, the trail as it was.
pub open spec fn initiator_ends(
    r: FlowStep,
    next: InitiatorPhase,
    t: InitiatorTrail,
    t2: InitiatorTrail,
    e: PairingFlowError,
) -> bool {
    r == FlowStep::Finished(Err::<PairingOutcome, PairingFlowError>(e)) && next is Done && t2 == t
}

/// One step of the initiator: from a phase, what was seen so far and the
/// driver's report, the step it asks for, the next phase and what it has
/// seen then. `secret` is our identity's secret key.
pub open spec fn initiator_step(
    phase: InitiatorPhase,
    t: InitiatorTrail,
    binding: Seq<u8>,
    expected: Option<TrustedPeer>,
    secret: Seq<u8>,
    event: FlowEvent,
    r: FlowStep,
    next: InitiatorPhase,
    t2: InitiatorTrail,
) -> bool {
    let transcript = trail_transcript(t.client, t.server, binding);
    match (phase, event) {
        (InitiatorPhase::HelloSent, FlowEvent::Sent(Ok(_))) => {
            r == FlowStep::Receive && next == InitiatorPhase::AwaitServer && t2 == t
        },
        (
            InitiatorPhase::AwaitServer,
            FlowEvent::Received(Ok(PairingMessage::ServerHello(server))),
        ) => match server_hello_error(
            encoded_message(PairingMessage::ClientHello(t.client)),
            t.client,
            server,
            binding,
        ) {
            Some(e) => initiator_ends(r, next, t, t2, PairingFlowError::Crypto(e)),
            None => {
                &&& looks_up(r, server.identity_key@)
                &&& next == InitiatorPhase::Recognize
                &&& t2 == InitiatorTrail { server, ..t }
            },
        },
        (InitiatorPhase::Recognize, FlowEvent::Looked(Ok(stored))) => {
            let t1 = InitiatorTrail { stored, ..t };
            match spec_recognize(
                IdentityPublicKey::from_array(t.server.identity_key),
                t.server.selected_version,
                expected,
                stored,
            ) {
                Err(e) => initiator_ends(r, next, t1, t2, e),
                Ok((peer, trusted)) => {
                    let outcome = PairingOutcome { peer, already_trusted: trusted };
                    if trusted {
                        r == FlowStep::Receive && next == InitiatorPhase::AwaitDecision { outcome }
                            && t2 == t1
                    } else {
                        match transcript_code(transcript) {
                            None => initiator_ends(
                                r,
                                next,
                                t1,
                                t2,
                                PairingFlowError::Crypto(PairingCryptoError::CodeDerivation),
                            ),
                            Some(code) => presents(r, peer, code, false)
                                && next == InitiatorPhase::Display { outcome } && t2 == t1,
                        }
                    }
                },
            }
        },
        (InitiatorPhase::Display { outcome }, FlowEvent::Answered(Ok(shown))) => if shown {
            r == FlowStep::Receive && next == InitiatorPhase::AwaitDecision { outcome }
                && t2 == InitiatorTrail { displayed: true, ..t }
        } else {
            initiator_ends(r, next, t, t2, PairingFlowError::UserCancelled)
        },
        (InitiatorPhase::Display { .. }, FlowEvent::Answered(Err(e))) => initiator_ends(
            r,
            next,
            t,
            t2,
            e,
        ),
        (
            InitiatorPhase::AwaitDecision { outcome },
            FlowEvent::Received(Ok(PairingMessage::Decision(decision))),
        ) => match decision_error(outcome.peer.identity_key@, decision, transcript, binding) {
            Some(e) => initiator_ends(r, next, t, t2, PairingFlowError::Crypto(e)),
            None => {
                let t1 = InitiatorTrail { decision, ..t };
                match ecdsa_sign(
                    secret,
                    spec_signature_input(SignedMessage::Commit, binding, transcript),
                ) {
                    None => initiator_ends(
                        r,
                        next,
                        t1,
                        t2,
                        PairingFlowError::Crypto(
                            PairingCryptoError::Identity(IdentityError::InvalidSecret),
                        ),
                    ),
                    Some(signature) => sends(r, commit_frame(transcript, signature))
                        && next == InitiatorPhase::CommitSent { outcome } && t2 == t1,
                }
            },
        },
        (InitiatorPhase::CommitSent { outcome }, FlowEvent::Sent(Ok(_))) => {
            r == FlowStep::Save(outcome.peer) && next == InitiatorPhase::Saving { outcome } && t2 == t
        },
        (InitiatorPhase::Saving { outcome }, FlowEvent::Saved(Ok(_))) => {
            r == FlowStep::Finished(Ok::<PairingOutcome, PairingFlowError>(outcome)) && next is Done
                && t2 == t
        },
        _ => initiator_ends(r, next, t, t2, flow_failure(event)),
    }
}

/// The initiator's side of pairing, driven one event at a time.
pub struct InitiatorFlow {
    state: InitiatorState,
    binding: TlsChannelBinding,
    expected: Option<TrustedPeer>,
    trail: Ghost<InitiatorTrail>,
}

impl InitiatorFlow {
    pub closed spec fn spec_binding(&self) -> TlsChannelBinding {
        self.binding
    }

    pub closed spec fn spec_expected(&self) -> Option<TrustedPeer> {
        self.expected
    }

    pub closed spec fn spec_trail(&self) -> InitiatorTrail {
        self.trail@
    }

    pub closed spec fn is_done(&self) -> bool {
        self.state is Done
    }

    pub closed spec fn phase(&self) -> InitiatorPhase {
        match self.state {
            InitiatorState::HelloSent { .. } => InitiatorPhase::HelloSent,
            InitiatorState::AwaitServer { .. } => InitiatorPhase::AwaitServer,
            InitiatorState::Recognize { .. } => InitiatorPhase::Recognize,
            InitiatorState::Display { outcome, .. } => InitiatorPhase::Display { outcome },
            InitiatorState::AwaitDecision { outcome, .. } => InitiatorPhase::AwaitDecision { outcome },
            InitiatorState::CommitSent { outcome } => InitiatorPhase::CommitSent { outcome },
            InitiatorState::Saving { outcome } => InitiatorPhase::Saving { outcome },
            InitiatorState::Done => InitiatorPhase::Done,
        }
    }

    /// The state agrees with the trail of what was seen.
    pub closed spec fn wf(&self) -> bool {
        let t = self.trail@;
        let b = self.binding.0@;
        match self.state {
            InitiatorState::HelloSent { client } => t.client == client,
            InitiatorState::AwaitServer { client } => t.client == client,
            InitiatorState::Recognize { key, version, transcript } => {
                &&& server_verified(t, b)
                &&& key.spec_array() == t.server.identity_key
                &&& version == t.server.selected_version
                &&& transcript@ == trail_transcript(t.client, t.server, b)
            },
            InitiatorState::Display { outcome, transcript } => {
                &&& initiator_recognized(t, outcome, b, self.expected)
                &&& !outcome.already_trusted
                &&& transcript@ == trail_transcript(t.client, t.server, b)
            },
            InitiatorState::AwaitDecision { outcome, transcript } => {
                &&& initiator_recognized(t, outcome, b, self.expected)
                &&& outcome.already_trusted || t.displayed
                &&& transcript@ == trail_transcript(t.client, t.server, b)
            },
            InitiatorState::CommitSent { outcome } => initiator_verified(t, outcome, b, self.expected),
            InitiatorState::Saving { outcome } => initiator_verified(t, outcome, b, self.expected),
            InitiatorState::Done => true,
        }
    }

    /// Opens the conversation with a signed hello.
    pub fn start(
        identity: &DeviceIdentity,
        versions: ProtocolRange,
        capabilities: Capabilities,
        binding: TlsChannelBinding,
        expected: Option<TrustedPeer>,
    ) -> (r: (Self, FlowStep))
        ensures
            r.0.wf(),
            r.0.spec_binding() == binding,
            r.0.spec_expected() == expected,
            r.1 matches FlowStep::Finished(result) ==> result is Err && r.0.is_done(),
            r.1 matches FlowStep::Finished(Err(e)) ==> e == PairingFlowError::Crypto(
                PairingCryptoError::Random,
            ) || (e == PairingFlowError::Crypto(
                PairingCryptoError::Identity(IdentityError::InvalidSecret),
            ) && exists|nonce: Seq<u8>|
                nonce.len() == NONCE_LEN && #[trigger] client_hello_unsignable(
                    identity.spec_secret(),
                    versions,
                    capabilities,
                    binding.0@,
                    nonce,
                )),
            r.1 is Send ==> r.0.phase() is HelloSent && client_hello_made(
                r.0.spec_trail().client,
                identity.spec_secret(),
                versions,
                capabilities,
                binding.0@,
            ),
            r.1 matches FlowStep::Send(frame) ==> frame@ == encoded_message(
                PairingMessage::ClientHello(r.0.spec_trail().client),
            ) && r.0.spec_trail().client.versions == versions,
            r.1 is Send || r.1 is Finished,
    {
        match create_client_hello(identity, versions, capabilities, binding) {
            Err(e) => {
                let trail = Ghost(
                    InitiatorTrail {
                        client: arbitrary(),
                        server: arbitrary(),
                        stored: None,
                        displayed: false,
                        decision: arbitrary(),
                    },
                );
                (
                    InitiatorFlow { state: InitiatorState::Done, binding, expected, trail },
                    FlowStep::Finished(Err(PairingFlowError::Crypto(e))),
                )
            },
            Ok(client) => {
                let frame = PairingMessage::ClientHello(copy_client_hello(&client)).encode();
                let trail = Ghost(
                    InitiatorTrail {
                        client,
                        server: arbitrary(),
                        stored: None,
                        displayed: false,
                        decision: arbitrary(),
                    },
                );
                (
                    InitiatorFlow { state: InitiatorState::HelloSent { client }, binding, expected, trail },
                    FlowStep::Send(frame),
                )
            },
        }
    }

    fn finish(&mut self, error: PairingFlowError) -> (r: FlowStep)
        ensures
            final(self).is_done(),
            final(self).wf(),
            final(self).spec_trail() == old(self).spec_trail(),
            final(self).spec_binding() == old(self).spec_binding(),
            final(self).spec_expected() == old(self).spec_expected(),
            r == FlowStep::Finished(Err(error)),
    {
        self.state = InitiatorState::Done;
        FlowStep::Finished(Err(error))
    }

    /// Takes the driver's report and says what to do next. The initiator
    /// only ever finishes successfully once it has verified everything
    /// `initiator_verified` names.
    pub fn step(&mut self, identity: &DeviceIdentity, event: FlowEvent) -> (r: FlowStep)
        requires
            old(self).wf(),
        ensures
            final(self).wf(),
            final(self).spec_binding() == old(self).spec_binding(),
            final(self).spec_expected() == old(self).spec_expected(),
            initiator_step(
                old(self).phase(),
                old(self).spec_trail(),
                old(self).spec_binding().0@,
                old(self).spec_expected(),
                identity.spec_secret(),
                event,
                r,
                final(self).phase(),
                final(self).spec_trail(),
            ),
            r matches FlowStep::Finished(Ok(o)) ==> initiator_verified(
                final(self).spec_trail(),
                o,
                final(self).spec_binding().0@,
                final(self).spec_expected(),
            ),
            r is Finished ==> final(self).is_done(),
    {
        let mut state = InitiatorState::Done;
        std::mem::swap(&mut state, &mut self.state);
        let ghost t = self.trail@;
        let binding = self.binding;
        match (state, event) {
            (InitiatorState::HelloSent { client }, FlowEvent::Sent(Ok(()))) => {
                self.state = InitiatorState::AwaitServer { client };
                FlowStep::Receive
            },
            (InitiatorState::AwaitServer { client }, FlowEvent::Received(Ok(PairingMessage::ServerHello(server)))) => {
                let client_frame = PairingMessage::ClientHello(copy_client_hello(&client)).encode();
                match verify_server_hello(client_frame.as_slice(), &client, &server, binding) {
                    Err(e) => self.finish(PairingFlowError::Crypto(e)),
                    Ok(key) => {
                        let version = server.selected_version;
                        let server_frame = PairingMessage::ServerHello(server).encode();
                        let transcript = transcript_hash(binding, client_frame.as_slice(), server_frame.as_slice());
                        self.trail = Ghost(InitiatorTrail { server, ..t });
                        self.state = InitiatorState::Recognize { key, version, transcript };
                        FlowStep::Lookup(crate::crypto::store::derive_peer_id(&key))
                    },
                }
            },
            (InitiatorState::Recognize { key, version, transcript }, FlowEvent::Looked(Ok(stored))) => {
                proof {
                    key.lemma_array(t.server.identity_key);
                }
                self.trail = Ghost(InitiatorTrail { stored, ..t });
                match recognize_peer(key, version, self.expected.as_ref(), stored) {
                    Err(e) => self.finish(e),
                    Ok((peer, already_trusted)) => {
                        let outcome = PairingOutcome { peer, already_trusted };
                        if already_trusted {
                            self.state = InitiatorState::AwaitDecision { outcome, transcript };
                            FlowStep::Receive
                        } else {
                            match pairing_code(&transcript) {
                                Err(e) => self.finish(PairingFlowError::Crypto(e)),
                                Ok(code) => {
                                    self.state = InitiatorState::Display { outcome, transcript };
                                    FlowStep::Present(
                                        PairingPrompt {
                                            peer_id: peer.peer_id(),
                                            code,
                                            confirmation_required: false,
                                        },
                                    )
                                },
                            }
                        }
                    },
                }
            },
            (InitiatorState::Display { outcome, transcript }, FlowEvent::Answered(Ok(true))) => {
                self.trail = Ghost(InitiatorTrail { displayed: true, ..t });
                self.state = InitiatorState::AwaitDecision { outcome, transcript };
                FlowStep::Receive
            },
            (InitiatorState::Display { .. }, FlowEvent::Answered(Ok(false))) => {
                self.finish(PairingFlowError::UserCancelled)
            },
            (InitiatorState::Display { .. }, FlowEvent::Answered(Err(e))) => self.finish(e),
            (InitiatorState::AwaitDecision { outcome, transcript }, FlowEvent::Received(Ok(PairingMessage::Decision(decision)))) => {
                match verify_decision(&outcome.peer.identity_key, &decision, &transcript, binding) {
                    Err(e) => self.finish(PairingFlowError::Crypto(e)),
                    Ok(()) => {
                        self.trail = Ghost(InitiatorTrail { decision, ..t });
                        match create_commit(identity, transcript, binding) {
                            Err(e) => self.finish(PairingFlowError::Crypto(e)),
                            Ok(commit) => {
                                self.state = InitiatorState::CommitSent { outcome };
                                FlowStep::Send(PairingMessage::Commit(commit).encode())
                            },
                        }
                    },
                }
            },
            (InitiatorState::CommitSent { outcome }, FlowEvent::Sent(Ok(()))) => {
                self.state = InitiatorState::Saving { outcome };
                FlowStep::Save(outcome.peer)
            },
            (InitiatorState::Saving { outcome }, FlowEvent::Saved(Ok(()))) => {
                FlowStep::Finished(Ok(outcome))
            },
            (_, FlowEvent::Sent(Err(e))) => self.finish(PairingFlowError::Io(e)),
            (_, FlowEvent::Received(Err(e))) => self.finish(PairingFlowError::Io(e)),
            (_, FlowEvent::Looked(Err(e))) => self.finish(PairingFlowError::Store(e)),
            (_, FlowEvent::Saved(Err(e))) => self.finish(PairingFlowError::Store(e)),
            _ => self.finish(PairingFlowError::UnexpectedMessage),
        }
    }
}

fn copy_server_hello(m: &ServerHello) -> (r: ServerHello)
    ensures
        r == *m,
{
    ServerHello {
        selected_version: m.selected_version,
        versions: m.versions,
        capabilities: m.capabilities,
        nonce: m.nonce,
        identity_key: m.identity_key,
        client_hello_hash: m.client_hello_hash,
        signature: m.signature,
    }
}

/// What a responder has seen and sent so far; it exists only for the proof.
pub ghost struct ResponderTrail {
    pub client: ClientHello,
    pub server: ServerHello,
    pub stored: Option<TrustedPeer>,
    pub user_accepted: bool,
    pub commit: PairingCommit,
}

/// The client hello was signed on this channel by the key it carries.
pub open spec fn client_verified(t: ResponderTrail, binding: Seq<u8>) -> bool {
    signed_error(
        SignedMessage::ClientHello,
        binding,
        client_hello_unsigned(t.client),
        t.client.identity_key@,
        t.client.signature@,
    ) is None
}

/// The responder's peer was recognized from the verified client hello.
pub open spec fn responder_recognized(
    t: ResponderTrail,
    o: PairingOutcome,
    binding: Seq<u8>,
    expected: Option<TrustedPeer>,
) -> bool {
    &&& client_verified(t, binding)
    &&& o.peer.identity_key.spec_array() == t.client.identity_key
    &&& o.peer.protocol_version == t.server.selected_version
    &&& spec_recognize(o.peer.identity_key, o.peer.protocol_version, expected, t.stored) == Ok::<
        (TrustedPeer, bool),
        PairingFlowError,
    >((o.peer, o.already_trusted))
}

/// Everything a responder checked before it trusts a peer: the client's
/// hello, the peer's identity against what was remembered, its user's
/// acceptance of a new peer, and the peer's signed commitment to this very
/// transcript.
pub open spec fn responder_verified(
    t: ResponderTrail,
    o: PairingOutcome,
    binding: Seq<u8>,
    expected: Option<TrustedPeer>,
) -> bool {
    &&& responder_recognized(t, o, binding, expected)
    &&& o.already_trusted || t.user_accepted
    &&& commit_error(
        o.peer.identity_key@,
        t.commit,
        trail_transcript(t.client, t.server, binding),
        binding,
    ) is None
}

enum ResponderState {
    AwaitClient,
    ServerSent { key: IdentityPublicKey, version: u16, transcript: [u8; TRANSCRIPT_HASH_LEN] },
    Recognize { key: IdentityPublicKey, version: u16, transcript: [u8; TRANSCRIPT_HASH_LEN] },
    Confirm { outcome: PairingOutcome, transcript: [u8; TRANSCRIPT_HASH_LEN] },
    DecisionSent { outcome: PairingOutcome, transcript: [u8; TRANSCRIPT_HASH_LEN], accepted: bool },
    AwaitCommit { outcome: PairingOutcome, transcript: [u8; TRANSCRIPT_HASH_LEN] },
    Saving { outcome: PairingOutcome },
    Done,
}

/// Where a responder's conversation stands, as its driver sees it.
pub enum ResponderPhase {
    AwaitClient,
    ServerSent,
    Recognize,
    Confirm { outcome: PairingOutcome },
    DecisionSent { outcome: PairingOutcome, accepted: bool },
    AwaitCommit { outcome: PairingOutcome },
    Saving { outcome: PairingOutcome },
    Done,
}

/// The conversation ends with this error, the trail as it was.
pub open spec fn responder_ends(
    r: FlowStep,
    next: ResponderPhase,
    t: ResponderTrail,
    t2: ResponderTrail,
    e: PairingFlowError,
) -> bool {
    r == FlowStep::Finished(Err::<PairingOutcome, PairingFlowError>(e)) && next is Done && t2 == t
}

/// A server hello that answers this client hello: the version both sides
/// share, our ranges and key, the hash of the client's frame and our
/// signature; its nonce is fresh.
pub open spec fn answers_client(
    server: ServerHello,
    client: ClientHello,
    version: u16,
    versions: ProtocolRange,
    capabilities: Capabilities,
    secret: Seq<u8>,
    binding: Seq<u8>,
) -> bool {
    server_hello_made(
        server,
        secret,
        version,
        versions,
        capabilities,
        encoded_message(PairingMessage::ClientHello(client)),
        binding,
    )
}

/// The responder signs and sends its decision on the transcript.
pub open spec fn responder_decides(
    r: FlowStep,
    next: ResponderPhase,
    t: ResponderTrail,
    t2: ResponderTrail,
    outcome: PairingOutcome,
    accepted: bool,
    transcript: Seq<u8>,
    secret: Seq<u8>,
    binding: Seq<u8>,
) -> bool {
    match ecdsa_sign(
        secret,
        spec_signature_input(
            SignedMessage::Decision,
            binding,
            transcript + seq![if accepted { 1u8 } else { 0u8 }],
        ),
    ) {
        None => responder_ends(
            r,
            next,
            t,
            t2,
            PairingFlowError::Crypto(PairingCryptoError::Identity(IdentityError::InvalidSecret)),
        ),
        Some(signature) => sends(r, decision_frame(transcript, accepted, signature))
            && next == ResponderPhase::DecisionSent { outcome, accepted } && t2 == t,
    }
}

/// One step of the responder: from a phase, what was seen so far and the
/// driver's report, the step it asks for, the next phase and what it has
/// seen then. `secret` is our identity's secret key; `versions` and
/// `capabilities` are what we offer.
pub open spec fn responder_step(
    phase: ResponderPhase,
    t: ResponderTrail,
    binding: Seq<u8>,
    expected: Option<TrustedPeer>,
    secret: Seq<u8>,
    versions: ProtocolRange,
    capabilities: Capabilities,
    event: FlowEvent,
    r: FlowStep,
    next: ResponderPhase,
    t2: ResponderTrail,
) -> bool {
    let transcript = trail_transcript(t.client, t.server, binding);
    match (phase, event) {
        (
            ResponderPhase::AwaitClient,
            FlowEvent::Received(Ok(PairingMessage::ClientHello(client))),
        ) => match signed_error(
            SignedMessage::ClientHello,
            binding,
            client_hello_unsigned(client),
            client.identity_key@,
            client.signature@,
        ) {
            Some(e) => responder_ends(r, next, t, t2, PairingFlowError::Crypto(e)),
            None => match versions.negotiated(client.versions) {
                None => responder_ends(
                    r,
                    next,
                    t,
                    t2,
                    PairingFlowError::Crypto(PairingCryptoError::IncompatibleVersion),
                ),
                Some(version) => {
                    ||| responder_ends(r, next, t, t2, PairingFlowError::Crypto(PairingCryptoError::Random))
                    ||| {
                        &&& responder_ends(
                            r,
                            next,
                            t,
                            t2,
                            PairingFlowError::Crypto(
                                PairingCryptoError::Identity(IdentityError::InvalidSecret),
                            ),
                        )
                        &&& exists|nonce: Seq<u8>|
                            nonce.len() == NONCE_LEN && #[trigger] server_hello_unsignable(
                                secret,
                                version,
                                versions,
                                capabilities,
                                encoded_message(PairingMessage::ClientHello(client)),
                                binding,
                                nonce,
                            )
                    }
                    ||| {
                        &&& answers_client(t2.server, client, version, versions, capabilities, secret, binding)
                        &&& t2 == ResponderTrail { client, server: t2.server, ..t }
                        &&& sends(r, encoded_message(PairingMessage::ServerHello(t2.server)))
                        &&& next == ResponderPhase::ServerSent
                    }
                },
            },
        },
        (ResponderPhase::ServerSent, FlowEvent::Sent(Ok(_))) => {
            looks_up(r, t.client.identity_key@) && next == ResponderPhase::Recognize && t2 == t
        },
        (ResponderPhase::Recognize, FlowEvent::Looked(Ok(stored))) => {
            let t1 = ResponderTrail { stored, ..t };
            match spec_recognize(
                IdentityPublicKey::from_array(t.client.identity_key),
                t.server.selected_version,
                expected,
                stored,
            ) {
                Err(e) => responder_ends(r, next, t1, t2, e),
                Ok((peer, trusted)) => {
                    let outcome = PairingOutcome { peer, already_trusted: trusted };
                    if trusted {
                        responder_decides(r, next, t1, t2, outcome, true, transcript, secret, binding)
                    } else {
                        match transcript_code(transcript) {
                            None => responder_ends(
                                r,
                                next,
                                t1,
                                t2,
                                PairingFlowError::Crypto(PairingCryptoError::CodeDerivation),
                            ),
                            Some(code) => presents(r, peer, code, true)
                                && next == ResponderPhase::Confirm { outcome } && t2 == t1,
                        }
                    }
                },
            }
        },
        (ResponderPhase::Confirm { outcome }, FlowEvent::Answered(Ok(accepted))) => {
            responder_decides(
                r,
                next,
                ResponderTrail { user_accepted: accepted, ..t },
                t2,
                outcome,
                accepted,
                transcript,
                secret,
                binding,
            )
        },
        (ResponderPhase::Confirm { .. }, FlowEvent::Answered(Err(e))) => responder_ends(
            r,
            next,
            t,
            t2,
            e,
        ),
        (ResponderPhase::DecisionSent { outcome, accepted }, FlowEvent::Sent(Ok(_))) => if accepted {
            r == FlowStep::Receive && next == ResponderPhase::AwaitCommit { outcome } && t2 == t
        } else {
            responder_ends(r, next, t, t2, PairingFlowError::Rejected)
        },
        (
            ResponderPhase::AwaitCommit { outcome },
            FlowEvent::Received(Ok(PairingMessage::Commit(commit))),
        ) => match commit_error(outcome.peer.identity_key@, commit, transcript, binding) {
            Some(e) => responder_ends(r, next, t, t2, PairingFlowError::Crypto(e)),
            None => r == FlowStep::Save(outcome.peer) && next == ResponderPhase::Saving { outcome }
                && t2 == ResponderTrail { commit, ..t },
        },
        (ResponderPhase::Saving { outcome }, FlowEvent::Saved(Ok(_))) => {
            r == FlowStep::Finished(Ok::<PairingOutcome, PairingFlowError>(outcome)) && next is Done
                && t2 == t
        },
        _ => responder_ends(r, next, t, t2, flow_failure(event)),
    }
}

/// The responder's side of pairing, driven one event at a time.
pub struct ResponderFlow {
    state: ResponderState,
    binding: TlsChannelBinding,
    versions: ProtocolRange,
    capabilities: Capabilities,
    expected: Option<TrustedPeer>,
    trail: Ghost<ResponderTrail>,
}

impl ResponderFlow {
    pub closed spec fn spec_binding(&self) -> TlsChannelBinding {
        self.binding
    }

    pub closed spec fn spec_expected(&self) -> Option<TrustedPeer> {
        self.expected
    }

    pub closed spec fn spec_trail(&self) -> ResponderTrail {
        self.trail@
    }

    pub closed spec fn is_done(&self) -> bool {
        self.state is Done
    }

    pub closed spec fn spec_versions(&self) -> ProtocolRange {
        self.versions
    }

    pub closed spec fn spec_capabilities(&self) -> Capabilities {
        self.capabilities
    }

    pub closed spec fn phase(&self) -> ResponderPhase {
        match self.state {
            ResponderState::AwaitClient => ResponderPhase::AwaitClient,
            ResponderState::ServerSent { .. } => ResponderPhase::ServerSent,
            ResponderState::Recognize { .. } => ResponderPhase::Recognize,
            ResponderState::Confirm { outcome, .. } => ResponderPhase::Confirm { outcome },
            ResponderState::DecisionSent { outcome, accepted, .. } => ResponderPhase::DecisionSent {
                outcome,
                accepted,
            },
            ResponderState::AwaitCommit { outcome, .. } => ResponderPhase::AwaitCommit { outcome },
            ResponderState::Saving { outcome } => ResponderPhase::Saving { outcome },
            ResponderState::Done => ResponderPhase::Done,
        }
    }

    pub closed spec fn wf(&self) -> bool {
        let t = self.trail@;
        let b = self.binding.0@;
        match self.state {
            ResponderState::AwaitClient => true,
            ResponderState::ServerSent { key, version, transcript }
            | ResponderState::Recognize { key, version, transcript } => {
                &&& client_verified(t, b)
                &&& key.spec_array() == t.client.identity_key
                &&& version == t.server.selected_version
                &&& transcript@ == trail_transcript(t.client, t.server, b)
            },
            ResponderState::Confirm { outcome, transcript } => {
                &&& responder_recognized(t, outcome, b, self.expected)
                &&& !outcome.already_trusted
                &&& transcript@ == trail_transcript(t.client, t.server, b)
            },
            ResponderState::DecisionSent { outcome, transcript, accepted } => {
                &&& responder_recognized(t, outcome, b, self.expected)
                &&& accepted == (outcome.already_trusted || t.user_accepted)
                &&& transcript@ == trail_transcript(t.client, t.server, b)
            },
            ResponderState::AwaitCommit { outcome, transcript } => {
                &&& responder_recognized(t, outcome, b, self.expected)
                &&& outcome.already_trusted || t.user_accepted
                &&& transcript@ == trail_transcript(t.client, t.server, b)
            },
            ResponderState::Saving { outcome } => responder_verified(t, outcome, b, self.expected),
            ResponderState::Done => true,
        }
    }

    /// Waits for the initiator's hello.
    pub fn start(
        versions: ProtocolRange,
        capabilities: Capabilities,
        binding: TlsChannelBinding,
        expected: Option<TrustedPeer>,
    ) -> (r: (Self, FlowStep))
        ensures
            r.0.wf(),
            r.0.spec_binding() == binding,
            r.0.spec_expected() == expected,
            r.0.spec_versions() == versions,
            r.0.spec_capabilities() == capabilities,
            r.0.phase() is AwaitClient,
            r.1 is Receive,
    {
        let trail = Ghost(
            ResponderTrail {
                client: arbitrary(),
                server: arbitrary(),
                stored: None,
                user_accepted: false,
                commit: arbitrary(),
            },
        );
        (
            ResponderFlow {
                state: ResponderState::AwaitClient,
                binding,
                versions,
                capabilities,
                expected,
                trail,
            },
            FlowStep::Receive,
        )
    }

    fn finish(&mut self, error: PairingFlowError) -> (r: FlowStep)
        ensures
            final(self).is_done(),
            final(self).wf(),
            final(self).spec_trail() == old(self).spec_trail(),
            final(self).spec_binding() == old(self).spec_binding(),
            final(self).spec_expected() == old(self).spec_expected(),
            final(self).spec_versions() == old(self).spec_versions(),
            final(self).spec_capabilities() == old(self).spec_capabilities(),
            r == FlowStep::Finished(Err(error)),
    {
        self.state = ResponderState::Done;
        FlowStep::Finished(Err(error))
    }

    fn decide(
        &mut self,
        identity: &DeviceIdentity,
        outcome: PairingOutcome,
        transcript: [u8; TRANSCRIPT_HASH_LEN],
        accepted: bool,
    ) -> (r: FlowStep)
        requires
            responder_recognized(old(self).spec_trail(), outcome, old(self).spec_binding().0@, old(self).spec_expected()),
            accepted == (outcome.already_trusted || old(self).spec_trail().user_accepted),
            transcript@ == trail_transcript(old(self).spec_trail().client, old(self).spec_trail().server, old(self).spec_binding().0@),
        ensures
            final(self).wf(),
            final(self).spec_trail() == old(self).spec_trail(),
            final(self).spec_binding() == old(self).spec_binding(),
            final(self).spec_expected() == old(self).spec_expected(),
            final(self).spec_versions() == old(self).spec_versions(),
            final(self).spec_capabilities() == old(self).spec_capabilities(),
            responder_decides(
                r,
                final(self).phase(),
                old(self).spec_trail(),
                final(self).spec_trail(),
                outcome,
                accepted,
                transcript@,
                identity.spec_secret(),
                old(self).spec_binding().0@,
            ),
            r is Finished ==> final(self).is_done() && r matches FlowStep::Finished(Err(_)),
    {
        match create_decision(identity, transcript, accepted, self.binding) {
            Err(e) => self.finish(PairingFlowError::Crypto(e)),
            Ok(decision) => {
                self.state = ResponderState::DecisionSent { outcome, transcript, accepted };
                FlowStep::Send(PairingMessage::Decision(decision).encode())
            },
        }
    }

    /// Takes the driver's report and says what to do next. The responder
    /// only ever finishes successfully once it has verified everything
    /// `responder_verified` names.
    pub fn step(&mut self, identity: &DeviceIdentity, event: FlowEvent) -> (r: FlowStep)
        requires
            old(self).wf(),
        ensures
            final(self).wf(),
            final(self).spec_binding() == old(self).spec_binding(),
            final(self).spec_expected() == old(self).spec_expected(),
            final(self).spec_versions() == old(self).spec_versions(),
            final(self).spec_capabilities() == old(self).spec_capabilities(),
            responder_step(
                old(self).phase(),
                old(self).spec_trail(),
                old(self).spec_binding().0@,
                old(self).spec_expected(),
                identity.spec_secret(),
                old(self).spec_versions(),
                old(self).spec_capabilities(),
                event,
                r,
                final(self).phase(),
                final(self).spec_trail(),
            ),
            r matches FlowStep::Finished(Ok(o)) ==> responder_verified(
                final(self).spec_trail(),
                o,
                final(self).spec_binding().0@,
                final(self).spec_expected(),
            ),
            r is Finished ==> final(self).is_done(),
    {
        let mut state = ResponderState::Done;
        std::mem::swap(&mut state, &mut self.state);
        let ghost t = self.trail@;
        let binding = self.binding;
        match (state, event) {
            (ResponderState::AwaitClient, FlowEvent::Received(Ok(PairingMessage::ClientHello(client)))) => {
                let client_frame = PairingMessage::ClientHello(copy_client_hello(&client)).encode();
                match verify_client_hello(&client, binding) {
                    Err(e) => self.finish(PairingFlowError::Crypto(e)),
                    Ok(key) => {
                        match create_server_hello(
                            identity,
                            self.versions,
                            self.capabilities,
                            client_frame.as_slice(),
                            &client,
                            binding,
                        ) {
                            Err(e) => self.finish(PairingFlowError::Crypto(e)),
                            Ok(server) => {
                                let version = server.selected_version;
                                let server_frame = PairingMessage::ServerHello(copy_server_hello(&server)).encode();
                                let transcript = transcript_hash(
                                    binding,
                                    client_frame.as_slice(),
                                    server_frame.as_slice(),
                                );
                                self.trail = Ghost(ResponderTrail { client, server, ..t });
                                self.state = ResponderState::ServerSent { key, version, transcript };
                                FlowStep::Send(server_frame)
                            },
                        }
                    },
                }
            },
            (ResponderState::ServerSent { key, version, transcript }, FlowEvent::Sent(Ok(()))) => {
                self.state = ResponderState::Recognize { key, version, transcript };
                FlowStep::Lookup(crate::crypto::store::derive_peer_id(&key))
            },
            (ResponderState::Recognize { key, version, transcript }, FlowEvent::Looked(Ok(stored))) => {
                proof {
                    key.lemma_array(t.client.identity_key);
                }
                self.trail = Ghost(ResponderTrail { stored, ..t });
                match recognize_peer(key, version, self.expected.as_ref(), stored) {
                    Err(e) => self.finish(e),
                    Ok((peer, already_trusted)) => {
                        let outcome = PairingOutcome { peer, already_trusted };
                        if already_trusted {
                            self.decide(identity, outcome, transcript, true)
                        } else {
                            match pairing_code(&transcript) {
                                Err(e) => self.finish(PairingFlowError::Crypto(e)),
                                Ok(code) => {
                                    self.state = ResponderState::Confirm { outcome, transcript };
                                    FlowStep::Present(
                                        PairingPrompt {
                                            peer_id: peer.peer_id(),
                                            code,
                                            confirmation_required: true,
                                        },
                                    )
                                },
                            }
                        }
                    },
                }
            },
            (ResponderState::Confirm { outcome, transcript }, FlowEvent::Answered(Ok(accepted))) => {
                self.trail = Ghost(ResponderTrail { user_accepted: accepted, ..t });
                self.decide(identity, outcome, transcript, accepted)
            },
            (ResponderState::Confirm { .. }, FlowEvent::Answered(Err(e))) => self.finish(e),
            (ResponderState::DecisionSent { outcome, transcript, accepted }, FlowEvent::Sent(Ok(()))) => {
                if accepted {
                    self.state = ResponderState::AwaitCommit { outcome, transcript };
                    FlowStep::Receive
                } else {
                    self.finish(PairingFlowError::Rejected)
                }
            },
            (ResponderState::AwaitCommit { outcome, transcript }, FlowEvent::Received(Ok(PairingMessage::Commit(commit)))) => {
                match verify_commit(&outcome.peer.identity_key, &commit, &transcript, binding) {
                    Err(e) => self.finish(PairingFlowError::Crypto(e)),
                    Ok(()) => {
                        self.trail = Ghost(ResponderTrail { commit, ..t });
                        self.state = ResponderState::Saving { outcome };
                        FlowStep::Save(outcome.peer)
                    },
                }
            },
            (ResponderState::Saving { outcome }, FlowEvent::Saved(Ok(()))) => {
                FlowStep::Finished(Ok(outcome))
            },
            (_, FlowEvent::Sent(Err(e))) => self.finish(PairingFlowError::Io(e)),
            (_, FlowEvent::Received(Err(e))) => self.finish(PairingFlowError::Io(e)),
            (_, FlowEvent::Looked(Err(e))) => self.finish(PairingFlowError::Store(e)),
            (_, FlowEvent::Saved(Err(e))) => self.finish(PairingFlowError::Store(e)),
            _ => self.finish(PairingFlowError::UnexpectedMessage),
        }
    }
}

} // verus!
