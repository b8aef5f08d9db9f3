//! The order in which an incoming batch is handled, one event at a time:
//! the offer is read and checked against the policy, the session is
//! claimed, the user is asked, the answer is resolved, the receiver's
//! resume positions are sent, the data is received, and the ending is
//! reported. The coordinator's task performs each step and reports back.

use vstd::prelude::*;
use vstd::string::StrSliceExecFns;

use crate::protocol::transfer::{BatchCancelReason, ResumePosition, TransferManifest};
use crate::service::coordinator::{
    admit_incoming, discards_resume_state, event_describes, event_for_manifest, policy_admits,
    resolve_receive_decision, spec_discards_resume, spec_resolution, IncomingRejection,
    ReceiveResolution, ReceiveTransferDecision,
};
use crate::service::transfer::{TransferDirection, TransferEvent, TransferEventKind, TransferPolicy};
use crate::transfer::batch::BatchTransferError;

verus! {

/// Where an incoming batch stands.
#[derive(Clone, Copy, Debug, PartialEq, Eq, Structural)]
pub enum IncomingPhase {
    AwaitManifest,
    AwaitSession,
    AwaitAnswer,
    AwaitPositions,
    AwaitDecisionSent,
    AwaitReceived,
    Done,
}

/// What the coordinator's task reports after performing a step.
pub enum IncomingEvent {
    /// The offer read from the control stream, or `None` when reading failed.
    Manifest(Option<TransferManifest>),
    /// Whether the session was free, and whether the transfer could then be
    /// registered as active.
    Session { idle: bool, registered: bool },
    /// The user's answer (none when it timed out), whether the transfer was
    /// cancelled meanwhile, and the action requested with the cancel.
    Answer { decision: Option<ReceiveTransferDecision>, cancelled: bool, action: u8 },
    /// The receiver's resume positions.
    Positions(Result<Vec<ResumePosition>, BatchTransferError>),
    /// Whether the accepting decision was sent.
    DecisionSent(bool),
    /// How receiving the data ended.
    Received(Result<(), BatchTransferError>),
}

/// What the peer is told before a batch's stream is closed.
#[derive(Clone, Copy, Debug, PartialEq, Eq)]
pub enum PeerNotice {
    Nothing,
    Cancel(BatchCancelReason),
    Decline,
    Failure,
}

/// What the coordinator's task does next.
pub enum IncomingStep {
    /// Read the offer.
    ReceiveManifest,
    /// Claim the session and register the transfer.
    ClaimSession,
    /// Send a policy cancel, close the stream, and report this rejection.
    Refuse(IncomingRejection, TransferEvent),
    /// Send a policy cancel and close the stream; nothing is reported.
    CancelAndClose,
    /// Close the stream; nothing is reported.
    Close,
    /// Forget the active transfer and close the stream; nothing is reported.
    Abandon,
    /// Report this offer with a fresh request id and wait for the answer.
    Offer(TransferEvent),
    /// Read the receiver's resume positions.
    LoadPositions,
    /// Send the accepting decision with these positions.
    SendDecision(Vec<ResumePosition>),
    /// Report this event and receive the data.
    Receive(TransferEvent),
    /// Tell the peer, discard the resume state if asked, close the stream
    /// and report how the batch ended.
    Finish { notice: PeerNotice, result: Result<(), BatchTransferError>, discard: bool },
}

/// The batch ends with this result and notice, discarding resume state as
/// the result calls for.
pub open spec fn finishes(
    r: IncomingStep,
    next: IncomingPhase,
    notice: PeerNotice,
    result: Result<(), BatchTransferError>,
) -> bool {
    &&& r matches IncomingStep::Finish { notice: n, result: res, discard }
    &&& n == notice
    &&& res == result
    &&& discard == (result matches Err(e) && spec_discards_resume(e))
    &&& next == IncomingPhase::Done
}

/// The rejection event: the manifest's event of kind `Rejected` with the
/// rejection's detail.
pub open spec fn rejection_event(
    e: TransferEvent,
    session_id: u64,
    manifest: TransferManifest,
    rejection: IncomingRejection,
) -> bool {
    &&& event_describes(
        (TransferEvent { detail: None, ..e }),
        session_id,
        manifest,
        TransferDirection::Receiving,
        TransferEventKind::Rejected,
    )
    &&& e.detail matches Some(d) && d@ == match rejection {
        IncomingRejection::ManifestPolicy => "manifest_policy"@,
        IncomingRejection::SessionBusy => "session_busy"@,
    }
}

/// One step of an incoming batch: from the phase, the offer read so far
/// and the task's report, the step it asks for, the next phase and the
/// offer then.
pub open spec fn incoming_step(
    policy: TransferPolicy,
    session_id: u64,
    phase: IncomingPhase,
    manifest: Option<TransferManifest>,
    event: IncomingEvent,
    r: IncomingStep,
    next: IncomingPhase,
    manifest2: Option<TransferManifest>,
) -> bool {
    let m = manifest->0;
    match (phase, event) {
        (IncomingPhase::AwaitManifest, IncomingEvent::Manifest(received)) => match received {
            None => r is Close && next == IncomingPhase::Done && manifest2 == manifest,
            Some(offer) => manifest2 == Some(offer) && if !policy_admits(policy, offer) {
                &&& r matches IncomingStep::Refuse(rejection, e)
                &&& rejection == IncomingRejection::ManifestPolicy
                &&& rejection_event(e, session_id, offer, rejection)
                &&& next == IncomingPhase::Done
            } else {
                r is ClaimSession && next == IncomingPhase::AwaitSession
            },
        },
        (IncomingPhase::AwaitSession, IncomingEvent::Session { idle, registered }) => {
            &&& manifest2 == manifest
            &&& if !idle {
                &&& r matches IncomingStep::Refuse(rejection, e)
                &&& rejection == IncomingRejection::SessionBusy
                &&& rejection_event(e, session_id, m, rejection)
                &&& next == IncomingPhase::Done
            } else if !registered {
                r is CancelAndClose && next == IncomingPhase::Done
            } else {
                &&& r matches IncomingStep::Offer(e)
                &&& event_describes(
                    e,
                    session_id,
                    m,
                    TransferDirection::Receiving,
                    TransferEventKind::OfferReceived,
                )
                &&& next == IncomingPhase::AwaitAnswer
            }
        },
        (IncomingPhase::AwaitAnswer, IncomingEvent::Answer { decision, cancelled, action }) => {
            &&& manifest2 == manifest
            &&& match spec_resolution(policy, m, decision, cancelled, action) {
                ReceiveResolution::Receive => r is LoadPositions && next
                    == IncomingPhase::AwaitPositions,
                ReceiveResolution::InsufficientSpace => finishes(
                    r,
                    next,
                    PeerNotice::Cancel(BatchCancelReason::Storage),
                    Err(BatchTransferError::InsufficientSpace),
                ),
                ReceiveResolution::NoDestination => r is Abandon && next == IncomingPhase::Done,
                ReceiveResolution::Interrupted(e) => finishes(r, next, PeerNotice::Failure, Err(e)),
                ReceiveResolution::Decline => finishes(
                    r,
                    next,
                    PeerNotice::Decline,
                    Err(BatchTransferError::Rejected),
                ),
            }
        },
        (IncomingPhase::AwaitPositions, IncomingEvent::Positions(positions)) => {
            &&& manifest2 == manifest
            &&& match positions {
                Ok(ps) => (r matches IncomingStep::SendDecision(sent) && sent@ == ps@) && next
                    == IncomingPhase::AwaitDecisionSent,
                Err(e) => finishes(r, next, PeerNotice::Nothing, Err(e)),
            }
        },
        (IncomingPhase::AwaitDecisionSent, IncomingEvent::DecisionSent(sent)) => {
            &&& manifest2 == manifest
            &&& if sent {
                &&& r matches IncomingStep::Receive(e)
                &&& event_describes(
                    e,
                    session_id,
                    m,
                    TransferDirection::Receiving,
                    TransferEventKind::Transferring,
                )
                &&& next == IncomingPhase::AwaitReceived
            } else {
                finishes(r, next, PeerNotice::Nothing, Err(BatchTransferError::UnexpectedMessage))
            }
        },
        (IncomingPhase::AwaitReceived, IncomingEvent::Received(result)) => {
            manifest2 == manifest && finishes(r, next, PeerNotice::Nothing, result)
        },
        _ => r is Close && next == IncomingPhase::Done && manifest2 == manifest,
    }
}

/// An incoming batch on one authenticated session, driven one event at a
/// time.
pub struct IncomingBatch {
    phase: IncomingPhase,
    manifest: Option<TransferManifest>,
    policy: TransferPolicy,
    session_id: u64,
}

impl IncomingBatch {
    pub closed spec fn phase(&self) -> IncomingPhase {
        self.phase
    }

    pub closed spec fn spec_manifest(&self) -> Option<TransferManifest> {
        self.manifest
    }

    pub closed spec fn spec_policy(&self) -> TransferPolicy {
        self.policy
    }

    pub closed spec fn spec_session_id(&self) -> u64 {
        self.session_id
    }

    /// A manifest is held once it was read.
    pub closed spec fn wf(&self) -> bool {
        self.phase != IncomingPhase::AwaitManifest && self.phase != IncomingPhase::Done
            ==> self.manifest is Some
    }

    /// Starts by reading the offer.
    pub fn start(policy: TransferPolicy, session_id: u64) -> (r: (Self, IncomingStep))
        ensures
            r.0.wf(),
            r.0.phase() == IncomingPhase::AwaitManifest,
            r.0.spec_manifest() is None,
            r.0.spec_policy() == policy,
            r.0.spec_session_id() == session_id,
            r.1 is ReceiveManifest,
    {
        (
            IncomingBatch { phase: IncomingPhase::AwaitManifest, manifest: None, policy, session_id },
            IncomingStep::ReceiveManifest,
        )
    }

    /// The offer, once read.
    pub fn manifest(&self) -> (r: Option<&TransferManifest>)
        ensures
            r matches Some(m) ==> self.spec_manifest() == Some(*m),
            r is None ==> self.spec_manifest() is None,
    {
        self.manifest.as_ref()
    }

    fn rejected(&self, manifest: &TransferManifest, rejection: IncomingRejection) -> (r: IncomingStep)
        ensures
            r matches IncomingStep::Refuse(rej, e) && rej == rejection && rejection_event(
                e,
                self.session_id,
                *manifest,
                rejection,
            ),
    {
        let mut event = event_for_manifest(
            self.session_id,
            manifest,
            TransferDirection::Receiving,
            TransferEventKind::Rejected,
        );
        let ghost plain = event;
        event.detail = Some(String::from_str(rejection.detail()));
        assert((TransferEvent { detail: None, ..event }) == plain);
        IncomingStep::Refuse(rejection, event)
    }

    fn finish(&mut self, notice: PeerNotice, result: Result<(), BatchTransferError>) -> (r:
        IncomingStep)
        ensures
            finishes(r, final(self).phase(), notice, result),
            final(self).spec_manifest() == old(self).spec_manifest(),
            final(self).spec_policy() == old(self).spec_policy(),
            final(self).spec_session_id() == old(self).spec_session_id(),
            final(self).wf(),
    {
        let discard = match &result {
            Ok(()) => false,
            Err(e) => discards_resume_state(e),
        };
        self.phase = IncomingPhase::Done;
        IncomingStep::Finish { notice, result, discard }
    }

    /// Takes the task's report and says what to do next.
    pub fn step(&mut self, event: IncomingEvent) -> (r: IncomingStep)
        requires
            old(self).wf(),
        ensures
            final(self).wf(),
            final(self).spec_policy() == old(self).spec_policy(),
            final(self).spec_session_id() == old(self).spec_session_id(),
            incoming_step(
                old(self).spec_policy(),
                old(self).spec_session_id(),
                old(self).phase(),
                old(self).spec_manifest(),
                event,
                r,
                final(self).phase(),
                final(self).spec_manifest(),
            ),
    {
        let phase = self.phase;
        match (phase, event) {
            (IncomingPhase::AwaitManifest, IncomingEvent::Manifest(received)) => match received {
                None => {
                    self.phase = IncomingPhase::Done;
                    IncomingStep::Close
                },
                Some(offer) => {
                    let admitted = admit_incoming(&self.policy, &offer, true);
                    let r = if admitted.is_err() {
                        self.phase = IncomingPhase::Done;
                        self.rejected(&offer, IncomingRejection::ManifestPolicy)
                    } else {
                        self.phase = IncomingPhase::AwaitSession;
                        IncomingStep::ClaimSession
                    };
                    self.manifest = Some(offer);
                    r
                },
            },
            (IncomingPhase::AwaitSession, IncomingEvent::Session { idle, registered }) => {
                match &self.manifest {
                    Some(m) => {
                        if !idle {
                            let r = self.rejected(m, IncomingRejection::SessionBusy);
                            self.phase = IncomingPhase::Done;
                            r
                        } else if !registered {
                            self.phase = IncomingPhase::Done;
                            IncomingStep::CancelAndClose
                        } else {
                            let e = event_for_manifest(
                                self.session_id,
                                m,
                                TransferDirection::Receiving,
                                TransferEventKind::OfferReceived,
                            );
                            self.phase = IncomingPhase::AwaitAnswer;
                            IncomingStep::Offer(e)
                        }
                    },
                    None => {
                        self.phase = IncomingPhase::Done;
                        IncomingStep::Close
                    },
                }
            },
            (IncomingPhase::AwaitAnswer, IncomingEvent::Answer { decision, cancelled, action }) => {
                let resolution = match &self.manifest {
                    Some(m) => resolve_receive_decision(&self.policy, m, &decision, cancelled, action),
                    None => ReceiveResolution::NoDestination,
                };
                match resolution {
                    ReceiveResolution::Receive => {
                        self.phase = IncomingPhase::AwaitPositions;
                        IncomingStep::LoadPositions
                    },
                    ReceiveResolution::InsufficientSpace => self.finish(
                        PeerNotice::Cancel(BatchCancelReason::Storage),
                        Err(BatchTransferError::InsufficientSpace),
                    ),
                    ReceiveResolution::NoDestination => {
                        self.phase = IncomingPhase::Done;
                        IncomingStep::Abandon
                    },
                    ReceiveResolution::Interrupted(e) => self.finish(PeerNotice::Failure, Err(e)),
                    ReceiveResolution::Decline => self.finish(
                        PeerNotice::Decline,
                        Err(BatchTransferError::Rejected),
                    ),
                }
            },
            (IncomingPhase::AwaitPositions, IncomingEvent::Positions(positions)) => match positions {
                Ok(ps) => {
                    self.phase = IncomingPhase::AwaitDecisionSent;
                    IncomingStep::SendDecision(ps)
                },
                Err(e) => self.finish(PeerNotice::Nothing, Err(e)),
            },
            (IncomingPhase::AwaitDecisionSent, IncomingEvent::DecisionSent(sent)) => {
                if sent {
                    match &self.manifest {
                        Some(m) => {
                            let e = event_for_manifest(
                                self.session_id,
                                m,
                                TransferDirection::Receiving,
                                TransferEventKind::Transferring,
                            );
                            self.phase = IncomingPhase::AwaitReceived;
                            IncomingStep::Receive(e)
                        },
                        None => {
                            self.phase = IncomingPhase::Done;
                            IncomingStep::Close
                        },
                    }
                } else {
                    self.finish(PeerNotice::Nothing, Err(BatchTransferError::UnexpectedMessage))
                }
            },
            (IncomingPhase::AwaitReceived, IncomingEvent::Received(result)) => self.finish(
                PeerNotice::Nothing,
                result,
            ),
            _ => {
                self.phase = IncomingPhase::Done;
                IncomingStep::Close
            },
        }
    }
}

} // verus!
