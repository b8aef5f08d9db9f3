//! The pairing service's bookkeeping: how peers are named in events, the
//! events a pairing reports, the retained authenticated sessions, the
//! platform channels, and the per-peer attempt limits.

use vstd::prelude::*;
use vstd::string::{StrSliceExecFns, StringExecFns, StringSliceAdditionalSpecFns};

use crate::crypto::pairing::{pow10, PairingCode, CODE_RANGE};
use crate::crypto::store::{hex_string, PeerId};
use crate::discovery::model::hex_bytes;
use crate::service::coordinator::{parse_transfer_id, transfer_id_from_text};
use crate::service::pairing::{
    AuthenticatedSessionInfo, PairingError, PairingEvent, PairingEventKind,
    PlatformPairingChannelState, EVENT_LIMIT, MAX_AUTHENTICATED_SESSIONS, MAX_CANDIDATES,
    MAX_PLATFORM_CHANNELS,
    MAX_RECENT_PEER_ATTEMPTS,
};
use crate::time::Duration;
use crate::text::{all_ascii, ascii_chars, ascii_folded, ascii_to_string, fold_ascii_case, same_chars};
use crate::transport::pairing_flow::{
    flow_error_category, pairing_error_category, PairingFlowError, PairingOutcome,
};
use crate::transport::platform_control::PlatformControlError;
use crate::net::{address_key, lemma_address_key_injective, SocketAddr};
use crate::time::NANOS_PER_MILLI;
use crate::transport::pairing_flow::spec_recoverable;
use crate::transport::race::{ConnectErrorKind, ConnectionCandidate};

verus! {

// ---------------------------------------------------------------------------
// Names shown for peers
// ---------------------------------------------------------------------------

/// The upper-case hexadecimal digit of a nibble.
pub open spec fn upper_hex_digit(n: u8) -> u8 {
    if n < 10 {
        (n + 48) as u8
    } else {
        (n + 55) as u8
    }
}

/// Bytes as upper-case hexadecimal pairs joined by colons.
pub open spec fn colon_hex(bytes: Seq<u8>) -> Seq<u8>
    decreases bytes.len(),
{
    if bytes.len() == 0 {
        Seq::empty()
    } else if bytes.len() == 1 {
        seq![upper_hex_digit(bytes[0] / 16), upper_hex_digit(bytes[0] % 16)]
    } else {
        seq![upper_hex_digit(bytes[0] / 16), upper_hex_digit(bytes[0] % 16), 58u8] + colon_hex(
            bytes.drop_first(),
        )
    }
}

proof fn lemma_colon_hex_ascii(bytes: Seq<u8>)
    ensures
        all_ascii(colon_hex(bytes)),
    decreases bytes.len(),
{
    if bytes.len() > 1 {
        lemma_colon_hex_ascii(bytes.drop_first());
    }
}

proof fn lemma_colon_hex_push(bytes: Seq<u8>, b: u8)
    ensures
        colon_hex(bytes.push(b)) == if bytes.len() == 0 {
            seq![upper_hex_digit(b / 16), upper_hex_digit(b % 16)]
        } else {
            colon_hex(bytes) + seq![58u8, upper_hex_digit(b / 16), upper_hex_digit(b % 16)]
        },
    decreases bytes.len(),
{
    let t = seq![58u8, upper_hex_digit(b / 16), upper_hex_digit(b % 16)];
    if bytes.len() == 1 {
        assert(bytes.push(b).drop_first() =~= seq![b]);
        assert(seq![b].len() == 1 && seq![b][0] == b);
        assert(colon_hex(seq![b]) == seq![upper_hex_digit(b / 16), upper_hex_digit(b % 16)]);
        assert(bytes.push(b)[0] == bytes[0]);
        assert(colon_hex(bytes.push(b)) =~= colon_hex(bytes) + t);
    } else if bytes.len() > 1 {
        assert(bytes.push(b).drop_first() =~= bytes.drop_first().push(b));
        lemma_colon_hex_push(bytes.drop_first(), b);
        let h = seq![upper_hex_digit(bytes[0] / 16), upper_hex_digit(bytes[0] % 16), 58u8];
        assert(colon_hex(bytes.push(b)) == h + colon_hex(bytes.drop_first().push(b)));
        assert(colon_hex(bytes.push(b)) =~= colon_hex(bytes) + t);
    }
}

fn upper_hex_digit_exec(n: u8) -> (r: u8)
    requires
        n < 16,
    ensures
        r == upper_hex_digit(n),
{
    if n < 10 {
        n + 48
    } else {
        n + 55
    }
}

/// The fingerprint users compare: the peer id's first six bytes as
/// upper-case hexadecimal pairs joined by colons.
pub fn peer_fingerprint(peer_id: &PeerId) -> (r: String)
    ensures
        r@ == ascii_chars(colon_hex(peer_id.0@.subrange(0, 6))),
{
    let ghost id = peer_id.0@;
    let mut out: Vec<u8> = Vec::new();
    let mut i: usize = 0;
    assert(id.subrange(0, 0) =~= Seq::<u8>::empty());
    while i < 6
        invariant
            i <= 6,
            id == peer_id.0@,
            id.len() == 16,
            out@ == colon_hex(id.subrange(0, i as int)),
        decreases 6 - i,
    {
        let b = peer_id.0[i];
        proof {
            assert(id.subrange(0, i + 1) =~= id.subrange(0, i as int).push(b));
            lemma_colon_hex_push(id.subrange(0, i as int), b);
        }
        if i > 0 {
            out.push(58u8);
        }
        out.push(upper_hex_digit_exec(b / 16));
        out.push(upper_hex_digit_exec(b % 16));
        proof {
            assert(out@ =~= colon_hex(id.subrange(0, i + 1)));
        }
        i = i + 1;
    }
    proof {
        lemma_colon_hex_ascii(id.subrange(0, 6));
    }
    ascii_to_string(out.as_slice())
}

/// The opaque handle of a remembered peer: its id in lower-case
/// hexadecimal.
pub fn peer_handle(peer_id: &PeerId) -> (r: String)
    ensures
        r@ == ascii_chars(hex_bytes(peer_id.0@)),
{
    hex_string(peer_id.0.as_slice())
}

/// Reads a peer handle back.
pub fn parse_peer_handle(value: &str) -> (r: Option<PeerId>)
    ensures
        match transfer_id_from_text(value@) {
            Some(id) => r matches Some(p) && p.0@ == id,
            None => r is None,
        },
{
    match parse_transfer_id(value) {
        Some(bytes) => Some(PeerId::from_bytes(bytes)),
        None => None,
    }
}

/// The six digits of a pairing code, with leading zeros.
pub fn pairing_code_text(code: PairingCode) -> (r: String)
    requires
        code.spec_value() < CODE_RANGE,
    ensures
        r@.len() == 6,
        forall|i: int|
            0 <= i < 6 ==> #[trigger] r@[i] == (48 + ((code.spec_value() as int) / (pow10(5 - i) as int))
                % 10) as char,
{
    let digits = code.digits();
    proof {
        assert(all_ascii(digits@)) by {
            assert forall|i: int| 0 <= i < 6 implies digits@[i] < 128 by {
                reveal_with_fuel(pow10, 6);
                assert(pow10(5 - i) > 0);
                let d = (code.spec_value() as int) / (pow10(5 - i) as int);
                assert(0 <= d % 10 < 10) by (nonlinear_arith)
                    requires
                        pow10(5 - i) > 0,
                        d == (code.spec_value() as int) / (pow10(5 - i) as int),
                        code.spec_value() >= 0,
                {}
            }
        }
    }
    ascii_to_string(digits.as_slice())
}

// ---------------------------------------------------------------------------
// Events
// ---------------------------------------------------------------------------

/// An event of `kind` about `reference`, with nothing else set yet.
pub open spec fn plain_event(
    e: PairingEvent,
    kind: PairingEventKind,
    reference: Option<String>,
) -> bool {
    &&& e.event_id == 0
    &&& e.request_id is None
    &&& e.kind == kind
    &&& e.peer_reference == reference
    &&& !e.already_trusted
    &&& e.authenticated_session_id is None
}

pub fn new_event(
    kind: PairingEventKind,
    reference: Option<String>,
    fingerprint: Option<String>,
    code: Option<String>,
) -> (r: PairingEvent)
    ensures
        plain_event(r, kind, reference),
        r.peer_fingerprint == fingerprint,
        r.short_code == code,
        r.detail is None,
{
    PairingEvent {
        event_id: 0,
        request_id: None,
        kind,
        peer_reference: reference,
        peer_fingerprint: fingerprint,
        short_code: code,
        already_trusted: false,
        authenticated_session_id: None,
        detail: None,
    }
}

/// A failure event with a stable detail.
pub fn failed_event(reference: Option<String>, detail: &str) -> (r: PairingEvent)
    ensures
        plain_event(r, PairingEventKind::Failed, reference),
        r.peer_fingerprint is None,
        r.short_code is None,
        r.detail matches Some(d) && d@ == detail@,
{
    let mut event = new_event(PairingEventKind::Failed, reference, None, None);
    event.detail = Some(String::from_str(detail));
    event
}

pub open spec fn connect_category(kind: ConnectErrorKind) -> Seq<char> {
    match kind {
        ConnectErrorKind::InvalidConfiguration => "connect_configuration"@,
        ConnectErrorKind::Cancelled => "connect_cancelled"@,
        ConnectErrorKind::Timeout => "connect_timeout"@,
        ConnectErrorKind::Unreachable => "connect_unreachable"@,
        ConnectErrorKind::Tls => "connect_tls"@,
        ConnectErrorKind::Authentication => "connect_authentication"@,
        ConnectErrorKind::Protocol => "connect_protocol"@,
        ConnectErrorKind::IdentityChanged => "connect_identity_changed"@,
        ConnectErrorKind::NetworkChanged => "connect_network_changed"@,
        ConnectErrorKind::InternalTask => "connect_internal"@,
    }
}

pub fn connect_error_category(kind: ConnectErrorKind) -> (r: &'static str)
    ensures
        r@ == connect_category(kind),
{
    match kind {
        ConnectErrorKind::InvalidConfiguration => "connect_configuration",
        ConnectErrorKind::Cancelled => "connect_cancelled",
        ConnectErrorKind::Timeout => "connect_timeout",
        ConnectErrorKind::Unreachable => "connect_unreachable",
        ConnectErrorKind::Tls => "connect_tls",
        ConnectErrorKind::Authentication => "connect_authentication",
        ConnectErrorKind::Protocol => "connect_protocol",
        ConnectErrorKind::IdentityChanged => "connect_identity_changed",
        ConnectErrorKind::NetworkChanged => "connect_network_changed",
        ConnectErrorKind::InternalTask => "connect_internal",
    }
}

/// The event kind that reports a failed connection race.
pub open spec fn connect_failure_kind(kind: ConnectErrorKind) -> PairingEventKind {
    match kind {
        ConnectErrorKind::Cancelled => PairingEventKind::Cancelled,
        ConnectErrorKind::Timeout => PairingEventKind::TimedOut,
        ConnectErrorKind::IdentityChanged => PairingEventKind::IdentityChanged,
        _ => PairingEventKind::Failed,
    }
}

/// The event reporting that no candidate address could be connected.
pub fn connect_failure_event(reference: Option<String>, kind: ConnectErrorKind) -> (r: PairingEvent)
    ensures
        plain_event(r, connect_failure_kind(kind), reference),
        r.peer_fingerprint is None,
        r.short_code is None,
        r.detail matches Some(d) && d@ == connect_category(kind),
{
    let event_kind = match kind {
        ConnectErrorKind::Cancelled => PairingEventKind::Cancelled,
        ConnectErrorKind::Timeout => PairingEventKind::TimedOut,
        ConnectErrorKind::IdentityChanged => PairingEventKind::IdentityChanged,
        _ => PairingEventKind::Failed,
    };
    let mut event = new_event(event_kind, reference, None, None);
    event.detail = Some(String::from_str(connect_error_category(kind)));
    event
}

/// The event kind that reports how a pairing ended.
pub open spec fn outcome_kind(result: Result<PairingOutcome, PairingFlowError>) -> PairingEventKind {
    match result {
        Ok(_) => PairingEventKind::Trusted,
        Err(PairingFlowError::IdentityChanged) => PairingEventKind::IdentityChanged,
        Err(PairingFlowError::Rejected) => PairingEventKind::Rejected,
        Err(PairingFlowError::UserCancelled) => PairingEventKind::TimedOut,
        Err(_) => PairingEventKind::Failed,
    }
}

/// The event reporting how a pairing ended: a trusted peer with its
/// fingerprint, or the failure, with a stable category for unexpected
/// ones.
pub fn outcome_event(
    reference: Option<String>,
    result: &Result<PairingOutcome, PairingFlowError>,
    authenticated_session_id: Option<u64>,
) -> (r: PairingEvent)
    ensures
        r.event_id == 0,
        r.request_id is None,
        r.kind == outcome_kind(*result),
        r.peer_reference == reference,
        r.short_code is None,
        match *result {
            Ok(outcome) => {
                &&& r.already_trusted == outcome.already_trusted
                &&& r.authenticated_session_id == authenticated_session_id
                &&& r.peer_fingerprint is Some
                &&& r.detail is None
            },
            Err(e) => {
                &&& !r.already_trusted
                &&& r.authenticated_session_id is None
                &&& r.peer_fingerprint is None
                &&& match e {
                    PairingFlowError::IdentityChanged
                    | PairingFlowError::Rejected
                    | PairingFlowError::UserCancelled => r.detail is None,
                    _ => r.detail matches Some(d) && d@ == flow_error_category(e),
                }
            },
        },
{
    match result {
        Ok(outcome) => {
            let fingerprint = peer_fingerprint(&outcome.peer.peer_id());
            let mut event = new_event(PairingEventKind::Trusted, reference, Some(fingerprint), None);
            event.already_trusted = outcome.already_trusted;
            event.authenticated_session_id = authenticated_session_id;
            event
        },
        Err(PairingFlowError::IdentityChanged) => new_event(
            PairingEventKind::IdentityChanged,
            reference,
            None,
            None,
        ),
        Err(PairingFlowError::Rejected) => new_event(PairingEventKind::Rejected, reference, None, None),
        Err(PairingFlowError::UserCancelled) => new_event(
            PairingEventKind::TimedOut,
            reference,
            None,
            None,
        ),
        Err(error) => {
            let mut event = new_event(PairingEventKind::Failed, reference, None, None);
            event.detail = Some(String::from_str(pairing_error_category(error)));
            event
        },
    }
}

/// What the service reports for a platform bridge failure.
pub open spec fn spec_platform_control_error(e: PlatformControlError) -> PairingError {
    match e {
        PlatformControlError::QueueFull => PairingError::PlatformChannelBackpressure,
        PlatformControlError::Closed => PairingError::PlatformChannelNotFound,
        PlatformControlError::InvalidFrameLength(_) | PlatformControlError::InvalidDrainLimit => {
            PairingError::InvalidPlatformFrame
        },
    }
}

pub fn platform_control_error(error: PlatformControlError) -> (r: PairingError)
    ensures
        r == spec_platform_control_error(error),
{
    match error {
        PlatformControlError::QueueFull => PairingError::PlatformChannelBackpressure,
        PlatformControlError::Closed => PairingError::PlatformChannelNotFound,
        PlatformControlError::InvalidFrameLength(_) | PlatformControlError::InvalidDrainLimit => {
            PairingError::InvalidPlatformFrame
        },
    }
}

// ---------------------------------------------------------------------------
// Retained authenticated sessions
// ---------------------------------------------------------------------------

/// One authenticated connection the service keeps open.
#[derive(Clone, Debug, PartialEq, Eq)]
pub struct SessionEntry {
    pub session_id: u64,
    pub peer_id: PeerId,
    pub peer_reference: Option<String>,
}

/// How a retained session was admitted.
#[derive(Clone, Copy, Debug, PartialEq, Eq, Structural)]
pub enum SessionAdmission {
    /// The peer already had a session; the new connection is not kept.
    Existing(u64),
    /// The connection is kept under this new session id.
    Inserted(u64),
}

/// The retained sessions, at most one per peer and at most
/// `MAX_AUTHENTICATED_SESSIONS` in all, with the id counter.
pub struct SessionRegistry {
    sessions: Vec<SessionEntry>,
    next_id: u64,
}

pub open spec fn sessions_wf(s: Seq<SessionEntry>) -> bool {
    &&& s.len() <= MAX_AUTHENTICATED_SESSIONS
    &&& forall|i: int, j: int|
        0 <= i < j < s.len() ==> (#[trigger] s[i]).session_id != (#[trigger] s[j]).session_id
            && s[i].peer_id != s[j].peer_id
}

pub open spec fn session_of_peer(s: Seq<SessionEntry>, peer_id: PeerId) -> Option<int> {
    if exists|i: int| 0 <= i < s.len() && (#[trigger] s[i]).peer_id == peer_id {
        Some(choose|i: int| 0 <= i < s.len() && (#[trigger] s[i]).peer_id == peer_id)
    } else {
        None
    }
}

pub open spec fn session_index(s: Seq<SessionEntry>, id: u64) -> Option<int> {
    if exists|i: int| 0 <= i < s.len() && (#[trigger] s[i]).session_id == id {
        Some(choose|i: int| 0 <= i < s.len() && (#[trigger] s[i]).session_id == id)
    } else {
        None
    }
}

fn same_peer(a: &PeerId, b: &PeerId) -> (r: bool)
    ensures
        r == (*a == *b),
{
    let eq = crate::be_bytes::bytes_equal(a.0.as_slice(), b.0.as_slice());
    proof {
        if eq {
            assert(a.0 =~= b.0);
        }
    }
    eq
}

impl View for SessionRegistry {
    type V = Seq<SessionEntry>;

    closed spec fn view(&self) -> Seq<SessionEntry> {
        self.sessions@
    }
}

impl SessionRegistry {
    pub closed spec fn spec_next_id(&self) -> u64 {
        self.next_id
    }

    pub open spec fn wf(&self) -> bool {
        sessions_wf(self@)
    }

    pub fn new() -> (r: Self)
        ensures
            r.wf(),
            r@.len() == 0,
            r.spec_next_id() == 0,
    {
        SessionRegistry { sessions: Vec::new(), next_id: 0 }
    }

    fn find_peer(&self, peer_id: &PeerId) -> (r: Option<usize>)
        ensures
            match session_of_peer(self@, *peer_id) {
                Some(_) => r matches Some(i) && i < self@.len() && self@[i as int].peer_id == *peer_id,
                None => r is None,
            },
    {
        let mut i: usize = 0;
        while i < self.sessions.len()
            invariant
                i <= self@.len(),
                forall|k: int| 0 <= k < i ==> (#[trigger] self@[k]).peer_id != *peer_id,
            decreases self@.len() - i,
        {
            if same_peer(&self.sessions[i].peer_id, peer_id) {
                return Some(i);
            }
            i = i + 1;
        }
        None
    }

    fn find_session(&self, session_id: u64) -> (r: Option<usize>)
        ensures
            match session_index(self@, session_id) {
                Some(_) => r matches Some(i) && i < self@.len() && self@[i as int].session_id
                    == session_id,
                None => r is None,
            },
    {
        let mut i: usize = 0;
        while i < self.sessions.len()
            invariant
                i <= self@.len(),
                forall|k: int| 0 <= k < i ==> (#[trigger] self@[k]).session_id != session_id,
            decreases self@.len() - i,
        {
            if self.sessions[i].session_id == session_id {
                return Some(i);
            }
            i = i + 1;
        }
        None
    }

    /// Keeps an authenticated connection to a peer. A peer keeps its one
    /// existing session; a full registry refuses; otherwise the next id is
    /// taken.
    pub fn insert(&mut self, peer_id: PeerId, peer_reference: Option<String>) -> (r: Result<
        SessionAdmission,
        PairingError,
    >)
        requires
            old(self).wf(),
        ensures
            final(self).wf(),
            match session_of_peer(old(self)@, peer_id) {
                Some(i) => r == Ok::<SessionAdmission, PairingError>(
                    SessionAdmission::Existing(old(self)@[i].session_id),
                ) && final(self)@ == old(self)@ && final(self).spec_next_id() == old(
                    self,
                ).spec_next_id(),
                None => if old(self)@.len() >= MAX_AUTHENTICATED_SESSIONS {
                    r == Err::<SessionAdmission, PairingError>(PairingError::Busy) && final(self)@
                        == old(self)@ && final(self).spec_next_id() == old(self).spec_next_id()
                } else if old(self).spec_next_id() == u64::MAX {
                    r == Err::<SessionAdmission, PairingError>(PairingError::InternalState)
                        && final(self)@ == old(self)@ && final(self).spec_next_id() == 0
                } else {
                    let id = (old(self).spec_next_id() + 1) as u64;
                    let entry = SessionEntry { session_id: id, peer_id, peer_reference };
                    &&& final(self).spec_next_id() == id
                    &&& match session_index(old(self)@, id) {
                        Some(j) => r == Err::<SessionAdmission, PairingError>(
                            PairingError::InternalState,
                        ) && final(self)@ == old(self)@.update(j, entry),
                        None => r == Ok::<SessionAdmission, PairingError>(
                            SessionAdmission::Inserted(id),
                        ) && final(self)@ == old(self)@.push(entry),
                    }
                },
            },
    {
        let ghost s = self@;
        match self.find_peer(&peer_id) {
            Some(i) => {
                proof {
                    let c = choose|k: int| 0 <= k < s.len() && (#[trigger] s[k]).peer_id == peer_id;
                    if c != i {
                        if c < i {
                            assert(s[c].peer_id != s[i as int].peer_id);
                        } else {
                            assert(s[i as int].peer_id != s[c].peer_id);
                        }
                    }
                }
                return Ok(SessionAdmission::Existing(self.sessions[i].session_id));
            },
            None => {},
        }
        if self.sessions.len() >= MAX_AUTHENTICATED_SESSIONS {
            return Err(PairingError::Busy);
        }
        let previous = self.next_id;
        self.next_id = previous.wrapping_add(1);
        if previous == u64::MAX {
            return Err(PairingError::InternalState);
        }
        let id = previous + 1;
        let entry = SessionEntry { session_id: id, peer_id, peer_reference };
        match self.find_session(id) {
            Some(j) => {
                proof {
                    let c = choose|k: int| 0 <= k < s.len() && (#[trigger] s[k]).session_id == id;
                    if c != j {
                        if c < j {
                            assert(s[c].session_id != s[j as int].session_id);
                        } else {
                            assert(s[j as int].session_id != s[c].session_id);
                        }
                    }
                }
                self.sessions.set(j, entry);
                proof {
                    assert forall|a: int, b: int| 0 <= a < b < self@.len() implies (
                    #[trigger] self@[a]).session_id != (#[trigger] self@[b]).session_id
                        && self@[a].peer_id != self@[b].peer_id by {
                        if a == j {
                            assert(self@[b] == s[b]);
                        } else if b == j {
                            assert(self@[a] == s[a]);
                        } else {
                            assert(self@[a] == s[a] && self@[b] == s[b]);
                        }
                    }
                }
                Err(PairingError::InternalState)
            },
            None => {
                self.sessions.push(entry);
                proof {
                    assert forall|a: int, b: int| 0 <= a < b < self@.len() implies (
                    #[trigger] self@[a]).session_id != (#[trigger] self@[b]).session_id
                        && self@[a].peer_id != self@[b].peer_id by {
                        if b == s.len() {
                            assert(self@[a] == s[a]);
                        } else {
                            assert(self@[a] == s[a] && self@[b] == s[b]);
                        }
                    }
                }
                Ok(SessionAdmission::Inserted(id))
            },
        }
    }

    /// Forgets a session and returns it.
    pub fn remove(&mut self, session_id: u64) -> (r: Option<SessionEntry>)
        requires
            old(self).wf(),
        ensures
            final(self).wf(),
            final(self).spec_next_id() == old(self).spec_next_id(),
            match session_index(old(self)@, session_id) {
                Some(i) => r == Some(old(self)@[i]) && final(self)@ == old(self)@.remove(i),
                None => r is None && final(self)@ == old(self)@,
            },
    {
        let ghost s = self@;
        match self.find_session(session_id) {
            Some(i) => {
                proof {
                    let c = choose|k: int| 0 <= k < s.len() && (#[trigger] s[k]).session_id == session_id;
                    if c != i {
                        if c < i {
                            assert(s[c].session_id != s[i as int].session_id);
                        } else {
                            assert(s[i as int].session_id != s[c].session_id);
                        }
                    }
                }
                let entry = self.sessions.remove(i);
                proof {
                    assert forall|a: int, b: int| 0 <= a < b < self@.len() implies (
                    #[trigger] self@[a]).session_id != (#[trigger] self@[b]).session_id
                        && self@[a].peer_id != self@[b].peer_id by {
                        let oa = if a < i {
                            a
                        } else {
                            a + 1
                        };
                        let ob = if b < i {
                            b
                        } else {
                            b + 1
                        };
                        assert(self@[a] == s[oa] && self@[b] == s[ob]);
                    }
                }
                Some(entry)
            },
            None => None,
        }
    }

    /// The session kept for a peer, if any.
    pub fn session_for_peer(&self, peer_id: &PeerId) -> (r: Option<u64>)
        requires
            self.wf(),
        ensures
            match session_of_peer(self@, *peer_id) {
                Some(i) => r == Some(self@[i].session_id),
                None => r is None,
            },
    {
        let ghost s = self@;
        match self.find_peer(peer_id) {
            Some(i) => {
                proof {
                    let c = choose|k: int| 0 <= k < s.len() && (#[trigger] s[k]).peer_id == *peer_id;
                    if c != i {
                        if c < i {
                            assert(s[c].peer_id != s[i as int].peer_id);
                        } else {
                            assert(s[i as int].peer_id != s[c].peer_id);
                        }
                    }
                }
                Some(self.sessions[i].session_id)
            },
            None => None,
        }
    }

    /// The peer of a session, if the session exists.
    pub fn peer_of_session(&self, session_id: u64) -> (r: Option<PeerId>)
        requires
            self.wf(),
        ensures
            match session_index(self@, session_id) {
                Some(i) => r == Some(self@[i].peer_id),
                None => r is None,
            },
    {
        let ghost s = self@;
        match self.find_session(session_id) {
            Some(i) => {
                proof {
                    let c = choose|k: int| 0 <= k < s.len() && (#[trigger] s[k]).session_id == session_id;
                    if c != i {
                        if c < i {
                            assert(s[c].session_id != s[i as int].session_id);
                        } else {
                            assert(s[i as int].session_id != s[c].session_id);
                        }
                    }
                }
                Some(self.sessions[i].peer_id)
            },
            None => None,
        }
    }

    /// Forgets every session.
    pub fn clear(&mut self)
        ensures
            final(self).wf(),
            final(self)@.len() == 0,
            final(self).spec_next_id() == old(self).spec_next_id(),
    {
        self.sessions.clear();
    }

    /// The sessions as shown to applications, ordered by session id.
    pub fn infos(&self) -> (r: Vec<AuthenticatedSessionInfo>)
        requires
            self.wf(),
        ensures
            r@.len() == self@.len(),
            forall|i: int, j: int|
                0 <= i < j < r@.len() ==> (#[trigger] r@[i]).session_id <= (#[trigger] r@[j]).session_id,
            infos_match(r@, self@),
    {
        broadcast use vstd::seq_lib::group_seq_properties;

        let ghost s = self@;
        let mut built: Vec<AuthenticatedSessionInfo> = Vec::new();
        let mut k: usize = 0;
        while k < self.sessions.len()
            invariant
                k <= s.len(),
                s == self@,
                built@.len() == k,
                forall|q: int| 0 <= q < k ==> #[trigger] info_of(built@[q], s[q]),
            decreases s.len() - k,
        {
            let entry = &self.sessions[k];
            let info = AuthenticatedSessionInfo {
                session_id: entry.session_id,
                peer_fingerprint: peer_fingerprint(&entry.peer_id),
                peer_reference: match &entry.peer_reference {
                    Some(r) => Some(r.clone()),
                    None => None,
                },
            };
            built.push(info);
            k = k + 1;
        }
        let ghost unsorted = built@;
        let out = sort_infos(built);
        proof {
            unsorted.to_multiset_ensures();
            out@.to_multiset_ensures();
            assert forall|i: int| 0 <= i < out@.len() implies #[trigger] info_shown(out@, self@, i) by {
                assert(out@.to_multiset().count(out@[i]) > 0);
                assert(unsorted.contains(out@[i]));
                let k = choose|k: int| 0 <= k < unsorted.len() && unsorted[k] == out@[i];
                assert(info_of(unsorted[k], s[k]));
                assert(info_of(out@[i], self@[k]));
            }
            assert forall|k: int| 0 <= k < self@.len() implies #[trigger] session_shown(out@, self@, k) by {
                assert(info_of(unsorted[k], s[k]));
                assert(unsorted.to_multiset().count(unsorted[k]) > 0);
                assert(out@.contains(unsorted[k]));
                let i = choose|i: int| 0 <= i < out@.len() && out@[i] == unsorted[k];
                assert(info_of(out@[i], self@[k]));
            }
        }
        assert(infos_match(out@, self@));
        out
    }
}

proof fn lemma_insert_info_multiset(s: Seq<AuthenticatedSessionInfo>, c: AuthenticatedSessionInfo, j: int)
    requires
        0 <= j <= s.len(),
    ensures
        s.insert(j, c).to_multiset() == s.to_multiset().insert(c),
{
    broadcast use vstd::seq_lib::group_seq_properties;

    assert(s.insert(j, c) =~= s.subrange(0, j) + seq![c] + s.subrange(j, s.len() as int));
    assert(s =~= s.subrange(0, j) + s.subrange(j, s.len() as int));
    vstd::seq_lib::lemma_multiset_commutative(s.subrange(0, j) + seq![c], s.subrange(j, s.len() as int));
    vstd::seq_lib::lemma_multiset_commutative(s.subrange(0, j), seq![c]);
    vstd::seq_lib::lemma_multiset_commutative(s.subrange(0, j), s.subrange(j, s.len() as int));
}

/// Orders session infos by session id; the result holds the same infos.
fn sort_infos(infos: Vec<AuthenticatedSessionInfo>) -> (r: Vec<AuthenticatedSessionInfo>)
    ensures
        r@.to_multiset() == infos@.to_multiset(),
        r@.len() == infos@.len(),
        forall|i: int, j: int|
            0 <= i < j < r@.len() ==> (#[trigger] r@[i]).session_id <= (#[trigger] r@[j]).session_id,
{
    broadcast use vstd::seq_lib::group_seq_properties;

    let ghost input = infos@;
    let n = infos.len();
    let mut rest = infos;
    let mut out: Vec<AuthenticatedSessionInfo> = Vec::new();
    let mut i: usize = 0;
    assert(input.subrange(0, 0) =~= Seq::<AuthenticatedSessionInfo>::empty());
    while rest.len() > 0
        invariant
            i + rest@.len() == input.len(),
            n == input.len(),
            rest@ == input.subrange(i as int, input.len() as int),
            out@.len() == i,
            out@.to_multiset() == input.subrange(0, i as int).to_multiset(),
            forall|a: int, b: int|
                0 <= a < b < out@.len() ==> (#[trigger] out@[a]).session_id <= (#[trigger] out@[b]).session_id,
        decreases rest@.len(),
    {
        let c = rest.remove(0);
        let mut j: usize = 0;
        while j < out.len() && out[j].session_id <= c.session_id
            invariant
                j <= out@.len(),
                forall|q: int| 0 <= q < j ==> (#[trigger] out@[q]).session_id <= c.session_id,
            decreases out@.len() - j,
        {
            j = j + 1;
        }
        let ghost prior = out@;
        out.insert(j, c);
        proof {
            assert forall|a: int, b: int| 0 <= a < b < out@.len() implies (
            #[trigger] out@[a]).session_id <= (#[trigger] out@[b]).session_id by {
                if b < j {
                    assert(out@[a] == prior[a] && out@[b] == prior[b]);
                } else if b == j {
                    assert(out@[a] == prior[a]);
                } else if a < j {
                    assert(out@[a] == prior[a] && out@[b] == prior[b - 1]);
                } else if a == j {
                    assert(out@[b] == prior[b - 1]);
                    assert(prior[j as int].session_id > c.session_id);
                    if b - 1 > j {
                        assert(prior[j as int].session_id <= prior[b - 1].session_id);
                    }
                } else {
                    assert(out@[a] == prior[a - 1] && out@[b] == prior[b - 1]);
                }
            }
            assert(c == input[i as int]);
            lemma_insert_info_multiset(prior, c, j as int);
            assert(input.subrange(0, i + 1) =~= input.subrange(0, i as int).push(c));
            input.subrange(0, i as int).to_multiset_ensures();
            assert(rest@ =~= input.subrange(i + 1, input.len() as int));
        }
        i = i + 1;
    }
    proof {
        assert(input.subrange(0, i as int) =~= input);
    }
    out
}

/// The `i`-th info shows one of the sessions.
pub open spec fn info_shown(r: Seq<AuthenticatedSessionInfo>, s: Seq<SessionEntry>, i: int) -> bool {
    exists|k: int| 0 <= k < s.len() && #[trigger] info_of(r[i], s[k])
}

/// The `k`-th session is shown by one of the infos.
pub open spec fn session_shown(r: Seq<AuthenticatedSessionInfo>, s: Seq<SessionEntry>, k: int) -> bool {
    exists|i: int| 0 <= i < r.len() && #[trigger] info_of(r[i], s[k])
}

/// Every info shows one of the sessions and every session is shown.
pub open spec fn infos_match(r: Seq<AuthenticatedSessionInfo>, s: Seq<SessionEntry>) -> bool {
    &&& forall|i: int| 0 <= i < r.len() ==> #[trigger] info_shown(r, s, i)
    &&& forall|k: int| 0 <= k < s.len() ==> #[trigger] session_shown(r, s, k)
}

/// `info` shows session `e`.
pub open spec fn info_of(info: AuthenticatedSessionInfo, e: SessionEntry) -> bool {
    &&& info.session_id == e.session_id
    &&& info.peer_fingerprint@ == ascii_chars(colon_hex(e.peer_id.0@.subrange(0, 6)))
    &&& info.peer_reference == e.peer_reference
}

// ---------------------------------------------------------------------------
// Platform channels
// ---------------------------------------------------------------------------

/// The state of each platform pairing channel, by channel id, with the id
/// counter. The channels' frame bridges are held beside it under the same
/// ids.
pub struct ChannelRegistry {
    channels: Vec<(u64, PlatformPairingChannelState)>,
    next_id: u64,
}

pub open spec fn channels_wf(s: Seq<(u64, PlatformPairingChannelState)>) -> bool {
    &&& s.len() <= MAX_PLATFORM_CHANNELS
    &&& forall|i: int, j: int| 0 <= i < j < s.len() ==> (#[trigger] s[i]).0 != (#[trigger] s[j]).0
}

pub open spec fn channel_index(s: Seq<(u64, PlatformPairingChannelState)>, id: u64) -> Option<int> {
    if exists|i: int| 0 <= i < s.len() && (#[trigger] s[i]).0 == id {
        Some(choose|i: int| 0 <= i < s.len() && (#[trigger] s[i]).0 == id)
    } else {
        None
    }
}

impl View for ChannelRegistry {
    type V = Seq<(u64, PlatformPairingChannelState)>;

    closed spec fn view(&self) -> Seq<(u64, PlatformPairingChannelState)> {
        self.channels@
    }
}

impl ChannelRegistry {
    pub closed spec fn spec_next_id(&self) -> u64 {
        self.next_id
    }

    pub open spec fn wf(&self) -> bool {
        channels_wf(self@)
    }

    pub fn new() -> (r: Self)
        ensures
            r.wf(),
            r@.len() == 0,
            r.spec_next_id() == 0,
    {
        ChannelRegistry { channels: Vec::new(), next_id: 0 }
    }

    fn find(&self, id: u64) -> (r: Option<usize>)
        requires
            self.wf(),
        ensures
            match channel_index(self@, id) {
                Some(i) => r == Some(i as usize),
                None => r is None,
            },
    {
        let ghost s = self@;
        let mut i: usize = 0;
        while i < self.channels.len()
            invariant
                i <= s.len(),
                s == self@,
                channels_wf(s),
                forall|k: int| 0 <= k < i ==> (#[trigger] s[k]).0 != id,
            decreases s.len() - i,
        {
            if self.channels[i].0 == id {
                proof {
                    let c = choose|k: int| 0 <= k < s.len() && (#[trigger] s[k]).0 == id;
                    if c != i {
                        if c < i {
                            assert(s[c].0 != id);
                        } else {
                            assert(s[i as int].0 != s[c].0);
                        }
                    }
                }
                return Some(i);
            }
            i = i + 1;
        }
        None
    }

    /// Registers a new channel in the pending state under the next id; a
    /// full registry refuses.
    pub fn insert(&mut self) -> (r: Result<u64, PairingError>)
        requires
            old(self).wf(),
        ensures
            final(self).wf(),
            if old(self)@.len() >= MAX_PLATFORM_CHANNELS {
                r == Err::<u64, PairingError>(PairingError::Busy) && final(self)@ == old(self)@
                    && final(self).spec_next_id() == old(self).spec_next_id()
            } else if old(self).spec_next_id() == u64::MAX {
                r == Err::<u64, PairingError>(PairingError::InternalState) && final(self)@ == old(
                    self,
                )@ && final(self).spec_next_id() == 0
            } else {
                let id = (old(self).spec_next_id() + 1) as u64;
                &&& final(self).spec_next_id() == id
                &&& match channel_index(old(self)@, id) {
                    Some(j) => r == Err::<u64, PairingError>(PairingError::InternalState)
                        && final(self)@ == old(self)@.update(
                        j,
                        (id, PlatformPairingChannelState::Pending),
                    ),
                    None => r == Ok::<u64, PairingError>(id) && final(self)@ == old(self)@.push(
                        (id, PlatformPairingChannelState::Pending),
                    ),
                }
            },
    {
        let ghost s = self@;
        if self.channels.len() >= MAX_PLATFORM_CHANNELS {
            return Err(PairingError::Busy);
        }
        let previous = self.next_id;
        self.next_id = previous.wrapping_add(1);
        if previous == u64::MAX {
            return Err(PairingError::InternalState);
        }
        let id = previous + 1;
        match self.find(id) {
            Some(j) => {
                self.channels.set(j, (id, PlatformPairingChannelState::Pending));
                proof {
                    assert forall|a: int, b: int| 0 <= a < b < self@.len() implies (
                    #[trigger] self@[a]).0 != (#[trigger] self@[b]).0 by {
                        assert(self@[a].0 == s[a].0 && self@[b].0 == s[b].0);
                    }
                }
                Err(PairingError::InternalState)
            },
            None => {
                self.channels.push((id, PlatformPairingChannelState::Pending));
                proof {
                    assert forall|a: int, b: int| 0 <= a < b < self@.len() implies (
                    #[trigger] self@[a]).0 != (#[trigger] self@[b]).0 by {
                        if b < s.len() {
                            assert(self@[a] == s[a] && self@[b] == s[b]);
                        } else {
                            assert(self@[a] == s[a]);
                        }
                    }
                }
                Ok(id)
            },
        }
    }

    /// Records a channel's new state; unknown channels are ignored.
    pub fn set_state(&mut self, id: u64, state: PlatformPairingChannelState)
        requires
            old(self).wf(),
        ensures
            final(self).wf(),
            final(self).spec_next_id() == old(self).spec_next_id(),
            match channel_index(old(self)@, id) {
                Some(i) => final(self)@ == old(self)@.update(i, (id, state)),
                None => final(self)@ == old(self)@,
            },
    {
        let ghost s = self@;
        match self.find(id) {
            Some(i) => {
                self.channels.set(i, (id, state));
                proof {
                    assert forall|a: int, b: int| 0 <= a < b < self@.len() implies (
                    #[trigger] self@[a]).0 != (#[trigger] self@[b]).0 by {
                        assert(self@[a].0 == s[a].0 && self@[b].0 == s[b].0);
                    }
                }
            },
            None => {},
        }
    }

    /// The state of a channel.
    pub fn state(&self, id: u64) -> (r: Result<PlatformPairingChannelState, PairingError>)
        requires
            self.wf(),
        ensures
            match channel_index(self@, id) {
                Some(i) => r == Ok::<PlatformPairingChannelState, PairingError>(self@[i].1),
                None => r == Err::<PlatformPairingChannelState, PairingError>(
                    PairingError::PlatformChannelNotFound,
                ),
            },
    {
        match self.find(id) {
            Some(i) => Ok(self.channels[i].1),
            None => Err(PairingError::PlatformChannelNotFound),
        }
    }

    /// Forgets a channel.
    pub fn remove(&mut self, id: u64) -> (r: Result<(), PairingError>)
        requires
            old(self).wf(),
        ensures
            final(self).wf(),
            final(self).spec_next_id() == old(self).spec_next_id(),
            match channel_index(old(self)@, id) {
                Some(i) => r is Ok && final(self)@ == old(self)@.remove(i),
                None => r == Err::<(), PairingError>(PairingError::PlatformChannelNotFound)
                    && final(self)@ == old(self)@,
            },
    {
        let ghost s = self@;
        match self.find(id) {
            Some(i) => {
                self.channels.remove(i);
                proof {
                    assert forall|a: int, b: int| 0 <= a < b < self@.len() implies (
                    #[trigger] self@[a]).0 != (#[trigger] self@[b]).0 by {
                        let oa = if a < i {
                            a
                        } else {
                            a + 1
                        };
                        let ob = if b < i {
                            b
                        } else {
                            b + 1
                        };
                        assert(self@[a] == s[oa] && self@[b] == s[ob]);
                    }
                }
                Ok(())
            },
            None => Err(PairingError::PlatformChannelNotFound),
        }
    }

    /// Forgets every channel.
    pub fn clear(&mut self)
        ensures
            final(self).wf(),
            final(self)@.len() == 0,
            final(self).spec_next_id() == old(self).spec_next_id(),
    {
        self.channels.clear();
    }
}

// ---------------------------------------------------------------------------
// Pairing events
// ---------------------------------------------------------------------------

fn duplicate_text(s: &Option<String>) -> (r: Option<String>)
    ensures
        r == *s,
{
    match s {
        Some(t) => Some(t.clone()),
        None => None,
    }
}

/// A copy of an event.
pub fn duplicate_event(e: &PairingEvent) -> (r: PairingEvent)
    ensures
        r == *e,
{
    PairingEvent {
        event_id: e.event_id,
        request_id: e.request_id,
        kind: e.kind,
        peer_reference: duplicate_text(&e.peer_reference),
        peer_fingerprint: duplicate_text(&e.peer_fingerprint),
        short_code: duplicate_text(&e.short_code),
        already_trusted: e.already_trusted,
        authenticated_session_id: e.authenticated_session_id,
        detail: duplicate_text(&e.detail),
    }
}

/// The most recent `EVENT_LIMIT` pairing events, each numbered one past the
/// previous event.
pub struct PairingEventLog {
    events: Vec<PairingEvent>,
    next_id: u64,
}

impl View for PairingEventLog {
    type V = Seq<PairingEvent>;

    closed spec fn view(&self) -> Seq<PairingEvent> {
        self.events@
    }
}

/// The events numbered after `id`, in order.
pub open spec fn events_after(s: Seq<PairingEvent>, id: u64) -> Seq<PairingEvent>
    decreases s.len(),
{
    if s.len() == 0 {
        s
    } else {
        let rest = events_after(s.drop_last(), id);
        if s.last().event_id > id {
            rest.push(s.last())
        } else {
            rest
        }
    }
}

impl PairingEventLog {
    pub closed spec fn spec_next_id(&self) -> u64 {
        self.next_id
    }

    /// At most `EVENT_LIMIT` events, numbered in increasing order, none past
    /// the counter.
    pub open spec fn wf(&self) -> bool {
        &&& self@.len() <= EVENT_LIMIT
        &&& forall|i: int, j: int|
            0 <= i < j < self@.len() ==> (#[trigger] self@[i]).event_id < (#[trigger] self@[j]).event_id
        &&& forall|i: int| 0 <= i < self@.len() ==> (#[trigger] self@[i]).event_id <= self.spec_next_id()
    }

    pub fn new() -> (r: Self)
        ensures
            r.wf(),
            r@.len() == 0,
            r.spec_next_id() == 0,
    {
        PairingEventLog { events: Vec::new(), next_id: 0 }
    }

    /// Whether another event can still be numbered.
    pub fn has_room(&self) -> (r: bool)
        ensures
            r == (self.spec_next_id() < u64::MAX),
    {
        self.next_id < u64::MAX
    }

    /// Numbers an event and appends it, dropping the oldest once the log
    /// is full. Returns the number.
    pub fn push(&mut self, event: PairingEvent) -> (r: u64)
        requires
            old(self).wf(),
            old(self).spec_next_id() < u64::MAX,
        ensures
            final(self).wf(),
            r == old(self).spec_next_id() + 1,
            final(self).spec_next_id() == r,
            final(self)@ == (if old(self)@.len() == EVENT_LIMIT {
                old(self)@.drop_first()
            } else {
                old(self)@
            }).push(PairingEvent { event_id: r, ..event }),
    {
        let ghost s = self@;
        let id = self.next_id + 1;
        self.next_id = id;
        if self.events.len() == EVENT_LIMIT {
            self.events.remove(0);
        }
        let ghost kept = self@;
        let mut event = event;
        event.event_id = id;
        self.events.push(event);
        proof {
            assert(kept == (if s.len() == EVENT_LIMIT {
                s.drop_first()
            } else {
                s
            }));
            assert forall|i: int, j: int| 0 <= i < j < self@.len() implies (
            #[trigger] self@[i]).event_id < (#[trigger] self@[j]).event_id by {
                if s.len() == EVENT_LIMIT {
                    if j < kept.len() {
                        assert(self@[i] == s[i + 1] && self@[j] == s[j + 1]);
                    } else {
                        assert(self@[i] == s[i + 1]);
                    }
                } else {
                    if j < kept.len() {
                        assert(self@[i] == s[i] && self@[j] == s[j]);
                    } else {
                        assert(self@[i] == s[i]);
                    }
                }
            }
            assert forall|i: int| 0 <= i < self@.len() implies (#[trigger] self@[i]).event_id
                <= self.next_id by {
                if i < kept.len() {
                    if s.len() == EVENT_LIMIT {
                        assert(self@[i] == s[i + 1]);
                    } else {
                        assert(self@[i] == s[i]);
                    }
                }
            }
        }
        id
    }

    /// Copies of the events numbered after `id`, in order.
    pub fn after(&self, id: u64) -> (r: Vec<PairingEvent>)
        ensures
            r@ == events_after(self@, id),
    {
        let ghost s = self@;
        let mut out: Vec<PairingEvent> = Vec::new();
        let mut i: usize = 0;
        while i < self.events.len()
            invariant
                i <= s.len(),
                s == self@,
                out@ == events_after(s.subrange(0, i as int), id),
            decreases s.len() - i,
        {
            proof {
                assert(s.subrange(0, i + 1).drop_last() =~= s.subrange(0, i as int));
            }
            if self.events[i].event_id > id {
                out.push(duplicate_event(&self.events[i]));
            }
            i = i + 1;
        }
        proof {
            assert(s.subrange(0, i as int) =~= s);
        }
        out
    }
}

// ---------------------------------------------------------------------------
// Per-peer attempt limits
// ---------------------------------------------------------------------------

/// The key an attempt is tracked under: its peer reference, ASCII case
/// folded.
pub open spec fn attempt_key(reference: Seq<char>) -> Seq<char> {
    fold_ascii_case(reference)
}

fn copy_key(a: &Vec<char>) -> (r: Vec<char>)
    ensures
        r@ == a@,
{
    let mut out: Vec<char> = Vec::new();
    let mut i: usize = 0;
    while i < a.len()
        invariant
            i <= a@.len(),
            out@ == a@.subrange(0, i as int),
        decreases a@.len() - i,
    {
        out.push(a[i]);
        i = i + 1;
        assert(out@ =~= a@.subrange(0, i as int));
    }
    assert(a@.subrange(0, i as int) =~= a@);
    out
}

/// How long ago `t` was at `now`, or zero for a time not yet reached.
pub open spec fn elapsed(now: Duration, t: Duration) -> int {
    if now.spec_nanos() >= t.spec_nanos() {
        now.spec_nanos() - t.spec_nanos()
    } else {
        0
    }
}

/// The attempts that ended within the cooldown, in order.
pub open spec fn still_cooling(s: Seq<(Seq<char>, Duration)>, now: Duration, cooldown: Duration) -> Seq<
    (Seq<char>, Duration),
>
    decreases s.len(),
{
    if s.len() == 0 {
        s
    } else {
        let rest = still_cooling(s.drop_last(), now, cooldown);
        if elapsed(now, s.last().1) < cooldown.spec_nanos() {
            rest.push(s.last())
        } else {
            rest
        }
    }
}

pub open spec fn has_recent(s: Seq<(Seq<char>, Duration)>, k: Seq<char>) -> bool {
    exists|i: int| 0 <= i < s.len() && (#[trigger] s[i]).0 == k
}

pub open spec fn recent_index(s: Seq<(Seq<char>, Duration)>, k: Seq<char>) -> int {
    choose|i: int| 0 <= i < s.len() && (#[trigger] s[i]).0 == k
}

/// Which peers have an attempt running, and when recent attempts ended.
pub struct AttemptTracker {
    active: Vec<Vec<char>>,
    recent: Vec<(Vec<char>, Duration)>,
}

impl AttemptTracker {
    pub closed spec fn spec_active(&self) -> Seq<Seq<char>> {
        self.active@.map_values(|k: Vec<char>| k@)
    }

    pub closed spec fn spec_recent(&self) -> Seq<(Seq<char>, Duration)> {
        self.recent@.map_values(|e: (Vec<char>, Duration)| (e.0@, e.1))
    }

    /// Each peer appears at most once in each list, and at most
    /// `MAX_RECENT_PEER_ATTEMPTS` recent attempts are kept.
    pub open spec fn wf(&self) -> bool {
        &&& self.spec_active().no_duplicates()
        &&& self.spec_recent().map_values(|e: (Seq<char>, Duration)| e.0).no_duplicates()
        &&& self.spec_recent().len() <= MAX_RECENT_PEER_ATTEMPTS
    }

    pub fn new() -> (r: Self)
        ensures
            r.wf(),
            r.spec_active().len() == 0,
            r.spec_recent().len() == 0,
    {
        let r = AttemptTracker { active: Vec::new(), recent: Vec::new() };
        assert(r.spec_active() =~= Seq::<Seq<char>>::empty());
        assert(r.spec_recent() =~= Seq::<(Seq<char>, Duration)>::empty());
        r
    }

    fn active_position(&self, key: &Vec<char>) -> (r: Option<usize>)
        ensures
            match r {
                Some(i) => i < self.spec_active().len() && self.spec_active()[i as int] == key@,
                None => !self.spec_active().contains(key@),
            },
    {
        let mut i: usize = 0;
        while i < self.active.len()
            invariant
                i <= self.active@.len(),
                forall|k: int| 0 <= k < i ==> self.spec_active()[k] != key@,
            decreases self.active@.len() - i,
        {
            if same_chars(&self.active[i], key) {
                return Some(i);
            }
            i = i + 1;
        }
        None
    }

    fn recent_position(&self, key: &Vec<char>) -> (r: Option<usize>)
        ensures
            match r {
                Some(i) => i < self.spec_recent().len() && self.spec_recent()[i as int].0 == key@,
                None => !has_recent(self.spec_recent(), key@),
            },
    {
        let mut i: usize = 0;
        while i < self.recent.len()
            invariant
                i <= self.recent@.len(),
                forall|k: int| 0 <= k < i ==> (#[trigger] self.spec_recent()[k]).0 != key@,
            decreases self.recent@.len() - i,
        {
            if same_chars(&self.recent[i].0, key) {
                return Some(i);
            }
            i = i + 1;
        }
        None
    }

    /// Starts an attempt for a peer. Attempts without a reference are not
    /// tracked. A peer with an attempt running is busy; one whose last
    /// attempt ended within the cooldown is rate limited. Attempts older
    /// than the cooldown are forgotten either way.
    pub fn reserve(&mut self, reference: Option<&str>, now: Duration, cooldown: Duration) -> (r: Result<
        Option<Vec<char>>,
        PairingError,
    >)
        requires
            old(self).wf(),
        ensures
            final(self).wf(),
            match reference {
                None => r matches Ok(None) && final(self).spec_active() == old(self).spec_active()
                    && final(self).spec_recent() == old(self).spec_recent(),
                Some(text) => {
                    let key = attempt_key(text@);
                    let cooled = still_cooling(old(self).spec_recent(), now, cooldown);
                    if old(self).spec_active().contains(key) {
                        r == Err::<Option<Vec<char>>, PairingError>(PairingError::Busy)
                            && final(self).spec_active() == old(self).spec_active()
                            && final(self).spec_recent() == old(self).spec_recent()
                    } else if has_recent(cooled, key) {
                        r == Err::<Option<Vec<char>>, PairingError>(PairingError::RateLimited)
                            && final(self).spec_active() == old(self).spec_active()
                            && final(self).spec_recent() == cooled
                    } else {
                        &&& r matches Ok(Some(k)) && k@ == key
                        &&& final(self).spec_active() == old(self).spec_active().push(key)
                        &&& final(self).spec_recent() == cooled
                    }
                },
            },
    {
        let text = match reference {
            None => {
                return Ok(None);
            },
            Some(text) => text,
        };
        let key = ascii_folded(text);
        if self.active_position(&key).is_some() {
            return Err(PairingError::Busy);
        }
        let ghost old_recent = self.spec_recent();
        proof {
            assert forall|b: int, c: int|
                0 <= b < old_recent.len() && 0 <= c < old_recent.len() && b != c implies old_recent[b].0
                != old_recent[c].0 by {
                let ov = old_recent.map_values(|e: (Seq<char>, Duration)| e.0);
                assert(ov[b] == old_recent[b].0 && ov[c] == old_recent[c].0);
            }
        }
        let mut kept: Vec<(Vec<char>, Duration)> = Vec::new();
        let mut i: usize = 0;
        while i < self.recent.len()
            invariant
                i <= self.recent@.len(),
                old_recent == self.spec_recent(),
                old_recent.len() <= MAX_RECENT_PEER_ATTEMPTS,
                forall|b: int, c: int|
                    0 <= b < old_recent.len() && 0 <= c < old_recent.len() && b != c ==> (
                    #[trigger] old_recent[b]).0 != (#[trigger] old_recent[c]).0,
                kept@.map_values(|e: (Vec<char>, Duration)| (e.0@, e.1)) == still_cooling(
                    old_recent.subrange(0, i as int),
                    now,
                    cooldown,
                ),
                kept@.len() <= i,
                forall|a: int, b: int|
                    0 <= a < b < kept@.len() ==> (#[trigger] kept@[a]).0@ != (#[trigger] kept@[b]).0@,
                forall|a: int|
                    0 <= a < kept@.len() ==> exists|b: int|
                        0 <= b < i && (#[trigger] kept@[a]).0@ == old_recent[b].0,
            decreases self.recent@.len() - i,
        {
            proof {
                assert(old_recent.subrange(0, i + 1).drop_last() =~= old_recent.subrange(0, i as int));
                assert(old_recent[i as int] == (self.recent@[i as int].0@, self.recent@[i as int].1));
            }
            let t = self.recent[i].1;
            let age = if now.as_nanos() >= t.as_nanos() {
                now.as_nanos() - t.as_nanos()
            } else {
                0
            };
            if age < cooldown.as_nanos() {
                let ghost before = kept@;
                kept.push((copy_key(&self.recent[i].0), t));
                proof {
                    assert(kept@.map_values(|e: (Vec<char>, Duration)| (e.0@, e.1)) =~= still_cooling(
                        old_recent.subrange(0, i + 1),
                        now,
                        cooldown,
                    ));
                    assert forall|a: int, b: int| 0 <= a < b < kept@.len() implies (
                    #[trigger] kept@[a]).0@ != (#[trigger] kept@[b]).0@ by {
                        if b == kept@.len() - 1 {
                            assert(kept@[a] == before[a]);
                            let w = choose|w: int| 0 <= w < i && (#[trigger] before[a]).0@ == old_recent[w].0;
                            assert(old_recent[w].0 != old_recent[i as int].0);
                        } else {
                            assert(kept@[a] == before[a] && kept@[b] == before[b]);
                        }
                    }
                    assert forall|a: int| 0 <= a < kept@.len() implies exists|b: int|
                        0 <= b < i + 1 && (#[trigger] kept@[a]).0@ == old_recent[b].0 by {
                        if a < before.len() {
                            assert(kept@[a] == before[a]);
                            let w = choose|w: int| 0 <= w < i && (#[trigger] before[a]).0@ == old_recent[w].0;
                        } else {
                            assert(kept@[a].0@ == old_recent[i as int].0);
                        }
                    }
                }
            } else {
                proof {
                    assert forall|a: int| 0 <= a < kept@.len() implies exists|b: int|
                        0 <= b < i + 1 && (#[trigger] kept@[a]).0@ == old_recent[b].0 by {
                        let w = choose|w: int| 0 <= w < i && (#[trigger] kept@[a]).0@ == old_recent[w].0;
                    }
                }
            }
            i = i + 1;
        }
        proof {
            assert(old_recent.subrange(0, i as int) =~= old_recent);
        }
        self.recent = kept;
        proof {
            let kv = self.spec_recent().map_values(|e: (Seq<char>, Duration)| e.0);
            assert forall|a: int, b: int|
                0 <= a < kv.len() && 0 <= b < kv.len() && a != b implies kv[a] != kv[b] by {
                if a < b {
                    assert(kv[a] == self.recent@[a].0@ && kv[b] == self.recent@[b].0@);
                } else {
                    assert(kv[a] == self.recent@[a].0@ && kv[b] == self.recent@[b].0@);
                }
            }
        }
        match self.recent_position(&key) {
            Some(_) => Err(PairingError::RateLimited),
            None => {
                let ghost before = self.spec_active();
                self.active.push(copy_key(&key));
                proof {
                    assert(self.spec_active() =~= before.push(key@));
                }
                Ok(Some(key))
            },
        }
    }

    /// Ends the attempt for a peer at `now`. It is no longer running and is
    /// remembered as ended at `now`; when the memory is full and the peer
    /// is not in it, an attempt that ended earliest is forgotten first.
    pub fn release(&mut self, key: &Vec<char>, now: Duration)
        requires
            old(self).wf(),
        ensures
            final(self).wf(),
            final(self).spec_active() == (if old(self).spec_active().contains(key@) {
                old(self).spec_active().remove(old(self).spec_active().index_of(key@))
            } else {
                old(self).spec_active()
            }),
            ({
                let r0 = old(self).spec_recent();
                exists|r1: Seq<(Seq<char>, Duration)>| {
                    &&& if r0.len() >= MAX_RECENT_PEER_ATTEMPTS && !has_recent(r0, key@) {
                        exists|m: int|
                            0 <= m < r0.len() && r1 == r0.remove(m) && forall|q: int|
                                0 <= q < r0.len() ==> (#[trigger] r0[q]).1.spec_nanos() >= r0[m].1.spec_nanos()
                    } else {
                        r1 == r0
                    }
                    &&& final(self).spec_recent() == if has_recent(r1, key@) {
                        r1.update(recent_index(r1, key@), (key@, now))
                    } else {
                        r1.push((key@, now))
                    }
                }
            }),
    {
        let ghost a0 = self.spec_active();
        match self.active_position(key) {
            Some(i) => {
                proof {
                    assert(a0.contains(key@));
                    assert(a0.index_of(key@) == i) by {
                        let w = a0.index_of(key@);
                        assert(a0[w] == key@);
                        if w != i {
                            assert(a0.no_duplicates());
                        }
                    }
                }
                self.active.remove(i);
                proof {
                    assert(self.spec_active() =~= a0.remove(i as int));
                }
            },
            None => {},
        }
        let ghost r0 = self.spec_recent();
        let present = self.recent_position(key).is_some();
        if self.recent.len() >= MAX_RECENT_PEER_ATTEMPTS && !present {
            let mut m: usize = 0;
            let mut i: usize = 1;
            while i < self.recent.len()
                invariant
                    r0 == self.spec_recent(),
                    0 < r0.len(),
                    m < i <= r0.len(),
                    forall|q: int| 0 <= q < i ==> (#[trigger] r0[q]).1.spec_nanos() >= r0[m as int].1.spec_nanos(),
                decreases r0.len() - i,
            {
                assert(r0[i as int].1 == self.recent@[i as int].1 && r0[m as int].1 == self.recent@[m as int].1);
                if self.recent[i].1.as_nanos() < self.recent[m].1.as_nanos() {
                    m = i;
                }
                i = i + 1;
            }
            self.recent.remove(m);
            proof {
                assert(self.spec_recent() =~= r0.remove(m as int));
                assert(exists|mm: int|
                    0 <= mm < r0.len() && self.spec_recent() == r0.remove(mm) && forall|q: int|
                        0 <= q < r0.len() ==> (#[trigger] r0[q]).1.spec_nanos() >= r0[mm].1.spec_nanos());
            }
        }
        let ghost r1 = self.spec_recent();
        assert(if r0.len() >= MAX_RECENT_PEER_ATTEMPTS && !has_recent(r0, key@) {
            exists|mm: int|
                0 <= mm < r0.len() && r1 == r0.remove(mm) && forall|q: int|
                    0 <= q < r0.len() ==> (#[trigger] r0[q]).1.spec_nanos() >= r0[mm].1.spec_nanos()
        } else {
            r1 == r0
        });
        proof {
            let kv = r1.map_values(|e: (Seq<char>, Duration)| e.0);
            let k0 = r0.map_values(|e: (Seq<char>, Duration)| e.0);
            assert forall|a: int, b: int| 0 <= a < kv.len() && 0 <= b < kv.len() && a != b implies kv[a]
                != kv[b] by {
                if r1.len() < r0.len() {
                    let m = choose|m: int| 0 <= m < r0.len() && r1 == r0.remove(m);
                    let oa = if a < m {
                        a
                    } else {
                        a + 1
                    };
                    let ob = if b < m {
                        b
                    } else {
                        b + 1
                    };
                    assert(kv[a] == k0[oa] && kv[b] == k0[ob]);
                } else {
                    assert(kv[a] == k0[a] && kv[b] == k0[b]);
                }
            }
        }
        match self.recent_position(key) {
            Some(j) => {
                proof {
                    let c = recent_index(r1, key@);
                    let kv = r1.map_values(|e: (Seq<char>, Duration)| e.0);
                    if c != j {
                        assert(kv[c] == r1[c].0 && kv[j as int] == r1[j as int].0);
                    }
                }
                self.recent.set(j, (copy_key(key), now));
                proof {
                    assert(self.spec_recent() =~= r1.update(j as int, (key@, now)));
                    assert(recent_index(r1, key@) == j);
                    assert(has_recent(r1, key@));
                    let kv = self.spec_recent().map_values(|e: (Seq<char>, Duration)| e.0);
                    let k1 = r1.map_values(|e: (Seq<char>, Duration)| e.0);
                    assert forall|a: int, b: int|
                        0 <= a < kv.len() && 0 <= b < kv.len() && a != b implies kv[a] != kv[b] by {
                        assert(kv[a] == k1[a] && kv[b] == k1[b]);
                    }
                }
            },
            None => {
                self.recent.push((copy_key(key), now));
                proof {
                    assert(self.spec_recent() =~= r1.push((key@, now)));
                    assert(!has_recent(r1, key@));
                    let kv = self.spec_recent().map_values(|e: (Seq<char>, Duration)| e.0);
                    let k1 = r1.map_values(|e: (Seq<char>, Duration)| e.0);
                    assert forall|a: int, b: int|
                        0 <= a < kv.len() && 0 <= b < kv.len() && a != b implies kv[a] != kv[b] by {
                        if a < r1.len() && b < r1.len() {
                            assert(kv[a] == k1[a] && kv[b] == k1[b]);
                        } else if a < r1.len() {
                            assert(kv[a] == r1[a].0);
                        } else {
                            assert(kv[b] == r1[b].0);
                        }
                    }
                }
            },
        }
    }
}

// ---------------------------------------------------------------------------
// Candidate addresses of an initiator
// ---------------------------------------------------------------------------

/// The delay before the `i`-th candidate starts: 150 ms per place in line,
/// saturating.
pub open spec fn candidate_delay_millis(i: int) -> int {
    if i * 150 > u64::MAX {
        u64::MAX as int
    } else {
        i * 150
    }
}

/// The race of an initiator's remaining addresses, staggered in order.
pub fn initiator_candidates(addresses: &Vec<SocketAddr>) -> (r: Vec<ConnectionCandidate<SocketAddr>>)
    ensures
        r@.len() == addresses@.len(),
        forall|i: int|
            0 <= i < r@.len() ==> (#[trigger] r@[i]).endpoint == addresses@[i]
                && r@[i].start_delay.spec_nanos() == candidate_delay_millis(i) * NANOS_PER_MILLI,
{
    let mut out: Vec<ConnectionCandidate<SocketAddr>> = Vec::new();
    let mut i: usize = 0;
    while i < addresses.len()
        invariant
            i <= addresses@.len(),
            out@.len() == i,
            forall|k: int|
                0 <= k < i ==> (#[trigger] out@[k]).endpoint == addresses@[k]
                    && out@[k].start_delay.spec_nanos() == candidate_delay_millis(k)
                    * NANOS_PER_MILLI,
        decreases addresses@.len() - i,
    {
        let millis: u64 = if i as u64 > u64::MAX / 150 {
            u64::MAX
        } else {
            (i as u64) * 150
        };
        out.push(
            ConnectionCandidate { endpoint: addresses[i], start_delay: crate::time::Duration::from_millis(millis) },
        );
        i = i + 1;
    }
    out
}

impl SocketAddr {
    /// Whether two socket addresses are the same.
    pub fn same_as(&self, other: &SocketAddr) -> (r: bool)
        ensures
            r == (*self == *other),
    {
        let a = self.key();
        let b = other.key();
        let eq = crate::be_bytes::bytes_equal(a.as_slice(), b.as_slice());
        proof {
            if eq {
                lemma_address_key_injective(*self, *other);
            }
        }
        eq
    }
}

/// The addresses left once `selected` has been tried, in order.
pub open spec fn without_address(s: Seq<SocketAddr>, selected: SocketAddr) -> Seq<SocketAddr>
    decreases s.len(),
{
    if s.len() == 0 {
        s
    } else {
        let rest = without_address(s.drop_last(), selected);
        if s.last() != selected {
            rest.push(s.last())
        } else {
            rest
        }
    }
}

pub fn remaining_addresses(addresses: &Vec<SocketAddr>, selected: &SocketAddr) -> (r: Vec<SocketAddr>)
    ensures
        r@ == without_address(addresses@, *selected),
{
    let mut out: Vec<SocketAddr> = Vec::new();
    let mut i: usize = 0;
    while i < addresses.len()
        invariant
            i <= addresses@.len(),
            out@ == without_address(addresses@.subrange(0, i as int), *selected),
        decreases addresses@.len() - i,
    {
        proof {
            assert(addresses@.subrange(0, i + 1).drop_last() =~= addresses@.subrange(0, i as int));
        }
        if !addresses[i].same_as(selected) {
            out.push(addresses[i]);
        }
        i = i + 1;
    }
    proof {
        assert(addresses@.subrange(0, i as int) =~= addresses@);
    }
    out
}

/// An initiator moves on to the next candidate address only after a
/// failure another address may not repeat, while addresses remain and the
/// attempt was not cancelled.
pub fn try_next_candidate(error: &PairingFlowError, addresses_remain: bool, cancelled: bool) -> (r: bool)
    ensures
        r == (spec_recoverable(*error) && addresses_remain && !cancelled),
{
    crate::transport::pairing_flow::is_recoverable_candidate_failure(error) && addresses_remain
        && !cancelled
}

/// A peer reference names a presence in at most 64 bytes.
pub fn check_peer_reference(reference: &str) -> (r: Result<(), PairingError>)
    ensures
        r is Ok <==> 0 < reference.spec_bytes().len() <= 64,
        r is Err ==> r == Err::<(), PairingError>(PairingError::InvalidPeerReference),
{
    let n = reference.as_bytes().len();
    if n == 0 || n > 64 {
        Err(PairingError::InvalidPeerReference)
    } else {
        Ok(())
    }
}

/// The addresses an initiator tries, in the order given: those the caller
/// marked local, each once, at most `MAX_CANDIDATES`.
pub open spec fn connect_addresses(s: Seq<SocketAddr>, local: Seq<bool>) -> Seq<SocketAddr>
    decreases s.len(),
{
    if s.len() == 0 {
        s
    } else {
        let rest = connect_addresses(s.drop_last(), local);
        if local[s.len() - 1] && !rest.contains(s.last()) && rest.len() < MAX_CANDIDATES {
            rest.push(s.last())
        } else {
            rest
        }
    }
}

/// Picks the addresses to race for an initiator; none is an error.
pub fn select_connect_addresses(endpoints: &Vec<SocketAddr>, local: &Vec<bool>) -> (r: Result<
    Vec<SocketAddr>,
    PairingError,
>)
    requires
        local@.len() == endpoints@.len(),
    ensures
        connect_addresses(endpoints@, local@).len() == 0 ==> r == Err::<Vec<SocketAddr>, PairingError>(
            PairingError::NoEndpoints,
        ),
        connect_addresses(endpoints@, local@).len() > 0 ==> (r matches Ok(v) && v@
            == connect_addresses(endpoints@, local@)),
{
    let mut out: Vec<SocketAddr> = Vec::new();
    let mut i: usize = 0;
    while i < endpoints.len()
        invariant
            i <= endpoints@.len(),
            local@.len() == endpoints@.len(),
            out@ == connect_addresses(endpoints@.subrange(0, i as int), local@),
        decreases endpoints@.len() - i,
    {
        let ghost prefix = endpoints@.subrange(0, i + 1);
        proof {
            assert(prefix.drop_last() =~= endpoints@.subrange(0, i as int));
            assert(prefix.last() == endpoints@[i as int]);
        }
        if local[i] && out.len() < MAX_CANDIDATES {
            let candidate = endpoints[i];
            let mut seen = false;
            let mut k: usize = 0;
            while k < out.len()
                invariant
                    k <= out@.len(),
                    candidate == endpoints@[i as int],
                    seen == exists|q: int| 0 <= q < k && out@[q] == candidate,
                decreases out@.len() - k,
            {
                if out[k].same_as(&candidate) {
                    seen = true;
                }
                k = k + 1;
            }
            if !seen {
                out.push(candidate);
            }
        }
        i = i + 1;
    }
    assert(endpoints@.subrange(0, i as int) =~= endpoints@);
    if out.len() == 0 {
        return Err(PairingError::NoEndpoints);
    }
    Ok(out)
}

} // verus!
