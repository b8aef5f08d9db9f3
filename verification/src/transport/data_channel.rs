//! Data-channel candidates and the broker's rules: which candidates may be
//! raced at all, in what order, and which established paths are kept.
//! Only local-network and peer-to-peer paths are ever used.

use vstd::prelude::*;

use crate::time::{Duration, NANOS_PER_MILLI};

verus! {

pub const MAX_PROVIDERS: usize = 8;

pub const MAX_CANDIDATES: usize = 8;

pub const MAX_SYSTEM_PROMPT_ATTEMPTS: usize = 4;

/// Delay between the starts of successive candidate attempts.
pub const CANDIDATE_STAGGER_MILLIS: u64 = 100;

/// Opaque correlation with one untrusted discovery presence.
#[derive(Clone, Copy, Debug, PartialEq, Eq, Hash, PartialOrd, Ord)]
pub struct DataChannelPeer(pub [u8; 16]);

impl DataChannelPeer {
    pub fn from_bytes(bytes: [u8; 16]) -> (r: Self)
        ensures
            r.0 == bytes,
    {
        DataChannelPeer(bytes)
    }

    pub fn as_bytes(&self) -> (r: &[u8; 16])
        ensures
            *r == self.0,
    {
        &self.0
    }

    pub fn same_as(&self, other: &Self) -> (r: bool)
        ensures
            r == (*self == *other),
    {
        let eq = crate::be_bytes::bytes_equal(self.0.as_slice(), other.0.as_slice());
        proof {
            if eq {
                assert forall|i: int| 0 <= i < 16 implies self.0[i] == other.0[i] by {
                    assert(self.0@[i] == other.0@[i]);
                }
                assert(self.0 =~= other.0);
            }
        }
        eq
    }
}

/// Opaque identifier meaningful only to the provider that produced it.
#[derive(Clone, Copy, Debug, PartialEq, Eq, Hash, PartialOrd, Ord)]
pub struct DataChannelCandidateId(pub [u8; 16]);

impl DataChannelCandidateId {
    pub fn from_bytes(bytes: [u8; 16]) -> (r: Self)
        ensures
            r.0 == bytes,
    {
        DataChannelCandidateId(bytes)
    }

    pub fn as_bytes(&self) -> (r: &[u8; 16])
        ensures
            *r == self.0,
    {
        &self.0
    }
}

/// Lexicographic order of byte strings of one length.
pub open spec fn bytes_lt(a: Seq<u8>, b: Seq<u8>) -> bool {
    exists|k: int|
        0 <= k < a.len() && k < b.len() && a[k] < b[k] && #[trigger] a.subrange(0, k) == b.subrange(
            0,
            k,
        )
}

fn bytes_less(a: &[u8; 16], b: &[u8; 16]) -> (r: bool)
    ensures
        r == bytes_lt(a@, b@),
{
    let mut i: usize = 0;
    while i < 16
        invariant
            i <= 16,
            a@.subrange(0, i as int) == b@.subrange(0, i as int),
        decreases 16 - i,
    {
        if a[i] != b[i] {
            proof {
                if a[i as int] < b[i as int] {
                    assert(0 <= i < 16 && a@[i as int] < b@[i as int] && a@.subrange(0, i as int)
                        == b@.subrange(0, i as int));
                } else {
                    assert forall|k: int|
                        0 <= k < a@.len() && k < b@.len() && a@[k] < b@[k] implies #[trigger] a@.subrange(
                        0,
                        k,
                    ) != b@.subrange(0, k) by {
                        if k > i {
                            assert(a@.subrange(0, k)[i as int] != b@.subrange(0, k)[i as int]);
                        } else if k < i {
                            assert(a@.subrange(0, i as int)[k] == b@.subrange(0, i as int)[k]);
                        }
                    }
                }
            }
            return a[i] < b[i];
        }
        proof {
            assert(a@.subrange(0, i + 1) =~= a@.subrange(0, i as int).push(a@[i as int]));
            assert(b@.subrange(0, i + 1) =~= b@.subrange(0, i as int).push(b@[i as int]));
        }
        i = i + 1;
    }
    proof {
        assert forall|k: int|
            0 <= k < a@.len() && k < b@.len() && a@[k] < b@[k] implies #[trigger] a@.subrange(0, k)
            != b@.subrange(0, k) by {
            assert(a@.subrange(0, 16)[k] == b@.subrange(0, 16)[k]);
        }
    }
    false
}

#[derive(Clone, Copy, Debug, PartialEq, Eq, Structural, Hash, PartialOrd, Ord)]
pub enum DataChannelKind {
    Lan,
    ApplePeerToPeer,
    WifiDirect,
    WifiAware,
}

/// Runtime provider state. One unavailable provider never prevents another
/// from establishing a channel.
#[derive(Clone, Copy, Debug, PartialEq, Eq, Structural)]
pub enum DataChannelCapabilityState {
    Starting,
    Ready,
    PermissionRequired,
    PermissionDenied,
    HardwareOff,
    Unsupported,
    TemporarilyUnavailable,
    Failed,
    Stopped,
}

#[derive(Clone, Copy, Debug, PartialEq, Eq, Structural)]
pub struct DataChannelCapability {
    pub kind: DataChannelKind,
    pub state: DataChannelCapabilityState,
}

#[derive(Clone, Copy, Debug, PartialEq, Eq, Structural)]
pub enum DataChannelPathClass {
    LocalNetwork,
    PeerToPeer,
    Cellular,
    Internet,
    Unknown,
}

/// Which kind of local network a platform pinned a socket to: one shared
/// with others, or a local-only hotspot the user approved.
#[derive(Clone, Copy, Debug, PartialEq, Eq, Structural)]
pub enum LocalNetworkScope {
    Shared,
    UserApprovedHotspot,
}

#[derive(Clone, Copy, Debug, PartialEq, Eq, Structural)]
pub enum DataChannelCost {
    Unmetered,
    Metered,
    Unknown,
}

#[derive(Clone, Copy, Debug, PartialEq, Eq, Structural)]
pub struct EstablishedPathProperties {
    pub path_class: DataChannelPathClass,
    pub cost: DataChannelCost,
    /// True only when the provider pinned the connection to the interface
    /// or OS network object it validated.
    pub interface_bound: bool,
}

#[derive(Clone, Copy, Debug, PartialEq, Eq, Structural)]
pub enum DataChannelError {
    InvalidConfiguration,
    ProhibitedPath,
    NoCandidates,
    Unavailable,
    Cancelled,
    Timeout,
    ProviderFailed,
    AuthenticationFailed,
    PeerIdentityChanged,
    UserRejected,
}

/// Only local-network and peer-to-peer paths may carry Halo data.
pub open spec fn path_allowed(path: DataChannelPathClass) -> bool {
    path == DataChannelPathClass::LocalNetwork || path == DataChannelPathClass::PeerToPeer
}

pub fn is_allowed_path(path: DataChannelPathClass) -> (r: bool)
    ensures
        r == path_allowed(path),
{
    match path {
        DataChannelPathClass::LocalNetwork | DataChannelPathClass::PeerToPeer => true,
        _ => false,
    }
}

#[derive(Clone, Copy, Debug, PartialEq, Eq, Structural)]
pub struct DataChannelPolicy {
    pub allow_metered: bool,
    pub allow_unknown_cost: bool,
    pub allow_system_prompt: bool,
    pub max_system_prompt_attempts: usize,
    pub require_interface_binding: bool,
}

impl Default for DataChannelPolicy {
    fn default() -> (r: Self)
        ensures
            r == (DataChannelPolicy {
                allow_metered: false,
                allow_unknown_cost: false,
                allow_system_prompt: true,
                max_system_prompt_attempts: 1,
                require_interface_binding: true,
            }),
    {
        DataChannelPolicy {
            allow_metered: false,
            allow_unknown_cost: false,
            allow_system_prompt: true,
            max_system_prompt_attempts: 1,
            require_interface_binding: true,
        }
    }
}

impl DataChannelPolicy {
    pub open spec fn spec_allows_cost(self, cost: DataChannelCost) -> bool {
        match cost {
            DataChannelCost::Unmetered => true,
            DataChannelCost::Metered => self.allow_metered,
            DataChannelCost::Unknown => self.allow_unknown_cost,
        }
    }

    /// Accepts at most four system-prompt attempts.
    pub fn validate(self) -> (r: Result<Self, DataChannelError>)
        ensures
            r == (if self.max_system_prompt_attempts <= MAX_SYSTEM_PROMPT_ATTEMPTS {
                Ok::<Self, DataChannelError>(self)
            } else {
                Err(DataChannelError::InvalidConfiguration)
            }),
    {
        if self.max_system_prompt_attempts > MAX_SYSTEM_PROMPT_ATTEMPTS {
            return Err(DataChannelError::InvalidConfiguration);
        }
        Ok(self)
    }

    /// Unmetered paths are always acceptable; metered and unknown-cost
    /// paths only where the policy allows them.
    pub fn allows_cost(self, cost: DataChannelCost) -> (r: bool)
        ensures
            r == self.spec_allows_cost(cost),
    {
        match cost {
            DataChannelCost::Unmetered => true,
            DataChannelCost::Metered => self.allow_metered,
            DataChannelCost::Unknown => self.allow_unknown_cost,
        }
    }
}

#[derive(Clone, Copy, Debug, PartialEq, Eq)]
pub struct DataChannelCandidateProperties {
    pub path_class: DataChannelPathClass,
    pub cost: DataChannelCost,
    pub already_available: bool,
    pub requires_user_action: bool,
    pub estimated_round_trip_time: Option<Duration>,
}

/// One provider-owned path candidate. It is not authenticated and is never
/// a trusted peer until the later Halo handshake succeeds.
#[derive(Clone, Copy, Debug, PartialEq, Eq)]
pub struct DataChannelCandidate {
    id: DataChannelCandidateId,
    peer: DataChannelPeer,
    kind: DataChannelKind,
    path_class: DataChannelPathClass,
    cost: DataChannelCost,
    already_available: bool,
    requires_user_action: bool,
    estimated_round_trip_time: Option<Duration>,
}

impl DataChannelCandidate {
    pub closed spec fn spec_id(self) -> DataChannelCandidateId {
        self.id
    }

    pub closed spec fn spec_peer(self) -> DataChannelPeer {
        self.peer
    }

    pub closed spec fn spec_kind(self) -> DataChannelKind {
        self.kind
    }

    pub closed spec fn spec_properties(self) -> DataChannelCandidateProperties {
        DataChannelCandidateProperties {
            path_class: self.path_class,
            cost: self.cost,
            already_available: self.already_available,
            requires_user_action: self.requires_user_action,
            estimated_round_trip_time: self.estimated_round_trip_time,
        }
    }

    /// Every candidate that can exist uses an allowed path.
    pub closed spec fn wf(self) -> bool {
        path_allowed(self.path_class)
    }

    pub proof fn lemma_wf_path(self)
        requires
            self.wf(),
        ensures
            path_allowed(self.spec_properties().path_class),
    {
    }

    /// Creates a candidate; any path other than local network or
    /// peer-to-peer is refused here, before a broker ever sees it.
    pub fn new(
        id: DataChannelCandidateId,
        peer: DataChannelPeer,
        kind: DataChannelKind,
        properties: DataChannelCandidateProperties,
    ) -> (r: Result<Self, DataChannelError>)
        ensures
            r is Ok <==> path_allowed(properties.path_class),
            r matches Ok(c) ==> c.spec_id() == id && c.spec_peer() == peer && c.spec_kind() == kind
                && c.spec_properties() == properties && c.wf(),
            r matches Err(e) ==> e == DataChannelError::ProhibitedPath,
    {
        if !is_allowed_path(properties.path_class) {
            return Err(DataChannelError::ProhibitedPath);
        }
        Ok(
            DataChannelCandidate {
                id,
                peer,
                kind,
                path_class: properties.path_class,
                cost: properties.cost,
                already_available: properties.already_available,
                requires_user_action: properties.requires_user_action,
                estimated_round_trip_time: properties.estimated_round_trip_time,
            },
        )
    }

    pub fn id(&self) -> (r: DataChannelCandidateId)
        ensures
            r == self.spec_id(),
    {
        self.id
    }

    pub fn peer(&self) -> (r: DataChannelPeer)
        ensures
            r == self.spec_peer(),
    {
        self.peer
    }

    pub fn kind(&self) -> (r: DataChannelKind)
        ensures
            r == self.spec_kind(),
    {
        self.kind
    }

    pub fn path_class(&self) -> (r: DataChannelPathClass)
        ensures
            r == self.spec_properties().path_class,
    {
        self.path_class
    }

    pub fn cost(&self) -> (r: DataChannelCost)
        ensures
            r == self.spec_properties().cost,
    {
        self.cost
    }

    pub fn already_available(&self) -> (r: bool)
        ensures
            r == self.spec_properties().already_available,
    {
        self.already_available
    }

    pub fn requires_user_action(&self) -> (r: bool)
        ensures
            r == self.spec_properties().requires_user_action,
    {
        self.requires_user_action
    }

    pub fn estimated_round_trip_time(&self) -> (r: Option<Duration>)
        ensures
            r == self.spec_properties().estimated_round_trip_time,
    {
        self.estimated_round_trip_time
    }
}

/// How strongly a candidate is preferred: local network over peer-to-peer,
/// an existing path, no prompt, no cost and low latency score higher.
pub open spec fn spec_candidate_score(p: DataChannelCandidateProperties) -> int {
    let base: int = match p.path_class {
        DataChannelPathClass::LocalNetwork => 300,
        DataChannelPathClass::PeerToPeer => 250,
        _ => i32::MIN as int,
    };
    let available: int = if p.already_available {
        200
    } else {
        0
    };
    let automatic: int = if !p.requires_user_action {
        50
    } else {
        0
    };
    let cost: int = match p.cost {
        DataChannelCost::Unmetered => 30,
        DataChannelCost::Metered => 0,
        DataChannelCost::Unknown => -20,
    };
    let latency: int = match p.estimated_round_trip_time {
        Some(d) => if d.spec_nanos() <= 20 * NANOS_PER_MILLI {
            40
        } else if d.spec_nanos() <= 100 * NANOS_PER_MILLI {
            25
        } else if d.spec_nanos() <= 500 * NANOS_PER_MILLI {
            10
        } else {
            0
        },
        None => 0,
    };
    base + available + automatic + cost + latency
}

pub fn candidate_score(candidate: &DataChannelCandidate) -> (r: i32)
    requires
        candidate.wf(),
    ensures
        r == spec_candidate_score(candidate.spec_properties()),
{
    let mut score: i32 = match candidate.path_class {
        DataChannelPathClass::LocalNetwork => 300,
        _ => 250,
    };
    if candidate.already_available {
        score = score + 200;
    }
    if !candidate.requires_user_action {
        score = score + 50;
    }
    score = score + match candidate.cost {
        DataChannelCost::Unmetered => 30,
        DataChannelCost::Metered => 0,
        DataChannelCost::Unknown => -20,
    };
    score = score + match candidate.estimated_round_trip_time {
        Some(d) => {
            let n = d.as_nanos();
            if n <= 20 * NANOS_PER_MILLI {
                40
            } else if n <= 100 * NANOS_PER_MILLI {
                25
            } else if n <= 500 * NANOS_PER_MILLI {
                10
            } else {
                0
            }
        },
        None => 0,
    };
    score
}

/// The same path properties with another estimated round trip.
pub open spec fn with_round_trip(
    p: DataChannelCandidateProperties,
    rtt: Option<Duration>,
) -> DataChannelCandidateProperties {
    DataChannelCandidateProperties {
        path_class: p.path_class,
        cost: p.cost,
        already_available: p.already_available,
        requires_user_action: p.requires_user_action,
        estimated_round_trip_time: rtt,
    }
}

/// One round trip is in a faster latency band than another: they lie on
/// either side of 20, 100 or 500 ms.
pub open spec fn faster_band(a: Duration, b: Duration) -> bool {
    ||| a.spec_nanos() <= 20 * NANOS_PER_MILLI < b.spec_nanos()
    ||| a.spec_nanos() <= 100 * NANOS_PER_MILLI < b.spec_nanos()
    ||| a.spec_nanos() <= 500 * NANOS_PER_MILLI < b.spec_nanos()
}

/// Lower latency is preferred. Of two paths alike but for the estimated
/// round trip, a shorter one never scores lower, and a shorter one in a
/// faster band scores strictly higher; a known round trip never scores
/// below an unknown one, and one of at most 20 ms adds exactly 40 to it.
pub proof fn lemma_lower_latency_scores_higher(
    p: DataChannelCandidateProperties,
    a: Duration,
    b: Duration,
)
    ensures
        a.spec_nanos() <= b.spec_nanos() ==> spec_candidate_score(with_round_trip(p, Some(a)))
            >= spec_candidate_score(with_round_trip(p, Some(b))),
        faster_band(a, b) ==> spec_candidate_score(with_round_trip(p, Some(a)))
            > spec_candidate_score(with_round_trip(p, Some(b))),
        spec_candidate_score(with_round_trip(p, Some(a))) >= spec_candidate_score(
            with_round_trip(p, None),
        ),
        a.spec_nanos() <= 20 * NANOS_PER_MILLI ==> spec_candidate_score(
            with_round_trip(p, Some(a)),
        ) == spec_candidate_score(with_round_trip(p, None)) + 40,
{
}

/// Of two candidates alike but for the estimated round trip, the one in a
/// faster latency band is raced first, whatever their ids.
pub proof fn lemma_faster_band_raced_first(
    fast: DataChannelCandidate,
    slow: DataChannelCandidate,
    a: Duration,
    b: Duration,
)
    requires
        fast.spec_properties().estimated_round_trip_time == Some(a),
        slow.spec_properties() == with_round_trip(fast.spec_properties(), Some(b)),
        faster_band(a, b),
    ensures
        ranks_before(fast, slow),
        !ranks_before(slow, fast),
{
    lemma_lower_latency_scores_higher(fast.spec_properties(), a, b);
    assert(with_round_trip(fast.spec_properties(), Some(a)) == fast.spec_properties());
}

/// Whether the broker races a candidate a provider offered: it is for the
/// requested peer, of the provider's own kind, on an allowed path, at an
/// acceptable cost, and needs no system prompt unless prompts are allowed.
pub open spec fn spec_candidate_eligible(
    policy: DataChannelPolicy,
    peer: DataChannelPeer,
    provider_kind: DataChannelKind,
    c: DataChannelCandidate,
) -> bool {
    &&& c.spec_peer() == peer
    &&& c.spec_kind() == provider_kind
    &&& path_allowed(c.spec_properties().path_class)
    &&& policy.spec_allows_cost(c.spec_properties().cost)
    &&& (!c.spec_properties().requires_user_action || (policy.allow_system_prompt
        && policy.max_system_prompt_attempts > 0))
}

pub fn candidate_eligible(
    policy: &DataChannelPolicy,
    peer: &DataChannelPeer,
    provider_kind: DataChannelKind,
    candidate: &DataChannelCandidate,
) -> (r: bool)
    ensures
        r == spec_candidate_eligible(*policy, *peer, provider_kind, *candidate),
{
    candidate.peer.same_as(peer) && candidate.kind == provider_kind && is_allowed_path(
        candidate.path_class,
    ) && policy.allows_cost(candidate.cost) && (!candidate.requires_user_action || (
    policy.allow_system_prompt && policy.max_system_prompt_attempts > 0))
}

/// Whether an established bearer is kept: it must be exactly the path the
/// candidate promised, still allowed and affordable, and pinned to its
/// interface when the policy demands it. Anything else is closed.
pub open spec fn spec_path_accepted(
    policy: DataChannelPolicy,
    candidate: DataChannelCandidate,
    channel_kind: DataChannelKind,
    channel_peer: DataChannelPeer,
    properties: EstablishedPathProperties,
) -> bool {
    &&& channel_kind == candidate.spec_kind()
    &&& channel_peer == candidate.spec_peer()
    &&& properties.path_class == candidate.spec_properties().path_class
    &&& properties.cost == candidate.spec_properties().cost
    &&& path_allowed(properties.path_class)
    &&& policy.spec_allows_cost(properties.cost)
    &&& (!policy.require_interface_binding || properties.interface_bound)
}

pub fn path_accepted(
    policy: &DataChannelPolicy,
    candidate: &DataChannelCandidate,
    channel_kind: DataChannelKind,
    channel_peer: &DataChannelPeer,
    properties: &EstablishedPathProperties,
) -> (r: bool)
    ensures
        r == spec_path_accepted(*policy, *candidate, channel_kind, *channel_peer, *properties),
{
    channel_kind == candidate.kind && channel_peer.same_as(&candidate.peer) && properties.path_class
        == candidate.path_class && properties.cost == candidate.cost && is_allowed_path(
        properties.path_class,
    ) && policy.allows_cost(properties.cost) && (!policy.require_interface_binding
        || properties.interface_bound)
}

/// Errors that end the whole broker attempt at once instead of letting the
/// next candidate try.
pub fn ends_race(error: &DataChannelError) -> (r: bool)
    ensures
        r == (*error == DataChannelError::PeerIdentityChanged || *error
            == DataChannelError::UserRejected || *error == DataChannelError::Cancelled),
{
    match error {
        DataChannelError::PeerIdentityChanged | DataChannelError::UserRejected
        | DataChannelError::Cancelled => true,
        _ => false,
    }
}

/// A broker needs one to eight providers and a non-zero attempt timeout.
pub fn validate_broker(provider_count: usize, attempt_timeout: Duration) -> (r: Result<
    (),
    DataChannelError,
>)
    ensures
        r is Ok <==> 1 <= provider_count <= MAX_PROVIDERS && attempt_timeout.spec_nanos() != 0,
        r matches Err(e) ==> e == DataChannelError::InvalidConfiguration,
{
    if provider_count == 0 || provider_count > MAX_PROVIDERS || attempt_timeout.is_zero() {
        Err(DataChannelError::InvalidConfiguration)
    } else {
        Ok(())
    }
}

/// Whether `a` is raced before `b`: higher score first, then lower id.
pub open spec fn ranks_before(a: DataChannelCandidate, b: DataChannelCandidate) -> bool {
    spec_candidate_score(a.spec_properties()) > spec_candidate_score(b.spec_properties()) || (
    spec_candidate_score(a.spec_properties()) == spec_candidate_score(b.spec_properties())
        && bytes_lt(a.spec_id().0@, b.spec_id().0@))
}

fn ranks_before_exec(a: &DataChannelCandidate, b: &DataChannelCandidate) -> (r: bool)
    requires
        a.wf(),
        b.wf(),
    ensures
        r == ranks_before(*a, *b),
{
    let sa = candidate_score(a);
    let sb = candidate_score(b);
    sa > sb || (sa == sb && bytes_less(&a.id.0, &b.id.0))
}

/// No candidate is followed by one that ranks strictly before it.
pub open spec fn race_ordered(s: Seq<DataChannelCandidate>) -> bool {
    forall|i: int, j: int| 0 <= i < j < s.len() ==> !ranks_before(#[trigger] s[j], #[trigger] s[i])
}

pub open spec fn all_wf(s: Seq<DataChannelCandidate>) -> bool {
    forall|i: int| 0 <= i < s.len() ==> #[trigger] s[i].wf()
}

/// Orders candidates for racing: best score first, ties by id. The result
/// holds exactly the given candidates.
pub fn order_candidates(candidates: Vec<DataChannelCandidate>) -> (r: Vec<DataChannelCandidate>)
    requires
        all_wf(candidates@),
    ensures
        r@.to_multiset() == candidates@.to_multiset(),
        r@.len() == candidates@.len(),
        race_ordered(r@),
        all_wf(r@),
{
    broadcast use vstd::seq_lib::group_seq_properties;

    let mut out: Vec<DataChannelCandidate> = Vec::new();
    let mut i: usize = 0;
    assert(candidates@.subrange(0, 0) =~= Seq::<DataChannelCandidate>::empty());
    assert(out@ =~= Seq::<DataChannelCandidate>::empty());
    while i < candidates.len()
        invariant
            i <= candidates@.len(),
            all_wf(candidates@),
            all_wf(out@),
            race_ordered(out@),
            out@.len() == i,
            out@.to_multiset() == candidates@.subrange(0, i as int).to_multiset(),
        decreases candidates@.len() - i,
    {
        let c = candidates[i];
        let mut j: usize = 0;
        while j < out.len() && !ranks_before_exec(&c, &out[j])
            invariant
                j <= out@.len(),
                c.wf(),
                all_wf(out@),
                forall|k: int| 0 <= k < j ==> !ranks_before(c, #[trigger] out@[k]),
            decreases out@.len() - j,
        {
            j = j + 1;
        }
        let ghost before = out@;
        proof {
            assert(forall|k: int| 0 <= k < j ==> !ranks_before(c, #[trigger] before[k]));
            if j < before.len() {
                assert(ranks_before(c, before[j as int]));
            }
            lemma_ranks_before_order(before, c, j as int);
        }
        out.insert(j, c);
        proof {
            assert(out@ == before.insert(j as int, c));
            lemma_insert_multiset(before, c, j as int);
            assert(candidates@.subrange(0, i + 1) =~= candidates@.subrange(0, i as int).push(c));
            candidates@.subrange(0, i as int).to_multiset_ensures();
            assert(candidates@.subrange(0, i as int).push(c).to_multiset()
                == candidates@.subrange(0, i as int).to_multiset().insert(c));
        }
        i = i + 1;
    }
    proof {
        assert(candidates@.subrange(0, i as int) =~= candidates@);
    }
    out
}

/// How candidates are told apart: by kind and id.
pub open spec fn candidate_key(c: DataChannelCandidate) -> (DataChannelKind, Seq<u8>) {
    (c.spec_kind(), c.spec_id().0@)
}

pub open spec fn has_candidate_key(s: Seq<DataChannelCandidate>, k: (DataChannelKind, Seq<u8>)) -> bool {
    exists|i: int| 0 <= i < s.len() && candidate_key(#[trigger] s[i]) == k
}

/// The candidates collected after a provider of kind `kind` offered
/// `offered`: each eligible offer whose kind and id were not collected
/// before is added, in order.
pub open spec fn admit_offers(
    policy: DataChannelPolicy,
    peer: DataChannelPeer,
    kind: DataChannelKind,
    collected: Seq<DataChannelCandidate>,
    offered: Seq<DataChannelCandidate>,
) -> Seq<DataChannelCandidate>
    decreases offered.len(),
{
    if offered.len() == 0 {
        collected
    } else {
        let before = admit_offers(policy, peer, kind, collected, offered.drop_last());
        let c = offered.last();
        if spec_candidate_eligible(policy, peer, kind, c) && !has_candidate_key(
            before,
            candidate_key(c),
        ) {
            before.push(c)
        } else {
            before
        }
    }
}

/// The first `MAX_CANDIDATES` offers; a provider's further offers are
/// ignored.
pub open spec fn offers_considered(offered: Seq<DataChannelCandidate>) -> Seq<DataChannelCandidate> {
    if offered.len() <= MAX_CANDIDATES {
        offered
    } else {
        offered.subrange(0, MAX_CANDIDATES as int)
    }
}

fn has_key_exec(s: &Vec<DataChannelCandidate>, c: &DataChannelCandidate) -> (r: bool)
    ensures
        r == has_candidate_key(s@, candidate_key(*c)),
{
    let mut i: usize = 0;
    while i < s.len()
        invariant
            i <= s@.len(),
            forall|j: int| 0 <= j < i ==> candidate_key(#[trigger] s@[j]) != candidate_key(*c),
        decreases s@.len() - i,
    {
        if s[i].kind == c.kind && crate::be_bytes::bytes_equal(s[i].id.0.as_slice(), c.id.0.as_slice()) {
            assert(candidate_key(s@[i as int]) == candidate_key(*c));
            return true;
        }
        i = i + 1;
    }
    false
}

/// Adds what one provider offered to the candidates collected so far: only
/// its first `MAX_CANDIDATES` offers are considered, and of those each
/// eligible one not already collected under the same kind and id.
pub fn admit_offered(
    policy: &DataChannelPolicy,
    peer: &DataChannelPeer,
    kind: DataChannelKind,
    offered: &Vec<DataChannelCandidate>,
    collected: &mut Vec<DataChannelCandidate>,
)
    ensures
        final(collected)@ == admit_offers(
            *policy,
            *peer,
            kind,
            old(collected)@,
            offers_considered(offered@),
        ),
{
    let ghost start = collected@;
    let limit = if offered.len() <= MAX_CANDIDATES {
        offered.len()
    } else {
        MAX_CANDIDATES
    };
    let ghost considered = offers_considered(offered@);
    assert(considered.len() == limit);
    let mut i: usize = 0;
    while i < limit
        invariant
            i <= limit,
            limit == considered.len(),
            considered == offers_considered(offered@),
            forall|j: int| 0 <= j < limit ==> considered[j] == offered@[j],
            collected@ == admit_offers(*policy, *peer, kind, start, considered.subrange(0, i as int)),
        decreases limit - i,
    {
        let c = offered[i];
        let ghost before = collected@;
        assert(considered.subrange(0, i + 1).drop_last() =~= considered.subrange(0, i as int));
        assert(considered.subrange(0, i + 1).last() == c);
        if candidate_eligible(policy, peer, kind, &c) && !has_key_exec(collected, &c) {
            collected.push(c);
        }
        i = i + 1;
    }
    assert(considered.subrange(0, i as int) =~= considered);
}

/// The error when no candidate was collected: the last error a provider
/// reported, or `NoCandidates`.
pub fn no_candidate_error(last: Option<DataChannelError>) -> (r: DataChannelError)
    ensures
        r == match last {
            Some(e) => e,
            None => DataChannelError::NoCandidates,
        },
{
    match last {
        Some(e) => e,
        None => DataChannelError::NoCandidates,
    }
}

/// The candidates of `s` that do (`prompted`) or do not need a system
/// prompt, in order.
pub open spec fn by_prompt(s: Seq<DataChannelCandidate>, prompted: bool) -> Seq<DataChannelCandidate>
    decreases s.len(),
{
    if s.len() == 0 {
        s
    } else {
        let rest = by_prompt(s.drop_last(), prompted);
        if s.last().spec_properties().requires_user_action == prompted {
            rest.push(s.last())
        } else {
            rest
        }
    }
}

/// At most `n` of the first elements of `s`.
pub open spec fn at_most(s: Seq<DataChannelCandidate>, n: int) -> Seq<DataChannelCandidate> {
    if s.len() <= n {
        s
    } else {
        s.subrange(0, n)
    }
}

/// How ordered candidates are raced: of the best `MAX_CANDIDATES`, those
/// needing no prompt race together first; then those needing a prompt are
/// tried one by one, at most `max_prompts` of them.
pub fn race_plan(ordered: &Vec<DataChannelCandidate>, max_prompts: usize) -> (r: (
    Vec<DataChannelCandidate>,
    Vec<DataChannelCandidate>,
))
    ensures
        r.0@ == by_prompt(at_most(ordered@, MAX_CANDIDATES as int), false),
        r.1@ == at_most(by_prompt(at_most(ordered@, MAX_CANDIDATES as int), true), max_prompts as int),
{
    let ghost best = at_most(ordered@, MAX_CANDIDATES as int);
    let limit = if ordered.len() <= MAX_CANDIDATES {
        ordered.len()
    } else {
        MAX_CANDIDATES
    };
    let mut automatic: Vec<DataChannelCandidate> = Vec::new();
    let mut prompted: Vec<DataChannelCandidate> = Vec::new();
    let mut i: usize = 0;
    while i < limit
        invariant
            i <= limit,
            limit == best.len(),
            best == at_most(ordered@, MAX_CANDIDATES as int),
            forall|j: int| 0 <= j < limit ==> best[j] == ordered@[j],
            automatic@ == by_prompt(best.subrange(0, i as int), false),
            prompted@ == by_prompt(best.subrange(0, i as int), true),
        decreases limit - i,
    {
        let c = ordered[i];
        assert(best.subrange(0, i + 1).drop_last() =~= best.subrange(0, i as int));
        assert(best.subrange(0, i + 1).last() == c);
        if c.requires_user_action {
            prompted.push(c);
        } else {
            automatic.push(c);
        }
        i = i + 1;
    }
    assert(best.subrange(0, i as int) =~= best);
    let ghost all_prompted = prompted@;
    if prompted.len() > max_prompts {
        prompted.truncate(max_prompts);
        assert(prompted@ =~= all_prompted.subrange(0, max_prompts as int));
    }
    (automatic, prompted)
}

proof fn lemma_insert_multiset(s: Seq<DataChannelCandidate>, c: DataChannelCandidate, j: int)
    requires
        0 <= j <= s.len(),
    ensures
        s.insert(j, c).to_multiset() == s.to_multiset().insert(c),
{
    broadcast use vstd::seq_lib::group_seq_properties;
    assert(s.insert(j, c) =~= s.subrange(0, j) + seq![c] + s.subrange(j, s.len() as int));
    assert(s =~= s.subrange(0, j) + s.subrange(j, s.len() as int));
    vstd::seq_lib::lemma_multiset_commutative(s.subrange(0, j) + seq![c], s.subrange(j, s.len() as int));
    vstd::seq_lib::lemma_multiset_commutative(s.subrange(0, j), seq![c]);
    vstd::seq_lib::lemma_multiset_commutative(s.subrange(0, j), s.subrange(j, s.len() as int));
}

/// Scores are a total preorder with ids breaking ties, so inserting before
/// the first candidate that `c` ranks before keeps the order.
proof fn lemma_ranks_before_order(s: Seq<DataChannelCandidate>, c: DataChannelCandidate, j: int)
    requires
        0 <= j <= s.len(),
        race_ordered(s),
        forall|k: int| 0 <= k < j ==> !ranks_before(c, #[trigger] s[k]),
        j < s.len() ==> ranks_before(c, s[j]),
    ensures
        race_ordered(s.insert(j, c)),
{
    let t = s.insert(j, c);
    assert forall|a: int, b: int| 0 <= a < b < t.len() implies !ranks_before(
        #[trigger] t[b],
        #[trigger] t[a],
    ) by {
        if b < j {
            assert(t[a] == s[a] && t[b] == s[b]);
        } else if b == j {
            assert(t[a] == s[a]);
        } else if a < j {
            assert(t[a] == s[a] && t[b] == s[b - 1]);
        } else if a == j {
            assert(t[b] == s[b - 1]);
            if b - 1 > j {
                assert(!ranks_before(s[b - 1], s[j]));
                lemma_before_transitive_neg(c, s[j], s[b - 1]);
            } else {
                assert(b - 1 == j);
                lemma_before_asymmetric(c, s[j]);
            }
        } else {
            assert(t[a] == s[a - 1] && t[b] == s[b - 1]);
        }
    }
}

proof fn lemma_bytes_lt_asymmetric(a: Seq<u8>, b: Seq<u8>)
    requires
        bytes_lt(a, b),
    ensures
        !bytes_lt(b, a),
{
    let k = choose|k: int|
        0 <= k < a.len() && k < b.len() && a[k] < b[k] && #[trigger] a.subrange(0, k) == b.subrange(
            0,
            k,
        );
    if bytes_lt(b, a) {
        let m = choose|m: int|
            0 <= m < b.len() && m < a.len() && b[m] < a[m] && #[trigger] b.subrange(0, m)
                == a.subrange(0, m);
        if m < k {
            assert(a.subrange(0, k)[m] == b.subrange(0, k)[m]);
        } else if k < m {
            assert(a.subrange(0, m)[k] == b.subrange(0, m)[k]);
        }
    }
}

proof fn lemma_bytes_lt_transitive(a: Seq<u8>, b: Seq<u8>, c: Seq<u8>)
    requires
        bytes_lt(a, b),
        bytes_lt(b, c),
        a.len() == b.len(),
        b.len() == c.len(),
    ensures
        bytes_lt(a, c),
{
    let k = choose|k: int|
        0 <= k < a.len() && k < b.len() && a[k] < b[k] && #[trigger] a.subrange(0, k) == b.subrange(
            0,
            k,
        );
    let m = choose|m: int|
        0 <= m < b.len() && m < c.len() && b[m] < c[m] && #[trigger] b.subrange(0, m)
            == c.subrange(0, m);
    let n = if k < m {
        k
    } else {
        m
    };
    assert forall|x: int| 0 <= x < n implies a.subrange(0, n)[x] == c.subrange(0, n)[x] by {
        assert(a.subrange(0, k)[x] == b.subrange(0, k)[x]);
        assert(b.subrange(0, m)[x] == c.subrange(0, m)[x]);
    }
    assert(a.subrange(0, n) =~= c.subrange(0, n));
    if k < m {
        assert(b.subrange(0, m)[k] == c.subrange(0, m)[k]);
    } else if m < k {
        assert(a.subrange(0, k)[m] == b.subrange(0, k)[m]);
    }
    assert(a[n] < c[n]);
}

proof fn lemma_before_asymmetric(a: DataChannelCandidate, b: DataChannelCandidate)
    requires
        ranks_before(a, b),
    ensures
        !ranks_before(b, a),
{
    if spec_candidate_score(a.spec_properties()) == spec_candidate_score(b.spec_properties()) {
        lemma_bytes_lt_asymmetric(a.spec_id().0@, b.spec_id().0@);
    }
}

/// If `a` ranks before `b` and `c` does not rank before `b`, then `c` does
/// not rank before `a`.
proof fn lemma_before_transitive_neg(
    a: DataChannelCandidate,
    b: DataChannelCandidate,
    c: DataChannelCandidate,
)
    requires
        ranks_before(a, b),
        !ranks_before(c, b),
    ensures
        !ranks_before(c, a),
{
    if ranks_before(c, a) {
        let sa = spec_candidate_score(a.spec_properties());
        let sb = spec_candidate_score(b.spec_properties());
        let sc = spec_candidate_score(c.spec_properties());
        if sc == sa && sa == sb {
            lemma_bytes_lt_transitive(c.spec_id().0@, a.spec_id().0@, b.spec_id().0@);
        }
    }
}

} // verus!
