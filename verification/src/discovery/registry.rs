//! The peer registry: it merges untrusted provider observations into one
//! record per remote presence, ages sources out, learns from real connection
//! results, and ranks each peer's endpoints.
//!
//! Time is the session's monotonic clock, handed in by the caller as the
//! duration since the session started.

use vstd::prelude::*;

use crate::discovery::model::{
    Capabilities, ConnectionFailure, ConnectionOutcome, DiscoveryConfig, DiscoveryEvent, Endpoint,
    EndpointCandidate, LocalPresence, Observation, PeerSnapshot, PresenceId, ProtocolRange,
    ProviderId, ProviderKind,
};
use crate::discovery::ranking::{
    evidence_sources, lemma_score_gain_bound, protocol_compatible, round_trip, spec_score,
    EndpointEvidence, EndpointRecord, RecordView,
};
use crate::time::{clamp_nanos, Duration, MAX_NANOS};
use crate::net::{address_key, lemma_address_key_injective};
use crate::order::{
    lemma_lex_lt_asymmetric, lemma_lex_lt_irreflexive, lemma_lex_lt_transitive, lemma_lex_total,
    lex_compare, lex_lt, LexOrder,
};

verus! {

// ---------------------------------------------------------------------------
// Endpoint order
// ---------------------------------------------------------------------------

/// `a` sorts before `b`: the order of their socket addresses.
pub open spec fn endpoint_before(a: Endpoint, b: Endpoint) -> bool {
    lex_lt(address_key(a.spec_address()), address_key(b.spec_address()))
}

/// The endpoint order is a strict total order.
pub proof fn lemma_endpoint_order(a: Endpoint, b: Endpoint, c: Endpoint)
    ensures
        !endpoint_before(a, a),
        endpoint_before(a, b) ==> !endpoint_before(b, a),
        endpoint_before(a, b) && endpoint_before(b, c) ==> endpoint_before(a, c),
        a == b || endpoint_before(a, b) || endpoint_before(b, a),
{
    let ka = address_key(a.spec_address());
    let kb = address_key(b.spec_address());
    let kc = address_key(c.spec_address());
    lemma_lex_lt_irreflexive(ka);
    if endpoint_before(a, b) {
        lemma_lex_lt_asymmetric(ka, kb);
        if endpoint_before(b, c) {
            lemma_lex_lt_transitive(ka, kb, kc);
        }
    }
    if a != b {
        if ka == kb {
            lemma_address_key_injective(a.spec_address(), b.spec_address());
            Endpoint::lemma_eq_by_address(a, b);
        }
        assert(ka.len() == 27 && kb.len() == 27);
        lemma_lex_total(ka, kb);
    }
}

/// Compares two endpoints by address.
pub fn compare_endpoints(a: &Endpoint, b: &Endpoint) -> (r: LexOrder)
    ensures
        r == LexOrder::Less <==> endpoint_before(*a, *b),
        r == LexOrder::Greater <==> endpoint_before(*b, *a),
        r == LexOrder::Equal <==> *a == *b,
{
    let ka = a.address().key();
    let kb = b.address().key();
    let r = lex_compare(ka.as_slice(), kb.as_slice());
    proof {
        lemma_endpoint_order(*a, *b, *b);
        if r == LexOrder::Equal {
            lemma_address_key_injective(a.spec_address(), b.spec_address());
            Endpoint::lemma_eq_by_address(*a, *b);
        }
    }
    r
}

/// Every endpoint sorts strictly before the next.
pub open spec fn strictly_ordered(s: Seq<Endpoint>) -> bool {
    forall|i: int, j: int| 0 <= i < j < s.len() ==> endpoint_before(#[trigger] s[i], #[trigger] s[j])
}

/// `out` is what an observation's endpoint list is reduced to: sorted by
/// address, each endpoint once, and cut to at most `max` entries. An input
/// endpoint is left out only when the list is full and every kept endpoint
/// sorts before it.
pub open spec fn normalized(out: Seq<Endpoint>, input: Seq<Endpoint>, max: int) -> bool {
    &&& out.len() <= max
    &&& strictly_ordered(out)
    &&& forall|i: int| 0 <= i < out.len() ==> input.contains(#[trigger] out[i])
    &&& forall|k: int|
        0 <= k < input.len() ==> out.contains(#[trigger] input[k]) || (out.len() == max && forall|
            i: int,
        |
            0 <= i < out.len() ==> endpoint_before(#[trigger] out[i], input[k]))
}

/// Sorts endpoints by address, drops repeats and keeps the first `max`.
pub fn normalize_endpoints(input: &Vec<Endpoint>, max: usize) -> (r: Vec<Endpoint>)
    ensures
        normalized(r@, input@, max as int),
{
    let mut out: Vec<Endpoint> = Vec::new();
    let mut k: usize = 0;
    while k < input.len()
        invariant
            k <= input@.len(),
            normalized(out@, input@.subrange(0, k as int), max as int),
        decreases input@.len() - k,
    {
        let e = input[k];
        let ghost seen = input@.subrange(0, k as int);
        let ghost seen_next = input@.subrange(0, k + 1);
        proof {
            assert(seen_next =~= seen.push(e));
        }
        let mut j: usize = 0;
        let mut present = false;
        while j < out.len()
            invariant_except_break
                !present,
            invariant
                j <= out@.len(),
                forall|i: int| 0 <= i < j ==> endpoint_before(#[trigger] out@[i], e),
            ensures
                j <= out@.len(),
                forall|i: int| 0 <= i < j ==> endpoint_before(#[trigger] out@[i], e),
                present ==> j < out@.len() && out@[j as int] == e,
                !present ==> j == out@.len() || endpoint_before(e, out@[j as int]),
            decreases out@.len() - j,
        {
            let c = compare_endpoints(&out[j], &e);
            if c == LexOrder::Less {
                j = j + 1;
            } else {
                if c == LexOrder::Equal {
                    present = true;
                }
                break;
            }
        }
        let ghost before = out@;
        if present {
            proof {
                assert(before[j as int] == e);
                assert forall|q: int| 0 <= q < seen_next.len() implies before.contains(
                    #[trigger] seen_next[q],
                ) || (before.len() == max && forall|i: int|
                    0 <= i < before.len() ==> endpoint_before(
                        #[trigger] before[i],
                        seen_next[q],
                    )) by {
                    if q < k {
                        assert(seen_next[q] == seen[q]);
                    } else {
                        assert(before.contains(before[j as int]));
                    }
                }
                assert forall|i: int| 0 <= i < before.len() implies seen_next.contains(
                    #[trigger] before[i],
                ) by {
                    assert(seen.contains(before[i]));
                    let w = choose|w: int| 0 <= w < seen.len() && seen[w] == before[i];
                    assert(seen_next[w] == before[i]);
                }
            }
        } else if j >= max {
            proof {
                // The list is full and every kept endpoint sorts before `e`.
                assert(j == before.len());
                assert forall|q: int| 0 <= q < seen_next.len() implies before.contains(
                    #[trigger] seen_next[q],
                ) || (before.len() == max && forall|i: int|
                    0 <= i < before.len() ==> endpoint_before(
                        #[trigger] before[i],
                        seen_next[q],
                    )) by {
                    if q < k {
                        assert(seen_next[q] == seen[q]);
                    }
                }
                assert forall|i: int| 0 <= i < before.len() implies seen_next.contains(
                    #[trigger] before[i],
                ) by {
                    assert(seen.contains(before[i]));
                    let w = choose|w: int| 0 <= w < seen.len() && seen[w] == before[i];
                    assert(seen_next[w] == before[i]);
                }
            }
        } else {
            out.insert(j, e);
            let ghost inserted = out@;
            proof {
                assert(inserted == before.insert(j as int, e));
                assert forall|a: int, b: int| 0 <= a < b < inserted.len() implies endpoint_before(
                    #[trigger] inserted[a],
                    #[trigger] inserted[b],
                ) by {
                    if b < j {
                        assert(inserted[a] == before[a] && inserted[b] == before[b]);
                    } else if b == j {
                        assert(inserted[a] == before[a]);
                    } else if a < j {
                        assert(inserted[a] == before[a] && inserted[b] == before[b - 1]);
                        lemma_endpoint_order(before[a], e, before[j as int]);
                        if b - 1 > j {
                            lemma_endpoint_order(before[a], before[j as int], before[b - 1]);
                        }
                    } else if a == j {
                        assert(inserted[b] == before[b - 1]);
                        if b - 1 > j {
                            lemma_endpoint_order(e, before[j as int], before[b - 1]);
                        }
                    } else {
                        assert(inserted[a] == before[a - 1] && inserted[b] == before[b - 1]);
                    }
                }
            }
            if out.len() > max {
                let ghost last = inserted[inserted.len() - 1];
                out.pop();
                proof {
                    let after = out@;
                    assert(after =~= inserted.drop_last());
                    assert(before.len() == max);
                    assert forall|q: int| 0 <= q < seen_next.len() implies after.contains(
                        #[trigger] seen_next[q],
                    ) || (after.len() == max && forall|i: int|
                        0 <= i < after.len() ==> endpoint_before(
                            #[trigger] after[i],
                            seen_next[q],
                        )) by {
                        let x = seen_next[q];
                        if x == last {
                            assert forall|i: int| 0 <= i < after.len() implies endpoint_before(
                                #[trigger] after[i],
                                x,
                            ) by {
                                assert(after[i] == inserted[i]);
                                assert(inserted[inserted.len() - 1] == last);
                            }
                        } else if q == k {
                            assert(x == e);
                            assert(inserted[j as int] == e);
                            assert(j < inserted.len() - 1);
                            assert(after[j as int] == e);
                        } else {
                            assert(x == seen[q]);
                            if before.contains(x) {
                                let w = choose|w: int| 0 <= w < before.len() && before[w] == x;
                                if w < j {
                                    assert(inserted[w] == x);
                                    assert(after[w] == x);
                                } else {
                                    assert(inserted[w + 1] == x);
                                    assert(w + 1 < inserted.len() - 1);
                                    assert(after[w + 1] == x);
                                }
                            } else {
                                assert forall|i: int| 0 <= i < after.len() implies endpoint_before(
                                    #[trigger] after[i],
                                    x,
                                ) by {
                                    assert(after[i] == inserted[i]);
                                    if i < j {
                                        assert(inserted[i] == before[i]);
                                    } else if i == j {
                                        // e sorts before the endpoint it displaced.
                                        assert(endpoint_before(before[j as int], x));
                                        lemma_endpoint_order(e, before[j as int], x);
                                    } else {
                                        assert(inserted[i] == before[i - 1]);
                                    }
                                }
                            }
                        }
                    }
                    assert forall|i: int| 0 <= i < after.len() implies seen_next.contains(
                        #[trigger] after[i],
                    ) by {
                        assert(after[i] == inserted[i]);
                        if i == j {
                            assert(seen_next[k as int] == e);
                        } else {
                            let bi = if i < j {
                                i
                            } else {
                                i - 1
                            };
                            assert(inserted[i] == before[bi]);
                            assert(seen.contains(before[bi]));
                            let w = choose|w: int| 0 <= w < seen.len() && seen[w] == before[bi];
                            assert(seen_next[w] == before[bi]);
                        }
                    }
                }
            } else {
                proof {
                    assert(before.len() < max);
                    assert forall|q: int| 0 <= q < seen_next.len() implies inserted.contains(
                        #[trigger] seen_next[q],
                    ) by {
                        let x = seen_next[q];
                        if q == k {
                            assert(inserted[j as int] == e);
                        } else {
                            assert(x == seen[q]);
                            assert(before.contains(x));
                            let w = choose|w: int| 0 <= w < before.len() && before[w] == x;
                            if w < j {
                                assert(inserted[w] == x);
                            } else {
                                assert(inserted[w + 1] == x);
                            }
                        }
                    }
                    assert forall|i: int| 0 <= i < inserted.len() implies seen_next.contains(
                        #[trigger] inserted[i],
                    ) by {
                        if i == j {
                            assert(seen_next[k as int] == e);
                        } else {
                            let bi = if i < j {
                                i
                            } else {
                                i - 1
                            };
                            assert(inserted[i] == before[bi]);
                            assert(seen.contains(before[bi]));
                            let w = choose|w: int| 0 <= w < seen.len() && seen[w] == before[bi];
                            assert(seen_next[w] == before[bi]);
                        }
                    }
                }
            }
        }
        k = k + 1;
    }
    proof {
        assert(input@.subrange(0, k as int) =~= input@);
    }
    out
}

// ---------------------------------------------------------------------------
// The model of a peer
// ---------------------------------------------------------------------------

/// The most distinct providers whose evidence one endpoint keeps; an
/// endpoint with at most this many always scores within an `i32`.
pub const MAX_ENDPOINT_EVIDENCE: usize = 1_000_000;

/// How providers are told apart: by kind and name.
pub open spec fn pkey(p: ProviderId) -> (ProviderKind, Seq<char>) {
    (p.spec_kind(), p.spec_name())
}

/// When one provider's word about a peer runs out.
#[derive(Clone, Debug)]
pub struct SourceEntry {
    pub provider: ProviderId,
    pub expires_at: Duration,
}

/// One endpoint of a peer with its evidence and history.
#[derive(Clone, Debug)]
pub struct EndpointEntry {
    pub endpoint: Endpoint,
    pub record: EndpointRecord,
}

#[verifier::ext_equal]
pub ghost struct EndpointView {
    pub endpoint: Endpoint,
    pub record: RecordView,
}

impl View for EndpointEntry {
    type V = EndpointView;

    open spec fn view(&self) -> EndpointView {
        EndpointView { endpoint: self.endpoint, record: self.record@ }
    }
}

/// Everything the registry knows about one remote presence.
#[derive(Debug)]
pub struct PeerRecord {
    pub presence_id: PresenceId,
    pub protocol: ProtocolRange,
    pub capabilities: Capabilities,
    pub last_sequence: u64,
    pub sources: Vec<SourceEntry>,
    pub endpoints: Vec<EndpointEntry>,
    pub preferred_endpoint: Option<Endpoint>,
    pub quarantined: bool,
}

#[verifier::ext_equal]
pub ghost struct PeerView {
    pub presence_id: PresenceId,
    pub protocol: ProtocolRange,
    pub capabilities: Capabilities,
    pub last_sequence: u64,
    pub sources: Seq<SourceEntry>,
    pub endpoints: Seq<EndpointView>,
    pub preferred_endpoint: Option<Endpoint>,
    pub quarantined: bool,
}

impl View for PeerRecord {
    type V = PeerView;

    open spec fn view(&self) -> PeerView {
        PeerView {
            presence_id: self.presence_id,
            protocol: self.protocol,
            capabilities: self.capabilities,
            last_sequence: self.last_sequence,
            sources: self.sources@,
            endpoints: self.endpoints@.map_values(|e: EndpointEntry| e@),
            preferred_endpoint: self.preferred_endpoint,
            quarantined: self.quarantined,
        }
    }
}

pub open spec fn sources_distinct(s: Seq<SourceEntry>) -> bool {
    forall|i: int, j: int|
        0 <= i < j < s.len() ==> pkey(#[trigger] s[i].provider) != pkey(#[trigger] s[j].provider)
}

pub open spec fn evidence_distinct(ev: Seq<EndpointEvidence>) -> bool {
    forall|i: int, j: int|
        0 <= i < j < ev.len() ==> pkey(#[trigger] ev[i].provider) != pkey(#[trigger] ev[j].provider)
}

pub open spec fn endpoints_distinct(eps: Seq<EndpointView>) -> bool {
    forall|i: int, j: int| 0 <= i < j < eps.len() ==> (#[trigger] eps[i]).endpoint != (
    #[trigger] eps[j]).endpoint
}

/// A well-formed peer: each provider appears once among its sources and
/// once in each endpoint's evidence, each endpoint appears once and has at
/// least one provider vouching for it.
pub open spec fn peer_wf(p: PeerView) -> bool {
    &&& sources_distinct(p.sources)
    &&& endpoints_distinct(p.endpoints)
    &&& forall|i: int|
        #![trigger p.endpoints[i]]
        0 <= i < p.endpoints.len() ==> {
            &&& evidence_distinct(p.endpoints[i].record.evidence)
            &&& 0 < p.endpoints[i].record.evidence.len() <= MAX_ENDPOINT_EVIDENCE
        }
}

// ---------------------------------------------------------------------------
// Snapshots
// ---------------------------------------------------------------------------

/// `a` is listed before `b`: higher score first, then lower address.
pub open spec fn candidate_before(a: EndpointCandidate, b: EndpointCandidate) -> bool {
    a.score > b.score || (a.score == b.score && endpoint_before(a.endpoint, b.endpoint))
}

/// `c` is the ranked view of endpoint `e`.
pub open spec fn candidate_of(c: EndpointCandidate, e: EndpointView, compatible: bool) -> bool {
    &&& c.endpoint == e.endpoint
    &&& c.round_trip_time == round_trip(e.record)
    &&& c.score == spec_score(e.record, compatible, round_trip(e.record))
    &&& c.sources@ == evidence_sources(e.record.evidence)
    &&& c.successful_connections == e.record.successful_connections
    &&& c.consecutive_failures == e.record.consecutive_failures
}

/// The preferred endpoint, while it is still known and has not failed twice
/// in a row.
pub open spec fn usable_preferred(p: PeerView) -> Option<Endpoint> {
    match p.preferred_endpoint {
        Some(e) => if exists|j: int|
            0 <= j < p.endpoints.len() && (#[trigger] p.endpoints[j]).endpoint == e
                && p.endpoints[j].record.consecutive_failures < 2 {
            Some(e)
        } else {
            None
        },
        None => None,
    }
}

/// `s` is the snapshot of peer `p` as seen by a local presence speaking
/// `local_protocol`: its candidates are the ranked views of its endpoints,
/// best first, and its best endpoint is the usable preferred one, else the
/// top candidate, and none for a quarantined or incompatible peer.
pub open spec fn snapshot_of(s: PeerSnapshot, p: PeerView, local_protocol: ProtocolRange) -> bool {
    let compatible = local_protocol.spec_overlaps(p.protocol);
    let c = s.candidates@;
    &&& s.presence_id == p.presence_id
    &&& s.protocol == p.protocol
    &&& s.compatible == compatible
    &&& s.capabilities == p.capabilities
    &&& s.quarantined == p.quarantined
    &&& s.sources@ == p.sources.map_values(|x: SourceEntry| x.provider)
    &&& c.len() == p.endpoints.len()
    &&& forall|i: int|
        0 <= i < c.len() ==> exists|j: int|
            0 <= j < p.endpoints.len() && candidate_of(#[trigger] c[i], #[trigger] p.endpoints[j], compatible)
    &&& forall|j: int|
        0 <= j < p.endpoints.len() ==> exists|i: int|
            0 <= i < c.len() && candidate_of(#[trigger] c[i], #[trigger] p.endpoints[j], compatible)
    &&& forall|i: int, j: int| 0 <= i < j < c.len() ==> !candidate_before(#[trigger] c[j], #[trigger] c[i])
    &&& s.best_endpoint == if p.quarantined || !compatible {
        None
    } else {
        match usable_preferred(p) {
            Some(e) => Some(e),
            None => if c.len() > 0 {
                Some(c[0].endpoint)
            } else {
                None
            },
        }
    }
}

proof fn lemma_candidate_asymmetric(a: EndpointCandidate, b: EndpointCandidate)
    requires
        candidate_before(a, b),
    ensures
        !candidate_before(b, a),
{
    lemma_endpoint_order(a.endpoint, b.endpoint, b.endpoint);
}

proof fn lemma_candidate_transitive_neg(a: EndpointCandidate, b: EndpointCandidate, c: EndpointCandidate)
    requires
        candidate_before(a, b),
        !candidate_before(c, b),
    ensures
        !candidate_before(c, a),
{
    lemma_endpoint_order(c.endpoint, a.endpoint, b.endpoint);
}

fn candidate_before_exec(a: &EndpointCandidate, b: &EndpointCandidate) -> (r: bool)
    ensures
        r == candidate_before(*a, *b),
{
    a.score > b.score || (a.score == b.score && compare_endpoints(&a.endpoint, &b.endpoint)
        == LexOrder::Less)
}

proof fn lemma_insert_multiset(s: Seq<EndpointCandidate>, c: EndpointCandidate, j: int)
    requires
        0 <= j <= s.len(),
    ensures
        s.insert(j, c).to_multiset() == s.to_multiset().insert(c),
{
    broadcast use vstd::seq_lib::group_seq_properties;

    assert(s.insert(j, c) =~= s.subrange(0, j) + seq![c] + s.subrange(j, s.len() as int));
    assert(s =~= s.subrange(0, j) + s.subrange(j, s.len() as int));
    vstd::seq_lib::lemma_multiset_commutative(s.subrange(0, j) + seq![c], s.subrange(j, s.len() as int));
    vstd::seq_lib::lemma_multiset_commutative(s.subrange(0, j), seq![c]);
    vstd::seq_lib::lemma_multiset_commutative(s.subrange(0, j), s.subrange(j, s.len() as int));
}

pub open spec fn candidates_ordered(c: Seq<EndpointCandidate>) -> bool {
    forall|i: int, j: int| 0 <= i < j < c.len() ==> !candidate_before(#[trigger] c[j], #[trigger] c[i])
}

proof fn lemma_insert_ordered(s: Seq<EndpointCandidate>, c: EndpointCandidate, j: int)
    requires
        0 <= j <= s.len(),
        candidates_ordered(s),
        forall|k: int| 0 <= k < j ==> !candidate_before(c, #[trigger] s[k]),
        j < s.len() ==> candidate_before(c, s[j]),
    ensures
        candidates_ordered(s.insert(j, c)),
{
    let t = s.insert(j, c);
    assert forall|a: int, b: int| 0 <= a < b < t.len() implies !candidate_before(
        #[trigger] t[b],
        #[trigger] t[a],
    ) by {
        if b < j {
            assert(t[a] == s[a] && t[b] == s[b]);
        } else if b == j {
            assert(t[a] == s[a]);
        } else if a < j {
            assert(t[a] == s[a] && t[b] == s[b - 1]);
        } else if a == j {
            assert(t[b] == s[b - 1]);
            if b - 1 > j {
                assert(!candidate_before(s[b - 1], s[j]));
                lemma_candidate_transitive_neg(c, s[j], s[b - 1]);
            } else {
                lemma_candidate_asymmetric(c, s[j]);
            }
        } else {
            assert(t[a] == s[a - 1] && t[b] == s[b - 1]);
        }
    }
}

/// Orders candidates best first; the result holds exactly the given ones.
fn order_candidates(built: Vec<EndpointCandidate>) -> (r: Vec<EndpointCandidate>)
    ensures
        r@.to_multiset() == built@.to_multiset(),
        r@.len() == built@.len(),
        candidates_ordered(r@),
{
    broadcast use vstd::seq_lib::group_seq_properties;

    let ghost input = built@;
    let n = built.len();
    let mut rest = built;
    let mut out: Vec<EndpointCandidate> = Vec::new();
    let mut i: usize = 0;
    assert(input.subrange(0, 0) =~= Seq::<EndpointCandidate>::empty());
    while rest.len() > 0
        invariant
            i + rest@.len() == input.len(),
            n == input.len(),
            rest@ == input.subrange(i as int, input.len() as int),
            candidates_ordered(out@),
            out@.len() == i,
            out@.to_multiset() == input.subrange(0, i as int).to_multiset(),
        decreases rest@.len(),
    {
        let c = rest.remove(0);
        let mut j: usize = 0;
        while j < out.len() && !candidate_before_exec(&c, &out[j])
            invariant
                j <= out@.len(),
                forall|k: int| 0 <= k < j ==> !candidate_before(c, #[trigger] out@[k]),
            decreases out@.len() - j,
        {
            j = j + 1;
        }
        let ghost prior = out@;
        proof {
            lemma_insert_ordered(prior, c, j as int);
        }
        out.insert(j, c);
        proof {
            assert(c == input[i as int]);
            lemma_insert_multiset(prior, c, j as int);
            assert(input.subrange(0, i + 1) =~= input.subrange(0, i as int).push(c));
            input.subrange(0, i as int).to_multiset_ensures();
            assert(rest@ =~= input.subrange(i + 1, input.len() as int));
        }
        i = i + 1;
    }
    proof {
        assert(input.subrange(0, i as int) =~= input);
    }
    out
}

impl PeerRecord {
    /// The ranked, coherent view of this peer.
    pub fn snapshot(&self, local_protocol: ProtocolRange) -> (r: PeerSnapshot)
        requires
            peer_wf(self@),
        ensures
            snapshot_of(r, self@, local_protocol),
    {
        broadcast use vstd::seq_lib::group_seq_properties;

        let compatible = protocol_compatible(local_protocol, self.protocol);
        let ghost eps = self@.endpoints;
        let mut built: Vec<EndpointCandidate> = Vec::new();
        let mut i: usize = 0;
        while i < self.endpoints.len()
            invariant
                i <= self.endpoints@.len(),
                eps == self@.endpoints,
                peer_wf(self@),
                compatible == local_protocol.spec_overlaps(self.protocol),
                built@.len() == i,
                forall|k: int| 0 <= k < i ==> candidate_of(#[trigger] built@[k], eps[k], compatible),
            decreases self.endpoints@.len() - i,
        {
            let entry = &self.endpoints[i];
            proof {
                assert(eps[i as int] == entry@);
                lemma_score_gain_bound(entry.record@, round_trip(entry.record@));
            }
            let c = entry.record.candidate(entry.endpoint, compatible);
            built.push(c);
            i = i + 1;
        }
        let ghost unsorted = built@;
        let candidates = order_candidates(built);
        proof {
            let c = candidates@;
            assert forall|a: int| 0 <= a < c.len() implies exists|j: int|
                0 <= j < eps.len() && candidate_of(#[trigger] c[a], #[trigger] eps[j], compatible) by {
                unsorted.to_multiset_ensures();
                c.to_multiset_ensures();
                assert(c.to_multiset().count(c[a]) > 0);
                assert(unsorted.contains(c[a]));
                let j = choose|j: int| 0 <= j < unsorted.len() && unsorted[j] == c[a];
                assert(candidate_of(unsorted[j], eps[j], compatible));
            }
            assert forall|j: int| 0 <= j < eps.len() implies exists|a: int|
                0 <= a < c.len() && candidate_of(#[trigger] c[a], #[trigger] eps[j], compatible) by {
                unsorted.to_multiset_ensures();
                c.to_multiset_ensures();
                assert(unsorted.to_multiset().count(unsorted[j]) > 0);
                assert(c.contains(unsorted[j]));
                let a = choose|a: int| 0 <= a < c.len() && c[a] == unsorted[j];
                assert(candidate_of(c[a], eps[j], compatible));
            }
        }
        let mut sources: Vec<ProviderId> = Vec::new();
        let mut k: usize = 0;
        while k < self.sources.len()
            invariant
                k <= self.sources@.len(),
                sources@ == self.sources@.subrange(0, k as int).map_values(
                    |x: SourceEntry| x.provider,
                ),
            decreases self.sources@.len() - k,
        {
            sources.push(self.sources[k].provider.duplicate());
            k = k + 1;
            assert(sources@ =~= self.sources@.subrange(0, k as int).map_values(
                |x: SourceEntry| x.provider,
            ));
        }
        assert(self.sources@.subrange(0, k as int) =~= self.sources@);
        let preferred = self.usable_preferred();
        let best_endpoint = if self.quarantined || !compatible {
            None
        } else {
            match preferred {
                Some(e) => Some(e),
                None => if candidates.len() > 0 {
                    Some(candidates[0].endpoint)
                } else {
                    None
                },
            }
        };
        PeerSnapshot {
            presence_id: self.presence_id,
            protocol: self.protocol,
            compatible,
            capabilities: self.capabilities,
            sources,
            candidates,
            best_endpoint,
            quarantined: self.quarantined,
        }
    }

    fn usable_preferred(&self) -> (r: Option<Endpoint>)
        ensures
            r == usable_preferred(self@),
    {
        let ghost eps = self@.endpoints;
        match self.preferred_endpoint {
            None => None,
            Some(pref) => {
                let mut i: usize = 0;
                while i < self.endpoints.len()
                    invariant
                        i <= self.endpoints@.len(),
                        eps == self@.endpoints,
                        self.preferred_endpoint == Some(pref),
                        forall|k: int|
                            0 <= k < i ==> !((#[trigger] eps[k]).endpoint == pref
                                && eps[k].record.consecutive_failures < 2),
                    decreases self.endpoints@.len() - i,
                {
                    let entry = &self.endpoints[i];
                    assert(eps[i as int] == entry@);
                    if compare_endpoints(&entry.endpoint, &pref) == LexOrder::Equal
                        && entry.record.consecutive_failures < 2 {
                        return Some(pref);
                    }
                    i = i + 1;
                }
                None
            },
        }
    }
}

// ---------------------------------------------------------------------------
// Merging an observation into a peer
// ---------------------------------------------------------------------------

pub open spec fn has_source(s: Seq<SourceEntry>, k: (ProviderKind, Seq<char>)) -> bool {
    exists|i: int| 0 <= i < s.len() && pkey(#[trigger] s[i].provider) == k
}

pub open spec fn source_index(s: Seq<SourceEntry>, k: (ProviderKind, Seq<char>)) -> int {
    choose|i: int| 0 <= i < s.len() && pkey(#[trigger] s[i].provider) == k
}

/// The sources after provider `p` vouches for the peer until `t`: its entry
/// is renewed, or added at the end.
pub open spec fn upsert_source(s: Seq<SourceEntry>, p: ProviderId, t: Duration) -> Seq<SourceEntry> {
    if has_source(s, pkey(p)) {
        let i = source_index(s, pkey(p));
        s.update(i, SourceEntry { provider: s[i].provider, expires_at: t })
    } else {
        s.push(SourceEntry { provider: p, expires_at: t })
    }
}

pub open spec fn has_evidence(ev: Seq<EndpointEvidence>, k: (ProviderKind, Seq<char>)) -> bool {
    exists|i: int| 0 <= i < ev.len() && pkey(#[trigger] ev[i].provider) == k
}

pub open spec fn evidence_index(ev: Seq<EndpointEvidence>, k: (ProviderKind, Seq<char>)) -> int {
    choose|i: int| 0 <= i < ev.len() && pkey(#[trigger] ev[i].provider) == k
}

/// `a` if it holds a value, else `b`.
pub open spec fn or_else(a: Option<Duration>, b: Option<Duration>) -> Option<Duration> {
    match a {
        Some(x) => Some(x),
        None => b,
    }
}

/// One more, stopping at `u32::MAX`.
pub open spec fn saturating_inc(x: u32) -> u32 {
    if x < u32::MAX {
        (x + 1) as u32
    } else {
        x
    }
}

/// An endpoint's evidence after provider `p` reports it, valid until `t`:
/// a known provider's count grows by one and a new round trip replaces the
/// old one; a new provider is recorded unless the endpoint already keeps
/// `MAX_ENDPOINT_EVIDENCE` providers.
pub open spec fn touch_evidence(
    ev: Seq<EndpointEvidence>,
    p: ProviderId,
    t: Duration,
    rtt: Option<Duration>,
) -> Seq<EndpointEvidence> {
    if has_evidence(ev, pkey(p)) {
        let i = evidence_index(ev, pkey(p));
        ev.update(
            i,
            EndpointEvidence {
                provider: ev[i].provider,
                expires_at: t,
                round_trip_time: or_else(rtt, ev[i].round_trip_time),
                observations: saturating_inc(ev[i].observations),
            },
        )
    } else if ev.len() >= MAX_ENDPOINT_EVIDENCE {
        ev
    } else {
        ev.push(EndpointEvidence { provider: p, expires_at: t, round_trip_time: rtt, observations: 1 })
    }
}

pub open spec fn has_endpoint(eps: Seq<EndpointView>, e: Endpoint) -> bool {
    exists|i: int| 0 <= i < eps.len() && (#[trigger] eps[i]).endpoint == e
}

pub open spec fn endpoint_index(eps: Seq<EndpointView>, e: Endpoint) -> int {
    choose|i: int| 0 <= i < eps.len() && (#[trigger] eps[i]).endpoint == e
}

/// A newly learned endpoint, vouched for once by `p`.
pub open spec fn new_endpoint(e: Endpoint, p: ProviderId, t: Duration, rtt: Option<Duration>) -> EndpointView {
    EndpointView {
        endpoint: e,
        record: RecordView {
            evidence: seq![
                EndpointEvidence { provider: p, expires_at: t, round_trip_time: rtt, observations: 1 },
            ],
            successful_connections: 0,
            total_failures: 0,
            consecutive_failures: 0,
            connection_rtt: None,
        },
    }
}

/// The endpoints after `p` reports endpoint `e`: a known endpoint gains the
/// evidence, an unknown one is added unless the peer already has `max`.
pub open spec fn merge_one(
    eps: Seq<EndpointView>,
    e: Endpoint,
    p: ProviderId,
    t: Duration,
    rtt: Option<Duration>,
    max: int,
) -> Seq<EndpointView> {
    if has_endpoint(eps, e) {
        let i = endpoint_index(eps, e);
        eps.update(
            i,
            EndpointView {
                endpoint: eps[i].endpoint,
                record: RecordView {
                    evidence: touch_evidence(eps[i].record.evidence, p, t, rtt),
                    ..eps[i].record
                },
            },
        )
    } else if eps.len() >= max {
        eps
    } else {
        eps.push(new_endpoint(e, p, t, rtt))
    }
}

/// `merge_one` for each reported endpoint in turn.
pub open spec fn merge_endpoints(
    eps: Seq<EndpointView>,
    reported: Seq<Endpoint>,
    p: ProviderId,
    t: Duration,
    rtt: Option<Duration>,
    max: int,
) -> Seq<EndpointView>
    decreases reported.len(),
{
    if reported.len() == 0 {
        eps
    } else {
        merge_one(
            merge_endpoints(eps, reported.drop_last(), p, t, rtt, max),
            reported.last(),
            p,
            t,
            rtt,
            max,
        )
    }
}

/// The record of a presence seen for the first time.
pub open spec fn fresh_peer(obs: Observation) -> PeerView {
    PeerView {
        presence_id: obs.presence_id,
        protocol: obs.protocol,
        capabilities: obs.capabilities,
        last_sequence: obs.sequence,
        sources: Seq::empty(),
        endpoints: Seq::empty(),
        preferred_endpoint: None,
        quarantined: false,
    }
}

/// The peer after an observation whose endpoints reduce to `reported` and
/// whose evidence lasts until `t`. Protocol and capabilities follow the
/// newest sequence number; connection history is kept.
pub open spec fn observe_peer(
    base: PeerView,
    obs: Observation,
    reported: Seq<Endpoint>,
    t: Duration,
    max: int,
) -> PeerView {
    let newer = obs.sequence >= base.last_sequence;
    PeerView {
        presence_id: base.presence_id,
        protocol: if newer {
            obs.protocol
        } else {
            base.protocol
        },
        capabilities: if newer {
            obs.capabilities
        } else {
            base.capabilities
        },
        last_sequence: if newer {
            obs.sequence
        } else {
            base.last_sequence
        },
        sources: upsert_source(base.sources, obs.provider, t),
        endpoints: merge_endpoints(
            base.endpoints,
            reported,
            obs.provider,
            t,
            obs.round_trip_time,
            max,
        ),
        preferred_endpoint: base.preferred_endpoint,
        quarantined: base.quarantined,
    }
}

fn upsert_source_exec(sources: &mut Vec<SourceEntry>, p: &ProviderId, t: Duration)
    requires
        sources_distinct(old(sources)@),
    ensures
        final(sources)@ == upsert_source(old(sources)@, *p, t),
        sources_distinct(final(sources)@),
{
    let ghost s = sources@;
    let mut i: usize = 0;
    while i < sources.len()
        invariant
            i <= sources@.len(),
            sources@ == s,
            s == old(sources)@,
            sources_distinct(s),
            forall|k: int| 0 <= k < i ==> pkey(#[trigger] s[k].provider) != pkey(*p),
        decreases sources@.len() - i,
    {
        if sources[i].provider.same_as(p) {
            proof {
                assert(has_source(s, pkey(*p)));
                let c = source_index(s, pkey(*p));
                if c != i {
                    if c < i {
                        assert(pkey(s[c].provider) != pkey(*p));
                    } else {
                        assert(pkey(s[i as int].provider) != pkey(s[c].provider));
                    }
                }
                assert(c == i);
            }
            let provider = sources[i].provider.duplicate();
            sources.set(i, SourceEntry { provider, expires_at: t });
            proof {
                assert(sources@ =~= upsert_source(s, *p, t));
                assert forall|a: int, b: int| 0 <= a < b < sources@.len() implies pkey(
                    #[trigger] sources@[a].provider,
                ) != pkey(#[trigger] sources@[b].provider) by {
                    assert(pkey(sources@[a].provider) == pkey(s[a].provider));
                    assert(pkey(sources@[b].provider) == pkey(s[b].provider));
                }
            }
            return;
        }
        i = i + 1;
    }
    sources.push(SourceEntry { provider: p.duplicate(), expires_at: t });
}

fn touch_evidence_exec(ev: &mut Vec<EndpointEvidence>, p: &ProviderId, t: Duration, rtt: Option<Duration>)
    requires
        evidence_distinct(old(ev)@),
    ensures
        final(ev)@ == touch_evidence(old(ev)@, *p, t, rtt),
        evidence_distinct(final(ev)@),
        final(ev)@.len() == if has_evidence(old(ev)@, pkey(*p)) || old(ev)@.len()
            >= MAX_ENDPOINT_EVIDENCE {
            old(ev)@.len()
        } else {
            old(ev)@.len() + 1
        },
{
    let ghost s = ev@;
    let mut i: usize = 0;
    while i < ev.len()
        invariant
            i <= ev@.len(),
            ev@ == s,
            s == old(ev)@,
            evidence_distinct(s),
            forall|k: int| 0 <= k < i ==> pkey(#[trigger] s[k].provider) != pkey(*p),
        decreases ev@.len() - i,
    {
        if ev[i].provider.same_as(p) {
            proof {
                assert(has_evidence(s, pkey(*p)));
                let c = evidence_index(s, pkey(*p));
                if c != i {
                    if c < i {
                        assert(pkey(s[c].provider) != pkey(*p));
                    } else {
                        assert(pkey(s[i as int].provider) != pkey(s[c].provider));
                    }
                }
                assert(c == i);
            }
            let provider = ev[i].provider.duplicate();
            let round_trip_time = match rtt {
                Some(d) => Some(d),
                None => ev[i].round_trip_time,
            };
            let observations = if ev[i].observations < u32::MAX {
                ev[i].observations + 1
            } else {
                ev[i].observations
            };
            ev.set(i, EndpointEvidence { provider, expires_at: t, round_trip_time, observations });
            proof {
                assert(ev@ =~= touch_evidence(s, *p, t, rtt));
                assert(pkey(ev@[i as int].provider) == pkey(*p));
                assert forall|a: int, b: int| 0 <= a < b < ev@.len() implies pkey(
                    #[trigger] ev@[a].provider,
                ) != pkey(#[trigger] ev@[b].provider) by {
                    assert(pkey(ev@[a].provider) == pkey(s[a].provider));
                    assert(pkey(ev@[b].provider) == pkey(s[b].provider));
                }
            }
            return;
        }
        i = i + 1;
    }
    if ev.len() >= MAX_ENDPOINT_EVIDENCE {
        proof {
            assert(!has_evidence(s, pkey(*p)));
        }
        return;
    }
    ev.push(EndpointEvidence { provider: p.duplicate(), expires_at: t, round_trip_time: rtt, observations: 1 });
    proof {
        assert(!has_evidence(s, pkey(*p)));
        assert(pkey(ev@[ev@.len() - 1].provider) == pkey(*p));
    }
}

/// The endpoint part of `peer_wf`.
pub open spec fn endpoints_wf(eps: Seq<EndpointView>) -> bool {
    &&& endpoints_distinct(eps)
    &&& forall|i: int|
        #![trigger eps[i]]
        0 <= i < eps.len() ==> {
            &&& evidence_distinct(eps[i].record.evidence)
            &&& 0 < eps[i].record.evidence.len() <= MAX_ENDPOINT_EVIDENCE
        }
}

fn merge_one_exec(
    eps: &mut Vec<EndpointEntry>,
    e: Endpoint,
    p: &ProviderId,
    t: Duration,
    rtt: Option<Duration>,
    max: usize,
)
    requires
        endpoints_wf(old(eps)@.map_values(|x: EndpointEntry| x@)),
    ensures
        final(eps)@.map_values(|x: EndpointEntry| x@) == merge_one(
            old(eps)@.map_values(|x: EndpointEntry| x@),
            e,
            *p,
            t,
            rtt,
            max as int,
        ),
        endpoints_wf(final(eps)@.map_values(|x: EndpointEntry| x@)),
{
    let ghost v = eps@.map_values(|x: EndpointEntry| x@);
    let mut i: usize = 0;
    while i < eps.len()
        invariant
            i <= eps@.len(),
            v == eps@.map_values(|x: EndpointEntry| x@),
            eps@ == old(eps)@,
            endpoints_wf(v),
            forall|k: int| 0 <= k < i ==> (#[trigger] v[k]).endpoint != e,
        decreases eps@.len() - i,
    {
        if compare_endpoints(&eps[i].endpoint, &e) == LexOrder::Equal {
            proof {
                assert(v[i as int].endpoint == e);
                assert(has_endpoint(v, e));
                let c = endpoint_index(v, e);
                if c != i {
                    if c < i {
                        assert(v[c].endpoint != e);
                    } else {
                        assert(v[i as int].endpoint != v[c].endpoint);
                    }
                }
                assert(c == i);
            }
            let mut entry = eps.remove(i);
            assert(entry.record.evidence@ == v[i as int].record.evidence);
            touch_evidence_exec(&mut entry.record.evidence, p, t, rtt);
            eps.insert(i, entry);
            proof {
                let w = eps@.map_values(|x: EndpointEntry| x@);
                let m = merge_one(v, e, *p, t, rtt, max as int);
                assert(w[i as int] == m[i as int]);
                assert(w =~= m);
                assert forall|a: int| 0 <= a < w.len() implies (#[trigger] w[a]).endpoint == v[a].endpoint by {}
            }
            return;
        }
        i = i + 1;
    }
    proof {
        assert(!has_endpoint(v, e));
    }
    if eps.len() >= max {
        return;
    }
    let mut evidence: Vec<EndpointEvidence> = Vec::new();
    evidence.push(EndpointEvidence { provider: p.duplicate(), expires_at: t, round_trip_time: rtt, observations: 1 });
    eps.push(
        EndpointEntry {
            endpoint: e,
            record: EndpointRecord {
                evidence,
                successful_connections: 0,
                total_failures: 0,
                consecutive_failures: 0,
                connection_rtt: None,
            },
        },
    );
    proof {
        let w = eps@.map_values(|x: EndpointEntry| x@);
        assert(w =~= v.push(new_endpoint(e, *p, t, rtt)));
        assert(pkey(w[w.len() - 1].record.evidence[0].provider) == pkey(*p));
        assert(has_evidence(w[w.len() - 1].record.evidence, pkey(*p)));
    }
}

// ---------------------------------------------------------------------------
// Pruning sources and evidence
// ---------------------------------------------------------------------------

/// The sources that `keep` accepts, in order.
pub open spec fn keep_sources(s: Seq<SourceEntry>, keep: spec_fn(SourceEntry) -> bool) -> Seq<
    SourceEntry,
>
    decreases s.len(),
{
    if s.len() == 0 {
        s
    } else {
        let rest = keep_sources(s.drop_last(), keep);
        if keep(s.last()) {
            rest.push(s.last())
        } else {
            rest
        }
    }
}

/// The evidence that `keep` accepts, in order.
pub open spec fn keep_evidence(
    ev: Seq<EndpointEvidence>,
    keep: spec_fn(EndpointEvidence) -> bool,
) -> Seq<EndpointEvidence>
    decreases ev.len(),
{
    if ev.len() == 0 {
        ev
    } else {
        let rest = keep_evidence(ev.drop_last(), keep);
        if keep(ev.last()) {
            rest.push(ev.last())
        } else {
            rest
        }
    }
}

/// Each endpoint with only the evidence that `keep` accepts; endpoints left
/// without evidence are dropped.
pub open spec fn keep_endpoints(
    eps: Seq<EndpointView>,
    keep: spec_fn(EndpointEvidence) -> bool,
) -> Seq<EndpointView>
    decreases eps.len(),
{
    if eps.len() == 0 {
        eps
    } else {
        let rest = keep_endpoints(eps.drop_last(), keep);
        let e = eps.last();
        let ev = keep_evidence(e.record.evidence, keep);
        if ev.len() > 0 {
            rest.push(EndpointView { endpoint: e.endpoint, record: RecordView { evidence: ev, ..e.record } })
        } else {
            rest
        }
    }
}

pub open spec fn prune_peer(
    p: PeerView,
    keep_source: spec_fn(SourceEntry) -> bool,
    keep_ev: spec_fn(EndpointEvidence) -> bool,
) -> PeerView {
    PeerView {
        sources: keep_sources(p.sources, keep_source),
        endpoints: keep_endpoints(p.endpoints, keep_ev),
        ..p
    }
}

pub open spec fn source_not_from(k: (ProviderKind, Seq<char>)) -> spec_fn(SourceEntry) -> bool {
    |x: SourceEntry| pkey(x.provider) != k
}

pub open spec fn evidence_not_from(k: (ProviderKind, Seq<char>)) -> spec_fn(EndpointEvidence) -> bool {
    |x: EndpointEvidence| pkey(x.provider) != k
}

pub open spec fn source_alive(now: Duration) -> spec_fn(SourceEntry) -> bool {
    |x: SourceEntry| x.expires_at.spec_nanos() > now.spec_nanos()
}

pub open spec fn evidence_alive(now: Duration) -> spec_fn(EndpointEvidence) -> bool {
    |x: EndpointEvidence| x.expires_at.spec_nanos() > now.spec_nanos()
}

/// The peer once provider `k` withdraws everything it said about it.
pub open spec fn withdrawn_peer(p: PeerView, k: (ProviderKind, Seq<char>)) -> PeerView {
    prune_peer(p, source_not_from(k), evidence_not_from(k))
}

/// The peer at time `now`: only the sources and evidence that have not yet
/// expired.
pub open spec fn aged_peer(p: PeerView, now: Duration) -> PeerView {
    prune_peer(p, source_alive(now), evidence_alive(now))
}

/// What a pruning pass removes: one provider's word, or what has expired.
enum Prune {
    Provider(ProviderId),
    Alive(Duration),
}

spec fn prune_sources_pred(rule: Prune) -> spec_fn(SourceEntry) -> bool {
    match rule {
        Prune::Provider(p) => source_not_from(pkey(p)),
        Prune::Alive(now) => source_alive(now),
    }
}

spec fn prune_evidence_pred(rule: Prune) -> spec_fn(EndpointEvidence) -> bool {
    match rule {
        Prune::Provider(p) => evidence_not_from(pkey(p)),
        Prune::Alive(now) => evidence_alive(now),
    }
}

fn keeps_source(rule: &Prune, x: &SourceEntry) -> (r: bool)
    ensures
        r == prune_sources_pred(*rule)(*x),
{
    match rule {
        Prune::Provider(p) => !x.provider.same_as(p),
        Prune::Alive(now) => x.expires_at.as_nanos() > now.as_nanos(),
    }
}

fn keeps_evidence(rule: &Prune, x: &EndpointEvidence) -> (r: bool)
    ensures
        r == prune_evidence_pred(*rule)(*x),
{
    match rule {
        Prune::Provider(p) => !x.provider.same_as(p),
        Prune::Alive(now) => x.expires_at.as_nanos() > now.as_nanos(),
    }
}

fn copy_evidence(x: &EndpointEvidence) -> (r: EndpointEvidence)
    ensures
        r == *x,
{
    EndpointEvidence {
        provider: x.provider.duplicate(),
        expires_at: x.expires_at,
        round_trip_time: x.round_trip_time,
        observations: x.observations,
    }
}

fn keep_evidence_exec(ev: &Vec<EndpointEvidence>, rule: &Prune) -> (r: Vec<EndpointEvidence>)
    requires
        evidence_distinct(ev@),
    ensures
        r@ == keep_evidence(ev@, prune_evidence_pred(*rule)),
        evidence_distinct(r@),
        r@.len() <= ev@.len(),
{
    let ghost keep = prune_evidence_pred(*rule);
    let mut out: Vec<EndpointEvidence> = Vec::new();
    let mut i: usize = 0;
    while i < ev.len()
        invariant
            i <= ev@.len(),
            keep == prune_evidence_pred(*rule),
            evidence_distinct(ev@),
            out@ == keep_evidence(ev@.subrange(0, i as int), keep),
            evidence_distinct(out@),
            out@.len() <= i,
            forall|a: int|
                0 <= a < out@.len() ==> exists|b: int| 0 <= b < i && #[trigger] out@[a] == ev@[b],
        decreases ev@.len() - i,
    {
        proof {
            assert(ev@.subrange(0, i + 1).drop_last() =~= ev@.subrange(0, i as int));
        }
        if keeps_evidence(rule, &ev[i]) {
            let ghost before = out@;
            out.push(copy_evidence(&ev[i]));
            proof {
                assert forall|a: int, b: int| 0 <= a < b < out@.len() implies pkey(
                    #[trigger] out@[a].provider,
                ) != pkey(#[trigger] out@[b].provider) by {
                    if b == out@.len() - 1 {
                        let w = choose|w: int| 0 <= w < i && #[trigger] before[a] == ev@[w];
                        assert(out@[a] == before[a]);
                    } else {
                        assert(out@[a] == before[a] && out@[b] == before[b]);
                    }
                }
                assert forall|a: int| 0 <= a < out@.len() implies exists|b: int|
                    0 <= b < i + 1 && #[trigger] out@[a] == ev@[b] by {
                    if a == out@.len() - 1 {
                        assert(out@[a] == ev@[i as int]);
                    } else {
                        assert(out@[a] == before[a]);
                        let w = choose|w: int| 0 <= w < i && #[trigger] before[a] == ev@[w];
                    }
                }
            }
        } else {
            proof {
                assert forall|a: int| 0 <= a < out@.len() implies exists|b: int|
                    0 <= b < i + 1 && #[trigger] out@[a] == ev@[b] by {
                    let w = choose|w: int| 0 <= w < i && #[trigger] out@[a] == ev@[w];
                }
            }
        }
        i = i + 1;
    }
    proof {
        assert(ev@.subrange(0, i as int) =~= ev@);
    }
    out
}

impl PeerRecord {
    /// Drops the sources and evidence that `rule` removes, and endpoints left
    /// without evidence.
    fn prune(&mut self, rule: &Prune)
        requires
            peer_wf(old(self)@),
        ensures
            final(self)@ == prune_peer(
                old(self)@,
                prune_sources_pred(*rule),
                prune_evidence_pred(*rule),
            ),
            peer_wf(final(self)@),
    {
        let ghost base = self@;
        let ghost ks = prune_sources_pred(*rule);
        let ghost ke = prune_evidence_pred(*rule);
        let mut kept: Vec<SourceEntry> = Vec::new();
        let mut i: usize = 0;
        while i < self.sources.len()
            invariant
                i <= base.sources.len(),
                self@ == base,
                ks == prune_sources_pred(*rule),
                peer_wf(base),
                kept@ == keep_sources(base.sources.subrange(0, i as int), ks),
                sources_distinct(kept@),
                forall|a: int|
                    0 <= a < kept@.len() ==> exists|b: int|
                        0 <= b < i && #[trigger] kept@[a] == base.sources[b],
            decreases base.sources.len() - i,
        {
            proof {
                assert(base.sources.subrange(0, i + 1).drop_last() =~= base.sources.subrange(0, i as int));
            }
            if keeps_source(rule, &self.sources[i]) {
                let ghost before = kept@;
                let x = &self.sources[i];
                kept.push(SourceEntry { provider: x.provider.duplicate(), expires_at: x.expires_at });
                proof {
                    assert(kept@[kept@.len() - 1] == base.sources[i as int]);
                    assert forall|a: int, b: int| 0 <= a < b < kept@.len() implies pkey(
                        #[trigger] kept@[a].provider,
                    ) != pkey(#[trigger] kept@[b].provider) by {
                        if b == kept@.len() - 1 {
                            let w = choose|w: int| 0 <= w < i && #[trigger] before[a] == base.sources[w];
                            assert(kept@[a] == before[a]);
                        } else {
                            assert(kept@[a] == before[a] && kept@[b] == before[b]);
                        }
                    }
                    assert forall|a: int| 0 <= a < kept@.len() implies exists|b: int|
                        0 <= b < i + 1 && #[trigger] kept@[a] == base.sources[b] by {
                        if a == kept@.len() - 1 {
                        } else {
                            assert(kept@[a] == before[a]);
                            let w = choose|w: int| 0 <= w < i && #[trigger] before[a] == base.sources[w];
                        }
                    }
                }
            } else {
                proof {
                    assert forall|a: int| 0 <= a < kept@.len() implies exists|b: int|
                        0 <= b < i + 1 && #[trigger] kept@[a] == base.sources[b] by {
                        let w = choose|w: int| 0 <= w < i && #[trigger] kept@[a] == base.sources[w];
                    }
                }
            }
            i = i + 1;
        }
        proof {
            assert(base.sources.subrange(0, i as int) =~= base.sources);
        }
        let mut kept_eps: Vec<EndpointEntry> = Vec::new();
        let mut j: usize = 0;
        while j < self.endpoints.len()
            invariant
                j <= base.endpoints.len(),
                self@ == base,
                ke == prune_evidence_pred(*rule),
                peer_wf(base),
                kept_eps@.map_values(|x: EndpointEntry| x@) == keep_endpoints(
                    base.endpoints.subrange(0, j as int),
                    ke,
                ),
                endpoints_wf(kept_eps@.map_values(|x: EndpointEntry| x@)),
                forall|a: int|
                    0 <= a < kept_eps@.len() ==> exists|b: int|
                        0 <= b < j && (#[trigger] kept_eps@[a]).endpoint == base.endpoints[b].endpoint,
            decreases base.endpoints.len() - j,
        {
            let ghost before = kept_eps@.map_values(|x: EndpointEntry| x@);
            let entry = &self.endpoints[j];
            proof {
                assert(base.endpoints[j as int] == entry@);
                assert(base.endpoints.subrange(0, j + 1).drop_last() =~= base.endpoints.subrange(
                    0,
                    j as int,
                ));
            }
            let evidence = keep_evidence_exec(&entry.record.evidence, rule);
            if evidence.len() > 0 {
                let ghost before_entries = kept_eps@;
                kept_eps.push(
                    EndpointEntry {
                        endpoint: entry.endpoint,
                        record: EndpointRecord {
                            evidence,
                            successful_connections: entry.record.successful_connections,
                            total_failures: entry.record.total_failures,
                            consecutive_failures: entry.record.consecutive_failures,
                            connection_rtt: entry.record.connection_rtt,
                        },
                    },
                );
                proof {
                    let after = kept_eps@.map_values(|x: EndpointEntry| x@);
                    assert(after =~= keep_endpoints(base.endpoints.subrange(0, j + 1), ke));
                    assert forall|a: int, b: int| 0 <= a < b < after.len() implies (
                    #[trigger] after[a]).endpoint != (#[trigger] after[b]).endpoint by {
                        if b == after.len() - 1 {
                            assert(after[a] == before[a]);
                            assert(kept_eps@[a] == before_entries[a]);
                            let w = choose|w: int|
                                0 <= w < j && (#[trigger] before_entries[a]).endpoint
                                    == base.endpoints[w].endpoint;
                        } else {
                            assert(after[a] == before[a] && after[b] == before[b]);
                        }
                    }
                    assert forall|a: int| #![trigger after[a]] 0 <= a < after.len() implies {
                        &&& evidence_distinct(after[a].record.evidence)
                        &&& 0 < after[a].record.evidence.len() <= MAX_ENDPOINT_EVIDENCE
                    } by {
                        if a < after.len() - 1 {
                            assert(after[a] == before[a]);
                        }
                    }
                    assert forall|a: int| 0 <= a < kept_eps@.len() implies exists|b: int|
                        0 <= b < j + 1 && (#[trigger] kept_eps@[a]).endpoint
                            == base.endpoints[b].endpoint by {
                        if a < kept_eps@.len() - 1 {
                            assert(kept_eps@[a] == before_entries[a]);
                            let w = choose|w: int|
                                0 <= w < j && (#[trigger] before_entries[a]).endpoint
                                    == base.endpoints[w].endpoint;
                        }
                    }
                }
            } else {
                proof {
                    assert forall|a: int| 0 <= a < kept_eps@.len() implies exists|b: int|
                        0 <= b < j + 1 && (#[trigger] kept_eps@[a]).endpoint
                            == base.endpoints[b].endpoint by {
                        let w = choose|w: int|
                            0 <= w < j && (#[trigger] kept_eps@[a]).endpoint
                                == base.endpoints[w].endpoint;
                    }
                }
            }
            j = j + 1;
        }
        proof {
            assert(base.endpoints.subrange(0, j as int) =~= base.endpoints);
        }
        self.sources = kept;
        self.endpoints = kept_eps;
        proof {
            assert(self@ =~= prune_peer(base, ks, ke));
        }
    }
}

impl PeerRecord {
    /// Merges one observation, already reduced to `reported` endpoints and
    /// valid until `t`.
    fn observe(&mut self, obs: &Observation, reported: &Vec<Endpoint>, t: Duration, max: usize)
        requires
            peer_wf(old(self)@),
        ensures
            final(self)@ == observe_peer(old(self)@, *obs, reported@, t, max as int),
            peer_wf(final(self)@),
    {
        let ghost base = self@;
        if obs.sequence >= self.last_sequence {
            self.protocol = obs.protocol;
            self.capabilities = obs.capabilities;
            self.last_sequence = obs.sequence;
        }
        upsert_source_exec(&mut self.sources, &obs.provider, t);
        let ghost key = pkey(obs.provider);
        let mut k: usize = 0;
        assert(reported@.subrange(0, 0) =~= Seq::<Endpoint>::empty());
        while k < reported.len()
            invariant
                k <= reported@.len(),
                key == pkey(obs.provider),
                self.endpoints@.map_values(|x: EndpointEntry| x@) == merge_endpoints(
                    base.endpoints,
                    reported@.subrange(0, k as int),
                    obs.provider,
                    t,
                    obs.round_trip_time,
                    max as int,
                ),
                endpoints_wf(self.endpoints@.map_values(|x: EndpointEntry| x@)),
                self.presence_id == base.presence_id,
                self.preferred_endpoint == base.preferred_endpoint,
                self.quarantined == base.quarantined,
                self.protocol == (if obs.sequence >= base.last_sequence {
                    obs.protocol
                } else {
                    base.protocol
                }),
                self.capabilities == (if obs.sequence >= base.last_sequence {
                    obs.capabilities
                } else {
                    base.capabilities
                }),
                self.last_sequence == (if obs.sequence >= base.last_sequence {
                    obs.sequence
                } else {
                    base.last_sequence
                }),
                self.sources@ == upsert_source(base.sources, obs.provider, t),
                sources_distinct(self.sources@),
            decreases reported@.len() - k,
        {
            merge_one_exec(&mut self.endpoints, reported[k], &obs.provider, t, obs.round_trip_time, max);
            proof {
                assert(reported@.subrange(0, k + 1).drop_last() =~= reported@.subrange(0, k as int));
            }
            k = k + 1;
        }
        proof {
            assert(reported@.subrange(0, k as int) =~= reported@);
            assert(self@ =~= observe_peer(base, *obs, reported@, t, max as int));
        }
    }
}

// ---------------------------------------------------------------------------
// The table
// ---------------------------------------------------------------------------

/// `a` sorts before `b`: the order of their bytes.
pub open spec fn id_before(a: PresenceId, b: PresenceId) -> bool {
    lex_lt(a.0@, b.0@)
}

/// Presence identifiers are strictly and totally ordered.
pub proof fn lemma_id_order(a: PresenceId, b: PresenceId, c: PresenceId)
    ensures
        !id_before(a, a),
        id_before(a, b) ==> !id_before(b, a),
        id_before(a, b) && id_before(b, c) ==> id_before(a, c),
        a == b || id_before(a, b) || id_before(b, a),
{
    lemma_lex_lt_irreflexive(a.0@);
    if id_before(a, b) {
        lemma_lex_lt_asymmetric(a.0@, b.0@);
        if id_before(b, c) {
            lemma_lex_lt_transitive(a.0@, b.0@, c.0@);
        }
    }
    if a != b {
        if a.0@ == b.0@ {
            PresenceId::lemma_eq_by_bytes(a, b);
        }
        lemma_lex_total(a.0@, b.0@);
    }
}

/// Peers sorted strictly by identifier, each well formed.
pub open spec fn table_wf(s: Seq<PeerView>) -> bool {
    &&& forall|i: int, j: int|
        0 <= i < j < s.len() ==> id_before(#[trigger] s[i].presence_id, #[trigger] s[j].presence_id)
    &&& forall|i: int| 0 <= i < s.len() ==> peer_wf(#[trigger] s[i])
}

/// The peers by identifier.
pub open spec fn peer_map(s: Seq<PeerView>) -> Map<PresenceId, PeerView> {
    Map::new(
        |id: PresenceId| exists|i: int| 0 <= i < s.len() && (#[trigger] s[i]).presence_id == id,
        |id: PresenceId| s[choose|i: int| 0 <= i < s.len() && (#[trigger] s[i]).presence_id == id],
    )
}

pub open spec fn ids_distinct(s: Seq<PeerView>) -> bool {
    forall|i: int, j: int|
        0 <= i < s.len() && 0 <= j < s.len() && i != j ==> (#[trigger] s[i]).presence_id != (
        #[trigger] s[j]).presence_id
}

proof fn lemma_sorted_distinct(s: Seq<PeerView>)
    requires
        table_wf(s),
    ensures
        ids_distinct(s),
{
    assert forall|i: int, j: int|
        0 <= i < s.len() && 0 <= j < s.len() && i != j implies (#[trigger] s[i]).presence_id != (
        #[trigger] s[j]).presence_id by {
        if i < j {
            lemma_id_order(s[i].presence_id, s[j].presence_id, s[j].presence_id);
        } else {
            lemma_id_order(s[j].presence_id, s[i].presence_id, s[i].presence_id);
        }
    }
}

/// The peer at position `i` is the map's entry for its identifier.
proof fn lemma_peer_map_at(s: Seq<PeerView>, i: int)
    requires
        ids_distinct(s),
        0 <= i < s.len(),
    ensures
        peer_map(s).contains_key(s[i].presence_id),
        peer_map(s)[s[i].presence_id] == s[i],
{
    let id = s[i].presence_id;
    assert(exists|k: int| 0 <= k < s.len() && (#[trigger] s[k]).presence_id == id);
    let c = choose|k: int| 0 <= k < s.len() && (#[trigger] s[k]).presence_id == id;
    assert(c == i);
}

/// A table with distinct identifiers whose entries are exactly those of
/// `m` has `m` as its map.
proof fn lemma_peer_map_eq(t: Seq<PeerView>, m: Map<PresenceId, PeerView>)
    requires
        ids_distinct(t),
        forall|i: int|
            0 <= i < t.len() ==> m.contains_key((#[trigger] t[i]).presence_id) && m[t[i].presence_id]
                == t[i],
        forall|id: PresenceId|
            m.contains_key(id) ==> exists|i: int| 0 <= i < t.len() && (#[trigger] t[i]).presence_id == id,
    ensures
        peer_map(t) == m,
{
    assert forall|id: PresenceId| #[trigger] peer_map(t).contains_key(id) <==> m.contains_key(id) by {
        if peer_map(t).contains_key(id) {
            let i = choose|i: int| 0 <= i < t.len() && (#[trigger] t[i]).presence_id == id;
            assert(m.contains_key(t[i].presence_id));
        }
    }
    assert forall|id: PresenceId| #[trigger] peer_map(t).contains_key(id) implies peer_map(t)[id]
        == m[id] by {
        let i = choose|i: int| 0 <= i < t.len() && (#[trigger] t[i]).presence_id == id;
        lemma_peer_map_at(t, i);
    }
    assert(peer_map(t) =~= m);
}

proof fn lemma_table_update(s: Seq<PeerView>, i: int, p: PeerView)
    requires
        table_wf(s),
        0 <= i < s.len(),
        p.presence_id == s[i].presence_id,
        peer_wf(p),
    ensures
        table_wf(s.update(i, p)),
        peer_map(s.update(i, p)) == peer_map(s).insert(p.presence_id, p),
{
    let t = s.update(i, p);
    let m = peer_map(s).insert(p.presence_id, p);
    lemma_sorted_distinct(s);
    assert forall|a: int, b: int| 0 <= a < b < t.len() implies id_before(
        #[trigger] t[a].presence_id,
        #[trigger] t[b].presence_id,
    ) by {
        assert(t[a].presence_id == s[a].presence_id && t[b].presence_id == s[b].presence_id);
    }
    assert forall|a: int| 0 <= a < t.len() implies peer_wf(#[trigger] t[a]) by {
        if a != i {
            assert(t[a] == s[a]);
        }
    }
    lemma_sorted_distinct(t);
    assert forall|id: PresenceId| m.contains_key(id) implies exists|k: int|
        0 <= k < t.len() && (#[trigger] t[k]).presence_id == id by {
        if id != p.presence_id {
            let w = choose|w: int| 0 <= w < s.len() && (#[trigger] s[w]).presence_id == id;
            assert(t[w] == s[w]);
        } else {
            assert(t[i] == p);
        }
    }
    assert forall|k: int| 0 <= k < t.len() implies m.contains_key((#[trigger] t[k]).presence_id)
        && m[t[k].presence_id] == t[k] by {
        if k != i {
            assert(t[k] == s[k]);
            lemma_peer_map_at(s, k);
        }
    }
    lemma_peer_map_eq(t, m);
}

proof fn lemma_table_remove(s: Seq<PeerView>, i: int)
    requires
        table_wf(s),
        0 <= i < s.len(),
    ensures
        table_wf(s.remove(i)),
        peer_map(s.remove(i)) == peer_map(s).remove(s[i].presence_id),
{
    let t = s.remove(i);
    let m = peer_map(s).remove(s[i].presence_id);
    lemma_sorted_distinct(s);
    assert forall|a: int, b: int| 0 <= a < b < t.len() implies id_before(
        #[trigger] t[a].presence_id,
        #[trigger] t[b].presence_id,
    ) by {
        let oa = if a < i {
            a
        } else {
            a + 1
        };
        let ob = if b < i {
            b
        } else {
            b + 1
        };
        assert(t[a] == s[oa] && t[b] == s[ob]);
    }
    assert forall|a: int| 0 <= a < t.len() implies peer_wf(#[trigger] t[a]) by {
        let oa = if a < i {
            a
        } else {
            a + 1
        };
        assert(t[a] == s[oa]);
    }
    lemma_sorted_distinct(t);
    assert forall|id: PresenceId| m.contains_key(id) implies exists|k: int|
        0 <= k < t.len() && (#[trigger] t[k]).presence_id == id by {
        let w = choose|w: int| 0 <= w < s.len() && (#[trigger] s[w]).presence_id == id;
        if w < i {
            assert(t[w] == s[w]);
        } else {
            assert(w != i);
            assert(t[w - 1] == s[w]);
        }
    }
    assert forall|k: int| 0 <= k < t.len() implies m.contains_key((#[trigger] t[k]).presence_id)
        && m[t[k].presence_id] == t[k] by {
        let ok = if k < i {
            k
        } else {
            k + 1
        };
        assert(t[k] == s[ok]);
        lemma_peer_map_at(s, ok);
    }
    lemma_peer_map_eq(t, m);
}

/// An observation the registry drops: its own echo, an already expired
/// one, or a new presence once the table is full.
pub open spec fn observation_ignored(
    obs: Observation,
    local: LocalPresence,
    config: DiscoveryConfig,
    table: Seq<PeerView>,
) -> bool {
    ||| obs.presence_id == local.presence_id
    ||| obs.ttl.spec_nanos() == 0
    ||| (!peer_map(table).contains_key(obs.presence_id) && table.len() >= config.max_peers)
}

/// When an observation received at `now` stops counting: its time to live,
/// held within the configured bounds, after `now`.
pub open spec fn observation_expiry(obs: Observation, config: DiscoveryConfig, now: Duration) -> Duration {
    Duration::spec_from_nanos(
        now.spec_nanos() + clamp_nanos(
            obs.ttl.spec_nanos(),
            config.min_observation_ttl.spec_nanos(),
            config.max_observation_ttl.spec_nanos(),
        ),
    )
}

/// The peer an observation is merged into: the known one, or a fresh one.
pub open spec fn observation_base(m: Map<PresenceId, PeerView>, obs: Observation) -> PeerView {
    if m.contains_key(obs.presence_id) {
        m[obs.presence_id]
    } else {
        fresh_peer(obs)
    }
}

/// The mean of two spans, or the second one when their sum would not fit.
pub open spec fn average_nanos(a: int, b: int) -> int {
    if a + b <= MAX_NANOS {
        (a + b) / 2
    } else {
        b
    }
}

/// An endpoint's history after a successful secure connection.
pub open spec fn connected_record(r: RecordView, handshake_time: Duration) -> RecordView {
    RecordView {
        successful_connections: saturating_inc(r.successful_connections),
        consecutive_failures: 0,
        connection_rtt: Some(
            match r.connection_rtt {
                Some(previous) => Duration::spec_from_nanos(
                    average_nanos(previous.spec_nanos(), handshake_time.spec_nanos()),
                ),
                None => handshake_time,
            },
        ),
        ..r
    }
}

/// An endpoint's history after a failed connection attempt.
pub open spec fn failed_record(r: RecordView) -> RecordView {
    RecordView {
        total_failures: saturating_inc(r.total_failures),
        consecutive_failures: saturating_inc(r.consecutive_failures),
        ..r
    }
}

/// The peer after a connection to its `i`-th endpoint ended with `outcome`:
/// a success makes that endpoint preferred; a second failure in a row takes
/// the preference away; a failed authentication quarantines the presence.
pub open spec fn connection_result_peer(p: PeerView, i: int, outcome: ConnectionOutcome) -> PeerView {
    let e = p.endpoints[i];
    match outcome {
        ConnectionOutcome::Success { handshake_time } => PeerView {
            endpoints: p.endpoints.update(
                i,
                EndpointView { endpoint: e.endpoint, record: connected_record(e.record, handshake_time) },
            ),
            preferred_endpoint: Some(e.endpoint),
            ..p
        },
        ConnectionOutcome::Failure(failure) => {
            let record = failed_record(e.record);
            PeerView {
                endpoints: p.endpoints.update(i, EndpointView { endpoint: e.endpoint, record }),
                preferred_endpoint: if p.preferred_endpoint == Some(e.endpoint)
                    && record.consecutive_failures >= 2 {
                    None
                } else {
                    p.preferred_endpoint
                },
                quarantined: p.quarantined || failure == ConnectionFailure::AuthenticationFailed,
                ..p
            }
        },
    }
}

/// The table at time `now`: every peer aged, and those left without a
/// source dropped.
pub open spec fn aged_table(s: Seq<PeerView>, now: Duration) -> Seq<PeerView>
    decreases s.len(),
{
    if s.len() == 0 {
        s
    } else {
        let rest = aged_table(s.drop_last(), now);
        let p = aged_peer(s.last(), now);
        if p.sources.len() > 0 {
            rest.push(p)
        } else {
            rest
        }
    }
}

/// The peers that expire at `now`, in table order.
pub open spec fn expired_ids(s: Seq<PeerView>, now: Duration) -> Seq<PresenceId>
    decreases s.len(),
{
    if s.len() == 0 {
        Seq::empty()
    } else {
        let rest = expired_ids(s.drop_last(), now);
        if aged_peer(s.last(), now).sources.len() == 0 {
            rest.push(s.last().presence_id)
        } else {
            rest
        }
    }
}

/// Whether aging changed a surviving peer: it lost a source or an endpoint.
pub open spec fn aging_changed(p: PeerView, now: Duration) -> bool {
    let q = aged_peer(p, now);
    q.sources.len() > 0 && (q.sources.len() != p.sources.len() || q.endpoints.len()
        != p.endpoints.len())
}

/// The surviving peers that aging changed, aged, in table order.
pub open spec fn changed_peers(s: Seq<PeerView>, now: Duration) -> Seq<PeerView>
    decreases s.len(),
{
    if s.len() == 0 {
        Seq::empty()
    } else {
        let rest = changed_peers(s.drop_last(), now);
        if aging_changed(s.last(), now) {
            rest.push(aged_peer(s.last(), now))
        } else {
            rest
        }
    }
}

/// The registry of known peers, kept sorted by presence identifier.
pub struct PeerTable {
    peers: Vec<PeerRecord>,
}

impl View for PeerTable {
    type V = Seq<PeerView>;

    closed spec fn view(&self) -> Seq<PeerView> {
        self.peers@.map_values(|p: PeerRecord| p@)
    }
}

impl PeerTable {
    pub open spec fn wf(&self) -> bool {
        table_wf(self@)
    }

    /// The peers by identifier.
    pub open spec fn peers(&self) -> Map<PresenceId, PeerView> {
        peer_map(self@)
    }

    /// An empty registry.
    pub fn new() -> (r: Self)
        ensures
            r.wf(),
            r@.len() == 0,
    {
        let r = PeerTable { peers: Vec::new() };
        assert(r@ =~= Seq::<PeerView>::empty());
        r
    }

    /// The number of known peers.
    pub fn len(&self) -> (r: usize)
        ensures
            r == self@.len(),
    {
        self.peers.len()
    }

    /// Where a presence is, or where it would go.
    fn find_peer(&self, id: &PresenceId) -> (r: Result<usize, usize>)
        requires
            self.wf(),
        ensures
            r matches Ok(i) ==> i < self@.len() && self@[i as int].presence_id == *id,
            r matches Err(j) ==> {
                &&& j <= self@.len()
                &&& !peer_map(self@).contains_key(*id)
                &&& forall|k: int| 0 <= k < j ==> id_before((#[trigger] self@[k]).presence_id, *id)
                &&& forall|k: int| j <= k < self@.len() ==> id_before(*id, (#[trigger] self@[k]).presence_id)
            },
    {
        let ghost s = self@;
        let mut i: usize = 0;
        while i < self.peers.len()
            invariant
                i <= s.len(),
                s == self@,
                table_wf(s),
                forall|k: int| 0 <= k < i ==> id_before((#[trigger] s[k]).presence_id, *id),
            decreases s.len() - i,
        {
            let here = &self.peers[i];
            assert(s[i as int] == here@);
            let c = lex_compare(here.presence_id.0.as_slice(), id.0.as_slice());
            if c == LexOrder::Equal {
                proof {
                    PresenceId::lemma_eq_by_bytes(here.presence_id, *id);
                }
                return Ok(i);
            }
            if c == LexOrder::Greater {
                proof {
                    assert(id_before(*id, s[i as int].presence_id));
                    assert forall|k: int| i <= k < s.len() implies id_before(
                        *id,
                        (#[trigger] s[k]).presence_id,
                    ) by {
                        if k > i {
                            lemma_id_order(*id, s[i as int].presence_id, s[k].presence_id);
                        }
                    }
                    if peer_map(s).contains_key(*id) {
                        let w = choose|w: int| 0 <= w < s.len() && (#[trigger] s[w]).presence_id == *id;
                        lemma_id_order(*id, *id, *id);
                    }
                }
                return Err(i);
            }
            i = i + 1;
        }
        proof {
            if peer_map(s).contains_key(*id) {
                let w = choose|w: int| 0 <= w < s.len() && (#[trigger] s[w]).presence_id == *id;
                lemma_id_order(*id, *id, *id);
            }
        }
        Err(i)
    }

    /// Merges one untrusted observation received at `now` and returns the
    /// event it causes: the peer appeared or changed. Echoes of the local
    /// presence, expired observations and new peers beyond the table's
    /// capacity are dropped without an event.
    pub fn apply_observation(
        &mut self,
        observation: Observation,
        local: &LocalPresence,
        config: &DiscoveryConfig,
        now: Duration,
    ) -> (r: Option<DiscoveryEvent>)
        requires
            old(self).wf(),
            config.min_observation_ttl.spec_nanos() <= config.max_observation_ttl.spec_nanos(),
            now.spec_nanos() + clamp_nanos(
                observation.ttl.spec_nanos(),
                config.min_observation_ttl.spec_nanos(),
                config.max_observation_ttl.spec_nanos(),
            ) <= MAX_NANOS,
        ensures
            final(self).wf(),
            old(self)@.len() <= config.max_peers ==> final(self)@.len() <= config.max_peers,
            observation_ignored(observation, *local, *config, old(self)@) ==> final(self)@ == old(
                self,
            )@ && r is None,
            !observation_ignored(observation, *local, *config, old(self)@) ==> exists|
                reported: Seq<Endpoint>,
            |
                normalized(reported, observation.endpoints@, config.max_endpoints_per_peer as int)
                    && final(self).peers() == old(self).peers().insert(
                    observation.presence_id,
                    observe_peer(
                        observation_base(old(self).peers(), observation),
                        observation,
                        reported,
                        observation_expiry(observation, *config, now),
                        config.max_endpoints_per_peer as int,
                    ),
                ),
            !observation_ignored(observation, *local, *config, old(self)@) ==> match r {
                Some(DiscoveryEvent::PeerAppeared(s)) => !old(self).peers().contains_key(
                    observation.presence_id,
                ) && snapshot_of(s, final(self).peers()[observation.presence_id], local.protocol),
                Some(DiscoveryEvent::PeerChanged(s)) => old(self).peers().contains_key(
                    observation.presence_id,
                ) && snapshot_of(s, final(self).peers()[observation.presence_id], local.protocol),
                _ => false,
            },
    {
        let ghost old_view = self@;
        proof {
            lemma_sorted_distinct(old_view);
        }
        if observation.presence_id.same_as(&local.presence_id) || observation.ttl.is_zero() {
            return None;
        }
        let pos = self.find_peer(&observation.presence_id);
        let is_new = match pos {
            Ok(_) => false,
            Err(_) => true,
        };
        if is_new && self.peers.len() >= config.max_peers {
            return None;
        }
        let ttl = observation.ttl.clamp(config.min_observation_ttl, config.max_observation_ttl);
        let expires_at = match now.checked_add(ttl) {
            Some(t) => t,
            None => {
                return None;
            },
        };
        let ghost expiry = observation_expiry(observation, *config, now);
        proof {
            Duration::lemma_nanos_range(now);
            Duration::lemma_nanos_range(ttl);
            Duration::lemma_from_nanos(now.spec_nanos() + ttl.spec_nanos());
            Duration::lemma_eq_by_nanos(expires_at, expiry);
        }
        let reported = normalize_endpoints(&observation.endpoints, config.max_endpoints_per_peer);
        let (idx, mut peer) = match pos {
            Ok(i) => {
                proof {
                    lemma_peer_map_at(old_view, i as int);
                }
                let p = self.peers.remove(i);
                (i, p)
            },
            Err(j) => {
                let p = PeerRecord {
                    presence_id: observation.presence_id,
                    protocol: observation.protocol,
                    capabilities: observation.capabilities,
                    last_sequence: observation.sequence,
                    sources: Vec::new(),
                    endpoints: Vec::new(),
                    preferred_endpoint: None,
                    quarantined: false,
                };
                proof {
                    assert(p@ =~= fresh_peer(observation));
                }
                (j, p)
            },
        };
        proof {
            assert(peer@ == observation_base(peer_map(old_view), observation));
        }
        peer.observe(&observation, &reported, expires_at, config.max_endpoints_per_peer);
        let snapshot = peer.snapshot(local.protocol);
        let ghost new_peer = peer@;
        self.peers.insert(idx, peer);
        proof {
            let t = self@;
            let m = peer_map(old_view).insert(observation.presence_id, new_peer);
            if is_new {
                assert(t =~= old_view.insert(idx as int, new_peer));
            } else {
                assert(t =~= old_view.update(idx as int, new_peer));
            }
            assert forall|a: int, b: int| 0 <= a < b < t.len() implies id_before(
                #[trigger] t[a].presence_id,
                #[trigger] t[b].presence_id,
            ) by {
                if is_new {
                    if b < idx {
                    } else if b == idx {
                    } else if a < idx {
                        assert(t[b] == old_view[b - 1]);
                        lemma_id_order(t[a].presence_id, observation.presence_id, t[b].presence_id);
                    } else if a == idx {
                    } else {
                        assert(t[a] == old_view[a - 1] && t[b] == old_view[b - 1]);
                    }
                } else {
                    assert(new_peer.presence_id == old_view[idx as int].presence_id);
                }
            }
            assert forall|a: int| 0 <= a < t.len() implies peer_wf(#[trigger] t[a]) by {
                if is_new {
                    if a < idx {
                    } else if a > idx {
                        assert(t[a] == old_view[a - 1]);
                    }
                }
            }
            lemma_sorted_distinct(t);
            assert forall|id: PresenceId| m.contains_key(id) implies exists|i: int|
                0 <= i < t.len() && (#[trigger] t[i]).presence_id == id by {
                if id == observation.presence_id {
                    assert(t[idx as int].presence_id == id);
                } else {
                    let w = choose|w: int| 0 <= w < old_view.len() && (#[trigger] old_view[w]).presence_id == id;
                    if is_new {
                        if w < idx {
                            assert(t[w] == old_view[w]);
                        } else {
                            assert(t[w + 1] == old_view[w]);
                        }
                    } else {
                        assert(t[w] == old_view[w]);
                    }
                }
            }
            assert forall|i: int| 0 <= i < t.len() implies m.contains_key(
                (#[trigger] t[i]).presence_id,
            ) && m[t[i].presence_id] == t[i] by {
                if i == idx {
                } else {
                    let oi = if is_new && i > idx {
                        i - 1
                    } else {
                        i
                    };
                    assert(t[i] == old_view[oi]);
                    lemma_peer_map_at(old_view, oi);
                }
            }
            lemma_peer_map_eq(t, m);
            lemma_peer_map_at(t, idx as int);
        }
        if is_new {
            Some(DiscoveryEvent::PeerAppeared(snapshot))
        } else {
            Some(DiscoveryEvent::PeerChanged(snapshot))
        }
    }
}

fn average_duration(left: Duration, right: Duration) -> (r: Duration)
    ensures
        r.spec_nanos() == average_nanos(left.spec_nanos(), right.spec_nanos()),
{
    match left.checked_add(right) {
        Some(sum) => sum.half(),
        None => right,
    }
}

impl PeerTable {
    /// Removes what one provider said about a presence. A presence left
    /// without any source expires; otherwise it changed.
    pub fn withdraw_provider(
        &mut self,
        provider: &ProviderId,
        presence_id: &PresenceId,
        local: &LocalPresence,
    ) -> (r: Option<DiscoveryEvent>)
        requires
            old(self).wf(),
        ensures
            final(self).wf(),
            !old(self).peers().contains_key(*presence_id) ==> final(self)@ == old(self)@ && r is None,
            old(self).peers().contains_key(*presence_id) ==> {
                let w = withdrawn_peer(old(self).peers()[*presence_id], pkey(*provider));
                if w.sources.len() == 0 {
                    &&& final(self).peers() == old(self).peers().remove(*presence_id)
                    &&& r matches Some(DiscoveryEvent::PeerExpired(id)) && id == *presence_id
                } else {
                    &&& final(self).peers() == old(self).peers().insert(*presence_id, w)
                    &&& r matches Some(DiscoveryEvent::PeerChanged(s)) && snapshot_of(
                        s,
                        w,
                        local.protocol,
                    )
                }
            },
    {
        let ghost old_view = self@;
        proof {
            lemma_sorted_distinct(old_view);
        }
        match self.find_peer(presence_id) {
            Err(_) => None,
            Ok(i) => {
                proof {
                    lemma_peer_map_at(old_view, i as int);
                }
                let mut peer = self.peers.remove(i);
                proof {
                    assert(self@ =~= old_view.remove(i as int));
                    lemma_table_remove(old_view, i as int);
                }
                let rule = Prune::Provider(provider.duplicate());
                peer.prune(&rule);
                if peer.sources.len() == 0 {
                    Some(DiscoveryEvent::PeerExpired(*presence_id))
                } else {
                    let snapshot = peer.snapshot(local.protocol);
                    let ghost new_peer = peer@;
                    self.peers.insert(i, peer);
                    proof {
                        assert(self@ =~= old_view.update(i as int, new_peer));
                        lemma_table_update(old_view, i as int, new_peer);
                    }
                    Some(DiscoveryEvent::PeerChanged(snapshot))
                }
            },
        }
    }

    /// Feeds a real secure connection result back into ranking. Results for
    /// unknown presences or endpoints change nothing.
    pub fn apply_connection_result(
        &mut self,
        presence_id: &PresenceId,
        endpoint: &Endpoint,
        outcome: ConnectionOutcome,
        local: &LocalPresence,
    ) -> (r: Vec<DiscoveryEvent>)
        requires
            old(self).wf(),
        ensures
            final(self).wf(),
            !(old(self).peers().contains_key(*presence_id) && has_endpoint(
                old(self).peers()[*presence_id].endpoints,
                *endpoint,
            )) ==> final(self)@ == old(self)@ && r@.len() == 0,
            old(self).peers().contains_key(*presence_id) && has_endpoint(
                old(self).peers()[*presence_id].endpoints,
                *endpoint,
            ) ==> {
                let p = old(self).peers()[*presence_id];
                let q = connection_result_peer(p, endpoint_index(p.endpoints, *endpoint), outcome);
                let quarantine = outcome == ConnectionOutcome::Failure(
                    ConnectionFailure::AuthenticationFailed,
                );
                &&& final(self).peers() == old(self).peers().insert(*presence_id, q)
                &&& r@.len() == if quarantine {
                    2int
                } else {
                    1int
                }
                &&& quarantine ==> (r@[0] matches DiscoveryEvent::PeerQuarantined(id) && id
                    == *presence_id)
                &&& r@[r@.len() - 1] matches DiscoveryEvent::PeerChanged(s) && snapshot_of(
                    s,
                    q,
                    local.protocol,
                )
            },
    {
        let ghost old_view = self@;
        let mut events: Vec<DiscoveryEvent> = Vec::new();
        proof {
            lemma_sorted_distinct(old_view);
        }
        let i = match self.find_peer(presence_id) {
            Err(_) => {
                return events;
            },
            Ok(i) => i,
        };
        proof {
            lemma_peer_map_at(old_view, i as int);
            assert(old_view[i as int] == self.peers[i as int]@);
        }
        let ghost p = old_view[i as int];
        let mut j: usize = 0;
        let mut found = false;
        while j < self.peers[i].endpoints.len()
            invariant_except_break
                !found,
            invariant
                i < self.peers@.len(),
                self@ == old_view,
                p == old_view[i as int],
                p == self.peers@[i as int]@,
                peer_wf(p),
                j <= p.endpoints.len(),
                forall|k: int| 0 <= k < j ==> (#[trigger] p.endpoints[k]).endpoint != *endpoint,
            ensures
                j <= p.endpoints.len(),
                forall|k: int| 0 <= k < j ==> (#[trigger] p.endpoints[k]).endpoint != *endpoint,
                found ==> j < p.endpoints.len() && p.endpoints[j as int].endpoint == *endpoint,
                !found ==> j == p.endpoints.len(),
            decreases p.endpoints.len() - j,
        {
            assert(p.endpoints[j as int] == self.peers[i as int].endpoints[j as int]@);
            if compare_endpoints(&self.peers[i].endpoints[j].endpoint, endpoint) == LexOrder::Equal {
                found = true;
                break;
            }
            j = j + 1;
        }
        if !found {
            return events;
        }
        proof {
            assert(has_endpoint(p.endpoints, *endpoint));
            let c = endpoint_index(p.endpoints, *endpoint);
            if c != j {
                if c < j {
                } else {
                    assert(p.endpoints[j as int].endpoint != p.endpoints[c].endpoint);
                }
            }
            assert(c == j);
        }
        let mut peer = self.peers.remove(i);
        let mut entry = peer.endpoints.remove(j);
        let ghost e = entry@;
        assert(e == p.endpoints[j as int]);
        match outcome {
            ConnectionOutcome::Success { handshake_time } => {
                entry.record.successful_connections = if entry.record.successful_connections
                    < u32::MAX {
                    entry.record.successful_connections + 1
                } else {
                    entry.record.successful_connections
                };
                entry.record.consecutive_failures = 0;
                let rtt = match entry.record.connection_rtt {
                    Some(previous) => {
                        let avg = average_duration(previous, handshake_time);
                        proof {
                            Duration::lemma_nanos_range(previous);
                            Duration::lemma_nanos_range(handshake_time);
                            Duration::lemma_from_nanos(
                                average_nanos(previous.spec_nanos(), handshake_time.spec_nanos()),
                            );
                            Duration::lemma_eq_by_nanos(
                                avg,
                                Duration::spec_from_nanos(
                                    average_nanos(previous.spec_nanos(), handshake_time.spec_nanos()),
                                ),
                            );
                        }
                        avg
                    },
                    None => handshake_time,
                };
                entry.record.connection_rtt = Some(rtt);
                peer.preferred_endpoint = Some(entry.endpoint);
            },
            ConnectionOutcome::Failure(failure) => {
                entry.record.total_failures = if entry.record.total_failures < u32::MAX {
                    entry.record.total_failures + 1
                } else {
                    entry.record.total_failures
                };
                entry.record.consecutive_failures = if entry.record.consecutive_failures
                    < u32::MAX {
                    entry.record.consecutive_failures + 1
                } else {
                    entry.record.consecutive_failures
                };
                let was_preferred = match peer.preferred_endpoint {
                    Some(pref) => compare_endpoints(&pref, &entry.endpoint) == LexOrder::Equal,
                    None => false,
                };
                if was_preferred && entry.record.consecutive_failures >= 2 {
                    peer.preferred_endpoint = None;
                }
                if failure == ConnectionFailure::AuthenticationFailed {
                    peer.quarantined = true;
                    events.push(DiscoveryEvent::PeerQuarantined(*presence_id));
                }
            },
        }
        peer.endpoints.insert(j, entry);
        let ghost q = peer@;
        proof {
            let expected = connection_result_peer(p, j as int, outcome);
            assert(q.endpoints =~= expected.endpoints);
            assert(q =~= expected);
            assert forall|a: int| #![trigger q.endpoints[a]] 0 <= a < q.endpoints.len() implies {
                &&& evidence_distinct(q.endpoints[a].record.evidence)
                &&& 0 < q.endpoints[a].record.evidence.len() <= MAX_ENDPOINT_EVIDENCE
            } by {
                assert(q.endpoints[a].record.evidence == p.endpoints[a].record.evidence);
            }
            assert(endpoints_distinct(q.endpoints)) by {
                assert forall|a: int, b: int| 0 <= a < b < q.endpoints.len() implies (
                #[trigger] q.endpoints[a]).endpoint != (#[trigger] q.endpoints[b]).endpoint by {
                    assert(q.endpoints[a].endpoint == p.endpoints[a].endpoint);
                    assert(q.endpoints[b].endpoint == p.endpoints[b].endpoint);
                }
            }
        }
        let snapshot = peer.snapshot(local.protocol);
        self.peers.insert(i, peer);
        proof {
            assert(self@ =~= old_view.update(i as int, q));
            lemma_table_update(old_view, i as int, q);
        }
        events.push(DiscoveryEvent::PeerChanged(snapshot));
        events
    }

    /// The ranked snapshots of all peers, ordered by presence identifier.
    pub fn snapshot_all(&self, local_protocol: ProtocolRange) -> (r: Vec<PeerSnapshot>)
        requires
            self.wf(),
        ensures
            r@.len() == self@.len(),
            forall|i: int| 0 <= i < r@.len() ==> snapshot_of(#[trigger] r@[i], self@[i], local_protocol),
            forall|i: int, j: int|
                0 <= i < j < r@.len() ==> id_before(
                    (#[trigger] r@[i]).presence_id,
                    (#[trigger] r@[j]).presence_id,
                ),
    {
        let mut out: Vec<PeerSnapshot> = Vec::new();
        let mut i: usize = 0;
        while i < self.peers.len()
            invariant
                i <= self@.len(),
                table_wf(self@),
                out@.len() == i,
                forall|k: int| 0 <= k < i ==> snapshot_of(#[trigger] out@[k], self@[k], local_protocol),
            decreases self@.len() - i,
        {
            assert(self@[i as int] == self.peers[i as int]@);
            out.push(self.peers[i].snapshot(local_protocol));
            i = i + 1;
        }
        proof {
            assert forall|a: int, b: int| 0 <= a < b < out@.len() implies id_before(
                (#[trigger] out@[a]).presence_id,
                (#[trigger] out@[b]).presence_id,
            ) by {
                assert(snapshot_of(out@[a], self@[a], local_protocol));
                assert(snapshot_of(out@[b], self@[b], local_protocol));
            }
        }
        out
    }
}

impl PeerTable {
    /// Ages every peer to `now`: expired sources and evidence go, endpoints
    /// without evidence go, and peers without sources expire. Returns the
    /// expiry events first, then the change events, each in table order.
    pub fn expire_stale(&mut self, now: Duration, local: &LocalPresence) -> (r: Vec<DiscoveryEvent>)
        requires
            old(self).wf(),
        ensures
            final(self).wf(),
            final(self)@ == aged_table(old(self)@, now),
            r@.len() == expired_ids(old(self)@, now).len() + changed_peers(old(self)@, now).len(),
            forall|k: int|
                0 <= k < expired_ids(old(self)@, now).len() ==> (#[trigger] r@[k] matches DiscoveryEvent::PeerExpired(
                    id,
                ) && id == expired_ids(old(self)@, now)[k]),
            forall|k: int|
                0 <= k < changed_peers(old(self)@, now).len() ==> (
                #[trigger] r@[expired_ids(old(self)@, now).len() + k] matches DiscoveryEvent::PeerChanged(
                    s,
                ) && snapshot_of(s, changed_peers(old(self)@, now)[k], local.protocol)),
    {
        let ghost old_view = self@;
        let rule = Prune::Alive(now);
        let mut kept: Vec<PeerRecord> = Vec::new();
        let mut expired: Vec<DiscoveryEvent> = Vec::new();
        let mut changed: Vec<DiscoveryEvent> = Vec::new();
        let ghost mut i: int = 0;
        assert(old_view.subrange(0, 0) =~= Seq::<PeerView>::empty());
        assert(self@ =~= old_view.subrange(0, old_view.len() as int));
        while self.peers.len() > 0
            invariant
                0 <= i <= old_view.len(),
                table_wf(old_view),
                rule == Prune::Alive(now),
                self@ == old_view.subrange(i, old_view.len() as int),
                kept@.map_values(|p: PeerRecord| p@) == aged_table(old_view.subrange(0, i), now),
                table_wf(kept@.map_values(|p: PeerRecord| p@)),
                forall|a: int|
                    0 <= a < kept@.len() ==> exists|b: int|
                        0 <= b < i && (#[trigger] kept@[a]).presence_id == old_view[b].presence_id,
                expired@.len() == expired_ids(old_view.subrange(0, i), now).len(),
                forall|k: int|
                    0 <= k < expired@.len() ==> (#[trigger] expired@[k] matches DiscoveryEvent::PeerExpired(
                        id,
                    ) && id == expired_ids(old_view.subrange(0, i), now)[k]),
                changed@.len() == changed_peers(old_view.subrange(0, i), now).len(),
                forall|k: int|
                    0 <= k < changed@.len() ==> (#[trigger] changed@[k] matches DiscoveryEvent::PeerChanged(
                        s,
                    ) && snapshot_of(s, changed_peers(old_view.subrange(0, i), now)[k], local.protocol)),
            decreases self@.len(),
        {
            let ghost prefix = old_view.subrange(0, i);
            let ghost next = old_view.subrange(0, i + 1);
            let ghost kept_before = kept@.map_values(|p: PeerRecord| p@);
            let ghost kept_entries = kept@;
            let ghost expired_before = expired@;
            let ghost changed_before = changed@;
            assert(self@[0] == old_view[i]);
            assert(next.drop_last() =~= prefix);
            assert(next.last() == old_view[i]);
            let ghost ps = self.peers@;
            let ghost before_self = self@;
            let mut peer = self.peers.remove(0);
            proof {
                assert(self.peers@ == ps.remove(0));
                assert(self@ =~= before_self.remove(0));
                assert(self@ =~= old_view.subrange(i + 1, old_view.len() as int));
                assert(peer@ == old_view[i]);
            }
            let sources_before = peer.sources.len();
            let endpoints_before = peer.endpoints.len();
            peer.prune(&rule);
            assert(peer@ == aged_peer(old_view[i], now));
            if peer.sources.len() == 0 {
                expired.push(DiscoveryEvent::PeerExpired(peer.presence_id));
                proof {
                    assert forall|k: int| 0 <= k < expired@.len() implies (
                    #[trigger] expired@[k] matches DiscoveryEvent::PeerExpired(id) && id
                        == expired_ids(next, now)[k]) by {
                        if k < expired@.len() - 1 {
                            assert(expired@[k] == expired_before[k]);
                        }
                    }
                    assert(changed_peers(next, now) == changed_peers(prefix, now));
                }
            } else {
                if peer.sources.len() != sources_before || peer.endpoints.len() != endpoints_before {
                    let snapshot = peer.snapshot(local.protocol);
                    changed.push(DiscoveryEvent::PeerChanged(snapshot));
                    proof {
                        assert forall|k: int| 0 <= k < changed@.len() implies (
                        #[trigger] changed@[k] matches DiscoveryEvent::PeerChanged(s) && snapshot_of(
                            s,
                            changed_peers(next, now)[k],
                            local.protocol,
                        )) by {
                            if k < changed@.len() - 1 {
                                assert(changed@[k] == changed_before[k]);
                            }
                        }
                    }
                } else {
                    proof {
                        assert(changed_peers(next, now) == changed_peers(prefix, now));
                    }
                }
                let ghost new_peer = peer@;
                kept.push(peer);
                proof {
                    let kv = kept@.map_values(|p: PeerRecord| p@);
                    assert(kv =~= kept_before.push(new_peer));
                    assert forall|a: int, b: int| 0 <= a < b < kv.len() implies id_before(
                        #[trigger] kv[a].presence_id,
                        #[trigger] kv[b].presence_id,
                    ) by {
                        if b == kv.len() - 1 {
                            assert(kv[a] == kept_before[a]);
                            assert(kept@[a] == kept_entries[a]);
                            let w = choose|w: int|
                                0 <= w < i && (#[trigger] kept_entries[a]).presence_id
                                    == old_view[w].presence_id;
                            assert(kept_entries[a]@ == kept_before[a]);
                        } else {
                            assert(kv[a] == kept_before[a] && kv[b] == kept_before[b]);
                        }
                    }
                    assert forall|a: int| 0 <= a < kv.len() implies peer_wf(#[trigger] kv[a]) by {
                        if a < kv.len() - 1 {
                            assert(kv[a] == kept_before[a]);
                        }
                    }
                    assert forall|a: int| 0 <= a < kept@.len() implies exists|b: int|
                        0 <= b < i + 1 && (#[trigger] kept@[a]).presence_id
                            == old_view[b].presence_id by {
                        if a < kept@.len() - 1 {
                            assert(kept@[a] == kept_entries[a]);
                            let w = choose|w: int|
                                0 <= w < i && (#[trigger] kept_entries[a]).presence_id
                                    == old_view[w].presence_id;
                        }
                    }
                    assert(expired_ids(next, now) == expired_ids(prefix, now));
                }
            }
            proof {
                i = i + 1;
            }
        }
        proof {
            assert(old_view.subrange(0, i) =~= old_view);
        }
        self.peers = kept;
        let ghost expired_part = expired@;
        let ghost changed_part = changed@;
        expired.append(&mut changed);
        proof {
            assert forall|k: int| 0 <= k < changed_part.len() implies #[trigger] expired@[
                expired_part.len() + k] == changed_part[k] by {}
        }
        expired
    }
}

// ---------------------------------------------------------------------------
// Laws
// ---------------------------------------------------------------------------

/// What `keep_sources` keeps: exactly the sources `keep` accepts.
pub proof fn lemma_keep_sources(s: Seq<SourceEntry>, keep: spec_fn(SourceEntry) -> bool)
    ensures
        forall|i: int|
            0 <= i < keep_sources(s, keep).len() ==> keep(#[trigger] keep_sources(s, keep)[i])
                && s.contains(keep_sources(s, keep)[i]),
        forall|i: int| 0 <= i < s.len() && keep(s[i]) ==> keep_sources(s, keep).contains(#[trigger] s[i]),
    decreases s.len(),
{
    if s.len() > 0 {
        let rest = keep_sources(s.drop_last(), keep);
        lemma_keep_sources(s.drop_last(), keep);
        let out = keep_sources(s, keep);
        assert forall|i: int| 0 <= i < out.len() implies keep(#[trigger] out[i]) && s.contains(out[i]) by {
            if i < rest.len() {
                assert(out[i] == rest[i]);
                let w = choose|w: int| 0 <= w < s.drop_last().len() && s.drop_last()[w] == rest[i];
                assert(s[w] == rest[i]);
            } else {
                assert(s[s.len() - 1] == out[i]);
            }
        }
        assert forall|i: int| 0 <= i < s.len() && keep(s[i]) implies out.contains(#[trigger] s[i]) by {
            if i < s.len() - 1 {
                assert(s.drop_last()[i] == s[i]);
                let w = choose|w: int| 0 <= w < rest.len() && rest[w] == s[i];
                assert(out[w] == s[i]);
            } else {
                assert(out[out.len() - 1] == s[i]);
            }
        }
    }
}

/// What `keep_evidence` keeps: exactly the evidence `keep` accepts.
pub proof fn lemma_keep_evidence(ev: Seq<EndpointEvidence>, keep: spec_fn(EndpointEvidence) -> bool)
    ensures
        forall|i: int|
            0 <= i < keep_evidence(ev, keep).len() ==> keep(#[trigger] keep_evidence(ev, keep)[i])
                && ev.contains(keep_evidence(ev, keep)[i]),
        forall|i: int|
            0 <= i < ev.len() && keep(ev[i]) ==> keep_evidence(ev, keep).contains(#[trigger] ev[i]),
    decreases ev.len(),
{
    if ev.len() > 0 {
        let rest = keep_evidence(ev.drop_last(), keep);
        lemma_keep_evidence(ev.drop_last(), keep);
        let out = keep_evidence(ev, keep);
        assert forall|i: int| 0 <= i < out.len() implies keep(#[trigger] out[i]) && ev.contains(out[i]) by {
            if i < rest.len() {
                assert(out[i] == rest[i]);
                let w = choose|w: int| 0 <= w < ev.drop_last().len() && ev.drop_last()[w] == rest[i];
                assert(ev[w] == rest[i]);
            } else {
                assert(ev[ev.len() - 1] == out[i]);
            }
        }
        assert forall|i: int| 0 <= i < ev.len() && keep(ev[i]) implies out.contains(#[trigger] ev[i]) by {
            if i < ev.len() - 1 {
                assert(ev.drop_last()[i] == ev[i]);
                let w = choose|w: int| 0 <= w < rest.len() && rest[w] == ev[i];
                assert(out[w] == ev[i]);
            } else {
                assert(out[out.len() - 1] == ev[i]);
            }
        }
    }
}

/// What `keep_endpoints` keeps: each kept endpoint is one of the given ones with
/// only the accepted evidence, and every endpoint with accepted evidence is
/// kept.
pub proof fn lemma_keep_endpoints(eps: Seq<EndpointView>, keep: spec_fn(EndpointEvidence) -> bool)
    ensures
        forall|j: int|
            0 <= j < keep_endpoints(eps, keep).len() ==> exists|i: int|
                0 <= i < eps.len() && (#[trigger] keep_endpoints(eps, keep)[j]) == (EndpointView {
                    endpoint: eps[i].endpoint,
                    record: RecordView {
                        evidence: keep_evidence(eps[i].record.evidence, keep),
                        ..eps[i].record
                    },
                }),
        forall|i: int|
            0 <= i < eps.len() && keep_evidence((#[trigger] eps[i]).record.evidence, keep).len() > 0
                ==> exists|j: int|
                0 <= j < keep_endpoints(eps, keep).len() && keep_endpoints(eps, keep)[j].endpoint
                    == eps[i].endpoint && keep_endpoints(eps, keep)[j].record.evidence
                    == keep_evidence(eps[i].record.evidence, keep),
    decreases eps.len(),
{
    if eps.len() > 0 {
        let rest = keep_endpoints(eps.drop_last(), keep);
        lemma_keep_endpoints(eps.drop_last(), keep);
        let out = keep_endpoints(eps, keep);
        let d = eps.drop_last();
        assert forall|j: int| 0 <= j < out.len() implies exists|i: int|
            0 <= i < eps.len() && (#[trigger] out[j]) == (EndpointView {
                endpoint: eps[i].endpoint,
                record: RecordView {
                    evidence: keep_evidence(eps[i].record.evidence, keep),
                    ..eps[i].record
                },
            }) by {
            if j < rest.len() {
                assert(out[j] == rest[j]);
                let w = choose|w: int|
                    0 <= w < d.len() && (#[trigger] rest[j]) == (EndpointView {
                        endpoint: d[w].endpoint,
                        record: RecordView {
                            evidence: keep_evidence(d[w].record.evidence, keep),
                            ..d[w].record
                        },
                    });
                assert(d[w] == eps[w]);
            } else {
                assert(out[j].endpoint == eps[eps.len() - 1].endpoint);
            }
        }
        assert forall|i: int|
            0 <= i < eps.len() && keep_evidence((#[trigger] eps[i]).record.evidence, keep).len()
                > 0 implies exists|j: int|
            0 <= j < out.len() && out[j].endpoint == eps[i].endpoint && out[j].record.evidence
                == keep_evidence(eps[i].record.evidence, keep) by {
            if i < eps.len() - 1 {
                assert(d[i] == eps[i]);
                let w = choose|w: int|
                    0 <= w < rest.len() && rest[w].endpoint == d[i].endpoint && rest[w].record.evidence
                        == keep_evidence(d[i].record.evidence, keep);
                assert(out[w] == rest[w]);
            } else {
                assert(out[out.len() - 1].endpoint == eps[i].endpoint);
            }
        }
    }
}

/// Withdrawing a provider removes exactly its word about the peer: none of
/// its sources or evidence remain, every other provider's source stays, and
/// every endpoint another provider vouches for stays with that evidence.
pub proof fn lemma_withdraw_removes_only_that_provider(p: PeerView, k: (ProviderKind, Seq<char>))
    ensures
        forall|i: int|
            0 <= i < withdrawn_peer(p, k).sources.len() ==> pkey(
                (#[trigger] withdrawn_peer(p, k).sources[i]).provider,
            ) != k,
        forall|i: int|
            0 <= i < p.sources.len() && pkey(p.sources[i].provider) != k ==> withdrawn_peer(
                p,
                k,
            ).sources.contains(#[trigger] p.sources[i]),
        forall|j: int, i: int|
            0 <= j < withdrawn_peer(p, k).endpoints.len() && 0 <= i < withdrawn_peer(
                p,
                k,
            ).endpoints[j].record.evidence.len() ==> pkey(
                (#[trigger] withdrawn_peer(p, k).endpoints[j].record.evidence[i]).provider,
            ) != k,
        forall|j: int, i: int|
            0 <= j < p.endpoints.len() && 0 <= i < p.endpoints[j].record.evidence.len() && pkey(
                (#[trigger] p.endpoints[j].record.evidence[i]).provider,
            ) != k ==> exists|m: int|
                0 <= m < withdrawn_peer(p, k).endpoints.len() && withdrawn_peer(p, k).endpoints[m].endpoint
                    == p.endpoints[j].endpoint && withdrawn_peer(
                    p,
                    k,
                ).endpoints[m].record.evidence.contains(p.endpoints[j].record.evidence[i]),
{
    let w = withdrawn_peer(p, k);
    let ks = source_not_from(k);
    let ke = evidence_not_from(k);
    lemma_keep_sources(p.sources, ks);
    lemma_keep_endpoints(p.endpoints, ke);
    assert forall|i: int| 0 <= i < w.sources.len() implies pkey((#[trigger] w.sources[i]).provider) != k by {
        assert(ks(w.sources[i]));
    }
    assert forall|i: int| 0 <= i < p.sources.len() && pkey(p.sources[i].provider) != k implies w.sources.contains(
        #[trigger] p.sources[i],
    ) by {
        assert(ks(p.sources[i]));
    }
    assert forall|j: int, i: int|
        0 <= j < w.endpoints.len() && 0 <= i < w.endpoints[j].record.evidence.len() implies pkey(
            (#[trigger] w.endpoints[j].record.evidence[i]).provider,
        ) != k by {
        let o = choose|o: int|
            0 <= o < p.endpoints.len() && (#[trigger] w.endpoints[j]) == (EndpointView {
                endpoint: p.endpoints[o].endpoint,
                record: RecordView {
                    evidence: keep_evidence(p.endpoints[o].record.evidence, ke),
                    ..p.endpoints[o].record
                },
            });
        lemma_keep_evidence(p.endpoints[o].record.evidence, ke);
        assert(ke(w.endpoints[j].record.evidence[i]));
    }
    assert forall|j: int, i: int|
        0 <= j < p.endpoints.len() && 0 <= i < p.endpoints[j].record.evidence.len() && pkey(
            (#[trigger] p.endpoints[j].record.evidence[i]).provider,
        ) != k implies exists|m: int|
        0 <= m < w.endpoints.len() && w.endpoints[m].endpoint == p.endpoints[j].endpoint
            && w.endpoints[m].record.evidence.contains(p.endpoints[j].record.evidence[i]) by {
        let ev = p.endpoints[j].record.evidence;
        lemma_keep_evidence(ev, ke);
        assert(ke(ev[i]));
        assert(keep_evidence(ev, ke).contains(ev[i]));
        assert(keep_evidence(ev, ke).len() > 0);
        assert(keep_evidence(p.endpoints[j].record.evidence, ke).len() > 0);
    }
}

/// Aging keeps exactly what has not expired: every remaining source and
/// piece of evidence expires after `now`, and every source that expires
/// after `now` remains.
pub proof fn lemma_aging_keeps_only_live(p: PeerView, now: Duration)
    ensures
        forall|i: int|
            0 <= i < aged_peer(p, now).sources.len() ==> (#[trigger] aged_peer(
                p,
                now,
            ).sources[i]).expires_at.spec_nanos() > now.spec_nanos(),
        forall|i: int|
            0 <= i < p.sources.len() && (#[trigger] p.sources[i]).expires_at.spec_nanos()
                > now.spec_nanos() ==> aged_peer(p, now).sources.contains(p.sources[i]),
        forall|j: int, i: int|
            0 <= j < aged_peer(p, now).endpoints.len() && 0 <= i < aged_peer(
                p,
                now,
            ).endpoints[j].record.evidence.len() ==> (#[trigger] aged_peer(
                p,
                now,
            ).endpoints[j].record.evidence[i]).expires_at.spec_nanos() > now.spec_nanos(),
{
    let a = aged_peer(p, now);
    let ks = source_alive(now);
    let ke = evidence_alive(now);
    lemma_keep_sources(p.sources, ks);
    lemma_keep_endpoints(p.endpoints, ke);
    assert forall|i: int| 0 <= i < a.sources.len() implies (
    #[trigger] a.sources[i]).expires_at.spec_nanos() > now.spec_nanos() by {
        assert(ks(a.sources[i]));
    }
    assert forall|i: int|
        0 <= i < p.sources.len() && (#[trigger] p.sources[i]).expires_at.spec_nanos()
            > now.spec_nanos() implies a.sources.contains(p.sources[i]) by {
        assert(ks(p.sources[i]));
    }
    assert forall|j: int, i: int|
        0 <= j < a.endpoints.len() && 0 <= i < a.endpoints[j].record.evidence.len() implies (
        #[trigger] a.endpoints[j].record.evidence[i]).expires_at.spec_nanos() > now.spec_nanos() by {
        let o = choose|o: int|
            0 <= o < p.endpoints.len() && (#[trigger] a.endpoints[j]) == (EndpointView {
                endpoint: p.endpoints[o].endpoint,
                record: RecordView {
                    evidence: keep_evidence(p.endpoints[o].record.evidence, ke),
                    ..p.endpoints[o].record
                },
            });
        lemma_keep_evidence(p.endpoints[o].record.evidence, ke);
        assert(ke(a.endpoints[j].record.evidence[i]));
    }
}

/// A quarantined or incompatible peer's snapshot offers no endpoint to
/// connect to.
pub proof fn lemma_barred_peer_has_no_best_endpoint(
    s: PeerSnapshot,
    p: PeerView,
    local_protocol: ProtocolRange,
)
    requires
        snapshot_of(s, p, local_protocol),
        p.quarantined || !local_protocol.spec_overlaps(p.protocol),
    ensures
        s.best_endpoint is None,
{
}

/// A failed authentication quarantines the presence, and no later
/// observation, withdrawal, aging or connection result lifts it.
pub proof fn lemma_quarantine_is_sticky(
    p: PeerView,
    i: int,
    outcome: ConnectionOutcome,
    obs: Observation,
    reported: Seq<Endpoint>,
    t: Duration,
    max: int,
    k: (ProviderKind, Seq<char>),
    now: Duration,
)
    requires
        0 <= i < p.endpoints.len(),
    ensures
        connection_result_peer(
            p,
            i,
            ConnectionOutcome::Failure(ConnectionFailure::AuthenticationFailed),
        ).quarantined,
        p.quarantined ==> connection_result_peer(p, i, outcome).quarantined,
        p.quarantined ==> observe_peer(p, obs, reported, t, max).quarantined,
        p.quarantined ==> withdrawn_peer(p, k).quarantined,
        p.quarantined ==> aged_peer(p, now).quarantined,
{
}

/// A successful connection makes its endpoint the one to use; it stays so
/// through one failure and loses that place on the second failure in a row.
pub proof fn lemma_success_is_sticky_until_repeated_failure(
    p: PeerView,
    i: int,
    handshake_time: Duration,
    first: ConnectionFailure,
    second: ConnectionFailure,
)
    requires
        0 <= i < p.endpoints.len(),
    ensures
        ({
            let e = p.endpoints[i].endpoint;
            let a = connection_result_peer(p, i, ConnectionOutcome::Success { handshake_time });
            let b = connection_result_peer(a, i, ConnectionOutcome::Failure(first));
            let c = connection_result_peer(b, i, ConnectionOutcome::Failure(second));
            &&& usable_preferred(a) == Some(e)
            &&& usable_preferred(b) == Some(e)
            &&& c.preferred_endpoint is None
            &&& usable_preferred(c) is None
        }),
{
    let e = p.endpoints[i].endpoint;
    let a = connection_result_peer(p, i, ConnectionOutcome::Success { handshake_time });
    let b = connection_result_peer(a, i, ConnectionOutcome::Failure(first));
    assert(a.endpoints[i].endpoint == e && a.endpoints[i].record.consecutive_failures < 2);
    assert(b.endpoints[i].endpoint == e && b.endpoints[i].record.consecutive_failures < 2);
}

} // verus!
