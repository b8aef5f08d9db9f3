//! Endpoint ranking: how much corroborating evidence, measured latency and
//! connection history make one candidate endpoint preferable to another.

use vstd::prelude::*;

use crate::discovery::model::{
    Endpoint, EndpointCandidate, ProtocolRange, ProviderId, ProviderKind,
};
use crate::time::{Duration, NANOS_PER_MILLI};

verus! {

/// What one provider has said about one endpoint. `expires_at` is measured
/// on the session's monotonic clock.
#[derive(Clone, Debug)]
pub struct EndpointEvidence {
    pub provider: ProviderId,
    pub expires_at: Duration,
    pub round_trip_time: Option<Duration>,
    pub observations: u32,
}

/// Evidence and connection history for one endpoint of one peer.
#[derive(Clone, Debug)]
pub struct EndpointRecord {
    pub evidence: Vec<EndpointEvidence>,
    pub successful_connections: u32,
    pub total_failures: u32,
    pub consecutive_failures: u32,
    pub connection_rtt: Option<Duration>,
}

/// The mathematical content of an `EndpointRecord`.
#[verifier::ext_equal]
pub ghost struct RecordView {
    pub evidence: Seq<EndpointEvidence>,
    pub successful_connections: u32,
    pub total_failures: u32,
    pub consecutive_failures: u32,
    pub connection_rtt: Option<Duration>,
}

impl View for EndpointRecord {
    type V = RecordView;

    open spec fn view(&self) -> RecordView {
        RecordView {
            evidence: self.evidence@,
            successful_connections: self.successful_connections,
            total_failures: self.total_failures,
            consecutive_failures: self.consecutive_failures,
            connection_rtt: self.connection_rtt,
        }
    }
}

pub open spec fn spec_source_weight(kind: ProviderKind) -> int {
    match kind {
        ProviderKind::Direct => 75,
        ProviderKind::PresenceV4 | ProviderKind::PresenceV6 => 60,
        ProviderKind::WifiAware | ProviderKind::WifiDirect => 60,
        ProviderKind::Mdns => 45,
        ProviderKind::Ble => 20,
        ProviderKind::Custom => 25,
    }
}

/// How much one provider kind vouches for an endpoint.
pub fn source_weight(kind: &ProviderKind) -> (r: i32)
    ensures
        r == spec_source_weight(*kind),
        20 <= r <= 75,
{
    match kind {
        ProviderKind::Direct => 75,
        ProviderKind::PresenceV4 | ProviderKind::PresenceV6 => 60,
        ProviderKind::WifiAware | ProviderKind::WifiDirect => 60,
        ProviderKind::Mdns => 45,
        ProviderKind::Ble => 20,
        ProviderKind::Custom => 25,
    }
}

pub open spec fn spec_rtt_bonus(rtt: Option<Duration>) -> int {
    match rtt {
        Some(d) => if d.spec_nanos() <= 20 * NANOS_PER_MILLI {
            55
        } else if d.spec_nanos() <= 100 * NANOS_PER_MILLI {
            40
        } else if d.spec_nanos() <= 500 * NANOS_PER_MILLI {
            20
        } else {
            5
        },
        None => 0,
    }
}

/// The latency bonus: faster round trips score higher.
pub fn rtt_bonus(rtt: Option<Duration>) -> (r: i32)
    ensures
        r == spec_rtt_bonus(rtt),
{
    match rtt {
        Some(d) => {
            let n = d.as_nanos();
            if n <= 20 * NANOS_PER_MILLI {
                55
            } else if n <= 100 * NANOS_PER_MILLI {
                40
            } else if n <= 500 * NANOS_PER_MILLI {
                20
            } else {
                5
            }
        },
        None => 0,
    }
}

pub open spec fn min_int(a: int, b: int) -> int {
    if a <= b {
        a
    } else {
        b
    }
}

/// Sum of the source weights of the evidence.
pub open spec fn weights_sum(ev: Seq<EndpointEvidence>) -> int
    decreases ev.len(),
{
    if ev.len() == 0 {
        0
    } else {
        weights_sum(ev.drop_last()) + spec_source_weight(ev.last().provider.spec_kind())
    }
}

/// Sum of the observation counts of the evidence, each capped at five.
pub open spec fn observations_sum(ev: Seq<EndpointEvidence>) -> int
    decreases ev.len(),
{
    if ev.len() == 0 {
        0
    } else {
        observations_sum(ev.drop_last()) + min_int(ev.last().observations as int, 5)
    }
}

/// Everything that raises a compatible endpoint's score.
pub open spec fn score_gain(record: RecordView, rtt: Option<Duration>) -> int {
    100 + weights_sum(record.evidence) + 35 * min_int(
        if record.evidence.len() == 0 {
            0
        } else {
            record.evidence.len() - 1
        },
        3,
    ) + 3 * observations_sum(record.evidence) + spec_rtt_bonus(rtt) + 80 * min_int(
        record.successful_connections as int,
        5,
    )
}

/// Everything that lowers it: recent and total failures.
pub open spec fn score_penalty(record: RecordView) -> int {
    90 * min_int(record.consecutive_failures as int, 5) + 8 * min_int(
        record.total_failures as int,
        10,
    )
}

/// The score of an endpoint; an incompatible peer's endpoints never win.
pub open spec fn spec_score(record: RecordView, compatible: bool, rtt: Option<Duration>) -> int {
    if !compatible {
        i32::MIN as int
    } else {
        score_gain(record, rtt) - score_penalty(record)
    }
}

proof fn lemma_sums_nonneg_prefix(ev: Seq<EndpointEvidence>, i: int)
    requires
        0 <= i <= ev.len(),
    ensures
        0 <= weights_sum(ev.subrange(0, i)) <= weights_sum(ev),
        0 <= observations_sum(ev.subrange(0, i)) <= observations_sum(ev),
    decreases ev.len() - i,
{
    if i < ev.len() {
        lemma_sums_nonneg_prefix(ev, i + 1);
        assert(ev.subrange(0, i + 1).drop_last() =~= ev.subrange(0, i));
    } else {
        assert(ev.subrange(0, i) =~= ev);
    }
    lemma_sums_nonneg(ev.subrange(0, i));
}

proof fn lemma_sums_nonneg(ev: Seq<EndpointEvidence>)
    ensures
        0 <= weights_sum(ev),
        0 <= observations_sum(ev),
    decreases ev.len(),
{
    if ev.len() > 0 {
        lemma_sums_nonneg(ev.drop_last());
    }
}

/// Scores one endpoint. The caller's evidence must be small enough for the
/// score to fit in an `i32`, as it does for any realistic provider set.
pub fn score_candidate(record: &EndpointRecord, compatible: bool, round_trip_time: Option<
    Duration,
>) -> (r: i32)
    requires
        score_gain(record@, round_trip_time) <= i32::MAX,
    ensures
        r == spec_score(record@, compatible, round_trip_time),
{
    if !compatible {
        return i32::MIN;
    }
    let ghost ev = record.evidence@;
    proof {
        lemma_sums_nonneg(ev);
    }
    let mut weights: i64 = 0;
    let mut observations: i64 = 0;
    let mut i: usize = 0;
    while i < record.evidence.len()
        invariant
            i <= ev.len(),
            ev == record.evidence@,
            weights == weights_sum(ev.subrange(0, i as int)),
            observations == observations_sum(ev.subrange(0, i as int)),
            score_gain(record@, round_trip_time) <= i32::MAX,
            0 <= weights_sum(ev),
            0 <= observations_sum(ev),
            100 + weights_sum(ev) + 3 * observations_sum(ev) <= i32::MAX,
        decreases ev.len() - i,
    {
        proof {
            lemma_sums_nonneg_prefix(ev, i + 1);
            assert(ev.subrange(0, i + 1).drop_last() =~= ev.subrange(0, i as int));
        }
        let w = source_weight(record.evidence[i].provider.kind());
        let o = record.evidence[i].observations;
        let capped: i64 = if o < 5 {
            o as i64
        } else {
            5
        };
        weights = weights + w as i64;
        observations = observations + capped;
        i = i + 1;
    }
    proof {
        assert(ev.subrange(0, i as int) =~= ev);
    }
    let count = record.evidence.len();
    let corroborating: i64 = if count == 0 {
        0
    } else if count - 1 < 3 {
        (count - 1) as i64
    } else {
        3
    };
    let successes: i64 = if record.successful_connections < 5 {
        record.successful_connections as i64
    } else {
        5
    };
    let consecutive: i64 = if record.consecutive_failures < 5 {
        record.consecutive_failures as i64
    } else {
        5
    };
    let total: i64 = if record.total_failures < 10 {
        record.total_failures as i64
    } else {
        10
    };
    let score: i64 = 100 + weights + corroborating * 35 + observations * 3 + rtt_bonus(
        round_trip_time,
    ) as i64 + successes * 80 - consecutive * 90 - total * 8;
    score as i32
}

/// Whether a remote peer's version range can talk to ours.
pub fn protocol_compatible(local: ProtocolRange, remote: ProtocolRange) -> (r: bool)
    ensures
        r == local.spec_overlaps(remote),
{
    local.overlaps(remote)
}

/// The smallest round trip any evidence measured.
pub open spec fn min_observed_rtt(ev: Seq<EndpointEvidence>) -> Option<Duration>
    decreases ev.len(),
{
    if ev.len() == 0 {
        None
    } else {
        let rest = min_observed_rtt(ev.drop_last());
        match ev.last().round_trip_time {
            None => rest,
            Some(d) => match rest {
                None => Some(d),
                Some(m) => if d.spec_nanos() < m.spec_nanos() {
                    Some(d)
                } else {
                    Some(m)
                },
            },
        }
    }
}

/// The round trip used for ranking: a measured connection beats any
/// discovery-time measurement.
pub open spec fn round_trip(record: RecordView) -> Option<Duration> {
    match record.connection_rtt {
        Some(d) => Some(d),
        None => min_observed_rtt(record.evidence),
    }
}

/// The providers that vouch for an endpoint, in evidence order.
pub open spec fn evidence_sources(ev: Seq<EndpointEvidence>) -> Seq<ProviderId> {
    Seq::new(ev.len(), |i: int| ev[i].provider)
}

impl EndpointRecord {
    pub fn new() -> (r: Self)
        ensures
            r.evidence@.len() == 0,
            r.successful_connections == 0,
            r.total_failures == 0,
            r.consecutive_failures == 0,
            r.connection_rtt is None,
    {
        EndpointRecord {
            evidence: Vec::new(),
            successful_connections: 0,
            total_failures: 0,
            consecutive_failures: 0,
            connection_rtt: None,
        }
    }


    fn observed_rtt(&self) -> (r: Option<Duration>)
        ensures
            r == min_observed_rtt(self.evidence@),
    {
        let ghost ev = self.evidence@;
        let mut best: Option<Duration> = None;
        let mut i: usize = 0;
        while i < self.evidence.len()
            invariant
                i <= ev.len(),
                ev == self.evidence@,
                best == min_observed_rtt(ev.subrange(0, i as int)),
            decreases ev.len() - i,
        {
            proof {
                assert(ev.subrange(0, i + 1).drop_last() =~= ev.subrange(0, i as int));
            }
            match self.evidence[i].round_trip_time {
                None => {},
                Some(d) => {
                    best = match best {
                        None => Some(d),
                        Some(m) => if d.as_nanos() < m.as_nanos() {
                            Some(d)
                        } else {
                            Some(m)
                        },
                    };
                },
            }
            i = i + 1;
        }
        proof {
            assert(ev.subrange(0, i as int) =~= ev);
        }
        best
    }

    /// The ranked view of this endpoint.
    pub fn candidate(&self, endpoint: Endpoint, compatible: bool) -> (r: EndpointCandidate)
        requires
            score_gain(self@, round_trip(self@)) <= i32::MAX,
        ensures
            r.endpoint == endpoint,
            r.round_trip_time == round_trip(self@),
            r.score == spec_score(self@, compatible, round_trip(self@)),
            r.sources@ == evidence_sources(self.evidence@),
            r.successful_connections == self.successful_connections,
            r.consecutive_failures == self.consecutive_failures,
    {
        let mut sources: Vec<ProviderId> = Vec::new();
        let mut i: usize = 0;
        while i < self.evidence.len()
            invariant
                i <= self.evidence@.len(),
                sources@ == evidence_sources(self.evidence@).subrange(0, i as int),
            decreases self.evidence@.len() - i,
        {
            sources.push(self.evidence[i].provider.duplicate());
            i = i + 1;
            assert(sources@ =~= evidence_sources(self.evidence@).subrange(0, i as int));
        }
        assert(sources@ =~= evidence_sources(self.evidence@));
        let round_trip_time = match self.connection_rtt {
            Some(d) => Some(d),
            None => self.observed_rtt(),
        };
        let score = score_candidate(self, compatible, round_trip_time);
        EndpointCandidate {
            endpoint,
            score,
            sources,
            round_trip_time,
            successful_connections: self.successful_connections,
            consecutive_failures: self.consecutive_failures,
        }
    }
}

/// An incompatible peer's endpoint scores the lowest possible value.
pub proof fn lemma_incompatible_cannot_win(
    record: RecordView,
    other: RecordView,
    rtt: Option<Duration>,
    other_rtt: Option<Duration>,
)
    ensures
        spec_score(record, false, rtt) <= spec_score(other, true, other_rtt) || spec_score(
            other,
            true,
            other_rtt,
        ) < i32::MIN,
        spec_score(record, false, rtt) == i32::MIN,
{
}

/// One more corroborating provider raises a compatible endpoint's score.
pub proof fn lemma_corroboration_raises_score(
    record: RecordView,
    more: RecordView,
    extra: EndpointEvidence,
    rtt: Option<Duration>,
)
    requires
        more.evidence == record.evidence.push(extra),
        more.successful_connections == record.successful_connections,
        more.total_failures == record.total_failures,
        more.consecutive_failures == record.consecutive_failures,
    ensures
        spec_score(more, true, rtt) > spec_score(record, true, rtt),
{
    assert(more.evidence.drop_last() =~= record.evidence);
    lemma_sums_nonneg(record.evidence);
}

/// One more successful connection, up to five, raises the score.
pub proof fn lemma_success_raises_score(
    record: RecordView,
    more: RecordView,
    rtt: Option<Duration>,
)
    requires
        more.evidence == record.evidence,
        more.successful_connections == record.successful_connections + 1,
        record.successful_connections < 5,
        more.total_failures == record.total_failures,
        more.consecutive_failures == record.consecutive_failures,
    ensures
        spec_score(more, true, rtt) > spec_score(record, true, rtt),
{
}

/// More failures never raise the score, and one more recent failure while
/// fewer than five lowers it.
pub proof fn lemma_failures_lower_score(
    record: RecordView,
    worse: RecordView,
    rtt: Option<Duration>,
)
    requires
        worse.evidence == record.evidence,
        worse.successful_connections == record.successful_connections,
        worse.total_failures >= record.total_failures,
        worse.consecutive_failures >= record.consecutive_failures,
    ensures
        spec_score(worse, true, rtt) <= spec_score(record, true, rtt),
        record.consecutive_failures < 5 && worse.consecutive_failures > record.consecutive_failures
            ==> spec_score(worse, true, rtt) < spec_score(record, true, rtt),
{
}

/// A faster round trip never lowers an endpoint's score: with the same
/// record, a shorter round trip scores at least as high, one on the faster
/// side of 20, 100 or 500 ms scores strictly higher, and any measured round
/// trip scores above none at all.
pub proof fn lemma_faster_round_trip_scores_higher(record: RecordView, a: Duration, b: Duration)
    ensures
        a.spec_nanos() <= b.spec_nanos() ==> spec_score(record, true, Some(a)) >= spec_score(
            record,
            true,
            Some(b),
        ),
        (a.spec_nanos() <= 20 * NANOS_PER_MILLI < b.spec_nanos() || a.spec_nanos() <= 100
            * NANOS_PER_MILLI < b.spec_nanos() || a.spec_nanos() <= 500 * NANOS_PER_MILLI
            < b.spec_nanos()) ==> spec_score(record, true, Some(a)) > spec_score(
            record,
            true,
            Some(b),
        ),
        a.spec_nanos() <= 20 * NANOS_PER_MILLI && b.spec_nanos() > 500 * NANOS_PER_MILLI
            ==> spec_score(record, true, Some(a)) == spec_score(record, true, Some(b)) + 50,
        spec_score(record, true, Some(a)) > spec_score(record, true, None),
{
}

/// The score grows at most linearly with the amount of evidence, so an
/// endpoint with fewer than a million sources always scores within `i32`.
pub proof fn lemma_score_gain_bound(record: RecordView, rtt: Option<Duration>)
    ensures
        0 <= score_gain(record, rtt) <= 660 + 90 * record.evidence.len(),
{
    lemma_sums_bound(record.evidence);
    lemma_sums_nonneg(record.evidence);
}

proof fn lemma_sums_bound(ev: Seq<EndpointEvidence>)
    ensures
        weights_sum(ev) <= 75 * ev.len(),
        observations_sum(ev) <= 5 * ev.len(),
    decreases ev.len(),
{
    if ev.len() > 0 {
        lemma_sums_bound(ev.drop_last());
    }
}

} // verus!
