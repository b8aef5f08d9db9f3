//! Limits of the secure-connection racer.

use vstd::prelude::*;

use crate::time::Duration;

verus! {

/// Most candidates raced at once.
pub const MAX_RACE_CANDIDATES: usize = 8;

#[derive(Clone, Debug, PartialEq, Eq)]
pub struct ConnectionCandidate<E> {
    pub endpoint: E,
    pub start_delay: Duration,
}

#[derive(Clone, Copy, Debug, PartialEq, Eq, Structural)]
pub enum ConnectErrorKind {
    InvalidConfiguration,
    Cancelled,
    Timeout,
    Unreachable,
    Tls,
    Authentication,
    Protocol,
    IdentityChanged,
    NetworkChanged,
    InternalTask,
}

#[derive(Clone, Copy, Debug, PartialEq, Eq, Structural)]
pub struct ConnectAttemptError {
    pub kind: ConnectErrorKind,
}

impl ConnectAttemptError {
    pub fn new(kind: ConnectErrorKind) -> (r: Self)
        ensures
            r.kind == kind,
    {
        ConnectAttemptError { kind }
    }
}

/// Races candidate connections with a per-attempt timeout.
pub struct ConnectionRacer {
    attempt_timeout: Duration,
    max_candidates: usize,
}

impl ConnectionRacer {
    pub closed spec fn spec_attempt_timeout(&self) -> Duration {
        self.attempt_timeout
    }

    pub closed spec fn spec_max_candidates(&self) -> usize {
        self.max_candidates
    }

    /// Accepts a non-zero timeout and between one and eight candidates.
    pub fn new(attempt_timeout: Duration, max_candidates: usize) -> (r: Result<
        Self,
        ConnectAttemptError,
    >)
        ensures
            r is Ok <==> attempt_timeout.spec_nanos() != 0 && 1 <= max_candidates
                <= MAX_RACE_CANDIDATES,
            r matches Ok(racer) ==> racer.spec_attempt_timeout() == attempt_timeout
                && racer.spec_max_candidates() == max_candidates,
            r matches Err(e) ==> e.kind == ConnectErrorKind::InvalidConfiguration,
    {
        if attempt_timeout.is_zero() || max_candidates == 0 || max_candidates > MAX_RACE_CANDIDATES {
            return Err(ConnectAttemptError::new(ConnectErrorKind::InvalidConfiguration));
        }
        Ok(ConnectionRacer { attempt_timeout, max_candidates })
    }

    pub fn attempt_timeout(&self) -> (r: Duration)
        ensures
            r == self.spec_attempt_timeout(),
    {
        self.attempt_timeout
    }

    pub fn max_candidates(&self) -> (r: usize)
        ensures
            r == self.spec_max_candidates(),
    {
        self.max_candidates
    }

    /// A race needs at least one candidate and at most the configured limit.
    pub fn check_candidate_count(&self, count: usize) -> (r: Result<(), ConnectAttemptError>)
        ensures
            r is Ok <==> 1 <= count <= self.spec_max_candidates(),
            r matches Err(e) ==> e.kind == ConnectErrorKind::InvalidConfiguration,
    {
        if count == 0 || count > self.max_candidates {
            Err(ConnectAttemptError::new(ConnectErrorKind::InvalidConfiguration))
        } else {
            Ok(())
        }
    }
}

} // verus!
