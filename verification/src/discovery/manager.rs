//! Session-level decisions of the discovery manager: which provider sets
//! may start, and what state a provider is left in when its task ends.

use vstd::prelude::*;
use vstd::string::StringExecFns;

use crate::discovery::error::{DiscoveryError, ProviderError};
use crate::discovery::model::{ProviderId, ProviderState};
use crate::discovery::registry::pkey;

verus! {

/// The text of a provider error.
pub open spec fn provider_error_text(e: ProviderError) -> Seq<char> {
    match e {
        ProviderError::InvalidConfig(s) => "invalid provider configuration: "@ + s@,
        ProviderError::Network(s) => "network operation failed: "@ + s@,
        ProviderError::Unavailable(s) => "provider unavailable: "@ + s@,
        ProviderError::EventStreamClosed => "provider event stream closed"@,
    }
}

/// The text of a discovery error.
pub open spec fn discovery_error_text(e: DiscoveryError) -> Seq<char> {
    match e {
        DiscoveryError::InvalidConfig(s) => "invalid discovery configuration: "@ + s@,
        DiscoveryError::SessionClosed => "discovery session is closed"@,
        DiscoveryError::TaskFailed(s) => "discovery task failed: "@ + s@,
    }
}

impl ProviderError {
    /// The error's human-readable message.
    pub fn message(&self) -> (r: String)
        ensures
            r@ == provider_error_text(*self),
    {
        match self {
            ProviderError::InvalidConfig(s) => String::from_str(
                "invalid provider configuration: ",
            ).concat(s.as_str()),
            ProviderError::Network(s) => String::from_str("network operation failed: ").concat(
                s.as_str(),
            ),
            ProviderError::Unavailable(s) => String::from_str("provider unavailable: ").concat(
                s.as_str(),
            ),
            ProviderError::EventStreamClosed => String::from_str("provider event stream closed"),
        }
    }
}

impl DiscoveryError {
    /// The error's human-readable message.
    pub fn message(&self) -> (r: String)
        ensures
            r@ == discovery_error_text(*self),
    {
        match self {
            DiscoveryError::InvalidConfig(s) => String::from_str(
                "invalid discovery configuration: ",
            ).concat(s.as_str()),
            DiscoveryError::SessionClosed => String::from_str("discovery session is closed"),
            DiscoveryError::TaskFailed(s) => String::from_str("discovery task failed: ").concat(
                s.as_str(),
            ),
        }
    }
}

/// Two of the providers share an identifier.
pub open spec fn has_duplicate_provider(ids: Seq<ProviderId>) -> bool {
    exists|i: int, j: int| 0 <= i < j < ids.len() && pkey(#[trigger] ids[i]) == pkey(#[trigger] ids[j])
}

/// Refuses a provider set in which two providers share an identifier.
pub fn validate_provider_ids(ids: &Vec<ProviderId>) -> (r: Result<(), DiscoveryError>)
    ensures
        r is Ok <==> !has_duplicate_provider(ids@),
        r matches Err(e) ==> e is InvalidConfig,
{
    let mut j: usize = 0;
    while j < ids.len()
        invariant
            j <= ids@.len(),
            forall|a: int, b: int| 0 <= a < b < j ==> pkey(#[trigger] ids@[a]) != pkey(#[trigger] ids@[b]),
        decreases ids@.len() - j,
    {
        let mut i: usize = 0;
        while i < j
            invariant
                i <= j,
                j < ids@.len(),
                forall|a: int| 0 <= a < i ==> pkey(#[trigger] ids@[a]) != pkey(ids@[j as int]),
            decreases j - i,
        {
            if ids[i].same_as(&ids[j]) {
                let message = String::from_str("duplicate provider id '").concat(ids[j].name()).concat(
                    "'",
                );
                return Err(DiscoveryError::InvalidConfig(message));
            }
            i = i + 1;
        }
        j = j + 1;
    }
    Ok(())
}

/// The state a provider is left in when its task returns: stopped when the
/// session was cancelled, otherwise a recoverable failure with the reason.
pub fn provider_exit_state(result: Result<(), ProviderError>, cancelled: bool) -> (r: ProviderState)
    ensures
        result is Ok && cancelled ==> r == ProviderState::Stopped,
        result is Ok && !cancelled ==> (r matches ProviderState::Failed { recoverable, reason }
            && recoverable && reason@ == "provider stopped unexpectedly"@),
        result matches Err(e) ==> (r matches ProviderState::Failed { recoverable, reason }
            && recoverable && reason@ == provider_error_text(e)),
{
    match result {
        Ok(()) => if cancelled {
            ProviderState::Stopped
        } else {
            ProviderState::Failed {
                recoverable: true,
                reason: String::from_str("provider stopped unexpectedly"),
            }
        },
        Err(error) => ProviderState::Failed { recoverable: true, reason: error.message() },
    }
}

} // verus!
