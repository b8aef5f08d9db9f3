//! Errors of the discovery layer.

use vstd::prelude::*;

verus! {

/// Errors returned by the discovery manager.
#[derive(Clone, Debug, PartialEq, Eq)]
pub enum DiscoveryError {
    /// Configuration was rejected before tasks were started.
    InvalidConfig(String),
    /// The discovery session has already stopped.
    SessionClosed,
    /// A manager or provider task could not be joined.
    TaskFailed(String),
}

/// A provider-local failure. Other providers continue running after it.
#[derive(Clone, Debug, PartialEq, Eq)]
pub enum ProviderError {
    /// Provider configuration is invalid for every runtime environment.
    InvalidConfig(String),
    /// An operating-system networking operation failed.
    Network(String),
    /// A platform capability or permission is unavailable.
    Unavailable(String),
    /// The provider's internal event channel closed unexpectedly.
    EventStreamClosed,
}

} // verus!
