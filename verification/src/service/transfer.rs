//! Transfer admission policy and the events of transfers in progress.

use vstd::prelude::*;

use crate::protocol::transfer::{
    aggregate_of, TransferManifest, MAX_BATCH_FILES, MAX_FILE_SIZE,
};
use crate::time::{Duration, NANOS_PER_SEC};
use crate::transfer::batch::BatchTransferError;

verus! {

pub const EVENT_LIMIT: usize = 256;

pub const MAX_DECISION_SECS: u64 = 300;

pub const MIN_PROGRESS_EVENT_STEP: u64 = 65_536;

pub const MAX_PROGRESS_EVENT_STEP: u64 = 67_108_864;

/// What a receiver admits and how it paces progress events.
#[derive(Clone, Copy, Debug, PartialEq, Eq)]
pub struct TransferPolicy {
    pub maximum_file_size: u64,
    pub maximum_aggregate_size: u64,
    pub maximum_file_count: usize,
    pub minimum_free_space_reserve: u64,
    pub receive_decision_timeout: Duration,
    pub progress_event_step: u64,
}

impl Default for TransferPolicy {
    fn default() -> (r: Self)
        ensures
            r.maximum_file_size == 10_737_418_240,
            r.maximum_aggregate_size == 10_737_418_240,
            r.maximum_file_count == MAX_BATCH_FILES,
            r.minimum_free_space_reserve == 67_108_864,
            r.receive_decision_timeout.spec_nanos() == 60 * NANOS_PER_SEC,
            r.progress_event_step == 1_048_576,
    {
        TransferPolicy {
            maximum_file_size: 10_737_418_240,
            maximum_aggregate_size: 10_737_418_240,
            maximum_file_count: MAX_BATCH_FILES,
            minimum_free_space_reserve: 67_108_864,
            receive_decision_timeout: Duration::from_secs(60),
            progress_event_step: 1_048_576,
        }
    }
}

#[derive(Clone, Debug, PartialEq, Eq)]
pub enum TransferServiceError {
    InvalidPolicy,
    FileRejectedByPolicy,
    InvalidSourceCount,
    SessionNotFound,
    Busy,
    RequestNotPending,
    MissingDestination,
    TransferNotFound,
    TransferNotPaused,
    PeerMismatch,
    InternalState,
    PrepareBatch(BatchTransferError),
}

impl TransferPolicy {
    /// Non-zero limits within the protocol's own, a reserve within the
    /// largest file, a decision window of at most five minutes, and a
    /// progress step between 64 KiB and 64 MiB.
    pub open spec fn spec_valid(self) -> bool {
        &&& 0 < self.maximum_file_size <= MAX_FILE_SIZE
        &&& 0 < self.maximum_aggregate_size <= MAX_FILE_SIZE
        &&& 0 < self.maximum_file_count <= MAX_BATCH_FILES
        &&& self.minimum_free_space_reserve <= MAX_FILE_SIZE
        &&& self.receive_decision_timeout.spec_nanos() != 0
        &&& self.receive_decision_timeout.spec_nanos() <= MAX_DECISION_SECS * NANOS_PER_SEC
        &&& MIN_PROGRESS_EVENT_STEP <= self.progress_event_step <= MAX_PROGRESS_EVENT_STEP
    }

    pub fn validate(self) -> (r: Result<Self, TransferServiceError>)
        ensures
            r == (if self.spec_valid() {
                Ok::<Self, TransferServiceError>(self)
            } else {
                Err(TransferServiceError::InvalidPolicy)
            }),
    {
        let decision = self.receive_decision_timeout.as_nanos();
        if self.maximum_file_size == 0 || self.maximum_file_size > MAX_FILE_SIZE
            || self.maximum_aggregate_size == 0 || self.maximum_aggregate_size > MAX_FILE_SIZE
            || self.maximum_file_count == 0 || self.maximum_file_count > MAX_BATCH_FILES
            || self.minimum_free_space_reserve > MAX_FILE_SIZE || decision == 0 || decision > (
        MAX_DECISION_SECS as u128) * NANOS_PER_SEC || self.progress_event_step
            < MIN_PROGRESS_EVENT_STEP || self.progress_event_step > MAX_PROGRESS_EVENT_STEP {
            return Err(TransferServiceError::InvalidPolicy);
        }
        Ok(self)
    }

    pub fn accepts_file_size(self, file_size: u64) -> (r: bool)
        ensures
            r == (file_size <= self.maximum_file_size),
    {
        file_size <= self.maximum_file_size
    }

    /// Admits a manifest within the file-count, per-file and aggregate
    /// limits.
    pub fn accepts_manifest(self, manifest: &TransferManifest) -> (r: bool)
        ensures
            r == (manifest.files@.len() <= self.maximum_file_count && (forall|i: int|
                0 <= i < manifest.files@.len() ==> #[trigger] manifest.files@[i].file_size
                    <= self.maximum_file_size) && (aggregate_of(manifest@.files) matches Ok(total)
                && total <= self.maximum_aggregate_size)),
    {
        if manifest.files.len() > self.maximum_file_count {
            return false;
        }
        let mut i: usize = 0;
        while i < manifest.files.len()
            invariant
                i <= manifest.files@.len(),
                forall|j: int|
                    0 <= j < i ==> #[trigger] manifest.files@[j].file_size
                        <= self.maximum_file_size,
            decreases manifest.files@.len() - i,
        {
            if !self.accepts_file_size(manifest.files[i].file_size) {
                return false;
            }
            i = i + 1;
        }
        match manifest.aggregate_size() {
            Ok(total) => total <= self.maximum_aggregate_size,
            Err(_) => false,
        }
    }

    /// Enough free space for the bytes still to come plus the reserve.
    pub fn has_available_space(self, available_bytes: u64, required_bytes: u64) -> (r: bool)
        ensures
            r == (available_bytes >= (if required_bytes + self.minimum_free_space_reserve
                > u64::MAX {
                u64::MAX as int
            } else {
                required_bytes + self.minimum_free_space_reserve
            })),
    {
        available_bytes >= required_bytes.saturating_add(self.minimum_free_space_reserve)
    }
}

#[derive(Clone, Copy, Debug, PartialEq, Eq, Structural)]
pub enum TransferDirection {
    Sending,
    Receiving,
}

/// A file to send: where it is, and the name to advertise if not its own.
#[derive(Clone, Debug, PartialEq, Eq)]
pub struct TransferFileSource {
    pub source_path: String,
    pub advertised_name: Option<String>,
}

impl TransferFileSource {
    pub fn new(source_path: String, advertised_name: Option<String>) -> (r: Self)
        ensures
            r.source_path == source_path,
            r.advertised_name == advertised_name,
    {
        TransferFileSource { source_path, advertised_name }
    }
}

#[derive(Clone, Copy, Debug, PartialEq, Eq, Structural)]
pub enum TransferEventKind {
    OfferReceived,
    AwaitingDecision,
    Transferring,
    Completed,
    Rejected,
    Paused,
    Cancelled,
    Failed,
}

#[derive(Clone, Debug, PartialEq, Eq)]
pub struct TransferEvent {
    pub event_id: u64,
    pub request_id: Option<u64>,
    pub authenticated_session_id: u64,
    pub transfer_id: String,
    pub direction: TransferDirection,
    pub kind: TransferEventKind,
    pub file_name: String,
    pub file_names: Vec<String>,
    pub file_sizes: Vec<u64>,
    pub file_size: u64,
    pub transferred_bytes: u64,
    pub completed_files: u32,
    pub current_file_index: Option<u32>,
    pub resumable: bool,
    /// Present after a received file has passed all checks and was finalized.
    pub final_path: Option<String>,
    /// Stable category only; never addresses or filesystem paths.
    pub detail: Option<String>,
}

} // verus!
