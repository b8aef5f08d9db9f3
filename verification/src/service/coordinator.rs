//! The decisions of the transfer coordinator: how transfers are named in
//! text, which incoming batches are offered to the user, how an answer is
//! resolved, what an ending batch reports, and when progress is reported.
//! The coordinator's tasks perform the I/O these decisions call for.

use vstd::prelude::*;
use vstd::string::StrSliceExecFns;

use crate::crypto::store::{hex_string, path_is_absolute};
use crate::discovery::model::{hex_bytes, hex_digit, lemma_hex_bytes_ascii};
use crate::protocol::transfer::{
    aggregate_of, files_view, BatchCancelReason, BatchPauseReason, TransferManifest,
    TRANSFER_ID_LEN,
};
use crate::service::transfer::{
    TransferDirection, TransferEvent, TransferEventKind, TransferPolicy, TransferServiceError,
};
use crate::text::ascii_chars;
use crate::transfer::batch::BatchTransferError;

verus! {

// ---------------------------------------------------------------------------
// Transfer identifiers as text
// ---------------------------------------------------------------------------

/// The two hexadecimal digits that encode each byte sit at positions
/// `2i` and `2i + 1`.
pub proof fn lemma_hex_bytes_index(bytes: Seq<u8>, i: int)
    requires
        0 <= i < bytes.len(),
    ensures
        hex_bytes(bytes).len() == 2 * bytes.len(),
        hex_bytes(bytes)[2 * i] == hex_digit(bytes[i] / 16),
        hex_bytes(bytes)[2 * i + 1] == hex_digit(bytes[i] % 16),
    decreases bytes.len(),
{
    lemma_hex_bytes_ascii(bytes);
    if i > 0 {
        lemma_hex_bytes_index(bytes.drop_first(), i - 1);
    }
}

/// A transfer identifier as 32 lower-case hexadecimal digits.
pub fn transfer_id_text(transfer_id: &[u8; TRANSFER_ID_LEN]) -> (r: String)
    ensures
        r@ == ascii_chars(hex_bytes(transfer_id@)),
{
    hex_string(transfer_id.as_slice())
}

/// The value of one hexadecimal digit, in either case.
pub open spec fn hex_value(c: char) -> Option<u8> {
    if '0' <= c && c <= '9' {
        Some((c as u32 - 48) as u8)
    } else if 'a' <= c && c <= 'f' {
        Some((c as u32 - 87) as u8)
    } else if 'A' <= c && c <= 'F' {
        Some((c as u32 - 55) as u8)
    } else {
        None
    }
}

/// A two-character base-16 number as `u8::from_str_radix` reads it: two
/// digits, or a plus sign and one digit.
pub open spec fn radix16_pair(c0: char, c1: char) -> Option<u8> {
    if c0 == '+' {
        hex_value(c1)
    } else {
        match (hex_value(c0), hex_value(c1)) {
            (Some(h), Some(l)) => Some((16 * h + l) as u8),
            _ => None,
        }
    }
}

/// The identifier that a 32-character text names, when every pair of
/// characters is a base-16 byte.
pub open spec fn transfer_id_from_text(text: Seq<char>) -> Option<Seq<u8>> {
    if text.len() == 2 * TRANSFER_ID_LEN && forall|i: int|
        0 <= i < TRANSFER_ID_LEN ==> (#[trigger] radix16_pair(text[2 * i], text[2 * i + 1])) is Some {
        Some(Seq::new(TRANSFER_ID_LEN as nat, |i: int| radix16_pair(text[2 * i], text[2 * i + 1])->0))
    } else {
        None
    }
}

fn hex_value_exec(c: char) -> (r: Option<u8>)
    ensures
        r == hex_value(c),
{
    if '0' <= c && c <= '9' {
        Some((c as u32 - 48) as u8)
    } else if 'a' <= c && c <= 'f' {
        Some((c as u32 - 87) as u8)
    } else if 'A' <= c && c <= 'F' {
        Some((c as u32 - 55) as u8)
    } else {
        None
    }
}

fn radix16_pair_exec(c0: char, c1: char) -> (r: Option<u8>)
    ensures
        r == radix16_pair(c0, c1),
{
    if c0 == '+' {
        hex_value_exec(c1)
    } else {
        match (hex_value_exec(c0), hex_value_exec(c1)) {
            (Some(h), Some(l)) => Some(16 * h + l),
            _ => None,
        }
    }
}

/// Reads a transfer identifier back from its text.
pub fn parse_transfer_id(value: &str) -> (r: Option<[u8; TRANSFER_ID_LEN]>)
    ensures
        match transfer_id_from_text(value@) {
            Some(id) => r matches Some(a) && a@ == id,
            None => r is None,
        },
{
    if value.unicode_len() != 2 * TRANSFER_ID_LEN {
        return None;
    }
    let mut output = [0u8; TRANSFER_ID_LEN];
    let mut i: usize = 0;
    while i < TRANSFER_ID_LEN
        invariant
            i <= TRANSFER_ID_LEN,
            value@.len() == 2 * TRANSFER_ID_LEN,
            forall|k: int|
                0 <= k < i ==> (#[trigger] radix16_pair(value@[2 * k], value@[2 * k + 1])) is Some
                    && output@[k] == radix16_pair(value@[2 * k], value@[2 * k + 1])->0,
        decreases TRANSFER_ID_LEN - i,
    {
        let pair = radix16_pair_exec(value.get_char(2 * i), value.get_char(2 * i + 1));
        match pair {
            Some(b) => {
                output[i] = b;
            },
            None => {
                return None;
            },
        }
        i = i + 1;
    }
    proof {
        let id = Seq::new(
            TRANSFER_ID_LEN as nat,
            |k: int| radix16_pair(value@[2 * k], value@[2 * k + 1])->0,
        );
        assert(output@ =~= id);
    }
    Some(output)
}

/// Reading back an identifier's text gives the identifier.
pub proof fn lemma_transfer_id_text_round_trip(id: Seq<u8>)
    requires
        id.len() == TRANSFER_ID_LEN,
    ensures
        transfer_id_from_text(ascii_chars(hex_bytes(id))) == Some(id),
{
    let text = ascii_chars(hex_bytes(id));
    lemma_hex_bytes_ascii(id);
    assert forall|i: int| 0 <= i < TRANSFER_ID_LEN implies (#[trigger] radix16_pair(
        text[2 * i],
        text[2 * i + 1],
    )) == Some(id[i]) by {
        lemma_hex_bytes_index(id, i);
        let hi = id[i] / 16;
        let lo = id[i] % 16;
        assert(text[2 * i] == hex_bytes(id)[2 * i] as char);
        assert(text[2 * i + 1] == hex_bytes(id)[2 * i + 1] as char);
        assert(16 * hi + lo == id[i]);
    }
    assert(Seq::new(
        TRANSFER_ID_LEN as nat,
        |i: int| radix16_pair(text[2 * i], text[2 * i + 1])->0,
    ) =~= id);
}

// ---------------------------------------------------------------------------
// Interruptions and how a batch ends
// ---------------------------------------------------------------------------

/// No pause or cancel was requested for a running transfer.
pub const TRANSFER_ACTION_RUNNING: u8 = 0;

/// The user asked to pause the transfer.
pub const TRANSFER_ACTION_PAUSE: u8 = 1;

/// The user asked to cancel the transfer.
pub const TRANSFER_ACTION_CANCEL: u8 = 2;

pub open spec fn spec_batch_interruption(action: u8) -> BatchTransferError {
    if action == TRANSFER_ACTION_CANCEL {
        BatchTransferError::Cancelled
    } else if action == TRANSFER_ACTION_PAUSE {
        BatchTransferError::LocalPaused(BatchPauseReason::User)
    } else {
        BatchTransferError::LocalPaused(BatchPauseReason::RouteLost)
    }
}

/// Why an interrupted transfer stopped: the user's cancel or pause, or,
/// with no request pending, a lost route.
pub fn batch_interruption(action: u8) -> (r: BatchTransferError)
    ensures
        r == spec_batch_interruption(action),
{
    if action == TRANSFER_ACTION_CANCEL {
        BatchTransferError::Cancelled
    } else if action == TRANSFER_ACTION_PAUSE {
        BatchTransferError::LocalPaused(BatchPauseReason::User)
    } else {
        BatchTransferError::LocalPaused(BatchPauseReason::RouteLost)
    }
}

/// The reason reported to the peer when a batch fails locally; none for
/// failures the peer caused or already knows of, and for pauses.
pub open spec fn spec_cancel_reason(e: BatchTransferError) -> Option<BatchCancelReason> {
    match e {
        BatchTransferError::Cancelled => Some(BatchCancelReason::User),
        BatchTransferError::InvalidSourceCount(_)
        | BatchTransferError::InvalidFileName
        | BatchTransferError::DuplicateFileName
        | BatchTransferError::Source
        | BatchTransferError::SourceChanged
        | BatchTransferError::Rejected
        | BatchTransferError::Randomness => Some(BatchCancelReason::Policy),
        BatchTransferError::Integrity | BatchTransferError::ResumeMismatch => Some(
            BatchCancelReason::Integrity,
        ),
        BatchTransferError::ResumeState
        | BatchTransferError::SendJob
        | BatchTransferError::Storage
        | BatchTransferError::InsufficientSpace
        | BatchTransferError::DestinationExists
        | BatchTransferError::Finalization => Some(BatchCancelReason::Storage),
        BatchTransferError::Protocol(_)
        | BatchTransferError::Data(_)
        | BatchTransferError::ChannelBinding
        | BatchTransferError::UnexpectedMessage
        | BatchTransferError::ProtocolState => Some(BatchCancelReason::Protocol),
        BatchTransferError::Control(_)
        | BatchTransferError::Paused
        | BatchTransferError::LocalPaused(_)
        | BatchTransferError::RemoteCancelled(_)
        | BatchTransferError::RemotePaused(_) => None,
    }
}

pub fn batch_cancel_reason(error: &BatchTransferError) -> (r: Option<BatchCancelReason>)
    ensures
        r == spec_cancel_reason(*error),
{
    match error {
        BatchTransferError::Cancelled => Some(BatchCancelReason::User),
        BatchTransferError::InvalidSourceCount(_)
        | BatchTransferError::InvalidFileName
        | BatchTransferError::DuplicateFileName
        | BatchTransferError::Source
        | BatchTransferError::SourceChanged
        | BatchTransferError::Rejected
        | BatchTransferError::Randomness => Some(BatchCancelReason::Policy),
        BatchTransferError::Integrity | BatchTransferError::ResumeMismatch => Some(
            BatchCancelReason::Integrity,
        ),
        BatchTransferError::ResumeState
        | BatchTransferError::SendJob
        | BatchTransferError::Storage
        | BatchTransferError::InsufficientSpace
        | BatchTransferError::DestinationExists
        | BatchTransferError::Finalization => Some(BatchCancelReason::Storage),
        BatchTransferError::Protocol(_)
        | BatchTransferError::Data(_)
        | BatchTransferError::ChannelBinding
        | BatchTransferError::UnexpectedMessage
        | BatchTransferError::ProtocolState => Some(BatchCancelReason::Protocol),
        BatchTransferError::Control(_)
        | BatchTransferError::Paused
        | BatchTransferError::LocalPaused(_)
        | BatchTransferError::RemoteCancelled(_)
        | BatchTransferError::RemotePaused(_) => None,
    }
}

/// The message that tells the peer a batch failed here.
#[derive(Clone, Copy, Debug, PartialEq, Eq)]
pub enum FailureMessage {
    Pause(BatchPauseReason),
    Cancel(BatchCancelReason),
}

/// A local pause is reported as a pause (an unexplained one as an app
/// lifecycle pause); any other failure as the cancel its reason calls for,
/// if any.
pub open spec fn spec_failure_message(e: BatchTransferError) -> Option<FailureMessage> {
    match e {
        BatchTransferError::LocalPaused(reason) => Some(FailureMessage::Pause(reason)),
        BatchTransferError::Paused => Some(FailureMessage::Pause(BatchPauseReason::AppLifecycle)),
        _ => match spec_cancel_reason(e) {
            Some(reason) => Some(FailureMessage::Cancel(reason)),
            None => None,
        },
    }
}

pub fn failure_message(error: &BatchTransferError) -> (r: Option<FailureMessage>)
    ensures
        r == spec_failure_message(*error),
{
    match error {
        BatchTransferError::LocalPaused(reason) => Some(FailureMessage::Pause(*reason)),
        BatchTransferError::Paused => Some(FailureMessage::Pause(BatchPauseReason::AppLifecycle)),
        _ => match batch_cancel_reason(error) {
            Some(reason) => Some(FailureMessage::Cancel(reason)),
            None => None,
        },
    }
}

/// The stable category an event reports for a failure; it never names an
/// address or a path.
pub open spec fn error_category(e: BatchTransferError) -> Seq<char> {
    match e {
        BatchTransferError::Protocol(_)
        | BatchTransferError::UnexpectedMessage
        | BatchTransferError::ProtocolState => "protocol"@,
        BatchTransferError::Control(_) | BatchTransferError::Data(_) => "transport"@,
        BatchTransferError::InvalidSourceCount(_) => "invalid_source_count"@,
        BatchTransferError::InvalidFileName => "invalid_file_name"@,
        BatchTransferError::DuplicateFileName => "duplicate_file_name"@,
        BatchTransferError::Source => "source"@,
        BatchTransferError::SourceChanged => "source_changed"@,
        BatchTransferError::Rejected => "rejected"@,
        BatchTransferError::ChannelBinding => "channel_binding"@,
        BatchTransferError::Integrity => "integrity"@,
        BatchTransferError::ResumeState => "resume_state"@,
        BatchTransferError::ResumeMismatch => "resume_mismatch"@,
        BatchTransferError::SendJob => "send_job"@,
        BatchTransferError::Storage => "storage"@,
        BatchTransferError::InsufficientSpace => "insufficient_space"@,
        BatchTransferError::DestinationExists => "destination_exists"@,
        BatchTransferError::Finalization => "finalization"@,
        BatchTransferError::Randomness => "randomness"@,
        BatchTransferError::Paused | BatchTransferError::LocalPaused(_) => "paused"@,
        BatchTransferError::Cancelled => "cancelled"@,
        BatchTransferError::RemoteCancelled(BatchCancelReason::User) => "remote_cancelled"@,
        BatchTransferError::RemoteCancelled(BatchCancelReason::Policy) => "remote_policy"@,
        BatchTransferError::RemoteCancelled(BatchCancelReason::Integrity) => "remote_integrity"@,
        BatchTransferError::RemoteCancelled(BatchCancelReason::Storage) => "remote_storage"@,
        BatchTransferError::RemoteCancelled(BatchCancelReason::Protocol) => "remote_protocol"@,
        BatchTransferError::RemotePaused(_) => "remote_paused"@,
    }
}

pub fn batch_error_category(error: &BatchTransferError) -> (r: &'static str)
    ensures
        r@ == error_category(*error),
{
    match error {
        BatchTransferError::Protocol(_)
        | BatchTransferError::UnexpectedMessage
        | BatchTransferError::ProtocolState => "protocol",
        BatchTransferError::Control(_) | BatchTransferError::Data(_) => "transport",
        BatchTransferError::InvalidSourceCount(_) => "invalid_source_count",
        BatchTransferError::InvalidFileName => "invalid_file_name",
        BatchTransferError::DuplicateFileName => "duplicate_file_name",
        BatchTransferError::Source => "source",
        BatchTransferError::SourceChanged => "source_changed",
        BatchTransferError::Rejected => "rejected",
        BatchTransferError::ChannelBinding => "channel_binding",
        BatchTransferError::Integrity => "integrity",
        BatchTransferError::ResumeState => "resume_state",
        BatchTransferError::ResumeMismatch => "resume_mismatch",
        BatchTransferError::SendJob => "send_job",
        BatchTransferError::Storage => "storage",
        BatchTransferError::InsufficientSpace => "insufficient_space",
        BatchTransferError::DestinationExists => "destination_exists",
        BatchTransferError::Finalization => "finalization",
        BatchTransferError::Randomness => "randomness",
        BatchTransferError::Paused | BatchTransferError::LocalPaused(_) => "paused",
        BatchTransferError::Cancelled => "cancelled",
        BatchTransferError::RemoteCancelled(BatchCancelReason::User) => "remote_cancelled",
        BatchTransferError::RemoteCancelled(BatchCancelReason::Policy) => "remote_policy",
        BatchTransferError::RemoteCancelled(BatchCancelReason::Integrity) => "remote_integrity",
        BatchTransferError::RemoteCancelled(BatchCancelReason::Storage) => "remote_storage",
        BatchTransferError::RemoteCancelled(BatchCancelReason::Protocol) => "remote_protocol",
        BatchTransferError::RemotePaused(_) => "remote_paused",
    }
}

/// A sender batch that ended this way can be retried later: it was paused
/// or its transport broke.
pub open spec fn spec_retryable(e: BatchTransferError) -> bool {
    match e {
        BatchTransferError::Paused
        | BatchTransferError::LocalPaused(_)
        | BatchTransferError::RemotePaused(_)
        | BatchTransferError::Control(_)
        | BatchTransferError::Data(_) => true,
        _ => false,
    }
}

pub fn sender_job_retryable(error: &BatchTransferError) -> (r: bool)
    ensures
        r == spec_retryable(*error),
{
    match error {
        BatchTransferError::Paused
        | BatchTransferError::LocalPaused(_)
        | BatchTransferError::RemotePaused(_)
        | BatchTransferError::Control(_)
        | BatchTransferError::Data(_) => true,
        _ => false,
    }
}

/// A receiver that ended this way throws its resume state away: the
/// transfer was cancelled or failed its integrity checks.
pub open spec fn spec_discards_resume(e: BatchTransferError) -> bool {
    match e {
        BatchTransferError::Cancelled
        | BatchTransferError::RemoteCancelled(_)
        | BatchTransferError::Integrity => true,
        _ => false,
    }
}

pub fn discards_resume_state(error: &BatchTransferError) -> (r: bool)
    ensures
        r == spec_discards_resume(*error),
{
    match error {
        BatchTransferError::Cancelled
        | BatchTransferError::RemoteCancelled(_)
        | BatchTransferError::Integrity => true,
        _ => false,
    }
}

/// A paused batch keeps its resume state: whoever paused it and for whatever
/// reason, the receiver holds on to what it has, so a resumed batch goes on
/// where it stopped. The state is thrown away only when the batch is
/// cancelled, by either side for any reason, or fails its integrity checks.
pub proof fn lemma_pause_keeps_resume_state(reason: BatchPauseReason, cancel: BatchCancelReason)
    ensures
        !spec_discards_resume(BatchTransferError::Paused),
        !spec_discards_resume(BatchTransferError::LocalPaused(reason)),
        !spec_discards_resume(BatchTransferError::RemotePaused(reason)),
        spec_discards_resume(BatchTransferError::Cancelled),
        spec_discards_resume(BatchTransferError::RemoteCancelled(cancel)),
        spec_discards_resume(BatchTransferError::Integrity),
        forall|e: BatchTransferError|
            #[trigger] spec_discards_resume(e) ==> e is Cancelled || e is RemoteCancelled
                || e is Integrity,
{
}

/// A sender batch that stopped on a pause or on a broken control or data
/// connection stays a paused job that can be retried, and no ending that
/// leaves the sender able to retry makes the receiver discard its resume
/// state.
pub proof fn lemma_interrupted_sender_retryable(reason: BatchPauseReason)
    ensures
        spec_retryable(BatchTransferError::Paused),
        spec_retryable(BatchTransferError::LocalPaused(reason)),
        spec_retryable(BatchTransferError::RemotePaused(reason)),
        forall|e: BatchTransferError|
            (e is Control || e is Data) ==> #[trigger] spec_retryable(e),
        forall|e: BatchTransferError|
            #[trigger] spec_retryable(e) ==> !spec_discards_resume(e),
{
}

/// The event kind and detail that report how a batch ended; `None` is a
/// completed batch.
pub open spec fn spec_outcome(error: Option<BatchTransferError>) -> (TransferEventKind, Option<
    Seq<char>,
>) {
    match error {
        None => (TransferEventKind::Completed, None),
        Some(e) => match e {
            BatchTransferError::Rejected | BatchTransferError::RemoteCancelled(
                BatchCancelReason::Policy,
            ) => (TransferEventKind::Rejected, Some("rejected"@)),
            BatchTransferError::Paused
            | BatchTransferError::LocalPaused(_)
            | BatchTransferError::RemotePaused(_) => (TransferEventKind::Paused, Some("paused"@)),
            BatchTransferError::Cancelled | BatchTransferError::RemoteCancelled(
                BatchCancelReason::User,
            ) => (TransferEventKind::Cancelled, Some("cancelled"@)),
            _ => (TransferEventKind::Failed, Some(error_category(e))),
        },
    }
}

pub fn batch_outcome(error: Option<&BatchTransferError>) -> (r: (TransferEventKind, Option<String>))
    ensures
        r.0 == spec_outcome(
            match error {
                Some(e) => Some(*e),
                None => None,
            },
        ).0,
        match spec_outcome(
            match error {
                Some(e) => Some(*e),
                None => None,
            },
        ).1 {
            Some(text) => r.1 matches Some(s) && s@ == text,
            None => r.1 is None,
        },
{
    match error {
        None => (TransferEventKind::Completed, None),
        Some(e) => match e {
            BatchTransferError::Rejected | BatchTransferError::RemoteCancelled(
                BatchCancelReason::Policy,
            ) => (TransferEventKind::Rejected, Some("rejected".to_owned())),
            BatchTransferError::Paused
            | BatchTransferError::LocalPaused(_)
            | BatchTransferError::RemotePaused(_) => (
                TransferEventKind::Paused,
                Some("paused".to_owned()),
            ),
            BatchTransferError::Cancelled | BatchTransferError::RemoteCancelled(
                BatchCancelReason::User,
            ) => (TransferEventKind::Cancelled, Some("cancelled".to_owned())),
            _ => (TransferEventKind::Failed, Some(batch_error_category(e).to_owned())),
        },
    }
}

// ---------------------------------------------------------------------------
// Events
// ---------------------------------------------------------------------------

/// The declared total size of a manifest, or zero when it declares too
/// much.
pub open spec fn total_or_zero(manifest: TransferManifest) -> u64 {
    match aggregate_of(manifest@.files) {
        Ok(total) => total,
        Err(_) => 0,
    }
}

/// `e` is the event that describes `manifest` at the start of a step of
/// kind `kind`: its names and sizes, no progress yet, no id assigned.
pub open spec fn event_describes(
    e: TransferEvent,
    session_id: u64,
    manifest: TransferManifest,
    direction: TransferDirection,
    kind: TransferEventKind,
) -> bool {
    let files = manifest.files@;
    &&& e.event_id == 0
    &&& e.request_id is None
    &&& e.authenticated_session_id == session_id
    &&& e.transfer_id@ == ascii_chars(hex_bytes(manifest.transfer_id@))
    &&& e.direction == direction
    &&& e.kind == kind
    &&& e.file_name@ == (if files.len() > 0 {
        files[0].file_name@
    } else {
        Seq::<char>::empty()
    })
    &&& e.file_names@.len() == files.len()
    &&& forall|i: int| 0 <= i < files.len() ==> (#[trigger] e.file_names@[i])@ == files[i].file_name@
    &&& e.file_sizes@ == files.map_values(|f: crate::protocol::transfer::ManifestFile| f.file_size)
    &&& e.file_size == total_or_zero(manifest)
    &&& e.transferred_bytes == 0
    &&& e.completed_files == 0
    &&& e.current_file_index is None
    &&& e.resumable
    &&& e.final_path is None
    &&& e.detail is None
}

/// The event describing a manifest.
pub fn event_for_manifest(
    session_id: u64,
    manifest: &TransferManifest,
    direction: TransferDirection,
    kind: TransferEventKind,
) -> (r: TransferEvent)
    ensures
        event_describes(r, session_id, *manifest, direction, kind),
{
    let mut file_names: Vec<String> = Vec::new();
    let mut file_sizes: Vec<u64> = Vec::new();
    let mut i: usize = 0;
    while i < manifest.files.len()
        invariant
            i <= manifest.files@.len(),
            file_names@.len() == i,
            forall|k: int| 0 <= k < i ==> (#[trigger] file_names@[k])@ == manifest.files@[k].file_name@,
            file_sizes@ == manifest.files@.subrange(0, i as int).map_values(
                |f: crate::protocol::transfer::ManifestFile| f.file_size,
            ),
        decreases manifest.files@.len() - i,
    {
        file_names.push(manifest.files[i].file_name.clone());
        file_sizes.push(manifest.files[i].file_size);
        i = i + 1;
        assert(file_sizes@ =~= manifest.files@.subrange(0, i as int).map_values(
            |f: crate::protocol::transfer::ManifestFile| f.file_size,
        ));
    }
    assert(manifest.files@.subrange(0, i as int) =~= manifest.files@);
    let file_name = if manifest.files.len() > 0 {
        manifest.files[0].file_name.clone()
    } else {
        String::new()
    };
    let file_size = match manifest.aggregate_size() {
        Ok(total) => total,
        Err(_) => 0,
    };
    TransferEvent {
        event_id: 0,
        request_id: None,
        authenticated_session_id: session_id,
        transfer_id: transfer_id_text(&manifest.transfer_id),
        direction,
        kind,
        file_name,
        file_names,
        file_sizes,
        file_size,
        transferred_bytes: 0,
        completed_files: 0,
        current_file_index: None,
        resumable: true,
        final_path: None,
        detail: None,
    }
}

/// Sum of the sizes of the first `n` files.
pub open spec fn sizes_before(manifest: TransferManifest, n: int) -> int
    decreases n,
{
    if n <= 0 {
        0
    } else {
        sizes_before(manifest, n - 1) + manifest.files@[n - 1].file_size
    }
}

proof fn lemma_sizes_before_monotone(manifest: TransferManifest, a: int, b: int)
    requires
        0 <= a <= b <= manifest.files@.len(),
    ensures
        0 <= sizes_before(manifest, a) <= sizes_before(manifest, b),
    decreases b,
{
    if b > a {
        lemma_sizes_before_monotone(manifest, a, b - 1);
    } else if a > 0 {
        lemma_sizes_before_monotone(manifest, 0, a - 1);
    }
}

proof fn lemma_sizes_before_total(manifest: TransferManifest, n: int)
    requires
        0 <= n <= manifest.files@.len(),
    ensures
        sizes_before(manifest, n) == crate::protocol::transfer::sum_sizes(
            files_view(manifest.files@).subrange(0, n),
        ),
    decreases n,
{
    if n > 0 {
        lemma_sizes_before_total(manifest, n - 1);
        assert(files_view(manifest.files@).subrange(0, n).drop_last() =~= files_view(
            manifest.files@,
        ).subrange(0, n - 1));
    }
}

/// The number of bytes of the whole batch that have moved once `transferred`
/// bytes of file `file_index` have: the earlier files in full plus that
/// count, saturating at `u64::MAX`.
pub open spec fn batch_progress(manifest: TransferManifest, file_index: int, transferred: u64) -> u64 {
    let total = sizes_before(manifest, file_index) + transferred;
    if total > u64::MAX {
        u64::MAX
    } else {
        total as u64
    }
}

/// `n` as a `u32`, or `u32::MAX` when it does not fit.
pub open spec fn saturating_u32(n: int) -> u32 {
    if n <= u32::MAX {
        n as u32
    } else {
        u32::MAX
    }
}

/// A manifest whose declared total fits the limit.
pub open spec fn manifest_sized(manifest: TransferManifest) -> bool {
    aggregate_of(manifest@.files) is Ok
}

/// The batch progress for `transferred` bytes of file `file_index`.
pub fn batch_progress_bytes(manifest: &TransferManifest, file_index: usize, transferred: u64) -> (r: u64)
    requires
        manifest_sized(*manifest),
        file_index <= manifest.files@.len(),
    ensures
        r == batch_progress(*manifest, file_index as int, transferred),
{
    proof {
        lemma_sizes_before_total(*manifest, manifest.files@.len() as int);
        assert(files_view(manifest.files@).subrange(0, manifest.files@.len() as int) =~= files_view(
            manifest.files@,
        ));
        lemma_sizes_before_monotone(*manifest, file_index as int, manifest.files@.len() as int);
    }
    let mut prior: u64 = 0;
    let mut i: usize = 0;
    while i < file_index
        invariant
            i <= file_index <= manifest.files@.len(),
            prior == sizes_before(*manifest, i as int),
            sizes_before(*manifest, file_index as int) <= crate::protocol::transfer::MAX_FILE_SIZE,
        decreases file_index - i,
    {
        proof {
            lemma_sizes_before_monotone(*manifest, i + 1, file_index as int);
        }
        prior = prior + manifest.files[i].file_size;
        i = i + 1;
    }
    prior.saturating_add(transferred)
}

/// A progress event is due once another `step` bytes moved since the last
/// one, and when the whole batch has moved.
pub open spec fn spec_progress_due(aggregate: u64, last: u64, step: u64, total: u64) -> bool {
    (if aggregate >= last {
        aggregate - last
    } else {
        0
    }) >= step || aggregate == total
}

pub fn progress_due(aggregate: u64, last: u64, step: u64, manifest: &TransferManifest) -> (r: bool)
    ensures
        r == spec_progress_due(
            aggregate,
            last,
            step,
            match aggregate_of(manifest@.files) {
                Ok(total) => total,
                Err(_) => u64::MAX,
            },
        ),
{
    let total = match manifest.aggregate_size() {
        Ok(total) => total,
        Err(_) => u64::MAX,
    };
    aggregate.saturating_sub(last) >= step || aggregate == total
}

/// The progress event for `transferred` batch bytes while file `file_index`
/// moves: the manifest's event with the byte count capped at the declared
/// total, the current file's index, and the current file counted as
/// complete once all of its bytes have moved.
pub fn progress_event(
    session_id: u64,
    manifest: &TransferManifest,
    direction: TransferDirection,
    file_index: usize,
    transferred: u64,
) -> (r: TransferEvent)
    requires
        manifest_sized(*manifest),
        file_index <= manifest.files@.len(),
    ensures
        r.kind == TransferEventKind::Transferring,
        r.transferred_bytes == if transferred <= total_or_zero(*manifest) {
            transferred
        } else {
            total_or_zero(*manifest)
        },
        r.current_file_index == if file_index <= u32::MAX {
            Some(file_index as u32)
        } else {
            None::<u32>
        },
        r.completed_files == saturating_u32(
            if file_index < manifest.files@.len() && (if transferred >= sizes_before(
                *manifest,
                file_index as int,
            ) {
                transferred - sizes_before(*manifest, file_index as int)
            } else {
                0
            }) >= manifest.files@[file_index as int].file_size {
                file_index + 1
            } else {
                file_index as int
            },
        ),
        r.authenticated_session_id == session_id,
        r.direction == direction,
        r.file_size == total_or_zero(*manifest),
        r.transfer_id@ == ascii_chars(hex_bytes(manifest.transfer_id@)),
        event_describes(
            (TransferEvent { transferred_bytes: 0, completed_files: 0, current_file_index: None, ..r }),
            session_id,
            *manifest,
            direction,
            TransferEventKind::Transferring,
        ),
{
    let mut event = event_for_manifest(session_id, manifest, direction, TransferEventKind::Transferring);
    let total = match manifest.aggregate_size() {
        Ok(total) => total,
        Err(_) => 0,
    };
    event.transferred_bytes = if transferred < total {
        transferred
    } else {
        total
    };
    event.current_file_index = if file_index <= u32::MAX as usize {
        Some(file_index as u32)
    } else {
        None
    };
    proof {
        lemma_sizes_before_total(*manifest, manifest.files@.len() as int);
        assert(files_view(manifest.files@).subrange(0, manifest.files@.len() as int) =~= files_view(
            manifest.files@,
        ));
        lemma_sizes_before_monotone(*manifest, file_index as int, manifest.files@.len() as int);
    }
    let completed = if file_index < manifest.files.len() {
        let prior = batch_progress_bytes(manifest, file_index, 0);
        if transferred.saturating_sub(prior) >= manifest.files[file_index].file_size {
            file_index + 1
        } else {
            file_index
        }
    } else {
        file_index
    };
    event.completed_files = if completed <= u32::MAX as usize {
        completed as u32
    } else {
        u32::MAX
    };
    event
}

// ---------------------------------------------------------------------------
// Admission and answers
// ---------------------------------------------------------------------------

/// The coordinator's settings are usable: a valid policy and an absolute
/// directory for resume state.
pub fn coordinator_settings(policy: TransferPolicy, resume_directory_is_absolute: bool) -> (r: Result<
    TransferPolicy,
    TransferServiceError,
>)
    ensures
        r == (if resume_directory_is_absolute && policy.spec_valid() {
            Ok::<TransferPolicy, TransferServiceError>(policy)
        } else {
            Err(TransferServiceError::InvalidPolicy)
        }),
{
    if !resume_directory_is_absolute {
        return Err(TransferServiceError::InvalidPolicy);
    }
    policy.validate()
}

/// Checks the settings with the resume directory given as a path.
pub fn check_coordinator_settings(policy: TransferPolicy, resume_directory: &str) -> (r: Result<
    TransferPolicy,
    TransferServiceError,
>)
    ensures
        !policy.spec_valid() ==> r == Err::<TransferPolicy, TransferServiceError>(
            TransferServiceError::InvalidPolicy,
        ),
        r is Ok ==> r == Ok::<TransferPolicy, TransferServiceError>(policy),
        r is Err ==> r == Err::<TransferPolicy, TransferServiceError>(
            TransferServiceError::InvalidPolicy,
        ),
{
    coordinator_settings(policy, path_is_absolute(resume_directory))
}

/// A send may start with between one and the policy's maximum of files.
pub fn check_source_count(policy: &TransferPolicy, count: usize) -> (r: Result<(), TransferServiceError>)
    ensures
        r is Ok <==> 0 < count <= policy.maximum_file_count,
        r is Err ==> r == Err::<(), TransferServiceError>(TransferServiceError::InvalidSourceCount),
{
    if count == 0 || count > policy.maximum_file_count {
        Err(TransferServiceError::InvalidSourceCount)
    } else {
        Ok(())
    }
}

/// The policy admits the manifest: few enough files, each and all small
/// enough.
pub open spec fn policy_admits(policy: TransferPolicy, manifest: TransferManifest) -> bool {
    &&& manifest.files@.len() <= policy.maximum_file_count
    &&& forall|i: int|
        0 <= i < manifest.files@.len() ==> #[trigger] manifest.files@[i].file_size
            <= policy.maximum_file_size
    &&& aggregate_of(manifest@.files) matches Ok(total) && total <= policy.maximum_aggregate_size
}

/// Why an incoming batch is turned away before the user sees it.
#[derive(Clone, Copy, Debug, PartialEq, Eq, Structural)]
pub enum IncomingRejection {
    ManifestPolicy,
    SessionBusy,
}

impl IncomingRejection {
    /// The stable detail the rejection event carries.
    pub fn detail(&self) -> (r: &'static str)
        ensures
            r@ == match *self {
                IncomingRejection::ManifestPolicy => "manifest_policy"@,
                IncomingRejection::SessionBusy => "session_busy"@,
            },
    {
        match self {
            IncomingRejection::ManifestPolicy => "manifest_policy",
            IncomingRejection::SessionBusy => "session_busy",
        }
    }
}

/// Whether an incoming batch is offered to the user: the policy must admit
/// its manifest, then the session must have no other transfer running.
pub fn admit_incoming(policy: &TransferPolicy, manifest: &TransferManifest, session_idle: bool) -> (r: Result<
    (),
    IncomingRejection,
>)
    ensures
        !policy_admits(*policy, *manifest) ==> r == Err::<(), IncomingRejection>(
            IncomingRejection::ManifestPolicy,
        ),
        policy_admits(*policy, *manifest) && !session_idle ==> r == Err::<(), IncomingRejection>(
            IncomingRejection::SessionBusy,
        ),
        policy_admits(*policy, *manifest) && session_idle ==> r is Ok,
{
    if !policy.accepts_manifest(manifest) {
        return Err(IncomingRejection::ManifestPolicy);
    }
    if !session_idle {
        return Err(IncomingRejection::SessionBusy);
    }
    Ok(())
}

/// The user's answer to an offered batch.
#[derive(Clone, Debug, PartialEq, Eq)]
pub struct ReceiveTransferDecision {
    pub accepted: bool,
    pub staging_directory: Option<String>,
    pub destination_directory: Option<String>,
    pub available_bytes: Option<u64>,
}

/// An acceptance must name where files are staged and where they go.
pub fn check_receive_decision(decision: &ReceiveTransferDecision) -> (r: Result<(), TransferServiceError>)
    ensures
        r is Err <==> decision.accepted && (decision.staging_directory is None
            || decision.destination_directory is None),
        r is Err ==> r == Err::<(), TransferServiceError>(TransferServiceError::MissingDestination),
{
    if decision.accepted && (decision.staging_directory.is_none()
        || decision.destination_directory.is_none()) {
        Err(TransferServiceError::MissingDestination)
    } else {
        Ok(())
    }
}

/// What the receiver does once the offer is answered, or not.
#[derive(Clone, Debug, PartialEq, Eq)]
pub enum ReceiveResolution {
    /// Accepted with room to spare: receive into the destination.
    Receive,
    /// Accepted, but the free space does not cover the batch and reserve.
    InsufficientSpace,
    /// Accepted without a destination: give up quietly.
    NoDestination,
    /// Cancelled or paused locally while waiting for the answer.
    Interrupted(BatchTransferError),
    /// Declined, or unanswered in time.
    Decline,
}

/// How the answer to an offer resolves: an accepted batch needs free space
/// for its declared total (all of `u64` when it declares too much) plus the
/// policy's reserve, with unknown free space counted as none, and a
/// destination; an unanswered one was interrupted or is declined.
pub open spec fn spec_resolution(
    policy: TransferPolicy,
    manifest: TransferManifest,
    decision: Option<ReceiveTransferDecision>,
    cancelled: bool,
    action: u8,
) -> ReceiveResolution {
    let required: int = match aggregate_of(manifest@.files) {
        Ok(total) => total as int,
        Err(_) => u64::MAX as int,
    };
    let reserve_total: int = if required + policy.minimum_free_space_reserve > u64::MAX {
        u64::MAX as int
    } else {
        required + policy.minimum_free_space_reserve
    };
    match decision {
        Some(d) => if d.accepted {
            let available: int = match d.available_bytes {
                Some(b) => b as int,
                None => 0,
            };
            if available < reserve_total {
                ReceiveResolution::InsufficientSpace
            } else if d.destination_directory is None {
                ReceiveResolution::NoDestination
            } else {
                ReceiveResolution::Receive
            }
        } else if cancelled {
            ReceiveResolution::Interrupted(spec_batch_interruption(action))
        } else {
            ReceiveResolution::Decline
        },
        None => if cancelled {
            ReceiveResolution::Interrupted(spec_batch_interruption(action))
        } else {
            ReceiveResolution::Decline
        },
    }
}

/// Resolves the answer to an offer. An accepted batch needs free space for
/// its declared total (all of `u64` when it declares too much) plus the
/// policy's reserve, with unknown free space counted as none.
pub fn resolve_receive_decision(
    policy: &TransferPolicy,
    manifest: &TransferManifest,
    decision: &Option<ReceiveTransferDecision>,
    cancelled: bool,
    action: u8,
) -> (r: ReceiveResolution)
    ensures
        r == spec_resolution(*policy, *manifest, *decision, cancelled, action),
{
    match decision {
        Some(d) if d.accepted => {
            let required = match manifest.aggregate_size() {
                Ok(total) => total,
                Err(_) => u64::MAX,
            };
            let available = match d.available_bytes {
                Some(b) => b,
                None => 0,
            };
            if !policy.has_available_space(available, required) {
                ReceiveResolution::InsufficientSpace
            } else if d.destination_directory.is_none() {
                ReceiveResolution::NoDestination
            } else {
                ReceiveResolution::Receive
            }
        },
        _ => if cancelled {
            ReceiveResolution::Interrupted(batch_interruption(action))
        } else {
            ReceiveResolution::Decline
        },
    }
}

/// A paused batch may only be retried with the peer it was sent to.
pub fn check_retry_peer(paused_binding: &[u8; 32], session_binding: &[u8; 32]) -> (r: Result<
    (),
    TransferServiceError,
>)
    ensures
        r is Ok <==> paused_binding@ == session_binding@,
        r is Err ==> r == Err::<(), TransferServiceError>(TransferServiceError::PeerMismatch),
{
    if crate::be_bytes::bytes_equal(paused_binding.as_slice(), session_binding.as_slice()) {
        Ok(())
    } else {
        Err(TransferServiceError::PeerMismatch)
    }
}

} // verus!
