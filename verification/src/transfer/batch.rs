//! Batch resume bookkeeping: chunk arithmetic, checkpoint pacing, the
//! per-chunk digest chain, and the checksummed resume-state record a
//! receiver keeps so an interrupted batch continues where it stopped.

use vstd::prelude::*;

use crate::be_bytes::{
    be16, be32, bytes_equal, lemma_be16, lemma_be32, push_all, push_be16, push_be32, read_array,
    read_be16, read_be32, read_u16, read_u32,
};
use crate::crypto::digest::{absorbed, digest32, sha256_digest, ContentHasher};
use crate::protocol::transfer::{
    manifest_digest, BatchCancelReason, BatchPauseReason, ManifestView, ResumePosition,
    TransferManifest, TransferProtocolError, MAX_BATCH_FILES, TRANSFER_ID_LEN,
};
use crate::transport::data_io::DataIoError;
use crate::transport::frame_io::FrameIoError;

verus! {

pub const RESUME_VERSION: u16 = 1;

/// Magic, version, peer, transfer id, manifest digest, chunk size, file
/// count and three reserved bytes.
pub const RESUME_FIXED_LEN: usize = 94;

/// Next chunk index and chain digest of one file.
pub const RESUME_FILE_LEN: usize = 36;

pub const RESUME_CHECKSUM_LEN: usize = 32;

pub const MAX_SOURCE_PATH_LEN: usize = 4096;

pub const MAX_SEND_JOB_LEN: usize = 65536;

pub const MAX_SEND_JOBS_PER_PEER: usize = 32;

/// Received bytes between durable checkpoints: 16 MiB.
pub const RESUME_CHECKPOINT_BYTES: u64 = 16_777_216;

#[derive(Clone, Debug, PartialEq, Eq)]
pub enum BatchTransferError {
    Protocol(TransferProtocolError),
    Control(FrameIoError),
    Data(DataIoError),
    InvalidSourceCount(usize),
    InvalidFileName,
    DuplicateFileName,
    Source,
    SourceChanged,
    Rejected,
    ChannelBinding,
    UnexpectedMessage,
    Integrity,
    ResumeState,
    ResumeMismatch,
    SendJob,
    Storage,
    InsufficientSpace,
    DestinationExists,
    Finalization,
    Randomness,
    Paused,
    LocalPaused(BatchPauseReason),
    Cancelled,
    RemoteCancelled(BatchCancelReason),
    RemotePaused(BatchPauseReason),
    ProtocolState,
}

/// A durable checkpoint is due at the end of a file or once another
/// 16 MiB arrived since the last one.
pub open spec fn spec_checkpoint_due(checkpointed: u64, transferred: u64, file_complete: bool) -> bool {
    file_complete || (transferred >= checkpointed && transferred - checkpointed
        >= RESUME_CHECKPOINT_BYTES)
}

/// A received file is intact when the digest of all its bytes is the one
/// its manifest entry declares; otherwise the batch fails its integrity
/// check.
pub fn check_received_file(hasher: ContentHasher, expected: &[u8; 32]) -> (r: Result<
    (),
    BatchTransferError,
>)
    ensures
        r is Ok <==> digest32(absorbed(hasher)) == expected@,
        r matches Err(e) ==> e == BatchTransferError::Integrity,
{
    let digest = hasher.finalize();
    if bytes_equal(digest.as_slice(), expected.as_slice()) {
        Ok(())
    } else {
        Err(BatchTransferError::Integrity)
    }
}

/// A sent file is still what was offered: nothing follows its declared
/// bytes, and those bytes hash to the declared digest; otherwise the source
/// changed under the transfer.
pub fn check_sent_file(hasher: ContentHasher, expected: &[u8; 32], trailing: bool) -> (r: Result<
    (),
    BatchTransferError,
>)
    ensures
        r is Ok <==> !trailing && digest32(absorbed(hasher)) == expected@,
        r matches Err(e) ==> e == BatchTransferError::SourceChanged,
{
    let digest = hasher.finalize();
    if !trailing && bytes_equal(digest.as_slice(), expected.as_slice()) {
        Ok(())
    } else {
        Err(BatchTransferError::SourceChanged)
    }
}

/// The length of the next chunk of a file: the rest of the file, at most
/// one chunk.
pub fn next_chunk_length(file_size: u64, transferred: u64, chunk_size: u32) -> (r: u64)
    requires
        transferred < file_size,
    ensures
        r == if file_size - transferred < chunk_size {
            file_size - transferred
        } else {
            chunk_size as int
        },
{
    let rest = file_size - transferred;
    if rest < chunk_size as u64 {
        rest
    } else {
        chunk_size as u64
    }
}

/// The index after `chunk_index`; a file cannot have more chunks than a
/// `u32` counts.
pub fn following_chunk_index(chunk_index: u32) -> (r: Result<u32, BatchTransferError>)
    ensures
        chunk_index < u32::MAX ==> r == Ok::<u32, BatchTransferError>((chunk_index + 1) as u32),
        chunk_index == u32::MAX ==> r == Err::<u32, BatchTransferError>(
            BatchTransferError::ProtocolState,
        ),
{
    if chunk_index < u32::MAX {
        Ok(chunk_index + 1)
    } else {
        Err(BatchTransferError::ProtocolState)
    }
}

pub fn checkpoint_due(checkpointed: u64, transferred: u64, file_complete: bool) -> (r: bool)
    ensures
        r == spec_checkpoint_due(checkpointed, transferred, file_complete),
{
    file_complete || transferred.saturating_sub(checkpointed) >= RESUME_CHECKPOINT_BYTES
}

/// Number of chunks of `chunk_size` bytes that cover `file_size` bytes.
pub open spec fn spec_chunk_count(file_size: u64, chunk_size: u32) -> Result<u32, BatchTransferError> {
    if chunk_size == 0 {
        Err(BatchTransferError::ProtocolState)
    } else {
        let count = (file_size + chunk_size - 1) / (chunk_size as int);
        if count > u32::MAX {
            Err(BatchTransferError::ProtocolState)
        } else {
            Ok(count as u32)
        }
    }
}

pub fn chunk_count(file_size: u64, chunk_size: u32) -> (r: Result<u32, BatchTransferError>)
    ensures
        r == spec_chunk_count(file_size, chunk_size),
{
    if chunk_size == 0 {
        return Err(BatchTransferError::ProtocolState);
    }
    let c = chunk_size as u64;
    assert(file_size % c != 0 ==> file_size / c < u64::MAX) by (nonlinear_arith)
        requires
            c >= 1,
    {
        if file_size % c != 0 {
            assert(c >= 2);
        }
    }
    let count = file_size / c + if file_size % c == 0 {
        0
    } else {
        1
    };
    proof {
        let fs = file_size as int;
        let ci = c as int;
        assert((fs + ci - 1) / ci == fs / ci + (if fs % ci == 0 {
            0int
        } else {
            1int
        })) by (nonlinear_arith)
            requires
                ci > 0,
                fs >= 0,
        ;
    }
    if count > u32::MAX as u64 {
        return Err(BatchTransferError::ProtocolState);
    }
    Ok(count as u32)
}

/// Why a resume position cannot continue a file, if it cannot.
pub open spec fn position_error(file_size: u64, chunk_size: u32, next_chunk: u32) -> Option<
    BatchTransferError,
> {
    match spec_chunk_count(file_size, chunk_size) {
        Err(e) => Some(e),
        Ok(count) => if next_chunk > count {
            Some(BatchTransferError::ResumeMismatch)
        } else {
            None
        },
    }
}

pub fn validate_resume_position(file_size: u64, chunk_size: u32, next_chunk: u32) -> (r: Result<
    (),
    BatchTransferError,
>)
    ensures
        match position_error(file_size, chunk_size, next_chunk) {
            Some(e) => r == Err::<(), BatchTransferError>(e),
            None => r is Ok,
        },
{
    let count = match chunk_count(file_size, chunk_size) {
        Ok(c) => c,
        Err(e) => return Err(e),
    };
    if next_chunk > count {
        return Err(BatchTransferError::ResumeMismatch);
    }
    Ok(())
}

/// Bytes of a file that a resume position says are durably received.
pub open spec fn spec_durable_prefix(file_size: u64, chunk_size: u32, next_chunk: u32) -> int {
    let product = next_chunk * chunk_size;
    if product < file_size {
        product
    } else {
        file_size as int
    }
}

pub fn durable_prefix_length(file_size: u64, chunk_size: u32, next_chunk: u32) -> (r: Result<
    u64,
    BatchTransferError,
>)
    ensures
        match position_error(file_size, chunk_size, next_chunk) {
            Some(e) => r == Err::<u64, BatchTransferError>(e),
            None => r == Ok::<u64, BatchTransferError>(
                spec_durable_prefix(file_size, chunk_size, next_chunk) as u64,
            ),
        },
{
    match validate_resume_position(file_size, chunk_size, next_chunk) {
        Ok(()) => {},
        Err(e) => return Err(e),
    }
    assert((next_chunk as int) * (chunk_size as int) <= (u32::MAX as int) * (u32::MAX as int))
        by (nonlinear_arith)
        requires
            next_chunk <= u32::MAX,
            chunk_size <= u32::MAX,
    ;
    let product = (next_chunk as u64) * (chunk_size as u64);
    Ok(
        if product < file_size {
            product
        } else {
            file_size
        },
    )
}

/// The first resume position that does not fit its manifest file.
pub open spec fn positions_error(
    sizes: Seq<u64>,
    chunk_size: u32,
    positions: Seq<ResumePosition>,
) -> Option<BatchTransferError>
    decreases positions.len(),
{
    if positions.len() == 0 {
        None
    } else {
        let prev = positions_error(sizes, chunk_size, positions.drop_last());
        if prev is Some {
            prev
        } else {
            let i = positions.len() - 1;
            if positions.last().file_index != i {
                Some(BatchTransferError::ResumeMismatch)
            } else {
                position_error(sizes[i], chunk_size, positions.last().next_chunk_index)
            }
        }
    }
}

pub open spec fn file_sizes(m: ManifestView) -> Seq<u64> {
    Seq::new(m.files.len(), |i: int| m.files[i].size)
}

/// Checks a peer's resume positions: one per file, in file order, none
/// past the end of its file.
pub fn validate_positions(manifest: &TransferManifest, positions: &[ResumePosition]) -> (r: Result<
    (),
    BatchTransferError,
>)
    ensures
        positions@.len() != manifest.files@.len() ==> r == Err::<(), BatchTransferError>(
            BatchTransferError::ResumeMismatch,
        ),
        positions@.len() == manifest.files@.len() ==> match positions_error(
            file_sizes(manifest@),
            manifest.chunk_size,
            positions@,
        ) {
            Some(e) => r == Err::<(), BatchTransferError>(e),
            None => r is Ok,
        },
{
    if positions.len() != manifest.files.len() {
        return Err(BatchTransferError::ResumeMismatch);
    }
    let ghost sizes = file_sizes(manifest@);
    let mut i: usize = 0;
    while i < positions.len()
        invariant
            i <= positions@.len(),
            positions@.len() == manifest.files@.len(),
            sizes == file_sizes(manifest@),
            positions_error(sizes, manifest.chunk_size, positions@.subrange(0, i as int)) is None,
        decreases positions@.len() - i,
    {
        let ghost prefix = positions@.subrange(0, i + 1);
        proof {
            assert(prefix.drop_last() =~= positions@.subrange(0, i as int));
            assert(sizes[i as int] == manifest.files@[i as int].file_size);
        }
        if positions[i].file_index as usize != i {
            proof {
                lemma_positions_error_extends(sizes, manifest.chunk_size, positions@, i as int + 1);
            }
            return Err(BatchTransferError::ResumeMismatch);
        }
        match validate_resume_position(
            manifest.files[i].file_size,
            manifest.chunk_size,
            positions[i].next_chunk_index,
        ) {
            Ok(()) => {},
            Err(e) => {
                proof {
                    lemma_positions_error_extends(sizes, manifest.chunk_size, positions@, i as int + 1);
                }
                return Err(e);
            },
        }
        i = i + 1;
    }
    proof {
        assert(positions@.subrange(0, i as int) =~= positions@);
    }
    Ok(())
}

/// An error in a prefix is the error of the whole sequence.
proof fn lemma_positions_error_extends(
    sizes: Seq<u64>,
    chunk_size: u32,
    positions: Seq<ResumePosition>,
    k: int,
)
    requires
        0 <= k <= positions.len(),
        positions_error(sizes, chunk_size, positions.subrange(0, k)) is Some,
    ensures
        positions_error(sizes, chunk_size, positions) == positions_error(
            sizes,
            chunk_size,
            positions.subrange(0, k),
        ),
    decreases positions.len() - k,
{
    if k < positions.len() {
        assert(positions.subrange(0, k + 1).drop_last() =~= positions.subrange(0, k));
        lemma_positions_error_extends(sizes, chunk_size, positions, k + 1);
    } else {
        assert(positions.subrange(0, k) =~= positions);
    }
}

/// `Halo Resume Chunk Chain v1`
pub open spec fn chain_label() -> Seq<u8> {
    seq![
        72u8, 97u8, 108u8, 111u8, 32u8, 82u8, 101u8, 115u8, 117u8, 109u8, 101u8, 32u8, 67u8, 104u8,
        117u8, 110u8, 107u8, 32u8, 67u8, 104u8, 97u8, 105u8, 110u8, 32u8, 118u8, 49u8,
    ]
}

/// `Halo Resume State v1`
pub open spec fn resume_label() -> Seq<u8> {
    seq![
        72u8, 97u8, 108u8, 111u8, 32u8, 82u8, 101u8, 115u8, 117u8, 109u8, 101u8, 32u8, 83u8, 116u8,
        97u8, 116u8, 101u8, 32u8, 118u8, 49u8,
    ]
}

/// `Halo Sender Job v1`
pub open spec fn send_job_label() -> Seq<u8> {
    seq![
        72u8, 97u8, 108u8, 111u8, 32u8, 83u8, 101u8, 110u8, 100u8, 101u8, 114u8, 32u8, 74u8, 111u8,
        98u8, 32u8, 118u8, 49u8,
    ]
}

/// The next link of a file's chunk chain.
pub open spec fn spec_next_chain(
    previous: Seq<u8>,
    file_index: u16,
    chunk_index: u32,
    chunk_digest: Seq<u8>,
) -> Seq<u8> {
    digest32(chain_label() + previous + be16(file_index) + be32(chunk_index) + chunk_digest)
}

/// Extends a file's chunk chain by one chunk digest; the file index must
/// fit in 16 bits.
pub fn next_chain(
    previous: [u8; 32],
    file_index: usize,
    chunk_index: u32,
    chunk_digest: [u8; 32],
) -> (r: Result<[u8; 32], BatchTransferError>)
    ensures
        file_index > u16::MAX ==> r == Err::<[u8; 32], _>(BatchTransferError::ProtocolState),
        file_index <= u16::MAX ==> (r matches Ok(c) && c@ == spec_next_chain(
            previous@,
            file_index as u16,
            chunk_index,
            chunk_digest@,
        )),
{
    if file_index > u16::MAX as usize {
        return Err(BatchTransferError::ProtocolState);
    }
    let label: [u8; 26] = [
        72u8, 97u8, 108u8, 111u8, 32u8, 82u8, 101u8, 115u8, 117u8, 109u8, 101u8, 32u8, 67u8, 104u8,
        117u8, 110u8, 107u8, 32u8, 67u8, 104u8, 97u8, 105u8, 110u8, 32u8, 118u8, 49u8,
    ];
    assert(label@ =~= chain_label());
    let mut input: Vec<u8> = Vec::new();
    push_all(&mut input, label.as_slice());
    push_all(&mut input, previous.as_slice());
    push_be16(&mut input, file_index as u16);
    push_be32(&mut input, chunk_index);
    push_all(&mut input, chunk_digest.as_slice());
    Ok(sha256_digest(input.as_slice()))
}

/// The checksum that closes a resume-state record.
pub open spec fn resume_checksum_of(body: Seq<u8>) -> Seq<u8> {
    digest32(resume_label() + body)
}

pub fn resume_checksum(bytes: &[u8]) -> (r: [u8; 32])
    ensures
        r@ == resume_checksum_of(bytes@),
{
    let label: [u8; 20] = [
        72u8, 97u8, 108u8, 111u8, 32u8, 82u8, 101u8, 115u8, 117u8, 109u8, 101u8, 32u8, 83u8, 116u8,
        97u8, 116u8, 101u8, 32u8, 118u8, 49u8,
    ];
    assert(label@ =~= resume_label());
    let mut input: Vec<u8> = Vec::new();
    push_all(&mut input, label.as_slice());
    push_all(&mut input, bytes);
    sha256_digest(input.as_slice())
}

/// The checksum that closes a sender job record.
pub open spec fn send_job_checksum_of(body: Seq<u8>) -> Seq<u8> {
    digest32(send_job_label() + body)
}

pub fn send_job_checksum(bytes: &[u8]) -> (r: [u8; 32])
    ensures
        r@ == send_job_checksum_of(bytes@),
{
    let label: [u8; 18] = [
        72u8, 97u8, 108u8, 111u8, 32u8, 83u8, 101u8, 110u8, 100u8, 101u8, 114u8, 32u8, 74u8, 111u8,
        98u8, 32u8, 118u8, 49u8,
    ];
    assert(label@ =~= send_job_label());
    let mut input: Vec<u8> = Vec::new();
    push_all(&mut input, label.as_slice());
    push_all(&mut input, bytes);
    sha256_digest(input.as_slice())
}

/// What a receiver remembers per file: the next chunk it needs and the
/// digest chain over the chunks it already holds.
#[derive(Clone, Debug, PartialEq, Eq)]
pub struct ResumeState {
    pub next_chunks: Vec<u32>,
    pub chains: Vec<[u8; 32]>,
}

/// `HRS1`
pub open spec fn resume_magic() -> Seq<u8> {
    seq![0x48u8, 0x52u8, 0x53u8, 0x31u8]
}

/// The per-file entries of a resume record.
pub open spec fn resume_entries(next: Seq<u32>, chains: Seq<[u8; 32]>) -> Seq<u8>
    decreases next.len(),
{
    if next.len() == 0 {
        Seq::empty()
    } else {
        resume_entries(next.drop_last(), chains.subrange(0, next.len() - 1)) + be32(next.last())
            + chains[next.len() - 1]@
    }
}

/// A resume record before its checksum.
pub open spec fn resume_body(
    peer_id: Seq<u8>,
    m: ManifestView,
    next: Seq<u32>,
    chains: Seq<[u8; 32]>,
) -> Seq<u8> {
    resume_magic() + be16(RESUME_VERSION) + peer_id + m.transfer_id + manifest_digest(m) + be32(
        m.chunk_size,
    ) + seq![next.len() as u8, 0u8, 0u8, 0u8] + resume_entries(next, chains)
}

/// A whole resume record: body then checksum.
pub open spec fn resume_record(
    peer_id: Seq<u8>,
    m: ManifestView,
    next: Seq<u32>,
    chains: Seq<[u8; 32]>,
) -> Seq<u8> {
    resume_body(peer_id, m, next, chains) + resume_checksum_of(resume_body(peer_id, m, next, chains))
}

proof fn lemma_resume_entries_len(next: Seq<u32>, chains: Seq<[u8; 32]>)
    requires
        chains.len() >= next.len(),
    ensures
        resume_entries(next, chains).len() == RESUME_FILE_LEN * next.len(),
    decreases next.len(),
{
    if next.len() > 0 {
        lemma_resume_entries_len(next.drop_last(), chains.subrange(0, next.len() - 1));
    }
}

/// Entry `i` of the record sits at offset `36 * i` of the entries.
proof fn lemma_resume_entries_at(next: Seq<u32>, chains: Seq<[u8; 32]>, i: int)
    requires
        chains.len() >= next.len(),
        0 <= i < next.len(),
    ensures
        resume_entries(next, chains).subrange(RESUME_FILE_LEN * i, RESUME_FILE_LEN * i + 4) == be32(
            next[i],
        ),
        resume_entries(next, chains).subrange(RESUME_FILE_LEN * i + 4, RESUME_FILE_LEN * i + 36)
            == chains[i]@,
    decreases next.len(),
{
    let n = next.len();
    let head = resume_entries(next.drop_last(), chains.subrange(0, n - 1));
    lemma_resume_entries_len(next.drop_last(), chains.subrange(0, n - 1));
    let e = resume_entries(next, chains);
    assert(e == head + be32(next.last()) + chains[n - 1]@);
    if i < n - 1 {
        lemma_resume_entries_at(next.drop_last(), chains.subrange(0, n - 1), i);
        assert(e.subrange(RESUME_FILE_LEN * i, RESUME_FILE_LEN * i + 4) =~= head.subrange(
            RESUME_FILE_LEN * i,
            RESUME_FILE_LEN * i + 4,
        ));
        assert(e.subrange(RESUME_FILE_LEN * i + 4, RESUME_FILE_LEN * i + 36) =~= head.subrange(
            RESUME_FILE_LEN * i + 4,
            RESUME_FILE_LEN * i + 36,
        ));
    } else {
        assert(e.subrange(RESUME_FILE_LEN * i, RESUME_FILE_LEN * i + 4) =~= be32(next.last()));
        assert(e.subrange(RESUME_FILE_LEN * i + 4, RESUME_FILE_LEN * i + 36) =~= chains[n - 1]@);
    }
}

pub open spec fn resume_shape_ok(m: ManifestView, s: ResumeState) -> bool {
    s.next_chunks@.len() == m.files.len() && s.chains@.len() == m.files.len()
        && s.next_chunks@.len() <= MAX_BATCH_FILES
}

/// Writes a receiver's resume record for one peer and manifest.
pub fn encode_resume_state(peer_id: [u8; 32], manifest: &TransferManifest, state: &ResumeState) -> (r:
    Result<Vec<u8>, BatchTransferError>)
    ensures
        r is Ok <==> resume_shape_ok(manifest@, *state),
        r matches Err(e) ==> e == BatchTransferError::ResumeState,
        r matches Ok(bytes) ==> bytes@ == resume_record(
            peer_id@,
            manifest@,
            state.next_chunks@,
            state.chains@,
        ),
{
    if state.next_chunks.len() != manifest.files.len() || state.chains.len()
        != manifest.files.len() || state.next_chunks.len() > MAX_BATCH_FILES {
        return Err(BatchTransferError::ResumeState);
    }
    let magic: [u8; 4] = [0x48u8, 0x52u8, 0x53u8, 0x31u8];
    assert(magic@ =~= resume_magic());
    let mut bytes: Vec<u8> = Vec::new();
    push_all(&mut bytes, magic.as_slice());
    push_be16(&mut bytes, RESUME_VERSION);
    push_all(&mut bytes, peer_id.as_slice());
    push_all(&mut bytes, manifest.transfer_id.as_slice());
    let digest = manifest.digest();
    push_all(&mut bytes, digest.as_slice());
    push_be32(&mut bytes, manifest.chunk_size);
    bytes.push(state.next_chunks.len() as u8);
    bytes.push(0u8);
    bytes.push(0u8);
    bytes.push(0u8);
    let ghost head = bytes@;
    let ghost next = state.next_chunks@;
    let ghost chains = state.chains@;
    let mut i: usize = 0;
    while i < state.next_chunks.len()
        invariant
            i <= next.len(),
            next == state.next_chunks@,
            chains == state.chains@,
            chains.len() == next.len(),
            bytes@ == head + resume_entries(next.subrange(0, i as int), chains.subrange(0, i as int)),
        decreases next.len() - i,
    {
        proof {
            let p = next.subrange(0, i + 1);
            let c = chains.subrange(0, i + 1);
            assert(p.drop_last() =~= next.subrange(0, i as int));
            assert(c.subrange(0, i as int) =~= chains.subrange(0, i as int));
        }
        push_be32(&mut bytes, state.next_chunks[i]);
        push_all(&mut bytes, state.chains[i].as_slice());
        i = i + 1;
        proof {
            assert(bytes@ =~= head + resume_entries(
                next.subrange(0, i as int),
                chains.subrange(0, i as int),
            ));
        }
    }
    proof {
        assert(next.subrange(0, i as int) =~= next);
        assert(chains.subrange(0, i as int) =~= chains);
        assert(bytes@ =~= resume_body(peer_id@, manifest@, next, chains));
    }
    let checksum = resume_checksum(bytes.as_slice());
    push_all(&mut bytes, checksum.as_slice());
    Ok(bytes)
}

/// Why a stored resume record cannot be used for this peer and manifest.
/// A record for another peer, transfer, manifest or chunk size, or with
/// another file count, is a mismatch; a malformed record is bad state.
pub open spec fn resume_record_error(b: Seq<u8>, peer_id: Seq<u8>, m: ManifestView) -> Option<
    BatchTransferError,
> {
    if b.len() < RESUME_FIXED_LEN + RESUME_CHECKSUM_LEN || b.subrange(0, 4) != resume_magic()
        || read_be16(b, 4) != RESUME_VERSION || b.subrange(6, 38) != peer_id || b.subrange(38, 54)
        != m.transfer_id || b.subrange(54, 86) != manifest_digest(m) || read_be32(b, 86)
        != m.chunk_size || b.subrange(91, 94) != seq![0u8, 0u8, 0u8] {
        Some(BatchTransferError::ResumeMismatch)
    } else if b[90] != m.files.len() || b[90] > MAX_BATCH_FILES {
        Some(BatchTransferError::ResumeMismatch)
    } else if b.len() != RESUME_FIXED_LEN + RESUME_FILE_LEN * b[90] + RESUME_CHECKSUM_LEN {
        Some(BatchTransferError::ResumeState)
    } else if b.subrange(b.len() - 32, b.len() as int) != resume_checksum_of(
        b.subrange(0, b.len() - 32),
    ) {
        Some(BatchTransferError::ResumeState)
    } else {
        positions_error(
            file_sizes(m),
            m.chunk_size,
            Seq::new(
                b[90] as nat,
                |i: int|
                    ResumePosition {
                        file_index: i as u16,
                        next_chunk_index: read_be32(b, RESUME_FIXED_LEN + RESUME_FILE_LEN * i),
                    },
            ),
        )
    }
}

/// The next chunk index stored for file `i`.
pub open spec fn stored_next_chunk(b: Seq<u8>, i: int) -> u32 {
    read_be32(b, RESUME_FIXED_LEN + RESUME_FILE_LEN * i)
}

/// The chain digest stored for file `i`.
pub open spec fn stored_chain(b: Seq<u8>, i: int) -> Seq<u8> {
    b.subrange(RESUME_FIXED_LEN + RESUME_FILE_LEN * i + 4, RESUME_FIXED_LEN + RESUME_FILE_LEN * i + 36)
}

/// Reads a resume record back, refusing one written for another peer or
/// manifest and one whose checksum or positions do not hold.
#[verifier::spinoff_prover]
#[verifier::rlimit(40)]
pub fn decode_resume_state(bytes: &[u8], peer_id: [u8; 32], manifest: &TransferManifest) -> (r:
    Result<ResumeState, BatchTransferError>)
    ensures
        r is Err <==> resume_record_error(bytes@, peer_id@, manifest@) is Some,
        r matches Err(e) ==> resume_record_error(bytes@, peer_id@, manifest@) == Some(e),
        r matches Ok(s) ==> s.next_chunks@.len() == manifest.files@.len(),
        r matches Ok(s) ==> s.chains@.len() == manifest.files@.len(),
        r matches Ok(s) ==> (forall|i: int|
            0 <= i < s.next_chunks@.len() ==> #[trigger] s.next_chunks@[i] == stored_next_chunk(
                bytes@,
                i,
            )),
        r matches Ok(s) ==> (forall|i: int|
            0 <= i < s.chains@.len() ==> #[trigger] s.chains@[i]@ == stored_chain(bytes@, i)),
{
    let ghost b = bytes@;
    let magic: [u8; 4] = [0x48u8, 0x52u8, 0x53u8, 0x31u8];
    assert(magic@ =~= resume_magic());
    let zeros: [u8; 3] = [0u8, 0u8, 0u8];
    assert(zeros@ =~= seq![0u8, 0u8, 0u8]);
    if bytes.len() < RESUME_FIXED_LEN + RESUME_CHECKSUM_LEN {
        return Err(BatchTransferError::ResumeMismatch);
    }
    let digest = manifest.digest();
    if !bytes_equal(&bytes[0..4], magic.as_slice()) || read_u16(bytes, 4) != RESUME_VERSION
        || !bytes_equal(&bytes[6..38], peer_id.as_slice()) || !bytes_equal(
        &bytes[38..54],
        manifest.transfer_id.as_slice(),
    ) || !bytes_equal(&bytes[54..86], digest.as_slice()) || read_u32(bytes, 86)
        != manifest.chunk_size || !bytes_equal(&bytes[91..94], zeros.as_slice()) {
        return Err(BatchTransferError::ResumeMismatch);
    }
    let file_count = bytes[90] as usize;
    if file_count != manifest.files.len() || file_count > MAX_BATCH_FILES {
        return Err(BatchTransferError::ResumeMismatch);
    }
    let expected = RESUME_FIXED_LEN + file_count * RESUME_FILE_LEN + RESUME_CHECKSUM_LEN;
    if bytes.len() != expected {
        return Err(BatchTransferError::ResumeState);
    }
    let checksum_offset = bytes.len() - RESUME_CHECKSUM_LEN;
    let checksum = resume_checksum(&bytes[0..checksum_offset]);
    if !bytes_equal(&bytes[checksum_offset..bytes.len()], checksum.as_slice()) {
        return Err(BatchTransferError::ResumeState);
    }
    let ghost positions = Seq::new(
        b[90] as nat,
        |i: int|
            ResumePosition {
                file_index: i as u16,
                next_chunk_index: read_be32(b, RESUME_FIXED_LEN + RESUME_FILE_LEN * i),
            },
    );
    let ghost sizes = file_sizes(manifest@);
    assert(resume_record_error(b, peer_id@, manifest@) == positions_error(
        sizes,
        manifest.chunk_size,
        positions,
    ));
    let mut next_chunks: Vec<u32> = Vec::new();
    let mut chains: Vec<[u8; 32]> = Vec::new();
    let mut index: usize = 0;
    while index < file_count
        invariant
            index <= file_count,
            file_count == b[90],
            file_count == manifest.files@.len(),
            file_count <= MAX_BATCH_FILES,
            b == bytes@,
            b.len() == RESUME_FIXED_LEN + file_count * RESUME_FILE_LEN + RESUME_CHECKSUM_LEN,
            sizes == file_sizes(manifest@),
            positions.len() == file_count,
            positions == Seq::new(
                b[90] as nat,
                |i: int|
                    ResumePosition {
                        file_index: i as u16,
                        next_chunk_index: read_be32(b, RESUME_FIXED_LEN + RESUME_FILE_LEN * i),
                    },
            ),
            positions_error(sizes, manifest.chunk_size, positions.subrange(0, index as int))
                is None,
            resume_record_error(b, peer_id@, manifest@) == positions_error(
                sizes,
                manifest.chunk_size,
                positions,
            ),
            next_chunks@.len() == index,
            chains@.len() == index,
            forall|i: int| 0 <= i < index ==> #[trigger] next_chunks@[i] == stored_next_chunk(b, i),
            forall|i: int| 0 <= i < index ==> #[trigger] chains@[i]@ == stored_chain(b, i),
        decreases file_count - index,
    {
        let offset = RESUME_FIXED_LEN + index * RESUME_FILE_LEN;
        let next_chunk = read_u32(bytes, offset);
        proof {
            let p = positions.subrange(0, index + 1);
            assert(p.drop_last() =~= positions.subrange(0, index as int));
            assert(sizes[index as int] == manifest.files@[index as int].file_size);
            assert(positions[index as int].next_chunk_index == next_chunk);
            assert(positions[index as int].file_index == index as u16);
            assert(p.last() == positions[index as int]);
        }
        match validate_resume_position(
            manifest.files[index].file_size,
            manifest.chunk_size,
            next_chunk,
        ) {
            Ok(()) => {},
            Err(e) => {
                proof {
                    lemma_positions_error_extends(
                        sizes,
                        manifest.chunk_size,
                        positions,
                        index as int + 1,
                    );
                }
                return Err(e);
            },
        }
        let chain = read_array::<32>(bytes, offset + 4);
        proof {
            assert(chain@ == stored_chain(b, index as int));
            assert(next_chunk == stored_next_chunk(b, index as int));
        }
        next_chunks.push(next_chunk);
        chains.push(chain);
        index = index + 1;
    }
    proof {
        assert(positions.subrange(0, index as int) =~= positions);
    }
    let state = ResumeState { next_chunks, chains };
    proof {
        assert forall|i: int| 0 <= i < state.next_chunks@.len() implies #[trigger]
            state.next_chunks@[i] == stored_next_chunk(bytes@, i) by {
            assert(next_chunks@[i] == stored_next_chunk(b, i));
        }
        assert forall|i: int| 0 <= i < state.chains@.len() implies #[trigger] state.chains@[i]@
            == stored_chain(bytes@, i) by {
            assert(chains@[i]@ == stored_chain(b, i));
        }
    }
    Ok(state)
}

/// Entry `i` of a written record holds the state's entry `i`.
#[verifier::spinoff_prover]
proof fn lemma_resume_stored_entry(
    peer_id: Seq<u8>,
    m: ManifestView,
    next: Seq<u32>,
    chains: Seq<[u8; 32]>,
    i: int,
)
    requires
        peer_id.len() == 32,
        m.transfer_id.len() == TRANSFER_ID_LEN,
        next.len() == chains.len(),
        0 <= i < next.len(),
    ensures
        stored_next_chunk(resume_record(peer_id, m, next, chains), i) == next[i],
        stored_chain(resume_record(peer_id, m, next, chains), i) == chains[i]@,
{
    let body = resume_body(peer_id, m, next, chains);
    let b = resume_record(peer_id, m, next, chains);
    let entries = resume_entries(next, chains);
    lemma_resume_entries_len(next, chains);
    lemma_resume_entries_at(next, chains, i);
    assert(manifest_digest(m).len() == 32);
    let head = resume_magic() + be16(RESUME_VERSION) + peer_id + m.transfer_id + manifest_digest(m)
        + be32(m.chunk_size) + seq![next.len() as u8, 0u8, 0u8, 0u8];
    assert(head.len() == RESUME_FIXED_LEN);
    assert(body == head + entries);
    let o = RESUME_FIXED_LEN + RESUME_FILE_LEN * i;
    assert(b.subrange(o, o + 4) =~= entries.subrange(RESUME_FILE_LEN * i, RESUME_FILE_LEN * i + 4));
    assert(b.subrange(o + 4, o + 36) =~= entries.subrange(
        RESUME_FILE_LEN * i + 4,
        RESUME_FILE_LEN * i + 36,
    ));
    lemma_be32(next[i], b, o);
}

/// Reading back a record written for the same peer and manifest gives the
/// state that was written, when its positions fit the manifest.
#[verifier::spinoff_prover]
pub proof fn lemma_resume_round_trip(
    peer_id: Seq<u8>,
    m: ManifestView,
    next: Seq<u32>,
    chains: Seq<[u8; 32]>,
)
    requires
        peer_id.len() == 32,
        m.transfer_id.len() == TRANSFER_ID_LEN,
        next.len() == m.files.len(),
        chains.len() == m.files.len(),
        next.len() <= MAX_BATCH_FILES,
        positions_error(
            file_sizes(m),
            m.chunk_size,
            Seq::new(
                next.len(),
                |i: int| ResumePosition { file_index: i as u16, next_chunk_index: next[i] },
            ),
        ) is None,
    ensures
        resume_record_error(resume_record(peer_id, m, next, chains), peer_id, m) is None,
        forall|i: int|
            0 <= i < next.len() ==> #[trigger] stored_next_chunk(
                resume_record(peer_id, m, next, chains),
                i,
            ) == next[i] && stored_chain(resume_record(peer_id, m, next, chains), i)
                == chains[i]@,
{
    let body = resume_body(peer_id, m, next, chains);
    let b = resume_record(peer_id, m, next, chains);
    let entries = resume_entries(next, chains);
    lemma_resume_entries_len(next, chains);
    assert(manifest_digest(m).len() == 32);
    assert(body.len() == RESUME_FIXED_LEN + RESUME_FILE_LEN * next.len());
    assert(b.len() == body.len() + 32);
    assert(b.subrange(0, 4) =~= resume_magic());
    assert(b.subrange(4, 6) =~= be16(RESUME_VERSION));
    lemma_be16(RESUME_VERSION, b, 4);
    assert(b.subrange(6, 38) =~= peer_id);
    assert(b.subrange(38, 54) =~= m.transfer_id);
    assert(b.subrange(54, 86) =~= manifest_digest(m));
    assert(b.subrange(86, 90) =~= be32(m.chunk_size));
    lemma_be32(m.chunk_size, b, 86);
    assert(b[90] == next.len() as u8);
    assert(b.subrange(91, 94) =~= seq![0u8, 0u8, 0u8]);
    assert(b.subrange(0, b.len() - 32) =~= body);
    assert(b.subrange(b.len() - 32, b.len() as int) =~= resume_checksum_of(body));
    assert forall|i: int| 0 <= i < next.len() implies #[trigger] stored_next_chunk(b, i) == next[i]
        && stored_chain(b, i) == chains[i]@ by {
        lemma_resume_stored_entry(peer_id, m, next, chains, i);
    }
    let stored = Seq::new(
        b[90] as nat,
        |i: int|
            ResumePosition {
                file_index: i as u16,
                next_chunk_index: read_be32(b, RESUME_FIXED_LEN + RESUME_FILE_LEN * i),
            },
    );
    let written = Seq::new(
        next.len(),
        |i: int| ResumePosition { file_index: i as u16, next_chunk_index: next[i] },
    );
    assert forall|i: int| 0 <= i < next.len() implies stored[i] == written[i] by {
        assert(stored_next_chunk(b, i) == next[i]);
    }
    assert(stored =~= written);
}

/// A record written for one peer is refused for any other peer.
pub proof fn lemma_resume_other_peer_refused(
    peer_id: Seq<u8>,
    other: Seq<u8>,
    m: ManifestView,
    next: Seq<u32>,
    chains: Seq<[u8; 32]>,
)
    requires
        peer_id.len() == 32,
        other != peer_id,
        m.transfer_id.len() == TRANSFER_ID_LEN,
        next.len() == m.files.len(),
        chains.len() == m.files.len(),
        next.len() <= MAX_BATCH_FILES,
    ensures
        resume_record_error(resume_record(peer_id, m, next, chains), other, m) == Some(
            BatchTransferError::ResumeMismatch,
        ),
{
    let b = resume_record(peer_id, m, next, chains);
    lemma_resume_entries_len(next, chains);
    assert(manifest_digest(m).len() == 32);
    assert(b.subrange(6, 38) =~= peer_id);
}

} // verus!
