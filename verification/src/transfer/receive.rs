//! What a receiver decides while a batch streams in: where each file
//! resumes, whether a chunk record is the one expected, how the resume
//! state moves on, and whether every file arrived whole.

use vstd::prelude::*;

use crate::be_bytes::bytes_equal;
use crate::crypto::digest::{digest32, sha256_digest};
use crate::protocol::transfer::{BatchChunkRef, ResumePosition, TransferManifest};
use crate::transfer::batch::{
    chunk_count, next_chain, spec_chunk_count, spec_next_chain, BatchTransferError, ResumeState,
};

verus! {

/// The resume state of a batch nothing of which arrived yet.
pub fn fresh_resume_state(file_count: usize) -> (r: ResumeState)
    ensures
        r.next_chunks@.len() == file_count,
        r.chains@.len() == file_count,
        forall|i: int| 0 <= i < file_count ==> #[trigger] r.next_chunks@[i] == 0,
        forall|i: int| 0 <= i < file_count ==> (#[trigger] r.chains@[i])@ == Seq::new(32, |j: int| 0u8),
{
    let mut next_chunks: Vec<u32> = Vec::new();
    let mut chains: Vec<[u8; 32]> = Vec::new();
    let mut i: usize = 0;
    while i < file_count
        invariant
            i <= file_count,
            next_chunks@.len() == i,
            chains@.len() == i,
            forall|k: int| 0 <= k < i ==> #[trigger] next_chunks@[k] == 0,
            forall|k: int| 0 <= k < i ==> (#[trigger] chains@[k])@ == Seq::new(32, |j: int| 0u8),
        decreases file_count - i,
    {
        next_chunks.push(0);
        let zero = [0u8; 32];
        assert(zero@ =~= Seq::new(32, |j: int| 0u8));
        chains.push(zero);
        i = i + 1;
    }
    ResumeState { next_chunks, chains }
}

/// The resume positions a receiver asks for: each file's next chunk, by
/// file index.
pub fn resume_positions_of(state: &ResumeState) -> (r: Result<Vec<ResumePosition>, BatchTransferError>)
    ensures
        state.next_chunks@.len() > u16::MAX + 1 ==> r == Err::<Vec<ResumePosition>, BatchTransferError>(
            BatchTransferError::ProtocolState,
        ),
        state.next_chunks@.len() <= u16::MAX + 1 ==> (r matches Ok(v) && v@.len()
            == state.next_chunks@.len() && forall|i: int|
            0 <= i < v@.len() ==> (#[trigger] v@[i]).file_index == i && v@[i].next_chunk_index
                == state.next_chunks@[i]),
{
    let mut out: Vec<ResumePosition> = Vec::new();
    let mut i: usize = 0;
    while i < state.next_chunks.len()
        invariant
            i <= state.next_chunks@.len(),
            i <= u16::MAX + 1,
            out@.len() == i,
            forall|k: int|
                0 <= k < i ==> (#[trigger] out@[k]).file_index == k && out@[k].next_chunk_index
                    == state.next_chunks@[k],
        decreases state.next_chunks@.len() - i,
    {
        if i > u16::MAX as usize {
            return Err(BatchTransferError::ProtocolState);
        }
        out.push(ResumePosition { file_index: i as u16, next_chunk_index: state.next_chunks[i] });
        i = i + 1;
    }
    Ok(out)
}

/// The length of the next chunk of a file: a whole chunk, or what is left.
pub open spec fn spec_chunk_length(file_size: u64, transferred: u64, chunk_size: u32) -> int {
    if file_size - transferred < chunk_size {
        file_size - transferred
    } else {
        chunk_size as int
    }
}

/// A received chunk is the expected one: same transfer, this file, the
/// next chunk index, the expected length, and a digest that matches its
/// payload.
pub open spec fn chunk_expected(
    manifest: TransferManifest,
    state: ResumeState,
    index: int,
    transferred: u64,
    chunk: BatchChunkRef,
) -> bool {
    &&& chunk.transfer_id@ == manifest.transfer_id@
    &&& chunk.file_index == index
    &&& chunk.chunk_index == state.next_chunks@[index]
    &&& chunk.payload@.len() == spec_chunk_length(
        manifest.files@[index].file_size,
        transferred,
        manifest.chunk_size,
    )
    &&& digest32(chunk.payload@) == chunk.chunk_digest@
}

/// Takes one received chunk of file `index` into the resume state. A chunk
/// that is not the expected one is an integrity failure and changes
/// nothing; otherwise the file's chain takes the chunk's digest, its next
/// chunk moves on, and the bytes received so far grow by the payload.
pub fn accept_chunk(
    manifest: &TransferManifest,
    state: &mut ResumeState,
    index: usize,
    transferred: u64,
    chunk: &BatchChunkRef,
) -> (r: Result<u64, BatchTransferError>)
    requires
        index < manifest.files@.len(),
        old(state).next_chunks@.len() == manifest.files@.len(),
        old(state).chains@.len() == manifest.files@.len(),
        transferred < manifest.files@[index as int].file_size,
    ensures
        final(state).next_chunks@.len() == old(state).next_chunks@.len(),
        final(state).chains@.len() == old(state).chains@.len(),
        !chunk_expected(*manifest, *old(state), index as int, transferred, *chunk) || old(
            state,
        ).next_chunks@[index as int] == u32::MAX ==> r == Err::<u64, BatchTransferError>(
            BatchTransferError::Integrity,
        ) && *final(state) == *old(state),
        chunk_expected(*manifest, *old(state), index as int, transferred, *chunk) && old(
            state,
        ).next_chunks@[index as int] < u32::MAX ==> {
            &&& r == Ok::<u64, BatchTransferError>((transferred + chunk.payload@.len()) as u64)
            &&& final(state).next_chunks@ == old(state).next_chunks@.update(
                index as int,
                (old(state).next_chunks@[index as int] + 1) as u32,
            )
            &&& final(state).chains@.len() == old(state).chains@.len()
            &&& final(state).chains@[index as int]@ == spec_next_chain(
                old(state).chains@[index as int]@,
                index as u16,
                chunk.chunk_index,
                chunk.chunk_digest@,
            )
            &&& forall|i: int|
                0 <= i < final(state).chains@.len() && i != index ==> #[trigger] final(state).chains@[i]
                    == old(state).chains@[i]
        },
{
    let file_size = manifest.files[index].file_size;
    let remaining = file_size - transferred;
    let expected_length: u64 = if remaining < manifest.chunk_size as u64 {
        remaining
    } else {
        manifest.chunk_size as u64
    };
    let digest = sha256_digest(chunk.payload);
    if !bytes_equal(chunk.transfer_id.as_slice(), manifest.transfer_id.as_slice())
        || chunk.file_index as usize != index || chunk.chunk_index != state.next_chunks[index]
        || chunk.payload.len() as u64 != expected_length || !bytes_equal(
        digest.as_slice(),
        chunk.chunk_digest.as_slice(),
    ) || state.next_chunks[index] == u32::MAX {
        return Err(BatchTransferError::Integrity);
    }
    let chain = match next_chain(state.chains[index], index, chunk.chunk_index, chunk.chunk_digest) {
        Ok(c) => c,
        Err(e) => return Err(e),
    };
    let next = state.next_chunks[index] + 1;
    state.next_chunks.set(index, next);
    state.chains.set(index, chain);
    Ok(transferred + expected_length)
}

/// The first file whose next chunk is not one past its last, if any.
pub open spec fn incomplete_file(manifest: TransferManifest, state: ResumeState, n: int) -> Option<
    BatchTransferError,
>
    decreases n,
{
    if n <= 0 {
        None
    } else {
        match incomplete_file(manifest, state, n - 1) {
            Some(e) => Some(e),
            None => match spec_chunk_count(manifest.files@[n - 1].file_size, manifest.chunk_size) {
                Err(e) => Some(e),
                Ok(count) => if state.next_chunks@[n - 1] != count {
                    Some(BatchTransferError::Integrity)
                } else {
                    None
                },
            },
        }
    }
}

/// Every file of the batch arrived: its next chunk is its chunk count.
pub fn check_complete(manifest: &TransferManifest, state: &ResumeState) -> (r: Result<(), BatchTransferError>)
    requires
        state.next_chunks@.len() == manifest.files@.len(),
    ensures
        match incomplete_file(*manifest, *state, manifest.files@.len() as int) {
            Some(e) => r == Err::<(), BatchTransferError>(e),
            None => r is Ok,
        },
{
    let mut i: usize = 0;
    while i < manifest.files.len()
        invariant
            i <= manifest.files@.len(),
            state.next_chunks@.len() == manifest.files@.len(),
            incomplete_file(*manifest, *state, i as int) is None,
        decreases manifest.files@.len() - i,
    {
        match chunk_count(manifest.files[i].file_size, manifest.chunk_size) {
            Err(e) => {
                proof {
                    lemma_incomplete_extends(*manifest, *state, i as int + 1, manifest.files@.len() as int);
                }
                return Err(e);
            },
            Ok(count) => {
                if state.next_chunks[i] != count {
                    proof {
                        lemma_incomplete_extends(*manifest, *state, i as int + 1, manifest.files@.len() as int);
                    }
                    return Err(BatchTransferError::Integrity);
                }
            },
        }
        i = i + 1;
    }
    Ok(())
}

proof fn lemma_incomplete_extends(manifest: TransferManifest, state: ResumeState, k: int, n: int)
    requires
        1 <= k <= n,
        incomplete_file(manifest, state, k) is Some,
    ensures
        incomplete_file(manifest, state, n) == incomplete_file(manifest, state, k),
    decreases n - k,
{
    if n > k {
        lemma_incomplete_extends(manifest, state, k, n - 1);
    }
}

} // verus!
