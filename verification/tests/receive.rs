use halo::crypto::digest::sha256_digest;
use halo::protocol::transfer::{BatchChunkRef, ManifestFile, ResumePosition, TransferManifest};
use halo::transfer::batch::{next_chain, BatchTransferError};
use halo::transfer::receive::{accept_chunk, check_complete, fresh_resume_state, resume_positions_of};

fn manifest() -> TransferManifest {
    TransferManifest::new(
        [0x33; 16],
        4,
        vec![
            ManifestFile::new(6, [0x61; 32], "a.bin".to_owned()).unwrap(),
            ManifestFile::new(3, [0x62; 32], "b.bin".to_owned()).unwrap(),
        ],
    )
    .unwrap()
}

fn chunk<'a>(file_index: u16, chunk_index: u32, payload: &'a [u8]) -> BatchChunkRef<'a> {
    BatchChunkRef {
        transfer_id: [0x33; 16],
        file_index,
        chunk_index,
        chunk_digest: sha256_digest(payload),
        payload,
    }
}

#[test]
fn fresh_state_resumes_every_file_from_the_start() {
    let state = fresh_resume_state(2);
    assert_eq!(state.next_chunks, vec![0, 0]);
    assert_eq!(state.chains, vec![[0; 32], [0; 32]]);
    assert_eq!(
        resume_positions_of(&state).unwrap(),
        vec![
            ResumePosition { file_index: 0, next_chunk_index: 0 },
            ResumePosition { file_index: 1, next_chunk_index: 0 },
        ]
    );
}

#[test]
fn expected_chunks_advance_the_resume_state() {
    let m = manifest();
    let mut state = fresh_resume_state(2);
    assert_eq!(accept_chunk(&m, &mut state, 0, 0, &chunk(0, 0, b"abcd")), Ok(4));
    assert_eq!(state.next_chunks, vec![1, 0]);
    assert_eq!(state.chains[0], next_chain([0; 32], 0, 0, sha256_digest(b"abcd")).unwrap());
    assert_eq!(accept_chunk(&m, &mut state, 0, 4, &chunk(0, 1, b"ef")), Ok(6));
    assert_eq!(check_complete(&m, &state), Err(BatchTransferError::Integrity));
    assert_eq!(accept_chunk(&m, &mut state, 1, 0, &chunk(1, 0, b"xyz")), Ok(3));
    assert_eq!(check_complete(&m, &state), Ok(()));
}

#[test]
fn unexpected_chunks_are_integrity_failures_and_change_nothing() {
    let m = manifest();
    let mut state = fresh_resume_state(2);
    let before = state.clone();
    let mut wrong_digest = chunk(0, 0, b"abcd");
    wrong_digest.chunk_digest[0] ^= 1;
    let mut wrong_transfer = chunk(0, 0, b"abcd");
    wrong_transfer.transfer_id = [0x34; 16];
    for bad in [
        wrong_digest,
        wrong_transfer,
        chunk(1, 0, b"abcd"),
        chunk(0, 1, b"abcd"),
        chunk(0, 0, b"abc"),
    ] {
        assert_eq!(accept_chunk(&m, &mut state, 0, 0, &bad), Err(BatchTransferError::Integrity));
        assert_eq!(state, before);
    }
}
