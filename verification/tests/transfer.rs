use halo::protocol::transfer::{
    ManifestFile, ResumePosition, TransferManifest, DEFAULT_CHUNK_SIZE,
};
use halo::crypto::digest::{sha256_digest, ContentHasher};
use halo::protocol::transfer::BatchChunk;
use halo::transfer::receive::{accept_chunk, fresh_resume_state};
use halo::transfer::batch::{
    check_received_file, check_sent_file, following_chunk_index, next_chunk_length,
    checkpoint_due, chunk_count, decode_resume_state, durable_prefix_length, encode_resume_state,
    next_chain, validate_positions, BatchTransferError, ResumeState, RESUME_CHECKPOINT_BYTES,
};
use halo::transfer::{validate_file_name, FileNameError};

#[test]
fn cross_platform_leaf_names_reject_traversal_and_device_files() {
    for invalid in [
        "",
        ".",
        "..",
        "../escape",
        "folder/file",
        "folder\\file",
        "CON",
        "con.txt",
        "LPT9.log",
        "trailing.",
        "trailing ",
        "bad:name",
        "bad\0name",
    ] {
        assert_eq!(
            validate_file_name(invalid),
            Err(FileNameError),
            "accepted {invalid:?}"
        );
    }
    for valid in [
        "photo.jpg",
        "报告 2026.pdf",
        "archive.tar.gz",
        "hello (1).txt",
    ] {
        assert!(validate_file_name(valid).is_ok(), "rejected {valid:?}");
    }
}

#[test]
fn leaf_names_have_a_byte_limit_and_device_number_rule() {
    assert!(validate_file_name(&"a".repeat(255)).is_ok());
    assert!(validate_file_name(&"a".repeat(256)).is_err());
    assert!(validate_file_name("COM0.txt").is_ok());
    assert!(validate_file_name("com1").is_err());
    assert!(validate_file_name("COM10").is_ok());
    assert!(validate_file_name("...").is_err());
    assert!(validate_file_name("a\u{85}b").is_err());
}

fn manifest() -> TransferManifest {
    TransferManifest::new(
        [0x51; 16],
        DEFAULT_CHUNK_SIZE,
        vec![ManifestFile::new(7, [0x61; 32], "file.txt".to_owned())
            .unwrap_or_else(|error| panic!("manifest file: {error:?}"))],
    )
    .unwrap_or_else(|error| panic!("manifest: {error:?}"))
}

#[test]
fn resume_state_rejects_peer_manifest_and_checksum_substitution() {
    let manifest = manifest();
    let state = ResumeState {
        next_chunks: vec![0],
        chains: vec![[0; 32]],
    };
    let encoded = encode_resume_state([0x71; 32], &manifest, &state)
        .unwrap_or_else(|error| panic!("encode state: {error:?}"));
    assert_eq!(
        decode_resume_state(&encoded, [0x72; 32], &manifest),
        Err(BatchTransferError::ResumeMismatch)
    );
    let mut tampered = encoded;
    let last = tampered.len() - 1;
    tampered[last] ^= 1;
    assert_eq!(
        decode_resume_state(&tampered, [0x71; 32], &manifest),
        Err(BatchTransferError::ResumeState)
    );
}

#[test]
fn resume_state_round_trips_and_bounds_positions() {
    let manifest = manifest();
    let state = ResumeState {
        next_chunks: vec![1],
        chains: vec![[0x42; 32]],
    };
    let encoded = encode_resume_state([0x71; 32], &manifest, &state)
        .unwrap_or_else(|error| panic!("encode state: {error:?}"));
    assert_eq!(encoded.len(), 94 + 36 + 32);
    assert_eq!(&encoded[..4], b"HRS1");
    assert_eq!(decode_resume_state(&encoded, [0x71; 32], &manifest), Ok(state));

    let beyond = ResumeState {
        next_chunks: vec![2],
        chains: vec![[0; 32]],
    };
    let encoded = encode_resume_state([0x71; 32], &manifest, &beyond)
        .unwrap_or_else(|error| panic!("encode state: {error:?}"));
    assert_eq!(
        decode_resume_state(&encoded, [0x71; 32], &manifest),
        Err(BatchTransferError::ResumeMismatch)
    );
    let wrong_shape = ResumeState {
        next_chunks: vec![0, 0],
        chains: vec![[0; 32]],
    };
    assert_eq!(
        encode_resume_state([0x71; 32], &manifest, &wrong_shape),
        Err(BatchTransferError::ResumeState)
    );
}

#[test]
fn resume_checkpoint_interval_is_bounded_and_flushes_file_end() {
    assert!(!checkpoint_due(0, DEFAULT_CHUNK_SIZE.into(), false));
    assert!(!checkpoint_due(
        0,
        RESUME_CHECKPOINT_BYTES - u64::from(DEFAULT_CHUNK_SIZE),
        false
    ));
    assert!(checkpoint_due(0, RESUME_CHECKPOINT_BYTES, false));
    assert!(checkpoint_due(0, 1, true));
}

#[test]
fn chunk_arithmetic_matches_the_manifest() {
    assert_eq!(chunk_count(0, 4), Ok(0));
    assert_eq!(chunk_count(9, 4), Ok(3));
    assert_eq!(chunk_count(8, 4), Ok(2));
    assert_eq!(chunk_count(1, 0), Err(BatchTransferError::ProtocolState));
    assert_eq!(chunk_count(u64::MAX, 1), Err(BatchTransferError::ProtocolState));
    assert_eq!(durable_prefix_length(9, 4, 2), Ok(8));
    assert_eq!(durable_prefix_length(9, 4, 3), Ok(9));
    assert_eq!(
        durable_prefix_length(9, 4, 4),
        Err(BatchTransferError::ResumeMismatch)
    );
}

#[test]
fn resume_positions_follow_file_order() {
    let manifest = manifest();
    let good = [ResumePosition {
        file_index: 0,
        next_chunk_index: 1,
    }];
    assert_eq!(validate_positions(&manifest, &good), Ok(()));
    let past_end = [ResumePosition {
        file_index: 0,
        next_chunk_index: 2,
    }];
    assert_eq!(
        validate_positions(&manifest, &past_end),
        Err(BatchTransferError::ResumeMismatch)
    );
    let misnumbered = [ResumePosition {
        file_index: 1,
        next_chunk_index: 0,
    }];
    assert_eq!(
        validate_positions(&manifest, &misnumbered),
        Err(BatchTransferError::ResumeMismatch)
    );
    assert_eq!(
        validate_positions(&manifest, &[]),
        Err(BatchTransferError::ResumeMismatch)
    );
}

#[test]
fn chunk_chain_depends_on_every_input() {
    let base = next_chain([0; 32], 0, 0, [1; 32]).unwrap_or_else(|e| panic!("{e:?}"));
    assert_ne!(base, next_chain([0; 32], 1, 0, [1; 32]).unwrap_or_else(|e| panic!("{e:?}")));
    assert_ne!(base, next_chain([0; 32], 0, 1, [1; 32]).unwrap_or_else(|e| panic!("{e:?}")));
    assert_ne!(base, next_chain([2; 32], 0, 0, [1; 32]).unwrap_or_else(|e| panic!("{e:?}")));
    assert_eq!(
        next_chain([0; 32], 70_000, 0, [1; 32]),
        Err(BatchTransferError::ProtocolState)
    );
}

#[test]
fn receiver_rejects_valid_chunk_digests_with_wrong_whole_file_digest() {
    let content = b"first file content".to_vec();
    let manifest = TransferManifest::new(
        [0x91; 16],
        DEFAULT_CHUNK_SIZE,
        vec![ManifestFile::new(content.len() as u64, sha256_digest(&content), "first.txt".to_owned()).unwrap()],
    )
    .unwrap();
    let mut corrupted = content.clone();
    corrupted[0] ^= 1;
    let chunk = BatchChunk::new([0x91; 16], 0, 0, sha256_digest(&corrupted), corrupted.clone()).unwrap();
    let record = chunk.encode().unwrap();
    let received = BatchChunk::decode(&record).unwrap();
    let mut state = fresh_resume_state(1);
    let transferred = accept_chunk(&manifest, &mut state, 0, 0, &received.as_ref())
        .unwrap_or_else(|error| panic!("a chunk with a valid digest is accepted: {error:?}"));
    assert_eq!(transferred, content.len() as u64);
    let mut whole = ContentHasher::new();
    whole.update(&received.payload);
    assert_eq!(
        check_received_file(whole, &manifest.files[0].file_digest),
        Err(BatchTransferError::Integrity)
    );
}

#[test]
fn streamed_digests_match_one_shot_digests() {
    let content = b"streamed in three parts".to_vec();
    let mut hasher = ContentHasher::new();
    hasher.update(&content[..5]);
    hasher.update(&content[5..12]);
    hasher.update(&content[12..]);
    assert_eq!(check_received_file(hasher, &sha256_digest(&content)), Ok(()));
    let mut changed = ContentHasher::new();
    changed.update(&content);
    assert_eq!(check_sent_file(changed, &sha256_digest(&content), true), Err(BatchTransferError::SourceChanged));
    assert_eq!(next_chunk_length(10, 4, 3), 3);
    assert_eq!(next_chunk_length(10, 8, 3), 2);
    assert_eq!(following_chunk_index(7), Ok(8));
    assert_eq!(following_chunk_index(u32::MAX), Err(BatchTransferError::ProtocolState));
}
