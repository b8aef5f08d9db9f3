use halo::protocol::pairing::HEADER_LEN;
use halo::protocol::transfer::{
    BatchCancel, BatchCancelReason, BatchChunk, BatchChunkRef, BatchComplete, BatchDecision,
    BatchPause, BatchPauseReason, ManifestFile, ResumePosition, TransferManifest, TransferMessage,
    TransferProtocolError, DATA_RECORD_HEADER_LEN, MAX_BATCH_FILES, MAX_DATA_RECORD_LEN,
    MAX_FILE_SIZE, TRANSFER_ID_LEN,
};

fn manifest() -> TransferManifest {
    TransferManifest::new(
        [0x11; TRANSFER_ID_LEN],
        64 * 1024,
        vec![
            ManifestFile::new(7, [0x21; 32], "first.txt".to_owned())
                .unwrap_or_else(|error| panic!("first file: {error:?}")),
            ManifestFile::new(9, [0x22; 32], "second.bin".to_owned())
                .unwrap_or_else(|error| panic!("second file: {error:?}")),
        ],
    )
    .unwrap_or_else(|error| panic!("manifest: {error:?}"))
}

#[test]
fn manifest_and_terminal_messages_round_trip() {
    let manifest = manifest();
    let digest = manifest.digest();
    assert_eq!(
        digest,
        [
            0xf7, 0xa7, 0x90, 0x61, 0xca, 0x4c, 0x58, 0x52, 0xe1, 0xd1, 0xa9, 0x63, 0x28, 0x6b,
            0xec, 0x83, 0x55, 0xbc, 0x68, 0x6b, 0x98, 0x65, 0x22, 0xa8, 0xf5, 0xef, 0x9f, 0x69,
            0xa6, 0xca, 0x34, 0x07,
        ]
    );
    let messages = [
        TransferMessage::Offer(manifest),
        TransferMessage::Decision(
            BatchDecision::new(
                [0x11; 16],
                digest,
                true,
                vec![
                    ResumePosition {
                        file_index: 0,
                        next_chunk_index: 2,
                    },
                    ResumePosition {
                        file_index: 1,
                        next_chunk_index: 0,
                    },
                ],
            )
            .unwrap_or_else(|error| panic!("decision: {error:?}")),
        ),
        TransferMessage::Complete(BatchComplete {
            transfer_id: [0x11; 16],
            manifest_digest: digest,
        }),
        TransferMessage::Cancel(BatchCancel {
            transfer_id: [0x11; 16],
            reason: BatchCancelReason::Storage,
        }),
        TransferMessage::Pause(BatchPause {
            transfer_id: [0x11; 16],
            manifest_digest: digest,
            reason: BatchPauseReason::RouteLost,
        }),
    ];
    for message in messages {
        let encoded = message
            .encode()
            .unwrap_or_else(|error| panic!("encode: {error:?}"));
        assert_eq!(&encoded[..6], b"HALO\x00\x01");
        assert_eq!(TransferMessage::decode(&encoded), Ok(message));
    }
}

#[test]
fn manifest_rejects_truncation_tampering_and_resource_exhaustion() {
    let encoded = TransferMessage::Offer(manifest())
        .encode()
        .unwrap_or_else(|error| panic!("encode manifest: {error:?}"));
    for length in 0..encoded.len() {
        assert!(TransferMessage::decode(&encoded[..length]).is_err());
    }

    let mut digest_tampered = encoded;
    digest_tampered[HEADER_LEN + 32] ^= 1;
    assert_eq!(
        TransferMessage::decode(&digest_tampered),
        Err(TransferProtocolError::ManifestDigestMismatch)
    );

    let file = ManifestFile::new(0, [0; 32], "file".to_owned())
        .unwrap_or_else(|error| panic!("file: {error:?}"));
    assert!(TransferManifest::new([0; 16], 64 * 1024, vec![file; MAX_BATCH_FILES + 1]).is_err());
}

#[test]
fn decision_rejects_sparse_or_rejected_resume_maps() {
    let digest = manifest().digest();
    assert!(matches!(
        BatchDecision::new(
            [0; 16],
            digest,
            true,
            vec![ResumePosition {
                file_index: 1,
                next_chunk_index: 0,
            }],
        ),
        Err(TransferProtocolError::InvalidResumeFileIndex { .. })
    ));
    assert_eq!(
        BatchDecision::new(
            [0; 16],
            digest,
            false,
            vec![ResumePosition {
                file_index: 0,
                next_chunk_index: 0,
            }],
        ),
        Err(TransferProtocolError::RejectedWithResumePositions)
    );
}

#[test]
fn batch_chunk_round_trips_and_rejects_reserved_or_trailing_data() {
    let chunk = BatchChunk::new([0x31; 16], 2, 7, [0x42; 32], vec![0x53; 33])
        .unwrap_or_else(|error| panic!("chunk: {error:?}"));
    let encoded = chunk
        .encode()
        .unwrap_or_else(|error| panic!("encode chunk: {error:?}"));
    assert_eq!(encoded.len(), DATA_RECORD_HEADER_LEN + 33);
    assert_eq!(&encoded[..4], b"HDF1");
    let borrowed = BatchChunkRef::decode(&encoded)
        .unwrap_or_else(|error| panic!("decode borrowed chunk: {error:?}"));
    assert_eq!(borrowed.payload, &encoded[DATA_RECORD_HEADER_LEN..]);
    assert_eq!(
        borrowed.payload.as_ptr(),
        encoded[DATA_RECORD_HEADER_LEN..].as_ptr()
    );
    assert_eq!(BatchChunk::decode(&encoded), Ok(chunk));

    let mut reused = Vec::with_capacity(MAX_DATA_RECORD_LEN);
    borrowed
        .encode_into(&mut reused)
        .unwrap_or_else(|error| panic!("encode borrowed chunk: {error:?}"));
    assert_eq!(reused, encoded);

    let mut reserved = encoded.clone();
    reserved[22..24].copy_from_slice(&1_u16.to_be_bytes());
    assert_eq!(
        BatchChunk::decode(&reserved),
        Err(TransferProtocolError::ReservedDataFlags(1))
    );
    let mut trailing = encoded;
    trailing.push(0);
    assert!(matches!(
        BatchChunk::decode(&trailing),
        Err(TransferProtocolError::DataRecordLength { .. })
    ));
}

#[test]
fn manifest_file_limits_are_enforced() {
    assert_eq!(
        ManifestFile::new(MAX_FILE_SIZE + 1, [0; 32], "a".to_owned()),
        Err(TransferProtocolError::FileTooLarge(MAX_FILE_SIZE + 1))
    );
    assert_eq!(
        ManifestFile::new(1, [0; 32], String::new()),
        Err(TransferProtocolError::InvalidFileNameLength(0))
    );
    assert_eq!(
        ManifestFile::new(1, [0; 32], "x".repeat(256)),
        Err(TransferProtocolError::InvalidFileNameLength(256))
    );
    let big = ManifestFile::new(MAX_FILE_SIZE, [0; 32], "a".to_owned())
        .unwrap_or_else(|error| panic!("{error:?}"));
    let one = ManifestFile::new(1, [0; 32], "b".to_owned())
        .unwrap_or_else(|error| panic!("{error:?}"));
    assert_eq!(
        TransferManifest::new([0; 16], 1024, vec![big, one]),
        Err(TransferProtocolError::AggregateTooLarge)
    );
    assert_eq!(
        TransferManifest::new([0; 16], 0, vec![]),
        Err(TransferProtocolError::InvalidChunkSize(0))
    );
    assert_eq!(manifest().aggregate_size(), Ok(16));
}

#[test]
fn reasons_and_unknown_kinds_are_rejected() {
    let mut cancel = TransferMessage::Cancel(BatchCancel {
        transfer_id: [1; 16],
        reason: BatchCancelReason::User,
    })
    .encode()
    .unwrap_or_else(|error| panic!("{error:?}"));
    let last = cancel.len() - 1;
    cancel[last] = 9;
    assert_eq!(
        TransferMessage::decode(&cancel),
        Err(TransferProtocolError::InvalidCancelReason(9))
    );
    cancel[6] = 40;
    assert_eq!(
        TransferMessage::decode(&cancel),
        Err(TransferProtocolError::UnknownMessageKind(40))
    );
    assert_eq!(BatchPauseReason::try_from(3), Ok(BatchPauseReason::AppLifecycle));
    assert_eq!(
        BatchPauseReason::try_from(0),
        Err(TransferProtocolError::InvalidPauseReason(0))
    );
    assert_eq!(BatchCancelReason::Protocol.code(), 5);
}

#[test]
fn non_utf8_file_names_are_rejected() {
    let mut encoded = TransferMessage::Offer(manifest())
        .encode()
        .unwrap_or_else(|error| panic!("{error:?}"));
    // The first name byte follows the 64-byte offer header and the 42-byte entry header.
    encoded[HEADER_LEN + 64 + 42] = 0xff;
    assert_eq!(
        TransferMessage::decode(&encoded),
        Err(TransferProtocolError::InvalidUtf8)
    );
}
