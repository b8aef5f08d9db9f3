use halo::protocol::transfer::{ManifestFile, TransferManifest, DEFAULT_CHUNK_SIZE};
use halo::transfer::batch::BatchTransferError;
use halo::transfer::send_job::{
    batch_file_name, check_batch_source_count, decode_send_job, encode_send_job,
    encode_send_job_with, finish_batch, is_send_job_file, parse_send_job, partial_file_name,
    resume_file_name, send_job_file_name, send_job_slot_free, sort_send_jobs, BatchNames, BatchResumeStore,
    BatchPreparation, BatchSendJobStore, BatchSource, PreparedBatch,
};

fn manifest(transfer_id: [u8; 16]) -> TransferManifest {
    TransferManifest::new(
        transfer_id,
        DEFAULT_CHUNK_SIZE,
        vec![
            ManifestFile::new(7, [0x61; 32], "file.txt".to_owned()).unwrap(),
            ManifestFile::new(300_000, [0x62; 32], "photo.jpg".to_owned()).unwrap(),
        ],
    )
    .unwrap()
}

fn prepared(transfer_id: [u8; 16]) -> PreparedBatch {
    PreparedBatch::new(
        manifest(transfer_id),
        vec!["/home/user/file.txt".to_owned(), "/home/user/photo.jpg".to_owned()],
    )
}

#[test]
fn sender_job_round_trips_for_its_peer_and_transfer() {
    let batch = prepared([0x51; 16]);
    let peer = [0x44; 32];
    let bytes = encode_send_job(peer, &batch).unwrap();
    assert_eq!(&bytes[..4], b"HSJ1");
    let restored = decode_send_job(&bytes, peer, [0x51; 16]).unwrap();
    assert_eq!(restored.manifest(), batch.manifest());
    assert_eq!(restored.source_paths(), batch.source_paths());
}

#[test]
fn sender_job_is_refused_for_another_peer_or_transfer() {
    let batch = prepared([0x51; 16]);
    let bytes = encode_send_job([0x44; 32], &batch).unwrap();
    assert_eq!(
        decode_send_job(&bytes, [0x45; 32], [0x51; 16]).map(|_| ()),
        Err(BatchTransferError::SendJob)
    );
    assert_eq!(
        decode_send_job(&bytes, [0x44; 32], [0x52; 16]).map(|_| ()),
        Err(BatchTransferError::SendJob)
    );
}

#[test]
fn damaged_sender_job_is_refused() {
    let batch = prepared([0x51; 16]);
    let bytes = encode_send_job([0x44; 32], &batch).unwrap();
    for index in [0, 5, 60, bytes.len() - 40, bytes.len() - 1] {
        let mut tampered = bytes.clone();
        tampered[index] ^= 1;
        assert_eq!(
            decode_send_job(&tampered, [0x44; 32], [0x51; 16]).map(|_| ()),
            Err(BatchTransferError::SendJob),
            "byte {index}"
        );
    }
    assert_eq!(
        decode_send_job(&bytes[..bytes.len() - 1], [0x44; 32], [0x51; 16]).map(|_| ()),
        Err(BatchTransferError::SendJob)
    );
    assert_eq!(
        decode_send_job(&[], [0x44; 32], [0x51; 16]).map(|_| ()),
        Err(BatchTransferError::SendJob)
    );
}

#[test]
fn sender_job_needs_absolute_bounded_paths_for_every_file() {
    let relative = PreparedBatch::new(
        manifest([0x51; 16]),
        vec!["/home/user/file.txt".to_owned(), "relative/photo.jpg".to_owned()],
    );
    assert_eq!(encode_send_job([0x44; 32], &relative), Err(BatchTransferError::SendJob));
    let empty = PreparedBatch::new(
        manifest([0x51; 16]),
        vec!["/home/user/file.txt".to_owned(), String::new()],
    );
    assert_eq!(encode_send_job([0x44; 32], &empty), Err(BatchTransferError::SendJob));
    let long = PreparedBatch::new(
        manifest([0x51; 16]),
        vec!["/home/user/file.txt".to_owned(), format!("/{}", "a".repeat(4096))],
    );
    assert_eq!(encode_send_job([0x44; 32], &long), Err(BatchTransferError::SendJob));
}

#[test]
fn absoluteness_is_judged_per_path() {
    let batch = PreparedBatch::new(
        manifest([0x51; 16]),
        vec!["relative/file.txt".to_owned(), "/home/user/photo.jpg".to_owned()],
    );
    assert_eq!(
        encode_send_job_with([0x44; 32], &batch, &[false, true]),
        Err(BatchTransferError::SendJob)
    );
    let bytes = encode_send_job_with([0x44; 32], &batch, &[true, true]).unwrap();
    let parsed = parse_send_job(&bytes, [0x44; 32], [0x51; 16]).unwrap();
    assert_eq!(parsed.source_paths(), batch.source_paths());
    assert_eq!(
        decode_send_job(&bytes, [0x44; 32], [0x51; 16]).map(|_| ()),
        Err(BatchTransferError::SendJob)
    );
}

#[test]
fn store_file_names_are_bound_to_peer_and_transfer() {
    let peer = [0xab; 32];
    let transfer = [0x01; 16];
    let name = send_job_file_name(&peer, &transfer);
    assert_eq!(
        name,
        format!("{}-{}.send", "ab".repeat(12), "01".repeat(16))
    );
    assert!(is_send_job_file(&name, &peer));
    assert!(!is_send_job_file(&name, &[0xac; 32]));
    let resume = resume_file_name(&peer, &transfer);
    assert_eq!(resume, format!("{}-{}.resume", "ab".repeat(12), "01".repeat(16)));
    assert!(!is_send_job_file(&resume, &peer));
    assert_eq!(
        partial_file_name(&peer, &transfer, 3).unwrap(),
        format!(".halo-{}-{}-3.part", "ab".repeat(12), "01".repeat(16))
    );
    assert_eq!(partial_file_name(&peer, &transfer, 8), Err(BatchTransferError::ResumeState));
    let store = BatchSendJobStore::new("/var/jobs".to_owned());
    assert_eq!(store.directory(), "/var/jobs");
    assert_eq!(store.job_file_name(&peer, &transfer), name);
    let resume_store = BatchResumeStore::new("/var/resume".to_owned(), peer);
    assert_eq!(resume_store.peer(), peer);
    assert_eq!(resume_store.state_file_name(&transfer), resume);
    assert_eq!(resume_store.partial_name(&transfer, 9), Err(BatchTransferError::ResumeState));
    assert!(send_job_slot_free(31));
    assert!(!send_job_slot_free(32));
}

#[test]
fn batch_names_are_safe_and_unique_ignoring_ascii_case() {
    let mut names = BatchNames::new();
    assert_eq!(names.insert("Report.PDF"), Ok(()));
    assert_eq!(names.insert("report.pdf"), Err(BatchTransferError::DuplicateFileName));
    assert_eq!(names.insert("../secret"), Err(BatchTransferError::InvalidFileName));
    assert_eq!(names.insert("CON"), Err(BatchTransferError::InvalidFileName));
    assert_eq!(names.insert("other.pdf"), Ok(()));
}

#[test]
fn batch_source_count_and_names_follow_the_sources() {
    assert_eq!(check_batch_source_count(0), Err(BatchTransferError::InvalidSourceCount(0)));
    assert_eq!(check_batch_source_count(9), Err(BatchTransferError::InvalidSourceCount(9)));
    assert_eq!(check_batch_source_count(1), Ok(()));
    assert_eq!(check_batch_source_count(8), Ok(()));
    assert_eq!(
        batch_file_name(Some("given.txt".to_owned()), Some("own.txt".to_owned())),
        "given.txt"
    );
    assert_eq!(batch_file_name(None, Some("own.txt".to_owned())), "own.txt");
    assert_eq!(batch_file_name(None, None), "");
    let source = BatchSource::new("/tmp/a".to_owned(), None);
    assert_eq!(source.source_path, "/tmp/a");
    assert_eq!(source.advertised_name, None);
}

#[test]
fn finished_batch_uses_default_chunk_size() {
    let files = vec![ManifestFile::new(7, [0x61; 32], "file.txt".to_owned()).unwrap()];
    let batch = finish_batch([0x09; 16], files, vec!["/tmp/file.txt".to_owned()]).unwrap();
    assert_eq!(batch.manifest().chunk_size, DEFAULT_CHUNK_SIZE);
    assert_eq!(batch.manifest().transfer_id, [0x09; 16]);
    assert_eq!(batch.source_paths(), vec!["/tmp/file.txt".to_owned()]);
    assert!(matches!(
        finish_batch([0x09; 16], Vec::new(), Vec::new()),
        Err(BatchTransferError::Protocol(_))
    ));
    let twins = vec![
        ManifestFile::new(1, [0x61; 32], "Report.txt".to_owned()).unwrap(),
        ManifestFile::new(2, [0x62; 32], "report.TXT".to_owned()).unwrap(),
    ];
    assert_eq!(
        finish_batch([0x09; 16], twins, vec!["/tmp/a".to_owned(), "/tmp/b".to_owned()]).err(),
        Some(BatchTransferError::DuplicateFileName)
    );
    let unsafe_name = vec![ManifestFile::new(1, [0x61; 32], "CON.txt".to_owned()).unwrap()];
    assert_eq!(
        finish_batch([0x09; 16], unsafe_name, vec!["/tmp/a".to_owned()]).err(),
        Some(BatchTransferError::InvalidFileName)
    );
}

#[test]
fn sender_jobs_list_in_transfer_id_order() {
    let jobs = vec![prepared([0x30; 16]), prepared([0x10; 16]), prepared([0x20; 16])];
    let sorted = sort_send_jobs(jobs);
    let ids: Vec<[u8; 16]> = sorted.iter().map(|job| job.manifest().transfer_id).collect();
    assert_eq!(ids, vec![[0x10; 16], [0x20; 16], [0x30; 16]]);
}

#[test]
fn batch_preparation_keeps_sources_in_order_under_distinct_names() {
    let mut batch = BatchPreparation::new([0x0b; 16], 2).unwrap();
    assert_eq!(batch.admits_name("a.txt"), Ok(()));
    batch.add("a.txt".to_owned(), 3, [1; 32], "/src/first".to_owned()).unwrap();
    assert_eq!(batch.admits_name("A.TXT"), Err(BatchTransferError::DuplicateFileName));
    assert_eq!(
        batch.add("A.TXT".to_owned(), 3, [1; 32], "/src/dup".to_owned()),
        Err(BatchTransferError::DuplicateFileName)
    );
    assert_eq!(batch.admits_name("a/b"), Err(BatchTransferError::InvalidFileName));
    batch.add("b.txt".to_owned(), 4, [2; 32], "/src/second".to_owned()).unwrap();
    let prepared = batch.finish().unwrap();
    assert_eq!(prepared.source_paths(), vec!["/src/first".to_owned(), "/src/second".to_owned()]);
    assert_eq!(prepared.manifest().transfer_id, [0x0b; 16]);
    assert_eq!(prepared.manifest().chunk_size, DEFAULT_CHUNK_SIZE);
    assert_eq!(prepared.manifest().files.len(), 2);
    assert_eq!(prepared.manifest().files[1].file_name, "b.txt");
    assert_eq!(BatchPreparation::new([0; 16], 0).err(), Some(BatchTransferError::InvalidSourceCount(0)));
}
