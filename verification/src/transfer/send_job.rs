//! The sender's durable job record: what a sender keeps for a prepared
//! batch so that it can offer the same batch again after a restart. A
//! record holds the offer, the absolute source path of every file, and a
//! checksum, and is bound to one peer and one transfer id.

use vstd::prelude::*;
use vstd::string::{StrSliceExecFns, StringSliceAdditionalSpecFns};
use vstd::utf8::{decode_utf8, encode_scalar, encode_utf8, encode_utf8_decode_utf8, encode_utf8_valid_utf8, valid_utf8};

use crate::be_bytes::{be16, be32, bytes_equal, lemma_be16, lemma_be32, push_all, push_be16, push_be32, read_be16, read_be32, read_u16, read_u32};
use crate::crypto::store::path_is_absolute;
use crate::protocol::transfer::{
    decode_transfer, encode_offer, file_error, files_view, manifest_error, name_bytes, ManifestFile, DEFAULT_CHUNK_SIZE, encoded_transfer, lemma_transfer_round_trip, transfer_shaped, transfer_encode_error, transfer_result_view, ManifestView,
    TransferManifest, TransferMessage, TransferMessageView, MAX_BATCH_FILES, TRANSFER_ID_LEN,
};
use crate::crypto::listing::{lemma_insert_keeps_sorted, sorted_by};
use crate::order::{lex_compare, lex_lt, LexOrder};
use vstd::seq_lib::{to_multiset_build, to_multiset_insert};
use crate::text::{all_ascii, ascii_chars, ascii_to_string, ascii_folded, fold_ascii_case, same_chars, utf8_to_string};
use crate::transfer::batch::{
    send_job_checksum, send_job_checksum_of, BatchTransferError, MAX_SEND_JOBS_PER_PEER,
    MAX_SEND_JOB_LEN, MAX_SOURCE_PATH_LEN,
};
use crate::discovery::model::{hex_bytes, lemma_hex_bytes_ascii, lemma_hex_bytes_push};
use crate::transfer::{safe_file_name, validate_file_name};

verus! {

pub const SEND_JOB_VERSION: u16 = 1;

/// Magic, version, peer, transfer id and the offer's length.
pub const SEND_JOB_FIXED_LEN: usize = 58;

/// A batch ready to send: its manifest and, for each manifest file, the
/// path of the source file it was read from.
#[derive(Clone, Debug)]
pub struct PreparedBatch {
    manifest: TransferManifest,
    source_paths: Vec<String>,
}

/// A prepared batch as plain values.
pub ghost struct PreparedView {
    pub manifest: ManifestView,
    pub paths: Seq<Seq<char>>,
}

pub open spec fn paths_view(v: Seq<String>) -> Seq<Seq<char>> {
    v.map_values(|s: String| s@)
}

impl View for PreparedBatch {
    type V = PreparedView;

    closed spec fn view(&self) -> PreparedView {
        PreparedView { manifest: self.manifest@, paths: paths_view(self.source_paths@) }
    }
}

impl PreparedBatch {
    /// Pairs a manifest with the source paths of its files, one path per
    /// file.
    pub fn new(manifest: TransferManifest, source_paths: Vec<String>) -> (r: Self)
        requires
            source_paths@.len() == manifest.files@.len(),
        ensures
            r@.manifest == manifest@,
            r@.paths == paths_view(source_paths@),
            r@.paths.len() == r@.manifest.files.len(),
    {
        PreparedBatch { manifest, source_paths }
    }

    pub fn manifest(&self) -> (r: &TransferManifest)
        ensures
            r@ == self@.manifest,
    {
        &self.manifest
    }

    pub fn source_paths(&self) -> (r: Vec<String>)
        ensures
            paths_view(r@) == self@.paths,
    {
        let mut out: Vec<String> = Vec::new();
        let mut i: usize = 0;
        while i < self.source_paths.len()
            invariant
                i <= self.source_paths@.len(),
                out@.len() == i,
                forall|j: int| 0 <= j < i ==> (#[trigger] out@[j])@ == self.source_paths@[j]@,
            decreases self.source_paths@.len() - i,
        {
            let path = self.source_paths[i].clone();
            assert(path@ == self.source_paths@[i as int]@);
            out.push(path);
            i = i + 1;
        }
        assert(paths_view(out@) =~= paths_view(self.source_paths@));
        out
    }
}

/// `HSJ1`
pub open spec fn send_job_magic() -> Seq<u8> {
    seq![0x48u8, 0x53u8, 0x4au8, 0x31u8]
}

/// The UTF-8 bytes of a path.
pub open spec fn path_bytes(p: Seq<char>) -> Seq<u8> {
    encode_utf8(p)
}

/// One stored path: its byte length, then its bytes.
pub open spec fn path_entry(p: Seq<char>) -> Seq<u8> {
    be16(path_bytes(p).len() as u16) + path_bytes(p)
}

pub open spec fn path_entries(paths: Seq<Seq<char>>) -> Seq<u8>
    decreases paths.len(),
{
    if paths.len() == 0 {
        Seq::empty()
    } else {
        path_entries(paths.drop_last()) + path_entry(paths.last())
    }
}

/// The offer frame of a manifest, as the transfer protocol encodes it.
pub open spec fn offer_frame(m: ManifestView) -> Seq<u8> {
    encoded_transfer(TransferMessageView::Offer(m))
}

/// A sender job record before its checksum.
pub open spec fn send_job_body(peer_id: Seq<u8>, m: ManifestView, paths: Seq<Seq<char>>) -> Seq<u8> {
    send_job_magic() + be16(SEND_JOB_VERSION) + peer_id + m.transfer_id + be32(
        offer_frame(m).len() as u32,
    ) + offer_frame(m) + seq![paths.len() as u8] + path_entries(paths)
}

/// A whole sender job record: body, then checksum.
pub open spec fn send_job_record(peer_id: Seq<u8>, m: ManifestView, paths: Seq<Seq<char>>) -> Seq<
    u8,
> {
    send_job_body(peer_id, m, paths) + send_job_checksum_of(send_job_body(peer_id, m, paths))
}

/// A path that a record can hold: not empty, absolute, and at most 4096
/// bytes long.
pub open spec fn path_storable(p: Seq<char>, absolute: bool) -> bool {
    p.len() > 0 && absolute && path_bytes(p).len() <= MAX_SOURCE_PATH_LEN
}

/// Why a batch cannot be written as a sender job, given for each source
/// path whether it is absolute.
pub open spec fn send_job_encode_error(
    peer_id: Seq<u8>,
    m: ManifestView,
    paths: Seq<Seq<char>>,
    absolute: Seq<bool>,
) -> Option<BatchTransferError> {
    if paths.len() != m.files.len() || paths.len() == 0 || paths.len() > MAX_BATCH_FILES {
        Some(BatchTransferError::SendJob)
    } else if transfer_encode_error(TransferMessageView::Offer(m)) is Some {
        Some(BatchTransferError::Protocol(transfer_encode_error(TransferMessageView::Offer(m))->0))
    } else if offer_frame(m).len() > u32::MAX {
        Some(BatchTransferError::SendJob)
    } else if exists|i: int| 0 <= i < paths.len() && !path_storable(paths[i], #[trigger] absolute[i]) {
        Some(BatchTransferError::SendJob)
    } else if send_job_body(peer_id, m, paths).len() + 32 > MAX_SEND_JOB_LEN {
        Some(BatchTransferError::SendJob)
    } else {
        None
    }
}

/// Writes the sender job record of a prepared batch for one peer, given
/// for each source path whether it is absolute.
pub fn encode_send_job_with(peer_id: [u8; 32], prepared: &PreparedBatch, absolute: &[bool]) -> (r:
    Result<Vec<u8>, BatchTransferError>)
    requires
        absolute@.len() == prepared@.paths.len(),
    ensures
        r is Err <==> send_job_encode_error(peer_id@, prepared@.manifest, prepared@.paths, absolute@)
            is Some,
        r matches Err(e) ==> send_job_encode_error(
            peer_id@,
            prepared@.manifest,
            prepared@.paths,
            absolute@,
        ) == Some(e),
        r matches Ok(bytes) ==> bytes@ == send_job_record(
            peer_id@,
            prepared@.manifest,
            prepared@.paths,
        ),
{
    let ghost m = prepared@.manifest;
    let ghost paths = prepared@.paths;
    let count = prepared.source_paths.len();
    if count != prepared.manifest.files.len() || count == 0 || count > MAX_BATCH_FILES {
        return Err(BatchTransferError::SendJob);
    }
    let frame = match encode_offer(&prepared.manifest) {
        Ok(f) => f,
        Err(e) => return Err(BatchTransferError::Protocol(e)),
    };
    if frame.len() > u32::MAX as usize {
        return Err(BatchTransferError::SendJob);
    }
    let magic: [u8; 4] = [0x48u8, 0x53u8, 0x4au8, 0x31u8];
    assert(magic@ =~= send_job_magic());
    let mut bytes: Vec<u8> = Vec::new();
    push_all(&mut bytes, magic.as_slice());
    push_be16(&mut bytes, SEND_JOB_VERSION);
    push_all(&mut bytes, peer_id.as_slice());
    push_all(&mut bytes, prepared.manifest.transfer_id.as_slice());
    push_be32(&mut bytes, frame.len() as u32);
    push_all(&mut bytes, frame.as_slice());
    bytes.push(count as u8);
    let ghost head = bytes@;
    assert(head =~= send_job_magic() + be16(SEND_JOB_VERSION) + peer_id@ + m.transfer_id + be32(
        offer_frame(m).len() as u32,
    ) + offer_frame(m) + seq![paths.len() as u8]);
    let mut i: usize = 0;
    while i < count
        invariant
            i <= count,
            count == paths.len(),
            count == prepared.source_paths@.len(),
            paths == paths_view(prepared.source_paths@),
            absolute@.len() == count,
            m == prepared@.manifest,
            count == m.files.len(),
            0 < count <= MAX_BATCH_FILES,
            transfer_encode_error(TransferMessageView::Offer(m)) is None,
            offer_frame(m).len() <= u32::MAX,
            forall|j: int| 0 <= j < i ==> path_storable(paths[j], #[trigger] absolute@[j]),
            bytes@ == head + path_entries(paths.subrange(0, i as int)),
        decreases count - i,
    {
        let path = prepared.source_paths[i].as_str();
        assert(path@ == paths[i as int]);
        if path.is_empty() || !absolute[i] || path.len() > MAX_SOURCE_PATH_LEN {
            assert(!path_storable(paths[i as int], absolute@[i as int]));
            assert(send_job_encode_error(peer_id@, m, paths, absolute@) == Some(BatchTransferError::SendJob));
            return Err(BatchTransferError::SendJob);
        }
        let raw = path.as_bytes();
        proof {
            assert(paths.subrange(0, i + 1).drop_last() =~= paths.subrange(0, i as int));
            assert(paths.subrange(0, i + 1).last() == paths[i as int]);
        }
        push_be16(&mut bytes, raw.len() as u16);
        push_all(&mut bytes, raw);
        i = i + 1;
        assert(bytes@ =~= head + path_entries(paths.subrange(0, i as int)));
    }
    assert(paths.subrange(0, i as int) =~= paths);
    assert(bytes@ =~= send_job_body(peer_id@, m, paths));
    let total = bytes.len().checked_add(32);
    match total {
        None => {
            return Err(BatchTransferError::SendJob);
        },
        Some(t) => {
            if t > MAX_SEND_JOB_LEN {
                return Err(BatchTransferError::SendJob);
            }
        },
    }
    let checksum = send_job_checksum(bytes.as_slice());
    push_all(&mut bytes, checksum.as_slice());
    Ok(bytes)
}

/// Writes the sender job record of a prepared batch for one peer. Each
/// source path must be absolute, as the platform judges paths.
pub fn encode_send_job(peer_id: [u8; 32], prepared: &PreparedBatch) -> (r: Result<
    Vec<u8>,
    BatchTransferError,
>)
    ensures
        r matches Ok(bytes) ==> bytes@ == send_job_record(
            peer_id@,
            prepared@.manifest,
            prepared@.paths,
        ),
        r matches Ok(_) ==> exists|absolute: Seq<bool>|
            absolute.len() == prepared@.paths.len() && send_job_encode_error(
                peer_id@,
                prepared@.manifest,
                prepared@.paths,
                absolute,
            ) is None,
        r matches Err(e) ==> e == BatchTransferError::SendJob || exists|absolute: Seq<bool>|
            absolute.len() == prepared@.paths.len() && #[trigger] send_job_encode_error(
                peer_id@,
                prepared@.manifest,
                prepared@.paths,
                absolute,
            ) == Some(e),
{
    let mut absolute: Vec<bool> = Vec::new();
    let mut i: usize = 0;
    while i < prepared.source_paths.len()
        invariant
            i <= prepared.source_paths@.len(),
            absolute@.len() == i,
        decreases prepared.source_paths@.len() - i,
    {
        absolute.push(path_is_absolute(prepared.source_paths[i].as_str()));
        i = i + 1;
    }
    proof {
        assert(prepared@.paths.len() == prepared.source_paths@.len());
    }
    encode_send_job_with(peer_id, prepared, absolute.as_slice())
}

/// Reads `n` stored paths that start at `start` and must end by `end`:
/// the paths and the offset just past them, or `None` when a length is
/// zero, too long, runs past `end`, or the bytes are not UTF-8.
pub open spec fn parse_paths(b: Seq<u8>, start: int, n: nat, end: int) -> Option<
    (Seq<Seq<char>>, int),
>
    decreases n,
{
    if n == 0 {
        Some((Seq::empty(), start))
    } else {
        match parse_paths(b, start, (n - 1) as nat, end) {
            None => None,
            Some((ps, o)) => {
                let l = read_be16(b, o) as int;
                if o + 2 > end || l == 0 || l > MAX_SOURCE_PATH_LEN || o + 2 + l > end {
                    None
                } else if !valid_utf8(b.subrange(o + 2, o + 2 + l)) {
                    None
                } else {
                    Some((ps.push(decode_utf8(b.subrange(o + 2, o + 2 + l))), o + 2 + l))
                }
            },
        }
    }
}

/// Reading `n` paths gives `n` paths.
proof fn lemma_parse_paths_len(b: Seq<u8>, start: int, n: nat, end: int)
    ensures
        parse_paths(b, start, n, end) matches Some((ps, _)) ==> ps.len() == n,
    decreases n,
{
    if n > 0 {
        lemma_parse_paths_len(b, start, (n - 1) as nat, end);
    }
}

/// Once reading the paths fails, reading more of them fails too.
proof fn lemma_parse_paths_none_extends(b: Seq<u8>, start: int, k: nat, n: nat, end: int)
    requires
        k <= n,
        parse_paths(b, start, k, end) is None,
    ensures
        parse_paths(b, start, n, end) is None,
    decreases n - k,
{
    if k < n {
        lemma_parse_paths_none_extends(b, start, k, (n - 1) as nat, end);
    }
}

/// Every manifest file name is a safe leaf name.
pub open spec fn names_safe(m: ManifestView) -> bool {
    forall|i: int|
        0 <= i < m.files.len() ==> safe_file_name(
            #[trigger] m.files[i].name,
            encode_utf8(m.files[i].name).len(),
        )
}

/// The rest of a record after its offer: the paths, which must end at the
/// checksum, and the names of the manifest's files, which must be safe.
pub open spec fn parse_tail(b: Seq<u8>, start: int, count: nat, end: int, m: ManifestView) -> Result<
    (ManifestView, Seq<Seq<char>>),
    BatchTransferError,
> {
    match parse_paths(b, start, count, end) {
        None => Err(BatchTransferError::SendJob),
        Some((paths, o)) => {
            if o != end || !names_safe(m) {
                Err(BatchTransferError::SendJob)
            } else {
                Ok((m, paths))
            }
        },
    }
}

/// What a stored record holds for this peer and transfer id: its manifest
/// and source paths, or why it cannot be used. A record for another peer
/// or transfer, a damaged record and one whose offer does not decode are
/// refused; an offer that breaks the protocol reports that error.
pub open spec fn send_job_parse(b: Seq<u8>, peer_id: Seq<u8>, transfer_id: Seq<u8>) -> Result<
    (ManifestView, Seq<Seq<char>>),
    BatchTransferError,
> {
    let end = b.len() - 32;
    if b.len() < SEND_JOB_FIXED_LEN + 1 + 32 || b.len() > MAX_SEND_JOB_LEN || b.subrange(0, 4)
        != send_job_magic() || read_be16(b, 4) != SEND_JOB_VERSION || b.subrange(6, 38) != peer_id
        || b.subrange(38, 54) != transfer_id {
        Err(BatchTransferError::SendJob)
    } else if b.subrange(end, b.len() as int) != send_job_checksum_of(b.subrange(0, end)) {
        Err(BatchTransferError::SendJob)
    } else {
        let manifest_end = SEND_JOB_FIXED_LEN + read_be32(b, 54);
        if manifest_end >= end {
            Err(BatchTransferError::SendJob)
        } else {
            match decode_transfer(b.subrange(SEND_JOB_FIXED_LEN as int, manifest_end)) {
                Err(e) => Err(BatchTransferError::Protocol(e)),
                Ok(TransferMessageView::Offer(m)) => {
                    let count = b[manifest_end];
                    if m.transfer_id != transfer_id || count != m.files.len() || count == 0
                        || count > MAX_BATCH_FILES {
                        Err(BatchTransferError::SendJob)
                    } else {
                        parse_tail(b, manifest_end + 1, count as nat, end, m)
                    }
                },
                Ok(_) => Err(BatchTransferError::SendJob),
            }
        }
    }
}

/// Reads a sender job record for one peer and transfer id exactly as
/// `send_job_parse` describes, leaving the absoluteness of its paths to
/// the caller.
#[verifier::spinoff_prover]
#[verifier::rlimit(40)]
pub fn parse_send_job(bytes: &[u8], peer_id: [u8; 32], transfer_id: [u8; TRANSFER_ID_LEN]) -> (r:
    Result<PreparedBatch, BatchTransferError>)
    ensures
        r is Err <==> send_job_parse(bytes@, peer_id@, transfer_id@) is Err,
        r matches Err(e) ==> send_job_parse(bytes@, peer_id@, transfer_id@) == Err::<
            (ManifestView, Seq<Seq<char>>),
            BatchTransferError,
        >(e),
        r matches Ok(p) ==> send_job_parse(bytes@, peer_id@, transfer_id@) == Ok::<
            (ManifestView, Seq<Seq<char>>),
            BatchTransferError,
        >((p@.manifest, p@.paths)),
        r matches Ok(p) ==> p@.paths.len() == p@.manifest.files.len(),
{
    let ghost b = bytes@;
    let magic: [u8; 4] = [0x48u8, 0x53u8, 0x4au8, 0x31u8];
    assert(magic@ =~= send_job_magic());
    if bytes.len() < SEND_JOB_FIXED_LEN + 1 + 32 || bytes.len() > MAX_SEND_JOB_LEN {
        return Err(BatchTransferError::SendJob);
    }
    if !bytes_equal(&bytes[0..4], magic.as_slice()) || read_u16(bytes, 4) != SEND_JOB_VERSION
        || !bytes_equal(&bytes[6..38], peer_id.as_slice()) || !bytes_equal(
        &bytes[38..54],
        transfer_id.as_slice(),
    ) {
        return Err(BatchTransferError::SendJob);
    }
    let checksum_offset = bytes.len() - 32;
    let checksum = send_job_checksum(&bytes[0..checksum_offset]);
    if !bytes_equal(&bytes[checksum_offset..bytes.len()], checksum.as_slice()) {
        return Err(BatchTransferError::SendJob);
    }
    let manifest_length = read_u32(bytes, 54) as usize;
    let manifest_end = match SEND_JOB_FIXED_LEN.checked_add(manifest_length) {
        Some(e) => e,
        None => return Err(BatchTransferError::SendJob),
    };
    if manifest_end >= checksum_offset {
        return Err(BatchTransferError::SendJob);
    }
    let decoded = TransferMessage::decode(&bytes[SEND_JOB_FIXED_LEN..manifest_end]);
    assert(bytes@.subrange(SEND_JOB_FIXED_LEN as int, manifest_end as int) =~= b.subrange(
        SEND_JOB_FIXED_LEN as int,
        manifest_end as int,
    ));
    let manifest = match decoded {
        Err(e) => return Err(BatchTransferError::Protocol(e)),
        Ok(TransferMessage::Offer(m)) => m,
        Ok(_) => return Err(BatchTransferError::SendJob),
    };
    let count = bytes[manifest_end] as usize;
    if !bytes_equal(manifest.transfer_id.as_slice(), transfer_id.as_slice()) || count
        != manifest.files.len() || count == 0 || count > MAX_BATCH_FILES {
        return Err(BatchTransferError::SendJob);
    }
    let ghost m = manifest@;
    assert(send_job_parse(b, peer_id@, transfer_id@) == parse_tail(
        b,
        manifest_end + 1,
        count as nat,
        checksum_offset as int,
        m,
    ));
    let mut offset = manifest_end + 1;
    let mut paths: Vec<String> = Vec::new();
    let mut i: usize = 0;
    while i < count
        invariant
            i <= count,
            b == bytes@,
            b.len() <= MAX_SEND_JOB_LEN,
            checksum_offset == b.len() - 32,
            manifest_end < checksum_offset,
            parse_paths(b, manifest_end + 1, i as nat, checksum_offset as int) == Some::<
                (Seq<Seq<char>>, int),
            >((paths_view(paths@), offset as int)),
            offset <= checksum_offset,
            count == m.files.len(),
            m == manifest@,
            send_job_parse(b, peer_id@, transfer_id@) == parse_tail(
                b,
                manifest_end + 1,
                count as nat,
                checksum_offset as int,
                m,
            ),
        decreases count - i,
    {
        if offset + 2 > checksum_offset {
            proof {
                assert(parse_paths(b, manifest_end + 1, (i + 1) as nat, checksum_offset as int) is None);
                lemma_parse_paths_none_extends(b, manifest_end + 1, (i + 1) as nat, count as nat, checksum_offset as int);
            }
            return Err(BatchTransferError::SendJob);
        }
        let length = read_u16(bytes, offset) as usize;
        if length == 0 || length > MAX_SOURCE_PATH_LEN || offset + 2 + length > checksum_offset {
            proof {
                assert(parse_paths(b, manifest_end + 1, (i + 1) as nat, checksum_offset as int) is None);
                lemma_parse_paths_none_extends(b, manifest_end + 1, (i + 1) as nat, count as nat, checksum_offset as int);
            }
            return Err(BatchTransferError::SendJob);
        }
        let raw = &bytes[offset + 2..offset + 2 + length];
        assert(raw@ =~= b.subrange(offset + 2, offset + 2 + length));
        let path = match utf8_to_string(raw) {
            Some(p) => p,
            None => {
                proof {
                    assert(parse_paths(b, manifest_end + 1, (i + 1) as nat, checksum_offset as int) is None);
                    lemma_parse_paths_none_extends(b, manifest_end + 1, (i + 1) as nat, count as nat, checksum_offset as int);
                }
                return Err(BatchTransferError::SendJob);
            },
        };
        let ghost before = paths_view(paths@);
        paths.push(path);
        assert(paths_view(paths@) =~= before.push(decode_utf8(b.subrange(offset + 2, offset + 2 + length))));
        offset = offset + 2 + length;
        i = i + 1;
    }
    if offset != checksum_offset {
        return Err(BatchTransferError::SendJob);
    }
    let mut k: usize = 0;
    while k < manifest.files.len()
        invariant
            k <= manifest.files@.len(),
            m == manifest@,
            count == m.files.len(),
            b == bytes@,
            send_job_parse(b, peer_id@, transfer_id@) == parse_tail(
                b,
                manifest_end + 1,
                count as nat,
                checksum_offset as int,
                m,
            ),
            parse_paths(b, manifest_end + 1, count as nat, checksum_offset as int) == Some::<
                (Seq<Seq<char>>, int),
            >((paths_view(paths@), checksum_offset as int)),
            forall|j: int|
                0 <= j < k ==> safe_file_name(
                    #[trigger] m.files[j].name,
                    encode_utf8(m.files[j].name).len(),
                ),
        decreases manifest.files@.len() - k,
    {
        match validate_file_name(manifest.files[k].file_name.as_str()) {
            Ok(()) => {},
            Err(_) => {
                assert(!safe_file_name(m.files[k as int].name, encode_utf8(m.files[k as int].name).len()));
                assert(!names_safe(m));
                assert(parse_tail(b, manifest_end + 1, count as nat, checksum_offset as int, m) is Err);
                return Err(BatchTransferError::SendJob);
            },
        }
        k = k + 1;
    }
    proof {
        lemma_parse_paths_len(b, manifest_end + 1, count as nat, checksum_offset as int);
    }
    let prepared = PreparedBatch { manifest, source_paths: paths };
    Ok(prepared)
}

/// Reads a sender job record for one peer and transfer id, refusing it
/// unless every source path is absolute, as the platform judges paths.
pub fn decode_send_job(bytes: &[u8], peer_id: [u8; 32], transfer_id: [u8; TRANSFER_ID_LEN]) -> (r:
    Result<PreparedBatch, BatchTransferError>)
    ensures
        send_job_parse(bytes@, peer_id@, transfer_id@) matches Err(e) ==> r == Err::<
            PreparedBatch,
            BatchTransferError,
        >(e),
        r matches Ok(p) ==> send_job_parse(bytes@, peer_id@, transfer_id@) == Ok::<
            (ManifestView, Seq<Seq<char>>),
            BatchTransferError,
        >((p@.manifest, p@.paths)),
        r matches Err(e) ==> e == BatchTransferError::SendJob || send_job_parse(
            bytes@,
            peer_id@,
            transfer_id@,
        ) == Err::<(ManifestView, Seq<Seq<char>>), BatchTransferError>(e),
{
    let prepared = match parse_send_job(bytes, peer_id, transfer_id) {
        Ok(p) => p,
        Err(e) => return Err(e),
    };
    let mut i: usize = 0;
    while i < prepared.source_paths.len()
        invariant
            i <= prepared.source_paths@.len(),
            send_job_parse(bytes@, peer_id@, transfer_id@) == Ok::<
                (ManifestView, Seq<Seq<char>>),
                BatchTransferError,
            >((prepared@.manifest, prepared@.paths)),
        decreases prepared.source_paths@.len() - i,
    {
        if !path_is_absolute(prepared.source_paths[i].as_str()) {
            return Err(BatchTransferError::SendJob);
        }
        i = i + 1;
    }
    Ok(prepared)
}

proof fn lemma_path_bytes_nonempty(p: Seq<char>)
    requires
        p.len() > 0,
    ensures
        path_bytes(p).len() > 0,
{
    assert(encode_utf8(p) == encode_scalar(p[0] as u32) + encode_utf8(p.drop_first()));
}

/// The stored paths of two lists one after the other are the stored paths
/// of the first, then those of the second.
proof fn lemma_path_entries_concat(a: Seq<Seq<char>>, c: Seq<Seq<char>>)
    ensures
        path_entries(a + c) == path_entries(a) + path_entries(c),
    decreases c.len(),
{
    if c.len() == 0 {
        assert(a + c =~= a);
        assert(path_entries(a) + path_entries(c) =~= path_entries(a));
    } else {
        assert((a + c).drop_last() =~= a + c.drop_last());
        assert((a + c).last() == c.last());
        lemma_path_entries_concat(a, c.drop_last());
        assert(path_entries(a + c) =~= path_entries(a) + path_entries(c));
    }
}

/// Stored paths read back as the paths that were stored.
proof fn lemma_parse_paths_of(b: Seq<u8>, start: int, paths: Seq<Seq<char>>, k: int)
    requires
        0 <= k <= paths.len(),
        0 <= start,
        start + path_entries(paths).len() <= b.len(),
        b.subrange(start, start + path_entries(paths).len()) == path_entries(paths),
        forall|i: int|
            0 <= i < paths.len() ==> 0 < path_bytes(#[trigger] paths[i]).len()
                <= MAX_SOURCE_PATH_LEN,
    ensures
        parse_paths(b, start, k as nat, start + path_entries(paths).len()) == Some::<
            (Seq<Seq<char>>, int),
        >((paths.subrange(0, k), start + path_entries(paths.subrange(0, k)).len())),
    decreases k,
{
    let e = path_entries(paths);
    let end = start + e.len();
    if k == 0 {
        assert(paths.subrange(0, 0) =~= Seq::<Seq<char>>::empty());
    } else {
        lemma_parse_paths_of(b, start, paths, k - 1);
        let before = paths.subrange(0, k - 1);
        let upto = paths.subrange(0, k);
        let p = paths[k - 1];
        let pb = path_bytes(p);
        let l: int = pb.len() as int;
        assert(upto.drop_last() =~= before);
        assert(upto.last() == p);
        assert(path_entries(upto) == path_entries(before) + path_entry(p));
        lemma_path_entries_concat(upto, paths.subrange(k, paths.len() as int));
        assert(upto + paths.subrange(k, paths.len() as int) =~= paths);
        let rest = path_entries(paths.subrange(k, paths.len() as int));
        let pre = path_entries(before);
        assert(e == pre + be16(l as u16) + pb + rest);
        let pl: int = pre.len() as int;
        let o = start + pl;
        assert(b.subrange(o, o + 2) =~= e.subrange(pl, pl + 2));
        assert(e.subrange(pl, pl + 2) =~= be16(l as u16));
        lemma_be16(l as u16, b, o);
        assert(read_be16(b, o) as int == l);
        assert(b.subrange(o + 2, o + 2 + l) =~= e.subrange(pl + 2, pl + 2 + l));
        assert(e.subrange(pl + 2, pl + 2 + l) =~= pb);
        encode_utf8_valid_utf8(p);
        encode_utf8_decode_utf8(p);
        assert(before.push(p) =~= upto);
        assert(path_entries(upto).len() == pl + 2 + l);
    }
}

/// A record written for a batch reads back, for the same peer and
/// transfer id, as that batch, when the names of its files are safe.
#[verifier::spinoff_prover]
#[verifier::rlimit(40)]
pub proof fn lemma_send_job_round_trip(
    peer_id: Seq<u8>,
    m: ManifestView,
    paths: Seq<Seq<char>>,
    absolute: Seq<bool>,
)
    requires
        peer_id.len() == 32,
        transfer_shaped(TransferMessageView::Offer(m)),
        absolute.len() == paths.len(),
        send_job_encode_error(peer_id, m, paths, absolute) is None,
        names_safe(m),
    ensures
        send_job_parse(send_job_record(peer_id, m, paths), peer_id, m.transfer_id) == Ok::<
            (ManifestView, Seq<Seq<char>>),
            BatchTransferError,
        >((m, paths)),
{
    let offer = offer_frame(m);
    let body = send_job_body(peer_id, m, paths);
    let b = send_job_record(peer_id, m, paths);
    let e = path_entries(paths);
    let n = paths.len();
    assert forall|i: int| 0 <= i < n implies 0 < path_bytes(#[trigger] paths[i]).len()
        <= MAX_SOURCE_PATH_LEN by {
        assert(path_storable(paths[i], absolute[i]));
        lemma_path_bytes_nonempty(paths[i]);
    }
    assert(offer.len() >= 12);
    assert(body.len() == SEND_JOB_FIXED_LEN + offer.len() + 1 + e.len());
    assert(b.len() == body.len() + 32);
    let end = b.len() - 32;
    assert(b.subrange(0, end) =~= body);
    assert(b.subrange(end, b.len() as int) =~= send_job_checksum_of(body));
    assert(b.subrange(0, 4) =~= send_job_magic());
    assert(b.subrange(4, 6) =~= be16(SEND_JOB_VERSION));
    lemma_be16(SEND_JOB_VERSION, b, 4);
    assert(b.subrange(6, 38) =~= peer_id);
    assert(b.subrange(38, 54) =~= m.transfer_id);
    assert(b.subrange(54, 58) =~= be32(offer.len() as u32));
    lemma_be32(offer.len() as u32, b, 54);
    let manifest_end = SEND_JOB_FIXED_LEN + offer.len();
    assert(b.subrange(SEND_JOB_FIXED_LEN as int, manifest_end) =~= offer);
    lemma_transfer_round_trip(TransferMessageView::Offer(m));
    assert(b[manifest_end] == n as u8);
    let start = manifest_end + 1;
    assert(b.subrange(start, start + e.len()) =~= e);
    lemma_parse_paths_of(b, start, paths, n as int);
    assert(paths.subrange(0, n as int) =~= paths);
}

/// A record written for one peer is refused for any other peer.
pub proof fn lemma_send_job_other_peer_refused(
    peer_id: Seq<u8>,
    other: Seq<u8>,
    m: ManifestView,
    paths: Seq<Seq<char>>,
    transfer_id: Seq<u8>,
)
    requires
        peer_id.len() == 32,
        other != peer_id,
        m.transfer_id.len() == TRANSFER_ID_LEN,
    ensures
        send_job_parse(send_job_record(peer_id, m, paths), other, transfer_id) == Err::<
            (ManifestView, Seq<Seq<char>>),
            BatchTransferError,
        >(BatchTransferError::SendJob),
{
    let b = send_job_record(peer_id, m, paths);
    let body = send_job_body(peer_id, m, paths);
    assert(b.len() >= body.len());
    assert(body.len() >= 58);
    if b.len() >= 38 {
        assert(b.subrange(6, 38) =~= peer_id);
    }
}

/// A batch holds one to eight files.
pub fn check_batch_source_count(count: usize) -> (r: Result<(), BatchTransferError>)
    ensures
        r is Ok <==> 1 <= count <= MAX_BATCH_FILES,
        r is Err ==> r == Err::<(), BatchTransferError>(BatchTransferError::InvalidSourceCount(count)),
{
    if count < 1 || count > MAX_BATCH_FILES {
        return Err(BatchTransferError::InvalidSourceCount(count));
    }
    Ok(())
}

/// The name a source is offered under: the name given for it, else the
/// last component of its path, else the empty name.
pub fn batch_file_name(advertised: Option<String>, path_name: Option<String>) -> (r: String)
    ensures
        r@ == match advertised {
            Some(a) => a@,
            None => match path_name {
                Some(p) => p@,
                None => Seq::<char>::empty(),
            },
        },
{
    match advertised {
        Some(a) => a,
        None => match path_name {
            Some(p) => p,
            None => String::new(),
        },
    }
}

/// The names a batch already holds, ASCII case folded.
pub struct BatchNames {
    folded: Vec<Vec<char>>,
}

impl View for BatchNames {
    type V = Seq<Seq<char>>;

    closed spec fn view(&self) -> Seq<Seq<char>> {
        self.folded@.map_values(|n: Vec<char>| n@)
    }
}

impl BatchNames {
    pub fn new() -> (r: Self)
        ensures
            r@ == Seq::<Seq<char>>::empty(),
    {
        let r = BatchNames { folded: Vec::new() };
        assert(r@ =~= Seq::<Seq<char>>::empty());
        r
    }

    /// Whether `insert` would take this name: it must be a safe leaf name
    /// not taken before, ASCII case folded.
    pub fn admits(&self, file_name: &str) -> (r: Result<(), BatchTransferError>)
        ensures
            !safe_file_name(file_name@, file_name.spec_bytes().len()) ==> r == Err::<
                (),
                BatchTransferError,
            >(BatchTransferError::InvalidFileName),
            safe_file_name(file_name@, file_name.spec_bytes().len()) && self@.contains(
                fold_ascii_case(file_name@),
            ) ==> r == Err::<(), BatchTransferError>(BatchTransferError::DuplicateFileName),
            safe_file_name(file_name@, file_name.spec_bytes().len()) && !self@.contains(
                fold_ascii_case(file_name@),
            ) ==> r is Ok,
    {
        if validate_file_name(file_name).is_err() {
            return Err(BatchTransferError::InvalidFileName);
        }
        let key = ascii_folded(file_name);
        let mut i: usize = 0;
        while i < self.folded.len()
            invariant
                i <= self.folded@.len(),
                key@ == fold_ascii_case(file_name@),
                safe_file_name(file_name@, file_name.spec_bytes().len()),
                forall|j: int| 0 <= j < i ==> self.folded@[j]@ != key@,
            decreases self.folded@.len() - i,
        {
            if same_chars(&self.folded[i], &key) {
                assert(self@[i as int] == key@);
                return Err(BatchTransferError::DuplicateFileName);
            }
            i = i + 1;
        }
        assert(!self@.contains(key@)) by {
            assert forall|j: int| 0 <= j < self@.len() implies self@[j] != key@ by {
                assert(self.folded@[j]@ != key@);
            }
        }
        Ok(())
    }

    /// Takes the next file name of a batch. A name that is not a safe
    /// leaf name is refused, and so is one that equals, ASCII case folded,
    /// a name taken before; a refused name is not recorded.
    pub fn insert(&mut self, file_name: &str) -> (r: Result<(), BatchTransferError>)
        ensures
            !safe_file_name(file_name@, file_name.spec_bytes().len()) ==> r == Err::<
                (),
                BatchTransferError,
            >(BatchTransferError::InvalidFileName) && final(self)@ == old(self)@,
            safe_file_name(file_name@, file_name.spec_bytes().len()) && old(self)@.contains(
                fold_ascii_case(file_name@),
            ) ==> r == Err::<(), BatchTransferError>(BatchTransferError::DuplicateFileName)
                && final(self)@ == old(self)@,
            safe_file_name(file_name@, file_name.spec_bytes().len()) && !old(self)@.contains(
                fold_ascii_case(file_name@),
            ) ==> r is Ok && final(self)@ == old(self)@.push(fold_ascii_case(file_name@)),
    {
        if validate_file_name(file_name).is_err() {
            return Err(BatchTransferError::InvalidFileName);
        }
        let key = ascii_folded(file_name);
        let mut i: usize = 0;
        while i < self.folded.len()
            invariant
                i <= self.folded@.len(),
                key@ == fold_ascii_case(file_name@),
                safe_file_name(file_name@, file_name.spec_bytes().len()),
                self@ == old(self)@,
                forall|j: int| 0 <= j < i ==> self.folded@[j]@ != key@,
            decreases self.folded@.len() - i,
        {
            if same_chars(&self.folded[i], &key) {
                assert(self@[i as int] == key@);
                return Err(BatchTransferError::DuplicateFileName);
            }
            i = i + 1;
        }
        assert(!self@.contains(key@)) by {
            assert forall|j: int| 0 <= j < self@.len() implies self@[j] != key@ by {
                assert(self.folded@[j]@ != key@);
            }
        }
        self.folded.push(key);
        proof {
            assert(self@ =~= old(self)@.push(fold_ascii_case(file_name@)));
        }
        Ok(())
    }
}

/// The ASCII case-folded names of the files.
pub open spec fn folded_names(files: Seq<ManifestFile>) -> Seq<Seq<char>> {
    files.map_values(|f: ManifestFile| fold_ascii_case(f.file_name@))
}

/// The first file, in order, whose name is not a safe leaf name or equals
/// an earlier name ASCII case folded: why `BatchNames` refuses it.
pub open spec fn batch_names_error(files: Seq<ManifestFile>) -> Option<BatchTransferError>
    decreases files.len(),
{
    if files.len() == 0 {
        None
    } else {
        match batch_names_error(files.drop_last()) {
            Some(e) => Some(e),
            None => {
                let name = files.last().file_name@;
                if !safe_file_name(name, encode_utf8(name).len()) {
                    Some(BatchTransferError::InvalidFileName)
                } else if folded_names(files.drop_last()).contains(fold_ascii_case(name)) {
                    Some(BatchTransferError::DuplicateFileName)
                } else {
                    None
                }
            },
        }
    }
}

/// No two file names are equal once ASCII case folded.
pub open spec fn names_distinct_folded(files: Seq<ManifestFile>) -> bool {
    folded_names(files).no_duplicates()
}

proof fn lemma_batch_names_error_extends(files: Seq<ManifestFile>, k: int)
    requires
        0 <= k <= files.len(),
        batch_names_error(files.subrange(0, k)) is Some,
    ensures
        batch_names_error(files) == batch_names_error(files.subrange(0, k)),
    decreases files.len() - k,
{
    if k < files.len() {
        assert(files.drop_last().subrange(0, k) =~= files.subrange(0, k));
        lemma_batch_names_error_extends(files.drop_last(), k);
    } else {
        assert(files.subrange(0, k) =~= files);
    }
}

/// Builds the prepared batch from the files read for it, under the
/// default chunk size: every name must be a safe leaf name, distinct from
/// the others ASCII case folded, and a manifest the protocol refuses
/// reports why. Each file comes with the path it was read from.
pub fn finish_batch(
    transfer_id: [u8; TRANSFER_ID_LEN],
    files: Vec<ManifestFile>,
    source_paths: Vec<String>,
) -> (r: Result<PreparedBatch, BatchTransferError>)
    requires
        files@.len() == source_paths@.len(),
    ensures
        ({
            let v = ManifestView {
                transfer_id: transfer_id@,
                chunk_size: DEFAULT_CHUNK_SIZE,
                files: files_view(files@),
            };
            match batch_names_error(files@) {
                Some(e) => r == Err::<PreparedBatch, BatchTransferError>(e),
                None => match r {
                    Ok(p) => manifest_error(v) is None && p@.manifest == v && p@.paths == paths_view(
                        source_paths@,
                    ),
                    Err(e) => manifest_error(v) matches Some(pe) && e == BatchTransferError::Protocol(
                        pe,
                    ),
                },
            }
        }),
        r matches Ok(p) ==> names_distinct_folded(files@) && p@.paths.len()
            == p@.manifest.files.len(),
{
    let mut names = BatchNames::new();
    let mut i: usize = 0;
    while i < files.len()
        invariant
            i <= files@.len(),
            batch_names_error(files@.subrange(0, i as int)) is None,
            names@ == folded_names(files@.subrange(0, i as int)),
            names@.no_duplicates(),
        decreases files@.len() - i,
    {
        let ghost prefix = files@.subrange(0, i as int);
        let ghost next = files@.subrange(0, i + 1);
        assert(next.drop_last() =~= prefix);
        match names.insert(files[i].file_name.as_str()) {
            Err(e) => {
                proof {
                    lemma_batch_names_error_extends(files@, i + 1);
                }
                return Err(e);
            },
            Ok(()) => {},
        }
        proof {
            assert(folded_names(next) =~= folded_names(prefix).push(
                fold_ascii_case(files@[i as int].file_name@),
            ));
        }
        i = i + 1;
    }
    proof {
        assert(files@.subrange(0, i as int) =~= files@);
    }
    match TransferManifest::new(transfer_id, DEFAULT_CHUNK_SIZE, files) {
        Ok(manifest) => Ok(PreparedBatch::new(manifest, source_paths)),
        Err(e) => Err(BatchTransferError::Protocol(e)),
    }
}

/// A batch being prepared from its sources, one source at a time: the
/// files read so far with the paths they were read from, in order, under
/// names that are safe and distinct ignoring ASCII case.
pub struct BatchPreparation {
    transfer_id: [u8; TRANSFER_ID_LEN],
    names: BatchNames,
    files: Vec<ManifestFile>,
    paths: Vec<String>,
}

impl BatchPreparation {
    pub closed spec fn spec_transfer_id(&self) -> Seq<u8> {
        self.transfer_id@
    }

    /// The files added so far, in order.
    pub closed spec fn spec_files(&self) -> Seq<ManifestFile> {
        self.files@
    }

    /// The source path of each file added so far, in order.
    pub closed spec fn spec_paths(&self) -> Seq<Seq<char>> {
        paths_view(self.paths@)
    }

    pub closed spec fn wf(&self) -> bool {
        &&& self.names@ == folded_names(self.files@)
        &&& self.names@.no_duplicates()
        &&& self.files@.len() == self.paths@.len()
    }

    /// Starts a batch of `source_count` sources; a batch holds 1 to
    /// `MAX_BATCH_FILES` of them.
    pub fn new(transfer_id: [u8; TRANSFER_ID_LEN], source_count: usize) -> (r: Result<
        Self,
        BatchTransferError,
    >)
        ensures
            r is Ok <==> 1 <= source_count <= MAX_BATCH_FILES,
            r is Err ==> r == Err::<Self, BatchTransferError>(
                BatchTransferError::InvalidSourceCount(source_count),
            ),
            r matches Ok(p) ==> p.wf() && p.spec_transfer_id() == transfer_id@ && p.spec_files().len()
                == 0 && p.spec_paths().len() == 0,
    {
        check_batch_source_count(source_count)?;
        let p = BatchPreparation {
            transfer_id,
            names: BatchNames::new(),
            files: Vec::new(),
            paths: Vec::new(),
        };
        assert(folded_names(p.files@) =~= Seq::<Seq<char>>::empty());
        assert(p.spec_paths() =~= Seq::<Seq<char>>::empty());
        Ok(p)
    }

    /// Whether a source could be added under this name: it must be safe and
    /// not taken by an earlier file, ASCII case folded. Checked before the
    /// source is read.
    pub fn admits_name(&self, file_name: &str) -> (r: Result<(), BatchTransferError>)
        requires
            self.wf(),
        ensures
            !safe_file_name(file_name@, file_name.spec_bytes().len()) ==> r == Err::<
                (),
                BatchTransferError,
            >(BatchTransferError::InvalidFileName),
            safe_file_name(file_name@, file_name.spec_bytes().len()) && folded_names(
                self.spec_files(),
            ).contains(fold_ascii_case(file_name@)) ==> r == Err::<(), BatchTransferError>(
                BatchTransferError::DuplicateFileName,
            ),
            safe_file_name(file_name@, file_name.spec_bytes().len()) && !folded_names(
                self.spec_files(),
            ).contains(fold_ascii_case(file_name@)) ==> r is Ok,
    {
        self.names.admits(file_name)
    }

    /// Adds a source read as `file_size` bytes with digest `file_digest`,
    /// offered under `file_name`. The name is checked as `admits_name`
    /// checks it, then the entry as the protocol checks it; a refused
    /// source changes nothing.
    pub fn add(
        &mut self,
        file_name: String,
        file_size: u64,
        file_digest: [u8; 32],
        source_path: String,
    ) -> (r: Result<(), BatchTransferError>)
        requires
            old(self).wf(),
        ensures
            final(self).wf(),
            final(self).spec_transfer_id() == old(self).spec_transfer_id(),
            ({
                let name_ok = safe_file_name(file_name@, encode_utf8(file_name@).len())
                    && !folded_names(old(self).spec_files()).contains(fold_ascii_case(file_name@));
                if !safe_file_name(file_name@, encode_utf8(file_name@).len()) {
                    r == Err::<(), BatchTransferError>(BatchTransferError::InvalidFileName)
                } else if !name_ok {
                    r == Err::<(), BatchTransferError>(BatchTransferError::DuplicateFileName)
                } else {
                    match file_error(file_size, name_bytes(file_name@).len() as int) {
                        Some(e) => r == Err::<(), BatchTransferError>(BatchTransferError::Protocol(e)),
                        None => r is Ok,
                    }
                }
            }),
            r is Err ==> final(self).spec_files() == old(self).spec_files() && final(self).spec_paths()
                == old(self).spec_paths(),
            r is Ok ==> final(self).spec_paths() == old(self).spec_paths().push(source_path@) && {
                let f = final(self).spec_files().last();
                &&& final(self).spec_files() == old(self).spec_files().push(f)
                &&& f.file_size == file_size
                &&& f.file_digest == file_digest
                &&& f.file_name@ == file_name@
            },
    {
        self.names.admits(file_name.as_str())?;
        let file = match ManifestFile::new(file_size, file_digest, file_name) {
            Ok(f) => f,
            Err(e) => return Err(BatchTransferError::Protocol(e)),
        };
        let ghost before_names = self.names@;
        let ghost before_files = self.files@;
        let ghost before_paths = self.paths@;
        self.names.insert(file.file_name.as_str())?;
        let ghost key = fold_ascii_case(file.file_name@);
        self.files.push(file);
        self.paths.push(source_path);
        proof {
            assert(folded_names(self.files@) =~= folded_names(before_files).push(key));
            assert(self.names@ == before_names.push(key));
            assert(!before_names.contains(key));
            assert forall|a: int, b: int| 0 <= a < b < self.names@.len() implies self.names@[a]
                != self.names@[b] by {
                if b == before_names.len() {
                    assert(self.names@[b] == key);
                    assert(before_names[a] == self.names@[a]);
                } else {
                    assert(self.names@[a] == before_names[a]);
                    assert(self.names@[b] == before_names[b]);
                }
            }
            assert(paths_view(self.paths@) =~= paths_view(before_paths).push(source_path@));
        }
        Ok(())
    }

    /// The prepared batch: the manifest of the files added, in order, under
    /// the default chunk size, with their source paths in the same order.
    /// A manifest the protocol refuses reports why.
    pub fn finish(self) -> (r: Result<PreparedBatch, BatchTransferError>)
        requires
            self.wf(),
        ensures
            ({
                let v = ManifestView {
                    transfer_id: self.spec_transfer_id(),
                    chunk_size: DEFAULT_CHUNK_SIZE,
                    files: files_view(self.spec_files()),
                };
                match r {
                    Ok(p) => manifest_error(v) is None && p@.manifest == v && p@.paths
                        == self.spec_paths() && names_distinct_folded(self.spec_files()),
                    Err(e) => manifest_error(v) matches Some(pe) && e == BatchTransferError::Protocol(
                        pe,
                    ),
                }
            }),
    {
        let ghost paths = self.spec_paths();
        let ghost files = self.files@;
        match TransferManifest::new(self.transfer_id, DEFAULT_CHUNK_SIZE, self.files) {
            Ok(manifest) => Ok(PreparedBatch::new(manifest, self.paths)),
            Err(e) => Err(BatchTransferError::Protocol(e)),
        }
    }
}

/// Lower-case hexadecimal of the first 12 bytes of a peer binding, which
/// prefixes the names of every file kept for that peer.
pub open spec fn binding_hex(binding: Seq<u8>) -> Seq<u8> {
    hex_bytes(binding.subrange(0, 12))
}

/// `.send`
pub open spec fn send_suffix() -> Seq<u8> {
    seq![46u8, 115u8, 101u8, 110u8, 100u8]
}

/// `.resume`
pub open spec fn resume_suffix() -> Seq<u8> {
    seq![46u8, 114u8, 101u8, 115u8, 117u8, 109u8, 101u8]
}

/// `<binding>-<transfer id>.send`
pub open spec fn send_job_file_name_of(peer_id: Seq<u8>, transfer_id: Seq<u8>) -> Seq<char> {
    ascii_chars(binding_hex(peer_id) + seq![45u8] + hex_bytes(transfer_id) + send_suffix())
}

/// `<binding>-<transfer id>.resume`
pub open spec fn resume_file_name_of(peer_id: Seq<u8>, transfer_id: Seq<u8>) -> Seq<char> {
    ascii_chars(binding_hex(peer_id) + seq![45u8] + hex_bytes(transfer_id) + resume_suffix())
}

/// `.halo-<binding>-<transfer id>-<index>.part`, for a file index below 8.
pub open spec fn partial_file_name_of(peer_id: Seq<u8>, transfer_id: Seq<u8>, index: int) -> Seq<
    char,
> {
    ascii_chars(
        seq![46u8, 104u8, 97u8, 108u8, 111u8, 45u8] + binding_hex(peer_id) + seq![45u8] + hex_bytes(
            transfer_id,
        ) + seq![45u8, (48 + index) as u8, 46u8, 112u8, 97u8, 114u8, 116u8],
    )
}

fn push_hex(out: &mut Vec<u8>, bytes: &[u8])
    ensures
        final(out)@ == old(out)@ + hex_bytes(bytes@),
        all_ascii(hex_bytes(bytes@)),
{
    let ghost start = out@;
    let mut i: usize = 0;
    while i < bytes.len()
        invariant
            i <= bytes@.len(),
            out@ == start + hex_bytes(bytes@.subrange(0, i as int)),
        decreases bytes@.len() - i,
    {
        let b = bytes[i];
        let high = b / 16;
        let low = b % 16;
        out.push(if high < 10 { high + 48 } else { high + 87 });
        out.push(if low < 10 { low + 48 } else { low + 87 });
        proof {
            assert(bytes@.subrange(0, i + 1) =~= bytes@.subrange(0, i as int).push(b));
            lemma_hex_bytes_push(bytes@.subrange(0, i as int), b);
        }
        i = i + 1;
        assert(out@ =~= start + hex_bytes(bytes@.subrange(0, i as int)));
    }
    assert(bytes@.subrange(0, i as int) =~= bytes@);
    proof {
        lemma_hex_bytes_ascii(bytes@);
    }
}

/// The name of the file a sender job for this peer and transfer is kept in.
pub fn send_job_file_name(peer_id: &[u8; 32], transfer_id: &[u8; TRANSFER_ID_LEN]) -> (r: String)
    ensures
        r@ == send_job_file_name_of(peer_id@, transfer_id@),
{
    let mut out: Vec<u8> = Vec::new();
    let whole = peer_id.as_slice();
    let head = &whole[0..12];
    assert(head@ =~= peer_id@.subrange(0, 12));
    push_hex(&mut out, head);
    out.push(45u8);
    push_hex(&mut out, transfer_id.as_slice());
    let suffix: [u8; 5] = [46u8, 115u8, 101u8, 110u8, 100u8];
    push_all(&mut out, suffix.as_slice());
    proof {
        assert(out@ =~= binding_hex(peer_id@) + seq![45u8] + hex_bytes(transfer_id@) + send_suffix());
        assert(all_ascii(out@));
    }
    ascii_to_string(out.as_slice())
}

/// The name of the file a receiver's resume record for this peer and
/// transfer is kept in.
pub fn resume_file_name(peer_id: &[u8; 32], transfer_id: &[u8; TRANSFER_ID_LEN]) -> (r: String)
    ensures
        r@ == resume_file_name_of(peer_id@, transfer_id@),
{
    let mut out: Vec<u8> = Vec::new();
    let whole = peer_id.as_slice();
    let head = &whole[0..12];
    assert(head@ =~= peer_id@.subrange(0, 12));
    push_hex(&mut out, head);
    out.push(45u8);
    push_hex(&mut out, transfer_id.as_slice());
    let suffix: [u8; 7] = [46u8, 114u8, 101u8, 115u8, 117u8, 109u8, 101u8];
    push_all(&mut out, suffix.as_slice());
    proof {
        assert(out@ =~= binding_hex(peer_id@) + seq![45u8] + hex_bytes(transfer_id@)
            + resume_suffix());
        assert(all_ascii(out@));
    }
    ascii_to_string(out.as_slice())
}

/// The name of the hidden file a partly received file of a batch is kept
/// in; a batch has at most 8 files, so a larger index is bad state.
pub fn partial_file_name(
    peer_id: &[u8; 32],
    transfer_id: &[u8; TRANSFER_ID_LEN],
    file_index: usize,
) -> (r: Result<String, BatchTransferError>)
    ensures
        file_index >= MAX_BATCH_FILES ==> r == Err::<String, BatchTransferError>(
            BatchTransferError::ResumeState,
        ),
        file_index < MAX_BATCH_FILES ==> (r matches Ok(name) && name@ == partial_file_name_of(
            peer_id@,
            transfer_id@,
            file_index as int,
        )),
{
    if file_index >= MAX_BATCH_FILES {
        return Err(BatchTransferError::ResumeState);
    }
    let mut out: Vec<u8> = Vec::new();
    let prefix: [u8; 6] = [46u8, 104u8, 97u8, 108u8, 111u8, 45u8];
    push_all(&mut out, prefix.as_slice());
    let whole = peer_id.as_slice();
    let head = &whole[0..12];
    assert(head@ =~= peer_id@.subrange(0, 12));
    push_hex(&mut out, head);
    out.push(45u8);
    push_hex(&mut out, transfer_id.as_slice());
    let suffix: [u8; 7] = [45u8, 48u8 + file_index as u8, 46u8, 112u8, 97u8, 114u8, 116u8];
    push_all(&mut out, suffix.as_slice());
    proof {
        assert(out@ =~= seq![46u8, 104u8, 97u8, 108u8, 111u8, 45u8] + binding_hex(peer_id@)
            + seq![45u8] + hex_bytes(transfer_id@) + seq![
            45u8,
            (48 + file_index) as u8,
            46u8,
            112u8,
            97u8,
            114u8,
            116u8,
        ]);
        assert(all_ascii(out@));
    }
    Ok(ascii_to_string(out.as_slice()))
}

/// Whether a directory entry's name is that of a sender job kept for
/// this peer: the peer's binding prefix, a `-`, and the `.send` suffix.
pub open spec fn is_send_job_file_of(name: Seq<char>, peer_id: Seq<u8>) -> bool {
    let prefix = ascii_chars(binding_hex(peer_id) + seq![45u8]);
    let suffix = ascii_chars(send_suffix());
    name.len() >= prefix.len() && name.subrange(0, prefix.len() as int) == prefix && name.len()
        >= suffix.len() && name.subrange(name.len() - suffix.len(), name.len() as int) == suffix
}

pub(crate) fn chars_of(text: &str) -> (r: Vec<char>)
    ensures
        r@ == text@,
{
    let n = text.unicode_len();
    let mut out: Vec<char> = Vec::new();
    let mut i: usize = 0;
    while i < n
        invariant
            i <= n,
            n == text@.len(),
            out@ == text@.subrange(0, i as int),
        decreases n - i,
    {
        out.push(text.get_char(i));
        i = i + 1;
        assert(out@ =~= text@.subrange(0, i as int));
    }
    assert(text@.subrange(0, i as int) =~= text@);
    out
}

/// Whether `chars` holds the ASCII `bytes` at `offset`.
fn holds_at(chars: &Vec<char>, offset: usize, bytes: &[u8]) -> (r: bool)
    requires
        offset + bytes@.len() <= chars@.len(),
    ensures
        r == (chars@.subrange(offset as int, offset + bytes@.len()) == ascii_chars(bytes@)),
{
    let mut i: usize = 0;
    while i < bytes.len()
        invariant
            i <= bytes@.len(),
            offset + bytes@.len() <= chars.len(),
            forall|j: int| 0 <= j < i ==> chars@[offset + j] == bytes@[j] as char,
        decreases bytes@.len() - i,
    {
        if chars[offset + i] != bytes[i] as char {
            assert(chars@.subrange(offset as int, offset + bytes@.len())[i as int] != ascii_chars(
                bytes@,
            )[i as int]);
            return false;
        }
        i = i + 1;
    }
    assert(chars@.subrange(offset as int, offset + bytes@.len()) =~= ascii_chars(bytes@));
    true
}

/// Whether a directory entry's name is that of a sender job kept for
/// this peer.
pub fn is_send_job_file(name: &str, peer_id: &[u8; 32]) -> (r: bool)
    ensures
        r == is_send_job_file_of(name@, peer_id@),
{
    let chars = chars_of(name);
    let mut prefix: Vec<u8> = Vec::new();
    let whole = peer_id.as_slice();
    let head = &whole[0..12];
    assert(head@ =~= peer_id@.subrange(0, 12));
    push_hex(&mut prefix, head);
    prefix.push(45u8);
    let suffix: [u8; 5] = [46u8, 115u8, 101u8, 110u8, 100u8];
    proof {
        assert(prefix@ =~= binding_hex(peer_id@) + seq![45u8]);
        assert(suffix@ =~= send_suffix());
    }
    if chars.len() < prefix.len() || !holds_at(&chars, 0, prefix.as_slice()) {
        return false;
    }
    if chars.len() < suffix.len() {
        return false;
    }
    holds_at(&chars, chars.len() - suffix.len(), suffix.as_slice())
}

/// A peer keeps at most 32 sender jobs: another one may be read only while
/// fewer have been.
pub fn send_job_slot_free(listed: usize) -> (r: bool)
    ensures
        r == (listed < MAX_SEND_JOBS_PER_PEER),
{
    listed < MAX_SEND_JOBS_PER_PEER
}

/// The file a sender job is kept in is listed among that peer's jobs.
pub proof fn lemma_send_job_file_listed(peer_id: Seq<u8>, transfer_id: Seq<u8>)
    requires
        peer_id.len() == 32,
    ensures
        is_send_job_file_of(send_job_file_name_of(peer_id, transfer_id), peer_id),
{
    let h = binding_hex(peer_id) + seq![45u8];
    let whole = h + hex_bytes(transfer_id) + send_suffix();
    let name = send_job_file_name_of(peer_id, transfer_id);
    assert(name == ascii_chars(whole));
    assert(whole.subrange(0, h.len() as int) =~= h);
    assert(name.subrange(0, h.len() as int) =~= ascii_chars(h));
    assert(whole.subrange(whole.len() - 5, whole.len() as int) =~= send_suffix());
    assert(name.subrange(name.len() - 5, name.len() as int) =~= ascii_chars(send_suffix()));
}

/// A file to put in a batch: where it is, and the name to offer it under
/// if not its own.
#[derive(Clone, Debug, PartialEq, Eq)]
pub struct BatchSource {
    pub source_path: String,
    pub advertised_name: Option<String>,
}

impl BatchSource {
    pub fn new(source_path: String, advertised_name: Option<String>) -> (r: Self)
        ensures
            r.source_path == source_path,
            r.advertised_name == advertised_name,
    {
        BatchSource { source_path, advertised_name }
    }
}

/// A batch received and finalized: where each file went, the declared
/// total and the manifest digest.
#[derive(Clone, Debug, PartialEq, Eq)]
pub struct ReceivedBatch {
    pub transfer_id: [u8; TRANSFER_ID_LEN],
    pub final_paths: Vec<String>,
    pub aggregate_size: u64,
    pub manifest_digest: [u8; 32],
}

/// Where a sender keeps its jobs: one file per peer and transfer in a
/// directory.
#[derive(Clone, Debug, PartialEq, Eq)]
pub struct BatchSendJobStore {
    root: String,
}

impl BatchSendJobStore {
    pub fn new(root: String) -> (r: Self)
        ensures
            r.root() == root,
    {
        BatchSendJobStore { root }
    }

    pub closed spec fn root(&self) -> String {
        self.root
    }

    pub fn directory(&self) -> (r: &String)
        ensures
            *r == self.root(),
    {
        &self.root
    }

    /// The name, within the directory, of the job for this peer and
    /// transfer.
    pub fn job_file_name(&self, peer_id: &[u8; 32], transfer_id: &[u8; TRANSFER_ID_LEN]) -> (r:
        String)
        ensures
            r@ == send_job_file_name_of(peer_id@, transfer_id@),
    {
        send_job_file_name(peer_id, transfer_id)
    }
}

/// Where a receiver keeps, for one peer, the resume record and the partly
/// received files of each batch.
#[derive(Clone, Debug, PartialEq, Eq)]
pub struct BatchResumeStore {
    root: String,
    peer_id: [u8; 32],
}

impl BatchResumeStore {
    pub fn new(root: String, peer_id: [u8; 32]) -> (r: Self)
        ensures
            r.root() == root,
            r.peer_id() == peer_id,
    {
        BatchResumeStore { root, peer_id }
    }

    pub closed spec fn root(&self) -> String {
        self.root
    }

    pub closed spec fn peer_id(&self) -> [u8; 32] {
        self.peer_id
    }

    pub fn directory(&self) -> (r: &String)
        ensures
            *r == self.root(),
    {
        &self.root
    }

    pub fn peer(&self) -> (r: [u8; 32])
        ensures
            r == self.peer_id(),
    {
        self.peer_id
    }

    /// The name, within the directory, of a transfer's resume record.
    pub fn state_file_name(&self, transfer_id: &[u8; TRANSFER_ID_LEN]) -> (r: String)
        ensures
            r@ == resume_file_name_of(self.peer_id()@, transfer_id@),
    {
        resume_file_name(&self.peer_id, transfer_id)
    }

    /// The name, within the directory, of a partly received file.
    pub fn partial_name(&self, transfer_id: &[u8; TRANSFER_ID_LEN], file_index: usize) -> (r:
        Result<String, BatchTransferError>)
        ensures
            file_index >= MAX_BATCH_FILES ==> r == Err::<String, BatchTransferError>(
                BatchTransferError::ResumeState,
            ),
            file_index < MAX_BATCH_FILES ==> (r matches Ok(name) && name@ == partial_file_name_of(
                self.peer_id()@,
                transfer_id@,
                file_index as int,
            )),
    {
        partial_file_name(&self.peer_id, transfer_id, file_index)
    }
}

/// A job's place in a listing: its transfer id.
pub open spec fn job_key(p: PreparedBatch) -> Seq<u8> {
    p@.manifest.transfer_id
}

pub open spec fn job_keys(s: Seq<PreparedBatch>) -> Seq<Seq<u8>> {
    s.map_values(|p: PreparedBatch| job_key(p))
}

/// Sender jobs in transfer-id order; jobs with the same id keep their
/// order.
pub fn sort_send_jobs(jobs: Vec<PreparedBatch>) -> (r: Vec<PreparedBatch>)
    ensures
        r@.to_multiset() == jobs@.to_multiset(),
        sorted_by(job_keys(r@)),
{
    let ghost all = jobs@;
    let mut rest = jobs;
    let mut out: Vec<PreparedBatch> = Vec::new();
    let ghost mut k: int = 0;
    assert(all.subrange(0, 0) =~= out@);
    while rest.len() > 0
        invariant
            0 <= k <= all.len(),
            rest@ == all.subrange(k, all.len() as int),
            out@.to_multiset() == all.subrange(0, k).to_multiset(),
            sorted_by(job_keys(out@)),
            forall|j: int| 0 <= j < out@.len() ==> (#[trigger] job_keys(out@)[j]).len() == 16,
        decreases rest@.len(),
    {
        let job = rest.remove(0);
        proof {
            assert(all.subrange(0, k + 1) =~= all.subrange(0, k).push(job));
            k = k + 1;
            assert(rest@ =~= all.subrange(k, all.len() as int));
        }
        let mut pos: usize = 0;
        let mut stop = false;
        while pos < out.len() && !stop
            invariant
                pos <= out@.len(),
                job_key(job) == job.manifest.transfer_id@,
                forall|j: int| 0 <= j < pos ==> !lex_lt(job_key(job), #[trigger] job_keys(out@)[j]),
                stop ==> pos < out@.len() && lex_lt(job_key(job), job_keys(out@)[pos as int]),
            decreases out@.len() - pos, if stop { 0int } else { 1int },
        {
            assert(job_keys(out@)[pos as int] == out@[pos as int].manifest.transfer_id@);
            match lex_compare(
                job.manifest.transfer_id.as_slice(),
                out[pos].manifest.transfer_id.as_slice(),
            ) {
                LexOrder::Less => {
                    stop = true;
                },
                _ => {
                    pos = pos + 1;
                },
            }
        }
        let ghost before = out@;
        proof {
            lemma_insert_keeps_sorted(job_keys(before), pos as int, job_key(job), 16);
            assert(job_keys(before.insert(pos as int, job)) =~= job_keys(before).insert(
                pos as int,
                job_key(job),
            ));
            to_multiset_insert(before, pos as int, job);
            to_multiset_build(all.subrange(0, k - 1), job);
        }
        out.insert(pos, job);
    }
    assert(all.subrange(0, k) =~= all);
    out
}

} // verus!
