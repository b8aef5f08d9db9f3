//! Transfer control frames (offer, decision, completion, cancellation, pause)
//! and the data records that carry file chunks.

use vstd::prelude::*;
use vstd::utf8::{decode_utf8, encode_utf8, valid_utf8};

use crate::be_bytes::{
    be16, be32, be64, lemma_be16, lemma_be32, lemma_be64, push_all, push_be16, push_be32, push_be64,
    read_array, read_be16, read_be32, read_be64, read_u16, read_u32, read_u64,
};
use crate::be_bytes::bytes_equal;
use crate::crypto::digest::{digest32, sha256_digest};
use crate::text::utf8_to_string;
use crate::protocol::pairing::{
    control_frame, halo_magic, has_halo_magic, lemma_frame_header, push_control_header, HEADER_LEN,
    MAX_FRAME_LEN,
};

verus! {

pub const TRANSFER_WIRE_VERSION: u16 = 1;

pub const TRANSFER_ID_LEN: usize = 16;

pub const CONTENT_DIGEST_LEN: usize = 32;

pub const MAX_FILE_NAME_LEN: usize = 255;

pub const MAX_FILE_SIZE: u64 = 10995116277760;

pub const DEFAULT_CHUNK_SIZE: u32 = 262144;

pub const MAX_CHUNK_SIZE: u32 = 262144;

pub const MAX_BATCH_FILES: usize = 8;

pub const BATCH_MANIFEST_DIGEST_LEN: usize = 32;

pub const DATA_RECORD_HEADER_LEN: usize = 64;

pub const MAX_DATA_RECORD_LEN: usize = 262208;

pub const OFFER_KIND: u8 = 32;

pub const DECISION_KIND: u8 = 33;

pub const COMPLETE_KIND: u8 = 34;

pub const CANCEL_KIND: u8 = 35;

pub const PAUSE_KIND: u8 = 36;

pub const OFFER_FIXED_LEN: usize = 64;

pub const FILE_FIXED_LEN: usize = 42;

pub const DECISION_FIXED_LEN: usize = 52;

pub const RESUME_POSITION_LEN: usize = 6;

pub const COMPLETE_LEN: usize = 48;

pub const CANCEL_LEN: usize = 17;

pub const PAUSE_LEN: usize = 49;

#[derive(Clone, Debug, PartialEq, Eq)]
pub enum TransferProtocolError {
    TruncatedHeader(usize),
    FrameTooLarge(usize),
    InvalidMagic,
    UnsupportedWireVersion(u16),
    UnknownMessageKind(u8),
    ReservedFlags(u8),
    PayloadLength { declared: usize, actual: usize },
    MessageLength { expected: usize, actual: usize },
    TruncatedManifest,
    TrailingManifestBytes(usize),
    ReservedManifestFlags,
    ReservedDecisionFlags,
    InvalidBoolean(u8),
    InvalidCancelReason(u8),
    InvalidPauseReason(u8),
    InvalidUtf8,
    InvalidFileNameLength(usize),
    FileTooLarge(u64),
    AggregateTooLarge,
    AggregateSizeMismatch,
    ManifestDigestMismatch,
    InvalidFileCount(usize),
    InvalidChunkSize(u32),
    InvalidResumePositionCount(usize),
    RejectedWithResumePositions,
    InvalidResumeFileIndex { expected: usize, actual: u16 },
    TruncatedDataHeader(usize),
    DataRecordTooLarge(usize),
    InvalidDataMagic,
    ReservedDataFlags(u16),
    InvalidChunkPayloadLength(usize),
    DataRecordLength { declared: usize, actual: usize },
}

/// One file entry as plain values.
pub struct FileView {
    pub size: u64,
    pub digest: Seq<u8>,
    pub name: Seq<char>,
}

/// A manifest as plain values.
pub struct ManifestView {
    pub transfer_id: Seq<u8>,
    pub chunk_size: u32,
    pub files: Seq<FileView>,
}

#[derive(Clone, Debug, PartialEq, Eq)]
pub struct ManifestFile {
    pub file_size: u64,
    pub file_digest: [u8; CONTENT_DIGEST_LEN],
    pub file_name: String,
}

impl View for ManifestFile {
    type V = FileView;

    open spec fn view(&self) -> FileView {
        FileView { size: self.file_size, digest: self.file_digest@, name: self.file_name@ }
    }
}

#[derive(Clone, Debug, PartialEq, Eq)]
pub struct TransferManifest {
    pub transfer_id: [u8; TRANSFER_ID_LEN],
    pub chunk_size: u32,
    pub files: Vec<ManifestFile>,
}

pub open spec fn files_view(files: Seq<ManifestFile>) -> Seq<FileView> {
    files.map_values(|f: ManifestFile| f@)
}

impl View for TransferManifest {
    type V = ManifestView;

    open spec fn view(&self) -> ManifestView {
        ManifestView {
            transfer_id: self.transfer_id@,
            chunk_size: self.chunk_size,
            files: files_view(self.files@),
        }
    }
}

/// The UTF-8 bytes of a file name.
pub open spec fn name_bytes(name: Seq<char>) -> Seq<u8> {
    encode_utf8(name)
}

/// The first rule that one file entry breaks, if any.
pub open spec fn file_error(size: u64, name_len: int) -> Option<TransferProtocolError> {
    if size > MAX_FILE_SIZE {
        Some(TransferProtocolError::FileTooLarge(size))
    } else if name_len == 0 || name_len > MAX_FILE_NAME_LEN {
        Some(TransferProtocolError::InvalidFileNameLength(name_len as usize))
    } else {
        None
    }
}

/// The first file entry, in order, that breaks a rule.
pub open spec fn files_error(fs: Seq<FileView>) -> Option<TransferProtocolError>
    decreases fs.len(),
{
    if fs.len() == 0 {
        None
    } else {
        match files_error(fs.drop_last()) {
            Some(e) => Some(e),
            None => file_error(fs.last().size, name_bytes(fs.last().name).len() as int),
        }
    }
}

/// Sum of the file sizes.
pub open spec fn sum_sizes(fs: Seq<FileView>) -> int
    decreases fs.len(),
{
    if fs.len() == 0 {
        0
    } else {
        sum_sizes(fs.drop_last()) + fs.last().size
    }
}

/// The aggregate size the manifest declares, or the error when it exceeds the limit.
pub open spec fn aggregate_of(fs: Seq<FileView>) -> Result<u64, TransferProtocolError> {
    if sum_sizes(fs) > MAX_FILE_SIZE {
        Err(TransferProtocolError::AggregateTooLarge)
    } else {
        Ok(sum_sizes(fs) as u64)
    }
}

/// The first rule a manifest breaks, in the order `TransferManifest::new` checks them.
pub open spec fn manifest_error(v: ManifestView) -> Option<TransferProtocolError> {
    if v.chunk_size == 0 || v.chunk_size > MAX_CHUNK_SIZE {
        Some(TransferProtocolError::InvalidChunkSize(v.chunk_size))
    } else if v.files.len() < 1 || v.files.len() > MAX_BATCH_FILES {
        Some(TransferProtocolError::InvalidFileCount(v.files.len() as usize))
    } else {
        match files_error(v.files) {
            Some(e) => Some(e),
            None => match aggregate_of(v.files) {
                Ok(_) => None,
                Err(e) => Some(e),
            },
        }
    }
}

pub open spec fn sat_u8(n: int) -> u8 {
    if n > 255 {
        255u8
    } else {
        n as u8
    }
}

pub open spec fn sat_u16(n: int) -> u16 {
    if n > 65535 {
        65535u16
    } else {
        n as u16
    }
}

/// The ASCII bytes `Halo Transfer Manifest v1` that open the digest input.
pub open spec fn manifest_domain() -> Seq<u8> {
    seq![
        72u8, 97u8, 108u8, 111u8, 32u8, 84u8, 114u8, 97u8, 110u8, 115u8, 102u8, 101u8, 114u8, 32u8,
        77u8, 97u8, 110u8, 105u8, 102u8, 101u8, 115u8, 116u8, 32u8, 118u8, 49u8,
    ]
}

pub open spec fn digest_entry(f: FileView) -> Seq<u8> {
    be64(f.size) + f.digest + be16(sat_u16(name_bytes(f.name).len() as int)) + name_bytes(f.name)
}

pub open spec fn digest_entries(fs: Seq<FileView>) -> Seq<u8>
    decreases fs.len(),
{
    if fs.len() == 0 {
        seq![]
    } else {
        digest_entries(fs.drop_last()) + digest_entry(fs.last())
    }
}

/// The bytes hashed into a manifest digest.
pub open spec fn digest_input(v: ManifestView) -> Seq<u8> {
    manifest_domain() + v.transfer_id + be32(v.chunk_size) + seq![sat_u8(v.files.len() as int)]
        + digest_entries(v.files)
}

/// The SHA-256 digest that binds every canonical field of a manifest.
pub open spec fn manifest_digest(v: ManifestView) -> Seq<u8> {
    digest32(digest_input(v))
}

/// One file entry on the wire.
pub open spec fn entry_bytes(f: FileView) -> Seq<u8> {
    be64(f.size) + f.digest + be16(name_bytes(f.name).len() as u16) + name_bytes(f.name)
}

pub open spec fn entries_bytes(fs: Seq<FileView>) -> Seq<u8>
    decreases fs.len(),
{
    if fs.len() == 0 {
        seq![]
    } else {
        entry_bytes(fs[0]) + entries_bytes(fs.drop_first())
    }
}

/// The payload of an offer frame.
pub open spec fn offer_payload(v: ManifestView) -> Seq<u8> {
    v.transfer_id + be32(v.chunk_size) + seq![v.files.len() as u8, 0u8, 0u8, 0u8] + be64(
        sum_sizes(v.files) as u64,
    ) + manifest_digest(v) + entries_bytes(v.files)
}


proof fn lemma_take_drop_last<T>(s: Seq<T>, i: int)
    requires
        0 <= i < s.len(),
    ensures
        s.take(i + 1).drop_last() == s.take(i),
        s.take(i + 1).last() == s[i],
{
    assert(s.take(i + 1).drop_last() =~= s.take(i));
}

/// The sum over a prefix never exceeds the sum over the whole sequence.
pub proof fn lemma_sum_sizes_prefix(fs: Seq<FileView>, i: int)
    requires
        0 <= i <= fs.len(),
    ensures
        sum_sizes(fs.take(i)) <= sum_sizes(fs),
    decreases fs.len() - i,
{
    if i < fs.len() {
        lemma_take_drop_last(fs, i);
        lemma_sum_sizes_prefix(fs, i + 1);
    } else {
        assert(fs.take(i) =~= fs);
    }
}

/// Sizes are unsigned, so their sum is too.
pub proof fn lemma_sum_sizes_nonneg(fs: Seq<FileView>)
    ensures
        sum_sizes(fs) >= 0,
    decreases fs.len(),
{
    if fs.len() > 0 {
        lemma_sum_sizes_nonneg(fs.drop_last());
    }
}

/// Appends the UTF-8 bytes of a file name.
fn push_name(out: &mut Vec<u8>, name: &String)
    ensures
        final(out)@ == old(out)@ + name_bytes(name@),
{
    push_all(out, name.as_str().as_bytes());
}

/// The number of UTF-8 bytes of a file name.
fn name_len(name: &String) -> (r: usize)
    ensures
        r == name_bytes(name@).len(),
{
    name.as_str().as_bytes().len()
}

fn validate_file(file_size: u64, file_name: &String) -> (r: Result<(), TransferProtocolError>)
    ensures
        match r {
            Ok(_) => file_error(file_size, name_bytes(file_name@).len() as int) is None,
            Err(e) => file_error(file_size, name_bytes(file_name@).len() as int) == Some(e),
        },
{
    if file_size > MAX_FILE_SIZE {
        return Err(TransferProtocolError::FileTooLarge(file_size));
    }
    let name_length = name_len(file_name);
    if name_length == 0 || name_length > MAX_FILE_NAME_LEN {
        return Err(TransferProtocolError::InvalidFileNameLength(name_length));
    }
    Ok(())
}

impl ManifestFile {
    pub fn new(file_size: u64, file_digest: [u8; CONTENT_DIGEST_LEN], file_name: String) -> (r:
        Result<Self, TransferProtocolError>)
        ensures
            match r {
                Ok(f) => f.file_size == file_size && f.file_digest == file_digest && f.file_name@
                    == file_name@ && file_error(file_size, name_bytes(file_name@).len() as int)
                    is None,
                Err(e) => file_error(file_size, name_bytes(file_name@).len() as int) == Some(e),
            },
    {
        match validate_file(file_size, &file_name) {
            Ok(()) => Ok(ManifestFile { file_size, file_digest, file_name }),
            Err(e) => Err(e),
        }
    }
}

fn aggregate_size(files: &Vec<ManifestFile>) -> (r: Result<u64, TransferProtocolError>)
    ensures
        r == aggregate_of(files_view(files@)),
        r matches Ok(total) ==> total == sum_sizes(files_view(files@)),
{
    proof {
        lemma_sum_sizes_nonneg(files_view(files@));
    }
    let ghost fv = files_view(files@);
    let mut total: u64 = 0;
    let mut i: usize = 0;
    while i < files.len()
        invariant
            fv == files_view(files@),
            i <= files@.len(),
            total == sum_sizes(fv.take(i as int)),
            total <= MAX_FILE_SIZE,
        decreases files@.len() - i,
    {
        proof {
            lemma_take_drop_last(fv, i as int);
        }
        let size = files[i].file_size;
        match total.checked_add(size) {
            Some(sum) => {
                if sum > MAX_FILE_SIZE {
                    proof {
                        lemma_sum_sizes_prefix(fv, i + 1);
                    }
                    return Err(TransferProtocolError::AggregateTooLarge);
                }
                total = sum;
            },
            None => {
                proof {
                    lemma_sum_sizes_prefix(fv, i + 1);
                }
                return Err(TransferProtocolError::AggregateTooLarge);
            },
        }
        i = i + 1;
    }
    assert(fv.take(i as int) =~= fv);
    Ok(total)
}

fn validate_files(files: &Vec<ManifestFile>) -> (r: Result<(), TransferProtocolError>)
    ensures
        match r {
            Ok(_) => files_error(files_view(files@)) is None,
            Err(e) => files_error(files_view(files@)) == Some(e),
        },
{
    let ghost fv = files_view(files@);
    let mut i: usize = 0;
    while i < files.len()
        invariant
            fv == files_view(files@),
            i <= files@.len(),
            files_error(fv.take(i as int)) is None,
        decreases files@.len() - i,
    {
        proof {
            lemma_take_drop_last(fv, i as int);
        }
        match validate_file(files[i].file_size, &files[i].file_name) {
            Ok(()) => {},
            Err(e) => {
                proof {
                    lemma_files_error_prefix(fv, i + 1);
                }
                return Err(e);
            },
        }
        i = i + 1;
    }
    assert(fv.take(i as int) =~= fv);
    Ok(())
}

/// Once a prefix has an error, the whole sequence has that same first error.
pub proof fn lemma_files_error_prefix(fs: Seq<FileView>, i: int)
    requires
        0 <= i <= fs.len(),
        files_error(fs.take(i)) is Some,
    ensures
        files_error(fs) == files_error(fs.take(i)),
    decreases fs.len() - i,
{
    if i < fs.len() {
        lemma_take_drop_last(fs, i);
        lemma_files_error_prefix(fs, i + 1);
    } else {
        assert(fs.take(i) =~= fs);
    }
}

fn validate_manifest(chunk_size: u32, files: &Vec<ManifestFile>) -> (r: Result<(), TransferProtocolError>)
    ensures
        ({
            let v = ManifestView {
                transfer_id: seq![],
                chunk_size,
                files: files_view(files@),
            };
            match r {
                Ok(_) => manifest_error(v) is None,
                Err(e) => manifest_error(v) == Some(e),
            }
        }),
{
    if chunk_size == 0 || chunk_size > MAX_CHUNK_SIZE {
        return Err(TransferProtocolError::InvalidChunkSize(chunk_size));
    }
    if files.len() < 1 || files.len() > MAX_BATCH_FILES {
        return Err(TransferProtocolError::InvalidFileCount(files.len()));
    }
    match validate_files(files) {
        Ok(()) => {},
        Err(e) => return Err(e),
    }
    match aggregate_size(files) {
        Ok(_) => Ok(()),
        Err(e) => Err(e),
    }
}

/// `manifest_error` does not depend on the transfer identifier.
pub proof fn lemma_manifest_error_ignores_id(a: ManifestView, b: ManifestView)
    requires
        a.chunk_size == b.chunk_size,
        a.files == b.files,
    ensures
        manifest_error(a) == manifest_error(b),
{
}

impl TransferManifest {
    pub fn new(
        transfer_id: [u8; TRANSFER_ID_LEN],
        chunk_size: u32,
        files: Vec<ManifestFile>,
    ) -> (r: Result<Self, TransferProtocolError>)
        ensures
            ({
                let v = ManifestView {
                    transfer_id: transfer_id@,
                    chunk_size,
                    files: files_view(files@),
                };
                match r {
                    Ok(m) => m.transfer_id == transfer_id && m.chunk_size == chunk_size && m.files@
                        == files@ && manifest_error(v) is None,
                    Err(e) => manifest_error(v) == Some(e),
                }
            }),
    {
        let r = validate_manifest(chunk_size, &files);
        proof {
            lemma_manifest_error_ignores_id(
                ManifestView { transfer_id: seq![], chunk_size, files: files_view(files@) },
                ManifestView { transfer_id: transfer_id@, chunk_size, files: files_view(files@) },
            );
        }
        match r {
            Ok(()) => Ok(TransferManifest { transfer_id, chunk_size, files }),
            Err(e) => Err(e),
        }
    }

    pub fn aggregate_size(&self) -> (r: Result<u64, TransferProtocolError>)
        ensures
            r == aggregate_of(self@.files),
            r matches Ok(total) ==> total == sum_sizes(self@.files),
    {
        aggregate_size(&self.files)
    }

    /// SHA-256 over the canonical fields, domain-separated.
    pub fn digest(&self) -> (r: [u8; BATCH_MANIFEST_DIGEST_LEN])
        ensures
            r@ == manifest_digest(self@),
    {
        let ghost fv = self@.files;
        let mut input: Vec<u8> = Vec::new();
        let domain: [u8; 25] = [
            72u8, 97u8, 108u8, 111u8, 32u8, 84u8, 114u8, 97u8, 110u8, 115u8, 102u8, 101u8, 114u8,
            32u8, 77u8, 97u8, 110u8, 105u8, 102u8, 101u8, 115u8, 116u8, 32u8, 118u8, 49u8,
        ];
        assert(domain@ =~= manifest_domain());
        push_all(&mut input, domain.as_slice());
        push_all(&mut input, self.transfer_id.as_slice());
        push_be32(&mut input, self.chunk_size);
        let count: u8 = if self.files.len() > 255 {
            255u8
        } else {
            self.files.len() as u8
        };
        input.push(count);
        let ghost head = input@;
        assert(head =~= manifest_domain() + self@.transfer_id + be32(self.chunk_size) + seq![
            sat_u8(fv.len() as int),
        ]);
        let mut i: usize = 0;
        while i < self.files.len()
            invariant
                fv == self@.files,
                i <= self.files@.len(),
                input@ == head + digest_entries(fv.take(i as int)),
            decreases self.files@.len() - i,
        {
            proof {
                lemma_take_drop_last(fv, i as int);
            }
            let file = &self.files[i];
            push_be64(&mut input, file.file_size);
            push_all(&mut input, file.file_digest.as_slice());
            let length = name_len(&file.file_name);
            let length16: u16 = if length > 65535 {
                65535u16
            } else {
                length as u16
            };
            push_be16(&mut input, length16);
            push_name(&mut input, &file.file_name);
            assert(input@ =~= head + digest_entries(fv.take(i + 1)));
            i = i + 1;
        }
        assert(fv.take(i as int) =~= fv);
        sha256_digest(input.as_slice())
    }
}


#[derive(Clone, Copy, Debug, PartialEq, Eq)]
pub struct ResumePosition {
    pub file_index: u16,
    pub next_chunk_index: u32,
}

/// A batch decision as plain values.
pub struct DecisionView {
    pub transfer_id: Seq<u8>,
    pub manifest_digest: Seq<u8>,
    pub accepted: bool,
    pub positions: Seq<ResumePosition>,
}

#[derive(Clone, Debug, PartialEq, Eq)]
pub struct BatchDecision {
    pub transfer_id: [u8; TRANSFER_ID_LEN],
    pub manifest_digest: [u8; BATCH_MANIFEST_DIGEST_LEN],
    pub accepted: bool,
    pub resume_positions: Vec<ResumePosition>,
}

impl View for BatchDecision {
    type V = DecisionView;

    open spec fn view(&self) -> DecisionView {
        DecisionView {
            transfer_id: self.transfer_id@,
            manifest_digest: self.manifest_digest@,
            accepted: self.accepted,
            positions: self.resume_positions@,
        }
    }
}

/// The first position, in order, whose file index is not its own index.
pub open spec fn index_error(ps: Seq<ResumePosition>) -> Option<TransferProtocolError>
    decreases ps.len(),
{
    if ps.len() == 0 {
        None
    } else {
        match index_error(ps.drop_last()) {
            Some(e) => Some(e),
            None => if ps.last().file_index != ps.len() - 1 {
                Some(
                    TransferProtocolError::InvalidResumeFileIndex {
                        expected: (ps.len() - 1) as usize,
                        actual: ps.last().file_index,
                    },
                )
            } else {
                None
            },
        }
    }
}

/// The first rule that a set of resume positions breaks.
pub open spec fn positions_error(accepted: bool, ps: Seq<ResumePosition>) -> Option<
    TransferProtocolError,
> {
    if !accepted && ps.len() != 0 {
        Some(TransferProtocolError::RejectedWithResumePositions)
    } else if ps.len() > MAX_BATCH_FILES {
        Some(TransferProtocolError::InvalidResumePositionCount(ps.len() as usize))
    } else {
        index_error(ps)
    }
}

pub open spec fn positions_bytes(ps: Seq<ResumePosition>) -> Seq<u8>
    decreases ps.len(),
{
    if ps.len() == 0 {
        seq![]
    } else {
        positions_bytes(ps.drop_last()) + be16(ps.last().file_index) + be32(
            ps.last().next_chunk_index,
        )
    }
}

pub open spec fn decision_payload(d: DecisionView) -> Seq<u8> {
    d.transfer_id + d.manifest_digest + seq![if d.accepted { 1u8 } else { 0u8 }, d.positions.len() as u8]
        + be16(0) + positions_bytes(d.positions)
}

proof fn lemma_index_error_prefix(ps: Seq<ResumePosition>, i: int)
    requires
        0 <= i <= ps.len(),
        index_error(ps.take(i)) is Some,
    ensures
        index_error(ps) == index_error(ps.take(i)),
    decreases ps.len() - i,
{
    if i < ps.len() {
        lemma_take_drop_last(ps, i);
        lemma_index_error_prefix(ps, i + 1);
    } else {
        assert(ps.take(i) =~= ps);
    }
}

fn validate_resume_positions(accepted: bool, positions: &Vec<ResumePosition>) -> (r: Result<
    (),
    TransferProtocolError,
>)
    ensures
        match r {
            Ok(_) => positions_error(accepted, positions@) is None,
            Err(e) => positions_error(accepted, positions@) == Some(e),
        },
{
    if !accepted && positions.len() != 0 {
        return Err(TransferProtocolError::RejectedWithResumePositions);
    }
    if positions.len() > MAX_BATCH_FILES {
        return Err(TransferProtocolError::InvalidResumePositionCount(positions.len()));
    }
    let ghost ps = positions@;
    let mut i: usize = 0;
    while i < positions.len()
        invariant
            ps == positions@,
            i <= ps.len(),
            index_error(ps.take(i as int)) is None,
            positions_error(accepted, ps) == index_error(ps),
        decreases ps.len() - i,
    {
        proof {
            lemma_take_drop_last(ps, i as int);
        }
        if positions[i].file_index as usize != i {
            proof {
                let t = ps.take(i + 1);
                assert(t.drop_last() == ps.take(i as int));
                assert(t.last() == ps[i as int]);
                assert(index_error(t) == Some(
                    TransferProtocolError::InvalidResumeFileIndex {
                        expected: i,
                        actual: positions[i as int].file_index,
                    },
                ));
                lemma_index_error_prefix(ps, i + 1);
            }
            return Err(
                TransferProtocolError::InvalidResumeFileIndex {
                    expected: i,
                    actual: positions[i].file_index,
                },
            );
        }
        i = i + 1;
    }
    assert(ps.take(i as int) =~= ps);
    Ok(())
}

impl BatchDecision {
    pub fn new(
        transfer_id: [u8; TRANSFER_ID_LEN],
        manifest_digest: [u8; BATCH_MANIFEST_DIGEST_LEN],
        accepted: bool,
        resume_positions: Vec<ResumePosition>,
    ) -> (r: Result<Self, TransferProtocolError>)
        ensures
            match r {
                Ok(d) => d.transfer_id == transfer_id && d.manifest_digest == manifest_digest
                    && d.accepted == accepted && d.resume_positions@ == resume_positions@
                    && positions_error(accepted, resume_positions@) is None,
                Err(e) => positions_error(accepted, resume_positions@) == Some(e),
            },
    {
        match validate_resume_positions(accepted, &resume_positions) {
            Ok(()) => Ok(BatchDecision { transfer_id, manifest_digest, accepted, resume_positions }),
            Err(e) => Err(e),
        }
    }
}

#[derive(Clone, Debug, PartialEq, Eq)]
pub struct BatchComplete {
    pub transfer_id: [u8; TRANSFER_ID_LEN],
    pub manifest_digest: [u8; BATCH_MANIFEST_DIGEST_LEN],
}

/// Why one side cancelled a batch. Wire codes are 1 to 5 in declaration order.
#[derive(Clone, Copy, Debug, PartialEq, Eq)]
pub enum BatchCancelReason {
    User,
    Policy,
    Integrity,
    Storage,
    Protocol,
}

pub open spec fn cancel_code(r: BatchCancelReason) -> u8 {
    match r {
        BatchCancelReason::User => 1u8,
        BatchCancelReason::Policy => 2u8,
        BatchCancelReason::Integrity => 3u8,
        BatchCancelReason::Storage => 4u8,
        BatchCancelReason::Protocol => 5u8,
    }
}

pub open spec fn cancel_reason_of(value: u8) -> Result<BatchCancelReason, TransferProtocolError> {
    if value == 1 {
        Ok(BatchCancelReason::User)
    } else if value == 2 {
        Ok(BatchCancelReason::Policy)
    } else if value == 3 {
        Ok(BatchCancelReason::Integrity)
    } else if value == 4 {
        Ok(BatchCancelReason::Storage)
    } else if value == 5 {
        Ok(BatchCancelReason::Protocol)
    } else {
        Err(TransferProtocolError::InvalidCancelReason(value))
    }
}

impl BatchCancelReason {
    pub fn code(self) -> (r: u8)
        ensures
            r == cancel_code(self),
    {
        match self {
            BatchCancelReason::User => 1,
            BatchCancelReason::Policy => 2,
            BatchCancelReason::Integrity => 3,
            BatchCancelReason::Storage => 4,
            BatchCancelReason::Protocol => 5,
        }
    }

    pub fn try_from(value: u8) -> (r: Result<Self, TransferProtocolError>)
        ensures
            r == cancel_reason_of(value),
    {
        match value {
            1 => Ok(BatchCancelReason::User),
            2 => Ok(BatchCancelReason::Policy),
            3 => Ok(BatchCancelReason::Integrity),
            4 => Ok(BatchCancelReason::Storage),
            5 => Ok(BatchCancelReason::Protocol),
            _ => Err(TransferProtocolError::InvalidCancelReason(value)),
        }
    }
}

#[derive(Clone, Debug, PartialEq, Eq)]
pub struct BatchCancel {
    pub transfer_id: [u8; TRANSFER_ID_LEN],
    pub reason: BatchCancelReason,
}

/// Why one side paused a batch. Wire codes are 1 to 3 in declaration order.
#[derive(Clone, Copy, Debug, PartialEq, Eq)]
pub enum BatchPauseReason {
    User,
    RouteLost,
    AppLifecycle,
}

pub open spec fn pause_code(r: BatchPauseReason) -> u8 {
    match r {
        BatchPauseReason::User => 1u8,
        BatchPauseReason::RouteLost => 2u8,
        BatchPauseReason::AppLifecycle => 3u8,
    }
}

pub open spec fn pause_reason_of(value: u8) -> Result<BatchPauseReason, TransferProtocolError> {
    if value == 1 {
        Ok(BatchPauseReason::User)
    } else if value == 2 {
        Ok(BatchPauseReason::RouteLost)
    } else if value == 3 {
        Ok(BatchPauseReason::AppLifecycle)
    } else {
        Err(TransferProtocolError::InvalidPauseReason(value))
    }
}

impl BatchPauseReason {
    pub fn code(self) -> (r: u8)
        ensures
            r == pause_code(self),
    {
        match self {
            BatchPauseReason::User => 1,
            BatchPauseReason::RouteLost => 2,
            BatchPauseReason::AppLifecycle => 3,
        }
    }

    pub fn try_from(value: u8) -> (r: Result<Self, TransferProtocolError>)
        ensures
            r == pause_reason_of(value),
    {
        match value {
            1 => Ok(BatchPauseReason::User),
            2 => Ok(BatchPauseReason::RouteLost),
            3 => Ok(BatchPauseReason::AppLifecycle),
            _ => Err(TransferProtocolError::InvalidPauseReason(value)),
        }
    }
}

#[derive(Clone, Debug, PartialEq, Eq)]
pub struct BatchPause {
    pub transfer_id: [u8; TRANSFER_ID_LEN],
    pub manifest_digest: [u8; BATCH_MANIFEST_DIGEST_LEN],
    pub reason: BatchPauseReason,
}

#[derive(Clone, Debug, PartialEq, Eq)]
pub enum TransferMessage {
    Offer(TransferManifest),
    Decision(BatchDecision),
    Complete(BatchComplete),
    Cancel(BatchCancel),
    Pause(BatchPause),
}

/// A transfer control message as plain values.
pub enum TransferMessageView {
    Offer(ManifestView),
    Decision(DecisionView),
    Complete { transfer_id: Seq<u8>, manifest_digest: Seq<u8> },
    Cancel { transfer_id: Seq<u8>, reason: BatchCancelReason },
    Pause { transfer_id: Seq<u8>, manifest_digest: Seq<u8>, reason: BatchPauseReason },
}

impl View for TransferMessage {
    type V = TransferMessageView;

    open spec fn view(&self) -> TransferMessageView {
        match self {
            TransferMessage::Offer(m) => TransferMessageView::Offer(m@),
            TransferMessage::Decision(d) => TransferMessageView::Decision(d@),
            TransferMessage::Complete(c) => TransferMessageView::Complete {
                transfer_id: c.transfer_id@,
                manifest_digest: c.manifest_digest@,
            },
            TransferMessage::Cancel(c) => TransferMessageView::Cancel {
                transfer_id: c.transfer_id@,
                reason: c.reason,
            },
            TransferMessage::Pause(p) => TransferMessageView::Pause {
                transfer_id: p.transfer_id@,
                manifest_digest: p.manifest_digest@,
                reason: p.reason,
            },
        }
    }
}

pub open spec fn transfer_kind(v: TransferMessageView) -> u8 {
    match v {
        TransferMessageView::Offer(_) => OFFER_KIND,
        TransferMessageView::Decision(_) => DECISION_KIND,
        TransferMessageView::Complete { .. } => COMPLETE_KIND,
        TransferMessageView::Cancel { .. } => CANCEL_KIND,
        TransferMessageView::Pause { .. } => PAUSE_KIND,
    }
}

pub open spec fn transfer_payload(v: TransferMessageView) -> Seq<u8> {
    match v {
        TransferMessageView::Offer(m) => offer_payload(m),
        TransferMessageView::Decision(d) => decision_payload(d),
        TransferMessageView::Complete { transfer_id, manifest_digest } => transfer_id
            + manifest_digest,
        TransferMessageView::Cancel { transfer_id, reason } => transfer_id + seq![
            cancel_code(reason),
        ],
        TransferMessageView::Pause { transfer_id, manifest_digest, reason } => transfer_id
            + manifest_digest + seq![pause_code(reason)],
    }
}

/// The canonical frame of a transfer message.
pub open spec fn encoded_transfer(v: TransferMessageView) -> Seq<u8> {
    control_frame(transfer_kind(v), transfer_payload(v))
}

/// Why a message cannot be encoded, if it cannot.
pub open spec fn transfer_encode_error(v: TransferMessageView) -> Option<TransferProtocolError> {
    match v {
        TransferMessageView::Offer(m) => manifest_error(m),
        TransferMessageView::Decision(d) => positions_error(d.accepted, d.positions),
        _ => None,
    }
}


/// Parses `n` file entries starting at `offset`: the entries and the offset
/// just past them, or the first error the decoder reports.
#[verifier::opaque]
pub open spec fn parse_entries(p: Seq<u8>, offset: int, n: nat) -> Result<
    (Seq<FileView>, int),
    TransferProtocolError,
>
    decreases n,
{
    if n == 0 {
        Ok((seq![], offset))
    } else if offset + FILE_FIXED_LEN > p.len() {
        Err(TransferProtocolError::TruncatedManifest)
    } else {
        let name_len = read_be16(p, offset + 40) as int;
        let name_end = offset + FILE_FIXED_LEN + name_len;
        if name_end > p.len() {
            Err(TransferProtocolError::TruncatedManifest)
        } else if !valid_utf8(p.subrange(offset + FILE_FIXED_LEN, name_end)) {
            Err(TransferProtocolError::InvalidUtf8)
        } else {
            match file_error(read_be64(p, offset), name_len) {
                Some(e) => Err(e),
                None => {
                    let f = FileView {
                        size: read_be64(p, offset),
                        digest: p.subrange(offset + 8, offset + 40),
                        name: decode_utf8(p.subrange(offset + FILE_FIXED_LEN, name_end)),
                    };
                    match parse_entries(p, name_end, (n - 1) as nat) {
                        Ok((rest, end)) => Ok((seq![f] + rest, end)),
                        Err(e) => Err(e),
                    }
                },
            }
        }
    }
}

/// Decodes an offer payload into a manifest.
pub open spec fn decode_offer(p: Seq<u8>) -> Result<ManifestView, TransferProtocolError> {
    if p.len() < OFFER_FIXED_LEN {
        Err(TransferProtocolError::MessageLength { expected: OFFER_FIXED_LEN, actual: p.len() as usize })
    } else if p.subrange(21, 24) != seq![0u8, 0u8, 0u8] {
        Err(TransferProtocolError::ReservedManifestFlags)
    } else if p[20] < 1 || p[20] > MAX_BATCH_FILES {
        Err(TransferProtocolError::InvalidFileCount(p[20] as usize))
    } else {
        match parse_entries(p, OFFER_FIXED_LEN as int, p[20] as nat) {
            Err(e) => Err(e),
            Ok((fs, end)) => if end != p.len() {
                Err(TransferProtocolError::TrailingManifestBytes((p.len() - end) as usize))
            } else {
                let v = ManifestView {
                    transfer_id: p.subrange(0, 16),
                    chunk_size: read_be32(p, 16),
                    files: fs,
                };
                match manifest_error(v) {
                    Some(e) => Err(e),
                    None => if sum_sizes(fs) != read_be64(p, 24) {
                        Err(TransferProtocolError::AggregateSizeMismatch)
                    } else if manifest_digest(v) != p.subrange(32, 64) {
                        Err(TransferProtocolError::ManifestDigestMismatch)
                    } else {
                        Ok(v)
                    },
                }
            },
        }
    }
}

/// The resume position stored at index `i` of a decision payload.
pub open spec fn position_at(p: Seq<u8>, i: int) -> ResumePosition {
    ResumePosition {
        file_index: read_be16(p, DECISION_FIXED_LEN + i * RESUME_POSITION_LEN),
        next_chunk_index: read_be32(p, DECISION_FIXED_LEN + i * RESUME_POSITION_LEN + 2),
    }
}

/// Decodes a decision payload.
pub open spec fn decode_decision(p: Seq<u8>) -> Result<DecisionView, TransferProtocolError> {
    if p.len() < DECISION_FIXED_LEN {
        Err(
            TransferProtocolError::MessageLength {
                expected: DECISION_FIXED_LEN,
                actual: p.len() as usize,
            },
        )
    } else if p[48] > 1 {
        Err(TransferProtocolError::InvalidBoolean(p[48]))
    } else if read_be16(p, 50) != 0 {
        Err(TransferProtocolError::ReservedDecisionFlags)
    } else if DECISION_FIXED_LEN + p[49] * RESUME_POSITION_LEN != p.len() {
        Err(
            TransferProtocolError::MessageLength {
                expected: (DECISION_FIXED_LEN + p[49] * RESUME_POSITION_LEN) as usize,
                actual: p.len() as usize,
            },
        )
    } else {
        let ps = Seq::new(p[49] as nat, |i: int| position_at(p, i));
        match positions_error(p[48] == 1, ps) {
            Some(e) => Err(e),
            None => Ok(
                DecisionView {
                    transfer_id: p.subrange(0, 16),
                    manifest_digest: p.subrange(16, 48),
                    accepted: p[48] == 1,
                    positions: ps,
                },
            ),
        }
    }
}

pub open spec fn length_error(p: Seq<u8>, expected: usize) -> Option<TransferProtocolError> {
    if p.len() != expected {
        Some(TransferProtocolError::MessageLength { expected, actual: p.len() as usize })
    } else {
        None
    }
}

/// Decodes a payload of the given kind.
pub open spec fn decode_transfer_payload(kind: u8, p: Seq<u8>) -> Result<
    TransferMessageView,
    TransferProtocolError,
> {
    if kind == OFFER_KIND {
        match decode_offer(p) {
            Ok(m) => Ok(TransferMessageView::Offer(m)),
            Err(e) => Err(e),
        }
    } else if kind == DECISION_KIND {
        match decode_decision(p) {
            Ok(d) => Ok(TransferMessageView::Decision(d)),
            Err(e) => Err(e),
        }
    } else if kind == COMPLETE_KIND {
        match length_error(p, COMPLETE_LEN) {
            Some(e) => Err(e),
            None => Ok(
                TransferMessageView::Complete {
                    transfer_id: p.subrange(0, 16),
                    manifest_digest: p.subrange(16, 48),
                },
            ),
        }
    } else if kind == CANCEL_KIND {
        match length_error(p, CANCEL_LEN) {
            Some(e) => Err(e),
            None => match cancel_reason_of(p[16]) {
                Ok(reason) => Ok(TransferMessageView::Cancel { transfer_id: p.subrange(0, 16), reason }),
                Err(e) => Err(e),
            },
        }
    } else if kind == PAUSE_KIND {
        match length_error(p, PAUSE_LEN) {
            Some(e) => Err(e),
            None => match pause_reason_of(p[48]) {
                Ok(reason) => Ok(
                    TransferMessageView::Pause {
                        transfer_id: p.subrange(0, 16),
                        manifest_digest: p.subrange(16, 48),
                        reason,
                    },
                ),
                Err(e) => Err(e),
            },
        }
    } else {
        Err(TransferProtocolError::UnknownMessageKind(kind))
    }
}

/// The first header check a transfer frame fails.
pub open spec fn transfer_header_error(f: Seq<u8>) -> Option<TransferProtocolError> {
    if f.len() < HEADER_LEN {
        Some(TransferProtocolError::TruncatedHeader(f.len() as usize))
    } else if f.len() > MAX_FRAME_LEN {
        Some(TransferProtocolError::FrameTooLarge(f.len() as usize))
    } else if f.subrange(0, 4) != halo_magic() {
        Some(TransferProtocolError::InvalidMagic)
    } else if read_be16(f, 4) != TRANSFER_WIRE_VERSION {
        Some(TransferProtocolError::UnsupportedWireVersion(read_be16(f, 4)))
    } else if f[7] != 0 {
        Some(TransferProtocolError::ReservedFlags(f[7]))
    } else if read_be32(f, 8) != f.len() - HEADER_LEN {
        Some(
            TransferProtocolError::PayloadLength {
                declared: read_be32(f, 8) as usize,
                actual: (f.len() - HEADER_LEN) as usize,
            },
        )
    } else {
        None
    }
}

/// What decoding a transfer frame gives.
pub open spec fn decode_transfer(f: Seq<u8>) -> Result<TransferMessageView, TransferProtocolError> {
    match transfer_header_error(f) {
        Some(e) => Err(e),
        None => decode_transfer_payload(f[6], f.subrange(HEADER_LEN as int, f.len() as int)),
    }
}

pub open spec fn transfer_result_view(r: Result<TransferMessage, TransferProtocolError>) -> Result<
    TransferMessageView,
    TransferProtocolError,
> {
    match r {
        Ok(m) => Ok(m@),
        Err(e) => Err(e),
    }
}


proof fn lemma_entries_push(a: Seq<FileView>, x: FileView)
    ensures
        entries_bytes(a.push(x)) == entries_bytes(a) + entry_bytes(x),
    decreases a.len(),
{
    if a.len() == 0 {
        assert(a.push(x).drop_first() =~= Seq::<FileView>::empty());
        assert(a.push(x)[0] == x);
        assert(entries_bytes(Seq::<FileView>::empty()) =~= Seq::<u8>::empty());
        assert(entries_bytes(a.push(x)) =~= entry_bytes(x));
        assert(entries_bytes(a) =~= Seq::<u8>::empty());
    } else {
        assert(a.push(x).drop_first() =~= a.drop_first().push(x));
        assert(a.push(x)[0] == a[0]);
        lemma_entries_push(a.drop_first(), x);
        assert(entries_bytes(a.push(x)) =~= entries_bytes(a) + entry_bytes(x));
    }
}

/// Every entry of a sequence without a first error is itself valid.
pub proof fn lemma_files_error_none(fs: Seq<FileView>)
    requires
        files_error(fs) is None,
    ensures
        forall|i: int|
            0 <= i < fs.len() ==> #[trigger] file_error(
                fs[i].size,
                name_bytes(fs[i].name).len() as int,
            ) is None,
    decreases fs.len(),
{
    if fs.len() > 0 {
        lemma_files_error_none(fs.drop_last());
        assert forall|i: int| 0 <= i < fs.len() implies #[trigger] file_error(
            fs[i].size,
            name_bytes(fs[i].name).len() as int,
        ) is None by {
            if i < fs.len() - 1 {
                assert(fs[i] == fs.drop_last()[i]);
            }
        }
    }
}

/// File entries whose digests have the fixed digest length.
pub open spec fn files_shaped(fs: Seq<FileView>) -> bool {
    forall|i: int| 0 <= i < fs.len() ==> (#[trigger] fs[i]).digest.len() == CONTENT_DIGEST_LEN
}

/// A message view whose identifiers and digests have their fixed lengths,
/// as every view of a `TransferMessage` has.
pub open spec fn transfer_shaped(v: TransferMessageView) -> bool {
    match v {
        TransferMessageView::Offer(m) => m.transfer_id.len() == TRANSFER_ID_LEN && files_shaped(
            m.files,
        ),
        TransferMessageView::Decision(d) => d.transfer_id.len() == TRANSFER_ID_LEN
            && d.manifest_digest.len() == BATCH_MANIFEST_DIGEST_LEN,
        TransferMessageView::Complete { transfer_id, manifest_digest } => transfer_id.len()
            == TRANSFER_ID_LEN && manifest_digest.len() == BATCH_MANIFEST_DIGEST_LEN,
        TransferMessageView::Cancel { transfer_id, .. } => transfer_id.len() == TRANSFER_ID_LEN,
        TransferMessageView::Pause { transfer_id, manifest_digest, .. } => transfer_id.len()
            == TRANSFER_ID_LEN && manifest_digest.len() == BATCH_MANIFEST_DIGEST_LEN,
    }
}

proof fn lemma_entries_len(fs: Seq<FileView>)
    requires
        files_shaped(fs),
        forall|i: int|
            0 <= i < fs.len() ==> #[trigger] file_error(
                fs[i].size,
                name_bytes(fs[i].name).len() as int,
            ) is None,
    ensures
        entries_bytes(fs).len() <= fs.len() * (FILE_FIXED_LEN + MAX_FILE_NAME_LEN),
    decreases fs.len(),
{
    if fs.len() > 0 {
        assert(file_error(fs[0].size, name_bytes(fs[0].name).len() as int) is None);
        assert forall|i: int| 0 <= i < fs.drop_first().len() implies #[trigger] file_error(
            fs.drop_first()[i].size,
            name_bytes(fs.drop_first()[i].name).len() as int,
        ) is None by {
            assert(fs.drop_first()[i] == fs[i + 1]);
        }
        assert(fs[0].digest.len() == CONTENT_DIGEST_LEN);
        lemma_entries_len(fs.drop_first());
        assert(fs.drop_first().len() * (FILE_FIXED_LEN + MAX_FILE_NAME_LEN) + FILE_FIXED_LEN
            + MAX_FILE_NAME_LEN == fs.len() * (FILE_FIXED_LEN + MAX_FILE_NAME_LEN)) by (nonlinear_arith)
            requires
                fs.drop_first().len() + 1 == fs.len(),
        ;
    }
}

proof fn lemma_positions_bytes_len(ps: Seq<ResumePosition>)
    ensures
        positions_bytes(ps).len() == ps.len() * RESUME_POSITION_LEN,
    decreases ps.len(),
{
    if ps.len() > 0 {
        lemma_positions_bytes_len(ps.drop_last());
    }
}

/// A valid message's payload fits the control frame limit.
pub proof fn lemma_transfer_payload_bounded(v: TransferMessageView)
    requires
        transfer_encode_error(v) is None,
        transfer_shaped(v),
    ensures
        transfer_payload(v).len() <= MAX_FRAME_LEN - HEADER_LEN,
{
    match v {
        TransferMessageView::Offer(m) => {
            lemma_files_error_none(m.files);
            lemma_entries_len(m.files);
            assert(m.files.len() * (FILE_FIXED_LEN + MAX_FILE_NAME_LEN) <= 8 * (FILE_FIXED_LEN
                + MAX_FILE_NAME_LEN)) by (nonlinear_arith)
                requires
                    m.files.len() <= 8,
            ;
        },
        TransferMessageView::Decision(d) => {
            lemma_positions_bytes_len(d.positions);
        },
        _ => {},
    }
}

fn push_entry(out: &mut Vec<u8>, file: &ManifestFile)
    ensures
        final(out)@ == old(out)@ + entry_bytes(file@),
{
    push_be64(out, file.file_size);
    push_all(out, file.file_digest.as_slice());
    let length = name_len(&file.file_name);
    push_be16(out, length as u16);
    push_name(out, &file.file_name);
    assert(final(out)@ =~= old(out)@ + entry_bytes(file@));
}

fn encode_manifest(manifest: &TransferManifest) -> (r: Result<Vec<u8>, TransferProtocolError>)
    ensures
        match r {
            Ok(p) => p@ == offer_payload(manifest@) && manifest_error(manifest@) is None,
            Err(e) => manifest_error(manifest@) == Some(e),
        },
{
    match validate_manifest(manifest.chunk_size, &manifest.files) {
        Ok(()) => {},
        Err(e) => return Err(e),
    }
    let aggregate = match manifest.aggregate_size() {
        Ok(total) => total,
        Err(e) => return Err(e),
    };
    let ghost fv = manifest@.files;
    let mut payload: Vec<u8> = Vec::new();
    push_all(&mut payload, manifest.transfer_id.as_slice());
    push_be32(&mut payload, manifest.chunk_size);
    payload.push(manifest.files.len() as u8);
    payload.push(0u8);
    payload.push(0u8);
    payload.push(0u8);
    push_be64(&mut payload, aggregate);
    let digest = manifest.digest();
    push_all(&mut payload, digest.as_slice());
    let ghost head = payload@;
    let mut i: usize = 0;
    while i < manifest.files.len()
        invariant
            fv == manifest@.files,
            i <= manifest.files@.len(),
            payload@ == head + entries_bytes(fv.take(i as int)),
        decreases manifest.files@.len() - i,
    {
        proof {
            assert(fv.take(i + 1) =~= fv.take(i as int).push(fv[i as int]));
            lemma_entries_push(fv.take(i as int), fv[i as int]);
        }
        push_entry(&mut payload, &manifest.files[i]);
        i = i + 1;
    }
    assert(fv.take(i as int) =~= fv);
    assert(payload@ =~= offer_payload(manifest@));
    Ok(payload)
}

fn encode_decision(decision: &BatchDecision) -> (r: Result<Vec<u8>, TransferProtocolError>)
    ensures
        match r {
            Ok(p) => p@ == decision_payload(decision@) && positions_error(
                decision.accepted,
                decision.resume_positions@,
            ) is None,
            Err(e) => positions_error(decision.accepted, decision.resume_positions@) == Some(e),
        },
{
    match validate_resume_positions(decision.accepted, &decision.resume_positions) {
        Ok(()) => {},
        Err(e) => return Err(e),
    }
    let ghost ps = decision.resume_positions@;
    let mut payload: Vec<u8> = Vec::new();
    push_all(&mut payload, decision.transfer_id.as_slice());
    push_all(&mut payload, decision.manifest_digest.as_slice());
    payload.push(if decision.accepted { 1u8 } else { 0u8 });
    payload.push(decision.resume_positions.len() as u8);
    push_be16(&mut payload, 0u16);
    let ghost head = payload@;
    let mut i: usize = 0;
    while i < decision.resume_positions.len()
        invariant
            ps == decision.resume_positions@,
            i <= ps.len(),
            payload@ == head + positions_bytes(ps.take(i as int)),
        decreases ps.len() - i,
    {
        proof {
            lemma_take_drop_last(ps, i as int);
        }
        let position = decision.resume_positions[i];
        push_be16(&mut payload, position.file_index);
        push_be32(&mut payload, position.next_chunk_index);
        assert(payload@ =~= head + positions_bytes(ps.take(i + 1)));
        i = i + 1;
    }
    assert(ps.take(i as int) =~= ps);
    assert(payload@ =~= decision_payload(decision@));
    Ok(payload)
}

/// Prefixes the entries already parsed to a parse result.
pub open spec fn prepend_entries(
    done: Seq<FileView>,
    r: Result<(Seq<FileView>, int), TransferProtocolError>,
) -> Result<(Seq<FileView>, int), TransferProtocolError> {
    match r {
        Ok((rest, end)) => Ok((done + rest, end)),
        Err(e) => Err(e),
    }
}

fn decode_manifest(p: &[u8]) -> (r: Result<TransferManifest, TransferProtocolError>)
    requires
        p@.len() <= MAX_FRAME_LEN,
    ensures
        match r {
            Ok(m) => decode_offer(p@) == Ok::<ManifestView, TransferProtocolError>(m@),
            Err(e) => decode_offer(p@) == Err::<ManifestView, TransferProtocolError>(e),
        },
{
    if p.len() < OFFER_FIXED_LEN {
        return Err(TransferProtocolError::MessageLength { expected: OFFER_FIXED_LEN, actual: p.len() });
    }
    if p[21] != 0 || p[22] != 0 || p[23] != 0 {
        proof {
            if p@.subrange(21, 24) == seq![0u8, 0u8, 0u8] {
                assert(p@[21] == p@.subrange(21, 24)[0]);
                assert(p@[22] == p@.subrange(21, 24)[1]);
                assert(p@[23] == p@.subrange(21, 24)[2]);
            }
        }
        return Err(TransferProtocolError::ReservedManifestFlags);
    }
    assert(p@.subrange(21, 24) =~= seq![0u8, 0u8, 0u8]);
    let file_count = p[20] as usize;
    if file_count < 1 || file_count > MAX_BATCH_FILES {
        return Err(TransferProtocolError::InvalidFileCount(file_count));
    }
    let ghost count = file_count as nat;
    let mut offset: usize = OFFER_FIXED_LEN;
    let mut files: Vec<ManifestFile> = Vec::new();
    let mut i: usize = 0;
    while i < file_count
        invariant
            i <= file_count,
            count == file_count,
            file_count <= MAX_BATCH_FILES,
            file_count == p@[20],
            p@.len() <= MAX_FRAME_LEN,
            p@.len() >= OFFER_FIXED_LEN,
            p@.subrange(21, 24) == seq![0u8, 0u8, 0u8],
            offset <= p@.len(),
            files@.len() == i,
            parse_entries(p@, OFFER_FIXED_LEN as int, count) == prepend_entries(
                files_view(files@),
                parse_entries(p@, offset as int, (count - i) as nat),
            ),
        decreases file_count - i,
    {
        let ghost done = files_view(files@);
        let ghost n = (count - i) as nat;
        proof {
            reveal(parse_entries);
        }
        if offset + FILE_FIXED_LEN > p.len() {
            return Err(TransferProtocolError::TruncatedManifest);
        }
        let fixed_end = offset + FILE_FIXED_LEN;
        let name_length = read_u16(p, offset + 40) as usize;
        if fixed_end + name_length > p.len() {
            return Err(TransferProtocolError::TruncatedManifest);
        }
        let name_end = fixed_end + name_length;
        let name_slice = &p[fixed_end..name_end];
        let file_name = match utf8_to_string(name_slice) {
            Some(text) => text,
            None => return Err(TransferProtocolError::InvalidUtf8),
        };
        proof {
            vstd::utf8::decode_utf8_encode_utf8(name_slice@);
        }
        let size = read_u64(p, offset);
        let digest = read_array::<CONTENT_DIGEST_LEN>(p, offset + 8);
        let file = match ManifestFile::new(size, digest, file_name) {
            Ok(file) => file,
            Err(e) => return Err(e),
        };
        proof {
            let f = FileView {
                size: read_be64(p@, offset as int),
                digest: p@.subrange(offset + 8, offset + 40),
                name: decode_utf8(p@.subrange(fixed_end as int, name_end as int)),
            };
            assert(file@ == f);
            let r2 = parse_entries(p@, name_end as int, (n - 1) as nat);
            assert(parse_entries(p@, offset as int, n) == prepend_entries(seq![f], r2));
            assert(files_view(files@.push(file)) =~= done.push(f));
            match r2 {
                Ok((rest, end)) => {
                    assert(done.push(f) + rest =~= done + (seq![f] + rest));
                },
                Err(_) => {},
            }
        }
        files.push(file);
        offset = name_end;
        i = i + 1;
    }
    assert(parse_entries(p@, offset as int, 0) == Ok::<(Seq<FileView>, int), TransferProtocolError>(
        (seq![], offset as int),
    )) by {
        reveal(parse_entries);
    }
    assert(files_view(files@) + seq![] =~= files_view(files@));
    if offset != p.len() {
        return Err(TransferProtocolError::TrailingManifestBytes(p.len() - offset));
    }
    let manifest = match TransferManifest::new(
        read_array::<TRANSFER_ID_LEN>(p, 0),
        read_u32(p, TRANSFER_ID_LEN),
        files,
    ) {
        Ok(m) => m,
        Err(e) => return Err(e),
    };
    let aggregate = match manifest.aggregate_size() {
        Ok(total) => total,
        Err(e) => return Err(e),
    };
    if aggregate != read_u64(p, 24) {
        return Err(TransferProtocolError::AggregateSizeMismatch);
    }
    let digest = manifest.digest();
    let ghost v = ManifestView {
        transfer_id: p@.subrange(0, 16),
        chunk_size: read_be32(p@, 16),
        files: manifest@.files,
    };
    assert(manifest@.transfer_id =~= v.transfer_id);
    assert(manifest@ == v);
    assert(parse_entries(p@, OFFER_FIXED_LEN as int, p@[20] as nat) == Ok::<
        (Seq<FileView>, int),
        TransferProtocolError,
    >((v.files, p@.len() as int)));
    assert(manifest_error(v) is None);
    assert(sum_sizes(v.files) == read_be64(p@, 24));
    if !bytes_equal(digest.as_slice(), &p[32..64]) {
        return Err(TransferProtocolError::ManifestDigestMismatch);
    }
    Ok(manifest)
}

fn decode_decision_payload(p: &[u8]) -> (r: Result<BatchDecision, TransferProtocolError>)
    ensures
        match r {
            Ok(d) => decode_decision(p@) == Ok::<DecisionView, TransferProtocolError>(d@),
            Err(e) => decode_decision(p@) == Err::<DecisionView, TransferProtocolError>(e),
        },
{
    if p.len() < DECISION_FIXED_LEN {
        return Err(
            TransferProtocolError::MessageLength { expected: DECISION_FIXED_LEN, actual: p.len() },
        );
    }
    let accepted = match p[48] {
        0 => false,
        1 => true,
        value => return Err(TransferProtocolError::InvalidBoolean(value)),
    };
    let count = p[49] as usize;
    if read_u16(p, 50) != 0 {
        return Err(TransferProtocolError::ReservedDecisionFlags);
    }
    let expected = DECISION_FIXED_LEN + count * RESUME_POSITION_LEN;
    if p.len() != expected {
        return Err(TransferProtocolError::MessageLength { expected, actual: p.len() });
    }
    let ghost ps = Seq::new(count as nat, |j: int| position_at(p@, j));
    let mut positions: Vec<ResumePosition> = Vec::new();
    let mut i: usize = 0;
    while i < count
        invariant
            i <= count,
            count <= 255,
            p@.len() == DECISION_FIXED_LEN + count * RESUME_POSITION_LEN,
            ps == Seq::new(count as nat, |j: int| position_at(p@, j)),
            positions@ =~= ps.take(i as int),
        decreases count - i,
    {
        let offset = DECISION_FIXED_LEN + i * RESUME_POSITION_LEN;
        positions.push(
            ResumePosition {
                file_index: read_u16(p, offset),
                next_chunk_index: read_u32(p, offset + 2),
            },
        );
        i = i + 1;
        assert(positions@ =~= ps.take(i as int));
    }
    assert(ps.take(i as int) =~= ps);
    match BatchDecision::new(
        read_array::<TRANSFER_ID_LEN>(p, 0),
        read_array::<BATCH_MANIFEST_DIGEST_LEN>(p, 16),
        accepted,
        positions,
    ) {
        Ok(d) => Ok(d),
        Err(e) => Err(e),
    }
}

/// Encodes the offer of a manifest, as `TransferMessage::encode` encodes
/// `TransferMessage::Offer` of it, without taking the manifest.
pub fn encode_offer(manifest: &TransferManifest) -> (r: Result<Vec<u8>, TransferProtocolError>)
    ensures
        match r {
            Ok(bytes) => bytes@ == encoded_transfer(TransferMessageView::Offer(manifest@))
                && transfer_encode_error(TransferMessageView::Offer(manifest@)) is None,
            Err(e) => transfer_encode_error(TransferMessageView::Offer(manifest@)) == Some(e),
        },
{
    let ghost v = TransferMessageView::Offer(manifest@);
    let payload = match encode_manifest(manifest) {
        Ok(p) => p,
        Err(e) => return Err(e),
    };
    proof {
        assert(transfer_shaped(v));
        lemma_transfer_payload_bounded(v);
    }
    if HEADER_LEN + payload.len() > MAX_FRAME_LEN {
        return Err(TransferProtocolError::FrameTooLarge(HEADER_LEN + payload.len()));
    }
    let mut frame: Vec<u8> = Vec::new();
    push_control_header(&mut frame, OFFER_KIND, payload.len() as u32);
    push_all(&mut frame, payload.as_slice());
    Ok(frame)
}

impl TransferMessage {
    /// Encodes a message, or reports the rule that it breaks.
    pub fn encode(&self) -> (r: Result<Vec<u8>, TransferProtocolError>)
        ensures
            match r {
                Ok(bytes) => bytes@ == encoded_transfer(self@) && transfer_encode_error(self@) is None,
                Err(e) => transfer_encode_error(self@) == Some(e),
            },
    {
        let (kind, payload) = match self {
            TransferMessage::Offer(manifest) => match encode_manifest(manifest) {
                Ok(p) => (OFFER_KIND, p),
                Err(e) => return Err(e),
            },
            TransferMessage::Decision(decision) => match encode_decision(decision) {
                Ok(p) => (DECISION_KIND, p),
                Err(e) => return Err(e),
            },
            TransferMessage::Complete(complete) => {
                let mut p: Vec<u8> = Vec::new();
                push_all(&mut p, complete.transfer_id.as_slice());
                push_all(&mut p, complete.manifest_digest.as_slice());
                (COMPLETE_KIND, p)
            },
            TransferMessage::Cancel(cancel) => {
                let mut p: Vec<u8> = Vec::new();
                push_all(&mut p, cancel.transfer_id.as_slice());
                p.push(cancel.reason.code());
                assert(p@ =~= transfer_payload(self@));
                (CANCEL_KIND, p)
            },
            TransferMessage::Pause(pause) => {
                let mut p: Vec<u8> = Vec::new();
                push_all(&mut p, pause.transfer_id.as_slice());
                push_all(&mut p, pause.manifest_digest.as_slice());
                p.push(pause.reason.code());
                assert(p@ =~= transfer_payload(self@));
                (PAUSE_KIND, p)
            },
        };
        proof {
            assert(transfer_shaped(self@));
            lemma_transfer_payload_bounded(self@);
        }
        if HEADER_LEN + payload.len() > MAX_FRAME_LEN {
            return Err(TransferProtocolError::FrameTooLarge(HEADER_LEN + payload.len()));
        }
        let mut frame: Vec<u8> = Vec::new();
        push_control_header(&mut frame, kind, payload.len() as u32);
        push_all(&mut frame, payload.as_slice());
        Ok(frame)
    }

    /// Decodes one transfer frame exactly as `decode_transfer` describes.
    pub fn decode(frame: &[u8]) -> (r: Result<Self, TransferProtocolError>)
        ensures
            transfer_result_view(r) == decode_transfer(frame@),
    {
        if frame.len() < HEADER_LEN {
            return Err(TransferProtocolError::TruncatedHeader(frame.len()));
        }
        if frame.len() > MAX_FRAME_LEN {
            return Err(TransferProtocolError::FrameTooLarge(frame.len()));
        }
        if !has_halo_magic(frame) {
            return Err(TransferProtocolError::InvalidMagic);
        }
        let version = read_u16(frame, 4);
        if version != TRANSFER_WIRE_VERSION {
            return Err(TransferProtocolError::UnsupportedWireVersion(version));
        }
        if frame[7] != 0 {
            return Err(TransferProtocolError::ReservedFlags(frame[7]));
        }
        let declared = read_u32(frame, 8) as usize;
        let actual = frame.len() - HEADER_LEN;
        if declared != actual {
            return Err(TransferProtocolError::PayloadLength { declared, actual });
        }
        let kind = frame[6];
        let payload = &frame[HEADER_LEN..frame.len()];
        if kind == OFFER_KIND {
            match decode_manifest(payload) {
                Ok(m) => Ok(TransferMessage::Offer(m)),
                Err(e) => Err(e),
            }
        } else if kind == DECISION_KIND {
            match decode_decision_payload(payload) {
                Ok(d) => Ok(TransferMessage::Decision(d)),
                Err(e) => Err(e),
            }
        } else if kind == COMPLETE_KIND {
            if payload.len() != COMPLETE_LEN {
                return Err(
                    TransferProtocolError::MessageLength { expected: COMPLETE_LEN, actual: payload.len() },
                );
            }
            Ok(
                TransferMessage::Complete(
                    BatchComplete {
                        transfer_id: read_array::<TRANSFER_ID_LEN>(payload, 0),
                        manifest_digest: read_array::<BATCH_MANIFEST_DIGEST_LEN>(payload, 16),
                    },
                ),
            )
        } else if kind == CANCEL_KIND {
            if payload.len() != CANCEL_LEN {
                return Err(
                    TransferProtocolError::MessageLength { expected: CANCEL_LEN, actual: payload.len() },
                );
            }
            match BatchCancelReason::try_from(payload[16]) {
                Ok(reason) => Ok(
                    TransferMessage::Cancel(
                        BatchCancel { transfer_id: read_array::<TRANSFER_ID_LEN>(payload, 0), reason },
                    ),
                ),
                Err(e) => Err(e),
            }
        } else if kind == PAUSE_KIND {
            if payload.len() != PAUSE_LEN {
                return Err(
                    TransferProtocolError::MessageLength { expected: PAUSE_LEN, actual: payload.len() },
                );
            }
            match BatchPauseReason::try_from(payload[48]) {
                Ok(reason) => Ok(
                    TransferMessage::Pause(
                        BatchPause {
                            transfer_id: read_array::<TRANSFER_ID_LEN>(payload, 0),
                            manifest_digest: read_array::<BATCH_MANIFEST_DIGEST_LEN>(payload, 16),
                            reason,
                        },
                    ),
                ),
                Err(e) => Err(e),
            }
        } else {
            Err(TransferProtocolError::UnknownMessageKind(kind))
        }
    }
}


proof fn lemma_parse_entries(p: Seq<u8>, offset: int, fs: Seq<FileView>)
    requires
        files_shaped(fs),
        forall|i: int|
            0 <= i < fs.len() ==> #[trigger] file_error(
                fs[i].size,
                name_bytes(fs[i].name).len() as int,
            ) is None,
        0 <= offset,
        offset + entries_bytes(fs).len() <= p.len(),
        p.subrange(offset, offset + entries_bytes(fs).len()) == entries_bytes(fs),
    ensures
        parse_entries(p, offset, fs.len()) == Ok::<(Seq<FileView>, int), TransferProtocolError>(
            (fs, offset + entries_bytes(fs).len()),
        ),
    decreases fs.len(),
{
    broadcast use vstd::utf8::encode_utf8_valid_utf8, vstd::utf8::encode_utf8_decode_utf8;

    reveal(parse_entries);

    if fs.len() == 0 {
        assert(fs =~= seq![]);
    } else {
        let f = fs[0];
        let e = entry_bytes(f);
        let rest = fs.drop_first();
        let nb = name_bytes(f.name);
        assert(file_error(f.size, nb.len() as int) is None);
        assert(f.digest.len() == CONTENT_DIGEST_LEN);
        let whole = entries_bytes(fs);
        assert(whole == e + entries_bytes(rest));
        let sub = p.subrange(offset, offset + whole.len());
        assert(p.subrange(offset, offset + 8) =~= be64(f.size)) by {
            assert(p.subrange(offset, offset + 8) =~= sub.subrange(0, 8));
            assert(sub.subrange(0, 8) =~= be64(f.size));
        }
        lemma_be64(f.size, p, offset);
        assert(p.subrange(offset + 40, offset + 42) =~= be16(nb.len() as u16)) by {
            assert(p.subrange(offset + 40, offset + 42) =~= sub.subrange(40, 42));
            assert(sub.subrange(40, 42) =~= be16(nb.len() as u16));
        }
        lemma_be16(nb.len() as u16, p, offset + 40);
        let name_end = offset + FILE_FIXED_LEN + nb.len();
        assert(p.subrange(offset + FILE_FIXED_LEN, name_end) =~= nb) by {
            assert(p.subrange(offset + FILE_FIXED_LEN, name_end) =~= sub.subrange(42, 42 + nb.len() as int));
            assert(sub.subrange(42, 42 + nb.len() as int) =~= nb);
        }
        assert(p.subrange(offset + 8, offset + 40) =~= f.digest) by {
            assert(p.subrange(offset + 8, offset + 40) =~= sub.subrange(8, 40));
            assert(sub.subrange(8, 40) =~= f.digest);
        }
        let g = FileView {
            size: read_be64(p, offset),
            digest: p.subrange(offset + 8, offset + 40),
            name: decode_utf8(p.subrange(offset + FILE_FIXED_LEN, name_end)),
        };
        assert(g == f);
        assert forall|i: int| 0 <= i < rest.len() implies #[trigger] file_error(
            rest[i].size,
            name_bytes(rest[i].name).len() as int,
        ) is None by {
            assert(rest[i] == fs[i + 1]);
        }
        assert(files_shaped(rest)) by {
            assert forall|i: int| 0 <= i < rest.len() implies (#[trigger] rest[i]).digest.len()
                == CONTENT_DIGEST_LEN by {
                assert(rest[i] == fs[i + 1]);
            }
        }
        assert(p.subrange(name_end, name_end + entries_bytes(rest).len()) =~= entries_bytes(rest))
            by {
            assert(p.subrange(name_end, name_end + entries_bytes(rest).len()) =~= sub.subrange(
                e.len() as int,
                whole.len() as int,
            ));
            assert(sub.subrange(e.len() as int, whole.len() as int) =~= entries_bytes(rest));
        }
        lemma_parse_entries(p, name_end, rest);
        assert(seq![f] + rest =~= fs);
    }
}

proof fn lemma_positions_layout(ps: Seq<ResumePosition>, i: int)
    requires
        0 <= i < ps.len(),
    ensures
        positions_bytes(ps).len() == ps.len() * RESUME_POSITION_LEN,
        positions_bytes(ps).subrange(i * 6, i * 6 + 2) == be16(ps[i].file_index),
        positions_bytes(ps).subrange(i * 6 + 2, i * 6 + 6) == be32(ps[i].next_chunk_index),
    decreases ps.len(),
{
    lemma_positions_bytes_len(ps);
    lemma_positions_bytes_len(ps.drop_last());
    let b = positions_bytes(ps);
    let a = positions_bytes(ps.drop_last());
    if i < ps.len() - 1 {
        lemma_positions_layout(ps.drop_last(), i);
        assert(b.subrange(i * 6, i * 6 + 2) =~= a.subrange(i * 6, i * 6 + 2));
        assert(b.subrange(i * 6 + 2, i * 6 + 6) =~= a.subrange(i * 6 + 2, i * 6 + 6));
    } else {
        assert(b.subrange(i * 6, i * 6 + 2) =~= be16(ps[i].file_index));
        assert(b.subrange(i * 6 + 2, i * 6 + 6) =~= be32(ps[i].next_chunk_index));
    }
}

#[verifier::rlimit(60)]
proof fn lemma_offer_round_trip(m: ManifestView)
    requires
        transfer_shaped(TransferMessageView::Offer(m)),
        manifest_error(m) is None,
    ensures
        decode_offer(offer_payload(m)) == Ok::<ManifestView, TransferProtocolError>(m),
{
    let fs = m.files;
    let total = sum_sizes(fs) as u64;
    let digest = manifest_digest(m);
    let eb = entries_bytes(fs);
    let head = m.transfer_id + be32(m.chunk_size) + seq![fs.len() as u8, 0u8, 0u8, 0u8] + be64(total)
        + digest;
    let p = offer_payload(m);
    assert(p == head + eb);
    assert(head.len() == OFFER_FIXED_LEN);
    lemma_files_error_none(fs);
    lemma_sum_sizes_nonneg(fs);
    assert(p.subrange(OFFER_FIXED_LEN as int, p.len() as int) =~= eb);
    lemma_parse_entries(p, OFFER_FIXED_LEN as int, fs);
    assert(p.subrange(21, 24) =~= seq![0u8, 0u8, 0u8]);
    assert(p[20] == fs.len());
    assert(p.subrange(16, 20) =~= be32(m.chunk_size));
    lemma_be32(m.chunk_size, p, 16);
    assert(p.subrange(24, 32) =~= be64(total));
    lemma_be64(total, p, 24);
    assert(p.subrange(32, 64) =~= digest);
    assert(p.subrange(0, 16) =~= m.transfer_id);
    let w = ManifestView { transfer_id: p.subrange(0, 16), chunk_size: read_be32(p, 16), files: fs };
    assert(w == m);
}

proof fn lemma_decision_round_trip(d: DecisionView)
    requires
        transfer_shaped(TransferMessageView::Decision(d)),
        positions_error(d.accepted, d.positions) is None,
    ensures
        decode_decision(decision_payload(d)) == Ok::<DecisionView, TransferProtocolError>(d),
{
    let p = decision_payload(d);
    let ps = d.positions;
    lemma_positions_bytes_len(ps);
    assert(p[48] == (if d.accepted { 1u8 } else { 0u8 }));
    assert(p[49] == ps.len());
    assert(p.subrange(50, 52) =~= be16(0));
    lemma_be16(0, p, 50);
    let q = Seq::new(p[49] as nat, |i: int| position_at(p, i));
    assert forall|i: int| 0 <= i < ps.len() implies q[i] == ps[i] by {
        lemma_positions_layout(ps, i);
        let o = DECISION_FIXED_LEN + i * RESUME_POSITION_LEN;
        assert(p.subrange(o, o + 2) =~= positions_bytes(ps).subrange(i * 6, i * 6 + 2));
        assert(p.subrange(o + 2, o + 6) =~= positions_bytes(ps).subrange(i * 6 + 2, i * 6 + 6));
        lemma_be16(ps[i].file_index, p, o);
        lemma_be32(ps[i].next_chunk_index, p, o + 2);
    }
    assert(q =~= ps);
    assert(p.subrange(0, 16) =~= d.transfer_id);
    assert(p.subrange(16, 48) =~= d.manifest_digest);
}

/// Every encodable transfer message decodes back to itself: decoding the
/// bytes that `TransferMessage::encode` produces gives the same message.
pub proof fn lemma_transfer_round_trip(v: TransferMessageView)
    requires
        transfer_shaped(v),
        transfer_encode_error(v) is None,
    ensures
        decode_transfer(encoded_transfer(v)) == Ok::<TransferMessageView, TransferProtocolError>(v),
{
    let p = transfer_payload(v);
    lemma_transfer_payload_bounded(v);
    lemma_frame_header(transfer_kind(v), p);
    let f = encoded_transfer(v);
    assert(f.subrange(HEADER_LEN as int, f.len() as int) == p);
    match v {
        TransferMessageView::Offer(m) => {
            lemma_offer_round_trip(m);
        },
        TransferMessageView::Decision(d) => {
            lemma_decision_round_trip(d);
        },
        TransferMessageView::Complete { transfer_id, manifest_digest } => {
            assert(p.subrange(0, 16) =~= transfer_id);
            assert(p.subrange(16, 48) =~= manifest_digest);
        },
        TransferMessageView::Cancel { transfer_id, reason } => {
            assert(p.subrange(0, 16) =~= transfer_id);
        },
        TransferMessageView::Pause { transfer_id, manifest_digest, reason } => {
            assert(p.subrange(0, 16) =~= transfer_id);
            assert(p.subrange(16, 48) =~= manifest_digest);
        },
    }
}


/// Every strict prefix of a frame with a sound header is refused: too short
/// for a header, or shorter than the payload its header declares.
pub proof fn lemma_prefix_refused(f: Seq<u8>, n: int)
    requires
        transfer_header_error(f) is None,
        0 <= n < f.len(),
    ensures
        decode_transfer(f.subrange(0, n)) is Err,
{
    let g = f.subrange(0, n);
    if n >= HEADER_LEN {
        assert(read_be32(g, 8) == read_be32(f, 8));
        assert(transfer_header_error(g) is Some);
    }
}

/// Every strict prefix of an encoded transfer message is refused.
pub proof fn lemma_transfer_prefix_refused(v: TransferMessageView, n: int)
    requires
        transfer_shaped(v),
        transfer_encode_error(v) is None,
        0 <= n < encoded_transfer(v).len(),
    ensures
        decode_transfer(encoded_transfer(v).subrange(0, n)) is Err,
{
    lemma_transfer_round_trip(v);
    lemma_prefix_refused(encoded_transfer(v), n);
}

/// Parsing file entries reads nothing before its starting offset.
proof fn lemma_parse_entries_suffix(p: Seq<u8>, q: Seq<u8>, offset: int, n: nat)
    requires
        p.len() == q.len(),
        0 <= offset,
        forall|i: int| offset <= i < p.len() ==> p[i] == q[i],
    ensures
        parse_entries(p, offset, n) == parse_entries(q, offset, n),
    decreases n,
{
    reveal(parse_entries);
    if n > 0 && offset + FILE_FIXED_LEN <= p.len() {
        let name_len = read_be16(p, offset + 40) as int;
        assert(read_be16(p, offset + 40) == read_be16(q, offset + 40));
        let name_end = offset + FILE_FIXED_LEN + name_len;
        if name_end <= p.len() {
            assert(p.subrange(offset + FILE_FIXED_LEN, name_end) =~= q.subrange(
                offset + FILE_FIXED_LEN,
                name_end,
            ));
            assert(read_be64(p, offset) == read_be64(q, offset));
            assert(p.subrange(offset + 8, offset + 40) =~= q.subrange(offset + 8, offset + 40));
            lemma_parse_entries_suffix(p, q, name_end, (n - 1) as nat);
        }
    }
}

/// An offer whose embedded manifest digest (frame bytes 44 to 75) has been
/// changed in any one byte is refused with `ManifestDigestMismatch`.
pub proof fn lemma_offer_digest_tamper_refused(m: ManifestView, i: int, x: u8)
    requires
        transfer_shaped(TransferMessageView::Offer(m)),
        manifest_error(m) is None,
        44 <= i < 76,
        encoded_transfer(TransferMessageView::Offer(m))[i] != x,
    ensures
        decode_transfer(encoded_transfer(TransferMessageView::Offer(m)).update(i, x)) == Err::<
            TransferMessageView,
            TransferProtocolError,
        >(TransferProtocolError::ManifestDigestMismatch),
{
    let v = TransferMessageView::Offer(m);
    let f = encoded_transfer(v);
    lemma_transfer_round_trip(v);
    let g = f.update(i, x);
    let p = f.subrange(HEADER_LEN as int, f.len() as int);
    let q = g.subrange(HEADER_LEN as int, g.len() as int);
    assert(g.subrange(0, 4) =~= f.subrange(0, 4));
    assert(read_be16(g, 4) == read_be16(f, 4));
    assert(read_be32(g, 8) == read_be32(f, 8));
    assert(transfer_header_error(g) is None);
    assert(g[6] == f[6]);
    assert(q =~= p.update(i - HEADER_LEN, x));
    assert(decode_offer(p) == Ok::<ManifestView, TransferProtocolError>(m));
    assert(q.subrange(21, 24) =~= p.subrange(21, 24));
    lemma_parse_entries_suffix(p, q, OFFER_FIXED_LEN as int, p[20] as nat);
    assert(q.subrange(0, 16) =~= p.subrange(0, 16));
    assert(read_be32(q, 16) == read_be32(p, 16));
    assert(read_be64(q, 24) == read_be64(p, 24));
    assert(manifest_digest(m) =~= p.subrange(32, 64));
    assert(q.subrange(32, 64)[i - HEADER_LEN - 32] != p.subrange(32, 64)[i - HEADER_LEN - 32]);
    assert(manifest_digest(m) != q.subrange(32, 64));
}

/// One file chunk as plain values.
pub struct ChunkView {
    pub transfer_id: Seq<u8>,
    pub file_index: u16,
    pub chunk_index: u32,
    pub chunk_digest: Seq<u8>,
    pub payload: Seq<u8>,
}

/// The four magic bytes `HDF1` that open every data record.
pub open spec fn data_magic() -> Seq<u8> {
    seq![0x48u8, 0x44u8, 0x46u8, 0x31u8]
}

/// The data record that carries one chunk.
pub open spec fn chunk_record(c: ChunkView) -> Seq<u8> {
    data_magic() + c.transfer_id + be16(c.file_index) + be16(0) + be32(c.chunk_index) + be32(
        c.payload.len() as u32,
    ) + c.chunk_digest + c.payload
}

pub open spec fn chunk_payload_error(length: int) -> Option<TransferProtocolError> {
    if length == 0 || length > MAX_CHUNK_SIZE {
        Some(TransferProtocolError::InvalidChunkPayloadLength(length as usize))
    } else {
        None
    }
}

/// What decoding one data record gives.
pub open spec fn decode_chunk(r: Seq<u8>) -> Result<ChunkView, TransferProtocolError> {
    if r.len() < DATA_RECORD_HEADER_LEN {
        Err(TransferProtocolError::TruncatedDataHeader(r.len() as usize))
    } else if r.len() > MAX_DATA_RECORD_LEN {
        Err(TransferProtocolError::DataRecordTooLarge(r.len() as usize))
    } else if r.subrange(0, 4) != data_magic() {
        Err(TransferProtocolError::InvalidDataMagic)
    } else if read_be16(r, 22) != 0 {
        Err(TransferProtocolError::ReservedDataFlags(read_be16(r, 22)))
    } else {
        match chunk_payload_error(read_be32(r, 28) as int) {
            Some(e) => Err(e),
            None => if DATA_RECORD_HEADER_LEN + read_be32(r, 28) != r.len() {
                Err(
                    TransferProtocolError::DataRecordLength {
                        declared: (DATA_RECORD_HEADER_LEN + read_be32(r, 28)) as usize,
                        actual: r.len() as usize,
                    },
                )
            } else {
                Ok(
                    ChunkView {
                        transfer_id: r.subrange(4, 20),
                        file_index: read_be16(r, 20),
                        chunk_index: read_be32(r, 24),
                        chunk_digest: r.subrange(32, 64),
                        payload: r.subrange(DATA_RECORD_HEADER_LEN as int, r.len() as int),
                    },
                )
            },
        }
    }
}

fn validate_chunk_payload(length: usize) -> (r: Result<(), TransferProtocolError>)
    ensures
        match r {
            Ok(_) => chunk_payload_error(length as int) is None,
            Err(e) => chunk_payload_error(length as int) == Some(e),
        },
{
    if length == 0 || length > MAX_CHUNK_SIZE as usize {
        return Err(TransferProtocolError::InvalidChunkPayloadLength(length));
    }
    Ok(())
}

#[derive(Clone, Debug, PartialEq, Eq)]
pub struct BatchChunk {
    pub transfer_id: [u8; TRANSFER_ID_LEN],
    pub file_index: u16,
    pub chunk_index: u32,
    pub chunk_digest: [u8; CONTENT_DIGEST_LEN],
    pub payload: Vec<u8>,
}

impl View for BatchChunk {
    type V = ChunkView;

    open spec fn view(&self) -> ChunkView {
        ChunkView {
            transfer_id: self.transfer_id@,
            file_index: self.file_index,
            chunk_index: self.chunk_index,
            chunk_digest: self.chunk_digest@,
            payload: self.payload@,
        }
    }
}

#[derive(Clone, Copy, Debug, PartialEq, Eq)]
pub struct BatchChunkRef<'a> {
    pub transfer_id: [u8; TRANSFER_ID_LEN],
    pub file_index: u16,
    pub chunk_index: u32,
    pub chunk_digest: [u8; CONTENT_DIGEST_LEN],
    pub payload: &'a [u8],
}

impl<'a> View for BatchChunkRef<'a> {
    type V = ChunkView;

    open spec fn view(&self) -> ChunkView {
        ChunkView {
            transfer_id: self.transfer_id@,
            file_index: self.file_index,
            chunk_index: self.chunk_index,
            chunk_digest: self.chunk_digest@,
            payload: self.payload@,
        }
    }
}

impl BatchChunk {
    pub fn new(
        transfer_id: [u8; TRANSFER_ID_LEN],
        file_index: u16,
        chunk_index: u32,
        chunk_digest: [u8; CONTENT_DIGEST_LEN],
        payload: Vec<u8>,
    ) -> (r: Result<Self, TransferProtocolError>)
        ensures
            match r {
                Ok(c) => c@ == (ChunkView {
                    transfer_id: transfer_id@,
                    file_index,
                    chunk_index,
                    chunk_digest: chunk_digest@,
                    payload: payload@,
                }) && chunk_payload_error(payload@.len() as int) is None,
                Err(e) => chunk_payload_error(payload@.len() as int) == Some(e),
            },
    {
        match validate_chunk_payload(payload.len()) {
            Ok(()) => Ok(BatchChunk { transfer_id, file_index, chunk_index, chunk_digest, payload }),
            Err(e) => Err(e),
        }
    }

    pub fn encode(&self) -> (r: Result<Vec<u8>, TransferProtocolError>)
        ensures
            match r {
                Ok(bytes) => bytes@ == chunk_record(self@) && chunk_payload_error(
                    self.payload@.len() as int,
                ) is None,
                Err(e) => chunk_payload_error(self.payload@.len() as int) == Some(e),
            },
    {
        let mut record: Vec<u8> = Vec::new();
        match self.as_ref().encode_into(&mut record) {
            Ok(()) => Ok(record),
            Err(e) => Err(e),
        }
    }

    pub fn decode(record: &[u8]) -> (r: Result<Self, TransferProtocolError>)
        ensures
            match r {
                Ok(c) => decode_chunk(record@) == Ok::<ChunkView, TransferProtocolError>(c@),
                Err(e) => decode_chunk(record@) == Err::<ChunkView, TransferProtocolError>(e),
            },
    {
        let chunk = match BatchChunkRef::decode(record) {
            Ok(chunk) => chunk,
            Err(e) => return Err(e),
        };
        BatchChunk::new(
            chunk.transfer_id,
            chunk.file_index,
            chunk.chunk_index,
            chunk.chunk_digest,
            vstd::slice::slice_to_vec(chunk.payload),
        )
    }

    pub fn as_ref(&self) -> (r: BatchChunkRef<'_>)
        ensures
            r@ == self@,
    {
        BatchChunkRef {
            transfer_id: self.transfer_id,
            file_index: self.file_index,
            chunk_index: self.chunk_index,
            chunk_digest: self.chunk_digest,
            payload: self.payload.as_slice(),
        }
    }
}

/// Whether the first four bytes are the `HDF1` magic.
fn has_data_magic(record: &[u8]) -> (r: bool)
    requires
        record@.len() >= 4,
    ensures
        r == (record@.subrange(0, 4) == data_magic()),
{
    let r = record[0] == 0x48u8 && record[1] == 0x44u8 && record[2] == 0x46u8 && record[3]
        == 0x31u8;
    proof {
        if r {
            assert(record@.subrange(0, 4) =~= data_magic());
        } else if record@.subrange(0, 4) == data_magic() {
            assert(record@[0] == record@.subrange(0, 4)[0]);
            assert(record@[1] == record@.subrange(0, 4)[1]);
            assert(record@[2] == record@.subrange(0, 4)[2]);
            assert(record@[3] == record@.subrange(0, 4)[3]);
        }
    }
    r
}

impl<'a> BatchChunkRef<'a> {
    pub fn new(
        transfer_id: [u8; TRANSFER_ID_LEN],
        file_index: u16,
        chunk_index: u32,
        chunk_digest: [u8; CONTENT_DIGEST_LEN],
        payload: &'a [u8],
    ) -> (r: Result<Self, TransferProtocolError>)
        ensures
            match r {
                Ok(c) => c@ == (ChunkView {
                    transfer_id: transfer_id@,
                    file_index,
                    chunk_index,
                    chunk_digest: chunk_digest@,
                    payload: payload@,
                }) && chunk_payload_error(payload@.len() as int) is None,
                Err(e) => chunk_payload_error(payload@.len() as int) == Some(e),
            },
    {
        match validate_chunk_payload(payload.len()) {
            Ok(()) => Ok(BatchChunkRef { transfer_id, file_index, chunk_index, chunk_digest, payload }),
            Err(e) => Err(e),
        }
    }

    /// Writes the data record into `record`, replacing what it held.
    pub fn encode_into(self, record: &mut Vec<u8>) -> (r: Result<(), TransferProtocolError>)
        ensures
            match r {
                Ok(_) => final(record)@ == chunk_record(self@) && chunk_payload_error(
                    self.payload@.len() as int,
                ) is None,
                Err(e) => chunk_payload_error(self.payload@.len() as int) == Some(e)
                    && final(record)@ == old(record)@,
            },
    {
        match validate_chunk_payload(self.payload.len()) {
            Ok(()) => {},
            Err(e) => return Err(e),
        }
        let payload_length = self.payload.len() as u32;
        record.clear();
        record.push(0x48u8);
        record.push(0x44u8);
        record.push(0x46u8);
        record.push(0x31u8);
        push_all(record, self.transfer_id.as_slice());
        push_be16(record, self.file_index);
        push_be16(record, 0u16);
        push_be32(record, self.chunk_index);
        push_be32(record, payload_length);
        push_all(record, self.chunk_digest.as_slice());
        push_all(record, self.payload);
        assert(record@ =~= chunk_record(self@));
        Ok(())
    }

    pub fn decode(record: &'a [u8]) -> (r: Result<Self, TransferProtocolError>)
        ensures
            match r {
                Ok(c) => decode_chunk(record@) == Ok::<ChunkView, TransferProtocolError>(c@),
                Err(e) => decode_chunk(record@) == Err::<ChunkView, TransferProtocolError>(e),
            },
    {
        if record.len() < DATA_RECORD_HEADER_LEN {
            return Err(TransferProtocolError::TruncatedDataHeader(record.len()));
        }
        if record.len() > MAX_DATA_RECORD_LEN {
            return Err(TransferProtocolError::DataRecordTooLarge(record.len()));
        }
        if !has_data_magic(record) {
            return Err(TransferProtocolError::InvalidDataMagic);
        }
        let flags = read_u16(record, 22);
        if flags != 0 {
            return Err(TransferProtocolError::ReservedDataFlags(flags));
        }
        let payload_length = read_u32(record, 28) as usize;
        match validate_chunk_payload(payload_length) {
            Ok(()) => {},
            Err(e) => return Err(e),
        }
        let expected = DATA_RECORD_HEADER_LEN + payload_length;
        if record.len() != expected {
            return Err(
                TransferProtocolError::DataRecordLength { declared: expected, actual: record.len() },
            );
        }
        BatchChunkRef::new(
            read_array::<TRANSFER_ID_LEN>(record, 4),
            read_u16(record, 20),
            read_u32(record, 24),
            read_array::<CONTENT_DIGEST_LEN>(record, 32),
            &record[DATA_RECORD_HEADER_LEN..record.len()],
        )
    }
}

/// Decoding a data record gives back the chunk it was encoded from.
pub proof fn lemma_chunk_round_trip(c: ChunkView)
    requires
        c.transfer_id.len() == TRANSFER_ID_LEN,
        c.chunk_digest.len() == CONTENT_DIGEST_LEN,
        chunk_payload_error(c.payload.len() as int) is None,
    ensures
        decode_chunk(chunk_record(c)) == Ok::<ChunkView, TransferProtocolError>(c),
{
    let r = chunk_record(c);
    assert(r.subrange(0, 4) =~= data_magic());
    assert(r.subrange(20, 22) =~= be16(c.file_index));
    lemma_be16(c.file_index, r, 20);
    assert(r.subrange(22, 24) =~= be16(0));
    lemma_be16(0, r, 22);
    assert(r.subrange(24, 28) =~= be32(c.chunk_index));
    lemma_be32(c.chunk_index, r, 24);
    assert(r.subrange(28, 32) =~= be32(c.payload.len() as u32));
    lemma_be32(c.payload.len() as u32, r, 28);
    assert(r.subrange(4, 20) =~= c.transfer_id);
    assert(r.subrange(32, 64) =~= c.chunk_digest);
    assert(r.subrange(DATA_RECORD_HEADER_LEN as int, r.len() as int) =~= c.payload);
}

} // verus!
