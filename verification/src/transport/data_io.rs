//! Framing limits of the file-data stream, checked before any payload is
//! allocated.

use vstd::prelude::*;

use crate::be_bytes::{bytes_equal, read_be32, read_u32};
use crate::protocol::transfer::{DATA_RECORD_HEADER_LEN, MAX_DATA_RECORD_LEN};

verus! {

#[derive(Clone, Debug, PartialEq, Eq, Structural)]
pub enum DataIoError {
    RecordTooLarge(usize),
    Truncated,
    InvalidMagic,
    Read,
    Write,
    TrailingData,
}

/// `HDF1`, the magic of every data record.
pub open spec fn data_magic() -> Seq<u8> {
    seq![0x48u8, 0x44u8, 0x46u8, 0x31u8]
}

/// The header length announced by a record's first four bytes.
pub fn data_record_header_length(prefix: &[u8]) -> (r: Result<usize, DataIoError>)
    ensures
        r == (if prefix@ == data_magic() {
            Ok::<usize, DataIoError>(DATA_RECORD_HEADER_LEN)
        } else {
            Err(DataIoError::InvalidMagic)
        }),
{
    let magic: [u8; 4] = [0x48u8, 0x44u8, 0x46u8, 0x31u8];
    assert(magic@ =~= data_magic());
    if bytes_equal(prefix, magic.as_slice()) {
        Ok(DATA_RECORD_HEADER_LEN)
    } else {
        Err(DataIoError::InvalidMagic)
    }
}

/// The full record length a header announces, or why it is refused.
pub open spec fn spec_record_length(h: Seq<u8>) -> Result<usize, DataIoError> {
    if h.len() < 4 {
        Err(DataIoError::Truncated)
    } else if h.subrange(0, 4) != data_magic() {
        Err(DataIoError::InvalidMagic)
    } else if h.len() != DATA_RECORD_HEADER_LEN {
        Err(DataIoError::Truncated)
    } else if DATA_RECORD_HEADER_LEN + read_be32(h, 28) > usize::MAX {
        Err(DataIoError::RecordTooLarge(usize::MAX))
    } else if read_be32(h, 28) == 0 || DATA_RECORD_HEADER_LEN + read_be32(h, 28)
        > MAX_DATA_RECORD_LEN {
        Err(DataIoError::RecordTooLarge((DATA_RECORD_HEADER_LEN + read_be32(h, 28)) as usize))
    } else {
        Ok((DATA_RECORD_HEADER_LEN + read_be32(h, 28)) as usize)
    }
}

/// Reads a record header and returns the length of the whole record: the
/// header plus a non-empty payload of at most one chunk.
pub fn data_record_length(header: &[u8]) -> (r: Result<usize, DataIoError>)
    ensures
        r == spec_record_length(header@),
{
    if header.len() < 4 {
        return Err(DataIoError::Truncated);
    }
    let header_length = match data_record_header_length(&header[0..4]) {
        Ok(n) => n,
        Err(e) => {
            assert(header@.subrange(0, 4) != data_magic());
            return Err(e);
        },
    };
    assert(header@.subrange(0, 4) =~= data_magic());
    if header.len() != header_length {
        return Err(DataIoError::Truncated);
    }
    let payload_length = read_u32(header, 28) as usize;
    let record_length = match header_length.checked_add(payload_length) {
        Some(n) => n,
        None => return Err(DataIoError::RecordTooLarge(usize::MAX)),
    };
    if payload_length == 0 || record_length > MAX_DATA_RECORD_LEN {
        return Err(DataIoError::RecordTooLarge(record_length));
    }
    Ok(record_length)
}

} // verus!
