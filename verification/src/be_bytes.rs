//! Big-endian integer encodings shared by every Halo wire format.

use vstd::prelude::*;

verus! {

/// The two big-endian bytes of `x`.
pub open spec fn be16(x: u16) -> Seq<u8> {
    seq![(x >> 8u16) as u8, (x & 0xffu16) as u8]
}

/// The four big-endian bytes of `x`.
pub open spec fn be32(x: u32) -> Seq<u8> {
    seq![(x >> 24u32) as u8, ((x >> 16u32) & 0xffu32) as u8, ((x >> 8u32) & 0xffu32) as u8, (x & 0xffu32) as u8]
}

/// The eight big-endian bytes of `x`.
pub open spec fn be64(x: u64) -> Seq<u8> {
    seq![
        (x >> 56u64) as u8,
        ((x >> 48u64) & 0xffu64) as u8,
        ((x >> 40u64) & 0xffu64) as u8,
        ((x >> 32u64) & 0xffu64) as u8,
        ((x >> 24u64) & 0xffu64) as u8,
        ((x >> 16u64) & 0xffu64) as u8,
        ((x >> 8u64) & 0xffu64) as u8,
        (x & 0xffu64) as u8,
    ]
}

pub open spec fn u16_of(b0: u8, b1: u8) -> u16 {
    ((b0 as u16) << 8u16) | (b1 as u16)
}

pub open spec fn u32_of(b0: u8, b1: u8, b2: u8, b3: u8) -> u32 {
    ((b0 as u32) << 24u32) | ((b1 as u32) << 16u32) | ((b2 as u32) << 8u32) | (b3 as u32)
}

pub open spec fn u64_of(b0: u8, b1: u8, b2: u8, b3: u8, b4: u8, b5: u8, b6: u8, b7: u8) -> u64 {
    ((b0 as u64) << 56u64) | ((b1 as u64) << 48u64) | ((b2 as u64) << 40u64) | ((b3 as u64)
        << 32u64) | ((b4 as u64) << 24u64) | ((b5 as u64) << 16u64) | ((b6 as u64) << 8u64) | (
    b7 as u64)
}

/// The big-endian `u16` stored at `offset` of `s`.
pub open spec fn read_be16(s: Seq<u8>, offset: int) -> u16 {
    u16_of(s[offset], s[offset + 1])
}

/// The big-endian `u32` stored at `offset` of `s`.
pub open spec fn read_be32(s: Seq<u8>, offset: int) -> u32 {
    u32_of(s[offset], s[offset + 1], s[offset + 2], s[offset + 3])
}

/// The big-endian `u64` stored at `offset` of `s`.
pub open spec fn read_be64(s: Seq<u8>, offset: int) -> u64 {
    u64_of(
        s[offset],
        s[offset + 1],
        s[offset + 2],
        s[offset + 3],
        s[offset + 4],
        s[offset + 5],
        s[offset + 6],
        s[offset + 7],
    )
}

proof fn lemma_u16_bits(x: u16)
    ensures
        u16_of((x >> 8u16) as u8, (x & 0xffu16) as u8) == x,
{
    assert(((((x >> 8u16) as u8) as u16) << 8u16) | ((((x & 0xffu16) as u8) as u16)) == x)
        by (bit_vector);
}

proof fn lemma_u16_bytes(b0: u8, b1: u8)
    ensures
        (u16_of(b0, b1) >> 8u16) as u8 == b0,
        (u16_of(b0, b1) & 0xffu16) as u8 == b1,
{
    assert(((((b0 as u16) << 8u16) | (b1 as u16)) >> 8u16) as u8 == b0) by (bit_vector);
    assert(((((b0 as u16) << 8u16) | (b1 as u16)) & 0xffu16) as u8 == b1) by (bit_vector);
}

proof fn lemma_u32_bits(x: u32)
    ensures
        u32_of(
            (x >> 24u32) as u8,
            ((x >> 16u32) & 0xffu32) as u8,
            ((x >> 8u32) & 0xffu32) as u8,
            (x & 0xffu32) as u8,
        ) == x,
{
    assert(((((x >> 24u32) as u8) as u32) << 24u32) | (((((x >> 16u32) & 0xffu32) as u8) as u32)
        << 16u32) | (((((x >> 8u32) & 0xffu32) as u8) as u32) << 8u32) | ((((x & 0xffu32) as u8)
        as u32)) == x) by (bit_vector);
}

proof fn lemma_u32_bytes(b0: u8, b1: u8, b2: u8, b3: u8)
    ensures
        be32(u32_of(b0, b1, b2, b3)) == seq![b0, b1, b2, b3],
{
    let x = u32_of(b0, b1, b2, b3);
    assert(((((b0 as u32) << 24u32) | ((b1 as u32) << 16u32) | ((b2 as u32) << 8u32) | (b3 as u32))
        >> 24u32) as u8 == b0) by (bit_vector);
    assert((((((b0 as u32) << 24u32) | ((b1 as u32) << 16u32) | ((b2 as u32) << 8u32) | (
    b3 as u32)) >> 16u32) & 0xffu32) as u8 == b1) by (bit_vector);
    assert((((((b0 as u32) << 24u32) | ((b1 as u32) << 16u32) | ((b2 as u32) << 8u32) | (
    b3 as u32)) >> 8u32) & 0xffu32) as u8 == b2) by (bit_vector);
    assert(((((b0 as u32) << 24u32) | ((b1 as u32) << 16u32) | ((b2 as u32) << 8u32) | (b3 as u32))
        & 0xffu32) as u8 == b3) by (bit_vector);
    assert(be32(x) =~= seq![b0, b1, b2, b3]);
}

proof fn lemma_u64_bits(x: u64)
    ensures
        u64_of(
            (x >> 56u64) as u8,
            ((x >> 48u64) & 0xffu64) as u8,
            ((x >> 40u64) & 0xffu64) as u8,
            ((x >> 32u64) & 0xffu64) as u8,
            ((x >> 24u64) & 0xffu64) as u8,
            ((x >> 16u64) & 0xffu64) as u8,
            ((x >> 8u64) & 0xffu64) as u8,
            (x & 0xffu64) as u8,
        ) == x,
{
    assert(((((x >> 56u64) as u8) as u64) << 56u64) | (((((x >> 48u64) & 0xffu64) as u8) as u64)
        << 48u64) | (((((x >> 40u64) & 0xffu64) as u8) as u64) << 40u64) | (((((x >> 32u64)
        & 0xffu64) as u8) as u64) << 32u64) | (((((x >> 24u64) & 0xffu64) as u8) as u64) << 24u64)
        | (((((x >> 16u64) & 0xffu64) as u8) as u64) << 16u64) | (((((x >> 8u64) & 0xffu64) as u8)
        as u64) << 8u64) | ((((x & 0xffu64) as u8) as u64)) == x) by (bit_vector);
}

proof fn lemma_u64_bytes(b0: u8, b1: u8, b2: u8, b3: u8, b4: u8, b5: u8, b6: u8, b7: u8)
    ensures
        be64(u64_of(b0, b1, b2, b3, b4, b5, b6, b7)) == seq![b0, b1, b2, b3, b4, b5, b6, b7],
{
    let x = u64_of(b0, b1, b2, b3, b4, b5, b6, b7);
    assert(x == ((b0 as u64) << 56u64) | ((b1 as u64) << 48u64) | ((b2 as u64) << 40u64) | ((
    b3 as u64) << 32u64) | ((b4 as u64) << 24u64) | ((b5 as u64) << 16u64) | ((b6 as u64) << 8u64)
        | (b7 as u64));
    assert((x >> 56u64) as u8 == b0 && ((x >> 48u64) & 0xffu64) as u8 == b1 && ((x >> 40u64)
        & 0xffu64) as u8 == b2 && ((x >> 32u64) & 0xffu64) as u8 == b3 && ((x >> 24u64) & 0xffu64)
        as u8 == b4 && ((x >> 16u64) & 0xffu64) as u8 == b5 && ((x >> 8u64) & 0xffu64) as u8 == b6
        && (x & 0xffu64) as u8 == b7) by (bit_vector)
        requires
            x == ((b0 as u64) << 56u64) | ((b1 as u64) << 48u64) | ((b2 as u64) << 40u64) | ((
            b3 as u64) << 32u64) | ((b4 as u64) << 24u64) | ((b5 as u64) << 16u64) | ((b6 as u64)
                << 8u64) | (b7 as u64),
    ;
    assert(be64(x) =~= seq![b0, b1, b2, b3, b4, b5, b6, b7]);
}

/// Reading back the bytes of `be16(x)` gives `x`, and the bytes of a read
/// value are the bytes that were read.
pub proof fn lemma_be16(x: u16, s: Seq<u8>, offset: int)
    requires
        0 <= offset,
        offset + 2 <= s.len(),
    ensures
        s.subrange(offset, offset + 2) == be16(x) ==> read_be16(s, offset) == x,
        be16(read_be16(s, offset)) == s.subrange(offset, offset + 2),
{
    lemma_u16_bits(x);
    let t = s.subrange(offset, offset + 2);
    assert(s[offset] == t[0] && s[offset + 1] == t[1]);
    lemma_u16_bytes(s[offset], s[offset + 1]);
    assert(be16(read_be16(s, offset)) =~= t);
}

/// The `u32` counterpart of `lemma_be16`.
pub proof fn lemma_be32(x: u32, s: Seq<u8>, offset: int)
    requires
        0 <= offset,
        offset + 4 <= s.len(),
    ensures
        s.subrange(offset, offset + 4) == be32(x) ==> read_be32(s, offset) == x,
        be32(read_be32(s, offset)) == s.subrange(offset, offset + 4),
{
    lemma_u32_bits(x);
    let t = s.subrange(offset, offset + 4);
    assert(s[offset] == t[0] && s[offset + 1] == t[1] && s[offset + 2] == t[2] && s[offset + 3]
        == t[3]);
    lemma_u32_bytes(s[offset], s[offset + 1], s[offset + 2], s[offset + 3]);
    assert(be32(read_be32(s, offset)) =~= t);
}

/// The `u64` counterpart of `lemma_be16`.
pub proof fn lemma_be64(x: u64, s: Seq<u8>, offset: int)
    requires
        0 <= offset,
        offset + 8 <= s.len(),
    ensures
        s.subrange(offset, offset + 8) == be64(x) ==> read_be64(s, offset) == x,
        be64(read_be64(s, offset)) == s.subrange(offset, offset + 8),
{
    lemma_u64_bits(x);
    let t = s.subrange(offset, offset + 8);
    assert(s[offset] == t[0] && s[offset + 1] == t[1] && s[offset + 2] == t[2] && s[offset + 3]
        == t[3] && s[offset + 4] == t[4] && s[offset + 5] == t[5] && s[offset + 6] == t[6] && s[offset
        + 7] == t[7]);
    lemma_u64_bytes(
        s[offset],
        s[offset + 1],
        s[offset + 2],
        s[offset + 3],
        s[offset + 4],
        s[offset + 5],
        s[offset + 6],
        s[offset + 7],
    );
    assert(be64(read_be64(s, offset)) =~= t);
}

/// Appends the big-endian bytes of `x`.
pub fn push_be16(out: &mut Vec<u8>, x: u16)
    ensures
        final(out)@ == old(out)@ + be16(x),
{
    out.push((x >> 8u16) as u8);
    out.push((x & 0xffu16) as u8);
    assert(final(out)@ =~= old(out)@ + be16(x));
}

/// Appends the big-endian bytes of `x`.
pub fn push_be32(out: &mut Vec<u8>, x: u32)
    ensures
        final(out)@ == old(out)@ + be32(x),
{
    out.push((x >> 24u32) as u8);
    out.push(((x >> 16u32) & 0xffu32) as u8);
    out.push(((x >> 8u32) & 0xffu32) as u8);
    out.push((x & 0xffu32) as u8);
    assert(final(out)@ =~= old(out)@ + be32(x));
}

/// Appends the big-endian bytes of `x`.
pub fn push_be64(out: &mut Vec<u8>, x: u64)
    ensures
        final(out)@ == old(out)@ + be64(x),
{
    out.push((x >> 56u64) as u8);
    out.push(((x >> 48u64) & 0xffu64) as u8);
    out.push(((x >> 40u64) & 0xffu64) as u8);
    out.push(((x >> 32u64) & 0xffu64) as u8);
    out.push(((x >> 24u64) & 0xffu64) as u8);
    out.push(((x >> 16u64) & 0xffu64) as u8);
    out.push(((x >> 8u64) & 0xffu64) as u8);
    out.push((x & 0xffu64) as u8);
    assert(final(out)@ =~= old(out)@ + be64(x));
}

/// Appends every byte of `bytes`.
pub fn push_all(out: &mut Vec<u8>, bytes: &[u8])
    ensures
        final(out)@ == old(out)@ + bytes@,
{
    let ghost start = out@;
    let mut i: usize = 0;
    while i < bytes.len()
        invariant
            i <= bytes@.len(),
            out@ == start + bytes@.subrange(0, i as int),
        decreases bytes@.len() - i,
    {
        out.push(bytes[i]);
        i = i + 1;
        assert(out@ =~= start + bytes@.subrange(0, i as int));
    }
    assert(bytes@.subrange(0, i as int) =~= bytes@);
}

/// Reads the big-endian `u16` at `offset`.
pub fn read_u16(bytes: &[u8], offset: usize) -> (r: u16)
    requires
        offset + 2 <= bytes@.len(),
    ensures
        r == read_be16(bytes@, offset as int),
{
    ((bytes[offset] as u16) << 8u16) | (bytes[offset + 1] as u16)
}

/// Reads the big-endian `u32` at `offset`.
pub fn read_u32(bytes: &[u8], offset: usize) -> (r: u32)
    requires
        offset + 4 <= bytes@.len(),
    ensures
        r == read_be32(bytes@, offset as int),
{
    ((bytes[offset] as u32) << 24u32) | ((bytes[offset + 1] as u32) << 16u32) | ((bytes[offset
        + 2] as u32) << 8u32) | (bytes[offset + 3] as u32)
}

/// Reads the big-endian `u64` at `offset`.
pub fn read_u64(bytes: &[u8], offset: usize) -> (r: u64)
    requires
        offset + 8 <= bytes@.len(),
    ensures
        r == read_be64(bytes@, offset as int),
{
    ((bytes[offset] as u64) << 56u64) | ((bytes[offset + 1] as u64) << 48u64) | ((bytes[offset
        + 2] as u64) << 40u64) | ((bytes[offset + 3] as u64) << 32u64) | ((bytes[offset + 4] as u64)
        << 24u64) | ((bytes[offset + 5] as u64) << 16u64) | ((bytes[offset + 6] as u64) << 8u64) | (
    bytes[offset + 7] as u64)
}

/// Copies `N` bytes starting at `offset` into a fixed-width array.
pub fn read_array<const N: usize>(bytes: &[u8], offset: usize) -> (r: [u8; N])
    requires
        offset + N <= bytes@.len(),
    ensures
        r@ == bytes@.subrange(offset as int, offset + N),
{
    let mut output: [u8; N] = vstd::array::array_fill_for_copy_types::<u8, N>(0u8);
    let mut i: usize = 0;
    while i < N
        invariant
            i <= N,
            offset + N <= bytes@.len(),
            output@.len() == N,
            offset + i <= usize::MAX,
            forall|j: int| 0 <= j < i ==> output@[j] == bytes@[offset + j],
        decreases N - i,
    {
        output[i] = bytes[offset + i];
        i = i + 1;
    }
    assert(output@ =~= bytes@.subrange(offset as int, offset + N));
    output
}

/// Whether two byte slices hold the same bytes.
pub fn bytes_equal(a: &[u8], b: &[u8]) -> (r: bool)
    ensures
        r == (a@ == b@),
{
    if a.len() != b.len() {
        return false;
    }
    let mut i: usize = 0;
    while i < a.len()
        invariant
            a@.len() == b@.len(),
            i <= a@.len(),
            forall|j: int| 0 <= j < i ==> a@[j] == b@[j],
        decreases a@.len() - i,
    {
        if a[i] != b[i] {
            return false;
        }
        i = i + 1;
    }
    assert(a@ =~= b@);
    true
}

} // verus!
