//! The on-disk header shared by both index formats: one 4096-byte page
//! holding, in order, an 8-byte magic, a 16-byte identifier, the
//! little-endian creation time, a 32-byte checksum over the index body,
//! the little-endian logical size and chunk size, and zero padding to
//! the page boundary.

use vstd::prelude::*;
use vstd::bytes::{spec_u64_from_le_bytes, spec_u64_to_le_bytes, u64_from_le_bytes, u64_to_le_bytes};
use vstd::slice::{slice_index_get, slice_subrange};

use crate::error::StoreError;

verus! {

/// Bytes in the on-disk header page.
pub const HEADER_SIZE: usize = 4096;

/// Bytes of zero padding at the end of the header page.
pub const HEADER_PAD: usize = 4016;

/// The magic bytes of a fixed-size-chunk index file.
pub open spec fn fixed_magic() -> Seq<u8> {
    seq![47u8, 127u8, 65u8, 237u8, 145u8, 253u8, 15u8, 205u8]
}

/// The magic bytes of a dynamic-size-chunk index file.
pub open spec fn dynamic_magic() -> Seq<u8> {
    seq![28u8, 145u8, 78u8, 165u8, 25u8, 186u8, 179u8, 205u8]
}

/// The magic bytes of a fixed-size-chunk index file.
pub fn fixed_index_magic() -> (m: [u8; 8])
    ensures
        m@ == fixed_magic(),
{
    let m: [u8; 8] = [47u8, 127u8, 65u8, 237u8, 145u8, 253u8, 15u8, 205u8];
    proof {
        assert(m@ =~= fixed_magic());
    }
    m
}

/// The magic bytes of a dynamic-size-chunk index file.
pub fn dynamic_index_magic() -> (m: [u8; 8])
    ensures
        m@ == dynamic_magic(),
{
    let m: [u8; 8] = [28u8, 145u8, 78u8, 165u8, 25u8, 186u8, 179u8, 205u8];
    proof {
        assert(m@ =~= dynamic_magic());
    }
    m
}

/// The header fields of an index file, without the format magic.
#[derive(Clone, Copy, Debug)]
pub struct IndexHeader {
    /// Randomly generated identifier of the index.
    pub uuid: [u8; 16],
    /// Creation time, seconds since the Unix epoch.
    pub ctime: u64,
    /// Checksum over the whole index body that follows the header.
    pub index_csum: [u8; 32],
    /// Total logical size of the indexed stream.
    pub size: u64,
    /// Chunk size: the fixed chunk length, or the chunker's target size.
    pub chunk_size: u64,
}

/// The header page for `magic` and fields `h`.
pub open spec fn spec_header_bytes(magic: Seq<u8>, h: IndexHeader) -> Seq<u8> {
    magic + h.uuid@ + spec_u64_to_le_bytes(h.ctime) + h.index_csum@ + spec_u64_to_le_bytes(h.size)
        + spec_u64_to_le_bytes(h.chunk_size) + Seq::new(HEADER_PAD as nat, |i: int| 0u8)
}

/// Append all bytes of a slice.
pub fn push_byte_slice(v: &mut Vec<u8>, b: &[u8])
    ensures
        final(v)@ == old(v)@ + b@,
{
    let mut i: usize = 0;
    while i < b.len()
        invariant
            i <= b@.len(),
            v@ == old(v)@ + b@.take(i as int),
        decreases b@.len() - i,
    {
        v.push(*slice_index_get(b, i));
        proof {
            assert(v@ =~= old(v)@ + b@.take(i + 1int));
        }
        i = i + 1;
    }
    proof {
        assert(old(v)@ + b@.take(b@.len() as int) =~= old(v)@ + b@);
    }
}

/// Append `n` zero bytes.
fn push_zero_bytes(v: &mut Vec<u8>, n: usize)
    ensures
        final(v)@ == old(v)@ + Seq::new(n as nat, |i: int| 0u8),
{
    let mut i: usize = 0;
    while i < n
        invariant
            i <= n,
            v@ == old(v)@ + Seq::new(i as nat, |j: int| 0u8),
        decreases n - i,
    {
        v.push(0u8);
        proof {
            assert(v@ =~= old(v)@ + Seq::new((i + 1) as nat, |j: int| 0u8));
        }
        i = i + 1;
    }
}

/// Append a value as eight little-endian bytes.
pub fn push_u64_le(v: &mut Vec<u8>, x: u64)
    ensures
        final(v)@ == old(v)@ + spec_u64_to_le_bytes(x),
{
    let b = u64_to_le_bytes(x);
    push_byte_slice(v, b.as_slice());
}

/// Encode a header page.
pub fn encode_header(magic: &[u8; 8], h: &IndexHeader) -> (v: Vec<u8>)
    ensures
        v@ == spec_header_bytes(magic@, *h),
        v@.len() == HEADER_SIZE,
{
    let mut v: Vec<u8> = Vec::new();
    push_byte_slice(&mut v, magic.as_slice());
    push_byte_slice(&mut v, h.uuid.as_slice());
    push_u64_le(&mut v, h.ctime);
    push_byte_slice(&mut v, h.index_csum.as_slice());
    push_u64_le(&mut v, h.size);
    push_u64_le(&mut v, h.chunk_size);
    push_zero_bytes(&mut v, HEADER_PAD);
    proof {
        vstd::bytes::lemma_auto_spec_u64_to_from_le_bytes();
        assert(v@ =~= spec_header_bytes(magic@, *h));
    }
    v
}

/// True when the eight bytes at `off` equal `pat`.
pub fn bytes_match_at(bytes: &[u8], off: usize, pat: &[u8; 8]) -> (r: bool)
    requires
        off + 8 <= bytes@.len(),
    ensures
        r == (bytes@.subrange(off as int, off + 8) == pat@),
{
    let blen = bytes.len();
    let mut i: usize = 0;
    while i < 8
        invariant
            i <= 8,
            blen == bytes@.len(),
            off + 8 <= bytes@.len(),
            forall|j: int| 0 <= j < i ==> bytes@[off + j] == pat@[j],
        decreases 8 - i,
    {
        if *slice_index_get(bytes, off + i) != pat[i] {
            return false;
        }
        i = i + 1;
    }
    proof {
        assert(bytes@.subrange(off as int, off + 8) =~= pat@);
    }
    true
}

/// The sixteen bytes at `off`, as an array.
pub fn read_bytes16(bytes: &[u8], off: usize) -> (r: [u8; 16])
    requires
        off + 16 <= bytes@.len(),
    ensures
        r@ == bytes@.subrange(off as int, off + 16),
{
    let blen = bytes.len();
    let mut r = [0u8; 16];
    let mut i: usize = 0;
    while i < 16
        invariant
            i <= 16,
            blen == bytes@.len(),
            off + 16 <= bytes@.len(),
            forall|j: int| 0 <= j < i ==> r@[j] == bytes@[off + j],
        decreases 16 - i,
    {
        r[i] = *slice_index_get(bytes, off + i);
        i = i + 1;
    }
    proof {
        assert(r@ =~= bytes@.subrange(off as int, off + 16));
    }
    r
}

/// The thirty-two bytes at `off`, as an array.
pub fn read_bytes32(bytes: &[u8], off: usize) -> (r: [u8; 32])
    requires
        off + 32 <= bytes@.len(),
    ensures
        r@ == bytes@.subrange(off as int, off + 32),
{
    let blen = bytes.len();
    let mut r = [0u8; 32];
    let mut i: usize = 0;
    while i < 32
        invariant
            i <= 32,
            blen == bytes@.len(),
            off + 32 <= bytes@.len(),
            forall|j: int| 0 <= j < i ==> r@[j] == bytes@[off + j],
        decreases 32 - i,
    {
        r[i] = *slice_index_get(bytes, off + i);
        i = i + 1;
    }
    proof {
        assert(r@ =~= bytes@.subrange(off as int, off + 32));
    }
    r
}

/// The little-endian value of the eight bytes at `off`.
pub fn read_u64_le(bytes: &[u8], off: usize) -> (r: u64)
    requires
        off + 8 <= bytes@.len(),
    ensures
        r == spec_u64_from_le_bytes(bytes@.subrange(off as int, off + 8)),
{
    let blen = bytes.len();
    u64_from_le_bytes(slice_subrange(bytes, off, off + 8))
}

/// Parse a header page, checking length and magic.
pub fn parse_header(bytes: &[u8], magic: &[u8; 8]) -> (r: Result<IndexHeader, StoreError>)
    ensures
        r is Ok <==> (bytes@.len() >= HEADER_SIZE && bytes@.subrange(0, 8) == magic@),
        r is Ok ==> {
            let h = r->Ok_0;
            &&& h.uuid@ == bytes@.subrange(8, 24)
            &&& h.ctime == spec_u64_from_le_bytes(bytes@.subrange(24, 32))
            &&& h.index_csum@ == bytes@.subrange(32, 64)
            &&& h.size == spec_u64_from_le_bytes(bytes@.subrange(64, 72))
            &&& h.chunk_size == spec_u64_from_le_bytes(bytes@.subrange(72, 80))
        },
        r is Err ==> r == Result::<IndexHeader, StoreError>::Err(StoreError::Format),
{
    if bytes.len() < HEADER_SIZE {
        return Err(StoreError::Format);
    }
    if !bytes_match_at(bytes, 0, magic) {
        return Err(StoreError::Format);
    }
    let uuid = read_bytes16(bytes, 8);
    let ctime = read_u64_le(bytes, 24);
    let index_csum = read_bytes32(bytes, 32);
    let size = read_u64_le(bytes, 64);
    let chunk_size = read_u64_le(bytes, 72);
    Ok(IndexHeader { uuid, ctime, index_csum, size, chunk_size })
}

/// Encoding a header page and reading it back yields the same fields.
pub proof fn lemma_header_round_trip(magic: Seq<u8>, h: IndexHeader)
    requires
        magic.len() == 8,
    ensures
        spec_header_bytes(magic, h).len() == HEADER_SIZE,
        spec_header_bytes(magic, h).subrange(0, 8) == magic,
        spec_header_bytes(magic, h).subrange(8, 24) == h.uuid@,
        spec_u64_from_le_bytes(spec_header_bytes(magic, h).subrange(24, 32)) == h.ctime,
        spec_header_bytes(magic, h).subrange(32, 64) == h.index_csum@,
        spec_u64_from_le_bytes(spec_header_bytes(magic, h).subrange(64, 72)) == h.size,
        spec_u64_from_le_bytes(spec_header_bytes(magic, h).subrange(72, 80)) == h.chunk_size,
{
    lemma_u64_le_len(h.ctime);
    lemma_u64_le_len(h.size);
    lemma_u64_le_len(h.chunk_size);
    let b = spec_header_bytes(magic, h);
    assert(b.len() == HEADER_SIZE);
    assert(b.subrange(0, 8) =~= magic);
    assert(b.subrange(8, 24) =~= h.uuid@);
    assert(b.subrange(24, 32) =~= spec_u64_to_le_bytes(h.ctime));
    assert(b.subrange(32, 64) =~= h.index_csum@);
    assert(b.subrange(64, 72) =~= spec_u64_to_le_bytes(h.size));
    assert(b.subrange(72, 80) =~= spec_u64_to_le_bytes(h.chunk_size));
    vstd::bytes::lemma_auto_spec_u64_to_from_le_bytes();
}

/// The little-endian encoding is eight bytes long.
pub proof fn lemma_u64_le_len(x: u64)
    ensures
        spec_u64_to_le_bytes(x).len() == 8,
{
    vstd::bytes::lemma_auto_spec_u64_to_from_le_bytes();
}

} // verus!
