//! The fixed-size-chunk index format (`.fidx`): a header page followed
//! by `ceil(size / chunk_size)` 32-byte digest slots in offset order.
//! The writer fills slots in any order and seals the file with a
//! SHA-256 checksum over the whole slot array; the reader rejects any
//! file whose length is not exactly `header + slots * 32`.

use vstd::prelude::*;
use vstd::arithmetic::div_mod::{
    lemma_div_is_ordered, lemma_fundamental_div_mod, lemma_mod_bound,
};

use crate::chunk_store::{sat_add, ChunkStat, ChunkStore, GarbageCollectionStatus, insert_result, ChunkEntry};
use crate::digest::{marked_after, sha256, sha256_of, DigestSet};
use crate::error::StoreError;
use crate::format::{
    encode_header, fixed_index_magic, fixed_magic, parse_header, push_byte_slice, read_bytes32,
    spec_header_bytes, IndexHeader, HEADER_SIZE,
};
use crate::sys::{epoch_now, generate_uuid};

verus! {

/// One chunk as the chunker hands it over: its digest, its length and
/// the logical end offset it covers.
pub struct ChunkInfo {
    /// Digest of the chunk's bytes.
    pub digest: [u8; 32],
    /// Length of the chunk in bytes.
    pub chunk_len: u64,
    /// Logical offset of the first byte after the chunk.
    pub offset: u64,
}

impl ChunkInfo {
    /// Describe a chunk from its bytes: the digest is computed from the
    /// data, so equal data always yields the equal digest.
    pub fn new(data: &[u8], offset: u64) -> (r: ChunkInfo)
        ensures
            r.digest@ == sha256_of(data@),
            r.chunk_len == data@.len(),
            r.offset == offset,
    {
        let digest = sha256(data);
        ChunkInfo { digest, chunk_len: data.len() as u64, offset }
    }
}

/// How many digest slots an index of `size` logical bytes has:
/// `ceil(size / chunk_size)`.
pub open spec fn spec_index_length(size: u64, chunk_size: u64) -> int
    recommends
        chunk_size > 0,
{
    if size == 0 {
        0
    } else {
        (size - 1) / (chunk_size as int) + 1
    }
}

/// The byte image of a digest slot array.
pub open spec fn slots_bytes(slots: Seq<[u8; 32]>) -> Seq<u8>
    decreases slots.len(),
{
    if slots.len() == 0 {
        Seq::empty()
    } else {
        slots_bytes(slots.drop_last()) + slots.last()@
    }
}

/// The slot array's byte image is 32 bytes per slot.
pub proof fn lemma_slots_bytes_len(slots: Seq<[u8; 32]>)
    ensures
        slots_bytes(slots).len() == 32 * slots.len(),
    decreases slots.len(),
{
    if slots.len() > 0 {
        lemma_slots_bytes_len(slots.drop_last());
    }
}

/// Slot `i` stands at bytes `32 * i .. 32 * i + 32` of the byte image.
pub proof fn lemma_slots_bytes_index(slots: Seq<[u8; 32]>, i: int)
    requires
        0 <= i < slots.len(),
    ensures
        slots_bytes(slots).subrange(32 * i, 32 * i + 32) == slots[i]@,
    decreases slots.len(),
{
    lemma_slots_bytes_len(slots);
    lemma_slots_bytes_len(slots.drop_last());
    if i == slots.len() - 1 {
        assert(slots_bytes(slots).subrange(32 * i, 32 * i + 32) =~= slots.last()@);
    } else {
        lemma_slots_bytes_index(slots.drop_last(), i);
        assert(slots_bytes(slots).subrange(32 * i, 32 * i + 32) =~= slots_bytes(
            slots.drop_last(),
        ).subrange(32 * i, 32 * i + 32));
    }
}

/// Everything a fixed index file holds, at the specification level.
pub ghost struct FixedIndexView {
    pub uuid: Seq<u8>,
    pub ctime: u64,
    pub index_csum: Seq<u8>,
    pub size: u64,
    pub chunk_size: u64,
    pub slots: Seq<Seq<u8>>,
}

/// What parsing a fixed index file yields: its view when the magic,
/// the sizes and the exact file length agree, nothing otherwise.
pub open spec fn fixed_parse(bytes: Seq<u8>) -> Option<FixedIndexView> {
    if bytes.len() < HEADER_SIZE {
        None
    } else if bytes.subrange(0, 8) != fixed_magic() {
        None
    } else {
        let size = vstd::bytes::spec_u64_from_le_bytes(bytes.subrange(64, 72));
        let chunk_size = vstd::bytes::spec_u64_from_le_bytes(bytes.subrange(72, 80));
        if chunk_size == 0 || size > usize::MAX || chunk_size > usize::MAX {
            None
        } else {
            let n = spec_index_length(size, chunk_size);
            if n > (usize::MAX - HEADER_SIZE) / 32 {
                None
            } else if bytes.len() != HEADER_SIZE + n * 32 {
                None
            } else {
                Some(
                    FixedIndexView {
                        uuid: bytes.subrange(8, 24),
                        ctime: vstd::bytes::spec_u64_from_le_bytes(bytes.subrange(24, 32)),
                        index_csum: bytes.subrange(32, 64),
                        size,
                        chunk_size,
                        slots: Seq::new(
                            n as nat,
                            |i: int|
                                bytes.subrange(
                                    HEADER_SIZE + 32 * i,
                                    HEADER_SIZE + 32 * i + 32,
                                ),
                        ),
                    },
                )
            }
        }
    }
}

/// A published fixed index file, held decoded in memory, read-only.
pub struct FixedIndexReader {
    /// The fixed chunk size of the stream.
    pub chunk_size: usize,
    /// The total logical size of the stream.
    pub size: usize,
    /// How many digest slots the file has.
    pub index_length: usize,
    /// The digest slots, in offset order.
    pub slots: Vec<[u8; 32]>,
    /// The file's random identifier.
    pub uuid: [u8; 16],
    /// The file's creation time.
    pub ctime: u64,
    /// The stored checksum over the slot array.
    pub index_csum: [u8; 32],
}

impl FixedIndexReader {
    /// The digest slots, in offset order.
    pub open spec fn slots_arr(&self) -> Seq<[u8; 32]> {
        self.slots@
    }

    /// How many slots the index has (specification side).
    pub open spec fn spec_index_count(&self) -> int {
        self.index_length as int
    }

    /// The reader as a view of its file.
    pub open spec fn view_of(&self) -> FixedIndexView {
        FixedIndexView {
            uuid: self.uuid@,
            ctime: self.ctime,
            index_csum: self.index_csum@,
            size: self.size as u64,
            chunk_size: self.chunk_size as u64,
            slots: Seq::new(self.slots_arr().len(), |i: int| self.slots_arr()[i]@),
        }
    }

    /// Sizes and slot count agree as the format demands.
    pub open spec fn wf(&self) -> bool {
        &&& self.chunk_size > 0
        &&& self.index_length == spec_index_length(self.size as u64, self.chunk_size as u64)
        &&& self.slots_arr().len() == self.index_length
        &&& self.index_length <= (usize::MAX - HEADER_SIZE) / 32
    }

    /// Decode a fixed index file. Fails with a format error exactly when
    /// the magic is wrong, a size field is unusable, or the file length
    /// is not exactly `header + slots * 32`.
    pub fn open(bytes: &[u8]) -> (r: Result<FixedIndexReader, StoreError>)
        ensures
            r is Ok <==> fixed_parse(bytes@) is Some,
            r is Ok ==> fixed_parse(bytes@) == Some(r->Ok_0.view_of()) && r->Ok_0.wf(),
            r is Err ==> r == Result::<FixedIndexReader, StoreError>::Err(StoreError::Format),
    {
        let blen = bytes.len();
        let magic = fixed_index_magic();
        let header = parse_header(bytes, &magic)?;
        if header.chunk_size == 0 {
            return Err(StoreError::Format);
        }
        if header.size > usize::MAX as u64 || header.chunk_size > usize::MAX as u64 {
            return Err(StoreError::Format);
        }
        let n64: u64 = if header.size == 0 {
            0
        } else {
            (header.size - 1) / header.chunk_size + 1
        };
        if n64 > ((usize::MAX - HEADER_SIZE) / 32) as u64 {
            return Err(StoreError::Format);
        }
        let n = n64 as usize;
        if blen as u64 != HEADER_SIZE as u64 + n64 * 32 {
            return Err(StoreError::Format);
        }
        let mut slots: Vec<[u8; 32]> = Vec::new();
        let mut i: usize = 0;
        while i < n
            invariant
                i <= n,
                blen == bytes@.len(),
                blen == HEADER_SIZE + n * 32,
                n <= (usize::MAX - HEADER_SIZE) / 32,
                slots@.len() == i,
                forall|j: int|
                    0 <= j < i ==> slots@[j]@ == bytes@.subrange(
                        HEADER_SIZE + 32 * j,
                        HEADER_SIZE + 32 * j + 32,
                    ),
            decreases n - i,
        {
            let slot = read_bytes32(bytes, HEADER_SIZE + 32 * i);
            slots.push(slot);
            i = i + 1;
        }
        let r = FixedIndexReader {
            chunk_size: header.chunk_size as usize,
            size: header.size as usize,
            index_length: n,
            slots,
            uuid: header.uuid,
            ctime: header.ctime,
            index_csum: header.index_csum,
        };
        proof {
            assert(fixed_parse(bytes@) == Some(r.view_of())) by {
                let v = fixed_parse(bytes@)->Some_0;
                assert(v.slots =~= r.view_of().slots);
            }
        }
        Ok(r)
    }

    /// How many digest slots the index has.
    pub fn index_count(&self) -> (r: usize)
        ensures
            r == self.spec_index_count(),
    {
        self.index_length
    }

    /// The digest at slot `pos`, or nothing past the end.
    pub fn index_digest(&self, pos: usize) -> (r: Option<&[u8; 32]>)
        requires
            self.wf(),
        ensures
            pos < self.spec_index_count() <==> r is Some,
            pos < self.spec_index_count() ==> r == Some(&self.slots_arr()[pos as int]),
    {
        if pos >= self.index_length {
            None
        } else {
            Some(&self.slots[pos])
        }
    }

    /// How many logical bytes the slots cover: `slots * chunk_size`,
    /// saturating at `u64::MAX`.
    pub fn index_bytes(&self) -> (r: u64)
        ensures
            r == sat_mul(self.spec_index_count(), self.chunk_size as int),
    {
        let n = self.index_length as u64;
        let c = self.chunk_size as u64;
        if n == 0 || c == 0 {
            return 0;
        }
        if n > u64::MAX / c {
            proof {
                lemma_mul_div_bound(n as int, c as int, u64::MAX as int);
            }
            return u64::MAX;
        }
        proof {
            lemma_mul_div_bound(n as int, c as int, u64::MAX as int);
        }
        n * c
    }

    /// The length of the chunk at slot `pos`: the chunk size, except
    /// that the final chunk only reaches to the logical size.
    pub open spec fn spec_slot_len(&self, pos: int) -> int {
        if pos == self.spec_index_count() - 1 {
            self.size - (self.spec_index_count() - 1) * self.chunk_size
        } else {
            self.chunk_size as int
        }
    }

    /// Mark every digest of this index as used: each distinct digest is
    /// recorded once and counts once for `used_chunks`, while every slot
    /// contributes its chunk length to `used_bytes`.
    pub fn mark_used_chunks(&self, marked: &mut DigestSet, status: &mut GarbageCollectionStatus)
        requires
            self.wf(),
            old(marked).wf(),
        ensures
            final(marked).wf(),
            final(marked).items() == marked_after(old(marked).items(), self.view_of().slots),
            final(status).used_chunks == sat_add(
                old(status).used_chunks,
                marked_after(old(marked).items(), self.view_of().slots).len() - old(
                    marked,
                ).items().len(),
            ),
            final(status).disk_bytes == old(status).disk_bytes,
            final(status).disk_chunks == old(status).disk_chunks,
            final(status).used_bytes == used_bytes_after(
                old(status).used_bytes,
                *self,
                self.spec_index_count(),
            ),
    {
        let n = self.index_length;
        let mut i: usize = 0;
        while i < n
            invariant
                i <= n,
                self.wf(),
                n == self.spec_index_count(),
                marked.wf(),
                marked.items() == marked_after(
                    old(marked).items(),
                    self.view_of().slots.take(i as int),
                ),
                status.used_chunks == sat_add(
                    old(status).used_chunks,
                    marked.items().len() - old(marked).items().len(),
                ),
                marked.items().len() >= old(marked).items().len(),
                status.used_bytes == used_bytes_after(old(status).used_bytes, *self, i as int),
                status.disk_bytes == old(status).disk_bytes,
                status.disk_chunks == old(status).disk_chunks,
            decreases n - i,
        {
            proof {
                assert(self.view_of().slots.take(i + 1int).drop_last() =~= self.view_of(
                ).slots.take(i as int));
                assert(self.view_of().slots.take(i + 1int).last() == self.view_of().slots[
                    i as int
                ]);
            }
            let newly = marked.insert(&self.slots[i]);
            if newly {
                status.used_chunks = status.used_chunks.saturating_add(1);
            }
            let len = self.slot_len(i);
            status.used_bytes = status.used_bytes.saturating_add(len);
            i = i + 1;
        }
        proof {
            assert(self.view_of().slots.take(n as int) =~= self.view_of().slots);
        }
    }

    /// The length of the chunk at slot `pos`.
    fn slot_len(&self, pos: usize) -> (r: u64)
        requires
            self.wf(),
            pos < self.spec_index_count(),
        ensures
            r == self.spec_slot_len(pos as int),
    {
        if pos == self.index_length - 1 {
            proof {
                lemma_last_slot_len(self.size as int, self.chunk_size as int);
            }
            (self.size - (self.index_length - 1) * self.chunk_size) as u64
        } else {
            self.chunk_size as u64
        }
    }

    /// Recompute the digest-of-digests over the slot array.
    pub fn compute_index_csum(&self) -> (r: [u8; 32])
        requires
            self.wf(),
        ensures
            r@ == sha256_of(slots_bytes(self.slots_arr())),
    {
        let area = slot_area_bytes(&self.slots);
        sha256(area.as_slice())
    }
}

/// `a * b`, stopping at `u64::MAX`.
pub open spec fn sat_mul(a: int, b: int) -> u64
    recommends
        a >= 0,
        b >= 0,
{
    if a * b > u64::MAX {
        u64::MAX
    } else {
        (a * b) as u64
    }
}

/// `used_bytes` after marking the first `k` slots: the chunk lengths
/// added one by one, saturating at `u64::MAX`.
pub open spec fn used_bytes_after(start: u64, reader: FixedIndexReader, k: int) -> u64
    decreases k,
{
    if k <= 0 {
        start
    } else {
        sat_add(used_bytes_after(start, reader, k - 1), reader.spec_slot_len(k - 1))
    }
}

/// The first `k` slots cover `k` whole chunks, or the whole logical
/// size once `k` is the slot count.
pub open spec fn covered_bytes(r: FixedIndexReader, k: int) -> int {
    if k <= 0 {
        0
    } else if k == r.spec_index_count() {
        r.size as int
    } else {
        k * (r.chunk_size as int)
    }
}

/// Marking a whole fixed index adds exactly its logical size to the
/// byte counter, saturating at `u64::MAX`.
pub proof fn lemma_fixed_used_bytes_total(start: u64, r: FixedIndexReader)
    requires
        r.wf(),
    ensures
        used_bytes_after(start, r, r.spec_index_count()) == sat_add(start, r.size as int),
{
    lemma_fixed_used_bytes_partial(start, r, r.spec_index_count());
    if r.spec_index_count() == 0 {
        assert(r.size == 0);
    }
}

/// The byte counter after `k` slots is `start` plus the covered bytes.
proof fn lemma_fixed_used_bytes_partial(start: u64, r: FixedIndexReader, k: int)
    requires
        r.wf(),
        0 <= k <= r.spec_index_count(),
    ensures
        used_bytes_after(start, r, k) == sat_add(start, covered_bytes(r, k)),
    decreases k,
{
    let n = r.spec_index_count();
    let cs = r.chunk_size as int;
    if k == 0 {
        assert(sat_add(start, 0) == start);
    } else {
        lemma_fixed_used_bytes_partial(start, r, k - 1);
        assert(n == spec_index_length(r.size as u64, r.chunk_size as u64));
        assert(r.size > 0);
        lemma_fundamental_div_mod(r.size - 1, cs);
        lemma_mod_bound(r.size - 1, cs);
        assert(cs * ((r.size - 1) / cs) == ((r.size - 1) / cs) * cs) by (nonlinear_arith);
        // The last slot's length completes the size; a middle slot adds
        // one whole chunk.
        if k == n {
            if k - 1 == 0 {
                assert((n - 1) * cs == 0) by (nonlinear_arith)
                    requires
                        n - 1 == 0,
                ;
            } else {
                assert((k - 1) * cs == (n - 1) * cs);
            }
            assert(covered_bytes(r, k - 1) + r.spec_slot_len(k - 1) == r.size);
        } else {
            assert(r.spec_slot_len(k - 1) == cs);
            if k - 1 == 0 {
                assert(k * cs == cs) by (nonlinear_arith)
                    requires
                        k == 1,
                ;
            } else {
                assert((k - 1) * cs + cs == k * cs) by (nonlinear_arith);
            }
            assert(covered_bytes(r, k - 1) + r.spec_slot_len(k - 1) == covered_bytes(r, k));
        }
        assert(covered_bytes(r, k - 1) >= 0) by {
            if k - 1 > 0 && k - 1 < n {
                assert((k - 1) * cs >= 0) by (nonlinear_arith)
                    requires
                        k - 1 >= 0,
                        cs > 0,
                ;
            }
        }
        assert(r.spec_slot_len(k - 1) >= 0);
        assert(sat_add(sat_add(start, covered_bytes(r, k - 1)), r.spec_slot_len(k - 1))
            == sat_add(start, covered_bytes(r, k - 1) + r.spec_slot_len(k - 1)));
    }
}

/// With `n > 0` slots for `size` bytes, the final slot covers between
/// one byte and a whole chunk.
proof fn lemma_last_slot_len(size: int, chunk_size: int)
    requires
        chunk_size > 0,
        0 < size <= usize::MAX,
    ensures
        0 < size - ((size - 1) / chunk_size) * chunk_size <= chunk_size,
{
    lemma_fundamental_div_mod(size - 1, chunk_size);
    lemma_mod_bound(size - 1, chunk_size);
    let q = (size - 1) / chunk_size;
    let r = (size - 1) % chunk_size;
    assert(size - 1 == chunk_size * q + r);
    assert(0 <= r < chunk_size);
    assert(chunk_size * q == q * chunk_size) by (nonlinear_arith);
    assert(size - q * chunk_size == r + 1);
}

/// If `a * b` would exceed `m` then `a > m / b`, and conversely.
pub proof fn lemma_mul_div_bound(a: int, b: int, m: int)
    requires
        a >= 0,
        b > 0,
        m >= 0,
    ensures
        a * b > m <==> a > m / b,
{
    lemma_fundamental_div_mod(m, b);
    lemma_mod_bound(m, b);
    let q = m / b;
    let r = m % b;
    assert(m == b * q + r);
    assert(0 <= r < b);
    if a > q {
        assert(a * b >= (q + 1) * b) by (nonlinear_arith)
            requires
                a >= q + 1,
                b > 0,
        ;
        assert((q + 1) * b == q * b + b) by (nonlinear_arith);
        assert(b * q == q * b) by (nonlinear_arith);
        assert(a * b >= q * b + b > q * b + r == m);
    } else {
        assert(a * b <= q * b) by (nonlinear_arith)
            requires
                a <= q,
                b > 0,
        ;
        assert(b * q == q * b) by (nonlinear_arith);
        assert(a * b <= m);
    }
}

/// An all-zero digest slot.
pub open spec fn zero_digest() -> Seq<u8> {
    Seq::new(32, |i: int| 0u8)
}

/// The characters of the staging extension of a fixed index writer.
pub open spec fn tmp_fidx_ext() -> Seq<char> {
    seq!['t', 'm', 'p', '_', 'f', 'i', 'd', 'x']
}

/// A fixed index file under construction: slots may be written at any
/// offset until `close` seals the checksum. The caller stages the byte
/// image under the `tmp` name and renames it into place only after a
/// successful close.
pub struct FixedIndexWriter {
    /// The file's final name, relative to the datastore base.
    pub filename: String,
    /// The staging name the byte image is written under first.
    pub tmp_filename: String,
    /// The fixed chunk size of the stream.
    pub chunk_size: usize,
    /// The total logical size of the stream.
    pub size: usize,
    /// How many digest slots the file has.
    pub index_length: usize,
    /// The digest slots, in offset order; unwritten slots stay zero.
    pub slots: Vec<[u8; 32]>,
    /// The file's random identifier.
    pub uuid: [u8; 16],
    /// The file's creation time.
    pub ctime: u64,
    /// The checksum over the slot array, filled in by `close`.
    pub index_csum: [u8; 32],
    /// True once the writer is sealed.
    pub closed: bool,
}

impl FixedIndexWriter {
    /// Sizes and slot count agree as the format demands.
    pub open spec fn wf(&self) -> bool {
        &&& self.chunk_size > 0
        &&& self.index_length == spec_index_length(self.size as u64, self.chunk_size as u64)
        &&& self.slots@.len() == self.index_length
        &&& self.index_length <= (usize::MAX - HEADER_SIZE) / 32
    }

    /// The header fields the file is sealed with.
    pub open spec fn header(&self) -> IndexHeader {
        IndexHeader {
            uuid: self.uuid,
            ctime: self.ctime,
            index_csum: self.index_csum,
            size: self.size as u64,
            chunk_size: self.chunk_size as u64,
        }
    }

    /// True when the two writers agree on everything but the slots.
    pub open spec fn same_but_slots(&self, other: &FixedIndexWriter) -> bool {
        &&& self.filename@ == other.filename@
        &&& self.tmp_filename@ == other.tmp_filename@
        &&& self.chunk_size == other.chunk_size
        &&& self.size == other.size
        &&& self.index_length == other.index_length
        &&& self.uuid == other.uuid
        &&& self.ctime == other.ctime
        &&& self.index_csum == other.index_csum
        &&& self.closed == other.closed
    }

    /// True when the two writers agree on everything.
    pub open spec fn same_writer(&self, other: &FixedIndexWriter) -> bool {
        self.same_but_slots(other) && self.slots@ == other.slots@
    }

    /// Open a writer for `path` bound to a logical size and chunk size,
    /// taking the store's shared lock. Fails with a consistency error
    /// when the chunk size is zero or the slot array cannot exist, and
    /// with a contention error when garbage collection holds the store.
    pub fn create(store: &mut ChunkStore, path: &str, size: usize, chunk_size: usize) -> (r:
        Result<FixedIndexWriter, StoreError>)
        requires
            old(store).wf(),
        ensures
            final(store).wf(),
            final(store).entries() == old(store).entries(),
            final(store).name() == old(store).name(),
            final(store).base() == old(store).base(),
            final(store).exclusive_locked() == old(store).exclusive_locked(),
            r is Ok <==> (chunk_size > 0 && spec_index_length(size as u64, chunk_size as u64)
                <= (usize::MAX - HEADER_SIZE) / 32 && !old(store).exclusive_locked() && old(
                store,
            ).shared_locks() < u64::MAX),
            r is Ok ==> final(store).shared_locks() == old(store).shared_locks() + 1,
            r is Err ==> final(store).shared_locks() == old(store).shared_locks(),
            (chunk_size == 0 || spec_index_length(size as u64, chunk_size as u64) > (usize::MAX
                - HEADER_SIZE) / 32) ==> r == Result::<FixedIndexWriter, StoreError>::Err(
                StoreError::Consistency,
            ),
            r is Err ==> (r == Result::<FixedIndexWriter, StoreError>::Err(StoreError::Consistency)
                || r == Result::<FixedIndexWriter, StoreError>::Err(StoreError::LockContention)),
            r is Ok ==> {
                let w = r->Ok_0;
                &&& w.wf()
                &&& w.filename@ == path@
                &&& w.tmp_filename@ == crate::backup_path::with_ext(path@, tmp_fidx_ext())
                &&& w.chunk_size == chunk_size
                &&& w.size == size
                &&& w.index_length == spec_index_length(size as u64, chunk_size as u64)
                &&& forall|i: int| 0 <= i < w.slots@.len() ==> w.slots@[i]@ == zero_digest()
                &&& !w.closed
            },
    {
        if chunk_size == 0 {
            return Err(StoreError::Consistency);
        }
        let n: usize = if size == 0 {
            0
        } else {
            (size - 1) / chunk_size + 1
        };
        if n > (usize::MAX - HEADER_SIZE) / 32 {
            return Err(StoreError::Consistency);
        }
        if !store.try_shared_lock() {
            return Err(StoreError::LockContention);
        }
        let ctime = epoch_now();
        let uuid = generate_uuid();
        let mut slots: Vec<[u8; 32]> = Vec::new();
        let mut i: usize = 0;
        while i < n
            invariant
                i <= n,
                slots@.len() == i,
                forall|j: int| 0 <= j < i ==> slots@[j]@ == zero_digest(),
            decreases n - i,
        {
            let z = [0u8; 32];
            proof {
                assert(z@ =~= zero_digest());
            }
            slots.push(z);
            i = i + 1;
        }
        let tmp_filename = crate::backup_path::with_extension(path, "tmp_fidx");
        proof {
            reveal_strlit("tmp_fidx");
            assert("tmp_fidx"@ =~= tmp_fidx_ext());
        }
        Ok(
            FixedIndexWriter {
                filename: path.to_owned(),
                tmp_filename,
                chunk_size,
                size,
                index_length: n,
                slots,
                uuid,
                ctime,
                index_csum: [0u8; 32],
                closed: false,
            },
        )
    }

    /// How many digest slots the index has.
    pub fn index_length(&self) -> (r: usize)
        ensures
            r == self.index_length,
    {
        self.index_length
    }

    /// Write `digest` into slot `index`. Fails with a consistency error
    /// when the slot does not exist, and with a closed error after close.
    pub fn add_digest(&mut self, index: usize, digest: &[u8; 32]) -> (r: Result<(), StoreError>)
        requires
            old(self).wf(),
        ensures
            final(self).wf(),
            r is Ok <==> (index < old(self).index_length && !old(self).closed),
            index >= old(self).index_length ==> r == Result::<(), StoreError>::Err(
                StoreError::Consistency,
            ),
            (index < old(self).index_length && old(self).closed) ==> r == Result::<
                (),
                StoreError,
            >::Err(StoreError::Closed),
            r is Err ==> final(self).same_writer(old(self)),
            r is Ok ==> final(self).same_but_slots(old(self)) && final(self).slots@ == old(
                self,
            ).slots@.update(index as int, *digest),
    {
        if index >= self.index_length {
            return Err(StoreError::Consistency);
        }
        if self.closed {
            return Err(StoreError::Closed);
        }
        self.slots[index] = *digest;
        Ok(())
    }

    /// True when a chunk ending at `offset` with length `len` may be
    /// written: the writer is open, the chunk lies within the declared
    /// size, only the final chunk is shorter than the chunk size, and
    /// its start is aligned to the chunk size.
    pub open spec fn accepts_chunk(&self, offset: u64, len: u64) -> bool {
        &&& !self.closed
        &&& offset >= len
        &&& offset <= self.size as u64
        &&& (offset == self.size as u64 || len == self.chunk_size as u64)
        &&& len <= self.chunk_size as u64
        &&& len > 0
        &&& (offset - len) % (self.chunk_size as int) == 0
    }

    /// Validate a chunk, insert it into the store, account for it, and
    /// write its digest into the slot its offset selects. Chunks may
    /// arrive in any order. Any violation is a consistency error that
    /// leaves the writer, the store and the statistics untouched.
    pub fn add_chunk(
        &mut self,
        store: &mut ChunkStore,
        chunk_info: &ChunkInfo,
        stat: &mut ChunkStat,
    ) -> (r: Result<(), StoreError>)
        requires
            old(self).wf(),
            old(store).wf(),
        ensures
            final(self).wf(),
            final(store).wf(),
            r is Ok <==> old(self).accepts_chunk(chunk_info.offset, chunk_info.chunk_len),
            r is Err ==> final(self).same_writer(old(self)) && final(store).same_state(old(store))
                && *final(stat) == *old(stat) && (r == Result::<(), StoreError>::Err(
                StoreError::Consistency,
            ) || (old(self).closed && r == Result::<(), StoreError>::Err(StoreError::Closed))),
            r is Ok ==> {
                let len = chunk_info.chunk_len;
                let idx = (chunk_info.offset - len) as int / (old(self).chunk_size as int);
                let dup = old(store).has_digest(chunk_info.digest@);
                &&& final(self).same_but_slots(old(self))
                &&& final(self).slots@ == old(self).slots@.update(idx, chunk_info.digest)
                &&& exists|m: u64|
                    final(store).entries() == insert_result(
                        old(store).entries(),
                        ChunkEntry { digest: chunk_info.digest, size: len, mtime: m },
                    )
                &&& final(store).name() == old(store).name()
                &&& final(store).base() == old(store).base()
                &&& final(store).shared_locks() == old(store).shared_locks()
                &&& final(store).exclusive_locked() == old(store).exclusive_locked()
                &&& final(stat).chunk_count == sat_add(old(stat).chunk_count, 1)
                &&& final(stat).compressed_size == sat_add(old(stat).compressed_size, len as int)
                &&& final(stat).duplicate_chunks == if dup {
                    sat_add(old(stat).duplicate_chunks, 1)
                } else {
                    old(stat).duplicate_chunks
                }
                &&& final(stat).disk_size == if dup {
                    old(stat).disk_size
                } else {
                    sat_add(old(stat).disk_size, len as int)
                }
            },
    {
        let len = chunk_info.chunk_len;
        let end = chunk_info.offset;
        if self.closed {
            return Err(StoreError::Closed);
        }
        if end < len {
            return Err(StoreError::Consistency);
        }
        let pos = end - len;
        if end > self.size as u64 {
            return Err(StoreError::Consistency);
        }
        // The final chunk may be shorter; every other chunk is exactly
        // one chunk size, and no chunk is empty.
        if ((end != self.size as u64) && (len != self.chunk_size as u64)) || len > self.chunk_size
            as u64 || len == 0 {
            return Err(StoreError::Consistency);
        }
        if pos % (self.chunk_size as u64) != 0 {
            return Err(StoreError::Consistency);
        }
        let (is_duplicate, compressed_size) = store.insert_chunk(&chunk_info.digest, len);
        stat.chunk_count = stat.chunk_count.saturating_add(1);
        stat.compressed_size = stat.compressed_size.saturating_add(compressed_size);
        if is_duplicate {
            stat.duplicate_chunks = stat.duplicate_chunks.saturating_add(1);
        } else {
            stat.disk_size = stat.disk_size.saturating_add(compressed_size);
        }
        proof {
            lemma_slot_in_range(self.size as int, self.chunk_size as int, pos as int);
        }
        let idx = (pos / (self.chunk_size as u64)) as usize;
        self.add_digest(idx, &chunk_info.digest)
    }

    /// Seal the writer: compute the digest-of-digests over the slot
    /// array, store it as the index checksum, and release the store's
    /// shared lock. A second close is an error.
    pub fn close(&mut self, store: &mut ChunkStore) -> (r: Result<[u8; 32], StoreError>)
        requires
            old(self).wf(),
            !old(self).closed ==> old(store).shared_locks() >= 1,
        ensures
            final(self).wf(),
            r is Ok <==> !old(self).closed,
            old(self).closed ==> r == Result::<[u8; 32], StoreError>::Err(StoreError::Closed)
                && final(self).same_writer(old(self)) && final(store).same_state(old(store)),
            !old(self).closed ==> {
                &&& final(self).closed
                &&& final(self).index_csum@ == sha256_of(slots_bytes(old(self).slots@))
                &&& r == Result::<[u8; 32], StoreError>::Ok(final(self).index_csum)
                &&& final(self).slots@ == old(self).slots@
                &&& final(self).filename@ == old(self).filename@
                &&& final(self).tmp_filename@ == old(self).tmp_filename@
                &&& final(self).chunk_size == old(self).chunk_size
                &&& final(self).size == old(self).size
                &&& final(self).index_length == old(self).index_length
                &&& final(self).uuid == old(self).uuid
                &&& final(self).ctime == old(self).ctime
                &&& final(store).shared_locks() == old(store).shared_locks() - 1
                &&& final(store).entries() == old(store).entries()
                &&& final(store).name() == old(store).name()
                &&& final(store).base() == old(store).base()
                &&& final(store).exclusive_locked() == old(store).exclusive_locked()
            },
    {
        if self.closed {
            return Err(StoreError::Closed);
        }
        let area = slot_area_bytes(&self.slots);
        let csum = sha256(area.as_slice());
        self.index_csum = csum;
        self.closed = true;
        store.release_shared_lock();
        Ok(csum)
    }

    /// The byte image of the sealed index file: the header page, then
    /// the slot array.
    pub fn index_file_bytes(&self) -> (r: Vec<u8>)
        requires
            self.wf(),
            self.closed,
        ensures
            r@ == spec_header_bytes(fixed_magic(), self.header()) + slots_bytes(self.slots@),
    {
        let magic = fixed_index_magic();
        let h = IndexHeader {
            uuid: self.uuid,
            ctime: self.ctime,
            index_csum: self.index_csum,
            size: self.size as u64,
            chunk_size: self.chunk_size as u64,
        };
        let mut r = encode_header(&magic, &h);
        let mut area = slot_area_bytes(&self.slots);
        r.append(&mut area);
        r
    }
}

/// A chunk start below `size` selects a slot below the slot count.
proof fn lemma_slot_in_range(size: int, chunk_size: int, pos: int)
    requires
        chunk_size > 0,
        0 <= pos < size,
    ensures
        pos / chunk_size < spec_index_length(size as u64, chunk_size as u64) || size > u64::MAX
            || chunk_size > u64::MAX,
    decreases 0int,
{
    if size <= u64::MAX && chunk_size <= u64::MAX {
        lemma_div_is_ordered(pos, size - 1, chunk_size);
    }
}

/// Law: the byte image a sealed writer produces parses back to exactly
/// the header fields and digest slots it was built from.
pub proof fn lemma_fixed_index_round_trip(h: IndexHeader, slots: Seq<[u8; 32]>)
    requires
        h.chunk_size > 0,
        h.size <= usize::MAX,
        h.chunk_size <= usize::MAX,
        slots.len() == spec_index_length(h.size, h.chunk_size),
        slots.len() <= (usize::MAX - HEADER_SIZE) / 32,
    ensures
        fixed_parse(spec_header_bytes(fixed_magic(), h) + slots_bytes(slots)) == Some(
            FixedIndexView {
                uuid: h.uuid@,
                ctime: h.ctime,
                index_csum: h.index_csum@,
                size: h.size,
                chunk_size: h.chunk_size,
                slots: Seq::new(slots.len(), |i: int| slots[i]@),
            },
        ),
{
    let hb = spec_header_bytes(fixed_magic(), h);
    let b = hb + slots_bytes(slots);
    crate::format::lemma_header_round_trip(fixed_magic(), h);
    lemma_slots_bytes_len(slots);
    assert(b.subrange(0, 8) =~= hb.subrange(0, 8));
    assert(b.subrange(8, 24) =~= hb.subrange(8, 24));
    assert(b.subrange(24, 32) =~= hb.subrange(24, 32));
    assert(b.subrange(32, 64) =~= hb.subrange(32, 64));
    assert(b.subrange(64, 72) =~= hb.subrange(64, 72));
    assert(b.subrange(72, 80) =~= hb.subrange(72, 80));
    let v = fixed_parse(b)->Some_0;
    assert forall|i: int| 0 <= i < slots.len() implies v.slots[i] == slots[i]@ by {
        lemma_slots_bytes_index(slots, i);
        assert(b.subrange(HEADER_SIZE + 32 * i, HEADER_SIZE + 32 * i + 32) =~= slots_bytes(
            slots,
        ).subrange(32 * i, 32 * i + 32));
    }
    assert(v.slots =~= Seq::new(slots.len(), |i: int| slots[i]@));
}

/// The byte image of a slot array.
fn slot_area_bytes(slots: &Vec<[u8; 32]>) -> (r: Vec<u8>)
    requires
        slots@.len() <= (usize::MAX - HEADER_SIZE) / 32,
    ensures
        r@ == slots_bytes(slots@),
{
    let mut r: Vec<u8> = Vec::new();
    let mut i: usize = 0;
    while i < slots.len()
        invariant
            i <= slots@.len(),
            r@ == slots_bytes(slots@.take(i as int)),
        decreases slots@.len() - i,
    {
        push_byte_slice(&mut r, slots[i].as_slice());
        proof {
            assert(slots@.take(i + 1int).drop_last() =~= slots@.take(i as int));
            assert(slots@.take(i + 1int).last() == slots@[i as int]);
        }
        i = i + 1;
    }
    proof {
        assert(slots@.take(slots@.len() as int) =~= slots@);
    }
    r
}

} // verus!
