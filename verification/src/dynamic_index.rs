//! The dynamic-size-chunk index format (`.didx`): a header page
//! followed by records of `(cumulative end offset, digest)`, 40 bytes
//! each. Chunk boundaries are content-defined, so records are appended
//! strictly in stream order: every end offset exceeds the one before
//! it, and a chunk's length is the difference between the two.

use vstd::prelude::*;

use crate::chunk_store::{sat_add, ChunkStat, ChunkStore, GarbageCollectionStatus, insert_result, ChunkEntry};
use crate::digest::{marked_after, sha256, sha256_of, DigestSet};
use crate::error::StoreError;
use crate::format::{
    dynamic_index_magic, dynamic_magic, encode_header, parse_header, push_byte_slice, push_u64_le,
    read_bytes32, read_u64_le, spec_header_bytes, IndexHeader, HEADER_SIZE,
};
use crate::sys::{epoch_now, generate_uuid};
use crate::fixed_index::ChunkInfo;

verus! {

/// Bytes of one record: an 8-byte end offset and a 32-byte digest.
pub const DYN_ENTRY_SIZE: usize = 40;

/// One record of a dynamic index: the logical offset of the first byte
/// after the chunk, and the chunk's digest.
#[derive(Clone, Copy, Debug)]
pub struct DynEntry {
    pub end: u64,
    pub digest: [u8; 32],
}

/// The byte image of a record array.
pub open spec fn dyn_entries_bytes(entries: Seq<DynEntry>) -> Seq<u8>
    decreases entries.len(),
{
    if entries.len() == 0 {
        Seq::empty()
    } else {
        dyn_entries_bytes(entries.drop_last()) + vstd::bytes::spec_u64_to_le_bytes(
            entries.last().end,
        ) + entries.last().digest@
    }
}

/// The record array's byte image is 40 bytes per record.
pub proof fn lemma_dyn_entries_bytes_len(entries: Seq<DynEntry>)
    ensures
        dyn_entries_bytes(entries).len() == DYN_ENTRY_SIZE * entries.len(),
    decreases entries.len(),
{
    if entries.len() > 0 {
        lemma_dyn_entries_bytes_len(entries.drop_last());
        crate::format::lemma_u64_le_len(entries.last().end);
    }
}

/// Record `i` stands at bytes `40 * i .. 40 * i + 40` of the byte image.
pub proof fn lemma_dyn_entries_bytes_index(entries: Seq<DynEntry>, i: int)
    requires
        0 <= i < entries.len(),
    ensures
        dyn_entries_bytes(entries).subrange(
            DYN_ENTRY_SIZE * i,
            DYN_ENTRY_SIZE * i + 8,
        ) == vstd::bytes::spec_u64_to_le_bytes(entries[i].end),
        dyn_entries_bytes(entries).subrange(
            DYN_ENTRY_SIZE * i + 8,
            DYN_ENTRY_SIZE * i + DYN_ENTRY_SIZE,
        ) == entries[i].digest@,
    decreases entries.len(),
{
    lemma_dyn_entries_bytes_len(entries);
    lemma_dyn_entries_bytes_len(entries.drop_last());
    crate::format::lemma_u64_le_len(entries.last().end);
    if i == entries.len() - 1 {
        assert(dyn_entries_bytes(entries).subrange(DYN_ENTRY_SIZE * i, DYN_ENTRY_SIZE * i + 8)
            =~= vstd::bytes::spec_u64_to_le_bytes(entries.last().end));
        assert(dyn_entries_bytes(entries).subrange(
            DYN_ENTRY_SIZE * i + 8,
            DYN_ENTRY_SIZE * i + DYN_ENTRY_SIZE,
        ) =~= entries.last().digest@);
    } else {
        lemma_dyn_entries_bytes_index(entries.drop_last(), i);
        assert(dyn_entries_bytes(entries).subrange(DYN_ENTRY_SIZE * i, DYN_ENTRY_SIZE * i + 8)
            =~= dyn_entries_bytes(entries.drop_last()).subrange(
            DYN_ENTRY_SIZE * i,
            DYN_ENTRY_SIZE * i + 8,
        ));
        assert(dyn_entries_bytes(entries).subrange(
            DYN_ENTRY_SIZE * i + 8,
            DYN_ENTRY_SIZE * i + DYN_ENTRY_SIZE,
        ) =~= dyn_entries_bytes(entries.drop_last()).subrange(
            DYN_ENTRY_SIZE * i + 8,
            DYN_ENTRY_SIZE * i + DYN_ENTRY_SIZE,
        ));
    }
}

/// The end offset of the last record, or zero with no records.
pub open spec fn last_end(entries: Seq<DynEntry>) -> u64 {
    if entries.len() == 0 {
        0
    } else {
        entries.last().end
    }
}

/// End offsets grow strictly, starting above zero.
pub open spec fn offsets_monotone(entries: Seq<DynEntry>) -> bool {
    forall|i: int|
        0 <= i < entries.len() ==> (#[trigger] entries[i].end) > (if i == 0 {
            0
        } else {
            entries[i - 1].end
        })
}

/// Everything a dynamic index file holds, at the specification level:
/// the header fields and the records as `(end offset, digest)` pairs.
pub ghost struct DynamicIndexView {
    pub uuid: Seq<u8>,
    pub ctime: u64,
    pub index_csum: Seq<u8>,
    pub size: u64,
    pub chunk_size: u64,
    pub entries: Seq<(u64, Seq<u8>)>,
}

/// The records read from the bytes after the header page.
pub open spec fn dyn_view_entries(bytes: Seq<u8>, n: int) -> Seq<(u64, Seq<u8>)> {
    Seq::new(
        n as nat,
        |i: int|
            (
                vstd::bytes::spec_u64_from_le_bytes(
                    bytes.subrange(
                        HEADER_SIZE + DYN_ENTRY_SIZE * i,
                        HEADER_SIZE + DYN_ENTRY_SIZE * i + 8,
                    ),
                ),
                bytes.subrange(
                    HEADER_SIZE + DYN_ENTRY_SIZE * i + 8,
                    HEADER_SIZE + DYN_ENTRY_SIZE * i + DYN_ENTRY_SIZE,
                ),
            ),
    )
}

/// End offsets of record pairs grow strictly, starting above zero.
pub open spec fn view_offsets_monotone(entries: Seq<(u64, Seq<u8>)>) -> bool {
    forall|i: int|
        0 <= i < entries.len() ==> (#[trigger] entries[i].0) > (if i == 0 {
            0
        } else {
            entries[i - 1].0
        })
}

/// What parsing a dynamic index file yields: its view when the magic,
/// the record area, the offsets and the size field agree, nothing
/// otherwise.
pub open spec fn dynamic_parse(bytes: Seq<u8>) -> Option<DynamicIndexView> {
    if bytes.len() < HEADER_SIZE {
        None
    } else if bytes.subrange(0, 8) != dynamic_magic() {
        None
    } else {
        let size = vstd::bytes::spec_u64_from_le_bytes(bytes.subrange(64, 72));
        let chunk_size = vstd::bytes::spec_u64_from_le_bytes(bytes.subrange(72, 80));
        if size > usize::MAX || chunk_size > usize::MAX {
            None
        } else if (bytes.len() - HEADER_SIZE) % (DYN_ENTRY_SIZE as int) != 0 {
            None
        } else {
            let n = (bytes.len() - HEADER_SIZE) / (DYN_ENTRY_SIZE as int);
            let entries = dyn_view_entries(bytes, n);
            if !view_offsets_monotone(entries) {
                None
            } else if size != (if n == 0 {
                0
            } else {
                entries[n - 1].0 as int
            }) {
                None
            } else {
                Some(
                    DynamicIndexView {
                        uuid: bytes.subrange(8, 24),
                        ctime: vstd::bytes::spec_u64_from_le_bytes(bytes.subrange(24, 32)),
                        index_csum: bytes.subrange(32, 64),
                        size,
                        chunk_size,
                        entries,
                    },
                )
            }
        }
    }
}

/// A published dynamic index file, held decoded in memory, read-only.
pub struct DynamicIndexReader {
    /// The chunker's target chunk size recorded at creation.
    pub chunk_size: usize,
    /// The total logical size: the last record's end offset.
    pub size: usize,
    /// How many records the file has.
    pub index_length: usize,
    /// The records, in stream order.
    pub entries: Vec<DynEntry>,
    /// The file's random identifier.
    pub uuid: [u8; 16],
    /// The file's creation time.
    pub ctime: u64,
    /// The stored checksum over the record area.
    pub index_csum: [u8; 32],
}

impl DynamicIndexReader {
    /// The reader as a view of its file.
    pub open spec fn view_of(&self) -> DynamicIndexView {
        DynamicIndexView {
            uuid: self.uuid@,
            ctime: self.ctime,
            index_csum: self.index_csum@,
            size: self.size as u64,
            chunk_size: self.chunk_size as u64,
            entries: Seq::new(
                self.entries@.len(),
                |i: int| (self.entries@[i].end, self.entries@[i].digest@),
            ),
        }
    }

    /// The record digests as byte sequences, in stream order.
    pub open spec fn digests(&self) -> Seq<Seq<u8>> {
        Seq::new(self.entries@.len(), |i: int| self.entries@[i].digest@)
    }

    /// Counts, offsets and the size field agree as the format demands.
    pub open spec fn wf(&self) -> bool {
        &&& self.entries@.len() == self.index_length
        &&& self.index_length <= (usize::MAX - HEADER_SIZE) as int / (DYN_ENTRY_SIZE as int)
        &&& offsets_monotone(self.entries@)
        &&& self.size == last_end(self.entries@)
    }

    /// Decode a dynamic index file. Fails with a format error exactly
    /// when the magic is wrong, a size field is unusable, the record
    /// area is ragged, the offsets are not strictly increasing, or the
    /// size field disagrees with the last offset.
    #[verifier::rlimit(60)]
    pub fn open(bytes: &[u8]) -> (r: Result<DynamicIndexReader, StoreError>)
        ensures
            r is Ok <==> dynamic_parse(bytes@) is Some,
            r is Ok ==> dynamic_parse(bytes@) == Some(r->Ok_0.view_of()) && r->Ok_0.wf(),
            r is Err ==> r == Result::<DynamicIndexReader, StoreError>::Err(StoreError::Format),
    {
        let blen = bytes.len();
        let magic = dynamic_index_magic();
        let header = parse_header(bytes, &magic)?;
        if header.size > usize::MAX as u64 || header.chunk_size > usize::MAX as u64 {
            return Err(StoreError::Format);
        }
        if (blen - HEADER_SIZE) % DYN_ENTRY_SIZE != 0 {
            return Err(StoreError::Format);
        }
        let n = (blen - HEADER_SIZE) / DYN_ENTRY_SIZE;
        proof {
            vstd::arithmetic::div_mod::lemma_fundamental_div_mod(
                (blen - HEADER_SIZE) as int,
                DYN_ENTRY_SIZE as int,
            );
            crate::fixed_index::lemma_mul_div_bound(
                n as int,
                DYN_ENTRY_SIZE as int,
                (usize::MAX - HEADER_SIZE) as int,
            );
        }
        let ghost view_entries = dyn_view_entries(bytes@, n as int);
        let entries = parse_dyn_entries(bytes, n)?;
        let prev: u64 = if n == 0 {
            0
        } else {
            entries[n - 1].end
        };
        if header.size != prev {
            proof {
                if n > 0 {
                    assert(view_entries[n - 1].0 == prev);
                }
            }
            return Err(StoreError::Format);
        }
        let r = DynamicIndexReader {
            chunk_size: header.chunk_size as usize,
            size: header.size as usize,
            index_length: n,
            entries,
            uuid: header.uuid,
            ctime: header.ctime,
            index_csum: header.index_csum,
        };
        proof {
            assert(dynamic_parse(bytes@) == Some(r.view_of())) by {
                assert(r.view_of().entries =~= view_entries);
            }
            if n > 0 {
                assert(r.entries@.last().end == view_entries[n - 1].0);
            }
        }
        Ok(r)
    }

    /// How many records the index has.
    pub fn index_count(&self) -> (r: usize)
        ensures
            r == self.index_length,
    {
        self.index_length
    }

    /// The digest at record `pos`, or nothing past the end.
    pub fn index_digest(&self, pos: usize) -> (r: Option<&[u8; 32]>)
        requires
            self.wf(),
        ensures
            pos < self.index_length <==> r is Some,
            pos < self.index_length ==> r == Some(&self.entries@[pos as int].digest),
    {
        if pos >= self.index_length {
            None
        } else {
            Some(&self.entries[pos].digest)
        }
    }

    /// How many logical bytes the records cover: the last end offset.
    pub fn index_bytes(&self) -> (r: u64)
        requires
            self.wf(),
        ensures
            r == last_end(self.entries@),
    {
        self.size as u64
    }

    /// The length of the chunk at record `pos`: the difference between
    /// its end offset and the one before it.
    pub open spec fn spec_slot_len(&self, pos: int) -> int {
        self.entries@[pos].end - (if pos == 0 {
            0
        } else {
            self.entries@[pos - 1].end
        })
    }

    /// Mark every digest of this index as used: each distinct digest is
    /// recorded once and counts once for `used_chunks`, while every
    /// record contributes its chunk length to `used_bytes`.
    pub fn mark_used_chunks(&self, marked: &mut DigestSet, status: &mut GarbageCollectionStatus)
        requires
            self.wf(),
            old(marked).wf(),
        ensures
            final(marked).wf(),
            final(marked).items() == marked_after(old(marked).items(), self.digests()),
            final(status).used_chunks == sat_add(
                old(status).used_chunks,
                marked_after(old(marked).items(), self.digests()).len() - old(
                    marked,
                ).items().len(),
            ),
            final(status).disk_bytes == old(status).disk_bytes,
            final(status).disk_chunks == old(status).disk_chunks,
            final(status).used_bytes == dyn_used_bytes_after(
                old(status).used_bytes,
                *self,
                self.entries@.len() as int,
            ),
    {
        let n = self.index_length;
        let mut i: usize = 0;
        while i < n
            invariant
                i <= n,
                self.wf(),
                n == self.entries@.len(),
                marked.wf(),
                marked.items() == marked_after(old(marked).items(), self.digests().take(i as int)),
                status.used_chunks == sat_add(
                    old(status).used_chunks,
                    marked.items().len() - old(marked).items().len(),
                ),
                marked.items().len() >= old(marked).items().len(),
                status.used_bytes == dyn_used_bytes_after(old(status).used_bytes, *self, i as int),
                status.disk_bytes == old(status).disk_bytes,
                status.disk_chunks == old(status).disk_chunks,
            decreases n - i,
        {
            proof {
                assert(self.digests().take(i + 1int).drop_last() =~= self.digests().take(i as int));
                assert(self.digests().take(i + 1int).last() == self.digests()[i as int]);
            }
            let newly = marked.insert(&self.entries[i].digest);
            if newly {
                status.used_chunks = status.used_chunks.saturating_add(1);
            }
            let prev_end: u64 = if i == 0 {
                0
            } else {
                self.entries[i - 1].end
            };
            let len = self.entries[i].end - prev_end;
            status.used_bytes = status.used_bytes.saturating_add(len);
            i = i + 1;
        }
        proof {
            assert(self.digests().take(n as int) =~= self.digests());
        }
    }

    /// Recompute the digest-of-digests over the record area.
    pub fn compute_index_csum(&self) -> (r: [u8; 32])
        requires
            self.wf(),
        ensures
            r@ == sha256_of(dyn_entries_bytes(self.entries@)),
    {
        let area = dyn_area_bytes(&self.entries);
        sha256(area.as_slice())
    }
}

/// Read the `n` records after the header page; reject end offsets that
/// do not grow strictly from above zero.
#[verifier::rlimit(100)]
#[verifier::spinoff_prover]
fn parse_dyn_entries(bytes: &[u8], n: usize) -> (r: Result<Vec<DynEntry>, StoreError>)
    requires
        bytes@.len() == HEADER_SIZE + n * DYN_ENTRY_SIZE,
    ensures
        r is Ok <==> view_offsets_monotone(dyn_view_entries(bytes@, n as int)),
        r is Ok ==> {
            let es = r->Ok_0@;
            let view = dyn_view_entries(bytes@, n as int);
            &&& es.len() == n
            &&& forall|j: int|
                0 <= j < n ==> (#[trigger] es[j]).end == view[j].0 && es[j].digest@ == view[j].1
            &&& offsets_monotone(es)
        },
        r is Err ==> r == Result::<Vec<DynEntry>, StoreError>::Err(StoreError::Format),
{
    let blen = bytes.len();
    let ghost view_entries = dyn_view_entries(bytes@, n as int);
    let mut entries: Vec<DynEntry> = Vec::new();
    let mut prev: u64 = 0;
    let mut i: usize = 0;
    while i < n
        invariant
            i <= n,
            blen == bytes@.len(),
            blen == HEADER_SIZE + n * DYN_ENTRY_SIZE,
            view_entries == dyn_view_entries(bytes@, n as int),
            view_entries.len() == n,
            entries@.len() == i,
            forall|j: int|
                0 <= j < i ==> (#[trigger] entries@[j]).end == view_entries[j].0
                    && entries@[j].digest@ == view_entries[j].1,
            forall|j: int|
                0 <= j < i ==> (#[trigger] entries@[j]).end > (if j == 0 {
                    0
                } else {
                    entries@[j - 1].end
                }),
            prev == (if i == 0 {
                0
            } else {
                entries@[i - 1].end
            }),
        decreases n - i,
    {
        let off = HEADER_SIZE + DYN_ENTRY_SIZE * i;
        let end = read_u64_le(bytes, off);
        let digest = read_bytes32(bytes, off + 8);
        if end <= prev {
            proof {
                assert(view_entries[i as int].0 == end);
                assert(!view_offsets_monotone(view_entries));
            }
            return Err(StoreError::Format);
        }
        entries.push(DynEntry { end, digest });
        prev = end;
        i = i + 1;
    }
    proof {
        assert forall|k: int|
            0 <= k < n implies (#[trigger] view_entries[k].0) > (if k == 0 {
            0
        } else {
            view_entries[k - 1].0
        }) by {
            assert(entries@[k].end == view_entries[k].0);
            if k > 0 {
                assert(entries@[k - 1].end == view_entries[k - 1].0);
            }
        }
        assert(view_offsets_monotone(view_entries));
    }
    Ok(entries)
}

/// `used_bytes` after marking the first `k` records: the chunk lengths
/// added one by one, saturating at `u64::MAX`.
pub open spec fn dyn_used_bytes_after(start: u64, reader: DynamicIndexReader, k: int) -> u64
    decreases k,
{
    if k <= 0 {
        start
    } else {
        sat_add(dyn_used_bytes_after(start, reader, k - 1), reader.spec_slot_len(k - 1))
    }
}

/// Marking a whole dynamic index adds exactly its last end offset to
/// the byte counter, saturating at `u64::MAX`.
pub proof fn lemma_dyn_used_bytes_total(start: u64, r: DynamicIndexReader)
    requires
        r.wf(),
    ensures
        dyn_used_bytes_after(start, r, r.entries@.len() as int) == sat_add(
            start,
            last_end(r.entries@) as int,
        ),
{
    lemma_dyn_used_bytes_partial(start, r, r.entries@.len() as int);
}

/// The byte counter after `k` records is `start` plus the end offset
/// of record `k - 1`.
proof fn lemma_dyn_used_bytes_partial(start: u64, r: DynamicIndexReader, k: int)
    requires
        r.wf(),
        0 <= k <= r.entries@.len(),
    ensures
        dyn_used_bytes_after(start, r, k) == sat_add(
            start,
            if k == 0 {
                0
            } else {
                r.entries@[k - 1].end as int
            },
        ),
    decreases k,
{
    if k > 0 {
        lemma_dyn_used_bytes_partial(start, r, k - 1);
        let prev: int = if k == 1 {
            0
        } else {
            r.entries@[k - 2].end as int
        };
        assert(r.spec_slot_len(k - 1) == r.entries@[k - 1].end - prev);
        assert(sat_add(sat_add(start, prev), r.entries@[k - 1].end - prev) == sat_add(
            start,
            r.entries@[k - 1].end as int,
        ));
    }
}

/// The characters of the staging extension of a dynamic index writer.
pub open spec fn tmp_didx_ext() -> Seq<char> {
    seq!['t', 'm', 'p', '_', 'd', 'i', 'd', 'x']
}

/// A dynamic index file under construction: records are appended in
/// stream order until `close` seals the checksum.
pub struct DynamicIndexWriter {
    /// The file's final name, relative to the datastore base.
    pub filename: String,
    /// The staging name the byte image is written under first.
    pub tmp_filename: String,
    /// The chunker's target chunk size, recorded in the header.
    pub chunk_size: usize,
    /// The records appended so far, in stream order.
    pub entries: Vec<DynEntry>,
    /// The file's random identifier.
    pub uuid: [u8; 16],
    /// The file's creation time.
    pub ctime: u64,
    /// The checksum over the record area, filled in by `close`.
    pub index_csum: [u8; 32],
    /// True once the writer is sealed.
    pub closed: bool,
}

impl DynamicIndexWriter {
    /// Offsets grow strictly and the record area stays addressable.
    pub open spec fn wf(&self) -> bool {
        &&& offsets_monotone(self.entries@)
        &&& self.entries@.len() <= (usize::MAX - HEADER_SIZE) as int / (DYN_ENTRY_SIZE as int)
    }

    /// The header fields the file is sealed with.
    pub open spec fn header(&self) -> IndexHeader {
        IndexHeader {
            uuid: self.uuid,
            ctime: self.ctime,
            index_csum: self.index_csum,
            size: last_end(self.entries@),
            chunk_size: self.chunk_size as u64,
        }
    }

    /// True when the two writers agree on everything but the records.
    pub open spec fn same_but_entries(&self, other: &DynamicIndexWriter) -> bool {
        &&& self.filename@ == other.filename@
        &&& self.tmp_filename@ == other.tmp_filename@
        &&& self.chunk_size == other.chunk_size
        &&& self.uuid == other.uuid
        &&& self.ctime == other.ctime
        &&& self.index_csum == other.index_csum
        &&& self.closed == other.closed
    }

    /// True when the two writers agree on everything.
    pub open spec fn same_writer(&self, other: &DynamicIndexWriter) -> bool {
        self.same_but_entries(other) && self.entries@ == other.entries@
    }

    /// Open a writer for `path` with a chunker hint, taking the store's
    /// shared lock. Fails with a contention error when garbage
    /// collection holds the store.
    pub fn create(store: &mut ChunkStore, path: &str, chunk_size: usize) -> (r: Result<
        DynamicIndexWriter,
        StoreError,
    >)
        requires
            old(store).wf(),
        ensures
            final(store).wf(),
            final(store).entries() == old(store).entries(),
            final(store).name() == old(store).name(),
            final(store).base() == old(store).base(),
            final(store).exclusive_locked() == old(store).exclusive_locked(),
            r is Ok <==> (!old(store).exclusive_locked() && old(store).shared_locks()
                < u64::MAX),
            r is Ok ==> final(store).shared_locks() == old(store).shared_locks() + 1,
            r is Err ==> final(store).shared_locks() == old(store).shared_locks() && r
                == Result::<DynamicIndexWriter, StoreError>::Err(StoreError::LockContention),
            r is Ok ==> {
                let w = r->Ok_0;
                &&& w.wf()
                &&& w.filename@ == path@
                &&& w.tmp_filename@ == crate::backup_path::with_ext(path@, tmp_didx_ext())
                &&& w.chunk_size == chunk_size
                &&& w.entries@.len() == 0
                &&& !w.closed
            },
    {
        if !store.try_shared_lock() {
            return Err(StoreError::LockContention);
        }
        let ctime = epoch_now();
        let uuid = generate_uuid();
        let tmp_filename = crate::backup_path::with_extension(path, "tmp_didx");
        proof {
            reveal_strlit("tmp_didx");
            assert("tmp_didx"@ =~= tmp_didx_ext());
        }
        Ok(
            DynamicIndexWriter {
                filename: path.to_owned(),
                tmp_filename,
                chunk_size,
                entries: Vec::new(),
                uuid,
                ctime,
                index_csum: [0u8; 32],
                closed: false,
            },
        )
    }

    /// True when a chunk ending at `offset` with length `len` may be
    /// appended: the writer is open, the chunk directly continues the
    /// stream, it is not empty, and one more record still fits.
    pub open spec fn accepts_chunk(&self, offset: u64, len: u64) -> bool {
        &&& !self.closed
        &&& len > 0
        &&& offset > last_end(self.entries@)
        &&& offset - last_end(self.entries@) == len
        &&& self.entries@.len() < (usize::MAX - HEADER_SIZE) as int / (DYN_ENTRY_SIZE as int)
    }

    /// Validate a chunk, insert it into the store, account for it, and
    /// append its record. Offsets must grow strictly and contiguously;
    /// any violation is a consistency error that leaves the writer, the
    /// store and the statistics untouched.
    pub fn add_chunk(
        &mut self,
        store: &mut ChunkStore,
        chunk_info: &ChunkInfo,
        stat: &mut ChunkStat,
    ) -> (r: Result<(), StoreError>)
        requires
            old(self).wf(),
            old(store).wf(),
        ensures
            final(self).wf(),
            final(store).wf(),
            r is Ok <==> old(self).accepts_chunk(chunk_info.offset, chunk_info.chunk_len),
            r is Err ==> final(self).same_writer(old(self)) && final(store).same_state(old(store))
                && *final(stat) == *old(stat) && (r == Result::<(), StoreError>::Err(
                StoreError::Consistency,
            ) || (old(self).closed && r == Result::<(), StoreError>::Err(StoreError::Closed))),
            r is Ok ==> {
                let len = chunk_info.chunk_len;
                let dup = old(store).has_digest(chunk_info.digest@);
                &&& final(self).same_but_entries(old(self))
                &&& final(self).entries@ == old(self).entries@.push(
                    DynEntry { end: chunk_info.offset, digest: chunk_info.digest },
                )
                &&& exists|m: u64|
                    final(store).entries() == insert_result(
                        old(store).entries(),
                        ChunkEntry { digest: chunk_info.digest, size: len, mtime: m },
                    )
                &&& final(store).name() == old(store).name()
                &&& final(store).base() == old(store).base()
                &&& final(store).shared_locks() == old(store).shared_locks()
                &&& final(store).exclusive_locked() == old(store).exclusive_locked()
                &&& final(stat).chunk_count == sat_add(old(stat).chunk_count, 1)
                &&& final(stat).compressed_size == sat_add(old(stat).compressed_size, len as int)
                &&& final(stat).duplicate_chunks == if dup {
                    sat_add(old(stat).duplicate_chunks, 1)
                } else {
                    old(stat).duplicate_chunks
                }
                &&& final(stat).disk_size == if dup {
                    old(stat).disk_size
                } else {
                    sat_add(old(stat).disk_size, len as int)
                }
            },
    {
        let len = chunk_info.chunk_len;
        let end = chunk_info.offset;
        if self.closed {
            return Err(StoreError::Closed);
        }
        let prev = if self.entries.len() == 0 {
            0
        } else {
            self.entries[self.entries.len() - 1].end
        };
        if len == 0 || end <= prev || end - prev != len {
            return Err(StoreError::Consistency);
        }
        if self.entries.len() >= (usize::MAX - HEADER_SIZE) / DYN_ENTRY_SIZE {
            return Err(StoreError::Consistency);
        }
        let (is_duplicate, compressed_size) = store.insert_chunk(&chunk_info.digest, len);
        stat.chunk_count = stat.chunk_count.saturating_add(1);
        stat.compressed_size = stat.compressed_size.saturating_add(compressed_size);
        if is_duplicate {
            stat.duplicate_chunks = stat.duplicate_chunks.saturating_add(1);
        } else {
            stat.disk_size = stat.disk_size.saturating_add(compressed_size);
        }
        self.entries.push(DynEntry { end, digest: chunk_info.digest });
        Ok(())
    }

    /// Seal the writer: compute the digest-of-digests over the record
    /// area, store it as the index checksum, and release the store's
    /// shared lock. A second close is an error.
    pub fn close(&mut self, store: &mut ChunkStore) -> (r: Result<[u8; 32], StoreError>)
        requires
            old(self).wf(),
            !old(self).closed ==> old(store).shared_locks() >= 1,
        ensures
            final(self).wf(),
            r is Ok <==> !old(self).closed,
            old(self).closed ==> r == Result::<[u8; 32], StoreError>::Err(StoreError::Closed)
                && final(self).same_writer(old(self)) && final(store).same_state(old(store)),
            !old(self).closed ==> {
                &&& final(self).closed
                &&& final(self).index_csum@ == sha256_of(dyn_entries_bytes(old(self).entries@))
                &&& r == Result::<[u8; 32], StoreError>::Ok(final(self).index_csum)
                &&& final(self).entries@ == old(self).entries@
                &&& final(self).filename@ == old(self).filename@
                &&& final(self).tmp_filename@ == old(self).tmp_filename@
                &&& final(self).chunk_size == old(self).chunk_size
                &&& final(self).uuid == old(self).uuid
                &&& final(self).ctime == old(self).ctime
                &&& final(store).shared_locks() == old(store).shared_locks() - 1
                &&& final(store).entries() == old(store).entries()
                &&& final(store).name() == old(store).name()
                &&& final(store).base() == old(store).base()
                &&& final(store).exclusive_locked() == old(store).exclusive_locked()
            },
    {
        if self.closed {
            return Err(StoreError::Closed);
        }
        let area = dyn_area_bytes(&self.entries);
        let csum = sha256(area.as_slice());
        self.index_csum = csum;
        self.closed = true;
        store.release_shared_lock();
        Ok(csum)
    }

    /// The byte image of the sealed index file: the header page, then
    /// the record area. The header's size field is the last end offset.
    pub fn index_file_bytes(&self) -> (r: Vec<u8>)
        requires
            self.wf(),
            self.closed,
        ensures
            r@ == spec_header_bytes(dynamic_magic(), self.header()) + dyn_entries_bytes(
                self.entries@,
            ),
    {
        let magic = dynamic_index_magic();
        let size: u64 = if self.entries.len() == 0 {
            0
        } else {
            self.entries[self.entries.len() - 1].end
        };
        let h = IndexHeader {
            uuid: self.uuid,
            ctime: self.ctime,
            index_csum: self.index_csum,
            size,
            chunk_size: self.chunk_size as u64,
        };
        let mut r = encode_header(&magic, &h);
        let mut area = dyn_area_bytes(&self.entries);
        r.append(&mut area);
        r
    }
}

/// The records read back from an encoded file are the encoded records.
#[verifier::rlimit(60)]
pub proof fn lemma_dyn_view_of_encoding(h: IndexHeader, entries: Seq<DynEntry>)
    ensures
        dyn_view_entries(
            spec_header_bytes(dynamic_magic(), h) + dyn_entries_bytes(entries),
            entries.len() as int,
        ) == Seq::new(entries.len(), |i: int| (entries[i].end, entries[i].digest@)),
{
    let hb = spec_header_bytes(dynamic_magic(), h);
    let b = hb + dyn_entries_bytes(entries);
    crate::format::lemma_header_round_trip(dynamic_magic(), h);
    lemma_dyn_entries_bytes_len(entries);
    let n = entries.len() as int;
    let view = dyn_view_entries(b, n);
    assert forall|i: int| 0 <= i < n implies view[i] == (entries[i].end, entries[i].digest@) by {
        lemma_dyn_entries_bytes_index(entries, i);
        vstd::bytes::lemma_auto_spec_u64_to_from_le_bytes();
        assert(b.subrange(HEADER_SIZE + DYN_ENTRY_SIZE * i, HEADER_SIZE + DYN_ENTRY_SIZE * i + 8)
            =~= dyn_entries_bytes(entries).subrange(DYN_ENTRY_SIZE * i, DYN_ENTRY_SIZE * i + 8));
        assert(b.subrange(
            HEADER_SIZE + DYN_ENTRY_SIZE * i + 8,
            HEADER_SIZE + DYN_ENTRY_SIZE * i + DYN_ENTRY_SIZE,
        ) =~= dyn_entries_bytes(entries).subrange(
            DYN_ENTRY_SIZE * i + 8,
            DYN_ENTRY_SIZE * i + DYN_ENTRY_SIZE,
        ));
    }
    assert(view =~= Seq::new(entries.len(), |i: int| (entries[i].end, entries[i].digest@)));
}

/// Law: the byte image a sealed writer produces parses back to exactly
/// the header fields and records it was built from.
#[verifier::rlimit(60)]
pub proof fn lemma_dynamic_index_round_trip(h: IndexHeader, entries: Seq<DynEntry>)
    requires
        h.size == last_end(entries),
        h.size <= usize::MAX,
        h.chunk_size <= usize::MAX,
        offsets_monotone(entries),
        entries.len() <= (usize::MAX - HEADER_SIZE) as int / (DYN_ENTRY_SIZE as int),
    ensures
        dynamic_parse(spec_header_bytes(dynamic_magic(), h) + dyn_entries_bytes(entries)) == Some(
            DynamicIndexView {
                uuid: h.uuid@,
                ctime: h.ctime,
                index_csum: h.index_csum@,
                size: h.size,
                chunk_size: h.chunk_size,
                entries: Seq::new(entries.len(), |i: int| (entries[i].end, entries[i].digest@)),
            },
        ),
{
    let hb = spec_header_bytes(dynamic_magic(), h);
    let b = hb + dyn_entries_bytes(entries);
    crate::format::lemma_header_round_trip(dynamic_magic(), h);
    lemma_dyn_entries_bytes_len(entries);
    lemma_dyn_view_of_encoding(h, entries);
    assert(b.subrange(0, 8) =~= hb.subrange(0, 8));
    assert(b.subrange(8, 24) =~= hb.subrange(8, 24));
    assert(b.subrange(24, 32) =~= hb.subrange(24, 32));
    assert(b.subrange(32, 64) =~= hb.subrange(32, 64));
    assert(b.subrange(64, 72) =~= hb.subrange(64, 72));
    assert(b.subrange(72, 80) =~= hb.subrange(72, 80));
    let n = entries.len() as int;
    assert((b.len() - HEADER_SIZE) % (DYN_ENTRY_SIZE as int) == 0);
    let view = dyn_view_entries(b, n);
    assert(view == Seq::new(entries.len(), |i: int| (entries[i].end, entries[i].digest@)));
    assert(view_offsets_monotone(view));
    if n > 0 {
        assert(view[n - 1].0 == entries.last().end);
    }
}

/// The byte image of a record array.
fn dyn_area_bytes(entries: &Vec<DynEntry>) -> (r: Vec<u8>)
    requires
        entries@.len() <= (usize::MAX - HEADER_SIZE) as int / (DYN_ENTRY_SIZE as int),
    ensures
        r@ == dyn_entries_bytes(entries@),
{
    let mut r: Vec<u8> = Vec::new();
    let mut i: usize = 0;
    while i < entries.len()
        invariant
            i <= entries@.len(),
            r@ == dyn_entries_bytes(entries@.take(i as int)),
        decreases entries@.len() - i,
    {
        push_u64_le(&mut r, entries[i].end);
        push_byte_slice(&mut r, entries[i].digest.as_slice());
        proof {
            assert(entries@.take(i + 1int).drop_last() =~= entries@.take(i as int));
            assert(entries@.take(i + 1int).last() == entries@[i as int]);
            assert(r@ =~= dyn_entries_bytes(entries@.take(i + 1int)));
        }
        i = i + 1;
    }
    proof {
        assert(entries@.take(entries@.len() as int) =~= entries@);
    }
    r
}

} // verus!
