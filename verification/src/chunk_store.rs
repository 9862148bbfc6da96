//! The content-addressed chunk store: each distinct chunk digest is held
//! at most once, writers dedup through it, and garbage collection sweeps
//! it under an exclusive lock.
//!
//! The store models the sharded on-disk chunk directory as a list of
//! entries `(digest, stored size, modification time)` with unique digests;
//! the surrounding process mirrors every transition onto the real
//! directory (atomic rename for an insert, unlink for a sweep).

use vstd::prelude::*;

use crate::digest::{digests_contain, digest_eq, DigestSet};
use crate::error::StoreError;
use crate::sys::epoch_now;

verus! {

/// One stored chunk: its digest, its stored size in bytes, and the time
/// it was written (seconds since the Unix epoch).
#[derive(Clone, Copy, Debug)]
pub struct ChunkEntry {
    pub digest: [u8; 32],
    pub size: u64,
    pub mtime: u64,
}

/// Accumulator of a garbage-collection pass: what the retained snapshots
/// reference ("used") and what the store physically holds ("disk").
#[derive(Clone, Copy, Debug, PartialEq, Eq, Structural)]
pub struct GarbageCollectionStatus {
    pub used_bytes: u64,
    pub used_chunks: u64,
    pub disk_bytes: u64,
    pub disk_chunks: u64,
}

impl Default for GarbageCollectionStatus {
    /// All counters start at zero.
    fn default() -> (r: Self)
        ensures
            r.used_bytes == 0,
            r.used_chunks == 0,
            r.disk_bytes == 0,
            r.disk_chunks == 0,
    {
        GarbageCollectionStatus { used_bytes: 0, used_chunks: 0, disk_bytes: 0, disk_chunks: 0 }
    }
}

/// Running statistics of one index writer: chunks fed in, duplicates
/// among them, bytes handed to the store and bytes newly stored.
#[derive(Clone, Copy, Debug, PartialEq, Eq, Structural)]
pub struct ChunkStat {
    pub chunk_count: u64,
    pub duplicate_chunks: u64,
    pub compressed_size: u64,
    pub disk_size: u64,
}

impl Default for ChunkStat {
    /// All counters start at zero.
    fn default() -> (r: Self)
        ensures
            r.chunk_count == 0,
            r.duplicate_chunks == 0,
            r.compressed_size == 0,
            r.disk_size == 0,
    {
        ChunkStat { chunk_count: 0, duplicate_chunks: 0, compressed_size: 0, disk_size: 0 }
    }
}

/// `a + b`, stopping at `u64::MAX`.
pub open spec fn sat_add(a: u64, b: int) -> u64
    recommends
        b >= 0,
{
    if a + b > u64::MAX {
        u64::MAX
    } else {
        (a + b) as u64
    }
}

/// True when `entries` holds a chunk with digest `d`.
pub open spec fn chunks_contain(entries: Seq<ChunkEntry>, d: Seq<u8>) -> bool {
    exists|i: int| 0 <= i < entries.len() && entries[i].digest@ == d
}

/// No two entries share a digest.
pub open spec fn chunks_wf(entries: Seq<ChunkEntry>) -> bool {
    forall|i: int, j: int|
        0 <= i < j < entries.len() ==> entries[i].digest@ != entries[j].digest@
}

/// What the entry list becomes when `e` is inserted: unchanged when the
/// digest is already present, appended otherwise.
pub open spec fn insert_result(entries: Seq<ChunkEntry>, e: ChunkEntry) -> Seq<ChunkEntry> {
    if chunks_contain(entries, e.digest@) {
        entries
    } else {
        entries.push(e)
    }
}

/// True when a sweep at threshold `min_mtime` keeps the entry: it is
/// marked as used, or it is young enough to be an in-flight write.
pub open spec fn sweep_keeps(e: ChunkEntry, marked: Seq<Seq<u8>>, min_mtime: u64) -> bool {
    digests_contain(marked, e.digest@) || e.mtime >= min_mtime
}

/// The entry list after a sweep: exactly the kept entries, in order.
pub open spec fn swept(entries: Seq<ChunkEntry>, marked: Seq<Seq<u8>>, min_mtime: u64) -> Seq<
    ChunkEntry,
>
    decreases entries.len(),
{
    if entries.len() == 0 {
        Seq::empty()
    } else {
        let rest = swept(entries.drop_last(), marked, min_mtime);
        if sweep_keeps(entries.last(), marked, min_mtime) {
            rest.push(entries.last())
        } else {
            rest
        }
    }
}

/// The byte counter after a sweep: `start` plus the sizes of all kept
/// entries, saturating at `u64::MAX`.
pub open spec fn swept_bytes(
    start: u64,
    entries: Seq<ChunkEntry>,
    marked: Seq<Seq<u8>>,
    min_mtime: u64,
) -> u64
    decreases entries.len(),
{
    if entries.len() == 0 {
        start
    } else {
        let rest = swept_bytes(start, entries.drop_last(), marked, min_mtime);
        if sweep_keeps(entries.last(), marked, min_mtime) {
            sat_add(rest, entries.last().size as int)
        } else {
            rest
        }
    }
}

/// Every digest of a swept list was present before the sweep.
pub proof fn lemma_swept_subset(
    entries: Seq<ChunkEntry>,
    marked: Seq<Seq<u8>>,
    min_mtime: u64,
    d: Seq<u8>,
)
    requires
        chunks_contain(swept(entries, marked, min_mtime), d),
    ensures
        chunks_contain(entries, d),
    decreases entries.len(),
{
    if entries.len() > 0 {
        let rest = swept(entries.drop_last(), marked, min_mtime);
        if chunks_contain(rest, d) {
            lemma_swept_subset(entries.drop_last(), marked, min_mtime, d);
            let i = choose|i: int|
                0 <= i < entries.drop_last().len() && entries.drop_last()[i].digest@ == d;
            assert(entries[i].digest@ == d);
        } else {
            assert(entries.last().digest@ == d);
        }
    }
}

/// A sweep keeps the digests unique.
pub proof fn lemma_swept_wf(entries: Seq<ChunkEntry>, marked: Seq<Seq<u8>>, min_mtime: u64)
    requires
        chunks_wf(entries),
    ensures
        chunks_wf(swept(entries, marked, min_mtime)),
    decreases entries.len(),
{
    if entries.len() > 0 {
        assert(chunks_wf(entries.drop_last()));
        lemma_swept_wf(entries.drop_last(), marked, min_mtime);
        let rest = swept(entries.drop_last(), marked, min_mtime);
        if sweep_keeps(entries.last(), marked, min_mtime) {
            assert(!chunks_contain(entries.drop_last(), entries.last().digest@));
            if chunks_contain(rest, entries.last().digest@) {
                lemma_swept_subset(
                    entries.drop_last(),
                    marked,
                    min_mtime,
                    entries.last().digest@,
                );
            }
            assert(forall|i: int|
                0 <= i < rest.len() ==> rest[i].digest@ != entries.last().digest@);
        }
    }
}

/// Law: a chunk inserted twice with identical content is reported as a
/// duplicate the second time, and the stored chunk list — and with it
/// the disk chunk count — does not change.
pub proof fn law_duplicate_insert(
    entries: Seq<ChunkEntry>,
    data: Seq<u8>,
    e1: ChunkEntry,
    e2: ChunkEntry,
)
    requires
        e1.digest@ == crate::digest::sha256_of(data),
        e2.digest@ == crate::digest::sha256_of(data),
    ensures
        chunks_contain(insert_result(entries, e1), e2.digest@),
        insert_result(insert_result(entries, e1), e2) == insert_result(entries, e1),
{
    let s1 = insert_result(entries, e1);
    if chunks_contain(entries, e1.digest@) {
        assert(chunks_contain(s1, e2.digest@));
    } else {
        assert(s1[s1.len() - 1].digest@ == e2.digest@);
    }
}

/// Digest membership is unchanged by removing a different digest.
proof fn lemma_remove_membership(s: Seq<Seq<u8>>, k: int, d: Seq<u8>)
    requires
        0 <= k < s.len(),
        d != s[k],
    ensures
        digests_contain(s, d) == digests_contain(s.remove(k), d),
{
    s.remove_ensures(k);
    if digests_contain(s, d) {
        let i = choose|i: int| 0 <= i < s.len() && s[i] == d;
        if i < k {
            assert(s.remove(k)[i] == d);
        } else {
            assert(s.remove(k)[i - 1] == d);
        }
    }
    if digests_contain(s.remove(k), d) {
        let i = choose|i: int| 0 <= i < s.remove(k).len() && s.remove(k)[i] == d;
        if i < k {
            assert(s[i] == d);
        } else {
            assert(s[i + 1] == d);
        }
    }
}

/// A sweep looks at marks only through membership: marks that agree on
/// every digest the entries hold sweep alike.
proof fn lemma_swept_same_marks(
    entries: Seq<ChunkEntry>,
    m1: Seq<Seq<u8>>,
    m2: Seq<Seq<u8>>,
    excl: Seq<u8>,
    min_mtime: u64,
)
    requires
        forall|d: Seq<u8>|
            d != excl ==> digests_contain(m1, d) == digests_contain(m2, d),
        forall|i: int| 0 <= i < entries.len() ==> (#[trigger] entries[i]).digest@ != excl,
    ensures
        swept(entries, m1, min_mtime) == swept(entries, m2, min_mtime),
        swept_bytes(0, entries, m1, min_mtime) == swept_bytes(0, entries, m2, min_mtime),
    decreases entries.len(),
{
    if entries.len() > 0 {
        lemma_swept_same_marks(entries.drop_last(), m1, m2, excl, min_mtime);
        assert(entries.last().digest@ != excl);
    }
}

/// Law: with every retained index marked and no concurrent writer (all
/// chunks older than the sweep threshold), the sweep keeps exactly the
/// marked chunks: every referenced chunk is still present, and the
/// disk chunk count equals the number of distinct referenced digests.
pub proof fn law_sweep_retains_exactly_marked(
    entries: Seq<ChunkEntry>,
    marked: Seq<Seq<u8>>,
    min_mtime: u64,
)
    requires
        chunks_wf(entries),
        forall|i: int, j: int| 0 <= i < j < marked.len() ==> marked[i] != marked[j],
        forall|i: int| 0 <= i < marked.len() ==> chunks_contain(entries, #[trigger] marked[i]),
        forall|i: int| 0 <= i < entries.len() ==> (#[trigger] entries[i]).mtime < min_mtime,
    ensures
        forall|d: Seq<u8>|
            chunks_contain(swept(entries, marked, min_mtime), d) == digests_contain(marked, d),
        swept(entries, marked, min_mtime).len() == marked.len(),
    decreases entries.len(),
{
    if entries.len() == 0 {
        if marked.len() > 0 {
            assert(chunks_contain(entries, marked[0]));
        }
        assert forall|d: Seq<u8>|
            chunks_contain(swept(entries, marked, min_mtime), d) == digests_contain(
                marked,
                d,
            ) by {
            if digests_contain(marked, d) {
                let i = choose|i: int| 0 <= i < marked.len() && marked[i] == d;
            }
        }
    } else {
        let e = entries.last();
        let rest = entries.drop_last();
        assert(chunks_wf(rest));
        let sw = swept(entries, marked, min_mtime);
        assert(!sweep_keeps(e, marked, min_mtime) ==> sw == swept(rest, marked, min_mtime));
        if digests_contain(marked, e.digest@) {
            let k = choose|k: int| 0 <= k < marked.len() && marked[k] == e.digest@;
            let marked2 = marked.remove(k);
            marked.remove_ensures(k);
            // The smaller mark list is still duplicate-free ...
            assert forall|i: int, j: int| 0 <= i < j < marked2.len() implies marked2[i]
                != marked2[j] by {
                if j < k {
                } else if i < k {
                    assert(marked2[j] == marked[j + 1]);
                } else {
                    assert(marked2[i] == marked[i + 1]);
                    assert(marked2[j] == marked[j + 1]);
                }
            }
            // ... and every mark in it is a chunk of the shorter list.
            assert forall|i: int| 0 <= i < marked2.len() implies chunks_contain(
                rest,
                #[trigger] marked2[i],
            ) by {
                let d = marked2[i];
                if i < k {
                    assert(marked[i] == d);
                    assert(d != e.digest@);
                } else {
                    assert(marked[i + 1] == d);
                    assert(d != e.digest@);
                }
                assert(chunks_contain(entries, d));
                let p = choose|p: int| 0 <= p < entries.len() && entries[p].digest@ == d;
                assert(p < entries.len() - 1);
                assert(rest[p].digest@ == d);
            }
            assert forall|i: int| 0 <= i < rest.len() implies (#[trigger] rest[i]).digest@
                != e.digest@ by {
                assert(entries[i].digest@ != entries[entries.len() - 1].digest@);
            }
            assert forall|d: Seq<u8>|
                d != e.digest@ implies digests_contain(marked, d) == digests_contain(
                marked2,
                d,
            ) by {
                lemma_remove_membership(marked, k, d);
            }
            lemma_swept_same_marks(rest, marked, marked2, e.digest@, min_mtime);
            law_sweep_retains_exactly_marked(rest, marked2, min_mtime);
            assert(sw == swept(rest, marked2, min_mtime).push(e));
            assert(sw.len() == marked.len());
            assert forall|d: Seq<u8>|
                chunks_contain(sw, d) == digests_contain(marked, d) by {
                let sw2 = swept(rest, marked2, min_mtime);
                if chunks_contain(sw, d) {
                    let i = choose|i: int| 0 <= i < sw.len() && sw[i].digest@ == d;
                    if i < sw.len() - 1 {
                        assert(sw2[i].digest@ == d);
                        assert(chunks_contain(sw2, d));
                        if d != e.digest@ {
                            lemma_remove_membership(marked, k, d);
                        }
                    }
                }
                if digests_contain(marked, d) {
                    if d == e.digest@ {
                        assert(sw[sw.len() - 1].digest@ == d);
                    } else {
                        lemma_remove_membership(marked, k, d);
                        assert(digests_contain(marked2, d));
                        let i = choose|i: int|
                            0 <= i < sw2.len() && sw2[i].digest@ == d;
                        assert(sw[i].digest@ == d);
                    }
                }
            }
        } else {
            assert(!sweep_keeps(e, marked, min_mtime));
            assert forall|i: int| 0 <= i < marked.len() implies chunks_contain(
                rest,
                #[trigger] marked[i],
            ) by {
                let d = marked[i];
                assert(chunks_contain(entries, d));
                let p = choose|p: int| 0 <= p < entries.len() && entries[p].digest@ == d;
                if p == entries.len() - 1 {
                    assert(digests_contain(marked, e.digest@));
                }
                assert(rest[p].digest@ == d);
            }
            law_sweep_retains_exactly_marked(rest, marked, min_mtime);
        }
    }
}

/// True when a base path is usable: non-empty and absolute.
pub open spec fn is_valid_base(path: Seq<char>) -> bool {
    path.len() > 0 && path[0] == '/'
}

/// The content-addressed chunk repository of one datastore, together
/// with its writer (shared) and garbage-collection (exclusive) lock.
pub struct ChunkStore {
    name: String,
    base: String,
    entries: Vec<ChunkEntry>,
    shared_locks: u64,
    exclusive_locked: bool,
}

impl ChunkStore {
    /// The store's configured name.
    pub closed spec fn name(&self) -> Seq<char> {
        self.name@
    }

    /// The store's base directory path.
    pub closed spec fn base(&self) -> Seq<char> {
        self.base@
    }

    /// The stored chunks, in insertion order.
    pub closed spec fn entries(&self) -> Seq<ChunkEntry> {
        self.entries@
    }

    /// How many writers currently hold the shared lock.
    pub closed spec fn shared_locks(&self) -> u64 {
        self.shared_locks
    }

    /// True while garbage collection holds the exclusive lock.
    pub closed spec fn exclusive_locked(&self) -> bool {
        self.exclusive_locked
    }

    /// Digests are unique.
    pub open spec fn wf(&self) -> bool {
        chunks_wf(self.entries())
    }

    /// True when a chunk with digest `d` is stored.
    pub open spec fn has_digest(&self, d: Seq<u8>) -> bool {
        chunks_contain(self.entries(), d)
    }

    /// True when the two stores hold the same chunks and locks.
    pub open spec fn same_state(&self, other: &ChunkStore) -> bool {
        &&& self.name() == other.name()
        &&& self.base() == other.base()
        &&& self.entries() == other.entries()
        &&& self.shared_locks() == other.shared_locks()
        &&& self.exclusive_locked() == other.exclusive_locked()
    }

    /// Open an empty store for `name` under `base`. Fails with a
    /// configuration error exactly when the name is empty or the base
    /// path is not absolute.
    pub fn open(name: &str, base: &str) -> (r: Result<ChunkStore, StoreError>)
        ensures
            r is Ok <==> (name@.len() > 0 && is_valid_base(base@)),
            r is Err ==> r == Result::<ChunkStore, StoreError>::Err(StoreError::Config),
            r is Ok ==> {
                let s = r->Ok_0;
                &&& s.name() == name@
                &&& s.base() == base@
                &&& s.entries() =~= Seq::<ChunkEntry>::empty()
                &&& s.shared_locks() == 0
                &&& !s.exclusive_locked()
                &&& s.wf()
            },
    {
        if name.is_empty() {
            return Err(StoreError::Config);
        }
        if base.is_empty() {
            return Err(StoreError::Config);
        }
        let first = base.get_char(0);
        if first != '/' {
            return Err(StoreError::Config);
        }
        Ok(
            ChunkStore {
                name: name.to_owned(),
                base: base.to_owned(),
                entries: Vec::new(),
                shared_locks: 0,
                exclusive_locked: false,
            },
        )
    }

    /// The base directory path.
    pub fn base_path(&self) -> (r: String)
        ensures
            r@ == self.base(),
    {
        self.base.clone()
    }

    /// The path of `path` under the store's base directory.
    pub fn relative_path(&self, path: &str) -> (r: String)
        ensures
            r@ == self.base() + seq!['/'] + path@,
    {
        let mut r = self.base.clone();
        r.append("/");
        r.append(path);
        proof {
            reveal_strlit("/");
            assert(r@ =~= self.base() + seq!['/'] + path@);
        }
        r
    }

    /// True when a chunk with this digest is stored.
    pub fn has_chunk(&self, digest: &[u8; 32]) -> (r: bool)
        ensures
            r == self.has_digest(digest@),
    {
        let mut i: usize = 0;
        while i < self.entries.len()
            invariant
                i <= self.entries().len(),
                forall|j: int| 0 <= j < i ==> self.entries()[j].digest@ != digest@,
            decreases self.entries().len() - i,
        {
            if digest_eq(&self.entries[i].digest, digest) {
                return true;
            }
            i = i + 1;
        }
        false
    }

    /// Insert a chunk with a caller-supplied modification time. The
    /// insert is idempotent: re-inserting an existing digest reports a
    /// duplicate and changes nothing.
    pub fn insert_chunk_at(&mut self, digest: &[u8; 32], size: u64, mtime: u64) -> (r: (
        bool,
        u64,
    ))
        requires
            old(self).wf(),
        ensures
            final(self).wf(),
            r.0 == old(self).has_digest(digest@),
            r.1 == size,
            final(self).entries() == insert_result(
                old(self).entries(),
                ChunkEntry { digest: *digest, size, mtime },
            ),
            final(self).name() == old(self).name(),
            final(self).base() == old(self).base(),
            final(self).shared_locks() == old(self).shared_locks(),
            final(self).exclusive_locked() == old(self).exclusive_locked(),
    {
        if self.has_chunk(digest) {
            (true, size)
        } else {
            self.entries.push(ChunkEntry { digest: *digest, size, mtime });
            (false, size)
        }
    }

    /// Insert a chunk, stamping it with the current clock. Apart from
    /// the arbitrary timestamp this behaves as `insert_chunk_at`.
    pub fn insert_chunk(&mut self, digest: &[u8; 32], size: u64) -> (r: (bool, u64))
        requires
            old(self).wf(),
        ensures
            final(self).wf(),
            r.0 == old(self).has_digest(digest@),
            r.1 == size,
            exists|m: u64|
                final(self).entries() == insert_result(
                    old(self).entries(),
                    ChunkEntry { digest: *digest, size, mtime: m },
                ),
            final(self).name() == old(self).name(),
            final(self).base() == old(self).base(),
            final(self).shared_locks() == old(self).shared_locks(),
            final(self).exclusive_locked() == old(self).exclusive_locked(),
    {
        let mtime = epoch_now();
        self.insert_chunk_at(digest, size, mtime)
    }

    /// Take the shared writer lock. Fails exactly when garbage
    /// collection holds the exclusive lock (or the holder count would
    /// overflow); never blocks.
    pub fn try_shared_lock(&mut self) -> (r: bool)
        ensures
            r == (!old(self).exclusive_locked() && old(self).shared_locks() < u64::MAX),
            r ==> final(self).shared_locks() == old(self).shared_locks() + 1,
            !r ==> final(self).shared_locks() == old(self).shared_locks(),
            final(self).exclusive_locked() == old(self).exclusive_locked(),
            final(self).entries() == old(self).entries(),
            final(self).name() == old(self).name(),
            final(self).base() == old(self).base(),
    {
        if self.exclusive_locked || self.shared_locks == u64::MAX {
            false
        } else {
            self.shared_locks = self.shared_locks + 1;
            true
        }
    }

    /// Release one hold of the shared writer lock.
    pub fn release_shared_lock(&mut self)
        requires
            old(self).shared_locks() >= 1,
        ensures
            final(self).shared_locks() == old(self).shared_locks() - 1,
            final(self).exclusive_locked() == old(self).exclusive_locked(),
            final(self).entries() == old(self).entries(),
            final(self).name() == old(self).name(),
            final(self).base() == old(self).base(),
    {
        self.shared_locks = self.shared_locks - 1;
    }

    /// Take the exclusive garbage-collection lock. Succeeds exactly when
    /// no shared and no exclusive lock is held; never blocks.
    pub fn try_exclusive_lock(&mut self) -> (r: bool)
        ensures
            r == (old(self).shared_locks() == 0 && !old(self).exclusive_locked()),
            r ==> final(self).exclusive_locked(),
            !r ==> final(self).exclusive_locked() == old(self).exclusive_locked(),
            final(self).shared_locks() == old(self).shared_locks(),
            final(self).entries() == old(self).entries(),
            final(self).name() == old(self).name(),
            final(self).base() == old(self).base(),
    {
        if self.shared_locks == 0 && !self.exclusive_locked {
            self.exclusive_locked = true;
            true
        } else {
            false
        }
    }

    /// Release the exclusive garbage-collection lock.
    pub fn release_exclusive_lock(&mut self)
        requires
            old(self).exclusive_locked(),
        ensures
            !final(self).exclusive_locked(),
            final(self).shared_locks() == old(self).shared_locks(),
            final(self).entries() == old(self).entries(),
            final(self).name() == old(self).name(),
            final(self).base() == old(self).base(),
    {
        self.exclusive_locked = false;
    }

    /// Delete every chunk that is neither marked as used nor newer than
    /// `min_mtime`, and add what remains to the disk counters. A chunk
    /// younger than the threshold is presumed to belong to an in-flight
    /// backup whose index is not yet published, and survives this pass.
    pub fn sweep_unused_chunks(
        &mut self,
        marked: &DigestSet,
        min_mtime: u64,
        status: &mut GarbageCollectionStatus,
    )
        requires
            old(self).wf(),
        ensures
            final(self).wf(),
            final(self).entries() == swept(old(self).entries(), marked.items(), min_mtime),
            final(status).disk_chunks == sat_add(
                old(status).disk_chunks,
                swept(old(self).entries(), marked.items(), min_mtime).len() as int,
            ),
            final(status).disk_bytes == swept_bytes(
                old(status).disk_bytes,
                old(self).entries(),
                marked.items(),
                min_mtime,
            ),
            final(status).used_bytes == old(status).used_bytes,
            final(status).used_chunks == old(status).used_chunks,
            final(self).name() == old(self).name(),
            final(self).base() == old(self).base(),
            final(self).shared_locks() == old(self).shared_locks(),
            final(self).exclusive_locked() == old(self).exclusive_locked(),
    {
        let ghost all = self.entries@;
        let mut kept: Vec<ChunkEntry> = Vec::new();
        let mut i: usize = 0;
        while i < self.entries.len()
            invariant
                i <= all.len(),
                self.entries@ == all,
                chunks_wf(all),
                kept@ == swept(all.take(i as int), marked.items(), min_mtime),
                status.disk_chunks == sat_add(old(status).disk_chunks, kept@.len() as int),
                status.disk_bytes == swept_bytes(
                    old(status).disk_bytes,
                    all.take(i as int),
                    marked.items(),
                    min_mtime,
                ),
                status.used_bytes == old(status).used_bytes,
                status.used_chunks == old(status).used_chunks,
            decreases all.len() - i,
        {
            let e = self.entries[i];
            let keep = marked.contains(&e.digest) || e.mtime >= min_mtime;
            proof {
                assert(all.take(i + 1int).drop_last() =~= all.take(i as int));
                assert(all.take(i + 1int).last() == all[i as int]);
            }
            if keep {
                kept.push(e);
                status.disk_chunks = status.disk_chunks.saturating_add(1);
                status.disk_bytes = status.disk_bytes.saturating_add(e.size);
            }
            i = i + 1;
        }
        proof {
            assert(all.take(all.len() as int) =~= all);
            lemma_swept_wf(all, marked.items(), min_mtime);
        }
        self.entries = kept;
    }

    /// A copy of the store's chunk directory entries, for diagnostics
    /// and maintenance walks.
    pub fn get_chunk_iterator(&self) -> (r: Vec<ChunkEntry>)
        ensures
            r@ == self.entries(),
    {
        let mut r: Vec<ChunkEntry> = Vec::new();
        let mut i: usize = 0;
        while i < self.entries.len()
            invariant
                i <= self.entries().len(),
                r@ == self.entries().take(i as int),
            decreases self.entries().len() - i,
        {
            r.push(self.entries[i]);
            proof {
                assert(self.entries().take(i + 1int) =~= self.entries().take(i as int).push(
                    self.entries()[i as int],
                ));
            }
            i = i + 1;
        }
        proof {
            assert(self.entries().take(self.entries().len() as int) =~= self.entries());
        }
        r
    }
}

} // verus!
