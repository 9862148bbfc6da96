//! A published index file of either format, opened for reading. The
//! file's extension selects the format; both expose the same interface
//! to the garbage collector and to restore code.

use vstd::prelude::*;

use crate::chunk_store::{sat_add, GarbageCollectionStatus};
use crate::digest::{marked_after, DigestSet};
use crate::dynamic_index::{dyn_used_bytes_after, DynamicIndexReader};
use crate::fixed_index::{used_bytes_after, FixedIndexReader};

verus! {

/// A reader of either index format.
pub enum IndexReader {
    Fixed(FixedIndexReader),
    Dynamic(DynamicIndexReader),
}

impl IndexReader {
    /// The underlying reader is well-formed.
    pub open spec fn wf(&self) -> bool {
        match self {
            IndexReader::Fixed(r) => r.wf(),
            IndexReader::Dynamic(r) => r.wf(),
        }
    }

    /// The digests the index references as byte sequences, in slot order.
    pub open spec fn digests(&self) -> Seq<Seq<u8>> {
        match self {
            IndexReader::Fixed(r) => r.view_of().slots,
            IndexReader::Dynamic(r) => r.digests(),
        }
    }

    /// `used_bytes` after marking all slots of this index.
    pub open spec fn spec_used_bytes(&self, start: u64) -> u64 {
        match self {
            IndexReader::Fixed(r) => used_bytes_after(start, *r, r.spec_index_count()),
            IndexReader::Dynamic(r) => dyn_used_bytes_after(start, *r, r.entries@.len() as int),
        }
    }

    /// How many digest slots the index has.
    pub fn index_count(&self) -> (r: usize)
        requires
            self.wf(),
        ensures
            r == self.digests().len(),
    {
        match self {
            IndexReader::Fixed(reader) => reader.index_count(),
            IndexReader::Dynamic(reader) => reader.index_count(),
        }
    }

    /// The digest at slot `pos`, or nothing past the end.
    pub fn index_digest(&self, pos: usize) -> (r: Option<&[u8; 32]>)
        requires
            self.wf(),
        ensures
            pos < self.digests().len() <==> r is Some,
            pos < self.digests().len() ==> r is Some && (*r->0)@ == self.digests()[pos as int],
    {
        match self {
            IndexReader::Fixed(reader) => reader.index_digest(pos),
            IndexReader::Dynamic(reader) => reader.index_digest(pos),
        }
    }

    /// How many logical bytes the index covers.
    pub fn index_bytes(&self) -> (r: u64)
        requires
            self.wf(),
    {
        match self {
            IndexReader::Fixed(reader) => reader.index_bytes(),
            IndexReader::Dynamic(reader) => reader.index_bytes(),
        }
    }

    /// Mark every digest of this index as used.
    pub fn mark_used_chunks(&self, marked: &mut DigestSet, status: &mut GarbageCollectionStatus)
        requires
            self.wf(),
            old(marked).wf(),
        ensures
            final(marked).wf(),
            final(marked).items() == marked_after(old(marked).items(), self.digests()),
            final(status).used_chunks == sat_add(
                old(status).used_chunks,
                marked_after(old(marked).items(), self.digests()).len() - old(
                    marked,
                ).items().len(),
            ),
            final(status).used_bytes == self.spec_used_bytes(old(status).used_bytes),
            final(status).disk_bytes == old(status).disk_bytes,
            final(status).disk_chunks == old(status).disk_chunks,
    {
        match self {
            IndexReader::Fixed(reader) => reader.mark_used_chunks(marked, status),
            IndexReader::Dynamic(reader) => reader.mark_used_chunks(marked, status),
        }
    }
}

} // verus!
