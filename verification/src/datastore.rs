//! The datastore: a chunk store plus the snapshot directory hierarchy
//! `type/id/<timestamp>/` above it, and the two-phase mark-and-sweep
//! garbage collection over both.
//!
//! The snapshot tree models the directory hierarchy under the base path
//! as a list of snapshot directories, each holding its published index
//! files by name and content; the surrounding process mirrors every
//! transition onto the real tree.

use vstd::prelude::*;

use crate::backup_path::{
    is_hidden_name, is_index_file_name, is_fidx_name, is_didx_name, is_valid_id, name_is_didx,
    name_is_fidx, name_is_hidden, backup_type_host, backup_type_vm, backup_type_ct, BackupDir,
    BackupGroup, BackupInfo,
};
use crate::backup_time::{rfc3339_render, time_parse, time_shape_ok, BackupTime};
use crate::chunk_store::{ChunkEntry, ChunkStat, ChunkStore, GarbageCollectionStatus, is_valid_base};
use crate::digest::DigestSet;
use crate::dynamic_index::{DynamicIndexReader, DynamicIndexWriter};
use crate::error::StoreError;
use crate::fixed_index::{zero_digest, ChunkInfo, FixedIndexReader, FixedIndexWriter};
use crate::index::IndexReader;

verus! {

/// One published file inside a snapshot directory.
pub struct SnapshotFile {
    /// The file name within its snapshot directory.
    pub name: String,
    /// The file's content.
    pub data: Vec<u8>,
}

/// One snapshot directory `type/id/<timestamp>/` and its files.
pub struct SnapshotDir {
    /// The first path component.
    pub backup_type: String,
    /// The second path component.
    pub backup_id: String,
    /// The third path component, a rendered timestamp.
    pub time_name: String,
    /// The files inside the directory.
    pub files: Vec<SnapshotFile>,
}

/// The relative path of the snapshot directory.
pub open spec fn dir_path_of(d: SnapshotDir) -> Seq<char> {
    d.backup_type@ + seq!['/'] + d.backup_id@ + seq!['/'] + d.time_name@
}

/// True when the directory has exactly these three components.
pub open spec fn dir_matches(d: SnapshotDir, t: Seq<char>, id: Seq<char>, tn: Seq<char>) -> bool {
    d.backup_type@ == t && d.backup_id@ == id && d.time_name@ == tn
}

/// True when some directory has exactly these three components.
pub open spec fn dirs_contain(dirs: Seq<SnapshotDir>, t: Seq<char>, id: Seq<char>, tn: Seq<char>) -> bool {
    exists|i: int| 0 <= i < dirs.len() && dir_matches(dirs[i], t, id, tn)
}

/// No two directories share all three components.
pub open spec fn dirs_unique(dirs: Seq<SnapshotDir>) -> bool {
    forall|i: int, j: int|
        0 <= i < j < dirs.len() ==> !(dirs[i].backup_type@ == dirs[j].backup_type@
            && dirs[i].backup_id@ == dirs[j].backup_id@ && dirs[i].time_name@
            == dirs[j].time_name@)
}

/// No two files of one directory share a name.
pub open spec fn file_names_unique(files: Seq<SnapshotFile>) -> bool {
    forall|i: int, j: int| 0 <= i < j < files.len() ==> files[i].name@ != files[j].name@
}

/// The content of the file called `name`, searched front to back.
pub open spec fn dir_file_data(files: Seq<SnapshotFile>, name: Seq<char>) -> Option<Seq<u8>>
    decreases files.len(),
{
    if files.len() == 0 {
        None
    } else if files.first().name@ == name {
        Some(files.first().data@)
    } else {
        dir_file_data(files.drop_first(), name)
    }
}

/// The content of the file at `path`, searched front to back: the path
/// is the snapshot directory's relative path, a slash, and a file name.
pub open spec fn file_data_at(dirs: Seq<SnapshotDir>, path: Seq<char>) -> Option<Seq<u8>>
    decreases dirs.len(),
{
    if dirs.len() == 0 {
        None
    } else {
        let d = dirs.first();
        if path.len() > dir_path_of(d).len() + 1 && path.take(dir_path_of(d).len() as int)
            == dir_path_of(d) && path[dir_path_of(d).len() as int] == '/' {
            match dir_file_data(d.files@, path.skip(dir_path_of(d).len() as int + 1)) {
                Some(data) => Some(data),
                None => file_data_at(dirs.drop_first(), path),
            }
        } else {
            file_data_at(dirs.drop_first(), path)
        }
    }
}

/// True when the two strings hold the same characters.
pub fn str_eq(a: &str, b: &str) -> (r: bool)
    ensures
        r == (a@ == b@),
{
    let sa = a.to_owned();
    let sb = b.to_owned();
    sa == sb
}

/// A named datastore: its chunk store, the snapshot tree above it, and
/// the garbage-collection grace window.
pub struct DataStore {
    /// The configured name of the datastore.
    pub name: String,
    /// The content-addressed chunk repository.
    pub chunk_store: ChunkStore,
    /// How many seconds an unmarked chunk stays protected after being
    /// written, so an in-flight backup's chunks survive a sweep.
    pub gc_grace_seconds: u64,
    /// The snapshot directories under the base path.
    pub snapshots: Vec<SnapshotDir>,
}

impl DataStore {
    /// The directory tree and the chunk store are consistent.
    pub open spec fn wf(&self) -> bool {
        &&& self.chunk_store.wf()
        &&& dirs_unique(self.snapshots@)
        &&& forall|i: int|
            0 <= i < self.snapshots@.len() ==> file_names_unique(
                #[trigger] self.snapshots@[i].files@,
            )
    }

    /// True when the two stores agree on everything.
    pub open spec fn same_store(&self, other: &DataStore) -> bool {
        &&& self.name@ == other.name@
        &&& self.chunk_store.same_state(&other.chunk_store)
        &&& self.gc_grace_seconds == other.gc_grace_seconds
        &&& self.snapshots@ == other.snapshots@
    }

    /// Open an empty datastore for `name` under `path` with an explicit
    /// grace window. Fails with a configuration error exactly when the
    /// name is empty or the path is not absolute.
    pub fn open(name: &str, path: &str, gc_grace_seconds: u64) -> (r: Result<DataStore, StoreError>)
        ensures
            r is Ok <==> (name@.len() > 0 && is_valid_base(path@)),
            r is Err ==> r == Result::<DataStore, StoreError>::Err(StoreError::Config),
            r is Ok ==> {
                let s = r->Ok_0;
                &&& s.wf()
                &&& s.name@ == name@
                &&& s.chunk_store.name() == name@
                &&& s.chunk_store.base() == path@
                &&& s.chunk_store.entries() =~= Seq::<ChunkEntry>::empty()
                &&& s.chunk_store.shared_locks() == 0
                &&& !s.chunk_store.exclusive_locked()
                &&& s.gc_grace_seconds == gc_grace_seconds
                &&& s.snapshots@ =~= Seq::<SnapshotDir>::empty()
            },
    {
        let chunk_store = ChunkStore::open(name, path)?;
        Ok(
            DataStore {
                name: name.to_owned(),
                chunk_store,
                gc_grace_seconds,
                snapshots: Vec::new(),
            },
        )
    }

    /// The base directory path of the datastore.
    pub fn base_path(&self) -> (r: String)
        ensures
            r@ == self.chunk_store.base(),
    {
        self.chunk_store.base_path()
    }

    /// A copy of the chunk directory entries, for maintenance walks.
    pub fn get_chunk_iterator(&self) -> (r: Vec<ChunkEntry>)
        ensures
            r@ == self.chunk_store.entries(),
    {
        self.chunk_store.get_chunk_iterator()
    }

    /// Create the snapshot directory for `(type, id, time)`. Returns its
    /// relative path and whether it was newly created: a pre-existing
    /// directory is not an error, it signals an existing snapshot.
    pub fn create_backup_dir(
        &mut self,
        backup_type: &str,
        backup_id: &str,
        backup_time: &BackupTime,
    ) -> (r: (String, bool))
        requires
            old(self).wf(),
            backup_time.valid(),
        ensures
            final(self).wf(),
            final(self).chunk_store.same_state(&old(self).chunk_store),
            final(self).name@ == old(self).name@,
            final(self).gc_grace_seconds == old(self).gc_grace_seconds,
            r.0@ == backup_type@ + seq!['/'] + backup_id@ + seq!['/'] + rfc3339_render(
                *backup_time,
            ),
            r.1 == !dirs_contain(
                old(self).snapshots@,
                backup_type@,
                backup_id@,
                rfc3339_render(*backup_time),
            ),
            !r.1 ==> final(self).snapshots@ == old(self).snapshots@,
            r.1 ==> {
                &&& final(self).snapshots@.len() == old(self).snapshots@.len() + 1
                &&& forall|i: int|
                    0 <= i < old(self).snapshots@.len() ==> final(self).snapshots@[i] == old(
                        self,
                    ).snapshots@[i]
                &&& final(self).snapshots@.last().backup_type@ == backup_type@
                &&& final(self).snapshots@.last().backup_id@ == backup_id@
                &&& final(self).snapshots@.last().time_name@ == rfc3339_render(*backup_time)
                &&& final(self).snapshots@.last().files@.len() == 0
            },
    {
        let time_name = backup_time.to_rfc3339();
        let mut rel = backup_type.to_owned();
        rel.append("/");
        rel.append(backup_id);
        rel.append("/");
        rel.append(time_name.as_str());
        proof {
            reveal_strlit("/");
            assert(rel@ =~= backup_type@ + seq!['/'] + backup_id@ + seq!['/'] + rfc3339_render(
                *backup_time,
            ));
        }
        let mut i: usize = 0;
        while i < self.snapshots.len()
            invariant
                i <= self.snapshots@.len(),
                *self == *old(self),
                old(self).wf(),
                time_name@ == rfc3339_render(*backup_time),
                rel@ == backup_type@ + seq!['/'] + backup_id@ + seq!['/'] + rfc3339_render(
                    *backup_time,
                ),
                forall|j: int|
                    0 <= j < i ==> !dir_matches(
                        #[trigger] self.snapshots@[j],
                        backup_type@,
                        backup_id@,
                        time_name@,
                    ),
            decreases self.snapshots@.len() - i,
        {
            let d = &self.snapshots[i];
            if str_eq(d.backup_type.as_str(), backup_type) && str_eq(
                d.backup_id.as_str(),
                backup_id,
            ) && str_eq(d.time_name.as_str(), time_name.as_str()) {
                return (rel, false);
            }
            i = i + 1;
        }
        let dir = SnapshotDir {
            backup_type: backup_type.to_owned(),
            backup_id: backup_id.to_owned(),
            time_name,
            files: Vec::new(),
        };
        self.snapshots.push(dir);
        (rel, true)
    }

    /// Remove a snapshot directory including all its content. Fails
    /// exactly when no such snapshot exists.
    pub fn remove_backup_dir(&mut self, backup_dir: &BackupDir) -> (r: Result<(), StoreError>)
        requires
            old(self).wf(),
            backup_dir.backup_time.valid(),
        ensures
            final(self).wf(),
            final(self).chunk_store.same_state(&old(self).chunk_store),
            final(self).name@ == old(self).name@,
            final(self).gc_grace_seconds == old(self).gc_grace_seconds,
            r is Ok <==> dirs_contain(
                old(self).snapshots@,
                backup_dir.group.backup_type@,
                backup_dir.group.backup_id@,
                rfc3339_render(backup_dir.backup_time),
            ),
            r is Err ==> r == Result::<(), StoreError>::Err(StoreError::NotFound)
                && final(self).snapshots@ == old(self).snapshots@,
            r is Ok ==> exists|i: int|
                0 <= i < old(self).snapshots@.len() && dir_matches(
                    old(self).snapshots@[i],
                    backup_dir.group.backup_type@,
                    backup_dir.group.backup_id@,
                    rfc3339_render(backup_dir.backup_time),
                ) && final(self).snapshots@ == old(self).snapshots@.remove(i),
    {
        let time_name = BackupDir::backup_time_to_file_name(&backup_dir.backup_time);
        let mut i: usize = 0;
        while i < self.snapshots.len()
            invariant
                i <= self.snapshots@.len(),
                *self == *old(self),
                old(self).wf(),
                time_name@ == rfc3339_render(backup_dir.backup_time),
                forall|j: int|
                    0 <= j < i ==> !dir_matches(
                        #[trigger] self.snapshots@[j],
                        backup_dir.group.backup_type@,
                        backup_dir.group.backup_id@,
                        time_name@,
                    ),
            decreases self.snapshots@.len() - i,
        {
            let d = &self.snapshots[i];
            if str_eq(d.backup_type.as_str(), backup_dir.group.backup_type.as_str()) && str_eq(
                d.backup_id.as_str(),
                backup_dir.group.backup_id.as_str(),
            ) && str_eq(d.time_name.as_str(), time_name.as_str()) {
                self.snapshots.remove(i);
                return Ok(());
            }
            i = i + 1;
        }
        Err(StoreError::NotFound)
    }

    /// The content of the file at `path`, relative to the base path.
    fn find_file(&self, path: &str) -> (r: Result<&Vec<u8>, StoreError>)
        ensures
            r is Ok <==> file_data_at(self.snapshots@, path@) is Some,
            r is Ok ==> file_data_at(self.snapshots@, path@) == Some(r->Ok_0@),
            r is Err ==> r == Result::<&Vec<u8>, StoreError>::Err(StoreError::NotFound),
    {
        let n = self.snapshots.len();
        proof {
            assert(self.snapshots@.skip(0) =~= self.snapshots@);
        }
        let mut i: usize = 0;
        while i < n
            invariant
                i <= n == self.snapshots@.len(),
                file_data_at(self.snapshots@, path@) == file_data_at(
                    self.snapshots@.skip(i as int),
                    path@,
                ),
            decreases n - i,
        {
            proof {
                assert(self.snapshots@.skip(i as int).first() == self.snapshots@[i as int]);
                assert(self.snapshots@.skip(i as int).drop_first() =~= self.snapshots@.skip(
                    i + 1int,
                ));
            }
            let d = &self.snapshots[i];
            let mut dp = d.backup_type.clone();
            dp.append("/");
            dp.append(d.backup_id.as_str());
            dp.append("/");
            dp.append(d.time_name.as_str());
            dp.append("/");
            proof {
                reveal_strlit("/");
                assert(dp@ =~= dir_path_of(self.snapshots@[i as int]) + seq!['/']);
            }
            let ghost dpath = dir_path_of(self.snapshots@[i as int]);
            let plen = path.unicode_len();
            let dlen = dp.as_str().unicode_len();
            if plen > dlen {
                let prefix = path.substring_char(0, dlen);
                let matches = str_eq(prefix, dp.as_str());
                proof {
                    if path@.take(dpath.len() as int) == dpath && path@[dpath.len() as int]
                        == '/' {
                        assert(prefix@ =~= dp@);
                    }
                    if matches {
                        assert(path@.take(dpath.len() as int) =~= prefix@.take(
                            dpath.len() as int,
                        ));
                        assert(path@[dpath.len() as int] == prefix@[dpath.len() as int]);
                    }
                }
                if matches {
                    let name = path.substring_char(dlen, plen);
                    proof {
                        assert(name@ =~= path@.skip(dpath.len() as int + 1));
                    }
                    let files = &d.files;
                    let m = files.len();
                    proof {
                        assert(files@.skip(0) =~= files@);
                    }
                    let mut j: usize = 0;
                    while j < m
                        invariant
                            j <= m == files@.len(),
                            i < self.snapshots@.len(),
                            files@ == self.snapshots@[i as int].files@,
                            dpath == dir_path_of(self.snapshots@[i as int]),
                            file_data_at(self.snapshots@, path@) == file_data_at(
                                self.snapshots@.skip(i as int),
                                path@,
                            ),
                            path@.len() > dpath.len() + 1,
                            path@.take(dpath.len() as int) == dpath,
                            path@[dpath.len() as int] == '/',
                            dir_file_data(files@, name@) == dir_file_data(
                                files@.skip(j as int),
                                name@,
                            ),
                            name@ == path@.skip(dpath.len() as int + 1),
                        decreases m - j,
                    {
                        proof {
                            assert(files@.skip(j as int).first() == files@[j as int]);
                            assert(files@.skip(j as int).drop_first() =~= files@.skip(j + 1int));
                        }
                        if str_eq(files[j].name.as_str(), name) {
                            proof {
                                assert(self.snapshots@.skip(i as int).first()
                                    == self.snapshots@[i as int]);
                                assert(dir_file_data(files@, name@) == Some(
                                    files@[j as int].data@,
                                ));
                            }
                            return Ok(&files[j].data);
                        }
                        j = j + 1;
                    }
                    proof {
                        assert(files@.skip(m as int) =~= Seq::<SnapshotFile>::empty());
                    }
                }
            }
            i = i + 1;
        }
        proof {
            assert(self.snapshots@.skip(n as int) =~= Seq::<SnapshotDir>::empty());
        }
        Err(StoreError::NotFound)
    }

    /// Open a fixed index writer for `filename`, relative to the base
    /// path, bound to a logical size and chunk size.
    pub fn create_fixed_writer(&mut self, filename: &str, size: usize, chunk_size: usize) -> (r:
        Result<FixedIndexWriter, StoreError>)
        requires
            old(self).wf(),
        ensures
            final(self).wf(),
            final(self).snapshots@ == old(self).snapshots@,
            final(self).name@ == old(self).name@,
            final(self).gc_grace_seconds == old(self).gc_grace_seconds,
            final(self).chunk_store.entries() == old(self).chunk_store.entries(),
            final(self).chunk_store.exclusive_locked() == old(self).chunk_store.exclusive_locked(),
            final(self).chunk_store.name() == old(self).chunk_store.name(),
            final(self).chunk_store.base() == old(self).chunk_store.base(),
            r is Ok <==> (chunk_size > 0 && crate::fixed_index::spec_index_length(
                size as u64,
                chunk_size as u64,
            ) <= (usize::MAX - crate::format::HEADER_SIZE) / 32 && !old(
                self,
            ).chunk_store.exclusive_locked() && old(self).chunk_store.shared_locks() < u64::MAX),
            r is Ok ==> final(self).chunk_store.shared_locks() == old(
                self,
            ).chunk_store.shared_locks() + 1,
            r is Err ==> final(self).chunk_store.shared_locks() == old(
                self,
            ).chunk_store.shared_locks(),
            r is Ok ==> {
                let w = r->Ok_0;
                &&& w.wf()
                &&& w.filename@ == filename@
                &&& w.chunk_size == chunk_size
                &&& w.size == size
                &&& !w.closed
                &&& forall|i: int| 0 <= i < w.slots@.len() ==> w.slots@[i]@ == zero_digest()
            },
    {
        FixedIndexWriter::create(&mut self.chunk_store, filename, size, chunk_size)
    }

    /// Open a dynamic index writer for `filename`, relative to the base
    /// path, with a chunker hint.
    pub fn create_dynamic_writer(&mut self, filename: &str, chunk_size: usize) -> (r: Result<
        DynamicIndexWriter,
        StoreError,
    >)
        requires
            old(self).wf(),
        ensures
            final(self).wf(),
            final(self).snapshots@ == old(self).snapshots@,
            final(self).name@ == old(self).name@,
            final(self).gc_grace_seconds == old(self).gc_grace_seconds,
            final(self).chunk_store.entries() == old(self).chunk_store.entries(),
            final(self).chunk_store.exclusive_locked() == old(self).chunk_store.exclusive_locked(),
            final(self).chunk_store.name() == old(self).chunk_store.name(),
            final(self).chunk_store.base() == old(self).chunk_store.base(),
            r is Ok <==> (!old(self).chunk_store.exclusive_locked() && old(
                self,
            ).chunk_store.shared_locks() < u64::MAX),
            r is Ok ==> final(self).chunk_store.shared_locks() == old(
                self,
            ).chunk_store.shared_locks() + 1,
            r is Err ==> final(self).chunk_store.shared_locks() == old(
                self,
            ).chunk_store.shared_locks() && r == Result::<DynamicIndexWriter, StoreError>::Err(
                StoreError::LockContention,
            ),
            r is Ok ==> {
                let w = r->Ok_0;
                &&& w.wf()
                &&& w.filename@ == filename@
                &&& w.chunk_size == chunk_size
                &&& !w.closed
                &&& w.entries@.len() == 0
            },
    {
        DynamicIndexWriter::create(&mut self.chunk_store, filename, chunk_size)
    }

    /// Feed one chunk to a fixed index writer through this store.
    pub fn add_fixed_chunk(
        &mut self,
        w: &mut FixedIndexWriter,
        chunk_info: &ChunkInfo,
        stat: &mut ChunkStat,
    ) -> (r: Result<(), StoreError>)
        requires
            old(self).wf(),
            old(w).wf(),
        ensures
            final(self).wf(),
            final(w).wf(),
            final(self).snapshots@ == old(self).snapshots@,
            final(self).name@ == old(self).name@,
            final(self).gc_grace_seconds == old(self).gc_grace_seconds,
            r is Ok <==> old(w).accepts_chunk(chunk_info.offset, chunk_info.chunk_len),
            r is Err ==> final(w).same_writer(old(w)) && final(self).chunk_store.same_state(
                &old(self).chunk_store,
            ) && *final(stat) == *old(stat),
            r is Ok ==> {
                let len = chunk_info.chunk_len;
                let idx = (chunk_info.offset - len) as int / (old(w).chunk_size as int);
                &&& final(w).same_but_slots(old(w))
                &&& final(w).slots@ == old(w).slots@.update(idx, chunk_info.digest)
                &&& exists|m: u64|
                    final(self).chunk_store.entries() == crate::chunk_store::insert_result(
                        old(self).chunk_store.entries(),
                        ChunkEntry { digest: chunk_info.digest, size: len, mtime: m },
                    )
                &&& final(self).chunk_store.shared_locks() == old(self).chunk_store.shared_locks()
                &&& final(self).chunk_store.exclusive_locked() == old(
                    self,
                ).chunk_store.exclusive_locked()
                &&& final(self).chunk_store.name() == old(self).chunk_store.name()
                &&& final(self).chunk_store.base() == old(self).chunk_store.base()
            },
    {
        w.add_chunk(&mut self.chunk_store, chunk_info, stat)
    }

    /// Feed one chunk to a dynamic index writer through this store.
    pub fn add_dynamic_chunk(
        &mut self,
        w: &mut DynamicIndexWriter,
        chunk_info: &ChunkInfo,
        stat: &mut ChunkStat,
    ) -> (r: Result<(), StoreError>)
        requires
            old(self).wf(),
            old(w).wf(),
        ensures
            final(self).wf(),
            final(w).wf(),
            final(self).snapshots@ == old(self).snapshots@,
            final(self).name@ == old(self).name@,
            final(self).gc_grace_seconds == old(self).gc_grace_seconds,
            r is Ok <==> old(w).accepts_chunk(chunk_info.offset, chunk_info.chunk_len),
            r is Err ==> final(w).same_writer(old(w)) && final(self).chunk_store.same_state(
                &old(self).chunk_store,
            ) && *final(stat) == *old(stat),
            r is Ok ==> {
                let len = chunk_info.chunk_len;
                &&& final(w).same_but_entries(old(w))
                &&& final(w).entries@ == old(w).entries@.push(
                    crate::dynamic_index::DynEntry {
                        end: chunk_info.offset,
                        digest: chunk_info.digest,
                    },
                )
                &&& exists|m: u64|
                    final(self).chunk_store.entries() == crate::chunk_store::insert_result(
                        old(self).chunk_store.entries(),
                        ChunkEntry { digest: chunk_info.digest, size: len, mtime: m },
                    )
                &&& final(self).chunk_store.shared_locks() == old(self).chunk_store.shared_locks()
                &&& final(self).chunk_store.exclusive_locked() == old(
                    self,
                ).chunk_store.exclusive_locked()
                &&& final(self).chunk_store.name() == old(self).chunk_store.name()
                &&& final(self).chunk_store.base() == old(self).chunk_store.base()
            },
    {
        w.add_chunk(&mut self.chunk_store, chunk_info, stat)
    }

    /// Publish `data` as the file `name` of snapshot directory `i`,
    /// replacing a file of the same name as an atomic rename would.
    fn put_file(&mut self, i: usize, name: String, data: Vec<u8>)
        requires
            old(self).wf(),
            i < old(self).snapshots@.len(),
        ensures
            final(self).wf(),
            final(self).chunk_store.same_state(&old(self).chunk_store),
            final(self).name@ == old(self).name@,
            final(self).gc_grace_seconds == old(self).gc_grace_seconds,
            final(self).snapshots@.len() == old(self).snapshots@.len(),
            forall|p: int|
                0 <= p < old(self).snapshots@.len() && p != i ==> final(self).snapshots@[p]
                    == old(self).snapshots@[p],
            dir_matches(
                final(self).snapshots@[i as int],
                old(self).snapshots@[i as int].backup_type@,
                old(self).snapshots@[i as int].backup_id@,
                old(self).snapshots@[i as int].time_name@,
            ),
            files_put(
                old(self).snapshots@[i as int].files@,
                final(self).snapshots@[i as int].files@,
                name@,
                data@,
            ),
    {
        let ghost old_files = self.snapshots@[i as int].files@;
        let m = self.snapshots[i].files.len();
        let mut j: usize = 0;
        while j < m
            invariant
                j <= m,
                i < self.snapshots@.len(),
                *self == *old(self),
                old(self).wf(),
                m == old_files.len(),
                old_files == self.snapshots@[i as int].files@,
                forall|q: int| 0 <= q < j ==> old_files[q].name@ != name@,
            decreases m - j,
        {
            if str_eq(self.snapshots[i].files[j].name.as_str(), name.as_str()) {
                self.snapshots[i].files[j] = SnapshotFile { name, data };
                proof {
                    assert(final(self).snapshots@[i as int].files@ =~= old_files.update(
                        j as int,
                        final(self).snapshots@[i as int].files@[j as int],
                    ));
                }
                return ;
            }
            j = j + 1;
        }
        self.snapshots[i].files.push(SnapshotFile { name, data });
    }

    /// Seal a fixed index writer and publish its byte image under its
    /// file name, as the atomic rename from the staging name does. A
    /// second close is an error; a file name outside any existing
    /// snapshot directory cannot be published.
    pub fn close_fixed_writer(&mut self, w: &mut FixedIndexWriter) -> (r: Result<
        [u8; 32],
        StoreError,
    >)
        requires
            old(self).wf(),
            old(w).wf(),
            !old(w).closed ==> old(self).chunk_store.shared_locks() >= 1,
        ensures
            final(self).wf(),
            final(w).wf(),
            final(self).name@ == old(self).name@,
            final(self).gc_grace_seconds == old(self).gc_grace_seconds,
            old(w).closed ==> r == Result::<[u8; 32], StoreError>::Err(StoreError::Closed)
                && final(w).same_writer(old(w)) && final(self).same_store(old(self)),
            !old(w).closed ==> {
                &&& final(w).closed
                &&& final(w).slots@ == old(w).slots@
                &&& final(w).filename@ == old(w).filename@
                &&& final(w).chunk_size == old(w).chunk_size
                &&& final(w).size == old(w).size
                &&& final(w).index_length == old(w).index_length
                &&& final(w).uuid == old(w).uuid
                &&& final(w).ctime == old(w).ctime
                &&& final(w).index_csum@ == crate::digest::sha256_of(
                    crate::fixed_index::slots_bytes(old(w).slots@),
                )
                &&& final(self).chunk_store.shared_locks() == old(self).chunk_store.shared_locks()
                    - 1
                &&& final(self).chunk_store.entries() == old(self).chunk_store.entries()
                &&& final(self).chunk_store.exclusive_locked() == old(
                    self,
                ).chunk_store.exclusive_locked()
                &&& final(self).chunk_store.name() == old(self).chunk_store.name()
                &&& final(self).chunk_store.base() == old(self).chunk_store.base()
                &&& published_at(
                    old(self).snapshots@,
                    final(self).snapshots@,
                    old(w).filename@,
                    crate::format::spec_header_bytes(
                        crate::format::fixed_magic(),
                        final(w).header(),
                    ) + crate::fixed_index::slots_bytes(old(w).slots@),
                    r,
                    final(w).index_csum,
                )
            },
    {
        let csum = w.close(&mut self.chunk_store)?;
        let data = w.index_file_bytes();
        self.publish(&w.filename, data, csum)
    }

    /// Seal a dynamic index writer and publish its byte image under its
    /// file name, as the atomic rename from the staging name does.
    pub fn close_dynamic_writer(&mut self, w: &mut DynamicIndexWriter) -> (r: Result<
        [u8; 32],
        StoreError,
    >)
        requires
            old(self).wf(),
            old(w).wf(),
            !old(w).closed ==> old(self).chunk_store.shared_locks() >= 1,
        ensures
            final(self).wf(),
            final(w).wf(),
            final(self).name@ == old(self).name@,
            final(self).gc_grace_seconds == old(self).gc_grace_seconds,
            old(w).closed ==> r == Result::<[u8; 32], StoreError>::Err(StoreError::Closed)
                && final(w).same_writer(old(w)) && final(self).same_store(old(self)),
            !old(w).closed ==> {
                &&& final(w).closed
                &&& final(w).entries@ == old(w).entries@
                &&& final(w).index_csum@ == crate::digest::sha256_of(
                    crate::dynamic_index::dyn_entries_bytes(old(w).entries@),
                )
                &&& final(self).chunk_store.shared_locks() == old(self).chunk_store.shared_locks()
                    - 1
                &&& final(self).chunk_store.entries() == old(self).chunk_store.entries()
                &&& final(self).chunk_store.exclusive_locked() == old(
                    self,
                ).chunk_store.exclusive_locked()
                &&& final(self).chunk_store.name() == old(self).chunk_store.name()
                &&& final(self).chunk_store.base() == old(self).chunk_store.base()
                &&& published_at(
                    old(self).snapshots@,
                    final(self).snapshots@,
                    old(w).filename@,
                    crate::format::spec_header_bytes(
                        crate::format::dynamic_magic(),
                        final(w).header(),
                    ) + crate::dynamic_index::dyn_entries_bytes(old(w).entries@),
                    r,
                    final(w).index_csum,
                )
            },
    {
        let csum = w.close(&mut self.chunk_store)?;
        let data = w.index_file_bytes();
        self.publish(&w.filename, data, csum)
    }

    /// Place published bytes into the snapshot directory the file name
    /// selects.
    fn publish(&mut self, filename: &String, data: Vec<u8>, csum: [u8; 32]) -> (r: Result<
        [u8; 32],
        StoreError,
    >)
        requires
            old(self).wf(),
        ensures
            final(self).wf(),
            final(self).chunk_store.same_state(&old(self).chunk_store),
            final(self).name@ == old(self).name@,
            final(self).gc_grace_seconds == old(self).gc_grace_seconds,
            published_at(
                old(self).snapshots@,
                final(self).snapshots@,
                filename@,
                data@,
                r,
                csum,
            ),
    {
        let n = filename.as_str().unicode_len();
        let mut i: usize = 0;
        let mut k: usize = 0;
        let mut found = false;
        while i < n
            invariant
                i <= n == filename@.len(),
                found ==> k < i && crate::backup_path::last_slash_index(
                    filename@.take(i as int),
                ) == k,
                !found ==> crate::backup_path::last_slash_index(filename@.take(i as int)) == -1,
            decreases n - i,
        {
            proof {
                assert(filename@.take(i + 1int).drop_last() =~= filename@.take(i as int));
                assert(filename@.take(i + 1int).last() == filename@[i as int]);
            }
            if filename.as_str().get_char(i) == '/' {
                k = i;
                found = true;
            }
            i = i + 1;
        }
        proof {
            assert(filename@.take(n as int) =~= filename@);
        }
        if !found {
            return Err(StoreError::NotFound);
        }
        let dir_path = filename.as_str().substring_char(0, k);
        let name = filename.as_str().substring_char(k + 1, n);
        proof {
            assert(dir_path@ =~= filename@.take(
                crate::backup_path::last_slash_index(filename@),
            ));
            assert(name@ =~= filename@.skip(
                crate::backup_path::last_slash_index(filename@) + 1,
            ));
        }
        let m = self.snapshots.len();
        let mut i: usize = 0;
        while i < m
            invariant
                i <= m == self.snapshots@.len(),
                *self == *old(self),
                old(self).wf(),
                dir_path@ == filename@.take(crate::backup_path::last_slash_index(filename@)),
                name@ == filename@.skip(crate::backup_path::last_slash_index(filename@) + 1),
                crate::backup_path::last_slash_index(filename@) >= 0,
                forall|j: int|
                    0 <= j < i ==> dir_path_of(#[trigger] self.snapshots@[j]) != dir_path@,
            decreases m - i,
        {
            let d = &self.snapshots[i];
            let mut dp = d.backup_type.clone();
            dp.append("/");
            dp.append(d.backup_id.as_str());
            dp.append("/");
            dp.append(d.time_name.as_str());
            proof {
                reveal_strlit("/");
                assert(dp@ =~= dir_path_of(self.snapshots@[i as int]));
            }
            if str_eq(dp.as_str(), dir_path) {
                let owned_name = name.to_owned();
                self.put_file(i, owned_name, data);
                return Ok(csum);
            }
            i = i + 1;
        }
        Err(StoreError::NotFound)
    }
}

/// True when no component of the directory is hidden, so listings and
/// the garbage collector see it.
pub open spec fn dir_visible(d: SnapshotDir) -> bool {
    &&& !is_hidden_name(d.backup_type@)
    &&& !is_hidden_name(d.backup_id@)
    &&& !is_hidden_name(d.time_name@)
}

/// The index files of one directory as `(path, name, data)` entries:
/// every non-hidden file with an index extension, in file order.
pub open spec fn files_images(dpath: Seq<char>, files: Seq<SnapshotFile>) -> Seq<
    (Seq<char>, Seq<char>, Seq<u8>),
>
    decreases files.len(),
{
    if files.len() == 0 {
        Seq::empty()
    } else {
        let rest = files_images(dpath, files.drop_last());
        let f = files.last();
        if is_index_file_name(f.name@) && !is_hidden_name(f.name@) {
            rest.push((dpath + seq!['/'] + f.name@, f.name@, f.data@))
        } else {
            rest
        }
    }
}

/// Every index file of every visible snapshot directory, in tree order.
pub open spec fn image_entries(dirs: Seq<SnapshotDir>) -> Seq<(Seq<char>, Seq<char>, Seq<u8>)>
    decreases dirs.len(),
{
    if dirs.len() == 0 {
        Seq::empty()
    } else {
        image_entries(dirs.drop_last()) + (if dir_visible(dirs.last()) {
            files_images(dir_path_of(dirs.last()), dirs.last().files@)
        } else {
            Seq::empty()
        })
    }
}

/// The digests of a parsed dynamic index's records.
pub open spec fn dyn_digest_views(entries: Seq<(u64, Seq<u8>)>) -> Seq<Seq<u8>> {
    Seq::new(entries.len(), |i: int| entries[i].1)
}

/// The marked digests after the mark phase walks `files` in order:
/// nothing, when some index file does not parse.
pub open spec fn marking_items(
    items: Seq<Seq<u8>>,
    files: Seq<(Seq<char>, Seq<char>, Seq<u8>)>,
) -> Option<Seq<Seq<u8>>>
    decreases files.len(),
{
    if files.len() == 0 {
        Some(items)
    } else {
        match marking_items(items, files.drop_last()) {
            None => None,
            Some(prev) => {
                let f = files.last();
                if is_fidx_name(f.1) {
                    match crate::fixed_index::fixed_parse(f.2) {
                        Some(v) => Some(crate::digest::marked_after(prev, v.slots)),
                        None => None,
                    }
                } else if is_didx_name(f.1) {
                    match crate::dynamic_index::dynamic_parse(f.2) {
                        Some(v) => Some(
                            crate::digest::marked_after(prev, dyn_digest_views(v.entries)),
                        ),
                        None => None,
                    }
                } else {
                    Some(prev)
                }
            },
        }
    }
}

/// The used-bytes counter after the mark phase walks `files` in order:
/// each parsed index adds its logical size, saturating at `u64::MAX`.
pub open spec fn marking_bytes(start: u64, files: Seq<(Seq<char>, Seq<char>, Seq<u8>)>) -> u64
    decreases files.len(),
{
    if files.len() == 0 {
        start
    } else {
        let prev = marking_bytes(start, files.drop_last());
        let f = files.last();
        if is_fidx_name(f.1) {
            match crate::fixed_index::fixed_parse(f.2) {
                Some(v) => crate::chunk_store::sat_add(prev, v.size as int),
                None => prev,
            }
        } else if is_didx_name(f.1) {
            match crate::dynamic_index::dynamic_parse(f.2) {
                Some(v) => crate::chunk_store::sat_add(prev, v.size as int),
                None => prev,
            }
        } else {
            prev
        }
    }
}

/// Marking a concatenation marks the first part, then the second.
pub proof fn lemma_marking_items_append(
    items: Seq<Seq<u8>>,
    a: Seq<(Seq<char>, Seq<char>, Seq<u8>)>,
    b: Seq<(Seq<char>, Seq<char>, Seq<u8>)>,
)
    ensures
        marking_items(items, a + b) == (match marking_items(items, a) {
            None => None,
            Some(m) => marking_items(m, b),
        }),
    decreases b.len(),
{
    if b.len() == 0 {
        assert(a + b =~= a);
    } else {
        lemma_marking_items_append(items, a, b.drop_last());
        assert((a + b).drop_last() =~= a + b.drop_last());
        assert((a + b).last() == b.last());
    }
}

/// Byte accounting over a concatenation runs part by part.
pub proof fn lemma_marking_bytes_append(
    start: u64,
    a: Seq<(Seq<char>, Seq<char>, Seq<u8>)>,
    b: Seq<(Seq<char>, Seq<char>, Seq<u8>)>,
)
    ensures
        marking_bytes(start, a + b) == marking_bytes(marking_bytes(start, a), b),
    decreases b.len(),
{
    if b.len() == 0 {
        assert(a + b =~= a);
    } else {
        lemma_marking_bytes_append(start, a, b.drop_last());
        assert((a + b).drop_last() =~= a + b.drop_last());
        assert((a + b).last() == b.last());
    }
}

/// A parse failure among a directory's first files fails the whole
/// directory's walk.
pub proof fn lemma_marking_none_extends_files(
    items: Seq<Seq<u8>>,
    dpath: Seq<char>,
    files: Seq<SnapshotFile>,
    k: int,
)
    requires
        0 <= k <= files.len(),
        marking_items(items, files_images(dpath, files.take(k))) is None,
    ensures
        marking_items(items, files_images(dpath, files)) is None,
    decreases files.len() - k,
{
    if k == files.len() {
        assert(files.take(k) =~= files);
    } else {
        assert(files.take(k + 1).drop_last() =~= files.take(k));
        let p = files_images(dpath, files.take(k));
        let q = files_images(dpath, files.take(k + 1));
        if q != p {
            assert(q.drop_last() =~= p);
        }
        assert(marking_items(items, q) is None);
        lemma_marking_none_extends_files(items, dpath, files, k + 1);
    }
}

/// A parse failure among the files seen so far fails the whole tree
/// walk.
pub proof fn lemma_marking_none_extends_dirs(
    items: Seq<Seq<u8>>,
    dirs: Seq<SnapshotDir>,
    k: int,
)
    requires
        0 <= k <= dirs.len(),
        marking_items(items, image_entries(dirs.take(k))) is None,
    ensures
        marking_items(items, image_entries(dirs)) is None,
    decreases dirs.len() - k,
{
    if k == dirs.len() {
        assert(dirs.take(k) =~= dirs);
    } else {
        assert(dirs.take(k + 1).drop_last() =~= dirs.take(k));
        let tail: Seq<(Seq<char>, Seq<char>, Seq<u8>)> = if dir_visible(dirs.take(k + 1).last()) {
            files_images(dir_path_of(dirs.take(k + 1).last()), dirs.take(k + 1).last().files@)
        } else {
            Seq::empty()
        };
        lemma_marking_items_append(items, image_entries(dirs.take(k)), tail);
        assert(image_entries(dirs.take(k + 1)) == image_entries(dirs.take(k)) + tail);
        assert(marking_items(items, image_entries(dirs.take(k + 1))) is None);
        lemma_marking_none_extends_dirs(items, dirs, k + 1);
    }
}

/// Marking can only record more digests.
pub proof fn lemma_marking_items_grow(
    items: Seq<Seq<u8>>,
    files: Seq<(Seq<char>, Seq<char>, Seq<u8>)>,
)
    requires
        marking_items(items, files) is Some,
    ensures
        marking_items(items, files)->Some_0.len() >= items.len(),
    decreases files.len(),
{
    if files.len() > 0 {
        lemma_marking_items_grow(items, files.drop_last());
        let prev = marking_items(items, files.drop_last())->Some_0;
        let f = files.last();
        if is_fidx_name(f.1) {
            crate::digest::lemma_marked_after_len(
                prev,
                crate::fixed_index::fixed_parse(f.2)->Some_0.slots,
            );
        } else if is_didx_name(f.1) {
            crate::digest::lemma_marked_after_len(
                prev,
                dyn_digest_views(crate::dynamic_index::dynamic_parse(f.2)->Some_0.entries),
            );
        }
    }
}

/// The sweep threshold: chunks written less than `grace` seconds
/// before `now` survive even when unmarked.
pub open spec fn gc_min_mtime(now: u64, grace: u64) -> u64 {
    if now >= grace {
        (now - grace) as u64
    } else {
        0
    }
}

impl DataStore {
    /// List every index file in every visible snapshot directory, as
    /// paths relative to the base path. The chunk store's own hidden
    /// subtree is never visited.
    pub fn list_images(&self) -> (r: Vec<String>)
        requires
            self.wf(),
        ensures
            r@.len() == image_entries(self.snapshots@).len(),
            forall|k: int|
                0 <= k < r@.len() ==> r@[k]@ == image_entries(self.snapshots@)[k].0,
    {
        let mut out: Vec<String> = Vec::new();
        let n = self.snapshots.len();
        let mut i: usize = 0;
        while i < n
            invariant
                i <= n == self.snapshots@.len(),
                out@.len() == image_entries(self.snapshots@.take(i as int)).len(),
                forall|k: int|
                    0 <= k < out@.len() ==> out@[k]@ == image_entries(
                        self.snapshots@.take(i as int),
                    )[k].0,
            decreases n - i,
        {
            proof {
                assert(self.snapshots@.take(i + 1int).drop_last() =~= self.snapshots@.take(
                    i as int,
                ));
                assert(self.snapshots@.take(i + 1int).last() == self.snapshots@[i as int]);
            }
            let ghost base = image_entries(self.snapshots@.take(i as int));
            let d = &self.snapshots[i];
            let visible = !name_is_hidden(d.backup_type.as_str()) && !name_is_hidden(
                d.backup_id.as_str(),
            ) && !name_is_hidden(d.time_name.as_str());
            if visible {
                let mut dp = d.backup_type.clone();
                dp.append("/");
                dp.append(d.backup_id.as_str());
                dp.append("/");
                dp.append(d.time_name.as_str());
                proof {
                    reveal_strlit("/");
                    assert(dp@ =~= dir_path_of(self.snapshots@[i as int]));
                }
                let ghost dpath = dir_path_of(self.snapshots@[i as int]);
                let m = d.files.len();
                let mut j: usize = 0;
                while j < m
                    invariant
                        j <= m,
                        i < self.snapshots@.len(),
                        *d == self.snapshots@[i as int],
                        m == self.snapshots@[i as int].files@.len(),
                        dp@ == dpath,
                        dpath == dir_path_of(self.snapshots@[i as int]),
                        base == image_entries(self.snapshots@.take(i as int)),
                        out@.len() == base.len() + files_images(
                            dpath,
                            self.snapshots@[i as int].files@.take(j as int),
                        ).len(),
                        forall|k: int|
                            0 <= k < out@.len() ==> out@[k]@ == (base + files_images(
                                dpath,
                                self.snapshots@[i as int].files@.take(j as int),
                            ))[k].0,
                    decreases m - j,
                {
                    let ghost fs = self.snapshots@[i as int].files@;
                    proof {
                        assert(fs.take(j + 1int).drop_last() =~= fs.take(j as int));
                        assert(fs.take(j + 1int).last() == fs[j as int]);
                    }
                    let f = &d.files[j];
                    if (name_is_fidx(f.name.as_str()) || name_is_didx(f.name.as_str()))
                        && !name_is_hidden(f.name.as_str()) {
                        let mut p = dp.clone();
                        p.append("/");
                        p.append(f.name.as_str());
                        proof {
                            reveal_strlit("/");
                            assert(p@ =~= dpath + seq!['/'] + fs[j as int].name@);
                            assert(files_images(dpath, fs.take(j + 1int)) =~= files_images(
                                dpath,
                                fs.take(j as int),
                            ).push((dpath + seq!['/'] + fs[j as int].name@, fs[j as int].name@, fs[j as int].data@)));
                        }
                        out.push(p);
                    } else {
                        proof {
                            assert(files_images(dpath, fs.take(j + 1int)) =~= files_images(
                                dpath,
                                fs.take(j as int),
                            ));
                        }
                    }
                    j = j + 1;
                }
                proof {
                    assert(self.snapshots@[i as int].files@.take(m as int)
                        =~= self.snapshots@[i as int].files@);
                }
            }
            i = i + 1;
        }
        proof {
            assert(self.snapshots@.take(n as int) =~= self.snapshots@);
        }
        out
    }

    /// Open the fixed index file at `filename`, relative to the base
    /// path.
    pub fn open_fixed_reader(&self, filename: &str) -> (r: Result<FixedIndexReader, StoreError>)
        ensures
            ({
                match file_data_at(self.snapshots@, filename@) {
                    Option::None => r == Result::<FixedIndexReader, StoreError>::Err(
                        StoreError::NotFound,
                    ),
                    Option::Some(data) => {
                        match crate::fixed_index::fixed_parse(data) {
                            Option::None => r == Result::<FixedIndexReader, StoreError>::Err(
                                StoreError::Format,
                            ),
                            Option::Some(v) => r is Ok && r->Ok_0.view_of() == v
                                && r->Ok_0.wf(),
                        }
                    },
                }
            }),
    {
        let data = self.find_file(filename)?;
        FixedIndexReader::open(data.as_slice())
    }

    /// Open the dynamic index file at `filename`, relative to the base
    /// path.
    pub fn open_dynamic_reader(&self, filename: &str) -> (r: Result<
        DynamicIndexReader,
        StoreError,
    >)
        ensures
            ({
                match file_data_at(self.snapshots@, filename@) {
                    Option::None => r == Result::<DynamicIndexReader, StoreError>::Err(
                        StoreError::NotFound,
                    ),
                    Option::Some(data) => {
                        match crate::dynamic_index::dynamic_parse(data) {
                            Option::None => r == Result::<DynamicIndexReader, StoreError>::Err(
                                StoreError::Format,
                            ),
                            Option::Some(v) => r is Ok && r->Ok_0.view_of() == v
                                && r->Ok_0.wf(),
                        }
                    },
                }
            }),
    {
        let data = self.find_file(filename)?;
        DynamicIndexReader::open(data.as_slice())
    }

    /// Open the index file at `filename`, selecting the format by the
    /// file extension. An unknown extension is a format error.
    pub fn open_index(&self, filename: &str) -> (r: Result<IndexReader, StoreError>)
        ensures
            !is_index_file_name(filename@) ==> r == Result::<IndexReader, StoreError>::Err(
                StoreError::Format,
            ),
            is_fidx_name(filename@) ==> ({
                match file_data_at(self.snapshots@, filename@) {
                    Option::None => r == Result::<IndexReader, StoreError>::Err(
                        StoreError::NotFound,
                    ),
                    Option::Some(data) => {
                        match crate::fixed_index::fixed_parse(data) {
                            Option::None => r == Result::<IndexReader, StoreError>::Err(
                                StoreError::Format,
                            ),
                            Option::Some(v) => r is Ok && r->Ok_0 is Fixed
                                && r->Ok_0->Fixed_0.view_of() == v && r->Ok_0.wf(),
                        }
                    },
                }
            }),
            (is_didx_name(filename@) && !is_fidx_name(filename@)) ==> ({
                match file_data_at(self.snapshots@, filename@) {
                    Option::None => r == Result::<IndexReader, StoreError>::Err(
                        StoreError::NotFound,
                    ),
                    Option::Some(data) => {
                        match crate::dynamic_index::dynamic_parse(data) {
                            Option::None => r == Result::<IndexReader, StoreError>::Err(
                                StoreError::Format,
                            ),
                            Option::Some(v) => r is Ok && r->Ok_0 is Dynamic
                                && r->Ok_0->Dynamic_0.view_of() == v && r->Ok_0.wf(),
                        }
                    },
                }
            }),
    {
        if name_is_fidx(filename) {
            let reader = self.open_fixed_reader(filename)?;
            Ok(IndexReader::Fixed(reader))
        } else if name_is_didx(filename) {
            let reader = self.open_dynamic_reader(filename)?;
            Ok(IndexReader::Dynamic(reader))
        } else {
            Err(StoreError::Format)
        }
    }

    /// Phase one of garbage collection: walk every index file of every
    /// visible snapshot and mark every referenced digest. Fails with a
    /// format error when an index file does not parse; the marks made
    /// until then remain recorded.
    fn mark_used_chunks(&self, marked: &mut DigestSet, status: &mut GarbageCollectionStatus) -> (r:
        Result<(), StoreError>)
        requires
            self.wf(),
            old(marked).wf(),
        ensures
            final(marked).wf(),
            final(marked).items().len() >= old(marked).items().len(),
            final(status).disk_bytes == old(status).disk_bytes,
            final(status).disk_chunks == old(status).disk_chunks,
            r is Ok <==> marking_items(
                old(marked).items(),
                image_entries(self.snapshots@),
            ) is Some,
            r is Err ==> r == Result::<(), StoreError>::Err(StoreError::Format),
            r is Ok ==> {
                &&& Some(final(marked).items()) == marking_items(
                    old(marked).items(),
                    image_entries(self.snapshots@),
                )
                &&& final(status).used_bytes == marking_bytes(
                    old(status).used_bytes,
                    image_entries(self.snapshots@),
                )
                &&& final(status).used_chunks == crate::chunk_store::sat_add(
                    old(status).used_chunks,
                    final(marked).items().len() - old(marked).items().len(),
                )
            },
    {
        let ghost items0 = old(marked).items();
        let n = self.snapshots.len();
        let mut i: usize = 0;
        while i < n
            invariant
                i <= n == self.snapshots@.len(),
                self.wf(),
                marked.wf(),
                marked.items().len() >= items0.len(),
                items0 == old(marked).items(),
                Some(marked.items()) == marking_items(
                    items0,
                    image_entries(self.snapshots@.take(i as int)),
                ),
                status.used_bytes == marking_bytes(
                    old(status).used_bytes,
                    image_entries(self.snapshots@.take(i as int)),
                ),
                status.used_chunks == crate::chunk_store::sat_add(
                    old(status).used_chunks,
                    marked.items().len() - items0.len(),
                ),
                status.disk_bytes == old(status).disk_bytes,
                status.disk_chunks == old(status).disk_chunks,
            decreases n - i,
        {
            proof {
                assert(self.snapshots@.take(i + 1int).drop_last() =~= self.snapshots@.take(
                    i as int,
                ));
                assert(self.snapshots@.take(i + 1int).last() == self.snapshots@[i as int]);
            }
            let ghost base = image_entries(self.snapshots@.take(i as int));
            let d = &self.snapshots[i];
            let visible = !name_is_hidden(d.backup_type.as_str()) && !name_is_hidden(
                d.backup_id.as_str(),
            ) && !name_is_hidden(d.time_name.as_str());
            if visible {
                let ghost dpath = dir_path_of(self.snapshots@[i as int]);
                let m = d.files.len();
                let mut j: usize = 0;
                while j < m
                    invariant
                        j <= m,
                        i < self.snapshots@.len(),
                        self.wf(),
                        *d == self.snapshots@[i as int],
                        m == self.snapshots@[i as int].files@.len(),
                        dpath == dir_path_of(self.snapshots@[i as int]),
                        dir_visible(self.snapshots@[i as int]),
                        base == image_entries(self.snapshots@.take(i as int)),
                        marked.wf(),
                        marked.items().len() >= items0.len(),
                        items0 == old(marked).items(),
                        Some(marked.items()) == marking_items(
                            items0,
                            base + files_images(
                                dpath,
                                self.snapshots@[i as int].files@.take(j as int),
                            ),
                        ),
                        status.used_bytes == marking_bytes(
                            old(status).used_bytes,
                            base + files_images(
                                dpath,
                                self.snapshots@[i as int].files@.take(j as int),
                            ),
                        ),
                        status.used_chunks == crate::chunk_store::sat_add(
                            old(status).used_chunks,
                            marked.items().len() - items0.len(),
                        ),
                        status.disk_bytes == old(status).disk_bytes,
                        status.disk_chunks == old(status).disk_chunks,
                    decreases m - j,
                {
                    let ghost fs = self.snapshots@[i as int].files@;
                    let ghost prefix = base + files_images(dpath, fs.take(j as int));
                    proof {
                        assert(fs.take(j + 1int).drop_last() =~= fs.take(j as int));
                        assert(fs.take(j + 1int).last() == fs[j as int]);
                    }
                    let f = &d.files[j];
                    let is_f = name_is_fidx(f.name.as_str());
                    let is_d = name_is_didx(f.name.as_str());
                    let hidden = name_is_hidden(f.name.as_str());
                    if (is_f || is_d) && !hidden {
                        let ghost entry = (
                            dpath + seq!['/'] + fs[j as int].name@,
                            fs[j as int].name@,
                            fs[j as int].data@,
                        );
                        proof {
                            assert(files_images(dpath, fs.take(j + 1int)) =~= files_images(
                                dpath,
                                fs.take(j as int),
                            ).push(entry));
                            assert(base + files_images(dpath, fs.take(j + 1int))
                                =~= prefix.push(entry));
                            assert(prefix.push(entry).drop_last() =~= prefix);
                        }
                        let ghost pre_items = marked.items();
                        let ghost pre_bytes = status.used_bytes;
                        let ghost pre_chunks = status.used_chunks;
                        if is_f {
                            match FixedIndexReader::open(f.data.as_slice()) {
                                Ok(reader) => {
                                    reader.mark_used_chunks(marked, status);
                                    proof {
                                        crate::fixed_index::lemma_fixed_used_bytes_total(
                                            pre_bytes,
                                            reader,
                                        );
                                        crate::digest::lemma_marked_after_len(
                                            pre_items,
                                            reader.view_of().slots,
                                        );
                                    }
                                },
                                Err(_) => {
                                    proof {
                                        lemma_mark_failure(
                                            items0,
                                            self.snapshots@,
                                            i as int,
                                            j as int,
                                            base,
                                            dpath,
                                            prefix,
                                            entry,
                                        );
                                    }
                                    return Err(StoreError::Format);
                                },
                            }
                        } else {
                            match DynamicIndexReader::open(f.data.as_slice()) {
                                Ok(reader) => {
                                    reader.mark_used_chunks(marked, status);
                                    proof {
                                        crate::dynamic_index::lemma_dyn_used_bytes_total(
                                            pre_bytes,
                                            reader,
                                        );
                                        crate::digest::lemma_marked_after_len(
                                            pre_items,
                                            reader.digests(),
                                        );
                                        assert(reader.digests() =~= dyn_digest_views(
                                            reader.view_of().entries,
                                        ));
                                    }
                                },
                                Err(_) => {
                                    proof {
                                        lemma_mark_failure(
                                            items0,
                                            self.snapshots@,
                                            i as int,
                                            j as int,
                                            base,
                                            dpath,
                                            prefix,
                                            entry,
                                        );
                                    }
                                    return Err(StoreError::Format);
                                },
                            }
                        }
                    } else {
                        proof {
                            assert(files_images(dpath, fs.take(j + 1int)) =~= files_images(
                                dpath,
                                fs.take(j as int),
                            ));
                        }
                    }
                    j = j + 1;
                }
                proof {
                    assert(self.snapshots@[i as int].files@.take(m as int)
                        =~= self.snapshots@[i as int].files@);
                    assert(image_entries(self.snapshots@.take(i + 1int)) =~= base + files_images(
                        dpath,
                        self.snapshots@[i as int].files@,
                    ));
                }
            } else {
                proof {
                    assert(image_entries(self.snapshots@.take(i + 1int)) =~= base);
                }
            }
            i = i + 1;
        }
        proof {
            assert(self.snapshots@.take(n as int) =~= self.snapshots@);
        }
        Ok(())
    }

    /// Run a full garbage collection with an explicit clock reading:
    /// take the exclusive lock without blocking, mark every chunk the
    /// retained snapshots reference, sweep the rest, and release the
    /// lock. A second collection while one is in flight fails at once
    /// with a contention error and deletes nothing.
    pub fn garbage_collection_at(&mut self, now: u64) -> (r: Result<
        GarbageCollectionStatus,
        StoreError,
    >)
        requires
            old(self).wf(),
        ensures
            final(self).wf(),
            final(self).snapshots@ == old(self).snapshots@,
            final(self).name@ == old(self).name@,
            final(self).gc_grace_seconds == old(self).gc_grace_seconds,
            final(self).chunk_store.name() == old(self).chunk_store.name(),
            final(self).chunk_store.base() == old(self).chunk_store.base(),
            final(self).chunk_store.shared_locks() == old(self).chunk_store.shared_locks(),
            final(self).chunk_store.exclusive_locked() == old(
                self,
            ).chunk_store.exclusive_locked(),
            (old(self).chunk_store.shared_locks() > 0 || old(
                self,
            ).chunk_store.exclusive_locked()) ==> r == Result::<
                GarbageCollectionStatus,
                StoreError,
            >::Err(StoreError::LockContention) && final(self).chunk_store.entries() == old(
                self,
            ).chunk_store.entries(),
            (old(self).chunk_store.shared_locks() == 0 && !old(
                self,
            ).chunk_store.exclusive_locked()) ==> ({
                let files = image_entries(old(self).snapshots@);
                match marking_items(Seq::<Seq<u8>>::empty(), files) {
                    Option::None => r == Result::<GarbageCollectionStatus, StoreError>::Err(
                        StoreError::Format,
                    ) && final(self).chunk_store.entries() == old(self).chunk_store.entries(),
                    Option::Some(m) => {
                        let min = gc_min_mtime(now, old(self).gc_grace_seconds);
                        &&& r is Ok
                        &&& final(self).chunk_store.entries() == crate::chunk_store::swept(
                            old(self).chunk_store.entries(),
                            m,
                            min,
                        )
                        &&& r->Ok_0.used_chunks == crate::chunk_store::sat_add(0, m.len() as int)
                        &&& r->Ok_0.used_bytes == marking_bytes(0, files)
                        &&& r->Ok_0.disk_chunks == crate::chunk_store::sat_add(
                            0,
                            crate::chunk_store::swept(
                                old(self).chunk_store.entries(),
                                m,
                                min,
                            ).len() as int,
                        )
                        &&& r->Ok_0.disk_bytes == crate::chunk_store::swept_bytes(
                            0,
                            old(self).chunk_store.entries(),
                            m,
                            min,
                        )
                    },
                }
            }),
    {
        if !self.chunk_store.try_exclusive_lock() {
            return Err(StoreError::LockContention);
        }
        let mut status = GarbageCollectionStatus::default();
        let mut marked = DigestSet::new();
        let marking = self.mark_used_chunks(&mut marked, &mut status);
        match marking {
            Err(e) => {
                self.chunk_store.release_exclusive_lock();
                return Err(e);
            },
            Ok(()) => {},
        }
        let min_mtime = now.saturating_sub(self.gc_grace_seconds);
        self.chunk_store.sweep_unused_chunks(&marked, min_mtime, &mut status);
        self.chunk_store.release_exclusive_lock();
        Ok(status)
    }

    /// Run a full garbage collection against the current clock; the
    /// sweep threshold is then some reading of it.
    pub fn garbage_collection(&mut self) -> (r: Result<GarbageCollectionStatus, StoreError>)
        requires
            old(self).wf(),
        ensures
            final(self).wf(),
            final(self).snapshots@ == old(self).snapshots@,
            final(self).name@ == old(self).name@,
            final(self).gc_grace_seconds == old(self).gc_grace_seconds,
            final(self).chunk_store.name() == old(self).chunk_store.name(),
            final(self).chunk_store.base() == old(self).chunk_store.base(),
            final(self).chunk_store.shared_locks() == old(self).chunk_store.shared_locks(),
            final(self).chunk_store.exclusive_locked() == old(
                self,
            ).chunk_store.exclusive_locked(),
            (old(self).chunk_store.shared_locks() > 0 || old(
                self,
            ).chunk_store.exclusive_locked()) ==> r == Result::<
                GarbageCollectionStatus,
                StoreError,
            >::Err(StoreError::LockContention) && final(self).chunk_store.entries() == old(
                self,
            ).chunk_store.entries(),
            (old(self).chunk_store.shared_locks() == 0 && !old(
                self,
            ).chunk_store.exclusive_locked()) ==> ({
                let files = image_entries(old(self).snapshots@);
                match marking_items(Seq::<Seq<u8>>::empty(), files) {
                    Option::None => r == Result::<GarbageCollectionStatus, StoreError>::Err(
                        StoreError::Format,
                    ) && final(self).chunk_store.entries() == old(self).chunk_store.entries(),
                    Option::Some(m) => {
                        &&& r is Ok
                        &&& r->Ok_0.used_chunks == crate::chunk_store::sat_add(0, m.len() as int)
                        &&& r->Ok_0.used_bytes == marking_bytes(0, files)
                        &&& exists|now: u64|
                            {
                                let min = #[trigger] gc_min_mtime(now, old(self).gc_grace_seconds);
                                &&& final(self).chunk_store.entries()
                                    == crate::chunk_store::swept(
                                    old(self).chunk_store.entries(),
                                    m,
                                    min,
                                )
                                &&& r->Ok_0.disk_chunks == crate::chunk_store::sat_add(
                                    0,
                                    crate::chunk_store::swept(
                                        old(self).chunk_store.entries(),
                                        m,
                                        min,
                                    ).len() as int,
                                )
                                &&& r->Ok_0.disk_bytes == crate::chunk_store::swept_bytes(
                                    0,
                                    old(self).chunk_store.entries(),
                                    m,
                                    min,
                                )
                            }
                    },
                }
            }),
    {
        let now = crate::sys::epoch_now();
        self.garbage_collection_at(now)
    }
}

/// True when the directory's three components match the listing
/// grammar exactly: a backup type, a well-formed id, and a timestamp
/// shape.
pub open spec fn dir_listed(d: SnapshotDir) -> bool {
    &&& (d.backup_type@ == backup_type_host() || d.backup_type@ == backup_type_vm()
        || d.backup_type@ == backup_type_ct())
    &&& is_valid_id(d.backup_id@)
    &&& time_shape_ok(d.time_name@)
}

/// One listed snapshot, at the specification level.
pub ghost struct BackupEntry {
    pub backup_type: Seq<char>,
    pub backup_id: Seq<char>,
    pub time: BackupTime,
    pub files: Seq<Seq<char>>,
}

/// The names of a directory's index files, in file order.
pub open spec fn index_file_names(files: Seq<SnapshotFile>) -> Seq<Seq<char>>
    decreases files.len(),
{
    if files.len() == 0 {
        Seq::empty()
    } else {
        let rest = index_file_names(files.drop_last());
        if is_index_file_name(files.last().name@) {
            rest.push(files.last().name@)
        } else {
            rest
        }
    }
}

/// What listing the backups yields: every directory matching the
/// grammar, with its parsed timestamp and its index file names; or
/// nothing, when a matching directory's timestamp names no real
/// calendar second.
pub open spec fn backups_model(dirs: Seq<SnapshotDir>) -> Option<Seq<BackupEntry>>
    decreases dirs.len(),
{
    if dirs.len() == 0 {
        Some(Seq::empty())
    } else {
        match backups_model(dirs.drop_last()) {
            None => None,
            Some(prev) => {
                let d = dirs.last();
                if !dir_listed(d) {
                    Some(prev)
                } else {
                    match time_parse(d.time_name@) {
                        None => None,
                        Some(t) => Some(
                            prev.push(
                                BackupEntry {
                                    backup_type: d.backup_type@,
                                    backup_id: d.backup_id@,
                                    time: t,
                                    files: index_file_names(d.files@),
                                },
                            ),
                        ),
                    }
                }
            },
        }
    }
}

/// A bad timestamp among the directories seen so far fails the whole
/// listing.
pub proof fn lemma_backups_none_extends(dirs: Seq<SnapshotDir>, k: int)
    requires
        0 <= k <= dirs.len(),
        backups_model(dirs.take(k)) is None,
    ensures
        backups_model(dirs) is None,
    decreases dirs.len() - k,
{
    if k == dirs.len() {
        assert(dirs.take(k) =~= dirs);
    } else {
        assert(dirs.take(k + 1).drop_last() =~= dirs.take(k));
        lemma_backups_none_extends(dirs, k + 1);
    }
}

impl DataStore {
    /// List every snapshot matching the `type/id/<timestamp>` grammar,
    /// with the index files found inside it. Fails with a format error
    /// exactly when a matching directory's timestamp names no real
    /// calendar second.
    pub fn list_backups(&self) -> (r: Result<Vec<BackupInfo>, StoreError>)
        requires
            self.wf(),
        ensures
            r is Ok <==> backups_model(self.snapshots@) is Some,
            r is Err ==> r == Result::<Vec<BackupInfo>, StoreError>::Err(StoreError::Format),
            r is Ok ==> {
                let model = backups_model(self.snapshots@)->Some_0;
                &&& r->Ok_0@.len() == model.len()
                &&& forall|k: int|
                    0 <= k < model.len() ==> {
                        let b = #[trigger] r->Ok_0@[k];
                        &&& b.backup_dir.group.backup_type@ == model[k].backup_type
                        &&& b.backup_dir.group.backup_id@ == model[k].backup_id
                        &&& b.backup_dir.backup_time == model[k].time
                        &&& b.files@.len() == model[k].files.len()
                        &&& forall|q: int|
                            0 <= q < b.files@.len() ==> (#[trigger] b.files@[q])@
                                == model[k].files[q]
                    }
            },
    {
        let mut out: Vec<BackupInfo> = Vec::new();
        let n = self.snapshots.len();
        let mut i: usize = 0;
        while i < n
            invariant
                i <= n == self.snapshots@.len(),
                self.wf(),
                backups_model(self.snapshots@.take(i as int)) is Some,
                out@.len() == backups_model(self.snapshots@.take(i as int))->Some_0.len(),
                forall|k: int|
                    0 <= k < out@.len() ==> {
                        let model = backups_model(self.snapshots@.take(i as int))->Some_0;
                        let b = #[trigger] out@[k];
                        &&& b.backup_dir.group.backup_type@ == model[k].backup_type
                        &&& b.backup_dir.group.backup_id@ == model[k].backup_id
                        &&& b.backup_dir.backup_time == model[k].time
                        &&& b.files@.len() == model[k].files.len()
                        &&& forall|q: int|
                            0 <= q < b.files@.len() ==> (#[trigger] b.files@[q])@
                                == model[k].files[q]
                    },
            decreases n - i,
        {
            proof {
                assert(self.snapshots@.take(i + 1int).drop_last() =~= self.snapshots@.take(
                    i as int,
                ));
                assert(self.snapshots@.take(i + 1int).last() == self.snapshots@[i as int]);
            }
            let d = &self.snapshots[i];
            let type_ok = str_eq(d.backup_type.as_str(), "host") || str_eq(
                d.backup_type.as_str(),
                "vm",
            ) || str_eq(d.backup_type.as_str(), "ct");
            proof {
                reveal_strlit("host");
                reveal_strlit("vm");
                reveal_strlit("ct");
                assert("host"@ =~= backup_type_host());
                assert("vm"@ =~= backup_type_vm());
                assert("ct"@ =~= backup_type_ct());
            }
            let id_ok = crate::backup_path::str_is_valid_id(d.backup_id.as_str());
            if type_ok && id_ok {
                match BackupTime::parse_rfc3339_fields(d.time_name.as_str()) {
                    Err(_) => {
                        // The timestamp shape does not match: the
                        // directory is not listed.
                    },
                    Ok(t) => {
                        if !t.is_valid_time() {
                            proof {
                                lemma_backups_none_extends(self.snapshots@, i + 1);
                            }
                            return Err(StoreError::Format);
                        }
                        let group = BackupGroup {
                            backup_type: d.backup_type.clone(),
                            backup_id: d.backup_id.clone(),
                        };
                        let backup_dir = BackupDir { group, backup_time: t };
                        let mut files: Vec<String> = Vec::new();
                        let m = d.files.len();
                        let mut j: usize = 0;
                        while j < m
                            invariant
                                j <= m,
                                i < self.snapshots@.len(),
                                *d == self.snapshots@[i as int],
                                m == self.snapshots@[i as int].files@.len(),
                                files@.len() == index_file_names(
                                    self.snapshots@[i as int].files@.take(j as int),
                                ).len(),
                                forall|q: int|
                                    0 <= q < files@.len() ==> (#[trigger] files@[q])@
                                        == index_file_names(
                                        self.snapshots@[i as int].files@.take(j as int),
                                    )[q],
                            decreases m - j,
                        {
                            let ghost fs = self.snapshots@[i as int].files@;
                            proof {
                                assert(fs.take(j + 1int).drop_last() =~= fs.take(j as int));
                                assert(fs.take(j + 1int).last() == fs[j as int]);
                            }
                            let f = &d.files[j];
                            if name_is_fidx(f.name.as_str()) || name_is_didx(f.name.as_str()) {
                                files.push(f.name.clone());
                            }
                            j = j + 1;
                        }
                        proof {
                            assert(self.snapshots@[i as int].files@.take(m as int)
                                =~= self.snapshots@[i as int].files@);
                        }
                        out.push(BackupInfo { backup_dir, files });
                    },
                }
            }
            i = i + 1;
        }
        proof {
            assert(self.snapshots@.take(n as int) =~= self.snapshots@);
        }
        Ok(out)
    }
}

/// The process-wide registry of opened datastores, keyed by name: a
/// lookup reuses a cached store, rebuilds it when its configured path
/// changed, and opens it when it is new.
pub struct DataStoreRegistry {
    /// The opened stores.
    pub stores: Vec<DataStore>,
}

impl DataStoreRegistry {
    /// Every store is well-formed and no name appears twice.
    pub open spec fn wf(&self) -> bool {
        &&& forall|i: int| 0 <= i < self.stores@.len() ==> (#[trigger] self.stores@[i]).wf()
        &&& forall|i: int, j: int|
            0 <= i < j < self.stores@.len() ==> self.stores@[i].name@ != self.stores@[j].name@
    }

    /// An empty registry.
    pub fn new() -> (r: DataStoreRegistry)
        ensures
            r.wf(),
            r.stores@.len() == 0,
    {
        DataStoreRegistry { stores: Vec::new() }
    }

    /// The store at a slot.
    pub fn store(&self, i: usize) -> (r: &DataStore)
        requires
            i < self.stores@.len(),
        ensures
            *r == self.stores@[i as int],
    {
        &self.stores[i]
    }

    /// Look up the datastore called `name`, configured at `path`: an
    /// open store with the same base path is reused; one whose
    /// configured path changed is reopened; an unknown name is opened
    /// and cached. Fails with a configuration error exactly when a
    /// store would have to be opened and the path is unusable.
    pub fn lookup_datastore(&mut self, name: &str, path: &str, gc_grace_seconds: u64) -> (r:
        Result<usize, StoreError>)
        requires
            old(self).wf(),
            name@.len() > 0,
        ensures
            final(self).wf(),
            r is Err ==> r == Result::<usize, StoreError>::Err(StoreError::Config)
                && !is_valid_base(path@) && final(self).stores@ == old(self).stores@,
            r is Ok ==> {
                let i = r->Ok_0 as int;
                &&& 0 <= i < final(self).stores@.len()
                &&& final(self).stores@[i].name@ == name@
                &&& final(self).stores@[i].chunk_store.base() == path@
                &&& (forall|p: int|
                    0 <= p < old(self).stores@.len() && p != i ==> final(self).stores@[p] == old(
                        self,
                    ).stores@[p])
                &&& (i < old(self).stores@.len() && old(self).stores@[i].chunk_store.base()
                    == path@ && old(self).stores@[i].name@ == name@ ==> final(self).stores@[i]
                    == old(self).stores@[i])
            },
    {
        let n = self.stores.len();
        let mut i: usize = 0;
        while i < n
            invariant
                i <= n == self.stores@.len(),
                *self == *old(self),
                old(self).wf(),
                name@.len() > 0,
                forall|j: int| 0 <= j < i ==> (#[trigger] self.stores@[j]).name@ != name@,
            decreases n - i,
        {
            if str_eq(self.stores[i].name.as_str(), name) {
                if str_eq(self.stores[i].chunk_store.base_path().as_str(), path) {
                    return Ok(i);
                }
                // The configured path changed: rebuild the store.
                let fresh = DataStore::open(name, path, gc_grace_seconds)?;
                self.stores[i] = fresh;
                return Ok(i);
            }
            i = i + 1;
        }
        let fresh = DataStore::open(name, path, gc_grace_seconds)?;
        self.stores.push(fresh);
        Ok(n)
    }
}

/// When an index file among those walked so far fails to parse, the
/// mark phase of the whole tree fails.
proof fn lemma_mark_failure(
    items0: Seq<Seq<u8>>,
    dirs: Seq<SnapshotDir>,
    i: int,
    j: int,
    base: Seq<(Seq<char>, Seq<char>, Seq<u8>)>,
    dpath: Seq<char>,
    prefix: Seq<(Seq<char>, Seq<char>, Seq<u8>)>,
    entry: (Seq<char>, Seq<char>, Seq<u8>),
)
    requires
        0 <= i < dirs.len(),
        0 <= j < dirs[i].files@.len(),
        dir_visible(dirs[i]),
        dpath == dir_path_of(dirs[i]),
        base == image_entries(dirs.take(i)),
        prefix == base + files_images(dpath, dirs[i].files@.take(j)),
        base + files_images(dpath, dirs[i].files@.take(j + 1)) == prefix.push(entry),
        marking_items(items0, prefix.push(entry)) is None,
    ensures
        marking_items(items0, image_entries(dirs)) is None,
{
    lemma_marking_items_append(items0, base, files_images(dpath, dirs[i].files@.take(j + 1)));
    lemma_marking_items_append(items0, base, files_images(dpath, dirs[i].files@));
    if marking_items(items0, base) is Some {
        let mb = marking_items(items0, base)->Some_0;
        lemma_marking_none_extends_files(mb, dpath, dirs[i].files@, j + 1);
    }
    assert(marking_items(items0, base + files_images(dpath, dirs[i].files@)) is None);
    assert(dirs.take(i + 1).drop_last() =~= dirs.take(i));
    assert(dirs.take(i + 1).last() == dirs[i]);
    assert(image_entries(dirs.take(i + 1)) == base + files_images(dpath, dirs[i].files@));
    lemma_marking_none_extends_dirs(items0, dirs, i + 1);
}

/// True when `after` is `before` with `(name, data)` placed in the
/// file's slot: a file of the same name is replaced, a new name is
/// appended.
pub open spec fn files_put(
    before: Seq<SnapshotFile>,
    after: Seq<SnapshotFile>,
    name: Seq<char>,
    data: Seq<u8>,
) -> bool {
    if exists|j: int| 0 <= j < before.len() && before[j].name@ == name {
        exists|j: int|
            0 <= j < before.len() && before[j].name@ == name && after.len() == before.len()
                && after[j].name@ == name && after[j].data@ == data && (forall|q: int|
                0 <= q < before.len() && q != j ==> after[q] == before[q])
    } else {
        after.len() == before.len() + 1 && after.last().name@ == name && after.last().data@
            == data && (forall|q: int| 0 <= q < before.len() ==> after[q] == before[q])
    }
}

/// True when publishing `data` under the relative path `filename` took
/// `before` to `after` with result `r`: the path must name a file
/// directly inside an existing snapshot directory; otherwise nothing
/// is published.
pub open spec fn published_at(
    before: Seq<SnapshotDir>,
    after: Seq<SnapshotDir>,
    filename: Seq<char>,
    data: Seq<u8>,
    r: Result<[u8; 32], StoreError>,
    csum: [u8; 32],
) -> bool {
    let k = crate::backup_path::last_slash_index(filename);
    if k < 0 || !(exists|i: int| 0 <= i < before.len() && dir_path_of(before[i]) == filename.take(k)) {
        r == Result::<[u8; 32], StoreError>::Err(StoreError::NotFound) && after == before
    } else {
        r == Result::<[u8; 32], StoreError>::Ok(csum) && exists|i: int|
            0 <= i < before.len() && dir_path_of(before[i]) == filename.take(k) && after.len()
                == before.len() && (forall|p: int|
                0 <= p < before.len() && p != i ==> after[p] == before[p]) && dir_matches(
                after[i],
                before[i].backup_type@,
                before[i].backup_id@,
                before[i].time_name@,
            ) && files_put(before[i].files@, after[i].files@, filename.skip(k + 1), data)
    }
}

} // verus!
