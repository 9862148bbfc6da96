use backup_store::backup_path::BackupDir;
use backup_store::chunk_store::GarbageCollectionStatus;
use backup_store::datastore::SnapshotFile;
use backup_store::digest::DigestSet;
use backup_store::backup_time::BackupTime;
use backup_store::chunk_store::{ChunkStat, ChunkStore};
use backup_store::datastore::{DataStore, DataStoreRegistry, SnapshotDir};
use backup_store::error::StoreError;
use backup_store::fixed_index::ChunkInfo;

// A sweep threshold far past any wall-clock timestamp the inserts can
// have carried, so nothing is within the grace window.
const FAR_FUTURE: u64 = 4_000_000_000;

fn test_time() -> BackupTime {
    BackupTime {
        year: 2021,
        month: 1,
        day: 1,
        hour: 0,
        minute: 0,
        second: 0,
        tz_hour: 0,
        tz_minute: 0,
    }
}

#[test]
fn chunk_store_rejects_bad_configuration() {
    assert!(matches!(ChunkStore::open("", "/tank"), Err(StoreError::Config)));
    assert!(matches!(ChunkStore::open("s", "relative/path"), Err(StoreError::Config)));
    assert!(matches!(ChunkStore::open("s", ""), Err(StoreError::Config)));
    assert!(ChunkStore::open("s", "/tank").is_ok());
}

#[test]
fn chunk_store_insert_is_idempotent() {
    let mut store = ChunkStore::open("s", "/tank").unwrap();
    let info = ChunkInfo::new(b"some chunk payload", 18);
    let (dup1, _) = store.insert_chunk_at(&info.digest, info.chunk_len, 1000);
    let (dup2, _) = store.insert_chunk_at(&info.digest, info.chunk_len, 2000);
    assert!(!dup1);
    assert!(dup2);
    assert_eq!(store.get_chunk_iterator().len(), 1);
}

#[test]
fn chunk_store_locks_exclude_each_other() {
    let mut store = ChunkStore::open("s", "/tank").unwrap();
    assert!(store.try_shared_lock());
    assert!(store.try_shared_lock());
    // Writers hold the store: garbage collection must not start.
    assert!(!store.try_exclusive_lock());
    store.release_shared_lock();
    store.release_shared_lock();
    assert!(store.try_exclusive_lock());
    // And while it runs, writers and a second collection must wait.
    assert!(!store.try_shared_lock());
    assert!(!store.try_exclusive_lock());
    store.release_exclusive_lock();
    assert!(store.try_shared_lock());
}

#[test]
fn sweep_respects_marks_and_grace_window() {
    let mut store = ChunkStore::open("s", "/tank").unwrap();
    let old_marked = ChunkInfo::new(b"kept by mark", 1);
    let old_unmarked = ChunkInfo::new(b"swept away", 1);
    let young_unmarked = ChunkInfo::new(b"still in flight", 1);
    store.insert_chunk_at(&old_marked.digest, 10, 1000);
    store.insert_chunk_at(&old_unmarked.digest, 20, 1000);
    store.insert_chunk_at(&young_unmarked.digest, 30, 9000);

    let mut marked = DigestSet::new();
    assert!(marked.insert(&old_marked.digest));
    assert!(!marked.insert(&old_marked.digest));

    let mut status = GarbageCollectionStatus::default();
    store.sweep_unused_chunks(&marked, 5000, &mut status);

    assert!(store.has_chunk(&old_marked.digest));
    assert!(!store.has_chunk(&old_unmarked.digest));
    assert!(store.has_chunk(&young_unmarked.digest));
    assert_eq!(status.disk_chunks, 2);
    assert_eq!(status.disk_bytes, 40);
}

#[test]
fn create_backup_dir_is_idempotent() {
    let mut ds = DataStore::open("store1", "/tank/backups", 0).unwrap();
    let (path1, created1) = ds.create_backup_dir("vm", "100", &test_time());
    let (path2, created2) = ds.create_backup_dir("vm", "100", &test_time());
    assert!(created1);
    assert!(!created2);
    assert_eq!(path1, path2);
    assert_eq!(path1, "vm/100/2021-01-01T00:00:00+00:00");
}

#[test]
fn remove_backup_dir_removes_or_reports() {
    let mut ds = DataStore::open("store1", "/tank/backups", 0).unwrap();
    ds.create_backup_dir("vm", "100", &test_time());
    let dir = BackupDir::parse("vm/100/2021-01-01T00:00:00+00:00").unwrap();
    assert!(ds.remove_backup_dir(&dir).is_ok());
    assert!(matches!(ds.remove_backup_dir(&dir), Err(StoreError::NotFound)));
}

#[test]
fn list_backups_filters_by_grammar() {
    let mut ds = DataStore::open("store1", "/tank/backups", 0).unwrap();
    ds.create_backup_dir("vm", "100", &test_time());
    ds.create_backup_dir("foo", "100", &test_time());
    ds.create_backup_dir("vm", "x", &test_time());

    let path = "vm/100/2021-01-01T00:00:00+00:00/disk.fidx";
    let mut w = ds.create_fixed_writer(path, 64, 64).unwrap();
    let mut stat = ChunkStat::default();
    let c = ChunkInfo::new(&[1u8; 64], 64);
    ds.add_fixed_chunk(&mut w, &c, &mut stat).unwrap();
    ds.close_fixed_writer(&mut w).unwrap();

    let list = ds.list_backups().unwrap();
    assert_eq!(list.len(), 1);
    assert_eq!(list[0].backup_dir.group.backup_type, "vm");
    assert_eq!(list[0].backup_dir.group.backup_id, "100");
    assert_eq!(list[0].backup_dir.backup_time, test_time());
    assert_eq!(list[0].files.len(), 1);
    assert_eq!(list[0].files[0], "disk.fidx");
}

#[test]
fn list_backups_fails_on_impossible_date() {
    let mut ds = DataStore::open("store1", "/tank/backups", 0).unwrap();
    // A directory whose name matches the shape but names no real date,
    // as a damaged tree could hold it.
    ds.snapshots.push(SnapshotDir {
        backup_type: String::from("vm"),
        backup_id: String::from("100"),
        time_name: String::from("2021-02-30T00:00:00+00:00"),
        files: Vec::new(),
    });
    assert!(matches!(ds.list_backups(), Err(StoreError::Format)));
}

#[test]
fn list_images_walks_visible_snapshots() {
    let mut ds = DataStore::open("store1", "/tank/backups", 0).unwrap();
    ds.create_backup_dir("vm", "100", &test_time());
    let mut stat = ChunkStat::default();

    let fidx = "vm/100/2021-01-01T00:00:00+00:00/disk.fidx";
    let mut w = ds.create_fixed_writer(fidx, 64, 64).unwrap();
    let c = ChunkInfo::new(&[1u8; 64], 64);
    ds.add_fixed_chunk(&mut w, &c, &mut stat).unwrap();
    ds.close_fixed_writer(&mut w).unwrap();

    let didx = "vm/100/2021-01-01T00:00:00+00:00/catalog.didx";
    let mut dw = ds.create_dynamic_writer(didx, 4096).unwrap();
    let c2 = ChunkInfo::new(&[2u8; 10], 10);
    ds.add_dynamic_chunk(&mut dw, &c2, &mut stat).unwrap();
    ds.close_dynamic_writer(&mut dw).unwrap();

    let images = ds.list_images();
    assert_eq!(images.len(), 2);
    assert!(images.contains(&String::from(fidx)));
    assert!(images.contains(&String::from(didx)));
}

#[test]
fn garbage_collection_keeps_referenced_chunks() {
    let mut ds = DataStore::open("store1", "/tank/backups", 0).unwrap();
    ds.create_backup_dir("vm", "100", &test_time());
    let mut stat = ChunkStat::default();

    // Two chunks referenced by a published fixed index, one by a
    // published dynamic index, and one orphan.
    let path = "vm/100/2021-01-01T00:00:00+00:00/disk.fidx";
    let mut w = ds.create_fixed_writer(path, 128, 64).unwrap();
    let a = ChunkInfo::new(&[1u8; 64], 64);
    let b = ChunkInfo::new(&[2u8; 64], 128);
    ds.add_fixed_chunk(&mut w, &a, &mut stat).unwrap();
    ds.add_fixed_chunk(&mut w, &b, &mut stat).unwrap();
    ds.close_fixed_writer(&mut w).unwrap();

    let dpath = "vm/100/2021-01-01T00:00:00+00:00/catalog.didx";
    let mut dw = ds.create_dynamic_writer(dpath, 4096).unwrap();
    // The same content as `a`, plus one more: a digest referenced by
    // two indexes must count once.
    let a_again = ChunkInfo::new(&[1u8; 64], 64);
    let c = ChunkInfo::new(&[3u8; 36], 100);
    ds.add_dynamic_chunk(&mut dw, &a_again, &mut stat).unwrap();
    ds.add_dynamic_chunk(&mut dw, &c, &mut stat).unwrap();
    ds.close_dynamic_writer(&mut dw).unwrap();

    let orphan = ChunkInfo::new(b"orphaned payload", 16);
    ds.chunk_store.insert_chunk_at(&orphan.digest, 16, 1000);

    // Collect far enough in the future that nothing is within the
    // grace window.
    let status = ds.garbage_collection_at(FAR_FUTURE).unwrap();

    assert_eq!(status.used_chunks, 3);
    assert_eq!(status.used_bytes, 128 + 100);
    // Exactly the distinct referenced digests remain on disk.
    assert_eq!(status.disk_chunks, 3);
    assert!(ds.chunk_store.has_chunk(&a.digest));
    assert!(ds.chunk_store.has_chunk(&b.digest));
    assert!(ds.chunk_store.has_chunk(&c.digest));
    assert!(!ds.chunk_store.has_chunk(&orphan.digest));
    assert_eq!(ds.get_chunk_iterator().len(), 3);
}

#[test]
fn concurrent_garbage_collection_fails_fast() {
    let mut ds = DataStore::open("store1", "/tank/backups", 0).unwrap();
    ds.create_backup_dir("vm", "100", &test_time());
    let orphan = ChunkInfo::new(b"would be swept", 14);
    ds.chunk_store.insert_chunk_at(&orphan.digest, 14, 1000);

    // Simulate a collection already in flight by holding the
    // exclusive lock, as the running pass does.
    assert!(ds.chunk_store.try_exclusive_lock());
    let r = ds.garbage_collection_at(FAR_FUTURE);
    assert!(matches!(r, Err(StoreError::LockContention)));
    // Nothing was deleted.
    assert!(ds.chunk_store.has_chunk(&orphan.digest));
    assert_eq!(ds.get_chunk_iterator().len(), 1);

    // Once the running pass is done, collection proceeds.
    ds.chunk_store.release_exclusive_lock();
    let status = ds.garbage_collection_at(FAR_FUTURE).unwrap();
    assert_eq!(status.disk_chunks, 0);
    assert!(!ds.chunk_store.has_chunk(&orphan.digest));
}

#[test]
fn garbage_collection_waits_for_writers() {
    let mut ds = DataStore::open("store1", "/tank/backups", 0).unwrap();
    ds.create_backup_dir("vm", "100", &test_time());
    // An open writer holds the shared lock until it is closed.
    let mut w = ds
        .create_fixed_writer("vm/100/2021-01-01T00:00:00+00:00/disk.fidx", 64, 64)
        .unwrap();
    let r = ds.garbage_collection_at(FAR_FUTURE);
    assert!(matches!(r, Err(StoreError::LockContention)));
    let mut stat = ChunkStat::default();
    let c = ChunkInfo::new(&[1u8; 64], 64);
    ds.add_fixed_chunk(&mut w, &c, &mut stat).unwrap();
    ds.close_fixed_writer(&mut w).unwrap();
    assert!(ds.garbage_collection_at(FAR_FUTURE).is_ok());
}

#[test]
fn garbage_collection_fails_on_corrupt_index() {
    let mut ds = DataStore::open("store1", "/tank/backups", 0).unwrap();
    ds.create_backup_dir("vm", "100", &test_time());
    let keeper = ChunkInfo::new(b"stays whatever happens", 22);
    ds.chunk_store.insert_chunk_at(&keeper.digest, 22, 1000);
    // A published file with an index extension but garbage content.
    ds.snapshots[0].files.push(SnapshotFile {
        name: String::from("broken.fidx"),
        data: vec![0u8; 16],
    });
    let r = ds.garbage_collection_at(FAR_FUTURE);
    assert!(matches!(r, Err(StoreError::Format)));
    // A failed mark phase deletes nothing.
    assert!(ds.chunk_store.has_chunk(&keeper.digest));
}

#[test]
fn registry_caches_by_name_and_path() {
    let mut registry = DataStoreRegistry::new();
    let i = registry.lookup_datastore("alpha", "/tank/a", 0).unwrap();
    let j = registry.lookup_datastore("beta", "/tank/b", 0).unwrap();
    assert_ne!(i, j);

    // Same name and path: the cached store is reused.
    let again = registry.lookup_datastore("alpha", "/tank/a", 0).unwrap();
    assert_eq!(again, i);

    // Same name, new path: the store is rebuilt in place.
    let moved = registry.lookup_datastore("alpha", "/tank/elsewhere", 0).unwrap();
    assert_eq!(moved, i);
    assert_eq!(registry.store(moved).base_path(), "/tank/elsewhere");

    // An unusable path is a configuration error.
    assert!(matches!(
        registry.lookup_datastore("gamma", "nowhere", 0),
        Err(StoreError::Config)
    ));
}
