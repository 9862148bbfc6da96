use backup_store::backup_time::BackupTime;
use backup_store::chunk_store::ChunkStat;
use backup_store::datastore::DataStore;
use backup_store::dynamic_index::DynamicIndexReader;
use backup_store::error::StoreError;
use backup_store::fixed_index::{ChunkInfo, FixedIndexReader};
use backup_store::index::IndexReader;

fn test_time() -> BackupTime {
    BackupTime {
        year: 2021,
        month: 1,
        day: 1,
        hour: 0,
        minute: 0,
        second: 0,
        tz_hour: 0,
        tz_minute: 0,
    }
}

fn snapshot_path(file: &str) -> String {
    format!("vm/100/2021-01-01T00:00:00+00:00/{}", file)
}

fn store_with_snapshot() -> DataStore {
    let mut ds = DataStore::open("store1", "/tank/backups", 3600 * 24).unwrap();
    let (rel, created) = ds.create_backup_dir("vm", "100", &test_time());
    assert!(created);
    assert_eq!(rel, "vm/100/2021-01-01T00:00:00+00:00");
    ds
}

#[test]
fn fixed_index_three_slots_out_of_order() {
    // Chunk size 64 with logical size 130 gives three slots covering
    // 64, 64 and 2 bytes; chunks may arrive in any call order.
    let mut ds = store_with_snapshot();
    let path = snapshot_path("disk.fidx");
    let mut w = ds.create_fixed_writer(&path, 130, 64).unwrap();
    assert_eq!(w.index_length(), 3);

    let mut stat = ChunkStat::default();
    let c2 = ChunkInfo::new(&[2u8; 2], 130);
    let c0 = ChunkInfo::new(&[0u8; 64], 64);
    let c1 = ChunkInfo::new(&[1u8; 64], 128);
    ds.add_fixed_chunk(&mut w, &c2, &mut stat).unwrap();
    ds.add_fixed_chunk(&mut w, &c0, &mut stat).unwrap();
    ds.add_fixed_chunk(&mut w, &c1, &mut stat).unwrap();
    assert_eq!(stat.chunk_count, 3);
    assert_eq!(stat.duplicate_chunks, 0);

    let csum = ds.close_fixed_writer(&mut w).unwrap();

    let reader = ds.open_fixed_reader(&path).unwrap();
    assert_eq!(reader.chunk_size, 64);
    assert_eq!(reader.size, 130);
    assert_eq!(reader.index_count(), 3);
    assert_eq!(reader.index_digest(0), Some(&c0.digest));
    assert_eq!(reader.index_digest(1), Some(&c1.digest));
    assert_eq!(reader.index_digest(2), Some(&c2.digest));
    assert_eq!(reader.index_digest(3), None);
    assert_eq!(reader.index_csum, csum);
    // The stored checksum is the digest-of-digests over the slot array.
    assert_eq!(reader.compute_index_csum(), csum);
}

#[test]
fn fixed_index_rejects_bad_chunks() {
    let mut ds = store_with_snapshot();
    let path = snapshot_path("disk.fidx");
    let mut w = ds.create_fixed_writer(&path, 130, 64).unwrap();
    let mut stat = ChunkStat::default();

    // Offset not a multiple of the chunk size.
    let unaligned = ChunkInfo::new(&[7u8; 64], 100);
    assert!(matches!(
        ds.add_fixed_chunk(&mut w, &unaligned, &mut stat),
        Err(StoreError::Consistency)
    ));
    // Offset exceeding the declared size.
    let beyond = ChunkInfo::new(&[7u8; 64], 192);
    assert!(matches!(
        ds.add_fixed_chunk(&mut w, &beyond, &mut stat),
        Err(StoreError::Consistency)
    ));
    // Empty chunk.
    let empty = ChunkInfo::new(&[], 64);
    assert!(matches!(
        ds.add_fixed_chunk(&mut w, &empty, &mut stat),
        Err(StoreError::Consistency)
    ));
    // A short chunk anywhere but at the end.
    let short = ChunkInfo::new(&[7u8; 10], 74);
    assert!(matches!(
        ds.add_fixed_chunk(&mut w, &short, &mut stat),
        Err(StoreError::Consistency)
    ));
    assert_eq!(stat.chunk_count, 0);
}

#[test]
fn fixed_writer_double_close_is_error() {
    let mut ds = store_with_snapshot();
    let path = snapshot_path("disk.fidx");
    let mut w = ds.create_fixed_writer(&path, 64, 64).unwrap();
    let mut stat = ChunkStat::default();
    let c = ChunkInfo::new(&[9u8; 64], 64);
    ds.add_fixed_chunk(&mut w, &c, &mut stat).unwrap();
    assert!(ds.close_fixed_writer(&mut w).is_ok());
    assert!(matches!(ds.close_fixed_writer(&mut w), Err(StoreError::Closed)));
}

#[test]
fn fixed_writer_rejects_after_close() {
    let mut ds = store_with_snapshot();
    let path = snapshot_path("disk.fidx");
    let mut w = ds.create_fixed_writer(&path, 64, 64).unwrap();
    ds.close_fixed_writer(&mut w).unwrap();
    let mut stat = ChunkStat::default();
    let c = ChunkInfo::new(&[9u8; 64], 64);
    assert!(matches!(
        ds.add_fixed_chunk(&mut w, &c, &mut stat),
        Err(StoreError::Closed)
    ));
    assert!(matches!(w.add_digest(0, &c.digest), Err(StoreError::Closed)));
}

#[test]
fn fixed_writer_rejects_zero_chunk_size() {
    let mut ds = store_with_snapshot();
    let r = ds.create_fixed_writer(&snapshot_path("disk.fidx"), 130, 0);
    assert!(matches!(r, Err(StoreError::Consistency)));
}

#[test]
fn fixed_empty_index_round_trip() {
    let mut ds = store_with_snapshot();
    let path = snapshot_path("empty.fidx");
    let mut w = ds.create_fixed_writer(&path, 0, 64).unwrap();
    assert_eq!(w.index_length(), 0);
    ds.close_fixed_writer(&mut w).unwrap();
    let reader = ds.open_fixed_reader(&path).unwrap();
    assert_eq!(reader.index_count(), 0);
    assert_eq!(reader.size, 0);
    assert_eq!(reader.index_bytes(), 0);
}

#[test]
fn fixed_reader_rejects_corrupt_files() {
    let mut ds = store_with_snapshot();
    let path = snapshot_path("disk.fidx");
    let mut w = ds.create_fixed_writer(&path, 130, 64).unwrap();
    let mut stat = ChunkStat::default();
    let c = ChunkInfo::new(&[1u8; 64], 64);
    ds.add_fixed_chunk(&mut w, &c, &mut stat).unwrap();
    ds.close_fixed_writer(&mut w).unwrap();
    let good = w.index_file_bytes();

    assert!(FixedIndexReader::open(&good).is_ok());

    // Too short to hold a header.
    assert!(matches!(
        FixedIndexReader::open(&good[..100]),
        Err(StoreError::Format)
    ));
    // Wrong magic.
    let mut bad_magic = good.clone();
    bad_magic[0] ^= 0xff;
    assert!(matches!(
        FixedIndexReader::open(&bad_magic),
        Err(StoreError::Format)
    ));
    // Truncated slot area.
    let truncated = &good[..good.len() - 1];
    assert!(matches!(
        FixedIndexReader::open(truncated),
        Err(StoreError::Format)
    ));
    // Oversized file.
    let mut oversized = good.clone();
    oversized.push(0);
    assert!(matches!(
        FixedIndexReader::open(&oversized),
        Err(StoreError::Format)
    ));
}

#[test]
fn dynamic_index_round_trip() {
    let mut ds = store_with_snapshot();
    let path = snapshot_path("catalog.didx");
    let mut w = ds.create_dynamic_writer(&path, 4096).unwrap();
    let mut stat = ChunkStat::default();
    let c0 = ChunkInfo::new(&[1u8; 100], 100);
    let c1 = ChunkInfo::new(&[2u8; 150], 250);
    ds.add_dynamic_chunk(&mut w, &c0, &mut stat).unwrap();
    ds.add_dynamic_chunk(&mut w, &c1, &mut stat).unwrap();
    let csum = ds.close_dynamic_writer(&mut w).unwrap();

    let reader = ds.open_dynamic_reader(&path).unwrap();
    assert_eq!(reader.index_count(), 2);
    assert_eq!(reader.index_bytes(), 250);
    assert_eq!(reader.index_digest(0), Some(&c0.digest));
    assert_eq!(reader.index_digest(1), Some(&c1.digest));
    assert_eq!(reader.index_csum, csum);
    assert_eq!(reader.compute_index_csum(), csum);
}

#[test]
fn dynamic_index_rejects_non_monotonic_offsets() {
    let mut ds = store_with_snapshot();
    let path = snapshot_path("catalog.didx");
    let mut w = ds.create_dynamic_writer(&path, 4096).unwrap();
    let mut stat = ChunkStat::default();
    let c0 = ChunkInfo::new(&[1u8; 100], 100);
    ds.add_dynamic_chunk(&mut w, &c0, &mut stat).unwrap();

    // Going backwards, standing still, and a length that does not
    // continue the stream are all rejected.
    let backwards = ChunkInfo::new(&[2u8; 10], 50);
    assert!(matches!(
        ds.add_dynamic_chunk(&mut w, &backwards, &mut stat),
        Err(StoreError::Consistency)
    ));
    let empty = ChunkInfo::new(&[], 100);
    assert!(matches!(
        ds.add_dynamic_chunk(&mut w, &empty, &mut stat),
        Err(StoreError::Consistency)
    ));
    let gap = ChunkInfo::new(&[2u8; 10], 250);
    assert!(matches!(
        ds.add_dynamic_chunk(&mut w, &gap, &mut stat),
        Err(StoreError::Consistency)
    ));
}

#[test]
fn dynamic_reader_rejects_ragged_record_area() {
    let mut ds = store_with_snapshot();
    let path = snapshot_path("catalog.didx");
    let mut w = ds.create_dynamic_writer(&path, 4096).unwrap();
    let mut stat = ChunkStat::default();
    let c0 = ChunkInfo::new(&[1u8; 100], 100);
    ds.add_dynamic_chunk(&mut w, &c0, &mut stat).unwrap();
    ds.close_dynamic_writer(&mut w).unwrap();
    let good = w.index_file_bytes();
    assert!(DynamicIndexReader::open(&good).is_ok());
    assert!(matches!(
        DynamicIndexReader::open(&good[..good.len() - 3]),
        Err(StoreError::Format)
    ));
}

#[test]
fn open_index_dispatches_on_extension() {
    let mut ds = store_with_snapshot();
    let fpath = snapshot_path("disk.fidx");
    let dpath = snapshot_path("catalog.didx");
    let mut stat = ChunkStat::default();

    let mut fw = ds.create_fixed_writer(&fpath, 64, 64).unwrap();
    let c = ChunkInfo::new(&[1u8; 64], 64);
    ds.add_fixed_chunk(&mut fw, &c, &mut stat).unwrap();
    ds.close_fixed_writer(&mut fw).unwrap();

    let mut dw = ds.create_dynamic_writer(&dpath, 4096).unwrap();
    let c2 = ChunkInfo::new(&[2u8; 10], 10);
    ds.add_dynamic_chunk(&mut dw, &c2, &mut stat).unwrap();
    ds.close_dynamic_writer(&mut dw).unwrap();

    let fixed = ds.open_index(&fpath).unwrap();
    assert!(matches!(fixed, IndexReader::Fixed(_)));
    assert_eq!(fixed.index_count(), 1);

    let dynamic = ds.open_index(&dpath).unwrap();
    assert!(matches!(dynamic, IndexReader::Dynamic(_)));
    assert_eq!(dynamic.index_count(), 1);

    assert!(matches!(
        ds.open_index(&snapshot_path("notes.txt")),
        Err(StoreError::Format)
    ));
    assert!(matches!(
        ds.open_index(&snapshot_path("missing.fidx")),
        Err(StoreError::NotFound)
    ));
}

#[test]
fn writer_stages_under_tmp_name() {
    let mut ds = store_with_snapshot();
    let w = ds.create_fixed_writer(&snapshot_path("disk.fidx"), 64, 64).unwrap();
    assert_eq!(w.tmp_filename, snapshot_path("disk.tmp_fidx"));
    let dw = ds.create_dynamic_writer(&snapshot_path("catalog.didx"), 4096).unwrap();
    assert_eq!(dw.tmp_filename, snapshot_path("catalog.tmp_didx"));
}

#[test]
fn duplicate_chunks_are_accounted() {
    let mut ds = store_with_snapshot();
    let path = snapshot_path("disk.fidx");
    let mut w = ds.create_fixed_writer(&path, 128, 64).unwrap();
    let mut stat = ChunkStat::default();
    // Identical content at two offsets: the second insert is a
    // duplicate and adds nothing to the disk.
    let c0 = ChunkInfo::new(&[5u8; 64], 64);
    let c1 = ChunkInfo::new(&[5u8; 64], 128);
    ds.add_fixed_chunk(&mut w, &c0, &mut stat).unwrap();
    let disk_before = ds.get_chunk_iterator().len();
    ds.add_fixed_chunk(&mut w, &c1, &mut stat).unwrap();
    let disk_after = ds.get_chunk_iterator().len();
    assert_eq!(stat.chunk_count, 2);
    assert_eq!(stat.duplicate_chunks, 1);
    assert_eq!(stat.compressed_size, 128);
    assert_eq!(stat.disk_size, 64);
    assert_eq!(disk_before, 1);
    assert_eq!(disk_after, 1);
}
