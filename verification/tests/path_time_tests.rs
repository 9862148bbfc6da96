use backup_store::backup_path::{with_extension, BackupDir, BackupGroup};
use backup_store::backup_time::BackupTime;
use backup_store::digest::digest_to_hex;
use backup_store::error::StoreError;
use backup_store::fixed_index::ChunkInfo;

fn time(
    year: u16,
    month: u8,
    day: u8,
    hour: u8,
    minute: u8,
    second: u8,
) -> BackupTime {
    BackupTime { year, month, day, hour, minute, second, tz_hour: 0, tz_minute: 0 }
}

#[test]
fn parse_snapshot_path() {
    let dir = BackupDir::parse("vm/100/2021-01-01T00:00:00+00:00").unwrap();
    assert_eq!(dir.group.backup_type, "vm");
    assert_eq!(dir.group.backup_id, "100");
    assert_eq!(dir.backup_time, time(2021, 1, 1, 0, 0, 0));
}

#[test]
fn parse_snapshot_path_bad_type() {
    let r = BackupDir::parse("foo/100/2021-01-01T00:00:00+00:00");
    assert!(matches!(r, Err(StoreError::Format)));
}

#[test]
fn parse_group_path() {
    let g = BackupGroup::parse("host/backup-1").unwrap();
    assert_eq!(g.backup_type, "host");
    assert_eq!(g.backup_id, "backup-1");
    assert_eq!(g.group_path(), "host/backup-1");
}

#[test]
fn parse_group_matches_suffix() {
    // The grammar matches a suffix of the path, so a longer path with a
    // valid tail still parses.
    let g = BackupGroup::parse("/store/vm/100").unwrap();
    assert_eq!(g.backup_type, "vm");
    assert_eq!(g.backup_id, "100");
}

#[test]
fn parse_group_rejects() {
    assert!(BackupGroup::parse("foo/100").is_err());
    assert!(BackupGroup::parse("vm").is_err());
    assert!(BackupGroup::parse("vm/x").is_err());
    assert!(BackupGroup::parse("vm/1#2").is_err());
}

#[test]
fn snapshot_relative_path_round_trip() {
    let dir = BackupDir::parse("ct/700/2020-02-29T23:59:59+01:30").unwrap();
    let rel = dir.relative_path();
    assert_eq!(rel, "ct/700/2020-02-29T23:59:59+01:30");
    let again = BackupDir::parse(&rel).unwrap();
    assert_eq!(again.group.backup_type, "ct");
    assert_eq!(again.group.backup_id, "700");
    assert_eq!(again.backup_time, dir.backup_time);
}

#[test]
fn time_render_parse_round_trip() {
    let t = time(2021, 12, 31, 23, 59, 59);
    let s = t.to_rfc3339();
    assert_eq!(s, "2021-12-31T23:59:59+00:00");
    let back = BackupTime::parse_rfc3339(&s).unwrap();
    assert_eq!(back, t);
}

#[test]
fn time_rejects_invalid_calendar_dates() {
    assert!(BackupTime::parse_rfc3339("2021-02-30T00:00:00+00:00").is_err());
    assert!(BackupTime::parse_rfc3339("2021-13-01T00:00:00+00:00").is_err());
    assert!(BackupTime::parse_rfc3339("2021-00-01T00:00:00+00:00").is_err());
    assert!(BackupTime::parse_rfc3339("1900-02-29T00:00:00+00:00").is_err());
    assert!(BackupTime::parse_rfc3339("2021-01-01T24:00:00+00:00").is_err());
    assert!(BackupTime::parse_rfc3339("2021-01-01T00:00:00+24:00").is_err());
}

#[test]
fn time_accepts_leap_days() {
    assert!(BackupTime::parse_rfc3339("2020-02-29T00:00:00+00:00").is_ok());
    assert!(BackupTime::parse_rfc3339("2000-02-29T00:00:00+00:00").is_ok());
}

#[test]
fn time_rejects_bad_shapes() {
    assert!(BackupTime::parse_rfc3339("2021-01-01 00:00:00+00:00").is_err());
    assert!(BackupTime::parse_rfc3339("2021-01-01T00:00:00Z").is_err());
    assert!(BackupTime::parse_rfc3339("2021-01-01T00:00:00-00:00").is_err());
    assert!(BackupTime::parse_rfc3339("2021-01-01T00:00:00+00:00.0").is_err());
    assert!(BackupTime::parse_rfc3339("").is_err());
}

#[test]
fn extension_replacement() {
    assert_eq!(with_extension("img.fidx", "tmp_fidx"), "img.tmp_fidx");
    assert_eq!(with_extension("noext", "tmp_fidx"), "noext.tmp_fidx");
    assert_eq!(with_extension("a.b/file", "x"), "a.b/file.x");
    assert_eq!(with_extension("dir/part.one.two", "x"), "dir/part.one.x");
}

#[test]
fn digest_of_known_content() {
    // The standard SHA-256 test vector pins the trusted digest wrapper.
    let info = ChunkInfo::new(b"abc", 3);
    assert_eq!(
        digest_to_hex(&info.digest),
        "ba7816bf8f01cfea414140de5dae2223b00361a396177a9cb410ff61f20015ad"
    );
    assert_eq!(info.chunk_len, 3);
    assert_eq!(info.offset, 3);
}

#[test]
fn hex_of_zero_digest() {
    let zero = [0u8; 32];
    let hex = digest_to_hex(&zero);
    assert_eq!(hex.len(), 64);
    assert!(hex.chars().all(|c| c == '0'));
}

#[test]
fn error_messages_exist() {
    assert!(!StoreError::Config.message().is_empty());
    assert!(!StoreError::Format.message().is_empty());
    assert!(!StoreError::Consistency.message().is_empty());
    assert!(!StoreError::LockContention.message().is_empty());
    assert!(!StoreError::NotFound.message().is_empty());
    assert!(!StoreError::Closed.message().is_empty());
}
