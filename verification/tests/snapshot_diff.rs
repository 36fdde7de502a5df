use snapdiff::hasher::{HashResult, HashType};
use snapdiff::snapshot::{
    compare_hashes, compare_hashes_and_modify_date, is_blacklisted, path_resolve, FileMetadata,
    Snapshot, SnapshotChangeType, SnapshotError,
};
use snapdiff::{compare_snapshots, compare_snapshots_including_modify_date};

fn meta(path: &str, sum: &[u8], ctime: i64, mtime: i64) -> FileMetadata {
    FileMetadata {
        path: path.to_string(),
        check_sum: sum.to_vec(),
        size: sum.len() as u64,
        ino: 7,
        ctime,
        mtime,
    }
}

fn snap(entries: Vec<FileMetadata>) -> Snapshot {
    Snapshot {
        file_hashes: entries,
        black_list: Vec::new(),
        root_path: "/data".to_string(),
        hash_type: HashType::BLAKE3,
        uuid: "42".to_string(),
        date_created: 1000,
    }
}

#[test]
fn no_self_diff() {
    let s = snap(vec![
        meta("/data/a", &[1, 2, 3], 10, 20),
        meta("/data/b", &[4, 5], 11, 21),
    ]);
    let (kind, result) = compare_snapshots(s.clone(), s.clone()).unwrap();
    assert_eq!(kind, SnapshotChangeType::Unchanged);
    assert!(result.created.is_empty());
    assert!(result.deleted.is_empty());
    assert!(result.changed.is_empty());

    let (kind, result) = compare_snapshots_including_modify_date(s.clone(), s).unwrap();
    assert_eq!(kind, SnapshotChangeType::Unchanged);
    assert!(result.created.is_empty());
    assert!(result.deleted.is_empty());
    assert!(result.changed.is_empty());
}

#[test]
fn creation_detection() {
    let before = snap(vec![]);
    let after = snap(vec![
        meta("/data/test1", &[1], 0, 0),
        meta("/data/test2", &[2], 0, 0),
        meta("/data/test3", &[3], 0, 0),
    ]);
    let (kind, result) = compare_snapshots(before, after).unwrap();
    assert_eq!(result.created.len(), 3);
    assert!(result.created.contains(&"/data/test1".to_string()));
    assert!(result.created.contains(&"/data/test2".to_string()));
    assert!(result.created.contains(&"/data/test3".to_string()));
    assert!(result.deleted.is_empty());
    assert!(result.changed.is_empty());
    assert_eq!(kind, SnapshotChangeType::Created);
}

#[test]
fn deletion_detection() {
    let before = snap(vec![
        meta("/data/test1", &[1], 0, 0),
        meta("/data/test2", &[2], 0, 0),
        meta("/data/test3", &[3], 0, 0),
    ]);
    let after = snap(vec![]);
    let (kind, result) = compare_snapshots(before, after).unwrap();
    assert_eq!(result.deleted.len(), 3);
    assert!(result.created.is_empty());
    assert!(result.changed.is_empty());
    assert_eq!(kind, SnapshotChangeType::Deleted);
}

#[test]
fn change_detection() {
    let before = snap(vec![
        meta("/data/test1", &[0], 0, 0),
        meta("/data/test2", &[0], 0, 0),
        meta("/data/test3", &[0], 0, 0),
    ]);
    let after = snap(vec![
        meta("/data/test1", &[1], 0, 0),
        meta("/data/test2", &[2], 0, 0),
        meta("/data/test3", &[3], 0, 0),
    ]);
    let (kind, result) = compare_snapshots(before, after).unwrap();
    assert_eq!(result.changed.len(), 3);
    assert!(result.created.is_empty());
    assert!(result.deleted.is_empty());
    assert_eq!(kind, SnapshotChangeType::Changed);
}

#[test]
fn change_detection_including_modify_date() {
    // Same checksums, different timestamps: invisible to the
    // checksum-only policy, visible to the combined one.
    let before = snap(vec![
        meta("/data/test1", &[9], 10, 10),
        meta("/data/test2", &[9], 10, 10),
        meta("/data/test3", &[9], 10, 10),
    ]);
    let after = snap(vec![
        meta("/data/test1", &[9], 20, 20),
        meta("/data/test2", &[9], 20, 20),
        meta("/data/test3", &[9], 20, 20),
    ]);
    let (_, checksum_only) = compare_hashes(before.clone(), after.clone()).unwrap();
    assert_eq!(checksum_only.changed.len(), 0);
    let (kind, combined) = compare_hashes_and_modify_date(before, after).unwrap();
    assert_eq!(combined.changed.len(), 3);
    assert_eq!(kind, SnapshotChangeType::Changed);
}

#[test]
fn changed_in_both_ways_is_listed_twice() {
    // Under the combined policy a path whose checksum and timestamps both
    // differ appears twice: once per reason.  Callers needing a set
    // de-duplicate.
    let before = snap(vec![meta("/data/f", &[1], 10, 10)]);
    let after = snap(vec![meta("/data/f", &[2], 20, 20)]);
    let (_, result) = compare_snapshots_including_modify_date(before, after).unwrap();
    assert_eq!(result.changed.len(), 2);
    assert_eq!(result.changed[0], "/data/f".to_string());
    assert_eq!(result.changed[1], "/data/f".to_string());
}

#[test]
fn summary_precedence() {
    // Changed wins over deleted, which wins over created.
    let left = snap(vec![
        meta("/data/gone", &[1], 0, 0),
        meta("/data/edit", &[2], 0, 0),
    ]);
    let right = snap(vec![
        meta("/data/edit", &[3], 0, 0),
        meta("/data/new", &[4], 0, 0),
    ]);
    let (kind, result) = compare_snapshots(left.clone(), right.clone()).unwrap();
    assert_eq!(result.created.len(), 1);
    assert_eq!(result.deleted.len(), 1);
    assert_eq!(result.changed.len(), 1);
    assert_eq!(kind, SnapshotChangeType::Changed);

    let left2 = snap(vec![meta("/data/gone", &[1], 0, 0)]);
    let right2 = snap(vec![meta("/data/new", &[4], 0, 0)]);
    let (kind2, _) = compare_snapshots(left2, right2).unwrap();
    assert_eq!(kind2, SnapshotChangeType::Deleted);
}

#[test]
fn blacklist_enforcement() {
    let mut s = Snapshot::begin(
        "/".to_string(),
        HashType::BLAKE3,
        vec!["/proc".to_string(), "/dev".to_string()],
    );
    assert!(!s.record(meta("/proc/cpuinfo", &[1], 0, 0)));
    assert!(!s.record(meta("/dev/null", &[2], 0, 0)));
    assert!(s.record(meta("/etc/hosts", &[3], 0, 0)));
    assert_eq!(s.file_hashes.len(), 1);
    assert_eq!(s.file_hashes[0].path, "/etc/hosts".to_string());
}

#[test]
fn blacklist_is_retained() {
    let mut s = Snapshot::begin("/etc".to_string(), HashType::BLAKE3, vec!["testkey".to_string()]);
    assert_eq!(s.black_list.pop().unwrap(), "testkey".to_string());
}

#[test]
fn begin_renders_decimal_uuid() {
    let s = Snapshot::begin("/etc".to_string(), HashType::MD5, vec![]);
    assert!(s.file_hashes.is_empty());
    assert!(!s.uuid.is_empty());
    assert!(s.uuid.chars().all(|c| c.is_ascii_digit()));
    assert_eq!(s.root_path, "/etc".to_string());
}

#[test]
fn record_last_write_wins() {
    let mut s = Snapshot::begin("/data".to_string(), HashType::SHA3, vec![]);
    assert!(s.record(meta("/data/f", &[1], 0, 0)));
    assert!(s.record(meta("/data/f", &[2], 0, 0)));
    assert_eq!(s.file_hashes.len(), 1);
    assert_eq!(s.file_hashes[0].check_sum, vec![2u8]);
}

#[test]
fn record_rejects_empty_checksum() {
    let mut s = Snapshot::begin("/data".to_string(), HashType::SHA3, vec![]);
    assert!(!s.record(meta("/data/unreadable", &[], 0, 0)));
    assert!(s.file_hashes.is_empty());
}

#[test]
fn every_recorded_file_is_present() {
    // However many files are fingerprinted, each successfully read one
    // ends up with its own map entry.
    let mut s = Snapshot::begin("/data".to_string(), HashType::BLAKE3, vec![]);
    for i in 0..100u8 {
        assert!(s.record(meta(&format!("/data/file{i}"), &[i, 1], 0, 0)));
    }
    assert_eq!(s.file_hashes.len(), 100);
    for i in 0..100u8 {
        assert!(s
            .file_hashes
            .iter()
            .any(|m| m.path == format!("/data/file{i}") && m.check_sum == vec![i, 1]));
    }
}

#[test]
fn path_resolution() {
    let cwd = "/home/user".to_string();
    assert_eq!(
        path_resolve(&"./target/out".to_string(), &cwd),
        "/home/user/target/out".to_string()
    );
    assert_eq!(path_resolve(&"/etc/hosts".to_string(), &cwd), "/etc/hosts".to_string());
    assert_eq!(path_resolve(&"relative/x".to_string(), &cwd), "relative/x".to_string());
}

#[test]
fn blacklist_prefix_matching() {
    let bl = vec!["/proc".to_string(), "/tmp/".to_string()];
    assert!(is_blacklisted(&"/proc/1/maps".to_string(), &bl));
    assert!(is_blacklisted(&"/proc".to_string(), &bl));
    assert!(is_blacklisted(&"/tmp/x".to_string(), &bl));
    assert!(!is_blacklisted(&"/tmp".to_string(), &bl));
    assert!(!is_blacklisted(&"/etc/passwd".to_string(), &bl));
}

#[test]
fn metadata_from_result() {
    let r = HashResult { check_sum: vec![1, 2], size: 9, ino: 3, ctime: -5, mtime: 6 };
    let m = FileMetadata::from_result("/data/x".to_string(), r);
    assert_eq!(m.path, "/data/x".to_string());
    assert_eq!(m.check_sum, vec![1u8, 2u8]);
    assert_eq!(m.size, 9);
    assert_eq!(m.ino, 3);
    assert_eq!(m.ctime, -5);
    assert_eq!(m.mtime, 6);
}

#[test]
fn error_descriptions_are_distinct() {
    let texts = vec![
        SnapshotError::Path.describe(),
        SnapshotError::Io.describe(),
        SnapshotError::Serialization.describe(),
        SnapshotError::Concurrency.describe(),
    ];
    for (i, a) in texts.iter().enumerate() {
        assert!(!a.is_empty());
        for b in texts.iter().skip(i + 1) {
            assert_ne!(a, b);
        }
    }
}

#[test]
fn default_snapshot_is_empty() {
    let s = Snapshot::default();
    assert!(s.file_hashes.is_empty());
    assert!(s.black_list.is_empty());
    assert_eq!(s.root_path, String::new());
    assert_eq!(s.uuid, String::new());
    assert_eq!(s.date_created, 0);
}

#[test]
fn default_metadata_is_zeroed() {
    let m = FileMetadata::default();
    assert_eq!(m.path, String::new());
    assert!(m.check_sum.is_empty());
    assert_eq!(m.size, 0);
    assert_eq!(m.ino, 0);
    assert_eq!(m.ctime, 0);
    assert_eq!(m.mtime, 0);
}
