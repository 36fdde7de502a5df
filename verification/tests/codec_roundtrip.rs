use snapdiff::codec::{export_document, import_document};
use snapdiff::digits::dec_u128;
use snapdiff::hasher::HashType;
use snapdiff::snapshot::{FileMetadata, Snapshot, SnapshotError};

fn sample() -> Snapshot {
    Snapshot {
        file_hashes: vec![
            FileMetadata {
                path: "/data/a".to_string(),
                check_sum: vec![0x00, 0xAB, 0xFF],
                size: 123,
                ino: 456,
                ctime: -7,
                mtime: 1700000000,
            },
            FileMetadata {
                path: "/data/deeper/b".to_string(),
                check_sum: vec![0x10],
                size: 0,
                ino: u64::MAX,
                ctime: i64::MIN,
                mtime: i64::MAX,
            },
        ],
        black_list: vec!["/proc".to_string(), "/dev".to_string()],
        root_path: "/data".to_string(),
        hash_type: HashType::SHA3,
        uuid: "340282366920938463463374607431768211455".to_string(),
        date_created: 1700000123,
    }
}

fn assert_snapshots_equal(a: &Snapshot, b: &Snapshot) {
    assert_eq!(a.file_hashes.len(), b.file_hashes.len());
    for (x, y) in a.file_hashes.iter().zip(b.file_hashes.iter()) {
        assert_eq!(x.path, y.path);
        assert_eq!(x.check_sum, y.check_sum);
        assert_eq!(x.size, y.size);
        assert_eq!(x.ino, y.ino);
        assert_eq!(x.ctime, y.ctime);
        assert_eq!(x.mtime, y.mtime);
    }
    assert_eq!(a.black_list, b.black_list);
    assert_eq!(a.root_path, b.root_path);
    assert_eq!(a.uuid, b.uuid);
    assert_eq!(a.date_created, b.date_created);
}

#[test]
fn roundtrip_full_snapshot() {
    let s = sample();
    let doc = export_document(&s);
    let back = import_document(doc.as_str()).unwrap();
    assert_snapshots_equal(&s, &back);
    assert!(matches!(back.hash_type, HashType::SHA3));
}

#[test]
fn roundtrip_empty_snapshot() {
    let s = Snapshot {
        file_hashes: vec![],
        black_list: vec![],
        root_path: String::new(),
        hash_type: HashType::BLAKE3,
        uuid: "0".to_string(),
        date_created: 0,
    };
    let doc = export_document(&s);
    let back = import_document(doc.as_str()).unwrap();
    assert_snapshots_equal(&s, &back);
    assert!(matches!(back.hash_type, HashType::BLAKE3));
}

#[test]
fn roundtrip_non_ascii_path() {
    let mut s = sample();
    s.file_hashes[0].path = "/data/ünïcødé/ファイル".to_string();
    let doc = export_document(&s);
    let back = import_document(doc.as_str()).unwrap();
    assert_snapshots_equal(&s, &back);
}

#[test]
fn document_shape_is_stable() {
    let s = Snapshot {
        file_hashes: vec![],
        black_list: vec![],
        root_path: "/r".to_string(),
        hash_type: HashType::BLAKE3,
        uuid: "7".to_string(),
        date_created: 5,
    };
    let doc = export_document(&s);
    assert_eq!(
        doc,
        "FIMSNAP1\
         00000000000000000000\
         00000000000000000002/r\
         B\
         000000000000000000017\
         +0000000000000000005\
         00000000000000000000"
    );
}

#[test]
fn import_rejects_garbage() {
    assert!(matches!(
        import_document("not a snapshot at all"),
        Err(SnapshotError::Serialization)
    ));
}

#[test]
fn import_rejects_empty_text() {
    // An unreadable or empty document is an explicit failure, never a
    // silently substituted default snapshot.
    assert!(matches!(import_document(""), Err(SnapshotError::Serialization)));
}

#[test]
fn import_rejects_truncation_and_trailing_text() {
    let doc = export_document(&sample());
    let cut: String = doc.chars().take(doc.chars().count() - 1).collect();
    assert!(import_document(cut.as_str()).is_err());
    let mut extended = doc.clone();
    extended.push('X');
    assert!(import_document(extended.as_str()).is_err());
}

#[test]
fn import_rejects_empty_checksum_record() {
    let mut s = sample();
    s.file_hashes[0].check_sum = vec![];
    let doc = export_document(&s);
    assert!(import_document(doc.as_str()).is_err());
}

#[test]
fn import_keeps_last_duplicate_record() {
    let mut s = sample();
    let mut dup = s.file_hashes[0].clone();
    dup.check_sum = vec![0x99];
    s.file_hashes.push(dup);
    let doc = export_document(&s);
    let back = import_document(doc.as_str()).unwrap();
    assert_eq!(back.file_hashes.len(), 2);
    let entry = back
        .file_hashes
        .iter()
        .find(|m| m.path == "/data/a".to_string())
        .unwrap();
    assert_eq!(entry.check_sum, vec![0x99u8]);
}

#[test]
fn decimal_rendering() {
    let zero: String = dec_u128(0).into_iter().collect();
    assert_eq!(zero, "0");
    let small: String = dec_u128(12345).into_iter().collect();
    assert_eq!(small, "12345");
    let max: String = dec_u128(u128::MAX).into_iter().collect();
    assert_eq!(max, "340282366920938463463374607431768211455");
}
