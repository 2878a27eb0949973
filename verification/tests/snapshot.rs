use oqqwall::record::{
    deserialize_body, encode_serialized_payload, versioned_body_len, InfraError, FORMAT_VERSION,
    HEADER_BYTES,
};
use oqqwall::snapshot::{decode_snapshot, join_path, SnapshotStore, SNAPSHOT_VERSION};

type Cursor = Option<(u64, u64)>;
type StoredSnapshot = (u32, i64, Cursor);

fn snapshot(taken_at_ms: i64, cursor: Cursor) -> StoredSnapshot {
    (SNAPSHOT_VERSION, taken_at_ms, cursor)
}

fn decode(bytes: &[u8]) -> Result<(u32, (i64, Cursor)), String> {
    bincode::deserialize::<StoredSnapshot>(bytes)
        .map(|(version, taken, cursor)| (version, (taken, cursor)))
        .map_err(|e| e.to_string())
}

fn legacy_record(s: &StoredSnapshot) -> Vec<u8> {
    let payload = bincode::serialize(s).unwrap();
    let mut buf = Vec::with_capacity(HEADER_BYTES + payload.len());
    buf.extend_from_slice(&(payload.len() as u32).to_le_bytes());
    buf.extend_from_slice(&crc32fast::hash(&payload).to_le_bytes());
    buf.extend_from_slice(&payload);
    buf
}

#[test]
fn load_reads_legacy_snapshot_record() {
    let data = legacy_record(&snapshot(123, Some((2, 10))));
    let loaded = decode_snapshot(&data, &decode).unwrap();
    assert!(loaded.legacy_format);
    assert_eq!(loaded.value.1 .0, 123);
    assert_eq!(loaded.value.1 .1, Some((2, 10)));
}

#[test]
fn write_uses_versioned_snapshot_record() {
    let payload = bincode::serialize(&snapshot(456, None)).unwrap();
    let data = encode_serialized_payload(&payload).unwrap();
    let len = u32::from_le_bytes(data[0..4].try_into().unwrap()) as usize;
    let crc = u32::from_le_bytes(data[4..8].try_into().unwrap());
    let body = &data[HEADER_BYTES..];
    assert_eq!(data.len(), HEADER_BYTES + len);
    assert_eq!(body[0], FORMAT_VERSION);
    assert_eq!(crc32fast::hash(body), crc);
    let loaded = decode_snapshot(&data, &decode).unwrap();
    assert!(!loaded.legacy_format);
    assert_eq!(loaded.value.1 .0, 456);
}

#[test]
fn snapshots_of_other_versions_or_lengths_are_not_loaded() {
    let payload = bincode::serialize(&(2u32, 1i64, None::<(u64, u64)>)).unwrap();
    let data = encode_serialized_payload(&payload).unwrap();
    assert!(decode_snapshot(&data, &decode).is_none());
    let mut longer = encode_serialized_payload(&bincode::serialize(&snapshot(1, None)).unwrap()).unwrap();
    longer.push(0);
    assert!(decode_snapshot(&longer, &decode).is_none());
    assert!(decode_snapshot(&[1, 2, 3], &decode).is_none());
}

#[test]
fn snapshot_paths() {
    let store = SnapshotStore::open("data");
    assert_eq!(store.dir, "data/snapshot");
    assert_eq!(store.file_path(), "data/snapshot/latest.snap");
    assert_eq!(store.tmp_path(), "data/snapshot/latest.snap.tmp");
    assert_eq!(join_path("a/", "b"), "a/b");
}

#[test]
fn record_bodies_decode_or_explain_why_not() {
    assert_eq!(versioned_body_len(3).ok(), Some(4));
    assert!(matches!(versioned_body_len(usize::MAX), Err(InfraError::InvalidData(_))));
    let payload = bincode::serialize(&snapshot(9, None)).unwrap();
    let record = encode_serialized_payload(&payload).unwrap();
    let crc = u32::from_le_bytes(record[4..8].try_into().unwrap());
    let body = &record[HEADER_BYTES..];
    let d = deserialize_body(body, crc, &decode).unwrap();
    assert!(!d.legacy_format);
    assert_eq!(d.value.1 .0, 9);
    assert_eq!(deserialize_body(body, crc ^ 1, &decode).err().unwrap(), "crc mismatch");
    let junk = [FORMAT_VERSION, 1];
    let junk_crc = crc32fast::hash(&junk);
    let err = deserialize_body(&junk, junk_crc, &decode).err().unwrap();
    assert!(err.starts_with("decode failed: versioned="));
}
