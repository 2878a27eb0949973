use oqqwall::journal::{
    check_truncate_target, parse_segment_index, plan_append, replay, replay_segment, segment_name,
    segments_after, segments_before, writer_start, JournalConfig, JournalCursor, SegmentData,
    WriterState, DEFAULT_FLUSH_BYTES, DEFAULT_SEGMENT_BYTES, MAX_RECORD_BYTES,
};
use oqqwall::record::{encode_serialized_payload, InfraError, FORMAT_VERSION, HEADER_BYTES};

type Envelope = (u128, i64);

fn envelope(id: u128) -> Envelope {
    (id, id as i64)
}

fn payload(env: &Envelope) -> Vec<u8> {
    bincode::serialize(env).unwrap()
}

fn decode(bytes: &[u8]) -> Result<Envelope, String> {
    bincode::deserialize::<Envelope>(bytes).map_err(|e| e.to_string())
}

fn legacy_record(env: &Envelope) -> Vec<u8> {
    let payload = payload(env);
    let mut buf = Vec::with_capacity(HEADER_BYTES + payload.len());
    buf.extend_from_slice(&(payload.len() as u32).to_le_bytes());
    buf.extend_from_slice(&crc32fast::hash(&payload).to_le_bytes());
    buf.extend_from_slice(&payload);
    buf
}

/// Appends records as the journal would, one segment file per vector.
fn append_all(config: &JournalConfig, envs: &[Envelope]) -> (Vec<SegmentData>, Vec<JournalCursor>) {
    let mut segments: Vec<SegmentData> = Vec::new();
    let mut writer = writer_start(None);
    segments.push(SegmentData { index: writer.index, bytes: Vec::new() });
    let mut cursors = Vec::new();
    for env in envs {
        let p = payload(env);
        let step = plan_append(&writer, p.len(), config, 0).unwrap();
        if step.rotate {
            segments.push(SegmentData { index: step.next.index, bytes: Vec::new() });
        }
        let record = encode_serialized_payload(&p).unwrap();
        assert_eq!(record.len() as u64, step.record_bytes);
        segments.last_mut().unwrap().bytes.extend_from_slice(&record);
        writer = step.next;
        cursors.push(step.cursor);
    }
    (segments, cursors)
}

#[test]
fn delete_segments_before_keeps_cursor_segment_and_is_idempotent() {
    let payload_len = payload(&envelope(1)).len() as u64;
    let config = JournalConfig {
        segment_size_bytes: HEADER_BYTES as u64 + payload_len + 1,
        flush_bytes: 1,
        flush_interval_ms: 60_000,
        sync_on_flush: false,
    };
    let (segments, cursors) = append_all(&config, &[envelope(1), envelope(2), envelope(3)]);
    let cursor2 = cursors[1];
    let indexes: Vec<u64> = segments.iter().map(|s| s.index).collect();
    assert_eq!(indexes, vec![1, 2, 3]);

    let removed = segments_before(&indexes, cursor2);
    let left: Vec<u64> = indexes.iter().copied().filter(|i| !removed.contains(i)).collect();
    assert_eq!(left, vec![2, 3]);

    let removed_again = segments_before(&left, cursor2);
    assert!(removed_again.is_empty());
    assert_eq!(left, vec![2, 3]);

    let kept: Vec<SegmentData> = segments.into_iter().filter(|s| s.index >= 2).collect();
    let replayed = replay(&kept, Some(cursor2), &decode).unwrap();
    let ids: Vec<u128> = replayed.records.iter().map(|r| r.value.0).collect();
    assert_eq!(ids, vec![3]);
}

#[test]
fn replay_reads_legacy_records_when_payload_starts_with_version_byte() {
    let first = legacy_record(&envelope(FORMAT_VERSION as u128));
    assert_eq!(first[HEADER_BYTES], FORMAT_VERSION);
    let mut bytes = first;
    bytes.extend_from_slice(&legacy_record(&envelope(3)));
    let segments = vec![SegmentData { index: 1, bytes }];

    let rep = replay(&segments, None, &decode).unwrap();
    let ids: Vec<u128> = rep.records.iter().map(|r| r.value.0).collect();

    assert_eq!(ids, vec![FORMAT_VERSION as u128, 3]);
    assert_eq!(rep.outcome.events, 2);
    assert_eq!(rep.outcome.legacy_records, 2);
    assert!(rep.outcome.corruption.is_none());
}

#[test]
fn append_writes_versioned_record_body() {
    let config = JournalConfig {
        flush_bytes: 1,
        sync_on_flush: false,
        ..JournalConfig::default()
    };
    let (segments, _) = append_all(&config, &[envelope(1)]);
    let data = &segments[0].bytes;
    assert_eq!(segments[0].index, 1);
    let len = u32::from_le_bytes(data[0..4].try_into().unwrap()) as usize;
    let crc = u32::from_le_bytes(data[4..8].try_into().unwrap());
    let body = &data[HEADER_BYTES..];
    assert_eq!(data.len(), HEADER_BYTES + len);
    assert_eq!(body[0], FORMAT_VERSION);
    assert_eq!(crc32fast::hash(body), crc);
}

#[test]
fn replay_of_empty_journal_starts_at_origin() {
    let rep = replay::<Envelope, _>(&[], None, &decode).unwrap();
    assert_eq!(rep.outcome.events, 0);
    assert_eq!(rep.outcome.last_cursor, JournalCursor::origin());
    assert_eq!(JournalCursor::origin(), JournalCursor { segment: 1, offset: 0 });
}

#[test]
fn replay_stops_at_a_torn_record() {
    let mut bytes = encode_serialized_payload(&payload(&envelope(7))).unwrap();
    let good = bytes.len() as u64;
    bytes.extend_from_slice(&[1, 0, 0]);
    let segments = vec![SegmentData { index: 4, bytes }];
    let rep = replay(&segments, None, &decode).unwrap();
    assert_eq!(rep.outcome.events, 1);
    let corruption = rep.outcome.corruption.unwrap();
    assert_eq!(corruption.segment, 4);
    assert_eq!(corruption.offset, good);
    assert_eq!(corruption.reason, "truncated header");
    assert_eq!(rep.outcome.last_cursor, JournalCursor { segment: 4, offset: good });
}

#[test]
fn replay_reports_a_bad_checksum() {
    let mut bytes = encode_serialized_payload(&payload(&envelope(7))).unwrap();
    let last = bytes.len() - 1;
    bytes[last] ^= 0xff;
    let one = replay_segment(9, &bytes, 0, &decode);
    assert!(one.records.is_empty());
    assert_eq!(one.corruption.unwrap().reason, "crc mismatch");
}

#[test]
fn replay_refuses_a_missing_start_segment() {
    let segments = vec![SegmentData { index: 2, bytes: Vec::new() }];
    match replay::<Envelope, _>(&segments, Some(JournalCursor { segment: 5, offset: 0 }), &decode) {
        Err(InfraError::InvalidData(m)) => assert_eq!(m, "start segment 5 not found in journal"),
        _ => panic!("expected an error"),
    }
    match replay::<Envelope, _>(&segments, Some(JournalCursor { segment: 2, offset: 9 }), &decode) {
        Err(InfraError::InvalidData(m)) => {
            assert_eq!(m, "cursor offset 9 beyond segment 2 length 0")
        }
        _ => panic!("expected an error"),
    }
}

#[test]
fn segment_names_round_trip() {
    assert_eq!(segment_name(1), "00000001.log");
    assert_eq!(segment_name(123456789), "123456789.log");
    assert_eq!(parse_segment_index("00000042.log"), Some(42));
    assert_eq!(parse_segment_index("42.txt"), None);
    assert_eq!(parse_segment_index(".log"), None);
}

#[test]
fn appends_are_refused_when_too_large() {
    let w = writer_start(Some((3, 10)));
    assert_eq!(w, WriterState { index: 3, offset: 10, pending_bytes: 0 });
    let config = JournalConfig::default();
    assert_eq!(config.segment_size_bytes, DEFAULT_SEGMENT_BYTES);
    assert_eq!(config.flush_bytes, DEFAULT_FLUSH_BYTES);
    match plan_append(&w, MAX_RECORD_BYTES, &config, 0) {
        Err(InfraError::InvalidData(m)) => assert_eq!(m, "event too large: 16777217 bytes"),
        _ => panic!("expected an error"),
    }
    let small = JournalConfig { segment_size_bytes: 8, ..JournalConfig::default() };
    match plan_append(&w, 1, &small, 0) {
        Err(InfraError::InvalidData(m)) => assert_eq!(m, "record size 10 exceeds segment size 8"),
        _ => panic!("expected an error"),
    }
}

#[test]
fn truncation_plans() {
    let cursor = JournalCursor { segment: 2, offset: 5 };
    assert_eq!(segments_after(&[1, 2, 3, 4], cursor), vec![3, 4]);
    assert!(check_truncate_target(cursor, true).is_ok());
    match check_truncate_target(cursor, false) {
        Err(InfraError::InvalidData(m)) => assert_eq!(m, "segment 2 missing for truncate"),
        _ => panic!("expected an error"),
    }
    assert!(check_truncate_target(JournalCursor { segment: 2, offset: 0 }, false).is_ok());
}

#[test]
fn replay_from_each_returned_cursor_gives_the_later_records_across_rotations() {
    let envs: Vec<Envelope> = (1..=9u128).map(envelope).collect();
    let rec = HEADER_BYTES as u64 + payload(&envs[0]).len() as u64 + 1;
    let config = JournalConfig { segment_size_bytes: rec * 2, ..JournalConfig::default() };
    let (segments, cursors) = append_all(&config, &envs);
    assert_eq!(segments.len(), 5);
    let all = replay(&segments, None, &decode).unwrap();
    assert_eq!(all.records.iter().map(|r| r.value).collect::<Vec<_>>(), envs);
    assert_eq!(all.outcome.last_cursor, cursors[8]);
    for k in 0..cursors.len() {
        let rep = replay(&segments, Some(cursors[k]), &decode).unwrap();
        let values: Vec<Envelope> = rep.records.iter().map(|r| r.value).collect();
        assert_eq!(values, envs[k + 1..].to_vec());
        assert!(rep.outcome.corruption.is_none());
        assert_eq!(rep.outcome.last_cursor, cursors[8]);
    }
}
