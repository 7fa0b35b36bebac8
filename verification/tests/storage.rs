use turbolog::chunks::{expired, hour_dir_name, hour_of, join, segment_file_name, sweep_cutoff, ChunkStore};
use turbolog::engine::{
    calibration_due, check_open, check_search_k, dedup_by_id, merge_hits, next_start_id,
    ring_capacity, rotate_ring, shard_index, swap_plan, sweep_due, EngineError, IngestCounters,
};
use std::collections::VecDeque;
use turbolog::wal::{
    decode_header, decode_records, encode_header, encode_record, is_sealed_leftover, replay_bytes,
    sealed_file_name, WalFormatError, WalRecord, HEADER_LEN,
};

fn vector_bytes(values: &[f32]) -> Vec<u8> {
    values.iter().flat_map(|v| v.to_le_bytes()).collect()
}

fn append(file: &mut Vec<u8>, id: u64, values: &[f32], dim: usize) {
    let rec = encode_record(id, &vector_bytes(values), dim).unwrap();
    file.extend_from_slice(&rec);
}

#[test]
fn wal_bytes_roundtrip_and_rotate() {
    let mut file = encode_header(4);
    assert_eq!(file.len(), HEADER_LEN);
    append(&mut file, 1, &[0.1, 0.2, 0.3, 0.4], 4);
    append(&mut file, 2, &[1.0, 0.0, 0.0, 0.0], 4);
    let entries = replay_bytes(&file, 4).unwrap();
    assert_eq!(entries.len(), 2);
    assert_eq!(entries[0].id, 1);
    assert_eq!(entries[1].payload, vector_bytes(&[1.0, 0.0, 0.0, 0.0]));

    // Appending after reopening keeps the earlier records.
    append(&mut file, 3, &[0.0; 4], 4);
    assert_eq!(replay_bytes(&file, 4).unwrap().len(), 3);

    // Rotation starts a fresh file: a header and nothing else.
    let mut rotated = encode_header(4);
    assert!(replay_bytes(&rotated, 4).unwrap().is_empty());
    append(&mut rotated, 9, &[0.5; 4], 4);
    let entries = replay_bytes(&rotated, 4).unwrap();
    assert_eq!(entries.len(), 1);
    assert_eq!(entries[0].id, 9);
}

#[test]
fn wal_truncated_tail_is_dropped() {
    let mut file = encode_header(4);
    append(&mut file, 1, &[0.1; 4], 4);
    file.extend_from_slice(&7u64.to_le_bytes());
    file.extend_from_slice(&[0u8; 5]);
    let entries = replay_bytes(&file, 4).unwrap();
    assert_eq!(entries.len(), 1, "incomplete trailing records should be ignored");
}

#[test]
fn wal_header_errors() {
    assert_eq!(decode_header(b"TLW"), Err(WalFormatError::Truncated));
    assert_eq!(decode_header(b"XXWAL1\x04\0\0\0"), Err(WalFormatError::BadMagic));
    assert_eq!(decode_header(b"TLWAL1\x04\0"), Err(WalFormatError::Truncated));
    assert_eq!(decode_header(b"TLWAL1\x04\0\0\0"), Ok(4));
    let file = encode_header(8);
    assert!(matches!(
        replay_bytes(&file, 4),
        Err(WalFormatError::DimensionMismatch { file_dim: 8, requested: 4 })
    ));
    assert!(matches!(
        encode_record(1, &vector_bytes(&[1.0, 2.0]), 4),
        Err(WalFormatError::VectorDimensionMismatch)
    ));
    let body = encode_record(5, &vector_bytes(&[1.0]), 1).unwrap();
    let recs = decode_records(&body, 1);
    assert_eq!(recs.len(), 1);
    assert_eq!(recs[0].id, 5);
}

#[test]
fn wal_sealed_names() {
    let name = sealed_file_name("wal-0", 42);
    assert_eq!(name, "wal-0-sealed-42.bin");
    assert!(name.starts_with("wal-0"));
    assert!(name.contains("-sealed-"));
    assert!(is_sealed_leftover("wal-0-sealed-99.bin", "wal-0-sealed-"));
    assert!(!is_sealed_leftover("wal-1-sealed-99.bin", "wal-0-sealed-"));
    assert!(!is_sealed_leftover("wal-0-sealed-99.tmp", "wal-0-sealed-"));
}

#[test]
fn chunk_segments_land_in_hour_dirs_and_old_hours_expire() {
    let store = ChunkStore::at("/data/chunks");
    let now: i64 = 1_770_000_000_000;
    let old = now - 10 * 3_600_000;
    assert_eq!(hour_of(now), 491_666);
    assert_eq!(
        store.segment_path(now),
        "/data/chunks/hour-491666/seg-1770000000000.tvim"
    );
    assert_ne!(store.hour_dir(now), store.hour_dir(old));
    let cutoff = sweep_cutoff(7, now);
    assert_eq!(cutoff, 491_659);
    assert!(expired(&hour_dir_name(hour_of(old)), cutoff));
    assert!(!expired(&hour_dir_name(hour_of(now)), cutoff));
    assert!(!expired("notes.txt", cutoff));
    assert!(!expired("hour-abc", cutoff));
    assert!(!expired("hour-", cutoff));
}

#[test]
fn chunk_names_and_joins() {
    assert_eq!(hour_of(-1), 0);
    assert_eq!(hour_of(-3_600_001), -1);
    assert_eq!(hour_dir_name(-3), "hour--3");
    assert!(expired("hour--3", -2));
    assert_eq!(segment_file_name(17), "seg-17.tvim");
    assert_eq!(join("a/", "b"), "a/b");
    assert_eq!(join("a", "b"), "a/b");
    assert_eq!(join("", "b"), "b");
    assert_eq!(ChunkStore::at("root/").root(), "root/");
    assert_eq!(ChunkStore::at("root/").segment_path(0), "root/hour-0/seg-0.tvim");
}

#[test]
fn engine_ids_and_shards() {
    assert_eq!(next_start_id(1_000, 5), 1_000u64 << 20);
    assert_eq!(next_start_id(0, 41), 42);
    assert_eq!(next_start_id(-1, 0), 0xFFFF_FFFF_FFF0_0000);
    assert_eq!(shard_index(10, 4), 2);
    assert_eq!(shard_index(3, 1), 0);
    assert_eq!(ring_capacity(0), 1);
    assert_eq!(ring_capacity(30), 30);
    assert!(calibration_due(64 * 384, 384, 64));
    assert!(!calibration_due(63 * 384 + 383, 384, 64));
}

#[test]
fn engine_checks() {
    assert_eq!(check_open(0, 1), Err(EngineError::NoEmbedder));
    assert_eq!(check_open(1, 0), Err(EngineError::NoShard));
    assert_eq!(check_open(2, 4), Ok(()));
    assert_eq!(check_search_k(0), Err(EngineError::ZeroResults));
    assert_eq!(check_search_k(5), Ok(()));
}

#[test]
fn engine_recovery_keeps_first_record_per_id() {
    let rec = |id: u64, b: u8| WalRecord { id, payload: vec![b] };
    let merged = dedup_by_id(vec![rec(1, 1), rec(2, 2), rec(1, 9), rec(3, 3), rec(2, 8)]);
    let got: Vec<(u64, Vec<u8>)> = merged.into_iter().map(|r| (r.id, r.payload)).collect();
    assert_eq!(got, vec![(1, vec![1]), (2, vec![2]), (3, vec![3])]);
    assert!(dedup_by_id(Vec::new()).is_empty());
}

#[test]
fn engine_search_merge_and_ring() {
    let hits = vec![(10, 3), (11, 7), (12, 7), (13, 1)];
    assert_eq!(merge_hits(&hits, 2), vec![(11, 7), (12, 7)]);
    assert_eq!(merge_hits(&hits, 10), vec![(11, 7), (12, 7), (10, 3), (13, 1)]);
    let mut ring: VecDeque<u32> = VecDeque::from(vec![2, 1]);
    rotate_ring(&mut ring, 3, 2);
    assert_eq!(ring, VecDeque::from(vec![3, 2]));
    rotate_ring(&mut ring, 4, 0);
    assert_eq!(ring, VecDeque::from(vec![4]));
    let mut fresh: VecDeque<u32> = VecDeque::new();
    rotate_ring(&mut fresh, 1, 30);
    assert_eq!(fresh, VecDeque::from(vec![1]));
}

#[test]
fn chunk_cutoff_reads_retention_as_i64() {
    assert_eq!(sweep_cutoff(0, 3_600_000), 1);
    assert_eq!(sweep_cutoff(u64::MAX, 0), 1);
}

#[test]
fn engine_ingest_counters_and_tick_plans() {
    let mut c = IngestCounters::new(100, 7);
    assert_eq!(c.ingest(), 100);
    assert_eq!(c.ingest(), 101);
    assert_eq!(c.next_id, 102);
    assert_eq!(c.ingested_total, 9);
    let mut top = IngestCounters::new(u64::MAX, u64::MAX);
    assert_eq!(top.ingest(), u64::MAX);
    assert_eq!(top.next_id, 0);
    assert_eq!(top.ingested_total, 0);
    assert_eq!(swap_plan(&vec![0, 3, 0, 1]), (vec![1, 3], true));
    assert_eq!(swap_plan(&vec![0, 0]), (vec![], false));
    assert_eq!(sweep_due(0, 7_200), (2, true));
    assert_eq!(sweep_due(2, 10_799), (2, false));
    assert_eq!(sweep_due(2, u64::MAX), (0, true));
}
