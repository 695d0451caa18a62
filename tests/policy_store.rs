use timstof_cache::compress::{compress, decompress, CompressionError, Encoding};
use timstof_cache::descriptor::{cache_is_valid, CacheDescriptor, Timestamp};
use timstof_cache::codec::FORMAT_VERSION;
use timstof_cache::policy::{
    choose_encoding, choose_read_strategy, compression_from_flags, CacheConfig, CompressionType,
    ReadStrategy, StreamKind,
};
use timstof_cache::schedule::{collect_outcomes, worker_count, FailedShard, ShardFailure};
use timstof_cache::store::{descriptor_file_name, shard_file_name};
use timstof_cache::info::{cache_totals, source_of_cache_file};

fn descriptor(secs: u64, nanos: u32) -> CacheDescriptor {
    CacheDescriptor {
        version: FORMAT_VERSION,
        compression_type: CompressionType::Hybrid,
        shard_count: 1,
        ms2_window_count: 0,
        created_at: Timestamp { secs: secs + 5, nanos: 0 },
        source_modified: Timestamp { secs, nanos },
        parallel_threads: 1,
    }
}

#[test]
fn compression_inverse_for_every_encoding() {
    let inputs: Vec<Vec<u8>> = vec![vec![], vec![7], (0..5000u32).map(|i| (i % 13) as u8).collect()];
    for e in [Encoding::Raw, Encoding::Lz4, Encoding::Zstd] {
        for b in &inputs {
            let c = compress(b, e);
            assert_eq!(&decompress(&c, e).unwrap(), b);
        }
    }
}

#[test]
fn compressed_frames_differ_from_input_and_carry_magic() {
    let b: Vec<u8> = (0..4000u32).map(|i| (i % 5) as u8).collect();
    let l = compress(&b, Encoding::Lz4);
    assert_eq!(&l[0..4], &[0x04, 0x22, 0x4d, 0x18]);
    assert!(l.len() < b.len());
    let z = compress(&b, Encoding::Zstd);
    assert_eq!(&z[0..4], &[0x28, 0xb5, 0x2f, 0xfd]);
    assert!(z.len() < b.len());
    assert_eq!(compress(&b, Encoding::Raw), b);
}

#[test]
fn decompress_reports_framing_mismatch() {
    let b: Vec<u8> = vec![1, 2, 3, 4, 5, 6];
    let z = compress(&b, Encoding::Zstd);
    assert_eq!(decompress(&z, Encoding::Lz4), Err(CompressionError::FramingMismatch));
    let l = compress(&b, Encoding::Lz4);
    assert_eq!(decompress(&l, Encoding::Zstd), Err(CompressionError::FramingMismatch));
    assert_eq!(decompress(&b, Encoding::Zstd), Err(CompressionError::FramingMismatch));
}

#[test]
fn staleness_compares_against_recorded_source_time() {
    let d = descriptor(100, 500);
    assert!(!d.is_stale(Timestamp { secs: 100, nanos: 500 }));
    assert!(!d.is_stale(Timestamp { secs: 99, nanos: 900 }));
    assert!(!d.is_stale(Timestamp { secs: 100, nanos: 0 }));
    assert!(d.is_stale(Timestamp { secs: 100, nanos: 501 }));
    assert!(d.is_stale(Timestamp { secs: 101, nanos: 0 }));
}

#[test]
fn validity_degrades_to_false() {
    let d = descriptor(100, 0);
    assert!(cache_is_valid(Some(d), Some(Timestamp { secs: 100, nanos: 0 })));
    assert!(!cache_is_valid(None, Some(Timestamp { secs: 1, nanos: 0 })));
    assert!(!cache_is_valid(Some(d), None));
    let mut old = d;
    old.version = FORMAT_VERSION + 1;
    assert!(!cache_is_valid(Some(old), Some(Timestamp { secs: 1, nanos: 0 })));
}

#[test]
fn source_touched_after_save_invalidates() {
    let d = descriptor(1_700_000_000, 0);
    assert!(cache_is_valid(Some(d), Some(Timestamp { secs: 1_700_000_000, nanos: 0 })));
    assert!(!cache_is_valid(Some(d), Some(Timestamp { secs: 1_700_000_060, nanos: 0 })));
}

#[test]
fn policy_choices() {
    assert_eq!(choose_encoding(CompressionType::Hybrid, StreamKind::Primary), Encoding::Raw);
    assert_eq!(choose_encoding(CompressionType::Hybrid, StreamKind::FragmentWindow), Encoding::Lz4);
    assert_eq!(choose_encoding(CompressionType::Zstd, StreamKind::Primary), Encoding::Zstd);
    assert_eq!(choose_encoding(CompressionType::Uncompressed, StreamKind::FragmentWindow), Encoding::Raw);
    assert_eq!(compression_from_flags(true, true), CompressionType::Hybrid);
    assert_eq!(compression_from_flags(true, false), CompressionType::Lz4);
    assert_eq!(compression_from_flags(false, false), CompressionType::Uncompressed);
}

#[test]
fn read_strategy_by_file_length() {
    assert_eq!(choose_read_strategy(10_000_001, 10_000_000), ReadStrategy::Mapped);
    assert_eq!(choose_read_strategy(10_000_000, 10_000_000), ReadStrategy::Buffered);
    assert_eq!(choose_read_strategy(0, 0), ReadStrategy::Buffered);
}

#[test]
fn config_for_threads() {
    let c = CacheConfig::default_config();
    assert_eq!(c.buffer_size, 32 * 1024 * 1024);
    let t = c.for_threads(8);
    assert_eq!(t.parallel_threads, 8);
    assert_eq!(t.buffer_size, 4 * 64 * 1024 * 1024);
    let one = c.for_threads(0);
    assert_eq!(one.parallel_threads, 1);
    assert_eq!(one.buffer_size, 64 * 1024 * 1024);
    assert_eq!(c.for_threads(2).buffer_size, 2 * 64 * 1024 * 1024);
}

#[test]
fn workers_never_exceed_items() {
    assert_eq!(worker_count(8, 2), 2);
    assert_eq!(worker_count(3, 10), 3);
    assert_eq!(worker_count(0, 10), 1);
    assert_eq!(worker_count(0, 0), 0);
}

#[test]
fn outcomes_are_collected_in_index_order_with_all_failures() {
    let ok: Vec<Result<u32, ShardFailure>> = vec![Ok(3), Ok(1), Ok(2)];
    assert_eq!(collect_outcomes(StreamKind::Primary, ok).unwrap(), vec![3, 1, 2]);
    let mixed: Vec<Result<u32, ShardFailure>> =
        vec![Ok(3), Err(ShardFailure::Missing), Ok(2), Err(ShardFailure::Unreadable)];
    let f = collect_outcomes(StreamKind::FragmentWindow, mixed).unwrap_err();
    assert_eq!(
        f,
        vec![
            FailedShard { stream: StreamKind::FragmentWindow, index: 1, failure: ShardFailure::Missing },
            FailedShard { stream: StreamKind::FragmentWindow, index: 3, failure: ShardFailure::Unreadable },
        ]
    );
}

#[test]
fn file_names() {
    assert_eq!(shard_file_name(b"run42.d", StreamKind::Primary, 0), b"run42.d.ms1_indexed.shard_0.cache".to_vec());
    assert_eq!(
        shard_file_name(b"A", StreamKind::FragmentWindow, 1207),
        b"A.ms2_window.shard_1207.cache".to_vec()
    );
    assert_eq!(descriptor_file_name(b"run42.d"), b"run42.d.meta".to_vec());
}

#[test]
fn cache_totals_group_shard_files_by_source() {
    assert_eq!(source_of_cache_file(b"run1.d.ms1_indexed.shard_0.cache"), Some(b"run1.d".to_vec()));
    assert_eq!(source_of_cache_file(b"a.b.c.ms2_window.shard_17.cache"), Some(b"a.b.c".to_vec()));
    assert_eq!(source_of_cache_file(b".ms2_window.shard_3.cache"), Some(Vec::new()));
    assert_eq!(source_of_cache_file(b"run1.d.meta"), None);
    assert_eq!(source_of_cache_file(b"plain.cache"), None);
    assert_eq!(source_of_cache_file(b"x.ms1_indexed.shard_.cache"), None);
    assert_eq!(source_of_cache_file(b"x.ms3_other.shard_1.cache"), None);
    let files: Vec<(Vec<u8>, u64)> = vec![
        (b"a.d.ms1_indexed.shard_0.cache".to_vec(), 100),
        (b"a.raw.ms1_indexed.shard_0.cache".to_vec(), 7),
        (b"a.d.meta".to_vec(), 1000),
        (b"a.d.ms2_window.shard_3.cache".to_vec(), 50),
        (b"notes.txt".to_vec(), 9),
    ];
    assert_eq!(cache_totals(&files), vec![(b"a.d".to_vec(), 150), (b"a.raw".to_vec(), 7)]);
    let big: Vec<(Vec<u8>, u64)> = vec![
        (b"x.ms1_indexed.shard_0.cache".to_vec(), u64::MAX - 1),
        (b"x.ms2_window.shard_0.cache".to_vec(), 5),
    ];
    assert_eq!(cache_totals(&big), vec![(b"x".to_vec(), u64::MAX)]);
    assert!(cache_totals(&Vec::new()).is_empty());
}

#[test]
fn shard_file_names_parse_back_to_their_source() {
    for src in [&b"run42.d"[..], b"a", b"", b"x.y.z"] {
        for stream in [StreamKind::Primary, StreamKind::FragmentWindow] {
            for i in [0usize, 9, 10, 123456] {
                assert_eq!(source_of_cache_file(&shard_file_name(src, stream, i)), Some(src.to_vec()));
            }
        }
    }
}

#[test]
fn empty_or_foreign_bytes_are_a_framing_mismatch() {
    assert_eq!(decompress(&[], Encoding::Lz4), Err(CompressionError::FramingMismatch));
    assert_eq!(decompress(&[], Encoding::Zstd), Err(CompressionError::FramingMismatch));
    let raw = compress(&[1, 2, 3, 4, 5], Encoding::Raw);
    assert_eq!(decompress(&raw, Encoding::Lz4), Err(CompressionError::FramingMismatch));
    assert_eq!(decompress(&[], Encoding::Raw), Ok(Vec::new()));
}

#[test]
fn damaged_frame_is_corrupt() {
    let b: Vec<u8> = (0..3000u32).map(|i| (i % 7) as u8).collect();
    let mut l = compress(&b, Encoding::Lz4);
    l.truncate(l.len() / 2);
    assert_eq!(decompress(&l, Encoding::Lz4), Err(CompressionError::Corrupt));
    let mut z = compress(&b, Encoding::Zstd);
    z.truncate(z.len() / 2);
    assert_eq!(decompress(&z, Encoding::Zstd), Err(CompressionError::Corrupt));
}

#[test]
fn default_config_matches_default_config() {
    assert_eq!(CacheConfig::default(), CacheConfig::default_config());
    assert_eq!(CacheConfig::default().mmap_threshold, 10_000_000);
    assert_eq!(CacheConfig::default().compression, CompressionType::Hybrid);
}
