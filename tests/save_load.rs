use timstof_cache::dataset::IndexedDataset;
use timstof_cache::descriptor::Timestamp;
use timstof_cache::manager::{assemble_load, CacheError, CacheManager, FragmentWindow, SavePlan};
use timstof_cache::policy::{CacheConfig, CompressionType, StreamKind};
use timstof_cache::schedule::{FailedShard, ShardFailure};

fn table(n: usize, seed: u32) -> IndexedDataset {
    let mut d = IndexedDataset::empty();
    for i in 0..n {
        let x = i as u32 + seed;
        d.rt_values_min.push((x as f32 * 0.01).to_bits());
        d.mobility_values.push((0.6f32 + (x % 100) as f32 * 0.001).to_bits());
        d.mz_values.push((150.0f32 + x as f32 * 0.1).to_bits());
        d.intensity_values.push(x.wrapping_mul(2654435761));
        d.frame_indices.push(x / 50);
        d.scan_indices.push(x % 917);
    }
    d
}

fn same(a: &IndexedDataset, b: &IndexedDataset) -> bool {
    a.rt_values_min == b.rt_values_min
        && a.mobility_values == b.mobility_values
        && a.mz_values == b.mz_values
        && a.intensity_values == b.intensity_values
        && a.frame_indices == b.frame_indices
        && a.scan_indices == b.scan_indices
}

fn as_read(p: &[Vec<u8>]) -> Vec<Result<Vec<u8>, ShardFailure>> {
    p.iter().map(|b| Ok(b.clone())).collect()
}

fn ts(secs: u64) -> Timestamp {
    Timestamp { secs, nanos: 0 }
}

fn manager(threads: usize, compression: CompressionType) -> CacheManager {
    let mut config = CacheConfig::default_config();
    config.parallel_threads = threads;
    config.compression = compression;
    CacheManager::with_config("cache_dir".to_string(), config)
}

fn windows() -> Vec<FragmentWindow> {
    vec![
        ((400.0f32.to_bits(), 410.0f32.to_bits()), table(50, 7)),
        ((410.0f32.to_bits(), 420.0f32.to_bits()), table(0, 0)),
    ]
}

fn load(plan: &SavePlan) -> Result<(IndexedDataset, Vec<FragmentWindow>), CacheError> {
    assemble_load(&plan.descriptor, as_read(&plan.primary), as_read(&plan.windows))
}

#[test]
fn ten_thousand_rows_in_four_shards_come_back_in_order() {
    let d = table(10_000, 0);
    let m = manager(4, CompressionType::Hybrid);
    let plan = m.plan_save(&d, &Vec::new(), ts(10), ts(20));
    assert_eq!(plan.primary.len(), 4);
    assert_eq!(plan.descriptor.shard_count, 4);
    let (back, w) = load(&plan).unwrap();
    assert_eq!(back.len(), 10_000);
    assert!(same(&d, &back));
    assert!(w.is_empty());
}

#[test]
fn every_policy_round_trips() {
    let d = table(777, 3);
    for c in [CompressionType::Uncompressed, CompressionType::Lz4, CompressionType::Zstd, CompressionType::Hybrid] {
        let m = manager(3, c);
        let plan = m.plan_save(&d, &windows(), ts(1), ts(2));
        assert_eq!(plan.descriptor.compression_type, c);
        let (back, w) = load(&plan).unwrap();
        assert!(same(&d, &back));
        assert_eq!(w.len(), 2);
    }
}

#[test]
fn windows_keep_keys_and_the_empty_window() {
    let m = manager(2, CompressionType::Hybrid);
    let ws = windows();
    let plan = m.plan_save(&table(5, 1), &ws, ts(1), ts(2));
    assert_eq!(plan.descriptor.ms2_window_count, 2);
    let (_, back) = load(&plan).unwrap();
    assert_eq!(back.len(), 2);
    assert_eq!(back[0].0, (400.0f32.to_bits(), 410.0f32.to_bits()));
    assert_eq!(back[1].0, (410.0f32.to_bits(), 420.0f32.to_bits()));
    assert_eq!(back[0].1.len(), 50);
    assert!(same(&back[0].1, &ws[0].1));
    assert_eq!(back[1].1.len(), 0);
}

#[test]
fn truncated_shard_is_reported_by_stream_and_index() {
    let m = manager(4, CompressionType::Hybrid);
    let plan = m.plan_save(&table(100, 0), &windows(), ts(1), ts(2));
    let mut primary = as_read(&plan.primary);
    primary[2] = Ok(Vec::new());
    let r = assemble_load(&plan.descriptor, primary, as_read(&plan.windows));
    match r {
        Err(CacheError::Shards(f)) => {
            assert_eq!(f.len(), 1);
            assert_eq!(f[0].stream, StreamKind::Primary);
            assert_eq!(f[0].index, 2);
            assert!(matches!(f[0].failure, ShardFailure::Codec(_)));
        }
        other => panic!("expected a shard failure, got {:?}", other.map(|_| ())),
    }
    let mut wins = as_read(&plan.windows);
    wins[0] = Ok(Vec::new());
    let r = assemble_load(&plan.descriptor, as_read(&plan.primary), wins);
    match r {
        Err(CacheError::Shards(f)) => {
            assert_eq!(f.len(), 1);
            assert_eq!(f[0].stream, StreamKind::FragmentWindow);
            assert_eq!(f[0].index, 0);
        }
        other => panic!("expected a shard failure, got {:?}", other.map(|_| ())),
    }
}

#[test]
fn all_failures_are_reported_together() {
    let m = manager(4, CompressionType::Uncompressed);
    let plan = m.plan_save(&table(100, 0), &windows(), ts(1), ts(2));
    let mut primary = as_read(&plan.primary);
    primary[0] = Err(ShardFailure::Missing);
    primary[3] = Err(ShardFailure::Unreadable);
    let mut wins = as_read(&plan.windows);
    wins[1] = Err(ShardFailure::Missing);
    match assemble_load(&plan.descriptor, primary, wins) {
        Err(CacheError::Shards(f)) => assert_eq!(
            f,
            vec![
                FailedShard { stream: StreamKind::Primary, index: 0, failure: ShardFailure::Missing },
                FailedShard { stream: StreamKind::Primary, index: 3, failure: ShardFailure::Unreadable },
                FailedShard { stream: StreamKind::FragmentWindow, index: 1, failure: ShardFailure::Missing },
            ]
        ),
        other => panic!("expected shard failures, got {:?}", other.map(|_| ())),
    }
}

#[test]
fn second_save_supersedes_the_first() {
    let first = table(1000, 0);
    let second = table(1200, 99);
    let plan2 = manager(2, CompressionType::Hybrid).plan_save(&first, &windows(), ts(1), ts(2));
    assert_eq!(plan2.descriptor.shard_count, 2);
    let plan8 = manager(8, CompressionType::Hybrid).plan_save(&second, &Vec::new(), ts(3), ts(4));
    assert_eq!(plan8.descriptor.shard_count, 8);
    assert_eq!(plan8.descriptor.parallel_threads, 8);
    let (back, w) = load(&plan8).unwrap();
    assert!(same(&second, &back));
    assert!(w.is_empty());
}

#[test]
fn payload_count_must_match_descriptor() {
    let m = manager(4, CompressionType::Hybrid);
    let plan = m.plan_save(&table(100, 0), &windows(), ts(1), ts(2));
    let mut primary = as_read(&plan.primary);
    primary.pop();
    assert!(matches!(
        assemble_load(&plan.descriptor, primary, as_read(&plan.windows)),
        Err(CacheError::ShardCountMismatch)
    ));
    let mut d = plan.descriptor;
    d.version = 77;
    assert!(matches!(
        assemble_load(&d, as_read(&plan.primary), as_read(&plan.windows)),
        Err(CacheError::UnsupportedVersion(77))
    ));
}

#[test]
fn manager_configuration() {
    let m = CacheManager::with_threads("x".to_string(), 6);
    assert_eq!(m.get_config().parallel_threads, 6);
    assert_eq!(m.get_cache_dir(), "x");
    let m = m.configure_for_threads(1);
    assert_eq!(m.get_config().parallel_threads, 1);
    let n = CacheManager::new("y".to_string());
    assert!(n.get_config().parallel_threads >= 1);
    assert_eq!(n.get_config().compression, CompressionType::Hybrid);
}

#[test]
fn decoded_shards_assemble_like_payloads() {
    let d = table(301, 5);
    let m = manager(3, CompressionType::Zstd);
    let plan = m.plan_save(&d, &windows(), ts(1), ts(2));
    let e = timstof_cache::policy::choose_encoding(plan.descriptor.compression_type, StreamKind::Primary);
    let primary: Vec<_> = plan.primary.iter().map(|b| timstof_cache::pipeline::decode_payload(b, e)).collect();
    let wins: Vec<_> = plan.windows.iter().map(|b| timstof_cache::pipeline::decode_payload(b, e)).collect();
    let (back, w) = timstof_cache::manager::assemble_decoded(&plan.descriptor, primary, wins).unwrap();
    assert!(same(&d, &back));
    assert_eq!(w.len(), 2);
    assert_eq!(w[0].1.len(), 50);
    let failing = vec![Err(ShardFailure::Missing), Ok(timstof_cache::partition::DataShard::copy_of(&table(2, 0), (0, 0)))];
    let mut desc = plan.descriptor;
    desc.shard_count = 2;
    desc.ms2_window_count = 0;
    match timstof_cache::manager::assemble_decoded(&desc, failing, Vec::new()) {
        Err(CacheError::Shards(f)) => assert_eq!(
            f,
            vec![FailedShard { stream: StreamKind::Primary, index: 0, failure: ShardFailure::Missing }]
        ),
        other => panic!("expected a shard failure, got {:?}", other.map(|_| ())),
    }
}

#[test]
fn truncated_compressed_window_is_reported() {
    for c in [CompressionType::Lz4, CompressionType::Zstd, CompressionType::Hybrid] {
        let m = manager(2, c);
        let plan = m.plan_save(&table(40, 0), &windows(), ts(1), ts(2));
        let mut wins = as_read(&plan.windows);
        wins[1] = Ok(Vec::new());
        match assemble_load(&plan.descriptor, as_read(&plan.primary), wins) {
            Err(CacheError::Shards(f)) => {
                assert_eq!(f.len(), 1);
                assert_eq!((f[0].stream, f[0].index), (StreamKind::FragmentWindow, 1));
            }
            other => panic!("expected a shard failure, got {:?}", other.map(|_| ())),
        }
    }
}
