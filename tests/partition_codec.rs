use timstof_cache::codec::{decode_shard, encode_shard, CodecError, FORMAT_VERSION};
use timstof_cache::dataset::IndexedDataset;
use timstof_cache::partition::{merge_shards, split_into_shards, DataShard};

fn sample(n: usize) -> IndexedDataset {
    let mut d = IndexedDataset::empty();
    for i in 0..n {
        d.rt_values_min.push((i as f32 * 0.5).to_bits());
        d.mobility_values.push((1.0f32 / (i as f32 + 1.0)).to_bits());
        d.mz_values.push((400.0f32 + i as f32).to_bits());
        d.intensity_values.push(i as u32 * 3);
        d.frame_indices.push(i as u32 / 7);
        d.scan_indices.push(i as u32 % 11);
    }
    d
}

fn same(a: &IndexedDataset, b: &IndexedDataset) -> bool {
    a.rt_values_min == b.rt_values_min
        && a.mobility_values == b.mobility_values
        && a.mz_values == b.mz_values
        && a.intensity_values == b.intensity_values
        && a.frame_indices == b.frame_indices
        && a.scan_indices == b.scan_indices
}

#[test]
fn split_merge_round_trip_for_many_shard_counts() {
    for n in [0usize, 1, 2, 7, 10, 33] {
        let d = sample(n);
        for k in 1..12usize {
            let shards = split_into_shards(&d, k);
            assert!(shards.len() <= k);
            let back = merge_shards(shards);
            assert!(same(&d, &back), "n={} k={}", n, k);
        }
    }
}

#[test]
fn split_keeps_nan_and_infinity_bit_for_bit() {
    let mut d = sample(5);
    d.rt_values_min[1] = f32::NAN.to_bits();
    d.mobility_values[2] = f32::INFINITY.to_bits();
    d.mz_values[3] = f32::NEG_INFINITY.to_bits();
    d.rt_values_min[4] = 0x7fc0_1234;
    let back = merge_shards(split_into_shards(&d, 2));
    assert!(same(&d, &back));
    assert_eq!(back.rt_values_min[4], 0x7fc0_1234);
}

#[test]
fn empty_dataset_gives_no_shards() {
    let d = IndexedDataset::empty();
    assert_eq!(split_into_shards(&d, 4).len(), 0);
    assert_eq!(split_into_shards(&d, 0).len(), 0);
}

#[test]
fn split_uses_ceiling_division_and_drops_empty_tails() {
    // 10 rows into 4 shards: 3 rows per shard, shards of 3, 3, 3 and 1 rows.
    let d = sample(10);
    let shards = split_into_shards(&d, 4);
    let sizes: Vec<usize> = shards.iter().map(|s| s.point_count()).collect();
    assert_eq!(sizes, vec![3, 3, 3, 1]);
    // 4 rows into 3 shards: 2 rows per shard, so only two shards exist.
    let shards = split_into_shards(&sample(4), 3);
    assert_eq!(shards.len(), 2);
    // the tag is the mass of the first and last rows of each shard
    let s = &split_into_shards(&d, 4)[1];
    assert_eq!(s.mz_range, (d.mz_values[3], d.mz_values[5]));
}

#[test]
fn codec_layout_is_exact() {
    let shard = DataShard {
        rt_values_min: vec![1],
        mobility_values: vec![2],
        mz_values: vec![0x0403_0201],
        intensity_values: vec![4],
        frame_indices: vec![5],
        scan_indices: vec![6],
        mz_range: (7, 8),
    };
    let b = encode_shard(&shard);
    assert_eq!(b.len(), 4 * (5 + 6));
    assert_eq!(&b[0..4], &FORMAT_VERSION.to_le_bytes());
    assert_eq!(&b[4..12], &[1, 0, 0, 0, 0, 0, 0, 0]);
    assert_eq!(&b[12..20], &[7, 0, 0, 0, 8, 0, 0, 0]);
    assert_eq!(&b[28..32], &[1, 2, 3, 4]);
    let back = decode_shard(&b).unwrap();
    assert_eq!(back.mz_values, vec![0x0403_0201]);
    assert_eq!(back.mz_range, (7, 8));
    assert_eq!(back.scan_indices, vec![6]);
}

#[test]
fn codec_round_trip_of_empty_shard() {
    let shard = DataShard::copy_of(&IndexedDataset::empty(), (1, 2));
    let b = encode_shard(&shard);
    assert_eq!(b.len(), 20);
    let back = decode_shard(&b).unwrap();
    assert_eq!(back.point_count(), 0);
    assert_eq!(back.mz_range, (1, 2));
}

#[test]
fn codec_rejects_truncated_unknown_version_and_bad_length() {
    assert_eq!(decode_shard(&[]).err(), Some(CodecError::Truncated));
    let d = sample(3);
    let mut b = encode_shard(&DataShard::copy_of(&d, (0, 0)));
    let mut short = b.clone();
    short.truncate(b.len() - 1);
    assert_eq!(decode_shard(&short).err(), Some(CodecError::LengthMismatch));
    b[0] = 9;
    assert_eq!(decode_shard(&b).err(), Some(CodecError::UnsupportedVersion(9)));
}
