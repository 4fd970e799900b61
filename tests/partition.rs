use shard_bench::partition::{partition_shards, PartitionError};

fn pattern(len: usize) -> Vec<u8> {
    (0..len).map(|i| (i * 7 + 3) as u8).collect()
}

#[test]
fn partition_cuts_equal_shards_in_order() {
    let data = pattern(1344);
    let shards = partition_shards(&data, 64, 21).unwrap();
    assert_eq!(shards.len(), 21);
    for (i, s) in shards.iter().enumerate() {
        assert_eq!(s.len(), 64);
        assert_eq!(*s, &data[i * 64..(i + 1) * 64]);
    }
    let joined: Vec<u8> = shards.concat();
    assert_eq!(joined, data);
}

#[test]
fn partition_of_one_megabyte_plan() {
    let data = pattern(1_049_664);
    let shards = partition_shards(&data, 49_984, 21).unwrap();
    assert_eq!(shards.len(), 21);
    assert!(shards.iter().all(|s| s.len() == 49_984));
    assert_eq!(shards.concat(), data);
}

#[test]
fn partition_refuses_short_buffer() {
    let data = pattern(1344 - 10);
    assert_eq!(partition_shards(&data, 64, 21), Err(PartitionError::Indivisible));
}

#[test]
fn partition_refuses_zero_shard_size() {
    let data = pattern(10);
    assert_eq!(partition_shards(&data, 0, 1), Err(PartitionError::Indivisible));
}

#[test]
fn partition_refuses_wrong_shard_count() {
    let data = pattern(64 * 20);
    assert_eq!(partition_shards(&data, 64, 21), Err(PartitionError::CountMismatch));
}

#[test]
fn partition_of_empty_buffer() {
    let data: Vec<u8> = Vec::new();
    assert_eq!(partition_shards(&data, 64, 0).unwrap().len(), 0);
    assert_eq!(partition_shards(&data, 64, 1), Err(PartitionError::CountMismatch));
}
