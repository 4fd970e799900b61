use shard_bench::partition::{partition_shards, PartitionError};
use shard_bench::planner::plan_shards;
use shard_bench::runner::{
    average_nanos, bytes_equal, check_restored, disposition, run_configuration, run_trial,
    Disposition, RunError,
};
use shard_bench::source::generate_random_data;

fn pattern(len: usize) -> Vec<u8> {
    (0..len).map(|i| (i * 31 + 11) as u8).collect()
}

#[test]
fn round_trip_one_megabyte_21_original_10_recovery() {
    let plan = plan_shards(1_048_576, 21);
    let data = generate_random_data(plan.padded_size);
    assert_eq!(data.len(), 1_049_664);
    let shards = partition_shards(&data, plan.shard_size, 21).unwrap();
    let outcome = run_trial(&shards, 10, plan.shard_size).unwrap();
    assert_eq!(outcome.recovery.len(), 10);
    assert!(outcome.recovery.iter().all(|s| s.len() == 49_984));
    assert_eq!(outcome.restored.len(), 10);
    for i in 0..10 {
        assert_eq!(outcome.restored[i], &data[i * 49_984..(i + 1) * 49_984]);
    }
}

#[test]
fn round_trip_when_every_original_is_withheld() {
    let data = pattern(3 * 64);
    let shards = partition_shards(&data, 64, 3).unwrap();
    let outcome = run_trial(&shards, 3, 64).unwrap();
    assert_eq!(outcome.restored.concat(), data);
}

#[test]
fn recovery_shards_differ_from_originals() {
    let data = pattern(4 * 64);
    let shards = partition_shards(&data, 64, 4).unwrap();
    let outcome = run_trial(&shards, 2, 64).unwrap();
    assert_ne!(outcome.recovery[0].as_slice(), shards[0]);
    assert_ne!(outcome.recovery[1].as_slice(), shards[1]);
}

#[test]
fn encoding_is_deterministic() {
    let data = pattern(67 * 128);
    let first = partition_shards(&data, 128, 67).unwrap();
    let copy = data.clone();
    let second = partition_shards(&copy, 128, 67).unwrap();
    let a = run_trial(&first, 33, 128).unwrap();
    let b = run_trial(&second, 33, 128).unwrap();
    let c = run_trial(&first, 33, 128).unwrap();
    assert_eq!(a.recovery, b.recovery);
    assert_eq!(a.recovery, c.recovery);
}

#[test]
fn trial_rejects_odd_shard_size() {
    let data = pattern(6);
    let shards = partition_shards(&data, 3, 2).unwrap();
    assert_eq!(run_trial(&shards, 1, 3).err(), Some(RunError::EncodeRejected));
}

#[test]
fn configuration_runs_every_trial() {
    let data = pattern(4096);
    let timing = run_configuration(&data, 1000, 5, 2, 3).unwrap();
    assert_eq!(timing.trials, 3);
}

#[test]
fn configuration_with_short_buffer_is_skipped() {
    let data = pattern(1343);
    assert_eq!(run_configuration(&data, 10, 21, 10, 1).err(), Some(RunError::BufferTooShort));
}

#[test]
fn configuration_of_zero_bytes_cannot_be_partitioned() {
    let data = pattern(64);
    assert_eq!(
        run_configuration(&data, 0, 3, 1, 1).err(),
        Some(RunError::Partition(PartitionError::Indivisible))
    );
}

#[test]
fn average_of_trial_totals() {
    assert_eq!(average_nanos(300, 3), 100);
    assert_eq!(average_nanos(10, 3), 3);
    assert_eq!(average_nanos(0, 1), 0);
}

#[test]
fn byte_comparison() {
    assert!(bytes_equal(&[1, 2, 3], &[1, 2, 3]));
    assert!(!bytes_equal(&[1, 2, 3], &[1, 2, 4]));
    assert!(!bytes_equal(&[1, 2], &[1, 2, 3]));
    assert!(bytes_equal(&[], &[]));
}

#[test]
fn restored_check_accepts_only_the_withheld_prefix() {
    let data = pattern(4 * 64);
    let shards = partition_shards(&data, 64, 4).unwrap();
    let good = vec![(0usize, shards[0].to_vec()), (1usize, shards[1].to_vec())];
    assert!(check_restored(&good, &shards, 2));
    let swapped = vec![(1usize, shards[1].to_vec()), (0usize, shards[0].to_vec())];
    assert!(!check_restored(&swapped, &shards, 2));
    let mut corrupt = good.clone();
    corrupt[1].1[5] ^= 1;
    assert!(!check_restored(&corrupt, &shards, 2));
    assert!(!check_restored(&good[..1].to_vec(), &shards, 2));
    assert!(check_restored(&vec![], &shards, 0));
}

#[test]
fn random_data_has_requested_length() {
    assert_eq!(generate_random_data(0).len(), 0);
    assert_eq!(generate_random_data(1000).len(), 1000);
}

#[test]
fn layout_failures_skip_and_engine_failures_abort() {
    assert_eq!(disposition(RunError::BufferTooShort), Disposition::Skip);
    assert_eq!(disposition(RunError::Partition(PartitionError::Indivisible)), Disposition::Skip);
    assert_eq!(disposition(RunError::Partition(PartitionError::CountMismatch)), Disposition::Skip);
    assert_eq!(disposition(RunError::EncodeRejected), Disposition::Abort);
    assert_eq!(disposition(RunError::DecodeRejected), Disposition::Abort);
    assert_eq!(disposition(RunError::RestoredMismatch), Disposition::Abort);
}

#[test]
fn round_trip_for_each_benchmark_shard_configuration() {
    for &(n, r) in &[(21usize, 10usize), (67, 33), (201, 100), (667, 333)] {
        let plan = plan_shards(100_000, n);
        let data = pattern(plan.padded_size);
        let shards = partition_shards(&data, plan.shard_size, n).unwrap();
        let outcome = run_trial(&shards, r, plan.shard_size).unwrap();
        assert_eq!(outcome.recovery.len(), r);
        for i in 0..r {
            assert_eq!(outcome.restored[i], shards[i]);
        }
    }
}
