use shard_bench::planner::{
    calculate_padded_size, checked_padded_size, max_padded_size, plan_shards, ShardPlan,
};

#[test]
fn plan_one_megabyte_over_21_shards() {
    let plan = plan_shards(1_048_576, 21);
    assert_eq!(plan, ShardPlan { shard_size: 49_984, padded_size: 1_049_664 });
    assert_eq!(calculate_padded_size(1_048_576, 21), 1_049_664);
}

#[test]
fn plan_tiny_input_pads_to_one_alignment_unit() {
    let plan = plan_shards(10, 21);
    assert_eq!(plan.shard_size, 64);
    assert_eq!(plan.padded_size, 1344);
}

#[test]
fn plan_exact_multiple_needs_no_padding() {
    assert_eq!(plan_shards(64 * 4, 4), ShardPlan { shard_size: 64, padded_size: 256 });
    assert_eq!(plan_shards(1, 1), ShardPlan { shard_size: 64, padded_size: 64 });
    assert_eq!(plan_shards(65, 1), ShardPlan { shard_size: 128, padded_size: 128 });
}

#[test]
fn plan_zero_bytes_gives_empty_shards() {
    assert_eq!(plan_shards(0, 7), ShardPlan { shard_size: 0, padded_size: 0 });
}

#[test]
fn padding_invariant_on_the_benchmark_matrix() {
    let sizes = [1usize, 10, 1000, 1 << 20, 1 << 30, 2 << 30];
    let counts = [1usize, 2, 21, 67, 201, 667];
    for &s in &sizes {
        for &n in &counts {
            let padded = calculate_padded_size(s, n);
            assert_eq!(padded % n, 0);
            assert_eq!((padded / n) % 64, 0);
            assert!(padded >= s);
            assert!(padded / n - (s + n - 1) / n < 64);
        }
    }
}

#[test]
fn max_padded_size_covers_every_configuration() {
    let sizes = vec![1 << 20, 1 << 30, 2 << 30];
    let configs = vec![(21, 10), (67, 33), (201, 100), (667, 333)];
    let max = max_padded_size(&sizes, &configs);
    let mut expected = 0;
    for &s in &sizes {
        for &(n, _) in &configs {
            expected = expected.max(calculate_padded_size(s, n));
        }
    }
    assert_eq!(max, expected);
    assert_eq!(max, calculate_padded_size(2 << 30, 667));
    assert_eq!(max_padded_size(&vec![], &configs), 0);
    assert_eq!(max_padded_size(&sizes, &vec![]), 0);
}

#[test]
fn checked_padded_size_reports_overflow_and_zero_shards() {
    assert_eq!(checked_padded_size(1_048_576, 21), Some(1_049_664));
    assert_eq!(checked_padded_size(10, 21), Some(1344));
    assert_eq!(checked_padded_size(0, 5), Some(0));
    assert_eq!(checked_padded_size(100, 0), None);
    assert_eq!(checked_padded_size(usize::MAX, 1), None);
    assert_eq!(checked_padded_size(1, usize::MAX), None);
    assert_eq!(checked_padded_size(usize::MAX - 63, 1), Some(usize::MAX - 63));
}
