use brahmaputra::select_partition::select_partition;
use brahmaputra::simple_random::simple_random;

#[test]
fn select_partition_is_deterministic_across_calls() {
    for key in ["user-42", "", "sudeep key", "héllo"] {
        let first = select_partition(key.to_string(), 5);
        for _ in 0..10 {
            assert_eq!(select_partition(key.to_string(), 5), first);
        }
    }
}

#[test]
fn select_partition_stays_in_one_based_range() {
    for key in ["a", "b", "user-42", "loggers", "", "another key"] {
        for n in [1u64, 2, 3, 5, 7, 100, 4_294_967_295] {
            let p = select_partition(key.to_string(), n);
            assert!(1 <= p as u64 && p as u64 <= n);
        }
    }
}

#[test]
fn select_partition_of_one_is_always_one() {
    for key in ["x", "y", "z"] {
        assert_eq!(select_partition(key.to_string(), 1), 1);
    }
}

#[test]
fn simple_random_exact_values() {
    // one linear congruential step, spelled out:
    // ((1664525 * seed + 1013904223) mod 2^32) mod 2^31 mod pool
    assert_eq!(simple_random(0, 7), 3);
    assert_eq!(simple_random(1, 5), 3);
    assert_eq!(simple_random(42, 100), 73);
    assert_eq!(simple_random(u32::MAX, 13), 2);
}

#[test]
fn simple_random_stays_below_pool_size() {
    for seed in [0u32, 1, 99, 12345, u32::MAX] {
        for pool in [1u32, 2, 3, 10, 1000, u32::MAX] {
            assert!(simple_random(seed, pool) < pool);
        }
    }
}

#[test]
fn simple_random_of_pool_one_is_zero() {
    for seed in [0u32, 7, 1_000_000] {
        assert_eq!(simple_random(seed, 1), 0);
    }
}
