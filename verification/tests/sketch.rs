use hyperlog::estimator::Estimate;
use hyperlog::registers::ConfigError;
use hyperlog::{HyperLogLog, HyperLogLogPlusPlus};
use nanorand::Rng;
use std::collections::HashSet;
use std::hash::{Hash, Hasher};

/// Evaluates the formula that a sketch chose.
fn value(estimate: Estimate) -> f64 {
    match estimate {
        Estimate::LinearCounting { registers, zeros } => {
            let m = registers as f64;
            m * (m / zeros as f64).ln()
        }
        Estimate::HarmonicMean { registers, alpha, weighted_sum } => {
            let m = registers as f64;
            let a = alpha.num as f64 / alpha.den as f64;
            let z = weighted_sum as f64 / 18446744073709551616.0;
            a * m * m / z
        }
    }
}

#[test]
fn add_and_count_unique_elements() {
    let mut hll = HyperLogLog::new();
    for i in 0..10_000 {
        hll.add(&i);
    }

    let count = value(hll.estimate());
    assert!((count - 10_000 as f64).abs() < 10_000 as f64 * 0.05); // error within 5%
}

#[test]
fn count_with_duplicates() {
    let mut hll = HyperLogLog::new();
    for _ in 0..100 {
        for i in 0..10_000 {
            hll.add(&i);
        }
    }

    let count = value(hll.estimate());
    assert!((count - 10_000 as f64).abs() < 10_000 as f64 * 0.05); // error within 5%
}

#[test]
fn classic_compare_with_hashset() {
    let mut hll = HyperLogLog::new();
    let mut set = HashSet::new();

    for i in 0..10_000 {
        let item = format!("item_{}", i);
        hll.add(&item);
        set.insert(item);
    }

    let hll_count = value(hll.estimate());
    let set_count = set.len() as f64;
    assert!((hll_count - set_count).abs() < set_count * 0.05); // error within 5%
}

#[test]
fn classic_test_merge() {
    let mut hll1 = HyperLogLog::new();
    hll1.add(1);
    hll1.add(2);

    let mut hll2 = HyperLogLog::new();
    hll2.add(3);
    hll2.add(4);

    assert_eq!(hll1.merge(&hll2), Ok(()));

    assert_eq!(value(hll1.estimate()).round() as u32, 4);
}

#[test]
fn add_and_estimate_unique_elements() {
    let mut hll = HyperLogLog::new();
    for i in 0..10_000 {
        hll.add(&i);
    }

    let count = value(hll.estimate());
    assert!((count - 10_000 as f64).abs() < 10_000 as f64 * 0.05); // error within 5%
}

#[test]
fn estimate_with_duplicates() {
    let mut hll = HyperLogLog::new();
    for _ in 0..100 {
        for i in 0..10_000 {
            hll.add(&i);
        }
    }

    let count = value(hll.estimate());
    assert!((count - 10_000 as f64).abs() < 10_000 as f64 * 0.05); // error within 5%
}

#[test]
fn hll_compare_with_hashset() {
    let mut hll = HyperLogLog::new();
    let mut set = HashSet::new();

    for i in 0..10_000 {
        let item = format!("item_{}", i);
        hll.add(&item);
        set.insert(item);
    }

    let hll_count = value(hll.estimate());
    let set_count = set.len() as f64;
    assert!((hll_count - set_count).abs() < set_count * 0.05); // error within 5%
}

#[test]
fn hll_test_merge() {
    let mut hll1 = HyperLogLog::new();
    hll1.add(1);
    hll1.add(2);

    let mut hll2 = HyperLogLog::new();
    hll2.add(3);
    hll2.add(4);

    assert_eq!(hll1.merge(&hll2), Ok(()));

    assert_eq!(value(hll1.estimate()).round() as u32, 4);
}

#[test]
fn test_add_and_estimate() {
    let mut hllpp = HyperLogLogPlusPlus::new();
    for i in 0..1000 {
        hllpp.add(i);
    }

    let estimate = value(hllpp.estimate());
    assert!(
        (950..1050).contains(&(estimate as usize)),
        "Estimate out of expected range"
    );
}

#[test]
fn test_add_same_value_multiple_times() {
    let mut hllpp = HyperLogLogPlusPlus::new();
    for _ in 0..1000 {
        hllpp.add(500);
    }

    let estimate = value(hllpp.estimate());
    assert_eq!(
        estimate as usize, 1,
        "Estimate should be 1 for identical elements"
    );
}

#[test]
fn test_empty_estimate() {
    let hllpp = HyperLogLogPlusPlus::new();
    let estimate = value(hllpp.estimate());
    assert_eq!(estimate, 0.0, "Empty HLL++ should estimate to 0");
}

#[test]
fn test_random_values() {
    let mut hllpp = HyperLogLogPlusPlus::new();
    let mut rng = nanorand::tls_rng();
    let mut unique_values = std::collections::HashSet::new();

    for _ in 0..100_000 {
        let val = rng.generate_range(0..50_000);
        unique_values.insert(val);
        hllpp.add(val);
    }

    let estimate = value(hllpp.estimate());
    assert!(
        unique_values.len() as f64 * 0.9 <= estimate
            && estimate <= unique_values.len() as f64 * 1.1,
        "Estimate out of expected range"
    );
}

#[test]
fn test_large_number_of_values() {
    let mut hllpp = HyperLogLogPlusPlus::new();

    for i in 0..500_000 {
        hllpp.add(i);
    }

    let estimate = value(hllpp.estimate());
    assert!(
        (490_000..510_000).contains(&(estimate as usize)),
        "Estimate out of expected range"
    );
}

#[test]
fn plusplus_test_merge() {
    let mut hll1 = HyperLogLogPlusPlus::new();
    hll1.add(1);
    hll1.add(2);

    let mut hll2 = HyperLogLogPlusPlus::new();
    hll2.add(3);
    hll2.add(4);

    assert_eq!(hll1.merge(&hll2), Ok(()));

    assert_eq!(value(hll1.estimate()).round() as u32, 4);
}

#[test]
fn empty_classic_sketch_estimates_zero() {
    let sketch = HyperLogLog::with_precision(14);
    assert_eq!(sketch.registers.len(), 16384);
    assert!(sketch.registers.iter().all(|r| *r == 0));
    assert_eq!(
        sketch.estimate(),
        Estimate::LinearCounting { registers: 16384, zeros: 16384 }
    );
    assert_eq!(value(sketch.estimate()), 0.0);
    assert_eq!(value(HyperLogLog::new().estimate()), 0.0);
    assert_eq!(value(HyperLogLog::default().estimate()), 0.0);
}

#[test]
fn new_sketch_has_default_size() {
    assert_eq!(hyperlog::P, 20);
    assert_eq!(hyperlog::M, 1 << 20);
    assert_eq!(HyperLogLog::new().registers.len(), hyperlog::M);
    assert_eq!(HyperLogLogPlusPlus::new().registers.len(), hyperlog::M);
    assert_eq!(HyperLogLogPlusPlus::with_precision(4).registers, vec![0u8; 16]);
}

#[test]
fn thousand_users_scenario() {
    let mut first = HyperLogLog::with_precision(14);
    for i in 1..=1000 {
        first.add(format!("user-{}", i));
    }
    let once = value(first.estimate());
    assert!(950.0 <= once && once <= 1050.0, "estimate {}", once);

    let before = first.registers.clone();
    for i in 1..=1000 {
        first.add(format!("user-{}", i));
    }
    assert_eq!(first.registers, before);
    assert_eq!(value(first.estimate()), once);

    let mut second = HyperLogLog::with_precision(14);
    for i in 1001..=2000 {
        second.add(format!("user-{}", i));
    }
    assert_eq!(first.merge(&second), Ok(()));
    let both = value(first.estimate());
    assert!(1900.0 <= both && both <= 2100.0, "estimate {}", both);
}

#[test]
fn duplicates_leave_registers_unchanged() {
    let mut once = HyperLogLog::with_precision(10);
    once.add("key");
    let mut often = HyperLogLog::with_precision(10);
    for _ in 0..50 {
        often.add("key");
    }
    assert_eq!(once.registers, often.registers);
    assert_eq!(once.registers.iter().filter(|r| **r != 0).count(), 1);

    let mut lanes_once = HyperLogLogPlusPlus::with_precision(10);
    lanes_once.add_hash(0xdead_beef_0123_4567);
    let mut lanes_often = lanes_once.clone();
    for _ in 0..50 {
        lanes_often.add_hash(0xdead_beef_0123_4567);
    }
    assert_eq!(lanes_once.registers, lanes_often.registers);
}

#[test]
fn accuracy_over_many_trials() {
    let trials = 20;
    let n = 10_000;
    let mut within = 0;
    let mut total_error = 0.0;
    for trial in 0..trials {
        let mut sketch = HyperLogLog::with_precision(14);
        for i in 0..n {
            sketch.add(format!("trial-{}-key-{}", trial, i));
        }
        let error = (value(sketch.estimate()) - n as f64).abs() / n as f64;
        total_error += error;
        if error < 0.05 {
            within += 1;
        }
    }
    assert!(within >= trials - 1, "{} of {} trials within 5%", within, trials);
    assert!(total_error / (trials as f64) < 0.02);
}

#[test]
fn accuracy_beyond_the_small_range() {
    let n = 200_000;
    let mut sketch = HyperLogLog::with_precision(14);
    for i in 0..n {
        sketch.add(format!("visitor-{}", i));
    }
    let estimate = sketch.estimate();
    assert!(matches!(estimate, Estimate::HarmonicMean { .. }));
    let error = (value(estimate) - n as f64).abs() / n as f64;
    assert!(error < 0.05, "error {}", error);
}

#[test]
fn merge_takes_the_larger_register() {
    let mut a = HyperLogLog::from_registers(vec![0, 5, 2, 7]).unwrap();
    let b = HyperLogLog::from_registers(vec![1, 3, 2, 9]).unwrap();
    assert_eq!(a.merge(&b), Ok(()));
    assert_eq!(a.registers, vec![1, 5, 2, 9]);
}

#[test]
fn merge_is_commutative_associative_idempotent() {
    let a = HyperLogLogPlusPlus::from_registers(vec![0, 5, 2, 7, 1, 1, 0, 3]).unwrap();
    let b = HyperLogLogPlusPlus::from_registers(vec![1, 3, 2, 9, 0, 2, 0, 3]).unwrap();
    let c = HyperLogLogPlusPlus::from_registers(vec![4, 0, 1, 8, 0, 0, 6, 2]).unwrap();

    let mut ab = a.clone();
    ab.merge(&b).unwrap();
    let mut ba = b.clone();
    ba.merge(&a).unwrap();
    assert_eq!(ab.registers, ba.registers);

    let mut ab_c = ab.clone();
    ab_c.merge(&c).unwrap();
    let mut bc = b.clone();
    bc.merge(&c).unwrap();
    let mut a_bc = a.clone();
    a_bc.merge(&bc).unwrap();
    assert_eq!(ab_c.registers, a_bc.registers);
    assert_eq!(ab_c.registers, vec![4, 5, 2, 9, 1, 2, 6, 3]);

    let mut aa = a.clone();
    aa.merge(&a).unwrap();
    assert_eq!(aa.registers, a.registers);
}

#[test]
fn merge_rejects_another_size() {
    let mut small = HyperLogLog::with_precision(4);
    small.add_hash(3);
    let before = small.registers.clone();
    let large = HyperLogLog::with_precision(5);
    assert_eq!(
        small.merge(&large),
        Err(ConfigError::ShapeMismatch { expected: 16, found: 32 })
    );
    assert_eq!(small.registers, before);

    let mut lanes = HyperLogLogPlusPlus::with_precision(5);
    let other = HyperLogLogPlusPlus::with_precision(4);
    assert_eq!(
        lanes.merge(&other),
        Err(ConfigError::ShapeMismatch { expected: 32, found: 16 })
    );
}

#[test]
fn merged_estimate_is_not_below_its_parts() {
    let mut a = HyperLogLog::with_precision(12);
    let mut b = HyperLogLog::with_precision(12);
    for i in 0..3000 {
        a.add(format!("left-{}", i));
        b.add(format!("right-{}", i));
    }
    let left = value(a.estimate());
    let right = value(b.estimate());
    a.merge(&b).unwrap();
    let both = value(a.estimate());
    assert!(both >= left && both >= right);
}

#[test]
fn from_registers_wants_a_power_of_two() {
    assert!(HyperLogLog::from_registers(vec![]).is_none());
    assert!(HyperLogLog::from_registers(vec![0]).is_none());
    assert!(HyperLogLog::from_registers(vec![0; 3]).is_none());
    assert!(HyperLogLog::from_registers(vec![0; 2]).is_some());
    assert!(HyperLogLogPlusPlus::from_registers(vec![9; 48]).is_none());
    let kept = HyperLogLogPlusPlus::from_registers(vec![9; 64]).unwrap();
    assert_eq!(kept.registers, vec![9; 64]);
}

#[test]
fn add_goes_through_the_sea_hasher() {
    let key = "user-42";
    let mut hasher = seahash::SeaHasher::new();
    key.hash(&mut hasher);
    let hash = hasher.finish();

    let mut by_key = HyperLogLog::with_precision(14);
    by_key.add(key);
    let mut by_hash = HyperLogLog::with_precision(14);
    by_hash.add_hash(hash);
    assert_eq!(by_key.registers, by_hash.registers);

    let mut lanes_by_key = HyperLogLogPlusPlus::with_precision(14);
    lanes_by_key.add(key);
    let mut lanes_by_hash = HyperLogLogPlusPlus::with_precision(14);
    lanes_by_hash.add_hash(hash);
    assert_eq!(lanes_by_key.registers, lanes_by_hash.registers);

    let mut other = HyperLogLog::with_precision(14);
    other.add("user-43");
    assert_ne!(by_key.registers, other.registers);
}

#[test]
fn add_hash_sets_the_expected_register() {
    let mut classic = HyperLogLog::with_precision(4);
    // index 0b0101, field 1: 59 leading zeros in 60 bits
    classic.add_hash(0x15);
    let mut expected = vec![0u8; 16];
    expected[5] = 60;
    assert_eq!(classic.registers, expected);
    // a lower rank at the same index changes nothing
    classic.add_hash(0xffff_ffff_ffff_fff5);
    assert_eq!(classic.registers, expected);
    // a field of zeros has the highest rank
    classic.add_hash(0x5);
    expected[5] = 61;
    assert_eq!(classic.registers, expected);

    let mut lanes = HyperLogLogPlusPlus::with_precision(4);
    // low lane 0x0000_0123: index 3, field 0x12; high lane 0x0000_0040: field 4
    lanes.add_hash(0x0000_0040_0000_0123);
    let mut expected = vec![0u8; 16];
    expected[3] = 26;
    assert_eq!(lanes.registers, expected);
}

#[test]
fn merge_is_the_sketch_of_both_streams() {
    let mut left = HyperLogLog::with_precision(10);
    let mut right = HyperLogLog::with_precision(10);
    let mut both = HyperLogLog::with_precision(10);
    let mut lanes_left = HyperLogLogPlusPlus::with_precision(10);
    let mut lanes_right = HyperLogLogPlusPlus::with_precision(10);
    let mut lanes_both = HyperLogLogPlusPlus::with_precision(10);
    for i in 0..4000 {
        left.add(i);
        lanes_left.add(i);
        both.add(i);
        lanes_both.add(i);
    }
    for i in 2000..9000 {
        right.add(i);
        lanes_right.add(i);
        both.add(i);
        lanes_both.add(i);
    }
    left.merge(&right).unwrap();
    lanes_left.merge(&lanes_right).unwrap();
    assert_eq!(left.registers, both.registers);
    assert_eq!(lanes_left.registers, lanes_both.registers);
    assert_ne!(left.registers, lanes_left.registers);
}

#[test]
fn the_order_of_keys_does_not_matter() {
    let mut forward = HyperLogLog::with_precision(8);
    let mut backward = HyperLogLog::with_precision(8);
    for i in 0..1000 {
        forward.add(i);
        backward.add(999 - i);
    }
    assert_eq!(forward.registers, backward.registers);
}

#[test]
fn registers_hold_the_highest_rank_seen() {
    let mut sketch = HyperLogLog::with_precision(2);
    // all four hashes fall on register 1; their fields are 1, 4, 2 and 4
    for hash in [0b1_01u64, 0b100_01, 0b10_01, 0b100_01] {
        sketch.add_hash(hash);
    }
    // the highest rank is that of the smallest field: 62 - 1 + 1
    assert_eq!(sketch.registers, vec![0, 62, 0, 0]);
}
