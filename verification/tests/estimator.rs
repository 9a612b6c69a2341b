use hyperloglog::sketch::{Error, Estimate, HyperLogLog};

/// The floating-point value an `Estimate` stands for.
fn eval(e: Estimate) -> f64 {
    match e {
        Estimate::LinearCounting { register_count, zero_count } => {
            let m = register_count as f64;
            m * (m / zero_count as f64).ln()
        }
        Estimate::Raw { register_count, denom } => {
            let m = register_count as f64;
            let alpha = 0.7213 / (1.0 + 1.079 / m);
            let z = denom as f64 / 2.0_f64.powi(64);
            alpha * m * m / z
        }
    }
}

/// Exact small-range test, mirroring the estimator's branch rule.
fn small_range(m: u128, denom: u128) -> bool {
    14426 * m * m * (1u128 << 64) <= 5 * (10000 * m + 10790) * denom
}

#[test]
fn new_rejects_invalid_precision() {
    assert_eq!(HyperLogLog::new(0).err(), Some(Error::InvalidPrecision));
    assert_eq!(HyperLogLog::new(17).err(), Some(Error::InvalidPrecision));
    assert_eq!(HyperLogLog::new(100).err(), Some(Error::InvalidPrecision));
    assert!(HyperLogLog::new(1).is_ok());
    assert!(HyperLogLog::new(10).is_ok());
    assert!(HyperLogLog::new(16).is_ok());
}

#[test]
fn fresh_sketch_estimates_zero() {
    let sketch = HyperLogLog::new(10).unwrap();
    let e = sketch.estimate();
    assert_eq!(e, Estimate::LinearCounting { register_count: 1024, zero_count: 1024 });
    assert_eq!(eval(e), 0.0);
}

#[test]
fn estimate_is_finite_and_non_negative() {
    for n in [0usize, 1, 10, 100, 5000, 100000] {
        let mut sketch = HyperLogLog::new(10).unwrap();
        for i in 0..n {
            sketch.add(format!("element-{}", i).as_bytes());
        }
        let v = eval(sketch.estimate());
        assert!(v.is_finite());
        assert!(v >= 0.0);
    }
}

#[test]
fn duplicates_do_not_inflate_the_estimate() {
    let mut sketch = HyperLogLog::new(10).unwrap();
    for item in ["apple", "banana", "cherry", "date", "apple", "banana"] {
        sketch.add(item.as_bytes());
    }
    let v = eval(sketch.estimate());
    assert!(v >= 3.0, "estimate {} too low for 4 distinct items", v);
    assert!(v <= 6.0, "estimate {} too high for 4 distinct items", v);
}

#[test]
fn adding_twice_equals_adding_once() {
    let mut once = HyperLogLog::new(10).unwrap();
    once.add(b"apple");
    let mut twice = HyperLogLog::new(10).unwrap();
    twice.add(b"apple");
    twice.add(b"apple");
    assert_eq!(once.zero_count(), twice.zero_count());
    assert_eq!(once.harmonic_denominator(), twice.harmonic_denominator());
    assert_eq!(once.estimate(), twice.estimate());
    for i in 0..once.register_count() {
        assert_eq!(once.register(i), twice.register(i));
    }
}

#[test]
fn insertion_order_cannot_be_observed() {
    let forward = ["a", "b", "c", "d", "e", "a", "b"];
    let shuffled = ["b", "a", "e", "b", "d", "c", "a"];
    let mut s1 = HyperLogLog::new(10).unwrap();
    for item in forward {
        s1.add(item.as_bytes());
    }
    let mut s2 = HyperLogLog::new(10).unwrap();
    for item in shuffled {
        s2.add(item.as_bytes());
    }
    for i in 0..s1.register_count() {
        assert_eq!(s1.register(i), s2.register(i));
    }
    assert_eq!(s1.estimate(), s2.estimate());
}

#[test]
fn registers_never_decrease() {
    let mut sketch = HyperLogLog::new(8).unwrap();
    let m = sketch.register_count();
    let mut previous: Vec<u8> = vec![0; m];
    for i in 0..500usize {
        sketch.add(format!("item-{}", i).as_bytes());
        for j in 0..m {
            let now = sketch.register(j);
            assert!(now >= previous[j]);
            previous[j] = now;
        }
    }
}

#[test]
fn estimate_is_deterministic() {
    let mut sketch = HyperLogLog::new(10).unwrap();
    for item in ["x", "y", "z"] {
        sketch.add(item.as_bytes());
    }
    assert_eq!(sketch.estimate(), sketch.estimate());
}

#[test]
fn empty_byte_sequence_is_absorbed() {
    let mut sketch = HyperLogLog::new(10).unwrap();
    sketch.add(b"");
    assert_eq!(sketch.zero_count(), 1023);
}

#[test]
fn different_items_reach_different_registers() {
    let mut sketch = HyperLogLog::new(10).unwrap();
    sketch.add(b"a");
    sketch.add(b"b");
    assert_eq!(sketch.zero_count(), 1022);
}

#[test]
fn rank_has_the_documented_values() {
    // All remaining bits zero: the rank saturates at (64 - bits) + 1.
    assert_eq!(HyperLogLog::count_leading_zeros(0, 10), 55);
    assert_eq!(HyperLogLog::count_leading_zeros(0, 1), 64);
    // Topmost remaining bit set: rank 1.
    assert_eq!(HyperLogLog::count_leading_zeros(u64::MAX, 10), 1);
    assert_eq!(HyperLogLog::count_leading_zeros(1u64 << 53, 10), 1);
    // Hash 1 with 10 index bits: 53 leading zeros remain, rank 54.
    assert_eq!(HyperLogLog::count_leading_zeros(1, 10), 54);
}

#[test]
fn accuracy_within_the_expected_band() {
    // Relative standard error for 1024 registers is about 1.04 / 32, so three
    // standard deviations is roughly ten percent.
    let mut sketch = HyperLogLog::new(10).unwrap();
    let n = 1000usize;
    for i in 0..n {
        sketch.add(format!("element-{}", i).as_bytes());
    }
    let v = eval(sketch.estimate());
    let relative_error = (v - n as f64).abs() / n as f64;
    assert!(relative_error <= 0.10, "relative error {} above the band", relative_error);
}

#[test]
fn branch_selection_follows_the_inclusive_boundary() {
    // With 16 registers the raw estimate crosses 2.5 * m quickly; at every
    // step the variant must match the exact inequality, boundary included.
    let mut sketch = HyperLogLog::new(4).unwrap();
    let m = sketch.register_count() as u128;
    let mut crossed = false;
    for i in 0..200usize {
        sketch.add(format!("item-{}", i).as_bytes());
        let denom = sketch.harmonic_denominator();
        let zeros = sketch.zero_count();
        let e = sketch.estimate();
        if small_range(m, denom) && zeros > 0 {
            assert!(matches!(e, Estimate::LinearCounting { .. }));
        } else {
            assert!(matches!(e, Estimate::Raw { .. }));
            if !crossed {
                crossed = true;
                // At the crossover the two formulas must agree to within the
                // estimator's own noise: no discontinuity beyond it.
                let raw = eval(e);
                if zeros > 0 {
                    let lc = eval(Estimate::LinearCounting {
                        register_count: m as u64,
                        zero_count: zeros as u64,
                    });
                    let gap = (raw - lc).abs() / raw;
                    assert!(gap <= 0.5, "discontinuity {} at the switch", gap);
                }
            }
        }
    }
    assert!(crossed, "the raw regime was never reached");
}
