use loadwatch::estimator::ExponentialWeightedAverage;
use loadwatch::fixed::{decay_factor, SCALE};

const ALPHA: i64 = 100_000;
const BETA: i64 = 100_000;

#[test]
fn decay_factor_known_values() {
    // One time unit: the fixed-point exp(-1/3).
    assert_eq!(decay_factor(1), 716_531);
    assert_eq!(decay_factor(2), 513_416);
    // Three units, one whole decay weight: exp(-1) up to rounding.
    assert_eq!(decay_factor(3), 367_878);
    assert_eq!(decay_factor(10), 35_673);
    // At zero elapsed time nothing has decayed.
    assert_eq!(decay_factor(0), 1_000_000);
}

#[test]
fn decay_factor_monotone_sequence() {
    let mut prev: i64 = SCALE;
    for elapsed in 1..200u64 {
        let d = decay_factor(elapsed);
        assert!(d <= prev);
        assert!(0 <= d && d <= SCALE);
        prev = d;
    }
    // Far in the future everything has decayed away.
    assert_eq!(decay_factor(41), 0);
    assert_eq!(decay_factor(200), 0);
}

#[test]
fn fresh_estimator_reads_zero() {
    let e = ExponentialWeightedAverage::new(ALPHA, BETA, 100 * SCALE, 5);
    assert_eq!(e.raw_estimate(), 0);
    assert_eq!(e.raw_trend(), 0);
    assert_eq!(e.get_estimate(5), 0);
    assert_eq!(e.get_estimate(1_000), 0);
}

#[test]
fn update_follows_smoothing_formula() {
    // alpha = 0.1: a single sample of 350% lands at 35%.
    let mut e = ExponentialWeightedAverage::new(ALPHA, BETA, 400_000_000, 100);
    e.update(350_000_000, 100);
    assert_eq!(e.raw_estimate(), 35_000_000);
    assert_eq!(e.raw_trend(), 3_500_000);
    // Read immediately: the minimum one-unit decay already applies.
    assert_eq!(e.get_estimate(100), 25_078_585);
    assert_eq!(e.get_estimate(101), 25_078_585);
}

#[test]
fn clamping_holds_estimate_at_ceiling() {
    // Samples far above the ceiling are absorbed, never stored.
    let ceiling: i64 = 100_000_000;
    let mut e = ExponentialWeightedAverage::new(ALPHA, BETA, ceiling, 0);
    e.update(10_000_000_000, 0);
    assert_eq!(e.raw_estimate(), ceiling);
    e.update(10_000_000_000, 0);
    assert_eq!(e.raw_estimate(), ceiling);
    // The decayed reading never exceeds ceiling * decay(1) / SCALE.
    let bound = (ceiling as i128 * decay_factor(1) as i128 / SCALE as i128) as i64;
    assert_eq!(bound, 71_653_100);
    assert!(e.get_estimate(0) <= bound);
    assert_eq!(e.get_estimate(0), bound);
}

#[test]
fn reads_only_shrink_with_time() {
    let mut e = ExponentialWeightedAverage::new(ALPHA, BETA, 400_000_000, 100);
    e.update(350_000_000, 100);
    let r1 = e.get_estimate(101);
    let r2 = e.get_estimate(110);
    let r3 = e.get_estimate(200);
    assert_eq!(r1, 25_078_585);
    assert_eq!(r2, 1_248_555);
    assert_eq!(r3, 0);
    assert!(r2 <= r1);
    assert!(r3 <= r2);
}

#[test]
fn rising_samples_keep_trend_nonnegative() {
    let mut e = ExponentialWeightedAverage::new(ALPHA, BETA, 400_000_000, 0);
    let samples: [i64; 5] = [10_000_000, 20_000_000, 30_000_000, 40_000_000, 50_000_000];
    let expected_trends: [i64; 5] = [100_000, 289_000, 556_210, 891_136, 1_283_658];
    for (i, (&v, &t)) in samples.iter().zip(expected_trends.iter()).enumerate() {
        e.update(v, i as u64);
        assert!(e.raw_trend() >= 0);
        assert_eq!(e.raw_trend(), t);
    }
}

#[test]
fn constant_samples_converge() {
    let target: i64 = 100_000_000;
    let mut e = ExponentialWeightedAverage::new(ALPHA, BETA, 400_000_000, 0);
    for i in 0..200u64 {
        e.update(target, i);
    }
    assert!((e.raw_estimate() - target).abs() <= 5_000);
    assert!(e.raw_trend().abs() <= 2_000);
}

#[test]
fn negative_samples_are_accepted() {
    let mut e = ExponentialWeightedAverage::new(ALPHA, BETA, SCALE, 0);
    e.update(-1_000_000, 0);
    assert_eq!(e.raw_estimate(), -100_000);
    assert_eq!(e.raw_trend(), -10_000);
    // Rounding is toward negative infinity throughout.
    assert_eq!(e.get_estimate(0), -71_654);
}
