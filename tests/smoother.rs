use flow_controller::log2::{log2_fixed, LOG2_ONE};
use flow_controller::smoother::{Smoother, Trend};

fn avg_f64<const CAP: usize>(s: &Smoother<CAP>) -> f64 {
    s.get_total() as f64 / s.len() as f64
}

#[test]
fn test_smoother() {
    let mut smoother = Smoother::<5>::new();
    smoother.observe(1, 0);
    smoother.observe(6, 0);
    smoother.observe(2, 0);
    smoother.observe(3, 0);
    smoother.observe(4, 0);
    smoother.observe(5, 0);
    smoother.observe(0, 0);

    assert_eq!(avg_f64(&smoother), 2.8);
    assert_eq!(smoother.get_avg(), 2);
    assert_eq!(smoother.get_recent(), 0);
    assert_eq!(smoother.get_max(), 5);
    assert_eq!(smoother.get_percentile_90(), 4);
    assert_eq!(smoother.trend(), Trend::NoTrend);

    let mut smoother = Smoother::<5>::new();
    smoother.observe(1, 0);
    smoother.observe(6, 0);
    smoother.observe(2, 0);
    smoother.observe(3, 0);
    smoother.observe(4, 0);
    smoother.observe(5, 0);
    smoother.observe(9, 0);
    assert_eq!(avg_f64(&smoother), 4.6);
    assert_eq!(smoother.get_avg(), 4);
    assert_eq!(smoother.get_recent() as f64, 9.0);
    assert_eq!(smoother.get_max() as f64, 9.0);
    assert_eq!(smoother.get_percentile_90() as f64, 5.0);
    assert_eq!(smoother.trend(), Trend::Increasing);
}

#[test]
fn smoother_capacity_and_total() {
    let mut s = Smoother::<3>::new();
    for (i, x) in [7u64, 1, 9, 4, 4, 10].iter().enumerate() {
        s.observe(*x, i as u64);
        assert!(s.len() <= 3);
    }
    assert_eq!(s.len(), 3);
    assert_eq!(s.get_total(), 18);
    assert_eq!(s.get_avg(), 6);
}

#[test]
fn smoother_empty_window() {
    let s = Smoother::<4>::new();
    assert_eq!(s.len(), 0);
    assert_eq!(s.get_recent(), 0);
    assert_eq!(s.get_avg(), 0);
    assert_eq!(s.get_max(), 0);
    assert_eq!(s.get_percentile_90(), 0);
    assert_eq!(s.slope(), 0);
    assert_eq!(s.trend(), Trend::NoTrend);
}

#[test]
fn smoother_stale_front_evicted() {
    let mut s = Smoother::<10>::new();
    s.observe(1, 0);
    s.observe(2, 1000);
    s.observe(3, 2000);
    s.observe(4, 300_500);
    assert_eq!(s.len(), 3);
    assert_eq!(s.get_total(), 9);
}

#[test]
fn smoother_stale_keeps_two_records() {
    let mut s = Smoother::<10>::new();
    s.observe(1, 0);
    s.observe(2, 400_000);
    assert_eq!(s.len(), 2);
    s.observe(3, 900_000);
    assert_eq!(s.len(), 2);
    assert_eq!(s.get_total(), 5);
}

#[test]
fn smoother_trend_tolerance() {
    let mut s = Smoother::<5>::new();
    for x in [1u64, 6, 2, 3, 4, 5, 0] {
        s.observe(x, 0);
    }
    assert_eq!(s.trend(), Trend::NoTrend);
    let mut s = Smoother::<5>::new();
    for x in [1u64, 6, 2, 3, 4, 5, 9] {
        s.observe(x, 0);
    }
    assert_eq!(s.trend(), Trend::Increasing);
    let mut s = Smoother::<4>::new();
    for x in [9u64, 8, 1, 2] {
        s.observe(x, 0);
    }
    assert_eq!(s.trend(), Trend::Decreasing);
}

#[test]
fn smoother_percentile_90_index() {
    let mut s = Smoother::<5>::new();
    for x in [0u64, 2, 3, 4, 5] {
        s.observe(x, 0);
    }
    assert_eq!(s.get_percentile_90(), 4);
    let mut s = Smoother::<20>::new();
    for x in (1u64..=11).rev() {
        s.observe(x, 0);
    }
    // index floor(10 * 0.9) = 9 of 1..=11
    assert_eq!(s.get_percentile_90(), 10);
}

#[test]
fn smoother_slope() {
    let mut s = Smoother::<10>::new();
    s.observe(10, 0);
    s.observe(20, 1000);
    s.observe(30, 2000);
    s.observe(40, 3000);
    // (70 - 30) / 2 / (3 s / 2) = 13.3.. per second
    assert_eq!(s.slope(), 13);
    let mut s = Smoother::<10>::new();
    s.observe(40, 0);
    s.observe(5, 500);
    s.observe(10, 1000);
    // odd length: the middle record is left out; (10 - 40) / 1 / 0.5 s
    assert_eq!(s.slope(), -60);
}

#[test]
fn fixed_point_log2() {
    assert_eq!(log2_fixed(0), 0);
    assert_eq!(log2_fixed(1), 0);
    assert_eq!(log2_fixed(2), LOG2_ONE);
    assert_eq!(log2_fixed(3), LOG2_ONE + LOG2_ONE / 2);
    assert_eq!(log2_fixed(1 << 35), 35 * LOG2_ONE);
    assert_eq!(log2_fixed(u64::MAX), 63 * LOG2_ONE + LOG2_ONE - 1);
}

#[test]
fn smoother_percentile_with_equal_samples() {
    let mut s = Smoother::<10>::new();
    for x in [5u64, 5, 5, 1] {
        s.observe(x, 0);
    }
    assert_eq!(s.get_percentile_90(), 5);
    assert_eq!(s.get_max(), 5);
}

#[test]
fn smoother_largest_samples() {
    let mut s = Smoother::<60>::new();
    for _ in 0..70 {
        s.observe(u64::MAX, 0);
    }
    assert_eq!(s.len(), 60);
    assert_eq!(s.get_total(), u64::MAX as u128 * 60);
    assert_eq!(s.get_avg(), u64::MAX);
    assert_eq!(s.get_max(), u64::MAX);
    assert_eq!(s.trend(), Trend::NoTrend);
}
