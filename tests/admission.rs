use flow_controller::admission::should_drop;
use flow_controller::ratio::RATIO_SCALE;

#[test]
fn should_drop_edges() {
    for _ in 0..10_000 {
        assert!(!should_drop(0));
        assert!(should_drop(RATIO_SCALE as u32));
        assert!(should_drop(u32::MAX));
    }
}

#[test]
fn should_drop_frequency_matches_ratio() {
    let trials = 200_000;
    for ratio in [1_000_000u32, 5_000_000, 9_000_000] {
        let drops = (0..trials).filter(|_| should_drop(ratio)).count();
        let expected = trials as f64 * ratio as f64 / RATIO_SCALE as f64;
        let tolerance = 5.0 * (expected * (1.0 - ratio as f64 / RATIO_SCALE as f64)).sqrt();
        assert!((drops as f64 - expected).abs() < tolerance, "ratio {} drops {}", ratio, drops);
    }
}
