use flow_controller::admission::should_drop;
use flow_controller::checker::{FlowChecker, FlowControlConfig};
use flow_controller::ratio::{discard_ratio_after, RATIO_SCALE, START_RATIO};
use flow_controller::throttle::{Throttle, MAX_THROTTLE_SPEED, MIN_THROTTLE_SPEED};
use flow_controller::log2::LOG2_ONE;
use flow_controller::worker::{FlowInfo, FlowWorker, Msg};

const MB: u64 = 1024 * 1024;

fn config() -> FlowControlConfig {
    FlowControlConfig {
        enable: true,
        memtables_threshold: 5,
        l0_files_threshold: 20,
        soft_pending_compaction_bytes_limit: 1 << 30,
        hard_pending_compaction_bytes_limit: 1 << 40,
    }
}

fn worker(names: &[&str]) -> FlowWorker {
    let names: Vec<String> = names.iter().map(|n| n.to_string()).collect();
    FlowWorker::new(FlowChecker::new(&config(), names, 0))
}

fn flush(cf: &str, flush_bytes: u64, num_memtables: u64, num_l0_files: u64) -> FlowInfo {
    FlowInfo::Flush { cf: cf.to_string(), flush_bytes, num_memtables, num_l0_files }
}

fn l0(cf: &str, l0_bytes: u64, num_l0_files: u64) -> FlowInfo {
    FlowInfo::L0 { cf: cf.to_string(), l0_bytes, num_l0_files }
}

fn compaction(cf: &str, pending_bytes: u64) -> FlowInfo {
    FlowInfo::Compaction { cf: cf.to_string(), pending_bytes }
}

#[test]
fn no_throttling_below_thresholds() {
    let mut w = worker(&["default"]);
    let mut now = 0;
    for i in 0..1000u64 {
        now += 100;
        let info = match i % 3 {
            0 => flush("default", 4 * MB, 2, 3),
            1 => l0("default", 4 * MB, 3),
            _ => compaction("default", 0),
        };
        w.on_flow_info(info, now);
        if i % 10 == 0 {
            w.on_tick(now, 10 * MB);
        }
        assert!(w.checker.throttle.speed_limit.is_none());
        assert_eq!(w.checker.discard_ratio, 0);
        assert!(!should_drop(w.checker.discard_ratio));
    }
}

/// Ten seconds of 10 MiB/s foreground writes, then flushes that push L0 to
/// 25 files.
fn l0_spike(w: &mut FlowWorker) -> u64 {
    let mut now = 0;
    for _ in 0..10 {
        now += 1000;
        w.on_tick(now, 10 * MB);
    }
    for n in 1..=25u64 {
        now += 1000;
        w.on_flow_info(flush("default", 8 * MB, 1, n), now);
    }
    now
}

#[test]
fn initiate_on_l0_spike() {
    let mut w = worker(&["default"]);
    let now = l0_spike(&mut w);
    assert!(w.checker.throttle.speed_limit.is_none());
    let prod = w.checker.cf_checkers[0].short_term_l0_production_flow.get_avg();
    assert!(prod > 0);
    w.on_flow_info(l0("default", 8 * MB, 25), now + 100);
    assert_eq!(w.checker.throttle.speed_limit, Some(10 * MB));
    assert_eq!(w.checker.throttle.throttle_cf, Some(0));
    assert_eq!(w.checker.throttle.target_anchor, Some(25));
    assert_eq!(w.checker.throttle.l0_target_flow, prod);
}

#[test]
fn ratio_rises_in_log_domain() {
    let mut w = worker(&["default"]);
    let mut now = 0;
    // one sample below the soft limit clears the start-up latch
    w.on_flow_info(compaction("default", 1 << 20), now);
    assert!(!w.checker.cf_checkers[0].on_start_pending_bytes);
    let mut last = 0;
    for _ in 0..60 {
        now += 1000;
        w.on_flow_info(compaction("default", 1 << 35), now);
        assert!(w.checker.discard_ratio >= last);
        last = w.checker.discard_ratio;
    }
    // the window's average only reaches 35 with the last sample, so the
    // smoothed ratio still trails the raw ratio 0.5 a little
    let r = w.checker.discard_ratio as u64;
    assert!(r > 4_750_000 && r <= 5_000_000, "ratio {}", r);
    for _ in 0..20 {
        now += 1000;
        w.on_flow_info(compaction("default", 1 << 35), now);
    }
    let r = w.checker.discard_ratio as u64;
    assert!(r > 4_995_000 && r <= 5_000_000, "ratio {}", r);
}

#[test]
fn idle_release_raises_speed_once() {
    let mut w = worker(&["default"]);
    {
        let c = &mut w.checker.cf_checkers[0];
        c.long_term_num_l0_files.observe(3, 0);
        c.last_num_l0_files = 3;
        c.last_num_l0_files_from_flush = 3;
    }
    let speed = 50 * MB;
    w.checker.throttle = Throttle {
        speed_limit: Some(speed),
        throttle_cf: Some(0),
        l0_target_flow: 40 * MB,
        target_anchor: Some(25),
    };
    let mut now = 0;
    for _ in 0..9 {
        now += 1000;
        w.on_tick(now, 0);
        assert_eq!(w.checker.throttle.speed_limit, Some(speed));
    }
    now += 1000;
    w.on_tick(now, 0);
    assert_eq!(w.checker.throttle.speed_limit, Some(speed * 120 / 100));
    for _ in 0..9 {
        now += 1000;
        w.on_tick(now, 0);
        assert_eq!(w.checker.throttle.speed_limit, Some(speed * 120 / 100));
    }
}

#[test]
fn hard_cap_releases_throttle() {
    let mut w = worker(&["default"]);
    let speed = 190 * MB;
    w.checker.cf_checkers[0].on_start_l0_files = false;
    w.checker.write_flow_recorder.observe(speed, 0);
    w.checker.throttle = Throttle {
        speed_limit: Some(speed),
        throttle_cf: Some(0),
        l0_target_flow: 1_000_000_000,
        target_anchor: Some(25),
    };
    // 6 MB over 6 s: a production flow of 1 MB/s, far below the target
    w.checker.on_l0_incr(0, 6_000_000, 21, 6000);
    assert_eq!(w.checker.cf_checkers[0].short_term_l0_production_flow.get_recent(), 1_000_000);
    assert!(w.checker.throttle.speed_limit.is_none());
    assert_eq!(w.checker.throttle.throttle_cf, None);
    assert_eq!(w.checker.throttle.target_anchor, None);
}

#[test]
fn pid_increase_step() {
    let mut w = worker(&["default"]);
    let speed = 20 * MB;
    w.checker.cf_checkers[0].on_start_l0_files = false;
    w.checker.write_flow_recorder.observe(speed, 0);
    w.checker.throttle = Throttle {
        speed_limit: Some(speed),
        throttle_cf: Some(0),
        l0_target_flow: 2_000_000,
        target_anchor: Some(25),
    };
    w.checker.on_l0_incr(0, 6_000_000, 21, 6000);
    // 0.15 * (2_000_000 - 1_000_000) with a flat window
    assert_eq!(w.checker.throttle.speed_limit, Some(speed + 150_000));
}

#[test]
fn decrease_step_when_production_exceeds_target() {
    let mut w = worker(&["default"]);
    let speed = 20 * MB;
    w.checker.cf_checkers[0].on_start_l0_files = false;
    w.checker.throttle = Throttle {
        speed_limit: Some(speed),
        throttle_cf: Some(0),
        l0_target_flow: 500_000,
        target_anchor: Some(25),
    };
    w.checker.on_l0_incr(0, 6_000_000, 21, 6000);
    assert_eq!(w.checker.throttle.speed_limit, Some(speed * 98 / 100));
}

#[test]
fn steady_deficit_never_lowers_speed() {
    let mut w = worker(&["default"]);
    let mut speed = 20 * MB;
    w.checker.cf_checkers[0].on_start_l0_files = false;
    w.checker.throttle = Throttle {
        speed_limit: Some(speed),
        throttle_cf: Some(0),
        l0_target_flow: 3_000_000,
        target_anchor: Some(25),
    };
    let mut now = 0;
    for _ in 0..20 {
        now += 6000;
        w.checker.write_flow_recorder.observe(speed, now);
        w.checker.on_l0_incr(0, 12_000_000, 21, now);
        match w.checker.throttle.speed_limit {
            Some(v) => {
                assert!(v >= speed);
                speed = v;
            }
            None => break,
        }
    }
    assert!(speed > 20 * MB);
}

#[test]
fn disable_resets_state() {
    let mut w = worker(&["default"]);
    let now = l0_spike(&mut w);
    w.on_flow_info(l0("default", 8 * MB, 25), now + 100);
    w.checker.discard_ratio = 1234;
    assert!(w.checker.throttle.speed_limit.is_some());
    assert!(w.on_command(Msg::Disable));
    assert!(!w.enabled);
    assert!(w.checker.throttle.speed_limit.is_none());
    assert_eq!(w.checker.discard_ratio, 0);
    assert_eq!(w.checker.write_flow_recorder.len(), 0);
    assert!(w.on_command(Msg::Enable));
    assert!(w.enabled);
    assert!(!w.on_command(Msg::Close));
}

#[test]
fn speed_clamp_releases_above_max() {
    let mut w = worker(&["default"]);
    w.checker.cf_checkers[0].long_term_num_l0_files.observe(1, 0);
    w.checker.throttle = Throttle {
        speed_limit: Some(180 * MB),
        throttle_cf: Some(0),
        l0_target_flow: 0,
        target_anchor: Some(25),
    };
    for i in 1..=10u64 {
        w.on_tick(i * 1000, 0);
    }
    // 180 MiB/s * 1.2 is above 200 MiB/s
    assert!(w.checker.throttle.speed_limit.is_none());
    assert_eq!(w.checker.throttle.throttle_cf, None);
    assert!(MIN_THROTTLE_SPEED < MAX_THROTTLE_SPEED);
}

#[test]
fn start_up_latch_keeps_ratio_zero() {
    let mut w = worker(&["default"]);
    let mut pending: u64 = 1 << 39;
    let mut now = 0;
    for _ in 0..30 {
        now += 1000;
        w.on_flow_info(compaction("default", pending), now);
        pending -= pending / 50;
        assert_eq!(w.checker.discard_ratio, 0);
        assert!(w.checker.cf_checkers[0].on_start_pending_bytes);
    }
}

#[test]
fn throttle_cf_hysteresis() {
    let mut w = worker(&["a", "b"]);
    for c in w.checker.cf_checkers.iter_mut() {
        c.on_start_l0_files = false;
    }
    w.checker.cf_checkers[0].long_term_num_l0_files.observe(22, 0);
    w.checker.cf_checkers[0].last_num_l0_files = 22;
    w.checker.throttle = Throttle {
        speed_limit: Some(10 * MB),
        throttle_cf: Some(0),
        l0_target_flow: 1_000_000,
        target_anchor: Some(22),
    };
    w.on_flow_info(l0("b", MB, 26), 1000);
    assert_eq!(w.checker.throttle.throttle_cf, Some(0));
    w.on_flow_info(l0("b", MB, 27), 2000);
    assert_eq!(w.checker.throttle.throttle_cf, Some(1));
    assert_eq!(w.checker.throttle.target_anchor, Some(27));
}

#[test]
fn unknown_cf_is_ignored() {
    let mut w = worker(&["default"]);
    w.on_flow_info(flush("write", 8 * MB, 9, 40), 1000);
    w.on_flow_info(l0("write", 8 * MB, 40), 2000);
    assert!(w.checker.throttle.speed_limit.is_none());
    assert_eq!(w.checker.cf_checkers[0].last_num_l0_files, 0);
    assert_eq!(w.checker.cf_index(&"default".to_string()), Some(0));
    assert_eq!(w.checker.cf_index(&"write".to_string()), None);
}

#[test]
fn memtable_signal_initiates_and_steps() {
    let mut w = worker(&["default"]);
    for i in 1..=5u64 {
        w.on_tick(i * 1000, 8 * MB);
    }
    w.checker.cf_checkers[0].on_start_memtable = false;
    let mut now = 5000;
    for n in [6u64, 7, 8] {
        now += 100;
        w.checker.on_memtable_decrs(0, n, now);
    }
    // average 7 > 5: throttling starts from the write-flow percentile, then
    // a rising count lowers the speed by one step per sample
    assert!(w.checker.cf_checkers[0].init_speed);
    assert_eq!(w.checker.throttle.speed_limit, Some(8 * MB - 2 * MB));
    assert_eq!(w.checker.cf_checkers[0].memtable_debt, 2);
    now += 100;
    w.checker.on_memtable_decrs(0, 2, now);
    // the latest count is below the threshold: init_speed releases
    assert!(w.checker.throttle.speed_limit.is_none());
    assert_eq!(w.checker.cf_checkers[0].memtable_debt, 0);
}

#[test]
fn discard_ratio_formula() {
    let soft = 30 * LOG2_ONE;
    let hard = 40 * LOG2_ONE;
    let at = |x: u64| (x * LOG2_ONE) as u128;
    // below the soft limit
    assert_eq!(discard_ratio_after(777, at(29), 1, soft, hard), 0);
    // from 0 the raw ratio 0.5 is capped at 1%
    assert_eq!(discard_ratio_after(0, at(35), 1, soft, hard), START_RATIO as u32);
    // from 0 a small raw ratio is taken as it is: 0.001
    let tiny = (30 * LOG2_ONE + LOG2_ONE / 100) as u128;
    assert_eq!(discard_ratio_after(0, tiny, 1, soft, hard), 9_995);
    // smoothing: 0.6 * 0.01 + 0.4 * 0.5
    assert_eq!(discard_ratio_after(100_000, at(35), 1, soft, hard), 2_060_000);
    // at the hard limit the ratio tends to 1
    assert_eq!(discard_ratio_after(RATIO_SCALE as u32, at(40), 1, soft, hard), RATIO_SCALE as u32);
    // averages over several samples
    assert_eq!(discard_ratio_after(5_000_000, at(35) * 3, 3, soft, hard), 5_000_000);
}

#[test]
fn write_flow_over_zero_span_is_unbounded() {
    let mut w = worker(&["default"]);
    w.on_tick(0, 5);
    assert_eq!(w.checker.write_flow_recorder.get_recent(), u64::MAX);
    w.on_tick(2000, 5 * MB);
    assert_eq!(w.checker.write_flow_recorder.get_recent(), 5 * MB / 2);
    // a tick with no foreground bytes records nothing
    w.on_tick(3000, 0);
    assert_eq!(w.checker.write_flow_recorder.len(), 2);
    assert_eq!(w.checker.last_record_time, 3000);
}

#[test]
fn spare_ticks_reset_by_throttle_cf_events() {
    let mut w = worker(&["default", "write"]);
    w.checker.throttle.throttle_cf = Some(0);
    for i in 1..=5u64 {
        w.on_tick(i * 1000, 0);
    }
    assert_eq!(w.spare_ticks, 5);
    w.on_flow_info(compaction("write", 0), 5500);
    assert_eq!(w.spare_ticks, 5);
    w.on_flow_info(compaction("default", 0), 5600);
    assert_eq!(w.spare_ticks, 0);
    for i in 1..=10u64 {
        w.on_tick(6000 + i * 1000, 0);
    }
    assert_eq!(w.spare_ticks, 0);
}

#[test]
fn duplicate_cf_names_are_kept_once() {
    let names: Vec<String> = ["default", "write", "default"].iter().map(|n| n.to_string()).collect();
    let c = FlowChecker::new(&config(), names, 0);
    assert_eq!(c.cf_names, vec!["default".to_string(), "write".to_string()]);
    assert_eq!(c.cf_checkers.len(), 2);
}

#[test]
fn disabled_worker_discards_events() {
    let mut w = worker(&["default"]);
    assert!(w.on_command(Msg::Disable));
    w.on_flow_info(flush("default", 8 * MB, 9, 40), 6000);
    w.on_flow_info(l0("default", 8 * MB, 40), 7000);
    w.on_flow_info(compaction("default", 1 << 39), 8000);
    let c = &w.checker.cf_checkers[0];
    assert_eq!(c.last_num_l0_files, 0);
    assert_eq!(c.last_num_memtables.len(), 0);
    assert_eq!(c.long_term_pending_bytes.len(), 0);
    assert!(w.checker.throttle.speed_limit.is_none());
    assert!(w.on_command(Msg::Enable));
    w.on_flow_info(l0("default", 8 * MB, 40), 9000);
    assert_eq!(w.checker.cf_checkers[0].last_num_l0_files, 40);
}

#[test]
fn update_speed_limit_clamps() {
    let mut w = worker(&["default"]);
    w.checker.throttle.throttle_cf = Some(0);
    w.checker.throttle.target_anchor = Some(21);
    w.checker.update_speed_limit(Some(1));
    assert_eq!(w.checker.throttle.speed_limit, Some(MIN_THROTTLE_SPEED));
    w.checker.update_speed_limit(Some(MAX_THROTTLE_SPEED));
    assert_eq!(w.checker.throttle.speed_limit, Some(MAX_THROTTLE_SPEED));
    assert_eq!(w.checker.throttle.throttle_cf, Some(0));
    w.checker.discard_ratio = 77;
    w.checker.update_speed_limit(Some(MAX_THROTTLE_SPEED + 1));
    assert_eq!(w.checker.throttle.speed_limit, None);
    assert_eq!(w.checker.throttle.throttle_cf, None);
    assert_eq!(w.checker.throttle.target_anchor, None);
    assert_eq!(w.checker.discard_ratio, 77);
}
