//! The speed-limit decisions of the flow checker, as functions of the
//! throttle state and the statistics they read.
//!
//! Speeds are in bytes per second; `None` stands for "unlimited".

use crate::checker::CfFlowChecker;
use crate::smoother::{
    avg_above, avg_below, avg_floor, max_sample, percentile_90_of, recent_of, slope_of,
    sum_samples,
};
use vstd::prelude::*;

verus! {

/// Percent by which a release step raises the speed limit.
pub const LIMIT_UP_PERCENT: u64 = 4;

/// Percent by which a decrease step lowers the speed limit.
pub const LIMIT_DOWN_PERCENT: u64 = 2;

/// Lowest speed limit ever installed.
pub const MIN_THROTTLE_SPEED: u64 = 16 * 1024;

/// Speed limits above this release throttling altogether.
pub const MAX_THROTTLE_SPEED: u64 = 200 * 1024 * 1024;

/// Step of the memtable signal, in bytes per second.
pub const MEMTABLE_SPEED_STEP: u64 = 1024 * 1024;

/// Extra L0 files another CF needs before it takes over throttling.
pub const THROTTLE_CF_MARGIN: u64 = 4;

/// Extra L0 files before the target flow is lowered again.
pub const TARGET_REFRESH_MARGIN: u64 = 3;

/// The speed-limit side of the controller's state.
#[derive(Clone, Copy, PartialEq, Eq, Structural, Debug)]
pub struct Throttle {
    /// The installed speed limit; `None` is unlimited.
    pub speed_limit: Option<u64>,
    /// The CF whose statistics drive the speed limit.
    pub throttle_cf: Option<usize>,
    /// The L0 production flow the controller tries to hold.
    pub l0_target_flow: u64,
    /// Number of L0 files when the target flow was last anchored.
    pub target_anchor: Option<u64>,
}

/// The state after proposing the speed limit `proposed` (`None`:
/// unlimited): it is raised to `MIN_THROTTLE_SPEED`, and anything above
/// `MAX_THROTTLE_SPEED` releases throttling, clearing the throttle CF and the
/// target anchor.
pub open spec fn applied(t: Throttle, proposed: Option<u64>) -> Throttle {
    match proposed {
        Some(v) if (if v < MIN_THROTTLE_SPEED { MIN_THROTTLE_SPEED } else { v })
            <= MAX_THROTTLE_SPEED => Throttle {
            speed_limit: Some(if v < MIN_THROTTLE_SPEED { MIN_THROTTLE_SPEED } else { v }),
            ..t
        },
        _ => Throttle { speed_limit: None, throttle_cf: None, target_anchor: None, ..t },
    }
}

/// The speed limit that throttling starts from: the 90th percentile of the
/// recorded foreground write flow, unless that is 0.
pub open spec fn seed_speed(w: Seq<(u64, u64)>) -> Option<u64> {
    if percentile_90_of(w) == 0 {
        None
    } else {
        Some(percentile_90_of(w))
    }
}

/// Unlimited, or within `[MIN_THROTTLE_SPEED, MAX_THROTTLE_SPEED]`.
pub open spec fn speed_in_range(s: Option<u64>) -> bool {
    match s {
        Some(v) => MIN_THROTTLE_SPEED <= v <= MAX_THROTTLE_SPEED,
        None => true,
    }
}

/// `d + 1`, capped at `i64::MAX`.
pub open spec fn debt_up(d: i64) -> i64 {
    if d < i64::MAX { (d + 1) as i64 } else { d }
}

/// `d - 1`, capped at `i64::MIN`.
pub open spec fn debt_down(d: i64) -> i64 {
    if d > i64::MIN { (d - 1) as i64 } else { d }
}

/// Throttle state, memtable debt and `init_speed` after a memtable sample,
/// from the throttle state `t`, the debt and `init_speed` before, the
/// memtable window `w` after the sample, the count `prev` before it, the
/// threshold, and the recorded write flow `wf`:
/// - unthrottled: start from the seed speed if the average count exceeds
///   the threshold (setting `init_speed`), else stay unlimited;
/// - throttled, with an average at most the threshold or a latest count
///   below it: clear the debt, release if `init_speed`, else keep the speed;
/// - throttled otherwise: one step down if the count rose, one step up if
///   it fell, and the debt follows.
pub open spec fn memtable_outcome(
    t: Throttle,
    debt: i64,
    init_speed: bool,
    w: Seq<(u64, u64)>,
    prev: u64,
    threshold: u64,
    wf: Seq<(u64, u64)>,
) -> (Throttle, i64, bool) {
    let should = avg_above(w, threshold as int, 1);
    let recent = recent_of(w);
    match t.speed_limit {
        None => if should {
            (applied(t, seed_speed(wf)), debt, true)
        } else {
            (applied(t, None), debt, init_speed)
        },
        Some(v) => if !should || recent < threshold {
            (applied(t, if init_speed { None } else { Some(v) }), 0, init_speed)
        } else if recent > prev {
            (
                applied(t, Some(if v > MEMTABLE_SPEED_STEP { (v - MEMTABLE_SPEED_STEP) as u64 } else { 0 })),
                debt_up(debt),
                init_speed,
            )
        } else if recent < prev {
            (applied(t, Some((v + MEMTABLE_SPEED_STEP) as u64)), debt_down(debt), init_speed)
        } else {
            (applied(t, Some(v)), debt, init_speed)
        },
    }
}

/// `(avg(s) + target) / 2`, rounded down.
pub open spec fn midpoint_flow(s: Seq<(u64, u64)>, target: u64) -> int {
    (sum_samples(s) + target * s.len()) / (2 * s.len() as int)
}

/// CF `cf`, with `num` L0 files, takes over throttling from CF `a`: it has
/// more than `THROTTLE_CF_MARGIN` files beyond the most `a` has recorded.
pub open spec fn takes_over(cfs: Seq<CfFlowChecker>, a: int, num: u64) -> bool {
    num > max_sample(cfs[a].long_term_num_l0_files@) + THROTTLE_CF_MARGIN
}

/// The throttle state after an L0 compaction of the throttle-eligible CF
/// `cf`, whose statistics (after the sample) are `c`:
/// - unthrottled, above the threshold: throttle from the seed speed with
///   `cf` as throttle CF and the target flow anchored at the short-term
///   production average;
/// - throttled, above the threshold: keep the speed; lower the target to
///   the consumption average once the count passed the anchor by more than
///   `TARGET_REFRESH_MARGIN`, or anchor it if it was not;
/// - throttled, at most the threshold: keep the speed while L0 is still
///   half full on average or after the last flush; otherwise raise the
///   target towards the consumption average and the speed by
///   `LIMIT_UP_PERCENT`;
/// - otherwise unlimited.
pub open spec fn l0_decision(t: Throttle, c: CfFlowChecker, cf: int, threshold: u64, wf: Seq<(u64, u64)>) -> Throttle {
    let num = c.last_num_l0_files;
    let prod = c.short_term_l0_production_flow@;
    let cons = c.short_term_l0_consumption_flow@;
    match t.speed_limit {
        None => if num > threshold {
            applied(
                Throttle {
                    throttle_cf: Some(cf as usize),
                    target_anchor: Some(num),
                    l0_target_flow: avg_floor(prod) as u64,
                    ..t
                },
                seed_speed(wf),
            )
        } else {
            applied(t, None)
        },
        Some(v) => if num > threshold {
            applied(
                match t.target_anchor {
                    Some(a) => if num > a + TARGET_REFRESH_MARGIN && avg_below(cons, t.l0_target_flow as int, 1) {
                        Throttle { l0_target_flow: avg_floor(cons) as u64, target_anchor: Some(num), ..t }
                    } else {
                        t
                    },
                    None => Throttle { target_anchor: Some(num), l0_target_flow: avg_floor(prod) as u64, ..t },
                },
                Some(v),
            )
        } else if !avg_below(c.long_term_num_l0_files@, threshold as int, 2)
            || c.last_num_l0_files_from_flush >= threshold {
            applied(t, Some(v))
        } else {
            applied(
                if t.target_anchor is Some && avg_above(cons, t.l0_target_flow as int, 1)
                    && midpoint_flow(cons, t.l0_target_flow) > t.l0_target_flow {
                    Throttle { l0_target_flow: midpoint_flow(cons, t.l0_target_flow) as u64, ..t }
                } else {
                    t
                },
                Some((v * (100 + LIMIT_UP_PERCENT) / 100) as u64),
            )
        },
    }
}

/// The throttle state after an L0 compaction of CF `cf` that passed the
/// start-up latch; `cfs` are the statistics after the sample. Another CF's
/// throttling is only taken over as `takes_over` says.
pub open spec fn l0_decr_outcome(t: Throttle, cfs: Seq<CfFlowChecker>, cf: int, threshold: u64, wf: Seq<(u64, u64)>) -> Throttle {
    let c = cfs[cf];
    match t.throttle_cf {
        Some(a) => if a != cf {
            if takes_over(cfs, a as int, c.last_num_l0_files) {
                l0_decision(
                    Throttle {
                        throttle_cf: Some(cf as usize),
                        target_anchor: Some(c.last_num_l0_files),
                        l0_target_flow: avg_floor(c.short_term_l0_production_flow@) as u64,
                        ..t
                    },
                    c,
                    cf,
                    threshold,
                    wf,
                )
            } else {
                t
            }
        } else {
            l0_decision(t, c, cf, threshold, wf)
        },
        None => l0_decision(t, c, cf, threshold, wf),
    }
}

/// The PID correction before clamping: 0.15 times the gap between `target`
/// and the average of `s`, minus 5 times the slope of `s`; rounded down.
pub open spec fn pid_raw(target: u64, s: Seq<(u64, u64)>) -> int {
    let total = if s.len() == 0 { 0 } else { sum_samples(s) };
    let len = if s.len() == 0 { 1 } else { s.len() as int };
    (3 * (target * len - total - 5 * slope_of(s) * len)) / (20 * len)
}

/// The PID correction clamped to `[0, speed]`.
pub open spec fn pid_correction(target: u64, s: Seq<(u64, u64)>, speed: u64) -> u64 {
    if pid_raw(target, s) > speed {
        speed
    } else if pid_raw(target, s) < 0 {
        0
    } else {
        pid_raw(target, s) as u64
    }
}

/// The throttle state after a decrease step for CF `cf`: from unlimited,
/// throttle from the seed speed; else lower by `LIMIT_DOWN_PERCENT`.
pub open spec fn decreased(t: Throttle, cf: int, wf: Seq<(u64, u64)>) -> Throttle {
    match t.speed_limit {
        None => applied(Throttle { throttle_cf: Some(cf as usize), ..t }, seed_speed(wf)),
        Some(v) => applied(t, Some((v * (100 - LIMIT_DOWN_PERCENT) / 100) as u64)),
    }
}

/// The throttle state after an increase step for CF `cf` whose short-term
/// production window is `s`: from unlimited, throttle from the seed speed;
/// else add the clamped PID correction.
pub open spec fn increased(t: Throttle, cf: int, s: Seq<(u64, u64)>, wf: Seq<(u64, u64)>) -> Throttle {
    match t.speed_limit {
        None => applied(Throttle { throttle_cf: Some(cf as usize), ..t }, seed_speed(wf)),
        Some(v) => applied(t, Some((v + pid_correction(t.l0_target_flow, s, v)) as u64)),
    }
}

/// The throttle state after a new flush flow of CF `cf` (statistics `c`
/// after the sample) passed the start-up latch: nothing unless `cf` may
/// drive throttling and a target flow is anchored; then decrease when both
/// the long-term average and the latest flush flow exceed the target, or
/// increase when the flush flow falls short of the target while the
/// foreground writes press against the limit (latest write flow above 95%
/// of it).
pub open spec fn l0_incr_outcome(t: Throttle, c: CfFlowChecker, cf: int, wf: Seq<(u64, u64)>) -> Throttle {
    let target = t.l0_target_flow;
    let prod = c.short_term_l0_production_flow@;
    if (t.throttle_cf is Some && t.throttle_cf->0 != cf) || t.target_anchor is None {
        t
    } else if avg_above(c.long_term_l0_production_flow@, target as int, 1) && recent_of(prod) > target {
        decreased(t, cf, wf)
    } else if (avg_below(prod, target as int, 1) || recent_of(prod) < target) && match t.speed_limit {
        Some(v) => recent_of(wf) * 100 > v * 95,
        None => false,
    } {
        increased(t, cf, prod, wf)
    } else {
        t
    }
}

/// The throttle state after `SPARE_TICKS_THRESHOLD` idle ticks: while
/// throttled by a CF that is at most at the L0 threshold, raise the speed
/// by five times `LIMIT_UP_PERCENT`, unless L0 is still half full on
/// average or at its latest compaction, or was full after its last flush.
pub open spec fn tick_outcome(t: Throttle, cfs: Seq<CfFlowChecker>, threshold: u64) -> Throttle {
    match (t.speed_limit, t.throttle_cf) {
        (Some(v), Some(a)) => {
            let c = cfs[a as int];
            if c.last_num_l0_files <= threshold {
                if !avg_below(c.long_term_num_l0_files@, threshold as int, 2)
                    || recent_of(c.long_term_num_l0_files@) * 2 >= threshold
                    || c.last_num_l0_files_from_flush >= threshold {
                    applied(t, Some(v))
                } else {
                    applied(t, Some((v * (100 + 5 * LIMIT_UP_PERCENT) / 100) as u64))
                }
            } else {
                t
            }
        },
        _ => t,
    }
}

/// Every proposed speed limit ends up unlimited or within
/// `[MIN_THROTTLE_SPEED, MAX_THROTTLE_SPEED]`; a proposal above
/// `MAX_THROTTLE_SPEED` releases throttling and clears the throttle CF.
pub proof fn lemma_speed_clamp(t: Throttle, proposed: Option<u64>)
    ensures
        speed_in_range(applied(t, proposed).speed_limit),
        match proposed {
            Some(v) => v > MAX_THROTTLE_SPEED ==> applied(t, proposed).speed_limit is None
                && applied(t, proposed).throttle_cf is None,
            None => applied(t, proposed).speed_limit is None,
        },
{
}

/// Throttle-CF hysteresis: while CF `a` drives throttling, another CF `cf`
/// becomes the throttle CF through an L0 compaction only with more than
/// `THROTTLE_CF_MARGIN` files beyond the most `a` has recorded, and never
/// through a flush.
pub proof fn lemma_throttle_cf_hysteresis(
    t: Throttle,
    cfs: Seq<CfFlowChecker>,
    cf: int,
    a: int,
    threshold: u64,
    wf: Seq<(u64, u64)>,
)
    requires
        0 <= cf < cfs.len(),
        0 <= a < cfs.len(),
        cfs.len() <= usize::MAX,
        a != cf,
        t.throttle_cf == Some(a as usize),
    ensures
        l0_decr_outcome(t, cfs, cf, threshold, wf).throttle_cf == Some(cf as usize)
            ==> takes_over(cfs, a, cfs[cf].last_num_l0_files),
        l0_incr_outcome(t, cfs[cf], cf, wf).throttle_cf != Some(cf as usize),
{
}

/// A PID increase step never lowers a speed limit: it either raises it by
/// a non-negative correction or releases throttling.
pub proof fn lemma_pid_step_nonnegative(t: Throttle, cf: int, s: Seq<(u64, u64)>, wf: Seq<(u64, u64)>)
    requires
        t.speed_limit is Some,
        speed_in_range(t.speed_limit),
    ensures
        increased(t, cf, s, wf).speed_limit is None
            || increased(t, cf, s, wf).speed_limit->0 >= t.speed_limit->0,
{
}

/// Under a steady production deficit (the latest flush flow at or below
/// the target), a new flush flow never lowers the speed limit.
pub proof fn lemma_steady_deficit_never_lowers(t: Throttle, c: CfFlowChecker, cf: int, wf: Seq<(u64, u64)>)
    requires
        t.speed_limit is Some,
        speed_in_range(t.speed_limit),
        recent_of(c.short_term_l0_production_flow@) <= t.l0_target_flow,
    ensures
        l0_incr_outcome(t, c, cf, wf).speed_limit is None
            || l0_incr_outcome(t, c, cf, wf).speed_limit->0 >= t.speed_limit->0,
{
    lemma_pid_step_nonnegative(t, cf, c.short_term_l0_production_flow@, wf);
}

} // verus!
